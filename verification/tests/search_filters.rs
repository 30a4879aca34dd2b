use qasa_tg_notifier::qasa::Home;
use qasa_tg_notifier::search::{
    apply, describe, main_text, passes, rent_text, render, rooms_text, thousands, Action, Area,
    Filters, Screen, AREA_COUNT,
};

fn home(rooms: Option<f64>, rent: Option<i64>) -> Home {
    Home {
        id: "1".to_string(),
        title: None,
        rent,
        currency: None,
        monthly_cost: None,
        room_count_tenths: rooms.map(|r| (r * 10.0).round() as i64),
        square_meters_tenths: None,
        home_type: None,
        first_hand: None,
        platform: None,
        published_at: None,
        published_or_bumped_at: None,
        location: None,
    }
}

#[test]
fn passes_room_and_rent_range() {
    let f = Filters {
        min_rooms: 2,
        min_rent: Some(10_000),
        max_rent: Some(15_000),
        ..Filters::default()
    };
    assert!(passes(&f, &home(Some(2.0), Some(12_000))));
    assert!(!passes(&f, &home(Some(1.0), Some(12_000)))); // too few rooms
    assert!(!passes(&f, &home(Some(2.0), Some(9_000)))); // below min rent
    assert!(!passes(&f, &home(Some(2.0), Some(16_000)))); // above max rent
    assert!(!passes(&f, &home(Some(2.0), None))); // unknown rent excluded
}

#[test]
fn area_multiselect_toggles_and_maps_to_slugs() {
    let all = Area::all();
    let mut f = Filters::default();
    assert_eq!(f.area_slugs(), vec!["se/stockholm"]);
    assert_eq!(f.area_summary(), "All Stockholm");

    // Toggle two areas on; each keeps us on the area screen.
    assert!(matches!(apply(&mut f, "area:0"), Action::Show(Screen::Area)));
    assert!(matches!(apply(&mut f, "area:3"), Action::Show(Screen::Area)));
    assert_eq!(f.areas.len(), 2);
    let slugs = f.area_slugs();
    assert!(slugs.contains(&all[0].slug()));
    assert!(slugs.contains(&all[3].slug()));

    // Toggle the first back off.
    apply(&mut f, "area:0");
    assert_eq!(f.areas.len(), 1);

    // Clear returns to "all".
    assert!(matches!(apply(&mut f, "areaclear"), Action::Show(Screen::Area)));
    assert_eq!(f.area_slugs(), vec!["se/stockholm"]);
}

#[test]
fn search_apply_updates_and_routes() {
    let mut f = Filters::default();
    assert!(matches!(apply(&mut f, "menu:age"), Action::Show(Screen::Age)));
    assert!(matches!(apply(&mut f, "age:48"), Action::Show(Screen::Main)));
    assert_eq!(f.age_hours, 48);
    assert!(matches!(apply(&mut f, "minrent:10000"), Action::Show(Screen::Main)));
    assert_eq!(f.min_rent, Some(10_000));
    assert!(matches!(apply(&mut f, "maxrent:0"), Action::Show(Screen::Main)));
    assert_eq!(f.max_rent, None);
    assert!(matches!(apply(&mut f, "go"), Action::Search));
    assert!(matches!(apply(&mut f, "garbage"), Action::Ignore));
}

#[test]
fn all_area_slugs_are_prefixed_and_unique() {
    let mut seen = std::collections::HashSet::new();
    for area in Area::all() {
        assert!(area.slug().starts_with("se/"), "{}", area.slug());
        assert!(seen.insert(area.slug()), "duplicate slug {}", area.slug());
    }
    assert_eq!(Area::from_index(AREA_COUNT), None);
}

#[test]
fn toggling_an_area_twice_restores_the_selection() {
    let mut f = Filters::default();
    apply(&mut f, "area:5");
    let before = f.area_slugs();
    apply(&mut f, "area:7");
    apply(&mut f, "area:7");
    assert_eq!(f.area_slugs(), before);
    assert_eq!(f.areas.len(), 1);
}

#[test]
fn selected_slugs_follow_display_order() {
    let all = Area::all();
    let mut f = Filters::default();
    apply(&mut f, "area:10");
    apply(&mut f, "area:2");
    assert_eq!(f.area_slugs(), vec![all[2].slug(), all[10].slug()]);
}

#[test]
fn area_index_out_of_range_changes_nothing() {
    let mut f = Filters::default();
    assert!(matches!(apply(&mut f, "area:59"), Action::Show(Screen::Area)));
    assert!(matches!(apply(&mut f, "area:x"), Action::Show(Screen::Area)));
    assert!(f.areas.is_empty());
}

#[test]
fn unknown_age_preset_keeps_the_age() {
    let mut f = Filters::default();
    assert!(matches!(apply(&mut f, "age:5"), Action::Show(Screen::Main)));
    assert_eq!(f.age_hours, 24);
    assert!(matches!(apply(&mut f, "nokey:5"), Action::Ignore));
}

#[test]
fn search_and_back_leave_filters_alone() {
    let mut f = Filters::default();
    apply(&mut f, "minrent:10000");
    assert!(matches!(apply(&mut f, "back"), Action::Show(Screen::Main)));
    assert!(matches!(apply(&mut f, "go"), Action::Search));
    assert_eq!(f.min_rent, Some(10_000));
}

#[test]
fn rent_and_room_texts() {
    assert_eq!(thousands(12_500), 12);
    assert_eq!(rent_text(None), "any");
    assert_eq!(rent_text(Some(12_000)), "12k");
    assert_eq!(rooms_text(0), "any");
    assert_eq!(rooms_text(3), "3+");
}

#[test]
fn describe_and_main_text() {
    let f = Filters {
        min_rooms: 2,
        max_rent: Some(15_500),
        ..Filters::default()
    };
    assert_eq!(
        describe(&f),
        "📍 Area: All Stockholm\n⏱ Published: last 24h\n🛏 Rooms: 2+\n💰 Rent: any–15k"
    );
    assert_eq!(
        main_text(&f),
        "🔍 Search Stockholm rentals\n\n⏱ Age: last 24h\n🛏 Rooms: 2+\n💰 Rent: any–15k\n📍 Area: All Stockholm\n\nTap a field to change it, then Search."
    );
}

#[test]
fn render_main_screen_has_a_search_button() {
    let f = Filters::default();
    let (text, kb) = render(Screen::Main, &f);
    assert_eq!(text, main_text(&f));
    let data: Vec<&str> = kb
        .rows
        .iter()
        .flat_map(|r| r.iter().map(|b| b.callback_data.as_str()))
        .collect();
    assert!(data.contains(&"go"));
    assert!(data.contains(&"menu:area"));
}

#[test]
fn area_screen_lists_every_area() {
    let f = Filters::default();
    let (_, kb) = render(Screen::Area, &f);
    let n = kb
        .rows
        .iter()
        .flat_map(|r| r.iter())
        .filter(|b| b.callback_data.starts_with("area:"))
        .count();
    assert_eq!(n, AREA_COUNT);
}
