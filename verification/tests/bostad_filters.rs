use qasa_tg_notifier::bostad::Ad;
use qasa_tg_notifier::bostad_search::{
    apply, describe, passes, render, Action, Category, Filters, Kommun, Screen, KOMMUN_COUNT,
};

fn ad(snabbt: bool, kommun: &str, rooms: Option<f64>, rent: Option<i64>) -> Ad {
    Ad {
        annons_id: 1,
        gatuadress: None,
        stadsdel: None,
        kommun: Some(kommun.to_string()),
        antal_rum_tenths: rooms.map(|r| (r * 10.0).round() as i64),
        yta_tenths: None,
        hyra: rent,
        lagsta_hyran: None,
        hogsta_hyran: None,
        lagsta_ytan_tenths: None,
        hogsta_ytan_tenths: None,
        annonserad_till: None,
        url: None,
        lagenhetstyp: None,
        nyproduktion: false,
        student: false,
        ungdom: false,
        senior: false,
        korttid: false,
        vanlig: !snabbt,
        bostad_snabbt: snabbt,
        kort_kotid: false,
        liknade_lagenhet_statistik: None,
    }
}

#[test]
fn category_and_range_filters() {
    let f = Filters {
        min_rooms: 1,
        max_rent: Some(10_000),
        ..Filters::default() // category: Snabbt
    };
    assert!(passes(&f, &ad(true, "Tyresö", Some(1.0), Some(9_074))));
    assert!(!passes(&f, &ad(false, "Tyresö", Some(1.0), Some(9_074)))); // not snabbt
    assert!(!passes(&f, &ad(true, "Tyresö", Some(1.0), Some(12_000)))); // over max rent
    assert!(!passes(&f, &ad(true, "Tyresö", None, Some(9_074)))); // unknown rooms excluded

    let all = Filters {
        category: Category::All,
        ..Filters::default()
    };
    assert!(passes(&all, &ad(false, "Tyresö", None, None)));
}

#[test]
fn kommun_multiselect_matches_feed_labels() {
    let mut f = Filters::default();
    assert_eq!(f.kommun_summary(), "Whole region");

    // Toggle Stockholm (index 0) and Tyresö on.
    let tyreso = Kommun::all()
        .iter()
        .position(|k| k.label() == "Tyresö")
        .unwrap();
    assert!(matches!(apply(&mut f, "kommun:0"), Action::Show(Screen::Kommun)));
    assert!(matches!(
        apply(&mut f, &format!("kommun:{tyreso}")),
        Action::Show(Screen::Kommun)
    ));
    assert!(passes(&f, &ad(true, "Tyresö", None, None)));
    assert!(!passes(&f, &ad(true, "Sigtuna", None, None)));

    // Clear returns to "whole region".
    assert!(matches!(apply(&mut f, "kommunclear"), Action::Show(Screen::Kommun)));
    assert!(passes(&f, &ad(true, "Sigtuna", None, None)));
}

#[test]
fn bostad_search_apply_updates_and_routes() {
    let mut f = Filters::default();
    assert!(matches!(apply(&mut f, "menu:cat"), Action::Show(Screen::Category)));
    assert!(matches!(apply(&mut f, "cat:1"), Action::Show(Screen::Main)));
    assert_eq!(f.category, Category::Student);
    assert!(matches!(apply(&mut f, "minrent:5000"), Action::Show(Screen::Main)));
    assert_eq!(f.min_rent, Some(5_000));
    assert!(matches!(apply(&mut f, "go"), Action::Search));
    assert!(matches!(apply(&mut f, "garbage"), Action::Ignore));
}

#[test]
fn kommun_labels_are_unique() {
    let mut seen = std::collections::HashSet::new();
    for k in Kommun::all() {
        assert!(seen.insert(k.label()), "duplicate kommun {}", k.label());
    }
    assert_eq!(Kommun::from_index(KOMMUN_COUNT), None);
}

#[test]
fn kommun_summary_names_two_then_counts() {
    let mut f = Filters::default();
    apply(&mut f, "kommun:2");
    apply(&mut f, "kommun:0");
    assert_eq!(f.kommun_summary(), "Stockholm, Sundbyberg");
    apply(&mut f, "kommun:1");
    assert_eq!(f.kommun_summary(), "Stockholm, Solna +1");
}

#[test]
fn category_indices_and_labels() {
    assert_eq!(Category::from_index(0), Some(Category::Snabbt));
    assert_eq!(Category::from_index(3), Some(Category::All));
    assert_eq!(Category::from_index(4), None);
    assert_eq!(Category::Snabbt.label(), "⚡ Bostad snabbt");
    let mut f = Filters::default();
    assert!(matches!(apply(&mut f, "cat:9"), Action::Show(Screen::Main)));
    assert_eq!(f.category, Category::Snabbt);
}

#[test]
fn min_rent_and_rooms_exclude_unknowns() {
    let f = Filters {
        min_rent: Some(8_000),
        category: Category::All,
        ..Filters::default()
    };
    assert!(!passes(&f, &ad(true, "Solna", Some(2.0), None)));
    assert!(!passes(&f, &ad(true, "Solna", Some(2.0), Some(7_999))));
    assert!(passes(&f, &ad(true, "Solna", Some(2.0), Some(8_000))));
}

#[test]
fn describe_names_the_category() {
    let f = Filters::default();
    assert!(describe(&f).contains("⚡ Bostad snabbt"));
    let (_, kb) = render(Screen::Kommun, &f);
    let n = kb
        .rows
        .iter()
        .flat_map(|r| r.iter())
        .filter(|b| b.callback_data.starts_with("kommun:"))
        .count();
    assert_eq!(n, KOMMUN_COUNT);
}

#[test]
fn toggling_a_kommun_twice_restores_the_selection() {
    let mut f = Filters::default();
    apply(&mut f, "kommun:4");
    assert!(matches!(apply(&mut f, "kommun:16"), Action::Show(Screen::Kommun)));
    assert!(matches!(apply(&mut f, "kommun:16"), Action::Show(Screen::Kommun)));
    assert_eq!(f.kommuner, vec![Kommun::Lidingo]);
    assert_eq!(f.category, Category::Snabbt);
}
