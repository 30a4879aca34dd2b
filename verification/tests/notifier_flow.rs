use qasa_tg_notifier::notifier::{
    callback_step, cycle_step, describe_user, message_command, search_cutoff, search_outcome, CallbackStep,
    Command, CycleStep, UserInfo, RECENT_MAX_LISTINGS,
};
use qasa_tg_notifier::qasa::{page_nodes, standing, Fetched, Home, NewScan, PageError, RecentScan, PAGE_LIMIT};
use qasa_tg_notifier::search::{describe, Filters};
use qasa_tg_notifier::telegram::State;

fn listing(id: u64) -> Home {
    Home {
        id: id.to_string(),
        title: None,
        rent: Some(10_000 + id as i64),
        currency: None,
        monthly_cost: None,
        room_count_tenths: Some(20),
        square_meters_tenths: None,
        home_type: None,
        first_hand: None,
        platform: None,
        published_at: None,
        published_or_bumped_at: None,
        location: None,
    }
}

fn dated(id: u64, published: &str, bumped: &str) -> Home {
    let mut h = listing(id);
    h.published_at = Some(published.to_string());
    h.published_or_bumped_at = Some(bumped.to_string());
    h
}

fn ids(hs: &[Home]) -> Vec<String> {
    hs.iter().map(|h| h.id.clone()).collect()
}

#[test]
fn first_scan_only_learns_the_watermark() {
    let mut scan = NewScan::start(None);
    assert_eq!(scan.next_offset(), Some(0));
    scan.feed(vec![listing(5), listing(9), listing(7)]);
    assert_eq!(scan.next_offset(), None);
    let fetched = scan.finish();
    assert!(fetched.new.is_empty());
    assert_eq!(fetched.max_id, 9);
}

#[test]
fn scan_keeps_listings_above_the_watermark_and_stops_on_a_stale_page() {
    let mut scan = NewScan::start(Some(6));
    assert_eq!(scan.next_offset(), Some(0));
    scan.feed(vec![listing(9), listing(7), listing(5)]);
    assert_eq!(scan.next_offset(), Some(PAGE_LIMIT));
    scan.feed(vec![listing(4), listing(3)]);
    assert_eq!(scan.next_offset(), None);
    let fetched = scan.finish();
    assert_eq!(ids(&fetched.new), vec!["9", "7"]);
    assert_eq!(fetched.max_id, 9);
}

#[test]
fn scan_skips_non_numeric_ids_and_stops_on_an_empty_page() {
    let mut scan = NewScan::start(Some(1));
    let mut odd = listing(0);
    odd.id = "abc".to_string();
    scan.feed(vec![odd, listing(2)]);
    scan.feed(vec![]);
    assert_eq!(scan.next_offset(), None);
    let fetched = scan.finish();
    assert_eq!(ids(&fetched.new), vec!["2"]);
}

#[test]
fn first_cycle_seeds_the_watermark() {
    let step = cycle_step(None, Fetched { new: vec![], max_id: 77 }, 40);
    assert!(matches!(step, CycleStep::Seed { watermark: 77 }));
}

#[test]
fn quiet_cycle_does_nothing() {
    let st = State { watermark: 5, message_id: 1 };
    let step = cycle_step(Some(st), Fetched { new: vec![], max_id: 5 }, 40);
    assert!(matches!(step, CycleStep::Idle));
}

#[test]
fn capped_cycle_sends_the_oldest_and_advances_past_them_only() {
    let st = State { watermark: 6, message_id: 3 };
    let fetched = Fetched { new: vec![listing(9), listing(7), listing(8)], max_id: 9 };
    match cycle_step(Some(st), fetched, 2) {
        CycleStep::Deliver { send, note, message_id, watermark } => {
            assert_eq!(ids(&send), vec!["7", "8"]);
            assert_eq!(
                note.as_deref(),
                Some("…and 1 more new listing(s) — sending next cycle.")
            );
            assert_eq!(message_id, 3);
            assert_eq!(watermark, 8);
        }
        _ => panic!("expected a delivery"),
    }
}

#[test]
fn uncapped_cycle_sends_everything_without_a_note() {
    let st = State { watermark: 6, message_id: 3 };
    let fetched = Fetched { new: vec![listing(12), listing(10)], max_id: 12 };
    match cycle_step(Some(st), fetched, 40) {
        CycleStep::Deliver { send, note, watermark, .. } => {
            assert_eq!(ids(&send), vec!["10", "12"]);
            assert!(note.is_none());
            assert_eq!(watermark, 12);
        }
        _ => panic!("expected a delivery"),
    }
}

#[test]
fn recent_scan_pages_until_a_stale_page_and_posts_oldest_first() {
    let cutoff = 1_786_147_200_000_000_000i128; // 2026-08-08T00:00:00Z
    let mut scan = RecentScan::start(cutoff, 3);
    assert_eq!(scan.next_offset(), Some(0));
    scan.feed(vec![
        dated(1, "2026-08-08T10:00:00Z", "2026-08-08T10:00:00Z"),
        dated(2, "2026-08-01T10:00:00Z", "2026-08-08T05:00:00Z"),
        dated(3, "2026-08-08T05:00:00Z", "2026-08-08T05:00:00Z"),
    ]);
    assert_eq!(scan.next_offset(), Some(PAGE_LIMIT));
    scan.feed(vec![dated(4, "2026-07-01T10:00:00Z", "2026-07-02T10:00:00Z")]);
    assert_eq!(scan.next_offset(), None);
    assert_eq!(ids(&scan.finish()), vec!["3", "1"]);
}

#[test]
fn recent_scan_keeps_only_the_newest() {
    let cutoff = 1_786_147_200_000_000_000i128;
    let mut scan = RecentScan::start(cutoff, 1);
    scan.feed(vec![
        dated(3, "2026-08-08T05:00:00Z", "2026-08-08T05:00:00Z"),
        dated(1, "2026-08-08T10:00:00Z", "2026-08-08T10:00:00Z"),
    ]);
    assert_eq!(scan.next_offset(), None);
    assert_eq!(ids(&scan.finish()), vec!["1"]);
}

#[test]
fn search_posts_the_newest_forty_matches() {
    let homes: Vec<Home> = (1..=45).map(listing).collect();
    let out = search_outcome(&Filters::default(), homes);
    assert_eq!(out.total, 45);
    assert_eq!(out.posts.len(), RECENT_MAX_LISTINGS);
    assert_eq!(out.posts[0].id, "6");
    assert_eq!(out.note, "✅ 45 matches — showing the newest 40.");
}

#[test]
fn search_notes_few_and_no_matches() {
    let homes: Vec<Home> = (1..=3).map(listing).collect();
    let out = search_outcome(&Filters::default(), homes.clone());
    assert_eq!(out.total, 3);
    assert_eq!(out.note, "✅ 3 match(es).");

    let picky = Filters {
        min_rent: Some(50_000),
        ..Filters::default()
    };
    let none = search_outcome(&picky, homes);
    assert_eq!(none.total, 0);
    assert!(none.posts.is_empty());
    assert_eq!(none.note, "No matches for those filters.");
}

#[test]
fn commands_are_read_from_the_first_word() {
    assert_eq!(message_command(10, 10, "/search"), Command::OpenSearch);
    assert_eq!(message_command(10, 10, "  /recent@my_bot now"), Command::OpenSearch);
    assert_eq!(message_command(10, 10, "/help"), Command::Help);
    assert_eq!(message_command(10, 10, "/start@my_bot"), Command::Help);
    assert_eq!(message_command(10, 10, "hello /search"), Command::Ignore);
    assert_eq!(message_command(10, 10, "   "), Command::Ignore);
    assert_eq!(message_command(10, 11, "/search"), Command::Ignore);
}

#[test]
fn users_are_described_for_logs() {
    let anna = UserInfo { id: 123, first_name: "Anna".to_string(), username: Some("anna".to_string()) };
    assert_eq!(describe_user(Some(&anna)), "Anna (id=123, @anna)");
    let bo = UserInfo { id: 7, first_name: "Bo".to_string(), username: None };
    assert_eq!(describe_user(Some(&bo)), "Bo (id=7, no-username)");
    assert_eq!(describe_user(None), "unknown user");
}

#[test]
fn button_presses_redraw_start_or_expire() {
    match callback_step(10, Some(10), Some("menu:age"), Some(Filters::default())) {
        CallbackStep::Redraw { text, filters, .. } => {
            assert_eq!(text, "⏱ Published within — pick a max age:");
            assert_eq!(filters.age_hours, 24);
        }
        _ => panic!("expected a redraw"),
    }
    match callback_step(10, Some(10), Some("age:48"), Some(Filters::default())) {
        CallbackStep::Redraw { filters, .. } => assert_eq!(filters.age_hours, 48),
        _ => panic!("expected a redraw"),
    }
    match callback_step(10, Some(10), Some("go"), Some(Filters::default())) {
        CallbackStep::Start { text, filters } => {
            assert_eq!(text, format!("🔎 Searching…\n\n{}", describe(&filters)));
        }
        _ => panic!("expected a search"),
    }
    match callback_step(10, Some(10), Some("go"), None) {
        CallbackStep::Expired { text } => {
            assert_eq!(text, "This search expired — send /search to start a new one.")
        }
        _ => panic!("expected an expired session"),
    }
    assert!(matches!(
        callback_step(10, Some(11), Some("go"), Some(Filters::default())),
        CallbackStep::Ignore
    ));
    assert!(matches!(callback_step(10, Some(10), None, None), CallbackStep::Ignore));
    assert!(matches!(
        callback_step(10, Some(10), Some("garbage"), Some(Filters::default())),
        CallbackStep::Ignore
    ));
}

#[test]
fn search_window_reaches_back_by_the_age() {
    let now = 1_786_183_200_000_000_000i128; // 2026-08-08T10:00:00Z
    assert_eq!(search_cutoff(now, 24), 1_786_096_800_000_000_000);
    assert_eq!(search_cutoff(now, 0), now);
}

#[test]
fn listing_standing_against_a_cutoff() {
    assert_eq!(standing(Some(10), Some(5), 10), (true, false));
    assert_eq!(standing(None, None, 10), (true, false));
    assert_eq!(standing(Some(9), Some(11), 10), (false, true));
}

#[test]
fn unreadable_pages_are_errors() {
    assert!(matches!(page_nodes(2, Some(vec![listing(1)])), Err(PageError::Errors)));
    assert!(matches!(page_nodes(1, None), Err(PageError::Errors)));
    assert!(matches!(page_nodes(0, None), Err(PageError::NoData)));
    match page_nodes(0, Some(vec![listing(1), listing(2)])) {
        Ok(nodes) => assert_eq!(ids(&nodes), vec!["1", "2"]),
        Err(_) => panic!("expected the listings"),
    }
    assert_eq!(PageError::Errors.message(), "Qasa GraphQL returned errors");
    assert_eq!(PageError::NoData.message(), "GraphQL response had no data");
}
