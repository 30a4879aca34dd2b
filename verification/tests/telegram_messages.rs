use std::collections::BTreeSet;

use qasa_tg_notifier::bostad::{Ad, KotidStatistik};
use qasa_tg_notifier::qasa::{Home, Location};
use qasa_tg_notifier::telegram::{
    bostad_state_text, esc, fmt_num, format_bostad_listing, format_listing, listing_url,
    parse_seen, parse_watermark, pinned_bostad_state, pinned_state, retry_wait, state_text,
    DEFAULT_RETRY_SECS, MAX_SEND_ATTEMPTS,
};

fn snabbt_ad() -> Ad {
    Ad {
        annons_id: 301_449,
        gatuadress: Some("Njupkärrsvägen 5".to_string()),
        stadsdel: Some("Bollmora".to_string()),
        kommun: Some("Tyresö".to_string()),
        antal_rum_tenths: Some(10),
        yta_tenths: Some(330),
        hyra: Some(9_074),
        lagsta_hyran: None,
        hogsta_hyran: None,
        lagsta_ytan_tenths: None,
        hogsta_ytan_tenths: None,
        annonserad_till: Some("2026-09-03".to_string()),
        url: Some("/bostad/202615120/".to_string()),
        lagenhetstyp: Some("Hyresrätt".to_string()),
        nyproduktion: true,
        student: false,
        ungdom: false,
        senior: false,
        korttid: false,
        vanlig: false,
        bostad_snabbt: true,
        kort_kotid: false,
        liknade_lagenhet_statistik: Some(KotidStatistik {
            kotid_fordelning_q1: Some(2),
            kotid_fordelning_q3: Some(4),
        }),
    }
}

fn loft() -> Home {
    Home {
        id: "42".to_string(),
        title: Some("A & B <loft>".to_string()),
        rent: Some(12000),
        currency: Some("SEK".to_string()),
        monthly_cost: None,
        room_count_tenths: Some(20),
        square_meters_tenths: Some(450),
        home_type: Some("apartment".to_string()),
        first_hand: Some(true),
        platform: Some("dotcom".to_string()),
        published_at: None,
        published_or_bumped_at: None,
        location: None,
    }
}

#[test]
fn parses_watermark_from_state_text() {
    let text = "📌 qasa-tg-notifier state\nwatermark=1433991\nfoo";
    assert_eq!(parse_watermark(text), Some(1_433_991));
}

#[test]
fn missing_watermark_is_none() {
    assert_eq!(parse_watermark("no marker here"), None);
}

#[test]
fn parses_seen_set_from_state_text() {
    let text = "📌 bostad-snabbt notifier state\nseen=301449,301581,301744\nfoo";
    let seen = parse_seen(text).unwrap();
    assert_eq!(seen.len(), 3);
    assert!(seen.contains(&301_449));
    // An empty list is valid state (all live ads expired), not "no state".
    assert_eq!(parse_seen("seen=\nrest"), Some(Default::default()));
    assert_eq!(parse_seen("no marker here"), None);
}

#[test]
fn formats_bostad_listing() {
    let ad = snabbt_ad();
    let out = format_bostad_listing(&ad);
    assert!(out.contains("<b>Njupkärrsvägen 5</b>, Bollmora, Tyresö"));
    assert!(out.contains("9074 SEK/mo"));
    assert!(out.contains("33 m² · 1 rooms"));
    // Snabbt ads bypass the queue, so their stats are not shown…
    assert!(!out.contains("queue ~"));
    // …but queue-allocated ads show the range.
    let mut regular = ad.clone();
    regular.bostad_snabbt = false;
    assert!(format_bostad_listing(&regular).contains("⏳ queue ~2–4 yrs"));
    assert!(out.contains("Bostad snabbt"));
    assert!(out.contains("apply by 2026-09-03"));
    assert_eq!(ad.full_url(), "https://bostad.stockholm.se/bostad/202615120/");
}

#[test]
fn escapes_html_in_listing() {
    let home = loft();
    let out = format_listing(&home);
    assert!(out.contains("A &amp; B &lt;loft&gt;"));
    assert!(out.contains("2 rooms"));
    assert!(out.contains("45 m²"));
    assert_eq!(listing_url(&home), "https://qasa.com/se/en/home/42");
}

#[test]
fn listing_text_in_full() {
    assert_eq!(
        format_listing(&loft()),
        "🏠 <b>A &amp; B &lt;loft&gt;</b>\n💰 12000 SEK/mo\n📐 45 m² · 2 rooms\n🏷 apartment · first-hand · via dotcom"
    );
}

#[test]
fn listing_prefers_the_street_and_adds_the_locality() {
    let mut h = loft();
    h.title = None;
    h.monthly_cost = Some(12_500);
    h.room_count_tenths = Some(15);
    h.square_meters_tenths = None;
    h.first_hand = None;
    h.location = Some(Location {
        locality: Some("Årsta".to_string()),
        route: Some("Svärdlångsvägen".to_string()),
        street_number: Some("12".to_string()),
    });
    assert_eq!(
        format_listing(&h),
        "🏠 <b>Svärdlångsvägen 12</b>, Årsta\n💰 12000 SEK/mo (total 12500)\n📐 1.5 rooms\n🏷 apartment · via dotcom"
    );
}

#[test]
fn bare_listing_is_a_home() {
    let h = Home {
        id: "7".to_string(),
        title: None,
        rent: None,
        currency: None,
        monthly_cost: None,
        room_count_tenths: None,
        square_meters_tenths: None,
        home_type: None,
        first_hand: None,
        platform: None,
        published_at: None,
        published_or_bumped_at: None,
        location: None,
    };
    assert_eq!(format_listing(&h), "🏠 <b>Home</b>");
}

#[test]
fn bostad_listing_text_in_full() {
    assert_eq!(
        format_bostad_listing(&snabbt_ad()),
        "🏠 <b>Njupkärrsvägen 5</b>, Bollmora, Tyresö\n💰 9074 SEK/mo\n📐 33 m² · 1 rooms\n🏷 ⚡ Bostad snabbt — first come, first served · new build · Hyresrätt\n⏰ apply by 2026-09-03"
    );
}

#[test]
fn bostad_queue_line_with_one_quartile() {
    let mut ad = snabbt_ad();
    ad.bostad_snabbt = false;
    ad.kort_kotid = true;
    ad.liknade_lagenhet_statistik = Some(KotidStatistik {
        kotid_fordelning_q1: Some(3),
        kotid_fordelning_q3: Some(3),
    });
    let out = format_bostad_listing(&ad);
    assert!(out.contains("⏳ queue ~3 yrs"));
    assert!(out.contains("short queue"));
}

#[test]
fn numbers_drop_a_trailing_zero_tenth() {
    assert_eq!(fmt_num(330), "33");
    assert_eq!(fmt_num(15), "1.5");
    assert_eq!(fmt_num(0), "0");
    assert_eq!(fmt_num(-15), "-1.5");
}

#[test]
fn escaping_replaces_markup_characters() {
    assert_eq!(esc("a<b>&c"), "a&lt;b&gt;&amp;c");
    assert_eq!(esc("plain"), "plain");
    assert_eq!(esc("say \"hi\", it's"), "say &quot;hi&quot;, it&#39;s");
    assert_eq!(esc("&quot;"), "&amp;quot;");
}

#[test]
fn state_text_reads_back() {
    let text = state_text(1_433_991);
    assert_eq!(
        text,
        "📌 qasa-tg-notifier state\nwatermark=1433991\nNewest Qasa home id seen — please don't unpin or delete."
    );
    assert_eq!(parse_watermark(&text), Some(1_433_991));
    let st = pinned_state(Some(text.as_str()), 9).unwrap();
    assert_eq!(st.watermark, 1_433_991);
    assert_eq!(st.message_id, 9);
    assert!(pinned_state(None, 9).is_none());
    assert!(pinned_state(Some("hello"), 9).is_none());
}

#[test]
fn bostad_state_text_reads_back() {
    let seen: BTreeSet<u64> = [301_744u64, 301_449, 301_581].into_iter().collect();
    let text = bostad_state_text(&seen);
    assert_eq!(
        text,
        "📌 bostad-snabbt notifier state\nseen=301449,301581,301744\nLive Bostad snabbt ad ids already notified — please don't unpin or delete."
    );
    assert_eq!(parse_seen(&text), Some(seen.clone()));
    let empty = BTreeSet::new();
    assert_eq!(parse_seen(&bostad_state_text(&empty)), Some(empty));
    let st = pinned_bostad_state(Some(text.as_str()), 4).unwrap();
    assert_eq!(st.seen, seen);
    assert_eq!(st.message_id, 4);
}

#[test]
fn rate_limits_are_retried_until_the_last_attempt() {
    assert_eq!(retry_wait(1, Some(429), Some(7)), Some(8));
    assert_eq!(retry_wait(2, Some(429), None), Some(DEFAULT_RETRY_SECS as u64 + 1));
    assert_eq!(retry_wait(MAX_SEND_ATTEMPTS, Some(429), Some(7)), None);
    assert_eq!(retry_wait(1, Some(400), Some(7)), None);
    assert_eq!(retry_wait(1, None, None), None);
}

#[test]
fn quotes_in_listing_titles_are_escaped() {
    let mut h = loft();
    h.title = Some("\"Sunny\" loft, Anna's".to_string());
    assert!(format_listing(&h).starts_with("🏠 <b>&quot;Sunny&quot; loft, Anna&#39;s</b>\n"));
}
