use qasa_tg_notifier::bostad::Ad;
use qasa_tg_notifier::qasa::{Home, Location};
use serde_json::Value;

// Captured from the live Bostadsförmedlingen feed (trimmed to the fields
// consumed plus a few extras).
const BOSTAD_SAMPLE: &str = r#"[
  {
    "LägenhetId": 202614943, "AnnonsId": 300740, "Stadsdel": "Handen",
    "Gatuadress": "Hebes Gränd 26", "Kommun": "Haninge", "AntalRum": 1,
    "Yta": null, "Hyra": null, "AnnonseradTill": "2026-09-06",
    "AnnonseradFran": "2026-08-18", "Url": "/bostad/202614943/",
    "Nyproduktion": true, "Ungdom": false, "Student": false,
    "Senior": false, "Korttid": false, "Vanlig": true,
    "Bostadssnabben": false, "BostadSnabbt": false,
    "Lagenhetstyp": "Hyresrätt", "KortKotid": false,
    "LägstaHyran": 8570, "HögstaHyran": 10165,
    "LägstaYtan": 26, "HögstaYtan": 35
  },
  {
    "AnnonsId": 301449, "Stadsdel": "Bollmora", "Gatuadress": "Njupkärrsvägen 5",
    "Kommun": "Tyresö", "AntalRum": 1, "Yta": 33, "Hyra": 9074,
    "AnnonseradFran": "2026-08-31", "AnnonseradTill": "2026-09-03",
    "Url": "/bostad/202615120/", "Nyproduktion": true,
    "Vanlig": false, "BostadSnabbt": true, "Lagenhetstyp": "Hyresrätt"
  }
]"#;

// A captured-shape sample of Qasa's GraphQL answer.
const QASA_SAMPLE: &str = r#"{
  "data": {
    "homeIndexSearch": {
      "documents": {
        "totalCount": 2,
        "nodes": [
          {
            "id": "1433991", "title": null, "rent": 18200, "currency": "SEK",
            "monthlyCost": 18200, "roomCount": 3, "squareMeters": 54,
            "homeType": "apartment", "firstHand": true, "platform": "blocket",
            "publishedAt": "2026-08-08T10:00:00Z",
            "location": { "locality": "Årsta", "route": "Svärdlångsvägen", "streetNumber": "12" }
          },
          {
            "id": "1415497", "rent": 15500, "currency": "SEK", "roomCount": 1.5,
            "squareMeters": 26, "homeType": "apartment", "platform": "dotcom",
            "location": { "locality": "Stockholm" }
          }
        ]
      }
    }
  }
}"#;

fn text(v: &Value, key: &str) -> Option<String> {
    v.get(key).and_then(Value::as_str).map(str::to_string)
}

fn integer(v: &Value, key: &str) -> Option<i64> {
    v.get(key).and_then(Value::as_i64)
}

fn tenths(v: &Value, key: &str) -> Option<i64> {
    v.get(key).and_then(Value::as_f64).map(|x| (x * 10.0).round() as i64)
}

fn flag(v: &Value, key: &str) -> bool {
    v.get(key).and_then(Value::as_bool).unwrap_or(false)
}

fn ad_of(v: &Value) -> Ad {
    Ad {
        annons_id: v["AnnonsId"].as_u64().unwrap(),
        gatuadress: text(v, "Gatuadress"),
        stadsdel: text(v, "Stadsdel"),
        kommun: text(v, "Kommun"),
        antal_rum_tenths: tenths(v, "AntalRum"),
        yta_tenths: tenths(v, "Yta"),
        hyra: integer(v, "Hyra"),
        lagsta_hyran: integer(v, "LägstaHyran"),
        hogsta_hyran: integer(v, "HögstaHyran"),
        lagsta_ytan_tenths: tenths(v, "LägstaYtan"),
        hogsta_ytan_tenths: tenths(v, "HögstaYtan"),
        annonserad_till: text(v, "AnnonseradTill"),
        url: text(v, "Url"),
        lagenhetstyp: text(v, "Lagenhetstyp"),
        nyproduktion: flag(v, "Nyproduktion"),
        student: flag(v, "Student"),
        ungdom: flag(v, "Ungdom"),
        senior: flag(v, "Senior"),
        korttid: flag(v, "Korttid"),
        vanlig: flag(v, "Vanlig"),
        bostad_snabbt: flag(v, "BostadSnabbt"),
        kort_kotid: flag(v, "KortKotid"),
        liknade_lagenhet_statistik: None,
    }
}

fn home_of(v: &Value) -> Home {
    Home {
        id: text(v, "id").unwrap(),
        title: text(v, "title"),
        rent: integer(v, "rent"),
        currency: text(v, "currency"),
        monthly_cost: integer(v, "monthlyCost"),
        room_count_tenths: tenths(v, "roomCount"),
        square_meters_tenths: tenths(v, "squareMeters"),
        home_type: text(v, "homeType"),
        first_hand: v.get("firstHand").and_then(Value::as_bool),
        platform: text(v, "platform"),
        published_at: text(v, "publishedAt"),
        published_or_bumped_at: text(v, "publishedOrBumpedAt"),
        location: v.get("location").map(|l| Location {
            locality: text(l, "locality"),
            route: text(l, "route"),
            street_number: text(l, "streetNumber"),
        }),
    }
}

fn qasa_nodes() -> Vec<Home> {
    let resp: Value = serde_json::from_str(QASA_SAMPLE).unwrap();
    resp["data"]["homeIndexSearch"]["documents"]["nodes"]
        .as_array()
        .unwrap()
        .iter()
        .map(home_of)
        .collect()
}

#[test]
fn parses_sample_feed() {
    let feed: Value = serde_json::from_str(BOSTAD_SAMPLE).unwrap();
    let ads: Vec<Ad> = feed.as_array().unwrap().iter().map(ad_of).collect();
    assert_eq!(ads.len(), 2);

    // Project ad: rent/size come from the range fallbacks.
    let project = &ads[0];
    assert_eq!(project.annons_id, 300_740);
    assert_eq!(project.rent(), Some(10_165));
    assert_eq!(project.sqm(), Some(350));
    assert!(!project.bostad_snabbt);
    assert!(project.vanlig);

    // Fast-track ad: single-unit fields win.
    let snabbt = &ads[1];
    assert!(snabbt.bostad_snabbt);
    assert_eq!(snabbt.rent(), Some(9_074));
    assert_eq!(snabbt.sqm(), Some(330));
    assert_eq!(snabbt.full_url(), "https://bostad.stockholm.se/bostad/202615120/");
    // Absent booleans default to false rather than failing the parse.
    assert!(!snabbt.student);
}

#[test]
fn parses_sample_response() {
    let nodes = qasa_nodes();
    assert_eq!(nodes.len(), 2);
    assert_eq!(nodes[0].id_num(), Some(1_433_991));
    assert_eq!(nodes[0].room_count_tenths, Some(30));
    assert_eq!(nodes[1].room_count_tenths, Some(15));
    // Missing fields tolerated.
    assert_eq!(nodes[1].title, None);
    assert_eq!(nodes[1].first_hand, None);
}

#[test]
fn parses_published_at_timestamp() {
    let nodes = qasa_nodes();
    let nanos = nodes[0].published_at_dt().expect("node 0 has publishedAt");
    let dt = time::OffsetDateTime::from_unix_timestamp_nanos(nanos).unwrap();
    assert_eq!(dt.year(), 2026);
    // node 1 has no publishedAt → None, not an error.
    assert_eq!(nodes[1].published_at_dt(), None);
}

#[test]
fn published_at_is_read_as_unix_time() {
    let mut h = qasa_nodes().remove(0);
    // 2026-08-08T10:00:00Z
    assert_eq!(h.published_at_dt(), Some(1_786_183_200_000_000_000));
    h.published_at = Some("2026-08-08T12:00:00+02:00".to_string());
    assert_eq!(h.published_at_dt(), Some(1_786_183_200_000_000_000));
    h.published_at = Some("yesterday".to_string());
    assert_eq!(h.published_at_dt(), None);
    h.published_or_bumped_at = Some("2026-08-08T10:00:01Z".to_string());
    assert_eq!(h.published_or_bumped_dt(), Some(1_786_183_201_000_000_000));
}

#[test]
fn project_rent_falls_back_to_the_low_end() {
    let feed: Value = serde_json::from_str(BOSTAD_SAMPLE).unwrap();
    let mut ad = ad_of(&feed[0]);
    ad.hogsta_hyran = None;
    ad.hogsta_ytan_tenths = None;
    assert_eq!(ad.rent(), Some(8_570));
    assert_eq!(ad.sqm(), Some(260));
    ad.url = None;
    assert_eq!(ad.full_url(), "https://bostad.stockholm.se/");
}

#[test]
fn non_numeric_ids_have_no_number() {
    let mut h = qasa_nodes().remove(1);
    assert_eq!(h.id_num(), Some(1_415_497));
    h.id = "abc".to_string();
    assert_eq!(h.id_num(), None);
    h.id = "18446744073709551616".to_string();
    assert_eq!(h.id_num(), None);
}
