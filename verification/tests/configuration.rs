use qasa_tg_notifier::config::{poll_interval_fits_exec, Config, ConfigError};

fn env(pairs: &[(&str, &str)]) -> Vec<(String, String)> {
    pairs
        .iter()
        .map(|(k, v)| (k.to_string(), v.to_string()))
        .collect()
}

#[test]
fn defaults_fill_everything_but_token_and_chat() {
    let e = env(&[("BOT_TOKEN", "abc"), ("CHAT_ID", "-1001234")]);
    assert!(poll_interval_fits_exec(&e));
    let c = Config::from_env(&e).unwrap();
    assert_eq!(c.bot_token, "abc");
    assert_eq!(c.chat_id, -1_001_234);
    assert_eq!(c.area, "se/stockholm");
    assert_eq!(c.home_types, vec!["apartment".to_string()]);
    assert_eq!(c.interval_secs, 3 * 3600);
    assert_eq!(c.max_notify, 40);
    assert_eq!(c.endpoint, "https://api.qasa.com/graphql");
    assert_eq!(c.bostad_endpoint, "https://bostad.stockholm.se/AllaAnnonser/");
}

#[test]
fn explicit_values_override_defaults() {
    let e = env(&[
        ("CHAT_ID", "42"),
        ("BOT_TOKEN", "t"),
        ("QASA_AREA", "se/solna"),
        ("HOME_TYPES", " apartment , ,house,"),
        ("POLL_INTERVAL_HOURS", "0"),
        ("MAX_NOTIFY_PER_CYCLE", "+7"),
        ("QASA_ENDPOINT", "http://localhost/graphql"),
    ]);
    let c = Config::from_env(&e).unwrap();
    assert_eq!(c.chat_id, 42);
    assert_eq!(c.area, "se/solna");
    assert_eq!(c.home_types, vec!["apartment".to_string(), "house".to_string()]);
    // Zero hours is raised to one.
    assert_eq!(c.interval_secs, 3600);
    assert_eq!(c.max_notify, 7);
    assert_eq!(c.endpoint, "http://localhost/graphql");
}

#[test]
fn the_first_setting_of_a_variable_wins() {
    let e = env(&[("BOT_TOKEN", "one"), ("BOT_TOKEN", "two"), ("CHAT_ID", "1")]);
    assert_eq!(Config::from_env(&e).unwrap().bot_token, "one");
}

#[test]
fn missing_token_is_reported_first() {
    let e = env(&[("CHAT_ID", "x")]);
    let err = Config::from_env(&e).err().unwrap();
    assert!(matches!(&err, ConfigError::Missing { key } if key == "BOT_TOKEN"));
    assert_eq!(err.message(), "missing required env var BOT_TOKEN");
}

#[test]
fn missing_chat_id() {
    let e = env(&[("BOT_TOKEN", "t")]);
    let err = Config::from_env(&e).err().unwrap();
    assert_eq!(err.message(), "missing required env var CHAT_ID");
}

#[test]
fn chat_id_must_be_an_integer() {
    let e = env(&[("BOT_TOKEN", "t"), ("CHAT_ID", "@channel")]);
    let err = Config::from_env(&e).err().unwrap();
    assert!(matches!(err, ConfigError::ChatId));
    assert_eq!(err.message(), "CHAT_ID must be an integer (a Telegram chat id)");
}

#[test]
fn poll_hours_must_be_a_number() {
    let e = env(&[("BOT_TOKEN", "t"), ("CHAT_ID", "1"), ("POLL_INTERVAL_HOURS", "-3")]);
    let err = Config::from_env(&e).err().unwrap();
    assert!(matches!(err, ConfigError::PollIntervalHours));
    assert_eq!(err.message(), "POLL_INTERVAL_HOURS must be a positive integer");
}

#[test]
fn notify_cap_must_be_a_number() {
    let e = env(&[("BOT_TOKEN", "t"), ("CHAT_ID", "1"), ("MAX_NOTIFY_PER_CYCLE", "lots")]);
    let err = Config::from_env(&e).err().unwrap();
    assert!(matches!(err, ConfigError::MaxNotify));
    assert_eq!(err.message(), "MAX_NOTIFY_PER_CYCLE must be an integer");
}

#[test]
fn huge_poll_interval_does_not_fit() {
    let e = env(&[
        ("BOT_TOKEN", "t"),
        ("CHAT_ID", "1"),
        ("POLL_INTERVAL_HOURS", "18446744073709551615"),
    ]);
    assert!(!poll_interval_fits_exec(&e));
}
