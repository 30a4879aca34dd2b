//! Runtime configuration, read entirely from environment variables.
//!
//! `BOT_TOKEN` and `CHAT_ID` are required; everything else has a sensible
//! default so a bare `BOT_TOKEN`/`CHAT_ID` pair is enough to run. The
//! variables come in as `(name, value)` pairs; the first pair with a name
//! gives its value.

use vstd::prelude::*;

use crate::text::{chars_of, index_of_in, parse_u64, parse_unsigned, parse_unsigned_range, parse_i64, parse_i64_range, range_is, split_on, string_from_range, trim, trim_range, views, push_string};

verus! {

/// Runtime configuration.
#[derive(Clone, Debug)]
pub struct Config {
    pub bot_token: String,
    pub chat_id: i64,
    /// Qasa area identifier, e.g. `se/stockholm`.
    pub area: String,
    /// `homeType` filter values, e.g. `["apartment"]`.
    pub home_types: Vec<String>,
    /// How long to wait between polls, in seconds.
    pub interval_secs: u64,
    /// Cap on listings sent in a single cycle; the rest are summarised.
    pub max_notify: usize,
    pub endpoint: String,
    /// Bostadsförmedlingen's listings feed.
    pub bostad_endpoint: String,
}

/// Why the configuration could not be read.
#[derive(Debug)]
pub enum ConfigError {
    /// A required variable is not set.
    Missing { key: String },
    /// `CHAT_ID` is not an integer.
    ChatId,
    /// `POLL_INTERVAL_HOURS` is not a non-negative integer.
    PollIntervalHours,
    /// `MAX_NOTIFY_PER_CYCLE` is not a non-negative integer.
    MaxNotify,
}

/// The text that explains a configuration error.
pub open spec fn config_error_text(e: &ConfigError) -> Seq<char> {
    match e {
        ConfigError::Missing { key } => "missing required env var "@ + key@,
        ConfigError::ChatId => "CHAT_ID must be an integer (a Telegram chat id)"@,
        ConfigError::PollIntervalHours => "POLL_INTERVAL_HOURS must be a positive integer"@,
        ConfigError::MaxNotify => "MAX_NOTIFY_PER_CYCLE must be an integer"@,
    }
}

impl ConfigError {
    /// The text that explains the error.
    pub fn message(&self) -> (r: String)
        ensures
            r@ == config_error_text(self),
    {
        match self {
            ConfigError::Missing { key } => {
                let mut r = String::from_str("missing required env var ");
                r.append(key.as_str());
                r
            },
            ConfigError::ChatId => String::from_str("CHAT_ID must be an integer (a Telegram chat id)"),
            ConfigError::PollIntervalHours => String::from_str("POLL_INTERVAL_HOURS must be a positive integer"),
            ConfigError::MaxNotify => String::from_str("MAX_NOTIFY_PER_CYCLE must be an integer"),
        }
    }
}

/// The value of the first variable named `key`, from position `i` on.
pub open spec fn env_get_from(env: Seq<(String, String)>, key: Seq<char>, i: int) -> Option<Seq<char>>
    decreases env.len() - i,
{
    if i < 0 || i >= env.len() {
        None
    } else if env[i].0@ == key {
        Some(env[i].1@)
    } else {
        env_get_from(env, key, i + 1)
    }
}

/// The value of the variable named `key`.
pub open spec fn env_get(env: Seq<(String, String)>, key: Seq<char>) -> Option<Seq<char>> {
    env_get_from(env, key, 0)
}

/// The value of the variable named `key`, or `default`.
pub open spec fn env_or(env: Seq<(String, String)>, key: Seq<char>, default: Seq<char>) -> Seq<char> {
    match env_get(env, key) {
        Some(v) => v,
        None => default,
    }
}

/// Looks a variable up.
fn lookup(env: &Vec<(String, String)>, key: &str) -> (r: Option<String>)
    ensures
        match r {
            Some(v) => env_get(env@, key@) == Some(v@),
            None => env_get(env@, key@) is None,
        },
{
    let mut i: usize = 0;
    while i < env.len()
        invariant
            i <= env.len(),
            env_get(env@, key@) == env_get_from(env@, key@, i as int),
        decreases env.len() - i,
    {
        let name = chars_of(env[i].0.as_str());
        proof {
            assert(name@.subrange(0, name@.len() as int) == name@);
        }
        if range_is(&name, 0, name.len(), key) {
            return Some(env[i].1.clone());
        }
        i = i + 1;
    }
    None
}

/// Looks a variable up, falling back to `default`.
fn optional(env: &Vec<(String, String)>, key: &str, default: &str) -> (r: String)
    ensures
        r@ == env_or(env@, key@, default@),
{
    match lookup(env, key) {
        Some(v) => v,
        None => String::from_str(default),
    }
}

/// The non-empty trimmed pieces, in order.
pub open spec fn nonempty_trimmed(pieces: Seq<Seq<char>>) -> Seq<Seq<char>>
    decreases pieces.len(),
{
    if pieces.len() == 0 {
        Seq::empty()
    } else {
        let prev = nonempty_trimmed(pieces.drop_last());
        let t = trim(pieces.last());
        if t.len() > 0 {
            prev.push(t)
        } else {
            prev
        }
    }
}

/// The home types of a comma-separated list: each piece trimmed, empty
/// pieces dropped.
pub open spec fn home_types_of(s: Seq<char>) -> Seq<Seq<char>> {
    nonempty_trimmed(split_on(s, ','))
}

/// Splits a comma-separated list into trimmed, non-empty pieces.
fn split_list(s: &String) -> (r: Vec<String>)
    ensures
        views(r@) == home_types_of(s@),
{
    let t = chars_of(s.as_str());
    let e = t.len();
    let ghost line = t@;
    assert(t@.subrange(0, e as int) == line);
    let mut out: Vec<String> = Vec::new();
    let mut start: usize = 0;
    let ghost mut done: Seq<Seq<char>> = seq![];
    loop
        invariant_except_break
            start <= e == t.len(),
            line == t@,
            split_on(line, ',') == done + split_on(t@.subrange(start as int, e as int), ','),
            views(out@) == nonempty_trimmed(done),
        ensures
            views(out@) == nonempty_trimmed(split_on(line, ',')),
        decreases e - start,
    {
        let ghost sub = t@.subrange(start as int, e as int);
        let (lo, hi, next) = match index_of_in(&t, ',', start, e) {
            Some(c) => (start, c, Some(c + 1)),
            None => (start, e, None),
        };
        let ghost piece = t@.subrange(lo as int, hi as int);
        let (a, b) = trim_range(&t, lo, hi);
        if a < b {
            push_string(&mut out, string_from_range(&t, a, b));
        }
        proof {
            let nd = done.push(piece);
            assert(nd.drop_last() == done);
            assert(nd.last() == piece);
            assert(views(out@) == nonempty_trimmed(nd));
        }
        match next {
            Some(n) => {
                proof {
                    assert(sub.take(hi - start) == piece);
                    assert(sub.skip(hi - start + 1) == t@.subrange(n as int, e as int));
                    assert(split_on(sub, ',') == seq![piece] + split_on(t@.subrange(n as int, e as int), ','));
                    assert(done + split_on(sub, ',') == done.push(piece) + split_on(t@.subrange(n as int, e as int), ','));
                    done = done.push(piece);
                }
                start = n;
            },
            None => {
                proof {
                    assert(piece == sub);
                    assert(split_on(sub, ',') == seq![sub]);
                    assert(split_on(line, ',') == done.push(piece));
                }
                break;
            },
        }
    }
    out
}

/// The hours between polls that the variables ask for, where they read.
pub open spec fn poll_hours(env: Seq<(String, String)>) -> Option<u64> {
    parse_u64(env_or(env, "POLL_INTERVAL_HOURS"@, "3"@))
}

/// The poll interval in seconds fits a `u64` (at least one hour is used).
pub open spec fn poll_interval_fits(env: Seq<(String, String)>) -> bool {
    match poll_hours(env) {
        Some(h) => (if h < 1 { 1 } else { h }) * 3600 <= u64::MAX,
        None => true,
    }
}

/// Whether the poll interval that the variables ask for fits in seconds.
pub fn poll_interval_fits_exec(env: &Vec<(String, String)>) -> (b: bool)
    ensures
        b == poll_interval_fits(env@),
{
    let hours_text = chars_of(optional(env, "POLL_INTERVAL_HOURS", "3").as_str());
    proof {
        assert(hours_text@.subrange(0, hours_text@.len() as int) == hours_text@);
    }
    match parse_unsigned_range(&hours_text, 0, hours_text.len(), u64::MAX) {
        Some(h) => {
            let h1 = if h < 1 {
                1
            } else {
                h
            };
            h1 <= u64::MAX / 3600
        },
        None => true,
    }
}

/// What the variables configure, or why they do not.
pub open spec fn config_ok(env: Seq<(String, String)>, c: &Config) -> bool {
    let hours = poll_hours(env)->0;
    &&& env_get(env, "BOT_TOKEN"@) == Some(c.bot_token@)
    &&& env_get(env, "CHAT_ID"@) matches Some(id) && parse_i64(id) == Some(c.chat_id)
    &&& c.area@ == env_or(env, "QASA_AREA"@, "se/stockholm"@)
    &&& views(c.home_types@) == home_types_of(env_or(env, "HOME_TYPES"@, "apartment"@))
    &&& c.interval_secs == (if hours < 1 { 1 } else { hours }) * 3600
    &&& parse_unsigned(env_or(env, "MAX_NOTIFY_PER_CYCLE"@, "40"@), usize::MAX as nat) == Some(c.max_notify as nat)
    &&& c.endpoint@ == env_or(env, "QASA_ENDPOINT"@, "https://api.qasa.com/graphql"@)
    &&& c.bostad_endpoint@ == env_or(env, "BOSTAD_ENDPOINT"@, "https://bostad.stockholm.se/AllaAnnonser/"@)
}

/// The text of the error the variables give, checked in order: a missing
/// token, a missing chat id, a chat id that is no integer, poll hours that
/// are no integer, a notify cap that is no integer. `None` when they read.
pub open spec fn config_error_of(env: Seq<(String, String)>) -> Option<Seq<char>> {
    if env_get(env, "BOT_TOKEN"@) is None {
        Some("missing required env var "@ + "BOT_TOKEN"@)
    } else if env_get(env, "CHAT_ID"@) is None {
        Some("missing required env var "@ + "CHAT_ID"@)
    } else if parse_i64(env_get(env, "CHAT_ID"@)->0) is None {
        Some("CHAT_ID must be an integer (a Telegram chat id)"@)
    } else if poll_hours(env) is None {
        Some("POLL_INTERVAL_HOURS must be a positive integer"@)
    } else if parse_unsigned(env_or(env, "MAX_NOTIFY_PER_CYCLE"@, "40"@), usize::MAX as nat) is None {
        Some("MAX_NOTIFY_PER_CYCLE must be an integer"@)
    } else {
        None
    }
}

impl Config {
    /// Reads the configuration from `(name, value)` pairs of environment
    /// variables.
    pub fn from_env(env: &Vec<(String, String)>) -> (r: Result<Config, ConfigError>)
        requires
            poll_interval_fits(env@),
        ensures
            match r {
                Ok(c) => config_error_of(env@) is None && config_ok(env@, &c),
                Err(e) => config_error_of(env@) == Some(config_error_text(&e)),
            },
    {
        let bot_token = match lookup(env, "BOT_TOKEN") {
            Some(v) => v,
            None => return Err(ConfigError::Missing { key: String::from_str("BOT_TOKEN") }),
        };
        let chat_text = match lookup(env, "CHAT_ID") {
            Some(v) => v,
            None => return Err(ConfigError::Missing { key: String::from_str("CHAT_ID") }),
        };
        let chat_chars = chars_of(chat_text.as_str());
        proof {
            assert(chat_chars@.subrange(0, chat_chars@.len() as int) == chat_chars@);
        }
        let chat_id = match parse_i64_range(&chat_chars, 0, chat_chars.len()) {
            Some(v) => v,
            None => return Err(ConfigError::ChatId),
        };
        let area = optional(env, "QASA_AREA", "se/stockholm");
        let home_types = split_list(&optional(env, "HOME_TYPES", "apartment"));
        let hours_text = chars_of(optional(env, "POLL_INTERVAL_HOURS", "3").as_str());
        proof {
            assert(hours_text@.subrange(0, hours_text@.len() as int) == hours_text@);
        }
        let hours = match parse_unsigned_range(&hours_text, 0, hours_text.len(), u64::MAX) {
            Some(h) => h,
            None => return Err(ConfigError::PollIntervalHours),
        };
        let hours1 = if hours < 1 {
            1
        } else {
            hours
        };
        let interval_secs = hours1 * 3600;
        let notify_text = chars_of(optional(env, "MAX_NOTIFY_PER_CYCLE", "40").as_str());
        proof {
            assert(notify_text@.subrange(0, notify_text@.len() as int) == notify_text@);
        }
        let max_notify = match parse_unsigned_range(&notify_text, 0, notify_text.len(), usize::MAX as u64) {
            Some(n) => n as usize,
            None => return Err(ConfigError::MaxNotify),
        };
        let endpoint = optional(env, "QASA_ENDPOINT", "https://api.qasa.com/graphql");
        let bostad_endpoint = optional(env, "BOSTAD_ENDPOINT", "https://bostad.stockholm.se/AllaAnnonser/");
        Ok(Config {
            bot_token,
            chat_id,
            area,
            home_types,
            interval_secs,
            max_notify,
            endpoint,
            bostad_endpoint,
        })
    }
}

/// A configuration waits at least an hour between polls.
pub proof fn lemma_interval_at_least_an_hour(env: Seq<(String, String)>, c: &Config)
    requires
        config_ok(env, c),
    ensures
        c.interval_secs >= 3600,
{
}

} // verus!
