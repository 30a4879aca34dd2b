//! The decisions of the notifier: what a polling cycle sends and how it
//! advances the watermark, how chat commands and button presses are
//! answered, and what a completed search posts. The caller performs the
//! network calls and hands the results back.

use vstd::prelude::*;

use crate::order::{before, lemma_sorted_keys, lemma_sorted_len, stable_sort_by_keys, stable_sorted};
use crate::qasa::{home_id_num, max_id_of, Fetched, Home};
use crate::search::{apply, apply_spec, describe, describe_spec, passes, passes_spec, render, render_spec, Action, Filters, FiltersModel, Keyboard};
use crate::telegram::State;
use crate::text::{chars_of, dec_nat, first_word, first_word_range, index_of, index_of_in, push_dec_u64, range_is};

verus! {

/// Cap on listings a single search will post.
pub const RECENT_MAX_LISTINGS: usize = 40;

/// How many listings to scan (within the age window) before client-side
/// room/price filtering.
pub const SEARCH_SCAN_MAX: usize = 200;

/// Seconds to pause between messages: Telegram caps sends to a single group
/// at about 20 a minute.
pub const SEND_GAP_SECS: u64 = 3;

/// The answer to `/start` and `/help`.
pub const HELP: &'static str = "QASA notifier.\n• /search — open the filter UI (neighborhood, age, rooms, max rent).\n• I also post new Stockholm apartments automatically every few hours.";

// ---------------------------------------------------------------------------
// The polling cycle
// ---------------------------------------------------------------------------

/// What a polling cycle does once the state and the new listings are known.
pub enum CycleStep {
    /// First run: record the watermark and notify nothing.
    Seed { watermark: u64 },
    /// Nothing new; nothing to do.
    Idle,
    /// Send `send` in order, post `note` if there is one, then store
    /// `watermark` in the state message `message_id`.
    Deliver { send: Vec<Home>, note: Option<String>, message_id: i32, watermark: u64 },
}

/// The sort key of a listing in a cycle: its numeric id, or 0.
pub open spec fn id_key(h: Home) -> i128 {
    match home_id_num(h) {
        Some(n) => n as i128,
        None => 0,
    }
}

/// The new listings, oldest (lowest id) first, so the chat reads
/// chronologically; equal keys keep their order.
pub open spec fn cycle_order(new: Seq<Home>) -> Seq<Home> {
    stable_sorted(new, new.map_values(|h: Home| id_key(h)), false)
}

/// How many listings a cycle sends.
pub open spec fn send_count(total: int, max_notify: int) -> int {
    if total < max_notify {
        total
    } else {
        max_notify
    }
}

/// The note that says how many listings wait for the next cycle.
pub open spec fn more_note(more: nat) -> Seq<char> {
    "…and "@ + dec_nat(more) + " more new listing(s) — sending next cycle."@
}

/// The listings a cycle sends: the oldest `max_notify` of the new ones.
pub open spec fn cycle_send(new: Seq<Home>, max_notify: int) -> Seq<Home> {
    cycle_order(new).take(send_count(new.len() as int, max_notify))
}

/// Decides a polling cycle. The watermark advances only past what is sent,
/// so a capped burst is delivered over later cycles rather than dropped.
pub fn cycle_step(state: Option<State>, fetched: Fetched, max_notify: usize) -> (r: CycleStep)
    ensures
        match state {
            None => r matches CycleStep::Seed { watermark } && watermark == fetched.max_id,
            Some(st) => if fetched.new@.len() == 0 {
                r is Idle
            } else {
                r matches CycleStep::Deliver { send, note, message_id, watermark } && {
                    let more = fetched.new@.len() - send_count(fetched.new@.len() as int, max_notify as int);
                    &&& send@ == cycle_send(fetched.new@, max_notify as int)
                    &&& message_id == st.message_id
                    &&& watermark == max_id_of(send@, st.watermark)
                    &&& match note {
                        Some(t) => more > 0 && t@ == more_note(more as nat),
                        None => more == 0,
                    }
                }
            },
        },
{
    let st = match state {
        None => return CycleStep::Seed { watermark: fetched.max_id },
        Some(st) => st,
    };
    let new = fetched.new;
    if new.len() == 0 {
        return CycleStep::Idle;
    }
    let total = new.len();
    let mut keys: Vec<i128> = Vec::new();
    let mut i: usize = 0;
    while i < new.len()
        invariant
            i <= new.len(),
            keys@.len() == i,
            forall|k: int| 0 <= k < i ==> keys@[k] == id_key(#[trigger] new@[k]),
        decreases new.len() - i,
    {
        let key: i128 = match new[i].id_num() {
            Some(n) => n as i128,
            None => 0,
        };
        keys.push(key);
        i = i + 1;
    }
    assert(keys@ =~= new@.map_values(|h: Home| id_key(h)));
    let ghost new_view = new@;
    let mut sorted = stable_sort_by_keys(new, keys, false);
    proof {
        lemma_sorted_len(new_view, new_view.map_values(|h: Home| id_key(h)), false);
    }
    let send_n = if total < max_notify {
        total
    } else {
        max_notify
    };
    sorted.truncate(send_n);
    let send = sorted;
    let more = total - send_n;
    let note = if more > 0 {
        let mut t = String::from_str("…and ");
        push_dec_u64(&mut t, more as u64);
        t.append(" more new listing(s) — sending next cycle.");
        Some(t)
    } else {
        None
    };
    let mut watermark = st.watermark;
    let mut j: usize = 0;
    while j < send.len()
        invariant
            j <= send.len(),
            watermark == max_id_of(send@.take(j as int), st.watermark),
        decreases send.len() - j,
    {
        proof {
            assert(send@.take(j + 1).drop_last() == send@.take(j as int));
            assert(send@.take(j + 1).last() == send@[j as int]);
        }
        match send[j].id_num() {
            Some(id) => {
                if id > watermark {
                    watermark = id;
                }
            },
            None => {},
        }
        j = j + 1;
    }
    assert(send@.take(send.len() as int) == send@);
    CycleStep::Deliver { send, note, message_id: st.message_id, watermark }
}

/// A cycle's plan: it sends at most `max_notify` listings, all taken from the
/// new ones, oldest (lowest id) first; the rest wait for later cycles; and
/// the watermark never moves backwards and covers every listing sent.
pub proof fn lemma_cycle_plan(new: Seq<Home>, watermark: u64, max_notify: nat)
    ensures
        ({
            let send = cycle_send(new, max_notify as int);
            &&& send.len() == send_count(new.len() as int, max_notify as int)
            &&& send.len() <= max_notify
            &&& forall|i: int| 0 <= i < send.len() ==> new.contains(#[trigger] send[i])
            &&& forall|i: int, j: int| 0 <= i < j < send.len() ==> id_key(send[i]) <= id_key(send[j])
            &&& max_id_of(send, watermark) >= watermark
            &&& forall|i: int| 0 <= i < send.len() ==> (home_id_num(#[trigger] send[i]) matches Some(id)
                ==> id <= max_id_of(send, watermark))
        }),
{
    broadcast use vstd::seq_lib::group_to_multiset_ensures;
    let keys = new.map_values(|h: Home| id_key(h));
    lemma_sorted_keys(new, keys, false, |h: Home| id_key(h));
    let sorted = cycle_order(new);
    let send = cycle_send(new, max_notify as int);
    assert forall|i: int| 0 <= i < send.len() implies new.contains(#[trigger] send[i]) by {
        assert(send[i] == sorted[i]);
        assert(sorted.to_multiset().count(sorted[i]) > 0);
        assert(new.to_multiset().count(sorted[i]) > 0);
    }
    assert forall|i: int, j: int| 0 <= i < j < send.len() implies id_key(send[i]) <= id_key(send[j]) by {
        assert(send[i] == sorted[i] && send[j] == sorted[j]);
        assert(!before(id_key(sorted[j]), id_key(sorted[i]), false));
    }
    lemma_max_id_of(send, watermark);
}

/// A capped cycle defers what it does not send, and drops nothing: when
/// every new listing has a numeric id above the old watermark (as a scan
/// gives them), each listing left for a later cycle has an id at least the
/// new watermark, and above it when no two new listings share an id, so the
/// next cycle finds it again.
pub proof fn lemma_cycle_defers_rest(new: Seq<Home>, watermark: u64, max_notify: nat)
    requires
        forall|i: int| 0 <= i < new.len() ==> (home_id_num(#[trigger] new[i]) matches Some(id) && id > watermark),
    ensures
        ({
            let sorted = cycle_order(new);
            let k = send_count(new.len() as int, max_notify as int);
            let w = max_id_of(cycle_send(new, max_notify as int), watermark);
            &&& sorted.len() == new.len()
            &&& forall|j: int| k <= j < sorted.len() ==> (home_id_num(#[trigger] sorted[j]) matches Some(id) && id >= w)
            &&& new.map_values(|h: Home| home_id_num(h)).no_duplicates() ==> forall|j: int| k <= j < sorted.len()
                ==> (home_id_num(#[trigger] sorted[j]) matches Some(id) && id > w)
        }),
{
    broadcast use vstd::seq_lib::group_to_multiset_ensures;
    let keys = new.map_values(|h: Home| id_key(h));
    lemma_sorted_keys(new, keys, false, |h: Home| id_key(h));
    let sorted = cycle_order(new);
    let k = send_count(new.len() as int, max_notify as int);
    let send = cycle_send(new, max_notify as int);
    let w = max_id_of(send, watermark);
    assert forall|j: int| 0 <= j < sorted.len() implies (home_id_num(#[trigger] sorted[j]) matches Some(id) && id > watermark) by {
        assert(sorted.to_multiset().count(sorted[j]) > 0);
        assert(new.contains(sorted[j]));
        let a = choose|a: int| 0 <= a < new.len() && new[a] == sorted[j];
        assert(home_id_num(new[a]) matches Some(id) && id > watermark);
    }
    lemma_max_id_of_attained(send, watermark);
    assert forall|j: int| k <= j < sorted.len() implies (home_id_num(#[trigger] sorted[j]) matches Some(id) && id >= w) by {
        if w != watermark {
            let i = choose|i: int| 0 <= i < send.len() && home_id_num(send[i]) == Some(w);
            assert(send[i] == sorted[i]);
            assert(!before(id_key(sorted[j]), id_key(sorted[i]), false));
        }
    }
    if new.map_values(|h: Home| home_id_num(h)).no_duplicates() {
        let ids = new.map_values(|h: Home| home_id_num(h));
        assert(new.no_duplicates()) by {
            assert forall|a: int, b: int| 0 <= a < new.len() && 0 <= b < new.len() && a != b implies new[a] != new[b] by {
                assert(ids[a] != ids[b]);
            }
        }
        new.lemma_multiset_has_no_duplicates();
        sorted.lemma_multiset_has_no_duplicates_conv();
        assert forall|j: int| k <= j < sorted.len() implies (home_id_num(#[trigger] sorted[j]) matches Some(id) && id > w) by {
            if w != watermark {
                let i = choose|i: int| 0 <= i < send.len() && home_id_num(send[i]) == Some(w);
                assert(send[i] == sorted[i]);
                assert(!before(id_key(sorted[j]), id_key(sorted[i]), false));
                assert(sorted[i] != sorted[j]);
                assert(sorted.to_multiset().count(sorted[i]) > 0);
                assert(sorted.to_multiset().count(sorted[j]) > 0);
                let a = choose|a: int| 0 <= a < new.len() && new[a] == sorted[i];
                let b = choose|b: int| 0 <= b < new.len() && new[b] == sorted[j];
                assert(ids[a] != ids[b]);
            }
        }
    }
}

/// `max_id_of` is its start or the id of one of the listings.
pub proof fn lemma_max_id_of_attained(hs: Seq<Home>, m: u64)
    ensures
        max_id_of(hs, m) == m || exists|i: int| 0 <= i < hs.len() && home_id_num(hs[i]) == Some(max_id_of(hs, m)),
    decreases hs.len(),
{
    if hs.len() > 0 {
        lemma_max_id_of_attained(hs.drop_last(), m);
        let prev = max_id_of(hs.drop_last(), m);
        if max_id_of(hs, m) != prev {
            assert(home_id_num(hs[hs.len() - 1]) == Some(max_id_of(hs, m)));
        } else if prev != m {
            let i = choose|i: int| 0 <= i < hs.drop_last().len() && home_id_num(hs.drop_last()[i]) == Some(prev);
            assert(hs[i] == hs.drop_last()[i]);
        }
    }
}

/// `max_id_of` bounds its start and every numeric id.
pub proof fn lemma_max_id_of(hs: Seq<Home>, m: u64)
    ensures
        max_id_of(hs, m) >= m,
        forall|i: int| 0 <= i < hs.len() ==> (home_id_num(#[trigger] hs[i]) matches Some(id) ==> id
            <= max_id_of(hs, m)),
    decreases hs.len(),
{
    if hs.len() > 0 {
        lemma_max_id_of(hs.drop_last(), m);
        assert forall|i: int| 0 <= i < hs.len() implies (home_id_num(#[trigger] hs[i]) matches Some(id)
            ==> id <= max_id_of(hs, m)) by {
            if i < hs.len() - 1 {
                assert(hs[i] == hs.drop_last()[i]);
            }
        }
    }
}

// ---------------------------------------------------------------------------
// Search results
// ---------------------------------------------------------------------------

/// Nanoseconds in an hour.
pub const NANOS_PER_HOUR: i128 = 3_600_000_000_000;

/// The earliest publish time a search reports: `age_hours` before `now`,
/// both as Unix time in nanoseconds.
pub fn search_cutoff(now: i128, age_hours: i64) -> (r: i128)
    requires
        i128::MIN / 2 <= now <= i128::MAX / 2,
    ensures
        r == now - age_hours * NANOS_PER_HOUR,
{
    assert(-0x1_0000_0000_0000_0000_0000_0000_0000 <= age_hours * NANOS_PER_HOUR <= 0x1_0000_0000_0000_0000_0000_0000_0000) by (nonlinear_arith)
        requires
            i64::MIN <= age_hours <= i64::MAX,
    ;
    now - (age_hours as i128) * NANOS_PER_HOUR
}

/// What a completed search posts: the listings and the closing note.
pub struct SearchOutcome {
    /// Listings to post, oldest first.
    pub posts: Vec<Home>,
    /// How many fetched listings passed the filters.
    pub total: usize,
    /// The closing note.
    pub note: String,
}

/// The fetched listings that pass the client-side filters, in order.
pub open spec fn matching(hs: Seq<Home>, f: FiltersModel) -> Seq<Home>
    decreases hs.len(),
{
    if hs.len() == 0 {
        Seq::empty()
    } else if passes_spec(f, &hs.last()) {
        matching(hs.drop_last(), f).push(hs.last())
    } else {
        matching(hs.drop_last(), f)
    }
}

/// The listings a search posts: the newest `RECENT_MAX_LISTINGS` matches
/// (the list is oldest-first, so its tail).
pub open spec fn search_posts(hs: Seq<Home>, f: FiltersModel) -> Seq<Home> {
    let m = matching(hs, f);
    if m.len() > RECENT_MAX_LISTINGS {
        m.skip(m.len() - RECENT_MAX_LISTINGS)
    } else {
        m
    }
}

/// The closing note of a search.
pub open spec fn search_note(total: nat, posted: nat) -> Seq<char> {
    if total == 0 {
        "No matches for those filters."@
    } else if total > posted {
        "✅ "@ + dec_nat(total) + " matches — showing the newest "@ + dec_nat(posted) + "."@
    } else {
        "✅ "@ + dec_nat(total) + " match(es)."@
    }
}

/// Filters the fetched listings and decides what the search posts.
pub fn search_outcome(filters: &Filters, fetched: Vec<Home>) -> (r: SearchOutcome)
    ensures
        r.total == matching(fetched@, filters@).len(),
        r.posts@ == search_posts(fetched@, filters@),
        r.note@ == search_note(r.total as nat, r.posts@.len()),
{
    let ghost all = fetched@;
    let _n = fetched.len();
    let mut rest = fetched;
    let mut matches: Vec<Home> = Vec::new();
    let mut i: usize = 0;
    while rest.len() > 0
        invariant
            all.len() == i + rest@.len(),
            all.len() <= usize::MAX,
            rest@ == all.skip(i as int),
            matches@ == matching(all.take(i as int), filters@),
        decreases rest.len(),
    {
        let h = rest.remove(0);
        proof {
            assert(all.take(i + 1).drop_last() == all.take(i as int));
            assert(all.take(i + 1).last() == h);
            assert(rest@ == all.skip(i + 1));
        }
        if passes(filters, &h) {
            matches.push(h);
        }
        i = i + 1;
    }
    assert(all.take(i as int) == all);
    let total = matches.len();
    let posts = if matches.len() > RECENT_MAX_LISTINGS {
        let cut = matches.len() - RECENT_MAX_LISTINGS;
        let tail = matches.split_off(cut);
        tail
    } else {
        matches
    };
    let mut note = String::new();
    if total == 0 {
        note.append("No matches for those filters.");
    } else if total > posts.len() {
        note.append("✅ ");
        push_dec_u64(&mut note, total as u64);
        note.append(" matches — showing the newest ");
        push_dec_u64(&mut note, posts.len() as u64);
        note.append(".");
    } else {
        note.append("✅ ");
        push_dec_u64(&mut note, total as u64);
        note.append(" match(es).");
    }
    SearchOutcome { posts, total, note }
}

/// Every listing a search posts passes the filters; it posts at most
/// `RECENT_MAX_LISTINGS`, and they are the newest of the matches.
pub proof fn lemma_search_posts(hs: Seq<Home>, f: FiltersModel)
    ensures
        search_posts(hs, f).len() <= RECENT_MAX_LISTINGS,
        search_posts(hs, f).len() <= matching(hs, f).len(),
        forall|i: int| 0 <= i < search_posts(hs, f).len() ==> passes_spec(f, &#[trigger] search_posts(hs, f)[i]),
        search_posts(hs, f) == matching(hs, f).skip(matching(hs, f).len() - search_posts(hs, f).len()),
{
    lemma_matching(hs, f);
    let m = matching(hs, f);
    let p = search_posts(hs, f);
    assert forall|i: int| 0 <= i < p.len() implies passes_spec(f, &#[trigger] p[i]) by {
        assert(p[i] == m[i + (m.len() - p.len())]);
    }
    assert(m.skip(0) == m);
}

/// Every match passes the filters.
pub proof fn lemma_matching(hs: Seq<Home>, f: FiltersModel)
    ensures
        matching(hs, f).len() <= hs.len(),
        forall|i: int| 0 <= i < matching(hs, f).len() ==> passes_spec(f, &#[trigger] matching(hs, f)[i]),
    decreases hs.len(),
{
    if hs.len() > 0 {
        lemma_matching(hs.drop_last(), f);
        let prev = matching(hs.drop_last(), f);
        let cur = matching(hs, f);
        assert forall|i: int| 0 <= i < cur.len() implies passes_spec(f, &#[trigger] cur[i]) by {
            if i < prev.len() {
                assert(cur[i] == prev[i]);
            }
        }
    }
}


// ---------------------------------------------------------------------------
// Chat commands
// ---------------------------------------------------------------------------

/// What a chat message asks for.
#[derive(Clone, Copy, Debug, PartialEq, Eq, Structural)]
pub enum Command {
    /// Open the search filter UI (`/search`, `/recent`).
    OpenSearch,
    /// Show the help text (`/start`, `/help`).
    Help,
    /// Not a command for this bot, or not from the target chat.
    Ignore,
}

/// The command word of a message: its first whitespace-separated word, with
/// a `@botname` suffix (present when addressed in groups) stripped.
pub open spec fn command_word(text: Seq<char>) -> Option<Seq<char>> {
    match first_word(text) {
        None => None,
        Some(w) => Some(
            match index_of(w, '@') {
                Some(i) => w.take(i),
                None => w,
            },
        ),
    }
}

/// What a message from `chat_id` asks of a bot that serves `target_chat`.
pub open spec fn command_of(target_chat: i64, chat_id: i64, text: Seq<char>) -> Command {
    if chat_id != target_chat {
        Command::Ignore
    } else {
        match command_word(text) {
            None => Command::Ignore,
            Some(c) => if c == "/search"@ || c == "/recent"@ {
                Command::OpenSearch
            } else if c == "/start"@ || c == "/help"@ {
                Command::Help
            } else {
                Command::Ignore
            },
        }
    }
}

/// Reads the command of a chat message.
pub fn message_command(target_chat: i64, chat_id: i64, text: &str) -> (r: Command)
    ensures
        r == command_of(target_chat, chat_id, text@),
{
    if chat_id != target_chat {
        return Command::Ignore;
    }
    let v = chars_of(text);
    let (a, b) = match first_word_range(&v) {
        None => return Command::Ignore,
        Some(r) => r,
    };
    let ghost w = v@.subrange(a as int, b as int);
    let end = match index_of_in(&v, '@', a, b) {
        Some(at) => at,
        None => b,
    };
    proof {
        assert(v@.subrange(a as int, end as int) == match index_of(w, '@') {
            Some(i) => w.take(i),
            None => w,
        });
    }
    if range_is(&v, a, end, "/search") || range_is(&v, a, end, "/recent") {
        Command::OpenSearch
    } else if range_is(&v, a, end, "/start") || range_is(&v, a, end, "/help") {
        Command::Help
    } else {
        Command::Ignore
    }
}

/// The Telegram user behind a message or button press.
pub struct UserInfo {
    pub id: u64,
    pub first_name: String,
    pub username: Option<String>,
}

/// A user as logs show them, e.g. `Anna (id=123, @anna)`.
pub open spec fn describe_user_spec(user: Option<&UserInfo>) -> Seq<char> {
    match user {
        None => "unknown user"@,
        Some(u) => u.first_name@ + " (id="@ + dec_nat(u.id as nat) + ", "@ + match u.username {
            Some(h) => "@"@ + h@,
            None => "no-username"@,
        } + ")"@,
    }
}

/// Renders a Telegram user for logs, e.g. `Anna (id=123, @anna)`.
pub fn describe_user(user: Option<&UserInfo>) -> (r: String)
    ensures
        r@ == describe_user_spec(user),
{
    match user {
        None => String::from_str("unknown user"),
        Some(u) => {
            let mut r = u.first_name.clone();
            r.append(" (id=");
            push_dec_u64(&mut r, u.id);
            r.append(", ");
            match &u.username {
                Some(h) => {
                    r.append("@");
                    r.append(h.as_str());
                },
                None => r.append("no-username"),
            }
            r.append(")");
            r
        },
    }
}

// ---------------------------------------------------------------------------
// Button presses
// ---------------------------------------------------------------------------

/// The text that replaces a search message whose session is gone.
pub open spec fn expired_text() -> Seq<char> {
    "This search expired — send /search to start a new one."@
}

/// What to do after a button press has been acknowledged.
pub enum CallbackStep {
    /// Nothing more.
    Ignore,
    /// The session is gone: replace the message with this text.
    Expired { text: String },
    /// Redraw the message and keep the session with these filters.
    Redraw { text: String, keyboard: Keyboard, filters: Filters },
    /// End the session, replace the message with this text, and run the
    /// search with these filters.
    Start { text: String, filters: Filters },
}

/// Decides a button press: `data` is its callback data, `chat_id` the chat of
/// its message (both absent for some presses), `session` the filters of the
/// search that the message belongs to, if it is still open.
pub fn callback_step(target_chat: i64, chat_id: Option<i64>, data: Option<&str>, session: Option<Filters>) -> (r: CallbackStep)
    ensures
        match (data, chat_id) {
            (Some(d), Some(c)) => if c != target_chat {
                r is Ignore
            } else {
                match session {
                    None => r matches CallbackStep::Expired { text } && text@ == expired_text(),
                    Some(f) => {
                        let (g, act) = apply_spec(f@, d@);
                        match act {
                            Action::Show(screen) => r matches CallbackStep::Redraw { text, keyboard, filters }
                                && (text@, keyboard@) == render_spec(screen, g) && filters@ == g,
                            Action::Search => r matches CallbackStep::Start { text, filters }
                                && text@ == "🔎 Searching…\n\n"@ + describe_spec(g) && filters@ == g,
                            Action::Ignore => r is Ignore,
                        }
                    },
                }
            },
            _ => r is Ignore,
        },
{
    let d = match data {
        None => return CallbackStep::Ignore,
        Some(d) => d,
    };
    let c = match chat_id {
        None => return CallbackStep::Ignore,
        Some(c) => c,
    };
    if c != target_chat {
        return CallbackStep::Ignore;
    }
    let mut filters = match session {
        None => return CallbackStep::Expired {
            text: String::from_str("This search expired — send /search to start a new one."),
        },
        Some(f) => f,
    };
    match apply(&mut filters, d) {
        Action::Show(screen) => {
            let (text, keyboard) = render(screen, &filters);
            CallbackStep::Redraw { text, keyboard, filters }
        },
        Action::Search => {
            let mut text = String::from_str("🔎 Searching…\n\n");
            text.append(describe(&filters).as_str());
            CallbackStep::Start { text, filters }
        },
        Action::Ignore => CallbackStep::Ignore,
    }
}

} // verus!
