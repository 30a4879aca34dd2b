//! Telegram side: the pinned state messages that persist the notifier's
//! progress, and the HTML text of the listings it posts.
//!
//! Instead of a database, the bot keeps a single pinned message in the
//! target chat holding the newest Qasa home id it has seen (or, for the
//! Bostadsförmedlingen chat, the set of ad ids already notified). This module
//! writes those messages and reads them back.

use vstd::prelude::*;

use std::collections::BTreeSet;
use vstd::std_specs::iter::IteratorSpec;

use crate::bostad::{ad_queue_q1, ad_queue_q3, ad_rent, ad_sqm, Ad};
use crate::qasa::Home;
use crate::text::{contains_string, dec_int, digit_char, push_dec_i64, push_string, all_digits, chars_of, dec_nat, digit_prefix_len, digit_run_end, find_chars, find_seq, first_line, index_of, index_of_in, is_ascii_digit, lemma_digit_prefix_len, lemma_find_from, parse_u64, push_dec_u64, occurs_at, lemma_find_seq_first, lemma_dec_nat_parses, lemma_digit_prefix_len_exact, join, lemma_index_of_first, is_ws, lead_ws, trail_ws, join_strings, views, u64_to_string, parse_unsigned_range, push_char, split_on, trim, trim_range};

verus! {

broadcast use vstd::std_specs::btree::group_btree_axioms, vstd::laws_cmp::group_laws_cmp;

/// Marker used to locate the watermark inside the pinned message text.
pub const WATERMARK_KEY: &'static str = "watermark=";

/// Marker for the Bostadsförmedlingen seen-ids line in its chat's pinned
/// message. A set rather than a watermark because ad ids are not monotonic
/// with publish date.
pub const SEEN_KEY: &'static str = "seen=";

/// Parsed contents of the pinned state message.
pub struct State {
    pub watermark: u64,
    pub message_id: i32,
}

/// Parsed contents of the bostad chat's pinned state message.
pub struct BostadState {
    pub seen: BTreeSet<u64>,
    pub message_id: i32,
}

// ---------------------------------------------------------------------------
// Reading state back
// ---------------------------------------------------------------------------

/// The watermark that a pinned text holds: the run of digits right after the
/// first `watermark=`, read as a `u64`.
pub open spec fn watermark_in(t: Seq<char>) -> Option<u64> {
    match find_seq(t, WATERMARK_KEY@) {
        Some(i) => {
            let rest = t.skip(i + WATERMARK_KEY@.len());
            parse_u64(rest.take(digit_prefix_len(rest) as int))
        },
        None => None,
    }
}

/// The ids in a list of comma-separated pieces: each piece, trimmed, that
/// reads as a `u64`. Pieces that do not read are skipped.
pub open spec fn ids_in(pieces: Seq<Seq<char>>) -> Set<u64> {
    Set::new(|n: u64| exists|j: int| 0 <= j < pieces.len() && parse_u64(trim(#[trigger] pieces[j])) == Some(n))
}

/// The seen-id set that a pinned text holds: the ids on the rest of the line
/// after the first `seen=`. An empty list is a valid, empty set.
pub open spec fn seen_in(t: Seq<char>) -> Option<Set<u64>> {
    match find_seq(t, SEEN_KEY@) {
        Some(i) => Some(ids_in(split_on(first_line(t.skip(i + SEEN_KEY@.len())), ','))),
        None => None,
    }
}

/// An occurrence found by `find_seq` lies inside the text.
proof fn lemma_found_in_bounds(t: Seq<char>, k: Seq<char>)
    ensures
        find_seq(t, k) matches Some(i) ==> 0 <= i && i + k.len() <= t.len(),
{
    lemma_find_from(t, k, 0);
}

/// Reads the watermark out of the pinned message text.
pub fn parse_watermark(text: &str) -> (r: Option<u64>)
    ensures
        r == watermark_in(text@),
{
    let t = chars_of(text);
    let key = chars_of(WATERMARK_KEY);
    proof {
        lemma_found_in_bounds(t@, key@);
    }
    match find_chars(&t, &key) {
        None => None,
        Some(i) => {
            assert(t@.len() <= usize::MAX);
            let start = i + key.len();
            let end = digit_run_end(&t, start);
            proof {
                let rest = t@.skip(start as int);
                lemma_digit_prefix_len(rest);
                assert(rest.take(digit_prefix_len(rest) as int) == t@.subrange(start as int, end as int));
            }
            parse_unsigned_range(&t, start, end, u64::MAX)
        },
    }
}

/// Parses the comma-separated seen-id set. An empty list (`seen=` alone,
/// the state after every live ad expires) is valid and distinct from "no
/// state".
pub fn parse_seen(text: &str) -> (r: Option<BTreeSet<u64>>)
    ensures
        match r {
            Some(s) => seen_in(text@) == Some(s@),
            None => seen_in(text@) is None,
        },
{
    let t = chars_of(text);
    let key = chars_of(SEEN_KEY);
    proof {
        lemma_found_in_bounds(t@, key@);
    }
    let i = match find_chars(&t, &key) {
        None => return None,
        Some(i) => {
            assert(i + key@.len() <= t@.len());
            i
        },
    };
    let klen = key.len();
    assert(i + klen <= t@.len());
    assert(t@.len() <= usize::MAX);
    let p = i + klen;
    let ghost rest = t@.skip(p as int);
    // The first line of the rest: up to the first newline, without a
    // trailing carriage return.
    let mut e = match index_of_in(&t, '\n', p, t.len()) {
        Some(n) => n,
        None => t.len(),
    };
    proof {
        assert(t@.subrange(p as int, t.len() as int) == rest);
        assert(t@.subrange(p as int, e as int) == match index_of(rest, '\n') {
            Some(n) => rest.take(n),
            None => rest,
        });
    }
    if e > p && t[e - 1] == '\r' {
        e = e - 1;
    }
    let ghost line = t@.subrange(p as int, e as int);
    assert(line == first_line(rest));
    let mut set: BTreeSet<u64> = BTreeSet::new();
    let mut start = p;
    let ghost mut done: Seq<Seq<char>> = seq![];
    loop
        invariant_except_break
            p <= start <= e <= t.len(),
            line == t@.subrange(p as int, e as int),
            split_on(line, ',') == done + split_on(t@.subrange(start as int, e as int), ','),
            set@ == ids_in(done),
        ensures
            set@ == ids_in(split_on(line, ',')),
        decreases e - start,
    {
        let ghost sub = t@.subrange(start as int, e as int);
        let (lo, hi, next) = match index_of_in(&t, ',', start, e) {
            Some(c) => (start, c, Some(c + 1)),
            None => (start, e, None),
        };
        let ghost piece = t@.subrange(lo as int, hi as int);
        let (a, b) = trim_range(&t, lo, hi);
        let parsed = parse_unsigned_range(&t, a, b, u64::MAX);
        if let Some(n) = parsed {
            set.insert(n);
        }
        proof {
            let nd = done.push(piece);
            assert forall|x: u64| set@.contains(x) <==> ids_in(nd).contains(x) by {
                if ids_in(nd).contains(x) {
                    let j = choose|j: int| 0 <= j < nd.len() && parse_u64(trim(#[trigger] nd[j])) == Some(x);
                    if j < done.len() {
                        assert(nd[j] == done[j]);
                    }
                }
                if ids_in(done).contains(x) {
                    let j = choose|j: int| 0 <= j < done.len() && parse_u64(trim(#[trigger] done[j])) == Some(x);
                    assert(nd[j] == done[j]);
                }
                if parsed == Some(x) {
                    assert(nd[done.len() as int] == piece);
                }
            }
            assert(set@ =~= ids_in(nd));
        }
        match next {
            Some(s) => {
                proof {
                    assert(sub.take(hi - start) == piece);
                    assert(sub.skip(hi - start + 1) == t@.subrange(s as int, e as int));
                    assert(split_on(sub, ',') == seq![piece] + split_on(t@.subrange(s as int, e as int), ','));
                    assert(done + split_on(sub, ',') == done.push(piece) + split_on(t@.subrange(s as int, e as int), ','));
                    done = done.push(piece);
                }
                start = s;
            },
            None => {
                proof {
                    assert(piece == sub);
                    assert(split_on(sub, ',') == seq![sub]);
                    assert(split_on(line, ',') == done.push(piece));
                }
                break;
            },
        }
    }
    Some(set)
}

// ---------------------------------------------------------------------------
// Writing state
// ---------------------------------------------------------------------------

/// The text of the pinned state message that holds `watermark`.
pub open spec fn state_text_spec(watermark: u64) -> Seq<char> {
    "📌 qasa-tg-notifier state\n"@ + WATERMARK_KEY@ + dec_nat(watermark as nat)
        + "\nNewest Qasa home id seen — please don't unpin or delete."@
}

/// The text of the pinned state message for `watermark`.
pub fn state_text(watermark: u64) -> (r: String)
    ensures
        r@ == state_text_spec(watermark),
{
    let mut r = String::new();
    r.append("📌 qasa-tg-notifier state\n");
    r.append(WATERMARK_KEY);
    push_dec_u64(&mut r, watermark);
    r.append("\nNewest Qasa home id seen — please don't unpin or delete.");
    r
}

/// The pinned state message gives back the watermark that was written into
/// it: reading a written state yields the same watermark.
#[verifier::spinoff_prover]
#[verifier::rlimit(40)]
pub proof fn lemma_state_text_round_trip(watermark: u64)
    ensures
        watermark_in(state_text_spec(watermark)) == Some(watermark),
{
    let p = "📌 qasa-tg-notifier state\n"@;
    let k = WATERMARK_KEY@;
    let d = dec_nat(watermark as nat);
    let s = "\nNewest Qasa home id seen — please don't unpin or delete."@;
    let t = state_text_spec(watermark);
    reveal_strlit("📌 qasa-tg-notifier state\n");
    reveal_strlit("watermark=");
    reveal_strlit("\nNewest Qasa home id seen — please don't unpin or delete.");
    assert(t == p + k + d + s);
    assert(t.subrange(p.len() as int, (p.len() + k.len()) as int) =~= k);
    assert forall|m: int| 0 <= m < p.len() implies !occurs_at(t, k, m) by {
        assert(t[m] == p[m]);
        assert(t.subrange(m, m + k.len())[0] == t[m]);
    }
    lemma_find_seq_first(t, k, p.len() as int);
    let rest = t.skip((p.len() + k.len()) as int);
    assert(rest == d + s);
    lemma_dec_nat_parses(watermark as nat);
    assert(rest.take(d.len() as int) == d);
    assert(rest[d.len() as int] == '\n');
    lemma_digit_prefix_len_exact(rest, d.len() as int);
    assert(is_ascii_digit(d[0]));
}

/// Strictly increasing: the order in which a `BTreeSet` hands out its items.
pub open spec fn increasing(q: Seq<u64>) -> bool {
    forall|i: int, j: int| 0 <= i < j < q.len() ==> q[i] < q[j]
}

/// Two increasing sequences with the same elements are the same sequence.
pub proof fn lemma_increasing_unique(x: Seq<u64>, y: Seq<u64>)
    requires
        increasing(x),
        increasing(y),
        x.to_set() == y.to_set(),
    ensures
        x == y,
    decreases x.len(),
{
    if x.len() == 0 {
        if y.len() > 0 {
            assert(y.to_set().contains(y[0]));
            assert(!x.contains(y[0]));
        }
        assert(x =~= y);
    } else {
        assert(x.to_set().contains(x[0]));
        assert(y.contains(x[0]));
        let j = choose|j: int| 0 <= j < y.len() && y[j] == x[0];
        assert(y.to_set().contains(y[0]));
        assert(x.contains(y[0]));
        let i = choose|i: int| 0 <= i < x.len() && x[i] == y[0];
        assert(x[0] <= x[i]);
        assert(y[0] <= y[j]);
        assert(x[0] == y[0]);
        let xs = x.drop_first();
        let ys = y.drop_first();
        assert forall|a: u64| xs.to_set().contains(a) <==> ys.to_set().contains(a) by {
            if xs.contains(a) {
                let k = choose|k: int| 0 <= k < xs.len() && xs[k] == a;
                assert(x[k + 1] == a);
                assert(x.to_set().contains(a));
                let m = choose|m: int| 0 <= m < y.len() && y[m] == a;
                if m == 0 {
                    assert(x[0] < x[k + 1]);
                }
                assert(ys[m - 1] == a);
            }
            if ys.contains(a) {
                let k = choose|k: int| 0 <= k < ys.len() && ys[k] == a;
                assert(y[k + 1] == a);
                assert(y.to_set().contains(a));
                let m = choose|m: int| 0 <= m < x.len() && x[m] == a;
                if m == 0 {
                    assert(y[0] < y[k + 1]);
                }
                assert(xs[m - 1] == a);
            }
        }
        assert(xs.to_set() =~= ys.to_set());
        lemma_increasing_unique(xs, ys);
        assert(x =~= seq![x[0]] + xs);
        assert(y =~= seq![y[0]] + ys);
    }
}

/// The elements of a finite set of ids in increasing order.
pub open spec fn in_order(s: Set<u64>) -> Seq<u64> {
    choose|q: Seq<u64>| increasing(q) && q.to_set() == s
}

/// The ids of a set, comma-separated, in increasing order.
pub open spec fn id_list(q: Seq<u64>) -> Seq<char> {
    join(q.map_values(|n: u64| dec_nat(n as nat)), ","@)
}

/// The text of the bostad chat's pinned state message that holds `seen`.
pub open spec fn bostad_state_text_spec(seen: Set<u64>) -> Seq<char> {
    "📌 bostad-snabbt notifier state\n"@ + SEEN_KEY@ + id_list(in_order(seen))
        + "\nLive Bostad snabbt ad ids already notified — please don't unpin or delete."@
}

/// A `BTreeSet` of ids hands them out in increasing order.
proof fn lemma_btree_iter_increasing(seen: &BTreeSet<u64>)
    ensures
        increasing(IteratorSpec::remaining(&vstd::std_specs::btree::spec_btree_keys_iter(seen)).unref()),
{
    let r = IteratorSpec::remaining(&vstd::std_specs::btree::spec_btree_keys_iter(seen));
    let all = r.unref();
    assert(vstd::laws_cmp::obeys_cmp::<&u64>());
    assert(vstd::std_specs::btree::increasing_seq(r));
    assert forall|i: int, j: int| 0 <= i < j < all.len() implies all[i] < all[j] by {
        assert(vstd::std_specs::cmp::OrdSpec::cmp_spec(&r[i], &r[j]) is Less);
    }
}

/// The ids of `seen` in increasing order.
fn ids_in_order(seen: &BTreeSet<u64>) -> (v: Vec<u64>)
    ensures
        increasing(v@),
        v@.to_set() == seen@,
        v@ == in_order(seen@),
{
    let mut v: Vec<u64> = Vec::new();
    let ghost all = vstd::std_specs::btree::spec_btree_keys_iter(seen).remaining().unref();
    proof {
        lemma_btree_iter_increasing(seen);
    }
    for x in it: seen.iter()
        invariant
            v@ == it.seq().take(it.index()).unref(),
            it.seq().unref() == all,
    {
        v.push(*x);
        proof {
            assert(it.seq().take(it.index() + 1).unref() =~= it.seq().take(it.index()).unref().push(*x));
        }
    }
    proof {
        assert(v@ =~= all);
        lemma_increasing_unique(v@, in_order(seen@));
    }
    v
}

/// The text of the bostad chat's pinned state message for `seen`.
pub fn bostad_state_text(seen: &BTreeSet<u64>) -> (r: String)
    ensures
        r@ == bostad_state_text_spec(seen@),
{
    let ids = ids_in_order(seen);
    let mut parts: Vec<String> = Vec::new();
    let mut i: usize = 0;
    while i < ids.len()
        invariant
            i <= ids.len(),
            parts@.len() == i,
            views(parts@) == ids@.take(i as int).map_values(|n: u64| dec_nat(n as nat)),
        decreases ids.len() - i,
    {
        let ghost old_parts = parts@;
        parts.push(u64_to_string(ids[i]));
        proof {
            let target = ids@.take(i + 1).map_values(|n: u64| dec_nat(n as nat));
            assert forall|k: int| 0 <= k < i + 1 implies views(parts@)[k] == target[k] by {
                if k < i {
                    assert(parts@[k] == old_parts[k]);
                    assert(views(old_parts)[k] == old_parts[k]@);
                }
            }
            assert(views(parts@) =~= target);
        }
        i = i + 1;
    }
    assert(ids@.take(ids.len() as int) == ids@);
    let list = join_strings(&parts, ",");
    let mut r = String::new();
    r.append("📌 bostad-snabbt notifier state\n");
    r.append(SEEN_KEY);
    r.append(list.as_str());
    r.append("\nLive Bostad snabbt ad ids already notified — please don't unpin or delete.");
    r
}

/// `join` unfolded from the front.
pub proof fn lemma_join_front(parts: Seq<Seq<char>>, sep: Seq<char>)
    requires
        parts.len() >= 2,
    ensures
        join(parts, sep) == parts[0] + sep + join(parts.drop_first(), sep),
    decreases parts.len(),
{
    let dl = parts.drop_last();
    let df = parts.drop_first();
    if parts.len() == 2 {
        assert(join(dl, sep) == parts[0]);
        assert(join(df, sep) == parts[1]);
    } else {
        lemma_join_front(dl, sep);
        assert(dl.drop_first() == df.drop_last());
        assert(dl[0] == parts[0]);
        assert(df.last() == parts.last());
        assert(join(parts, sep) == join(dl, sep) + sep + parts.last());
        assert(join(df, sep) == join(df.drop_last(), sep) + sep + parts.last());
        assert(join(parts, sep) =~= parts[0] + sep + join(df, sep));
    }
}

/// Splitting a comma-joined list gives back the list, when no item holds a
/// comma.
pub proof fn lemma_split_join(parts: Seq<Seq<char>>)
    requires
        parts.len() >= 1,
        forall|j: int, m: int| 0 <= j < parts.len() && 0 <= m < parts[j].len() ==> parts[j][m] != ',',
    ensures
        split_on(join(parts, ","@), ',') == parts,
    decreases parts.len(),
{
    reveal_strlit(",");
    if parts.len() == 1 {
        let a = parts[0];
        lemma_index_of_first(a, ',', a.len() as int);
        assert(split_on(a, ',') == seq![a]);
        assert(seq![a] =~= parts);
    } else {
        lemma_join_front(parts, ","@);
        let a = parts[0];
        let rest = join(parts.drop_first(), ","@);
        let t = a + ","@ + rest;
        lemma_index_of_first(t, ',', a.len() as int);
        assert(t.take(a.len() as int) == a);
        assert(t.skip((a.len() + 1) as int) == rest);
        lemma_split_join(parts.drop_first());
        assert(split_on(t, ',') == seq![a] + parts.drop_first());
        assert(seq![a] + parts.drop_first() =~= parts);
    }
}

/// The decimal digits of a number need no trimming.
proof fn lemma_trim_digits(d: Seq<char>)
    requires
        d.len() > 0,
        all_digits(d),
    ensures
        trim(d) == d,
{
    assert(!is_ws(d[0]));
    assert(lead_ws(d) == 0);
    assert(d.skip(0) == d);
    assert(!is_ws(d.last()));
    assert(trail_ws(d) == 0);
    assert(d.take(d.len() as int) == d);
}

/// In a bostad state text, the first `seen=` is the one after the heading.
proof fn lemma_bostad_key_first(l: Seq<char>, s: Seq<char>)
    ensures
        find_seq("📌 bostad-snabbt notifier state\n"@ + SEEN_KEY@ + l + s, SEEN_KEY@) == Some(
            "📌 bostad-snabbt notifier state\n"@.len() as int,
        ),
{
    let p = "📌 bostad-snabbt notifier state\n"@;
    let k = SEEN_KEY@;
    let t = p + k + l + s;
    reveal_strlit("📌 bostad-snabbt notifier state\n");
    reveal_strlit("seen=");
    assert(t.subrange(p.len() as int, (p.len() + k.len()) as int) =~= k);
    assert forall|m: int| 0 <= m < p.len() implies !occurs_at(t, k, m) by {
        let w = t.subrange(m, m + k.len());
        if m + 4 < p.len() {
            assert(t[m + 4] == p[m + 4]);
            assert(p[m + 4] != '=');
        } else {
            assert(t[m + 4] == k[m + 4 - p.len()]);
        }
        assert(w[4] == t[m + 4]);
    }
    lemma_find_seq_first(t, k, p.len() as int);
}

/// The ids read back from a comma-joined list of decimal numbers are the
/// numbers.
proof fn lemma_ids_of_list(q: Seq<u64>)
    ensures
        ids_in(split_on(id_list(q), ',')) == q.to_set(),
{
    let parts = q.map_values(|n: u64| dec_nat(n as nat));
    let l = id_list(q);
    let pieces = split_on(l, ',');
    reveal_strlit(",");
    if q.len() == 0 {
        assert(l == Seq::<char>::empty());
        lemma_index_of_first(l, ',', 0);
        assert(pieces == seq![l]);
        assert(parse_u64(trim(l)) is None) by {
            assert(trim(l) =~= Seq::<char>::empty());
        }
        assert(ids_in(pieces) =~= q.to_set());
    } else {
        assert forall|j: int, m: int| 0 <= j < parts.len() && 0 <= m < parts[j].len() implies parts[j][m] != ',' by {
            lemma_dec_nat_parses(q[j] as nat);
            assert(is_ascii_digit(parts[j][m]));
        }
        lemma_split_join(parts);
        assert(pieces == parts);
        assert forall|n: u64| ids_in(pieces).contains(n) <==> q.to_set().contains(n) by {
            if q.to_set().contains(n) {
                assert(q.contains(n));
                let j = choose|j: int| 0 <= j < q.len() && q[j] == n;
                lemma_dec_nat_parses(n as nat);
                lemma_trim_digits(parts[j]);
                assert(parse_u64(trim(pieces[j])) == Some(n));
            }
            if ids_in(pieces).contains(n) {
                let j = choose|j: int| 0 <= j < pieces.len() && parse_u64(trim(#[trigger] pieces[j])) == Some(n);
                lemma_dec_nat_parses(q[j] as nat);
                lemma_trim_digits(parts[j]);
                assert(q.contains(q[j]));
            }
        }
        assert(ids_in(pieces) =~= q.to_set());
    }
}

/// The line of a bostad state text that holds the ids is the id list.
proof fn lemma_list_line(q: Seq<u64>)
    ensures
        first_line(id_list(q) + "\nLive Bostad snabbt ad ids already notified — please don't unpin or delete."@) == id_list(q),
{
    let parts = q.map_values(|n: u64| dec_nat(n as nat));
    let l = id_list(q);
    let s = "\nLive Bostad snabbt ad ids already notified — please don't unpin or delete."@;
    reveal_strlit("\nLive Bostad snabbt ad ids already notified — please don't unpin or delete.");
    let rest = l + s;
    assert forall|j: int| 0 <= j < parts.len() implies all_digits(#[trigger] parts[j]) && parts[j].len() > 0 by {
        lemma_dec_nat_parses(q[j] as nat);
    }
    lemma_list_chars(parts);
    assert forall|m: int| 0 <= m < l.len() implies rest[m] != '\n' by {
        assert(rest[m] == l[m]);
        assert(is_ascii_digit(l[m]) || l[m] == ',');
    }
    lemma_index_of_first(rest, '\n', l.len() as int);
    assert(rest.take(l.len() as int) == l);
    if l.len() > 0 {
        assert(is_ascii_digit(l.last()) || l.last() == ',');
    }
}

/// The pinned bostad state message gives back the set of ids that was
/// written into it, the empty set included.
pub proof fn lemma_bostad_state_text_round_trip(seen: BTreeSet<u64>)
    ensures
        seen_in(bostad_state_text_spec(seen@)) == Some(seen@),
{
    lemma_btree_iter_increasing(&seen);
    let q0 = IteratorSpec::remaining(&vstd::std_specs::btree::spec_btree_keys_iter(&seen)).unref();
    assert(increasing(q0) && q0.to_set() == seen@);
    let q = in_order(seen@);
    assert(increasing(q) && q.to_set() == seen@);
    let p = "📌 bostad-snabbt notifier state\n"@;
    let k = SEEN_KEY@;
    let l = id_list(q);
    let s = "\nLive Bostad snabbt ad ids already notified — please don't unpin or delete."@;
    let t = bostad_state_text_spec(seen@);
    assert(t == p + k + l + s);
    lemma_bostad_key_first(l, s);
    let rest = t.skip((p.len() + k.len()) as int);
    assert(rest == l + s);
    lemma_list_line(q);
    lemma_ids_of_list(q);
}

/// A comma-joined list of digit runs holds only digits and commas, and does
/// not end in a carriage return.
proof fn lemma_list_chars(parts: Seq<Seq<char>>)
    requires
        forall|j: int| 0 <= j < parts.len() ==> all_digits(#[trigger] parts[j]) && parts[j].len() > 0,
    ensures
        forall|m: int| 0 <= m < join(parts, ","@).len() ==> (is_ascii_digit(#[trigger] join(parts, ","@)[m]) || join(parts, ","@)[m] == ','),
    decreases parts.len(),
{
    reveal_strlit(",");
    if parts.len() >= 2 {
        lemma_list_chars(parts.drop_last());
        let a = join(parts.drop_last(), ","@);
        let b = parts.last();
        assert(join(parts, ","@) == a + ","@ + b);
        assert forall|m: int| 0 <= m < join(parts, ","@).len() implies (is_ascii_digit(#[trigger] join(parts, ","@)[m]) || join(parts, ","@)[m] == ',') by {
            if m < a.len() {
                assert(join(parts, ","@)[m] == a[m]);
            } else if m > a.len() {
                assert(join(parts, ","@)[m] == b[m - a.len() - 1]);
            }
        }
    } else if parts.len() == 1 {
        assert(join(parts, ","@) == parts[0]);
    }
}

/// How Telegram's HTML parse mode needs one character written: the five
/// HTML-special characters as entities, every other character as it is.
pub open spec fn esc_char(c: char) -> Seq<char> {
    if c == '&' {
        seq!['&', 'a', 'm', 'p', ';']
    } else if c == '<' {
        seq!['&', 'l', 't', ';']
    } else if c == '>' {
        seq!['&', 'g', 't', ';']
    } else if c == '"' {
        seq!['&', 'q', 'u', 'o', 't', ';']
    } else if c == '\'' {
        seq!['&', '#', '3', '9', ';']
    } else {
        seq![c]
    }
}

/// `s` with `&`, `<`, `>`, `"` and `'` replaced by their HTML entities.
pub open spec fn esc_spec(s: Seq<char>) -> Seq<char>
    decreases s.len(),
{
    if s.len() == 0 {
        Seq::empty()
    } else {
        esc_char(s[0]) + esc_spec(s.drop_first())
    }
}

/// Escapes the five characters that matter for Telegram's HTML parse mode:
/// `&`, `<`, `>`, `"` and `'`.
pub fn esc(s: &str) -> (r: String)
    ensures
        r@ == esc_spec(s@),
{
    let v = chars_of(s);
    let mut r = String::new();
    let mut i: usize = 0;
    assert(v@.skip(0) == v@);
    assert(r@ + esc_spec(v@) == esc_spec(v@));
    while i < v.len()
        invariant
            i <= v.len(),
            v@ == s@,
            r@ + esc_spec(v@.skip(i as int)) == esc_spec(v@),
        decreases v.len() - i,
    {
        let c = v[i];
        let ghost before = r@;
        proof {
            assert(v@.skip(i as int).drop_first() == v@.skip(i + 1));
            assert(esc_spec(v@.skip(i as int)) == esc_char(c) + esc_spec(v@.skip(i + 1)));
        }
        if c == '&' {
            push_char(&mut r, '&');
            push_char(&mut r, 'a');
            push_char(&mut r, 'm');
            push_char(&mut r, 'p');
            push_char(&mut r, ';');
        } else if c == '<' {
            push_char(&mut r, '&');
            push_char(&mut r, 'l');
            push_char(&mut r, 't');
            push_char(&mut r, ';');
        } else if c == '>' {
            push_char(&mut r, '&');
            push_char(&mut r, 'g');
            push_char(&mut r, 't');
            push_char(&mut r, ';');
        } else if c == '"' {
            push_char(&mut r, '&');
            push_char(&mut r, 'q');
            push_char(&mut r, 'u');
            push_char(&mut r, 'o');
            push_char(&mut r, 't');
            push_char(&mut r, ';');
        } else if c == '\'' {
            push_char(&mut r, '&');
            push_char(&mut r, '#');
            push_char(&mut r, '3');
            push_char(&mut r, '9');
            push_char(&mut r, ';');
        } else {
            push_char(&mut r, c);
        }
        proof {
            assert(r@ == before + esc_char(c));
            assert(r@ + esc_spec(v@.skip(i + 1)) == before + esc_spec(v@.skip(i as int)));
        }
        i = i + 1;
    }
    assert(v@.skip(v.len() as int) == Seq::<char>::empty());
    assert(r@ + esc_spec(Seq::<char>::empty()) == r@);
    r
}

/// Reads HTML text back: each of the five entities `esc` writes becomes its
/// character again, everything else stays as it is.
pub open spec fn unesc(t: Seq<char>) -> Seq<char>
    decreases t.len(),
{
    if t.len() == 0 {
        Seq::empty()
    } else if t.len() >= 5 && t.take(5) == seq!['&', 'a', 'm', 'p', ';'] {
        seq!['&'] + unesc(t.skip(5))
    } else if t.len() >= 4 && t.take(4) == seq!['&', 'l', 't', ';'] {
        seq!['<'] + unesc(t.skip(4))
    } else if t.len() >= 4 && t.take(4) == seq!['&', 'g', 't', ';'] {
        seq!['>'] + unesc(t.skip(4))
    } else if t.len() >= 6 && t.take(6) == seq!['&', 'q', 'u', 'o', 't', ';'] {
        seq!['"'] + unesc(t.skip(6))
    } else if t.len() >= 5 && t.take(5) == seq!['&', '#', '3', '9', ';'] {
        seq!['\''] + unesc(t.skip(5))
    } else {
        seq![t[0]] + unesc(t.drop_first())
    }
}

/// Escaped text holds none of `<`, `>`, `"` or `'`, so whatever the input
/// it cannot open or close a tag or an attribute in the message; and reading
/// its entities back gives the input again.
pub proof fn lemma_esc_has_no_tags(s: Seq<char>)
    ensures
        forall|i: int| 0 <= i < esc_spec(s).len() ==> {
            let c = #[trigger] esc_spec(s)[i];
            c != '<' && c != '>' && c != '"' && c != '\''
        },
        unesc(esc_spec(s)) == s,
    decreases s.len(),
{
    if s.len() > 0 {
        let rest = s.drop_first();
        lemma_esc_has_no_tags(rest);
        let p = esc_spec(rest);
        let c = s[0];
        let e = esc_char(c);
        let t = esc_spec(s);
        assert(t == e + p);
        assert forall|i: int| 0 <= i < t.len() implies {
            let d = #[trigger] t[i];
            d != '<' && d != '>' && d != '"' && d != '\''
        } by {
            if i < e.len() {
                assert(t[i] == e[i]);
            } else {
                assert(t[i] == p[i - e.len()]);
            }
        }
        assert(t.take(e.len() as int) == e);
        assert(t.skip(e.len() as int) == p);
        if c != '&' && c != '<' && c != '>' && c != '"' && c != '\'' {
            assert(t[0] == c);
            assert(t.drop_first() == p);
            assert(t.len() >= 5 ==> t.take(5)[0] == c);
            assert(t.len() >= 4 ==> t.take(4)[0] == c);
            assert(t.len() >= 6 ==> t.take(6)[0] == c);
        }
        assert(unesc(t) == seq![c] + s.drop_first());
        assert(seq![c] + s.drop_first() == s);
    } else {
        assert(esc_spec(s) == Seq::<char>::empty());
    }
}


// ---------------------------------------------------------------------------
// Listing messages
// ---------------------------------------------------------------------------

/// A quantity held in tenths, written without a trailing `.0`, else with one
/// decimal: `330` is `33`, `15` is `1.5`.
pub open spec fn fmt_tenths(t: int) -> Seq<char> {
    let a = if t < 0 { -t } else { t };
    let sign = if t < 0 { seq!['-'] } else { Seq::<char>::empty() };
    let frac = if a % 10 == 0 {
        Seq::<char>::empty()
    } else {
        seq!['.', digit_char((a % 10) as nat)]
    };
    sign + dec_nat((a / 10) as nat) + frac
}

/// Renders a quantity held in tenths without a trailing `.0`.
pub fn fmt_num(tenths: i64) -> (r: String)
    ensures
        r@ == fmt_tenths(tenths as int),
{
    let mut r = String::new();
    let a: u64 = if tenths < 0 {
        push_char(&mut r, '-');
        (0i128 - (tenths as i128)) as u64
    } else {
        tenths as u64
    };
    push_dec_u64(&mut r, a / 10);
    if a % 10 != 0 {
        push_char(&mut r, '.');
        push_char(&mut r, digit_of(a % 10));
    }
    r
}

fn digit_of(d: u64) -> (c: char)
    requires
        d < 10,
    ensures
        c == digit_char(d as nat),
{
    if d == 0 { '0' }
    else if d == 1 { '1' }
    else if d == 2 { '2' }
    else if d == 3 { '3' }
    else if d == 4 { '4' }
    else if d == 5 { '5' }
    else if d == 6 { '6' }
    else if d == 7 { '7' }
    else if d == 8 { '8' }
    else { '9' }
}

/// The text of an optional string, or `default` where it is absent.
pub open spec fn text_or(o: Option<String>, default: Seq<char>) -> Seq<char> {
    match o {
        Some(s) => s@,
        None => default,
    }
}

/// The size line of a listing: area and rooms, whichever are known.
pub open spec fn size_lines(sqm: Option<i64>, rooms: Option<i64>) -> Seq<Seq<char>> {
    match (sqm, rooms) {
        (Some(a), Some(r)) => seq![
            "📐 "@ + fmt_tenths(a as int) + " m²"@ + " · "@ + fmt_tenths(r as int) + " rooms"@,
        ],
        (Some(a), None) => seq!["📐 "@ + fmt_tenths(a as int) + " m²"@],
        (None, Some(r)) => seq!["📐 "@ + fmt_tenths(r as int) + " rooms"@],
        (None, None) => Seq::empty(),
    }
}

/// The tag line of a listing, where it has tags.
pub open spec fn tag_lines(tags: Seq<Seq<char>>) -> Seq<Seq<char>> {
    if tags.len() > 0 {
        seq!["🏷 "@ + join(tags, " · "@)]
    } else {
        Seq::empty()
    }
}

/// Appends the size line of a listing, where it has one.
fn push_size_line(lines: &mut Vec<String>, sqm: Option<i64>, rooms: Option<i64>)
    ensures
        views(final(lines)@) == views(old(lines)@) + size_lines(sqm, rooms),
{
    let mut size = String::new();
    if let Some(a) = sqm {
        size.append("📐 ");
        size.append(fmt_num(a).as_str());
        size.append(" m²");
    }
    if let Some(r) = rooms {
        if sqm.is_some() {
            size.append(" · ");
        } else {
            size.append("📐 ");
        }
        size.append(fmt_num(r).as_str());
        size.append(" rooms");
    }
    if sqm.is_some() || rooms.is_some() {
        push_string(lines, size);
    }
    proof {
        assert(views(lines@) =~= views(old(lines)@) + size_lines(sqm, rooms));
    }
}

/// Appends the tag line of a listing, where it has tags.
fn push_tag_line(lines: &mut Vec<String>, tags: &Vec<String>)
    ensures
        views(final(lines)@) == views(old(lines)@) + tag_lines(views(tags@)),
{
    if tags.len() > 0 {
        let mut line = String::new();
        line.append("🏷 ");
        line.append(join_strings(tags, " · ").as_str());
        push_string(lines, line);
    }
    proof {
        assert(views(lines@) =~= views(old(lines)@) + tag_lines(views(tags@)));
    }
}

/// The place of a Qasa listing: its locality, or nothing.
pub open spec fn home_locality(h: &Home) -> Seq<char> {
    match h.location {
        Some(l) => text_or(l.locality, Seq::empty()),
        None => Seq::empty(),
    }
}

/// The street address of a Qasa listing: route and number, or the route.
pub open spec fn home_street(h: &Home) -> Seq<char> {
    match h.location {
        Some(l) => match l.route {
            Some(r) => match l.street_number {
                Some(n) => r@ + " "@ + n@,
                None => r@,
            },
            None => Seq::empty(),
        },
        None => Seq::empty(),
    }
}

/// The headline of a Qasa listing: the street, else the title, else the
/// locality, else `Home`.
pub open spec fn home_headline(h: &Home) -> Seq<char> {
    let street = home_street(h);
    let locality = home_locality(h);
    if street.len() > 0 {
        street
    } else if h.title is Some {
        text_or(h.title, Seq::empty())
    } else if locality.len() > 0 {
        locality
    } else {
        "Home"@
    }
}

/// The first line of a Qasa listing message: the bold headline, with the
/// locality appended when it adds information.
pub open spec fn home_head_line(h: &Home) -> Seq<char> {
    let headline = home_headline(h);
    let locality = home_locality(h);
    if locality.len() > 0 && locality != headline {
        "🏠 <b>"@ + esc_spec(headline) + "</b>, "@ + esc_spec(locality)
    } else {
        "🏠 <b>"@ + esc_spec(headline) + "</b>"@
    }
}

/// The price line of a Qasa listing, where its rent is known.
pub open spec fn home_price_lines(h: &Home) -> Seq<Seq<char>> {
    match h.rent {
        Some(r) => seq![
            "💰 "@ + dec_int(r as int) + " "@ + text_or(h.currency, "SEK"@) + "/mo"@ + match h.monthly_cost {
                Some(t) => if t != r {
                    " (total "@ + dec_int(t as int) + ")"@
                } else {
                    Seq::empty()
                },
                None => Seq::empty(),
            },
        ],
        None => Seq::empty(),
    }
}

/// The tags of a Qasa listing: home type, first-hand, source platform.
pub open spec fn home_tags(h: &Home) -> Seq<Seq<char>> {
    (match h.home_type {
        Some(t) => seq![esc_spec(t@)],
        None => Seq::empty(),
    }) + (if h.first_hand == Some(true) {
        seq!["first-hand"@]
    } else {
        Seq::empty()
    }) + (match h.platform {
        Some(p) => seq!["via "@ + esc_spec(p@)],
        None => Seq::empty(),
    })
}

/// The HTML text of a Qasa listing message.
pub open spec fn listing_text(h: &Home) -> Seq<char> {
    join(
        seq![home_head_line(h)] + home_price_lines(h) + size_lines(h.square_meters_tenths, h.room_count_tenths)
            + tag_lines(home_tags(h)),
        "\n"@,
    )
}

/// An optional string, copied.
fn copy_text(o: &Option<String>) -> (r: String)
    ensures
        r@ == text_or(*o, Seq::empty()),
{
    match o {
        Some(s) => s.clone(),
        None => String::new(),
    }
}

/// The HTML text of the message that presents a Qasa listing.
pub fn format_listing(home: &Home) -> (r: String)
    ensures
        r@ == listing_text(home),
{
    let locality = match &home.location {
        Some(l) => copy_text(&l.locality),
        None => String::new(),
    };
    let street = match &home.location {
        Some(l) => match (&l.route, &l.street_number) {
            (Some(route), Some(number)) => {
                let mut s = route.clone();
                s.append(" ");
                s.append(number.as_str());
                s
            },
            (Some(route), None) => route.clone(),
            _ => String::new(),
        },
        None => String::new(),
    };
    let headline = if street.unicode_len() > 0 {
        street
    } else if let Some(title) = &home.title {
        title.clone()
    } else if locality.unicode_len() > 0 {
        locality.clone()
    } else {
        String::from_str("Home")
    };
    assert(headline@ == home_headline(home));

    let mut lines: Vec<String> = Vec::new();
    let mut head = String::new();
    head.append("🏠 <b>");
    head.append(esc(headline.as_str()).as_str());
    if locality.unicode_len() > 0 && !(locality == headline) {
        head.append("</b>, ");
        head.append(esc(locality.as_str()).as_str());
    } else {
        head.append("</b>");
    }
    assert(head@ == home_head_line(home));
    push_string(&mut lines, head);
    assert(views(lines@) =~= seq![home_head_line(home)]);

    if let Some(rent) = home.rent {
        let mut price = String::new();
        price.append("💰 ");
        push_dec_i64(&mut price, rent);
        price.append(" ");
        match &home.currency {
            Some(c) => price.append(c.as_str()),
            None => price.append("SEK"),
        }
        price.append("/mo");
        if let Some(total) = home.monthly_cost {
            if total != rent {
                price.append(" (total ");
                push_dec_i64(&mut price, total);
                price.append(")");
            }
        }
        assert(price@ == home_price_lines(home)[0]);
        push_string(&mut lines, price);
    }
    assert(views(lines@) =~= seq![home_head_line(home)] + home_price_lines(home));

    push_size_line(&mut lines, home.square_meters_tenths, home.room_count_tenths);

    let mut tags: Vec<String> = Vec::new();
    if let Some(t) = &home.home_type {
        push_string(&mut tags, esc(t.as_str()));
    }
    if home.first_hand == Some(true) {
        push_string(&mut tags, String::from_str("first-hand"));
    }
    if let Some(p) = &home.platform {
        let mut via = String::new();
        via.append("via ");
        via.append(esc(p.as_str()).as_str());
        push_string(&mut tags, via);
    }
    assert(views(tags@) =~= home_tags(home));
    push_tag_line(&mut lines, &tags);
    join_strings(&lines, "\n")
}

/// The public listing page of a Qasa home.
pub open spec fn listing_url_spec(h: &Home) -> Seq<char> {
    "https://qasa.com/se/en/home/"@ + h.id@
}

/// How a listing message opens. Its first line is the bold heading: the
/// street (route and number, or the route), else the title, else the
/// locality, else `Home`; with the locality after it when there is one that
/// differs from the heading. Where the rent is known, the second line is the
/// price, with the total cost after it exactly when that is known and
/// differs from the rent.
pub proof fn lemma_listing_head_and_price(h: Home)
    ensures
        ({
            let locality: Seq<char> = match h.location {
                Some(l) => match l.locality {
                    Some(x) => x@,
                    None => Seq::empty(),
                },
                None => Seq::empty(),
            };
            let street: Seq<char> = match h.location {
                Some(l) => match l.route {
                    Some(r) => match l.street_number {
                        Some(n) => r@ + " "@ + n@,
                        None => r@,
                    },
                    None => Seq::empty(),
                },
                None => Seq::empty(),
            };
            let heading = if street.len() > 0 {
                street
            } else if h.title is Some {
                h.title->0@
            } else if locality.len() > 0 {
                locality
            } else {
                "Home"@
            };
            let first = if locality.len() > 0 && locality != heading {
                "🏠 <b>"@ + esc_spec(heading) + "</b>, "@ + esc_spec(locality)
            } else {
                "🏠 <b>"@ + esc_spec(heading) + "</b>"@
            };
            let text = listing_text(&h);
            &&& text.take(first.len() as int) == first
            &&& (text.len() == first.len() || text[first.len() as int] == '\n')
            &&& h.rent matches Some(x) ==> {
                let price = "💰 "@ + dec_int(x as int) + " "@ + (match h.currency {
                    Some(c) => c@,
                    None => "SEK"@,
                }) + "/mo"@ + (match h.monthly_cost {
                    Some(t) => if t != x {
                        " (total "@ + dec_int(t as int) + ")"@
                    } else {
                        Seq::empty()
                    },
                    None => Seq::empty(),
                });
                let after: int = first.len() + 1int + price.len();
                &&& text.len() > first.len()
                &&& text[first.len() as int] == '\n'
                &&& text.subrange(first.len() + 1int, after) == price
                &&& (text.len() == after || text[after] == '\n')
            }
        }),
{
    lemma_listing_lines(h);
    let locality: Seq<char> = match h.location {
        Some(l) => match l.locality {
            Some(x) => x@,
            None => Seq::empty(),
        },
        None => Seq::empty(),
    };
    assert(home_locality(&h) == locality);
    let street: Seq<char> = match h.location {
        Some(l) => match l.route {
            Some(r) => match l.street_number {
                Some(n) => r@ + " "@ + n@,
                None => r@,
            },
            None => Seq::empty(),
        },
        None => Seq::empty(),
    };
    assert(home_street(&h) == street);
    let heading = if street.len() > 0 {
        street
    } else if h.title is Some {
        h.title->0@
    } else if locality.len() > 0 {
        locality
    } else {
        "Home"@
    };
    assert(home_headline(&h) == heading);
    let first = if locality.len() > 0 && locality != heading {
        "🏠 <b>"@ + esc_spec(heading) + "</b>, "@ + esc_spec(locality)
    } else {
        "🏠 <b>"@ + esc_spec(heading) + "</b>"@
    };
    assert(home_head_line(&h) =~= first);
    if let Some(x) = h.rent {
        let price = "💰 "@ + dec_int(x as int) + " "@ + (match h.currency {
            Some(c) => c@,
            None => "SEK"@,
        }) + "/mo"@ + (match h.monthly_cost {
            Some(t) => if t != x {
                " (total "@ + dec_int(t as int) + ")"@
            } else {
                Seq::empty()
            },
            None => Seq::empty(),
        });
        assert(home_price_lines(&h)[0] =~= price);
    }
}

/// The first line of a listing message is its head line, and where the rent
/// is known the second is its price line.
proof fn lemma_listing_lines(h: Home)
    ensures
        ({
            let head = home_head_line(&h);
            let text = listing_text(&h);
            &&& text.take(head.len() as int) == head
            &&& (text.len() == head.len() || text[head.len() as int] == '\n')
            &&& h.rent is Some ==> {
                let price = home_price_lines(&h)[0];
                let after: int = head.len() + 1int + price.len();
                &&& text.len() > head.len()
                &&& text[head.len() as int] == '\n'
                &&& text.subrange(head.len() + 1int, after) == price
                &&& (text.len() == after || text[after] == '\n')
            }
        }),
{
    let head = home_head_line(&h);
    let prices = home_price_lines(&h);
    let parts = seq![head] + prices + size_lines(h.square_meters_tenths, h.room_count_tenths) + tag_lines(home_tags(&h));
    let text = listing_text(&h);
    assert(text == join(parts, "\n"@));
    reveal_strlit("\n");
    assert(parts[0] == head);
    if parts.len() == 1 {
        assert(text == head);
        assert(text.take(head.len() as int) =~= head);
    } else {
        lemma_join_front(parts, "\n"@);
        let rest = parts.drop_first();
        assert(text == head + "\n"@ + join(rest, "\n"@));
        assert(text.take(head.len() as int) =~= head);
        assert(text[head.len() as int] == '\n');
        if h.rent is Some {
            let price = prices[0];
            assert(rest[0] == price);
            if rest.len() == 1 {
                assert(join(rest, "\n"@) == price);
                assert(text.subrange(head.len() + 1int, head.len() + 1int + price.len()) =~= price);
            } else {
                lemma_join_front(rest, "\n"@);
                assert(join(rest, "\n"@) == price + "\n"@ + join(rest.drop_first(), "\n"@));
                assert(text.subrange(head.len() + 1int, head.len() + 1int + price.len()) =~= price);
                assert(text[head.len() + 1int + price.len()] == '\n');
            }
        }
    }
    if h.rent is Some {
        assert(parts.len() >= 2);
    }
}

/// Public listing page for a home.
pub fn listing_url(home: &Home) -> (r: String)
    ensures
        r@ == listing_url_spec(home),
{
    let mut r = String::new();
    r.append("https://qasa.com/se/en/home/");
    r.append(home.id.as_str());
    r
}


/// The headline of an ad: its street address, else its district, else
/// `Apartment`.
pub open spec fn ad_headline(ad: &Ad) -> Seq<char> {
    match ad.gatuadress {
        Some(g) => g@,
        None => match ad.stadsdel {
            Some(s) => s@,
            None => "Apartment"@,
        },
    }
}

/// The district and kommun of an ad, where they add information to the
/// headline.
pub open spec fn ad_place(ad: &Ad) -> Seq<Seq<char>> {
    let first = match ad.stadsdel {
        Some(s) => if s@ != ad_headline(ad) {
            seq![s@]
        } else {
            Seq::<Seq<char>>::empty()
        },
        None => Seq::empty(),
    };
    match ad.kommun {
        Some(k) => if !first.contains(k@) {
            first.push(k@)
        } else {
            first
        },
        None => first,
    }
}

/// The first line of an ad message.
pub open spec fn ad_head_line(ad: &Ad) -> Seq<char> {
    let place = ad_place(ad);
    if place.len() == 0 {
        "🏠 <b>"@ + esc_spec(ad_headline(ad)) + "</b>"@
    } else {
        "🏠 <b>"@ + esc_spec(ad_headline(ad)) + "</b>, "@ + esc_spec(join(place, ", "@))
    }
}

/// The rent line of an ad, where its rent is known.
pub open spec fn ad_rent_lines(ad: &Ad) -> Seq<Seq<char>> {
    match ad_rent(ad) {
        Some(r) => seq!["💰 "@ + dec_int(r as int) + " SEK/mo"@],
        None => Seq::empty(),
    }
}

/// A tag, where its condition holds.
pub open spec fn tag_if(cond: bool, tag: Seq<char>) -> Seq<Seq<char>> {
    if cond {
        seq![tag]
    } else {
        Seq::empty()
    }
}

/// The tags of an ad, in the order the message lists them.
pub open spec fn ad_tags(ad: &Ad) -> Seq<Seq<char>> {
    tag_if(ad.bostad_snabbt, "⚡ Bostad snabbt — first come, first served"@) + tag_if(
        ad.student,
        "student"@,
    ) + tag_if(ad.ungdom, "ungdom"@) + tag_if(ad.senior, "senior"@) + tag_if(
        ad.korttid,
        "short-term"@,
    ) + tag_if(ad.kort_kotid && !ad.bostad_snabbt, "short queue"@) + tag_if(
        ad.nyproduktion,
        "new build"@,
    ) + match ad.lagenhetstyp {
        Some(t) => seq![esc_spec(t@)],
        None => Seq::empty(),
    }
}

/// The queue-time line of an ad: the range of recent comparable lettings,
/// shown only for queue-allocated ads.
pub open spec fn ad_queue_lines(ad: &Ad) -> Seq<Seq<char>> {
    if ad.bostad_snabbt {
        Seq::empty()
    } else {
        match (ad_queue_q1(ad), ad_queue_q3(ad)) {
            (Some(q1), Some(q3)) => if q1 != q3 {
                seq!["⏳ queue ~"@ + dec_int(q1 as int) + "–"@ + dec_int(q3 as int) + " yrs"@]
            } else {
                seq!["⏳ queue ~"@ + dec_int(q1 as int) + " yrs"@]
            },
            (Some(q1), None) => seq!["⏳ queue ~"@ + dec_int(q1 as int) + " yrs"@],
            _ => Seq::empty(),
        }
    }
}

/// The application deadline line of an ad, where it has one.
pub open spec fn ad_deadline_lines(ad: &Ad) -> Seq<Seq<char>> {
    match ad.annonserad_till {
        Some(t) => seq!["⏰ apply by "@ + esc_spec(t@)],
        None => Seq::empty(),
    }
}

/// The HTML text of a Bostadsförmedlingen ad message.
pub open spec fn bostad_listing_text(ad: &Ad) -> Seq<char> {
    join(
        seq![ad_head_line(ad)] + ad_rent_lines(ad) + size_lines(ad_sqm(ad), ad.antal_rum_tenths)
            + tag_lines(ad_tags(ad)) + ad_queue_lines(ad) + ad_deadline_lines(ad),
        "\n"@,
    )
}

/// Appends `tag` where `cond` holds.
fn push_tag_if(tags: &mut Vec<String>, cond: bool, tag: &str)
    ensures
        views(final(tags)@) == views(old(tags)@) + tag_if(cond, tag@),
{
    if cond {
        push_string(tags, String::from_str(tag));
    }
    proof {
        assert(views(tags@) =~= views(old(tags)@) + tag_if(cond, tag@));
    }
}

/// The headline of an ad.
fn ad_headline_exec(ad: &Ad) -> (r: String)
    ensures
        r@ == ad_headline(ad),
{
    match &ad.gatuadress {
        Some(g) => g.clone(),
        None => match &ad.stadsdel {
            Some(s) => s.clone(),
            None => String::from_str("Apartment"),
        },
    }
}

/// The district and kommun of an ad, where they add to `headline`.
fn ad_place_exec(ad: &Ad, headline: &String) -> (r: Vec<String>)
    requires
        headline@ == ad_headline(ad),
    ensures
        views(r@) == ad_place(ad),
{
    let mut place: Vec<String> = Vec::new();
    if let Some(stadsdel) = &ad.stadsdel {
        if !(*stadsdel == *headline) {
            push_string(&mut place, stadsdel.clone());
        }
    }
    let ghost first = views(place@);
    assert(first =~= match ad.stadsdel {
        Some(s) => if s@ != ad_headline(ad) {
            seq![s@]
        } else {
            Seq::<Seq<char>>::empty()
        },
        None => Seq::empty(),
    });
    if let Some(kommun) = &ad.kommun {
        if !contains_string(&place, kommun) {
            push_string(&mut place, kommun.clone());
        }
    }
    place
}

/// The first line of an ad message.
fn ad_head_line_exec(ad: &Ad) -> (r: String)
    ensures
        r@ == ad_head_line(ad),
{
    let headline = ad_headline_exec(ad);
    let place = ad_place_exec(ad, &headline);
    let mut head = String::new();
    head.append("🏠 <b>");
    head.append(esc(headline.as_str()).as_str());
    if place.len() == 0 {
        head.append("</b>");
    } else {
        head.append("</b>, ");
        head.append(esc(join_strings(&place, ", ").as_str()).as_str());
    }
    head
}

/// The tags of an ad.
fn ad_tags_exec(ad: &Ad) -> (r: Vec<String>)
    ensures
        views(r@) == ad_tags(ad),
{
    let mut tags: Vec<String> = Vec::new();
    push_tag_if(&mut tags, ad.bostad_snabbt, "⚡ Bostad snabbt — first come, first served");
    push_tag_if(&mut tags, ad.student, "student");
    push_tag_if(&mut tags, ad.ungdom, "ungdom");
    push_tag_if(&mut tags, ad.senior, "senior");
    push_tag_if(&mut tags, ad.korttid, "short-term");
    push_tag_if(&mut tags, ad.kort_kotid && !ad.bostad_snabbt, "short queue");
    push_tag_if(&mut tags, ad.nyproduktion, "new build");
    if let Some(t) = &ad.lagenhetstyp {
        push_string(&mut tags, esc(t.as_str()));
    }
    assert(views(tags@) =~= ad_tags(ad));
    tags
}

/// Appends the queue-time line of an ad, where it has one.
fn push_queue_line(lines: &mut Vec<String>, ad: &Ad)
    ensures
        views(final(lines)@) == views(old(lines)@) + ad_queue_lines(ad),
{
    if !ad.bostad_snabbt {
        match (ad.queue_q1(), ad.queue_q3()) {
            (Some(q1), Some(q3)) => {
                let mut line = String::new();
                line.append("⏳ queue ~");
                push_dec_i64(&mut line, q1);
                if q1 != q3 {
                    line.append("–");
                    push_dec_i64(&mut line, q3);
                }
                line.append(" yrs");
                push_string(lines, line);
            },
            (Some(q1), None) => {
                let mut line = String::new();
                line.append("⏳ queue ~");
                push_dec_i64(&mut line, q1);
                line.append(" yrs");
                push_string(lines, line);
            },
            _ => {},
        }
    }
    proof {
        assert(views(lines@) =~= views(old(lines)@) + ad_queue_lines(ad));
    }
}

/// The HTML text of the message that presents a Bostadsförmedlingen ad.
pub fn format_bostad_listing(ad: &Ad) -> (r: String)
    ensures
        r@ == bostad_listing_text(ad),
{
    let mut lines: Vec<String> = Vec::new();
    push_string(&mut lines, ad_head_line_exec(ad));
    assert(views(lines@) =~= seq![ad_head_line(ad)]);

    if let Some(rent) = ad.rent() {
        let mut line = String::new();
        line.append("💰 ");
        push_dec_i64(&mut line, rent);
        line.append(" SEK/mo");
        push_string(&mut lines, line);
    }
    assert(views(lines@) =~= seq![ad_head_line(ad)] + ad_rent_lines(ad));

    push_size_line(&mut lines, ad.sqm(), ad.antal_rum_tenths);
    let tags = ad_tags_exec(ad);
    push_tag_line(&mut lines, &tags);
    push_queue_line(&mut lines, ad);

    let ghost before = views(lines@);
    if let Some(till) = &ad.annonserad_till {
        let mut line = String::new();
        line.append("⏰ apply by ");
        line.append(esc(till.as_str()).as_str());
        push_string(&mut lines, line);
    }
    assert(views(lines@) =~= before + ad_deadline_lines(ad));
    join_strings(&lines, "\n")
}


// ---------------------------------------------------------------------------
// Reading pinned messages, retrying sends
// ---------------------------------------------------------------------------

/// The state held by a chat's pinned message: its watermark, if its text
/// holds one.
pub fn pinned_state(text: Option<&str>, message_id: i32) -> (r: Option<State>)
    ensures
        match text {
            None => r is None,
            Some(t) => match watermark_in(t@) {
                None => r is None,
                Some(w) => r matches Some(st) && st.watermark == w && st.message_id == message_id,
            },
        },
{
    match text {
        None => None,
        Some(t) => match parse_watermark(t) {
            None => None,
            Some(watermark) => Some(State { watermark, message_id }),
        },
    }
}

/// The state held by the bostad chat's pinned message: its seen-id set, if
/// its text holds one.
pub fn pinned_bostad_state(text: Option<&str>, message_id: i32) -> (r: Option<BostadState>)
    ensures
        match text {
            None => r is None,
            Some(t) => match seen_in(t@) {
                None => r is None,
                Some(s) => r matches Some(st) && st.seen@ == s && st.message_id == message_id,
            },
        },
{
    match text {
        None => None,
        Some(t) => match parse_seen(t) {
            None => None,
            Some(seen) => Some(BostadState { seen, message_id }),
        },
    }
}

/// How many times to try a send when Telegram answers 429 before giving up.
pub const MAX_SEND_ATTEMPTS: usize = 5;

/// Fallback wait when Telegram sends a 429 without a `retry_after`.
pub const DEFAULT_RETRY_SECS: u16 = 5;

/// After attempt `attempt` (counted from 1) of a send failed: the seconds to
/// wait before the next attempt, or `None` to give up. Only rate limiting
/// (an API error 429) is retried, and only before the last attempt; the wait
/// is Telegram's `retry_after` (or the fallback) plus one second.
pub open spec fn retry_wait_spec(attempt: usize, api_error_code: Option<u64>, retry_after: Option<u16>) -> Option<u64> {
    if api_error_code == Some(429u64) && attempt < MAX_SEND_ATTEMPTS {
        Some(
            ((match retry_after {
                Some(w) => w,
                None => DEFAULT_RETRY_SECS,
            }) + 1) as u64,
        )
    } else {
        None
    }
}

/// Decides whether a failed send is retried, and after how long.
/// `api_error_code` is the code of an API error response, `None` for other
/// failures.
pub fn retry_wait(attempt: usize, api_error_code: Option<u64>, retry_after: Option<u16>) -> (r: Option<u64>)
    ensures
        r == retry_wait_spec(attempt, api_error_code, retry_after),
{
    if api_error_code == Some(429u64) && attempt < MAX_SEND_ATTEMPTS {
        let wait: u16 = match retry_after {
            Some(w) => w,
            None => DEFAULT_RETRY_SECS,
        };
        Some(wait as u64 + 1)
    } else {
        None
    }
}

/// The last attempt is never retried: a send is tried at most
/// `MAX_SEND_ATTEMPTS` times.
pub proof fn lemma_retry_bounded(attempt: usize, api_error_code: Option<u64>, retry_after: Option<u16>)
    ensures
        attempt >= MAX_SEND_ATTEMPTS ==> retry_wait_spec(attempt, api_error_code, retry_after) is None,
        retry_wait_spec(attempt, api_error_code, retry_after) matches Some(w) ==> 1 <= w <= 65536,
{
}


/// A run of sends of one message, as the sender loop makes them from attempt
/// `attempt` on: each entry of `outcomes` is what a send answers (`None` for
/// success, else the API error code of a failure, if it was one, and its
/// `retry_after`). Gives how many sends were made, the waits between them,
/// and whether the message went out.
pub open spec fn send_run(outcomes: Seq<Option<(Option<u64>, Option<u16>)>>, attempt: nat) -> (nat, Seq<u64>, bool)
    decreases outcomes.len(),
{
    if outcomes.len() == 0 {
        (0, Seq::empty(), false)
    } else {
        match outcomes[0] {
            None => (1, Seq::empty(), true),
            Some((code, retry_after)) => match retry_wait_spec(attempt as usize, code, retry_after) {
                None => (1, Seq::empty(), false),
                Some(w) => {
                    let r = send_run(outcomes.drop_first(), attempt + 1);
                    (r.0 + 1, seq![w] + r.1, r.2)
                },
            },
        }
    }
}

/// A send that failed with rate limiting (429).
pub open spec fn rate_limited(outcome: Option<(Option<u64>, Option<u16>)>) -> bool {
    match outcome {
        Some((Some(code), _)) => code == 429,
        _ => false,
    }
}

/// A failed send that was rate limited (429) and followed by a wait of its
/// `retry_after`, or the fallback, plus one second.
pub open spec fn retried_after(outcome: Option<(Option<u64>, Option<u16>)>, wait: u64) -> bool {
    match outcome {
        Some((Some(code), ra)) => code == 429 && wait == (match ra {
            Some(w) => w,
            None => DEFAULT_RETRY_SECS,
        }) + 1,
        _ => false,
    }
}

/// A message is sent at most `MAX_SEND_ATTEMPTS` times. Every send but the
/// last failed with rate limiting (429) and is followed by a wait of its
/// `retry_after`, or the fallback, plus one second; the run stops at the
/// first success, at any other failure, or at a 429 on the last attempt
/// (unless the answers given run out first); and the message went out
/// exactly when the last send succeeded.
pub proof fn lemma_send_run_bounded(outcomes: Seq<Option<(Option<u64>, Option<u16>)>>)
    ensures
        ({
            let (n, waits, ok) = send_run(outcomes, 1);
            &&& n <= MAX_SEND_ATTEMPTS
            &&& n <= outcomes.len()
            &&& outcomes.len() > 0 ==> n > 0
            &&& n - 1 <= waits.len() <= n
            &&& forall|k: int| 0 <= k < n - 1 ==> retried_after(#[trigger] outcomes[k], waits[k])
            &&& ok <==> (n > 0 && outcomes[n - 1] is None)
            &&& (0 < n < outcomes.len() && outcomes[n - 1] is Some) ==> (!rate_limited(outcomes[n - 1]) || n == MAX_SEND_ATTEMPTS)
        }),
{
    lemma_send_run_from(outcomes, 1);
}

/// `lemma_send_run_bounded`, from any attempt.
proof fn lemma_send_run_from(outcomes: Seq<Option<(Option<u64>, Option<u16>)>>, attempt: nat)
    requires
        1 <= attempt <= MAX_SEND_ATTEMPTS,
    ensures
        ({
            let (n, waits, ok) = send_run(outcomes, attempt);
            &&& n + attempt <= MAX_SEND_ATTEMPTS + 1
            &&& n <= outcomes.len()
            &&& outcomes.len() > 0 ==> n > 0
            &&& n - 1 <= waits.len() <= n
            &&& forall|k: int| 0 <= k < n - 1 ==> retried_after(#[trigger] outcomes[k], waits[k])
            &&& ok <==> (n > 0 && outcomes[n - 1] is None)
            &&& (0 < n < outcomes.len() && outcomes[n - 1] is Some) ==> (!rate_limited(outcomes[n - 1]) || n + attempt
                == MAX_SEND_ATTEMPTS + 1)
        }),
    decreases outcomes.len(),
{
    if outcomes.len() > 0 {
        if let Some((code, retry_after)) = outcomes[0] {
            if let Some(w) = retry_wait_spec(attempt as usize, code, retry_after) {
                let rest = outcomes.drop_first();
                lemma_send_run_from(rest, attempt + 1);
                let r = send_run(rest, attempt + 1);
                let (n, waits, ok) = send_run(outcomes, attempt);
                assert(n == r.0 + 1);
                assert(waits == seq![w] + r.1);
                assert forall|k: int| 0 <= k < n - 1 implies retried_after(#[trigger] outcomes[k], waits[k]) by {
                    if k > 0 {
                        assert(outcomes[k] == rest[k - 1]);
                        assert(waits[k] == r.1[k - 1]);
                    }
                }
                if n > 1 {
                    assert(outcomes[n - 1] == rest[n - 2]);
                }
            }
        }
    }
}
} // verus!


