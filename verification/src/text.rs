//! Character-level text utilities shared by every module: decimal
//! formatting and parsing of integers, substring search, splitting, trimming,
//! and joining, each with the mathematical meaning it has in
//! Rust's standard library stated as a spec function.

use vstd::prelude::*;

verus! {

broadcast use vstd::string::group_string_axioms;

// ---------------------------------------------------------------------------
// Building strings
// ---------------------------------------------------------------------------

/// `String::push`: appends one character.
#[verifier::external_body]
pub fn push_char(s: &mut String, c: char)
    ensures
        final(s)@ == old(s)@.push(c),
{
    s.push(c);
}

/// The characters of `s`, in order.
pub fn chars_of(s: &str) -> (v: Vec<char>)
    ensures
        v@ == s@,
{
    let mut v: Vec<char> = Vec::new();
    for c in it: s.chars()
        invariant
            v@ == it.seq().take(it.index()),
            it.seq() == s@,
    {
        v.push(c);
    }
    v
}

/// A `String` holding the characters of `v[lo..hi]`.
pub fn string_from_range(v: &Vec<char>, lo: usize, hi: usize) -> (s: String)
    requires
        lo <= hi <= v.len(),
    ensures
        s@ == v@.subrange(lo as int, hi as int),
{
    let mut s = String::new();
    let mut i = lo;
    while i < hi
        invariant
            lo <= i <= hi <= v.len(),
            s@ == v@.subrange(lo as int, i as int),
        decreases hi - i,
    {
        push_char(&mut s, v[i]);
        proof {
            assert(v@.subrange(lo as int, i + 1) == v@.subrange(lo as int, i as int).push(v@[i as int]));
        }
        i = i + 1;
    }
    s
}

/// Appends `t` to `s`.
pub fn append_string(s: &mut String, t: &String)
    ensures
        final(s)@ == old(s)@ + t@,
{
    s.append(t.as_str());
}

// ---------------------------------------------------------------------------
// Decimal formatting
// ---------------------------------------------------------------------------

/// The ASCII digit for `d` (0..=9).
pub open spec fn digit_char(d: nat) -> char {
    if d == 0 { '0' }
    else if d == 1 { '1' }
    else if d == 2 { '2' }
    else if d == 3 { '3' }
    else if d == 4 { '4' }
    else if d == 5 { '5' }
    else if d == 6 { '6' }
    else if d == 7 { '7' }
    else if d == 8 { '8' }
    else { '9' }
}

/// Decimal representation of a natural number, as `{}` formats it.
pub open spec fn dec_nat(n: nat) -> Seq<char>
    decreases n,
{
    if n < 10 {
        seq![digit_char(n)]
    } else {
        dec_nat(n / 10).push(digit_char(n % 10))
    }
}

/// Decimal representation of an integer, as `{}` formats it.
pub open spec fn dec_int(i: int) -> Seq<char> {
    if i < 0 {
        seq!['-'] + dec_nat((-i) as nat)
    } else {
        dec_nat(i as nat)
    }
}

fn digit(d: u64) -> (c: char)
    requires
        d < 10,
    ensures
        c == digit_char(d as nat),
{
    if d == 0 { '0' }
    else if d == 1 { '1' }
    else if d == 2 { '2' }
    else if d == 3 { '3' }
    else if d == 4 { '4' }
    else if d == 5 { '5' }
    else if d == 6 { '6' }
    else if d == 7 { '7' }
    else if d == 8 { '8' }
    else { '9' }
}

/// Appends the decimal digits of `n` to `s`.
pub fn push_dec_u64(s: &mut String, n: u64)
    ensures
        final(s)@ == old(s)@ + dec_nat(n as nat),
    decreases n,
{
    if n >= 10 {
        push_dec_u64(s, n / 10);
    }
    push_char(s, digit(n % 10));
    proof {
        if n >= 10 {
            assert(dec_nat(n as nat) == dec_nat((n / 10) as nat).push(digit_char((n % 10) as nat)));
            assert(old(s)@ + dec_nat(n as nat) == (old(s)@ + dec_nat((n / 10) as nat)).push(
                digit_char((n % 10) as nat),
            ));
        } else {
            assert(old(s)@ + dec_nat(n as nat) == old(s)@.push(digit_char(n as nat)));
        }
    }
}

/// Appends the decimal representation of `i` (with a leading `-` when
/// negative) to `s`.
pub fn push_dec_i64(s: &mut String, i: i64)
    ensures
        final(s)@ == old(s)@ + dec_int(i as int),
{
    if i < 0 {
        push_char(s, '-');
        let mag: u64 = (0i128 - (i as i128)) as u64;
        push_dec_u64(s, mag);
        assert(old(s)@ + dec_int(i as int) == old(s)@.push('-') + dec_nat(mag as nat));
    } else {
        push_dec_u64(s, i as u64);
    }
}

/// `u64::to_string`.
pub fn u64_to_string(n: u64) -> (s: String)
    ensures
        s@ == dec_nat(n as nat),
{
    let mut s = String::new();
    push_dec_u64(&mut s, n);
    assert(s@ == Seq::<char>::empty() + dec_nat(n as nat));
    s
}

/// `i64::to_string`.
pub fn i64_to_string(i: i64) -> (s: String)
    ensures
        s@ == dec_int(i as int),
{
    let mut s = String::new();
    push_dec_i64(&mut s, i);
    assert(s@ == Seq::<char>::empty() + dec_int(i as int));
    s
}

// ---------------------------------------------------------------------------
// Parsing integers (Rust's `FromStr` for the integer types)
// ---------------------------------------------------------------------------

/// `char::is_ascii_digit`.
pub open spec fn is_ascii_digit(c: char) -> bool {
    '0' <= c && c <= '9'
}

/// Every character is an ASCII digit.
pub open spec fn all_digits(s: Seq<char>) -> bool {
    forall|i: int| 0 <= i < s.len() ==> is_ascii_digit(#[trigger] s[i])
}

/// The value of a run of ASCII digits.
pub open spec fn digits_value(s: Seq<char>) -> nat
    decreases s.len(),
{
    if s.len() == 0 {
        0
    } else {
        digits_value(s.drop_last()) * 10 + ((s.last() as int) - 48) as nat
    }
}

/// A non-empty run of ASCII digits and its value.
pub open spec fn plain_digits(s: Seq<char>) -> Option<nat> {
    if s.len() > 0 && all_digits(s) {
        Some(digits_value(s))
    } else {
        None
    }
}

/// What an unsigned `parse` reads before its range check: an optional `+`
/// followed by at least one ASCII digit, and nothing else.
pub open spec fn parse_nat(s: Seq<char>) -> Option<nat> {
    if s.len() > 0 && s[0] == '+' {
        plain_digits(s.drop_first())
    } else {
        plain_digits(s)
    }
}

/// What a signed `parse` reads before its range check: an optional `+` or
/// `-` followed by at least one ASCII digit, and nothing else.
pub open spec fn parse_int(s: Seq<char>) -> Option<int> {
    if s.len() > 0 && s[0] == '-' {
        match plain_digits(s.drop_first()) {
            Some(n) => Some(-(n as int)),
            None => None,
        }
    } else {
        match parse_nat(s) {
            Some(n) => Some(n as int),
            None => None,
        }
    }
}

/// `s.parse::<uN>()` for an unsigned type whose largest value is `max`.
pub open spec fn parse_unsigned(s: Seq<char>, max: nat) -> Option<nat> {
    match parse_nat(s) {
        Some(n) => if n <= max { Some(n) } else { None },
        None => None,
    }
}

/// `s.parse::<i64>()`.
pub open spec fn parse_i64(s: Seq<char>) -> Option<i64> {
    match parse_int(s) {
        Some(n) => if i64::MIN <= n <= i64::MAX { Some(n as i64) } else { None },
        None => None,
    }
}

/// `s.parse::<u64>()`.
pub open spec fn parse_u64(s: Seq<char>) -> Option<u64> {
    match parse_unsigned(s, u64::MAX as nat) {
        Some(n) => Some(n as u64),
        None => None,
    }
}

proof fn lemma_digits_value_prefix(s: Seq<char>, k: int)
    requires
        0 <= k <= s.len(),
    ensures
        digits_value(s.subrange(0, k)) <= digits_value(s),
    decreases s.len(),
{
    if k < s.len() {
        lemma_digits_value_prefix(s.drop_last(), k);
        assert(s.drop_last().subrange(0, k) == s.subrange(0, k));
    } else {
        assert(s.subrange(0, k) == s);
    }
}

/// Reads the digits of `v[lo..hi]` (which must be a non-empty digit run in
/// order to give `Some`) and gives their value when it is at most `max`.
fn digits_in_range(v: &Vec<char>, lo: usize, hi: usize, max: u64) -> (r: Option<u64>)
    requires
        lo <= hi <= v.len(),
    ensures
        r == (match plain_digits(v@.subrange(lo as int, hi as int)) {
            Some(n) => if n <= max { Some(n as u64) } else { None },
            None => None,
        }),
{
    let ghost d = v@.subrange(lo as int, hi as int);
    if lo == hi {
        return None;
    }
    let mut acc: u64 = 0;
    let mut i = lo;
    while i < hi
        invariant
            lo <= i <= hi <= v.len(),
            d == v@.subrange(lo as int, hi as int),
            all_digits(d.subrange(0, i - lo)),
            acc == digits_value(d.subrange(0, i - lo)),
            acc <= max,
        decreases hi - i,
    {
        let c = v[i];
        if !('0' <= c && c <= '9') {
            proof {
                assert(d[i - lo] == c);
            }
            return None;
        }
        let dv: u64 = (c as u32 - 48) as u64;
        let next: u128 = (acc as u128) * 10 + (dv as u128);
        proof {
            let p = d.subrange(0, i - lo + 1);
            assert(p.drop_last() == d.subrange(0, i - lo));
            assert(p.last() == c);
            assert(digits_value(p) == acc * 10 + dv);
        }
        if next > max as u128 {
            proof {
                let p = d.subrange(0, i - lo + 1);
                lemma_digits_value_prefix(d, i - lo + 1);
                if all_digits(d) {
                    assert(digits_value(d) > max);
                }
            }
            return None;
        }
        acc = next as u64;
        i = i + 1;
        proof {
            let p = d.subrange(0, i - lo);
            assert forall|j: int| 0 <= j < p.len() implies is_ascii_digit(#[trigger] p[j]) by {
                if j < p.len() - 1 {
                    assert(p[j] == d.subrange(0, i - lo - 1)[j]);
                }
            }
        }
    }
    proof {
        assert(d.subrange(0, i - lo) == d);
    }
    Some(acc)
}

/// `v[lo..hi].parse::<uN>()` for an unsigned type whose largest value is
/// `max`.
pub fn parse_unsigned_range(v: &Vec<char>, lo: usize, hi: usize, max: u64) -> (r: Option<u64>)
    requires
        lo <= hi <= v.len(),
    ensures
        r == (match parse_unsigned(v@.subrange(lo as int, hi as int), max as nat) {
            Some(n) => Some(n as u64),
            None => None,
        }),
{
    let ghost s = v@.subrange(lo as int, hi as int);
    if lo < hi && v[lo] == '+' {
        proof {
            assert(s.drop_first() == v@.subrange(lo + 1, hi as int));
        }
        digits_in_range(v, lo + 1, hi, max)
    } else {
        digits_in_range(v, lo, hi, max)
    }
}

/// `v[lo..hi].parse::<i64>()`.
pub fn parse_i64_range(v: &Vec<char>, lo: usize, hi: usize) -> (r: Option<i64>)
    requires
        lo <= hi <= v.len(),
    ensures
        r == parse_i64(v@.subrange(lo as int, hi as int)),
{
    let ghost s = v@.subrange(lo as int, hi as int);
    if lo < hi && v[lo] == '-' {
        proof {
            assert(s.drop_first() == v@.subrange(lo + 1, hi as int));
        }
        match digits_in_range(v, lo + 1, hi, 0x8000_0000_0000_0000u64) {
            Some(m) => {
                let r: i128 = 0i128 - (m as i128);
                Some(r as i64)
            },
            None => None,
        }
    } else {
        match parse_unsigned_range(v, lo, hi, 0x7fff_ffff_ffff_ffffu64) {
            Some(m) => Some(m as i64),
            None => None,
        }
    }
}

/// Are the characters `v[lo..hi]` exactly those of `lit`?
pub fn range_is(v: &Vec<char>, lo: usize, hi: usize, lit: &str) -> (b: bool)
    requires
        lo <= hi <= v.len(),
    ensures
        b == (v@.subrange(lo as int, hi as int) == lit@),
{
    let l = chars_of(lit);
    if hi - lo != l.len() {
        return false;
    }
    let mut j: usize = 0;
    while j < l.len()
        invariant
            lo <= hi <= v.len(),
            hi - lo == l.len(),
            l@ == lit@,
            j <= l.len(),
            forall|m: int| 0 <= m < j ==> v@[lo + m] == l@[m],
        decreases l.len() - j,
    {
        if v[lo + j] != l[j] {
            proof {
                assert(v@.subrange(lo as int, hi as int)[j as int] != l@[j as int]);
            }
            return false;
        }
        j = j + 1;
    }
    proof {
        assert(v@.subrange(lo as int, hi as int) =~= l@);
    }
    true
}

/// `s.parse::<u64>()`.
pub fn parse_u64_str(s: &str) -> (r: Option<u64>)
    ensures
        r == parse_u64(s@),
{
    let v = chars_of(s);
    proof {
        assert(v@.subrange(0, v@.len() as int) == s@);
    }
    parse_unsigned_range(&v, 0, v.len(), u64::MAX)
}

/// Digits of a natural number are digits and read back to the number.
pub proof fn lemma_dec_nat_parses(n: nat)
    ensures
        dec_nat(n).len() > 0,
        all_digits(dec_nat(n)),
        digits_value(dec_nat(n)) == n,
    decreases n,
{
    if n >= 10 {
        lemma_dec_nat_parses(n / 10);
        let s = dec_nat(n);
        assert(s.drop_last() == dec_nat(n / 10));
        assert(s.last() == digit_char(n % 10));
        lemma_digit_char_value(n % 10);
        assert(digits_value(s) == digits_value(s.drop_last()) * 10 + ((s.last() as int) - 48) as nat);
        assert(n == (n / 10) * 10 + n % 10);
        assert forall|i: int| 0 <= i < s.len() implies is_ascii_digit(#[trigger] s[i]) by {
            if i < s.len() - 1 {
                assert(s[i] == dec_nat(n / 10)[i]);
            }
        }
    } else {
        let s = dec_nat(n);
        assert(s.drop_last() =~= Seq::<char>::empty());
        assert(digits_value(s.drop_last()) == 0);
        lemma_digit_char_value(n);
        assert(digits_value(s) == digits_value(s.drop_last()) * 10 + ((s.last() as int) - 48) as nat);
    }
}

/// The decimal text of an integer reads back to that integer.
pub proof fn lemma_dec_int_parses(v: int)
    ensures
        parse_int(dec_int(v)) == Some(v),
{
    if v < 0 {
        let m = (-v) as nat;
        lemma_dec_nat_parses(m);
        let s = dec_int(v);
        assert(s[0] == '-');
        assert(s.drop_first() =~= dec_nat(m));
    } else {
        lemma_dec_nat_parses(v as nat);
        let s = dec_nat(v as nat);
        assert(is_ascii_digit(s[0]));
    }
}

/// A digit character has the code of its value plus `'0'`.
pub proof fn lemma_digit_char_value(d: nat)
    requires
        d < 10,
    ensures
        digit_char(d) as int == d + 48,
        is_ascii_digit(digit_char(d)),
{
}


// ---------------------------------------------------------------------------
// Searching
// ---------------------------------------------------------------------------

/// `k` occurs in `t` starting at index `i`.
pub open spec fn occurs_at(t: Seq<char>, k: Seq<char>, i: int) -> bool {
    0 <= i && i + k.len() <= t.len() && t.subrange(i, i + k.len()) == k
}

/// The first index at or after `i` where `k` occurs in `t`.
pub open spec fn find_from(t: Seq<char>, k: Seq<char>, i: int) -> Option<int>
    decreases t.len() + 1 - i,
{
    if i < 0 || i + k.len() > t.len() {
        None
    } else if occurs_at(t, k, i) {
        Some(i)
    } else {
        find_from(t, k, i + 1)
    }
}

/// `str::find` with a string pattern, counted in characters.
pub open spec fn find_seq(t: Seq<char>, k: Seq<char>) -> Option<int> {
    find_from(t, k, 0)
}

/// What `find_from` means: the first occurrence at or after `i`.
pub proof fn lemma_find_from(t: Seq<char>, k: Seq<char>, i: int)
    requires
        0 <= i,
    ensures
        match find_from(t, k, i) {
            Some(j) => i <= j && occurs_at(t, k, j) && forall|m: int|
                i <= m < j ==> !occurs_at(t, k, m),
            None => forall|m: int| i <= m ==> !occurs_at(t, k, m),
        },
    decreases t.len() + 1 - i,
{
    if i + k.len() > t.len() {
    } else if occurs_at(t, k, i) {
    } else {
        lemma_find_from(t, k, i + 1);
    }
}

/// An occurrence with none before it is what `find_seq` gives.
pub proof fn lemma_find_seq_first(t: Seq<char>, k: Seq<char>, p: int)
    requires
        occurs_at(t, k, p),
        forall|m: int| 0 <= m < p ==> !occurs_at(t, k, m),
    ensures
        find_seq(t, k) == Some(p),
{
    lemma_find_from(t, k, 0);
}

/// Does `k` occur in `t` at `i`?
fn occurs_at_exec(t: &Vec<char>, k: &Vec<char>, i: usize) -> (b: bool)
    requires
        i + k.len() <= t.len(),
    ensures
        b == occurs_at(t@, k@, i as int),
{
    let mut j: usize = 0;
    while j < k.len()
        invariant
            i + k.len() <= t.len(),
            j <= k.len(),
            forall|m: int| 0 <= m < j ==> t@[i + m] == k@[m],
        decreases k.len() - j,
    {
        if t[i + j] != k[j] {
            proof {
                assert(t@.subrange(i as int, i + k.len())[j as int] != k@[j as int]);
            }
            return false;
        }
        j = j + 1;
    }
    proof {
        assert(t@.subrange(i as int, i + k.len()) =~= k@);
    }
    true
}

/// `t.find(k)`, counted in characters.
pub fn find_chars(t: &Vec<char>, k: &Vec<char>) -> (r: Option<usize>)
    ensures
        match r {
            Some(i) => find_seq(t@, k@) == Some(i as int),
            None => find_seq(t@, k@) is None,
        },
{
    if k.len() > t.len() {
        return None;
    }
    if k.len() == 0 {
        proof {
            assert(t@.subrange(0, 0) =~= k@);
        }
        return Some(0);
    }
    let last = t.len() - k.len();
    let mut i: usize = 0;
    while i <= last
        invariant
            last == t.len() - k.len(),
            0 < k.len() <= t.len(),
            find_seq(t@, k@) == find_from(t@, k@, i as int),
        decreases last + 1 - i,
    {
        if occurs_at_exec(t, k, i) {
            return Some(i);
        }
        i = i + 1;
    }
    None
}

/// The index of the first `c` in `s` at or after `i`.
pub open spec fn index_of_from(s: Seq<char>, c: char, i: int) -> Option<int>
    decreases s.len() - i,
{
    if i < 0 || i >= s.len() {
        None
    } else if s[i] == c {
        Some(i)
    } else {
        index_of_from(s, c, i + 1)
    }
}

/// The index of the first `c` in `s`.
pub open spec fn index_of(s: Seq<char>, c: char) -> Option<int> {
    index_of_from(s, c, 0)
}

/// What `index_of_from` finds: the first occurrence at or after `i`.
pub proof fn lemma_index_of_from(s: Seq<char>, c: char, i: int)
    requires
        0 <= i,
    ensures
        match index_of_from(s, c, i) {
            Some(j) => i <= j < s.len() && s[j] == c && forall|m: int| i <= m < j ==> s[m] != c,
            None => forall|m: int| i <= m < s.len() ==> s[m] != c,
        },
    decreases s.len() - i,
{
    if i < s.len() && s[i] != c {
        lemma_index_of_from(s, c, i + 1);
    }
}

/// A `c` with none before it is what `index_of` gives; no `c` gives `None`.
pub proof fn lemma_index_of_first(s: Seq<char>, c: char, p: int)
    requires
        0 <= p <= s.len(),
        p < s.len() ==> s[p] == c,
        forall|m: int| 0 <= m < p ==> s[m] != c,
    ensures
        index_of(s, c) == (if p < s.len() { Some(p) } else { None::<int> }),
{
    lemma_index_of_from(s, c, 0);
}

/// The index of the first `c` in `s[lo..hi]`, counted from the start of `s`.
pub fn index_of_in(s: &Vec<char>, c: char, lo: usize, hi: usize) -> (r: Option<usize>)
    requires
        lo <= hi <= s.len(),
    ensures
        match r {
            Some(i) => lo <= i < hi && s@[i as int] == c && index_of(
                s@.subrange(lo as int, hi as int),
                c,
            ) == Some(i - lo),
            None => index_of(s@.subrange(lo as int, hi as int), c) is None,
        },
{
    let ghost sub = s@.subrange(lo as int, hi as int);
    let mut i = lo;
    while i < hi
        invariant
            lo <= i <= hi <= s.len(),
            sub == s@.subrange(lo as int, hi as int),
            forall|m: int| 0 <= m < i - lo ==> sub[m] != c,
        decreases hi - i,
    {
        if s[i] == c {
            proof {
                lemma_index_of_first(sub, c, i - lo);
            }
            return Some(i);
        }
        i = i + 1;
    }
    proof {
        lemma_index_of_first(sub, c, sub.len() as int);
    }
    None
}

/// Length of the run of ASCII digits at the start of `s`.
pub open spec fn digit_prefix_len(s: Seq<char>) -> nat
    decreases s.len(),
{
    if s.len() > 0 && is_ascii_digit(s[0]) {
        1 + digit_prefix_len(s.drop_first())
    } else {
        0
    }
}

/// The digit prefix is made of digits and ends at a non-digit or the end.
pub proof fn lemma_digit_prefix_len(s: Seq<char>)
    ensures
        digit_prefix_len(s) <= s.len(),
        all_digits(s.take(digit_prefix_len(s) as int)),
        digit_prefix_len(s) < s.len() ==> !is_ascii_digit(s[digit_prefix_len(s) as int]),
    decreases s.len(),
{
    if s.len() > 0 && is_ascii_digit(s[0]) {
        lemma_digit_prefix_len(s.drop_first());
        let n = digit_prefix_len(s) as int;
        assert forall|i: int| 0 <= i < n implies is_ascii_digit(#[trigger] s.take(n)[i]) by {
            if i > 0 {
                assert(s.take(n)[i] == s.drop_first().take(n - 1)[i - 1]);
            }
        }
    }
}

/// A digit run followed by a non-digit (or nothing) is what
/// `digit_prefix_len` measures.
pub proof fn lemma_digit_prefix_len_exact(s: Seq<char>, n: int)
    requires
        0 <= n <= s.len(),
        all_digits(s.take(n)),
        n < s.len() ==> !is_ascii_digit(s[n]),
    ensures
        digit_prefix_len(s) == n,
    decreases n,
{
    if n > 0 {
        assert(is_ascii_digit(s.take(n)[0]));
        assert forall|i: int| 0 <= i < n - 1 implies is_ascii_digit(#[trigger] s.drop_first().take(n - 1)[i]) by {
            assert(s.drop_first().take(n - 1)[i] == s.take(n)[i + 1]);
        }
        lemma_digit_prefix_len_exact(s.drop_first(), n - 1);
    }
}

/// End of the run of ASCII digits in `s` that starts at `lo`.
pub fn digit_run_end(s: &Vec<char>, lo: usize) -> (hi: usize)
    requires
        lo <= s.len(),
    ensures
        hi == lo + digit_prefix_len(s@.skip(lo as int)),
{
    let ghost t = s@.skip(lo as int);
    let mut i = lo;
    while i < s.len() && '0' <= s[i] && s[i] <= '9'
        invariant
            lo <= i <= s.len(),
            t == s@.skip(lo as int),
            all_digits(t.take(i - lo)),
        decreases s.len() - i,
    {
        proof {
            assert forall|m: int| 0 <= m < i - lo + 1 implies is_ascii_digit(#[trigger] t.take(i - lo + 1)[m]) by {
                if m < i - lo {
                    assert(t.take(i - lo + 1)[m] == t.take(i - lo)[m]);
                }
            }
        }
        i = i + 1;
    }
    proof {
        lemma_digit_prefix_len_exact(t, i - lo);
    }
    i
}

// ---------------------------------------------------------------------------
// Whitespace, trimming, lines, splitting
// ---------------------------------------------------------------------------

/// `char::is_whitespace`: the Unicode `White_Space` property.
pub open spec fn is_ws(c: char) -> bool {
    ||| ('\u{9}' <= c && c <= '\u{d}')
    ||| c == ' '
    ||| c == '\u{85}'
    ||| c == '\u{a0}'
    ||| c == '\u{1680}'
    ||| ('\u{2000}' <= c && c <= '\u{200a}')
    ||| c == '\u{2028}'
    ||| c == '\u{2029}'
    ||| c == '\u{202f}'
    ||| c == '\u{205f}'
    ||| c == '\u{3000}'
}

/// `char::is_whitespace`.
pub fn is_ws_exec(c: char) -> (b: bool)
    ensures
        b == is_ws(c),
{
    ('\u{9}' <= c && c <= '\u{d}') || c == ' ' || c == '\u{85}' || c == '\u{a0}' || c
        == '\u{1680}' || ('\u{2000}' <= c && c <= '\u{200a}') || c == '\u{2028}' || c
        == '\u{2029}' || c == '\u{202f}' || c == '\u{205f}' || c == '\u{3000}'
}

/// Number of whitespace characters at the start of `s`.
pub open spec fn lead_ws(s: Seq<char>) -> nat
    decreases s.len(),
{
    if s.len() > 0 && is_ws(s[0]) {
        1 + lead_ws(s.drop_first())
    } else {
        0
    }
}

/// Number of whitespace characters at the end of `s`.
pub open spec fn trail_ws(s: Seq<char>) -> nat
    decreases s.len(),
{
    if s.len() > 0 && is_ws(s.last()) {
        1 + trail_ws(s.drop_last())
    } else {
        0
    }
}

/// `str::trim`.
pub open spec fn trim(s: Seq<char>) -> Seq<char> {
    let t = s.skip(lead_ws(s) as int);
    t.take(t.len() - trail_ws(t))
}

/// Leading whitespace counts `i` whitespace characters at the start, then
/// goes on in the rest.
pub proof fn lemma_lead_ws(s: Seq<char>, i: int)
    requires
        0 <= i <= s.len(),
        forall|m: int| 0 <= m < i ==> is_ws(#[trigger] s[m]),
    ensures
        lead_ws(s) == i + lead_ws(s.skip(i)),
        lead_ws(s) <= s.len(),
    decreases i,
{
    if i > 0 {
        assert(is_ws(s[0]));
        assert forall|m: int| 0 <= m < i - 1 implies is_ws(#[trigger] s.drop_first()[m]) by {
            assert(s.drop_first()[m] == s[m + 1]);
        }
        lemma_lead_ws(s.drop_first(), i - 1);
        assert(s.drop_first().skip(i - 1) == s.skip(i));
    } else {
        assert(s.skip(0) == s);
        lemma_lead_ws_le(s);
    }
}

/// The leading whitespace lies within the text.
pub proof fn lemma_lead_ws_le(s: Seq<char>)
    ensures
        lead_ws(s) <= s.len(),
    decreases s.len(),
{
    if s.len() > 0 && is_ws(s[0]) {
        lemma_lead_ws_le(s.drop_first());
    }
}

/// Trailing whitespace counts `i` whitespace characters at the end, then
/// goes on in the rest.
pub proof fn lemma_trail_ws(s: Seq<char>, i: int)
    requires
        0 <= i <= s.len(),
        forall|m: int| s.len() - i <= m < s.len() ==> is_ws(#[trigger] s[m]),
    ensures
        trail_ws(s) == i + trail_ws(s.take(s.len() - i)),
        trail_ws(s) <= s.len(),
    decreases i,
{
    if i > 0 {
        assert(is_ws(s.last()));
        assert forall|m: int| s.drop_last().len() - (i - 1) <= m < s.drop_last().len() implies is_ws(#[trigger] s.drop_last()[m]) by {
            assert(s.drop_last()[m] == s[m]);
        }
        lemma_trail_ws(s.drop_last(), i - 1);
        assert(s.drop_last().take(s.drop_last().len() - (i - 1)) == s.take(s.len() - i));
    } else {
        assert(s.take(s.len() as int) == s);
        lemma_trail_ws_le(s);
    }
}

/// The trailing whitespace lies within the text.
pub proof fn lemma_trail_ws_le(s: Seq<char>)
    ensures
        trail_ws(s) <= s.len(),
    decreases s.len(),
{
    if s.len() > 0 && is_ws(s.last()) {
        lemma_trail_ws_le(s.drop_last());
    }
}

/// The bounds of `s[lo..hi].trim()` within `s`.
pub fn trim_range(s: &Vec<char>, lo: usize, hi: usize) -> (r: (usize, usize))
    requires
        lo <= hi <= s.len(),
    ensures
        lo <= r.0 <= r.1 <= hi,
        s@.subrange(r.0 as int, r.1 as int) == trim(s@.subrange(lo as int, hi as int)),
{
    let ghost sub = s@.subrange(lo as int, hi as int);
    let mut a = lo;
    while a < hi && is_ws_exec(s[a])
        invariant
            lo <= a <= hi <= s.len(),
            sub == s@.subrange(lo as int, hi as int),
            forall|m: int| 0 <= m < a - lo ==> is_ws(#[trigger] sub[m]),
        decreases hi - a,
    {
        a = a + 1;
    }
    proof {
        lemma_lead_ws(sub, a - lo);
        if a < hi {
            assert(sub.skip(a - lo)[0] == s@[a as int]);
        }
        assert(lead_ws(sub.skip(a - lo)) == 0);
    }
    let ghost t = sub.skip(a - lo);
    let mut b = hi;
    while b > a && is_ws_exec(s[b - 1])
        invariant
            lo <= a <= b <= hi <= s.len(),
            t == s@.subrange(a as int, hi as int),
            forall|m: int| t.len() - (hi - b) <= m < t.len() ==> is_ws(#[trigger] t[m]),
        decreases b - a,
    {
        b = b - 1;
    }
    proof {
        assert(t == s@.subrange(a as int, hi as int));
        lemma_trail_ws(t, hi - b);
        let u = t.take(t.len() - (hi - b));
        if b > a {
            assert(u.last() == s@[b - 1]);
        }
        assert(trail_ws(u) == 0);
        assert(u == s@.subrange(a as int, b as int));
    }
    (a, b)
}

/// The first line of `s`, as `s.lines().next().unwrap_or("")` gives it:
/// everything before the first `\n`, without a trailing `\r`.
pub open spec fn first_line(s: Seq<char>) -> Seq<char> {
    let l = match index_of(s, '\n') {
        Some(i) => s.take(i),
        None => s,
    };
    if l.len() > 0 && l.last() == '\r' {
        l.drop_last()
    } else {
        l
    }
}

/// The pieces of `s` between occurrences of `c`, as `str::split` gives them
/// (empty pieces included).
pub open spec fn split_on(s: Seq<char>, c: char) -> Seq<Seq<char>>
    decreases s.len(),
{
    match index_of(s, c) {
        Some(i) => if 0 <= i < s.len() {
            seq![s.take(i)] + split_on(s.skip(i + 1), c)
        } else {
            seq![s]
        },
        None => seq![s],
    }
}

/// Length of the run of non-whitespace characters at the start of `s`.
pub open spec fn word_len(s: Seq<char>) -> nat
    decreases s.len(),
{
    if s.len() > 0 && !is_ws(s[0]) {
        1 + word_len(s.drop_first())
    } else {
        0
    }
}

/// `s.split_whitespace().next()`.
pub open spec fn first_word(s: Seq<char>) -> Option<Seq<char>> {
    let t = s.skip(lead_ws(s) as int);
    if t.len() == 0 {
        None
    } else {
        Some(t.take(word_len(t) as int))
    }
}

/// A run of `i` non-whitespace characters, ended by whitespace or the end
/// of `s`, is the word length.
pub proof fn lemma_word_len(s: Seq<char>, i: int)
    requires
        0 <= i <= s.len(),
        forall|m: int| 0 <= m < i ==> !is_ws(#[trigger] s[m]),
        i < s.len() ==> is_ws(s[i]),
    ensures
        word_len(s) == i,
    decreases i,
{
    if i > 0 {
        assert(!is_ws(s[0]));
        assert forall|m: int| 0 <= m < i - 1 implies !is_ws(#[trigger] s.drop_first()[m]) by {
            assert(s.drop_first()[m] == s[m + 1]);
        }
        lemma_word_len(s.drop_first(), i - 1);
    }
}

/// `s.split_whitespace().next()`, as a range of `s`.
pub fn first_word_range(s: &Vec<char>) -> (r: Option<(usize, usize)>)
    ensures
        match r {
            Some((a, b)) => a <= b <= s.len() && first_word(s@) == Some(
                s@.subrange(a as int, b as int),
            ),
            None => first_word(s@) is None,
        },
{
    let mut a: usize = 0;
    while a < s.len() && is_ws_exec(s[a])
        invariant
            a <= s.len(),
            forall|m: int| 0 <= m < a ==> is_ws(#[trigger] s@[m]),
        decreases s.len() - a,
    {
        a = a + 1;
    }
    proof {
        lemma_lead_ws(s@, a as int);
        if a < s.len() {
            assert(s@.skip(a as int)[0] == s@[a as int]);
        }
        assert(lead_ws(s@.skip(a as int)) == 0);
    }
    if a == s.len() {
        return None;
    }
    let ghost t = s@.skip(a as int);
    let mut b = a;
    while b < s.len() && !is_ws_exec(s[b])
        invariant
            a <= b <= s.len(),
            t == s@.skip(a as int),
            forall|m: int| 0 <= m < b - a ==> !is_ws(#[trigger] t[m]),
        decreases s.len() - b,
    {
        b = b + 1;
    }
    proof {
        lemma_word_len(t, b - a);
        assert(t.take(b - a) == s@.subrange(a as int, b as int));
    }
    Some((a, b))
}

// ---------------------------------------------------------------------------
// Joining
// ---------------------------------------------------------------------------

/// `parts.join(sep)`.
pub open spec fn join(parts: Seq<Seq<char>>, sep: Seq<char>) -> Seq<char>
    decreases parts.len(),
{
    if parts.len() == 0 {
        Seq::empty()
    } else if parts.len() == 1 {
        parts[0]
    } else {
        join(parts.drop_last(), sep) + sep + parts.last()
    }
}

/// The views of a vector of strings.
pub open spec fn views(v: Seq<String>) -> Seq<Seq<char>> {
    v.map_values(|s: String| s@)
}

/// Appends a string to a vector of strings.
pub fn push_string(v: &mut Vec<String>, s: String)
    ensures
        views(final(v)@) == views(old(v)@).push(s@),
{
    let ghost before = v@;
    v.push(s);
    proof {
        assert(views(v@) =~= views(before).push(s@)) by {
            assert forall|k: int| 0 <= k < before.len() implies views(v@)[k] == views(before)[k] by {
                assert(v@[k] == before[k]);
            }
        }
    }
}

/// Does the vector hold a string equal to `s`?
pub fn contains_string(v: &Vec<String>, s: &String) -> (b: bool)
    ensures
        b == views(v@).contains(s@),
{
    let mut i: usize = 0;
    while i < v.len()
        invariant
            i <= v.len(),
            forall|k: int| 0 <= k < i ==> v@[k]@ != s@,
        decreases v.len() - i,
    {
        if v[i] == *s {
            proof {
                assert(views(v@)[i as int] == s@);
            }
            return true;
        }
        i = i + 1;
    }
    proof {
        if views(v@).contains(s@) {
            let k = choose|k: int| 0 <= k < views(v@).len() && views(v@)[k] == s@;
            assert(v@[k]@ == s@);
        }
    }
    false
}

/// `parts.join(sep)` for a vector of strings.
pub fn join_strings(parts: &Vec<String>, sep: &str) -> (r: String)
    ensures
        r@ == join(views(parts@), sep@),
{
    let mut r = String::new();
    let ghost vs = views(parts@);
    let mut i: usize = 0;
    while i < parts.len()
        invariant
            i <= parts.len(),
            vs == views(parts@),
            r@ == join(vs.take(i as int), sep@),
        decreases parts.len() - i,
    {
        proof {
            assert(vs.take(i + 1).drop_last() == vs.take(i as int));
            assert(vs.take(i + 1).last() == parts@[i as int]@);
        }
        if i > 0 {
            r.append(sep);
        } else {
            assert(vs.take(1)[0] == parts@[0]@);
        }
        r.append(parts[i].as_str());
        i = i + 1;
    }
    assert(vs.take(parts.len() as int) == vs);
    r
}

} // verus!
