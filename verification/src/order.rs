//! Stable ordering of items by integer keys, as `sort_by_key` orders them:
//! items with equal keys keep their original order.

use vstd::prelude::*;

verus! {

/// Does key `a` come before key `b`?
pub open spec fn before(a: i128, b: i128, desc: bool) -> bool {
    if desc {
        a > b
    } else {
        a < b
    }
}

/// The index of the first key that comes first, scanning from `i` with the
/// best so far at `b`.
pub open spec fn best_from(keys: Seq<i128>, desc: bool, i: int, b: int) -> int
    decreases keys.len() - i,
{
    if i < 0 || i >= keys.len() {
        b
    } else if before(keys[i], keys[b], desc) {
        best_from(keys, desc, i + 1, i)
    } else {
        best_from(keys, desc, i + 1, b)
    }
}

/// The index of the first key that comes first (the smallest, or the
/// largest when `desc`).
pub open spec fn best_index(keys: Seq<i128>, desc: bool) -> int {
    best_from(keys, desc, 1, 0)
}

/// `best_from` finds the first position whose key no other key comes
/// before.
pub proof fn lemma_best_from(keys: Seq<i128>, desc: bool, i: int, b: int)
    requires
        0 <= b < keys.len(),
        0 < i,
        b < i,
        forall|m: int| 0 <= m < i ==> !before(keys[m], keys[b], desc),
        forall|m: int| 0 <= m < b ==> before(keys[b], keys[m], desc),
    ensures
        0 <= best_from(keys, desc, i, b) < keys.len(),
        forall|m: int| 0 <= m < keys.len() ==> !before(keys[m], keys[best_from(keys, desc, i, b)], desc),
        forall|m: int| 0 <= m < best_from(keys, desc, i, b) ==> before(keys[best_from(keys, desc, i, b)], keys[m], desc),
    decreases keys.len() - i,
{
    if i < keys.len() {
        if before(keys[i], keys[b], desc) {
            lemma_best_from(keys, desc, i + 1, i);
        } else {
            lemma_best_from(keys, desc, i + 1, b);
        }
    }
}

/// The first key that comes first is in range, nothing comes before it, and
/// it comes strictly before every key ahead of it.
pub proof fn lemma_best_index(keys: Seq<i128>, desc: bool)
    requires
        keys.len() > 0,
    ensures
        0 <= best_index(keys, desc) < keys.len(),
        forall|m: int| 0 <= m < keys.len() ==> !before(keys[m], keys[best_index(keys, desc)], desc),
        forall|m: int| 0 <= m < best_index(keys, desc) ==> before(keys[best_index(keys, desc)], keys[m], desc),
{
    lemma_best_from(keys, desc, 1, 0);
}

/// `items` stably ordered by `keys` (ascending, or descending when `desc`):
/// repeatedly the first item whose key comes first.
pub open spec fn stable_sorted<T>(items: Seq<T>, keys: Seq<i128>, desc: bool) -> Seq<T>
    decreases items.len(),
{
    if items.len() == 0 || keys.len() != items.len() {
        Seq::empty()
    } else {
        let b = best_index(keys, desc);
        if 0 <= b < items.len() {
            seq![items[b]] + stable_sorted(items.remove(b), keys.remove(b), desc)
        } else {
            Seq::empty()
        }
    }
}

/// The index of the first key that comes first.
fn best_index_exec(keys: &Vec<i128>, desc: bool) -> (b: usize)
    requires
        keys.len() > 0,
    ensures
        b == best_index(keys@, desc),
{
    let mut b: usize = 0;
    let mut i: usize = 1;
    while i < keys.len()
        invariant
            0 <= b < i <= keys.len(),
            best_index(keys@, desc) == best_from(keys@, desc, i as int, b as int),
        decreases keys.len() - i,
    {
        let better = if desc {
            keys[i] > keys[b]
        } else {
            keys[i] < keys[b]
        };
        if better {
            b = i;
        }
        i = i + 1;
    }
    b
}

/// Orders `items` stably by `keys` (ascending, or descending when `desc`).
pub fn stable_sort_by_keys<T>(items: Vec<T>, keys: Vec<i128>, desc: bool) -> (r: Vec<T>)
    requires
        items.len() == keys.len(),
    ensures
        r@ == stable_sorted(items@, keys@, desc),
{
    let ghost target = stable_sorted(items@, keys@, desc);
    let mut rest = items;
    let mut rest_keys = keys;
    let mut out: Vec<T> = Vec::new();
    while rest.len() > 0
        invariant
            rest.len() == rest_keys.len(),
            target == out@ + stable_sorted(rest@, rest_keys@, desc),
        decreases rest.len(),
    {
        let b = best_index_exec(&rest_keys, desc);
        proof {
            lemma_best_index(rest_keys@, desc);
        }
        let ghost r0 = rest@;
        let ghost k0 = rest_keys@;
        let x = rest.remove(b);
        rest_keys.remove(b);
        out.push(x);
        proof {
            assert(stable_sorted(r0, k0, desc) == seq![x] + stable_sorted(rest@, rest_keys@, desc));
            assert(target =~= out@ + stable_sorted(rest@, rest_keys@, desc));
        }
    }
    proof {
        assert(target =~= out@);
    }
    out
}

/// Sorting keeps the number of items.
pub proof fn lemma_sorted_len<T>(items: Seq<T>, keys: Seq<i128>, desc: bool)
    requires
        items.len() == keys.len(),
    ensures
        stable_sorted(items, keys, desc).len() == items.len(),
    decreases items.len(),
{
    if items.len() > 0 {
        lemma_best_index(keys, desc);
        let b = best_index(keys, desc);
        lemma_sorted_len(items.remove(b), keys.remove(b), desc);
    }
}

/// The keys of a stably sorted sequence, in order, are the sorted keys: each
/// item keeps its key.
pub proof fn lemma_sorted_keys<T>(items: Seq<T>, keys: Seq<i128>, desc: bool, key: spec_fn(T) -> i128)
    requires
        items.len() == keys.len(),
        forall|i: int| 0 <= i < items.len() ==> keys[i] == key(#[trigger] items[i]),
    ensures
        stable_sorted(items, keys, desc).len() == items.len(),
        forall|i: int| 0 <= i < items.len() ==> key(#[trigger] stable_sorted(items, keys, desc)[i])
            == stable_sorted(keys, keys, desc)[i],
        forall|i: int, j: int| 0 <= i < j < items.len() ==> !before(
            key(stable_sorted(items, keys, desc)[j]),
            key(stable_sorted(items, keys, desc)[i]),
            desc,
        ),
        stable_sorted(items, keys, desc).to_multiset() == items.to_multiset(),
    decreases items.len(),
{
    broadcast use vstd::seq_lib::group_to_multiset_ensures, vstd::multiset::group_multiset_axioms;
    if items.len() > 0 {
        lemma_best_index(keys, desc);
        let b = best_index(keys, desc);
        let ri = items.remove(b);
        let rk = keys.remove(b);
        assert forall|i: int| 0 <= i < ri.len() implies rk[i] == key(#[trigger] ri[i]) by {
            if i < b {
                assert(ri[i] == items[i] && rk[i] == keys[i]);
            } else {
                assert(ri[i] == items[i + 1] && rk[i] == keys[i + 1]);
            }
        }
        lemma_sorted_keys(ri, rk, desc, key);
        lemma_sorted_len(rk, rk, desc);
        let s = stable_sorted(items, keys, desc);
        let ks = stable_sorted(keys, keys, desc);
        assert(s == seq![items[b]] + stable_sorted(ri, rk, desc));
        assert(ks == seq![keys[b]] + stable_sorted(rk, rk, desc));
        assert forall|i: int| 0 <= i < items.len() implies key(#[trigger] s[i]) == ks[i] by {
            if i > 0 {
                assert(s[i] == stable_sorted(ri, rk, desc)[i - 1]);
                assert(ks[i] == stable_sorted(rk, rk, desc)[i - 1]);
            }
        }
        // Every remaining key is not before the chosen one.
        assert forall|m: int| 0 <= m < rk.len() implies !before(rk[m], keys[b], desc) by {
            if m < b {
                assert(rk[m] == keys[m]);
            } else {
                assert(rk[m] == keys[m + 1]);
            }
        }
        assert forall|i: int, j: int| 0 <= i < j < items.len() implies !before(key(s[j]), key(s[i]), desc) by {
            let t = stable_sorted(ri, rk, desc);
            if i == 0 {
                assert(s[j] == t[j - 1]);
                assert(t.to_multiset().count(t[j - 1]) > 0);
                assert(ri.to_multiset().count(t[j - 1]) > 0);
                assert(ri.contains(t[j - 1]));
                let m = choose|m: int| 0 <= m < ri.len() && ri[m] == t[j - 1];
                assert(key(ri[m]) == rk[m]);
            } else {
                assert(s[i] == t[i - 1]);
                assert(s[j] == t[j - 1]);
            }
        }
        let x = items[b];
        let t = stable_sorted(ri, rk, desc);
        assert(ri.to_multiset() =~= items.to_multiset().remove(x));
        assert(items.to_multiset().count(x) > 0) by {
            assert(items.contains(x));
        }
        vstd::seq_lib::lemma_multiset_commutative(seq![x], t);
        assert(seq![x].to_multiset() =~= Seq::<T>::empty().push(x).to_multiset()) by {
            assert(seq![x] =~= Seq::<T>::empty().push(x));
        }
        assert(Seq::<T>::empty().push(x).to_multiset() =~= Seq::<T>::empty().to_multiset().insert(x));
        assert(s.to_multiset() =~= items.to_multiset());
    }
}

} // verus!
