//! Sequences of (key, value) pairs used as maps: at most one pair per key,
//! with lookup, insertion that replaces, removal and filtering.

use vstd::prelude::*;

verus! {

/// No key occurs twice.
pub open spec fn unique_keys<K, V>(s: Seq<(K, V)>) -> bool {
    forall|i: int, j: int| 0 <= i < s.len() && 0 <= j < s.len() && i != j ==> (#[trigger] s[i]).0 != (#[trigger] s[j]).0
}

pub open spec fn has_key<K, V>(s: Seq<(K, V)>, k: K) -> bool {
    exists|i: int| 0 <= i < s.len() && (#[trigger] s[i]).0 == k
}

/// The position of key `k`, if it occurs.
pub open spec fn key_index<K, V>(s: Seq<(K, V)>, k: K) -> Option<int> {
    if has_key(s, k) {
        Some(choose|i: int| 0 <= i < s.len() && (#[trigger] s[i]).0 == k)
    } else {
        None
    }
}

/// The value stored under `k`, if any.
pub open spec fn lookup<K, V>(s: Seq<(K, V)>, k: K) -> Option<V> {
    match key_index(s, k) {
        Some(i) => Some(s[i].1),
        None => None,
    }
}

/// Stores `v` under `k`: in place of the pair with that key, or at the end.
pub open spec fn put<K, V>(s: Seq<(K, V)>, k: K, v: V) -> Seq<(K, V)> {
    match key_index(s, k) {
        Some(i) => s.update(i, (k, v)),
        None => s.push((k, v)),
    }
}

/// Drops the pair with key `k`, if there is one.
pub open spec fn remove_key<K, V>(s: Seq<(K, V)>, k: K) -> Seq<(K, V)> {
    match key_index(s, k) {
        Some(i) => s.remove(i),
        None => s,
    }
}

pub proof fn lemma_key_index<K, V>(s: Seq<(K, V)>, k: K)
    requires
        unique_keys(s),
    ensures
        match key_index(s, k) {
            Some(i) => 0 <= i < s.len() && s[i].0 == k && forall|j: int|
                0 <= j < s.len() && #[trigger] s[j].0 == k ==> j == i,
            None => forall|j: int| 0 <= j < s.len() ==> (#[trigger] s[j]).0 != k,
        },
{
}

/// A pair found at a position is what a lookup of its key gives.
pub proof fn lemma_lookup_at<K, V>(s: Seq<(K, V)>, i: int)
    requires
        unique_keys(s),
        0 <= i < s.len(),
    ensures
        key_index(s, s[i].0) == Some(i),
        lookup(s, s[i].0) == Some(s[i].1),
{
    assert(has_key(s, s[i].0));
    lemma_key_index(s, s[i].0);
}

/// Storing keeps keys unique, and a lookup then sees the stored value under
/// its key and the old values under the others.
pub proof fn lemma_put<K, V>(s: Seq<(K, V)>, k: K, v: V)
    requires
        unique_keys(s),
    ensures
        unique_keys(put(s, k, v)),
        lookup(put(s, k, v), k) == Some(v),
        forall|k2: K| k2 != k ==> #[trigger] lookup(put(s, k, v), k2) == lookup(s, k2),
        put(s, k, v).len() == s.len() + if has_key(s, k) { 0int } else { 1int },
{
    lemma_key_index(s, k);
    let t = put(s, k, v);
    assert(unique_keys(t)) by {
        assert forall|i: int, j: int| 0 <= i < t.len() && 0 <= j < t.len() && i != j implies (#[trigger] t[i]).0 != (#[trigger] t[j]).0 by {
            if i < s.len() && j < s.len() {
                if key_index(s, k) is None {
                    assert(t[i] == s[i] && t[j] == s[j]);
                }
            }
        }
    }
    let n = t.len() as int;
    let pos = match key_index(s, k) { Some(i) => i, None => n - 1 };
    assert(t[pos] == (k, v));
    lemma_lookup_at(t, pos);
    assert forall|k2: K| k2 != k implies #[trigger] lookup(t, k2) == lookup(s, k2) by {
        lemma_key_index(s, k2);
        lemma_key_index(t, k2);
        match key_index(s, k2) {
            Some(i) => {
                assert(t[i] == s[i]);
                lemma_lookup_at(t, i);
            },
            None => {
                if has_key(t, k2) {
                    let j = choose|j: int| 0 <= j < t.len() && (#[trigger] t[j]).0 == k2;
                    if j < s.len() {
                        assert(t[j] == s[j]);
                    }
                }
            },
        }
    }
}

/// Removing keeps keys unique; the key is then gone and the others keep
/// their values.
pub proof fn lemma_remove_key<K, V>(s: Seq<(K, V)>, k: K)
    requires
        unique_keys(s),
    ensures
        unique_keys(remove_key(s, k)),
        lookup(remove_key(s, k), k) is None,
        forall|k2: K| k2 != k ==> #[trigger] lookup(remove_key(s, k), k2) == lookup(s, k2),
{
    lemma_key_index(s, k);
    let t = remove_key(s, k);
    match key_index(s, k) {
        Some(p) => {
            assert forall|i: int| 0 <= i < t.len() implies #[trigger] t[i] == s[if i < p { i } else { i + 1 }] by {}
            assert(unique_keys(t)) by {
                assert forall|i: int, j: int| 0 <= i < t.len() && 0 <= j < t.len() && i != j implies (#[trigger] t[i]).0 != (#[trigger] t[j]).0 by {
                    assert(t[i] == s[if i < p { i } else { i + 1 }]);
                    assert(t[j] == s[if j < p { j } else { j + 1 }]);
                }
            }
            assert(!has_key(t, k)) by {
                assert forall|i: int| 0 <= i < t.len() implies (#[trigger] t[i]).0 != k by {
                    assert(t[i] == s[if i < p { i } else { i + 1 }]);
                }
            }
            assert forall|k2: K| k2 != k implies #[trigger] lookup(t, k2) == lookup(s, k2) by {
                lemma_key_index(s, k2);
                match key_index(s, k2) {
                    Some(i) => {
                        let j = if i < p { i } else { i - 1 };
                        assert(t[j] == s[i]);
                        lemma_lookup_at(t, j);
                    },
                    None => {
                        if has_key(t, k2) {
                            let j = choose|j: int| 0 <= j < t.len() && (#[trigger] t[j]).0 == k2;
                            assert(t[j] == s[if j < p { j } else { j + 1 }]);
                        }
                    },
                }
            }
        },
        None => {},
    }
}

/// Filtering keeps keys unique, and keeps only pairs that were there.
pub proof fn lemma_filter_keyed<K, V>(s: Seq<(K, V)>, pred: spec_fn((K, V)) -> bool)
    requires
        unique_keys(s),
    ensures
        unique_keys(s.filter(pred)),
        forall|i: int| 0 <= i < s.filter(pred).len() ==> s.contains(#[trigger] s.filter(pred)[i]),
        forall|i: int| 0 <= i < s.filter(pred).len() ==> pred(#[trigger] s.filter(pred)[i]),
    decreases s.len(),
{
    reveal(Seq::filter);
    s.filter_lemma(pred);
    if s.len() > 0 {
        let t = s.drop_last();
        assert(unique_keys(t)) by {
            assert forall|i: int, j: int| 0 <= i < t.len() && 0 <= j < t.len() && i != j implies (#[trigger] t[i]).0 != (#[trigger] t[j]).0 by {
                assert(t[i] == s[i] && t[j] == s[j]);
            }
        }
        lemma_filter_keyed(t, pred);
        let f = s.filter(pred);
        let ft = t.filter(pred);
        assert forall|i: int| 0 <= i < f.len() implies s.contains(#[trigger] f[i]) by {
            if i < ft.len() {
                assert(f[i] == ft[i]);
                assert(t.contains(ft[i]));
                let j = choose|j: int| 0 <= j < t.len() && t[j] == ft[i];
                assert(s[j] == t[j]);
            } else {
                assert(f[i] == s[s.len() - 1]);
            }
        }
        assert(unique_keys(f)) by {
            assert forall|i: int, j: int| 0 <= i < f.len() && 0 <= j < f.len() && i != j implies (#[trigger] f[i]).0 != (#[trigger] f[j]).0 by {
                if i < ft.len() && j < ft.len() {
                    assert(f[i] == ft[i] && f[j] == ft[j]);
                } else if i < ft.len() {
                    assert(f[i] == ft[i]);
                    assert(t.contains(ft[i]));
                    let a = choose|a: int| 0 <= a < t.len() && t[a] == ft[i];
                    assert(s[a] == t[a]);
                    assert(f[j] == s[s.len() - 1]);
                } else if j < ft.len() {
                    assert(f[j] == ft[j]);
                    assert(t.contains(ft[j]));
                    let a = choose|a: int| 0 <= a < t.len() && t[a] == ft[j];
                    assert(s[a] == t[a]);
                    assert(f[i] == s[s.len() - 1]);
                }
            }
        }
    }
}

/// A lookup after filtering finds a pair only where the filter kept it.
pub proof fn lemma_lookup_filtered<K, V>(s: Seq<(K, V)>, pred: spec_fn((K, V)) -> bool, k: K)
    requires
        unique_keys(s),
    ensures
        lookup(s.filter(pred), k) == match lookup(s, k) {
            Some(v) => if pred((k, v)) {
                Some(v)
            } else {
                None::<V>
            },
            None => None::<V>,
        },
{
    lemma_filter_keyed(s, pred);
    s.filter_lemma(pred);
    let f = s.filter(pred);
    lemma_key_index(s, k);
    lemma_key_index(f, k);
    match key_index(f, k) {
        Some(i) => {
            assert(s.contains(f[i]));
            let j = choose|j: int| 0 <= j < s.len() && s[j] == f[i];
            lemma_lookup_at(s, j);
        },
        None => {
            match key_index(s, k) {
                Some(j) => {
                    if pred(s[j]) {
                        assert(f.contains(s[j]));
                        let i = choose|i: int| 0 <= i < f.len() && f[i] == s[j];
                        assert(f[i].0 == k);
                    }
                },
                None => {},
            }
        },
    }
}

} // verus!
