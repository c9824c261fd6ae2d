//! First-match lookup over sequences of keyed records, shared by the keyed
//! stores: the index of the first record with a given key, and its
//! characterization.

use vstd::prelude::*;

verus! {

/// A record with a lookup key.
pub trait Keyed<K> {
    /// The key this record is found under.
    spec fn key(self) -> K;
}

/// The index of the first record in `s` whose key is `k`, or -1 if none.
pub open spec fn spec_key_index<K, T: Keyed<K>>(s: Seq<T>, k: K) -> int
    decreases s.len(),
{
    if s.len() == 0 {
        -1
    } else if s[0].key() == k {
        0
    } else if spec_key_index(s.drop_first(), k) == -1 {
        -1
    } else {
        spec_key_index(s.drop_first(), k) + 1
    }
}

/// What `spec_key_index` returns: -1 exactly when no record has key `k`;
/// otherwise the least index of a record with key `k`.
pub proof fn lemma_key_index<K, T: Keyed<K>>(s: Seq<T>, k: K)
    ensures
        spec_key_index(s, k) == -1 <==> forall |j: int| 0 <= j < s.len() ==> (#[trigger] s[j]).key()
            != k,
        spec_key_index(s, k) != -1 ==> 0 <= spec_key_index(s, k) < s.len() && s[spec_key_index(
            s,
            k,
        )].key() == k && forall |j: int| 0 <= j < spec_key_index(s, k) ==> (#[trigger] s[j]).key()
            != k,
    decreases s.len(),
{
    if s.len() > 0 {
        let rest = s.drop_first();
        lemma_key_index(rest, k);
        if s[0].key() == k {
        } else if spec_key_index(rest, k) == -1 {
            assert forall |j: int| 0 <= j < s.len() implies (#[trigger] s[j]).key() != k by {
                if j > 0 {
                    assert(rest[j - 1] == s[j]);
                }
            }
        } else {
            let m = spec_key_index(s, k);
            assert(s[m] == rest[m - 1]);
            assert forall |j: int| 0 <= j < m implies (#[trigger] s[j]).key() != k by {
                if j > 0 {
                    assert(rest[j - 1] == s[j]);
                }
            }
        }
    }
}

/// If `s[m]` has key `k` and no earlier record does, the first match is `m`.
pub proof fn lemma_key_index_at<K, T: Keyed<K>>(s: Seq<T>, k: K, m: int)
    requires
        0 <= m < s.len(),
        s[m].key() == k,
        forall |j: int| 0 <= j < m ==> (#[trigger] s[j]).key() != k,
    ensures
        spec_key_index(s, k) == m,
{
    lemma_key_index(s, k);
}

/// If no record has key `k`, there is no first match.
pub proof fn lemma_key_index_none<K, T: Keyed<K>>(s: Seq<T>, k: K)
    requires
        forall |j: int| 0 <= j < s.len() ==> (#[trigger] s[j]).key() != k,
    ensures
        spec_key_index(s, k) == -1,
{
    lemma_key_index(s, k);
}

/// The records of `s` carry pairwise distinct keys.
pub open spec fn spec_distinct_keys<K, T: Keyed<K>>(s: Seq<T>) -> bool {
    forall |p: int, q: int|
        0 <= p < q < s.len() ==> (#[trigger] s[p]).key() != (#[trigger] s[q]).key()
}

/// The record stored under key `k`, if any: the first with that key.
pub open spec fn spec_keyed_find<K, T: Keyed<K>>(s: Seq<T>, k: K) -> Option<T> {
    let m = spec_key_index(s, k);
    if m == -1 {
        None
    } else {
        Some(s[m])
    }
}

/// The records after storing `x`: replaces the first record with `x`'s key,
/// or appends `x` if there is none.
pub open spec fn spec_keyed_upsert<K, T: Keyed<K>>(s: Seq<T>, x: T) -> Seq<T> {
    let m = spec_key_index(s, x.key());
    if m == -1 {
        s.push(x)
    } else {
        s.update(m, x)
    }
}

/// The records after removing key `k`: every record with another key, in
/// order.
pub open spec fn spec_keyed_remove<K, T: Keyed<K>>(s: Seq<T>, k: K) -> Seq<T>
    decreases s.len(),
{
    if s.len() == 0 {
        Seq::empty()
    } else {
        let rest = spec_keyed_remove(s.drop_last(), k);
        if s.last().key() == k {
            rest
        } else {
            rest.push(s.last())
        }
    }
}

/// Storing `x` changes the lookup of `x`'s key to `x` and no other key's
/// lookup at all; records with pairwise distinct keys stay pairwise
/// distinct.
pub proof fn lemma_keyed_upsert<K, T: Keyed<K>>(s: Seq<T>, x: T, k: K)
    ensures
        k == x.key() ==> spec_keyed_find(spec_keyed_upsert(s, x), k) == Some(x),
        k != x.key() ==> spec_keyed_find(spec_keyed_upsert(s, x), k) == spec_keyed_find(s, k),
        (forall |p: int, q: int|
            0 <= p < q < s.len() ==> (#[trigger] s[p]).key() != (#[trigger] s[q]).key())
            ==> forall |p: int, q: int|
            0 <= p < q < spec_keyed_upsert(s, x).len() ==> (#[trigger] spec_keyed_upsert(s, x)[p]).key()
                != (#[trigger] spec_keyed_upsert(s, x)[q]).key(),
{
    let up = spec_keyed_upsert(s, x);
    lemma_key_index(s, x.key());
    let mc = spec_key_index(s, x.key());
    if k == x.key() {
        if mc == -1 {
            assert(up[s.len() as int] == x);
            assert forall |j: int| 0 <= j < s.len() as int implies (#[trigger] up[j]).key()
                != k by {
                assert(up[j] == s[j]);
            }
            lemma_key_index_at(up, k, s.len() as int);
        } else {
            assert(up[mc] == x);
            assert forall |j: int| 0 <= j < mc implies (#[trigger] up[j]).key() != k by {
                assert(up[j] == s[j]);
            }
            lemma_key_index_at(up, k, mc);
        }
    } else {
        lemma_key_index(s, k);
        let mk = spec_key_index(s, k);
        if mk == -1 {
            assert forall |j: int| 0 <= j < up.len() as int implies (#[trigger] up[j]).key()
                != k by {
                if mc == -1 {
                    if j < s.len() {
                        assert(up[j] == s[j]);
                    } else {
                        assert(up[j] == x);
                    }
                } else {
                    if j != mc {
                        assert(up[j] == s[j]);
                    } else {
                        assert(up[j] == x);
                    }
                }
            }
            lemma_key_index_none(up, k);
        } else {
            assert(s[mk].key() == k);
            assert(mk != mc);
            assert(up[mk] == s[mk]);
            assert forall |j: int| 0 <= j < mk implies (#[trigger] up[j]).key() != k by {
                if mc != -1 && j == mc {
                    assert(up[j] == x);
                } else {
                    assert(up[j] == s[j]);
                }
            }
            lemma_key_index_at(up, k, mk);
        }
    }
    if (forall |p: int, q: int|
        0 <= p < q < s.len() ==> (#[trigger] s[p]).key() != (#[trigger] s[q]).key()) {
        assert forall |p: int, q: int|
            0 <= p < q < up.len() implies (#[trigger] up[p]).key() != (#[trigger] up[q]).key() by {
            if mc == -1 {
                if q < s.len() {
                    assert(up[p] == s[p] && up[q] == s[q]);
                } else {
                    assert(up[p] == s[p] && up[q] == x);
                    lemma_key_index(s, x.key());
                }
            } else {
                if p != mc && q != mc {
                    assert(up[p] == s[p] && up[q] == s[q]);
                } else if p == mc {
                    assert(up[q] == s[q] && s[mc].key() == x.key());
                } else {
                    assert(up[p] == s[p] && s[mc].key() == x.key());
                }
            }
        }
    }
}

/// Removing key `k` leaves no record under it and every other key's lookup
/// unchanged.
pub proof fn lemma_keyed_remove<K, T: Keyed<K>>(s: Seq<T>, k: K)
    ensures
        forall |j: int| 0 <= j < spec_keyed_remove(s, k).len()
            ==> (#[trigger] spec_keyed_remove(s, k)[j]).key() != k,
        (forall |p: int, q: int|
            0 <= p < q < s.len() ==> (#[trigger] s[p]).key() != (#[trigger] s[q]).key())
            ==> forall |x: K| x != k ==> spec_keyed_find(spec_keyed_remove(s, k), x)
            == spec_keyed_find(s, x),
        spec_key_index(s, k) == -1 ==> spec_keyed_remove(s, k) == s,
        spec_keyed_remove(s, k).len() == s.len() || spec_keyed_remove(s, k).len() < s.len(),
        (forall |p: int, q: int|
            0 <= p < q < s.len() ==> (#[trigger] s[p]).key() != (#[trigger] s[q]).key())
            ==> forall |p: int, q: int|
            0 <= p < q < spec_keyed_remove(s, k).len()
                ==> (#[trigger] spec_keyed_remove(s, k)[p]).key()
                != (#[trigger] spec_keyed_remove(s, k)[q]).key(),
    decreases s.len(),
{
    lemma_key_index(s, k);
    if s.len() > 0 {
        let prefix = s.drop_last();
        let rest = spec_keyed_remove(prefix, k);
        let rem = spec_keyed_remove(s, k);
        lemma_keyed_remove(prefix, k);
        lemma_key_index(prefix, k);
        assert(forall |j: int| 0 <= j < prefix.len() ==> prefix[j] == s[j]);
        assert forall |j: int| 0 <= j < rem.len() implies (#[trigger] rem[j]).key() != k by {
            if s.last().key() != k && j == rem.len() - 1 {
            } else {
                assert(rem[j] == rest[j]);
            }
        }
        if spec_key_index(s, k) == -1 {
            assert(s.last().key() != k);
            assert(rem =~= s);
        }
        if (forall |p: int, q: int|
            0 <= p < q < s.len() ==> (#[trigger] s[p]).key() != (#[trigger] s[q]).key()) {
            assert forall |p: int, q: int|
                0 <= p < q < rem.len() implies (#[trigger] rem[p]).key()
                != (#[trigger] rem[q]).key() by {
                lemma_keyed_remove_member(s, k, p);
                lemma_keyed_remove_member(s, k, q);
                lemma_keyed_remove_origin_mono(s, k, p, q);
                let ip = spec_keyed_remove_origin(s, k, p);
                let iq = spec_keyed_remove_origin(s, k, q);
                assert(s[ip].key() != s[iq].key());
            }
            assert forall |x: K| x != k implies spec_keyed_find(rem, x) == spec_keyed_find(
                s,
                x,
            ) by {
                lemma_keyed_find_remove(s, k, x);
            }
        }
    }
}

/// The index in `s` a retained element of `spec_keyed_remove(s, k)` came
/// from.
pub open spec fn spec_keyed_remove_origin<K, T: Keyed<K>>(s: Seq<T>, k: K, j: int) -> int
    decreases s.len(),
{
    if s.len() == 0 {
        -1
    } else {
        let rest = spec_keyed_remove(s.drop_last(), k);
        if s.last().key() == k {
            spec_keyed_remove_origin(s.drop_last(), k, j)
        } else if j == rest.len() {
            s.len() - 1
        } else {
            spec_keyed_remove_origin(s.drop_last(), k, j)
        }
    }
}

/// Origin indices grow with position: removal keeps the source order.
pub proof fn lemma_keyed_remove_origin_mono<K, T: Keyed<K>>(s: Seq<T>, k: K, j1: int, j2: int)
    requires
        0 <= j1 < j2 < spec_keyed_remove(s, k).len(),
    ensures
        spec_keyed_remove_origin(s, k, j1) < spec_keyed_remove_origin(s, k, j2),
    decreases s.len(),
{
    if s.len() > 0 {
        let prefix = s.drop_last();
        let rest = spec_keyed_remove(prefix, k);
        if s.last().key() == k {
            lemma_keyed_remove_origin_mono(prefix, k, j1, j2);
        } else if j2 == rest.len() {
            lemma_keyed_remove_member(prefix, k, j1);
        } else {
            lemma_keyed_remove_origin_mono(prefix, k, j1, j2);
        }
    }
}

/// Each retained element equals the source element at its origin index.
pub proof fn lemma_keyed_remove_member<K, T: Keyed<K>>(s: Seq<T>, k: K, j: int)
    requires
        0 <= j < spec_keyed_remove(s, k).len(),
    ensures
        ({
            let i = spec_keyed_remove_origin(s, k, j);
            0 <= i < s.len() && s[i] == spec_keyed_remove(s, k)[j]
        }),
    decreases s.len(),
{
    if s.len() > 0 {
        let prefix = s.drop_last();
        let rest = spec_keyed_remove(prefix, k);
        if s.last().key() == k {
            lemma_keyed_remove_member(prefix, k, j);
        } else if j == rest.len() {
        } else {
            lemma_keyed_remove_member(prefix, k, j);
        }
    }
}

/// With pairwise distinct keys, removing `k` leaves every other key's
/// lookup unchanged.
pub proof fn lemma_keyed_find_remove<K, T: Keyed<K>>(s: Seq<T>, k: K, x: K)
    requires
        x != k,
        forall |p: int, q: int|
            0 <= p < q < s.len() ==> (#[trigger] s[p]).key() != (#[trigger] s[q]).key(),
    ensures
        spec_keyed_find(spec_keyed_remove(s, k), x) == spec_keyed_find(s, x),
    decreases s.len(),
{
    lemma_key_index(s, k);
    lemma_key_index(s, x);
    let rem = spec_keyed_remove(s, k);
    lemma_key_index(rem, x);
    if s.len() > 0 {
        let prefix = s.drop_last();
        let rest = spec_keyed_remove(prefix, k);
        assert(forall |j: int| 0 <= j < prefix.len() ==> prefix[j] == s[j]);
        lemma_keyed_find_remove(prefix, k, x);
        lemma_key_index(prefix, x);
        lemma_key_index(rest, x);
        let mx = spec_key_index(s, x);
        if mx == -1 {
            assert forall |j: int| 0 <= j < rem.len() implies (#[trigger] rem[j]).key() != x by {
                lemma_keyed_remove_member(s, k, j);
                let i = spec_keyed_remove_origin(s, k, j);
                assert(s[i].key() != x);
            }
            lemma_key_index_none(rem, x);
        } else {
            if s.last().key() == k {
                assert(rem == rest);
                assert(mx < s.len() - 1) by {
                    assert(s[mx].key() == x && x != k);
                }
                assert(prefix[mx] == s[mx]);
                assert(spec_key_index(prefix, x) != -1) by {
                    if spec_key_index(prefix, x) == -1 {
                        assert(prefix[mx].key() != x);
                    }
                }
                assert(spec_keyed_find(prefix, x) == spec_keyed_find(s, x)) by {
                    let mp = spec_key_index(prefix, x);
                    assert(prefix[mp].key() == x);
                    assert(s[mp].key() == x);
                    if mp != mx {
                        assert(s[mp].key() == s[mx].key());
                        assert(false);
                    }
                }
            } else {
                assert(rem == rest.push(s.last()));
                if s.last().key() == x {
                    assert(mx == s.len() - 1) by {
                        if mx != s.len() - 1 {
                            assert(s[mx].key() == s[s.len() - 1].key());
                        }
                    }
                    assert forall |j: int| 0 <= j < rest.len() implies (#[trigger] rem[j]).key()
                        != x by {
                        assert(rem[j] == rest[j]);
                        lemma_keyed_remove_member(prefix, k, j);
                        let i = spec_keyed_remove_origin(prefix, k, j);
                        assert(prefix[i] == rest[j]);
                        assert(s[i].key() == rest[j].key());
                        if rest[j].key() == x {
                            assert(s[i].key() == s[mx].key());
                        }
                    }
                    assert(rem[rem.len() - 1] == s.last());
                    lemma_key_index_at(rem, x, rem.len() - 1);
                } else {
                    assert(mx < s.len() - 1) by {
                        assert(s[mx].key() == x);
                    }
                    assert(prefix[mx] == s[mx]);
                    assert(spec_key_index(prefix, x) == mx) by {
                        lemma_key_index_at(prefix, x, mx);
                    }
                    let mr = spec_key_index(rest, x);
                    assert(mr != -1 && rest[mr] == prefix[mx]) by {
                        assert(spec_keyed_find(rest, x) == spec_keyed_find(prefix, x));
                    }
                    assert(rem[mr] == rest[mr]);
                    assert(spec_key_index(rem, x) == mr) by {
                        assert forall |j: int| 0 <= j < mr implies (#[trigger] rem[j]).key()
                            != x by {
                            assert(rem[j] == rest[j]);
                        }
                        lemma_key_index_at(rem, x, mr);
                    }
                    assert(spec_keyed_find(rem, x) == spec_keyed_find(s, x)) by {
                        assert(spec_keyed_find(rem, x) == Some(rem[mr]));
                        assert(spec_keyed_find(s, x) == Some(s[mx]));
                    }
                }
            }
        }
    } else {
        assert(rem =~= s);
    }
}

} // verus!
