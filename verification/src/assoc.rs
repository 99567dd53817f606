//! Association lists with unique keys, and the finite map they denote.
//!
//! Both tables of the service are kept as vectors of key/value pairs whose
//! keys never repeat. The lemmas here connect the vector-level operations
//! the executable code performs (push, swap-remove) to the map-level
//! statements the public contracts make.

use vstd::prelude::*;

use crate::types::Identity;

verus! {

/// True when position `i` of the association list `s` holds key `k`.
pub open spec fn key_at<V>(s: Seq<(Identity, V)>, k: Identity, i: int) -> bool {
    0 <= i < s.len() && s[i].0 == k
}

/// True when some entry of `s` has key `k`.
pub open spec fn has_key<V>(s: Seq<(Identity, V)>, k: Identity) -> bool {
    exists|i: int| key_at(s, k, i)
}

/// No two entries of `s` share a key.
pub open spec fn unique_keys<V>(s: Seq<(Identity, V)>) -> bool {
    forall|i: int, j: int| 0 <= i < j < s.len() ==> (#[trigger] s[i]).0 != (#[trigger] s[j]).0
}

/// The finite map an association list denotes; a later entry wins, which
/// with unique keys is simply the entry of that key.
pub open spec fn assoc_map<V>(s: Seq<(Identity, V)>) -> Map<Identity, V>
    decreases s.len(),
{
    if s.len() == 0 {
        Map::empty()
    } else {
        assoc_map(s.drop_last()).insert(s.last().0, s.last().1)
    }
}

/// The denoted map has exactly the list's keys, and under unique keys it
/// holds each entry's own value.
pub proof fn lemma_assoc_map_entries<V>(s: Seq<(Identity, V)>)
    ensures
        forall|k: Identity| #[trigger] assoc_map(s).contains_key(k) <==> has_key(s, k),
        unique_keys(s) ==> forall|i: int|
            0 <= i < s.len() ==> assoc_map(s).contains_key((#[trigger] s[i]).0) && assoc_map(s)[s[i].0]
                == s[i].1,
    decreases s.len(),
{
    if s.len() == 0 {
        assert(forall|k: Identity| !has_key(s, k));
    } else {
        let t = s.drop_last();
        let lk = s.last().0;
        lemma_assoc_map_entries(t);
        assert forall|k: Identity| #[trigger] assoc_map(s).contains_key(k) <==> has_key(s, k) by {
            if assoc_map(s).contains_key(k) {
                if k == lk {
                    assert(key_at(s, k, s.len() - 1));
                } else {
                    assert(assoc_map(t).contains_key(k));
                    let i = choose|i: int| key_at(t, k, i);
                    assert(key_at(s, k, i));
                }
            }
            if has_key(s, k) {
                let i = choose|i: int| key_at(s, k, i);
                if i == s.len() - 1 {
                    assert(assoc_map(s).contains_key(lk));
                } else {
                    assert(key_at(t, k, i));
                    assert(assoc_map(t).contains_key(k));
                }
            }
        }
        if unique_keys(s) {
            assert(unique_keys(t));
            assert forall|i: int| 0 <= i < s.len() implies assoc_map(s).contains_key(
                (#[trigger] s[i]).0,
            ) && assoc_map(s)[s[i].0] == s[i].1 by {
                if i < s.len() - 1 {
                    assert(t[i] == s[i]);
                    assert(s[i].0 != lk);
                }
            }
        }
    }
}

/// Appending an entry updates the denoted map at the entry's key, and a
/// fresh key keeps the keys unique.
pub proof fn lemma_assoc_map_push<V>(s: Seq<(Identity, V)>, p: (Identity, V))
    ensures
        assoc_map(s.push(p)) == assoc_map(s).insert(p.0, p.1),
        unique_keys(s) && !has_key(s, p.0) ==> unique_keys(s.push(p)),
{
    assert(s.push(p).drop_last() =~= s);
    assert(s.push(p).last() == p);
    if unique_keys(s) && !has_key(s, p.0) {
        assert forall|i: int, j: int| 0 <= i < j < s.push(p).len() implies (#[trigger] s.push(
            p,
        )[i]).0 != (#[trigger] s.push(p)[j]).0 by {
            if j == s.len() {
                assert(!key_at(s, p.0, i));
            }
        }
    }
}

/// Removing the entry at `i` by swapping the last entry into its place and
/// dropping the tail removes exactly that entry's key from the denoted map.
pub proof fn lemma_assoc_map_swap_remove<V>(s: Seq<(Identity, V)>, i: int)
    requires
        unique_keys(s),
        0 <= i < s.len(),
    ensures
        unique_keys(s.update(i, s.last()).drop_last()),
        !has_key(s.update(i, s.last()).drop_last(), s[i].0),
        assoc_map(s.update(i, s.last()).drop_last()) == assoc_map(s).remove(s[i].0),
{
    let s2 = s.update(i, s.last()).drop_last();
    let k = s[i].0;
    let origin = |j: int| if j == i { s.len() - 1 } else { j };
    assert forall|j: int| 0 <= j < s2.len() implies #[trigger] s2[j] == s[origin(j)] && origin(j)
        != i && 0 <= origin(j) < s.len() by {
        if j == i {
            assert(i < s.len() - 1);
        }
    }
    assert forall|j1: int, j2: int| 0 <= j1 < j2 < s2.len() implies (#[trigger] s2[j1]).0 != (
    #[trigger] s2[j2]).0 by {
        assert(origin(j1) != origin(j2));
        if origin(j1) < origin(j2) {
            assert(s[origin(j1)].0 != s[origin(j2)].0);
        } else {
            assert(s[origin(j2)].0 != s[origin(j1)].0);
        }
    }
    assert forall|j: int| 0 <= j < s2.len() implies (#[trigger] s2[j]).0 != k by {
        if origin(j) < i {
            assert(s[origin(j)].0 != s[i].0);
        } else {
            assert(s[i].0 != s[origin(j)].0);
        }
    }
    lemma_assoc_map_entries(s);
    lemma_assoc_map_entries(s2);
    assert(unique_keys(s2));
    assert forall|k2: Identity|
        #![trigger assoc_map(s2).contains_key(k2)]
        #![trigger assoc_map(s).remove(k).contains_key(k2)]
        (assoc_map(s2).contains_key(k2) <==> assoc_map(s).remove(k).contains_key(k2)) && (assoc_map(
        s2,
    ).contains_key(k2) ==> assoc_map(s2)[k2] == assoc_map(s).remove(k)[k2]) by {
        if assoc_map(s2).contains_key(k2) {
            let j = choose|j: int| key_at(s2, k2, j);
            assert(s2[j] == s[origin(j)]);
            assert(key_at(s, k2, origin(j)));
            assert(k2 != k);
            assert(assoc_map(s2)[k2] == s2[j].1);
            assert(assoc_map(s)[k2] == s[origin(j)].1);
        }
        if assoc_map(s).remove(k).contains_key(k2) {
            let j0 = choose|j0: int| key_at(s, k2, j0);
            assert(j0 != i);
            if j0 == s.len() - 1 {
                assert(i < s.len() - 1);
                assert(s2[i] == s[origin(i)]);
                assert(key_at(s2, k2, i));
            } else {
                assert(s2[j0] == s[origin(j0)]);
                assert(key_at(s2, k2, j0));
            }
        }
    }
    assert(assoc_map(s2) =~= assoc_map(s).remove(k));
}

} // verus!
