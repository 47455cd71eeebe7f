//! Association tables with pairwise-distinct keys.
//!
//! The per-peer sample maps of the protocol are held as vectors of
//! key-value pairs whose keys never repeat; insertion order is kept, so
//! a table read in a loop is deterministic. Tables keyed by identity
//! are generic in their value; the occurrence counts of the threshold
//! checks are keyed by message content.

use crate::peer::Identity;
use vstd::prelude::*;

verus! {

/// The keys of an identity-keyed table are pairwise distinct.
pub open spec fn keys_unique<V>(s: Seq<(Identity, V)>) -> bool {
    forall|i: int, j: int| 0 <= i < j < s.len() ==> s[i].0 != s[j].0
}

/// Some entry binds `id`.
pub open spec fn tbl_contains<V>(s: Seq<(Identity, V)>, id: Identity) -> bool {
    exists|i: int| 0 <= i < s.len() && s[i].0 == id
}

/// The index of the entry binding `id`; meaningful under `tbl_contains`
/// and `keys_unique`.
pub open spec fn tbl_index<V>(s: Seq<(Identity, V)>, id: Identity) -> int {
    choose|i: int| 0 <= i < s.len() && s[i].0 == id
}

/// The value bound to `id`; meaningful under `tbl_contains` and
/// `keys_unique`.
pub open spec fn tbl_get<V>(s: Seq<(Identity, V)>, id: Identity) -> V {
    s[tbl_index(s, id)].1
}

/// The key sequence of a table.
pub open spec fn tbl_keys<V>(s: Seq<(Identity, V)>) -> Seq<Identity> {
    s.map_values(|e: (Identity, V)| e.0)
}

/// Find the entry binding `id`, if one exists.
pub fn tbl_find<V>(entries: &Vec<(Identity, V)>, id: Identity) -> (r: Option<usize>)
    requires
        keys_unique(entries@),
    ensures
        match r {
            Some(i) => {
                &&& i < entries@.len()
                &&& entries@[i as int].0 == id
                &&& tbl_contains(entries@, id)
                &&& tbl_index(entries@, id) == i as int
            },
            None => !tbl_contains(entries@, id),
        },
{
    let n = entries.len();
    for i in 0..n
        invariant
            n == entries@.len(),
            keys_unique(entries@),
            forall|j: int| 0 <= j < i ==> entries@[j].0 != id,
    {
        if entries[i].0 == id {
            proof {
                let w = tbl_index(entries@, id);
                assert(0 <= w < entries@.len() && entries@[w].0 == id);
                assert(w == i as int);
            }
            return Some(i);
        }
    }
    None
}

/// Bind `id` to `value`, replacing an existing binding or appending a
/// fresh entry.
pub fn tbl_put<V>(entries: &mut Vec<(Identity, V)>, id: Identity, value: V)
    requires
        keys_unique(old(entries)@),
    ensures
        keys_unique(final(entries)@),
        tbl_contains(final(entries)@, id),
        tbl_get(final(entries)@, id) == value,
        forall|other: Identity|
            other != id ==> #[trigger] tbl_contains(final(entries)@, other) == tbl_contains(
                old(entries)@,
                other,
            ),
        forall|other: Identity|
            other != id && tbl_contains(old(entries)@, other) ==> #[trigger] tbl_get(
                final(entries)@,
                other,
            ) == tbl_get(old(entries)@, other),
        tbl_contains(old(entries)@, id) ==> final(entries)@.len() == old(entries)@.len(),
        !tbl_contains(old(entries)@, id) ==> final(entries)@.len() == old(entries)@.len() + 1,
        tbl_keys(final(entries)@) == if tbl_contains(old(entries)@, id) {
            tbl_keys(old(entries)@)
        } else {
            tbl_keys(old(entries)@).push(id)
        },
{
    let found = tbl_find(entries, id);
    match found {
        Some(i) => {
            entries.set(i, (id, value));
            proof {
                lemma_tbl_update(old(entries)@, entries@, id, i as int, value);
            }
        },
        None => {
            entries.push((id, value));
            proof {
                lemma_tbl_append(old(entries)@, entries@, id, value);
            }
        },
    }
}

proof fn lemma_tbl_update<V>(
    s0: Seq<(Identity, V)>,
    s1: Seq<(Identity, V)>,
    id: Identity,
    i: int,
    value: V,
)
    requires
        keys_unique(s0),
        0 <= i < s0.len(),
        s0[i].0 == id,
        s1 == s0.update(i, (id, value)),
    ensures
        keys_unique(s1),
        tbl_contains(s1, id),
        tbl_get(s1, id) == value,
        forall|other: Identity|
            other != id ==> #[trigger] tbl_contains(s1, other) == tbl_contains(s0, other),
        forall|other: Identity|
            other != id && tbl_contains(s0, other) ==> #[trigger] tbl_get(s1, other) == tbl_get(
                s0,
                other,
            ),
        tbl_keys(s1) == tbl_keys(s0),
{
    assert(keys_unique(s1));
    assert(s1[i].0 == id);
    assert(tbl_index(s1, id) == i);
    assert forall|other: Identity| other != id implies #[trigger] tbl_contains(s1, other)
        == tbl_contains(s0, other) by {
        if tbl_contains(s0, other) {
            let j = tbl_index(s0, other);
            assert(s1[j].0 == other);
        }
        if tbl_contains(s1, other) {
            let j = choose|j: int| 0 <= j < s1.len() && s1[j].0 == other;
            assert(s0[j].0 == other);
        }
    }
    assert forall|other: Identity|
        other != id && tbl_contains(s0, other) implies #[trigger] tbl_get(s1, other) == tbl_get(
        s0,
        other,
    ) by {
        let j0 = tbl_index(s0, other);
        assert(s1[j0].0 == other);
        let j1 = tbl_index(s1, other);
        assert(0 <= j1 < s1.len() && s1[j1].0 == other);
        if j1 != j0 {
            assert(s0[j1].0 == other);
        }
    }
    assert(tbl_keys(s1) =~= tbl_keys(s0));
}

proof fn lemma_tbl_append<V>(
    s0: Seq<(Identity, V)>,
    s1: Seq<(Identity, V)>,
    id: Identity,
    value: V,
)
    requires
        keys_unique(s0),
        !tbl_contains(s0, id),
        s1 == s0.push((id, value)),
    ensures
        keys_unique(s1),
        tbl_contains(s1, id),
        tbl_get(s1, id) == value,
        forall|other: Identity|
            other != id ==> #[trigger] tbl_contains(s1, other) == tbl_contains(s0, other),
        forall|other: Identity|
            other != id && tbl_contains(s0, other) ==> #[trigger] tbl_get(s1, other) == tbl_get(
                s0,
                other,
            ),
        tbl_keys(s1) == tbl_keys(s0).push(id),
{
    let n = s0.len() as int;
    assert forall|i: int, j: int| 0 <= i < j < s1.len() implies s1[i].0 != s1[j].0 by {
        if j < n {
            assert(s0[i].0 != s0[j].0);
        } else {
            assert(s1[j].0 == id);
            assert(s1[i].0 == s0[i].0);
            assert(!tbl_contains(s0, id));
        }
    }
    assert(s1[n].0 == id);
    assert(tbl_index(s1, id) == n);
    assert forall|other: Identity| other != id implies #[trigger] tbl_contains(s1, other)
        == tbl_contains(s0, other) by {
        if tbl_contains(s0, other) {
            let j = tbl_index(s0, other);
            assert(s1[j].0 == other);
        }
        if tbl_contains(s1, other) {
            let j = choose|j: int| 0 <= j < s1.len() && s1[j].0 == other;
            assert(j < n);
            assert(s0[j].0 == other);
        }
    }
    assert forall|other: Identity|
        other != id && tbl_contains(s0, other) implies #[trigger] tbl_get(s1, other) == tbl_get(
        s0,
        other,
    ) by {
        let j0 = tbl_index(s0, other);
        assert(s1[j0].0 == other);
        let j1 = tbl_index(s1, other);
        if j1 != j0 {
            assert(0 <= j1 < s1.len() && s1[j1].0 == other);
            assert(j1 < n);
            assert(s0[j1].0 == other);
        }
    }
    assert(tbl_keys(s1) =~= tbl_keys(s0).push(id));
}

/// The contents of a content-keyed count table are pairwise distinct.
pub open spec fn counts_unique(s: Seq<(String, usize)>) -> bool {
    forall|i: int, j: int| 0 <= i < j < s.len() ==> s[i].0@ != s[j].0@
}

/// Some entry of a count table carries content `c`.
pub open spec fn counts_contain(s: Seq<(String, usize)>, c: Seq<char>) -> bool {
    exists|i: int| 0 <= i < s.len() && s[i].0@ == c
}

/// The count bound to content `c`; meaningful under `counts_contain`
/// and `counts_unique`.
pub open spec fn counts_get(s: Seq<(String, usize)>, c: Seq<char>) -> usize {
    s[choose|i: int| 0 <= i < s.len() && s[i].0@ == c].1
}

} // verus!
