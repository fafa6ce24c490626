//! The laws the storage layer obeys, stated over its model and proved once
//! for all backends: every backend's methods are contracted against the same
//! contents map, so a fact about the map operations is a fact about any
//! sequence of calls on any backend.

use vstd::prelude::*;

use crate::kinds::IterDirection;
use crate::model::in_scan_range;
use crate::model::map_get;
use crate::model::scan_result;
use crate::model::KvContents;

verus! {

/// After `put(k, c, v)`, `get(k, c)` returns `v`: `put` leaves the contents
/// with `v` under the cell, and `get` reads exactly that cell.
pub proof fn lemma_put_then_get(m: KvContents, k: Seq<u8>, c: u32, v: Seq<u8>)
    ensures
        map_get(m.insert((c, k), v), c, k) == Some(v),
{
}

/// A put touches no other cell: a get of any other (column, key) reads what
/// it read before.
pub proof fn lemma_put_preserves_others(
    m: KvContents,
    k: Seq<u8>,
    c: u32,
    v: Seq<u8>,
    k2: Seq<u8>,
    c2: u32,
)
    requires
        (c2, k2) != (c, k),
    ensures
        map_get(m.insert((c, k), v), c2, k2) == map_get(m, c2, k2),
{
}

/// After `delete(k, c)`, `get(k, c)` returns absent, and deleting twice is
/// idempotent: the second delete leaves the same observable contents.
pub proof fn lemma_delete_then_get(m: KvContents, k: Seq<u8>, c: u32)
    ensures
        map_get(m.remove((c, k)), c, k) is None,
        m.remove((c, k)).remove((c, k)) == m.remove((c, k)),
{
    assert(m.remove((c, k)).remove((c, k)) =~= m.remove((c, k)));
}

/// `exists(k, c)` equals `get(k, c)` being present: both are contracted
/// against the same cell of the same contents map, for every backend.
pub proof fn lemma_exists_matches_get(m: KvContents, k: Seq<u8>, c: u32)
    ensures
        m.contains_key((c, k)) <==> map_get(m, c, k) is Some,
{
}

/// A prefix scan yields only keys that start with the prefix, in strictly
/// ascending key order forward and strictly descending in reverse.
pub proof fn lemma_scan_prefixed_and_ordered(
    kv: KvContents,
    column: u32,
    p: Seq<u8>,
    direction: IterDirection,
    s: Seq<(Seq<u8>, Seq<u8>)>,
)
    requires
        scan_result(kv, column, Some(p), None, direction, s),
    ensures
        forall|i: int| 0 <= i < s.len() ==> p.is_prefix_of((#[trigger] s[i]).0),
        forall|i: int, j: int|
            #![trigger s[i], s[j]]
            0 <= i < j < s.len() ==> (direction == IterDirection::Forward ==> crate::order::lex_lt(
                s[i].0,
                s[j].0,
            )) && (direction == IterDirection::Reverse ==> crate::order::lex_lt(s[j].0, s[i].0)),
{
}

/// A prefix scan with prefix `bytes(k1)` returns exactly the stored
/// composite keys whose first part is `k1`: every yielded key decomposes as
/// `k1` followed by a remainder, every stored key of the form `k1 + k2` is
/// yielded with its stored value, and nothing else is.
pub proof fn lemma_prefix_scan_exact(
    kv: KvContents,
    column: u32,
    k1: Seq<u8>,
    direction: IterDirection,
    s: Seq<(Seq<u8>, Seq<u8>)>,
)
    requires
        scan_result(kv, column, Some(k1), None, direction, s),
    ensures
        forall|i: int|
            0 <= i < s.len() ==> (#[trigger] s[i]).0 == k1 + s[i].0.skip(k1.len() as int)
                && kv.contains_key((column, s[i].0)) && kv[(column, s[i].0)] == s[i].1,
        forall|k2: Seq<u8>|
            kv.contains_key((column, #[trigger] (k1 + k2))) ==> exists|i: int|
                0 <= i < s.len() && (#[trigger] s[i]).0 == k1 + k2,
{
    assert forall|i: int| 0 <= i < s.len() implies (#[trigger] s[i]).0 == k1 + s[i].0.skip(
        k1.len() as int,
    ) && kv.contains_key((column, s[i].0)) && kv[(column, s[i].0)] == s[i].1 by {
        let k = s[i].0;
        assert(k1.is_prefix_of(k));
        assert(k =~= k1 + k.skip(k1.len() as int)) by {
            assert(forall|m: int|
                0 <= m < k1.len() ==> k1[m] == #[trigger] k.subrange(0, k1.len() as int)[m]);
            assert(forall|m: int|
                0 <= m < k.len() - k1.len() ==> #[trigger] k.skip(k1.len() as int)[m] == k[m
                    + k1.len()]);
        }
    }
    assert forall|k2: Seq<u8>|
        kv.contains_key((column, #[trigger] (k1 + k2))) implies exists|i: int|
        0 <= i < s.len() && (#[trigger] s[i]).0 == k1 + k2 by {
        assert(k1.is_prefix_of(k1 + k2)) by {
            assert(k1 =~= (k1 + k2).subrange(0, k1.len() as int));
        }
        assert(in_scan_range(k1 + k2, Some(k1), None, direction));
    }
}

} // verus!
