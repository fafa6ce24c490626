//! The mathematical model of the storage layer.
//!
//! The contents of a backend are a finite map from (column, key) to value
//! bytes. A pending write log is a sequence of [`WriteOperation`]s, applied
//! in order; [`apply_ops`] says what a log does to contents, and
//! [`scan_result`] characterizes exactly what an iteration yields.

use vstd::prelude::*;

use crate::kinds::IterDirection;
use crate::kinds::WriteOperation;
use crate::order::lex_lt;

verus! {

/// The observable contents of a store: (column, key bytes) to value bytes.
pub type KvContents = Map<(u32, Seq<u8>), Seq<u8>>;

/// Lookup in contents, as the capability interface reports it.
pub open spec fn map_get(m: KvContents, c: u32, k: Seq<u8>) -> Option<Seq<u8>> {
    if m.contains_key((c, k)) {
        Some(m[(c, k)])
    } else {
        None
    }
}

/// The (column, key) cell a write operation touches.
pub open spec fn op_key(op: WriteOperation) -> (u32, Seq<u8>) {
    match op {
        WriteOperation::Insert(k, c, _v) => (c, k@),
        WriteOperation::Remove(k, c) => (c, k@),
    }
}

/// Contents after one write operation.
pub open spec fn apply_op(m: KvContents, op: WriteOperation) -> KvContents {
    match op {
        WriteOperation::Insert(k, c, v) => m.insert((c, k@), v@),
        WriteOperation::Remove(k, c) => m.remove((c, k@)),
    }
}

/// Contents after a write log, applied first to last.
pub open spec fn apply_ops(m: KvContents, ops: Seq<WriteOperation>) -> KvContents
    decreases ops.len(),
{
    if ops.len() == 0 {
        m
    } else {
        apply_op(apply_ops(m, ops.drop_last()), ops.last())
    }
}

/// What the latest write in a log says about one cell: `None` when the log
/// never touches it, `Some(Some(v))` when the last touch inserts `v`, and
/// `Some(None)` when the last touch removes the key.
pub open spec fn ops_effect(ops: Seq<WriteOperation>, c: u32, k: Seq<u8>) -> Option<
    Option<Seq<u8>>,
>
    decreases ops.len(),
{
    if ops.len() == 0 {
        None
    } else if op_key(ops.last()) == (c, k) {
        match ops.last() {
            WriteOperation::Insert(_k, _c, v) => Some(Some(v@)),
            WriteOperation::Remove(_k, _c) => Some(None),
        }
    } else {
        ops_effect(ops.drop_last(), c, k)
    }
}

/// Reading through a write log: the latest write to a cell wins; a cell the
/// log never touches reads from the base contents.
pub proof fn lemma_apply_ops_get(m: KvContents, ops: Seq<WriteOperation>, c: u32, k: Seq<u8>)
    ensures
        map_get(apply_ops(m, ops), c, k) == (match ops_effect(ops, c, k) {
            Some(e) => e,
            None => map_get(m, c, k),
        }),
    decreases ops.len(),
{
    if ops.len() > 0 {
        lemma_apply_ops_get(m, ops.drop_last(), c, k);
    }
}

/// Applying a concatenated log equals applying its halves in turn.
pub proof fn lemma_apply_ops_concat(
    m: KvContents,
    a: Seq<WriteOperation>,
    b: Seq<WriteOperation>,
)
    ensures
        apply_ops(m, a + b) == apply_ops(apply_ops(m, a), b),
    decreases b.len(),
{
    if b.len() == 0 {
        assert(a + b =~= a);
    } else {
        lemma_apply_ops_concat(m, a, b.drop_last());
        assert((a + b).drop_last() =~= a + b.drop_last());
        assert((a + b).last() == b.last());
    }
}

/// The view of an optional byte buffer.
pub open spec fn opt_bytes(o: Option<Vec<u8>>) -> Option<Seq<u8>> {
    match o {
        Some(v) => Some(v@),
        None => None,
    }
}

/// The views of a yielded (key, value) list.
pub open spec fn entry_views(s: Seq<(Vec<u8>, Vec<u8>)>) -> Seq<(Seq<u8>, Seq<u8>)> {
    Seq::new(s.len(), |i: int| (s[i].0@, s[i].1@))
}

/// Whether a key falls inside a scan's restriction: it must carry the prefix
/// when one is given, and lie at or after `start` in iteration order when a
/// start key is given (at or before it when iterating in reverse).
pub open spec fn in_scan_range(
    k: Seq<u8>,
    prefix: Option<Seq<u8>>,
    start: Option<Seq<u8>>,
    direction: IterDirection,
) -> bool {
    &&& (prefix matches Some(p) ==> p.is_prefix_of(k))
    &&& (start matches Some(s) ==> match direction {
        IterDirection::Forward => !lex_lt(k, s),
        IterDirection::Reverse => !lex_lt(s, k),
    })
}

/// Exact characterization of a scan's yield `s` against contents `kv`:
/// every yielded pair is a stored entry of the column inside the restriction,
/// every stored key of the column inside the restriction is yielded, and the
/// keys come in strictly ascending order (descending for a reverse scan).
pub open spec fn scan_result(
    kv: KvContents,
    column: u32,
    prefix: Option<Seq<u8>>,
    start: Option<Seq<u8>>,
    direction: IterDirection,
    s: Seq<(Seq<u8>, Seq<u8>)>,
) -> bool {
    &&& (forall|i: int|
        0 <= i < s.len() ==> {
            &&& kv.contains_key((column, (#[trigger] s[i]).0))
            &&& kv[(column, s[i].0)] == s[i].1
            &&& in_scan_range(s[i].0, prefix, start, direction)
        })
    &&& (forall|k: Seq<u8>|
        #[trigger] kv.contains_key((column, k)) && in_scan_range(k, prefix, start, direction)
            ==> exists|i: int| 0 <= i < s.len() && (#[trigger] s[i]).0 == k)
    &&& (forall|i: int, j: int|
        #![trigger s[i], s[j]]
        0 <= i < j < s.len() ==> match direction {
            IterDirection::Forward => lex_lt(s[i].0, s[j].0),
            IterDirection::Reverse => lex_lt(s[j].0, s[i].0),
        })
}

} // verus!
