//! The capability contract of a storage backend.
//!
//! [`KeyValueStore`] is the minimal column-scoped interface: point lookups,
//! mutation, existence checks and directional, prefix-restricted iteration.
//! [`BatchOperations`] adds multi-entry mutation with a baseline body that
//! applies entries one at a time; a backend with a native atomic commit
//! overrides it. [`TransactableStorage`] composes the capability set a
//! backend must satisfy. [`Transaction`] is the transaction mechanism:
//! it runs a unit of work against a fresh overlay and commits or aborts its
//! buffered writes as a unit.

use vstd::prelude::*;

use crate::kinds::clone_bytes;
use crate::kinds::ColumnId;
use crate::kinds::DatabaseResult;
use crate::kinds::IterDirection;
use crate::kinds::TransactionResult;
use crate::kinds::WriteOperation;
use crate::model::apply_op;
use crate::model::apply_ops;
use crate::model::entry_views;
use crate::model::map_get;
use crate::model::opt_bytes;
use crate::model::scan_result;
use crate::model::KvContents;
use crate::overlay::MemoryTransactionView;

verus! {

/// The storage capability interface: what every backend offers, column by
/// column. Its observable state is the contents map [`KeyValueStore::kv`];
/// each method says over that map exactly what it returns and changes.
///
/// A backend surfaces an I/O or internal fault as `Err`; the contracts bind
/// the `Ok` outcomes, and a failing call must leave the contents unchanged.
pub trait KeyValueStore: Sized {
    /// Structural well-formedness that the methods need and keep.
    spec fn inv(&self) -> bool;

    /// The contents this store holds, as a map from (column, key) to value.
    spec fn kv(&self) -> KvContents;

    /// Returns the value stored under the key in the column, or `None` when
    /// the key is absent there.
    fn get(&self, key: &[u8], column: ColumnId) -> (r: DatabaseResult<Option<Vec<u8>>>)
        requires
            self.inv(),
        ensures
            r matches Ok(v) ==> opt_bytes(v) == map_get(self.kv(), column, key@),
    ;

    /// Upsert: stores the value under the key in the column, silently
    /// overwriting, and returns the prior value if one existed.
    fn put(&mut self, key: &[u8], column: ColumnId, value: Vec<u8>) -> (r: DatabaseResult<
        Option<Vec<u8>>,
    >)
        requires
            old(self).inv(),
        ensures
            final(self).inv(),
            r matches Ok(prev) ==> {
                &&& opt_bytes(prev) == map_get(old(self).kv(), column, key@)
                &&& final(self).kv() == old(self).kv().insert((column, key@), value@)
            },
            r matches Err(_) ==> final(self).kv() == old(self).kv(),
    ;

    /// Removes the entry and returns the removed value, or `None` when the
    /// key was absent: deleting an absent key is a no-op that still succeeds.
    fn delete(&mut self, key: &[u8], column: ColumnId) -> (r: DatabaseResult<Option<Vec<u8>>>)
        requires
            old(self).inv(),
        ensures
            final(self).inv(),
            r matches Ok(prev) ==> {
                &&& opt_bytes(prev) == map_get(old(self).kv(), column, key@)
                &&& final(self).kv() == old(self).kv().remove((column, key@))
            },
            r matches Err(_) ==> final(self).kv() == old(self).kv(),
    ;

    /// Reports whether the key is present in the column: equivalent to
    /// `get` returning a value, while letting a backend answer without
    /// reading the value itself.
    fn exists_key(&self, key: &[u8], column: ColumnId) -> (r: DatabaseResult<bool>)
        requires
            self.inv(),
        ensures
            r matches Ok(b) ==> b == self.kv().contains_key((column, key@)),
    ;

    /// Yields the (key, value) entries of the column that carry the prefix
    /// (when one is given) and lie at or after `start` in iteration order
    /// (when a start key is given), ordered per `direction`.
    ///
    /// The scan is materialized: a fault anywhere in it surfaces as `Err`
    /// for the whole scan.
    fn iter_all(
        &self,
        column: ColumnId,
        prefix: Option<Vec<u8>>,
        start: Option<Vec<u8>>,
        direction: IterDirection,
    ) -> (r: DatabaseResult<Vec<(Vec<u8>, Vec<u8>)>>)
        requires
            self.inv(),
        ensures
            r matches Ok(entries) ==> scan_result(
                self.kv(),
                column,
                opt_bytes(prefix),
                opt_bytes(start),
                direction,
                entry_views(entries@),
            ),
    ;
}

/// Multi-entry mutation on top of the capability interface.
///
/// The baseline body applies entries one at a time through `put` and
/// `delete` and stops at the first failure, propagating it; entries after a
/// failure are not applied, and cross-entry atomicity is not promised. A
/// backend with a native atomic multi-entry commit overrides the method
/// with all-or-nothing semantics.
pub trait BatchOperations: KeyValueStore {
    /// Applies the entries in order. On `Ok`, every entry took effect; an
    /// empty batch always succeeds. On `Err`, exactly a leading prefix of
    /// the entries took effect and the first failure is reported.
    fn batch_write(&mut self, entries: &Vec<WriteOperation>) -> (r: DatabaseResult<()>)
        requires
            old(self).inv(),
        ensures
            final(self).inv(),
            r matches Ok(_) ==> final(self).kv() == apply_ops(old(self).kv(), entries@),
            entries@.len() == 0 ==> r matches Ok(_),
            r matches Err(_) ==> exists|n: int|
                0 <= n <= entries@.len() && final(self).kv() == apply_ops(
                    old(self).kv(),
                    #[trigger] entries@.take(n),
                ),
    {
        let mut i: usize = 0;
        while i < entries.len()
            invariant
                old(self).inv(),
                self.inv(),
                i <= entries@.len(),
                self.kv() == apply_ops(old(self).kv(), entries@.take(i as int)),
            decreases entries@.len() - i,
        {
            let ghost pre = self.kv();
            match &entries[i] {
                WriteOperation::Insert(key, column, value) => {
                    let w = self.put(key.as_slice(), *column, clone_bytes(value));
                    match w {
                        Ok(_) => {},
                        Err(e) => {
                            proof {
                                assert(self.kv() == apply_ops(
                                    old(self).kv(),
                                    entries@.take(i as int),
                                ));
                            }
                            return Err(e);
                        },
                    }
                },
                WriteOperation::Remove(key, column) => {
                    let w = self.delete(key.as_slice(), *column);
                    match w {
                        Ok(_) => {},
                        Err(e) => {
                            proof {
                                assert(self.kv() == apply_ops(
                                    old(self).kv(),
                                    entries@.take(i as int),
                                ));
                            }
                            return Err(e);
                        },
                    }
                },
            }
            proof {
                assert(self.kv() == apply_op(pre, entries@[i as int]));
                assert(entries@.take(i + 1).drop_last() =~= entries@.take(i as int));
                assert(entries@.take(i + 1).last() == entries@[i as int]);
            }
            i += 1;
        }
        proof {
            assert(entries@.take(entries@.len() as int) =~= entries@);
        }
        Ok(())
    }
}

/// What a component must satisfy to serve as a storage engine behind a
/// shared backend handle: the capability interface, the batch layer, and
/// safe concurrent access from multiple threads.
pub trait TransactableStorage: BatchOperations + Send + Sync {

}

/// The transaction mechanism.
///
/// `transaction` invokes the unit of work exactly once with a fresh overlay
/// view holding the current observable contents and no pending writes. The
/// unit of work returns the overlay together with success or failure; on
/// success the overlay's buffered writes are flushed into this store as a
/// unit and the transaction is committed, on failure they are all discarded
/// and the transaction is aborted. Both in-memory stores commit without I/O,
/// so a flush cannot fail and the result of the unit of work is returned
/// verbatim.
pub trait Transaction {
    /// Well-formedness of the state the transaction runs against.
    spec fn tx_inv(&self) -> bool;

    /// The observable contents a transaction reads and commits into.
    spec fn tx_view(&self) -> KvContents;

    /// Runs the unit of work `f` against a fresh overlay and commits its
    /// buffered writes on success, or discards them on failure.
    fn transaction<F, R>(&mut self, f: F) -> (r: TransactionResult<R>) where
        F: FnOnce(MemoryTransactionView) -> (MemoryTransactionView, TransactionResult<R>),

        requires
            old(self).tx_inv(),
            forall|v: MemoryTransactionView|
                (v.inv() && v.kv() == old(self).tx_view() && v.pending() == Seq::<
                    WriteOperation,
                >::empty()) ==> #[trigger] call_requires(f, (v,)),
        ensures
            final(self).tx_inv(),
            exists|v0: MemoryTransactionView, v1: MemoryTransactionView|
                {
                    &&& v0.inv()
                    &&& v0.kv() == old(self).tx_view()
                    &&& v0.base_kv() == old(self).tx_view()
                    &&& v0.pending() == Seq::<WriteOperation>::empty()
                    &&& #[trigger] call_ensures(f, (v0,), (v1, r))
                    &&& (r matches Ok(_) ==> final(self).tx_view() == apply_ops(
                        old(self).tx_view(),
                        v1.pending(),
                    ))
                    &&& (r matches Ok(_) && v1.base_kv() == old(self).tx_view()
                        ==> final(self).tx_view() == v1.kv())
                    &&& (r matches Err(_) ==> final(self).tx_view() == old(self).tx_view())
                },
    ;
}

} // verus!
