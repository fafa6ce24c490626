//! The overlay view that one open transaction works against.
//!
//! A [`MemoryTransactionView`] pairs a snapshot of the backend's committed
//! contents, taken when the overlay is created, with a log of pending
//! writes. Reads see the pending writes layered over the snapshot
//! (read-your-own-writes); nothing is durable until the log is flushed into
//! the backend through the batch layer. A nested transaction buffers into a
//! child overlay of its own and, on inner commit, merges that child's log
//! into this one, so an inner commit stays provisional until the outermost
//! transaction commits.

use vstd::prelude::*;

use crate::api::BatchOperations;
use crate::api::KeyValueStore;
use crate::api::Transaction;
use crate::kinds::clone_bytes;
use crate::kinds::ColumnId;
use crate::kinds::DatabaseResult;
use crate::kinds::IterDirection;
use crate::kinds::TransactionResult;
use crate::kinds::WriteOperation;
use crate::memory::MemoryStore;
use crate::model::apply_ops;
use crate::model::ops_effect;
use crate::model::op_key;
use crate::model::lemma_apply_ops_get;
use crate::model::lemma_apply_ops_concat;
use crate::model::KvContents;
use crate::order::bytes_eq;

verus! {

/// The cell a write operation touches, decided at run time.
fn op_touches(op: &WriteOperation, key: &[u8], column: u32) -> (r: bool)
    ensures
        r == (op_key(*op) == (column, key@)),
{
    match op {
        WriteOperation::Insert(k, c, _v) => *c == column && bytes_eq(k.as_slice(), key),
        WriteOperation::Remove(k, c) => *c == column && bytes_eq(k.as_slice(), key),
    }
}

/// The overlay view of one open transaction: a base snapshot plus a log of
/// pending writes, applied in order on top of it.
#[derive(Debug)]
pub struct MemoryTransactionView {
    base: MemoryStore,
    ops: Vec<WriteOperation>,
}

impl MemoryTransactionView {
    /// The committed contents this overlay was opened over.
    pub closed spec fn base_kv(&self) -> KvContents {
        self.base.kv()
    }

    /// The buffered writes, oldest first.
    pub closed spec fn pending(&self) -> Seq<WriteOperation> {
        self.ops@
    }

    /// Opens an overlay over a backend snapshot, with nothing buffered.
    pub fn new(base: MemoryStore) -> (r: Self)
        requires
            base.inv(),
        ensures
            r.inv(),
            r.base_kv() == base.kv(),
            r.kv() == base.kv(),
            r.pending() == Seq::<WriteOperation>::empty(),
    {
        let r = MemoryTransactionView { base, ops: Vec::new() };
        r
    }

    /// Surrenders the buffered writes for flushing; the overlay is consumed.
    pub fn into_pending(self) -> (r: Vec<WriteOperation>)
        ensures
            r@ == self.pending(),
    {
        self.ops
    }

    /// Materializes the overlay's observable contents as a store of its own.
    fn materialize(&self) -> (r: MemoryStore)
        requires
            self.inv(),
        ensures
            r.inv(),
            r.kv() == self.kv(),
    {
        let mut s = self.base.snapshot();
        let w = s.batch_write(&self.ops);
        match w {
            Ok(_) => {},
            Err(_) => {
                proof {
                    assert(false);
                }
            },
        }
        s
    }
}

impl KeyValueStore for MemoryTransactionView {
    /// The base snapshot must be well-formed; the log is unconstrained.
    closed spec fn inv(&self) -> bool {
        self.base.inv()
    }

    /// Observable contents: the pending writes applied over the snapshot.
    closed spec fn kv(&self) -> KvContents {
        apply_ops(self.base.kv(), self.ops@)
    }

    fn get(&self, key: &[u8], column: ColumnId) -> (r: DatabaseResult<Option<Vec<u8>>>)
        ensures
            r is Ok,
    {
        proof {
            lemma_apply_ops_get(self.base.kv(), self.ops@, column, key@);
        }
        let n = self.ops.len();
        proof {
            assert(self.ops@.take(n as int) =~= self.ops@);
        }
        let mut j: usize = n;
        while j > 0
            invariant
                n == self.ops@.len(),
                j <= n,
                ops_effect(self.ops@.take(j as int), column, key@) == ops_effect(
                    self.ops@,
                    column,
                    key@,
                ),
            decreases j,
        {
            j -= 1;
            let op = vstd::slice::slice_index_get(self.ops.as_slice(), j);
            proof {
                assert(self.ops@.take(j + 1).last() == self.ops@[j as int]);
                assert(self.ops@.take(j + 1).drop_last() =~= self.ops@.take(j as int));
            }
            if op_touches(op, key, column) {
                match op {
                    WriteOperation::Insert(_k, _c, v) => {
                        proof {
                            assert(ops_effect(self.ops@, column, key@) == Some(Some(v@)));
                            lemma_apply_ops_get(self.base.kv(), self.ops@, column, key@);
                        }
                        return Ok(Some(clone_bytes(v)));
                    },
                    WriteOperation::Remove(_k, _c) => {
                        proof {
                            assert(ops_effect(self.ops@, column, key@) == Some(
                                None::<Seq<u8>>,
                            ));
                            lemma_apply_ops_get(self.base.kv(), self.ops@, column, key@);
                        }
                        return Ok(None);
                    },
                }
            }
        }
        proof {
            assert(self.ops@.take(0) =~= Seq::<WriteOperation>::empty());
            assert(ops_effect(self.ops@, column, key@) is None);
        }
        self.base.get(key, column)
    }

    fn put(&mut self, key: &[u8], column: ColumnId, value: Vec<u8>) -> (r: DatabaseResult<
        Option<Vec<u8>>,
    >)
        ensures
            r is Ok,
            final(self).base_kv() == old(self).base_kv(),
    {
        let prev = self.get(key, column);
        let op = WriteOperation::Insert(vstd::slice::slice_to_vec(key), column, value);
        self.ops.push(op);
        proof {
            assert(self.ops@.drop_last() =~= old(self).ops@);
        }
        prev
    }

    fn delete(&mut self, key: &[u8], column: ColumnId) -> (r: DatabaseResult<Option<Vec<u8>>>)
        ensures
            r is Ok,
            final(self).base_kv() == old(self).base_kv(),
    {
        let prev = self.get(key, column);
        let op = WriteOperation::Remove(vstd::slice::slice_to_vec(key), column);
        self.ops.push(op);
        proof {
            assert(self.ops@.drop_last() =~= old(self).ops@);
        }
        prev
    }

    fn exists_key(&self, key: &[u8], column: ColumnId) -> (r: DatabaseResult<bool>)
        ensures
            r is Ok,
    {
        match self.get(key, column) {
            Ok(v) => Ok(v.is_some()),
            Err(e) => Err(e),
        }
    }

    fn iter_all(
        &self,
        column: ColumnId,
        prefix: Option<Vec<u8>>,
        start: Option<Vec<u8>>,
        direction: IterDirection,
    ) -> (r: DatabaseResult<Vec<(Vec<u8>, Vec<u8>)>>)
        ensures
            r is Ok,
    {
        let m = self.materialize();
        m.iter_all(column, prefix, start, direction)
    }
}

impl BatchOperations for MemoryTransactionView {
    /// A batch on the overlay goes into the buffer: the entries are applied
    /// one at a time through `put` and `delete`, neither of which can fail,
    /// so the whole batch always takes effect.
    fn batch_write(&mut self, entries: &Vec<WriteOperation>) -> (r: DatabaseResult<()>)
        ensures
            r is Ok,
            final(self).base_kv() == old(self).base_kv(),
    {
        let mut i: usize = 0;
        while i < entries.len()
            invariant
                old(self).inv(),
                self.inv(),
                i <= entries@.len(),
                self.base_kv() == old(self).base_kv(),
                self.kv() == crate::model::apply_ops(
                    old(self).kv(),
                    entries@.take(i as int),
                ),
            decreases entries@.len() - i,
        {
            let ghost pre = self.kv();
            match &entries[i] {
                WriteOperation::Insert(key, column, value) => {
                    let w = self.put(key.as_slice(), *column, clone_bytes(value));
                    match w {
                        Ok(_) => {},
                        Err(_) => {
                            proof {
                                assert(false);
                            }
                        },
                    }
                },
                WriteOperation::Remove(key, column) => {
                    let w = self.delete(key.as_slice(), *column);
                    match w {
                        Ok(_) => {},
                        Err(_) => {
                            proof {
                                assert(false);
                            }
                        },
                    }
                },
            }
            proof {
                assert(self.kv() == crate::model::apply_op(pre, entries@[i as int]));
                assert(entries@.take(i + 1).drop_last() =~= entries@.take(i as int));
                assert(entries@.take(i + 1).last() == entries@[i as int]);
            }
            i += 1;
        }
        proof {
            assert(entries@.take(entries@.len() as int) =~= entries@);
        }
        Ok(())
    }
}

impl Transaction for MemoryStore {
    open spec fn tx_inv(&self) -> bool {
        self.inv()
    }

    open spec fn tx_view(&self) -> KvContents {
        self.kv()
    }

    fn transaction<F, R>(&mut self, f: F) -> (r: TransactionResult<R>) where
        F: FnOnce(MemoryTransactionView) -> (MemoryTransactionView, TransactionResult<R>),
    {
        let view = MemoryTransactionView::new(self.snapshot());
        let ghost v0 = view;
        let (view2, res) = f(view);
        let ghost v1 = view2;
        match res {
            Ok(val) => {
                let ops = view2.into_pending();
                let w = self.batch_write(&ops);
                match w {
                    Ok(_) => {},
                    Err(_) => {
                        proof {
                            assert(false);
                        }
                    },
                }
                let r = Ok(val);
                proof {
                    assert(call_ensures(f, (v0,), (v1, r)));
                }
                r
            },
            Err(e) => {
                let r = Err(e);
                proof {
                    assert(call_ensures(f, (v0,), (v1, r)));
                }
                r
            },
        }
    }
}

impl Transaction for MemoryTransactionView {
    open spec fn tx_inv(&self) -> bool {
        self.inv()
    }

    open spec fn tx_view(&self) -> KvContents {
        self.kv()
    }

    /// A nested transaction: the unit of work runs against a child overlay
    /// of this one; an inner commit merges the child's buffered writes into
    /// this overlay's log, so it stays provisional until the outermost
    /// transaction commits, and an inner abort discards them.
    fn transaction<F, R>(&mut self, f: F) -> (r: TransactionResult<R>) where
        F: FnOnce(MemoryTransactionView) -> (MemoryTransactionView, TransactionResult<R>),

        ensures
            final(self).base_kv() == old(self).base_kv(),
            r matches Err(_) ==> final(self).pending() == old(self).pending(),
    {
        let child = MemoryTransactionView::new(self.materialize());
        let ghost v0 = child;
        let (child2, res) = f(child);
        let ghost v1 = child2;
        match res {
            Ok(val) => {
                let ghost ops0 = self.ops@;
                let mut child_ops = child2.into_pending();
                self.ops.append(&mut child_ops);
                proof {
                    lemma_apply_ops_concat(self.base.kv(), ops0, v1.pending());
                }
                let r = Ok(val);
                proof {
                    assert(call_ensures(f, (v0,), (v1, r)));
                }
                r
            },
            Err(e) => {
                let r = Err(e);
                proof {
                    assert(call_ensures(f, (v0,), (v1, r)));
                }
                r
            },
        }
    }
}

} // verus!
