//! The plain data kinds of the storage layer: column identifiers, write
//! operations, iteration direction, and the error and result types.

use vstd::prelude::*;

verus! {

/// Opaque unsigned namespace identifier. Identical byte keys in different
/// columns never collide; the meaning of a column is assigned above this
/// layer.
pub type ColumnId = u32;

/// A storage failure: an I/O or backend-internal fault. Absence of a key is
/// not an error and is reported as `None` instead.
///
/// The in-memory backend of this crate never produces it; the variant exists
/// so that every backend reports faults through the same channel.
#[derive(Clone, Copy, Debug, PartialEq, Eq, Structural)]
pub enum DatabaseError {
    Backend,
}

/// Result of a storage operation.
pub type DatabaseResult<T> = Result<T, DatabaseError>;

/// The atomic unit submitted to a batch: insert a value under a key in a
/// column, or remove whatever a key holds there.
#[derive(Clone, Debug)]
pub enum WriteOperation {
    Insert(Vec<u8>, ColumnId, Vec<u8>),
    Remove(Vec<u8>, ColumnId),
}

/// Direction of an iteration within a column: ascending or descending
/// lexicographic key order.
#[derive(Copy, Clone, Debug, PartialOrd, PartialEq, Eq, Structural)]
pub enum IterDirection {
    Forward,
    Reverse,
}

impl Default for IterDirection {
    /// The default direction is ascending.
    fn default() -> (r: Self)
        ensures
            r == IterDirection::Forward,
    {
        IterDirection::Forward
    }
}

/// Failure of a transaction: the unit of work returned failure or aborted.
#[derive(Clone, Copy, Debug, PartialEq, Eq, Structural)]
pub enum TransactionError {
    Aborted,
}

/// Result of running a unit of work under a transaction.
pub type TransactionResult<T> = Result<T, TransactionError>;

/// Copies a byte buffer.
pub fn clone_bytes(v: &Vec<u8>) -> (r: Vec<u8>)
    ensures
        r@ == v@,
{
    vstd::slice::slice_to_vec(v.as_slice())
}

} // verus!
