//! A transactional key-value storage layer.
//!
//! The crate gives uniform access to a storage backend through one
//! capability contract: point lookups, mutation, existence checks and
//! directional, prefix-restricted iteration, all scoped by a column
//! namespace. On top of it sit atomic batch mutation, a transaction
//! mechanism that buffers writes in an isolated overlay and commits or
//! aborts them as a unit, and a composite key encoder for derived keys.

pub mod api;
pub mod kinds;
pub mod laws;
pub mod memory;
pub mod model;
pub mod multikey;
pub mod order;
pub mod overlay;

pub use api::BatchOperations;
pub use api::KeyValueStore;
pub use api::TransactableStorage;
pub use api::Transaction;
pub use kinds::ColumnId;
pub use kinds::DatabaseError;
pub use kinds::DatabaseResult;
pub use kinds::IterDirection;
pub use kinds::TransactionError;
pub use kinds::TransactionResult;
pub use kinds::WriteOperation;
pub use memory::MemoryStore;
pub use multikey::MultiKey;
pub use overlay::MemoryTransactionView;
