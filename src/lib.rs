//! An embedded multi-model store: raw key-value pairs, structured records,
//! a directed labelled graph and exact vector search, all kept in one
//! namespaced transactional byte store.

pub mod cache;
pub mod codec;
pub mod database;
pub mod error;
pub mod graph;
pub mod kv;
pub mod memory_backend;
pub mod records;
pub mod storage;
pub mod transaction;
pub mod types;
pub mod vector;

pub use cache::{Cache, LruMemoryCache};
pub use database::{OpenDB, OpenDBOptions, SearchResult};
pub use error::{Error, Result};
pub use graph::{GraphManager, RelationType};
pub use memory_backend::MemoryBackend;
pub use storage::{ColumnFamilies, StorageBackend, WriteOp};
pub use transaction::{Transaction, TransactionManager, TransactionState};
pub use types::{DocumentChunk, Edge, FileType, Memory, MultimodalDocument, ProcessingStatus};
pub use vector::{nearest, HnswParams, VectorManager};
