//! A safety-preserving access layer over an embedded key-value storage
//! engine: configuration, an owning database handle with point operations,
//! a bidirectional range cursor whose borrowed views cannot outlive the
//! position they were read at, and translation of engine status codes into a
//! structured error type.

pub mod config;
pub mod cursor;
pub mod db;
pub mod laws;
pub mod model;
pub mod order;
pub mod status;

pub use config::DBConfig;
pub use cursor::{IteratorResult, SplinterCursor};
pub use db::{ConcatSdb, DefaultSdb, LookupResult, SdbRustDataFuncs, SplinterDB};
pub use order::{key_cmp, lex_lt, CompareResult};
pub use status::{as_result, EngineStatusError, STATUS_INVALID, STATUS_NOT_FOUND};
