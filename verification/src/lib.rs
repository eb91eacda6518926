//! A step-driven statement execution core for an embedded database:
//! a statement advances one unit of work per `step` call, suspends for
//! I/O instead of blocking, and keeps exact per-statement and
//! per-connection row-modification counters.

pub mod create_index;
pub mod laws;
pub mod machine;
pub mod program;
pub mod table;
pub mod tracker;
pub mod values;

pub use create_index::CreateIndex;
pub use create_index::Index;
pub use create_index::SortOrder;
pub use machine::Connection;
pub use machine::EngineError;
pub use machine::Statement;
pub use machine::StepResult;
pub use machine::StmtState;
pub use program::Action;
pub use program::Op;
pub use program::Pred;
pub use values::Row;
pub use values::Value;
