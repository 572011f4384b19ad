//! Storage: stream segments and write-ahead-log encoding.

pub mod stream;
pub mod wal;
pub mod replay;
pub mod compaction;
