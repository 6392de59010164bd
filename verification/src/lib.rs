//! Verified planning core of a tiered file compactor for a columnar
//! time-series store, together with the small pieces of surrounding
//! configuration and validation logic that admit exact contracts.
//!
//! Ingestion produces many small, time-overlapping level-0 files. The
//! planner repeatedly selects a set of files of one partition to merge,
//! chooses split timestamps so that no output grows beyond the configured
//! ceiling, and hands the result to a commit step that atomically swaps
//! input files for output files in the catalog. The key invariants —
//! non-overlap within the upper levels, conservation of covered time,
//! monotone file ids, and convergence of the control loop — are stated as
//! contracts and proved.

pub mod adapter;
pub mod circuit;
pub mod commit;
pub mod config;
pub mod driver;
pub mod files;
pub mod http_error;
pub mod ingester_address;
pub mod laws;
pub mod object_store;
pub mod planner;
pub mod querier;
pub mod retention;
pub mod split;
pub mod strings;
pub mod v1_write;
pub mod view;
pub mod write_buffer;

pub use config::CompactorConfig;
pub use files::CompactionLevel;
pub use files::ParquetFile;
