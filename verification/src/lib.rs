//! Library for turning a directory tree into a single structured document
//! suitable as context for large-language-model prompts.
//!
//! The heart of the crate is a scanner that walks an in-memory snapshot of a
//! filesystem tree, classifies every entry (text, binary, symlink), applies
//! an ignore/include filter policy, measures text content, and aggregates
//! per-file statistics.  All of that logic is specified and verified; the
//! surrounding I/O — enumerating directories, reading files, writing the
//! output document — lives outside the library and hands it plain values.

pub mod classify;
pub mod clipboard;
pub mod config;
pub mod git;
pub mod report;
pub mod scanner;
pub mod snapshot;
pub mod tokenizer;
pub mod types;
pub mod utils;
pub mod writer;

pub use config::Config;
pub use report::FileReportInfo;
pub use report::ReportFormat;
pub use report::Reporter;
pub use report::ScanReport;
pub use scanner::Scanner;
pub use scanner::ScannerStatistics;
pub use types::BinaryNode;
pub use types::DirectoryNode;
pub use types::FileNode;
pub use types::FileType;
pub use types::Metadata;
pub use types::Node;
pub use types::SymlinkNode;
pub use utils::format_file_size;
pub use writer::FsWriterFormatter;
