//! Dependency-tree report parsing and before/after version diffing.
//!
//! A report is fed line by line to a [`DependencyParser`], which builds a
//! [`Snapshot`]; two snapshots are then diffed per dependency and configuration.

pub mod decode;
pub mod dependency;
pub mod diff;
pub mod parser;
pub mod version;

pub use dependency::{
    DepParseResult, Dependency, DepsError, GradleEntry, GradleList,
    LineParseResult, ParsedDependency, ProcessedDependency, ProcessedDependencyObject, TempList,
    Versions,
};
pub use diff::{create_gradle_lists, diff_snapshots, get_greatest, get_versions};
pub use parser::{parse_snapshot, DependencyParser, ParserState, Snapshot};
pub use version::{Version, VersionOrder};
