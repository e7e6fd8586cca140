//! Dependency auditing for Rust crates: health scoring, dependency-tree
//! analysis, vulnerability-report parsing, outdated and unused dependency
//! detection, and report rendering.
pub mod audit;
pub mod health;
pub mod outdated;
pub mod report;
pub mod text;
pub mod tree;
pub mod unused;
