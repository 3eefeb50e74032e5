//! A directory-walker library built around hierarchical ignore rules.
//!
//! Ignore rules follow the familiar repository-ignore convention: one pattern
//! per line, `!` for whitelisting, `/` for anchoring, trailing `/` for
//! directory-only patterns, and `*`, `?`, `**`, `[...]` wildcards.
//!
//! The crate is organised bottom-up: [`glob`] matches one compiled glob
//! against a path string, [`pattern`] parses a single ignore line into a
//! [`pattern::Pattern`], [`ignore_rules`] accumulates an ordered rule list
//! and arbitrates matches, and [`walker`] traverses an in-memory directory
//! snapshot, pruning ignored subtrees.

pub mod glob;
pub mod ignore_rules;
pub mod laws;
pub mod pattern;
pub mod walker;

pub use glob::glob_match;
pub use pattern::build_pattern_list;
pub use pattern::MatchResult;
pub use pattern::PathKind;
pub use pattern::Pattern;
pub use pattern::PatternEffect;
pub use pattern::PatternRelativity;
pub use pattern::Source;
pub use ignore_rules::pattern_has_wildcard;
pub use ignore_rules::IgnoreRules;
pub use ignore_rules::content_to_patterns;
pub use walker::update_ignore_rules;
pub use walker::walk_tree;
pub use walker::FsEntry;
pub use walker::WalkOptions;
pub use walker::build_ignore_patterns;
pub use walker::directory_list;
pub use walker::walk_file_targets;
