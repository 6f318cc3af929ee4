//! Worktree fleet management: parsing the version-control tool's worktree
//! registry, classifying which worktrees may be pruned, resolving names to
//! worktrees, and the path rules that keep destructive operations safe.

pub mod create;
pub mod git;
pub mod listing;
pub mod paths;
pub mod prune;
pub mod remove;
pub mod shell;
pub mod switch;
pub mod text;
pub mod walk;
pub mod worktree;
