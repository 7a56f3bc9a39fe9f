//! Attribute resolution for flake builds: which attributes of a flake are
//! built on the current branch, given a list of include/exclude rules.

pub mod config;
pub mod document;
pub mod error;
pub mod git;
pub mod matcher;
pub mod name_set;
pub mod nix;
pub mod text;
