//! Verified core of a Nix-native JavaScript package manager and web bundler.

pub mod text;
pub mod externals;
pub mod tree_shaking;
pub mod bundle;
pub mod module_items;
pub mod paths;
pub mod patterns;
pub mod resolution;
pub mod transform;
pub mod declarations;
pub mod cli;
pub mod types;
pub mod versions;
pub mod resolver;
pub mod sorting;
pub mod analysis;
pub mod graph;
pub mod project;
pub mod linker;
pub mod json;
