//! Analysis of multi-module Gradle build trees: extraction of dependency and
//! plugin declarations from build files, resolution of version-catalog
//! aliases, detection of cross-module duplicates and version conflicts, and
//! recommendation of dependency bundles.

pub mod analyzer;
pub mod bundles;
pub mod catalog;
pub mod cli;
pub mod config;
pub mod dep_lines;
pub mod error;
pub mod extract;
pub mod model;
pub mod plugin_lines;
pub mod text;
