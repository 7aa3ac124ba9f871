//! Layered environment configuration for CMake projects: a project file
//! declares variables and per-scope environment entries, and the library
//! resolves them into the exact environment handed to build and run tools.
pub mod text;
pub mod name_map;
pub mod value;
pub mod expand;
pub mod env;
pub mod loader;
pub mod package;
pub mod project;
pub mod cpm;

pub use env::{ConfigError, EnvConfig, Platform, Scope, VarTable};
pub use loader::RawEntry;
pub use name_map::NameMap;
pub use package::{IndexError, Package, PackageIndex};
pub use project::{CMakeProject, Target, TargetArtifact};
pub use value::EnvValue;
