//! Verified core of a Python environment manager.

pub mod conda;
pub mod conda_map;
pub mod convert;
pub mod data;
pub mod dependency;
pub mod fields;
pub mod marker;
pub mod matchspec_convert;
pub mod meaning;
pub mod names;
pub mod paths;
pub mod pep440;
pub mod pep508;
pub mod pep723;
pub mod platform;
pub mod progress;
pub mod pyproject;
pub mod requirements;
pub mod requirements_txt;
pub mod solver;
pub mod sort;
pub mod specifier;
pub mod table;
pub mod text;
pub mod toml;
pub mod tool_ana;
