//! Environment markers as conditions on the Python version of one target
//! platform.

pub mod assumption;
pub mod condition;
pub mod source;

pub use assumption::{known_values_assumption, Assumption, UnsupportedPlatform};
pub use condition::{format_version, to_matchspec_condition, Applicability, Unconvertible};
