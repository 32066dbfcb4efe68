//! Dependency specifiers as conda match specs.

pub mod requirement;
pub mod version;

pub use requirement::{convert, convert_all, ConvertError};
pub use version::version_spec;
