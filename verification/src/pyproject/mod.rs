//! Reading `pyproject.toml` files.

pub mod project;
pub mod resolution;
pub mod sections;

pub use crate::fields::InvalidField;
pub use project::{ProjectRequirements, Pyproject, PyprojectError};
pub use resolution::{
    resolve, DependencyGroupSpecifier, Item, ResolveError, ResolvedDependencies, Section,
};
