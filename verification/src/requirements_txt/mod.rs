//! Reading `requirements.txt` files.

pub mod document;
pub mod lines;

pub use document::{
    LineError, LineErrorKind, RequirementEntry, RequirementsTxt, RequirementsTxtError,
};
