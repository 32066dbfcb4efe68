//! Inline script metadata of Python source files.

pub mod block;
pub mod script;

pub use script::{parse, InvalidField, Pep723Error, ScriptRequirements};
