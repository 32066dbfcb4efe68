//! Where environments live.

pub mod environment;
pub mod key;

pub use environment::{discover, EnvironmentLayout, EnvironmentPaths, Location};
pub use key::EnvironmentKey;
