//! The table from PyPI names to conda names, and the rules for keeping a
//! cached copy of it current.

pub mod envelope;
pub mod error;
pub mod fetch;
pub mod http;
pub mod load;
pub mod refresh;

pub use error::{FetchError, InvalidMappedName, MappingError};
pub use http::HttpError;
pub use load::{LoadOptions, MappingHandle};
pub use refresh::RefreshOutcome;
