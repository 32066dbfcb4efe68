//! What a solve asks for, and what it makes of the records it is given.

pub mod channels;
pub mod error;
pub mod plan;

pub use channels::Channel;
pub use error::{ChannelQueryError, Error};
