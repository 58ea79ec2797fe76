//! A lazy, delimiter-aware token scanner over a text buffer.
//!
//! An [`IStream`] holds the not-yet-consumed text and hands it out one token
//! (or one line) at a time, optionally parsing each token into a typed value
//! through [`FromToken`].
pub mod text;
pub mod token;
pub mod stream;

pub use text::is_whitespace;
pub use token::FromToken;
pub use stream::{IStream, StreamView};
