//! Line-oriented text search: keep the lines of a text that contain a query,
//! with or without regard to letter case.
//!
//! - `config`: what one run searches for, and where the lines come from.
//! - `search`: which lines match a query; `search` works on a whole text,
//!   `LineFilter` on one line at a time.
//! - `text`: substring containment and case folding, on which matching rests.
//! - `encoding`: why a search on the bytes of two strings finds what a search
//!   on their characters would.

pub mod config;
pub mod encoding;
pub mod search;
pub mod text;

pub use config::{Config, ConfigModel, ReadMode, SourceModel};
pub use search::{search, FilterModel, LineFilter};
