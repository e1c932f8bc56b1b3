//! Templates for `.gitignore` files, by name.
//!
//! A catalog of templates is fetched once and kept in a cache file. The user
//! may define aliases, each a name for several templates of the catalog, and
//! register files of their own as templates. From these the library lists the
//! names that match a search, and puts together the text for the names that
//! are asked for.
//!
//! The library reads no file and opens no connection. Its caller does, and
//! hands over what it has found: whether the cache is there, what the cache
//! file holds, the contents of the user's own files, and how each step of a
//! refresh has gone. What the library answers is stated and proved for every
//! such finding.

pub mod config;
pub mod error;
pub mod ignore;
pub mod listing;
pub mod name_map;
pub mod refresh;
pub mod render;
pub mod request;
pub mod text;

pub use config::Config;
pub use error::{Error, ReadError};
pub use ignore::{CacheFile, Core, Template};
pub use name_map::NameMap;
pub use refresh::{Refresh, Update};
pub use request::Answer;
