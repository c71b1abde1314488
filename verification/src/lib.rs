//! Resolution of a relative path against one level of a hierarchical route
//! table.
//!
//! A [`RouteList`] is one level of the table. Resolving a path against it
//! yields the matched [`Route`], the named parameters the pattern captured and
//! the part of the path that is left for the level below.

pub mod error;
pub mod matcher;
pub mod output;
pub mod params;
pub mod path;
pub mod pattern;
pub mod resolve;
pub mod route;
pub mod table;

pub use error::Error;
pub use output::{RouteOutput, RouteOutputView};
pub use params::Params;
pub use pattern::{SEPARATOR, SUB_PATH_WILDCARD_NAME};
pub use route::{Route, RouteList, RouteView};
