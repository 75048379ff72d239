pub mod app_path;
pub mod controllers;
pub mod declaration;
pub mod decode;
pub mod dispatch;
pub mod identifier;
pub mod matcher;
pub mod matching;
pub mod number;
pub mod pattern;
pub mod query;
pub mod roundtrip;
pub mod route;
pub mod sort;
pub mod text;
pub mod value;

pub use app_path::AppPath;
pub use decode::{Decoded, PathParseErr};
pub use dispatch::{App, Controller, RouteData, RouteParams, Transition};
pub use matcher::{path_to_regex, Matcher};
pub use pattern::PathToRegexError;
pub use route::Route;
pub use sort::SortDirection;
