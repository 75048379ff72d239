use crate::decode::PathParseErr;
use vstd::prelude::*;

verus! {

/// A record type that is decoded from the inputs of one route. An implementation
/// holds the route of its type, decodes with it and fills its fields from the
/// values.
pub trait AppPath {
    /// The template of the route as an anchored pattern for the `regex` crate.
    fn path_pattern() -> String where Self: Sized;

    /// The record that an input stands for.
    fn from_str(app_path: &str) -> Result<Self, PathParseErr> where Self: Sized;

    /// The query string of the record, where writing one is supported.
    fn query_string(&self) -> Option<String>;

    /// The path of the record.
    fn to_string(&self) -> String;
}

} // verus!
