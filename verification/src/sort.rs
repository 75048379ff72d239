use crate::text::texts_of;
use crate::value::{Datum, FieldType, Kind, Value};
use vstd::prelude::*;
use vstd::string::StringExecFns;

verus! {

/// The direction in which a listing is sorted. A query string writes it in
/// lower case, `asc` or `desc`.
#[derive(Debug, PartialEq, Eq, Clone, Copy, Structural)]
pub enum SortDirection {
    Asc,
    Desc,
}

/// The names of the directions, in the order of the variants.
pub open spec fn direction_names() -> Seq<Seq<char>> {
    seq!["asc"@, "desc"@]
}

/// The direction at a position of `direction_names`.
pub open spec fn direction_at(position: nat) -> Option<SortDirection> {
    if position == 0 {
        Some(SortDirection::Asc)
    } else if position == 1 {
        Some(SortDirection::Desc)
    } else {
        None
    }
}

impl SortDirection {
    /// The field type of a direction: a choice between `asc` and `desc`.
    pub fn field_type() -> (kind: FieldType)
        ensures
            kind@ == Kind::Choice(direction_names()),
    {
        let mut names: Vec<String> = Vec::new();
        names.push(String::from_str("asc"));
        names.push(String::from_str("desc"));
        assert(texts_of(names@) =~= direction_names());
        FieldType::Choice(names)
    }

    /// The direction that a decoded value stands for, if it is a choice of one.
    pub fn from_value(value: &Value) -> (direction: Option<SortDirection>)
        ensures
            direction == match value@ {
                Datum::Choice(position) => direction_at(position),
                _ => None,
            },
    {
        match value {
            Value::Choice(position) => if *position == 0 {
                Some(SortDirection::Asc)
            } else if *position == 1 {
                Some(SortDirection::Desc)
            } else {
                None
            },
            _ => None,
        }
    }

    /// The position of the direction in `direction_names`.
    pub fn position(&self) -> (position: usize)
        ensures
            direction_at(position as nat) == Some(*self),
    {
        match self {
            SortDirection::Asc => 0,
            SortDirection::Desc => 1,
        }
    }
}

} // verus!
