use crate::number::{decimal, lemma_decimal_reads_back, number_of, number_text, parse_number};
use crate::text::{chars_of, same_text, texts_of};
use vstd::prelude::*;
use vstd::string::StringExecFns;

verus! {

/// The type that a field of a record is declared with.
#[derive(Debug, PartialEq, Eq, Clone)]
pub enum FieldType {
    U8,
    U16,
    U32,
    U64,
    /// Any text.
    Text,
    /// `true` or `false`.
    Flag,
    /// One of the names listed.
    Choice(Vec<String>),
}

/// The model of a `FieldType`.
pub enum Kind {
    U8,
    U16,
    U32,
    U64,
    Text,
    Flag,
    Choice(Seq<Seq<char>>),
}

impl View for FieldType {
    type V = Kind;

    open spec fn view(&self) -> Kind {
        match self {
            FieldType::U8 => Kind::U8,
            FieldType::U16 => Kind::U16,
            FieldType::U32 => Kind::U32,
            FieldType::U64 => Kind::U64,
            FieldType::Text => Kind::Text,
            FieldType::Flag => Kind::Flag,
            FieldType::Choice(names) => Kind::Choice(texts_of(names@)),
        }
    }
}

/// The value of a field.
#[derive(Debug, PartialEq, Eq, Clone, Hash)]
pub enum Value {
    Number(u64),
    Text(String),
    Flag(bool),
    /// The position of the name in the list of the field's type.
    Choice(usize),
    /// An optional key that the query string does not hold.
    Missing,
}

/// The model of a `Value`.
pub enum Datum {
    Number(nat),
    Text(Seq<char>),
    Flag(bool),
    Choice(nat),
    Missing,
}

impl View for Value {
    type V = Datum;

    open spec fn view(&self) -> Datum {
        match self {
            Value::Number(n) => Datum::Number(*n as nat),
            Value::Text(text) => Datum::Text(text@),
            Value::Flag(b) => Datum::Flag(*b),
            Value::Choice(k) => Datum::Choice(*k as nat),
            Value::Missing => Datum::Missing,
        }
    }
}

/// The model of a list of values.
pub open spec fn data_of(values: Seq<Value>) -> Seq<Datum> {
    values.map_values(|v: Value| v@)
}

/// The model of a value that may have failed to convert.
pub open spec fn datum_of(value: Option<Value>) -> Option<Datum> {
    match value {
        Some(v) => Some(v@),
        None => None,
    }
}

/// The greatest number that a numeric field type holds.
pub open spec fn max_of(kind: Kind) -> nat {
    match kind {
        Kind::U8 => 0xff,
        Kind::U16 => 0xffff,
        Kind::U32 => 0xffff_ffff,
        _ => 0xffff_ffff_ffff_ffff,
    }
}

/// The first position from `from` on at which `names` holds `text`.
pub open spec fn first_index(names: Seq<Seq<char>>, text: Seq<char>, from: int) -> Option<nat>
    decreases names.len() - from,
{
    if from < 0 || from >= names.len() {
        None
    } else if names[from] == text {
        Some(from as nat)
    } else {
        first_index(names, text, from + 1)
    }
}

/// The value that `text` stands for in a field of the given type: a number in
/// base ten within the type's range; the text itself; `true` or `false`, where
/// empty text counts as `true`; the position of a listed name.
pub open spec fn converted(kind: Kind, text: Seq<char>) -> Option<Datum> {
    match kind {
        Kind::Text => Some(Datum::Text(text)),
        Kind::Flag => if text == "true"@ || text.len() == 0 {
            Some(Datum::Flag(true))
        } else if text == "false"@ {
            Some(Datum::Flag(false))
        } else {
            None
        },
        Kind::Choice(names) => match first_index(names, text, 0) {
            Some(k) => Some(Datum::Choice(k)),
            None => None,
        },
        _ => match number_of(text, max_of(kind)) {
            Some(n) => Some(Datum::Number(n)),
            None => None,
        },
    }
}

/// The value that a field has where nothing was given for it.
pub open spec fn default_of(kind: Kind) -> Datum {
    match kind {
        Kind::Text => Datum::Text(Seq::empty()),
        Kind::Flag => Datum::Flag(false),
        Kind::Choice(_) => Datum::Choice(0),
        _ => Datum::Number(0),
    }
}

fn number_value(chars: &Vec<char>, max: u64) -> (value: Option<Value>)
    ensures
        datum_of(value) == match number_of(chars@, max as nat) {
            Some(n) => Some(Datum::Number(n)),
            None => None,
        },
{
    match parse_number(chars, max) {
        Some(n) => Some(Value::Number(n)),
        None => None,
    }
}

/// Converts the text of a path segment or of a query value to the field's type.
pub fn convert(kind: &FieldType, text: &str) -> (value: Option<Value>)
    ensures
        datum_of(value) == converted(kind@, text@),
{
    let chars = chars_of(text);
    match kind {
        FieldType::U8 => number_value(&chars, 0xff),
        FieldType::U16 => number_value(&chars, 0xffff),
        FieldType::U32 => number_value(&chars, 0xffff_ffff),
        FieldType::U64 => number_value(&chars, 0xffff_ffff_ffff_ffff),
        FieldType::Text => Some(Value::Text(text.to_owned())),
        FieldType::Flag => {
            if chars.len() == 0 || same_text(&chars, &chars_of("true")) {
                Some(Value::Flag(true))
            } else if same_text(&chars, &chars_of("false")) {
                Some(Value::Flag(false))
            } else {
                None
            }
        },
        FieldType::Choice(names) => {
            let mut k: usize = 0;
            while k < names.len()
                invariant
                    k <= names.len(),
                    chars@ == text@,
                    kind@ == Kind::Choice(texts_of(names@)),
                    first_index(texts_of(names@), text@, 0) == first_index(
                        texts_of(names@),
                        text@,
                        k as int,
                    ),
                decreases names.len() - k,
            {
                assert(texts_of(names@)[k as int] == names@[k as int]@);
                if same_text(&chars, &chars_of(names[k].as_str())) {
                    return Some(Value::Choice(k));
                }
                k = k + 1;
            }
            None
        },
    }
}

/// The default of a field type, as a value.
pub fn default_value(kind: &FieldType) -> (value: Value)
    ensures
        value@ == default_of(kind@),
{
    match kind {
        FieldType::Text => Value::Text(String::new()),
        FieldType::Flag => Value::Flag(false),
        FieldType::Choice(_) => Value::Choice(0),
        _ => Value::Number(0),
    }
}

/// The field type holds numbers.
pub open spec fn is_numeric(kind: Kind) -> bool {
    kind is U8 || kind is U16 || kind is U32 || kind is U64
}

/// The text that writes a value of a field of the given type: a number in base
/// ten, text as it is, `true` or `false`, the name at the position of a choice.
/// Nothing where the value is not one of the type.
pub open spec fn shown(kind: Kind, value: Datum) -> Option<Seq<char>> {
    match value {
        Datum::Number(n) => if is_numeric(kind) && n <= max_of(kind) {
            Some(decimal(n))
        } else {
            None
        },
        Datum::Text(text) => if kind is Text {
            Some(text)
        } else {
            None
        },
        Datum::Flag(b) => if kind is Flag {
            Some(if b { "true"@ } else { "false"@ })
        } else {
            None
        },
        Datum::Choice(k) => match kind {
            Kind::Choice(names) => if k < names.len() {
                Some(names[k as int])
            } else {
                None
            },
            _ => None,
        },
        Datum::Missing => None,
    }
}

/// The text that writes a value converts back to the value; for a choice, where
/// no earlier name of the list is the same.
pub proof fn lemma_shown_converts_back(kind: Kind, value: Datum)
    requires
        shown(kind, value) is Some,
        kind matches Kind::Choice(names) ==> first_index(names, shown(kind, value)->Some_0, 0)
            == Some(value->Choice_0),
    ensures
        converted(kind, shown(kind, value)->Some_0) == Some(value),
{
    match value {
        Datum::Number(n) => {
            lemma_decimal_reads_back(n, max_of(kind));
        },
        Datum::Flag(b) => {
            reveal_strlit("true");
            reveal_strlit("false");
        },
        _ => {},
    }
}

/// Writes a value of a field of the given type as text.
pub fn show(kind: &FieldType, value: &Value) -> (text: Option<String>)
    ensures
        crate::text::text_model(text) == shown(kind@, value@),
{
    match value {
        Value::Number(n) => {
            let fits = match kind {
                FieldType::U8 => *n <= 0xff,
                FieldType::U16 => *n <= 0xffff,
                FieldType::U32 => *n <= 0xffff_ffff,
                FieldType::U64 => true,
                _ => false,
            };
            if fits {
                Some(number_text(*n))
            } else {
                None
            }
        },
        Value::Text(text) => match kind {
            FieldType::Text => Some(text.clone()),
            _ => None,
        },
        Value::Flag(b) => match kind {
            FieldType::Flag => Some(String::from_str(if *b { "true" } else { "false" })),
            _ => None,
        },
        Value::Choice(k) => match kind {
            FieldType::Choice(names) => if *k < names.len() {
                assert(texts_of(names@)[*k as int] == names@[*k as int]@);
                Some(names[*k].clone())
            } else {
                None
            },
            _ => None,
        },
        Value::Missing => None,
    }
}

} // verus!
