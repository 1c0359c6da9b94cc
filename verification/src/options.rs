//! Option descriptors and their typed values.
//!
//! An [`Opt`] describes one command-line flag: a short form, a long form, a
//! typed default value, and a human-readable description. The variant of the
//! default [`OptValue`] is the sole type annotation: it decides how the raw
//! token following the flag is coerced during parsing.

use vstd::prelude::*;

verus! {

/// A typed option value, used both as a declared default and as a parsed
/// result. The variant doubles as the type tag for coercion.
#[derive(Debug)]
pub enum OptValue {
    STRING(String),
    INT64(i64),
    UINT64(u64),
    BOOL(bool),
}

/// Mathematical image of an [`OptValue`]: text becomes a sequence of
/// characters, the scalar variants carry their values unchanged.
pub ghost enum OptValueView {
    Text(Seq<char>),
    Int64(i64),
    Uint64(u64),
    Bool(bool),
}

impl View for OptValue {
    type V = OptValueView;

    open spec fn view(&self) -> OptValueView {
        match self {
            OptValue::STRING(s) => OptValueView::Text(s@),
            OptValue::INT64(n) => OptValueView::Int64(*n),
            OptValue::UINT64(n) => OptValueView::Uint64(*n),
            OptValue::BOOL(b) => OptValueView::Bool(*b),
        }
    }
}

impl DeepView for OptValue {
    type V = OptValueView;

    open spec fn deep_view(&self) -> OptValueView {
        self@
    }
}

impl Clone for OptValue {
    fn clone(&self) -> (r: Self)
        ensures
            r == *self,
    {
        match self {
            OptValue::STRING(s) => OptValue::STRING(s.clone()),
            OptValue::INT64(n) => OptValue::INT64(*n),
            OptValue::UINT64(n) => OptValue::UINT64(*n),
            OptValue::BOOL(b) => OptValue::BOOL(*b),
        }
    }
}

impl PartialEq for OptValue {
    fn eq(&self, other: &Self) -> (r: bool) {
        match (self, other) {
            (OptValue::STRING(a), OptValue::STRING(b)) => *a == *b,
            (OptValue::INT64(a), OptValue::INT64(b)) => *a == *b,
            (OptValue::UINT64(a), OptValue::UINT64(b)) => *a == *b,
            (OptValue::BOOL(a), OptValue::BOOL(b)) => *a == *b,
            _ => false,
        }
    }
}

impl vstd::std_specs::cmp::PartialEqSpecImpl for OptValue {
    open spec fn obeys_eq_spec() -> bool {
        true
    }

    open spec fn eq_spec(&self, other: &Self) -> bool {
        self@ == other@
    }
}

/// The declared metadata for one flag: short form, long form, typed default
/// value, and description. Two descriptors are the same mapping key only if
/// all four fields agree.
#[derive(Debug)]
pub struct Opt {
    pub short: String,
    pub long: String,
    pub value: OptValue,
    pub description: String,
}

/// Mathematical image of an [`Opt`].
pub ghost struct OptView {
    pub short: Seq<char>,
    pub long: Seq<char>,
    pub value: OptValueView,
    pub description: Seq<char>,
}

impl View for Opt {
    type V = OptView;

    open spec fn view(&self) -> OptView {
        OptView {
            short: self.short@,
            long: self.long@,
            value: self.value@,
            description: self.description@,
        }
    }
}

impl DeepView for Opt {
    type V = OptView;

    open spec fn deep_view(&self) -> OptView {
        self@
    }
}

impl Clone for Opt {
    fn clone(&self) -> (r: Self)
        ensures
            r == *self,
    {
        Opt {
            short: self.short.clone(),
            long: self.long.clone(),
            value: self.value.clone(),
            description: self.description.clone(),
        }
    }
}

impl PartialEq for Opt {
    fn eq(&self, other: &Self) -> (r: bool) {
        self.short == other.short && self.long == other.long && self.value == other.value
            && self.description == other.description
    }
}

impl vstd::std_specs::cmp::PartialEqSpecImpl for Opt {
    open spec fn obeys_eq_spec() -> bool {
        true
    }

    open spec fn eq_spec(&self, other: &Self) -> bool {
        self@ == other@
    }
}

impl Opt {
    /// Builds a descriptor from its four fields; the string fields are copied
    /// verbatim.
    pub fn new(short: &str, long: &str, value: OptValue, description: &str) -> (r: Opt)
        ensures
            r@ == (OptView {
                short: short@,
                long: long@,
                value: value@,
                description: description@,
            }),
    {
        Opt {
            short: short.to_owned(),
            long: long.to_owned(),
            value,
            description: description.to_owned(),
        }
    }
}

} // verus!
