//! Best-effort coercion of a raw value token into a typed [`OptValue`].
//!
//! The declared default's variant decides how the token is read. Coercion
//! never fails: a missing or unparseable token falls back to the declared
//! default, except for booleans, where the mere presence of the flag is
//! taken as intent to enable it and the fallback is `true`.

use vstd::prelude::*;

use crate::numbers::spec_parse_i64;
use crate::numbers::spec_parse_u64;
use crate::numbers::parse_i64;
use crate::numbers::parse_u64;
use crate::options::OptValue;
use crate::options::OptValueView;
use crate::text::str_eq;

verus! {

/// What `bool` parsing accepts: exactly the words `true` and `false`.
pub open spec fn spec_parse_bool(s: Seq<char>) -> Option<bool> {
    if s == "true"@ {
        Some(true)
    } else if s == "false"@ {
        Some(false)
    } else {
        None
    }
}

/// Parses a boolean token: exactly `true` or `false`.
pub fn parse_bool(s: &str) -> (r: Option<bool>)
    ensures
        r == spec_parse_bool(s@),
{
    if str_eq(s, "true") {
        Some(true)
    } else if str_eq(s, "false") {
        Some(false)
    } else {
        None
    }
}

/// The coerced value for a flag whose declared default is `d`, given the
/// value token following the flag (`None` when the flag is the last
/// argument). Integer tokens that fail to parse fall back to the declared
/// default; a boolean flag falls back to `true`.
pub open spec fn spec_coerce(d: OptValueView, tok: Option<Seq<char>>) -> OptValueView {
    match d {
        OptValueView::Int64(dv) => OptValueView::Int64(
            match tok {
                Some(t) => match spec_parse_i64(t) {
                    Some(v) => v,
                    None => dv,
                },
                None => dv,
            },
        ),
        OptValueView::Uint64(dv) => OptValueView::Uint64(
            match tok {
                Some(t) => match spec_parse_u64(t) {
                    Some(v) => v,
                    None => dv,
                },
                None => dv,
            },
        ),
        OptValueView::Text(dv) => OptValueView::Text(
            match tok {
                Some(t) => t,
                None => dv,
            },
        ),
        OptValueView::Bool(_) => OptValueView::Bool(
            match tok {
                Some(t) => match spec_parse_bool(t) {
                    Some(v) => v,
                    None => true,
                },
                None => true,
            },
        ),
    }
}

/// The view of an optional token.
pub open spec fn token_view(tok: Option<&String>) -> Option<Seq<char>> {
    match tok {
        Some(t) => Some(t@),
        None => None,
    }
}

/// Coerces the value token `tok` according to the variant of the declared
/// default `d`, with total fallback as [`spec_coerce`] states.
pub fn coerce(d: &OptValue, tok: Option<&String>) -> (r: OptValue)
    ensures
        r@ == spec_coerce(d@, token_view(tok)),
{
    match d {
        OptValue::INT64(dv) => OptValue::INT64(
            match tok {
                Some(t) => match parse_i64(t.as_str()) {
                    Some(v) => v,
                    None => *dv,
                },
                None => *dv,
            },
        ),
        OptValue::UINT64(dv) => OptValue::UINT64(
            match tok {
                Some(t) => match parse_u64(t.as_str()) {
                    Some(v) => v,
                    None => *dv,
                },
                None => *dv,
            },
        ),
        OptValue::STRING(dv) => OptValue::STRING(
            match tok {
                Some(t) => t.clone(),
                None => dv.clone(),
            },
        ),
        OptValue::BOOL(_) => OptValue::BOOL(
            match tok {
                Some(t) => match parse_bool(t.as_str()) {
                    Some(v) => v,
                    None => true,
                },
                None => true,
            },
        ),
    }
}

} // verus!
