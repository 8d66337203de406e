//! Identifier casing for generated names. The conversions come from the
//! `heck` crate; each result is a pure function of the input characters, so
//! the contracts name the results rather than restate heck's word-boundary
//! algorithm.

use vstd::prelude::*;

use heck::{ToShoutySnakeCase, ToSnakeCase, ToUpperCamelCase};

verus! {

pub uninterp spec fn snake_of(s: Seq<char>) -> Seq<char>;

pub uninterp spec fn camel_of(s: Seq<char>) -> Seq<char>;

pub uninterp spec fn shouty_of(s: Seq<char>) -> Seq<char>;

pub uninterp spec fn is_alphabetic_char(c: char) -> bool;

/// Relies on heck's `ToSnakeCase` for `str`: the snake_case form of a name,
/// a function of its characters alone.
#[verifier::external_body]
pub(crate) fn to_snake(s: &str) -> (r: String)
    ensures
        r@ == snake_of(s@),
{
    s.to_snake_case()
}

/// Relies on heck's `ToUpperCamelCase` for `str`: the UpperCamelCase form
/// of a name, a function of its characters alone.
#[verifier::external_body]
pub(crate) fn to_camel(s: &str) -> (r: String)
    ensures
        r@ == camel_of(s@),
{
    s.to_upper_camel_case()
}

/// Relies on heck's `ToShoutySnakeCase` for `str`: the SHOUTY_SNAKE_CASE
/// form of a name, a function of its characters alone.
#[verifier::external_body]
pub(crate) fn to_shouty(s: &str) -> (r: String)
    ensures
        r@ == shouty_of(s@),
{
    s.to_shouty_snake_case()
}

/// Relies on `char::is_alphabetic` of std: whether the character is a
/// letter, a function of the character alone.
#[verifier::external_body]
pub(crate) fn is_alpha(c: char) -> (r: bool)
    ensures
        r == is_alphabetic_char(c),
{
    c.is_alphabetic()
}

} // verus!
