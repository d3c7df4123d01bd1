//! Scales SVG documents by a numeric factor while preserving markup fidelity.
//!
//! The engine decides, for every numeric quantity in a document (path data,
//! geometric attributes, transform functions, style properties, filter
//! parameters), whether it should be scaled, how, and what textual form the
//! result takes. Numbers are carried through the library as exact decimals
//! of its own (sign, mantissa, exponent), with verified integer arithmetic
//! for scaling, matrix composition and rendering; only two small string
//! conversions are trusted.
#![verifier::loop_isolation(false)]

use vstd::prelude::*;

pub mod err;
pub mod num;
pub mod path;
pub mod style;
pub mod svg;
pub mod transform;

verus! {

/// A character of SVG path data that neither starts a number nor is a
/// command letter: it is copied through unchanged as a separator.
pub fn is_sep_char(c: char) -> (r: bool)
    ensures
        r == spec_is_sep_char(c),
{
    !is_ascii_alpha(c) && c != '-' && c != '+' && c != '.' && !is_ascii_digit(c)
}

/// Separator characters of the path grammar: everything that cannot begin
/// a command or a number.
pub open spec fn spec_is_sep_char(c: char) -> bool {
    !spec_is_ascii_alpha(c) && c != '-' && c != '+' && c != '.' && !spec_is_ascii_digit(c)
}

pub open spec fn spec_is_ascii_alpha(c: char) -> bool {
    (97 <= c as u32 && c as u32 <= 122) || (65 <= c as u32 && c as u32 <= 90)
}

pub open spec fn spec_is_ascii_digit(c: char) -> bool {
    48 <= c as u32 && c as u32 <= 57
}

pub fn is_ascii_alpha(c: char) -> (r: bool)
    ensures
        r == spec_is_ascii_alpha(c),
{
    let u = c as u32;
    (97 <= u && u <= 122) || (65 <= u && u <= 90)
}

pub fn is_ascii_digit(c: char) -> (r: bool)
    ensures
        r == spec_is_ascii_digit(c),
{
    let u = c as u32;
    48 <= u && u <= 57
}

} // verus!
