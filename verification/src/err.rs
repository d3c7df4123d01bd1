//! The typed errors of the scaling engine.
//!
//! Every failure aborts the whole document conversion; nothing is retried
//! or patched up. Each error carries enough context to locate the fault
//! without re-parsing: the path grammar reports an offset, a snippet and a
//! classified reason; numeric and transform errors carry the offending
//! text; the tree walker wraps any of them with the element's tag and id.

use vstd::prelude::*;
use crate::num::{chars_to_string, spec_dec_chars, str_to_chars, u128_to_chars};

verus! {

/// The classified reason of a path-grammar failure.
#[derive(Clone, Copy, PartialEq, Eq, Structural, Debug)]
pub enum PathErrorKind {
    /// A letter that is not a path command.
    InvalidCommand,
    /// A malformed numeric literal.
    InvalidNumber,
    /// A malformed separator.
    InvalidSeparator,
    /// A character the grammar cannot place.
    UnexpectedToken,
    /// The input ended where a token was required.
    UnexpectedEnd,
}

impl PathErrorKind {
    /// The reason's wording in error messages.
    pub open spec fn spec_text(self) -> Seq<char> {
        match self {
            PathErrorKind::InvalidCommand => "invalid command"@,
            PathErrorKind::InvalidNumber => "invalid number"@,
            PathErrorKind::InvalidSeparator => "invalid separator"@,
            PathErrorKind::UnexpectedToken => "unexpected token"@,
            PathErrorKind::UnexpectedEnd => "unexpected end of input"@,
        }
    }

    /// The reason's wording in error messages.
    pub fn text(&self) -> (r: &'static str)
        ensures
            r@ == self.spec_text(),
    {
        match self {
            PathErrorKind::InvalidCommand => "invalid command",
            PathErrorKind::InvalidNumber => "invalid number",
            PathErrorKind::InvalidSeparator => "invalid separator",
            PathErrorKind::UnexpectedToken => "unexpected token",
            PathErrorKind::UnexpectedEnd => "unexpected end of input",
        }
    }
}

/// A failure of the scaling engine.
#[derive(Debug)]
pub enum ScaleError {
    /// Path data the grammar rejects: the byte offset and character offset
    /// of the fault, the surrounding text, and the classified reason.
    PathGrammar { offset: usize, char_offset: usize, snippet: String, reason: PathErrorKind },
    /// A transform list that does not parse.
    TransformParse { raw: String },
    /// A numeric value that does not parse, under the attribute or
    /// property key that held it.
    NumericParse { key: String, raw: String },
    /// A transform function the algebra does not know.
    UnsupportedTransform { name: String },
    /// A `matrix` function without its six parameters.
    MatrixArity { name: String, count: usize },
}

/// The message of a path-grammar error.
pub open spec fn spec_path_msg(
    char_offset: nat,
    offset: nat,
    snippet: Seq<char>,
    reason: PathErrorKind,
) -> Seq<char> {
    "invalid path data at char "@ + spec_dec_chars(char_offset) + " (byte "@ + spec_dec_chars(
        offset,
    ) + ") near '"@ + snippet + "': "@ + reason.spec_text()
}

impl ScaleError {
    /// The message a caller reads: what failed, where, and on what text.
    pub open spec fn spec_message(self) -> Seq<char> {
        match self {
            ScaleError::PathGrammar { offset, char_offset, snippet, reason } => spec_path_msg(
                char_offset as nat,
                offset as nat,
                snippet@,
                reason,
            ),
            ScaleError::TransformParse { raw } => "invalid transform: "@ + raw@,
            ScaleError::NumericParse { key, raw } => "invalid "@ + key@ + ": "@ + raw@,
            ScaleError::UnsupportedTransform { name } => "unsupported transform: "@ + name@,
            ScaleError::MatrixArity { name, count } => "matrix() requires 6 parameters, got "@
                + spec_dec_chars(count as nat),
        }
    }

    /// The message a caller reads: what failed, where, and on what text.
    pub fn message(&self) -> (r: String)
        ensures
            r@ == self.spec_message(),
    {
        let mut out: Vec<char> = Vec::new();
        match self {
            ScaleError::PathGrammar { offset, char_offset, snippet, reason } => {
                append_str(&mut out, "invalid path data at char ");
                append_usize(&mut out, *char_offset);
                append_str(&mut out, " (byte ");
                append_usize(&mut out, *offset);
                append_str(&mut out, ") near '");
                append_str(&mut out, snippet.as_str());
                append_str(&mut out, "': ");
                append_str(&mut out, reason.text());
            },
            ScaleError::TransformParse { raw } => {
                append_str(&mut out, "invalid transform: ");
                append_str(&mut out, raw.as_str());
            },
            ScaleError::NumericParse { key, raw } => {
                append_str(&mut out, "invalid ");
                append_str(&mut out, key.as_str());
                append_str(&mut out, ": ");
                append_str(&mut out, raw.as_str());
            },
            ScaleError::UnsupportedTransform { name } => {
                append_str(&mut out, "unsupported transform: ");
                append_str(&mut out, name.as_str());
            },
            ScaleError::MatrixArity { name, count } => {
                append_str(&mut out, "matrix() requires 6 parameters, got ");
                append_usize(&mut out, *count);
            },
        }
        chars_to_string(&out)
    }
}

/// The mathematical content of a failure: the same five kinds, over
/// character sequences, so that contracts can pin a returned error.
pub enum GCause {
    GPathGrammar { offset: nat, char_offset: nat, snippet: Seq<char>, reason: PathErrorKind },
    GTransformParse { raw: Seq<char> },
    GNumericParse { key: Seq<char>, raw: Seq<char> },
    GUnsupportedTransform { name: Seq<char> },
    GMatrixArity { name: Seq<char>, count: nat },
}

impl ScaleError {
    /// The mathematical content of this failure.
    pub open spec fn view_g(self) -> GCause {
        match self {
            ScaleError::PathGrammar { offset, char_offset, snippet, reason } => GCause::GPathGrammar {
                offset: offset as nat,
                char_offset: char_offset as nat,
                snippet: snippet@,
                reason,
            },
            ScaleError::TransformParse { raw } => GCause::GTransformParse { raw: raw@ },
            ScaleError::NumericParse { key, raw } => GCause::GNumericParse { key: key@, raw: raw@ },
            ScaleError::UnsupportedTransform { name } => GCause::GUnsupportedTransform {
                name: name@,
            },
            ScaleError::MatrixArity { name, count } => GCause::GMatrixArity {
                name: name@,
                count: count as nat,
            },
        }
    }
}

/// Append the characters of a string slice.
pub fn append_str(out: &mut Vec<char>, s: &str)
    ensures
        final(out)@ == old(out)@ + s@,
{
    let cs = str_to_chars(s);
    let mut i: usize = 0;
    while i < cs.len()
        invariant
            i <= cs@.len(),
            cs@ == s@,
            out@ == old(out)@ + s@.take(i as int),
        decreases cs@.len() - i,
    {
        let c = cs[i];
        out.push(c);
        i = i + 1;
        proof {
            assert(out@ =~= old(out)@ + s@.take(i as int));
        }
    }
    proof {
        assert(old(out)@ + s@.take(s@.len() as int) =~= old(out)@ + s@);
    }
}

/// Append the decimal digits of a machine word.
pub fn append_usize(out: &mut Vec<char>, n: usize)
    ensures
        final(out)@ == old(out)@ + spec_dec_chars(n as nat),
{
    let cs = u128_to_chars(n as u128);
    let mut i: usize = 0;
    while i < cs.len()
        invariant
            i <= cs@.len(),
            cs@ == spec_dec_chars(n as nat),
            out@ == old(out)@ + cs@.take(i as int),
        decreases cs@.len() - i,
    {
        let c = cs[i];
        out.push(c);
        i = i + 1;
        proof {
            assert(out@ =~= old(out)@ + cs@.take(i as int));
        }
    }
    proof {
        assert(old(out)@ + cs@.take(cs@.len() as int) =~= old(out)@ + cs@);
    }
}

} // verus!
