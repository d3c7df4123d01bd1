//! The path-data grammar and its scaler.
//!
//! Path data is an alternating run of one-letter commands, decimal numbers
//! and inert separators. Numbers are scaled and re-rendered; commands and
//! separators are copied byte for byte — except that inside an arc command
//! the rotation angle and the two flags (parameter indices 2, 3 and 4 of
//! each group of seven) are copied verbatim. A number whose exponent
//! marker is not followed by digits is a hard error at the number's start;
//! any character no token can begin is an error at its own position. The
//! whole input must be consumed: nothing is emitted on error.

use vstd::prelude::*;
use crate::err::{PathErrorKind, ScaleError};
use crate::num::{
    Dec,
    ScaleCtx,
    chars_to_string,
    dec_from_chars,
    dec_mul,
    spec_dec_mul,
    spec_fmt_dec,
    spec_parse_dec,
    str_to_chars,
};
use crate::{spec_is_ascii_alpha, spec_is_ascii_digit, spec_is_sep_char, is_sep_char, is_ascii_digit, is_ascii_alpha};

verus! {

/// The twenty path command letters.
pub open spec fn spec_is_cmd_char(c: char) -> bool {
    c == 'M' || c == 'm' || c == 'Z' || c == 'z' || c == 'L' || c == 'l' || c == 'H' || c == 'h'
        || c == 'V' || c == 'v' || c == 'C' || c == 'c' || c == 'S' || c == 's' || c == 'Q' || c
        == 'q' || c == 'T' || c == 't' || c == 'A' || c == 'a'
}

/// Whether a character is a path command letter.
pub fn is_cmd_char(c: char) -> (r: bool)
    ensures
        r == spec_is_cmd_char(c),
{
    c == 'M' || c == 'm' || c == 'Z' || c == 'z' || c == 'L' || c == 'l' || c == 'H' || c == 'h'
        || c == 'V' || c == 'v' || c == 'C' || c == 'c' || c == 'S' || c == 's' || c == 'Q' || c
        == 'q' || c == 'T' || c == 't' || c == 'A' || c == 'a'
}

/// The position after the run of digits starting at `i`.
pub open spec fn spec_digits_end(s: Seq<char>, i: int) -> int
    decreases s.len() - i when i <= s.len()
{
    if 0 <= i < s.len() && spec_is_ascii_digit(s[i]) {
        spec_digits_end(s, i + 1)
    } else {
        i
    }
}

proof fn lemma_digits_end_bounds(s: Seq<char>, i: int)
    requires
        0 <= i <= s.len(),
    ensures
        i <= spec_digits_end(s, i) <= s.len(),
    decreases s.len() - i,
{
    if 0 <= i < s.len() && spec_is_ascii_digit(s[i]) {
        lemma_digits_end_bounds(s, i + 1);
    }
}

/// The position after the run of separator characters starting at `i`.
pub open spec fn spec_sep_end(s: Seq<char>, i: int) -> int
    decreases s.len() - i when i <= s.len()
{
    if 0 <= i < s.len() && spec_is_sep_char(s[i]) {
        spec_sep_end(s, i + 1)
    } else {
        i
    }
}

proof fn lemma_sep_end_bounds(s: Seq<char>, i: int)
    requires
        0 <= i <= s.len(),
    ensures
        i <= spec_sep_end(s, i) <= s.len(),
    decreases s.len() - i,
{
    if 0 <= i < s.len() && spec_is_sep_char(s[i]) {
        lemma_sep_end_bounds(s, i + 1);
    }
}

/// The end of a number's mantissa starting at `i`: an optional sign, then
/// digits with an optional fraction, or a bare fraction with at least one
/// digit. `None` where no mantissa starts here.
pub open spec fn spec_mant_end(s: Seq<char>, i: int) -> Option<int> {
    let j0: int = if 0 <= i < s.len() && (s[i] == '+' || s[i] == '-') {
        i + 1
    } else {
        i
    };
    let j1 = spec_digits_end(s, j0);
    if j1 > j0 {
        if j1 < s.len() && s[j1] == '.' {
            Some(spec_digits_end(s, j1 + 1))
        } else {
            Some(j1)
        }
    } else if j0 < s.len() && s[j0] == '.' && spec_digits_end(s, j0 + 1) > j0 + 1 {
        Some(spec_digits_end(s, j0 + 1))
    } else {
        None
    }
}

/// The end of an exponent part whose marker stands at `j`: the marker, an
/// optional sign, then at least one digit. `None` where the digits are
/// missing.
pub open spec fn spec_exp_end(s: Seq<char>, j: int) -> Option<int> {
    let k0 = j + 1;
    let k1: int = if 0 <= k0 < s.len() && (s[k0] == '+' || s[k0] == '-') {
        k0 + 1
    } else {
        k0
    };
    let k2 = spec_digits_end(s, k1);
    if k2 > k1 {
        Some(k2)
    } else {
        None
    }
}

/// The end of the number token starting at `i`, or `None` where no number
/// is recognized there.
pub open spec fn spec_num_end(s: Seq<char>, i: int) -> Option<int> {
    match spec_mant_end(s, i) {
        Some(j) => if j < s.len() && (s[j] == 'e' || s[j] == 'E') {
            spec_exp_end(s, j)
        } else {
            Some(j)
        },
        None => None,
    }
}

/// Whether the text at `i` starts a mantissa whose exponent marker is not
/// followed by digits: a hard parse error reported at `i`.
pub open spec fn spec_num_hard(s: Seq<char>, i: int) -> bool {
    match spec_mant_end(s, i) {
        Some(j) => j < s.len() && (s[j] == 'e' || s[j] == 'E') && spec_exp_end(s, j) is None,
        None => false,
    }
}

pub(crate) proof fn lemma_num_end_bounds(s: Seq<char>, i: int)
    requires
        0 <= i <= s.len(),
    ensures
        spec_num_end(s, i) is Some ==> i < spec_num_end(s, i)->0 <= s.len(),
{
    let j0: int = if 0 <= i < s.len() && (s[i] == '+' || s[i] == '-') {
        i + 1
    } else {
        i
    };
    lemma_digits_end_bounds(s, j0);
    let j1 = spec_digits_end(s, j0);
    if j1 > j0 {
        if j1 < s.len() && s[j1] == '.' {
            lemma_digits_end_bounds(s, j1 + 1);
        }
    } else if j0 < s.len() && s[j0] == '.' {
        lemma_digits_end_bounds(s, j0 + 1);
    }
    match spec_mant_end(s, i) {
        Some(j) => {
            if j < s.len() && (s[j] == 'e' || s[j] == 'E') {
                let k0 = j + 1;
                let k1: int = if 0 <= k0 < s.len() && (s[k0] == '+' || s[k0] == '-') {
                    k0 + 1
                } else {
                    k0
                };
                lemma_digits_end_bounds(s, k1);
            }
        },
        None => {},
    }
}

/// The scan result for a number at one position.
pub(crate) enum NumScan {
    /// No number starts here.
    NoMatch,
    /// A mantissa with a dangling exponent marker: a hard error.
    Hard,
    /// A number token ending at the given position.
    End(usize),
}

/// The position after the run of digits starting at `i`.
fn digits_end(s: &Vec<char>, i: usize) -> (r: usize)
    requires
        i <= s@.len(),
    ensures
        r == spec_digits_end(s@, i as int),
        i <= r <= s@.len(),
{
    proof {
        lemma_digits_end_bounds(s@, i as int);
    }
    let mut j = i;
    while j < s.len() && is_ascii_digit(s[j])
        invariant
            i <= j <= s@.len(),
            spec_digits_end(s@, j as int) == spec_digits_end(s@, i as int),
        decreases s@.len() - j,
    {
        j = j + 1;
    }
    j
}

/// Scan for a number token at `i`.
pub(crate) fn scan_number(s: &Vec<char>, i: usize) -> (r: NumScan)
    requires
        i <= s@.len(),
    ensures
        match r {
            NumScan::End(j) => spec_num_end(s@, i as int) == Some(j as int) && i < j <= s@.len(),
            NumScan::Hard => spec_num_hard(s@, i as int),
            NumScan::NoMatch => spec_num_end(s@, i as int) is None && !spec_num_hard(
                s@,
                i as int,
            ),
        },
{
    proof {
        lemma_num_end_bounds(s@, i as int);
    }
    let j0: usize = if i < s.len() && (s[i] == '+' || s[i] == '-') {
        i + 1
    } else {
        i
    };
    let j1 = digits_end(s, j0);
    let m: Option<usize> = if j1 > j0 {
        if j1 < s.len() && s[j1] == '.' {
            Some(digits_end(s, j1 + 1))
        } else {
            Some(j1)
        }
    } else if j0 < s.len() && s[j0] == '.' {
        let j2 = digits_end(s, j0 + 1);
        if j2 > j0 + 1 {
            Some(j2)
        } else {
            None
        }
    } else {
        None
    };
    match m {
        None => NumScan::NoMatch,
        Some(j) => {
            if j < s.len() && (s[j] == 'e' || s[j] == 'E') {
                let k0 = j + 1;
                let k1: usize = if k0 < s.len() && (s[k0] == '+' || s[k0] == '-') {
                    k0 + 1
                } else {
                    k0
                };
                let k2 = digits_end(s, k1);
                if k2 > k1 {
                    NumScan::End(k2)
                } else {
                    NumScan::Hard
                }
            } else {
                NumScan::End(j)
            }
        },
    }
}

/// Whether the parameter at `idx` of the current command is scaled: all
/// parameters are, except an arc's rotation angle and two flags
/// (indices 2, 3 and 4 of each group of seven).
pub open spec fn spec_should_scale(cmd: Option<char>, idx: nat) -> bool {
    match cmd {
        Some(c) => if c == 'A' || c == 'a' {
            idx % 7 == 0 || idx % 7 == 1 || idx % 7 == 5 || idx % 7 == 6
        } else {
            true
        },
        None => true,
    }
}

/// Whether the parameter at `idx` of the current command is scaled.
pub fn should_scale_param(cmd: &Option<char>, idx: usize) -> (r: bool)
    ensures
        r == spec_should_scale(*cmd, idx as nat),
{
    match cmd {
        Some(c) => {
            if *c == 'A' || *c == 'a' {
                let m = idx % 7;
                m == 0 || m == 1 || m == 5 || m == 6
            } else {
                true
            }
        },
        None => true,
    }
}

/// The numeric value of a token: its parsed decimal, or zero where the
/// token does not parse (the token grammar guarantees it does).
pub open spec fn spec_tok_val(raw: Seq<char>) -> Dec {
    match spec_parse_dec(raw) {
        Some(d) => d,
        None => Dec::Fin { neg: false, mant: 0, exp: 0 },
    }
}

/// A parameter index advanced by one, saturating.
pub open spec fn spec_idx_inc(idx: nat) -> nat {
    if idx < usize::MAX {
        idx + 1
    } else {
        idx
    }
}

/// The rewritten text of the path data from position `i` on, given the
/// current command and parameter index — or the position of the first
/// character the grammar rejects.
pub open spec fn spec_scale_run(
    s: Seq<char>,
    i: int,
    cmd: Option<char>,
    idx: nat,
    sc: Dec,
    p: usize,
) -> Result<Seq<char>, int>
    decreases s.len() - i when 0 <= i <= s.len() via spec_scale_run_dec
{
    if i >= s.len() {
        Ok(Seq::empty())
    } else if spec_is_cmd_char(s[i]) {
        match spec_scale_run(s, i + 1, Some(s[i]), 0, sc, p) {
            Ok(t) => Ok(seq![s[i]] + t),
            Err(e) => Err(e),
        }
    } else if spec_num_end(s, i) is Some {
        let j = spec_num_end(s, i)->0;
        let raw = s.subrange(i, j);
        let piece = if spec_should_scale(cmd, idx) {
            spec_fmt_dec(spec_dec_mul(spec_tok_val(raw), sc), p)
        } else {
            raw
        };
        match spec_scale_run(s, j, cmd, spec_idx_inc(idx), sc, p) {
            Ok(t) => Ok(piece + t),
            Err(e) => Err(e),
        }
    } else if spec_num_hard(s, i) {
        Err(i)
    } else if spec_is_sep_char(s[i]) {
        let j = spec_sep_end(s, i);
        match spec_scale_run(s, j, cmd, idx, sc, p) {
            Ok(t) => Ok(s.subrange(i, j) + t),
            Err(e) => Err(e),
        }
    } else {
        Err(i)
    }
}

#[via_fn]
proof fn spec_scale_run_dec(s: Seq<char>, i: int, cmd: Option<char>, idx: nat, sc: Dec, p: usize) {
    if 0 <= i < s.len() {
        lemma_num_end_bounds(s, i);
        if spec_is_sep_char(s[i]) {
            lemma_sep_end_bounds(s, i + 1);
            assert(spec_sep_end(s, i) == spec_sep_end(s, i + 1));
        }
    }
}

/// The UTF-8 length of a character.
pub open spec fn spec_utf8_len(c: char) -> nat {
    if (c as u32) < 0x80 {
        1
    } else if (c as u32) < 0x800 {
        2
    } else if (c as u32) < 0x10000 {
        3
    } else {
        4
    }
}

/// The byte offset of the `k`-th character, saturating at the machine
/// limit (unreachable for text that fits in memory).
pub open spec fn spec_byte_off(s: Seq<char>, k: int) -> nat
    decreases k,
{
    if k <= 0 {
        0
    } else {
        let p = spec_byte_off(s, k - 1) + if k - 1 < s.len() {
            spec_utf8_len(s[k - 1])
        } else {
            0
        };
        if p > usize::MAX {
            usize::MAX as nat
        } else {
            p
        }
    }
}

/// The UTF-8 length of a character.
fn utf8_len(c: char) -> (r: usize)
    ensures
        r == spec_utf8_len(c),
{
    let u = c as u32;
    if u < 0x80 {
        1
    } else if u < 0x800 {
        2
    } else if u < 0x10000 {
        3
    } else {
        4
    }
}

/// The byte offset of the `k`-th character.
fn byte_off(s: &Vec<char>, k: usize) -> (r: usize)
    requires
        k <= s@.len(),
    ensures
        r == spec_byte_off(s@, k as int),
{
    let mut i: usize = 0;
    let mut off: usize = 0;
    while i < k
        invariant
            i <= k <= s@.len(),
            off == spec_byte_off(s@, i as int),
        decreases k - i,
    {
        let l = utf8_len(s[i]);
        off = if off <= usize::MAX - l {
            off + l
        } else {
            usize::MAX
        };
        i = i + 1;
    }
    off
}

/// Whether a character has the Unicode white-space property.
pub open spec fn spec_is_unicode_ws(c: char) -> bool {
    let u = c as u32;
    u == 0x09 || u == 0x0A || u == 0x0B || u == 0x0C || u == 0x0D || u == 0x20 || u == 0x85 || u
        == 0xA0 || u == 0x1680 || (0x2000 <= u && u <= 0x200A) || u == 0x2028 || u == 0x2029 || u
        == 0x202F || u == 0x205F || u == 0x3000
}

/// Whether a character has the Unicode white-space property.
pub fn is_unicode_ws(c: char) -> (r: bool)
    ensures
        r == spec_is_unicode_ws(c),
{
    let u = c as u32;
    u == 0x09 || u == 0x0A || u == 0x0B || u == 0x0C || u == 0x0D || u == 0x20 || u == 0x85 || u
        == 0xA0 || u == 0x1680 || (0x2000 <= u && u <= 0x200A) || u == 0x2028 || u == 0x2029 || u
        == 0x202F || u == 0x205F || u == 0x3000
}

/// Classify the character a path parse stopped on: a letter that is no
/// command, the shape of a number, a separator, or something else.
pub open spec fn spec_classify_char(c: char) -> PathErrorKind {
    if spec_is_ascii_alpha(c) && !spec_is_cmd_char(c) {
        PathErrorKind::InvalidCommand
    } else if spec_is_ascii_digit(c) || c == '-' || c == '+' || c == '.' || c == 'e' || c == 'E' {
        PathErrorKind::InvalidNumber
    } else if spec_is_unicode_ws(c) || c == ',' {
        PathErrorKind::InvalidSeparator
    } else {
        PathErrorKind::UnexpectedToken
    }
}

/// Classify a parse failure at a character position.
pub open spec fn spec_classify_at(s: Seq<char>, pos: int) -> PathErrorKind {
    if pos >= s.len() {
        PathErrorKind::UnexpectedEnd
    } else {
        spec_classify_char(s[pos])
    }
}

/// Classify the character at a position.
fn classify_char_exec(c: char) -> (r: PathErrorKind)
    ensures
        r == spec_classify_char(c),
{
    if is_ascii_alpha(c) && !is_cmd_char(c) {
        PathErrorKind::InvalidCommand
    } else if is_ascii_digit(c) || c == '-' || c == '+' || c == '.' || c == 'e' || c == 'E' {
        PathErrorKind::InvalidNumber
    } else if is_unicode_ws(c) || c == ',' {
        PathErrorKind::InvalidSeparator
    } else {
        PathErrorKind::UnexpectedToken
    }
}

/// Ten characters of context on each side of a position.
pub open spec fn spec_snippet(s: Seq<char>, pos: int) -> Seq<char> {
    let lo: int = if pos >= 10 {
        pos - 10
    } else {
        0
    };
    let hi: int = if pos + 10 <= s.len() {
        pos + 10
    } else {
        s.len() as int
    };
    if lo <= hi {
        s.subrange(lo, hi)
    } else {
        Seq::empty()
    }
}

/// Extract the snippet around a position.
fn snippet_at(s: &Vec<char>, pos: usize) -> (r: Vec<char>)
    requires
        pos <= s@.len(),
    ensures
        r@ == spec_snippet(s@, pos as int),
{
    let lo: usize = if pos >= 10 {
        pos - 10
    } else {
        0
    };
    let hi: usize = if s.len() - pos >= 10 {
        pos + 10
    } else {
        s.len()
    };
    let mut out: Vec<char> = Vec::new();
    let mut i = lo;
    while i < hi
        invariant
            lo <= i <= hi <= s@.len(),
            out@ == s@.subrange(lo as int, i as int),
        decreases hi - i,
    {
        let c = s[i];
        out.push(c);
        i = i + 1;
        proof {
            assert(out@ =~= s@.subrange(lo as int, i as int));
        }
    }
    out
}

/// Build the grammar error for a failure at a character position.
fn path_error_at(s: &Vec<char>, pos: usize) -> (r: ScaleError)
    requires
        pos <= s@.len(),
    ensures
        r matches ScaleError::PathGrammar { offset, char_offset, snippet, reason } && offset
            == spec_byte_off(s@, pos as int) && char_offset == pos && snippet@ == spec_snippet(
            s@,
            pos as int,
        ) && reason == spec_classify_at(s@, pos as int),
{
    let offset = byte_off(s, pos);
    let sn = snippet_at(s, pos);
    let reason = if pos < s.len() {
        classify_char_exec(s[pos])
    } else {
        PathErrorKind::UnexpectedEnd
    };
    ScaleError::PathGrammar {
        offset,
        char_offset: pos,
        snippet: chars_to_string(&sn),
        reason,
    }
}

/// Copy a subrange of characters into a fresh vector.
pub(crate) fn copy_range(s: &Vec<char>, from: usize, to: usize) -> (r: Vec<char>)
    requires
        from <= to <= s@.len(),
    ensures
        r@ == s@.subrange(from as int, to as int),
{
    let mut out: Vec<char> = Vec::new();
    let mut i = from;
    while i < to
        invariant
            from <= i <= to <= s@.len(),
            out@ == s@.subrange(from as int, i as int),
        decreases to - i,
    {
        let c = s[i];
        out.push(c);
        i = i + 1;
        proof {
            assert(out@ =~= s@.subrange(from as int, i as int));
        }
    }
    out
}

/// Append a subrange of characters.
fn append_range(out: &mut Vec<char>, s: &Vec<char>, from: usize, to: usize)
    requires
        from <= to <= s@.len(),
    ensures
        final(out)@ == old(out)@ + s@.subrange(from as int, to as int),
{
    let mut i = from;
    while i < to
        invariant
            from <= i <= to <= s@.len(),
            out@ == old(out)@ + s@.subrange(from as int, i as int),
        decreases to - i,
    {
        let c = s[i];
        out.push(c);
        i = i + 1;
        proof {
            assert(out@ =~= old(out)@ + s@.subrange(from as int, i as int));
        }
    }
    proof {
        assert(old(out)@ + s@.subrange(from as int, from as int) =~= old(out)@);
    }
}

/// Append each character of another vector.
pub fn append_chars(out: &mut Vec<char>, s: &Vec<char>)
    ensures
        final(out)@ == old(out)@ + s@,
{
    let mut i: usize = 0;
    while i < s.len()
        invariant
            i <= s@.len(),
            out@ == old(out)@ + s@.take(i as int),
        decreases s@.len() - i,
    {
        let c = s[i];
        out.push(c);
        i = i + 1;
        proof {
            assert(out@ =~= old(out)@ + s@.take(i as int));
        }
    }
    proof {
        assert(old(out)@ + s@.take(s@.len() as int) =~= old(out)@ + s@);
    }
}

/// Rewrite a path-data string, scaling every coordinate operand by the
/// context's factor and re-rendering it at the context's precision, while
/// copying commands, separators and an arc's angle and flags byte for
/// byte. The whole input must parse: otherwise the classified grammar
/// error is returned and nothing is emitted.
pub fn scale_path(d: &str, ctx: &ScaleCtx) -> (r: Result<String, ScaleError>)
    requires
        ctx.wf(),
    ensures
        match r {
            Ok(out) => spec_scale_run(d@, 0, None, 0, ctx.scale, ctx.precision) == Ok::<
                Seq<char>,
                int,
            >(out@),
            Err(e) => {
                &&& spec_scale_run(d@, 0, None, 0, ctx.scale, ctx.precision) is Err
                &&& {
                    let pos = spec_scale_run(d@, 0, None, 0, ctx.scale, ctx.precision)->Err_0;
                    e matches ScaleError::PathGrammar { offset, char_offset, snippet, reason }
                        && offset == spec_byte_off(d@, pos) && char_offset == pos && snippet@
                        == spec_snippet(d@, pos) && reason == spec_classify_at(d@, pos)
                }
            },
        },
{
    let cs = str_to_chars(d);
    let mut out: Vec<char> = Vec::new();
    let mut i: usize = 0;
    let mut cmd: Option<char> = None;
    let mut idx: usize = 0;
    while i < cs.len()
        invariant
            i <= cs@.len(),
            cs@ == d@,
            spec_scale_run(d@, 0, None, 0, ctx.scale, ctx.precision) == (match spec_scale_run(
                d@,
                i as int,
                cmd,
                idx as nat,
                ctx.scale,
                ctx.precision,
            ) {
                Ok(t) => Ok::<Seq<char>, int>(out@ + t),
                Err(e) => Err(e),
            }),
        decreases cs@.len() - i,
    {
        let c = cs[i];
        if is_cmd_char(c) {
            let ghost out0 = out@;
            out.push(c);
            proof {
                let rest = spec_scale_run(
                    d@,
                    i + 1,
                    Some(c),
                    0,
                    ctx.scale,
                    ctx.precision,
                );
                if rest is Ok {
                    assert(out0 + (seq![c] + rest->Ok_0) =~= out@ + rest->Ok_0);
                }
            }
            cmd = Some(c);
            idx = 0;
            i = i + 1;
        } else {
            match scan_number(&cs, i) {
                NumScan::End(j) => {
                    let ghost out0 = out@;
                    let ghost raw = d@.subrange(i as int, j as int);
                    if should_scale_param(&cmd, idx) {
                        let rawv = copy_range(&cs, i, j);
                        let v = match dec_from_chars(&rawv) {
                            Some(v) => v,
                            None => Dec::zero(),
                        };
                        proof {
                            assert(v == spec_tok_val(raw));
                            if spec_parse_dec(raw) is None {
                                reveal_with_fuel(crate::num::spec_digits, 2);
                            }
                        }
                        let scaled = dec_mul(&v, &ctx.scale);
                        let piece = ctx.fmt_chars(&scaled);
                        append_chars(&mut out, &piece);
                    } else {
                        append_range(&mut out, &cs, i, j);
                    }
                    let ghost piece_s = if spec_should_scale(cmd, idx as nat) {
                        spec_fmt_dec(spec_dec_mul(spec_tok_val(raw), ctx.scale), ctx.precision)
                    } else {
                        raw
                    };
                    proof {
                        assert(out@ =~= out0 + piece_s);
                    }
                    let ghost idx0 = idx as nat;
                    idx = if idx < usize::MAX {
                        idx + 1
                    } else {
                        idx
                    };
                    proof {
                        assert(idx as nat == spec_idx_inc(idx0));
                        let rest = spec_scale_run(
                            d@,
                            j as int,
                            cmd,
                            idx as nat,
                            ctx.scale,
                            ctx.precision,
                        );
                        if rest is Ok {
                            assert(out0 + (piece_s + rest->Ok_0) =~= out@ + rest->Ok_0);
                        }
                    }
                    i = j;
                },
                NumScan::Hard => {
                    return Err(path_error_at(&cs, i));
                },
                NumScan::NoMatch => {
                    if is_sep_char(c) {
                        let ghost out0 = out@;
                        let mut j = i;
                        while j < cs.len() && is_sep_char(cs[j])
                            invariant
                                i <= j <= cs@.len(),
                                cs@ == d@,
                                spec_sep_end(d@, j as int) == spec_sep_end(d@, i as int),
                                out@ == out0 + d@.subrange(i as int, j as int),
                            decreases cs@.len() - j,
                        {
                            let cc = cs[j];
                            out.push(cc);
                            j = j + 1;
                            proof {
                                assert(out@ =~= out0 + d@.subrange(i as int, j as int));
                            }
                        }
                        proof {
                            let rest = spec_scale_run(
                                d@,
                                j as int,
                                cmd,
                                idx as nat,
                                ctx.scale,
                                ctx.precision,
                            );
                            if rest is Ok {
                                assert(out0 + (d@.subrange(i as int, j as int) + rest->Ok_0)
                                    =~= out@ + rest->Ok_0);
                            }
                        }
                        i = j;
                    } else {
                        return Err(path_error_at(&cs, i));
                    }
                },
            }
        }
    }
    Ok(chars_to_string(&out))
}

/// The full error message for a path failure at a byte offset, as
/// [`scale_path`] reports it.
pub fn format_path_error(input: &str, pos: usize) -> (r: String)
    ensures
        ({
            let s = input@;
            let ci = spec_char_idx(s, pos as nat, 0);
            r@ == crate::err::spec_path_msg(
                ci as nat,
                pos as nat,
                spec_snippet(s, ci),
                spec_classify_at(s, ci),
            )
        }),
{
    let cs = str_to_chars(input);
    let ci = char_idx_at(&cs, pos);
    let e = ScaleError::PathGrammar {
        offset: pos,
        char_offset: ci,
        snippet: {
            let sn = snippet_at(&cs, ci);
            chars_to_string(&sn)
        },
        reason: if ci < cs.len() {
            classify_char_exec(cs[ci])
        } else {
            PathErrorKind::UnexpectedEnd
        },
    };
    e.message()
}

/// The index of the character containing the byte at `pos`, or the length
/// where `pos` lies past the end.
pub open spec fn spec_char_idx(s: Seq<char>, pos: nat, k: int) -> int
    decreases s.len() - k when 0 <= k <= s.len()
{
    if k >= s.len() {
        k
    } else if spec_byte_off(s, k + 1) > pos {
        k
    } else {
        spec_char_idx(s, pos, k + 1)
    }
}

/// Find the character containing a byte offset.
fn char_idx_at(s: &Vec<char>, pos: usize) -> (r: usize)
    ensures
        r == spec_char_idx(s@, pos as nat, 0),
        r <= s@.len(),
{
    let mut k: usize = 0;
    while k < s.len()
        invariant
            k <= s@.len(),
            spec_char_idx(s@, pos as nat, k as int) == spec_char_idx(s@, pos as nat, 0),
        decreases s@.len() - k,
    {
        let b = byte_off(s, k + 1);
        if b > pos {
            return k;
        }
        k = k + 1;
    }
    k
}

/// Classify what stopped a path parse at a byte offset: the wording of the
/// reason in the error message.
pub fn classify_path_error(input: &str, pos: usize) -> (r: &'static str)
    ensures
        ({
            let ci = spec_char_idx(input@, pos as nat, 0);
            r@ == spec_classify_at(input@, ci).spec_text()
        }),
{
    let cs = str_to_chars(input);
    let ci = char_idx_at(&cs, pos);
    let k = if ci < cs.len() {
        classify_char_exec(cs[ci])
    } else {
        PathErrorKind::UnexpectedEnd
    };
    k.text()
}

/// The rewritten text of the path from `i` on when nothing is scaled:
/// every number is merely re-rendered at precision `p`.
pub open spec fn spec_reformat_run(s: Seq<char>, i: int, cmd: Option<char>, idx: nat, p: usize) -> Result<
    Seq<char>,
    int,
>
    decreases s.len() - i when 0 <= i <= s.len() via spec_reformat_run_dec
{
    if i >= s.len() {
        Ok(Seq::empty())
    } else if spec_is_cmd_char(s[i]) {
        match spec_reformat_run(s, i + 1, Some(s[i]), 0, p) {
            Ok(t) => Ok(seq![s[i]] + t),
            Err(e) => Err(e),
        }
    } else if spec_num_end(s, i) is Some {
        let j = spec_num_end(s, i)->0;
        let raw = s.subrange(i, j);
        let piece = if spec_should_scale(cmd, idx) {
            spec_fmt_dec(spec_tok_val(raw), p)
        } else {
            raw
        };
        match spec_reformat_run(s, j, cmd, spec_idx_inc(idx), p) {
            Ok(t) => Ok(piece + t),
            Err(e) => Err(e),
        }
    } else if spec_num_hard(s, i) {
        Err(i)
    } else if spec_is_sep_char(s[i]) {
        let j = spec_sep_end(s, i);
        match spec_reformat_run(s, j, cmd, idx, p) {
            Ok(t) => Ok(s.subrange(i, j) + t),
            Err(e) => Err(e),
        }
    } else {
        Err(i)
    }
}

#[via_fn]
proof fn spec_reformat_run_dec(s: Seq<char>, i: int, cmd: Option<char>, idx: nat, p: usize) {
    if 0 <= i < s.len() {
        lemma_num_end_bounds(s, i);
        if spec_is_sep_char(s[i]) {
            lemma_sep_end_bounds(s, i + 1);
            assert(spec_sep_end(s, i) == spec_sep_end(s, i + 1));
        }
    }
}

/// A parsed token is well-formed.
proof fn lemma_tok_val_wf(raw: Seq<char>)
    ensures
        spec_tok_val(raw).wf(),
{
    match spec_parse_dec(raw) {
        Some(d) => {
            crate::num::lemma_parse_dec_wf(raw);
        },
        None => {},
    }
}

/// Scaling a path by one is the identity on every scaled number, modulo
/// re-rendering at the context's precision: the rewrite with factor one
/// equals the plain reformat of the same path.
pub proof fn lemma_scale_path_one(s: Seq<char>, i: int, cmd: Option<char>, idx: nat, p: usize)
    requires
        0 <= i <= s.len(),
    ensures
        spec_scale_run(s, i, cmd, idx, Dec::spec_one(), p) == spec_reformat_run(s, i, cmd, idx, p),
    decreases s.len() - i,
{
    if i >= s.len() {
    } else if spec_is_cmd_char(s[i]) {
        lemma_scale_path_one(s, i + 1, Some(s[i]), 0, p);
    } else if spec_num_end(s, i) is Some {
        let j = spec_num_end(s, i)->0;
        lemma_num_end_bounds(s, i);
        let raw = s.subrange(i, j);
        lemma_tok_val_wf(raw);
        crate::num::lemma_mul_one(spec_tok_val(raw));
        lemma_scale_path_one(s, j, cmd, spec_idx_inc(idx), p);
    } else if spec_num_hard(s, i) {
    } else if spec_is_sep_char(s[i]) {
        lemma_sep_end_bounds(s, i + 1);
        assert(spec_sep_end(s, i) == spec_sep_end(s, i + 1));
        lemma_scale_path_one(s, spec_sep_end(s, i), cmd, idx, p);
    } else {
    }
}

} // verus!
