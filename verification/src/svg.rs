//! The document model and the scope-aware tree walker.
//!
//! A document is a tree of elements with ordered attributes, text nodes,
//! and nodes of other kinds (comments, processing instructions) that the
//! walker drops. The walker rewrites every element's attributes and style
//! properties according to their semantic category, threading two flags
//! down the recursion: whether an ancestor carried a non-translate
//! transform (its subtree's geometry is then left alone, the transform
//! itself carrying the scale), and whether an object-bounding-box
//! coordinate system exempts the subtree.

use vstd::prelude::*;
use crate::err::ScaleError;
use crate::num::{
    Dec,
    ScaleCtx,
    chars_to_string,
    dec_div,
    dec_mul,
    spec_dec_div,
    spec_dec_mul,
    spec_fmt_dec,
    spec_parse_dec,
    str_to_chars,
};
use crate::path::append_chars;
use crate::style::{spec_trim_range, trim_range};

verus! {

/// One node of the document tree.
pub enum SvgNode {
    /// An element: its tag, its attributes in document order (names
    /// already carrying any namespace prefix), and its children.
    Element { tag: String, attrs: Vec<(String, String)>, children: Vec<SvgNode> },
    /// A text node.
    Text { text: String },
    /// Any other node kind; the walker emits nothing for it.
    Other,
}

/// The mathematical content of a node.
pub enum GNode {
    Element { tag: Seq<char>, attrs: Seq<(Seq<char>, Seq<char>)>, children: Seq<GNode> },
    Text { text: Seq<char> },
    Other,
}

impl SvgNode {
    /// The number of children of an element.
    pub open spec fn child_count(self) -> nat {
        if self is Element {
            self->Element_children@.len()
        } else {
            0
        }
    }

    /// The mathematical content of the children from `i` on.
    pub open spec fn view_children(self, i: int) -> Seq<GNode>
        decreases self, self.child_count() - i, 1nat,
    {
        if self is Element && 0 <= i < self->Element_children@.len() {
            seq![self->Element_children@[i].view_g()] + self.view_children(i + 1)
        } else {
            Seq::empty()
        }
    }

    /// The mathematical content of this node.
    pub open spec fn view_g(self) -> GNode
        decreases self, self.child_count(), 2nat,
    {
        match self {
            SvgNode::Element { tag, attrs, children } => GNode::Element {
                tag: tag@,
                attrs: crate::style::props_view(attrs@),
                children: self.view_children(0),
            },
            SvgNode::Text { text } => GNode::Text { text: text@ },
            SvgNode::Other => GNode::Other,
        }
    }
}

/// Whether a character can be part of a number: a digit, a sign, a decimal
/// point or an exponent marker.
pub open spec fn spec_is_num_char(c: char) -> bool {
    crate::spec_is_ascii_digit(c) || c == '-' || c == '+' || c == '.' || c == 'e' || c == 'E'
}

/// Whether a character can be part of a number.
pub fn is_num_char(c: char) -> (r: bool)
    ensures
        r == spec_is_num_char(c),
{
    crate::is_ascii_digit(c) || c == '-' || c == '+' || c == '.' || c == 'e' || c == 'E'
}

/// Whether a unit suffix is one the scaler understands: none, or an
/// absolute length unit.
pub open spec fn spec_is_supported_unit(u: Seq<char>) -> bool {
    u =~= ""@ || u =~= "px"@ || u =~= "pt"@ || u =~= "pc"@ || u =~= "mm"@ || u =~= "cm"@ || u
        =~= "in"@
}

/// Whether a unit suffix is one the scaler understands.
pub fn is_supported_unit(unit: &str) -> (r: bool)
    ensures
        r == spec_is_supported_unit(unit@),
{
    let r = crate::transform::str_eq(unit, "") || crate::transform::str_eq(unit, "px")
        || crate::transform::str_eq(unit, "pt") || crate::transform::str_eq(unit, "pc")
        || crate::transform::str_eq(unit, "mm") || crate::transform::str_eq(unit, "cm")
        || crate::transform::str_eq(unit, "in");
    proof {
        if unit@ == ""@ || unit@ == "px"@ || unit@ == "pt"@ || unit@ == "pc"@ || unit@ == "mm"@
            || unit@ == "cm"@ || unit@ == "in"@ {
            assert(spec_is_supported_unit(unit@));
        }
    }
    r
}

/// The position after the run of number characters starting at `i`.
pub open spec fn spec_num_run(s: Seq<char>, i: int) -> int
    decreases s.len() - i when i <= s.len()
{
    if 0 <= i < s.len() && spec_is_num_char(s[i]) {
        spec_num_run(s, i + 1)
    } else {
        i
    }
}

pub(crate) proof fn lemma_num_run_bounds(s: Seq<char>, i: int)
    requires
        0 <= i <= s.len(),
    ensures
        i <= spec_num_run(s, i) <= s.len(),
    decreases s.len() - i,
{
    if 0 <= i < s.len() && spec_is_num_char(s[i]) {
        lemma_num_run_bounds(s, i + 1);
    }
}

/// The position after the run of number characters starting at `i`.
fn num_run(s: &Vec<char>, i: usize) -> (r: usize)
    requires
        i <= s@.len(),
    ensures
        r == spec_num_run(s@, i as int),
        i <= r <= s@.len(),
{
    proof {
        lemma_num_run_bounds(s@, i as int);
    }
    let mut j = i;
    while j < s.len() && is_num_char(s[j])
        invariant
            i <= j <= s@.len(),
            spec_num_run(s@, j as int) == spec_num_run(s@, i as int),
        decreases s@.len() - j,
    {
        j = j + 1;
    }
    j
}

/// The numeric prefix and unit suffix of a token: the split point is the
/// end of the leading run of number characters.
pub fn split_num_and_unit(token: &str) -> (r: (String, String))
    ensures
        ({
            let n = spec_num_run(token@, 0);
            r.0@ == token@.subrange(0, n) && r.1@ == token@.subrange(n, token@.len() as int)
        }),
{
    let cs = str_to_chars(token);
    let n = num_run(&cs, 0);
    let num = crate::path::copy_range(&cs, 0, n);
    let unit = crate::path::copy_range(&cs, n, cs.len());
    (chars_to_string(&num), chars_to_string(&unit))
}

/// The scaled text of one numeric token with an optional unit suffix:
/// `None` where the token is empty, has no numeric part, carries a
/// percentage or an unsupported unit, or does not parse. The number is
/// multiplied by the factor, re-rendered, and the unit appended.
pub open spec fn spec_scale_num_token(token: Seq<char>, sc: Dec, p: usize) -> Option<Seq<char>> {
    let t = spec_trim_range(token, 0, token.len() as int);
    if t.len() == 0 {
        None
    } else {
        let n = spec_num_run(t, 0);
        if n == 0 {
            None
        } else {
            let num = t.subrange(0, n);
            let unit = spec_trim_range(t, n, t.len() as int);
            if unit =~= "%"@ {
                None
            } else if !spec_is_supported_unit(unit) {
                None
            } else {
                match spec_parse_dec(num) {
                    None => None,
                    Some(v) => Some(spec_fmt_dec(spec_dec_mul(v, sc), p) + unit),
                }
            }
        }
    }
}

/// Scale one numeric token with an optional unit suffix.
pub fn scale_number_token(token: &str, ctx: &ScaleCtx) -> (r: Option<String>)
    requires
        ctx.wf(),
    ensures
        match r {
            Some(out) => spec_scale_num_token(token@, ctx.scale, ctx.precision) == Some(out@),
            None => spec_scale_num_token(token@, ctx.scale, ctx.precision) is None,
        },
{
    let cs = str_to_chars(token);
    let t = trim_range(&cs, 0, cs.len());
    proof {
        assert(cs@.subrange(0, cs@.len() as int) =~= cs@);
    }
    if t.len() == 0 {
        return None;
    }
    let n = num_run(&t, 0);
    if n == 0 {
        return None;
    }
    let num = crate::path::copy_range(&t, 0, n);
    let unit = trim_range(&t, n, t.len());
    if chars_eq_lit(&unit, "%") {
        return None;
    }
    let unit_s = chars_to_string(&unit);
    if !is_supported_unit(unit_s.as_str()) {
        return None;
    }
    match crate::num::dec_from_chars(&num) {
        None => None,
        Some(v) => {
            let scaled = dec_mul(&v, &ctx.scale);
            let mut out = ctx.fmt_chars(&scaled);
            append_chars(&mut out, &unit);
            proof {
                assert(out@ =~= spec_fmt_dec(spec_dec_mul(v, ctx.scale), ctx.precision) + unit@);
            }
            Some(chars_to_string(&out))
        },
    }
}

/// Compare a character vector to a literal.
fn chars_eq_lit(a: &Vec<char>, b: &str) -> (r: bool)
    ensures
        r == (a@ == b@),
{
    let s = chars_to_string(a);
    crate::transform::str_eq(s.as_str(), b)
}

/// The text of a value whose number-or-name runs are each scaled as
/// tokens (unscalable tokens pass through), all other characters copied
/// verbatim, from `i` on, with a pending token run started at `start`.
pub open spec fn spec_scale_num_list(s: Seq<char>, i: int, start: int, sc: Dec, p: usize) -> Seq<
    char,
>
    decreases s.len() - i when 0 <= start <= i <= s.len()
{
    if i >= s.len() {
        spec_flush_token(s.subrange(start, i), sc, p)
    } else if spec_is_num_char(s[i]) || crate::spec_is_ascii_alpha(s[i]) {
        spec_scale_num_list(s, i + 1, start, sc, p)
    } else {
        spec_flush_token(s.subrange(start, i), sc, p) + seq![s[i]] + spec_scale_num_list(
            s,
            i + 1,
            i + 1,
            sc,
            p,
        )
    }
}

/// A buffered token run, scaled where possible and passed through where
/// not; the empty run yields nothing.
pub open spec fn spec_flush_token(tok: Seq<char>, sc: Dec, p: usize) -> Seq<char> {
    if tok.len() == 0 {
        Seq::empty()
    } else {
        match spec_scale_num_token(tok, sc, p) {
            Some(out) => out,
            None => tok,
        }
    }
}

/// Scale every numeric token of a space- or comma-delimited list,
/// passing unscalable tokens and all separators through verbatim.
pub fn scale_number_list(value: &str, ctx: &ScaleCtx) -> (r: String)
    requires
        ctx.wf(),
    ensures
        r@ == spec_scale_num_list(value@, 0, 0, ctx.scale, ctx.precision),
{
    let cs = str_to_chars(value);
    let mut out: Vec<char> = Vec::new();
    let mut start: usize = 0;
    let mut i: usize = 0;
    while i < cs.len()
        invariant
            0 <= start <= i <= cs@.len(),
            cs@ == value@,
            ctx.wf(),
            spec_scale_num_list(cs@, 0, 0, ctx.scale, ctx.precision) == out@
                + spec_scale_num_list(cs@, i as int, start as int, ctx.scale, ctx.precision),
        decreases cs@.len() - i,
    {
        let c = cs[i];
        if is_num_char(c) || crate::is_ascii_alpha(c) {
            i = i + 1;
        } else {
            let ghost out0 = out@;
            flush_token(&mut out, &cs, start, i, ctx);
            out.push(c);
            proof {
                assert(out@ =~= out0 + (spec_flush_token(
                    cs@.subrange(start as int, i as int),
                    ctx.scale,
                    ctx.precision,
                ) + seq![cs@[i as int]]));
                assert(out0 + (spec_flush_token(
                    cs@.subrange(start as int, i as int),
                    ctx.scale,
                    ctx.precision,
                ) + seq![cs@[i as int]] + spec_scale_num_list(
                    cs@,
                    i + 1,
                    i + 1,
                    ctx.scale,
                    ctx.precision,
                )) =~= out@ + spec_scale_num_list(cs@, i + 1, i + 1, ctx.scale, ctx.precision));
            }
            i = i + 1;
            start = i;
        }
    }
    flush_token(&mut out, &cs, start, cs.len(), ctx);
    chars_to_string(&out)
}

/// Append a buffered token run, scaled where possible.
fn flush_token(out: &mut Vec<char>, s: &Vec<char>, start: usize, end: usize, ctx: &ScaleCtx)
    requires
        start <= end <= s@.len(),
        ctx.wf(),
    ensures
        final(out)@ == old(out)@ + spec_flush_token(
            s@.subrange(start as int, end as int),
            ctx.scale,
            ctx.precision,
        ),
{
    if start == end {
        proof {
            assert(old(out)@ + Seq::<char>::empty() =~= old(out)@);
        }
        return ;
    }
    let tok = crate::path::copy_range(s, start, end);
    match scale_number_token(chars_to_string(&tok).as_str(), ctx) {
        Some(scaled) => {
            crate::err::append_str(out, scaled.as_str());
        },
        None => {
            append_chars(out, &tok);
        },
    }
}

/// Scale every numeric token of a list by the reciprocal of the factor —
/// used for spatial frequencies. A zero factor leaves the value unchanged.
pub fn scale_number_list_inverse(value: &str, ctx: &ScaleCtx) -> (r: String)
    requires
        ctx.wf(),
    ensures
        r@ == if ctx.scale.spec_is_zero() {
            value@
        } else {
            spec_scale_num_list(
                value@,
                0,
                0,
                spec_dec_div(Dec::spec_one(), ctx.scale),
                ctx.precision,
            )
        },
{
    if ctx.scale.is_zero() {
        return value.to_owned();
    }
    let one = Dec::one();
    let inv = dec_div(&one, &ctx.scale);
    let inv_ctx = ScaleCtx { scale: inv, precision: ctx.precision, fix_stroke: ctx.fix_stroke };
    scale_number_list(value, &inv_ctx)
}

/// The scaled text of a single length value: empty, percentage and
/// unsupported-unit values pass through unchanged; a numeric value is
/// multiplied by the factor and re-rendered with its unit. A value that
/// looks numeric but does not parse is an error.
pub open spec fn spec_scale_length(val: Seq<char>, sc: Dec, p: usize) -> Result<Seq<char>, ()> {
    let t = spec_trim_range(val, 0, val.len() as int);
    if t.len() == 0 {
        Ok(val)
    } else {
        let n = spec_num_run(t, 0);
        if n == 0 {
            Ok(val)
        } else {
            let num = t.subrange(0, n);
            let unit = spec_trim_range(t, n, t.len() as int);
            if unit =~= "%"@ {
                Ok(val)
            } else if !spec_is_supported_unit(unit) {
                Ok(val)
            } else {
                match spec_parse_dec(num) {
                    None => Err(()),
                    Some(v) => Ok(spec_fmt_dec(spec_dec_mul(v, sc), p) + unit),
                }
            }
        }
    }
}

/// Scale a single length value.
pub fn scale_length_value(val: &str, ctx: &ScaleCtx) -> (r: Result<String, ScaleError>)
    requires
        ctx.wf(),
    ensures
        match r {
            Ok(out) => spec_scale_length(val@, ctx.scale, ctx.precision) == Ok::<Seq<char>, ()>(
                out@,
            ),
            Err(e) => spec_scale_length(val@, ctx.scale, ctx.precision) is Err && (e matches
                ScaleError::NumericParse { key, raw } && key@ == "length"@ && raw@ == val@),
        },
{
    let cs = str_to_chars(val);
    let t = trim_range(&cs, 0, cs.len());
    proof {
        assert(cs@.subrange(0, cs@.len() as int) =~= cs@);
    }
    if t.len() == 0 {
        return Ok(val.to_owned());
    }
    let n = num_run(&t, 0);
    if n == 0 {
        return Ok(val.to_owned());
    }
    let num = crate::path::copy_range(&t, 0, n);
    let unit = trim_range(&t, n, t.len());
    if chars_eq_lit(&unit, "%") {
        return Ok(val.to_owned());
    }
    let unit_s = chars_to_string(&unit);
    if !is_supported_unit(unit_s.as_str()) {
        return Ok(val.to_owned());
    }
    match crate::num::dec_from_chars(&num) {
        None => Err(
            ScaleError::NumericParse { key: String::from_str("length"), raw: val.to_owned() },
        ),
        Some(v) => {
            let scaled = dec_mul(&v, &ctx.scale);
            let mut out = ctx.fmt_chars(&scaled);
            append_chars(&mut out, &unit);
            proof {
                assert(out@ =~= spec_fmt_dec(spec_dec_mul(v, ctx.scale), ctx.precision) + unit@);
            }
            Ok(chars_to_string(&out))
        },
    }
}

/// The scaled text of a `viewBox`: its white-space-separated numbers each
/// multiplied by the factor and re-rendered, space-joined. A token that
/// does not parse is an error carrying its text.
pub open spec fn spec_scale_viewbox(parts: Seq<Seq<char>>, k: int, sc: Dec, p: usize) -> Result<
    Seq<char>,
    Seq<char>,
>
    decreases parts.len() - k when 0 <= k <= parts.len()
{
    if k >= parts.len() {
        Ok(Seq::empty())
    } else {
        match spec_parse_dec(parts[k]) {
            None => Err(parts[k]),
            Some(v) => {
                let piece = spec_fmt_dec(spec_dec_mul(v, sc), p);
                match spec_scale_viewbox(parts, k + 1, sc, p) {
                    Err(e) => Err(e),
                    Ok(rest) => if k == parts.len() - 1 {
                        Ok(piece)
                    } else {
                        Ok(piece + " "@ + rest)
                    },
                }
            },
        }
    }
}

/// Scale the four (or however many) numbers of a `viewBox` value.
pub fn scale_viewbox(val: &str, ctx: &ScaleCtx) -> (r: Result<String, ScaleError>)
    requires
        ctx.wf(),
    ensures
        ({
            let parts = crate::style::spec_ws_split(val@, 0);
            match r {
                Ok(out) => spec_scale_viewbox(parts, 0, ctx.scale, ctx.precision) == Ok::<
                    Seq<char>,
                    Seq<char>,
                >(out@),
                Err(e) => spec_scale_viewbox(parts, 0, ctx.scale, ctx.precision) is Err && (e
                    matches ScaleError::NumericParse { key, raw } && key@ == "viewBox"@ && raw@
                    == spec_scale_viewbox(parts, 0, ctx.scale, ctx.precision)->Err_0),
            }
        }),
{
    let cs = str_to_chars(val);
    let parts = crate::style::ws_split(&cs);
    let ghost gp = crate::style::spec_ws_split(val@, 0);
    let mut out: Vec<char> = Vec::new();
    let mut k: usize = 0;
    while k < parts.len()
        invariant
            k <= parts@.len(),
            parts@.map_values(|p: Vec<char>| p@) == gp,
            ctx.wf(),
            spec_scale_viewbox(gp, 0, ctx.scale, ctx.precision) == (match spec_scale_viewbox(
                gp,
                k as int,
                ctx.scale,
                ctx.precision,
            ) {
                Ok(t) => Ok::<Seq<char>, Seq<char>>(out@ + t),
                Err(e) => Err(e),
            }),
        decreases parts@.len() - k,
    {
        proof {
            assert(gp[k as int] == parts@[k as int]@);
        }
        match crate::num::dec_from_chars(&parts[k]) {
            None => {
                return Err(
                    ScaleError::NumericParse {
                        key: String::from_str("viewBox"),
                        raw: chars_to_string(&parts[k]),
                    },
                );
            },
            Some(v) => {
                let ghost out0 = out@;
                let scaled = dec_mul(&v, &ctx.scale);
                let piece = ctx.fmt_chars(&scaled);
                append_chars(&mut out, &piece);
                if k + 1 < parts.len() {
                    out.push(' ');
                }
                proof {
                    reveal_strlit(" ");
                    let rest = spec_scale_viewbox(gp, k + 1, ctx.scale, ctx.precision);
                    if rest is Ok {
                        if k + 1 < gp.len() {
                            assert(out@ =~= out0 + (piece@ + " "@));
                            assert(out0 + (piece@ + " "@ + rest->Ok_0) =~= out@ + rest->Ok_0);
                        } else {
                            assert(out@ =~= out0 + piece@);
                            assert(out@ + rest->Ok_0 =~= out@);
                        }
                    }
                }
                k = k + 1;
            },
        }
    }
    proof {
        if gp.len() == 0 {
            assert(out@ + Seq::<char>::empty() =~= out@);
        }
    }
    Ok(chars_to_string(&out))
}

/// What selector matching reads of one element: its tag, its `id`
/// attribute (empty when absent) and its `class` attribute split on white
/// space.
pub struct ElemInfo {
    pub tag: String,
    pub id: String,
    pub classes: Vec<String>,
}

/// The mathematical content of an element's matching data.
pub struct GInfo {
    pub tag: Seq<char>,
    pub id: Seq<char>,
    pub classes: Seq<Seq<char>>,
}

impl ElemInfo {
    /// The mathematical content of this element's matching data.
    pub open spec fn view_g(self) -> GInfo {
        GInfo {
            tag: self.tag@,
            id: self.id@,
            classes: self.classes@.map_values(|c: String| c@),
        }
    }
}

/// The first value under a name in an attribute list.
pub open spec fn spec_attr_of(attrs: Seq<(Seq<char>, Seq<char>)>, name: Seq<char>) -> Option<
    Seq<char>,
>
    decreases attrs.len(),
{
    if attrs.len() == 0 {
        None
    } else if attrs[0].0 == name {
        Some(attrs[0].1)
    } else {
        spec_attr_of(attrs.drop_first(), name)
    }
}

/// Find the first attribute with a name.
pub fn attr_of(attrs: &Vec<(String, String)>, name: &str) -> (r: Option<String>)
    ensures
        match r {
            Some(v) => spec_attr_of(crate::style::props_view(attrs@), name@) == Some(v@),
            None => spec_attr_of(crate::style::props_view(attrs@), name@) is None,
        },
{
    let ghost l = crate::style::props_view(attrs@);
    proof {
        assert(l.skip(0) =~= l);
    }
    let mut k: usize = 0;
    while k < attrs.len()
        invariant
            k <= attrs@.len(),
            l == crate::style::props_view(attrs@),
            spec_attr_of(l.skip(k as int), name@) == spec_attr_of(l, name@),
        decreases attrs@.len() - k,
    {
        proof {
            assert(l.skip(k as int)[0] == l[k as int]);
            assert(l.skip(k as int).drop_first() =~= l.skip(k as int + 1));
        }
        if crate::transform::str_eq(attrs[k].0.as_str(), name) {
            return Some(attrs[k].1.clone());
        }
        k = k + 1;
    }
    proof {
        assert(l.skip(l.len() as int) =~= Seq::<(Seq<char>, Seq<char>)>::empty());
    }
    None
}

/// The matching data of an element: its tag, its `id`, and its class list.
pub fn elem_info(tag: &String, attrs: &Vec<(String, String)>) -> (r: ElemInfo)
    ensures
        r.view_g() == spec_elem_info(tag@, crate::style::props_view(attrs@)),
{
    let id = match attr_of(attrs, "id") {
        Some(v) => v,
        None => String::from_str(""),
    };
    let class_attr = match attr_of(attrs, "class") {
        Some(v) => v,
        None => String::from_str(""),
    };
    let cs = str_to_chars(class_attr.as_str());
    let parts = crate::style::ws_split(&cs);
    let mut classes: Vec<String> = Vec::new();
    let mut k: usize = 0;
    while k < parts.len()
        invariant
            k <= parts@.len(),
            classes@.map_values(|c: String| c@) == parts@.map_values(|p: Vec<char>| p@).take(
                k as int,
            ),
        decreases parts@.len() - k,
    {
        proof {
            assert(parts@.map_values(|p: Vec<char>| p@)[k as int] == parts@[k as int]@);
        }
        classes.push(chars_to_string(&parts[k]));
        k = k + 1;
        proof {
            assert(classes@.map_values(|c: String| c@) =~= parts@.map_values(
                |p: Vec<char>| p@,
            ).take(k as int));
        }
    }
    proof {
        reveal_strlit("");
        assert(""@ =~= Seq::<char>::empty());
        assert(parts@.map_values(|p: Vec<char>| p@).take(parts@.len() as int) =~= parts@.map_values(
            |p: Vec<char>| p@,
        ));
        assert(spec_empty_when_absent(crate::style::props_view(attrs@), "id"@) == id@);
        assert(spec_empty_when_absent(crate::style::props_view(attrs@), "class"@) == class_attr@);
    }
    ElemInfo { tag: tag.clone(), id, classes }
}

/// An attribute's value, or the empty string when absent.
pub open spec fn spec_empty_when_absent(
    attrs: Seq<(Seq<char>, Seq<char>)>,
    name: Seq<char>,
) -> Seq<char> {
    match spec_attr_of(attrs, name) {
        Some(v) => v,
        None => Seq::empty(),
    }
}

/// The matching data of an element, in spec position.
pub open spec fn spec_elem_info(tag: Seq<char>, attrs: Seq<(Seq<char>, Seq<char>)>) -> GInfo {
    GInfo {
        tag,
        id: spec_empty_when_absent(attrs, "id"@),
        classes: crate::style::spec_ws_split(spec_empty_when_absent(attrs, "class"@), 0),
    }
}

/// Whether one simple selector matches an element: the tag where named,
/// the id where named, and every named class present in the element's
/// class list.
pub open spec fn spec_matches_simple(sel: crate::style::GSimple, info: GInfo) -> bool {
    &&& match sel.element {
        Some(e) => e == info.tag,
        None => true,
    }
    &&& match sel.id {
        Some(e) => e == info.id,
        None => true,
    }
    &&& forall|k: int|
        0 <= k < sel.classes.len() ==> info.classes.contains(#[trigger] sel.classes[k])
}

/// Whether one simple selector matches an element.
pub fn matches_simple_selector(sel: &crate::style::SimpleSelector, info: &ElemInfo) -> (r: bool)
    ensures
        r == spec_matches_simple(sel.view_g(), info.view_g()),
{
    match &sel.element {
        Some(e) => {
            if !crate::transform::str_eq(e.as_str(), info.tag.as_str()) {
                return false;
            }
        },
        None => {},
    }
    match &sel.id {
        Some(e) => {
            if !crate::transform::str_eq(e.as_str(), info.id.as_str()) {
                return false;
            }
        },
        None => {},
    }
    let gsel = &sel.classes;
    let mut k: usize = 0;
    while k < gsel.len()
        invariant
            k <= gsel@.len(),
            gsel@ == sel.classes@,
            forall|j: int|
                0 <= j < k ==> info.view_g().classes.contains(
                    #[trigger] sel.view_g().classes[j],
                ),
        decreases gsel@.len() - k,
    {
        let mut found = false;
        let mut m: usize = 0;
        while m < info.classes.len() && !found
            invariant
                m <= info.classes@.len(),
                found ==> exists|x: int|
                    0 <= x < info.classes@.len() && info.view_g().classes[x] == sel.view_g(
                    ).classes[k as int],
                !found ==> forall|x: int|
                    0 <= x < m ==> #[trigger] info.view_g().classes[x] != sel.view_g().classes[k as int],
            decreases info.classes@.len() - m + (if found {
                0int
            } else {
                1int
            }),
        {
            if crate::transform::str_eq(info.classes[m].as_str(), gsel[k].as_str()) {
                proof {
                    assert(info.view_g().classes[m as int] == info.classes@[m as int]@);
                    assert(sel.view_g().classes[k as int] == sel.classes@[k as int]@);
                }
                found = true;
            } else {
                m = m + 1;
            }
        }
        if !found {
            proof {
                assert(!info.view_g().classes.contains(sel.view_g().classes[k as int]));
            }
            return false;
        }
        k = k + 1;
    }
    true
}

/// Whether a full selector matches an element in its ancestry: the target
/// must match the element; a child relation asks the immediate parent, a
/// descendant relation some strict ancestor.
pub open spec fn spec_matches(
    sel: crate::style::GSelector,
    info: GInfo,
    ancestors: Seq<GInfo>,
) -> bool {
    &&& spec_matches_simple(sel.target, info)
    &&& match sel.ancestor {
        None => true,
        Some(anc) => {
            if sel.relation == Some(crate::style::SelectorRelation::Child) {
                ancestors.len() > 0 && spec_matches_simple(anc, ancestors.last())
            } else {
                exists|k: int|
                    0 <= k < ancestors.len() && spec_matches_simple(anc, #[trigger] ancestors[k])
            }
        },
    }
}

/// The mathematical content of an ancestor chain.
pub open spec fn infos_view(l: Seq<ElemInfo>) -> Seq<GInfo> {
    l.map_values(|e: ElemInfo| e.view_g())
}

/// Whether a full selector matches an element under its ancestors (nearest
/// ancestor last).
pub fn matches_selector(
    sel: &crate::style::StyleSelector,
    info: &ElemInfo,
    ancestors: &Vec<ElemInfo>,
) -> (r: bool)
    ensures
        r == spec_matches(sel.view_g(), info.view_g(), infos_view(ancestors@)),
{
    if !matches_simple_selector(&sel.target, info) {
        return false;
    }
    match &sel.ancestor {
        None => true,
        Some(anc) => {
            let child = match sel.relation {
                Some(crate::style::SelectorRelation::Child) => true,
                _ => false,
            };
            if child {
                if ancestors.len() == 0 {
                    return false;
                }
                proof {
                    assert(infos_view(ancestors@).last() == ancestors@.last().view_g());
                }
                matches_simple_selector(anc, &ancestors[ancestors.len() - 1])
            } else {
                let mut k: usize = 0;
                while k < ancestors.len()
                    invariant
                        k <= ancestors@.len(),
                        forall|j: int|
                            0 <= j < k ==> !spec_matches_simple(
                                sel.view_g().ancestor->0,
                                #[trigger] infos_view(ancestors@)[j],
                            ),
                    decreases ancestors@.len() - k,
                {
                    proof {
                        assert(infos_view(ancestors@)[k as int] == ancestors@[k as int].view_g());
                    }
                    if matches_simple_selector(anc, &ancestors[k]) {
                        return true;
                    }
                    k = k + 1;
                }
                false
            }
        },
    }
}

/// What the cascade keeps of a matched rule: its two sort keys and its
/// declarations.
pub struct GMatched {
    pub specificity: nat,
    pub order: nat,
    pub props: Seq<(Seq<char>, Seq<char>)>,
}

/// The rules whose selectors match an element, in source order, reduced to
/// their sort keys and declarations.
pub open spec fn spec_matched(
    rules: Seq<crate::style::GRule>,
    k: int,
    info: GInfo,
    ancestors: Seq<GInfo>,
) -> Seq<GMatched>
    decreases rules.len() - k when 0 <= k <= rules.len()
{
    if k >= rules.len() {
        Seq::empty()
    } else {
        let head: Seq<GMatched> = if spec_matches(rules[k].selector, info, ancestors) {
            seq![
                GMatched {
                    specificity: rules[k].specificity,
                    order: rules[k].order,
                    props: rules[k].props,
                },
            ]
        } else {
            Seq::empty()
        };
        head + spec_matched(rules, k + 1, info, ancestors)
    }
}

/// The cascade's ordering: lower specificity first, then lower source
/// order.
pub open spec fn spec_rule_le(a: GMatched, b: GMatched) -> bool {
    a.specificity < b.specificity || (a.specificity == b.specificity && a.order <= b.order)
}

/// Insert a matched rule behind every entry that does not come after it:
/// a stable insertion.
pub open spec fn spec_insert_rule(sorted: Seq<GMatched>, r: GMatched) -> Seq<GMatched>
    decreases sorted.len(),
{
    if sorted.len() > 0 && !spec_rule_le(sorted.last(), r) {
        spec_insert_rule(sorted.drop_last(), r).push(sorted.last())
    } else {
        sorted.push(r)
    }
}

/// The matched rules sorted by specificity, then source order, stably.
pub open spec fn spec_sort_rules(l: Seq<GMatched>) -> Seq<GMatched>
    decreases l.len(),
{
    if l.len() == 0 {
        Seq::empty()
    } else {
        spec_insert_rule(spec_sort_rules(l.drop_last()), l.last())
    }
}

/// The declarations of a sorted rule list merged in order: later, more
/// specific declarations overwrite earlier ones for the same key.
pub open spec fn spec_merge_all(
    sorted: Seq<GMatched>,
    k: int,
    acc: Seq<(Seq<char>, Seq<char>)>,
) -> Seq<(Seq<char>, Seq<char>)>
    decreases sorted.len() - k when 0 <= k <= sorted.len()
{
    if k >= sorted.len() {
        acc
    } else {
        spec_merge_all(sorted, k + 1, crate::style::spec_merge_props(acc, sorted[k].props, 0))
    }
}

/// The cascade-resolved declarations of an element: every matching rule's
/// declarations, merged in specificity-then-order sequence.
pub open spec fn spec_collect(
    rules: Seq<crate::style::GRule>,
    info: GInfo,
    ancestors: Seq<GInfo>,
) -> Seq<(Seq<char>, Seq<char>)> {
    spec_merge_all(spec_sort_rules(spec_matched(rules, 0, info, ancestors)), 0, Seq::empty())
}

/// One matched rule as the cascade sorts it.
struct Matched {
    specificity: u32,
    order: u32,
    props: Vec<(String, String)>,
}

impl Matched {
    spec fn view_g(self) -> GMatched {
        GMatched {
            specificity: self.specificity as nat,
            order: self.order as nat,
            props: crate::style::props_view(self.props@),
        }
    }
}

spec fn matched_view(l: Seq<Matched>) -> Seq<GMatched> {
    l.map_values(|m: Matched| m.view_g())
}

/// Inserting where everything from `idx` on comes after the new entry and
/// the entry before `idx` does not is the stable insertion.
proof fn lemma_insert_at(sorted: Seq<GMatched>, r: GMatched, idx: int)
    requires
        0 <= idx <= sorted.len(),
        forall|j: int| idx <= j < sorted.len() ==> !spec_rule_le(#[trigger] sorted[j], r),
        idx > 0 ==> spec_rule_le(sorted[idx - 1], r),
    ensures
        spec_insert_rule(sorted, r) == sorted.take(idx) + seq![r] + sorted.skip(idx),
    decreases sorted.len(),
{
    if idx < sorted.len() {
        lemma_insert_at(sorted.drop_last(), r, idx);
        assert(sorted.drop_last().take(idx) =~= sorted.take(idx));
        assert(spec_insert_rule(sorted, r) =~= sorted.take(idx) + seq![r] + sorted.skip(idx));
    } else {
        assert(sorted.take(idx) =~= sorted);
        assert(spec_insert_rule(sorted, r) =~= sorted.take(idx) + seq![r] + sorted.skip(idx));
    }
}

/// Collect the declarations that the stylesheet contributes to one
/// element: every rule whose selector matches, sorted by specificity then
/// source order, merged in that sequence.
pub fn collect_matching_style_props(
    rules: &Vec<crate::style::StyleRule>,
    info: &ElemInfo,
    ancestors: &Vec<ElemInfo>,
) -> (r: Vec<(String, String)>)
    ensures
        crate::style::props_view(r@) == spec_collect(
            crate::style::rules_view(rules@),
            info.view_g(),
            infos_view(ancestors@),
        ),
{
    let ghost grules = crate::style::rules_view(rules@);
    let ghost ginfo = info.view_g();
    let ghost gancs = infos_view(ancestors@);
    let mut sorted: Vec<Matched> = Vec::new();
    let mut k: usize = 0;
    proof {
        assert(matched_view(sorted@) =~= Seq::<GMatched>::empty());
        assert(spec_sort_rules(spec_matched(grules, 0, ginfo, gancs).take(0)) =~= Seq::<
            GMatched,
        >::empty());
    }
    while k < rules.len()
        invariant
            k <= rules@.len(),
            grules == crate::style::rules_view(rules@),
            ginfo == info.view_g(),
            gancs == infos_view(ancestors@),
            matched_view(sorted@) == spec_sort_rules(
                spec_matched(grules, 0, ginfo, gancs).take(
                    spec_matched(grules, 0, ginfo, gancs).len() - spec_matched(
                        grules,
                        k as int,
                        ginfo,
                        gancs,
                    ).len(),
                ),
            ),
        decreases rules@.len() - k,
    {
        proof {
            assert(grules[k as int] == rules@[k as int].view_g());
            lemma_matched_suffix(grules, k as int, ginfo, gancs);
            lemma_matched_suffix(grules, k as int + 1, ginfo, gancs);
        }
        if matches_selector(&rules[k].selector, info, ancestors) {
            let m = Matched {
                specificity: rules[k].specificity,
                order: rules[k].order,
                props: crate::style::clone_props(&rules[k].props),
            };
            let mut idx = sorted.len();
            while idx > 0 && rule_gt(&sorted[idx - 1], &m)
                invariant
                    idx <= sorted@.len(),
                    forall|j: int|
                        idx <= j < sorted@.len() ==> !spec_rule_le(
                            #[trigger] matched_view(sorted@)[j],
                            m.view_g(),
                        ),
                decreases idx,
            {
                proof {
                    assert(matched_view(sorted@)[idx - 1] == sorted@[idx - 1].view_g());
                }
                idx = idx - 1;
            }
            proof {
                if idx > 0 {
                    assert(matched_view(sorted@)[idx - 1] == sorted@[idx - 1].view_g());
                }
                lemma_insert_at(matched_view(sorted@), m.view_g(), idx as int);
            }
            let ghost sorted0 = matched_view(sorted@);
            sorted.insert(idx, m);
            proof {
                assert(matched_view(sorted@) =~= sorted0.take(idx as int) + seq![m.view_g()]
                    + sorted0.skip(idx as int));
                let full = spec_matched(grules, 0, ginfo, gancs);
                let restk = spec_matched(grules, k as int, ginfo, gancs);
                let restk1 = spec_matched(grules, k as int + 1, ginfo, gancs);
                assert(restk1.len() < restk.len());
                let x = full.len() - restk.len();
                assert(full.take(x + 1) =~= full.take(x).push(full[x]));
                assert(full[x] == full.skip(x)[0]);
                assert(full[x] == m.view_g());
                let pre = full.take(x);
                assert(pre.push(m.view_g()).drop_last() =~= pre);
                assert(spec_sort_rules(pre.push(m.view_g())) == spec_insert_rule(
                    spec_sort_rules(pre),
                    m.view_g(),
                ));
            }
        } else {
            proof {
                let restk = spec_matched(grules, k as int, ginfo, gancs);
                let restk1 = spec_matched(grules, k as int + 1, ginfo, gancs);
                assert(restk =~= restk1);
            }
        }
        k = k + 1;
    }
    proof {
        let full = spec_matched(grules, 0, ginfo, gancs);
        assert(full.take(full.len() - spec_matched(grules, rules@.len() as int, ginfo, gancs).len())
            =~= full);
    }
    let mut merged: Vec<(String, String)> = Vec::new();
    let mut j: usize = 0;
    proof {
        assert(crate::style::props_view(merged@) =~= Seq::<(Seq<char>, Seq<char>)>::empty());
    }
    while j < sorted.len()
        invariant
            j <= sorted@.len(),
            matched_view(sorted@) == spec_sort_rules(spec_matched(grules, 0, ginfo, gancs)),
            spec_merge_all(matched_view(sorted@), j as int, crate::style::props_view(merged@))
                == spec_collect(grules, ginfo, gancs),
        decreases sorted@.len() - j,
    {
        proof {
            assert(matched_view(sorted@)[j as int] == sorted@[j as int].view_g());
        }
        crate::style::merge_style_props(&mut merged, &sorted[j].props);
        j = j + 1;
    }
    merged
}

/// Whether the first rule comes strictly after the second.
fn rule_gt(a: &Matched, b: &Matched) -> (r: bool)
    ensures
        r == !spec_rule_le(a.view_g(), b.view_g()),
{
    a.specificity > b.specificity || (a.specificity == b.specificity && a.order > b.order)
}

/// The rules matched from `k` on are a suffix of those matched from the
/// start.
proof fn lemma_matched_suffix(
    rules: Seq<crate::style::GRule>,
    k: int,
    info: GInfo,
    ancestors: Seq<GInfo>,
)
    requires
        0 <= k <= rules.len(),
    ensures
        ({
            let full = spec_matched(rules, 0, info, ancestors);
            let restk = spec_matched(rules, k, info, ancestors);
            restk.len() <= full.len() && full.skip(full.len() - restk.len()) == restk
        }),
    decreases k,
{
    let full = spec_matched(rules, 0, info, ancestors);
    if k == 0 {
        assert(full.skip(0) =~= full);
    } else {
        lemma_matched_suffix(rules, k - 1, info, ancestors);
        let r0 = spec_matched(rules, k - 1, info, ancestors);
        let r1 = spec_matched(rules, k, info, ancestors);
        assert(full.skip(full.len() - r1.len()) =~= full.skip(full.len() - r0.len()).skip(
            r0.len() - r1.len(),
        ));
        assert(r0.skip(r0.len() - r1.len()) =~= r1);
    }
}

/// The attribute keys that carry a single scalable length.
pub open spec fn spec_is_length_attr(k: Seq<char>) -> bool {
    ||| k == "stroke-width"@
    ||| k == "width"@
    ||| k == "height"@
    ||| k == "x"@
    ||| k == "y"@
    ||| k == "z"@
    ||| k == "cx"@
    ||| k == "cy"@
    ||| k == "r"@
    ||| k == "rx"@
    ||| k == "ry"@
    ||| k == "x1"@
    ||| k == "y1"@
    ||| k == "x2"@
    ||| k == "y2"@
    ||| k == "font-size"@
    ||| k == "letter-spacing"@
    ||| k == "stroke-dashoffset"@
    ||| k == "fx"@
    ||| k == "fy"@
    ||| k == "dx"@
    ||| k == "dy"@
    ||| k == "markerWidth"@
    ||| k == "markerHeight"@
    ||| k == "refX"@
    ||| k == "refY"@
    ||| k == "surfaceScale"@
    ||| k == "pointsAtX"@
    ||| k == "pointsAtY"@
    ||| k == "pointsAtZ"@
}

/// Whether an attribute key carries a single scalable length.
pub fn is_length_attr(k: &str) -> (r: bool)
    ensures
        r == spec_is_length_attr(k@),
{
    crate::transform::str_eq(k, "stroke-width") || crate::transform::str_eq(k, "width")
        || crate::transform::str_eq(k, "height") || crate::transform::str_eq(k, "x")
        || crate::transform::str_eq(k, "y") || crate::transform::str_eq(k, "z")
        || crate::transform::str_eq(k, "cx") || crate::transform::str_eq(k, "cy")
        || crate::transform::str_eq(k, "r") || crate::transform::str_eq(k, "rx")
        || crate::transform::str_eq(k, "ry") || crate::transform::str_eq(k, "x1")
        || crate::transform::str_eq(k, "y1") || crate::transform::str_eq(k, "x2")
        || crate::transform::str_eq(k, "y2") || crate::transform::str_eq(k, "font-size")
        || crate::transform::str_eq(k, "letter-spacing") || crate::transform::str_eq(
        k,
        "stroke-dashoffset",
    ) || crate::transform::str_eq(k, "fx") || crate::transform::str_eq(k, "fy")
        || crate::transform::str_eq(k, "dx") || crate::transform::str_eq(k, "dy")
        || crate::transform::str_eq(k, "markerWidth") || crate::transform::str_eq(
        k,
        "markerHeight",
    ) || crate::transform::str_eq(k, "refX") || crate::transform::str_eq(k, "refY")
        || crate::transform::str_eq(k, "surfaceScale") || crate::transform::str_eq(k, "pointsAtX")
        || crate::transform::str_eq(k, "pointsAtY") || crate::transform::str_eq(k, "pointsAtZ")
}

/// The style keys that carry a single scalable length (the attribute set
/// without the gradient focal points).
pub open spec fn spec_is_length_style(k: Seq<char>) -> bool {
    spec_is_length_attr(k) && k != "fx"@ && k != "fy"@
}

/// Whether a style key carries a single scalable length.
pub fn is_length_style(k: &str) -> (r: bool)
    ensures
        r == spec_is_length_style(k@),
{
    is_length_attr(k) && !crate::transform::str_eq(k, "fx") && !crate::transform::str_eq(k, "fy")
}

/// The attribute keys that carry a list of scalable numbers.
pub open spec fn spec_is_list_attr(k: Seq<char>) -> bool {
    k == "stroke-dasharray"@ || k == "stdDeviation"@ || k == "radius"@ || k == "scale"@ || k
        == "kernelUnitLength"@
}

/// Whether an attribute key carries a list of scalable numbers.
pub fn is_list_attr(k: &str) -> (r: bool)
    ensures
        r == spec_is_list_attr(k@),
{
    crate::transform::str_eq(k, "stroke-dasharray") || crate::transform::str_eq(k, "stdDeviation")
        || crate::transform::str_eq(k, "radius") || crate::transform::str_eq(k, "scale")
        || crate::transform::str_eq(k, "kernelUnitLength")
}

/// Whether a value is the word `none`, case-insensitively, around white
/// space.
pub open spec fn spec_is_none_word(v: Seq<char>) -> bool {
    let t = spec_trim_range(v, 0, v.len() as int);
    t.len() == 4 && (t[0] == 'n' || t[0] == 'N') && (t[1] == 'o' || t[1] == 'O') && (t[2] == 'n'
        || t[2] == 'N') && (t[3] == 'e' || t[3] == 'E')
}

/// Whether a value is the word `none`, case-insensitively.
pub fn is_none_word(v: &str) -> (r: bool)
    ensures
        r == spec_is_none_word(v@),
{
    let cs = str_to_chars(v);
    let t = trim_range(&cs, 0, cs.len());
    proof {
        assert(cs@.subrange(0, cs@.len() as int) =~= cs@);
    }
    t.len() == 4 && (t[0] == 'n' || t[0] == 'N') && (t[1] == 'o' || t[1] == 'O') && (t[2] == 'n'
        || t[2] == 'N') && (t[3] == 'e' || t[3] == 'E')
}

/// What one attribute value is rewritten to, given the context and the
/// node's exemption flags — or the failure that rules any rewrite out.
#[verifier::opaque]
pub open spec fn spec_attr_out(
    k: Seq<char>,
    v: Seq<char>,
    sc: Dec,
    p: usize,
    fix: bool,
    exempt: bool,
    skip_self: bool,
    nss: bool,
) -> Result<Seq<char>, crate::err::GCause> {
    if k == "d"@ {
        if exempt {
            Ok(v)
        } else {
            match crate::path::spec_scale_run(v, 0, None, 0, sc, p) {
                Ok(o) => Ok(o),
                Err(pos) => Err(
                    crate::err::GCause::GPathGrammar {
                        offset: crate::path::spec_byte_off(v, pos),
                        char_offset: pos as nat,
                        snippet: crate::path::spec_snippet(v, pos),
                        reason: crate::path::spec_classify_at(v, pos),
                    },
                ),
            }
        }
    } else if spec_is_length_attr(k) {
        if exempt {
            Ok(v)
        } else if k == "stroke-width"@ && nss && !fix {
            Ok(v)
        } else {
            match spec_scale_length(v, sc, p) {
                Ok(o) => Ok(o),
                Err(_) => Err(crate::err::GCause::GNumericParse { key: k, raw: v }),
            }
        }
    } else if spec_is_list_attr(k) {
        if exempt {
            Ok(v)
        } else if spec_is_none_word(v) {
            Ok(v)
        } else {
            Ok(spec_scale_num_list(v, 0, 0, sc, p))
        }
    } else if k == "baseFrequency"@ {
        if exempt {
            Ok(v)
        } else if sc.spec_is_zero() {
            Ok(v)
        } else {
            Ok(spec_scale_num_list(v, 0, 0, spec_dec_div(Dec::spec_one(), sc), p))
        }
    } else if k == "gradientTransform"@ || k == "patternTransform"@ {
        if skip_self {
            Ok(v)
        } else {
            crate::transform::spec_tf_out(v, sc, p)
        }
    } else if k == "viewBox"@ {
        match spec_scale_viewbox(crate::style::spec_ws_split(v, 0), 0, sc, p) {
            Ok(o) => Ok(o),
            Err(tok) => Err(crate::err::GCause::GNumericParse { key: "viewBox"@, raw: tok }),
        }
    } else if k == "transform"@ {
        crate::transform::spec_tf_out(v, sc, p)
    } else {
        Ok(v)
    }
}

/// Rewrite one attribute value.
fn scale_attr_value(
    k: &String,
    v: &String,
    ctx: &ScaleCtx,
    exempt: bool,
    skip_self: bool,
    nss: bool,
) -> (r: Result<String, ScaleError>)
    requires
        ctx.wf(),
    ensures
        ({
            let spec = spec_attr_out(
                k@,
                v@,
                ctx.scale,
                ctx.precision,
                ctx.fix_stroke,
                exempt,
                skip_self,
                nss,
            );
            match r {
                Ok(nv) => spec == Ok::<Seq<char>, crate::err::GCause>(nv@),
                Err(e) => spec == Err::<Seq<char>, crate::err::GCause>(e.view_g()),
            }
        }),
{
    proof {
        reveal(spec_attr_out);
    }
    if crate::transform::str_eq(k.as_str(), "d") {
        if exempt {
            Ok(v.clone())
        } else {
            crate::path::scale_path(v.as_str(), ctx)
        }
    } else if is_length_attr(k.as_str()) {
        if exempt {
            Ok(v.clone())
        } else if crate::transform::str_eq(k.as_str(), "stroke-width") && nss && !ctx.fix_stroke {
            Ok(v.clone())
        } else {
            match scale_length_value(v.as_str(), ctx) {
                Ok(nv) => Ok(nv),
                Err(_) => Err(ScaleError::NumericParse { key: k.clone(), raw: v.clone() }),
            }
        }
    } else if is_list_attr(k.as_str()) {
        if exempt {
            Ok(v.clone())
        } else if is_none_word(v.as_str()) {
            Ok(v.clone())
        } else {
            Ok(scale_number_list(v.as_str(), ctx))
        }
    } else if crate::transform::str_eq(k.as_str(), "baseFrequency") {
        if exempt {
            Ok(v.clone())
        } else {
            Ok(scale_number_list_inverse(v.as_str(), ctx))
        }
    } else if crate::transform::str_eq(k.as_str(), "gradientTransform")
        || crate::transform::str_eq(k.as_str(), "patternTransform") {
        if skip_self {
            Ok(v.clone())
        } else {
            crate::transform::scale_transform_value(v.as_str(), &ctx.scale, ctx.precision)
        }
    } else if crate::transform::str_eq(k.as_str(), "viewBox") {
        scale_viewbox(v.as_str(), ctx)
    } else if crate::transform::str_eq(k.as_str(), "transform") {
        crate::transform::scale_transform_value(v.as_str(), &ctx.scale, ctx.precision)
    } else {
        Ok(v.clone())
    }
}

/// What one style declaration is rewritten to: like an attribute, except
/// that the transform property is always scaled, the focal-point keys are
/// not style properties, and lists other than the dash array have no
/// `none` escape.
#[verifier::opaque]
pub open spec fn spec_style_out(
    k: Seq<char>,
    v: Seq<char>,
    sc: Dec,
    p: usize,
    fix: bool,
    skip: bool,
    nss: bool,
) -> Result<Seq<char>, crate::err::GCause> {
    if k == "transform"@ {
        crate::transform::spec_tf_out(v, sc, p)
    } else if spec_is_length_style(k) {
        if skip {
            Ok(v)
        } else if k == "stroke-width"@ && nss && !fix {
            Ok(v)
        } else {
            match spec_scale_length(v, sc, p) {
                Ok(o) => Ok(o),
                Err(_) => Err(crate::err::GCause::GNumericParse { key: k, raw: v }),
            }
        }
    } else if k == "stroke-dasharray"@ {
        if skip {
            Ok(v)
        } else if spec_is_none_word(v) {
            Ok(v)
        } else {
            Ok(spec_scale_num_list(v, 0, 0, sc, p))
        }
    } else if k == "stdDeviation"@ || k == "radius"@ || k == "kernelUnitLength"@ {
        if skip {
            Ok(v)
        } else {
            Ok(spec_scale_num_list(v, 0, 0, sc, p))
        }
    } else if k == "baseFrequency"@ {
        if skip {
            Ok(v)
        } else if sc.spec_is_zero() {
            Ok(v)
        } else {
            Ok(spec_scale_num_list(v, 0, 0, spec_dec_div(Dec::spec_one(), sc), p))
        }
    } else {
        Ok(v)
    }
}

/// Rewrite one style declaration's value.
pub fn scale_style_value(
    key: &String,
    val: &String,
    ctx: &ScaleCtx,
    skip_scale: bool,
    has_non_scaling_stroke: bool,
) -> (r: Result<String, ScaleError>)
    requires
        ctx.wf(),
    ensures
        ({
            let spec = spec_style_out(
                key@,
                val@,
                ctx.scale,
                ctx.precision,
                ctx.fix_stroke,
                skip_scale,
                has_non_scaling_stroke,
            );
            match r {
                Ok(nv) => spec == Ok::<Seq<char>, crate::err::GCause>(nv@),
                Err(e) => spec == Err::<Seq<char>, crate::err::GCause>(e.view_g()),
            }
        }),
{
    proof {
        reveal(spec_style_out);
    }
    if crate::transform::str_eq(key.as_str(), "transform") {
        crate::transform::scale_transform_value(val.as_str(), &ctx.scale, ctx.precision)
    } else if is_length_style(key.as_str()) {
        if skip_scale {
            Ok(val.clone())
        } else if crate::transform::str_eq(key.as_str(), "stroke-width") && has_non_scaling_stroke
            && !ctx.fix_stroke {
            Ok(val.clone())
        } else {
            match scale_length_value(val.as_str(), ctx) {
                Ok(nv) => Ok(nv),
                Err(_) => Err(ScaleError::NumericParse { key: key.clone(), raw: val.clone() }),
            }
        }
    } else if crate::transform::str_eq(key.as_str(), "stroke-dasharray") {
        if skip_scale {
            Ok(val.clone())
        } else if is_none_word(val.as_str()) {
            Ok(val.clone())
        } else {
            Ok(scale_number_list(val.as_str(), ctx))
        }
    } else if crate::transform::str_eq(key.as_str(), "stdDeviation") || crate::transform::str_eq(
        key.as_str(),
        "radius",
    ) || crate::transform::str_eq(key.as_str(), "kernelUnitLength") {
        if skip_scale {
            Ok(val.clone())
        } else {
            Ok(scale_number_list(val.as_str(), ctx))
        }
    } else if crate::transform::str_eq(key.as_str(), "baseFrequency") {
        if skip_scale {
            Ok(val.clone())
        } else {
            Ok(scale_number_list_inverse(val.as_str(), ctx))
        }
    } else {
        Ok(val.clone())
    }
}

/// The unit-defining attribute value of an element, per its tag.
pub open spec fn spec_units_attr(tag: Seq<char>, attrs: Seq<(Seq<char>, Seq<char>)>) -> Option<
    Seq<char>,
> {
    if tag == "clipPath"@ {
        spec_attr_of(attrs, "clipPathUnits"@)
    } else if tag == "mask"@ {
        spec_attr_of(attrs, "maskUnits"@)
    } else if tag == "linearGradient"@ || tag == "radialGradient"@ {
        spec_attr_of(attrs, "gradientUnits"@)
    } else if tag == "pattern"@ {
        spec_attr_of(attrs, "patternUnits"@)
    } else if tag == "filter"@ {
        spec_attr_of(attrs, "filterUnits"@)
    } else if tag == "marker"@ {
        spec_attr_of(attrs, "markerUnits"@)
    } else {
        None
    }
}

/// Whether an element's own geometry is exempt from scaling because its
/// coordinate system is relative to an object's bounding box — or, for a
/// marker, relative to the stroke width (its default).
pub open spec fn spec_units_exempt(tag: Seq<char>, attrs: Seq<(Seq<char>, Seq<char>)>) -> bool {
    let ua = spec_units_attr(tag, attrs);
    (ua == Some("objectBoundingBox"@)) || (tag == "marker"@ && (ua == Some("strokeWidth"@) || ua
        is None))
}

/// Whether an element's content-units attribute exempts its descendants.
pub open spec fn spec_content_exempt(tag: Seq<char>, attrs: Seq<(Seq<char>, Seq<char>)>) -> bool {
    if tag == "pattern"@ {
        spec_attr_of(attrs, "patternContentUnits"@) == Some("objectBoundingBox"@)
    } else if tag == "filter"@ {
        spec_attr_of(attrs, "primitiveUnits"@) == Some("objectBoundingBox"@)
    } else if tag == "marker"@ {
        spec_attr_of(attrs, "markerUnits"@) == Some("strokeWidth"@)
    } else {
        false
    }
}

/// Whether an element asks for a non-scaling stroke, by attribute or by
/// resolved style.
pub open spec fn spec_nss(
    attrs: Seq<(Seq<char>, Seq<char>)>,
    merged: Seq<(Seq<char>, Seq<char>)>,
) -> bool {
    spec_attr_of(attrs, "vector-effect"@) == Some("non-scaling-stroke"@) || exists|k: int|
        0 <= k < merged.len() && (#[trigger] merged[k]).0 == "vector-effect"@ && merged[k].1
            == "non-scaling-stroke"@
}

/// Whether an element's own transforms (attribute or resolved style)
/// contain a non-translate function; a transform that does not parse is
/// the failure, the attribute's before the style's.
pub open spec fn spec_node_nt(
    attrs: Seq<(Seq<char>, Seq<char>)>,
    merged: Seq<(Seq<char>, Seq<char>)>,
) -> Result<bool, crate::err::GCause> {
    let has_t = spec_attr_of(attrs, "transform"@) is Some || spec_attr_of(merged, "transform"@)
        is Some;
    if !has_t {
        Ok(false)
    } else {
        let tv = spec_empty_when_absent(attrs, "transform"@);
        let sv = spec_empty_when_absent(merged, "transform"@);
        if tv.len() > 0 && crate::transform::spec_parse_tf(tv) is None {
            Err(crate::err::GCause::GTransformParse { raw: tv })
        } else if sv.len() > 0 && crate::transform::spec_parse_tf(sv) is None {
            Err(crate::err::GCause::GTransformParse { raw: sv })
        } else {
            let a = tv.len() > 0 && !crate::transform::spec_all_translate(
                crate::transform::spec_parse_tf(tv)->0,
            );
            let b = sv.len() > 0 && !crate::transform::spec_all_translate(
                crate::transform::spec_parse_tf(sv)->0,
            );
            Ok(a || b)
        }
    }
}

/// The value under a key in a property list, or the empty string.
fn prop_or_empty(props: &Vec<(String, String)>, name: &str) -> (r: String)
    ensures
        r@ == spec_empty_when_absent(crate::style::props_view(props@), name@),
        (spec_attr_of(crate::style::props_view(props@), name@) is Some) == (r@.len() > 0)
            || spec_attr_of(crate::style::props_view(props@), name@) == Some(Seq::<char>::empty()),
{
    match attr_of(props, name) {
        Some(v) => v,
        None => {
            proof {
                reveal_strlit("");
                assert(""@ =~= Seq::<char>::empty());
            }
            String::from_str("")
        },
    }
}

/// Whether the element's own transforms contain a non-translate function.
fn node_non_translate(
    attrs: &Vec<(String, String)>,
    merged: &Vec<(String, String)>,
    tag: &String,
    id: &String,
) -> (r: Result<bool, WalkError>)
    ensures
        ({
            let spec = spec_node_nt(
                crate::style::props_view(attrs@),
                crate::style::props_view(merged@),
            );
            match r {
                Ok(b) => spec == Ok::<bool, crate::err::GCause>(b),
                Err(we) => spec == Err::<bool, crate::err::GCause>(we.cause.view_g()) && we.tag@
                    == tag@ && we.id@ == id@,
            }
        }),
{
    let has_attr_t = match attr_of(attrs, "transform") {
        Some(_) => true,
        None => false,
    };
    let has_style_t = match attr_of(merged, "transform") {
        Some(_) => true,
        None => false,
    };
    if !has_attr_t && !has_style_t {
        return Ok(false);
    }
    let tv = prop_or_empty(attrs, "transform");
    let sv = prop_or_empty(merged, "transform");
    let mut any = false;
    if tv.as_str().unicode_len() > 0 {
        match crate::transform::has_non_translate_transform(tv.as_str()) {
            Ok(b) => {
                any = b;
            },
            Err(e) => {
                return Err(WalkError { tag: tag.clone(), id: id.clone(), cause: e });
            },
        }
    }
    if sv.as_str().unicode_len() > 0 {
        match crate::transform::has_non_translate_transform(sv.as_str()) {
            Ok(b) => {
                any = any || b;
            },
            Err(e) => {
                return Err(WalkError { tag: tag.clone(), id: id.clone(), cause: e });
            },
        }
    }
    Ok(any)
}

/// A failure of the tree walk: the element it happened on — its tag and,
/// where present, its id — and the failure itself.
#[derive(Debug)]
pub struct WalkError {
    pub tag: String,
    pub id: String,
    pub cause: ScaleError,
}

impl WalkError {
    /// The message a caller reads: where the walk failed and why.
    pub fn message(&self) -> (r: String)
        ensures
            r@ == "failed on <"@ + self.tag@ + (if self.id@.len() > 0 {
                " id=\""@ + self.id@ + "\""@
            } else {
                Seq::<char>::empty()
            }) + ">: "@ + self.cause.spec_message(),
    {
        let mut out: Vec<char> = Vec::new();
        crate::err::append_str(&mut out, "failed on <");
        crate::err::append_str(&mut out, self.tag.as_str());
        if self.id.as_str().unicode_len() > 0 {
            crate::err::append_str(&mut out, " id=\"");
            crate::err::append_str(&mut out, self.id.as_str());
            crate::err::append_str(&mut out, "\"");
        }
        crate::err::append_str(&mut out, ">: ");
        let msg = self.cause.message();
        crate::err::append_str(&mut out, msg.as_str());
        proof {
            if self.id@.len() > 0 {
                assert(out@ =~= "failed on <"@ + self.tag@ + (" id=\""@ + self.id@ + "\""@)
                    + ">: "@ + self.cause.spec_message());
            } else {
                assert(out@ =~= "failed on <"@ + self.tag@ + Seq::<char>::empty() + ">: "@
                    + self.cause.spec_message());
            }
        }
        chars_to_string(&out)
    }
}

/// The mathematical content of a walk failure: the failing element's tag
/// and id, and the failure itself.
pub struct GWalkErr {
    pub tag: Seq<char>,
    pub id: Seq<char>,
    pub cause: crate::err::GCause,
}

impl WalkError {
    /// The mathematical content of this failure.
    pub open spec fn view_g(self) -> GWalkErr {
        GWalkErr { tag: self.tag@, id: self.id@, cause: self.cause.view_g() }
    }
}

/// The text of an element's first child, where that child is a text node.
pub open spec fn spec_first_text(children: Seq<GNode>) -> Seq<char> {
    if children.len() > 0 && children[0] is Text {
        children[0]->Text_text
    } else {
        Seq::empty()
    }
}

/// The stylesheet rules of a whole document, in document order: every
/// `<style>` element's text parsed, depth first.
pub open spec fn spec_doc_rules(g: GNode) -> Seq<crate::style::GRule>
    decreases g, gchild_count(g), 2nat,
{
    match g {
        GNode::Element { tag, attrs, children } => {
            let own: Seq<crate::style::GRule> = if tag == "style"@ && spec_trim_range(
                spec_first_text(children),
                0,
                spec_first_text(children).len() as int,
            ).len() > 0 {
                crate::style::spec_css_rules(
                    crate::style::spec_strip_comments(spec_first_text(children), 0),
                    0,
                    0,
                )
            } else {
                Seq::empty()
            };
            own + spec_doc_rules_children(g, 0)
        },
        _ => Seq::empty(),
    }
}

/// The number of children of an element node.
pub open spec fn gchild_count(g: GNode) -> nat {
    if g is Element {
        g->Element_children.len()
    } else {
        0
    }
}

/// The stylesheet rules of the children from `i` on.
pub open spec fn spec_doc_rules_children(g: GNode, i: int) -> Seq<crate::style::GRule>
    decreases g, gchild_count(g) - i, 1nat,
{
    if g is Element && 0 <= i < g->Element_children.len() {
        spec_doc_rules(g->Element_children[i]) + spec_doc_rules_children(g, i + 1)
    } else {
        Seq::empty()
    }
}

/// Collect every `<style>` element's rules, depth first.
pub fn collect_style_rules(node: &SvgNode) -> (r: Vec<crate::style::StyleRule>)
    ensures
        crate::style::rules_view(r@) == spec_doc_rules(node.view_g()),
    decreases node,
{
    let mut out: Vec<crate::style::StyleRule> = Vec::new();
    match node {
        SvgNode::Element { tag, attrs, children } => {
            proof {
                lemma_view_children(*node, 0);
            }
            if crate::transform::str_eq(tag.as_str(), "style") {
                let text: String = if children.len() > 0 {
                    match &children[0] {
                        SvgNode::Text { text } => text.clone(),
                        _ => String::from_str(""),
                    }
                } else {
                    String::from_str("")
                };
                proof {
                    reveal_strlit("");
                    assert(""@ =~= Seq::<char>::empty());
                    if children@.len() > 0 {
                        assert(node.view_g()->Element_children[0] == children@[0].view_g());
                    }
                    assert(text@ == spec_first_text(node.view_g()->Element_children));
                }
                let cs = str_to_chars(text.as_str());
                let trimmed = trim_range(&cs, 0, cs.len());
                proof {
                    assert(cs@.subrange(0, cs@.len() as int) =~= cs@);
                }
                if trimmed.len() > 0 {
                    let mut rules = crate::style::parse_css_rules(text.as_str());
                    let ghost own = crate::style::rules_view(rules@);
                    append_rules(&mut out, &mut rules);
                    proof {
                        assert(crate::style::rules_view(out@) =~= Seq::<
                            crate::style::GRule,
                        >::empty() + own);
                    }
                }
            }
            let ghost g = node.view_g();
            let mut k: usize = 0;
            while k < children.len()
                invariant
                    k <= children@.len(),
                    g == node.view_g(),
                    g is Element,
                    g->Element_children == node.view_children(0),
                    g->Element_children.len() == children@.len(),
                    forall|j: int|
                        0 <= j < children@.len() ==> g->Element_children[j] == children@[
                        j].view_g(),
                    spec_doc_rules(g) == crate::style::rules_view(out@) + spec_doc_rules_children(
                        g,
                        k as int,
                    ),
                decreases children@.len() - k,
            {
                let ghost out0 = crate::style::rules_view(out@);
                let mut sub = collect_style_rules(&children[k]);
                let ghost subg = crate::style::rules_view(sub@);
                append_rules(&mut out, &mut sub);
                proof {
                    assert(crate::style::rules_view(out@) =~= out0 + subg);
                    assert(out0 + (subg + spec_doc_rules_children(g, k + 1)) =~= crate::style::rules_view(
                        out@,
                    ) + spec_doc_rules_children(g, k + 1));
                }
                k = k + 1;
            }
            out
        },
        _ => {
            out
        },
    }
}

/// Move all rules of one list onto the end of another.
fn append_rules(out: &mut Vec<crate::style::StyleRule>, more: &mut Vec<crate::style::StyleRule>)
    ensures
        crate::style::rules_view(final(out)@) == crate::style::rules_view(old(out)@)
            + crate::style::rules_view(old(more)@),
{
    let ghost m0 = crate::style::rules_view(more@);
    out.append(more);
    proof {
        assert(crate::style::rules_view(out@) =~= crate::style::rules_view(old(out)@) + m0);
    }
}

/// The children of the view are the views of the children.
proof fn lemma_view_children(node: SvgNode, i: int)
    requires
        node is Element,
        0 <= i <= node->Element_children@.len(),
    ensures
        node.view_children(i).len() == node->Element_children@.len() - i,
        forall|j: int|
            i <= j < node->Element_children@.len() ==> node.view_children(i)[j - i]
                == node->Element_children@[j].view_g(),
    decreases node->Element_children@.len() - i,
{
    if i < node->Element_children@.len() {
        lemma_view_children(node, i + 1);
    }
}

/// The views of a list of nodes.
pub open spec fn nodes_view(l: Seq<SvgNode>) -> Seq<GNode> {
    l.map_values(|n: SvgNode| n.view_g())
}

/// What the first `i` attributes are rewritten to: the `style` attribute
/// is dropped (it is re-emitted from the resolved properties),
/// `vector-effect` is dropped when stroke fixing is on, every other value
/// follows the per-key rule — or the first value's failure.
pub open spec fn spec_attrs_out(
    attrs: Seq<(Seq<char>, Seq<char>)>,
    i: int,
    sc: Dec,
    p: usize,
    fix: bool,
    exempt: bool,
    skip_self: bool,
    nss: bool,
) -> Result<Seq<(Seq<char>, Seq<char>)>, crate::err::GCause>
    decreases i when 0 <= i <= attrs.len()
{
    if i <= 0 {
        Ok(Seq::empty())
    } else {
        match spec_attrs_out(attrs, i - 1, sc, p, fix, exempt, skip_self, nss) {
            Err(c) => Err(c),
            Ok(pre) => {
                let k = attrs[i - 1].0;
                let v = attrs[i - 1].1;
                if k == "style"@ || (fix && k == "vector-effect"@) {
                    Ok(pre)
                } else {
                    match spec_attr_out(k, v, sc, p, fix, exempt, skip_self, nss) {
                        Err(c) => Err(c),
                        Ok(nv) => Ok(pre.push((k, nv))),
                    }
                }
            },
        }
    }
}

/// What the first `i` resolved style declarations are rewritten to:
/// `vector-effect` is dropped when stroke fixing is on, every other value
/// follows the per-key rule — or the first value's failure.
pub open spec fn spec_styles_out(
    merged: Seq<(Seq<char>, Seq<char>)>,
    i: int,
    sc: Dec,
    p: usize,
    fix: bool,
    skip: bool,
    nss: bool,
) -> Result<Seq<(Seq<char>, Seq<char>)>, crate::err::GCause>
    decreases i when 0 <= i <= merged.len()
{
    if i <= 0 {
        Ok(Seq::empty())
    } else {
        match spec_styles_out(merged, i - 1, sc, p, fix, skip, nss) {
            Err(c) => Err(c),
            Ok(pre) => {
                let k = merged[i - 1].0;
                let v = merged[i - 1].1;
                if fix && k == "vector-effect"@ {
                    Ok(pre)
                } else {
                    match spec_style_out(k, v, sc, p, fix, skip, nss) {
                        Err(c) => Err(c),
                        Ok(nv) => Ok(pre.push((k, nv))),
                    }
                }
            },
        }
    }
}

/// What walking one node produces. Text passes through; comment-like
/// nodes vanish; an element keeps its tag, rewrites its attributes and
/// resolved style, and walks its children with the exemption flags
/// extended: a non-translate transform on this element exempts the
/// subtree's geometry, and object-bounding-box content units exempt
/// descendants. A failure anywhere is the whole walk's failure, carrying
/// the failing element's tag and id.
#[verifier::opaque]
pub open spec fn spec_walk(
    g: GNode,
    sc: Dec,
    p: usize,
    fix: bool,
    anc_nt: bool,
    anc_skip: bool,
    rules: Seq<crate::style::GRule>,
    ancs: Seq<GInfo>,
) -> Result<Option<GNode>, GWalkErr>
    decreases g, gchild_count(g), 2nat,
{
    match g {
        GNode::Text { text } => Ok(Some(GNode::Text { text })),
        GNode::Other => Ok(None),
        GNode::Element { tag, attrs, children } => {
            let info = spec_elem_info(tag, attrs);
            let inline = crate::style::spec_style_pairs(
                spec_empty_when_absent(attrs, "style"@),
                0,
            );
            let merged = crate::style::spec_merge_props(
                spec_collect(rules, info, ancs),
                inline,
                0,
            );
            match spec_node_nt(attrs, merged) {
                Err(c) => Err(GWalkErr { tag, id: info.id, cause: c }),
                Ok(node_nt) => {
                    let skip_self = anc_skip || spec_units_exempt(tag, attrs);
                    let exempt = anc_nt || node_nt || skip_self;
                    let nss = spec_nss(attrs, merged);
                    let child_nt = anc_nt || node_nt;
                    let child_skip = if tag == "filter"@ {
                        anc_skip || spec_content_exempt(tag, attrs)
                    } else {
                        skip_self || spec_content_exempt(tag, attrs)
                    };
                    match spec_attrs_out(
                        attrs,
                        attrs.len() as int,
                        sc,
                        p,
                        fix,
                        exempt,
                        skip_self,
                        nss,
                    ) {
                        Err(c) => Err(GWalkErr { tag, id: info.id, cause: c }),
                        Ok(main) => match spec_styles_out(
                            merged,
                            merged.len() as int,
                            sc,
                            p,
                            fix,
                            exempt,
                            nss,
                        ) {
                            Err(c) => Err(GWalkErr { tag, id: info.id, cause: c }),
                            Ok(sprops) => match spec_walk_kids(
                                g,
                                children.len() as int,
                                sc,
                                p,
                                fix,
                                child_nt,
                                child_skip,
                                rules,
                                ancs.push(info),
                            ) {
                                Err(we) => Err(we),
                                Ok(kids) => Ok(
                                    Some(
                                        GNode::Element {
                                            tag,
                                            attrs: if sprops.len() > 0 {
                                                main.push(
                                                    (
                                                        "style"@,
                                                        crate::style::spec_serialize_style(
                                                            sprops,
                                                            0,
                                                        ),
                                                    ),
                                                )
                                            } else {
                                                main
                                            },
                                            children: kids,
                                        },
                                    ),
                                ),
                            },
                        },
                    }
                },
            }
        },
    }
}

/// What walking the first `i` children produces: each child's result,
/// where present, in order — or the first child's failure.
pub open spec fn spec_walk_kids(
    g: GNode,
    i: int,
    sc: Dec,
    p: usize,
    fix: bool,
    anc_nt: bool,
    anc_skip: bool,
    rules: Seq<crate::style::GRule>,
    ancs: Seq<GInfo>,
) -> Result<Seq<GNode>, GWalkErr>
    decreases g, i, 1nat when 0 <= i
{
    if g is Element && 0 < i <= g->Element_children.len() {
        match spec_walk_kids(g, i - 1, sc, p, fix, anc_nt, anc_skip, rules, ancs) {
            Err(we) => Err(we),
            Ok(pre) => match spec_walk(
                g->Element_children[i - 1],
                sc,
                p,
                fix,
                anc_nt,
                anc_skip,
                rules,
                ancs,
            ) {
                Err(we) => Err(we),
                Ok(Some(n)) => Ok(pre.push(n)),
                Ok(None) => Ok(pre),
            },
        }
    } else {
        Ok(Seq::empty())
    }
}

/// A failure among the first attributes is the whole list's failure.
proof fn lemma_attrs_out_err(
    attrs: Seq<(Seq<char>, Seq<char>)>,
    j: int,
    sc: Dec,
    p: usize,
    fix: bool,
    exempt: bool,
    skip_self: bool,
    nss: bool,
)
    requires
        0 <= j <= attrs.len(),
        spec_attrs_out(attrs, j, sc, p, fix, exempt, skip_self, nss) is Err,
    ensures
        spec_attrs_out(attrs, attrs.len() as int, sc, p, fix, exempt, skip_self, nss)
            == spec_attrs_out(attrs, j, sc, p, fix, exempt, skip_self, nss),
    decreases attrs.len() - j,
{
    if j < attrs.len() {
        lemma_attrs_out_err(attrs, j + 1, sc, p, fix, exempt, skip_self, nss);
    }
}

/// A failure among the first declarations is the whole list's failure.
proof fn lemma_styles_out_err(
    merged: Seq<(Seq<char>, Seq<char>)>,
    j: int,
    sc: Dec,
    p: usize,
    fix: bool,
    skip: bool,
    nss: bool,
)
    requires
        0 <= j <= merged.len(),
        spec_styles_out(merged, j, sc, p, fix, skip, nss) is Err,
    ensures
        spec_styles_out(merged, merged.len() as int, sc, p, fix, skip, nss) == spec_styles_out(
            merged,
            j,
            sc,
            p,
            fix,
            skip,
            nss,
        ),
    decreases merged.len() - j,
{
    if j < merged.len() {
        lemma_styles_out_err(merged, j + 1, sc, p, fix, skip, nss);
    }
}

/// A failure among the first children is the whole list's failure.
proof fn lemma_kids_err(
    g: GNode,
    j: int,
    sc: Dec,
    p: usize,
    fix: bool,
    anc_nt: bool,
    anc_skip: bool,
    rules: Seq<crate::style::GRule>,
    ancs: Seq<GInfo>,
)
    requires
        g is Element,
        0 <= j <= g->Element_children.len(),
        spec_walk_kids(g, j, sc, p, fix, anc_nt, anc_skip, rules, ancs) is Err,
    ensures
        spec_walk_kids(
            g,
            g->Element_children.len() as int,
            sc,
            p,
            fix,
            anc_nt,
            anc_skip,
            rules,
            ancs,
        ) == spec_walk_kids(g, j, sc, p, fix, anc_nt, anc_skip, rules, ancs),
    decreases g->Element_children.len() - j,
{
    if j < g->Element_children.len() {
        lemma_kids_err(g, j + 1, sc, p, fix, anc_nt, anc_skip, rules, ancs);
    }
}

/// Whether an element's own geometry is exempt by its units attribute./// Whether an element's own geometry is exempt by its units attribute.
fn units_exempt(tag: &String, attrs: &Vec<(String, String)>) -> (r: bool)
    ensures
        r == spec_units_exempt(tag@, crate::style::props_view(attrs@)),
{
    let ua: Option<String> = if crate::transform::str_eq(tag.as_str(), "clipPath") {
        attr_of(attrs, "clipPathUnits")
    } else if crate::transform::str_eq(tag.as_str(), "mask") {
        attr_of(attrs, "maskUnits")
    } else if crate::transform::str_eq(tag.as_str(), "linearGradient") || crate::transform::str_eq(
        tag.as_str(),
        "radialGradient",
    ) {
        attr_of(attrs, "gradientUnits")
    } else if crate::transform::str_eq(tag.as_str(), "pattern") {
        attr_of(attrs, "patternUnits")
    } else if crate::transform::str_eq(tag.as_str(), "filter") {
        attr_of(attrs, "filterUnits")
    } else if crate::transform::str_eq(tag.as_str(), "marker") {
        attr_of(attrs, "markerUnits")
    } else {
        None
    };
    match &ua {
        Some(u) => {
            crate::transform::str_eq(u.as_str(), "objectBoundingBox") || (crate::transform::str_eq(
                tag.as_str(),
                "marker",
            ) && crate::transform::str_eq(u.as_str(), "strokeWidth"))
        },
        None => crate::transform::str_eq(tag.as_str(), "marker"),
    }
}

/// Whether an element's content-units attribute exempts its descendants.
fn content_exempt(tag: &String, attrs: &Vec<(String, String)>) -> (r: bool)
    ensures
        r == spec_content_exempt(tag@, crate::style::props_view(attrs@)),
{
    if crate::transform::str_eq(tag.as_str(), "pattern") {
        match attr_of(attrs, "patternContentUnits") {
            Some(u) => crate::transform::str_eq(u.as_str(), "objectBoundingBox"),
            None => false,
        }
    } else if crate::transform::str_eq(tag.as_str(), "filter") {
        match attr_of(attrs, "primitiveUnits") {
            Some(u) => crate::transform::str_eq(u.as_str(), "objectBoundingBox"),
            None => false,
        }
    } else if crate::transform::str_eq(tag.as_str(), "marker") {
        match attr_of(attrs, "markerUnits") {
            Some(u) => crate::transform::str_eq(u.as_str(), "strokeWidth"),
            None => false,
        }
    } else {
        false
    }
}

/// Whether an element asks for a non-scaling stroke.
fn has_nss(attrs: &Vec<(String, String)>, merged: &Vec<(String, String)>) -> (r: bool)
    ensures
        r == spec_nss(crate::style::props_view(attrs@), crate::style::props_view(merged@)),
{
    match attr_of(attrs, "vector-effect") {
        Some(v) => {
            if crate::transform::str_eq(v.as_str(), "non-scaling-stroke") {
                return true;
            }
        },
        None => {},
    }
    let ghost gm = crate::style::props_view(merged@);
    let mut k: usize = 0;
    while k < merged.len()
        invariant
            k <= merged@.len(),
            gm == crate::style::props_view(merged@),
            forall|j: int|
                0 <= j < k ==> !((#[trigger] gm[j]).0 == "vector-effect"@ && gm[j].1
                    == "non-scaling-stroke"@),
        decreases merged@.len() - k,
    {
        proof {
            assert(gm[k as int] == (merged@[k as int].0@, merged@[k as int].1@));
        }
        if crate::transform::str_eq(merged[k].0.as_str(), "vector-effect")
            && crate::transform::str_eq(merged[k].1.as_str(), "non-scaling-stroke") {
            return true;
        }
        k = k + 1;
    }
    false
}

/// Copy an element's matching data.
fn clone_info(i: &ElemInfo) -> (r: ElemInfo)
    ensures
        r.view_g() == i.view_g(),
{
    let mut classes: Vec<String> = Vec::new();
    let mut k: usize = 0;
    while k < i.classes.len()
        invariant
            k <= i.classes@.len(),
            classes@.map_values(|c: String| c@) == i.classes@.map_values(|c: String| c@).take(
                k as int,
            ),
        decreases i.classes@.len() - k,
    {
        classes.push(i.classes[k].clone());
        k = k + 1;
        proof {
            assert(classes@.map_values(|c: String| c@) =~= i.classes@.map_values(
                |c: String| c@,
            ).take(k as int));
        }
    }
    proof {
        assert(i.classes@.map_values(|c: String| c@).take(i.classes@.len() as int)
            =~= i.classes@.map_values(|c: String| c@));
    }
    ElemInfo { tag: i.tag.clone(), id: i.id.clone(), classes }
}

/// Copy an ancestor chain and push one more element onto it.
fn extend_ancestors(ancestors: &Vec<ElemInfo>, info: &ElemInfo) -> (r: Vec<ElemInfo>)
    ensures
        infos_view(r@) == infos_view(ancestors@).push(info.view_g()),
{
    let mut out: Vec<ElemInfo> = Vec::new();
    let mut k: usize = 0;
    while k < ancestors.len()
        invariant
            k <= ancestors@.len(),
            infos_view(out@) == infos_view(ancestors@).take(k as int),
        decreases ancestors@.len() - k,
    {
        out.push(clone_info(&ancestors[k]));
        k = k + 1;
        proof {
            assert(infos_view(out@) =~= infos_view(ancestors@).take(k as int));
        }
    }
    out.push(clone_info(info));
    proof {
        assert(infos_view(ancestors@).take(ancestors@.len() as int) =~= infos_view(ancestors@));
        assert(infos_view(out@) =~= infos_view(ancestors@).push(info.view_g()));
    }
    out
}

/// Assembling an element's rewrite from its verified pieces is what the
/// walk produces for it.
proof fn lemma_walk_elem_ok(
    g: GNode,
    sc: Dec,
    p: usize,
    fix: bool,
    anc_nt: bool,
    anc_skip: bool,
    rules: Seq<crate::style::GRule>,
    ancs: Seq<GInfo>,
    node_nt: bool,
    main: Seq<(Seq<char>, Seq<char>)>,
    sprops: Seq<(Seq<char>, Seq<char>)>,
    oe: GNode,
)
    requires
        g is Element,
        oe is Element,
        ({
            let tag = g->Element_tag;
            let attrs = g->Element_attrs;
            let info = spec_elem_info(tag, attrs);
            let inline = crate::style::spec_style_pairs(
                spec_empty_when_absent(attrs, "style"@),
                0,
            );
            let merged = crate::style::spec_merge_props(
                spec_collect(rules, info, ancs),
                inline,
                0,
            );
            let skip_self = anc_skip || spec_units_exempt(tag, attrs);
            let exempt = anc_nt || node_nt || skip_self;
            let nss = spec_nss(attrs, merged);
            let child_nt = anc_nt || node_nt;
            let child_skip = if tag == "filter"@ {
                anc_skip || spec_content_exempt(tag, attrs)
            } else {
                skip_self || spec_content_exempt(tag, attrs)
            };
            &&& spec_node_nt(attrs, merged) == Ok::<bool, crate::err::GCause>(node_nt)
            &&& oe->Element_tag == tag
            &&& spec_attrs_out(attrs, attrs.len() as int, sc, p, fix, exempt, skip_self, nss)
                == Ok::<Seq<(Seq<char>, Seq<char>)>, crate::err::GCause>(main)
            &&& spec_styles_out(merged, merged.len() as int, sc, p, fix, exempt, nss) == Ok::<
                Seq<(Seq<char>, Seq<char>)>,
                crate::err::GCause,
            >(sprops)
            &&& oe->Element_attrs == (if sprops.len() > 0 {
                main.push(("style"@, crate::style::spec_serialize_style(sprops, 0)))
            } else {
                main
            })
            &&& spec_walk_kids(
                g,
                g->Element_children.len() as int,
                sc,
                p,
                fix,
                child_nt,
                child_skip,
                rules,
                ancs.push(info),
            ) == Ok::<Seq<GNode>, GWalkErr>(oe->Element_children)
        }),
    ensures
        spec_walk(g, sc, p, fix, anc_nt, anc_skip, rules, ancs) == Ok::<Option<GNode>, GWalkErr>(
            Some(oe),
        ),
{
    reveal(spec_walk);
}

/// A failing stage of an element's rewrite is what the walk fails with
/// for it.
proof fn lemma_walk_elem_err(
    g: GNode,
    sc: Dec,
    p: usize,
    fix: bool,
    anc_nt: bool,
    anc_skip: bool,
    rules: Seq<crate::style::GRule>,
    ancs: Seq<GInfo>,
    we: GWalkErr,
)
    requires
        g is Element,
        ({
            let tag = g->Element_tag;
            let attrs = g->Element_attrs;
            let info = spec_elem_info(tag, attrs);
            let inline = crate::style::spec_style_pairs(
                spec_empty_when_absent(attrs, "style"@),
                0,
            );
            let merged = crate::style::spec_merge_props(
                spec_collect(rules, info, ancs),
                inline,
                0,
            );
            let skip_self = anc_skip || spec_units_exempt(tag, attrs);
            let nss = spec_nss(attrs, merged);
            match spec_node_nt(attrs, merged) {
                Err(c) => we == (GWalkErr { tag, id: info.id, cause: c }),
                Ok(node_nt) => {
                    let exempt = anc_nt || node_nt || skip_self;
                    let child_nt = anc_nt || node_nt;
                    let child_skip = if tag == "filter"@ {
                        anc_skip || spec_content_exempt(tag, attrs)
                    } else {
                        skip_self || spec_content_exempt(tag, attrs)
                    };
                    match spec_attrs_out(
                        attrs,
                        attrs.len() as int,
                        sc,
                        p,
                        fix,
                        exempt,
                        skip_self,
                        nss,
                    ) {
                        Err(c) => we == (GWalkErr { tag, id: info.id, cause: c }),
                        Ok(_) => match spec_styles_out(
                            merged,
                            merged.len() as int,
                            sc,
                            p,
                            fix,
                            exempt,
                            nss,
                        ) {
                            Err(c) => we == (GWalkErr { tag, id: info.id, cause: c }),
                            Ok(_) => spec_walk_kids(
                                g,
                                g->Element_children.len() as int,
                                sc,
                                p,
                                fix,
                                child_nt,
                                child_skip,
                                rules,
                                ancs.push(info),
                            ) == Err::<Seq<GNode>, GWalkErr>(we),
                        },
                    }
                },
            }
        }),
    ensures
        spec_walk(g, sc, p, fix, anc_nt, anc_skip, rules, ancs) == Err::<Option<GNode>, GWalkErr>(
            we,
        ),
{
    reveal(spec_walk);
}

/// Rewrite an element's attributes, dropping `style` and — when stroke
/// fixing is on — `vector-effect`; fail on the first value that cannot be
/// rewritten.
fn process_attrs(
    attrs: &Vec<(String, String)>,
    ctx: &ScaleCtx,
    exempt: bool,
    skip_self: bool,
    nss: bool,
) -> (r: Result<Vec<(String, String)>, ScaleError>)
    requires
        ctx.wf(),
    ensures
        ({
            let spec = spec_attrs_out(
                crate::style::props_view(attrs@),
                attrs@.len() as int,
                ctx.scale,
                ctx.precision,
                ctx.fix_stroke,
                exempt,
                skip_self,
                nss,
            );
            match r {
                Ok(out) => spec == Ok::<Seq<(Seq<char>, Seq<char>)>, crate::err::GCause>(
                    crate::style::props_view(out@),
                ),
                Err(e) => spec == Err::<Seq<(Seq<char>, Seq<char>)>, crate::err::GCause>(
                    e.view_g(),
                ),
            }
        }),
{
    let ghost gattrs = crate::style::props_view(attrs@);
    let mut out_attrs: Vec<(String, String)> = Vec::new();
    let mut i: usize = 0;
    proof {
        assert(crate::style::props_view(out_attrs@) =~= Seq::<(Seq<char>, Seq<char>)>::empty());
    }
    while i < attrs.len()
        invariant
            i <= attrs@.len(),
            gattrs == crate::style::props_view(attrs@),
            ctx.wf(),
            spec_attrs_out(
                gattrs,
                i as int,
                ctx.scale,
                ctx.precision,
                ctx.fix_stroke,
                exempt,
                skip_self,
                nss,
            ) == Ok::<Seq<(Seq<char>, Seq<char>)>, crate::err::GCause>(
                crate::style::props_view(out_attrs@),
            ),
        decreases attrs@.len() - i,
    {
        let k = &attrs[i].0;
        let v = &attrs[i].1;
        proof {
            assert(gattrs[i as int] == (attrs@[i as int].0@, attrs@[i as int].1@));
        }
        if crate::transform::str_eq(k.as_str(), "style") || (ctx.fix_stroke
            && crate::transform::str_eq(k.as_str(), "vector-effect")) {
        } else {
            match scale_attr_value(k, v, ctx, exempt, skip_self, nss) {
                Ok(nv) => {
                    let ghost o0 = crate::style::props_view(out_attrs@);
                    out_attrs.push((k.clone(), nv));
                    proof {
                        assert(crate::style::props_view(out_attrs@) =~= o0.push((k@, nv@)));
                    }
                },
                Err(e) => {
                    proof {
                        lemma_attrs_out_err(
                            gattrs,
                            i as int + 1,
                            ctx.scale,
                            ctx.precision,
                            ctx.fix_stroke,
                            exempt,
                            skip_self,
                            nss,
                        );
                    }
                    return Err(e);
                },
            }
        }
        i = i + 1;
    }
    Ok(out_attrs)
}

/// Rewrite an element's resolved style declarations, dropping
/// `vector-effect` when stroke fixing is on; fail on the first value that
/// cannot be rewritten.
fn process_styles(
    merged: &Vec<(String, String)>,
    ctx: &ScaleCtx,
    skip: bool,
    nss: bool,
) -> (r: Result<Vec<(String, String)>, ScaleError>)
    requires
        ctx.wf(),
    ensures
        ({
            let spec = spec_styles_out(
                crate::style::props_view(merged@),
                merged@.len() as int,
                ctx.scale,
                ctx.precision,
                ctx.fix_stroke,
                skip,
                nss,
            );
            match r {
                Ok(out) => spec == Ok::<Seq<(Seq<char>, Seq<char>)>, crate::err::GCause>(
                    crate::style::props_view(out@),
                ),
                Err(e) => spec == Err::<Seq<(Seq<char>, Seq<char>)>, crate::err::GCause>(
                    e.view_g(),
                ),
            }
        }),
{
    let ghost gmerged = crate::style::props_view(merged@);
    let mut new_props: Vec<(String, String)> = Vec::new();
    let mut j: usize = 0;
    proof {
        assert(crate::style::props_view(new_props@) =~= Seq::<(Seq<char>, Seq<char>)>::empty());
    }
    while j < merged.len()
        invariant
            j <= merged@.len(),
            gmerged == crate::style::props_view(merged@),
            ctx.wf(),
            spec_styles_out(
                gmerged,
                j as int,
                ctx.scale,
                ctx.precision,
                ctx.fix_stroke,
                skip,
                nss,
            ) == Ok::<Seq<(Seq<char>, Seq<char>)>, crate::err::GCause>(
                crate::style::props_view(new_props@),
            ),
        decreases merged@.len() - j,
    {
        let k = &merged[j].0;
        let v = &merged[j].1;
        proof {
            assert(gmerged[j as int] == (merged@[j as int].0@, merged@[j as int].1@));
        }
        if ctx.fix_stroke && crate::transform::str_eq(k.as_str(), "vector-effect") {
        } else {
            match scale_style_value(k, v, ctx, skip, nss) {
                Ok(nv) => {
                    let ghost o0 = crate::style::props_view(new_props@);
                    new_props.push((k.clone(), nv));
                    proof {
                        assert(crate::style::props_view(new_props@) =~= o0.push((k@, nv@)));
                    }
                },
                Err(e) => {
                    proof {
                        lemma_styles_out_err(
                            gmerged,
                            j as int + 1,
                            ctx.scale,
                            ctx.precision,
                            ctx.fix_stroke,
                            skip,
                            nss,
                        );
                    }
                    return Err(e);
                },
            }
        }
        j = j + 1;
    }
    Ok(new_props)
}

/// Walk one node: rewrite it and its subtree under the given inherited
/// exemption flags, or fail with the element that could not be rewritten.
#[verifier::rlimit(100)]
pub fn walk_impl(
    node: &SvgNode,
    ctx: &ScaleCtx,
    anc_nt: bool,
    anc_skip: bool,
    rules: &Vec<crate::style::StyleRule>,
    ancestors: &Vec<ElemInfo>,
) -> (r: Result<Option<SvgNode>, WalkError>)
    requires
        ctx.wf(),
    ensures
        ({
            let spec = spec_walk(
                node.view_g(),
                ctx.scale,
                ctx.precision,
                ctx.fix_stroke,
                anc_nt,
                anc_skip,
                crate::style::rules_view(rules@),
                infos_view(ancestors@),
            );
            match r {
                Ok(Some(n)) => spec == Ok::<Option<GNode>, GWalkErr>(Some(n.view_g())),
                Ok(None) => spec == Ok::<Option<GNode>, GWalkErr>(None),
                Err(e) => spec == Err::<Option<GNode>, GWalkErr>(e.view_g()),
            }
        }),
    decreases node,
{
    proof {
        reveal(spec_walk);
    }
    match node {
        SvgNode::Text { text } => Ok(Some(SvgNode::Text { text: text.clone() })),
        SvgNode::Other => Ok(None),
        SvgNode::Element { tag, attrs, children } => {
            let ghost g = node.view_g();
            let ghost gattrs = crate::style::props_view(attrs@);
            let info = elem_info(tag, attrs);
            let rule_props = collect_matching_style_props(rules, &info, ancestors);
            let style_attr = prop_or_empty(attrs, "style");
            let inline = crate::style::parse_style(style_attr.as_str());
            let mut merged = rule_props;
            crate::style::merge_style_props(&mut merged, &inline);
            let ghost gmerged = crate::style::props_view(merged@);
            let node_nt = match node_non_translate(attrs, &merged, tag, &info.id) {
                Ok(b) => b,
                Err(e) => {
                    proof {
                        lemma_walk_elem_err(
                            g,
                            ctx.scale,
                            ctx.precision,
                            ctx.fix_stroke,
                            anc_nt,
                            anc_skip,
                            crate::style::rules_view(rules@),
                            infos_view(ancestors@),
                            e.view_g(),
                        );
                    }
                    return Err(e);
                },
            };
            let skip_self = anc_skip || units_exempt(tag, attrs);
            let exempt = anc_nt || node_nt || skip_self;
            let nss = has_nss(attrs, &merged);
            let child_nt = anc_nt || node_nt;
            let child_skip = if crate::transform::str_eq(tag.as_str(), "filter") {
                anc_skip || content_exempt(tag, attrs)
            } else {
                skip_self || content_exempt(tag, attrs)
            };
            let mut out_attrs = match process_attrs(attrs, ctx, exempt, skip_self, nss) {
                Ok(a) => a,
                Err(e) => {
                    let we = WalkError { tag: tag.clone(), id: info.id.clone(), cause: e };
                    proof {
                        lemma_walk_elem_err(
                            g,
                            ctx.scale,
                            ctx.precision,
                            ctx.fix_stroke,
                            anc_nt,
                            anc_skip,
                            crate::style::rules_view(rules@),
                            infos_view(ancestors@),
                            we.view_g(),
                        );
                    }
                    return Err(we);
                },
            };
            let new_props = match process_styles(&merged, ctx, exempt, nss) {
                Ok(a) => a,
                Err(e) => {
                    let we = WalkError { tag: tag.clone(), id: info.id.clone(), cause: e };
                    proof {
                        lemma_walk_elem_err(
                            g,
                            ctx.scale,
                            ctx.precision,
                            ctx.fix_stroke,
                            anc_nt,
                            anc_skip,
                            crate::style::rules_view(rules@),
                            infos_view(ancestors@),
                            we.view_g(),
                        );
                    }
                    return Err(we);
                },
            };
            let ghost main_final = crate::style::props_view(out_attrs@);
            let ghost sprops_final = crate::style::props_view(new_props@);
            if new_props.len() > 0 {
                let serialized = crate::style::serialize_style(&new_props);
                out_attrs.push((String::from_str("style"), serialized));
                proof {
                    assert(crate::style::props_view(out_attrs@) =~= main_final.push(
                        ("style"@, crate::style::spec_serialize_style(sprops_final, 0)),
                    ));
                }
            }
            let ancs2 = extend_ancestors(ancestors, &info);
            let mut out_children: Vec<SvgNode> = Vec::new();
            let mut k: usize = 0;
            proof {
                lemma_view_children(*node, 0);
                assert(nodes_view(out_children@) =~= Seq::<GNode>::empty());
            }
            while k < children.len()
                invariant
                    k <= children@.len(),
                    g == node.view_g(),
                    g is Element,
                    g->Element_children.len() == children@.len(),
                    forall|x: int|
                        0 <= x < children@.len() ==> g->Element_children[x] == children@[
                        x].view_g(),
                    ctx.wf(),
                    infos_view(ancs2@) == infos_view(ancestors@).push(info.view_g()),
                    spec_walk_kids(
                        g,
                        k as int,
                        ctx.scale,
                        ctx.precision,
                        ctx.fix_stroke,
                        child_nt,
                        child_skip,
                        crate::style::rules_view(rules@),
                        infos_view(ancestors@).push(info.view_g()),
                    ) == Ok::<Seq<GNode>, GWalkErr>(nodes_view(out_children@)),
                decreases children@.len() - k,
            {
                let sub = match walk_impl(&children[k], ctx, child_nt, child_skip, rules, &ancs2) {
                    Ok(s) => s,
                    Err(e) => {
                        proof {
                            let kk: int = k as int + 1;
                            assert(spec_walk_kids(
                                g,
                                kk,
                                ctx.scale,
                                ctx.precision,
                                ctx.fix_stroke,
                                child_nt,
                                child_skip,
                                crate::style::rules_view(rules@),
                                infos_view(ancestors@).push(info.view_g()),
                            ) == Err::<Seq<GNode>, GWalkErr>(e.view_g()));
                            lemma_kids_err(
                                g,
                                kk,
                                ctx.scale,
                                ctx.precision,
                                ctx.fix_stroke,
                                child_nt,
                                child_skip,
                                crate::style::rules_view(rules@),
                                infos_view(ancestors@).push(info.view_g()),
                            );
                            lemma_walk_elem_err(
                                g,
                                ctx.scale,
                                ctx.precision,
                                ctx.fix_stroke,
                                anc_nt,
                                anc_skip,
                                crate::style::rules_view(rules@),
                                infos_view(ancestors@),
                                e.view_g(),
                            );
                        }
                        return Err(e);
                    },
                };
                let ghost oc0 = nodes_view(out_children@);
                match sub {
                    Some(n) => {
                        let ghost nview = n.view_g();
                        out_children.push(n);
                        proof {
                            let kk: int = k as int + 1;
                            assert(nodes_view(out_children@) =~= oc0.push(nview));
                            assert(spec_walk_kids(
                                g,
                                kk,
                                ctx.scale,
                                ctx.precision,
                                ctx.fix_stroke,
                                child_nt,
                                child_skip,
                                crate::style::rules_view(rules@),
                                infos_view(ancestors@).push(info.view_g()),
                            ) == Ok::<Seq<GNode>, GWalkErr>(nodes_view(out_children@)));
                        }
                    },
                    None => {
                        proof {
                            let kk: int = k as int + 1;
                            assert(spec_walk_kids(
                                g,
                                kk,
                                ctx.scale,
                                ctx.precision,
                                ctx.fix_stroke,
                                child_nt,
                                child_skip,
                                crate::style::rules_view(rules@),
                                infos_view(ancestors@).push(info.view_g()),
                            ) == Ok::<Seq<GNode>, GWalkErr>(nodes_view(out_children@)));
                        }
                    },
                }
                k = k + 1;
            }
            let result = SvgNode::Element {
                tag: tag.clone(),
                attrs: out_attrs,
                children: out_children,
            };
            proof {
                lemma_view_children(result, 0);
                assert(result.view_g()->Element_children =~= nodes_view(
                    result->Element_children@,
                ));
                if new_props.len() == 0 {
                    assert(crate::style::props_view(out_attrs@) == main_final);
                }
                lemma_walk_elem_ok(
                    g,
                    ctx.scale,
                    ctx.precision,
                    ctx.fix_stroke,
                    anc_nt,
                    anc_skip,
                    crate::style::rules_view(rules@),
                    infos_view(ancestors@),
                    node_nt,
                    main_final,
                    sprops_final,
                    result.view_g(),
                );
            }
            Ok(Some(result))
        },
    }
}

/// Scale a whole document: collect its stylesheet rules, then walk it
/// from the root with no inherited exemptions. Succeeds exactly where the
/// walk of every element succeeds, and fails with the failing element's
/// tag, id and fault.
pub fn walk(node: &SvgNode, ctx: &ScaleCtx) -> (r: Result<Option<SvgNode>, WalkError>)
    requires
        ctx.wf(),
    ensures
        ({
            let spec = spec_walk(
                node.view_g(),
                ctx.scale,
                ctx.precision,
                ctx.fix_stroke,
                false,
                false,
                spec_doc_rules(node.view_g()),
                Seq::empty(),
            );
            match r {
                Ok(Some(n)) => spec == Ok::<Option<GNode>, GWalkErr>(Some(n.view_g())),
                Ok(None) => spec == Ok::<Option<GNode>, GWalkErr>(None),
                Err(e) => spec == Err::<Option<GNode>, GWalkErr>(e.view_g()),
            }
        }),
{
    let rules = collect_style_rules(node);
    let ancestors: Vec<ElemInfo> = Vec::new();
    proof {
        assert(infos_view(ancestors@) =~= Seq::<GInfo>::empty());
    }
    walk_impl(node, ctx, false, false, &rules, &ancestors)
}

/// A stroke width under `vector-effect="non-scaling-stroke"` is left
/// unchanged when stroke fixing is off, whatever the factor — and so is
/// the hint itself, which only stroke fixing drops.
pub proof fn lemma_non_scaling_stroke_preserved(
    v: Seq<char>,
    sc: Dec,
    p: usize,
    exempt: bool,
    skip_self: bool,
)
    ensures
        spec_attr_out("stroke-width"@, v, sc, p, false, exempt, skip_self, true) == Ok::<
            Seq<char>,
            crate::err::GCause,
        >(v),
{
    reveal(spec_attr_out);
    reveal_strlit("d");
    reveal_strlit("stroke-width");
    assert("stroke-width"@.len() == 12);
    assert("d"@.len() == 1);
    assert("stroke-width"@ != "d"@);
    assert(spec_is_length_attr("stroke-width"@));
}

/// With stroke fixing on, a non-scaling stroke width is scaled like any
/// length after all.
pub proof fn lemma_fix_stroke_scales_width(v: Seq<char>, sc: Dec, p: usize, skip_self: bool)
    ensures
        spec_attr_out("stroke-width"@, v, sc, p, true, false, skip_self, true) == (
        match spec_scale_length(v, sc, p) {
            Ok(o) => Ok::<Seq<char>, crate::err::GCause>(o),
            Err(_) => Err(crate::err::GCause::GNumericParse { key: "stroke-width"@, raw: v }),
        }),
{
    reveal(spec_attr_out);
    reveal_strlit("d");
    reveal_strlit("stroke-width");
    assert("stroke-width"@.len() == 12);
    assert("d"@.len() == 1);
    assert("stroke-width"@ != "d"@);
    assert(spec_is_length_attr("stroke-width"@));
}

/// Geometry under an exemption — an ancestor's non-translate transform,
/// or an object-bounding-box coordinate system — is emitted unchanged,
/// whatever the factor: path data, lengths, number lists and frequencies
/// all pass through.
pub proof fn lemma_exempt_geometry_unchanged(
    k: Seq<char>,
    v: Seq<char>,
    sc: Dec,
    p: usize,
    fix: bool,
    skip_self: bool,
    nss: bool,
)
    requires
        k == "d"@ || spec_is_length_attr(k) || spec_is_list_attr(k) || k == "baseFrequency"@,
    ensures
        spec_attr_out(k, v, sc, p, fix, true, skip_self, nss) == Ok::<Seq<char>, crate::err::GCause>(
            v,
        ),
{
    reveal(spec_attr_out);
}

/// A numeric token merely re-rendered at a precision, with its unit kept./// A numeric token merely re-rendered at a precision, with its unit kept.
pub open spec fn spec_reformat_num_token(token: Seq<char>, p: usize) -> Option<Seq<char>> {
    let t = spec_trim_range(token, 0, token.len() as int);
    if t.len() == 0 {
        None
    } else {
        let n = spec_num_run(t, 0);
        if n == 0 {
            None
        } else {
            let num = t.subrange(0, n);
            let unit = spec_trim_range(t, n, t.len() as int);
            if unit =~= "%"@ {
                None
            } else if !spec_is_supported_unit(unit) {
                None
            } else {
                match spec_parse_dec(num) {
                    None => None,
                    Some(v) => Some(spec_fmt_dec(v, p) + unit),
                }
            }
        }
    }
}

/// Scaling a numeric token by one only re-renders it at the context's
/// precision: the factor changes nothing else.
pub proof fn lemma_scale_token_one(token: Seq<char>, p: usize)
    ensures
        spec_scale_num_token(token, Dec::spec_one(), p) == spec_reformat_num_token(token, p),
{
    let t = spec_trim_range(token, 0, token.len() as int);
    if t.len() > 0 {
        lemma_num_run_bounds(t, 0);
        let n = spec_num_run(t, 0);
        if n > 0 {
            let num = t.subrange(0, n);
            match spec_parse_dec(num) {
                Some(v) => {
                    crate::num::lemma_parse_dec_wf(num);
                    crate::num::lemma_mul_one(v);
                },
                None => {},
            }
        }
    }
}

/// An object-bounding-box units attribute exempts the element's own
/// geometry.
pub proof fn lemma_object_bounding_box_exempts(tag: Seq<char>, attrs: Seq<(Seq<char>, Seq<char>)>)
    requires
        spec_units_attr(tag, attrs) == Some("objectBoundingBox"@),
    ensures
        spec_units_exempt(tag, attrs),
{
}

} // verus!
