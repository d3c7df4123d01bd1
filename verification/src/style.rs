//! The style machinery: inline `style` attributes, stylesheet rules, and
//! the merge that implements the cascade.
//!
//! Inline style text splits on `;` into `key:value` pairs. Stylesheet text
//! has its comments stripped, then splits into `selector { body }` blocks;
//! each block's selector list splits on commas and each selector parses
//! against the supported grammar (tag, `.class`, `#id`, one optional
//! ancestor with a descendant or child relation) — anything else is
//! silently dropped. Merging writes later entries over earlier ones for
//! the same key, which, applied in specificity-then-order sequence, is the
//! cascade.

use vstd::prelude::*;
use crate::num::{chars_to_string, str_to_chars};
use crate::path::{spec_is_unicode_ws, is_unicode_ws};

verus! {

/// The first position at or after `i` holding `c`, or the length.
pub open spec fn spec_find_char(s: Seq<char>, i: int, c: char) -> int
    decreases s.len() - i when i <= s.len()
{
    if 0 <= i < s.len() {
        if s[i] == c {
            i
        } else {
            spec_find_char(s, i + 1, c)
        }
    } else {
        i
    }
}

pub(crate) proof fn lemma_find_char_bounds(s: Seq<char>, i: int, c: char)
    requires
        0 <= i <= s.len(),
    ensures
        i <= spec_find_char(s, i, c) <= s.len(),
    decreases s.len() - i,
{
    if 0 <= i < s.len() && s[i] != c {
        lemma_find_char_bounds(s, i + 1, c);
    }
}

/// Find a character at or after `i`.
pub(crate) fn find_char(s: &Vec<char>, i: usize, c: char) -> (r: usize)
    requires
        i <= s@.len(),
    ensures
        r == spec_find_char(s@, i as int, c),
        i <= r <= s@.len(),
{
    proof {
        lemma_find_char_bounds(s@, i as int, c);
    }
    let mut j = i;
    while j < s.len() && s[j] != c
        invariant
            i <= j <= s@.len(),
            spec_find_char(s@, j as int, c) == spec_find_char(s@, i as int, c),
        decreases s@.len() - j,
    {
        j = j + 1;
    }
    j
}

/// The position after the run of white space starting at `i`.
pub open spec fn spec_skip_ws(s: Seq<char>, i: int) -> int
    decreases s.len() - i when i <= s.len()
{
    if 0 <= i < s.len() && spec_is_unicode_ws(s[i]) {
        spec_skip_ws(s, i + 1)
    } else {
        i
    }
}

pub(crate) proof fn lemma_skip_ws_bounds(s: Seq<char>, i: int)
    requires
        0 <= i <= s.len(),
    ensures
        i <= spec_skip_ws(s, i) <= s.len(),
    decreases s.len() - i,
{
    if 0 <= i < s.len() && spec_is_unicode_ws(s[i]) {
        lemma_skip_ws_bounds(s, i + 1);
    }
}

/// The run of white space ends at a non-blank character or the end.
pub(crate) proof fn lemma_skip_ws_stop(s: Seq<char>, i: int)
    requires
        0 <= i <= s.len(),
    ensures
        spec_skip_ws(s, i) < s.len() ==> !spec_is_unicode_ws(s[spec_skip_ws(s, i)]),
    decreases s.len() - i,
{
    if 0 <= i < s.len() && spec_is_unicode_ws(s[i]) {
        lemma_skip_ws_stop(s, i + 1);
    }
}

/// The position before the run of white space ending at `j`.
pub open spec fn spec_rskip_ws(s: Seq<char>, j: int) -> int
    decreases j when 0 <= j <= s.len()
{
    if 0 < j <= s.len() && spec_is_unicode_ws(s[j - 1]) {
        spec_rskip_ws(s, j - 1)
    } else {
        j
    }
}

pub(crate) proof fn lemma_rskip_ws_bounds(s: Seq<char>, j: int)
    requires
        0 <= j <= s.len(),
    ensures
        0 <= spec_rskip_ws(s, j) <= j,
    decreases j,
{
    if 0 < j <= s.len() && spec_is_unicode_ws(s[j - 1]) {
        lemma_rskip_ws_bounds(s, j - 1);
    }
}

/// A subrange with its surrounding white space removed.
pub open spec fn spec_trim_range(s: Seq<char>, from: int, to: int) -> Seq<char> {
    let seg = s.subrange(from, to);
    let a = spec_skip_ws(seg, 0);
    let b = spec_rskip_ws(seg, seg.len() as int);
    if a < b {
        seg.subrange(a, b)
    } else {
        Seq::empty()
    }
}

/// Copy a subrange with its surrounding white space removed.
pub(crate) fn trim_range(s: &Vec<char>, from: usize, to: usize) -> (r: Vec<char>)
    requires
        from <= to <= s@.len(),
    ensures
        r@ == spec_trim_range(s@, from as int, to as int),
{
    let ghost seg = s@.subrange(from as int, to as int);
    proof {
        lemma_skip_ws_bounds(seg, 0);
        lemma_rskip_ws_bounds(seg, seg.len() as int);
    }
    let mut a = from;
    while a < to && is_unicode_ws(s[a])
        invariant
            from <= a <= to,
            spec_skip_ws(seg, a - from) == spec_skip_ws(seg, 0),
        decreases to - a,
    {
        proof {
            assert(seg[a - from] == s@[a as int]);
        }
        a = a + 1;
    }
    proof {
        if a < to {
            assert(seg[a - from] == s@[a as int]);
        }
        assert(spec_skip_ws(seg, a - from) == a - from);
    }
    let mut b = to;
    while b > a && is_unicode_ws(s[b - 1])
        invariant
            a <= b <= to,
            spec_rskip_ws(seg, b - from) == spec_rskip_ws(seg, seg.len() as int) || (
            spec_rskip_ws(seg, seg.len() as int) < a - from && b == a),
        decreases b,
    {
        proof {
            assert(seg[b - 1 - from] == s@[b - 1]);
        }
        b = b - 1;
    }
    proof {
        if b > a {
            assert(seg[b - 1 - from] == s@[b - 1]);
            assert(spec_rskip_ws(seg, b - from) == b - from);
        }
    }
    let mut out: Vec<char> = Vec::new();
    let mut i = a;
    while i < b
        invariant
            a <= i <= b <= s@.len(),
            from <= a,
            out@ == s@.subrange(a as int, i as int),
        decreases b - i,
    {
        let c = s[i];
        out.push(c);
        i = i + 1;
        proof {
            assert(out@ =~= s@.subrange(a as int, i as int));
        }
    }
    proof {
        let ga = spec_skip_ws(seg, 0);
        let gb = spec_rskip_ws(seg, seg.len() as int);
        assert(ga == a - from);
        if b > a {
            assert(gb == b - from);
            assert(out@ =~= seg.subrange(ga, gb));
        } else {
            lemma_rskip_ws_bounds(seg, b - from);
            assert(gb <= ga);
            assert(out@ =~= Seq::<char>::empty());
        }
    }
    out
}

/// The key and value of one `key:value` declaration, both trimmed; `None`
/// where the colon, the key or the value is missing.
pub open spec fn spec_style_pair(seg: Seq<char>) -> Option<(Seq<char>, Seq<char>)> {
    let c = spec_find_char(seg, 0, ':');
    if c >= seg.len() {
        None
    } else {
        let k = spec_trim_range(seg, 0, c);
        let v = spec_trim_range(seg, c + 1, seg.len() as int);
        if k.len() == 0 || v.len() == 0 {
            None
        } else {
            Some((k, v))
        }
    }
}

/// The declarations of a style text from `i` on: segments split on `;`,
/// each parsed as a `key:value` pair, the malformed ones dropped.
pub open spec fn spec_style_pairs(s: Seq<char>, i: int) -> Seq<(Seq<char>, Seq<char>)>
    decreases s.len() - i when 0 <= i <= s.len() via spec_style_pairs_dec
{
    let j = spec_find_char(s, i, ';');
    let head = match spec_style_pair(s.subrange(i, j)) {
        Some(p) => seq![p],
        None => Seq::empty(),
    };
    if j < s.len() {
        head + spec_style_pairs(s, j + 1)
    } else {
        head
    }
}

#[via_fn]
proof fn spec_style_pairs_dec(s: Seq<char>, i: int) {
    lemma_find_char_bounds(s, i, ';');
}

/// The mathematical content of a property list.
pub open spec fn props_view(l: Seq<(String, String)>) -> Seq<(Seq<char>, Seq<char>)> {
    l.map_values(|p: (String, String)| (p.0@, p.1@))
}

/// Parse inline style text into its `key:value` declarations, in order;
/// malformed declarations are dropped.
pub fn parse_style(input: &str) -> (r: Vec<(String, String)>)
    ensures
        props_view(r@) == spec_style_pairs(input@, 0),
{
    let cs = str_to_chars(input);
    let mut out: Vec<(String, String)> = Vec::new();
    let mut i: usize = 0;
    loop
        invariant
            i <= cs@.len(),
            cs@ == input@,
            spec_style_pairs(cs@, 0) == props_view(out@) + spec_style_pairs(cs@, i as int),
        decreases cs@.len() - i + 1,
    {
        let j = find_char(&cs, i, ';');
        let ghost out0 = out@;
        let c = find_char_to(&cs, i, j, ':');
        if c < j {
            let k = trim_range(&cs, i, c);
            let v = trim_range(&cs, c + 1, j);
            proof {
                lemma_find_sub(cs@, i as int, j as int, ':');
                lemma_trim_sub(cs@, i as int, j as int, 0, c - i);
                lemma_trim_sub(cs@, i as int, j as int, c + 1 - i, j - i);
            }
            if k.len() > 0 && v.len() > 0 {
                out.push((chars_to_string(&k), chars_to_string(&v)));
                proof {
                    assert(props_view(out@) =~= props_view(out0) + seq![(k@, v@)]);
                }
            }
        } else {
            proof {
                lemma_find_sub(cs@, i as int, j as int, ':');
            }
        }
        proof {
            let rest = spec_style_pairs(cs@, i as int);
            let head = match spec_style_pair(cs@.subrange(i as int, j as int)) {
                Some(p) => seq![p],
                None => Seq::<(Seq<char>, Seq<char>)>::empty(),
            };
            assert(props_view(out@) =~= props_view(out0) + head);
            if j < cs@.len() {
                assert(props_view(out0) + (head + spec_style_pairs(cs@, j + 1)) =~= props_view(
                    out@,
                ) + spec_style_pairs(cs@, j + 1));
            } else {
                assert(props_view(out0) + head =~= props_view(out@));
            }
        }
        if j < cs.len() {
            i = j + 1;
        } else {
            proof {
                assert(props_view(out@) + Seq::<(Seq<char>, Seq<char>)>::empty() =~= props_view(
                    out@,
                ));
            }
            return out;
        }
    }
}

/// Find a character within a window.
fn find_char_to(s: &Vec<char>, i: usize, to: usize, c: char) -> (r: usize)
    requires
        i <= to <= s@.len(),
    ensures
        r as int == i + spec_find_char(s@.subrange(i as int, to as int), 0, c),
        i <= r <= to,
{
    let ghost seg = s@.subrange(i as int, to as int);
    proof {
        lemma_find_char_bounds(seg, 0, c);
    }
    let mut j = i;
    while j < to && s[j] != c
        invariant
            i <= j <= to,
            spec_find_char(seg, j - i, c) == spec_find_char(seg, 0, c),
        decreases to - j,
    {
        proof {
            assert(seg[j - i] == s@[j as int]);
        }
        j = j + 1;
    }
    proof {
        if j < to {
            assert(seg[j - i] == s@[j as int]);
        }
        assert(spec_find_char(seg, j - i, c) == j - i);
    }
    j
}

/// Finding within a subrange window agrees with the window's own find.
proof fn lemma_find_sub(s: Seq<char>, i: int, j: int, c: char)
    requires
        0 <= i <= j <= s.len(),
    ensures
        ({
            let seg = s.subrange(i, j);
            spec_find_char(seg, 0, c) == seg.len() <==> (i + spec_find_char(seg, 0, c)) >= j
        }),
{
    lemma_find_char_bounds(s.subrange(i, j), 0, c);
}

/// Trimming a window of a window is trimming the inner window directly.
proof fn lemma_trim_sub(s: Seq<char>, i: int, j: int, a: int, b: int)
    requires
        0 <= i <= j <= s.len(),
        0 <= a <= b <= j - i,
    ensures
        spec_trim_range(s, i + a, i + b) == spec_trim_range(s.subrange(i, j), a, b),
{
    assert(s.subrange(i + a, i + b) =~= s.subrange(i, j).subrange(a, b));
}

/// Serialized style text: the declarations joined as `k:v` with `"; "`.
pub open spec fn spec_serialize_style(l: Seq<(Seq<char>, Seq<char>)>, k: int) -> Seq<char>
    decreases l.len() - k when 0 <= k <= l.len()
{
    if k >= l.len() {
        Seq::empty()
    } else if k == l.len() - 1 {
        l[k].0 + ":"@ + l[k].1
    } else {
        l[k].0 + ":"@ + l[k].1 + "; "@ + spec_serialize_style(l, k + 1)
    }
}

/// Serialize a property list into inline style text.
pub fn serialize_style(props: &Vec<(String, String)>) -> (r: String)
    ensures
        r@ == spec_serialize_style(props_view(props@), 0),
{
    let ghost l = props_view(props@);
    let mut out: Vec<char> = Vec::new();
    let mut k: usize = 0;
    while k < props.len()
        invariant
            k <= props@.len(),
            l == props_view(props@),
            spec_serialize_style(l, 0) == out@ + spec_serialize_style(l, k as int),
        decreases props@.len() - k,
    {
        let ghost out0 = out@;
        crate::err::append_str(&mut out, props[k].0.as_str());
        crate::err::append_str(&mut out, ":");
        crate::err::append_str(&mut out, props[k].1.as_str());
        if k + 1 < props.len() {
            crate::err::append_str(&mut out, "; ");
            proof {
                assert(out@ =~= out0 + (l[k as int].0 + ":"@ + l[k as int].1 + "; "@));
                assert(out0 + (l[k as int].0 + ":"@ + l[k as int].1 + "; "@
                    + spec_serialize_style(l, k + 1)) =~= out@ + spec_serialize_style(l, k + 1));
            }
        } else {
            proof {
                assert(out@ =~= out0 + (l[k as int].0 + ":"@ + l[k as int].1));
                assert(out@ + spec_serialize_style(l, k + 1) =~= out@);
            }
        }
        k = k + 1;
    }
    chars_to_string(&out)
}

/// The first index holding a key, or the length.
pub open spec fn spec_find_key(l: Seq<(Seq<char>, Seq<char>)>, key: Seq<char>, k: int) -> int
    decreases l.len() - k when 0 <= k <= l.len()
{
    if k >= l.len() {
        k
    } else if l[k].0 == key {
        k
    } else {
        spec_find_key(l, key, k + 1)
    }
}

proof fn lemma_find_key_bounds(l: Seq<(Seq<char>, Seq<char>)>, key: Seq<char>, k: int)
    requires
        0 <= k <= l.len(),
    ensures
        k <= spec_find_key(l, key, k) <= l.len(),
    decreases l.len() - k,
{
    if k < l.len() && l[k].0 != key {
        lemma_find_key_bounds(l, key, k + 1);
    }
}

/// One declaration written into a list: over the first entry with the same
/// key, or appended.
pub open spec fn spec_merge_one(
    l: Seq<(Seq<char>, Seq<char>)>,
    k: Seq<char>,
    v: Seq<char>,
) -> Seq<(Seq<char>, Seq<char>)> {
    let pos = spec_find_key(l, k, 0);
    if pos < l.len() {
        l.update(pos, (k, v))
    } else {
        l.push((k, v))
    }
}

/// A list of declarations written into another, in order.
pub open spec fn spec_merge_props(
    base: Seq<(Seq<char>, Seq<char>)>,
    other: Seq<(Seq<char>, Seq<char>)>,
    j: int,
) -> Seq<(Seq<char>, Seq<char>)>
    decreases other.len() - j when 0 <= j <= other.len()
{
    if j >= other.len() {
        base
    } else {
        spec_merge_props(spec_merge_one(base, other[j].0, other[j].1), other, j + 1)
    }
}

/// Write the declarations of `other` into `base` in order: an entry whose
/// key is already present overwrites the first such entry in place, a new
/// key is appended. Applied to rule property lists in cascade order, this
/// is what makes later, more specific declarations win.
pub fn merge_style_props(base: &mut Vec<(String, String)>, other: &Vec<(String, String)>)
    ensures
        props_view(final(base)@) == spec_merge_props(props_view(old(base)@), props_view(other@), 0),
{
    let mut j: usize = 0;
    while j < other.len()
        invariant
            j <= other@.len(),
            spec_merge_props(props_view(base@), props_view(other@), j as int) == spec_merge_props(
                props_view(old(base)@),
                props_view(other@),
                0,
            ),
        decreases other@.len() - j,
    {
        let ghost b0 = props_view(base@);
        let key = other[j].0.clone();
        let val = other[j].1.clone();
        let mut pos: usize = 0;
        let mut found = false;
        while pos < base.len() && !found
            invariant
                pos <= base@.len(),
                b0 == props_view(base@),
                key@ == props_view(other@)[j as int].0,
                found ==> pos < base@.len() && b0[pos as int].0 == key@ && spec_find_key(
                    b0,
                    key@,
                    0,
                ) == pos,
                !found ==> spec_find_key(b0, key@, pos as int) == spec_find_key(b0, key@, 0),
            decreases base@.len() - pos + (if found {
                0int
            } else {
                1int
            }),
        {
            if crate::transform::str_eq(base[pos].0.as_str(), key.as_str()) {
                proof {
                    assert(b0[pos as int].0 == base@[pos as int].0@);
                    assert(spec_find_key(b0, key@, pos as int) == pos);
                }
                found = true;
            } else {
                proof {
                    assert(b0[pos as int].0 == base@[pos as int].0@);
                }
                pos = pos + 1;
            }
        }
        proof {
            lemma_find_key_bounds(b0, key@, 0);
            if !found {
                assert(spec_find_key(b0, key@, pos as int) == pos);
                assert(spec_find_key(b0, key@, 0) == pos);
            }
        }
        if found {
            let ghost prev = base@;
            base.set(pos, (key, val));
            proof {
                assert(props_view(base@) =~= spec_merge_one(
                    b0,
                    props_view(other@)[j as int].0,
                    props_view(other@)[j as int].1,
                ));
            }
        } else {
            base.push((key, val));
            proof {
                assert(props_view(base@) =~= spec_merge_one(
                    b0,
                    props_view(other@)[j as int].0,
                    props_view(other@)[j as int].1,
                ));
            }
        }
        j = j + 1;
    }
}

/// Whether a string is a plain identifier: nonempty, all characters
/// letters, digits, hyphens or underscores.
pub open spec fn spec_is_ident_char(c: char) -> bool {
    crate::spec_is_ascii_alpha(c) || crate::spec_is_ascii_digit(c) || c == '-' || c == '_'
}

/// Whether a string is a plain identifier.
pub open spec fn spec_is_simple_ident(s: Seq<char>) -> bool {
    s.len() > 0 && forall|k: int| 0 <= k < s.len() ==> spec_is_ident_char(#[trigger] s[k])
}

/// Whether a string is a plain identifier: nonempty, all characters
/// letters, digits, hyphens or underscores.
pub fn is_simple_ident(s: &str) -> (r: bool)
    ensures
        r == spec_is_simple_ident(s@),
{
    let cs = str_to_chars(s);
    if cs.len() == 0 {
        return false;
    }
    let mut k: usize = 0;
    while k < cs.len()
        invariant
            k <= cs@.len(),
            cs@ == s@,
            forall|i: int| 0 <= i < k ==> spec_is_ident_char(#[trigger] cs@[i]),
        decreases cs@.len() - k,
    {
        let c = cs[k];
        if !(crate::is_ascii_alpha(c) || crate::is_ascii_digit(c) || c == '-' || c == '_') {
            return false;
        }
        k = k + 1;
    }
    true
}

/// The end of the comment whose opener stood before `j`: the first
/// position at or after `j` where `*/` starts, or where the text is about
/// to end.
pub open spec fn spec_comment_end(s: Seq<char>, j: int) -> int
    decreases s.len() - j when j <= s.len() + 1
{
    if 0 <= j && j + 1 < s.len() && !(s[j] == '*' && s[j + 1] == '/') {
        spec_comment_end(s, j + 1)
    } else {
        j
    }
}

proof fn lemma_comment_end_bounds(s: Seq<char>, j: int)
    requires
        0 <= j <= s.len() + 1,
    ensures
        j <= spec_comment_end(s, j),
        spec_comment_end(s, j) <= s.len() + 1,
        j < s.len() ==> spec_comment_end(s, j) < s.len(),
    decreases s.len() - j,
{
    if 0 <= j && j + 1 < s.len() && !(s[j] == '*' && s[j + 1] == '/') {
        lemma_comment_end_bounds(s, j + 1);
    }
}

/// Style text with `/* ... */` comments removed, from `i` on. A comment
/// left unterminated swallows the text up to its final character.
pub open spec fn spec_strip_comments(s: Seq<char>, i: int) -> Seq<char>
    decreases s.len() - i when 0 <= i <= s.len() via spec_strip_comments_dec
{
    if i >= s.len() {
        Seq::empty()
    } else if i + 1 < s.len() && s[i] == '/' && s[i + 1] == '*' {
        let j = spec_comment_end(s, i + 2);
        if j + 1 < s.len() {
            spec_strip_comments(s, j + 2)
        } else if j < s.len() {
            spec_strip_comments(s, j)
        } else {
            Seq::empty()
        }
    } else {
        seq![s[i]] + spec_strip_comments(s, i + 1)
    }
}

#[via_fn]
proof fn spec_strip_comments_dec(s: Seq<char>, i: int) {
    if 0 <= i < s.len() && i + 1 < s.len() && s[i] == '/' && s[i + 1] == '*' {
        lemma_comment_end_bounds(s, i + 2);
    }
}

/// Remove `/* ... */` comments from style text.
pub fn strip_css_comments(input: &str) -> (r: String)
    ensures
        r@ == spec_strip_comments(input@, 0),
{
    let cs = str_to_chars(input);
    let mut out: Vec<char> = Vec::new();
    let mut i: usize = 0;
    while i < cs.len()
        invariant
            i <= cs@.len(),
            cs@ == input@,
            spec_strip_comments(cs@, 0) == out@ + spec_strip_comments(cs@, i as int),
        decreases cs@.len() - i,
    {
        let ghost out0 = out@;
        if i + 1 < cs.len() && cs[i] == '/' && cs[i + 1] == '*' {
            proof {
                lemma_comment_end_bounds(cs@, i as int + 2);
            }
            let mut j = i + 2;
            while j < cs.len() - 1 && !(cs[j] == '*' && cs[j + 1] == '/')
                invariant
                    i + 2 <= j <= cs@.len(),
                    cs@.len() >= 2,
                    spec_comment_end(cs@, j as int) == spec_comment_end(cs@, i as int + 2),
                decreases cs@.len() - j,
            {
                j = j + 1;
            }
            if j < cs.len() - 1 {
                i = j + 2;
            } else {
                i = j;
            }
        } else {
            let c = cs[i];
            out.push(c);
            i = i + 1;
            proof {
                assert(out@ =~= out0 + seq![cs@[i - 1]]);
                assert(out0 + (seq![cs@[i - 1]] + spec_strip_comments(cs@, i as int)) =~= out@
                    + spec_strip_comments(cs@, i as int));
            }
        }
    }
    proof {
        assert(out@ + Seq::<char>::empty() =~= out@);
    }
    chars_to_string(&out)
}

/// One simple selector: an optional tag name, an optional id, and a set
/// of class names; at least one of them must be present.
pub struct SimpleSelector {
    pub element: Option<String>,
    pub id: Option<String>,
    pub classes: Vec<String>,
}

/// The mathematical content of a simple selector.
pub struct GSimple {
    pub element: Option<Seq<char>>,
    pub id: Option<Seq<char>>,
    pub classes: Seq<Seq<char>>,
}

impl SimpleSelector {
    /// The mathematical content of this selector.
    pub open spec fn view_g(self) -> GSimple {
        GSimple {
            element: match self.element {
                Some(e) => Some(e@),
                None => None,
            },
            id: match self.id {
                Some(e) => Some(e@),
                None => None,
            },
            classes: self.classes@.map_values(|c: String| c@),
        }
    }
}

/// How an ancestor selector relates to the target.
#[derive(Clone, Copy, PartialEq, Eq, Structural, Debug)]
pub enum SelectorRelation {
    /// Any strict ancestor may match.
    Descendant,
    /// The immediate parent must match.
    Child,
}

/// A full selector: a target, and at most one ancestor with its relation.
pub struct StyleSelector {
    pub ancestor: Option<SimpleSelector>,
    pub relation: Option<SelectorRelation>,
    pub target: SimpleSelector,
}

/// The mathematical content of a full selector.
pub struct GSelector {
    pub ancestor: Option<GSimple>,
    pub relation: Option<SelectorRelation>,
    pub target: GSimple,
}

impl StyleSelector {
    /// The mathematical content of this selector.
    pub open spec fn view_g(self) -> GSelector {
        GSelector {
            ancestor: match self.ancestor {
                Some(a) => Some(a.view_g()),
                None => None,
            },
            relation: self.relation,
            target: self.target.view_g(),
        }
    }
}

/// Whether a character may continue an identifier.
pub open spec fn spec_sel_char(c: char) -> bool {
    crate::spec_is_ascii_alpha(c) || crate::spec_is_ascii_digit(c) || c == '-' || c == '_'
}

/// The position after the identifier run starting at `i`.
pub open spec fn spec_ident_run(s: Seq<char>, i: int) -> int
    decreases s.len() - i when i <= s.len()
{
    if 0 <= i < s.len() && spec_sel_char(s[i]) {
        spec_ident_run(s, i + 1)
    } else {
        i
    }
}

proof fn lemma_ident_run_bounds(s: Seq<char>, i: int)
    requires
        0 <= i <= s.len(),
    ensures
        i <= spec_ident_run(s, i) <= s.len(),
    decreases s.len() - i,
{
    if 0 <= i < s.len() && spec_sel_char(s[i]) {
        lemma_ident_run_bounds(s, i + 1);
    }
}

/// Whether the text holds a character the selector grammar rejects.
pub open spec fn spec_has_unsupported(s: Seq<char>) -> bool {
    exists|k: int|
        0 <= k < s.len() && ((#[trigger] s[k]) == '>' || s[k] == '+' || s[k] == '~' || s[k] == '['
            || s[k] == ']' || s[k] == ':')
}

/// An empty simple selector, to be filled while scanning.
pub open spec fn spec_gsimple_empty() -> GSimple {
    GSimple { element: None, id: None, classes: Seq::empty() }
}

/// Scan a simple selector from `i`, accumulating its pieces; `None` where
/// the grammar rejects, or where nothing at all was named.
pub open spec fn spec_simple_scan(s: Seq<char>, i: int, acc: GSimple) -> Option<GSimple>
    decreases s.len() - i when 0 <= i <= s.len() via spec_simple_scan_dec
{
    if i >= s.len() {
        if acc.element is None && acc.id is None && acc.classes.len() == 0 {
            None
        } else {
            Some(acc)
        }
    } else if s[i] == '.' || s[i] == '#' {
        let j = spec_ident_run(s, i + 1);
        if j == i + 1 {
            None
        } else {
            let ident = s.subrange(i + 1, j);
            if s[i] == '.' {
                spec_simple_scan(s, j, GSimple { classes: acc.classes.push(ident), ..acc })
            } else if acc.id is Some {
                None
            } else {
                spec_simple_scan(s, j, GSimple { id: Some(ident), ..acc })
            }
        }
    } else {
        let j = spec_ident_run(s, i);
        if j == i {
            None
        } else if acc.element is Some {
            None
        } else {
            spec_simple_scan(s, j, GSimple { element: Some(s.subrange(i, j)), ..acc })
        }
    }
}

#[via_fn]
proof fn spec_simple_scan_dec(s: Seq<char>, i: int, acc: GSimple) {
    if 0 <= i < s.len() {
        lemma_ident_run_bounds(s, i + 1);
        lemma_ident_run_bounds(s, i);
    }
}

/// The parse of one simple selector: rejected outright when empty or when
/// it holds unsupported syntax, else scanned piece by piece.
pub open spec fn spec_parse_simple(s: Seq<char>) -> Option<GSimple> {
    if s.len() == 0 || spec_has_unsupported(s) {
        None
    } else {
        spec_simple_scan(s, 0, spec_gsimple_empty())
    }
}

/// Parse one simple selector: a tag name, `.classes` and `#id` in any
/// order; anything else rejects it.
pub fn parse_simple_selector(sel: &str) -> (r: Option<SimpleSelector>)
    ensures
        match r {
            Some(ss) => spec_parse_simple(sel@) == Some(ss.view_g()),
            None => spec_parse_simple(sel@) is None,
        },
{
    let cs = str_to_chars(sel);
    if cs.len() == 0 {
        return None;
    }
    let mut k: usize = 0;
    while k < cs.len()
        invariant
            k <= cs@.len(),
            cs@ == sel@,
            forall|j: int|
                0 <= j < k ==> !((#[trigger] cs@[j]) == '>' || cs@[j] == '+' || cs@[j] == '~'
                    || cs@[j] == '[' || cs@[j] == ']' || cs@[j] == ':'),
        decreases cs@.len() - k,
    {
        let c = cs[k];
        if c == '>' || c == '+' || c == '~' || c == '[' || c == ']' || c == ':' {
            return None;
        }
        k = k + 1;
    }
    proof {
        assert(!spec_has_unsupported(cs@));
    }
    let mut element: Option<String> = None;
    let mut id: Option<String> = None;
    let mut classes: Vec<String> = Vec::new();
    proof {
        assert(classes@.map_values(|c: String| c@) =~= Seq::<Seq<char>>::empty());
    }
    let mut i: usize = 0;
    loop
        invariant
            i <= cs@.len(),
            cs@ == sel@,
            spec_simple_scan(cs@, 0, spec_gsimple_empty()) == spec_simple_scan(
                cs@,
                i as int,
                GSimple {
                    element: match element {
                        Some(e) => Some(e@),
                        None => None,
                    },
                    id: match id {
                        Some(e) => Some(e@),
                        None => None,
                    },
                    classes: classes@.map_values(|c: String| c@),
                },
            ),
        decreases cs@.len() - i,
    {
        if i >= cs.len() {
            break;
        }
        let c = cs[i];
        if c == '.' || c == '#' {
            let j = ident_run(&cs, i + 1);
            if j == i + 1 {
                return None;
            }
            let ident = crate::path::copy_range(&cs, i + 1, j);
            if c == '.' {
                let ghost old_classes = classes@.map_values(|c: String| c@);
                classes.push(chars_to_string(&ident));
                proof {
                    assert(classes@.map_values(|c: String| c@) =~= old_classes.push(ident@));
                }
            } else if id.is_some() {
                return None;
            } else {
                id = Some(chars_to_string(&ident));
            }
            i = j;
        } else {
            let j = ident_run(&cs, i);
            if j == i {
                return None;
            }
            if element.is_some() {
                return None;
            }
            let ident = crate::path::copy_range(&cs, i, j);
            element = Some(chars_to_string(&ident));
            i = j;
        }
    }
    if element.is_none() && id.is_none() && classes.len() == 0 {
        return None;
    }
    let ss = SimpleSelector { element, id, classes };
    Some(ss)
}

/// The position after the identifier run starting at `i`.
fn ident_run(s: &Vec<char>, i: usize) -> (r: usize)
    requires
        i <= s@.len(),
    ensures
        r == spec_ident_run(s@, i as int),
        i <= r <= s@.len(),
{
    proof {
        lemma_ident_run_bounds(s@, i as int);
    }
    let mut j = i;
    while j < s.len() && (crate::is_ascii_alpha(s[j]) || crate::is_ascii_digit(s[j]) || s[j] == '-'
        || s[j] == '_')
        invariant
            i <= j <= s@.len(),
            spec_ident_run(s@, j as int) == spec_ident_run(s@, i as int),
        decreases s@.len() - j,
    {
        j = j + 1;
    }
    j
}

/// The trimmed, nonempty parts of a `>`-separated selector.
pub open spec fn spec_gt_parts(s: Seq<char>, i: int) -> Seq<Seq<char>>
    decreases s.len() - i when 0 <= i <= s.len() via spec_gt_parts_dec
{
    let j = spec_find_char(s, i, '>');
    let p = spec_trim_range(s, i, j);
    let head: Seq<Seq<char>> = if p.len() > 0 {
        seq![p]
    } else {
        Seq::empty()
    };
    if j < s.len() {
        head + spec_gt_parts(s, j + 1)
    } else {
        head
    }
}

#[via_fn]
proof fn spec_gt_parts_dec(s: Seq<char>, i: int) {
    lemma_find_char_bounds(s, i, '>');
}

/// The position after the run of non-blank characters starting at `i`.
pub open spec fn spec_token_end(s: Seq<char>, i: int) -> int
    decreases s.len() - i when i <= s.len()
{
    if 0 <= i < s.len() && !spec_is_unicode_ws(s[i]) {
        spec_token_end(s, i + 1)
    } else {
        i
    }
}

proof fn lemma_token_end_bounds(s: Seq<char>, i: int)
    requires
        0 <= i <= s.len(),
    ensures
        i <= spec_token_end(s, i) <= s.len(),
    decreases s.len() - i,
{
    if 0 <= i < s.len() && !spec_is_unicode_ws(s[i]) {
        lemma_token_end_bounds(s, i + 1);
    }
}

/// The white-space-separated tokens of a selector.
pub open spec fn spec_ws_split(s: Seq<char>, i: int) -> Seq<Seq<char>>
    decreases s.len() - i when 0 <= i <= s.len() via spec_ws_split_dec
{
    let a = spec_skip_ws(s, i);
    if a >= s.len() {
        Seq::empty()
    } else {
        let b = spec_token_end(s, a);
        seq![s.subrange(a, b)] + spec_ws_split(s, b)
    }
}

#[via_fn]
proof fn spec_ws_split_dec(s: Seq<char>, i: int) {
    lemma_skip_ws_bounds(s, i);
    lemma_skip_ws_stop(s, i);
    let a = spec_skip_ws(s, i);
    if a < s.len() {
        lemma_token_end_bounds(s, a + 1);
        assert(spec_token_end(s, a) == spec_token_end(s, a + 1));
    }
}

/// The parse of one full selector: a target simple selector, optionally
/// preceded by one ancestor — separated by `>` for a child relation or by
/// white space for a descendant relation. Anything else rejects it.
pub open spec fn spec_parse_selector(s: Seq<char>) -> Option<GSelector> {
    let t = spec_trim_range(s, 0, s.len() as int);
    if t.len() == 0 {
        None
    } else if spec_find_char(t, 0, '>') < t.len() {
        let parts = spec_gt_parts(t, 0);
        if parts.len() != 2 {
            None
        } else {
            match (spec_parse_simple(parts[0]), spec_parse_simple(parts[1])) {
                (Some(anc), Some(tgt)) => Some(
                    GSelector {
                        ancestor: Some(anc),
                        relation: Some(SelectorRelation::Child),
                        target: tgt,
                    },
                ),
                _ => None,
            }
        }
    } else {
        let parts = spec_ws_split(t, 0);
        if parts.len() == 0 || parts.len() > 2 {
            None
        } else {
            match spec_parse_simple(parts[parts.len() - 1]) {
                None => None,
                Some(tgt) => if parts.len() == 2 {
                    match spec_parse_simple(parts[0]) {
                        None => None,
                        Some(anc) => Some(
                            GSelector {
                                ancestor: Some(anc),
                                relation: Some(SelectorRelation::Descendant),
                                target: tgt,
                            },
                        ),
                    }
                } else {
                    Some(GSelector { ancestor: None, relation: None, target: tgt })
                },
            }
        }
    }
}

/// Collect the trimmed, nonempty `>`-separated parts.
fn gt_parts(s: &Vec<char>) -> (r: Vec<Vec<char>>)
    ensures
        r@.map_values(|p: Vec<char>| p@) == spec_gt_parts(s@, 0),
{
    let mut out: Vec<Vec<char>> = Vec::new();
    let mut i: usize = 0;
    loop
        invariant
            i <= s@.len(),
            spec_gt_parts(s@, 0) == out@.map_values(|p: Vec<char>| p@) + spec_gt_parts(
                s@,
                i as int,
            ),
        decreases s@.len() - i + 1,
    {
        let ghost out0 = out@.map_values(|p: Vec<char>| p@);
        let j = find_char(s, i, '>');
        let p = trim_range(s, i, j);
        if p.len() > 0 {
            out.push(p);
        }
        proof {
            let head: Seq<Seq<char>> = if spec_trim_range(s@, i as int, j as int).len() > 0 {
                seq![spec_trim_range(s@, i as int, j as int)]
            } else {
                Seq::empty()
            };
            assert(out@.map_values(|p: Vec<char>| p@) =~= out0 + head);
            if (j as int) < s@.len() {
                assert(out0 + (head + spec_gt_parts(s@, j + 1)) =~= out@.map_values(
                    |p: Vec<char>| p@,
                ) + spec_gt_parts(s@, j + 1));
            } else {
                assert(out0 + head =~= out@.map_values(|p: Vec<char>| p@));
            }
        }
        if j < s.len() {
            i = j + 1;
        } else {
            proof {
                assert(out@.map_values(|p: Vec<char>| p@) + Seq::<Seq<char>>::empty()
                    =~= out@.map_values(|p: Vec<char>| p@));
            }
            return out;
        }
    }
}

/// Collect the white-space-separated tokens.
pub fn ws_split(s: &Vec<char>) -> (r: Vec<Vec<char>>)
    ensures
        r@.map_values(|p: Vec<char>| p@) == spec_ws_split(s@, 0),
{
    let mut out: Vec<Vec<char>> = Vec::new();
    let mut i: usize = 0;
    loop
        invariant
            i <= s@.len(),
            spec_ws_split(s@, 0) == out@.map_values(|p: Vec<char>| p@) + spec_ws_split(
                s@,
                i as int,
            ),
        decreases s@.len() - i,
    {
        proof {
            lemma_skip_ws_bounds(s@, i as int);
        }
        let a = skip_ws_exec(s, i);
        if a >= s.len() {
            proof {
                assert(out@.map_values(|p: Vec<char>| p@) + Seq::<Seq<char>>::empty()
                    =~= out@.map_values(|p: Vec<char>| p@));
            }
            return out;
        }
        proof {
            lemma_skip_ws_stop(s@, i as int);
            lemma_token_end_bounds(s@, a as int + 1);
            assert(spec_token_end(s@, a as int) == spec_token_end(s@, a as int + 1));
        }
        let b = token_end(s, a);
        let ghost out0 = out@.map_values(|p: Vec<char>| p@);
        let p = crate::path::copy_range(s, a, b);
        out.push(p);
        proof {
            assert(out@.map_values(|p: Vec<char>| p@) =~= out0 + seq![
                s@.subrange(a as int, b as int),
            ]);
            assert(out0 + (seq![s@.subrange(a as int, b as int)] + spec_ws_split(s@, b as int))
                =~= out@.map_values(|p: Vec<char>| p@) + spec_ws_split(s@, b as int));
        }
        i = b;
    }
}

/// The position after the run of white space starting at `i`.
fn skip_ws_exec(s: &Vec<char>, i: usize) -> (r: usize)
    requires
        i <= s@.len(),
    ensures
        r == spec_skip_ws(s@, i as int),
        i <= r <= s@.len(),
{
    proof {
        lemma_skip_ws_bounds(s@, i as int);
    }
    let mut j = i;
    while j < s.len() && is_unicode_ws(s[j])
        invariant
            i <= j <= s@.len(),
            spec_skip_ws(s@, j as int) == spec_skip_ws(s@, i as int),
        decreases s@.len() - j,
    {
        j = j + 1;
    }
    j
}

/// The position after the run of non-blank characters starting at `i`.
fn token_end(s: &Vec<char>, i: usize) -> (r: usize)
    requires
        i <= s@.len(),
    ensures
        r == spec_token_end(s@, i as int),
        i <= r <= s@.len(),
{
    proof {
        lemma_token_end_bounds(s@, i as int);
    }
    let mut j = i;
    while j < s.len() && !is_unicode_ws(s[j])
        invariant
            i <= j <= s@.len(),
            spec_token_end(s@, j as int) == spec_token_end(s@, i as int),
        decreases s@.len() - j,
    {
        j = j + 1;
    }
    j
}

/// Parse one full selector.
pub fn parse_selector(s: &str) -> (r: Option<StyleSelector>)
    ensures
        match r {
            Some(ss) => spec_parse_selector(s@) == Some(ss.view_g()),
            None => spec_parse_selector(s@) is None,
        },
{
    let cs = str_to_chars(s);
    let t = trim_range(&cs, 0, cs.len());
    proof {
        assert(cs@.subrange(0, cs@.len() as int) =~= cs@);
    }
    if t.len() == 0 {
        return None;
    }
    let gt = find_char(&t, 0, '>');
    if gt < t.len() {
        let parts = gt_parts(&t);
        if parts.len() != 2 {
            return None;
        }
        proof {
            assert(parts@.map_values(|p: Vec<char>| p@)[0] == parts@[0]@);
            assert(parts@.map_values(|p: Vec<char>| p@)[1] == parts@[1]@);
        }
        let anc = match parse_simple_selector(chars_to_string(&parts[0]).as_str()) {
            Some(a) => a,
            None => {
                return None;
            },
        };
        let tgt = match parse_simple_selector(chars_to_string(&parts[1]).as_str()) {
            Some(a) => a,
            None => {
                return None;
            },
        };
        Some(
            StyleSelector {
                ancestor: Some(anc),
                relation: Some(SelectorRelation::Child),
                target: tgt,
            },
        )
    } else {
        let parts = ws_split(&t);
        if parts.len() == 0 || parts.len() > 2 {
            return None;
        }
        proof {
            assert(parts@.map_values(|p: Vec<char>| p@)[parts@.len() - 1] == parts@[parts@.len()
                - 1]@);
            if parts@.len() == 2 {
                assert(parts@.map_values(|p: Vec<char>| p@)[0] == parts@[0]@);
            }
        }
        let tgt = match parse_simple_selector(chars_to_string(&parts[parts.len() - 1]).as_str()) {
            Some(a) => a,
            None => {
                return None;
            },
        };
        if parts.len() == 2 {
            let anc = match parse_simple_selector(chars_to_string(&parts[0]).as_str()) {
                Some(a) => a,
                None => {
                    return None;
                },
            };
            Some(
                StyleSelector {
                    ancestor: Some(anc),
                    relation: Some(SelectorRelation::Descendant),
                    target: tgt,
                },
            )
        } else {
            Some(StyleSelector { ancestor: None, relation: None, target: tgt })
        }
    }
}

/// The specificity of a simple selector: one hundred for an id, ten per
/// class, one for a tag name.
pub open spec fn spec_specificity_simple(g: GSimple) -> nat {
    (if g.id is Some {
        100nat
    } else {
        0nat
    }) + 10 * g.classes.len() + (if g.element is Some {
        1nat
    } else {
        0nat
    })
}

/// The specificity of a simple selector, saturated at the field's width.
pub fn selector_specificity_simple(sel: &SimpleSelector) -> (r: u32)
    ensures
        r as nat == if spec_specificity_simple(sel.view_g()) <= u32::MAX as nat {
            spec_specificity_simple(sel.view_g())
        } else {
            u32::MAX as nat
        },
{
    let mut score: u64 = 0;
    if sel.id.is_some() {
        score = score + 100;
    }
    let cls = sel.classes.len();
    let cls_capped: u64 = if cls as u64 <= 500_000_000 {
        cls as u64
    } else {
        500_000_000
    };
    score = score + 10 * cls_capped;
    if sel.element.is_some() {
        score = score + 1;
    }
    proof {
        assert(sel.view_g().classes.len() == sel.classes@.len());
    }
    if score > u32::MAX as u64 {
        u32::MAX
    } else {
        score as u32
    }
}

/// The specificity of a full selector: target plus ancestor.
pub open spec fn spec_specificity(g: GSelector) -> nat {
    spec_specificity_simple(g.target) + (match g.ancestor {
        Some(a) => spec_specificity_simple(a),
        None => 0nat,
    })
}

/// The specificity of a full selector, saturated at the field's width.
pub fn selector_specificity(sel: &StyleSelector) -> (r: u32)
    ensures
        r as nat == if spec_specificity(sel.view_g()) <= u32::MAX as nat {
            spec_specificity(sel.view_g())
        } else {
            u32::MAX as nat
        },
{
    let t = selector_specificity_simple(&sel.target);
    let a: u32 = match &sel.ancestor {
        Some(anc) => selector_specificity_simple(anc),
        None => 0,
    };
    if t as u64 + a as u64 > u32::MAX as u64 {
        u32::MAX
    } else {
        t + a
    }
}

/// Copy a property list.
pub fn clone_props(props: &Vec<(String, String)>) -> (r: Vec<(String, String)>)
    ensures
        props_view(r@) == props_view(props@),
{
    let mut out: Vec<(String, String)> = Vec::new();
    let mut i: usize = 0;
    while i < props.len()
        invariant
            i <= props@.len(),
            props_view(out@) == props_view(props@).take(i as int),
        decreases props@.len() - i,
    {
        out.push((props[i].0.clone(), props[i].1.clone()));
        i = i + 1;
        proof {
            assert(props_view(out@) =~= props_view(props@).take(i as int));
        }
    }
    proof {
        assert(props_view(props@).take(props@.len() as int) =~= props_view(props@));
    }
    out
}

/// One stylesheet rule: a selector, its declarations, and the two sort
/// keys of the cascade — specificity, then source order.
pub struct StyleRule {
    pub selector: StyleSelector,
    pub props: Vec<(String, String)>,
    pub specificity: u32,
    pub order: u32,
}

/// The mathematical content of a stylesheet rule.
pub struct GRule {
    pub selector: GSelector,
    pub props: Seq<(Seq<char>, Seq<char>)>,
    pub specificity: nat,
    pub order: nat,
}

impl StyleRule {
    /// The mathematical content of this rule.
    pub open spec fn view_g(self) -> GRule {
        GRule {
            selector: self.selector.view_g(),
            props: props_view(self.props@),
            specificity: self.specificity as nat,
            order: self.order as nat,
        }
    }
}

/// The mathematical content of a rule list.
pub open spec fn rules_view(l: Seq<StyleRule>) -> Seq<GRule> {
    l.map_values(|r: StyleRule| r.view_g())
}

/// A saturating sort key.
pub open spec fn spec_sat32(n: nat) -> nat {
    if n <= u32::MAX as nat {
        n
    } else {
        u32::MAX as nat
    }
}

/// The rules made from one block's comma-separated selector list: one rule
/// per selector that parses, each carrying the block's declarations and
/// source order.
pub open spec fn spec_sel_rules(
    sel_text: Seq<char>,
    i: int,
    props: Seq<(Seq<char>, Seq<char>)>,
    order: nat,
) -> Seq<GRule>
    decreases sel_text.len() - i when 0 <= i <= sel_text.len() via spec_sel_rules_dec
{
    let j = spec_find_char(sel_text, i, ',');
    let head: Seq<GRule> = match spec_parse_selector(sel_text.subrange(i, j)) {
        Some(g) => seq![
            GRule { selector: g, props, specificity: spec_sat32(spec_specificity(g)), order },
        ],
        None => Seq::empty(),
    };
    if j < sel_text.len() {
        head + spec_sel_rules(sel_text, j + 1, props, order)
    } else {
        head
    }
}

#[via_fn]
proof fn spec_sel_rules_dec(
    sel_text: Seq<char>,
    i: int,
    props: Seq<(Seq<char>, Seq<char>)>,
    order: nat,
) {
    lemma_find_char_bounds(sel_text, i, ',');
}

/// The rules of comment-stripped stylesheet text from `i` on: blocks of
/// `selectors { declarations }`, numbered in source order; a block whose
/// brace never closes, an empty selector list or an empty body yields
/// nothing.
pub open spec fn spec_css_rules(s: Seq<char>, i: int, order: nat) -> Seq<GRule>
    decreases s.len() - i when 0 <= i <= s.len() via spec_css_rules_dec
{
    let o = spec_find_char(s, i, '{');
    if o >= s.len() {
        Seq::empty()
    } else {
        let c = spec_find_char(s, o + 1, '}');
        if c >= s.len() {
            Seq::empty()
        } else {
            let sel_text = spec_trim_range(s, i, o);
            let props = spec_style_pairs(s.subrange(o + 1, c), 0);
            let head: Seq<GRule> = if sel_text.len() > 0 && props.len() > 0 {
                spec_sel_rules(sel_text, 0, props, order)
            } else {
                Seq::empty()
            };
            head + spec_css_rules(
                s,
                c + 1,
                if order < u32::MAX as nat {
                    order + 1
                } else {
                    order
                },
            )
        }
    }
}

#[via_fn]
proof fn spec_css_rules_dec(s: Seq<char>, i: int, order: nat) {
    lemma_find_char_bounds(s, i, '{');
    let o = spec_find_char(s, i, '{');
    if o < s.len() {
        lemma_find_char_bounds(s, o + 1, '}');
    }
}

/// Parse stylesheet text into its rules: comments stripped, blocks read in
/// order, each comma-separated selector yielding one rule with the block's
/// declarations; unsupported selectors are silently dropped.
pub fn parse_css_rules(input: &str) -> (r: Vec<StyleRule>)
    ensures
        rules_view(r@) == spec_css_rules(spec_strip_comments(input@, 0), 0, 0),
{
    let cleaned = strip_css_comments(input);
    let cs = str_to_chars(cleaned.as_str());
    let ghost s = spec_strip_comments(input@, 0);
    let mut out: Vec<StyleRule> = Vec::new();
    let mut i: usize = 0;
    let mut order: u32 = 0;
    loop
        invariant
            i <= cs@.len(),
            cs@ == s,
            spec_css_rules(s, 0, 0) == rules_view(out@) + spec_css_rules(
                s,
                i as int,
                order as nat,
            ),
        decreases cs@.len() - i,
    {
        let o = find_char(&cs, i, '{');
        if o >= cs.len() {
            break;
        }
        let c = find_char(&cs, o + 1, '}');
        if c >= cs.len() {
            break;
        }
        let sel_text = trim_range(&cs, i, o);
        let body = crate::path::copy_range(&cs, o + 1, c);
        let props = parse_style(chars_to_string(&body).as_str());
        let ghost out0 = rules_view(out@);
        let ghost pv = props_view(props@);
        if sel_text.len() > 0 && props.len() > 0 {
            let mut k: usize = 0;
            loop
                invariant
                    k <= sel_text@.len(),
                    pv == props_view(props@),
                    out0 + spec_sel_rules(sel_text@, 0, pv, order as nat) == rules_view(out@)
                        + spec_sel_rules(sel_text@, k as int, pv, order as nat),
                decreases sel_text@.len() - k,
            {
                let ghost outk = rules_view(out@);
                let j = find_char(&sel_text, k, ',');
                let part = crate::path::copy_range(&sel_text, k, j);
                match parse_selector(chars_to_string(&part).as_str()) {
                    Some(sel) => {
                        let specificity = selector_specificity(&sel);
                        let rule = StyleRule {
                            selector: sel,
                            props: clone_props(&props),
                            specificity,
                            order,
                        };
                        proof {
                            assert(rule.view_g() == (GRule {
                                selector: rule.selector.view_g(),
                                props: pv,
                                specificity: spec_sat32(spec_specificity(rule.selector.view_g())),
                                order: order as nat,
                            }));
                        }
                        out.push(rule);
                        proof {
                            assert(rules_view(out@) =~= outk + seq![rule.view_g()]);
                        }
                    },
                    None => {},
                }
                proof {
                    let head: Seq<GRule> = match spec_parse_selector(
                        sel_text@.subrange(k as int, j as int),
                    ) {
                        Some(g) => seq![
                            GRule {
                                selector: g,
                                props: pv,
                                specificity: spec_sat32(spec_specificity(g)),
                                order: order as nat,
                            },
                        ],
                        None => Seq::empty(),
                    };
                    assert(rules_view(out@) =~= outk + head);
                    if (j as int) < sel_text@.len() {
                        assert(outk + (head + spec_sel_rules(sel_text@, j + 1, pv, order as nat))
                            =~= rules_view(out@) + spec_sel_rules(
                            sel_text@,
                            j + 1,
                            pv,
                            order as nat,
                        ));
                    } else {
                        assert(outk + head =~= rules_view(out@));
                    }
                }
                if j < sel_text.len() {
                    k = j + 1;
                } else {
                    proof {
                        assert(rules_view(out@) + Seq::<GRule>::empty() =~= rules_view(out@));
                    }
                    break;
                }
            }
        }
        proof {
            let head_css: Seq<GRule> = if sel_text@.len() > 0 && pv.len() > 0 {
                spec_sel_rules(sel_text@, 0, pv, order as nat)
            } else {
                Seq::empty()
            };
            assert(rules_view(out@) =~= out0 + head_css);
            let next_order: nat = if (order as nat) < u32::MAX as nat {
                order as nat + 1
            } else {
                order as nat
            };
            assert(out0 + (head_css + spec_css_rules(s, c + 1, next_order)) =~= rules_view(out@)
                + spec_css_rules(s, c + 1, next_order));
        }
        i = c + 1;
        order = if order < u32::MAX {
            order + 1
        } else {
            order
        };
    }
    proof {
        assert(rules_view(out@) + Seq::<GRule>::empty() =~= rules_view(out@));
    }
    out
}

} // verus!
