//! The transform algebra: parsing `transform` function lists, composing
//! them into a single affine matrix, and producing scaled transform text.
//!
//! A transform list parses into named operations with decimal parameters.
//! A list of pure translations keeps its shape when scaled; anything else
//! is composed into one matrix whose six coefficients are scaled
//! uniformly — a subtree under a non-translation transform is not
//! rescaled, so the matrix alone must carry the whole visual factor.
//! Rotation and skew entries come from the decimal trigonometry below,
//! whose precision (like any trigonometry's) is implementation-defined;
//! everything else in the composition is exact.

use vstd::prelude::*;
use crate::err::ScaleError;
use crate::num::{
    Dec,
    chars_to_string,
    dec_add,
    dec_div,
    dec_from_chars,
    dec_is_tiny,
    dec_mul,
    dec_neg,
    normalize,
    spec_dec_add,
    spec_dec_div,
    spec_dec_mul,
    spec_dec_neg,
    spec_dec_tiny,
    spec_fmt_dec,
    str_to_chars,
};

verus! {

/// An affine map `x' = a·x + c·y + e`, `y' = b·x + d·y + f`.
#[derive(Debug)]
pub struct AffineMatrix {
    pub a: Dec,
    pub b: Dec,
    pub c: Dec,
    pub d: Dec,
    pub e: Dec,
    pub f: Dec,
}

impl AffineMatrix {
    /// All six coefficients are canonical decimals.
    pub open spec fn wf(self) -> bool {
        self.a.wf() && self.b.wf() && self.c.wf() && self.d.wf() && self.e.wf() && self.f.wf()
    }

    /// The identity map.
    pub open spec fn spec_identity() -> AffineMatrix {
        AffineMatrix {
            a: Dec::spec_one(),
            b: Dec::Fin { neg: false, mant: 0, exp: 0 },
            c: Dec::Fin { neg: false, mant: 0, exp: 0 },
            d: Dec::spec_one(),
            e: Dec::Fin { neg: false, mant: 0, exp: 0 },
            f: Dec::Fin { neg: false, mant: 0, exp: 0 },
        }
    }

    /// The identity map.
    pub fn identity() -> (r: AffineMatrix)
        ensures
            r == AffineMatrix::spec_identity(),
            r.wf(),
    {
        AffineMatrix {
            a: Dec::one(),
            b: Dec::zero(),
            c: Dec::zero(),
            d: Dec::one(),
            e: Dec::zero(),
            f: Dec::zero(),
        }
    }

    /// A pure translation by `(tx, ty)`.
    pub open spec fn spec_translation(tx: Dec, ty: Dec) -> AffineMatrix {
        AffineMatrix {
            a: Dec::spec_one(),
            b: Dec::Fin { neg: false, mant: 0, exp: 0 },
            c: Dec::Fin { neg: false, mant: 0, exp: 0 },
            d: Dec::spec_one(),
            e: tx,
            f: ty,
        }
    }
}

/// The product of two affine matrices, in the order matching
/// left-to-right function application.
pub open spec fn spec_mat_mul(x: AffineMatrix, y: AffineMatrix) -> AffineMatrix {
    AffineMatrix {
        a: spec_dec_add(spec_dec_mul(x.a, y.a), spec_dec_mul(x.c, y.b)),
        b: spec_dec_add(spec_dec_mul(x.b, y.a), spec_dec_mul(x.d, y.b)),
        c: spec_dec_add(spec_dec_mul(x.a, y.c), spec_dec_mul(x.c, y.d)),
        d: spec_dec_add(spec_dec_mul(x.b, y.c), spec_dec_mul(x.d, y.d)),
        e: spec_dec_add(spec_dec_add(spec_dec_mul(x.a, y.e), spec_dec_mul(x.c, y.f)), x.e),
        f: spec_dec_add(spec_dec_add(spec_dec_mul(x.b, y.e), spec_dec_mul(x.d, y.f)), x.f),
    }
}

/// Multiply two affine matrices.
pub fn mat_mul(x: &AffineMatrix, y: &AffineMatrix) -> (r: AffineMatrix)
    requires
        x.wf(),
        y.wf(),
    ensures
        r == spec_mat_mul(*x, *y),
        r.wf(),
{
    let aa = dec_mul(&x.a, &y.a);
    let cb = dec_mul(&x.c, &y.b);
    let ba = dec_mul(&x.b, &y.a);
    let db = dec_mul(&x.d, &y.b);
    let ac = dec_mul(&x.a, &y.c);
    let cd = dec_mul(&x.c, &y.d);
    let bc = dec_mul(&x.b, &y.c);
    let dd = dec_mul(&x.d, &y.d);
    let ae = dec_mul(&x.a, &y.e);
    let cf = dec_mul(&x.c, &y.f);
    let be = dec_mul(&x.b, &y.e);
    let df = dec_mul(&x.d, &y.f);
    let e1 = dec_add(&ae, &cf);
    let f1 = dec_add(&be, &df);
    AffineMatrix {
        a: dec_add(&aa, &cb),
        b: dec_add(&ba, &db),
        c: dec_add(&ac, &cd),
        d: dec_add(&bc, &dd),
        e: dec_add(&e1, &x.e),
        f: dec_add(&f1, &x.f),
    }
}

/// The constant `pi / 180`, to nineteen digits.
pub open spec fn spec_pi_over_180() -> Dec {
    crate::num::spec_norm(false, 1_745_329_251_994_329_577, -20)
}

/// The constant `pi / 180`, to nineteen digits.
fn pi_over_180() -> (r: Dec)
    ensures
        r == spec_pi_over_180(),
        r.wf(),
{
    proof {
        crate::num::lemma_norm_wf(false, 1_745_329_251_994_329_577, -20);
    }
    normalize(false, 1_745_329_251_994_329_577, -20)
}

/// A remainder modulo 360 carried through `k` more factors of ten.
pub open spec fn spec_rot_mod(rm: nat, k: nat) -> nat
    decreases k,
{
    if k == 0 {
        rm
    } else {
        spec_rot_mod((rm * 10) % 360, (k - 1) as nat)
    }
}

/// A whole number of degrees below 360 combined with a fraction below
/// one, shifted by a full turn when the sum would pass half a turn.
pub open spec fn spec_center(ipart: nat, frac: Dec) -> Dec {
    let id = crate::num::spec_norm(false, ipart, 0);
    let sum = spec_dec_add(id, frac);
    if ipart >= 180 {
        spec_dec_add(sum, spec_dec_neg(crate::num::spec_norm(false, 360, 0)))
    } else {
        sum
    }
}

/// A finite angle in degrees reduced to the window the series evaluation
/// accepts, preserving its value modulo full turns.
pub open spec fn spec_reduce_angle(neg: bool, mant: u128, exp: i64) -> Dec {
    if mant == 0 {
        Dec::Fin { neg: false, mant: 0, exp: 0 }
    } else if exp >= 0 {
        let rm = spec_rot_mod((mant as nat) % 360, exp as nat);
        let c = spec_center(rm, Dec::Fin { neg: false, mant: 0, exp: 0 });
        if neg {
            spec_dec_neg(c)
        } else {
            c
        }
    } else if -exp > 38 {
        Dec::Fin { neg, mant, exp }
    } else {
        let p = crate::num::pow10((-exp) as nat);
        let im = ((mant as nat) / p) % 360;
        let frac = crate::num::spec_norm(false, (mant as nat) % p, exp as int);
        let c = spec_center(im, frac);
        if neg {
            spec_dec_neg(c)
        } else {
            c
        }
    }
}

/// Reduce a finite angle in degrees to the window `(-181, 181)` that the
/// series evaluation accepts, preserving its value modulo full turns.
fn reduce_angle_deg(neg: bool, mant: u128, exp: i64) -> (r: Dec)
    requires
        (Dec::Fin { neg, mant, exp }).wf(),
    ensures
        r == spec_reduce_angle(neg, mant, exp),
        r.wf(),
{
    if mant == 0 {
        return Dec::zero();
    }
    proof {
        crate::num::lemma_digits_bound(mant as nat);
    }
    if exp >= 0 {
        // the value is an integer: fold the power of ten into the modulus
        let mut rm: u128 = mant % 360;
        let mut k: i64 = 0;
        while k < exp
            invariant
                0 <= k <= exp,
                rm < 360,
                spec_rot_mod(rm as nat, (exp - k) as nat) == spec_rot_mod(
                    (mant as nat) % 360,
                    exp as nat,
                ),
            decreases exp - k,
        {
            rm = (rm * 10) % 360;
            k = k + 1;
        }
        let centered = center_int_frac(rm, Dec::zero());
        if neg {
            dec_neg(&centered)
        } else {
            centered
        }
    } else {
        let k = (-exp) as usize;
        if k > 38 {
            // the magnitude is far below one degree: use it as is
            return Dec::Fin { neg, mant, exp };
        }
        proof {
            crate::num::lemma_pow10_pos(k as nat);
        }
        let p = crate::num::pow10_u128(k);
        let ipart = mant / p;
        let fmant = mant % p;
        let im = ipart % 360;
        proof {
            crate::num::lemma_norm_wf(false, fmant as nat, exp as int);
        }
        let frac = normalize(false, fmant, exp);
        let centered = center_int_frac(im, frac);
        if neg {
            dec_neg(&centered)
        } else {
            centered
        }
    }
}

/// Combine a whole number of degrees below 360 with a fraction below one,
/// shifting by a full turn when the sum would pass half a turn.
fn center_int_frac(ipart: u128, frac: Dec) -> (r: Dec)
    requires
        ipart < 360,
        frac.wf(),
    ensures
        r == spec_center(ipart as nat, frac),
        r.wf(),
{
    proof {
        crate::num::lemma_norm_wf(false, ipart as nat, 0);
        crate::num::lemma_norm_wf(false, 360, 0);
    }
    let id = normalize(false, ipart, 0);
    let sum = dec_add(&id, &frac);
    if ipart >= 180 {
        let turn = dec_neg(&normalize(false, 360, 0));
        dec_add(&sum, &turn)
    } else {
        sum
    }
}

/// The alternating series for sine and cosine, carried from term `n` to
/// the cut-off: `x2` is the negated square of the angle, `s`/`c` the sums
/// so far, `ts`/`tc` the last terms.
pub open spec fn spec_series(x2: Dec, n: nat, s: Dec, c: Dec, ts: Dec, tc: Dec) -> (Dec, Dec)
    decreases 41 - n when 1 <= n <= 41
{
    if n > 40 {
        (s, c)
    } else {
        let dc = crate::num::spec_norm(false, ((2 * n - 1) * (2 * n)) as nat, 0);
        let ds = crate::num::spec_norm(false, ((2 * n) * (2 * n + 1)) as nat, 0);
        let tc2 = spec_dec_div(spec_dec_mul(tc, x2), dc);
        let ts2 = spec_dec_div(spec_dec_mul(ts, x2), ds);
        spec_series(x2, n + 1, spec_dec_add(s, ts2), spec_dec_add(c, tc2), ts2, tc2)
    }
}

/// The sine and cosine of an angle given in degrees: the reduced angle in
/// radians fed to the alternating series. A non-finite angle has none.
pub open spec fn spec_sin_cos_deg(angle: Dec) -> (Dec, Dec) {
    match angle {
        Dec::Fin { neg, mant, exp } => {
            let red = spec_reduce_angle(neg, mant, exp);
            let x = spec_dec_mul(red, spec_pi_over_180());
            let x2 = spec_dec_neg(spec_dec_mul(x, x));
            spec_series(x2, 1, x, Dec::spec_one(), x, Dec::spec_one())
        },
        _ => (Dec::Nan, Dec::Nan),
    }
}

/// The tangent of an angle given in degrees: sine over cosine.
pub open spec fn spec_tan_deg(angle: Dec) -> Dec {
    spec_dec_div(spec_sin_cos_deg(angle).0, spec_sin_cos_deg(angle).1)
}

/// The sine and cosine of an angle given in degrees, by an alternating
/// series on the reduced angle; exact decimal arithmetic throughout, with
/// precision bounded by the series cut-off.
pub fn dec_sin_cos_deg(angle: &Dec) -> (r: (Dec, Dec))
    requires
        angle.wf(),
    ensures
        r == spec_sin_cos_deg(*angle),
        r.0.wf(),
        r.1.wf(),
{
    match angle {
        Dec::Fin { neg, mant, exp } => {
            let red = reduce_angle_deg(*neg, *mant, *exp);
            let x = dec_mul(&red, &pi_over_180());
            let x2 = dec_neg(&dec_mul(&x, &x));
            let mut s = x;
            let mut c = Dec::one();
            let mut term_s = x;
            let mut term_c = Dec::one();
            let mut n: u128 = 1;
            while n <= 40
                invariant
                    1 <= n <= 41,
                    s.wf(),
                    c.wf(),
                    term_s.wf(),
                    term_c.wf(),
                    x2.wf(),
                    spec_series(x2, n as nat, s, c, term_s, term_c) == spec_series(
                        x2,
                        1,
                        x,
                        Dec::spec_one(),
                        x,
                        Dec::spec_one(),
                    ),
                decreases 41 - n,
            {
                proof {
                    assert((2 * n - 1) * (2 * n) <= 6642 && (2 * n) * (2 * n + 1) <= 6806)
                        by (nonlinear_arith)
                        requires
                            1 <= n <= 40,
                    ;
                    crate::num::lemma_norm_wf(false, ((2 * n - 1) * (2 * n)) as nat, 0);
                    crate::num::lemma_norm_wf(false, ((2 * n) * (2 * n + 1)) as nat, 0);
                }
                let dc = normalize(false, (2 * n - 1) * (2 * n), 0);
                let ds = normalize(false, (2 * n) * (2 * n + 1), 0);
                term_c = dec_div(&dec_mul(&term_c, &x2), &dc);
                term_s = dec_div(&dec_mul(&term_s, &x2), &ds);
                c = dec_add(&c, &term_c);
                s = dec_add(&s, &term_s);
                n = n + 1;
            }
            (s, c)
        },
        _ => (Dec::Nan, Dec::Nan),
    }
}

/// The tangent of an angle given in degrees: sine over cosine.
pub fn dec_tan_deg(angle: &Dec) -> (r: Dec)
    requires
        angle.wf(),
    ensures
        r == spec_tan_deg(*angle),
        r.wf(),
{
    let (s, c) = dec_sin_cos_deg(angle);
    dec_div(&s, &c)
}

/// One transform function: its name and its decimal parameters.
#[derive(Debug)]
pub struct Transform {
    /// The function's name as written (any run of letters parses; only the
    /// six known names compose into a matrix).
    pub name: String,
    /// The parameters, in order.
    pub params: Vec<Dec>,
}

impl Transform {
    /// All parameters are canonical decimals.
    pub open spec fn wf(self) -> bool {
        forall|k: int| 0 <= k < self.params@.len() ==> (#[trigger] self.params@[k]).wf()
    }

    /// The mathematical content of a transform: its name and parameters.
    pub open spec fn view_pair(self) -> (Seq<char>, Seq<Dec>) {
        (self.name@, self.params@)
    }
}

/// The mathematical content of a transform list.
pub open spec fn tfs_view(l: Seq<Transform>) -> Seq<(Seq<char>, Seq<Dec>)> {
    l.map_values(|t: Transform| t.view_pair())
}

/// The position after the run of blanks (spaces and tabs) starting at `i`.
pub open spec fn spec_ws_end(s: Seq<char>, i: int) -> int
    decreases s.len() - i when i <= s.len()
{
    if 0 <= i < s.len() && (s[i] == ' ' || s[i] == '\t') {
        spec_ws_end(s, i + 1)
    } else {
        i
    }
}

proof fn lemma_ws_end_bounds(s: Seq<char>, i: int)
    requires
        0 <= i <= s.len(),
    ensures
        i <= spec_ws_end(s, i) <= s.len(),
    decreases s.len() - i,
{
    if 0 <= i < s.len() && (s[i] == ' ' || s[i] == '\t') {
        lemma_ws_end_bounds(s, i + 1);
    }
}

/// The position after the run of letters starting at `i`.
pub open spec fn spec_alpha_end(s: Seq<char>, i: int) -> int
    decreases s.len() - i when i <= s.len()
{
    if 0 <= i < s.len() && crate::spec_is_ascii_alpha(s[i]) {
        spec_alpha_end(s, i + 1)
    } else {
        i
    }
}

proof fn lemma_alpha_end_bounds(s: Seq<char>, i: int)
    requires
        0 <= i <= s.len(),
    ensures
        i <= spec_alpha_end(s, i) <= s.len(),
    decreases s.len() - i,
{
    if 0 <= i < s.len() && crate::spec_is_ascii_alpha(s[i]) {
        lemma_alpha_end_bounds(s, i + 1);
    }
}

/// The end of a parameter separator at `j`: blanks around a comma, or at
/// least one blank. `None` where no separator stands here.
pub open spec fn spec_tsep_end(s: Seq<char>, j: int) -> Option<int> {
    let a = spec_ws_end(s, j);
    if a < s.len() && s[a] == ',' {
        Some(spec_ws_end(s, a + 1))
    } else if a > j {
        Some(a)
    } else {
        None
    }
}

proof fn lemma_tsep_end_bounds(s: Seq<char>, j: int)
    requires
        0 <= j <= s.len(),
    ensures
        spec_tsep_end(s, j) is Some ==> j < spec_tsep_end(s, j)->0 <= s.len(),
{
    lemma_ws_end_bounds(s, j);
    let a = spec_ws_end(s, j);
    if a < s.len() && s[a] == ',' {
        lemma_ws_end_bounds(s, a + 1);
    }
}

/// The result of scanning a parameter list.
pub enum ParamsScan {
    /// A number with a dangling exponent: the whole parse fails.
    PHard,
    /// The parameters read, and the position after the last one.
    Ps { ps: Seq<Dec>, end: int },
}

/// The parameters after the first one: separator then number, stopping
/// (before the separator) as soon as either is missing.
pub open spec fn spec_params_more(s: Seq<char>, j: int) -> ParamsScan
    decreases s.len() - j when 0 <= j <= s.len() via spec_params_more_dec
{
    match spec_tsep_end(s, j) {
        None => ParamsScan::Ps { ps: Seq::empty(), end: j },
        Some(k) => match crate::path::spec_num_end(s, k) {
            Some(m) => match spec_params_more(s, m) {
                ParamsScan::PHard => ParamsScan::PHard,
                ParamsScan::Ps { ps, end } => ParamsScan::Ps {
                    ps: seq![crate::path::spec_tok_val(s.subrange(k, m))] + ps,
                    end,
                },
            },
            None => if crate::path::spec_num_hard(s, k) {
                ParamsScan::PHard
            } else {
                ParamsScan::Ps { ps: Seq::empty(), end: j }
            },
        },
    }
}

#[via_fn]
proof fn spec_params_more_dec(s: Seq<char>, j: int) {
    lemma_tsep_end_bounds(s, j);
    match spec_tsep_end(s, j) {
        Some(k) => {
            crate::path::lemma_num_end_bounds(s, k);
        },
        None => {},
    }
}

/// A whole parameter list starting at `i`: empty, or a number followed by
/// separated numbers.
pub open spec fn spec_params(s: Seq<char>, i: int) -> ParamsScan {
    match crate::path::spec_num_end(s, i) {
        Some(j) => match spec_params_more(s, j) {
            ParamsScan::PHard => ParamsScan::PHard,
            ParamsScan::Ps { ps, end } => ParamsScan::Ps {
                ps: seq![crate::path::spec_tok_val(s.subrange(i, j))] + ps,
                end,
            },
        },
        None => if crate::path::spec_num_hard(s, i) {
            ParamsScan::PHard
        } else {
            ParamsScan::Ps { ps: Seq::empty(), end: i }
        },
    }
}

/// The result of scanning one transform function.
pub enum TfScan {
    /// A parameter's exponent was malformed: the whole parse fails.
    THard,
    /// No transform function starts here.
    TNone,
    /// A function with its name, parameters, and the position after the
    /// closing parenthesis.
    TFn { name: Seq<char>, ps: Seq<Dec>, end: int },
}

/// One transform function at `i`: a name, a parenthesized parameter list,
/// blanks allowed around the parentheses.
pub open spec fn spec_tf(s: Seq<char>, i: int) -> TfScan {
    let n = spec_alpha_end(s, i);
    if n == i {
        TfScan::TNone
    } else {
        let p0 = spec_ws_end(s, n);
        if !(p0 < s.len() && s[p0] == '(') {
            TfScan::TNone
        } else {
            let b = spec_ws_end(s, p0 + 1);
            match spec_params(s, b) {
                ParamsScan::PHard => TfScan::THard,
                ParamsScan::Ps { ps, end } => {
                    let c = spec_ws_end(s, end);
                    if c < s.len() && s[c] == ')' {
                        TfScan::TFn { name: s.subrange(i, n), ps, end: c + 1 }
                    } else {
                        TfScan::TNone
                    }
                },
            }
        }
    }
}

/// The result of scanning a transform list.
pub enum ListScan {
    /// The parse fails.
    LHard,
    /// The functions read, and the position after the last one (before any
    /// trailing blanks).
    Ls { tfs: Seq<(Seq<char>, Seq<Dec>)>, end: int },
}

proof fn lemma_params_end_bounds(s: Seq<char>, j: int)
    requires
        0 <= j <= s.len(),
    ensures
        spec_params_more(s, j) matches ParamsScan::Ps { ps, end } ==> j <= end <= s.len(),
    decreases s.len() - j,
{
    lemma_tsep_end_bounds(s, j);
    match spec_tsep_end(s, j) {
        Some(k) => {
            crate::path::lemma_num_end_bounds(s, k);
            match crate::path::spec_num_end(s, k) {
                Some(m) => {
                    lemma_params_end_bounds(s, m);
                },
                None => {},
            }
        },
        None => {},
    }
}

proof fn lemma_tf_bounds(s: Seq<char>, i: int)
    requires
        0 <= i <= s.len(),
    ensures
        spec_tf(s, i) matches TfScan::TFn { name, ps, end } ==> i < end <= s.len(),
{
    lemma_alpha_end_bounds(s, i);
    let n = spec_alpha_end(s, i);
    if n > i {
        lemma_ws_end_bounds(s, n);
        let p0 = spec_ws_end(s, n);
        if p0 < s.len() && s[p0] == '(' {
            lemma_ws_end_bounds(s, p0 + 1);
            let b = spec_ws_end(s, p0 + 1);
            crate::path::lemma_num_end_bounds(s, b);
            match spec_params(s, b) {
                ParamsScan::Ps { ps, end } => {
                    match crate::path::spec_num_end(s, b) {
                        Some(j) => {
                            lemma_params_end_bounds(s, j);
                        },
                        None => {},
                    }
                    lemma_ws_end_bounds(s, end);
                },
                ParamsScan::PHard => {},
            }
        }
    }
}

/// The transform functions from `i` on, each preceded by blanks; the scan
/// stops (backtracking the blanks) where no function follows.
pub open spec fn spec_tf_list(s: Seq<char>, i: int) -> ListScan
    decreases s.len() - i when 0 <= i <= s.len() via spec_tf_list_dec
{
    let a = spec_ws_end(s, i);
    match spec_tf(s, a) {
        TfScan::THard => ListScan::LHard,
        TfScan::TNone => ListScan::Ls { tfs: Seq::empty(), end: i },
        TfScan::TFn { name, ps, end } => match spec_tf_list(s, end) {
            ListScan::LHard => ListScan::LHard,
            ListScan::Ls { tfs, end: q } => ListScan::Ls { tfs: seq![(name, ps)] + tfs, end: q },
        },
    }
}

#[via_fn]
proof fn spec_tf_list_dec(s: Seq<char>, i: int) {
    lemma_ws_end_bounds(s, i);
    let a = spec_ws_end(s, i);
    lemma_tf_bounds(s, a);
}

/// The parse of a whole `transform` value: the function list with blanks
/// allowed around it, which must consume the entire text. `None` rejects.
pub open spec fn spec_parse_tf(s: Seq<char>) -> Option<Seq<(Seq<char>, Seq<Dec>)>> {
    match spec_tf_list(s, 0) {
        ListScan::LHard => None,
        ListScan::Ls { tfs, end } => if spec_ws_end(s, end) == s.len() {
            Some(tfs)
        } else {
            None
        },
    }
}

/// The position after the run of blanks starting at `i`.
fn ws_end(s: &Vec<char>, i: usize) -> (r: usize)
    requires
        i <= s@.len(),
    ensures
        r == spec_ws_end(s@, i as int),
        i <= r <= s@.len(),
{
    proof {
        lemma_ws_end_bounds(s@, i as int);
    }
    let mut j = i;
    while j < s.len() && (s[j] == ' ' || s[j] == '\t')
        invariant
            i <= j <= s@.len(),
            spec_ws_end(s@, j as int) == spec_ws_end(s@, i as int),
        decreases s@.len() - j,
    {
        j = j + 1;
    }
    j
}

/// The position after the run of letters starting at `i`.
fn alpha_end(s: &Vec<char>, i: usize) -> (r: usize)
    requires
        i <= s@.len(),
    ensures
        r == spec_alpha_end(s@, i as int),
        i <= r <= s@.len(),
{
    proof {
        lemma_alpha_end_bounds(s@, i as int);
    }
    let mut j = i;
    while j < s.len() && crate::is_ascii_alpha(s[j])
        invariant
            i <= j <= s@.len(),
            spec_alpha_end(s@, j as int) == spec_alpha_end(s@, i as int),
        decreases s@.len() - j,
    {
        j = j + 1;
    }
    j
}

/// Scan a parameter separator at `j`.
fn tsep_end(s: &Vec<char>, j: usize) -> (r: Option<usize>)
    requires
        j <= s@.len(),
    ensures
        match r {
            Some(k) => spec_tsep_end(s@, j as int) == Some(k as int) && j < k <= s@.len(),
            None => spec_tsep_end(s@, j as int) is None,
        },
{
    proof {
        lemma_tsep_end_bounds(s@, j as int);
    }
    let a = ws_end(s, j);
    if a < s.len() && s[a] == ',' {
        Some(ws_end(s, a + 1))
    } else if a > j {
        Some(a)
    } else {
        None
    }
}

/// The numeric value of the token between two positions.
fn tok_val(s: &Vec<char>, from: usize, to: usize) -> (r: Dec)
    requires
        from <= to <= s@.len(),
    ensures
        r == crate::path::spec_tok_val(s@.subrange(from as int, to as int)),
        r.wf(),
{
    let raw = crate::path::copy_range(s, from, to);
    proof {
        crate::num::lemma_parse_dec_wf(raw@);
    }
    match dec_from_chars(&raw) {
        Some(v) => v,
        None => Dec::zero(),
    }
}

/// Scan a parameter list at `i`; `None` means the whole parse fails.
fn parse_params(s: &Vec<char>, i: usize) -> (r: Option<(Vec<Dec>, usize)>)
    requires
        i <= s@.len(),
    ensures
        match r {
            Some((ps, end)) => spec_params(s@, i as int) == (ParamsScan::Ps {
                ps: ps@,
                end: end as int,
            }) && end <= s@.len() && forall|k: int| 0 <= k < ps@.len() ==> (#[trigger] ps@[k]).wf(),
            None => spec_params(s@, i as int) is PHard,
        },
{
    let mut ps: Vec<Dec> = Vec::new();
    let first = match crate::path::scan_number(s, i) {
        crate::path::NumScan::Hard => {
            return None;
        },
        crate::path::NumScan::NoMatch => {
            return Some((ps, i));
        },
        crate::path::NumScan::End(j) => j,
    };
    let v = tok_val(s, i, first);
    ps.push(v);
    let mut j = first;
    loop
        invariant
            j <= s@.len(),
            forall|k: int| 0 <= k < ps@.len() ==> (#[trigger] ps@[k]).wf(),
            spec_params(s@, i as int) == (match spec_params_more(s@, j as int) {
                ParamsScan::PHard => ParamsScan::PHard,
                ParamsScan::Ps { ps: more, end } => ParamsScan::Ps { ps: ps@ + more, end },
            }),
        decreases s@.len() - j,
    {
        proof {
            lemma_params_end_bounds(s@, j as int);
        }
        match tsep_end(s, j) {
            None => {
                proof {
                    assert(ps@ + Seq::<Dec>::empty() =~= ps@);
                }
                return Some((ps, j));
            },
            Some(k) => {
                match crate::path::scan_number(s, k) {
                    crate::path::NumScan::Hard => {
                        return None;
                    },
                    crate::path::NumScan::NoMatch => {
                        proof {
                            assert(ps@ + Seq::<Dec>::empty() =~= ps@);
                        }
                        return Some((ps, j));
                    },
                    crate::path::NumScan::End(m) => {
                        let v2 = tok_val(s, k, m);
                        let ghost ps0 = ps@;
                        ps.push(v2);
                        proof {
                            let more_rel = spec_params_more(s@, m as int);
                            if more_rel is Ps {
                                assert(ps0 + (seq![v2] + more_rel->Ps_ps) =~= ps@
                                    + more_rel->Ps_ps);
                            }
                        }
                        j = m;
                    },
                }
            },
        }
    }
}

/// Scan one transform function at `i` (blanks before the name already
/// consumed); `Err` means the whole parse fails, `Ok(None)` that no
/// function starts here.
fn parse_tf(s: &Vec<char>, i: usize) -> (r: Result<Option<(Vec<char>, Vec<Dec>, usize)>, ()>)
    requires
        i <= s@.len(),
    ensures
        match r {
            Ok(Some((name, ps, end))) => spec_tf(s@, i as int) == (TfScan::TFn {
                name: name@,
                ps: ps@,
                end: end as int,
            }) && i < end <= s@.len() && forall|k: int|
                0 <= k < ps@.len() ==> (#[trigger] ps@[k]).wf(),
            Ok(None) => spec_tf(s@, i as int) is TNone,
            Err(()) => spec_tf(s@, i as int) is THard,
        },
{
    proof {
        lemma_tf_bounds(s@, i as int);
    }
    let n = alpha_end(s, i);
    if n == i {
        return Ok(None);
    }
    let p0 = ws_end(s, n);
    if !(p0 < s.len() && s[p0] == '(') {
        return Ok(None);
    }
    let b = ws_end(s, p0 + 1);
    match parse_params(s, b) {
        None => Err(()),
        Some((ps, end)) => {
            let c = ws_end(s, end);
            if c < s.len() && s[c] == ')' {
                let name = crate::path::copy_range(s, i, n);
                Ok(Some((name, ps, c + 1)))
            } else {
                Ok(None)
            }
        },
    }
}

/// Parse a `transform` value into its list of functions. Any text the
/// grammar cannot consume entirely rejects the whole value.
pub fn parse_transform_list(input: &str) -> (r: Result<Vec<Transform>, ScaleError>)
    ensures
        match spec_parse_tf(input@) {
            Some(l) => r is Ok && tfs_view(r->Ok_0@) == l && forall|k: int|
                0 <= k < r->Ok_0@.len() ==> (#[trigger] r->Ok_0@[k]).wf(),
            None => r matches Err(e) && e matches ScaleError::TransformParse { raw } && raw@
                == input@,
        },
{
    let cs = str_to_chars(input);
    let mut out: Vec<Transform> = Vec::new();
    let mut i: usize = 0;
    loop
        invariant
            i <= cs@.len(),
            cs@ == input@,
            forall|k: int| 0 <= k < out@.len() ==> (#[trigger] out@[k]).wf(),
            spec_tf_list(cs@, 0) == (match spec_tf_list(cs@, i as int) {
                ListScan::LHard => ListScan::LHard,
                ListScan::Ls { tfs, end } => ListScan::Ls { tfs: tfs_view(out@) + tfs, end },
            }),
        decreases cs@.len() - i,
    {
        let a = ws_end(&cs, i);
        match parse_tf(&cs, a) {
            Err(()) => {
                return Err(ScaleError::TransformParse { raw: input.to_owned() });
            },
            Ok(None) => {
                break;
            },
            Ok(Some((name_cs, ps, end))) => {
                let ghost out0 = out@;
                let t = Transform { name: chars_to_string(&name_cs), params: ps };
                out.push(t);
                proof {
                    assert(tfs_view(out@) =~= tfs_view(out0) + seq![(name_cs@, t.params@)]);
                    let rest = spec_tf_list(cs@, end as int);
                    if rest is Ls {
                        assert(tfs_view(out0) + (seq![(name_cs@, t.params@)] + rest->Ls_tfs)
                            =~= tfs_view(out@) + rest->Ls_tfs);
                    }
                }
                i = end;
            },
        }
    }
    let q = ws_end(&cs, i);
    if q == cs.len() {
        proof {
            assert(tfs_view(out@) + Seq::<(Seq<char>, Seq<Dec>)>::empty() =~= tfs_view(out@));
        }
        Ok(out)
    } else {
        Err(ScaleError::TransformParse { raw: input.to_owned() })
    }
}

/// Compare two string slices by their characters.
pub fn str_eq(a: &str, b: &str) -> (r: bool)
    ensures
        r == (a@ == b@),
{
    let ca = str_to_chars(a);
    let cb = str_to_chars(b);
    if ca.len() != cb.len() {
        return false;
    }
    let mut i: usize = 0;
    while i < ca.len()
        invariant
            i <= ca@.len(),
            ca@.len() == cb@.len(),
            ca@ == a@,
            cb@ == b@,
            forall|k: int| 0 <= k < i ==> ca@[k] == cb@[k],
        decreases ca@.len() - i,
    {
        if ca[i] != cb[i] {
            return false;
        }
        i = i + 1;
    }
    proof {
        assert(a@ =~= b@);
    }
    true
}

/// The parameter at `k`, or a fallback.
fn param_or(ps: &Vec<Dec>, k: usize, fallback: Dec) -> (r: Dec)
    ensures
        r == spec_param_or(ps@, k as int, fallback),
{
    if k < ps.len() {
        ps[k]
    } else {
        fallback
    }
}

/// The parameter at `k`, or a fallback.
pub open spec fn spec_param_or(ps: Seq<Dec>, k: int, fallback: Dec) -> Dec {
    if 0 <= k < ps.len() {
        ps[k]
    } else {
        fallback
    }
}

/// Positive zero, in spec position.
pub open spec fn spec_dzero() -> Dec {
    Dec::Fin { neg: false, mant: 0, exp: 0 }
}

/// Whether one transform function can be composed into a matrix: its name
/// is known and a `matrix` carries its six parameters.
pub open spec fn spec_op_ok(name: Seq<char>, ps: Seq<Dec>) -> bool {
    ||| name == "translate"@
    ||| name == "scale"@
    ||| name == "rotate"@
    ||| name == "skewX"@
    ||| name == "skewY"@
    ||| (name == "matrix"@ && ps.len() == 6)
}

/// Whether every function of a list can be composed.
pub open spec fn spec_ops_ok(l: Seq<(Seq<char>, Seq<Dec>)>) -> bool {
    forall|k: int| 0 <= k < l.len() ==> spec_op_ok((#[trigger] l[k]).0, l[k].1)
}

/// The matrix of one composable transform function: translation, scaling
/// and an explicit matrix take their parameters directly; rotation and
/// skew take their entries from the decimal trigonometry, a rotation
/// centre folded in by conjugation with translations.
pub open spec fn spec_op_matrix(name: Seq<char>, ps: Seq<Dec>) -> AffineMatrix {
    if name == "translate"@ {
        AffineMatrix::spec_translation(
            spec_param_or(ps, 0, spec_dzero()),
            spec_param_or(ps, 1, spec_dzero()),
        )
    } else if name == "scale"@ {
        AffineMatrix {
            a: spec_param_or(ps, 0, Dec::spec_one()),
            b: spec_dzero(),
            c: spec_dzero(),
            d: spec_param_or(ps, 1, spec_param_or(ps, 0, Dec::spec_one())),
            e: spec_dzero(),
            f: spec_dzero(),
        }
    } else if name == "rotate"@ {
        let angle = spec_param_or(ps, 0, spec_dzero());
        let sc = spec_sin_cos_deg(angle);
        let rot = AffineMatrix {
            a: sc.1,
            b: sc.0,
            c: spec_dec_neg(sc.0),
            d: sc.1,
            e: spec_dzero(),
            f: spec_dzero(),
        };
        if ps.len() >= 3 {
            let cx = ps[1];
            let cy = ps[2];
            spec_mat_mul(
                AffineMatrix::spec_translation(cx, cy),
                spec_mat_mul(
                    rot,
                    AffineMatrix::spec_translation(spec_dec_neg(cx), spec_dec_neg(cy)),
                ),
            )
        } else {
            rot
        }
    } else if name == "skewX"@ {
        AffineMatrix {
            a: Dec::spec_one(),
            b: spec_dzero(),
            c: spec_tan_deg(spec_param_or(ps, 0, spec_dzero())),
            d: Dec::spec_one(),
            e: spec_dzero(),
            f: spec_dzero(),
        }
    } else if name == "skewY"@ {
        AffineMatrix {
            a: Dec::spec_one(),
            b: spec_tan_deg(spec_param_or(ps, 0, spec_dzero())),
            c: spec_dzero(),
            d: Dec::spec_one(),
            e: spec_dzero(),
            f: spec_dzero(),
        }
    } else if name == "matrix"@ && ps.len() == 6 {
        AffineMatrix { a: ps[0], b: ps[1], c: ps[2], d: ps[3], e: ps[4], f: ps[5] }
    } else {
        AffineMatrix::spec_identity()
    }
}

/// The left-to-right product of the first `k` functions' matrices,
/// starting from the identity.
pub open spec fn spec_fold_matrix(l: Seq<(Seq<char>, Seq<Dec>)>, k: nat) -> AffineMatrix
    decreases k,
{
    if k == 0 {
        AffineMatrix::spec_identity()
    } else {
        spec_mat_mul(spec_fold_matrix(l, (k - 1) as nat), spec_op_matrix(l[k - 1].0, l[k - 1].1))
    }
}

/// The failure of the first function that cannot be composed: an arity
/// error for a `matrix` without exactly six parameters, an unsupported
/// name otherwise.
pub open spec fn spec_first_bad(l: Seq<(Seq<char>, Seq<Dec>)>, k: int) -> crate::err::GCause
    decreases l.len() - k when 0 <= k <= l.len()
{
    if k >= l.len() {
        crate::err::GCause::GUnsupportedTransform { name: Seq::empty() }
    } else if !spec_op_ok(l[k].0, l[k].1) {
        if l[k].0 == "matrix"@ {
            crate::err::GCause::GMatrixArity { name: l[k].0, count: l[k].1.len() }
        } else {
            crate::err::GCause::GUnsupportedTransform { name: l[k].0 }
        }
    } else {
        spec_first_bad(l, k + 1)
    }
}

/// The matrix of one transform function; errors on an unknown name or a
/// `matrix` without exactly six parameters.
fn op_matrix(t: &Transform) -> (r: Result<AffineMatrix, ScaleError>)
    requires
        t.wf(),
    ensures
        match r {
            Ok(mi) => spec_op_ok(t.name@, t.params@) && mi == spec_op_matrix(t.name@, t.params@)
                && mi.wf(),
            Err(e) => !spec_op_ok(t.name@, t.params@) && e.view_g() == (if t.name@ == "matrix"@ {
                crate::err::GCause::GMatrixArity { name: t.name@, count: t.params@.len() }
            } else {
                crate::err::GCause::GUnsupportedTransform { name: t.name@ }
            }),
        },
{
    let ps = &t.params;
    if str_eq(t.name.as_str(), "translate") {
        let tx = param_or(ps, 0, Dec::zero());
        let ty = param_or(ps, 1, Dec::zero());
        Ok(
            AffineMatrix {
                a: Dec::one(),
                b: Dec::zero(),
                c: Dec::zero(),
                d: Dec::one(),
                e: tx,
                f: ty,
            },
        )
    } else if str_eq(t.name.as_str(), "scale") {
        let sx = param_or(ps, 0, Dec::one());
        let sy = param_or(ps, 1, sx);
        Ok(
            AffineMatrix {
                a: sx,
                b: Dec::zero(),
                c: Dec::zero(),
                d: sy,
                e: Dec::zero(),
                f: Dec::zero(),
            },
        )
    } else if str_eq(t.name.as_str(), "rotate") {
        let angle = param_or(ps, 0, Dec::zero());
        let (s, c) = dec_sin_cos_deg(&angle);
        let rot = AffineMatrix {
            a: c,
            b: s,
            c: dec_neg(&s),
            d: c,
            e: Dec::zero(),
            f: Dec::zero(),
        };
        if ps.len() >= 3 {
            let cx = ps[1];
            let cy = ps[2];
            let t1 = AffineMatrix {
                a: Dec::one(),
                b: Dec::zero(),
                c: Dec::zero(),
                d: Dec::one(),
                e: cx,
                f: cy,
            };
            let t2 = AffineMatrix {
                a: Dec::one(),
                b: Dec::zero(),
                c: Dec::zero(),
                d: Dec::one(),
                e: dec_neg(&cx),
                f: dec_neg(&cy),
            };
            let inner = mat_mul(&rot, &t2);
            Ok(mat_mul(&t1, &inner))
        } else {
            Ok(rot)
        }
    } else if str_eq(t.name.as_str(), "skewX") {
        let angle = param_or(ps, 0, Dec::zero());
        let tn = dec_tan_deg(&angle);
        Ok(
            AffineMatrix {
                a: Dec::one(),
                b: Dec::zero(),
                c: tn,
                d: Dec::one(),
                e: Dec::zero(),
                f: Dec::zero(),
            },
        )
    } else if str_eq(t.name.as_str(), "skewY") {
        let angle = param_or(ps, 0, Dec::zero());
        let tn = dec_tan_deg(&angle);
        Ok(
            AffineMatrix {
                a: Dec::one(),
                b: tn,
                c: Dec::zero(),
                d: Dec::one(),
                e: Dec::zero(),
                f: Dec::zero(),
            },
        )
    } else if str_eq(t.name.as_str(), "matrix") {
        if ps.len() != 6 {
            Err(ScaleError::MatrixArity { name: t.name.clone(), count: ps.len() })
        } else {
            Ok(AffineMatrix { a: ps[0], b: ps[1], c: ps[2], d: ps[3], e: ps[4], f: ps[5] })
        }
    } else {
        Err(ScaleError::UnsupportedTransform { name: t.name.clone() })
    }
}

/// Compose a transform list into a single affine matrix, multiplying the
/// functions' matrices left to right from the identity. Errors on the
/// first function that cannot be composed.
pub fn transform_to_matrix(list: &Vec<Transform>) -> (r: Result<AffineMatrix, ScaleError>)
    requires
        forall|k: int| 0 <= k < list@.len() ==> (#[trigger] list@[k]).wf(),
    ensures
        match r {
            Ok(m) => spec_ops_ok(tfs_view(list@)) && m == spec_fold_matrix(
                tfs_view(list@),
                list@.len(),
            ) && m.wf(),
            Err(e) => !spec_ops_ok(tfs_view(list@)) && e.view_g() == spec_first_bad(
                tfs_view(list@),
                0,
            ),
        },
{
    let ghost l = tfs_view(list@);
    let mut m = AffineMatrix::identity();
    let mut k: usize = 0;
    while k < list.len()
        invariant
            k <= list@.len(),
            m.wf(),
            m == spec_fold_matrix(l, k as nat),
            forall|j: int| 0 <= j < k ==> spec_op_ok((#[trigger] l[j]).0, l[j].1),
        decreases list@.len() - k,
    {
        let ghost m_prev = m;
        match op_matrix(&list[k]) {
            Ok(mi) => {
                m = mat_mul(&m, &mi);
                proof {
                    let kk: nat = (k + 1) as nat;
                    assert(mi == spec_op_matrix(l[kk - 1].0, l[kk - 1].1));
                    assert(m_prev == spec_fold_matrix(l, (kk - 1) as nat));
                    assert(m == spec_fold_matrix(l, kk));
                }
            },
            Err(e) => {
                proof {
                    lemma_first_bad(l, 0, k as int, e.view_g());
                    assert(!spec_op_ok(l[k as int].0, l[k as int].1));
                    assert(!spec_ops_ok(l));
                }
                return Err(e);
            },
        }
        k = k + 1;
    }
    Ok(m)
}

/// A failure at `k`, with everything before fine, is the first failure.
proof fn lemma_first_bad(l: Seq<(Seq<char>, Seq<Dec>)>, j: int, k: int, c: crate::err::GCause)
    requires
        0 <= j <= k < l.len(),
        forall|i: int| j <= i < k ==> spec_op_ok((#[trigger] l[i]).0, l[i].1),
        !spec_op_ok(l[k].0, l[k].1),
        c == (if l[k].0 == "matrix"@ {
            crate::err::GCause::GMatrixArity { name: l[k].0, count: l[k].1.len() }
        } else {
            crate::err::GCause::GUnsupportedTransform { name: l[k].0 }
        }),
    ensures
        spec_first_bad(l, j) == c,
    decreases k - j,
{
    if j < k {
        lemma_first_bad(l, j + 1, k, c);
    }
}

/// Whether every function of a list is a translation.
pub open spec fn spec_all_translate(l: Seq<(Seq<char>, Seq<Dec>)>) -> bool {
    forall|k: int| 0 <= k < l.len() ==> (#[trigger] l[k]).0 == "translate"@
}

/// Whether a parsed transform value contains a non-translate function.
/// The tree walker exempts geometry under such a transform from scaling.
pub fn has_non_translate_transform(transform: &str) -> (r: Result<bool, ScaleError>)
    ensures
        match spec_parse_tf(transform@) {
            Some(l) => r is Ok && r->Ok_0 == !spec_all_translate(l),
            None => r matches Err(e) && e matches ScaleError::TransformParse { raw } && raw@
                == transform@,
        },
{
    let list = parse_transform_list(transform)?;
    let ghost l = spec_parse_tf(transform@)->0;
    let mut k: usize = 0;
    while k < list.len()
        invariant
            k <= list@.len(),
            tfs_view(list@) == l,
            forall|j: int| 0 <= j < k ==> (#[trigger] l[j]).0 == "translate"@,
        decreases list@.len() - k,
    {
        if !str_eq(list[k].name.as_str(), "translate") {
            proof {
                assert(l[k as int].0 != "translate"@);
            }
            return Ok(true);
        }
        k = k + 1;
    }
    Ok(false)
}

/// A scaled and cleaned matrix coefficient: the product snapped to zero
/// when its magnitude falls below the noise threshold.
pub open spec fn spec_coeff(x: Dec, sc: Dec) -> Dec {
    let v = spec_dec_mul(x, sc);
    if spec_dec_tiny(v) {
        Dec::Fin { neg: false, mant: 0, exp: 0 }
    } else {
        v
    }
}

/// The emitted text of a composed matrix: every coefficient multiplied by
/// the factor, snapped to zero below the noise threshold, and rendered at
/// the given precision.
pub open spec fn spec_matrix_text(m: AffineMatrix, sc: Dec, p: usize) -> Seq<char> {
    "matrix("@ + spec_fmt_dec(spec_coeff(m.a, sc), p) + ","@ + spec_fmt_dec(spec_coeff(m.b, sc), p)
        + ","@ + spec_fmt_dec(spec_coeff(m.c, sc), p) + ","@ + spec_fmt_dec(spec_coeff(m.d, sc), p)
        + ","@ + spec_fmt_dec(spec_coeff(m.e, sc), p) + ","@ + spec_fmt_dec(spec_coeff(m.f, sc), p)
        + ")"@
}

/// The emitted text of one scaled translation, its one- or two-argument
/// form preserved.
pub open spec fn spec_translate_text(ps: Seq<Dec>, sc: Dec, p: usize) -> Seq<char> {
    let tx = spec_param_or(ps, 0, spec_dzero());
    let ty = spec_param_or(ps, 1, spec_dzero());
    if ps.len() >= 2 {
        "translate("@ + spec_fmt_dec(spec_dec_mul(tx, sc), p) + ","@ + spec_fmt_dec(
            spec_dec_mul(ty, sc),
            p,
        ) + ")"@
    } else {
        "translate("@ + spec_fmt_dec(spec_dec_mul(tx, sc), p) + ")"@
    }
}

/// The emitted text of a list of scaled translations, space-joined.
pub open spec fn spec_translates_text(l: Seq<(Seq<char>, Seq<Dec>)>, k: int, sc: Dec, p: usize) -> Seq<
    char,
>
    decreases l.len() - k when 0 <= k <= l.len()
{
    if k >= l.len() {
        Seq::empty()
    } else if k == l.len() - 1 {
        spec_translate_text(l[k].1, sc, p)
    } else {
        spec_translate_text(l[k].1, sc, p) + " "@ + spec_translates_text(l, k + 1, sc, p)
    }
}

/// The emitted text of a single scaled `scale` function, its one- or
/// two-argument form preserved.
pub open spec fn spec_scale_text(ps: Seq<Dec>, sc: Dec, p: usize) -> Seq<char> {
    let sx = spec_param_or(ps, 0, Dec::spec_one());
    let sy = spec_param_or(ps, 1, spec_param_or(ps, 0, Dec::spec_one()));
    if ps.len() >= 2 {
        "scale("@ + spec_fmt_dec(spec_dec_mul(sx, sc), p) + ","@ + spec_fmt_dec(
            spec_dec_mul(sy, sc),
            p,
        ) + ")"@
    } else {
        "scale("@ + spec_fmt_dec(spec_dec_mul(sx, sc), p) + ")"@
    }
}

/// Append the scaled text of one translation.
fn push_translate_text(out: &mut Vec<char>, ps: &Vec<Dec>, sc: &Dec, p: usize)
    requires
        sc.wf(),
        forall|k: int| 0 <= k < ps@.len() ==> (#[trigger] ps@[k]).wf(),
    ensures
        final(out)@ == old(out)@ + spec_translate_text(ps@, *sc, p),
{
    let ctx = crate::num::ScaleCtx { scale: *sc, precision: p, fix_stroke: false };
    let tx = param_or(ps, 0, Dec::zero());
    let ty = param_or(ps, 1, Dec::zero());
    crate::err::append_str(out, "translate(");
    let fx = ctx.fmt_chars(&dec_mul(&tx, sc));
    crate::path::append_chars(out, &fx);
    if ps.len() >= 2 {
        crate::err::append_str(out, ",");
        let fy = ctx.fmt_chars(&dec_mul(&ty, sc));
        crate::path::append_chars(out, &fy);
    }
    crate::err::append_str(out, ")");
    proof {
        assert(out@ =~= old(out)@ + spec_translate_text(ps@, *sc, p));
    }
}

/// What scaling a parsed transform list emits: the input unchanged when
/// empty, the preserved translate or single-scale forms, the composed and
/// uniformly scaled matrix — or the first composition failure.
pub open spec fn spec_stv(l: Seq<(Seq<char>, Seq<Dec>)>, input: Seq<char>, sc: Dec, p: usize) -> Result<
    Seq<char>,
    crate::err::GCause,
> {
    if l.len() == 0 {
        Ok(input)
    } else if spec_all_translate(l) {
        Ok(spec_translates_text(l, 0, sc, p))
    } else if l.len() == 1 && l[0].0 == "scale"@ {
        Ok(spec_scale_text(l[0].1, sc, p))
    } else if spec_ops_ok(l) {
        Ok(spec_matrix_text(spec_fold_matrix(l, l.len()), sc, p))
    } else {
        Err(spec_first_bad(l, 0))
    }
}

/// What scaling a whole `transform` value emits: a parse failure on text
/// the grammar rejects, else what scaling the parsed list emits.
pub open spec fn spec_tf_out(input: Seq<char>, sc: Dec, p: usize) -> Result<
    Seq<char>,
    crate::err::GCause,
> {
    match spec_parse_tf(input) {
        None => Err(crate::err::GCause::GTransformParse { raw: input }),
        Some(l) => spec_stv(l, input, sc, p),
    }
}

/// Scale the text of a `transform` value.
///
/// An empty list returns the input unchanged. A list of pure translations
/// keeps its shape, each offset multiplied by the factor. A single `scale`
/// function keeps its shape too, its factors multiplied. Anything else is
/// composed into one matrix whose six coefficients are each multiplied by
/// the factor, snapped to zero under the noise threshold, and emitted as
/// `matrix(a,b,c,d,e,f)`.
pub fn scale_transform_value(input: &str, scale: &Dec, precision: usize) -> (r: Result<
    String,
    ScaleError,
>)
    requires
        scale.wf(),
    ensures
        match r {
            Ok(out) => spec_tf_out(input@, *scale, precision) == Ok::<Seq<char>, crate::err::GCause>(
                out@,
            ),
            Err(e) => spec_tf_out(input@, *scale, precision) == Err::<
                Seq<char>,
                crate::err::GCause,
            >(e.view_g()),
        },
{
    let list = match parse_transform_list(input) {
        Ok(list) => list,
        Err(e) => {
            return Err(e);
        },
    };
    let ghost l = spec_parse_tf(input@)->0;
    if list.len() == 0 {
        return Ok(input.to_owned());
    }
    let ctx = crate::num::ScaleCtx { scale: *scale, precision, fix_stroke: false };
    let has_non_translate = match has_any_non_translate(&list) {
        Some(_) => true,
        None => false,
    };
    if has_non_translate {
        if list.len() == 1 && str_eq(list[0].name.as_str(), "scale") {
            let ps = &list[0].params;
            proof {
                assert(l[0].1 =~= list@[0].params@);
            }
            let sx = param_or(ps, 0, Dec::one());
            let sy = param_or(ps, 1, sx);
            let mut out: Vec<char> = Vec::new();
            crate::err::append_str(&mut out, "scale(");
            let fx = ctx.fmt_chars(&dec_mul(&sx, scale));
            crate::path::append_chars(&mut out, &fx);
            if ps.len() >= 2 {
                crate::err::append_str(&mut out, ",");
                let fy = ctx.fmt_chars(&dec_mul(&sy, scale));
                crate::path::append_chars(&mut out, &fy);
            }
            crate::err::append_str(&mut out, ")");
            proof {
                assert(out@ =~= spec_scale_text(l[0].1, *scale, precision));
            }
            return Ok(chars_to_string(&out));
        }
        let m = transform_to_matrix(&list)?;
        let mut out: Vec<char> = Vec::new();
        crate::err::append_str(&mut out, "matrix(");
        let fa = ctx.fmt_chars(&clean_coeff(&m.a, scale));
        crate::path::append_chars(&mut out, &fa);
        crate::err::append_str(&mut out, ",");
        let fb = ctx.fmt_chars(&clean_coeff(&m.b, scale));
        crate::path::append_chars(&mut out, &fb);
        crate::err::append_str(&mut out, ",");
        let fc = ctx.fmt_chars(&clean_coeff(&m.c, scale));
        crate::path::append_chars(&mut out, &fc);
        crate::err::append_str(&mut out, ",");
        let fd = ctx.fmt_chars(&clean_coeff(&m.d, scale));
        crate::path::append_chars(&mut out, &fd);
        crate::err::append_str(&mut out, ",");
        let fe = ctx.fmt_chars(&clean_coeff(&m.e, scale));
        crate::path::append_chars(&mut out, &fe);
        crate::err::append_str(&mut out, ",");
        let ff = ctx.fmt_chars(&clean_coeff(&m.f, scale));
        crate::path::append_chars(&mut out, &ff);
        crate::err::append_str(&mut out, ")");
        proof {
            assert(out@ =~= spec_matrix_text(m, *scale, precision));
        }
        return Ok(chars_to_string(&out));
    }
    let mut out: Vec<char> = Vec::new();
    let mut k: usize = 0;
    while k < list.len()
        invariant
            k < list@.len() || (k == list@.len() && list@.len() == 0),
            tfs_view(list@) == l,
            spec_all_translate(l),
            list@.len() > 0,
            forall|j: int| 0 <= j < list@.len() ==> (#[trigger] list@[j]).wf(),
            ctx.scale == *scale,
            ctx.precision == precision,
            spec_translates_text(l, 0, *scale, precision) == out@ + spec_translates_text(
                l,
                k as int,
                *scale,
                precision,
            ),
        decreases list@.len() - k,
    {
        let ghost out0 = out@;
        push_translate_text(&mut out, &list[k].params, scale, precision);
        if k + 1 < list.len() {
            out.push(' ');
            proof {
                reveal_strlit(" ");
                assert(l[k as int].1 == list@[k as int].params@);
                assert(out@ =~= out0 + (spec_translate_text(l[k as int].1, *scale, precision)
                    + " "@));
                assert(out0 + (spec_translate_text(l[k as int].1, *scale, precision) + " "@
                    + spec_translates_text(l, k + 1, *scale, precision)) =~= out@
                    + spec_translates_text(l, k + 1, *scale, precision));
            }
            k = k + 1;
        } else {
            proof {
                assert(spec_translates_text(l, k as int, *scale, precision)
                    == spec_translate_text(l[k as int].1, *scale, precision));
                assert(out0 + spec_translate_text(l[k as int].1, *scale, precision) =~= out@);
                assert(spec_translates_text(l, list@.len() as int, *scale, precision)
                    =~= Seq::<char>::empty());
                assert(out@ + spec_translates_text(l, list@.len() as int, *scale, precision)
                    =~= out@);
            }
            k = k + 1;
            break;
        }
    }
    proof {
        assert(out@ =~= spec_translates_text(l, 0, *scale, precision));
    }
    Ok(chars_to_string(&out))
}

/// The index of a non-translate function, if any.
fn has_any_non_translate(list: &Vec<Transform>) -> (r: Option<usize>)
    ensures
        match r {
            Some(k) => k < list@.len() && tfs_view(list@)[k as int].0 != "translate"@,
            None => spec_all_translate(tfs_view(list@)),
        },
{
    let mut k: usize = 0;
    while k < list.len()
        invariant
            k <= list@.len(),
            forall|j: int| 0 <= j < k ==> (#[trigger] tfs_view(list@)[j]).0 == "translate"@,
        decreases list@.len() - k,
    {
        if !str_eq(list[k].name.as_str(), "translate") {
            return Some(k);
        }
        k = k + 1;
    }
    None
}

/// One coefficient of the scaled matrix: multiplied by the factor and
/// snapped to zero under the noise threshold.
fn clean_coeff(x: &Dec, sc: &Dec) -> (r: Dec)
    requires
        x.wf(),
        sc.wf(),
    ensures
        r == spec_coeff(*x, *sc),
        r.wf(),
{
    let v = dec_mul(x, sc);
    if dec_is_tiny(&v) {
        Dec::zero()
    } else {
        v
    }
}

} // verus!
