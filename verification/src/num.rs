//! Decimal numbers and the numeric formatter.
//!
//! Every numeric quantity in the library is carried as a [`Dec`]: an exact
//! sign/mantissa/exponent decimal with at most nineteen significant digits.
//! Arithmetic on it (used to scale coordinates, compose transform matrices
//! and invert frequencies) is ordinary verified integer code; parsing and
//! rendering are exact digit manipulation. Values whose magnitude leaves the
//! range of a reasonable document are saturated to an infinity or flushed to
//! zero, mirroring how binary floating point behaves at its extremes.

use vstd::prelude::*;

verus! {

/// Upper bound (exclusive) of a mantissa: nineteen significant digits.
pub const MANT_LIMIT: u128 = 10_000_000_000_000_000_000;

/// A decimal number: `(-1)^neg * mant * 10^exp`, or an infinity, or an
/// undefined result (from `0/0` and the like).
#[derive(Clone, Copy, PartialEq, Eq, Structural, Debug)]
pub enum Dec {
    /// Not a number: the result of an undefined operation.
    Nan,
    /// A signed infinity: the result of overflow or division by zero.
    Inf { neg: bool },
    /// A finite value `(-1)^neg * mant * 10^exp`.
    Fin { neg: bool, mant: u128, exp: i64 },
}

impl Dec {
    /// Well-formed: the mantissa is below nineteen digits and carries no
    /// trailing zero, a zero mantissa has exponent zero, and the exponent
    /// stays in the saturation window.
    pub open spec fn wf(self) -> bool {
        match self {
            Dec::Fin { neg, mant, exp } => {
                &&& mant < MANT_LIMIT
                &&& (mant > 0 ==> mant % 10 != 0 && -324 <= spec_digits(mant as nat) + exp <= 309)
                &&& (mant == 0 ==> exp == 0)
            },
            _ => true,
        }
    }

    /// The number one.
    pub open spec fn spec_one() -> Dec {
        Dec::Fin { neg: false, mant: 1, exp: 0 }
    }

    /// The number one.
    pub fn one() -> (r: Dec)
        ensures
            r == Dec::spec_one(),
            r.wf(),
    {
        proof {
            reveal_with_fuel(spec_digits, 3);
        }
        Dec::Fin { neg: false, mant: 1, exp: 0 }
    }

    /// Positive zero.
    pub fn zero() -> (r: Dec)
        ensures
            r == (Dec::Fin { neg: false, mant: 0, exp: 0 }),
            r.wf(),
    {
        Dec::Fin { neg: false, mant: 0, exp: 0 }
    }

    /// Whether the value compares equal to zero (either sign).
    pub open spec fn spec_is_zero(self) -> bool {
        match self {
            Dec::Fin { neg, mant, exp } => mant == 0,
            _ => false,
        }
    }

    /// Whether the value compares equal to zero (either sign).
    pub fn is_zero(&self) -> (r: bool)
        ensures
            r == self.spec_is_zero(),
    {
        match self {
            Dec::Fin { mant, .. } => *mant == 0,
            _ => false,
        }
    }
}

/// Number of decimal digits of `m` (zero has no digits).
pub open spec fn spec_digits(m: nat) -> nat
    decreases m,
{
    if m == 0 {
        0
    } else {
        1 + spec_digits(m / 10)
    }
}

/// Digit-by-digit reduction of an oversized mantissa: divide by ten,
/// rounding the dropped digit half-up, until below the mantissa limit.
pub open spec fn spec_reduce(mant: nat, exp: int) -> (nat, int)
    decreases mant,
{
    if mant >= MANT_LIMIT {
        let q = mant / 10;
        let r = mant % 10;
        spec_reduce(if r >= 5 { q + 1 } else { q }, exp + 1)
    } else {
        (mant, exp)
    }
}

/// Strip trailing zero digits, moving them into the exponent.
pub open spec fn spec_strip0(mant: nat, exp: int) -> (nat, int)
    decreases mant,
{
    if mant > 0 && mant % 10 == 0 {
        spec_strip0(mant / 10, exp + 1)
    } else {
        (mant, exp)
    }
}

/// Canonicalize a raw `(sign, mantissa, exponent)` triple: reduce the
/// mantissa to at most nineteen digits, strip trailing zeros, then saturate
/// values beyond `10^309` to an infinity and flush values below `10^-324`
/// to zero.
pub open spec fn spec_norm(neg: bool, mant: nat, exp: int) -> Dec {
    let (m1, e1) = spec_reduce(mant, exp);
    let (m2, e2) = spec_strip0(m1, e1);
    if m2 == 0 {
        Dec::Fin { neg, mant: 0, exp: 0 }
    } else if spec_digits(m2) + e2 > 309 {
        Dec::Inf { neg }
    } else if spec_digits(m2) + e2 < -324 {
        Dec::Fin { neg, mant: 0, exp: 0 }
    } else {
        Dec::Fin { neg, mant: m2 as u128, exp: e2 as i64 }
    }
}

proof fn lemma_reduce_bounds(mant: nat, exp: int)
    ensures
        ({
            let (m, e) = spec_reduce(mant, exp);
            m < MANT_LIMIT && exp <= e && (mant < MANT_LIMIT ==> (m == mant && e == exp)) && m
                <= mant
        }),
    decreases mant,
{
    if mant >= MANT_LIMIT {
        let q = mant / 10;
        let r = mant % 10;
        let next = if r >= 5 { q + 1 } else { q };
        assert(next < mant);
        lemma_reduce_bounds(next, exp + 1);
    }
}

proof fn lemma_strip0_bounds(mant: nat, exp: int)
    ensures
        ({
            let (m, e) = spec_strip0(mant, exp);
            m <= mant && exp <= e && (m > 0 ==> m % 10 != 0) && (m == 0 <==> mant == 0)
        }),
    decreases mant,
{
    if mant > 0 && mant % 10 == 0 {
        lemma_strip0_bounds(mant / 10, exp + 1);
    }
}

/// The canonical form is well-formed.
pub proof fn lemma_norm_wf(neg: bool, mant: nat, exp: int)
    ensures
        spec_norm(neg, mant, exp).wf(),
{
    lemma_reduce_bounds(mant, exp);
    let (m1, e1) = spec_reduce(mant, exp);
    lemma_strip0_bounds(m1, e1);
    let (m2, e2) = spec_strip0(m1, e1);
    if m2 > 0 {
        lemma_digits_bound(m2);
    }
}

/// A well-formed finite value is already canonical.
pub proof fn lemma_norm_canonical(d: Dec)
    requires
        d.wf(),
        d is Fin,
        !d.spec_is_zero(),
    ensures
        spec_norm(d->Fin_neg, d->Fin_mant as nat, d->Fin_exp as int) == d,
{
    let mant = d->Fin_mant as nat;
    let exp = d->Fin_exp as int;
    assert(spec_reduce(mant, exp) == (mant, exp));
    assert(spec_strip0(mant, exp) == (mant, exp));
    lemma_digits_bound(mant);
    assert(spec_digits(mant) >= 1);
    assert(spec_digits(mant) <= 19) by {
        lemma_digits_mono(mant, (MANT_LIMIT - 1) as nat);
    }
}

/// `digits` is monotone.
proof fn lemma_digits_mono(a: nat, b: nat)
    requires
        a <= b,
    ensures
        spec_digits(a) <= spec_digits(b),
    decreases b,
{
    if a > 0 {
        lemma_digits_mono(a / 10, b / 10);
    }
}

/// Powers of ten.
pub open spec fn pow10(k: nat) -> nat
    decreases k,
{
    if k == 0 {
        1
    } else {
        10 * pow10((k - 1) as nat)
    }
}

pub proof fn lemma_pow10_pos(k: nat)
    ensures
        pow10(k) >= 1,
    decreases k,
{
    if k > 0 {
        lemma_pow10_pos((k - 1) as nat);
    }
}

proof fn lemma_pow10_mono(a: nat, b: nat)
    requires
        a <= b,
    ensures
        pow10(a) <= pow10(b),
    decreases b,
{
    lemma_pow10_pos(a);
    if a < b {
        lemma_pow10_mono(a, (b - 1) as nat);
    }
}

proof fn lemma_pow10_div(m: nat, k: nat)
    requires
        1 <= k,
        m <= pow10(k),
    ensures
        m / 10 <= pow10((k - 1) as nat),
        m / 10 == pow10((k - 1) as nat) ==> m % 10 == 0,
{
    assert(pow10(k) == 10 * pow10((k - 1) as nat));
}

proof fn lemma_digits_lt_pow(m: nat, k: nat)
    requires
        m < pow10(k),
    ensures
        spec_digits(m) <= k,
    decreases k,
{
    if m > 0 {
        if k == 0 {
        } else {
            lemma_digits_lt_pow(m / 10, (k - 1) as nat);
        }
    }
}

pub proof fn lemma_digits_bound(m: nat)
    ensures
        m > 0 ==> spec_digits(m) >= 1,
        m < MANT_LIMIT ==> spec_digits(m) <= 19,
    decreases m,
{
    if m > 0 {
        lemma_digits_bound(m / 10);
    }
    if m < MANT_LIMIT {
        assert(pow10(19) == MANT_LIMIT) by {
            reveal_with_fuel(pow10, 20);
        }
        lemma_digits_lt_pow(m, 19);
    }
}

/// Count the decimal digits of a mantissa.
pub fn digits_of(m: u128) -> (r: usize)
    requires
        m < MANT_LIMIT,
    ensures
        r == spec_digits(m as nat),
    decreases m,
{
    proof {
        lemma_digits_bound(m as nat);
    }
    let mut n = m;
    let mut d: usize = 0;
    while n > 0
        invariant
            d + spec_digits(n as nat) == spec_digits(m as nat),
            spec_digits(m as nat) <= 19,
        decreases n,
    {
        n = n / 10;
        d = d + 1;
    }
    d
}

/// Canonicalize a raw triple into a well-formed decimal.
pub fn normalize(neg: bool, mant: u128, exp: i64) -> (r: Dec)
    requires
        -200_000_000 <= exp <= 200_000_000,
    ensures
        r == spec_norm(neg, mant as nat, exp as int),
        r.wf(),
{
    proof {
        lemma_norm_wf(neg, mant as nat, exp as int);
    }
    let mut m = mant;
    let mut e = exp;
    proof {
        assert(pow10(19) == MANT_LIMIT) by {
            reveal_with_fuel(pow10, 20);
        }
        assert(u128::MAX as nat <= pow10(40)) by {
            reveal_with_fuel(pow10, 41);
        }
    }
    while m >= MANT_LIMIT
        invariant
            spec_reduce(m as nat, e as int) == spec_reduce(mant as nat, exp as int),
            exp <= e,
            e - exp <= 22,
            m as nat <= pow10((40 - (e - exp)) as nat),
        decreases m,
    {
        proof {
            let k = (40 - (e - exp)) as nat;
            assert(k >= 19) by {
                if k < 19 {
                    lemma_pow10_mono(k, 18);
                    reveal_with_fuel(pow10, 20);
                }
            }
            lemma_pow10_div(m as nat, k);
        }
        let q = m / 10;
        let r = m % 10;
        m = if r >= 5 {
            q + 1
        } else {
            q
        };
        e = e + 1;
    }
    proof {
        lemma_pow10_mono((40 - (e - exp)) as nat, (62 - (e - exp)) as nat);
    }
    while m > 0 && m % 10 == 0
        invariant
            spec_strip0(m as nat, e as int) == spec_strip0(
                spec_reduce(mant as nat, exp as int).0,
                spec_reduce(mant as nat, exp as int).1,
            ),
            m < MANT_LIMIT,
            exp <= e,
            e - exp <= 62,
            m as nat <= pow10((62 - (e - exp)) as nat),
        decreases m,
    {
        proof {
            let k = (62 - (e - exp)) as nat;
            assert(k >= 1) by {
                if k == 0 {
                    reveal_with_fuel(pow10, 1);
                }
            }
            lemma_pow10_div(m as nat, k);
        }
        m = m / 10;
        e = e + 1;
    }
    proof {
        lemma_reduce_bounds(mant as nat, exp as int);
    }
    if m == 0 {
        return Dec::Fin { neg, mant: 0, exp: 0 };
    }
    let d = digits_of(m);
    proof {
        lemma_digits_bound(m as nat);
        lemma_digits_mono(m as nat, (MANT_LIMIT - 1) as nat);
    }
    if d as i64 + e > 309 {
        Dec::Inf { neg }
    } else if (d as i64) + e < -324 {
        Dec::Fin { neg, mant: 0, exp: 0 }
    } else {
        Dec::Fin { neg, mant: m, exp: e }
    }
}

/// The exact product of two decimals, canonicalized; signs follow the
/// usual rules, `0 * inf` is undefined.
#[verifier::opaque]
pub open spec fn spec_dec_mul(a: Dec, b: Dec) -> Dec {
    match (a, b) {
        (Dec::Nan, _) => Dec::Nan,
        (_, Dec::Nan) => Dec::Nan,
        (Dec::Inf { neg: n1 }, Dec::Inf { neg: n2 }) => Dec::Inf { neg: n1 != n2 },
        (Dec::Inf { neg: n1 }, Dec::Fin { neg: n2, mant, .. }) => if mant == 0 {
            Dec::Nan
        } else {
            Dec::Inf { neg: n1 != n2 }
        },
        (Dec::Fin { neg: n1, mant, .. }, Dec::Inf { neg: n2 }) => if mant == 0 {
            Dec::Nan
        } else {
            Dec::Inf { neg: n1 != n2 }
        },
        (Dec::Fin { neg: n1, mant: m1, exp: e1 }, Dec::Fin { neg: n2, mant: m2, exp: e2 }) => {
            spec_norm(n1 != n2, (m1 * m2) as nat, e1 + e2)
        },
    }
}

/// Multiply two decimals exactly (the product of two nineteen-digit
/// mantissas always fits) and canonicalize.
pub fn dec_mul(a: &Dec, b: &Dec) -> (r: Dec)
    requires
        a.wf(),
        b.wf(),
    ensures
        r == spec_dec_mul(*a, *b),
        r.wf(),
{
    proof {
        reveal(spec_dec_mul);
    }
    match (a, b) {
        (Dec::Nan, _) => Dec::Nan,
        (_, Dec::Nan) => Dec::Nan,
        (Dec::Inf { neg: n1 }, Dec::Inf { neg: n2 }) => Dec::Inf { neg: *n1 != *n2 },
        (Dec::Inf { neg: n1 }, Dec::Fin { neg: n2, mant, .. }) => {
            if *mant == 0 {
                Dec::Nan
            } else {
                Dec::Inf { neg: *n1 != *n2 }
            }
        },
        (Dec::Fin { neg: n1, mant, .. }, Dec::Inf { neg: n2 }) => {
            if *mant == 0 {
                Dec::Nan
            } else {
                Dec::Inf { neg: *n1 != *n2 }
            }
        },
        (
            Dec::Fin { neg: n1, mant: m1, exp: e1 },
            Dec::Fin { neg: n2, mant: m2, exp: e2 },
        ) => {
            proof {
                assert((*m1 as nat) * (*m2 as nat) < u128::MAX as nat) by (nonlinear_arith)
                    requires
                        *m1 < MANT_LIMIT,
                        *m2 < MANT_LIMIT,
                ;
                if *m1 > 0 {
                    lemma_digits_bound(*m1 as nat);
                }
                if *m2 > 0 {
                    lemma_digits_bound(*m2 as nat);
                }
            }
            normalize(*n1 != *n2, *m1 * *m2, *e1 + *e2)
        },
    }
}

/// Multiplying a well-formed decimal by one returns it unchanged — the
/// scaling engine's identity law.
pub proof fn lemma_mul_one(a: Dec)
    requires
        a.wf(),
    ensures
        spec_dec_mul(a, Dec::spec_one()) == a,
{
    reveal(spec_dec_mul);
    match a {
        Dec::Fin { neg, mant, exp } => {
            if mant == 0 {
                assert(spec_norm(neg, 0, exp as int) == a);
            } else {
                lemma_norm_canonical(a);
            }
        },
        _ => {},
    }
}

/// Numeric value of a digit character.
pub open spec fn spec_dval(c: char) -> nat {
    (c as u32 - 48) as nat
}

/// Scan a run of integer digits from `i`, accumulating a mantissa of at
/// most nineteen digits; further digits are dropped into the exponent
/// (saturated far beyond the overflow window). Returns the position after
/// the run, the mantissa, the exponent adjustment, and the digit count.
pub open spec fn spec_scan_int(s: Seq<char>, i: int, mant: nat, exp10: int, n: nat) -> (
    int,
    nat,
    int,
    nat,
)
    decreases s.len() - i,
{
    if 0 <= i < s.len() && crate::spec_is_ascii_digit(s[i]) {
        if mant < MANT_LIMIT / 10 {
            spec_scan_int(s, i + 1, mant * 10 + spec_dval(s[i]), exp10, n + 1)
        } else {
            spec_scan_int(
                s,
                i + 1,
                mant,
                if exp10 < 10_000_000 {
                    exp10 + 1
                } else {
                    exp10
                },
                n + 1,
            )
        }
    } else {
        (i, mant, exp10, n)
    }
}

/// Scan a run of fraction digits from `i`: each digit taken into the
/// mantissa lowers the exponent; digits beyond the mantissa's capacity are
/// dropped.
pub open spec fn spec_scan_frac(s: Seq<char>, i: int, mant: nat, exp10: int, n: nat) -> (
    int,
    nat,
    int,
    nat,
)
    decreases s.len() - i,
{
    if 0 <= i < s.len() && crate::spec_is_ascii_digit(s[i]) {
        if mant < MANT_LIMIT / 10 {
            spec_scan_frac(
                s,
                i + 1,
                mant * 10 + spec_dval(s[i]),
                if exp10 > -10_000_000 {
                    exp10 - 1
                } else {
                    exp10
                },
                n + 1,
            )
        } else {
            spec_scan_frac(s, i + 1, mant, exp10, n + 1)
        }
    } else {
        (i, mant, exp10, n)
    }
}

/// Scan a run of exponent digits from `i`, saturating the value well
/// beyond the overflow window.
pub open spec fn spec_scan_exp(s: Seq<char>, i: int, e: nat, n: nat) -> (int, nat, nat)
    decreases s.len() - i,
{
    if 0 <= i < s.len() && crate::spec_is_ascii_digit(s[i]) {
        if e < 10_000_000 {
            spec_scan_exp(s, i + 1, e * 10 + spec_dval(s[i]), n + 1)
        } else {
            spec_scan_exp(s, i + 1, e, n + 1)
        }
    } else {
        (i, e, n)
    }
}

/// Parse a decimal literal — `[+-]? (digits [. digits?] | . digits)
/// ([eE] [+-]? digits)?` — into a canonical decimal. `None` when the text
/// does not match the grammar exactly or leaves trailing characters.
pub open spec fn spec_parse_dec(s: Seq<char>) -> Option<Dec> {
    let neg = s.len() > 0 && s[0] == '-';
    let i0: int = if s.len() > 0 && (s[0] == '-' || s[0] == '+') {
        1
    } else {
        0
    };
    let (i1, m1, e1, n1) = spec_scan_int(s, i0, 0, 0, 0);
    let dot = i1 < s.len() && s[i1] == '.';
    let (i2, m2, e2, n2) = if dot {
        spec_scan_frac(s, i1 + 1, m1, e1, 0)
    } else {
        (i1, m1, e1, 0nat)
    };
    if n1 + n2 == 0 {
        None
    } else if i2 < s.len() && (s[i2] == 'e' || s[i2] == 'E') {
        let eneg = i2 + 1 < s.len() && s[i2 + 1] == '-';
        let j0: int = if i2 + 1 < s.len() && (s[i2 + 1] == '-' || s[i2 + 1] == '+') {
            i2 + 2
        } else {
            i2 + 1
        };
        let (j1, ev, en) = spec_scan_exp(s, j0, 0, 0);
        if en == 0 || j1 != s.len() {
            None
        } else {
            Some(
                spec_norm(
                    neg,
                    m2,
                    e2 + if eneg {
                        -(ev as int)
                    } else {
                        ev as int
                    },
                ),
            )
        }
    } else if i2 != s.len() {
        None
    } else {
        Some(spec_norm(neg, m2, e2))
    }
}

/// What the literal parser returns is canonical.
pub proof fn lemma_parse_dec_wf(s: Seq<char>)
    ensures
        spec_parse_dec(s) is Some ==> spec_parse_dec(s)->0.wf(),
{
    let neg = s.len() > 0 && s[0] == '-';
    let i0: int = if s.len() > 0 && (s[0] == '-' || s[0] == '+') {
        1
    } else {
        0
    };
    let (i1, m1, e1, n1) = spec_scan_int(s, i0, 0, 0, 0);
    let dot = i1 < s.len() && s[i1] == '.';
    let (i2, m2, e2, n2) = if dot {
        spec_scan_frac(s, i1 + 1, m1, e1, 0)
    } else {
        (i1, m1, e1, 0nat)
    };
    if i2 < s.len() && (s[i2] == 'e' || s[i2] == 'E') {
        let eneg = i2 + 1 < s.len() && s[i2 + 1] == '-';
        let j0: int = if i2 + 1 < s.len() && (s[i2 + 1] == '-' || s[i2 + 1] == '+') {
            i2 + 2
        } else {
            i2 + 1
        };
        let (j1, ev, en) = spec_scan_exp(s, j0, 0, 0);
        lemma_norm_wf(
            neg,
            m2,
            e2 + if eneg {
                -(ev as int)
            } else {
                ev as int
            },
        );
    } else {
        lemma_norm_wf(neg, m2, e2);
    }
}

/// Scan integer digits; executable form of [`spec_scan_int`].
fn scan_int(s: &Vec<char>, i: usize, mant: u128, exp10: i64) -> (r: (usize, u128, i64, usize))
    requires
        i <= s@.len(),
        mant < MANT_LIMIT,
        -20_000_000 <= exp10 <= 20_000_000,
    ensures
        (r.0 as int, r.1 as nat, r.2 as int, r.3 as nat) == spec_scan_int(
            s@,
            i as int,
            mant as nat,
            exp10 as int,
            0,
        ),
        i <= r.0 <= s@.len(),
        r.1 < MANT_LIMIT,
        -20_000_000 <= r.2 <= 20_000_000,
{
    let mut j = i;
    let mut m = mant;
    let mut e = exp10;
    let mut n: usize = 0;
    while j < s.len() && is_ascii_digit_ref(&s[j])
        invariant
            i <= j <= s@.len(),
            m < MANT_LIMIT,
            -20_000_000 <= e <= 20_000_000,
            n <= j,
            spec_scan_int(s@, j as int, m as nat, e as int, n as nat) == spec_scan_int(
                s@,
                i as int,
                mant as nat,
                exp10 as int,
                0,
            ),
        decreases s@.len() - j,
    {
        let d = (s[j] as u32 - 48) as u128;
        if m < MANT_LIMIT / 10 {
            m = m * 10 + d;
        } else if e < 10_000_000 {
            e = e + 1;
        }
        j = j + 1;
        n = n + 1;
    }
    (j, m, e, n)
}

/// Scan fraction digits; executable form of [`spec_scan_frac`].
fn scan_frac(s: &Vec<char>, i: usize, mant: u128, exp10: i64) -> (r: (usize, u128, i64, usize))
    requires
        i <= s@.len(),
        mant < MANT_LIMIT,
        -20_000_000 <= exp10 <= 20_000_000,
    ensures
        (r.0 as int, r.1 as nat, r.2 as int, r.3 as nat) == spec_scan_frac(
            s@,
            i as int,
            mant as nat,
            exp10 as int,
            0,
        ),
        i <= r.0 <= s@.len(),
        r.1 < MANT_LIMIT,
        -20_000_000 <= r.2 <= 20_000_000,
{
    let mut j = i;
    let mut m = mant;
    let mut e = exp10;
    let mut n: usize = 0;
    while j < s.len() && is_ascii_digit_ref(&s[j])
        invariant
            i <= j <= s@.len(),
            m < MANT_LIMIT,
            -20_000_000 <= e <= 20_000_000,
            n <= j,
            spec_scan_frac(s@, j as int, m as nat, e as int, n as nat) == spec_scan_frac(
                s@,
                i as int,
                mant as nat,
                exp10 as int,
                0,
            ),
        decreases s@.len() - j,
    {
        let d = (s[j] as u32 - 48) as u128;
        if m < MANT_LIMIT / 10 {
            m = m * 10 + d;
            if e > -10_000_000 {
                e = e - 1;
            }
        }
        j = j + 1;
        n = n + 1;
    }
    (j, m, e, n)
}

/// Scan exponent digits; executable form of [`spec_scan_exp`].
fn scan_exp(s: &Vec<char>, i: usize) -> (r: (usize, u64, usize))
    requires
        i <= s@.len(),
    ensures
        (r.0 as int, r.1 as nat, r.2 as nat) == spec_scan_exp(s@, i as int, 0, 0),
        i <= r.0 <= s@.len(),
        r.1 <= 100_000_000,
{
    let mut j = i;
    let mut e: u64 = 0;
    let mut n: usize = 0;
    while j < s.len() && is_ascii_digit_ref(&s[j])
        invariant
            i <= j <= s@.len(),
            n <= j,
            e <= 100_000_000,
            spec_scan_exp(s@, j as int, e as nat, n as nat) == spec_scan_exp(s@, i as int, 0, 0),
        decreases s@.len() - j,
    {
        let d = (s[j] as u32 - 48) as u64;
        if e < 10_000_000 {
            e = e * 10 + d;
        }
        j = j + 1;
        n = n + 1;
    }
    (j, e, n)
}

/// Whether a character is an ASCII digit, by reference.
fn is_ascii_digit_ref(c: &char) -> (r: bool)
    ensures
        r == crate::spec_is_ascii_digit(*c),
{
    let u = *c as u32;
    48 <= u && u <= 57
}

/// Parse a decimal literal into a canonical decimal; `None` where the text
/// does not match the grammar exactly.
pub fn dec_from_chars(s: &Vec<char>) -> (r: Option<Dec>)
    ensures
        r == spec_parse_dec(s@),
        r is Some ==> r->0.wf(),
{
    let ghost gneg = s@.len() > 0 && s@[0] == '-';
    let mut i0: usize = 0;
    let mut neg = false;
    if s.len() > 0 && (s[0] == '-' || s[0] == '+') {
        neg = s[0] == '-';
        i0 = 1;
    }
    let (i1, m1, e1, n1) = scan_int(s, i0, 0, 0);
    let dot = i1 < s.len() && s[i1] == '.';
    let (i2, m2, e2, n2) = if dot {
        scan_frac(s, i1 + 1, m1, e1)
    } else {
        (i1, m1, e1, 0usize)
    };
    if n1 == 0 && n2 == 0 {
        return None;
    }
    proof {
        lemma_norm_wf(gneg, m2 as nat, e2 as int);
    }
    if i2 < s.len() && (s[i2] == 'e' || s[i2] == 'E') {
        let mut j0 = i2 + 1;
        let mut eneg = false;
        if i2 + 1 < s.len() && (s[i2 + 1] == '-' || s[i2 + 1] == '+') {
            eneg = s[i2 + 1] == '-';
            j0 = i2 + 2;
        }
        let (j1, ev, en) = scan_exp(s, j0);
        if en == 0 || j1 != s.len() {
            None
        } else {
            let et: i64 = if eneg {
                e2 - ev as i64
            } else {
                e2 + ev as i64
            };
            proof {
                lemma_norm_wf(gneg, m2 as nat, et as int);
            }
            Some(normalize(neg, m2, et))
        }
    } else if i2 != s.len() {
        None
    } else {
        Some(normalize(neg, m2, e2))
    }
}

/// A run of `k` zero characters.
pub open spec fn spec_zeros(k: nat) -> Seq<char> {
    Seq::new(k, |i: int| '0')
}

/// The digit character of a value below ten.
pub open spec fn spec_dchar(d: nat) -> char {
    if d == 0 {
        '0'
    } else if d == 1 {
        '1'
    } else if d == 2 {
        '2'
    } else if d == 3 {
        '3'
    } else if d == 4 {
        '4'
    } else if d == 5 {
        '5'
    } else if d == 6 {
        '6'
    } else if d == 7 {
        '7'
    } else if d == 8 {
        '8'
    } else {
        '9'
    }
}

/// The decimal digit characters of a natural number (zero is "0").
pub open spec fn spec_dec_chars(n: nat) -> Seq<char>
    decreases n,
{
    if n < 10 {
        seq![spec_dchar(n)]
    } else {
        spec_dec_chars(n / 10).push(spec_dchar(n % 10))
    }
}

/// The digit character following a digit below nine.
pub open spec fn spec_dsucc(c: char) -> char {
    spec_dchar((spec_dval(c) + 1) as nat)
}

/// A digit string plus one: carries ripple through trailing nines and a
/// leading one appears when all digits carry.
pub open spec fn spec_inc_digits(s: Seq<char>) -> Seq<char>
    decreases s.len(),
{
    if s.len() == 0 {
        seq!['1']
    } else if s.last() as u32 == 57 {
        spec_inc_digits(s.drop_last()).push('0')
    } else {
        s.drop_last().push(spec_dsucc(s.last()))
    }
}

/// Whether a character is the digit nine.
fn is_nine(c: char) -> (r: bool)
    ensures
        r == (c as u32 == 57),
{
    c as u32 == 57
}

/// Whether rounding at the cut is upward: the dropped digits are compared
/// against one half, ties going to an even last kept digit.
pub open spec fn spec_round_up(dropped: Seq<char>, kept: Seq<char>) -> bool {
    if dropped.len() == 0 {
        false
    } else if dropped[0] as u32 > 53 {
        true
    } else if (dropped[0] as u32) < 53 {
        false
    } else if exists|i: int| 1 <= i < dropped.len() && dropped[i] != '0' {
        true
    } else {
        kept.len() > 0 && spec_dval(kept.last()) % 2 == 1
    }
}

/// The fixed-precision rendering of a finite decimal: the exact value with
/// `p` fractional digits, rounded half-to-even, with a sign for negative
/// values (a negative zero keeps its sign).
pub open spec fn spec_fixed_fin(neg: bool, mant: nat, exp: int, p: usize) -> Seq<char> {
    let sign: Seq<char> = if neg {
        seq!['-']
    } else {
        Seq::empty()
    };
    let ds = spec_dec_chars(mant);
    if exp >= 0 {
        let intpart = ds + spec_zeros(exp as nat);
        if p > 0 {
            sign + intpart + seq!['.'] + spec_zeros(p as nat)
        } else {
            sign + intpart
        }
    } else {
        let k = (-exp) as nat;
        let ll: nat = if ds.len() >= k + 1 {
            ds.len()
        } else {
            k + 1
        };
        let padded = spec_zeros((ll - ds.len()) as nat) + ds;
        if p >= k {
            let intp = padded.take((ll - k) as int);
            let frac = padded.skip((ll - k) as int) + spec_zeros((p - k) as nat);
            sign + intp + seq!['.'] + frac
        } else {
            let kept = padded.take((ll - k + p) as int);
            let dropped = padded.skip((ll - k + p) as int);
            let kept2 = if spec_round_up(dropped, kept) {
                spec_inc_digits(kept)
            } else {
                kept
            };
            let intp = kept2.take((kept2.len() - p) as int);
            let frac = kept2.skip((kept2.len() - p) as int);
            if p > 0 {
                sign + intp + seq!['.'] + frac
            } else {
                sign + intp
            }
        }
    }
}

/// The fixed-precision rendering of a decimal; infinities and the
/// undefined value render as `format!` renders theirs.
pub open spec fn spec_dec_fixed(d: Dec, p: usize) -> Seq<char> {
    match d {
        Dec::Nan => seq!['N', 'a', 'N'],
        Dec::Inf { neg } => if neg {
            seq!['-', 'i', 'n', 'f']
        } else {
            seq!['i', 'n', 'f']
        },
        Dec::Fin { neg, mant, exp } => spec_fixed_fin(neg, mant as nat, exp as int, p),
    }
}

/// Append `k` zero characters.
fn push_zeros(v: &mut Vec<char>, k: usize)
    ensures
        final(v)@ == old(v)@ + spec_zeros(k as nat),
{
    let mut i: usize = 0;
    while i < k
        invariant
            i <= k,
            v@ == old(v)@ + spec_zeros(i as nat),
        decreases k - i,
    {
        v.push('0');
        i = i + 1;
        proof {
            assert(v@ =~= old(v)@ + spec_zeros(i as nat));
        }
    }
}

/// Append a subrange of another character vector.
fn push_range(v: &mut Vec<char>, src: &Vec<char>, from: usize, to: usize)
    requires
        from <= to <= src@.len(),
    ensures
        final(v)@ == old(v)@ + src@.subrange(from as int, to as int),
{
    let mut i = from;
    while i < to
        invariant
            from <= i <= to,
            v@ == old(v)@ + src@.subrange(from as int, i as int),
        decreases to - i,
    {
        let c = src[i];
        v.push(c);
        i = i + 1;
        proof {
            assert(v@ =~= old(v)@ + src@.subrange(from as int, i as int));
        }
    }
}

/// The digit character of a value below ten.
fn dchar(d: u128) -> (r: char)
    ensures
        r == spec_dchar(d as nat),
{
    if d == 0 {
        '0'
    } else if d == 1 {
        '1'
    } else if d == 2 {
        '2'
    } else if d == 3 {
        '3'
    } else if d == 4 {
        '4'
    } else if d == 5 {
        '5'
    } else if d == 6 {
        '6'
    } else if d == 7 {
        '7'
    } else if d == 8 {
        '8'
    } else {
        '9'
    }
}

/// The decimal digit characters of a mantissa.
pub fn u128_to_chars(m: u128) -> (r: Vec<char>)
    ensures
        r@ == spec_dec_chars(m as nat),
{
    let mut tmp: Vec<char> = Vec::new();
    let mut n = m;
    while n >= 10
        invariant
            spec_dec_chars(m as nat) == spec_dec_chars(n as nat) + tmp@.reverse(),
        decreases n,
    {
        let c = dchar(n % 10);
        tmp.push(c);
        n = n / 10;
        proof {
            assert(spec_dec_chars(m as nat) =~= spec_dec_chars(n as nat) + tmp@.reverse());
        }
    }
    let c = dchar(n);
    tmp.push(c);
    proof {
        assert(spec_dec_chars(m as nat) =~= tmp@.reverse());
    }
    let mut out: Vec<char> = Vec::new();
    let mut i: usize = 0;
    while i < tmp.len()
        invariant
            i <= tmp@.len(),
            out@ == tmp@.reverse().take(i as int),
        decreases tmp@.len() - i,
    {
        let c = tmp[tmp.len() - 1 - i];
        out.push(c);
        i = i + 1;
        proof {
            assert(out@ =~= tmp@.reverse().take(i as int));
        }
    }
    proof {
        assert(out@ =~= tmp@.reverse());
    }
    out
}

/// Whether every character is an ASCII digit.
pub open spec fn spec_all_dchars(s: Seq<char>) -> bool {
    forall|i: int| 0 <= i < s.len() ==> crate::spec_is_ascii_digit(#[trigger] s[i])
}

/// The characters of a rendered mantissa are digits.
proof fn lemma_dec_chars_digits(n: nat)
    ensures
        spec_all_dchars(spec_dec_chars(n)),
    decreases n,
{
    if n >= 10 {
        lemma_dec_chars_digits(n / 10);
        assert(spec_dec_chars(n) =~= spec_dec_chars(n / 10).push(spec_dchar(n % 10)));
    }
}

/// Add one to a digit string in place.
fn inc_digits(v: &mut Vec<char>)
    requires
        spec_all_dchars(old(v)@),
    ensures
        final(v)@ == spec_inc_digits(old(v)@),
{
    proof {
        assert(v@.subrange(0, v@.len() as int) =~= v@);
        assert(v@.subrange(v@.len() as int, v@.len() as int) =~= Seq::<char>::empty());
        assert(spec_inc_digits(old(v)@) =~= spec_inc_digits(v@.subrange(0, v@.len() as int))
            + v@.subrange(v@.len() as int, v@.len() as int));
    }
    let mut i = v.len();
    while i > 0 && is_nine(v[i - 1])
        invariant
            i <= v@.len(),
            v@.len() == old(v)@.len(),
            v@.subrange(0, i as int) == old(v)@.subrange(0, i as int),
            spec_inc_digits(old(v)@) == spec_inc_digits(v@.subrange(0, i as int)) + v@.subrange(
                i as int,
                v@.len() as int,
            ),
            forall|j: int| i <= j < v@.len() ==> v@[j] == '0',
        decreases i,
    {
        proof {
            let pre = v@.subrange(0, i as int);
            assert(pre.last() as u32 == 57);
            assert(pre.drop_last() =~= v@.subrange(0, i - 1));
            assert(spec_inc_digits(pre) =~= spec_inc_digits(v@.subrange(0, i - 1)).push('0'));
        }
        let ghost prev = v@;
        v.set(i - 1, '0');
        i = i - 1;
        proof {
            assert(v@.subrange(0, i as int) =~= prev.subrange(0, i as int));
            assert(spec_inc_digits(old(v)@) =~= spec_inc_digits(v@.subrange(0, i as int))
                + v@.subrange(i as int, v@.len() as int));
        }
    }
    if i == 0 {
        let ghost prev = v@;
        v.insert(0, '1');
        proof {
            assert(prev.subrange(0, 0) =~= Seq::<char>::empty());
            assert(v@ =~= seq!['1'] + prev);
            assert(spec_inc_digits(old(v)@) =~= seq!['1'] + prev.subrange(0, 0) + prev.subrange(
                0,
                prev.len() as int,
            ));
            assert(v@ =~= spec_inc_digits(old(v)@));
        }
    } else {
        proof {
            let pre = v@.subrange(0, i as int);
            assert(pre.last() == v@[i - 1]);
            assert(pre.drop_last() =~= v@.subrange(0, i - 1));
        }
        let ghost prev = v@;
        let c = v[i - 1];
        proof {
            assert(old(v)@.subrange(0, i as int)[i - 1] == c);
            assert(crate::spec_is_ascii_digit(c));
        }
        let s = dchar((c as u32 - 48 + 1) as u128);
        v.set(i - 1, s);
        proof {
            assert(c as u32 != 57);
            assert(spec_dval(prev[i - 1]) < 9);
            assert(v@ =~= prev.subrange(0, i - 1).push(spec_dsucc(prev[i - 1])) + prev.subrange(
                i as int,
                prev.len() as int,
            ));
            assert(spec_inc_digits(prev.subrange(0, i as int)) =~= prev.subrange(0, i - 1).push(
                spec_dsucc(prev[i - 1]),
            ));
            assert(v@ =~= spec_inc_digits(old(v)@));
        }
    }
}

/// Render a decimal with exactly `p` fractional digits.
#[verifier::rlimit(80)]
pub fn dec_fixed(d: &Dec, p: usize) -> (r: Vec<char>)
    requires
        d.wf(),
    ensures
        r@ == spec_dec_fixed(*d, p),
{
    match d {
        Dec::Nan => {
            let mut out: Vec<char> = Vec::new();
            out.push('N');
            out.push('a');
            out.push('N');
            proof {
                assert(out@ =~= seq!['N', 'a', 'N']);
            }
            out
        },
        Dec::Inf { neg } => {
            let mut out: Vec<char> = Vec::new();
            if *neg {
                out.push('-');
            }
            out.push('i');
            out.push('n');
            out.push('f');
            proof {
                if *neg {
                    assert(out@ =~= seq!['-', 'i', 'n', 'f']);
                } else {
                    assert(out@ =~= seq!['i', 'n', 'f']);
                }
            }
            out
        },
        Dec::Fin { neg, mant, exp } => {
            let ghost gsign: Seq<char> = if *neg {
                seq!['-']
            } else {
                Seq::empty()
            };
            let mut out: Vec<char> = Vec::new();
            if *neg {
                out.push('-');
            }
            proof {
                assert(out@ =~= gsign);
            }
            let ds = u128_to_chars(*mant);
            proof {
                if *mant > 0 {
                    lemma_digits_bound(*mant as nat);
                }
                lemma_dec_chars_len(*mant as nat);
            }
            if *exp >= 0 {
                let mut i: usize = 0;
                push_range(&mut out, &ds, 0, ds.len());
                proof {
                    assert(ds@.subrange(0, ds@.len() as int) =~= ds@);
                }
                let z = *exp as usize;
                push_zeros(&mut out, z);
                if p > 0 {
                    out.push('.');
                    push_zeros(&mut out, p);
                    proof {
                        assert(out@ =~= gsign + (ds@ + spec_zeros(z as nat)) + seq!['.']
                            + spec_zeros(p as nat));
                    }
                } else {
                    proof {
                        assert(out@ =~= gsign + (ds@ + spec_zeros(z as nat)));
                    }
                }
                out
            } else {
                let k = (-(*exp)) as usize;
                let ll: usize = if ds.len() >= k + 1 {
                    ds.len()
                } else {
                    k + 1
                };
                let mut padded: Vec<char> = Vec::new();
                push_zeros(&mut padded, ll - ds.len());
                push_range(&mut padded, &ds, 0, ds.len());
                proof {
                    assert(ds@.subrange(0, ds@.len() as int) =~= ds@);
                    assert(padded@ =~= spec_zeros((ll - ds@.len()) as nat) + ds@);
                }
                if p >= k {
                    push_range(&mut out, &padded, 0, ll - k);
                    out.push('.');
                    push_range(&mut out, &padded, ll - k, ll);
                    push_zeros(&mut out, p - k);
                    proof {
                        assert(padded@.subrange(0, (ll - k) as int) =~= padded@.take(
                            (ll - k) as int,
                        ));
                        assert(padded@.subrange((ll - k) as int, ll as int) =~= padded@.skip(
                            (ll - k) as int,
                        ));
                        assert(out@ =~= gsign + padded@.take((ll - k) as int) + seq!['.'] + (
                        padded@.skip((ll - k) as int) + spec_zeros((p - k) as nat)));
                    }
                    out
                } else {
                    let cut = ll - k + p;
                    let mut kept: Vec<char> = Vec::new();
                    push_range(&mut kept, &padded, 0, cut);
                    proof {
                        assert(kept@ =~= padded@.take(cut as int));
                        lemma_dec_chars_digits(*mant as nat);
                        assert(spec_all_dchars(padded@));
                        assert(spec_all_dchars(kept@));
                    }
                    let up = round_up_check(&padded, cut, &kept);
                    if up {
                        inc_digits(&mut kept);
                    }
                    let l2 = kept.len();
                    proof {
                        lemma_inc_digits_len(padded@.take(cut as int));
                        assert(l2 >= p);
                    }
                    push_range(&mut out, &kept, 0, l2 - p);
                    proof {
                        assert(kept@.subrange(0, (l2 - p) as int) =~= kept@.take((l2 - p) as int));
                    }
                    if p > 0 {
                        out.push('.');
                        push_range(&mut out, &kept, l2 - p, l2);
                        proof {
                            assert(kept@.subrange((l2 - p) as int, l2 as int) =~= kept@.skip(
                                (l2 - p) as int,
                            ));
                            assert(out@ =~= gsign + kept@.take((l2 - p) as int) + seq!['.']
                                + kept@.skip((l2 - p) as int));
                        }
                    } else {
                        proof {
                            assert(kept@.skip((l2 - p) as int) =~= Seq::<char>::empty());
                            assert(out@ =~= gsign + kept@.take((l2 - p) as int));
                        }
                    }
                    out
                }
            }
        },
    }
}

/// Incrementing a digit string keeps or grows its length by one.
proof fn lemma_inc_digits_len(s: Seq<char>)
    ensures
        spec_inc_digits(s).len() == s.len() || spec_inc_digits(s).len() == s.len() + 1,
        spec_inc_digits(s).len() >= s.len(),
    decreases s.len(),
{
    if s.len() > 0 && s.last() as u32 == 57 {
        lemma_inc_digits_len(s.drop_last());
    }
}

/// The digit string of a mantissa has as many characters as the mantissa
/// has digits (one for zero).
proof fn lemma_dec_chars_len(n: nat)
    ensures
        spec_dec_chars(n).len() == if n == 0 {
            1nat
        } else {
            spec_digits(n)
        },
    decreases n,
{
    if n >= 10 {
        lemma_dec_chars_len(n / 10);
    } else {
        reveal_with_fuel(spec_digits, 3);
    }
}

/// Decide the rounding direction at a cut position.
fn round_up_check(padded: &Vec<char>, cut: usize, kept: &Vec<char>) -> (r: bool)
    requires
        cut <= padded@.len(),
        kept@ == padded@.take(cut as int),
        spec_all_dchars(kept@),
    ensures
        r == spec_round_up(padded@.skip(cut as int), kept@),
{
    let ghost dropped = padded@.skip(cut as int);
    if cut == padded.len() {
        return false;
    }
    let f = padded[cut] as u32;
    if f > 53 {
        return true;
    }
    if f < 53 {
        return false;
    }
    let mut i = cut + 1;
    while i < padded.len()
        invariant
            cut + 1 <= i <= padded@.len(),
            forall|j: int| cut < j < i ==> padded@[j] == '0',
        decreases padded@.len() - i,
    {
        if padded[i] != '0' {
            proof {
                assert(dropped[i - cut] != '0');
            }
            return true;
        }
        i = i + 1;
    }
    proof {
        assert(forall|j: int| 1 <= j < dropped.len() ==> dropped[j] == padded@[cut + j] && dropped[j]
            == '0');
    }
    if kept.len() == 0 {
        return false;
    }
    let last = kept[kept.len() - 1] as u32;
    ((last - 48) % 2) == 1
}

/// Ten to the `k`, executable.
pub fn pow10_u128(k: usize) -> (r: u128)
    requires
        k <= 38,
    ensures
        r == pow10(k as nat),
{
    proof {
        assert(pow10(38) < u128::MAX as nat) by {
            reveal_with_fuel(pow10, 39);
        }
    }
    let mut r: u128 = 1;
    let mut i: usize = 0;
    while i < k
        invariant
            i <= k,
            r == pow10(i as nat),
        decreases k - i,
    {
        proof {
            lemma_pow10_mono((i + 1) as nat, 38);
        }
        r = r * 10;
        i = i + 1;
    }
    r
}

/// The sum of two decimals: exact whenever the exponents are within
/// nineteen places of each other, and correct to the full mantissa width
/// otherwise (the far-smaller addend is truncated).
#[verifier::opaque]
pub open spec fn spec_dec_add(a: Dec, b: Dec) -> Dec {
    match (a, b) {
        (Dec::Nan, _) => Dec::Nan,
        (_, Dec::Nan) => Dec::Nan,
        (Dec::Inf { neg: n1 }, Dec::Inf { neg: n2 }) => if n1 == n2 {
            Dec::Inf { neg: n1 }
        } else {
            Dec::Nan
        },
        (Dec::Inf { neg }, _) => Dec::Inf { neg },
        (_, Dec::Inf { neg }) => Dec::Inf { neg },
        (Dec::Fin { neg: n1, mant: m1, exp: e1 }, Dec::Fin { neg: n2, mant: m2, exp: e2 }) => {
            if m1 == 0 && m2 == 0 {
                Dec::Fin { neg: n1 && n2, mant: 0, exp: 0 }
            } else if m1 == 0 {
                b
            } else if m2 == 0 {
                a
            } else {
                let swap = e2 > e1;
                let (nh, mh, eh) = if swap {
                    (n2, m2 as nat, e2 as int)
                } else {
                    (n1, m1 as nat, e1 as int)
                };
                let (nl, ml, el) = if swap {
                    (n1, m1 as nat, e1 as int)
                } else {
                    (n2, m2 as nat, e2 as int)
                };
                let diff = eh - el;
                if diff >= 39 {
                    if swap {
                        b
                    } else {
                        a
                    }
                } else {
                    let s1: nat = if diff <= 19 {
                        diff as nat
                    } else {
                        19
                    };
                    let s2 = (diff - s1) as nat;
                    let mhs = mh * pow10(s1);
                    let mls = ml / pow10(s2);
                    let common = el + s2;
                    if nh == nl {
                        spec_norm(nh, mhs + mls, common)
                    } else if mhs == mls {
                        Dec::Fin { neg: false, mant: 0, exp: 0 }
                    } else if mhs > mls {
                        spec_norm(nh, (mhs - mls) as nat, common)
                    } else {
                        spec_norm(nl, (mls - mhs) as nat, common)
                    }
                }
            }
        },
    }
}

/// Add two decimals.
pub fn dec_add(a: &Dec, b: &Dec) -> (r: Dec)
    requires
        a.wf(),
        b.wf(),
    ensures
        r == spec_dec_add(*a, *b),
        r.wf(),
{
    proof {
        reveal(spec_dec_add);
    }
    match (a, b) {
        (Dec::Nan, _) => Dec::Nan,
        (_, Dec::Nan) => Dec::Nan,
        (Dec::Inf { neg: n1 }, Dec::Inf { neg: n2 }) => {
            if *n1 == *n2 {
                Dec::Inf { neg: *n1 }
            } else {
                Dec::Nan
            }
        },
        (Dec::Inf { neg }, _) => Dec::Inf { neg: *neg },
        (_, Dec::Inf { neg }) => Dec::Inf { neg: *neg },
        (
            Dec::Fin { neg: n1, mant: m1, exp: e1 },
            Dec::Fin { neg: n2, mant: m2, exp: e2 },
        ) => {
            proof {
                if *m1 > 0 {
                    lemma_digits_bound(*m1 as nat);
                }
                if *m2 > 0 {
                    lemma_digits_bound(*m2 as nat);
                }
            }
            if *m1 == 0 && *m2 == 0 {
                Dec::Fin { neg: *n1 && *n2, mant: 0, exp: 0 }
            } else if *m1 == 0 {
                *b
            } else if *m2 == 0 {
                *a
            } else {
                let swap = *e2 > *e1;
                let (nh, mh, eh) = if swap {
                    (*n2, *m2, *e2)
                } else {
                    (*n1, *m1, *e1)
                };
                let (nl, ml, el) = if swap {
                    (*n1, *m1, *e1)
                } else {
                    (*n2, *m2, *e2)
                };
                let diff = eh - el;
                if diff >= 39 {
                    if swap {
                        *b
                    } else {
                        *a
                    }
                } else {
                    let s1: usize = if diff <= 19 {
                        diff as usize
                    } else {
                        19
                    };
                    let s2: usize = (diff - s1 as i64) as usize;
                    let p1 = pow10_u128(s1);
                    let p2 = pow10_u128(s2);
                    proof {
                        lemma_pow10_pos(s1 as nat);
                        lemma_pow10_mono(s1 as nat, 19);
                        assert(pow10(19) == MANT_LIMIT) by {
                            reveal_with_fuel(pow10, 20);
                        }
                        assert((mh as nat) * (p1 as nat) < (MANT_LIMIT as nat) * (MANT_LIMIT
                            as nat)) by (nonlinear_arith)
                            requires
                                mh < MANT_LIMIT,
                                0 < p1 <= MANT_LIMIT,
                        ;
                        assert((MANT_LIMIT as nat) * (MANT_LIMIT as nat) < u128::MAX as nat)
                            by (nonlinear_arith);
                        lemma_pow10_pos(s2 as nat);
                    }
                    let mhs = mh * p1;
                    let mls = ml / p2;
                    let common = el + s2 as i64;
                    if nh == nl {
                        proof {
                            assert(mls < MANT_LIMIT);
                        }
                        normalize(nh, mhs + mls, common)
                    } else if mhs == mls {
                        Dec::Fin { neg: false, mant: 0, exp: 0 }
                    } else if mhs > mls {
                        normalize(nh, mhs - mls, common)
                    } else {
                        normalize(nl, mls - mhs, common)
                    }
                }
            }
        },
    }
}

/// The quotient of two decimals, correct to the full mantissa width.
#[verifier::opaque]
pub open spec fn spec_dec_div(a: Dec, b: Dec) -> Dec {
    match (a, b) {
        (Dec::Nan, _) => Dec::Nan,
        (_, Dec::Nan) => Dec::Nan,
        (Dec::Inf { .. }, Dec::Inf { .. }) => Dec::Nan,
        (Dec::Inf { neg: n1 }, Dec::Fin { neg: n2, .. }) => Dec::Inf { neg: n1 != n2 },
        (Dec::Fin { neg: n1, .. }, Dec::Inf { neg: n2 }) => Dec::Fin {
            neg: n1 != n2,
            mant: 0,
            exp: 0,
        },
        (Dec::Fin { neg: n1, mant: m1, exp: e1 }, Dec::Fin { neg: n2, mant: m2, exp: e2 }) => {
            if m2 == 0 {
                if m1 == 0 {
                    Dec::Nan
                } else {
                    Dec::Inf { neg: n1 != n2 }
                }
            } else if m1 == 0 {
                Dec::Fin { neg: n1 != n2, mant: 0, exp: 0 }
            } else {
                spec_norm(n1 != n2, (((m1 as nat) * pow10(19)) / (m2 as nat)) as nat, e1 - e2 - 19)
            }
        },
    }
}

/// Divide two decimals.
pub fn dec_div(a: &Dec, b: &Dec) -> (r: Dec)
    requires
        a.wf(),
        b.wf(),
    ensures
        r == spec_dec_div(*a, *b),
        r.wf(),
{
    proof {
        reveal(spec_dec_div);
    }
    match (a, b) {
        (Dec::Nan, _) => Dec::Nan,
        (_, Dec::Nan) => Dec::Nan,
        (Dec::Inf { .. }, Dec::Inf { .. }) => Dec::Nan,
        (Dec::Inf { neg: n1 }, Dec::Fin { neg: n2, .. }) => Dec::Inf { neg: *n1 != *n2 },
        (Dec::Fin { neg: n1, .. }, Dec::Inf { neg: n2 }) => Dec::Fin {
            neg: *n1 != *n2,
            mant: 0,
            exp: 0,
        },
        (
            Dec::Fin { neg: n1, mant: m1, exp: e1 },
            Dec::Fin { neg: n2, mant: m2, exp: e2 },
        ) => {
            if *m2 == 0 {
                if *m1 == 0 {
                    Dec::Nan
                } else {
                    Dec::Inf { neg: *n1 != *n2 }
                }
            } else if *m1 == 0 {
                Dec::Fin { neg: *n1 != *n2, mant: 0, exp: 0 }
            } else {
                proof {
                    lemma_digits_bound(*m1 as nat);
                    lemma_digits_bound(*m2 as nat);
                    assert(pow10(19) == MANT_LIMIT) by {
                        reveal_with_fuel(pow10, 20);
                    }
                    assert((*m1 as nat) * (MANT_LIMIT as nat) < u128::MAX as nat)
                        by (nonlinear_arith)
                        requires
                            *m1 < MANT_LIMIT,
                    ;
                }
                let p = pow10_u128(19);
                normalize(*n1 != *n2, (*m1 * p) / *m2, *e1 - *e2 - 19)
            }
        },
    }
}

/// The same value with the opposite sign.
pub open spec fn spec_dec_neg(a: Dec) -> Dec {
    match a {
        Dec::Nan => Dec::Nan,
        Dec::Inf { neg } => Dec::Inf { neg: !neg },
        Dec::Fin { neg, mant, exp } => Dec::Fin { neg: !neg, mant, exp },
    }
}

/// Flip the sign of a decimal.
pub fn dec_neg(a: &Dec) -> (r: Dec)
    requires
        a.wf(),
    ensures
        r == spec_dec_neg(*a),
        r.wf(),
{
    match a {
        Dec::Nan => Dec::Nan,
        Dec::Inf { neg } => Dec::Inf { neg: !*neg },
        Dec::Fin { neg, mant, exp } => Dec::Fin { neg: !*neg, mant: *mant, exp: *exp },
    }
}

/// Whether the magnitude of a finite value lies strictly below `10^-12`,
/// the noise threshold for composed matrix coefficients.
pub open spec fn spec_dec_tiny(d: Dec) -> bool {
    match d {
        Dec::Fin { neg, mant, exp } => mant == 0 || spec_digits(mant as nat) + exp <= -12,
        _ => false,
    }
}

/// Test whether a value is below the matrix noise threshold.
pub fn dec_is_tiny(d: &Dec) -> (r: bool)
    requires
        d.wf(),
    ensures
        r == spec_dec_tiny(*d),
{
    match d {
        Dec::Fin { neg, mant, exp } => {
            if *mant == 0 {
                true
            } else {
                proof {
                    lemma_digits_bound(*mant as nat);
                }
                let dg = digits_of(*mant);
                dg as i64 + *exp <= -12
            }
        },
        _ => false,
    }
}

/// A sequence with its trailing run of `c` removed.
pub open spec fn spec_strip_trailing(s: Seq<char>, c: char) -> Seq<char>
    decreases s.len(),
{
    if s.len() > 0 && s.last() == c {
        spec_strip_trailing(s.drop_last(), c)
    } else {
        s
    }
}

/// Remove the trailing run of `c` from a character vector.
pub fn strip_trailing(v: &mut Vec<char>, c: char)
    ensures
        final(v)@ == spec_strip_trailing(old(v)@, c),
{
    while v.len() > 0 && v[v.len() - 1] == c
        invariant
            spec_strip_trailing(v@, c) == spec_strip_trailing(old(v)@, c),
        decreases v.len(),
    {
        v.pop();
    }
}

/// The canonical emitted text of a decimal at a given precision: rendered
/// with exactly `p` fractional digits, then — where there is a fraction —
/// its trailing zeros stripped and a bare trailing decimal point stripped.
/// At precision zero nothing is trimmed: integer zeros are significant.
pub open spec fn spec_fmt_dec(d: Dec, p: usize) -> Seq<char> {
    if p > 0 {
        spec_strip_trailing(spec_strip_trailing(spec_dec_fixed(d, p), '0'), '.')
    } else {
        spec_dec_fixed(d, p)
    }
}

/// Relies on `Iterator::collect`: collecting chars yields a string made of
/// exactly those chars.
#[verifier::external_body]
pub fn chars_to_string(v: &Vec<char>) -> (r: String)
    ensures
        r@ == v@,
{
    v.iter().collect()
}

/// Relies on `str::chars`: the iterator yields exactly the chars of the
/// string.
#[verifier::external_body]
pub fn str_to_chars(s: &str) -> (r: Vec<char>)
    ensures
        r@ == s@,
{
    s.chars().collect()
}

/// The context of one scaling run: the factor, the number of fractional
/// digits retained by the formatter, and whether `non-scaling-stroke`
/// hints are stripped and their widths scaled anyway.
pub struct ScaleCtx {
    /// The scale factor.
    pub scale: Dec,
    /// Fractional digits kept when a number is re-rendered.
    pub precision: usize,
    /// Strip `vector-effect="non-scaling-stroke"` and scale the stroke
    /// width regardless.
    pub fix_stroke: bool,
}

impl ScaleCtx {
    /// A well-formed context holds a well-formed factor.
    pub open spec fn wf(self) -> bool {
        self.scale.wf()
    }

    /// Build a context from a factor given as a decimal literal; `None`
    /// where the text is not a number.
    pub fn new(scale: &str, precision: usize, fix_stroke: bool) -> (r: Option<ScaleCtx>)
        ensures
            match r {
                Some(ctx) => {
                    &&& spec_parse_dec(scale@) is Some
                    &&& ctx.scale == spec_parse_dec(scale@)->0
                    &&& ctx.precision == precision
                    &&& ctx.fix_stroke == fix_stroke
                    &&& ctx.wf()
                },
                None => spec_parse_dec(scale@) is None,
            },
    {
        let cs = str_to_chars(scale);
        match dec_from_chars(&cs) {
            Some(d) => Some(ScaleCtx { scale: d, precision, fix_stroke }),
            None => None,
        }
    }

    /// Render a decimal as the shortest text at this context's precision:
    /// fixed-point, trailing zeros and a bare point stripped.
    pub fn fmt(&self, v: &Dec) -> (r: String)
        requires
            v.wf(),
        ensures
            r@ == spec_fmt_dec(*v, self.precision),
    {
        let mut cs = dec_fixed(v, self.precision);
        if self.precision > 0 {
            strip_trailing(&mut cs, '0');
            strip_trailing(&mut cs, '.');
        }
        chars_to_string(&cs)
    }

    /// Render a decimal to characters at this context's precision.
    pub fn fmt_chars(&self, v: &Dec) -> (r: Vec<char>)
        requires
            v.wf(),
        ensures
            r@ == spec_fmt_dec(*v, self.precision),
    {
        let mut cs = dec_fixed(v, self.precision);
        if self.precision > 0 {
            strip_trailing(&mut cs, '0');
            strip_trailing(&mut cs, '.');
        }
        cs
    }
}

} // verus!
