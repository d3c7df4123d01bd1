//! The numeric formatter and decimal arithmetic.

use svgscale::num::{dec_add, dec_div, dec_from_chars, dec_mul, Dec, ScaleCtx};

fn dec(s: &str) -> Dec {
    dec_from_chars(&s.chars().collect()).unwrap()
}

fn fmt(v: &str, precision: usize) -> String {
    let ctx = ScaleCtx::new("1", precision, false).unwrap();
    ctx.fmt(&dec(v))
}

#[test]
fn formatter_strips_trailing_zeros() {
    assert_eq!(fmt("1.0", 4), "1");
    assert_eq!(fmt("0.5", 4), "0.5");
    assert_eq!(fmt("10.0", 4), "10");
    assert_eq!(fmt("2.500", 4), "2.5");
}

#[test]
fn formatter_keeps_negative_zero_sign() {
    assert_eq!(fmt("-0.0", 4), "-0");
}

#[test]
fn precision_zero_keeps_integer_zeros() {
    assert_eq!(fmt("10", 0), "10");
    assert_eq!(fmt("0", 0), "0");
    assert_eq!(fmt("200", 0), "200");
    assert_eq!(fmt("2.6", 0), "3");
}

#[test]
fn formatter_rounds_at_precision() {
    assert_eq!(fmt("0.00004", 4), "0");
    assert_eq!(fmt("0.12346", 4), "0.1235");
    assert_eq!(fmt("1.23455", 2), "1.23");
}

#[test]
fn parser_reads_scientific_notation() {
    assert_eq!(fmt("-0.5e-2", 6), "-0.005");
    assert_eq!(fmt("1E2", 4), "100");
    assert_eq!(fmt("+.25", 4), "0.25");
    assert_eq!(fmt("5.", 4), "5");
}

#[test]
fn parser_rejects_malformed_literals() {
    assert!(dec_from_chars(&"".chars().collect()).is_none());
    assert!(dec_from_chars(&".".chars().collect()).is_none());
    assert!(dec_from_chars(&"1e".chars().collect()).is_none());
    assert!(dec_from_chars(&"--1".chars().collect()).is_none());
    assert!(dec_from_chars(&"1x".chars().collect()).is_none());
}

#[test]
fn multiplication_is_exact() {
    let ctx = ScaleCtx::new("1", 6, false).unwrap();
    assert_eq!(ctx.fmt(&dec_mul(&dec("0.05"), &dec("2"))), "0.1");
    assert_eq!(ctx.fmt(&dec_mul(&dec("-3.5e1"), &dec("2"))), "-70");
    assert_eq!(ctx.fmt(&dec_mul(&dec("1.25"), &dec("0.5"))), "0.625");
}

#[test]
fn multiplying_by_one_is_the_identity() {
    let one = Dec::one();
    for s in ["0", "-0", "7", "0.125", "-42.5", "1e300", "3e-300"] {
        assert_eq!(dec_mul(&dec(s), &one), dec(s));
    }
}

#[test]
fn division_inverts_the_factor() {
    let ctx = ScaleCtx::new("1", 6, false).unwrap();
    assert_eq!(ctx.fmt(&dec_div(&Dec::one(), &dec("0.5"))), "2");
    assert_eq!(ctx.fmt(&dec_div(&Dec::one(), &dec("4"))), "0.25");
}

#[test]
fn addition_aligns_exponents() {
    let ctx = ScaleCtx::new("1", 6, false).unwrap();
    assert_eq!(ctx.fmt(&dec_add(&dec("1.5"), &dec("0.25"))), "1.75");
    assert_eq!(ctx.fmt(&dec_add(&dec("10"), &dec("-10"))), "0");
    assert_eq!(ctx.fmt(&dec_add(&dec("5"), &dec("-0.5"))), "4.5");
}

#[test]
fn overflow_saturates_to_infinity() {
    let huge = dec_mul(&dec("1e300"), &dec("1e300"));
    let ctx = ScaleCtx::new("1", 2, false).unwrap();
    assert_eq!(ctx.fmt(&huge), "inf");
    let tiny = dec_mul(&dec("1e-300"), &dec("1e-300"));
    assert_eq!(ctx.fmt(&tiny), "0");
}
