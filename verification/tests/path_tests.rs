//! Path-data scaling behaviour.

use svgscale::num::ScaleCtx;
use svgscale::path::scale_path;

fn ctx(scale: &str, precision: usize) -> ScaleCtx {
    ScaleCtx::new(scale, precision, false).unwrap()
}

#[test]
fn arc_flags_should_not_be_scaled() {
    let c = ctx("2", 4);
    let input = "M10 10 A 5 5 0 0 1 20 20";
    let out = scale_path(input, &c).unwrap();
    assert_eq!(out, "M20 20 A 10 10 0 0 1 40 40");
}

#[test]
fn large_path_scales_without_panic() {
    let c = ctx("1.25", 4);
    let mut d = String::from("M0 0");
    for i in 1..1000 {
        d.push_str(&format!(" L{} {}", i, i + 1));
    }
    let out = scale_path(&d, &c).unwrap();
    assert!(out.starts_with("M0 0 L1.25 2.5"));
}

#[test]
fn path_numbers_with_scientific_notation_and_signs() {
    let c = ctx("2", 6);
    let input = "M-0.5e-2 1E2 L+.25 -3.5e1";
    let out = scale_path(input, &c).unwrap();
    assert_eq!(out, "M-0.01 200 L0.5 -70");
}

#[test]
fn path_numbers_with_tight_packing() {
    let c = ctx("2", 4);
    let input = "M10-20L.5-.25";
    let out = scale_path(input, &c).unwrap();
    assert_eq!(out, "M20-40L1-0.5");
}

#[test]
fn arc_flags_remain_unscaled_in_mixed_numbers() {
    let c = ctx("3", 4);
    let input = "M0 0 A1.5e1 2.5 0 1 0 10 -20";
    let out = scale_path(input, &c).unwrap();
    assert_eq!(out, "M0 0 A45 7.5 0 1 0 30 -60");
}

#[test]
fn path_invalid_trailing_garbage_fails() {
    let c = ctx("1", 4);
    let err = scale_path("M10e", &c).unwrap_err();
    assert!(err.message().contains("invalid path data at char"));
    assert!(err.message().contains("invalid number"));
}

#[test]
fn path_invalid_command_fails() {
    let c = ctx("1", 4);
    let err = scale_path("X10 20", &c).unwrap_err();
    assert!(err.message().contains("invalid path data at char"));
    assert!(err.message().contains("invalid command"));
}

#[test]
fn path_invalid_command_offset_is_zero() {
    let c = ctx("1", 4);
    let err = scale_path("X10 20", &c).unwrap_err();
    assert!(err.message().contains("at char 0 (byte 0)"));
}

#[test]
fn path_scale_one_reformats_numbers_only() {
    let c = ctx("1", 4);
    let out = scale_path("M10.0 20.50 L3 4", &c).unwrap();
    assert_eq!(out, "M10 20.5 L3 4");
}

#[test]
fn path_separator_errors_are_classified() {
    let c = ctx("1", 4);
    // a lone sign cannot start a number and is no separator
    let err = scale_path("M10 +", &c).unwrap_err();
    assert!(err.message().contains("invalid number"));
}

#[test]
fn path_unexpected_token_is_classified() {
    // an unsupported letter inside the data is an invalid command
    let c = ctx("1", 4);
    let err = scale_path("M10 10 G 3", &c).unwrap_err();
    assert!(err.message().contains("invalid command"));
}

#[test]
fn path_empty_input_is_accepted() {
    let c = ctx("2", 4);
    assert_eq!(scale_path("", &c).unwrap(), "");
}

#[test]
fn path_separators_are_kept_verbatim() {
    let c = ctx("2", 4);
    let out = scale_path("M 1 , 2 \t L 3,4", &c).unwrap();
    assert_eq!(out, "M 2 , 4 \t L 6,8");
}
