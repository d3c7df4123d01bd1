//! Transform parsing and scaling.

use svgscale::num::{Dec, ScaleCtx};
use svgscale::transform::{parse_transform_list, scale_transform_value, transform_to_matrix};

fn factor(s: &str) -> Dec {
    ScaleCtx::new(s, 4, false).unwrap().scale
}

#[test]
fn parse_transform_examples() {
    let s = "translate(10,20) rotate(30 5 6) scale(2)";
    let list = parse_transform_list(s).unwrap();
    assert_eq!(list.len(), 3);
}

#[test]
fn parse_accepts_blanks_and_commas() {
    let list = parse_transform_list("  translate( 1 , 2 )\tscale(3)  ").unwrap();
    assert_eq!(list.len(), 2);
    assert_eq!(list[0].name, "translate");
    assert_eq!(list[0].params.len(), 2);
    assert_eq!(list[1].name, "scale");
    assert_eq!(list[1].params.len(), 1);
}

#[test]
fn parse_rejects_trailing_garbage() {
    let err = parse_transform_list("translate(1,2) nonsense").unwrap_err();
    assert!(err.message().contains("invalid transform"));
    assert!(parse_transform_list("scale(2,)").is_err());
    assert!(parse_transform_list("scale(2").is_err());
    assert!(parse_transform_list("scale(1e)").is_err());
}

#[test]
fn empty_transform_passes_through() {
    assert_eq!(scale_transform_value("", &factor("0.5"), 4).unwrap(), "");
    assert_eq!(scale_transform_value("   ", &factor("0.5"), 4).unwrap(), "   ");
}

#[test]
fn pure_translate_keeps_its_form() {
    let out = scale_transform_value("translate(10,20)", &factor("0.5"), 4).unwrap();
    assert_eq!(out, "translate(5,10)");
    let out1 = scale_transform_value("translate(10)", &factor("0.5"), 4).unwrap();
    assert_eq!(out1, "translate(5)");
    let two = scale_transform_value("translate(2 4) translate(6,8)", &factor("0.5"), 4).unwrap();
    assert_eq!(two, "translate(1,2) translate(3,4)");
}

#[test]
fn single_scale_keeps_its_form() {
    assert_eq!(scale_transform_value("scale(2)", &factor("0.5"), 4).unwrap(), "scale(1)");
    assert_eq!(scale_transform_value("scale(2,4)", &factor("0.5"), 4).unwrap(), "scale(1,2)");
}

#[test]
fn matrix_scales_all_six_coefficients() {
    let out = scale_transform_value("matrix(2,0,0,2,10,20)", &factor("0.5"), 4).unwrap();
    assert_eq!(out, "matrix(1,0,0,1,5,10)");
}

#[test]
fn mixed_list_composes_into_one_matrix() {
    let out = scale_transform_value("matrix(1,2,3,4,10,20) translate(6 8)", &factor("0.5"), 4)
        .unwrap();
    assert_eq!(out, "matrix(0.5,1,1.5,2,20,32)");
}

#[test]
fn rotation_composes_to_a_matrix() {
    let out = scale_transform_value("rotate(90)", &factor("1"), 4).unwrap();
    assert!(out.starts_with("matrix("), "got: {out}");
    // the noise threshold snaps the off-axis cosine terms to exactly zero
    assert_eq!(out, "matrix(0,1,-1,0,0,0)");
}

#[test]
fn unsupported_function_is_reported() {
    let err = transform_to_matrix(&parse_transform_list("frob(1)").unwrap()).unwrap_err();
    assert!(err.message().contains("unsupported transform: frob"));
}

#[test]
fn short_matrix_is_reported() {
    let err = transform_to_matrix(&parse_transform_list("matrix(1,2,3)").unwrap()).unwrap_err();
    assert!(err.message().contains("matrix() requires 6 parameters, got 3"));
}

#[test]
fn long_matrix_is_reported() {
    let err = transform_to_matrix(&parse_transform_list("matrix(1,2,3,4,5,6,7)").unwrap())
        .unwrap_err();
    assert!(err.message().contains("matrix() requires 6 parameters, got 7"));
}
