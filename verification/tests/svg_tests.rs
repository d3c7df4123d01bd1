//! Whole-document scaling behaviour, driven through a real XML parser and
//! writer.

use svgscale::num::ScaleCtx;
use svgscale::svg::{walk, SvgNode};

fn to_node(n: roxmltree::Node) -> SvgNode {
    if n.is_element() {
        let tag = n.tag_name().name().to_string();
        let mut attrs: Vec<(String, String)> = Vec::new();
        for a in n.attributes() {
            let name = if let Some(ns) = a.namespace() {
                if let Some(p) = n.lookup_prefix(ns) {
                    format!("{}:{}", p, a.name())
                } else {
                    a.name().to_string()
                }
            } else {
                a.name().to_string()
            };
            attrs.push((name, a.value().to_string()));
        }
        let children = n.children().map(to_node).collect();
        SvgNode::Element { tag, attrs, children }
    } else if n.is_text() {
        SvgNode::Text { text: n.text().unwrap_or("").to_string() }
    } else {
        SvgNode::Other
    }
}

fn emit(n: &SvgNode, w: &mut xmlwriter::XmlWriter) {
    match n {
        SvgNode::Element { tag, attrs, children } => {
            w.start_element(tag);
            for (k, v) in attrs {
                w.write_attribute(k, v);
            }
            for c in children {
                emit(c, w);
            }
            w.end_element();
        }
        SvgNode::Text { text } => w.write_text(text),
        SvgNode::Other => {}
    }
}

fn render_scaled_svg(input: &str, scale: &str) -> Result<String, String> {
    let doc = roxmltree::Document::parse(input).map_err(|e| e.to_string())?;
    let root = to_node(doc.root_element());
    let ctx = ScaleCtx::new(scale, 4, false).unwrap();
    match walk(&root, &ctx) {
        Ok(Some(out)) => {
            let mut w = xmlwriter::XmlWriter::new(xmlwriter::Options::default());
            emit(&out, &mut w);
            Ok(w.end_document())
        }
        Ok(None) => Err("no output".to_string()),
        Err(e) => Err(e.message()),
    }
}

#[test]
fn transform_scale_should_be_scaled_when_path_is_not() {
    let input = r#"<svg xmlns="http://www.w3.org/2000/svg"><path d="M10 0 L20 0" transform="scale(2)"/></svg>"#;
    let out = render_scaled_svg(input, "0.5").unwrap();
    let ok = out.contains(r#"transform="scale(1)""#) || out.contains(r#"transform="scale(1,1)""#);
    assert!(ok, "expected scaled transform, got: {out}");
}

#[test]
fn transform_matrix_should_scale_all_components() {
    let input = r#"<svg xmlns="http://www.w3.org/2000/svg"><path d="M10 0 L20 0" transform="matrix(2,0,0,2,10,20)"/></svg>"#;
    let out = render_scaled_svg(input, "0.5").unwrap();
    assert!(
        out.contains(r#"transform="matrix(1,0,0,1,5,10)""#),
        "expected scaled matrix, got: {out}"
    );
}

#[test]
fn transform_combo_translate_rotate_scale() {
    let input = r#"<svg xmlns="http://www.w3.org/2000/svg"><path d="M10 0 L20 0" transform="translate(10,20) rotate(30 5 6) scale(2)"/></svg>"#;
    let out = render_scaled_svg(input, "0.5").unwrap();
    assert!(
        out.contains(r#"transform="matrix("#)
            || out.contains(r#"transform="translate(5,10) rotate(30,2.5,3) scale(1)""#)
            || out.contains(r#"transform="translate(5,10) rotate(30,2.5,3) scale(1,1)""#),
        "expected scaled transform combo, got: {out}"
    );
}

#[test]
fn transform_combo_matrix_and_translate() {
    let input = r#"<svg xmlns="http://www.w3.org/2000/svg"><path d="M10 0 L20 0" transform="matrix(1,2,3,4,10,20) translate(6 8)"/></svg>"#;
    let out = render_scaled_svg(input, "0.5").unwrap();
    assert!(
        out.contains(r#"transform="matrix("#)
            || out.contains(r#"transform="matrix(0.5,1,1.5,2,5,10) translate(3,4)""#),
        "expected scaled matrix + translate, got: {out}"
    );
}

#[test]
fn transform_rotate_without_center_is_unchanged() {
    let input = r#"<svg xmlns="http://www.w3.org/2000/svg"><path d="M10 0 L20 0" transform="rotate(30)"/></svg>"#;
    let out = render_scaled_svg(input, "0.5").unwrap();
    assert!(
        out.contains(r#"transform="matrix("#) || out.contains(r#"transform="rotate(30)""#),
        "expected rotate angle unchanged or matrix, got: {out}"
    );
}

#[test]
fn transform_skew_is_unchanged() {
    let input = r#"<svg xmlns="http://www.w3.org/2000/svg"><path d="M10 0 L20 0" transform="skewX(30) skewY(10)"/></svg>"#;
    let out = render_scaled_svg(input, "0.5").unwrap();
    assert!(
        out.contains(r#"transform="matrix("#) || out.contains(r#"transform="skewX(30) skewY(10)""#),
        "expected skew angles unchanged or matrix, got: {out}"
    );
}

#[test]
fn nested_transforms_scale_correctly() {
    let input = r#"<svg xmlns="http://www.w3.org/2000/svg"><g transform="translate(10,20)"><g transform="scale(2)"><path d="M10 0 L20 0"/></g></g></svg>"#;
    let out = render_scaled_svg(input, "0.5").unwrap();
    assert!(
        out.contains(r#"transform="translate(5,10)""#),
        "expected translated parent to scale, got: {out}"
    );
    assert!(
        out.contains(r#"transform="scale(1)""#) || out.contains(r#"transform="scale(1,1)""#),
        "expected scaled child transform, got: {out}"
    );
    assert!(
        out.contains(r#"d="M10 0 L20 0""#),
        "expected path not to be double-scaled under scale(), got: {out}"
    );
}

#[test]
fn multi_element_integration() {
    let input = r#"<svg xmlns="http://www.w3.org/2000/svg">
            <g transform="translate(10,20)">
                <rect x="5" y="6" width="10" height="12"/>
            </g>
            <circle cx="8" cy="9" r="4" transform="rotate(45 8 9)"/>
        </svg>"#;
    let out = render_scaled_svg(input, "0.5").unwrap();
    assert!(
        out.contains(r#"transform="translate(5,10)""#),
        "expected group translate scaled, got: {out}"
    );
    assert!(
        out.contains(r#"x="2.5""#) && out.contains(r#"y="3""#),
        "expected rect position scaled, got: {out}"
    );
    assert!(
        out.contains(r#"width="5""#) && out.contains(r#"height="6""#),
        "expected rect size scaled, got: {out}"
    );
    assert!(
        out.contains(r#"transform="matrix("#) || out.contains(r#"transform="rotate(45,4,4.5)""#),
        "expected rotate center scaled or matrix, got: {out}"
    );
}

#[test]
fn non_scaling_stroke_preserves_stroke_width() {
    let input = r#"<svg xmlns="http://www.w3.org/2000/svg"><path d="M10 0 L20 0" vector-effect="non-scaling-stroke" stroke-width="2"/></svg>"#;
    let out = render_scaled_svg(input, "0.5").unwrap();
    assert!(
        out.contains(r#"stroke-width="2""#),
        "expected stroke-width unchanged, got: {out}"
    );
    assert!(
        out.contains(r#"vector-effect="non-scaling-stroke""#),
        "expected vector-effect preserved, got: {out}"
    );
}

#[test]
fn fix_stroke_scales_width_and_drops_hint() {
    let input = r#"<svg xmlns="http://www.w3.org/2000/svg"><path d="M10 0 L20 0" vector-effect="non-scaling-stroke" stroke-width="2"/></svg>"#;
    let doc = roxmltree::Document::parse(input).unwrap();
    let root = to_node(doc.root_element());
    let ctx = ScaleCtx::new("0.5", 4, true).unwrap();
    let out_node = walk(&root, &ctx).unwrap().unwrap();
    let mut w = xmlwriter::XmlWriter::new(xmlwriter::Options::default());
    emit(&out_node, &mut w);
    let out = w.end_document();
    assert!(
        out.contains(r#"stroke-width="1""#),
        "expected stroke-width scaled, got: {out}"
    );
    assert!(
        !out.contains("vector-effect"),
        "expected vector-effect dropped, got: {out}"
    );
}

#[test]
fn style_attributes_are_scaled() {
    let input = r#"<svg xmlns="http://www.w3.org/2000/svg"><rect style="x:10; y:20; width:30; height:40; stroke-width:2"/></svg>"#;
    let out = render_scaled_svg(input, "0.5").unwrap();
    assert!(
        out.contains(r#"style="x:5; y:10; width:15; height:20; stroke-width:1""#),
        "expected style numeric values scaled, got: {out}"
    );
}

#[test]
fn style_non_scaling_stroke_preserves_width() {
    let input = r#"<svg xmlns="http://www.w3.org/2000/svg"><path d="M10 0 L20 0" style="vector-effect:non-scaling-stroke; stroke-width:2"/></svg>"#;
    let out = render_scaled_svg(input, "0.5").unwrap();
    assert!(
        out.contains(r#"style="vector-effect:non-scaling-stroke; stroke-width:2""#),
        "expected style stroke-width unchanged, got: {out}"
    );
}

#[test]
fn style_transform_is_scaled_and_prevents_path_double_scale() {
    let input = r#"<svg xmlns="http://www.w3.org/2000/svg"><path d="M10 0 L20 0" style="transform:scale(2)"/></svg>"#;
    let out = render_scaled_svg(input, "0.5").unwrap();
    assert!(
        out.contains(r#"style="transform:scale(1)""#)
            || out.contains(r#"style="transform:scale(1,1)""#)
            || out.contains(r#"style="transform:matrix("#),
        "expected style transform scaled, got: {out}"
    );
    assert!(
        out.contains(r#"d="M10 0 L20 0""#),
        "expected path not double-scaled under style transform, got: {out}"
    );
}

#[test]
fn stylesheet_rules_are_applied_and_scaled() {
    let input = r#"
        <svg xmlns="http://www.w3.org/2000/svg">
            <style>
                rect { width: 30; height: 40; }
                .big { x: 10; y: 20; }
                #solo { stroke-width: 2; }
            </style>
            <rect id="solo" class="big"/>
        </svg>"#;
    let out = render_scaled_svg(input, "0.5").unwrap();
    assert!(out.contains(r#"style="#), "expected style attribute, got: {out}");
    assert!(out.contains(r#"width:15"#), "expected width scaled, got: {out}");
    assert!(out.contains(r#"height:20"#), "expected height scaled, got: {out}");
    assert!(out.contains(r#"x:5"#), "expected x scaled, got: {out}");
    assert!(out.contains(r#"y:10"#), "expected y scaled, got: {out}");
    assert!(out.contains(r#"stroke-width:1"#), "expected stroke-width scaled, got: {out}");
}

#[test]
fn stroke_dasharray_and_offset_scale() {
    let input = r#"<svg xmlns="http://www.w3.org/2000/svg"><path d="M0 0 L10 0" stroke-dasharray="4, 2 1" stroke-dashoffset="3"/></svg>"#;
    let out = render_scaled_svg(input, "0.5").unwrap();
    assert!(
        out.contains(r#"stroke-dasharray="2, 1 0.5""#),
        "expected dasharray scaled, got: {out}"
    );
    assert!(
        out.contains(r#"stroke-dashoffset="1.5""#),
        "expected dashoffset scaled, got: {out}"
    );
}

#[test]
fn font_size_and_letter_spacing_scale_in_style() {
    let input = r#"<svg xmlns="http://www.w3.org/2000/svg"><text style="font-size:16; letter-spacing:2">Hi</text></svg>"#;
    let out = render_scaled_svg(input, "0.5").unwrap();
    assert!(
        out.contains(r#"style="font-size:8; letter-spacing:1"#),
        "expected font properties scaled, got: {out}"
    );
}

#[test]
fn gradient_and_pattern_attributes_scale() {
    let input = r#"
        <svg xmlns="http://www.w3.org/2000/svg">
            <defs>
                <linearGradient id="g1" x1="0" y1="0" x2="100" y2="200" gradientTransform="translate(10,20) scale(2)"/>
                <radialGradient id="g2" cx="50" cy="60" r="40" fx="10" fy="20"/>
                <pattern id="p1" x="5" y="6" width="70" height="80" patternTransform="translate(4 8)"/>
            </defs>
            <rect width="100" height="100" fill="url(#g1)"/>
        </svg>"#;
    let out = render_scaled_svg(input, "0.5").unwrap();
    assert!(
        out.contains(r#"x1="0""#) && out.contains(r#"y1="0""#),
        "expected gradient x1/y1 scaled, got: {out}"
    );
    assert!(
        out.contains(r#"x2="50""#) && out.contains(r#"y2="100""#),
        "expected gradient x2/y2 scaled, got: {out}"
    );
    assert!(
        out.contains(r#"cx="25""#) && out.contains(r#"cy="30""#) && out.contains(r#"r="20""#),
        "expected radial gradient scaled, got: {out}"
    );
    assert!(
        out.contains(r#"fx="5""#) && out.contains(r#"fy="10""#),
        "expected focal point scaled, got: {out}"
    );
    assert!(
        out.contains(r#"width="35""#) && out.contains(r#"height="40""#),
        "expected pattern size scaled, got: {out}"
    );
    assert!(
        out.contains(r#"patternTransform="matrix("#)
            || out.contains(r#"patternTransform="translate(2,4)""#),
        "expected pattern transform scaled, got: {out}"
    );
    assert!(
        out.contains(r#"gradientTransform="matrix("#)
            || out.contains(r#"gradientTransform="translate(5,10) scale(1)"#),
        "expected gradient transform scaled, got: {out}"
    );
}

#[test]
fn mask_attributes_scale_in_user_space() {
    let input = r#"
        <svg xmlns="http://www.w3.org/2000/svg">
            <mask id="m1" maskUnits="userSpaceOnUse" x="10" y="20" width="100" height="120">
                <rect x="10" y="20" width="30" height="40"/>
            </mask>
            <rect width="200" height="200" mask="url(#m1)"/>
        </svg>"#;
    let out = render_scaled_svg(input, "0.5").unwrap();
    assert!(
        out.contains(r#"x="5""#) && out.contains(r#"y="10""#),
        "expected mask x/y scaled, got: {out}"
    );
    assert!(
        out.contains(r#"width="50""#) && out.contains(r#"height="60""#),
        "expected mask width/height scaled, got: {out}"
    );
}

#[test]
fn clip_path_object_bounding_box_is_not_scaled() {
    let input = r#"
        <svg xmlns="http://www.w3.org/2000/svg">
            <clipPath id="c1" clipPathUnits="objectBoundingBox">
                <rect x="0.1" y="0.2" width="0.5" height="0.6"/>
            </clipPath>
            <rect width="200" height="200" clip-path="url(#c1)"/>
        </svg>"#;
    let out = render_scaled_svg(input, "0.5").unwrap();
    assert!(
        out.contains(r#"x="0.1""#) && out.contains(r#"y="0.2""#),
        "expected clipPath rect coords unchanged, got: {out}"
    );
    assert!(
        out.contains(r#"width="0.5""#) && out.contains(r#"height="0.6""#),
        "expected clipPath rect size unchanged, got: {out}"
    );
}

#[test]
fn gradient_percent_values_are_preserved() {
    let input = r#"
        <svg xmlns="http://www.w3.org/2000/svg">
            <defs>
                <linearGradient id="g1" x1="0%" y1="0%" x2="100%" y2="100%"/>
                <radialGradient id="g2" cx="50%" cy="60%" r="40%"/>
            </defs>
            <rect width="100" height="100" fill="url(#g1)"/>
        </svg>"#;
    let out = render_scaled_svg(input, "0.5").unwrap();
    assert!(
        out.contains(r#"x1="0%""#) && out.contains(r#"y1="0%""#),
        "expected linear gradient percents preserved, got: {out}"
    );
    assert!(
        out.contains(r#"x2="100%""#) && out.contains(r#"y2="100%""#),
        "expected linear gradient percents preserved, got: {out}"
    );
    assert!(
        out.contains(r#"cx="50%""#) && out.contains(r#"cy="60%""#) && out.contains(r#"r="40%""#),
        "expected radial gradient percents preserved, got: {out}"
    );
}

#[test]
fn gradient_object_bounding_box_is_not_scaled() {
    let input = r#"
        <svg xmlns="http://www.w3.org/2000/svg">
            <defs>
                <linearGradient id="g1" gradientUnits="objectBoundingBox" x1="0.1" y1="0.2" x2="0.9" y2="1"/>
                <radialGradient id="g2" gradientUnits="objectBoundingBox" cx="0.5" cy="0.6" r="0.4" fx="0.2" fy="0.3"/>
            </defs>
            <rect width="100" height="100" fill="url(#g1)"/>
        </svg>"#;
    let out = render_scaled_svg(input, "0.5").unwrap();
    assert!(
        out.contains(r#"x1="0.1""#) && out.contains(r#"y1="0.2""#),
        "expected linear gradient values unchanged, got: {out}"
    );
    assert!(
        out.contains(r#"x2="0.9""#) && out.contains(r#"y2="1""#),
        "expected linear gradient values unchanged, got: {out}"
    );
    assert!(
        out.contains(r#"cx="0.5""#) && out.contains(r#"cy="0.6""#) && out.contains(r#"r="0.4""#),
        "expected radial gradient values unchanged, got: {out}"
    );
    assert!(
        out.contains(r#"fx="0.2""#) && out.contains(r#"fy="0.3""#),
        "expected focal point unchanged, got: {out}"
    );
}

#[test]
fn pattern_content_units_object_bounding_box_skips_child_scaling() {
    let input = r#"
        <svg xmlns="http://www.w3.org/2000/svg">
            <defs>
                <pattern id="p1" patternUnits="userSpaceOnUse" patternContentUnits="objectBoundingBox" x="10" y="20" width="40" height="50">
                    <rect x="0.1" y="0.2" width="0.5" height="0.6"/>
                </pattern>
            </defs>
            <rect width="100" height="100" fill="url(#p1)"/>
        </svg>"#;
    let out = render_scaled_svg(input, "0.5").unwrap();
    assert!(
        out.contains(r#"x="5""#) && out.contains(r#"y="10""#),
        "expected pattern x/y scaled, got: {out}"
    );
    assert!(
        out.contains(r#"width="20""#) && out.contains(r#"height="25""#),
        "expected pattern size scaled, got: {out}"
    );
    assert!(
        out.contains(r#"x="0.1""#) && out.contains(r#"y="0.2""#),
        "expected child rect coords unchanged, got: {out}"
    );
    assert!(
        out.contains(r#"width="0.5""#) && out.contains(r#"height="0.6""#),
        "expected child rect size unchanged, got: {out}"
    );
}

#[test]
fn length_units_are_scaled_and_preserved() {
    let input = r#"<svg xmlns="http://www.w3.org/2000/svg"><rect width="10mm" height="8pt" x="1cm" y="2in"/></svg>"#;
    let out = render_scaled_svg(input, "0.5").unwrap();
    assert!(
        out.contains(r#"width="5mm""#) && out.contains(r#"height="4pt""#),
        "expected mm/pt scaled, got: {out}"
    );
    assert!(
        out.contains(r#"x="0.5cm""#) && out.contains(r#"y="1in""#),
        "expected cm/in scaled, got: {out}"
    );
}

#[test]
fn dasharray_units_are_scaled_and_preserved() {
    let input = r#"<svg xmlns="http://www.w3.org/2000/svg"><path d="M0 0 L10 0" stroke-dasharray="2pt 4pt,1mm"/></svg>"#;
    let out = render_scaled_svg(input, "0.5").unwrap();
    assert!(
        out.contains(r#"stroke-dasharray="1pt 2pt,0.5mm""#),
        "expected dasharray units scaled, got: {out}"
    );
}

#[test]
fn filter_object_bounding_box_is_not_scaled() {
    let input = r#"
        <svg xmlns="http://www.w3.org/2000/svg">
            <defs>
                <filter id="f1" filterUnits="objectBoundingBox" x="0.1" y="0.2" width="0.5" height="0.6">
                    <feOffset dx="10" dy="20"/>
                </filter>
            </defs>
            <rect width="100" height="100" filter="url(#f1)"/>
        </svg>"#;
    let out = render_scaled_svg(input, "0.5").unwrap();
    assert!(
        out.contains(r#"x="0.1""#) && out.contains(r#"y="0.2""#),
        "expected filter region unchanged, got: {out}"
    );
    assert!(
        out.contains(r#"width="0.5""#) && out.contains(r#"height="0.6""#),
        "expected filter region unchanged, got: {out}"
    );
    assert!(
        out.contains(r#"dx="5""#) && out.contains(r#"dy="10""#),
        "expected feOffset scaled in user space, got: {out}"
    );
}

#[test]
fn filter_primitives_scale_in_user_space() {
    let input = r#"
        <svg xmlns="http://www.w3.org/2000/svg">
            <defs>
                <filter id="f2" x="10" y="20" width="100" height="120">
                    <feGaussianBlur stdDeviation="4 2"/>
                    <feOffset dx="10" dy="20"/>
                    <feMorphology radius="6"/>
                </filter>
            </defs>
            <rect width="100" height="100" filter="url(#f2)"/>
        </svg>"#;
    let out = render_scaled_svg(input, "0.5").unwrap();
    assert!(
        out.contains(r#"x="5""#) && out.contains(r#"y="10""#),
        "expected filter region scaled, got: {out}"
    );
    assert!(
        out.contains(r#"width="50""#) && out.contains(r#"height="60""#),
        "expected filter size scaled, got: {out}"
    );
    assert!(
        out.contains(r#"stdDeviation="2 1""#),
        "expected stdDeviation scaled, got: {out}"
    );
    assert!(
        out.contains(r#"dx="5""#) && out.contains(r#"dy="10""#),
        "expected feOffset scaled, got: {out}"
    );
    assert!(out.contains(r#"radius="3""#), "expected feMorphology radius scaled, got: {out}");
}

#[test]
fn marker_units_stroke_width_skips_scaling() {
    let input = r#"
        <svg xmlns="http://www.w3.org/2000/svg">
            <defs>
                <marker id="m1" markerUnits="strokeWidth" markerWidth="10" markerHeight="8" refX="2" refY="3">
                    <rect x="1" y="2" width="3" height="4"/>
                </marker>
            </defs>
            <path d="M0 0 L10 0" marker-end="url(#m1)"/>
        </svg>"#;
    let out = render_scaled_svg(input, "0.5").unwrap();
    assert!(
        out.contains(r#"markerWidth="10""#)
            && out.contains(r#"markerHeight="8""#)
            && out.contains(r#"refX="2""#)
            && out.contains(r#"refY="3""#),
        "expected marker attributes unchanged, got: {out}"
    );
    assert!(
        out.contains(r#"x="1""#) && out.contains(r#"y="2""#),
        "expected marker child coords unchanged, got: {out}"
    );
    assert!(
        out.contains(r#"width="3""#) && out.contains(r#"height="4""#),
        "expected marker child size unchanged, got: {out}"
    );
}

#[test]
fn marker_user_space_scales() {
    let input = r#"
        <svg xmlns="http://www.w3.org/2000/svg">
            <defs>
                <marker id="m2" markerUnits="userSpaceOnUse" markerWidth="10" markerHeight="8" refX="2" refY="3">
                    <rect x="4" y="6" width="10" height="12"/>
                </marker>
            </defs>
            <path d="M0 0 L10 0" marker-end="url(#m2)"/>
        </svg>"#;
    let out = render_scaled_svg(input, "0.5").unwrap();
    assert!(
        out.contains(r#"markerWidth="5""#)
            && out.contains(r#"markerHeight="4""#)
            && out.contains(r#"refX="1""#)
            && out.contains(r#"refY="1.5""#),
        "expected marker attributes scaled, got: {out}"
    );
    assert!(
        out.contains(r#"x="2""#) && out.contains(r#"y="3""#),
        "expected marker child coords scaled, got: {out}"
    );
    assert!(
        out.contains(r#"width="5""#) && out.contains(r#"height="6""#),
        "expected marker child size scaled, got: {out}"
    );
}

#[test]
fn filter_drop_shadow_and_displacement_scale() {
    let input = r#"
        <svg xmlns="http://www.w3.org/2000/svg">
            <defs>
                <filter id="f3" x="10" y="20" width="100" height="120">
                    <feDropShadow dx="4" dy="6" stdDeviation="5"/>
                    <feDisplacementMap scale="8"/>
                </filter>
            </defs>
            <rect width="100" height="100" filter="url(#f3)"/>
        </svg>"#;
    let out = render_scaled_svg(input, "0.5").unwrap();
    assert!(
        out.contains(r#"dx="2""#) && out.contains(r#"dy="3""#),
        "expected drop shadow offset scaled, got: {out}"
    );
    assert!(
        out.contains(r#"stdDeviation="2.5""#),
        "expected drop shadow blur scaled, got: {out}"
    );
    assert!(out.contains(r#"scale="4""#), "expected displacement scale scaled, got: {out}");
}

#[test]
fn filter_kernel_unit_length_and_surface_scale() {
    let input = r#"
        <svg xmlns="http://www.w3.org/2000/svg">
            <defs>
                <filter id="f4" x="10" y="20" width="100" height="120">
                    <feDiffuseLighting surfaceScale="5" kernelUnitLength="2 4"/>
                </filter>
            </defs>
            <rect width="100" height="100" filter="url(#f4)"/>
        </svg>"#;
    let out = render_scaled_svg(input, "0.5").unwrap();
    assert!(
        out.contains(r#"surfaceScale="2.5""#),
        "expected surfaceScale scaled, got: {out}"
    );
    assert!(
        out.contains(r#"kernelUnitLength="1 2""#),
        "expected kernelUnitLength scaled, got: {out}"
    );
}

#[test]
fn stylesheet_specificity_overrides() {
    let input = r#"
        <svg xmlns="http://www.w3.org/2000/svg">
            <style>
                rect { width: 20; }
                .big { width: 30; }
                #solo { width: 40; }
                rect.big { height: 20; }
                rect#solo { height: 40; }
            </style>
            <rect id="solo" class="big"/>
        </svg>"#;
    let out = render_scaled_svg(input, "0.5").unwrap();
    assert!(out.contains(r#"width:20"#), "expected id width scaled to 20, got: {out}");
    assert!(out.contains(r#"height:20"#), "expected id+element height scaled to 20, got: {out}");
}

#[test]
fn stylesheet_descendant_selector_applies() {
    let input = r#"
        <svg xmlns="http://www.w3.org/2000/svg">
            <style>
                g .inner { width: 30; }
            </style>
            <g>
                <rect class="inner"/>
            </g>
        </svg>"#;
    let out = render_scaled_svg(input, "0.5").unwrap();
    assert!(out.contains(r#"width:15"#), "expected descendant rule to apply, got: {out}");
}

#[test]
fn stylesheet_child_selector_applies() {
    let input = r#"
        <svg xmlns="http://www.w3.org/2000/svg">
            <style>
                g > .inner { width: 30; }
            </style>
            <g>
                <rect class="inner"/>
            </g>
        </svg>"#;
    let out = render_scaled_svg(input, "0.5").unwrap();
    assert!(out.contains(r#"width:15"#), "expected child rule to apply, got: {out}");
}

#[test]
fn filter_light_positions_scale() {
    let input = r#"
        <svg xmlns="http://www.w3.org/2000/svg">
            <defs>
                <filter id="f5" x="10" y="20" width="100" height="120">
                    <fePointLight x="10" y="20" z="30"/>
                    <feSpotLight x="5" y="6" z="7" pointsAtX="8" pointsAtY="9" pointsAtZ="10"/>
                </filter>
            </defs>
            <rect width="100" height="100" filter="url(#f5)"/>
        </svg>"#;
    let out = render_scaled_svg(input, "0.5").unwrap();
    assert!(
        out.contains(r#"x="5""#) && out.contains(r#"y="10""#) && out.contains(r#"z="15""#),
        "expected point light scaled, got: {out}"
    );
    assert!(
        out.contains(r#"pointsAtX="4""#)
            && out.contains(r#"pointsAtY="4.5""#)
            && out.contains(r#"pointsAtZ="5""#),
        "expected spot light points scaled, got: {out}"
    );
}

#[test]
fn marker_orient_is_preserved() {
    let input = r#"
        <svg xmlns="http://www.w3.org/2000/svg">
            <defs>
                <marker id="m4" orient="auto" markerWidth="10" markerHeight="8" refX="2" refY="3">
                    <rect x="1" y="2" width="3" height="4"/>
                </marker>
            </defs>
            <path d="M0 0 L10 0" marker-end="url(#m4)"/>
        </svg>"#;
    let out = render_scaled_svg(input, "0.5").unwrap();
    assert!(out.contains(r#"orient="auto""#), "expected orient preserved, got: {out}");
}

#[test]
fn marker_orient_angle_is_preserved() {
    let input = r#"
        <svg xmlns="http://www.w3.org/2000/svg">
            <defs>
                <marker id="m5" orient="45" markerWidth="10" markerHeight="8" refX="2" refY="3">
                    <rect x="1" y="2" width="3" height="4"/>
                </marker>
            </defs>
            <path d="M0 0 L10 0" marker-end="url(#m5)"/>
        </svg>"#;
    let out = render_scaled_svg(input, "0.5").unwrap();
    assert!(out.contains(r#"orient="45""#), "expected orient angle preserved, got: {out}");
}

#[test]
fn turbulence_base_frequency_scales_inverse() {
    let input = r#"
        <svg xmlns="http://www.w3.org/2000/svg">
            <defs>
                <filter id="f6">
                    <feTurbulence baseFrequency="0.05 0.1"/>
                </filter>
            </defs>
            <rect width="100" height="100" filter="url(#f6)"/>
        </svg>"#;
    let out = render_scaled_svg(input, "0.5").unwrap();
    assert!(
        out.contains(r#"baseFrequency="0.1 0.2""#),
        "expected baseFrequency inverse scaled, got: {out}"
    );
}

#[test]
fn marker_default_units_stroke_width_skips_scaling() {
    let input = r#"
        <svg xmlns="http://www.w3.org/2000/svg">
            <defs>
                <marker id="m3" markerWidth="10" markerHeight="8" refX="2" refY="3">
                    <rect x="1" y="2" width="3" height="4"/>
                </marker>
            </defs>
            <path d="M0 0 L10 0" marker-end="url(#m3)"/>
        </svg>"#;
    let out = render_scaled_svg(input, "0.5").unwrap();
    assert!(
        out.contains(r#"markerWidth="10""#)
            && out.contains(r#"markerHeight="8""#)
            && out.contains(r#"refX="2""#)
            && out.contains(r#"refY="3""#),
        "expected default marker units to skip scaling, got: {out}"
    );
    assert!(
        out.contains(r#"x="1""#) && out.contains(r#"y="2""#),
        "expected marker child coords unchanged, got: {out}"
    );
}

#[test]
fn transform_scientific_e_notation_is_supported() {
    let input = r#"<svg xmlns="http://www.w3.org/2000/svg"><path d="M10 0 L20 0" transform="scale(1E2) translate(1e1,2E1) rotate(3e1 4E0 5e0) matrix(1E0,0,0,1e0,1E1,2e1)"/></svg>"#;
    let out = render_scaled_svg(input, "0.5").unwrap();
    assert!(
        out.contains(r#"transform="matrix("#)
            || out.contains(
                r#"transform="scale(50) translate(5,10) rotate(30,2,2.5) matrix(0.5,0,0,0.5,5,10)""#
            ),
        "expected scientific notation to parse, got: {out}"
    );
}

#[test]
fn viewbox_scientific_e_notation_is_supported() {
    let input = r#"<svg xmlns="http://www.w3.org/2000/svg" viewBox="0 0 1E2 2e2"><path d="M10 0 L20 0"/></svg>"#;
    let out = render_scaled_svg(input, "0.5").unwrap();
    assert!(
        out.contains(r#"viewBox="0 0 50 100""#),
        "expected viewBox scaled with scientific notation, got: {out}"
    );
}

#[test]
fn matrix_with_mirror_is_treated_as_non_translate() {
    let input = r#"<svg xmlns="http://www.w3.org/2000/svg"><g transform="matrix(1,0,0,-1,0,216)"><path d="M10 0 L20 0"/></g></svg>"#;
    let out = render_scaled_svg(input, "0.25").unwrap();
    assert!(
        out.contains(r#"transform="matrix(0.25,0,0,-0.25,0,54)""#),
        "expected matrix scaled, got: {out}"
    );
    assert!(
        out.contains(r#"d="M10 0 L20 0""#),
        "expected path not double-scaled, got: {out}"
    );
}

#[test]
fn scale_one_is_the_identity_modulo_trimming() {
    let input = r#"<svg xmlns="http://www.w3.org/2000/svg"><rect x="10.0" y="2.50" width="30" height="40"/><path d="M10.0 0 L20 0"/></svg>"#;
    let out = render_scaled_svg(input, "1").unwrap();
    assert!(out.contains(r#"x="10""#) && out.contains(r#"y="2.5""#), "got: {out}");
    assert!(out.contains(r#"width="30""#) && out.contains(r#"height="40""#), "got: {out}");
    assert!(out.contains(r#"d="M10 0 L20 0""#), "got: {out}");
}

#[test]
fn malformed_path_aborts_the_whole_document() {
    let input = r#"<svg xmlns="http://www.w3.org/2000/svg"><path d="X10 20"/></svg>"#;
    let err = render_scaled_svg(input, "0.5").unwrap_err();
    assert!(err.contains("invalid command"), "got: {err}");
    assert!(err.contains("failed on <path>"), "got: {err}");
}

#[test]
fn malformed_length_aborts_the_whole_document() {
    let input = r#"<svg xmlns="http://www.w3.org/2000/svg"><rect width="1e"/></svg>"#;
    let err = render_scaled_svg(input, "0.5").unwrap_err();
    assert!(err.contains("invalid width: 1e"), "got: {err}");
    assert!(err.contains("failed on <rect>"), "got: {err}");
}

#[test]
fn malformed_transform_aborts_the_whole_document() {
    let input = r#"<svg xmlns="http://www.w3.org/2000/svg"><g id="bad" transform="scale(2"/></svg>"#;
    let err = render_scaled_svg(input, "0.5").unwrap_err();
    assert!(err.contains("invalid transform"), "got: {err}");
    assert!(err.contains(r#"id="bad""#), "got: {err}");
}
