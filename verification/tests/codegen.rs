use eqgui::ast::parse_expr;
use eqgui::latex::{assignment_to_latex, eval_to_latex, expr_to_latex, ident, ident_base, latex_unit};
use eqgui::omml::{assignment_to_omml, delim, eval_to_omml, expr_to_omml, ident_run, run, unit_run};
use eqgui::units::parse_exponent;
use eqgui::typst_codegen::{
    build_typst_eval, build_typst_line, format_unit_typst, to_typst_sub, to_typst_sym, typst_ident, wrap_typst, Piece,
};

/// Joins rendered pieces, writing each number as its literal and each
/// variable by the value given for it, if any, else by its fallback.
fn render(pieces: &[Piece], values: &[(&str, &str)]) -> String {
    let mut s = String::new();
    for p in pieces {
        match p {
            Piece::Text(t) => s.push_str(t),
            Piece::Num(t) => s.push_str(t),
            Piece::Var { name, fallback } => match values.iter().find(|(n, _)| n == name) {
                Some((_, v)) => s.push_str(v),
                None => s.push_str(fallback),
            },
        }
    }
    s
}

#[test]
fn typst_ident_forms() {
    assert_eq!(typst_ident("x"), "x");
    assert_eq!(typst_ident("ff"), "upright(\"ff\")");
    assert_eq!(typst_ident("M_Ed"), "M_upright(\"Ed\")");
    assert_eq!(typst_ident("f_y"), "f_y");
    assert_eq!(typst_ident("S_squares"), "S_upright(\"squares\")");
    assert_eq!(typst_ident("A_b_c"), "A_upright(\"b_c\")");
}

#[test]
fn typst_ident_single_letter_as_it_is() {
    // one character, even outside ASCII, is written as it is
    assert_eq!(typst_ident("\u{03B8}"), "\u{03B8}");
    assert_eq!(typst_ident("\u{03C3}_y"), "\u{03C3}_y");
    assert_eq!(typst_ident("\u{03C3}\u{03C3}"), "upright(\"\u{03C3}\u{03C3}\")");
}

#[test]
fn format_unit_typst_examples() {
    assert_eq!(format_unit_typst(""), "");
    assert_eq!(format_unit_typst("mm^4"), "upright(\"mm\")^4");
    assert_eq!(format_unit_typst("N\u{00B7}mm"), "upright(\"N\") thin upright(\"mm\")");
    assert_eq!(format_unit_typst("MPa"), "upright(\"MPa\")");
    assert_eq!(format_unit_typst("N/mm^2"), "upright(\"N\")/upright(\"mm\")^2");
    assert_eq!(format_unit_typst("N*m"), "upright(\"N\") thin upright(\"m\")");
    assert_eq!(format_unit_typst("m^-2"), "upright(\"m\")^(-2)");
    assert_eq!(format_unit_typst("mm\u{00B2}"), "upright(\"mm\")^2");
    assert_eq!(format_unit_typst("s\u{207B}\u{00B9}"), "upright(\"s\")^(-1)");
}

#[test]
fn typst_expression_by_name_and_by_value() {
    let e = parse_expr("b * h^3 / 12").unwrap();
    let sym = render(&to_typst_sym(&e), &[]);
    assert_eq!(sym, "(b dot.op h^(3))/(12)");
    let sub = render(&to_typst_sub(&e), &[("b", "200"), ("h", "400")]);
    assert_eq!(sub, "(200 dot.op 400^(3))/(12)");
}

#[test]
fn typst_calculus_calls() {
    let e = parse_expr("diff(x^3 + 2*x, x)").unwrap();
    assert_eq!(render(&to_typst_sym(&e), &[]), "(d x^(3) + 2 dot.op x)/(d x)");
    let e = parse_expr("integrate(sqrt(1 - x^2), x, -1, 1)").unwrap();
    assert_eq!(render(&to_typst_sym(&e), &[]), "integral_((-1))^(1) sqrt(1 - x^(2)) thin d x");
    let e = parse_expr("sum(k^2, k, 1, 10)").unwrap();
    assert_eq!(render(&to_typst_sym(&e), &[]), "sum_(k=1)^(10) k^(2)");
    let e = parse_expr("abs(x) + exp(y) + f(a, b)").unwrap();
    assert_eq!(render(&to_typst_sym(&e), &[]), "|x| + e^(y) + f(a, b)");
}

#[test]
fn typst_line_shapes() {
    let e = parse_expr("b * h").unwrap();
    let line = build_typst_line("A", &e, "b dot.op h", "200 dot.op 400", "80000", "mm^2");
    assert_eq!(line, "A &= b dot.op h &= 200 dot.op 400 &= 80000 thin upright(\"mm\")^2");
    let same = build_typst_line("y", &e, "b dot.op h", "b dot.op h", "1", "");
    assert_eq!(same, "y &= b dot.op h &= 1");
    let n = parse_expr("250").unwrap();
    let num = build_typst_line("f_y", &n, "250", "250", "250", "MPa");
    assert_eq!(num, "f_y &= 250 thin upright(\"MPa\")");
}

#[test]
fn typst_eval_shapes() {
    let e = parse_expr("h^2").unwrap();
    assert_eq!(build_typst_eval(&e, "h^(2)", "66^(2)", "4356", ""), "h^(2) &= 66^(2) &= 4356");
    let n = parse_expr("3").unwrap();
    assert_eq!(build_typst_eval(&n, "3", "3", "3", "m"), "3 thin upright(\"m\")");
}

#[test]
fn typst_document_wrapper() {
    assert_eq!(
        wrap_typst("x &= 1"),
        "#set page(width: auto, height: auto, margin: (x: 8pt, y: 4pt))\n#set text(size: 14pt)\n$ x &= 1 $"
    );
}

#[test]
fn latex_identifiers() {
    assert_eq!(ident_base("x"), "x");
    assert_eq!(ident_base("Ed"), "\\mathrm{Ed}");
    assert_eq!(ident("M_Ed"), "M_{\\mathrm{Ed}}");
    assert_eq!(ident("sigma"), "\\mathrm{sigma}");
}

#[test]
fn latex_units() {
    assert_eq!(latex_unit("mm^4"), "{\\text{mm}}^{4}");
    assert_eq!(latex_unit("kN*m"), "{\\text{kN}}{\\cdot}{\\text{m}}");
    assert_eq!(latex_unit("N/mm^2"), "\\frac{{\\text{N}}}{{\\text{mm}}^{2}}");
}

#[test]
fn latex_expressions() {
    let e = parse_expr("(a + b) * c / 2").unwrap();
    assert_eq!(render(&expr_to_latex(&e), &[]), "\\frac{\\left(a + b\\right) \\cdot c}{2}");
    let e = parse_expr("sqrt(x) + sin(y)").unwrap();
    assert_eq!(render(&expr_to_latex(&e), &[]), "\\sqrt{x} + \\sin\\left(y\\right)");
    let e = parse_expr("b * h").unwrap();
    assert_eq!(
        render(&assignment_to_latex("A", &e, "80000", "mm^2"), &[]),
        "A = b \\cdot h = 80000\\;\\mathrm{{\\text{mm}}^{2}}"
    );
    assert_eq!(render(&eval_to_latex(&e, "4", ""), &[]), "b \\cdot h = 4");
}

const NS: &str = "xmlns:m=\"http://schemas.openxmlformats.org/officeDocument/2006/math\"";

#[test]
fn omml_runs() {
    assert_eq!(run("a<b"), "<m:r><m:t>a&lt;b</m:t></m:r>");
    assert_eq!(delim("("), "<m:r><m:t>(</m:t></m:r>");
    assert_eq!(unit_run("mm"), "<m:r><m:rPr><m:sty m:val=\"p\"/></m:rPr><m:t>mm</m:t></m:r>");
    assert_eq!(ident_run("x"), "<m:r><m:t>x</m:t></m:r>");
}

#[test]
fn omml_expression_and_lines() {
    let e = parse_expr("a + 1").unwrap();
    let body = render(&expr_to_omml(&e), &[]);
    assert!(body.starts_with(&format!("<m:oMath {NS}>")));
    assert!(body.ends_with("</m:oMath>"));
    assert!(body.contains("<m:r><m:t>+</m:t></m:r>"));
    let line = render(&assignment_to_omml("y", &e, "3", "mm"), &[]);
    assert!(line.contains("<m:r><m:t>=</m:t></m:r>"));
    assert!(line.contains("<m:r><m:t>3</m:t></m:r>"));
    assert!(line.contains("<m:t>mm</m:t>"));
    let ev = render(&eval_to_omml(&e, "3", ""), &[]);
    assert!(ev.ends_with("<m:r><m:t>=</m:t></m:r><m:r><m:t>3</m:t></m:r></m:oMath>"));
}

#[test]
fn bare_caret_exponents() {
    // `^-` alone is the minus first power, `^` alone the first power
    assert_eq!(format_unit_typst("m^-"), "upright(\"m\")^(-1)");
    assert_eq!(format_unit_typst("m^"), "upright(\"m\")");
    assert_eq!(format_unit_typst("N/m^-"), "upright(\"N\")/upright(\"m\")^(-1)");
}

#[test]
fn exponent_text_matches_parser() {
    let ch: Vec<char> = "m^-0".chars().collect();
    assert_eq!(parse_exponent(&ch, 1), (0, 4));
    assert_eq!(format_unit_typst("m^-0"), "upright(\"m\")^(-0)");
    let ch: Vec<char> = "m^1".chars().collect();
    assert_eq!(parse_exponent(&ch, 1), (1, 3));
    assert_eq!(format_unit_typst("m^1"), "upright(\"m\")^1");
    let ch: Vec<char> = "m^-12/s".chars().collect();
    assert_eq!(parse_exponent(&ch, 1), (-12, 5));
    assert_eq!(format_unit_typst("m^-12"), "upright(\"m\")^(-12)");
    let ch: Vec<char> = "m".chars().collect();
    assert_eq!(parse_exponent(&ch, 1), (1, 1));
}
