use eqgui::ast::{parse_expr, Expr};
use eqgui::eval::{
    add_dim, call_kind, calc_var, contains_var, dim_debug, pow_dim, pow_fits, sqrt_dim, symbolic_diff, unary_dim,
    unary_fn, undefined_variable, unknown_function, CallKind, UnaryFn,
};
use eqgui::typst_codegen::{to_typst_sym, Piece};
use eqgui::units::Dim;

fn show(e: &Expr) -> String {
    let mut s = String::new();
    for p in to_typst_sym(e) {
        match p {
            Piece::Text(t) | Piece::Num(t) => s.push_str(&t),
            Piece::Var { fallback, .. } => s.push_str(&fallback),
        }
    }
    s
}

fn d(src: &str, var: &str) -> String {
    show(&symbolic_diff(&parse_expr(src).unwrap(), var))
}

#[test]
fn diff_constants_and_variables() {
    assert_eq!(d("3", "x"), "0");
    assert_eq!(d("x", "x"), "1");
    assert_eq!(d("y", "x"), "0");
    assert_eq!(d("-x", "x"), "(-1)");
}

#[test]
fn diff_sum_and_product_rules() {
    assert_eq!(d("x + y", "x"), "1 + 0");
    assert_eq!(d("x * sin(x)", "x"), "1 dot.op sin(x) + x dot.op cos(x) dot.op 1");
    assert_eq!(d("x / y", "x"), "(1 dot.op y - x dot.op 0)/(y^(2))");
}

#[test]
fn diff_power_rules() {
    // base depends on x only: n x^(n-1) dx
    assert_eq!(d("x^3", "x"), "3 dot.op x^(3 - 1) dot.op 1");
    // exponent depends on x only: a^x ln(a) dx
    assert_eq!(d("2^x", "x"), "2^(x) dot.op ln(2) dot.op 1");
}

#[test]
fn diff_chain_rule() {
    assert_eq!(d("cos(x)", "x"), "(-sin(x)) dot.op 1");
    assert_eq!(d("sqrt(x)", "x"), "(1)/(2 dot.op sqrt(x)) dot.op 1");
    assert_eq!(d("log(x)", "x"), "(1)/(x dot.op ln(10)) dot.op 1");
}

#[test]
fn diff_unknown_function_is_nan() {
    assert_eq!(d("foo(x)", "x"), "NaN");
    assert_eq!(d("f(x, y)", "x"), "NaN");
}

#[test]
fn contains_var_examples() {
    let e = parse_expr("a + sin(b * c)").unwrap();
    assert!(contains_var(&e, "c"));
    assert!(!contains_var(&e, "x"));
}

#[test]
fn dim_debug_text() {
    assert_eq!(dim_debug(Dim::pa()), "Dim([-1, 1, -2, 0, 0, 0, 0])");
    assert_eq!(dim_debug(Dim([-128, 127, 0, 0, 0, 0, 10])), "Dim([-128, 127, 0, 0, 0, 0, 10])");
}

#[test]
fn add_dim_rules() {
    assert_eq!(add_dim(Dim::m(), Dim::m()), Ok(Dim::m()));
    assert_eq!(add_dim(Dim::m(), Dim::none()), Ok(Dim::m()));
    assert_eq!(add_dim(Dim::none(), Dim::kg()), Ok(Dim::none()));
    assert_eq!(
        add_dim(Dim::m(), Dim::kg()).unwrap_err(),
        "dimension mismatch: cannot add Dim([1, 0, 0, 0, 0, 0, 0]) and Dim([0, 1, 0, 0, 0, 0, 0])"
    );
}

#[test]
fn pow_dim_rules() {
    assert_eq!(pow_dim(Dim::m(), Dim::none(), Some(3)), Ok(Dim::m3()));
    assert_eq!(pow_dim(Dim::m(), Dim::m(), Some(3)).unwrap_err(), "exponent must be dimensionless");
    assert_eq!(pow_dim(Dim::m(), Dim::none(), None).unwrap_err(), "fractional power of dimensioned quantity");
    assert_eq!(pow_dim(Dim::none(), Dim::none(), None), Ok(Dim::none()));
    assert!(pow_fits(Dim::m(), 1000));
    assert!(!pow_fits(Dim([100, 0, 0, 0, 0, 0, 0]), i32::MAX));
}

#[test]
fn sqrt_dim_halves_toward_zero() {
    assert_eq!(sqrt_dim(Dim::m2()), Dim::m());
    assert_eq!(sqrt_dim(Dim([3, -3, 0, 0, 0, 0, 0])), Dim([1, -1, 0, 0, 0, 0, 0]));
}

#[test]
fn unary_functions() {
    assert_eq!(unary_fn("sqrt"), Some(UnaryFn::Sqrt));
    assert_eq!(unary_fn("floor"), Some(UnaryFn::Floor));
    assert_eq!(unary_fn("cosh"), None);
    assert_eq!(unary_dim(UnaryFn::Abs, Dim::m()), Dim::m());
    assert_eq!(unary_dim(UnaryFn::Sin, Dim::m()), Dim::none());
    assert_eq!(unary_dim(UnaryFn::Sqrt, Dim::m4()), Dim::m2());
}

#[test]
fn call_kinds_and_arity_errors() {
    assert_eq!(call_kind("diff", 2), Ok(CallKind::Diff));
    assert_eq!(call_kind("diff", 3).unwrap_err(), "diff(expr, var) needs 2 args");
    assert_eq!(call_kind("integrate", 4), Ok(CallKind::Integrate));
    assert_eq!(call_kind("integrate", 2).unwrap_err(), "integrate(expr, var, a, b) needs 4 args");
    assert_eq!(call_kind("sum", 1).unwrap_err(), "sum(expr, var, a, b) needs 4 args");
    assert_eq!(call_kind("sin", 1), Ok(CallKind::Unary));
    assert_eq!(call_kind("max", 2).unwrap_err(), "'max' expects 1 argument");
}

#[test]
fn calculus_variable() {
    let args = match parse_expr("sum(k^2, k, 1, 10)").unwrap() {
        Expr::Call(_, a) => a,
        other => panic!("unexpected {other:?}"),
    };
    assert_eq!(calc_var("sum", &args), Ok("k".to_string()));
    let bad = match parse_expr("sum(k^2, 2, 1, 10)").unwrap() {
        Expr::Call(_, a) => a,
        other => panic!("unexpected {other:?}"),
    };
    assert_eq!(calc_var("sum", &bad).unwrap_err(), "sum: second arg must be variable name");
}

#[test]
fn error_messages() {
    assert_eq!(unknown_function("cosh"), "unknown function: 'cosh'");
    assert_eq!(undefined_variable("q"), "undefined variable: 'q'");
}

#[test]
fn derivative_brings_in_no_variable() {
    let e = parse_expr("a * x^2 + sin(b * x) / c").unwrap();
    let dx = symbolic_diff(&e, "x");
    for v in ["a", "b", "c", "x"] {
        assert!(contains_var(&e, v));
    }
    for v in ["y", "k", "ln"] {
        assert!(!contains_var(&dx, v));
    }
}

#[test]
fn diff_product_rule_shape() {
    assert_eq!(d("x * y", "y"), "0 dot.op y + x dot.op 1");
}
