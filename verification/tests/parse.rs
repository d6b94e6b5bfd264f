use eqgui::ast::{err, parse_expr, tokenise, BinOp, Expr, Tok};
use eqgui::document::{parse_line, Line};

fn num(e: &Expr) -> &str {
    match e {
        Expr::Num(s) => s.as_str(),
        other => panic!("expected a number, got {other:?}"),
    }
}

fn var(e: &Expr) -> &str {
    match e {
        Expr::Var(s) => s.as_str(),
        other => panic!("expected a variable, got {other:?}"),
    }
}

#[test]
fn err_keeps_message() {
    assert_eq!(err("boom").0, "boom");
}

#[test]
fn tokenise_simple_line() {
    let toks = tokenise("A = b * h \"mm^2\"").unwrap();
    assert_eq!(toks.len(), 7);
    assert!(matches!(&toks[0], Tok::Ident(s) if s == "A"));
    assert!(matches!(toks[1], Tok::Eq));
    assert!(matches!(&toks[2], Tok::Ident(s) if s == "b"));
    assert!(matches!(toks[3], Tok::Star));
    assert!(matches!(&toks[4], Tok::Ident(s) if s == "h"));
    assert!(matches!(&toks[5], Tok::Unit(s) if s == "mm^2"));
    assert!(matches!(toks[6], Tok::Eof));
}

#[test]
fn tokenise_number_with_exponent() {
    let toks = tokenise("2.5e-3+1").unwrap();
    assert!(matches!(&toks[0], Tok::Num(s) if s == "2.5e-3"));
    assert!(matches!(toks[1], Tok::Plus));
    assert!(matches!(&toks[2], Tok::Num(s) if s == "1"));
    assert!(matches!(toks[3], Tok::Eof));
}

#[test]
fn tokenise_stops_at_comment() {
    let toks = tokenise("x # note").unwrap();
    assert_eq!(toks.len(), 2);
    assert!(matches!(toks[1], Tok::Eof));
}

#[test]
fn tokenise_rejects_bad_number() {
    let e = tokenise("1.2.3").unwrap_err();
    assert_eq!(e.0, "bad number: 1.2.3");
}

#[test]
fn tokenise_rejects_unexpected_char() {
    let e = tokenise("a $ b").unwrap_err();
    assert_eq!(e.0, "unexpected char: '$'");
}

#[test]
fn parse_precedence() {
    let e = parse_expr("1 + 2 * x").unwrap();
    match e {
        Expr::BinOp(l, BinOp::Add, r) => {
            assert_eq!(num(&l), "1");
            match *r {
                Expr::BinOp(a, BinOp::Mul, b) => {
                    assert_eq!(num(&a), "2");
                    assert_eq!(var(&b), "x");
                }
                other => panic!("unexpected {other:?}"),
            }
        }
        other => panic!("unexpected {other:?}"),
    }
}

#[test]
fn parse_power_is_right_associative() {
    let e = parse_expr("a^b^c").unwrap();
    match e {
        Expr::Pow(a, rest) => {
            assert_eq!(var(&a), "a");
            assert!(matches!(*rest, Expr::Pow(_, _)));
        }
        other => panic!("unexpected {other:?}"),
    }
}

#[test]
fn parse_subtraction_is_left_associative() {
    let e = parse_expr("a - b - c").unwrap();
    match e {
        Expr::BinOp(l, BinOp::Sub, r) => {
            assert!(matches!(*l, Expr::BinOp(_, BinOp::Sub, _)));
            assert_eq!(var(&r), "c");
        }
        other => panic!("unexpected {other:?}"),
    }
}

#[test]
fn parse_call_with_arguments() {
    let e = parse_expr("integrate(x^2, x, 0, 1)").unwrap();
    match e {
        Expr::Call(name, args) => {
            assert_eq!(name, "integrate");
            assert_eq!(args.len(), 4);
            assert_eq!(var(&args[1]), "x");
        }
        other => panic!("unexpected {other:?}"),
    }
}

#[test]
fn parse_unary_minus() {
    let e = parse_expr("--x").unwrap();
    match e {
        Expr::UnaryMinus(inner) => assert!(matches!(*inner, Expr::UnaryMinus(_))),
        other => panic!("unexpected {other:?}"),
    }
}

#[test]
fn parse_missing_rparen() {
    let e = parse_expr("(1 + 2").unwrap_err();
    assert_eq!(e.0, "expected RParen, got Eof");
}

#[test]
fn parse_unexpected_token() {
    let e = parse_expr("* 2").unwrap_err();
    assert_eq!(e.0, "unexpected token: Star");
}

#[test]
fn plot_line_parses() {
    match parse_line("plot(sin(x), x, -3, 3)").unwrap() {
        Line::Plot { var, .. } => {
            assert_eq!(var, "x");
        }
        other => panic!("expected Plot, got {other:?}"),
    }
}

#[test]
fn plot_needs_a_variable() {
    let e = parse_line("plot(sin(x), 2, -3, 3)").unwrap_err();
    assert_eq!(e.0, "plot: second arg must be variable name");
}

#[test]
fn line_blank_and_comment() {
    assert!(matches!(parse_line("   ").unwrap(), Line::Blank));
    match parse_line("  #  Section  ").unwrap() {
        Line::Comment(t) => assert_eq!(t, "Section"),
        other => panic!("unexpected {other:?}"),
    }
}

#[test]
fn line_assignment_with_unit() {
    match parse_line("f_y = 250 \"MPa\"").unwrap() {
        Line::Assignment { lhs, expr, unit } => {
            assert_eq!(lhs, "f_y");
            assert_eq!(num(&expr), "250");
            assert_eq!(unit, "MPa");
        }
        other => panic!("unexpected {other:?}"),
    }
}

#[test]
fn line_trailing_comment_dropped() {
    match parse_line("x = 3 # three").unwrap() {
        Line::Assignment { lhs, expr, unit } => {
            assert_eq!(lhs, "x");
            assert_eq!(num(&expr), "3");
            assert_eq!(unit, "");
        }
        other => panic!("unexpected {other:?}"),
    }
}

#[test]
fn line_double_equals_skipped() {
    assert_eq!(parse_line("a == b").unwrap_err().0, "invalid variable name: 'a ='");
}

#[test]
fn line_bare_expression_with_unit() {
    match parse_line("b * h \"mm^2\"").unwrap() {
        Line::Eval { expr, unit } => {
            assert!(matches!(expr, Expr::BinOp(_, BinOp::Mul, _)));
            assert_eq!(unit, "mm^2");
        }
        other => panic!("unexpected {other:?}"),
    }
}

#[test]
fn line_missing_variable_name() {
    assert_eq!(parse_line("= 3").unwrap_err().0, "missing variable name");
}

#[test]
fn line_invalid_variable_name() {
    assert_eq!(parse_line("2x = 3").unwrap_err().0, "invalid variable name: '2x'");
}

#[test]
fn line_table_row_cells() {
    match parse_line("| a |  | b c |").unwrap() {
        Line::TableRow(cells) => assert_eq!(cells, vec!["a", "b c"]),
        other => panic!("unexpected {other:?}"),
    }
}

#[test]
fn parse_error_shows_identifier_debug() {
    let e = parse_expr("(a b").unwrap_err();
    assert_eq!(e.0, "expected RParen, got Ident(\"b\")");
    let e = parse_expr("(a \"m\"").unwrap_err();
    assert_eq!(e.0, "expected RParen, got Unit(\"m\")");
}

#[test]
fn parse_error_shows_number_literal() {
    // a number in an error shows the literal as it was written
    let e = parse_expr("(1 2.50").unwrap_err();
    assert_eq!(e.0, "expected RParen, got Num(2.50)");
}

#[test]
fn unicode_identifiers() {
    // identifiers start with an ASCII letter or `_`, then any alphanumerics
    let toks = tokenise("x\u{00B2}y").unwrap();
    assert!(matches!(&toks[0], Tok::Ident(s) if s == "x\u{00B2}y"));
    assert!(tokenise("\u{03C3}").is_err());
}
