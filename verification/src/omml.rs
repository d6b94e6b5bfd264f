use vstd::prelude::*;
use crate::ast::{BinOp, Expr, SExpr, ev, exprs_view};
use crate::text::{chars_of, string_of, sub_vec, str_eq};
use crate::typst_codegen::{Piece, SPiece, pieces_view, txt, push_text, append_pieces, first_underscore};
use crate::xml::{esc_spec, xml_esc};

verus! {

/// The `m` namespace declaration of Office Math.
pub open spec fn ns_spec() -> Seq<char> {
    "xmlns:m=\"http://schemas.openxmlformats.org/officeDocument/2006/math\""@
}

/// A math run holding `t` as text.
pub open spec fn run_spec(t: Seq<char>) -> Seq<char> {
    "<m:r><m:t>"@ + esc_spec(t, true) + "</m:t></m:r>"@
}

/// A math run holding `t`.
pub fn run(t: &str) -> (r: String)
    ensures
        r@ == run_spec(t@),
{
    let mut r = String::from_str("<m:r><m:t>");
    let e = xml_esc(t);
    r.append(e.as_str());
    r.append("</m:t></m:r>");
    r
}

/// A parenthesis or other delimiter, as a plain run.
pub fn delim(s: &str) -> (r: String)
    ensures
        r@ == run_spec(s@),
{
    run(s)
}

/// A unit as upright text.
pub open spec fn unit_run_spec(u: Seq<char>) -> Seq<char> {
    "<m:r><m:rPr><m:sty m:val=\"p\"/></m:rPr><m:t>"@ + esc_spec(u, true) + "</m:t></m:r>"@
}

/// A unit as upright text.
pub fn unit_run(u: &str) -> (r: String)
    ensures
        r@ == unit_run_spec(u@),
{
    let mut r = String::from_str("<m:r><m:rPr><m:sty m:val=\"p\"/></m:rPr><m:t>");
    let e = xml_esc(u);
    r.append(e.as_str());
    r.append("</m:t></m:r>");
    r
}

/// A variable name; at its first `_` the rest is a subscript.
pub open spec fn ident_run_spec(name: Seq<char>) -> Seq<char> {
    match first_underscore(name, 0) {
        Some(k) => "<m:sSub><m:e><m:r><m:t>"@ + esc_spec(name.take(k), true)
            + "</m:t></m:r></m:e><m:sub><m:r><m:t>"@ + esc_spec(name.skip(k + 1), true)
            + "</m:t></m:r></m:sub></m:sSub>"@,
        None => "<m:r><m:t>"@ + esc_spec(name, true) + "</m:t></m:r>"@,
    }
}

/// A variable name with its subscript (see [`ident_run_spec`]).
pub fn ident_run(name: &str) -> (r: String)
    ensures
        r@ == ident_run_spec(name@),
{
    let s = chars_of(name);
    let mut k: usize = 0;
    while k < s.len() && s[k] != '_'
        invariant
            k <= s.len(),
            first_underscore(s@, k as int) == first_underscore(s@, 0),
        decreases s.len() - k,
    {
        k += 1;
    }
    if k < s.len() {
        let base = sub_vec(&s, 0, k);
        assert(base@ =~= s@.take(k as int));
        let sub = sub_vec(&s, k + 1, s.len());
        assert(sub@ =~= s@.skip(k + 1));
        let mut r = String::from_str("<m:sSub><m:e><m:r><m:t>");
        let bs = string_of(&base);
        let be = xml_esc(bs.as_str());
        r.append(be.as_str());
        r.append("</m:t></m:r></m:e><m:sub><m:r><m:t>");
        let ss = string_of(&sub);
        let se = xml_esc(ss.as_str());
        r.append(se.as_str());
        r.append("</m:t></m:r></m:sub></m:sSub>");
        r
    } else {
        let mut r = String::from_str("<m:r><m:t>");
        let e = xml_esc(name);
        r.append(e.as_str());
        r.append("</m:t></m:r>");
        r
    }
}

pub open spec fn is_add_sub(e: SExpr) -> bool {
    e is BinOp && (e->BinOp_1 == BinOp::Add || e->BinOp_1 == BinOp::Sub)
}

/// An operand of a negation needs parentheses when it is a sum, a
/// difference or a negation.
pub open spec fn needs_paren(e: SExpr) -> bool {
    is_add_sub(e) || e is UnaryMinus
}

/// The variable of a calculus call, or the default name.
pub open spec fn call_var(a: SExpr, default: Seq<char>) -> Seq<char> {
    if a is Var {
        a->Var_0
    } else {
        default
    }
}

/// An expression as Office Math, in parentheses when `paren`.
pub open spec fn om(e: SExpr, paren: bool) -> Seq<SPiece>
    decreases e, 2int,
{
    if paren {
        txt(run_spec("("@)) + om_inner(e) + txt(run_spec(")"@))
    } else {
        om_inner(e)
    }
}

/// An expression as Office Math.
pub open spec fn om_inner(e: SExpr) -> Seq<SPiece>
    decreases e, 1int,
{
    match e {
        SExpr::Num(t) => txt("<m:r><m:t>"@) + seq![SPiece::Num(t)] + txt("</m:t></m:r>"@),
        SExpr::Var(n) => txt(ident_run_spec(n)),
        SExpr::UnaryMinus(a) => txt(run_spec("\u{2212}"@)) + om(*a, needs_paren(*a)),
        SExpr::BinOp(l, op, r) => match op {
            BinOp::Div => txt("<m:f><m:num>"@) + om(*l, false) + txt("</m:num><m:den>"@) + om(*r, false)
                + txt("</m:den></m:f>"@),
            BinOp::Mul => om(*l, is_add_sub(*l)) + txt(run_spec("\u{22C5}"@)) + om(*r, is_add_sub(*r)),
            BinOp::Add => om(*l, false) + txt(run_spec("+"@)) + om(*r, false),
            BinOp::Sub => om(*l, false) + txt(run_spec("\u{2212}"@)) + om(*r, is_add_sub(*r)),
        },
        SExpr::Pow(b, x) => txt("<m:sSup><m:e>"@) + om(*b, *b is BinOp || *b is UnaryMinus) + txt(
            "</m:e><m:sup>"@,
        ) + om(*x, false) + txt("</m:sup></m:sSup>"@),
        SExpr::Call(name, args) => if name == "sqrt"@ && args.len() == 1 {
            txt("<m:rad><m:radPr><m:degHide m:val=\"1\"/></m:radPr><m:deg/><m:e>"@) + om(args[0], false)
                + txt("</m:e></m:rad>"@)
        } else if name == "diff"@ && args.len() == 2 {
            txt("<m:f><m:num><m:r><m:t>d</m:t></m:r>"@) + om(args[0], false) + txt(
                "</m:num><m:den><m:r><m:t>d</m:t></m:r>"@ + ident_run_spec(call_var(args[1], "x"@))
                    + "</m:den></m:f>"@,
            )
        } else if name == "integrate"@ && args.len() == 4 {
            txt("<m:nary><m:naryPr><m:chr m:val=\"\u{222B}\"/></m:naryPr><m:sub>"@) + om(args[2], false)
                + txt("</m:sub><m:sup>"@) + om(args[3], false) + txt("</m:sup><m:e>"@) + om(args[0], false)
                + txt("<m:r><m:t>d"@ + call_var(args[1], "x"@) + "</m:t></m:r></m:e></m:nary>"@)
        } else if name == "sum"@ && args.len() == 4 {
            txt(
                "<m:nary><m:naryPr><m:chr m:val=\"\u{2211}\"/></m:naryPr><m:sub>"@ + ident_run_spec(
                    call_var(args[1], "k"@),
                ) + "="@,
            ) + om(args[2], false) + txt("</m:sub><m:sup>"@) + om(args[3], false) + txt("</m:sup><m:e>"@)
                + om(args[0], false) + txt("</m:e></m:nary>"@)
        } else {
            txt("<m:r><m:rPr><m:sty m:val=\"p\"/></m:rPr><m:t>"@ + name + "</m:t></m:r>"@ + run_spec("("@))
                + om_join(args, args.len() as int) + txt(run_spec(")"@))
        },
    }
}

/// The first `n` arguments as Office Math, separated by comma runs.
pub open spec fn om_join(args: Seq<SExpr>, n: int) -> Seq<SPiece>
    decreases args, n,
{
    if n <= 0 || n > args.len() {
        Seq::empty()
    } else if n == 1 {
        om(args[0], false)
    } else {
        om_join(args, n - 1) + txt(run_spec(","@)) + om(args[n - 1], false)
    }
}

fn call_var_exec(a: &Expr, default: &str) -> (r: String)
    ensures
        r@ == call_var(a@, default@),
{
    match a {
        Expr::Var(v) => v.clone(),
        _ => String::from_str(default),
    }
}

fn is_add_sub_exec(e: &Expr) -> (b: bool)
    ensures
        b == is_add_sub(e@),
{
    match e {
        Expr::BinOp(_, op, _) => match op {
            BinOp::Add | BinOp::Sub => true,
            _ => false,
        },
        _ => false,
    }
}

/// An expression as Office Math pieces (see [`om`]).
#[verifier::loop_isolation(false)]
pub fn node(expr: &Expr, paren: bool) -> (r: Vec<Piece>)
    ensures
        pieces_view(r@) == om(expr@, paren),
    decreases expr, 2int,
{
    let mut out: Vec<Piece> = Vec::new();
    if paren {
        let o = run("(");
        push_text(&mut out, o.as_str());
        append_pieces(&mut out, node_inner(expr));
        let c = run(")");
        push_text(&mut out, c.as_str());
    } else {
        append_pieces(&mut out, node_inner(expr));
    }
    assert(pieces_view(out@) =~= om(expr@, paren));
    out
}

#[verifier::loop_isolation(false)]
#[verifier::spinoff_prover]
#[verifier::rlimit(50)]
fn node_inner(expr: &Expr) -> (r: Vec<Piece>)
    ensures
        pieces_view(r@) == om_inner(expr@),
    decreases expr, 1int,
{
    let mut out: Vec<Piece> = Vec::new();
    match expr {
        Expr::Num(t) => {
            push_text(&mut out, "<m:r><m:t>");
            let ghost before = pieces_view(out@);
            out.push(Piece::Num(t.clone()));
            assert(pieces_view(out@) =~= before + seq![SPiece::Num(t@)]);
            push_text(&mut out, "</m:t></m:r>");
        },
        Expr::Var(n) => {
            let id = ident_run(n.as_str());
            push_text(&mut out, id.as_str());
        },
        Expr::UnaryMinus(a) => {
            let m = run("\u{2212}");
            push_text(&mut out, m.as_str());
            let np = is_add_sub_exec(a) || match &**a {
                Expr::UnaryMinus(_) => true,
                _ => false,
            };
            append_pieces(&mut out, node(a, np));
        },
        Expr::BinOp(l, op, r) => {
            match op {
                BinOp::Div => {
                    push_text(&mut out, "<m:f><m:num>");
                    append_pieces(&mut out, node(l, false));
                    push_text(&mut out, "</m:num><m:den>");
                    append_pieces(&mut out, node(r, false));
                    push_text(&mut out, "</m:den></m:f>");
                },
                BinOp::Mul => {
                    append_pieces(&mut out, node(l, is_add_sub_exec(l)));
                    let m = run("\u{22C5}");
                    push_text(&mut out, m.as_str());
                    append_pieces(&mut out, node(r, is_add_sub_exec(r)));
                },
                BinOp::Add => {
                    append_pieces(&mut out, node(l, false));
                    let m = run("+");
                    push_text(&mut out, m.as_str());
                    append_pieces(&mut out, node(r, false));
                },
                BinOp::Sub => {
                    append_pieces(&mut out, node(l, false));
                    let m = run("\u{2212}");
                    push_text(&mut out, m.as_str());
                    append_pieces(&mut out, node(r, is_add_sub_exec(r)));
                },
            }
        },
        Expr::Pow(b, x) => {
            push_text(&mut out, "<m:sSup><m:e>");
            let bp = match &**b {
                Expr::BinOp(..) | Expr::UnaryMinus(_) => true,
                _ => false,
            };
            append_pieces(&mut out, node(b, bp));
            push_text(&mut out, "</m:e><m:sup>");
            append_pieces(&mut out, node(x, false));
            push_text(&mut out, "</m:sup></m:sSup>");
        },
        Expr::Call(name, args) => {
            let ghost av = exprs_view(args@);
            assert(expr@ == SExpr::Call(name@, av));
            let nargs = args.len();
            proof {
                if nargs > 0 {
                    assert(av[0] == ev(args@[0]));
                    assert(decreases_to!(expr => args@[0]));
                }
                if nargs > 1 {
                    assert(av[1] == ev(args@[1]));
                }
                if nargs > 3 {
                    assert(av[2] == ev(args@[2]));
                    assert(av[3] == ev(args@[3]));
                    assert(decreases_to!(expr => args@[2]));
                    assert(decreases_to!(expr => args@[3]));
                }
            }
            if str_eq(name.as_str(), "sqrt") && nargs == 1 {
                push_text(&mut out, "<m:rad><m:radPr><m:degHide m:val=\"1\"/></m:radPr><m:deg/><m:e>");
                append_pieces(&mut out, node(&args[0], false));
                push_text(&mut out, "</m:e></m:rad>");
            } else if str_eq(name.as_str(), "diff") && nargs == 2 {
                push_text(&mut out, "<m:f><m:num><m:r><m:t>d</m:t></m:r>");
                append_pieces(&mut out, node(&args[0], false));
                let v = call_var_exec(&args[1], "x");
                let id = ident_run(v.as_str());
                let mut t = String::from_str("</m:num><m:den><m:r><m:t>d</m:t></m:r>");
                t.append(id.as_str());
                t.append("</m:den></m:f>");
                push_text(&mut out, t.as_str());
            } else if str_eq(name.as_str(), "integrate") && nargs == 4 {
                push_text(&mut out, "<m:nary><m:naryPr><m:chr m:val=\"\u{222B}\"/></m:naryPr><m:sub>");
                append_pieces(&mut out, node(&args[2], false));
                push_text(&mut out, "</m:sub><m:sup>");
                append_pieces(&mut out, node(&args[3], false));
                push_text(&mut out, "</m:sup><m:e>");
                append_pieces(&mut out, node(&args[0], false));
                let v = call_var_exec(&args[1], "x");
                let mut t = String::from_str("<m:r><m:t>d");
                t.append(v.as_str());
                t.append("</m:t></m:r></m:e></m:nary>");
                push_text(&mut out, t.as_str());
            } else if str_eq(name.as_str(), "sum") && nargs == 4 {
                let v = call_var_exec(&args[1], "k");
                let id = ident_run(v.as_str());
                let mut t = String::from_str("<m:nary><m:naryPr><m:chr m:val=\"\u{2211}\"/></m:naryPr><m:sub>");
                t.append(id.as_str());
                t.append("=");
                push_text(&mut out, t.as_str());
                append_pieces(&mut out, node(&args[2], false));
                push_text(&mut out, "</m:sub><m:sup>");
                append_pieces(&mut out, node(&args[3], false));
                push_text(&mut out, "</m:sup><m:e>");
                append_pieces(&mut out, node(&args[0], false));
                push_text(&mut out, "</m:e></m:nary>");
            } else {
                let mut t = String::from_str("<m:r><m:rPr><m:sty m:val=\"p\"/></m:rPr><m:t>");
                t.append(name.as_str());
                t.append("</m:t></m:r>");
                let o = run("(");
                t.append(o.as_str());
                push_text(&mut out, t.as_str());
                let ghost head = pieces_view(out@);
                let mut k: usize = 0;
                while k < nargs
                    invariant
                        k <= nargs,
                        nargs == args@.len(),
                        pieces_view(out@) == head + om_join(av, k as int),
                    decreases nargs - k,
                {
                    proof {
                        assert(av[k as int] == ev(args@[k as int]));
                        assert(decreases_to!(expr => args@[k as int]));
                    }
                    if k > 0 {
                        let c = run(",");
                        push_text(&mut out, c.as_str());
                    }
                    append_pieces(&mut out, node(&args[k], false));
                    k += 1;
                    assert(pieces_view(out@) =~= head + om_join(av, k as int));
                }
                let c = run(")");
                push_text(&mut out, c.as_str());
            }
        },
    }
    assert(pieces_view(out@) =~= om_inner(expr@));
    out
}

}

verus! {

fn om_open() -> (r: String)
    ensures
        r@ == "<m:oMath "@ + ns_spec() + ">"@,
{
    let mut r = String::from_str("<m:oMath ");
    r.append("xmlns:m=\"http://schemas.openxmlformats.org/officeDocument/2006/math\"");
    r.append(">");
    r
}

/// An expression as an Office Math element.
pub fn expr_to_omml(expr: &Expr) -> (r: Vec<Piece>)
    ensures
        pieces_view(r@) == txt("<m:oMath "@ + ns_spec() + ">"@) + om(expr@, false) + txt("</m:oMath>"@),
{
    let mut out: Vec<Piece> = Vec::new();
    let o = om_open();
    push_text(&mut out, o.as_str());
    append_pieces(&mut out, node(expr, false));
    push_text(&mut out, "</m:oMath>");
    out
}

/// The unit after a result: a thin space and the unit as upright text.
pub open spec fn unit_part_spec(unit: Seq<char>) -> Seq<char> {
    if unit.len() == 0 {
        Seq::empty()
    } else {
        run_spec("\u{2009}"@) + unit_run_spec(unit)
    }
}

fn unit_part(unit: &str) -> (r: String)
    ensures
        r@ == unit_part_spec(unit@),
{
    if unit.is_empty() {
        String::new()
    } else {
        let mut r = run("\u{2009}");
        let u = unit_run(unit);
        r.append(u.as_str());
        r
    }
}

/// A full equation line `lhs = expr = result unit` as Office Math;
/// `result` is the display text of the value.
pub fn assignment_to_omml(lhs: &str, expr: &Expr, result: &str, unit: &str) -> (r: Vec<Piece>)
    ensures
        pieces_view(r@) == txt("<m:oMath "@ + ns_spec() + ">"@ + ident_run_spec(lhs@) + run_spec("="@))
            + om(expr@, false) + txt(run_spec("="@) + run_spec(result@) + unit_part_spec(unit@) + "</m:oMath>"@),
{
    let mut out: Vec<Piece> = Vec::new();
    let mut head = om_open();
    let id = ident_run(lhs);
    head.append(id.as_str());
    let eq = run("=");
    head.append(eq.as_str());
    push_text(&mut out, head.as_str());
    append_pieces(&mut out, node(expr, false));
    let mut tail = run("=");
    let num = run(result);
    tail.append(num.as_str());
    let up = unit_part(unit);
    tail.append(up.as_str());
    tail.append("</m:oMath>");
    push_text(&mut out, tail.as_str());
    out
}

/// A bare expression line `expr = result unit` as Office Math.
pub fn eval_to_omml(expr: &Expr, result: &str, unit: &str) -> (r: Vec<Piece>)
    ensures
        pieces_view(r@) == txt("<m:oMath "@ + ns_spec() + ">"@) + om(expr@, false) + txt(
            run_spec("="@) + run_spec(result@) + unit_part_spec(unit@) + "</m:oMath>"@,
        ),
{
    let mut out: Vec<Piece> = Vec::new();
    let o = om_open();
    push_text(&mut out, o.as_str());
    append_pieces(&mut out, node(expr, false));
    let mut tail = run("=");
    let num = run(result);
    tail.append(num.as_str());
    let up = unit_part(unit);
    tail.append(up.as_str());
    tail.append("</m:oMath>");
    push_text(&mut out, tail.as_str());
    out
}

}

verus! {

/// `p` between parenthesis runs.
pub open spec fn om_grouped(p: Seq<SPiece>) -> Seq<SPiece> {
    txt(run_spec("("@)) + p + txt(run_spec(")"@))
}

/// A product keeps a sum or difference among its operands grouped: such a
/// left operand opens the product's Office Math between parenthesis runs,
/// such a right operand closes it so; and the right side of a difference
/// that is itself a sum or difference is grouped the same way.
pub proof fn law_sums_stay_grouped(l: SExpr, op: BinOp, r: SExpr)
    ensures
        ({
            let m = om_inner(SExpr::BinOp(Box::new(l), op, Box::new(r)));
            let gl = om_grouped(om_inner(l));
            let gr = om_grouped(om_inner(r));
            &&& op == BinOp::Mul && is_add_sub(l) ==> m.take(gl.len() as int) == gl
            &&& (op == BinOp::Mul || op == BinOp::Sub) && is_add_sub(r) ==> m.len() >= gr.len()
                && m.skip(m.len() - gr.len()) == gr
        }),
{
    let m = om_inner(SExpr::BinOp(Box::new(l), op, Box::new(r)));
    let gl = om_grouped(om_inner(l));
    let gr = om_grouped(om_inner(r));
    if op == BinOp::Mul && is_add_sub(l) {
        assert(om(l, true) == gl);
        assert(m.take(gl.len() as int) =~= gl);
    }
    if (op == BinOp::Mul || op == BinOp::Sub) && is_add_sub(r) {
        assert(om(r, true) == gr);
        assert(m.skip(m.len() - gr.len()) =~= gr);
    }
}

}
