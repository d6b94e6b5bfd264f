use vstd::prelude::*;
use crate::ast::{BinOp, Expr, SExpr, ev, exprs_view};
use crate::text::{chars_of, string_of, sub_vec, str_eq};
use crate::typst_codegen::{Piece, SPiece, pieces_view, txt, push_text, append_pieces, first_underscore, one_byte};
use crate::omml::{call_var, is_add_sub};

verus! {

/// Binding strength of the context an expression is written in:
/// top level, operand of `+`/`-`, operand of `·`, operand of a unary minus
/// or a power base.
#[derive(Clone, Copy, Debug, PartialEq, Eq, Structural)]
pub enum Prec {
    Top,
    Add,
    Mul,
    Unary,
}

pub open spec fn rank(p: Prec) -> int {
    match p {
        Prec::Top => 0,
        Prec::Add => 1,
        Prec::Mul => 2,
        Prec::Unary => 3,
    }
}

fn rank_exec(p: Prec) -> (r: u8)
    ensures
        r as int == rank(p),
{
    match p {
        Prec::Top => 0,
        Prec::Add => 1,
        Prec::Mul => 2,
        Prec::Unary => 3,
    }
}

/// A name part: one byte as it is, else upright.
pub open spec fn ident_base_spec(s: Seq<char>) -> Seq<char> {
    if one_byte(s) {
        s
    } else {
        "\\mathrm{"@ + s + "}"@
    }
}

/// A name part: one byte as it is, else upright.
pub fn ident_base(s: &str) -> (r: String)
    ensures
        r@ == ident_base_spec(s@),
{
    let cs = chars_of(s);
    if cs.len() == 1 && (cs[0] as u32) < 128 {
        String::from_str(s)
    } else {
        let mut r = String::from_str("\\mathrm{");
        r.append(s);
        r.append("}");
        r
    }
}

/// A variable name in LaTeX; at its first `_` the rest is a subscript.
pub open spec fn ident_spec(name: Seq<char>) -> Seq<char> {
    match first_underscore(name, 0) {
        Some(k) => ident_base_spec(name.take(k)) + "_{"@ + ident_base_spec(name.skip(k + 1)) + "}"@,
        None => ident_base_spec(name),
    }
}

/// A variable name in LaTeX (see [`ident_spec`]).
pub fn ident(name: &str) -> (r: String)
    ensures
        r@ == ident_spec(name@),
{
    let s = chars_of(name);
    let mut k: usize = 0;
    while k < s.len() && s[k] != '_'
        invariant
            k <= s.len(),
            first_underscore(s@, k as int) == first_underscore(s@, 0),
        decreases s.len() - k,
    {
        k += 1;
    }
    if k < s.len() {
        let base = sub_vec(&s, 0, k);
        assert(base@ =~= s@.take(k as int));
        let sub = sub_vec(&s, k + 1, s.len());
        assert(sub@ =~= s@.skip(k + 1));
        let bs = string_of(&base);
        let mut r = ident_base(bs.as_str());
        r.append("_{");
        let ss = string_of(&sub);
        let st = ident_base(ss.as_str());
        r.append(st.as_str());
        r.append("}");
        r
    } else {
        ident_base(name)
    }
}

pub open spec fn wrap_if(b: bool, p: Seq<SPiece>) -> Seq<SPiece> {
    if b {
        txt("\\left("@) + p + txt("\\right)"@)
    } else {
        p
    }
}

/// LaTeX function names written with a backslash.
pub open spec fn named_latex_fn(name: Seq<char>) -> bool {
    name == "sin"@ || name == "cos"@ || name == "tan"@ || name == "ln"@ || name == "log"@ || name == "exp"@
}

/// An expression in LaTeX, in a context of binding strength `ctx`;
/// parentheses only where the context needs them.
pub open spec fn lx(e: SExpr, ctx: Prec) -> Seq<SPiece>
    decreases e, 0int,
{
    match e {
        SExpr::Num(t) => seq![SPiece::Num(t)],
        SExpr::Var(n) => txt(ident_spec(n)),
        SExpr::UnaryMinus(a) => wrap_if(rank(ctx) > 1, txt("-"@) + lx(*a, Prec::Unary)),
        SExpr::BinOp(l, op, r) => match op {
            BinOp::Div => txt("\\frac{"@) + lx(*l, Prec::Top) + txt("}{"@) + lx(*r, Prec::Top) + txt("}"@),
            BinOp::Mul => wrap_if(rank(ctx) > 2, lx(*l, Prec::Mul) + txt(" \\cdot "@) + lx(*r, Prec::Mul)),
            BinOp::Add => wrap_if(rank(ctx) > 1, lx(*l, Prec::Add) + txt(" + "@) + lx(*r, Prec::Add)),
            BinOp::Sub => wrap_if(
                rank(ctx) > 1,
                lx(*l, Prec::Add) + txt(" - "@) + if is_add_sub(*r) {
                    txt("\\left("@) + lx(*r, Prec::Top) + txt("\\right)"@)
                } else {
                    lx(*r, Prec::Add)
                },
            ),
        },
        SExpr::Pow(b, x) => (if *b is BinOp || *b is UnaryMinus {
            txt("\\left("@) + lx(*b, Prec::Top) + txt("\\right)"@)
        } else {
            lx(*b, Prec::Unary)
        }) + txt("^{"@) + lx(*x, Prec::Top) + txt("}"@),
        SExpr::Call(name, args) => if name == "sqrt"@ && args.len() == 1 {
            txt("\\sqrt{"@) + lx(args[0], Prec::Top) + txt("}"@)
        } else if name == "diff"@ && args.len() == 2 {
            txt("\\frac{d}{d"@ + ident_spec(call_var(args[1], "x"@)) + "} "@) + lx(args[0], Prec::Top)
        } else if name == "integrate"@ && args.len() == 4 {
            txt("\\int_{"@) + lx(args[2], Prec::Top) + txt("}^{"@) + lx(args[3], Prec::Top) + txt("} "@)
                + lx(args[0], Prec::Top) + txt(" \\, d"@ + ident_spec(call_var(args[1], "x"@)))
        } else if name == "sum"@ && args.len() == 4 {
            txt("\\sum_{"@ + ident_spec(call_var(args[1], "k"@)) + "="@) + lx(args[2], Prec::Top) + txt(
                "}^{"@,
            ) + lx(args[3], Prec::Top) + txt("} "@) + lx(args[0], Prec::Top)
        } else if name == "abs"@ && args.len() == 1 {
            txt("\\left|"@) + lx(args[0], Prec::Top) + txt("\\right|"@)
        } else if named_latex_fn(name) && args.len() == 1 {
            txt("\\"@ + name + "\\left("@) + lx(args[0], Prec::Top) + txt("\\right)"@)
        } else {
            txt("\\operatorname{"@ + name + "}\\left("@) + lx_join(args, args.len() as int) + txt("\\right)"@)
        },
    }
}

/// The first `n` arguments in LaTeX, separated by `, `.
pub open spec fn lx_join(args: Seq<SExpr>, n: int) -> Seq<SPiece>
    decreases args, n,
{
    if n <= 0 || n > args.len() {
        Seq::empty()
    } else if n == 1 {
        lx(args[0], Prec::Top)
    } else {
        lx_join(args, n - 1) + txt(", "@) + lx(args[n - 1], Prec::Top)
    }
}

fn call_var_exec(a: &Expr, default: &str) -> (r: String)
    ensures
        r@ == call_var(a@, default@),
{
    match a {
        Expr::Var(v) => v.clone(),
        _ => String::from_str(default),
    }
}

fn is_add_sub_exec(e: &Expr) -> (b: bool)
    ensures
        b == is_add_sub(e@),
{
    match e {
        Expr::BinOp(_, op, _) => match op {
            BinOp::Add | BinOp::Sub => true,
            _ => false,
        },
        _ => false,
    }
}

fn wrap_pieces(b: bool, p: Vec<Piece>) -> (r: Vec<Piece>)
    ensures
        pieces_view(r@) == wrap_if(b, pieces_view(p@)),
{
    if b {
        let mut out: Vec<Piece> = Vec::new();
        push_text(&mut out, "\\left(");
        append_pieces(&mut out, p);
        push_text(&mut out, "\\right)");
        out
    } else {
        p
    }
}

/// An expression in LaTeX pieces (see [`lx`]).
#[verifier::loop_isolation(false)]
#[verifier::spinoff_prover]
#[verifier::rlimit(50)]
pub fn node(expr: &Expr, ctx: Prec) -> (r: Vec<Piece>)
    ensures
        pieces_view(r@) == lx(expr@, ctx),
    decreases expr,
{
    let c = rank_exec(ctx);
    let mut out: Vec<Piece> = Vec::new();
    match expr {
        Expr::Num(t) => {
            out.push(Piece::Num(t.clone()));
            assert(pieces_view(out@) =~= seq![SPiece::Num(t@)]);
        },
        Expr::Var(n) => {
            let id = ident(n.as_str());
            push_text(&mut out, id.as_str());
        },
        Expr::UnaryMinus(a) => {
            let mut inner: Vec<Piece> = Vec::new();
            push_text(&mut inner, "-");
            append_pieces(&mut inner, node(a, Prec::Unary));
            out = wrap_pieces(c > 1, inner);
        },
        Expr::BinOp(l, op, r) => {
            match op {
                BinOp::Div => {
                    push_text(&mut out, "\\frac{");
                    append_pieces(&mut out, node(l, Prec::Top));
                    push_text(&mut out, "}{");
                    append_pieces(&mut out, node(r, Prec::Top));
                    push_text(&mut out, "}");
                },
                BinOp::Mul => {
                    let mut inner: Vec<Piece> = Vec::new();
                    append_pieces(&mut inner, node(l, Prec::Mul));
                    push_text(&mut inner, " \\cdot ");
                    append_pieces(&mut inner, node(r, Prec::Mul));
                    out = wrap_pieces(c > 2, inner);
                },
                BinOp::Add => {
                    let mut inner: Vec<Piece> = Vec::new();
                    append_pieces(&mut inner, node(l, Prec::Add));
                    push_text(&mut inner, " + ");
                    append_pieces(&mut inner, node(r, Prec::Add));
                    out = wrap_pieces(c > 1, inner);
                },
                BinOp::Sub => {
                    let mut inner: Vec<Piece> = Vec::new();
                    append_pieces(&mut inner, node(l, Prec::Add));
                    push_text(&mut inner, " - ");
                    if is_add_sub_exec(r) {
                        push_text(&mut inner, "\\left(");
                        append_pieces(&mut inner, node(r, Prec::Top));
                        push_text(&mut inner, "\\right)");
                    } else {
                        append_pieces(&mut inner, node(r, Prec::Add));
                    }
                    out = wrap_pieces(c > 1, inner);
                },
            }
        },
        Expr::Pow(b, x) => {
            let bp = match &**b {
                Expr::BinOp(..) | Expr::UnaryMinus(_) => true,
                _ => false,
            };
            if bp {
                push_text(&mut out, "\\left(");
                append_pieces(&mut out, node(b, Prec::Top));
                push_text(&mut out, "\\right)");
            } else {
                append_pieces(&mut out, node(b, Prec::Unary));
            }
            push_text(&mut out, "^{");
            append_pieces(&mut out, node(x, Prec::Top));
            push_text(&mut out, "}");
        },
        Expr::Call(name, args) => {
            let ghost av = exprs_view(args@);
            assert(expr@ == SExpr::Call(name@, av));
            let nargs = args.len();
            proof {
                if nargs > 0 {
                    assert(av[0] == ev(args@[0]));
                    assert(decreases_to!(expr => args@[0]));
                }
                if nargs > 1 {
                    assert(av[1] == ev(args@[1]));
                }
                if nargs > 3 {
                    assert(av[2] == ev(args@[2]));
                    assert(av[3] == ev(args@[3]));
                    assert(decreases_to!(expr => args@[2]));
                    assert(decreases_to!(expr => args@[3]));
                }
            }
            let n = name.as_str();
            if str_eq(n, "sqrt") && nargs == 1 {
                push_text(&mut out, "\\sqrt{");
                append_pieces(&mut out, node(&args[0], Prec::Top));
                push_text(&mut out, "}");
            } else if str_eq(n, "diff") && nargs == 2 {
                let v = call_var_exec(&args[1], "x");
                let id = ident(v.as_str());
                let mut t = String::from_str("\\frac{d}{d");
                t.append(id.as_str());
                t.append("} ");
                push_text(&mut out, t.as_str());
                append_pieces(&mut out, node(&args[0], Prec::Top));
            } else if str_eq(n, "integrate") && nargs == 4 {
                push_text(&mut out, "\\int_{");
                append_pieces(&mut out, node(&args[2], Prec::Top));
                push_text(&mut out, "}^{");
                append_pieces(&mut out, node(&args[3], Prec::Top));
                push_text(&mut out, "} ");
                append_pieces(&mut out, node(&args[0], Prec::Top));
                let v = call_var_exec(&args[1], "x");
                let id = ident(v.as_str());
                let mut t = String::from_str(" \\, d");
                t.append(id.as_str());
                push_text(&mut out, t.as_str());
            } else if str_eq(n, "sum") && nargs == 4 {
                let v = call_var_exec(&args[1], "k");
                let id = ident(v.as_str());
                let mut t = String::from_str("\\sum_{");
                t.append(id.as_str());
                t.append("=");
                push_text(&mut out, t.as_str());
                append_pieces(&mut out, node(&args[2], Prec::Top));
                push_text(&mut out, "}^{");
                append_pieces(&mut out, node(&args[3], Prec::Top));
                push_text(&mut out, "} ");
                append_pieces(&mut out, node(&args[0], Prec::Top));
            } else if str_eq(n, "abs") && nargs == 1 {
                push_text(&mut out, "\\left|");
                append_pieces(&mut out, node(&args[0], Prec::Top));
                push_text(&mut out, "\\right|");
            } else if (str_eq(n, "sin") || str_eq(n, "cos") || str_eq(n, "tan") || str_eq(n, "ln") || str_eq(n, "log")
                || str_eq(n, "exp")) && nargs == 1 {
                let mut t = String::from_str("\\");
                t.append(n);
                t.append("\\left(");
                push_text(&mut out, t.as_str());
                append_pieces(&mut out, node(&args[0], Prec::Top));
                push_text(&mut out, "\\right)");
            } else {
                let mut t = String::from_str("\\operatorname{");
                t.append(n);
                t.append("}\\left(");
                push_text(&mut out, t.as_str());
                let ghost head = pieces_view(out@);
                let mut k: usize = 0;
                while k < nargs
                    invariant
                        k <= nargs,
                        nargs == args@.len(),
                        pieces_view(out@) == head + lx_join(av, k as int),
                    decreases nargs - k,
                {
                    proof {
                        assert(av[k as int] == ev(args@[k as int]));
                        assert(decreases_to!(expr => args@[k as int]));
                    }
                    if k > 0 {
                        push_text(&mut out, ", ");
                    }
                    append_pieces(&mut out, node(&args[k], Prec::Top));
                    k += 1;
                    assert(pieces_view(out@) =~= head + lx_join(av, k as int));
                }
                push_text(&mut out, "\\right)");
            }
        },
    }
    assert(pieces_view(out@) =~= lx(expr@, ctx));
    out
}

/// An expression in LaTeX at top level.
pub fn expr_to_latex(expr: &Expr) -> (r: Vec<Piece>)
    ensures
        pieces_view(r@) == lx(expr@, Prec::Top),
{
    node(expr, Prec::Top)
}

}

verus! {

/// `s` with `*` written as `·`.
pub open spec fn star_to_dot(s: Seq<char>) -> Seq<char> {
    s.map_values(|c: char| if c == '*' { '\u{00B7}' } else { c })
}

/// Index of the first `^` in `s` at or after `i`.
pub open spec fn first_caret(s: Seq<char>, i: int) -> Option<int>
    decreases s.len() - i,
{
    if i < 0 || i >= s.len() {
        None
    } else if s[i] == '^' {
        Some(i)
    } else {
        first_caret(s, i + 1)
    }
}

pub proof fn lemma_first_caret(s: Seq<char>, i: int)
    requires
        0 <= i,
    ensures
        first_caret(s, i) matches Some(k) ==> i <= k < s.len(),
    decreases s.len() - i,
{
    if i < s.len() && s[i] != '^' {
        lemma_first_caret(s, i + 1);
    }
}

/// One unit token in LaTeX: upright text, with its exponent after a `^`.
pub open spec fn unit_tok_latex(t: Seq<char>) -> Seq<char> {
    if t.len() == 0 {
        Seq::empty()
    } else {
        match first_caret(t, 0) {
            Some(h) => "{\\text{"@ + t.take(h) + "}}^{"@ + t.skip(h + 1) + "}"@,
            None => "{\\text{"@ + t + "}}"@,
        }
    }
}

/// A unit in LaTeX from position `i`, with the current token `cur` and the
/// text so far `acc`: `·` separates tokens with `\cdot`; at the first `/`
/// the whole result is the fraction of the current token over the rest.
pub open spec fn latex_unit_from(s: Seq<char>, i: int, cur: Seq<char>, acc: Seq<char>) -> Seq<char>
    decreases s.len() - i,
{
    if i < 0 || i >= s.len() {
        acc + unit_tok_latex(cur)
    } else if s[i] == '\u{00B7}' {
        latex_unit_from(s, i + 1, Seq::empty(), acc + unit_tok_latex(cur) + "{\\cdot}"@)
    } else if s[i] == '/' {
        "\\frac{"@ + unit_tok_latex(cur) + "}{"@ + unit_tok_latex(s.skip(i + 1)) + "}"@
    } else {
        latex_unit_from(s, i + 1, cur.push(s[i]), acc)
    }
}

/// A unit string in LaTeX.
pub open spec fn latex_unit_spec(unit: Seq<char>) -> Seq<char> {
    latex_unit_from(star_to_dot(unit), 0, Seq::empty(), Seq::empty())
}

fn unit_tok(t: &Vec<char>) -> (r: String)
    ensures
        r@ == unit_tok_latex(t@),
{
    if t.len() == 0 {
        return String::new();
    }
    let mut h: usize = 0;
    while h < t.len() && t[h] != '^'
        invariant
            h <= t.len(),
            first_caret(t@, h as int) == first_caret(t@, 0),
        decreases t.len() - h,
    {
        h += 1;
    }
    let mut r = String::from_str("{\\text{");
    if h < t.len() {
        let base = sub_vec(t, 0, h);
        assert(base@ =~= t@.take(h as int));
        let exp = sub_vec(t, h + 1, t.len());
        assert(exp@ =~= t@.skip(h + 1));
        let bs = string_of(&base);
        r.append(bs.as_str());
        r.append("}}^{");
        let es = string_of(&exp);
        r.append(es.as_str());
        r.append("}");
    } else {
        let ts = string_of(t);
        r.append(ts.as_str());
        r.append("}}");
    }
    r
}

/// A unit string in LaTeX (see [`latex_unit_spec`]).
pub fn latex_unit(unit: &str) -> (r: String)
    ensures
        r@ == latex_unit_spec(unit@),
{
    let raw = chars_of(unit);
    let mut s: Vec<char> = Vec::new();
    let mut k: usize = 0;
    while k < raw.len()
        invariant
            k <= raw.len(),
            s@ == star_to_dot(raw@.take(k as int)),
        decreases raw.len() - k,
    {
        let c = raw[k];
        s.push(if c == '*' { '\u{00B7}' } else { c });
        k += 1;
        assert(s@ =~= star_to_dot(raw@.take(k as int)));
    }
    assert(raw@.take(raw.len() as int) =~= raw@);
    let mut result = String::new();
    let mut cur: Vec<char> = Vec::new();
    let mut i: usize = 0;
    while i < s.len()
        invariant
            i <= s.len(),
            latex_unit_from(s@, i as int, cur@, result@) == latex_unit_spec(unit@),
            s@ == star_to_dot(unit@),
        decreases s.len() - i,
    {
        let c = s[i];
        if c == '\u{00B7}' {
            let t = unit_tok(&cur);
            result.append(t.as_str());
            result.append("{\\cdot}");
            cur = Vec::new();
        } else if c == '/' {
            let n = unit_tok(&cur);
            let rest = sub_vec(&s, i + 1, s.len());
            assert(rest@ =~= s@.skip(i + 1));
            let d = unit_tok(&rest);
            let mut r = String::from_str("\\frac{");
            r.append(n.as_str());
            r.append("}{");
            r.append(d.as_str());
            r.append("}");
            return r;
        } else {
            cur.push(c);
        }
        i += 1;
    }
    let t = unit_tok(&cur);
    result.append(t.as_str());
    result
}

/// The unit after a result in LaTeX: a thick space and the unit upright.
pub open spec fn latex_unit_suffix(unit: Seq<char>) -> Seq<char> {
    if unit.len() == 0 {
        Seq::empty()
    } else {
        "\\;\\mathrm{"@ + latex_unit_spec(unit) + "}"@
    }
}

fn latex_suffix(unit: &str) -> (r: String)
    ensures
        r@ == latex_unit_suffix(unit@),
{
    if unit.is_empty() {
        String::new()
    } else {
        let mut r = String::from_str("\\;\\mathrm{");
        let u = latex_unit(unit);
        r.append(u.as_str());
        r.append("}");
        r
    }
}

/// `lhs = expr = result unit` in LaTeX; `result` is the value's display text.
pub fn assignment_to_latex(lhs: &str, expr: &Expr, result: &str, unit: &str) -> (r: Vec<Piece>)
    ensures
        pieces_view(r@) == txt(ident_spec(lhs@) + " = "@) + lx(expr@, Prec::Top) + txt(
            " = "@ + result@ + latex_unit_suffix(unit@),
        ),
{
    let mut out: Vec<Piece> = Vec::new();
    let mut head = ident(lhs);
    head.append(" = ");
    push_text(&mut out, head.as_str());
    append_pieces(&mut out, node(expr, Prec::Top));
    let mut tail = String::from_str(" = ");
    tail.append(result);
    let u = latex_suffix(unit);
    tail.append(u.as_str());
    push_text(&mut out, tail.as_str());
    out
}

/// `expr = result unit` in LaTeX.
pub fn eval_to_latex(expr: &Expr, result: &str, unit: &str) -> (r: Vec<Piece>)
    ensures
        pieces_view(r@) == lx(expr@, Prec::Top) + txt(" = "@ + result@ + latex_unit_suffix(unit@)),
{
    let mut out = node(expr, Prec::Top);
    let mut tail = String::from_str(" = ");
    tail.append(result);
    let u = latex_suffix(unit);
    tail.append(u.as_str());
    push_text(&mut out, tail.as_str());
    out
}

}

verus! {

/// `p` between `\left(` and `\right)`.
pub open spec fn lx_grouped(p: Seq<SPiece>) -> Seq<SPiece> {
    txt("\\left("@) + p + txt("\\right)"@)
}

/// Sums and differences stay grouped where they would otherwise bind
/// wrongly: the right side of a difference that is a sum or difference
/// closes the difference's LaTeX between `\left(` and `\right)`, and a sum
/// or difference as an operand of a product is grouped so at its side of
/// the product. In a context that binds tighter than a sum, a sum, a
/// difference or a product is grouped as a whole.
pub proof fn law_latex_sums_stay_grouped(l: SExpr, op: BinOp, r: SExpr, ctx: Prec)
    ensures
        ({
            let e = SExpr::BinOp(Box::new(l), op, Box::new(r));
            let m = lx(e, Prec::Top);
            let gl = lx_grouped(lx(l, Prec::Top));
            let gr = lx_grouped(lx(r, Prec::Top));
            &&& (op == BinOp::Mul || op == BinOp::Sub) && is_add_sub(r) ==> m.len() >= gr.len()
                && m.skip(m.len() - gr.len()) == gr
            &&& op == BinOp::Mul && is_add_sub(l) ==> m.len() >= gl.len() && m.take(gl.len() as int) == gl
            &&& (op == BinOp::Add || op == BinOp::Sub) && rank(ctx) > 1 ==> lx(e, ctx) == lx_grouped(m)
            &&& op == BinOp::Mul && rank(ctx) > 2 ==> lx(e, ctx) == lx_grouped(m)
            &&& op != BinOp::Div && rank(ctx) <= 1 ==> lx(e, ctx) == m
        }),
{
    let e = SExpr::BinOp(Box::new(l), op, Box::new(r));
    let m = lx(e, Prec::Top);
    let gl = lx_grouped(lx(l, Prec::Top));
    let gr = lx_grouped(lx(r, Prec::Top));
    if is_add_sub(r) {
        assert(lx(r, Prec::Mul) == gr);
        if op == BinOp::Mul || op == BinOp::Sub {
            assert(m.skip(m.len() - gr.len()) =~= gr);
        }
    }
    if is_add_sub(l) {
        assert(lx(l, Prec::Mul) == gl);
        if op == BinOp::Mul {
            assert(m.take(gl.len() as int) =~= gl);
        }
    }
}

}
