use vstd::prelude::*;
use crate::ast::{BinOp, Expr, SExpr, ev, exprs_view, is_alphabetic};
use crate::units::{exponent_at, digits_value, is_digit_char, atom_char, digits_end, sup_end, sup_digits, sup_minus, sup_digit, is_sup, lemma_digits_end, lemma_sup_end};
use crate::text::{chars_of, string_of, sub_vec, str_eq, dec_spec};

verus! {

// ───────────────────────────── Rendered pieces ─────────────────────────────

/// A piece of rendered math: text as it stands, a number literal (which
/// the caller writes in its display form), or a variable (which the caller
/// writes as its value when it has one, else as the given fallback text).
#[derive(Debug)]
pub enum Piece {
    Text(String),
    Num(String),
    Var { name: String, fallback: String },
}

/// Model of a [`Piece`].
pub enum SPiece {
    Text(Seq<char>),
    Num(Seq<char>),
    Var { name: Seq<char>, fallback: Seq<char> },
}

pub open spec fn piece_view(p: Piece) -> SPiece {
    match p {
        Piece::Text(s) => SPiece::Text(s@),
        Piece::Num(s) => SPiece::Num(s@),
        Piece::Var { name, fallback } => SPiece::Var { name: name@, fallback: fallback@ },
    }
}

pub open spec fn pieces_view(v: Seq<Piece>) -> Seq<SPiece> {
    v.map_values(|p: Piece| piece_view(p))
}

pub open spec fn txt(s: Seq<char>) -> Seq<SPiece> {
    seq![SPiece::Text(s)]
}

/// Appends text to a list of pieces.
pub fn push_text(out: &mut Vec<Piece>, s: &str)
    ensures
        pieces_view(final(out)@) == pieces_view(old(out)@) + txt(s@),
{
    let ghost before = pieces_view(out@);
    out.push(Piece::Text(String::from_str(s)));
    assert(pieces_view(out@) =~= before + txt(s@));
}

/// Appends a list of pieces to another.
pub fn append_pieces(out: &mut Vec<Piece>, mut more: Vec<Piece>)
    ensures
        pieces_view(final(out)@) == pieces_view(old(out)@) + pieces_view(more@),
{
    let ghost a = pieces_view(out@);
    let ghost b = pieces_view(more@);
    out.append(&mut more);
    assert(pieces_view(out@) =~= a + b);
}

// ───────────────────────────── Identifiers ─────────────────────────────

/// `s` is a single ASCII character (one byte in UTF-8).
pub open spec fn one_byte(s: Seq<char>) -> bool {
    s.len() == 1 && (s[0] as u32) < 128
}


pub open spec fn upright_spec(s: Seq<char>) -> Seq<char> {
    "upright(\""@ + s + "\")"@
}

/// Index of the first `_` in `s`.
pub open spec fn first_underscore(s: Seq<char>, i: int) -> Option<int>
    decreases s.len() - i,
{
    if i < 0 || i >= s.len() {
        None
    } else if s[i] == '_' {
        Some(i)
    } else {
        first_underscore(s, i + 1)
    }
}

pub proof fn lemma_first_underscore(s: Seq<char>, i: int)
    requires
        0 <= i,
    ensures
        first_underscore(s, i) matches Some(k) ==> i <= k < s.len() && s[k] == '_',
    decreases s.len() - i,
{
    if i < s.len() && s[i] != '_' {
        lemma_first_underscore(s, i + 1);
    }
}

/// A single-character name part as it is, any other upright.
pub open spec fn ident_part(s: Seq<char>) -> Seq<char> {
    if s.len() == 1 {
        s
    } else {
        upright_spec(s)
    }
}

/// How a variable name is written in Typst math: `base_sub` at the first
/// `_` with each part of other than one character upright; else a name of
/// more than one character upright; a single character as it is.
pub open spec fn typst_ident_spec(name: Seq<char>) -> Seq<char> {
    match first_underscore(name, 0) {
        Some(k) => ident_part(name.take(k)) + "_"@ + ident_part(name.skip(k + 1)),
        None => if name.len() > 1 {
            upright_spec(name)
        } else {
            name
        },
    }
}

fn upright(s: &Vec<char>) -> (r: String)
    ensures
        r@ == upright_spec(s@),
{
    let mut r = String::from_str("upright(\"");
    let t = string_of(s);
    r.append(t.as_str());
    r.append("\")");
    r
}

fn ident_part_exec(s: &Vec<char>) -> (r: String)
    ensures
        r@ == ident_part(s@),
{
    if s.len() == 1 {
        string_of(s)
    } else {
        upright(s)
    }
}

/// Writes a variable name for Typst math (see [`typst_ident_spec`]).
pub fn typst_ident(name: &str) -> (r: String)
    ensures
        r@ == typst_ident_spec(name@),
{
    let s = chars_of(name);
    let mut k: usize = 0;
    while k < s.len() && s[k] != '_'
        invariant
            k <= s.len(),
            first_underscore(s@, k as int) == first_underscore(s@, 0),
        decreases s.len() - k,
    {
        k += 1;
    }
    if k < s.len() {
        let base = sub_vec(&s, 0, k);
        assert(base@ =~= s@.take(k as int));
        let sub = sub_vec(&s, k + 1, s.len());
        assert(sub@ =~= s@.skip(k + 1));
        let mut r = ident_part_exec(&base);
        r.append("_");
        let st = ident_part_exec(&sub);
        r.append(st.as_str());
        r
    } else if s.len() > 1 {
        upright(&s)
    } else {
        string_of(&s)
    }
}

}

verus! {

// ───────────────────────────── Units ─────────────────────────────

/// The Typst text of the exponent written after a unit atom at `i` (empty
/// for the first power), and the position after it.
pub open spec fn typst_exp_at(s: Seq<char>, i: int) -> (Seq<char>, int) {
    if 0 <= i < s.len() && s[i] == '^' {
        let j = i + 1;
        let neg = j < s.len() && s[j] == '-';
        let k = if neg { j + 1 } else { j };
        let e = digits_end(s, k);
        let ds = s.subrange(k, e);
        if ds.len() == 0 {
            // a bare `^` is the first power, a bare `^-` the minus first
            (if neg { "(-1)"@ } else { Seq::empty() }, e)
        } else {
            (if neg { "(-"@ + ds + ")"@ } else { ds }, e)
        }
    } else {
        let e = sup_end(s, i);
        let ds = sup_digits(s, i, e);
        if ds.len() == 0 {
            (Seq::empty(), e)
        } else {
            (if sup_minus(s, i, e) { "(-"@ + ds + ")"@ } else { ds }, e)
        }
    }
}

pub proof fn lemma_typst_exp_at(s: Seq<char>, i: int)
    requires
        0 <= i <= s.len(),
    ensures
        i <= typst_exp_at(s, i).1 <= s.len(),
{
    if i < s.len() && s[i] == '^' {
        let j = i + 1;
        let neg = j < s.len() && s[j] == '-';
        let k = if neg { j + 1 } else { j };
        lemma_digits_end(s, k);
    } else {
        lemma_sup_end(s, i);
    }
}

/// A unit written for Typst math from position `i`: each atom upright with
/// its exponent, `·` (or `*`, `⋅`) as a thin space, `/` as it is; blanks
/// and other characters dropped.
pub open spec fn unit_typst_from(s: Seq<char>, i: int) -> Seq<char>
    decreases s.len() - i,
{
    if i < 0 || i >= s.len() {
        Seq::empty()
    } else {
        let c = s[i];
        if crate::units::is_unit_mul(c) {
            " thin "@ + unit_typst_from(s, i + 1)
        } else if c == '/' {
            "/"@ + unit_typst_from(s, i + 1)
        } else if c == ' ' || c == '\t' {
            unit_typst_from(s, i + 1)
        } else if atom_char(c) {
            let ne = crate::units::atom_end(s, i + 1);
            proof {
                crate::units::lemma_atom_end(s, i + 1);
                lemma_typst_exp_at(s, ne);
            }
            let (x, j) = typst_exp_at(s, ne);
            let atom = upright_spec(s.subrange(i, ne));
            (if x.len() == 0 { atom } else { atom + "^"@ + x }) + unit_typst_from(s, j)
        } else {
            unit_typst_from(s, i + 1)
        }
    }
}

/// The Typst text of the exponent after a unit atom at `i` (see [`typst_exp_at`]).
fn collect_typst_exp(ch: &Vec<char>, i: usize) -> (r: (Vec<char>, usize))
    requires
        i <= ch@.len(),
    ensures
        (r.0@, r.1 as int) == typst_exp_at(ch@, i as int),
{
    let n = ch.len();
    if i < n && ch[i] == '^' {
        let j = i + 1;
        let neg = j < n && ch[j] == '-';
        let k = if neg { j + 1 } else { j };
        let mut e = k;
        while e < n && '0' <= ch[e] && ch[e] <= '9'
            invariant
                k <= e <= n,
                n == ch@.len(),
                digits_end(ch@, e as int) == digits_end(ch@, k as int),
            decreases n - e,
        {
            e += 1;
        }
        let ds = sub_vec(ch, k, e);
        if ds.len() == 0 {
            if neg {
                let mut v: Vec<char> = Vec::new();
                v.push('(');
                v.push('-');
                v.push('1');
                v.push(')');
                proof {
                    reveal_strlit("(-1)");
                }
                assert(v@ =~= "(-1)"@);
                return (v, e);
            }
            return (Vec::new(), e);
        }
        if neg {
            let mut v: Vec<char> = Vec::new();
            v.push('(');
            v.push('-');
            let mut d2 = ds;
            v.append(&mut d2);
            v.push(')');
            proof {
                reveal_strlit("(-");
                reveal_strlit(")");
            }
            assert(v@ =~= "(-"@ + ds@ + ")"@);
            (v, e)
        } else {
            (ds, e)
        }
    } else {
        let mut e = i;
        let mut ds: Vec<char> = Vec::new();
        let mut neg = false;
        while e < n && (ch[e] == '\u{207B}' || crate::units::sup_digit_exec(ch[e]).is_some())
            invariant
                i <= e <= n,
                n == ch@.len(),
                sup_end(ch@, e as int) == sup_end(ch@, i as int),
                ds@ == sup_digits(ch@, i as int, e as int),
                neg == sup_minus(ch@, i as int, e as int),
            decreases n - e,
        {
            let c = ch[e];
            if c == '\u{207B}' {
                neg = true;
            }
            match crate::units::sup_digit_exec(c) {
                Some(d) => {
                    ds.push(d);
                },
                None => {},
            }
            e += 1;
            assert(ds@ =~= sup_digits(ch@, i as int, e as int));
        }
        if ds.len() == 0 {
            return (Vec::new(), e);
        }
        if neg {
            let mut v: Vec<char> = Vec::new();
            v.push('(');
            v.push('-');
            let ghost dv = ds@;
            let mut d2 = ds;
            v.append(&mut d2);
            v.push(')');
            proof {
                reveal_strlit("(-");
                reveal_strlit(")");
            }
            assert(v@ =~= "(-"@ + dv + ")"@);
            (v, e)
        } else {
            (ds, e)
        }
    }
}

/// Writes a unit string for Typst math (see [`unit_typst_from`]).
pub fn format_unit_typst(unit: &str) -> (r: String)
    ensures
        r@ == unit_typst_from(unit@, 0),
{
    let s = chars_of(unit);
    let n = s.len();
    let mut result = String::new();
    let mut i: usize = 0;
    while i < n
        invariant
            i <= n,
            n == s@.len(),
            unit_typst_from(s@, 0) == result@ + unit_typst_from(s@, i as int),
        decreases n - i,
    {
        let c = s[i];
        let ghost before = result@;
        if c == '\u{00B7}' || c == '*' || c == '\u{22C5}' {
            result.append(" thin ");
            assert(before + (" thin "@ + unit_typst_from(s@, i + 1)) =~= result@ + unit_typst_from(s@, i + 1));
            i += 1;
        } else if c == '/' {
            result.append("/");
            assert(before + ("/"@ + unit_typst_from(s@, i + 1)) =~= result@ + unit_typst_from(s@, i + 1));
            i += 1;
        } else if c == ' ' || c == '\t' {
            i += 1;
        } else if is_alphabetic(c) || c == '%' {
            let mut e = i + 1;
            while e < n && (is_alphabetic(s[e]) || s[e] == '%')
                invariant
                    i < e <= n,
                    n == s@.len(),
                    crate::units::atom_end(s@, e as int) == crate::units::atom_end(s@, i + 1),
                decreases n - e,
            {
                e += 1;
            }
            proof {
                crate::units::lemma_atom_end(s@, i + 1);
                lemma_typst_exp_at(s@, e as int);
            }
            let name = sub_vec(&s, i, e);
            let (x, j) = collect_typst_exp(&s, e);
            let atom = upright(&name);
            result.append(atom.as_str());
            if x.len() > 0 {
                result.append("^");
                let xs = string_of(&x);
                result.append(xs.as_str());
            }
            let ghost a = if x@.len() == 0 { upright_spec(name@) } else { upright_spec(name@) + "^"@ + x@ };
            assert(result@ =~= before + a);
            assert(before + (a + unit_typst_from(s@, j as int)) =~= result@ + unit_typst_from(s@, j as int));
            i = j;
        } else {
            i += 1;
        }
    }
    assert(result@ + unit_typst_from(s@, n as int) =~= result@);
    result
}

}

verus! {

// ───────────────────────────── Expressions ─────────────────────────────

/// Text before and after the argument of the one-argument functions that
/// Typst writes in their own way.
pub open spec fn fn1_typst(name: Seq<char>) -> Option<(Seq<char>, Seq<char>)> {
    if name == "sqrt"@ {
        Some(("sqrt("@, ")"@))
    } else if name == "sin"@ {
        Some(("sin("@, ")"@))
    } else if name == "cos"@ {
        Some(("cos("@, ")"@))
    } else if name == "tan"@ {
        Some(("tan("@, ")"@))
    } else if name == "abs"@ {
        Some(("|"@, "|"@))
    } else if name == "ln"@ {
        Some(("ln("@, ")"@))
    } else if name == "log"@ {
        Some(("log("@, ")"@))
    } else if name == "exp"@ {
        Some(("e^("@, ")"@))
    } else if name == "asin"@ {
        Some(("arcsin("@, ")"@))
    } else if name == "acos"@ {
        Some(("arccos("@, ")"@))
    } else if name == "atan"@ {
        Some(("arctan("@, ")"@))
    } else if name == "ceil"@ {
        Some(("ceil("@, ")"@))
    } else if name == "floor"@ {
        Some(("floor("@, ")"@))
    } else {
        None
    }
}

/// The variable of a calculus call: its Typst name, or `?`.
pub open spec fn var_typst(a: SExpr) -> Seq<char> {
    if a is Var {
        typst_ident_spec(a->Var_0)
    } else {
        "?"@
    }
}

/// An expression as Typst math. With `sub`, variables are left for the
/// caller to replace by their values.
pub open spec fn tp(e: SExpr, sub: bool) -> Seq<SPiece>
    decreases e, 0int,
{
    match e {
        SExpr::Num(t) => seq![SPiece::Num(t)],
        SExpr::Var(n) => if sub {
            seq![SPiece::Var { name: n, fallback: typst_ident_spec(n) }]
        } else {
            txt(typst_ident_spec(n))
        },
        SExpr::UnaryMinus(a) => txt("(-"@) + tp(*a, sub) + txt(")"@),
        SExpr::BinOp(l, op, r) => match op {
            BinOp::Add => tp(*l, sub) + txt(" + "@) + tp(*r, sub),
            BinOp::Sub => tp(*l, sub) + txt(" - "@) + tp(*r, sub),
            BinOp::Mul => tp(*l, sub) + txt(" dot.op "@) + tp(*r, sub),
            BinOp::Div => txt("("@) + tp(*l, sub) + txt(")/("@) + tp(*r, sub) + txt(")"@),
        },
        SExpr::Pow(b, x) => tp(*b, sub) + txt("^("@) + tp(*x, sub) + txt(")"@),
        SExpr::Call(name, args) => if name == "diff"@ && args.len() == 2 {
            txt("(d "@) + tp(args[0], sub) + txt(")/(d "@ + var_typst(args[1]) + ")"@)
        } else if name == "integrate"@ && args.len() == 4 {
            txt("integral_("@) + tp(args[2], sub) + txt(")^("@) + tp(args[3], sub) + txt(") "@)
                + tp(args[0], sub) + txt(" thin d "@ + var_typst(args[1]))
        } else if name == "sum"@ && args.len() == 4 {
            txt("sum_("@ + var_typst(args[1]) + "="@) + tp(args[2], sub) + txt(")^("@) + tp(
                args[3],
                sub,
            ) + txt(") "@) + tp(args[0], sub)
        } else if args.len() == 1 && fn1_typst(name) is Some {
            txt(fn1_typst(name)->Some_0.0) + tp(args[0], sub) + txt(fn1_typst(name)->Some_0.1)
        } else {
            txt(name + "("@) + tp_join(args, sub, args.len() as int) + txt(")"@)
        },
    }
}

/// The first `n` arguments as Typst math, separated by `, `.
pub open spec fn tp_join(args: Seq<SExpr>, sub: bool, n: int) -> Seq<SPiece>
    decreases args, n,
{
    if n <= 0 || n > args.len() {
        Seq::empty()
    } else if n == 1 {
        tp(args[0], sub)
    } else {
        tp_join(args, sub, n - 1) + txt(", "@) + tp(args[n - 1], sub)
    }
}

fn fn1_typst_exec(name: &str) -> (r: Option<(&'static str, &'static str)>)
    ensures
        match fn1_typst(name@) {
            Some(p) => r is Some && r->Some_0.0@ == p.0 && r->Some_0.1@ == p.1,
            None => r is None,
        },
{
    if str_eq(name, "sqrt") {
        Some(("sqrt(", ")"))
    } else if str_eq(name, "sin") {
        Some(("sin(", ")"))
    } else if str_eq(name, "cos") {
        Some(("cos(", ")"))
    } else if str_eq(name, "tan") {
        Some(("tan(", ")"))
    } else if str_eq(name, "abs") {
        Some(("|", "|"))
    } else if str_eq(name, "ln") {
        Some(("ln(", ")"))
    } else if str_eq(name, "log") {
        Some(("log(", ")"))
    } else if str_eq(name, "exp") {
        Some(("e^(", ")"))
    } else if str_eq(name, "asin") {
        Some(("arcsin(", ")"))
    } else if str_eq(name, "acos") {
        Some(("arccos(", ")"))
    } else if str_eq(name, "atan") {
        Some(("arctan(", ")"))
    } else if str_eq(name, "ceil") {
        Some(("ceil(", ")"))
    } else if str_eq(name, "floor") {
        Some(("floor(", ")"))
    } else {
        None
    }
}

fn var_typst_exec(a: &Expr) -> (r: String)
    ensures
        r@ == var_typst(a@),
{
    match a {
        Expr::Var(v) => typst_ident(v.as_str()),
        _ => String::from_str("?"),
    }
}

fn cat3(a: &str, b: &str, c: &str) -> (r: String)
    ensures
        r@ == a@ + b@ + c@,
{
    let mut r = String::from_str(a);
    r.append(b);
    r.append(c);
    r
}

/// An expression as Typst math pieces (see [`tp`]).
#[verifier::loop_isolation(false)]
#[verifier::spinoff_prover]
#[verifier::rlimit(50)]
pub fn typst_expr(expr: &Expr, sub: bool) -> (r: Vec<Piece>)
    ensures
        pieces_view(r@) == tp(expr@, sub),
    decreases expr,
{
    let mut out: Vec<Piece> = Vec::new();
    match expr {
        Expr::Num(t) => {
            out.push(Piece::Num(t.clone()));
            assert(pieces_view(out@) =~= seq![SPiece::Num(t@)]);
        },
        Expr::Var(n) => {
            let id = typst_ident(n.as_str());
            if sub {
                out.push(Piece::Var { name: n.clone(), fallback: id });
                assert(pieces_view(out@) =~= seq![SPiece::Var { name: n@, fallback: typst_ident_spec(n@) }]);
            } else {
                push_text(&mut out, id.as_str());
                assert(pieces_view(out@) =~= txt(typst_ident_spec(n@)));
            }
        },
        Expr::UnaryMinus(a) => {
            push_text(&mut out, "(-");
            append_pieces(&mut out, typst_expr(a, sub));
            push_text(&mut out, ")");
            assert(pieces_view(out@) =~= tp(expr@, sub));
        },
        Expr::BinOp(l, op, r) => {
            match op {
                BinOp::Div => {
                    push_text(&mut out, "(");
                    append_pieces(&mut out, typst_expr(l, sub));
                    push_text(&mut out, ")/(");
                    append_pieces(&mut out, typst_expr(r, sub));
                    push_text(&mut out, ")");
                },
                _ => {
                    append_pieces(&mut out, typst_expr(l, sub));
                    let o = match op {
                        BinOp::Add => " + ",
                        BinOp::Sub => " - ",
                        _ => " dot.op ",
                    };
                    push_text(&mut out, o);
                    append_pieces(&mut out, typst_expr(r, sub));
                },
            }
            assert(pieces_view(out@) =~= tp(expr@, sub));
        },
        Expr::Pow(b, x) => {
            append_pieces(&mut out, typst_expr(b, sub));
            push_text(&mut out, "^(");
            append_pieces(&mut out, typst_expr(x, sub));
            push_text(&mut out, ")");
            assert(pieces_view(out@) =~= tp(expr@, sub));
        },
        Expr::Call(name, args) => {
            let ghost av = exprs_view(args@);
            assert(expr@ == SExpr::Call(name@, av));
            let nargs = args.len();
            proof {
                if nargs > 0 {
                    assert(av[0] == ev(args@[0]));
                    assert(decreases_to!(expr => args@[0]));
                }
                if nargs > 1 {
                    assert(av[1] == ev(args@[1]));
                }
                if nargs > 3 {
                    assert(av[2] == ev(args@[2]));
                    assert(av[3] == ev(args@[3]));
                    assert(decreases_to!(expr => args@[2]));
                    assert(decreases_to!(expr => args@[3]));
                }
            }
            if str_eq(name.as_str(), "diff") && nargs == 2 {
                push_text(&mut out, "(d ");
                append_pieces(&mut out, typst_expr(&args[0], sub));
                let v = var_typst_exec(&args[1]);
                let t = cat3(")/(d ", v.as_str(), ")");
                push_text(&mut out, t.as_str());
                assert(pieces_view(out@) =~= tp(expr@, sub));
            } else if str_eq(name.as_str(), "integrate") && nargs == 4 {
                push_text(&mut out, "integral_(");
                append_pieces(&mut out, typst_expr(&args[2], sub));
                push_text(&mut out, ")^(");
                append_pieces(&mut out, typst_expr(&args[3], sub));
                push_text(&mut out, ") ");
                append_pieces(&mut out, typst_expr(&args[0], sub));
                let v = var_typst_exec(&args[1]);
                let t = cat3(" thin d ", v.as_str(), "");
                proof {
                    reveal_strlit("");
                }
                assert(t@ =~= " thin d "@ + var_typst(av[1]));
                push_text(&mut out, t.as_str());
                assert(pieces_view(out@) =~= tp(expr@, sub));
            } else if str_eq(name.as_str(), "sum") && nargs == 4 {
                let v = var_typst_exec(&args[1]);
                let t = cat3("sum_(", v.as_str(), "=");
                push_text(&mut out, t.as_str());
                append_pieces(&mut out, typst_expr(&args[2], sub));
                push_text(&mut out, ")^(");
                append_pieces(&mut out, typst_expr(&args[3], sub));
                push_text(&mut out, ") ");
                append_pieces(&mut out, typst_expr(&args[0], sub));
                assert(pieces_view(out@) =~= tp(expr@, sub));
            } else {
                let f1 = if nargs == 1 { fn1_typst_exec(name.as_str()) } else { None };
                match f1 {
                    Some((pre, post)) => {
                        push_text(&mut out, pre);
                        append_pieces(&mut out, typst_expr(&args[0], sub));
                        push_text(&mut out, post);
                        assert(pieces_view(out@) =~= tp(expr@, sub));
                    },
                    None => {
                        let t = cat3(name.as_str(), "(", "");
                        proof {
                            reveal_strlit("");
                        }
                        assert(t@ =~= name@ + "("@);
                        push_text(&mut out, t.as_str());
                        let ghost head = pieces_view(out@);
                        let mut k: usize = 0;
                        while k < nargs
                            invariant
                                k <= nargs,
                                nargs == args@.len(),
                                pieces_view(out@) == head + tp_join(av, sub, k as int),
                            decreases nargs - k,
                        {
                            proof {
                                assert(av[k as int] == ev(args@[k as int]));
                                assert(decreases_to!(expr => args@[k as int]));
                            }
                            if k > 0 {
                                push_text(&mut out, ", ");
                            }
                            append_pieces(&mut out, typst_expr(&args[k], sub));
                            k += 1;
                            assert(pieces_view(out@) =~= head + tp_join(av, sub, k as int));
                        }
                        push_text(&mut out, ")");
                        assert(pieces_view(out@) =~= tp(expr@, sub));
                    },
                }
            }
        },
    }
    out
}

/// An expression as Typst math with its variables by name.
pub fn to_typst_sym(expr: &Expr) -> (r: Vec<Piece>)
    ensures
        pieces_view(r@) == tp(expr@, false),
{
    typst_expr(expr, false)
}

/// An expression as Typst math with its variables left to be replaced by
/// their values.
pub fn to_typst_sub(expr: &Expr) -> (r: Vec<Piece>)
    ensures
        pieces_view(r@) == tp(expr@, true),
{
    typst_expr(expr, true)
}

}

verus! {

// ───────────────────────────── Math lines ─────────────────────────────

/// The unit after a result: a thin space and the unit, or nothing.
pub open spec fn unit_suffix(unit: Seq<char>) -> Seq<char> {
    if unit.len() == 0 {
        Seq::empty()
    } else {
        " thin "@ + unit_typst_from(unit, 0)
    }
}

/// The Typst math of an assignment: the variable, then the expression by
/// name, then with values (when that reads differently), then the result
/// with its unit. A bare number shows only its result.
pub open spec fn typst_line_spec(
    lhs: Seq<char>,
    is_num: bool,
    sym: Seq<char>,
    sub: Seq<char>,
    result: Seq<char>,
    unit: Seq<char>,
) -> Seq<char> {
    let tail = result + unit_suffix(unit);
    let lhs_t = typst_ident_spec(lhs);
    if is_num {
        lhs_t + " &= "@ + tail
    } else if sym == sub {
        lhs_t + " &= "@ + sym + " &= "@ + tail
    } else {
        lhs_t + " &= "@ + sym + " &= "@ + sub + " &= "@ + tail
    }
}

/// The Typst math of a bare expression (see [`typst_line_spec`]).
pub open spec fn typst_eval_spec(is_num: bool, sym: Seq<char>, sub: Seq<char>, result: Seq<char>, unit: Seq<char>) -> Seq<char> {
    let tail = result + unit_suffix(unit);
    if is_num {
        tail
    } else if sym == sub {
        sym + " &= "@ + tail
    } else {
        sym + " &= "@ + sub + " &= "@ + tail
    }
}

fn unit_suffix_exec(unit: &str) -> (r: String)
    ensures
        r@ == unit_suffix(unit@),
{
    if unit.is_empty() {
        String::new()
    } else {
        let mut r = String::from_str(" thin ");
        let u = format_unit_typst(unit);
        r.append(u.as_str());
        r
    }
}

/// Typst math for an assignment line. `sym` and `sub` are the expression
/// written by name and with values, `result` the result's display text.
pub fn build_typst_line(lhs: &str, expr: &Expr, sym: &str, sub: &str, result: &str, unit: &str) -> (r: String)
    ensures
        r@ == typst_line_spec(lhs@, expr@ is Num, sym@, sub@, result@, unit@),
{
    let u = unit_suffix_exec(unit);
    let mut r = typst_ident(lhs);
    r.append(" &= ");
    let is_num = match expr {
        Expr::Num(_) => true,
        _ => false,
    };
    if !is_num {
        r.append(sym);
        r.append(" &= ");
        if !str_eq(sym, sub) {
            r.append(sub);
            r.append(" &= ");
        }
    }
    r.append(result);
    r.append(u.as_str());
    assert(r@ =~= typst_line_spec(lhs@, expr@ is Num, sym@, sub@, result@, unit@));
    r
}

/// Typst math for a bare expression line (see [`typst_eval_spec`]).
pub fn build_typst_eval(expr: &Expr, sym: &str, sub: &str, result: &str, unit: &str) -> (r: String)
    ensures
        r@ == typst_eval_spec(expr@ is Num, sym@, sub@, result@, unit@),
{
    let u = unit_suffix_exec(unit);
    let mut r = String::new();
    let is_num = match expr {
        Expr::Num(_) => true,
        _ => false,
    };
    if !is_num {
        r.append(sym);
        r.append(" &= ");
        if !str_eq(sym, sub) {
            r.append(sub);
            r.append(" &= ");
        }
    }
    r.append(result);
    r.append(u.as_str());
    assert(r@ =~= typst_eval_spec(expr@ is Num, sym@, sub@, result@, unit@));
    r
}

/// A complete Typst document for one math line.
pub open spec fn wrap_typst_spec(math: Seq<char>) -> Seq<char> {
    "#set page(width: auto, height: auto, margin: (x: 8pt, y: 4pt))\n#set text(size: 14pt)\n$ "@ + math + " $"@
}

/// Wraps a math line into a complete Typst document.
pub fn wrap_typst(math: &str) -> (r: String)
    ensures
        r@ == wrap_typst_spec(math@),
{
    let mut r = String::from_str("#set page(width: auto, height: auto, margin: (x: 8pt, y: 4pt))\n#set text(size: 14pt)\n$ ");
    r.append(math);
    r.append(" $");
    r
}

}

verus! {

/// The digits of the exponent written after a unit atom at `i`.
pub open spec fn exp_digits(s: Seq<char>, i: int) -> Seq<char> {
    if 0 <= i < s.len() && s[i] == '^' {
        let j = i + 1;
        let k = if j < s.len() && s[j] == '-' { j + 1 } else { j };
        s.subrange(k, digits_end(s, k))
    } else {
        sup_digits(s, i, sup_end(s, i))
    }
}

/// Decimal digits without a leading zero (but `0` itself).
pub open spec fn no_leading_zero(ds: Seq<char>) -> bool {
    ds.len() <= 1 || ds[0] != '0'
}

proof fn lemma_sup_digits_are_digits(s: Seq<char>, i: int, e: int)
    ensures
        forall|q: int| 0 <= q < sup_digits(s, i, e).len() ==> is_digit_char(#[trigger] sup_digits(s, i, e)[q]),
    decreases e - i,
{
    if i < e {
        lemma_sup_digits_are_digits(s, i, e - 1);
        let p = sup_digits(s, i, e - 1);
        let t = sup_digits(s, i, e);
        assert forall|q: int| 0 <= q < t.len() implies is_digit_char(#[trigger] t[q]) by {
            if q < p.len() {
                assert(t[q] == p[q]);
            }
        }
    }
}

proof fn lemma_digits_value_nonneg(ds: Seq<char>)
    requires
        forall|q: int| 0 <= q < ds.len() ==> is_digit_char(#[trigger] ds[q]),
    ensures
        digits_value(ds) >= 0,
        ds.len() > 0 && ds[0] != '0' ==> digits_value(ds) >= 1,
    decreases ds.len(),
{
    if ds.len() > 0 {
        let p = ds.drop_last();
        assert forall|q: int| 0 <= q < p.len() implies is_digit_char(#[trigger] p[q]) by {
            assert(p[q] == ds[q]);
        }
        lemma_digits_value_nonneg(p);
        assert(is_digit_char(ds.last()));
        if ds.len() > 1 {
            assert(p[0] == ds[0]);
        }
    }
}

/// Digits without a leading zero are the decimal text of their value.
proof fn lemma_dec_of_digits(ds: Seq<char>)
    requires
        ds.len() > 0,
        no_leading_zero(ds),
        forall|q: int| 0 <= q < ds.len() ==> is_digit_char(#[trigger] ds[q]),
    ensures
        digits_value(ds) >= 0,
        dec_spec(digits_value(ds) as nat) == ds,
    decreases ds.len(),
{
    lemma_digits_value_nonneg(ds);
    let d = ds.last();
    assert(is_digit_char(d));
    let dv = d as int - '0' as int;
    assert(((dv + '0' as nat) as char) == d);
    if ds.len() == 1 {
        assert(ds.drop_last() =~= Seq::<char>::empty());
        assert(digits_value(ds.drop_last()) == 0);
        assert(digits_value(ds) == dv);
        assert(0 <= dv < 10);
        assert(dec_spec(dv as nat) == seq![((dv as nat) + '0' as nat) as char]);
        assert(ds =~= seq![d]);
    } else {
        let p = ds.drop_last();
        assert forall|q: int| 0 <= q < p.len() implies is_digit_char(#[trigger] p[q]) by {
            assert(p[q] == ds[q]);
        }
        assert(p[0] == ds[0]);
        lemma_dec_of_digits(p);
        lemma_digits_value_nonneg(p);
        let v = digits_value(ds);
        let pv = digits_value(p);
        assert(v == pv * 10 + dv);
        assert(v / 10 == pv && v % 10 == dv);
        assert(v >= 10);
        assert(dec_spec(v as nat) =~= dec_spec(pv as nat) + seq![d]);
        assert(p.push(d) =~= ds);
    }
}

/// The exponent text of a unit atom agrees with the exponent that
/// [`crate::units::parse_exponent`] reads there (its contract is
/// [`exponent_at`]): both end at the same position, an empty text stands
/// only for the first power, and any other text writes that exponent in
/// decimal, in `(-…)` when the sign is written (where the digits have no
/// leading zero and fit in an `i32`).
pub proof fn law_exponent_text_agrees(s: Seq<char>, i: int)
    requires
        0 <= i <= s.len(),
    ensures
        typst_exp_at(s, i).1 == exponent_at(s, i).1,
        typst_exp_at(s, i).0.len() == 0 ==> exponent_at(s, i).0 == 1,
        typst_exp_at(s, i).0.len() > 0 && (exp_digits(s, i).len() == 0 || (no_leading_zero(exp_digits(s, i))
            && digits_value(exp_digits(s, i)) <= i32::MAX)) ==> {
            let n = exponent_at(s, i).0;
            let t = typst_exp_at(s, i).0;
            ||| n >= 0 && t == dec_spec(n as nat)
            ||| n <= 0 && t == "(-"@ + dec_spec((-n) as nat) + ")"@
        },
{
    reveal_strlit("(-1)");
    reveal_strlit("(-");
    reveal_strlit(")");
    let ds = exp_digits(s, i);
    if i < s.len() && s[i] == '^' {
        let j = i + 1;
        let k = if j < s.len() && s[j] == '-' { j + 1 } else { j };
        lemma_digits_end(s, k);
        assert forall|q: int| 0 <= q < ds.len() implies is_digit_char(#[trigger] ds[q]) by {
            assert(ds[q] == s[k + q]);
        }
    } else {
        lemma_sup_end(s, i);
        lemma_sup_digits_are_digits(s, i, sup_end(s, i));
    }
    if ds.len() == 0 {
        assert(dec_spec(1) =~= seq!['1']);
        assert("(-"@ + seq!['1'] + ")"@ =~= "(-1)"@);
    } else if no_leading_zero(ds) && digits_value(ds) <= i32::MAX {
        lemma_dec_of_digits(ds);
    }
}

}
