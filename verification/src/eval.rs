use vstd::prelude::*;
use crate::ast::{BinOp, Expr, SExpr, ev, exprs_view, clone_expr};
use crate::text::str_eq;
use crate::units::Dim;

verus! {

// ───────────────────────────── Variables of an expression ─────────────────────────────

/// `e` mentions the variable `v`.
pub open spec fn mentions(e: SExpr, v: Seq<char>) -> bool
    decreases e, 0int,
{
    match e {
        SExpr::Var(x) => x == v,
        SExpr::Num(_) => false,
        SExpr::UnaryMinus(a) => mentions(*a, v),
        SExpr::BinOp(l, _, r) => mentions(*l, v) || mentions(*r, v),
        SExpr::Pow(b, x) => mentions(*b, v) || mentions(*x, v),
        SExpr::Call(_, args) => mentions_any(args, v, args.len() as int),
    }
}

/// One of the first `n` expressions of `args` mentions `v`.
pub open spec fn mentions_any(args: Seq<SExpr>, v: Seq<char>, n: int) -> bool
    decreases args, n,
{
    if n <= 0 || n > args.len() {
        false
    } else {
        mentions_any(args, v, n - 1) || mentions(args[n - 1], v)
    }
}

/// If one expression among the first `n` mentions `v`, then `mentions_any` holds.
pub proof fn lemma_mentions_any(args: Seq<SExpr>, v: Seq<char>, i: int, n: int)
    requires
        0 <= i < n <= args.len(),
        mentions(args[i], v),
    ensures
        mentions_any(args, v, n),
    decreases n,
{
    if i < n - 1 {
        lemma_mentions_any(args, v, i, n - 1);
    }
}

/// Whether `expr` mentions the variable `var`.
#[verifier::loop_isolation(false)]
pub fn contains_var(expr: &Expr, var: &str) -> (b: bool)
    ensures
        b == mentions(expr@, var@),
    decreases expr,
{
    match expr {
        Expr::Var(v) => str_eq(v.as_str(), var),
        Expr::Num(_) => false,
        Expr::UnaryMinus(e) => contains_var(e, var),
        Expr::BinOp(l, _, r) => contains_var(l, var) || contains_var(r, var),
        Expr::Pow(b, e) => contains_var(b, var) || contains_var(e, var),
        Expr::Call(n, args) => {
            assert(expr@ == SExpr::Call(n@, exprs_view(args@)));
            let mut i: usize = 0;
            while i < args.len()
                invariant
                    i <= args.len(),
                    !mentions_any(exprs_view(args@), var@, i as int),
                decreases args.len() - i,
            {
                proof {
                    assert(decreases_to!(expr => args@[i as int]));
                }
                if contains_var(&args[i], var) {
                    assert(exprs_view(args@)[i as int] == ev(args@[i as int]));
                    assert(mentions(exprs_view(args@)[i as int], var@));
                    proof {
                        lemma_mentions_any(exprs_view(args@), var@, i as int, args@.len() as int);
                    }
                    return true;
                }
                i += 1;
            }
            false
        },
    }
}

}

verus! {

// ───────────────────────────── Symbolic differentiation ─────────────────────────────

pub open spec fn s_num(t: Seq<char>) -> SExpr {
    SExpr::Num(t)
}

pub open spec fn s_bin(a: SExpr, op: BinOp, b: SExpr) -> SExpr {
    SExpr::BinOp(Box::new(a), op, Box::new(b))
}

pub open spec fn s_pow(a: SExpr, b: SExpr) -> SExpr {
    SExpr::Pow(Box::new(a), Box::new(b))
}

pub open spec fn s_call1(n: Seq<char>, a: SExpr) -> SExpr {
    SExpr::Call(n, seq![a])
}

pub open spec fn s_neg(a: SExpr) -> SExpr {
    SExpr::UnaryMinus(Box::new(a))
}

/// `1 / sqrt(1 - u^2)`
pub open spec fn s_inv_sqrt_one_minus_sq(u: SExpr) -> SExpr {
    s_bin(s_num("1"@), BinOp::Div, s_call1("sqrt"@, s_bin(s_num("1"@), BinOp::Sub, s_pow(u, s_num("2"@)))))
}

/// Derivative of the named one-argument function at `u` (chain rule factor),
/// for the functions that have a rule.
pub open spec fn outer_deriv(name: Seq<char>, u: SExpr) -> Option<SExpr> {
    if name == "sin"@ {
        Some(s_call1("cos"@, u))
    } else if name == "cos"@ {
        Some(s_neg(s_call1("sin"@, u)))
    } else if name == "tan"@ {
        Some(s_bin(s_num("1"@), BinOp::Div, s_pow(s_call1("cos"@, u), s_num("2"@))))
    } else if name == "sqrt"@ {
        Some(s_bin(s_num("1"@), BinOp::Div, s_bin(s_num("2"@), BinOp::Mul, s_call1("sqrt"@, u))))
    } else if name == "ln"@ {
        Some(s_bin(s_num("1"@), BinOp::Div, u))
    } else if name == "log"@ {
        Some(s_bin(s_num("1"@), BinOp::Div, s_bin(u, BinOp::Mul, s_call1("ln"@, s_num("10"@)))))
    } else if name == "exp"@ {
        Some(s_call1("exp"@, u))
    } else if name == "asin"@ {
        Some(s_inv_sqrt_one_minus_sq(u))
    } else if name == "acos"@ {
        Some(s_neg(s_inv_sqrt_one_minus_sq(u)))
    } else if name == "atan"@ {
        Some(s_bin(s_num("1"@), BinOp::Div, s_bin(s_num("1"@), BinOp::Add, s_pow(u, s_num("2"@)))))
    } else if name == "abs"@ {
        Some(s_bin(u, BinOp::Div, s_call1("abs"@, u)))
    } else {
        None
    }
}

/// The derivative of `e` with respect to `v`, by the rules of calculus.
/// A call without a rule differentiates to the number `NaN`.
pub open spec fn diff_spec(e: SExpr, v: Seq<char>) -> SExpr
    decreases e,
{
    match e {
        SExpr::Num(_) => s_num("0"@),
        SExpr::Var(x) => if x == v { s_num("1"@) } else { s_num("0"@) },
        SExpr::UnaryMinus(a) => s_neg(diff_spec(*a, v)),
        SExpr::BinOp(l, op, r) => {
            let dl = diff_spec(*l, v);
            let dr = diff_spec(*r, v);
            match op {
                BinOp::Add => s_bin(dl, BinOp::Add, dr),
                BinOp::Sub => s_bin(dl, BinOp::Sub, dr),
                BinOp::Mul => s_bin(s_bin(dl, BinOp::Mul, *r), BinOp::Add, s_bin(*l, BinOp::Mul, dr)),
                BinOp::Div => s_bin(
                    s_bin(s_bin(dl, BinOp::Mul, *r), BinOp::Sub, s_bin(*l, BinOp::Mul, dr)),
                    BinOp::Div,
                    s_pow(*r, s_num("2"@)),
                ),
            }
        },
        SExpr::Pow(b, x) => {
            let db = diff_spec(*b, v);
            let dx = diff_spec(*x, v);
            let dep_b = mentions(*b, v);
            let dep_x = mentions(*x, v);
            if dep_x && !dep_b {
                s_bin(s_bin(s_pow(*b, *x), BinOp::Mul, s_call1("ln"@, *b)), BinOp::Mul, dx)
            } else if dep_b && !dep_x {
                s_bin(
                    s_bin(*x, BinOp::Mul, s_pow(*b, s_bin(*x, BinOp::Sub, s_num("1"@)))),
                    BinOp::Mul,
                    db,
                )
            } else {
                s_bin(
                    s_pow(*b, *x),
                    BinOp::Mul,
                    s_bin(
                        s_bin(dx, BinOp::Mul, s_call1("ln"@, *b)),
                        BinOp::Add,
                        s_bin(*x, BinOp::Mul, s_bin(db, BinOp::Div, *b)),
                    ),
                )
            }
        },
        SExpr::Call(name, args) => if args.len() == 1 {
            match outer_deriv(name, args[0]) {
                Some(o) => s_bin(o, BinOp::Mul, diff_spec(args[0], v)),
                None => s_num("NaN"@),
            }
        } else {
            s_num("NaN"@)
        },
    }
}

fn e_num(t: &str) -> (e: Expr)
    ensures
        e@ == s_num(t@),
{
    Expr::Num(String::from_str(t))
}

fn e_bin(a: Expr, op: BinOp, b: Expr) -> (e: Expr)
    ensures
        e@ == s_bin(a@, op, b@),
{
    Expr::BinOp(Box::new(a), op, Box::new(b))
}

fn e_pow(a: Expr, b: Expr) -> (e: Expr)
    ensures
        e@ == s_pow(a@, b@),
{
    Expr::Pow(Box::new(a), Box::new(b))
}

fn e_neg(a: Expr) -> (e: Expr)
    ensures
        e@ == s_neg(a@),
{
    Expr::UnaryMinus(Box::new(a))
}

fn e_call1(n: &str, a: Expr) -> (e: Expr)
    ensures
        e@ == s_call1(n@, a@),
{
    let mut v: Vec<Expr> = Vec::new();
    let ghost av = a@;
    v.push(a);
    assert(exprs_view(v@) =~= seq![av]);
    Expr::Call(String::from_str(n), v)
}

fn e_inv_sqrt_one_minus_sq(u: Expr) -> (e: Expr)
    ensures
        e@ == s_inv_sqrt_one_minus_sq(u@),
{
    e_bin(e_num("1"), BinOp::Div, e_call1("sqrt", e_bin(e_num("1"), BinOp::Sub, e_pow(u, e_num("2")))))
}

/// The chain-rule factor for a named function, if it has a rule.
fn outer_deriv_exec(name: &str, u: &Expr) -> (r: Option<Expr>)
    ensures
        match outer_deriv(name@, u@) {
            Some(o) => r is Some && r->Some_0@ == o,
            None => r is None,
        },
{
    let u = clone_expr(u);
    if str_eq(name, "sin") {
        Some(e_call1("cos", u))
    } else if str_eq(name, "cos") {
        Some(e_neg(e_call1("sin", u)))
    } else if str_eq(name, "tan") {
        Some(e_bin(e_num("1"), BinOp::Div, e_pow(e_call1("cos", u), e_num("2"))))
    } else if str_eq(name, "sqrt") {
        Some(e_bin(e_num("1"), BinOp::Div, e_bin(e_num("2"), BinOp::Mul, e_call1("sqrt", u))))
    } else if str_eq(name, "ln") {
        Some(e_bin(e_num("1"), BinOp::Div, u))
    } else if str_eq(name, "log") {
        Some(e_bin(e_num("1"), BinOp::Div, e_bin(u, BinOp::Mul, e_call1("ln", e_num("10")))))
    } else if str_eq(name, "exp") {
        Some(e_call1("exp", u))
    } else if str_eq(name, "asin") {
        Some(e_inv_sqrt_one_minus_sq(u))
    } else if str_eq(name, "acos") {
        Some(e_neg(e_inv_sqrt_one_minus_sq(u)))
    } else if str_eq(name, "atan") {
        Some(e_bin(e_num("1"), BinOp::Div, e_bin(e_num("1"), BinOp::Add, e_pow(u, e_num("2")))))
    } else if str_eq(name, "abs") {
        let u2 = clone_expr(&u);
        Some(e_bin(u, BinOp::Div, e_call1("abs", u2)))
    } else {
        None
    }
}

/// The derivative of `expr` with respect to `var` (see [`diff_spec`]).
pub fn symbolic_diff(expr: &Expr, var: &str) -> (d: Expr)
    ensures
        d@ == diff_spec(expr@, var@),
    decreases expr,
{
    match expr {
        Expr::Num(_) => e_num("0"),
        Expr::Var(x) => if str_eq(x.as_str(), var) { e_num("1") } else { e_num("0") },
        Expr::UnaryMinus(a) => e_neg(symbolic_diff(a, var)),
        Expr::BinOp(l, op, r) => {
            let dl = symbolic_diff(l, var);
            let dr = symbolic_diff(r, var);
            match op {
                BinOp::Add => e_bin(dl, BinOp::Add, dr),
                BinOp::Sub => e_bin(dl, BinOp::Sub, dr),
                BinOp::Mul => e_bin(
                    e_bin(dl, BinOp::Mul, clone_expr(r)),
                    BinOp::Add,
                    e_bin(clone_expr(l), BinOp::Mul, dr),
                ),
                BinOp::Div => e_bin(
                    e_bin(e_bin(dl, BinOp::Mul, clone_expr(r)), BinOp::Sub, e_bin(clone_expr(l), BinOp::Mul, dr)),
                    BinOp::Div,
                    e_pow(clone_expr(r), e_num("2")),
                ),
            }
        },
        Expr::Pow(b, x) => {
            let db = symbolic_diff(b, var);
            let dx = symbolic_diff(x, var);
            let dep_b = contains_var(b, var);
            let dep_x = contains_var(x, var);
            if dep_x && !dep_b {
                e_bin(e_bin(e_pow(clone_expr(b), clone_expr(x)), BinOp::Mul, e_call1("ln", clone_expr(b))), BinOp::Mul, dx)
            } else if dep_b && !dep_x {
                e_bin(
                    e_bin(clone_expr(x), BinOp::Mul, e_pow(clone_expr(b), e_bin(clone_expr(x), BinOp::Sub, e_num("1")))),
                    BinOp::Mul,
                    db,
                )
            } else {
                e_bin(
                    e_pow(clone_expr(b), clone_expr(x)),
                    BinOp::Mul,
                    e_bin(
                        e_bin(dx, BinOp::Mul, e_call1("ln", clone_expr(b))),
                        BinOp::Add,
                        e_bin(clone_expr(x), BinOp::Mul, e_bin(db, BinOp::Div, clone_expr(b))),
                    ),
                )
            }
        },
        Expr::Call(name, args) => {
            assert(expr@ == SExpr::Call(name@, exprs_view(args@)));
            if args.len() == 1 {
                assert(exprs_view(args@)[0] == ev(args@[0]));
                match outer_deriv_exec(name.as_str(), &args[0]) {
                    Some(o) => {
                        proof {
                            assert(decreases_to!(expr => args@[0]));
                        }
                        let di = symbolic_diff(&args[0], var);
                        e_bin(o, BinOp::Mul, di)
                    },
                    None => e_num("NaN"),
                }
            } else {
                e_num("NaN")
            }
        },
    }
}

}

verus! {

proof fn lemma_mentions_call1(n: Seq<char>, a: SExpr, x: Seq<char>)
    ensures
        mentions(s_call1(n, a), x) == mentions(a, x),
{
    let args = seq![a];
    assert(mentions_any(args, x, 0) == false);
    assert(mentions_any(args, x, 1) == mentions(args[0], x));
}

proof fn lemma_outer_deriv_vars(name: Seq<char>, u: SExpr, x: Seq<char>)
    requires
        outer_deriv(name, u) is Some,
        mentions(outer_deriv(name, u)->Some_0, x),
    ensures
        mentions(u, x),
{
    let o = outer_deriv(name, u)->Some_0;
    let one = s_num("1"@);
    let two = s_num("2"@);
    assert(!mentions(one, x));
    assert(!mentions(two, x));
    assert(!mentions(s_num("10"@), x));
    lemma_mentions_call1("cos"@, u, x);
    lemma_mentions_call1("sin"@, u, x);
    lemma_mentions_call1("sqrt"@, u, x);
    lemma_mentions_call1("exp"@, u, x);
    lemma_mentions_call1("abs"@, u, x);
    lemma_mentions_call1("ln"@, s_num("10"@), x);
    let inner = s_bin(one, BinOp::Sub, s_pow(u, two));
    assert(mentions(s_pow(u, two), x) == (mentions(u, x) || mentions(two, x)));
    lemma_mentions_call1("sqrt"@, inner, x);
    assert(mentions(inner, x) ==> mentions(u, x));
    assert(mentions(s_inv_sqrt_one_minus_sq(u), x) ==> mentions(u, x));
    if name == "sin"@ {
    } else if name == "cos"@ {
    } else if name == "tan"@ {
        assert(mentions(s_pow(s_call1("cos"@, u), two), x) ==> mentions(u, x));
    } else if name == "sqrt"@ {
        assert(mentions(s_bin(two, BinOp::Mul, s_call1("sqrt"@, u)), x) ==> mentions(u, x));
    } else if name == "ln"@ {
    } else if name == "log"@ {
        assert(mentions(s_bin(u, BinOp::Mul, s_call1("ln"@, s_num("10"@))), x) ==> mentions(u, x));
    } else if name == "exp"@ {
    } else if name == "asin"@ {
    } else if name == "acos"@ {
    } else if name == "atan"@ {
        assert(mentions(s_bin(one, BinOp::Add, s_pow(u, two)), x) ==> mentions(u, x));
    } else if name == "abs"@ {
    }
}

/// Differentiation brings in no variable: every variable that the derivative
/// of `e` mentions, `e` mentions too.
pub proof fn law_diff_no_new_vars(e: SExpr, v: Seq<char>, x: Seq<char>)
    requires
        mentions(diff_spec(e, v), x),
    ensures
        mentions(e, x),
    decreases e,
{
    reveal_with_fuel(mentions, 5);
    match e {
        SExpr::Num(_) => {
            assert(!mentions(s_num("0"@), x));
        },
        SExpr::Var(_) => {
            assert(!mentions(s_num("0"@), x));
            assert(!mentions(s_num("1"@), x));
        },
        SExpr::UnaryMinus(a) => {
            law_diff_no_new_vars(*a, v, x);
        },
        SExpr::BinOp(l, op, r) => {
            if mentions(diff_spec(*l, v), x) {
                law_diff_no_new_vars(*l, v, x);
            }
            if mentions(diff_spec(*r, v), x) {
                law_diff_no_new_vars(*r, v, x);
            }
        },
        SExpr::Pow(b, y) => {
            lemma_mentions_call1("ln"@, *b, x);
            if mentions(diff_spec(*b, v), x) {
                law_diff_no_new_vars(*b, v, x);
            }
            if mentions(diff_spec(*y, v), x) {
                law_diff_no_new_vars(*y, v, x);
            }
        },
        SExpr::Call(name, args) => {
            assert(!mentions(s_num("NaN"@), x));
            if args.len() == 1 && outer_deriv(name, args[0]) is Some {
                assert(mentions_any(args, x, 0) == false);
                if mentions(outer_deriv(name, args[0])->Some_0, x) {
                    lemma_outer_deriv_vars(name, args[0], x);
                }
                if mentions(diff_spec(args[0], v), x) {
                    law_diff_no_new_vars(args[0], v, x);
                }
            }
        },
    }
}

}

verus! {

// ───────────────────────────── Dimension rules of evaluation ─────────────────────────────

/// Decimal text of a nonnegative number below 1000.
pub open spec fn small_decimal(n: int) -> Seq<char>
    decreases n,
{
    if n < 10 {
        seq![('0' as u8 + n) as char]
    } else {
        small_decimal(n / 10) + seq![('0' as u8 + n % 10) as char]
    }
}

/// Decimal text of an `i8`, as std's `Debug` writes it.
pub open spec fn i8_text(x: i8) -> Seq<char> {
    if x < 0 {
        seq!['-'] + small_decimal(-(x as int))
    } else {
        small_decimal(x as int)
    }
}

/// The exponents, separated by `, `.
pub open spec fn dims_list_text(d: Seq<i8>, n: int) -> Seq<char>
    decreases n,
{
    if n <= 0 {
        Seq::empty()
    } else if n == 1 {
        i8_text(d[0])
    } else {
        dims_list_text(d, n - 1) + ", "@ + i8_text(d[n - 1])
    }
}

/// How std's `Debug` writes a [`crate::units::Dim`]: `Dim([a, b, ...])`.
pub open spec fn dim_debug_spec(d: Seq<i8>) -> Seq<char> {
    "Dim(["@ + dims_list_text(d, 7) + "])"@
}

fn small_decimal_exec(n: u8) -> (r: Vec<char>)
    ensures
        r@ == small_decimal(n as int),
    decreases n,
{
    if n < 10 {
        let mut v: Vec<char> = Vec::new();
        v.push(('0' as u8 + n) as char);
        v
    } else {
        let mut v = small_decimal_exec(n / 10);
        v.push(('0' as u8 + n % 10) as char);
        v
    }
}

fn i8_text_exec(x: i8) -> (r: String)
    ensures
        r@ == i8_text(x),
{
    if x < 0 {
        let m: u8 = if x == -128 { 128 } else { (-x) as u8 };
        let mut v: Vec<char> = Vec::new();
        v.push('-');
        let mut d = small_decimal_exec(m);
        v.append(&mut d);
        assert(v@ =~= seq!['-'] + small_decimal(-(x as int)));
        crate::text::string_of(&v)
    } else {
        let d = small_decimal_exec(x as u8);
        crate::text::string_of(&d)
    }
}

/// The `Debug` text of a dimension vector (see [`dim_debug_spec`]).
pub fn dim_debug(d: Dim) -> (r: String)
    ensures
        r@ == dim_debug_spec(d@),
{
    let mut r = String::from_str("Dim([");
    let ghost head = r@;
    let mut i: usize = 0;
    while i < 7
        invariant
            i <= 7,
            d@.len() == 7,
            r@ == head + dims_list_text(d@, i as int),
        decreases 7 - i,
    {
        if i > 0 {
            r.append(", ");
        }
        let t = i8_text_exec(d.0[i]);
        r.append(t.as_str());
        i += 1;
        assert(r@ =~= head + dims_list_text(d@, i as int));
    }
    r.append("])");
    r
}

/// The dimension of a sum or difference: the left one, when the two agree
/// or either is dimensionless; else the mismatch is an error.
pub open spec fn add_dim_spec(l: Seq<i8>, r: Seq<i8>) -> Result<Seq<i8>, Seq<char>> {
    if l != r && l != crate::units::dims_none() && r != crate::units::dims_none() {
        Err("dimension mismatch: cannot add "@ + dim_debug_spec(l) + " and "@ + dim_debug_spec(r))
    } else {
        Ok(l)
    }
}

/// The dimension of a sum or difference (see [`add_dim_spec`]).
pub fn add_dim(l: Dim, r: Dim) -> (res: Result<Dim, String>)
    ensures
        match add_dim_spec(l@, r@) {
            Ok(d) => res is Ok && res->Ok_0@ == d,
            Err(m) => res is Err && res->Err_0@ == m,
        },
{
    if l != r && !l.is_dimensionless() && !r.is_dimensionless() {
        let mut m = String::from_str("dimension mismatch: cannot add ");
        let a = dim_debug(l);
        m.append(a.as_str());
        m.append(" and ");
        let b = dim_debug(r);
        m.append(b.as_str());
        Err(m)
    } else {
        Ok(l)
    }
}

/// The dimension of a power: the exponent must be dimensionless; an
/// (almost) integral exponent `n` multiplies the base's exponents by `n`; a
/// fractional one needs a dimensionless base.
pub open spec fn pow_dim_spec(base: Seq<i8>, exp: Seq<i8>, exp_int: Option<i32>) -> Result<Seq<i8>, Seq<char>> {
    if exp != crate::units::dims_none() {
        Err("exponent must be dimensionless"@)
    } else {
        match exp_int {
            Some(n) => Ok(crate::units::scale_dims(base, n as int)),
            None => if base != crate::units::dims_none() {
                Err("fractional power of dimensioned quantity"@)
            } else {
                Ok(crate::units::dims_none())
            },
        }
    }
}

/// The dimension of a power (see [`pow_dim_spec`]); `exp_int` is the
/// integer that the exponent is within 1e-9 of, if any.
pub fn pow_dim(base: Dim, exp: Dim, exp_int: Option<i32>) -> (res: Result<Dim, String>)
    requires
        exp_int matches Some(n) ==> crate::units::scale_fits(base@, n as int),
    ensures
        match pow_dim_spec(base@, exp@, exp_int) {
            Ok(d) => res is Ok && res->Ok_0@ == d,
            Err(m) => res is Err && res->Err_0@ == m,
        },
{
    if !exp.is_dimensionless() {
        return Err(String::from_str("exponent must be dimensionless"));
    }
    match exp_int {
        Some(n) => Ok(base.pow_int(n)),
        None => if !base.is_dimensionless() {
            Err(String::from_str("fractional power of dimensioned quantity"))
        } else {
            Ok(Dim::none())
        },
    }
}

/// Whether `base.pow_int(n)` stays in range (see [`crate::units::scale_fits`]).
pub fn pow_fits(base: Dim, n: i32) -> (b: bool)
    ensures
        b == crate::units::scale_fits(base@, n as int),
{
    let mut k: usize = 0;
    while k < 7
        invariant
            k <= 7,
            forall|q: int| 0 <= q < k ==> i32::MIN <= #[trigger] base@[q] * n <= i32::MAX,
        decreases 7 - k,
    {
        let v = base.0[k] as i64;
        let x = n as i64;
        assert(-0x100_0000_0000 <= v * x <= 0x100_0000_0000) by (nonlinear_arith)
            requires
                -128 <= v <= 127,
                i32::MIN <= x <= i32::MAX,
        ;
        let p = v * x;
        if p < i32::MIN as i64 || p > i32::MAX as i64 {
            assert(base@[k as int] * n == p);
            return false;
        }
        k += 1;
    }
    true
}

/// Whether the exponent-wise sum stays in range.
pub fn sum_fits_exec(a: Dim, b: Dim) -> (r: bool)
    ensures
        r == crate::units::sum_fits(a@, b@),
{
    let mut k: usize = 0;
    while k < 7
        invariant
            k <= 7,
            forall|q: int| 0 <= q < k ==> i8::MIN <= #[trigger] a@[q] + b@[q] <= i8::MAX,
        decreases 7 - k,
    {
        let x = a.0[k] as i16 + b.0[k] as i16;
        if x < -128 || x > 127 {
            assert(a@[k as int] + b@[k as int] == x);
            return false;
        }
        k += 1;
    }
    true
}

/// Whether the exponent-wise difference stays in range.
pub fn diff_fits_exec(a: Dim, b: Dim) -> (r: bool)
    ensures
        r == crate::units::diff_fits(a@, b@),
{
    let mut k: usize = 0;
    while k < 7
        invariant
            k <= 7,
            forall|q: int| 0 <= q < k ==> i8::MIN <= #[trigger] a@[q] - b@[q] <= i8::MAX,
        decreases 7 - k,
    {
        let x = a.0[k] as i16 - b.0[k] as i16;
        if x < -128 || x > 127 {
            assert(a@[k as int] - b@[k as int] == x);
            return false;
        }
        k += 1;
    }
    true
}

/// Half an exponent, rounded toward zero (Rust's integer division by 2).
pub open spec fn half_toward_zero(a: int) -> int {
    if a >= 0 {
        a / 2
    } else {
        -((-a) / 2)
    }
}

/// The dimension of a square root: each exponent halved toward zero.
pub open spec fn sqrt_dim_spec(d: Seq<i8>) -> Seq<i8> {
    Seq::new(7, |i: int| half_toward_zero(d[i] as int) as i8)
}

/// The dimension of a square root (see [`sqrt_dim_spec`]).
pub fn sqrt_dim(d: Dim) -> (r: Dim)
    ensures
        r@ == sqrt_dim_spec(d@),
{
    let mut out = [0i8; 7];
    let mut i: usize = 0;
    while i < 7
        invariant
            i <= 7,
            out@.len() == 7,
            forall|j: int| 0 <= j < i ==> #[trigger] out@[j] == half_toward_zero(d@[j] as int) as i8,
        decreases 7 - i,
    {
        let a = d.0[i];
        let h: i8 = if a >= 0 { a / 2 } else { -((-(a as i16)) / 2) as i8 };
        out[i] = h;
        i += 1;
    }
    assert(out@ =~= sqrt_dim_spec(d@));
    Dim(out)
}

}

verus! {

// ───────────────────────────── Function calls ─────────────────────────────

/// The one-argument functions that evaluation knows.
#[derive(Clone, Copy, Debug, PartialEq, Eq, Structural)]
pub enum UnaryFn {
    Sqrt,
    Sin,
    Cos,
    Tan,
    Abs,
    Ln,
    Log,
    Exp,
    Asin,
    Acos,
    Atan,
    Ceil,
    Floor,
}

/// The one-argument function of that name.
pub open spec fn unary_fn_spec(name: Seq<char>) -> Option<UnaryFn> {
    if name == "sqrt"@ {
        Some(UnaryFn::Sqrt)
    } else if name == "sin"@ {
        Some(UnaryFn::Sin)
    } else if name == "cos"@ {
        Some(UnaryFn::Cos)
    } else if name == "tan"@ {
        Some(UnaryFn::Tan)
    } else if name == "abs"@ {
        Some(UnaryFn::Abs)
    } else if name == "ln"@ {
        Some(UnaryFn::Ln)
    } else if name == "log"@ {
        Some(UnaryFn::Log)
    } else if name == "exp"@ {
        Some(UnaryFn::Exp)
    } else if name == "asin"@ {
        Some(UnaryFn::Asin)
    } else if name == "acos"@ {
        Some(UnaryFn::Acos)
    } else if name == "atan"@ {
        Some(UnaryFn::Atan)
    } else if name == "ceil"@ {
        Some(UnaryFn::Ceil)
    } else if name == "floor"@ {
        Some(UnaryFn::Floor)
    } else {
        None
    }
}

/// The one-argument function named `name`, if evaluation knows it.
pub fn unary_fn(name: &str) -> (r: Option<UnaryFn>)
    ensures
        r == unary_fn_spec(name@),
{
    if str_eq(name, "sqrt") {
        Some(UnaryFn::Sqrt)
    } else if str_eq(name, "sin") {
        Some(UnaryFn::Sin)
    } else if str_eq(name, "cos") {
        Some(UnaryFn::Cos)
    } else if str_eq(name, "tan") {
        Some(UnaryFn::Tan)
    } else if str_eq(name, "abs") {
        Some(UnaryFn::Abs)
    } else if str_eq(name, "ln") {
        Some(UnaryFn::Ln)
    } else if str_eq(name, "log") {
        Some(UnaryFn::Log)
    } else if str_eq(name, "exp") {
        Some(UnaryFn::Exp)
    } else if str_eq(name, "asin") {
        Some(UnaryFn::Asin)
    } else if str_eq(name, "acos") {
        Some(UnaryFn::Acos)
    } else if str_eq(name, "atan") {
        Some(UnaryFn::Atan)
    } else if str_eq(name, "ceil") {
        Some(UnaryFn::Ceil)
    } else if str_eq(name, "floor") {
        Some(UnaryFn::Floor)
    } else {
        None
    }
}

/// The dimension of a function's result: a square root halves the
/// exponents, `abs`, `ceil` and `floor` keep them, the others give a
/// dimensionless number.
pub open spec fn unary_dim_spec(f: UnaryFn, d: Seq<i8>) -> Seq<i8> {
    match f {
        UnaryFn::Sqrt => sqrt_dim_spec(d),
        UnaryFn::Abs | UnaryFn::Ceil | UnaryFn::Floor => d,
        _ => crate::units::dims_none(),
    }
}

/// The dimension of a function's result (see [`unary_dim_spec`]).
pub fn unary_dim(f: UnaryFn, d: Dim) -> (r: Dim)
    ensures
        r@ == unary_dim_spec(f, d@),
{
    match f {
        UnaryFn::Sqrt => sqrt_dim(d),
        UnaryFn::Abs | UnaryFn::Ceil | UnaryFn::Floor => d,
        _ => Dim::none(),
    }
}

/// What kind of call a name with its number of arguments makes.
#[derive(Clone, Copy, Debug, PartialEq, Eq, Structural)]
pub enum CallKind {
    Diff,
    Integrate,
    Sum,
    Unary,
}

/// The kind of a call, or the arity error: `diff` takes two arguments,
/// `integrate` and `sum` four, any other function one.
pub open spec fn call_kind_spec(name: Seq<char>, nargs: int) -> Result<CallKind, Seq<char>> {
    if name == "diff"@ {
        if nargs == 2 { Ok(CallKind::Diff) } else { Err("diff(expr, var) needs 2 args"@) }
    } else if name == "integrate"@ {
        if nargs == 4 { Ok(CallKind::Integrate) } else { Err("integrate(expr, var, a, b) needs 4 args"@) }
    } else if name == "sum"@ {
        if nargs == 4 { Ok(CallKind::Sum) } else { Err("sum(expr, var, a, b) needs 4 args"@) }
    } else if nargs == 1 {
        Ok(CallKind::Unary)
    } else {
        Err("'"@ + name + "' expects 1 argument"@)
    }
}

/// The kind of a call (see [`call_kind_spec`]).
pub fn call_kind(name: &str, nargs: usize) -> (r: Result<CallKind, String>)
    ensures
        match call_kind_spec(name@, nargs as int) {
            Ok(k) => r == Ok::<CallKind, String>(k),
            Err(m) => r is Err && r->Err_0@ == m,
        },
{
    if str_eq(name, "diff") {
        if nargs == 2 { Ok(CallKind::Diff) } else { Err(String::from_str("diff(expr, var) needs 2 args")) }
    } else if str_eq(name, "integrate") {
        if nargs == 4 { Ok(CallKind::Integrate) } else { Err(String::from_str("integrate(expr, var, a, b) needs 4 args")) }
    } else if str_eq(name, "sum") {
        if nargs == 4 { Ok(CallKind::Sum) } else { Err(String::from_str("sum(expr, var, a, b) needs 4 args")) }
    } else if nargs == 1 {
        Ok(CallKind::Unary)
    } else {
        let mut m = String::from_str("'");
        m.append(name);
        m.append("' expects 1 argument");
        Err(m)
    }
}

/// The variable that a calculus call ranges over: its second argument,
/// which must be a variable.
pub open spec fn calc_var_spec(fname: Seq<char>, args: Seq<SExpr>) -> Result<Seq<char>, Seq<char>> {
    if args.len() > 1 && args[1] is Var {
        Ok(args[1]->Var_0)
    } else {
        Err(fname + ": second arg must be variable name"@)
    }
}

/// The variable of a calculus call (see [`calc_var_spec`]).
pub fn calc_var(fname: &str, args: &Vec<Expr>) -> (r: Result<String, String>)
    ensures
        match calc_var_spec(fname@, exprs_view(args@)) {
            Ok(v) => r is Ok && r->Ok_0@ == v,
            Err(m) => r is Err && r->Err_0@ == m,
        },
{
    if args.len() > 1 {
        assert(exprs_view(args@)[1] == ev(args@[1]));
        match &args[1] {
            Expr::Var(v) => {
                return Ok(v.clone());
            },
            _ => {},
        }
    }
    let mut m = String::from_str(fname);
    m.append(": second arg must be variable name");
    Err(m)
}

/// The error for an unknown function.
pub open spec fn unknown_fn_spec(name: Seq<char>) -> Seq<char> {
    "unknown function: '"@ + name + "'"@
}

/// The error for an unknown function (see [`unknown_fn_spec`]).
pub fn unknown_function(name: &str) -> (m: String)
    ensures
        m@ == unknown_fn_spec(name@),
{
    let mut m = String::from_str("unknown function: '");
    m.append(name);
    m.append("'");
    m
}

/// The error for an undefined variable.
pub open spec fn undefined_var_spec(name: Seq<char>) -> Seq<char> {
    "undefined variable: '"@ + name + "'"@
}

/// The error for an undefined variable (see [`undefined_var_spec`]).
pub fn undefined_variable(name: &str) -> (m: String)
    ensures
        m@ == undefined_var_spec(name@),
{
    let mut m = String::from_str("undefined variable: '");
    m.append(name);
    m.append("'");
    m
}

}

verus! {

// ───────────────────────────── Derivatives of polynomials ─────────────────────────────

/// A polynomial: numbers and names joined by `+`, `-`, `*` and negation.
pub open spec fn polynomial(e: SExpr) -> bool
    decreases e,
{
    match e {
        SExpr::Num(_) => true,
        SExpr::Var(_) => true,
        SExpr::UnaryMinus(a) => polynomial(*a),
        SExpr::BinOp(l, op, r) => (op is Add || op is Sub || op is Mul) && polynomial(*l) && polynomial(*r),
        _ => false,
    }
}

/// The value of a name in `env` (0 where it has none).
pub open spec fn name_value(env: Map<Seq<char>, int>, x: Seq<char>) -> int {
    if env.dom().contains(x) {
        env[x]
    } else {
        0
    }
}

/// The value of an expression over the integers, a number being read as
/// its digits and a name from `env`; what is not a polynomial counts 0.
pub open spec fn poly_value(e: SExpr, env: Map<Seq<char>, int>) -> int
    decreases e,
{
    match e {
        SExpr::Num(t) => crate::units::digits_value(t),
        SExpr::Var(x) => name_value(env, x),
        SExpr::UnaryMinus(a) => -poly_value(*a, env),
        SExpr::BinOp(l, op, r) => match op {
            BinOp::Add => poly_value(*l, env) + poly_value(*r, env),
            BinOp::Sub => poly_value(*l, env) - poly_value(*r, env),
            BinOp::Mul => poly_value(*l, env) * poly_value(*r, env),
            BinOp::Div => 0,
        },
        _ => 0,
    }
}

/// `env` with the name `v` moved on by `h`.
pub open spec fn moved(env: Map<Seq<char>, int>, v: Seq<char>, h: int) -> Map<Seq<char>, int> {
    env.insert(v, name_value(env, v) + h)
}

proof fn lemma_numerals()
    ensures
        crate::units::digits_value("0"@) == 0,
        crate::units::digits_value("1"@) == 1,
{
    reveal_strlit("0");
    reveal_strlit("1");
    assert("0"@ =~= seq!['0']);
    assert("1"@ =~= seq!['1']);
    assert(seq!['0'].drop_last() =~= Seq::<char>::empty());
    assert(seq!['1'].drop_last() =~= Seq::<char>::empty());
    assert(crate::units::digits_value(Seq::<char>::empty()) == 0);
    assert(crate::units::digits_value(seq!['0']) == 0);
    assert(crate::units::digits_value(seq!['1']) == 1);
}

proof fn lemma_product_step(l: int, l2: int, dl: int, q1: int, r: int, r2: int, dr: int, q2: int, h: int)
    requires
        l2 == l + h * dl + h * h * q1,
        r2 == r + h * dr + h * h * q2,
    ensures
        l2 * r2 - l * r - h * (dl * r + l * dr) == h * h * (q1 * r + l * q2 + (dl + h * q1) * (dr + h * q2)),
{
    let a = dl + h * q1;
    let b = dr + h * q2;
    assert(h * dl + h * h * q1 == h * a) by (nonlinear_arith)
        requires
            a == dl + h * q1,
    ;
    assert(h * dr + h * h * q2 == h * b) by (nonlinear_arith)
        requires
            b == dr + h * q2,
    ;
    let x = h * a;
    let y = h * b;
    assert((l + x) * (r + y) == l * r + l * y + x * r + x * y) by (nonlinear_arith);
    assert(x * r == h * (a * r)) by (nonlinear_arith)
        requires
            x == h * a,
    ;
    assert(l * y == h * (l * b)) by (nonlinear_arith)
        requires
            y == h * b,
    ;
    assert(x * y == h * h * (a * b)) by (nonlinear_arith)
        requires
            x == h * a,
            y == h * b,
    ;
    assert(h * (a * r) + h * (l * b) == h * (a * r + l * b)) by (nonlinear_arith);
    assert(a * r + l * b == dl * r + l * dr + h * (q1 * r + l * q2)) by (nonlinear_arith)
        requires
            a == dl + h * q1,
            b == dr + h * q2,
    ;
    assert(h * (dl * r + l * dr + h * (q1 * r + l * q2)) == h * (dl * r + l * dr) + h * h * (q1 * r + l * q2))
        by (nonlinear_arith);
    assert(h * h * (q1 * r + l * q2) + h * h * (a * b) == h * h * (q1 * r + l * q2 + a * b)) by (nonlinear_arith);
}

/// The remainder of the first-order step of `e` at `h`, divided by `h²`.
proof fn lemma_slope(e: SExpr, v: Seq<char>, env: Map<Seq<char>, int>, h: int) -> (q: int)
    requires
        polynomial(e),
    ensures
        poly_value(e, moved(env, v, h)) - poly_value(e, env) - h * poly_value(diff_spec(e, v), env) == h * h * q,
    decreases e,
{
    lemma_numerals();
    let env2 = moved(env, v, h);
    let q: int = match e {
        SExpr::Num(_) => {
            assert(poly_value(diff_spec(e, v), env) == 0);
            assert(poly_value(e, env2) == poly_value(e, env));
            assert(h * 0 == 0 && h * h * 0 == 0) by (nonlinear_arith);
            assert(poly_value(e, env2) - poly_value(e, env) - h * poly_value(diff_spec(e, v), env) == h * h * 0);
            0
        },
        SExpr::Var(x) => {
            if x != v {
                assert(name_value(env2, x) == name_value(env, x));
            }
            assert(h * 0 == 0 && h * 1 == h && h * h * 0 == 0) by (nonlinear_arith);
            assert(poly_value(e, env2) - poly_value(e, env) - h * poly_value(diff_spec(e, v), env) == h * h * 0);
            0
        },
        SExpr::UnaryMinus(a) => {
            let q1 = lemma_slope(*a, v, env, h);
            let d = poly_value(diff_spec(*a, v), env);
            assert(h * (-d) == -(h * d) && h * h * (-q1) == -(h * h * q1)) by (nonlinear_arith);
            assert(poly_value(e, env2) - poly_value(e, env) - h * poly_value(diff_spec(e, v), env) == h * h * (-q1));
            -q1
        },
        SExpr::BinOp(l, op, r) => {
            let q1 = lemma_slope(*l, v, env, h);
            let q2 = lemma_slope(*r, v, env, h);
            let dl = poly_value(diff_spec(*l, v), env);
            let dr = poly_value(diff_spec(*r, v), env);
            let lv = poly_value(*l, env);
            let rv = poly_value(*r, env);
            assert(h * (dl + dr) == h * dl + h * dr && h * h * (q1 + q2) == h * h * q1 + h * h * q2)
                by (nonlinear_arith);
            assert(h * (dl - dr) == h * dl - h * dr && h * h * (q1 - q2) == h * h * q1 - h * h * q2)
                by (nonlinear_arith);
            match op {
                BinOp::Add => {
                    assert(poly_value(e, env2) - poly_value(e, env) - h * poly_value(diff_spec(e, v), env) == h * h * (q1 + q2));
                    q1 + q2
                },
                BinOp::Sub => {
                    assert(poly_value(e, env2) - poly_value(e, env) - h * poly_value(diff_spec(e, v), env) == h * h * (q1 - q2));
                    q1 - q2
                },
                _ => {
                    lemma_product_step(lv, poly_value(*l, env2), dl, q1, rv, poly_value(*r, env2), dr, q2, h);
                    assert(op is Mul);
                    assert(poly_value(e, env2) == poly_value(*l, env2) * poly_value(*r, env2));
                    let pa = s_bin(diff_spec(*l, v), BinOp::Mul, *r);
                    let pb = s_bin(*l, BinOp::Mul, diff_spec(*r, v));
                    assert(diff_spec(e, v) == s_bin(pa, BinOp::Add, pb));
                    assert(poly_value(pa, env) == dl * rv);
                    assert(poly_value(pb, env) == lv * dr);
                    assert(poly_value(diff_spec(e, v), env) == dl * rv + lv * dr);
                    assert(poly_value(e, env2) - poly_value(e, env) - h * poly_value(diff_spec(e, v), env) == h * h * (q1 * rv + lv * q2 + (dl + h * q1) * (dr + h * q2)));
                    q1 * rv + lv * q2 + (dl + h * q1) * (dr + h * q2)
                },
            }
        },
        _ => 0,
    };
    q
}

/// `q` times the square of `h`.
pub open spec fn times_square(h: int, q: int) -> int {
    h * h * q
}

/// The derivative of a polynomial is its slope: moving the variable by any
/// step `h` changes the value by `h` times the derivative's value, up to a
/// multiple of `h²` (which, for every `h`, fixes the derivative's value).
pub proof fn law_derivative_is_slope(e: SExpr, v: Seq<char>, env: Map<Seq<char>, int>, h: int)
    requires
        polynomial(e),
    ensures
        exists|q: int|
            poly_value(e, moved(env, v, h)) - poly_value(e, env) - h * poly_value(diff_spec(e, v), env)
                == #[trigger] times_square(h, q),
{
    let q = lemma_slope(e, v, env, h);
    assert(poly_value(e, moved(env, v, h)) - poly_value(e, env) - h * poly_value(diff_spec(e, v), env)
        == times_square(h, q));
}

}
