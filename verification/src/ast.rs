use vstd::prelude::*;
use crate::text::{chars_of, string_of};

verus! {

// ───────────────────────────── AST ─────────────────────────────

/// Binary arithmetic operators.
#[derive(Clone, Copy, Debug, PartialEq, Eq, Structural)]
pub enum BinOp {
    Add,
    Sub,
    Mul,
    Div,
}

/// Expression tree. A number is kept as the text of its literal, which
/// the tokeniser has checked to be a valid decimal floating-point literal.
#[derive(Debug)]
pub enum Expr {
    Num(String),
    Var(String),
    BinOp(Box<Expr>, BinOp, Box<Expr>),
    UnaryMinus(Box<Expr>),
    /// f(x), sqrt(x), diff(f,x), integrate(f,x,a,b), sum(f,k,a,b)
    Call(String, Vec<Expr>),
    Pow(Box<Expr>, Box<Expr>),
}

/// Mathematical model of an [`Expr`].
pub enum SExpr {
    Num(Seq<char>),
    Var(Seq<char>),
    BinOp(Box<SExpr>, BinOp, Box<SExpr>),
    UnaryMinus(Box<SExpr>),
    Call(Seq<char>, Seq<SExpr>),
    Pow(Box<SExpr>, Box<SExpr>),
}

/// The model of an expression tree.
pub open spec fn ev(e: Expr) -> SExpr
    decreases e,
{
    match e {
        Expr::Num(s) => SExpr::Num(s@),
        Expr::Var(s) => SExpr::Var(s@),
        Expr::BinOp(l, op, r) => SExpr::BinOp(Box::new(ev(*l)), op, Box::new(ev(*r))),
        Expr::UnaryMinus(x) => SExpr::UnaryMinus(Box::new(ev(*x))),
        Expr::Call(n, args) => SExpr::Call(n@, exprs_view(args@)),
        Expr::Pow(b, x) => SExpr::Pow(Box::new(ev(*b)), Box::new(ev(*x))),
    }
}

/// The models of a sequence of expressions.
pub open spec fn exprs_view(v: Seq<Expr>) -> Seq<SExpr>
    decreases v,
{
    Seq::new(v.len(), |i: int| if 0 <= i < v.len() { ev(v[i]) } else { SExpr::Num(Seq::empty()) })
}

impl View for Expr {
    type V = SExpr;

    open spec fn view(&self) -> SExpr {
        ev(*self)
    }
}

// ───────────────────────────── Parse error ─────────────────────────────

/// A parse error with its message.
#[derive(Debug, Clone)]
pub struct ParseError(pub String);

/// Builds a parse error with the given message.
pub fn err(s: &str) -> (e: ParseError)
    ensures
        e.0@ == s@,
{
    ParseError(s.to_string())
}

// ───────────────────────────── Tokens ─────────────────────────────

/// Lexical tokens. `Num` holds the text of a number literal.
#[derive(Debug)]
pub enum Tok {
    Num(String),
    Ident(String),
    Unit(String),
    Plus,
    Minus,
    Star,
    Slash,
    Caret,
    LParen,
    RParen,
    Comma,
    Eq,
    Eof,
}

/// Mathematical model of a [`Tok`].
pub enum STok {
    Num(Seq<char>),
    Ident(Seq<char>),
    Unit(Seq<char>),
    Plus,
    Minus,
    Star,
    Slash,
    Caret,
    LParen,
    RParen,
    Comma,
    Eq,
    Eof,
}

impl View for Tok {
    type V = STok;

    open spec fn view(&self) -> STok {
        match self {
            Tok::Num(s) => STok::Num(s@),
            Tok::Ident(s) => STok::Ident(s@),
            Tok::Unit(s) => STok::Unit(s@),
            Tok::Plus => STok::Plus,
            Tok::Minus => STok::Minus,
            Tok::Star => STok::Star,
            Tok::Slash => STok::Slash,
            Tok::Caret => STok::Caret,
            Tok::LParen => STok::LParen,
            Tok::RParen => STok::RParen,
            Tok::Comma => STok::Comma,
            Tok::Eq => STok::Eq,
            Tok::Eof => STok::Eof,
        }
    }
}

/// The models of a sequence of tokens.
pub open spec fn toks_view(v: Seq<Tok>) -> Seq<STok> {
    v.map_values(|t: Tok| t@)
}

// ───────────────────────────── Character classes ─────────────────────────────

/// What std's `char::is_alphanumeric` answers for a character outside
/// ASCII (Unicode Alphabetic or Numeric).
pub uninterp spec fn unicode_alphanumeric(c: char) -> bool;

/// What std's `char::is_alphabetic` answers for a character outside ASCII
/// (Unicode Alphabetic).
pub uninterp spec fn unicode_alphabetic(c: char) -> bool;

/// The text that std's `Debug` formatting writes for a character (quoted, escaped).
pub uninterp spec fn char_debug_text(c: char) -> Seq<char>;

/// Characters outside ASCII that units use as marks: the multiplication
/// dots `·` and `⋅`, and the superscript minus and digits. None of them is
/// Alphabetic in Unicode (they are punctuation, math symbols and numbers).
pub open spec fn unit_mark(c: char) -> bool {
    ||| c == '\u{00B7}' || c == '\u{22C5}' || c == '\u{207B}'
    ||| c == '\u{00B9}' || c == '\u{00B2}' || c == '\u{00B3}' || c == '\u{2070}'
    ||| '\u{2074}' <= c <= '\u{2079}'
}

/// Whether std's `char::is_alphabetic` holds: in ASCII exactly the letters;
/// not for the marks of units.
pub open spec fn alphabetic(c: char) -> bool {
    if (c as u32) < 128 {
        is_ascii_letter(c)
    } else if unit_mark(c) {
        false
    } else {
        unicode_alphabetic(c)
    }
}

/// Whether std's `char::is_alphanumeric` holds: in ASCII exactly the
/// letters and digits.
pub open spec fn alphanumeric(c: char) -> bool {
    if (c as u32) < 128 {
        is_ascii_letter(c) || is_digit(c)
    } else {
        unicode_alphanumeric(c)
    }
}

/// std's `char::is_alphanumeric`: in ASCII the letters and digits (the
/// only ASCII characters that are Alphabetic or Numeric); outside ASCII
/// the contract names its answer.
#[verifier::external_body]
pub(crate) fn is_alphanumeric(c: char) -> (b: bool)
    ensures
        b == (if (c as u32) < 128 {
            is_ascii_letter(c) || is_digit(c)
        } else {
            unicode_alphanumeric(c)
        }),
{
    c.is_alphanumeric()
}

/// std's `char::is_alphabetic`: in ASCII the letters (the only ASCII
/// characters that are Alphabetic); false for the marks of units, which
/// Unicode does not count as Alphabetic; for other characters the contract
/// names its answer.
#[verifier::external_body]
pub(crate) fn is_alphabetic(c: char) -> (b: bool)
    ensures
        b == (if (c as u32) < 128 {
            is_ascii_letter(c)
        } else if unit_mark(c) {
            false
        } else {
            unicode_alphabetic(c)
        }),
{
    c.is_alphabetic()
}

/// std's `Debug` formatting of a `char`; the contract names its text.
#[verifier::external_body]
pub(crate) fn debug_char(c: char) -> (s: String)
    ensures
        s@ == char_debug_text(c),
{
    format!("{c:?}")
}

pub open spec fn is_digit(c: char) -> bool {
    '0' <= c <= '9'
}

pub open spec fn is_ascii_letter(c: char) -> bool {
    ('a' <= c <= 'z') || ('A' <= c <= 'Z')
}

pub open spec fn is_exp_mark(c: char) -> bool {
    c == 'e' || c == 'E'
}

// ───────────────────────────── Number literals ─────────────────────────────

/// One step of the automaton for decimal float literals
/// `(D+ | D+ '.' D* | D* '.' D+) ([eE] [+-]? D+)?`; `-1` rejects.
/// States: 0 start, 1 integer digits, 2 leading dot, 3 fraction,
/// 4 after exponent mark, 5 after exponent sign, 6 exponent digits.
pub open spec fn lit_step(st: int, c: char) -> int {
    if st == 0 {
        if is_digit(c) { 1 } else if c == '.' { 2 } else { -1 }
    } else if st == 1 {
        if is_digit(c) { 1 } else if c == '.' { 3 } else if is_exp_mark(c) { 4 } else { -1 }
    } else if st == 2 {
        if is_digit(c) { 3 } else { -1 }
    } else if st == 3 {
        if is_digit(c) { 3 } else if is_exp_mark(c) { 4 } else { -1 }
    } else if st == 4 {
        if c == '+' || c == '-' { 5 } else if is_digit(c) { 6 } else { -1 }
    } else if st == 5 || st == 6 {
        if is_digit(c) { 6 } else { -1 }
    } else {
        -1
    }
}

/// State of the literal automaton after reading `t`.
pub open spec fn lit_run(t: Seq<char>) -> int
    decreases t.len(),
{
    if t.len() == 0 {
        0
    } else {
        lit_step(lit_run(t.drop_last()), t.last())
    }
}

/// `t` is a decimal floating-point literal that std's `f64::from_str` accepts
/// (without sign, `inf` or `nan`).
pub open spec fn is_float_literal(t: Seq<char>) -> bool {
    let st = lit_run(t);
    st == 1 || st == 3 || st == 6
}

fn lit_step_exec(st: i8, c: char) -> (r: i8)
    requires
        -1 <= st <= 6,
    ensures
        r == lit_step(st as int, c),
        -1 <= r <= 6,
{
    let d = '0' <= c && c <= '9';
    let e = c == 'e' || c == 'E';
    if st == 0 {
        if d { 1 } else if c == '.' { 2 } else { -1 }
    } else if st == 1 {
        if d { 1 } else if c == '.' { 3 } else if e { 4 } else { -1 }
    } else if st == 2 {
        if d { 3 } else { -1 }
    } else if st == 3 {
        if d { 3 } else if e { 4 } else { -1 }
    } else if st == 4 {
        if c == '+' || c == '-' { 5 } else if d { 6 } else { -1 }
    } else if st == 5 || st == 6 {
        if d { 6 } else { -1 }
    } else {
        -1
    }
}

/// Whether `t` is a decimal floating-point literal.
pub fn check_float_literal(t: &Vec<char>) -> (b: bool)
    ensures
        b == is_float_literal(t@),
{
    let mut st: i8 = 0;
    let mut i: usize = 0;
    while i < t.len()
        invariant
            i <= t.len(),
            -1 <= st <= 6,
            st == lit_run(t@.take(i as int)),
        decreases t.len() - i,
    {
        assert(t@.take(i + 1).drop_last() =~= t@.take(i as int));
        st = lit_step_exec(st, t[i]);
        i += 1;
    }
    assert(t@.take(t.len() as int) =~= t@);
    st == 1 || st == 3 || st == 6
}

// ───────────────────────────── Tokeniser ─────────────────────────────

/// `s[j]` continues the number literal that starts at `start`.
pub open spec fn num_continues(s: Seq<char>, start: int, j: int) -> bool {
    let c = s[j];
    is_digit(c) || c == '.' || is_exp_mark(c) || ((c == '+' || c == '-') && j > start
        && is_exp_mark(s[j - 1]))
}

/// End (exclusive) of the number literal that starts at `start`, scanning from `j`.
pub open spec fn num_end(s: Seq<char>, start: int, j: int) -> int
    decreases s.len() - j,
{
    if 0 <= j < s.len() && num_continues(s, start, j) {
        num_end(s, start, j + 1)
    } else {
        j
    }
}

/// End (exclusive) of an identifier whose characters continue from `j`.
pub open spec fn ident_end(s: Seq<char>, j: int) -> int
    decreases s.len() - j,
{
    if 0 <= j < s.len() && (alphanumeric(s[j]) || s[j] == '_') {
        ident_end(s, j + 1)
    } else {
        j
    }
}

/// Index of the first `"` at or after `j`, or the length of `s`.
pub open spec fn quote_end(s: Seq<char>, j: int) -> int
    decreases s.len() - j,
{
    if 0 <= j < s.len() && s[j] != '"' {
        quote_end(s, j + 1)
    } else {
        j
    }
}

/// The token that a one-character operator stands for.
pub open spec fn single_tok(c: char) -> Option<STok> {
    if c == '+' {
        Some(STok::Plus)
    } else if c == '-' {
        Some(STok::Minus)
    } else if c == '*' {
        Some(STok::Star)
    } else if c == '/' {
        Some(STok::Slash)
    } else if c == '^' {
        Some(STok::Caret)
    } else if c == '(' {
        Some(STok::LParen)
    } else if c == ')' {
        Some(STok::RParen)
    } else if c == ',' {
        Some(STok::Comma)
    } else if c == '=' {
        Some(STok::Eq)
    } else {
        None
    }
}

pub open spec fn cons_tok(t: STok, r: Result<Seq<STok>, Seq<char>>) -> Result<Seq<STok>, Seq<char>> {
    match r {
        Ok(ts) => Ok(seq![t] + ts),
        Err(m) => Err(m),
    }
}

/// Tokens of `s` from position `i`: blanks are skipped, `#` ends the line,
/// `"..."` is a unit, and the token list always ends with `Eof`.
/// An error carries its message.
pub open spec fn lex_from(s: Seq<char>, i: int) -> Result<Seq<STok>, Seq<char>>
    decreases s.len() - i,
{
    if i < 0 || i >= s.len() {
        Ok(seq![STok::Eof])
    } else {
        let c = s[i];
        if c == ' ' || c == '\t' {
            lex_from(s, i + 1)
        } else if c == '#' {
            Ok(seq![STok::Eof])
        } else if c == '"' {
            let e = quote_end(s, i + 1);
            proof {
                lemma_quote_end(s, i + 1);
            }
            let next = if e < s.len() { e + 1 } else { e };
            cons_tok(STok::Unit(s.subrange(i + 1, e)), lex_from(s, next))
        } else if single_tok(c) is Some {
            cons_tok(single_tok(c).unwrap(), lex_from(s, i + 1))
        } else if is_digit(c) || c == '.' {
            let e = num_end(s, i, i + 1);
            proof {
                lemma_num_end(s, i, i + 1);
            }
            let t = s.subrange(i, e);
            if is_float_literal(t) {
                cons_tok(STok::Num(t), lex_from(s, e))
            } else {
                Err("bad number: "@ + t)
            }
        } else if is_ascii_letter(c) || c == '_' {
            let e = ident_end(s, i + 1);
            proof {
                lemma_ident_end(s, i + 1);
            }
            cons_tok(STok::Ident(s.subrange(i, e)), lex_from(s, e))
        } else {
            Err("unexpected char: "@ + char_debug_text(c))
        }
    }
}

pub proof fn lemma_num_end(s: Seq<char>, start: int, j: int)
    requires
        0 <= j <= s.len(),
    ensures
        j <= num_end(s, start, j) <= s.len(),
    decreases s.len() - j,
{
    if j < s.len() && num_continues(s, start, j) {
        lemma_num_end(s, start, j + 1);
    }
}

pub proof fn lemma_ident_end(s: Seq<char>, j: int)
    requires
        0 <= j <= s.len(),
    ensures
        j <= ident_end(s, j) <= s.len(),
    decreases s.len() - j,
{
    if j < s.len() && (alphanumeric(s[j]) || s[j] == '_') {
        lemma_ident_end(s, j + 1);
    }
}

pub proof fn lemma_quote_end(s: Seq<char>, j: int)
    requires
        0 <= j <= s.len(),
    ensures
        j <= quote_end(s, j) <= s.len(),
        quote_end(s, j) < s.len() ==> s[quote_end(s, j)] == '"',
    decreases s.len() - j,
{
    if j < s.len() && s[j] != '"' {
        lemma_quote_end(s, j + 1);
    }
}

proof fn lemma_cons_step(whole: Result<Seq<STok>, Seq<char>>, done: Seq<STok>, t: STok, rest: Result<Seq<STok>, Seq<char>>)
    requires
        match cons_tok(t, rest) {
            Ok(r) => whole == Ok::<Seq<STok>, Seq<char>>(done + r),
            Err(m) => whole == Err::<Seq<STok>, Seq<char>>(m),
        },
    ensures
        match rest {
            Ok(r) => whole == Ok::<Seq<STok>, Seq<char>>(done.push(t) + r),
            Err(m) => whole == Err::<Seq<STok>, Seq<char>>(m),
        },
{
    match rest {
        Ok(r) => {
            assert(done + (seq![t] + r) =~= done.push(t) + r);
        },
        Err(m) => {},
    }
}

/// The sequence `s[a..b]` as a `Vec`.
fn slice_vec(s: &Vec<char>, a: usize, b: usize) -> (v: Vec<char>)
    requires
        a <= b <= s.len(),
    ensures
        v@ == s@.subrange(a as int, b as int),
{
    let mut v: Vec<char> = Vec::new();
    let mut k = a;
    while k < b
        invariant
            a <= k <= b <= s.len(),
            v@ == s@.subrange(a as int, k as int),
        decreases b - k,
    {
        v.push(s[k]);
        k += 1;
        assert(v@ =~= s@.subrange(a as int, k as int));
    }
    v
}

/// Splits a line of source into tokens, ending with `Eof`.
pub fn tokenise(src: &str) -> (r: Result<Vec<Tok>, ParseError>)
    ensures
        match lex_from(src@, 0) {
            Ok(ts) => r is Ok && toks_view(r->Ok_0@) == ts,
            Err(m) => r is Err && r->Err_0.0@ == m,
        },
{
    let s = chars_of(src);
    let n = s.len();
    let mut toks: Vec<Tok> = Vec::new();
    let mut i: usize = 0;
    while i < n
        invariant
            n == s@.len(),
            s@ == src@,
            i <= n,
            match lex_from(s@, i as int) {
                Ok(rest) => lex_from(s@, 0) == Ok::<Seq<STok>, Seq<char>>(toks_view(toks@) + rest),
                Err(m) => lex_from(s@, 0) == Err::<Seq<STok>, Seq<char>>(m),
            },
        ensures
            lex_from(s@, 0) == Ok::<Seq<STok>, Seq<char>>(toks_view(toks@) + seq![STok::Eof]),
        decreases n - i,
    {
        let c = s[i];
        let ghost old_toks = toks@;
        if c == ' ' || c == '\t' {
            i += 1;
        } else if c == '#' {
            assert(lex_from(s@, i as int) == Ok::<Seq<STok>, Seq<char>>(seq![STok::Eof]));
            break;
        } else if c == '"' {
            let mut e = i + 1;
            while e < n && s[e] != '"'
                invariant
                    i < e <= n,
                    n == s@.len(),
                    quote_end(s@, e as int) == quote_end(s@, i + 1),
                decreases n - e,
            {
                e += 1;
            }
            proof {
                lemma_quote_end(s@, i + 1);
                let next = if e < n { e + 1 } else { e as int };
                lemma_cons_step(lex_from(s@, 0), toks_view(old_toks), STok::Unit(s@.subrange(i + 1, e as int)), lex_from(s@, next));
            }
            let u = slice_vec(&s, i + 1, e);
            toks.push(Tok::Unit(string_of(&u)));
            assert(toks_view(toks@) =~= toks_view(old_toks).push(STok::Unit(s@.subrange(i + 1, e as int))));
            i = if e < n { e + 1 } else { e };
        } else if c == '+' || c == '-' || c == '*' || c == '/' || c == '^' || c == '(' || c == ')'
            || c == ',' || c == '=' {
            let t = if c == '+' {
                Tok::Plus
            } else if c == '-' {
                Tok::Minus
            } else if c == '*' {
                Tok::Star
            } else if c == '/' {
                Tok::Slash
            } else if c == '^' {
                Tok::Caret
            } else if c == '(' {
                Tok::LParen
            } else if c == ')' {
                Tok::RParen
            } else if c == ',' {
                Tok::Comma
            } else {
                Tok::Eq
            };
            assert(t@ == single_tok(c).unwrap());
            proof {
                lemma_cons_step(lex_from(s@, 0), toks_view(old_toks), single_tok(c).unwrap(), lex_from(s@, i + 1));
            }
            toks.push(t);
            assert(toks_view(toks@) =~= toks_view(old_toks).push(single_tok(c).unwrap()));
            i += 1;
        } else if ('0' <= c && c <= '9') || c == '.' {
            let mut e = i + 1;
            while e < n && (('0' <= s[e] && s[e] <= '9') || s[e] == '.' || s[e] == 'e' || s[e] == 'E'
                || ((s[e] == '+' || s[e] == '-') && (s[e - 1] == 'e' || s[e - 1] == 'E')))
                invariant
                    i < e <= n,
                    n == s@.len(),
                    num_end(s@, i as int, e as int) == num_end(s@, i as int, i + 1),
                decreases n - e,
            {
                e += 1;
            }
            proof {
                lemma_num_end(s@, i as int, i + 1);
            }
            let t = slice_vec(&s, i, e);
            if !check_float_literal(&t) {
                let mut m = String::from_str("bad number: ");
                let ts = string_of(&t);
                m.append(ts.as_str());
                return Err(ParseError(m));
            }
            proof {
                lemma_cons_step(lex_from(s@, 0), toks_view(old_toks), STok::Num(s@.subrange(i as int, e as int)), lex_from(s@, e as int));
            }
            toks.push(Tok::Num(string_of(&t)));
            assert(toks_view(toks@) =~= toks_view(old_toks).push(STok::Num(s@.subrange(i as int, e as int))));
            i = e;
        } else if ('a' <= c && c <= 'z') || ('A' <= c && c <= 'Z') || c == '_' {
            let mut e = i + 1;
            while e < n && (is_alphanumeric(s[e]) || s[e] == '_')
                invariant
                    i < e <= n,
                    n == s@.len(),
                    ident_end(s@, e as int) == ident_end(s@, i + 1),
                decreases n - e,
            {
                e += 1;
            }
            proof {
                lemma_ident_end(s@, i + 1);
                lemma_cons_step(lex_from(s@, 0), toks_view(old_toks), STok::Ident(s@.subrange(i as int, e as int)), lex_from(s@, e as int));
            }
            let t = slice_vec(&s, i, e);
            toks.push(Tok::Ident(string_of(&t)));
            assert(toks_view(toks@) =~= toks_view(old_toks).push(STok::Ident(s@.subrange(i as int, e as int))));
            i = e;
        } else {
            let mut m = String::from_str("unexpected char: ");
            let d = debug_char(c);
            m.append(d.as_str());
            return Err(ParseError(m));
        }
    }
    let ghost before = toks@;
    toks.push(Tok::Eof);
    assert(toks_view(toks@) =~= toks_view(before) + seq![STok::Eof]);
    assert(toks_view(toks@) =~= toks_view(before).push(STok::Eof));
    Ok(toks)
}

}

verus! {

// ───────────────────────────── Parser: model ─────────────────────────────

/// What std's `Debug` formatting writes for a string (quoted, escaped).
pub uninterp spec fn str_debug_text(s: Seq<char>) -> Seq<char>;

/// std's `Debug` formatting of a string; the contract names its text.
#[verifier::external_body]
pub(crate) fn debug_str(s: &str) -> (d: String)
    ensures
        d@ == str_debug_text(s@),
{
    format!("{s:?}")
}

/// How a token is shown in a parse error. A number shows its literal text.
pub open spec fn tok_debug(t: STok) -> Seq<char> {
    match t {
        STok::Num(s) => "Num("@ + s + ")"@,
        STok::Ident(s) => "Ident("@ + str_debug_text(s) + ")"@,
        STok::Unit(s) => "Unit("@ + str_debug_text(s) + ")"@,
        STok::Plus => "Plus"@,
        STok::Minus => "Minus"@,
        STok::Star => "Star"@,
        STok::Slash => "Slash"@,
        STok::Caret => "Caret"@,
        STok::LParen => "LParen"@,
        STok::RParen => "RParen"@,
        STok::Comma => "Comma"@,
        STok::Eq => "Eq"@,
        STok::Eof => "Eof"@,
    }
}

/// Result of parsing from a position: the tree and the next position, or a message.
pub type PRes = Result<(SExpr, int), Seq<char>>;

/// Result of parsing an argument list.
pub type ARes = Result<(Seq<SExpr>, int), Seq<char>>;

pub open spec fn tok_at(t: Seq<STok>, p: int) -> STok {
    if 0 <= p < t.len() {
        t[p]
    } else {
        STok::Eof
    }
}

/// Error text when `)` was expected at `p`.
pub open spec fn expected_rparen(t: Seq<STok>, p: int) -> Seq<char> {
    "expected RParen, got "@ + tok_debug(tok_at(t, p))
}

/// `expr := mul (('+' | '-') mul)*`, left-associative.
pub open spec fn p_add(t: Seq<STok>, p: int) -> PRes
    decreases t.len() - p, 7int,
{
    if p < 0 || p >= t.len() {
        Err(Seq::empty())
    } else {
        match p_mul(t, p) {
            Ok((l, p1)) => if p < p1 <= t.len() { p_add_rest(t, l, p1) } else { Err(Seq::empty()) },
            Err(m) => Err(m),
        }
    }
}

pub open spec fn p_add_rest(t: Seq<STok>, lhs: SExpr, p: int) -> PRes
    decreases t.len() - p, 6int,
{
    if p < 0 || p >= t.len() {
        Err(Seq::empty())
    } else if t[p] is Plus || t[p] is Minus {
        let op = if t[p] is Plus { BinOp::Add } else { BinOp::Sub };
        match p_mul(t, p + 1) {
            Ok((r, p2)) => if p < p2 <= t.len() {
                p_add_rest(t, SExpr::BinOp(Box::new(lhs), op, Box::new(r)), p2)
            } else {
                Err(Seq::empty())
            },
            Err(m) => Err(m),
        }
    } else {
        Ok((lhs, p))
    }
}

/// `mul := pow (('*' | '/') pow)*`, left-associative.
pub open spec fn p_mul(t: Seq<STok>, p: int) -> PRes
    decreases t.len() - p, 5int,
{
    if p < 0 || p >= t.len() {
        Err(Seq::empty())
    } else {
        match p_pow(t, p) {
            Ok((l, p1)) => if p < p1 <= t.len() { p_mul_rest(t, l, p1) } else { Err(Seq::empty()) },
            Err(m) => Err(m),
        }
    }
}

pub open spec fn p_mul_rest(t: Seq<STok>, lhs: SExpr, p: int) -> PRes
    decreases t.len() - p, 4int,
{
    if p < 0 || p >= t.len() {
        Err(Seq::empty())
    } else if t[p] is Star || t[p] is Slash {
        let op = if t[p] is Star { BinOp::Mul } else { BinOp::Div };
        match p_pow(t, p + 1) {
            Ok((r, p2)) => if p < p2 <= t.len() {
                p_mul_rest(t, SExpr::BinOp(Box::new(lhs), op, Box::new(r)), p2)
            } else {
                Err(Seq::empty())
            },
            Err(m) => Err(m),
        }
    } else {
        Ok((lhs, p))
    }
}

/// `pow := unary ('^' pow)?`, right-associative.
pub open spec fn p_pow(t: Seq<STok>, p: int) -> PRes
    decreases t.len() - p, 3int,
{
    if p < 0 || p >= t.len() {
        Err(Seq::empty())
    } else {
        match p_unary(t, p) {
            Ok((b, p1)) => if p < p1 < t.len() {
                if tok_at(t, p1) is Caret {
                    match p_pow(t, p1 + 1) {
                        Ok((e, p2)) => Ok((SExpr::Pow(Box::new(b), Box::new(e)), p2)),
                        Err(m) => Err(m),
                    }
                } else {
                    Ok((b, p1))
                }
            } else {
                Err(Seq::empty())
            },
            Err(m) => Err(m),
        }
    }
}

/// `unary := '-' unary | primary`.
pub open spec fn p_unary(t: Seq<STok>, p: int) -> PRes
    decreases t.len() - p, 2int,
{
    if p < 0 || p >= t.len() {
        Err(Seq::empty())
    } else if t[p] is Minus {
        match p_unary(t, p + 1) {
            Ok((e, p1)) => Ok((SExpr::UnaryMinus(Box::new(e)), p1)),
            Err(m) => Err(m),
        }
    } else {
        p_primary(t, p)
    }
}

/// `primary := number | '(' expr ')' | ident '(' expr (',' expr)* ')' | ident`.
pub open spec fn p_primary(t: Seq<STok>, p: int) -> PRes
    decreases t.len() - p, 1int,
{
    if p < 0 || p >= t.len() {
        Err(Seq::empty())
    } else {
        match t[p] {
            STok::Num(v) => Ok((SExpr::Num(v), p + 1)),
            STok::LParen => match p_add(t, p + 1) {
                Ok((e, p1)) => if tok_at(t, p1) is RParen {
                    Ok((e, p1 + 1))
                } else {
                    Err(expected_rparen(t, p1))
                },
                Err(m) => Err(m),
            },
            STok::Ident(name) => if tok_at(t, p + 1) is LParen {
                match p_args(t, p + 2) {
                    Ok((args, p1)) => if tok_at(t, p1) is RParen {
                        Ok((SExpr::Call(name, args), p1 + 1))
                    } else {
                        Err(expected_rparen(t, p1))
                    },
                    Err(m) => Err(m),
                }
            } else {
                Ok((SExpr::Var(name), p + 1))
            },
            other => Err("unexpected token: "@ + tok_debug(other)),
        }
    }
}

/// `args := expr (',' expr)*`.
pub open spec fn p_args(t: Seq<STok>, p: int) -> ARes
    decreases t.len() - p, 8int,
{
    if p < 0 || p >= t.len() {
        Err(Seq::empty())
    } else {
        match p_add(t, p) {
            Ok((e, p1)) => if p < p1 <= t.len() { p_args_rest(t, seq![e], p1) } else { Err(Seq::empty()) },
            Err(m) => Err(m),
        }
    }
}

pub open spec fn p_args_rest(t: Seq<STok>, acc: Seq<SExpr>, p: int) -> ARes
    decreases t.len() - p, 9int,
{
    if p < 0 || p >= t.len() {
        Err(Seq::empty())
    } else if t[p] is Comma {
        match p_add(t, p + 1) {
            Ok((e, p2)) => if p < p2 <= t.len() { p_args_rest(t, acc.push(e), p2) } else { Err(Seq::empty()) },
            Err(m) => Err(m),
        }
    } else {
        Ok((acc, p))
    }
}

/// The expression that a line of source denotes: tokenise, then parse an
/// expression from the first token. Tokens after the expression are ignored.
pub open spec fn parse_spec(src: Seq<char>) -> Result<SExpr, Seq<char>> {
    match lex_from(src, 0) {
        Ok(ts) => match p_add(ts, 0) {
            Ok((e, _)) => Ok(e),
            Err(m) => Err(m),
        },
        Err(m) => Err(m),
    }
}

}

verus! {

// ───────────────────────────── Parser ─────────────────────────────


struct Parser {
    toks: Vec<Tok>,
    pos: usize,
}

/// How a parse method's result relates to the model.
pub open spec fn parsed_as(r: Result<Expr, ParseError>, new_pos: int, s: PRes) -> bool {
    match s {
        Ok((e, p)) => r is Ok && ev(r->Ok_0) == e && new_pos == p,
        Err(m) => r is Err && r->Err_0.0@ == m,
    }
}

impl Parser {
    spec fn tv(&self) -> Seq<STok> {
        toks_view(self.toks@)
    }

    spec fn wf(&self) -> bool {
        &&& self.toks@.len() <= usize::MAX
        &&& self.toks@.len() > 0
        &&& self.toks@.last() is Eof
        &&& self.pos < self.toks@.len()
    }

    /// The parser keeps its tokens and stays well formed; a success consumed a token.
    spec fn step_ok(&self, old: &Parser, ok: bool) -> bool {
        &&& self.toks@ == old.toks@
        &&& self.wf()
        &&& ok ==> self.pos > old.pos
    }

    fn peek(&self) -> (t: &Tok)
        requires
            self.wf(),
        ensures
            t@ == self.tv()[self.pos as int],
            *t == self.toks@[self.pos as int],
    {
        &self.toks[self.pos]
    }

    fn advance(&mut self)
        requires
            old(self).wf(),
            !(old(self).toks@[old(self).pos as int] is Eof),
        ensures
            final(self).toks@ == old(self).toks@,
            final(self).pos == old(self).pos + 1,
            final(self).wf(),
    {
        self.pos = self.pos + 1;
    }

    fn expect_rparen(&mut self) -> (r: Result<(), ParseError>)
        requires
            old(self).wf(),
        ensures
            final(self).step_ok(&*old(self), r is Ok),
            r is Ok <==> old(self).tv()[old(self).pos as int] is RParen,
            r is Ok ==> final(self).pos == old(self).pos + 1,
            r is Err ==> r->Err_0.0@ == expected_rparen(old(self).tv(), old(self).pos as int),
    {
        if let Tok::RParen = self.peek() {
            self.advance();
            Ok(())
        } else {
            let mut m = String::from_str("expected RParen, got ");
            let d = tok_debug_exec(self.peek());
            m.append(d.as_str());
            Err(ParseError(m))
        }
    }

    fn add(&mut self) -> (r: Result<Expr, ParseError>)
        requires
            old(self).wf(),
        ensures
            final(self).step_ok(&*old(self), r is Ok),
            parsed_as(r, final(self).pos as int, p_add(old(self).tv(), old(self).pos as int)),
        decreases old(self).toks@.len() - old(self).pos, 7int,
    {
        let ghost t = self.tv();
        let ghost p0 = self.pos as int;
        let mut lhs = match self.mul() {
            Ok(e) => e,
            Err(e) => return Err(e),
        };
        loop
            invariant
                self.wf(),
                self.toks@ == old(self).toks@,
                p0 == old(self).pos,
                self.tv() == t,
                self.toks@.len() == t.len(),
                self.pos > p0,
                p_add(t, p0) == p_add_rest(t, ev(lhs), self.pos as int),
            ensures
                self.wf(),
                self.toks@ == old(self).toks@,
                self.pos > p0,
                p_add(t, p0) == Ok::<(SExpr, int), Seq<char>>((ev(lhs), self.pos as int)),
            decreases self.toks@.len() - self.pos,
        {
            let op = match self.peek() {
                Tok::Plus => BinOp::Add,
                Tok::Minus => BinOp::Sub,
                _ => break,
            };
            let ghost l0 = ev(lhs);
            self.advance();
            let rhs = match self.mul() {
                Ok(e) => e,
                Err(e) => return Err(e),
            };
            lhs = Expr::BinOp(Box::new(lhs), op, Box::new(rhs));
            assert(ev(lhs) == SExpr::BinOp(Box::new(l0), op, Box::new(ev(rhs))));
        }
        Ok(lhs)
    }

    fn mul(&mut self) -> (r: Result<Expr, ParseError>)
        requires
            old(self).wf(),
        ensures
            final(self).step_ok(&*old(self), r is Ok),
            parsed_as(r, final(self).pos as int, p_mul(old(self).tv(), old(self).pos as int)),
        decreases old(self).toks@.len() - old(self).pos, 5int,
    {
        let ghost t = self.tv();
        let ghost p0 = self.pos as int;
        let mut lhs = match self.pow() {
            Ok(e) => e,
            Err(e) => return Err(e),
        };
        loop
            invariant
                self.wf(),
                self.toks@ == old(self).toks@,
                p0 == old(self).pos,
                self.tv() == t,
                self.toks@.len() == t.len(),
                self.pos > p0,
                p_mul(t, p0) == p_mul_rest(t, ev(lhs), self.pos as int),
            ensures
                self.wf(),
                self.toks@ == old(self).toks@,
                self.pos > p0,
                p_mul(t, p0) == Ok::<(SExpr, int), Seq<char>>((ev(lhs), self.pos as int)),
            decreases self.toks@.len() - self.pos,
        {
            let op = match self.peek() {
                Tok::Star => BinOp::Mul,
                Tok::Slash => BinOp::Div,
                _ => break,
            };
            let ghost l0 = ev(lhs);
            self.advance();
            let rhs = match self.pow() {
                Ok(e) => e,
                Err(e) => return Err(e),
            };
            lhs = Expr::BinOp(Box::new(lhs), op, Box::new(rhs));
            assert(ev(lhs) == SExpr::BinOp(Box::new(l0), op, Box::new(ev(rhs))));
        }
        Ok(lhs)
    }

    fn pow(&mut self) -> (r: Result<Expr, ParseError>)
        requires
            old(self).wf(),
        ensures
            final(self).step_ok(&*old(self), r is Ok),
            parsed_as(r, final(self).pos as int, p_pow(old(self).tv(), old(self).pos as int)),
        decreases old(self).toks@.len() - old(self).pos, 3int,
    {
        let base = match self.unary() {
            Ok(e) => e,
            Err(e) => return Err(e),
        };
        if let Tok::Caret = self.peek() {
            self.advance();
            let exp = match self.pow() {
                Ok(e) => e,
                Err(e) => return Err(e),
            };
            Ok(Expr::Pow(Box::new(base), Box::new(exp)))
        } else {
            Ok(base)
        }
    }

    fn unary(&mut self) -> (r: Result<Expr, ParseError>)
        requires
            old(self).wf(),
        ensures
            final(self).step_ok(&*old(self), r is Ok),
            parsed_as(r, final(self).pos as int, p_unary(old(self).tv(), old(self).pos as int)),
        decreases old(self).toks@.len() - old(self).pos, 2int,
    {
        if let Tok::Minus = self.peek() {
            self.advance();
            match self.unary() {
                Ok(e) => Ok(Expr::UnaryMinus(Box::new(e))),
                Err(e) => Err(e),
            }
        } else {
            self.primary()
        }
    }

    fn primary(&mut self) -> (r: Result<Expr, ParseError>)
        requires
            old(self).wf(),
        ensures
            final(self).step_ok(&*old(self), r is Ok),
            parsed_as(r, final(self).pos as int, p_primary(old(self).tv(), old(self).pos as int)),
        decreases old(self).toks@.len() - old(self).pos, 1int,
    {
        let ghost t = self.tv();
        let ghost p0 = self.pos as int;
        match self.peek() {
            Tok::Num(v) => {
                let v = v.clone();
                self.advance();
                Ok(Expr::Num(v))
            },
            Tok::LParen => {
                self.advance();
                let e = match self.add() {
                    Ok(e) => e,
                    Err(e) => return Err(e),
                };
                match self.expect_rparen() {
                    Ok(()) => Ok(e),
                    Err(e) => Err(e),
                }
            },
            Tok::Ident(name) => {
                let name = name.clone();
                self.advance();
                if let Tok::LParen = self.peek() {
                    self.advance();
                    let args = match self.args() {
                        Ok(a) => a,
                        Err(e) => return Err(e),
                    };
                    match self.expect_rparen() {
                        Ok(()) => {
                            let r = Expr::Call(name, args);
                            assert(ev(r) == SExpr::Call(name@, exprs_view(args@)));
                            Ok(r)
                        },
                        Err(e) => Err(e),
                    }
                } else {
                    Ok(Expr::Var(name))
                }
            },
            other => {
                let mut m = String::from_str("unexpected token: ");
                let d = tok_debug_exec(other);
                m.append(d.as_str());
                Err(ParseError(m))
            },
        }
    }

    fn args(&mut self) -> (r: Result<Vec<Expr>, ParseError>)
        requires
            old(self).wf(),
        ensures
            final(self).step_ok(&*old(self), r is Ok),
            match p_args(old(self).tv(), old(self).pos as int) {
                Ok((a, p)) => r is Ok && exprs_view(r->Ok_0@) == a && final(self).pos == p,
                Err(m) => r is Err && r->Err_0.0@ == m,
            },
        decreases old(self).toks@.len() - old(self).pos, 8int,
    {
        let ghost t = self.tv();
        let ghost p0 = self.pos as int;
        let first = match self.add() {
            Ok(e) => e,
            Err(e) => return Err(e),
        };
        let mut args: Vec<Expr> = Vec::new();
        args.push(first);
        assert(exprs_view(args@) =~= seq![ev(first)]);
        loop
            invariant
                self.wf(),
                self.toks@ == old(self).toks@,
                p0 == old(self).pos,
                self.tv() == t,
                self.toks@.len() == t.len(),
                self.pos > p0,
                p_args(t, p0) == p_args_rest(t, exprs_view(args@), self.pos as int),
            ensures
                self.wf(),
                self.toks@ == old(self).toks@,
                self.pos > p0,
                p_args(t, p0) == Ok::<(Seq<SExpr>, int), Seq<char>>((exprs_view(args@), self.pos as int)),
            decreases self.toks@.len() - self.pos,
        {
            if let Tok::Comma = self.peek() {
            } else {
                break;
            }
            let ghost a0 = exprs_view(args@);
            self.advance();
            let e = match self.add() {
                Ok(e) => e,
                Err(e) => return Err(e),
            };
            let ghost ee = ev(e);
            args.push(e);
            assert(exprs_view(args@) =~= a0.push(ee));
        }
        Ok(args)
    }
}

/// The text of a token in error messages (see [`tok_debug`]).
fn tok_debug_exec(t: &Tok) -> (s: String)
    ensures
        s@ == tok_debug(t@),
{
    match t {
        Tok::Num(v) => {
            let mut s = String::from_str("Num(");
            s.append(v.as_str());
            s.append(")");
            s
        },
        Tok::Ident(v) => {
            let mut s = String::from_str("Ident(");
            let d = debug_str(v.as_str());
            s.append(d.as_str());
            s.append(")");
            s
        },
        Tok::Unit(v) => {
            let mut s = String::from_str("Unit(");
            let d = debug_str(v.as_str());
            s.append(d.as_str());
            s.append(")");
            s
        },
        Tok::Plus => String::from_str("Plus"),
        Tok::Minus => String::from_str("Minus"),
        Tok::Star => String::from_str("Star"),
        Tok::Slash => String::from_str("Slash"),
        Tok::Caret => String::from_str("Caret"),
        Tok::LParen => String::from_str("LParen"),
        Tok::RParen => String::from_str("RParen"),
        Tok::Comma => String::from_str("Comma"),
        Tok::Eq => String::from_str("Eq"),
        Tok::Eof => String::from_str("Eof"),
    }
}

/// Parses one line of source into an expression tree.
pub fn parse_expr(src: &str) -> (r: Result<Expr, ParseError>)
    ensures
        match parse_spec(src@) {
            Ok(e) => r is Ok && r->Ok_0@ == e,
            Err(m) => r is Err && r->Err_0.0@ == m,
        },
{
    let toks = match tokenise(src) {
        Ok(t) => t,
        Err(e) => return Err(e),
    };
    proof {
        lemma_lex_ends_with_eof(src@, 0);
    }
    let n = toks.len();
    assert(toks_view(toks@)[n - 1] == toks@[n - 1]@);
    let mut p = Parser { toks, pos: 0 };
    p.add()
}

/// A token list from the lexer is non-empty and ends with `Eof`.
pub proof fn lemma_lex_ends_with_eof(s: Seq<char>, i: int)
    ensures
        lex_from(s, i) matches Ok(ts) ==> ts.len() > 0 && ts.last() is Eof,
    decreases s.len() - i,
{
    if 0 <= i < s.len() {
        let c = s[i];
        if c == ' ' || c == '\t' {
            lemma_lex_ends_with_eof(s, i + 1);
        } else if c == '"' {
            lemma_quote_end(s, i + 1);
            let e = quote_end(s, i + 1);
            let next = if e < s.len() { e + 1 } else { e };
            lemma_lex_ends_with_eof(s, next);
        } else if single_tok(c) is Some {
            lemma_lex_ends_with_eof(s, i + 1);
        } else if is_digit(c) || c == '.' {
            lemma_num_end(s, i, i + 1);
            lemma_lex_ends_with_eof(s, num_end(s, i, i + 1));
        } else if is_ascii_letter(c) || c == '_' {
            lemma_ident_end(s, i + 1);
            lemma_lex_ends_with_eof(s, ident_end(s, i + 1));
        }
    }
}

}

verus! {

/// A copy of an expression tree.
pub fn clone_expr(e: &Expr) -> (c: Expr)
    ensures
        c@ == e@,
    decreases e,
{
    match e {
        Expr::Num(s) => Expr::Num(s.clone()),
        Expr::Var(s) => Expr::Var(s.clone()),
        Expr::BinOp(l, op, r) => Expr::BinOp(Box::new(clone_expr(l)), *op, Box::new(clone_expr(r))),
        Expr::UnaryMinus(a) => Expr::UnaryMinus(Box::new(clone_expr(a))),
        Expr::Pow(b, x) => Expr::Pow(Box::new(clone_expr(b)), Box::new(clone_expr(x))),
        Expr::Call(n, args) => {
            let out = clone_exprs(args);
            Expr::Call(n.clone(), out)
        },
    }
}

/// A copy of a list of expression trees.
pub fn clone_exprs(args: &Vec<Expr>) -> (out: Vec<Expr>)
    ensures
        exprs_view(out@) == exprs_view(args@),
    decreases args,
{
    let mut out: Vec<Expr> = Vec::new();
    let mut i: usize = 0;
    while i < args.len()
        invariant
            i <= args.len(),
            exprs_view(out@) == exprs_view(args@).take(i as int),
        decreases args.len() - i,
    {
        proof {
            assert(decreases_to!(args => args@[i as int]));
        }
        let c = clone_expr(&args[i]);
        let ghost before = out@;
        out.push(c);
        assert(exprs_view(out@) =~= exprs_view(before).push(ev(c)));
        assert(exprs_view(args@).take(i + 1) =~= exprs_view(args@).take(i as int).push(ev(args@[i as int])));
        i += 1;
    }
    assert(exprs_view(args@).take(i as int) =~= exprs_view(args@));
    out
}

}

verus! {

// ───────────────────────────── Grouping of products ─────────────────────────────

/// The operator that `*` or `/` stands for.
pub open spec fn product_op(t: STok) -> BinOp {
    if t is Star {
        BinOp::Mul
    } else {
        BinOp::Div
    }
}

/// `*` and `/` group to the left: after a product built so far, an operator
/// followed by a bare name makes that name the right operand of the product
/// built so far, and only then does what follows apply to the whole.
pub proof fn law_products_group_left(t: Seq<STok>, lhs: SExpr, p: int, name: Seq<char>)
    requires
        0 <= p,
        p + 2 < t.len(),
        t[p] is Star || t[p] is Slash,
        t[p + 1] == STok::Ident(name),
        !(t[p + 2] is LParen),
        !(t[p + 2] is Caret),
    ensures
        p_mul_rest(t, lhs, p) == p_mul_rest(
            t,
            SExpr::BinOp(Box::new(lhs), product_op(t[p]), Box::new(SExpr::Var(name))),
            p + 2,
        ),
{
    assert(p_primary(t, p + 1) == Ok::<(SExpr, int), Seq<char>>((SExpr::Var(name), p + 2)));
    assert(p_unary(t, p + 1) == p_primary(t, p + 1));
    assert(p_pow(t, p + 1) == Ok::<(SExpr, int), Seq<char>>((SExpr::Var(name), p + 2)));
}

/// A name of ASCII letters.
pub open spec fn letters(a: Seq<char>) -> bool {
    a.len() > 0 && forall|k: int| 0 <= k < a.len() ==> is_ascii_letter(#[trigger] a[k])
}

proof fn lemma_ident_end_letters(s: Seq<char>, i: int, n: int, j: int)
    requires
        0 <= i < j <= i + n <= s.len(),
        forall|k: int| i <= k < i + n ==> is_ascii_letter(#[trigger] s[k]),
        i + n == s.len() || s[i + n] == ' ',
    ensures
        ident_end(s, j) == i + n,
    decreases i + n - j,
{
    if j < i + n {
        assert(is_ascii_letter(s[j]));
        assert(alphanumeric(s[j]));
        lemma_ident_end_letters(s, i, n, j + 1);
    } else if j < s.len() {
        assert(s[j] == ' ');
        assert(!alphanumeric(s[j]));
    }
}

proof fn lemma_lex_letters(s: Seq<char>, i: int, n: int)
    requires
        0 <= i,
        1 <= n,
        i + n <= s.len(),
        forall|k: int| i <= k < i + n ==> is_ascii_letter(#[trigger] s[k]),
        i + n == s.len() || s[i + n] == ' ',
    ensures
        lex_from(s, i) == cons_tok(STok::Ident(s.subrange(i, i + n)), lex_from(s, i + n)),
{
    assert(is_ascii_letter(s[i]));
    lemma_ident_end_letters(s, i, n, i + 1);
    assert(!is_digit(s[i]) && s[i] != '.');
    assert(single_tok(s[i]) is None);
}

/// The text `a o1 b o2 c`: three names and two operators, with blanks.
pub open spec fn product_text(a: Seq<char>, o1: char, b: Seq<char>, o2: char, c: Seq<char>) -> Seq<char> {
    a + seq![' ', o1, ' '] + b + seq![' ', o2, ' '] + c
}

/// The operator that the character `*` or `/` stands for.
pub open spec fn product_char_op(o: char) -> BinOp {
    if o == '*' {
        BinOp::Mul
    } else {
        BinOp::Div
    }
}

/// The token of the character `*` or `/`.
pub open spec fn product_tok(o: char) -> STok {
    if o == '*' {
        STok::Star
    } else {
        STok::Slash
    }
}

#[verifier::spinoff_prover]
proof fn lemma_product_text_tokens(a: Seq<char>, o1: char, b: Seq<char>, o2: char, c: Seq<char>)
    requires
        letters(a),
        letters(b),
        letters(c),
        o1 == '*' || o1 == '/',
        o2 == '*' || o2 == '/',
    ensures
        lex_from(product_text(a, o1, b, o2, c), 0) == Ok::<Seq<STok>, Seq<char>>(
            seq![STok::Ident(a), product_tok(o1), STok::Ident(b), product_tok(o2), STok::Ident(c), STok::Eof],
        ),
{
    let s = product_text(a, o1, b, o2, c);
    let na = a.len() as int;
    let nb = b.len() as int;
    let nc = c.len() as int;
    let ib = na + 3;
    let ic = ib + nb + 3;
    assert(s.len() == ic + nc);
    assert forall|k: int| 0 <= k < na implies is_ascii_letter(#[trigger] s[k]) by {
        assert(s[k] == a[k]);
    }
    assert forall|k: int| ib <= k < ib + nb implies is_ascii_letter(#[trigger] s[k]) by {
        assert(s[k] == b[k - ib]);
    }
    assert forall|k: int| ic <= k < ic + nc implies is_ascii_letter(#[trigger] s[k]) by {
        assert(s[k] == c[k - ic]);
    }
    assert(s[na] == ' ' && s[na + 1] == o1 && s[na + 2] == ' ');
    assert(s[ib + nb] == ' ' && s[ib + nb + 1] == o2 && s[ib + nb + 2] == ' ');
    assert(s.subrange(0, na) =~= a);
    assert(s.subrange(ib, ib + nb) =~= b);
    assert(s.subrange(ic, ic + nc) =~= c);
    let q5 = seq![STok::Eof];
    let q4 = seq![STok::Ident(c), STok::Eof];
    let q3 = seq![product_tok(o2), STok::Ident(c), STok::Eof];
    let q2 = seq![STok::Ident(b), product_tok(o2), STok::Ident(c), STok::Eof];
    let q1 = seq![product_tok(o1), STok::Ident(b), product_tok(o2), STok::Ident(c), STok::Eof];
    let q0 = seq![STok::Ident(a), product_tok(o1), STok::Ident(b), product_tok(o2), STok::Ident(c), STok::Eof];
    lemma_lex_letters(s, ic, nc);
    assert(lex_from(s, ic + nc) == Ok::<Seq<STok>, Seq<char>>(q5));
    assert(seq![STok::Ident(c)] + q5 =~= q4);
    assert(lex_from(s, ic) == Ok::<Seq<STok>, Seq<char>>(q4));
    assert(lex_from(s, ib + nb + 2) == lex_from(s, ic));
    assert(seq![product_tok(o2)] + q4 =~= q3);
    assert(lex_from(s, ib + nb + 1) == Ok::<Seq<STok>, Seq<char>>(q3));
    assert(lex_from(s, ib + nb) == lex_from(s, ib + nb + 1));
    lemma_lex_letters(s, ib, nb);
    assert(seq![STok::Ident(b)] + q3 =~= q2);
    assert(lex_from(s, ib) == Ok::<Seq<STok>, Seq<char>>(q2));
    assert(lex_from(s, na + 2) == lex_from(s, ib));
    assert(seq![product_tok(o1)] + q2 =~= q1);
    assert(lex_from(s, na + 1) == Ok::<Seq<STok>, Seq<char>>(q1));
    assert(lex_from(s, na) == lex_from(s, na + 1));
    lemma_lex_letters(s, 0, na);
    assert(seq![STok::Ident(a)] + q1 =~= q0);
}

#[verifier::spinoff_prover]
proof fn lemma_product_tokens_parse(ts: Seq<STok>, a: Seq<char>, t1: STok, b: Seq<char>, t2: STok, c: Seq<char>)
    requires
        t1 is Star || t1 is Slash,
        t2 is Star || t2 is Slash,
        ts == seq![STok::Ident(a), t1, STok::Ident(b), t2, STok::Ident(c), STok::Eof],
    ensures
        p_add(ts, 0) == Ok::<(SExpr, int), Seq<char>>((SExpr::BinOp(
            Box::new(SExpr::BinOp(Box::new(SExpr::Var(a)), product_op(t1), Box::new(SExpr::Var(b)))),
            product_op(t2),
            Box::new(SExpr::Var(c)),
        ), 5)),
{
    let va = SExpr::Var(a);
    let ab = SExpr::BinOp(Box::new(va), product_op(t1), Box::new(SExpr::Var(b)));
    let abc = SExpr::BinOp(Box::new(ab), product_op(t2), Box::new(SExpr::Var(c)));
    assert(p_primary(ts, 0) == Ok::<(SExpr, int), Seq<char>>((va, 1)));
    assert(p_unary(ts, 0) == p_primary(ts, 0));
    assert(p_pow(ts, 0) == Ok::<(SExpr, int), Seq<char>>((va, 1)));
    law_products_group_left(ts, va, 1, b);
    law_products_group_left(ts, ab, 3, c);
    assert(p_mul_rest(ts, abc, 5) == Ok::<(SExpr, int), Seq<char>>((abc, 5)));
    assert(p_mul(ts, 0) == Ok::<(SExpr, int), Seq<char>>((abc, 5)));
    assert(p_add_rest(ts, abc, 5) == Ok::<(SExpr, int), Seq<char>>((abc, 5)));
}

/// In `a o1 b o2 c`, with `*` or `/` for each operator, the first operator
/// applies first: the expression is `(a o1 b) o2 c`, never `a o1 (b o2 c)`.
pub proof fn law_product_text_groups_left(a: Seq<char>, o1: char, b: Seq<char>, o2: char, c: Seq<char>)
    requires
        letters(a),
        letters(b),
        letters(c),
        o1 == '*' || o1 == '/',
        o2 == '*' || o2 == '/',
    ensures
        parse_spec(product_text(a, o1, b, o2, c)) == Ok::<SExpr, Seq<char>>(SExpr::BinOp(
            Box::new(SExpr::BinOp(Box::new(SExpr::Var(a)), product_char_op(o1), Box::new(SExpr::Var(b)))),
            product_char_op(o2),
            Box::new(SExpr::Var(c)),
        )),
{
    let ts = seq![STok::Ident(a), product_tok(o1), STok::Ident(b), product_tok(o2), STok::Ident(c), STok::Eof];
    lemma_product_text_tokens(a, o1, b, o2, c);
    lemma_product_tokens_parse(ts, a, product_tok(o1), b, product_tok(o2), c);
    assert(product_op(product_tok(o1)) == product_char_op(o1));
    assert(product_op(product_tok(o2)) == product_char_op(o2));
}

}

verus! {

/// The operator that `+` or `-` stands for.
pub open spec fn sum_op(t: STok) -> BinOp {
    if t is Plus {
        BinOp::Add
    } else {
        BinOp::Sub
    }
}

/// `+` and `-` group to the left: after a sum built so far, an operator
/// followed by a bare name that nothing binds tighter makes that name the
/// right operand of the sum built so far, before what follows applies.
pub proof fn law_sums_group_left(t: Seq<STok>, lhs: SExpr, p: int, name: Seq<char>)
    requires
        0 <= p,
        p + 2 < t.len(),
        t[p] is Plus || t[p] is Minus,
        t[p + 1] == STok::Ident(name),
        !(t[p + 2] is LParen || t[p + 2] is Caret || t[p + 2] is Star || t[p + 2] is Slash),
    ensures
        p_add_rest(t, lhs, p) == p_add_rest(
            t,
            SExpr::BinOp(Box::new(lhs), sum_op(t[p]), Box::new(SExpr::Var(name))),
            p + 2,
        ),
{
    let v = SExpr::Var(name);
    assert(p_primary(t, p + 1) == Ok::<(SExpr, int), Seq<char>>((v, p + 2)));
    assert(p_unary(t, p + 1) == p_primary(t, p + 1));
    assert(p_pow(t, p + 1) == Ok::<(SExpr, int), Seq<char>>((v, p + 2)));
    assert(p_mul_rest(t, v, p + 2) == Ok::<(SExpr, int), Seq<char>>((v, p + 2)));
    assert(p_mul(t, p + 1) == Ok::<(SExpr, int), Seq<char>>((v, p + 2)));
}

/// `*` and `/` bind tighter than `+` and `-`: in `… ± b ∘ c` with bare
/// names `b` and `c` and `∘` a `*` or `/`, the product `b ∘ c` is the
/// right operand of the sum built so far.
pub proof fn law_products_bind_tighter(t: Seq<STok>, lhs: SExpr, p: int, b: Seq<char>, c: Seq<char>)
    requires
        0 <= p,
        p + 4 < t.len(),
        t[p] is Plus || t[p] is Minus,
        t[p + 1] == STok::Ident(b),
        t[p + 2] is Star || t[p + 2] is Slash,
        t[p + 3] == STok::Ident(c),
        !(t[p + 4] is LParen || t[p + 4] is Caret || t[p + 4] is Star || t[p + 4] is Slash),
    ensures
        p_add_rest(t, lhs, p) == p_add_rest(
            t,
            SExpr::BinOp(
                Box::new(lhs),
                sum_op(t[p]),
                Box::new(SExpr::BinOp(Box::new(SExpr::Var(b)), product_op(t[p + 2]), Box::new(SExpr::Var(c)))),
            ),
            p + 4,
        ),
{
    let vb = SExpr::Var(b);
    let bc = SExpr::BinOp(Box::new(vb), product_op(t[p + 2]), Box::new(SExpr::Var(c)));
    assert(p_primary(t, p + 1) == Ok::<(SExpr, int), Seq<char>>((vb, p + 2)));
    assert(p_unary(t, p + 1) == p_primary(t, p + 1));
    assert(p_pow(t, p + 1) == Ok::<(SExpr, int), Seq<char>>((vb, p + 2)));
    law_products_group_left(t, vb, p + 2, c);
    assert(p_mul_rest(t, bc, p + 4) == Ok::<(SExpr, int), Seq<char>>((bc, p + 4)));
    assert(p_mul(t, p + 1) == Ok::<(SExpr, int), Seq<char>>((bc, p + 4)));
}

}
