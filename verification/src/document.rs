use vstd::prelude::*;
use crate::ast::{Expr, SExpr, ParseError, parse_expr, parse_spec, ev, exprs_view, clone_expr,
    is_alphabetic, is_alphanumeric, alphabetic, alphanumeric};
use crate::text::{chars_of, string_of, sub_vec, trim_chars, trim_spec, lemma_trim_lo, lemma_trim_hi};

verus! {

// ───────────────────────────── Line model ─────────────────────────────

/// One line of a calculation document.
#[derive(Debug)]
pub enum Line {
    Comment(String),
    Blank,
    Assignment { lhs: String, expr: Expr, unit: String },
    Eval { expr: Expr, unit: String },
    /// | col1 | col2 | ...  — markdown-style table row
    TableRow(Vec<String>),
    /// plot(expr, var, a, b); the bounds are the expressions written there.
    Plot { expr: Expr, var: String, a: Expr, b: Expr },
}

/// Model of a [`Line`].
pub enum SLine {
    Comment(Seq<char>),
    Blank,
    Assignment { lhs: Seq<char>, expr: SExpr, unit: Seq<char> },
    Eval { expr: SExpr, unit: Seq<char> },
    TableRow(Seq<Seq<char>>),
    Plot { expr: SExpr, var: Seq<char>, a: SExpr, b: SExpr },
}

pub open spec fn strings_view(v: Seq<String>) -> Seq<Seq<char>> {
    v.map_values(|s: String| s@)
}

impl View for Line {
    type V = SLine;

    open spec fn view(&self) -> SLine {
        match self {
            Line::Comment(s) => SLine::Comment(s@),
            Line::Blank => SLine::Blank,
            Line::Assignment { lhs, expr, unit } => SLine::Assignment { lhs: lhs@, expr: ev(*expr), unit: unit@ },
            Line::Eval { expr, unit } => SLine::Eval { expr: ev(*expr), unit: unit@ },
            Line::TableRow(cells) => SLine::TableRow(strings_view(cells@)),
            Line::Plot { expr, var, a, b } => SLine::Plot { expr: ev(*expr), var: var@, a: ev(*a), b: ev(*b) },
        }
    }
}

// ───────────────────────────── Comments ─────────────────────────────

/// Position of the first `#` outside double quotes at or after `i`.
pub open spec fn comment_start(s: Seq<char>, i: int, in_quote: bool) -> int
    decreases s.len() - i,
{
    if i < 0 || i >= s.len() {
        s.len() as int
    } else if s[i] == '"' {
        comment_start(s, i + 1, !in_quote)
    } else if s[i] == '#' && !in_quote {
        i
    } else {
        comment_start(s, i + 1, in_quote)
    }
}

pub proof fn lemma_comment_start(s: Seq<char>, i: int, q: bool)
    requires
        0 <= i <= s.len(),
    ensures
        i <= comment_start(s, i, q) <= s.len(),
    decreases s.len() - i,
{
    if i < s.len() {
        if s[i] == '"' {
            lemma_comment_start(s, i + 1, !q);
        } else if !(s[i] == '#' && !q) {
            lemma_comment_start(s, i + 1, q);
        }
    }
}

/// `s` up to its first `#` that is not inside double quotes.
pub open spec fn strip_comment_spec(s: Seq<char>) -> Seq<char> {
    s.take(comment_start(s, 0, false))
}

/// The text before the first `#` that is not inside double quotes.
pub fn strip_comment(s: &Vec<char>) -> (r: Vec<char>)
    ensures
        r@ == strip_comment_spec(s@),
{
    let mut in_quote = false;
    let mut i: usize = 0;
    while i < s.len()
        invariant
            i <= s.len(),
            comment_start(s@, i as int, in_quote) == comment_start(s@, 0, false),
        decreases s.len() - i,
    {
        if s[i] == '"' {
            in_quote = !in_quote;
        } else if s[i] == '#' && !in_quote {
            return sub_vec(s, 0, i);
        }
        i += 1;
    }
    sub_vec(s, 0, s.len())
}

// ───────────────────────────── Assignment ─────────────────────────────

/// `s[i]` is a lone `=`: not followed by `=`, not preceded by `<` or `>`.
pub open spec fn assign_eq_at(s: Seq<char>, i: int) -> bool {
    &&& s[i] == '='
    &&& !(i + 1 < s.len() && s[i + 1] == '=')
    &&& !(i > 0 && (s[i - 1] == '<' || s[i - 1] == '>'))
}

/// First lone `=` at or after `i`.
pub open spec fn find_assign_eq(s: Seq<char>, i: int) -> Option<int>
    decreases s.len() - i,
{
    if i < 0 || i >= s.len() {
        None
    } else if assign_eq_at(s, i) {
        Some(i)
    } else {
        find_assign_eq(s, i + 1)
    }
}

pub proof fn lemma_find_assign_eq(s: Seq<char>, i: int)
    requires
        0 <= i,
    ensures
        find_assign_eq(s, i) matches Some(k) ==> i <= k < s.len() && assign_eq_at(s, k),
    decreases s.len() - i,
{
    if i < s.len() && !assign_eq_at(s, i) {
        lemma_find_assign_eq(s, i + 1);
    }
}

/// Position of the `=` that makes a line an assignment, if any.
pub fn find_assignment_eq(s: &Vec<char>) -> (r: Option<usize>)
    ensures
        match find_assign_eq(s@, 0) {
            Some(k) => r == Some(k as usize),
            None => r is None,
        },
{
    let n = s.len();
    let mut i: usize = 0;
    while i < n
        invariant
            i <= n,
            n == s@.len(),
            find_assign_eq(s@, i as int) == find_assign_eq(s@, 0),
        decreases n - i,
    {
        if s[i] == '=' {
            let doubled = i + 1 < n && s[i + 1] == '=';
            let after_rel = i > 0 && (s[i - 1] == '<' || s[i - 1] == '>');
            if !doubled && !after_rel {
                return Some(i);
            }
        }
        i += 1;
    }
    None
}

// ───────────────────────────── Units in quotes ─────────────────────────────

/// Index of the last `"` before `j`.
pub open spec fn last_quote_before(s: Seq<char>, j: int) -> Option<int>
    decreases j,
{
    if j <= 0 || j > s.len() {
        None
    } else if s[j - 1] == '"' {
        Some(j - 1)
    } else {
        last_quote_before(s, j - 1)
    }
}

pub proof fn lemma_last_quote_before(s: Seq<char>, j: int)
    ensures
        last_quote_before(s, j) matches Some(k) ==> 0 <= k < j && k < s.len(),
    decreases j,
{
    if 0 < j <= s.len() && s[j - 1] != '"' {
        lemma_last_quote_before(s, j - 1);
    }
}

/// A right-hand side split into its expression and the unit written in the
/// trailing double quotes (empty when there is none).
pub open spec fn extract_unit_spec(rhs: Seq<char>) -> (Seq<char>, Seq<char>) {
    let r = trim_spec(rhs);
    if r.len() > 0 && r.last() == '"' {
        let inner = r.drop_last();
        match last_quote_before(inner, inner.len() as int) {
            Some(st) => (trim_spec(inner.take(st)), inner.skip(st + 1)),
            None => (r, Seq::empty()),
        }
    } else {
        (r, Seq::empty())
    }
}

/// Splits a right-hand side into expression text and unit (see [`extract_unit_spec`]).
pub fn extract_unit(rhs: &Vec<char>) -> (r: (Vec<char>, Vec<char>))
    ensures
        (r.0@, r.1@) == extract_unit_spec(rhs@),
{
    let r = trim_chars(rhs);
    let n = r.len();
    if n > 0 && r[n - 1] == '"' {
        let inner = sub_vec(&r, 0, n - 1);
        assert(inner@ =~= r@.drop_last());
        let mut j = inner.len();
        while j > 0 && inner[j - 1] != '"'
            invariant
                j <= inner@.len(),
                last_quote_before(inner@, j as int) == last_quote_before(inner@, inner@.len() as int),
            decreases j,
        {
            j -= 1;
        }
        if j > 0 {
            let st = j - 1;
            let unit = sub_vec(&inner, st + 1, inner.len());
            assert(unit@ =~= inner@.skip(st + 1));
            let head = sub_vec(&inner, 0, st);
            assert(head@ =~= inner@.take(st as int));
            let e = trim_chars(&head);
            return (e, unit);
        }
    }
    (r, Vec::new())
}

// ───────────────────────────── Table cells ─────────────────────────────

/// The pieces of `s` between `|` separators (std's `split('|')`).
pub open spec fn split_bar(s: Seq<char>) -> Seq<Seq<char>>
    decreases s.len(),
{
    if s.len() == 0 {
        seq![Seq::empty()]
    } else {
        let p = split_bar(s.drop_last());
        if s.last() == '|' {
            p.push(Seq::empty())
        } else {
            p.update(p.len() - 1, p.last().push(s.last()))
        }
    }
}

pub proof fn lemma_split_bar_len(s: Seq<char>)
    ensures
        split_bar(s).len() >= 1,
    decreases s.len(),
{
    if s.len() > 0 {
        lemma_split_bar_len(s.drop_last());
    }
}

/// The trimmed pieces that are not empty.
pub open spec fn nonempty_trimmed(ps: Seq<Seq<char>>) -> Seq<Seq<char>>
    decreases ps.len(),
{
    if ps.len() == 0 {
        Seq::empty()
    } else {
        let rest = nonempty_trimmed(ps.drop_last());
        let t = trim_spec(ps.last());
        if t.len() > 0 {
            rest.push(t)
        } else {
            rest
        }
    }
}

/// The cells of a table row: the trimmed, non-empty pieces between `|`.
pub open spec fn cells_spec(s: Seq<char>) -> Seq<Seq<char>> {
    nonempty_trimmed(split_bar(s))
}

/// The cells of a table row (see [`cells_spec`]).
pub fn split_cells(s: &Vec<char>) -> (r: Vec<String>)
    ensures
        strings_view(r@) == cells_spec(s@),
{
    let mut out: Vec<String> = Vec::new();
    let mut cur: Vec<char> = Vec::new();
    let mut i: usize = 0;
    proof {
        lemma_split_bar_len(s@.take(0));
    }
    while i < s.len()
        invariant
            i <= s.len(),
            split_bar(s@.take(i as int)).len() >= 1,
            cur@ == split_bar(s@.take(i as int)).last(),
            strings_view(out@) == nonempty_trimmed(split_bar(s@.take(i as int)).drop_last()),
        decreases s.len() - i,
    {
        let ghost p = split_bar(s@.take(i as int));
        assert(s@.take(i + 1).drop_last() =~= s@.take(i as int));
        assert(s@.take(i + 1).last() == s@[i as int]);
        if s[i] == '|' {
            let t = trim_chars(&cur);
            let ghost before = strings_view(out@);
            if t.len() > 0 {
                let ts = string_of(&t);
                out.push(ts);
                assert(strings_view(out@) =~= before.push(t@));
            }
            assert(split_bar(s@.take(i + 1)).drop_last() =~= p);
            assert(p.drop_last().push(p.last()) =~= p);
            cur = Vec::new();
            assert(cur@ =~= split_bar(s@.take(i + 1)).last());
        } else {
            cur.push(s[i]);
            assert(split_bar(s@.take(i + 1)).drop_last() =~= p.drop_last());
        }
        i += 1;
    }
    assert(s@.take(s.len() as int) =~= s@);
    let ghost p = split_bar(s@);
    let t = trim_chars(&cur);
    let ghost before = strings_view(out@);
    if t.len() > 0 {
        let ts = string_of(&t);
        out.push(ts);
        assert(strings_view(out@) =~= before.push(t@));
    }
    assert(p.drop_last().push(p.last()) =~= p);
    out
}

}

verus! {

// ───────────────────────────── Lines ─────────────────────────────

/// A variable name: alphabetic or `_` first, then alphanumerics or `_`.
pub open spec fn valid_var_name(s: Seq<char>) -> bool {
    &&& s.len() > 0
    &&& alphabetic(s[0]) || s[0] == '_'
    &&& forall|k: int| 1 <= k < s.len() ==> alphanumeric(#[trigger] s[k]) || s[k] == '_'
}

/// What a bare expression line is: a plot when it is a call of `plot` with
/// four arguments, else an expression to evaluate.
pub open spec fn bare_line_spec(rhs: Seq<char>, unit: Seq<char>) -> Result<SLine, Seq<char>> {
    match parse_spec(rhs) {
        Ok(e) => if e is Call && e->Call_0 == "plot"@ && e->Call_1.len() == 4 {
            let args = e->Call_1;
            if args[1] is Var {
                Ok(SLine::Plot { expr: args[0], var: args[1]->Var_0, a: args[2], b: args[3] })
            } else {
                Err("plot: second arg must be variable name"@)
            }
        } else {
            Ok(SLine::Eval { expr: e, unit })
        },
        Err(m) => Err(m),
    }
}

/// What one line of a document is. Blank lines, `#` comments and `|` table
/// rows first; then a trailing comment is dropped; a lone `=` makes an
/// assignment, whose left side must be a variable name; a unit may follow
/// the expression in double quotes.
pub open spec fn line_spec(src: Seq<char>) -> Result<SLine, Seq<char>> {
    let t = trim_spec(src);
    if t.len() == 0 {
        Ok(SLine::Blank)
    } else if t[0] == '#' {
        Ok(SLine::Comment(trim_spec(t.skip(1))))
    } else if t[0] == '|' {
        Ok(SLine::TableRow(cells_spec(t)))
    } else {
        let nc = trim_spec(strip_comment_spec(t));
        match find_assign_eq(nc, 0) {
            None => {
                let (rhs, unit) = extract_unit_spec(nc);
                bare_line_spec(trim_spec(rhs), unit)
            },
            Some(k) => assignment_spec(nc, k),
        }
    }
}

/// An assignment line whose `=` is at `k`: the name before it must be a
/// variable name; after it come the expression and its unit.
pub open spec fn assignment_spec(nc: Seq<char>, k: int) -> Result<SLine, Seq<char>> {
    let lhs = trim_spec(nc.take(k));
    if lhs.len() == 0 {
        Err("missing variable name"@)
    } else if !valid_var_name(lhs) {
        Err("invalid variable name: '"@ + lhs + "'"@)
    } else {
        let (rhs, unit) = extract_unit_spec(trim_spec(nc.skip(k + 1)));
        match parse_spec(trim_spec(rhs)) {
            Ok(e) => Ok(SLine::Assignment { lhs, expr: e, unit }),
            Err(m) => Err(m),
        }
    }
}

/// Whether `s` is a variable name (see [`valid_var_name`]).
fn check_var_name(s: &Vec<char>) -> (b: bool)
    ensures
        b == valid_var_name(s@),
{
    if s.len() == 0 {
        return false;
    }
    if !(is_alphabetic(s[0]) || s[0] == '_') {
        return false;
    }
    let mut k: usize = 1;
    while k < s.len()
        invariant
            1 <= k <= s.len(),
            forall|q: int| 1 <= q < k ==> alphanumeric(#[trigger] s@[q]) || s@[q] == '_',
        decreases s.len() - k,
    {
        if !(is_alphanumeric(s[k]) || s[k] == '_') {
            return false;
        }
        k += 1;
    }
    true
}

fn bare_line(rhs: &Vec<char>, unit: Vec<char>) -> (r: Result<Line, ParseError>)
    ensures
        match bare_line_spec(rhs@, unit@) {
            Ok(l) => r is Ok && r->Ok_0@ == l,
            Err(m) => r is Err && r->Err_0.0@ == m,
        },
{
    let rs = string_of(rhs);
    let e = match parse_expr(rs.as_str()) {
        Ok(e) => e,
        Err(m) => return Err(m),
    };
    let is_plot = match &e {
        Expr::Call(name, args) => {
            assert(e@ == SExpr::Call(name@, exprs_view(args@)));
            crate::text::str_eq(name.as_str(), "plot") && args.len() == 4
        },
        _ => false,
    };
    assert(is_plot == (e@ is Call && e@->Call_0 == "plot"@ && e@->Call_1.len() == 4));
    if is_plot {
        match e {
            Expr::Call(name, args) => {
                assert(e@ == SExpr::Call(name@, exprs_view(args@)));
                assert(exprs_view(args@)[1] == ev(args@[1]));
                let var = match &args[1] {
                    Expr::Var(v) => v.clone(),
                    _ => {
                        return Err(ParseError(String::from_str("plot: second arg must be variable name")));
                    },
                };
                assert(exprs_view(args@)[0] == ev(args@[0]));
                assert(exprs_view(args@)[2] == ev(args@[2]));
                assert(exprs_view(args@)[3] == ev(args@[3]));
                let expr = clone_expr(&args[0]);
                let a = clone_expr(&args[2]);
                let b = clone_expr(&args[3]);
                Ok(Line::Plot { expr, var, a, b })
            },
            _ => Err(ParseError(String::new())),
        }
    } else {
        Ok(Line::Eval { expr: e, unit: string_of(&unit) })
    }
}

fn assignment_line(nc: &Vec<char>, k: usize) -> (r: Result<Line, ParseError>)
    requires
        k < nc.len(),
    ensures
        match assignment_spec(nc@, k as int) {
            Ok(l) => r is Ok && r->Ok_0@ == l,
            Err(m) => r is Err && r->Err_0.0@ == m,
        },
{
    let head = sub_vec(nc, 0, k);
    assert(head@ =~= nc@.take(k as int));
    let lhs = trim_chars(&head);
    if lhs.len() == 0 {
        return Err(ParseError(String::from_str("missing variable name")));
    }
    if !check_var_name(&lhs) {
        let mut m = String::from_str("invalid variable name: '");
        let ls = string_of(&lhs);
        m.append(ls.as_str());
        m.append("'");
        return Err(ParseError(m));
    }
    let tail = sub_vec(nc, k + 1, nc.len());
    assert(tail@ =~= nc@.skip(k + 1));
    let tail_t = trim_chars(&tail);
    let (rhs, unit) = extract_unit(&tail_t);
    let rhs_t = trim_chars(&rhs);
    let rs = string_of(&rhs_t);
    match parse_expr(rs.as_str()) {
        Ok(e) => Ok(Line::Assignment { lhs: string_of(&lhs), expr: e, unit: string_of(&unit) }),
        Err(m) => Err(m),
    }
}

/// Parses one line of a document (see [`line_spec`]).
#[verifier::spinoff_prover]
pub fn parse_line(src: &str) -> (r: Result<Line, ParseError>)
    ensures
        match line_spec(src@) {
            Ok(l) => r is Ok && r->Ok_0@ == l,
            Err(m) => r is Err && r->Err_0.0@ == m,
        },
{
    let s = chars_of(src);
    let t = trim_chars(&s);
    if t.len() == 0 {
        return Ok(Line::Blank);
    }
    if t[0] == '#' {
        let rest = sub_vec(&t, 1, t.len());
        assert(rest@ =~= t@.skip(1));
        let c = trim_chars(&rest);
        return Ok(Line::Comment(string_of(&c)));
    }
    if t[0] == '|' {
        return Ok(Line::TableRow(split_cells(&t)));
    }
    let sc = strip_comment(&t);
    let nc = trim_chars(&sc);
    match find_assignment_eq(&nc) {
        None => {
            let (rhs, unit) = extract_unit(&nc);
            let rhs_t = trim_chars(&rhs);
            bare_line(&rhs_t, unit)
        },
        Some(k) => {
            proof {
                lemma_find_assign_eq(nc@, 0);
            }
            assignment_line(&nc, k)
        },
    }
}

}

verus! {

// ───────────────────────────── Source lines ─────────────────────────────

/// The pieces of `s` between line feeds.
pub open spec fn split_nl(s: Seq<char>) -> Seq<Seq<char>>
    decreases s.len(),
{
    if s.len() == 0 {
        seq![Seq::empty()]
    } else {
        let p = split_nl(s.drop_last());
        if s.last() == '\n' {
            p.push(Seq::empty())
        } else {
            p.update(p.len() - 1, p.last().push(s.last()))
        }
    }
}

/// A terminated line without its carriage return, if it ends with one.
pub open spec fn strip_cr(l: Seq<char>) -> Seq<char> {
    if l.len() > 0 && l.last() == '\r' {
        l.drop_last()
    } else {
        l
    }
}

/// The lines of `s` (std's `str::lines`): split at `\n` or `\r\n`, the last
/// line ending optional.
pub open spec fn lines_spec(s: Seq<char>) -> Seq<Seq<char>> {
    let p = split_nl(s);
    let done = p.drop_last().map_values(|l: Seq<char>| strip_cr(l));
    if p.last().len() > 0 {
        done.push(p.last())
    } else {
        done
    }
}

proof fn lemma_split_nl_len(s: Seq<char>)
    ensures
        split_nl(s).len() >= 1,
    decreases s.len(),
{
    if s.len() > 0 {
        lemma_split_nl_len(s.drop_last());
    }
}

pub open spec fn lines_view(v: Seq<Vec<char>>) -> Seq<Seq<char>> {
    v.map_values(|l: Vec<char>| l@)
}

/// The lines of `s` (see [`lines_spec`]).
pub fn split_lines(s: &Vec<char>) -> (r: Vec<Vec<char>>)
    ensures
        lines_view(r@) == lines_spec(s@),
{
    let mut out: Vec<Vec<char>> = Vec::new();
    let mut cur: Vec<char> = Vec::new();
    let mut i: usize = 0;
    proof {
        lemma_split_nl_len(s@.take(0));
    }
    while i < s.len()
        invariant
            i <= s.len(),
            split_nl(s@.take(i as int)).len() >= 1,
            cur@ == split_nl(s@.take(i as int)).last(),
            lines_view(out@) == split_nl(s@.take(i as int)).drop_last().map_values(|l: Seq<char>| strip_cr(l)),
        decreases s.len() - i,
    {
        let ghost p = split_nl(s@.take(i as int));
        assert(s@.take(i + 1).drop_last() =~= s@.take(i as int));
        assert(s@.take(i + 1).last() == s@[i as int]);
        if s[i] == '\n' {
            let ghost before = lines_view(out@);
            let n = cur.len();
            let line = if n > 0 && cur[n - 1] == '\r' {
                let l = sub_vec(&cur, 0, n - 1);
                assert(l@ =~= cur@.drop_last());
                l
            } else {
                cur
            };
            let ghost lv = line@;
            out.push(line);
            assert(lines_view(out@) =~= before.push(lv));
            assert(split_nl(s@.take(i + 1)).drop_last() =~= p);
            assert(p.drop_last().push(p.last()) =~= p);
            assert(p.map_values(|l: Seq<char>| strip_cr(l)) =~= p.drop_last().map_values(|l: Seq<char>| strip_cr(l)).push(strip_cr(p.last())));
            cur = Vec::new();
            assert(cur@ =~= split_nl(s@.take(i + 1)).last());
        } else {
            cur.push(s[i]);
            assert(split_nl(s@.take(i + 1)).drop_last() =~= p.drop_last());
        }
        i += 1;
    }
    assert(s@.take(s.len() as int) =~= s@);
    if cur.len() > 0 {
        let ghost before = lines_view(out@);
        let ghost cv = cur@;
        out.push(cur);
        assert(lines_view(out@) =~= before.push(cv));
    }
    out
}

// ───────────────────────────── Document items ─────────────────────────────

/// A table: the first row is the header.
#[derive(Debug)]
pub struct TableData {
    pub header: Vec<String>,
    pub rows: Vec<Vec<String>>,
}

pub open spec fn rows_view(v: Seq<Vec<String>>) -> Seq<Seq<Seq<char>>> {
    v.map_values(|r: Vec<String>| strings_view(r@))
}

/// What a document is made of: a table gathered from consecutive table
/// rows, or one other line with its source text and how it parsed.
#[derive(Debug)]
pub enum DocItem {
    Table(TableData),
    Line { source: String, parsed: Result<Line, ParseError> },
}

/// Model of a [`DocItem`].
pub enum SItem {
    Table { header: Seq<Seq<char>>, rows: Seq<Seq<Seq<char>>> },
    Line { source: Seq<char>, parsed: Result<SLine, Seq<char>> },
}

pub open spec fn parsed_view(r: Result<Line, ParseError>) -> Result<SLine, Seq<char>> {
    match r {
        Ok(l) => Ok(l@),
        Err(e) => Err(e.0@),
    }
}

pub open spec fn item_view(it: DocItem) -> SItem {
    match it {
        DocItem::Table(t) => SItem::Table { header: strings_view(t.header@), rows: rows_view(t.rows@) },
        DocItem::Line { source, parsed } => SItem::Line { source: source@, parsed: parsed_view(parsed) },
    }
}

pub open spec fn items_view(v: Seq<DocItem>) -> Seq<SItem> {
    v.map_values(|it: DocItem| item_view(it))
}

/// A separator row such as `|---|:--:|`: each cell holds only `-`, `:` and blanks.
pub open spec fn separator_spec(cells: Seq<Seq<char>>) -> bool {
    forall|i: int, j: int|
        0 <= i < cells.len() && 0 <= j < cells[i].len() ==> {
            let c = #[trigger] cells[i][j];
            c == '-' || c == ':' || c == ' '
        }
}

/// The pending table rows as a table, if there are any.
pub open spec fn flush_spec(pending: Seq<Seq<Seq<char>>>) -> Seq<SItem> {
    if pending.len() == 0 {
        Seq::empty()
    } else {
        seq![SItem::Table { header: pending[0], rows: pending.skip(1) }]
    }
}

/// The items of the lines from `i` on, with table rows `pending` not yet
/// gathered: consecutive table rows become one table (separator rows are
/// dropped); every other line is an item of its own.
pub open spec fn items_from(ls: Seq<Seq<char>>, i: int, pending: Seq<Seq<Seq<char>>>) -> Seq<SItem>
    decreases ls.len() - i,
{
    if i < 0 || i >= ls.len() {
        flush_spec(pending)
    } else {
        let parsed = line_spec(ls[i]);
        if parsed is Ok && parsed->Ok_0 is TableRow {
            let cells = parsed->Ok_0->TableRow_0;
            if separator_spec(cells) {
                items_from(ls, i + 1, pending)
            } else {
                items_from(ls, i + 1, pending.push(cells))
            }
        } else {
            flush_spec(pending) + seq![SItem::Line { source: ls[i], parsed }] + items_from(ls, i + 1, Seq::empty())
        }
    }
}

/// The items of a document's source text.
pub open spec fn document_spec(source: Seq<char>) -> Seq<SItem> {
    items_from(lines_spec(source), 0, Seq::empty())
}

/// Whether a table row is a separator row (see [`separator_spec`]).
#[verifier::loop_isolation(false)]
pub fn is_separator_row(cells: &Vec<String>) -> (b: bool)
    ensures
        b == separator_spec(strings_view(cells@)),
{
    let ghost cv = strings_view(cells@);
    let mut i: usize = 0;
    while i < cells.len()
        invariant
            i <= cells.len(),
            cv == strings_view(cells@),
            forall|a: int, j: int| 0 <= a < i && 0 <= j < cv[a].len() ==> {
                let c = #[trigger] cv[a][j];
                c == '-' || c == ':' || c == ' '
            },
        decreases cells.len() - i,
    {
        let cs = chars_of(cells[i].as_str());
        assert(cv[i as int] == cs@);
        let mut j: usize = 0;
        while j < cs.len()
            invariant
                j <= cs.len(),
                forall|q: int| 0 <= q < j ==> {
                    let c = #[trigger] cs@[q];
                    c == '-' || c == ':' || c == ' '
                },
            decreases cs.len() - j,
        {
            let c = cs[j];
            if !(c == '-' || c == ':' || c == ' ') {
                assert(cv[i as int][j as int] == c);
                return false;
            }
            j += 1;
        }
        i += 1;
    }
    true
}

/// The pending rows gathered into a table: the first row is the header,
/// the others are the body.
pub fn table_from_rows(mut pending: Vec<Vec<String>>) -> (t: TableData)
    requires
        pending@.len() > 0,
    ensures
        strings_view(t.header@) == strings_view(pending@[0]@),
        rows_view(t.rows@) == rows_view(pending@).skip(1),
{
    let ghost pv = rows_view(pending@);
    let header = pending.remove(0);
    assert(rows_view(pending@) =~= pv.skip(1));
    TableData { header, rows: pending }
}

/// Splits a document into its items (see [`document_spec`]).
#[verifier::spinoff_prover]
#[verifier::rlimit(40)]
pub fn document_items(source: &str) -> (r: Vec<DocItem>)
    ensures
        items_view(r@) == document_spec(source@),
{
    let s = chars_of(source);
    let lines = split_lines(&s);
    let ghost ls = lines_view(lines@);
    let mut out: Vec<DocItem> = Vec::new();
    let mut pending: Vec<Vec<String>> = Vec::new();
    let mut i: usize = 0;
    assert(rows_view(pending@) =~= Seq::<Seq<Seq<char>>>::empty());
    assert(items_view(out@) + items_from(ls, 0, Seq::empty()) =~= items_from(ls, 0, Seq::empty()));
    while i < lines.len()
        invariant
            i <= lines.len(),
            ls == lines_view(lines@),
            ls == lines_spec(s@),
            s@ == source@,
            items_from(ls, 0, Seq::empty()) == items_view(out@) + items_from(ls, i as int, rows_view(pending@)),
        decreases lines.len() - i,
    {
        assert(ls[i as int] == lines@[i as int]@);
        let src = string_of(&lines[i]);
        let parsed = parse_line(src.as_str());
        let ghost pv = rows_view(pending@);
        let mut table_row = false;
        if let Ok(Line::TableRow(cells)) = &parsed {
            table_row = true;
        }
        if table_row {
            match parsed {
                Ok(Line::TableRow(cells)) => {
                    if !is_separator_row(&cells) {
                        let ghost cv = strings_view(cells@);
                        pending.push(cells);
                        assert(rows_view(pending@) =~= pv.push(cv));
                    }
                },
                _ => {},
            }
        } else {
            let ghost before = items_view(out@);
            if pending.len() > 0 {
                let t = table_from_rows(pending);
                out.push(DocItem::Table(t));
                assert(items_view(out@) =~= before + flush_spec(pv));
            } else {
                assert(items_view(out@) =~= before + flush_spec(pv));
            }
            pending = Vec::new();
            let ghost mid = items_view(out@);
            let it = DocItem::Line { source: src, parsed };
            let ghost iv = item_view(it);
            out.push(it);
            assert(items_view(out@) =~= mid.push(iv));
            assert(rows_view(pending@) =~= Seq::<Seq<Seq<char>>>::empty());
            assert(before + (flush_spec(pv) + seq![iv] + items_from(ls, i + 1, Seq::empty()))
                =~= items_view(out@) + items_from(ls, i + 1, Seq::empty()));
        }
        i += 1;
    }
    let ghost pv = rows_view(pending@);
    let ghost before = items_view(out@);
    if pending.len() > 0 {
        let t = table_from_rows(pending);
        out.push(DocItem::Table(t));
    }
    assert(items_view(out@) =~= before + flush_spec(pv));
    out
}


/// A line that is not a table row.
pub open spec fn not_table_row(l: Seq<char>) -> bool {
    !(line_spec(l) is Ok && line_spec(l)->Ok_0 is TableRow)
}

proof fn lemma_items_without_tables(ls: Seq<Seq<char>>, i: int)
    requires
        0 <= i <= ls.len(),
        forall|j: int| 0 <= j < ls.len() ==> not_table_row(#[trigger] ls[j]),
    ensures
        items_from(ls, i, Seq::empty()) =~= Seq::new(
            (ls.len() - i) as nat,
            |j: int| SItem::Line { source: ls[i + j], parsed: line_spec(ls[i + j]) },
        ),
    decreases ls.len() - i,
{
    if i < ls.len() {
        assert(not_table_row(ls[i]));
        lemma_items_without_tables(ls, i + 1);
        assert(flush_spec(Seq::<Seq<Seq<char>>>::empty()) =~= Seq::<SItem>::empty());
    }
}

/// A document without table rows has one item per line, in order: the
/// line's text and what it parses as.
pub proof fn law_one_item_per_line(source: Seq<char>)
    requires
        forall|j: int| 0 <= j < lines_spec(source).len() ==> not_table_row(#[trigger] lines_spec(source)[j]),
    ensures
        document_spec(source).len() == lines_spec(source).len(),
        forall|j: int| 0 <= j < lines_spec(source).len() ==> #[trigger] document_spec(source)[j] == (SItem::Line {
            source: lines_spec(source)[j],
            parsed: line_spec(lines_spec(source)[j]),
        }),
{
    let ls = lines_spec(source);
    assert forall|j: int| 0 <= j < ls.len() implies not_table_row(#[trigger] ls[j]) by {
        assert(not_table_row(lines_spec(source)[j]));
    }
    lemma_items_without_tables(ls, 0);
}

}

verus! {

/// The line items among `items`, in order.
pub open spec fn line_items(items: Seq<SItem>) -> Seq<SItem>
    decreases items.len(),
{
    if items.len() == 0 {
        Seq::empty()
    } else {
        (if items[0] is Line { seq![items[0]] } else { Seq::empty() }) + line_items(items.skip(1))
    }
}

/// The lines from `i` on that are not table rows, as items.
pub open spec fn non_table_lines(ls: Seq<Seq<char>>, i: int) -> Seq<SItem>
    decreases ls.len() - i,
{
    if i < 0 || i >= ls.len() {
        Seq::empty()
    } else if not_table_row(ls[i]) {
        seq![SItem::Line { source: ls[i], parsed: line_spec(ls[i]) }] + non_table_lines(ls, i + 1)
    } else {
        non_table_lines(ls, i + 1)
    }
}

/// No two tables follow each other.
pub open spec fn no_adjacent_tables(items: Seq<SItem>) -> bool {
    forall|k: int| 0 <= k < items.len() - 1 ==> !((#[trigger] items[k]) is Table && items[k + 1] is Table)
}

/// Every table is made of rows that are not separator rows.
pub open spec fn tables_of_rows(items: Seq<SItem>) -> bool {
    forall|k: int|
        0 <= k < items.len() ==> (#[trigger] items[k] matches SItem::Table { header, rows } ==> !separator_spec(
            header,
        ) && forall|r: int| 0 <= r < rows.len() ==> !separator_spec(#[trigger] rows[r]))
}

proof fn lemma_line_items_concat(a: Seq<SItem>, b: Seq<SItem>)
    ensures
        line_items(a + b) == line_items(a) + line_items(b),
    decreases a.len(),
{
    if a.len() == 0 {
        assert(a + b =~= b);
        assert(line_items(a) =~= Seq::<SItem>::empty());
        assert(line_items(a) + line_items(b) =~= line_items(b));
    } else {
        assert((a + b)[0] == a[0]);
        assert((a + b).skip(1) =~= a.skip(1) + b);
        lemma_line_items_concat(a.skip(1), b);
    }
}

proof fn lemma_flush_runs(p: Seq<Seq<Seq<char>>>)
    requires
        forall|r: int| 0 <= r < p.len() ==> !separator_spec(#[trigger] p[r]),
    ensures
        line_items(flush_spec(p)) == Seq::<SItem>::empty(),
        tables_of_rows(flush_spec(p)),
        flush_spec(p).len() <= 1,
        p.len() > 0 ==> flush_spec(p).len() == 1 && flush_spec(p)[0] is Table,
{
    let fl = flush_spec(p);
    if p.len() > 0 {
        assert(fl.skip(1) =~= Seq::<SItem>::empty());
        assert(line_items(fl.skip(1)) =~= Seq::<SItem>::empty());
        assert(line_items(fl) =~= Seq::<SItem>::empty());
        assert forall|r: int| 0 <= r < p.skip(1).len() implies !separator_spec(#[trigger] p.skip(1)[r]) by {
            assert(p.skip(1)[r] == p[r + 1]);
        }
    } else {
        assert(line_items(fl) =~= Seq::<SItem>::empty());
    }
}

proof fn lemma_join_runs(fl: Seq<SItem>, l: SItem, rest: Seq<SItem>)
    requires
        l is Line,
        fl.len() <= 1,
        line_items(fl) == Seq::<SItem>::empty(),
        tables_of_rows(fl),
        no_adjacent_tables(rest),
        tables_of_rows(rest),
    ensures
        line_items(fl + seq![l] + rest) == seq![l] + line_items(rest),
        no_adjacent_tables(fl + seq![l] + rest),
        tables_of_rows(fl + seq![l] + rest),
{
    let its = fl + seq![l] + rest;
    lemma_line_items_concat(fl + seq![l], rest);
    lemma_line_items_concat(fl, seq![l]);
    assert(seq![l].skip(1) =~= Seq::<SItem>::empty());
    assert(line_items(seq![l].skip(1)) =~= Seq::<SItem>::empty());
    assert(line_items(seq![l]) =~= seq![l]);
    assert(Seq::<SItem>::empty() + seq![l] =~= seq![l]);
    let n = fl.len() as int;
    assert(its[n] == l);
    assert forall|k: int| 0 <= k < its.len() - 1 implies !((#[trigger] its[k]) is Table && its[k + 1] is Table) by {
        if k > n {
            assert(its[k] == rest[k - n - 1]);
            assert(its[k + 1] == rest[k - n]);
        } else if k < n {
            assert(its[k + 1] == l);
        }
    }
    assert forall|k: int| 0 <= k < its.len() implies (#[trigger] its[k] matches SItem::Table { header, rows }
        ==> !separator_spec(header) && forall|r: int| 0 <= r < rows.len() ==> !separator_spec(
        #[trigger] rows[r],
    )) by {
        if k > n {
            assert(its[k] == rest[k - n - 1]);
        } else if k < n {
            assert(its[k] == fl[k]);
        }
    }
}

#[verifier::spinoff_prover]
proof fn lemma_items_from_runs(ls: Seq<Seq<char>>, i: int, p: Seq<Seq<Seq<char>>>)
    requires
        0 <= i <= ls.len(),
        forall|r: int| 0 <= r < p.len() ==> !separator_spec(#[trigger] p[r]),
    ensures
        line_items(items_from(ls, i, p)) == non_table_lines(ls, i),
        no_adjacent_tables(items_from(ls, i, p)),
        tables_of_rows(items_from(ls, i, p)),
        p.len() > 0 ==> items_from(ls, i, p).len() > 0 && items_from(ls, i, p)[0] is Table,
    decreases ls.len() - i,
{
    lemma_flush_runs(p);
    if i < ls.len() {
        let parsed = line_spec(ls[i]);
        if parsed is Ok && parsed->Ok_0 is TableRow {
            let cells = parsed->Ok_0->TableRow_0;
            if separator_spec(cells) {
                lemma_items_from_runs(ls, i + 1, p);
            } else {
                let p2 = p.push(cells);
                assert forall|r: int| 0 <= r < p2.len() implies !separator_spec(#[trigger] p2[r]) by {
                    if r < p.len() {
                        assert(p2[r] == p[r]);
                    }
                }
                lemma_items_from_runs(ls, i + 1, p2);
            }
        } else {
            let l = SItem::Line { source: ls[i], parsed };
            lemma_items_from_runs(ls, i + 1, Seq::empty());
            lemma_join_runs(flush_spec(p), l, items_from(ls, i + 1, Seq::empty()));
        }
    }
}

/// In a document's items, each table stands for a whole run of table rows:
/// no two tables follow each other, and every table is made of the run's
/// rows that are not separator rows. The other items are the document's
/// other lines, one for each, in order.
pub proof fn law_tables_are_whole_runs(source: Seq<char>)
    ensures
        no_adjacent_tables(document_spec(source)),
        tables_of_rows(document_spec(source)),
        line_items(document_spec(source)) == non_table_lines(lines_spec(source), 0),
{
    lemma_items_from_runs(lines_spec(source), 0, Seq::empty());
}

}

verus! {

/// What a document's lines amount to, read one after the other: a line that
/// is not a table row, or the cells of a table row.
pub enum DocEvent {
    Line(SItem),
    Row(Seq<Seq<char>>),
}

/// Table rows as events.
pub open spec fn row_events(rows: Seq<Seq<Seq<char>>>) -> Seq<DocEvent> {
    rows.map_values(|r: Seq<Seq<char>>| DocEvent::Row(r))
}

/// An item read back as events: a table gives its header and then its rows.
pub open spec fn item_events(it: SItem) -> Seq<DocEvent> {
    match it {
        SItem::Table { header, rows } => seq![DocEvent::Row(header)] + row_events(rows),
        SItem::Line { .. } => seq![DocEvent::Line(it)],
    }
}

/// Items read back as events, in order.
pub open spec fn items_events(items: Seq<SItem>) -> Seq<DocEvent>
    decreases items.len(),
{
    if items.len() == 0 {
        Seq::empty()
    } else {
        item_events(items[0]) + items_events(items.skip(1))
    }
}

/// The lines from `i` on as events: separator rows say nothing, another
/// table row gives its cells, and every other line gives itself as an item.
pub open spec fn line_events(ls: Seq<Seq<char>>, i: int) -> Seq<DocEvent>
    decreases ls.len() - i,
{
    if i < 0 || i >= ls.len() {
        Seq::empty()
    } else {
        let parsed = line_spec(ls[i]);
        if parsed is Ok && parsed->Ok_0 is TableRow {
            let cells = parsed->Ok_0->TableRow_0;
            if separator_spec(cells) {
                line_events(ls, i + 1)
            } else {
                seq![DocEvent::Row(cells)] + line_events(ls, i + 1)
            }
        } else {
            seq![DocEvent::Line(SItem::Line { source: ls[i], parsed })] + line_events(ls, i + 1)
        }
    }
}

proof fn lemma_items_events_concat(a: Seq<SItem>, b: Seq<SItem>)
    ensures
        items_events(a + b) == items_events(a) + items_events(b),
    decreases a.len(),
{
    if a.len() == 0 {
        assert(a + b =~= b);
        assert(items_events(a) + items_events(b) =~= items_events(b));
    } else {
        assert((a + b)[0] == a[0]);
        assert((a + b).skip(1) =~= a.skip(1) + b);
        lemma_items_events_concat(a.skip(1), b);
        assert(items_events(a + b) =~= item_events(a[0]) + (items_events(a.skip(1)) + items_events(b)));
    }
}

proof fn lemma_flush_events(p: Seq<Seq<Seq<char>>>)
    ensures
        items_events(flush_spec(p)) == row_events(p),
{
    let fl = flush_spec(p);
    if p.len() == 0 {
        assert(row_events(p) =~= Seq::<DocEvent>::empty());
    } else {
        assert(fl.skip(1) =~= Seq::<SItem>::empty());
        assert(items_events(fl.skip(1)) =~= Seq::<DocEvent>::empty());
        assert(row_events(p) =~= seq![DocEvent::Row(p[0])] + row_events(p.skip(1)));
        assert(items_events(fl) =~= item_events(fl[0]));
    }
}

#[verifier::spinoff_prover]
proof fn lemma_items_from_events(ls: Seq<Seq<char>>, i: int, p: Seq<Seq<Seq<char>>>)
    requires
        0 <= i <= ls.len(),
    ensures
        items_events(items_from(ls, i, p)) == row_events(p) + line_events(ls, i),
    decreases ls.len() - i,
{
    lemma_flush_events(p);
    if i >= ls.len() {
        assert(row_events(p) + line_events(ls, i) =~= row_events(p));
    } else {
        let parsed = line_spec(ls[i]);
        if parsed is Ok && parsed->Ok_0 is TableRow {
            let cells = parsed->Ok_0->TableRow_0;
            if separator_spec(cells) {
                lemma_items_from_events(ls, i + 1, p);
            } else {
                lemma_items_from_events(ls, i + 1, p.push(cells));
                assert(row_events(p.push(cells)) =~= row_events(p) + seq![DocEvent::Row(cells)]);
                assert(row_events(p) + line_events(ls, i) =~= row_events(p) + seq![DocEvent::Row(cells)]
                    + line_events(ls, i + 1));
            }
        } else {
            let l = SItem::Line { source: ls[i], parsed };
            let rest = items_from(ls, i + 1, Seq::empty());
            lemma_items_from_events(ls, i + 1, Seq::empty());
            assert(row_events(Seq::<Seq<Seq<char>>>::empty()) =~= Seq::<DocEvent>::empty());
            lemma_items_events_concat(flush_spec(p) + seq![l], rest);
            lemma_items_events_concat(flush_spec(p), seq![l]);
            assert(seq![l].skip(1) =~= Seq::<SItem>::empty());
            assert(items_events(seq![l].skip(1)) =~= Seq::<DocEvent>::empty());
            assert(seq![l][0] == l);
            assert(item_events(l) == seq![DocEvent::Line(l)]);
            assert(items_events(seq![l]) =~= seq![DocEvent::Line(l)]);
            assert(items_events(rest) =~= line_events(ls, i + 1));
            assert(row_events(p) + line_events(ls, i) =~= row_events(p) + seq![DocEvent::Line(l)]
                + line_events(ls, i + 1));
        }
    }
}

/// Read back in order, a document's items give its lines again: each line
/// that is not a table row as its own item, and each table as its header
/// and then its rows. With [`law_tables_are_whole_runs`], a table's header
/// is the first row of its run that is not a separator row, and its rows
/// are the run's later such rows, in order.
pub proof fn law_items_give_back_lines(source: Seq<char>)
    ensures
        items_events(document_spec(source)) == line_events(lines_spec(source), 0),
{
    lemma_items_from_events(lines_spec(source), 0, Seq::empty());
    assert(row_events(Seq::<Seq<Seq<char>>>::empty()) + line_events(lines_spec(source), 0)
        =~= line_events(lines_spec(source), 0));
}

}
