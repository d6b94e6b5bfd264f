use vstd::prelude::*;
use crate::document::{TableData, strings_view, rows_view};
use crate::docx_writer::{DocxBuilder, SPara};
use crate::text::{chars_of, string_of, sub_vec, trim_chars, trim_spec};
use crate::xml::{esc, esc_spec};
use vstd::utf8::encode_utf8;

verus! {

// ───────────────────────────── Comment headings ─────────────────────────────

/// Heading level and title of a comment: `## ` makes a level-2 heading,
/// `# ` a level-1 heading; any other comment is a level-1 heading as it
/// stands. The title is trimmed.
pub open spec fn heading_spec(t: Seq<char>) -> (u8, Seq<char>) {
    if t.len() >= 3 && t[0] == '#' && t[1] == '#' && t[2] == ' ' {
        (2, trim_spec(t.skip(3)))
    } else if t.len() >= 2 && t[0] == '#' && t[1] == ' ' {
        (1, trim_spec(t.skip(2)))
    } else {
        (1, trim_spec(t))
    }
}

/// Heading level and title of a comment (see [`heading_spec`]).
pub fn comment_heading(text: &str) -> (r: (u8, String))
    ensures
        (r.0, r.1@) == heading_spec(text@),
{
    let v = chars_of(text);
    let n = v.len();
    let from: usize = if n >= 3 && v[0] == '#' && v[1] == '#' && v[2] == ' ' {
        3
    } else if n >= 2 && v[0] == '#' && v[1] == ' ' {
        2
    } else {
        0
    };
    let level: u8 = if from == 3 { 2 } else { 1 };
    let rest = sub_vec(&v, from, n);
    assert(rest@ =~= v@.skip(from as int));
    assert(v@.skip(0) =~= v@);
    let t = trim_chars(&rest);
    let title = string_of(&t);
    assert(heading_spec(text@) == (level, trim_spec(v@.skip(from as int))));
    (level, title)
}

// ───────────────────────────── Joining ─────────────────────────────

/// The parts with `sep` between each two (std's `join`).
pub open spec fn join_spec(parts: Seq<Seq<char>>, sep: Seq<char>) -> Seq<char>
    decreases parts.len(),
{
    if parts.len() == 0 {
        Seq::empty()
    } else if parts.len() == 1 {
        parts[0]
    } else {
        join_spec(parts.drop_last(), sep) + sep + parts.last()
    }
}

/// The parts with `sep` between each two.
pub fn join(parts: &Vec<String>, sep: &str) -> (r: String)
    ensures
        r@ == join_spec(strings_view(parts@), sep@),
{
    let ghost ps = strings_view(parts@);
    let mut r = String::new();
    let mut i: usize = 0;
    while i < parts.len()
        invariant
            i <= parts.len(),
            ps == strings_view(parts@),
            r@ == join_spec(ps.take(i as int), sep@),
        decreases parts.len() - i,
    {
        if i > 0 {
            r.append(sep);
        }
        r.append(parts[i].as_str());
        i += 1;
        assert(ps.take(i as int).drop_last() =~= ps.take(i - 1));
    }
    assert(ps.take(i as int) =~= ps);
    r
}

// ───────────────────────────── Word export ─────────────────────────────

/// What one compiled line of a document brings to a Word export.
#[derive(Debug)]
pub enum DocxLine {
    /// A plot: drawn later, together with the plots right after it.
    Plot,
    Table(TableData),
    Comment(String),
    Error(String),
    /// The Office Math of a math line.
    Math(String),
    /// A line that adds nothing (blank, or math that could not be rendered).
    Nothing,
}

/// The text paragraphs of a table: the header, then each row, cells joined
/// by ` | `; an empty one adds no paragraph.
pub open spec fn table_paras(header: Seq<Seq<char>>, rows: Seq<Seq<Seq<char>>>) -> Seq<SPara> {
    text_paras(seq![join_spec(header, " | "@)] + rows.map_values(|r: Seq<Seq<char>>| join_spec(r, " | "@)))
}

/// One text paragraph for each non-empty text.
pub open spec fn text_paras(ts: Seq<Seq<char>>) -> Seq<SPara>
    decreases ts.len(),
{
    if ts.len() == 0 {
        Seq::empty()
    } else {
        text_paras(ts.drop_last()) + if ts.last().len() > 0 { seq![SPara::Text(ts.last())] } else { Seq::empty() }
    }
}

/// The paragraph that reports an error.
pub open spec fn error_text(e: Seq<char>) -> Seq<char> {
    "[Error: "@ + e + "]"@
}

/// The paragraphs that a line adds to a Word export.
pub open spec fn docx_line_paras(line: DocxLine) -> Seq<SPara> {
    match line {
        DocxLine::Plot => Seq::empty(),
        DocxLine::Table(td) => table_paras(strings_view(td.header@), rows_view(td.rows@)),
        DocxLine::Comment(t) => seq![SPara::Heading(heading_spec(t@).1, heading_spec(t@).0)],
        DocxLine::Error(e) => seq![SPara::Text(error_text(e@))],
        DocxLine::Math(o) => seq![SPara::Math(o@)],
        DocxLine::Nothing => Seq::empty(),
    }
}

/// What a compiled line brings to a Word document, by what it holds: a plot
/// first, then a table, a comment, an error, and last the Office Math of a
/// math line; a line with none of these adds nothing.
pub fn docx_line_for(
    is_plot: bool,
    table: Option<TableData>,
    comment: Option<String>,
    error: Option<String>,
    math: Option<String>,
) -> (r: DocxLine)
    ensures
        r == (if is_plot {
            DocxLine::Plot
        } else if table is Some {
            DocxLine::Table(table->Some_0)
        } else if comment is Some {
            DocxLine::Comment(comment->Some_0)
        } else if error is Some {
            DocxLine::Error(error->Some_0)
        } else if math is Some {
            DocxLine::Math(math->Some_0)
        } else {
            DocxLine::Nothing
        }),
{
    if is_plot {
        DocxLine::Plot
    } else if let Some(td) = table {
        DocxLine::Table(td)
    } else if let Some(text) = comment {
        DocxLine::Comment(text)
    } else if let Some(e) = error {
        DocxLine::Error(e)
    } else if let Some(m) = math {
        DocxLine::Math(m)
    } else {
        DocxLine::Nothing
    }
}

/// Whether the plots waiting to be drawn must be drawn before a line: any
/// line but a plot ends a run of plots.
pub fn ends_plot_run(pending: usize, is_plot: bool) -> (b: bool)
    ensures
        b == (pending > 0 && !is_plot),
{
    pending > 0 && !is_plot
}

/// Adds what a line brings to the document (see [`docx_line_paras`]).
pub fn add_docx_line(b: DocxBuilder, line: DocxLine) -> (r: DocxBuilder)
    ensures
        r.paras() == b.paras() + docx_line_paras(line),
        r.imgs() == b.imgs(),
{
    let ghost l = line;
    let ghost i0 = b.imgs();
    match line {
        DocxLine::Plot => {
            assert(b.paras() + docx_line_paras(l) =~= b.paras());
            b
        },
        DocxLine::Nothing => {
            assert(b.paras() + docx_line_paras(l) =~= b.paras());
            b
        },
        DocxLine::Comment(t) => {
            let (level, title) = comment_heading(t.as_str());
            b.heading(title.as_str(), level)
        },
        DocxLine::Error(e) => {
            let mut s = String::from_str("[Error: ");
            s.append(e.as_str());
            s.append("]");
            proof {
                reveal_strlit("]");
            }
            b.text(s.as_str())
        },
        DocxLine::Math(o) => b.math(o),
        DocxLine::Table(td) => {
            let ghost hv = strings_view(td.header@);
            let ghost rv = rows_view(td.rows@);
            let ghost ts = seq![join_spec(hv, " | "@)] + rv.map_values(|r: Seq<Seq<char>>| join_spec(r, " | "@));
            let ghost p0 = b.paras();
            let h = join(&td.header, " | ");
            let mut b = b.text(h.as_str());
            assert(ts.take(1) =~= seq![join_spec(hv, " | "@)]);
            assert(text_paras(ts.take(0)) =~= Seq::<SPara>::empty());
            assert(ts.take(1).drop_last() =~= ts.take(0));
            assert(b.paras() =~= p0 + text_paras(ts.take(1)));
            let mut i: usize = 0;
            while i < td.rows.len()
                invariant
                    i <= td.rows.len(),
                    rv == rows_view(td.rows@),
                    ts == seq![join_spec(hv, " | "@)] + rv.map_values(|r: Seq<Seq<char>>| join_spec(r, " | "@)),
                    b.paras() == p0 + text_paras(ts.take(i + 1)),
                    b.imgs() == i0,
                decreases td.rows.len() - i,
            {
                let row = join(&td.rows[i], " | ");
                assert(rv[i as int] == strings_view(td.rows@[i as int]@));
                let ghost before = b.paras();
                b = b.text(row.as_str());
                assert(ts[i + 1] == row@);
                assert(ts.take(i + 2).drop_last() =~= ts.take(i + 1));
                assert(b.paras() =~= p0 + text_paras(ts.take(i + 2)));
                i += 1;
            }
            assert(ts.take(i + 1) =~= ts);
            b
        },
    }
}

}

verus! {

// ───────────────────────────── Base64 ─────────────────────────────

/// The digit of value `v` in the standard Base64 alphabet.
pub open spec fn b64_digit(v: int) -> char {
    "ABCDEFGHIJKLMNOPQRSTUVWXYZabcdefghijklmnopqrstuvwxyz0123456789+/"@[v]
}

/// Standard Base64 with `=` padding (RFC 4648, section 4).
pub open spec fn base64_spec(d: Seq<u8>) -> Seq<char>
    decreases d.len(),
{
    if d.len() == 0 {
        Seq::empty()
    } else if d.len() == 1 {
        seq![b64_digit(d[0] as int / 4), b64_digit((d[0] % 4) * 16), '=', '=']
    } else if d.len() == 2 {
        seq![b64_digit(d[0] as int / 4), b64_digit((d[0] % 4) * 16 + d[1] / 16), b64_digit((d[1] % 16) * 4), '=']
    } else {
        seq![
            b64_digit(d[0] as int / 4),
            b64_digit((d[0] % 4) * 16 + d[1] / 16),
            b64_digit((d[1] % 16) * 4 + d[2] / 64),
            b64_digit(d[2] as int % 64),
        ] + base64_spec(d.skip(3))
    }
}

/// `base64::engine::general_purpose::STANDARD.encode`: standard Base64 with
/// padding. The crate panics where the length of the encoding overflows a
/// `usize`, which `requires` leaves out.
#[verifier::external_body]
fn base64_encode(data: &[u8]) -> (r: String)
    requires
        (data@.len() + 2) / 3 * 4 <= usize::MAX,
    ensures
        r@ == base64_spec(data@),
{
    base64::Engine::encode(&base64::engine::general_purpose::STANDARD, data)
}

// ───────────────────────────── HTML export ─────────────────────────────

/// What one compiled line of a document brings to an HTML export.
#[derive(Debug)]
pub enum HtmlLine {
    /// A plot: drawn later, together with the plots right after it.
    Plot,
    Table(TableData),
    Comment(String),
    Error(String),
    /// The SVG that Typst made of a math line, or why it could not.
    Equation(Result<String, String>),
    /// A line that adds nothing.
    Nothing,
}

/// What a compiled line brings to an HTML page, by what it holds: a plot
/// first, then a table, a comment, an error, and last the equation that
/// Typst made of a math line; a line with none of these adds nothing.
pub fn html_line_for(
    is_plot: bool,
    table: Option<TableData>,
    comment: Option<String>,
    error: Option<String>,
    equation: Option<Result<String, String>>,
) -> (r: HtmlLine)
    ensures
        r == (if is_plot {
            HtmlLine::Plot
        } else if table is Some {
            HtmlLine::Table(table->Some_0)
        } else if comment is Some {
            HtmlLine::Comment(comment->Some_0)
        } else if error is Some {
            HtmlLine::Error(error->Some_0)
        } else if equation is Some {
            HtmlLine::Equation(equation->Some_0)
        } else {
            HtmlLine::Nothing
        }),
{
    if is_plot {
        HtmlLine::Plot
    } else if let Some(td) = table {
        HtmlLine::Table(td)
    } else if let Some(text) = comment {
        HtmlLine::Comment(text)
    } else if let Some(e) = error {
        HtmlLine::Error(e)
    } else if let Some(eq) = equation {
        HtmlLine::Equation(eq)
    } else {
        HtmlLine::Nothing
    }
}

/// The cells of a row, each wrapped in `<tag>` and escaped.
pub open spec fn html_cells(cells: Seq<Seq<char>>, tag: Seq<char>) -> Seq<char>
    decreases cells.len(),
{
    if cells.len() == 0 {
        Seq::empty()
    } else {
        html_cells(cells.drop_last(), tag) + "<"@ + tag + ">"@ + esc_spec(cells.last(), false) + "</"@ + tag + ">"@
    }
}

/// The body rows of a table.
pub open spec fn html_rows(rows: Seq<Seq<Seq<char>>>) -> Seq<char>
    decreases rows.len(),
{
    if rows.len() == 0 {
        Seq::empty()
    } else {
        html_rows(rows.drop_last()) + "<tr>"@ + html_cells(rows.last(), "td"@) + "</tr>"@
    }
}

/// The HTML of a table.
pub open spec fn html_table_spec(header: Seq<Seq<char>>, rows: Seq<Seq<Seq<char>>>) -> Seq<char> {
    "<table><thead><tr>"@ + html_cells(header, "th"@) + "</tr></thead><tbody>"@ + html_rows(rows)
        + "</tbody></table>\n"@
}

/// The paragraph that reports an error.
pub open spec fn html_error_spec(e: Seq<char>) -> Seq<char> {
    "<p class='error'>⚠ "@ + esc_spec(e, false) + "</p>\n"@
}

/// The HTML that a line adds to the page.
pub open spec fn html_line_spec(line: HtmlLine) -> Seq<char> {
    match line {
        HtmlLine::Plot => Seq::empty(),
        HtmlLine::Nothing => Seq::empty(),
        HtmlLine::Table(td) => html_table_spec(strings_view(td.header@), rows_view(td.rows@)),
        HtmlLine::Comment(t) => "<h2>"@ + esc_spec(heading_spec(t@).1, false) + "</h2>\n"@,
        HtmlLine::Error(e) => html_error_spec(e@),
        HtmlLine::Equation(Ok(svg)) => "<div class='eq'><img src='data:image/svg+xml;base64,"@
            + base64_spec(encode_utf8(svg@)) + "' alt='equation'/></div>\n"@,
        HtmlLine::Equation(Err(e)) => html_error_spec(e@),
    }
}

fn html_cells_of(cells: &Vec<String>, open: &str, close: &str, tag: Ghost<Seq<char>>) -> (r: String)
    requires
        open@ == "<"@ + tag@ + ">"@,
        close@ == "</"@ + tag@ + ">"@,
    ensures
        r@ == html_cells(strings_view(cells@), tag@),
{
    let ghost cv = strings_view(cells@);
    let mut r = String::new();
    let mut i: usize = 0;
    while i < cells.len()
        invariant
            i <= cells.len(),
            cv == strings_view(cells@),
            open@ == "<"@ + tag@ + ">"@,
            close@ == "</"@ + tag@ + ">"@,
            r@ == html_cells(cv.take(i as int), tag@),
        decreases cells.len() - i,
    {
        r.append(open);
        let e = esc(cells[i].as_str());
        r.append(e.as_str());
        r.append(close);
        i += 1;
        assert(cv.take(i as int).drop_last() =~= cv.take(i - 1));
        assert(r@ =~= html_cells(cv.take(i as int), tag@));
    }
    assert(cv.take(i as int) =~= cv);
    r
}

/// The HTML of a table (see [`html_table_spec`]).
pub fn html_table(td: &TableData) -> (r: String)
    ensures
        r@ == html_table_spec(strings_view(td.header@), rows_view(td.rows@)),
{
    proof {
        reveal_strlit("<th>");
        reveal_strlit("</th>");
        reveal_strlit("<td>");
        reveal_strlit("</td>");
        reveal_strlit("<");
        reveal_strlit("</");
        reveal_strlit(">");
        reveal_strlit("th");
        reveal_strlit("td");
    }
    assert("<th>"@ =~= "<"@ + "th"@ + ">"@);
    assert("</th>"@ =~= "</"@ + "th"@ + ">"@);
    assert("<td>"@ =~= "<"@ + "td"@ + ">"@);
    assert("</td>"@ =~= "</"@ + "td"@ + ">"@);
    let ghost rv = rows_view(td.rows@);
    let mut r = String::from_str("<table><thead><tr>");
    let h = html_cells_of(&td.header, "<th>", "</th>", Ghost("th"@));
    r.append(h.as_str());
    r.append("</tr></thead><tbody>");
    let ghost head = r@;
    let mut i: usize = 0;
    while i < td.rows.len()
        invariant
            i <= td.rows.len(),
            rv == rows_view(td.rows@),
            "<td>"@ == "<"@ + "td"@ + ">"@,
            "</td>"@ == "</"@ + "td"@ + ">"@,
            r@ == head + html_rows(rv.take(i as int)),
        decreases td.rows.len() - i,
    {
        r.append("<tr>");
        let c = html_cells_of(&td.rows[i], "<td>", "</td>", Ghost("td"@));
        assert(rv[i as int] == strings_view(td.rows@[i as int]@));
        r.append(c.as_str());
        r.append("</tr>");
        i += 1;
        assert(rv.take(i as int).drop_last() =~= rv.take(i - 1));
        assert(r@ =~= head + html_rows(rv.take(i as int)));
    }
    assert(rv.take(i as int) =~= rv);
    r.append("</tbody></table>\n");
    r
}

fn html_error(e: &str) -> (r: String)
    ensures
        r@ == html_error_spec(e@),
{
    let mut r = String::from_str("<p class='error'>⚠ ");
    let x = esc(e);
    r.append(x.as_str());
    r.append("</p>\n");
    r
}

/// The HTML that a line adds to the page (see [`html_line_spec`]).
pub fn html_line(line: &HtmlLine) -> (r: String)
    requires
        line matches HtmlLine::Equation(Ok(svg)) ==> (encode_utf8(svg@).len() + 2) / 3 * 4 <= usize::MAX,
    ensures
        r@ == html_line_spec(*line),
{
    match line {
        HtmlLine::Plot => String::new(),
        HtmlLine::Nothing => String::new(),
        HtmlLine::Table(td) => html_table(td),
        HtmlLine::Comment(t) => {
            let (_level, title) = comment_heading(t.as_str());
            let mut r = String::from_str("<h2>");
            let x = esc(title.as_str());
            r.append(x.as_str());
            r.append("</h2>\n");
            r
        },
        HtmlLine::Error(e) => html_error(e.as_str()),
        HtmlLine::Equation(Ok(svg)) => {
            let b64 = base64_encode(svg.as_str().as_bytes());
            let mut r = String::from_str("<div class='eq'><img src='data:image/svg+xml;base64,");
            r.append(b64.as_str());
            r.append("' alt='equation'/></div>\n");
            r
        },
        HtmlLine::Equation(Err(e)) => html_error(e.as_str()),
    }
}

/// The HTML of a run of plots drawn as one SVG: nothing when the SVG is empty.
pub open spec fn html_plot_spec(svg: Seq<char>) -> Seq<char> {
    if svg.len() == 0 {
        Seq::empty()
    } else {
        "<div class='plot'>"@ + svg + "</div>\n"@
    }
}

/// The HTML of a run of plots drawn as one SVG (see [`html_plot_spec`]).
pub fn html_plot(svg: &str) -> (r: String)
    ensures
        r@ == html_plot_spec(svg@),
{
    if svg.is_empty() {
        String::new()
    } else {
        let mut r = String::from_str("<div class='plot'>");
        r.append(svg);
        r.append("</div>\n");
        r
    }
}

pub open spec fn html_head() -> Seq<char> {
    "<!DOCTYPE html>\n<html lang=\"en\">\n<head>\n<meta charset=\"UTF-8\">\n<meta name=\"viewport\" content=\"width=device-width, initial-scale=1.0\">\n<title>eqgui export</title>\n<style>\n  body {\n    font-family: 'Segoe UI', system-ui, sans-serif;\n    max-width: 860px;\n    margin: 40px auto;\n    padding: 0 24px;\n    color: #1a1a1a;\n    line-height: 1.6;\n    background: #fff;\n  }\n  h1, h2, h3 { color: #1a3a5c; margin-top: 2em; }\n  h2 { font-size: 1.5em; border-bottom: 2px solid #2563eb; padding-bottom: 4px; }\n  .eq {\n    text-align: center;\n    margin: 0.6em 0;\n  }\n  .eq img {\n    max-width: 100%;\n    vertical-align: middle;\n  }\n  .plot {\n    margin: 1.5em auto;\n    max-width: 600px;\n  }\n  .plot svg {\n    width: 100%;\n    height: auto;\n  }\n  .error {\n    color: #dc2626;\n    font-size: 0.9em;\n  }\n  table {\n    border-collapse: collapse;\n    margin: 1em 0;\n    width: 100%;\n  }\n  th, td {\n    border: 1px solid #d1d5db;\n    padding: 6px 12px;\n    text-align: left;\n  }\n  th {\n    background: #f3f4f6;\n    font-weight: 600;\n  }\n  tr:nth-child(even) td { background: #f9fafb; }\n  @media print {\n    body { max-width: 100%; margin: 0; }\n  }\n</style>\n</head>\n<body>\n"@
}

pub open spec fn html_tail() -> Seq<char> {
    "\n</body>\n</html>"@
}

/// The whole page: a fixed head with its style sheet, the body, and the end.
pub fn wrap_html(body: &str) -> (r: String)
    ensures
        r@ == html_head() + body@ + html_tail(),
{
    let mut r = String::from_str("<!DOCTYPE html>\n<html lang=\"en\">\n<head>\n<meta charset=\"UTF-8\">\n<meta name=\"viewport\" content=\"width=device-width, initial-scale=1.0\">\n<title>eqgui export</title>\n<style>\n  body {\n    font-family: 'Segoe UI', system-ui, sans-serif;\n    max-width: 860px;\n    margin: 40px auto;\n    padding: 0 24px;\n    color: #1a1a1a;\n    line-height: 1.6;\n    background: #fff;\n  }\n  h1, h2, h3 { color: #1a3a5c; margin-top: 2em; }\n  h2 { font-size: 1.5em; border-bottom: 2px solid #2563eb; padding-bottom: 4px; }\n  .eq {\n    text-align: center;\n    margin: 0.6em 0;\n  }\n  .eq img {\n    max-width: 100%;\n    vertical-align: middle;\n  }\n  .plot {\n    margin: 1.5em auto;\n    max-width: 600px;\n  }\n  .plot svg {\n    width: 100%;\n    height: auto;\n  }\n  .error {\n    color: #dc2626;\n    font-size: 0.9em;\n  }\n  table {\n    border-collapse: collapse;\n    margin: 1em 0;\n    width: 100%;\n  }\n  th, td {\n    border: 1px solid #d1d5db;\n    padding: 6px 12px;\n    text-align: left;\n  }\n  th {\n    background: #f3f4f6;\n    font-weight: 600;\n  }\n  tr:nth-child(even) td { background: #f9fafb; }\n  @media print {\n    body { max-width: 100%; margin: 0; }\n  }\n</style>\n</head>\n<body>\n");
    r.append(body);
    r.append("\n</body>\n</html>");
    r
}

}
