use vstd::prelude::*;
use crate::text::{chars_of, string_of};

verus! {

/// How one character is escaped for XML text and attributes.
pub open spec fn esc_char(c: char, quote: bool) -> Seq<char> {
    if c == '&' {
        "&amp;"@
    } else if c == '<' {
        "&lt;"@
    } else if c == '>' {
        "&gt;"@
    } else if c == '"' && quote {
        "&quot;"@
    } else {
        seq![c]
    }
}

/// `s` with `&`, `<`, `>` (and `"` when `quote`) replaced by entities.
pub open spec fn esc_spec(s: Seq<char>, quote: bool) -> Seq<char>
    decreases s.len(),
{
    if s.len() == 0 {
        Seq::empty()
    } else {
        esc_spec(s.drop_last(), quote) + esc_char(s.last(), quote)
    }
}

/// Escapes `s`; with `quote`, double quotes too.
pub fn escape(s: &str, quote: bool) -> (r: String)
    ensures
        r@ == esc_spec(s@, quote),
{
    let cs = chars_of(s);
    let mut out = String::new();
    let mut i: usize = 0;
    while i < cs.len()
        invariant
            i <= cs.len(),
            cs@ == s@,
            out@ == esc_spec(cs@.take(i as int), quote),
        decreases cs.len() - i,
    {
        let c = cs[i];
        assert(cs@.take(i + 1).drop_last() =~= cs@.take(i as int));
        assert(cs@.take(i + 1).last() == c);
        if c == '&' {
            out.append("&amp;");
        } else if c == '<' {
            out.append("&lt;");
        } else if c == '>' {
            out.append("&gt;");
        } else if c == '"' && quote {
            out.append("&quot;");
        } else {
            let mut v: Vec<char> = Vec::new();
            v.push(c);
            let t = string_of(&v);
            out.append(t.as_str());
        }
        i += 1;
    }
    assert(cs@.take(cs.len() as int) =~= cs@);
    out
}

/// Escapes `&`, `<`, `>` and `"` for XML.
pub fn xml_esc(s: &str) -> (r: String)
    ensures
        r@ == esc_spec(s@, true),
{
    escape(s, true)
}

/// Escapes `&`, `<` and `>` for HTML or SVG text.
pub fn esc(s: &str) -> (r: String)
    ensures
        r@ == esc_spec(s@, false),
{
    escape(s, false)
}

/// Escaped text holds no `<` or `>`, and no `"` when quotes are escaped:
/// it cannot open or close markup.
pub proof fn law_escape_has_no_markup(s: Seq<char>, quote: bool)
    ensures
        forall|i: int| 0 <= i < esc_spec(s, quote).len() ==> {
            let c = #[trigger] esc_spec(s, quote)[i];
            c != '<' && c != '>' && (quote ==> c != '"')
        },
    decreases s.len(),
{
    reveal_strlit("&amp;");
    reveal_strlit("&lt;");
    reveal_strlit("&gt;");
    reveal_strlit("&quot;");
    if s.len() > 0 {
        law_escape_has_no_markup(s.drop_last(), quote);
        let a = esc_spec(s.drop_last(), quote);
        let b = esc_char(s.last(), quote);
        assert forall|i: int| 0 <= i < (a + b).len() implies {
            let c = #[trigger] (a + b)[i];
            c != '<' && c != '>' && (quote ==> c != '"')
        } by {
            if i >= a.len() {
                assert((a + b)[i] == b[i - a.len()]);
            } else {
                assert((a + b)[i] == a[i]);
            }
        }
    }
}

}
