use eqgui::document::TableData;
use eqgui::docx_writer::{build_document, content_types, document_rels, inline_image, DocxBuilder, DocxPara};
use eqgui::export::{
    add_docx_line, comment_heading, docx_line_for, ends_plot_run, html_line_for, html_line, html_plot, html_table, join, wrap_html, DocxLine,
    HtmlLine,
};
use eqgui::notebook::{comment_markdown, Notebook};
use eqgui::xml::{esc, escape, xml_esc};

fn strings(v: &[&str]) -> Vec<String> {
    v.iter().map(|s| s.to_string()).collect()
}

fn part<'a>(parts: &'a [(String, Vec<u8>)], name: &str) -> &'a [u8] {
    &parts.iter().find(|(n, _)| n == name).unwrap_or_else(|| panic!("no part {name}")).1
}

fn text(bytes: &[u8]) -> &str {
    std::str::from_utf8(bytes).unwrap()
}

fn doc_xml(b: &DocxBuilder) -> String {
    let parts = b.parts();
    text(part(&parts, "word/document.xml")).to_string()
}

#[test]
fn xml_escaping() {
    assert_eq!(xml_esc("a<b & \"c\">"), "a&lt;b &amp; &quot;c&quot;&gt;");
    assert_eq!(esc("a<b & \"c\">"), "a&lt;b &amp; \"c\"&gt;");
    assert_eq!(escape("plain", true), "plain");
}

#[test]
fn escaped_text_has_no_markup() {
    let e = xml_esc("<w:t>\"x\"</w:t>");
    assert!(!e.contains('<') && !e.contains('>') && !e.contains('"'));
}

#[test]
fn comment_headings() {
    assert_eq!(comment_heading("## Loads "), (2, "Loads".to_string()));
    assert_eq!(comment_heading("# Section"), (1, "Section".to_string()));
    assert_eq!(comment_heading("  plain note "), (1, "plain note".to_string()));
    assert_eq!(comment_heading("#no space"), (1, "#no space".to_string()));
}

#[test]
fn join_with_separator() {
    assert_eq!(join(&strings(&["a", "b", "c"]), " | "), "a | b | c");
    assert_eq!(join(&strings(&["a"]), " | "), "a");
    assert_eq!(join(&Vec::new(), " | "), "");
}

#[test]
fn docx_builder_paragraphs() {
    let b = DocxBuilder::new().heading("Title", 1).text("").text("body").math("<m:oMath/>".to_string());
    let doc = doc_xml(&b);
    assert!(doc.contains("<w:p><w:pPr><w:pStyle w:val=\"Heading1\"/></w:pPr><w:r><w:t>Title</w:t></w:r></w:p>"));
    assert!(doc.contains("<w:p><w:r><w:t xml:space=\"preserve\">body</w:t></w:r></w:p>"));
    assert!(doc.contains("<m:oMathPara><m:oMathParaPr><m:jc m:val=\"center\"/></m:oMathParaPr><m:oMath/></m:oMathPara>"));
    // the empty text added no paragraph
    assert_eq!(doc.matches("<w:p>").count(), 3);
    assert!(doc.ends_with("<w:sectPr/></w:body></w:document>"));
}

#[test]
fn docx_heading_text_is_escaped() {
    let b = DocxBuilder::new().heading("a < b", 2);
    let doc = doc_xml(&b);
    assert!(doc.contains("Heading2\"/></w:pPr><w:r><w:t>a &lt; b</w:t>"));
}

#[test]
fn docx_images_get_numbered_ids() {
    let b = DocxBuilder::new().image(vec![1, 2, 3], 100, 50).image(vec![4], 10, 10);
    let parts = b.parts();
    assert_eq!(part(&parts, "word/media/rId10.png"), &[1, 2, 3]);
    assert_eq!(part(&parts, "word/media/rId11.png"), &[4]);
    let doc = text(part(&parts, "word/document.xml"));
    // 100 px at 9525 EMU per pixel
    assert!(doc.contains("<wp:extent cx=\"952500\" cy=\"476250\"/>"));
    assert!(doc.contains("<a:blip r:embed=\"rId10\"/>"));
    assert!(doc.contains("<wp:docPr id=\"2\" name=\"Image2\"/>"));
    let rels = text(part(&parts, "word/_rels/document.xml.rels"));
    assert!(rels.contains("<Relationship Id=\"rId11\" Type=\"http://schemas.openxmlformats.org/officeDocument/2006/relationships/image\" Target=\"media/rId11.png\"/>"));
    let types = text(part(&parts, "[Content_Types].xml"));
    assert!(types.contains("<Override PartName=\"/word/media/rId10.png\" ContentType=\"image/png\"/>"));
}

#[test]
fn docx_parts_in_order() {
    let parts = DocxBuilder::new().text("x").parts();
    let names: Vec<&str> = parts.iter().map(|(n, _)| n.as_str()).collect();
    assert_eq!(
        names,
        vec![
            "[Content_Types].xml",
            "_rels/.rels",
            "word/_rels/document.xml.rels",
            "word/document.xml",
            "word/styles.xml",
            "word/settings.xml"
        ]
    );
    assert!(text(part(&parts, "word/styles.xml")).contains("w:styleId=\"Heading3\""));
    assert!(text(part(&parts, "_rels/.rels")).contains("Target=\"word/document.xml\""));
}

#[test]
fn docx_build_makes_a_zip() {
    let bytes = DocxBuilder::new().heading("T", 1).image(vec![0x89, b'P', b'N', b'G'], 2, 2).build().unwrap();
    assert_eq!(&bytes[..2], b"PK");
    assert!(bytes.len() > 100);
}

#[test]
fn document_xml_numbers_drawings_from_one() {
    let paras = vec![
        DocxPara::Image("rId10".to_string(), 1, 1),
        DocxPara::Text("t".to_string()),
        DocxPara::Image("rId11".to_string(), 1, 1),
    ];
    let doc = build_document(&paras);
    assert!(doc.contains("<wp:docPr id=\"1\" name=\"Image1\"/>"));
    assert!(doc.contains("<wp:docPr id=\"2\" name=\"Image2\"/>"));
    assert!(!doc.contains("id=\"3\""));
}

#[test]
fn package_xml_helpers() {
    assert!(content_types(0).ends_with("settings+xml\"/></Types>"));
    assert!(document_rels(&Vec::new()).ends_with("Target=\"settings.xml\"/></Relationships>"));
    let img = inline_image("rId10", 1, 2, 7);
    assert!(img.starts_with("<w:p><w:r><w:rPr/><w:drawing>"));
    assert!(img.contains("<pic:cNvPr id=\"7\" name=\"Image7\"/>"));
    assert!(img.contains("<a:ext cx=\"1\" cy=\"2\"/>"));
}

#[test]
fn docx_lines() {
    let td = TableData { header: strings(&["P", "V"]), rows: vec![strings(&["b", "200"]), vec![]] };
    let b = DocxBuilder::new();
    let b = add_docx_line(b, DocxLine::Comment("## Results".to_string()));
    let b = add_docx_line(b, DocxLine::Table(td));
    let b = add_docx_line(b, DocxLine::Error("boom".to_string()));
    let b = add_docx_line(b, DocxLine::Plot);
    let b = add_docx_line(b, DocxLine::Nothing);
    let doc = doc_xml(&b);
    assert!(doc.contains("Heading2\"/></w:pPr><w:r><w:t>Results</w:t>"));
    assert!(doc.contains(">P | V</w:t>"));
    assert!(doc.contains(">b | 200</w:t>"));
    assert!(doc.contains(">[Error: boom]</w:t>"));
    // heading, header, one row (the empty row adds nothing), error
    assert_eq!(doc.matches("<w:p>").count(), 4);
}

#[test]
fn plot_runs() {
    assert!(ends_plot_run(2, false));
    assert!(!ends_plot_run(2, true));
    assert!(!ends_plot_run(0, false));
}

#[test]
fn html_pieces() {
    let td = TableData { header: strings(&["A", "B<"]), rows: vec![strings(&["1", "2"])] };
    assert_eq!(
        html_table(&td),
        "<table><thead><tr><th>A</th><th>B&lt;</th></tr></thead><tbody><tr><td>1</td><td>2</td></tr></tbody></table>\n"
    );
    assert_eq!(html_line(&HtmlLine::Comment("# Loads".to_string())), "<h2>Loads</h2>\n");
    assert_eq!(html_line(&HtmlLine::Error("x > y".to_string())), "<p class='error'>\u{26A0} x &gt; y</p>\n");
    assert_eq!(html_line(&HtmlLine::Equation(Err("bad".to_string()))), "<p class='error'>\u{26A0} bad</p>\n");
    assert_eq!(html_line(&HtmlLine::Plot), "");
    assert_eq!(html_plot(""), "");
    assert_eq!(html_plot("<svg/>"), "<div class='plot'><svg/></div>\n");
}

#[test]
fn html_equation_is_base64_svg() {
    let line = html_line(&HtmlLine::Equation(Ok("<svg/>".to_string())));
    assert_eq!(line, "<div class='eq'><img src='data:image/svg+xml;base64,PHN2Zy8+' alt='equation'/></div>\n");
    let two = html_line(&HtmlLine::Equation(Ok("hi".to_string())));
    assert!(two.contains("base64,aGk='"));
    let one = html_line(&HtmlLine::Equation(Ok("h".to_string())));
    assert!(one.contains("base64,aA=='"));
}

#[test]
fn html_page() {
    let page = wrap_html("<p>x</p>");
    assert!(page.starts_with("<!DOCTYPE html>\n<html lang=\"en\">"));
    assert!(page.contains("<title>eqgui export</title>"));
    assert!(page.contains("  h1, h2, h3 { color: #1a3a5c; margin-top: 2em; }"));
    assert!(page.ends_with("<body>\n<p>x</p>\n</body>\n</html>"));
}

#[test]
fn notebook_cells() {
    let mut nb = Notebook::new(&vec!["a = 1", "b = a"]);
    assert_eq!(nb.len(), 2);
    assert_eq!(nb.first_dirty(), Some(0));
    nb.mark_clean_from(0);
    assert_eq!(nb.first_dirty(), None);
    nb.edit(1, "b = 2 * a");
    assert_eq!(nb.first_dirty(), Some(1));
    assert_eq!(nb.source(1), "b = 2 * a");
    nb.mark_clean_from(1);
    nb.swap_cells(0, 1);
    assert_eq!(nb.source(0), "b = 2 * a");
    assert_eq!(nb.first_dirty(), Some(0));
    nb.add_cell();
    assert_eq!(nb.len(), 3);
    assert_eq!(nb.source(2), "# New cell\n");
}

#[test]
fn notebook_keeps_one_cell() {
    let mut nb = Notebook::new(&vec!["x = 1"]);
    assert!(!nb.delete_cell(0));
    assert_eq!(nb.len(), 1);
    nb.add_cell();
    nb.mark_clean_from(0);
    assert!(nb.delete_cell(0));
    assert_eq!(nb.len(), 1);
    assert_eq!(nb.source(0), "# New cell\n");
    assert_eq!(nb.first_dirty(), Some(0));
    assert!(!nb.delete_cell(5));
}

#[test]
fn comment_markdown_adds_heading_mark() {
    assert_eq!(comment_markdown("Loads"), "# Loads");
    assert_eq!(comment_markdown("## Loads"), "## Loads");
}

#[test]
fn comment_heading_trims_unicode_blanks() {
    assert_eq!(comment_heading("#\u{2003}Title\u{00A0}"), (1, "#\u{2003}Title".to_string()));
    assert_eq!(comment_heading("# \u{2003}Title\u{00A0}"), (1, "Title".to_string()));
}

#[test]
fn docx_build_succeeds_and_holds_parts() {
    let b = DocxBuilder::new().heading("T", 1).text("x").image(vec![1, 2], 3, 4);
    assert_eq!(b.parts().len(), 7);
    assert!(b.build().is_ok());
}

#[test]
fn line_kind_goes_by_what_the_line_holds() {
    let td = || Some(TableData { header: strings(&["A"]), rows: vec![] });
    let some = |t: &str| Some(t.to_string());
    assert!(matches!(docx_line_for(true, td(), some("c"), some("e"), some("m")), DocxLine::Plot));
    assert!(matches!(docx_line_for(false, td(), some("c"), None, None), DocxLine::Table(t) if t.header == vec!["A"]));
    assert!(matches!(docx_line_for(false, None, some("c"), some("e"), None), DocxLine::Comment(t) if t == "c"));
    assert!(matches!(docx_line_for(false, None, None, some("e"), some("m")), DocxLine::Error(t) if t == "e"));
    assert!(matches!(docx_line_for(false, None, None, None, some("m")), DocxLine::Math(t) if t == "m"));
    assert!(matches!(docx_line_for(false, None, None, None, None), DocxLine::Nothing));
    assert!(matches!(html_line_for(true, None, None, None, None), HtmlLine::Plot));
    assert!(matches!(html_line_for(false, td(), None, None, None), HtmlLine::Table(_)));
    assert!(matches!(html_line_for(false, None, some("c"), None, None), HtmlLine::Comment(t) if t == "c"));
    assert!(matches!(html_line_for(false, None, None, some("e"), Some(Ok("s".into()))), HtmlLine::Error(t) if t == "e"));
    assert!(matches!(
        html_line_for(false, None, None, None, Some(Err("bad".into()))),
        HtmlLine::Equation(Err(t)) if t == "bad"
    ));
    assert!(matches!(html_line_for(false, None, None, None, None), HtmlLine::Nothing));
}
