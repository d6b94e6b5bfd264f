use eqgui::document::{document_items, is_separator_row, DocItem, Line, TableData};

fn tables(items: &[DocItem]) -> Vec<&TableData> {
    items
        .iter()
        .filter_map(|it| match it {
            DocItem::Table(t) => Some(t),
            _ => None,
        })
        .collect()
}

#[test]
fn table_rows_parse() {
    let src = "| A | B |\n|---|---|\n| 1 | 2 |\n| 3 | 4 |";
    let items = document_items(src);
    // All table rows collapse into one item holding the table
    let td = *tables(&items).first().expect("no table_data");
    assert_eq!(td.header, vec!["A", "B"]);
    assert_eq!(td.rows.len(), 2);
    assert_eq!(td.rows[0], vec!["1", "2"]);
}

#[test]
fn table_no_separator_required() {
    let src = "| X | Y |\n| 10 | 20 |";
    let items = document_items(src);
    let td = *tables(&items).first().expect("no table");
    assert_eq!(td.header, vec!["X", "Y"]);
    assert_eq!(td.rows[0], vec!["10", "20"]);
}

#[test]
fn table_ends_at_other_line() {
    let items = document_items("| a |\n| 1 |\nx = 2\n| b |");
    assert_eq!(items.len(), 3);
    match &items[0] {
        DocItem::Table(t) => {
            assert_eq!(t.header, vec!["a"]);
            assert_eq!(t.rows, vec![vec!["1".to_string()]]);
        }
        other => panic!("unexpected {other:?}"),
    }
    match &items[1] {
        DocItem::Line { source, parsed } => {
            assert_eq!(source, "x = 2");
            assert!(matches!(parsed, Ok(Line::Assignment { .. })));
        }
        other => panic!("unexpected {other:?}"),
    }
    match &items[2] {
        DocItem::Table(t) => {
            assert_eq!(t.header, vec!["b"]);
            assert!(t.rows.is_empty());
        }
        other => panic!("unexpected {other:?}"),
    }
}

#[test]
fn one_item_per_line_without_tables() {
    let items = document_items("# Title\n\nb = 200 \"mm\"\nb * 2\n2x = 1");
    assert_eq!(items.len(), 5);
    assert!(matches!(&items[0], DocItem::Line { parsed: Ok(Line::Comment(t)), .. } if t == "Title"));
    assert!(matches!(&items[1], DocItem::Line { parsed: Ok(Line::Blank), .. }));
    assert!(matches!(&items[2], DocItem::Line { parsed: Ok(Line::Assignment { .. }), .. }));
    assert!(matches!(&items[3], DocItem::Line { parsed: Ok(Line::Eval { .. }), .. }));
    match &items[4] {
        DocItem::Line { parsed: Err(e), .. } => assert_eq!(e.0, "invalid variable name: '2x'"),
        other => panic!("unexpected {other:?}"),
    }
}

#[test]
fn crlf_lines() {
    let items = document_items("a = 1\r\nb = 2\r\n");
    assert_eq!(items.len(), 2);
    match &items[1] {
        DocItem::Line { source, .. } => assert_eq!(source, "b = 2"),
        other => panic!("unexpected {other:?}"),
    }
}

#[test]
fn empty_document() {
    assert!(document_items("").is_empty());
}

#[test]
fn separator_rows() {
    assert!(is_separator_row(&vec!["---".to_string(), ":-:".to_string()]));
    assert!(!is_separator_row(&vec!["---".to_string(), "x".to_string()]));
}

#[test]
fn table_header_is_first_row_that_is_not_a_separator() {
    let items = document_items("|---|\n| h |\n|:-:|\n| r1 |\n| r2 |\n# end");
    assert_eq!(items.len(), 2);
    match &items[0] {
        DocItem::Table(t) => {
            assert_eq!(t.header, vec!["h"]);
            assert_eq!(t.rows, vec![vec!["r1".to_string()], vec!["r2".to_string()]]);
        }
        other => panic!("unexpected {other:?}"),
    }
    assert!(matches!(&items[1], DocItem::Line { source, .. } if source == "# end"));
}
