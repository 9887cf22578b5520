use table_scrape::csv::{csv_document, csv_field, csv_line};
use table_scrape::document::{
    cells_of_row, element_named, extract_table, header_cell_at, in_target_table, scrape_table,
    DocNode, NodeKind,
};
use table_scrape::strings::same_text;
use table_scrape::text::collapse_whitespace;

fn strings(v: &[&str]) -> Vec<String> {
    v.iter().map(|s| s.to_string()).collect()
}

fn element(depth: usize, name: &str, id: Option<&str>) -> DocNode {
    DocNode {
        depth,
        kind: NodeKind::Element { name: name.to_string(), id: id.map(String::from) },
    }
}

fn text(depth: usize, t: &str) -> DocNode {
    DocNode { depth, kind: NodeKind::Text { text: t.to_string() } }
}

const SCORES: &str = "<html><body><table id=\"data-table\">\
    <thead><tr><th>Name</th><th>Score</th></tr></thead>\
    <tbody><tr><td>Alice</td><td>10</td></tr></tbody>\
    </table></body></html>";

#[test]
fn quotes_are_doubled() {
    assert_eq!(csv_field("he said \"hi\""), "\"he said \"\"hi\"\"\"");
}

#[test]
fn plain_field_is_quoted() {
    assert_eq!(csv_field("a,b"), "\"a,b\"");
    assert_eq!(csv_field(""), "\"\"");
}

#[test]
fn line_joins_quoted_fields() {
    assert_eq!(csv_line(&strings(&["Name", "Score"])), "\"Name\",\"Score\"");
    assert_eq!(csv_line(&strings(&["x\"y"])), "\"x\"\"y\"");
}

#[test]
fn empty_line_has_no_fields() {
    assert_eq!(csv_line(&Vec::new()), "");
}

#[test]
fn document_has_header_then_rows() {
    let rows = vec![strings(&["a"]), strings(&["b", "c"])];
    assert_eq!(csv_document(&strings(&["h"]), &rows), "\"h\"\n\"a\"\n\"b\",\"c\"\n");
}

#[test]
fn whitespace_is_collapsed() {
    assert_eq!(collapse_whitespace("  one\t\ttwo   three \n"), "one two three");
    assert_eq!(collapse_whitespace("\u{a0}x\u{2003}y"), "x y");
    assert_eq!(collapse_whitespace(" \t\n "), "");
    assert_eq!(collapse_whitespace(""), "");
    assert_eq!(collapse_whitespace("solid"), "solid");
}

#[test]
fn same_text_compares_characters() {
    assert!(same_text("td", "td"));
    assert!(!same_text("td", "th"));
    assert!(!same_text("td", "tdx"));
}

#[test]
fn scores_table_gives_two_lines() {
    let table = scrape_table(SCORES);
    assert_eq!(table.header, strings(&["Name", "Score"]));
    assert_eq!(table.rows, vec![strings(&["Alice", "10"])]);
    assert_eq!(table.to_csv(), "\"Name\",\"Score\"\n\"Alice\",\"10\"\n");
}

#[test]
fn script_and_style_text_is_left_out() {
    let html = "<table id=\"data-table\"><tr>\
        <td>keep <script>var x = 1;</script> this</td>\
        <td><style>td { color: red }</style>styled</td>\
        </tr></table>";
    let table = scrape_table(html);
    assert_eq!(table.rows, vec![strings(&["keep this", "styled"])]);
}

#[test]
fn cell_text_is_normalised() {
    let html = "<table id=\"data-table\"><tr><td>\n  Alice \t  Smith  \n</td></tr></table>";
    let table = scrape_table(html);
    assert_eq!(table.rows, vec![strings(&["Alice Smith"])]);
}

#[test]
fn nested_element_text_is_not_cell_text() {
    let html = "<table id=\"data-table\"><tr><td>a<b>bold</b>c</td></tr></table>";
    let table = scrape_table(html);
    assert_eq!(table.rows, vec![strings(&["ac"])]);
}

#[test]
fn header_text_is_verbatim() {
    let html = "<table id=\"data-table\"><thead><tr><th>  Full <b>Name</b> </th></tr></thead>\
        </table>";
    let table = scrape_table(html);
    assert_eq!(table.header, strings(&["  Full Name "]));
    assert!(table.rows.is_empty());
}

#[test]
fn rows_without_data_cells_are_dropped() {
    let html = "<table id=\"data-table\"><tbody>\
        <tr><th>Total</th></tr>\
        <tr><td>1</td></tr>\
        <tr></tr>\
        <tr><td>2</td><td>3</td></tr>\
        </tbody></table>";
    let table = scrape_table(html);
    assert!(table.header.is_empty());
    assert_eq!(table.rows, vec![strings(&["1"]), strings(&["2", "3"])]);
}

#[test]
fn ragged_rows_are_kept() {
    let html = "<table id=\"data-table\"><tr><td>1</td></tr><tr><td>2</td><td>3</td></tr></table>";
    let table = scrape_table(html);
    assert_eq!(table.rows, vec![strings(&["1"]), strings(&["2", "3"])]);
}

#[test]
fn missing_table_gives_nothing() {
    let html = "<table id=\"other\"><thead><tr><th>H</th></tr></thead>\
        <tr><td>x</td></tr></table>";
    let table = scrape_table(html);
    assert!(table.header.is_empty());
    assert!(table.rows.is_empty());
    assert_eq!(table.to_csv(), "\n");
}

#[test]
fn empty_document_gives_nothing() {
    let table = scrape_table("");
    assert!(table.header.is_empty());
    assert!(table.rows.is_empty());
}

#[test]
fn extraction_on_built_nodes() {
    let doc = vec![
        DocNode { depth: 0, kind: NodeKind::Other },
        element(1, "table", Some("data-table")),
        element(2, "thead", None),
        element(3, "tr", None),
        element(4, "th", None),
        text(5, "H"),
        element(2, "tr", None),
        element(3, "td", None),
        text(4, " v  w "),
        element(4, "script", None),
        text(5, "hidden"),
        element(1, "tr", None),
        element(2, "td", None),
        text(3, "outside"),
    ];
    assert!(header_cell_at(&doc, 4));
    assert!(!header_cell_at(&doc, 7));
    assert!(in_target_table(&doc, 6));
    assert!(!in_target_table(&doc, 11));
    assert!(element_named(&doc[7], "td"));
    assert_eq!(cells_of_row(&doc, 6), strings(&["v w"]));
    let table = extract_table(&doc);
    assert_eq!(table.header, strings(&["H"]));
    assert_eq!(table.rows, vec![strings(&["v w"])]);
}
