use ezxml::cursor::{ParserState, Position};
use ezxml::parser::DocStatus;
use ezxml::structure::{Document, Node};
use ezxml::writer::{Indent, Newline, WriteOpts};

#[test]
fn newline_str_variants() {
    let mut opts = WriteOpts::default();
    assert_eq!(opts.newline_str(), "\n");
    opts.newline = Newline::Off;
    assert_eq!(opts.newline_str(), "");
    opts.newline = Newline::Windows;
    assert_eq!(opts.newline_str(), "\n\r");
}

#[test]
fn write_repeatedly_repeats() {
    assert_eq!(WriteOpts::write_repeatedly(3, "ab"), "ababab");
    assert_eq!(WriteOpts::write_repeatedly(0, "ab"), "");
}

#[test]
fn indent_by_depth() {
    let opts = WriteOpts::default();
    assert_eq!(opts.indent(2), "    ");
    let tabs = WriteOpts { indent: Indent::Tab, newline: Newline::Newline };
    assert_eq!(tabs.indent(3), "\t\t\t");
    let flat = WriteOpts { indent: Indent::Off, newline: Newline::Newline };
    assert_eq!(flat.indent(5), "");
}

#[test]
fn write_requires_element_root() {
    let mut doc = Document::new();
    assert!(doc.write().is_ok());
    doc.root = Node::Text("loose".to_string());
    let err = doc.write().unwrap_err();
    assert!(err.is_bug());
    let err2 = doc.write_opts(&WriteOpts::default()).unwrap_err();
    assert!(err2.is_bug());
}

#[test]
fn node_write_emits_text_verbatim() {
    let opts = WriteOpts::default();
    let text = Node::Text("hello".to_string());
    assert_eq!(text.write(&opts, 0).unwrap(), "hello");
    let element = Node::default();
    assert_eq!(element.write(&opts, 0).unwrap(), "");
}

#[test]
fn position_tracks_lines_and_columns() {
    let chars: Vec<char> = "a\nbc".chars().collect();
    let mut st = ParserState::new(chars, DocStatus::BeforeDeclaration).unwrap();
    assert_eq!(st.position, Position { line: 1, column: 1, absolute: 1 });
    assert!(st.advance());
    // The newline itself advances the line and resets the column.
    assert_eq!(st.position, Position { line: 2, column: 0, absolute: 2 });
    assert!(st.advance());
    assert_eq!(st.position, Position { line: 2, column: 1, absolute: 3 });
    assert!(st.advance());
    assert_eq!(st.position, Position { line: 2, column: 2, absolute: 4 });
    assert!(!st.advance());
}

#[test]
fn cursor_reports_end_of_input() {
    let chars: Vec<char> = "x".chars().collect();
    let mut st = ParserState::new(chars, DocStatus::BeforeDeclaration).unwrap();
    assert!(st.is('x'));
    assert!(!st.advance());
    assert!(st.advance_or_die().is_err());
    assert!(st.peek_or_die().is_err());
    let empty: Vec<char> = Vec::new();
    assert!(ParserState::new(empty, DocStatus::BeforeDeclaration).is_err());
}
