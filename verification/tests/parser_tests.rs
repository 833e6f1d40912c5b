use ezxml::parser::parse_str;
use ezxml::structure::{Encoding, Node, Version};

const XML1: &str = r##"
<?xml version="1.0" encoding="UTF-8" standalone="no"?>
<!DOCTYPE something PUBLIC "-//Some//Path//EN" "http://www.example.org/dtds/partwise.dtd">
<cats>
  <cat id="b1">
    <name>
        Bones
    </name>
  <birthdate>2008-06-01</birthdate>
  </cat>
  <cat id="b2">
    <name>Bishop</name>
    <birthdate>2012-01-01</birthdate>
  </cat>
</cats>
    "##;

#[test]
fn parse_a_doo_dah() {
    // The sample carries a `standalone` key (a third, unrecognised
    // declaration key) and a DOCTYPE, both of which the parser rejects.
    let the_thing = XML1;
    assert!(parse_str(the_thing).is_err());
}

#[test]
fn parse_self_closing_bare() {
    let doc = parse_str("<x/>").unwrap();
    match doc.root() {
        Node::Element(e) => {
            assert_eq!(e.name, "x");
            assert!(e.namespace.is_none());
            assert_eq!(e.attributes.len(), 0);
            assert_eq!(e.nodes.len(), 0);
        }
        _ => panic!("the root should be an element"),
    }
    assert!(doc.declaration.is_none());
}

#[test]
fn parse_self_closing_with_space() {
    let doc = parse_str("<x />").unwrap();
    match doc.root() {
        Node::Element(e) => {
            assert_eq!(e.name, "x");
            assert!(e.namespace.is_none());
            assert_eq!(e.attributes.len(), 0);
            assert_eq!(e.nodes.len(), 0);
        }
        _ => panic!("the root should be an element"),
    }
}

#[test]
fn parse_cats_scenario() {
    let doc = parse_str(r#"<cats><cat name="bones"/><cat name="bishop"/></cats>"#).unwrap();
    let root = match doc.root() {
        Node::Element(e) => e,
        _ => panic!("the root should be an element"),
    };
    assert_eq!(root.name, "cats");
    assert!(root.namespace.is_none());
    assert_eq!(root.attributes.len(), 0);
    assert_eq!(root.nodes.len(), 2);
    let bones = match &root.nodes[0] {
        Node::Element(e) => e,
        _ => panic!("the first child should be an element"),
    };
    assert_eq!(bones.name, "cat");
    assert_eq!(bones.attributes.get("name").unwrap().as_str(), "bones");
    assert_eq!(bones.nodes.len(), 0);
    let bishop = match &root.nodes[1] {
        Node::Element(e) => e,
        _ => panic!("the second child should be an element"),
    };
    assert_eq!(bishop.name, "cat");
    assert_eq!(bishop.attributes.get("name").unwrap().as_str(), "bishop");
    assert_eq!(bishop.nodes.len(), 0);
}

#[test]
fn parse_declaration_scenario() {
    let doc = parse_str(r#"<?xml version="1.0" encoding="UTF-8"?><a/>"#).unwrap();
    let declaration = doc.declaration.expect("the declaration should be captured");
    assert_eq!(declaration.version, Some(Version::One));
    assert_eq!(declaration.encoding, Some(Encoding::Utf8));
    match doc.root() {
        Node::Element(e) => assert_eq!(e.name, "a"),
        _ => panic!("the root should be an element"),
    }
}

#[test]
fn parse_declaration_twice_same_result() {
    let input = r#"<?xml version="1.0" encoding="UTF-8"?><a/>"#;
    let first = parse_str(input).unwrap();
    let second = parse_str(input).unwrap();
    assert_eq!(first.declaration, second.declaration);
    assert_eq!(first.declaration.unwrap().version, Some(Version::One));
    assert_eq!(second.declaration.unwrap().encoding, Some(Encoding::Utf8));
}

#[test]
fn parse_declaration_version_only() {
    let doc = parse_str(r#"<?xml version="1.1"?><a/>"#).unwrap();
    let declaration = doc.declaration.unwrap();
    assert_eq!(declaration.version, Some(Version::OneDotOne));
    assert_eq!(declaration.encoding, None);
}

#[test]
fn mismatched_end_tag_fails() {
    let err = parse_str("<a><b></c></a>").unwrap_err();
    assert!(err.is_parse());
    // The error sits on the `>` that closes the mismatched end tag.
    let loc = err.location().unwrap();
    assert_eq!(loc.line, 1);
    assert_eq!(loc.column, 10);
    assert_eq!(err.render(), "1:10 malformed input");
}

#[test]
fn comment_fails() {
    assert!(parse_str("<!-- comment --><a/>").is_err());
}

#[test]
fn two_colons_fail() {
    assert!(parse_str("<a:b:c/>").is_err());
}

#[test]
fn one_colon_splits_namespace() {
    let doc = parse_str("<ns:local/>").unwrap();
    match doc.root() {
        Node::Element(e) => {
            assert_eq!(e.namespace.as_deref(), Some("ns"));
            assert_eq!(e.name, "local");
        }
        _ => panic!("the root should be an element"),
    }
}

#[test]
fn namespaced_end_tag_must_match_fullname() {
    let doc = parse_str("<ns:local></ns:local>").unwrap();
    match doc.root() {
        Node::Element(e) => {
            assert_eq!(e.namespace.as_deref(), Some("ns"));
            assert_eq!(e.name, "local");
            assert_eq!(e.nodes.len(), 0);
        }
        _ => panic!("the root should be an element"),
    }
    let err = parse_str("<ns:local></local>").unwrap_err();
    assert!(err.is_parse());
}

#[test]
fn text_children_are_kept_verbatim() {
    let doc = parse_str("<a>hello</a>").unwrap();
    let root = match doc.root() {
        Node::Element(e) => e,
        _ => panic!("the root should be an element"),
    };
    assert_eq!(root.nodes.len(), 1);
    match &root.nodes[0] {
        Node::Text(t) => assert_eq!(t.as_str(), "hello"),
        _ => panic!("the child should be a text node"),
    }
}

#[test]
fn duplicate_attribute_keys_fail() {
    let err = parse_str(r#"<a x="1" x="2"/>"#).unwrap_err();
    assert!(err.is_bug());
}

#[test]
fn duplicate_declaration_keys_fail() {
    assert!(parse_str(r#"<?xml version="1.0" version="1.1"?><a/>"#).is_err());
}

#[test]
fn declaration_must_come_first() {
    let err = parse_str(r#"<a/><?xml version="1.0"?>"#).unwrap_err();
    assert!(err.is_parse());
}

#[test]
fn unknown_declaration_target_fails() {
    let err = parse_str(r#"<?foo a="b"?><a/>"#).unwrap_err();
    assert!(err.is_bug());
}

#[test]
fn bad_declaration_version_fails() {
    let err = parse_str(r#"<?xml version="2.0"?><a/>"#).unwrap_err();
    assert!(err.is_bug());
}

#[test]
fn unrecognized_declaration_key_fails() {
    let err = parse_str(r#"<?xml standalone="no"?><a/>"#).unwrap_err();
    assert!(err.is_bug());
}

#[test]
fn unrecognized_declaration_key_among_two_fails() {
    let err = parse_str(r#"<?xml version="1.0" standalone="no"?><a/>"#).unwrap_err();
    assert!(err.is_bug());
}

#[test]
fn peeking_past_the_end_is_a_parse_error() {
    // The input ends right after `<`, so the top-level peek fails.
    let err = parse_str("<").unwrap_err();
    assert!(err.is_parse());
}

#[test]
fn errors_render_as_line_colon_column() {
    let err = parse_str("cat").unwrap_err();
    assert!(err.is_parse());
    assert_eq!(err.render(), "1:1 malformed input");
    let err2 = parse_str("\n!").unwrap_err();
    assert_eq!(err2.render(), "2:1 malformed input");
    let bug = parse_str(r#"<a x="1" x="2"/>"#).unwrap_err();
    assert!(bug.is_bug());
    assert_eq!(bug.render(), "duplicate key");
}

#[test]
fn too_many_declaration_keys_fail() {
    let err = parse_str(r#"<?xml version="1.0" encoding="UTF-8" standalone="yes"?><a/>"#)
        .unwrap_err();
    assert!(err.is_bug());
}

#[test]
fn empty_input_fails() {
    assert!(parse_str("").is_err());
}

#[test]
fn bare_text_at_top_level_fails() {
    let err = parse_str("cat").unwrap_err();
    assert!(err.is_parse());
}

#[test]
fn unterminated_attribute_value_fails() {
    let err = parse_str(r#"<a x="never closed"#).unwrap_err();
    assert!(err.is_parse());
}

#[test]
fn attributes_with_element_children() {
    let doc = parse_str(r#"<a id="1"><b/></a>"#).unwrap();
    let root = match doc.root() {
        Node::Element(e) => e,
        _ => panic!("the root should be an element"),
    };
    assert_eq!(root.attributes.get("id").unwrap().as_str(), "1");
    assert_eq!(root.nodes.len(), 1);
    match &root.nodes[0] {
        Node::Element(b) => assert_eq!(b.name, "b"),
        _ => panic!("the child should be an element"),
    }
}

#[test]
fn end_tag_may_carry_whitespace() {
    let doc = parse_str("<a></ a >").unwrap();
    match doc.root() {
        Node::Element(e) => assert_eq!(e.name, "a"),
        _ => panic!("the root should be an element"),
    }
}

#[test]
fn declaration_then_nested_content() {
    let doc = parse_str("<?xml version=\"1.0\"?>\n<a id=\"7\">hi<b/></a>\n").unwrap();
    assert_eq!(doc.declaration.unwrap().version, Some(Version::One));
    let root = match doc.root() {
        Node::Element(e) => e,
        _ => panic!("the root should be an element"),
    };
    assert_eq!(root.name, "a");
    assert_eq!(root.attributes.get("id").unwrap().as_str(), "7");
    assert_eq!(root.nodes.len(), 2);
    match &root.nodes[0] {
        Node::Text(t) => assert_eq!(t.as_str(), "hi"),
        _ => panic!("the first child should be text"),
    }
    match &root.nodes[1] {
        Node::Element(b) => assert_eq!(b.name, "b"),
        _ => panic!("the second child should be an element"),
    }
}

#[test]
fn surrounding_whitespace_is_skipped() {
    let doc = parse_str("  \n <a/> \n ").unwrap();
    match doc.root() {
        Node::Element(e) => assert_eq!(e.name, "a"),
        _ => panic!("the root should be an element"),
    }
}

#[test]
fn parse_error_carries_position() {
    // The offending `!` is the second character of the first line.
    let err = parse_str("<!-- c --><a/>").unwrap_err();
    let loc = err.location().expect("a parse error names its location");
    assert_eq!(loc.line, 1);
}

#[test]
fn whitespace_only_input_keeps_default_root() {
    // The top-level loop simply runs out of input: the document keeps its
    // fresh empty-named root element and no declaration.
    let doc = parse_str(" \n ").unwrap();
    match doc.root() {
        Node::Element(e) => {
            assert_eq!(e.name, "");
            assert_eq!(e.nodes.len(), 0);
        }
        _ => panic!("the root should be an element"),
    }
    assert!(doc.declaration.is_none());
}
