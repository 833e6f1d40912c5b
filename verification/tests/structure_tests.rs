use ezxml::structure::{Document, ElementData, Node};

fn named_element(namespace: Option<&str>, name: &str) -> ElementData {
    let mut e = ElementData::default();
    e.namespace = namespace.map(|s| s.to_string());
    e.name = name.to_string();
    e
}

fn create_ezfile() -> Document {
    let mut bones_data = named_element(None, "cat");
    bones_data.attributes.insert("name".to_string(), "bones".to_string()).unwrap();

    let mut bishop_data = named_element(None, "cat");
    bishop_data.attributes.insert("name".to_string(), "bishop".to_string()).unwrap();

    let bones_element = Node::Element(bones_data);
    let bishop_element = Node::Element(bishop_data);

    let mut cats_data = named_element(None, "cats");
    cats_data.nodes = vec![bones_element, bishop_element];

    Document { declaration: None, root: Node::Element(cats_data) }
}

fn assert_ezfile(doc: &Document) {
    let root = doc.root();
    if let Node::Element(root_data) = root {
        assert_eq!(root_data.name, "cats");
        assert_eq!(root_data.namespace, None);
        assert_eq!(root_data.attributes.map().len(), 0);
        assert_eq!(root_data.nodes.len(), 2);
        let bones_element = root_data.nodes.get(0).unwrap();
        if let Node::Element(bones) = bones_element {
            assert_eq!(bones.name, "cat");
            assert_eq!(bones.namespace, None);
            assert_eq!(bones.attributes.map().len(), 1);
            assert_eq!(bones.nodes.len(), 0);
            let name = bones.attributes.get("name").unwrap();
            assert_eq!(name.as_str(), "bones");
        } else {
            panic!("bones was supposed to be an element but was not");
        }
        let bishop_element = root_data.nodes.get(1).unwrap();
        if let Node::Element(bishop) = bishop_element {
            assert_eq!(bishop.name, "cat");
            assert_eq!(bishop.namespace, None);
            assert_eq!(bishop.attributes.map().len(), 1);
            assert_eq!(bishop.nodes.len(), 0);
            let name = bishop.attributes.get("name").unwrap();
            assert_eq!(name.as_str(), "bishop");
        } else {
            panic!("bones was supposed to be an element but was not");
        }
    } else {
        panic!("the root was not an element");
    }
}

#[test]
fn test_ezfile_create() {
    let ezfile = create_ezfile();
    assert_ezfile(&ezfile);
}

#[test]
fn lib_structs_test() {
    let doc = Document::new();
    let result = doc.to_writer();
    assert!(result.is_ok());
    let data_str = result.unwrap();
    assert_eq!("poo!", data_str);
}

#[test]
fn structs_test() {
    let mut _doc = Document::new();
}

#[test]
fn mod_structs_test() {
    let mut _doc = Document::new();
}

#[test]
fn depth_structs_test() {
    let mut a = named_element(Some("ns1"), "a");
    a.nodes = vec![Node::Text("1".to_string())];
    let mut b = named_element(None, "b");
    b.nodes = vec![Node::Text("2".to_string())];
    let mut c = named_element(None, "c");
    c.nodes = vec![Node::Text("2".to_string())];

    let mut root = named_element(None, "the-root");
    root.nodes = vec![Node::Element(a), Node::Element(b), Node::Element(c)];
    let doc = Document { declaration: None, root: Node::Element(root) };

    let root_data = match doc.root() {
        Node::Element(e) => e,
        _ => panic!("the root was not an element"),
    };
    let max_depth = ezxml::structure::max_element_depth(root_data);
    assert_eq!(max_depth, 2);
}

#[test]
fn depth_of_childless_element_is_one() {
    let e = named_element(None, "solo");
    assert_eq!(ezxml::structure::max_element_depth(&e), 1);
}

#[test]
fn fullname_combines_namespace_and_name() {
    let e = named_element(Some("ns"), "local");
    assert_eq!(e.fullname(), "ns:local");
    let bare = named_element(None, "local");
    assert_eq!(bare.fullname(), "local");
}
