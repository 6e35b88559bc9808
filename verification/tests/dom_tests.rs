use minibrowser::dom::{AttrMap, Node};

#[test]
fn test_new_text_node() {
    let data = String::from("This is some text");
    let node = Node::new_text(data.clone());

    // node should have no children
    assert!(node.children().is_empty());

    // should contain data text
    let got = node.get_text().unwrap();
    assert!(got == data);
}

#[test]
fn test_new_element_node() {
    let mut attrs = AttrMap::new();
    let test_key = "test_key";
    let test_attr = "test attribute";
    attrs.insert(String::from(test_key), String::from(test_attr));

    let tag_name = String::from("test_elem");
    let node = Node::new_element(tag_name, attrs.clone(), Vec::new());

    // should have no children
    assert!(node.children().is_empty());

    // Check element data
    assert!(node.get_tag().unwrap().starts_with("test_elem"));
    let elem_attrs = node.attributes().unwrap();
    assert!(elem_attrs.contains_key(test_key));
    assert!(elem_attrs.get(test_key).unwrap().starts_with(test_attr));
}

#[test]
fn test_dom_tree() {
    // create a child node
    let data = String::from("This is some text");
    let text_node = Node::new_text(data.clone());

    // Set up root node
    let mut attrs = AttrMap::new();
    let test_key = "test_key";
    let test_attr = "test attribute";
    attrs.insert(String::from(test_key), String::from(test_attr));
    let tag_name = String::from("test_elem");
    let node = Node::new_element(tag_name, attrs.clone(), vec![text_node]);

    // confirm ability to access child through parent
    assert!(!node.children().is_empty());
    let child = node.children().get(0).unwrap();
    match child.get_text() {
        Some(text) => {
            assert!(text == data);
        }
        None => panic!("Expected text node, found unexpected node type"),
    }
}

#[test]
fn test_attr_map_last_insert_wins() {
    let mut attrs = AttrMap::new();
    attrs.insert(String::from("k"), String::from("first"));
    attrs.insert(String::from("k"), String::from("second"));
    assert!(attrs.contains_key("k"));
    assert_eq!(attrs.get("k").unwrap(), "second");
    assert!(!attrs.contains_key("other"));
    assert!(attrs.get("other").is_none());
}

#[test]
fn test_node_type_discriminants() {
    let text = Node::new_text(String::from("x"));
    assert_eq!(text.node_type().unwrap(), "text");
    assert!(text.get_tag().is_none());
    let elem = Node::new_element(String::from("p"), AttrMap::new(), Vec::new());
    assert_eq!(elem.node_type().unwrap(), "element");
    assert!(elem.get_text().is_none());
    assert!(elem.attributes().is_some());
}
