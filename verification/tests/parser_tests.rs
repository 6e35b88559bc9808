use minibrowser::parser::Html;
use minibrowser::scan::ParseError;

#[test]
fn test_parse() {
    let html = "<h1>Hello, <i>world!</i></h1>".to_string();
    let test_dom = Html::parse(html).unwrap();

    // ensure the root node has the correct number of children
    assert!(test_dom.children().len() == 2);

    // ensure the root node is the correct type
    assert!(test_dom.node_type().unwrap() == "element".to_string());
    let tag = test_dom.get_tag().unwrap();
    assert!(&tag == "h1");

    // ensure first child is a text node
    let first_child = test_dom.children().get(0).unwrap();
    assert!(first_child.node_type().unwrap() == "text".to_string());
    // test text content
    let expected = "Hello, ".to_string();
    assert!(first_child.get_text().unwrap() == expected);

    // test second child
    let second_child = test_dom.children().get(1).unwrap();

    // test that second child is an i tag
    let tag = second_child.get_tag().unwrap();
    assert!(&tag == "i");

    // test that second child has a child
    assert!(!second_child.children().is_empty());

    // test the grand child
    let grand_child = second_child.children().get(0).unwrap();
    assert!(&grand_child.node_type().unwrap() == "text");
    let expected = "world!";
    assert!(&grand_child.get_text().unwrap() == expected);
}

#[test]
fn test_parse_comment_text() {
    let html = "<h1>Hello <!-- this is a comment --> world</h1>".to_string();
    let root = Html::parse(html).unwrap();

    // Ensure the root node only has one child, the text within h1 tags
    assert!(root.children().len() == 1);

    // Ensure the text only contains the full text with comment removed
    let child = root.children().get(0).unwrap();
    assert!(&child.get_text().unwrap() == "Hello  world");
}

#[test]
fn test_parse_comment_node() {
    let html = "<h1><!-- comment --></h1>".to_string();
    let root = Html::parse(html).unwrap();

    // assert that only one node was parsed
    assert!(root.children().is_empty());

    // assert the h1 tag is parsed properly
    assert!(&root.get_tag().unwrap() == "h1");
}

#[test]
fn test_parse_attributes() {
    let html = "<a href='x' class=\"y\">t</a>".to_string();
    let root = Html::parse(html).unwrap();
    assert_eq!(root.get_tag().unwrap(), "a");
    let attrs = root.attributes().unwrap();
    assert_eq!(attrs.get("href").unwrap(), "x");
    assert_eq!(attrs.get("class").unwrap(), "y");
    assert_eq!(root.children().len(), 1);
    assert_eq!(root.children().get(0).unwrap().get_text().unwrap(), "t");
}

#[test]
fn test_parse_single_root_unwrapped() {
    // one top-level construct comes back directly, not wrapped
    let root = Html::parse("<p>text</p>".to_string()).unwrap();
    assert_eq!(root.get_tag().unwrap(), "p");
}

#[test]
fn test_parse_empty_synthesizes_html_root() {
    // zero top-level constructs: a synthesized html element with no children
    let root = Html::parse(String::new()).unwrap();
    assert_eq!(root.get_tag().unwrap(), "html");
    assert!(root.children().is_empty());
}

#[test]
fn test_parse_two_roots_synthesizes_html_root() {
    let root = Html::parse("<p>a</p><p>b</p>".to_string()).unwrap();
    assert_eq!(root.get_tag().unwrap(), "html");
    assert_eq!(root.children().len(), 2);
    assert_eq!(root.children().get(0).unwrap().get_tag().unwrap(), "p");
    assert_eq!(root.children().get(1).unwrap().get_tag().unwrap(), "p");
}

#[test]
fn test_parse_is_pure() {
    // parsing the same input twice gives structurally identical trees
    let html = "<h1>Hello, <i>world!</i></h1>";
    let a = Html::parse(html.to_string()).unwrap();
    let b = Html::parse(html.to_string()).unwrap();
    assert_eq!(a.get_tag(), b.get_tag());
    assert_eq!(a.children().len(), b.children().len());
    for (ca, cb) in a.children().iter().zip(b.children().iter()) {
        assert_eq!(ca.get_tag(), cb.get_tag());
        assert_eq!(ca.get_text(), cb.get_text());
        assert_eq!(ca.children().len(), cb.children().len());
    }
    let ga = a.children().get(1).unwrap().children().get(0).unwrap();
    let gb = b.children().get(1).unwrap().children().get(0).unwrap();
    assert_eq!(ga.get_text(), gb.get_text());
}

#[test]
fn test_parse_multibyte_text() {
    // text with multi-byte characters, including as the final character
    let root = Html::parse("<p>héllo</p>".to_string()).unwrap();
    assert_eq!(root.children().get(0).unwrap().get_text().unwrap(), "héllo");
    let root = Html::parse("é".to_string()).unwrap();
    assert_eq!(root.get_text().unwrap(), "é");
}

#[test]
fn test_parse_unterminated_comment() {
    let r = Html::parse("<h1><!-- never closed</h1>".to_string());
    assert!(matches!(r, Err(ParseError::UnterminatedComment)));
}

#[test]
fn test_parse_unterminated_tag() {
    let r = Html::parse("<h1>text".to_string());
    assert!(matches!(r, Err(ParseError::UnterminatedTag)));
    let r = Html::parse("<h1".to_string());
    assert!(matches!(r, Err(ParseError::UnterminatedTag)));
}

#[test]
fn test_parse_unterminated_quoted_value() {
    let r = Html::parse("<a href='x>t</a>".to_string());
    assert!(matches!(r, Err(ParseError::UnterminatedQuotedValue)));
}

#[test]
fn test_parse_closing_tag_mismatch() {
    let r = Html::parse("<h1>text</h2>".to_string());
    assert!(matches!(r, Err(ParseError::ClosingTagMismatch)));
}

#[test]
fn test_parse_bad_attribute_delimiter() {
    // attribute name not followed by '='
    let r = Html::parse("<a href!'x'>t</a>".to_string());
    assert!(matches!(r, Err(ParseError::UnexpectedCharacter)));
}
