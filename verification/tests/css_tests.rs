use minibrowser::css::{Css, Selector};
use minibrowser::scan::ParseError;

#[test]
fn test_parse_simple_selector_id() {
    let mut css = Css::new(String::from("#test_id"));
    let selector = css.parse_simple_selector();
    assert!(&selector.id.unwrap() == "test_id");
}

#[test]
fn test_parse_simple_selector_tag() {
    let mut css = Css::new(String::from("p"));
    let selector = css.parse_simple_selector();
    assert!(&selector.tag_name.unwrap() == "p");
}

#[test]
fn test_parse_simple_selector_class() {
    let mut css = Css::new(String::from(".test_class"));
    let selector = css.parse_simple_selector();
    assert!(selector.class.len() == 1);
    let class = selector.class.get(0);
    assert!(class.unwrap() == "test_class");
}

#[test]
fn test_multiple_selector() {
    let mut css = Css::new(String::from("#test_id, p, .test_class1, .test_class2 {}"));
    let selectors = css.parse_selectors().unwrap();

    // test 1st selector
    match selectors.get(0).unwrap() {
        Selector::Simple(s1) => {
            assert!(s1.id.as_ref().unwrap() == "test_id");
        }
    }
    // test 2nd selector
    match selectors.get(1).unwrap() {
        Selector::Simple(s2) => {
            assert!(s2.class.get(0).unwrap() == "test_class1");
        }
    }
    // test 3rd selector
    match selectors.get(2).unwrap() {
        Selector::Simple(s3) => {
            assert!(s3.class.get(0).unwrap() == "test_class2");
        }
    }
    // test 4th selector
    match selectors.get(3).unwrap() {
        Selector::Simple(s4) => {
            assert!(s4.tag_name.as_ref().unwrap() == "p");
        }
    }
}

#[test]
fn test_specificity_values() {
    let mut css = Css::new(String::from("p.c1.c2#i {}"));
    let selectors = css.parse_selectors().unwrap();
    assert_eq!(selectors.len(), 1);
    let s = selectors.get(0).unwrap();
    // one id, two classes, one tag
    assert_eq!(s.specificity(), (1, 2, 1));
}

#[test]
fn test_universal_selector_adds_no_constraint() {
    let mut css = Css::new(String::from("*"));
    let selector = css.parse_simple_selector();
    assert!(selector.tag_name.is_none());
    assert!(selector.id.is_none());
    assert!(selector.class.is_empty());
}

#[test]
fn test_selector_list_unexpected_character() {
    let mut css = Css::new(String::from("p ] {}"));
    let r = css.parse_selectors();
    assert!(matches!(r, Err(ParseError::UnexpectedCharacter)));
}

#[test]
fn test_selector_list_end_of_input() {
    // the list must end with the '{' of the declarations
    let mut css = Css::new(String::from("p, .c"));
    let r = css.parse_selectors();
    assert!(matches!(r, Err(ParseError::UnexpectedCharacter)));
}

#[test]
fn test_equal_specificity_keeps_input_order() {
    let mut css = Css::new(String::from(".a, .b, .c {}"));
    let selectors = css.parse_selectors().unwrap();
    let names: Vec<String> = selectors
        .iter()
        .map(|s| match s {
            Selector::Simple(simple) => simple.class.get(0).unwrap().clone(),
        })
        .collect();
    assert_eq!(names, vec!["a".to_string(), "b".to_string(), "c".to_string()]);
}

#[test]
fn test_last_bare_identifier_wins() {
    let mut css = Css::new(String::from("div*p"));
    let selector = css.parse_simple_selector();
    assert!(&selector.tag_name.unwrap() == "p");
}
