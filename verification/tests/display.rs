use jsonml::{AttributeValue, Attributes, Element, Number};

fn number(text: &str) -> AttributeValue {
    AttributeValue::Number(Number::from_text(text).unwrap())
}

fn text(s: &str) -> Element {
    Element::String(s.to_string())
}

fn attrs(pairs: &[(&str, AttributeValue)]) -> Attributes {
    let mut a = Attributes::new();
    for (k, v) in pairs {
        a.insert(k.to_string(), v.clone());
    }
    a
}

#[test]
fn test_display_element() {
    assert_eq!(
        Element::Tag {
            name: "div".to_string(),
            attributes: attrs(&[("id", AttributeValue::String("aaa".to_string()))]),
            element_list: vec![
                Element::String("bbb".to_string()),
                Element::Tag {
                    name: "span".to_string(),
                    attributes: Attributes::new(),
                    element_list: vec![Element::String("ccc".to_string())]
                }
            ]
        }
        .to_string(),
        r#"<div id="aaa">bbb<span>ccc</span></div>"#.to_string()
    );
}

#[test]
fn test_display_element_encode_attribute_value() {
    assert_eq!(
        Element::Tag {
            name: "a".to_string(),
            attributes: attrs(&[("b", AttributeValue::String("=".to_string()))]),
            element_list: vec![]
        }
        .to_string(),
        r#"<a b="&#x3D;"></a>"#.to_string()
    );
}

#[test]
fn display_rejects_non_ascii_tag_name() {
    let element = Element::Tag {
        name: "あ".to_string(),
        attributes: Attributes::new(),
        element_list: vec![],
    };
    assert_eq!(element.try_to_string(), None);
}

#[test]
fn display_rejects_space_in_attribute_name() {
    let element = Element::Tag {
        name: "a".to_string(),
        attributes: attrs(&[(" ", AttributeValue::Null)]),
        element_list: vec![],
    };
    assert_eq!(element.try_to_string(), None);
}

#[test]
fn display_rejects_invalid_name_in_a_child() {
    let element = Element::Tag {
        name: "div".to_string(),
        attributes: Attributes::new(),
        element_list: vec![Element::Tag {
            name: "p q".to_string(),
            attributes: Attributes::new(),
            element_list: vec![],
        }],
    };
    assert_eq!(element.try_to_string(), None);
}

#[test]
fn display_rejects_noncharacters_in_attribute_names() {
    for bad in ["a=b", "a/b", "a>b", "a'b", "a\"b", "\u{FDD0}", "\u{FFFE}", "\u{10FFFF}"] {
        let element = Element::Tag {
            name: "a".to_string(),
            attributes: attrs(&[(bad, AttributeValue::Null)]),
            element_list: vec![],
        };
        assert_eq!(element.try_to_string(), None, "{bad:?}");
    }
    let element = Element::Tag {
        name: "a".to_string(),
        attributes: attrs(&[("data-x\u{FDF0}", AttributeValue::Null)]),
        element_list: vec![],
    };
    assert_eq!(
        element.try_to_string(),
        Some("<a data-x\u{FDF0}=\"null\"></a>".to_string())
    );
}

#[test]
fn display_text_is_unchanged() {
    assert_eq!(text("a < b & c").to_string(), "a < b & c");
    assert_eq!(text("").try_to_string(), Some(String::new()));
}

#[test]
fn display_attributes_in_name_order() {
    let element = Element::Tag {
        name: "td".to_string(),
        attributes: attrs(&[
            ("style", AttributeValue::String("x".to_string())),
            ("class", AttributeValue::String("y".to_string())),
        ]),
        element_list: vec![text("t")],
    };
    assert_eq!(element.to_string(), r#"<td class="y" style="x">t</td>"#);
}

#[test]
fn display_attribute_values() {
    assert_eq!(AttributeValue::String("a<b".to_string()).to_string(), "a&lt;b");
    assert_eq!(AttributeValue::String("\"&>".to_string()).to_string(), "&quot;&amp;&gt;");
    assert_eq!(AttributeValue::String("é x".to_string()).to_string(), "é&#x20;x");
    assert_eq!(AttributeValue::String("abc123".to_string()).to_string(), "abc123");
    assert_eq!(number(&3.14f64.to_string()).to_string(), "3.14");
    assert_eq!(number(&16777217.0f64.to_string()).to_string(), "16777217");
    assert_eq!(AttributeValue::Bool(true).to_string(), "true");
    assert_eq!(AttributeValue::Bool(false).to_string(), "false");
    assert_eq!(AttributeValue::Null.to_string(), "null");
    assert_eq!(AttributeValue::default(), AttributeValue::Null);
}

#[test]
fn display_nested_tags() {
    let element = Element::Tag {
        name: "ul".to_string(),
        attributes: Attributes::new(),
        element_list: vec![
            Element::Tag {
                name: "li".to_string(),
                attributes: attrs(&[("n", number("1"))]),
                element_list: vec![text("one")],
            },
            Element::Tag {
                name: "li".to_string(),
                attributes: attrs(&[("b", AttributeValue::Bool(false))]),
                element_list: vec![],
            },
        ],
    };
    assert_eq!(
        element.to_string(),
        r#"<ul><li n="1">one</li><li b="false"></li></ul>"#
    );
}
