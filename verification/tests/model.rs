use jsonml::{
    write_json_string, AttributeValue, Attributes, AttributesOrElement, Element, JsonmlError,
    JsonmlForm, Number,
};
use std::str::FromStr;

fn number(text: &str) -> AttributeValue {
    AttributeValue::Number(Number::from_text(text).unwrap())
}

fn style_li(children: Vec<Element>, with_style: bool) -> Element {
    let mut attributes = Attributes::new();
    if with_style {
        attributes.insert(
            "style".to_string(),
            AttributeValue::String("color:red".to_string()),
        );
    }
    Element::Tag {
        name: "li".to_string(),
        attributes,
        element_list: children,
    }
}

#[test]
fn test_element_tag() {
    let element = style_li(vec![Element::String("First Item".to_string())], true);
    match element.jsonml_form() {
        JsonmlForm::Array { len, name, attributes, children } => {
            assert_eq!(len, 3);
            assert_eq!(name, "li");
            let attributes = attributes.expect("attributes are written");
            assert_eq!(attributes.len(), 1);
            let (key, value) = attributes.entry(0);
            assert_eq!(key, "style");
            assert_eq!(value, &AttributeValue::String("color:red".to_string()));
            assert_eq!(children, &vec![Element::String("First Item".to_string())]);
        }
        JsonmlForm::Str(_) => panic!("a tag is written as an array"),
    }
}

#[test]
fn test_element_tag_name_only() {
    let element = style_li(vec![], false);
    match element.jsonml_form() {
        JsonmlForm::Array { len, name, attributes, children } => {
            assert_eq!(len, 1);
            assert_eq!(name, "li");
            assert!(attributes.is_none());
            assert!(children.is_empty());
        }
        JsonmlForm::Str(_) => panic!("a tag is written as an array"),
    }
}

#[test]
fn test_element_tag_without_element_list() {
    let element = style_li(vec![], true);
    match element.jsonml_form() {
        JsonmlForm::Array { len, name, attributes, children } => {
            assert_eq!(len, 2);
            assert_eq!(name, "li");
            assert_eq!(attributes.map(|a| a.len()), Some(1));
            assert!(children.is_empty());
        }
        JsonmlForm::Str(_) => panic!("a tag is written as an array"),
    }
}

#[test]
fn test_element_string() {
    let element = Element::String("First Item".to_string());
    assert_eq!(Element::from_jsonml_str("First Item"), element);
    match element.jsonml_form() {
        JsonmlForm::Str(s) => assert_eq!(s, "First Item"),
        JsonmlForm::Array { .. } => panic!("text is written as a string"),
    }
}

#[test]
fn jsonml_parts_read_as_tags() {
    let missing = Element::from_jsonml_parts(None, None, vec![]);
    assert_eq!(missing, Err(JsonmlError::MissingName));

    let bare = Element::from_jsonml_parts(Some("br".to_string()), None, vec![]);
    assert_eq!(
        bare,
        Ok(Element::Tag {
            name: "br".to_string(),
            attributes: Attributes::new(),
            element_list: vec![]
        })
    );

    let first = Element::String("a".to_string());
    let second = Element::String("b".to_string());
    let with_child = Element::from_jsonml_parts(
        Some("p".to_string()),
        Some(AttributesOrElement::Element(first.clone())),
        vec![second.clone()],
    );
    assert_eq!(
        with_child,
        Ok(Element::Tag {
            name: "p".to_string(),
            attributes: Attributes::new(),
            element_list: vec![first, second.clone()]
        })
    );

    let mut attributes = Attributes::new();
    attributes.insert("id".to_string(), number("7"));
    let with_attributes = Element::from_jsonml_parts(
        Some("p".to_string()),
        Some(AttributesOrElement::Attributes(attributes.clone())),
        vec![second.clone()],
    );
    assert_eq!(
        with_attributes,
        Ok(Element::Tag {
            name: "p".to_string(),
            attributes,
            element_list: vec![second]
        })
    );
}

fn read_back(element: &Element) -> Element {
    match element.jsonml_form() {
        JsonmlForm::Str(s) => Element::from_jsonml_str(s),
        JsonmlForm::Array { name, attributes, children, .. } => {
            let (second, rest) = match attributes {
                Some(a) => (Some(AttributesOrElement::Attributes(a.clone())), children.clone()),
                None if !children.is_empty() => (
                    Some(AttributesOrElement::Element(children[0].clone())),
                    children[1..].to_vec(),
                ),
                None => (None, vec![]),
            };
            Element::from_jsonml_parts(Some(name.clone()), second, rest).unwrap()
        }
    }
}

#[test]
fn jsonml_round_trip() {
    let elements = vec![
        Element::String("x".to_string()),
        style_li(vec![], false),
        style_li(vec![], true),
        style_li(
            vec![
                Element::String("First Item".to_string()),
                style_li(vec![Element::String("inner".to_string())], true),
            ],
            false,
        ),
    ];
    for element in elements {
        assert_eq!(read_back(&element), element);
    }
}

#[test]
fn default_and_from_str() {
    assert_eq!(Element::default(), Element::String(String::new()));
    assert_eq!(
        Element::from_str("hello").unwrap(),
        Element::String("hello".to_string())
    );
}

#[test]
fn attributes_map_operations() {
    let mut a = Attributes::new();
    assert!(a.is_empty());
    assert_eq!(a.insert("b".to_string(), AttributeValue::Bool(true)), None);
    assert_eq!(a.insert("a".to_string(), AttributeValue::Null), None);
    assert_eq!(
        a.insert("b".to_string(), AttributeValue::Bool(false)),
        Some(AttributeValue::Bool(true))
    );
    assert_eq!(a.len(), 2);
    assert_eq!(a.get("b"), Some(&AttributeValue::Bool(false)));
    assert_eq!(a.get("a"), Some(&AttributeValue::Null));
    assert_eq!(a.get("c"), None);
    assert_eq!(a.entry(0).0, "a");
    assert_eq!(a.entry(1).0, "b");
}

#[test]
fn attributes_do_not_depend_on_insertion_order() {
    let mut one = Attributes::new();
    one.insert("b".to_string(), number("1"));
    one.insert("a".to_string(), number("2"));
    one.insert("c".to_string(), number("3"));
    let mut other = Attributes::new();
    other.insert("c".to_string(), number("3"));
    other.insert("a".to_string(), number("2"));
    other.insert("b".to_string(), number("1"));
    assert_eq!(one, other);
    let show = |attributes: Attributes| {
        Element::Tag { name: "x".to_string(), attributes, element_list: vec![] }.to_string()
    };
    assert_eq!(show(one), show(other));
}

#[test]
fn attribute_names_order_by_code_point() {
    let mut a = Attributes::new();
    for k in ["é", "Z", "a", "", "ab", "aa"] {
        a.insert(k.to_string(), AttributeValue::Null);
    }
    let keys: Vec<&str> = (0..a.len()).map(|i| a.entry(i).0.as_str()).collect();
    assert_eq!(keys, vec!["", "Z", "a", "aa", "ab", "é"]);
}

#[test]
fn json_string_quoting() {
    let mut out = String::from("x=");
    write_json_string("plain", &mut out);
    assert_eq!(out, "x=\"plain\"");

    let mut out = String::new();
    write_json_string("a\"b\\c\nd\re\tf", &mut out);
    assert_eq!(out, r#""a\"b\\c\nd\re\tf""#);

    let mut out = String::new();
    write_json_string("\u{0}\u{1f}\u{8}\u{7f}é", &mut out);
    assert_eq!(out, "\"\\u0000\\u001f\\u0008\u{7f}é\"");

    let mut out = String::new();
    write_json_string("", &mut out);
    assert_eq!(out, "\"\"");
}

#[test]
fn number_texts() {
    for x in [0.0f64, -0.0, 3.14, -2.5, 16777217.0, 1e300, 1e-300, f64::NAN, f64::INFINITY, f64::NEG_INFINITY] {
        let text = x.to_string();
        let n = Number::from_text(&text).expect("Display text of an f64");
        assert_eq!(n.as_str(), text);
    }
    for bad in ["", "-", ".", "1.", ".5", "1e5", "+1", "1.2.3", "nan", "Inf", "1 ", "--1", "-NaN"] {
        assert!(Number::from_text(bad).is_none(), "{bad:?}");
    }
    assert_eq!(Number::from_text("-12.50").map(|n| n.as_str().to_string()), Some("-12.50".to_string()));
}
