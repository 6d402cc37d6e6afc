use jsonml::{Attributes, Element, ElementPostIter, ElementPreIter, PostOrderElement, PreOrderElement};

fn collect_pre(mut it: ElementPreIter<'_>) -> Vec<Element> {
    let mut nodes = Vec::new();
    while let Some(node) = it.next() {
        nodes.push(node.to_owned());
    }
    nodes
}

fn collect_post(mut it: ElementPostIter<'_>) -> Vec<Element> {
    let mut nodes = Vec::new();
    while let Some(node) = it.next() {
        nodes.push(node.to_owned());
    }
    nodes
}

fn tag(name: &str, children: Vec<Element>) -> Element {
    Element::Tag {
        name: name.to_string(),
        attributes: Attributes::new(),
        element_list: children,
    }
}

#[test]
fn test_iters() {
    let text = Element::String("hello".to_string());
    let span = Element::Tag {
        name: "span".to_string(),
        attributes: Attributes::new(),
        element_list: vec![],
    };
    let tree = Element::Tag {
        name: "div".to_string(),
        attributes: Attributes::new(),
        element_list: vec![text.clone(), span.clone()],
    };

    let nodes: Vec<_> = collect_pre(PreOrderElement::from(tree.clone()).into_iter());
    assert_eq!(nodes, vec![tree.clone(), text.clone(), span.clone()]);

    let nodes: Vec<_> = collect_post(PostOrderElement::from(tree.clone()).into_iter());
    assert_eq!(nodes, vec![text, span, tree]);
}

#[test]
fn traversal_of_a_deeper_tree() {
    let a = Element::String("a".to_string());
    let b = Element::String("b".to_string());
    let c = Element::String("c".to_string());
    let inner = tag("p", vec![b.clone(), c.clone()]);
    let tree = tag("div", vec![a.clone(), inner.clone()]);

    let pre = collect_pre(PreOrderElement::from(tree.clone()).into_iter());
    assert_eq!(pre, vec![tree.clone(), a.clone(), inner.clone(), b.clone(), c.clone()]);

    let post = collect_post(PostOrderElement::from(tree.clone()).into_iter());
    assert_eq!(post, vec![a, b, c, inner, tree]);
}

#[test]
fn traversal_of_a_single_text() {
    let t = Element::String("only".to_string());
    let pre = PreOrderElement::from(t.clone());
    let mut it = pre.into_iter();
    assert_eq!(it.next(), Some(&t));
    assert_eq!(it.next(), None);
    assert_eq!(it.next(), None);

    let post = PostOrderElement::from(t.clone());
    let mut it = post.into_iter();
    assert_eq!(it.next(), Some(&t));
    assert_eq!(it.next(), None);
}

#[test]
fn both_orders_visit_the_same_nodes() {
    let tree = tag(
        "r",
        vec![
            tag("x", vec![Element::String("1".to_string())]),
            tag("y", vec![tag("z", vec![]), Element::String("2".to_string())]),
        ],
    );
    let mut pre = collect_pre(PreOrderElement::from(tree.clone()).into_iter());
    let mut post = collect_post(PostOrderElement::from(tree.clone()).into_iter());
    assert_eq!(pre.len(), 6);
    assert_eq!(pre[0], tree);
    assert_eq!(post[5], tree);
    let key = |e: &Element| format!("{e:?}");
    pre.sort_by_key(key);
    post.sort_by_key(key);
    assert_eq!(pre, post);
}
