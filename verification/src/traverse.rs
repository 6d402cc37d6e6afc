//! Pre-order and post-order traversals of an element tree.
use vstd::prelude::*;

use crate::element::Element;

verus! {

/// The nodes of `e` in pre-order: a node, then the nodes of each child in turn.
pub open spec fn pre_order(e: Element) -> Seq<Element>
    decreases e,
{
    match e {
        Element::Tag { element_list, .. } => seq![e] + pre_order_list(element_list@),
        Element::String(_) => seq![e],
    }
}

/// The pre-order nodes of each element of `s`, one element after the other.
pub open spec fn pre_order_list(s: Seq<Element>) -> Seq<Element>
    decreases s,
{
    if s.len() == 0 {
        Seq::empty()
    } else {
        pre_order(s[0]) + pre_order_list(s.drop_first())
    }
}

/// The nodes of `e` in post-order: the nodes of each child in turn, then the node.
pub open spec fn post_order(e: Element) -> Seq<Element>
    decreases e,
{
    match e {
        Element::Tag { element_list, .. } => post_order_list(element_list@) + seq![e],
        Element::String(_) => seq![e],
    }
}

/// The post-order nodes of each element of `s`, one element after the other.
pub open spec fn post_order_list(s: Seq<Element>) -> Seq<Element>
    decreases s,
{
    if s.len() == 0 {
        Seq::empty()
    } else {
        post_order(s[0]) + post_order_list(s.drop_first())
    }
}

/// The elements that a stack of references points to, bottom first.
pub open spec fn pointees(s: Seq<&Element>) -> Seq<Element> {
    s.map_values(|r: &Element| *r)
}

/// The pre-order nodes still to come from a stack: the top element's first.
pub open spec fn pre_order_stack(s: Seq<Element>) -> Seq<Element>
    decreases s.len(),
{
    if s.len() == 0 {
        Seq::empty()
    } else {
        pre_order(s.last()) + pre_order_stack(s.drop_last())
    }
}

/// `s` from its last element to its first.
pub open spec fn backwards(s: Seq<Element>) -> Seq<Element>
    decreases s.len(),
{
    if s.len() == 0 {
        Seq::empty()
    } else {
        seq![s.last()] + backwards(s.drop_last())
    }
}

pub proof fn lemma_post_order_list_append(a: Seq<Element>, b: Seq<Element>)
    ensures
        post_order_list(a + b) == post_order_list(a) + post_order_list(b),
    decreases a.len(),
{
    if a.len() == 0 {
        assert(a + b =~= b);
        assert(post_order_list(a) + post_order_list(b) =~= post_order_list(b));
    } else {
        assert((a + b).drop_first() =~= a.drop_first() + b);
        lemma_post_order_list_append(a.drop_first(), b);
        assert((a + b)[0] == a[0]);
        assert(post_order_list(a + b) =~= post_order_list(a) + post_order_list(b));
    }
}

proof fn lemma_pre_order_stack_empty(s: Seq<Element>)
    ensures
        pre_order_stack(s).len() == 0 <==> s.len() == 0,
{
    if s.len() > 0 {
        let e = s.last();
        match e {
            Element::Tag { .. } => {},
            Element::String(_) => {},
        }
        assert(pre_order(e).len() > 0);
    }
}

/// An iterator over the nodes of an element tree in pre-order.
pub struct ElementPreIter<'a> {
    stack: Vec<&'a Element>,
}

impl<'a> ElementPreIter<'a> {
    /// The nodes that the iterator has yet to yield, in order.
    pub closed spec fn remaining(&self) -> Seq<Element> {
        pre_order_stack(pointees(self.stack@))
    }

    /// The next node in pre-order, if any.
    pub fn next(&mut self) -> (r: Option<&'a Element>)
        ensures
            old(self).remaining().len() == 0 ==> r is None && final(self).remaining().len() == 0,
            old(self).remaining().len() > 0 ==> (r matches Some(e) && *e == old(
                self,
            ).remaining()[0] && final(self).remaining() == old(self).remaining().drop_first()),
    {
        let ghost old_stack = pointees(self.stack@);
        proof {
            lemma_pre_order_stack_empty(old_stack);
        }
        let node = match self.stack.pop() {
            Some(n) => n,
            None => return None,
        };
        let ghost rest = pointees(self.stack@);
        proof {
            assert(old_stack.drop_last() =~= rest);
            assert(old_stack.last() == *node);
        }
        if let Element::Tag { element_list, .. } = node {
            let n = element_list.len();
            let mut i = n;
            assert(element_list@.subrange(n as int, n as int) =~= Seq::<Element>::empty());
            assert(pre_order_stack(rest) =~= pre_order_list(Seq::<Element>::empty())
                + pre_order_stack(rest));
            while i > 0
                invariant
                    i <= n,
                    n == element_list@.len(),
                    pre_order_stack(pointees(self.stack@)) == pre_order_list(
                        element_list@.subrange(i as int, n as int),
                    ) + pre_order_stack(rest),
                decreases i,
            {
                let ghost before = pointees(self.stack@);
                i = i - 1;
                self.stack.push(&element_list[i]);
                proof {
                    let after = pointees(self.stack@);
                    assert(after.drop_last() =~= before);
                    assert(after.last() == element_list@[i as int]);
                    let sub = element_list@.subrange(i as int, n as int);
                    assert(sub.drop_first() =~= element_list@.subrange(i + 1, n as int));
                    assert(sub[0] == element_list@[i as int]);
                    assert(pre_order_stack(after) =~= pre_order_list(sub) + pre_order_stack(rest));
                }
            }
            proof {
                assert(element_list@.subrange(0, n as int) =~= element_list@);
                assert(pre_order(*node) == seq![*node] + pre_order_list(element_list@));
                assert(pre_order_stack(old_stack) =~= seq![*node] + pre_order_stack(
                    pointees(self.stack@),
                ));
            }
        } else {
            proof {
                assert(pre_order_stack(old_stack) =~= seq![*node] + pre_order_stack(rest));
            }
        }
        Some(node)
    }
}

/// An element whose nodes are visited in pre-order.
pub struct PreOrderElement(pub Element);

impl From<Element> for PreOrderElement {
    fn from(value: Element) -> (r: PreOrderElement)
        ensures
            r.0 == value,
    {
        PreOrderElement(value)
    }
}

impl vstd::std_specs::convert::FromSpecImpl<Element> for PreOrderElement {
    open spec fn obeys_from_spec() -> bool {
        true
    }

    open spec fn from_spec(value: Element) -> PreOrderElement {
        PreOrderElement(value)
    }
}

impl PreOrderElement {
    /// An iterator over the nodes of the element in pre-order.
    pub fn into_iter(&self) -> (r: ElementPreIter<'_>)
        ensures
            r.remaining() == pre_order(self.0),
    {
        let mut stack: Vec<&Element> = Vec::new();
        stack.push(&self.0);
        let r = ElementPreIter { stack };
        proof {
            let s = pointees(r.stack@);
            assert(s =~= seq![self.0]);
            assert(s.drop_last() =~= Seq::<Element>::empty());
            assert(s.last() == self.0);
            assert(pre_order_stack(s.drop_last()) =~= Seq::<Element>::empty());
            assert(pre_order_stack(s) =~= pre_order(self.0));
        }
        r
    }
}

/// An iterator over the nodes of an element tree in post-order.
pub struct ElementPostIter<'a> {
    stack: Vec<&'a Element>,
    result: Vec<&'a Element>,
}

impl<'a> ElementPostIter<'a> {
    /// The nodes that the iterator has yet to yield, in order.
    pub closed spec fn remaining(&self) -> Seq<Element> {
        post_order_list(pointees(self.stack@)) + backwards(pointees(self.result@))
    }

    /// The next node in post-order, if any.
    #[verifier::loop_isolation(false)]
    pub fn next(&mut self) -> (r: Option<&'a Element>)
        ensures
            old(self).remaining().len() == 0 ==> r is None && final(self).remaining().len() == 0,
            old(self).remaining().len() > 0 ==> (r matches Some(e) && *e == old(
                self,
            ).remaining()[0] && final(self).remaining() == old(self).remaining().drop_first()),
    {
        let ghost total = self.remaining();
        while self.stack.len() > 0
            invariant
                self.remaining() == total,
            decreases post_order_list(pointees(self.stack@)).len(),
        {
            let ghost old_stack = pointees(self.stack@);
            let ghost old_result = pointees(self.result@);
            let node = self.stack.pop().unwrap();
            self.result.push(node);
            let ghost rest = pointees(self.stack@);
            proof {
                assert(old_stack =~= rest + seq![*node]);
                lemma_post_order_list_append(rest, seq![*node]);
                assert(seq![*node].drop_first() =~= Seq::<Element>::empty());
                assert(post_order_list(Seq::<Element>::empty()) =~= Seq::<Element>::empty());
                assert(post_order_list(seq![*node]) =~= post_order(*node));
                assert(post_order_list(old_stack) =~= post_order_list(rest) + post_order(*node));
                let res = pointees(self.result@);
                assert(res.drop_last() =~= old_result);
                assert(backwards(res) == seq![*node] + backwards(old_result));
                assert(total =~= post_order_list(rest) + post_order(*node) + backwards(
                    old_result,
                ));
            }
            if let Element::Tag { element_list, .. } = node {
                let n = element_list.len();
                for i in 0..n
                    invariant
                        n == element_list@.len(),
                        pointees(self.stack@) == rest + element_list@.take(i as int),
                        pointees(self.result@) == old_result.push(*node),
                {
                    let ghost before = pointees(self.stack@);
                    self.stack.push(&element_list[i]);
                    proof {
                        assert(pointees(self.stack@) =~= before.push(element_list@[i as int]));
                        assert(element_list@.take(i + 1) =~= element_list@.take(i as int).push(
                            element_list@[i as int],
                        ));
                    }
                }
                proof {
                    assert(element_list@.take(n as int) =~= element_list@);
                    lemma_post_order_list_append(rest, element_list@);
                    assert(post_order(*node) == post_order_list(element_list@) + seq![*node]);
                    assert(pointees(self.stack@) == rest + element_list@);
                    assert(post_order_list(pointees(self.stack@)) == post_order_list(rest)
                        + post_order_list(element_list@));
                    let res = pointees(self.result@);
                    assert(res == old_result.push(*node));
                    assert(res.drop_last() =~= old_result);
                    assert(backwards(res) == seq![*node] + backwards(old_result));
                    assert(self.remaining() == post_order_list(pointees(self.stack@)) + backwards(res));
                    assert(self.remaining() =~= total);
                }
            } else {
                proof {
                    assert(post_order(*node) == seq![*node]);
                    assert(self.remaining() =~= total);
                }
            }
        }
        proof {
            assert(pointees(self.stack@) =~= Seq::<Element>::empty());
            assert(post_order_list(pointees(self.stack@)) =~= Seq::<Element>::empty());
            assert(self.remaining() =~= backwards(pointees(self.result@)));
        }
        let ghost res = pointees(self.result@);
        let r = self.result.pop();
        proof {
            if res.len() > 0 {
                assert(pointees(self.result@) =~= res.drop_last());
                assert(post_order_list(pointees(self.stack@)) =~= Seq::<Element>::empty());
                assert(self.remaining() =~= total.drop_first());
            }
        }
        r
    }
}

/// An element whose nodes are visited in post-order.
pub struct PostOrderElement(pub Element);

impl From<Element> for PostOrderElement {
    fn from(value: Element) -> (r: PostOrderElement)
        ensures
            r.0 == value,
    {
        PostOrderElement(value)
    }
}

impl vstd::std_specs::convert::FromSpecImpl<Element> for PostOrderElement {
    open spec fn obeys_from_spec() -> bool {
        true
    }

    open spec fn from_spec(value: Element) -> PostOrderElement {
        PostOrderElement(value)
    }
}

impl PostOrderElement {
    /// An iterator over the nodes of the element in post-order.
    pub fn into_iter(&self) -> (r: ElementPostIter<'_>)
        ensures
            r.remaining() == post_order(self.0),
    {
        let mut stack: Vec<&Element> = Vec::new();
        stack.push(&self.0);
        let r = ElementPostIter { stack, result: Vec::new() };
        proof {
            let s = pointees(r.stack@);
            assert(s =~= seq![self.0]);
            assert(s.drop_first() =~= Seq::<Element>::empty());
            assert(post_order_list(Seq::<Element>::empty()) =~= Seq::<Element>::empty());
            assert(post_order_list(s) =~= post_order(self.0));
            assert(backwards(pointees(r.result@)) =~= Seq::<Element>::empty());
            assert(r.remaining() =~= post_order(self.0));
        }
        r
    }
}

/// Pre-order and post-order visit the same nodes, each as often: they differ
/// only in order.
pub proof fn lemma_orders_visit_same_nodes(e: Element)
    ensures
        pre_order(e).to_multiset() == post_order(e).to_multiset(),
    decreases e,
{
    broadcast use vstd::seq_lib::lemma_multiset_commutative;

    match e {
        Element::Tag { element_list, .. } => {
            lemma_lists_visit_same_nodes(element_list@);
            assert(pre_order(e).to_multiset() =~= post_order(e).to_multiset());
        },
        Element::String(_) => {},
    }
}

/// `lemma_orders_visit_same_nodes` for each element of a list.
pub proof fn lemma_lists_visit_same_nodes(s: Seq<Element>)
    ensures
        pre_order_list(s).to_multiset() == post_order_list(s).to_multiset(),
    decreases s,
{
    broadcast use vstd::seq_lib::lemma_multiset_commutative;

    if s.len() > 0 {
        lemma_orders_visit_same_nodes(s[0]);
        lemma_lists_visit_same_nodes(s.drop_first());
        assert(pre_order_list(s).to_multiset() =~= post_order_list(s).to_multiset());
    }
}

/// Pre-order starts with the element itself; post-order ends with it.
pub proof fn lemma_root_first_and_last(e: Element)
    ensures
        pre_order(e).len() > 0,
        pre_order(e)[0] == e,
        post_order(e).len() > 0,
        post_order(e).last() == e,
{
    match e {
        Element::Tag { .. } => {},
        Element::String(_) => {},
    }
}

} // verus!
