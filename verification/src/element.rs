//! JsonML elements, their HTML rendering, and the JsonML array form they are
//! written as.
use vstd::prelude::*;

use crate::attributes::{Attributes, AttributesView};
use crate::text::{check_attribute_name, check_tag_name, is_attribute_name, is_tag_name, push_char, push_str};
use crate::value::value_html;

verus! {

/// A JsonML element: a tag with a name, attributes and child elements, or a
/// piece of text.
#[derive(Debug, PartialEq)]
pub enum Element {
    Tag { name: String, attributes: Attributes, element_list: Vec<Element> },
    String(String),
}

/// The mathematical value of an element.
pub enum ElementView {
    Tag { name: Seq<char>, attributes: AttributesView, children: Seq<ElementView> },
    Text(Seq<char>),
}

/// The views of a list of elements.
pub open spec fn elements_view(s: Seq<Element>) -> Seq<ElementView>
    decreases s,
{
    Seq::new(
        s.len(),
        |i: int|
            if 0 <= i < s.len() {
                s[i].view_of()
            } else {
                ElementView::Text(Seq::empty())
            },
    )
}

impl Element {
    /// The mathematical value of this element.
    pub open spec fn view_of(self) -> ElementView
        decreases self,
    {
        match self {
            Element::Tag { name, attributes, element_list } => ElementView::Tag {
                name: name@,
                attributes: attributes@,
                children: elements_view(element_list@),
            },
            Element::String(s) => ElementView::Text(s@),
        }
    }
}

impl View for Element {
    type V = ElementView;

    open spec fn view(&self) -> ElementView {
        self.view_of()
    }
}

// ---------------------------------------------------------------------------
// HTML

/// Every attribute name is one that HTML accepts.
pub open spec fn attribute_names_valid(a: AttributesView) -> bool {
    forall|i: int| 0 <= i < a.len() ==> is_attribute_name(#[trigger] a[i].0)
}

/// Every tag name and attribute name in the element is one that HTML accepts.
pub open spec fn is_valid_html(e: ElementView) -> bool
    decreases e,
{
    match e {
        ElementView::Tag { name, attributes, children } => {
            &&& is_tag_name(name)
            &&& attribute_names_valid(attributes)
            &&& forall|i: int| 0 <= i < children.len() ==> is_valid_html(#[trigger] children[i])
        },
        ElementView::Text(_) => true,
    }
}

/// One attribute in HTML: ` name="value"`.
pub open spec fn attribute_html(p: (Seq<char>, crate::value::AttributeValueView)) -> Seq<char> {
    seq![' '] + p.0 + seq!['=', '"'] + value_html(p.1) + seq!['"']
}

/// The attributes in HTML, in the order of the list.
pub open spec fn attributes_html(a: AttributesView) -> Seq<char>
    decreases a.len(),
{
    if a.len() == 0 {
        Seq::empty()
    } else {
        attributes_html(a.drop_last()) + attribute_html(a.last())
    }
}

/// An element in HTML: text as it is, a tag as `<name attrs>children</name>`.
pub open spec fn html(e: ElementView) -> Seq<char>
    decreases e,
{
    match e {
        ElementView::Tag { name, attributes, children } => seq!['<'] + name + attributes_html(
            attributes,
        ) + seq!['>'] + children_html(children) + seq!['<', '/'] + name + seq!['>'],
        ElementView::Text(s) => s,
    }
}

/// A list of elements in HTML, one after the other.
pub open spec fn children_html(s: Seq<ElementView>) -> Seq<char>
    decreases s,
{
    if s.len() == 0 {
        Seq::empty()
    } else {
        children_html(s.drop_last()) + html(s.last())
    }
}

impl Element {
    /// The element in HTML. Every tag name must consist of ASCII letters and
    /// digits, and no attribute name may hold a space, `"`, `'`, `>`, `/`, `=`
    /// or a noncharacter.
    pub fn to_string(&self) -> (r: String)
        requires
            is_valid_html(self@),
        ensures
            r@ == html(self@),
    {
        let mut out = String::new();
        let ok = self.write_html(&mut out);
        assert(out@ =~= html(self@));
        out
    }

    /// The element in HTML, or `None` when some tag name or attribute name is
    /// one that HTML does not accept.
    pub fn try_to_string(&self) -> (r: Option<String>)
        ensures
            r is Some <==> is_valid_html(self@),
            r matches Some(s) ==> s@ == html(self@),
    {
        let mut out = String::new();
        if self.write_html(&mut out) {
            assert(out@ =~= html(self@));
            Some(out)
        } else {
            None
        }
    }

    /// Appends the HTML form of this element to `out`, and returns whether all
    /// its names are ones that HTML accepts. When it returns `false`, what was
    /// appended is unspecified.
    fn write_html(&self, out: &mut String) -> (ok: bool)
        ensures
            ok == is_valid_html(self@),
            ok ==> final(out)@ == old(out)@ + html(self@),
        decreases self, 1nat,
    {
        match self {
            Element::String(s) => {
                push_str(out, s.as_str());
                true
            },
            Element::Tag { name, attributes, element_list } => {
                let ghost start = out@;
                assert(self@ == ElementView::Tag {
                    name: name@,
                    attributes: attributes@,
                    children: elements_view(element_list@),
                });
                if !check_tag_name(name.as_str()) {
                    return false;
                }
                push_char(out, '<');
                push_str(out, name.as_str());
                if !write_attributes_html(attributes, out) {
                    return false;
                }
                push_char(out, '>');
                if !write_children_html(element_list, out) {
                    proof {
                        let kids = elements_view(element_list@);
                        let j = choose|j: int| 0 <= j < kids.len() && !is_valid_html(#[trigger] kids[j]);
                        assert(!is_valid_html(kids[j]));
                        assert(kids == self@->children);
                        assert(self@->children.len() == kids.len());
                        assert(!is_valid_html(self@->children[j]));
                        assert(!is_valid_html(self@));
                    }
                    return false;
                }
                push_char(out, '<');
                push_char(out, '/');
                push_str(out, name.as_str());
                push_char(out, '>');
                assert(out@ =~= start + html(self@));
                true
            },
        }
    }
}

impl Default for Element {
    /// The default element is empty text.
    fn default() -> (r: Self)
        ensures
            r@ == ElementView::Text(Seq::empty()),
    {
        Element::String(String::new())
    }
}

impl Clone for Element {
    #[verifier::loop_isolation(false)]
    fn clone(&self) -> (r: Self)
        ensures
            r@ == self@,
        decreases self,
    {
        match self {
            Element::String(s) => Element::String(s.clone()),
            Element::Tag { name, attributes, element_list } => {
                let mut list: Vec<Element> = Vec::new();
                let m = element_list.len();
                for i in 0..m
                    invariant
                        m == element_list@.len(),
                        list@.len() == i,
                        forall|j: int| 0 <= j < i ==> #[trigger] list@[j]@ == element_list@[j]@,
                {
                    list.push(element_list[i].clone());
                }
                let r = Element::Tag { name: name.clone(), attributes: attributes.clone(), element_list: list };
                assert forall|j: int| 0 <= j < m implies #[trigger] elements_view(list@)[j]
                    == elements_view(element_list@)[j] by {
                    assert(list@[j]@ == element_list@[j]@);
                }
                assert(elements_view(list@) =~= elements_view(element_list@));
                r
            },
        }
    }
}

#[verifier::external_type_specification]
#[verifier::external_body]
pub struct ExVoid(void::Void);

impl core::str::FromStr for Element {
    type Err = void::Void;

    /// Text is read as a text element; this never fails.
    fn from_str(s: &str) -> (r: Result<Self, void::Void>)
        ensures
            r matches Ok(e) && e@ == ElementView::Text(s@),
    {
        Ok(Element::String(s.to_owned()))
    }
}

/// Appends the attributes in HTML to `out`, and returns whether all their
/// names are ones that HTML accepts. When it returns `false`, what was
/// appended is unspecified.
fn write_attributes_html(attributes: &Attributes, out: &mut String) -> (ok: bool)
    ensures
        ok == attribute_names_valid(attributes@),
        ok ==> final(out)@ == old(out)@ + attributes_html(attributes@),
{
    let ghost start = out@;
    let n = attributes.len();
    for i in 0..n
        invariant
            n == attributes@.len(),
            out@ == start + attributes_html(attributes@.take(i as int)),
            forall|j: int| 0 <= j < i ==> is_attribute_name(#[trigger] attributes@[j].0),
    {
        let (key, value) = attributes.entry(i);
        if !check_attribute_name(key.as_str()) {
            return false;
        }
        let ghost before = out@;
        push_char(out, ' ');
        push_str(out, key.as_str());
        push_char(out, '=');
        push_char(out, '"');
        value.write_html(out);
        push_char(out, '"');
        proof {
            assert(attributes@.take(i + 1).drop_last() == attributes@.take(i as int));
            assert(out@ =~= before + attribute_html(attributes@[i as int]));
        }
    }
    assert(attributes@.take(n as int) == attributes@);
    true
}

/// Appends the elements of `list` in HTML to `out`, and returns whether all
/// their names are ones that HTML accepts. When it returns `false`, what was
/// appended is unspecified.
fn write_children_html(list: &Vec<Element>, out: &mut String) -> (ok: bool)
    ensures
        ok == (forall|j: int| 0 <= j < list@.len() ==> is_valid_html(#[trigger] elements_view(list@)[j])),
        ok ==> final(out)@ == old(out)@ + children_html(elements_view(list@)),
    decreases list, 0nat,
{
    let ghost start = out@;
    let ghost children = elements_view(list@);
    let m = list.len();
    for i in 0..m
        invariant
            m == list@.len(),
            children == elements_view(list@),
            out@ == start + children_html(children.take(i as int)),
            forall|j: int| 0 <= j < i ==> is_valid_html(#[trigger] children[j]),
    {
        assert(children[i as int] == list@[i as int]@);
        if !list[i].write_html(out) {
            return false;
        }
        proof {
            assert(children.take(i + 1).drop_last() == children.take(i as int));
        }
    }
    proof {
        assert(children.take(m as int) == children);
    }
    true
}

} // verus!

verus! {

/// A tag is shown in HTML exactly when every character of its name is a
/// digit or an ASCII letter, no attribute name holds a refused character, and
/// each child can be shown.
pub proof fn lemma_valid_html_tag(
    name: Seq<char>,
    attributes: AttributesView,
    children: Seq<ElementView>,
)
    ensures
        is_valid_html(ElementView::Tag { name, attributes, children }) <==> {
            &&& forall|i: int|
                0 <= i < name.len() ==> {
                    let c = #[trigger] name[i];
                    ||| ('0' <= c && c <= '9')
                    ||| ('A' <= c && c <= 'Z')
                    ||| ('a' <= c && c <= 'z')
                }
            &&& forall|i: int, j: int|
                0 <= i < attributes.len() && 0 <= j < attributes[i].0.len()
                    ==> !crate::text::is_refused_in_attribute_name(#[trigger] attributes[i].0[j])
            &&& forall|i: int| 0 <= i < children.len() ==> is_valid_html(#[trigger] children[i])
        },
{
    crate::text::lemma_tag_name_characters(name);
    let refused_free = forall|i: int, j: int|
        0 <= i < attributes.len() && 0 <= j < attributes[i].0.len()
            ==> !crate::text::is_refused_in_attribute_name(#[trigger] attributes[i].0[j]);
    if attribute_names_valid(attributes) {
        assert forall|i: int, j: int|
            0 <= i < attributes.len() && 0 <= j < attributes[i].0.len() implies !crate::text::is_refused_in_attribute_name(
            #[trigger] attributes[i].0[j],
        ) by {
            assert(is_attribute_name(attributes[i].0));
            crate::text::lemma_attribute_name_character(attributes[i].0[j]);
        }
    }
    if refused_free {
        assert forall|i: int| 0 <= i < attributes.len() implies is_attribute_name(
            #[trigger] attributes[i].0,
        ) by {
            assert forall|j: int| 0 <= j < attributes[i].0.len() implies crate::text::is_attribute_name_char(
                #[trigger] attributes[i].0[j],
            ) by {
                crate::text::lemma_attribute_name_character(attributes[i].0[j]);
            }
        }
    }
    assert(attribute_names_valid(attributes) <==> refused_free);
    assert(crate::text::is_tag_name(name) <==> forall|i: int|
        0 <= i < name.len() ==> {
            let c = #[trigger] name[i];
            ||| ('0' <= c && c <= '9')
            ||| ('A' <= c && c <= 'Z')
            ||| ('a' <= c && c <= 'z')
        });
    let t = ElementView::Tag { name, attributes, children };
    assert(t->children == children);
    assert(is_valid_html(t) == (crate::text::is_tag_name(name) && attribute_names_valid(attributes)
        && forall|i: int| 0 <= i < children.len() ==> is_valid_html(#[trigger] children[i])));
}

} // verus!
