//! The JsonML array form: a text element is written as a string, a tag as an
//! array holding its name, then its attributes when it has any, then its
//! child elements. Reading takes the name, then one item that is either the
//! attributes or the first child, then the remaining children.
use vstd::prelude::*;

use crate::attributes::{Attributes, AttributesView};
use crate::element::{elements_view, Element, ElementView};

verus! {

/// What an element is written as.
pub enum JsonmlForm<'a> {
    /// A text element: a string.
    Str(&'a String),
    /// A tag: an array announced with `len` items, holding the name, then the
    /// attributes if present, then the children.
    Array {
        len: usize,
        name: &'a String,
        attributes: Option<&'a Attributes>,
        children: &'a Vec<Element>,
    },
}

/// The mathematical value of a `JsonmlForm`.
pub enum JsonmlFormView {
    Str(Seq<char>),
    Array {
        len: int,
        name: Seq<char>,
        attributes: Option<AttributesView>,
        children: Seq<ElementView>,
    },
}

impl<'a> View for JsonmlForm<'a> {
    type V = JsonmlFormView;

    open spec fn view(&self) -> JsonmlFormView {
        match self {
            JsonmlForm::Str(s) => JsonmlFormView::Str(s@),
            JsonmlForm::Array { len, name, attributes, children } => JsonmlFormView::Array {
                len: *len as int,
                name: name@,
                attributes: match attributes {
                    Some(a) => Some(a@),
                    None => None,
                },
                children: elements_view(children@),
            },
        }
    }
}

/// The item that follows the name when a tag is read: its attributes, or its
/// first child.
pub enum AttributesOrElement {
    Attributes(Attributes),
    Element(Element),
}

/// The mathematical value of an `AttributesOrElement`.
pub enum AttributesOrElementView {
    Attributes(AttributesView),
    Element(ElementView),
}

impl View for AttributesOrElement {
    type V = AttributesOrElementView;

    open spec fn view(&self) -> AttributesOrElementView {
        match self {
            AttributesOrElement::Attributes(a) => AttributesOrElementView::Attributes(a@),
            AttributesOrElement::Element(e) => AttributesOrElementView::Element(e@),
        }
    }
}

/// Why an array could not be read as a tag.
#[derive(Debug, PartialEq, Eq)]
pub enum JsonmlError {
    /// The array has no name: it is empty.
    MissingName,
}

/// How an element is written: text as a string; a tag as an array announced
/// with one item for the name plus one per attribute and per child, holding
/// the name, the attributes only when there is at least one, and the children.
pub open spec fn jsonml_form(e: ElementView) -> JsonmlFormView {
    match e {
        ElementView::Text(s) => JsonmlFormView::Str(s),
        ElementView::Tag { name, attributes, children } => JsonmlFormView::Array {
            len: (1 + attributes.len() + children.len()) as int,
            name,
            attributes: if attributes.len() > 0 {
                Some(attributes)
            } else {
                None
            },
            children,
        },
    }
}

/// The tag read from a name, the item after it if any, and the remaining
/// children: the item is taken as the attributes or as the first child; with
/// no attributes item there are no attributes.
pub open spec fn jsonml_tag(
    name: Seq<char>,
    second: Option<AttributesOrElementView>,
    rest: Seq<ElementView>,
) -> ElementView {
    match second {
        Some(AttributesOrElementView::Attributes(a)) => ElementView::Tag {
            name,
            attributes: a,
            children: rest,
        },
        Some(AttributesOrElementView::Element(c)) => ElementView::Tag {
            name,
            attributes: Seq::empty(),
            children: seq![c] + rest,
        },
        None => ElementView::Tag { name, attributes: Seq::empty(), children: rest },
    }
}

/// What a reader obtains from a written form: a string is text; from an
/// array it takes the name, then the next item (a map is read as the
/// attributes, anything else as the first child), then the remaining items
/// as children.
pub open spec fn jsonml_read(f: JsonmlFormView) -> ElementView {
    match f {
        JsonmlFormView::Str(s) => ElementView::Text(s),
        JsonmlFormView::Array { name, attributes, children, .. } => match attributes {
            Some(a) => jsonml_tag(name, Some(AttributesOrElementView::Attributes(a)), children),
            None => if children.len() > 0 {
                jsonml_tag(
                    name,
                    Some(AttributesOrElementView::Element(children[0])),
                    children.drop_first(),
                )
            } else {
                jsonml_tag(name, None, children)
            },
        },
    }
}

/// The announced length of a tag's array fits in a `usize`.
pub open spec fn jsonml_len_fits(e: ElementView) -> bool {
    match e {
        ElementView::Tag { attributes, children, .. } => 1 + attributes.len() + children.len()
            <= usize::MAX,
        ElementView::Text(_) => true,
    }
}

/// Reading back what was written gives the element again: the name, the
/// attributes (an absent attributes item reads as no attributes) and the
/// children are all kept.
pub proof fn lemma_jsonml_round_trip(e: ElementView)
    ensures
        jsonml_read(jsonml_form(e)) == e,
{
    match e {
        ElementView::Tag { name, attributes, children } => {
            if attributes.len() == 0 {
                assert(attributes =~= Seq::<(Seq<char>, crate::value::AttributeValueView)>::empty());
                if children.len() > 0 {
                    assert(seq![children[0]] + children.drop_first() =~= children);
                }
            }
        },
        ElementView::Text(_) => {},
    }
}

impl Element {
    /// How this element is written in JsonML.
    pub fn jsonml_form(&self) -> (r: JsonmlForm<'_>)
        requires
            jsonml_len_fits(self@),
        ensures
            r@ == jsonml_form(self@),
    {
        match self {
            Element::String(s) => JsonmlForm::Str(s),
            Element::Tag { name, attributes, element_list } => {
                let len = 1 + attributes.len() + element_list.len();
                let attrs = if attributes.is_empty() {
                    None
                } else {
                    Some(attributes)
                };
                JsonmlForm::Array { len, name, attributes: attrs, children: element_list }
            },
        }
    }

    /// The tag read from the items of a JsonML array: the name, the item after
    /// it if any, and the remaining children. Fails when there is no name.
    pub fn from_jsonml_parts(
        name: Option<String>,
        second: Option<AttributesOrElement>,
        rest: Vec<Element>,
    ) -> (r: Result<Element, JsonmlError>)
        ensures
            match name {
                None => r == Err::<Element, JsonmlError>(JsonmlError::MissingName),
                Some(n) => r matches Ok(e) && e@ == jsonml_tag(
                    n@,
                    match second {
                        Some(x) => Some(x@),
                        None => None,
                    },
                    elements_view(rest@),
                ),
            },
    {
        let name = match name {
            Some(n) => n,
            None => return Err(JsonmlError::MissingName),
        };
        let ghost rest_view = elements_view(rest@);
        match second {
            Some(AttributesOrElement::Attributes(attributes)) => {
                Ok(Element::Tag { name, attributes, element_list: rest })
            },
            Some(AttributesOrElement::Element(first)) => {
                let ghost first_view = first@;
                let mut element_list: Vec<Element> = Vec::new();
                element_list.push(first);
                let mut rest = rest;
                element_list.append(&mut rest);
                proof {
                    assert(elements_view(element_list@) =~= seq![first_view] + rest_view);
                }
                Ok(Element::Tag { name, attributes: Attributes::new(), element_list })
            },
            None => Ok(Element::Tag { name, attributes: Attributes::new(), element_list: rest }),
        }
    }

    /// The text element read from a string.
    pub fn from_jsonml_str(s: &str) -> (r: Element)
        ensures
            r@ == ElementView::Text(s@),
    {
        Element::String(s.to_owned())
    }
}

} // verus!

verus! {

/// Reading a name, then an attributes item `a`, then the items `rest` gives a
/// tag with that name whose attributes are `a` and whose children are exactly
/// `rest`, for every `a`, the empty one included.
pub proof fn lemma_read_with_attributes(
    name: Seq<char>,
    a: AttributesView,
    rest: Seq<ElementView>,
)
    ensures
        jsonml_tag(name, Some(AttributesOrElementView::Attributes(a)), rest) matches ElementView::Tag {
            name: n,
            attributes: at,
            children: ch,
        } && n == name && at == a && ch == rest,
{
}

/// Reading a name, then an element `c`, then the items `rest` gives a tag with
/// no attributes whose children are `c` followed by `rest`; reading a name
/// alone gives a tag with no attributes and no children. The number of
/// children read is the number of element items read.
pub proof fn lemma_read_without_attributes(name: Seq<char>, c: ElementView, rest: Seq<ElementView>)
    ensures
        jsonml_tag(name, Some(AttributesOrElementView::Element(c)), rest) matches ElementView::Tag {
            name: n,
            attributes: at,
            children: ch,
        } && n == name && at.len() == 0 && ch.len() == rest.len() + 1 && ch[0] == c && ch.drop_first()
            == rest,
        jsonml_tag(name, None, Seq::empty()) matches ElementView::Tag {
            name: n,
            attributes: at,
            children: ch,
        } && n == name && at.len() == 0 && ch.len() == 0,
{
    assert((seq![c] + rest).drop_first() =~= rest);
}

/// How a tag is written: its name, then an attributes item exactly when it
/// has at least one attribute (and then that item is its attributes), then
/// its children; the array is announced with one item for the name plus one
/// per attribute and per child, which is the number of items written when
/// the tag has at most one attribute. Text is written as the string itself.
pub proof fn lemma_written_form(e: ElementView)
    ensures
        match e {
            ElementView::Tag { name, attributes, children } => jsonml_form(e) matches JsonmlFormView::Array {
                len,
                name: n,
                attributes: at,
                children: ch,
            } && n == name && ch == children && (at is Some <==> attributes.len() > 0) && (
            at matches Some(x) ==> x == attributes) && len == 1 + attributes.len() + children.len()
                && (attributes.len() <= 1 ==> len == 1 + (if at is Some {
                1int
            } else {
                0int
            }) + children.len()),
            ElementView::Text(s) => jsonml_form(e) == JsonmlFormView::Str(s),
        },
{
}

} // verus!
