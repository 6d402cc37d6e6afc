//! Attribute values.
use vstd::prelude::*;

use crate::number::Number;
use crate::text::{attribute_escape, encode_unquoted_attribute, push_str};

verus! {

/// The value of a tag attribute: a scalar, as in JsonML.
#[derive(Debug, PartialEq)]
pub enum AttributeValue {
    String(String),
    Number(Number),
    Bool(bool),
    Null,
}

/// The mathematical value of an attribute value.
pub enum AttributeValueView {
    String(Seq<char>),
    Number(Seq<char>),
    Bool(bool),
    Null,
}

impl View for AttributeValue {
    type V = AttributeValueView;

    open spec fn view(&self) -> AttributeValueView {
        match self {
            AttributeValue::String(s) => AttributeValueView::String(s@),
            AttributeValue::Number(n) => AttributeValueView::Number(n@),
            AttributeValue::Bool(b) => AttributeValueView::Bool(*b),
            AttributeValue::Null => AttributeValueView::Null,
        }
    }
}

/// How an attribute value is shown in HTML: a string escaped for an unquoted
/// attribute, a number as its text, a boolean as `true` or `false`, and null as
/// `null`.
pub open spec fn value_html(v: AttributeValueView) -> Seq<char> {
    match v {
        AttributeValueView::String(s) => attribute_escape(s),
        AttributeValueView::Number(n) => n,
        AttributeValueView::Bool(b) => if b {
            seq!['t', 'r', 'u', 'e']
        } else {
            seq!['f', 'a', 'l', 's', 'e']
        },
        AttributeValueView::Null => seq!['n', 'u', 'l', 'l'],
    }
}

impl Clone for AttributeValue {
    fn clone(&self) -> (r: Self)
        ensures
            r@ == self@,
    {
        match self {
            AttributeValue::String(s) => AttributeValue::String(s.clone()),
            AttributeValue::Number(n) => AttributeValue::Number(n.clone()),
            AttributeValue::Bool(b) => AttributeValue::Bool(*b),
            AttributeValue::Null => AttributeValue::Null,
        }
    }
}

impl Default for AttributeValue {
    /// The default attribute value is null.
    fn default() -> (r: Self)
        ensures
            r@ == AttributeValueView::Null,
    {
        AttributeValue::Null
    }
}

impl AttributeValue {
    /// Appends the HTML form of this value to `out`.
    pub fn write_html(&self, out: &mut String)
        ensures
            final(out)@ == old(out)@ + value_html(self@),
    {
        match self {
            AttributeValue::String(s) => {
                let escaped = encode_unquoted_attribute(s.as_str());
                push_str(out, escaped.as_str());
            },
            AttributeValue::Number(n) => {
                push_str(out, n.as_str());
            },
            AttributeValue::Bool(b) => {
                if *b {
                    let t = "true";
                    proof {
                        reveal_strlit("true");
                    }
                    push_str(out, t);
                } else {
                    let f = "false";
                    proof {
                        reveal_strlit("false");
                    }
                    push_str(out, f);
                }
            },
            AttributeValue::Null => {
                let n = "null";
                proof {
                    reveal_strlit("null");
                }
                push_str(out, n);
            },
        }
    }

    /// The HTML form of this value.
    pub fn to_string(&self) -> (r: String)
        ensures
            r@ == value_html(self@),
    {
        let mut out = String::new();
        self.write_html(&mut out);
        assert(out@ =~= value_html(self@));
        out
    }
}

} // verus!

verus! {

/// A string value is shown as its escape, character by character, for every
/// string, the empty one included: the empty string shows as nothing, plain
/// text shows as itself, and two texts one after the other show as their
/// escapes one after the other.
pub proof fn lemma_string_value_html(s: Seq<char>, t: Seq<char>)
    ensures
        value_html(AttributeValueView::String(s)) == attribute_escape(s),
        value_html(AttributeValueView::String(s)).len() == 0 <==> s.len() == 0,
        value_html(AttributeValueView::String(s + t)) == value_html(AttributeValueView::String(s))
            + value_html(AttributeValueView::String(t)),
{
    crate::text::lemma_attribute_escape_length(s);
    crate::text::lemma_attribute_escape_append(s, t);
}

/// A string value made of ASCII letters, digits and characters beyond ASCII
/// is shown as it is.
pub proof fn lemma_plain_string_value_html(s: Seq<char>)
    requires
        forall|i: int|
            0 <= i < s.len() ==> {
                let c = #[trigger] s[i];
                ||| ('0' <= c && c <= '9')
                ||| ('A' <= c && c <= 'Z')
                ||| ('a' <= c && c <= 'z')
                ||| (c as int) >= 128
            },
    ensures
        value_html(AttributeValueView::String(s)) == s,
{
    crate::text::lemma_attribute_escape_keeps_plain_text(s);
}

} // verus!
