//! JsonML elements: a tree of tags and text, its HTML rendering, the JsonML
//! array form it is written as and read from, and its pre-order and
//! post-order traversals.

pub mod attributes;
pub mod element;
pub mod form;
pub mod number;
pub mod text;
pub mod traverse;
pub mod value;

pub use attributes::{Attributes, AttributesView};
pub use element::{Element, ElementView};
pub use form::{AttributesOrElement, JsonmlError, JsonmlForm, JsonmlFormView};
pub use number::Number;
pub use text::write_json_string;
pub use traverse::{ElementPostIter, ElementPreIter, PostOrderElement, PreOrderElement};
pub use value::{AttributeValue, AttributeValueView};
