# jsonml

[JsonML](http://www.jsonml.org/) elements with verified behaviour.

* `src/` is the library, verified with Verus:
  * `element.rs`: `Element` (a tag or text), its model `ElementView`, and its
    HTML rendering (`to_string`, `try_to_string`), with the name checks that
    HTML requires.
  * `attributes.rs`: `Attributes`, a map from names to values kept sorted by
    name, with the map laws (`lemma_get_insert`, `lemma_insert_commutes`).
  * `value.rs`, `number.rs`: scalar attribute values; a number is held as the
    `Display` text of an `f64`.
  * `form.rs`: the JsonML array form an element is written as, how an array
    is read back as a tag, and the round-trip law `lemma_jsonml_round_trip`.
  * `traverse.rs`: pre-order and post-order iterators and their laws.
  * `text.rs`: character-level helpers: key order, JSON string quoting, HTML
    attribute escaping (through `html_escape`).
* `app/` holds the serde and `std::fmt` side: element and attribute value
  types with `HashMap` attributes and `f64` numbers that (de)serialize with
  serde and display as HTML, converting to and from the library's types.
* `tests/` exercises the library.
