//! Character-level pieces: appending to strings, key order, name checks,
//! JSON string quoting and HTML attribute escaping.
use vstd::prelude::*;
use vstd::string::*;

verus! {

/// Appends one character to a string.
///
/// Trusted: `String::push` appends `c` at the end of `s`, as its documentation says.
#[verifier::external_body]
pub(crate) fn push_char(s: &mut String, c: char)
    ensures
        final(s)@ == old(s)@.push(c),
{
    s.push(c);
}

/// Appends every character of `t` to `s`.
pub(crate) fn push_str(s: &mut String, t: &str)
    ensures
        final(s)@ == old(s)@ + t@,
{
    s.append(t);
}

/// The characters of a string, in order.
pub fn chars_of(s: &str) -> (v: Vec<char>)
    ensures
        v@ == s@,
{
    let mut v: Vec<char> = Vec::new();
    for c in it: s.chars()
        invariant
            v@ == it.seq().take(it.index()),
    {
        v.push(c);
    }
    v
}

// ---------------------------------------------------------------------------
// Order on keys

/// Lexicographic order on character sequences, characters compared by code point.
pub open spec fn seq_lt(a: Seq<char>, b: Seq<char>) -> bool
    decreases a.len(),
{
    if b.len() == 0 {
        false
    } else if a.len() == 0 {
        true
    } else if a[0] != b[0] {
        (a[0] as int) < (b[0] as int)
    } else {
        seq_lt(a.drop_first(), b.drop_first())
    }
}

pub proof fn lemma_seq_lt_irreflexive(a: Seq<char>)
    ensures
        !seq_lt(a, a),
    decreases a.len(),
{
    if a.len() > 0 {
        lemma_seq_lt_irreflexive(a.drop_first());
    }
}

pub proof fn lemma_seq_lt_transitive(a: Seq<char>, b: Seq<char>, c: Seq<char>)
    requires
        seq_lt(a, b),
        seq_lt(b, c),
    ensures
        seq_lt(a, c),
    decreases a.len(),
{
    if a.len() > 0 && b.len() > 0 && c.len() > 0 && a[0] == b[0] && b[0] == c[0] {
        lemma_seq_lt_transitive(a.drop_first(), b.drop_first(), c.drop_first());
    }
}

/// Any two distinct sequences are ordered one way or the other.
pub proof fn lemma_seq_lt_total(a: Seq<char>, b: Seq<char>)
    requires
        a != b,
    ensures
        seq_lt(a, b) || seq_lt(b, a),
    decreases a.len(),
{
    if a.len() == 0 {
        if b.len() == 0 {
            assert(a =~= b);
        }
    } else if b.len() == 0 {
    } else if a[0] == b[0] {
        if a.drop_first() == b.drop_first() {
            assert(a == seq![a[0]] + a.drop_first());
            assert(b == seq![b[0]] + b.drop_first());
        }
        lemma_seq_lt_total(a.drop_first(), b.drop_first());
    } else {
        assert((a[0] as int) != (b[0] as int));
    }
}

pub proof fn lemma_seq_lt_asymmetric(a: Seq<char>, b: Seq<char>)
    requires
        seq_lt(a, b),
    ensures
        !seq_lt(b, a),
{
    if seq_lt(b, a) {
        lemma_seq_lt_transitive(a, b, a);
        lemma_seq_lt_irreflexive(a);
    }
}

/// Whether `a` comes before `b` in the order `seq_lt`.
pub(crate) fn key_less(a: &str, b: &str) -> (r: bool)
    ensures
        r == seq_lt(a@, b@),
{
    let x = chars_of(a);
    let y = chars_of(b);
    let mut i: usize = 0;
    assert(x@.skip(0) == x@);
    assert(y@.skip(0) == y@);
    while i < x.len() && i < y.len()
        invariant
            x@ == a@,
            y@ == b@,
            i <= x@.len(),
            i <= y@.len(),
            seq_lt(x@, y@) == seq_lt(x@.skip(i as int), y@.skip(i as int)),
        decreases x@.len() - i,
    {
        if x[i] != y[i] {
            assert(x@.skip(i as int)[0] == x@[i as int]);
            assert(y@.skip(i as int)[0] == y@[i as int]);
            return x[i] < y[i];
        }
        assert(x@.skip(i as int).drop_first() == x@.skip(i + 1));
        assert(y@.skip(i as int).drop_first() == y@.skip(i + 1));
        i = i + 1;
    }
    i < y.len()
}

// ---------------------------------------------------------------------------
// Name checks

/// An ASCII letter or digit.
pub open spec fn is_ascii_alphanumeric(c: char) -> bool {
    ||| (48 <= (c as int) && (c as int) <= 57)
    ||| (65 <= (c as int) && (c as int) <= 90)
    ||| (97 <= (c as int) && (c as int) <= 122)
}

/// A character that HTML allows in an attribute name: not a space, `"`, `'`,
/// `>`, `/` or `=`, and not a noncharacter (U+FDD0 to U+FDEF, or a code point
/// whose last 16 bits are FFFE or FFFF).
pub open spec fn is_attribute_name_char(c: char) -> bool {
    &&& c != ' '
    &&& c != '"'
    &&& c != '\''
    &&& c != '>'
    &&& c != '/'
    &&& c != '='
    &&& !(0xFDD0 <= (c as int) && (c as int) <= 0xFDEF)
    &&& (c as int) % 0x10000 < 0xFFFE
}

/// A tag name that HTML accepts: ASCII alphanumerics only.
pub open spec fn is_tag_name(s: Seq<char>) -> bool {
    forall|i: int| 0 <= i < s.len() ==> is_ascii_alphanumeric(#[trigger] s[i])
}

/// An attribute name that HTML accepts.
pub open spec fn is_attribute_name(s: Seq<char>) -> bool {
    forall|i: int| 0 <= i < s.len() ==> is_attribute_name_char(#[trigger] s[i])
}

pub(crate) fn check_ascii_alphanumeric(c: char) -> (r: bool)
    ensures
        r == is_ascii_alphanumeric(c),
{
    let u: u32 = c as u32;
    (48 <= u && u <= 57) || (65 <= u && u <= 90) || (97 <= u && u <= 122)
}

pub(crate) fn check_attribute_name_char(c: char) -> (r: bool)
    ensures
        r == is_attribute_name_char(c),
{
    let u: u32 = c as u32;
    c != ' ' && c != '"' && c != '\'' && c != '>' && c != '/' && c != '=' && !(0xFDD0 <= u && u
        <= 0xFDEF) && u % 0x10000 < 0xFFFE
}

/// Whether every character of `s` is an ASCII letter or digit.
pub fn check_tag_name(s: &str) -> (r: bool)
    ensures
        r == is_tag_name(s@),
{
    for c in it: s.chars()
        invariant
            it.seq() == s@,
            forall|j: int| 0 <= j < it.index() ==> is_ascii_alphanumeric(#[trigger] s@[j]),
    {
        if !check_ascii_alphanumeric(c) {
            return false;
        }
    }
    true
}

/// Whether every character of `s` may stand in an HTML attribute name.
pub fn check_attribute_name(s: &str) -> (r: bool)
    ensures
        r == is_attribute_name(s@),
{
    for c in it: s.chars()
        invariant
            it.seq() == s@,
            forall|j: int| 0 <= j < it.index() ==> is_attribute_name_char(#[trigger] s@[j]),
    {
        if !check_attribute_name_char(c) {
            return false;
        }
    }
    true
}

// ---------------------------------------------------------------------------
// JSON string literals

/// The lowercase hexadecimal digit for `d` (0 to 15).
pub open spec fn hex_lower(d: int) -> char {
    if d < 10 {
        (d + 48) as char
    } else {
        (d + 87) as char
    }
}

/// The uppercase hexadecimal digit for `d` (0 to 15).
pub open spec fn hex_upper(d: int) -> char {
    if d < 10 {
        (d + 48) as char
    } else {
        (d + 55) as char
    }
}

/// How one character is written inside a JSON string literal: `"`, `\`,
/// newline, carriage return and tab get their two-character escapes, other
/// control characters below U+0020 are written `\u00xx` in lowercase hex, and
/// every other character stands for itself.
pub open spec fn json_escape_char(c: char) -> Seq<char> {
    if c == '"' {
        seq!['\\', '"']
    } else if c == '\\' {
        seq!['\\', '\\']
    } else if c == '\n' {
        seq!['\\', 'n']
    } else if c == '\r' {
        seq!['\\', 'r']
    } else if c == '\t' {
        seq!['\\', 't']
    } else if (c as int) < 0x20 {
        seq!['\\', 'u', '0', '0', hex_lower((c as int) / 16), hex_lower((c as int) % 16)]
    } else {
        seq![c]
    }
}

/// The escaped characters of a JSON string literal's body.
pub open spec fn json_escape(s: Seq<char>) -> Seq<char>
    decreases s.len(),
{
    if s.len() == 0 {
        Seq::empty()
    } else {
        json_escape(s.drop_last()) + json_escape_char(s.last())
    }
}

/// `s` written as a JSON string literal, quotes included.
pub open spec fn json_quote(s: Seq<char>) -> Seq<char> {
    seq!['"'] + json_escape(s) + seq!['"']
}

fn hex_digit_lower(d: u32) -> (c: char)
    requires
        d < 16,
    ensures
        c == hex_lower(d as int),
{
    if d < 10 {
        ((d + 48) as u8) as char
    } else {
        ((d + 87) as u8) as char
    }
}

fn push_json_escaped_char(out: &mut String, c: char)
    ensures
        final(out)@ == old(out)@ + json_escape_char(c),
{
    let ghost start = out@;
    if c == '"' {
        push_char(out, '\\');
        push_char(out, '"');
    } else if c == '\\' {
        push_char(out, '\\');
        push_char(out, '\\');
    } else if c == '\n' {
        push_char(out, '\\');
        push_char(out, 'n');
    } else if c == '\r' {
        push_char(out, '\\');
        push_char(out, 'r');
    } else if c == '\t' {
        push_char(out, '\\');
        push_char(out, 't');
    } else if (c as u32) < 0x20 {
        let u: u32 = c as u32;
        push_char(out, '\\');
        push_char(out, 'u');
        push_char(out, '0');
        push_char(out, '0');
        push_char(out, hex_digit_lower(u / 16));
        push_char(out, hex_digit_lower(u % 16));
    } else {
        push_char(out, c);
    }
    assert(out@ =~= start + json_escape_char(c));
}

/// Appends `value` to `out` as a JSON string literal: in double quotes, with
/// `"`, `\` and control characters escaped.
pub fn write_json_string(value: &str, out: &mut String)
    ensures
        final(out)@ == old(out)@ + json_quote(value@),
{
    let ghost start = out@;
    push_char(out, '"');
    for c in it: value.chars()
        invariant
            it.seq() == value@,
            out@ == start + seq!['"'] + json_escape(value@.take(it.index())),
    {
        let ghost i = it.index();
        push_json_escaped_char(out, c);
        assert(value@.take(i + 1).drop_last() == value@.take(i));
    }
    assert(value@.take(value@.len() as int) == value@);
    push_char(out, '"');
    assert(out@ =~= start + json_quote(value@));
}

// ---------------------------------------------------------------------------
// HTML attribute values

/// How `html_escape::encode_unquoted_attribute` writes one character:
/// ASCII characters other than letters and digits become an entity (`&amp;`,
/// `&lt;`, `&gt;`, `&quot;`, or `&#xHH;` in uppercase hex), every other
/// character stands for itself.
pub open spec fn attribute_escape_char(c: char) -> Seq<char> {
    if (c as int) < 128 && !is_ascii_alphanumeric(c) {
        if c == '&' {
            seq!['&', 'a', 'm', 'p', ';']
        } else if c == '<' {
            seq!['&', 'l', 't', ';']
        } else if c == '>' {
            seq!['&', 'g', 't', ';']
        } else if c == '"' {
            seq!['&', 'q', 'u', 'o', 't', ';']
        } else {
            seq!['&', '#', 'x', hex_upper((c as int) / 16), hex_upper((c as int) % 16), ';']
        }
    } else {
        seq![c]
    }
}

/// `s` escaped for an unquoted HTML attribute value, character by character.
pub open spec fn attribute_escape(s: Seq<char>) -> Seq<char>
    decreases s.len(),
{
    if s.len() == 0 {
        Seq::empty()
    } else {
        attribute_escape(s.drop_last()) + attribute_escape_char(s.last())
    }
}

/// Escapes `text` for an unquoted HTML attribute value.
///
/// Trusted: `html_escape::encode_unquoted_attribute` escapes every ASCII byte
/// that is not a letter or digit (`&`, `<`, `>` and `"` to named entities, the
/// others to `&#xHH;` with uppercase hex) and copies all other bytes, so that
/// the result is `attribute_escape` of the input's characters.
#[verifier::external_body]
pub(crate) fn encode_unquoted_attribute(text: &str) -> (r: String)
    ensures
        r@ == attribute_escape(text@),
{
    html_escape::encode_unquoted_attribute(text).into_owned()
}

} // verus!

verus! {

/// A tag name is accepted exactly when each of its characters is a digit
/// `0`-`9`, an uppercase letter `A`-`Z` or a lowercase letter `a`-`z`.
pub proof fn lemma_tag_name_characters(s: Seq<char>)
    ensures
        is_tag_name(s) <==> forall|i: int|
            0 <= i < s.len() ==> {
                let c = #[trigger] s[i];
                ||| ('0' <= c && c <= '9')
                ||| ('A' <= c && c <= 'Z')
                ||| ('a' <= c && c <= 'z')
            },
{
}

} // verus!

verus! {

/// The characters refused in an attribute name, listed one by one: space,
/// `"`, `'`, `>`, `/`, `=`, U+FDD0 to U+FDEF, and the noncharacters U+FFFE,
/// U+FFFF, U+1FFFE, U+1FFFF, ..., U+10FFFE, U+10FFFF.
pub open spec fn is_refused_in_attribute_name(c: char) -> bool {
    c == ' ' || c == '"' || c == '\'' || c == '>' || c == '/' || c == '='
        || ('\u{FDD0}' <= c && c <= '\u{FDEF}')
        || c == '\u{FFFE}'
        || c == '\u{FFFF}'
        || c == '\u{1FFFE}'
        || c == '\u{1FFFF}'
        || c == '\u{2FFFE}'
        || c == '\u{2FFFF}'
        || c == '\u{3FFFE}'
        || c == '\u{3FFFF}'
        || c == '\u{4FFFE}'
        || c == '\u{4FFFF}'
        || c == '\u{5FFFE}'
        || c == '\u{5FFFF}'
        || c == '\u{6FFFE}'
        || c == '\u{6FFFF}'
        || c == '\u{7FFFE}'
        || c == '\u{7FFFF}'
        || c == '\u{8FFFE}'
        || c == '\u{8FFFF}'
        || c == '\u{9FFFE}'
        || c == '\u{9FFFF}'
        || c == '\u{AFFFE}'
        || c == '\u{AFFFF}'
        || c == '\u{BFFFE}'
        || c == '\u{BFFFF}'
        || c == '\u{CFFFE}'
        || c == '\u{CFFFF}'
        || c == '\u{DFFFE}'
        || c == '\u{DFFFF}'
        || c == '\u{EFFFE}'
        || c == '\u{EFFFF}'
        || c == '\u{FFFFE}'
        || c == '\u{FFFFF}'
        || c == '\u{10FFFE}'
        || c == '\u{10FFFF}'
}

/// A character is accepted in an attribute name exactly when it is not one of
/// the refused characters; every other character (such as `:`, `-`, `_` or a
/// letter) is accepted.
pub proof fn lemma_attribute_name_character(c: char)
    ensures
        is_attribute_name_char(c) <==> !is_refused_in_attribute_name(c),
{
    let u = c as int;
    assert(0 <= u <= 0x10FFFF);
    let k = u / 0x10000;
    let r = u % 0x10000;
    assert(u == k * 0x10000 + r);
    assert(0 <= k <= 16);
}

/// An attribute name is accepted exactly when none of its characters is a
/// refused one.
pub proof fn lemma_attribute_name_characters(s: Seq<char>)
    ensures
        is_attribute_name(s) <==> forall|i: int|
            0 <= i < s.len() ==> !is_refused_in_attribute_name(#[trigger] s[i]),
{
    assert forall|i: int| 0 <= i < s.len() implies (is_attribute_name_char(#[trigger] s[i])
        <==> !is_refused_in_attribute_name(s[i])) by {
        lemma_attribute_name_character(s[i]);
    }
}

} // verus!

verus! {

/// Escaping works character by character: the escape of two texts one after
/// the other is the escape of the first followed by the escape of the second.
pub proof fn lemma_attribute_escape_append(a: Seq<char>, b: Seq<char>)
    ensures
        attribute_escape(a + b) == attribute_escape(a) + attribute_escape(b),
    decreases b.len(),
{
    if b.len() == 0 {
        assert(a + b =~= a);
        assert(attribute_escape(b) =~= Seq::<char>::empty());
        assert(attribute_escape(a) + attribute_escape(b) =~= attribute_escape(a));
    } else {
        lemma_attribute_escape_append(a, b.drop_last());
        assert((a + b).drop_last() =~= a + b.drop_last());
        assert((a + b).last() == b.last());
        assert(attribute_escape(a + b) =~= attribute_escape(a) + attribute_escape(b));
    }
}

/// Every character gives at least one character, so the escape is never
/// shorter than the text, and it is empty exactly when the text is.
pub proof fn lemma_attribute_escape_length(s: Seq<char>)
    ensures
        attribute_escape(s).len() >= s.len(),
        attribute_escape(s).len() == 0 <==> s.len() == 0,
    decreases s.len(),
{
    if s.len() > 0 {
        lemma_attribute_escape_length(s.drop_last());
        assert(attribute_escape_char(s.last()).len() >= 1);
    }
}

/// Text made of ASCII letters, digits and characters beyond ASCII is left as
/// it is.
pub proof fn lemma_attribute_escape_keeps_plain_text(s: Seq<char>)
    requires
        forall|i: int|
            0 <= i < s.len() ==> {
                let c = #[trigger] s[i];
                ||| ('0' <= c && c <= '9')
                ||| ('A' <= c && c <= 'Z')
                ||| ('a' <= c && c <= 'z')
                ||| (c as int) >= 128
            },
    ensures
        attribute_escape(s) == s,
    decreases s.len(),
{
    if s.len() > 0 {
        let t = s.drop_last();
        assert forall|i: int| 0 <= i < t.len() implies {
            let c = #[trigger] t[i];
            ||| ('0' <= c && c <= '9')
            ||| ('A' <= c && c <= 'Z')
            ||| ('a' <= c && c <= 'z')
            ||| (c as int) >= 128
        } by {
            assert(t[i] == s[i]);
        }
        lemma_attribute_escape_keeps_plain_text(t);
        let c = s[s.len() - 1];
        assert(attribute_escape_char(c) == seq![c]);
        assert(s =~= t.push(c));
    }
}

} // verus!
