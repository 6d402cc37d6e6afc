//! Numbers of attribute values, held as the decimal text that `Display`
//! writes for an `f64`: an optional minus sign, digits, and an optional
//! fraction (`3.14`, `-0`, `16777217`), or `NaN`, `inf`, `-inf`. `Display`
//! never writes an exponent, and its text gives back the same `f64`.
use vstd::prelude::*;

use crate::text::chars_of;

verus! {

/// A decimal digit.
pub open spec fn is_digit(c: char) -> bool {
    48 <= (c as int) && (c as int) <= 57
}

/// One or more decimal digits.
pub open spec fn is_digits(s: Seq<char>) -> bool {
    s.len() > 0 && forall|i: int| 0 <= i < s.len() ==> is_digit(#[trigger] s[i])
}

/// Digits, or digits, a point and digits.
pub open spec fn is_unsigned_decimal(s: Seq<char>) -> bool {
    ||| is_digits(s)
    ||| exists|k: int|
        0 < k < s.len() && #[trigger] s[k] == '.' && is_digits(s.take(k)) && is_digits(
            s.skip(k + 1),
        )
}

/// Text that `Display` can write for an `f64`.
pub open spec fn is_number_text(s: Seq<char>) -> bool {
    ||| s == seq!['N', 'a', 'N']
    ||| s == seq!['i', 'n', 'f']
    ||| s == seq!['-', 'i', 'n', 'f']
    ||| is_unsigned_decimal(s)
    ||| (s.len() > 0 && s[0] == '-' && is_unsigned_decimal(s.drop_first()))
}

fn check_digits(s: &Vec<char>, from: usize, to: usize) -> (r: bool)
    requires
        from <= to <= s@.len(),
    ensures
        r == is_digits(s@.subrange(from as int, to as int)),
{
    if from == to {
        return false;
    }
    let mut i = from;
    while i < to
        invariant
            from <= i <= to <= s@.len(),
            forall|j: int| from <= j < i ==> is_digit(#[trigger] s@[j]),
        decreases to - i,
    {
        if !('0' <= s[i] && s[i] <= '9') {
            assert(s@.subrange(from as int, to as int)[i - from] == s@[i as int]);
            return false;
        }
        i = i + 1;
    }
    assert forall|j: int| 0 <= j < to - from implies is_digit(
        #[trigger] s@.subrange(from as int, to as int)[j],
    ) by {
        assert(s@.subrange(from as int, to as int)[j] == s@[from + j]);
    }
    true
}

fn check_unsigned_decimal(s: &Vec<char>, from: usize) -> (r: bool)
    requires
        from <= s@.len(),
    ensures
        r == is_unsigned_decimal(s@.skip(from as int)),
{
    let ghost t = s@.skip(from as int);
    let n = s.len();
    let mut k = from;
    while k < n && s[k] != '.'
        invariant
            from <= k <= n == s@.len(),
            forall|j: int| from <= j < k ==> s@[j] != '.',
        decreases n - k,
    {
        k = k + 1;
    }
    assert(s@.subrange(from as int, n as int) == t);
    if k == n {
        let r = check_digits(s, from, n);
        proof {
            assert forall|p: int| 0 < p < t.len() implies #[trigger] t[p] != '.' by {
                assert(t[p] == s@[from + p]);
            }
        }
        r
    } else {
        let head = check_digits(s, from, k);
        let tail = check_digits(s, k + 1, n);
        proof {
            let q = k - from;
            assert(t[q] == '.');
            assert(t.take(q) == s@.subrange(from as int, k as int));
            assert(t.skip(q + 1) == s@.subrange(k + 1, n as int));
            assert(!is_digits(t)) by {
                assert(!is_digit(t[q]));
            }
            if is_unsigned_decimal(t) {
                let p = choose|p: int|
                    0 < p < t.len() && #[trigger] t[p] == '.' && is_digits(t.take(p)) && is_digits(
                        t.skip(p + 1),
                    );
                if p < q {
                    assert(t[p] == s@[from + p]);
                } else if p > q {
                    assert(t.take(p)[q] == t[q]);
                }
                assert(p == q);
            }
            if head && tail {
                assert(is_unsigned_decimal(t));
            }
        }
        head && tail
    }
}

/// A number, held as the text that `Display` writes for its `f64` value.
#[derive(Debug, PartialEq)]
pub struct Number {
    text: String,
}

impl View for Number {
    type V = Seq<char>;

    closed spec fn view(&self) -> Seq<char> {
        self.text@
    }
}

impl Number {
    #[verifier::type_invariant]
    spec fn is_valid(self) -> bool {
        is_number_text(self.text@)
    }

    /// The number whose `Display` text is `text`, or `None` when `text` is not
    /// such a text.
    pub fn from_text(text: &str) -> (r: Option<Number>)
        ensures
            r is Some <==> is_number_text(text@),
            r matches Some(n) ==> n@ == text@,
    {
        let s = chars_of(text);
        let ok = if s.len() == 3 && s[0] == 'N' && s[1] == 'a' && s[2] == 'N' {
            assert(s@ =~= seq!['N', 'a', 'N']);
            true
        } else if s.len() == 3 && s[0] == 'i' && s[1] == 'n' && s[2] == 'f' {
            assert(s@ =~= seq!['i', 'n', 'f']);
            true
        } else if s.len() == 4 && s[0] == '-' && s[1] == 'i' && s[2] == 'n' && s[3] == 'f' {
            assert(s@ =~= seq!['-', 'i', 'n', 'f']);
            true
        } else if s.len() > 0 && s[0] == '-' {
            let r = check_unsigned_decimal(&s, 1);
            proof {
                assert(s@.skip(1) == s@.drop_first());
                if is_unsigned_decimal(s@) {
                    if is_digits(s@) {
                        assert(!is_digit(s@[0]));
                    } else {
                        let k = choose|k: int|
                            0 < k < s@.len() && #[trigger] s@[k] == '.' && is_digits(s@.take(k))
                                && is_digits(s@.skip(k + 1));
                        assert(s@.take(k)[0] == s@[0]);
                    }
                }
            }
            r
        } else {
            let r = check_unsigned_decimal(&s, 0);
            assert(s@.skip(0) == s@);
            r
        };
        if ok {
            Some(Number { text: text.to_owned() })
        } else {
            None
        }
    }

    /// The text of the number.
    pub fn as_str(&self) -> (r: &str)
        ensures
            r@ == self@,
            is_number_text(r@),
    {
        proof {
            use_type_invariant(self);
        }
        self.text.as_str()
    }
}

impl Clone for Number {
    fn clone(&self) -> (r: Self)
        ensures
            r@ == self@,
    {
        proof {
            use_type_invariant(self);
        }
        Number { text: self.text.clone() }
    }
}

} // verus!
