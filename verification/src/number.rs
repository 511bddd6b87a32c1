//! Number literals: the grammar of a decimal numeral and the type that holds one.
//!
//! A numeral is kept as its text. It begins with a digit or with `-`. After
//! the optional sign come a mantissa, with at most one point and at least one
//! digit, and an optional exponent. Every such text denotes a 64-bit floating
//! point number.

use vstd::prelude::*;
use crate::text::chars_of;

verus! {

/// One of `0` to `9`.
pub open spec fn is_digit(c: char) -> bool {
    '0' <= c && c <= '9'
}

/// The letter that begins an exponent, in either case.
pub open spec fn is_exponent_mark(c: char) -> bool {
    c == 'e' || c == 'E'
}

/// Every character of `s` is a digit.
pub open spec fn is_digits(s: Seq<char>) -> bool {
    forall|i: int| 0 <= i < s.len() ==> is_digit(#[trigger] s[i])
}

/// Digits around at most one point, with at least one digit: `12`, `12.`, `.5`, `1.5`.
pub open spec fn is_mantissa(s: Seq<char>) -> bool {
    &&& forall|i: int| 0 <= i < s.len() ==> is_digit(#[trigger] s[i]) || s[i] == '.'
    &&& forall|i: int, j: int|
        #![trigger s[i], s[j]]
        0 <= i < j < s.len() ==> !(s[i] == '.' && s[j] == '.')
    &&& exists|i: int| 0 <= i < s.len() && is_digit(#[trigger] s[i])
}

/// What may follow the exponent mark: one or more digits, after an optional `-`.
pub open spec fn is_exponent(s: Seq<char>) -> bool {
    ||| s.len() > 0 && is_digits(s)
    ||| s.len() > 1 && s[0] == '-' && is_digits(s.skip(1))
}

/// A mantissa, alone or followed by an exponent mark and an exponent.
pub open spec fn is_unsigned_numeral(s: Seq<char>) -> bool {
    ||| is_mantissa(s)
    ||| exists|k: int|
        0 <= k < s.len() && is_exponent_mark(#[trigger] s[k]) && is_mantissa(s.take(k))
            && is_exponent(s.skip(k + 1))
}

/// The grammar of a number literal: an unsigned numeral that begins with a
/// digit, or any unsigned numeral after a `-`.
pub open spec fn is_numeral(s: Seq<char>) -> bool {
    ||| s.len() > 0 && is_digit(s[0]) && is_unsigned_numeral(s)
    ||| s.len() > 0 && s[0] == '-' && is_unsigned_numeral(s.skip(1))
}

fn is_digit_char(c: char) -> (b: bool)
    ensures
        b == is_digit(c),
{
    '0' <= c && c <= '9'
}

fn check_digits(chars: &Vec<char>, lo: usize, hi: usize) -> (ok: bool)
    requires
        lo <= hi <= chars.len(),
    ensures
        ok == is_digits(chars@.subrange(lo as int, hi as int)),
{
    let ghost s = chars@.subrange(lo as int, hi as int);
    let mut i: usize = lo;
    while i < hi
        invariant
            lo <= i <= hi <= chars.len(),
            s == chars@.subrange(lo as int, hi as int),
            forall|k: int| 0 <= k < i - lo ==> is_digit(#[trigger] s[k]),
        decreases hi - i,
    {
        if !is_digit_char(chars[i]) {
            assert(!is_digit(s[i - lo]));
            return false;
        }
        i += 1;
    }
    true
}

fn check_mantissa(chars: &Vec<char>, lo: usize, hi: usize) -> (ok: bool)
    requires
        lo <= hi <= chars.len(),
    ensures
        ok == is_mantissa(chars@.subrange(lo as int, hi as int)),
{
    let ghost s = chars@.subrange(lo as int, hi as int);
    let mut digit_seen = false;
    let mut point_seen = false;
    let mut i: usize = lo;
    while i < hi
        invariant
            lo <= i <= hi <= chars.len(),
            s == chars@.subrange(lo as int, hi as int),
            forall|k: int| 0 <= k < i - lo ==> is_digit(#[trigger] s[k]) || s[k] == '.',
            forall|j: int, k: int|
                #![trigger s[j], s[k]]
                0 <= j < k < i - lo ==> !(s[j] == '.' && s[k] == '.'),
            digit_seen <==> exists|k: int| 0 <= k < i - lo && is_digit(#[trigger] s[k]),
            point_seen <==> exists|k: int| 0 <= k < i - lo && #[trigger] s[k] == '.',
        decreases hi - i,
    {
        let c = chars[i];
        assert(s[i - lo] == c);
        if is_digit_char(c) {
            digit_seen = true;
        } else if c == '.' {
            if point_seen {
                let ghost first = choose|k: int| 0 <= k < i - lo && #[trigger] s[k] == '.';
                assert(s[first] == '.' && s[i - lo] == '.');
                return false;
            }
            point_seen = true;
        } else {
            return false;
        }
        i += 1;
    }
    digit_seen
}

fn check_exponent(chars: &Vec<char>, lo: usize, hi: usize) -> (ok: bool)
    requires
        lo <= hi <= chars.len(),
    ensures
        ok == is_exponent(chars@.subrange(lo as int, hi as int)),
{
    let ghost s = chars@.subrange(lo as int, hi as int);
    if lo == hi {
        return false;
    }
    assert(s[0] == chars@[lo as int]);
    if chars[lo] == '-' {
        assert(s.skip(1) == chars@.subrange(lo + 1, hi as int));
        assert(!is_digit(s[0]));
        lo + 1 < hi && check_digits(chars, lo + 1, hi)
    } else {
        check_digits(chars, lo, hi)
    }
}

fn check_unsigned(chars: &Vec<char>, lo: usize, hi: usize) -> (ok: bool)
    requires
        lo <= hi <= chars.len(),
    ensures
        ok == is_unsigned_numeral(chars@.subrange(lo as int, hi as int)),
{
    let ghost s = chars@.subrange(lo as int, hi as int);
    let mut m: usize = lo;
    while m < hi && !(chars[m] == 'e' || chars[m] == 'E')
        invariant
            lo <= m <= hi <= chars.len(),
            s == chars@.subrange(lo as int, hi as int),
            forall|k: int| 0 <= k < m - lo ==> !is_exponent_mark(#[trigger] s[k]),
        decreases hi - m,
    {
        assert(s[m - lo] == chars@[m as int]);
        m += 1;
    }
    if m == hi {
        check_mantissa(chars, lo, hi)
    } else {
        assert(s[m - lo] == chars@[m as int]);
        assert(s.take(m - lo) == chars@.subrange(lo as int, m as int));
        assert(s.skip(m - lo + 1) == chars@.subrange(m + 1, hi as int));
        let ok = check_mantissa(chars, lo, m) && check_exponent(chars, m + 1, hi);
        proof {
            assert(!is_mantissa(s)) by {
                assert(!(is_digit(s[m - lo]) || s[m - lo] == '.'));
            }
            if is_unsigned_numeral(s) {
                let k = choose|k: int|
                    0 <= k < s.len() && is_exponent_mark(#[trigger] s[k]) && is_mantissa(
                        s.take(k),
                    ) && is_exponent(s.skip(k + 1));
                if m - lo < k {
                    assert(s.take(k)[m - lo] == s[m - lo]);
                }
                assert(k == m - lo);
            }
        }
        ok
    }
}

/// Whether `chars[lo..hi]` is a numeral.
pub fn is_numeral_range(chars: &Vec<char>, lo: usize, hi: usize) -> (ok: bool)
    requires
        lo <= hi <= chars.len(),
    ensures
        ok == is_numeral(chars@.subrange(lo as int, hi as int)),
{
    let ghost s = chars@.subrange(lo as int, hi as int);
    if lo == hi {
        return false;
    }
    assert(s[0] == chars@[lo as int]);
    if chars[lo] == '-' {
        assert(s.skip(1) == chars@.subrange(lo + 1, hi as int));
        check_unsigned(chars, lo + 1, hi)
    } else if is_digit_char(chars[lo]) {
        check_unsigned(chars, lo, hi)
    } else {
        false
    }
}

/// A number literal, held as the text that was written.
#[derive(Debug)]
pub struct Numeral {
    text: String,
}

impl View for Numeral {
    type V = Seq<char>;

    closed spec fn view(&self) -> Seq<char> {
        self.text@
    }
}

impl DeepView for Numeral {
    type V = Seq<char>;

    open spec fn deep_view(&self) -> Seq<char> {
        self@
    }
}

impl Numeral {
    #[verifier::type_invariant]
    spec fn well_formed(self) -> bool {
        is_numeral(self.text@)
    }

    /// Takes `text`, which is a numeral, as one.
    pub(crate) fn new(text: String) -> (n: Numeral)
        requires
            is_numeral(text@),
        ensures
            n@ == text@,
    {
        Numeral { text }
    }

    /// Reads `text` as a numeral, if it is one.
    pub fn parse(text: &str) -> (n: Option<Numeral>)
        ensures
            n is Some <==> is_numeral(text@),
            n matches Some(numeral) ==> numeral@ == text@,
    {
        let chars = chars_of(text);
        assert(chars@.subrange(0, chars@.len() as int) == chars@);
        if is_numeral_range(&chars, 0, chars.len()) {
            Some(Numeral { text: text.to_owned() })
        } else {
            None
        }
    }

    /// The text of the numeral.
    pub fn as_str(&self) -> (text: &str)
        ensures
            text@ == self@,
            is_numeral(text@),
    {
        proof {
            use_type_invariant(self);
        }
        self.text.as_str()
    }
}

impl Clone for Numeral {
    fn clone(&self) -> (n: Numeral)
        ensures
            n == *self,
    {
        proof {
            use_type_invariant(self);
        }
        Numeral { text: self.text.clone() }
    }
}

impl PartialEq for Numeral {
    fn eq(&self, other: &Numeral) -> (equal: bool) {
        self.text == other.text
    }
}

impl vstd::std_specs::cmp::PartialEqSpecImpl for Numeral {
    open spec fn obeys_eq_spec() -> bool {
        true
    }

    open spec fn eq_spec(&self, other: &Numeral) -> bool {
        self@ == other@
    }
}

} // verus!
