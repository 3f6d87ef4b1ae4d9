//! Character and string helpers: the few facts about `std`'s character
//! classes the lexer relies on, and small verified string builders.

use vstd::prelude::*;
use vstd::string::StrSliceExecFns;

verus! {

/// Whether `std` classifies `c` as whitespace; see `char::is_whitespace`.
pub uninterp spec fn is_whitespace_char(c: char) -> bool;

/// Whether `std` classifies `c` as alphanumeric; see `char::is_alphanumeric`.
pub uninterp spec fn is_alphanumeric_char(c: char) -> bool;

/// Relies on `char::is_whitespace`: whether `c` has the Unicode `White_Space`
/// property, a function of the character alone.
pub assume_specification[ char::is_whitespace ](c: char) -> (r: bool)
    ensures
        r == is_whitespace_char(c),
;

/// Relies on `char::is_alphanumeric`: whether `c` is a Unicode letter or
/// number, a function of the character alone.
pub assume_specification[ char::is_alphanumeric ](c: char) -> (r: bool)
    ensures
        r == is_alphanumeric_char(c),
;

/// Relies on `String::push`: appends the given character to the end of the
/// string.
pub assume_specification[ std::string::String::push ](s: &mut String, c: char)
    ensures
        final(s)@ == old(s)@.push(c),
;

/// The characters of `s`, in order, as an indexable vector.
pub fn chars_of(s: &str) -> (r: Vec<char>)
    ensures
        r@ == s@,
{
    let n = s.unicode_len();
    let mut r: Vec<char> = Vec::new();
    let mut i: usize = 0;
    while i < n
        invariant
            i <= n,
            n == s@.len(),
            r@ == s@.subrange(0, i as int),
        decreases n - i,
    {
        let c = s.get_char(i);
        r.push(c);
        proof {
            assert(s@.subrange(0, i as int).push(s@[i as int]) =~= s@.subrange(0, i + 1));
        }
        i = i + 1;
    }
    proof {
        assert(s@.subrange(0, n as int) =~= s@);
    }
    r
}

/// The characters `chars[from..to]`, collected into an owned string.
pub fn string_from_range(chars: &Vec<char>, from: usize, to: usize) -> (r: String)
    requires
        from <= to <= chars@.len(),
    ensures
        r@ == chars@.subrange(from as int, to as int),
{
    let mut r = String::new();
    let mut i: usize = from;
    while i < to
        invariant
            from <= i <= to <= chars@.len(),
            r@ == chars@.subrange(from as int, i as int),
        decreases to - i,
    {
        let c = chars[i];
        r.push(c);
        proof {
            assert(chars@.subrange(from as int, i as int).push(chars@[i as int]) =~= chars@
                .subrange(from as int, i + 1));
        }
        i = i + 1;
    }
    r
}

/// Whether the string `s` holds exactly the text of `lit`.
pub fn text_eq(s: &String, lit: &str) -> (r: bool)
    ensures
        r == (s@ == lit@),
{
    let other: String = lit.to_owned();
    *s == other
}

} // verus!
