//! Characters: their classes, their case mappings, and the step between strings and
//! character vectors.
//!
//! The classes and the mappings are those of the standard library. For ASCII they are
//! written out below; beyond ASCII they are the Unicode tables, which stay named.

use vstd::prelude::*;

verus! {

/// True of the 128 ASCII characters.
pub open spec fn is_ascii_char(c: char) -> bool {
    (c as u32) < 128
}

pub open spec fn ascii_upper_letter(c: char) -> bool {
    'A' <= c && c <= 'Z'
}

pub open spec fn ascii_lower_letter(c: char) -> bool {
    'a' <= c && c <= 'z'
}

pub open spec fn ascii_letter(c: char) -> bool {
    ascii_upper_letter(c) || ascii_lower_letter(c)
}

pub open spec fn ascii_digit(c: char) -> bool {
    '0' <= c && c <= '9'
}

/// Tab, line feed, vertical tab, form feed, carriage return and space.
pub open spec fn ascii_space(c: char) -> bool {
    c == ' ' || ('\t' <= c && c <= '\r')
}

/// The ASCII lowercase mapping: letters move, everything else stays.
pub open spec fn ascii_lowered(c: char) -> char {
    if ascii_upper_letter(c) {
        ((c as u32 + 32) as u32) as char
    } else {
        c
    }
}

/// The ASCII uppercase mapping: letters move, everything else stays.
pub open spec fn ascii_raised(c: char) -> char {
    if ascii_lower_letter(c) {
        ((c as u32 - 32) as u32) as char
    } else {
        c
    }
}

/// Unicode's Alphabetic property of a character beyond ASCII.
pub uninterp spec fn unicode_alphabetic(c: char) -> bool;

/// Whether a character beyond ASCII is alphabetic or numeric.
pub uninterp spec fn unicode_alphanumeric(c: char) -> bool;

/// Unicode's White_Space property of a character beyond ASCII.
pub uninterp spec fn unicode_space(c: char) -> bool;

/// `char::is_alphabetic`: the ASCII letters, and beyond ASCII the Alphabetic property.
pub assume_specification[ char::is_alphabetic ](c: char) -> (b: bool)
    ensures
        is_ascii_char(c) ==> b == ascii_letter(c),
        !is_ascii_char(c) ==> b == unicode_alphabetic(c),
;

/// `char::is_alphanumeric`: the ASCII letters and digits, and beyond ASCII the named class.
pub assume_specification[ char::is_alphanumeric ](c: char) -> (b: bool)
    ensures
        is_ascii_char(c) ==> b == (ascii_letter(c) || ascii_digit(c)),
        !is_ascii_char(c) ==> b == unicode_alphanumeric(c),
;

/// `char::is_whitespace`: the six ASCII spaces, and beyond ASCII the White_Space property.
pub assume_specification[ char::is_whitespace ](c: char) -> (b: bool)
    ensures
        is_ascii_char(c) ==> b == ascii_space(c),
        !is_ascii_char(c) ==> b == unicode_space(c),
;

/// A letter.
pub open spec fn is_letter(c: char) -> bool {
    if is_ascii_char(c) {
        ascii_letter(c)
    } else {
        unicode_alphabetic(c)
    }
}

/// A letter or a digit.
pub open spec fn is_word_char(c: char) -> bool {
    if is_ascii_char(c) {
        ascii_letter(c) || ascii_digit(c)
    } else {
        unicode_alphanumeric(c)
    }
}

/// White space.
pub open spec fn is_space(c: char) -> bool {
    if is_ascii_char(c) {
        ascii_space(c)
    } else {
        unicode_space(c)
    }
}

/// `String::push`: the character goes to the end.
pub assume_specification[ String::push ](s: &mut String, c: char)
    ensures
        final(s)@ == old(s)@.push(c),
;

/// What the lowercase mapping makes of one character beyond ASCII.
pub uninterp spec fn unicode_lowercase(c: char) -> Seq<char>;

/// What the uppercase mapping makes of one character beyond ASCII.
pub uninterp spec fn unicode_uppercase(c: char) -> Seq<char>;

/// What the lowercase mapping makes of a text that is not all ASCII.
pub uninterp spec fn unicode_lowercase_text(s: Seq<char>) -> Seq<char>;

/// Every character is ASCII.
pub open spec fn is_ascii_text(s: Seq<char>) -> bool {
    forall|i: int| 0 <= i < s.len() ==> is_ascii_char(#[trigger] s[i])
}

/// The lowercase mapping of one character, which may be several characters.
pub open spec fn lowered_char(c: char) -> Seq<char> {
    if is_ascii_char(c) {
        seq![ascii_lowered(c)]
    } else {
        unicode_lowercase(c)
    }
}

/// The uppercase mapping of one character, which may be several characters.
pub open spec fn raised_char(c: char) -> Seq<char> {
    if is_ascii_char(c) {
        seq![ascii_raised(c)]
    } else {
        unicode_uppercase(c)
    }
}

/// The lowercase mapping of a whole text.
pub open spec fn lowered_text(s: Seq<char>) -> Seq<char> {
    if is_ascii_text(s) {
        s.map_values(|c: char| ascii_lowered(c))
    } else {
        unicode_lowercase_text(s)
    }
}

/// `char::to_lowercase`, collected: one or more characters, for ASCII exactly one.
#[verifier::external_body]
pub(crate) fn lowercase_of(c: char) -> (v: Vec<char>)
    ensures
        is_ascii_char(c) ==> v@ == seq![ascii_lowered(c)],
        !is_ascii_char(c) ==> v@ == unicode_lowercase(c),
        v@.len() >= 1,
{
    c.to_lowercase().collect()
}

/// `char::to_uppercase`, collected: one or more characters, for ASCII exactly one.
#[verifier::external_body]
pub(crate) fn uppercase_of(c: char) -> (v: Vec<char>)
    ensures
        is_ascii_char(c) ==> v@ == seq![ascii_raised(c)],
        !is_ascii_char(c) ==> v@ == unicode_uppercase(c),
        v@.len() >= 1,
{
    c.to_uppercase().collect()
}

/// `str::to_lowercase`: an ASCII text is lowered letter by letter, any other as Unicode says.
pub assume_specification[ str::to_lowercase ](s: &str) -> (res: String)
    ensures
        is_ascii_text(s@) ==> res@ == s@.map_values(|c: char| ascii_lowered(c)),
        !is_ascii_text(s@) ==> res@ == unicode_lowercase_text(s@),
;

/// The characters of `s`, in order.
pub fn chars_of(s: &str) -> (v: Vec<char>)
    ensures
        v@ == s@,
{
    let mut v: Vec<char> = Vec::new();
    for c in it: s.chars()
        invariant
            v@ == it.seq().take(it.index() as int),
            it.seq() == s@,
    {
        v.push(c);
    }
    v
}

/// The string that holds exactly `chars`.
pub fn string_of(chars: &[char]) -> (s: String)
    ensures
        s@ == chars@,
{
    let mut s: String = String::new();
    let mut i: usize = 0;
    while i < chars.len()
        invariant
            i <= chars@.len(),
            s@ == chars@.take(i as int),
        decreases chars@.len() - i,
    {
        s.push(chars[i]);
        i += 1;
    }
    s
}

/// Whether two texts are the same.
pub fn same(a: &[char], b: &[char]) -> (r: bool)
    ensures
        r == (a@ == b@),
{
    if a.len() != b.len() {
        return false;
    }
    let mut i: usize = 0;
    while i < a.len()
        invariant
            i <= a@.len(),
            a@.len() == b@.len(),
            a@.take(i as int) == b@.take(i as int),
        decreases a@.len() - i,
    {
        if a[i] != b[i] {
            assert(a@[i as int] != b@[i as int]);
            return false;
        }
        assert(a@.take(i + 1) == a@.take(i as int).push(a@[i as int]));
        assert(b@.take(i + 1) == b@.take(i as int).push(b@[i as int]));
        i += 1;
    }
    assert(a@.take(i as int) == a@);
    assert(b@.take(i as int) == b@);
    true
}

/// Whether two strings are the same.
pub fn same_str(a: &str, b: &str) -> (r: bool)
    ensures
        r == (a@ == b@),
{
    let x: Vec<char> = chars_of(a);
    let y: Vec<char> = chars_of(b);
    same(x.as_slice(), y.as_slice())
}

} // verus!
