//! Character-level helpers shared by the template resolver and the selectors.

use vstd::prelude::*;
use vstd::utf8::{decode_utf8, valid_utf8};

verus! {

/// Whether a character is a Unicode word character, as the `\w` class of
/// regular expressions has it.
pub uninterp spec fn unicode_word(c: char) -> bool;

/// ASCII letters (either case).
pub open spec fn is_ascii_letter(c: char) -> bool {
    ('a' as u32 <= c as u32 <= 'z' as u32) || ('A' as u32 <= c as u32 <= 'Z' as u32)
}

/// ASCII decimal digits.
pub open spec fn is_ascii_digit(c: char) -> bool {
    '0' as u32 <= c as u32 <= '9' as u32
}

/// Word characters of a placeholder name, the `\w` class: within ASCII the
/// letters, digits and underscore; beyond it the Unicode word characters
/// (letters, marks, decimal numbers, connector punctuation).
pub open spec fn is_word_char(c: char) -> bool {
    if (c as u32) < 128 {
        is_ascii_letter(c) || is_ascii_digit(c) || c == '_'
    } else {
        unicode_word(c)
    }
}

/// Relies on `regex_syntax::is_word_character`: membership in the Unicode
/// `\w` table that `regex` uses. It panics only without the crate's
/// `unicode-perl` feature, which its default features turn on.
#[verifier::external_body]
fn unicode_word_character(c: char) -> (r: bool)
    ensures
        r == unicode_word(c),
{
    regex_syntax::is_word_character(c)
}

pub fn ascii_letter(c: char) -> (r: bool)
    ensures
        r == is_ascii_letter(c),
{
    let u = c as u32;
    ('a' as u32 <= u && u <= 'z' as u32) || ('A' as u32 <= u && u <= 'Z' as u32)
}

pub fn ascii_digit(c: char) -> (r: bool)
    ensures
        r == is_ascii_digit(c),
{
    let u = c as u32;
    '0' as u32 <= u && u <= '9' as u32
}

pub fn word_char(c: char) -> (r: bool)
    ensures
        r == is_word_char(c),
{
    if (c as u32) < 128 {
        ascii_letter(c) || ascii_digit(c) || c == '_'
    } else {
        unicode_word_character(c)
    }
}

/// Relies on `String::push`: appends one character at the end.
#[verifier::external_body]
pub(crate) fn push_char(s: &mut String, c: char)
    ensures
        final(s)@ == old(s)@.push(c),
{
    s.push(c)
}

/// Relies on `String::from_utf8`: the text that the bytes encode, when they are valid UTF-8.
#[verifier::external_body]
pub(crate) fn utf8_text(bytes: &Vec<u8>) -> (r: Option<String>)
    ensures
        r is Some <==> valid_utf8(bytes@),
        r matches Some(s) ==> s@ == decode_utf8(bytes@),
{
    String::from_utf8(bytes.clone()).ok()
}

/// The characters of a string, in order.
pub fn chars_of(s: &str) -> (r: Vec<char>)
    ensures
        r@ == s@,
{
    let mut r: Vec<char> = Vec::new();
    for c in it: s.chars()
        invariant
            r@ == it.seq().take(it.index() as int),
    {
        r.push(c);
    }
    r
}

/// The string made of the characters `cs[from..to]`.
pub fn string_of(cs: &Vec<char>, from: usize, to: usize) -> (r: String)
    requires
        from <= to <= cs@.len(),
    ensures
        r@ == cs@.subrange(from as int, to as int),
{
    let mut r = String::new();
    let mut i: usize = from;
    while i < to
        invariant
            from <= i <= to <= cs@.len(),
            r@ == cs@.subrange(from as int, i as int),
        decreases to - i,
    {
        push_char(&mut r, cs[i]);
        assert(cs@.subrange(from as int, i + 1) == cs@.subrange(from as int, i as int).push(cs@[i as int]));
        i += 1;
    }
    r
}

/// Whether `s` starts with `p`.
pub fn has_prefix(s: &Vec<char>, p: &Vec<char>) -> (r: bool)
    ensures
        r == (p@.len() <= s@.len() && s@.subrange(0, p@.len() as int) == p@),
{
    if p.len() > s.len() {
        return false;
    }
    let mut i: usize = 0;
    while i < p.len()
        invariant
            p@.len() <= s@.len(),
            i <= p@.len(),
            forall|j: int| 0 <= j < i ==> s@[j] == p@[j],
        decreases p@.len() - i,
    {
        if s[i] != p[i] {
            assert(s@.subrange(0, p@.len() as int)[i as int] != p@[i as int]);
            return false;
        }
        i += 1;
    }
    assert(s@.subrange(0, p@.len() as int) =~= p@);
    true
}

} // verus!
