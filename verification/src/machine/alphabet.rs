//! The 26-letter alphabet: letters, their positions, and ASCII case folding.

use vstd::prelude::*;

verus! {

/// `c` is one of `a` to `z`.
pub open spec fn is_lower(c: char) -> bool {
    'a' <= c && c <= 'z'
}

/// `c` is one of `A` to `Z`.
pub open spec fn is_upper(c: char) -> bool {
    'A' <= c && c <= 'Z'
}

/// `c` is an ASCII letter of either case.
pub open spec fn is_letter(c: char) -> bool {
    is_lower(c) || is_upper(c)
}

/// `c` with an upper-case ASCII letter folded to lower case; any other character unchanged.
pub open spec fn lowercase(c: char) -> char {
    if is_upper(c) {
        ((c as int) + 32) as char
    } else {
        c
    }
}

/// The alphabet position of a letter: `a` and `A` are 0, `z` and `Z` are 25.
pub open spec fn position_of(c: char) -> int {
    lowercase(c) as int - 97
}

/// The lower-case letter at an alphabet position.
pub open spec fn letter_at(p: int) -> char {
    (p + 97) as char
}

/// The positions of the letters of a text, one for one.
pub open spec fn positions_of(s: Seq<char>) -> Seq<u8> {
    Seq::new(s.len(), |i: int| position_of(s[i]) as u8)
}

/// Every character of the text is an ASCII letter.
pub open spec fn all_letters(s: Seq<char>) -> bool {
    forall|i: int| 0 <= i < s.len() ==> is_letter(#[trigger] s[i])
}

/// The text with its ASCII letters folded to lower case.
pub open spec fn normalize(s: Seq<char>) -> Seq<char> {
    Seq::new(s.len(), |i: int| lowercase(s[i]))
}

/// A letter's position lies in the alphabet, and the letter at that position is
/// the letter itself, folded to lower case.
pub proof fn lemma_position_round_trip(c: char)
    requires
        is_letter(c),
    ensures
        0 <= position_of(c) < 26,
        letter_at(position_of(c)) == lowercase(c),
        is_lower(lowercase(c)),
{
}

/// The letter at a position is lower case, and its position is that position.
pub proof fn lemma_letter_round_trip(p: int)
    requires
        0 <= p < 26,
    ensures
        is_lower(letter_at(p)),
        position_of(letter_at(p)) == p,
{
}

/// Tells whether `c` is an ASCII letter.
pub fn is_ascii_letter(c: char) -> (b: bool)
    ensures
        b == is_letter(c),
{
    ('a' <= c && c <= 'z') || ('A' <= c && c <= 'Z')
}

/// Folds an upper-case ASCII letter to lower case.
pub fn to_lowercase(c: char) -> (r: char)
    ensures
        r == lowercase(c),
{
    if 'A' <= c && c <= 'Z' {
        ((c as u8) + 32u8) as char
    } else {
        c
    }
}

/// The alphabet position of a letter of either case.
pub fn to_position(c: char) -> (p: u8)
    requires
        is_letter(c),
    ensures
        p == position_of(c),
        p < 26,
{
    (to_lowercase(c) as u8) - 97u8
}

/// The lower-case letter at an alphabet position.
pub fn to_letter(p: u8) -> (c: char)
    requires
        p < 26,
    ensures
        c == letter_at(p as int),
        is_lower(c),
{
    (p + 97u8) as char
}

} // verus!
