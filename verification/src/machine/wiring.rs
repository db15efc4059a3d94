//! Wiring tables over the alphabet and the shifted lookup that every
//! substitution stage of the machine is built on.

use vstd::prelude::*;
use vstd::relations::injective_on;
use vstd::set_lib::*;
use crate::machine::alphabet::{all_letters, positions_of, to_position};

verus! {

/// A table with one entry per alphabet position, each entry a position.
pub open spec fn in_alphabet(t: Seq<u8>) -> bool {
    &&& t.len() == 26
    &&& forall|i: int| 0 <= i < 26 ==> #[trigger] t[i] < 26
}

/// A table in which no position occurs twice, so that every position occurs once.
pub open spec fn is_permutation(t: Seq<u8>) -> bool {
    &&& in_alphabet(t)
    &&& forall|i: int, j: int|
        0 <= i < 26 && 0 <= j < 26 && i != j ==> #[trigger] t[i] != #[trigger] t[j]
}

/// `rev` leads every entry of `fwd` back to where it stands.
pub open spec fn is_inverse_of(rev: Seq<u8>, fwd: Seq<u8>) -> bool {
    &&& in_alphabet(rev)
    &&& in_alphabet(fwd)
    &&& forall|i: int| 0 <= i < 26 ==> rev[#[trigger] fwd[i] as int] == i
}

/// A table that is its own inverse.
pub open spec fn is_involution(t: Seq<u8>) -> bool {
    is_inverse_of(t, t)
}

/// The table that maps every position to itself.
pub open spec fn identity() -> Seq<u8> {
    Seq::new(26, |i: int| i as u8)
}

/// The table that undoes a permutation.
pub open spec fn inverse(t: Seq<u8>) -> Seq<u8> {
    Seq::new(26, |j: int| (choose|i: int| 0 <= i < 26 && t[i] == j) as u8)
}

/// `lhs - rhs` on the alphabet's circle, for operands at most one turn apart.
pub open spec fn wrap_sub(lhs: int, rhs: int) -> int {
    if rhs <= lhs {
        lhs - rhs
    } else {
        26 - (rhs - lhs)
    }
}

/// Looks `input` up in a table that is turned by `offset`: enter at
/// `input + offset`, leave at the entry found there less `offset`, both on the circle.
pub open spec fn shift_translate(table: Seq<u8>, offset: int, input: int) -> int {
    (table[(input + offset) % 26] - offset) % 26
}

/// On positions, `wrap_sub` is subtraction modulo 26.
pub proof fn lemma_wrap_sub_is_modular(lhs: int, rhs: int)
    requires
        0 <= lhs < 26,
        0 <= rhs < 26,
    ensures
        wrap_sub(lhs, rhs) == (lhs - rhs) % 26,
        0 <= wrap_sub(lhs, rhs) < 26,
{
}

/// A shifted lookup in an alphabet table yields a position.
pub proof fn lemma_shift_translate_in_range(table: Seq<u8>, offset: int, input: int)
    requires
        in_alphabet(table),
        0 <= offset < 26,
        0 <= input < 26,
    ensures
        0 <= shift_translate(table, offset, input) < 26,
{
}

/// A shifted lookup in the inverse table, at the same offset, undoes a shifted lookup.
pub proof fn lemma_shift_translate_inverse(fwd: Seq<u8>, rev: Seq<u8>, offset: int, input: int)
    requires
        is_inverse_of(rev, fwd),
        0 <= offset < 26,
        0 <= input < 26,
    ensures
        shift_translate(rev, offset, shift_translate(fwd, offset, input)) == input,
{
    let idx = (input + offset) % 26;
    let hit = fwd[idx] as int;
    let out = shift_translate(fwd, offset, input);
    assert(0 <= hit < 26);
    assert((out + offset) % 26 == hit);
    assert(rev[hit] == idx);
}

/// In a permutation every position occurs.
pub proof fn lemma_permutation_onto(t: Seq<u8>, j: int)
    requires
        is_permutation(t),
        0 <= j < 26,
    ensures
        exists|i: int| 0 <= i < 26 && t[i] == j,
{
    let dom = set_int_range(0, 26);
    let f = |i: int| t[i] as int;
    let img = dom.map(f);
    lemma_int_range(0, 26);
    assert(injective_on(f, dom));
    lemma_map_size(dom, img, f);
    assert(img.subset_of(dom)) by {
        assert forall|y: int| img.contains(y) implies dom.contains(y) by {
            let i = choose|i: int| dom.contains(i) && y == f(i);
            assert(t[i] < 26);
        }
    }
    lemma_subset_equality(img, dom);
    assert(dom.contains(j));
    assert(img.contains(j));
    let i = choose|i: int| dom.contains(i) && j == f(i);
    assert(0 <= i < 26 && t[i] == j);
}

/// The inverse of a permutation is its inverse on both sides, and a permutation itself.
pub proof fn lemma_inverse_of_permutation(t: Seq<u8>)
    requires
        is_permutation(t),
    ensures
        is_inverse_of(inverse(t), t),
        is_inverse_of(t, inverse(t)),
        is_permutation(inverse(t)),
{
    let r = inverse(t);
    assert forall|j: int| 0 <= j < 26 implies 0 <= #[trigger] r[j] < 26 && t[r[j] as int] == j by {
        lemma_permutation_onto(t, j);
    }
    assert forall|i: int| 0 <= i < 26 implies r[#[trigger] t[i] as int] == i by {
        let j = t[i] as int;
        assert(t[r[j] as int] == j);
    }
    assert forall|i: int, j: int| 0 <= i < 26 && 0 <= j < 26 && i != j implies #[trigger] r[i]
        != #[trigger] r[j] by {
        assert(t[r[i] as int] == i);
        assert(t[r[j] as int] == j);
    }
}

/// A permutation has one inverse only.
pub proof fn lemma_inverse_unique(fwd: Seq<u8>, rev: Seq<u8>)
    requires
        is_permutation(fwd),
        is_inverse_of(rev, fwd),
    ensures
        rev == inverse(fwd),
{
    lemma_inverse_of_permutation(fwd);
    let r = inverse(fwd);
    assert forall|j: int| 0 <= j < 26 implies rev[j] == r[j] by {
        assert(fwd[r[j] as int] == j);
        assert(rev[fwd[r[j] as int] as int] == r[j]);
    }
    assert(rev =~= r);
}

/// A table with an inverse is a permutation.
pub proof fn lemma_invertible_is_permutation(fwd: Seq<u8>, rev: Seq<u8>)
    requires
        is_inverse_of(rev, fwd),
    ensures
        is_permutation(fwd),
{
    assert forall|i: int, j: int| 0 <= i < 26 && 0 <= j < 26 && i != j implies #[trigger] fwd[i]
        != #[trigger] fwd[j] by {
        assert(rev[fwd[i] as int] == i);
        assert(rev[fwd[j] as int] == j);
    }
}

/// `lhs - rhs` on the alphabet's circle, for operands at most one turn apart.
pub fn wrap_26_sub(lhs: u8, rhs: u8) -> (r: u8)
    requires
        rhs - lhs <= 26,
    ensures
        r == wrap_sub(lhs as int, rhs as int),
{
    if rhs <= lhs {
        lhs - rhs
    } else {
        26 - (rhs - lhs)
    }
}

/// Looks a position up in a wiring table that is turned by `offset`.
pub fn lookup_shifted(table: &[u8; 26], offset: u8, input: u8) -> (r: u8)
    requires
        in_alphabet(table@),
        offset < 26,
        input < 26,
    ensures
        r == shift_translate(table@, offset as int, input as int),
        r < 26,
{
    let entry: u8 = (input + offset) % 26;
    proof {
        lemma_wrap_sub_is_modular(table@[entry as int] as int, offset as int);
    }
    wrap_26_sub(table[entry as usize], offset)
}

/// The wiring table that a text of 26 letters spells out: entry `i` is the
/// position of the text's letter `i`.
pub fn table_of(letters: &Vec<char>) -> (table: [u8; 26])
    requires
        letters@.len() == 26,
        all_letters(letters@),
    ensures
        table@ == positions_of(letters@),
        in_alphabet(table@),
{
    let mut table: [u8; 26] = [0; 26];
    let mut i: usize = 0;
    while i < 26
        invariant
            i <= 26,
            letters@.len() == 26,
            all_letters(letters@),
            forall|j: int| 0 <= j < i ==> table@[j] == positions_of(letters@)[j],
        decreases 26 - i,
    {
        table[i] = to_position(letters[i]);
        i = i + 1;
    }
    assert(table@ =~= positions_of(letters@));
    table
}

} // verus!
