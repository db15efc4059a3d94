//! The plugboard: letters swapped in pairs before and after the rotor stack.

use vstd::prelude::*;
use std::collections::HashSet;
use vstd::relations::injective_on;
use vstd::set_lib::{
    lemma_int_range, lemma_len_subset, lemma_map_size, lemma_set_disjoint_lens,
    lemma_set_subset_finite, set_int_range,
};
use crate::machine::alphabet::{
    is_letter, is_lower, letter_at, lowercase, position_of, to_letter, to_position,
};
use crate::machine::text::push_char;
use crate::machine::wiring::{identity, is_involution};

verus! {

broadcast use vstd::std_specs::hash::group_hash_axioms;

/// The plugboard as a table: `wiring[p]` is the position that `p` is wired to,
/// `p` itself where no wire is plugged in.
pub struct PlugboardView {
    /// For each position, the position it is wired to.
    pub wiring: Seq<u8>,
}

impl PlugboardView {
    /// Wires come in pairs: the table is its own inverse.
    pub open spec fn wf(self) -> bool {
        is_involution(self.wiring)
    }

    /// The board with no wire plugged in.
    pub open spec fn empty() -> PlugboardView {
        PlugboardView { wiring: identity() }
    }

    /// The position that `p` is wired to.
    pub open spec fn translate(self, p: int) -> int {
        self.wiring[p] as int
    }

    /// The letter that the letter `c` is wired to, in lower case.
    pub open spec fn translate_char(self, c: char) -> char {
        letter_at(self.translate(position_of(c)))
    }

    /// No wire is plugged in at `p`.
    pub open spec fn is_free(self, p: int) -> bool {
        self.wiring[p] == p
    }

    /// A wire runs between `a` and `b`; with `a == b`, no wire is plugged in there.
    pub open spec fn joins(self, a: int, b: int) -> bool {
        self.wiring[a] == b && self.wiring[b] == a
    }

    /// The board with `a` and `b` wired to each other.
    pub open spec fn connect(self, a: int, b: int) -> PlugboardView {
        PlugboardView { wiring: self.wiring.update(a, b as u8).update(b, a as u8) }
    }

    /// The board with `a` and `b` each wired to itself.
    pub open spec fn disconnect(self, a: int, b: int) -> PlugboardView {
        PlugboardView { wiring: self.wiring.update(a, a as u8).update(b, b as u8) }
    }

    /// The wires of the board, each by its lower end.
    pub open spec fn wires(self) -> Set<int> {
        Set::new(|p: int| 0 <= p < 26 && p < self.wiring[p])
    }

    /// The wires whose lower end lies below position `n`, each as `x-y` with
    /// `x` before `y` in the alphabet, in the order of their lower ends and
    /// separated by commas.
    pub open spec fn rendering_below(self, n: int) -> Seq<char>
        decreases n,
    {
        if n <= 0 {
            Seq::empty()
        } else {
            let before = self.rendering_below(n - 1);
            let p = n - 1;
            let q = self.wiring[p] as int;
            if p < q {
                let lead = if before.len() == 0 {
                    before
                } else {
                    before.push(',')
                };
                lead.push(letter_at(p)).push('-').push(letter_at(q))
            } else {
                before
            }
        }
    }

    /// All wires of the board, as text.
    pub open spec fn rendering(self) -> Seq<char> {
        self.rendering_below(26)
    }

    /// Plugging a wire between two free positions gives a board of paired wires again.
    pub proof fn lemma_connect_wf(self, a: int, b: int)
        requires
            self.wf(),
            0 <= a < 26,
            0 <= b < 26,
            self.is_free(a),
            self.is_free(b),
        ensures
            self.connect(a, b).wf(),
            self.connect(a, b).joins(a, b),
            a == b ==> self.connect(a, b) == self,
    {
        let w = self.connect(a, b).wiring;
        assert forall|i: int| 0 <= i < 26 implies w[#[trigger] w[i] as int] == i by {
            assert(self.wiring[self.wiring[i] as int] == i);
        }
        if a == b {
            assert(w =~= self.wiring);
        }
    }

    /// Pulling the wire between two positions gives a board of paired wires again.
    pub proof fn lemma_disconnect_wf(self, a: int, b: int)
        requires
            self.wf(),
            0 <= a < 26,
            0 <= b < 26,
            self.joins(a, b),
        ensures
            self.disconnect(a, b).wf(),
            self.disconnect(a, b).is_free(a),
            self.disconnect(a, b).is_free(b),
            a == b ==> self.disconnect(a, b) == self,
    {
        let w = self.disconnect(a, b).wiring;
        assert forall|i: int| 0 <= i < 26 implies w[#[trigger] w[i] as int] == i by {
            assert(self.wiring[self.wiring[i] as int] == i);
        }
        if a == b {
            assert(w =~= self.wiring);
        }
    }

    /// A board holds at most 13 wires: each takes two of the 26 positions.
    pub proof fn lemma_at_most_thirteen_wires(self)
        requires
            self.wf(),
        ensures
            self.wires().finite(),
            self.wires().len() <= 13,
    {
        let all = set_int_range(0, 26);
        let lower = self.wires();
        let partner = |p: int| self.wiring[p] as int;
        let upper = lower.map(partner);
        lemma_int_range(0, 26);
        assert(lower.subset_of(all));
        lemma_set_subset_finite(all, lower);
        assert(injective_on(partner, lower)) by {
            assert forall|p: int, q: int|
                lower.contains(p) && lower.contains(q) && #[trigger] partner(p)
                    == #[trigger] partner(q) implies p == q by {
                assert(self.wiring[self.wiring[p] as int] == p);
                assert(self.wiring[self.wiring[q] as int] == q);
            }
        }
        lemma_map_size(lower, upper, partner);
        assert forall|q: int| upper.contains(q) implies all.contains(q) && !lower.contains(q) by {
            let p = choose|p: int| lower.contains(p) && q == partner(p);
            assert(self.wiring[p] < 26);
            assert(self.wiring[self.wiring[p] as int] == p);
        }
        assert(lower.disjoint(upper));
        lemma_set_disjoint_lens(lower, upper);
        assert((lower + upper).subset_of(all));
        lemma_len_subset(lower + upper, all);
    }

    /// Passing a position through the board twice gives the position back.
    pub proof fn lemma_translate_involution(self, p: int)
        requires
            self.wf(),
            0 <= p < 26,
        ensures
            0 <= self.translate(p) < 26,
            self.translate(self.translate(p)) == p,
    {
        assert(self.wiring[self.wiring[p] as int] == p);
    }

    /// Passing a letter through the board twice gives the letter back, in lower case.
    pub proof fn lemma_translate_char_involution(self, c: char)
        requires
            self.wf(),
            is_letter(c),
        ensures
            is_lower(self.translate_char(c)),
            self.translate_char(self.translate_char(c)) == lowercase(c),
    {
        self.lemma_translate_involution(position_of(c));
    }

    /// Once a wire runs from `a` to `b`, no position is free to be wired to `a`:
    /// `a` is taken, whatever the other end.
    pub proof fn lemma_wired_position_is_taken(self, a: int, b: int)
        requires
            self.wf(),
            0 <= a < 26,
            0 <= b < 26,
            a != b,
            self.is_free(a),
            self.is_free(b),
        ensures
            !self.connect(a, b).is_free(a),
            !self.connect(a, b).is_free(b),
    {
    }
}

/// Why a wire could not be plugged in or pulled.
#[derive(Debug, Clone, Copy, PartialEq, Eq, Structural)]
pub enum PlugboardError {
    /// No wire runs between the two letters.
    WireDoesntExist,
    /// One of the two letters already has a wire.
    OverlappingWires,
}

/// The plugboard: a table of 26 positions, each wired to its partner or to itself.
pub struct Plugboard {
    /// For each position, the position it is wired to.
    wires: [u8; 26],
}

impl View for Plugboard {
    type V = PlugboardView;

    closed spec fn view(&self) -> PlugboardView {
        PlugboardView { wiring: self.wires@ }
    }
}

impl Clone for Plugboard {
    fn clone(&self) -> (r: Self)
        ensures
            r == *self,
    {
        Plugboard { wires: self.wires }
    }
}

impl Plugboard {
    /// The board's wires come in pairs.
    pub open spec fn wf(&self) -> bool {
        self@.wf()
    }

    /// A plugboard with no wire plugged in.
    pub fn new() -> (board: Plugboard)
        ensures
            board.wf(),
            board@ == PlugboardView::empty(),
    {
        let mut wires: [u8; 26] = [0; 26];
        let mut i: u8 = 0;
        while i < 26
            invariant
                i <= 26,
                forall|j: int| 0 <= j < i ==> wires@[j] == j,
            decreases 26 - i,
        {
            wires[i as usize] = i;
            i = i + 1;
        }
        assert(wires@ =~= identity());
        Plugboard { wires }
    }

    /// Plugs a wire between two letters, of either case.
    ///
    /// Fails, and leaves the board as it is, when either letter already has a
    /// wire. A wire from a free letter to itself changes nothing.
    pub fn add_wire(&mut self, start: char, end: char) -> (r: Result<(), PlugboardError>)
        requires
            old(self).wf(),
            is_letter(start),
            is_letter(end),
        ensures
            final(self).wf(),
            r is Ok <==> old(self)@.is_free(position_of(start)) && old(self)@.is_free(
                position_of(end),
            ),
            r is Ok ==> final(self)@ == old(self)@.connect(position_of(start), position_of(end)),
            r is Err ==> r == Err::<(), PlugboardError>(PlugboardError::OverlappingWires)
                && final(self)@ == old(self)@,
    {
        let start = to_position(start);
        let end = to_position(end);
        if self.wires[start as usize] != start || self.wires[end as usize] != end {
            return Err(PlugboardError::OverlappingWires);
        }
        if start == end {
            proof {
                self@.lemma_connect_wf(start as int, end as int);
            }
            return Ok(());
        }
        proof {
            self@.lemma_connect_wf(start as int, end as int);
        }
        self.wires[start as usize] = end;
        self.wires[end as usize] = start;
        Ok(())
    }

    /// Pulls the wire between two letters, of either case and in either order.
    ///
    /// Fails, and leaves the board as it is, unless the two letters are wired
    /// to each other. A free letter counts as wired to itself.
    pub fn remove_wire(&mut self, start: char, end: char) -> (r: Result<(), PlugboardError>)
        requires
            old(self).wf(),
            is_letter(start),
            is_letter(end),
        ensures
            final(self).wf(),
            r is Ok <==> old(self)@.joins(position_of(start), position_of(end)),
            r is Ok ==> final(self)@ == old(self)@.disconnect(
                position_of(start),
                position_of(end),
            ),
            r is Err ==> r == Err::<(), PlugboardError>(PlugboardError::WireDoesntExist)
                && final(self)@ == old(self)@,
    {
        let start = to_position(start);
        let end = to_position(end);
        if self.wires[start as usize] == end && self.wires[end as usize] == start {
            proof {
                self@.lemma_disconnect_wf(start as int, end as int);
            }
            self.wires[start as usize] = start;
            self.wires[end as usize] = end;
            return Ok(());
        }
        Err(PlugboardError::WireDoesntExist)
    }

    /// The letter that a letter of either case is wired to, in lower case.
    pub fn translate_char(&self, input_char: char) -> (r: char)
        requires
            self.wf(),
            is_letter(input_char),
        ensures
            r == self@.translate_char(input_char),
            is_lower(r),
    {
        let input_val = to_position(input_char);
        to_letter(self.translate_u8(input_val))
    }

    /// The position that a position is wired to.
    pub fn translate_u8(&self, input_val: u8) -> (r: u8)
        requires
            self.wf(),
            input_val < 26,
        ensures
            r == self@.translate(input_val as int),
            r < 26,
    {
        self.wires[input_val as usize]
    }

    /// The wires of the board as text: each wire once, as `x-y` with `x` before
    /// `y` in the alphabet, in the order of their lower ends, separated by commas.
    pub fn to_string(&self) -> (display: String)
        requires
            self.wf(),
        ensures
            display@ == self@.rendering(),
    {
        let mut display = String::new();
        let mut completed: HashSet<u8> = HashSet::new();
        let mut idx: u8 = 0;
        while idx < 26
            invariant
                idx <= 26,
                self.wf(),
                display@ == self@.rendering_below(idx as int),
                forall|x: u8|
                    completed@.contains(x) <==> x < 26 && (x < idx || self.wires@[x as int] < idx)
                        && self.wires@[x as int] != x,
            decreases 26 - idx,
        {
            let val = self.wires[idx as usize];
            assert(self.wires@[val as int] == idx);
            if val != idx {
                let mut start: u8 = idx;
                let mut end: u8 = val;
                if start > end {
                    start = val;
                    end = idx;
                }
                // A wire is met at both of its ends; it is written at the first.
                if !completed.contains(&start) && !completed.contains(&end) {
                    if !display.as_str().is_empty() {
                        push_char(&mut display, ',');
                    }
                    push_char(&mut display, to_letter(start));
                    push_char(&mut display, '-');
                    push_char(&mut display, to_letter(end));
                    completed.insert(start);
                    completed.insert(end);
                }
            }
            idx = idx + 1;
        }
        display
    }
}

} // verus!
