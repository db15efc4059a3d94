//! The rotors: turning substitutions that carry into their neighbour when
//! they step off a notch.

use vstd::prelude::*;
use std::collections::HashSet;
use crate::machine::alphabet::{
    all_letters, is_letter, is_lower, letter_at, lowercase, position_of, positions_of, to_letter,
    to_position,
};
use crate::machine::text::{chars_of, push_char};
use crate::machine::wiring;
use crate::machine::wiring::{
    inverse, is_inverse_of, is_permutation, lemma_inverse_of_permutation, lemma_inverse_unique,
    lemma_invertible_is_permutation, lemma_shift_translate_in_range,
    lemma_shift_translate_inverse, lookup_shifted, shift_translate, table_of, wrap_sub,
};

verus! {

broadcast use vstd::std_specs::hash::group_hash_axioms;

/// The positions that the letters of `notches` name.
pub open spec fn notch_set(notches: Seq<char>) -> Set<int> {
    Set::new(
        |p: int| exists|i: int| 0 <= i < notches.len() && position_of(#[trigger] notches[i]) == p,
    )
}

/// From position `from`, the position `m` steps ahead on the circle is the
/// one position at distance `m`.
pub proof fn lemma_steps_ahead(from: int, m: int, p: int)
    requires
        0 <= from < 26,
        0 <= m < 26,
        0 <= p < 26,
    ensures
        wrap_sub(p, from) == m <==> p == (from + m) % 26,
{
}

/// A rotor as its two wiring tables, the offset it is turned by, and the
/// positions of its notches.
pub struct RotorView {
    /// The wiring on the way to the reflector.
    pub forward: Seq<u8>,
    /// The wiring on the way back.
    pub reverse: Seq<u8>,
    /// How far the rotor is turned.
    pub offset: int,
    /// The positions that the rotor carries from when it steps off them.
    pub notches: Set<int>,
}

impl RotorView {
    /// The way back undoes the way forward, the offset is a position, and so
    /// is every notch.
    pub open spec fn wf(self) -> bool {
        &&& is_inverse_of(self.reverse, self.forward)
        &&& 0 <= self.offset < 26
        &&& forall|p: int| self.notches.contains(p) ==> 0 <= p < 26
    }

    /// The rotor that `configuration` spells out, turned to the letter
    /// `setting`, with a notch at each letter of `notches`.
    pub open spec fn of(configuration: Seq<char>, setting: char, notches: Seq<char>) -> RotorView {
        RotorView {
            forward: positions_of(configuration),
            reverse: inverse(positions_of(configuration)),
            offset: position_of(setting),
            notches: notch_set(notches),
        }
    }

    /// Rotor I at offset 0.
    pub open spec fn i() -> RotorView {
        Self::of("EKMFLGDQVZNTOWYHXUSPAIBRCJ"@, 'a', "Q"@)
    }

    /// Rotor II at offset 0.
    pub open spec fn ii() -> RotorView {
        Self::of("AJDKSIRUXBLHWTMCQGZNPYFVOE"@, 'a', "E"@)
    }

    /// Rotor III at offset 0.
    pub open spec fn iii() -> RotorView {
        Self::of("BDFHJLCPRTXVZNYEIWGAKMUSQO"@, 'a', "V"@)
    }

    /// Rotor IV at offset 0.
    pub open spec fn iv() -> RotorView {
        Self::of("ESOVPZJAYQUIRHXLNFTGKDCMWB"@, 'a', "J"@)
    }

    /// Rotor V at offset 0.
    pub open spec fn v() -> RotorView {
        Self::of("VZBRGITYUPSDNHLXAWMJQOFECK"@, 'a', "Z"@)
    }

    /// Rotor VI at offset 0.
    pub open spec fn vi() -> RotorView {
        Self::of("JPGVOUMFYQBENHZRDKASXLICTW"@, 'a', "ZM"@)
    }

    /// Rotor VII at offset 0.
    pub open spec fn vii() -> RotorView {
        Self::of("NZJHGRCXMYSWBOUFAIVLPEKQDT"@, 'a', "ZM"@)
    }

    /// Rotor VIII at offset 0.
    pub open spec fn viii() -> RotorView {
        Self::of("FKQHTLXOCBJSPDZRAMEWNIUYGV"@, 'a', "ZM"@)
    }

    /// The position that `p` leaves the rotor as on the way to the reflector.
    pub open spec fn translate_forward(self, p: int) -> int {
        shift_translate(self.forward, self.offset, p)
    }

    /// The position that `p` leaves the rotor as on the way back.
    pub open spec fn translate_reverse(self, p: int) -> int {
        shift_translate(self.reverse, self.offset, p)
    }

    /// `translate_forward` on letters.
    pub open spec fn translate_forward_char(self, c: char) -> char {
        letter_at(self.translate_forward(position_of(c)))
    }

    /// `translate_reverse` on letters.
    pub open spec fn translate_reverse_char(self, c: char) -> char {
        letter_at(self.translate_reverse(position_of(c)))
    }

    /// The same rotor turned to `offset`.
    pub open spec fn turned_to(self, offset: int) -> RotorView {
        RotorView { offset, ..self }
    }

    /// The rotor as text: the letter it is turned to.
    pub open spec fn rendering(self) -> Seq<char> {
        seq![letter_at(self.offset)]
    }

    /// The rotor stands on a notch: its next step carries.
    pub open spec fn carries(self) -> bool {
        self.notches.contains(self.offset)
    }

    /// The rotor after one step.
    pub open spec fn stepped(self) -> RotorView {
        self.turned_to((self.offset + 1) % 26)
    }

    /// The rotor after `n` steps.
    pub open spec fn stepped_by(self, n: nat) -> RotorView
        decreases n,
    {
        if n == 0 {
            self
        } else {
            self.stepped_by((n - 1) as nat).stepped()
        }
    }

    /// How many of the rotor's next `n` steps carry.
    pub open spec fn carries_in(self, n: nat) -> nat
        decreases n,
    {
        if n == 0 {
            0
        } else {
            let before = self.carries_in((n - 1) as nat);
            if self.stepped_by((n - 1) as nat).carries() {
                before + 1
            } else {
                before
            }
        }
    }

    /// The notches that the rotor steps off in its next `n` steps, for `n` up
    /// to 26: those less than `n` positions ahead of where it stands.
    pub open spec fn notches_passed(self, n: nat) -> Set<int> {
        Set::new(|p: int| self.notches.contains(p) && wrap_sub(p, self.offset) < n)
    }

    /// A wiring that names every letter once, a letter to turn to and
    /// letters for the notches make a well-formed rotor.
    pub proof fn lemma_of_wf(configuration: Seq<char>, setting: char, notches: Seq<char>)
        requires
            configuration.len() == 26,
            all_letters(configuration),
            is_permutation(positions_of(configuration)),
            is_letter(setting),
            all_letters(notches),
        ensures
            Self::of(configuration, setting, notches).wf(),
    {
        lemma_inverse_of_permutation(positions_of(configuration));
    }

    /// The eight named rotors are well formed. Rotors I to V have one notch:
    /// at Q, E, V, J and Z. Rotors VI, VII and VIII have two, at Z and M.
    pub proof fn lemma_named_rotors()
        ensures
            Self::i().wf() && Self::i().offset == 0 && Self::i().notches == set![16int],
            Self::ii().wf() && Self::ii().offset == 0 && Self::ii().notches == set![4int],
            Self::iii().wf() && Self::iii().offset == 0 && Self::iii().notches == set![21int],
            Self::iv().wf() && Self::iv().offset == 0 && Self::iv().notches == set![9int],
            Self::v().wf() && Self::v().offset == 0 && Self::v().notches == set![25int],
            Self::vi().wf() && Self::vi().offset == 0 && Self::vi().notches == set![25int, 12int],
            Self::vii().wf() && Self::vii().offset == 0 && Self::vii().notches == set![
                25int,
                12int,
            ],
            Self::viii().wf() && Self::viii().offset == 0 && Self::viii().notches == set![
                25int,
                12int,
            ],
    {
        reveal_strlit("Q");
        reveal_strlit("E");
        reveal_strlit("V");
        reveal_strlit("J");
        reveal_strlit("Z");
        reveal_strlit("ZM");
        assert(notch_set("Q"@) =~= set![16int]) by {
            assert(position_of("Q"@[0]) == 16);
        }
        assert(notch_set("E"@) =~= set![4int]) by {
            assert(position_of("E"@[0]) == 4);
        }
        assert(notch_set("V"@) =~= set![21int]) by {
            assert(position_of("V"@[0]) == 21);
        }
        assert(notch_set("J"@) =~= set![9int]) by {
            assert(position_of("J"@[0]) == 9);
        }
        assert(notch_set("Z"@) =~= set![25int]) by {
            assert(position_of("Z"@[0]) == 25);
        }
        assert(notch_set("ZM"@) =~= set![25int, 12int]) by {
            assert(position_of("ZM"@[0]) == 25);
            assert(position_of("ZM"@[1]) == 12);
        }
        assert(Self::i().wf()) by {
            reveal_strlit("EKMFLGDQVZNTOWYHXUSPAIBRCJ");
            Self::lemma_of_wf("EKMFLGDQVZNTOWYHXUSPAIBRCJ"@, 'a', "Q"@);
        }
        assert(Self::ii().wf()) by {
            reveal_strlit("AJDKSIRUXBLHWTMCQGZNPYFVOE");
            Self::lemma_of_wf("AJDKSIRUXBLHWTMCQGZNPYFVOE"@, 'a', "E"@);
        }
        assert(Self::iii().wf()) by {
            reveal_strlit("BDFHJLCPRTXVZNYEIWGAKMUSQO");
            Self::lemma_of_wf("BDFHJLCPRTXVZNYEIWGAKMUSQO"@, 'a', "V"@);
        }
        assert(Self::iv().wf()) by {
            reveal_strlit("ESOVPZJAYQUIRHXLNFTGKDCMWB");
            Self::lemma_of_wf("ESOVPZJAYQUIRHXLNFTGKDCMWB"@, 'a', "J"@);
        }
        assert(Self::v().wf()) by {
            reveal_strlit("VZBRGITYUPSDNHLXAWMJQOFECK");
            Self::lemma_of_wf("VZBRGITYUPSDNHLXAWMJQOFECK"@, 'a', "Z"@);
        }
        assert(Self::vi().wf()) by {
            reveal_strlit("JPGVOUMFYQBENHZRDKASXLICTW");
            Self::lemma_of_wf("JPGVOUMFYQBENHZRDKASXLICTW"@, 'a', "ZM"@);
        }
        assert(Self::vii().wf()) by {
            reveal_strlit("NZJHGRCXMYSWBOUFAIVLPEKQDT");
            Self::lemma_of_wf("NZJHGRCXMYSWBOUFAIVLPEKQDT"@, 'a', "ZM"@);
        }
        assert(Self::viii().wf()) by {
            reveal_strlit("FKQHTLXOCBJSPDZRAMEWNIUYGV");
            Self::lemma_of_wf("FKQHTLXOCBJSPDZRAMEWNIUYGV"@, 'a', "ZM"@);
        }
    }

    /// The way forward is a permutation, and each way undoes the other.
    pub proof fn lemma_wiring(self)
        requires
            self.wf(),
        ensures
            is_permutation(self.forward),
            is_permutation(self.reverse),
            self.reverse == inverse(self.forward),
            is_inverse_of(self.forward, self.reverse),
    {
        lemma_invertible_is_permutation(self.forward, self.reverse);
        lemma_inverse_unique(self.forward, self.reverse);
        lemma_inverse_of_permutation(self.forward);
    }

    /// At every offset, the way back undoes the way forward.
    pub proof fn lemma_reverse_undoes_forward(self, p: int)
        requires
            self.wf(),
            0 <= p < 26,
        ensures
            0 <= self.translate_forward(p) < 26,
            self.translate_reverse(self.translate_forward(p)) == p,
    {
        lemma_shift_translate_in_range(self.forward, self.offset, p);
        lemma_shift_translate_inverse(self.forward, self.reverse, self.offset, p);
    }

    /// At every offset, the way forward undoes the way back.
    pub proof fn lemma_forward_undoes_reverse(self, p: int)
        requires
            self.wf(),
            0 <= p < 26,
        ensures
            0 <= self.translate_reverse(p) < 26,
            self.translate_forward(self.translate_reverse(p)) == p,
    {
        self.lemma_wiring();
        lemma_shift_translate_in_range(self.reverse, self.offset, p);
        lemma_shift_translate_inverse(self.reverse, self.forward, self.offset, p);
    }

    /// At every offset, a letter sent forward and then back is the letter
    /// itself, in lower case; and so is a letter sent back and then forward.
    pub proof fn lemma_translate_char_round_trip(self, c: char)
        requires
            self.wf(),
            is_letter(c),
        ensures
            is_lower(self.translate_forward_char(c)),
            is_lower(self.translate_reverse_char(c)),
            self.translate_reverse_char(self.translate_forward_char(c)) == lowercase(c),
            self.translate_forward_char(self.translate_reverse_char(c)) == lowercase(c),
    {
        self.lemma_reverse_undoes_forward(position_of(c));
        self.lemma_forward_undoes_reverse(position_of(c));
    }

    /// After `n` steps the rotor is turned `n` positions further round the
    /// circle and is otherwise the same; the step after those carries exactly
    /// when that position is a notch.
    pub proof fn lemma_stepped_by(self, n: nat)
        requires
            self.wf(),
        ensures
            self.stepped_by(n) == self.turned_to((self.offset + n) % 26),
            self.stepped_by(n).wf(),
            self.stepped_by(n).carries() <==> self.notches.contains((self.offset + n) % 26),
        decreases n,
    {
        if n > 0 {
            self.lemma_stepped_by((n - 1) as nat);
        }
    }

    /// Of the next `n` steps, for `n` up to 26, as many carry as there are
    /// notches that the rotor steps off in them.
    pub proof fn lemma_carries_in(self, n: nat)
        requires
            self.wf(),
            n <= 26,
        ensures
            self.notches_passed(n).finite(),
            self.carries_in(n) == self.notches_passed(n).len(),
        decreases n,
    {
        if n == 0 {
            assert(self.notches_passed(0) =~= Set::<int>::empty());
        } else {
            let m = (n - 1) as nat;
            self.lemma_carries_in(m);
            self.lemma_stepped_by(m);
            let q = (self.offset + m) % 26;
            let before = self.notches_passed(m);
            let after = self.notches_passed(n);
            assert forall|p: int| 0 <= p < 26 implies (wrap_sub(p, self.offset) == m <==> p
                == q) by {
                lemma_steps_ahead(self.offset, m as int, p);
            }
            assert(!before.contains(q));
            if self.notches.contains(q) {
                assert forall|p: int| after.contains(p) <==> before.insert(q).contains(p) by {
                    if self.notches.contains(p) {
                        assert(0 <= p < 26);
                    }
                }
                assert(after =~= before.insert(q));
            } else {
                assert forall|p: int| after.contains(p) <==> before.contains(p) by {
                    if self.notches.contains(p) {
                        assert(0 <= p < 26);
                    }
                }
                assert(after =~= before);
            }
        }
    }

    /// A full revolution: after 26 steps the rotor is back where it was, and
    /// it has carried once for each of its notches — once with one notch,
    /// twice with two — each time on the step that began on the notch.
    pub proof fn lemma_full_revolution(self)
        requires
            self.wf(),
        ensures
            self.stepped_by(26) == self,
            self.notches.finite(),
            self.carries_in(26) == self.notches.len(),
            forall|k: nat|
                k < 26 ==> (#[trigger] self.stepped_by(k).carries() <==> self.stepped_by(k).offset
                    == (self.offset + k) % 26 && self.notches.contains((self.offset + k) % 26)),
    {
        self.lemma_stepped_by(26);
        self.lemma_carries_in(26);
        assert forall|p: int| self.notches.contains(p) implies self.notches_passed(26).contains(
            p,
        ) by {
            assert(0 <= p < 26);
        }
        assert(self.notches_passed(26) =~= self.notches);
        assert forall|k: nat| k < 26 implies (#[trigger] self.stepped_by(k).carries()
            <==> self.stepped_by(k).offset == (self.offset + k) % 26 && self.notches.contains(
            (self.offset + k) % 26,
        )) by {
            self.lemma_stepped_by(k);
        }
    }

    /// A rotor with one notch carries exactly once in a full revolution: on
    /// the step that begins on the notch.
    pub proof fn lemma_one_notch_carries_once(self, p: int)
        requires
            self.wf(),
            self.notches == set![p],
        ensures
            self.stepped_by(26) == self,
            self.carries_in(26) == 1,
            forall|k: nat|
                k < 26 ==> (#[trigger] self.stepped_by(k).carries() <==> (self.offset + k) % 26
                    == p),
    {
        self.lemma_full_revolution();
        assert(self.notches.len() == 1) by {
            assert(set![p] =~= Set::<int>::empty().insert(p));
        }
        assert forall|k: nat| k < 26 implies (#[trigger] self.stepped_by(k).carries() <==> (
            self.offset + k) % 26 == p) by {
            self.lemma_stepped_by(k);
        }
    }

    /// A rotor with two notches carries exactly twice in a full revolution:
    /// on the two steps that begin on a notch.
    pub proof fn lemma_two_notches_carry_twice(self, p: int, q: int)
        requires
            self.wf(),
            p != q,
            self.notches == set![p, q],
        ensures
            self.stepped_by(26) == self,
            self.carries_in(26) == 2,
            forall|k: nat|
                k < 26 ==> (#[trigger] self.stepped_by(k).carries() <==> (self.offset + k) % 26 == p
                    || (self.offset + k) % 26 == q),
    {
        self.lemma_full_revolution();
        assert(self.notches.len() == 2) by {
            assert(set![p, q] =~= Set::<int>::empty().insert(p).insert(q));
        }
        assert forall|k: nat| k < 26 implies (#[trigger] self.stepped_by(k).carries() <==> (
            self.offset + k) % 26 == p || (self.offset + k) % 26 == q) by {
            self.lemma_stepped_by(k);
        }
    }
}

/// One rotor of the machine.
pub struct Rotor {
    /// The wiring on the way to the reflector.
    path_fwd: [u8; 26],
    /// The wiring on the way back.
    path_rev: [u8; 26],
    /// How far the rotor is turned, always below 26.
    offset: u8,
    /// The positions from which a step carries into the neighbouring rotor.
    notches: HashSet<u8>,
}

impl View for Rotor {
    type V = RotorView;

    closed spec fn view(&self) -> RotorView {
        RotorView {
            forward: self.path_fwd@,
            reverse: self.path_rev@,
            offset: self.offset as int,
            notches: Set::new(|p: int| 0 <= p < 26 && self.notches@.contains(p as u8)),
        }
    }
}

impl Clone for Rotor {
    /// A rotor with the same wiring, offset and notches.
    fn clone(&self) -> (r: Self)
        ensures
            r@ == self@,
    {
        let mut notches: HashSet<u8> = HashSet::new();
        let mut p: u8 = 0;
        while p < 26
            invariant
                p <= 26,
                forall|x: u8| notches@.contains(x) <==> x < p && self.notches@.contains(x),
            decreases 26 - p,
        {
            if self.notches.contains(&p) {
                notches.insert(p);
            }
            p = p + 1;
        }
        let r = Rotor {
            path_fwd: self.path_fwd,
            path_rev: self.path_rev,
            offset: self.offset,
            notches,
        };
        assert(r@.notches =~= self@.notches);
        r
    }
}

impl Rotor {
    /// The way back undoes the way forward, and offset and notches are positions.
    pub open spec fn wf(&self) -> bool {
        self@.wf()
    }

    /// A rotor wired as `configuration` spells out, turned to the letter
    /// `setting`, with a notch at each letter of `notches`.
    ///
    /// The configuration names, for each letter of the alphabet in turn, the
    /// letter it is wired to, each letter once; case does not matter.
    pub fn new(configuration: &str, setting: char, notches: &str) -> (rotor: Self)
        requires
            configuration@.len() == 26,
            all_letters(configuration@),
            is_permutation(positions_of(configuration@)),
            is_letter(setting),
            all_letters(notches@),
        ensures
            rotor.wf(),
            rotor@ == RotorView::of(configuration@, setting, notches@),
    {
        let letters = chars_of(configuration);
        let path_fwd: [u8; 26] = table_of(&letters);
        let offset = to_position(setting);
        let marks = chars_of(notches);
        let mut notch_positions: HashSet<u8> = HashSet::new();
        let mut k: usize = 0;
        while k < marks.len()
            invariant
                k <= marks.len(),
                all_letters(marks@),
                forall|x: u8|
                    notch_positions@.contains(x) <==> exists|i: int|
                        0 <= i < k && position_of(#[trigger] marks@[i]) == x,
            decreases marks.len() - k,
        {
            let at = to_position(marks[k]);
            notch_positions.insert(at);
            k = k + 1;
        }
        let mut path_rev: [u8; 26] = [0; 26];
        let mut i: usize = 0;
        while i < 26
            invariant
                i <= 26,
                is_permutation(path_fwd@),
                forall|p: int| 0 <= p < 26 ==> #[trigger] path_rev@[p] < 26,
                forall|j: int| 0 <= j < i ==> path_rev@[#[trigger] path_fwd@[j] as int] == j,
            decreases 26 - i,
        {
            let fwd = path_fwd[i];
            path_rev[fwd as usize] = i as u8;
            i = i + 1;
        }
        let rotor = Self { path_fwd, path_rev, offset, notches: notch_positions };
        proof {
            lemma_inverse_unique(path_fwd@, path_rev@);
            assert(rotor@.notches =~= notch_set(notches@));
        }
        rotor
    }

    /// Turns the rotor to a letter, of either case.
    pub fn set(&mut self, setting: char)
        requires
            old(self).wf(),
            is_letter(setting),
        ensures
            final(self).wf(),
            final(self)@ == old(self)@.turned_to(position_of(setting)),
    {
        self.offset = to_position(setting);
    }

    /// Turns the rotor one position further and tells whether it carries:
    /// whether the position it stepped off is a notch.
    pub fn step(&mut self) -> (carry: bool)
        requires
            old(self).wf(),
        ensures
            final(self).wf(),
            final(self)@ == old(self)@.stepped(),
            carry == old(self)@.carries(),
    {
        let carry = self.notches.contains(&self.offset);
        self.offset = (self.offset + 1) % 26;
        carry
    }

    /// The letter that a lower-case letter leaves the rotor as on the way to
    /// the reflector.
    pub fn translate_forward(&self, input: char) -> (r: char)
        requires
            self.wf(),
            is_lower(input),
        ensures
            r == self@.translate_forward_char(input),
            is_lower(r),
    {
        let input_val: u8 = to_position(input);
        to_letter(lookup_shifted(&self.path_fwd, self.offset, input_val))
    }

    /// The letter that a lower-case letter leaves the rotor as on the way back.
    pub fn translate_reverse(&self, input: char) -> (r: char)
        requires
            self.wf(),
            is_lower(input),
        ensures
            r == self@.translate_reverse_char(input),
            is_lower(r),
    {
        let input_val: u8 = to_position(input);
        to_letter(lookup_shifted(&self.path_rev, self.offset, input_val))
    }

    /// The rotor as text: the letter it is turned to.
    pub fn to_string(&self) -> (display: String)
        requires
            self.wf(),
        ensures
            display@ == self@.rendering(),
    {
        let mut display = String::new();
        push_char(&mut display, to_letter(self.offset));
        display
    }

    /// Rotor I, at offset 0, with its notch at Q.
    #[allow(non_snake_case)]
    pub fn new_I() -> (rotor: Self)
        ensures
            rotor.wf(),
            rotor@ == RotorView::i(),
    {
        proof {
            reveal_strlit("EKMFLGDQVZNTOWYHXUSPAIBRCJ");
            reveal_strlit("Q");
        }
        Self::new("EKMFLGDQVZNTOWYHXUSPAIBRCJ", 'a', "Q")
    }

    /// Rotor II, at offset 0, with its notch at E.
    #[allow(non_snake_case)]
    pub fn new_II() -> (rotor: Self)
        ensures
            rotor.wf(),
            rotor@ == RotorView::ii(),
    {
        proof {
            reveal_strlit("AJDKSIRUXBLHWTMCQGZNPYFVOE");
            reveal_strlit("E");
        }
        Self::new("AJDKSIRUXBLHWTMCQGZNPYFVOE", 'a', "E")
    }

    /// Rotor III, at offset 0, with its notch at V.
    #[allow(non_snake_case)]
    pub fn new_III() -> (rotor: Self)
        ensures
            rotor.wf(),
            rotor@ == RotorView::iii(),
    {
        proof {
            reveal_strlit("BDFHJLCPRTXVZNYEIWGAKMUSQO");
            reveal_strlit("V");
        }
        Self::new("BDFHJLCPRTXVZNYEIWGAKMUSQO", 'a', "V")
    }

    /// Rotor IV, at offset 0, with its notch at J.
    #[allow(non_snake_case)]
    pub fn new_IV() -> (rotor: Self)
        ensures
            rotor.wf(),
            rotor@ == RotorView::iv(),
    {
        proof {
            reveal_strlit("ESOVPZJAYQUIRHXLNFTGKDCMWB");
            reveal_strlit("J");
        }
        Self::new("ESOVPZJAYQUIRHXLNFTGKDCMWB", 'a', "J")
    }

    /// Rotor V, at offset 0, with its notch at Z.
    #[allow(non_snake_case)]
    pub fn new_V() -> (rotor: Self)
        ensures
            rotor.wf(),
            rotor@ == RotorView::v(),
    {
        proof {
            reveal_strlit("VZBRGITYUPSDNHLXAWMJQOFECK");
            reveal_strlit("Z");
        }
        Self::new("VZBRGITYUPSDNHLXAWMJQOFECK", 'a', "Z")
    }

    /// Rotor VI, at offset 0, with notches at Z and M.
    #[allow(non_snake_case)]
    pub fn new_VI() -> (rotor: Self)
        ensures
            rotor.wf(),
            rotor@ == RotorView::vi(),
    {
        proof {
            reveal_strlit("JPGVOUMFYQBENHZRDKASXLICTW");
            reveal_strlit("ZM");
        }
        Self::new("JPGVOUMFYQBENHZRDKASXLICTW", 'a', "ZM")
    }

    /// Rotor VII, at offset 0, with notches at Z and M.
    #[allow(non_snake_case)]
    pub fn new_VII() -> (rotor: Self)
        ensures
            rotor.wf(),
            rotor@ == RotorView::vii(),
    {
        proof {
            reveal_strlit("NZJHGRCXMYSWBOUFAIVLPEKQDT");
            reveal_strlit("ZM");
        }
        Self::new("NZJHGRCXMYSWBOUFAIVLPEKQDT", 'a', "ZM")
    }

    /// Rotor VIII, at offset 0, with notches at Z and M.
    #[allow(non_snake_case)]
    pub fn new_VIII() -> (rotor: Self)
        ensures
            rotor.wf(),
            rotor@ == RotorView::viii(),
    {
        proof {
            reveal_strlit("FKQHTLXOCBJSPDZRAMEWNIUYGV");
            reveal_strlit("ZM");
        }
        Self::new("FKQHTLXOCBJSPDZRAMEWNIUYGV", 'a', "ZM")
    }

    /// `lhs - rhs` on the alphabet's circle, for operands at most one turn apart.
    pub fn wrap_26_sub(lhs: u8, rhs: u8) -> (r: u8)
        requires
            rhs - lhs <= 26,
        ensures
            r == wrap_sub(lhs as int, rhs as int),
    {
        wiring::wrap_26_sub(lhs, rhs)
    }
}

} // verus!
