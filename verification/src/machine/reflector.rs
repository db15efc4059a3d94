//! The reflector: a fixed pairing of the letters that turns the signal back
//! into the rotor stack.

use vstd::prelude::*;
use crate::machine::alphabet::{
    all_letters, is_letter, is_lower, letter_at, lowercase, position_of, positions_of, to_letter,
    to_position,
};
use crate::machine::text::{chars_of, push_char};
use crate::machine::wiring;
use crate::machine::wiring::{
    is_involution, lemma_shift_translate_in_range, lemma_shift_translate_inverse,
    lookup_shifted, shift_translate, table_of, wrap_sub,
};

verus! {

/// A reflector as its wiring table and the offset it is turned by.
pub struct ReflectorView {
    /// For each position, the position it is paired with.
    pub wiring: Seq<u8>,
    /// How far the reflector is turned.
    pub offset: int,
}

impl ReflectorView {
    /// The wiring pairs the positions, and the offset is a position.
    pub open spec fn wf(self) -> bool {
        &&& is_involution(self.wiring)
        &&& 0 <= self.offset < 26
    }

    /// The reflector that `configuration` spells out, turned to the letter `setting`.
    pub open spec fn of(configuration: Seq<char>, setting: char) -> ReflectorView {
        ReflectorView { wiring: positions_of(configuration), offset: position_of(setting) }
    }

    /// Reflector A at offset 0.
    pub open spec fn a() -> ReflectorView {
        Self::of("EJMZALYXVBWFCRQUONTSPIKHGD"@, 'a')
    }

    /// Reflector B at offset 0.
    pub open spec fn b() -> ReflectorView {
        Self::of("YRUHQSLDPXNGOKMIEBFZCWVJAT"@, 'a')
    }

    /// Reflector C at offset 0.
    pub open spec fn c() -> ReflectorView {
        Self::of("FVPJIAOYEDRZXWGCTKUQSBNMHL"@, 'a')
    }

    /// The position that the reflector sends `p` back as.
    pub open spec fn translate(self, p: int) -> int {
        shift_translate(self.wiring, self.offset, p)
    }

    /// The letter that the reflector sends the letter `c` back as.
    pub open spec fn translate_char(self, c: char) -> char {
        letter_at(self.translate(position_of(c)))
    }

    /// The reflector as text: the letter it is turned to.
    pub open spec fn rendering(self) -> Seq<char> {
        seq![letter_at(self.offset)]
    }

    /// The same reflector turned to `offset`.
    pub open spec fn turned_to(self, offset: int) -> ReflectorView {
        ReflectorView { offset, ..self }
    }

    /// The three named reflectors are well formed and stand at offset 0.
    pub proof fn lemma_named_reflectors()
        ensures
            Self::a().wf() && Self::a().offset == 0,
            Self::b().wf() && Self::b().offset == 0,
            Self::c().wf() && Self::c().offset == 0,
    {
        assert(Self::a().wf()) by {
            reveal_strlit("EJMZALYXVBWFCRQUONTSPIKHGD");
        }
        assert(Self::b().wf()) by {
            reveal_strlit("YRUHQSLDPXNGOKMIEBFZCWVJAT");
        }
        assert(Self::c().wf()) by {
            reveal_strlit("FVPJIAOYEDRZXWGCTKUQSBNMHL");
        }
    }

    /// At any one offset, reflecting a position twice gives the position back.
    pub proof fn lemma_translate_involution(self, p: int)
        requires
            self.wf(),
            0 <= p < 26,
        ensures
            0 <= self.translate(p) < 26,
            self.translate(self.translate(p)) == p,
    {
        lemma_shift_translate_in_range(self.wiring, self.offset, p);
        lemma_shift_translate_inverse(self.wiring, self.wiring, self.offset, p);
    }

    /// At any one offset, reflecting a letter twice gives the letter back, in lower case.
    pub proof fn lemma_translate_char_involution(self, c: char)
        requires
            self.wf(),
            is_letter(c),
        ensures
            is_lower(self.translate_char(c)),
            self.translate_char(self.translate_char(c)) == lowercase(c),
    {
        self.lemma_translate_involution(position_of(c));
    }
}

/// The reflector of the machine.
pub struct Reflector {
    /// For each position, the position it is paired with.
    configuration: [u8; 26],
    /// How far the reflector is turned, always below 26.
    offset: u8,
}

impl View for Reflector {
    type V = ReflectorView;

    closed spec fn view(&self) -> ReflectorView {
        ReflectorView { wiring: self.configuration@, offset: self.offset as int }
    }
}

impl Clone for Reflector {
    fn clone(&self) -> (r: Self)
        ensures
            r == *self,
    {
        Reflector { configuration: self.configuration, offset: self.offset }
    }
}

impl Reflector {
    /// The wiring pairs the letters and the offset is a position.
    pub open spec fn wf(&self) -> bool {
        self@.wf()
    }

    /// A reflector wired as `configuration` spells out, turned to the letter `setting`.
    ///
    /// The configuration names, for each letter of the alphabet in turn, the
    /// letter it is paired with; case does not matter.
    pub fn new(configuration: &str, setting: char) -> (reflector: Self)
        requires
            configuration@.len() == 26,
            all_letters(configuration@),
            is_involution(positions_of(configuration@)),
            is_letter(setting),
        ensures
            reflector.wf(),
            reflector@ == ReflectorView::of(configuration@, setting),
    {
        let letters = chars_of(configuration);
        let configuration: [u8; 26] = table_of(&letters);
        let offset: u8 = to_position(setting);
        Self { configuration, offset }
    }

    /// The letter that the reflector sends a lower-case letter back as.
    pub fn translate(&self, input: char) -> (r: char)
        requires
            self.wf(),
            is_lower(input),
        ensures
            r == self@.translate_char(input),
            is_lower(r),
    {
        let input_val: u8 = to_position(input);
        to_letter(lookup_shifted(&self.configuration, self.offset, input_val))
    }

    /// Turns the reflector to a letter, of either case.
    pub fn set(&mut self, setting: char)
        requires
            old(self).wf(),
            is_letter(setting),
        ensures
            final(self).wf(),
            final(self)@ == old(self)@.turned_to(position_of(setting)),
    {
        self.offset = to_position(setting);
    }

    /// The reflector as text: the letter it is turned to.
    pub fn to_string(&self) -> (display: String)
        requires
            self.wf(),
        ensures
            display@ == self@.rendering(),
    {
        let mut display = String::new();
        push_char(&mut display, to_letter(self.offset));
        display
    }

    /// Reflector A, at offset 0.
    #[allow(non_snake_case)]
    pub fn new_A() -> (reflector: Self)
        ensures
            reflector.wf(),
            reflector@ == ReflectorView::a(),
    {
        proof {
            reveal_strlit("EJMZALYXVBWFCRQUONTSPIKHGD");
        }
        Self::new("EJMZALYXVBWFCRQUONTSPIKHGD", 'a')
    }

    /// Reflector B, at offset 0.
    #[allow(non_snake_case)]
    pub fn new_B() -> (reflector: Self)
        ensures
            reflector.wf(),
            reflector@ == ReflectorView::b(),
    {
        proof {
            reveal_strlit("YRUHQSLDPXNGOKMIEBFZCWVJAT");
        }
        Self::new("YRUHQSLDPXNGOKMIEBFZCWVJAT", 'a')
    }

    /// Reflector C, at offset 0.
    #[allow(non_snake_case)]
    pub fn new_C() -> (reflector: Self)
        ensures
            reflector.wf(),
            reflector@ == ReflectorView::c(),
    {
        proof {
            reveal_strlit("FVPJIAOYEDRZXWGCTKUQSBNMHL");
        }
        Self::new("FVPJIAOYEDRZXWGCTKUQSBNMHL", 'a')
    }

    /// `lhs - rhs` on the alphabet's circle, for operands at most one turn apart.
    pub fn wrap_26_sub(lhs: u8, rhs: u8) -> (r: u8)
        requires
            rhs - lhs <= 26,
        ensures
            r == wrap_sub(lhs as int, rhs as int),
    {
        wiring::wrap_26_sub(lhs, rhs)
    }
}

} // verus!
