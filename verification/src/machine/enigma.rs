//! The machine: three rotors, a plugboard and a reflector, the path of a
//! letter through them, and the stepping of the rotors from letter to letter.

use vstd::prelude::*;
use vstd::string::StringExecFns;
use crate::machine::alphabet::{
    is_ascii_letter, is_letter, is_lower, letter_at, lowercase, normalize, position_of,
    to_lowercase,
};
use crate::machine::plugboard::{Plugboard, PlugboardView};
use crate::machine::reflector::{Reflector, ReflectorView};
use crate::machine::rotor::{Rotor, RotorView};
use crate::machine::text::{
    chars_of, decimal, decimal_of, pieces, push_char, same_text, split, string_of, texts_of, trim,
    trimmed,
};

verus! {

/// The machine as its three rotors, in the order in which a letter enters
/// them, its plugboard and its reflector.
pub struct EnigmaView {
    /// The rotors: a letter enters the first one first, and the last one
    /// steps with every letter.
    pub rotors: Seq<RotorView>,
    /// The plugboard.
    pub plugboard: PlugboardView,
    /// The reflector.
    pub reflector: ReflectorView,
}

impl EnigmaView {
    /// There are three rotors, and every part is well formed.
    pub open spec fn wf(self) -> bool {
        &&& self.rotors.len() == 3
        &&& self.rotors[0].wf()
        &&& self.rotors[1].wf()
        &&& self.rotors[2].wf()
        &&& self.plugboard.wf()
        &&& self.reflector.wf()
    }

    /// Rotors I, II and III at offset 0, reflector A at offset 0, no wire
    /// plugged in.
    pub open spec fn initial() -> EnigmaView {
        EnigmaView {
            rotors: seq![RotorView::i(), RotorView::ii(), RotorView::iii()],
            plugboard: PlugboardView::empty(),
            reflector: ReflectorView::a(),
        }
    }

    /// The machine with `rotor` in place of the rotor in `slot`.
    pub open spec fn with_rotor(self, slot: int, rotor: RotorView) -> EnigmaView {
        EnigmaView { rotors: self.rotors.update(slot, rotor), ..self }
    }

    /// The machine with `reflector` in place of its reflector.
    pub open spec fn with_reflector(self, reflector: ReflectorView) -> EnigmaView {
        EnigmaView { reflector, ..self }
    }

    /// The machine with `plugboard` in place of its plugboard.
    pub open spec fn with_plugboard(self, plugboard: PlugboardView) -> EnigmaView {
        EnigmaView { plugboard, ..self }
    }

    /// The machine with its first rotors turned to the first letters of
    /// `setting`, one rotor per letter, up to three.
    pub open spec fn with_rotor_positions(self, setting: Seq<char>) -> EnigmaView {
        EnigmaView {
            rotors: Seq::new(
                3,
                |i: int|
                    if i < setting.len() {
                        self.rotors[i].turned_to(position_of(setting[i]))
                    } else {
                        self.rotors[i]
                    },
            ),
            ..self
        }
    }

    /// The machine with its reflector turned to the first letter of
    /// `setting`, or as it is where `setting` is empty.
    pub open spec fn with_reflector_position(self, setting: Seq<char>) -> EnigmaView {
        if setting.len() > 0 {
            self.with_reflector(self.reflector.turned_to(position_of(setting[0])))
        } else {
            self
        }
    }

    /// The machine as text: the letter each rotor is turned to, the letter
    /// the reflector is turned to, and the wires of the plugboard.
    pub open spec fn rendering(self) -> Seq<char> {
        "Rotor Configuration:\n\tRotor 1:"@ + self.rotors[0].rendering() + "\n\tRotor 2:"@
            + self.rotors[1].rendering() + "\n\tRotor 3:"@ + self.rotors[2].rendering()
            + "\nReflector Configuration:\n\t"@ + self.reflector.rendering()
            + "\nPlugboard Configuration:\n\t"@ + self.plugboard.rendering() + "\n"@
    }

    /// The position that `p` comes out as: through the plugboard, forward
    /// through the three rotors, through the reflector, back through the
    /// rotors in the opposite order, and through the plugboard again.
    pub open spec fn signal(self, p: int) -> int {
        let plugged = self.plugboard.translate(p);
        let first = self.rotors[0].translate_forward(plugged);
        let second = self.rotors[1].translate_forward(first);
        let third = self.rotors[2].translate_forward(second);
        let turned = self.reflector.translate(third);
        let third_back = self.rotors[2].translate_reverse(turned);
        let second_back = self.rotors[1].translate_reverse(third_back);
        let first_back = self.rotors[0].translate_reverse(second_back);
        self.plugboard.translate(first_back)
    }

    /// The machine after the stepping that follows one letter: the last rotor
    /// steps; if it carries, the middle rotor steps; if that carries too, the
    /// first rotor steps.
    pub open spec fn advanced(self) -> EnigmaView {
        let middle_steps = self.rotors[2].carries();
        let first_steps = middle_steps && self.rotors[1].carries();
        EnigmaView {
            rotors: seq![
                if first_steps {
                    self.rotors[0].stepped()
                } else {
                    self.rotors[0]
                },
                if middle_steps {
                    self.rotors[1].stepped()
                } else {
                    self.rotors[1]
                },
                self.rotors[2].stepped(),
            ],
            ..self
        }
    }

    /// The machine after the stepping that follows `n` letters.
    pub open spec fn advanced_by(self, n: nat) -> EnigmaView
        decreases n,
    {
        if n == 0 {
            self
        } else {
            self.advanced_by((n - 1) as nat).advanced()
        }
    }

    /// What one character comes out as, and the machine after it. A letter of
    /// either case comes out as the lower-case letter that the signal path
    /// gives, and the rotors step. Any other character comes out as it is, and
    /// nothing moves.
    pub open spec fn encipher_char(self, c: char) -> (char, EnigmaView) {
        if is_letter(c) {
            (letter_at(self.signal(position_of(c))), self.advanced())
        } else {
            (c, self)
        }
    }

    /// What a text comes out as, character by character from the left, and
    /// the machine after it.
    pub open spec fn encipher(self, text: Seq<char>) -> (Seq<char>, EnigmaView)
        decreases text.len(),
    {
        if text.len() == 0 {
            (Seq::empty(), self)
        } else {
            let (head, machine) = self.encipher(text.drop_last());
            let (c, next) = machine.encipher_char(text.last());
            (head.push(c), next)
        }
    }
}

/// How many characters of a text are letters.
pub open spec fn letter_count(text: Seq<char>) -> nat
    decreases text.len(),
{
    if text.len() == 0 {
        0
    } else if is_letter(text.last()) {
        letter_count(text.drop_last()) + 1
    } else {
        letter_count(text.drop_last())
    }
}

impl EnigmaView {
    /// The machine of rotors I, II and III and reflector A is well formed.
    pub proof fn lemma_initial_wf()
        ensures
            Self::initial().wf(),
    {
        RotorView::lemma_named_rotors();
        ReflectorView::lemma_named_reflectors();
    }

    /// The signal path leads a position to a position, and is its own
    /// inverse: what comes out goes back in as what went in.
    pub proof fn lemma_signal_involution(self, p: int)
        requires
            self.wf(),
            0 <= p < 26,
        ensures
            0 <= self.signal(p) < 26,
            self.signal(self.signal(p)) == p,
    {
        let plugged = self.plugboard.translate(p);
        self.plugboard.lemma_translate_involution(p);
        let first = self.rotors[0].translate_forward(plugged);
        self.rotors[0].lemma_reverse_undoes_forward(plugged);
        let second = self.rotors[1].translate_forward(first);
        self.rotors[1].lemma_reverse_undoes_forward(first);
        let third = self.rotors[2].translate_forward(second);
        self.rotors[2].lemma_reverse_undoes_forward(second);
        let turned = self.reflector.translate(third);
        self.reflector.lemma_translate_involution(third);
        let third_back = self.rotors[2].translate_reverse(turned);
        self.rotors[2].lemma_forward_undoes_reverse(turned);
        let second_back = self.rotors[1].translate_reverse(third_back);
        self.rotors[1].lemma_forward_undoes_reverse(third_back);
        let first_back = self.rotors[0].translate_reverse(second_back);
        self.rotors[0].lemma_forward_undoes_reverse(second_back);
        let out = self.plugboard.translate(first_back);
        self.plugboard.lemma_translate_involution(first_back);
        assert(out == self.signal(p));
        assert(self.plugboard.translate(out) == first_back);
        assert(self.rotors[0].translate_forward(first_back) == second_back);
        assert(self.rotors[1].translate_forward(second_back) == third_back);
        assert(self.rotors[2].translate_forward(third_back) == turned);
        assert(self.reflector.translate(turned) == third);
        assert(self.rotors[2].translate_reverse(third) == second);
        assert(self.rotors[1].translate_reverse(second) == first);
        assert(self.rotors[0].translate_reverse(first) == plugged);
    }

    /// Stepping leaves the machine well formed and touches only the offsets
    /// of the rotors.
    pub proof fn lemma_advanced_wf(self)
        requires
            self.wf(),
        ensures
            self.advanced().wf(),
            self.advanced().plugboard == self.plugboard,
            self.advanced().reflector == self.reflector,
            forall|i: int|
                0 <= i < 3 ==> (#[trigger] self.advanced().rotors[i]).turned_to(
                    self.rotors[i].offset,
                ) == self.rotors[i],
    {
    }

    /// Enciphering leaves the machine well formed, and gives one character
    /// for each character of the text.
    pub proof fn lemma_encipher_wf(self, text: Seq<char>)
        requires
            self.wf(),
        ensures
            self.encipher(text).1.wf(),
            self.encipher(text).0.len() == text.len(),
        decreases text.len(),
    {
        if text.len() > 0 {
            self.lemma_encipher_wf(text.drop_last());
            self.encipher(text.drop_last()).1.lemma_advanced_wf();
        }
    }

    /// Each character of the output depends on the text up to that character
    /// only: the output of a prefix is a prefix of the output.
    pub proof fn lemma_encipher_prefix(self, text: Seq<char>, n: int)
        requires
            0 <= n <= text.len(),
        ensures
            self.encipher(text.take(n)).0 == self.encipher(text).0.take(n),
            self.encipher(text).0.len() == text.len(),
        decreases text.len(),
    {
        if text.len() == 0 {
            assert(text.take(n) =~= text);
            assert(self.encipher(text).0.take(n) =~= self.encipher(text).0);
        } else if n == text.len() {
            self.lemma_encipher_prefix(text.drop_last(), n - 1);
            assert(text.take(n) =~= text);
            assert(self.encipher(text).0.take(n) =~= self.encipher(text).0);
        } else {
            self.lemma_encipher_prefix(text.drop_last(), n);
            assert(text.drop_last().take(n) =~= text.take(n));
            assert(self.encipher(text).0.take(n) =~= self.encipher(text.drop_last()).0.take(n));
        }
    }

    /// A character that is no letter comes out unchanged and in the same
    /// place; a letter comes out as a lower-case letter. The rotors move once
    /// for each letter of the text and not at all for any other character.
    pub proof fn lemma_passthrough(self, text: Seq<char>, i: int)
        requires
            self.wf(),
            0 <= i < text.len(),
        ensures
            self.encipher(text).0.len() == text.len(),
            !is_letter(text[i]) ==> self.encipher(text).0[i] == text[i],
            is_letter(text[i]) ==> is_lower(self.encipher(text).0[i]),
            self.encipher(text).1 == self.advanced_by(letter_count(text)),
        decreases text.len(),
    {
        let init = text.drop_last();
        self.lemma_encipher_wf(init);
        if i < text.len() - 1 {
            self.lemma_passthrough(init, i);
        } else {
            self.lemma_steps_with_letters(init);
            if is_letter(text.last()) {
                self.encipher(init).1.lemma_signal_involution(position_of(text.last()));
            }
        }
    }

    /// After a text the rotors have moved once for each of its letters.
    pub proof fn lemma_steps_with_letters(self, text: Seq<char>)
        ensures
            self.encipher(text).1 == self.advanced_by(letter_count(text)),
        decreases text.len(),
    {
        if text.len() > 0 {
            self.lemma_steps_with_letters(text.drop_last());
        }
    }

    /// Character `i` of the output is what the machine makes of character
    /// `i` of the text once it has stepped for each letter before it.
    pub proof fn lemma_encipher_at(self, text: Seq<char>, i: int)
        requires
            0 <= i < text.len(),
        ensures
            self.encipher(text).0.len() == text.len(),
            self.encipher(text).0[i] == self.advanced_by(
                letter_count(text.take(i)),
            ).encipher_char(text[i]).0,
    {
        let upto = text.take(i + 1);
        let before = text.take(i);
        self.lemma_encipher_prefix(text, i + 1);
        assert(upto.drop_last() =~= before);
        assert(upto.last() == text[i]);
        self.lemma_steps_with_letters(before);
        self.lemma_encipher_prefix(before, i);
        let (head, machine) = self.encipher(before);
        assert(self.encipher(upto).0 == head.push(machine.encipher_char(text[i]).0));
        assert(head.len() == i);
        assert(self.encipher(text).0.take(i + 1)[i] == self.encipher(text).0[i]);
    }

    /// Two machines set up alike undo each other: what one makes of a text,
    /// the other turns back into the text, its letters in lower case and
    /// every other character as it was. Both end with their rotors in the
    /// same places.
    pub proof fn lemma_reciprocity(encoder: EnigmaView, decoder: EnigmaView, text: Seq<char>)
        requires
            encoder.wf(),
            decoder == encoder,
        ensures
            decoder.encipher(encoder.encipher(text).0).0 == normalize(text),
            decoder.encipher(encoder.encipher(text).0).1 == encoder.encipher(text).1,
        decreases text.len(),
    {
        let cipher = encoder.encipher(text).0;
        if text.len() == 0 {
            assert(decoder.encipher(cipher).0 =~= normalize(text));
        } else {
            let init = text.drop_last();
            let c = text.last();
            let (head, machine) = encoder.encipher(init);
            Self::lemma_reciprocity(encoder, decoder, init);
            encoder.lemma_encipher_wf(init);
            let (out, next) = machine.encipher_char(c);
            assert(cipher == head.push(out));
            assert(cipher.drop_last() =~= head);
            assert(cipher.last() == out);
            if is_letter(c) {
                machine.lemma_signal_involution(position_of(c));
            }
            assert(machine.encipher_char(out) == (lowercase(c), next));
            assert(decoder.encipher(cipher).0 =~= normalize(text)) by {
                assert(normalize(init).push(lowercase(c)) =~= normalize(text));
            }
        }
    }
}

/// Why the machine refused a setting.
#[derive(Debug)]
pub enum EnigmaError {
    /// No rotor has the name given.
    InvalidRotor(String),
    /// The machine has no slot of the number given: the slots are 0, 1 and 2.
    RotorSlotOutOfRange(String),
    /// No reflector has the name given.
    InvalidReflector(String),
    /// The text given is not a wire: a letter, a hyphen and a letter.
    InvalidPlugboardWire(String),
    /// One end of the wire already has a wire.
    PlugboardWireOverlap(String),
    /// No wire is plugged in at the character given.
    PlugboardWireRemoveFailure(String),
}

/// An `EnigmaError` with its text as a sequence of characters.
pub enum EnigmaErrorView {
    /// No rotor has the name given.
    InvalidRotor(Seq<char>),
    /// The machine has no slot of the number given.
    RotorSlotOutOfRange(Seq<char>),
    /// No reflector has the name given.
    InvalidReflector(Seq<char>),
    /// The text given is not a wire.
    InvalidPlugboardWire(Seq<char>),
    /// One end of the wire already has a wire.
    PlugboardWireOverlap(Seq<char>),
    /// No wire is plugged in at the character given.
    PlugboardWireRemoveFailure(Seq<char>),
}

impl EnigmaErrorView {
    /// The error as a line of text: what went wrong, a colon, and the
    /// error's own text.
    pub open spec fn message(self) -> Seq<char> {
        match self {
            EnigmaErrorView::InvalidRotor(s) => "Invalid Rotor: "@ + s,
            EnigmaErrorView::RotorSlotOutOfRange(s) => "Rotor Slot Out Of Range: "@ + s,
            EnigmaErrorView::InvalidReflector(s) => "Invalid Reflector: "@ + s,
            EnigmaErrorView::InvalidPlugboardWire(s) => "Invalid Plugboard Wire: "@ + s,
            EnigmaErrorView::PlugboardWireOverlap(s) => "Plugboard Wire Overlap: "@ + s,
            EnigmaErrorView::PlugboardWireRemoveFailure(s) => "Plugboard Wire Removal Failure: "@
                + s,
        }
    }
}

impl View for EnigmaError {
    type V = EnigmaErrorView;

    open spec fn view(&self) -> EnigmaErrorView {
        match self {
            EnigmaError::InvalidRotor(s) => EnigmaErrorView::InvalidRotor(s@),
            EnigmaError::RotorSlotOutOfRange(s) => EnigmaErrorView::RotorSlotOutOfRange(s@),
            EnigmaError::InvalidReflector(s) => EnigmaErrorView::InvalidReflector(s@),
            EnigmaError::InvalidPlugboardWire(s) => EnigmaErrorView::InvalidPlugboardWire(s@),
            EnigmaError::PlugboardWireOverlap(s) => EnigmaErrorView::PlugboardWireOverlap(s@),
            EnigmaError::PlugboardWireRemoveFailure(s) => {
                EnigmaErrorView::PlugboardWireRemoveFailure(s@)
            },
        }
    }
}

impl EnigmaError {
    /// The error as a line of text.
    pub fn to_string(&self) -> (line: String)
        ensures
            line@ == self@.message(),
    {
        match self {
            EnigmaError::InvalidRotor(s) => {
                let mut line = String::from_str("Invalid Rotor: ");
                line.append(s.as_str());
                line
            },
            EnigmaError::RotorSlotOutOfRange(s) => {
                let mut line = String::from_str("Rotor Slot Out Of Range: ");
                line.append(s.as_str());
                line
            },
            EnigmaError::InvalidReflector(s) => {
                let mut line = String::from_str("Invalid Reflector: ");
                line.append(s.as_str());
                line
            },
            EnigmaError::InvalidPlugboardWire(s) => {
                let mut line = String::from_str("Invalid Plugboard Wire: ");
                line.append(s.as_str());
                line
            },
            EnigmaError::PlugboardWireOverlap(s) => {
                let mut line = String::from_str("Plugboard Wire Overlap: ");
                line.append(s.as_str());
                line
            },
            EnigmaError::PlugboardWireRemoveFailure(s) => {
                let mut line = String::from_str("Plugboard Wire Removal Failure: ");
                line.append(s.as_str());
                line
            },
        }
    }
}

/// What a call that may refuse came to, with the error's text as a sequence
/// of characters.
pub open spec fn outcome_of(r: Result<(), EnigmaError>) -> Result<(), EnigmaErrorView> {
    match r {
        Ok(_) => Ok(()),
        Err(e) => Err(e@),
    }
}

/// The rotor that goes by `name`, at offset 0: one of `I` to `VIII`.
pub open spec fn rotor_named(name: Seq<char>) -> Option<RotorView> {
    if name == "I"@ {
        Some(RotorView::i())
    } else if name == "II"@ {
        Some(RotorView::ii())
    } else if name == "III"@ {
        Some(RotorView::iii())
    } else if name == "IV"@ {
        Some(RotorView::iv())
    } else if name == "V"@ {
        Some(RotorView::v())
    } else if name == "VI"@ {
        Some(RotorView::vi())
    } else if name == "VII"@ {
        Some(RotorView::vii())
    } else if name == "VIII"@ {
        Some(RotorView::viii())
    } else {
        None
    }
}

/// The reflector that goes by `name`, at offset 0: one of `A`, `B` and `C`,
/// in either case.
pub open spec fn reflector_named(name: Seq<char>) -> Option<ReflectorView> {
    if name == "a"@ || name == "A"@ {
        Some(ReflectorView::a())
    } else if name == "b"@ || name == "B"@ {
        Some(ReflectorView::b())
    } else if name == "c"@ || name == "C"@ {
        Some(ReflectorView::c())
    } else {
        None
    }
}

/// The text names a wire: a letter, a hyphen, a letter, and nothing else.
pub open spec fn is_wire_token(token: Seq<char>) -> bool {
    &&& token.len() == 3
    &&& is_letter(token[0])
    &&& token[1] == '-'
    &&& is_letter(token[2])
}

/// Plugging in the wire that `token` names: the board afterwards, and what
/// the attempt came to. A text that names no wire is refused; so is a wire
/// with an end that already has one. A refusal leaves the board as it was.
pub open spec fn plug_token(board: PlugboardView, token: Seq<char>) -> (
    PlugboardView,
    Result<(), EnigmaErrorView>,
) {
    if !is_wire_token(token) {
        (board, Err(EnigmaErrorView::InvalidPlugboardWire(token)))
    } else {
        let a = position_of(token[0]);
        let b = position_of(token[2]);
        if board.is_free(a) && board.is_free(b) {
            (board.connect(a, b), Ok(()))
        } else {
            (
                board,
                Err(
                    EnigmaErrorView::PlugboardWireOverlap(
                        "Couldn't add wire due to overlap "@ + token,
                    ),
                ),
            )
        }
    }
}

/// Plugging in the wires that the tokens name, each trimmed of white space,
/// from the first on and up to the first that is refused. The wires before
/// that one stay plugged in.
pub open spec fn plug_tokens(board: PlugboardView, tokens: Seq<Seq<char>>) -> (
    PlugboardView,
    Result<(), EnigmaErrorView>,
)
    decreases tokens.len(),
{
    if tokens.len() == 0 {
        (board, Ok(()))
    } else {
        let (next, r) = plug_token(board, trimmed(tokens[0]));
        if r is Err {
            (next, r)
        } else {
            plug_tokens(next, tokens.drop_first())
        }
    }
}

/// Pulling the wire that is plugged in at the character `c`: the board
/// afterwards, and what the attempt came to. It is refused where `c` is no
/// letter or has no wire, and the board then stays as it was.
pub open spec fn unplug_letter(board: PlugboardView, c: char) -> (
    PlugboardView,
    Result<(), EnigmaErrorView>,
) {
    if is_letter(c) && !board.is_free(position_of(c)) {
        (board.disconnect(position_of(c), board.translate(position_of(c))), Ok(()))
    } else {
        (
            board,
            Err(EnigmaErrorView::PlugboardWireRemoveFailure("Couldn't remove "@.push(c))),
        )
    }
}

/// Pulling the wires at the first character of each token, trimmed of white
/// space, from the first token on and up to the first refusal. A token that
/// is empty or all white space is passed over. The wires pulled before a
/// refusal stay pulled.
pub open spec fn unplug_tokens(board: PlugboardView, tokens: Seq<Seq<char>>) -> (
    PlugboardView,
    Result<(), EnigmaErrorView>,
)
    decreases tokens.len(),
{
    if tokens.len() == 0 {
        (board, Ok(()))
    } else {
        let token = trimmed(tokens[0]);
        if token.len() == 0 {
            unplug_tokens(board, tokens.drop_first())
        } else {
            let (next, r) = unplug_letter(board, token[0]);
            if r is Err {
                (next, r)
            } else {
                unplug_tokens(next, tokens.drop_first())
            }
        }
    }
}

/// The text that names the wire between two letters: the first letter, a
/// hyphen, the second letter.
pub open spec fn wire_token(a: char, b: char) -> Seq<char> {
    seq![a, '-', b]
}

/// Once a wire between two different letters is plugged in, a second wire at
/// its first letter is refused as an overlap, whatever its other end, and
/// the board stays as it was.
pub proof fn lemma_second_wire_overlaps(board: PlugboardView, a: char, b: char, c: char)
    requires
        board.wf(),
        is_letter(a),
        is_letter(b),
        is_letter(c),
        position_of(a) != position_of(b),
        plug_token(board, wire_token(a, b)).1 is Ok,
    ensures
        plug_token(plug_token(board, wire_token(a, b)).0, wire_token(a, c)) == (
            plug_token(board, wire_token(a, b)).0,
            Err::<(), EnigmaErrorView>(
                EnigmaErrorView::PlugboardWireOverlap(
                    "Couldn't add wire due to overlap "@ + wire_token(a, c),
                ),
            ),
        ),
{
}

/// Pulling the wire at a letter that has none is refused, and the board
/// stays as it was.
pub proof fn lemma_free_letter_has_no_wire_to_pull(board: PlugboardView, c: char)
    requires
        board.wf(),
        is_letter(c),
        board.is_free(position_of(c)),
    ensures
        unplug_letter(board, c) == (
            board,
            Err::<(), EnigmaErrorView>(
                EnigmaErrorView::PlugboardWireRemoveFailure("Couldn't remove "@.push(c)),
            ),
        ),
{
}

/// A wire that was plugged in can be pulled at either end, and the board is
/// then as it was before.
pub proof fn lemma_plugged_wire_can_be_pulled(board: PlugboardView, a: char, b: char)
    requires
        board.wf(),
        is_letter(a),
        is_letter(b),
        position_of(a) != position_of(b),
        plug_token(board, wire_token(a, b)).1 is Ok,
    ensures
        unplug_letter(plug_token(board, wire_token(a, b)).0, a) == (
            board,
            Ok::<(), EnigmaErrorView>(()),
        ),
        unplug_letter(plug_token(board, wire_token(a, b)).0, b) == (
            board,
            Ok::<(), EnigmaErrorView>(()),
        ),
{
    let plugged = plug_token(board, wire_token(a, b)).0;
    let x = position_of(a);
    let y = position_of(b);
    assert(plugged.disconnect(x, y).wiring =~= board.wiring);
    assert(plugged.disconnect(y, x).wiring =~= board.wiring);
}

/// The machine.
pub struct Enigma {
    /// The rotors, in the order in which a letter enters them.
    rotors: [Rotor; 3],
    /// The plugboard.
    plugboard: Plugboard,
    /// The reflector.
    reflector: Reflector,
}

impl View for Enigma {
    type V = EnigmaView;

    closed spec fn view(&self) -> EnigmaView {
        EnigmaView {
            rotors: seq![self.rotors@[0]@, self.rotors@[1]@, self.rotors@[2]@],
            plugboard: self.plugboard@,
            reflector: self.reflector@,
        }
    }
}

impl Clone for Enigma {
    /// A machine with the same parts, set alike.
    fn clone(&self) -> (r: Self)
        ensures
            r@ == self@,
    {
        let rotors = [self.rotors[0].clone(), self.rotors[1].clone(), self.rotors[2].clone()];
        let r = Enigma {
            rotors,
            plugboard: self.plugboard.clone(),
            reflector: self.reflector.clone(),
        };
        assert(r@.rotors =~= self@.rotors);
        r
    }
}

impl Enigma {
    /// Every part of the machine is well formed.
    pub open spec fn wf(&self) -> bool {
        self@.wf()
    }

    /// A machine made of the given parts; a letter enters `r1` first.
    pub fn new(
        r1: Rotor,
        r2: Rotor,
        r3: Rotor,
        plugboard: Plugboard,
        reflector: Reflector,
    ) -> (machine: Self)
        requires
            r1.wf(),
            r2.wf(),
            r3.wf(),
            plugboard.wf(),
            reflector.wf(),
        ensures
            machine.wf(),
            machine@ == (EnigmaView {
                rotors: seq![r1@, r2@, r3@],
                plugboard: plugboard@,
                reflector: reflector@,
            }),
    {
        let rotors: [Rotor; 3] = [r1, r2, r3];
        Self { rotors, plugboard, reflector }
    }

    /// A machine with rotors I, II and III, reflector A, every offset 0 and
    /// no wire plugged in.
    pub fn default() -> (machine: Self)
        ensures
            machine.wf(),
            machine@ == EnigmaView::initial(),
    {
        Self::new(
            Rotor::new_I(),
            Rotor::new_II(),
            Rotor::new_III(),
            Plugboard::new(),
            Reflector::new_A(),
        )
    }

    /// Puts a fresh rotor, at offset 0, into a slot: 0 for the rotor that a
    /// letter enters first, 2 for the one that steps with every letter. The
    /// names are `I` to `VIII`. Any other name is refused, whatever the slot;
    /// a known name is refused for a slot other than 0, 1 and 2. A refusal
    /// changes nothing.
    pub fn choose_rotor(&mut self, rotor: &str, position: u8) -> (r: Result<(), EnigmaError>)
        requires
            old(self).wf(),
        ensures
            final(self).wf(),
            match rotor_named(rotor@) {
                None => outcome_of(r) == Err::<(), EnigmaErrorView>(
                    EnigmaErrorView::InvalidRotor(rotor@),
                ) && final(self)@ == old(self)@,
                Some(chosen) => if position < 3 {
                    r is Ok && final(self)@ == old(self)@.with_rotor(position as int, chosen)
                } else {
                    outcome_of(r) == Err::<(), EnigmaErrorView>(
                        EnigmaErrorView::RotorSlotOutOfRange(decimal(position as nat)),
                    ) && final(self)@ == old(self)@
                },
            },
    {
        let name = chars_of(rotor);
        let chosen = if same_text(&name, "I") {
            Rotor::new_I()
        } else if same_text(&name, "II") {
            Rotor::new_II()
        } else if same_text(&name, "III") {
            Rotor::new_III()
        } else if same_text(&name, "IV") {
            Rotor::new_IV()
        } else if same_text(&name, "V") {
            Rotor::new_V()
        } else if same_text(&name, "VI") {
            Rotor::new_VI()
        } else if same_text(&name, "VII") {
            Rotor::new_VII()
        } else if same_text(&name, "VIII") {
            Rotor::new_VIII()
        } else {
            return Err(EnigmaError::InvalidRotor(rotor.to_owned()));
        };
        if position >= 3 {
            return Err(EnigmaError::RotorSlotOutOfRange(decimal_of(position)));
        }
        self.rotors[position as usize] = chosen;
        assert(self@.rotors =~= old(self)@.rotors.update(position as int, chosen@));
        Ok(())
    }

    /// Puts in a fresh reflector, at offset 0. The names are `A`, `B` and
    /// `C`, in either case; any other name is refused and changes nothing.
    pub fn choose_reflector(&mut self, reflector: &str) -> (r: Result<(), EnigmaError>)
        requires
            old(self).wf(),
        ensures
            final(self).wf(),
            match reflector_named(reflector@) {
                Some(chosen) => r is Ok && final(self)@ == old(self)@.with_reflector(chosen),
                None => outcome_of(r) == Err::<(), EnigmaErrorView>(
                    EnigmaErrorView::InvalidReflector(reflector@),
                ) && final(self)@ == old(self)@,
            },
    {
        let name = chars_of(reflector);
        if same_text(&name, "a") || same_text(&name, "A") {
            self.reflector = Reflector::new_A();
            Ok(())
        } else if same_text(&name, "b") || same_text(&name, "B") {
            self.reflector = Reflector::new_B();
            Ok(())
        } else if same_text(&name, "c") || same_text(&name, "C") {
            self.reflector = Reflector::new_C();
            Ok(())
        } else {
            Err(EnigmaError::InvalidReflector(reflector.to_owned()))
        }
    }

    /// Turns the rotors to the letters of `setting`: the first rotor to the
    /// first letter, and so on. Letters after the third are ignored; with
    /// fewer than three, the remaining rotors stay as they are.
    pub fn set_rotors(&mut self, setting: &str) -> (r: Result<(), EnigmaError>)
        requires
            old(self).wf(),
            forall|i: int| 0 <= i < 3 && i < setting@.len() ==> is_letter(#[trigger] setting@[i]),
        ensures
            final(self).wf(),
            r is Ok,
            final(self)@ == old(self)@.with_rotor_positions(setting@),
    {
        let chars = chars_of(setting);
        let ghost start = self@;
        let mut idx: usize = 0;
        assert(self@.rotors =~= start.with_rotor_positions(chars@.take(0)).rotors);
        while idx < 3 && idx < chars.len()
            invariant
                idx <= 3,
                idx <= chars.len(),
                start.wf(),
                self.wf(),
                forall|i: int| 0 <= i < 3 && i < chars@.len() ==> is_letter(#[trigger] chars@[i]),
                self@ == start.with_rotor_positions(chars@.take(idx as int)),
            decreases 3 - idx,
        {
            self.rotors[idx].set(chars[idx]);
            assert(self@.rotors =~= start.with_rotor_positions(chars@.take(idx + 1)).rotors);
            idx = idx + 1;
        }
        assert(self@.rotors =~= start.with_rotor_positions(chars@).rotors);
        Ok(())
    }

    /// Turns the reflector to the first letter of `setting`; the rest of the
    /// text is ignored, and an empty text changes nothing.
    pub fn set_reflector(&mut self, setting: &str) -> (r: Result<(), EnigmaError>)
        requires
            old(self).wf(),
            setting@.len() > 0 ==> is_letter(setting@[0]),
        ensures
            final(self).wf(),
            r is Ok,
            final(self)@ == old(self)@.with_reflector_position(setting@),
    {
        let chars = chars_of(setting);
        if chars.len() > 0 {
            self.reflector.set(chars[0]);
        }
        Ok(())
    }

    /// Plugs in one wire, given as a letter, a hyphen and a letter, such as
    /// `a-e`. Any other text is refused, and so is a wire with an end that
    /// already has one; a refusal leaves the board as it was.
    pub fn add_plugboard_wire(&mut self, wire: &str) -> (r: Result<(), EnigmaError>)
        requires
            old(self).wf(),
        ensures
            final(self).wf(),
            final(self)@ == old(self)@.with_plugboard(
                plug_token(old(self)@.plugboard, wire@).0,
            ),
            outcome_of(r) == plug_token(old(self)@.plugboard, wire@).1,
    {
        let token = chars_of(wire);
        self.plug(&token)
    }

    /// Plugs in the wire that the token names.
    fn plug(&mut self, token: &Vec<char>) -> (r: Result<(), EnigmaError>)
        requires
            old(self).wf(),
        ensures
            final(self).wf(),
            final(self)@ == old(self)@.with_plugboard(
                plug_token(old(self)@.plugboard, token@).0,
            ),
            outcome_of(r) == plug_token(old(self)@.plugboard, token@).1,
    {
        if token.len() != 3 || !is_ascii_letter(token[0]) || token[1] != '-' || !is_ascii_letter(
            token[2],
        ) {
            return Err(EnigmaError::InvalidPlugboardWire(string_of(token)));
        }
        match self.plugboard.add_wire(token[0], token[2]) {
            Ok(()) => Ok(()),
            Err(_) => {
                let mut text = String::from_str("Couldn't add wire due to overlap ");
                text.append(string_of(token).as_str());
                Err(EnigmaError::PlugboardWireOverlap(text))
            },
        }
    }

    /// Plugs in a list of wires, separated by commas, such as
    /// `a-e,b-d,x-z`; white space round a wire is ignored. The wires are
    /// plugged in from the first on. The first one that is refused ends the
    /// call with its error, and the wires before it stay plugged in.
    pub fn add_plugboard_wires(&mut self, wires: &str) -> (r: Result<(), EnigmaError>)
        requires
            old(self).wf(),
        ensures
            final(self).wf(),
            final(self)@ == old(self)@.with_plugboard(
                plug_tokens(old(self)@.plugboard, pieces(wires@, ',')).0,
            ),
            outcome_of(r) == plug_tokens(old(self)@.plugboard, pieces(wires@, ',')).1,
    {
        let chars = chars_of(wires);
        let tokens = split(&chars, ',');
        let ghost start = self@;
        let ghost all = texts_of(tokens@);
        let mut i: usize = 0;
        assert(all.skip(0) =~= all);
        while i < tokens.len()
            invariant
                i <= tokens.len(),
                self.wf(),
                all == texts_of(tokens@),
                all == pieces(wires@, ','),
                start == old(self)@,
                self@ == start.with_plugboard(self@.plugboard),
                plug_tokens(start.plugboard, all) == plug_tokens(
                    self@.plugboard,
                    all.skip(i as int),
                ),
            decreases tokens.len() - i,
        {
            let token = trim(&tokens[i]);
            proof {
                assert(all.skip(i as int)[0] == tokens@[i as int]@);
                assert(all.skip(i as int).drop_first() =~= all.skip(i + 1));
            }
            match self.plug(&token) {
                Ok(()) => {},
                Err(e) => {
                    return Err(e);
                },
            }
            i = i + 1;
        }
        Ok(())
    }

    /// Pulls the wire that is plugged in at `wire`, a letter of either case.
    /// Refused, with the board left as it was, where the character is no
    /// letter or the letter has no wire.
    pub fn remove_plugboard_wire(&mut self, wire: char) -> (r: Result<(), EnigmaError>)
        requires
            old(self).wf(),
        ensures
            final(self).wf(),
            final(self)@ == old(self)@.with_plugboard(
                unplug_letter(old(self)@.plugboard, wire).0,
            ),
            outcome_of(r) == unplug_letter(old(self)@.plugboard, wire).1,
    {
        if is_ascii_letter(wire) {
            let end = self.plugboard.translate_char(wire);
            if end != to_lowercase(wire) {
                match self.plugboard.remove_wire(wire, end) {
                    Ok(()) => {
                        return Ok(());
                    },
                    Err(_) => {},
                }
            }
        }
        let mut text = String::from_str("Couldn't remove ");
        push_char(&mut text, wire);
        Err(EnigmaError::PlugboardWireRemoveFailure(text))
    }

    /// Pulls a list of wires, each named by one of its ends, separated by
    /// commas, such as `e,q`; white space round a name is ignored, an empty
    /// name is passed over, and of a longer name only the first character
    /// counts. The first one that is refused ends the call with its error,
    /// and the wires before it stay pulled.
    pub fn remove_plugboard_wires(&mut self, wire: &str) -> (r: Result<(), EnigmaError>)
        requires
            old(self).wf(),
        ensures
            final(self).wf(),
            final(self)@ == old(self)@.with_plugboard(
                unplug_tokens(old(self)@.plugboard, pieces(wire@, ',')).0,
            ),
            outcome_of(r) == unplug_tokens(old(self)@.plugboard, pieces(wire@, ',')).1,
    {
        let chars = chars_of(wire);
        let tokens = split(&chars, ',');
        let ghost start = self@;
        let ghost all = texts_of(tokens@);
        let mut i: usize = 0;
        assert(all.skip(0) =~= all);
        while i < tokens.len()
            invariant
                i <= tokens.len(),
                self.wf(),
                all == texts_of(tokens@),
                all == pieces(wire@, ','),
                start == old(self)@,
                self@ == start.with_plugboard(self@.plugboard),
                unplug_tokens(start.plugboard, all) == unplug_tokens(
                    self@.plugboard,
                    all.skip(i as int),
                ),
            decreases tokens.len() - i,
        {
            let token = trim(&tokens[i]);
            proof {
                assert(all.skip(i as int)[0] == tokens@[i as int]@);
                assert(all.skip(i as int).drop_first() =~= all.skip(i + 1));
            }
            if token.len() > 0 {
                match self.remove_plugboard_wire(token[0]) {
                    Ok(()) => {},
                    Err(e) => {
                        return Err(e);
                    },
                }
            }
            i = i + 1;
        }
        Ok(())
    }

    /// The machine as text: the letter each rotor is turned to, the letter
    /// the reflector is turned to, and the wires of the plugboard.
    pub fn to_string(&self) -> (display: String)
        requires
            self.wf(),
        ensures
            display@ == self@.rendering(),
    {
        let mut display = String::from_str("Rotor Configuration:\n\tRotor 1:");
        display.append(self.rotors[0].to_string().as_str());
        display.append("\n\tRotor 2:");
        display.append(self.rotors[1].to_string().as_str());
        display.append("\n\tRotor 3:");
        display.append(self.rotors[2].to_string().as_str());
        display.append("\nReflector Configuration:\n\t");
        display.append(self.reflector.to_string().as_str());
        display.append("\nPlugboard Configuration:\n\t");
        display.append(self.plugboard.to_string().as_str());
        display.append("\n");
        display
    }

    /// Enciphers a text. Each letter, of either case, goes through the signal
    /// path and comes out in lower case, and the rotors step after it. Every
    /// other character is copied and moves nothing.
    pub fn translate(&mut self, input: &str) -> (output: String)
        requires
            old(self).wf(),
        ensures
            final(self).wf(),
            (output@, final(self)@) == old(self)@.encipher(input@),
            output@.len() == input@.len(),
    {
        let chars = chars_of(input);
        let ghost start = self@;
        let mut translated_str: String = String::new();
        let mut i: usize = 0;
        while i < chars.len()
            invariant
                i <= chars.len(),
                self.wf(),
                (translated_str@, self@) == start.encipher(chars@.take(i as int)),
                translated_str@.len() == i,
            decreases chars.len() - i,
        {
            let c = chars[i];
            proof {
                assert(chars@.take(i + 1).drop_last() =~= chars@.take(i as int));
            }
            if is_ascii_letter(c) {
                let out = self.translate_char(to_lowercase(c));
                push_char(&mut translated_str, out);
                self.step();
            } else {
                push_char(&mut translated_str, c);
            }
            i = i + 1;
        }
        assert(chars@.take(i as int) =~= chars@);
        translated_str
    }

    /// The letter that a lower-case letter comes out as with the rotors as
    /// they stand.
    pub fn translate_char(&self, input: char) -> (r: char)
        requires
            self.wf(),
            is_lower(input),
        ensures
            r == letter_at(self@.signal(position_of(input))),
            is_lower(r),
    {
        let mut transfer_char: char = input;
        transfer_char = self.plugboard.translate_char(transfer_char);
        transfer_char = self.rotors[0].translate_forward(transfer_char);
        transfer_char = self.rotors[1].translate_forward(transfer_char);
        transfer_char = self.rotors[2].translate_forward(transfer_char);
        transfer_char = self.reflector.translate(transfer_char);
        transfer_char = self.rotors[2].translate_reverse(transfer_char);
        transfer_char = self.rotors[1].translate_reverse(transfer_char);
        transfer_char = self.rotors[0].translate_reverse(transfer_char);
        transfer_char = self.plugboard.translate_char(transfer_char);
        transfer_char
    }

    /// Steps the rotors as after one letter: the last rotor always, each
    /// rotor before it only when the one after it carried.
    pub fn step(&mut self)
        requires
            old(self).wf(),
        ensures
            final(self).wf(),
            final(self)@ == old(self)@.advanced(),
    {
        let mut to_step: bool = self.rotors[2].step();
        if to_step {
            to_step = self.rotors[1].step();
            if to_step {
                let _ = self.rotors[0].step();
            }
        }
        assert(self@.rotors =~= old(self)@.advanced().rotors);
    }
}

} // verus!
