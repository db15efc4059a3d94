use enigmars::machine::enigma::{Enigma, EnigmaError};
use enigmars::machine::plugboard::Plugboard;
use enigmars::machine::reflector::Reflector;
use enigmars::machine::rotor::Rotor;

fn rendering(rotors: &str, reflector: &str, wires: &str) -> String {
    let r: Vec<char> = rotors.chars().collect();
    format!(
        "Rotor Configuration:\n\tRotor 1:{}\n\tRotor 2:{}\n\tRotor 3:{}\nReflector Configuration:\n\t{}\nPlugboard Configuration:\n\t{}\n",
        r[0], r[1], r[2], reflector, wires
    )
}

#[test]
fn enigma_test_translation() {
    let mut test_encoder = Enigma::default();
    _ = test_encoder.choose_reflector("B");
    let encoded = test_encoder.translate("aaaa");
    let mut test_decoder = Enigma::default();
    _ = test_decoder.choose_reflector("B");
    let decoded = test_decoder.translate(&encoded);
    assert_ne!(encoded, decoded);
    assert_ne!("aaaa", encoded);
    assert_eq!("aaaa", decoded);
    assert_eq!("nqxh", encoded);
}

#[test]
fn test_plugboard() {
    let mut test_encoder = Enigma::default();
    _ = test_encoder.choose_reflector("C");
    _ = test_encoder.add_plugboard_wires("a-e,b-c,x-z,m-n");

    let mut test_decoder = test_encoder.clone();

    let encoded = test_encoder.translate("this is a coded message");
    let decoded = test_decoder.translate(&encoded);

    assert_eq!("this is a coded message", decoded);
    assert_ne!(encoded, "this is a coded message");
}

#[test]
fn test_long_translation() {
    let mut test_encoder = Enigma::default();
    _ = test_encoder.choose_reflector("B");
    _ = test_encoder.add_plugboard_wires("d-r,g-m,k-o,t-y");
    let mut test_decoder = test_encoder.clone();
    let to_encode = "this is a long message that will be encoded. woot.";
    let encoded = test_encoder.translate(to_encode);
    let decoded = test_decoder.translate(&encoded);
    assert_eq!(to_encode, decoded);
    assert_ne!(to_encode, encoded);
}

#[test]
fn fresh_machine_deciphers_four_letters() {
    let mut machine = Enigma::default();
    machine.choose_reflector("B").unwrap();
    assert_eq!("aaaa", machine.translate("nqxh"));
}

#[test]
fn coded_message_has_the_expected_cipher_text() {
    let mut machine = Enigma::default();
    machine.choose_reflector("C").unwrap();
    machine.add_plugboard_wires("a-e,b-c,x-z,m-n").unwrap();
    assert_eq!("kmcp dd w hpkqt rwidndm", machine.translate("this is a coded message"));
    assert_eq!(rendering("aat", "a", "a-e,b-c,m-n,x-z"), machine.to_string());
}

#[test]
fn long_message_has_the_expected_cipher_text() {
    let mut machine = Enigma::default();
    machine.choose_reflector("B").unwrap();
    machine.add_plugboard_wires("d-r,g-m,k-o,t-y").unwrap();
    assert_eq!(
        "zwwe ex t aesu qyldiit jdzl cftb pc rwsripj. ghhu.",
        machine.translate("this is a long message that will be encoded. woot.")
    );
}

#[test]
fn default_machine_is_rotors_one_two_three_and_reflector_a() {
    let machine = Enigma::default();
    assert_eq!(rendering("aaa", "a", ""), machine.to_string());
    let mut built = Enigma::new(
        Rotor::new_I(),
        Rotor::new_II(),
        Rotor::new_III(),
        Plugboard::new(),
        Reflector::new_A(),
    );
    let mut default = Enigma::default();
    let text = "the default machine and the one built by hand agree";
    assert_eq!(default.translate(text), built.translate(text));
}

#[test]
fn upper_case_is_folded_and_other_characters_pass() {
    let mut machine = Enigma::default();
    assert_eq!("bxvcp, nmedg! 123", machine.translate("Hello, World! 123"));
    assert_eq!(rendering("aak", "a", ""), machine.to_string());
    let mut lower = Enigma::default();
    assert_eq!("bxvcp, nmedg! 123", lower.translate("hello, world! 123"));
}

#[test]
fn characters_that_are_not_letters_keep_their_place_and_move_nothing() {
    let mut machine = Enigma::default();
    let before = machine.to_string();
    let text = "1234 !?.,-_ \t\n\u{e9}\u{df}\u{3b1}\u{4e2d}";
    assert_eq!(text, machine.translate(text));
    assert_eq!(before, machine.to_string());
    let mut spaced = Enigma::default();
    let mut plain = Enigma::default();
    let with_gaps = spaced.translate("a1b2 c3");
    let without = plain.translate("abc");
    let letters: Vec<char> = without.chars().collect();
    let expected = format!("{}1{}2 {}3", letters[0], letters[1], letters[2]);
    assert_eq!(expected, with_gaps);
    assert_eq!(plain.to_string(), spaced.to_string());
}

#[test]
fn empty_text_gives_empty_text() {
    let mut machine = Enigma::default();
    assert_eq!("", machine.translate(""));
    assert_eq!(rendering("aaa", "a", ""), machine.to_string());
}

#[test]
fn no_letter_is_enciphered_as_itself() {
    let mut machine = Enigma::default();
    let text = "abcdefghijklmnopqrstuvwxyzabcdefghijklmnopqrstuvwxyz";
    let encoded = machine.translate(text);
    for (plain, cipher) in text.chars().zip(encoded.chars()) {
        assert!(cipher.is_ascii_lowercase());
        assert_ne!(plain, cipher);
    }
}

#[test]
fn reciprocity_holds_for_every_rotor_choice_and_mixed_text() {
    let names = ["I", "II", "III", "IV", "V", "VI", "VII", "VIII"];
    let reflectors = ["A", "b", "C"];
    let text = "Attack at Dawn! 1941: meet @ the bridge, bring 3 maps (and Tea).";
    let normal = text.to_ascii_lowercase();
    for (i, first) in names.iter().enumerate() {
        let second = names[(i + 3) % 8];
        let third = names[(i + 5) % 8];
        let mut encoder = Enigma::default();
        encoder.choose_rotor(first, 0).unwrap();
        encoder.choose_rotor(second, 1).unwrap();
        encoder.choose_rotor(third, 2).unwrap();
        encoder.choose_reflector(reflectors[i % 3]).unwrap();
        encoder.set_rotors("qzx").unwrap();
        encoder.set_reflector("k").unwrap();
        encoder.add_plugboard_wires("a-z, b-y ,c-x").unwrap();
        let mut decoder = encoder.clone();
        let encoded = encoder.translate(text);
        assert_ne!(normal, encoded);
        assert_eq!(normal, decoder.translate(&encoded));
        assert_eq!(encoder.to_string(), decoder.to_string());
    }
}

#[test]
fn two_notch_rotors_with_offsets_give_the_expected_cipher_text() {
    let mut machine = Enigma::default();
    machine.choose_rotor("VI", 0).unwrap();
    machine.choose_rotor("VII", 1).unwrap();
    machine.choose_rotor("VIII", 2).unwrap();
    machine.choose_reflector("c").unwrap();
    machine.set_rotors("xyz").unwrap();
    machine.set_reflector("e").unwrap();
    assert_eq!(
        "inj dwdzi edvbq pxu vcckh dhxc xrm ncfm ody",
        machine.translate("the quick brown fox jumps over the lazy dog")
    );
    assert_eq!(rendering("ybi", "e", ""), machine.to_string());
}

#[test]
fn last_rotor_steps_with_every_letter() {
    let mut machine = Enigma::default();
    machine.translate("a");
    assert_eq!(rendering("aab", "a", ""), machine.to_string());
    machine.translate("bcd");
    assert_eq!(rendering("aae", "a", ""), machine.to_string());
}

#[test]
fn middle_rotor_steps_when_the_last_leaves_its_notch() {
    let mut machine = Enigma::default();
    let encoded = machine.translate("aaaaaaaaaaaaaaaaaaaaa");
    assert_eq!("oodmkmudbnluvczpcgwwd", encoded);
    assert_eq!(rendering("aav", "a", ""), machine.to_string());
    assert_eq!("j", machine.translate("a"));
    assert_eq!(rendering("abw", "a", ""), machine.to_string());
    assert_eq!("itytpbhn", machine.translate("aaaaaaaa"));
    assert_eq!(rendering("abe", "a", ""), machine.to_string());
}

#[test]
fn carry_runs_through_all_three_rotors_without_a_second_step() {
    let mut machine = Enigma::default();
    machine.set_rotors("aev").unwrap();
    assert_eq!("s", machine.translate("a"));
    assert_eq!(rendering("bfw", "a", ""), machine.to_string());
    machine.translate("a");
    assert_eq!(rendering("bfx", "a", ""), machine.to_string());
}

#[test]
fn middle_rotor_on_its_notch_stays_until_the_last_carries() {
    let mut machine = Enigma::default();
    machine.set_rotors("aea").unwrap();
    machine.translate("a");
    assert_eq!(rendering("aeb", "a", ""), machine.to_string());
}

#[test]
fn choose_rotor_resets_the_offset_and_keeps_the_others() {
    let mut machine = Enigma::default();
    machine.set_rotors("bcd").unwrap();
    machine.choose_rotor("IV", 1).unwrap();
    assert_eq!(rendering("bad", "a", ""), machine.to_string());
    let mut expected = Enigma::new(
        Rotor::new_I(),
        Rotor::new_IV(),
        Rotor::new_III(),
        Plugboard::new(),
        Reflector::new_A(),
    );
    expected.set_rotors("bad").unwrap();
    let text = "a rotor put in by name works like the same rotor built";
    assert_eq!(expected.translate(text), machine.translate(text));
}

#[test]
fn choose_rotor_knows_all_eight_names() {
    let builders: [(&str, fn() -> Rotor); 8] = [
        ("I", Rotor::new_I),
        ("II", Rotor::new_II),
        ("III", Rotor::new_III),
        ("IV", Rotor::new_IV),
        ("V", Rotor::new_V),
        ("VI", Rotor::new_VI),
        ("VII", Rotor::new_VII),
        ("VIII", Rotor::new_VIII),
    ];
    let text = "abcdefghijklmnopqrstuvwxyz";
    for (name, build) in builders {
        for slot in 0u8..3 {
            let mut machine = Enigma::default();
            machine.choose_rotor(name, slot).unwrap();
            let mut rotors = [Rotor::new_I(), Rotor::new_II(), Rotor::new_III()];
            rotors[slot as usize] = build();
            let [r1, r2, r3] = rotors;
            let mut expected = Enigma::new(r1, r2, r3, Plugboard::new(), Reflector::new_A());
            assert_eq!(expected.translate(text), machine.translate(text));
        }
    }
}

#[test]
fn choose_rotor_refuses_an_unknown_name() {
    let mut machine = Enigma::default();
    machine.set_rotors("bcd").unwrap();
    for name in ["IX", "i", "", "IIII", "1", " I", "I ", "VIIII"] {
        match machine.choose_rotor(name, 0) {
            Err(EnigmaError::InvalidRotor(text)) => assert_eq!(name, text),
            other => panic!("{:?}", other),
        }
        assert_eq!(rendering("bcd", "a", ""), machine.to_string());
    }
    assert!(matches!(machine.choose_rotor("none", 7), Err(EnigmaError::InvalidRotor(_))));
}

#[test]
fn choose_rotor_refuses_a_slot_out_of_range() {
    let mut machine = Enigma::default();
    machine.set_rotors("bcd").unwrap();
    machine.add_plugboard_wire("a-b").unwrap();
    let before = machine.clone();
    for (slot, text) in [(3u8, "3"), (4, "4"), (9, "9"), (10, "10"), (26, "26"), (99, "99"),
        (100, "100"), (107, "107"), (200, "200"), (255, "255")]
    {
        for name in ["I", "II", "III", "IV", "V", "VI", "VII", "VIII"] {
            match machine.choose_rotor(name, slot) {
                Err(EnigmaError::RotorSlotOutOfRange(found)) => assert_eq!(text, found),
                other => panic!("{:?} for {:?} in slot {}", other, name, slot),
            }
            assert_eq!(before.to_string(), machine.to_string());
        }
    }
    assert_eq!(rendering("bcd", "a", "a-b"), machine.to_string());
    let sample = "the machine is as it was";
    let mut untouched = before.clone();
    assert_eq!(untouched.translate(sample), machine.translate(sample));
}

#[test]
fn choose_rotor_on_a_default_machine_refuses_slot_three() {
    let mut machine = Enigma::default();
    let before = machine.clone();
    assert!(matches!(machine.choose_rotor("I", 3), Err(EnigmaError::RotorSlotOutOfRange(_))));
    assert_eq!(before.to_string(), machine.to_string());
    assert!(machine.choose_rotor("I", 2).is_ok());
}

#[test]
fn an_unknown_name_is_refused_before_the_slot_is_looked_at() {
    let mut machine = Enigma::default();
    for slot in [0u8, 2, 3, 200] {
        match machine.choose_rotor("IX", slot) {
            Err(EnigmaError::InvalidRotor(text)) => assert_eq!("IX", text),
            other => panic!("{:?}", other),
        }
    }
    assert_eq!(rendering("aaa", "a", ""), machine.to_string());
}

#[test]
fn choose_reflector_takes_either_case_and_resets_the_offset() {
    for (lower, upper, build) in [
        ("a", "A", Reflector::new_A as fn() -> Reflector),
        ("b", "B", Reflector::new_B as fn() -> Reflector),
        ("c", "C", Reflector::new_C as fn() -> Reflector),
    ] {
        let text = "abcdefghijklmnopqrstuvwxyz";
        let mut expected =
            Enigma::new(Rotor::new_I(), Rotor::new_II(), Rotor::new_III(), Plugboard::new(), build());
        let cipher = expected.translate(text);
        for name in [lower, upper] {
            let mut machine = Enigma::default();
            machine.set_reflector("q").unwrap();
            machine.choose_reflector(name).unwrap();
            assert_eq!(rendering("aaa", "a", ""), machine.to_string());
            assert_eq!(cipher, machine.translate(text));
        }
    }
}

#[test]
fn choose_reflector_refuses_an_unknown_name() {
    let mut machine = Enigma::default();
    machine.set_reflector("d").unwrap();
    for name in ["D", "", "ab", "AA", " a"] {
        match machine.choose_reflector(name) {
            Err(EnigmaError::InvalidReflector(text)) => assert_eq!(name, text),
            other => panic!("{:?}", other),
        }
        assert_eq!(rendering("aaa", "d", ""), machine.to_string());
    }
}

#[test]
fn set_rotors_takes_up_to_three_letters() {
    let mut machine = Enigma::default();
    assert!(machine.set_rotors("").is_ok());
    assert_eq!(rendering("aaa", "a", ""), machine.to_string());
    assert!(machine.set_rotors("x").is_ok());
    assert_eq!(rendering("xaa", "a", ""), machine.to_string());
    assert!(machine.set_rotors("bC").is_ok());
    assert_eq!(rendering("bca", "a", ""), machine.to_string());
    assert!(machine.set_rotors("QRS").is_ok());
    assert_eq!(rendering("qrs", "a", ""), machine.to_string());
    assert!(machine.set_rotors("klmnop 12").is_ok());
    assert_eq!(rendering("klm", "a", ""), machine.to_string());
}

#[test]
fn set_reflector_takes_the_first_letter_only() {
    let mut machine = Enigma::default();
    assert!(machine.set_reflector("").is_ok());
    assert_eq!(rendering("aaa", "a", ""), machine.to_string());
    assert!(machine.set_reflector("Z").is_ok());
    assert_eq!(rendering("aaa", "z", ""), machine.to_string());
    assert!(machine.set_reflector("mno!").is_ok());
    assert_eq!(rendering("aaa", "m", ""), machine.to_string());
}

#[test]
fn turned_reflector_changes_the_cipher_text_and_stays_reciprocal() {
    let mut plain = Enigma::default();
    let mut turned = Enigma::default();
    turned.set_reflector("d").unwrap();
    let mut decoder = turned.clone();
    let text = "reflector";
    let encoded = turned.translate(text);
    assert_ne!(plain.translate(text), encoded);
    assert_eq!(text, decoder.translate(&encoded));
}

#[test]
fn add_plugboard_wire_plugs_one_wire() {
    let mut machine = Enigma::default();
    assert!(machine.add_plugboard_wire("q-w").is_ok());
    assert!(machine.add_plugboard_wire("E-b").is_ok());
    assert!(machine.add_plugboard_wire("z-z").is_ok());
    assert_eq!(rendering("aaa", "a", "b-e,q-w"), machine.to_string());
}

#[test]
fn add_plugboard_wire_refuses_what_is_not_a_wire() {
    let mut machine = Enigma::default();
    machine.add_plugboard_wire("a-b").unwrap();
    for token in [
        "", "-", "a", "a-", "-a", "ab", "a-bc", "ab-c", "a-b-c", "a--b", "a b", " a-b", "a-b ",
        "1-2", "a-2", "?-b", "\u{e9}-a", "a-\u{e9}", "a\u{2d}\u{2d}", "a=b",
    ] {
        match machine.add_plugboard_wire(token) {
            Err(EnigmaError::InvalidPlugboardWire(text)) => assert_eq!(token, text),
            other => panic!("{:?} for {:?}", other, token),
        }
        assert_eq!(rendering("aaa", "a", "a-b"), machine.to_string());
    }
}

#[test]
fn second_wire_at_a_letter_is_refused_as_overlap() {
    let mut machine = Enigma::default();
    machine.add_plugboard_wire("a-b").unwrap();
    for token in ["a-c", "c-a", "b-c", "c-B", "a-b", "b-a", "A-a", "b-b"] {
        match machine.add_plugboard_wire(token) {
            Err(EnigmaError::PlugboardWireOverlap(text)) => {
                assert_eq!(format!("Couldn't add wire due to overlap {}", token), text)
            }
            other => panic!("{:?} for {:?}", other, token),
        }
        assert_eq!(rendering("aaa", "a", "a-b"), machine.to_string());
    }
    assert!(machine.add_plugboard_wire("c-d").is_ok());
}

#[test]
fn add_plugboard_wires_trims_each_wire() {
    let mut machine = Enigma::default();
    assert!(machine.add_plugboard_wires("  a-e ,\tb-d\n, x-z").is_ok());
    assert_eq!(rendering("aaa", "a", "a-e,b-d,x-z"), machine.to_string());
    assert!(machine.add_plugboard_wires("\u{a0}m-n\u{2003}").is_ok());
    assert_eq!(rendering("aaa", "a", "a-e,b-d,m-n,x-z"), machine.to_string());
}

#[test]
fn add_plugboard_wires_stops_at_the_first_refusal_and_keeps_what_went_before() {
    let mut machine = Enigma::default();
    match machine.add_plugboard_wires("a-b, c-d ,a-e,f-g") {
        Err(EnigmaError::PlugboardWireOverlap(text)) => {
            assert_eq!("Couldn't add wire due to overlap a-e", text)
        }
        other => panic!("{:?}", other),
    }
    assert_eq!(rendering("aaa", "a", "a-b,c-d"), machine.to_string());
    match machine.add_plugboard_wires("h-i, jk ,l-m") {
        Err(EnigmaError::InvalidPlugboardWire(text)) => assert_eq!("jk", text),
        other => panic!("{:?}", other),
    }
    assert_eq!(rendering("aaa", "a", "a-b,c-d,h-i"), machine.to_string());
}

#[test]
fn add_plugboard_wires_refuses_an_empty_wire() {
    let mut machine = Enigma::default();
    for (list, bad, left) in [
        ("", "", ""),
        ("   ", "", ""),
        ("a-b,", "", "a-b"),
        (",c-d", "", "a-b"),
        ("c-d,,e-f", "", "a-b,c-d"),
    ] {
        match machine.add_plugboard_wires(list) {
            Err(EnigmaError::InvalidPlugboardWire(text)) => assert_eq!(bad, text),
            other => panic!("{:?} for {:?}", other, list),
        }
        assert_eq!(rendering("aaa", "a", left), machine.to_string());
    }
}

#[test]
fn thirteen_wires_fill_the_board() {
    let mut machine = Enigma::default();
    machine
        .add_plugboard_wires("a-b,c-d,e-f,g-h,i-j,k-l,m-n,o-p,q-r,s-t,u-v,w-x,y-z")
        .unwrap();
    assert_eq!(
        rendering("aaa", "a", "a-b,c-d,e-f,g-h,i-j,k-l,m-n,o-p,q-r,s-t,u-v,w-x,y-z"),
        machine.to_string()
    );
    for first in 'a'..='z' {
        let token = format!("{}-{}", first, if first == 'z' { 'a' } else { 'z' });
        assert!(matches!(
            machine.add_plugboard_wire(&token),
            Err(EnigmaError::PlugboardWireOverlap(_))
        ));
    }
}

#[test]
fn remove_plugboard_wire_pulls_the_wire_from_either_end() {
    let mut machine = Enigma::default();
    machine.add_plugboard_wires("a-e,b-c,x-z").unwrap();
    assert!(machine.remove_plugboard_wire('e').is_ok());
    assert_eq!(rendering("aaa", "a", "b-c,x-z"), machine.to_string());
    assert!(machine.remove_plugboard_wire('B').is_ok());
    assert_eq!(rendering("aaa", "a", "x-z"), machine.to_string());
    assert!(machine.add_plugboard_wire("a-c").is_ok());
    assert_eq!(rendering("aaa", "a", "a-c,x-z"), machine.to_string());
}

#[test]
fn removing_a_letter_without_a_wire_is_refused() {
    let mut machine = Enigma::default();
    machine.add_plugboard_wire("a-b").unwrap();
    for c in ['c', 'Z', '1', '-', ' ', '\u{e9}'] {
        match machine.remove_plugboard_wire(c) {
            Err(EnigmaError::PlugboardWireRemoveFailure(text)) => {
                assert_eq!(format!("Couldn't remove {}", c), text)
            }
            other => panic!("{:?} for {:?}", other, c),
        }
        assert_eq!(rendering("aaa", "a", "a-b"), machine.to_string());
    }
    machine.remove_plugboard_wire('a').unwrap();
    assert!(matches!(
        machine.remove_plugboard_wire('a'),
        Err(EnigmaError::PlugboardWireRemoveFailure(_))
    ));
    assert!(matches!(
        machine.remove_plugboard_wire('b'),
        Err(EnigmaError::PlugboardWireRemoveFailure(_))
    ));
}

#[test]
fn remove_plugboard_wires_passes_over_empty_names_and_reads_first_characters() {
    let mut machine = Enigma::default();
    machine.add_plugboard_wires("a-e,b-q,l-m,x-y").unwrap();
    assert!(machine.remove_plugboard_wires("e, ,Q,,").is_ok());
    assert_eq!(rendering("aaa", "a", "l-m,x-y"), machine.to_string());
    assert!(machine.remove_plugboard_wires("").is_ok());
    assert!(machine.remove_plugboard_wires(" lost ").is_ok());
    assert_eq!(rendering("aaa", "a", "x-y"), machine.to_string());
}

#[test]
fn remove_plugboard_wires_stops_at_the_first_refusal_and_keeps_what_went_before() {
    let mut machine = Enigma::default();
    machine.add_plugboard_wires("a-e,b-q,l-m").unwrap();
    match machine.remove_plugboard_wires("a,e,b") {
        Err(EnigmaError::PlugboardWireRemoveFailure(text)) => {
            assert_eq!("Couldn't remove e", text)
        }
        other => panic!("{:?}", other),
    }
    assert_eq!(rendering("aaa", "a", "b-q,l-m"), machine.to_string());
    match machine.remove_plugboard_wires("m, 7, b") {
        Err(EnigmaError::PlugboardWireRemoveFailure(text)) => {
            assert_eq!("Couldn't remove 7", text)
        }
        other => panic!("{:?}", other),
    }
    assert_eq!(rendering("aaa", "a", "b-q"), machine.to_string());
}

#[test]
fn errors_read_as_a_line_of_text() {
    assert_eq!("Invalid Rotor: IX", EnigmaError::InvalidRotor("IX".to_string()).to_string());
    assert_eq!(
        "Rotor Slot Out Of Range: 3",
        EnigmaError::RotorSlotOutOfRange("3".to_string()).to_string()
    );
    assert_eq!(
        "Invalid Reflector: d",
        EnigmaError::InvalidReflector("d".to_string()).to_string()
    );
    assert_eq!(
        "Invalid Plugboard Wire: ab",
        EnigmaError::InvalidPlugboardWire("ab".to_string()).to_string()
    );
    assert_eq!(
        "Plugboard Wire Overlap: Couldn't add wire due to overlap a-c",
        EnigmaError::PlugboardWireOverlap("Couldn't add wire due to overlap a-c".to_string())
            .to_string()
    );
    assert_eq!(
        "Plugboard Wire Removal Failure: Couldn't remove q",
        EnigmaError::PlugboardWireRemoveFailure("Couldn't remove q".to_string()).to_string()
    );
    let mut machine = Enigma::default();
    let refused = machine.choose_rotor("X", 0).unwrap_err();
    assert_eq!("Invalid Rotor: X", refused.to_string());
    let refused = machine.choose_rotor("V", 12).unwrap_err();
    assert_eq!("Rotor Slot Out Of Range: 12", refused.to_string());
}

#[test]
fn a_clone_runs_on_its_own() {
    let mut machine = Enigma::default();
    machine.add_plugboard_wire("a-b").unwrap();
    let mut copy = machine.clone();
    copy.translate("abcdef");
    copy.add_plugboard_wire("c-d").unwrap();
    assert_eq!(rendering("aaa", "a", "a-b"), machine.to_string());
    assert_eq!(rendering("aag", "a", "a-b,c-d"), copy.to_string());
    assert_eq!(machine.translate("x"), Enigma::default().clone().translate("x"));
}
