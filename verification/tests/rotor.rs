use enigmars::machine::rotor::Rotor;

fn all_rotors() -> Vec<(Rotor, &'static str, &'static str)> {
    vec![
        (Rotor::new_I(), "ekmflgdqvzntowyhxuspaibrcj", "q"),
        (Rotor::new_II(), "ajdksiruxblhwtmcqgznpyfvoe", "e"),
        (Rotor::new_III(), "bdfhjlcprtxvznyeiwgakmusqo", "v"),
        (Rotor::new_IV(), "esovpzjayquirhxlnftgkdcmwb", "j"),
        (Rotor::new_V(), "vzbrgityupsdnhlxawmjqofeck", "z"),
        (Rotor::new_VI(), "jpgvoumfyqbenhzrdkasxlictw", "mz"),
        (Rotor::new_VII(), "nzjhgrcxmyswboufaivlpekqdt", "mz"),
        (Rotor::new_VIII(), "fkqhtlxocbjspdzramewniuygv", "mz"),
    ]
}

#[test]
fn test_wrap_26_sub() {
    assert_eq!(24, Rotor::wrap_26_sub(3, 5));
    assert_eq!(2, Rotor::wrap_26_sub(5, 3));
}

#[test]
fn rotor_test_translation() {
    let test_rotor = Rotor::new_I();
    // Forward translate
    assert_eq!('a', test_rotor.translate_forward('u'));
    assert_eq!('e', test_rotor.translate_forward('a'));
    // Reverse translate
    assert_eq!('a', test_rotor.translate_reverse('e'));
    assert_eq!('m', test_rotor.translate_reverse('o'));
}

#[test]
fn test_step() {
    let mut test_rotor = Rotor::new_I();
    // Check translation
    assert_eq!('e', test_rotor.translate_forward('a'));
    assert_eq!('k', test_rotor.translate_forward('b'));
    assert_eq!('n', test_rotor.translate_forward('k'));
    assert_eq!('l', test_rotor.translate_reverse('t'));
    // Step the rotor
    _ = test_rotor.step();
    // Check the translation again
    assert_eq!('j', test_rotor.translate_forward('a'));
}

#[test]
fn test_notch() {
    let mut test_rotor = Rotor::new_I();
    test_rotor.set('q');
    assert!(test_rotor.step());
}

#[test]
fn wrap_sub_goes_round_the_alphabet() {
    assert_eq!(0, Rotor::wrap_26_sub(0, 0));
    assert_eq!(25, Rotor::wrap_26_sub(25, 0));
    assert_eq!(1, Rotor::wrap_26_sub(0, 25));
    assert_eq!(0, Rotor::wrap_26_sub(0, 26));
    assert_eq!(230, Rotor::wrap_26_sub(255, 25));
    for lhs in 0u8..26 {
        for rhs in 0u8..26 {
            let expected = (lhs as i32 - rhs as i32).rem_euclid(26) as u8;
            assert_eq!(expected, Rotor::wrap_26_sub(lhs, rhs));
        }
    }
}

#[test]
fn named_rotors_follow_their_wiring_at_offset_zero() {
    for (rotor, wiring, _) in all_rotors() {
        let forward: String = ('a'..='z').map(|c| rotor.translate_forward(c)).collect();
        assert_eq!(wiring, forward);
        assert_eq!("a", rotor.to_string());
    }
}

#[test]
fn reverse_undoes_forward_at_every_offset() {
    for (mut rotor, _, _) in all_rotors() {
        for setting in 'a'..='z' {
            rotor.set(setting);
            for c in 'a'..='z' {
                let forward = rotor.translate_forward(c);
                assert!(forward.is_ascii_lowercase());
                assert_eq!(c, rotor.translate_reverse(forward));
                let reverse = rotor.translate_reverse(c);
                assert!(reverse.is_ascii_lowercase());
                assert_eq!(c, rotor.translate_forward(reverse));
            }
        }
    }
}

#[test]
fn shifted_lookup_enters_and_leaves_by_the_offset() {
    let mut rotor = Rotor::new_I();
    rotor.set('b');
    // enters at a + 1 = b, wired to k, leaves at k - 1 = j
    assert_eq!('j', rotor.translate_forward('a'));
    rotor.set('z');
    // enters at b + 25 = a, wired to e, leaves at e - 25 = f
    assert_eq!('f', rotor.translate_forward('b'));
    // enters at a + 25 = z, wired to j, leaves at j - 25 = k
    assert_eq!('k', rotor.translate_forward('a'));
    assert_eq!('a', rotor.translate_reverse('k'));
}

#[test]
fn a_full_turn_carries_once_for_each_notch() {
    for (mut rotor, _, notches) in all_rotors() {
        for start in 'a'..='z' {
            rotor.set(start);
            let before: String = ('a'..='z').map(|c| rotor.translate_forward(c)).collect();
            let mut carried = String::new();
            for turn in 0u8..26 {
                let standing = (((start as u8 - b'a') + turn) % 26 + b'a') as char;
                assert_eq!(standing.to_string(), rotor.to_string());
                if rotor.step() {
                    carried.push(standing);
                }
            }
            let mut sorted: Vec<char> = carried.chars().collect();
            sorted.sort();
            let sorted: String = sorted.into_iter().collect();
            assert_eq!(notches, sorted);
            assert_eq!(start.to_string(), rotor.to_string());
            let after: String = ('a'..='z').map(|c| rotor.translate_forward(c)).collect();
            assert_eq!(before, after);
        }
    }
}

#[test]
fn step_carries_when_leaving_the_notch_not_when_reaching_it() {
    let mut rotor = Rotor::new_I();
    rotor.set('p');
    assert!(!rotor.step());
    assert_eq!("q", rotor.to_string());
    assert!(rotor.step());
    assert_eq!("r", rotor.to_string());
    assert!(!rotor.step());
}

#[test]
fn step_wraps_from_z_to_a() {
    let mut rotor = Rotor::new_V();
    rotor.set('Z');
    assert_eq!("z", rotor.to_string());
    assert!(rotor.step());
    assert_eq!("a", rotor.to_string());
    assert_eq!('v', rotor.translate_forward('a'));
}

#[test]
fn new_takes_wiring_setting_and_notches_in_either_case() {
    let mut built = Rotor::new("ekmflgdqvzntowyhxuspaibrcj", 'C', "qB");
    let mut named = Rotor::new_I();
    named.set('c');
    assert_eq!("c", built.to_string());
    for c in 'a'..='z' {
        assert_eq!(named.translate_forward(c), built.translate_forward(c));
        assert_eq!(named.translate_reverse(c), built.translate_reverse(c));
    }
    built.set('a');
    let carries: Vec<bool> = (0..26).map(|_| built.step()).collect();
    for (at, carry) in carries.iter().enumerate() {
        assert_eq!(at == 1 || at == 16, *carry);
    }
    let mut plain = Rotor::new("ABCDEFGHIJKLMNOPQRSTUVWXYZ", 'a', "");
    for c in 'a'..='z' {
        assert_eq!(c, plain.translate_forward(c));
        assert!(!plain.step());
    }
}

#[test]
fn a_cloned_rotor_keeps_wiring_offset_and_notches() {
    let mut rotor = Rotor::new_VI();
    rotor.set('m');
    let mut copy = rotor.clone();
    rotor.set('a');
    assert_eq!("m", copy.to_string());
    assert!(copy.step());
    assert_eq!("n", copy.to_string());
    assert_eq!("a", rotor.to_string());
}

#[test]
fn a_notch_named_twice_is_one_notch() {
    let mut rotor = Rotor::new("ekmflgdqvzntowyhxuspaibrcj", 'a', "qQq");
    let carries = (0..26).filter(|_| rotor.step()).count();
    assert_eq!(1, carries);
    let mut copy = rotor.clone();
    copy.set('q');
    assert!(copy.step());
    assert!(!copy.step());
}
