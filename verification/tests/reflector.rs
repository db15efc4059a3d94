use enigmars::machine::reflector::Reflector;

fn test_loop(reflector: &Reflector) {
    for c in 'a'..='z' {
        assert_eq!(c, reflector.translate(reflector.translate(c)))
    }
}

#[test]
fn reflector_test_translate() {
    let test_reflector = Reflector::new_A();
    assert_eq!('e', test_reflector.translate('a'));
}

#[test]
fn test_configuration() {
    // test that reflector configurations all must loop (so if a->e, e->a)
    let test_reflector = Reflector::new_A();
    test_loop(&test_reflector);
    let test_reflector = Reflector::new_B();
    test_loop(&test_reflector);
    let test_reflector = Reflector::new_C();
    test_loop(&test_reflector);
}

#[test]
fn reflecting_twice_gives_the_letter_back_at_every_offset() {
    for build in [Reflector::new_A, Reflector::new_B, Reflector::new_C] {
        let mut reflector = build();
        for setting in 'a'..='z' {
            reflector.set(setting);
            for c in 'a'..='z' {
                let back = reflector.translate(c);
                assert!(back.is_ascii_lowercase());
                assert_ne!(c, back);
                assert_eq!(c, reflector.translate(back));
            }
        }
    }
}

#[test]
fn named_reflectors_follow_their_wiring() {
    let a = Reflector::new_A();
    let b = Reflector::new_B();
    let c = Reflector::new_C();
    let letters: Vec<char> = ('a'..='z').collect();
    let through = |r: &Reflector| -> String { letters.iter().map(|l| r.translate(*l)).collect() };
    assert_eq!("ejmzalyxvbwfcrquontspikhgd", through(&a));
    assert_eq!("yruhqsldpxngokmiebfzcwvjat", through(&b));
    assert_eq!("fvpjiaoyedrzxwgctkuqsbnmhl", through(&c));
    assert_eq!("a", a.to_string());
}

#[test]
fn turned_reflector_shifts_in_and_out() {
    let mut reflector = Reflector::new_B();
    reflector.set('d');
    assert_eq!("d", reflector.to_string());
    assert_eq!('e', reflector.translate('a'));
    assert_eq!('n', reflector.translate('b'));
    assert_eq!('p', reflector.translate('c'));
    assert_eq!('i', reflector.translate('d'));
    reflector.set('D');
    assert_eq!('e', reflector.translate('a'));
    reflector.set('a');
    assert_eq!('y', reflector.translate('a'));
}

#[test]
fn new_takes_wiring_in_either_case_and_a_setting() {
    let lower = Reflector::new("yruhqsldpxngokmiebfzcwvjat", 'D');
    let mut named = Reflector::new_B();
    named.set('d');
    for c in 'a'..='z' {
        assert_eq!(named.translate(c), lower.translate(c));
    }
    assert_eq!("d", lower.to_string());
}

#[test]
fn reflector_wrap_sub_goes_round_the_alphabet() {
    assert_eq!(24, Reflector::wrap_26_sub(3, 5));
    assert_eq!(2, Reflector::wrap_26_sub(5, 3));
    assert_eq!(0, Reflector::wrap_26_sub(7, 7));
    assert_eq!(1, Reflector::wrap_26_sub(0, 25));
    assert_eq!(25, Reflector::wrap_26_sub(25, 0));
}

#[test]
fn a_cloned_reflector_keeps_wiring_and_offset() {
    let mut reflector = Reflector::new_C();
    reflector.set('k');
    let copy = reflector.clone();
    reflector.set('a');
    assert_eq!("k", copy.to_string());
    let mut again = Reflector::new_C();
    again.set('k');
    for c in 'a'..='z' {
        assert_eq!(again.translate(c), copy.translate(c));
    }
}
