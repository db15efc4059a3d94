use enigmars::machine::wiring::{lookup_shifted, table_of, wrap_26_sub};

const ROTOR_ONE: [u8; 26] = [
    4, 10, 12, 5, 11, 6, 3, 16, 21, 25, 13, 19, 14, 22, 24, 7, 23, 20, 18, 15, 0, 8, 1, 17, 2, 9,
];

#[test]
fn table_of_reads_a_wiring_in_either_case() {
    let upper: Vec<char> = "EKMFLGDQVZNTOWYHXUSPAIBRCJ".chars().collect();
    let lower: Vec<char> = "ekmflgdqvzntowyhxuspaibrcj".chars().collect();
    assert_eq!(ROTOR_ONE, table_of(&upper));
    assert_eq!(ROTOR_ONE, table_of(&lower));
}

#[test]
fn wrap_sub_is_subtraction_round_the_alphabet() {
    assert_eq!(24, wrap_26_sub(3, 5));
    assert_eq!(2, wrap_26_sub(5, 3));
    assert_eq!(0, wrap_26_sub(9, 9));
    assert_eq!(1, wrap_26_sub(0, 25));
    assert_eq!(0, wrap_26_sub(4, 30));
    assert_eq!(200, wrap_26_sub(200, 0));
}

#[test]
fn lookup_at_offset_zero_reads_the_table() {
    for p in 0u8..26 {
        assert_eq!(ROTOR_ONE[p as usize], lookup_shifted(&ROTOR_ONE, 0, p));
    }
}

#[test]
fn lookup_enters_and_leaves_by_the_offset() {
    // enters at 0 + 1, finds 10, leaves at 10 - 1
    assert_eq!(9, lookup_shifted(&ROTOR_ONE, 1, 0));
    // enters at 25 + 1 = 0 round the circle, finds 4, leaves at 4 - 1
    assert_eq!(3, lookup_shifted(&ROTOR_ONE, 1, 25));
    // enters at 20 + 0, finds 0, leaves at 0
    assert_eq!(0, lookup_shifted(&ROTOR_ONE, 0, 20));
    // enters at 15 + 5 = 20, finds 0, leaves at 0 - 5 = 21 round the circle
    assert_eq!(21, lookup_shifted(&ROTOR_ONE, 5, 15));
    // enters at 25 + 25 = 24, finds 2, leaves at 2 - 25 = 3 round the circle
    assert_eq!(3, lookup_shifted(&ROTOR_ONE, 25, 25));
    for offset in 0u8..26 {
        for p in 0u8..26 {
            let entry = (p as usize + offset as usize) % 26;
            let expected = (ROTOR_ONE[entry] as i32 - offset as i32).rem_euclid(26) as u8;
            assert_eq!(expected, lookup_shifted(&ROTOR_ONE, offset, p));
        }
    }
}
