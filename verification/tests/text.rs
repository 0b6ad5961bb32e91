use morning::text::{push_int, push_left_justified, push_nat, push_spaces};

#[test]
fn decimal_of_natural_numbers() {
    let mut s = String::new();
    push_nat(&mut s, 0);
    s.push(' ');
    push_nat(&mut s, 7);
    s.push(' ');
    push_nat(&mut s, 10);
    s.push(' ');
    push_nat(&mut s, 420);
    s.push(' ');
    push_nat(&mut s, u64::MAX);
    assert_eq!(s, "0 7 10 420 18446744073709551615");
}

#[test]
fn decimal_of_integers_keeps_the_sign() {
    let mut s = String::new();
    push_int(&mut s, 0);
    s.push(' ');
    push_int(&mut s, -1);
    s.push(' ');
    push_int(&mut s, 16);
    s.push(' ');
    push_int(&mut s, i64::MAX);
    s.push(' ');
    push_int(&mut s, i64::MIN);
    assert_eq!(s, "0 -1 16 9223372036854775807 -9223372036854775808");
}

#[test]
fn decimal_agrees_with_the_standard_formatting() {
    for v in [-1000i64, -99, -10, -9, 0, 9, 10, 11, 99, 100, 101, 123456789] {
        let mut s = String::new();
        push_int(&mut s, v);
        assert_eq!(s, format!("{}", v));
    }
}

#[test]
fn appends_after_what_is_there() {
    let mut s = String::from("x=");
    push_int(&mut s, -42);
    assert_eq!(s, "x=-42");
}

#[test]
fn spaces_are_counted() {
    let mut s = String::from("[");
    push_spaces(&mut s, 0);
    s.push(']');
    push_spaces(&mut s, 3);
    s.push('|');
    assert_eq!(s, "[]   |");
}

#[test]
fn mnemonics_fill_a_column_of_ten() {
    let mut s = String::new();
    push_left_justified(&mut s, "mov", 10);
    s.push('|');
    assert_eq!(s, "mov       |");
    assert_eq!(format!("{:<10}|", "mov"), s);
}

#[test]
fn long_names_are_not_cut() {
    let mut s = String::new();
    push_left_justified(&mut s, "a_very_long_mnemonic", 10);
    assert_eq!(s, "a_very_long_mnemonic");
    let mut t = String::new();
    push_left_justified(&mut t, "exactly_10", 10);
    assert_eq!(t, "exactly_10");
}
