use pinentry_op::text::{
    push_decimal, push_stripped, same_ignoring_case, to_ascii_lower, to_ascii_upper,
};

fn decimal_of(n: u32) -> String {
    let mut out = String::new();
    push_decimal(&mut out, n);
    out
}

fn stripped(s: &str) -> String {
    let mut out = String::new();
    push_stripped(&mut out, s);
    out
}

#[test]
fn upper_casing_folds_ascii_letters_only() {
    assert_eq!(to_ascii_upper('a'), 'A');
    assert_eq!(to_ascii_upper('z'), 'Z');
    assert_eq!(to_ascii_upper('m'), 'M');
    assert_eq!(to_ascii_upper('A'), 'A');
    assert_eq!(to_ascii_upper('`'), '`');
    assert_eq!(to_ascii_upper('{'), '{');
    assert_eq!(to_ascii_upper(' '), ' ');
    assert_eq!(to_ascii_upper('7'), '7');
    assert_eq!(to_ascii_upper('é'), 'é');
    assert_eq!(to_ascii_upper('ß'), 'ß');
}

#[test]
fn lower_casing_folds_ascii_letters_only() {
    assert_eq!(to_ascii_lower('A'), 'a');
    assert_eq!(to_ascii_lower('Z'), 'z');
    assert_eq!(to_ascii_lower('a'), 'a');
    assert_eq!(to_ascii_lower('@'), '@');
    assert_eq!(to_ascii_lower('['), '[');
    assert_eq!(to_ascii_lower('-'), '-');
    assert_eq!(to_ascii_lower('É'), 'É');
    assert_eq!(to_ascii_lower('\u{212a}'), '\u{212a}');
}

#[test]
fn case_folding_agrees_with_std() {
    for code in 0u32..0x300 {
        let c = char::from_u32(code).unwrap();
        assert_eq!(to_ascii_upper(c), c.to_ascii_uppercase());
        assert_eq!(to_ascii_lower(c), c.to_ascii_lowercase());
    }
}

#[test]
fn comparison_ignores_ascii_case() {
    assert!(same_ignoring_case("", ""));
    assert!(same_ignoring_case("flavor", "FLAVOR"));
    assert!(same_ignoring_case("Allow-External-Password-Cache", "allow-external-password-cache"));
    assert!(same_ignoring_case("TtyInfo", "ttyinfo"));
    assert!(!same_ignoring_case("flavor", "flavour"));
    assert!(!same_ignoring_case("flavor", "flavo"));
    assert!(!same_ignoring_case("pid", "pie"));
    assert!(!same_ignoring_case("pid ", "pid"));
    assert!(!same_ignoring_case(" pid", "pid"));
    assert!(!same_ignoring_case("[", "{"));
    assert!(!same_ignoring_case("@", "`"));
    assert!(same_ignoring_case("grüße", "GRüßE"));
    assert!(!same_ignoring_case("É", "é"));
}

#[test]
fn comparison_agrees_with_std() {
    let samples = ["", "a", "A", "pid", "PID", "Pid", "pi", "version", "ttyinfo", "@", "`", "é", "É"];
    for a in samples {
        for b in samples {
            assert_eq!(same_ignoring_case(a, b), a.eq_ignore_ascii_case(b));
        }
    }
}

#[test]
fn stripping_removes_every_line_break() {
    assert_eq!(stripped(""), "");
    assert_eq!(stripped("secret"), "secret");
    assert_eq!(stripped("secret\n"), "secret");
    assert_eq!(stripped("secret\r\n"), "secret");
    assert_eq!(stripped("\nse\rcr\n\net\r"), "secret");
    assert_eq!(stripped("\r\n\r\n"), "");
    assert_eq!(stripped("two words\tand a tab"), "two words\tand a tab");
    assert_eq!(stripped("pä\nß"), "päß");
}

#[test]
fn stripping_appends_to_what_is_there() {
    let mut out = String::from("D ");
    push_stripped(&mut out, "a\nb");
    assert_eq!(out, "D ab");
}

#[test]
fn decimal_notation() {
    assert_eq!(decimal_of(0), "0");
    assert_eq!(decimal_of(7), "7");
    assert_eq!(decimal_of(9), "9");
    assert_eq!(decimal_of(10), "10");
    assert_eq!(decimal_of(42), "42");
    assert_eq!(decimal_of(100), "100");
    assert_eq!(decimal_of(4242), "4242");
    assert_eq!(decimal_of(1_000_000), "1000000");
    assert_eq!(decimal_of(u32::MAX), "4294967295");
}

#[test]
fn decimal_notation_agrees_with_std() {
    let mut n: u32 = 1;
    for _ in 0..200 {
        assert_eq!(decimal_of(n), n.to_string());
        n = n.wrapping_mul(2_654_435_761).wrapping_add(12_345);
    }
}

#[test]
fn decimal_appends_to_what_is_there() {
    let mut out = String::from("D ");
    push_decimal(&mut out, 305);
    assert_eq!(out, "D 305");
}
