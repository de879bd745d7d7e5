use ringbuf::text::{decimal_text, pad_name, NAME_WIDTH};
use ringbuf::variant::{eq_ignore_case, RingBufType};

#[test]
fn names_are_padded_to_thirty() {
    assert_eq!(NAME_WIDTH, 30);
    assert_eq!(pad_name("aes"), "aes                           ");
    assert_eq!(pad_name("aes").len(), 30);
    assert_eq!(pad_name(""), " ".repeat(30));
    let exact = "a".repeat(30);
    assert_eq!(pad_name(&exact), exact);
    let long = "b".repeat(31);
    assert_eq!(pad_name(&long), long);
    // the width counts bytes
    assert_eq!(pad_name("é").len(), 30);
    assert_eq!(pad_name("é").chars().count(), 29);
}

#[test]
fn numbers_in_decimal() {
    for n in [0, 1, 9, 10, 11, 99, 100, 12345, usize::MAX] {
        assert_eq!(decimal_text(n), n.to_string());
    }
    assert_eq!(decimal_text(0), "0");
    assert_eq!(decimal_text(1000), "1000");
}

#[test]
fn variants_by_name() {
    assert_eq!(RingBufType::from_name("R0S"), Some(RingBufType::R0S));
    assert_eq!(RingBufType::from_name("r1s"), Some(RingBufType::R1S));
    assert_eq!(RingBufType::from_name("R2s"), Some(RingBufType::R2S));
    assert_eq!(RingBufType::from_name("r2M"), Some(RingBufType::R2M));
    assert_eq!(RingBufType::from_name("R3S"), Some(RingBufType::R3S));
    assert_eq!(RingBufType::from_name("r3m"), Some(RingBufType::R3M));
    assert_eq!(RingBufType::from_name("R4S"), None);
    assert_eq!(RingBufType::from_name(""), None);
    assert_eq!(RingBufType::from_name("R0S "), None);
    assert_eq!(RingBufType::from_name("R0"), None);
    for v in RingBufType::variants() {
        assert_eq!(RingBufType::from_name(v.name()), Some(v));
    }
    assert_eq!(RingBufType::R3M.name(), "R3M");
    assert_eq!(RingBufType::variants().len(), 6);
}

#[test]
fn case_is_ignored_for_letters_only() {
    assert!(eq_ignore_case(b"abc", b"ABC"));
    assert!(eq_ignore_case(b"", b""));
    assert!(!eq_ignore_case(b"abc", b"abd"));
    assert!(!eq_ignore_case(b"abc", b"ab"));
    // '@' and '`' differ by the same bit as letters do, and are no letters
    assert!(!eq_ignore_case(b"@", b"`"));
    assert!(!eq_ignore_case(b"[", b"{"));
    assert!(eq_ignore_case(b"z", b"Z"));
}
