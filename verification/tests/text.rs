use rusty_mikanos::{str_trimming_nul, str_trimming_nul_unchecked};

#[test]
fn str_trimming_nul_unchecked_test() {
    assert_eq!(str_trimming_nul_unchecked(b"\0"), "");
    assert_eq!(str_trimming_nul_unchecked(b"abc\0"), "abc");
    assert_eq!(str_trimming_nul_unchecked(b"bcd\0\0\0"), "bcd");
    assert_eq!(str_trimming_nul_unchecked(b"\0cde\0\0\0"), "");
}

#[test]
fn str_trimming_nul_without_nul_and_invalid() {
    assert_eq!(str_trimming_nul(b"xyz").unwrap(), "xyz");
    assert!(str_trimming_nul(b"\xff\0").is_err());
    assert_eq!(str_trimming_nul(b"\xe3\x81\x82\0\xff").unwrap(), "\u{3042}");
}
