use vix::text::{check_name, join2, join3, format_hex16, parse_hex, starts_with, NameFault};

#[test]
fn check_name_accepts_lowercase_digits_underscore() {
    assert_eq!(check_name("users_2024"), None);
    assert_eq!(check_name("a"), None);
}

#[test]
fn check_name_reports_each_fault() {
    assert_eq!(check_name(""), Some(NameFault::Empty));
    assert_eq!(check_name("_hidden"), Some(NameFault::LeadingUnderscore));
    assert_eq!(check_name("Users"), Some(NameFault::InvalidChar));
    assert_eq!(check_name("a-b"), Some(NameFault::InvalidChar));
    assert_eq!(check_name("é"), Some(NameFault::InvalidChar));
}

#[test]
fn concat_joins_strings() {
    assert_eq!(join2("log_", "abc"), "log_abc");
    assert_eq!(join3("collection/", "x", "/document"), "collection/x/document");
}

#[test]
fn starts_with_compares_prefix() {
    assert!(starts_with("commit_0001", "commit_"));
    assert!(!starts_with("commi", "commit_"));
    assert!(!starts_with("xommit_", "commit_"));
}

#[test]
fn format_hex16_pads_to_sixteen_lowercase_digits() {
    assert_eq!(format_hex16(1), "0000000000000001");
    assert_eq!(format_hex16(0xabc), "0000000000000abc");
    assert_eq!(format_hex16(u64::MAX), "ffffffffffffffff");
    assert_eq!(format_hex16(1), format!("{:016x}", 1u64));
}

#[test]
fn parse_hex_reads_digits_of_either_case() {
    assert_eq!(parse_hex("00ff"), Some(255));
    assert_eq!(parse_hex("00FF"), Some(255));
    assert_eq!(parse_hex(""), Some(0));
    assert_eq!(parse_hex("0g"), None);
    assert_eq!(parse_hex("00000000000000001"), None);
}

#[test]
fn hex16_read_back_gives_the_number() {
    for n in [0u64, 1, 42, 0x1234_5678_9abc_def0, u64::MAX] {
        assert_eq!(parse_hex(&format_hex16(n)), Some(n));
    }
}
