use userstore::text::{is_digits, join_ids, parse_id, render_decimal};

#[test]
fn renders_decimal() {
    assert_eq!(render_decimal(0), b"0".to_vec());
    assert_eq!(render_decimal(9), b"9".to_vec());
    assert_eq!(render_decimal(10), b"10".to_vec());
    assert_eq!(render_decimal(4075), b"4075".to_vec());
    assert_eq!(render_decimal(u64::MAX), b"18446744073709551615".to_vec());
}

#[test]
fn joins_with_commas() {
    assert_eq!(join_ids(&vec![]), b"".to_vec());
    assert_eq!(join_ids(&vec![5]), b"5".to_vec());
    assert_eq!(join_ids(&vec![0, 1]), b"0,1".to_vec());
    assert_eq!(join_ids(&vec![0, 12, 345]), b"0,12,345".to_vec());
}

#[test]
fn tells_digit_strings() {
    assert!(is_digits(b""));
    assert!(is_digits(b"0123456789"));
    assert!(!is_digits(b"12a"));
    assert!(!is_digits(b"/"));
    assert!(!is_digits(b":"));
}

#[test]
fn parses_handles() {
    assert_eq!(parse_id(b"0"), Some(0));
    assert_eq!(parse_id(b"42"), Some(42));
    assert_eq!(parse_id(b"007"), Some(7));
    assert_eq!(parse_id(b"18446744073709551615"), Some(u64::MAX));
}

#[test]
fn rejects_what_is_no_handle() {
    assert_eq!(parse_id(b""), None);
    assert_eq!(parse_id(b"12a"), None);
    assert_eq!(parse_id(b"+5"), None);
    assert_eq!(parse_id(b"-5"), None);
    assert_eq!(parse_id(b"18446744073709551616"), None);
    assert_eq!(parse_id(b"99999999999999999999999"), None);
    assert_eq!(parse_id(b"184467440737095516150"), None);
}

#[test]
fn rendered_handle_reads_back() {
    for n in [0u64, 1, 9, 10, 99, 100, 65535, u64::MAX - 1, u64::MAX] {
        assert_eq!(parse_id(&render_decimal(n)), Some(n));
    }
}
