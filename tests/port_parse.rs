use socktop::args::{parse_decimal, parse_port};

#[test]
fn port_long_short_and_assign() {
    assert_eq!(
        parse_port(vec!["agent".into(), "--port".into(), "9001".into()], 8443),
        9001
    );
    assert_eq!(
        parse_port(vec!["agent".into(), "-p".into(), "9002".into()], 8443),
        9002
    );
    assert_eq!(
        parse_port(vec!["agent".into(), "--port=9003".into()], 8443),
        9003
    );
    assert_eq!(parse_port(vec!["agent".into()], 8443), 8443);
}

#[test]
fn port_long_wins_over_short_and_bad_values_fall_back() {
    let args = vec!["agent".to_string(), "-p".into(), "7000".into(), "--port".into(), "7001".into()];
    assert_eq!(parse_port(args, 1), 7001);
    assert_eq!(parse_port(vec!["agent".into(), "--port".into(), "70000".into()], 5), 5);
    assert_eq!(parse_port(vec!["agent".into(), "--port".into()], 5), 5);
    assert_eq!(parse_port(vec!["agent".into(), "--port=".into()], 5), 5);
    assert_eq!(parse_port(vec!["--port".into(), "9".into()], 5), 5);
}

#[test]
fn decimal_follows_unsigned_parsing() {
    assert_eq!(parse_decimal(b"+42", 100), Some(42));
    assert_eq!(parse_decimal(b"0", 100), Some(0));
    assert_eq!(parse_decimal(b"101", 100), None);
    assert_eq!(parse_decimal(b"+", 100), None);
    assert_eq!(parse_decimal(b"", 100), None);
    assert_eq!(parse_decimal(b"-1", 100), None);
    assert_eq!(parse_decimal(b"12a", 100), None);
    assert_eq!(parse_decimal(b"18446744073709551615", u64::MAX), Some(u64::MAX));
    assert_eq!(parse_decimal(b"18446744073709551616", u64::MAX), None);
}
