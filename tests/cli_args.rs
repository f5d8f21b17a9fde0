use socktop::cli::{parse_args, ArgsError};

fn args(v: &[&str]) -> Vec<String> {
    v.iter().map(|s| s.to_string()).collect()
}

#[test]
fn flags_short_long_and_assign() {
    let p = parse_args(args(&["socktop", "--tls-ca", "/tmp/cert.pem", "-P", "dev", "--save", "ws://h:1/ws"])).unwrap();
    assert_eq!(p.tls_ca.as_deref(), Some("/tmp/cert.pem"));
    assert_eq!(p.profile.as_deref(), Some("dev"));
    assert!(p.save && !p.demo && !p.dry_run);
    assert_eq!(p.url.as_deref(), Some("ws://h:1/ws"));
    let q = parse_args(args(&["socktop", "-t", "a.pem", "--profile=prod", "--dry-run", "--demo"])).unwrap();
    assert_eq!(q.tls_ca.as_deref(), Some("a.pem"));
    assert_eq!(q.profile.as_deref(), Some("prod"));
    assert!(q.dry_run && q.demo);
    assert!(q.url.is_none());
    let r = parse_args(args(&["socktop", "--tls-ca=/x.pem", "--profile=", "--tls-ca="])).unwrap();
    assert_eq!(r.tls_ca.as_deref(), Some("/x.pem"));
    assert!(r.profile.is_none());
}

#[test]
fn intervals() {
    let p = parse_args(args(&["socktop", "--metrics-interval-ms", "250", "--processes-interval-ms=4000"])).unwrap();
    assert_eq!(p.metrics_interval_ms, Some(250));
    assert_eq!(p.processes_interval_ms, Some(4000));
    let q = parse_args(args(&["socktop", "--metrics-interval-ms=abc", "--processes-interval-ms"])).unwrap();
    assert_eq!(q.metrics_interval_ms, None);
    assert_eq!(q.processes_interval_ms, None);
}

#[test]
fn help_and_unexpected() {
    assert_eq!(parse_args(args(&["socktop", "--help"])).err(), Some(ArgsError::Help));
    assert_eq!(parse_args(args(&["socktop", "-h", "ws://x"])).err(), Some(ArgsError::Help));
    assert_eq!(parse_args(args(&["socktop", "ws://a", "ws://b"])).err(), Some(ArgsError::Unexpected));
    assert!(parse_args(args(&[])).unwrap().url.is_none());
    assert!(parse_args(args(&["socktop"])).unwrap().url.is_none());
}
