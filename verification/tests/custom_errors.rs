use rust_scratch::custom_errors::{
    describe_root, format_chain, load_app_config, load_count, parse_config_line, report,
    validate, validate_username, AppError, ConfigError, LoadError, TooLong, ValidationError,
};

#[test]
fn username_length_limit() {
    assert!(validate_username("alice", 16).is_ok());
    let err = validate_username("this_name_is_way_too_long", 16).unwrap_err();
    assert_eq!(err, TooLong { len: 25, max: 16 });
    let msg = err.message();
    assert!(msg.contains("25"));
    assert!(msg.contains("16"));
    assert_eq!(msg, "username too long: 25 chars (max 16)");
}

#[test]
fn username_rules_in_order() {
    assert!(validate("alice_01", 3, 16).is_ok());
    match validate("ab", 3, 16) {
        Err(ValidationError::TooShort { len: 2, min: 3 }) => {}
        other => panic!("expected TooShort, got {other:?}"),
    }
    let s = validate("ab", 3, 16).unwrap_err().message();
    assert!(s.contains("short") || s.contains("2"));
    let long = "x".repeat(20);
    assert!(matches!(
        validate(&long, 3, 16),
        Err(ValidationError::TooLong { len: 20, max: 16 })
    ));
    match validate("bad name!", 3, 16) {
        Err(ValidationError::BadChar { ch: ' ' }) => {}
        other => panic!("expected BadChar(' '), got {other:?}"),
    }
    let bad = ValidationError::BadChar { ch: '!' }.message();
    assert!(bad.contains("'!'"), "got {bad}");
}

#[test]
fn config_line_cause() {
    assert_eq!(parse_config_line("port=8080").unwrap(), 8080);
    let e = parse_config_line("garbage").unwrap_err();
    assert!(e.source().is_none());
    assert_eq!(e, ConfigError::Malformed { line: "garbage".to_string() });
    let e = parse_config_line("port=99999").unwrap_err();
    let src = e.source().expect("BadPort should expose its cause");
    assert!(src.message().contains("too large"));
    assert!(!e.message().contains("number too large"));
}

#[test]
fn load_count_conversions() {
    assert_eq!(load_count("42").unwrap(), 42);
    let e = load_count("").unwrap_err();
    assert!(matches!(e, LoadError::Io(_)));
    let e = load_count("seven").unwrap_err();
    assert!(matches!(e, LoadError::Parse(_)));
}

#[test]
fn chain_roots() {
    let leaf = TooLong { len: 20, max: 16 };
    let links = vec![leaf.message()];
    assert_eq!(describe_root(&links), leaf.message());
    let chained = parse_config_line("port=99999").unwrap_err();
    let links = vec![chained.message(), chained.source().unwrap().message()];
    let root = describe_root(&links);
    assert!(root.contains("too large") || root.contains("invalid"));
}

#[test]
fn app_config_chains() {
    assert_eq!(load_app_config("app.conf", "port=8080").unwrap(), 8080);
    let e = load_app_config("app.missing", "port=8080").unwrap_err();
    assert!(matches!(e, AppError::Read { .. }));
    let chain = format_chain(&e.chain());
    assert!(chain.starts_with("failed to read"), "got: {chain}");
    assert!(chain.contains(": "));
    let e = load_app_config("app.conf", "port=99999").unwrap_err();
    assert!(matches!(e, AppError::Config { .. }));
    let chain = format_chain(&e.chain());
    assert!(chain.matches(": ").count() >= 2, "got: {chain}");
    assert!(chain.contains("too large") || chain.contains("invalid digit"));
    assert!(!e.message().contains("too large"));
}

#[test]
fn report_rendering() {
    let leaf = TooLong { len: 20, max: 16 };
    assert_eq!(report(&[leaf.message()]), "username too long: 20 chars (max 16)");
    let e = load_app_config("app.conf", "port=99999").unwrap_err();
    let links = e.chain();
    assert_eq!(links.len(), 3);
    let text = report(&links);
    let mut lines = text.lines();
    assert_eq!(lines.next().unwrap(), "invalid configuration");
    assert_eq!(lines.next().unwrap(), "");
    assert_eq!(lines.next().unwrap(), "Caused by:");
    assert_eq!(lines.next().unwrap(), "    0: invalid port number");
    let l = lines.next().unwrap();
    assert!(l.starts_with("    1: "));
    assert!(l.contains("too large"));
}
