use rust_scratch::conversions::{
    byte_len, double_all, extension, narrow, parse_config, shout, ConfigError, Percent,
    PercentError, Tag, Value, WrongType,
};
use rust_scratch::cow::{
    clamp_negatives, contains_upper, ensure_https, first_word, greeting, normalize, sanitize,
    Config, MyCow, SliceCow,
};
use rust_scratch::numparse::IntErrorKind;

#[test]
fn tag_owns_its_name() {
    assert_eq!(Tag::new("literal").name, "literal");
    assert_eq!(Tag::new(&String::from("owned")).name, "owned");
    assert_eq!(Tag::from_char('x').name, "x");
}

#[test]
fn parse_config_three_outcomes() {
    assert_eq!(parse_config("42"), Ok(42));
    assert!(matches!(parse_config("nope"), Err(ConfigError::NotANumber(_))));
    match parse_config("nope") {
        Err(ConfigError::NotANumber(e)) => assert_eq!(e.kind(), IntErrorKind::InvalidDigit),
        other => panic!("unexpected {:?}", other),
    }
    assert_eq!(parse_config("999"), Err(ConfigError::OutOfRange(999)));
    assert_eq!(parse_config("-1"), Err(ConfigError::OutOfRange(-1)));
    assert_eq!(parse_config("0"), Ok(0));
    assert_eq!(parse_config("100"), Ok(100));
}

#[test]
fn percent_try_from() {
    assert_eq!(Percent::try_from(50), Ok(Percent(50)));
    assert_eq!(Percent::try_from(150), Err(PercentError::OutOfRange(150)));
    assert_eq!(Percent::try_from(-1), Err(PercentError::OutOfRange(-1)));
    let p: Result<Percent, _> = 100.try_into();
    assert_eq!(p, Ok(Percent(100)));
    assert_eq!(Percent::try_from(0), Ok(Percent(0)));
    assert!(Percent::try_from(101).is_err());
}

#[test]
fn narrow_is_checked() {
    let truncated = 300i32 as u8;
    assert_eq!(truncated, 44);
    assert!(narrow(300i32).is_err());
    assert_eq!(narrow(200i32), Ok(200u8));
    assert_eq!(narrow(200u32), Ok(200u8));
    assert_eq!(narrow(0i64), Ok(0u8));
    assert!(narrow(-1i32).is_err());
}

#[test]
fn borrowed_views() {
    assert_eq!(shout("hi"), "HI");
    let owned = String::from("hi");
    assert_eq!(shout(&owned), "HI");
    assert_eq!(owned, "hi");
    assert_eq!(byte_len("abc".as_bytes()), 3);
    assert_eq!(byte_len(String::from("abcd").as_bytes()), 4);
    assert_eq!(byte_len(&vec![1u8, 2, 3]), 3);
    assert_eq!(byte_len(&[0u8; 5]), 5);
}

#[test]
fn extensions_of_paths() {
    assert_eq!(extension("file.rs"), Some("rs".to_string()));
    assert_eq!(extension("a.txt"), Some("txt".to_string()));
    assert_eq!(extension("/tmp/x.log"), Some("log".to_string()));
    assert_eq!(extension("noext"), None);
    assert_eq!(extension(".bashrc"), None);
    assert_eq!(extension("dir.d/file"), None);
    assert_eq!(extension("archive.tar.gz"), Some("gz".to_string()));
    assert_eq!(extension("a/b.txt/"), Some("txt".to_string()));
    assert_eq!(extension("a/.."), None);
    assert_eq!(extension("name."), Some(String::new()));
}

#[test]
fn doubling_in_place() {
    assert_eq!(double_all(vec![1, 2, 3]), vec![2, 4, 6]);
    assert_eq!(double_all(vec![10, 20]), vec![20, 40]);
    assert_eq!(double_all(vec![]), Vec::<i32>::new());
}

#[test]
fn dynamic_value_lookup_and_extraction() {
    let obj: Value<f64> = Value::Object(vec![
        ("name".to_string(), Value::Str("ada".to_string())),
        ("age".to_string(), Value::Num(36.0)),
    ]);
    assert_eq!(obj.get("name"), Some(&Value::Str("ada".to_string())));
    assert_eq!(obj.get(&String::from("age")), Some(&Value::Num(36.0)));
    assert_eq!(obj.get("missing"), None);
    assert_eq!(Value::<f64>::Null.get("x"), None);
    assert_eq!(Value::<f64>::Str("ada".to_string()).into_string(), Ok("ada".to_string()));
    assert_eq!(Value::Num(36.0).into_num(), Ok(36.0));
    assert_eq!(Value::<f64>::Bool(true).into_num(), Err(WrongType));
    assert_eq!(Value::<f64>::Num(1.0).into_string(), Err(WrongType));
    let dup: Value<i64> = Value::Object(vec![
        ("k".to_string(), Value::Num(1)),
        ("k".to_string(), Value::Num(2)),
    ]);
    assert_eq!(dup.get("k"), Some(&Value::Num(1)));
}

#[test]
fn https_is_added_only_when_missing() {
    let already = ensure_https("https://example.com");
    let fixed = ensure_https("example.com");
    assert_eq!(already.as_str(), "https://example.com");
    assert_eq!(fixed.as_str(), "https://example.com");
    assert!(matches!(already, MyCow::Borrowed(_)));
    assert!(matches!(fixed, MyCow::Owned(_)));
}

#[test]
fn sanitize_allocates_only_for_spaces() {
    let clean = sanitize("already_clean");
    let dirty = sanitize("hello world foo");
    assert_eq!(clean.as_str(), "already_clean");
    assert_eq!(dirty.as_str(), "hello_world_foo");
    assert!(matches!(clean, MyCow::Borrowed(_)));
    assert!(matches!(dirty, MyCow::Owned(_)));
}

#[test]
fn config_holds_either_kind() {
    let from_literal = Config::borrowed("default");
    let runtime = format!("user-{}", 42);
    let from_string = Config::owned(runtime);
    assert_eq!(from_literal.name(), "default");
    assert_eq!(from_string.name(), "user-42");
    assert!(matches!(from_literal.name, MyCow::Borrowed(_)));
    assert!(matches!(from_string.name, MyCow::Owned(_)));
}

#[test]
fn clamp_copies_on_first_negative() {
    let all_ok = [1, 2, 3];
    let has_neg = [1, -2, 3, -4];
    let a = clamp_negatives(&all_ok);
    let b = clamp_negatives(&has_neg);
    assert_eq!(a.as_slice(), &[1, 2, 3]);
    assert_eq!(b.as_slice(), &[1, 0, 3, 0]);
    assert!(matches!(a, SliceCow::Borrowed(_)));
    assert!(matches!(b, SliceCow::Owned(_)));
}

#[test]
fn greeting_borrows_only_the_finished_greeting() {
    let pre = greeting("hi there");
    let built = greeting("sam");
    assert_eq!(pre.as_str(), "hi there");
    assert_eq!(built.as_str(), "hi sam");
    assert!(matches!(pre, MyCow::Borrowed(_)));
    assert!(matches!(built, MyCow::Owned(_)));
}

#[test]
fn first_word_of_either_kind() {
    let borrowed = MyCow::Borrowed("hello world foo");
    let owned = MyCow::Owned(String::from("alpha beta"));
    let empty = MyCow::Borrowed("");
    assert_eq!(first_word(&borrowed), "hello");
    assert_eq!(first_word(&owned), "alpha");
    assert_eq!(first_word(&empty), "");
}

#[test]
fn normalize_borrows_clean_words() {
    let input = ["hello", "World", "rust", "COW"];
    let out = normalize(&input);
    let texts: Vec<&str> = out.iter().map(|c| c.as_str()).collect();
    assert_eq!(texts, ["hello", "world", "rust", "cow"]);
    let borrowed = out.iter().filter(|c| matches!(c, MyCow::Borrowed(_))).count();
    let owned = out.iter().filter(|c| matches!(c, MyCow::Owned(_))).count();
    assert_eq!(borrowed, 2);
    assert_eq!(owned, 2);
    assert!(contains_upper("World"));
    assert!(!contains_upper("world"));
}

#[test]
fn my_cow_upgrades_on_write() {
    let b = MyCow::Borrowed("hi");
    let o = MyCow::Owned(String::from("yo"));
    assert_eq!(b.as_str(), "hi");
    assert_eq!(o.as_str(), "yo");
    let mut c = MyCow::Borrowed("ab");
    c.to_mut().push('c');
    assert_eq!(c.as_str(), "abc");
    assert!(matches!(c, MyCow::Owned(_)));
    let mut d = MyCow::Owned(String::from("x"));
    d.to_mut().push('y');
    assert_eq!(d.as_str(), "xy");
    assert!(matches!(d, MyCow::Owned(_)));
    assert_eq!(MyCow::Borrowed("z").into_owned(), "z");
    assert_eq!(MyCow::Owned(String::from("w")).into_owned(), "w");
}

#[test]
fn fixes_settle_on_second_pass() {
    let once = sanitize("a b c");
    assert!(matches!(sanitize(once.as_str()), MyCow::Borrowed(_)));
    let https = ensure_https("x.org");
    assert!(matches!(ensure_https(https.as_str()), MyCow::Borrowed(_)));
    let c = clamp_negatives(&[-1, 2, -3]);
    assert!(matches!(clamp_negatives(c.as_slice()), SliceCow::Borrowed(_)));
}
