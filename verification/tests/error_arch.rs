use rust_scratch::collections::my_hash_map::MyHashMap;
use rust_scratch::error_arch::my_error::{context_error, context_parse, parse_positive, MyError};
use rust_scratch::error_arch::store::{db, get_number, StoreError};
use rust_scratch::error_arch::{
    adapt_legacy, classify, first_number, load_user, no_attempts_result, parse_and_double,
    read_port, retry_step, run_pipeline, stage_a, stage_b, ApiError, ConfigError, DoubleError,
    LoadError, NarrowError, PipelineError, RetryAction, UserLoadError,
};
use rust_scratch::numparse::{parse_i32, IntErrorKind};

/// Drives `retry_step` the way a caller's retry loop does, without waiting
/// between attempts.
fn run_with_retry<T>(max_attempts: u32, mut op: impl FnMut() -> Result<T, ApiError>) -> Result<T, ApiError> {
    let mut attempt = 0;
    while attempt < max_attempts {
        match retry_step(attempt, max_attempts, op()) {
            RetryAction::Finish(r) => return r,
            RetryAction::Retry { .. } => attempt += 1,
        }
    }
    no_attempts_result()
}

#[test]
fn parse_and_double_refuses_thirteen() {
    assert_eq!(parse_and_double("21").unwrap(), 42);
    assert!(parse_and_double("oops").is_err());
    assert_eq!(parse_and_double("13"), Err(DoubleError::Unlucky));
    assert_eq!(DoubleError::Unlucky.message(), "13 is unlucky");
}

#[test]
fn read_port_three_ways() {
    let mut cfg: MyHashMap<String> = MyHashMap::new();
    cfg.insert("port".to_string(), "8080".to_string());
    assert_eq!(read_port(&cfg).unwrap(), 8080);
    let empty: MyHashMap<String> = MyHashMap::new();
    match read_port(&empty) {
        Err(ConfigError::Missing(k)) => assert_eq!(k, "port"),
        other => panic!("expected Missing, got {other:?}"),
    }
    let mut bad: MyHashMap<String> = MyHashMap::new();
    bad.insert("port".to_string(), "notanumber".to_string());
    assert!(matches!(read_port(&bad), Err(ConfigError::Parse(_))));
    let e = ConfigError::Missing("port".to_string());
    assert_eq!(e.message(), "missing key: port");
    assert_eq!(e.source(), None);
    let ce = read_port(&bad).unwrap_err();
    assert!(ce.source().is_some());
}

#[test]
fn first_number_errors() {
    assert_eq!(first_number("42\n99").unwrap(), 42);
    assert!(matches!(first_number(""), Err(LoadError::Empty)));
    assert!(matches!(first_number("   "), Err(LoadError::Empty)));
    assert!(matches!(first_number("nope"), Err(LoadError::BadNumber(_))));
    assert_eq!(first_number("nope").unwrap_err().message()[..12].to_string(), "bad number: ");
    assert_eq!(LoadError::Io("x".to_string()).message(), "io error: x");
}

#[test]
fn load_user_outcomes() {
    assert_eq!(load_user("data", "21").unwrap(), 42);
    let e = load_user("missing", "21").unwrap_err();
    assert_eq!(e.message(), "no such dir: missing");
    match load_user("data", "xyz") {
        Err(UserLoadError::BadId(id, inner)) => {
            assert_eq!(id, "xyz");
            assert_eq!(inner.kind(), IntErrorKind::InvalidDigit);
        }
        other => panic!("unexpected {other:?}"),
    }
}

#[test]
fn classify_by_found_error() {
    assert_eq!(classify(Some(&LoadError::Empty)), "empty");
    let bad = LoadError::BadNumber(parse_i32("z").unwrap_err());
    assert_eq!(classify(Some(&bad)), "load");
    assert_eq!(classify(None), "other");
    assert_eq!(classify(Some(&LoadError::Io("x".to_string()))), "other");
}

#[test]
fn two_stage_pipeline() {
    assert_eq!(run_pipeline("200").unwrap(), 200u8);
    assert!(matches!(run_pipeline("xyz"), Err(PipelineError::StageA(_))));
    assert!(matches!(run_pipeline("99999"), Err(PipelineError::StageB(_))));
    assert_eq!(stage_a("-4"), Ok(-4));
    assert_eq!(stage_b(256), Err(NarrowError));
    assert_eq!(stage_b(255), Ok(255));
    assert_eq!(adapt_legacy(true).unwrap(), 7);
    match adapt_legacy(false) {
        Err(PipelineError::Legacy(msg)) => assert_eq!(msg, "legacy blew up"),
        other => panic!("expected Legacy, got {other:?}"),
    }
    let e = adapt_legacy(false).unwrap_err();
    assert_eq!(e.message(), "legacy: legacy blew up");
}

#[test]
fn store_typed_errors() {
    assert_eq!(get_number("port").unwrap(), 8080);
    match get_number("missing") {
        Err(StoreError::NotFound { key }) => assert_eq!(key, "missing"),
        other => panic!("expected typed NotFound, got {other:?}"),
    }
    assert!(matches!(get_number("timeout"), Err(StoreError::Parse(_))));
    assert_eq!(db("port"), Some("8080"));
    assert_eq!(db("nothing"), None);
    assert_eq!(
        StoreError::NotFound { key: "missing".to_string() }.message(),
        "key not found: missing"
    );
}

#[test]
fn api_error_classification() {
    assert!(ApiError::Timeout.is_retryable());
    assert!(ApiError::ServiceUnavailable.is_retryable());
    assert!(ApiError::RateLimited { retry_after_secs: 5 }.is_retryable());
    assert!(!ApiError::Unauthorized.is_retryable());
    assert!(!ApiError::NotFound { resource: "x".into() }.is_retryable());
    assert_eq!(ApiError::RateLimited { retry_after_secs: 5 }.retry_after(), Some(5));
    assert_eq!(ApiError::Timeout.retry_after(), None);
    assert_eq!(
        ApiError::RateLimited { retry_after_secs: 5 }.message(),
        "rate limited, retry after 5s"
    );
}

#[test]
fn retry_loop_decisions() {
    let mut calls = 0u32;
    let res = run_with_retry(3, || {
        calls += 1;
        if calls < 3 { Err(ApiError::Timeout) } else { Ok(calls) }
    });
    assert_eq!(res.unwrap(), 3);
    assert_eq!(calls, 3);
    let mut calls = 0u32;
    let res = run_with_retry(5, || {
        calls += 1;
        Err::<(), _>(ApiError::Unauthorized)
    });
    assert!(matches!(res, Err(ApiError::Unauthorized)));
    assert_eq!(calls, 1);
    let mut calls = 0u32;
    let res = run_with_retry(2, || {
        calls += 1;
        Err::<(), _>(ApiError::ServiceUnavailable)
    });
    assert!(matches!(res, Err(ApiError::ServiceUnavailable)));
    assert_eq!(calls, 2);
    match retry_step::<()>(0, 3, Err(ApiError::RateLimited { retry_after_secs: 7 })) {
        RetryAction::Retry { wait_secs } => assert_eq!(wait_secs, Some(7)),
        _ => panic!("expected a retry"),
    }
    assert!(matches!(no_attempts_result::<u8>(), Err(ApiError::ServiceUnavailable)));
}

#[test]
fn my_error_context_chain() {
    assert_eq!(parse_positive("42").unwrap(), 42);
    let e = parse_positive("abc").unwrap_err();
    assert!(e.message().contains("invalid digit"));
    let e = context_error(parse_positive("abc"), "while parsing the port").unwrap_err();
    let chain = e.chain();
    assert_eq!(chain.len(), 2);
    assert_eq!(chain[0], "while parsing the port");
    assert!(chain[1].contains("invalid digit"));
    let base: Result<(), MyError> = Err(MyError::from_message("boom"));
    let e = context_error(base, "loading file").unwrap_err();
    assert_eq!(e.chain()[0], "loading file");
    assert_eq!(e.chain()[1], "boom");
    let p = context_parse(parse_i32("x"), "reading count").unwrap_err();
    assert_eq!(p.chain()[0], "reading count");
    assert_eq!(p.chain().len(), 2);
    assert_eq!(MyError::from_message("m").context("outer").message(), "outer");
}
