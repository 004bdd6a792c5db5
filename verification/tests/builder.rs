use rust_scratch::builder::{
    build_conn, clone_pairs, lookup, upsert, ApiCall, ApiCallBuilder, BuildError, ConfigError,
    Connection, ConnectionBuilder, EmailBuilder, HttpRequest, HttpRequestBuilder, ReqBuilder,
    ServerConfig, ServerOpts, ServerOptsBuilder,
};

#[test]
fn consuming_builder_chains() {
    let req = HttpRequestBuilder::new()
        .method("POST")
        .url("https://example.com")
        .body("hello")
        .build();
    assert_eq!(
        req,
        HttpRequest {
            method: "POST".to_string(),
            url: "https://example.com".to_string(),
            body: "hello".to_string(),
        }
    );
    let req2 = HttpRequestBuilder::new().url("https://x.com").build();
    assert_eq!(req2.method, "GET");
    assert_eq!(req2.body, "");
}

#[test]
fn borrowing_builder_reuses() {
    let req = ReqBuilder::new()
        .method("PUT")
        .url("https://api.test")
        .body("data")
        .build();
    assert_eq!(req.method, "PUT");
    assert_eq!(req.url, "https://api.test");
    let mut b = ReqBuilder::new();
    b.url("https://reuse.test").method("GET");
    let r1 = b.build();
    b.method("DELETE");
    let r2 = b.build();
    assert_eq!(r1.method, "GET");
    assert_eq!(r2.method, "DELETE");
    assert_eq!(r1.url, r2.url);
}

#[test]
fn optional_fields_default() {
    let s = ServerOptsBuilder::new().build();
    assert_eq!(
        s,
        ServerOpts {
            host: "127.0.0.1".to_string(),
            port: 8080,
            max_conns: 100,
            tls: false,
        }
    );
    let s2 = ServerOptsBuilder::new()
        .host("0.0.0.0")
        .port(9000)
        .max_conns(250)
        .tls(true)
        .build();
    assert_eq!(s2.host, "0.0.0.0");
    assert_eq!(s2.port, 9000);
    assert_eq!(s2.tls, true);
    assert_eq!(s2.max_conns, 250);
}

#[test]
fn validated_build() {
    let c = ConnectionBuilder::new()
        .name("db")
        .port(5432)
        .build()
        .expect("valid");
    assert_eq!(
        c,
        Connection {
            name: "db".to_string(),
            port: 5432,
            retries: 3,
        }
    );
    let e = ConnectionBuilder::new().port(5432).build();
    assert_eq!(e, Err(BuildError::MissingName));
    let e2 = ConnectionBuilder::new().name("db").port(0).build();
    assert_eq!(e2, Err(BuildError::InvalidPort));
    let c2 = ConnectionBuilder::new().name("cache").build().unwrap();
    assert_eq!(c2.port, 8080);
    assert_eq!(c2.retries, 3);
}

#[test]
fn conditional_settings() {
    let c = build_conn(false).unwrap();
    assert_eq!(c.name, "svc");
    assert_eq!(c.port, 5432);
    assert_eq!(c.retries, 3);
    let c2 = build_conn(true).unwrap();
    assert_eq!(c2.retries, 10);
}

#[test]
fn repeatable_setters() {
    let owned_addr = String::from("c@x.com");
    let mut b = EmailBuilder::new();
    b.to("a@x.com")
        .to("b@x.com")
        .to(&owned_addr)
        .header("X-Trace", "1")
        .header("X-Env", "prod")
        .subject("hello");
    let email = b.build();
    assert_eq!(email.to, vec!["a@x.com", "b@x.com", "c@x.com"]);
    assert_eq!(email.headers.len(), 2);
    assert_eq!(lookup(&email.headers, "X-Trace").map(String::as_str), Some("1"));
    assert_eq!(lookup(&email.headers, "X-Env").map(String::as_str), Some("prod"));
    assert_eq!(email.subject, "hello");
}

#[test]
fn association_list_upsert() {
    let mut pairs: Vec<(String, String)> = Vec::new();
    upsert(&mut pairs, "a".to_string(), "1".to_string());
    upsert(&mut pairs, "b".to_string(), "2".to_string());
    upsert(&mut pairs, "a".to_string(), "3".to_string());
    assert_eq!(pairs.len(), 2);
    assert_eq!(lookup(&pairs, "a").map(String::as_str), Some("3"));
    assert_eq!(lookup(&pairs, "missing"), None);
    assert_eq!(clone_pairs(&pairs), pairs);
}

#[test]
fn typestate_builder() {
    let call = ApiCallBuilder::new()
        .endpoint("https://api.test/v1")
        .token("secret")
        .build();
    assert_eq!(
        call,
        ApiCall {
            endpoint: "https://api.test/v1".to_string(),
            token: "secret".to_string(),
            timeout_ms: 30_000,
        }
    );
    let call2 = ApiCallBuilder::new()
        .token("secret")
        .timeout(5_000)
        .endpoint("https://api.test/v2")
        .build();
    assert_eq!(call2.timeout_ms, 5_000);
}

#[test]
fn server_config_capstone() {
    let cfg = ServerConfig::builder()
        .bind_addr("0.0.0.0")
        .port(9090)
        .workers(8)
        .route("/health")
        .route("/metrics")
        .env("LOG", "info")
        .build()
        .expect("valid config");
    assert_eq!(cfg.bind_addr, "0.0.0.0");
    assert_eq!(cfg.port, 9090);
    assert_eq!(cfg.workers, 8);
    assert_eq!(cfg.routes, vec!["/health", "/metrics"]);
    assert_eq!(lookup(&cfg.env, "LOG").map(String::as_str), Some("info"));
    let cfg2 = ServerConfig::builder()
        .bind_addr("127.0.0.1")
        .route("/")
        .build()
        .unwrap();
    assert_eq!(cfg2.port, 8080);
    assert_eq!(cfg2.workers, 4);
    assert_eq!(
        ServerConfig::builder().route("/").build(),
        Err(ConfigError::MissingBindAddr),
    );
    assert_eq!(
        ServerConfig::builder().bind_addr("x").build(),
        Err(ConfigError::NoRoutes),
    );
    assert_eq!(
        ServerConfig::builder().bind_addr("x").route("/").port(0).build(),
        Err(ConfigError::ZeroPort),
    );
    assert_eq!(
        ServerConfig::builder().bind_addr("x").route("/").workers(0).build(),
        Err(ConfigError::ZeroWorkers),
    );
}

#[test]
fn env_order_does_not_change_equality() {
    let first = ServerConfig::builder()
        .bind_addr("0.0.0.0")
        .route("/")
        .env("LOG", "info")
        .env("MODE", "prod")
        .env("AREA", "eu")
        .build()
        .unwrap();
    let second = ServerConfig::builder()
        .bind_addr("0.0.0.0")
        .route("/")
        .env("AREA", "eu")
        .env("MODE", "dev")
        .env("LOG", "info")
        .env("MODE", "prod")
        .build()
        .unwrap();
    assert_eq!(first, second);
    let third = ServerConfig::builder()
        .bind_addr("0.0.0.0")
        .route("/")
        .env("LOG", "debug")
        .env("MODE", "prod")
        .env("AREA", "eu")
        .build()
        .unwrap();
    assert_ne!(first, third);
}

#[test]
fn header_order_does_not_change_equality() {
    let mut a = EmailBuilder::new();
    a.to("x@y.z").header("X-One", "1").header("X-Two", "2");
    let mut b = EmailBuilder::new();
    b.to("x@y.z").header("X-Two", "2").header("X-One", "1");
    assert_eq!(a.build(), b.build());
}

#[test]
fn upsert_on_unordered_list_and_lookup_takes_last_entry() {
    let mut pairs = vec![
        ("b".to_string(), "1".to_string()),
        ("a".to_string(), "2".to_string()),
        ("b".to_string(), "3".to_string()),
    ];
    assert_eq!(lookup(&pairs, "b").map(String::as_str), Some("3"));
    upsert(&mut pairs, "b".to_string(), "4".to_string());
    assert_eq!(lookup(&pairs, "b").map(String::as_str), Some("4"));
    assert_eq!(lookup(&pairs, "a").map(String::as_str), Some("2"));
    let mut sorted = Vec::new();
    for k in ["m", "c", "x", "a", "c"] {
        upsert(&mut sorted, k.to_string(), k.to_uppercase());
    }
    let keys: Vec<&str> = sorted.iter().map(|(k, _)| k.as_str()).collect();
    assert_eq!(keys, vec!["a", "c", "m", "x"]);
}
