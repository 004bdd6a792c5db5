use rust_scratch::concurrency_models::kv::{KvCore, StoreOp, StoreReply};
use rust_scratch::concurrency_models::{
    byte_sum, chunk_bounds, chunk_partial, chunk_sum, keep_stage, pipeline, sum_by_chunks,
    sum_values, total_work, triple_stage, work,
};
use rust_scratch::features_cfg::{
    active_features, build_profile, build_report, config_dir, describe, enabled_units,
    feature_line, platform_tag, pretty_line, roll_die, BuildFlags, Report,
};
use rust_scratch::r2_libbin::tax;

#[test]
fn chunked_sums_match_gauss() {
    let n = 1_000_000u64;
    let expected = n * (n + 1) / 2;
    assert_eq!(sum_by_chunks(n), expected);
    assert_eq!(sum_by_chunks(8), 36);
    assert_eq!(sum_by_chunks(10), 55);
    assert_eq!(chunk_bounds(100, 0), (1, 12));
    assert_eq!(chunk_bounds(100, 7), (85, 100));
    assert_eq!(chunk_sum(1, 10), 55);
    assert_eq!(chunk_partial(100, 7), (85..=100).sum::<u64>());
}

#[test]
fn chunked_sums_below_thread_count() {
    assert_eq!(sum_by_chunks(0), 0);
    assert_eq!(sum_by_chunks(1), 1);
    assert_eq!(sum_by_chunks(5), 15);
    assert_eq!(sum_by_chunks(7), 28);
    assert_eq!(chunk_partial(5, 0), 0);
    assert_eq!(chunk_partial(5, 7), 15);
}

#[test]
fn jobs_and_pipeline() {
    assert_eq!(sum_values(&[1, 2, 3, 4]), 10);
    assert_eq!(byte_sum(&[1, 2, 250]), 253);
    assert_eq!(triple_stage(7), 21);
    assert!(keep_stage(6));
    assert!(!keep_stage(9));
    let input: Vec<i64> = (1..=10).collect();
    assert_eq!(pipeline(&input), vec![6, 12, 18, 24, 30]);
    let tasks: Vec<u64> = (0..50).collect();
    let expected: u64 = tasks.iter().map(|&t| t.wrapping_mul(2654435761) % 1_000_000).sum();
    assert_eq!(total_work(&tasks), expected);
    assert_eq!(work(1), 654435761 % 1_000_000);
}

#[test]
fn kv_core_single_threaded_behaviour() {
    let mut store = KvCore::new();
    assert_eq!(store.get("a"), None);
    store.set("a", "1");
    store.set("b", "2");
    assert_eq!(store.get("a"), Some("1".to_string()));
    assert_eq!(store.len(), 2);
    store.set("a", "3");
    assert_eq!(store.get("a"), Some("3".to_string()));
    store.delete("b");
    assert_eq!(store.get("b"), None);
    assert_eq!(store.len(), 1);
    assert!(store.can_set());
}

#[test]
fn kv_core_applies_commands() {
    let mut store = KvCore::new();
    match store.apply(StoreOp::Get { key: "missing".to_string() }) {
        StoreReply::Value(None) => {}
        _ => panic!("absent key should be None"),
    }
    assert!(matches!(
        store.apply(StoreOp::Put { key: "k".to_string(), value: "v".to_string() }),
        StoreReply::Ack
    ));
    match store.apply(StoreOp::Get { key: "k".to_string() }) {
        StoreReply::Value(Some(v)) => assert_eq!(v, "v"),
        _ => panic!("value expected"),
    }
    assert!(matches!(store.apply(StoreOp::Len), StoreReply::Len(1)));
    assert!(matches!(
        store.apply(StoreOp::Delete { key: "k".to_string() }),
        StoreReply::Ack
    ));
    assert!(matches!(store.apply(StoreOp::Len), StoreReply::Len(0)));
}

fn flags() -> BuildFlags {
    BuildFlags {
        debug_assertions: true,
        linux: true,
        pointer_64: true,
        metric: true,
        imperial: false,
        color: false,
        demo: false,
        dice: false,
        json: false,
        pretty: false,
    }
}

#[test]
fn build_descriptions() {
    assert_eq!(build_profile(&flags()), "debug on linux");
    let mut f = flags();
    f.debug_assertions = false;
    f.linux = false;
    assert_eq!(build_profile(&f), "release");
    assert_eq!(platform_tag(true), "64-bit");
    assert_eq!(platform_tag(false), "non-64-bit");
    assert_eq!(feature_line(), "demo enabled");
    assert_eq!(enabled_units(true, true), vec!["meters", "feet"]);
    assert_eq!(enabled_units(false, true), vec!["feet"]);
    assert_eq!(enabled_units(false, false), Vec::<&str>::new());
    assert_eq!(describe("answer", 42, true), "[ answer = 42 ]");
    assert_eq!(describe("answer", 42, false), "answer=42");
    assert_eq!(describe("t", -5, false), "t=-5");
    let mut g = flags();
    g.demo = true;
    g.imperial = true;
    assert_eq!(active_features(&g), vec!["metric", "demo", "imperial"]);
}

#[test]
fn dice_and_platform_outputs() {
    for _ in 0..100 {
        let r = roll_die();
        assert!((1..=6).contains(&r));
    }
    assert_eq!(config_dir(true), "/etc/app");
    assert_eq!(config_dir(false), "/tmp/app");
    let r = Report { name: "svc", level: 3 };
    assert_eq!(pretty_line(&r), "svc @ level 3");
    assert_eq!(build_report(true, true, true), "linux outputs=json,pretty");
    assert_eq!(build_report(false, false, false), "non-linux outputs=debug");
}

#[test]
fn eight_percent_tax() {
    assert_eq!(tax(100), 8);
    assert_eq!(tax(1250), 100);
    assert_eq!(tax(12), 0);
    assert_eq!(tax(0), 0);
}

fn replay(ops: &[(u8, &str, &str)]) -> KvCore {
    let mut store = KvCore::new();
    for (kind, key, value) in ops {
        let op = match kind {
            0 => StoreOp::Put { key: key.to_string(), value: value.to_string() },
            1 => StoreOp::Delete { key: key.to_string() },
            _ => StoreOp::Get { key: key.to_string() },
        };
        store.apply(op);
    }
    store
}

#[test]
fn stores_fed_the_same_calls_agree() {
    let ops: [(u8, &str, &str); 9] = [
        (0, "a", "1"),
        (0, "b", "2"),
        (2, "a", ""),
        (0, "a", "3"),
        (1, "b", ""),
        (0, "c", "4"),
        (1, "c", ""),
        (0, "c", "5"),
        (1, "zz", ""),
    ];
    let first = replay(&ops);
    let second = replay(&ops);
    for key in ["a", "b", "c", "zz"] {
        assert_eq!(first.get(key), second.get(key));
    }
    assert_eq!(first.len(), second.len());
    assert_eq!(first.get("a"), Some("3".to_string()));
    assert_eq!(first.get("b"), None);
    assert_eq!(first.get("c"), Some("5".to_string()));
    assert_eq!(first.len(), 2);
}
