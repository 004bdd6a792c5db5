use rust_scratch::dispatch::{
    apply_static, build_crowd, build_pipeline, default_greeter, greet_dynamic, greet_static,
    loudest, pick_greeter, run_dynamic, run_enum, run_ops, run_pipeline, run_static, twice,
    English, French, Greet, Op,
};
use rust_scratch::drop_ordering::{Noisy, Slot, Transaction};
use rust_scratch::future_poll::{
    block_on, compute_machine, fut_a, join, ready, two_step, wake_yield, yield_once, Poll,
    PollOnce,
};

#[test]
fn static_and_dynamic_greetings() {
    let en = English;
    let fr = French;
    assert_eq!(greet_static(&en), "hello");
    assert_eq!(greet_static(&fr), "bonjour");
    assert_eq!(greet_dynamic(&en), "hello");
    assert_eq!(greet_dynamic(&fr), "bonjour");
    assert_eq!(loudest(English), "HELLO");
    assert_eq!(loudest(French), "BONJOUR");
    assert_eq!(default_greeter().hello(), "bonjour");
    assert_eq!(loudest(default_greeter()), "BONJOUR");
}

#[test]
fn greeters_chosen_at_run_time() {
    assert_eq!(pick_greeter(true).hello(), "bonjour");
    assert_eq!(pick_greeter(false).hello(), "hello");
    let hellos: Vec<String> = build_crowd().iter().map(|g| g.hello()).collect();
    assert_eq!(hellos, vec!["hello", "bonjour", "hello"]);
}

#[test]
fn doubling_and_closures() {
    assert_eq!(twice(21_i32), 42);
    assert_eq!(twice("ab".to_string()), "abab");
    assert_eq!(apply_static(|x| x + 1, 10), 11);
    assert_eq!(apply_static(|x| x * 3, 10), 30);
    let pipe = build_pipeline(100);
    assert_eq!(run_pipeline(&pipe, 5), 112);
    assert_eq!(run_ops(&[Op::Neg, Op::Add(2)], 5), -3);
}

#[test]
fn three_dispatch_strategies_agree() {
    let s = run_static(5);
    let d = run_dynamic(5);
    let e = run_enum(5);
    assert_eq!(s, -16);
    assert_eq!(d, -16);
    assert_eq!(e, -16);
    assert_eq!(run_static(0), -6);
    assert_eq!(run_dynamic(0), -6);
    assert_eq!(run_enum(0), -6);
}

#[test]
fn noisy_and_slot() {
    let a = Noisy::new("a");
    assert_eq!(a.drop_line(), "drop a");
    let mut slot = Slot { inner: a };
    let prev = slot.swap_in(Noisy::new("b"));
    assert_eq!(prev.name, "a");
    assert_eq!(slot.inner.name, "b");
}

#[test]
fn transaction_commit_keeps_rows() {
    let mut txn = Transaction::begin(Vec::new());
    txn.insert("a");
    txn.insert("b");
    txn.commit();
    let (db, log) = txn.end();
    assert_eq!(db, vec!["a", "b"]);
    assert_eq!(log, vec!["insert a", "insert b", "commit"]);
}

#[test]
fn transaction_without_commit_rolls_back() {
    let mut txn = Transaction::begin(vec!["existing".to_string()]);
    txn.insert("a");
    txn.insert("b");
    let (db, log) = txn.end();
    assert_eq!(db, vec!["existing"]);
    assert_eq!(log, vec!["insert a", "insert b", "rollback"]);
}

#[test]
fn futures_poll_to_completion() {
    let mut r = ready(42);
    match r.poll() {
        Poll::Ready(v) => assert_eq!(v, 42),
        Poll::Pending => panic!("Ready must finish at once"),
    }
    assert_eq!(block_on(ready("hello from a future")), "hello from a future");
    let mut y = yield_once();
    assert!(matches!(y.poll(), Poll::Pending));
    assert!(matches!(y.poll(), Poll::Ready(())));
    let mut t = two_step();
    assert!(matches!(t.poll(), Poll::Pending));
    assert!(matches!(t.poll(), Poll::Pending));
    assert!(matches!(t.poll(), Poll::Ready(42)));
    assert_eq!(block_on(two_step()), 42);
    assert_eq!(block_on(fut_a()), 20);
    assert_eq!(block_on(join(wake_yield(1), wake_yield(2))), (1, 2));
    assert_eq!(block_on(join(ready(99), wake_yield(22))), (99, 22));
}

#[test]
fn branch_machine_matches_async_meaning() {
    assert_eq!(block_on(compute_machine(4)), 12);
    assert_eq!(block_on(compute_machine(5)), 5);
    assert_eq!(block_on(compute_machine(0)), 0);
}
