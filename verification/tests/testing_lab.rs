use rust_scratch::testing_lab::ledger::{Ledger, Overdraw};
use rust_scratch::testing_lab::{normalize, nth_word, parse_port, squeeze_spaces, trim};

fn assert_normalizes(input: &str, expected: &str) {
    assert_eq!(normalize(input), expected, "input: {}", input);
}

fn assert_balance(ledger: &Ledger, expected_cents: i64) {
    assert_eq!(ledger.balance(), expected_cents, "expected balance: {}", expected_cents);
}

#[test]
fn tracks_private_entry_count() {
    let mut ledger = Ledger::new();
    ledger.deposit(100);
    ledger.deposit(200);
    let _ = ledger.withdraw(150);
    assert_eq!(ledger.entries(), 3);
    ledger.check_invariant();
}

#[test]
fn overdraw_is_rejected() {
    let mut ledger = Ledger::new();
    ledger.deposit(100);
    let result = ledger.withdraw(150);
    assert!(result.is_err());
    assert_eq!(ledger.balance(), 100);
}

#[test]
fn deposit_then_withdraw_flow() {
    let mut ledger = Ledger::new();
    ledger.deposit(1000);
    ledger.withdraw(350).unwrap();
    assert_balance(&ledger, 650);
}

#[test]
fn overdraw_surfaces_error() {
    let mut l = Ledger::new();
    l.deposit(100);
    assert_eq!(
        l.withdraw(500),
        Err(Overdraw {
            requested: 500,
            available: 100,
        })
    );
}

#[test]
fn normalizes_messy_input() {
    assert_normalizes("  Hello   WORLD  ", "hello world");
}

#[test]
fn normalize_doc_example() {
    assert_eq!(normalize("  Hi   THERE "), "hi there");
}

#[test]
fn parse_port_doc_example_and_errors() {
    assert_eq!(parse_port("8080"), Ok(8080));
    assert_eq!(parse_port("  443 "), Ok(443));
    assert!(parse_port("70000").is_err());
    assert!(parse_port("").is_err());
    assert!(parse_port("80a").is_err());
}

#[test]
fn nth_word_picks_words() {
    assert_eq!(nth_word("alpha beta  gamma", 0), "alpha");
    assert_eq!(nth_word("alpha beta  gamma", 2), "gamma");
}

#[test]
fn squeeze_and_trim() {
    assert_eq!(squeeze_spaces("a   b \t c"), "a b c");
    assert_eq!(trim("  x y  "), "x y");
}

#[test]
fn withdraw_of_deposit_restores_balance() {
    let mut l = Ledger::new();
    l.deposit(40);
    l.deposit(25);
    assert_eq!(l.withdraw(25), Ok(()));
    assert_eq!(l.balance(), 40);
    assert_eq!(l.entries(), 3);
}

#[test]
fn parse_port_round_trips_padded_numbers() {
    let pads = ["", " ", "\t", " \n ", "\u{a0}\u{3000}"];
    for n in [0u16, 7, 10, 80, 443, 8080, 65535] {
        for p1 in pads {
            for p2 in pads {
                assert_eq!(parse_port(&format!("{p1}{n}{p2}")), Ok(n));
            }
        }
    }
}

#[test]
fn ledger_balance_is_deposits_less_granted_withdrawals() {
    let mut l = Ledger::new();
    let mut deposited = 0i64;
    let mut withdrawn = 0i64;
    let calls: [(bool, i64); 8] = [
        (true, 500),
        (false, 200),
        (false, 400),
        (true, 50),
        (false, 350),
        (false, 1),
        (true, 10),
        (false, 10),
    ];
    for (is_deposit, cents) in calls {
        if is_deposit {
            l.deposit(cents);
            deposited += cents;
        } else if l.withdraw(cents).is_ok() {
            withdrawn += cents;
        }
        assert!(l.balance() >= 0);
        assert_eq!(l.balance(), deposited - withdrawn);
    }
    assert_eq!(l.balance(), 0);
    assert_eq!(withdrawn, 560);
    assert_eq!(l.entries(), 6);
}

#[test]
fn squeezing_twice_is_squeezing_once() {
    for s in ["", "   ", "a", "  a  b\t\tc \n", "\u{3000}x\u{a0}y", "one two"] {
        let once = squeeze_spaces(s);
        assert_eq!(squeeze_spaces(&once), once);
        let n = normalize(s);
        assert_eq!(normalize(&n), n);
    }
}
