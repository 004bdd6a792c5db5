use rust_scratch::generic_bounds::{
    counts, dedup_adjacent, dedup_describe, describe_list, join_display, join_values, join_with,
    min_item, min_max, sum_borrowed, Pair, Stack,
};
use rust_scratch::hrtb::{
    first_piece_of, number, tag, tag_then_number, Borrowed, FirstWord, Owned, StrPipeline,
    StrStep,
};
use rust_scratch::impl_trait::{
    collect_ranged, compose_apply, count_args, describe, evens_up_to, keep_even, lengths,
    mul_stage, naturals, pipeline, ranged_either, ranged_vec, robot_greeting, squares_values,
    sum_source, Op,
};

#[test]
fn generic_minimum_and_dedup() {
    assert_eq!(min_item(&[3, 1, 4, 1, 5, 9, 2, 6]), 1);
    assert_eq!(dedup_describe(&[1, 1, 2, 3, 3, 3]), "[1, 2, 3]");
    assert_eq!(dedup_describe(&[]), "[]");
    assert_eq!(dedup_adjacent(&[1, 1, 2, 1]), vec![1, 2, 1]);
    assert_eq!(describe_list(&[-1, 2]), "[-1, 2]");
    assert_eq!(join_values(&[1, 2], "+"), "1+2");
}

struct NotDebug;

#[test]
fn stack_bounds_per_method() {
    let mut s: Stack<NotDebug> = Stack::new();
    s.push(NotDebug);
    s.push(NotDebug);
    assert_eq!(s.len(), 2);
    let mut n: Stack<i64> = Stack::new();
    n.push(1);
    n.push(2);
    n.push(3);
    assert_eq!(n.dump(), "[1, 2, 3]");
}

#[test]
fn pair_names_the_larger() {
    let p = Pair::new(7, 3);
    assert_eq!(p.cmp_display(), "the largest is 7");
    let q = Pair::new(-2, 5);
    assert_eq!(q.cmp_display(), "the largest is 5");
    let r = Pair::new(4, 4);
    assert_eq!(r.cmp_display(), "the largest is 4");
}

#[test]
fn joining_and_summing() {
    assert_eq!(join_display(&[1, 2, 3]), "1, 2, 3");
    let v = vec![10, 20, 30];
    assert_eq!(sum_borrowed(&v), 60);
    assert_eq!(v.len(), 3);
    assert_eq!(sum_borrowed(&[1, 2, 3, 4]), 10);
    assert_eq!(min_max(&[3, 1, 4, 1, 5]), Some((1, 5)));
    assert_eq!(min_max(&[]), None);
    let c = counts(&['a' as u32, 'a' as u32, 'b' as u32, 'a' as u32, 'b' as u32, 'c' as u32]);
    assert_eq!(c[&('a' as u32)], 3);
    assert_eq!(c[&('b' as u32)], 2);
    assert_eq!(c[&('c' as u32)], 1);
    assert_eq!(join_with(&[1, 2, 3], " - "), "1 - 2 - 3");
}

#[test]
fn slicing_through_higher_ranked_callers() {
    assert_eq!(first_piece_of("hello world", ' '), "hello");
    assert_eq!(FirstWord.slice("green eggs"), "green");
    assert_eq!(FirstWord.slice("green eggs").len(), 5);
    let got = Owned::decode("1,2,3,4").expect("should parse");
    assert_eq!(got.sum, 10);
    assert!(Owned::decode("1,x").is_none());
    let b = Borrowed::decode("hello,world").unwrap();
    assert_eq!(b.first, "hello");
}

#[test]
fn string_pipeline_serves_any_input() {
    let pipeline = StrPipeline::new()
        .add(StrStep::Trim)
        .add(StrStep::FirstPiece(','));
    assert_eq!(pipeline.run("  hello,world  "), "hello");
    let local = String::from(" a,b,c ");
    assert_eq!(pipeline.run(&local), "a");
}

#[test]
fn parser_combinators() {
    assert_eq!(number("42!"), Some(("!".to_string(), 42)));
    assert!(number("nope").is_none());
    assert_eq!(number("21").map(|(_, n)| n * 2), Some(42));
    let (rest, (key, value)) = tag_then_number("x=42;", "x=").unwrap();
    assert_eq!(key, "x=");
    assert_eq!(value, 42);
    assert_eq!(rest, ";");
    assert_eq!(tag_then_number("n:99", "n:").map(|(_, (_, n))| n + 1), Some(100));
    assert_eq!(tag("abc", "ab"), Some(("c".to_string(), "ab".to_string())));
    assert_eq!(tag("abc", "x"), None);
}

#[test]
fn impl_trait_results() {
    assert_eq!(describe(42), "[42]");
    assert_eq!(describe(-3), "[-3]");
    assert_eq!(count_args(123), 3);
    assert_eq!(count_args(-10), 3);
    assert_eq!(evens_up_to(10), vec![0, 2, 4, 6, 8]);
    let words = ["hi", "rust", "ok", "trait", "go"];
    assert_eq!(pipeline(&words), vec!["RUST".to_string(), "TRAIT".to_string()]);
    let fwd = vec![0, 1, 2, 3, 4];
    let rev = vec![4, 3, 2, 1, 0];
    assert_eq!(ranged_vec(false, 5), fwd);
    assert_eq!(ranged_vec(true, 5), rev);
    assert_eq!(collect_ranged(ranged_either(false, 5)), fwd);
    assert_eq!(collect_ranged(ranged_either(true, 5)), rev);
    assert_eq!(lengths(&["a", "bb", "ccc"]).iter().sum::<usize>(), 6);
    assert_eq!(squares_values(), vec![1, 4, 9]);
    assert_eq!(sum_source(&squares_values()), 14);
    assert_eq!(robot_greeting("R2"), "beep R2");
}

#[test]
fn composition_and_lazy_sources() {
    assert_eq!(compose_apply(|x: i32| x + 1, |x: i32| x * 2, 10), 22);
    assert_eq!(naturals(3), vec![1, 2, 3]);
    assert_eq!(keep_even(&naturals(6)), vec![2, 4, 6]);
    assert_eq!(Op::Inc.apply(5), 6);
    assert_eq!(Op::Double.apply(5), 10);
    assert_eq!(Op::Square.apply(5), 25);
    assert_eq!(mul_stage(&naturals(3), 10), vec![10, 20, 30]);
    let stage = mul_stage(&keep_even(&naturals(6)), 10);
    let out: Vec<u64> = stage.iter().map(|&x| (x + 1) * 2).collect();
    assert_eq!(out, vec![42, 82, 122]);
}
