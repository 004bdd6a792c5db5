use rust_scratch::iterators::{
    all_chars, char_freq, count_long, double_in_place, doubled_0_to_5, first_4_triple_squares,
    indices_of_evens, join_owned, label_scores, pairs, parse_all, parse_all_or_fail,
    sum_of_even_squares, sum_then_len, take_fib, Fib, MyVec,
};
use rust_scratch::lifetimes::{
    after_slash, first_sentence, first_word, leak_label, longest, make_label, or_default,
    prefix_before, store, Important, StrSplit, Words,
};

#[test]
fn adapter_chains() {
    assert_eq!(sum_of_even_squares(&[1, 2, 3, 4, 5]), 20);
    assert_eq!(sum_of_even_squares(&[]), 0);
    assert_eq!(sum_of_even_squares(&[1, 3, 5]), 0);
    assert_eq!(sum_of_even_squares(&[6]), 36);
}

#[test]
fn three_iteration_modes() {
    let words = vec!["a".to_string(), "bbbb".to_string(), "ccccc".to_string()];
    assert_eq!(count_long(&words), 2);
    assert_eq!(words.len(), 3);
    let mut nums = vec![1, 2, 3];
    double_in_place(&mut nums);
    assert_eq!(nums, vec![2, 4, 6]);
    let owned = vec!["x".to_string(), "y".to_string(), "z".to_string()];
    assert_eq!(join_owned(owned), "x, y, z");
}

#[test]
fn combinators() {
    assert_eq!(indices_of_evens(&[10, 7, 4, 3]), vec![0, 2]);
    assert_eq!(label_scores(&["a", "b"], &[1, 2]), vec!["a=1".to_string(), "b=2".to_string()]);
    assert_eq!(label_scores(&["a", "b", "c"], &[9]), vec!["a=9".to_string()]);
    assert_eq!(all_chars(&["ab", "c"]), vec!['a', 'b', 'c']);
    assert_eq!(parse_all(&["1", "x", "3"]), vec![1, 3]);
    let f = char_freq("aab");
    assert_eq!(f.get(&('a' as u32)), Some(&2));
    assert_eq!(f.get(&('b' as u32)), Some(&1));
    assert_eq!(f.get(&('z' as u32)), None);
}

#[test]
fn consuming_results() {
    assert_eq!(first_4_triple_squares(), vec![9, 36, 81, 144]);
    assert_eq!(sum_then_len(vec![1, 2, 3]), (6, 3));
    assert_eq!(doubled_0_to_5(), vec![0, 2, 4, 6, 8]);
    assert_eq!(parse_all_or_fail(&["1", "2", "3"]), Ok(vec![1, 2, 3]));
    assert!(parse_all_or_fail(&["1", "nope", "3"]).is_err());
}

#[test]
fn fibonacci_iterator() {
    let first10 = take_fib(10);
    assert_eq!(first10, vec![0, 1, 1, 2, 3, 5, 8, 13, 21, 34]);
    let sum_even: u64 = first10.iter().filter(|n| *n % 2 == 0).sum();
    assert_eq!(sum_even, 44);
    let mut f = Fib::new();
    let mut eighth = None;
    for _ in 0..8 {
        eighth = f.next();
    }
    assert_eq!(eighth, Some(13));
}

#[test]
fn double_ended_owning_iterator() {
    let coll = MyVec { items: vec![1, 2, 3] };
    let mut it = coll.into_iter();
    let mut seen = Vec::new();
    while let Some(x) = it.next() {
        seen.push(x);
    }
    assert_eq!(seen, vec![1, 2, 3]);
    let it = MyVec { items: vec![10, 20, 30, 40] }.into_iter();
    assert_eq!(it.size_hint(), (4, Some(4)));
    let mut back = MyVec { items: vec!['a', 'b', 'c'] }.into_iter();
    let mut reversed = Vec::new();
    while let Some(c) = back.next_back() {
        reversed.push(c);
    }
    assert_eq!(reversed, vec!['c', 'b', 'a']);
}

#[test]
fn consecutive_pairs() {
    assert_eq!(pairs(&[1, 2, 3, 4]), vec![(1, 2), (2, 3), (3, 4)]);
    assert_eq!(pairs(&[]).len(), 0);
    assert_eq!(pairs(&[42]).len(), 0);
    let squares: Vec<i64> = (0..5).map(|x| x * x).collect();
    let diffs: Vec<i64> = pairs(&squares).iter().map(|(a, b)| b - a).collect();
    assert_eq!(diffs, vec![1, 3, 5, 7]);
}

#[test]
fn borrowed_results() {
    let s1 = String::from("a long string");
    let s2 = String::from("short");
    assert_eq!(longest(&s1, &s2), "a long string");
    let i = Important { content: "hear ye" };
    assert_eq!(i.announce(), "hear ye");
    assert_eq!(first_word("hello world"), "hello");
    assert_eq!(first_word("solo"), "solo");
    assert_eq!(prefix_before("key=value", "="), "key");
    assert_eq!(prefix_before("no-marker-here", "="), "no-marker-here");
}

#[test]
fn excerpts() {
    let novel = String::from("Call me Ishmael. Some years ago never mind how long.");
    let e = first_sentence(&novel);
    assert_eq!(e.part, "Call me Ishmael.");
    assert_eq!(first_sentence("just a fragment").part, "just a fragment");
    assert_eq!(e.part(), "Call me Ishmael.");
    let challenger = String::from("a considerably longer candidate sentence");
    assert_eq!(e.longer_of(&challenger), challenger);
    assert_eq!(e.longer_of("hi"), "Call me Ishmael.");
}

#[test]
fn labels_and_slots() {
    assert_eq!(make_label(7), "item-7");
    assert_eq!(after_slash("usr/local/bin"), "local/bin");
    assert_eq!(after_slash("nodelimiter"), "");
    let long = String::from("primary value");
    let short = String::from("fallback value");
    assert_eq!(or_default(&long, &short), "primary value");
    assert_eq!(or_default("", &short), "fallback value");
    let mut slot: &str = "initial";
    store(&mut slot, "updated");
    assert_eq!(slot, "updated");
    let s: &'static str = leak_label(42);
    assert_eq!(s, "id-42");
}

#[test]
fn word_iterator() {
    let text = String::from("the quick  brown fox");
    let mut w = Words::new(&text);
    let mut words = Vec::new();
    while let Some(x) = w.next() {
        words.push(x);
    }
    assert_eq!(words, vec!["the", "quick", "brown", "fox"]);
}

fn split_all(h: &str, d: &str) -> Vec<String> {
    let mut s = StrSplit::new(h, d);
    let mut out = Vec::new();
    while let Some(p) = s.next() {
        out.push(p);
    }
    out
}

#[test]
fn str_split_iterator() {
    assert_eq!(split_all("a,b,c,d,e", ","), vec!["a", "b", "c", "d", "e"]);
    assert_eq!(split_all("a,b,c,", ","), vec!["a", "b", "c", ""]);
    assert_eq!(split_all("1::2::3", "::"), vec!["1", "2", "3"]);
    let haystack = String::from("x-y-z");
    let result;
    {
        let delim = String::from("-");
        result = split_all(&haystack, &delim);
    }
    assert_eq!(result, vec!["x", "y", "z"]);
}

#[test]
fn str_split_empty_delimiter_yields_empty_pieces() {
    let mut s = StrSplit::new("abc", "");
    for _ in 0..5 {
        assert_eq!(s.next(), Some(String::new()));
    }
}
