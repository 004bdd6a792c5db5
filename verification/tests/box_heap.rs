use rust_scratch::box_heap::{
    boxed_sum, eval, greet_len, into_parts, leak_static, parse_and_double, rename, steal_items,
    sum_list, unbox, Config, DoubleError, Expr, LinkedList, List, Person,
};
use rust_scratch::numparse::IntErrorKind;

#[test]
fn boxed_sum_derefs() {
    let b = Box::new(40);
    assert_eq!(boxed_sum(b, 2), 42);
}

#[test]
fn cons_list_sum() {
    let list = List::Cons(1, Box::new(List::Cons(2, Box::new(List::Cons(3, Box::new(List::Nil))))));
    assert_eq!(sum_list(&list), 6);
    assert_eq!(sum_list(&List::Nil), 0);
}

#[test]
fn boxed_person_round_trip() {
    let p = Box::new(Person {
        name: "Ada".to_string(),
    });
    assert_eq!(greet_len(&p), 3);
    let p = rename(p, "Grace");
    assert_eq!(greet_len(&p), 5);
    let owned: Person = unbox(p);
    assert_eq!(owned.name, "Grace");
}

#[test]
fn expression_tree_eval() {
    let expr = Expr::Mul(
        Box::new(Expr::Add(Box::new(Expr::Num(2)), Box::new(Expr::Num(3)))),
        Box::new(Expr::Num(4)),
    );
    assert_eq!(eval(&expr), 20);
    assert_eq!(eval(&Expr::Num(-7)), -7);
}

#[test]
fn steal_then_split() {
    let mut b = Box::new(Config {
        name: "app".to_string(),
        items: vec!["a".to_string(), "b".to_string()],
    });
    let stolen = steal_items(&mut b);
    assert_eq!(stolen, vec!["a".to_string(), "b".to_string()]);
    assert!(b.items.is_empty());
    assert_eq!(b.name, "app");
    let (name, items) = into_parts(b);
    assert_eq!(name, "app");
    assert!(items.is_empty());
}

#[test]
fn parse_and_double_outcomes() {
    assert_eq!(parse_and_double("21").unwrap(), 42);
    assert!(parse_and_double("abc").is_err());
    let neg = parse_and_double("-5").unwrap_err();
    assert_eq!(neg, DoubleError::Negative);
    assert!(neg.message().contains("negative"));
    match parse_and_double("abc") {
        Err(DoubleError::Parse(e)) => {
            assert_eq!(e.kind(), IntErrorKind::InvalidDigit);
            assert_eq!(DoubleError::Parse(e).message(), "invalid digit found in string");
        }
        other => panic!("unexpected {:?}", other),
    }
    assert_eq!(parse_and_double("0"), Ok(0));
}

#[test]
fn leaked_text_lives_on() {
    let s: &'static str = leak_static(format!("hi-{}", 1 + 1));
    assert_eq!(s, "hi-2");
}

#[test]
fn linked_list_is_lifo() {
    let mut list: LinkedList<i32> = LinkedList::new();
    assert_eq!(list.len(), 0);
    assert_eq!(list.pop(), None);
    list.push(1);
    list.push(2);
    list.push(3);
    assert_eq!(list.len(), 3);
    let mut it = list.iter();
    let mut collected = Vec::new();
    while let Some(x) = it.next() {
        collected.push(*x);
    }
    assert_eq!(collected, vec![3, 2, 1]);
    assert_eq!(list.len(), 3);
    assert_eq!(list.pop(), Some(3));
    assert_eq!(list.pop(), Some(2));
    assert_eq!(list.pop(), Some(1));
    assert_eq!(list.pop(), None);
    let mut words: LinkedList<String> = LinkedList::new();
    words.push("a".to_string());
    words.push("b".to_string());
    assert_eq!(words.pop(), Some("b".to_string()));
    let mut big = LinkedList::new();
    for i in 0..100_000 {
        big.push(i);
    }
    assert_eq!(big.len(), 100_000);
    drop(big);
}
