use rust_scratch::assoc_vs_generic::{
    collect_countdown, collect_my, map_it, neighbor_count, pull, Convert, Countdown, Counter,
    Graph, Grid, PopAssoc, PopGeneric, Producer, Stack, Upto,
};
use rust_scratch::blanket_coherence::{sum_of_squares, Kind, Named, Summary, Widget, Wrapped, Wrapper};
use rust_scratch::borrow_toowned::{
    any_known, borrow_sum, ci_key, contains_key2, count_word, duplicate, duplicate_slice,
    find_ci, first_word, make_owned, owned_or, owned_pair, pick, shout, Cache, CiString, MyCow,
    TagSet,
};
use rust_scratch::collections::my_hash_map::MyHashMap;
use rust_scratch::marker_auto_traits::{
    can_publish, fetch_user, last_byte, manhattan, sum_uses_original, Admin, Conn, Editor, Id,
    Point, Post, User,
};

#[test]
fn same_trait_two_ways() {
    let mut s = Stack { items: vec![1, 2, 3] };
    let a: Option<i32> = PopAssoc::pop_it(&mut s);
    assert_eq!(a, Some(3));
    let b: Option<i32> = PopGeneric::<i32>::pop_it(&mut s);
    assert_eq!(b, Some(2));
}

#[test]
fn associated_output_vs_generic_parameter() {
    let c = Counter { n: 42 };
    assert_eq!(c.produce(), 42);
    let as_int: i32 = c.convert();
    let as_str: String = c.convert();
    assert_eq!(as_int, 42);
    assert_eq!(as_str, "42");
    let determined: i32 = pull(&Counter { n: 7 });
    let via_turbofish = pull::<String>(&Counter { n: 7 });
    assert_eq!(determined, 7);
    assert_eq!(via_turbofish, "7");
}

#[test]
fn countdown_iterates_down() {
    assert_eq!(collect_countdown(Countdown { current: 5 }), vec![5, 4, 3, 2, 1]);
    assert_eq!(collect_countdown(Countdown { current: 4 }).iter().sum::<u32>(), 10);
    assert_eq!(collect_countdown(Countdown { current: 0 }), Vec::<u32>::new());
}

#[test]
fn grid_neighbours() {
    let grid = Grid { w: 3, h: 3 };
    assert_eq!(neighbor_count(&grid, (0, 0)), 2);
    assert_eq!(neighbor_count(&grid, (1, 0)), 3);
    assert_eq!(neighbor_count(&grid, (1, 1)), 4);
    let mut ns = grid.neighbors((0, 0));
    ns.sort();
    assert_eq!(ns, vec![((0, 1), 1u32), ((1, 0), 1u32)]);
}

#[test]
fn hand_rolled_iterator_with_map() {
    let squares = map_it(Upto { next: 2, end: 5 }, |x| x * x);
    assert_eq!(collect_my(squares), vec![4, 9, 16]);
    let labels = map_it(Upto { next: 0, end: 3 }, |x| format!("n{x}"));
    assert_eq!(collect_my(labels), vec!["n0", "n1", "n2"]);
    let chained = map_it(map_it(Upto { next: 1, end: 4 }, |x| x + 10), |x| x as usize * 2);
    assert_eq!(collect_my(chained), vec![22, 24, 26]);
}

#[test]
fn blanket_and_specific_impls() {
    assert_eq!(5i32.type_label(), "a value");
    assert_eq!("s".type_label(), "a value");
    assert_eq!(Widget.type_label(), "a value");
    assert_eq!(sum_of_squares(&[1, 2, 3, 4]), 30);
    assert_eq!(sum_of_squares(&[1, 2, 3]), 14);
    assert_eq!(sum_of_squares(&[0, 2, 4, 6, 8]), 120);
    assert_eq!(vec![1, 2, 3].summary(), "Vec of 3 items");
    assert_eq!(42i32.kind(), "integer");
    assert_eq!("hi".kind(), "string");
    let w = Wrapped::wrap(42);
    assert_eq!(w.0, 42);
    let v = Wrapper(vec![1, 2, 3]);
    assert_eq!(v.render(), "[1, 2, 3]");
    assert_eq!(v.inner().len(), 3);
    assert_eq!(v.inner().iter().sum::<i32>(), 6);
}

#[test]
fn to_owned_and_borrow() {
    assert_eq!(duplicate("hello"), "hello");
    assert_eq!(duplicate_slice(&[1, 2, 3]), vec![1, 2, 3]);
    let sentence = String::from("hello world");
    assert_eq!(first_word(&sentence), "hello");
    let owned_vec = vec![1, 2, 3, 4];
    assert_eq!(borrow_sum(&owned_vec), 10);
    assert_eq!(borrow_sum(&[10, 20, 30]), 60);
    let (a, b) = owned_pair("hi");
    assert_eq!(a, "hi");
    assert_eq!(b, "hi");
    assert_eq!(owned_or("yes", "no", true), "yes");
    assert_eq!(owned_or("yes", "no", false), "no");
}

#[test]
fn borrowed_lookups() {
    let mut counts: MyHashMap<u32> = MyHashMap::new();
    counts.insert("apple".to_string(), 3);
    counts.insert("pear".to_string(), 1);
    assert_eq!(count_word(&counts, "apple"), 3);
    assert_eq!(count_word(&counts, "kiwi"), 0);
    assert!(contains_key2(&counts, "pear"));
    assert!(!contains_key2(&counts, "kiwi"));
}

#[test]
fn case_insensitive_keys() {
    let mut m: MyHashMap<i32> = MyHashMap::new();
    m.insert(ci_key("Hello"), 1);
    m.insert(ci_key("World"), 2);
    assert_eq!(find_ci(&m, "HELLO"), Some(1));
    assert_eq!(find_ci(&m, "world"), Some(2));
    assert_eq!(find_ci(&m, "nope"), None);
    assert!(CiString::new("AbC").ci_eq(&CiString::new("aBc")));
    assert!(!CiString::new("abc").ci_eq(&CiString::new("abd")));
    assert_eq!(CiString::new("Keep").as_ref(), "Keep");
}

#[test]
fn cache_and_known_sets() {
    let mut inner: MyHashMap<String> = MyHashMap::new();
    inner.insert("host".to_string(), "localhost".to_string());
    inner.insert("port".to_string(), "8080".to_string());
    let c = Cache(inner);
    assert_eq!(c.get("host"), Some("localhost"));
    let k = String::from("port");
    assert_eq!(c.get(&k), Some("8080"));
    assert_eq!(c.get("missing"), None);
    let mut known: MyHashMap<()> = MyHashMap::new();
    known.insert("alice".to_string(), ());
    known.insert("bob".to_string(), ());
    assert!(any_known(&known, &["carol", "bob"]));
    assert!(!any_known(&known, &["carol", "dave"]));
}

#[test]
fn shout_and_tags() {
    assert_eq!(shout("hi"), "HI");
    assert_eq!(shout(&String::from("yo")), "YO");
    let mut tags = TagSet::new();
    assert!(tags.can_add());
    tags.add("rust");
    tags.add(&String::from("async"));
    assert!(tags.has("rust"));
    assert!(tags.has("async"));
    assert!(!tags.has("python"));
}

#[test]
fn generic_cow() {
    let c: MyCow<str> = pick(true, "borrowed", String::from("owned"));
    assert_eq!(c.borrow(), "borrowed");
    assert_eq!(make_owned(c), "borrowed");
    let d: MyCow<str> = pick(false, "borrowed", String::from("owned"));
    assert_eq!(make_owned(d), "owned");
    let s: MyCow<[i32]> = pick(true, &[1, 2][..], vec![9]);
    assert_eq!(s.into_owned(), vec![1, 2]);
}

#[test]
fn markers_and_ids() {
    assert!(can_publish(&Admin));
    assert!(can_publish(&Editor));
    assert_eq!(manhattan(Point { x: 3, y: -4 }), 7);
    assert_eq!(sum_uses_original(), 7 + 3 + (-4));
    assert_eq!(last_byte(&Point { x: 0, y: 0 }), None);
    assert_eq!(last_byte("hi"), Some(b'i'));
    let bytes: &[u8] = &[1u8, 2, 3];
    assert_eq!(last_byte(bytes), Some(3));
    let u1: Id<User> = Id::new(1);
    let u2: Id<User> = Id::new(1);
    let p1: Id<Post> = Id::new(1);
    assert!(u1.same(&u2));
    assert_eq!(fetch_user(u1), 1);
    assert_eq!(p1.raw(), 1);
}

#[test]
fn typestate_connection() {
    let c = Conn::new("10.0.0.1:443");
    assert_eq!(c.status(), "Disconnected");
    let c = c.connect();
    assert_eq!(c.status(), "Connected");
    let mut c = c.authenticate("hunter2");
    assert_eq!(c.status(), "Authenticated");
    assert_eq!(c.send("hello"), 5);
    assert_eq!(c.send("world!"), 6);
    let c = c.logout();
    assert_eq!(c.status(), "Connected");
    let c = c.disconnect();
    assert_eq!(c.status(), "Disconnected");
    assert_eq!(
        c.log(),
        &[
            "CONNECT".to_string(),
            "AUTH:hunter2".to_string(),
            "SEND:hello".to_string(),
            "SEND:world!".to_string(),
            "LOGOUT".to_string(),
            "DISCONNECT".to_string(),
        ]
    );
}
