use rust_scratch::collections::counting::{
    choose_collection, count_lookups, group_by_len, insert_in_order, set_ops, sorted_word_count,
    tally_with_floor, unique_in_order, word_count, Spec,
};
use rust_scratch::collections::my_hash_map::MyHashMap;
use rust_scratch::collections::ordered::score_range;
use rust_scratch::collections::queues::{bfs_layers, sliding_max};
use rust_scratch::collections::{fnv_hash_str, fnv_is_deterministic, FnvHasher};

fn key(s: &str) -> String {
    s.to_string()
}

#[test]
fn word_count_tallies() {
    let wc = word_count("the cat sat on the mat the cat");
    assert_eq!(wc.get(&key("the")), Some(&3));
    assert_eq!(wc.get(&key("cat")), Some(&2));
    assert_eq!(wc.get(&key("sat")), Some(&1));
    assert_eq!(wc.get(&key("dog")), None);
    assert_eq!(wc.len(), 5);
}

#[test]
fn sorted_word_count_in_key_order() {
    assert_eq!(
        sorted_word_count("b a c a b a"),
        vec![(key("a"), 3), (key("b"), 2), (key("c"), 1)]
    );
    assert_eq!(sorted_word_count(""), Vec::<(String, usize)>::new());
}

#[test]
fn grouping_and_floor_tally() {
    let g = group_by_len(&["hi", "ok", "yes", "no", "wow", "a"]);
    assert_eq!(g[&1], vec!["a"]);
    assert_eq!(g[&2], vec!["hi", "ok", "no"]);
    assert_eq!(g[&3], vec!["yes", "wow"]);
    assert_eq!(g.len(), 3);
    let t = tally_with_floor(&["x", "y", "x", "x", "y"], 10);
    assert_eq!(t.get(&key("x")), Some(&12));
    assert_eq!(t.get(&key("y")), Some(&11));
}

#[test]
fn dedup_and_set_algebra() {
    assert_eq!(
        unique_in_order(&["a", "b", "a", "c", "b", "d"]),
        vec!["a", "b", "c", "d"]
    );
    let (inter, only_a, union_size) = set_ops(&[1, 2, 3, 4], &[3, 4, 5, 6]);
    assert_eq!(inter, vec![3, 4]);
    assert_eq!(only_a, vec![1, 2]);
    assert_eq!(union_size, 6);
    let mut v = vec![1, 5, 9];
    insert_in_order(&mut v, 6);
    assert_eq!(v, vec![1, 5, 6, 9]);
}

#[test]
fn window_and_bfs() {
    assert_eq!(sliding_max(&[1, 3, 2, 5, 4, 0], 3), vec![1, 3, 3, 5, 5, 5]);
    assert_eq!(sliding_max(&[4, 2], 0), Vec::<i32>::new());
    let adj = vec![vec![1, 2], vec![0, 3], vec![0, 3], vec![1, 2]];
    assert_eq!(bfs_layers(&adj), vec![0, 1, 2, 3]);
    let chain = vec![vec![1], vec![2], vec![]];
    assert_eq!(bfs_layers(&chain), vec![0, 1, 2]);
    assert_eq!(bfs_layers(&[]), Vec::<usize>::new());
    let unreachable_bad_row = vec![vec![1], vec![], vec![99]];
    assert_eq!(bfs_layers(&unreachable_bad_row), vec![0, 1]);
}

#[test]
fn bfs_visits_each_reachable_node_once() {
    let adj = vec![vec![1, 2, 1], vec![2, 0, 4], vec![1, 2], vec![0], vec![4, 1]];
    let order = bfs_layers(&adj);
    assert_eq!(order, vec![0, 1, 2, 4]);
    let mut sorted = order.clone();
    sorted.sort();
    sorted.dedup();
    assert_eq!(sorted.len(), order.len());
    for (p, &node) in order.iter().enumerate().skip(1) {
        assert!(order[..p].iter().any(|&q| adj[q].contains(&node)));
    }
    for &node in &order {
        for next in &adj[node] {
            assert!(order.contains(next));
        }
    }
    let first_parent = |p: usize| order.iter().position(|&q| adj[q].contains(&order[p])).unwrap();
    for p in 2..order.len() {
        assert!(first_parent(p - 1) <= first_parent(p));
    }
}

#[test]
fn lookups_by_str() {
    let mut m: MyHashMap<u32> = MyHashMap::new();
    m.insert(key("alpha"), 10);
    m.insert(key("beta"), 20);
    m.insert(key("gamma"), 30);
    assert_eq!(count_lookups(&m, &["alpha", "gamma", "zeta"]), 40);
}

fn spec(sorted: bool, both_ends: bool, kv: bool) -> Spec {
    Spec {
        need_sorted_iteration: sorted,
        push_pop_both_ends: both_ends,
        keys_values: kv,
    }
}

#[test]
fn decision_matrix() {
    assert_eq!(choose_collection(&spec(false, true, true)), "VecDeque");
    assert_eq!(choose_collection(&spec(true, false, true)), "BTreeMap");
    assert_eq!(choose_collection(&spec(true, false, false)), "BTreeSet");
    assert_eq!(choose_collection(&spec(false, false, true)), "HashMap");
    assert_eq!(choose_collection(&spec(false, false, false)), "HashSet");
}

#[test]
fn fnv_hash_values() {
    assert!(fnv_is_deterministic());
    assert_eq!(fnv_hash_str(""), 0xcbf29ce484222325);
    assert_eq!(fnv_hash_str("a"), 0xaf63dc4c8601ec8c);
    let mut h = FnvHasher::new();
    h.write(b"a");
    assert_eq!(h.finish(), fnv_hash_str("a"));
}

#[test]
fn my_hash_map_behaves_like_a_map() {
    let mut m: MyHashMap<i32> = MyHashMap::new();
    assert_eq!(m.get(&key("x")), None);
    assert_eq!(m.insert(key("a"), 1), None);
    assert_eq!(m.insert(key("b"), 2), None);
    assert_eq!(m.get(&key("a")), Some(&1));
    assert_eq!(m.insert(key("a"), 10), Some(1));
    assert_eq!(m.get(&key("a")), Some(&10));
    assert_eq!(m.len(), 2);
    assert_eq!(m.remove(&key("a")), Some(10));
    assert_eq!(m.get(&key("a")), None);
    assert_eq!(m.get(&key("b")), Some(&2));
    assert_eq!(m.remove(&key("a")), None);
    assert_eq!(m.len(), 1);
    for i in 0..100 {
        assert_eq!(m.insert(format!("k{i}"), i), None);
    }
    assert_eq!(m.len(), 101);
    for i in 0..100 {
        assert_eq!(m.get(&format!("k{i}")), Some(&i));
    }
    assert_eq!(m.get(&key("b")), Some(&2));
    let before = m.len();
    assert_eq!(m.insert(key("k50"), 5000), Some(50));
    assert_eq!(m.len(), before);
    assert_eq!(m.get(&key("k50")), Some(&5000));
}

#[test]
fn sorted_tally_and_score_ranges() {
    let swc = sorted_word_count("pear apple cherry apple banana pear apple");
    assert_eq!(
        swc,
        vec![(key("apple"), 3), (key("banana"), 1), (key("cherry"), 1), (key("pear"), 2)]
    );
    let mut scores = std::collections::BTreeMap::new();
    scores.insert(50, "alice");
    scores.insert(70, "bob");
    scores.insert(90, "carol");
    scores.insert(60, "dave");
    assert_eq!(score_range(&scores, 60, 80), vec!["dave", "bob"]);
    assert_eq!(score_range(&scores, 0, 1000), vec!["alice", "dave", "bob", "carol"]);
    assert_eq!(score_range(&scores, 100, 200), Vec::<&str>::new());
}

#[test]
fn remove_undoes_a_fresh_insert() {
    let mut m: MyHashMap<i32> = MyHashMap::new();
    m.insert(key("keep"), 7);
    let before = m.len();
    assert_eq!(m.insert(key("temp"), 1), None);
    assert_eq!(m.len(), before + 1);
    assert_eq!(m.remove(&key("temp")), Some(1));
    assert_eq!(m.len(), before);
    assert_eq!(m.get(&key("temp")), None);
    assert_eq!(m.get(&key("keep")), Some(&7));
}

#[test]
fn overwrites_never_exhaust_the_map() {
    let mut m: MyHashMap<u32> = MyHashMap::new();
    assert!(m.can_insert());
    for i in 0..20_000u32 {
        assert!(m.can_insert());
        m.insert("k".to_string(), i);
    }
    assert_eq!(m.len(), 1);
    assert_eq!(m.get(&"k".to_string()), Some(&19_999));
    for i in 0..2_000u32 {
        assert!(m.can_insert());
        m.insert(format!("n{i}"), i);
    }
    assert_eq!(m.len(), 2_001);
}
