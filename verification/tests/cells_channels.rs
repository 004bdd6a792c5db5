use rust_scratch::cell_refcell::{
    append_doubles, bump, duplicate_first, rotate, steal, sum_slice, BorrowFlag, Stats,
};
use rust_scratch::channels::{
    recover_unsent, sort_values, square_job, sum_received, worker_value, RecvStep, Shared,
};

#[test]
fn bump_through_two_handles() {
    let mut counter = 0u32;
    bump(&mut counter, 5);
    bump(&mut counter, 3);
    assert_eq!(counter, 8);
}

#[test]
fn rotate_and_steal() {
    let mut slot = 10;
    let old = rotate(&mut slot, 99);
    assert_eq!(old, 10);
    assert_eq!(slot, 99);
    let mut name = Some(String::from("ferris"));
    assert_eq!(steal(&mut name), Some(String::from("ferris")));
    assert_eq!(steal(&mut name), None);
    assert!(name.is_none());
}

#[test]
fn stats_sum_and_len() {
    let mut s = Stats::new();
    s.add(3);
    s.add(4);
    s.add(5);
    assert_eq!(s.len(), 3);
    assert_eq!(s.sum(), 12);
    assert_eq!(sum_slice(&[1, 2, 3, 2, 4, 6]), 1 + 2 + 3 + 2 + 4 + 6);
}

#[test]
fn list_edits() {
    let mut w = vec![10, 20];
    duplicate_first(&mut w);
    assert_eq!(w, vec![10, 20, 10]);
    let mut v = vec![1, 2, 3];
    append_doubles(&mut v);
    assert_eq!(v, vec![1, 2, 3, 2, 4, 6]);
}

#[test]
fn borrow_flag_protocol() {
    let mut f = BorrowFlag::new();
    assert!(f.can_borrow() && f.can_borrow_mut());
    f.borrow();
    f.borrow();
    assert_eq!(f.flag, 2);
    assert!(f.can_borrow());
    assert!(!f.can_borrow_mut());
    f.release_shared();
    f.release_shared();
    assert_eq!(f.flag, 0);
    f.borrow_mut();
    assert_eq!(f.flag, -1);
    assert!(!f.can_borrow());
    assert!(!f.can_borrow_mut());
    f.release_mut();
    assert_eq!(f, BorrowFlag::new());
}

#[test]
fn shared_buffer_is_fifo_and_disconnects() {
    let mut s: Shared<i32> = Shared::new(1);
    s.push(1);
    s.push(2);
    assert!(matches!(s.recv_step(), RecvStep::Item(1)));
    assert!(matches!(s.recv_step(), RecvStep::Item(2)));
    assert!(matches!(s.recv_step(), RecvStep::Wait));
    assert_eq!(s.update_senders(1), 2);
    assert_eq!(s.update_senders(-2), 0);
    assert!(matches!(s.recv_step(), RecvStep::Disconnected));
}

#[test]
fn worker_computations() {
    assert_eq!(square_job(7), 49);
    assert_eq!(square_job(-3), 9);
    assert_eq!(worker_value(4), 40);
    assert_eq!(sum_received(&[1, 2, 3, 4, 5]), 15);
    assert_eq!(sort_values(vec![9, 1, 4, 1, 16]), vec![1, 1, 4, 9, 16]);
    assert_eq!(recover_unsent::<i32>(Err(5)), Some(5));
    assert_eq!(recover_unsent::<i32>(Ok(())), None);
}
