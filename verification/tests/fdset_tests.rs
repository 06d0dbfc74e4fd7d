use dynffi::fdset::{select_nfds, FdSet, FD_SETSIZE};

#[test]
fn insert_remove_contains() {
    let mut s = FdSet::new();
    assert!(!s.contains(3));
    s.insert(3);
    s.insert(100);
    assert!(s.contains(3));
    assert!(s.contains(100));
    assert!(!s.contains(4));
    s.remove(3);
    assert!(!s.contains(3));
    assert!(s.contains(100));
}

#[test]
fn out_of_range_descriptors_are_never_members() {
    let s = FdSet::new();
    assert!(!s.contains(-1));
    assert!(!s.contains(FD_SETSIZE as i64));
    assert!(!s.contains(i64::MAX));
}

#[test]
fn clear_empties_the_set() {
    let mut s = FdSet::new();
    s.insert(0);
    s.insert(1023);
    s.clear();
    assert!(!s.contains(0));
    assert!(!s.contains(1023));
    assert_eq!(s.highest(), None);
}

#[test]
fn highest_finds_the_largest_member() {
    let mut s = FdSet::new();
    assert_eq!(s.highest(), None);
    s.insert(5);
    s.insert(700);
    s.insert(12);
    assert_eq!(s.highest(), Some(700));
    s.remove(700);
    assert_eq!(s.highest(), Some(12));
}

#[test]
fn nfds_is_one_past_the_highest_watched_descriptor() {
    let mut r = FdSet::new();
    let mut w = FdSet::new();
    let x = FdSet::new();
    assert_eq!(select_nfds(&r, &w, &x), 0);
    r.insert(4);
    assert_eq!(select_nfds(&r, &w, &x), 5);
    w.insert(9);
    assert_eq!(select_nfds(&r, &w, &x), 10);
}
