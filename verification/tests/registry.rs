use air_hockey::pendinglist::{remove_elem, PendingList};

// Additions are invisible until commit, then appear in arrival order.
#[test]
fn add_commit_keeps_arrival_order() {
    let mut reg: PendingList<usize> = PendingList();
    reg.add(7);
    reg.add(9);
    assert_eq!(reg.each().len(), 0);
    reg.handlePending();
    assert_eq!(reg.each().as_slice(), &[7, 9]);
}

// After add(a); add(b); commit(); remove(a); commit(), the live sequence
// is [b]: removal takes out the first matching element.
#[test]
fn remove_commit_takes_first_match() {
    let mut reg: PendingList<usize> = PendingList();
    reg.add(7);
    reg.add(9);
    reg.handlePending();
    reg.remove(7);
    assert_eq!(reg.each().as_slice(), &[7, 9]);
    reg.handlePending();
    assert_eq!(reg.each().as_slice(), &[9]);
}

// Removing an element that was never added is a silent no-op.
#[test]
fn remove_absent_is_noop() {
    let mut reg: PendingList<usize> = PendingList();
    reg.add(1);
    reg.add(2);
    reg.handlePending();
    reg.remove(42);
    reg.handlePending();
    assert_eq!(reg.each().as_slice(), &[1, 2]);
}

#[test]
fn remove_duplicate_takes_only_first() {
    let mut reg: PendingList<u64> = PendingList();
    reg.add(5);
    reg.add(5);
    reg.add(8);
    reg.handlePending();
    reg.remove(5);
    reg.handlePending();
    assert_eq!(reg.each().as_slice(), &[5, 8]);
}

#[test]
fn commit_on_empty_registry() {
    let mut reg: PendingList<u64> = PendingList();
    reg.handlePending();
    assert_eq!(reg.each().len(), 0);
    reg.remove(3);
    reg.handlePending();
    assert_eq!(reg.each().len(), 0);
}

#[test]
fn remove_elem_reports_index() {
    let mut v: Vec<u64> = vec![4, 6, 6, 9];
    assert_eq!(remove_elem(&mut v, 6), Some(1));
    assert_eq!(v, vec![4, 6, 9]);
    assert_eq!(remove_elem(&mut v, 1), None);
    assert_eq!(v, vec![4, 6, 9]);
}

#[test]
fn each_mut_applies_visitor_in_place() {
    let mut reg: PendingList<i64> = PendingList();
    reg.add(1);
    reg.add(2);
    reg.add(3);
    reg.handlePending();
    reg.each_mut(|x: &i64| x + 10);
    assert_eq!(reg.each().as_slice(), &[11, 12, 13]);
}

#[test]
fn size_hint_counts_live_elements() {
    let mut reg: PendingList<u64> = PendingList();
    assert_eq!(reg.size_hint(), Some(0));
    reg.add(1);
    assert_eq!(reg.size_hint(), Some(0));
    reg.handlePending();
    assert_eq!(reg.size_hint(), Some(1));
}
