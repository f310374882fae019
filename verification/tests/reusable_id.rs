use spmg::reusable_id::ReusableId;

#[test]
fn test_next() {
    let mut id = ReusableId::new(1);
    assert_eq!(id.next(), 1);
    assert_eq!(id.next(), 2);
    assert_eq!(id.next(), 3);
}

#[test]
fn test_remove() {
    let mut id = ReusableId::new(1);
    assert_eq!(id.next(), 1);
    assert_eq!(id.next(), 2);
    id.release(1);
    assert_eq!(id.next(), 1);
    id.release(2);
    assert_eq!(id.next(), 2);
    assert_eq!(id.next(), 3);
}

#[test]
fn test_remove_ignores_duplicates() {
    let mut id = ReusableId::new(1);
    id.release(1);
    id.release(1);
    assert_eq!(id.next(), 1);
    assert_eq!(id.next(), 2);
}

#[test]
fn test_remove_keeps_order() {
    let mut id = ReusableId::new(1);
    assert_eq!(id.next(), 1);
    assert_eq!(id.next(), 2);
    assert_eq!(id.next(), 3);
    id.release(2);
    id.release(1);
    assert_eq!(id.next(), 1);
}
