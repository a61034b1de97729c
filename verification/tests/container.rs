use bitonic_sorter::ToyVec;

#[test]
fn new_vector_is_empty() {
    let v: ToyVec<u64> = ToyVec::new();
    assert_eq!(v.len(), 0);
    assert_eq!(v.capacity(), 0);
    assert!(v.get(0).is_none());
}

#[test]
fn with_capacity_reserves_storage() {
    let v: ToyVec<u64> = ToyVec::with_capacity(8);
    assert_eq!(v.len(), 0);
    assert_eq!(v.capacity(), 8);
}

#[test]
fn push_and_get_round_trip() {
    let mut v = ToyVec::new();
    v.push(10u64);
    v.push(20);
    v.push(30);
    assert_eq!(v.len(), 3);
    assert_eq!(v.get(0), Some(&10));
    assert_eq!(v.get(1), Some(&20));
    assert_eq!(v.get(2), Some(&30));
    assert_eq!(v.get(3), None);
}

#[test]
fn capacity_doubles_as_pushes_arrive() {
    let mut v = ToyVec::new();
    v.push(1u32);
    assert_eq!(v.capacity(), 1);
    v.push(2);
    assert_eq!(v.capacity(), 2);
    v.push(3);
    assert_eq!(v.capacity(), 4);
    v.push(4);
    v.push(5);
    assert_eq!(v.capacity(), 8);
    assert_eq!(v.len(), 5);
}

#[test]
fn pop_returns_last_in_and_keeps_capacity() {
    let mut v = ToyVec::new();
    v.push(1u8);
    v.push(2);
    let cap = v.capacity();
    assert_eq!(v.pop(), Some(2));
    assert_eq!(v.pop(), Some(1));
    assert_eq!(v.pop(), None);
    assert_eq!(v.len(), 0);
    assert_eq!(v.capacity(), cap);
}

#[test]
fn get_or_falls_back_to_the_default() {
    let mut v = ToyVec::new();
    v.push(5i64);
    let fallback = -1i64;
    assert_eq!(*v.get_or(0, &fallback), 5);
    assert_eq!(*v.get_or(1, &fallback), -1);
}

#[test]
fn iter_walks_the_live_elements_in_order() {
    let mut v = ToyVec::with_capacity(10);
    v.push("a".to_string());
    v.push("b".to_string());
    v.push("c".to_string());
    let mut it = v.iter();
    assert_eq!(it.next().map(String::as_str), Some("a"));
    assert_eq!(it.next().map(String::as_str), Some("b"));
    assert_eq!(it.next().map(String::as_str), Some("c"));
    assert!(it.next().is_none());
    assert!(it.next().is_none());
}
