use ezxml::ord_map::OrdMap;
use ezxml::stack::Stack;
use std::cmp::Ordering;

fn map_of(pairs: &[(&str, &str)]) -> OrdMap {
    let mut m = OrdMap::new();
    for (k, v) in pairs {
        m.insert(k.to_string(), v.to_string()).unwrap();
    }
    m
}

#[test]
fn ord_map_insert_and_get() {
    let mut m = OrdMap::new();
    assert!(m.is_empty());
    m.insert("version".to_string(), "1.0".to_string()).unwrap();
    m.insert("encoding".to_string(), "UTF-8".to_string()).unwrap();
    assert_eq!(m.len(), 2);
    assert_eq!(m.get("version").unwrap().as_str(), "1.0");
    assert_eq!(m.get("encoding").unwrap().as_str(), "UTF-8");
    assert!(m.get("standalone").is_none());
    assert!(m.contains_key("version"));
    assert!(!m.contains_key("standalone"));
}

#[test]
fn ord_map_keeps_insertion_order() {
    let m = map_of(&[("b", "2"), ("a", "1")]);
    let pairs = m.map();
    assert_eq!(pairs[0].0.as_str(), "b");
    assert_eq!(pairs[1].0.as_str(), "a");
}

#[test]
fn ord_map_duplicate_insert_fails_and_keeps_value() {
    let mut m = map_of(&[("key", "old")]);
    let result = m.insert("key".to_string(), "new".to_string());
    assert!(result.is_err());
    assert!(result.unwrap_err().is_bug());
    assert_eq!(m.len(), 1);
    assert_eq!(m.get("key").unwrap().as_str(), "old");
}

#[test]
fn ord_map_equality_ignores_order() {
    let m1 = map_of(&[("a", "1"), ("b", "2")]);
    let m2 = map_of(&[("b", "2"), ("a", "1")]);
    let m3 = map_of(&[("a", "1"), ("b", "3")]);
    assert!(m1 == m2);
    assert!(m1 != m3);
}

#[test]
fn ord_map_order_is_by_size_then_first_difference() {
    let shorter = map_of(&[("a", "1")]);
    let longer = map_of(&[("a", "1"), ("b", "2")]);
    assert_eq!(shorter.partial_cmp(&longer), Some(Ordering::Less));
    assert_eq!(longer.partial_cmp(&shorter), Some(Ordering::Greater));

    let left = map_of(&[("a", "1"), ("b", "2")]);
    let right = map_of(&[("a", "1"), ("c", "0")]);
    assert_eq!(left.partial_cmp(&right), Some(Ordering::Less));

    let by_value = map_of(&[("a", "1"), ("b", "3")]);
    assert_eq!(left.partial_cmp(&by_value), Some(Ordering::Less));

    let same = map_of(&[("a", "1"), ("b", "2")]);
    assert_eq!(left.partial_cmp(&same), Some(Ordering::Equal));
}

#[test]
fn ord_map_clone_matches_original() {
    let m = map_of(&[("a", "1"), ("b", "2")]);
    let c = m.clone();
    assert!(m == c);
}

#[test]
fn stack_push_pop_peek() {
    let mut s: Stack<u64> = Stack::new();
    assert!(s.is_empty());
    assert!(s.pop().is_none());
    s.push(1);
    s.push(2);
    assert_eq!(*s.peek().unwrap(), 2);
    assert!(!s.is_empty());
    assert_eq!(s.pop(), Some(2));
    assert_eq!(s.pop(), Some(1));
    assert!(s.pop().is_none());
}

#[test]
fn stack_from_and_vec() {
    let s = Stack::from(vec![10u64, 20, 30]);
    assert_eq!(s.vec().len(), 3);
    assert_eq!(*s.peek().unwrap(), 30);
    let t: Stack<u64> = Stack::new();
    assert!(s.size_gt(&t));
    assert!(t.size_le(&s));
}

#[test]
fn stack_peek_mut_changes_top() {
    let mut s = Stack::from(vec![1u64, 2]);
    if let Some(top) = s.peek_mut() {
        *top = 9;
    }
    assert_eq!(s.pop(), Some(9));
    assert_eq!(s.pop(), Some(1));
    let mut empty: Stack<u64> = Stack::new();
    assert!(empty.peek_mut().is_none());
}

#[test]
fn stack_vec_mut_changes_items() {
    let mut s = Stack::from(vec![1u64]);
    s.vec_mut().push(2);
    assert_eq!(s.pop(), Some(2));
}
