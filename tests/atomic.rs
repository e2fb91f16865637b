use angelax::atomic::{AtomicBitmap, AtomicCounter, AtomicStack};
use angelax::utils::align_to_cache_line;

#[test]
fn test_atomic_counter() {
    let mut counter = AtomicCounter::new(0);
    assert_eq!(counter.load(), 0);
    assert_eq!(counter.fetch_add(5), 0);
    assert_eq!(counter.load(), 5);
    assert_eq!(counter.fetch_sub(3), 5);
    assert_eq!(counter.load(), 2);
    assert_eq!(counter.compare_exchange(2, 10), Ok(2));
    assert_eq!(counter.load(), 10);
    assert_eq!(counter.compare_exchange(2, 20), Err(10));
}

#[test]
fn counter_wraps() {
    let mut counter = AtomicCounter::new(u64::MAX);
    assert_eq!(counter.fetch_add(2), u64::MAX);
    assert_eq!(counter.load(), 1);
    assert_eq!(counter.fetch_sub(3), 1);
    assert_eq!(counter.load(), u64::MAX - 1);
}

#[test]
fn test_atomic_bitmap() {
    let mut bitmap = AtomicBitmap::new(128);
    assert!(!bitmap.test(0));
    assert!(bitmap.set(0));
    assert!(bitmap.test(0));
    assert!(!bitmap.set(0));
    assert!(bitmap.clear(0));
    assert!(!bitmap.test(0));
    assert!(!bitmap.clear(0));
    bitmap.set(0);
    bitmap.set(1);
    assert_eq!(bitmap.find_first_clear(), Some(2));
    assert_eq!(bitmap.find_and_set(), Some(2));
    assert!(bitmap.test(2));
}

#[test]
fn successive_claims_are_distinct_until_full() {
    let mut bitmap = AtomicBitmap::new(130);
    let mut seen = std::collections::HashSet::new();
    for _ in 0..130 {
        let i = bitmap.find_and_set().unwrap();
        assert!(seen.insert(i));
    }
    assert_eq!(bitmap.find_and_set(), None);
    assert!(!bitmap.set(130));
    bitmap.clear(77);
    assert_eq!(bitmap.find_and_set(), Some(77));
}

#[test]
fn test_atomic_stack() {
    let mut stack = AtomicStack::new(10);
    assert!(stack.push(1));
    assert!(stack.push(2));
    assert!(stack.push(3));
    assert_eq!(stack.pop(), Some(3));
    assert_eq!(stack.pop(), Some(2));
    assert_eq!(stack.pop(), Some(1));
    assert_eq!(stack.pop(), None);
}

#[test]
fn full_stack_refuses() {
    let mut stack = AtomicStack::new(1);
    assert!(stack.push(1));
    assert!(!stack.push(2));
    assert_eq!(stack.pop(), Some(1));
}

#[test]
fn test_cache_line_alignment() {
    assert_eq!(align_to_cache_line(0), 0);
    assert_eq!(align_to_cache_line(1), 64);
    assert_eq!(align_to_cache_line(64), 64);
    assert_eq!(align_to_cache_line(65), 128);
}

#[test]
fn test_fast_copy() {
    let src = vec![1u8; 100];
    let mut dst = vec![0u8; 100];
    angelax::utils::fast_copy(&mut dst, &src);
    assert_eq!(dst, src);
}

#[test]
fn test_fast_zero() {
    let mut buffer = vec![0xFFu8; 100];
    angelax::utils::fast_zero(&mut buffer);
    assert!(buffer.iter().all(|&b| b == 0));
}
