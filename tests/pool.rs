use angelax::pool::{BufferPool, HttpObjectPool, ObjectPool};

#[test]
fn test_object_pool() {
    let mut pool = ObjectPool::new(3, || vec![0u8; 100]);
    let mut obj1 = pool.get().unwrap();
    let mut obj2 = pool.get().unwrap();
    let mut obj3 = pool.get().unwrap();
    assert!(pool.get().is_none());
    obj1.value[0] = 1;
    obj2.value[0] = 2;
    obj3.value[0] = 3;
    pool.release(obj1);
    let obj4 = pool.get().unwrap();
    assert_eq!(obj4.value[0], 1);
}

#[test]
fn test_object_pool_with_reset() {
    let mut pool = ObjectPool::with_reset(2, || vec![0u8; 10], |mut v: Vec<u8>| {
        v.fill(0);
        v
    });
    let mut obj = pool.get().unwrap();
    obj.value.fill(42);
    pool.release(obj);
    let obj = pool.get().unwrap();
    assert!(obj.value.iter().all(|&b| b == 0));
    assert_eq!(pool.metrics().returns.load(), 1);
}

#[test]
fn release_with_resets_per_call() {
    let mut pool = ObjectPool::new(2, || vec![0u8; 10]);
    let mut obj = pool.get().unwrap();
    obj.value.fill(42);
    pool.release_with(obj, |mut v: Vec<u8>| {
        v.fill(0);
        v
    });
    let obj = pool.get().unwrap();
    assert!(obj.value.iter().all(|&b| b == 0));
}

#[test]
fn test_buffer_pool() {
    let mut pool = BufferPool::new();
    let small = pool.get(1000);
    assert!(small.buffer.value.capacity() >= 4096);
    let medium = pool.get(50000);
    assert!(medium.buffer.value.capacity() >= 65536);
    let large = pool.get(1000000);
    assert!(large.buffer.value.capacity() >= 1048576);
}

#[test]
fn test_pool_metrics() {
    let mut pool = ObjectPool::new(2, || 42);
    let _obj1 = pool.get();
    let _obj2 = pool.get();
    let _obj3 = pool.get();
    let metrics = pool.metrics();
    assert_eq!(metrics.requests.load(), 3);
    assert_eq!(metrics.hits.load(), 2);
    assert_eq!(metrics.misses.load(), 1);
    assert_eq!(metrics.hits.load() as f64 / metrics.requests.load() as f64, 2.0 / 3.0);
}

#[test]
fn exhausted_pool_falls_back_without_binding_a_slot() {
    let mut pool = ObjectPool::new(1, || 7u32);
    let a = pool.get_or_create(|| 9u32);
    assert!(a.is_pooled());
    let b = pool.get_or_create(|| 9u32);
    assert!(!b.is_pooled());
    assert_eq!(b.value, 9);
    pool.release(b);
    assert!(pool.get().is_none());
    pool.release(a);
    assert_eq!(pool.metrics().returns.load(), 1);
    assert!(pool.get().is_some());
}

#[test]
fn released_buffers_are_cleared() {
    let mut pool = BufferPool::new();
    let mut b = pool.get(10);
    b.buffer.value.extend_from_slice(b"data");
    pool.release(b);
    let again = pool.get(10);
    assert!(again.buffer.value.is_empty());
    assert!(again.buffer.value.capacity() >= 4096);
}

#[test]
fn test_http_object_pool() {
    let mut pool = HttpObjectPool::new();
    let mut req = pool.request_pool.get().unwrap();
    req.value.method = b"GET".to_vec();
    req.value.uri = b"/test".to_vec();
    req.value.headers.push((b"Host".to_vec(), b"example.com".to_vec()));
    pool.release_request(req);
    let req = pool.request_pool.get().unwrap();
    assert!(req.value.method.is_empty());
    assert!(req.value.uri.is_empty());
    assert!(req.value.headers.is_empty());
}

#[test]
fn buffer_release_counts_returns_and_ignores_fallbacks() {
    let mut pool = BufferPool::new();
    let b = pool.get(10);
    assert!(b.buffer.is_pooled());
    assert!(b.buffer.value.is_empty());
    pool.release(b);
    assert_eq!(pool.metrics().small.returns.load(), 1);
    assert_eq!(pool.metrics().medium.returns.load(), 0);
    let mut held = Vec::new();
    for _ in 0..16 {
        held.push(pool.get(2_000_000));
    }
    let extra = pool.get(2_000_000);
    assert!(!extra.buffer.is_pooled());
    pool.release(extra);
    assert_eq!(pool.metrics().large.returns.load(), 0);
}
