use per_thread_object::thread::{get, ThreadIdPool, ThreadState};

#[test]
fn pool_counts_up_from_zero() {
    let mut pool = ThreadIdPool::new();
    for expected in 0..40 {
        assert_eq!(pool.allocate(), expected);
    }
    assert!(!pool.is_full());
}

#[test]
fn pool_hands_out_smallest_free_first() {
    let mut pool = ThreadIdPool::new();
    for _ in 0..5 {
        pool.allocate();
    }
    pool.dealloc(3);
    pool.dealloc(1);
    pool.dealloc(4);
    assert_eq!(pool.allocate(), 1);
    assert_eq!(pool.allocate(), 3);
    assert_eq!(pool.allocate(), 4);
    assert_eq!(pool.allocate(), 5);
}

#[test]
fn pool_prefers_small_ids_over_large_ones() {
    let mut pool = ThreadIdPool::new();
    for _ in 0..40 {
        pool.allocate();
    }
    pool.dealloc(30);
    pool.dealloc(17);
    pool.dealloc(16);
    pool.dealloc(2);
    pool.dealloc(39);
    assert_eq!(pool.allocate(), 2);
    assert_eq!(pool.allocate(), 16);
    assert_eq!(pool.allocate(), 17);
    assert_eq!(pool.allocate(), 30);
    assert_eq!(pool.allocate(), 39);
    assert_eq!(pool.allocate(), 40);
}

#[test]
fn pool_ignores_an_id_that_is_not_held() {
    let mut pool = ThreadIdPool::new();
    pool.dealloc(0);
    pool.dealloc(7);
    assert_eq!(pool.allocate(), 0);
    assert_eq!(pool.allocate(), 1);
    pool.dealloc(0);
    pool.dealloc(0);
    assert_eq!(pool.allocate(), 0);
    assert_eq!(pool.allocate(), 2);
}

#[test]
fn pool_reuses_one_id_for_threads_that_follow_each_other() {
    let mut pool = ThreadIdPool::new();
    let main = pool.allocate();
    assert_eq!(main, 0);
    for _ in 0..65 {
        let id = pool.allocate();
        assert_eq!(id, 1);
        pool.dealloc(id);
    }
    assert_eq!(pool.allocate(), 1);
    assert_eq!(pool.allocate(), 2);
}

#[test]
fn thread_state_takes_its_id_from_the_pool() {
    let mut pool = ThreadIdPool::new();
    let a = ThreadState::new(&mut pool);
    let b = ThreadState::new(&mut pool);
    assert_eq!(get(&a), 0);
    assert_eq!(get(&b), 1);
    pool.dealloc(get(&a));
    let c = ThreadState::new(&mut pool);
    assert_eq!(get(&c), 0);
}
