use per_thread_object::runtime::Runtime;
use per_thread_object::StackToken;
use std::sync::atomic::{AtomicUsize, Ordering};
use std::sync::Arc;

struct Counted {
    tag: usize,
    drops: Arc<AtomicUsize>,
}

impl Drop for Counted {
    fn drop(&mut self) {
        self.drops.fetch_add(1, Ordering::SeqCst);
    }
}

fn counted(tag: usize, drops: &Arc<AtomicUsize>) -> Counted {
    Counted { tag, drops: drops.clone() }
}

#[test]
fn a_thread_sees_only_its_own_value() {
    let mut rt: Runtime<u32> = Runtime::new();
    let token = StackToken::__private_new();
    let a = rt.spawn();
    let b = rt.spawn();
    let c = rt.create(16);
    let d = rt.create(16);

    assert_eq!(*rt.get_or_init(&token, c, a, || 1), 1);
    assert_eq!(rt.get(&token, c, b), None);
    assert_eq!(rt.get(&token, d, a), None);
    assert_eq!(rt.get(&token, d, b), None);

    assert_eq!(*rt.get_or_init(&token, c, b, || 2), 2);
    assert_eq!(rt.get(&token, c, a), Some(&1));
    assert_eq!(rt.get(&token, c, b), Some(&2));
}

#[test]
fn second_init_is_not_run() {
    let mut rt: Runtime<u32> = Runtime::new();
    let token = StackToken::__private_new();
    let t = rt.spawn();
    let c = rt.create(16);
    let mut runs = 0;

    assert_eq!(*rt.get_or_init(&token, c, t, || {
        runs += 1;
        7
    }), 7);
    assert_eq!(*rt.get_or_init(&token, c, t, || {
        runs += 1;
        8
    }), 7);
    let again: Result<&u32, ()> = rt.get_or_try_init(&token, c, t, || {
        runs += 1;
        Err(())
    });
    assert_eq!(again, Ok(&7));
    assert_eq!(runs, 1);
}

#[test]
fn nothing_is_there_before_the_first_init() {
    let mut rt: Runtime<u32> = Runtime::new();
    let token = StackToken::__private_new();
    let c = rt.create(2);
    let threads: Vec<usize> = (0..7).map(|_| rt.spawn()).collect();
    for t in threads.iter() {
        assert_eq!(rt.get(&token, c, *t), None);
    }
    for t in threads.iter() {
        rt.get_or_init(&token, c, *t, || *t as u32 + 100);
    }
    for t in threads.iter() {
        assert_eq!(rt.get(&token, c, *t), Some(&(*t as u32 + 100)));
    }
    assert_eq!(rt.get(&token, c, 7), None);
}

#[test]
fn ids_of_ended_threads_come_back() {
    let mut rt: Runtime<u32> = Runtime::new();
    let ids: Vec<usize> = (0..5).map(|_| rt.spawn()).collect();
    assert_eq!(ids, vec![0, 1, 2, 3, 4]);
    for t in 0..5 {
        assert!(rt.has_thread(t));
    }
    assert!(!rt.has_thread(5));

    rt.exit(3);
    rt.exit(1);
    assert!(!rt.has_thread(1));
    assert!(!rt.has_thread(3));
    assert!(rt.has_thread(2));

    assert_eq!(rt.spawn(), 1);
    assert_eq!(rt.spawn(), 3);
    assert_eq!(rt.spawn(), 5);
    assert!(!rt.is_full());
}

#[test]
fn threads_in_a_row_share_one_id() {
    let mut rt: Runtime<u64> = Runtime::new();
    let token = StackToken::__private_new();
    let main = rt.spawn();
    let c = rt.create(16);
    rt.get_or_init(&token, c, main, || 0);
    for round in 0..65u64 {
        let t = rt.spawn();
        assert_eq!(t, 1);
        assert_eq!(rt.get(&token, c, t), None);
        assert_eq!(*rt.get_or_init(&token, c, t, || round), round);
        assert_eq!(rt.exit(t), vec![(c, round)]);
    }
    assert_eq!(rt.get(&token, c, main), Some(&0));
}

#[test]
fn every_value_is_dropped_once_whichever_side_goes_first() {
    let drops = Arc::new(AtomicUsize::new(0));
    let mut rt: Runtime<Counted> = Runtime::new();
    let token = StackToken::__private_new();
    let containers: Vec<_> = (0..4).map(|_| rt.create(3)).collect();
    let threads: Vec<usize> = (0..10).map(|_| rt.spawn()).collect();

    let mut written = 0;
    for (i, c) in containers.iter().enumerate() {
        for t in threads.iter() {
            if (i + *t) % 3 != 0 {
                let v = rt.get_or_init(&token, *c, *t, || counted(i * 100 + *t, &drops));
                assert_eq!(v.tag, i * 100 + *t);
                written += 1;
            }
        }
    }
    assert_eq!(drops.load(Ordering::SeqCst), 0);

    let mut handed_back = 0;
    for step in 0..10 {
        handed_back += rt.exit(threads[step]).len();
        assert_eq!(drops.load(Ordering::SeqCst), handed_back);
        if step % 3 == 0 {
            handed_back += rt.destroy(containers[step / 3]).len();
            assert_eq!(drops.load(Ordering::SeqCst), handed_back);
        }
    }
    assert_eq!(handed_back, written);
    drop(rt);
    assert_eq!(drops.load(Ordering::SeqCst), written);
}

#[test]
fn container_first_then_thread() {
    let drops = Arc::new(AtomicUsize::new(0));
    let mut rt: Runtime<Counted> = Runtime::new();
    let token = StackToken::__private_new();
    let c = rt.create(16);
    let keep = rt.create(16);
    let t = rt.spawn();
    rt.get_or_init(&token, c, t, || counted(1, &drops));
    rt.get_or_init(&token, keep, t, || counted(2, &drops));

    let dropped = rt.destroy(c);
    assert_eq!(dropped.len(), 1);
    assert_eq!(dropped[0].0, t);
    assert_eq!(dropped[0].1.tag, 1);
    drop(dropped);
    assert_eq!(drops.load(Ordering::SeqCst), 1);
    assert!(!rt.has_object(c));

    let dropped = rt.exit(t);
    assert_eq!(dropped.len(), 1);
    assert_eq!(dropped[0].0, keep);
    assert_eq!(dropped[0].1.tag, 2);
    drop(dropped);
    assert_eq!(drops.load(Ordering::SeqCst), 2);
    assert!(rt.destroy(c).is_empty());
}

#[test]
fn thread_first_then_container() {
    let drops = Arc::new(AtomicUsize::new(0));
    let mut rt: Runtime<Counted> = Runtime::new();
    let token = StackToken::__private_new();
    let c = rt.create(16);
    let t = rt.spawn();
    let stay = rt.spawn();
    rt.get_or_init(&token, c, t, || counted(1, &drops));
    rt.get_or_init(&token, c, stay, || counted(2, &drops));

    let dropped = rt.exit(t);
    assert_eq!(dropped.len(), 1);
    assert_eq!(dropped[0].0, c);
    assert_eq!(dropped[0].1.tag, 1);
    drop(dropped);
    assert_eq!(drops.load(Ordering::SeqCst), 1);
    assert!(rt.exit(t).is_empty());

    let dropped = rt.destroy(c);
    assert_eq!(dropped.len(), 1);
    assert_eq!(dropped[0].0, stay);
    assert_eq!(dropped[0].1.tag, 2);
    drop(dropped);
    assert_eq!(drops.load(Ordering::SeqCst), 2);
    assert!(rt.exit(stay).is_empty());
}

#[test]
fn failed_init_leaves_no_trace() {
    let mut rt: Runtime<u32> = Runtime::new();
    let token = StackToken::__private_new();
    let c = rt.create(16);
    let t = rt.spawn();

    let failed: Result<&u32, &str> = rt.get_or_try_init(&token, c, t, || Err("x"));
    assert_eq!(failed, Err("x"));
    assert_eq!(rt.get(&token, c, t), None);
    assert!(rt.exit(t).is_empty());

    let t = rt.spawn();
    let failed: Result<&u32, &str> = rt.get_or_try_init(&token, c, t, || Err("x"));
    assert_eq!(failed, Err("x"));
    assert!(rt.destroy(c).is_empty());

    let c = rt.create(16);
    let failed: Result<&u32, &str> = rt.get_or_try_init(&token, c, t, || Err("x"));
    assert_eq!(failed, Err("x"));
    assert_eq!(rt.get(&token, c, t), None);
    assert_eq!(*rt.get_or_init(&token, c, t, || 0x1), 0x1);
    assert_eq!(rt.exit(t), vec![(c, 0x1)]);
}

#[test]
fn failed_init_in_an_overflow_page_leaves_no_trace() {
    let mut rt: Runtime<u32> = Runtime::new();
    let token = StackToken::__private_new();
    let c = rt.create(2);
    let threads: Vec<usize> = (0..9).map(|_| rt.spawn()).collect();
    let far = threads[8];

    let failed: Result<&u32, u8> = rt.get_or_try_init(&token, c, far, || Err(3));
    assert_eq!(failed, Err(3));
    for t in threads.iter() {
        assert_eq!(rt.get(&token, c, *t), None);
    }
    assert_eq!(rt.get_or_try_init::<_, u8>(&token, c, far, || Ok(4)), Ok(&4));
    assert_eq!(rt.destroy(c), vec![(far, 4)]);
}

#[test]
fn an_address_is_used_again_after_its_container_went() {
    let mut rt: Runtime<u32> = Runtime::new();
    let token = StackToken::__private_new();
    let t = rt.spawn();
    let a = rt.create(16);
    let b = rt.create(16);
    assert_eq!((a.ptr, b.ptr), (0, 1));
    rt.get_or_init(&token, a, t, || 1);
    rt.get_or_init(&token, b, t, || 2);

    assert_eq!(rt.destroy(a), vec![(t, 1)]);
    let again = rt.create(4);
    assert_eq!(again.ptr, 0);
    assert_eq!(rt.get(&token, again, t), None);
    assert_eq!(*rt.get_or_init(&token, again, t, || 3), 3);
    assert_eq!(rt.get(&token, b, t), Some(&2));

    let mut dropped = rt.exit(t);
    dropped.sort_by_key(|(tr, _)| tr.ptr);
    assert_eq!(dropped, vec![(again, 3), (b, 2)]);
}

#[test]
fn more_threads_than_primary_slots() {
    let drops = Arc::new(AtomicUsize::new(0));
    let mut rt: Runtime<Counted> = Runtime::new();
    let token = StackToken::__private_new();
    let a = rt.create(16);
    let b = rt.create(16);
    let threads: Vec<usize> = (0..33).map(|_| rt.spawn()).collect();
    assert_eq!(threads, (0..33).collect::<Vec<usize>>());

    for t in threads.iter() {
        assert_eq!(rt.get_or_init(&token, a, *t, || counted(*t, &drops)).tag, *t);
        assert_eq!(rt.get_or_init(&token, b, *t, || counted(1000 + *t, &drops)).tag, 1000 + *t);
    }
    for t in threads.iter() {
        assert_eq!(rt.get(&token, a, *t).map(|v| v.tag), Some(*t));
        assert_eq!(rt.get(&token, b, *t).map(|v| v.tag), Some(1000 + *t));
    }
    for t in threads.iter().rev() {
        assert_eq!(rt.exit(*t).len(), 2);
    }
    assert_eq!(drops.load(Ordering::SeqCst), 66);
    assert!(rt.destroy(a).is_empty());
    assert!(rt.destroy(b).is_empty());
    assert_eq!(drops.load(Ordering::SeqCst), 66);
    assert_eq!(rt.spawn(), 0);
}

#[test]
fn single_thread_single_container() {
    let mut rt: Runtime<u32> = Runtime::new();
    let token = StackToken::__private_new();
    let t = rt.spawn();
    let other = rt.spawn();
    let c = rt.create(16);

    assert_eq!(rt.get(&token, c, t), None);
    assert_eq!(*rt.get_or_init(&token, c, t, || 0x42), 0x42);
    assert_eq!(rt.get(&token, c, t), Some(&0x42));
    assert_eq!(*rt.get_or_init(&token, c, t, || 0x32), 0x42);

    assert_eq!(rt.destroy(c), vec![(t, 0x42)]);
    assert!(rt.has_thread(other));
    assert!(rt.exit(other).is_empty());
}

#[test]
fn two_threads_and_main_share_a_container() {
    let mut rt: Runtime<u32> = Runtime::new();
    let token = StackToken::__private_new();
    let main = rt.spawn();
    let c = rt.create(16);
    let a = rt.spawn();
    let b = rt.spawn();

    assert_eq!(*rt.get_or_init(&token, c, a, || 0x42), 0x42);
    assert_eq!(rt.get(&token, c, b), None);
    assert_eq!(*rt.get_or_init(&token, c, b, || 0x22), 0x22);
    assert_eq!(*rt.get_or_init(&token, c, main, || 0x10), 0x10);

    assert_eq!(rt.exit(a), vec![(c, 0x42)]);
    assert_eq!(rt.destroy(c), vec![(main, 0x10), (b, 0x22)]);
    assert!(rt.exit(b).is_empty());
    assert!(rt.exit(main).is_empty());
}

#[test]
fn a_container_hands_back_its_values_lowest_thread_first() {
    let mut rt: Runtime<usize> = Runtime::new();
    let token = StackToken::__private_new();
    let c = rt.create(4);
    let threads: Vec<usize> = (0..20).map(|_| rt.spawn()).collect();
    for t in threads.iter().rev() {
        if *t % 3 != 1 {
            rt.get_or_init(&token, c, *t, || *t * 10);
        }
    }
    let expected: Vec<(usize, usize)> =
        threads.iter().filter(|t| **t % 3 != 1).map(|t| (*t, *t * 10)).collect();
    assert_eq!(rt.destroy(c), expected);
}
