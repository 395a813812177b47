use per_thread_object::runtime::Runtime;
use per_thread_object::{StackToken, DEFAULT_PAGE_CAP};

#[test]
fn test_get() {
    let mut rt: Runtime<Box<usize>> = Runtime::new();
    let main = rt.spawn();
    let tl = rt.create(DEFAULT_PAGE_CAP);
    let token = StackToken::__private_new();

    assert!(rt.get(&token, tl, main).is_none());

    let val = **rt.get_or_init(&token, tl, main, || Box::new(0x42));
    assert_eq!(0x42, val);

    let other = rt.spawn();
    {
        let val = **rt.get_or_init(&token, tl, other, || Box::new(0x22));
        assert_eq!(0x22, val);
    }

    let val = **rt.get(&token, tl, main).unwrap();
    assert_eq!(0x42, val);

    let val = **rt.get_or_init(&token, tl, main, || Box::new(0x32));
    assert_eq!(0x42, val);
}

#[test]
fn test_thread_get() {
    let mut rt: Runtime<Box<usize>> = Runtime::new();
    let main = rt.spawn();
    let tl = rt.create(DEFAULT_PAGE_CAP);
    let token = StackToken::__private_new();

    let val = **rt.get_or_init(&token, tl, main, || Box::new(0x42));
    assert_eq!(0x42, val);

    let j = rt.spawn();
    {
        assert!(rt.get(&token, tl, j).is_none());

        let val = **rt.get_or_init(&token, tl, j, || Box::new(0x32));
        assert_eq!(0x32, val);

        let val = **rt.get_or_init(&token, tl, j, || Box::new(0x12));
        assert_eq!(0x32, val);
    }

    let j2 = rt.spawn();
    {
        assert!(rt.get(&token, tl, j2).is_none());

        let val = **rt.get_or_init(&token, tl, j2, || Box::new(0x22));
        assert_eq!(0x22, val);

        let val = **rt.get(&token, tl, j2).unwrap();
        assert_eq!(0x22, val);
    }

    let val = **rt.get_or_init(&token, tl, main, || Box::new(0x42));
    assert_eq!(0x42, val);

    assert_eq!(rt.exit(j).len(), 1);
    assert_eq!(rt.exit(j2).len(), 1);
}

#[test]
fn test_multi_obj() {
    let mut rt: Runtime<Box<u64>> = Runtime::new();
    let main = rt.spawn();
    let tla = rt.create(DEFAULT_PAGE_CAP);
    let tlb = rt.create(DEFAULT_PAGE_CAP);
    let token = StackToken::__private_new();

    assert!(rt.get(&token, tla, main).is_none());
    assert!(rt.get(&token, tlb, main).is_none());

    let j = rt.spawn();
    {
        assert!(rt.get(&token, tla, j).is_none());

        let val = **rt.get_or_init(&token, tla, j, || Box::new(0x32));
        assert_eq!(0x32, val);

        let val = **rt.get(&token, tla, j).unwrap();
        assert_eq!(0x32, val);
    }

    let j2 = rt.spawn();
    {
        assert!(rt.get(&token, tlb, j2).is_none());

        let val = **rt.get_or_init(&token, tlb, j2, || Box::new(0x22));
        assert_eq!(0x22, val);

        let val = **rt.get(&token, tlb, j2).unwrap();
        assert_eq!(0x22, val);
    }

    let val = **rt.get_or_init(&token, tla, main, || Box::new(0x42));
    assert_eq!(0x42, val);
    let val = **rt.get_or_init(&token, tlb, main, || Box::new(0x52));
    assert_eq!(0x52, val);

    rt.exit(j);
    rt.exit(j2);

    let val = **rt.get(&token, tla, main).unwrap();
    assert_eq!(0x42, val);
    let val = **rt.get(&token, tlb, main).unwrap();
    assert_eq!(0x52, val);
}

#[test]
fn test_more_thread() {
    let mut rt: Runtime<Box<u64>> = Runtime::new();
    let tla = rt.create(DEFAULT_PAGE_CAP);
    let tlb = rt.create(DEFAULT_PAGE_CAP);
    let token = StackToken::__private_new();

    let n = 33;

    let mut handles = Vec::new();
    for i in 0..n {
        let t = rt.spawn();

        let val = **rt.get_or_init(&token, tla, t, || Box::new(i as u64));
        assert_eq!(i as u64, val);

        let val = **rt.get_or_init(&token, tlb, t, || Box::new(i as u64));
        assert_eq!(i as u64, val);

        handles.push(t);
    }

    for (i, t) in handles.into_iter().enumerate() {
        assert!(t < 33);
        let mut dropped = rt.exit(t);
        dropped.sort_by_key(|(tr, _)| tr.ptr);
        assert_eq!(dropped.len(), 2);
        assert_eq!(dropped[0].0, tla);
        assert_eq!(*dropped[0].1, i as u64);
        assert_eq!(dropped[1].0, tlb);
        assert_eq!(*dropped[1].1, i as u64);
    }

    assert!(rt.destroy(tla).is_empty());
    assert!(rt.destroy(tlb).is_empty());
}

#[test]
fn test_loop_thread() {
    let mut rt: Runtime<u64> = Runtime::new();
    let tl = rt.create(DEFAULT_PAGE_CAP);
    let token = StackToken::__private_new();

    let mut threads = Vec::new();
    for _ in 0..64 {
        threads.push(rt.spawn());
    }
    for _ in 0..100 {
        for t in threads.iter() {
            assert_eq!(*rt.get_or_init(&token, tl, *t, || 0x42), 0x42);
        }
    }
    for t in threads {
        let dropped = rt.exit(t);
        assert_eq!(dropped.len(), 1);
        assert_eq!(dropped[0], (tl, 0x42));
    }
}
