use entangle::{AtomicBitSet, MpmcContainer, RelocatablePtr, SpscQueue, UniqueIndexSet};

#[test]
fn set_and_check() {
    let mut bs = AtomicBitSet::new(128);
    assert!(!bs.is_set(0));
    assert!(bs.set(0));
    assert!(bs.is_set(0));
    assert!(!bs.set(0));
}

#[test]
fn clear() {
    let mut bs = AtomicBitSet::new(128);
    bs.set(42);
    assert!(bs.clear(42));
    assert!(!bs.is_set(42));
    assert!(!bs.clear(42));
}

#[test]
fn count() {
    let mut bs = AtomicBitSet::new(128);
    bs.set(0);
    bs.set(63);
    bs.set(64);
    bs.set(127);
    assert_eq!(bs.count_set(), 4);
}

#[test]
fn find_and_clear() {
    let mut bs = AtomicBitSet::new(128);
    bs.set(5);
    bs.set(70);
    assert_eq!(bs.find_and_clear_first_set(), Some(5));
    assert_eq!(bs.find_and_clear_first_set(), Some(70));
    assert_eq!(bs.find_and_clear_first_set(), None);
}

#[test]
fn basic_acquire_release() {
    let mut set = UniqueIndexSet::new(4);
    assert_eq!(set.borrowed_count(), 0);
    assert_eq!(set.available(), 4);

    let a = set.acquire().unwrap();
    let b = set.acquire().unwrap();
    assert_ne!(a, b);
    assert_eq!(set.borrowed_count(), 2);

    set.release(a);
    assert_eq!(set.borrowed_count(), 1);

    set.release(b);
    assert_eq!(set.borrowed_count(), 0);
}

#[test]
fn index_set_exhaust_and_recover() {
    let mut set = UniqueIndexSet::new(2);
    let a = set.acquire().unwrap();
    let b = set.acquire().unwrap();
    assert!(set.acquire().is_err());

    set.release(a);
    let c = set.acquire().unwrap();
    assert_eq!(c, a); // last released is first acquired
    set.release(b);
    set.release(c);
}

#[test]
fn all_indices_unique() {
    let n = 64;
    let mut set = UniqueIndexSet::new(n);
    let mut acquired = Vec::new();
    for _ in 0..n {
        acquired.push(set.acquire().unwrap());
    }
    acquired.sort();
    acquired.dedup();
    assert_eq!(acquired.len(), n as usize);
}

#[test]
fn large_capacity_beyond_16bit() {
    let mut set = UniqueIndexSet::new(100_000);
    let mut indices = Vec::new();
    for _ in 0..70_000 {
        indices.push(set.acquire().unwrap());
    }
    assert_eq!(set.borrowed_count(), 70_000);
    for idx in indices {
        set.release(idx);
    }
    assert_eq!(set.borrowed_count(), 0);
}

#[test]
fn add_and_get() {
    let mut c = MpmcContainer::new(4);
    let s0 = c.add(100).unwrap();
    let s1 = c.add(200).unwrap();

    assert_eq!(c.get(s0), Some(100));
    assert_eq!(c.get(s1), Some(200));
    assert_eq!(c.len(), 2);
}

#[test]
fn remove() {
    let mut c = MpmcContainer::new(4);
    let s = c.add(42).unwrap();
    assert_eq!(c.remove(s), Some(42));
    assert_eq!(c.get(s), None);
    assert_eq!(c.len(), 0);
}

#[test]
fn full() {
    let mut c = MpmcContainer::new(2);
    c.add(1).unwrap();
    c.add(2).unwrap();
    assert!(c.add(3).is_none());
}

#[test]
fn reuse_after_remove() {
    let mut c = MpmcContainer::new(2);
    let s = c.add(1).unwrap();
    c.remove(s);
    let s2 = c.add(99).unwrap();
    assert_eq!(c.get(s2), Some(99));
}

#[test]
fn for_each() {
    let mut c = MpmcContainer::new(4);
    c.add(10);
    c.add(20);
    c.add(30);

    let mut values = Vec::new();
    c.for_each(|_, v| values.push(v));
    values.sort();
    assert_eq!(values, vec![10, 20, 30]);
}

#[test]
fn null_by_default() {
    let rp = RelocatablePtr::null();
    assert!(rp.is_null());
    let self_addr = std::ptr::from_ref(&rp) as usize;
    assert_eq!(rp.load(self_addr), 0);
}

#[test]
fn store_and_load() {
    let data: [u8; 16] = [42; 16];
    let mut rp = RelocatablePtr::null();
    let self_addr = std::ptr::from_ref(&rp) as usize;
    let target = data.as_ptr() as usize;

    rp.store(self_addr, target);

    assert!(!rp.is_null());
    let loaded = rp.load(self_addr);
    assert_eq!(loaded, data.as_ptr() as usize);
}

#[test]
fn clear_resets_to_null() {
    let data: u8 = 99;
    let mut rp = RelocatablePtr::null();
    let self_addr = std::ptr::from_ref(&rp) as usize;
    rp.store(self_addr, std::ptr::from_ref(&data) as usize);
    assert!(!rp.is_null());
    rp.clear();
    assert!(rp.is_null());
}

#[test]
fn push_pop_basic() {
    let mut q = SpscQueue::new(4);
    assert!(q.is_empty());

    assert!(q.push(1));
    assert!(q.push(2));
    assert!(q.push(3));
    assert!(q.push(4));
    assert!(q.is_full());
    assert!(!q.push(5)); // full

    assert_eq!(q.pop(), Some(1));
    assert_eq!(q.pop(), Some(2));
    assert_eq!(q.pop(), Some(3));
    assert_eq!(q.pop(), Some(4));
    assert!(q.is_empty());
    assert_eq!(q.pop(), None);
}

#[test]
fn wrap_around() {
    let mut q = SpscQueue::new(2);
    for round in 0..10 {
        assert!(q.push(round * 2));
        assert!(q.push(round * 2 + 1));
        assert_eq!(q.pop(), Some(round * 2));
        assert_eq!(q.pop(), Some(round * 2 + 1));
    }
}

#[test]
fn len_tracking() {
    let mut q = SpscQueue::new(4);
    assert_eq!(q.len(), 0);
    q.push(1);
    assert_eq!(q.len(), 1);
    q.push(2);
    assert_eq!(q.len(), 2);
    q.pop();
    assert_eq!(q.len(), 1);
}
