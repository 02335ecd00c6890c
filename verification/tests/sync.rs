use labworks::sync::{MyArc, MyMutex};

#[test]
fn my_arc_counts_references() {
    let a = MyArc::new(10);
    let b = a.clone();

    assert_eq!(MyArc::strong_count(&a), 2);
    assert_eq!(*a, 10);
    assert_eq!(*b, 10);
}

#[test]
fn my_mutex_protects_shared_value() {
    let value = MyArc::new(MyMutex::new(0usize));
    let mut handles = Vec::new();

    for _ in 0..4 {
        handles.push(value.clone());
    }

    for shared in &handles {
        for _ in 0..1_000 {
            let mut guard = shared.lock();
            let next = *guard + 1;
            guard.set(next);
            guard.unlock();
        }
    }

    let guard = value.lock();
    assert_eq!(*guard, 4_000);
    guard.unlock();
}

#[test]
fn my_arc_count_falls_when_a_handle_is_dropped() {
    let a = MyArc::new(String::from("shared"));
    let b = a.clone();
    let c = b.clone();
    assert_eq!(MyArc::strong_count(&a), 3);
    drop(c);
    assert_eq!(MyArc::strong_count(&a), 2);
    drop(b);
    assert_eq!(MyArc::strong_count(&a), 1);
    assert_eq!(a.as_str(), "shared");
}

#[test]
fn my_mutex_value_set_under_the_guard_is_read_back() {
    let m = MyMutex::new(vec![1, 2]);
    let mut g = m.lock();
    assert_eq!(*g.get(), vec![1, 2]);
    g.set(vec![3]);
    assert_eq!(*g, vec![3]);
    g.unlock();
    let g = m.lock();
    assert_eq!(*g, vec![3]);
    g.unlock();
}

#[test]
fn unlocking_a_guard_frees_the_lock() {
    let m = MyMutex::new(1u8);
    let mut g = m.lock();
    g.set(2);
    g.unlock();
    let g = m.lock();
    assert_eq!(*g, 2);
    g.unlock();
}
