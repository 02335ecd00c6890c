//! Synchronisation primitives: a reference-counted shared pointer, `MyArc`, and a
//! spin lock, `MyMutex`.
use vstd::prelude::*;
use vstd::rwlock::{RwLock, WriteHandle};
use std::ops::Deref;
use std::sync::atomic::{AtomicUsize, Ordering};
use std::sync::Arc;

verus! {

/// What every handle of a `MyArc` shares: the count of handles and the value.
struct MyArcInner<T> {
    ref_count: AtomicUsize,
    value: T,
}

/// A thread-safe reference-counted pointer: every clone shares one value and one
/// count of the handles alive.
///
/// The shared allocation is held by `std::sync::Arc`, which frees it with its last
/// handle; the count of handles is kept by this type, as `strong_count` reports it.
pub struct MyArc<T> {
    inner: Arc<MyArcInner<T>>,
}

impl<T> View for MyArc<T> {
    type V = T;

    /// The shared value.
    closed spec fn view(&self) -> T {
        self.inner.value
    }
}

impl<T> MyArc<T> {
    /// A pointer to `value`, its only handle.
    pub fn new(value: T) -> (r: Self)
        ensures r@ == value,
    {
        let inner = Arc::new(MyArcInner { ref_count: AtomicUsize::new(1), value });
        MyArc { inner }
    }

    /// The number of handles to this value alive now. Other threads may clone or
    /// drop handles at any time, so the number can be out of date when it returns.
    pub fn strong_count(this: &Self) -> usize {
        this.inner.ref_count.load(Ordering::Acquire)
    }
}

impl<T> Deref for MyArc<T> {
    type Target = T;

    /// The shared value.
    fn deref(&self) -> (r: &T)
        ensures *r == self@,
    {
        &self.inner.value
    }
}

impl<T> Clone for MyArc<T> {
    /// Another handle to the same value; the count of handles goes up by one.
    fn clone(&self) -> (r: Self)
        ensures r@ == self@,
    {
        let _ = self.inner.ref_count.fetch_add(1, Ordering::Relaxed);
        MyArc { inner: self.inner.clone() }
    }
}

impl<T> Drop for MyArc<T> {
    /// Lowers the count of handles by one (`AtomicUsize::fetch_sub`); the value
    /// itself is freed by `Arc` with the last handle.
    #[verifier::external_body]
    fn drop(&mut self)
        opens_invariants none
        no_unwind
    {
        let _ = self.inner.ref_count.fetch_sub(1, Ordering::Release);
    }
}

/// A spin lock guarding a value: `lock` waits, spinning, until no other guard is
/// out, and hands out the value until the guard is unlocked.
///
/// The spinning and the hand-over are those of `vstd::rwlock::RwLock`, used here
/// with writers only and with no condition on the value. As with that lock, the
/// lock is given back by `MyMutexGuard::unlock`: a guard dropped without it leaves
/// the lock taken.
#[verifier::reject_recursive_types(T)]
pub struct MyMutex<T> {
    lock: RwLock<T, spec_fn(T) -> bool>,
}

/// Exclusive access to the value of a `MyMutex`, until `unlock` gives it back.
#[verifier::reject_recursive_types(T)]
pub struct MyMutexGuard<'a, T> {
    value: T,
    handle: WriteHandle<'a, T, spec_fn(T) -> bool>,
}

impl<T> MyMutex<T> {
    #[verifier::type_invariant]
    spec fn accepts_all(&self) -> bool {
        forall|v: T| #[trigger] self.lock.inv(v)
    }

    /// A lock, free, guarding `value`.
    pub fn new(value: T) -> (r: Self)
    {
        let ghost any_value = |v: T| true;
        MyMutex { lock: RwLock::new(value, Ghost(any_value)) }
    }

    /// Waits until the lock is free and takes it. What the guard holds is the value
    /// the previous holder left, which other threads may have changed; the guard
    /// belongs to this lock.
    pub fn lock(&self) -> (g: MyMutexGuard<'_, T>)
        ensures
            g.belongs_to(self),
    {
        proof {
            use_type_invariant(self);
        }
        let (value, handle) = self.lock.acquire_write();
        MyMutexGuard { value, handle }
    }
}

impl<'a, T> View for MyMutexGuard<'a, T> {
    type V = T;

    /// The value the guard holds.
    closed spec fn view(&self) -> T {
        self.value
    }
}

impl<'a, T> MyMutexGuard<'a, T> {
    /// The lock that this guard holds is `mutex`'s.
    pub closed spec fn belongs_to(&self, mutex: &MyMutex<T>) -> bool {
        self.handle.rwlock() == mutex.lock
    }

    /// The lock that the guard holds takes back any value.
    #[verifier::type_invariant]
    spec fn holds(&self) -> bool {
        forall|v: T| #[trigger] self.handle.rwlock().inv(v)
    }

    /// The value held.
    pub fn get(&self) -> (r: &T)
        ensures *r == self@,
    {
        &self.value
    }

    /// Replaces the value held by `v`; the guard still belongs to the same lock.
    pub fn set(&mut self, v: T)
        ensures
            final(self)@ == v,
            forall|m: &MyMutex<T>| old(self).belongs_to(m) ==> #[trigger] final(self).belongs_to(m),
    {
        proof {
            use_type_invariant(&*self);
        }
        self.value = v;
    }

    /// Puts the value held back into the lock and frees the lock
    /// (`vstd::rwlock::WriteHandle::release_write`), so that the next `lock` can
    /// take it.
    pub fn unlock(self) {
        proof {
            use_type_invariant(&self);
        }
        let MyMutexGuard { value, handle } = self;
        handle.release_write(value);
    }
}

impl<'a, T> Deref for MyMutexGuard<'a, T> {
    type Target = T;

    /// The value held.
    fn deref(&self) -> (r: &T)
        ensures *r == self@,
    {
        &self.value
    }
}

}
