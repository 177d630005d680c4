//! A lock that readers do not wait for.
use vstd::prelude::*;

use crate::daemon::util::atomic::Atomic;

verus! {

/// What the holder of the write lock works with: the value, and what the lock
/// guards besides.
pub struct MutexGuardRefWrapper<'a, T: Atomic, K> {
    pub internal: &'a mut T,
    pub mutex_guard: &'a mut K,
}

impl<'a, T: Atomic, K> MutexGuardRefWrapper<'a, T, K> {
    /// Replaces the value.
    pub fn set(&mut self, new_value: T::Underlying)
        ensures
            (*final(self).internal).value() == new_value,
            *final(self).mutex_guard == *old(self).mutex_guard,
            *final(final(self).internal) == *final(old(self).internal),
            *final(final(self).mutex_guard) == *final(old(self).mutex_guard),
    {
        self.internal.store(new_value);
    }

    /// Reads the value.
    pub fn get(&self) -> (value: T::Underlying)
        ensures
            value == (*old(self.internal)).value(),
    {
        self.internal.load()
    }

    /// The value to look at and what the lock guards besides to work on.
    pub fn split(&mut self) -> (parts: (&T, &mut K))
        ensures
            *parts.0 == *old(self).internal,
            *parts.1 == *old(self).mutex_guard,
            *final(self).internal == *old(self).internal,
            *final(self).mutex_guard == *final(parts.1),
            *final(final(self).internal) == *final(old(self).internal),
            *final(final(self).mutex_guard) == *final(old(self).mutex_guard),
    {
        (&*self.internal, &mut *self.mutex_guard)
    }
}

/// A value that can be read at any time, while writing to it takes a lock. One
/// writer at a time holds the lock.
pub struct NonReadBlockingRWLock<T: Atomic, K> {
    /// The value.
    pub internal: T,
    /// What belongs to the holder of the lock besides the value.
    pub write_mutex: K,
    /// Whether a writer holds the lock until it releases it.
    pub locked: bool,
}

impl<T: Atomic, K> NonReadBlockingRWLock<T, K> {
    /// A value that nobody has locked.
    pub fn new(initial_value: T::Underlying, mutex_value: K) -> (lock: NonReadBlockingRWLock<T, K>)
        ensures
            lock.internal.value() == initial_value,
            lock.write_mutex == mutex_value,
            !lock.locked,
    {
        NonReadBlockingRWLock {
            internal: T::new(initial_value),
            write_mutex: mutex_value,
            locked: false,
        }
    }

    /// Reads the value, whether or not the lock is held.
    pub fn get(&self) -> (value: T::Underlying)
        ensures
            value == self.internal.value(),
    {
        self.internal.load()
    }

    /// Takes the lock, replaces the value and releases the lock.
    pub fn set_value(&mut self, new_value: T::Underlying)
        requires
            !old(self).locked,
        ensures
            final(self).internal.value() == new_value,
            final(self).write_mutex == old(self).write_mutex,
            !final(self).locked,
    {
        self.internal.store(new_value);
    }

    /// Takes the lock, unless it is held already, for as long as the guard lives: when
    /// the guard is gone, the lock is free again.
    pub fn try_lock_mut(&mut self) -> (guard: Option<MutexGuardRefWrapper<'_, T, K>>)
        ensures
            guard is Some <==> !old(self).locked,
            guard matches Some(g) ==> *g.internal == old(self).internal && *g.mutex_guard == old(
                self,
            ).write_mutex && *final(self) == (NonReadBlockingRWLock {
                internal: *final(g.internal),
                write_mutex: *final(g.mutex_guard),
                locked: false,
            }),
            guard is None ==> *final(self) == *old(self),
    {
        if self.locked {
            None
        } else {
            Some(
                MutexGuardRefWrapper {
                    internal: &mut self.internal,
                    mutex_guard: &mut self.write_mutex,
                },
            )
        }
    }

    /// Takes the lock, which nobody holds, for as long as the guard lives.
    pub fn lock_mut(&mut self) -> (guard: MutexGuardRefWrapper<'_, T, K>)
        requires
            !old(self).locked,
        ensures
            *guard.internal == old(self).internal,
            *guard.mutex_guard == old(self).write_mutex,
            *final(self) == (NonReadBlockingRWLock {
                internal: *final(guard.internal),
                write_mutex: *final(guard.mutex_guard),
                locked: false,
            }),
    {
        MutexGuardRefWrapper { internal: &mut self.internal, mutex_guard: &mut self.write_mutex }
    }

    /// Takes the lock, unless it is held already, until it is released.
    pub fn try_hold(&mut self) -> (taken: bool)
        ensures
            taken == !old(self).locked,
            *final(self) == (NonReadBlockingRWLock {
                internal: old(self).internal,
                write_mutex: old(self).write_mutex,
                locked: true,
            }),
    {
        let taken: bool = !self.locked;
        self.locked = true;
        taken
    }

    /// What the holder of the lock works with.
    pub fn held(&mut self) -> (guard: MutexGuardRefWrapper<'_, T, K>)
        requires
            old(self).locked,
        ensures
            *guard.internal == old(self).internal,
            *guard.mutex_guard == old(self).write_mutex,
            *final(self) == (NonReadBlockingRWLock {
                internal: *final(guard.internal),
                write_mutex: *final(guard.mutex_guard),
                locked: true,
            }),
    {
        MutexGuardRefWrapper { internal: &mut self.internal, mutex_guard: &mut self.write_mutex }
    }

    /// Releases the lock.
    pub fn unlock(&mut self)
        ensures
            *final(self) == (NonReadBlockingRWLock {
                internal: old(self).internal,
                write_mutex: old(self).write_mutex,
                locked: false,
            }),
    {
        self.locked = false;
    }
}

} // verus!
