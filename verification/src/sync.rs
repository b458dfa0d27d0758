//! Minimal synchronization primitives: a busy-wait mutex and a one-time
//! initialization cell.
//!
//! On hardware both primitives race on an atomic flag: the mutex
//! compare-and-swaps it false-to-true with acquire ordering and spins until
//! it wins, releasing with a store of false; the once-cell lets exactly one
//! writer win the same transition.  The verified model is sequential — the
//! target is a single core with no preemption — so the flag is a plain
//! boolean and exclusive access is ownership: while the mutex is locked the
//! protected value lives inside the guard, and unlocking hands it back.

use vstd::prelude::*;

verus! {

/// A busy-wait mutual-exclusion primitive that owns the value it protects.
pub struct Mutex<T> {
    inner: Option<T>,
    is_locked: bool,
}

/// The scoped guard of a `Mutex`: it owns the protected value for as long
/// as the lock is held.  On hardware the guard borrows the value and the
/// flag clears when the guard drops; here `Mutex::unlock` takes the guard
/// back explicitly, which is the same discipline made visible.
pub struct MutexGuard<T> {
    pub value: T,
}

impl<T> Mutex<T> {
    /// Whether the lock flag is set.
    pub closed spec fn locked(self) -> bool {
        self.is_locked
    }

    /// The value resting in the mutex — absent exactly while a guard
    /// holds it.
    pub closed spec fn stored(self) -> Option<T> {
        self.inner
    }

    /// The mutex either rests with its value or is locked with the value
    /// checked out into a guard.
    pub open spec fn wf(self) -> bool {
        self.locked() <==> self.stored() is None
    }

    /// A new, unlocked mutex protecting `value`.
    pub fn new(value: T) -> (r: Self)
        ensures
            r.wf(),
            !r.locked(),
            r.stored() == Some(value),
    {
        Self { inner: Some(value), is_locked: false }
    }

    /// Acquire the lock and take the protected value into a guard.  The
    /// error arm of the result exists for interface symmetry and is never
    /// produced.  On hardware a second `lock` while a guard is held
    /// busy-waits forever — there is no scheduler to break the tie — so
    /// that call terminates never and is excluded here by precondition;
    /// `try_lock` is the bounded probe for a held lock.
    pub fn lock(&mut self) -> (r: Result<MutexGuard<T>, ()>)
        requires
            old(self).wf(),
            !old(self).locked(),
        ensures
            final(self).wf(),
            final(self).locked(),
            match r {
                Ok(g) => Some(g.value) == old(self).stored(),
                Err(_) => false,
            },
    {
        self.is_locked = true;
        let taken = self.inner.take();
        match taken {
            Some(value) => Ok(MutexGuard { value }),
            None => Err(()),
        }
    }

    /// Probe the lock once instead of spinning: on a held lock report
    /// `None` and change nothing — in particular, never hand out a second
    /// guard — and on a free lock acquire it as `lock` does.
    pub fn try_lock(&mut self) -> (r: Option<MutexGuard<T>>)
        requires
            old(self).wf(),
        ensures
            final(self).wf(),
            old(self).locked() ==> r is None && *final(self) == *old(self),
            !old(self).locked() ==> final(self).locked() && match r {
                Some(g) => Some(g.value) == old(self).stored(),
                None => false,
            },
    {
        if self.is_locked {
            None
        } else {
            match self.lock() {
                Ok(g) => Some(g),
                Err(_) => None,
            }
        }
    }

    /// Release the lock: the guard's value comes to rest in the mutex and
    /// the flag clears, so the next `lock` hands out exactly the state
    /// this guard carried.
    pub fn unlock(&mut self, guard: MutexGuard<T>)
        requires
            old(self).wf(),
            old(self).locked(),
        ensures
            final(self).wf(),
            !final(self).locked(),
            final(self).stored() == Some(guard.value),
    {
        self.inner = Some(guard.value);
        self.is_locked = false;
    }
}

/// A single-assignment cell: written successfully at most once, readable
/// any number of times.
pub struct OnceLock<T> {
    inner: Option<T>,
}

impl<T> OnceLock<T> {
    /// The value written by the one successful `set`, if it happened yet.
    pub closed spec fn stored(self) -> Option<T> {
        self.inner
    }

    /// A new, empty cell.
    pub fn new() -> (r: Self)
        ensures
            r.stored() is None,
    {
        Self { inner: None }
    }

    /// Write `value` into the cell.  The write succeeds exactly when no
    /// earlier `set` succeeded; a losing call reports failure without
    /// blocking, leaves the stored value untouched, and its argument is
    /// dropped.
    pub fn set(&mut self, value: T) -> (r: Option<()>)
        ensures
            old(self).stored() is None ==> r == Some(()) && final(self).stored() == Some(value),
            old(self).stored() is Some ==> r is None && *final(self) == *old(self),
    {
        if self.inner.is_some() {
            None
        } else {
            self.inner = Some(value);
            Some(())
        }
    }

    /// Read the cell without blocking: the stored value if a `set` won
    /// already, absence otherwise.
    pub fn get(&self) -> (r: Option<&T>)
        ensures
            match r {
                Some(v) => self.stored() == Some(*v),
                None => self.stored() is None,
            },
    {
        self.inner.as_ref()
    }
}

/// The cell's state after a run of `set` calls with the given values: an
/// empty cell takes the first value, and a full cell ignores them all.
pub open spec fn once_run<T>(state: Option<T>, values: Seq<T>) -> Option<T>
    decreases values.len(),
{
    if values.len() == 0 {
        state
    } else {
        once_run(
            if state is None {
                Some(values[0])
            } else {
                state
            },
            values.drop_first(),
        )
    }
}

/// Across any number of `set` calls the first successful write wins: a
/// cell that holds a value keeps it through every later call, and an
/// empty cell ends up holding exactly the first value offered.
pub proof fn lemma_once_first_write_wins<T>(state: Option<T>, values: Seq<T>)
    ensures
        state is Some ==> once_run(state, values) == state,
        state is None && values.len() > 0 ==> once_run(state, values) == Some(values[0]),
    decreases values.len(),
{
    if values.len() > 0 {
        if state is None {
            lemma_once_first_write_wins(Some(values[0]), values.drop_first());
        } else {
            lemma_once_first_write_wins(state, values.drop_first());
        }
    }
}

} // verus!
