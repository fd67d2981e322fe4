use vstd::prelude::*;

verus! {

/// A value behind a flag that admits one holder at a time.
pub struct Lock<T> {
    locked: bool,
    data: T,
}

/// Access to the value of a `Lock` held through `try_lock`; `release` gives
/// the lock up.
pub struct TryLock<'a, T> {
    pub lock: &'a mut Lock<T>,
}

impl<T> Lock<T> {
    /// Whether the lock is held.
    pub closed spec fn is_locked(&self) -> bool {
        self.locked
    }

    /// The value behind the lock.
    pub closed spec fn value(&self) -> T {
        self.data
    }

    /// Whether the lock is held.
    pub fn is_held(&self) -> (held: bool)
        ensures
            held == self.is_locked(),
    {
        self.locked
    }

    /// A free lock around `t`.
    pub fn new(t: T) -> (l: Lock<T>)
        ensures
            !l.is_locked(),
            l.value() == t,
    {
        Lock { locked: false, data: t }
    }

    /// Takes the lock if it is free. A held lock gives `None` and is left as
    /// it is; a free one is taken, and what the holder leaves behind is the
    /// lock's new state.
    pub fn try_lock(&mut self) -> (g: Option<TryLock<'_, T>>)
        ensures
            old(self).is_locked() ==> g is None && *final(self) == *old(self),
            !old(self).is_locked() ==> (g matches Some(g) && g.lock.is_locked() && g.lock.value()
                == old(self).value() && *final(self) == *final(g.lock)),
    {
        if self.locked {
            None
        } else {
            self.locked = true;
            Some(TryLock { lock: self })
        }
    }
}

impl<'a, T> TryLock<'a, T> {
    /// The value behind the held lock.
    pub fn get(&self) -> (r: &T)
        ensures
            *r == old(self.lock).value(),
    {
        &self.lock.data
    }

    /// Mutable access to the value behind the held lock.
    pub fn get_mut(&mut self) -> (r: &mut T)
        ensures
            *r == old(self).lock.value(),
            final(self).lock.value() == *final(r),
            final(self).lock.is_locked() == old(self).lock.is_locked(),
            *final(final(self).lock) == *final(old(self).lock),
    {
        &mut self.lock.data
    }

    /// Gives the lock up, keeping the value as the holder left it.
    pub fn release(self)
        ensures
            !final(self.lock).is_locked(),
            final(self.lock).value() == old(self.lock).value(),
    {
        self.lock.locked = false;
    }
}

} // verus!
