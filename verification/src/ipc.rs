use vstd::prelude::*;
use crate::list::List;
use crate::thread::Thread;

verus! {

/// A lock flag: taken or free.
pub struct Spinlock {
    lock: bool,
}

impl Spinlock {
    /// Whether the lock is taken.
    pub closed spec fn is_locked(&self) -> bool {
        self.lock
    }

    /// A free lock.
    pub fn new() -> (s: Self)
        ensures
            !s.is_locked(),
    {
        Spinlock { lock: false }
    }

    /// Takes the lock. On a lock already taken the caller would spin for ever,
    /// as nothing else can free it.
    pub fn lock(&mut self)
        requires
            !old(self).is_locked(),
        ensures
            final(self).is_locked(),
    {
        self.lock = true;
    }

    /// Frees the lock.
    pub fn unlock(&mut self)
        ensures
            !final(self).is_locked(),
    {
        self.lock = false;
    }
}

/// A value with a lock flag.
pub struct Mutex<T> {
    data: T,
    is_locked: bool,
}

impl<T> Mutex<T> {
    /// The guarded value.
    pub closed spec fn value(&self) -> T {
        self.data
    }

    /// Whether the mutex is held.
    pub closed spec fn locked(&self) -> bool {
        self.is_locked
    }

    /// A free mutex holding `data`.
    pub fn new(data: T) -> (m: Self)
        ensures
            m.value() == data,
            !m.locked(),
    {
        Mutex { data, is_locked: false }
    }

    /// Takes the mutex if it is free and gives a guard to its value; gives
    /// `None`, changing nothing, if it is held.
    pub fn lock(&mut self) -> (g: Option<MutexGuard<'_, T>>)
        ensures
            g is Some <==> !old(self).locked(),
            g is None ==> *final(self) == *old(self),
            g matches Some(guard) ==> {
                &&& guard.mutex.locked()
                &&& guard.mutex.value() == old(self).value()
                &&& *final(self) == *final(guard.mutex)
            },
    {
        if !self.is_locked {
            self.is_locked = true;
            Some(MutexGuard { mutex: self })
        } else {
            None
        }
    }

    /// Frees the mutex.
    pub fn unlock(&mut self)
        ensures
            !final(self).locked(),
            final(self).value() == old(self).value(),
    {
        self.is_locked = false;
    }
}

/// Access to the value of a held mutex.
pub struct MutexGuard<'a, T> {
    pub mutex: &'a mut Mutex<T>,
}

impl<'a, T> MutexGuard<'a, T> {
    /// The guarded value, to read or change.
    pub fn data(&mut self) -> (d: &mut T)
        ensures
            *d == old(self).mutex.value(),
            final(self).mutex.value() == *final(d),
            final(self).mutex.locked() == old(self).mutex.locked(),
    {
        &mut self.mutex.data
    }

    /// Ends the guard: the mutex is freed, its value kept.
    pub fn release(&mut self)
        ensures
            !final(self).mutex.locked(),
            final(self).mutex.value() == old(self).mutex.value(),
    {
        self.mutex.unlock();
    }
}

/// The permit count after one `acquire`.
pub open spec fn after_acquire(permits: usize) -> int {
    if permits > 0 {
        permits - 1
    } else {
        permits as int
    }
}

/// A counting semaphore.
pub struct Semaphore {
    permits: usize,
    mutex: Mutex<()>,
    thread_list: List<Thread>,
}

impl Semaphore {
    /// The number of free permits.
    pub closed spec fn permits(&self) -> usize {
        self.permits
    }

    /// The threads waiting for a permit, first to be served first.
    pub closed spec fn waiting(&self) -> Seq<Thread> {
        self.thread_list@
    }

    /// Whether the semaphore's own lock is held.
    pub closed spec fn busy(&self) -> bool {
        self.mutex.locked()
    }

    /// A semaphore with `permits` free permits.
    pub fn new(permits: usize) -> (s: Self)
        ensures
            s.permits() == permits,
            !s.busy(),
            s.waiting() == Seq::<Thread>::empty(),
    {
        Semaphore { permits, mutex: Mutex::new(()), thread_list: List::new() }
    }

    /// Takes a permit if one is free (a caller finding none goes on without).
    pub fn acquire(&mut self)
        ensures
            final(self).permits() == after_acquire(old(self).permits()),
            final(self).busy() == old(self).busy(),
            final(self).waiting() == old(self).waiting(),
    {
        let took: bool = match self.mutex.lock() {
            Some(_) => true,
            None => false,
        };
        if self.permits > 0 {
            self.permits = self.permits - 1;
        }
        if took {
            self.mutex.unlock();
        }
    }

    /// Gives a permit back.
    pub fn release(&mut self)
        requires
            old(self).permits() < usize::MAX,
        ensures
            final(self).permits() == old(self).permits() + 1,
            final(self).busy() == old(self).busy(),
            final(self).waiting() == old(self).waiting(),
    {
        let took: bool = match self.mutex.lock() {
            Some(_) => true,
            None => false,
        };
        self.permits = self.permits + 1;
        if took {
            self.mutex.unlock();
        }
    }
}

/// Taking a permit after giving one back leaves the count as it was.
pub proof fn lemma_acquire_undoes_release(permits: usize)
    requires
        permits < usize::MAX,
    ensures
        after_acquire((permits + 1) as usize) == permits,
{
}

/// Acquiring takes exactly one permit when there is one and never adds
/// permits: with none free the count stays at none.
pub proof fn lemma_acquire_takes_at_most_one(permits: usize)
    ensures
        after_acquire(permits) <= permits,
        permits == 0 ==> after_acquire(permits) == 0,
        permits > 0 ==> after_acquire(permits) + 1 == permits,
{
}

} // verus!
