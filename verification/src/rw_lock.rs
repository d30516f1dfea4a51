//! The single-word read-write lock: the high bit marks a writer, the low 31
//! bits count the readers.

use vstd::prelude::*;

verus! {

/// The bits of the lock word that count the readers.
pub const W_MASK: u32 = 0x7FFF_FFFF;

/// The bit of the lock word that marks a writer.
pub const W_FLAG: u32 = 0x8000_0000;

/// What one attempt at the exclusive lock found.
#[derive(Clone, Copy, Debug, PartialEq, Eq, Structural)]
pub enum WriteAttempt {
    /// The lock was free: the caller holds it exclusively.
    Acquired,
    /// Readers held the lock and no writer: the caller has set the writer
    /// flag and holds the lock once the readers have left.
    Draining,
    /// Another writer holds the lock: the caller retries after backing off.
    Contended,
}

/// What an attempt at the exclusive lock finds on a lock word.
pub open spec fn spec_write_attempt(word: u32) -> WriteAttempt {
    if word == 0 {
        WriteAttempt::Acquired
    } else if word & W_FLAG == 0 {
        WriteAttempt::Draining
    } else {
        WriteAttempt::Contended
    }
}

/// Decides what an attempt at the exclusive lock found, from the lock word
/// as it was before the writer flag was set.
pub fn write_attempt(prev: u32) -> (attempt: WriteAttempt)
    ensures
        attempt == spec_write_attempt(prev),
{
    if prev == 0 {
        WriteAttempt::Acquired
    } else if prev & W_FLAG == 0 {
        WriteAttempt::Draining
    } else {
        WriteAttempt::Contended
    }
}

/// Whether a lock word counts no reader.
pub fn no_readers(word: u32) -> (yes: bool)
    ensures
        yes == (word & W_MASK == 0),
{
    word & W_MASK == 0
}

/// The lock word that a reader exchanges `word` for, or nothing while a
/// writer holds or awaits the lock.
pub fn shared_target(word: u32) -> (target: Option<u32>)
    ensures
        target == if word & W_FLAG != 0 {
            None::<u32>
        } else {
            Some((word + 1) as u32)
        },
        target.is_some() ==> word < W_FLAG,
{
    if word & W_FLAG != 0 {
        return None;
    }
    assert(word & 0x8000_0000u32 == 0 ==> word < 0x8000_0000u32) by (bit_vector);
    Some(word + 1)
}

/// A read-write lock held in one word.
pub struct RwLock {
    lc: u32,
}

impl RwLock {
    /// The lock word.
    pub closed spec fn word(&self) -> u32 {
        self.lc
    }

    /// Whether a writer holds or awaits the lock.
    pub open spec fn has_writer(&self) -> bool {
        self.word() & W_FLAG != 0
    }

    /// The number of readers that hold the lock.
    pub open spec fn readers(&self) -> u32 {
        self.word() & W_MASK
    }

    /// A new, free lock.
    pub fn new() -> (lock: RwLock)
        ensures
            lock.word() == 0,
    {
        RwLock { lc: 0 }
    }

    /// The lock word.
    pub fn value(&self) -> (word: u32)
        ensures
            word == self.word(),
    {
        self.lc
    }

    /// One attempt at the exclusive lock: sets the writer flag and reports
    /// what the word held before.
    pub fn try_lock(&mut self) -> (attempt: WriteAttempt)
        ensures
            attempt == spec_write_attempt(old(self).word()),
            final(self).word() == old(self).word() | W_FLAG,
    {
        let prev: u32 = self.lc;
        self.lc = prev | W_FLAG;
        write_attempt(prev)
    }

    /// Whether the readers have left, so that a writer that is draining them
    /// holds the lock.
    pub fn drained(&self) -> (yes: bool)
        ensures
            yes == (self.readers() == 0),
    {
        no_readers(self.lc)
    }

    /// Takes the exclusive lock on a free lock. A lock that is held would
    /// keep the caller spinning, so the lock must be free.
    pub fn lock(&mut self)
        requires
            old(self).word() == 0,
        ensures
            final(self).word() == W_FLAG,
    {
        let attempt = self.try_lock();
        assert(0u32 | 0x8000_0000u32 == 0x8000_0000u32) by (bit_vector);
        assert(attempt == WriteAttempt::Acquired);
    }

    /// Releases the exclusive lock: the word is zero again.
    pub fn unlock(&mut self)
        ensures
            final(self).word() == 0,
    {
        self.lc = 0;
    }

    /// One attempt at a shared lock: counts a reader in unless a writer holds
    /// or awaits the lock. Returns whether the reader was counted in.
    pub fn try_lock_shared(&mut self) -> (taken: bool)
        ensures
            taken == !old(self).has_writer(),
            final(self).word() == if taken {
                old(self).word() + 1
            } else {
                old(self).word() as int
            },
    {
        match shared_target(self.lc) {
            None => false,
            Some(target) => {
                self.lc = target;
                true
            },
        }
    }

    /// Takes a shared lock where no writer holds or awaits the lock. A writer
    /// would keep the caller spinning, so there must be none.
    pub fn lock_shared(&mut self)
        requires
            !old(self).has_writer(),
        ensures
            final(self).word() == old(self).word() + 1,
    {
        let taken = self.try_lock_shared();
        assert(taken);
    }

    /// Releases a shared lock: the word goes down by one, modulo 2^32.
    pub fn unlock_shared(&mut self)
        ensures
            final(self).word() == old(self).word().wrapping_sub(1),
    {
        self.lc = self.lc.wrapping_sub(1);
    }
}

impl Default for RwLock {
    fn default() -> (lock: RwLock)
        ensures
            lock.word() == 0,
    {
        RwLock::new()
    }
}

} // verus!
