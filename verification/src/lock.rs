//! The lock of one key of a store.
//!
//! A key is unlocked, locked by any number of readers, or locked by one
//! writer. Taking a lock never waits: where the lock cannot be had, the
//! caller is told so and may try again later.
use vstd::prelude::*;

verus! {

/// The state of the lock of one key.
#[derive(Clone, Copy, Debug, PartialEq, Eq, Structural)]
pub enum LockState {
    /// No handle is open.
    Unlocked,
    /// So many read-only handles are open.
    SharedLocked(usize),
    /// One editable handle is open.
    ExclusiveLocked,
}

impl LockState {
    /// A shared lock has a reader.
    pub open spec fn wf(self) -> bool {
        self matches LockState::SharedLocked(n) ==> n >= 1
    }

    /// Whether any handle is open.
    pub open spec fn spec_is_locked(self) -> bool {
        self != LockState::Unlocked
    }

    /// The state after one more handle was opened, if it can be opened: a
    /// reader joins where no writer is, a writer needs the key unlocked.
    pub open spec fn spec_acquire(self, editable: bool) -> Option<LockState> {
        match self {
            LockState::Unlocked => Some(
                if editable {
                    LockState::ExclusiveLocked
                } else {
                    LockState::SharedLocked(1)
                },
            ),
            LockState::SharedLocked(n) => if editable || n == usize::MAX {
                None
            } else {
                Some(LockState::SharedLocked((n + 1) as usize))
            },
            LockState::ExclusiveLocked => None,
        }
    }

    /// The state after a handle was closed, if such a handle can be open:
    /// the last reader and the writer leave the key unlocked.
    pub open spec fn spec_release(self, editable: bool) -> Option<LockState> {
        match self {
            LockState::Unlocked => None,
            LockState::SharedLocked(n) => if editable {
                None
            } else if n <= 1 {
                Some(LockState::Unlocked)
            } else {
                Some(LockState::SharedLocked((n - 1) as usize))
            },
            LockState::ExclusiveLocked => if editable {
                Some(LockState::Unlocked)
            } else {
                None
            },
        }
    }

    /// Whether any handle is open.
    pub fn is_locked(self) -> (b: bool)
        ensures
            b == self.spec_is_locked(),
    {
        match self {
            LockState::Unlocked => false,
            _ => true,
        }
    }

    /// Takes the lock for one more handle, if it can be had.
    pub fn acquire(self, editable: bool) -> (r: Option<LockState>)
        ensures
            r == self.spec_acquire(editable),
    {
        match self {
            LockState::Unlocked => Some(
                if editable {
                    LockState::ExclusiveLocked
                } else {
                    LockState::SharedLocked(1)
                },
            ),
            LockState::SharedLocked(n) => if editable || n == usize::MAX {
                None
            } else {
                Some(LockState::SharedLocked(n + 1))
            },
            LockState::ExclusiveLocked => None,
        }
    }

    /// Gives back the lock of one handle, if such a handle can be open.
    pub fn release(self, editable: bool) -> (r: Option<LockState>)
        ensures
            r == self.spec_release(editable),
    {
        match self {
            LockState::Unlocked => None,
            LockState::SharedLocked(n) => if editable {
                None
            } else if n <= 1 {
                Some(LockState::Unlocked)
            } else {
                Some(LockState::SharedLocked(n - 1))
            },
            LockState::ExclusiveLocked => if editable {
                Some(LockState::Unlocked)
            } else {
                None
            },
        }
    }
}

/// A lock that was taken is held, and giving it back leaves the state that
/// was there before it was taken.
pub proof fn lemma_release_acquired(lock: LockState, editable: bool)
    requires
        lock.wf(),
        lock.spec_acquire(editable) is Some,
    ensures
        lock.spec_acquire(editable)->0.wf(),
        lock.spec_acquire(editable)->0.spec_is_locked(),
        lock.spec_acquire(editable)->0.spec_release(editable) == Some(lock),
{
}

/// While a writer holds the lock nobody else gets it, and while a reader
/// holds it no writer does.
pub proof fn lemma_lock_excludes(lock: LockState, first: bool, second: bool)
    requires
        lock.wf(),
        lock.spec_acquire(first) is Some,
        first || second,
    ensures
        lock.spec_acquire(first)->0.spec_acquire(second) is None,
{
}

} // verus!
