//! The session lock.

use vstd::prelude::*;

verus! {

/// Whether the session is locked. `L` stands for a client's lock object.
pub enum SessionLock<L> {
    Unlocked,
    /// A lock was granted whose surfaces have yet to be drawn.
    Pending {
        locker: L,
        /// Outputs whose lock surface has been drawn.
        ready_outputs: Vec<u64>,
        /// Lock frames are shown for the wait, not the desktop.
        keep_lock_frames: bool,
    },
    /// Only the lock surfaces are shown.
    Locked {
        lock: L,
        /// The client has yet to be told that the session is locked.
        unconfirmed: bool,
        /// Outputs that have yet to present a lock frame.
        awaiting_present: Vec<u64>,
    },
}

impl<L> SessionLock<L> {
    pub open spec fn locked(self) -> bool {
        !(self is Unlocked)
    }

    pub open spec fn shows_lock_frame(self) -> bool {
        match self {
            SessionLock::Unlocked => false,
            SessionLock::Pending { keep_lock_frames, .. } => keep_lock_frames,
            SessionLock::Locked { .. } => true,
        }
    }

    pub open spec fn owner(self) -> Option<L> {
        match self {
            SessionLock::Unlocked => None,
            SessionLock::Pending { locker, .. } => Some(locker),
            SessionLock::Locked { lock, .. } => Some(lock),
        }
    }

    /// Whether the session is locked at all, pending or confirmed.
    pub fn is_locked(&self) -> (locked: bool)
        ensures
            locked == self.locked(),
    {
        !matches!(self, SessionLock::Unlocked)
    }

    /// Whether a lock frame is shown, not the desktop.
    pub fn renders_lock_frame(&self) -> (r: bool)
        ensures
            r == self.shows_lock_frame(),
    {
        match self {
            SessionLock::Unlocked => false,
            SessionLock::Pending { keep_lock_frames, .. } => *keep_lock_frames,
            SessionLock::Locked { .. } => true,
        }
    }

    /// The lock object of the client that owns the session.
    pub fn incumbent(&self) -> (owner: Option<&L>)
        ensures
            match owner {
                None => self.owner() is None,
                Some(l) => self.owner() == Some(*l),
            },
    {
        match self {
            SessionLock::Unlocked => None,
            SessionLock::Pending { locker, .. } => Some(locker),
            SessionLock::Locked { lock, .. } => Some(lock),
        }
    }
}

/// A lock frame is shown in a locked session only, always once the lock is
/// confirmed, and a session is locked exactly if a client owns it.
pub proof fn law_lock_frames_mean_locked<L>(lock: SessionLock<L>)
    ensures
        lock.shows_lock_frame() ==> lock.locked(),
        lock is Locked ==> lock.shows_lock_frame(),
        lock.locked() <==> lock.owner() is Some,
{
}

/// While a lock is pending, lock frames are shown exactly if they are kept for the
/// wait; once it is confirmed they always are, and never in an unlocked session.
/// The owner is who locked it.
pub proof fn law_pending_lock_shows_what_it_keeps<L>(
    locker: L,
    ready_outputs: Vec<u64>,
    keep_lock_frames: bool,
    unconfirmed: bool,
)
    ensures
        ({
            let pending = SessionLock::Pending { locker, ready_outputs, keep_lock_frames };
            let locked = SessionLock::Locked {
                lock: locker,
                unconfirmed,
                awaiting_present: ready_outputs,
            };
            &&& pending.shows_lock_frame() == keep_lock_frames
            &&& locked.shows_lock_frame()
            &&& !SessionLock::<L>::Unlocked.shows_lock_frame()
            &&& pending.locked() && locked.locked() && !SessionLock::<L>::Unlocked.locked()
            &&& pending.owner() == Some(locker) && locked.owner() == Some(locker)
            &&& SessionLock::<L>::Unlocked.owner() is None
        }),
{
}

} // verus!
