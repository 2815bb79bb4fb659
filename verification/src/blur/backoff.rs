//! Retry spacing for a render that keeps failing.

use vstd::prelude::*;

verus! {

/// The longest run of frames a failing render is skipped for.
pub const BACKOFF_MAX_SKIP: u32 = 64;

/// Spaces out the retries of a failing render, doubling the wait each time.
#[derive(Clone, Copy, Debug, PartialEq, Eq, Structural)]
pub struct RenderBackoff {
    pub consecutive_failures: u32,
    pub skip_frames: u32,
}

/// Frames skipped after the `failures`-th failure in a row.
pub open spec fn skip_after(failures: int) -> int {
    if failures >= 6 {
        64
    } else if failures == 5 {
        32
    } else if failures == 4 {
        16
    } else if failures == 3 {
        8
    } else if failures == 2 {
        4
    } else if failures == 1 {
        2
    } else {
        1
    }
}

impl Default for RenderBackoff {
    fn default() -> (b: RenderBackoff)
        ensures
            b == (RenderBackoff { consecutive_failures: 0, skip_frames: 0 }),
    {
        RenderBackoff { consecutive_failures: 0, skip_frames: 0 }
    }
}

impl RenderBackoff {
    /// A wait is never longer than the cap.
    pub open spec fn wf(self) -> bool {
        self.skip_frames <= BACKOFF_MAX_SKIP
    }

    /// Whether the render may be attempted this frame. A `false` uses up one
    /// frame of the wait.
    pub fn ready(&mut self) -> (go: bool)
        ensures
            go == (old(self).skip_frames == 0),
            final(self).consecutive_failures == old(self).consecutive_failures,
            final(self).skip_frames == if old(self).skip_frames == 0 {
                0
            } else {
                old(self).skip_frames - 1
            },
    {
        if self.skip_frames == 0 {
            return true;
        }
        self.skip_frames = self.skip_frames - 1;
        false
    }

    /// Records a failed render and starts the next wait.
    pub fn note_failure(&mut self)
        ensures
            final(self).consecutive_failures == if old(self).consecutive_failures == u32::MAX {
                u32::MAX as int
            } else {
                old(self).consecutive_failures + 1
            },
            final(self).skip_frames == skip_after(final(self).consecutive_failures as int),
            final(self).wf(),
    {
        self.consecutive_failures = self.consecutive_failures.saturating_add(1);
        let shift: u32 = if self.consecutive_failures < 6 {
            self.consecutive_failures
        } else {
            6
        };
        let wait: u32 = 1u32 << shift;
        assert(1u32 << 0u32 == 1 && 1u32 << 1u32 == 2 && 1u32 << 2u32 == 4 && 1u32 << 3u32 == 8
            && 1u32 << 4u32 == 16 && 1u32 << 5u32 == 32 && 1u32 << 6u32 == 64) by (bit_vector);
        self.skip_frames = if wait < BACKOFF_MAX_SKIP {
            wait
        } else {
            BACKOFF_MAX_SKIP
        };
    }

    /// Records a successful render: the next failure starts over.
    pub fn note_success(&mut self)
        ensures
            *final(self) == (RenderBackoff { consecutive_failures: 0, skip_frames: 0 }),
    {
        self.consecutive_failures = 0;
        self.skip_frames = 0;
    }
}

/// Each further failure in a row waits at least as long as the one before,
/// twice as long until the cap, and never longer than the cap.
pub proof fn law_backoff_doubles_to_the_cap(failures: int)
    requires
        failures >= 0,
    ensures
        skip_after(failures + 1) >= skip_after(failures),
        skip_after(failures) < BACKOFF_MAX_SKIP ==> skip_after(failures + 1) == 2 * skip_after(
            failures,
        ),
        1 <= skip_after(failures) <= BACKOFF_MAX_SKIP,
{
}

/// The wait after some failures in a row is two to their power, up to the cap.
pub proof fn law_wait_is_a_power_of_two(failures: nat)
    ensures
        skip_after(failures as int) == if failures <= 6 {
            vstd::arithmetic::power2::pow2(failures) as int
        } else {
            BACKOFF_MAX_SKIP as int
        },
{
    vstd::arithmetic::power2::lemma2_to64();
}

} // verus!
