//! The client's two-buffer swapchain state and the frame rescheduling rule.
use vstd::prelude::*;

use crate::config::RenderMode;
use crate::ownership::BufferSlot;
use crate::server::BufferRequestError;

verus! {

/// Where a client buffer is in its cycle.
#[derive(Clone, Copy, Debug, PartialEq, Eq, Structural)]
pub enum BufferState {
    /// The client may render into it.
    Free,
    /// Handed to the application for rendering.
    Acquired,
    /// Submitted to the server and not yet released.
    Busy,
}

/// The states of the two buffers of one monitor's swapchain.
#[derive(Clone, Copy, Debug, PartialEq, Eq, Structural)]
pub struct SwapchainState {
    zero: BufferState,
    one: BufferState,
    last_acquired: Option<BufferSlot>,
}

impl SwapchainState {
    pub open spec fn state_spec(&self, b: BufferSlot) -> BufferState {
        match b {
            BufferSlot::Zero => self.zero_spec(),
            BufferSlot::One => self.one_spec(),
        }
    }

    pub closed spec fn zero_spec(&self) -> BufferState {
        self.zero
    }

    pub closed spec fn one_spec(&self) -> BufferState {
        self.one
    }

    /// The buffer most recently acquired and not yet submitted or rolled back.
    pub closed spec fn last_spec(&self) -> Option<BufferSlot> {
        self.last_acquired
    }

    /// Both buffers free.
    pub fn new() -> (r: SwapchainState)
        ensures
            r.state_spec(BufferSlot::Zero) == BufferState::Free,
            r.state_spec(BufferSlot::One) == BufferState::Free,
            r.last_spec() is None,
    {
        SwapchainState { zero: BufferState::Free, one: BufferState::Free, last_acquired: None }
    }

    pub fn state(&self, b: BufferSlot) -> (r: BufferState)
        ensures
            r == self.state_spec(b),
    {
        match b {
            BufferSlot::Zero => self.zero,
            BufferSlot::One => self.one,
        }
    }

    fn set(&mut self, b: BufferSlot, s: BufferState)
        ensures
            final(self).state_spec(b) == s,
            forall|c: BufferSlot| c != b ==> final(self).state_spec(c) == old(self).state_spec(c),
            final(self).last_spec() == old(self).last_spec(),
    {
        match b {
            BufferSlot::Zero => self.zero = s,
            BufferSlot::One => self.one = s,
        }
    }

    /// Hands out the first free buffer, which becomes acquired; `None` when
    /// neither buffer is free.
    pub fn acquire_next(&mut self) -> (r: Option<BufferSlot>)
        ensures
            r == (if old(self).state_spec(BufferSlot::Zero) == BufferState::Free {
                Some(BufferSlot::Zero)
            } else if old(self).state_spec(BufferSlot::One) == BufferState::Free {
                Some(BufferSlot::One)
            } else {
                None
            }),
            match r {
                Some(b) => {
                    &&& final(self).state_spec(b) == BufferState::Acquired
                    &&& forall|c: BufferSlot| c != b ==> final(self).state_spec(c) == old(self).state_spec(c)
                    &&& final(self).last_spec() == Some(b)
                },
                None => *final(self) == *old(self),
            },
    {
        let b = if self.zero == BufferState::Free {
            BufferSlot::Zero
        } else if self.one == BufferState::Free {
            BufferSlot::One
        } else {
            return None;
        };
        self.set(b, BufferState::Acquired);
        self.last_acquired = Some(b);
        Some(b)
    }

    /// The server accepted the buffer: it is busy until released.
    pub fn mark_busy(&mut self, b: BufferSlot)
        ensures
            final(self).state_spec(b) == BufferState::Busy,
            forall|c: BufferSlot| c != b ==> final(self).state_spec(c) == old(self).state_spec(c),
            final(self).last_spec() == (if old(self).last_spec() == Some(b) {
                None
            } else {
                old(self).last_spec()
            }),
    {
        self.set(b, BufferState::Busy);
        if self.last_acquired == Some(b) {
            self.last_acquired = None;
        }
    }

    /// The server released the buffer: it is free again.
    pub fn mark_released(&mut self, b: BufferSlot)
        ensures
            final(self).state_spec(b) == BufferState::Free,
            forall|c: BufferSlot| c != b ==> final(self).state_spec(c) == old(self).state_spec(c),
            final(self).last_spec() == old(self).last_spec(),
    {
        self.set(b, BufferState::Free);
    }

    /// The buffer request failed: the last acquired buffer, if still
    /// acquired, becomes free again.
    pub fn rollback(&mut self)
        ensures
            final(self).last_spec() is None,
            match old(self).last_spec() {
                Some(b) => {
                    &&& final(self).state_spec(b) == if old(self).state_spec(b) == BufferState::Acquired {
                        BufferState::Free
                    } else {
                        old(self).state_spec(b)
                    }
                    &&& forall|c: BufferSlot| c != b ==> final(self).state_spec(c) == old(self).state_spec(c)
                },
                None => forall|c: BufferSlot| final(self).state_spec(c) == old(self).state_spec(c),
            },
    {
        if let Some(b) = self.last_acquired {
            if self.state(b) == BufferState::Acquired {
                self.set(b, BufferState::Free);
            }
        }
        self.last_acquired = None;
    }
}

/// How a buffer request ended.
#[derive(Clone, Copy, Debug, PartialEq, Eq, Structural)]
pub enum RequestOutcome {
    /// The server acknowledged it.
    Accepted,
    /// The server refused it for ownership or awake reasons.
    Refused(BufferRequestError),
    /// It failed for any other reason.
    Failed,
}

/// In eager mode a monitor is scheduled again after a request, unless the
/// server refused it for ownership or awake reasons; in scheduled mode only
/// the application schedules frames.
pub fn reschedule_after_request(mode: RenderMode, outcome: RequestOutcome) -> (r: bool)
    ensures
        r == (mode == RenderMode::Eager && !(outcome is Refused)),
{
    match mode {
        RenderMode::Eager => match outcome {
            RequestOutcome::Refused(_) => false,
            _ => true,
        },
        RenderMode::Scheduled => false,
    }
}

} // verus!
