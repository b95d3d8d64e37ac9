//! The animation controller: a reveal cursor into the command sequence
//! that advances one step per elapsed interval, clamped at the sequence
//! length, until an external cancellation signal stops it. The caller owns
//! the clock: it hands in the elapsed time and resets its timer whenever a
//! tick reports an advance.

use vstd::prelude::*;

verus! {

/// Whether the animation still runs; `Stopped` is terminal.
#[derive(Clone, Copy, PartialEq, Eq, Structural, Debug)]
pub enum AnimState {
    Running,
    Stopped,
}

/// The reveal animation state.
pub struct AnimationController {
    state: AnimState,
    cursor: usize,
    seq_len: usize,
    interval_ms: u64,
}

impl AnimationController {
    pub closed spec fn spec_state(&self) -> AnimState {
        self.state
    }

    pub closed spec fn spec_cursor(&self) -> int {
        self.cursor as int
    }

    pub closed spec fn spec_seq_len(&self) -> int {
        self.seq_len as int
    }

    pub closed spec fn spec_interval(&self) -> int {
        self.interval_ms as int
    }

    /// The reveal cursor never passes the sequence length.
    pub open spec fn wf(&self) -> bool {
        self.spec_cursor() <= self.spec_seq_len()
    }

    pub fn new(seq_len: usize, interval_ms: u64) -> (r: AnimationController)
        ensures
            r.wf(),
            r.spec_state() == AnimState::Running,
            r.spec_cursor() == 0,
            r.spec_seq_len() == seq_len,
            r.spec_interval() == interval_ms,
    {
        AnimationController { state: AnimState::Running, cursor: 0, seq_len, interval_ms }
    }

    pub fn cursor(&self) -> (c: usize)
        ensures
            c == self.spec_cursor(),
    {
        self.cursor
    }

    pub fn is_running(&self) -> (b: bool)
        ensures
            b == (self.spec_state() == AnimState::Running),
    {
        match self.state {
            AnimState::Running => true,
            AnimState::Stopped => false,
        }
    }

    /// One scheduler tick. A cancellation signal stops the animation for
    /// good. Otherwise, when the animation runs and the elapsed time has
    /// reached the interval, the cursor advances one step, clamped at the
    /// sequence length, and the caller must reset its timer (`advanced`).
    /// The cursor never moves backward.
    pub fn tick(&mut self, elapsed_ms: u64, cancel: bool) -> (advanced: bool)
        requires
            old(self).wf(),
        ensures
            final(self).wf(),
            final(self).spec_seq_len() == old(self).spec_seq_len(),
            final(self).spec_interval() == old(self).spec_interval(),
            cancel ==> final(self).spec_state() == AnimState::Stopped && final(self).spec_cursor()
                == old(self).spec_cursor() && !advanced,
            !cancel ==> final(self).spec_state() == old(self).spec_state(),
            advanced <==> (!cancel && old(self).spec_state() == AnimState::Running && elapsed_ms
                >= old(self).spec_interval()),
            advanced ==> final(self).spec_cursor() == vstd::math::min(
                old(self).spec_cursor() + 1,
                old(self).spec_seq_len(),
            ),
            !advanced ==> final(self).spec_cursor() == old(self).spec_cursor(),
            final(self).spec_cursor() >= old(self).spec_cursor(),
    {
        if cancel {
            self.state = AnimState::Stopped;
            return false;
        }
        match self.state {
            AnimState::Stopped => false,
            AnimState::Running => {
                if elapsed_ms >= self.interval_ms {
                    if self.cursor < self.seq_len {
                        self.cursor = self.cursor + 1;
                    }
                    true
                } else {
                    false
                }
            },
        }
    }
}

} // verus!
