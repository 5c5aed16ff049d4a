//! Pausing and stepping the simulation: while it is paused the simulation only
//! runs for frames that a requested step pays for, each with the fixed step
//! time; otherwise it runs every frame with the frame's own time.
use vstd::prelude::*;

verus! {

/// Whether the simulation is paused and how many single steps are pending.
#[derive(Clone, Copy, Debug, PartialEq, Eq, Structural)]
pub struct SimulationPause {
    pub paused: bool,
    pub pending_steps: u32,
}

/// What one frame does: whether the simulation runs, and whether it runs with
/// the fixed step time rather than the frame's time.
#[derive(Clone, Copy, Debug, PartialEq, Eq, Structural)]
pub struct FrameRun {
    pub run: bool,
    pub fixed_delta: bool,
}

/// The state after a frame and what that frame does.
pub open spec fn frame_step(s: SimulationPause) -> (SimulationPause, FrameRun) {
    if !s.paused {
        (s, FrameRun { run: true, fixed_delta: false })
    } else if s.pending_steps > 0 {
        (SimulationPause { paused: true, pending_steps: (s.pending_steps - 1) as u32 }, FrameRun { run: true, fixed_delta: true })
    } else {
        (s, FrameRun { run: false, fixed_delta: false })
    }
}

/// Number of the next `n` frames in which the simulation runs.
pub open spec fn runs_in(s: SimulationPause, n: nat) -> nat
    decreases n,
{
    if n == 0 {
        0
    } else {
        let (next, f) = frame_step(s);
        (if f.run { 1nat } else { 0nat }) + runs_in(next, (n - 1) as nat)
    }
}

impl SimulationPause {
    /// Running, with no steps pending.
    pub fn new() -> (r: Self)
        ensures
            !r.paused,
            r.pending_steps == 0,
    {
        SimulationPause { paused: false, pending_steps: 0 }
    }

    /// Pause a running simulation, or resume a paused one.
    pub fn toggle(&mut self)
        ensures
            final(self).paused == !old(self).paused,
            final(self).pending_steps == old(self).pending_steps,
    {
        self.paused = !self.paused;
    }

    /// Ask for one more single step (saturating at `u32::MAX`).
    pub fn request_step(&mut self)
        ensures
            final(self).paused == old(self).paused,
            final(self).pending_steps == if old(self).pending_steps == u32::MAX {
                u32::MAX as int
            } else {
                old(self).pending_steps + 1
            },
    {
        self.pending_steps = self.pending_steps.saturating_add(1);
    }

    /// Decide the frame: a paused simulation with a pending step spends it and
    /// runs with the fixed step time.
    pub fn next_frame(&mut self) -> (r: FrameRun)
        ensures
            (*final(self), r) == frame_step(*old(self)),
    {
        if self.paused {
            if self.pending_steps > 0 {
                self.pending_steps = self.pending_steps - 1;
                FrameRun { run: true, fixed_delta: true }
            } else {
                FrameRun { run: false, fixed_delta: false }
            }
        } else {
            FrameRun { run: true, fixed_delta: false }
        }
    }
}

/// While paused, the next `n` frames run the simulation exactly as often as
/// steps are pending, up to `n`; while running, every frame runs it.
pub proof fn lemma_steps_run_once(s: SimulationPause, n: nat)
    ensures
        s.paused ==> runs_in(s, n) == if n < s.pending_steps { n } else { s.pending_steps as nat },
        !s.paused ==> runs_in(s, n) == n,
    decreases n,
{
    if n > 0 {
        let (next, f) = frame_step(s);
        lemma_steps_run_once(next, (n - 1) as nat);
    }
}

} // verus!
