//! The timeline: a bounded window of machine snapshots keyed by an absolute
//! cycle counter, the consistency mode, and the queues of pending
//! time-displaced accesses.

use vstd::prelude::*;

use crate::instruction::Op;
use crate::machine::{Machine, MachineModel};
use crate::word::uWord;

verus! {

/// The number of snapshots a full window retains: enough to serve the whole
/// range of a time offset four times over.
pub const MAX_WINDOW: usize = 4 * 2047;

/// The absolute cycle count past which the engine refuses to run, leaving
/// room below the machine word limit.
pub const TIME_HORIZON: usize = usize::MAX - 20000;

/// A queued read from the future: at `t`, the location was assumed to hold
/// `expected` on behalf of the instruction executed at `origin`.
#[derive(Debug, Clone, Copy, PartialEq, Eq, Structural)]
pub struct PendingRead {
    pub t: usize,
    pub origin: usize,
    pub loc: Op,
    pub expected: uWord,
}

/// A queued write to the future: when the window reaches `t`, the location
/// receives `value`.
#[derive(Debug, Clone, Copy, PartialEq, Eq, Structural)]
pub struct PendingWrite {
    pub t: usize,
    pub loc: Op,
    pub value: uWord,
}

/// The timeline's consistency state, created and consumed within one step.
#[derive(Debug, Clone, Copy, PartialEq, Eq, Structural)]
pub enum Mode {
    /// The current window is consistent.
    Consistent,
    /// The window from the first to the second cycle might be inconsistent;
    /// an optimistic re-run is in progress.
    Maybe(usize, usize),
    /// The window from the first to the second cycle is known inconsistent.
    Inconsistent(usize, usize),
}

/// The widened mode after an inconsistency over `[lo, hi]` is found:
/// overlapping detections widen the suspected interval.
pub open spec fn mode_widen(m: Mode, lo: usize, hi: usize) -> Mode {
    match m {
        Mode::Consistent => Mode::Inconsistent(lo, hi),
        Mode::Maybe(a, b) => Mode::Inconsistent(
            if lo < a {
                lo
            } else {
                a
            },
            if hi > b {
                hi
            } else {
                b
            },
        ),
        Mode::Inconsistent(a, b) => Mode::Inconsistent(
            if lo < a {
                lo
            } else {
                a
            },
            if hi > b {
                hi
            } else {
                b
            },
        ),
    }
}

impl Mode {
    /// Records that the cycles from `lo` to `hi` are inconsistent, widening
    /// any interval already suspected.
    pub fn add_inconsistent(&mut self, lo: usize, hi: usize)
        ensures
            *final(self) == mode_widen(*old(self), lo, hi),
    {
        *self = match *self {
            Mode::Consistent => Mode::Inconsistent(lo, hi),
            Mode::Maybe(a, b) => Mode::Inconsistent(
                if lo < a {
                    lo
                } else {
                    a
                },
                if hi > b {
                    hi
                } else {
                    b
                },
            ),
            Mode::Inconsistent(a, b) => Mode::Inconsistent(
                if lo < a {
                    lo
                } else {
                    a
                },
                if hi > b {
                    hi
                } else {
                    b
                },
            ),
        };
    }
}

/// The model of a timeline: the absolute cycle of the oldest retained
/// snapshot, and the snapshots themselves.
pub ghost struct TimelineModel {
    pub t0: int,
    pub states: Seq<MachineModel>,
}

/// A timeline slice: a bounded window of machine snapshots starting at
/// absolute cycle `t0`. Pushing past twice the window capacity evicts the
/// oldest snapshot.
#[derive(Debug)]
pub struct Timeline {
    t0: usize,
    states: Vec<Machine>,
}

impl View for Timeline {
    type V = TimelineModel;

    closed spec fn view(&self) -> TimelineModel {
        TimelineModel {
            t0: self.t0 as int,
            states: Seq::new(self.states@.len(), |i: int| self.states@[i]@),
        }
    }
}

impl Timeline {
    /// Well-formedness: the window is bounded and the cycle counter leaves
    /// headroom below the machine word limit.
    pub open spec fn wf(self) -> bool {
        0 <= self@.t0 <= TIME_HORIZON && self@.states.len() <= 2 * MAX_WINDOW
    }

    /// A timeline holding one snapshot at cycle zero.
    pub fn new(m: Machine) -> (r: Self)
        ensures
            r@.t0 == 0,
            r@.states =~= seq![m@],
            r.wf(),
    {
        let mut states: Vec<Machine> = Vec::new();
        states.push(m);
        let r = Timeline { t0: 0, states };
        proof {
            assert(r@.states =~= seq![m@]);
        }
        r
    }

    /// The cycle of the oldest retained snapshot.
    pub fn ti(&self) -> (r: usize)
        ensures
            r == self@.t0,
    {
        self.t0
    }

    /// One past the cycle of the newest snapshot.
    pub fn tf(&self) -> (r: usize)
        requires
            self.wf(),
        ensures
            r == self@.t0 + self@.states.len(),
    {
        self.t0 + self.states.len()
    }

    /// Whether the window holds a snapshot for cycle `t`.
    pub fn in_interval(&self, t: usize) -> (r: bool)
        requires
            self.wf(),
        ensures
            r == (self@.t0 <= t < self@.t0 + self@.states.len()),
    {
        self.ti() <= t && t < self.tf()
    }

    /// Whether `t` is the cycle just past the window.
    pub fn in_next_slot(&self, t: usize) -> (r: bool)
        requires
            self.wf(),
        ensures
            r == (t == self@.t0 + self@.states.len()),
    {
        t == self.tf()
    }

    /// The snapshot at absolute cycle `t`.
    pub fn get(&self, t: usize) -> (r: &Machine)
        requires
            self@.t0 <= t < self@.t0 + self@.states.len(),
        ensures
            r@ == self@.states[t - self@.t0],
    {
        &self.states[t - self.t0]
    }

    /// Replaces the snapshot at absolute cycle `t`.
    pub fn set_at(&mut self, t: usize, m: Machine)
        requires
            old(self)@.t0 <= t < old(self)@.t0 + old(self)@.states.len(),
        ensures
            final(self)@.t0 == old(self)@.t0,
            final(self)@.states =~= old(self)@.states.update(t - old(self)@.t0, m@),
            old(self).wf() ==> final(self).wf(),
    {
        let i = t - self.t0;
        self.states[i] = m;
        proof {
            assert(self@.states =~= old(self)@.states.update(t - old(self)@.t0, m@));
        }
    }

    /// Appends a snapshot; when the window already holds twice its capacity
    /// the oldest snapshot is evicted first.
    pub fn push_back(&mut self, x: Machine)
        requires
            old(self).wf(),
            old(self)@.t0 < TIME_HORIZON,
        ensures
            final(self).wf(),
            old(self)@.states.len() < 2 * MAX_WINDOW ==> final(self)@.t0 == old(self)@.t0
                && final(self)@.states =~= old(self)@.states.push(x@),
            old(self)@.states.len() >= 2 * MAX_WINDOW ==> final(self)@.t0 == old(self)@.t0 + 1
                && final(self)@.states =~= old(self)@.states.skip(1).push(x@),
    {
        if self.states.len() == 2 * MAX_WINDOW {
            self.pop_front();
        }
        self.states.push(x);
        proof {
            if old(self)@.states.len() < 2 * MAX_WINDOW {
                assert(self@.states =~= old(self)@.states.push(x@));
            } else {
                assert(self@.states =~= old(self)@.states.skip(1).push(x@));
            }
        }
    }

    /// Removes and returns the oldest snapshot, advancing the window start.
    pub fn pop_front(&mut self) -> (r: Machine)
        requires
            old(self).wf(),
            old(self)@.states.len() >= 1,
            old(self)@.t0 < TIME_HORIZON,
        ensures
            final(self).wf(),
            final(self)@.t0 == old(self)@.t0 + 1,
            final(self)@.states =~= old(self)@.states.skip(1),
            r@ == old(self)@.states[0],
    {
        self.t0 = self.t0 + 1;
        let r = self.states.remove(0);
        proof {
            assert(self@.states =~= old(self)@.states.skip(1));
        }
        r
    }

    /// Whether the window has accumulated its full capacity.
    pub fn is_full(&self) -> (r: bool)
        ensures
            r == (self@.states.len() >= MAX_WINDOW),
    {
        self.states.len() >= MAX_WINDOW
    }
}

/// The model of the whole engine state: the window, the current cycle, the
/// consistency mode, and the pending accesses.
pub ghost struct UniverseModel {
    pub t0: int,
    pub states: Seq<MachineModel>,
    pub t: int,
    pub mode: Mode,
    pub pending_reads: Seq<PendingRead>,
    pub pending_writes: Seq<PendingWrite>,
}

impl UniverseModel {
    /// One past the newest snapshot's cycle.
    pub open spec fn tf(self) -> int {
        self.t0 + self.states.len()
    }

    /// The snapshot of the current cycle.
    pub open spec fn now(self) -> MachineModel {
        self.states[self.t - self.t0]
    }

    /// The model with the current snapshot replaced.
    pub open spec fn with_now(self, m: MachineModel) -> UniverseModel {
        UniverseModel { states: self.states.update(self.t - self.t0, m), ..self }
    }
}

/// The engine state: a timeline of snapshots, the current cycle, the
/// consistency mode, and the pending time-displaced accesses.
pub struct Universe {
    timeline: Timeline,
    t: usize,
    mode: Mode,
    pending_reads: Vec<PendingRead>,
    pending_writes: Vec<PendingWrite>,
}

impl View for Universe {
    type V = UniverseModel;

    closed spec fn view(&self) -> UniverseModel {
        UniverseModel {
            t0: self.timeline@.t0,
            states: self.timeline@.states,
            t: self.t as int,
            mode: self.mode,
            pending_reads: self.pending_reads@,
            pending_writes: self.pending_writes@,
        }
    }
}

impl Universe {
    /// Well-formedness: the current cycle lies in the retained window, the
    /// window is bounded, and the cycle counter leaves headroom below the
    /// machine word limit.
    pub open spec fn wf(self) -> bool {
        &&& 0 <= self@.t0 <= self@.t < self@.tf()
        &&& self@.states.len() <= 2 * MAX_WINDOW
        &&& self@.t0 <= TIME_HORIZON
    }

    /// A fresh engine: one reset machine at cycle zero, consistent, with no
    /// pending accesses.
    pub fn new() -> (r: Self)
        ensures
            r@.t0 == 0,
            r@.states =~= seq![
                MachineModel {
                    cpu: crate::machine::Cpu::reset(),
                    ram: crate::machine::ram_zeros(),
                },
            ],
            r@.t == 0,
            r@.mode == Mode::Consistent,
            r@.pending_reads =~= Seq::<PendingRead>::empty(),
            r@.pending_writes =~= Seq::<PendingWrite>::empty(),
            r.wf(),
    {
        Self::with_machine(Machine::new())
    }

    /// An engine whose single starting snapshot is the given machine: for
    /// running a machine whose RAM already holds a program.
    pub fn with_machine(m: Machine) -> (r: Self)
        ensures
            r@.t0 == 0,
            r@.states =~= seq![m@],
            r@.t == 0,
            r@.mode == Mode::Consistent,
            r@.pending_reads =~= Seq::<PendingRead>::empty(),
            r@.pending_writes =~= Seq::<PendingWrite>::empty(),
            r.wf(),
    {
        Universe {
            timeline: Timeline::new(m),
            t: 0,
            mode: Mode::Consistent,
            pending_reads: Vec::new(),
            pending_writes: Vec::new(),
        }
    }

    /// The current absolute cycle.
    pub fn t(&self) -> (r: usize)
        ensures
            r == self@.t,
    {
        self.t
    }

    /// The cycle of the oldest retained snapshot.
    pub fn ti(&self) -> (r: usize)
        ensures
            r == self@.t0,
    {
        self.timeline.ti()
    }

    /// One past the newest snapshot's cycle.
    pub fn tf(&self) -> (r: usize)
        requires
            self.wf(),
        ensures
            r == self@.tf(),
    {
        self.timeline.tf()
    }

    /// The current consistency mode.
    pub fn mode(&self) -> (r: Mode)
        ensures
            r == self@.mode,
    {
        self.mode
    }

    /// Advances the cycle counter and installs `x` as its snapshot: appended
    /// when the next cycle lies just past the window, overwriting when the
    /// window already holds it.
    pub fn push_state(&mut self, x: Machine)
        requires
            old(self).wf(),
            old(self)@.t0 < TIME_HORIZON,
        ensures
            final(self).wf(),
            final(self)@.t == old(self)@.t + 1,
            final(self)@.mode == old(self)@.mode,
            final(self)@.pending_reads == old(self)@.pending_reads,
            final(self)@.pending_writes == old(self)@.pending_writes,
            old(self)@.t + 1 < old(self)@.tf() ==> final(self)@.t0 == old(self)@.t0 && final(self)@.states =~= old(self)@.states.update(old(self)@.t + 1 - old(self)@.t0, x@),
            old(self)@.t + 1 == old(self)@.tf() && old(self)@.states.len() < 2 * MAX_WINDOW
                ==> final(self)@.t0 == old(self)@.t0 && final(self)@.states =~= old(self)@.states.push(x@),
            old(self)@.t + 1 == old(self)@.tf() && old(self)@.states.len() >= 2 * MAX_WINDOW
                ==> final(self)@.t0 == old(self)@.t0 + 1 && final(self)@.states =~= old(self)@.states.skip(1).push(x@),
    {
        let next = self.t + 1;
        if self.timeline.in_next_slot(next) {
            self.timeline.push_back(x);
            self.t = next;
        } else {
            self.timeline.set_at(next, x);
            self.t = next;
        }
    }

    /// Clones the current snapshot into the next cycle.
    pub fn push_new_state(&mut self)
        requires
            old(self).wf(),
            old(self)@.t0 < TIME_HORIZON,
        ensures
            final(self).wf(),
            final(self)@.t == old(self)@.t + 1,
            final(self)@.mode == old(self)@.mode,
            final(self)@.pending_reads == old(self)@.pending_reads,
            final(self)@.pending_writes == old(self)@.pending_writes,
            old(self)@.t + 1 < old(self)@.tf() ==> final(self)@.t0 == old(self)@.t0 && final(self)@.states =~= old(self)@.states.update(
                old(self)@.t + 1 - old(self)@.t0,
                old(self)@.now(),
            ),
            old(self)@.t + 1 == old(self)@.tf() && old(self)@.states.len() < 2 * MAX_WINDOW
                ==> final(self)@.t0 == old(self)@.t0 && final(self)@.states =~= old(self)@.states.push(old(self)@.now()),
            old(self)@.t + 1 == old(self)@.tf() && old(self)@.states.len() >= 2 * MAX_WINDOW
                ==> final(self)@.t0 == old(self)@.t0 + 1 && final(self)@.states =~= old(self)@.states.skip(1).push(old(self)@.now()),
    {
        let m = self.timeline.get(self.t).clone();
        self.push_state(m);
    }

    /// Removes and returns the oldest snapshot.
    pub fn pop_state(&mut self) -> (r: Machine)
        requires
            old(self).wf(),
            old(self)@.t0 < old(self)@.t,
            old(self)@.t0 < TIME_HORIZON,
        ensures
            final(self).wf(),
            r@ == old(self)@.states[0],
            final(self)@.t0 == old(self)@.t0 + 1,
            final(self)@.states =~= old(self)@.states.skip(1),
            final(self)@.t == old(self)@.t,
            final(self)@.mode == old(self)@.mode,
            final(self)@.pending_reads == old(self)@.pending_reads,
            final(self)@.pending_writes == old(self)@.pending_writes,
    {
        self.timeline.pop_front()
    }

    /// The current cycle's snapshot.
    pub fn now(&self) -> (r: &Machine)
        requires
            self.wf(),
        ensures
            r@ == self@.now(),
    {
        self.timeline.get(self.t)
    }

    /// Replaces the current cycle's snapshot.
    pub fn put_now(&mut self, m: Machine)
        requires
            old(self).wf(),
        ensures
            final(self).wf(),
            final(self)@ == old(self)@.with_now(m@),
    {
        self.timeline.set_at(self.t, m);
        proof {
            assert(self@.states =~= old(self)@.with_now(m@).states);
        }
    }

    /// The snapshot at absolute cycle `t`.
    pub fn get_at(&self, t: usize) -> (r: &Machine)
        requires
            self@.t0 <= t < self@.tf(),
        ensures
            r@ == self@.states[t - self@.t0],
    {
        self.timeline.get(t)
    }

    /// Replaces the snapshot at absolute cycle `t`.
    pub fn set_at(&mut self, t: usize, m: Machine)
        requires
            old(self)@.t0 <= t < old(self)@.tf(),
        ensures
            final(self)@.states =~= old(self)@.states.update(t - old(self)@.t0, m@),
            final(self)@.t0 == old(self)@.t0,
            final(self)@.t == old(self)@.t,
            final(self)@.mode == old(self)@.mode,
            final(self)@.pending_reads == old(self)@.pending_reads,
            final(self)@.pending_writes == old(self)@.pending_writes,
    {
        self.timeline.set_at(t, m);
    }

    /// Rewinds the cycle counter into the retained window.
    pub fn set_t(&mut self, t: usize)
        requires
            old(self)@.t0 <= t < old(self)@.tf(),
        ensures
            final(self)@ == (UniverseModel { t: t as int, ..old(self)@ }),
    {
        self.t = t;
    }

    /// Replaces the consistency mode.
    pub fn set_mode(&mut self, m: Mode)
        ensures
            final(self)@ == (UniverseModel { mode: m, ..old(self)@ }),
    {
        self.mode = m;
    }

    /// Records an inconsistency over `[lo, hi]`, widening any interval
    /// already suspected.
    pub fn mark_inconsistent(&mut self, lo: usize, hi: usize)
        ensures
            final(self)@ == (UniverseModel { mode: mode_widen(old(self)@.mode, lo, hi), ..old(self)@ }),
    {
        self.mode.add_inconsistent(lo, hi);
    }

    /// Queues a read from the future.
    pub fn push_pending_read(&mut self, pr: PendingRead)
        ensures
            final(self)@ == (UniverseModel {
                pending_reads: old(self)@.pending_reads.push(pr),
                ..old(self)@
            }),
    {
        self.pending_reads.push(pr);
    }

    /// Queues a write to the future.
    pub fn push_pending_write(&mut self, pw: PendingWrite)
        ensures
            final(self)@ == (UniverseModel {
                pending_writes: old(self)@.pending_writes.push(pw),
                ..old(self)@
            }),
    {
        self.pending_writes.push(pw);
    }

    /// Hands the queued reads out for resolution, leaving the queue empty.
    pub fn take_pending_reads(&mut self) -> (r: Vec<PendingRead>)
        ensures
            r@ == old(self)@.pending_reads,
            final(self)@ == (UniverseModel {
                pending_reads: Seq::<PendingRead>::empty(),
                ..old(self)@
            }),
    {
        let mut r: Vec<PendingRead> = Vec::new();
        std::mem::swap(&mut r, &mut self.pending_reads);
        r
    }

    /// Installs a resolved read queue.
    pub fn set_pending_reads(&mut self, v: Vec<PendingRead>)
        ensures
            final(self)@ == (UniverseModel { pending_reads: v@, ..old(self)@ }),
    {
        self.pending_reads = v;
    }

    /// Hands the queued writes out for resolution, leaving the queue empty.
    pub fn take_pending_writes(&mut self) -> (r: Vec<PendingWrite>)
        ensures
            r@ == old(self)@.pending_writes,
            final(self)@ == (UniverseModel {
                pending_writes: Seq::<PendingWrite>::empty(),
                ..old(self)@
            }),
    {
        let mut r: Vec<PendingWrite> = Vec::new();
        std::mem::swap(&mut r, &mut self.pending_writes);
        r
    }

    /// Installs a resolved write queue.
    pub fn set_pending_writes(&mut self, v: Vec<PendingWrite>)
        ensures
            final(self)@ == (UniverseModel { pending_writes: v@, ..old(self)@ }),
    {
        self.pending_writes = v;
    }

    /// Whether the window has accumulated its full capacity.
    pub fn is_full(&self) -> (r: bool)
        ensures
            r == (self@.states.len() >= MAX_WINDOW),
    {
        self.timeline.is_full()
    }

    /// Whether the timeline is currently consistent.
    pub fn is_consistent(&self) -> (r: bool)
        ensures
            r == (self@.mode is Consistent),
    {
        match self.mode {
            Mode::Consistent => true,
            _ => false,
        }
    }
}

} // verus!
