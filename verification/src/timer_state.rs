//! The live session: the ledger, the phase of the run and the splits
//! recorded so far.

use vstd::prelude::*;
use crate::duration::Duration;
use crate::duration::Instant;
use crate::duration::opt_nanos;
use crate::split_file::SplitFile;

verus! {

/// The phase of a run.
#[derive(Clone, Copy, Debug, PartialEq, Eq, Structural)]
pub enum TimerMode {
    /// Not started: no split is recorded.
    Initial,
    /// Under way since `start_time`.
    Running { start_time: Instant },
    /// Halted after `elapsed_at_pause` of running.
    Paused { elapsed_at_pause: Duration },
    /// Every split is recorded; the run began at `start_time`.
    Finished { start_time: Instant },
}

/// Whether the first of two times is no later than the second, where both
/// are there.
pub open spec fn no_later(first: Option<Duration>, second: Option<Duration>) -> bool {
    match (first, second) {
        (Some(first), Some(second)) => first@ <= second@,
        _ => true,
    }
}

/// Whether a time lies within `span` of the start, where it is there.
pub open spec fn within(time: Option<Duration>, span: nat) -> bool {
    match time {
        Some(time) => time@ <= span,
        None => true,
    }
}

/// The live session.
#[derive(Debug)]
pub struct TimerState {
    pub split_file: SplitFile,
    pub mode: TimerMode,
    /// One slot for each split reached so far; `None` marks a split that was
    /// reached and then deleted.
    pub splits: Vec<Option<Duration>>,
    /// The instant from which animated colours count their time.
    pub anim_ref_time: Instant,
}

impl TimerState {
    /// The recorded splits, in nanoseconds.
    pub open spec fn split_times(&self) -> Seq<Option<nat>> {
        Seq::new(self.splits.len() as nat, |i: int| opt_nanos(self.splits[i]))
    }

    /// Whether no recorded split is earlier than one recorded before it.
    pub open spec fn splits_in_order(&self) -> bool {
        forall|i: int, j: int|
            0 <= i < j < self.splits.len() ==> no_later(
                #[trigger] self.splits[i],
                #[trigger] self.splits[j],
            )
    }

    /// Whether every recorded split lies within `span` of the start.
    pub open spec fn splits_within(&self, span: nat) -> bool {
        forall|i: int| 0 <= i < self.splits.len() ==> within(#[trigger] self.splits[i], span)
    }

    /// Whether the recorded splits fit the phase: before the start none is
    /// recorded; during the run not yet all; during a pause not yet all, and
    /// none later than the running time at the pause; after the finish all
    /// of them, the last one not deleted.
    pub open spec fn mode_fits(&self) -> bool {
        match self.mode {
            TimerMode::Initial => self.splits.len() == 0,
            TimerMode::Running { .. } => self.splits.len() < self.split_file.len(),
            TimerMode::Paused { elapsed_at_pause } => self.splits.len() < self.split_file.len()
                && self.splits_within(elapsed_at_pause@),
            TimerMode::Finished { .. } => self.splits.len() == self.split_file.len()
                && self.splits[self.splits.len() - 1] is Some,
        }
    }

    /// What the state machine keeps true of a session: the ledger is well
    /// formed, the recorded splits are in order, and they fit the phase.
    pub open spec fn wf(&self) -> bool {
        &&& self.split_file.wf()
        &&& self.splits_in_order()
        &&& self.mode_fits()
    }

    /// The running time at `now`: the time since the start while the run is
    /// under way, nothing otherwise.
    pub open spec fn elapsed(&self, now: Instant) -> Option<nat> {
        match self.mode {
            TimerMode::Running { start_time } => Some(Self::since(start_time, now)),
            _ => None,
        }
    }

    /// The split times of the run as it stands at `now`, one slot for each
    /// split: the recorded ones, then, while the run is under way, the
    /// running time in the slot of the split being run, then nothing.
    pub open spec fn live_times(&self, now: Instant) -> Seq<Option<nat>> {
        Seq::new(
            self.split_file.len(),
            |i: int|
                if i < self.splits.len() {
                    opt_nanos(self.splits[i])
                } else if i == self.splits.len() {
                    self.elapsed(now)
                } else {
                    None
                },
        )
    }

    /// The time from `start_time` to `now`; nothing where `now` is the
    /// earlier.
    pub open spec fn since(start_time: Instant, now: Instant) -> nat {
        if now@ >= start_time@ {
            (now@ - start_time@) as nat
        } else {
            0
        }
    }

    /// Whether `now` is a reading that the session can take: one that is not
    /// earlier than anything the session has recorded. After the start no
    /// recorded split is later than `now`; during a pause the running time
    /// at the pause is no longer than the time from the clock's origin to
    /// `now`.
    pub open spec fn admits(&self, now: Instant) -> bool {
        match self.mode {
            TimerMode::Initial => true,
            TimerMode::Running { start_time } => self.splits_within(Self::since(start_time, now)),
            TimerMode::Paused { elapsed_at_pause } => elapsed_at_pause@ <= now@,
            TimerMode::Finished { start_time } => self.splits_within(Self::since(start_time, now)),
        }
    }

    /// A reading that the session can take stays one as the clock goes on.
    pub proof fn lemma_admits_later(&self, now: Instant, later: Instant)
        requires
            self.admits(now),
            now@ <= later@,
        ensures
            self.admits(later),
    {
        match self.mode {
            TimerMode::Running { start_time } | TimerMode::Finished { start_time } => {
                assert forall|i: int| 0 <= i < self.splits.len() implies within(
                    #[trigger] self.splits[i],
                    Self::since(start_time, later),
                ) by {
                    assert(within(self.splits[i], Self::since(start_time, now)));
                }
            },
            _ => {},
        }
    }

    /// A session before the start of a run on the given ledger.
    pub fn new(split_file: SplitFile, anim_ref_time: Instant) -> (timer: TimerState)
        requires
            split_file.wf(),
        ensures
            timer.wf(),
            timer.split_file == split_file,
            timer.mode == TimerMode::Initial,
            timer.splits@.len() == 0,
            timer.anim_ref_time == anim_ref_time,
    {
        TimerState { split_file, mode: TimerMode::Initial, splits: Vec::new(), anim_ref_time }
    }

    /// Whether every recorded split lies within `span` of the start.
    fn all_within(&self, span: Duration) -> (ok: bool)
        ensures
            ok == self.splits_within(span@),
    {
        let mut i: usize = 0;
        while i < self.splits.len()
            invariant
                i <= self.splits.len(),
                forall|j: int| 0 <= j < i ==> within(#[trigger] self.splits[j], span@),
            decreases self.splits.len() - i,
        {
            match self.splits[i] {
                Some(time) => {
                    if !time.le(&span) {
                        assert(!within(self.splits[i as int], span@));
                        return false;
                    }
                },
                None => {},
            }
            i += 1;
        }
        true
    }

    /// Whether the recorded splits are in order.
    fn in_order(&self) -> (ok: bool)
        ensures
            ok == self.splits_in_order(),
    {
        let mut latest: Option<Duration> = None;
        let mut i: usize = 0;
        while i < self.splits.len()
            invariant
                i <= self.splits.len(),
                forall|a: int, b: int|
                    0 <= a < b < i ==> no_later(#[trigger] self.splits[a], #[trigger] self.splits[b]),
                forall|a: int| 0 <= a < i ==> no_later(#[trigger] self.splits[a], latest),
                forall|a: int| 0 <= a < i && latest is None ==> (#[trigger] self.splits[a]) is None,
                latest matches Some(time) ==> exists|a: int|
                    0 <= a < i && #[trigger] self.splits[a] == Some(time),
            decreases self.splits.len() - i,
        {
            match (self.splits[i], latest) {
                (Some(time), Some(before)) => {
                    if time.lt(&before) {
                        proof {
                            let a = choose|a: int|
                                0 <= a < i && #[trigger] self.splits[a] == Some(before);
                            assert(!no_later(self.splits[a], self.splits[i as int]));
                        }
                        return false;
                    }
                    latest = Some(time);
                },
                (Some(time), None) => {
                    latest = Some(time);
                },
                _ => {},
            }
            i += 1;
        }
        true
    }

    /// Whether the session is well formed.
    pub fn is_wf(&self) -> (ok: bool)
        ensures
            ok == self.wf(),
    {
        if !self.split_file.is_wf() || !self.in_order() {
            return false;
        }
        let n: usize = self.split_file.split_names.len();
        let recorded: usize = self.splits.len();
        match self.mode {
            TimerMode::Initial => recorded == 0,
            TimerMode::Running { .. } => recorded < n,
            TimerMode::Paused { elapsed_at_pause } => recorded < n && self.all_within(
                elapsed_at_pause,
            ),
            TimerMode::Finished { .. } => recorded == n && self.splits[recorded - 1].is_some(),
        }
    }

    /// Whether `now` is a reading that the session can take.
    pub fn can_take(&self, now: Instant) -> (ok: bool)
        ensures
            ok == self.admits(now),
    {
        match self.mode {
            TimerMode::Initial => true,
            TimerMode::Running { start_time } => self.all_within(now.duration_since(start_time)),
            TimerMode::Paused { elapsed_at_pause } => elapsed_at_pause.le(&now.since_origin()),
            TimerMode::Finished { start_time } => self.all_within(now.duration_since(start_time)),
        }
    }
}

} // verus!
