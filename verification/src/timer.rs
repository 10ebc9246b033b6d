//! The run-timing state machine, and the timer that drives it frame by frame.

use vstd::prelude::*;
use std::collections::HashMap;
use crate::duration::Duration;
use crate::duration::Instant;
use crate::duration::opt_nanos;
use crate::rotty::buffer::Command;
use crate::rotty::buffer::CommandView;
use crate::rotty::buffer::command_views;
use crate::rotty::render::Renderer;
use crate::rotty::render::frame_of;
use crate::rotty::render::reset_pen;
use crate::rotty::render::setup_commands;
use crate::rotty::style::Color;
use crate::settings::Action;
use crate::settings::Settings;
use crate::split_file::Gold;
use crate::split_file::LoadError;
use crate::split_file::Split;
use crate::split_file::SplitFile;
use crate::split_file::read_split_file;
use crate::timer_state::TimerMode;
use crate::timer_state::TimerState;
use crate::timer_state::no_later;
use crate::timer_state::within;
use crate::utils::color_of_hex;
use crate::utils::gold_at;
use crate::utils::parse_color;
use crate::utils::segment_at;
use crate::utils::segment_between;
use crate::utils::time_at;
use crate::view::render_view;
use crate::view::run_summaries;
use crate::view::timer_view;

verus! {

impl TimerState {
    /// The golds as they stand once this run is merged into them: for every
    /// segment that the run has completed the shorter of the run's time and
    /// the stored gold, or whichever there is; for the others the stored
    /// gold.
    pub open spec fn merged_golds(&self) -> Seq<Option<nat>> {
        Seq::new(
            self.split_file.len(),
            |i: int|
                gold_at(
                    self.split_times(),
                    self.split_file.gold_times(),
                    self.splits.len() as nat,
                    i,
                ),
        )
    }

    /// Whether the run's final time is strictly less than the personal
    /// best's, or there is no personal best to compare it with.
    pub open spec fn beats_personal_best(&self) -> bool {
        let last = self.split_file.len() - 1;
        match (time_at(self.split_times(), last), time_at(self.split_file.pb_times(), last)) {
            (Some(run), Some(best)) => run < best,
            (Some(run), None) => true,
            _ => false,
        }
    }

    /// Whether the session can take `action` at `now`: `now` is a reading
    /// that the session can take, and where the action saves the run, the
    /// counters of attempts and completed runs have room for one more.
    pub open spec fn accepts(&self, action: Action, now: Instant) -> bool {
        &&& self.admits(now)
        &&& match (self.mode, action) {
            (TimerMode::Running { .. }, Action::ResetAndSave) => self.split_file.attempts
                < u32::MAX,
            (TimerMode::Finished { .. }, Action::ResetAndSave) => self.split_file.attempts
                < u32::MAX && self.split_file.completed < u32::MAX,
            _ => true,
        }
    }

    /// Whether the ledger of `self` differs from that of `before` in nothing
    /// but the counters, the golds and the personal best's splits.
    pub open spec fn same_run_as(&self, before: &TimerState) -> bool {
        &&& self.split_file.title == before.split_file.title
        &&& self.split_file.category == before.split_file.category
        &&& self.split_file.split_names == before.split_file.split_names
        &&& self.split_file.personal_best.attempt == before.split_file.personal_best.attempt
        &&& self.anim_ref_time == before.anim_ref_time
    }

    /// Whether `self` is what saving the run of `before` leaves: the run
    /// merged into the golds, one more attempt, and, where the run was
    /// finished, one more completed run and the run's splits in place of the
    /// personal best if they beat it; then back before the start.
    pub open spec fn is_saved_from(&self, before: &TimerState) -> bool {
        let finished = before.mode is Finished;
        &&& self.same_run_as(before)
        &&& self.mode == TimerMode::Initial
        &&& self.splits@.len() == 0
        &&& self.split_file.attempts == before.split_file.attempts + 1
        &&& self.split_file.completed == before.split_file.completed + if finished {
            1int
        } else {
            0int
        }
        &&& self.split_file.gold_times() == before.merged_golds()
        &&& self.split_file.pb_times() == if finished && before.beats_personal_best() {
            before.split_times()
        } else {
            before.split_file.pb_times()
        }
    }

    /// Whether `action` saves the run: a reset with saving does, while the
    /// run is under way or after its finish.
    pub open spec fn saves(&self, action: Action) -> bool {
        action == Action::ResetAndSave && (self.mode is Running || self.mode is Finished)
    }

    /// Whether `self` is what `action` at `now` makes of `before`.
    pub open spec fn follows(&self, before: &TimerState, action: Action, now: Instant) -> bool {
        let unchanged = self.split_file == before.split_file && self.anim_ref_time
            == before.anim_ref_time;
        match (before.mode, action) {
            (TimerMode::Initial, Action::Split) => {
                &&& unchanged
                &&& self.mode == TimerMode::Running { start_time: now }
                &&& self.splits@ == before.splits@
            },
            (TimerMode::Running { start_time }, Action::Split) => {
                &&& unchanged
                &&& self.split_times() == before.split_times().push(before.elapsed(now))
                &&& self.mode == if self.splits.len() == self.split_file.len() {
                    TimerMode::Finished { start_time }
                } else {
                    TimerMode::Running { start_time }
                }
            },
            (TimerMode::Running { start_time }, Action::UndoSplit) => {
                &&& unchanged
                &&& if before.splits.len() == 0 {
                    self.mode == TimerMode::Initial && self.splits@.len() == 0
                } else {
                    self.mode == before.mode && self.splits@ == before.splits@.drop_last()
                }
            },
            (TimerMode::Running { start_time }, Action::DeleteSplit) => {
                &&& unchanged
                &&& self.mode == before.mode
                &&& if before.splits.len() == 0 {
                    self.splits@ == before.splits@
                } else {
                    self.splits@ == before.splits@.update(before.splits.len() - 1, None)
                }
            },
            (TimerMode::Running { start_time }, Action::Pause) => {
                &&& unchanged
                &&& self.splits@ == before.splits@
                &&& self.mode matches TimerMode::Paused { elapsed_at_pause }
                &&& Some(elapsed_at_pause@) == before.elapsed(now)
            },
            (TimerMode::Paused { elapsed_at_pause }, Action::Pause) => {
                &&& unchanged
                &&& self.splits@ == before.splits@
                &&& self.mode matches TimerMode::Running { start_time }
                &&& start_time@ == now@ - elapsed_at_pause@
            },
            (TimerMode::Finished { start_time }, Action::UndoSplit) => {
                &&& unchanged
                &&& self.mode == TimerMode::Running { start_time }
                &&& self.splits@ == before.splits@.drop_last()
            },
            (TimerMode::Running { .. }, Action::ResetAndSave) | (
                TimerMode::Finished { .. },
                Action::ResetAndSave,
            ) => self.is_saved_from(before),
            (TimerMode::Running { .. }, Action::ResetAndDelete) | (
                TimerMode::Finished { .. },
                Action::ResetAndDelete,
            ) => {
                &&& unchanged
                &&& self.mode == TimerMode::Initial
                &&& self.splits@.len() == 0
            },
            _ => {
                &&& unchanged
                &&& self.mode == before.mode
                &&& self.splits@ == before.splits@
            },
        }
    }

    /// Whether the session can take `action` at `now`.
    pub fn can_apply(&self, action: Action, now: Instant) -> (ok: bool)
        ensures
            ok == self.accepts(action, now),
    {
        self.can_take(now) && match (self.mode, action) {
            (TimerMode::Running { .. }, Action::ResetAndSave) => self.split_file.attempts
                < u32::MAX,
            (TimerMode::Finished { .. }, Action::ResetAndSave) => self.split_file.attempts
                < u32::MAX && self.split_file.completed < u32::MAX,
            _ => true,
        }
    }

    /// The recorded splits stay in order, and within the span they were
    /// within, when the last is dropped or deleted.
    proof fn lemma_splits_kept(&self, before: &TimerState)
        requires
            before.splits_in_order(),
            self.splits@ == before.splits@ || (before.splits.len() > 0 && (self.splits@
                == before.splits@.drop_last() || self.splits@ == before.splits@.update(
                before.splits.len() - 1,
                None,
            ))),
        ensures
            self.splits_in_order(),
            forall|span: nat| before.splits_within(span) ==> self.splits_within(span),
    {
        assert forall|i: int, j: int| 0 <= i < j < self.splits.len() implies no_later(
            #[trigger] self.splits[i],
            #[trigger] self.splits[j],
        ) by {
            assert(no_later(before.splits[i], before.splits[j]));
        }
        assert forall|span: nat| before.splits_within(span) implies self.splits_within(span) by {
            assert forall|i: int| 0 <= i < self.splits.len() implies within(
                #[trigger] self.splits[i],
                span,
            ) by {
                assert(within(before.splits[i], span));
            }
        }
    }

    /// A ledger is well formed when it has the splits and the personal best
    /// of a well-formed one and as many golds.
    proof fn lemma_ledger_wf_from(ledger: &SplitFile, before: &SplitFile)
        requires
            before.wf(),
            ledger.split_names.len() == before.split_names.len(),
            ledger.golds.len() == before.golds.len(),
            ledger.personal_best.splits == before.personal_best.splits,
        ensures
            ledger.wf(),
    {
        assert forall|i: int| 0 <= i < ledger.len() implies !#[trigger] ledger.split_out_of_order(
            i,
        ) by {
            assert(!before.split_out_of_order(i));
        }
    }

    /// Merges the run into the golds.
    fn save_golds(&mut self)
        requires
            old(self).wf(),
        ensures
            final(self).wf(),
            final(self).split_file.gold_times() == old(self).merged_golds(),
            final(self).split_file.title == old(self).split_file.title,
            final(self).split_file.category == old(self).split_file.category,
            final(self).split_file.attempts == old(self).split_file.attempts,
            final(self).split_file.completed == old(self).split_file.completed,
            final(self).split_file.split_names == old(self).split_file.split_names,
            final(self).split_file.personal_best == old(self).split_file.personal_best,
            final(self).mode == old(self).mode,
            final(self).splits == old(self).splits,
            final(self).anim_ref_time == old(self).anim_ref_time,
    {
        let n: usize = self.split_file.golds.len();
        let recorded: usize = self.splits.len();
        let ghost live = self.split_times();
        let ghost stored = self.split_file.gold_times();
        let mut merged: Vec<Option<Gold>> = Vec::new();
        let mut i: usize = 0;
        while i < n
            invariant
                self.wf(),
                i <= n == self.split_file.golds.len(),
                recorded == self.splits.len(),
                live == self.split_times(),
                stored == self.split_file.gold_times(),
                merged.len() == i,
                forall|j: int|
                    0 <= j < i ==> match #[trigger] merged[j] {
                        Some(gold) => Some(gold.duration@),
                        None => None,
                    } == gold_at(live, stored, recorded as nat, j),
            decreases n - i,
        {
            let stored_gold: Option<Gold> = self.split_file.golds[i];
            assert(stored[i as int] == match stored_gold {
                Some(gold) => Some(gold.duration@),
                None => None,
            });
            let mut gold: Option<Gold> = stored_gold;
            if i < recorded {
                let before: Option<Duration> = if i == 0 {
                    None
                } else {
                    self.splits[i - 1]
                };
                assert(i > 0 ==> no_later(self.splits[i - 1], self.splits[i as int]));
                let run = segment_between(i == 0, self.splits[i], before);
                assert(opt_nanos(run) == segment_at(live, i as int));
                match (run, stored_gold) {
                    (Some(run), Some(stored_gold)) => {
                        gold = Some(Gold { duration: run.min(stored_gold.duration) });
                    },
                    (Some(run), None) => {
                        gold = Some(Gold { duration: run });
                    },
                    _ => {},
                }
            }
            merged.push(gold);
            i += 1;
        }
        self.split_file.golds = merged;
        proof {
            assert(self.split_file.gold_times() =~= old(self).merged_golds());
            Self::lemma_ledger_wf_from(&self.split_file, &old(self).split_file);
            self.lemma_splits_kept(old(self));
        }
    }

    /// Puts the run's splits in place of the personal best if they beat it.
    fn save_personal_best(&mut self)
        requires
            old(self).wf(),
            old(self).mode is Finished,
        ensures
            final(self).wf(),
            final(self).split_file.pb_times() == if old(self).beats_personal_best() {
                old(self).split_times()
            } else {
                old(self).split_file.pb_times()
            },
            final(self).split_file.personal_best.attempt == old(
                self,
            ).split_file.personal_best.attempt,
            final(self).split_file.golds == old(self).split_file.golds,
            final(self).split_file.title == old(self).split_file.title,
            final(self).split_file.category == old(self).split_file.category,
            final(self).split_file.attempts == old(self).split_file.attempts,
            final(self).split_file.completed == old(self).split_file.completed,
            final(self).split_file.split_names == old(self).split_file.split_names,
            final(self).mode == old(self).mode,
            final(self).splits == old(self).splits,
            final(self).anim_ref_time == old(self).anim_ref_time,
    {
        let n: usize = self.splits.len();
        let beaten: bool = match (self.splits[n - 1], self.split_file.personal_best.splits[n - 1]) {
            (Some(run), Some(best)) => run.lt(&best.time),
            (Some(run), None) => true,
            _ => false,
        };
        assert(beaten == self.beats_personal_best());
        if beaten {
            let mut splits: Vec<Option<Split>> = Vec::new();
            let mut i: usize = 0;
            while i < n
                invariant
                    i <= n == self.splits.len(),
                    splits.len() == i,
                    forall|j: int|
                        0 <= j < i ==> #[trigger] splits[j] == match self.splits[j] {
                            Some(time) => Some(Split { time }),
                            None => None,
                        },
                decreases n - i,
            {
                splits.push(
                    match self.splits[i] {
                        Some(time) => Some(Split { time }),
                        None => None,
                    },
                );
                i += 1;
            }
            self.split_file.personal_best.splits = splits;
            proof {
                assert(self.split_file.pb_times() =~= old(self).split_times());
                assert forall|i: int| 0 <= i < self.split_file.len() implies !#[trigger]
                self.split_file.split_out_of_order(i) by {
                    assert(i > 0 ==> no_later(old(self).splits[i - 1], old(self).splits[i]));
                }
                self.lemma_splits_kept(old(self));
            }
        }
    }

    /// Saves the run: merges it into the golds, counts the attempt and,
    /// where the run is finished, the completed run, replaces the personal
    /// best if the finished run beats it, and goes back before the start.
    fn reset_and_save(&mut self)
        requires
            old(self).wf(),
            old(self).mode is Running || old(self).mode is Finished,
            old(self).split_file.attempts < u32::MAX,
            old(self).mode is Finished ==> old(self).split_file.completed < u32::MAX,
        ensures
            final(self).wf(),
            final(self).is_saved_from(old(self)),
    {
        let finished: bool = match self.mode {
            TimerMode::Finished { .. } => true,
            _ => false,
        };
        self.save_golds();
        let ghost merged = *self;
        if finished {
            self.save_personal_best();
        }
        let ghost saved = *self;
        if finished {
            self.split_file.completed += 1;
        }
        self.split_file.attempts += 1;
        proof {
            Self::lemma_ledger_wf_from(&self.split_file, &saved.split_file);
            assert(merged.beats_personal_best() == old(self).beats_personal_best());
            assert(merged.split_times() == old(self).split_times());
            assert(self.split_file.gold_times() == saved.split_file.gold_times());
            assert(self.split_file.pb_times() == saved.split_file.pb_times());
        }
        self.reset_to_initial_mode();
        assert(self.split_file.gold_times() == old(self).merged_golds());
        assert(self.split_file.pb_times() == if finished && old(self).beats_personal_best() {
            old(self).split_times()
        } else {
            old(self).split_file.pb_times()
        });
    }

    /// Records a split at `now` in a run that began at `start_time`.
    fn record_split(&mut self, start_time: Instant, now: Instant)
        requires
            old(self).wf(),
            old(self).mode == (TimerMode::Running { start_time }),
            old(self).admits(now),
        ensures
            final(self).wf(),
            final(self).admits(now),
            final(self).follows(old(self), Action::Split, now),
    {
        let elapsed = now.duration_since(start_time);
        self.splits.push(Some(elapsed));
        if self.splits.len() == self.split_file.split_names.len() {
            self.mode = TimerMode::Finished { start_time };
        }
        proof {
            assert(self.split_times() =~= old(self).split_times().push(old(self).elapsed(now)));
            assert forall|i: int, j: int| 0 <= i < j < self.splits.len() implies no_later(
                #[trigger] self.splits[i],
                #[trigger] self.splits[j],
            ) by {
                assert(within(old(self).splits[i], Self::since(start_time, now)));
                if j < old(self).splits.len() {
                    assert(no_later(old(self).splits[i], old(self).splits[j]));
                }
            }
            assert forall|i: int| 0 <= i < self.splits.len() implies within(
                #[trigger] self.splits[i],
                Self::since(start_time, now),
            ) by {
                if i < old(self).splits.len() {
                    assert(within(old(self).splits[i], Self::since(start_time, now)));
                }
            }
        }
    }

    /// Takes one action at the clock reading `now`; actions that mean
    /// nothing in the current phase are ignored. Returns whether the ledger
    /// has changed and is to be written out.
    pub fn apply_action(&mut self, action: Action, now: Instant) -> (save: bool)
        requires
            old(self).wf(),
            old(self).accepts(action, now),
        ensures
            final(self).wf(),
            final(self).admits(now),
            final(self).follows(old(self), action, now),
            save == old(self).saves(action),
    {
        match self.mode {
            TimerMode::Initial => match action {
                Action::Split => {
                    self.mode = TimerMode::Running { start_time: now };
                    proof {
                        self.lemma_splits_kept(old(self));
                    }
                    false
                },
                _ => false,
            },
            TimerMode::Running { start_time } => match action {
                Action::Split => {
                    self.record_split(start_time, now);
                    false
                },
                Action::UndoSplit => {
                    if self.splits.len() == 0 {
                        self.reset_to_initial_mode();
                    } else {
                        self.splits.pop();
                        proof {
                            self.lemma_splits_kept(old(self));
                        }
                    }
                    false
                },
                Action::DeleteSplit => {
                    let len: usize = self.splits.len();
                    if len > 0 {
                        self.splits.set(len - 1, None);
                        proof {
                            self.lemma_splits_kept(old(self));
                        }
                    }
                    false
                },
                Action::ResetAndSave => {
                    self.reset_and_save();
                    true
                },
                Action::ResetAndDelete => {
                    self.reset_to_initial_mode();
                    false
                },
                Action::Pause => {
                    self.mode = TimerMode::Paused {
                        elapsed_at_pause: now.duration_since(start_time),
                    };
                    proof {
                        self.lemma_splits_kept(old(self));
                    }
                    false
                },
            },
            TimerMode::Paused { elapsed_at_pause } => match action {
                Action::Pause => {
                    match now.checked_sub(elapsed_at_pause) {
                        Some(start_time) => {
                            self.mode = TimerMode::Running { start_time };
                            proof {
                                self.lemma_splits_kept(old(self));
                            }
                        },
                        None => {},
                    }
                    false
                },
                _ => false,
            },
            TimerMode::Finished { start_time } => match action {
                Action::UndoSplit => {
                    self.splits.pop();
                    self.mode = TimerMode::Running { start_time };
                    proof {
                        self.lemma_splits_kept(old(self));
                    }
                    false
                },
                Action::ResetAndSave => {
                    self.reset_and_save();
                    true
                },
                Action::ResetAndDelete => {
                    self.reset_to_initial_mode();
                    false
                },
                _ => false,
            },
        }
    }

    fn reset_to_initial_mode(&mut self)
        requires
            old(self).split_file.wf(),
        ensures
            final(self).wf(),
            final(self).mode == TimerMode::Initial,
            final(self).splits@.len() == 0,
            final(self).split_file == old(self).split_file,
            final(self).anim_ref_time == old(self).anim_ref_time,
    {
        self.mode = TimerMode::Initial;
        self.splits = Vec::new();
    }
}

/// A split starts a run that has not begun; in a run under way it records
/// one more split, and finishes the run exactly when that is the last of the
/// run's splits. Undoing a split after the finish puts the run under way
/// again, with one split fewer.
pub proof fn lemma_split_and_undo(before: &TimerState, after: &TimerState, now: Instant)
    requires
        before.wf(),
    ensures
        after.follows(before, Action::Split, now) ==> match before.mode {
            TimerMode::Initial => after.mode is Running && after.splits.len() == 0,
            TimerMode::Running { .. } => {
                &&& after.splits.len() == before.splits.len() + 1
                &&& after.splits.len() < before.split_file.len() ==> after.mode == before.mode
                &&& after.splits.len() == before.split_file.len() ==> after.mode is Finished
            },
            _ => after.mode == before.mode && after.splits.len() == before.splits.len(),
        },
        after.follows(before, Action::UndoSplit, now) && before.mode is Finished ==> after.mode
            is Running && after.splits.len() == before.split_file.len() - 1,
{
    if after.follows(before, Action::Split, now) && before.mode is Running {
        assert(after.split_times().len() == before.split_times().len() + 1);
    }
}

/// The golds that saving a run leaves are the best times of the run's
/// summary, whenever the summary is made.
pub proof fn lemma_merged_golds_are_the_summary(timer: &TimerState, now: Instant, i: int)
    requires
        timer.wf(),
        0 <= i < timer.split_file.len(),
    ensures
        timer.merged_golds()[i] == crate::utils::run_summary(timer, now, i).gold,
{
    let live = timer.live_times(now);
    let recorded = timer.split_times();
    if i < timer.splits.len() {
        assert(live[i] == recorded[i]);
        if i > 0 {
            assert(live[i - 1] == recorded[i - 1]);
        }
    }
}

/// The time that the run took for segment `i`, where it has completed the
/// segment and recorded both its ends.
pub open spec fn completed_segment(timer: &TimerState, i: int) -> Option<nat> {
    if i < timer.splits.len() {
        segment_at(timer.split_times(), i)
    } else {
        None
    }
}

/// Saving a run puts the run's time for a segment in place of the gold
/// where the run completed the segment in less than the gold, or there was
/// no gold; it leaves every other gold as it is. No gold gets longer, and
/// none is lost.
pub proof fn lemma_saved_golds(before: &TimerState, after: &TimerState, i: int)
    requires
        before.wf(),
        after.is_saved_from(before),
        0 <= i < before.split_file.len(),
    ensures
        after.split_file.gold_times()[i] == match (
            completed_segment(before, i),
            before.split_file.gold_times()[i],
        ) {
            (Some(run), Some(gold)) => Some(
                if run < gold {
                    run
                } else {
                    gold
                },
            ),
            (Some(run), None) => Some(run),
            (None, gold) => gold,
        },
        before.split_file.gold_times()[i] matches Some(gold) ==> after.split_file.gold_times()[i]
            matches Some(merged) && merged <= gold,
{
}

/// Saving a finished run whose last split is earlier than the personal
/// best's, or that finds no last split in the personal best, puts the run's
/// splits in place of the personal best; saving any other run leaves the
/// personal best as it is.
pub proof fn lemma_saved_personal_best(before: &TimerState, after: &TimerState)
    requires
        before.wf(),
        after.is_saved_from(before),
    ensures
        after.split_file.pb_times() == if before.mode is Finished && before.beats_personal_best() {
            before.split_times()
        } else {
            before.split_file.pb_times()
        },
        before.mode is Finished ==> (before.beats_personal_best() <==> match (
            before.splits[before.split_file.len() - 1],
            before.split_file.personal_best.splits[before.split_file.len() - 1],
        ) {
            (Some(run), Some(best)) => run@ < best.time@,
            (Some(run), None) => true,
            (None, _) => false,
        }),
{
}

/// The actions that the first `n` of the keys held ask for: for every key
/// that was not held the frame before and that is bound, in the order of the
/// keys, the action it is bound to.
pub open spec fn triggered(
    held: Seq<u32>,
    prev: Seq<u32>,
    hotkeys: Map<u32, Action>,
    n: nat,
) -> Seq<Action>
    decreases n,
{
    if n == 0 || n > held.len() {
        Seq::empty()
    } else {
        let before = triggered(held, prev, hotkeys, (n - 1) as nat);
        let key = held[n - 1];
        if !prev.contains(key) && hotkeys.contains_key(key) {
            before.push(hotkeys[key])
        } else {
            before
        }
    }
}

fn holds_key(keys: &Vec<u32>, key: u32) -> (held: bool)
    ensures
        held == keys@.contains(key),
{
    let mut i: usize = 0;
    while i < keys.len()
        invariant
            i <= keys.len(),
            forall|j: int| 0 <= j < i ==> keys@[j] != key,
        decreases keys.len() - i,
    {
        if keys[i] == key {
            return true;
        }
        i += 1;
    }
    false
}

/// The actions that the keys held ask for: a key asks for its action in the
/// frame in which it goes down.
pub fn triggered_actions(
    held: &Vec<u32>,
    prev: &Vec<u32>,
    hotkeys: &HashMap<u32, Action>,
) -> (actions: Vec<Action>)
    ensures
        actions@ == triggered(held@, prev@, hotkeys@, held@.len()),
{
    let mut actions: Vec<Action> = Vec::new();
    let mut i: usize = 0;
    while i < held.len()
        invariant
            i <= held.len(),
            actions@ == triggered(held@, prev@, hotkeys@, i as nat),
        decreases held.len() - i,
    {
        let key: u32 = held[i];
        if !holds_key(prev, key) {
            match hotkeys.get(&key) {
                Some(action) => {
                    actions.push(*action);
                },
                None => {},
            }
        }
        i += 1;
    }
    actions
}

/// The timer: the session, the settings, the renderer, and the keys that
/// were held in the last frame.
pub struct Timer {
    pub renderer: Renderer,
    pub timer_state: TimerState,
    pub settings: Settings,
    pub prev_keys: Vec<u32>,
}

/// What one frame brings in: the characters typed at the terminal, the codes
/// of the keys held, the reading of the clock, the size of the terminal, and
/// the colour that marks a new best at this moment.
pub struct Frame {
    pub typed: Vec<char>,
    pub held_keys: Vec<u32>,
    pub now: Instant,
    pub width: u16,
    pub height: u16,
    pub rainbow: Color,
}

/// What one frame asks for: whether to go on, whether to write out the
/// ledger, and the commands to send to the terminal.
pub struct Update {
    pub keep_running: bool,
    pub save: bool,
    pub commands: Vec<Command>,
}

/// Whether the sessions `states` are those that the session goes through as
/// it takes `actions` at `now`, one after the other. An action that the
/// session cannot take is passed over.
pub open spec fn runs_through(states: Seq<TimerState>, actions: Seq<Action>, now: Instant) -> bool {
    &&& states.len() == actions.len() + 1
    &&& forall|i: int|
        0 <= i < actions.len() ==> if (#[trigger] states[i]).accepts(actions[i], now) {
            states[i + 1].follows(&states[i], actions[i], now)
        } else {
            states[i + 1] == states[i]
        }
}

/// Whether one of the actions saves the run as the session goes through
/// `states`.
pub open spec fn saves_on_the_way(states: Seq<TimerState>, actions: Seq<Action>, now: Instant)
    -> bool {
    exists|i: int|
        0 <= i < actions.len() && (#[trigger] states[i]).accepts(actions[i], now)
            && states[i].saves(actions[i])
}

impl Timer {
    /// What the timer keeps true of itself: that its session is well
    /// formed.
    pub open spec fn wf(&self) -> bool {
        self.timer_state.wf()
    }

    /// A timer for the run of a split file, at the clock reading `now`;
    /// fails where the split file cannot be loaded.
    pub fn new(split_file: SplitFile, settings: Settings, now: Instant) -> (timer: Result<
        Timer,
        LoadError,
    >)
        ensures
            timer is Ok <==> split_file.loadable(),
            timer matches Ok(t) ==> {
                &&& t.wf()
                &&& t.timer_state.split_file == split_file
                &&& t.timer_state.mode == TimerMode::Initial
                &&& t.timer_state.splits@.len() == 0
                &&& t.timer_state.anim_ref_time == now
                &&& t.settings == settings
                &&& t.prev_keys@.len() == 0
                &&& !t.renderer.initialized()
                &&& t.renderer.shown() is None
            },
            timer matches Err(e) ==> {
                ||| split_file.count_error() == Some(e)
                ||| split_file.count_error() is None && exists|i: int|
                    0 <= i < split_file.len() && #[trigger] split_file.slot_error(i) == Some(e)
                        && forall|j: int| 0 <= j < i ==> #[trigger] split_file.slot_error(j) is None
            },
    {
        match read_split_file(split_file) {
            Ok(split_file) => Ok(
                Timer {
                    renderer: Renderer::new(),
                    timer_state: TimerState::new(split_file, now),
                    settings,
                    prev_keys: Vec::new(),
                },
            ),
            Err(e) => Err(e),
        }
    }

    /// Takes one action at the clock reading `now`. Returns whether the
    /// ledger has changed and is to be written out.
    pub fn apply_action(&mut self, action: Action, now: Instant) -> (save: bool)
        requires
            old(self).wf(),
            old(self).timer_state.accepts(action, now),
        ensures
            final(self).wf(),
            final(self).timer_state.admits(now),
            final(self).timer_state.follows(&old(self).timer_state, action, now),
            save == old(self).timer_state.saves(action),
            final(self).renderer == old(self).renderer,
            final(self).settings == old(self).settings,
            final(self).prev_keys == old(self).prev_keys,
    {
        self.timer_state.apply_action(action, now)
    }

    /// Takes the actions one after the other at the clock reading `now`,
    /// passing over those that the session cannot take. Returns whether the
    /// ledger has changed and is to be written out, and the sessions gone
    /// through.
    fn apply_actions(&mut self, actions: &Vec<Action>, now: Instant) -> (out: (
        bool,
        Ghost<Seq<TimerState>>,
    ))
        requires
            old(self).wf(),
            old(self).timer_state.admits(now),
        ensures
            final(self).wf(),
            final(self).timer_state.admits(now),
            final(self).renderer == old(self).renderer,
            final(self).settings == old(self).settings,
            final(self).prev_keys == old(self).prev_keys,
            runs_through(out.1@, actions@, now),
            out.1@[0] == old(self).timer_state,
            out.1@[actions@.len() as int] == final(self).timer_state,
            out.0 == saves_on_the_way(out.1@, actions@, now),
    {
        let ghost mut states: Seq<TimerState> = seq![self.timer_state];
        let mut save: bool = false;
        let mut i: usize = 0;
        while i < actions.len()
            invariant
                i <= actions.len(),
                self.wf(),
                self.timer_state.admits(now),
                self.renderer == old(self).renderer,
                self.settings == old(self).settings,
                self.prev_keys == old(self).prev_keys,
                states.len() == i + 1,
                states[0] == old(self).timer_state,
                states[i as int] == self.timer_state,
                runs_through(states, actions@.take(i as int), now),
                save == saves_on_the_way(states, actions@.take(i as int), now),
            decreases actions.len() - i,
        {
            let action: Action = actions[i];
            let ghost earlier = states;
            let ghost done_before = actions@.take(i as int);
            let ghost done = actions@.take(i + 1);
            let ghost saved_before = save;
            let accepted: bool = self.timer_state.can_apply(action, now);
            if accepted {
                let saved = self.timer_state.apply_action(action, now);
                if saved {
                    save = true;
                }
            }
            proof {
                states = states.push(self.timer_state);
                assert forall|k: int| 0 <= k < done.len() implies if (#[trigger] states[k]).accepts(
                    done[k],
                    now,
                ) {
                    states[k + 1].follows(&states[k], done[k], now)
                } else {
                    states[k + 1] == states[k]
                } by {
                    if k < i {
                        assert(earlier[k].accepts(done_before[k], now) == states[k].accepts(
                            done[k],
                            now,
                        ));
                    }
                }
                if saved_before {
                    let k = choose|k: int|
                        0 <= k < done_before.len() && (#[trigger] earlier[k]).accepts(
                            done_before[k],
                            now,
                        ) && earlier[k].saves(done_before[k]);
                    assert(states[k].accepts(done[k], now) && states[k].saves(done[k]));
                } else if save {
                    assert(states[i as int].accepts(done[i as int], now) && states[i as int].saves(
                        done[i as int],
                    ));
                } else {
                    assert forall|k: int| 0 <= k < done.len() && (#[trigger] states[k]).accepts(
                        done[k],
                        now,
                    ) implies !states[k].saves(done[k]) by {
                        if k < i {
                            assert(earlier[k].accepts(done_before[k], now));
                        }
                    }
                }
            }
            i += 1;
        }
        assert(actions@.take(actions@.len() as int) =~= actions@);
        (save, Ghost(states))
    }

    /// The actions that a frame asks for: those of the keys that go down in
    /// it.
    pub open spec fn actions_of(&self, frame: &Frame) -> Seq<Action> {
        triggered(
            frame.held_keys@,
            self.prev_keys@,
            self.settings.global_hotkeys@,
            frame.held_keys@.len(),
        )
    }

    /// The frame that the terminal shows after the timer has rendered its
    /// session as it stands at the frame's clock reading.
    pub open spec fn frame_shown(&self, frame: &Frame) -> crate::rotty::buffer::BufferView {
        frame_of(
            timer_view(
                &self.timer_state,
                run_summaries(&self.timer_state, frame.now),
                frame.now,
                self.settings.theme,
                frame.rainbow,
            ),
            frame.width,
            frame.height,
            color_of_hex(self.settings.theme.normal_text@),
            color_of_hex(self.settings.theme.bg@),
        )
    }

    /// Runs one frame. Where a `q` was typed, nothing happens and the timer
    /// asks to stop. Otherwise the keys that went down since the last frame
    /// have their actions taken in order, an action that the session cannot
    /// take being passed over, and the session is rendered: the commands
    /// make the terminal show it.
    pub fn update(&mut self, frame: &Frame) -> (update: Update)
        requires
            old(self).wf(),
            old(self).timer_state.admits(frame.now),
        ensures
            final(self).wf(),
            final(self).timer_state.admits(frame.now),
            final(self).settings == old(self).settings,
            update.keep_running == !frame.typed@.contains('q'),
            !update.keep_running ==> {
                &&& *final(self) == *old(self)
                &&& !update.save
                &&& update.commands@.len() == 0
            },
            update.keep_running ==> {
                &&& final(self).prev_keys@ == frame.held_keys@
                &&& exists|states: Seq<TimerState>|
                    #![trigger runs_through(states, old(self).actions_of(frame), frame.now)]
                    {
                        &&& runs_through(states, old(self).actions_of(frame), frame.now)
                        &&& states[0] == old(self).timer_state
                        &&& states.last() == final(self).timer_state
                        &&& update.save == saves_on_the_way(
                            states,
                            old(self).actions_of(frame),
                            frame.now,
                        )
                    }
                &&& final(self).renderer.initialized()
                &&& final(self).renderer.shown() == Some(final(self).frame_shown(frame))
                &&& command_views(update.commands@) == (if old(self).renderer.initialized() {
                    Seq::<CommandView>::empty()
                } else {
                    setup_commands()
                }) + seq![CommandView::ResetAttributes] + final(self).frame_shown(frame).diff(
                    old(self).renderer.baseline(frame.width, frame.height),
                    reset_pen(),
                )
            },
    {
        let mut quit: bool = false;
        let mut i: usize = 0;
        while i < frame.typed.len()
            invariant
                i <= frame.typed.len(),
                quit == frame.typed@.take(i as int).contains('q'),
            decreases frame.typed.len() - i,
        {
            let ghost before = frame.typed@.take(i as int);
            let ghost after = frame.typed@.take(i + 1);
            assert(after =~= before.push(frame.typed@[i as int]));
            proof {
                if before.contains('q') {
                    let k = choose|k: int| 0 <= k < before.len() && before[k] == 'q';
                    assert(after[k] == 'q');
                }
                if after.contains('q') && frame.typed@[i as int] != 'q' {
                    let k = choose|k: int| 0 <= k < after.len() && after[k] == 'q';
                    assert(before[k] == 'q');
                }
            }
            if frame.typed[i] == 'q' {
                assert(after[i as int] == 'q');
                quit = true;
            }
            i += 1;
        }
        assert(frame.typed@.take(frame.typed@.len() as int) =~= frame.typed@);
        if quit {
            return Update { keep_running: false, save: false, commands: Vec::new() };
        }
        let actions = triggered_actions(
            &frame.held_keys,
            &self.prev_keys,
            &self.settings.global_hotkeys,
        );
        self.prev_keys = frame.held_keys.clone();
        let (save, Ghost(states)) = self.apply_actions(&actions, frame.now);
        assert(runs_through(states, old(self).actions_of(frame), frame.now));

        self.renderer.set_default_colors(
            parse_color(self.settings.theme.normal_text),
            parse_color(self.settings.theme.bg),
        );
        let block = render_view(
            &self.timer_state,
            &self.settings.theme,
            frame.now,
            frame.rainbow,
        );
        let commands = self.renderer.render(&block, frame.width, frame.height);
        Update { keep_running: true, save, commands }
    }
}

} // verus!
