//! The split file: a run's definition and the ledger of its best times.

use vstd::prelude::*;
use crate::duration::Duration;
use crate::duration::opt_nanos;
use crate::text::push_text;
use crate::text::string_from_chars;
use crate::utils::Prefix;
use crate::utils::Sign;
use crate::utils::decimal;
use crate::utils::format_duration_chars;
use crate::utils::format_duration_spec;
use crate::utils::push_decimal;

verus! {

/// The best time ever recorded for one segment.
#[derive(Clone, Copy, Debug, PartialEq, Eq, Structural)]
pub struct Gold {
    pub duration: Duration,
}

/// The time from the start of the run at which a split was reached.
#[derive(Clone, Copy, Debug, PartialEq, Eq, Structural)]
pub struct Split {
    pub time: Duration,
}

/// The best completed run, one slot for each split.
#[derive(Debug)]
pub struct PersonalBest {
    pub attempt: u32,
    pub splits: Vec<Option<Split>>,
}

/// A run's definition and the ledger of its progress.
#[derive(Debug)]
pub struct SplitFile {
    pub title: String,
    pub category: String,
    pub attempts: u32,
    pub completed: u32,
    pub split_names: Vec<String>,
    pub golds: Vec<Option<Gold>>,
    pub personal_best: PersonalBest,
}

/// Why a split file is refused.
#[derive(Clone, Copy, Debug, PartialEq, Eq, Structural)]
pub enum LoadError {
    /// There are no split names.
    NoSplitNames,
    /// The personal best has no slots.
    NoPersonalBest,
    /// There are no gold slots.
    NoGolds,
    /// There are `names` split names but `golds` gold slots.
    GoldCount { names: usize, golds: usize },
    /// There are `names` split names but `splits` personal-best slots.
    PersonalBestCount { names: usize, splits: usize },
    /// The last slot of the personal best is empty.
    LastSplitMissing,
    /// The personal-best split `number` (counted from one), at `time`, is
    /// earlier than the split before it.
    SplitOutOfOrder { number: usize, time: Duration },
    /// The gold `number` (counted from one), of length `gold`, is longer
    /// than the personal best's segment.
    GoldTooLong { number: usize, gold: Duration },
}

impl LoadError {
    /// What the error says.
    pub open spec fn message_spec(self) -> Seq<char> {
        match self {
            LoadError::NoSplitNames => "Split names cannot be empty"@,
            LoadError::NoPersonalBest => "Personal best cannot be empty"@,
            LoadError::NoGolds => "Golds cannot be empty"@,
            LoadError::GoldCount { names, golds } => "Split name count ("@ + decimal(names as nat)
                + ") does not match gold count ("@ + decimal(golds as nat) + ")"@,
            LoadError::PersonalBestCount { names, splits } => "Split name count ("@ + decimal(
                names as nat,
            ) + ") does not match personal best split count ("@ + decimal(splits as nat) + ")"@,
            LoadError::LastSplitMissing => "Last split of personal best cannot be null"@,
            LoadError::SplitOutOfOrder { number, time } => "Split "@ + decimal(number as nat)
                + " ("@ + format_duration_spec(time@, 3, Sign::Positive, Prefix::NoneOrMinus)
                + ") is earlier than previous split"@,
            LoadError::GoldTooLong { number, gold } => "Gold "@ + decimal(number as nat) + " ("@
                + format_duration_spec(gold@, 3, Sign::Positive, Prefix::NoneOrMinus)
                + ") is longer than the PB segment"@,
        }
    }

    /// What the error says: which slot is wrong, counted from one, and the
    /// offending time.
    pub fn message(&self) -> (text: String)
        ensures
            text@ == self.message_spec(),
    {
        let mut out: Vec<char> = Vec::new();
        match *self {
            LoadError::NoSplitNames => {
                push_text(&mut out, "Split names cannot be empty");
            },
            LoadError::NoPersonalBest => {
                push_text(&mut out, "Personal best cannot be empty");
            },
            LoadError::NoGolds => {
                push_text(&mut out, "Golds cannot be empty");
            },
            LoadError::GoldCount { names, golds } => {
                push_text(&mut out, "Split name count (");
                push_decimal(&mut out, names as u64);
                push_text(&mut out, ") does not match gold count (");
                push_decimal(&mut out, golds as u64);
                push_text(&mut out, ")");
            },
            LoadError::PersonalBestCount { names, splits } => {
                push_text(&mut out, "Split name count (");
                push_decimal(&mut out, names as u64);
                push_text(&mut out, ") does not match personal best split count (");
                push_decimal(&mut out, splits as u64);
                push_text(&mut out, ")");
            },
            LoadError::LastSplitMissing => {
                push_text(&mut out, "Last split of personal best cannot be null");
            },
            LoadError::SplitOutOfOrder { number, time } => {
                push_text(&mut out, "Split ");
                push_decimal(&mut out, number as u64);
                push_text(&mut out, " (");
                let mut shown = format_duration_chars(
                    time,
                    3,
                    Sign::Positive,
                    Prefix::NoneOrMinus,
                );
                out.append(&mut shown);
                push_text(&mut out, ") is earlier than previous split");
            },
            LoadError::GoldTooLong { number, gold } => {
                push_text(&mut out, "Gold ");
                push_decimal(&mut out, number as u64);
                push_text(&mut out, " (");
                let mut shown = format_duration_chars(
                    gold,
                    3,
                    Sign::Positive,
                    Prefix::NoneOrMinus,
                );
                out.append(&mut shown);
                push_text(&mut out, ") is longer than the PB segment");
            },
        }
        assert(out@ =~= self.message_spec());
        string_from_chars(&out)
    }
}

impl SplitFile {
    /// How many splits the run has.
    pub open spec fn len(&self) -> nat {
        self.split_names.len() as nat
    }

    /// The personal best's time at split `i`, if it has one.
    pub open spec fn pb_split(&self, i: int) -> Option<Duration> {
        match self.personal_best.splits[i] {
            Some(split) => Some(split.time),
            None => None,
        }
    }

    /// The stored gold of segment `i`, if there is one.
    pub open spec fn gold(&self, i: int) -> Option<Duration> {
        match self.golds[i] {
            Some(gold) => Some(gold.duration),
            None => None,
        }
    }

    /// The personal best's split times, in nanoseconds.
    pub open spec fn pb_times(&self) -> Seq<Option<nat>> {
        Seq::new(self.personal_best.splits.len() as nat, |i: int| opt_nanos(self.pb_split(i)))
    }

    /// The stored golds, in nanoseconds.
    pub open spec fn gold_times(&self) -> Seq<Option<nat>> {
        Seq::new(self.golds.len() as nat, |i: int| opt_nanos(self.gold(i)))
    }

    /// The length of the personal best's segment `i`: the time from the split
    /// before it (from the start, for the first) to split `i`, where both
    /// are there.
    pub open spec fn pb_segment(&self, i: int) -> Option<nat> {
        if i == 0 {
            opt_nanos(self.pb_split(0))
        } else {
            match (self.pb_split(i), self.pb_split(i - 1)) {
                (Some(t), Some(before)) => Some((t@ - before@) as nat),
                _ => None,
            }
        }
    }

    /// Whether the personal best's split `i` is earlier than the one before
    /// it.
    pub open spec fn split_out_of_order(&self, i: int) -> bool {
        i > 0 && match (self.pb_split(i), self.pb_split(i - 1)) {
            (Some(t), Some(before)) => t@ < before@,
            _ => false,
        }
    }

    /// Whether the stored gold of segment `i` is longer than the personal
    /// best's segment `i`.
    pub open spec fn gold_too_long(&self, i: int) -> bool {
        match (self.gold(i), self.pb_segment(i)) {
            (Some(gold), Some(segment)) => gold@ > segment,
            _ => false,
        }
    }

    /// What every use of the ledger relies on: there is at least one split,
    /// the golds and the personal best have one slot for each, and no
    /// personal-best split is earlier than one directly before it.
    pub open spec fn wf(&self) -> bool {
        &&& self.len() > 0
        &&& self.golds.len() == self.len()
        &&& self.personal_best.splits.len() == self.len()
        &&& forall|i: int| 0 <= i < self.len() ==> !#[trigger] self.split_out_of_order(i)
    }

    /// What is wrong with the numbers of slots, if anything.
    pub open spec fn count_error(&self) -> Option<LoadError> {
        if self.split_names.len() == 0 {
            Some(LoadError::NoSplitNames)
        } else if self.personal_best.splits.len() == 0 {
            Some(LoadError::NoPersonalBest)
        } else if self.golds.len() == 0 {
            Some(LoadError::NoGolds)
        } else if self.golds.len() != self.split_names.len() {
            Some(
                LoadError::GoldCount { names: self.split_names.len(), golds: self.golds.len() },
            )
        } else if self.personal_best.splits.len() != self.split_names.len() {
            Some(
                LoadError::PersonalBestCount {
                    names: self.split_names.len(),
                    splits: self.personal_best.splits.len(),
                },
            )
        } else if self.personal_best.splits[self.len() - 1] is None {
            Some(LoadError::LastSplitMissing)
        } else {
            None
        }
    }

    /// What is wrong with slot `i`, if anything: a split out of order comes
    /// before a gold that is too long.
    pub open spec fn slot_error(&self, i: int) -> Option<LoadError> {
        if self.split_out_of_order(i) {
            Some(
                LoadError::SplitOutOfOrder {
                    number: (i + 1) as usize,
                    time: self.pb_split(i).unwrap(),
                },
            )
        } else if self.gold_too_long(i) {
            Some(LoadError::GoldTooLong { number: (i + 1) as usize, gold: self.gold(i).unwrap() })
        } else {
            None
        }
    }

    /// Whether the ledger is one that loading accepts.
    pub open spec fn loadable(&self) -> bool {
        &&& self.count_error() is None
        &&& forall|i: int| 0 <= i < self.len() ==> #[trigger] self.slot_error(i) is None
    }

    /// A ledger that loading accepts is well formed.
    pub proof fn lemma_loadable_wf(&self)
        requires
            self.loadable(),
        ensures
            self.wf(),
            self.personal_best.splits[self.len() - 1] is Some,
            forall|i: int| 0 <= i < self.len() ==> !#[trigger] self.gold_too_long(i),
    {
        assert forall|i: int| 0 <= i < self.len() implies !#[trigger] self.split_out_of_order(
            i,
        ) by {
            assert(self.slot_error(i) is None);
        }
        assert forall|i: int| 0 <= i < self.len() implies !#[trigger] self.gold_too_long(i) by {
            assert(self.slot_error(i) is None);
        }
    }

    /// Whether the ledger is well formed.
    pub fn is_wf(&self) -> (ok: bool)
        ensures
            ok == self.wf(),
    {
        let n: usize = self.split_names.len();
        if n == 0 || self.golds.len() != n || self.personal_best.splits.len() != n {
            return false;
        }
        let mut i: usize = 1;
        while i < n
            invariant
                1 <= i <= n == self.len(),
                self.golds.len() == n,
                self.personal_best.splits.len() == n,
                forall|j: int| 0 <= j < i ==> !#[trigger] self.split_out_of_order(j),
            decreases n - i,
        {
            match (self.personal_best.splits[i], self.personal_best.splits[i - 1]) {
                (Some(split), Some(before)) => {
                    if split.time.lt(&before.time) {
                        assert(self.split_out_of_order(i as int));
                        return false;
                    }
                },
                _ => {},
            }
            i += 1;
        }
        true
    }

    /// Tells whether the ledger can be loaded: looks at the numbers of slots
    /// first, then at the slots in order, and reports the first thing that is
    /// wrong.
    pub fn validate(&self) -> (checked: Result<(), LoadError>)
        ensures
            checked is Ok <==> self.loadable(),
            checked matches Err(e) ==> {
                ||| self.count_error() == Some(e)
                ||| self.count_error() is None && exists|i: int|
                    0 <= i < self.len() && #[trigger] self.slot_error(i) == Some(e) && forall|
                        j: int,
                    |
                        0 <= j < i ==> #[trigger] self.slot_error(j) is None
            },
    {
        let n: usize = self.split_names.len();
        if n == 0 {
            return Err(LoadError::NoSplitNames);
        }
        if self.personal_best.splits.len() == 0 {
            return Err(LoadError::NoPersonalBest);
        }
        if self.golds.len() == 0 {
            return Err(LoadError::NoGolds);
        }
        if self.golds.len() != n {
            return Err(LoadError::GoldCount { names: n, golds: self.golds.len() });
        }
        if self.personal_best.splits.len() != n {
            return Err(
                LoadError::PersonalBestCount { names: n, splits: self.personal_best.splits.len() },
            );
        }
        if self.personal_best.splits[n - 1].is_none() {
            return Err(LoadError::LastSplitMissing);
        }
        let mut i: usize = 0;
        while i < n
            invariant
                i <= n == self.len(),
                self.golds.len() == n,
                self.personal_best.splits.len() == n,
                self.count_error() is None,
                forall|j: int| 0 <= j < i ==> #[trigger] self.slot_error(j) is None,
            decreases n - i,
        {
            let segment: Option<Duration> = match self.personal_best.splits[i] {
                None => None,
                Some(split) => if i == 0 {
                    Some(split.time)
                } else {
                    match self.personal_best.splits[i - 1] {
                        None => None,
                        Some(before) => {
                            match split.time.checked_sub(before.time) {
                                Some(segment) => Some(segment),
                                None => {
                                    assert(self.split_out_of_order(i as int));
                                    assert(self.pb_split(i as int) == Some(split.time));
                                    assert(self.slot_error(i as int) == Some(
                                        LoadError::SplitOutOfOrder {
                                            number: (i + 1) as usize,
                                            time: split.time,
                                        },
                                    ));
                                    return Err(
                                        LoadError::SplitOutOfOrder {
                                            number: i + 1,
                                            time: split.time,
                                        },
                                    );
                                },
                            }
                        },
                    }
                },
            };
            assert(!self.split_out_of_order(i as int));
            assert(opt_nanos(segment) == self.pb_segment(i as int));
            match (self.golds[i], segment) {
                (Some(gold), Some(segment)) => {
                    if segment.lt(&gold.duration) {
                        assert(self.gold_too_long(i as int));
                        assert(self.gold(i as int) == Some(gold.duration));
                        assert(self.slot_error(i as int) == Some(
                            LoadError::GoldTooLong { number: (i + 1) as usize, gold: gold.duration },
                        ));
                        return Err(LoadError::GoldTooLong { number: i + 1, gold: gold.duration });
                    }
                },
                _ => {},
            }
            assert(!self.gold_too_long(i as int));
            i += 1;
        }
        Ok(())
    }
}

/// Takes in a split file as it was decoded: returns it if it can be loaded,
/// else the first thing that is wrong with it.
pub fn read_split_file(split_file: SplitFile) -> (loaded: Result<SplitFile, LoadError>)
    ensures
        loaded is Ok <==> split_file.loadable(),
        loaded matches Ok(file) ==> file == split_file && file.wf(),
        loaded matches Err(e) ==> {
            ||| split_file.count_error() == Some(e)
            ||| split_file.count_error() is None && exists|i: int|
                0 <= i < split_file.len() && #[trigger] split_file.slot_error(i) == Some(e)
                    && forall|j: int| 0 <= j < i ==> #[trigger] split_file.slot_error(j) is None
        },
{
    match split_file.validate() {
        Ok(()) => {
            proof {
                split_file.lemma_loadable_wf();
            }
            Ok(split_file)
        },
        Err(e) => Err(e),
    }
}

} // verus!
