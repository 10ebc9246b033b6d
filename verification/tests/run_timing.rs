use flitter::duration::Duration;
use flitter::duration::Instant;
use flitter::settings::Action;
use flitter::split_file::Gold;
use flitter::split_file::PersonalBest;
use flitter::split_file::Split;
use flitter::split_file::SplitFile;
use flitter::timer_state::TimerMode;
use flitter::timer_state::TimerState;
use flitter::utils::get_run_summary;
use flitter::utils::SegSummary;

fn secs(s: u64) -> Duration {
    Duration::from_secs(s)
}

fn at(s: u64) -> Instant {
    Instant::at(secs(s))
}

fn ledger(golds: Vec<Option<u64>>, pb: Vec<Option<u64>>) -> SplitFile {
    SplitFile {
        title: "Game".to_string(),
        category: "Any%".to_string(),
        attempts: 7,
        completed: 3,
        split_names: (0..pb.len()).map(|i| format!("Split {}", i + 1)).collect(),
        golds: golds.into_iter().map(|g| g.map(|s| Gold { duration: secs(s) })).collect(),
        personal_best: PersonalBest {
            attempt: 2,
            splits: pb.into_iter().map(|t| t.map(|s| Split { time: secs(s) })).collect(),
        },
    }
}

fn session() -> TimerState {
    let file = ledger(vec![Some(5), None, Some(2)], vec![Some(10), Some(25), Some(40)]);
    assert_eq!(file.validate(), Ok(()));
    TimerState::new(file, at(0))
}

fn golds(timer: &TimerState) -> Vec<Option<Duration>> {
    timer.split_file.golds.iter().map(|g| g.map(|g| g.duration)).collect()
}

fn personal_best(timer: &TimerState) -> Vec<Option<Duration>> {
    timer.split_file.personal_best.splits.iter().map(|s| s.map(|s| s.time)).collect()
}

#[test]
fn summary_before_the_start() {
    let timer = session();
    let summary = get_run_summary(&timer, at(100));
    assert_eq!(summary.len(), 3);
    let pb_seg: Vec<_> = summary.iter().map(|s| s.pb_seg).collect();
    assert_eq!(pb_seg, vec![Some(secs(10)), Some(secs(15)), Some(secs(15))]);
    let pb_split: Vec<_> = summary.iter().map(|s| s.pb_split).collect();
    assert_eq!(pb_split, vec![Some(secs(10)), Some(secs(25)), Some(secs(40))]);
    let gold: Vec<_> = summary.iter().map(|s| s.gold).collect();
    assert_eq!(gold, vec![Some(secs(5)), None, Some(secs(2))]);
    for seg in &summary {
        assert_eq!(seg.live_split, None);
        assert_eq!(seg.live_seg, None);
        assert_eq!(seg.live_delta, None);
        assert_eq!(seg.gained, None);
        assert!(!seg.live_delta_neg && !seg.gained_neg && !seg.is_gold_new);
    }
}

#[test]
fn summary_during_a_run() {
    let mut timer = session();
    assert!(!timer.apply_action(Action::Split, at(100)));
    assert!(!timer.apply_action(Action::Split, at(104)));
    assert!(!timer.apply_action(Action::Split, at(130)));
    let summary = get_run_summary(&timer, at(133));
    assert_eq!(
        summary[0],
        SegSummary {
            live_split: Some(secs(4)),
            live_seg: Some(secs(4)),
            live_delta: Some(secs(6)),
            live_delta_neg: true,
            gained: Some(secs(6)),
            gained_neg: true,
            pb_split: Some(secs(10)),
            pb_seg: Some(secs(10)),
            gold: Some(secs(4)),
            is_gold_new: true,
        }
    );
    assert_eq!(
        summary[1],
        SegSummary {
            live_split: Some(secs(30)),
            live_seg: Some(secs(26)),
            live_delta: Some(secs(5)),
            live_delta_neg: false,
            gained: Some(secs(11)),
            gained_neg: false,
            pb_split: Some(secs(25)),
            pb_seg: Some(secs(15)),
            gold: Some(secs(26)),
            is_gold_new: false,
        }
    );
    // The split being run: its time runs, but it does not count for the gold.
    assert_eq!(
        summary[2],
        SegSummary {
            live_split: Some(secs(33)),
            live_seg: Some(secs(3)),
            live_delta: Some(secs(7)),
            live_delta_neg: true,
            gained: Some(secs(12)),
            gained_neg: true,
            pb_split: Some(secs(40)),
            pb_seg: Some(secs(15)),
            gold: Some(secs(2)),
            is_gold_new: false,
        }
    );
}

#[test]
fn summary_with_a_deleted_split() {
    let mut timer = session();
    timer.apply_action(Action::Split, at(100));
    timer.apply_action(Action::Split, at(104));
    timer.apply_action(Action::DeleteSplit, at(105));
    timer.apply_action(Action::Split, at(130));
    assert_eq!(timer.splits, vec![None, Some(secs(30))]);
    let summary = get_run_summary(&timer, at(131));
    assert_eq!(summary[0].live_split, None);
    assert_eq!(summary[0].live_seg, None);
    assert_eq!(summary[0].gold, Some(secs(5)));
    assert_eq!(summary[1].live_split, Some(secs(30)));
    assert_eq!(summary[1].live_seg, None);
    assert_eq!(summary[1].live_delta, Some(secs(5)));
    assert_eq!(summary[1].gained, None);
    assert_eq!(summary[1].gold, None);
    assert_eq!(summary[2].live_seg, Some(secs(1)));
}

#[test]
fn three_splits_finish_the_run() {
    let mut timer = session();
    assert_eq!(timer.mode, TimerMode::Initial);
    timer.apply_action(Action::Split, at(100));
    assert_eq!(timer.mode, TimerMode::Running { start_time: at(100) });
    assert_eq!(timer.splits, vec![]);
    timer.apply_action(Action::Split, at(108));
    assert_eq!(timer.mode, TimerMode::Running { start_time: at(100) });
    timer.apply_action(Action::Split, at(120));
    assert_eq!(timer.mode, TimerMode::Running { start_time: at(100) });
    timer.apply_action(Action::Split, at(138));
    assert_eq!(timer.mode, TimerMode::Finished { start_time: at(100) });
    assert_eq!(timer.splits, vec![Some(secs(8)), Some(secs(20)), Some(secs(38))]);
    // A further split means nothing after the finish.
    timer.apply_action(Action::Split, at(150));
    assert_eq!(timer.splits.len(), 3);

    timer.apply_action(Action::UndoSplit, at(151));
    assert_eq!(timer.mode, TimerMode::Running { start_time: at(100) });
    assert_eq!(timer.splits, vec![Some(secs(8)), Some(secs(20))]);
}

#[test]
fn undo_without_splits_goes_back_before_the_start() {
    let mut timer = session();
    timer.apply_action(Action::UndoSplit, at(1));
    assert_eq!(timer.mode, TimerMode::Initial);
    timer.apply_action(Action::Split, at(100));
    timer.apply_action(Action::Split, at(101));
    timer.apply_action(Action::UndoSplit, at(102));
    assert_eq!(timer.mode, TimerMode::Running { start_time: at(100) });
    assert_eq!(timer.splits, vec![]);
    timer.apply_action(Action::UndoSplit, at(103));
    assert_eq!(timer.mode, TimerMode::Initial);
}

#[test]
fn delete_overwrites_the_last_split() {
    let mut timer = session();
    timer.apply_action(Action::Split, at(100));
    timer.apply_action(Action::DeleteSplit, at(101));
    assert_eq!(timer.splits, vec![]);
    timer.apply_action(Action::Split, at(104));
    timer.apply_action(Action::Split, at(109));
    timer.apply_action(Action::DeleteSplit, at(110));
    assert_eq!(timer.splits, vec![Some(secs(4)), None]);
    assert_eq!(timer.mode, TimerMode::Running { start_time: at(100) });
}

#[test]
fn actions_that_mean_nothing_are_ignored() {
    let mut timer = session();
    for action in [
        Action::UndoSplit,
        Action::DeleteSplit,
        Action::ResetAndSave,
        Action::ResetAndDelete,
        Action::Pause,
    ] {
        assert!(!timer.apply_action(action, at(5)));
        assert_eq!(timer.mode, TimerMode::Initial);
        assert_eq!(timer.split_file.attempts, 7);
    }
    timer.apply_action(Action::Split, at(100));
    timer.apply_action(Action::Split, at(101));
    timer.apply_action(Action::Split, at(102));
    timer.apply_action(Action::Split, at(103));
    for action in [Action::Split, Action::DeleteSplit, Action::Pause] {
        assert!(!timer.apply_action(action, at(200)));
        assert_eq!(timer.mode, TimerMode::Finished { start_time: at(100) });
        assert_eq!(timer.splits.len(), 3);
    }
}

#[test]
fn pause_leaves_the_paused_time_out() {
    let mut timer = session();
    timer.apply_action(Action::Split, at(100));
    timer.apply_action(Action::Split, at(104));
    timer.apply_action(Action::Pause, at(110));
    assert_eq!(timer.mode, TimerMode::Paused { elapsed_at_pause: secs(10) });
    for action in [
        Action::Split,
        Action::UndoSplit,
        Action::DeleteSplit,
        Action::ResetAndSave,
        Action::ResetAndDelete,
    ] {
        assert!(!timer.apply_action(action, at(150)));
        assert_eq!(timer.mode, TimerMode::Paused { elapsed_at_pause: secs(10) });
        assert_eq!(timer.splits, vec![Some(secs(4))]);
    }
    let summary = get_run_summary(&timer, at(190));
    assert_eq!(summary[1].live_split, None);
    timer.apply_action(Action::Pause, at(200));
    assert_eq!(timer.mode, TimerMode::Running { start_time: at(190) });
    timer.apply_action(Action::Split, at(205));
    assert_eq!(timer.splits, vec![Some(secs(4)), Some(secs(15))]);
}

#[test]
fn saving_a_faster_run_replaces_the_personal_best() {
    let mut timer = session();
    timer.apply_action(Action::Split, at(100));
    timer.apply_action(Action::Split, at(108));
    timer.apply_action(Action::Split, at(120));
    timer.apply_action(Action::Split, at(138));
    assert!(timer.apply_action(Action::ResetAndSave, at(140)));
    assert_eq!(timer.mode, TimerMode::Initial);
    assert_eq!(timer.splits, vec![]);
    assert_eq!(timer.split_file.attempts, 8);
    assert_eq!(timer.split_file.completed, 4);
    assert_eq!(personal_best(&timer), vec![Some(secs(8)), Some(secs(20)), Some(secs(38))]);
    // Segments of 8, 12 and 18 seconds against golds of 5, none and 2.
    assert_eq!(golds(&timer), vec![Some(secs(5)), Some(secs(12)), Some(secs(2))]);
    assert_eq!(timer.split_file.personal_best.attempt, 2);
    assert_eq!(timer.split_file.title, "Game");
}

#[test]
fn saving_a_slower_run_keeps_the_personal_best() {
    let mut timer = session();
    timer.apply_action(Action::Split, at(100));
    timer.apply_action(Action::Split, at(103));
    timer.apply_action(Action::Split, at(120));
    timer.apply_action(Action::Split, at(140));
    assert!(timer.apply_action(Action::ResetAndSave, at(141)));
    assert_eq!(timer.split_file.attempts, 8);
    assert_eq!(timer.split_file.completed, 4);
    assert_eq!(personal_best(&timer), vec![Some(secs(10)), Some(secs(25)), Some(secs(40))]);
    assert_eq!(golds(&timer), vec![Some(secs(3)), Some(secs(17)), Some(secs(2))]);
}

#[test]
fn saving_an_unfinished_run_merges_its_golds_only() {
    let mut timer = session();
    timer.apply_action(Action::Split, at(100));
    timer.apply_action(Action::Split, at(101));
    assert!(timer.apply_action(Action::ResetAndSave, at(130)));
    assert_eq!(timer.mode, TimerMode::Initial);
    assert_eq!(timer.split_file.attempts, 8);
    assert_eq!(timer.split_file.completed, 3);
    assert_eq!(personal_best(&timer), vec![Some(secs(10)), Some(secs(25)), Some(secs(40))]);
    assert_eq!(golds(&timer), vec![Some(secs(1)), None, Some(secs(2))]);
}

#[test]
fn reset_and_delete_discards_the_run() {
    let mut timer = session();
    timer.apply_action(Action::Split, at(100));
    timer.apply_action(Action::Split, at(101));
    assert!(!timer.apply_action(Action::ResetAndDelete, at(102)));
    assert_eq!(timer.mode, TimerMode::Initial);
    assert_eq!(timer.splits, vec![]);
    assert_eq!(timer.split_file.attempts, 7);
    assert_eq!(golds(&timer), vec![Some(secs(5)), None, Some(secs(2))]);

    timer.apply_action(Action::Split, at(200));
    timer.apply_action(Action::Split, at(201));
    timer.apply_action(Action::Split, at(202));
    timer.apply_action(Action::Split, at(203));
    assert!(!timer.apply_action(Action::ResetAndDelete, at(204)));
    assert_eq!(timer.mode, TimerMode::Initial);
    assert_eq!(timer.split_file.completed, 3);
    assert_eq!(personal_best(&timer), vec![Some(secs(10)), Some(secs(25)), Some(secs(40))]);
}

#[test]
fn a_session_takes_readings_that_are_not_too_early() {
    let mut timer = session();
    assert!(timer.can_take(at(0)));
    timer.apply_action(Action::Split, at(100));
    timer.apply_action(Action::Split, at(110));
    assert!(timer.can_take(at(110)));
    assert!(timer.can_take(at(500)));
    assert!(!timer.can_take(at(109)));
    assert!(!timer.can_apply(Action::Split, at(105)));
    assert!(timer.can_apply(Action::Split, at(111)));
    timer.apply_action(Action::Pause, at(120));
    assert!(timer.can_take(at(20)));
    assert!(!timer.can_take(at(19)));
    timer.split_file.attempts = u32::MAX;
    timer.apply_action(Action::Pause, at(130));
    assert!(!timer.can_apply(Action::ResetAndSave, at(131)));
    assert!(timer.can_apply(Action::ResetAndDelete, at(131)));
}

#[test]
fn sessions_can_be_looked_over() {
    let mut timer = session();
    assert!(timer.is_wf());
    assert!(timer.split_file.is_wf());
    timer.apply_action(Action::Split, at(100));
    timer.apply_action(Action::Split, at(104));
    timer.apply_action(Action::DeleteSplit, at(105));
    timer.apply_action(Action::Split, at(109));
    assert!(timer.is_wf());
    timer.apply_action(Action::Pause, at(120));
    assert!(timer.is_wf());

    // Splits out of order, also across a deleted one.
    timer.splits = vec![Some(secs(9)), None, Some(secs(4))];
    assert!(!timer.is_wf());
    timer.splits = vec![Some(secs(4)), None];
    assert!(timer.is_wf());
    // A split later than the running time at the pause.
    timer.splits = vec![Some(secs(21))];
    assert!(!timer.is_wf());
    // Splits before the start, too few after the finish, too many during the run.
    timer.mode = TimerMode::Initial;
    assert!(!timer.is_wf());
    timer.mode = TimerMode::Finished { start_time: at(0) };
    assert!(!timer.is_wf());
    timer.splits = vec![Some(secs(1)), Some(secs(2)), None];
    assert!(!timer.is_wf());
    timer.splits = vec![None, None, Some(secs(2))];
    assert!(timer.is_wf());
    timer.mode = TimerMode::Running { start_time: at(0) };
    assert!(!timer.is_wf());

    // A ledger whose lists differ in length, or whose personal best goes backwards.
    let mut timer = session();
    timer.split_file.golds.pop();
    assert!(!timer.is_wf());
    let mut file = ledger(vec![None, None], vec![Some(5), Some(4)]);
    assert!(!file.is_wf());
    file.personal_best.splits[0] = None;
    assert!(file.is_wf());
    file.split_names.clear();
    assert!(!file.is_wf());
    // A gold longer than its segment does not stand in the way of a run.
    assert!(ledger(vec![Some(50)], vec![Some(5)]).is_wf());
}
