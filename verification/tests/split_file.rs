use flitter::duration::Duration;
use flitter::split_file::read_split_file;
use flitter::split_file::Gold;
use flitter::split_file::LoadError;
use flitter::split_file::PersonalBest;
use flitter::split_file::Split;
use flitter::split_file::SplitFile;

fn secs(s: u64) -> Duration {
    Duration::from_secs(s)
}

fn ledger(names: usize, golds: Vec<Option<u64>>, pb: Vec<Option<u64>>) -> SplitFile {
    SplitFile {
        title: "Game".to_string(),
        category: "Any%".to_string(),
        attempts: 7,
        completed: 3,
        split_names: (0..names).map(|i| format!("Split {}", i + 1)).collect(),
        golds: golds.into_iter().map(|g| g.map(|s| Gold { duration: secs(s) })).collect(),
        personal_best: PersonalBest {
            attempt: 2,
            splits: pb.into_iter().map(|t| t.map(|s| Split { time: secs(s) })).collect(),
        },
    }
}

#[test]
fn loads_a_consistent_ledger() {
    let file = ledger(3, vec![Some(5), None, Some(2)], vec![Some(10), Some(25), Some(40)]);
    assert_eq!(file.validate(), Ok(()));
    let loaded = read_split_file(file).expect("the ledger is consistent");
    assert_eq!(loaded.split_names.len(), 3);
    assert_eq!(loaded.attempts, 7);
}

#[test]
fn loads_a_ledger_with_gaps() {
    let file = ledger(4, vec![None, Some(100), None, None], vec![Some(10), None, Some(5), Some(6)]);
    assert_eq!(file.validate(), Ok(()));
}

#[test]
fn refuses_empty_lists() {
    assert_eq!(ledger(0, vec![Some(1)], vec![Some(1)]).validate(), Err(LoadError::NoSplitNames));
    assert_eq!(ledger(0, vec![], vec![]).validate(), Err(LoadError::NoSplitNames));
    assert_eq!(ledger(1, vec![Some(1)], vec![]).validate(), Err(LoadError::NoPersonalBest));
    assert_eq!(ledger(1, vec![], vec![]).validate(), Err(LoadError::NoPersonalBest));
    assert_eq!(ledger(1, vec![], vec![Some(1)]).validate(), Err(LoadError::NoGolds));
}

#[test]
fn refuses_mismatched_counts() {
    assert_eq!(
        ledger(2, vec![Some(1)], vec![Some(1), Some(2)]).validate(),
        Err(LoadError::GoldCount { names: 2, golds: 1 })
    );
    assert_eq!(
        ledger(2, vec![None, None], vec![Some(1), Some(2), Some(3)]).validate(),
        Err(LoadError::PersonalBestCount { names: 2, splits: 3 })
    );
    assert_eq!(
        ledger(2, vec![None], vec![Some(1)]).validate(),
        Err(LoadError::GoldCount { names: 2, golds: 1 })
    );
}

#[test]
fn refuses_a_personal_best_without_its_last_split() {
    assert_eq!(
        ledger(2, vec![None, None], vec![Some(1), None]).validate(),
        Err(LoadError::LastSplitMissing)
    );
}

#[test]
fn refuses_splits_out_of_order() {
    assert_eq!(
        ledger(3, vec![None, None, None], vec![Some(10), Some(9), Some(40)]).validate(),
        Err(LoadError::SplitOutOfOrder { number: 2, time: secs(9) })
    );
    assert_eq!(
        ledger(3, vec![None, None, None], vec![Some(10), Some(10), Some(10)]).validate(),
        Ok(())
    );
}

#[test]
fn refuses_a_gold_longer_than_its_segment() {
    assert_eq!(
        ledger(3, vec![Some(5), None, Some(16)], vec![Some(10), Some(25), Some(40)]).validate(),
        Err(LoadError::GoldTooLong { number: 3, gold: secs(16) })
    );
    assert_eq!(
        ledger(3, vec![Some(11), None, None], vec![Some(10), Some(25), Some(40)]).validate(),
        Err(LoadError::GoldTooLong { number: 1, gold: secs(11) })
    );
    assert_eq!(
        ledger(3, vec![Some(10), Some(15), Some(15)], vec![Some(10), Some(25), Some(40)]).validate(),
        Ok(())
    );
    // Without the split before it a segment has no length to compare with.
    assert_eq!(
        ledger(3, vec![None, None, Some(1000)], vec![Some(10), None, Some(40)]).validate(),
        Ok(())
    );
}

#[test]
fn reports_the_first_thing_wrong() {
    assert_eq!(
        ledger(4, vec![None, Some(100), None, None], vec![Some(10), Some(20), Some(15), Some(1)])
            .validate(),
        Err(LoadError::GoldTooLong { number: 2, gold: secs(100) })
    );
    assert_eq!(
        ledger(3, vec![None, Some(100), None], vec![Some(10), Some(5), Some(15)]).validate(),
        Err(LoadError::SplitOutOfOrder { number: 2, time: secs(5) })
    );
    assert!(read_split_file(ledger(1, vec![Some(2)], vec![Some(1)])).is_err());
}

#[test]
fn load_errors_say_what_is_wrong() {
    assert_eq!(LoadError::NoSplitNames.message(), "Split names cannot be empty");
    assert_eq!(LoadError::NoPersonalBest.message(), "Personal best cannot be empty");
    assert_eq!(LoadError::NoGolds.message(), "Golds cannot be empty");
    assert_eq!(
        LoadError::GoldCount { names: 12, golds: 3 }.message(),
        "Split name count (12) does not match gold count (3)"
    );
    assert_eq!(
        LoadError::PersonalBestCount { names: 2, splits: 10 }.message(),
        "Split name count (2) does not match personal best split count (10)"
    );
    assert_eq!(
        LoadError::LastSplitMissing.message(),
        "Last split of personal best cannot be null"
    );
    assert_eq!(
        LoadError::SplitOutOfOrder { number: 2, time: Duration::from_millis(61_500) }.message(),
        "Split 2 (1:01.500) is earlier than previous split"
    );
    assert_eq!(
        LoadError::GoldTooLong { number: 3, gold: secs(16) }.message(),
        "Gold 3 (16.000) is longer than the PB segment"
    );
}
