use brnt::action_history::ActionHistory;
use brnt::engine::{
    action_for_key, outcome_counts, rollback_action_for_key, ActionWhenStuck,
    ActionWhenStuckRollingBack, MoveFailure, Outcome, Phase, Transaction,
};
use brnt::fs_model::FsState;

fn pairs(list: &[(&[u8], &[u8])]) -> Vec<(Vec<u8>, Vec<u8>)> {
    list.iter().map(|(a, b)| (a.to_vec(), b.to_vec())).collect()
}

fn fs_with(paths: &[&[u8]]) -> FsState {
    let mut fs = FsState::new();
    for p in paths {
        fs.touch(p);
    }
    fs
}

/// Drive a transaction against the filesystem model, answering stuck
/// prompts from the given scripts, until it finishes.
fn run(
    tx: &mut Transaction,
    fs: &mut FsState,
    forward_script: &mut Vec<ActionWhenStuck>,
    rollback_script: &mut Vec<ActionWhenStuckRollingBack>,
) {
    loop {
        match tx.phase() {
            Phase::ForwardMove | Phase::RollbackMove => {
                let from = tx.move_from().clone();
                let to = tx.move_to().clone();
                match fs.attempt_move(&from, &to) {
                    Ok(()) => tx.report_move_ok(),
                    Err(_) => tx.report_move_failed(),
                }
            }
            Phase::ForwardStuck => {
                let action = forward_script.remove(0);
                tx.resolve_forward(action);
            }
            Phase::RollbackStuck => {
                let action = rollback_script.remove(0);
                tx.resolve_rollback(action);
            }
            Phase::Done => break,
        }
    }
}

fn change_pairs(tx: &Transaction) -> Vec<(Vec<u8>, Vec<u8>)> {
    tx.change_list().list.iter().map(|c| (c.from.clone(), c.to.clone())).collect()
}

#[test]
fn stuck_keys_are_case_insensitive() {
    assert_eq!(action_for_key(b'r'), Some(ActionWhenStuck::Retry));
    assert_eq!(action_for_key(b'R'), Some(ActionWhenStuck::Retry));
    assert_eq!(action_for_key(b's'), Some(ActionWhenStuck::Skip));
    assert_eq!(action_for_key(b'S'), Some(ActionWhenStuck::Skip));
    assert_eq!(action_for_key(b'a'), Some(ActionWhenStuck::Abort));
    assert_eq!(action_for_key(b'A'), Some(ActionWhenStuck::Abort));
    assert_eq!(action_for_key(b'u'), Some(ActionWhenStuck::Rollback));
    assert_eq!(action_for_key(b'U'), Some(ActionWhenStuck::Rollback));
    assert_eq!(action_for_key(b'x'), None);
    assert_eq!(action_for_key(b' '), None);
}

#[test]
fn rollback_keys_never_offer_undo_all() {
    assert_eq!(rollback_action_for_key(b'r'), Some(ActionWhenStuckRollingBack::Retry));
    assert_eq!(rollback_action_for_key(b'S'), Some(ActionWhenStuckRollingBack::Skip));
    assert_eq!(
        rollback_action_for_key(b'a'),
        Some(ActionWhenStuckRollingBack::AbortRollback)
    );
    assert_eq!(rollback_action_for_key(b'u'), None);
    assert_eq!(rollback_action_for_key(b'U'), None);
}

#[test]
fn outcome_counts_sum_up_each_kind() {
    let mut fs = fs_with(&[b"a.txt", b"c.txt", b"d.txt"]);
    let mut tx = Transaction::new(&pairs(&[
        (b"a.txt", b"b.txt"),
        (b"same.txt", b"same.txt"),
        (b"c.txt", b"d.txt"), // target taken: gets skipped
    ]));
    let mut forward = vec![ActionWhenStuck::Skip];
    run(&mut tx, &mut fs, &mut forward, &mut Vec::new());
    assert_eq!(outcome_counts(tx.items()), (1, 1, 1));
}

#[test]
fn conflict_guard_refuses_existing_target() {
    let mut fs = fs_with(&[b"a.txt", b"b.txt"]);
    assert_eq!(fs.attempt_move(b"a.txt", b"b.txt"), Err(MoveFailure::TargetExists));
    assert!(fs.exists_file(b"a.txt"));
    assert!(fs.exists_file(b"b.txt"));

    let mut missing_source = fs_with(&[b"b.txt"]);
    assert_eq!(
        missing_source.attempt_move(b"a.txt", b"b.txt"),
        Err(MoveFailure::TargetExists)
    );
    assert!(!missing_source.exists_file(b"a.txt"));
    assert!(missing_source.exists_file(b"b.txt"));
}

#[test]
fn missing_source_is_an_os_error() {
    let mut fs = fs_with(&[]);
    assert_eq!(fs.attempt_move(b"a.txt", b"b.txt"), Err(MoveFailure::OsError));
    assert!(!fs.exists_file(b"a.txt"));
    assert!(!fs.exists_file(b"b.txt"));
}

#[test]
fn successful_move_carries_the_file_over() {
    let mut fs = fs_with(&[b"a.txt"]);
    assert_eq!(fs.attempt_move(b"a.txt", b"b.txt"), Ok(()));
    assert!(!fs.exists_file(b"a.txt"));
    assert!(fs.exists_file(b"b.txt"));
}

#[test]
fn identical_paths_are_noop_and_never_attempted() {
    let mut fs = fs_with(&[b"same.txt"]);
    let mut tx = Transaction::new(&pairs(&[(b"same.txt", b"same.txt")]));
    run(&mut tx, &mut fs, &mut Vec::new(), &mut Vec::new());
    assert_eq!(tx.items()[0].outcome, Outcome::NoopIdentical);
    assert!(tx.should_write_ledger());
    assert_eq!(change_pairs(&tx).len(), 0);
    assert!(fs.exists_file(b"same.txt"));
}

#[test]
fn two_clean_renames_fill_the_change_list_in_order() {
    let mut fs = fs_with(&[b"a.txt", b"c.txt"]);
    let mut tx = Transaction::new(&pairs(&[(b"a.txt", b"b.txt"), (b"c.txt", b"d.txt")]));
    run(&mut tx, &mut fs, &mut Vec::new(), &mut Vec::new());

    assert_eq!(tx.items()[0].outcome, Outcome::RenamedApplied);
    assert_eq!(tx.items()[1].outcome, Outcome::RenamedApplied);
    assert_eq!(
        change_pairs(&tx),
        vec![
            (b"a.txt".to_vec(), b"b.txt".to_vec()),
            (b"c.txt".to_vec(), b"d.txt".to_vec())
        ]
    );
    assert!(fs.exists_file(b"b.txt"));
    assert!(fs.exists_file(b"d.txt"));

    assert!(tx.should_write_ledger());
    let bytes = ActionHistory::record(None, tx.change_list().clone(), b".history.json").unwrap();
    let h = ActionHistory::load(&bytes, b".history.json").unwrap();
    assert_eq!(h.changes.len(), 1);
    assert_eq!(h.changes[0].len(), 2);
}

#[test]
fn occupied_target_skipped_leaves_item_unchanged() {
    let mut fs = fs_with(&[b"a.txt", b"b.txt"]);
    let mut tx = Transaction::new(&pairs(&[(b"a.txt", b"b.txt")]));
    let mut forward = vec![ActionWhenStuck::Skip];
    run(&mut tx, &mut fs, &mut forward, &mut Vec::new());

    assert_eq!(tx.items()[0].outcome, Outcome::Unchanged);
    assert_eq!(change_pairs(&tx).len(), 0);
    assert!(tx.should_write_ledger());
    let bytes = ActionHistory::record(None, tx.change_list().clone(), b".history.json").unwrap();
    let h = ActionHistory::load(&bytes, b".history.json").unwrap();
    assert_eq!(h.changes.len(), 1);
    assert_eq!(h.changes[0].len(), 0);
}

#[test]
fn all_succeeding_run_never_reaches_a_prompt() {
    let mut fs = fs_with(&[b"a.txt", b"c.txt"]);
    let mut tx = Transaction::new(&pairs(&[(b"a.txt", b"b.txt"), (b"c.txt", b"d.txt")]));
    // An empty script: any prompt would panic, so finishing proves the
    // rollback menu is unreachable when every move succeeds.
    run(&mut tx, &mut fs, &mut Vec::new(), &mut Vec::new());
    assert!(tx.should_write_ledger());
    assert_eq!(change_pairs(&tx).len(), 2);
}

#[test]
fn rollback_restores_applied_items_and_writes_nothing() {
    // d.txt occupies the second rename's target.
    let mut fs = fs_with(&[b"a.txt", b"c.txt", b"d.txt"]);
    let mut tx = Transaction::new(&pairs(&[(b"a.txt", b"b.txt"), (b"c.txt", b"d.txt")]));
    let mut forward = vec![ActionWhenStuck::Rollback];
    run(&mut tx, &mut fs, &mut forward, &mut Vec::new());

    assert_eq!(tx.items()[0].outcome, Outcome::Unchanged);
    assert_eq!(tx.items()[1].outcome, Outcome::Unchanged);
    assert!(fs.exists_file(b"a.txt"));
    assert!(!fs.exists_file(b"b.txt"));
    assert!(fs.exists_file(b"c.txt"));
    assert!(!tx.should_write_ledger());
}

#[test]
fn skipped_item_keeps_later_order_in_change_list() {
    let mut fs = fs_with(&[b"a.txt", b"c.txt", b"d.txt", b"e.txt"]);
    let mut tx = Transaction::new(&pairs(&[
        (b"a.txt", b"b.txt"),
        (b"c.txt", b"d.txt"), // target taken: gets skipped
        (b"e.txt", b"f.txt"),
    ]));
    let mut forward = vec![ActionWhenStuck::Skip];
    run(&mut tx, &mut fs, &mut forward, &mut Vec::new());

    assert_eq!(
        change_pairs(&tx),
        vec![
            (b"a.txt".to_vec(), b"b.txt".to_vec()),
            (b"e.txt".to_vec(), b"f.txt".to_vec())
        ]
    );
    assert_eq!(tx.items()[1].outcome, Outcome::Unchanged);
}

#[test]
fn retry_reattempts_the_same_move() {
    let mut fs = fs_with(&[b"a.txt", b"b.txt"]);
    let mut tx = Transaction::new(&pairs(&[(b"a.txt", b"b.txt")]));

    // First attempt fails: the target exists.
    assert!(matches!(tx.phase(), Phase::ForwardMove));
    let from = tx.move_from().clone();
    let to = tx.move_to().clone();
    assert!(fs.attempt_move(&from, &to).is_err());
    tx.report_move_failed();
    assert!(matches!(tx.phase(), Phase::ForwardStuck));

    // The user clears the way, then answers Retry.
    assert_eq!(fs.attempt_move(b"b.txt", b"elsewhere.txt"), Ok(()));
    tx.resolve_forward(ActionWhenStuck::Retry);
    assert!(matches!(tx.phase(), Phase::ForwardMove));
    let from = tx.move_from().clone();
    let to = tx.move_to().clone();
    assert_eq!(fs.attempt_move(&from, &to), Ok(()));
    tx.report_move_ok();

    assert!(tx.is_done());
    assert_eq!(tx.items()[0].outcome, Outcome::RenamedApplied);
    assert_eq!(change_pairs(&tx).len(), 1);
}

#[test]
fn abort_leaves_remaining_items_unchanged_but_still_records() {
    let mut fs = fs_with(&[b"a.txt", b"c.txt", b"d.txt", b"e.txt"]);
    let mut tx = Transaction::new(&pairs(&[
        (b"a.txt", b"b.txt"),
        (b"c.txt", b"d.txt"),
        (b"e.txt", b"f.txt"),
    ]));
    let mut forward = vec![ActionWhenStuck::Abort];
    run(&mut tx, &mut fs, &mut forward, &mut Vec::new());

    assert_eq!(tx.items()[0].outcome, Outcome::RenamedApplied);
    assert_eq!(tx.items()[1].outcome, Outcome::Unchanged);
    assert_eq!(tx.items()[2].outcome, Outcome::Unchanged);
    assert!(!fs.exists_file(b"f.txt"));
    assert!(tx.should_write_ledger());
    assert_eq!(change_pairs(&tx).len(), 1);
}

#[test]
fn rollback_skip_strands_the_renamed_file() {
    // Both renames succeed; the rollback of the first is blocked by a
    // file that reappears under its old name.
    let mut fs = fs_with(&[b"a.txt", b"c.txt", b"e.txt"]);
    let mut tx = Transaction::new(&pairs(&[
        (b"a.txt", b"b.txt"),
        (b"c.txt", b"d.txt"),
        (b"e.txt", b"f.txt"),
    ]));

    // Run forward until the third item is about to be attempted, then
    // block it so the prompt appears.
    while matches!(tx.phase(), Phase::ForwardMove) && change_pairs(&tx).len() < 2 {
        let from = tx.move_from().clone();
        let to = tx.move_to().clone();
        match fs.attempt_move(&from, &to) {
            Ok(()) => tx.report_move_ok(),
            Err(_) => tx.report_move_failed(),
        }
    }
    fs.touch(b"a.txt"); // squats on the first item's old name
    fs.touch(b"f.txt"); // blocks the third rename
    let mut forward = vec![ActionWhenStuck::Rollback];
    let mut rollback = vec![ActionWhenStuckRollingBack::Skip];
    run(&mut tx, &mut fs, &mut forward, &mut rollback);

    // The first item's undo was skipped: it stays applied and the run
    // is still not recorded.
    assert_eq!(tx.items()[0].outcome, Outcome::RenamedApplied);
    assert_eq!(tx.items()[1].outcome, Outcome::Unchanged);
    assert!(fs.exists_file(b"b.txt"));
    assert!(fs.exists_file(b"c.txt"));
    assert!(!tx.should_write_ledger());
}

#[test]
fn two_runs_grow_the_ledger_by_one_entry_each() {
    let name: &[u8] = b".history.json";
    let mut fs = fs_with(&[b"a.txt", b"c.txt"]);

    let mut first = Transaction::new(&pairs(&[(b"a.txt", b"b.txt")]));
    run(&mut first, &mut fs, &mut Vec::new(), &mut Vec::new());
    assert!(first.should_write_ledger());
    let bytes1 = ActionHistory::record(None, first.change_list().clone(), name).unwrap();

    let mut second = Transaction::new(&pairs(&[(b"c.txt", b"d.txt")]));
    run(&mut second, &mut fs, &mut Vec::new(), &mut Vec::new());
    assert!(second.should_write_ledger());
    let bytes2 =
        ActionHistory::record(Some(&bytes1), second.change_list().clone(), name).unwrap();

    let h = ActionHistory::load(&bytes2, name).unwrap();
    assert_eq!(h.changes.len(), 2);
    assert_eq!(h.changes[0][0].from, b"a.txt".to_vec());
    assert_eq!(h.changes[0][0].to, b"b.txt".to_vec());
    assert_eq!(h.changes[1][0].from, b"c.txt".to_vec());
    assert_eq!(h.changes[1][0].to, b"d.txt".to_vec());
}

#[test]
fn abort_rollback_stops_undoing_immediately() {
    let mut fs = fs_with(&[b"a.txt", b"c.txt", b"e.txt"]);
    let mut tx = Transaction::new(&pairs(&[
        (b"a.txt", b"b.txt"),
        (b"c.txt", b"d.txt"),
        (b"e.txt", b"f.txt"),
    ]));
    while matches!(tx.phase(), Phase::ForwardMove) && change_pairs(&tx).len() < 2 {
        let from = tx.move_from().clone();
        let to = tx.move_to().clone();
        match fs.attempt_move(&from, &to) {
            Ok(()) => tx.report_move_ok(),
            Err(_) => tx.report_move_failed(),
        }
    }
    fs.touch(b"a.txt");
    fs.touch(b"f.txt");
    let mut forward = vec![ActionWhenStuck::Rollback];
    let mut rollback = vec![ActionWhenStuckRollingBack::AbortRollback];
    run(&mut tx, &mut fs, &mut forward, &mut rollback);

    // Nothing after the abort is undone: both applied renames stay.
    assert_eq!(tx.items()[0].outcome, Outcome::RenamedApplied);
    assert_eq!(tx.items()[1].outcome, Outcome::RenamedApplied);
    assert!(fs.exists_file(b"d.txt"));
    assert!(!tx.should_write_ledger());
}
