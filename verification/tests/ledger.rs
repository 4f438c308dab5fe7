use brnt::action_history::{ActionHistory, ChangeList};

const TEST_FILE_NAME: &[u8] = b".history_test.json";

/// One run's ledger write against an empty store, recording two
/// renames.
fn written_bytes() -> Vec<u8> {
    let mut change_list = ChangeList::new();
    change_list.push(b"from1.txt".to_vec(), b"to1.txt".to_vec());
    change_list.push(b"from2.txt".to_vec(), b"to2.txt".to_vec());
    ActionHistory::record(None, change_list, TEST_FILE_NAME)
        .expect("Failed to serialize ActionHistory.")
}

#[test]
fn test_write_history_to_file() {
    let bytes = written_bytes();
    assert!(!bytes.is_empty());
}

#[test]
fn test_get_action_history_from_file() {
    let bytes = written_bytes();

    let action_history = ActionHistory::load(&bytes, TEST_FILE_NAME)
        .expect("Failed to deserialize to ActionHistory from file.");
    println!("{:?}", action_history);
    assert_eq!(action_history.changes.len(), 1);
    assert_eq!(action_history.changes[0].len(), 2);
}

#[test]
fn test_create_empty_history() {
    let bytes = written_bytes();
    let action_history = ActionHistory::load(&bytes, TEST_FILE_NAME)
        .expect("Failed to deserialize to ActionHistory from file.");
    assert_eq!(action_history.changes.len(), 1);
}

#[test]
fn empty_history_has_no_entries() {
    let h = ActionHistory::new(TEST_FILE_NAME);
    assert_eq!(h.changes.len(), 0);
    assert_eq!(h.file_name, TEST_FILE_NAME.to_vec());
}

#[test]
fn rendered_ledger_has_exact_bytes() {
    let mut cl = ChangeList::new();
    cl.push(b"a".to_vec(), b"b".to_vec());
    let bytes = ActionHistory::record(None, cl, b".history.json").unwrap();
    assert_eq!(bytes, b"[[{\"from\":\"a\",\"to\":\"b\"}]]".to_vec());
}

#[test]
fn empty_change_list_still_adds_an_entry() {
    let cl = ChangeList::new();
    let bytes = ActionHistory::record(None, cl, b".history.json").unwrap();
    assert_eq!(bytes, b"[[]]".to_vec());
    let h = ActionHistory::load(&bytes, b".history.json").unwrap();
    assert_eq!(h.changes.len(), 1);
    assert_eq!(h.changes[0].len(), 0);
}

#[test]
fn ledger_accumulates_entries_in_run_order() {
    let mut first = ChangeList::new();
    first.push(b"a.txt".to_vec(), b"b.txt".to_vec());
    let bytes1 = ActionHistory::record(None, first, TEST_FILE_NAME).unwrap();

    let mut second = ChangeList::new();
    second.push(b"c.txt".to_vec(), b"d.txt".to_vec());
    second.push(b"e.txt".to_vec(), b"f.txt".to_vec());
    let bytes2 = ActionHistory::record(Some(&bytes1), second, TEST_FILE_NAME).unwrap();

    let h = ActionHistory::load(&bytes2, TEST_FILE_NAME).unwrap();
    assert_eq!(h.changes.len(), 2);
    assert_eq!(h.changes[0].len(), 1);
    assert_eq!(h.changes[0][0].from, b"a.txt".to_vec());
    assert_eq!(h.changes[0][0].to, b"b.txt".to_vec());
    assert_eq!(h.changes[1].len(), 2);
    assert_eq!(h.changes[1][0].from, b"c.txt".to_vec());
    assert_eq!(h.changes[1][1].to, b"f.txt".to_vec());
}

#[test]
fn paths_with_quotes_and_backslashes_round_trip() {
    let awkward_from = b"a\"b\\c.txt".to_vec();
    let awkward_to = b"d\\e\"f.txt".to_vec();
    let mut cl = ChangeList::new();
    cl.push(awkward_from.clone(), awkward_to.clone());
    let bytes = ActionHistory::record(None, cl, TEST_FILE_NAME).unwrap();
    assert_eq!(bytes, b"[[{\"from\":\"a\\\"b\\\\c.txt\",\"to\":\"d\\\\e\\\"f.txt\"}]]".to_vec());

    let h = ActionHistory::load(&bytes, TEST_FILE_NAME).unwrap();
    assert_eq!(h.changes[0][0].from, awkward_from);
    assert_eq!(h.changes[0][0].to, awkward_to);
}

#[test]
fn corrupt_ledger_is_rejected() {
    assert!(ActionHistory::load(b"garbage", TEST_FILE_NAME).is_none());
    assert!(ActionHistory::load(b"", TEST_FILE_NAME).is_none());
    assert!(ActionHistory::load(b"[[", TEST_FILE_NAME).is_none());
    assert!(ActionHistory::load(b"[[{\"from\":\"a\",\"to\":\"b\"}]] ", TEST_FILE_NAME).is_none());
    let cl = ChangeList::new();
    assert!(ActionHistory::record(Some(&b"{}".to_vec()), cl, TEST_FILE_NAME).is_none());
}
