use brnt::args::parse_arguments;

fn raw(list: &[&str]) -> Vec<Vec<u8>> {
    list.iter().map(|a| a.as_bytes().to_vec()).collect()
}

#[test]
fn a_pattern_alone_is_a_plain_run() {
    let a = parse_arguments(&raw(&["*.txt"])).unwrap();
    assert_eq!(a.patterns, vec![b"*.txt".to_vec()]);
    assert!(!a.usage);
    assert!(!a.dry_run);
    assert!(!a.include_extensions);
    assert!(a.editor_executable.is_none());
}

#[test]
fn no_patterns_asks_for_usage() {
    let a = parse_arguments(&raw(&[])).unwrap();
    assert!(a.usage);
}

#[test]
fn flags_before_patterns_are_recognised() {
    let a = parse_arguments(&raw(&["--dry-run", "-x", "*.txt"])).unwrap();
    assert!(a.dry_run);
    assert!(a.include_extensions);
    assert!(!a.usage);
    assert_eq!(a.patterns.len(), 1);
}

#[test]
fn editor_option_consumes_the_next_argument() {
    let a = parse_arguments(&raw(&["--editor", "--dry-run", "*.txt"])).unwrap();
    assert_eq!(a.editor_executable, Some(b"--dry-run".to_vec()));
    assert!(!a.dry_run);
    assert!(!a.usage);
}

#[test]
fn dangling_editor_option_asks_for_usage() {
    let a = parse_arguments(&raw(&["*.txt", "-e"])).unwrap();
    assert!(a.usage);
}

#[test]
fn set_editor_takes_no_patterns() {
    let a = parse_arguments(&raw(&["--set-editor", "nano"])).unwrap();
    assert_eq!(a.set_editor_executable, Some(b"nano".to_vec()));
    assert_eq!(a.editor_executable, Some(b"nano".to_vec()));
    assert!(!a.usage);

    let b = parse_arguments(&raw(&["--set-editor", "nano", "*.txt"])).unwrap();
    assert!(b.usage);
}

#[test]
fn double_dash_turns_the_rest_into_patterns() {
    let a = parse_arguments(&raw(&["--", "--dry-run"])).unwrap();
    assert!(!a.dry_run);
    assert_eq!(a.patterns, vec![b"--dry-run".to_vec()]);
    assert!(!a.usage);
}

#[test]
fn unknown_options_are_refused_at_their_position() {
    assert_eq!(parse_arguments(&raw(&["--frobnicate"])).unwrap_err(), 0);
    assert_eq!(parse_arguments(&raw(&["*.txt", "-z"])).unwrap_err(), 1);
    assert_eq!(parse_arguments(&raw(&["-"])).unwrap_err(), 0);
}

#[test]
fn usage_and_help_are_synonyms() {
    assert!(parse_arguments(&raw(&["--usage", "*.txt"])).unwrap().usage);
    assert!(parse_arguments(&raw(&["--help", "*.txt"])).unwrap().usage);
}
