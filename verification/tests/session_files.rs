use codex_cli_token_insights::rollout::{filename_sliceable, is_session_file_name, parse_filename};

#[test]
fn file_name_is_taken_apart() {
    let name = "rollout-2026-01-02T03-04-05-0193aaaa-bbbb-cccc.jsonl";
    assert!(filename_sliceable(name));
    assert_eq!(
        parse_filename(name),
        Some((
            "0193aaaa-bbbb-cccc".to_string(),
            "2026-01-02".to_string(),
            "Rollout 2026-01-02 03:04:05".to_string(),
        ))
    );
}

#[test]
fn other_file_names_are_refused() {
    for name in [
        "",
        "rollout-.jsonl",
        "session-2026-01-02T03-04-05-0193aaaa.jsonl",
        "rollout-2026-01-02T03-04-05-0193aaaa.json",
        "rollout-2026-01-02T03-04-05.jsonl",
        "rollout-",
        ".jsonl",
    ] {
        assert!(filename_sliceable(name));
        assert_eq!(parse_filename(name), None, "{}", name);
    }
}

#[test]
fn shortest_file_name_has_an_empty_session_id() {
    let name = "rollout-2026-01-02T03-04-05-.jsonl";
    assert!(filename_sliceable(name));
    let (id, date, title) = parse_filename(name).unwrap();
    assert_eq!(id, "");
    assert_eq!(date, "2026-01-02");
    assert_eq!(title, "Rollout 2026-01-02 03:04:05");
}

#[test]
fn separators_are_not_looked_at() {
    let name = "rollout-0123456789x12-34-56yabc.jsonl";
    assert!(filename_sliceable(name));
    assert_eq!(
        parse_filename(name),
        Some(("abc".to_string(), "0123456789".to_string(), "Rollout 0123456789 12:34:56".to_string()))
    );
}

#[test]
fn names_that_cut_a_character_are_told_apart() {
    // The second byte of the letter lies on the cut after ten bytes.
    assert!(!filename_sliceable("rollout-012345678\u{e9}01234567890.jsonl"));
    // A letter of two bytes within the date leaves the cuts where they are.
    let name = "rollout-01234567\u{e9}T03-04-05-id.jsonl";
    assert!(filename_sliceable(name));
    assert_eq!(
        parse_filename(name),
        Some((
            "id".to_string(),
            "01234567\u{e9}".to_string(),
            "Rollout 01234567\u{e9} 03:04:05".to_string()
        ))
    );
}

#[test]
fn session_files_are_known_by_their_names() {
    assert!(is_session_file_name("rollout-x.jsonl"));
    assert!(is_session_file_name("rollout-.jsonl"));
    assert!(!is_session_file_name("rollout-x.json"));
    assert!(!is_session_file_name("xrollout-x.jsonl"));
    assert!(!is_session_file_name("rollout-x.jsonl.bak"));
}
