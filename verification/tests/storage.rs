use codex_cli_token_insights::daily::usage_details;
use codex_cli_token_insights::entry::{CostStats, TokenStats, UsageEntry};
use codex_cli_token_insights::pricing::load_pricing_rules;
use codex_cli_token_insights::rows::{
    entry_of_row, read_columns, row_of_entry, turn_stats, write_columns, TokenColumns, TurnRow,
};
use codex_cli_token_insights::schema;
use codex_cli_token_insights::schema::{SchemaPart, SchemaStep};
use codex_cli_token_insights::session::parse_session_file;
use codex_cli_token_insights::setup::{get_codex_dir, get_setup_info, month_pattern, Place};
use codex_cli_token_insights::sync;
use codex_cli_token_insights::sync::{Answer, Outcome, SyncState};
use codex_cli_token_insights::whole::{clamp_i64, clamp_u64, to_double};

fn stats(input: u64) -> TokenStats {
    TokenStats {
        input,
        output: 2,
        cache_read: Some(3),
        cache_write: None,
        reasoning: None,
        total: 5,
    }
}

fn entry() -> UsageEntry {
    UsageEntry {
        timestamp: "t".to_string(),
        session_id: "s".to_string(),
        session_name: Some("n".to_string()),
        transcript_path: Some("p".to_string()),
        cwd: None,
        version: Some("v".to_string()),
        turn_no: u32::MAX,
        model: None,
        model_id: Some("i".to_string()),
        tokens: Some(stats(u64::MAX)),
        delta_tokens: None,
        cost: Some(CostStats {
            total_api_duration_ms: Some(1500),
            total_duration_ms: None,
            total_premium_requests: Some(0),
        }),
        parent_session_id: Some("mother".to_string()),
        agent_nickname: Some("Ada".to_string()),
        agent_role: Some("scout".to_string()),
    }
}

#[test]
fn entry_is_read_back() {
    let row = row_of_entry(&entry(), &"2026-01-02".to_string());
    assert_eq!(row.date, "2026-01-02");
    assert_eq!(row.turn_no, 4_294_967_295);
    assert_eq!(row.tokens.input, Some(-1));
    assert_eq!(row.tokens.total, Some(5));
    assert_eq!(row.delta.total, None);
    assert_eq!(row.duration_ms, Some(1500));
    assert_eq!(row.premium_requests, Some(0));
    assert_eq!(row.parent_session_id.as_deref(), Some("mother"));
    assert_eq!(row.agent_nickname.as_deref(), Some("Ada"));
    assert_eq!(row.agent_role.as_deref(), Some("scout"));
    let e = entry_of_row(row);
    assert_eq!(e.timestamp, "t");
    assert_eq!(e.session_id, "s");
    assert_eq!(e.session_name.as_deref(), Some("n"));
    assert_eq!(e.transcript_path.as_deref(), Some("p"));
    assert_eq!(e.cwd, None);
    assert_eq!(e.version.as_deref(), Some("v"));
    assert_eq!(e.turn_no, u32::MAX);
    assert_eq!(e.model, None);
    assert_eq!(e.model_id.as_deref(), Some("i"));
    assert_eq!(e.tokens, entry().tokens);
    assert_eq!(e.delta_tokens, None);
    assert_eq!(e.cost, entry().cost);
    assert_eq!(e.parent_session_id, None);
    assert_eq!(e.agent_nickname, None);
    assert_eq!(e.agent_role, None);
}

fn session() -> Vec<UsageEntry> {
    let lines: Vec<String> = [(1, 100, 30, 7), (2, 250, 90, 12), (3, 400, 200, 13)]
        .iter()
        .map(|(turn, input, cached, output)| {
            format!(
                "{{\"type\":\"event_msg\",\"timestamp\":\"2026-01-02T0{}:00\",\"payload\":{{\
                 \"type\":\"token_count\",\"turn_id\":\"t{}\",\"info\":{{\
                 \"total_token_usage\":[{},{},{},1,0]}}}}}}",
                turn, turn, input, cached, output
            )
        })
        .collect();
    parse_session_file(&lines, "f", "s", "n").unwrap()
}

#[test]
fn stored_session_is_reported_as_its_last_turn_shows() {
    let entries = session();
    let date = "2026-01-02".to_string();
    let read: Vec<UsageEntry> =
        entries.iter().map(|e| entry_of_row(row_of_entry(e, &date))).collect();
    let report = usage_details(&read, &load_pricing_rules(&vec![])).ok().unwrap();
    let last = entries[2].tokens.unwrap();
    assert_eq!(last.total, 213);
    assert_eq!(report.summary.total_tokens, last.total);
    assert_eq!(report.summary.total_input_tokens, last.input);
    assert_eq!(report.summary.total_output_tokens, last.output);
    assert_eq!(Some(report.summary.total_cache_read_tokens), last.cache_read);
    assert_eq!(Some(report.summary.total_reasoning_tokens), last.reasoning);
    assert_eq!(report.sessions[0].total_tokens, last.total);
}

#[test]
fn increments_of_turns_are_read_back() {
    let entries = session();
    let date = "2026-01-02".to_string();
    let rows: Vec<TurnRow> = entries
        .iter()
        .map(|e| {
            let row = row_of_entry(e, &date);
            TurnRow { turn_no: row.turn_no, delta: row.delta }
        })
        .collect();
    let stats = turn_stats(&rows);
    assert_eq!(stats.len(), 3);
    for e in &entries {
        assert_eq!(Some(stats[&e.turn_no]), e.delta_tokens);
    }
}

#[test]
fn long_durations_are_cut_off_in_rows() {
    let mut e = entry();
    for (duration, read) in [
        (0i128, 0i128),
        (9_007_199_254_740_992, 9_007_199_254_740_992),
        (9_223_372_036_854_775_808, 9_223_372_036_854_775_808),
        (18_446_744_073_709_551_616, 9_223_372_036_854_775_808),
    ] {
        e.cost = Some(CostStats {
            total_api_duration_ms: Some(duration),
            total_duration_ms: None,
            total_premium_requests: None,
        });
        let back = entry_of_row(row_of_entry(&e, &"d".to_string()));
        assert_eq!(back.cost.unwrap().total_api_duration_ms, Some(read));
    }
}

#[test]
fn row_without_durations_has_no_costs() {
    let mut e = entry();
    e.cost = None;
    let mut row = row_of_entry(&e, &"d".to_string());
    assert_eq!(row.duration_ms, None);
    assert_eq!(row.premium_requests, None);
    row.turn_no = -1;
    let read = entry_of_row(row);
    assert_eq!(read.cost, None);
    assert_eq!(read.turn_no, u32::MAX);
    let mut row = row_of_entry(&e, &"d".to_string());
    row.premium_requests = Some(9_007_199_254_740_993);
    let cost = entry_of_row(row).cost.unwrap();
    assert_eq!(cost.total_api_duration_ms, None);
    assert_eq!(cost.total_premium_requests, Some(9_007_199_254_740_992));
}

#[test]
fn counts_need_input_output_and_total() {
    let full = write_columns(Some(stats(1)));
    assert_eq!(read_columns(full), Some(stats(1)));
    assert_eq!(read_columns(TokenColumns { input: None, ..full }), None);
    assert_eq!(read_columns(TokenColumns { output: None, ..full }), None);
    assert_eq!(read_columns(TokenColumns { total: None, ..full }), None);
    let bare = read_columns(TokenColumns { cache_read: None, ..full }).unwrap();
    assert_eq!(bare.cache_read, None);
    assert_eq!(read_columns(TokenColumns { input: Some(-2), ..full }).unwrap().input, u64::MAX - 1);
    assert_eq!(read_columns(write_columns(None)), None);
}

#[test]
fn later_rows_of_a_turn_count() {
    let row = |turn_no: i64, input: Option<u64>| TurnRow {
        turn_no,
        delta: write_columns(input.map(stats)),
    };
    let map = turn_stats(&vec![
        row(1, Some(10)),
        row(2, None),
        row(1, Some(11)),
        row(3, Some(30)),
        row(3, None),
        row(0x1_0000_0004, Some(40)),
    ]);
    assert_eq!(map.len(), 3);
    assert_eq!(map[&1].input, 11);
    assert_eq!(map[&3].input, 30);
    assert_eq!(map[&4].input, 40);
}

#[test]
fn whole_numbers_are_rounded_as_doubles_are() {
    for v in [
        0i128,
        1,
        9_007_199_254_740_991,
        9_007_199_254_740_993,
        9_007_199_254_740_995,
        36_028_797_018_963_970,
        36_028_797_018_963_974,
        i64::MAX as i128,
        i64::MIN as i128,
        u64::MAX as i128,
        -9_007_199_254_740_993,
    ] {
        assert_eq!(to_double(v), (v as f64) as i128, "{}", v);
        assert_eq!(to_double(to_double(v)), to_double(v));
        assert_eq!(clamp_u64(to_double(v)), (v as f64) as u64);
        assert_eq!(clamp_i64(to_double(v)), (v as f64) as i64);
    }
    assert_eq!(to_double(i64::MAX as i128), 9_223_372_036_854_775_808);
    assert_eq!(clamp_u64(-1), 0);
    assert_eq!(clamp_u64(u64::MAX as i128 + 1), u64::MAX);
    assert_eq!(clamp_i64(i64::MIN as i128 - 1), i64::MIN);
}

fn run(answers: &[Answer]) -> Vec<SyncState> {
    let mut states = vec![sync::start()];
    for a in answers {
        let last = *states.last().unwrap();
        states.push(sync::advance(last, *a));
    }
    states
}

fn finished(outcome: Outcome) -> SyncState {
    SyncState::Finished { outcome }
}

#[test]
fn changed_file_is_read_again() {
    let size = Answer::Size { size: 10 };
    let states = run(&[
        Answer::Size { size: 4 },
        size,
        Answer::Entries { count: 2 },
        Answer::Done,
        Answer::Done,
        Answer::Done,
        Answer::Done,
        Answer::Done,
        Answer::Done,
    ]);
    assert_eq!(
        states,
        vec![
            SyncState::LookUp,
            SyncState::Measure { recorded: 4 },
            SyncState::Read { size: 10 },
            SyncState::Begin { size: 10, entries: 2 },
            SyncState::Delete { size: 10, entries: 2 },
            SyncState::Insert { size: 10, entries: 2, next: 0 },
            SyncState::Insert { size: 10, entries: 2, next: 1 },
            SyncState::Record { size: 10, entries: 2 },
            SyncState::Commit { size: 10, entries: 2 },
            finished(Outcome::Committed),
        ]
    );
    let last = *states.last().unwrap();
    assert_eq!(sync::advance(last, Answer::Failed), last);
}

#[test]
fn file_without_entries_still_clears_its_session() {
    let states = run(&[
        Answer::Failed,
        Answer::Size { size: 3 },
        Answer::Entries { count: 0 },
        Answer::Done,
        Answer::Done,
        Answer::Done,
        Answer::Done,
    ]);
    assert_eq!(states[4], SyncState::Delete { size: 3, entries: 0 });
    assert_eq!(states[5], SyncState::Record { size: 3, entries: 0 });
    assert_eq!(states[7], finished(Outcome::Committed));
}

#[test]
fn unchanged_file_is_skipped() {
    let ten = Answer::Size { size: 10 };
    assert_eq!(run(&[ten, ten])[2], finished(Outcome::Skipped));
    assert_eq!(run(&[ten, Answer::Failed])[2], finished(Outcome::Skipped));
    assert_eq!(run(&[Answer::Failed, Answer::Size { size: 0 }])[2], finished(Outcome::Skipped));
    assert_eq!(run(&[ten, Answer::Size { size: 9 }])[2], SyncState::Read { size: 9 });
    let recorded = sync::size_answer(Some(sync::recorded_size(10)));
    assert_eq!(run(&[recorded, ten])[2], finished(Outcome::Skipped));
}

#[test]
fn recorded_sizes_are_signed() {
    assert_eq!(sync::recorded_size(7), 7);
    assert_eq!(sync::recorded_size(u64::MAX), -1);
    assert_eq!(sync::size_answer(Some(7)), Answer::Size { size: 7 });
    assert_eq!(sync::size_answer(Some(-1)), Answer::Failed);
    assert_eq!(sync::size_answer(None), Answer::Failed);
}

#[test]
fn failure_rolls_back() {
    let good = [
        Answer::Failed,
        Answer::Size { size: 3 },
        Answer::Entries { count: 1 },
        Answer::Done,
        Answer::Done,
        Answer::Done,
        Answer::Done,
        Answer::Done,
    ];
    assert_eq!(run(&good)[8], finished(Outcome::Committed));
    for k in 4..8 {
        let mut answers = good[..k].to_vec();
        answers.push(Answer::Failed);
        assert_eq!(*run(&answers).last().unwrap(), SyncState::RollBack);
        for end in [Answer::Done, Answer::Failed] {
            let mut answers = answers.clone();
            answers.push(end);
            assert_eq!(*run(&answers).last().unwrap(), finished(Outcome::RolledBack));
        }
    }
    let mut answers = good[..3].to_vec();
    answers.push(Answer::Failed);
    assert_eq!(run(&answers)[4], finished(Outcome::NotStarted));
    let mut answers = good[..2].to_vec();
    answers.push(Answer::Failed);
    assert_eq!(run(&answers)[3], finished(Outcome::Unreadable));
}

#[test]
fn only_a_missing_transaction_stops_the_other_files() {
    assert!(!sync::goes_on(Outcome::NotStarted));
    for outcome in [Outcome::Skipped, Outcome::Unreadable, Outcome::RolledBack, Outcome::Committed] {
        assert!(sync::goes_on(outcome));
    }
}

fn set_up(fails: &[SchemaStep]) -> Vec<SchemaStep> {
    let mut steps = vec![schema::start()];
    for _ in 0..8 {
        let last = *steps.last().unwrap();
        steps.push(schema::advance(last, !fails.contains(&last)));
    }
    steps
}

#[test]
fn tables_are_set_up() {
    assert_eq!(
        set_up(&[]),
        vec![
            SchemaStep::CreateEntries,
            SchemaStep::AddParentColumn,
            SchemaStep::AddNicknameColumn,
            SchemaStep::ClearSyncState,
            SchemaStep::AddRoleColumn,
            SchemaStep::CreateTurnIndex,
            SchemaStep::CreateDateIndex,
            SchemaStep::CreateSyncState,
            SchemaStep::Ready,
        ]
    );
}

#[test]
fn columns_may_be_there_already() {
    let steps = set_up(&[
        SchemaStep::AddParentColumn,
        SchemaStep::AddNicknameColumn,
        SchemaStep::AddRoleColumn,
    ]);
    assert!(!steps.contains(&SchemaStep::ClearSyncState));
    assert_eq!(steps[8], SchemaStep::Ready);
    assert_eq!(set_up(&[SchemaStep::ClearSyncState])[8], SchemaStep::Ready);
}

#[test]
fn tables_and_indexes_are_needed() {
    for (step, part) in [
        (SchemaStep::CreateEntries, SchemaPart::Entries),
        (SchemaStep::CreateTurnIndex, SchemaPart::TurnIndex),
        (SchemaStep::CreateDateIndex, SchemaPart::DateIndex),
        (SchemaStep::CreateSyncState, SchemaPart::SyncState),
    ] {
        assert_eq!(set_up(&[step])[8], SchemaStep::Broken(part));
    }
}

#[test]
fn data_directory_is_the_first_that_exists() {
    assert_eq!(get_codex_dir(Some(true), Some(true), true), Some(Place::Configured));
    assert_eq!(get_codex_dir(Some(false), Some(true), true), Some(Place::Home));
    assert_eq!(get_codex_dir(None, Some(true), false), Some(Place::Home));
    assert_eq!(get_codex_dir(None, Some(false), true), Some(Place::Backup));
    assert_eq!(get_codex_dir(Some(false), None, false), None);
}

#[test]
fn setup_is_told() {
    let info = get_setup_info(
        Some("/w".to_string()),
        Some(("/h/.codex".to_string(), true)),
        Some("/h".to_string()),
    );
    assert_eq!(info.workspace_dir, "/w");
    assert_eq!(info.script_path, "");
    assert_eq!(info.codex_dir, "/h/.codex");
    assert!(info.codex_dir_exists);
    assert_eq!(info.home_dir, "/h");
    let info = get_setup_info(None, None, None);
    assert_eq!(info.workspace_dir, "");
    assert_eq!(info.codex_dir, "");
    assert!(!info.codex_dir_exists);
    assert_eq!(info.home_dir, "");
}

#[test]
fn month_has_a_pattern() {
    assert_eq!(month_pattern("2026-01"), "2026-01-%");
}
