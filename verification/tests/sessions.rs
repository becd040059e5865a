use codex_cli_token_insights::entry::{CostStats, TokenStats, UsageEntry};
use codex_cli_token_insights::json::{parse_json, Json};
use codex_cli_token_insights::session::{
    cli_tokens, delta_tokens, parse_session_file, read_events, read_usage, TokenCountUsage,
};

fn lines(texts: &[&str]) -> Vec<String> {
    texts.iter().map(|t| t.to_string()).collect()
}

fn entries(texts: &[&str]) -> Vec<UsageEntry> {
    parse_session_file(&lines(texts), "/s/rollout.jsonl", "sid", "Rollout").unwrap()
}

fn stats(input: u64, cache: u64, output: u64, reasoning: u64) -> TokenStats {
    TokenStats {
        input,
        output,
        cache_read: Some(cache),
        cache_write: None,
        reasoning: Some(reasoning),
        total: input + output,
    }
}

fn count_line(turn: &str, input: u64, cached: u64, output: u64, reasoning: u64) -> String {
    format!(
        "{{\"type\":\"event_msg\",\"timestamp\":\"t\",\"payload\":{{\"type\":\"token_count\",\
         \"turn_id\":\"{}\",\"info\":{{\"total_token_usage\":{{\"input_tokens\":{},\
         \"cached_input_tokens\":{},\"output_tokens\":{},\"reasoning_output_tokens\":{},\
         \"total_tokens\":{}}}}}}}}}",
        turn,
        input,
        cached,
        output,
        reasoning,
        input + output
    )
}

#[test]
fn session_is_read_turn_by_turn() {
    let first = count_line("a", 1000, 400, 50, 20);
    let second = count_line("b", 1500, 700, 80, 30);
    let es = entries(&[
        r#"{"type":"session_meta","timestamp":"2026-01-02T03:04:05Z","payload":{"cli_version":"0.9","cwd":"/meta"}}"#,
        r#"{"type":"turn_context","timestamp":"2026-01-02T03:05:00Z","payload":{"turn_id":"a","model":"gpt-5.4","cwd":"/work"}}"#,
        &first,
        r#"{"type":"event_msg","timestamp":"x","payload":{"type":"task_complete","turn_id":"a","duration_ms":1234}}"#,
        "not an event",
        r#"{"type":"event_msg","timestamp":"2026-01-02T03:06:00Z","payload":{"type":"task_started","turn_id":"b"}}"#,
        r#"{"type":"response_item","timestamp":"y","payload":{"role":"assistant","model":"gpt-5.3"}}"#,
        &second,
    ]);
    assert_eq!(es.len(), 2);
    assert_eq!(es[0].timestamp, "2026-01-02T03:05:00Z");
    assert_eq!(es[0].session_id, "sid");
    assert_eq!(es[0].session_name.as_deref(), Some("Rollout"));
    assert_eq!(es[0].transcript_path.as_deref(), Some("/s/rollout.jsonl"));
    assert_eq!(es[0].cwd.as_deref(), Some("/work"));
    assert_eq!(es[0].version.as_deref(), Some("0.9"));
    assert_eq!(es[0].turn_no, 1);
    assert_eq!(es[0].model.as_deref(), Some("gpt-5.4"));
    assert_eq!(es[0].model_id.as_deref(), Some("gpt-5.4"));
    assert_eq!(es[0].tokens, Some(stats(600, 400, 50, 20)));
    assert_eq!(es[0].delta_tokens, Some(stats(600, 400, 50, 20)));
    assert_eq!(
        es[0].cost,
        Some(CostStats {
            total_api_duration_ms: Some(1234),
            total_duration_ms: None,
            total_premium_requests: Some(0),
        })
    );
    assert_eq!(es[0].parent_session_id, None);
    assert_eq!(es[1].timestamp, "2026-01-02T03:06:00Z");
    assert_eq!(es[1].cwd.as_deref(), Some("/meta"));
    assert_eq!(es[1].turn_no, 2);
    assert_eq!(es[1].model.as_deref(), Some("gpt-5.3"));
    assert_eq!(es[1].tokens, Some(stats(800, 700, 80, 30)));
    assert_eq!(es[1].delta_tokens, Some(stats(200, 300, 30, 10)));
    assert_eq!(es[1].cost, None);
}

#[test]
fn counts_of_a_turn_are_the_latest() {
    let early = count_line("a", 10, 0, 1, 0);
    let late = count_line("a", 30, 5, 2, 1);
    let es = entries(&[&early, &late]);
    assert_eq!(es.len(), 1);
    assert_eq!(es[0].tokens, Some(stats(25, 5, 2, 1)));
}

#[test]
fn turn_without_counts_keeps_those_before() {
    let first = count_line("a", 100, 40, 7, 3);
    let es = entries(&[
        &first,
        r#"{"type":"event_msg","payload":{"type":"turn_aborted","turn_id":"b","duration_ms":5}}"#,
    ]);
    assert_eq!(es[1].tokens, Some(stats(60, 40, 7, 3)));
    assert_eq!(es[1].delta_tokens, Some(stats(0, 0, 0, 0)));
    assert_eq!(es[1].timestamp, "");
    assert_eq!(es[1].cost.unwrap().total_api_duration_ms, Some(5));
}

#[test]
fn counts_that_fall_give_no_increment() {
    let first = count_line("a", 100, 0, 10, 0);
    let second = count_line("b", 60, 0, 15, 0);
    let es = entries(&[&first, &second]);
    assert_eq!(es[1].tokens, Some(stats(60, 0, 15, 0)));
    let delta = es[1].delta_tokens.unwrap();
    assert_eq!((delta.input, delta.output, delta.total), (0, 5, 0));
}

#[test]
fn increments_come_to_the_last_counts() {
    let texts: Vec<String> = vec![
        count_line("a", 10, 2, 3, 1),
        count_line("b", 25, 6, 9, 2),
        count_line("c", 70, 30, 11, 2),
    ];
    let es = parse_session_file(&texts, "f", "s", "n").unwrap();
    let gained: u64 = es.iter().map(|e| e.delta_tokens.unwrap().total).sum();
    assert_eq!(gained, es[2].tokens.unwrap().total);
    assert_eq!(gained, 51);
    let numbers: Vec<u32> = es.iter().map(|e| e.turn_no).collect();
    assert_eq!(numbers, vec![1, 2, 3]);
}

#[test]
fn cached_input_larger_than_input_counts_as_none_uncached() {
    let first = count_line("a", 5, 9, 4, 0);
    let es = entries(&[&first]);
    assert_eq!(es[0].tokens, Some(stats(0, 9, 4, 0)));
}

#[test]
fn counts_that_do_not_fit_are_refused() {
    let text = format!(
        "{{\"type\":\"event_msg\",\"payload\":{{\"type\":\"token_count\",\"turn_id\":\"a\",\
         \"info\":{{\"total_token_usage\":{{\"input_tokens\":{},\"cached_input_tokens\":0,\
         \"output_tokens\":1,\"reasoning_output_tokens\":0,\"total_tokens\":0}}}}}}}}",
        u64::MAX
    );
    assert!(parse_session_file(&vec![text], "f", "s", "n").is_none());
}

#[test]
fn parent_and_agent_come_from_the_session() {
    let es = entries(&[
        r#"{"type":"session_meta","payload":{"id":"child","session_id":"mother","source":{"subagent":{"thread_spawn":{"agent_nickname":"Ada","agent_role":"scout"}}}}}"#,
        r#"{"type":"session_meta","payload":{"id":"same","session_id":"same","agent_nickname":"Late"}}"#,
        r#"{"type":"turn_context","payload":{"turn_id":"a"}}"#,
    ]);
    assert_eq!(es[0].parent_session_id.as_deref(), Some("mother"));
    assert_eq!(es[0].agent_nickname.as_deref(), Some("Ada"));
    assert_eq!(es[0].agent_role.as_deref(), Some("scout"));
}

#[test]
fn own_nickname_goes_before_that_of_the_source() {
    let es = entries(&[
        r#"{"type":"session_meta","payload":{"agent_nickname":"Own","source":{"subagent":{"thread_spawn":{"agent_nickname":"Ada"}}}}}"#,
        r#"{"type":"turn_context","payload":{"turn_id":"a"}}"#,
    ]);
    assert_eq!(es[0].agent_nickname.as_deref(), Some("Own"));
    assert_eq!(es[0].agent_role, None);
}

#[test]
fn turn_of_a_response_is_in_its_metadata() {
    let es = entries(&[
        r#"{"type":"response_item","timestamp":"t1","metadata":{"turn_id":"a"},"payload":{"role":"assistant","model":"m1"}}"#,
        r#"{"type":"response_item","timestamp":"t2","payload":{"turn_id":"b","role":"assistant","model":"m2"}}"#,
        r#"{"type":"response_item","timestamp":"t3","metadata":{"turn_id":"c"},"payload":{"role":"user","model":"m3"}}"#,
    ]);
    assert_eq!(es.len(), 2);
    assert_eq!(es[0].model.as_deref(), Some("m1"));
    assert_eq!(es[1].timestamp, "t3");
    assert_eq!(es[1].model, None);
}

#[test]
fn lines_that_are_no_events_change_nothing() {
    let first = count_line("a", 10, 2, 3, 1);
    let plain = entries(&[&first]);
    let mixed = entries(&["", "{", &first, "[1,2", "nonsense"]);
    assert_eq!(plain.len(), mixed.len());
    assert_eq!(plain[0].tokens, mixed[0].tokens);
    assert_eq!(read_events(&lines(&["", "{", "{}", "[1]", "nul"])).len(), 2);
}

#[test]
fn events_of_other_kinds_change_nothing() {
    let first = count_line("a", 10, 2, 3, 1);
    let second = count_line("a", 15, 4, 6, 2);
    let plain = entries(&[&first, &second]);
    let mixed = entries(&[
        r#"{"type":"compacted","timestamp":"t9","payload":{"turn_id":"b","model":"m"}}"#,
        &first,
        r#"{"type":"world_state","timestamp":"t9","payload":{"turn_id":"c","duration_ms":5}}"#,
        r#"{"payload":{"turn_id":"d"}}"#,
        "7",
        &second,
    ]);
    assert_eq!(mixed.len(), 1);
    assert_eq!(mixed[0].timestamp, plain[0].timestamp);
    assert_eq!(mixed[0].model, plain[0].model);
    assert_eq!(mixed[0].tokens, plain[0].tokens);
    assert_eq!(mixed[0].cost, plain[0].cost);
}

#[test]
fn file_without_turns_has_no_entries() {
    assert_eq!(entries(&[]).len(), 0);
    assert_eq!(
        entries(&[r#"{"type":"session_meta","payload":{"turn_id":"a","cwd":"/"}}"#]).len(),
        0
    );
}

fn usage_of(text: &str) -> Option<TokenCountUsage> {
    read_usage(&parse_json(text).unwrap())
}

#[test]
fn usage_needs_all_its_counts() {
    let full = r#"{"input_tokens":1,"cached_input_tokens":2,"output_tokens":3,"reasoning_output_tokens":4,"total_tokens":5,"other":"x"}"#;
    let usage = usage_of(full).unwrap();
    assert_eq!(usage.input_tokens, 1);
    assert_eq!(usage.cached_input_tokens, 2);
    assert_eq!(usage.output_tokens, 3);
    assert_eq!(usage.reasoning_output_tokens, 4);
    assert_eq!(usage.total_tokens, 5);
    assert!(usage_of(&full.replace("\"total_tokens\":5,", "")).is_none());
    assert!(usage_of(&full.replace(":3,", ":-3,")).is_none());
    assert!(usage_of(&full.replace(":3,", ":3.0,")).is_none());
    assert!(usage_of(&full.replace(":3,", ":\"3\",")).is_none());
    assert!(usage_of(&full.replace(":3,", ":null,")).is_none());
    assert!(usage_of("[1,2,3,4,5]").is_some());
    assert!(usage_of("[1,2,3,4]").is_none());
    assert!(usage_of("[1,2,3,4,5,6]").is_none());
    assert!(usage_of("7").is_none());
}

#[test]
fn counts_are_shown_without_the_cache() {
    let usage = TokenCountUsage {
        input_tokens: 1000,
        cached_input_tokens: 900,
        output_tokens: 70,
        reasoning_output_tokens: 60,
        total_tokens: 1070,
    };
    let shown = cli_tokens(&usage);
    assert_eq!(shown, stats(100, 900, 70, 60));
    assert_eq!(shown.total, 170);
    assert_eq!(delta_tokens(&shown, &shown), stats(0, 0, 0, 0));
    assert_eq!(delta_tokens(&shown, &stats(40, 1000, 30, 10)), stats(60, 0, 40, 50));
}

#[test]
fn json_is_read() {
    let v = parse_json(r#" {"b":[true,null],"a":"é","n":18446744073709551615,"m":-1,"f":1.5} "#).unwrap();
    assert_eq!(v.get_text("a").as_deref(), Some("\u{e9}"));
    assert_eq!(v.get_u64("n"), Some(u64::MAX));
    assert_eq!(v.get_u64("m"), None);
    assert_eq!(v.get_u64("f"), None);
    assert_eq!(v.get_text("n"), None);
    assert_eq!(v.get_text_or_empty("missing"), "");
    assert!(matches!(v.get("b"), Some(Json::Array(items)) if items.len() == 2));
    match v.get("f") {
        Some(Json::Number { unsigned: None, text }) => assert_eq!(text, "1.5"),
        _ => panic!("no number"),
    }
    assert!(matches!(v.copy(), Json::Object(fields) if fields.len() == 5));
    assert!(parse_json("{").is_none());
    assert!(parse_json("").is_none());
    assert!(parse_json("1 2").is_none());
    assert!(matches!(parse_json("null"), Some(Json::Null)));
    assert!(matches!(parse_json("true"), Some(Json::Bool(true))));
    assert_eq!(parse_json("\"x\"").unwrap().as_str().map(|s| s.as_str()), Some("x"));
    assert_eq!(parse_json("7").unwrap().as_u64(), Some(7));
}

#[test]
fn of_two_fields_of_one_name_the_last_counts() {
    let v = parse_json(r#"{"a":1,"a":2}"#).unwrap();
    assert_eq!(v.get_u64("a"), Some(2));
}
