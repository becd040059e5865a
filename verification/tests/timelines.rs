use codex_cli_token_insights::entry::TokenStats;
use codex_cli_token_insights::json::{parse_json, Json};
use codex_cli_token_insights::timeline::{
    call_arguments, session_timeline, SessionTimeline, TimelineItem,
};
use std::collections::HashMap;

fn stats_of(pairs: &[(u32, u64)]) -> HashMap<u32, TokenStats> {
    pairs
        .iter()
        .map(|(turn, n)| {
            (
                *turn,
                TokenStats {
                    input: *n,
                    output: n + 1,
                    cache_read: Some(n + 2),
                    cache_write: None,
                    reasoning: None,
                    total: 2 * n + 1,
                },
            )
        })
        .collect()
}

fn timeline_of(texts: &[&str], stats: &[(u32, u64)]) -> SessionTimeline {
    let lines: Vec<String> = texts.iter().map(|t| t.to_string()).collect();
    session_timeline(&lines, &stats_of(stats), "Rollout 1").unwrap()
}

#[test]
fn conversation_is_rebuilt() {
    let t = timeline_of(
        &[
            r#"{"type":"session_meta","timestamp":"t0","payload":{"cli_version":"0.9","cwd":"/w","git":{"branch":"main","repository_url":"u"}}}"#,
            r#"{"type":"turn_context","timestamp":"t1","payload":{"turn_id":"a","model":"gpt-5.4"}}"#,
            r#"{"type":"event_msg","timestamp":"t2","payload":{"type":"task_started","turn_id":"a"}}"#,
            r#"{"type":"response_item","timestamp":"t3","payload":{"type":"message","role":"user","content":[{"type":"input_text","text":"hel"},{"type":"other","text":"x"},{"type":"input_text","text":"lo"}]}}"#,
            r#"{"type":"response_item","timestamp":"t4","payload":{"type":"message","role":"assistant","content":[{"type":"output_text","text":"hi"}]}}"#,
            r#"{"type":"event_msg","timestamp":"t5","payload":{"type":"token_count"}}"#,
            r#"{"type":"event_msg","timestamp":"t6","payload":{"type":"task_complete"}}"#,
            r#"{"type":"event_msg","timestamp":"t7","payload":{"type":"turn_aborted","turn_id":"b"}}"#,
            r#"{"type":"event_msg","timestamp":"t8","payload":{"type":"thread_rolled_back"}}"#,
        ],
        &[(1, 10), (2, 100)],
    );
    assert_eq!(t.timeline.len(), 7);
    match &t.timeline[0] {
        TimelineItem::SystemStatus { timestamp, status_type, message } => {
            assert_eq!(timestamp, "t0");
            assert_eq!(status_type, "session_start");
            assert_eq!(message, "會話開始 (Session Started)");
        }
        _ => panic!("not a status"),
    }
    match &t.timeline[2] {
        TimelineItem::UserPrompt { timestamp, prompt, transformed_prompt, attachments, turn_no } => {
            assert_eq!(timestamp, "t3");
            assert_eq!(prompt, "hello");
            assert!(transformed_prompt.is_none());
            assert!(attachments.is_empty());
            assert_eq!(*turn_no, 1);
        }
        _ => panic!("not a prompt"),
    }
    match &t.timeline[3] {
        TimelineItem::AssistantReply {
            reply,
            model,
            input_tokens,
            output_tokens,
            cache_read_tokens,
            cache_write_tokens,
            reasoning_tokens,
            total_tokens,
            tool_requests,
            turn_no,
            ..
        } => {
            assert_eq!(reply, "hi");
            assert_eq!(model, "gpt-5.4");
            assert_eq!(*input_tokens, Some(10));
            assert_eq!(*output_tokens, Some(11));
            assert_eq!(*cache_read_tokens, Some(12));
            assert_eq!(*cache_write_tokens, None);
            assert_eq!(*reasoning_tokens, None);
            assert_eq!(*total_tokens, Some(21));
            assert!(tool_requests.is_empty());
            assert_eq!(*turn_no, 1);
        }
        _ => panic!("not a reply"),
    }
    let kinds: Vec<&str> = t
        .timeline
        .iter()
        .map(|i| match i {
            TimelineItem::SystemStatus { message, .. } => message.as_str(),
            _ => "",
        })
        .collect();
    assert_eq!(
        kinds,
        vec![
            "會話開始 (Session Started)",
            "任務開始 (Task Started)",
            "",
            "",
            "任務完成 (Task Completed)",
            "會話中斷 (Turn Aborted)",
            "會話回滾 (Thread Rolled Back)",
        ]
    );
    assert_eq!(t.metadata.selected_model, "gpt-5.4");
    assert_eq!(t.metadata.start_time, "Rollout 1");
    assert!(matches!(&t.metadata.copilot_version, Some(Json::Str(s)) if s == "0.9"));
    assert!(matches!(&t.metadata.cwd, Some(Json::Str(s)) if s == "/w"));
    assert!(matches!(&t.metadata.git_branch, Some(Json::Str(s)) if s == "main"));
    assert!(matches!(&t.metadata.repository, Some(Json::Str(s)) if s == "u"));
    assert_eq!(t.metadata.total_input_tokens, 10);
    assert_eq!(t.metadata.total_output_tokens, 11);
    assert_eq!(t.metadata.total_cache_read_tokens, 12);
    assert_eq!(t.metadata.total_reasoning_tokens, 0);
    assert_eq!(t.metadata.total_tokens, 21);
    assert_eq!(t.metadata.compaction_count, 0);
}

#[test]
fn call_gets_its_latest_output() {
    let t = timeline_of(
        &[
            r#"{"type":"response_item","timestamp":"t1","payload":{"type":"function_call","name":"shell","call_id":"c1","arguments":"{\"cmd\":[\"ls\"]}"}}"#,
            r#"{"type":"response_item","timestamp":"t2","payload":{"type":"custom_tool_call","name":"patch","call_id":"c2","input":"text"}}"#,
            r#"{"type":"response_item","timestamp":"t3","payload":{"type":"function_call_output","call_id":"c1","output":"one"}}"#,
            r#"{"type":"response_item","timestamp":"t4","payload":{"type":"custom_tool_call_output","call_id":"c1","output":"two"}}"#,
            r#"{"type":"response_item","timestamp":"t5","payload":{"type":"function_call_output","call_id":"c9","output":"stray"}}"#,
        ],
        &[],
    );
    assert_eq!(t.timeline.len(), 2);
    match &t.timeline[0] {
        TimelineItem::ToolStep { tool_name, arguments, result, turn_no, .. } => {
            assert_eq!(tool_name, "shell");
            assert!(matches!(arguments.get("cmd"), Some(Json::Array(a)) if a.len() == 1));
            let result = result.as_ref().unwrap();
            assert_eq!(result.get_text("content").as_deref(), Some("two"));
            assert_eq!(*turn_no, 1);
        }
        _ => panic!("not a call"),
    }
    match &t.timeline[1] {
        TimelineItem::ToolStep { tool_name, arguments, result, .. } => {
            assert_eq!(tool_name, "patch");
            assert_eq!(arguments.get_text("input").as_deref(), Some("text"));
            assert!(result.is_none());
        }
        _ => panic!("not a call"),
    }
}

#[test]
fn output_answers_the_latest_call_of_its_id() {
    let t = timeline_of(
        &[
            r#"{"type":"response_item","payload":{"type":"function_call","name":"a","call_id":"c"}}"#,
            r#"{"type":"response_item","payload":{"type":"function_call","name":"b","call_id":"c"}}"#,
            r#"{"type":"response_item","payload":{"type":"function_call_output","call_id":"c","output":"x"}}"#,
        ],
        &[],
    );
    match (&t.timeline[0], &t.timeline[1]) {
        (
            TimelineItem::ToolStep { result: first, arguments, .. },
            TimelineItem::ToolStep { result: second, .. },
        ) => {
            assert!(first.is_none());
            assert!(matches!(arguments, Json::Null));
            assert!(second.is_some());
        }
        _ => panic!("not calls"),
    }
}

#[test]
fn call_without_an_id_gets_no_output() {
    let t = timeline_of(
        &[
            r#"{"type":"response_item","payload":{"type":"custom_tool_call"}}"#,
            r#"{"type":"response_item","payload":{"type":"custom_tool_call_output","output":"x"}}"#,
        ],
        &[],
    );
    assert_eq!(t.timeline.len(), 1);
    match &t.timeline[0] {
        TimelineItem::ToolStep { tool_name, arguments, result, .. } => {
            assert_eq!(tool_name, "unknown");
            assert!(matches!(arguments, Json::Null));
            assert!(result.is_none());
        }
        _ => panic!("not a call"),
    }
}

#[test]
fn arguments_that_are_no_json_stay_text() {
    assert!(matches!(call_arguments("ls -l", parse_json("ls -l")), Json::Str(s) if s == "ls -l"));
    assert!(matches!(call_arguments("[]", parse_json("[]")), Json::Array(a) if a.is_empty()));
    let t = timeline_of(
        &[
            r#"{"type":"response_item","payload":{"type":"function_call","call_id":"c","arguments":"ls -l"}}"#,
            r#"{"type":"response_item","payload":{"type":"function_call","call_id":"d","arguments":"7"}}"#,
        ],
        &[],
    );
    assert!(matches!(&t.timeline[0], TimelineItem::ToolStep { arguments: Json::Str(s), .. } if s == "ls -l"));
    match &t.timeline[1] {
        TimelineItem::ToolStep { arguments, .. } => assert_eq!(arguments.as_u64(), Some(7)),
        _ => panic!("not a call"),
    }
}

#[test]
fn model_of_a_reply_stays_until_another_is_named() {
    let t = timeline_of(
        &[
            r#"{"type":"response_item","payload":{"role":"assistant"}}"#,
            r#"{"type":"response_item","payload":{"role":"assistant","model":"m1"}}"#,
            r#"{"type":"response_item","payload":{"role":"assistant"}}"#,
        ],
        &[(1, 1)],
    );
    let models: Vec<&str> = t
        .timeline
        .iter()
        .map(|i| match i {
            TimelineItem::AssistantReply { model, .. } => model.as_str(),
            _ => "",
        })
        .collect();
    assert_eq!(models, vec!["gpt-5.3-Codex", "m1", "m1"]);
    assert_eq!(t.metadata.selected_model, "gpt-5.3-Codex");
    // Every reply of a turn shows the counts of the turn, and adds them to the sums.
    assert_eq!(t.metadata.total_input_tokens, 3);
    assert_eq!(t.metadata.total_output_tokens, 6);
    assert_eq!(t.metadata.total_tokens, 9);
}

#[test]
fn turns_are_numbered_as_they_appear() {
    let t = timeline_of(
        &[
            r#"{"type":"response_item","payload":{"role":"user"}}"#,
            r#"{"type":"response_item","metadata":{"turn_id":"a"},"payload":{"role":"user"}}"#,
            r#"{"type":"response_item","metadata":{"turn_id":"b"},"payload":{"role":"user"}}"#,
            r#"{"type":"response_item","metadata":{"turn_id":"a"},"payload":{"role":"user"}}"#,
            r#"{"type":"response_item","payload":{"role":"user"}}"#,
        ],
        &[],
    );
    let turns: Vec<u32> = t
        .timeline
        .iter()
        .map(|i| match i {
            TimelineItem::UserPrompt { turn_no, .. } => *turn_no,
            _ => 0,
        })
        .collect();
    assert_eq!(turns, vec![1, 1, 2, 1, 1]);
}

#[test]
fn timeline_grows_with_its_events() {
    let all = [
        r#"{"type":"session_meta","timestamp":"t0","payload":{}}"#,
        r#"{"type":"response_item","timestamp":"t1","payload":{"role":"user"}}"#,
        r#"{"type":"response_item","timestamp":"t2","payload":{"role":"assistant"}}"#,
    ];
    for n in 0..=all.len() {
        assert_eq!(timeline_of(&all[..n], &[]).timeline.len(), n);
    }
}

#[test]
fn sums_that_do_not_fit_are_refused() {
    let line = r#"{"type":"response_item","payload":{"role":"assistant"}}"#.to_string();
    let mut stats = stats_of(&[(1, 1)]);
    stats.get_mut(&1).unwrap().input = u64::MAX;
    assert!(session_timeline(&vec![line.clone()], &stats, "n").is_some());
    assert!(session_timeline(&vec![line.clone(), line], &stats, "n").is_none());
}
