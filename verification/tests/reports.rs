use codex_cli_token_insights::daily::{usage_details, DaySummary, ReportError};
use codex_cli_token_insights::entry::{CostStats, TokenStats, UsageEntry};
use codex_cli_token_insights::monthly::{entries_in_month, is_month_name, monthly_details};
use codex_cli_token_insights::order::{ranks_of, Earliest, Largest, Newest};
use codex_cli_token_insights::pricing::{load_pricing_rules, PricingRule};
use codex_cli_token_insights::totals::{count_entries, distinct_keys, Grouping};

fn stats(input: u64, output: u64, cache: u64, reasoning: u64) -> TokenStats {
    TokenStats {
        input,
        output,
        cache_read: Some(cache),
        cache_write: None,
        reasoning: Some(reasoning),
        total: input + output,
    }
}

fn entry(time: &str, session: &str, turn: u32, delta: Option<TokenStats>) -> UsageEntry {
    UsageEntry {
        timestamp: time.to_string(),
        session_id: session.to_string(),
        session_name: Some(format!("name {}", session)),
        transcript_path: None,
        cwd: Some("/w".to_string()),
        version: None,
        turn_no: turn,
        model: Some("gpt-5.5".to_string()),
        model_id: None,
        tokens: Some(stats(7, 8, 9, 10)),
        delta_tokens: delta,
        cost: None,
        parent_session_id: None,
        agent_nickname: None,
        agent_role: None,
    }
}

fn cost(duration: i128, requests: i128) -> Option<CostStats> {
    Some(CostStats {
        total_api_duration_ms: Some(duration),
        total_duration_ms: None,
        total_premium_requests: Some(requests),
    })
}

fn rules() -> Vec<PricingRule> {
    load_pricing_rules(&vec![])
}

fn day() -> Vec<UsageEntry> {
    let mut es = vec![
        entry("2026-01-02T01:00", "s1", 1, Some(stats(100, 10, 5, 1))),
        entry("2026-01-02T02:00", "s2", 1, Some(stats(200, 20, 6, 2))),
        entry("2026-01-02T03:00", "s1", 2, Some(stats(300, 30, 7, 3))),
    ];
    es[0].cost = cost(11, 1);
    es[1].cost = cost(22, 2);
    es[2].cost = cost(33, 4);
    es[2].model = Some("gpt-5.3".to_string());
    es[2].cwd = Some("/x".to_string());
    es
}

#[test]
fn day_is_summed_up() {
    let details = usage_details(&day(), &rules()).ok().unwrap();
    let s = &details.summary;
    assert_eq!(s.total_sessions, 2);
    assert_eq!(s.total_tokens, 660);
    assert_eq!(s.total_input_tokens, 600);
    assert_eq!(s.total_output_tokens, 60);
    assert_eq!(s.total_cache_read_tokens, 18);
    assert_eq!(s.total_reasoning_tokens, 6);
    assert_eq!(s.total_duration_ms, 66);
    assert_eq!(s.total_requests, 3);
    let durations: u64 = details.sessions.iter().map(|s| s.duration_ms).sum();
    assert_eq!(durations, s.total_duration_ms);
    let sessions: u64 = details.sessions.iter().map(|s| s.total_tokens).sum();
    assert_eq!(sessions, s.total_tokens);
    assert_eq!(details.sessions.len(), s.total_sessions);
}

#[test]
fn sessions_stand_newest_first() {
    let details = usage_details(&day(), &rules()).ok().unwrap();
    let ids: Vec<&str> = details.sessions.iter().map(|s| s.session_id.as_str()).collect();
    assert_eq!(ids, vec!["s2", "s1"]);
    let s1 = &details.sessions[1];
    assert_eq!(s1.session_name, "name s1");
    assert_eq!(s1.timestamp, "2026-01-02T01:00");
    assert_eq!(s1.max_turn_no, 2);
    assert_eq!(s1.model, "gpt-5.3");
    assert_eq!(s1.cwd, "/x");
    assert_eq!(s1.duration_ms, 44);
    assert_eq!(s1.total_tokens, 440);
    assert_eq!(s1.total_input_tokens, 400);
    assert_eq!(s1.total_output_tokens, 40);
    assert_eq!(s1.total_cache_read_tokens, 12);
    assert_eq!(s1.total_reasoning_tokens, 4);
    assert_eq!(s1.bill.rule, 4);
    assert_eq!(s1.bill.uncached_input_tokens, 400);
    assert_eq!(s1.bill.output_tokens, 40);
    assert_eq!(s1.bill.cache_read_tokens, 12);
    assert_eq!(details.sessions[0].bill.rule, 0);
}

#[test]
fn session_without_increments_shows_its_last_turn() {
    let mut es = vec![
        entry("2026-01-02T01:00", "s", 1, None),
        entry("2026-01-02T02:00", "s", 3, None),
        entry("2026-01-02T03:00", "s", 2, None),
    ];
    es[1].tokens = Some(stats(70, 7, 17, 27));
    es[1].session_name = None;
    es[1].cwd = None;
    es[1].model = None;
    let details = usage_details(&es, &rules()).ok().unwrap();
    let s = &details.sessions[0];
    assert_eq!(s.total_tokens, 77);
    assert_eq!(s.total_input_tokens, 70);
    assert_eq!(s.total_output_tokens, 7);
    assert_eq!(s.total_cache_read_tokens, 17);
    assert_eq!(s.total_reasoning_tokens, 27);
    assert_eq!(s.session_name, "Start Coding Session");
    assert_eq!(s.cwd, "");
    assert_eq!(s.model, "Unknown Model");
    assert_eq!(s.duration_ms, 0);
    // Of the turns without increments only the first counts for the day.
    assert_eq!(details.summary.total_tokens, 15);
    assert_eq!(details.summary.total_requests, 3);
}

#[test]
fn equal_turns_are_told_apart_by_their_order() {
    let mut es = vec![
        entry("2026-01-02T01:00", "s", 2, Some(stats(1, 1, 0, 0))),
        entry("2026-01-02T02:00", "s", 2, Some(stats(1, 1, 0, 0))),
    ];
    es[1].cwd = Some("/last".to_string());
    es[0].cost = cost(5, 50);
    es[1].cost = cost(6, 60);
    let details = usage_details(&es, &rules()).ok().unwrap();
    assert_eq!(details.sessions[0].cwd, "/last");
    assert_eq!(details.sessions[0].duration_ms, 11);
    let month = monthly_details("2026-01", &es, &rules()).ok().unwrap();
    assert_eq!(month.summary.total_duration_ms, 11);
    assert_eq!(month.summary.total_requests, 50);
}

#[test]
fn negative_durations_count_as_none() {
    let mut es = vec![entry("2026-01-02T01:00", "s", 1, None)];
    es[0].cost = cost(-5, -6);
    let details = usage_details(&es, &rules()).ok().unwrap();
    assert_eq!(details.summary.total_duration_ms, 0);
    let month = monthly_details("2026-01", &es, &rules()).ok().unwrap();
    assert_eq!(month.summary.total_requests, 0);
}

#[test]
fn nothing_to_report_on() {
    assert_eq!(usage_details(&vec![], &rules()).err(), Some(ReportError::NoEntries));
    assert_eq!(monthly_details("2026-01", &vec![], &rules()).err(), Some(ReportError::NoEntries));
}

#[test]
fn sums_too_large_to_report() {
    let es = vec![
        entry("2026-01-02T01:00", "s", 1, Some(stats(u64::MAX, 0, 0, 0))),
        entry("2026-01-02T01:00", "s", 2, Some(stats(1, 0, 0, 0))),
    ];
    assert_eq!(usage_details(&es, &rules()).err(), Some(ReportError::TooLarge));
    assert_eq!(monthly_details("2026-01", &es, &rules()).err(), Some(ReportError::TooLarge));
    assert!(count_entries(&es).is_none());
    let mut es = vec![entry("2026-01-02", "a", 1, None), entry("2026-01-02", "b", 1, None)];
    es[0].cost = cost(u64::MAX as i128, 0);
    es[1].cost = cost(1, 0);
    assert_eq!(usage_details(&es, &rules()).err(), Some(ReportError::TooLarge));
    assert_eq!(monthly_details("2026-01", &es, &rules()).err(), Some(ReportError::TooLarge));
}

#[test]
fn undated_entries_are_not_reported() {
    for time in ["2026-01-0", "2026-01-", "2026-01-0\u{e9}"] {
        let es = vec![entry(time, "s", 1, None)];
        assert_eq!(monthly_details("2026-01", &es, &rules()).err(), Some(ReportError::Undated));
        assert!(usage_details(&es, &rules()).is_ok());
        // Only the entries of the month are looked at.
        assert!(monthly_details("2026-02", &es, &rules()).is_ok());
    }
    let es = vec![entry("2026-01-xy", "s", 1, None)];
    assert!(monthly_details("2026-01", &es, &rules()).is_ok());
}

fn month() -> Vec<UsageEntry> {
    let mut es = day();
    es.insert(0, entry("2026-01-03T09:00", "s1", 3, Some(stats(1000, 0, 0, 0))));
    es[0].cost = cost(44, 8);
    es[0].model = None;
    es[0].cwd = None;
    es
}

#[test]
fn month_is_told_day_by_day() {
    let m = monthly_details("2026-01", &month(), &rules()).ok().unwrap();
    let dates: Vec<&str> = m.daily_breakdown.iter().map(|d| d.date.as_str()).collect();
    assert_eq!(dates, vec!["2026-01-02", "2026-01-03"]);
    let d = &m.daily_breakdown[0];
    assert_eq!(d.total_sessions, 2);
    assert_eq!(d.total_tokens, 660);
    assert_eq!(d.total_input_tokens, 600);
    assert_eq!(d.total_output_tokens, 60);
    assert_eq!(d.total_cache_read_tokens, 18);
    assert_eq!(d.total_reasoning_tokens, 6);
    assert_eq!(d.total_duration_ms, 66);
    assert_eq!(d.total_requests, 6);
    let inputs: Vec<u64> = d.bills.iter().map(|b| b.uncached_input_tokens).collect();
    assert_eq!(inputs, vec![400, 200]);
    assert_eq!(m.daily_breakdown[1].total_tokens, 1000);
    assert_eq!(m.summary.total_sessions, 2);
    assert_eq!(m.summary.total_tokens, 1660);
    assert_eq!(m.summary.total_duration_ms, 110);
    assert_eq!(m.summary.total_requests, 14);
}

#[test]
fn month_keeps_to_its_own_days() {
    let es = vec![
        entry("2025-01-31T23:59:00Z", "s", 1, Some(stats(10, 1, 0, 0))),
        entry("2025-02-01T00:01:00Z", "s", 2, Some(stats(20, 2, 0, 0))),
        entry("2025-02-01T00:02:00Z", "t", 1, Some(stats(40, 4, 0, 0))),
    ];
    let m = monthly_details("2025-01", &es, &rules()).ok().unwrap();
    assert_eq!(m.daily_breakdown.len(), 1);
    assert_eq!(m.daily_breakdown[0].date, "2025-01-31");
    assert_eq!(m.summary.total_sessions, 1);
    assert_eq!(m.summary.total_tokens, 11);
    assert_eq!(m.top_models[0].total_tokens, 11);
    assert_eq!(m.top_models[0].session_count, 1);
    assert_eq!(m.top_projects[0].total_tokens, 11);
    let m = monthly_details("2025-02", &es, &rules()).ok().unwrap();
    assert_eq!(m.daily_breakdown[0].date, "2025-02-01");
    assert_eq!(m.summary.total_sessions, 2);
    assert_eq!(m.summary.total_tokens, 66);
    assert_eq!(entries_in_month(&es, "2025-02").len(), 2);
    // Every turn lies in one of the two months.
    assert_eq!(entries_in_month(&es, "2025-01").len(), 1);
    assert_eq!(entries_in_month(&es, "2025-03").len(), 0);
}

#[test]
fn month_without_entries_of_its_own_is_empty() {
    let es = vec![entry("2025-02-01T00:01:00Z", "s", 2, Some(stats(20, 2, 0, 0)))];
    let m = monthly_details("2025-01", &es, &rules()).ok().unwrap();
    assert!(m.daily_breakdown.is_empty());
    assert!(m.top_models.is_empty());
    assert!(m.top_projects.is_empty());
    assert_eq!(m.summary, DaySummary::default());
}

#[test]
fn pattern_reports_on_all_that_it_selected() {
    let es = vec![
        entry("2025-01-02T00:00:00Z", "s", 1, Some(stats(10, 1, 0, 0))),
        entry("2025-09-30T23:59:00Z", "t", 1, Some(stats(20, 2, 0, 0))),
        entry("2025-10-01T00:01:00Z", "t", 2, Some(stats(40, 4, 0, 0))),
    ];
    for pattern in ["2025-0_", "2025", "%", "", "2025-0x", "2025-1", "2025-012"] {
        assert!(!is_month_name(pattern));
        let m = monthly_details(pattern, &es, &rules()).ok().unwrap();
        assert_eq!(m.summary.total_tokens, 77);
        let dates: Vec<&str> = m.daily_breakdown.iter().map(|d| d.date.as_str()).collect();
        assert_eq!(dates, vec!["2025-01-02", "2025-09-30", "2025-10-01"]);
    }
    let es = vec![entry("", "s", 1, None)];
    assert_eq!(monthly_details("%", &es, &rules()).err(), Some(ReportError::Undated));
}

#[test]
fn months_are_known_by_their_form() {
    assert!(is_month_name("2025-01"));
    assert!(is_month_name("0000-99"));
    assert!(!is_month_name("2025_01"));
    assert!(!is_month_name("-025-01"));
    assert!(!is_month_name("2025--1"));
    assert!(!is_month_name("\u{ff12}025-01"));
}

#[test]
fn days_models_and_projects_come_to_the_month() {
    let m = monthly_details("2026-01", &month(), &rules()).ok().unwrap();
    let total = m.summary.total_tokens;
    assert_eq!(m.daily_breakdown.iter().map(|d| d.total_tokens).sum::<u64>(), total);
    assert_eq!(m.top_models.iter().map(|d| d.total_tokens).sum::<u64>(), total);
    assert_eq!(m.top_projects.iter().map(|d| d.total_tokens).sum::<u64>(), total);
    let requests: u64 = m.daily_breakdown.iter().map(|d| d.total_requests).sum();
    assert_eq!(requests, m.summary.total_requests);
    let durations: u64 = m.daily_breakdown.iter().map(|d| d.total_duration_ms).sum();
    assert_eq!(durations, m.summary.total_duration_ms);
}

#[test]
fn models_and_projects_stand_busiest_first() {
    let m = monthly_details("2026-01", &month(), &rules()).ok().unwrap();
    let models: Vec<(&str, usize, u64)> = m
        .top_models
        .iter()
        .map(|x| (x.model.as_str(), x.session_count, x.total_tokens))
        .collect();
    assert_eq!(
        models,
        vec![("Unknown Model", 1, 1000), ("gpt-5.5", 2, 330), ("gpt-5.3", 1, 330)]
    );
    assert_eq!(m.top_models[1].total_input_tokens, 300);
    assert_eq!(m.top_models[1].total_output_tokens, 30);
    assert_eq!(m.top_models[1].total_cache_read_tokens, 11);
    assert_eq!(m.top_models[1].bill.rule, 0);
    assert_eq!(m.top_models[1].bill.uncached_input_tokens, 300);
    let projects: Vec<(&str, usize, u64, u64)> = m
        .top_projects
        .iter()
        .map(|x| (x.project.as_str(), x.session_count, x.total_tokens, x.total_cache_read_tokens))
        .collect();
    assert_eq!(
        projects,
        vec![("Unknown Path", 1, 1000, 0), ("/w", 2, 330, 11), ("/x", 1, 330, 7)]
    );
}

#[test]
fn empty_summary_is_zero() {
    let s = DaySummary::default();
    assert_eq!(s.total_sessions, 0);
    assert_eq!(s.total_tokens, 0);
    assert_eq!(s.total_input_tokens, 0);
    assert_eq!(s.total_output_tokens, 0);
    assert_eq!(s.total_reasoning_tokens, 0);
    assert_eq!(s.total_cache_read_tokens, 0);
    assert_eq!(s.total_duration_ms, 0);
    assert_eq!(s.total_requests, 0);
}

#[test]
fn order_is_stable() {
    let texts = |names: &[&str]| names.iter().map(|n| n.to_string()).collect::<Vec<String>>();
    let newest: Vec<Newest> = texts(&["a", "b", "a", "c"]).into_iter().map(Newest).collect();
    assert_eq!(ranks_of(&newest), vec![3, 1, 0, 2]);
    let earliest: Vec<Earliest> = texts(&["b", "a", "ab", "b"]).into_iter().map(Earliest).collect();
    assert_eq!(ranks_of(&earliest), vec![1, 2, 0, 3]);
    let largest: Vec<Largest> = vec![5, 9, 5].into_iter().map(Largest).collect();
    assert_eq!(ranks_of(&largest), vec![1, 0, 2]);
}

#[test]
fn keys_stand_in_the_order_of_their_first_entries() {
    assert_eq!(distinct_keys(&day(), Grouping::Session), vec!["s1".to_string(), "s2".to_string()]);
}
