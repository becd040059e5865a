//! Usage entries as rows of a table, in which counts are signed numbers of 64 bits.

use crate::entry::{copy_text, CostStats, EntryView, TokenStats, UsageEntry};
use crate::json;
use crate::json::JsonView;
use crate::session;
use crate::session::SourceView;
use crate::turns;
use crate::whole;
use crate::whole::{clamp_i64, to_double};
use std::collections::HashMap;
use vstd::prelude::*;

verus! {

broadcast use vstd::std_specs::hash::group_hash_axioms;

/// The 64 bits of a signed number, read as an unsigned one.
pub open spec fn unsigned(v: i64) -> u64 {
    if v >= 0 {
        v as u64
    } else {
        (v + 0x1_0000_0000_0000_0000) as u64
    }
}

/// The 64 bits of an unsigned number, read as a signed one.
pub open spec fn signed(n: u64) -> i64 {
    if n <= i64::MAX {
        n as i64
    } else {
        (n - 0x1_0000_0000_0000_0000) as i64
    }
}

/// A count keeps its value when it is stored with a sign and read back.
pub proof fn lemma_count_kept(n: u64)
    ensures
        unsigned(signed(n)) == n,
{
}

/// The low 32 bits of a signed number.
pub open spec fn low_half(v: i64) -> u32 {
    (unsigned(v) % 0x1_0000_0000) as u32
}

/// Reads the bits of a signed number as an unsigned one.
fn to_unsigned(v: i64) -> (r: u64)
    ensures
        r == unsigned(v),
{
    if v >= 0 {
        v as u64
    } else {
        (v as i128 + 0x1_0000_0000_0000_0000) as u64
    }
}

/// Reads the bits of an unsigned number as a signed one.
pub(crate) fn to_signed(n: u64) -> (r: i64)
    ensures
        r == signed(n),
{
    if n <= i64::MAX as u64 {
        n as i64
    } else {
        (n as i128 - 0x1_0000_0000_0000_0000) as i64
    }
}

/// The low 32 bits of a signed number.
fn to_low_half(v: i64) -> (r: u32)
    ensures
        r == low_half(v),
{
    (to_unsigned(v) % 0x1_0000_0000) as u32
}

/// An optional stored count.
pub open spec fn optional_unsigned(v: Option<i64>) -> Option<u64> {
    match v {
        Some(v) => Some(unsigned(v)),
        None => None,
    }
}

/// An optional count as it is stored.
pub open spec fn optional_signed(n: Option<u64>) -> Option<i64> {
    match n {
        Some(n) => Some(signed(n)),
        None => None,
    }
}

fn to_optional_unsigned(v: Option<i64>) -> (r: Option<u64>)
    ensures
        r == optional_unsigned(v),
{
    match v {
        Some(v) => Some(to_unsigned(v)),
        None => None,
    }
}

fn to_optional_signed(n: Option<u64>) -> (r: Option<i64>)
    ensures
        r == optional_signed(n),
{
    match n {
        Some(n) => Some(to_signed(n)),
        None => None,
    }
}

/// Stored token counts.
#[derive(Clone, Copy, Debug, PartialEq, Eq)]
pub struct TokenColumns {
    pub input: Option<i64>,
    pub output: Option<i64>,
    pub cache_read: Option<i64>,
    pub reasoning: Option<i64>,
    pub total: Option<i64>,
}

/// The counts that columns hold: none unless input, output and total are all there.
pub open spec fn stats_in(c: TokenColumns) -> Option<TokenStats> {
    match (c.input, c.output, c.total) {
        (Some(input), Some(output), Some(total)) => Some(
            TokenStats {
                input: unsigned(input),
                output: unsigned(output),
                cache_read: optional_unsigned(c.cache_read),
                cache_write: None,
                reasoning: optional_unsigned(c.reasoning),
                total: unsigned(total),
            },
        ),
        _ => None,
    }
}

/// The columns for counts.
pub open spec fn columns_for(t: Option<TokenStats>) -> TokenColumns {
    match t {
        Some(t) => TokenColumns {
            input: Some(signed(t.input)),
            output: Some(signed(t.output)),
            cache_read: optional_signed(t.cache_read),
            reasoning: optional_signed(t.reasoning),
            total: Some(signed(t.total)),
        },
        None => TokenColumns {
            input: None,
            output: None,
            cache_read: None,
            reasoning: None,
            total: None,
        },
    }
}

/// Reads counts out of columns.
pub fn read_columns(c: TokenColumns) -> (r: Option<TokenStats>)
    ensures
        r == stats_in(c),
{
    match (c.input, c.output, c.total) {
        (Some(input), Some(output), Some(total)) => Some(
            TokenStats {
                input: to_unsigned(input),
                output: to_unsigned(output),
                cache_read: to_optional_unsigned(c.cache_read),
                cache_write: None,
                reasoning: to_optional_unsigned(c.reasoning),
                total: to_unsigned(total),
            },
        ),
        _ => None,
    }
}

/// Lays counts out in columns.
pub fn write_columns(t: Option<TokenStats>) -> (r: TokenColumns)
    ensures
        r == columns_for(t),
{
    match t {
        Some(t) => TokenColumns {
            input: Some(to_signed(t.input)),
            output: Some(to_signed(t.output)),
            cache_read: to_optional_signed(t.cache_read),
            reasoning: to_optional_signed(t.reasoning),
            total: Some(to_signed(t.total)),
        },
        None => TokenColumns {
            input: None,
            output: None,
            cache_read: None,
            reasoning: None,
            total: None,
        },
    }
}

/// A row of the table of usage entries.
#[derive(Debug)]
pub struct UsageRow {
    pub timestamp: String,
    pub date: String,
    pub session_id: String,
    pub session_name: Option<String>,
    pub transcript_path: Option<String>,
    pub cwd: Option<String>,
    pub version: Option<String>,
    pub turn_no: i64,
    pub model: Option<String>,
    pub model_id: Option<String>,
    pub tokens: TokenColumns,
    pub delta: TokenColumns,
    pub duration_ms: Option<i64>,
    pub premium_requests: Option<i64>,
    pub parent_session_id: Option<String>,
    pub agent_nickname: Option<String>,
    pub agent_role: Option<String>,
}

/// What a row stands for.
pub struct RowView {
    pub timestamp: Seq<char>,
    pub date: Seq<char>,
    pub session_id: Seq<char>,
    pub session_name: Option<Seq<char>>,
    pub transcript_path: Option<Seq<char>>,
    pub cwd: Option<Seq<char>>,
    pub version: Option<Seq<char>>,
    pub turn_no: i64,
    pub model: Option<Seq<char>>,
    pub model_id: Option<Seq<char>>,
    pub tokens: TokenColumns,
    pub delta: TokenColumns,
    pub duration_ms: Option<i64>,
    pub premium_requests: Option<i64>,
    pub parent_session_id: Option<Seq<char>>,
    pub agent_nickname: Option<Seq<char>>,
    pub agent_role: Option<Seq<char>>,
}

impl View for UsageRow {
    type V = RowView;

    open spec fn view(&self) -> RowView {
        RowView {
            timestamp: self.timestamp@,
            date: self.date@,
            session_id: self.session_id@,
            session_name: json::optional_text(self.session_name),
            transcript_path: json::optional_text(self.transcript_path),
            cwd: json::optional_text(self.cwd),
            version: json::optional_text(self.version),
            turn_no: self.turn_no,
            model: json::optional_text(self.model),
            model_id: json::optional_text(self.model_id),
            tokens: self.tokens,
            delta: self.delta,
            duration_ms: self.duration_ms,
            premium_requests: self.premium_requests,
            parent_session_id: json::optional_text(self.parent_session_id),
            agent_nickname: json::optional_text(self.agent_nickname),
            agent_role: json::optional_text(self.agent_role),
        }
    }
}

/// A number with a whole value as it is stored.
pub open spec fn stored_whole(v: Option<i128>) -> Option<i64> {
    match v {
        Some(v) => Some(whole::clamped_i64(v as int)),
        None => None,
    }
}

/// A stored number as one with a whole value.
pub open spec fn read_whole(v: Option<i64>) -> Option<i128> {
    match v {
        Some(v) => Some(whole::nearest_double(v as int) as i128),
        None => None,
    }
}

/// The row for an entry of the given date.
pub open spec fn row_for(e: EntryView, date: Seq<char>) -> RowView {
    RowView {
        timestamp: e.timestamp,
        date,
        session_id: e.session_id,
        session_name: e.session_name,
        transcript_path: e.transcript_path,
        cwd: e.cwd,
        version: e.version,
        turn_no: e.turn_no as i64,
        model: e.model,
        model_id: e.model_id,
        tokens: columns_for(e.tokens),
        delta: columns_for(e.delta_tokens),
        duration_ms: match e.cost {
            Some(c) => stored_whole(c.total_api_duration_ms),
            None => None,
        },
        premium_requests: match e.cost {
            Some(c) => stored_whole(c.total_premium_requests),
            None => None,
        },
        parent_session_id: e.parent_session_id,
        agent_nickname: e.agent_nickname,
        agent_role: e.agent_role,
    }
}

/// The entry that a row holds, without what is known of the agent.
pub open spec fn entry_in(row: RowView) -> EntryView {
    EntryView {
        timestamp: row.timestamp,
        session_id: row.session_id,
        session_name: row.session_name,
        transcript_path: row.transcript_path,
        cwd: row.cwd,
        version: row.version,
        turn_no: low_half(row.turn_no),
        model: row.model,
        model_id: row.model_id,
        tokens: stats_in(row.tokens),
        delta_tokens: stats_in(row.delta),
        cost: if row.duration_ms is Some || row.premium_requests is Some {
            Some(
                CostStats {
                    total_api_duration_ms: read_whole(row.duration_ms),
                    total_duration_ms: None,
                    total_premium_requests: read_whole(row.premium_requests),
                },
            )
        } else {
            None
        },
        parent_session_id: None,
        agent_nickname: None,
        agent_role: None,
    }
}

fn store_whole(v: Option<i128>) -> (r: Option<i64>)
    ensures
        r == stored_whole(v),
{
    match v {
        Some(v) => Some(clamp_i64(v)),
        None => None,
    }
}

fn load_whole(v: Option<i64>) -> (r: Option<i128>)
    ensures
        r == read_whole(v),
{
    match v {
        Some(v) => Some(to_double(v as i128)),
        None => None,
    }
}

/// Lays an entry out in a row, under a date.
pub fn row_of_entry(e: &UsageEntry, date: &String) -> (r: UsageRow)
    ensures
        r@ == row_for(e@, date@),
{
    let (duration_ms, premium_requests): (Option<i64>, Option<i64>) = match e.cost {
        Some(c) => (store_whole(c.total_api_duration_ms), store_whole(c.total_premium_requests)),
        None => (None, None),
    };
    UsageRow {
        timestamp: e.timestamp.clone(),
        date: date.clone(),
        session_id: e.session_id.clone(),
        session_name: copy_text(&e.session_name),
        transcript_path: copy_text(&e.transcript_path),
        cwd: copy_text(&e.cwd),
        version: copy_text(&e.version),
        turn_no: e.turn_no as i64,
        model: copy_text(&e.model),
        model_id: copy_text(&e.model_id),
        tokens: write_columns(e.tokens),
        delta: write_columns(e.delta_tokens),
        duration_ms,
        premium_requests,
        parent_session_id: copy_text(&e.parent_session_id),
        agent_nickname: copy_text(&e.agent_nickname),
        agent_role: copy_text(&e.agent_role),
    }
}

/// Reads the entry out of a row, without what is known of the agent.
pub fn entry_of_row(row: UsageRow) -> (r: UsageEntry)
    ensures
        r@ == entry_in(row@),
{
    let cost: Option<CostStats> = if row.duration_ms.is_some() || row.premium_requests.is_some() {
        Some(
            CostStats {
                total_api_duration_ms: load_whole(row.duration_ms),
                total_duration_ms: None,
                total_premium_requests: load_whole(row.premium_requests),
            },
        )
    } else {
        None
    };
    UsageEntry {
        timestamp: row.timestamp,
        session_id: row.session_id,
        session_name: row.session_name,
        transcript_path: row.transcript_path,
        cwd: row.cwd,
        version: row.version,
        turn_no: to_low_half(row.turn_no),
        model: row.model,
        model_id: row.model_id,
        tokens: read_columns(row.tokens),
        delta_tokens: read_columns(row.delta),
        cost,
        parent_session_id: None,
        agent_nickname: None,
        agent_role: None,
    }
}

/// `e` without what is known of the agent.
pub open spec fn without_agent(e: EntryView) -> EntryView {
    EntryView { parent_session_id: None, agent_nickname: None, agent_role: None, ..e }
}

/// Token counts that say nothing of writes to the cache.
pub open spec fn no_cache_write(t: Option<TokenStats>) -> bool {
    match t {
        Some(t) => t.cache_write is None,
        None => true,
    }
}

/// A double that a row can hold: whole, not negative and at most 2 to the 63rd.
pub open spec fn storable(v: Option<i128>) -> bool {
    match v {
        Some(v) => 0 <= v <= 0x8000_0000_0000_0000 && whole::nearest_double(v as int) == v,
        None => true,
    }
}

/// A row holds all that is known of the entry's costs.
pub open spec fn cost_storable(c: Option<CostStats>) -> bool {
    match c {
        Some(c) => {
            &&& c.total_duration_ms is None
            &&& c.total_api_duration_ms is Some || c.total_premium_requests is Some
            &&& storable(c.total_api_duration_ms)
            &&& storable(c.total_premium_requests)
        },
        None => true,
    }
}

/// Counts are read back from their columns.
pub proof fn lemma_columns_kept(t: Option<TokenStats>)
    requires
        no_cache_write(t),
    ensures
        stats_in(columns_for(t)) == t,
{
}

/// What is written to a row is what is read back, but for what is known of the agent.
pub proof fn lemma_entry_read_back(e: EntryView, date: Seq<char>)
    requires
        no_cache_write(e.tokens),
        no_cache_write(e.delta_tokens),
        cost_storable(e.cost),
    ensures
        entry_in(row_for(e, date)) == without_agent(e),
{
    lemma_columns_kept(e.tokens);
    lemma_columns_kept(e.delta_tokens);
    assert(low_half(e.turn_no as i64) == e.turn_no);
    if let Some(c) = e.cost {
        if let Some(d) = c.total_api_duration_ms {
            whole::lemma_stored_double(d as int);
        }
        if let Some(p) = c.total_premium_requests {
            whole::lemma_stored_double(p as int);
        }
    }
}

/// What is written of a session is read back, but for what is known of the agent, unless the
/// turn took longer than 2 to the 63rd milliseconds.
pub proof fn lemma_session_read_back(
    events: Seq<JsonView>,
    source: SourceView,
    k: int,
    date: Seq<char>,
)
    requires
        0 <= k < session::session_entries(events, source).len(),
        session::turn_duration(
            events,
            turns::turns_seen(events, events.len())[k],
            events.len(),
        ) matches Some(d) ==> d <= 0x8000_0000_0000_0000,
    ensures
        entry_in(row_for(session::session_entries(events, source)[k], date)) == without_agent(
            session::session_entries(events, source)[k],
        ),
{
    let e = session::session_entries(events, source)[k];
    let duration = session::turn_duration(
        events,
        turns::turns_seen(events, events.len())[k],
        events.len(),
    );
    if let Some(d) = duration {
        whole::lemma_nearest_double_stable(d as int);
        whole::lemma_nearest_double_stable(0);
        whole::lemma_nearest_in_range(d as int);
        assert(whole::nearest_double(0) == 0) by {
            assert(whole::spacing(0) == 1);
        }
    }
    lemma_entry_read_back(e, date);
}

/// The counts of a turn as they are stored.
#[derive(Clone, Copy, Debug, PartialEq, Eq)]
pub struct TurnRow {
    pub turn_no: i64,
    pub delta: TokenColumns,
}

/// The counts of the turns in the first `n` rows; of two rows for one turn, the later counts.
pub open spec fn turn_stats_in(rows: Seq<TurnRow>, n: nat) -> Map<u32, TokenStats>
    decreases n,
{
    if n == 0 {
        Map::empty()
    } else {
        let before = turn_stats_in(rows, (n - 1) as nat);
        match stats_in(rows[n - 1].delta) {
            Some(t) => before.insert(low_half(rows[n - 1].turn_no), t),
            None => before,
        }
    }
}

/// The row of a turn for an entry.
pub open spec fn turn_row_for(e: EntryView) -> TurnRow {
    TurnRow { turn_no: e.turn_no as i64, delta: columns_for(e.delta_tokens) }
}

/// The rows of the turns of a session.
pub open spec fn turn_rows_for(es: Seq<EntryView>) -> Seq<TurnRow> {
    es.map_values(|e: EntryView| turn_row_for(e))
}

/// The counts that are read back for a turn of a session are its increments.
pub proof fn lemma_turn_stats_read_back(events: Seq<JsonView>, source: SourceView, k: int)
    requires
        0 <= k < session::session_entries(events, source).len() <= u32::MAX,
    ensures
        ({
            let es = session::session_entries(events, source);
            let stats = turn_stats_in(turn_rows_for(es), es.len());
            &&& stats.dom().contains((k + 1) as u32)
            &&& Some(stats[(k + 1) as u32]) == es[k].delta_tokens
        }),
{
    let es = session::session_entries(events, source);
    lemma_turn_stats_so_far(events, source, es.len(), k);
}

proof fn lemma_turn_stats_so_far(events: Seq<JsonView>, source: SourceView, n: nat, k: int)
    requires
        0 <= k < n <= session::session_entries(events, source).len() <= u32::MAX,
    ensures
        ({
            let es = session::session_entries(events, source);
            let stats = turn_stats_in(turn_rows_for(es), n);
            &&& stats.dom().contains((k + 1) as u32)
            &&& Some(stats[(k + 1) as u32]) == es[k].delta_tokens
        }),
    decreases n,
{
    let es = session::session_entries(events, source);
    lemma_columns_kept(es[n - 1].delta_tokens);
    assert(turn_rows_for(es)[n - 1] == turn_row_for(es[n - 1]));
    assert(low_half(es[n - 1].turn_no as i64) == es[n - 1].turn_no);
    if k < n - 1 {
        lemma_turn_stats_so_far(events, source, (n - 1) as nat, k);
    }
}

/// Collects the counts of turns.
pub fn turn_stats(rows: &Vec<TurnRow>) -> (r: HashMap<u32, TokenStats>)
    ensures
        r@ == turn_stats_in(rows@, rows@.len()),
{
    let mut stats: HashMap<u32, TokenStats> = HashMap::new();
    let mut i: usize = 0;
    while i < rows.len()
        invariant
            i <= rows@.len(),
            stats@ == turn_stats_in(rows@, i as nat),
        decreases rows@.len() - i,
    {
        if let Some(t) = read_columns(rows[i].delta) {
            stats.insert(to_low_half(rows[i].turn_no), t);
        }
        i += 1;
    }
    stats
}

} // verus!
