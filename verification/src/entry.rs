//! Usage entries: what is known of one turn of a session.

use crate::json;
use vstd::prelude::*;

verus! {

/// Token counts of a turn, as the command line shows them: `input` leaves out what was read
/// from the cache, and `total` is `input` and `output`.
#[derive(Clone, Copy, Debug, PartialEq, Eq)]
pub struct TokenStats {
    pub input: u64,
    pub output: u64,
    pub cache_read: Option<u64>,
    pub cache_write: Option<u64>,
    pub reasoning: Option<u64>,
    pub total: u64,
}

/// Durations and request counts, each a double-precision number with a whole value.
#[derive(Clone, Copy, Debug, PartialEq, Eq)]
pub struct CostStats {
    pub total_api_duration_ms: Option<i128>,
    pub total_duration_ms: Option<i128>,
    pub total_premium_requests: Option<i128>,
}

/// One turn of a session.
#[derive(Debug)]
pub struct UsageEntry {
    pub timestamp: String,
    pub session_id: String,
    pub session_name: Option<String>,
    pub transcript_path: Option<String>,
    pub cwd: Option<String>,
    pub version: Option<String>,
    pub turn_no: u32,
    pub model: Option<String>,
    pub model_id: Option<String>,
    pub tokens: Option<TokenStats>,
    pub delta_tokens: Option<TokenStats>,
    pub cost: Option<CostStats>,
    pub parent_session_id: Option<String>,
    pub agent_nickname: Option<String>,
    pub agent_role: Option<String>,
}

/// What a usage entry stands for.
pub struct EntryView {
    pub timestamp: Seq<char>,
    pub session_id: Seq<char>,
    pub session_name: Option<Seq<char>>,
    pub transcript_path: Option<Seq<char>>,
    pub cwd: Option<Seq<char>>,
    pub version: Option<Seq<char>>,
    pub turn_no: u32,
    pub model: Option<Seq<char>>,
    pub model_id: Option<Seq<char>>,
    pub tokens: Option<TokenStats>,
    pub delta_tokens: Option<TokenStats>,
    pub cost: Option<CostStats>,
    pub parent_session_id: Option<Seq<char>>,
    pub agent_nickname: Option<Seq<char>>,
    pub agent_role: Option<Seq<char>>,
}

impl View for UsageEntry {
    type V = EntryView;

    open spec fn view(&self) -> EntryView {
        EntryView {
            timestamp: self.timestamp@,
            session_id: self.session_id@,
            session_name: json::optional_text(self.session_name),
            transcript_path: json::optional_text(self.transcript_path),
            cwd: json::optional_text(self.cwd),
            version: json::optional_text(self.version),
            turn_no: self.turn_no,
            model: json::optional_text(self.model),
            model_id: json::optional_text(self.model_id),
            tokens: self.tokens,
            delta_tokens: self.delta_tokens,
            cost: self.cost,
            parent_session_id: json::optional_text(self.parent_session_id),
            agent_nickname: json::optional_text(self.agent_nickname),
            agent_role: json::optional_text(self.agent_role),
        }
    }
}

/// What a sequence of usage entries stands for.
pub open spec fn entries_view(s: Seq<UsageEntry>) -> Seq<EntryView> {
    s.map_values(|e: UsageEntry| e@)
}

/// A copy of an optional text.
pub(crate) fn copy_text(s: &Option<String>) -> (r: Option<String>)
    ensures
        json::optional_text(r) == json::optional_text(*s),
{
    match s {
        Some(s) => Some(s.clone()),
        None => None,
    }
}

/// One of the counts in token statistics.
pub enum Count {
    Total,
    Input,
    Output,
    Reasoning,
    CacheRead,
}

/// An optional count; one that is missing is zero.
pub open spec fn or_zero(v: Option<u64>) -> nat {
    match v {
        Some(n) => n as nat,
        None => 0,
    }
}

/// The value of a count.
pub open spec fn amount(t: TokenStats, c: Count) -> nat {
    match c {
        Count::Total => t.total as nat,
        Count::Input => t.input as nat,
        Count::Output => t.output as nat,
        Count::Reasoning => or_zero(t.reasoning),
        Count::CacheRead => or_zero(t.cache_read),
    }
}

/// The value of an optional count, or zero.
pub(crate) fn value_or_zero(v: Option<u64>) -> (r: u64)
    ensures
        r == or_zero(v),
{
    match v {
        Some(n) => n,
        None => 0,
    }
}

impl UsageEntry {
    /// A copy of this entry.
    pub fn copy(&self) -> (r: UsageEntry)
        ensures
            r@ == self@,
    {
        UsageEntry {
            timestamp: self.timestamp.clone(),
            session_id: self.session_id.clone(),
            session_name: copy_text(&self.session_name),
            transcript_path: copy_text(&self.transcript_path),
            cwd: copy_text(&self.cwd),
            version: copy_text(&self.version),
            turn_no: self.turn_no,
            model: copy_text(&self.model),
            model_id: copy_text(&self.model_id),
            tokens: self.tokens,
            delta_tokens: self.delta_tokens,
            cost: self.cost,
            parent_session_id: copy_text(&self.parent_session_id),
            agent_nickname: copy_text(&self.agent_nickname),
            agent_role: copy_text(&self.agent_role),
        }
    }
}

} // verus!
