//! From the events of a session to its usage entries.

use crate::entry;
use crate::entry::{copy_text, value_or_zero, CostStats, Count, EntryView, TokenStats, UsageEntry};
use crate::json;
use crate::json::{parse_json, Json, JsonView};
use crate::text;
use crate::text::text_is;
use crate::turns;
use crate::turns::{named_turn, place_of};
use crate::whole;
use crate::whole::to_double;
use vstd::prelude::*;

verus! {

/// Token counts of a session so far, as an event reports them.
#[derive(Clone, Copy, Debug, PartialEq, Eq)]
pub struct TokenCountUsage {
    pub input_tokens: u64,
    pub cached_input_tokens: u64,
    pub output_tokens: u64,
    pub reasoning_output_tokens: u64,
    pub total_tokens: u64,
}

/// Five counts, where all of them are there.
pub open spec fn usage_of_counts(
    input: Option<u64>,
    cached: Option<u64>,
    output: Option<u64>,
    reasoning: Option<u64>,
    total: Option<u64>,
) -> Option<TokenCountUsage> {
    match (input, cached, output, reasoning, total) {
        (Some(i), Some(c), Some(o), Some(r), Some(t)) => Some(
            TokenCountUsage {
                input_tokens: i,
                cached_input_tokens: c,
                output_tokens: o,
                reasoning_output_tokens: r,
                total_tokens: t,
            },
        ),
        _ => None,
    }
}

/// Token counts in JSON: an object with the five fields, or an array of the five counts.
pub open spec fn usage_from(v: JsonView) -> Option<TokenCountUsage> {
    match v {
        JsonView::Object(_) => usage_of_counts(
            json::unsigned_field(v, "input_tokens"@),
            json::unsigned_field(v, "cached_input_tokens"@),
            json::unsigned_field(v, "output_tokens"@),
            json::unsigned_field(v, "reasoning_output_tokens"@),
            json::unsigned_field(v, "total_tokens"@),
        ),
        JsonView::Array(items) => if items.len() == 5 {
            usage_of_counts(
                json::unsigned_in(items[0]),
                json::unsigned_in(items[1]),
                json::unsigned_in(items[2]),
                json::unsigned_in(items[3]),
                json::unsigned_in(items[4]),
            )
        } else {
            None
        },
        _ => None,
    }
}

fn make_usage(
    input: Option<u64>,
    cached: Option<u64>,
    output: Option<u64>,
    reasoning: Option<u64>,
    total: Option<u64>,
) -> (r: Option<TokenCountUsage>)
    ensures
        r == usage_of_counts(input, cached, output, reasoning, total),
{
    match (input, cached, output, reasoning, total) {
        (Some(i), Some(c), Some(o), Some(r), Some(t)) => Some(
            TokenCountUsage {
                input_tokens: i,
                cached_input_tokens: c,
                output_tokens: o,
                reasoning_output_tokens: r,
                total_tokens: t,
            },
        ),
        _ => None,
    }
}

/// Reads token counts.
pub fn read_usage(v: &Json) -> (r: Option<TokenCountUsage>)
    ensures
        r == usage_from(v@),
{
    match v {
        Json::Object(_) => make_usage(
            v.get_u64("input_tokens"),
            v.get_u64("cached_input_tokens"),
            v.get_u64("output_tokens"),
            v.get_u64("reasoning_output_tokens"),
            v.get_u64("total_tokens"),
        ),
        Json::Array(items) => if items.len() == 5 {
            make_usage(
                items[0].as_u64(),
                items[1].as_u64(),
                items[2].as_u64(),
                items[3].as_u64(),
                items[4].as_u64(),
            )
        } else {
            None
        },
        _ => None,
    }
}

/// The parent session that an event names, where it differs from the session itself.
pub open spec fn parent_in(e: JsonView) -> Option<Seq<char>> {
    match turns::payload_of_kind(e, "session_meta"@) {
        Some(p) => match (json::text_field(p, "session_id"@), json::text_field(p, "id"@)) {
            (Some(parent), Some(own)) => if parent != own {
                Some(parent)
            } else {
                None
            },
            _ => None,
        },
        None => None,
    }
}

/// The field `name` of the spawning record of a sub-agent.
pub open spec fn spawn_text(p: JsonView, name: Seq<char>) -> Option<Seq<char>> {
    match json::field(p, "source"@) {
        Some(source) => match json::field(source, "subagent"@) {
            Some(subagent) => match json::field(subagent, "thread_spawn"@) {
                Some(spawn) => json::text_field(spawn, name),
                None => None,
            },
            None => None,
        },
        None => None,
    }
}

/// What an event says of the agent: in its payload, or else in the spawning record.
pub open spec fn agent_in(e: JsonView, name: Seq<char>) -> Option<Seq<char>> {
    match turns::payload_of_kind(e, "session_meta"@) {
        Some(p) => if json::text_field(p, name) is Some {
            json::text_field(p, name)
        } else {
            spawn_text(p, name)
        },
        None => None,
    }
}

/// The model that an event names.
pub open spec fn model_in(e: JsonView) -> Option<Seq<char>> {
    if turns::kind_of(e) == "response_item"@ {
        if turns::payload_text(e, "response_item"@, "role"@) == Some("assistant"@) {
            turns::payload_text(e, "response_item"@, "model"@)
        } else {
            None
        }
    } else {
        turns::payload_text(e, "turn_context"@, "model"@)
    }
}

/// The token counts that an event reports.
pub open spec fn usage_in(e: JsonView) -> Option<TokenCountUsage> {
    match turns::payload_of_kind(e, "event_msg"@) {
        Some(p) => if json::text_field_or_empty(p, "type"@) == "token_count"@ {
            match json::field(p, "info"@) {
                Some(info) => match json::field(info, "total_token_usage"@) {
                    Some(usage) => usage_from(usage),
                    None => None,
                },
                None => None,
            }
        } else {
            None
        },
        None => None,
    }
}

/// The duration of a turn that an event reports, in milliseconds.
pub open spec fn duration_in(e: JsonView) -> Option<u64> {
    match turns::payload_of_kind(e, "event_msg"@) {
        Some(p) => {
            let kind = json::text_field_or_empty(p, "type"@);
            if kind == "task_complete"@ || kind == "turn_aborted"@ {
                json::unsigned_field(p, "duration_ms"@)
            } else {
                None
            }
        },
        None => None,
    }
}

/// The version of the command line, as the first event that names one has it.
pub open spec fn version(events: Seq<JsonView>, n: nat) -> Option<Seq<char>> {
    turns::first_of(
        events,
        |e: JsonView| turns::payload_text(e, "session_meta"@, "cli_version"@),
        n,
    )
}

/// The working directory of the session, as the first event that names one has it.
pub open spec fn session_cwd(events: Seq<JsonView>, n: nat) -> Option<Seq<char>> {
    turns::first_of(events, |e: JsonView| turns::payload_text(e, "session_meta"@, "cwd"@), n)
}

/// The parent session, as the last event that names one has it.
pub open spec fn parent(events: Seq<JsonView>, n: nat) -> Option<Seq<char>> {
    turns::last_of(events, |e: JsonView| parent_in(e), n)
}

/// What the first event that says anything says of the agent.
pub open spec fn agent(events: Seq<JsonView>, name: Seq<char>, n: nat) -> Option<Seq<char>> {
    turns::first_of(events, |e: JsonView| agent_in(e, name), n)
}

/// The time of the first event of a turn.
pub open spec fn turn_time(events: Seq<JsonView>, t: Seq<char>, n: nat) -> Option<Seq<char>> {
    turns::first_in_turn(events, t, |e: JsonView| Some(turns::time_of(e)), n)
}

/// The model that the first event of a turn to name one names.
pub open spec fn turn_model(events: Seq<JsonView>, t: Seq<char>, n: nat) -> Option<Seq<char>> {
    turns::first_in_turn(events, t, |e: JsonView| model_in(e), n)
}

/// The working directory that the first event of a turn to name one names.
pub open spec fn turn_cwd(events: Seq<JsonView>, t: Seq<char>, n: nat) -> Option<Seq<char>> {
    turns::first_in_turn(
        events,
        t,
        |e: JsonView| turns::payload_text(e, "turn_context"@, "cwd"@),
        n,
    )
}

/// The duration that was reported last in a turn.
pub open spec fn turn_duration(events: Seq<JsonView>, t: Seq<char>, n: nat) -> Option<u64> {
    turns::last_in_turn(events, t, |e: JsonView| duration_in(e), n)
}

/// The token counts that were reported last in a turn.
pub open spec fn turn_usage(events: Seq<JsonView>, t: Seq<char>, n: nat) -> Option<
    TokenCountUsage,
> {
    turns::last_in_turn(events, t, |e: JsonView| usage_in(e), n)
}

/// What has been read of one turn.
pub struct ParsedTurnData {
    pub turn_no: u32,
    pub timestamp: String,
    pub model: Option<String>,
    pub cwd: Option<String>,
    pub duration_ms: Option<u64>,
    pub total_token_usage: Option<TokenCountUsage>,
}

/// What has been read of a session.
struct Scan {
    version: Option<String>,
    cwd: Option<String>,
    parent: Option<String>,
    nickname: Option<String>,
    role: Option<String>,
    ids: Vec<String>,
    turns: Vec<ParsedTurnData>,
    active: Option<usize>,
}

/// `td` is what the first `n` events say of turn `t`.
spec fn turn_read(td: ParsedTurnData, events: Seq<JsonView>, t: Seq<char>, n: nat) -> bool {
    &&& turn_time(events, t, n) == Some(td.timestamp@)
    &&& json::optional_text(td.model) == turn_model(events, t, n)
    &&& json::optional_text(td.cwd) == turn_cwd(events, t, n)
    &&& td.duration_ms == turn_duration(events, t, n)
    &&& td.total_token_usage == turn_usage(events, t, n)
}

impl Scan {
    /// What has been read of the session as a whole is what the first `n` events say.
    spec fn session_read(self, events: Seq<JsonView>, n: nat) -> bool {
        &&& json::optional_text(self.version) == version(events, n)
        &&& json::optional_text(self.cwd) == session_cwd(events, n)
        &&& json::optional_text(self.parent) == parent(events, n)
        &&& json::optional_text(self.nickname) == agent(events, "agent_nickname"@, n)
        &&& json::optional_text(self.role) == agent(events, "agent_role"@, n)
    }

    /// What has been read of the turns is what the first `n` events say.
    spec fn turns_read(self, events: Seq<JsonView>, n: nat) -> bool {
        &&& text::texts(self.ids@) == turns::turns_seen(events, n)
        &&& self.turns@.len() == self.ids@.len()
        &&& forall|k: int|
            0 <= k < self.turns@.len() ==> turn_read(
                #[trigger] self.turns@[k],
                events,
                self.ids@[k]@,
                n,
            )
        &&& forall|k: int|
            0 <= k < self.turns@.len() ==> (#[trigger] self.turns@[k]).turn_no == (k + 1) as u32
        &&& match self.active {
            Some(k) => k < self.ids@.len() && turns::active_turn(events, n) == Some(
                self.ids@[k as int]@,
            ),
            None => turns::active_turn(events, n) is None,
        }
    }

    fn new() -> (r: Scan)
        ensures
            forall|events: Seq<JsonView>| r.session_read(events, 0) && r.turns_read(events, 0),
    {
        let r = Scan {
            version: None,
            cwd: None,
            parent: None,
            nickname: None,
            role: None,
            ids: Vec::new(),
            turns: Vec::new(),
            active: None,
        };
        assert forall|events: Seq<JsonView>| r.session_read(events, 0) && r.turns_read(events, 0) by {
            assert(text::texts(r.ids@) =~= turns::turns_seen(events, 0));
        }
        r
    }

    /// Reads what an event says of the session as a whole.
    fn read_meta(&mut self, event: &Json, Ghost(events): Ghost<Seq<JsonView>>, Ghost(n): Ghost<nat>)
        requires
            n < events.len(),
            event@ == events[n as int],
            old(self).session_read(events, n),
            turns::kind_of(event@) == "session_meta"@,
        ensures
            final(self).session_read(events, n + 1),
            final(self).ids == old(self).ids,
            final(self).turns == old(self).turns,
            final(self).active == old(self).active,
    {
        if let Some(p) = event.get("payload") {
            if self.version.is_none() {
                self.version = p.get_text("cli_version");
            }
            if self.cwd.is_none() {
                self.cwd = p.get_text("cwd");
            }
            match (p.get_text("session_id"), p.get_text("id")) {
                (Some(parent), Some(own)) => {
                    if !(parent == own) {
                        self.parent = Some(parent);
                    }
                },
                _ => {},
            }
            if self.nickname.is_none() {
                self.nickname = read_agent(p, "agent_nickname");
            }
            if self.role.is_none() {
                self.role = read_agent(p, "agent_role");
            }
        }
    }
}

/// What the payload `p` says of the agent.
fn read_agent(p: &Json, name: &str) -> (r: Option<String>)
    ensures
        json::optional_text(r) == (if json::text_field(p@, name@) is Some {
            json::text_field(p@, name@)
        } else {
            spawn_text(p@, name@)
        }),
{
    match p.get_text(name) {
        Some(s) => Some(s),
        None => match p.get("source") {
            Some(source) => match source.get("subagent") {
                Some(subagent) => match subagent.get("thread_spawn") {
                    Some(spawn) => spawn.get_text(name),
                    None => None,
                },
                None => None,
            },
            None => None,
        },
    }
}

/// Reads what an event of a turn says of the turn.
fn read_turn_event(
    td: &mut ParsedTurnData,
    event: &Json,
    kind: &str,
    Ghost(events): Ghost<Seq<JsonView>>,
    Ghost(t): Ghost<Seq<char>>,
    Ghost(n): Ghost<nat>,
)
    requires
        n < events.len(),
        event@ == events[n as int],
        kind@ == turns::kind_of(event@),
        turns::active_turn(events, n + 1) == Some(t),
        turn_time(events, t, n + 1) == Some(old(td).timestamp@),
        json::optional_text(old(td).model) == turn_model(events, t, n),
        json::optional_text(old(td).cwd) == turn_cwd(events, t, n),
        old(td).duration_ms == turn_duration(events, t, n),
        old(td).total_token_usage == turn_usage(events, t, n),
    ensures
        turn_read(*final(td), events, t, n + 1),
        final(td).turn_no == old(td).turn_no,
{
    proof {
        turns::lemma_kinds_differ();
        reveal_strlit("token_count");
        reveal_strlit("task_complete");
        reveal_strlit("turn_aborted");
        assert("token_count"@.len() == 11);
        assert("task_complete"@.len() == 13);
        assert("turn_aborted"@.len() == 12);
    }
    if text_is(kind, "turn_context") {
        if let Some(p) = event.get("payload") {
            if td.model.is_none() {
                td.model = p.get_text("model");
            }
            if td.cwd.is_none() {
                td.cwd = p.get_text("cwd");
            }
        }
    } else if text_is(kind, "response_item") {
        if let Some(p) = event.get("payload") {
            if let Some(role) = p.get_text("role") {
                if text_is(role.as_str(), "assistant") && td.model.is_none() {
                    td.model = p.get_text("model");
                }
            }
        }
    } else if text_is(kind, "event_msg") {
        if let Some(p) = event.get("payload") {
            let sub_kind = p.get_text_or_empty("type");
            if text_is(sub_kind.as_str(), "token_count") {
                if let Some(info) = p.get("info") {
                    if let Some(usage) = info.get("total_token_usage") {
                        if let Some(usage) = read_usage(usage) {
                            td.total_token_usage = Some(usage);
                        }
                    }
                }
            } else if text_is(sub_kind.as_str(), "task_complete") || text_is(
                sub_kind.as_str(),
                "turn_aborted",
            ) {
                if let Some(duration) = p.get_u64("duration_ms") {
                    td.duration_ms = Some(duration);
                }
            }
        }
    }
}

proof fn lemma_idle_turn(td: ParsedTurnData, events: Seq<JsonView>, t: Seq<char>, n: nat)
    requires
        turn_read(td, events, t, n),
        turns::active_turn(events, n + 1) != Some(t),
    ensures
        turn_read(td, events, t, n + 1),
{
}

impl Scan {
    /// Reads what an event says of the turns.
    fn read_turns(
        &mut self,
        event: &Json,
        kind: &str,
        Ghost(events): Ghost<Seq<JsonView>>,
        Ghost(n): Ghost<nat>,
    )
        requires
            n < events.len(),
            event@ == events[n as int],
            kind@ == turns::kind_of(event@),
            kind@ != "session_meta"@,
            old(self).session_read(events, n),
            old(self).turns_read(events, n),
        ensures
            final(self).session_read(events, n + 1),
            final(self).turns_read(events, n + 1),
    {
        let ghost seen = turns::turns_seen(events, n);
        proof {
            turns::lemma_turns_seen_distinct(events, n);
            assert forall|k: int| 0 <= k < self.ids@.len() implies #[trigger] self.ids@[k]@ == seen[k] by {
                assert(text::texts(self.ids@)[k] == self.ids@[k]@);
            }
        }
        let ghost before = *self;
        if let Some(id) = named_turn(event, kind) {
            match place_of(&self.ids, &id) {
                Some(k) => {
                    assert(seen.contains(id@)) by {
                        assert(seen[k as int] == id@);
                    }
                    self.active = Some(k);
                },
                None => {
                    assert(!seen.contains(id@));
                    proof {
                        turns::lemma_unseen_turn(events, id@, |e: JsonView| Some(turns::time_of(e)), n);
                        turns::lemma_unseen_turn(events, id@, |e: JsonView| model_in(e), n);
                        turns::lemma_unseen_turn(events, id@, |e: JsonView| turns::payload_text(e, "turn_context"@, "cwd"@), n);
                        turns::lemma_unseen_turn(events, id@, |e: JsonView| duration_in(e), n);
                        turns::lemma_unseen_turn(events, id@, |e: JsonView| usage_in(e), n);
                    }
                    self.active = Some(self.ids.len());
                    self.ids.push(id);
                    let turn_no: u32 = self.ids.len() as u32;
                    self.turns.push(ParsedTurnData {
                        turn_no,
                        timestamp: event.get_text_or_empty("timestamp"),
                        model: None,
                        cwd: None,
                        duration_ms: None,
                        total_token_usage: None,
                    });
                    assert(text::texts(self.ids@) =~= seen.push(id@));
                },
            }
        }
        assert(text::texts(self.ids@) =~= turns::turns_seen(events, n + 1));
        proof {
            turns::lemma_turns_seen_distinct(events, n + 1);
            assert forall|k: int| 0 <= k < self.ids@.len() && self.active != Some(k as usize) implies turn_read(#[trigger] self.turns@[k], events, self.ids@[k]@, n + 1) by {
                let now = turns::turns_seen(events, n + 1);
                assert(now[k] == self.ids@[k]@);
                if let Some(a) = self.active {
                    assert(now[a as int] == self.ids@[a as int]@);
                }
                assert(k < before.ids@.len());
                assert(before.turns@[k] == self.turns@[k]);
                lemma_idle_turn(self.turns@[k], events, self.ids@[k]@, n);
            }
        }
        if let Some(k) = self.active {
            let ghost t = self.ids@[k as int]@;
            proof {
                if k < before.ids@.len() {
                    assert(before.turns@[k as int] == self.turns@[k as int]);
                    assert(before.ids@[k as int]@ == t);
                }
            }
            read_turn_event(&mut self.turns[k], event, kind, Ghost(events), Ghost(t), Ghost(n));
        }
    }
}

/// No tokens at all.
pub open spec fn no_usage() -> TokenCountUsage {
    TokenCountUsage {
        input_tokens: 0,
        cached_input_tokens: 0,
        output_tokens: 0,
        reasoning_output_tokens: 0,
        total_tokens: 0,
    }
}

/// The token counts after the first `k` turns: those reported last.
pub open spec fn usage_after(events: Seq<JsonView>, k: nat) -> TokenCountUsage
    decreases k,
{
    if k == 0 {
        no_usage()
    } else {
        match turn_usage(events, turns::turns_seen(events, events.len())[k - 1], events.len()) {
            Some(usage) => usage,
            None => usage_after(events, (k - 1) as nat),
        }
    }
}

/// `a - b`, or zero where `b` is larger.
pub open spec fn less(a: u64, b: u64) -> u64 {
    if a >= b {
        (a - b) as u64
    } else {
        0
    }
}

/// The input that was not read from the cache, together with the output.
pub open spec fn uncached_total(usage: TokenCountUsage) -> int {
    less(usage.input_tokens, usage.cached_input_tokens) + usage.output_tokens
}

/// Token counts as the command line shows them.
pub open spec fn shown(usage: TokenCountUsage) -> TokenStats {
    TokenStats {
        input: less(usage.input_tokens, usage.cached_input_tokens),
        output: usage.output_tokens,
        cache_read: Some(usage.cached_input_tokens),
        cache_write: None,
        reasoning: Some(usage.reasoning_output_tokens),
        total: uncached_total(usage) as u64,
    }
}

/// What came on top of the counts `before`.
pub open spec fn gained(now: TokenStats, before: TokenStats) -> TokenStats {
    TokenStats {
        input: less(now.input, before.input),
        output: less(now.output, before.output),
        cache_read: Some(less(now.cache_read->0, before.cache_read->0)),
        cache_write: None,
        reasoning: Some(less(now.reasoning->0, before.reasoning->0)),
        total: less(now.total, before.total),
    }
}

/// The total of every turn fits in 64 bits.
pub open spec fn totals_fit(events: Seq<JsonView>) -> bool {
    forall|k: nat|
        k <= turns::turns_seen(events, events.len()).len() ==> uncached_total(
            #[trigger] usage_after(events, k),
        ) <= u64::MAX
}

/// What is known of the file of a session.
pub struct SourceView {
    pub filepath: Seq<char>,
    pub session_id: Seq<char>,
    pub session_name: Seq<char>,
}

/// The cost of a turn of which the duration was reported.
pub open spec fn turn_cost(duration_ms: Option<u64>) -> Option<CostStats> {
    match duration_ms {
        Some(d) => Some(
            CostStats {
                total_api_duration_ms: Some(whole::nearest_double(d as int) as i128),
                total_duration_ms: None,
                total_premium_requests: Some(0),
            },
        ),
        None => None,
    }
}

/// The usage entry of the turn at place `k`.
pub open spec fn entry_at(events: Seq<JsonView>, source: SourceView, k: int) -> EntryView {
    let n = events.len();
    let t = turns::turns_seen(events, n)[k];
    let now = shown(usage_after(events, (k + 1) as nat));
    let before = shown(usage_after(events, k as nat));
    EntryView {
        timestamp: turn_time(events, t, n)->0,
        session_id: source.session_id,
        session_name: Some(source.session_name),
        transcript_path: Some(source.filepath),
        cwd: if turn_cwd(events, t, n) is Some {
            turn_cwd(events, t, n)
        } else {
            session_cwd(events, n)
        },
        version: version(events, n),
        turn_no: (k + 1) as u32,
        model: turn_model(events, t, n),
        model_id: turn_model(events, t, n),
        tokens: Some(now),
        delta_tokens: Some(gained(now, before)),
        cost: turn_cost(turn_duration(events, t, n)),
        parent_session_id: parent(events, n),
        agent_nickname: agent(events, "agent_nickname"@, n),
        agent_role: agent(events, "agent_role"@, n),
    }
}

/// The usage entries of a session: one for each turn, in the order of the turns.
pub open spec fn session_entries(events: Seq<JsonView>, source: SourceView) -> Seq<EntryView> {
    Seq::new(
        turns::turns_seen(events, events.len()).len(),
        |k: int| entry_at(events, source, k),
    )
}

/// The counts as the command line shows them.
pub fn cli_tokens(usage: &TokenCountUsage) -> (r: TokenStats)
    requires
        uncached_total(*usage) <= u64::MAX,
    ensures
        r == shown(*usage),
{
    let input: u64 = usage.input_tokens.saturating_sub(usage.cached_input_tokens);
    TokenStats {
        input,
        output: usage.output_tokens,
        cache_read: Some(usage.cached_input_tokens),
        cache_write: None,
        reasoning: Some(usage.reasoning_output_tokens),
        total: input + usage.output_tokens,
    }
}

/// What came on top of the counts `before`.
pub fn delta_tokens(now: &TokenStats, before: &TokenStats) -> (r: TokenStats)
    requires
        now.cache_read is Some,
        now.reasoning is Some,
        before.cache_read is Some,
        before.reasoning is Some,
    ensures
        r == gained(*now, *before),
{
    TokenStats {
        input: now.input.saturating_sub(before.input),
        output: now.output.saturating_sub(before.output),
        cache_read: Some(value_or_zero(now.cache_read).saturating_sub(value_or_zero(before.cache_read))),
        cache_write: None,
        reasoning: Some(value_or_zero(now.reasoning).saturating_sub(value_or_zero(before.reasoning))),
        total: now.total.saturating_sub(before.total),
    }
}

/// Reads all events of a session.
fn scan(events: &Vec<Json>) -> (r: Scan)
    ensures
        r.session_read(turns::trees(events@), events@.len()),
        r.turns_read(turns::trees(events@), events@.len()),
{
    let ghost all = turns::trees(events@);
    let mut r = Scan::new();
    let mut i: usize = 0;
    while i < events.len()
        invariant
            i <= events@.len(),
            all == turns::trees(events@),
            r.session_read(all, i as nat),
            r.turns_read(all, i as nat),
        decreases events@.len() - i,
    {
        let event: &Json = &events[i];
        assert(event@ == all[i as int]);
        let kind = event.get_text_or_empty("type");
        if text_is(kind.as_str(), "session_meta") {
            proof {
                turns::lemma_kinds_differ();
                assert(turns::turn_named(all[i as int]) is None);
                assert forall|k: int| 0 <= k < r.ids@.len() implies turn_read(
                    #[trigger] r.turns@[k],
                    all,
                    r.ids@[k]@,
                    (i + 1) as nat,
                ) by {
                    lemma_meta_event(r.turns@[k], all, r.ids@[k]@, i as nat);
                }
            }
            r.read_meta(event, Ghost(all), Ghost(i as nat));
        } else {
            r.read_turns(event, kind.as_str(), Ghost(all), Ghost(i as nat));
        }
        i += 1;
    }
    r
}

proof fn lemma_meta_event(td: ParsedTurnData, events: Seq<JsonView>, t: Seq<char>, n: nat)
    requires
        n < events.len(),
        turn_read(td, events, t, n),
        turns::kind_of(events[n as int]) == "session_meta"@,
    ensures
        turn_read(td, events, t, n + 1),
{
    turns::lemma_kinds_differ();
}

/// The usage entries of a session.
///
/// Nothing where the total of a turn does not fit in 64 bits.
pub fn usage_entries(
    events: &Vec<Json>,
    filepath: &str,
    session_id: &str,
    session_name: &str,
) -> (r: Option<Vec<UsageEntry>>)
    ensures
        r is Some <==> totals_fit(turns::trees(events@)),
        r matches Some(entries) ==> entry::entries_view(entries@) == session_entries(
            turns::trees(events@),
            SourceView {
                filepath: filepath@,
                session_id: session_id@,
                session_name: session_name@,
            },
        ),
{
    let ghost all = turns::trees(events@);
    let ghost n = all.len();
    let ghost source = SourceView {
        filepath: filepath@,
        session_id: session_id@,
        session_name: session_name@,
    };
    let read = scan(events);
    assert(turns::turns_seen(all, n).len() == read.turns@.len()) by {
        assert(text::texts(read.ids@).len() == read.ids@.len());
    }
    let mut usage = TokenCountUsage {
        input_tokens: 0,
        cached_input_tokens: 0,
        output_tokens: 0,
        reasoning_output_tokens: 0,
        total_tokens: 0,
    };
    let mut before = cli_tokens(&usage);
    let mut entries: Vec<UsageEntry> = Vec::new();
    let mut k: usize = 0;
    while k < read.turns.len()
        invariant
            k <= read.turns@.len(),
            all == turns::trees(events@),
            n == all.len(),
            turns::turns_seen(all, n).len() == read.turns@.len(),
            read.session_read(all, n),
            read.turns_read(all, n),
            source.filepath == filepath@,
            source.session_id == session_id@,
            source.session_name == session_name@,
            usage == usage_after(all, k as nat),
            before == shown(usage),
            forall|j: nat| j <= k ==> uncached_total(#[trigger] usage_after(all, j)) <= u64::MAX,
            entries@.len() == k,
            forall|j: int| 0 <= j < k ==> (#[trigger] entries@[j])@ == entry_at(all, source, j),
        decreases read.turns@.len() - k,
    {
        let td: &ParsedTurnData = &read.turns[k];
        let ghost t = read.ids@[k as int]@;
        assert(turns::turns_seen(all, n)[k as int] == t) by {
            assert(text::texts(read.ids@)[k as int] == t);
        }
        assert(turn_read(*td, all, t, n));
        if let Some(reported) = td.total_token_usage {
            usage = reported;
        }
        assert(usage == usage_after(all, (k + 1) as nat));
        let input: u64 = usage.input_tokens.saturating_sub(usage.cached_input_tokens);
        if input > u64::MAX - usage.output_tokens {
            assert(uncached_total(usage_after(all, (k + 1) as nat)) > u64::MAX);
            return None;
        }
        let now = cli_tokens(&usage);
        let delta = delta_tokens(&now, &before);
        let cost = match td.duration_ms {
            Some(d) => Some(
                CostStats {
                    total_api_duration_ms: Some(to_double(d as i128)),
                    total_duration_ms: None,
                    total_premium_requests: Some(0),
                },
            ),
            None => None,
        };
        let entry = UsageEntry {
            timestamp: td.timestamp.clone(),
            session_id: session_id.to_string(),
            session_name: Some(session_name.to_string()),
            transcript_path: Some(filepath.to_string()),
            cwd: if td.cwd.is_some() {
                copy_text(&td.cwd)
            } else {
                copy_text(&read.cwd)
            },
            version: copy_text(&read.version),
            turn_no: td.turn_no,
            model: copy_text(&td.model),
            model_id: copy_text(&td.model),
            tokens: Some(now),
            delta_tokens: Some(delta),
            cost,
            parent_session_id: copy_text(&read.parent),
            agent_nickname: copy_text(&read.nickname),
            agent_role: copy_text(&read.role),
        };
        assert(entry@ == entry_at(all, source, k as int));
        entries.push(entry);
        before = now;
        k += 1;
    }
    assert(entry::entries_view(entries@) =~= session_entries(all, source));
    Some(entries)
}

/// The events in the lines of a file: every line that is JSON.
pub open spec fn events_in(lines: Seq<Seq<char>>) -> Seq<JsonView>
    decreases lines.len(),
{
    if lines.len() == 0 {
        Seq::empty()
    } else {
        let before = events_in(lines.drop_last());
        match json::parsed(lines.last()) {
            Some(event) => before.push(event),
            None => before,
        }
    }
}

/// Reads the events in the lines of a file, passing over what is not JSON.
pub fn read_events(lines: &Vec<String>) -> (r: Vec<Json>)
    ensures
        turns::trees(r@) == events_in(text::texts(lines@)),
{
    let ghost all = text::texts(lines@);
    let mut events: Vec<Json> = Vec::new();
    let mut i: usize = 0;
    assert(turns::trees(events@) =~= events_in(all.take(0)));
    while i < lines.len()
        invariant
            i <= lines@.len(),
            all == text::texts(lines@),
            turns::trees(events@) == events_in(all.take(i as int)),
        decreases lines@.len() - i,
    {
        let ghost before = turns::trees(events@);
        assert(all.take(i + 1).drop_last() == all.take(i as int));
        assert(all.take(i + 1).last() == lines@[i as int]@);
        if let Some(event) = parse_json(lines[i].as_str()) {
            events.push(event);
            assert(turns::trees(events@) =~= before.push(event@));
        }
        i += 1;
    }
    assert(all.take(i as int) == all);
    events
}

/// Reads the usage entries of a session out of the lines of its file.
///
/// Nothing where the total of a turn does not fit in 64 bits.
pub fn parse_session_file(
    lines: &Vec<String>,
    filepath: &str,
    session_id: &str,
    session_name: &str,
) -> (r: Option<Vec<UsageEntry>>)
    ensures
        r is Some <==> totals_fit(events_in(text::texts(lines@))),
        r matches Some(entries) ==> entry::entries_view(entries@) == session_entries(
            events_in(text::texts(lines@)),
            SourceView {
                filepath: filepath@,
                session_id: session_id@,
                session_name: session_name@,
            },
        ),
{
    let events = read_events(lines);
    usage_entries(&events, filepath, session_id, session_name)
}

/// Appending lines to a file appends their events.
pub proof fn lemma_events_appended(lines: Seq<Seq<char>>, more: Seq<Seq<char>>)
    ensures
        events_in(lines + more) == events_in(lines) + events_in(more),
    decreases more.len(),
{
    if more.len() == 0 {
        assert(lines + more =~= lines);
        assert(events_in(lines) + events_in(more) =~= events_in(lines));
    } else {
        lemma_events_appended(lines, more.drop_last());
        assert((lines + more).drop_last() =~= lines + more.drop_last());
        assert((lines + more).last() == more.last());
        assert(events_in(lines + more) =~= events_in(lines) + events_in(more));
    }
}

/// A line that is not JSON leaves no trace.
pub proof fn lemma_other_lines_ignored(
    lines: Seq<Seq<char>>,
    line: Seq<char>,
    more: Seq<Seq<char>>,
)
    requires
        json::parsed(line) is None,
    ensures
        events_in(lines.push(line) + more) == events_in(lines + more),
{
    lemma_events_appended(lines.push(line), more);
    lemma_events_appended(lines, more);
    assert(lines.push(line).drop_last() =~= lines);
}

/// The event is of none of the kinds that say anything of turns or sessions.
pub open spec fn foreign(e: JsonView) -> bool {
    &&& turns::kind_of(e) != "session_meta"@
    &&& turns::kind_of(e) != "turn_context"@
    &&& turns::kind_of(e) != "event_msg"@
    &&& turns::kind_of(e) != "response_item"@
}

/// An event of a foreign kind leaves no trace in the entries of a session.
pub proof fn lemma_foreign_event_ignored(
    before: Seq<JsonView>,
    e: JsonView,
    after: Seq<JsonView>,
    source: SourceView,
)
    requires
        foreign(e),
    ensures
        totals_fit(before.push(e) + after) <==> totals_fit(before + after),
        session_entries(before.push(e) + after, source) == session_entries(before + after, source),
{
    let all = before.push(e) + after;
    let rest = before + after;
    let n = rest.len();
    turns::lemma_unnamed_skipped(before, e, after, n);
    let listed = turns::turns_seen(rest, n);
    assert forall|k: nat| #[trigger] usage_after(all, k) == usage_after(rest, k) by {
        lemma_usage_skipped(before, e, after, k);
    }
    if totals_fit(all) {
        assert forall|k: nat| k <= listed.len() implies uncached_total(
            #[trigger] usage_after(rest, k),
        ) <= u64::MAX by {
            assert(usage_after(all, k) == usage_after(rest, k));
        }
    }
    assert forall|k: int| 0 <= k < listed.len() implies #[trigger] entry_at(all, source, k)
        == entry_at(rest, source, k) by {
        let t = listed[k];
        turns::lemma_of_skipped(
            before,
            e,
            after,
            |e: JsonView| turns::payload_text(e, "session_meta"@, "cli_version"@),
            n,
        );
        turns::lemma_of_skipped(
            before,
            e,
            after,
            |e: JsonView| turns::payload_text(e, "session_meta"@, "cwd"@),
            n,
        );
        turns::lemma_of_skipped(before, e, after, |e: JsonView| parent_in(e), n);
        turns::lemma_of_skipped(
            before,
            e,
            after,
            |e: JsonView| agent_in(e, "agent_nickname"@),
            n,
        );
        turns::lemma_of_skipped(before, e, after, |e: JsonView| agent_in(e, "agent_role"@), n);
        turns::lemma_in_turn_skipped(before, e, after, t, |e: JsonView| model_in(e), n);
        turns::lemma_in_turn_skipped(
            before,
            e,
            after,
            t,
            |e: JsonView| turns::payload_text(e, "turn_context"@, "cwd"@),
            n,
        );
        turns::lemma_in_turn_skipped(before, e, after, t, |e: JsonView| duration_in(e), n);
        turns::lemma_time_skipped(before, e, after, t, n);
        assert(usage_after(all, (k + 1) as nat) == usage_after(rest, (k + 1) as nat));
        assert(usage_after(all, k as nat) == usage_after(rest, k as nat));
    }
    assert(session_entries(all, source) =~= session_entries(rest, source));
}

proof fn lemma_usage_skipped(before: Seq<JsonView>, e: JsonView, after: Seq<JsonView>, k: nat)
    requires
        foreign(e),
    ensures
        usage_after(before.push(e) + after, k) == usage_after(before + after, k),
    decreases k,
{
    if k > 0 {
        let rest = before + after;
        let n = rest.len();
        lemma_usage_skipped(before, e, after, (k - 1) as nat);
        turns::lemma_unnamed_skipped(before, e, after, n);
        turns::lemma_in_turn_skipped(
            before,
            e,
            after,
            turns::turns_seen(rest, n)[k - 1],
            |e: JsonView| usage_in(e),
            n,
        );
    }
}

/// A line of a foreign kind leaves no trace in the entries of a session.
pub proof fn lemma_foreign_line_ignored(
    lines: Seq<Seq<char>>,
    line: Seq<char>,
    more: Seq<Seq<char>>,
    source: SourceView,
)
    requires
        json::parsed(line) matches Some(e) && foreign(e),
    ensures
        totals_fit(events_in(lines.push(line) + more)) <==> totals_fit(events_in(lines + more)),
        session_entries(events_in(lines.push(line) + more), source) == session_entries(
            events_in(lines + more),
            source,
        ),
{
    lemma_events_appended(lines.push(line), more);
    lemma_events_appended(lines, more);
    assert(lines.push(line).drop_last() =~= lines);
    assert(events_in(lines.push(line)) =~= events_in(lines).push(json::parsed(line)->0));
    lemma_foreign_event_ignored(events_in(lines), json::parsed(line)->0, events_in(more), source);
}

/// In every entry of a session, `input` is the input without what was read from the cache,
/// `total` is `input` and `output`, and the reasoning tokens are not added to it.
pub proof fn lemma_counts_shown(events: Seq<JsonView>, source: SourceView, k: int)
    requires
        totals_fit(events),
        0 <= k < session_entries(events, source).len(),
    ensures
        ({
            let usage = usage_after(events, (k + 1) as nat);
            let tokens = session_entries(events, source)[k].tokens->0;
            &&& usage.cached_input_tokens <= usage.input_tokens ==> tokens.input
                == usage.input_tokens - usage.cached_input_tokens
            &&& tokens.cache_read == Some(usage.cached_input_tokens)
            &&& tokens.output == usage.output_tokens
            &&& tokens.reasoning == Some(usage.reasoning_output_tokens)
            &&& tokens.total == tokens.input + tokens.output
        }),
{
    assert(uncached_total(usage_after(events, (k + 1) as nat)) <= u64::MAX);
}

/// The turns of a session are numbered from one, so no two entries of a session have the
/// same number.
pub proof fn lemma_turn_numbers(events: Seq<JsonView>, source: SourceView)
    requires
        session_entries(events, source).len() <= u32::MAX,
    ensures
        forall|k: int|
            0 <= k < session_entries(events, source).len() ==> (#[trigger] session_entries(
                events,
                source,
            )[k]).turn_no == k + 1,
        forall|j: int, k: int|
            0 <= j < k < session_entries(events, source).len() ==> (#[trigger] session_entries(
                events,
                source,
            )[j]).turn_no != (#[trigger] session_entries(events, source)[k]).turn_no,
{
}

/// What the first `m` turns of a session came to, by their increments.
pub open spec fn gained_in_turns(
    events: Seq<JsonView>,
    source: SourceView,
    c: Count,
    m: nat,
) -> nat
    decreases m,
{
    if m == 0 {
        0
    } else {
        gained_in_turns(events, source, c, (m - 1) as nat) + entry::amount(
            session_entries(events, source)[m - 1].delta_tokens->0,
            c,
        )
    }
}

/// A count that never falls is the sum of its increments.
pub proof fn lemma_increments_sum(events: Seq<JsonView>, source: SourceView, c: Count, m: nat)
    requires
        0 < m <= session_entries(events, source).len(),
        forall|j: int|
            0 < j < m ==> entry::amount(session_entries(events, source)[j - 1].tokens->0, c)
                <= entry::amount((#[trigger] session_entries(events, source)[j]).tokens->0, c),
    ensures
        gained_in_turns(events, source, c, m) == entry::amount(
            session_entries(events, source)[m - 1].tokens->0,
            c,
        ),
    decreases m,
{
    let all = session_entries(events, source);
    if m > 1 {
        lemma_increments_sum(events, source, c, (m - 1) as nat);
        assert(all[m - 1] == entry_at(events, source, m - 1));
        assert(all[m - 2] == entry_at(events, source, m - 2));
    } else {
        reveal_with_fuel(gained_in_turns, 2);
        assert(all[0] == entry_at(events, source, 0));
        assert(usage_after(events, 0) == no_usage());
    }
}

/// The increments of any count come to at least what the last turn has.
pub proof fn lemma_increments_cover(events: Seq<JsonView>, source: SourceView, c: Count, m: nat)
    requires
        0 < m <= session_entries(events, source).len(),
    ensures
        gained_in_turns(events, source, c, m) >= entry::amount(
            session_entries(events, source)[m - 1].tokens->0,
            c,
        ),
    decreases m,
{
    let all = session_entries(events, source);
    if m > 1 {
        lemma_increments_cover(events, source, c, (m - 1) as nat);
        assert(all[m - 1] == entry_at(events, source, m - 1));
        assert(all[m - 2] == entry_at(events, source, m - 2));
    } else {
        reveal_with_fuel(gained_in_turns, 2);
        assert(all[0] == entry_at(events, source, 0));
        assert(usage_after(events, 0) == no_usage());
    }
}

} // verus!
