//! The timeline of a session: prompts, replies, tool calls and status changes.

use crate::entry;
use crate::entry::{value_or_zero, Count, TokenStats};
use crate::json;
use crate::json::{parse_json, Json, JsonView};
use crate::session;
use crate::session::read_events;
use crate::text;
use crate::text::text_is;
use crate::timeline_laws;
use crate::turns;
use crate::turns::TurnTracker;
use std::collections::HashMap;
use vstd::prelude::*;
use vstd::std_specs::hash::*;
use vstd::string::*;

verus! {

/// One item of a timeline.
pub enum TimelineItem {
    UserPrompt {
        timestamp: String,
        prompt: String,
        transformed_prompt: Option<String>,
        attachments: Vec<Json>,
        turn_no: u32,
    },
    AssistantReply {
        timestamp: String,
        reply: String,
        model: String,
        output_tokens: Option<u64>,
        input_tokens: Option<u64>,
        cache_read_tokens: Option<u64>,
        cache_write_tokens: Option<u64>,
        reasoning_tokens: Option<u64>,
        total_tokens: Option<u64>,
        tool_requests: Vec<Json>,
        turn_no: u32,
    },
    ToolStep {
        timestamp: String,
        tool_name: String,
        arguments: Json,
        result: Option<Json>,
        turn_no: u32,
    },
    SystemStatus { timestamp: String, status_type: String, message: String },
}

/// What an item of a timeline stands for.
pub enum ItemView {
    UserPrompt {
        timestamp: Seq<char>,
        prompt: Seq<char>,
        transformed_prompt: Option<Seq<char>>,
        attachments: Seq<JsonView>,
        turn_no: u32,
    },
    AssistantReply {
        timestamp: Seq<char>,
        reply: Seq<char>,
        model: Seq<char>,
        output_tokens: Option<u64>,
        input_tokens: Option<u64>,
        cache_read_tokens: Option<u64>,
        cache_write_tokens: Option<u64>,
        reasoning_tokens: Option<u64>,
        total_tokens: Option<u64>,
        tool_requests: Seq<JsonView>,
        turn_no: u32,
    },
    ToolStep {
        timestamp: Seq<char>,
        tool_name: Seq<char>,
        arguments: JsonView,
        result: Option<JsonView>,
        turn_no: u32,
    },
    SystemStatus { timestamp: Seq<char>, status_type: Seq<char>, message: Seq<char> },
}

impl View for TimelineItem {
    type V = ItemView;

    open spec fn view(&self) -> ItemView {
        match *self {
            TimelineItem::UserPrompt {
                timestamp,
                prompt,
                transformed_prompt,
                attachments,
                turn_no,
            } => ItemView::UserPrompt {
                timestamp: timestamp@,
                prompt: prompt@,
                transformed_prompt: json::optional_text(transformed_prompt),
                attachments: turns::trees(attachments@),
                turn_no,
            },
            TimelineItem::AssistantReply {
                timestamp,
                reply,
                model,
                output_tokens,
                input_tokens,
                cache_read_tokens,
                cache_write_tokens,
                reasoning_tokens,
                total_tokens,
                tool_requests,
                turn_no,
            } => ItemView::AssistantReply {
                timestamp: timestamp@,
                reply: reply@,
                model: model@,
                output_tokens,
                input_tokens,
                cache_read_tokens,
                cache_write_tokens,
                reasoning_tokens,
                total_tokens,
                tool_requests: turns::trees(tool_requests@),
                turn_no,
            },
            TimelineItem::ToolStep { timestamp, tool_name, arguments, result, turn_no } =>
                ItemView::ToolStep {
                timestamp: timestamp@,
                tool_name: tool_name@,
                arguments: arguments@,
                result: json::optional_json(result),
                turn_no,
            },
            TimelineItem::SystemStatus { timestamp, status_type, message } =>
                ItemView::SystemStatus {
                timestamp: timestamp@,
                status_type: status_type@,
                message: message@,
            },
        }
    }
}

/// What a timeline stands for.
pub open spec fn items_view(s: Seq<TimelineItem>) -> Seq<ItemView> {
    s.map_values(|i: TimelineItem| i@)
}

/// The payload of a response.
pub open spec fn response(e: JsonView) -> Option<JsonView> {
    turns::payload_of_kind(e, "response_item"@)
}

/// A prompt of the user.
pub open spec fn is_prompt(e: JsonView) -> bool {
    response(e) is Some && json::text_field_or_empty(response(e)->0, "role"@) == "user"@
}

/// A reply of the assistant.
pub open spec fn is_reply(e: JsonView) -> bool {
    response(e) is Some && json::text_field_or_empty(response(e)->0, "role"@) == "assistant"@
}

/// A response of this type by neither the user nor the assistant.
pub open spec fn is_response(e: JsonView, of: Seq<char>) -> bool {
    &&& response(e) is Some
    &&& !is_prompt(e)
    &&& !is_reply(e)
    &&& json::text_field_or_empty(response(e)->0, "type"@) == of
}

/// A call of a tool.
pub open spec fn is_call(e: JsonView) -> bool {
    is_response(e, "function_call"@) || is_response(e, "custom_tool_call"@)
}

/// The output of a tool.
pub open spec fn is_output(e: JsonView) -> bool {
    is_response(e, "function_call_output"@) || is_response(e, "custom_tool_call_output"@)
}

/// The texts of the blocks of this type, one after the other.
pub open spec fn blocks_text(blocks: Seq<JsonView>, of: Seq<char>) -> Seq<char>
    decreases blocks.len(),
{
    if blocks.len() == 0 {
        Seq::empty()
    } else {
        let before = blocks_text(blocks.drop_last(), of);
        match json::text_field(blocks.last(), "text"@) {
            Some(t) => if json::text_field(blocks.last(), "type"@) == Some(of) {
                before + t
            } else {
                before
            },
            None => before,
        }
    }
}

/// The text of the content of a response.
pub open spec fn content_text(p: JsonView, of: Seq<char>) -> Seq<char> {
    match json::field(p, "content"@) {
        Some(content) => match json::items_in(content) {
            Some(blocks) => blocks_text(blocks, of),
            None => Seq::empty(),
        },
        None => Seq::empty(),
    }
}

/// An object with one field.
pub open spec fn object_of(name: Seq<char>, value: JsonView) -> JsonView {
    JsonView::Object(seq![(name, value)])
}

/// The arguments of a function call: the text read as JSON, or the text itself.
pub open spec fn arguments_from(text: Seq<char>, read: Option<JsonView>) -> JsonView {
    match read {
        Some(v) => v,
        None => JsonView::Str(text),
    }
}

/// The arguments of a tool call.
pub open spec fn arguments_of(p: JsonView) -> JsonView {
    if json::text_field_or_empty(p, "type"@) == "function_call"@ {
        match json::text_field(p, "arguments"@) {
            Some(s) => arguments_from(s, json::parsed(s)),
            None => JsonView::Null,
        }
    } else {
        match json::field(p, "input"@) {
            Some(input) => object_of("input"@, input),
            None => JsonView::Null,
        }
    }
}

/// The name of the tool that is called.
pub open spec fn tool_name_of(p: JsonView) -> Seq<char> {
    match json::text_field(p, "name"@) {
        Some(name) => name,
        None => "unknown"@,
    }
}

/// The identifier under which the output of a call is awaited.
pub open spec fn call_id(e: JsonView) -> Option<Seq<char>> {
    if is_call(e) && json::text_field_or_empty(response(e)->0, "call_id"@).len() > 0 {
        Some(json::text_field_or_empty(response(e)->0, "call_id"@))
    } else {
        None
    }
}

/// The identifier of the call that an output belongs to.
pub open spec fn output_id(e: JsonView) -> Option<Seq<char>> {
    if is_output(e) {
        Some(json::text_field_or_empty(response(e)->0, "call_id"@))
    } else {
        None
    }
}

/// The latest call under an identifier among the first `n` events.
pub open spec fn latest_call(events: Seq<JsonView>, id: Seq<char>, n: nat) -> Option<int>
    decreases n,
{
    if n == 0 {
        None
    } else if call_id(events[n - 1]) == Some(id) {
        Some(n - 1)
    } else {
        latest_call(events, id, (n - 1) as nat)
    }
}

/// The event at place `j` is an output, and the latest call under its identifier is at `i`.
pub open spec fn answers(events: Seq<JsonView>, j: int, i: int) -> bool {
    output_id(events[j]) is Some && latest_call(events, output_id(events[j])->0, j as nat) == Some(
        i,
    )
}

/// The result of the call at place `i` after `n` events: that of the last answer.
pub open spec fn result_of(events: Seq<JsonView>, i: int, n: nat) -> Option<JsonView>
    decreases n,
{
    if n == 0 {
        None
    } else if answers(events, n - 1, i) {
        Some(
            object_of(
                "content"@,
                JsonView::Str(
                    json::text_field_or_empty(response(events[n - 1])->0, "output"@),
                ),
            ),
        )
    } else {
        result_of(events, i, (n - 1) as nat)
    }
}

/// The model in use before any event names one.
pub open spec fn first_model() -> Seq<char> {
    "gpt-5.3-Codex"@
}

/// The model in use after `n` events: the one named last.
pub open spec fn model_after(events: Seq<JsonView>, n: nat) -> Seq<char> {
    match turns::last_of(events, |e: JsonView| session::model_in(e), n) {
        Some(m) => m,
        None => first_model(),
    }
}

/// The status change that an event reports: its type and its message.
pub open spec fn status_in(e: JsonView) -> Option<(Seq<char>, Seq<char>)> {
    if turns::kind_of(e) == "session_meta"@ {
        Some(("session_start"@, "會話開始 (Session Started)"@))
    } else {
        match turns::payload_of_kind(e, "event_msg"@) {
            Some(p) => {
                let sub_kind = json::text_field_or_empty(p, "type"@);
                if sub_kind == "task_started"@ {
                    Some((sub_kind, "任務開始 (Task Started)"@))
                } else if sub_kind == "task_complete"@ {
                    Some((sub_kind, "任務完成 (Task Completed)"@))
                } else if sub_kind == "turn_aborted"@ {
                    Some((sub_kind, "會話中斷 (Turn Aborted)"@))
                } else if sub_kind == "thread_rolled_back"@ {
                    Some((sub_kind, "會話回滾 (Thread Rolled Back)"@))
                } else {
                    None
                }
            },
            None => None,
        }
    }
}

/// The counts of the turn of the event at place `i`.
pub open spec fn reply_stats(
    events: Seq<JsonView>,
    stats: Map<u32, TokenStats>,
    i: int,
) -> Option<TokenStats> {
    let turn = turns::turn_number(events, (i + 1) as nat);
    if stats.contains_key(turn) {
        Some(stats[turn])
    } else {
        None
    }
}

/// A reply with the counts of its turn.
pub open spec fn reply_item(
    timestamp: Seq<char>,
    reply: Seq<char>,
    model: Seq<char>,
    stats: Option<TokenStats>,
    turn_no: u32,
) -> ItemView {
    ItemView::AssistantReply {
        timestamp,
        reply,
        model,
        output_tokens: match stats {
            Some(s) => Some(s.output),
            None => None,
        },
        input_tokens: match stats {
            Some(s) => Some(s.input),
            None => None,
        },
        cache_read_tokens: match stats {
            Some(s) => s.cache_read,
            None => None,
        },
        cache_write_tokens: None,
        reasoning_tokens: match stats {
            Some(s) => s.reasoning,
            None => None,
        },
        total_tokens: match stats {
            Some(s) => Some(s.total),
            None => None,
        },
        tool_requests: Seq::empty(),
        turn_no,
    }
}

/// The item that the event at place `i` gives, as it stands after `n` events.
pub open spec fn item_of(
    events: Seq<JsonView>,
    stats: Map<u32, TokenStats>,
    i: int,
    n: nat,
) -> Option<ItemView> {
    let e = events[i];
    let upto = (i + 1) as nat;
    let timestamp = turns::time_of(e);
    let turn_no = turns::turn_number(events, upto);
    if status_in(e) is Some {
        Some(
            ItemView::SystemStatus {
                timestamp,
                status_type: (status_in(e)->0).0,
                message: (status_in(e)->0).1,
            },
        )
    } else if is_prompt(e) {
        Some(
            ItemView::UserPrompt {
                timestamp,
                prompt: content_text(response(e)->0, "input_text"@),
                transformed_prompt: None,
                attachments: Seq::empty(),
                turn_no,
            },
        )
    } else if is_reply(e) {
        Some(
            reply_item(
                timestamp,
                content_text(response(e)->0, "output_text"@),
                model_after(events, upto),
                reply_stats(events, stats, i),
                turn_no,
            ),
        )
    } else if is_call(e) {
        Some(
            ItemView::ToolStep {
                timestamp,
                tool_name: tool_name_of(response(e)->0),
                arguments: arguments_of(response(e)->0),
                result: result_of(events, i, n),
                turn_no,
            },
        )
    } else {
        None
    }
}

/// The event gives an item of the timeline.
pub open spec fn gives_item(e: JsonView) -> bool {
    status_in(e) is Some || is_prompt(e) || is_reply(e) || is_call(e)
}

/// The places of the events among the first `n` that give an item, in order.
pub open spec fn item_places(events: Seq<JsonView>, n: nat) -> Seq<int>
    decreases n,
{
    if n == 0 {
        Seq::empty()
    } else {
        let before = item_places(events, (n - 1) as nat);
        if gives_item(events[n - 1]) {
            before.push(n - 1)
        } else {
            before
        }
    }
}

/// The timeline after `n` events.
pub open spec fn timeline(
    events: Seq<JsonView>,
    stats: Map<u32, TokenStats>,
    n: nat,
) -> Seq<ItemView> {
    item_places(events, n).map_values(|i: int| item_of(events, stats, i, n)->0)
}

/// What the replies among the first `n` events came to.
pub open spec fn replies_sum(
    events: Seq<JsonView>,
    stats: Map<u32, TokenStats>,
    c: Count,
    n: nat,
) -> nat
    decreases n,
{
    if n == 0 {
        0
    } else {
        let before = replies_sum(events, stats, c, (n - 1) as nat);
        match reply_stats(events, stats, n - 1) {
            Some(s) => if is_reply(events[n - 1]) {
                before + entry::amount(s, c)
            } else {
                before
            },
            None => before,
        }
    }
}

/// The sums over all replies fit in 64 bits.
pub open spec fn sums_fit(events: Seq<JsonView>, stats: Map<u32, TokenStats>, n: nat) -> bool {
    &&& replies_sum(events, stats, Count::Input, n) <= u64::MAX
    &&& replies_sum(events, stats, Count::Output, n) <= u64::MAX
    &&& replies_sum(events, stats, Count::CacheRead, n) <= u64::MAX
    &&& replies_sum(events, stats, Count::Reasoning, n) <= u64::MAX
    &&& replies_sum(events, stats, Count::Total, n) <= u64::MAX
}

/// A field of the payload of the record that opens a session.
pub open spec fn meta_field(e: JsonView, name: Seq<char>) -> Option<JsonView> {
    match turns::payload_of_kind(e, "session_meta"@) {
        Some(p) => json::field(p, name),
        None => None,
    }
}

/// A field of the repository record of a session.
pub open spec fn git_field(e: JsonView, name: Seq<char>) -> Option<JsonView> {
    match meta_field(e, "git"@) {
        Some(git) => json::field(git, name),
        None => None,
    }
}

/// What is known of a session as a whole.
pub struct SessionMetadata {
    pub selected_model: String,
    pub start_time: String,
    pub copilot_version: Option<Json>,
    pub cwd: Option<Json>,
    pub git_branch: Option<Json>,
    pub repository: Option<Json>,
    pub total_input_tokens: u64,
    pub total_output_tokens: u64,
    pub total_cache_read_tokens: u64,
    pub total_reasoning_tokens: u64,
    pub total_tokens: u64,
    pub compaction_count: u64,
}

/// What session metadata stand for.
pub struct MetadataView {
    pub selected_model: Seq<char>,
    pub start_time: Seq<char>,
    pub copilot_version: Option<JsonView>,
    pub cwd: Option<JsonView>,
    pub git_branch: Option<JsonView>,
    pub repository: Option<JsonView>,
    pub total_input_tokens: u64,
    pub total_output_tokens: u64,
    pub total_cache_read_tokens: u64,
    pub total_reasoning_tokens: u64,
    pub total_tokens: u64,
    pub compaction_count: u64,
}

impl View for SessionMetadata {
    type V = MetadataView;

    open spec fn view(&self) -> MetadataView {
        MetadataView {
            selected_model: self.selected_model@,
            start_time: self.start_time@,
            copilot_version: json::optional_json(self.copilot_version),
            cwd: json::optional_json(self.cwd),
            git_branch: json::optional_json(self.git_branch),
            repository: json::optional_json(self.repository),
            total_input_tokens: self.total_input_tokens,
            total_output_tokens: self.total_output_tokens,
            total_cache_read_tokens: self.total_cache_read_tokens,
            total_reasoning_tokens: self.total_reasoning_tokens,
            total_tokens: self.total_tokens,
            compaction_count: self.compaction_count,
        }
    }
}

/// The metadata of a session after `n` events.
pub open spec fn metadata(
    events: Seq<JsonView>,
    stats: Map<u32, TokenStats>,
    session_name: Seq<char>,
    n: nat,
) -> MetadataView {
    MetadataView {
        selected_model: match turns::last_of(
            events,
            |e: JsonView| turns::payload_text(e, "turn_context"@, "model"@),
            n,
        ) {
            Some(m) => m,
            None => first_model(),
        },
        start_time: session_name,
        copilot_version: turns::last_of(events, |e: JsonView| meta_field(e, "cli_version"@), n),
        cwd: turns::last_of(events, |e: JsonView| meta_field(e, "cwd"@), n),
        git_branch: turns::last_of(events, |e: JsonView| git_field(e, "branch"@), n),
        repository: turns::last_of(events, |e: JsonView| git_field(e, "repository_url"@), n),
        total_input_tokens: replies_sum(events, stats, Count::Input, n) as u64,
        total_output_tokens: replies_sum(events, stats, Count::Output, n) as u64,
        total_cache_read_tokens: replies_sum(events, stats, Count::CacheRead, n) as u64,
        total_reasoning_tokens: replies_sum(events, stats, Count::Reasoning, n) as u64,
        total_tokens: replies_sum(events, stats, Count::Total, n) as u64,
        compaction_count: 0,
    }
}

pub(crate) proof fn lemma_types_differ()
    ensures
        "function_call"@ != "function_call_output"@,
        "function_call"@ != "custom_tool_call_output"@,
        "custom_tool_call"@ != "function_call_output"@,
        "custom_tool_call"@ != "custom_tool_call_output"@,
        "user"@ != "assistant"@,
        "assistant"@.len() > 0,
{
    reveal_strlit("function_call");
    reveal_strlit("custom_tool_call");
    reveal_strlit("function_call_output");
    reveal_strlit("custom_tool_call_output");
    reveal_strlit("user");
    reveal_strlit("assistant");
    assert("function_call"@.len() == 13);
    assert("custom_tool_call"@.len() == 16);
    assert("function_call_output"@.len() == 20);
    assert("custom_tool_call_output"@.len() == 23);
    assert("user"@.len() == 4);
    assert("assistant"@.len() == 9);
}

pub(crate) proof fn lemma_output_gives_no_item(e: JsonView)
    requires
        is_output(e),
    ensures
        !gives_item(e),
{
    lemma_types_differ();
    turns::lemma_kinds_differ();
}

pub(crate) proof fn lemma_latest_call(events: Seq<JsonView>, id: Seq<char>, n: nat)
    ensures
        latest_call(events, id, n) matches Some(i) ==> 0 <= i < n && call_id(events[i]) == Some(id),
    decreases n,
{
    if n > 0 {
        lemma_latest_call(events, id, (n - 1) as nat);
    }
}

proof fn lemma_no_result_yet(events: Seq<JsonView>, i: int, n: nat)
    requires
        n <= i,
    ensures
        result_of(events, i, n) is None,
    decreases n,
{
    if n > 0 {
        if output_id(events[n - 1]) is Some {
            lemma_latest_call(events, output_id(events[n - 1])->0, (n - 1) as nat);
        }
        lemma_no_result_yet(events, i, (n - 1) as nat);
    }
}

/// The items that stood after `n` events stand unchanged after one more, but for the call
/// that this one answers.
proof fn lemma_items_kept(events: Seq<JsonView>, stats: Map<u32, TokenStats>, n: nat)
    requires
        n < events.len(),
    ensures
        forall|q: int|
            0 <= q < item_places(events, n).len() && !answers(
                events,
                n as int,
                item_places(events, n)[q],
            ) ==> item_of(events, stats, #[trigger] item_places(events, n)[q], n + 1) == item_of(
                events,
                stats,
                item_places(events, n)[q],
                n,
            ),
{
}

/// The place in `calls` of the last call under an identifier.
spec fn latest_entry(calls: Seq<(String, usize)>, id: Seq<char>) -> Option<usize>
    decreases calls.len(),
{
    if calls.len() == 0 {
        None
    } else if calls.last().0@ == id {
        Some(calls.last().1)
    } else {
        latest_entry(calls.drop_last(), id)
    }
}

fn find_call(calls: &Vec<(String, usize)>, id: &String) -> (r: Option<usize>)
    ensures
        r == latest_entry(calls@, id@),
{
    let mut j: usize = calls.len();
    assert(calls@.take(j as int) == calls@);
    while j > 0
        invariant
            j <= calls@.len(),
            latest_entry(calls@, id@) == latest_entry(calls@.take(j as int), id@),
        decreases j,
    {
        assert(calls@.take(j as int).drop_last() == calls@.take(j - 1));
        if calls[j - 1].0 == *id {
            return Some(calls[j - 1].1);
        }
        j -= 1;
    }
    None
}

/// The calls noted after `n` events.
spec fn calls_noted(calls: Seq<(String, usize)>, events: Seq<JsonView>, n: nat) -> bool {
    &&& forall|id: Seq<char>|
        #[trigger] latest_call(events, id, n) == (match latest_entry(calls, id) {
            Some(q) => Some(item_places(events, n)[q as int]),
            None => None,
        })
    &&& forall|id: Seq<char>|
        (#[trigger] latest_entry(calls, id)) matches Some(q) ==> q < item_places(events, n).len()
}

/// The text of the content of a response.
fn read_content(p: &Json, of: &str) -> (r: String)
    ensures
        r@ == content_text(p@, of@),
{
    let mut r = String::new();
    if let Some(content) = p.get("content") {
        if let Json::Array(blocks) = content {
            let ghost all = content@->Array_0;
            let mut i: usize = 0;
            assert(all.take(0) =~= Seq::empty());
            while i < blocks.len()
                invariant
                    i <= blocks@.len(),
                    all.len() == blocks@.len(),
                    content == Json::Array(*blocks),
                    all == content@->Array_0,
                    r@ == blocks_text(all.take(i as int), of@),
                decreases blocks@.len() - i,
            {
                assert(all[i as int] == blocks@[i as int]@);
                assert(all.take(i + 1).drop_last() == all.take(i as int));
                let block: &Json = &blocks[i];
                if let Some(kind) = block.get_text("type") {
                    if text_is(kind.as_str(), of) {
                        if let Some(t) = block.get_text("text") {
                            r.append(t.as_str());
                        }
                    }
                }
                i += 1;
            }
            assert(all.take(i as int) == all);
        }
    }
    r
}

/// The arguments of a function call: `read` where the text is JSON, or the text itself.
pub fn call_arguments(text: &str, read: Option<Json>) -> (r: Json)
    ensures
        r@ == arguments_from(text@, json::optional_json(read)),
{
    match read {
        Some(v) => v,
        None => Json::Str(text.to_string()),
    }
}

/// An object with one field.
fn make_object(name: &str, value: Json) -> (r: Json)
    ensures
        r@ == object_of(name@, value@),
{
    let mut fields: Vec<(String, Json)> = Vec::new();
    fields.push((name.to_string(), value));
    let r = Json::Object(fields);
    assert(r@->Object_0 =~= seq![(name@, value@)]);
    r
}

/// The arguments of a tool call.
fn read_arguments(p: &Json, sub_kind: &str) -> (r: Json)
    requires
        sub_kind@ == json::text_field_or_empty(p@, "type"@),
    ensures
        r@ == arguments_of(p@),
{
    if text_is(sub_kind, "function_call") {
        match p.get_text("arguments") {
            Some(s) => {
                let read = parse_json(s.as_str());
                call_arguments(s.as_str(), read)
            },
            None => Json::Null,
        }
    } else {
        match p.get("input") {
            Some(input) => make_object("input", input.copy()),
            None => Json::Null,
        }
    }
}

/// The message for a status change.
fn status_message(sub_kind: &str) -> (r: Option<String>)
    ensures
        json::optional_text(r) == (if sub_kind@ == "task_started"@ {
            Some("任務開始 (Task Started)"@)
        } else if sub_kind@ == "task_complete"@ {
            Some("任務完成 (Task Completed)"@)
        } else if sub_kind@ == "turn_aborted"@ {
            Some("會話中斷 (Turn Aborted)"@)
        } else if sub_kind@ == "thread_rolled_back"@ {
            Some("會話回滾 (Thread Rolled Back)"@)
        } else {
            None
        }),
{
    if text_is(sub_kind, "task_started") {
        Some("任務開始 (Task Started)".to_string())
    } else if text_is(sub_kind, "task_complete") {
        Some("任務完成 (Task Completed)".to_string())
    } else if text_is(sub_kind, "turn_aborted") {
        Some("會話中斷 (Turn Aborted)".to_string())
    } else if text_is(sub_kind, "thread_rolled_back") {
        Some("會話回滾 (Thread Rolled Back)".to_string())
    } else {
        None
    }
}

/// Puts the result of a tool call into its item.
fn set_result(items: &mut Vec<TimelineItem>, q: usize, value: Json)
    requires
        q < old(items)@.len(),
        old(items)@[q as int]@ is ToolStep,
    ensures
        final(items)@.len() == old(items)@.len(),
        forall|j: int|
            0 <= j < old(items)@.len() && j != q ==> final(items)@[j] == #[trigger] old(items)@[j],
        final(items)@[q as int]@ == (ItemView::ToolStep {
            timestamp: old(items)@[q as int]@->ToolStep_timestamp,
            tool_name: old(items)@[q as int]@->tool_name,
            arguments: old(items)@[q as int]@->arguments,
            result: Some(value@),
            turn_no: old(items)@[q as int]@->ToolStep_turn_no,
        }),
{
    match &mut items[q] {
        TimelineItem::ToolStep { result, .. } => {
            *result = Some(value);
        },
        _ => {},
    }
}

/// A timeline in the making.
struct Builder {
    tracker: TurnTracker,
    model: String,
    items: Vec<TimelineItem>,
    calls: Vec<(String, usize)>,
    about: SessionMetadata,
}

impl Builder {
    /// The items and the calls after `n` events.
    spec fn items_built(self, events: Seq<JsonView>, stats: Map<u32, TokenStats>, n: nat) -> bool {
        &&& items_view(self.items@) == timeline(events, stats, n)
        &&& calls_noted(self.calls@, events, n)
    }

    /// The turn and the model after `n` events.
    spec fn state_built(self, events: Seq<JsonView>, n: nat) -> bool {
        &&& self.tracker.tracks(events, n)
        &&& self.model@ == model_after(events, n)
    }

    fn new(session_name: &str) -> (r: Builder)
        ensures
            forall|events: Seq<JsonView>| r.state_built(events, 0),
            forall|events: Seq<JsonView>, stats: Map<u32, TokenStats>|
                #[trigger] r.items_built(events, stats, 0),
            forall|events: Seq<JsonView>, stats: Map<u32, TokenStats>|
                r.about@ == #[trigger] metadata(events, stats, session_name@, 0),
    {
        let r = Builder {
            tracker: TurnTracker::new(),
            model: "gpt-5.3-Codex".to_string(),
            items: Vec::new(),
            calls: Vec::new(),
            about: SessionMetadata {
                selected_model: "gpt-5.3-Codex".to_string(),
                start_time: session_name.to_string(),
                copilot_version: None,
                cwd: None,
                git_branch: None,
                repository: None,
                total_input_tokens: 0,
                total_output_tokens: 0,
                total_cache_read_tokens: 0,
                total_reasoning_tokens: 0,
                total_tokens: 0,
                compaction_count: 0,
            },
        };
        assert forall|events: Seq<JsonView>, stats: Map<u32, TokenStats>| #[trigger]
            r.items_built(events, stats, 0) by {
            assert(items_view(r.items@) =~= timeline(events, stats, 0));
        }
        r
    }

    /// Appends the item of the next event, which is no call.
    fn push_item(
        &mut self,
        item: TimelineItem,
        Ghost(events): Ghost<Seq<JsonView>>,
        Ghost(stats): Ghost<Map<u32, TokenStats>>,
        Ghost(n): Ghost<nat>,
    )
        requires
            n < events.len(),
            old(self).items_built(events, stats, n),
            gives_item(events[n as int]),
            call_id(events[n as int]) is None,
            Some(item@) == item_of(events, stats, n as int, n + 1),
        ensures
            final(self).items_built(events, stats, n + 1),
            final(self).tracker == old(self).tracker,
            final(self).model == old(self).model,
            final(self).about == old(self).about,
    {
        let ghost before = self.items@;
        self.items.push(item);
        proof {
            lemma_pushed(before, self.items@, events, stats, n);
            lemma_places_kept(events, n);
            assert forall|id: Seq<char>| #[trigger] latest_call(events, id, n + 1) == (
            match latest_entry(self.calls@, id) {
                Some(q) => Some(item_places(events, n + 1)[q as int]),
                None => None,
            }) by {
                assert(latest_call(events, id, n + 1) == latest_call(events, id, n));
            }
        }
    }
}

proof fn lemma_places_kept(events: Seq<JsonView>, n: nat)
    requires
        n < events.len(),
    ensures
        item_places(events, n).is_prefix_of(item_places(events, n + 1)),
        forall|q: int|
            0 <= q < item_places(events, n).len() ==> #[trigger] item_places(events, n + 1)[q]
                == item_places(events, n)[q],
{
}

proof fn lemma_pushed(
    before: Seq<TimelineItem>,
    after: Seq<TimelineItem>,
    events: Seq<JsonView>,
    stats: Map<u32, TokenStats>,
    n: nat,
)
    requires
        n < events.len(),
        items_view(before) == timeline(events, stats, n),
        gives_item(events[n as int]),
        after.len() == before.len() + 1,
        forall|q: int| 0 <= q < before.len() ==> #[trigger] after[q] == before[q],
        Some(after.last()@) == item_of(events, stats, n as int, n + 1),
    ensures
        items_view(after) == timeline(events, stats, n + 1),
{
    lemma_items_kept(events, stats, n);
    timeline_laws::lemma_timeline_in_order(events, n);
    if output_id(events[n as int]) is Some {
        lemma_output_gives_no_item(events[n as int]);
    }
    let places = item_places(events, n);
    assert(items_view(before).len() == before.len());
    assert(timeline(events, stats, n).len() == places.len());
    assert(item_places(events, n + 1) == places.push(n as int));
    assert forall|q: int| 0 <= q < after.len() implies #[trigger] items_view(after)[q] == timeline(
        events,
        stats,
        n + 1,
    )[q] by {
        if q < before.len() {
            assert(items_view(before)[q] == timeline(events, stats, n)[q]);
            assert(item_of(events, stats, places[q], n + 1) == item_of(events, stats, places[q], n));
            assert(item_places(events, n + 1)[q] == places[q]);
            assert(items_view(after)[q] == after[q]@);
            assert(items_view(before)[q] == before[q]@);
            assert(timeline(events, stats, n + 1)[q] == item_of(events, stats, places[q], n + 1)->0);
        } else {
            assert(item_places(events, n + 1)[q] == n);
            assert(items_view(after)[q] == after.last()@);
            assert(timeline(events, stats, n + 1)[q] == item_of(events, stats, n as int, n + 1)->0);
        }
    }
    assert(items_view(after) =~= timeline(events, stats, n + 1));
}

proof fn lemma_call_pushed(
    calls: Seq<(String, usize)>,
    id: Option<Seq<char>>,
    after: Seq<(String, usize)>,
    events: Seq<JsonView>,
    n: nat,
)
    requires
        n < events.len(),
        calls_noted(calls, events, n),
        gives_item(events[n as int]),
        call_id(events[n as int]) == id,
        match id {
            Some(t) => {
                &&& after.len() == calls.len() + 1
                &&& after.drop_last() == calls
                &&& after.last().0@ == t
                &&& after.last().1 == item_places(events, n).len()
            },
            None => after == calls,
        },
    ensures
        calls_noted(after, events, n + 1),
{
    lemma_places_kept(events, n);
    assert forall|t: Seq<char>| #[trigger] latest_call(events, t, n + 1) == (match latest_entry(
        after,
        t,
    ) {
        Some(q) => Some(item_places(events, n + 1)[q as int]),
        None => None,
    }) by {
        assert(latest_call(events, t, n) == latest_call(events, t, n));
        assert(latest_entry(calls, t) == latest_entry(calls, t));
    }
    assert forall|t: Seq<char>| (#[trigger] latest_entry(after, t)) is Some implies latest_entry(
        after,
        t,
    )->0 < item_places(events, n + 1).len() by {
        assert(latest_entry(calls, t) == latest_entry(calls, t));
    }
}

proof fn lemma_nothing_pushed(calls: Seq<(String, usize)>, events: Seq<JsonView>, n: nat)
    requires
        n < events.len(),
        calls_noted(calls, events, n),
        !gives_item(events[n as int]),
    ensures
        calls_noted(calls, events, n + 1),
        item_places(events, n + 1) == item_places(events, n),
{
    assert forall|t: Seq<char>| #[trigger] latest_call(events, t, n + 1) == (match latest_entry(
        calls,
        t,
    ) {
        Some(q) => Some(item_places(events, n + 1)[q as int]),
        None => None,
    }) by {
        assert(latest_call(events, t, n) == latest_call(events, t, n));
    }
}

impl Builder {
    /// Appends the item of the next event, which is a call.
    fn push_call(
        &mut self,
        item: TimelineItem,
        id: String,
        Ghost(events): Ghost<Seq<JsonView>>,
        Ghost(stats): Ghost<Map<u32, TokenStats>>,
        Ghost(n): Ghost<nat>,
    )
        requires
            n < events.len(),
            old(self).items_built(events, stats, n),
            is_call(events[n as int]),
            id@ == json::text_field_or_empty(response(events[n as int])->0, "call_id"@),
            Some(item@) == item_of(events, stats, n as int, n + 1),
        ensures
            final(self).items_built(events, stats, n + 1),
            final(self).tracker == old(self).tracker,
            final(self).model == old(self).model,
            final(self).about == old(self).about,
    {
        let ghost before = self.items@;
        let ghost calls = self.calls@;
        assert(items_view(before).len() == timeline(events, stats, n).len());
        let q: usize = self.items.len();
        self.items.push(item);
        if !id.as_str().is_empty() {
            self.calls.push((id, q));
            assert(self.calls@.drop_last() =~= calls);
        }
        proof {
            lemma_pushed(before, self.items@, events, stats, n);
            lemma_call_pushed(calls, call_id(events[n as int]), self.calls@, events, n);
        }
    }

    /// Passes over the next event, which gives no item and is no output.
    fn pass(
        &mut self,
        Ghost(events): Ghost<Seq<JsonView>>,
        Ghost(stats): Ghost<Map<u32, TokenStats>>,
        Ghost(n): Ghost<nat>,
    )
        requires
            n < events.len(),
            old(self).items_built(events, stats, n),
            !gives_item(events[n as int]),
            !is_output(events[n as int]),
        ensures
            final(self).items_built(events, stats, n + 1),
            *final(self) == *old(self),
    {
        proof {
            lemma_nothing_pushed(self.calls@, events, n);
            lemma_items_kept(events, stats, n);
            assert(timeline(events, stats, n + 1) =~= timeline(events, stats, n));
        }
    }

    /// Hands the output in the next event to the call that it belongs to.
    fn answer(
        &mut self,
        id: String,
        output: String,
        Ghost(events): Ghost<Seq<JsonView>>,
        Ghost(stats): Ghost<Map<u32, TokenStats>>,
        Ghost(n): Ghost<nat>,
    )
        requires
            n < events.len(),
            old(self).items_built(events, stats, n),
            is_output(events[n as int]),
            id@ == json::text_field_or_empty(response(events[n as int])->0, "call_id"@),
            output@ == json::text_field_or_empty(response(events[n as int])->0, "output"@),
        ensures
            final(self).items_built(events, stats, n + 1),
            final(self).tracker == old(self).tracker,
            final(self).model == old(self).model,
            final(self).about == old(self).about,
    {
        let ghost before = self.items@;
        let ghost places = item_places(events, n);
        proof {
            lemma_output_gives_no_item(events[n as int]);
            lemma_nothing_pushed(self.calls@, events, n);
            lemma_items_kept(events, stats, n);
            timeline_laws::lemma_timeline_in_order(events, n);
            lemma_latest_call(events, id@, n);
            assert(items_view(before).len() == before.len());
            assert(timeline(events, stats, n).len() == places.len());
            assert(latest_call(events, id@, n) == latest_call(events, id@, n));
        }
        match find_call(&self.calls, &id) {
            Some(q) => {
                let ghost i = places[q as int];
                proof {
                    assert(answers(events, n as int, i));
                    assert(call_id(events[i]) == Some(id@));
                    turns::lemma_kinds_differ();
                    assert(is_call(events[i]));
                    assert(status_in(events[i]) is None);
                    assert(item_of(events, stats, i, n)->0 is ToolStep);
                    assert(timeline(events, stats, n)[q as int] == item_of(events, stats, i, n)->0);
                    assert(items_view(before)[q as int] == before[q as int]@);
                }
                set_result(&mut self.items, q, make_object("content", Json::Str(output)));
                proof {
                    assert forall|r: int| 0 <= r < places.len() implies #[trigger] items_view(
                        self.items@,
                    )[r] == timeline(events, stats, n + 1)[r] by {
                        assert(timeline(events, stats, n + 1)[r] == item_of(
                            events,
                            stats,
                            places[r],
                            n + 1,
                        )->0);
                        if r != q {
                            assert(places[r] != i);
                            assert(self.items@[r] == before[r]);
                            assert(items_view(before)[r] == before[r]@);
                            assert(timeline(events, stats, n)[r] == item_of(
                                events,
                                stats,
                                places[r],
                                n,
                            )->0);
                        }
                    }
                    assert(items_view(self.items@) =~= timeline(events, stats, n + 1));
                }
            },
            None => {
                assert(timeline(events, stats, n + 1) =~= timeline(events, stats, n));
            },
        }
    }
}

/// A copy of a field, or else what was there before.
fn field_or(v: Option<&Json>, before: &mut Option<Json>)
    ensures
        json::optional_json(*final(before)) == (match v {
            Some(f) => Some(f@),
            None => json::optional_json(*old(before)),
        }),
{
    if let Some(f) = v {
        *before = Some(f.copy());
    }
}

/// Reads the record that opens a session.
fn read_opening(about: &mut SessionMetadata, event: &Json)
    requires
        turns::kind_of(event@) == "session_meta"@,
    ensures
        final(about)@ == (MetadataView {
            copilot_version: match meta_field(event@, "cli_version"@) {
                Some(v) => Some(v),
                None => old(about)@.copilot_version,
            },
            cwd: match meta_field(event@, "cwd"@) {
                Some(v) => Some(v),
                None => old(about)@.cwd,
            },
            git_branch: match git_field(event@, "branch"@) {
                Some(v) => Some(v),
                None => old(about)@.git_branch,
            },
            repository: match git_field(event@, "repository_url"@) {
                Some(v) => Some(v),
                None => old(about)@.repository,
            },
            ..old(about)@
        }),
{
    if let Some(p) = event.get("payload") {
        field_or(p.get("cli_version"), &mut about.copilot_version);
        field_or(p.get("cwd"), &mut about.cwd);
        if let Some(git) = p.get("git") {
            field_or(git.get("branch"), &mut about.git_branch);
            field_or(git.get("repository_url"), &mut about.repository);
        }
    }
}

/// Adds the counts of a reply; false where a sum does not fit in 64 bits.
fn add_reply(about: &mut SessionMetadata, s: &TokenStats) -> (ok: bool)
    ensures
        ok <==> {
            &&& old(about).total_input_tokens + entry::amount(*s, Count::Input) <= u64::MAX
            &&& old(about).total_output_tokens + entry::amount(*s, Count::Output) <= u64::MAX
            &&& old(about).total_cache_read_tokens + entry::amount(*s, Count::CacheRead) <= u64::MAX
            &&& old(about).total_reasoning_tokens + entry::amount(*s, Count::Reasoning) <= u64::MAX
            &&& old(about).total_tokens + entry::amount(*s, Count::Total) <= u64::MAX
        },
        ok ==> final(about)@ == (MetadataView {
            total_input_tokens: (old(about).total_input_tokens + entry::amount(
                *s,
                Count::Input,
            )) as u64,
            total_output_tokens: (old(about).total_output_tokens + entry::amount(
                *s,
                Count::Output,
            )) as u64,
            total_cache_read_tokens: (old(about).total_cache_read_tokens + entry::amount(
                *s,
                Count::CacheRead,
            )) as u64,
            total_reasoning_tokens: (old(about).total_reasoning_tokens + entry::amount(
                *s,
                Count::Reasoning,
            )) as u64,
            total_tokens: (old(about).total_tokens + entry::amount(*s, Count::Total)) as u64,
            ..old(about)@
        }),
{
    let input = about.total_input_tokens.checked_add(s.input);
    let output = about.total_output_tokens.checked_add(s.output);
    let cache = about.total_cache_read_tokens.checked_add(value_or_zero(s.cache_read));
    let reasoning = about.total_reasoning_tokens.checked_add(value_or_zero(s.reasoning));
    let total = about.total_tokens.checked_add(s.total);
    match (input, output, cache, reasoning, total) {
        (Some(i), Some(o), Some(c), Some(r), Some(t)) => {
            about.total_input_tokens = i;
            about.total_output_tokens = o;
            about.total_cache_read_tokens = c;
            about.total_reasoning_tokens = r;
            about.total_tokens = t;
            true
        },
        _ => false,
    }
}

proof fn lemma_sums_grow(
    events: Seq<JsonView>,
    stats: Map<u32, TokenStats>,
    c: Count,
    m: nat,
    n: nat,
)
    requires
        m <= n,
    ensures
        replies_sum(events, stats, c, m) <= replies_sum(events, stats, c, n),
    decreases n,
{
    if m < n {
        lemma_sums_grow(events, stats, c, m, (n - 1) as nat);
    }
}

impl Builder {
    /// Reads a response; false where a sum does not fit in 64 bits.
    fn read_response(
        &mut self,
        event: &Json,
        p: &Json,
        stats: &HashMap<u32, TokenStats>,
        Ghost(events): Ghost<Seq<JsonView>>,
        Ghost(session_name): Ghost<Seq<char>>,
        Ghost(n): Ghost<nat>,
    ) -> (ok: bool)
        requires
            n < events.len(),
            event@ == events[n as int],
            response(event@) == Some(p@),
            old(self).tracker.tracks(events, n + 1),
            old(self).model@ == model_after(events, n),
            old(self).items_built(events, stats@, n),
            old(self).about@ == metadata(events, stats@, session_name, n),
            sums_fit(events, stats@, n),
        ensures
            ok <==> sums_fit(events, stats@, n + 1),
            ok ==> {
                &&& final(self).state_built(events, n + 1)
                &&& final(self).items_built(events, stats@, n + 1)
                &&& final(self).about@ == metadata(events, stats@, session_name, n + 1)
            },
    {
        broadcast use group_hash_axioms;

        proof {
            turns::lemma_kinds_differ();
            lemma_types_differ();
            lemma_no_result_yet(events, n as int, n);
        }
        let timestamp = event.get_text_or_empty("timestamp");
        let turn_no: u32 = self.tracker.number(Ghost(events), Ghost(n + 1));
        let sub_kind = p.get_text_or_empty("type");
        let role = p.get_text_or_empty("role");
        if text_is(role.as_str(), "user") {
            let item = TimelineItem::UserPrompt {
                timestamp,
                prompt: read_content(p, "input_text"),
                transformed_prompt: None,
                attachments: Vec::new(),
                turn_no,
            };
            assert(turns::trees(item->attachments@) =~= Seq::empty());
            self.push_item(item, Ghost(events), Ghost(stats@), Ghost(n));
            true
        } else if text_is(role.as_str(), "assistant") {
            let reply = read_content(p, "output_text");
            if let Some(m) = p.get_text("model") {
                self.model = m;
            }
            assert(self.model@ == model_after(events, n + 1));
            let found: Option<&TokenStats> = stats.get(&turn_no);
            assert(match found {
                Some(s) => reply_stats(events, stats@, n as int) == Some(*s),
                None => reply_stats(events, stats@, n as int) is None,
            });
            let item = match found {
                Some(s) => TimelineItem::AssistantReply {
                    timestamp,
                    reply,
                    model: self.model.clone(),
                    output_tokens: Some(s.output),
                    input_tokens: Some(s.input),
                    cache_read_tokens: s.cache_read,
                    cache_write_tokens: None,
                    reasoning_tokens: s.reasoning,
                    total_tokens: Some(s.total),
                    tool_requests: Vec::new(),
                    turn_no,
                },
                None => TimelineItem::AssistantReply {
                    timestamp,
                    reply,
                    model: self.model.clone(),
                    output_tokens: None,
                    input_tokens: None,
                    cache_read_tokens: None,
                    cache_write_tokens: None,
                    reasoning_tokens: None,
                    total_tokens: None,
                    tool_requests: Vec::new(),
                    turn_no,
                },
            };
            assert(turns::trees(item->tool_requests@) =~= Seq::empty());
            let ok: bool = match found {
                Some(s) => add_reply(&mut self.about, s),
                None => true,
            };
            if !ok {
                return false;
            }
            self.push_item(item, Ghost(events), Ghost(stats@), Ghost(n));
            true
        } else if text_is(sub_kind.as_str(), "function_call") || text_is(
            sub_kind.as_str(),
            "custom_tool_call",
        ) {
            let tool_name = match p.get_text("name") {
                Some(name) => name,
                None => "unknown".to_string(),
            };
            let id = p.get_text_or_empty("call_id");
            let item = TimelineItem::ToolStep {
                timestamp,
                tool_name,
                arguments: read_arguments(p, sub_kind.as_str()),
                result: None,
                turn_no,
            };
            self.push_call(item, id, Ghost(events), Ghost(stats@), Ghost(n));
            true
        } else if text_is(sub_kind.as_str(), "function_call_output") || text_is(
            sub_kind.as_str(),
            "custom_tool_call_output",
        ) {
            let id = p.get_text_or_empty("call_id");
            let output = p.get_text_or_empty("output");
            self.answer(id, output, Ghost(events), Ghost(stats@), Ghost(n));
            true
        } else {
            self.pass(Ghost(events), Ghost(stats@), Ghost(n));
            true
        }
    }
}

impl Builder {
    /// Reads the next event; false where a sum does not fit in 64 bits.
    fn step(
        &mut self,
        event: &Json,
        stats: &HashMap<u32, TokenStats>,
        Ghost(events): Ghost<Seq<JsonView>>,
        Ghost(session_name): Ghost<Seq<char>>,
        Ghost(n): Ghost<nat>,
    ) -> (ok: bool)
        requires
            n < events.len(),
            event@ == events[n as int],
            old(self).state_built(events, n),
            old(self).items_built(events, stats@, n),
            old(self).about@ == metadata(events, stats@, session_name, n),
            sums_fit(events, stats@, n),
        ensures
            ok <==> sums_fit(events, stats@, n + 1),
            ok ==> {
                &&& final(self).state_built(events, n + 1)
                &&& final(self).items_built(events, stats@, n + 1)
                &&& final(self).about@ == metadata(events, stats@, session_name, n + 1)
            },
    {
        proof {
            turns::lemma_kinds_differ();
        }
        let kind = event.get_text_or_empty("type");
        self.tracker.note(event, kind.as_str(), Ghost(events), Ghost(n));
        if text_is(kind.as_str(), "session_meta") {
            read_opening(&mut self.about, event);
            let item = TimelineItem::SystemStatus {
                timestamp: event.get_text_or_empty("timestamp"),
                status_type: "session_start".to_string(),
                message: "會話開始 (Session Started)".to_string(),
            };
            self.push_item(item, Ghost(events), Ghost(stats@), Ghost(n));
            true
        } else if text_is(kind.as_str(), "turn_context") {
            if let Some(p) = event.get("payload") {
                if let Some(m) = p.get_text("model") {
                    self.about.selected_model = m.clone();
                    self.model = m;
                }
            }
            self.pass(Ghost(events), Ghost(stats@), Ghost(n));
            true
        } else if text_is(kind.as_str(), "event_msg") {
            if let Some(p) = event.get("payload") {
                let sub_kind = p.get_text_or_empty("type");
                if let Some(message) = status_message(sub_kind.as_str()) {
                    let item = TimelineItem::SystemStatus {
                        timestamp: event.get_text_or_empty("timestamp"),
                        status_type: sub_kind,
                        message,
                    };
                    self.push_item(item, Ghost(events), Ghost(stats@), Ghost(n));
                    return true;
                }
            }
            self.pass(Ghost(events), Ghost(stats@), Ghost(n));
            true
        } else if text_is(kind.as_str(), "response_item") {
            match event.get("payload") {
                Some(p) => self.read_response(
                    event,
                    p,
                    stats,
                    Ghost(events),
                    Ghost(session_name),
                    Ghost(n),
                ),
                None => {
                    self.pass(Ghost(events), Ghost(stats@), Ghost(n));
                    true
                },
            }
        } else {
            self.pass(Ghost(events), Ghost(stats@), Ghost(n));
            true
        }
    }
}

/// The timeline of a session and what is known of the session as a whole.
pub struct SessionTimeline {
    pub metadata: SessionMetadata,
    pub timeline: Vec<TimelineItem>,
}

/// Rebuilds the timeline of a session from its events.
///
/// `stats` holds the counts of each turn. Nothing where a sum over the replies does not fit
/// in 64 bits.
pub fn build_timeline(
    events: &Vec<Json>,
    stats: &HashMap<u32, TokenStats>,
    session_name: &str,
) -> (r: Option<SessionTimeline>)
    ensures
        r is Some <==> sums_fit(turns::trees(events@), stats@, events@.len()),
        r matches Some(t) ==> {
            &&& items_view(t.timeline@) == timeline(
                turns::trees(events@),
                stats@,
                events@.len(),
            )
            &&& t.metadata@ == metadata(
                turns::trees(events@),
                stats@,
                session_name@,
                events@.len(),
            )
        },
{
    let ghost all = turns::trees(events@);
    let mut b = Builder::new(session_name);
    let mut i: usize = 0;
    assert(b.items_built(all, stats@, 0));
    assert(b.about@ == metadata(all, stats@, session_name@, 0));
    while i < events.len()
        invariant
            i <= events@.len(),
            all == turns::trees(events@),
            b.state_built(all, i as nat),
            b.items_built(all, stats@, i as nat),
            b.about@ == metadata(all, stats@, session_name@, i as nat),
            sums_fit(all, stats@, i as nat),
        decreases events@.len() - i,
    {
        let event: &Json = &events[i];
        assert(event@ == all[i as int]);
        if !b.step(event, stats, Ghost(all), Ghost(session_name@), Ghost(i as nat)) {
            proof {
                let upto = (i + 1) as nat;
                let n = events@.len();
                lemma_sums_grow(all, stats@, Count::Input, upto, n);
                lemma_sums_grow(all, stats@, Count::Output, upto, n);
                lemma_sums_grow(all, stats@, Count::CacheRead, upto, n);
                lemma_sums_grow(all, stats@, Count::Reasoning, upto, n);
                lemma_sums_grow(all, stats@, Count::Total, upto, n);
            }
            return None;
        }
        i += 1;
    }
    Some(SessionTimeline { metadata: b.about, timeline: b.items })
}

/// Rebuilds the timeline of a session from the lines of its file.
///
/// Nothing where a sum over the replies does not fit in 64 bits.
pub fn session_timeline(
    lines: &Vec<String>,
    stats: &HashMap<u32, TokenStats>,
    session_name: &str,
) -> (r: Option<SessionTimeline>)
    ensures
        ({
            let events = session::events_in(text::texts(lines@));
            &&& r is Some <==> sums_fit(events, stats@, events.len())
            &&& r matches Some(t) ==> {
                &&& items_view(t.timeline@) == timeline(events, stats@, events.len())
                &&& t.metadata@ == metadata(events, stats@, session_name@, events.len())
            }
        }),
{
    let events = read_events(lines);
    assert(turns::trees(events@).len() == events@.len());
    build_timeline(&events, stats, session_name)
}

} // verus!
