//! What the items of a timeline say of the events of a session.

use crate::entry::TokenStats;
use crate::json;
use crate::json::JsonView;
use crate::session;
use crate::session_laws;
use crate::timeline;
use crate::timeline::ItemView;
use crate::timeline_laws;
use crate::turns;
use vstd::prelude::*;

verus! {

/// The event is a response with payload `p` in this role.
pub open spec fn responds(e: JsonView, role: Seq<char>, p: JsonView) -> bool {
    session_laws::carries(e, "response_item"@, p) && session_laws::says(p, "role"@, role)
}

/// The event is a response with payload `p` of this type, by neither the user nor the
/// assistant.
pub open spec fn works(e: JsonView, of: Seq<char>, p: JsonView) -> bool {
    &&& session_laws::carries(e, "response_item"@, p)
    &&& !session_laws::says(p, "role"@, "user"@)
    &&& !session_laws::says(p, "role"@, "assistant"@)
    &&& session_laws::says(p, "type"@, of)
}

/// The event is the call of a tool with payload `p`.
pub open spec fn calls(e: JsonView, p: JsonView) -> bool {
    works(e, "function_call"@, p) || works(e, "custom_tool_call"@, p)
}

/// The event is the output of a tool with payload `p`.
pub open spec fn puts_out(e: JsonView, p: JsonView) -> bool {
    works(e, "function_call_output"@, p) || works(e, "custom_tool_call_output"@, p)
}

/// The event is a message of this type.
pub open spec fn tells(e: JsonView, of: Seq<char>) -> bool {
    exists|p: JsonView| #[trigger]
        session_laws::carries(e, "event_msg"@, p) && session_laws::says(p, "type"@, of)
}

/// The event is shown: as a change of status, a prompt, a reply or the call of a tool.
pub open spec fn shown(e: JsonView) -> bool {
    ||| session_laws::says(e, "type"@, "session_meta"@)
    ||| tells(e, "task_started"@)
    ||| tells(e, "task_complete"@)
    ||| tells(e, "turn_aborted"@)
    ||| tells(e, "thread_rolled_back"@)
    ||| exists|p: JsonView| #[trigger]
        session_laws::carries(e, "response_item"@, p) && (responds(e, "user"@, p) || responds(
            e,
            "assistant"@,
            p,
        ) || calls(e, p))
}

proof fn lemma_words()
    ensures
        "session_meta"@.len() > 0,
        "event_msg"@.len() > 0,
        "response_item"@.len() > 0,
        "user"@.len() > 0,
        "assistant"@.len() > 0,
        "function_call"@.len() == 13,
        "custom_tool_call"@.len() == 16,
        "function_call_output"@.len() == 20,
        "custom_tool_call_output"@.len() == 23,
        "task_started"@.len() > 0,
        "task_complete"@.len() > 0,
        "turn_aborted"@.len() > 0,
        "thread_rolled_back"@.len() > 0,
        "user"@ != "assistant"@,
        "task_started"@ != "task_complete"@,
        "task_started"@ != "turn_aborted"@,
        "task_started"@ != "thread_rolled_back"@,
        "task_complete"@ != "turn_aborted"@,
        "task_complete"@ != "thread_rolled_back"@,
        "turn_aborted"@ != "thread_rolled_back"@,
{
    reveal_strlit("session_meta");
    reveal_strlit("event_msg");
    reveal_strlit("response_item");
    reveal_strlit("user");
    reveal_strlit("assistant");
    reveal_strlit("function_call");
    reveal_strlit("custom_tool_call");
    reveal_strlit("function_call_output");
    reveal_strlit("custom_tool_call_output");
    reveal_strlit("task_started");
    reveal_strlit("task_complete");
    reveal_strlit("turn_aborted");
    reveal_strlit("thread_rolled_back");
    assert("user"@.len() == 4 && "assistant"@.len() == 9);
    assert("task_started"@[1] == 'a' && "turn_aborted"@[1] == 'u');
    assert("task_started"@.len() == 12);
    assert("task_complete"@.len() == 13);
    assert("turn_aborted"@.len() == 12);
    assert("thread_rolled_back"@.len() == 18);
}

/// An event has an item in the timeline if it is shown, and only then.
pub proof fn lemma_shown(e: JsonView)
    ensures
        timeline::gives_item(e) <==> shown(e),
{
    lemma_words();
    turns::lemma_kinds_differ();
    let p = json::field(e, "payload"@);
    if timeline::gives_item(e) {
        if turns::kind_of(e) == "event_msg"@ {
            assert(session_laws::carries(e, "event_msg"@, p->0));
        } else if turns::kind_of(e) == "response_item"@ {
            assert(session_laws::carries(e, "response_item"@, p->0));
        }
    }
}

/// The item at place `q` is that of the event at place `i`.
pub open spec fn item_at(events: Seq<JsonView>, n: nat, q: int, i: int) -> bool {
    &&& n <= events.len()
    &&& 0 <= q < timeline::item_places(events, n).len()
    &&& timeline::item_places(events, n)[q] == i
}

/// Every event that is shown has one item, the items stand in the order of their events, and
/// there are no others.
pub proof fn lemma_items_of_events(events: Seq<JsonView>, stats: Map<u32, TokenStats>, n: nat)
    requires
        n <= events.len(),
    ensures
        timeline::timeline(events, stats, n).len() == timeline::item_places(events, n).len(),
        forall|i: int|
            0 <= i < n && #[trigger] shown(events[i]) ==> exists|q: int|
                #[trigger] item_at(events, n, q, i),
        forall|q: int, i: int|
            #[trigger] item_at(events, n, q, i) ==> 0 <= i < n && shown(events[i]),
        forall|q: int, r: int, i: int, j: int|
            #[trigger] item_at(events, n, q, i) && #[trigger] item_at(events, n, r, j) ==> (q < r
                <==> i < j),
{
    timeline_laws::lemma_timeline_in_order(events, n);
    let places = timeline::item_places(events, n);
    assert forall|i: int| 0 <= i < n && #[trigger] shown(events[i]) implies exists|q: int|
        #[trigger] item_at(events, n, q, i) by {
        lemma_shown(events[i]);
        assert(places.contains(i));
        let q = places.index_of(i);
        assert(item_at(events, n, q, i));
    }
    assert forall|q: int, i: int| #[trigger] item_at(events, n, q, i) implies 0 <= i < n && shown(
        events[i],
    ) by {
        lemma_shown(events[i]);
    }
    assert forall|q: int, r: int, i: int, j: int|
        #[trigger] item_at(events, n, q, i) && #[trigger] item_at(events, n, r, j) implies (q < r
        <==> i < j) by {
        if q < r {
            assert(places[q] < places[r]);
        }
        if r < q {
            assert(places[r] < places[q]);
        }
    }
}

/// The time of an event, empty where it has none.
pub open spec fn timed(e: JsonView, time: Seq<char>) -> bool {
    session_laws::says(e, "timestamp"@, time) || (!session_laws::has_text(e, "timestamp"@)
        && time.len() == 0)
}

/// The number of the turn that the event at place `i` belongs to, counted from one in the
/// order in which the turns are first named; one where no turn has been named.
pub open spec fn numbered(events: Seq<JsonView>, i: int, number: int) -> bool {
    ||| exists|k: int|
        {
            &&& 0 <= k < turns::turns_seen(events, events.len()).len()
            &&& session_laws::in_turn(events, i, #[trigger] session_laws::turn_at(events, k))
            &&& number == k + 1
        }
    ||| number == 1 && forall|j: int, t: Seq<char>|
        0 <= j <= i ==> !#[trigger] session_laws::names_turn(events[j], t)
}

proof fn lemma_seen_prefix(events: Seq<JsonView>, m: nat, n: nat)
    requires
        m <= n,
    ensures
        turns::turns_seen(events, m).is_prefix_of(turns::turns_seen(events, n)),
    decreases n,
{
    if m < n {
        lemma_seen_prefix(events, m, (n - 1) as nat);
        turns::lemma_turns_seen_distinct(events, n);
        let a = turns::turns_seen(events, m);
        let b = turns::turns_seen(events, (n - 1) as nat);
        let c = turns::turns_seen(events, n);
        assert(c.take(a.len() as int) =~= a) by {
            assert(b.take(a.len() as int) =~= a);
        }
    }
}

/// Events are numbered by their turns.
pub proof fn lemma_turn_number(events: Seq<JsonView>, i: int, number: int)
    requires
        0 <= i < events.len() <= u32::MAX,
        numbered(events, i, number),
    ensures
        turns::turn_number(events, (i + 1) as nat) == number,
{
    let n = (i + 1) as nat;
    let all = turns::turns_seen(events, events.len());
    let seen = turns::turns_seen(events, n);
    lemma_seen_prefix(events, n, events.len());
    turns::lemma_turns_seen_distinct(events, events.len());
    turns::lemma_turns_seen_distinct(events, n);
    turns::lemma_active_turn_seen(events, n);
    if turns::active_turn(events, n) is Some {
        let t = turns::active_turn(events, n)->0;
        session_laws::lemma_active_turn(events, i, t);
        assert(session_laws::in_turn(events, i, t));
        let named = choose|j: int| 0 <= j <= i && #[trigger] session_laws::names_turn(events[j], t);
        assert(session_laws::names_turn(events[named], t));
        let k = choose|k: int|
            {
                &&& 0 <= k < all.len()
                &&& session_laws::in_turn(events, i, #[trigger] session_laws::turn_at(events, k))
                &&& number == k + 1
            };
        let s = session_laws::turn_at(events, k);
        session_laws::lemma_active_turn(events, i, s);
        assert(s == t);
        let at = seen.index_of(t);
        assert(seen[at] == t);
        assert(all[at] == t);
        assert(at == k);
    } else {
        assert forall|k: int| 0 <= k < all.len() implies !session_laws::in_turn(
            events,
            i,
            #[trigger] session_laws::turn_at(events, k),
        ) by {
            session_laws::lemma_active_turn(events, i, session_laws::turn_at(events, k));
        }
    }
}

/// Every event has a number.
pub proof fn lemma_always_numbered(events: Seq<JsonView>, i: int)
    requires
        0 <= i < events.len(),
    ensures
        exists|number: int| numbered(events, i, number),
{
    let n = (i + 1) as nat;
    let all = turns::turns_seen(events, events.len());
    turns::lemma_active_turn_seen(events, n);
    lemma_seen_prefix(events, n, events.len());
    if turns::active_turn(events, n) is Some {
        let t = turns::active_turn(events, n)->0;
        session_laws::lemma_active_turn(events, i, t);
        let seen = turns::turns_seen(events, n);
        let k = seen.index_of(t);
        assert(all[k] == seen[k]);
        assert(session_laws::turn_at(events, k) == t);
        assert(numbered(events, i, k + 1));
    } else {
        lemma_unnamed(events, i);
        assert(numbered(events, i, 1));
    }
}

proof fn lemma_unnamed(events: Seq<JsonView>, i: int)
    requires
        0 <= i < events.len(),
        turns::active_turn(events, (i + 1) as nat) is None,
    ensures
        forall|j: int, t: Seq<char>|
            0 <= j <= i ==> !#[trigger] session_laws::names_turn(events[j], t),
    decreases i,
{
    assert forall|t: Seq<char>| !#[trigger] session_laws::names_turn(events[i], t) by {
        session_laws::lemma_turn_named(events[i], t);
    }
    if i > 0 {
        lemma_unnamed(events, i - 1);
    }
}

/// The first record of a session, and the messages on tasks and turns, are shown as changes
/// of status with these types and texts.
pub proof fn lemma_status_item(
    events: Seq<JsonView>,
    stats: Map<u32, TokenStats>,
    n: nat,
    q: int,
    i: int,
    time: Seq<char>,
)
    requires
        item_at(events, n, q, i),
        0 <= i < n,
        timed(events[i], time),
    ensures
        session_laws::says(events[i], "type"@, "session_meta"@) ==> timeline::timeline(
            events,
            stats,
            n,
        )[q] == (ItemView::SystemStatus {
            timestamp: time,
            status_type: "session_start"@,
            message: "會話開始 (Session Started)"@,
        }),
        tells(events[i], "task_started"@) ==> timeline::timeline(events, stats, n)[q] == (
        ItemView::SystemStatus {
            timestamp: time,
            status_type: "task_started"@,
            message: "任務開始 (Task Started)"@,
        }),
        tells(events[i], "task_complete"@) ==> timeline::timeline(events, stats, n)[q] == (
        ItemView::SystemStatus {
            timestamp: time,
            status_type: "task_complete"@,
            message: "任務完成 (Task Completed)"@,
        }),
        tells(events[i], "turn_aborted"@) ==> timeline::timeline(events, stats, n)[q] == (
        ItemView::SystemStatus {
            timestamp: time,
            status_type: "turn_aborted"@,
            message: "會話中斷 (Turn Aborted)"@,
        }),
        tells(events[i], "thread_rolled_back"@) ==> timeline::timeline(events, stats, n)[q] == (
        ItemView::SystemStatus {
            timestamp: time,
            status_type: "thread_rolled_back"@,
            message: "會話回滾 (Thread Rolled Back)"@,
        }),
{
    lemma_words();
    turns::lemma_kinds_differ();
    lemma_time(events[i], time);
    assert(timeline::timeline(events, stats, n)[q] == timeline::item_of(events, stats, i, n)->0);
}

proof fn lemma_time(e: JsonView, time: Seq<char>)
    requires
        timed(e, time),
    ensures
        turns::time_of(e) == time,
{
    if !session_laws::has_text(e, "timestamp"@) {
        assert(time =~= Seq::empty());
    }
}

/// The text of one block after others is theirs with its own added, where it is of the type
/// that is asked for and has a text; other blocks add nothing.
pub proof fn lemma_block_added(blocks: Seq<JsonView>, block: JsonView, of: Seq<char>)
    ensures
        forall|t: Seq<char>| #[trigger]
            session_laws::says(block, "text"@, t) && session_laws::says(block, "type"@, of)
                ==> timeline::blocks_text(blocks.push(block), of) == timeline::blocks_text(
                blocks,
                of,
            ) + t,
        !session_laws::says(block, "type"@, of) || !session_laws::has_text(block, "text"@)
            ==> timeline::blocks_text(blocks.push(block), of) == timeline::blocks_text(blocks, of),
        timeline::blocks_text(Seq::empty(), of).len() == 0,
{
    assert(blocks.push(block).drop_last() =~= blocks);
}

/// The texts of two runs of blocks are those of the first and then those of the second.
pub proof fn lemma_blocks_joined(a: Seq<JsonView>, b: Seq<JsonView>, of: Seq<char>)
    ensures
        timeline::blocks_text(a + b, of) == timeline::blocks_text(a, of) + timeline::blocks_text(
            b,
            of,
        ),
    decreases b.len(),
{
    if b.len() == 0 {
        assert(a + b =~= a);
        assert(timeline::blocks_text(a, of) + timeline::blocks_text(b, of)
            =~= timeline::blocks_text(a, of));
    } else {
        lemma_blocks_joined(a, b.drop_last(), of);
        assert((a + b).drop_last() =~= a + b.drop_last());
        assert((a + b).last() == b.last());
        assert(timeline::blocks_text(a + b, of) =~= timeline::blocks_text(a, of)
            + timeline::blocks_text(b, of));
    }
}

/// `t` is the text of the blocks of this type in the content of a response; it is empty where
/// the content is no array.
pub open spec fn content(p: JsonView, of: Seq<char>, t: Seq<char>) -> bool {
    match json::field(p, "content"@) {
        Some(JsonView::Array(blocks)) => t == timeline::blocks_text(blocks, of),
        _ => t.len() == 0,
    }
}

/// What the user says is shown as a prompt with the texts of its input.
pub proof fn lemma_prompt_item(
    events: Seq<JsonView>,
    stats: Map<u32, TokenStats>,
    n: nat,
    q: int,
    i: int,
    p: JsonView,
    time: Seq<char>,
    prompt: Seq<char>,
    number: int,
)
    requires
        item_at(events, n, q, i),
        0 <= i < n,
        events.len() <= u32::MAX,
        responds(events[i], "user"@, p),
        timed(events[i], time),
        content(p, "input_text"@, prompt),
        numbered(events, i, number),
    ensures
        timeline::timeline(events, stats, n)[q] == (ItemView::UserPrompt {
            timestamp: time,
            prompt,
            transformed_prompt: None,
            attachments: Seq::empty(),
            turn_no: number as u32,
        }),
{
    lemma_words();
    turns::lemma_kinds_differ();
    lemma_time(events[i], time);
    lemma_turn_number(events, i, number);
    assert(prompt =~= timeline::content_text(p, "input_text"@));
    assert(timeline::timeline(events, stats, n)[q] == timeline::item_of(events, stats, i, n)->0);
}

/// The model in use at an event: the last that an event up to it names, and `gpt-5.3-Codex`
/// before any is named.
pub open spec fn in_use(events: Seq<JsonView>, i: int, model: Seq<char>) -> bool {
    ||| exists|j: int|
        0 <= j <= i && #[trigger] session_laws::names_model(events[j], model) && forall|
            m: int,
            w: Seq<char>,
        |
            j < m <= i ==> !#[trigger] session_laws::names_model(events[m], w)
    ||| model == "gpt-5.3-Codex"@ && forall|j: int, w: Seq<char>|
        0 <= j <= i ==> !#[trigger] session_laws::names_model(events[j], w)
}

proof fn lemma_model_in_use(events: Seq<JsonView>, i: int, model: Seq<char>)
    requires
        0 <= i < events.len(),
        in_use(events, i, model),
    ensures
        timeline::model_after(events, (i + 1) as nat) == model,
{
    let pick = |e: JsonView| session::model_in(e);
    let n = (i + 1) as nat;
    assert forall|j: int, w: Seq<char>| 0 <= j <= i implies (pick(events[j]) == Some(w)
        <==> #[trigger] session_laws::names_model(events[j], w)) by {
        session_laws::lemma_model_named(events[j], w);
    }
    if exists|j: int|
        0 <= j <= i && #[trigger] session_laws::names_model(events[j], model) && forall|
            m: int,
            w: Seq<char>,
        |
            j < m <= i ==> !#[trigger] session_laws::names_model(events[m], w) {
        let j = choose|j: int|
            0 <= j <= i && #[trigger] session_laws::names_model(events[j], model) && forall|
                m: int,
                w: Seq<char>,
            |
                j < m <= i ==> !#[trigger] session_laws::names_model(events[m], w);
        assert forall|m: int| j < m < n implies pick(#[trigger] events[m]) is None by {
            if pick(events[m]) is Some {
                assert(session_laws::names_model(events[m], pick(events[m])->0));
            }
        }
        session_laws::lemma_last_of_all(events, pick, n, j);
    } else {
        assert forall|m: int| 0 <= m < n implies pick(#[trigger] events[m]) is None by {
            if pick(events[m]) is Some {
                assert(session_laws::names_model(events[m], pick(events[m])->0));
            }
        }
        session_laws::lemma_none_of_all(events, pick, n);
    }
}

/// What the assistant says is shown as a reply with the texts of its output, the model in
/// use, the number of its turn, and the counts that are known under that number: none where
/// none are known.
pub proof fn lemma_reply_item(
    events: Seq<JsonView>,
    stats: Map<u32, TokenStats>,
    n: nat,
    q: int,
    i: int,
    p: JsonView,
    time: Seq<char>,
    reply: Seq<char>,
    model: Seq<char>,
    number: int,
)
    requires
        item_at(events, n, q, i),
        0 <= i < n,
        events.len() <= u32::MAX,
        responds(events[i], "assistant"@, p),
        timed(events[i], time),
        content(p, "output_text"@, reply),
        in_use(events, i, model),
        numbered(events, i, number),
    ensures
        stats.contains_key(number as u32) ==> timeline::timeline(events, stats, n)[q] == (
        ItemView::AssistantReply {
            timestamp: time,
            reply,
            model,
            output_tokens: Some(stats[number as u32].output),
            input_tokens: Some(stats[number as u32].input),
            cache_read_tokens: stats[number as u32].cache_read,
            cache_write_tokens: None,
            reasoning_tokens: stats[number as u32].reasoning,
            total_tokens: Some(stats[number as u32].total),
            tool_requests: Seq::empty(),
            turn_no: number as u32,
        }),
        !stats.contains_key(number as u32) ==> timeline::timeline(events, stats, n)[q] == (
        ItemView::AssistantReply {
            timestamp: time,
            reply,
            model,
            output_tokens: None,
            input_tokens: None,
            cache_read_tokens: None,
            cache_write_tokens: None,
            reasoning_tokens: None,
            total_tokens: None,
            tool_requests: Seq::empty(),
            turn_no: number as u32,
        }),
{
    lemma_words();
    turns::lemma_kinds_differ();
    lemma_time(events[i], time);
    lemma_turn_number(events, i, number);
    lemma_model_in_use(events, i, model);
    assert(reply =~= timeline::content_text(p, "output_text"@));
    assert(timeline::timeline(events, stats, n)[q] == timeline::item_of(events, stats, i, n)->0);
}

/// The arguments of a function call are its text read as JSON, or the text itself where it is
/// not JSON; those of another tool are its input under its name. Where there is neither text
/// nor input there are none.
pub open spec fn arguments(e: JsonView, p: JsonView, v: JsonView) -> bool {
    if works(e, "function_call"@, p) {
        match json::field(p, "arguments"@) {
            Some(JsonView::Str(s)) => match json::parsed(s) {
                Some(read) => v == read,
                None => v == JsonView::Str(s),
            },
            _ => v == JsonView::Null,
        }
    } else {
        match json::field(p, "input"@) {
            Some(input) => v == JsonView::Object(seq![("input"@, input)]),
            None => v == JsonView::Null,
        }
    }
}

/// The call of a tool is shown with its time, its name, its arguments and the number of its
/// turn.
pub proof fn lemma_call_item(
    events: Seq<JsonView>,
    stats: Map<u32, TokenStats>,
    n: nat,
    q: int,
    i: int,
    p: JsonView,
    time: Seq<char>,
    v: JsonView,
    number: int,
)
    requires
        item_at(events, n, q, i),
        0 <= i < n,
        events.len() <= u32::MAX,
        calls(events[i], p),
        timed(events[i], time),
        arguments(events[i], p, v),
        numbered(events, i, number),
    ensures
        timeline::timeline(events, stats, n)[q] matches ItemView::ToolStep {
            timestamp,
            tool_name,
            arguments,
            turn_no,
            ..
        } && {
            &&& timestamp == time
            &&& arguments == v
            &&& turn_no == number
            &&& forall|name: Seq<char>| #[trigger]
                session_laws::says(p, "name"@, name) ==> tool_name == name
            &&& !session_laws::has_text(p, "name"@) ==> tool_name == "unknown"@
        },
{
    lemma_words();
    turns::lemma_kinds_differ();
    lemma_time(events[i], time);
    lemma_turn_number(events, i, number);
    assert(timeline::timeline(events, stats, n)[q] == timeline::item_of(events, stats, i, n)->0);
}

/// The event is the call of a tool under this identifier.
pub open spec fn calls_under(e: JsonView, id: Seq<char>) -> bool {
    id.len() > 0 && exists|p: JsonView| #[trigger]
        calls(e, p) && session_laws::says(p, "call_id"@, id)
}

/// The event is the output of a tool under this identifier.
pub open spec fn puts_out_under(e: JsonView, id: Seq<char>) -> bool {
    exists|p: JsonView| #[trigger] puts_out(e, p) && session_laws::says(p, "call_id"@, id)
}

proof fn lemma_under(e: JsonView, id: Seq<char>)
    requires
        id.len() > 0,
    ensures
        timeline::call_id(e) == Some(id) <==> calls_under(e, id),
        timeline::output_id(e) == Some(id) <==> puts_out_under(e, id),
{
    lemma_words();
    turns::lemma_kinds_differ();
    let p = json::field(e, "payload"@)->0;
    if timeline::call_id(e) == Some(id) {
        assert(session_laws::carries(e, "response_item"@, p));
        assert(calls(e, p));
        assert(session_laws::says(p, "call_id"@, id));
    }
    if timeline::output_id(e) == Some(id) {
        assert(session_laws::carries(e, "response_item"@, p));
        assert(puts_out(e, p));
        assert(session_laws::says(p, "call_id"@, id));
    }
}

proof fn lemma_latest(events: Seq<JsonView>, id: Seq<char>, n: nat, i: int)
    requires
        n <= events.len(),
        id.len() > 0,
        0 <= i < events.len(),
        calls_under(events[i], id),
    ensures
        timeline::latest_call(events, id, n) == Some(i) <==> i < n && forall|m: int|
            i < m < n ==> !#[trigger] calls_under(events[m], id),
    decreases n,
{
    if n > 0 {
        lemma_latest(events, id, (n - 1) as nat, i);
        lemma_under(events[n - 1], id);
        lemma_under(events[i], id);
    }
}

/// The output at place `j` belongs to the call under its identifier that came last before it.
pub open spec fn belongs(events: Seq<JsonView>, j: int, i: int, id: Seq<char>) -> bool {
    &&& i < j
    &&& puts_out_under(events[j], id)
    &&& forall|m: int| i < m < j ==> !#[trigger] calls_under(events[m], id)
}

proof fn lemma_belongs(events: Seq<JsonView>, j: int, i: int, id: Seq<char>)
    requires
        0 <= i < events.len(),
        0 <= j < events.len(),
        calls_under(events[i], id),
    ensures
        timeline::answers(events, j, i) <==> belongs(events, j, i, id),
{
    lemma_latest(events, id, j as nat, i);
    lemma_under(events[j], id);
    lemma_under(events[i], id);
    if timeline::answers(events, j, i) {
        timeline::lemma_latest_call(events, timeline::output_id(events[j])->0, j as nat);
    }
}

proof fn lemma_result(events: Seq<JsonView>, i: int, n: nat, j: int)
    requires
        i <= j < n <= events.len(),
        0 <= j,
        timeline::answers(events, j, i),
        forall|m: int| j < m < n ==> !#[trigger] timeline::answers(events, m, i),
    ensures
        timeline::result_of(events, i, n) == timeline::result_of(events, i, (j + 1) as nat),
    decreases n,
{
    if j < n - 1 {
        assert(!timeline::answers(events, n - 1, i));
        lemma_result(events, i, (n - 1) as nat, j);
    }
}

proof fn lemma_no_result(events: Seq<JsonView>, i: int, n: nat)
    requires
        n <= events.len(),
        forall|m: int| 0 <= m < n ==> !#[trigger] timeline::answers(events, m, i),
    ensures
        timeline::result_of(events, i, n) is None,
    decreases n,
{
    if n > 0 {
        assert(!timeline::answers(events, n - 1, i));
        lemma_no_result(events, i, (n - 1) as nat);
    }
}

/// A call is shown with the last output that belongs to it.
pub proof fn lemma_call_result(
    events: Seq<JsonView>,
    stats: Map<u32, TokenStats>,
    n: nat,
    q: int,
    i: int,
    id: Seq<char>,
    j: int,
    p: JsonView,
    out: Seq<char>,
)
    requires
        item_at(events, n, q, i),
        0 <= i < j < n,
        calls_under(events[i], id),
        belongs(events, j, i, id),
        forall|m: int| j < m < n ==> !#[trigger] belongs(events, m, i, id),
        puts_out(events[j], p),
        session_laws::says(p, "output"@, out) || (!session_laws::has_text(p, "output"@)
            && out.len() == 0),
    ensures
        timeline::timeline(events, stats, n)[q] matches ItemView::ToolStep { result, .. } && result
            == Some(JsonView::Object(seq![("content"@, JsonView::Str(out))])),
{
    lemma_words();
    turns::lemma_kinds_differ();
    lemma_belongs(events, j, i, id);
    assert forall|m: int| j < m < n implies !#[trigger] timeline::answers(events, m, i) by {
        lemma_belongs(events, m, i, id);
        assert(!belongs(events, m, i, id));
    }
    lemma_result(events, i, n, j);
    lemma_under(events[i], id);
    let found = json::text_field_or_empty(p, "output"@);
    assert(out =~= found);
    assert(timeline::timeline(events, stats, n)[q] == timeline::item_of(events, stats, i, n)->0);
}

/// A call to which no output belongs is shown without a result, and so is one without an
/// identifier.
pub proof fn lemma_call_without_result(
    events: Seq<JsonView>,
    stats: Map<u32, TokenStats>,
    n: nat,
    q: int,
    i: int,
    p: JsonView,
)
    requires
        item_at(events, n, q, i),
        0 <= i < n,
        calls(events[i], p),
        forall|id: Seq<char>, m: int|
            i < m < n && calls_under(events[i], id) ==> !#[trigger] belongs(events, m, i, id),
    ensures
        timeline::timeline(events, stats, n)[q] matches ItemView::ToolStep { result, .. } && result
            is None,
{
    lemma_words();
    turns::lemma_kinds_differ();
    assert forall|m: int| 0 <= m < n implies !#[trigger] timeline::answers(events, m, i) by {
        if timeline::answers(events, m, i) {
            let id = timeline::output_id(events[m])->0;
            timeline::lemma_latest_call(events, id, m as nat);
            lemma_under(events[i], id);
            lemma_belongs(events, m, i, id);
            assert(belongs(events, m, i, id));
        }
    }
    lemma_no_result(events, i, n);
    assert(timeline::timeline(events, stats, n)[q] == timeline::item_of(events, stats, i, n)->0);
}

/// The record of a session holds `v` under `name`.
pub open spec fn records(e: JsonView, name: Seq<char>, v: JsonView) -> bool {
    exists|p: JsonView| #[trigger]
        session_laws::carries(e, "session_meta"@, p) && json::field(p, name) == Some(v)
}

/// The record of a session holds `v` under `name` in what it says of the repository.
pub open spec fn records_of_git(e: JsonView, name: Seq<char>, v: JsonView) -> bool {
    exists|git: JsonView| #[trigger]
        records(e, "git"@, git) && json::field(git, name) == Some(v)
}

/// `r` is the last of what the events up to `n` say by `says`; nothing where none says
/// anything.
pub open spec fn last_said<A>(
    events: Seq<JsonView>,
    says: spec_fn(JsonView, A) -> bool,
    n: int,
    r: Option<A>,
) -> bool {
    match r {
        Some(v) => exists|i: int|
            0 <= i < n && #[trigger] says(events[i], v) && forall|j: int, w: A|
                i < j < n ==> !#[trigger] says(events[j], w),
        None => forall|j: int, w: A| 0 <= j < n ==> !#[trigger] says(events[j], w),
    }
}

proof fn lemma_last_said<A>(
    events: Seq<JsonView>,
    pick: spec_fn(JsonView) -> Option<A>,
    says: spec_fn(JsonView, A) -> bool,
    n: nat,
)
    requires
        n <= events.len(),
        forall|e: JsonView, v: A| #[trigger] says(e, v) <==> pick(e) == Some(v),
    ensures
        last_said(events, says, n as int, turns::last_of(events, pick, n)),
    decreases n,
{
    if n > 0 {
        lemma_last_said(events, pick, says, (n - 1) as nat);
        let e = events[n - 1];
        let before = turns::last_of(events, pick, (n - 1) as nat);
        match pick(e) {
            Some(v) => {
                assert(says(events[n - 1], v));
            },
            None => {
                assert forall|w: A| !#[trigger] says(e, w) by {}
                if let Some(v) = before {
                    let i = choose|i: int|
                        0 <= i < n - 1 && #[trigger] says(events[i], v) && forall|j: int, w: A|
                            i < j < n - 1 ==> !#[trigger] says(events[j], w);
                    assert(says(events[i], v));
                    assert forall|j: int, w: A| i < j < n implies !#[trigger] says(
                        events[j],
                        w,
                    ) by {}
                }
            },
        }
    }
}

/// Of a session the version, the directory, the branch and the repository are shown that its
/// records hold last.
pub proof fn lemma_records_shown(
    events: Seq<JsonView>,
    stats: Map<u32, TokenStats>,
    session_name: Seq<char>,
    n: nat,
)
    requires
        n <= events.len(),
    ensures
        ({
            let about = timeline::metadata(events, stats, session_name, n);
            &&& last_said(
                events,
                |e: JsonView, v: JsonView| records(e, "cli_version"@, v),
                n as int,
                about.copilot_version,
            )
            &&& last_said(
                events,
                |e: JsonView, v: JsonView| records(e, "cwd"@, v),
                n as int,
                about.cwd,
            )
            &&& last_said(
                events,
                |e: JsonView, v: JsonView| records_of_git(e, "branch"@, v),
                n as int,
                about.git_branch,
            )
            &&& last_said(
                events,
                |e: JsonView, v: JsonView| records_of_git(e, "repository_url"@, v),
                n as int,
                about.repository,
            )
            &&& about.start_time == session_name
            &&& about.compaction_count == 0
        }),
{
    lemma_meta_said(events, "cli_version"@, n);
    lemma_meta_said(events, "cwd"@, n);
    lemma_git_said(events, "branch"@, n);
    lemma_git_said(events, "repository_url"@, n);
}

proof fn lemma_meta_record(e: JsonView, name: Seq<char>, v: JsonView)
    ensures
        records(e, name, v) <==> timeline::meta_field(e, name) == Some(v),
{
    lemma_words();
    if timeline::meta_field(e, name) == Some(v) {
        let p = json::field(e, "payload"@)->0;
        assert(session_laws::carries(e, "session_meta"@, p));
    }
}

proof fn lemma_meta_said(events: Seq<JsonView>, name: Seq<char>, n: nat)
    requires
        n <= events.len(),
    ensures
        last_said(
            events,
            |e: JsonView, v: JsonView| records(e, name, v),
            n as int,
            turns::last_of(events, |e: JsonView| timeline::meta_field(e, name), n),
        ),
{
    let says = |e: JsonView, v: JsonView| records(e, name, v);
    let pick = |e: JsonView| timeline::meta_field(e, name);
    assert forall|e: JsonView, v: JsonView| #[trigger] says(e, v) <==> pick(e) == Some(v) by {
        lemma_meta_record(e, name, v);
    }
    lemma_last_said(events, pick, says, n);
}

proof fn lemma_git_said(events: Seq<JsonView>, name: Seq<char>, n: nat)
    requires
        n <= events.len(),
    ensures
        last_said(
            events,
            |e: JsonView, v: JsonView| records_of_git(e, name, v),
            n as int,
            turns::last_of(events, |e: JsonView| timeline::git_field(e, name), n),
        ),
{
    let says = |e: JsonView, v: JsonView| records_of_git(e, name, v);
    let pick = |e: JsonView| timeline::git_field(e, name);
    assert forall|e: JsonView, v: JsonView| #[trigger] says(e, v) <==> pick(e) == Some(v) by {
        if pick(e) == Some(v) {
            let git = timeline::meta_field(e, "git"@)->0;
            lemma_meta_record(e, "git"@, git);
            assert(records(e, "git"@, git));
        }
        if says(e, v) {
            let git = choose|git: JsonView| #[trigger]
                records(e, "git"@, git) && json::field(git, name) == Some(v);
            lemma_meta_record(e, "git"@, git);
        }
    }
    lemma_last_said(events, pick, says, n);
}

/// Of a session the model is shown that the context of a turn names last, and
/// `gpt-5.3-Codex` where none names one.
pub proof fn lemma_selected_model_shown(
    events: Seq<JsonView>,
    stats: Map<u32, TokenStats>,
    session_name: Seq<char>,
    n: nat,
)
    requires
        n <= events.len(),
    ensures
        ({
            let model = timeline::metadata(events, stats, session_name, n).selected_model;
            let says = |e: JsonView, m: Seq<char>|
                session_laws::payload_says(e, "turn_context"@, "model"@, m);
            ||| last_said(events, says, n as int, Some(model))
            ||| model == "gpt-5.3-Codex"@ && last_said(events, says, n as int, None)
        }),
{
    let says = |e: JsonView, m: Seq<char>|
        session_laws::payload_says(e, "turn_context"@, "model"@, m);
    let pick = |e: JsonView| turns::payload_text(e, "turn_context"@, "model"@);
    reveal_strlit("turn_context");
    assert forall|e: JsonView, m: Seq<char>| #[trigger] says(e, m) <==> pick(e) == Some(m) by {
        session_laws::lemma_payload_says(e, "turn_context"@, "model"@, m);
    }
    lemma_last_said(events, pick, says, n);
}

} // verus!
