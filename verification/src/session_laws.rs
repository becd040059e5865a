//! What the entries of a session say of its events.

use crate::entry::{CostStats, TokenStats};
use crate::json;
use crate::json::JsonView;
use crate::session;
use crate::session::{SourceView, TokenCountUsage};
use crate::turns;
use vstd::prelude::*;

verus! {

/// The field `name` of `v` is the text `s`.
pub open spec fn says(v: JsonView, name: Seq<char>, s: Seq<char>) -> bool {
    json::field(v, name) == Some(JsonView::Str(s))
}

/// The field `name` of `v` is a text.
pub open spec fn has_text(v: JsonView, name: Seq<char>) -> bool {
    json::field(v, name) matches Some(JsonView::Str(_))
}

/// `v` is the whole number `n`.
pub open spec fn is_count(v: JsonView, n: u64) -> bool {
    v matches JsonView::Number { unsigned: Some(m), .. } && m == n
}

/// The field `name` of `v` is the whole number `n`.
pub open spec fn has_count(v: JsonView, name: Seq<char>, n: u64) -> bool {
    json::field(v, name) matches Some(f) && is_count(f, n)
}

/// The event is of this kind and has this payload.
pub open spec fn carries(e: JsonView, kind: Seq<char>, p: JsonView) -> bool {
    says(e, "type"@, kind) && json::field(e, "payload"@) == Some(p)
}

/// A field of an object is the first of its name.
pub proof fn lemma_field_found(fields: Seq<(Seq<char>, JsonView)>, i: int)
    requires
        0 <= i < fields.len(),
        forall|j: int| 0 <= j < i ==> (#[trigger] fields[j]).0 != fields[i].0,
    ensures
        json::field(JsonView::Object(fields), fields[i].0) == Some(fields[i].1),
{
    lemma_find_field(fields, i);
}

proof fn lemma_find_field(fields: Seq<(Seq<char>, JsonView)>, i: int)
    requires
        0 <= i < fields.len(),
        forall|j: int| 0 <= j < i ==> (#[trigger] fields[j]).0 != fields[i].0,
    ensures
        json::find_field(fields, fields[i].0) == Some(fields[i].1),
    decreases i,
{
    if i > 0 {
        assert(fields[0].0 != fields[i].0);
        let rest = fields.drop_first();
        assert forall|j: int| 0 <= j < i - 1 implies (#[trigger] rest[j]).0 != rest[i - 1].0 by {
            assert(fields[j + 1].0 != fields[i].0);
        }
        lemma_find_field(rest, i - 1);
    }
}

/// What is not among the names of an object is not a field of it; other values have none.
pub proof fn lemma_field_missing(v: JsonView, name: Seq<char>)
    requires
        v matches JsonView::Object(fields) ==> forall|i: int|
            0 <= i < fields.len() ==> (#[trigger] fields[i]).0 != name,
    ensures
        json::field(v, name) is None,
{
    if let JsonView::Object(fields) = v {
        lemma_no_field(fields, name);
    }
}

proof fn lemma_no_field(fields: Seq<(Seq<char>, JsonView)>, name: Seq<char>)
    requires
        forall|i: int| 0 <= i < fields.len() ==> (#[trigger] fields[i]).0 != name,
    ensures
        json::find_field(fields, name) is None,
    decreases fields.len(),
{
    if fields.len() > 0 {
        let rest = fields.drop_first();
        assert forall|i: int| 0 <= i < rest.len() implies (#[trigger] rest[i]).0 != name by {
            assert(fields[i + 1].0 != name);
        }
        assert(fields[0].0 != name);
        lemma_no_field(rest, name);
    }
}

/// The event names turn `t`: in its payload where it is a context or a message, in its
/// metadata where it is a response.
pub open spec fn names_turn(e: JsonView, t: Seq<char>) -> bool {
    ||| exists|p: JsonView|
        (#[trigger] carries(e, "turn_context"@, p) || carries(e, "event_msg"@, p)) && says(
            p,
            "turn_id"@,
            t,
        )
    ||| says(e, "type"@, "response_item"@) && exists|m: JsonView| #[trigger]
        says(m, "turn_id"@, t) && json::field(e, "metadata"@) == Some(m)
}

/// An event is of the turn that it names.
pub proof fn lemma_turn_named(e: JsonView, t: Seq<char>)
    ensures
        turns::turn_named(e) == Some(t) <==> names_turn(e, t),
{
    turns::lemma_kinds_differ();
    lemma_kinds_not_empty();
    if turns::turn_named(e) == Some(t) {
        if turns::kind_of(e) == "response_item"@ {
            let m = json::field(e, "metadata"@)->0;
            assert(says(m, "turn_id"@, t));
        } else {
            let p = json::field(e, "payload"@)->0;
            assert(carries(e, turns::kind_of(e), p));
            assert(carries(e, "turn_context"@, p) || carries(e, "event_msg"@, p));
        }
    }
}

proof fn lemma_kinds_not_empty()
    ensures
        "session_meta"@.len() > 0,
        "turn_context"@.len() > 0,
        "event_msg"@.len() > 0,
        "response_item"@.len() > 0,
        "token_count"@.len() > 0,
        "task_complete"@.len() > 0,
        "turn_aborted"@.len() > 0,
        "token_count"@ != "task_complete"@,
        "token_count"@ != "turn_aborted"@,
{
    reveal_strlit("session_meta");
    reveal_strlit("turn_context");
    reveal_strlit("event_msg");
    reveal_strlit("response_item");
    reveal_strlit("token_count");
    reveal_strlit("task_complete");
    reveal_strlit("turn_aborted");
    assert("token_count"@.len() == 11);
    assert("task_complete"@.len() == 13);
    assert("turn_aborted"@.len() == 12);
}

/// The event at place `i` belongs to turn `t`: of the events up to it that name a turn, the
/// last names `t`.
pub open spec fn in_turn(events: Seq<JsonView>, i: int, t: Seq<char>) -> bool {
    exists|j: int|
        0 <= j <= i && #[trigger] names_turn(events[j], t) && forall|m: int, s: Seq<char>|
            j < m <= i ==> !#[trigger] names_turn(events[m], s)
}

/// An event belongs to the turn that was named last, whether or not it names it itself.
pub proof fn lemma_active_turn(events: Seq<JsonView>, i: int, t: Seq<char>)
    requires
        0 <= i < events.len(),
    ensures
        turns::active_turn(events, (i + 1) as nat) == Some(t) <==> in_turn(events, i, t),
    decreases i,
{
    let e = events[i];
    assert forall|s: Seq<char>| turns::turn_named(e) == Some(s) <==> #[trigger] names_turn(e, s) by {
        lemma_turn_named(e, s);
    }
    if turns::turn_named(e) is Some {
        let named = turns::turn_named(e)->0;
        assert(names_turn(e, named));
        if in_turn(events, i, t) {
            let j = choose|j: int|
                0 <= j <= i && #[trigger] names_turn(events[j], t) && forall|m: int, s: Seq<char>|
                    j < m <= i ==> !#[trigger] names_turn(events[m], s);
            if j < i {
                assert(!names_turn(events[i], named));
            }
        }
    } else {
        assert forall|s: Seq<char>| !#[trigger] names_turn(e, s) by {}
        if i > 0 {
            lemma_active_turn(events, i - 1, t);
            if in_turn(events, i, t) {
                let j = choose|j: int|
                    0 <= j <= i && #[trigger] names_turn(events[j], t) && forall|
                        m: int,
                        s: Seq<char>,
                    |
                        j < m <= i ==> !#[trigger] names_turn(events[m], s);
                assert(0 <= j <= i - 1 && names_turn(events[j], t));
                assert(in_turn(events, i - 1, t));
            }
            if in_turn(events, i - 1, t) {
                let j = choose|j: int|
                    0 <= j <= i - 1 && #[trigger] names_turn(events[j], t) && forall|
                        m: int,
                        s: Seq<char>,
                    |
                        j < m <= i - 1 ==> !#[trigger] names_turn(events[m], s);
                assert forall|m: int, s: Seq<char>| j < m <= i implies !#[trigger] names_turn(
                    events[m],
                    s,
                ) by {}
                assert(names_turn(events[j], t));
            }
        } else {
            assert(turns::active_turn(events, 0) is None);
            assert(turns::active_turn(events, 1) is None);
        }
    }
}

/// The turn at place `k` of a session.
pub open spec fn turn_at(events: Seq<JsonView>, k: int) -> Seq<char> {
    turns::turns_seen(events, events.len())[k]
}

/// The turns of a session are those that its events name, each once, in the order in which
/// they are first named; there is one entry for each.
pub proof fn lemma_turns_of_session(events: Seq<JsonView>, source: SourceView)
    ensures
        session::session_entries(events, source).len() == turns::turns_seen(
            events,
            events.len(),
        ).len(),
        turns::turns_seen(events, events.len()).no_duplicates(),
        forall|i: int, t: Seq<char>|
            0 <= i < events.len() && #[trigger] names_turn(events[i], t) ==> turns::turns_seen(
                events,
                events.len(),
            ).contains(t),
        forall|k: int|
            0 <= k < turns::turns_seen(events, events.len()).len() ==> named_first(
                events,
                #[trigger] turn_at(events, k),
                events.len() as int,
            ) < events.len(),
        forall|j: int, k: int|
            0 <= j < k < turns::turns_seen(events, events.len()).len() ==> named_first(
                events,
                #[trigger] turn_at(events, j),
                events.len() as int,
            ) < named_first(events, #[trigger] turn_at(events, k), events.len() as int),
{
    let n = events.len();
    turns::lemma_turns_seen_distinct(events, n);
    lemma_turns_listed(events, n);
    assert forall|k: int| 0 <= k < turns::turns_seen(events, n).len() implies named_first(
        events,
        #[trigger] turn_at(events, k),
        n as int,
    ) < n by {
        assert(turn_at(events, k) == turns::turns_seen(events, n)[k]);
    }
    assert forall|j: int, k: int| 0 <= j < k < turns::turns_seen(events, n).len() implies named_first(
        events,
        #[trigger] turn_at(events, j),
        n as int,
    ) < named_first(events, #[trigger] turn_at(events, k), n as int) by {
        assert(turn_at(events, j) == turns::turns_seen(events, n)[j]);
        assert(turn_at(events, k) == turns::turns_seen(events, n)[k]);
    }
}

/// The place of the first of `n` events that names turn `t`; `n` where none does.
pub open spec fn named_first(events: Seq<JsonView>, t: Seq<char>, n: int) -> int
    decreases n,
{
    if n <= 0 {
        0
    } else if named_first(events, t, n - 1) < n - 1 {
        named_first(events, t, n - 1)
    } else if names_turn(events[n - 1], t) {
        n - 1
    } else {
        n
    }
}

/// The first event that names a turn names it, and none before it does.
pub proof fn lemma_named_first(events: Seq<JsonView>, t: Seq<char>, n: int)
    requires
        0 <= n <= events.len(),
    ensures
        0 <= named_first(events, t, n) <= n,
        named_first(events, t, n) < n ==> names_turn(events[named_first(events, t, n)], t),
        forall|j: int|
            0 <= j < named_first(events, t, n) ==> !#[trigger] names_turn(events[j], t),
    decreases n,
{
    if n > 0 {
        lemma_named_first(events, t, n - 1);
    }
}

proof fn lemma_turns_listed(events: Seq<JsonView>, n: nat)
    requires
        n <= events.len(),
    ensures
        forall|i: int, t: Seq<char>|
            0 <= i < n && #[trigger] names_turn(events[i], t) ==> turns::turns_seen(
                events,
                n,
            ).contains(t),
        forall|k: int|
            0 <= k < turns::turns_seen(events, n).len() ==> named_first(
                events,
                #[trigger] turns::turns_seen(events, n)[k],
                n as int,
            ) < n,
        forall|j: int, k: int|
            0 <= j < k < turns::turns_seen(events, n).len() ==> named_first(
                events,
                #[trigger] turns::turns_seen(events, n)[j],
                n as int,
            ) < named_first(events, #[trigger] turns::turns_seen(events, n)[k], n as int),
    decreases n,
{
    if n > 0 {
        let m = (n - 1) as nat;
        lemma_turns_listed(events, m);
        let before = turns::turns_seen(events, m);
        let now = turns::turns_seen(events, n);
        let e = events[n - 1];
        assert forall|s: Seq<char>| turns::turn_named(e) == Some(s) <==> #[trigger] names_turn(
            e,
            s,
        ) by {
            lemma_turn_named(e, s);
        }
        assert forall|k: int| 0 <= k < before.len() implies #[trigger] now[k] == before[k] by {}
        assert forall|i: int, t: Seq<char>| 0 <= i < n && #[trigger] names_turn(
            events[i],
            t,
        ) implies now.contains(t) by {
            if i < n - 1 {
                assert(before.contains(t));
                let k = before.index_of(t);
                assert(now[k] == t);
            } else if !before.contains(t) {
                assert(now[now.len() - 1] == t);
            } else {
                let k = before.index_of(t);
                assert(now[k] == t);
            }
        }
        assert forall|k: int| 0 <= k < now.len() implies named_first(
            events,
            #[trigger] now[k],
            n as int,
        ) < n && (k < before.len() ==> named_first(events, now[k], n as int) == named_first(
            events,
            before[k],
            m as int,
        )) && (k >= before.len() ==> named_first(events, now[k], n as int) == n - 1) by {
            lemma_named_first(events, now[k], n as int);
            lemma_named_first(events, now[k], m as int);
            if k < before.len() {
                assert(now[k] == before[k]);
            } else {
                assert(names_turn(e, now[k]));
                if named_first(events, now[k], m as int) < m {
                    let f = named_first(events, now[k], m as int);
                    assert(names_turn(events[f], now[k]));
                    assert(before.contains(now[k]));
                }
            }
        }
        assert forall|j: int, k: int| 0 <= j < k < now.len() implies named_first(
            events,
            #[trigger] now[j],
            n as int,
        ) < named_first(events, #[trigger] now[k], n as int) by {
            assert(now[j] == before[j]);
            if k < before.len() {
                assert(now[k] == before[k]);
            }
        }
    }
}

proof fn lemma_last_picked<A>(
    events: Seq<JsonView>,
    t: Seq<char>,
    pick: spec_fn(JsonView) -> Option<A>,
    n: nat,
    i: int,
)
    requires
        0 <= i < n <= events.len(),
        turns::active_turn(events, (i + 1) as nat) == Some(t),
        pick(events[i]) is Some,
        forall|j: int|
            i < j < n && turns::active_turn(events, (j + 1) as nat) == Some(t) ==> pick(
                #[trigger] events[j],
            ) is None,
    ensures
        turns::last_in_turn(events, t, pick, n) == pick(events[i]),
    decreases n,
{
    if i < n - 1 {
        let e = events[n - 1];
        assert(turns::active_turn(events, n) == Some(t) ==> pick(e) is None);
        lemma_last_picked(events, t, pick, (n - 1) as nat, i);
    }
}

proof fn lemma_first_picked<A>(
    events: Seq<JsonView>,
    t: Seq<char>,
    pick: spec_fn(JsonView) -> Option<A>,
    n: nat,
    i: int,
)
    requires
        0 <= i < n <= events.len(),
        turns::active_turn(events, (i + 1) as nat) == Some(t),
        pick(events[i]) is Some,
        forall|j: int|
            0 <= j < i && turns::active_turn(events, (j + 1) as nat) == Some(t) ==> pick(
                #[trigger] events[j],
            ) is None,
    ensures
        turns::first_in_turn(events, t, pick, n) == pick(events[i]),
    decreases n,
{
    if i < n - 1 {
        lemma_first_picked(events, t, pick, (n - 1) as nat, i);
    } else {
        lemma_none_picked(events, t, pick, (n - 1) as nat);
    }
}

proof fn lemma_none_picked<A>(
    events: Seq<JsonView>,
    t: Seq<char>,
    pick: spec_fn(JsonView) -> Option<A>,
    n: nat,
)
    requires
        n <= events.len(),
        forall|j: int|
            0 <= j < n && turns::active_turn(events, (j + 1) as nat) == Some(t) ==> pick(
                #[trigger] events[j],
            ) is None,
    ensures
        turns::first_in_turn(events, t, pick, n) is None,
        turns::last_in_turn(events, t, pick, n) is None,
    decreases n,
{
    if n > 0 {
        let e = events[n - 1];
        assert(turns::active_turn(events, n) == Some(t) ==> pick(e) is None);
        lemma_none_picked(events, t, pick, (n - 1) as nat);
    }
}

pub(crate) proof fn lemma_first_of_all<A>(
    events: Seq<JsonView>,
    pick: spec_fn(JsonView) -> Option<A>,
    n: nat,
    i: int,
)
    requires
        0 <= i < n <= events.len(),
        pick(events[i]) is Some,
        forall|j: int| 0 <= j < i ==> pick(#[trigger] events[j]) is None,
    ensures
        turns::first_of(events, pick, n) == pick(events[i]),
    decreases n,
{
    if i < n - 1 {
        lemma_first_of_all(events, pick, (n - 1) as nat, i);
    } else {
        lemma_none_of_all(events, pick, (n - 1) as nat);
    }
}

pub(crate) proof fn lemma_last_of_all<A>(
    events: Seq<JsonView>,
    pick: spec_fn(JsonView) -> Option<A>,
    n: nat,
    i: int,
)
    requires
        0 <= i < n <= events.len(),
        pick(events[i]) is Some,
        forall|j: int| i < j < n ==> pick(#[trigger] events[j]) is None,
    ensures
        turns::last_of(events, pick, n) == pick(events[i]),
    decreases n,
{
    if i < n - 1 {
        assert(pick(events[n - 1]) is None);
        lemma_last_of_all(events, pick, (n - 1) as nat, i);
    }
}

pub(crate) proof fn lemma_none_of_all<A>(
    events: Seq<JsonView>,
    pick: spec_fn(JsonView) -> Option<A>,
    n: nat,
)
    requires
        n <= events.len(),
        forall|j: int| 0 <= j < n ==> pick(#[trigger] events[j]) is None,
    ensures
        turns::first_of(events, pick, n) is None,
        turns::last_of(events, pick, n) is None,
    decreases n,
{
    if n > 0 {
        assert(pick(events[n - 1]) is None);
        lemma_none_of_all(events, pick, (n - 1) as nat);
    }
}

/// `v` holds these five counts: in an object by their names, in an array of five in their
/// order.
pub open spec fn counts_in(v: JsonView, u: TokenCountUsage) -> bool {
    ||| {
        &&& has_count(v, "input_tokens"@, u.input_tokens)
        &&& has_count(v, "cached_input_tokens"@, u.cached_input_tokens)
        &&& has_count(v, "output_tokens"@, u.output_tokens)
        &&& has_count(v, "reasoning_output_tokens"@, u.reasoning_output_tokens)
        &&& has_count(v, "total_tokens"@, u.total_tokens)
    }
    ||| v matches JsonView::Array(items) && {
        &&& items.len() == 5
        &&& is_count(items[0], u.input_tokens)
        &&& is_count(items[1], u.cached_input_tokens)
        &&& is_count(items[2], u.output_tokens)
        &&& is_count(items[3], u.reasoning_output_tokens)
        &&& is_count(items[4], u.total_tokens)
    }
}

/// Counts are read where all five are there, and only there.
pub proof fn lemma_counts_read(v: JsonView, u: TokenCountUsage)
    ensures
        session::usage_from(v) == Some(u) <==> counts_in(v, u),
{
}

/// The event reports these counts: it is a message of the type `token_count` with them in
/// `info.total_token_usage`. Whether it names a turn makes no difference.
pub open spec fn reports_counts(e: JsonView, u: TokenCountUsage) -> bool {
    exists|p: JsonView, info: JsonView, v: JsonView|
        {
            &&& #[trigger] carries(e, "event_msg"@, p)
            &&& says(p, "type"@, "token_count"@)
            &&& json::field(p, "info"@) == Some(info)
            &&& #[trigger] json::field(info, "total_token_usage"@) == Some(v)
            &&& #[trigger] counts_in(v, u)
        }
}

/// What an event reports of the counts is what is read from it.
pub proof fn lemma_reported_counts(e: JsonView, u: TokenCountUsage)
    ensures
        session::usage_in(e) == Some(u) <==> reports_counts(e, u),
{
    lemma_kinds_not_empty();
    if session::usage_in(e) == Some(u) {
        let p = json::field(e, "payload"@)->0;
        let info = json::field(p, "info"@)->0;
        let v = json::field(info, "total_token_usage"@)->0;
        lemma_counts_read(v, u);
        assert(carries(e, "event_msg"@, p));
        assert(counts_in(v, u));
    }
    if reports_counts(e, u) {
        let (p, info, v) = choose|p: JsonView, info: JsonView, v: JsonView|
            {
                &&& #[trigger] carries(e, "event_msg"@, p)
                &&& says(p, "type"@, "token_count"@)
                &&& json::field(p, "info"@) == Some(info)
                &&& #[trigger] json::field(info, "total_token_usage"@) == Some(v)
                &&& #[trigger] counts_in(v, u)
            };
        lemma_counts_read(v, u);
    }
}

/// The token counts that the command line shows for reported ones.
pub open spec fn shows(t: TokenStats, u: TokenCountUsage) -> bool {
    &&& t.input == if u.input_tokens > u.cached_input_tokens {
        u.input_tokens - u.cached_input_tokens
    } else {
        0
    }
    &&& t.cache_read == Some(u.cached_input_tokens)
    &&& t.cache_write is None
    &&& t.output == u.output_tokens
    &&& t.reasoning == Some(u.reasoning_output_tokens)
    &&& t.total == t.input + t.output
}

/// The entry of a turn shows the counts that were reported last in the turn, by whatever
/// event of the turn.
pub proof fn lemma_last_report_shown(
    events: Seq<JsonView>,
    source: SourceView,
    k: int,
    i: int,
    u: TokenCountUsage,
)
    requires
        session::totals_fit(events),
        0 <= k < turns::turns_seen(events, events.len()).len(),
        0 <= i < events.len(),
        in_turn(events, i, turn_at(events, k)),
        reports_counts(events[i], u),
        forall|j: int, w: TokenCountUsage|
            i < j < events.len() && in_turn(events, j, turn_at(events, k))
                ==> !#[trigger] reports_counts(events[j], w),
    ensures
        session::session_entries(events, source)[k].tokens matches Some(t) && shows(t, u),
{
    let t = turn_at(events, k);
    let n = events.len();
    let pick = |e: JsonView| session::usage_in(e);
    lemma_active_turn(events, i, t);
    lemma_reported_counts(events[i], u);
    assert forall|j: int| i < j < n && turns::active_turn(events, (j + 1) as nat) == Some(t) implies pick(
        #[trigger] events[j],
    ) is None by {
        lemma_active_turn(events, j, t);
        if session::usage_in(events[j]) is Some {
            lemma_reported_counts(events[j], session::usage_in(events[j])->0);
        }
    }
    lemma_last_picked(events, t, pick, n, i);
    assert(session::usage_after(events, (k + 1) as nat) == u);
    assert(session::uncached_total(session::usage_after(events, (k + 1) as nat)) <= u64::MAX);
}

/// The entry of a turn in which no counts were reported shows those of the turn before it;
/// before all reports there are none.
pub proof fn lemma_unreported_turn_keeps_counts(events: Seq<JsonView>, source: SourceView, k: int)
    requires
        0 <= k < turns::turns_seen(events, events.len()).len(),
        forall|j: int, w: TokenCountUsage|
            0 <= j < events.len() && in_turn(events, j, turn_at(events, k))
                ==> !#[trigger] reports_counts(events[j], w),
    ensures
        k > 0 ==> session::session_entries(events, source)[k].tokens == session::session_entries(
            events,
            source,
        )[k - 1].tokens,
        k == 0 ==> session::session_entries(events, source)[k].tokens == Some(
            TokenStats {
                input: 0,
                output: 0,
                cache_read: Some(0),
                cache_write: None,
                reasoning: Some(0),
                total: 0,
            },
        ),
{
    let t = turn_at(events, k);
    let n = events.len();
    let pick = |e: JsonView| session::usage_in(e);
    assert forall|j: int| 0 <= j < n && turns::active_turn(events, (j + 1) as nat) == Some(t) implies pick(
        #[trigger] events[j],
    ) is None by {
        lemma_active_turn(events, j, t);
        if session::usage_in(events[j]) is Some {
            lemma_reported_counts(events[j], session::usage_in(events[j])->0);
        }
    }
    lemma_none_picked(events, t, pick, n);
    assert(session::usage_after(events, (k + 1) as nat) == session::usage_after(events, k as nat));
    if k == 0 {
        assert(session::usage_after(events, 0) == session::no_usage());
    }
}

/// `a` less `b`, or nothing where `b` is more.
pub open spec fn rise(a: u64, b: u64) -> int {
    if a > b {
        a - b
    } else {
        0
    }
}

/// The increment of a count of a turn is by how much it rose over the turn before it; the
/// first turn rises from zero.
pub proof fn lemma_increments_are_rises(events: Seq<JsonView>, source: SourceView, k: int)
    requires
        0 <= k < session::session_entries(events, source).len(),
    ensures
        ({
            let now = session::session_entries(events, source)[k].tokens->0;
            let delta = session::session_entries(events, source)[k].delta_tokens->0;
            let before = if k > 0 {
                session::session_entries(events, source)[k - 1].tokens->0
            } else {
                TokenStats {
                    input: 0,
                    output: 0,
                    cache_read: Some(0),
                    cache_write: None,
                    reasoning: Some(0),
                    total: 0,
                }
            };
            &&& session::session_entries(events, source)[k].tokens is Some
            &&& session::session_entries(events, source)[k].delta_tokens is Some
            &&& delta.input == rise(now.input, before.input)
            &&& delta.output == rise(now.output, before.output)
            &&& delta.total == rise(now.total, before.total)
            &&& delta.cache_read matches Some(c) && c == rise(
                now.cache_read->0,
                before.cache_read->0,
            )
            &&& delta.reasoning matches Some(r) && r == rise(now.reasoning->0, before.reasoning->0)
            &&& delta.cache_write is None
        }),
{
    if k == 0 {
        assert(session::usage_after(events, 0) == session::no_usage());
    }
}

/// The event reports this duration: it is a message of the type `task_complete` or
/// `turn_aborted` with a whole number in `duration_ms`.
pub open spec fn reports_duration(e: JsonView, d: u64) -> bool {
    exists|p: JsonView|
        {
            &&& #[trigger] carries(e, "event_msg"@, p)
            &&& says(p, "type"@, "task_complete"@) || says(p, "type"@, "turn_aborted"@)
            &&& has_count(p, "duration_ms"@, d)
        }
}

proof fn lemma_reported_duration(e: JsonView, d: u64)
    ensures
        session::duration_in(e) == Some(d) <==> reports_duration(e, d),
{
    lemma_kinds_not_empty();
    if session::duration_in(e) == Some(d) {
        let p = json::field(e, "payload"@)->0;
        assert(carries(e, "event_msg"@, p));
    }
}

/// The entry of a turn has the duration that was reported last in the turn.
pub proof fn lemma_last_duration_shown(
    events: Seq<JsonView>,
    source: SourceView,
    k: int,
    i: int,
    d: u64,
)
    requires
        0 <= k < turns::turns_seen(events, events.len()).len(),
        0 <= i < events.len(),
        in_turn(events, i, turn_at(events, k)),
        reports_duration(events[i], d),
        forall|j: int, w: u64|
            i < j < events.len() && in_turn(events, j, turn_at(events, k))
                ==> !#[trigger] reports_duration(events[j], w),
    ensures
        session::session_entries(events, source)[k].cost == Some(
            CostStats {
                total_api_duration_ms: Some(crate::whole::nearest_double(d as int) as i128),
                total_duration_ms: None,
                total_premium_requests: Some(0),
            },
        ),
{
    let t = turn_at(events, k);
    let n = events.len();
    let pick = |e: JsonView| session::duration_in(e);
    lemma_active_turn(events, i, t);
    lemma_reported_duration(events[i], d);
    assert forall|j: int| i < j < n && turns::active_turn(events, (j + 1) as nat) == Some(t) implies pick(
        #[trigger] events[j],
    ) is None by {
        lemma_active_turn(events, j, t);
        if session::duration_in(events[j]) is Some {
            lemma_reported_duration(events[j], session::duration_in(events[j])->0);
        }
    }
    lemma_last_picked(events, t, pick, n, i);
}

/// The entry of a turn of which no duration was reported has none.
pub proof fn lemma_no_duration(events: Seq<JsonView>, source: SourceView, k: int)
    requires
        0 <= k < turns::turns_seen(events, events.len()).len(),
        forall|j: int, w: u64|
            0 <= j < events.len() && in_turn(events, j, turn_at(events, k))
                ==> !#[trigger] reports_duration(events[j], w),
    ensures
        session::session_entries(events, source)[k].cost is None,
{
    let t = turn_at(events, k);
    let n = events.len();
    let pick = |e: JsonView| session::duration_in(e);
    assert forall|j: int| 0 <= j < n && turns::active_turn(events, (j + 1) as nat) == Some(t) implies pick(
        #[trigger] events[j],
    ) is None by {
        lemma_active_turn(events, j, t);
        if session::duration_in(events[j]) is Some {
            lemma_reported_duration(events[j], session::duration_in(events[j])->0);
        }
    }
    lemma_none_picked(events, t, pick, n);
}

/// The event names this model: it is the context of a turn, or a response of the assistant.
pub open spec fn names_model(e: JsonView, m: Seq<char>) -> bool {
    exists|p: JsonView|
        {
            &&& #[trigger] carries(e, "turn_context"@, p) || (carries(e, "response_item"@, p) && says(
                p,
                "role"@,
                "assistant"@,
            ))
            &&& says(p, "model"@, m)
        }
}

/// The model that is read from an event is the one that it names.
pub proof fn lemma_model_named(e: JsonView, m: Seq<char>)
    ensures
        session::model_in(e) == Some(m) <==> names_model(e, m),
{
    turns::lemma_kinds_differ();
    lemma_kinds_not_empty();
    if session::model_in(e) == Some(m) {
        let p = json::field(e, "payload"@)->0;
        assert(carries(e, turns::kind_of(e), p));
        assert(carries(e, "turn_context"@, p) || carries(e, "response_item"@, p));
    }
}

/// The entry of a turn has the model that the turn names first.
pub proof fn lemma_first_model_shown(
    events: Seq<JsonView>,
    source: SourceView,
    k: int,
    i: int,
    m: Seq<char>,
)
    requires
        0 <= k < turns::turns_seen(events, events.len()).len(),
        0 <= i < events.len(),
        in_turn(events, i, turn_at(events, k)),
        names_model(events[i], m),
        forall|j: int, w: Seq<char>|
            0 <= j < i && in_turn(events, j, turn_at(events, k)) ==> !#[trigger] names_model(
                events[j],
                w,
            ),
    ensures
        session::session_entries(events, source)[k].model == Some(m),
        session::session_entries(events, source)[k].model_id == Some(m),
{
    let t = turn_at(events, k);
    let n = events.len();
    let pick = |e: JsonView| session::model_in(e);
    lemma_active_turn(events, i, t);
    lemma_model_named(events[i], m);
    assert forall|j: int| 0 <= j < i && turns::active_turn(events, (j + 1) as nat) == Some(t) implies pick(
        #[trigger] events[j],
    ) is None by {
        lemma_active_turn(events, j, t);
        if session::model_in(events[j]) is Some {
            lemma_model_named(events[j], session::model_in(events[j])->0);
        }
    }
    lemma_first_picked(events, t, pick, n, i);
}

/// The entry of a turn that names no model has none.
pub proof fn lemma_no_model(events: Seq<JsonView>, source: SourceView, k: int)
    requires
        0 <= k < turns::turns_seen(events, events.len()).len(),
        forall|j: int, w: Seq<char>|
            0 <= j < events.len() && in_turn(events, j, turn_at(events, k))
                ==> !#[trigger] names_model(events[j], w),
    ensures
        session::session_entries(events, source)[k].model is None,
        session::session_entries(events, source)[k].model_id is None,
{
    let t = turn_at(events, k);
    let n = events.len();
    let pick = |e: JsonView| session::model_in(e);
    assert forall|j: int| 0 <= j < n && turns::active_turn(events, (j + 1) as nat) == Some(t) implies pick(
        #[trigger] events[j],
    ) is None by {
        lemma_active_turn(events, j, t);
        if session::model_in(events[j]) is Some {
            lemma_model_named(events[j], session::model_in(events[j])->0);
        }
    }
    lemma_none_picked(events, t, pick, n);
}

/// The payload of an event of this kind says `s` under `name`.
pub open spec fn payload_says(
    e: JsonView,
    kind: Seq<char>,
    name: Seq<char>,
    s: Seq<char>,
) -> bool {
    exists|p: JsonView| #[trigger] carries(e, kind, p) && says(p, name, s)
}

pub(crate) proof fn lemma_payload_says(
    e: JsonView,
    kind: Seq<char>,
    name: Seq<char>,
    s: Seq<char>,
)
    requires
        kind.len() > 0,
    ensures
        turns::payload_text(e, kind, name) == Some(s) <==> payload_says(e, kind, name, s),
{
    if turns::payload_text(e, kind, name) == Some(s) {
        let p = json::field(e, "payload"@)->0;
        assert(carries(e, kind, p));
    }
}

/// The entry of a turn has the working directory that the context of the turn names first.
pub proof fn lemma_turn_directory_shown(
    events: Seq<JsonView>,
    source: SourceView,
    k: int,
    i: int,
    d: Seq<char>,
)
    requires
        0 <= k < turns::turns_seen(events, events.len()).len(),
        0 <= i < events.len(),
        in_turn(events, i, turn_at(events, k)),
        payload_says(events[i], "turn_context"@, "cwd"@, d),
        forall|j: int, w: Seq<char>|
            0 <= j < i && in_turn(events, j, turn_at(events, k)) ==> !#[trigger] payload_says(
                events[j],
                "turn_context"@,
                "cwd"@,
                w,
            ),
    ensures
        session::session_entries(events, source)[k].cwd == Some(d),
{
    let t = turn_at(events, k);
    let n = events.len();
    let pick = |e: JsonView| turns::payload_text(e, "turn_context"@, "cwd"@);
    lemma_kinds_not_empty();
    lemma_active_turn(events, i, t);
    lemma_payload_says(events[i], "turn_context"@, "cwd"@, d);
    assert forall|j: int| 0 <= j < i && turns::active_turn(events, (j + 1) as nat) == Some(t) implies pick(
        #[trigger] events[j],
    ) is None by {
        lemma_active_turn(events, j, t);
        if pick(events[j]) is Some {
            lemma_payload_says(events[j], "turn_context"@, "cwd"@, pick(events[j])->0);
        }
    }
    lemma_first_picked(events, t, pick, n, i);
}

/// The entry of a turn whose context names no working directory has that of the session: the
/// one that the first record of the session to name one names.
pub proof fn lemma_session_directory_shown(
    events: Seq<JsonView>,
    source: SourceView,
    k: int,
    i: int,
    d: Seq<char>,
)
    requires
        0 <= k < turns::turns_seen(events, events.len()).len(),
        forall|j: int, w: Seq<char>|
            0 <= j < events.len() && in_turn(events, j, turn_at(events, k))
                ==> !#[trigger] payload_says(events[j], "turn_context"@, "cwd"@, w),
        0 <= i < events.len(),
        payload_says(events[i], "session_meta"@, "cwd"@, d),
        forall|j: int, w: Seq<char>|
            0 <= j < i ==> !#[trigger] payload_says(events[j], "session_meta"@, "cwd"@, w),
    ensures
        session::session_entries(events, source)[k].cwd == Some(d),
{
    let t = turn_at(events, k);
    let n = events.len();
    let pick = |e: JsonView| turns::payload_text(e, "turn_context"@, "cwd"@);
    lemma_kinds_not_empty();
    assert forall|j: int| 0 <= j < n && turns::active_turn(events, (j + 1) as nat) == Some(t) implies pick(
        #[trigger] events[j],
    ) is None by {
        lemma_active_turn(events, j, t);
        if pick(events[j]) is Some {
            lemma_payload_says(events[j], "turn_context"@, "cwd"@, pick(events[j])->0);
        }
    }
    lemma_none_picked(events, t, pick, n);
    lemma_meta_first(events, "cwd"@, i, d);
}

proof fn lemma_meta_first(events: Seq<JsonView>, name: Seq<char>, i: int, s: Seq<char>)
    requires
        0 <= i < events.len(),
        payload_says(events[i], "session_meta"@, name, s),
        forall|j: int, w: Seq<char>|
            0 <= j < i ==> !#[trigger] payload_says(events[j], "session_meta"@, name, w),
    ensures
        turns::first_of(
            events,
            |e: JsonView| turns::payload_text(e, "session_meta"@, name),
            events.len(),
        ) == Some(s),
{
    let pick = |e: JsonView| turns::payload_text(e, "session_meta"@, name);
    lemma_kinds_not_empty();
    lemma_payload_says(events[i], "session_meta"@, name, s);
    assert forall|j: int| 0 <= j < i implies pick(#[trigger] events[j]) is None by {
        if pick(events[j]) is Some {
            lemma_payload_says(events[j], "session_meta"@, name, pick(events[j])->0);
        }
    }
    lemma_first_of_all(events, pick, events.len(), i);
}

/// Where neither the context of the turn nor the session names a working directory, the entry
/// has none.
pub proof fn lemma_no_directory(events: Seq<JsonView>, source: SourceView, k: int)
    requires
        0 <= k < turns::turns_seen(events, events.len()).len(),
        forall|j: int, w: Seq<char>|
            0 <= j < events.len() ==> !#[trigger] payload_says(
                events[j],
                "turn_context"@,
                "cwd"@,
                w,
            ),
        forall|j: int, w: Seq<char>|
            0 <= j < events.len() ==> !#[trigger] payload_says(
                events[j],
                "session_meta"@,
                "cwd"@,
                w,
            ),
    ensures
        session::session_entries(events, source)[k].cwd is None,
{
    let t = turn_at(events, k);
    let n = events.len();
    lemma_kinds_not_empty();
    let pick = |e: JsonView| turns::payload_text(e, "turn_context"@, "cwd"@);
    assert forall|j: int| 0 <= j < n && turns::active_turn(events, (j + 1) as nat) == Some(t) implies pick(
        #[trigger] events[j],
    ) is None by {
        if pick(events[j]) is Some {
            lemma_payload_says(events[j], "turn_context"@, "cwd"@, pick(events[j])->0);
        }
    }
    lemma_none_picked(events, t, pick, n);
    lemma_meta_none(events, "cwd"@);
}

proof fn lemma_meta_none(events: Seq<JsonView>, name: Seq<char>)
    requires
        forall|j: int, w: Seq<char>|
            0 <= j < events.len() ==> !#[trigger] payload_says(
                events[j],
                "session_meta"@,
                name,
                w,
            ),
    ensures
        turns::first_of(
            events,
            |e: JsonView| turns::payload_text(e, "session_meta"@, name),
            events.len(),
        ) is None,
{
    let pick = |e: JsonView| turns::payload_text(e, "session_meta"@, name);
    lemma_kinds_not_empty();
    assert forall|j: int| 0 <= j < events.len() implies pick(#[trigger] events[j]) is None by {
        if pick(events[j]) is Some {
            lemma_payload_says(events[j], "session_meta"@, name, pick(events[j])->0);
        }
    }
    lemma_none_of_all(events, pick, events.len());
}

/// Every entry has the version that the first record of the session to name one names.
pub proof fn lemma_version_shown(
    events: Seq<JsonView>,
    source: SourceView,
    k: int,
    i: int,
    v: Seq<char>,
)
    requires
        0 <= k < session::session_entries(events, source).len(),
        0 <= i < events.len(),
        payload_says(events[i], "session_meta"@, "cli_version"@, v),
        forall|j: int, w: Seq<char>|
            0 <= j < i ==> !#[trigger] payload_says(
                events[j],
                "session_meta"@,
                "cli_version"@,
                w,
            ),
    ensures
        session::session_entries(events, source)[k].version == Some(v),
{
    lemma_meta_first(events, "cli_version"@, i, v);
}

/// Where no record of the session names a version, no entry has one.
pub proof fn lemma_no_version(events: Seq<JsonView>, source: SourceView, k: int)
    requires
        0 <= k < session::session_entries(events, source).len(),
        forall|j: int, w: Seq<char>|
            0 <= j < events.len() ==> !#[trigger] payload_says(
                events[j],
                "session_meta"@,
                "cli_version"@,
                w,
            ),
    ensures
        session::session_entries(events, source)[k].version is None,
{
    lemma_meta_none(events, "cli_version"@);
}

/// The event names a parent: it is a record of a session whose `session_id` is not its `id`.
pub open spec fn names_parent(e: JsonView, s: Seq<char>) -> bool {
    exists|p: JsonView, own: Seq<char>|
        {
            &&& #[trigger] carries(e, "session_meta"@, p)
            &&& says(p, "session_id"@, s)
            &&& #[trigger] says(p, "id"@, own)
            &&& own != s
        }
}

proof fn lemma_parent_named(e: JsonView, s: Seq<char>)
    ensures
        session::parent_in(e) == Some(s) <==> names_parent(e, s),
{
    lemma_kinds_not_empty();
    if session::parent_in(e) == Some(s) {
        let p = json::field(e, "payload"@)->0;
        let own = json::text_field(p, "id"@)->0;
        assert(carries(e, "session_meta"@, p));
        assert(says(p, "id"@, own));
    }
}

/// Every entry has the parent that is named last; where none is named, it has none.
pub proof fn lemma_parent_shown(events: Seq<JsonView>, source: SourceView, k: int)
    requires
        0 <= k < session::session_entries(events, source).len(),
    ensures
        forall|i: int, s: Seq<char>|
            0 <= i < events.len() && #[trigger] names_parent(events[i], s) && (forall|
                j: int,
                w: Seq<char>,
            |
                i < j < events.len() ==> !#[trigger] names_parent(events[j], w))
                ==> session::session_entries(events, source)[k].parent_session_id == Some(s),
        (forall|j: int, w: Seq<char>|
            0 <= j < events.len() ==> !#[trigger] names_parent(events[j], w))
            ==> session::session_entries(events, source)[k].parent_session_id is None,
{
    let n = events.len();
    let pick = |e: JsonView| session::parent_in(e);
    assert forall|i: int, s: Seq<char>|
        0 <= i < events.len() && #[trigger] names_parent(events[i], s) && (forall|
            j: int,
            w: Seq<char>,
        |
            i < j < events.len() ==> !#[trigger] names_parent(events[j], w)) implies session::session_entries(
        events,
        source,
    )[k].parent_session_id == Some(s) by {
        lemma_parent_named(events[i], s);
        assert forall|j: int| i < j < n implies pick(#[trigger] events[j]) is None by {
            if pick(events[j]) is Some {
                lemma_parent_named(events[j], pick(events[j])->0);
            }
        }
        lemma_last_of_all(events, pick, n, i);
    }
    if forall|j: int, w: Seq<char>|
        0 <= j < events.len() ==> !#[trigger] names_parent(events[j], w) {
        assert forall|j: int| 0 <= j < n implies pick(#[trigger] events[j]) is None by {
            if pick(events[j]) is Some {
                lemma_parent_named(events[j], pick(events[j])->0);
            }
        }
        lemma_none_of_all(events, pick, n);
    }
}

/// The event says `s` of the agent: it is a record of a session with `s` under `name`, or,
/// where it has no text there, with `s` under `name` in `source.subagent.thread_spawn`.
pub open spec fn says_of_agent(e: JsonView, name: Seq<char>, s: Seq<char>) -> bool {
    ||| payload_says(e, "session_meta"@, name, s)
    ||| exists|p: JsonView, source: JsonView, subagent: JsonView, spawn: JsonView|
        {
            &&& #[trigger] carries(e, "session_meta"@, p)
            &&& !has_text(p, name)
            &&& json::field(p, "source"@) == Some(source)
            &&& #[trigger] json::field(source, "subagent"@) == Some(subagent)
            &&& #[trigger] json::field(subagent, "thread_spawn"@) == Some(spawn)
            &&& #[trigger] says(spawn, name, s)
        }
}

proof fn lemma_said_of_agent(e: JsonView, name: Seq<char>, s: Seq<char>)
    ensures
        session::agent_in(e, name) == Some(s) <==> says_of_agent(e, name, s),
{
    lemma_kinds_not_empty();
    lemma_payload_says(e, "session_meta"@, name, s);
    if session::agent_in(e, name) == Some(s) {
        let p = json::field(e, "payload"@)->0;
        assert(carries(e, "session_meta"@, p));
        if json::text_field(p, name) is None {
            let source = json::field(p, "source"@)->0;
            let subagent = json::field(source, "subagent"@)->0;
            let spawn = json::field(subagent, "thread_spawn"@)->0;
            assert(json::field(source, "subagent"@) == Some(subagent));
            assert(json::field(subagent, "thread_spawn"@) == Some(spawn));
            assert(says(spawn, name, s));
        }
    }
}

proof fn lemma_agent_shown(events: Seq<JsonView>, name: Seq<char>)
    ensures
        forall|i: int, s: Seq<char>|
            0 <= i < events.len() && #[trigger] says_of_agent(events[i], name, s) && (forall|
                j: int,
                w: Seq<char>,
            |
                0 <= j < i ==> !#[trigger] says_of_agent(events[j], name, w)) ==> session::agent(
                events,
                name,
                events.len(),
            ) == Some(s),
        (forall|j: int, w: Seq<char>|
            0 <= j < events.len() ==> !#[trigger] says_of_agent(events[j], name, w))
            ==> session::agent(events, name, events.len()) is None,
{
    let n = events.len();
    let pick = |e: JsonView| session::agent_in(e, name);
    assert forall|i: int, s: Seq<char>|
        0 <= i < events.len() && #[trigger] says_of_agent(events[i], name, s) && (forall|
            j: int,
            w: Seq<char>,
        |
            0 <= j < i ==> !#[trigger] says_of_agent(events[j], name, w)) implies session::agent(
        events,
        name,
        events.len(),
    ) == Some(s) by {
        lemma_said_of_agent(events[i], name, s);
        assert forall|j: int| 0 <= j < i implies pick(#[trigger] events[j]) is None by {
            if pick(events[j]) is Some {
                lemma_said_of_agent(events[j], name, pick(events[j])->0);
            }
        }
        lemma_first_of_all(events, pick, n, i);
    }
    if forall|j: int, w: Seq<char>|
        0 <= j < events.len() ==> !#[trigger] says_of_agent(events[j], name, w) {
        assert forall|j: int| 0 <= j < n implies pick(#[trigger] events[j]) is None by {
            if pick(events[j]) is Some {
                lemma_said_of_agent(events[j], name, pick(events[j])->0);
            }
        }
        lemma_none_of_all(events, pick, n);
    }
}

/// Every entry has the nickname of the agent that is told first; where none is told, it has
/// none.
pub proof fn lemma_nickname_shown(events: Seq<JsonView>, source: SourceView, k: int)
    requires
        0 <= k < session::session_entries(events, source).len(),
    ensures
        forall|i: int, s: Seq<char>|
            0 <= i < events.len() && #[trigger] says_of_agent(events[i], "agent_nickname"@, s) && (
            forall|j: int, w: Seq<char>|
                0 <= j < i ==> !#[trigger] says_of_agent(events[j], "agent_nickname"@, w))
                ==> session::session_entries(events, source)[k].agent_nickname == Some(s),
        (forall|j: int, w: Seq<char>|
            0 <= j < events.len() ==> !#[trigger] says_of_agent(events[j], "agent_nickname"@, w))
            ==> session::session_entries(events, source)[k].agent_nickname is None,
{
    lemma_agent_shown(events, "agent_nickname"@);
}

/// Every entry has the role of the agent that is told first; where none is told, it has none.
pub proof fn lemma_role_shown(events: Seq<JsonView>, source: SourceView, k: int)
    requires
        0 <= k < session::session_entries(events, source).len(),
    ensures
        forall|i: int, s: Seq<char>|
            0 <= i < events.len() && #[trigger] says_of_agent(events[i], "agent_role"@, s) && (
            forall|j: int, w: Seq<char>|
                0 <= j < i ==> !#[trigger] says_of_agent(events[j], "agent_role"@, w))
                ==> session::session_entries(events, source)[k].agent_role == Some(s),
        (forall|j: int, w: Seq<char>|
            0 <= j < events.len() ==> !#[trigger] says_of_agent(events[j], "agent_role"@, w))
            ==> session::session_entries(events, source)[k].agent_role is None,
{
    lemma_agent_shown(events, "agent_role"@);
}

/// The entry of a turn has the time of the event that names the turn first; it is empty where
/// that event has no time.
pub proof fn lemma_turn_begins(events: Seq<JsonView>, source: SourceView, k: int)
    requires
        0 <= k < turns::turns_seen(events, events.len()).len(),
    ensures
        ({
            let e = events[named_first(events, turn_at(events, k), events.len() as int)];
            let time = session::session_entries(events, source)[k].timestamp;
            &&& forall|s: Seq<char>| #[trigger] says(e, "timestamp"@, s) ==> time == s
            &&& !has_text(e, "timestamp"@) ==> time.len() == 0
        }),
{
    let n = events.len();
    let t = turn_at(events, k);
    let i = named_first(events, t, n as int);
    let pick = |e: JsonView| Some(turns::time_of(e));
    lemma_turns_of_session(events, source);
    lemma_named_first(events, t, n as int);
    assert(i < n);
    assert(names_turn(events[i], t));
    assert(in_turn(events, i, t));
    lemma_active_turn(events, i, t);
    assert forall|j: int| 0 <= j < i && turns::active_turn(events, (j + 1) as nat) == Some(t) implies pick(
        #[trigger] events[j],
    ) is None by {
        lemma_active_turn(events, j, t);
        let m = choose|m: int| 0 <= m <= j && #[trigger] names_turn(events[m], t);
        assert(!names_turn(events[m], t));
    }
    lemma_first_picked(events, t, pick, n, i);
}

/// Every entry has the file, the identifier and the name of its session, and the entries are
/// numbered in the order of their turns.
pub proof fn lemma_source_shown(events: Seq<JsonView>, source: SourceView, k: int)
    requires
        0 <= k < session::session_entries(events, source).len() <= u32::MAX,
    ensures
        session::session_entries(events, source)[k].session_id == source.session_id,
        session::session_entries(events, source)[k].session_name == Some(source.session_name),
        session::session_entries(events, source)[k].transcript_path == Some(source.filepath),
        session::session_entries(events, source)[k].turn_no == k + 1,
{
}

/// A line is an event if it is JSON; the events stand in the order of their lines.
pub proof fn lemma_line_read(lines: Seq<Seq<char>>, line: Seq<char>)
    ensures
        json::parsed(line) matches Some(e) ==> session::events_in(lines.push(line))
            == session::events_in(lines).push(e),
        json::parsed(line) is None ==> session::events_in(lines.push(line)) == session::events_in(
            lines,
        ),
        session::events_in(Seq::empty()) == Seq::<JsonView>::empty(),
{
    assert(lines.push(line).drop_last() =~= lines);
}

/// The total of a turn fits as long as what is reported fits: where every reported input and
/// output come to less than 2 to the 64th, all totals do.
pub proof fn lemma_totals_fit(events: Seq<JsonView>)
    requires
        forall|i: int, u: TokenCountUsage|
            0 <= i < events.len() && #[trigger] reports_counts(events[i], u) ==> u.input_tokens
                + u.output_tokens <= u64::MAX,
    ensures
        session::totals_fit(events),
{
    assert forall|k: nat| k <= turns::turns_seen(events, events.len()).len() implies session::uncached_total(
        #[trigger] session::usage_after(events, k),
    ) <= u64::MAX by {
        lemma_usage_fits(events, k);
    }
}

proof fn lemma_usage_fits(events: Seq<JsonView>, k: nat)
    requires
        forall|i: int, u: TokenCountUsage|
            0 <= i < events.len() && #[trigger] reports_counts(events[i], u) ==> u.input_tokens
                + u.output_tokens <= u64::MAX,
    ensures
        session::uncached_total(session::usage_after(events, k)) <= u64::MAX,
    decreases k,
{
    if k > 0 {
        lemma_usage_fits(events, (k - 1) as nat);
        lemma_picked_usage_fits(events, turn_at(events, k - 1), events.len());
    }
}

proof fn lemma_picked_usage_fits(events: Seq<JsonView>, t: Seq<char>, n: nat)
    requires
        n <= events.len(),
        forall|i: int, u: TokenCountUsage|
            0 <= i < events.len() && #[trigger] reports_counts(events[i], u) ==> u.input_tokens
                + u.output_tokens <= u64::MAX,
    ensures
        session::turn_usage(events, t, n) matches Some(u) ==> session::uncached_total(u)
            <= u64::MAX,
    decreases n,
{
    if n > 0 {
        lemma_picked_usage_fits(events, t, (n - 1) as nat);
        let e = events[n - 1];
        if session::usage_in(e) is Some {
            lemma_reported_counts(e, session::usage_in(e)->0);
        }
    }
}

/// The total of a turn does not fit where the counts reported last in it come to 2 to the 64th
/// or more, cached input left out.
pub proof fn lemma_totals_do_not_fit(
    events: Seq<JsonView>,
    k: int,
    i: int,
    u: TokenCountUsage,
)
    requires
        0 <= k < turns::turns_seen(events, events.len()).len(),
        0 <= i < events.len(),
        in_turn(events, i, turn_at(events, k)),
        reports_counts(events[i], u),
        forall|j: int, w: TokenCountUsage|
            i < j < events.len() && in_turn(events, j, turn_at(events, k))
                ==> !#[trigger] reports_counts(events[j], w),
        u.input_tokens - u.cached_input_tokens + u.output_tokens > u64::MAX,
    ensures
        !session::totals_fit(events),
{
    let source = SourceView {
        filepath: Seq::empty(),
        session_id: Seq::empty(),
        session_name: Seq::empty(),
    };
    if session::totals_fit(events) {
        lemma_last_report_shown(events, source, k, i, u);
    }
}

} // verus!
