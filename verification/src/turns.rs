//! Events of a session and the turns that they belong to.

use crate::json;
use crate::json::{Json, JsonView};
use crate::text;
use crate::text::text_is;
use vstd::prelude::*;

verus! {

/// What a sequence of JSON values stands for.
pub open spec fn trees(s: Seq<Json>) -> Seq<JsonView> {
    s.map_values(|v: Json| v@)
}

/// The kind of an event.
pub open spec fn kind_of(e: JsonView) -> Seq<char> {
    json::text_field_or_empty(e, "type"@)
}

/// The time of an event.
pub open spec fn time_of(e: JsonView) -> Seq<char> {
    json::text_field_or_empty(e, "timestamp"@)
}

/// The payload of an event, where the event is of this kind.
pub open spec fn payload_of_kind(e: JsonView, kind: Seq<char>) -> Option<JsonView> {
    if kind_of(e) == kind {
        json::field(e, "payload"@)
    } else {
        None
    }
}

/// The text of a field of the payload, where the event is of this kind.
pub open spec fn payload_text(e: JsonView, kind: Seq<char>, name: Seq<char>) -> Option<Seq<char>> {
    match payload_of_kind(e, kind) {
        Some(p) => json::text_field(p, name),
        None => None,
    }
}

/// The turn that an event names.
pub open spec fn turn_named(e: JsonView) -> Option<Seq<char>> {
    let kind = kind_of(e);
    if kind == "turn_context"@ || kind == "event_msg"@ {
        payload_text(e, kind, "turn_id"@)
    } else if kind == "response_item"@ {
        match json::field(e, "metadata"@) {
            Some(m) => json::text_field(m, "turn_id"@),
            None => None,
        }
    } else {
        None
    }
}

/// The turn that is active after `n` events: the one named last.
pub open spec fn active_turn(events: Seq<JsonView>, n: nat) -> Option<Seq<char>>
    decreases n,
{
    if n == 0 {
        None
    } else if turn_named(events[n - 1]) is Some {
        turn_named(events[n - 1])
    } else {
        active_turn(events, (n - 1) as nat)
    }
}

/// The turns named in the first `n` events, each once, in the order of their first naming.
pub open spec fn turns_seen(events: Seq<JsonView>, n: nat) -> Seq<Seq<char>>
    decreases n,
{
    if n == 0 {
        Seq::empty()
    } else {
        let before = turns_seen(events, (n - 1) as nat);
        match turn_named(events[n - 1]) {
            Some(t) => if before.contains(t) {
                before
            } else {
                before.push(t)
            },
            None => before,
        }
    }
}

/// The first value picked from the events of turn `t`, among the first `n` events.
pub open spec fn first_in_turn<A>(
    events: Seq<JsonView>,
    t: Seq<char>,
    pick: spec_fn(JsonView) -> Option<A>,
    n: nat,
) -> Option<A>
    decreases n,
{
    if n == 0 {
        None
    } else {
        let before = first_in_turn(events, t, pick, (n - 1) as nat);
        if before is None && active_turn(events, n) == Some(t) {
            pick(events[n - 1])
        } else {
            before
        }
    }
}

/// The last value picked from the events of turn `t`, among the first `n` events.
pub open spec fn last_in_turn<A>(
    events: Seq<JsonView>,
    t: Seq<char>,
    pick: spec_fn(JsonView) -> Option<A>,
    n: nat,
) -> Option<A>
    decreases n,
{
    if n == 0 {
        None
    } else if active_turn(events, n) == Some(t) && pick(events[n - 1]) is Some {
        pick(events[n - 1])
    } else {
        last_in_turn(events, t, pick, (n - 1) as nat)
    }
}

/// The first value picked from the first `n` events.
pub open spec fn first_of<A>(
    events: Seq<JsonView>,
    pick: spec_fn(JsonView) -> Option<A>,
    n: nat,
) -> Option<A>
    decreases n,
{
    if n == 0 {
        None
    } else {
        let before = first_of(events, pick, (n - 1) as nat);
        if before is None {
            pick(events[n - 1])
        } else {
            before
        }
    }
}

/// The last value picked from the first `n` events.
pub open spec fn last_of<A>(
    events: Seq<JsonView>,
    pick: spec_fn(JsonView) -> Option<A>,
    n: nat,
) -> Option<A>
    decreases n,
{
    if n == 0 {
        None
    } else if pick(events[n - 1]) is Some {
        pick(events[n - 1])
    } else {
        last_of(events, pick, (n - 1) as nat)
    }
}

/// The active turn is among the turns seen.
pub proof fn lemma_active_turn_seen(events: Seq<JsonView>, n: nat)
    ensures
        active_turn(events, n) matches Some(t) ==> turns_seen(events, n).contains(t),
    decreases n,
{
    if n > 0 {
        lemma_active_turn_seen(events, (n - 1) as nat);
        let before = turns_seen(events, (n - 1) as nat);
        match turn_named(events[n - 1]) {
            Some(t) => {
                if !before.contains(t) {
                    assert(before.push(t).last() == t);
                }
            },
            None => {},
        }
    }
}

/// No turn is seen twice, and a turn once seen stays at its place.
pub proof fn lemma_turns_seen_distinct(events: Seq<JsonView>, n: nat)
    ensures
        turns_seen(events, n).no_duplicates(),
        turns_seen(events, n).len() <= n,
        n > 0 ==> turns_seen(events, (n - 1) as nat).is_prefix_of(turns_seen(events, n)),
    decreases n,
{
    if n > 0 {
        lemma_turns_seen_distinct(events, (n - 1) as nat);
    }
}

/// Nothing is picked from the events of a turn that was not seen.
pub(crate) proof fn lemma_unseen_turn<A>(
    events: Seq<JsonView>,
    t: Seq<char>,
    pick: spec_fn(JsonView) -> Option<A>,
    n: nat,
)
    requires
        !turns_seen(events, n).contains(t),
    ensures
        first_in_turn(events, t, pick, n) is None,
        last_in_turn(events, t, pick, n) is None,
    decreases n,
{
    if n > 0 {
        lemma_active_turn_seen(events, n);
        let before = turns_seen(events, (n - 1) as nat);
        let now = turns_seen(events, n);
        assert(!before.contains(t)) by {
            if before.contains(t) {
                let i = choose|i: int| 0 <= i < before.len() && before[i] == t;
                assert(now[i] == t);
            }
        }
        lemma_unseen_turn(events, t, pick, (n - 1) as nat);
    }
}

pub(crate) proof fn lemma_kinds_differ()
    ensures
        "session_meta"@ != "turn_context"@,
        "session_meta"@ != "event_msg"@,
        "session_meta"@ != "response_item"@,
        "turn_context"@ != "event_msg"@,
        "turn_context"@ != "response_item"@,
        "event_msg"@ != "response_item"@,
{
    reveal_strlit("session_meta");
    reveal_strlit("turn_context");
    reveal_strlit("event_msg");
    reveal_strlit("response_item");
    assert("session_meta"@[0] == 's');
    assert("turn_context"@[0] == 't');
    assert("event_msg"@[0] == 'e');
    assert("response_item"@[0] == 'r');
}

/// The turn that an event names.
pub(crate) fn named_turn(event: &Json, kind: &str) -> (r: Option<String>)
    requires
        kind@ == kind_of(event@),
    ensures
        json::optional_text(r) == turn_named(event@),
{
    if text_is(kind, "turn_context") || text_is(kind, "event_msg") {
        match event.get("payload") {
            Some(p) => p.get_text("turn_id"),
            None => None,
        }
    } else if text_is(kind, "response_item") {
        match event.get("metadata") {
            Some(m) => m.get_text("turn_id"),
            None => None,
        }
    } else {
        None
    }
}

/// The place of `wanted` among `turns`.
pub(crate) fn place_of(turns: &Vec<String>, wanted: &String) -> (r: Option<usize>)
    ensures
        r matches Some(i) ==> i < turns@.len() && turns@[i as int]@ == wanted@ && forall|j: int|
            0 <= j < i ==> (#[trigger] turns@[j])@ != wanted@,
        r is None ==> forall|j: int| 0 <= j < turns@.len() ==> (#[trigger] turns@[j])@ != wanted@,
{
    let mut i: usize = 0;
    while i < turns.len()
        invariant
            i <= turns@.len(),
            forall|j: int| 0 <= j < i ==> (#[trigger] turns@[j])@ != wanted@,
        decreases turns@.len() - i,
    {
        if turns[i] == *wanted {
            return Some(i);
        }
        i += 1;
    }
    None
}

/// The number of the active turn after `n` events; one before any turn was named.
pub open spec fn turn_number(events: Seq<JsonView>, n: nat) -> u32 {
    match active_turn(events, n) {
        Some(t) => (turns_seen(events, n).index_of(t) + 1) as u32,
        None => 1,
    }
}

/// The turns seen so far and the active one.
pub(crate) struct TurnTracker {
    pub(crate) ids: Vec<String>,
    pub(crate) active: Option<usize>,
}

impl TurnTracker {
    /// The state after the first `n` events.
    pub(crate) closed spec fn tracks(self, events: Seq<JsonView>, n: nat) -> bool {
        &&& text::texts(self.ids@) == turns_seen(events, n)
        &&& match self.active {
            Some(k) => k < self.ids@.len() && active_turn(events, n) == Some(self.ids@[k as int]@),
            None => active_turn(events, n) is None,
        }
    }

    pub(crate) fn new() -> (r: TurnTracker)
        ensures
            forall|events: Seq<JsonView>| r.tracks(events, 0),
    {
        let r = TurnTracker { ids: Vec::new(), active: None };
        assert forall|events: Seq<JsonView>| r.tracks(events, 0) by {
            assert(text::texts(r.ids@) =~= turns_seen(events, 0));
        }
        r
    }

    /// Takes note of the turn that the next event names.
    pub(crate) fn note(
        &mut self,
        event: &Json,
        kind: &str,
        Ghost(events): Ghost<Seq<JsonView>>,
        Ghost(n): Ghost<nat>,
    )
        requires
            n < events.len(),
            event@ == events[n as int],
            kind@ == kind_of(event@),
            old(self).tracks(events, n),
        ensures
            final(self).tracks(events, n + 1),
    {
        let ghost seen = turns_seen(events, n);
        proof {
            assert forall|k: int| 0 <= k < self.ids@.len() implies #[trigger] self.ids@[k]@ == seen[k] by {
                assert(text::texts(self.ids@)[k] == self.ids@[k]@);
            }
        }
        if let Some(id) = named_turn(event, kind) {
            match place_of(&self.ids, &id) {
                Some(k) => {
                    assert(seen.contains(id@)) by {
                        assert(seen[k as int] == id@);
                    }
                    self.active = Some(k);
                },
                None => {
                    assert(!seen.contains(id@));
                    self.active = Some(self.ids.len());
                    self.ids.push(id);
                    assert(text::texts(self.ids@) =~= seen.push(id@));
                },
            }
        }
    }

    /// The number of the active turn.
    pub(crate) fn number(&self, Ghost(events): Ghost<Seq<JsonView>>, Ghost(n): Ghost<nat>) -> (r: u32)
        requires
            self.tracks(events, n),
        ensures
            r == turn_number(events, n),
    {
        match self.active {
            Some(k) => {
                let ghost seen = turns_seen(events, n);
                proof {
                    lemma_turns_seen_distinct(events, n);
                    assert(text::texts(self.ids@)[k as int] == self.ids@[k as int]@);
                    assert(seen.contains(seen[k as int]));
                    assert(seen.index_of(seen[k as int]) == k);
                }
                assert(k < self.ids.len());
                (k + 1) as u32
            },
            None => 1,
        }
    }
}

/// An event that names no turn changes neither the active turn nor the turns seen.
pub(crate) proof fn lemma_unnamed_skipped(
    before: Seq<JsonView>,
    e: JsonView,
    after: Seq<JsonView>,
    n: nat,
)
    requires
        turn_named(e) is None,
        n <= before.len() + after.len(),
    ensures
        n <= before.len() ==> active_turn(before.push(e) + after, n) == active_turn(
            before + after,
            n,
        ),
        n <= before.len() ==> turns_seen(before.push(e) + after, n) == turns_seen(
            before + after,
            n,
        ),
        n >= before.len() ==> active_turn(before.push(e) + after, n + 1) == active_turn(
            before + after,
            n,
        ),
        n >= before.len() ==> turns_seen(before.push(e) + after, n + 1) == turns_seen(
            before + after,
            n,
        ),
    decreases n,
{
    let all = before.push(e) + after;
    let rest = before + after;
    if n > 0 {
        lemma_unnamed_skipped(before, e, after, (n - 1) as nat);
        if n <= before.len() {
            assert(all[n - 1] == rest[n - 1]);
        }
        if n > before.len() {
            assert(all[n as int] == rest[n - 1]);
        }
    }
    if n == before.len() {
        assert(all[n as int] == e);
    }
}

/// An event from which nothing is picked changes nothing that is picked from all events.
pub(crate) proof fn lemma_of_skipped<A>(
    before: Seq<JsonView>,
    e: JsonView,
    after: Seq<JsonView>,
    pick: spec_fn(JsonView) -> Option<A>,
    n: nat,
)
    requires
        pick(e) is None,
        n <= before.len() + after.len(),
    ensures
        n <= before.len() ==> first_of(before.push(e) + after, pick, n) == first_of(
            before + after,
            pick,
            n,
        ),
        n <= before.len() ==> last_of(before.push(e) + after, pick, n) == last_of(
            before + after,
            pick,
            n,
        ),
        n >= before.len() ==> first_of(before.push(e) + after, pick, n + 1) == first_of(
            before + after,
            pick,
            n,
        ),
        n >= before.len() ==> last_of(before.push(e) + after, pick, n + 1) == last_of(
            before + after,
            pick,
            n,
        ),
    decreases n,
{
    let all = before.push(e) + after;
    let rest = before + after;
    if n > 0 {
        lemma_of_skipped(before, e, after, pick, (n - 1) as nat);
        if n <= before.len() {
            assert(all[n - 1] == rest[n - 1]);
        }
        if n > before.len() {
            assert(all[n as int] == rest[n - 1]);
        }
    }
    if n == before.len() {
        assert(all[n as int] == e);
    }
}

/// An event that names no turn and from which nothing is picked changes nothing that is
/// picked from the events of a turn.
pub(crate) proof fn lemma_in_turn_skipped<A>(
    before: Seq<JsonView>,
    e: JsonView,
    after: Seq<JsonView>,
    t: Seq<char>,
    pick: spec_fn(JsonView) -> Option<A>,
    n: nat,
)
    requires
        turn_named(e) is None,
        pick(e) is None,
        n <= before.len() + after.len(),
    ensures
        n <= before.len() ==> first_in_turn(before.push(e) + after, t, pick, n) == first_in_turn(
            before + after,
            t,
            pick,
            n,
        ),
        n <= before.len() ==> last_in_turn(before.push(e) + after, t, pick, n) == last_in_turn(
            before + after,
            t,
            pick,
            n,
        ),
        n >= before.len() ==> first_in_turn(before.push(e) + after, t, pick, n + 1)
            == first_in_turn(before + after, t, pick, n),
        n >= before.len() ==> last_in_turn(before.push(e) + after, t, pick, n + 1)
            == last_in_turn(before + after, t, pick, n),
    decreases n,
{
    let all = before.push(e) + after;
    let rest = before + after;
    lemma_unnamed_skipped(before, e, after, n);
    if n > 0 {
        lemma_in_turn_skipped(before, e, after, t, pick, (n - 1) as nat);
        if n <= before.len() {
            assert(all[n - 1] == rest[n - 1]);
        }
        if n > before.len() {
            assert(all[n as int] == rest[n - 1]);
        }
    }
    if n == before.len() {
        assert(all[n as int] == e);
    }
}

proof fn lemma_time_known(events: Seq<JsonView>, t: Seq<char>, n: nat)
    ensures
        active_turn(events, n) == Some(t) ==> first_in_turn(
            events,
            t,
            |e: JsonView| Some(time_of(e)),
            n,
        ) is Some,
    decreases n,
{
    if n > 0 {
        lemma_time_known(events, t, (n - 1) as nat);
    }
}

/// An event that names no turn is not the first of a turn.
pub(crate) proof fn lemma_time_skipped(
    before: Seq<JsonView>,
    e: JsonView,
    after: Seq<JsonView>,
    t: Seq<char>,
    n: nat,
)
    requires
        turn_named(e) is None,
        n <= before.len() + after.len(),
    ensures
        ({
            let time = |e: JsonView| Some(time_of(e));
            let all = before.push(e) + after;
            let rest = before + after;
            &&& n <= before.len() ==> first_in_turn(all, t, time, n) == first_in_turn(
                rest,
                t,
                time,
                n,
            )
            &&& n >= before.len() ==> first_in_turn(all, t, time, n + 1) == first_in_turn(
                rest,
                t,
                time,
                n,
            )
        }),
    decreases n,
{
    let all = before.push(e) + after;
    let rest = before + after;
    lemma_unnamed_skipped(before, e, after, n);
    if n > 0 {
        lemma_time_skipped(before, e, after, t, (n - 1) as nat);
        if n <= before.len() {
            assert(all[n - 1] == rest[n - 1]);
        }
        if n > before.len() {
            assert(all[n as int] == rest[n - 1]);
        }
    }
    if n == before.len() {
        assert(all[n as int] == e);
        lemma_time_known(all, t, n);
    }
}

} // verus!
