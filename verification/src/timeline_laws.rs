//! What holds of every timeline.

use crate::entry;
use crate::entry::{Count, TokenStats};
use crate::json;
use crate::json::JsonView;
use crate::timeline;
use crate::timeline::ItemView;
use crate::turns;
use vstd::prelude::*;

verus! {

/// The items of a timeline stand in the order of their events, and each of them comes from
/// an event that gives an item.
pub proof fn lemma_timeline_in_order(events: Seq<JsonView>, n: nat)
    ensures
        forall|q: int|
            0 <= q < timeline::item_places(events, n).len() ==> 0
                <= #[trigger] timeline::item_places(events, n)[q] < n && timeline::gives_item(
                events[timeline::item_places(events, n)[q]],
            ),
        forall|q: int, r: int|
            0 <= q < r < timeline::item_places(events, n).len() ==> (
            #[trigger] timeline::item_places(events, n)[q]) < (#[trigger] timeline::item_places(
                events,
                n,
            )[r]),
        forall|i: int|
            0 <= i < n && timeline::gives_item(#[trigger] events[i]) ==> timeline::item_places(
                events,
                n,
            ).contains(i),
    decreases n,
{
    if n > 0 {
        lemma_timeline_in_order(events, (n - 1) as nat);
        let before = timeline::item_places(events, (n - 1) as nat);
        let now = timeline::item_places(events, n);
        assert forall|q: int| 0 <= q < now.len() implies 0 <= #[trigger] now[q] < n
            && timeline::gives_item(events[now[q]]) by {
            if q < before.len() {
                assert(now[q] == before[q]);
            }
        }
        assert forall|q: int, r: int| 0 <= q < r < now.len() implies (#[trigger] now[q]) < (
        #[trigger] now[r]) by {
            assert(now[q] == before[q]);
            if r < before.len() {
                assert(now[r] == before[r]);
            }
        }
        assert forall|i: int| 0 <= i < n && timeline::gives_item(
            #[trigger] events[i],
        ) implies now.contains(i) by {
            if i == n - 1 {
                assert(now.last() == i);
            } else {
                assert(before.contains(i));
                let q = before.index_of(i);
                assert(now[q] == i);
            }
        }
    }
}

/// The item without the result of a tool call.
pub open spec fn without_result(item: ItemView) -> ItemView {
    match item {
        ItemView::ToolStep { timestamp, tool_name, arguments, result, turn_no } =>
            ItemView::ToolStep { timestamp, tool_name, arguments, result: None, turn_no },
        _ => item,
    }
}

proof fn lemma_places_prefix(events: Seq<JsonView>, m: nat, n: nat)
    requires
        m <= n,
    ensures
        timeline::item_places(events, m).is_prefix_of(timeline::item_places(events, n)),
    decreases n,
{
    if m < n {
        lemma_places_prefix(events, m, (n - 1) as nat);
        let a = timeline::item_places(events, m);
        let b = timeline::item_places(events, (n - 1) as nat);
        let c = timeline::item_places(events, n);
        assert(b.is_prefix_of(c));
        assert(c.take(a.len() as int) =~= a) by {
            assert(b.take(a.len() as int) =~= a);
        }
    }
}

/// As a session goes on its timeline grows at the end: what stood there stays in its place
/// and keeps everything but, for a tool call, its result.
pub proof fn lemma_timeline_grows(
    events: Seq<JsonView>,
    stats: Map<u32, TokenStats>,
    m: nat,
    n: nat,
)
    requires
        m <= n <= events.len(),
    ensures
        timeline::timeline(events, stats, m).len() <= timeline::timeline(events, stats, n).len(),
        forall|q: int|
            0 <= q < timeline::timeline(events, stats, m).len() ==> without_result(
                #[trigger] timeline::timeline(events, stats, m)[q],
            ) == without_result(timeline::timeline(events, stats, n)[q]),
{
    lemma_places_prefix(events, m, n);
    lemma_timeline_in_order(events, m);
    let a = timeline::item_places(events, m);
    let b = timeline::item_places(events, n);
    assert forall|q: int| 0 <= q < a.len() implies without_result(
        #[trigger] timeline::timeline(events, stats, m)[q],
    ) == without_result(timeline::timeline(events, stats, n)[q]) by {
        assert(b[q] == a[q]);
        let i = a[q];
        assert(timeline::timeline(events, stats, m)[q] == timeline::item_of(events, stats, i, m)->0);
        assert(timeline::timeline(events, stats, n)[q] == timeline::item_of(events, stats, i, n)->0);
    }
}

proof fn lemma_only_call(events: Seq<JsonView>, i: int, n: nat)
    requires
        0 <= i < n <= events.len(),
        timeline::call_id(events[i]) is Some,
        forall|k: int|
            0 <= k < n && k != i ==> timeline::call_id(#[trigger] events[k]) != timeline::call_id(
                events[i],
            ),
    ensures
        timeline::latest_call(events, timeline::call_id(events[i])->0, n) == Some(i),
    decreases n,
{
    if n - 1 != i {
        assert(timeline::call_id(events[n - 1]) != timeline::call_id(events[i]));
        lemma_only_call(events, i, (n - 1) as nat);
    }
}

/// A tool call whose identifier no other call has is shown with the output that came last
/// under this identifier.
pub proof fn lemma_call_gets_output(events: Seq<JsonView>, i: int, j: int, n: nat)
    requires
        0 <= i < j < n <= events.len(),
        timeline::call_id(events[i]) is Some,
        forall|k: int|
            0 <= k < n && k != i ==> timeline::call_id(#[trigger] events[k]) != timeline::call_id(
                events[i],
            ),
        timeline::output_id(events[j]) == timeline::call_id(events[i]),
        forall|k: int|
            j < k < n ==> timeline::output_id(#[trigger] events[k]) != timeline::call_id(events[i]),
    ensures
        timeline::result_of(events, i, n) == Some(
            timeline::object_of(
                "content"@,
                JsonView::Str(
                    json::text_field_or_empty(timeline::response(events[j])->0, "output"@),
                ),
            ),
        ),
    decreases n,
{
    if n - 1 == j {
        lemma_only_call(events, i, j as nat);
    } else {
        lemma_call_gets_output(events, i, j, (n - 1) as nat);
        assert(timeline::output_id(events[n - 1]) != timeline::call_id(events[i]));
        if timeline::output_id(events[n - 1]) is Some {
            timeline::lemma_latest_call(events, timeline::output_id(events[n - 1])->0, (n - 1) as nat);
        }
    }
}

/// An output under an identifier that no call has changes nothing.
pub proof fn lemma_stray_output_ignored(
    events: Seq<JsonView>,
    stats: Map<u32, TokenStats>,
    n: nat,
)
    requires
        n < events.len(),
        timeline::output_id(events[n as int]) is Some,
        forall|k: int|
            0 <= k < n ==> timeline::call_id(#[trigger] events[k]) != timeline::output_id(
                events[n as int],
            ),
    ensures
        timeline::timeline(events, stats, n + 1) == timeline::timeline(events, stats, n),
{
    let id = timeline::output_id(events[n as int])->0;
    timeline::lemma_latest_call(events, id, n);
    assert(timeline::latest_call(events, id, n) is None);
    timeline::lemma_output_gives_no_item(events[n as int]);
    assert(timeline::timeline(events, stats, n + 1) =~= timeline::timeline(events, stats, n));
}

/// A count of a reply; zero in any other item.
pub open spec fn item_amount(item: ItemView, c: Count) -> nat {
    match item {
        ItemView::AssistantReply {
            output_tokens,
            input_tokens,
            cache_read_tokens,
            reasoning_tokens,
            total_tokens,
            ..
        } => match c {
            Count::Total => entry::or_zero(total_tokens),
            Count::Input => entry::or_zero(input_tokens),
            Count::Output => entry::or_zero(output_tokens),
            Count::Reasoning => entry::or_zero(reasoning_tokens),
            Count::CacheRead => entry::or_zero(cache_read_tokens),
        },
        _ => 0,
    }
}

/// What the items of a timeline came to.
pub open spec fn items_sum(items: Seq<ItemView>, c: Count) -> nat
    decreases items.len(),
{
    if items.len() == 0 {
        0
    } else {
        items_sum(items.drop_last(), c) + item_amount(items.last(), c)
    }
}

proof fn lemma_items_sum_upto(
    events: Seq<JsonView>,
    stats: Map<u32, TokenStats>,
    c: Count,
    n: nat,
    m: nat,
)
    requires
        n <= events.len(),
    ensures
        items_sum(
            timeline::item_places(events, n).map_values(
                |i: int| timeline::item_of(events, stats, i, m)->0,
            ),
            c,
        ) == timeline::replies_sum(events, stats, c, n),
    decreases n,
{
    let f = |i: int| timeline::item_of(events, stats, i, m)->0;
    let now = timeline::item_places(events, n);
    if n > 0 {
        lemma_items_sum_upto(events, stats, c, (n - 1) as nat, m);
        let before = timeline::item_places(events, (n - 1) as nat);
        turns::lemma_kinds_differ();
        timeline::lemma_types_differ();
        if timeline::gives_item(events[n - 1]) {
            assert(now.map_values(f).drop_last() =~= before.map_values(f));
            assert(now.map_values(f).last() == timeline::item_of(events, stats, n - 1, m)->0);
            assert(item_amount(timeline::item_of(events, stats, n - 1, m)->0, c)
                == timeline::replies_sum(events, stats, c, n) - timeline::replies_sum(
                events,
                stats,
                c,
                (n - 1) as nat,
            ));
        } else {
            assert(now.map_values(f) =~= before.map_values(f));
        }
    } else {
        assert(now.map_values(f) =~= Seq::empty());
    }
}

/// The totals of a session are the sums over the replies in its timeline.
pub proof fn lemma_totals_of_replies(
    events: Seq<JsonView>,
    stats: Map<u32, TokenStats>,
    session_name: Seq<char>,
)
    requires
        timeline::sums_fit(events, stats, events.len()),
    ensures
        ({
            let n = events.len();
            let items = timeline::timeline(events, stats, n);
            let about = timeline::metadata(events, stats, session_name, n);
            &&& about.total_input_tokens == items_sum(items, Count::Input)
            &&& about.total_output_tokens == items_sum(items, Count::Output)
            &&& about.total_cache_read_tokens == items_sum(items, Count::CacheRead)
            &&& about.total_reasoning_tokens == items_sum(items, Count::Reasoning)
            &&& about.total_tokens == items_sum(items, Count::Total)
        }),
{
    let n = events.len();
    lemma_items_sum_upto(events, stats, Count::Input, n, n);
    lemma_items_sum_upto(events, stats, Count::Output, n, n);
    lemma_items_sum_upto(events, stats, Count::CacheRead, n, n);
    lemma_items_sum_upto(events, stats, Count::Reasoning, n, n);
    lemma_items_sum_upto(events, stats, Count::Total, n, n);
}

/// There are totals where the sums over the replies in the timeline fit in 64 bits.
pub proof fn lemma_sums_fit(events: Seq<JsonView>, stats: Map<u32, TokenStats>)
    ensures
        timeline::sums_fit(events, stats, events.len()) <==> forall|c: Count| #[trigger]
            items_sum(timeline::timeline(events, stats, events.len()), c) <= u64::MAX,
{
    let n = events.len();
    let items = timeline::timeline(events, stats, n);
    assert forall|c: Count| #[trigger] items_sum(items, c) == timeline::replies_sum(
        events,
        stats,
        c,
        n,
    ) by {
        lemma_items_sum_upto(events, stats, c, n, n);
    }
    if forall|c: Count| #[trigger] items_sum(items, c) <= u64::MAX {
        assert(items_sum(items, Count::Input) <= u64::MAX);
        assert(items_sum(items, Count::Output) <= u64::MAX);
        assert(items_sum(items, Count::CacheRead) <= u64::MAX);
        assert(items_sum(items, Count::Reasoning) <= u64::MAX);
        assert(items_sum(items, Count::Total) <= u64::MAX);
    }
}

} // verus!
