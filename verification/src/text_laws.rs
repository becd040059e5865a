//! How texts are compared, searched and put in order.

use crate::order;
use crate::text;
use vstd::prelude::*;
use vstd::utf8::*;

verus! {

/// Of two texts that part after a common beginning, the one whose next character has the
/// lower code point comes first.
pub proof fn lemma_first_difference_decides(
    start: Seq<char>,
    a: char,
    b: char,
    x: Seq<char>,
    y: Seq<char>,
)
    requires
        a != b,
    ensures
        text::text_before(start + seq![a] + x, start + seq![b] + y) <==> (a as int) < (b as int),
    decreases start.len(),
{
    let s = start + seq![a] + x;
    let t = start + seq![b] + y;
    if start.len() > 0 {
        let rest = start.drop_first();
        lemma_first_difference_decides(rest, a, b, x, y);
        assert(s.drop_first() =~= rest + seq![a] + x);
        assert(t.drop_first() =~= rest + seq![b] + y);
        assert(s.first() == start.first() && t.first() == start.first());
    } else {
        assert(s.first() == a && t.first() == b);
    }
}

/// A text comes before every longer one that begins with it, and not after it.
pub proof fn lemma_beginning_comes_first(start: Seq<char>, rest: Seq<char>)
    requires
        rest.len() > 0,
    ensures
        text::text_before(start, start + rest),
        !text::text_before(start + rest, start),
    decreases start.len(),
{
    if start.len() > 0 {
        lemma_beginning_comes_first(start.drop_first(), rest);
        assert((start + rest).drop_first() =~= start.drop_first() + rest);
        assert((start + rest).first() == start.first());
    }
}

/// A text occurs in every text that has it somewhere in the middle.
pub proof fn lemma_middle_occurs(before: Seq<char>, part: Seq<char>, after: Seq<char>)
    ensures
        text::contains_text(before + part + after, part),
{
    let s = before + part + after;
    let at = before.len() as int;
    assert(s.subrange(at, at + part.len()) =~= part);
    assert(text::occurs_at(s, part, at));
}

/// A text in which a part occurs has it somewhere in the middle.
pub proof fn lemma_occurring_is_middle(s: Seq<char>, part: Seq<char>) -> (r: (Seq<char>, Seq<char>))
    requires
        text::contains_text(s, part),
    ensures
        s == r.0 + part + r.1,
{
    let at = choose|i: int| text::occurs_at(s, part, i);
    let before = s.take(at);
    let after = s.skip(at + part.len());
    assert forall|i: int| 0 <= i < part.len() implies s[at + i] == part[i] by {
        assert(s.subrange(at, at + part.len())[i] == s[at + i]);
    }
    assert(s =~= before + part + after);
    (before, after)
}

/// A text begins and ends with its two parts.
pub proof fn lemma_begins_and_ends(a: Seq<char>, b: Seq<char>)
    ensures
        text::begins_with(a + b, a),
        text::ends_with(a + b, b),
{
    assert((a + b).take(a.len() as int) =~= a);
    assert((a + b).skip(a.len() as int) =~= b);
}

/// Replacing a character keeps the length and every other character.
pub proof fn lemma_replaced(s: Seq<char>, from: char, to: char, i: int)
    requires
        0 <= i < s.len(),
    ensures
        text::replaced(s, from, to).len() == s.len(),
        s[i] == from ==> text::replaced(s, from, to)[i] == to,
        s[i] != from ==> text::replaced(s, from, to)[i] == s[i],
{
}

/// An ASCII text can be cut at every place up to its end, and at none behind it.
pub proof fn lemma_ascii_cut(s: Seq<char>, i: int)
    requires
        is_ascii_chars(s),
        0 <= i,
    ensures
        text::cuts_at(s, i) <==> i <= s.len(),
{
    text::lemma_ascii_byte_slice(s, 0, s.len() as int);
    if i <= s.len() {
        text::lemma_ascii_byte_slice(s, i, i);
    } else if text::cuts_at(s, i) {
        text::lemma_cut_in_range(s, i);
    }
}

proof fn lemma_rising(ranks: Seq<usize>, a: int)
    requires
        0 <= a < ranks.len(),
        forall|i: int, j: int| 0 <= i < j < ranks.len() ==> ranks[i] < ranks[j],
        forall|i: int| 0 <= i < ranks.len() ==> #[trigger] ranks[i] < ranks.len(),
    ensures
        a <= ranks[a],
    decreases a,
{
    if a > 0 {
        lemma_rising(ranks, a - 1);
        assert(ranks[a - 1] < ranks[a]);
    }
}

proof fn lemma_rising_from_end(ranks: Seq<usize>, a: int)
    requires
        0 <= a < ranks.len(),
        forall|i: int, j: int| 0 <= i < j < ranks.len() ==> ranks[i] < ranks[j],
        forall|i: int| 0 <= i < ranks.len() ==> #[trigger] ranks[i] < ranks.len(),
    ensures
        ranks[a] <= a,
    decreases ranks.len() - a,
{
    if a + 1 < ranks.len() {
        lemma_rising_from_end(ranks, a + 1);
        assert(ranks[a] < ranks[a + 1]);
    }
}

/// Items that are in order already keep their places, those of which neither comes before the
/// other among them.
pub proof fn lemma_ordered_items_stay<A>(
    items: Seq<A>,
    result: Seq<A>,
    before: spec_fn(A, A) -> bool,
)
    requires
        order::sorted(items, result, before),
        forall|i: int, j: int|
            0 <= i < j < items.len() ==> !#[trigger] before(items[j], items[i]),
    ensures
        result == items,
{
    let ranks = choose|ranks: Seq<usize>|
        {
            &&& #[trigger] order::in_order(ranks, items.len(), order::by_place(items, before))
            &&& result == ranks.map_values(|r: usize| items[r as int])
        };
    assert forall|a: int, b: int| 0 <= a < b < ranks.len() implies ranks[a] < ranks[b] by {
        assert(order::placed(
            order::by_place(items, before),
            ranks[a] as int,
            ranks[b] as int,
        ));
        assert(ranks[a] != ranks[b]);
        if ranks[b] < ranks[a] {
            assert(!before(items[ranks[a] as int], items[ranks[b] as int]));
        }
    }
    assert forall|a: int| 0 <= a < ranks.len() implies #[trigger] result[a] == items[a] by {
        lemma_rising(ranks, a);
        lemma_rising_from_end(ranks, a);
    }
    assert(result =~= items);
}

/// A sorted list is in order: nothing in it comes before what stands earlier.
pub proof fn lemma_sorted_in_order<A>(
    items: Seq<A>,
    result: Seq<A>,
    before: spec_fn(A, A) -> bool,
    a: int,
    b: int,
)
    requires
        order::sorted(items, result, before),
        forall|x: A, y: A| #[trigger] before(x, y) ==> !before(y, x),
        0 <= a < b < result.len(),
    ensures
        result.len() == items.len(),
        !before(result[b], result[a]),
{
    let ranks = choose|ranks: Seq<usize>|
        {
            &&& #[trigger] order::in_order(ranks, items.len(), order::by_place(items, before))
            &&& result == ranks.map_values(|r: usize| items[r as int])
        };
    assert(order::placed(order::by_place(items, before), ranks[a] as int, ranks[b] as int));
    assert(result[a] == items[ranks[a] as int] && result[b] == items[ranks[b] as int]);
}

} // verus!
