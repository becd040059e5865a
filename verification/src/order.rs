//! Putting things in order.

use crate::text;
use crate::text::text_less;
use vstd::prelude::*;

verus! {

/// A strict order in which things that are equally placed need not be equal.
pub trait Ranked: Sized {
    /// `self` is placed before `other`.
    spec fn precedes(self, other: Self) -> bool;

    /// Of two things at most one precedes the other, and what does not precede is carried on.
    proof fn lemma_strict_order(a: Self, b: Self, c: Self)
        ensures
            a.precedes(b) ==> !b.precedes(a),
            !a.precedes(b) && !b.precedes(c) ==> !a.precedes(c),
    ;

    /// Whether `self` is placed before `other`.
    fn is_before(&self, other: &Self) -> (r: bool)
        ensures
            r == self.precedes(*other),
    ;
}

/// A text that is placed before the texts that follow it.
pub struct Earliest(pub String);

/// A text that is placed before the texts that it follows.
pub struct Newest(pub String);

/// A number that is placed before smaller ones.
pub struct Largest(pub u64);

proof fn lemma_text_order(a: Seq<char>, b: Seq<char>, c: Seq<char>)
    ensures
        text::text_before(a, b) ==> !text::text_before(b, a),
        !text::text_before(a, b) && !text::text_before(b, c) ==> !text::text_before(a, c),
{
    if text::text_before(a, b) && text::text_before(b, a) {
        text::lemma_text_before_transitive(a, b, a);
        text::lemma_text_before_irreflexive(a);
    }
    if !text::text_before(a, b) && !text::text_before(b, c) && text::text_before(a, c) {
        if text::text_before(b, a) {
            text::lemma_text_before_transitive(b, a, c);
        } else {
            text::lemma_text_before_total(a, b);
        }
    }
}

impl Ranked for Earliest {
    open spec fn precedes(self, other: Self) -> bool {
        text::text_before(self.0@, other.0@)
    }

    proof fn lemma_strict_order(a: Self, b: Self, c: Self) {
        lemma_text_order(a.0@, b.0@, c.0@);
    }

    fn is_before(&self, other: &Self) -> (r: bool) {
        text_less(self.0.as_str(), other.0.as_str())
    }
}

impl Ranked for Newest {
    open spec fn precedes(self, other: Self) -> bool {
        text::text_before(other.0@, self.0@)
    }

    proof fn lemma_strict_order(a: Self, b: Self, c: Self) {
        lemma_text_order(b.0@, a.0@, a.0@);
        lemma_text_order(c.0@, b.0@, a.0@);
    }

    fn is_before(&self, other: &Self) -> (r: bool) {
        text_less(other.0.as_str(), self.0.as_str())
    }
}

impl Ranked for Largest {
    open spec fn precedes(self, other: Self) -> bool {
        self.0 > other.0
    }

    proof fn lemma_strict_order(a: Self, b: Self, c: Self) {
    }

    fn is_before(&self, other: &Self) -> (r: bool) {
        self.0 > other.0
    }
}

/// The thing at place `i` is to stand before the one at place `j`: because it comes before
/// it, or because neither comes before the other and `i` is the earlier place.
pub open spec fn placed(before: spec_fn(int, int) -> bool, i: int, j: int) -> bool {
    before(i, j) || (!before(j, i) && i < j)
}

/// `ranks` holds each of the places below `n` once, in this order; places of which neither
/// comes before the other keep their order.
pub open spec fn in_order(ranks: Seq<usize>, n: nat, before: spec_fn(int, int) -> bool) -> bool {
    &&& ranks.len() == n
    &&& ranks.no_duplicates()
    &&& forall|a: int| 0 <= a < ranks.len() ==> #[trigger] ranks[a] < n
    &&& forall|a: int, b: int|
        0 <= a < b < ranks.len() ==> placed(
            before,
            #[trigger] ranks[a] as int,
            #[trigger] ranks[b] as int,
        )
}

/// An order of items as an order of their places.
pub open spec fn by_place<A>(
    items: Seq<A>,
    before: spec_fn(A, A) -> bool,
) -> spec_fn(int, int) -> bool {
    |i: int, j: int| before(items[i], items[j])
}

/// `result` is `items` in this order; items of which neither comes before the other keep
/// their order.
pub open spec fn sorted<A>(
    items: Seq<A>,
    result: Seq<A>,
    before: spec_fn(A, A) -> bool,
) -> bool {
    exists|ranks: Seq<usize>|
        {
            &&& #[trigger] in_order(ranks, items.len(), by_place(items, before))
            &&& result == ranks.map_values(|r: usize| items[r as int])
        }
}

/// The places of `keys` in the order of the keys.
pub fn ranks_of<K: Ranked>(keys: &Vec<K>) -> (r: Vec<usize>)
    ensures
        in_order(r@, keys@.len(), |i: int, j: int| keys@[i].precedes(keys@[j])),
{
    let ghost before = |i: int, j: int| keys@[i].precedes(keys@[j]);
    let mut ranks: Vec<usize> = Vec::new();
    let mut i: usize = 0;
    while i < keys.len()
        invariant
            i <= keys@.len(),
            before == (|i: int, j: int| keys@[i].precedes(keys@[j])),
            ranks@.len() == i,
            ranks@.no_duplicates(),
            forall|a: int| 0 <= a < ranks@.len() ==> #[trigger] ranks@[a] < i,
            forall|a: int, b: int|
                0 <= a < b < ranks@.len() ==> placed(
                    before,
                    #[trigger] ranks@[a] as int,
                    #[trigger] ranks@[b] as int,
                ),
        decreases keys@.len() - i,
    {
        let mut p: usize = ranks.len();
        while p > 0 && keys[i].is_before(&keys[ranks[p - 1]])
            invariant
                i < keys@.len(),
                p <= ranks@.len(),
                ranks@.len() == i,
                forall|a: int| 0 <= a < ranks@.len() ==> #[trigger] ranks@[a] < i,
                forall|a: int|
                    p <= a < ranks@.len() ==> keys@[i as int].precedes(
                        keys@[#[trigger] ranks@[a] as int],
                    ),
            decreases p,
        {
            p -= 1;
        }
        let ghost old_ranks = ranks@;
        proof {
            assert forall|a: int| 0 <= a < p implies placed(
                before,
                #[trigger] old_ranks[a] as int,
                i as int,
            ) by {
                let last = old_ranks[p - 1] as int;
                assert(!keys@[i as int].precedes(keys@[last]));
                if a < p - 1 {
                    assert(placed(before, old_ranks[a] as int, old_ranks[p - 1] as int));
                    K::lemma_strict_order(keys@[old_ranks[a] as int], keys@[last], keys@[last]);
                    K::lemma_strict_order(keys@[i as int], keys@[last], keys@[old_ranks[a] as int]);
                }
            }
        }
        ranks.insert(p, i);
        assert forall|a: int, b: int| 0 <= a < b < ranks@.len() implies placed(
            before,
            #[trigger] ranks@[a] as int,
            #[trigger] ranks@[b] as int,
        ) by {
            let x: int = if a < p { a } else { a - 1 };
            let y: int = if b < p { b } else { b - 1 };
            if a == p {
                assert(ranks@[b] == old_ranks[y]);
            } else if b == p {
                assert(ranks@[a] == old_ranks[a]);
            } else {
                assert(ranks@[a] == old_ranks[x] && ranks@[b] == old_ranks[y]);
                assert(placed(before, old_ranks[x] as int, old_ranks[y] as int));
            }
        }
        i += 1;
    }
    ranks
}

/// The items at the places in `ranks`, in the order of `ranks`.
pub(crate) fn arrange<T>(items: Vec<T>, ranks: &Vec<usize>) -> (r: Vec<T>)
    requires
        ranks@.no_duplicates(),
        forall|a: int| 0 <= a < ranks@.len() ==> #[trigger] ranks@[a] < items@.len(),
    ensures
        r@ == ranks@.map_values(|p: usize| items@[p as int]),
{
    let ghost all = items@;
    let mut slots: Vec<Option<T>> = Vec::new();
    for item in it: items
        invariant
            it.seq() == all,
            slots@.len() == it.index(),
            forall|i: int| 0 <= i < slots@.len() ==> #[trigger] slots@[i] == Some(all[i]),
    {
        slots.push(Some(item));
    }
    let mut r: Vec<T> = Vec::new();
    let mut k: usize = 0;
    while k < ranks.len()
        invariant
            k <= ranks@.len(),
            ranks@.no_duplicates(),
            slots@.len() == all.len(),
            forall|a: int| 0 <= a < ranks@.len() ==> #[trigger] ranks@[a] < all.len(),
            forall|a: int|
                k <= a < ranks@.len() ==> slots@[#[trigger] ranks@[a] as int] == Some(
                    all[ranks@[a] as int],
                ),
            r@.len() == k,
            forall|a: int| 0 <= a < k ==> #[trigger] r@[a] == all[ranks@[a] as int],
        decreases ranks@.len() - k,
    {
        let place: usize = ranks[k];
        if let Some(item) = slots[place].take() {
            r.push(item);
        }
        k += 1;
    }
    assert(r@ =~= ranks@.map_values(|p: usize| all[p as int]));
    r
}

pub(crate) proof fn lemma_same_order(
    ranks: Seq<usize>,
    n: nat,
    one: spec_fn(int, int) -> bool,
    other: spec_fn(int, int) -> bool,
)
    requires
        in_order(ranks, n, one),
        forall|i: int, j: int| 0 <= i < n && 0 <= j < n ==> #[trigger] one(i, j) == other(i, j),
    ensures
        in_order(ranks, n, other),
{
    assert forall|a: int, b: int| 0 <= a < b < ranks.len() implies placed(
        other,
        #[trigger] ranks[a] as int,
        #[trigger] ranks[b] as int,
    ) by {
        assert(placed(one, ranks[a] as int, ranks[b] as int));
        assert(one(ranks[a] as int, ranks[b] as int) == other(ranks[a] as int, ranks[b] as int));
        assert(one(ranks[b] as int, ranks[a] as int) == other(ranks[b] as int, ranks[a] as int));
    }
}

/// Everything in a sorted list is one of the items.
pub(crate) proof fn lemma_from_items<A>(
    items: Seq<A>,
    result: Seq<A>,
    before: spec_fn(A, A) -> bool,
    i: int,
)
    requires
        sorted(items, result, before),
        0 <= i < result.len(),
    ensures
        exists|q: int| 0 <= q < items.len() && #[trigger] items[q] == result[i],
{
    let ranks = choose|ranks: Seq<usize>|
        {
            &&& #[trigger] in_order(ranks, items.len(), by_place(items, before))
            &&& result == ranks.map_values(|r: usize| items[r as int])
        };
    assert(items[ranks[i] as int] == result[i]);
}

} // verus!
