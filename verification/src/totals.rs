//! Sums over usage entries, in all and by key.

use crate::entry;
use crate::entry::{value_or_zero, Count, EntryView, TokenStats, UsageEntry};
use crate::text;
use crate::text::slice_bytes;
use crate::turns::place_of;
use vstd::prelude::*;

verus! {

/// The counts of an entry that go into a report: its increments, or, where an entry without
/// increments is the first of its session, its counts so far.
pub open spec fn counted(e: EntryView) -> Option<TokenStats> {
    if e.delta_tokens is Some {
        e.delta_tokens
    } else if e.turn_no == 1 {
        e.tokens
    } else {
        None
    }
}

/// A count of optional token statistics; zero where there are none.
pub open spec fn optional_amount(t: Option<TokenStats>, c: Count) -> nat {
    match t {
        Some(t) => entry::amount(t, c),
        None => 0,
    }
}

/// What an entry counts for in a report.
pub open spec fn by_count(c: Count) -> spec_fn(EntryView) -> nat {
    |e: EntryView| optional_amount(counted(e), c)
}

/// What an entry adds by its increments alone.
pub open spec fn by_increment(c: Count) -> spec_fn(EntryView) -> nat {
    |e: EntryView| optional_amount(e.delta_tokens, c)
}

/// One for every entry.
pub open spec fn by_one() -> spec_fn(EntryView) -> nat {
    |e: EntryView| 1
}

/// The session of an entry.
pub open spec fn session_key() -> spec_fn(EntryView) -> Seq<char> {
    |e: EntryView| e.session_id
}

/// An optional text, or what stands in for it.
pub open spec fn text_or(s: Option<Seq<char>>, other: Seq<char>) -> Seq<char> {
    match s {
        Some(s) => s,
        None => other,
    }
}

/// The model of an entry.
pub open spec fn model_key() -> spec_fn(EntryView) -> Seq<char> {
    |e: EntryView| text_or(e.model, "Unknown Model"@)
}

/// The working directory of an entry.
pub open spec fn project_key() -> spec_fn(EntryView) -> Seq<char> {
    |e: EntryView| text_or(e.cwd, "Unknown Path"@)
}

/// The date of an entry: the first ten bytes of its timestamp.
pub open spec fn date_key() -> spec_fn(EntryView) -> Seq<char> {
    |e: EntryView| text::byte_slice(e.timestamp, 0, 10)
}

/// The sum over the first `n` entries.
pub open spec fn total(es: Seq<EntryView>, f: spec_fn(EntryView) -> nat, n: nat) -> nat
    decreases n,
{
    if n == 0 {
        0
    } else {
        total(es, f, (n - 1) as nat) + f(es[n - 1])
    }
}

/// The sum over those of the first `n` entries that have this key.
pub open spec fn keyed_total(
    es: Seq<EntryView>,
    key: spec_fn(EntryView) -> Seq<char>,
    value: Seq<char>,
    f: spec_fn(EntryView) -> nat,
    n: nat,
) -> nat
    decreases n,
{
    if n == 0 {
        0
    } else {
        let before = keyed_total(es, key, value, f, (n - 1) as nat);
        if key(es[n - 1]) == value {
            before + f(es[n - 1])
        } else {
            before
        }
    }
}

/// The keys of the first `n` entries, each once, in the order of their first occurrence.
pub open spec fn keys(
    es: Seq<EntryView>,
    key: spec_fn(EntryView) -> Seq<char>,
    n: nat,
) -> Seq<Seq<char>>
    decreases n,
{
    if n == 0 {
        Seq::empty()
    } else {
        let before = keys(es, key, (n - 1) as nat);
        if before.contains(key(es[n - 1])) {
            before
        } else {
            before.push(key(es[n - 1]))
        }
    }
}

/// The sum of the keyed sums of some keys.
pub open spec fn sum_by_key(
    es: Seq<EntryView>,
    key: spec_fn(EntryView) -> Seq<char>,
    values: Seq<Seq<char>>,
    f: spec_fn(EntryView) -> nat,
    n: nat,
) -> nat
    decreases values.len(),
{
    if values.len() == 0 {
        0
    } else {
        sum_by_key(es, key, values.drop_last(), f, n) + keyed_total(es, key, values.last(), f, n)
    }
}

/// No key is listed twice, and the keys listed are those of the entries.
pub proof fn lemma_keys(es: Seq<EntryView>, key: spec_fn(EntryView) -> Seq<char>, n: nat)
    requires
        n <= es.len(),
    ensures
        keys(es, key, n).no_duplicates(),
        keys(es, key, n).len() <= n,
        forall|i: int| 0 <= i < n ==> keys(es, key, n).contains(key(#[trigger] es[i])),
        forall|q: int|
            0 <= q < keys(es, key, n).len() ==> exists|i: int|
                0 <= i < n && key(#[trigger] es[i]) == #[trigger] keys(es, key, n)[q],
    decreases n,
{
    if n > 0 {
        lemma_keys(es, key, (n - 1) as nat);
        let before = keys(es, key, (n - 1) as nat);
        let now = keys(es, key, n);
        let v = key(es[n - 1]);
        assert forall|i: int| 0 <= i < n implies now.contains(key(#[trigger] es[i])) by {
            if i < n - 1 {
                assert(before.contains(key(es[i])));
                let q = before.index_of(key(es[i]));
                assert(now[q] == key(es[i]));
            } else if !before.contains(v) {
                assert(now.last() == v);
            }
        }
        assert forall|q: int| 0 <= q < now.len() implies exists|i: int|
            0 <= i < n && key(#[trigger] es[i]) == #[trigger] now[q] by {
            if q < before.len() {
                assert(now[q] == before[q]);
                let i = choose|i: int| 0 <= i < n - 1 && key(#[trigger] es[i]) == before[q];
                assert(key(es[i]) == now[q]);
            } else {
                assert(key(es[n - 1]) == now[q]);
            }
        }
    }
}

proof fn lemma_unlisted_key(
    es: Seq<EntryView>,
    key: spec_fn(EntryView) -> Seq<char>,
    value: Seq<char>,
    f: spec_fn(EntryView) -> nat,
    n: nat,
)
    requires
        n <= es.len(),
        !keys(es, key, n).contains(value),
    ensures
        keyed_total(es, key, value, f, n) == 0,
    decreases n,
{
    if n > 0 {
        lemma_keys(es, key, n);
        let before = keys(es, key, (n - 1) as nat);
        let now = keys(es, key, n);
        assert(now.contains(key(es[n - 1])));
        assert(!before.contains(value)) by {
            if before.contains(value) {
                let q = before.index_of(value);
                assert(now[q] == value);
            }
        }
        lemma_unlisted_key(es, key, value, f, (n - 1) as nat);
    }
}

proof fn lemma_sum_by_key_step(
    es: Seq<EntryView>,
    key: spec_fn(EntryView) -> Seq<char>,
    values: Seq<Seq<char>>,
    f: spec_fn(EntryView) -> nat,
    n: nat,
)
    requires
        0 < n <= es.len(),
        values.no_duplicates(),
    ensures
        sum_by_key(es, key, values, f, n) == sum_by_key(es, key, values, f, (n - 1) as nat) + (
        if values.contains(key(es[n - 1])) {
            f(es[n - 1])
        } else {
            0
        }),
    decreases values.len(),
{
    if values.len() > 0 {
        let rest = values.drop_last();
        let v = key(es[n - 1]);
        lemma_sum_by_key_step(es, key, rest, f, n);
        if values.contains(v) {
            let q = values.index_of(v);
            if values.last() == v {
                assert(!rest.contains(v)) by {
                    if rest.contains(v) {
                        let r = rest.index_of(v);
                        assert(values[r] == values[values.len() - 1]);
                    }
                }
            } else {
                assert(rest[q] == v);
            }
        } else {
            assert(!rest.contains(v)) by {
                if rest.contains(v) {
                    let r = rest.index_of(v);
                    assert(values[r] == v);
                }
            }
            assert(values.last() != v);
        }
    }
}

/// The sums by key come to the sum over all entries.
pub proof fn lemma_sums_by_key(
    es: Seq<EntryView>,
    key: spec_fn(EntryView) -> Seq<char>,
    f: spec_fn(EntryView) -> nat,
    n: nat,
)
    requires
        n <= es.len(),
    ensures
        sum_by_key(es, key, keys(es, key, n), f, n) == total(es, f, n),
    decreases n,
{
    if n > 0 {
        let before = keys(es, key, (n - 1) as nat);
        let now = keys(es, key, n);
        let v = key(es[n - 1]);
        lemma_sums_by_key(es, key, f, (n - 1) as nat);
        lemma_keys(es, key, (n - 1) as nat);
        lemma_sum_by_key_step(es, key, before, f, n);
        if !before.contains(v) {
            lemma_unlisted_key(es, key, v, f, (n - 1) as nat);
            assert(now.drop_last() =~= before);
            assert(now.last() == v);
        }
    }
}

/// A keyed sum is at most the sum over all entries.
pub proof fn lemma_keyed_total_bound(
    es: Seq<EntryView>,
    key: spec_fn(EntryView) -> Seq<char>,
    value: Seq<char>,
    f: spec_fn(EntryView) -> nat,
    n: nat,
)
    ensures
        keyed_total(es, key, value, f, n) <= total(es, f, n),
    decreases n,
{
    if n > 0 {
        lemma_keyed_total_bound(es, key, value, f, (n - 1) as nat);
    }
}

/// Increments are part of what is counted.
pub proof fn lemma_increments_counted(es: Seq<EntryView>, c: Count, n: nat)
    ensures
        total(es, by_increment(c), n) <= total(es, by_count(c), n),
    decreases n,
{
    if n > 0 {
        lemma_increments_counted(es, c, (n - 1) as nat);
    }
}

/// A sum never falls as entries are added.
pub proof fn lemma_total_grows(es: Seq<EntryView>, f: spec_fn(EntryView) -> nat, m: nat, n: nat)
    requires
        m <= n,
    ensures
        total(es, f, m) <= total(es, f, n),
    decreases n,
{
    if m < n {
        lemma_total_grows(es, f, m, (n - 1) as nat);
    }
}

/// What entries are grouped by.
#[derive(Clone, Copy, PartialEq, Eq)]
pub enum Grouping {
    Session,
    Model,
    Project,
    Date,
}

/// The key of a grouping.
pub open spec fn key_of(g: Grouping) -> spec_fn(EntryView) -> Seq<char> {
    match g {
        Grouping::Session => session_key(),
        Grouping::Model => model_key(),
        Grouping::Project => project_key(),
        Grouping::Date => date_key(),
    }
}

/// What of an entry is added up.
#[derive(Clone, Copy, PartialEq, Eq)]
pub enum Weight {
    Counted,
    Increment,
}

/// What an entry adds under a weight.
pub open spec fn weighed(w: Weight, c: Count) -> spec_fn(EntryView) -> nat {
    match w {
        Weight::Counted => by_count(c),
        Weight::Increment => by_increment(c),
    }
}

/// The timestamp begins with a date of ten bytes.
pub open spec fn dated(e: EntryView) -> bool {
    text::cuts_at(e.timestamp, 10)
}

/// Every timestamp begins with a date of ten bytes.
pub open spec fn all_dated(es: Seq<EntryView>) -> bool {
    forall|i: int| 0 <= i < es.len() ==> dated(#[trigger] es[i])
}

/// The five counts.
#[derive(Clone, Copy, Debug, PartialEq, Eq)]
pub struct Sums {
    pub total: u64,
    pub input: u64,
    pub output: u64,
    pub reasoning: u64,
    pub cache_read: u64,
}

/// One of the five counts.
pub open spec fn sum_of(s: Sums, c: Count) -> nat {
    match c {
        Count::Total => s.total as nat,
        Count::Input => s.input as nat,
        Count::Output => s.output as nat,
        Count::Reasoning => s.reasoning as nat,
        Count::CacheRead => s.cache_read as nat,
    }
}

/// The counts over the first `n` entries fit in 64 bits.
pub open spec fn counts_fit(es: Seq<EntryView>, n: nat) -> bool {
    forall|c: Count| #[trigger] total(es, by_count(c), n) <= u64::MAX
}

/// No counts.
pub(crate) fn no_sums() -> (r: Sums)
    ensures
        forall|c: Count| #[trigger] sum_of(r, c) == 0,
{
    Sums { total: 0, input: 0, output: 0, reasoning: 0, cache_read: 0 }
}

/// Adds counts; nothing where a sum does not fit in 64 bits.
pub(crate) fn add_counts(s: &Sums, t: &Option<TokenStats>) -> (r: Option<Sums>)
    ensures
        r is Some <==> forall|c: Count|
            #![trigger sum_of(*s, c)]
            sum_of(*s, c) + optional_amount(*t, c) <= u64::MAX,
        r matches Some(n) ==> forall|c: Count|
            #![trigger sum_of(n, c)]
            #![trigger sum_of(*s, c)]
            sum_of(n, c) == sum_of(*s, c) + optional_amount(*t, c),
{
    match t {
        None => Some(*s),
        Some(t) => {
            let total = s.total.checked_add(t.total);
            let input = s.input.checked_add(t.input);
            let output = s.output.checked_add(t.output);
            let reasoning = s.reasoning.checked_add(value_or_zero(t.reasoning));
            let cache_read = s.cache_read.checked_add(value_or_zero(t.cache_read));
            assert(sum_of(*s, Count::Total) == s.total);
            assert(sum_of(*s, Count::Input) == s.input);
            assert(sum_of(*s, Count::Output) == s.output);
            assert(sum_of(*s, Count::Reasoning) == s.reasoning);
            assert(sum_of(*s, Count::CacheRead) == s.cache_read);
            match (total, input, output, reasoning, cache_read) {
                (Some(total), Some(input), Some(output), Some(reasoning), Some(cache_read)) => {
                    Some(Sums { total, input, output, reasoning, cache_read })
                },
                _ => None,
            }
        },
    }
}

/// What of an entry is added up.
pub(crate) fn weigh(e: &UsageEntry, w: Weight) -> (r: Option<TokenStats>)
    ensures
        forall|c: Count| #[trigger] optional_amount(r, c) == weighed(w, c)(e@),
{
    match w {
        Weight::Increment => e.delta_tokens,
        Weight::Counted => if e.delta_tokens.is_some() {
            e.delta_tokens
        } else if e.turn_no == 1 {
            e.tokens
        } else {
            None
        },
    }
}

/// The key of an entry.
pub(crate) fn entry_key(e: &UsageEntry, g: Grouping) -> (r: String)
    requires
        g is Date ==> dated(e@),
    ensures
        r@ == key_of(g)(e@),
{
    match g {
        Grouping::Session => e.session_id.clone(),
        Grouping::Model => match &e.model {
            Some(m) => m.clone(),
            None => "Unknown Model".to_string(),
        },
        Grouping::Project => match &e.cwd {
            Some(c) => c.clone(),
            None => "Unknown Path".to_string(),
        },
        Grouping::Date => {
            proof {
                text::lemma_cut_in_range(e.timestamp@, 10);
            }
            slice_bytes(e.timestamp.as_str(), 0, 10)
        },
    }
}

/// The counts over all entries; nothing where one does not fit in 64 bits.
pub fn count_entries(entries: &Vec<UsageEntry>) -> (r: Option<Sums>)
    ensures
        r is Some <==> counts_fit(entry::entries_view(entries@), entries@.len()),
        r matches Some(s) ==> forall|c: Count| #[trigger]
            sum_of(s, c) == total(entry::entries_view(entries@), by_count(c), entries@.len()),
{
    let ghost es = entry::entries_view(entries@);
    let mut s = no_sums();
    let mut i: usize = 0;
    while i < entries.len()
        invariant
            i <= entries@.len(),
            es == entry::entries_view(entries@),
            forall|c: Count| #[trigger] sum_of(s, c) == total(es, by_count(c), i as nat),
        decreases entries@.len() - i,
    {
        assert(es[i as int] == entries@[i as int]@);
        let t = weigh(&entries[i], Weight::Counted);
        let ghost before = s;
        match add_counts(&s, &t) {
            Some(next) => {
                assert forall|c: Count| #[trigger] sum_of(next, c) == total(
                    es,
                    by_count(c),
                    (i + 1) as nat,
                ) by {
                    assert(sum_of(before, c) == total(es, by_count(c), i as nat));
                    assert(optional_amount(t, c) == weighed(Weight::Counted, c)(es[i as int]));
                }
                s = next;
            },
            None => {
                proof {
                    let c = choose|c: Count|
                        #![trigger sum_of(s, c)]
                        sum_of(s, c) + optional_amount(t, c) > u64::MAX;
                    assert(optional_amount(t, c) == weighed(Weight::Counted, c)(es[i as int]));
                    assert(total(es, by_count(c), (i + 1) as nat) > u64::MAX);
                    lemma_total_grows(es, by_count(c), (i + 1) as nat, entries@.len());
                }
                return None;
            },
        }
        i += 1;
    }
    assert forall|c: Count| #[trigger] total(es, by_count(c), entries@.len()) <= u64::MAX by {
        assert(sum_of(s, c) <= u64::MAX);
    }
    Some(s)
}

/// The counts over the entries with this key.
pub fn keyed_counts(entries: &Vec<UsageEntry>, g: Grouping, value: &String, w: Weight) -> (r: Sums)
    requires
        counts_fit(entry::entries_view(entries@), entries@.len()),
        g is Date ==> all_dated(entry::entries_view(entries@)),
    ensures
        forall|c: Count| #[trigger]
            sum_of(r, c) == keyed_total(
                entry::entries_view(entries@),
                key_of(g),
                value@,
                weighed(w, c),
                entries@.len(),
            ),
{
    let ghost es = entry::entries_view(entries@);
    let mut s = no_sums();
    let mut i: usize = 0;
    while i < entries.len()
        invariant
            i <= entries@.len(),
            es == entry::entries_view(entries@),
            counts_fit(es, entries@.len()),
            g is Date ==> all_dated(es),
            forall|c: Count| #[trigger]
                sum_of(s, c) == keyed_total(es, key_of(g), value@, weighed(w, c), i as nat),
        decreases entries@.len() - i,
    {
        assert(es[i as int] == entries@[i as int]@);
        if entry_key(&entries[i], g) == *value {
            let t = weigh(&entries[i], w);
            let ghost before = s;
            proof {
                assert forall|c: Count|
                    #![trigger sum_of(s, c)]
                    sum_of(s, c) + optional_amount(t, c) <= u64::MAX by {
                    assert(optional_amount(t, c) == weighed(w, c)(es[i as int]));
                    lemma_keyed_total_bound(es, key_of(g), value@, weighed(w, c), (i + 1) as nat);
                    lemma_total_grows(es, weighed(w, c), (i + 1) as nat, entries@.len());
                    lemma_increments_counted(es, c, entries@.len());
                    assert(total(es, by_count(c), entries@.len()) <= u64::MAX);
                }
            }
            if let Some(next) = add_counts(&s, &t) {
                assert forall|c: Count| #[trigger] sum_of(next, c) == keyed_total(
                    es,
                    key_of(g),
                    value@,
                    weighed(w, c),
                    (i + 1) as nat,
                ) by {
                    assert(sum_of(before, c) == sum_of(before, c));
                    assert(optional_amount(t, c) == weighed(w, c)(es[i as int]));
                }
                s = next;
            }
        }
        i += 1;
    }
    s
}

/// The keys of the entries, each once, in the order of their first occurrence.
pub fn distinct_keys(entries: &Vec<UsageEntry>, g: Grouping) -> (r: Vec<String>)
    requires
        g is Date ==> all_dated(entry::entries_view(entries@)),
    ensures
        text::texts(r@) == keys(entry::entries_view(entries@), key_of(g), entries@.len()),
{
    let ghost es = entry::entries_view(entries@);
    let mut r: Vec<String> = Vec::new();
    assert(text::texts(r@) =~= Seq::empty());
    let mut i: usize = 0;
    while i < entries.len()
        invariant
            i <= entries@.len(),
            es == entry::entries_view(entries@),
            g is Date ==> all_dated(es),
            text::texts(r@) == keys(es, key_of(g), i as nat),
        decreases entries@.len() - i,
    {
        assert(es[i as int] == entries@[i as int]@);
        let key = entry_key(&entries[i], g);
        let ghost before = text::texts(r@);
        match place_of(&r, &key) {
            Some(q) => {
                assert(before[q as int] == key@);
            },
            None => {
                assert(!before.contains(key@)) by {
                    if before.contains(key@) {
                        let q = before.index_of(key@);
                        assert(before[q] == r@[q]@);
                    }
                }
                r.push(key);
                assert(text::texts(r@) =~= before.push(key@));
            },
        }
        i += 1;
    }
    r
}

/// Whether every timestamp begins with a date of ten bytes.
pub fn entries_dated(entries: &Vec<UsageEntry>) -> (r: bool)
    ensures
        r == all_dated(entry::entries_view(entries@)),
{
    let ghost es = entry::entries_view(entries@);
    let mut i: usize = 0;
    while i < entries.len()
        invariant
            i <= entries@.len(),
            es == entry::entries_view(entries@),
            forall|j: int| 0 <= j < i ==> dated(#[trigger] es[j]),
        decreases entries@.len() - i,
    {
        assert(es[i as int] == entries@[i as int]@);
        if !entries[i].timestamp.as_str().is_char_boundary(10) {
            assert(!dated(es[i as int]));
            return false;
        }
        i += 1;
    }
    true
}

/// Those of the first `n` entries that have this key, in their order.
pub open spec fn group(
    es: Seq<EntryView>,
    key: spec_fn(EntryView) -> Seq<char>,
    value: Seq<char>,
    n: nat,
) -> Seq<EntryView>
    decreases n,
{
    if n == 0 {
        Seq::empty()
    } else {
        let before = group(es, key, value, (n - 1) as nat);
        if key(es[n - 1]) == value {
            before.push(es[n - 1])
        } else {
            before
        }
    }
}

proof fn lemma_total_of_prefix(
    es: Seq<EntryView>,
    more: Seq<EntryView>,
    f: spec_fn(EntryView) -> nat,
    n: nat,
)
    requires
        n <= es.len(),
        es.is_prefix_of(more),
    ensures
        total(es, f, n) == total(more, f, n),
    decreases n,
{
    if n > 0 {
        lemma_total_of_prefix(es, more, f, (n - 1) as nat);
        assert(es[n - 1] == more[n - 1]);
    }
}

/// The sum over a group is the sum by its key.
pub proof fn lemma_total_of_group(
    es: Seq<EntryView>,
    key: spec_fn(EntryView) -> Seq<char>,
    value: Seq<char>,
    f: spec_fn(EntryView) -> nat,
    n: nat,
)
    requires
        n <= es.len(),
    ensures
        total(group(es, key, value, n), f, group(es, key, value, n).len()) == keyed_total(
            es,
            key,
            value,
            f,
            n,
        ),
    decreases n,
{
    if n > 0 {
        let before = group(es, key, value, (n - 1) as nat);
        lemma_total_of_group(es, key, value, f, (n - 1) as nat);
        if key(es[n - 1]) == value {
            let now = before.push(es[n - 1]);
            assert(before.is_prefix_of(now));
            lemma_total_of_prefix(before, now, f, before.len());
            assert(total(now, f, now.len()) == total(now, f, before.len()) + f(es[n - 1]));
        }
    }
}

/// The counts over a group fit where those over all entries do.
pub proof fn lemma_group_fits(
    es: Seq<EntryView>,
    key: spec_fn(EntryView) -> Seq<char>,
    value: Seq<char>,
)
    requires
        counts_fit(es, es.len()),
    ensures
        counts_fit(group(es, key, value, es.len()), group(es, key, value, es.len()).len()),
{
    let g = group(es, key, value, es.len());
    assert forall|c: Count| #[trigger] total(g, by_count(c), g.len()) <= u64::MAX by {
        lemma_total_of_group(es, key, value, by_count(c), es.len());
        lemma_keyed_total_bound(es, key, value, by_count(c), es.len());
        assert(total(es, by_count(c), es.len()) <= u64::MAX);
    }
}

/// Every entry of a group has the key of the group, and is one of the entries.
pub proof fn lemma_group(
    es: Seq<EntryView>,
    key: spec_fn(EntryView) -> Seq<char>,
    value: Seq<char>,
    n: nat,
)
    requires
        n <= es.len(),
    ensures
        forall|i: int|
            0 <= i < group(es, key, value, n).len() ==> key(
                #[trigger] group(es, key, value, n)[i],
            ) == value && es.contains(group(es, key, value, n)[i]),
    decreases n,
{
    if n > 0 {
        lemma_group(es, key, value, (n - 1) as nat);
        let before = group(es, key, value, (n - 1) as nat);
        let now = group(es, key, value, n);
        assert forall|i: int| 0 <= i < now.len() implies key(#[trigger] now[i]) == value
            && es.contains(now[i]) by {
            if i < before.len() {
                assert(now[i] == before[i]);
            } else {
                assert(now[i] == es[n - 1]);
            }
        }
    }
}

/// The entries with this key, in their order.
pub fn group_entries(entries: &Vec<UsageEntry>, g: Grouping, value: &String) -> (r: Vec<UsageEntry>)
    requires
        g is Date ==> all_dated(entry::entries_view(entries@)),
    ensures
        entry::entries_view(r@) == group(
            entry::entries_view(entries@),
            key_of(g),
            value@,
            entries@.len(),
        ),
        r@.len() <= entries@.len(),
{
    let ghost es = entry::entries_view(entries@);
    let mut r: Vec<UsageEntry> = Vec::new();
    assert(entry::entries_view(r@) =~= Seq::empty());
    let mut i: usize = 0;
    while i < entries.len()
        invariant
            i <= entries@.len(),
            es == entry::entries_view(entries@),
            g is Date ==> all_dated(es),
            entry::entries_view(r@) == group(es, key_of(g), value@, i as nat),
            r@.len() <= i,
        decreases entries@.len() - i,
    {
        assert(es[i as int] == entries@[i as int]@);
        if entry_key(&entries[i], g) == *value {
            let ghost before = entry::entries_view(r@);
            let copy = entries[i].copy();
            r.push(copy);
            assert(entry::entries_view(r@) =~= before.push(es[i as int]));
        }
        i += 1;
    }
    r
}

} // verus!
