//! What the report on a day says of its entries.

use crate::daily;
use crate::entry::{Count, EntryView, TokenStats};
use crate::pricing;
use crate::pricing::RuleView;
use crate::report_laws;
use crate::text;
use crate::text_laws;
use crate::totals;
use vstd::prelude::*;
use vstd::utf8::*;

verus! {

/// The total of token counts.
pub open spec fn total_in() -> spec_fn(TokenStats) -> nat {
    |t: TokenStats| t.total as nat
}

/// The input in token counts.
pub open spec fn input_in() -> spec_fn(TokenStats) -> nat {
    |t: TokenStats| t.input as nat
}

/// The output in token counts.
pub open spec fn output_in() -> spec_fn(TokenStats) -> nat {
    |t: TokenStats| t.output as nat
}

/// What was read from the cache; zero where it is not known.
pub open spec fn cache_in() -> spec_fn(TokenStats) -> nat {
    |t: TokenStats|
        match t.cache_read {
            Some(c) => c as nat,
            None => 0,
        }
}

/// The reasoning tokens; zero where they are not known.
pub open spec fn reasoning_in() -> spec_fn(TokenStats) -> nat {
    |t: TokenStats|
        match t.reasoning {
            Some(r) => r as nat,
            None => 0,
        }
}

/// One of the counts, as a function of token counts.
pub open spec fn count_in(c: Count) -> spec_fn(TokenStats) -> nat {
    match c {
        Count::Total => total_in(),
        Count::Input => input_in(),
        Count::Output => output_in(),
        Count::CacheRead => cache_in(),
        Count::Reasoning => reasoning_in(),
    }
}

/// What an entry adds to a report: its increment, or, where it has none and is the first turn,
/// its count so far.
pub open spec fn added(e: EntryView, f: spec_fn(TokenStats) -> nat) -> nat {
    match (e.delta_tokens, e.tokens) {
        (Some(d), _) => f(d),
        (None, Some(t)) => if e.turn_no == 1 {
            f(t)
        } else {
            0
        },
        _ => 0,
    }
}

/// The increment of an entry.
pub open spec fn increment(e: EntryView, f: spec_fn(TokenStats) -> nat) -> nat {
    match e.delta_tokens {
        Some(d) => f(d),
        None => 0,
    }
}

/// The milliseconds that an entry took: none where it is not known or below zero, and as many
/// as fit in 64 bits.
pub open spec fn milliseconds(e: EntryView) -> nat {
    match e.cost {
        Some(c) => match c.total_api_duration_ms {
            Some(d) => if d < 0 {
                0
            } else if d > 0xffff_ffff_ffff_ffff {
                0xffff_ffff_ffff_ffff
            } else {
                d as nat
            },
            None => 0,
        },
        None => 0,
    }
}

/// The sum over those of the entries that `p` picks.
pub open spec fn sum_where(
    es: Seq<EntryView>,
    p: spec_fn(EntryView) -> bool,
    f: spec_fn(EntryView) -> nat,
) -> nat {
    report_laws::list_sum(
        es,
        |e: EntryView|
            if p(e) {
                f(e)
            } else {
                0
            },
    )
}

/// The sessions of those of the entries that `p` picks.
pub open spec fn sessions_where(es: Seq<EntryView>, p: spec_fn(EntryView) -> bool) -> Set<
    Seq<char>,
> {
    Set::new(
        |id: Seq<char>|
            exists|i: int| 0 <= i < es.len() && p(#[trigger] es[i]) && es[i].session_id == id,
    )
}

/// Every entry.
pub open spec fn any() -> spec_fn(EntryView) -> bool {
    |e: EntryView| true
}

/// The entries of a session.
pub open spec fn of_session(id: Seq<char>) -> spec_fn(EntryView) -> bool {
    |e: EntryView| e.session_id == id
}

pub(crate) proof fn lemma_keyed_is_sum(
    es: Seq<EntryView>,
    key: spec_fn(EntryView) -> Seq<char>,
    v: Seq<char>,
    weight: spec_fn(EntryView) -> nat,
    p: spec_fn(EntryView) -> bool,
    f: spec_fn(EntryView) -> nat,
    n: nat,
)
    requires
        n <= es.len(),
        forall|e: EntryView| #[trigger] p(e) <==> key(e) == v,
        forall|e: EntryView| #[trigger] f(e) == weight(e),
    ensures
        totals::keyed_total(es, key, v, weight, n) == sum_where(es.take(n as int), p, f),
    decreases n,
{
    if n > 0 {
        lemma_keyed_is_sum(es, key, v, weight, p, f, (n - 1) as nat);
        assert(es.take(n as int).drop_last() =~= es.take(n - 1));
        assert(es.take(n as int).last() == es[n - 1]);
        assert(p(es[n - 1]) <==> key(es[n - 1]) == v);
        assert(f(es[n - 1]) == weight(es[n - 1]));
    } else {
        assert(es.take(0) =~= Seq::empty());
    }
}

pub(crate) proof fn lemma_total_is_sum(
    es: Seq<EntryView>,
    weight: spec_fn(EntryView) -> nat,
    f: spec_fn(EntryView) -> nat,
    n: nat,
)
    requires
        n <= es.len(),
        forall|e: EntryView| #[trigger] f(e) == weight(e),
    ensures
        totals::total(es, weight, n) == sum_where(es.take(n as int), any(), f),
    decreases n,
{
    if n > 0 {
        lemma_total_is_sum(es, weight, f, (n - 1) as nat);
        assert(es.take(n as int).drop_last() =~= es.take(n - 1));
        assert(es.take(n as int).last() == es[n - 1]);
        assert(f(es[n - 1]) == weight(es[n - 1]));
    } else {
        assert(es.take(0) =~= Seq::empty());
    }
}

/// What every entry adds, as a function of entries.
pub open spec fn adding(f: spec_fn(TokenStats) -> nat) -> spec_fn(EntryView) -> nat {
    |e: EntryView| added(e, f)
}

/// The increment of every entry, as a function of entries.
pub open spec fn incrementing(f: spec_fn(TokenStats) -> nat) -> spec_fn(EntryView) -> nat {
    |e: EntryView| increment(e, f)
}

/// The time of every entry, as a function of entries.
pub open spec fn timing() -> spec_fn(EntryView) -> nat {
    |e: EntryView| milliseconds(e)
}

pub(crate) proof fn lemma_weights(c: Count)
    ensures
        forall|e: EntryView| #[trigger] adding(count_in(c))(e) == totals::by_count(c)(e),
        forall|e: EntryView| #[trigger] incrementing(count_in(c))(e) == totals::by_increment(c)(e),
        forall|e: EntryView| #[trigger] timing()(e) == daily::by_duration()(e),
{
}

pub(crate) proof fn lemma_count_sum(es: Seq<EntryView>, c: Count)
    ensures
        totals::total(es, totals::by_count(c), es.len()) == sum_where(
            es,
            any(),
            adding(count_in(c)),
        ),
{
    lemma_weights(c);
    lemma_total_is_sum(es, totals::by_count(c), adding(count_in(c)), es.len());
    assert(es.take(es.len() as int) =~= es);
}

pub(crate) proof fn lemma_time_sum(es: Seq<EntryView>)
    ensures
        daily::durations(es) == sum_where(es, any(), timing()),
{
    lemma_weights(Count::Total);
    lemma_total_is_sum(es, daily::by_duration(), timing(), es.len());
    assert(es.take(es.len() as int) =~= es);
}

pub(crate) proof fn lemma_keyed_count_sum(
    es: Seq<EntryView>,
    key: spec_fn(EntryView) -> Seq<char>,
    v: Seq<char>,
    p: spec_fn(EntryView) -> bool,
    c: Count,
)
    requires
        forall|e: EntryView| #[trigger] p(e) <==> key(e) == v,
    ensures
        totals::keyed_total(es, key, v, totals::by_count(c), es.len()) == sum_where(
            es,
            p,
            adding(count_in(c)),
        ),
{
    lemma_weights(c);
    lemma_keyed_is_sum(es, key, v, totals::by_count(c), p, adding(count_in(c)), es.len());
    assert(es.take(es.len() as int) =~= es);
}

/// The sums over a day are those over its entries; every entry is a request.
pub proof fn lemma_day_sums(es: Seq<EntryView>)
    requires
        daily::day_fits(es),
        es.len() <= u64::MAX,
    ensures
        daily::day_summary(es).total_tokens == sum_where(es, any(), adding(total_in())),
        daily::day_summary(es).total_input_tokens == sum_where(es, any(), adding(input_in())),
        daily::day_summary(es).total_output_tokens == sum_where(es, any(), adding(output_in())),
        daily::day_summary(es).total_cache_read_tokens == sum_where(es, any(), adding(cache_in())),
        daily::day_summary(es).total_reasoning_tokens == sum_where(
            es,
            any(),
            adding(reasoning_in()),
        ),
        daily::day_summary(es).total_duration_ms == sum_where(es, any(), timing()),
        daily::day_summary(es).total_requests == es.len(),
{
    assert(totals::total(es, totals::by_count(Count::Total), es.len()) <= u64::MAX);
    assert(totals::total(es, totals::by_count(Count::Input), es.len()) <= u64::MAX);
    assert(totals::total(es, totals::by_count(Count::Output), es.len()) <= u64::MAX);
    assert(totals::total(es, totals::by_count(Count::CacheRead), es.len()) <= u64::MAX);
    assert(totals::total(es, totals::by_count(Count::Reasoning), es.len()) <= u64::MAX);
    lemma_count_sum(es, Count::Total);
    lemma_count_sum(es, Count::Input);
    lemma_count_sum(es, Count::Output);
    lemma_count_sum(es, Count::CacheRead);
    lemma_count_sum(es, Count::Reasoning);
    lemma_time_sum(es);
}

/// The keys of entries, each once, are as many as there are different ones.
pub(crate) proof fn lemma_keys_counted(
    es: Seq<EntryView>,
    p: spec_fn(EntryView) -> bool,
    own: Seq<EntryView>,
)
    requires
        forall|i: int| 0 <= i < own.len() ==> p(#[trigger] own[i]) && es.contains(own[i]),
        forall|i: int| 0 <= i < es.len() && p(#[trigger] es[i]) ==> own.contains(es[i]),
    ensures
        sessions_where(es, p).finite(),
        daily::sessions_of(own).len() == sessions_where(es, p).len(),
{
    let key = totals::session_key();
    let ids = daily::sessions_of(own);
    totals::lemma_keys(own, key, own.len());
    ids.unique_seq_to_set();
    assert forall|id: Seq<char>| ids.to_set().contains(id) <==> sessions_where(es, p).contains(
        id,
    ) by {
        if ids.to_set().contains(id) {
            assert(ids.contains(id));
            let q = ids.index_of(id);
            let i = choose|i: int| 0 <= i < own.len() && key(#[trigger] own[i]) == ids[q];
            assert(p(own[i]) && es.contains(own[i]));
            let j = es.index_of(own[i]);
            assert(p(es[j]) && es[j].session_id == id);
        }
        if sessions_where(es, p).contains(id) {
            let j = choose|j: int|
                0 <= j < es.len() && p(#[trigger] es[j]) && es[j].session_id == id;
            assert(own.contains(es[j]));
            let i = own.index_of(es[j]);
            assert(key(own[i]) == id);
            assert(ids.contains(key(own[i])));
        }
    }
    assert(ids.to_set() =~= sessions_where(es, p));
}

/// The sessions of a day are the different sessions of its entries, and each has a report.
pub proof fn lemma_day_sessions(es: Seq<EntryView>, rules: Seq<RuleView>)
    requires
        es.len() <= usize::MAX,
    ensures
        daily::day_summary(es).total_sessions == sessions_where(es, any()).len(),
        daily::session_reports(es, rules).len() == sessions_where(es, any()).len(),
        forall|i: int|
            0 <= i < es.len() ==> exists|q: int|
                0 <= q < daily::session_reports(es, rules).len() && #[trigger] daily::session_reports(
                    es,
                    rules,
                )[q].session_id == (#[trigger] es[i]).session_id,
        forall|q: int, r: int|
            0 <= q < r < daily::session_reports(es, rules).len() ==> (
            #[trigger] daily::session_reports(es, rules)[q]).session_id != (
            #[trigger] daily::session_reports(es, rules)[r]).session_id,
{
    lemma_keys_counted(es, any(), es);
    let ids = daily::sessions_of(es);
    totals::lemma_keys(es, totals::session_key(), es.len());
    let reports = daily::session_reports(es, rules);
    assert forall|i: int| 0 <= i < es.len() implies exists|q: int|
        0 <= q < reports.len() && #[trigger] reports[q].session_id == (
        #[trigger] es[i]).session_id by {
        assert(ids.contains(totals::session_key()(es[i])));
        let q = ids.index_of(es[i].session_id);
        assert(reports[q].session_id == es[i].session_id);
    }
}

/// The entry at place `i` is the last turn of the session: no entry of it has a higher turn
/// number, and none behind it has the same.
pub open spec fn is_last_turn(es: Seq<EntryView>, id: Seq<char>, i: int) -> bool {
    &&& 0 <= i < es.len()
    &&& es[i].session_id == id
    &&& forall|j: int|
        0 <= j < es.len() && (#[trigger] es[j]).session_id == id ==> es[j].turn_no <= es[i].turn_no
            && (j > i ==> es[j].turn_no < es[i].turn_no)
}

proof fn lemma_last_turn_found(es: Seq<EntryView>, id: Seq<char>, n: nat, i: int)
    requires
        n <= es.len(),
        0 <= i < n,
        es[i].session_id == id,
        forall|j: int|
            0 <= j < n && (#[trigger] es[j]).session_id == id ==> es[j].turn_no <= es[i].turn_no && (
            j > i ==> es[j].turn_no < es[i].turn_no),
    ensures
        daily::last_turn(es, id, n) == Some(i),
    decreases n,
{
    daily::lemma_last_turn(es, id, n);
    if i < n - 1 {
        assert(es[n - 1].session_id == id ==> es[n - 1].turn_no < es[i].turn_no);
        lemma_last_turn_found(es, id, (n - 1) as nat, i);
    } else {
        daily::lemma_last_turn(es, id, (n - 1) as nat);
    }
}

/// The highest turn number that is reported of a session is that of one of its entries, and no
/// entry of the session has a higher one.
pub proof fn lemma_highest_turn_reported(es: Seq<EntryView>, rules: Seq<RuleView>, q: int)
    requires
        0 <= q < daily::session_reports(es, rules).len(),
    ensures
        ({
            let s = daily::session_reports(es, rules)[q];
            &&& exists|i: int|
                0 <= i < es.len() && (#[trigger] es[i]).session_id == s.session_id && es[i].turn_no
                    == s.max_turn_no
            &&& forall|i: int|
                0 <= i < es.len() && (#[trigger] es[i]).session_id == s.session_id ==> es[i].turn_no
                    <= s.max_turn_no
        }),
{
    let id = daily::sessions_of(es)[q];
    let s = daily::session_reports(es, rules)[q];
    assert(s == daily::session_report(es, id, rules));
    totals::lemma_keys(es, totals::session_key(), es.len());
    let j = choose|j: int| 0 <= j < es.len() && totals::session_key()(#[trigger] es[j]) == id;
    daily::lemma_last_turn(es, id, es.len());
    let i = daily::last_turn(es, id, es.len())->0;
    assert(es[i].session_id == s.session_id && es[i].turn_no == s.max_turn_no);
}

/// A session is reported under the name, the directory and the model of its last turn, or
/// under those that stand in for them.
pub proof fn lemma_last_turn_reported(
    es: Seq<EntryView>,
    id: Seq<char>,
    rules: Seq<RuleView>,
    i: int,
)
    requires
        is_last_turn(es, id, i),
    ensures
        ({
            let s = daily::session_report(es, id, rules);
            &&& s.session_id == id
            &&& s.max_turn_no == es[i].turn_no
            &&& es[i].session_name matches Some(name) ==> s.session_name == name
            &&& es[i].session_name is None ==> s.session_name == "Start Coding Session"@
            &&& es[i].cwd matches Some(cwd) ==> s.cwd == cwd
            &&& es[i].cwd is None ==> s.cwd.len() == 0
            &&& es[i].model matches Some(model) ==> s.model == model
            &&& es[i].model is None ==> s.model == "Unknown Model"@
        }),
{
    lemma_last_turn_found(es, id, es.len(), i);
}

/// A session is reported under the time of its first entry.
pub proof fn lemma_first_time_reported(
    es: Seq<EntryView>,
    id: Seq<char>,
    rules: Seq<RuleView>,
    i: int,
)
    requires
        0 <= i < es.len(),
        es[i].session_id == id,
        forall|j: int| 0 <= j < i ==> (#[trigger] es[j]).session_id != id,
    ensures
        daily::session_report(es, id, rules).timestamp == es[i].timestamp,
{
    daily::lemma_last_turn(es, id, es.len());
    let f = daily::first_entry(es, id, es.len())->0;
    if f < i {
        assert(es[f].session_id != id);
    }
    if i < f {
        assert(es[i].session_id != id);
    }
}

/// The time of a session is that of all its entries.
pub proof fn lemma_session_time_reported(es: Seq<EntryView>, id: Seq<char>, rules: Seq<RuleView>)
    requires
        daily::day_fits(es),
    ensures
        daily::session_report(es, id, rules).duration_ms == sum_where(
            es,
            of_session(id),
            timing(),
        ),
{
    let key = totals::session_key();
    lemma_weights(Count::Total);
    lemma_keyed_is_sum(es, key, id, daily::by_duration(), of_session(id), timing(), es.len());
    assert(es.take(es.len() as int) =~= es);
    totals::lemma_keyed_total_bound(es, key, id, daily::by_duration(), es.len());
}

/// The increments of a session.
pub open spec fn gained(es: Seq<EntryView>, id: Seq<char>, f: spec_fn(TokenStats) -> nat) -> nat {
    sum_where(es, of_session(id), incrementing(f))
}

/// A count of optional token counts; zero where there are none.
pub open spec fn count_of(t: Option<TokenStats>, f: spec_fn(TokenStats) -> nat) -> nat {
    match t {
        Some(t) => f(t),
        None => 0,
    }
}

proof fn lemma_gained(es: Seq<EntryView>, id: Seq<char>, c: Count)
    requires
        daily::day_fits(es),
    ensures
        daily::session_gain(es, id, c) == gained(es, id, count_in(c)),
        daily::session_gain(es, id, c) <= u64::MAX,
{
    let key = totals::session_key();
    let weight = totals::by_increment(c);
    lemma_weights(c);
    lemma_keyed_is_sum(es, key, id, weight, of_session(id), incrementing(count_in(c)), es.len());
    assert(es.take(es.len() as int) =~= es);
    totals::lemma_keyed_total_bound(es, key, id, weight, es.len());
    totals::lemma_increments_counted(es, c, es.len());
    assert(totals::total(es, totals::by_count(c), es.len()) <= u64::MAX);
}

/// The counts of a session are its increments; where these have no total, the counts so far of
/// its last turn. The bill is for these counts and for the model that is reported.
pub proof fn lemma_session_counts_reported(
    es: Seq<EntryView>,
    id: Seq<char>,
    rules: Seq<RuleView>,
    i: int,
)
    requires
        daily::day_fits(es),
        is_last_turn(es, id, i),
    ensures
        ({
            let s = daily::session_report(es, id, rules);
            &&& gained(es, id, total_in()) > 0 ==> {
                &&& s.total_tokens == gained(es, id, total_in())
                &&& s.total_input_tokens == gained(es, id, input_in())
                &&& s.total_output_tokens == gained(es, id, output_in())
                &&& s.total_cache_read_tokens == gained(es, id, cache_in())
                &&& s.total_reasoning_tokens == gained(es, id, reasoning_in())
            }
            &&& gained(es, id, total_in()) == 0 ==> {
                &&& s.total_tokens == count_of(es[i].tokens, total_in())
                &&& s.total_input_tokens == count_of(es[i].tokens, input_in())
                &&& s.total_output_tokens == count_of(es[i].tokens, output_in())
                &&& s.total_cache_read_tokens == count_of(es[i].tokens, cache_in())
                &&& s.total_reasoning_tokens == count_of(es[i].tokens, reasoning_in())
            }
            &&& s.bill == pricing::bill(
                rules,
                s.model,
                s.total_input_tokens,
                s.total_output_tokens,
                s.total_cache_read_tokens,
            )
        }),
{
    lemma_last_turn_found(es, id, es.len(), i);
    lemma_gained(es, id, Count::Total);
    lemma_gained(es, id, Count::Input);
    lemma_gained(es, id, Count::Output);
    lemma_gained(es, id, Count::CacheRead);
    lemma_gained(es, id, Count::Reasoning);
}

/// Every session of a day has a last turn.
pub proof fn lemma_has_last_turn(es: Seq<EntryView>, id: Seq<char>, k: int)
    requires
        0 <= k < es.len(),
        es[k].session_id == id,
    ensures
        exists|i: int| is_last_turn(es, id, i),
{
    daily::lemma_last_turn(es, id, es.len());
    let i = daily::last_turn(es, id, es.len())->0;
    lemma_last_of_equals(es, id, es.len());
    assert(is_last_turn(es, id, i));
}

proof fn lemma_last_of_equals(es: Seq<EntryView>, id: Seq<char>, n: nat)
    requires
        n <= es.len(),
    ensures
        daily::last_turn(es, id, n) matches Some(i) ==> forall|j: int|
            i < j < n && (#[trigger] es[j]).session_id == id ==> es[j].turn_no < es[i].turn_no,
    decreases n,
{
    daily::lemma_last_turn(es, id, n);
    if n > 0 {
        lemma_last_of_equals(es, id, (n - 1) as nat);
    }
}

/// The reports on the sessions are those on the different sessions, and nothing else is said
/// of a day.
pub proof fn lemma_reports_are_sessions(es: Seq<EntryView>, rules: Seq<RuleView>, q: int)
    requires
        0 <= q < daily::session_reports(es, rules).len(),
    ensures
        exists|id: Seq<char>|
            #[trigger] sessions_where(es, any()).contains(id) && daily::session_reports(
                es,
                rules,
            )[q] == daily::session_report(es, id, rules),
{
    let id = daily::sessions_of(es)[q];
    totals::lemma_keys(es, totals::session_key(), es.len());
    let i = choose|i: int| 0 <= i < es.len() && totals::session_key()(#[trigger] es[i]) == id;
    assert(any()(es[i]) && es[i].session_id == id);
    assert(sessions_where(es, any()).contains(id));
}

/// There is a report where the five sums of counts and that of the times fit in 64 bits.
pub proof fn lemma_day_fits(es: Seq<EntryView>)
    ensures
        daily::day_fits(es) <==> {
            &&& sum_where(es, any(), adding(total_in())) <= u64::MAX
            &&& sum_where(es, any(), adding(input_in())) <= u64::MAX
            &&& sum_where(es, any(), adding(output_in())) <= u64::MAX
            &&& sum_where(es, any(), adding(cache_in())) <= u64::MAX
            &&& sum_where(es, any(), adding(reasoning_in())) <= u64::MAX
            &&& sum_where(es, any(), timing()) <= u64::MAX
        },
{
    lemma_count_sum(es, Count::Total);
    lemma_count_sum(es, Count::Input);
    lemma_count_sum(es, Count::Output);
    lemma_count_sum(es, Count::CacheRead);
    lemma_count_sum(es, Count::Reasoning);
    lemma_time_sum(es);
    if daily::day_fits(es) {
        assert(totals::total(es, totals::by_count(Count::Total), es.len()) <= u64::MAX);
        assert(totals::total(es, totals::by_count(Count::Input), es.len()) <= u64::MAX);
        assert(totals::total(es, totals::by_count(Count::Output), es.len()) <= u64::MAX);
        assert(totals::total(es, totals::by_count(Count::CacheRead), es.len()) <= u64::MAX);
        assert(totals::total(es, totals::by_count(Count::Reasoning), es.len()) <= u64::MAX);
    }
}

/// An ASCII timestamp begins with a date where it has at least ten characters; these are the
/// date.
pub proof fn lemma_date_of_timestamp(e: EntryView)
    requires
        is_ascii_chars(e.timestamp),
    ensures
        totals::dated(e) <==> e.timestamp.len() >= 10,
        e.timestamp.len() >= 10 ==> totals::date_key()(e) == e.timestamp.take(10),
{
    text_laws::lemma_ascii_cut(e.timestamp, 10);
    if e.timestamp.len() >= 10 {
        text::lemma_ascii_byte_slice(e.timestamp, 0, 10);
        assert(e.timestamp.subrange(0, 10) =~= e.timestamp.take(10));
    }
}

} // verus!
