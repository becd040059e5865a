//! What holds of every report.

use crate::daily;
use crate::daily::SessionView;
use crate::entry;
use crate::entry::{Count, EntryView};
use crate::json::JsonView;
use crate::monthly;
use crate::monthly::{DayView, ModelView, ProjectView};
use crate::order;
use crate::pricing::RuleView;
use crate::rows;
use crate::session;
use crate::session::SourceView;
use crate::text;
use crate::totals;
use vstd::prelude::*;
use vstd::set_lib::*;

verus! {

/// `ranks` holds each of the places below `n` once.
pub open spec fn rearranges(ranks: Seq<usize>, n: nat) -> bool {
    &&& ranks.len() == n
    &&& ranks.no_duplicates()
    &&& forall|a: int| 0 <= a < ranks.len() ==> #[trigger] ranks[a] < n
}

proof fn lemma_every_place_ranked(ranks: Seq<usize>, n: nat, p: usize)
    requires
        rearranges(ranks, n),
        p < n,
    ensures
        ranks.contains(p),
{
    let ints = ranks.map_values(|r: usize| r as int);
    assert(ints.no_duplicates());
    ints.unique_seq_to_set();
    let all = set_int_range(0, n as int);
    lemma_int_range(0, n as int);
    assert forall|x: int| ints.to_set().contains(x) implies all.contains(x) by {
        assert(ints.contains(x));
        let i = ints.index_of(x);
        assert(ints[i] == ranks[i] as int);
    }
    lemma_subset_equality(ints.to_set(), all);
    assert(ints.to_set().contains(p as int));
    assert(ints.contains(p as int));
    let i = ints.index_of(p as int);
    assert(ranks[i] == p);
}

/// The order of a report is determined: only one arrangement of the items is sorted.
pub proof fn lemma_sorted_determined<A>(
    items: Seq<A>,
    one: Seq<A>,
    other: Seq<A>,
    before: spec_fn(A, A) -> bool,
)
    requires
        forall|x: A, y: A| #[trigger] before(x, y) ==> !before(y, x),
        order::sorted(items, one, before),
        order::sorted(items, other, before),
    ensures
        one == other,
{
    let rank_before = order::by_place(items, before);
    let n = items.len();
    let a = choose|ranks: Seq<usize>|
        {
            &&& #[trigger] order::in_order(ranks, items.len(), order::by_place(items, before))
            &&& one == ranks.map_values(|r: usize| items[r as int])
        };
    let b = choose|ranks: Seq<usize>|
        {
            &&& #[trigger] order::in_order(ranks, items.len(), order::by_place(items, before))
            &&& other == ranks.map_values(|r: usize| items[r as int])
        };
    assert forall|k: int| 0 <= k < n implies a[k] == b[k] by {
        lemma_same_rank(a, b, n, rank_before, k);
    }
    assert(a =~= b);
}

proof fn lemma_same_rank(
    a: Seq<usize>,
    b: Seq<usize>,
    n: nat,
    rank_before: spec_fn(int, int) -> bool,
    k: int,
)
    requires
        order::in_order(a, n, rank_before),
        order::in_order(b, n, rank_before),
        forall|i: int, j: int| #[trigger] rank_before(i, j) ==> !rank_before(j, i),
        0 <= k < n,
    ensures
        a[k] == b[k],
    decreases k,
{
    assert forall|j: int| 0 <= j < k implies a[j] == b[j] by {
        lemma_same_rank(a, b, n, rank_before, j);
    }
    if a[k] != b[k] {
        lemma_every_place_ranked(a, n, b[k]);
        lemma_every_place_ranked(b, n, a[k]);
        let i = a.index_of(b[k]);
        let j = b.index_of(a[k]);
        if i < k {
            assert(b[i] == b[k]);
        }
        if j < k {
            assert(a[j] == a[k]);
        }
        assert(order::placed(rank_before, a[k] as int, a[i] as int));
        assert(order::placed(rank_before, b[k] as int, b[j] as int));
        assert(false);
    }
}

/// In a sorted list nothing stands behind what it comes before.
pub proof fn lemma_sorted_in_order<A>(items: Seq<A>, result: Seq<A>, before: spec_fn(A, A) -> bool)
    requires
        forall|x: A, y: A| #[trigger] before(x, y) ==> !before(y, x),
        order::sorted(items, result, before),
    ensures
        result.len() == items.len(),
        forall|i: int, j: int|
            0 <= i < j < result.len() ==> !before(#[trigger] result[j], #[trigger] result[i]),
{
    let ranks = choose|ranks: Seq<usize>|
        {
            &&& #[trigger] order::in_order(ranks, items.len(), order::by_place(items, before))
            &&& result == ranks.map_values(|r: usize| items[r as int])
        };
    assert forall|i: int, j: int| 0 <= i < j < result.len() implies !before(
        #[trigger] result[j],
        #[trigger] result[i],
    ) by {
        assert(order::placed(
            order::by_place(items, before),
            ranks[i] as int,
            ranks[j] as int,
        ));
    }
}

/// A sorted list holds the items and nothing else.
pub proof fn lemma_sorted_holds_items<A>(
    items: Seq<A>,
    result: Seq<A>,
    before: spec_fn(A, A) -> bool,
)
    requires
        order::sorted(items, result, before),
    ensures
        result.len() == items.len(),
        forall|i: int| 0 <= i < items.len() ==> result.contains(#[trigger] items[i]),
        forall|i: int| 0 <= i < result.len() ==> items.contains(#[trigger] result[i]),
{
    let ranks = choose|ranks: Seq<usize>|
        {
            &&& #[trigger] order::in_order(ranks, items.len(), order::by_place(items, before))
            &&& result == ranks.map_values(|r: usize| items[r as int])
        };
    assert forall|i: int| 0 <= i < items.len() implies result.contains(#[trigger] items[i]) by {
        if i <= usize::MAX {
            lemma_every_place_ranked(ranks, items.len(), i as usize);
            let k = ranks.index_of(i as usize);
            assert(result[k] == items[i]);
        } else {
            lemma_no_more_places(ranks, items.len());
        }
    }
    assert forall|i: int| 0 <= i < result.len() implies items.contains(#[trigger] result[i]) by {
        assert(result[i] == items[ranks[i] as int]);
    }
}

proof fn lemma_no_more_places(ranks: Seq<usize>, n: nat)
    requires
        rearranges(ranks, n),
    ensures
        n <= usize::MAX + 1,
{
    let ints = ranks.map_values(|r: usize| r as int);
    assert(ints.no_duplicates());
    ints.unique_seq_to_set();
    let all = set_int_range(0, usize::MAX + 1);
    lemma_int_range(0, usize::MAX + 1);
    assert forall|x: int| ints.to_set().contains(x) implies all.contains(x) by {
        assert(ints.contains(x));
        let i = ints.index_of(x);
        assert(ints[i] == ranks[i] as int);
    }
    lemma_len_subset(ints.to_set(), all);
}

/// The sum over a list.
pub open spec fn list_sum<A>(s: Seq<A>, f: spec_fn(A) -> nat) -> nat
    decreases s.len(),
{
    if s.len() == 0 {
        0
    } else {
        list_sum(s.drop_last(), f) + f(s.last())
    }
}

proof fn lemma_list_sum_without<A>(s: Seq<A>, f: spec_fn(A) -> nat, k: int)
    requires
        0 <= k < s.len(),
    ensures
        list_sum(s, f) == list_sum(s.remove(k), f) + f(s[k]),
    decreases s.len(),
{
    if k == s.len() - 1 {
        assert(s.remove(k) =~= s.drop_last());
    } else {
        lemma_list_sum_without(s.drop_last(), f, k);
        assert(s.remove(k).drop_last() =~= s.drop_last().remove(k));
        assert(s.remove(k).last() == s.last());
    }
}

proof fn lemma_list_sum_rearranged<A>(items: Seq<A>, ranks: Seq<usize>, f: spec_fn(A) -> nat)
    requires
        rearranges(ranks, items.len()),
    ensures
        list_sum(ranks.map_values(|r: usize| items[r as int]), f) == list_sum(items, f),
    decreases items.len(),
{
    let pick = |r: usize| items[r as int];
    let n = items.len();
    if n == 0 {
        assert(ranks.map_values(pick) =~= items);
    } else {
        lemma_no_more_places(ranks, n);
        let last = (n - 1) as usize;
        lemma_every_place_ranked(ranks, n, last);
        let k = ranks.index_of(last);
        let fewer = ranks.remove(k);
        let rest = items.drop_last();
        let pick_rest = |r: usize| rest[r as int];
        assert(fewer.no_duplicates());
        assert forall|a: int| 0 <= a < fewer.len() implies #[trigger] fewer[a] < n - 1 by {
            let b: int = if a < k { a } else { a + 1 };
            assert(fewer[a] == ranks[b]);
            assert(ranks[b] != ranks[k]);
        }
        lemma_list_sum_rearranged(rest, fewer, f);
        assert(ranks.map_values(pick).remove(k) =~= fewer.map_values(pick_rest)) by {
            assert forall|a: int| 0 <= a < fewer.len() implies ranks.map_values(pick).remove(k)[a]
                == fewer.map_values(pick_rest)[a] by {
                assert(fewer[a] < n - 1);
            }
        }
        lemma_list_sum_without(ranks.map_values(pick), f, k);
    }
}

/// Sorting does not change a sum.
pub proof fn lemma_sorted_keeps_sum<A>(
    items: Seq<A>,
    result: Seq<A>,
    before: spec_fn(A, A) -> bool,
    f: spec_fn(A) -> nat,
)
    requires
        order::sorted(items, result, before),
    ensures
        list_sum(result, f) == list_sum(items, f),
{
    let ranks = choose|ranks: Seq<usize>|
        {
            &&& #[trigger] order::in_order(ranks, items.len(), order::by_place(items, before))
            &&& result == ranks.map_values(|r: usize| items[r as int])
        };
    lemma_list_sum_rearranged(items, ranks, f);
}

proof fn lemma_list_sum_by_key<A>(
    es: Seq<EntryView>,
    key: spec_fn(EntryView) -> Seq<char>,
    values: Seq<Seq<char>>,
    weight: spec_fn(EntryView) -> nat,
    report: spec_fn(Seq<char>) -> A,
    f: spec_fn(A) -> nat,
)
    requires
        forall|v: Seq<char>|
            f(#[trigger] report(v)) == totals::keyed_total(es, key, v, weight, es.len()),
    ensures
        list_sum(values.map_values(report), f) == totals::sum_by_key(
            es,
            key,
            values,
            weight,
            es.len(),
        ),
    decreases values.len(),
{
    if values.len() > 0 {
        lemma_list_sum_by_key(es, key, values.drop_last(), weight, report, f);
        assert(values.map_values(report).drop_last() =~= values.drop_last().map_values(report));
        assert(values.map_values(report).last() == report(values.last()));
    } else {
        assert(values.map_values(report) =~= Seq::empty());
    }
}

/// A count of the entry on a day.
pub open spec fn day_amount(c: Count) -> spec_fn(DayView) -> nat {
    |d: DayView|
        match c {
            Count::Total => d.total_tokens as nat,
            Count::Input => d.total_input_tokens as nat,
            Count::Output => d.total_output_tokens as nat,
            Count::Reasoning => d.total_reasoning_tokens as nat,
            Count::CacheRead => d.total_cache_read_tokens as nat,
        }
}

/// The days of a month come to the sums over the month, in every count.
pub proof fn lemma_days_make_month(
    es: Seq<EntryView>,
    rules: Seq<RuleView>,
    days: Seq<DayView>,
    c: Count,
)
    requires
        monthly::month_fits(es),
        order::sorted(monthly::day_reports(es, rules), days, monthly::earliest_first()),
    ensures
        list_sum(days, day_amount(c)) == totals::total(es, totals::by_count(c), es.len()),
{
    let report = |d: Seq<char>| monthly::day_report(monthly::day_group(es, d), d, rules);
    let key = totals::date_key();
    let weight = totals::by_count(c);
    lemma_sorted_keeps_sum(
        monthly::day_reports(es, rules),
        days,
        monthly::earliest_first(),
        day_amount(c),
    );
    assert forall|d: Seq<char>| day_amount(c)(#[trigger] report(d)) == totals::keyed_total(
        es,
        key,
        d,
        weight,
        es.len(),
    ) by {
        totals::lemma_total_of_group(es, key, d, weight, es.len());
        totals::lemma_keyed_total_bound(es, key, d, weight, es.len());
        assert(totals::total(es, weight, es.len()) <= u64::MAX);
    }
    lemma_list_sum_by_key(es, key, monthly::dates_of(es), weight, report, day_amount(c));
    totals::lemma_sums_by_key(es, key, weight, es.len());
}

/// The days of a month come to the durations of the month.
pub proof fn lemma_day_durations_make_month(
    es: Seq<EntryView>,
    rules: Seq<RuleView>,
    days: Seq<DayView>,
)
    requires
        monthly::month_fits(es),
        order::sorted(monthly::day_reports(es, rules), days, monthly::earliest_first()),
    ensures
        list_sum(days, |d: DayView| d.total_duration_ms as nat) == monthly::month_summary(
            es,
        ).total_duration_ms,
{
    let durations = |d: DayView| d.total_duration_ms as nat;
    let report = |d: Seq<char>| monthly::day_report(monthly::day_group(es, d), d, rules);
    let key = totals::date_key();
    let weight = daily::by_duration();
    lemma_sorted_keeps_sum(
        monthly::day_reports(es, rules),
        days,
        monthly::earliest_first(),
        durations,
    );
    assert forall|d: Seq<char>| durations(#[trigger] report(d)) == totals::keyed_total(
        es,
        key,
        d,
        weight,
        es.len(),
    ) by {
        totals::lemma_total_of_group(es, key, d, weight, es.len());
        totals::lemma_keyed_total_bound(es, key, d, weight, es.len());
    }
    lemma_list_sum_by_key(es, key, monthly::dates_of(es), weight, report, durations);
    totals::lemma_sums_by_key(es, key, weight, es.len());
}

/// The days of a month come to the requests of the month.
pub proof fn lemma_day_requests_make_month(
    es: Seq<EntryView>,
    rules: Seq<RuleView>,
    days: Seq<DayView>,
)
    requires
        monthly::month_fits(es),
        order::sorted(monthly::day_reports(es, rules), days, monthly::earliest_first()),
    ensures
        list_sum(days, |d: DayView| d.total_requests as nat) == monthly::month_summary(
            es,
        ).total_requests,
{
    let requests = |d: DayView| d.total_requests as nat;
    let reports = monthly::day_reports(es, rules);
    let dates = monthly::dates_of(es);
    lemma_sorted_keeps_sum(reports, days, monthly::earliest_first(), requests);
    lemma_requests_sum(es, rules, dates, dates.len() as int);
    assert(reports.take(dates.len() as int) =~= reports);
    assert(dates.take(dates.len() as int) =~= dates);
}

proof fn lemma_requests_sum(
    es: Seq<EntryView>,
    rules: Seq<RuleView>,
    dates: Seq<Seq<char>>,
    k: int,
)
    requires
        monthly::month_fits(es),
        dates == monthly::dates_of(es),
        0 <= k <= dates.len(),
    ensures
        list_sum(
            monthly::day_reports(es, rules).take(k),
            |d: DayView| d.total_requests as nat,
        ) == monthly::month_requests(es, dates.take(k)),
    decreases k,
{
    let reports = monthly::day_reports(es, rules);
    if k > 0 {
        lemma_requests_sum(es, rules, dates, k - 1);
        assert(reports.take(k).drop_last() =~= reports.take(k - 1));
        assert(dates.take(k).drop_last() =~= dates.take(k - 1));
        assert(dates.take(k).last() == dates[k - 1]);
        assert(reports.take(k).last() == monthly::day_report(
            monthly::day_group(es, dates[k - 1]),
            dates[k - 1],
            rules,
        ));
        monthly::lemma_month_grow(es, dates, k);
    } else {
        assert(reports.take(0) =~= Seq::empty());
        assert(dates.take(0) =~= Seq::empty());
    }
}

/// A count of a model; zero for the count that is not reported.
pub open spec fn model_amount(c: Count) -> spec_fn(ModelView) -> nat {
    |m: ModelView|
        match c {
            Count::Total => m.total_tokens as nat,
            Count::Input => m.total_input_tokens as nat,
            Count::Output => m.total_output_tokens as nat,
            Count::Reasoning => 0,
            Count::CacheRead => m.total_cache_read_tokens as nat,
        }
}

/// The models of a month come to the sums over the month, in every count that is reported
/// of a model.
pub proof fn lemma_models_make_month(
    es: Seq<EntryView>,
    rules: Seq<RuleView>,
    models: Seq<ModelView>,
    c: Count,
)
    requires
        monthly::month_fits(es),
        order::sorted(monthly::model_reports(es, rules), models, monthly::busiest_model_first()),
        !(c is Reasoning),
    ensures
        list_sum(models, model_amount(c)) == totals::total(es, totals::by_count(c), es.len()),
{
    let report = |m: Seq<char>| monthly::model_report(es, m, rules);
    let key = totals::model_key();
    let weight = totals::by_count(c);
    lemma_sorted_keeps_sum(
        monthly::model_reports(es, rules),
        models,
        monthly::busiest_model_first(),
        model_amount(c),
    );
    assert forall|m: Seq<char>| model_amount(c)(#[trigger] report(m)) == totals::keyed_total(
        es,
        key,
        m,
        weight,
        es.len(),
    ) by {
        totals::lemma_keyed_total_bound(es, key, m, weight, es.len());
        assert(totals::total(es, weight, es.len()) <= u64::MAX);
    }
    lemma_list_sum_by_key(
        es,
        key,
        totals::keys(es, key, es.len()),
        weight,
        report,
        model_amount(c),
    );
    totals::lemma_sums_by_key(es, key, weight, es.len());
}

/// The total of a project.
pub open spec fn project_total() -> spec_fn(ProjectView) -> nat {
    |p: ProjectView| p.total_tokens as nat
}

/// The projects of a month come to the total over the month.
pub proof fn lemma_projects_make_month(es: Seq<EntryView>, projects: Seq<ProjectView>)
    requires
        monthly::month_fits(es),
        order::sorted(
            monthly::project_reports(es),
            projects,
            monthly::busiest_project_first(),
        ),
    ensures
        list_sum(projects, project_total()) == totals::total(
            es,
            totals::by_count(Count::Total),
            es.len(),
        ),
{
    let report = |p: Seq<char>| monthly::project_report(es, p);
    let key = totals::project_key();
    let weight = totals::by_count(Count::Total);
    lemma_sorted_keeps_sum(
        monthly::project_reports(es),
        projects,
        monthly::busiest_project_first(),
        project_total(),
    );
    assert forall|p: Seq<char>| project_total()(#[trigger] report(p)) == totals::keyed_total(
        es,
        key,
        p,
        weight,
        es.len(),
    ) by {
        totals::lemma_keyed_total_bound(es, key, p, weight, es.len());
        assert(totals::total(es, weight, es.len()) <= u64::MAX);
    }
    lemma_list_sum_by_key(
        es,
        key,
        totals::keys(es, key, es.len()),
        weight,
        report,
        project_total(),
    );
    totals::lemma_sums_by_key(es, key, weight, es.len());
}

/// A count of a session.
pub open spec fn session_count_of(c: Count) -> spec_fn(SessionView) -> nat {
    |s: SessionView|
        match c {
            Count::Total => s.total_tokens as nat,
            Count::Input => s.total_input_tokens as nat,
            Count::Output => s.total_output_tokens as nat,
            Count::Reasoning => s.total_reasoning_tokens as nat,
            Count::CacheRead => s.total_cache_read_tokens as nat,
        }
}

/// The durations of the sessions of a day come to the duration of the day.
pub proof fn lemma_session_durations_make_day(
    es: Seq<EntryView>,
    rules: Seq<RuleView>,
    sessions: Seq<SessionView>,
)
    requires
        daily::day_fits(es),
        order::sorted(daily::session_reports(es, rules), sessions, daily::newest_first()),
    ensures
        list_sum(sessions, |s: SessionView| s.duration_ms as nat) == daily::day_summary(
            es,
        ).total_duration_ms,
{
    let durations = |s: SessionView| s.duration_ms as nat;
    let report = |id: Seq<char>| daily::session_report(es, id, rules);
    let key = totals::session_key();
    let weight = daily::by_duration();
    lemma_sorted_keeps_sum(
        daily::session_reports(es, rules),
        sessions,
        daily::newest_first(),
        durations,
    );
    assert forall|id: Seq<char>| durations(#[trigger] report(id)) == totals::keyed_total(
        es,
        key,
        id,
        weight,
        es.len(),
    ) by {
        totals::lemma_keyed_total_bound(es, key, id, weight, es.len());
    }
    lemma_list_sum_by_key(es, key, daily::sessions_of(es), weight, report, durations);
    totals::lemma_sums_by_key(es, key, weight, es.len());
}

/// Where every entry has increments and every session has gained tokens, the sessions of a
/// day come to the sums over the day.
pub proof fn lemma_sessions_make_day(
    es: Seq<EntryView>,
    rules: Seq<RuleView>,
    sessions: Seq<SessionView>,
    c: Count,
)
    requires
        daily::day_fits(es),
        order::sorted(daily::session_reports(es, rules), sessions, daily::newest_first()),
        forall|i: int| 0 <= i < es.len() ==> (#[trigger] es[i]).delta_tokens is Some,
        forall|q: int|
            0 <= q < daily::sessions_of(es).len() ==> daily::session_gain(
                es,
                #[trigger] daily::sessions_of(es)[q],
                Count::Total,
            ) > 0,
    ensures
        list_sum(sessions, session_count_of(c)) == totals::total(
            es,
            totals::by_count(c),
            es.len(),
        ),
{
    let key = totals::session_key();
    let weight = totals::by_increment(c);
    let ids = daily::sessions_of(es);
    lemma_sorted_keeps_sum(
        daily::session_reports(es, rules),
        sessions,
        daily::newest_first(),
        session_count_of(c),
    );
    lemma_gains_sum(es, rules, ids, c, ids.len() as int);
    assert(ids.take(ids.len() as int) =~= ids);
    assert(daily::session_reports(es, rules).take(ids.len() as int)
        =~= daily::session_reports(es, rules));
    totals::lemma_sums_by_key(es, key, weight, es.len());
    lemma_all_increments(es, c, es.len());
}

proof fn lemma_gains_sum(
    es: Seq<EntryView>,
    rules: Seq<RuleView>,
    ids: Seq<Seq<char>>,
    c: Count,
    k: int,
)
    requires
        daily::day_fits(es),
        ids == daily::sessions_of(es),
        0 <= k <= ids.len(),
        forall|q: int|
            0 <= q < ids.len() ==> daily::session_gain(es, #[trigger] ids[q], Count::Total) > 0,
    ensures
        list_sum(daily::session_reports(es, rules).take(k), session_count_of(c))
            == totals::sum_by_key(
            es,
            totals::session_key(),
            ids.take(k),
            totals::by_increment(c),
            es.len(),
        ),
    decreases k,
{
    let reports = daily::session_reports(es, rules);
    if k > 0 {
        lemma_gains_sum(es, rules, ids, c, k - 1);
        assert(reports.take(k).drop_last() =~= reports.take(k - 1));
        assert(ids.take(k).drop_last() =~= ids.take(k - 1));
        let id = ids[k - 1];
        assert(reports.take(k).last() == daily::session_report(es, id, rules));
        assert(daily::session_gain(es, id, Count::Total) > 0);
        totals::lemma_keyed_total_bound(
            es,
            totals::session_key(),
            id,
            totals::by_increment(c),
            es.len(),
        );
        totals::lemma_increments_counted(es, c, es.len());
        assert(totals::total(es, totals::by_count(c), es.len()) <= u64::MAX);
    } else {
        assert(reports.take(0) =~= Seq::empty());
        assert(ids.take(0) =~= Seq::empty());
    }
}

proof fn lemma_all_increments(es: Seq<EntryView>, c: Count, n: nat)
    requires
        n <= es.len(),
        forall|i: int| 0 <= i < es.len() ==> (#[trigger] es[i]).delta_tokens is Some,
    ensures
        totals::total(es, totals::by_increment(c), n) == totals::total(es, totals::by_count(c), n),
    decreases n,
{
    if n > 0 {
        lemma_all_increments(es, c, (n - 1) as nat);
    }
}

/// The entries of a session as they are read back from their rows.
pub open spec fn read_back(es: Seq<EntryView>, date: Seq<char>) -> Seq<EntryView> {
    es.map_values(|e: EntryView| rows::entry_in(rows::row_for(e, date)))
}

/// What is reported of a session whose counts never fall is what its last turn shows.
pub proof fn lemma_session_reported(
    events: Seq<JsonView>,
    source: SourceView,
    date: Seq<char>,
    c: Count,
)
    requires
        session::session_entries(events, source).len() > 0,
        forall|j: int|
            0 < j < session::session_entries(events, source).len() ==> entry::amount(
                session::session_entries(events, source)[j - 1].tokens->0,
                c,
            ) <= entry::amount(
                (#[trigger] session::session_entries(events, source)[j]).tokens->0,
                c,
            ),
    ensures
        ({
            let es = session::session_entries(events, source);
            totals::total(read_back(es, date), totals::by_count(c), es.len()) == entry::amount(
                es.last().tokens->0,
                c,
            )
        }),
{
    let es = session::session_entries(events, source);
    lemma_gained_is_reported(events, source, date, c, es.len());
    session::lemma_increments_sum(events, source, c, es.len());
}

proof fn lemma_gained_is_reported(
    events: Seq<JsonView>,
    source: SourceView,
    date: Seq<char>,
    c: Count,
    n: nat,
)
    requires
        n <= session::session_entries(events, source).len(),
    ensures
        totals::total(
            read_back(session::session_entries(events, source), date),
            totals::by_count(c),
            n,
        ) == session::gained_in_turns(events, source, c, n),
    decreases n,
{
    if n > 0 {
        lemma_gained_is_reported(events, source, date, c, (n - 1) as nat);
        let es = session::session_entries(events, source);
        let e = es[n - 1];
        assert(read_back(es, date)[n - 1] == rows::entry_in(rows::row_for(e, date)));
        rows::lemma_columns_kept(e.delta_tokens);
    }
}

/// The requests of a day are the entries of its sessions.
pub proof fn lemma_requests_by_session(es: Seq<EntryView>)
    ensures
        totals::sum_by_key(
            es,
            totals::session_key(),
            daily::sessions_of(es),
            totals::by_one(),
            es.len(),
        ) == es.len(),
{
    totals::lemma_sums_by_key(es, totals::session_key(), totals::by_one(), es.len());
    lemma_count_all(es, es.len());
}

proof fn lemma_count_all(es: Seq<EntryView>, n: nat)
    ensures
        totals::total(es, totals::by_one(), n) == n,
    decreases n,
{
    if n > 0 {
        lemma_count_all(es, (n - 1) as nat);
    }
}

/// The sessions of a day are listed newest first, and as many as the summary counts.
pub proof fn lemma_sessions_newest_first(
    es: Seq<EntryView>,
    rules: Seq<RuleView>,
    sessions: Seq<SessionView>,
)
    requires
        es.len() <= usize::MAX,
        order::sorted(daily::session_reports(es, rules), sessions, daily::newest_first()),
    ensures
        sessions.len() == daily::day_summary(es).total_sessions,
        forall|i: int, j: int|
            0 <= i < j < sessions.len() ==> !text::text_before(
                (#[trigger] sessions[i]).timestamp,
                (#[trigger] sessions[j]).timestamp,
            ),
{
    let before = daily::newest_first();
    assert forall|x: SessionView, y: SessionView| #[trigger] before(x, y) implies !before(y, x) by {
        if before(x, y) && before(y, x) {
            text::lemma_text_before_transitive(x.timestamp, y.timestamp, x.timestamp);
            text::lemma_text_before_irreflexive(x.timestamp);
        }
    }
    lemma_sorted_in_order(daily::session_reports(es, rules), sessions, before);
    totals::lemma_keys(es, totals::session_key(), es.len());
    assert forall|i: int, j: int| 0 <= i < j < sessions.len() implies !text::text_before(
        (#[trigger] sessions[i]).timestamp,
        (#[trigger] sessions[j]).timestamp,
    ) by {
        assert(!before(sessions[j], sessions[i]));
    }
}

/// The days of a month are listed in strictly ascending order, each date once.
pub proof fn lemma_days_ascend(es: Seq<EntryView>, rules: Seq<RuleView>, days: Seq<DayView>)
    requires
        order::sorted(monthly::day_reports(es, rules), days, monthly::earliest_first()),
    ensures
        days.len() == monthly::dates_of(es).len(),
        forall|i: int, j: int|
            0 <= i < j < days.len() ==> text::text_before(
                (#[trigger] days[i]).date,
                (#[trigger] days[j]).date,
            ),
{
    let items = monthly::day_reports(es, rules);
    let before = monthly::earliest_first();
    let ranks = choose|ranks: Seq<usize>|
        {
            &&& #[trigger] order::in_order(ranks, items.len(), order::by_place(items, before))
            &&& days == ranks.map_values(|r: usize| items[r as int])
        };
    totals::lemma_keys(es, totals::date_key(), es.len());
    assert forall|i: int, j: int| 0 <= i < j < days.len() implies text::text_before(
        (#[trigger] days[i]).date,
        (#[trigger] days[j]).date,
    ) by {
        let a = ranks[i] as int;
        let b = ranks[j] as int;
        assert(order::placed(order::by_place(items, before), a, b));
        assert(days[i] == items[a] && days[j] == items[b]);
        if !text::text_before(items[a].date, items[b].date) {
            text::lemma_text_before_total(items[a].date, items[b].date);
            assert(monthly::dates_of(es)[a] == monthly::dates_of(es)[b]);
        }
    }
}

} // verus!
