//! What the report on a month says of its entries.

use crate::daily;
use crate::daily_laws;
use crate::entry::{Count, EntryView};
use crate::monthly;
use crate::monthly::{ModelView, ProjectView};
use crate::order;
use crate::pricing;
use crate::pricing::RuleView;
use crate::report_laws;
use crate::text;
use crate::totals;
use vstd::prelude::*;
use vstd::set_lib::*;

verus! {

/// The entries of a date: their timestamps begin with its ten bytes.
pub open spec fn of_date(date: Seq<char>) -> spec_fn(EntryView) -> bool {
    |e: EntryView| text::byte_slice(e.timestamp, 0, 10) == date
}

/// The entries of a model; those without one are of `Unknown Model`.
pub open spec fn of_model(model: Seq<char>) -> spec_fn(EntryView) -> bool {
    |e: EntryView|
        match e.model {
            Some(m) => m == model,
            None => model == "Unknown Model"@,
        }
}

/// The entries of a project; those without a working directory are of `Unknown Path`.
pub open spec fn of_project(project: Seq<char>) -> spec_fn(EntryView) -> bool {
    |e: EntryView|
        match e.cwd {
            Some(cwd) => cwd == project,
            None => project == "Unknown Path"@,
        }
}

proof fn lemma_group_is_filter(
    es: Seq<EntryView>,
    key: spec_fn(EntryView) -> Seq<char>,
    v: Seq<char>,
    p: spec_fn(EntryView) -> bool,
    n: nat,
)
    requires
        n <= es.len(),
        forall|e: EntryView| #[trigger] p(e) <==> key(e) == v,
    ensures
        totals::group(es, key, v, n) == es.take(n as int).filter(p),
    decreases n,
{
    reveal(Seq::filter);
    if n > 0 {
        lemma_group_is_filter(es, key, v, p, (n - 1) as nat);
        assert(es.take(n as int).drop_last() =~= es.take(n - 1));
        assert(es.take(n as int).last() == es[n - 1]);
        assert(p(es[n - 1]) <==> key(es[n - 1]) == v);
    } else {
        assert(es.take(0) =~= Seq::empty());
    }
}

proof fn lemma_group_members(
    es: Seq<EntryView>,
    key: spec_fn(EntryView) -> Seq<char>,
    v: Seq<char>,
    p: spec_fn(EntryView) -> bool,
)
    requires
        forall|e: EntryView| #[trigger] p(e) <==> key(e) == v,
    ensures
        ({
            let own = totals::group(es, key, v, es.len());
            &&& forall|i: int| 0 <= i < own.len() ==> p(#[trigger] own[i]) && es.contains(own[i])
            &&& forall|i: int| 0 <= i < es.len() && p(#[trigger] es[i]) ==> own.contains(es[i])
        }),
{
    broadcast use vstd::seq_lib::group_filter_ensures;

    let own = totals::group(es, key, v, es.len());
    lemma_group_is_filter(es, key, v, p, es.len());
    assert(es.take(es.len() as int) =~= es);
    totals::lemma_group(es, key, v, es.len());
    assert forall|i: int| 0 <= i < es.len() && p(#[trigger] es[i]) implies own.contains(es[i]) by {
        assert(es.filter(p).contains(es[i]));
    }
}

/// The entries of a day are those of its date, in their order.
pub proof fn lemma_day_entries(es: Seq<EntryView>, date: Seq<char>)
    ensures
        monthly::day_group(es, date) == es.filter(of_date(date)),
{
    lemma_group_is_filter(es, totals::date_key(), date, of_date(date), es.len());
    assert(es.take(es.len() as int) =~= es);
}

/// The entries of a month are those whose timestamps begin with it, in their order; of what
/// names no month they are all entries.
pub proof fn lemma_month_is_filter(es: Seq<EntryView>, year_month: Seq<char>)
    ensures
        monthly::names_month(year_month) ==> monthly::month_entries(es, year_month) == es.filter(
            |e: EntryView| text::begins_with(e.timestamp, year_month + "-"@),
        ),
        !monthly::names_month(year_month) ==> monthly::month_entries(es, year_month) == es,
{
    if monthly::names_month(year_month) {
        lemma_month_filtered(es, year_month, es.len());
    } else {
        monthly::lemma_pattern_keeps_all(es, year_month, es.len());
    }
    assert(es.take(es.len() as int) =~= es);
}

proof fn lemma_month_filtered(es: Seq<EntryView>, year_month: Seq<char>, n: nat)
    requires
        n <= es.len(),
        monthly::names_month(year_month),
    ensures
        monthly::month_group(es, year_month, n) == es.take(n as int).filter(
            |e: EntryView| text::begins_with(e.timestamp, year_month + "-"@),
        ),
    decreases n,
{
    reveal(Seq::filter);
    if n > 0 {
        lemma_month_filtered(es, year_month, (n - 1) as nat);
        assert(es.take(n as int).drop_last() =~= es.take(n - 1));
        assert(es.take(n as int).last() == es[n - 1]);
    } else {
        assert(es.take(0) =~= Seq::empty());
    }
}

/// The sums over a month are those over its entries, and its sessions are their different
/// sessions.
pub proof fn lemma_month_sums(es: Seq<EntryView>)
    requires
        monthly::month_fits(es),
        es.len() <= usize::MAX,
    ensures
        ({
            let s = monthly::month_summary(es);
            let any = daily_laws::any();
            &&& s.total_sessions == daily_laws::sessions_where(es, any).len()
            &&& s.total_tokens == daily_laws::sum_where(
                es,
                any,
                daily_laws::adding(daily_laws::total_in()),
            )
            &&& s.total_input_tokens == daily_laws::sum_where(
                es,
                any,
                daily_laws::adding(daily_laws::input_in()),
            )
            &&& s.total_output_tokens == daily_laws::sum_where(
                es,
                any,
                daily_laws::adding(daily_laws::output_in()),
            )
            &&& s.total_cache_read_tokens == daily_laws::sum_where(
                es,
                any,
                daily_laws::adding(daily_laws::cache_in()),
            )
            &&& s.total_reasoning_tokens == daily_laws::sum_where(
                es,
                any,
                daily_laws::adding(daily_laws::reasoning_in()),
            )
            &&& s.total_duration_ms == daily_laws::sum_where(es, any, daily_laws::timing())
        }),
{
    lemma_fits(es);
    daily_laws::lemma_count_sum(es, Count::Total);
    daily_laws::lemma_count_sum(es, Count::Input);
    daily_laws::lemma_count_sum(es, Count::Output);
    daily_laws::lemma_count_sum(es, Count::CacheRead);
    daily_laws::lemma_count_sum(es, Count::Reasoning);
    daily_laws::lemma_time_sum(es);
    daily_laws::lemma_keys_counted(es, daily_laws::any(), es);
    totals::lemma_keys(es, totals::session_key(), es.len());
}

proof fn lemma_fits(es: Seq<EntryView>)
    requires
        monthly::month_fits(es),
    ensures
        totals::total(es, totals::by_count(Count::Total), es.len()) <= u64::MAX,
        totals::total(es, totals::by_count(Count::Input), es.len()) <= u64::MAX,
        totals::total(es, totals::by_count(Count::Output), es.len()) <= u64::MAX,
        totals::total(es, totals::by_count(Count::CacheRead), es.len()) <= u64::MAX,
        totals::total(es, totals::by_count(Count::Reasoning), es.len()) <= u64::MAX,
{
}

proof fn lemma_keyed_count(
    es: Seq<EntryView>,
    key: spec_fn(EntryView) -> Seq<char>,
    v: Seq<char>,
    p: spec_fn(EntryView) -> bool,
    c: Count,
)
    requires
        monthly::month_fits(es),
        forall|e: EntryView| #[trigger] p(e) <==> key(e) == v,
    ensures
        totals::keyed_total(es, key, v, totals::by_count(c), es.len()) == daily_laws::sum_where(
            es,
            p,
            daily_laws::adding(daily_laws::count_in(c)),
        ),
        totals::keyed_total(es, key, v, totals::by_count(c), es.len()) <= u64::MAX,
        totals::total(
            totals::group(es, key, v, es.len()),
            totals::by_count(c),
            totals::group(es, key, v, es.len()).len(),
        ) == totals::keyed_total(es, key, v, totals::by_count(c), es.len()),
{
    daily_laws::lemma_keyed_count_sum(es, key, v, p, c);
    totals::lemma_keyed_total_bound(es, key, v, totals::by_count(c), es.len());
    totals::lemma_total_of_group(es, key, v, totals::by_count(c), es.len());
    assert(totals::total(es, totals::by_count(c), es.len()) <= u64::MAX);
}

proof fn lemma_keyed_sessions(
    es: Seq<EntryView>,
    key: spec_fn(EntryView) -> Seq<char>,
    v: Seq<char>,
    p: spec_fn(EntryView) -> bool,
)
    requires
        forall|e: EntryView| #[trigger] p(e) <==> key(e) == v,
    ensures
        daily_laws::sessions_where(es, p).finite(),
        daily::sessions_of(totals::group(es, key, v, es.len())).len()
            == daily_laws::sessions_where(es, p).len(),
        daily_laws::sessions_where(es, p).len() <= daily_laws::sessions_where(
            es,
            daily_laws::any(),
        ).len(),
        daily_laws::sessions_where(es, daily_laws::any()).len() <= es.len(),
{
    lemma_group_members(es, key, v, p);
    daily_laws::lemma_keys_counted(es, p, totals::group(es, key, v, es.len()));
    daily_laws::lemma_keys_counted(es, daily_laws::any(), es);
    totals::lemma_keys(es, totals::session_key(), es.len());
    let some = daily_laws::sessions_where(es, p);
    let all = daily_laws::sessions_where(es, daily_laws::any());
    assert forall|id: Seq<char>| some.contains(id) implies all.contains(id) by {
        let i = choose|i: int| 0 <= i < es.len() && p(#[trigger] es[i]) && es[i].session_id == id;
        assert(daily_laws::any()(es[i]));
    }
    lemma_len_subset(some, all);
}

/// What is reported on a model is the sum over its entries, and as many sessions as have an
/// entry of it; its bill is for these counts.
pub proof fn lemma_model_reported(es: Seq<EntryView>, model: Seq<char>, rules: Seq<RuleView>)
    requires
        monthly::month_fits(es),
        es.len() <= usize::MAX,
    ensures
        ({
            let m = monthly::model_report(es, model, rules);
            let own = of_model(model);
            &&& m.model == model
            &&& m.session_count == daily_laws::sessions_where(es, own).len()
            &&& m.total_tokens == daily_laws::sum_where(
                es,
                own,
                daily_laws::adding(daily_laws::total_in()),
            )
            &&& m.total_input_tokens == daily_laws::sum_where(
                es,
                own,
                daily_laws::adding(daily_laws::input_in()),
            )
            &&& m.total_output_tokens == daily_laws::sum_where(
                es,
                own,
                daily_laws::adding(daily_laws::output_in()),
            )
            &&& m.total_cache_read_tokens == daily_laws::sum_where(
                es,
                own,
                daily_laws::adding(daily_laws::cache_in()),
            )
            &&& m.bill == pricing::bill(
                rules,
                model,
                m.total_input_tokens,
                m.total_output_tokens,
                m.total_cache_read_tokens,
            )
            &&& m.session_count <= monthly::month_summary(es).total_sessions
        }),
{
    let key = totals::model_key();
    let own = of_model(model);
    assert forall|e: EntryView| #[trigger] own(e) <==> key(e) == model by {}
    lemma_keyed_count(es, key, model, own, Count::Total);
    lemma_keyed_count(es, key, model, own, Count::Input);
    lemma_keyed_count(es, key, model, own, Count::Output);
    lemma_keyed_count(es, key, model, own, Count::CacheRead);
    lemma_keyed_sessions(es, key, model, own);
    lemma_month_sums(es);
}

/// What is reported on a project is the sum over its entries, and as many sessions as have an
/// entry of it.
pub proof fn lemma_project_reported(es: Seq<EntryView>, project: Seq<char>)
    requires
        monthly::month_fits(es),
        es.len() <= usize::MAX,
    ensures
        ({
            let p = monthly::project_report(es, project);
            let own = of_project(project);
            &&& p.project == project
            &&& p.session_count == daily_laws::sessions_where(es, own).len()
            &&& p.total_tokens == daily_laws::sum_where(
                es,
                own,
                daily_laws::adding(daily_laws::total_in()),
            )
            &&& p.total_cache_read_tokens == daily_laws::sum_where(
                es,
                own,
                daily_laws::adding(daily_laws::cache_in()),
            )
            &&& p.session_count <= monthly::month_summary(es).total_sessions
        }),
{
    let key = totals::project_key();
    let own = of_project(project);
    assert forall|e: EntryView| #[trigger] own(e) <==> key(e) == project by {}
    lemma_keyed_count(es, key, project, own, Count::Total);
    lemma_keyed_count(es, key, project, own, Count::CacheRead);
    lemma_keyed_sessions(es, key, project, own);
    lemma_month_sums(es);
}

/// A further turn of a session under a model and in a directory that the session already has
/// there makes no model and no project have more sessions.
pub proof fn lemma_further_turn_is_no_session(
    es: Seq<EntryView>,
    e: EntryView,
    i: int,
    model: Seq<char>,
    project: Seq<char>,
    rules: Seq<RuleView>,
)
    requires
        monthly::month_fits(es),
        monthly::month_fits(es.push(e)),
        es.len() < usize::MAX,
        0 <= i < es.len(),
        es[i].session_id == e.session_id,
        es[i].model == e.model,
        es[i].cwd == e.cwd,
    ensures
        monthly::model_report(es.push(e), model, rules).session_count == monthly::model_report(
            es,
            model,
            rules,
        ).session_count,
        monthly::project_report(es.push(e), project).session_count == monthly::project_report(
            es,
            project,
        ).session_count,
{
    lemma_model_reported(es, model, rules);
    lemma_model_reported(es.push(e), model, rules);
    lemma_project_reported(es, project);
    lemma_project_reported(es.push(e), project);
    lemma_same_sessions(es, e, i, of_model(model));
    lemma_same_sessions(es, e, i, of_project(project));
}

proof fn lemma_same_sessions(
    es: Seq<EntryView>,
    e: EntryView,
    i: int,
    p: spec_fn(EntryView) -> bool,
)
    requires
        0 <= i < es.len(),
        es[i].session_id == e.session_id,
        p(es[i]) == p(e),
    ensures
        daily_laws::sessions_where(es.push(e), p) == daily_laws::sessions_where(es, p),
{
    let more = es.push(e);
    assert forall|id: Seq<char>| daily_laws::sessions_where(more, p).contains(id)
        <==> daily_laws::sessions_where(es, p).contains(id) by {
        if daily_laws::sessions_where(more, p).contains(id) {
            let j = choose|j: int|
                0 <= j < more.len() && p(#[trigger] more[j]) && more[j].session_id == id;
            if j < es.len() {
                assert(es[j] == more[j]);
            } else {
                assert(p(es[i]) && es[i].session_id == id);
            }
        }
        if daily_laws::sessions_where(es, p).contains(id) {
            let j = choose|j: int|
                0 <= j < es.len() && p(#[trigger] es[j]) && es[j].session_id == id;
            assert(more[j] == es[j]);
        }
    }
    assert(daily_laws::sessions_where(more, p) =~= daily_laws::sessions_where(es, p));
}

/// Every model and every project of a month has one report.
pub proof fn lemma_models_and_projects_listed(es: Seq<EntryView>, rules: Seq<RuleView>, i: int)
    requires
        0 <= i < es.len(),
    ensures
        exists|q: int|
            0 <= q < monthly::model_reports(es, rules).len() && of_model(
                (#[trigger] monthly::model_reports(es, rules)[q]).model,
            )(es[i]),
        exists|q: int|
            0 <= q < monthly::project_reports(es).len() && of_project(
                (#[trigger] monthly::project_reports(es)[q]).project,
            )(es[i]),
        forall|q: int, r: int|
            0 <= q < r < monthly::model_reports(es, rules).len() ==> (
            #[trigger] monthly::model_reports(es, rules)[q]).model != (
            #[trigger] monthly::model_reports(es, rules)[r]).model,
        forall|q: int, r: int|
            0 <= q < r < monthly::project_reports(es).len() ==> (#[trigger] monthly::project_reports(
                es,
            )[q]).project != (#[trigger] monthly::project_reports(es)[r]).project,
        forall|q: int|
            0 <= q < monthly::model_reports(es, rules).len() ==> #[trigger] monthly::model_reports(
                es,
                rules,
            )[q] == monthly::model_report(es, monthly::model_reports(es, rules)[q].model, rules),
        forall|q: int|
            0 <= q < monthly::project_reports(es).len() ==> #[trigger] monthly::project_reports(
                es,
            )[q] == monthly::project_report(es, monthly::project_reports(es)[q].project),
{
    let n = es.len();
    totals::lemma_keys(es, totals::model_key(), n);
    totals::lemma_keys(es, totals::project_key(), n);
    let models = totals::keys(es, totals::model_key(), n);
    let projects = totals::keys(es, totals::project_key(), n);
    assert(models.contains(totals::model_key()(es[i])));
    assert(projects.contains(totals::project_key()(es[i])));
    let a = models.index_of(totals::model_key()(es[i]));
    let b = projects.index_of(totals::project_key()(es[i]));
    assert(monthly::model_reports(es, rules)[a].model == models[a]);
    assert(monthly::project_reports(es)[b].project == projects[b]);
}

/// The models and the projects of a month are listed with the busiest first.
pub proof fn lemma_busiest_first(
    es: Seq<EntryView>,
    rules: Seq<RuleView>,
    models: Seq<ModelView>,
    projects: Seq<ProjectView>,
)
    requires
        order::sorted(monthly::model_reports(es, rules), models, monthly::busiest_model_first()),
        order::sorted(
            monthly::project_reports(es),
            projects,
            monthly::busiest_project_first(),
        ),
    ensures
        forall|i: int, j: int|
            0 <= i < j < models.len() ==> (#[trigger] models[i]).total_tokens >= (
            #[trigger] models[j]).total_tokens,
        forall|i: int, j: int|
            0 <= i < j < projects.len() ==> (#[trigger] projects[i]).total_tokens >= (
            #[trigger] projects[j]).total_tokens,
{
    report_laws::lemma_sorted_in_order(
        monthly::model_reports(es, rules),
        models,
        monthly::busiest_model_first(),
    );
    report_laws::lemma_sorted_in_order(
        monthly::project_reports(es),
        projects,
        monthly::busiest_project_first(),
    );
    let a = monthly::busiest_model_first();
    let b = monthly::busiest_project_first();
    assert forall|i: int, j: int| 0 <= i < j < models.len() implies (
    #[trigger] models[i]).total_tokens >= (#[trigger] models[j]).total_tokens by {
        assert(!a(models[j], models[i]));
    }
    assert forall|i: int, j: int| 0 <= i < j < projects.len() implies (
    #[trigger] projects[i]).total_tokens >= (#[trigger] projects[j]).total_tokens by {
        assert(!b(projects[j], projects[i]));
    }
}

/// The entry at place `i` leads its session: no entry of the session has a higher turn number,
/// and none before it has the same.
pub open spec fn is_leading(es: Seq<EntryView>, id: Seq<char>, i: int) -> bool {
    &&& 0 <= i < es.len()
    &&& es[i].session_id == id
    &&& forall|j: int|
        0 <= j < es.len() && (#[trigger] es[j]).session_id == id ==> es[j].turn_no <= es[i].turn_no
            && (j < i ==> es[j].turn_no < es[i].turn_no)
}

proof fn lemma_leading_found(es: Seq<EntryView>, id: Seq<char>, n: nat, i: int)
    requires
        n <= es.len(),
        0 <= i < n,
        es[i].session_id == id,
        forall|j: int|
            0 <= j < n && (#[trigger] es[j]).session_id == id ==> es[j].turn_no <= es[i].turn_no && (
            j < i ==> es[j].turn_no < es[i].turn_no),
    ensures
        monthly::leading_turn(es, id, n) == Some(i),
    decreases n,
{
    monthly::lemma_leading_turn(es, id, n);
    if i < n - 1 {
        assert(es[n - 1].session_id == id ==> es[n - 1].turn_no <= es[i].turn_no);
        lemma_leading_found(es, id, (n - 1) as nat, i);
    } else {
        monthly::lemma_leading_turn(es, id, (n - 1) as nat);
    }
}

/// The premium requests of an entry: none where they are not known or below zero, and as many
/// as fit in 64 bits.
pub open spec fn premium(e: EntryView) -> nat {
    match e.cost {
        Some(c) => match c.total_premium_requests {
            Some(r) => if r < 0 {
                0
            } else if r > 0xffff_ffff_ffff_ffff {
                0xffff_ffff_ffff_ffff
            } else {
                r as nat
            },
            None => 0,
        },
        None => 0,
    }
}

/// What is reported on a day is the sum over its entries and as many sessions as they have; the
/// requests are those of the leading entries of the sessions, and there is a bill for each
/// session, the one that a report on the day has for it.
pub proof fn lemma_day_reported(
    es: Seq<EntryView>,
    rules: Seq<RuleView>,
    q: int,
    lead: spec_fn(Seq<char>) -> int,
)
    requires
        monthly::month_fits(es),
        es.len() <= usize::MAX,
        0 <= q < monthly::day_reports(es, rules).len(),
        ({
            let own = es.filter(of_date(monthly::day_reports(es, rules)[q].date));
            forall|id: Seq<char>|
                #[trigger] daily::sessions_of(own).contains(id) ==> is_leading(own, id, lead(id))
        }),
    ensures
        ({
            let d = monthly::day_reports(es, rules)[q];
            let p = of_date(d.date);
            let own = es.filter(p);
            let ids = daily::sessions_of(own);
            &&& d.total_sessions == daily_laws::sessions_where(es, p).len()
            &&& d.total_tokens == daily_laws::sum_where(
                es,
                p,
                daily_laws::adding(daily_laws::total_in()),
            )
            &&& d.total_input_tokens == daily_laws::sum_where(
                es,
                p,
                daily_laws::adding(daily_laws::input_in()),
            )
            &&& d.total_output_tokens == daily_laws::sum_where(
                es,
                p,
                daily_laws::adding(daily_laws::output_in()),
            )
            &&& d.total_cache_read_tokens == daily_laws::sum_where(
                es,
                p,
                daily_laws::adding(daily_laws::cache_in()),
            )
            &&& d.total_reasoning_tokens == daily_laws::sum_where(
                es,
                p,
                daily_laws::adding(daily_laws::reasoning_in()),
            )
            &&& d.total_duration_ms == daily_laws::sum_where(es, p, daily_laws::timing())
            &&& d.total_requests == report_laws::list_sum(
                ids,
                |id: Seq<char>| premium(own[lead(id)]),
            )
            &&& d.bills.len() == ids.len()
            &&& forall|k: int|
                0 <= k < ids.len() ==> #[trigger] d.bills[k] == daily::session_report(
                    own,
                    ids[k],
                    rules,
                ).bill
        }),
{
    let d = monthly::day_reports(es, rules)[q];
    let date = monthly::dates_of(es)[q];
    let key = totals::date_key();
    let p = of_date(date);
    let own = monthly::day_group(es, date);
    assert(d == monthly::day_report(own, date, rules));
    lemma_day_entries(es, date);
    assert(d.date == date);
    assert(own == es.filter(of_date(d.date)));
    assert forall|e: EntryView| #[trigger] p(e) <==> key(e) == date by {}
    lemma_keyed_count(es, key, date, p, Count::Total);
    lemma_keyed_count(es, key, date, p, Count::Input);
    lemma_keyed_count(es, key, date, p, Count::Output);
    lemma_keyed_count(es, key, date, p, Count::CacheRead);
    lemma_keyed_count(es, key, date, p, Count::Reasoning);
    lemma_keyed_sessions(es, key, date, p);
    daily_laws::lemma_weights(Count::Total);
    daily_laws::lemma_keyed_is_sum(
        es,
        key,
        date,
        daily::by_duration(),
        p,
        daily_laws::timing(),
        es.len(),
    );
    assert(es.take(es.len() as int) =~= es);
    totals::lemma_total_of_group(es, key, date, daily::by_duration(), es.len());
    totals::lemma_keyed_total_bound(es, key, date, daily::by_duration(), es.len());
    let ids = daily::sessions_of(own);
    assert forall|k: int| 0 <= k < ids.len() implies is_leading(
        own,
        #[trigger] ids[k],
        lead(ids[k]),
    ) by {
        assert(daily::sessions_of(es.filter(of_date(d.date))).contains(ids[k]));
    }
    lemma_requests_sum(own, ids, lead);
    let dates = monthly::dates_of(es);
    monthly::lemma_month_grow(es, dates, q + 1);
    assert(dates.take(q + 1).last() == date);
}

proof fn lemma_requests_sum(
    own: Seq<EntryView>,
    ids: Seq<Seq<char>>,
    lead: spec_fn(Seq<char>) -> int,
)
    requires
        forall|k: int| 0 <= k < ids.len() ==> is_leading(own, #[trigger] ids[k], lead(ids[k])),
    ensures
        monthly::leading_requests(own, ids) == report_laws::list_sum(
            ids,
            |id: Seq<char>| premium(own[lead(id)]),
        ),
    decreases ids.len(),
{
    if ids.len() > 0 {
        let rest = ids.drop_last();
        assert forall|k: int| 0 <= k < rest.len() implies is_leading(
            own,
            #[trigger] rest[k],
            lead(rest[k]),
        ) by {
            assert(rest[k] == ids[k]);
        }
        lemma_requests_sum(own, rest, lead);
        let id = ids[ids.len() - 1];
        assert(is_leading(own, id, lead(id)));
        lemma_leading_found(own, id, own.len(), lead(id));
    }
}

/// Every session of a day has a leading entry.
pub proof fn lemma_has_leading(es: Seq<EntryView>, id: Seq<char>, k: int)
    requires
        0 <= k < es.len(),
        es[k].session_id == id,
    ensures
        exists|i: int| is_leading(es, id, i),
{
    monthly::lemma_leading_turn(es, id, es.len());
    lemma_first_of_equals(es, id, es.len());
    let i = monthly::leading_turn(es, id, es.len())->0;
    assert(is_leading(es, id, i));
}

proof fn lemma_first_of_equals(es: Seq<EntryView>, id: Seq<char>, n: nat)
    requires
        n <= es.len(),
    ensures
        monthly::leading_turn(es, id, n) matches Some(i) ==> forall|j: int|
            0 <= j < i && (#[trigger] es[j]).session_id == id ==> es[j].turn_no < es[i].turn_no,
    decreases n,
{
    monthly::lemma_leading_turn(es, id, n);
    if n > 0 {
        lemma_first_of_equals(es, id, (n - 1) as nat);
        monthly::lemma_leading_turn(es, id, (n - 1) as nat);
    }
}

/// Every date of a month has one report.
pub proof fn lemma_dates_listed(es: Seq<EntryView>, rules: Seq<RuleView>, i: int)
    requires
        0 <= i < es.len(),
    ensures
        exists|q: int|
            0 <= q < monthly::day_reports(es, rules).len() && of_date(
                (#[trigger] monthly::day_reports(es, rules)[q]).date,
            )(es[i]),
        forall|q: int, r: int|
            0 <= q < r < monthly::day_reports(es, rules).len() ==> (#[trigger] monthly::day_reports(
                es,
                rules,
            )[q]).date != (#[trigger] monthly::day_reports(es, rules)[r]).date,
{
    let n = es.len();
    totals::lemma_keys(es, totals::date_key(), n);
    let dates = monthly::dates_of(es);
    assert(dates.contains(totals::date_key()(es[i])));
    let q = dates.index_of(totals::date_key()(es[i]));
    assert(monthly::day_reports(es, rules)[q].date == dates[q]);
}

} // verus!
