//! The report on a month: its days, its models and its projects.

use crate::daily;
use crate::daily::{add_durations, summarize_session, DaySummary, ReportError};
use crate::entry;
use crate::entry::{Count, EntryView, UsageEntry};
use crate::order;
use crate::order::{arrange, ranks_of, Earliest, Largest};
use crate::pricing;
use crate::pricing::{bill_for, Bill, PricingRule, RuleView};
use crate::text;
use crate::text::{chars_of, text_begins_with};
use crate::totals;
use crate::totals::{
    count_entries, distinct_keys, entries_dated, group_entries, keyed_counts, Grouping, Weight,
};
use crate::whole;
use crate::whole::clamp_u64;
use vstd::prelude::*;
use vstd::string::*;
use vstd::utf8::*;

verus! {

/// The entry of a session with the highest turn number among the first `n` entries; of
/// several, the first.
pub open spec fn leading_turn(es: Seq<EntryView>, id: Seq<char>, n: nat) -> Option<int>
    decreases n,
{
    if n == 0 {
        None
    } else {
        let before = leading_turn(es, id, (n - 1) as nat);
        if es[n - 1].session_id == id && (before is None || es[n - 1].turn_no > es[before->0].turn_no) {
            Some(n - 1)
        } else {
            before
        }
    }
}

/// The premium requests of an entry, as a whole number.
pub open spec fn requests_of(e: EntryView) -> u64 {
    match e.cost {
        Some(c) => match c.total_premium_requests {
            Some(r) => whole::clamped_u64(r as int),
            None => 0,
        },
        None => 0,
    }
}

/// What the premium requests of some sessions come to, each those of its leading turn.
pub open spec fn leading_requests(es: Seq<EntryView>, ids: Seq<Seq<char>>) -> nat
    decreases ids.len(),
{
    if ids.len() == 0 {
        0
    } else {
        leading_requests(es, ids.drop_last()) + requests_of(
            es[leading_turn(es, ids.last(), es.len())->0],
        ) as nat
    }
}

/// What is reported on a day of a month.
pub struct DailyBreakdownEntry {
    pub date: String,
    pub total_sessions: usize,
    pub total_tokens: u64,
    pub total_input_tokens: u64,
    pub total_output_tokens: u64,
    pub total_cache_read_tokens: u64,
    pub total_reasoning_tokens: u64,
    pub total_duration_ms: u64,
    pub total_requests: u64,
    /// The bills for the sessions of the day.
    pub bills: Vec<Bill>,
}

/// What the entry on a day stands for.
pub struct DayView {
    pub date: Seq<char>,
    pub total_sessions: usize,
    pub total_tokens: u64,
    pub total_input_tokens: u64,
    pub total_output_tokens: u64,
    pub total_cache_read_tokens: u64,
    pub total_reasoning_tokens: u64,
    pub total_duration_ms: u64,
    pub total_requests: u64,
    pub bills: Seq<Bill>,
}

impl View for DailyBreakdownEntry {
    type V = DayView;

    open spec fn view(&self) -> DayView {
        DayView {
            date: self.date@,
            total_sessions: self.total_sessions,
            total_tokens: self.total_tokens,
            total_input_tokens: self.total_input_tokens,
            total_output_tokens: self.total_output_tokens,
            total_cache_read_tokens: self.total_cache_read_tokens,
            total_reasoning_tokens: self.total_reasoning_tokens,
            total_duration_ms: self.total_duration_ms,
            total_requests: self.total_requests,
            bills: self.bills@,
        }
    }
}

/// The report on the entries `g` of one day.
pub open spec fn day_report(g: Seq<EntryView>, date: Seq<char>, rules: Seq<RuleView>) -> DayView {
    let n = g.len();
    let ids = daily::sessions_of(g);
    DayView {
        date,
        total_sessions: ids.len() as usize,
        total_tokens: totals::total(g, totals::by_count(Count::Total), n) as u64,
        total_input_tokens: totals::total(g, totals::by_count(Count::Input), n) as u64,
        total_output_tokens: totals::total(g, totals::by_count(Count::Output), n) as u64,
        total_cache_read_tokens: totals::total(g, totals::by_count(Count::CacheRead), n) as u64,
        total_reasoning_tokens: totals::total(g, totals::by_count(Count::Reasoning), n) as u64,
        total_duration_ms: daily::durations(g) as u64,
        total_requests: leading_requests(g, ids) as u64,
        bills: ids.map_values(|id: Seq<char>| daily::session_bill(g, id, rules)),
    }
}

/// The entry of a session with the highest turn number; of several, the first.
fn find_leading(entries: &Vec<UsageEntry>, id: &String) -> (r: Option<usize>)
    ensures
        match r {
            Some(k) => k < entries@.len() && leading_turn(
                entry::entries_view(entries@),
                id@,
                entries@.len(),
            ) == Some(k as int),
            None => leading_turn(entry::entries_view(entries@), id@, entries@.len()) is None,
        },
{
    let ghost es = entry::entries_view(entries@);
    let mut found: Option<usize> = None;
    let mut i: usize = 0;
    while i < entries.len()
        invariant
            i <= entries@.len(),
            es == entry::entries_view(entries@),
            match found {
                Some(k) => k < i && leading_turn(es, id@, i as nat) == Some(k as int),
                None => leading_turn(es, id@, i as nat) is None,
            },
        decreases entries@.len() - i,
    {
        assert(es[i as int] == entries@[i as int]@);
        if entries[i].session_id == *id {
            match found {
                Some(k) => {
                    assert(es[k as int] == entries@[k as int]@);
                    if entries[i].turn_no > entries[k].turn_no {
                        found = Some(i);
                    }
                },
                None => {
                    found = Some(i);
                },
            }
        }
        i += 1;
    }
    found
}

/// The leading turn of a session is one of its entries, and no entry of the session has a
/// higher turn number.
pub proof fn lemma_leading_turn(es: Seq<EntryView>, id: Seq<char>, n: nat)
    requires
        n <= es.len(),
    ensures
        match leading_turn(es, id, n) {
            Some(i) => {
                &&& 0 <= i < n
                &&& es[i].session_id == id
                &&& forall|j: int|
                    0 <= j < n && (#[trigger] es[j]).session_id == id ==> es[j].turn_no
                        <= es[i].turn_no
            },
            None => forall|j: int| 0 <= j < n ==> (#[trigger] es[j]).session_id != id,
        },
    decreases n,
{
    if n > 0 {
        lemma_leading_turn(es, id, (n - 1) as nat);
    }
}

/// The premium requests of an entry, as a whole number.
fn entry_requests(e: &UsageEntry) -> (r: u64)
    ensures
        r == requests_of(e@),
{
    match e.cost {
        Some(c) => match c.total_premium_requests {
            Some(r) => clamp_u64(r),
            None => 0,
        },
        None => 0,
    }
}

proof fn lemma_leading_grow(es: Seq<EntryView>, ids: Seq<Seq<char>>, k: int)
    requires
        0 <= k <= ids.len(),
    ensures
        leading_requests(es, ids.take(k)) <= leading_requests(es, ids),
    decreases ids.len(),
{
    if k == ids.len() {
        assert(ids.take(k) =~= ids);
    } else {
        lemma_leading_grow(es, ids.drop_last(), k);
        assert(ids.drop_last().take(k) =~= ids.take(k));
    }
}

/// The day sums of durations and requests fit in 64 bits.
pub open spec fn day_load_fits(g: Seq<EntryView>) -> bool {
    &&& daily::durations(g) <= u64::MAX
    &&& leading_requests(g, daily::sessions_of(g)) <= u64::MAX
}

/// Draws up the report on the entries of one day; nothing where the sum of the durations or
/// of the requests does not fit in 64 bits.
pub fn summarize_day(entries: &Vec<UsageEntry>, date: String, rules: &Vec<PricingRule>) -> (r:
    Option<DailyBreakdownEntry>)
    requires
        totals::counts_fit(entry::entries_view(entries@), entries@.len()),
        rules@.len() > 0,
    ensures
        r is Some <==> day_load_fits(entry::entries_view(entries@)),
        r matches Some(d) ==> d@ == day_report(
            entry::entries_view(entries@),
            date@,
            pricing::rules_view(rules@),
        ),
{
    let ghost es = entry::entries_view(entries@);
    let ghost rs = pricing::rules_view(rules@);
    let counts = match count_entries(entries) {
        Some(counts) => counts,
        None => totals::no_sums(),
    };
    let duration: u64 = match add_durations(entries) {
        Some(duration) => duration,
        None => {
            return None;
        },
    };
    let ids = distinct_keys(entries, Grouping::Session);
    assert(text::texts(ids@).len() == ids@.len());
    assert(text::texts(ids@) == daily::sessions_of(es));
    let ghost listed = daily::sessions_of(es);
    let ghost all_bills = listed.map_values(|id: Seq<char>| daily::session_bill(es, id, rs));
    let mut requests: u64 = 0;
    let mut bills: Vec<Bill> = Vec::new();
    let mut k: usize = 0;
    assert(listed.take(0) =~= Seq::empty());
    while k < ids.len()
        invariant
            k <= ids@.len(),
            rules@.len() > 0,
            es == entry::entries_view(entries@),
            rs == pricing::rules_view(rules@),
            totals::counts_fit(es, es.len()),
            daily::durations(es) <= u64::MAX,
            listed == daily::sessions_of(es),
            text::texts(ids@) == listed,
            all_bills == listed.map_values(|id: Seq<char>| daily::session_bill(es, id, rs)),
            requests == leading_requests(es, listed.take(k as int)),
            bills@.len() == k,
            forall|j: int| 0 <= j < k ==> #[trigger] bills@[j] == all_bills[j],
        decreases ids@.len() - k,
    {
        proof {
            assert(text::texts(ids@)[k as int] == ids@[k as int]@);
            daily::lemma_session_has_entry(entries@, k as int);
            assert(listed.take(k + 1).drop_last() =~= listed.take(k as int));
            assert(listed.take(k + 1).last() == listed[k as int]);
            lemma_leading_grow(es, listed, k + 1);
        }
        let summary = summarize_session(entries, &ids[k], rules);
        bills.push(summary.bill);
        let mut asked: u64 = 0;
        match find_leading(entries, &ids[k]) {
            Some(i) => {
                assert(es[i as int] == entries@[i as int]@);
                asked = entry_requests(&entries[i]);
            },
            None => {
                proof {
                    lemma_leading_turn(es, ids@[k as int]@, es.len());
                    let i = choose|i: int|
                        0 <= i < entries@.len() && (#[trigger] entries@[i])@.session_id
                            == listed[k as int];
                    assert(es[i].session_id == listed[k as int]);
                }
            },
        }
        if asked > u64::MAX - requests {
            return None;
        }
        requests = requests + asked;
        k += 1;
    }
    assert(listed.take(k as int) =~= listed);
    assert(bills@ =~= all_bills);
    assert(totals::sum_of(counts, Count::Total) == counts.total);
    assert(totals::sum_of(counts, Count::Input) == counts.input);
    assert(totals::sum_of(counts, Count::Output) == counts.output);
    assert(totals::sum_of(counts, Count::Reasoning) == counts.reasoning);
    assert(totals::sum_of(counts, Count::CacheRead) == counts.cache_read);
    Some(
        DailyBreakdownEntry {
            date,
            total_sessions: ids.len(),
            total_tokens: counts.total,
            total_input_tokens: counts.input,
            total_output_tokens: counts.output,
            total_cache_read_tokens: counts.cache_read,
            total_reasoning_tokens: counts.reasoning,
            total_duration_ms: duration,
            total_requests: requests,
            bills,
        },
    )
}

/// The dates of some entries, in the order of their first occurrence.
pub open spec fn dates_of(es: Seq<EntryView>) -> Seq<Seq<char>> {
    totals::keys(es, totals::date_key(), es.len())
}

/// The entries of one day.
pub open spec fn day_group(es: Seq<EntryView>, date: Seq<char>) -> Seq<EntryView> {
    totals::group(es, totals::date_key(), date, es.len())
}

/// The reports on the days of a month, in the order of their first entry.
pub open spec fn day_reports(es: Seq<EntryView>, rules: Seq<RuleView>) -> Seq<DayView> {
    dates_of(es).map_values(|d: Seq<char>| day_report(day_group(es, d), d, rules))
}

/// The earlier of two days comes first.
pub open spec fn earliest_first() -> spec_fn(DayView, DayView) -> bool {
    |a: DayView, b: DayView| text::text_before(a.date, b.date)
}

/// What the premium requests of some days come to.
pub open spec fn month_requests(es: Seq<EntryView>, dates: Seq<Seq<char>>) -> nat
    decreases dates.len(),
{
    if dates.len() == 0 {
        0
    } else {
        let g = day_group(es, dates.last());
        month_requests(es, dates.drop_last()) + leading_requests(g, daily::sessions_of(g))
    }
}

/// The sums over a month fit in 64 bits.
pub open spec fn month_fits(es: Seq<EntryView>) -> bool {
    &&& totals::counts_fit(es, es.len())
    &&& daily::durations(es) <= u64::MAX
    &&& month_requests(es, dates_of(es)) <= u64::MAX
}

/// The sums over a month.
pub open spec fn month_summary(es: Seq<EntryView>) -> DaySummary {
    let n = es.len();
    DaySummary {
        total_sessions: daily::sessions_of(es).len() as usize,
        total_tokens: totals::total(es, totals::by_count(Count::Total), n) as u64,
        total_input_tokens: totals::total(es, totals::by_count(Count::Input), n) as u64,
        total_output_tokens: totals::total(es, totals::by_count(Count::Output), n) as u64,
        total_reasoning_tokens: totals::total(es, totals::by_count(Count::Reasoning), n) as u64,
        total_cache_read_tokens: totals::total(es, totals::by_count(Count::CacheRead), n) as u64,
        total_duration_ms: daily::durations(es) as u64,
        total_requests: month_requests(es, dates_of(es)) as u64,
    }
}

/// What is reported on a model.
pub struct ModelUsageSummary {
    pub model: String,
    pub session_count: usize,
    pub total_tokens: u64,
    pub total_input_tokens: u64,
    pub total_output_tokens: u64,
    pub total_cache_read_tokens: u64,
    pub bill: Bill,
}

/// What a model summary stands for.
pub struct ModelView {
    pub model: Seq<char>,
    pub session_count: usize,
    pub total_tokens: u64,
    pub total_input_tokens: u64,
    pub total_output_tokens: u64,
    pub total_cache_read_tokens: u64,
    pub bill: Bill,
}

impl View for ModelUsageSummary {
    type V = ModelView;

    open spec fn view(&self) -> ModelView {
        ModelView {
            model: self.model@,
            session_count: self.session_count,
            total_tokens: self.total_tokens,
            total_input_tokens: self.total_input_tokens,
            total_output_tokens: self.total_output_tokens,
            total_cache_read_tokens: self.total_cache_read_tokens,
            bill: self.bill,
        }
    }
}

/// What is reported on a project.
pub struct ProjectUsageSummary {
    pub project: String,
    pub session_count: usize,
    pub total_tokens: u64,
    pub total_cache_read_tokens: u64,
}

/// What a project summary stands for.
pub struct ProjectView {
    pub project: Seq<char>,
    pub session_count: usize,
    pub total_tokens: u64,
    pub total_cache_read_tokens: u64,
}

impl View for ProjectUsageSummary {
    type V = ProjectView;

    open spec fn view(&self) -> ProjectView {
        ProjectView {
            project: self.project@,
            session_count: self.session_count,
            total_tokens: self.total_tokens,
            total_cache_read_tokens: self.total_cache_read_tokens,
        }
    }
}

/// A count over the entries with a key.
pub open spec fn keyed(
    es: Seq<EntryView>,
    key: spec_fn(EntryView) -> Seq<char>,
    value: Seq<char>,
    c: Count,
) -> nat {
    totals::keyed_total(es, key, value, totals::by_count(c), es.len())
}

/// The number of sessions among the entries with a key.
pub open spec fn keyed_sessions(
    es: Seq<EntryView>,
    key: spec_fn(EntryView) -> Seq<char>,
    value: Seq<char>,
) -> nat {
    daily::sessions_of(totals::group(es, key, value, es.len())).len()
}

/// The report on a model.
pub open spec fn model_report(
    es: Seq<EntryView>,
    model: Seq<char>,
    rules: Seq<RuleView>,
) -> ModelView {
    let key = totals::model_key();
    ModelView {
        model,
        session_count: keyed_sessions(es, key, model) as usize,
        total_tokens: keyed(es, key, model, Count::Total) as u64,
        total_input_tokens: keyed(es, key, model, Count::Input) as u64,
        total_output_tokens: keyed(es, key, model, Count::Output) as u64,
        total_cache_read_tokens: keyed(es, key, model, Count::CacheRead) as u64,
        bill: pricing::bill(
            rules,
            model,
            keyed(es, key, model, Count::Input) as u64,
            keyed(es, key, model, Count::Output) as u64,
            keyed(es, key, model, Count::CacheRead) as u64,
        ),
    }
}

/// The reports on the models of a month, in the order of their first entry.
pub open spec fn model_reports(es: Seq<EntryView>, rules: Seq<RuleView>) -> Seq<ModelView> {
    totals::keys(es, totals::model_key(), es.len()).map_values(
        |m: Seq<char>| model_report(es, m, rules),
    )
}

/// The model with more tokens comes first.
pub open spec fn busiest_model_first() -> spec_fn(ModelView, ModelView) -> bool {
    |a: ModelView, b: ModelView| a.total_tokens > b.total_tokens
}

/// The report on a project.
pub open spec fn project_report(es: Seq<EntryView>, project: Seq<char>) -> ProjectView {
    let key = totals::project_key();
    ProjectView {
        project,
        session_count: keyed_sessions(es, key, project) as usize,
        total_tokens: keyed(es, key, project, Count::Total) as u64,
        total_cache_read_tokens: keyed(es, key, project, Count::CacheRead) as u64,
    }
}

/// The reports on the projects of a month, in the order of their first entry.
pub open spec fn project_reports(es: Seq<EntryView>) -> Seq<ProjectView> {
    totals::keys(es, totals::project_key(), es.len()).map_values(
        |p: Seq<char>| project_report(es, p),
    )
}

/// The project with more tokens comes first.
pub open spec fn busiest_project_first() -> spec_fn(ProjectView, ProjectView) -> bool {
    |a: ProjectView, b: ProjectView| a.total_tokens > b.total_tokens
}

/// What the entries on days stand for.
pub open spec fn days_view(s: Seq<DailyBreakdownEntry>) -> Seq<DayView> {
    s.map_values(|d: DailyBreakdownEntry| d@)
}

/// What model summaries stand for.
pub open spec fn models_view(s: Seq<ModelUsageSummary>) -> Seq<ModelView> {
    s.map_values(|m: ModelUsageSummary| m@)
}

/// What project summaries stand for.
pub open spec fn projects_view(s: Seq<ProjectUsageSummary>) -> Seq<ProjectView> {
    s.map_values(|p: ProjectUsageSummary| p@)
}

/// Draws up the reports on the models; the busiest stands first.
pub fn summarize_models(entries: &Vec<UsageEntry>, rules: &Vec<PricingRule>) -> (r: Vec<
    ModelUsageSummary,
>)
    requires
        totals::counts_fit(entry::entries_view(entries@), entries@.len()),
        rules@.len() > 0,
    ensures
        order::sorted(
            model_reports(entry::entries_view(entries@), pricing::rules_view(rules@)),
            models_view(r@),
            busiest_model_first(),
        ),
{
    let ghost es = entry::entries_view(entries@);
    let ghost rs = pricing::rules_view(rules@);
    let ghost reports = model_reports(es, rs);
    let names = distinct_keys(entries, Grouping::Model);
    assert(text::texts(names@).len() == names@.len());
    let mut summaries: Vec<ModelUsageSummary> = Vec::new();
    let mut sizes: Vec<Largest> = Vec::new();
    let mut k: usize = 0;
    while k < names.len()
        invariant
            k <= names@.len(),
            rules@.len() > 0,
            es == entry::entries_view(entries@),
            rs == pricing::rules_view(rules@),
            totals::counts_fit(es, es.len()),
            text::texts(names@) == totals::keys(es, totals::model_key(), es.len()),
            reports == model_reports(es, rs),
            summaries@.len() == k,
            sizes@.len() == k,
            forall|j: int| 0 <= j < k ==> (#[trigger] summaries@[j])@ == reports[j],
            forall|j: int| 0 <= j < k ==> (#[trigger] sizes@[j]).0 == reports[j].total_tokens,
        decreases names@.len() - k,
    {
        assert(text::texts(names@)[k as int] == names@[k as int]@);
        let counts = keyed_counts(entries, Grouping::Model, &names[k], Weight::Counted);
        proof {
            assert(totals::sum_of(counts, Count::Total) == counts.total);
            assert(totals::sum_of(counts, Count::Input) == counts.input);
            assert(totals::sum_of(counts, Count::Output) == counts.output);
            assert(totals::sum_of(counts, Count::CacheRead) == counts.cache_read);
        }
        let own = group_entries(entries, Grouping::Model, &names[k]);
        assert(entry::entries_view(own@).len() == own@.len());
        let sessions = distinct_keys(&own, Grouping::Session);
        assert(text::texts(sessions@).len() == sessions@.len());
        let bill = bill_for(
            rules,
            names[k].as_str(),
            counts.input,
            counts.output,
            counts.cache_read,
        );
        let summary = ModelUsageSummary {
            model: names[k].clone(),
            session_count: sessions.len(),
            total_tokens: counts.total,
            total_input_tokens: counts.input,
            total_output_tokens: counts.output,
            total_cache_read_tokens: counts.cache_read,
            bill,
        };
        assert(summary@ == reports[k as int]);
        sizes.push(Largest(counts.total));
        summaries.push(summary);
        k += 1;
    }
    let ranks = ranks_of(&sizes);
    proof {
        order::lemma_same_order(
            ranks@,
            reports.len(),
            |i: int, j: int| order::Ranked::precedes(sizes@[i], sizes@[j]),
            order::by_place(reports, busiest_model_first()),
        );
    }
    let r = arrange(summaries, &ranks);
    assert(models_view(r@) =~= ranks@.map_values(|p: usize| reports[p as int]));
    r
}

/// Draws up the reports on the projects; the busiest stands first.
pub fn summarize_projects(entries: &Vec<UsageEntry>) -> (r: Vec<ProjectUsageSummary>)
    requires
        totals::counts_fit(entry::entries_view(entries@), entries@.len()),
    ensures
        order::sorted(
            project_reports(entry::entries_view(entries@)),
            projects_view(r@),
            busiest_project_first(),
        ),
{
    let ghost es = entry::entries_view(entries@);
    let ghost reports = project_reports(es);
    let names = distinct_keys(entries, Grouping::Project);
    assert(text::texts(names@).len() == names@.len());
    let mut summaries: Vec<ProjectUsageSummary> = Vec::new();
    let mut sizes: Vec<Largest> = Vec::new();
    let mut k: usize = 0;
    while k < names.len()
        invariant
            k <= names@.len(),
            es == entry::entries_view(entries@),
            totals::counts_fit(es, es.len()),
            text::texts(names@) == totals::keys(es, totals::project_key(), es.len()),
            reports == project_reports(es),
            summaries@.len() == k,
            sizes@.len() == k,
            forall|j: int| 0 <= j < k ==> (#[trigger] summaries@[j])@ == reports[j],
            forall|j: int| 0 <= j < k ==> (#[trigger] sizes@[j]).0 == reports[j].total_tokens,
        decreases names@.len() - k,
    {
        assert(text::texts(names@)[k as int] == names@[k as int]@);
        let counts = keyed_counts(entries, Grouping::Project, &names[k], Weight::Counted);
        proof {
            assert(totals::sum_of(counts, Count::Total) == counts.total);
            assert(totals::sum_of(counts, Count::CacheRead) == counts.cache_read);
        }
        let own = group_entries(entries, Grouping::Project, &names[k]);
        assert(entry::entries_view(own@).len() == own@.len());
        let sessions = distinct_keys(&own, Grouping::Session);
        assert(text::texts(sessions@).len() == sessions@.len());
        let summary = ProjectUsageSummary {
            project: names[k].clone(),
            session_count: sessions.len(),
            total_tokens: counts.total,
            total_cache_read_tokens: counts.cache_read,
        };
        assert(summary@ == reports[k as int]);
        sizes.push(Largest(counts.total));
        summaries.push(summary);
        k += 1;
    }
    let ranks = ranks_of(&sizes);
    proof {
        order::lemma_same_order(
            ranks@,
            reports.len(),
            |i: int, j: int| order::Ranked::precedes(sizes@[i], sizes@[j]),
            order::by_place(reports, busiest_project_first()),
        );
    }
    let r = arrange(summaries, &ranks);
    assert(projects_view(r@) =~= ranks@.map_values(|p: usize| reports[p as int]));
    r
}

proof fn lemma_day_durations(es: Seq<EntryView>, date: Seq<char>)
    ensures
        daily::durations(day_group(es, date)) <= daily::durations(es),
{
    totals::lemma_total_of_group(es, totals::date_key(), date, daily::by_duration(), es.len());
    totals::lemma_keyed_total_bound(es, totals::date_key(), date, daily::by_duration(), es.len());
}

pub(crate) proof fn lemma_month_grow(es: Seq<EntryView>, dates: Seq<Seq<char>>, k: int)
    requires
        0 <= k <= dates.len(),
    ensures
        month_requests(es, dates.take(k)) <= month_requests(es, dates),
    decreases dates.len(),
{
    if k == dates.len() {
        assert(dates.take(k) =~= dates);
    } else {
        lemma_month_grow(es, dates.drop_last(), k);
        assert(dates.drop_last().take(k) =~= dates.take(k));
    }
}

/// The report on a month.
pub struct MonthlyDetails {
    pub summary: DaySummary,
    pub daily_breakdown: Vec<DailyBreakdownEntry>,
    pub top_models: Vec<ModelUsageSummary>,
    pub top_projects: Vec<ProjectUsageSummary>,
}

/// What the timestamps of a month begin with.
pub open spec fn month_prefix(year_month: Seq<char>) -> Seq<char> {
    year_month + "-"@
}

/// A decimal digit.
pub open spec fn is_digit(c: char) -> bool {
    '0' <= c <= '9'
}

/// The text names a month: four digits for the year, a hyphen and two digits.
pub open spec fn names_month(year_month: Seq<char>) -> bool {
    &&& year_month.len() == 7
    &&& forall|i: int| 0 <= i < 7 && i != 4 ==> is_digit(#[trigger] year_month[i])
    &&& year_month[4] == '-'
}

/// The entry belongs in the report: where a month is named, its timestamp begins with the
/// month. A text that names no month is a pattern by which the entries were selected, and all
/// of them belong in the report.
pub open spec fn in_month(e: EntryView, year_month: Seq<char>) -> bool {
    names_month(year_month) ==> text::begins_with(e.timestamp, month_prefix(year_month))
}

/// Those of the first `n` entries that are of the month, in their order.
pub open spec fn month_group(es: Seq<EntryView>, year_month: Seq<char>, n: nat) -> Seq<EntryView>
    decreases n,
{
    if n == 0 {
        Seq::empty()
    } else {
        let before = month_group(es, year_month, (n - 1) as nat);
        if in_month(es[n - 1], year_month) {
            before.push(es[n - 1])
        } else {
            before
        }
    }
}

/// The entries of the month, in their order.
pub open spec fn month_entries(es: Seq<EntryView>, year_month: Seq<char>) -> Seq<EntryView> {
    month_group(es, year_month, es.len())
}

/// The entries of a month are all those that are of the month, and no others.
pub proof fn lemma_month_entries(es: Seq<EntryView>, year_month: Seq<char>, n: nat)
    requires
        n <= es.len(),
    ensures
        forall|i: int|
            0 <= i < month_group(es, year_month, n).len() ==> in_month(
                #[trigger] month_group(es, year_month, n)[i],
                year_month,
            ) && es.contains(month_group(es, year_month, n)[i]),
        forall|i: int|
            0 <= i < n && in_month(#[trigger] es[i], year_month) ==> month_group(
                es,
                year_month,
                n,
            ).contains(es[i]),
    decreases n,
{
    if n > 0 {
        lemma_month_entries(es, year_month, (n - 1) as nat);
        let before = month_group(es, year_month, (n - 1) as nat);
        let now = month_group(es, year_month, n);
        assert forall|i: int| 0 <= i < now.len() implies in_month(#[trigger] now[i], year_month)
            && es.contains(now[i]) by {
            if i < before.len() {
                assert(now[i] == before[i]);
            } else {
                assert(now[i] == es[n - 1]);
            }
        }
        assert forall|i: int| 0 <= i < n && in_month(#[trigger] es[i], year_month) implies
            now.contains(es[i]) by {
            if i < n - 1 {
                let j = before.index_of(es[i]);
                assert(now[j] == before[j]);
            } else {
                assert(now[now.len() - 1] == es[i]);
            }
        }
    }
}

/// A timestamp that begins with a month lies in that month, and in no other.
pub proof fn lemma_in_one_month(e: EntryView, year_month: Seq<char>, other: Seq<char>)
    requires
        names_month(year_month),
        names_month(other),
        text::begins_with(e.timestamp, month_prefix(year_month)),
    ensures
        in_month(e, year_month),
        in_month(e, other) <==> other == year_month,
{
    if in_month(e, other) {
        assert(month_prefix(year_month).take(7) =~= year_month);
        assert(month_prefix(other).take(7) =~= other);
        reveal_strlit("-");
        assert(month_prefix(year_month) == month_prefix(other));
    }
}

/// Of what names no month every entry belongs in the report.
pub proof fn lemma_pattern_keeps_all(es: Seq<EntryView>, pattern: Seq<char>, n: nat)
    requires
        !names_month(pattern),
        n <= es.len(),
    ensures
        month_group(es, pattern, n) == es.take(n as int),
    decreases n,
{
    if n > 0 {
        lemma_pattern_keeps_all(es, pattern, (n - 1) as nat);
        assert(es.take(n as int) =~= es.take(n - 1).push(es[n - 1]));
    } else {
        assert(es.take(0) =~= Seq::empty());
    }
}

/// The date of an entry of a month begins with the month.
pub proof fn lemma_date_in_month(e: EntryView, year_month: Seq<char>)
    requires
        names_month(year_month),
        in_month(e, year_month),
        totals::dated(e),
    ensures
        text::begins_with(totals::date_key()(e), month_prefix(year_month)),
{
    reveal_strlit("-");
    let prefix = month_prefix(year_month);
    assert forall|i: int| 0 <= i < prefix.len() implies '\0' <= #[trigger] prefix[i] <= '\u{7f}' by {
        if i < 7 && i != 4 {
            assert(is_digit(year_month[i]));
        }
    }
    assert(is_ascii_chars(prefix));
    is_ascii_chars_encode_utf8(prefix);
    text::lemma_slice_begins_with(e.timestamp, prefix, 10);
}

/// The days of a report on a month are days of the month.
pub proof fn lemma_days_in_month(
    es: Seq<EntryView>,
    year_month: Seq<char>,
    rules: Seq<RuleView>,
    q: int,
)
    requires
        names_month(year_month),
        totals::all_dated(month_entries(es, year_month)),
        0 <= q < day_reports(month_entries(es, year_month), rules).len(),
    ensures
        text::begins_with(
            day_reports(month_entries(es, year_month), rules)[q].date,
            month_prefix(year_month),
        ),
{
    let own = month_entries(es, year_month);
    lemma_month_entries(es, year_month, es.len());
    totals::lemma_keys(own, totals::date_key(), own.len());
    let i = choose|i: int|
        0 <= i < own.len() && totals::date_key()(#[trigger] own[i]) == dates_of(own)[q];
    lemma_date_in_month(own[i], year_month);
}

/// Whether a text names a month.
pub fn is_month_name(year_month: &str) -> (r: bool)
    ensures
        r == names_month(year_month@),
{
    let chars = chars_of(year_month);
    if chars.len() != 7 {
        return false;
    }
    let mut i: usize = 0;
    while i < 7
        invariant
            i <= 7,
            chars@ == year_month@,
            chars@.len() == 7,
            forall|j: int| 0 <= j < i && j != 4 ==> is_digit(#[trigger] year_month@[j]),
        decreases 7 - i,
    {
        let c: char = chars[i];
        if i != 4 && !('0' <= c && c <= '9') {
            assert(!is_digit(year_month@[i as int]));
            return false;
        }
        i += 1;
    }
    chars[4] == '-'
}

/// Picks out the entries of a month.
pub fn entries_in_month(entries: &Vec<UsageEntry>, year_month: &str) -> (r: Vec<UsageEntry>)
    ensures
        entry::entries_view(r@) == month_entries(entry::entries_view(entries@), year_month@),
{
    let ghost es = entry::entries_view(entries@);
    let mut prefix: String = year_month.to_string();
    prefix.append("-");
    let named: bool = is_month_name(year_month);
    let mut r: Vec<UsageEntry> = Vec::new();
    assert(entry::entries_view(r@) =~= Seq::empty());
    let mut i: usize = 0;
    while i < entries.len()
        invariant
            i <= entries@.len(),
            es == entry::entries_view(entries@),
            prefix@ == month_prefix(year_month@),
            named == names_month(year_month@),
            entry::entries_view(r@) == month_group(es, year_month@, i as nat),
        decreases entries@.len() - i,
    {
        assert(es[i as int] == entries@[i as int]@);
        if !named || text_begins_with(entries[i].timestamp.as_str(), prefix.as_str()) {
            let ghost before = entry::entries_view(r@);
            let copy = entries[i].copy();
            r.push(copy);
            assert(entry::entries_view(r@) =~= before.push(es[i as int]));
        }
        i += 1;
    }
    r
}

/// Draws up the report on entries of which every one has a date; nothing where a sum does not
/// fit in 64 bits.
fn report_on(entries: &Vec<UsageEntry>, rules: &Vec<PricingRule>) -> (r: Option<MonthlyDetails>)
    requires
        totals::all_dated(entry::entries_view(entries@)),
        rules@.len() > 0,
    ensures
        r is Some <==> month_fits(entry::entries_view(entries@)),
        r matches Some(m) ==> {
            let es = entry::entries_view(entries@);
            let rs = pricing::rules_view(rules@);
            &&& m.summary == month_summary(es)
            &&& order::sorted(day_reports(es, rs), days_view(m.daily_breakdown@), earliest_first())
            &&& order::sorted(
                model_reports(es, rs),
                models_view(m.top_models@),
                busiest_model_first(),
            )
            &&& order::sorted(
                project_reports(es),
                projects_view(m.top_projects@),
                busiest_project_first(),
            )
        },
{
    let ghost es = entry::entries_view(entries@);
    let ghost rs = pricing::rules_view(rules@);
    let counts = match count_entries(entries) {
        Some(counts) => counts,
        None => {
            return None;
        },
    };
    let duration: u64 = match add_durations(entries) {
        Some(duration) => duration,
        None => {
            return None;
        },
    };
    let dates = distinct_keys(entries, Grouping::Date);
    let ghost listed = dates_of(es);
    let ghost reports = day_reports(es, rs);
    assert(text::texts(dates@).len() == dates@.len());
    assert(text::texts(dates@) == listed);
    let mut requests: u64 = 0;
    let mut days: Vec<DailyBreakdownEntry> = Vec::new();
    let mut places: Vec<Earliest> = Vec::new();
    let mut k: usize = 0;
    assert(listed.take(0) =~= Seq::empty());
    while k < dates.len()
        invariant
            k <= dates@.len(),
            rules@.len() > 0,
            es == entry::entries_view(entries@),
            rs == pricing::rules_view(rules@),
            totals::all_dated(es),
            totals::counts_fit(es, es.len()),
            listed == dates_of(es),
            text::texts(dates@) == listed,
            reports == day_reports(es, rs),
            daily::durations(es) <= u64::MAX,
            requests == month_requests(es, listed.take(k as int)),
            days@.len() == k,
            places@.len() == k,
            forall|j: int| 0 <= j < k ==> (#[trigger] days@[j])@ == reports[j],
            forall|j: int| 0 <= j < k ==> (#[trigger] places@[j]).0@ == reports[j].date,
        decreases dates@.len() - k,
    {
        proof {
            assert(text::texts(dates@)[k as int] == dates@[k as int]@);
            assert(listed.take(k + 1).drop_last() =~= listed.take(k as int));
            assert(listed.take(k + 1).last() == listed[k as int]);
            lemma_month_grow(es, listed, k + 1);
            totals::lemma_group_fits(es, totals::date_key(), listed[k as int]);
            lemma_day_durations(es, listed[k as int]);
        }
        let own = group_entries(entries, Grouping::Date, &dates[k]);
        assert(entry::entries_view(own@).len() == own@.len());
        assert(entry::entries_view(own@) == day_group(es, listed[k as int]));
        let day = match summarize_day(&own, dates[k].clone(), rules) {
            Some(day) => day,
            None => {
                return None;
            },
        };
        assert(day@ == reports[k as int]);
        if day.total_requests > u64::MAX - requests {
            return None;
        }
        requests = requests + day.total_requests;
        places.push(Earliest(dates[k].clone()));
        days.push(day);
        k += 1;
    }
    assert(listed.take(k as int) =~= listed);
    let ranks = ranks_of(&places);
    proof {
        order::lemma_same_order(
            ranks@,
            reports.len(),
            |i: int, j: int| order::Ranked::precedes(places@[i], places@[j]),
            order::by_place(reports, earliest_first()),
        );
    }
    let daily_breakdown = arrange(days, &ranks);
    assert(days_view(daily_breakdown@) =~= ranks@.map_values(|p: usize| reports[p as int]));
    let sessions = distinct_keys(entries, Grouping::Session);
    assert(text::texts(sessions@).len() == sessions@.len());
    assert(totals::sum_of(counts, Count::Total) == counts.total);
    assert(totals::sum_of(counts, Count::Input) == counts.input);
    assert(totals::sum_of(counts, Count::Output) == counts.output);
    assert(totals::sum_of(counts, Count::Reasoning) == counts.reasoning);
    assert(totals::sum_of(counts, Count::CacheRead) == counts.cache_read);
    Some(
        MonthlyDetails {
            summary: DaySummary {
                total_sessions: sessions.len(),
                total_tokens: counts.total,
                total_input_tokens: counts.input,
                total_output_tokens: counts.output,
                total_reasoning_tokens: counts.reasoning,
                total_cache_read_tokens: counts.cache_read,
                total_duration_ms: duration,
                total_requests: requests,
            },
            daily_breakdown,
            top_models: summarize_models(entries, rules),
            top_projects: summarize_projects(entries),
        },
    )
}

/// Draws up the report on a month, for the entries that are of the month, or on all entries
/// where `year_month` names no month; the days stand in their order, the models and the
/// projects with the busiest first.
pub fn monthly_details(
    year_month: &str,
    entries: &Vec<UsageEntry>,
    rules: &Vec<PricingRule>,
) -> (r: Result<MonthlyDetails, ReportError>)
    requires
        rules@.len() > 0,
    ensures
        ({
            let es = month_entries(entry::entries_view(entries@), year_month@);
            let rs = pricing::rules_view(rules@);
            &&& r == Err::<MonthlyDetails, ReportError>(ReportError::NoEntries) <==> entries@.len()
                == 0
            &&& r == Err::<MonthlyDetails, ReportError>(ReportError::Undated) <==> entries@.len()
                > 0 && !totals::all_dated(es)
            &&& r == Err::<MonthlyDetails, ReportError>(ReportError::TooLarge) <==> entries@.len()
                > 0 && totals::all_dated(es) && !month_fits(es)
            &&& r is Ok <==> entries@.len() > 0 && totals::all_dated(es) && month_fits(es)
            &&& r matches Ok(m) ==> {
                &&& m.summary == month_summary(es)
                &&& order::sorted(
                    day_reports(es, rs),
                    days_view(m.daily_breakdown@),
                    earliest_first(),
                )
                &&& order::sorted(
                    model_reports(es, rs),
                    models_view(m.top_models@),
                    busiest_model_first(),
                )
                &&& order::sorted(
                    project_reports(es),
                    projects_view(m.top_projects@),
                    busiest_project_first(),
                )
            }
        }),
        names_month(year_month@) ==> (r matches Ok(m) ==> forall|i: int|
            0 <= i < m.daily_breakdown@.len() ==> text::begins_with(
                (#[trigger] m.daily_breakdown@[i]).date@,
                year_month@ + "-"@,
            )),
{
    let ghost all = entry::entries_view(entries@);
    let ghost es = month_entries(all, year_month@);
    let ghost rs = pricing::rules_view(rules@);
    if entries.len() == 0 {
        return Err(ReportError::NoEntries);
    }
    let own = entries_in_month(entries, year_month);
    if !entries_dated(&own) {
        return Err(ReportError::Undated);
    }
    match report_on(&own, rules) {
        Some(m) => {
            proof {
                let days = days_view(m.daily_breakdown@);
                assert forall|i: int|
                    0 <= i < m.daily_breakdown@.len() && names_month(
                        year_month@,
                    ) implies text::begins_with(
                    (#[trigger] m.daily_breakdown@[i]).date@,
                    year_month@ + "-"@,
                ) by {
                    order::lemma_from_items(day_reports(es, rs), days, earliest_first(), i);
                    let q = choose|q: int|
                        0 <= q < day_reports(es, rs).len() && day_reports(es, rs)[q] == days[i];
                    assert(days[i] == m.daily_breakdown@[i]@);
                    lemma_days_in_month(all, year_month@, rs, q);
                }
            }
            Ok(m)
        },
        None => Err(ReportError::TooLarge),
    }
}

} // verus!
