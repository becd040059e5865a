//! The report on a day: its sums and its sessions.

use crate::entry;
use crate::entry::{Count, EntryView, UsageEntry};
use crate::order;
use crate::order::{ranks_of, Newest};
use crate::pricing;
use crate::pricing::{bill_for, Bill, PricingRule, RuleView};
use crate::text;
use crate::totals;
use crate::totals::{count_entries, distinct_keys, keyed_counts, Grouping, Sums, Weight};
use crate::whole;
use crate::whole::clamp_u64;
use vstd::prelude::*;

verus! {

/// The entry of a session with the highest turn number among the first `n` entries; of
/// several, the last.
pub open spec fn last_turn(es: Seq<EntryView>, id: Seq<char>, n: nat) -> Option<int>
    decreases n,
{
    if n == 0 {
        None
    } else {
        let before = last_turn(es, id, (n - 1) as nat);
        if es[n - 1].session_id == id && (before is None || es[n - 1].turn_no >= es[before->0].turn_no) {
            Some(n - 1)
        } else {
            before
        }
    }
}

/// The first entry of a session.
pub open spec fn first_entry(es: Seq<EntryView>, id: Seq<char>, n: nat) -> Option<int>
    decreases n,
{
    if n == 0 {
        None
    } else {
        let before = first_entry(es, id, (n - 1) as nat);
        if before is None && es[n - 1].session_id == id {
            Some(n - 1)
        } else {
            before
        }
    }
}

/// The duration of an entry in whole milliseconds.
pub open spec fn duration_of(e: EntryView) -> u64 {
    match e.cost {
        Some(c) => match c.total_api_duration_ms {
            Some(d) => whole::clamped_u64(d as int),
            None => 0,
        },
        None => 0,
    }
}

/// The duration of an entry.
pub open spec fn by_duration() -> spec_fn(EntryView) -> nat {
    |e: EntryView| duration_of(e) as nat
}

/// What the durations of some entries come to.
pub open spec fn durations(es: Seq<EntryView>) -> nat {
    totals::total(es, by_duration(), es.len())
}

/// What the durations of a session come to.
pub open spec fn session_duration(es: Seq<EntryView>, id: Seq<char>) -> nat {
    totals::keyed_total(es, totals::session_key(), id, by_duration(), es.len())
}

/// What the increments of a session come to.
pub open spec fn session_gain(es: Seq<EntryView>, id: Seq<char>, c: Count) -> nat {
    totals::keyed_total(es, totals::session_key(), id, totals::by_increment(c), es.len())
}

/// A count of a session: the sum of its increments, or, where these have no total, the count
/// of its last turn.
pub open spec fn session_amount(es: Seq<EntryView>, id: Seq<char>, c: Count) -> nat {
    if session_gain(es, id, Count::Total) > 0 {
        session_gain(es, id, c)
    } else {
        totals::optional_amount(es[last_turn(es, id, es.len())->0].tokens, c)
    }
}

/// What is reported on a session.
pub struct SessionSummary {
    pub session_id: String,
    pub session_name: String,
    pub cwd: String,
    pub model: String,
    pub total_tokens: u64,
    pub total_input_tokens: u64,
    pub total_output_tokens: u64,
    pub total_cache_read_tokens: u64,
    pub total_reasoning_tokens: u64,
    pub max_turn_no: u32,
    pub timestamp: String,
    pub duration_ms: u64,
    pub bill: Bill,
}

/// What a session summary stands for.
pub struct SessionView {
    pub session_id: Seq<char>,
    pub session_name: Seq<char>,
    pub cwd: Seq<char>,
    pub model: Seq<char>,
    pub total_tokens: u64,
    pub total_input_tokens: u64,
    pub total_output_tokens: u64,
    pub total_cache_read_tokens: u64,
    pub total_reasoning_tokens: u64,
    pub max_turn_no: u32,
    pub timestamp: Seq<char>,
    pub duration_ms: u64,
    pub bill: Bill,
}

impl View for SessionSummary {
    type V = SessionView;

    open spec fn view(&self) -> SessionView {
        SessionView {
            session_id: self.session_id@,
            session_name: self.session_name@,
            cwd: self.cwd@,
            model: self.model@,
            total_tokens: self.total_tokens,
            total_input_tokens: self.total_input_tokens,
            total_output_tokens: self.total_output_tokens,
            total_cache_read_tokens: self.total_cache_read_tokens,
            total_reasoning_tokens: self.total_reasoning_tokens,
            max_turn_no: self.max_turn_no,
            timestamp: self.timestamp@,
            duration_ms: self.duration_ms,
            bill: self.bill,
        }
    }
}

/// The bill for a session.
pub open spec fn session_bill(es: Seq<EntryView>, id: Seq<char>, rules: Seq<RuleView>) -> Bill {
    pricing::bill(
        rules,
        totals::text_or(es[last_turn(es, id, es.len())->0].model, "Unknown Model"@),
        session_amount(es, id, Count::Input) as u64,
        session_amount(es, id, Count::Output) as u64,
        session_amount(es, id, Count::CacheRead) as u64,
    )
}

/// The report on a session.
pub open spec fn session_report(
    es: Seq<EntryView>,
    id: Seq<char>,
    rules: Seq<RuleView>,
) -> SessionView {
    let last = es[last_turn(es, id, es.len())->0];
    let first = es[first_entry(es, id, es.len())->0];
    SessionView {
        session_id: id,
        session_name: totals::text_or(last.session_name, "Start Coding Session"@),
        cwd: totals::text_or(last.cwd, Seq::empty()),
        model: totals::text_or(last.model, "Unknown Model"@),
        total_tokens: session_amount(es, id, Count::Total) as u64,
        total_input_tokens: session_amount(es, id, Count::Input) as u64,
        total_output_tokens: session_amount(es, id, Count::Output) as u64,
        total_cache_read_tokens: session_amount(es, id, Count::CacheRead) as u64,
        total_reasoning_tokens: session_amount(es, id, Count::Reasoning) as u64,
        max_turn_no: last.turn_no,
        timestamp: first.timestamp,
        duration_ms: session_duration(es, id) as u64,
        bill: session_bill(es, id, rules),
    }
}

/// The entry with the highest turn number is one of the session, and no entry of the session
/// has a higher one.
pub proof fn lemma_last_turn(es: Seq<EntryView>, id: Seq<char>, n: nat)
    requires
        n <= es.len(),
    ensures
        match last_turn(es, id, n) {
            Some(i) => {
                &&& 0 <= i < n
                &&& es[i].session_id == id
                &&& forall|j: int|
                    0 <= j < n && (#[trigger] es[j]).session_id == id ==> es[j].turn_no
                        <= es[i].turn_no
            },
            None => forall|j: int| 0 <= j < n ==> (#[trigger] es[j]).session_id != id,
        },
        match first_entry(es, id, n) {
            Some(i) => {
                &&& 0 <= i < n
                &&& es[i].session_id == id
                &&& forall|j: int| 0 <= j < i ==> (#[trigger] es[j]).session_id != id
            },
            None => forall|j: int| 0 <= j < n ==> (#[trigger] es[j]).session_id != id,
        },
    decreases n,
{
    if n > 0 {
        lemma_last_turn(es, id, (n - 1) as nat);
    }
}

/// A text, or what stands in for it.
pub(crate) fn text_or_else(s: &Option<String>, other: &str) -> (r: String)
    ensures
        r@ == totals::text_or(crate::json::optional_text(*s), other@),
{
    match s {
        Some(s) => s.clone(),
        None => other.to_string(),
    }
}

/// The duration of an entry in whole milliseconds.
fn entry_duration(e: &UsageEntry) -> (r: u64)
    ensures
        r == duration_of(e@),
{
    match e.cost {
        Some(c) => match c.total_api_duration_ms {
            Some(d) => clamp_u64(d),
            None => 0,
        },
        None => 0,
    }
}

/// The first entry of a session and the one with the highest turn number.
fn session_ends(entries: &Vec<UsageEntry>, id: &String) -> (r: (usize, usize))
    requires
        exists|i: int| 0 <= i < entries@.len() && (#[trigger] entries@[i])@.session_id == id@,
    ensures
        r.0 < entries@.len(),
        r.1 < entries@.len(),
        first_entry(entry::entries_view(entries@), id@, entries@.len()) == Some(r.0 as int),
        last_turn(entry::entries_view(entries@), id@, entries@.len()) == Some(r.1 as int),
{
    let ghost es = entry::entries_view(entries@);
    let mut first: Option<usize> = None;
    let mut last: Option<usize> = None;
    let mut i: usize = 0;
    while i < entries.len()
        invariant
            i <= entries@.len(),
            es == entry::entries_view(entries@),
            match first {
                Some(k) => k < i && first_entry(es, id@, i as nat) == Some(k as int),
                None => first_entry(es, id@, i as nat) is None,
            },
            match last {
                Some(k) => k < i && last_turn(es, id@, i as nat) == Some(k as int),
                None => last_turn(es, id@, i as nat) is None,
            },
        decreases entries@.len() - i,
    {
        assert(es[i as int] == entries@[i as int]@);
        if entries[i].session_id == *id {
            if first.is_none() {
                first = Some(i);
            }
            match last {
                Some(k) => {
                    assert(es[k as int] == entries@[k as int]@);
                    if entries[i].turn_no >= entries[k].turn_no {
                        last = Some(i);
                    }
                },
                None => {
                    last = Some(i);
                },
            }
        }
        i += 1;
    }
    proof {
        lemma_last_turn(es, id@, entries@.len());
        let k = choose|k: int|
            0 <= k < entries@.len() && (#[trigger] entries@[k])@.session_id == id@;
        assert(es[k].session_id == id@);
    }
    match (first, last) {
        (Some(a), Some(b)) => (a, b),
        _ => (0, 0),
    }
}

/// The counts of a session.
fn session_counts(entries: &Vec<UsageEntry>, id: &String, last: usize) -> (r: Sums)
    requires
        totals::counts_fit(entry::entries_view(entries@), entries@.len()),
        last < entries@.len(),
        last_turn(entry::entries_view(entries@), id@, entries@.len()) == Some(last as int),
    ensures
        forall|c: Count| #[trigger]
            totals::sum_of(r, c) == session_amount(entry::entries_view(entries@), id@, c),
{
    let ghost es = entry::entries_view(entries@);
    let gained = keyed_counts(entries, Grouping::Session, id, Weight::Increment);
    assert forall|c: Count| #[trigger] totals::sum_of(gained, c) == session_gain(es, id@, c) by {
        assert(totals::weighed(Weight::Increment, c) == totals::by_increment(c));
        assert(totals::key_of(Grouping::Session) == totals::session_key());
    }
    assert(totals::sum_of(gained, Count::Total) == gained.total);
    if gained.total > 0 {
        gained
    } else {
        assert(es[last as int] == entries@[last as int]@);
        match entries[last].tokens {
            Some(t) => Sums {
                total: t.total,
                input: t.input,
                output: t.output,
                reasoning: entry::value_or_zero(t.reasoning),
                cache_read: entry::value_or_zero(t.cache_read),
            },
            None => totals::no_sums(),
        }
    }
}

/// Adds up the durations of the entries; nothing where the sum does not fit in 64 bits.
pub(crate) fn add_durations(entries: &Vec<UsageEntry>) -> (r: Option<u64>)
    ensures
        r is Some <==> durations(entry::entries_view(entries@)) <= u64::MAX,
        r matches Some(d) ==> d == durations(entry::entries_view(entries@)),
{
    let ghost es = entry::entries_view(entries@);
    let mut sum: u64 = 0;
    let mut i: usize = 0;
    while i < entries.len()
        invariant
            i <= entries@.len(),
            es == entry::entries_view(entries@),
            sum == totals::total(es, by_duration(), i as nat),
        decreases entries@.len() - i,
    {
        assert(es[i as int] == entries@[i as int]@);
        proof {
            totals::lemma_total_grows(es, by_duration(), (i + 1) as nat, es.len());
        }
        match sum.checked_add(entry_duration(&entries[i])) {
            Some(more) => {
                sum = more;
            },
            None => {
                return None;
            },
        }
        i += 1;
    }
    Some(sum)
}

/// Adds up the durations of a session.
fn add_session_durations(entries: &Vec<UsageEntry>, id: &String) -> (r: u64)
    requires
        durations(entry::entries_view(entries@)) <= u64::MAX,
    ensures
        r == session_duration(entry::entries_view(entries@), id@),
{
    let ghost es = entry::entries_view(entries@);
    let ghost key = totals::session_key();
    let mut sum: u64 = 0;
    let mut i: usize = 0;
    while i < entries.len()
        invariant
            i <= entries@.len(),
            es == entry::entries_view(entries@),
            key == totals::session_key(),
            durations(es) <= u64::MAX,
            sum == totals::keyed_total(es, key, id@, by_duration(), i as nat),
        decreases entries@.len() - i,
    {
        assert(es[i as int] == entries@[i as int]@);
        proof {
            let next = (i + 1) as nat;
            totals::lemma_keyed_total_bound(es, key, id@, by_duration(), next);
            totals::lemma_total_grows(es, by_duration(), next, es.len());
        }
        if entries[i].session_id == *id {
            sum = sum + entry_duration(&entries[i]);
        }
        i += 1;
    }
    sum
}

/// Draws up the report on a session.
pub fn summarize_session(
    entries: &Vec<UsageEntry>,
    id: &String,
    rules: &Vec<PricingRule>,
) -> (r: SessionSummary)
    requires
        totals::counts_fit(entry::entries_view(entries@), entries@.len()),
        durations(entry::entries_view(entries@)) <= u64::MAX,
        exists|i: int| 0 <= i < entries@.len() && (#[trigger] entries@[i])@.session_id == id@,
        rules@.len() > 0,
    ensures
        r@ == session_report(
            entry::entries_view(entries@),
            id@,
            pricing::rules_view(rules@),
        ),
{
    let ghost es = entry::entries_view(entries@);
    let (first, last) = session_ends(entries, id);
    let counts = session_counts(entries, id, last);
    assert(es[first as int] == entries@[first as int]@);
    assert(es[last as int] == entries@[last as int]@);
    assert(totals::sum_of(counts, Count::Total) == counts.total);
    assert(totals::sum_of(counts, Count::Input) == counts.input);
    assert(totals::sum_of(counts, Count::Output) == counts.output);
    assert(totals::sum_of(counts, Count::Reasoning) == counts.reasoning);
    assert(totals::sum_of(counts, Count::CacheRead) == counts.cache_read);
    let model = text_or_else(&entries[last].model, "Unknown Model");
    let bill = bill_for(rules, model.as_str(), counts.input, counts.output, counts.cache_read);
    SessionSummary {
        session_id: id.clone(),
        session_name: text_or_else(&entries[last].session_name, "Start Coding Session"),
        cwd: match &entries[last].cwd {
            Some(cwd) => cwd.clone(),
            None => String::new(),
        },
        model,
        total_tokens: counts.total,
        total_input_tokens: counts.input,
        total_output_tokens: counts.output,
        total_cache_read_tokens: counts.cache_read,
        total_reasoning_tokens: counts.reasoning,
        max_turn_no: entries[last].turn_no,
        timestamp: entries[first].timestamp.clone(),
        duration_ms: add_session_durations(entries, id),
        bill,
    }
}

/// The sums over a day or a month.
#[derive(Clone, Copy, Debug, PartialEq, Eq)]
pub struct DaySummary {
    pub total_sessions: usize,
    pub total_tokens: u64,
    pub total_input_tokens: u64,
    pub total_output_tokens: u64,
    pub total_reasoning_tokens: u64,
    pub total_cache_read_tokens: u64,
    pub total_duration_ms: u64,
    pub total_requests: u64,
}

impl Default for DaySummary {
    fn default() -> (r: DaySummary)
        ensures
            r == (DaySummary {
                total_sessions: 0,
                total_tokens: 0,
                total_input_tokens: 0,
                total_output_tokens: 0,
                total_reasoning_tokens: 0,
                total_cache_read_tokens: 0,
                total_duration_ms: 0,
                total_requests: 0,
            }),
    {
        DaySummary {
            total_sessions: 0,
            total_tokens: 0,
            total_input_tokens: 0,
            total_output_tokens: 0,
            total_reasoning_tokens: 0,
            total_cache_read_tokens: 0,
            total_duration_ms: 0,
            total_requests: 0,
        }
    }
}

/// The sessions of some entries, in the order of their first entry.
pub open spec fn sessions_of(es: Seq<EntryView>) -> Seq<Seq<char>> {
    totals::keys(es, totals::session_key(), es.len())
}

/// The sums over a day.
pub open spec fn day_summary(es: Seq<EntryView>) -> DaySummary {
    let n = es.len();
    DaySummary {
        total_sessions: sessions_of(es).len() as usize,
        total_tokens: totals::total(es, totals::by_count(Count::Total), n) as u64,
        total_input_tokens: totals::total(es, totals::by_count(Count::Input), n) as u64,
        total_output_tokens: totals::total(es, totals::by_count(Count::Output), n) as u64,
        total_reasoning_tokens: totals::total(es, totals::by_count(Count::Reasoning), n) as u64,
        total_cache_read_tokens: totals::total(es, totals::by_count(Count::CacheRead), n) as u64,
        total_duration_ms: durations(es) as u64,
        total_requests: n as u64,
    }
}

/// The reports on the sessions of a day, in the order of their first entry.
pub open spec fn session_reports(es: Seq<EntryView>, rules: Seq<RuleView>) -> Seq<SessionView> {
    sessions_of(es).map_values(|id: Seq<char>| session_report(es, id, rules))
}

/// The later of two sessions comes first.
pub open spec fn newest_first() -> spec_fn(SessionView, SessionView) -> bool {
    |a: SessionView, b: SessionView| text::text_before(b.timestamp, a.timestamp)
}

/// The sums over a day fit in 64 bits.
pub open spec fn day_fits(es: Seq<EntryView>) -> bool {
    totals::counts_fit(es, es.len()) && durations(es) <= u64::MAX
}

/// What session summaries stand for.
pub open spec fn sessions_view(s: Seq<SessionSummary>) -> Seq<SessionView> {
    s.map_values(|x: SessionSummary| x@)
}

/// Why there is no report.
#[derive(Clone, Copy, Debug, PartialEq, Eq)]
pub enum ReportError {
    /// There are no entries to report on.
    NoEntries,
    /// A timestamp does not begin with a date of ten bytes.
    Undated,
    /// A sum does not fit in 64 bits.
    TooLarge,
}

/// The report on a day.
pub struct UsageDetails {
    pub summary: DaySummary,
    pub sessions: Vec<SessionSummary>,
}

/// Every listed session has an entry.
pub(crate) proof fn lemma_session_has_entry(entries: Seq<UsageEntry>, q: int)
    requires
        0 <= q < sessions_of(entry::entries_view(entries)).len(),
    ensures
        exists|i: int|
            0 <= i < entries.len() && (#[trigger] entries[i])@.session_id == sessions_of(
                entry::entries_view(entries),
            )[q],
{
    let es = entry::entries_view(entries);
    totals::lemma_keys(es, totals::session_key(), es.len());
    let i = choose|i: int|
        0 <= i < es.len() && totals::session_key()(#[trigger] es[i]) == sessions_of(es)[q];
    assert(es[i] == entries[i]@);
}

/// Draws up the report on a day; the sessions stand newest first.
pub fn usage_details(entries: &Vec<UsageEntry>, rules: &Vec<PricingRule>) -> (r: Result<
    UsageDetails,
    ReportError,
>)
    requires
        rules@.len() > 0,
    ensures
        r == Err::<UsageDetails, ReportError>(ReportError::NoEntries) <==> entries@.len() == 0,
        r == Err::<UsageDetails, ReportError>(ReportError::TooLarge) <==> entries@.len() > 0
            && !day_fits(entry::entries_view(entries@)),
        r is Ok <==> entries@.len() > 0 && day_fits(entry::entries_view(entries@)),
        r matches Ok(d) ==> {
            &&& d.summary == day_summary(entry::entries_view(entries@))
            &&& order::sorted(
                session_reports(
                    entry::entries_view(entries@),
                    pricing::rules_view(rules@),
                ),
                sessions_view(d.sessions@),
                newest_first(),
            )
        },
{
    let ghost es = entry::entries_view(entries@);
    let ghost rs = pricing::rules_view(rules@);
    if entries.len() == 0 {
        return Err(ReportError::NoEntries);
    }
    let counts = match count_entries(entries) {
        Some(counts) => counts,
        None => {
            return Err(ReportError::TooLarge);
        },
    };
    let duration: u64 = match add_durations(entries) {
        Some(duration) => duration,
        None => {
            return Err(ReportError::TooLarge);
        },
    };
    let ids = distinct_keys(entries, Grouping::Session);
    let ghost reports = session_reports(es, rs);
    assert(text::texts(ids@).len() == ids@.len());
    assert(text::texts(ids@) == sessions_of(es));
    let mut summaries: Vec<SessionSummary> = Vec::new();
    let mut times: Vec<Newest> = Vec::new();
    let mut k: usize = 0;
    while k < ids.len()
        invariant
            k <= ids@.len(),
            entries@.len() > 0,
            rules@.len() > 0,
            es == entry::entries_view(entries@),
            rs == pricing::rules_view(rules@),
            totals::counts_fit(es, es.len()),
            durations(es) <= u64::MAX,
            text::texts(ids@) == sessions_of(es),
            reports == session_reports(es, rs),
            summaries@.len() == k,
            times@.len() == k,
            forall|j: int| 0 <= j < k ==> (#[trigger] summaries@[j])@ == reports[j],
            forall|j: int| 0 <= j < k ==> (#[trigger] times@[j]).0@ == reports[j].timestamp,
        decreases ids@.len() - k,
    {
        proof {
            assert(text::texts(ids@)[k as int] == ids@[k as int]@);
            lemma_session_has_entry(entries@, k as int);
        }
        let summary = summarize_session(entries, &ids[k], rules);
        assert(summary@ == reports[k as int]);
        times.push(Newest(summary.timestamp.clone()));
        summaries.push(summary);
        k += 1;
    }
    let ranks = ranks_of(&times);
    let ghost all = summaries@;
    let total_sessions: usize = summaries.len();
    proof {
        order::lemma_same_order(
            ranks@,
            reports.len(),
            |i: int, j: int| order::Ranked::precedes(times@[i], times@[j]),
            order::by_place(reports, newest_first()),
        );
    }
    let sessions = order::arrange(summaries, &ranks);
    assert(sessions_view(sessions@) =~= ranks@.map_values(|r: usize| reports[r as int]));
    assert(totals::sum_of(counts, Count::Total) == counts.total);
    assert(totals::sum_of(counts, Count::Input) == counts.input);
    assert(totals::sum_of(counts, Count::Output) == counts.output);
    assert(totals::sum_of(counts, Count::Reasoning) == counts.reasoning);
    assert(totals::sum_of(counts, Count::CacheRead) == counts.cache_read);
    Ok(
        UsageDetails {
            summary: DaySummary {
                total_sessions,
                total_tokens: counts.total,
                total_input_tokens: counts.input,
                total_output_tokens: counts.output,
                total_reasoning_tokens: counts.reasoning,
                total_cache_read_tokens: counts.cache_read,
                total_duration_ms: duration,
                total_requests: entries.len() as u64,
            },
            sessions,
        },
    )
}

} // verus!
