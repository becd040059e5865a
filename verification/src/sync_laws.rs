//! What becomes of the tables while session files are worked on.

use crate::entry::EntryView;
use crate::json::JsonView;
use crate::rows;
use crate::rows::RowView;
use crate::schema;
use crate::schema::{SchemaPart, SchemaStep};
use crate::session;
use crate::session::SourceView;
use crate::sync;
use crate::sync::{Answer, Outcome, SyncState};
use vstd::prelude::*;

verus! {

/// A row of usage entries under its number.
pub struct StoredRow {
    pub id: int,
    pub row: RowView,
}

/// The size that was recorded of a file, and when.
pub struct SizeRecord {
    pub size: i64,
    pub time: i64,
}

/// What the tables hold: the rows of usage entries, the number of the next row, and what was
/// recorded of the files.
pub struct Contents {
    pub rows: Seq<StoredRow>,
    pub next_id: int,
    pub sizes: Map<Seq<char>, SizeRecord>,
}

/// The tables; and, within a transaction, what they held when it was begun.
pub struct Tables {
    pub now: Contents,
    pub saved: Option<Contents>,
}

/// A file that is worked on: its name, its size, the time, and the date, the session and the
/// entries in it.
pub struct Job {
    pub filename: Seq<char>,
    pub size: u64,
    pub time: i64,
    pub date: Seq<char>,
    pub session_id: Seq<char>,
    pub entries: Seq<EntryView>,
}

/// The rows of all other sessions.
pub open spec fn other_rows(rows: Seq<StoredRow>, session_id: Seq<char>) -> Seq<StoredRow> {
    rows.filter(|r: StoredRow| r.row.session_id != session_id)
}

/// The rows for the entries of a file, numbered from `first`.
pub open spec fn new_rows(job: Job, first: int) -> Seq<StoredRow> {
    Seq::new(
        job.entries.len(),
        |k: int| StoredRow { id: first + k, row: rows::row_for(job.entries[k], job.date) },
    )
}

/// The contents with the rows of the session replaced and the size of the file recorded.
pub open spec fn replaced(c: Contents, job: Job, size: u64) -> Contents {
    Contents {
        rows: other_rows(c.rows, job.session_id) + new_rows(job, c.next_id),
        next_id: c.next_id + job.entries.len(),
        sizes: c.sizes.insert(
            job.filename,
            SizeRecord { size: rows::signed(size), time: job.time },
        ),
    }
}

/// The tables after what a state asks for was done; where it could not be done, they are as
/// before.
pub open spec fn effect(t: Tables, job: Job, state: SyncState, answer: Answer) -> Tables {
    if answer != Answer::Done {
        t
    } else {
        match state {
            SyncState::Begin { .. } => Tables { saved: Some(t.now), ..t },
            SyncState::Delete { .. } => Tables {
                now: Contents { rows: other_rows(t.now.rows, job.session_id), ..t.now },
                ..t
            },
            SyncState::Insert { next, .. } => Tables {
                now: Contents {
                    rows: t.now.rows.push(
                        StoredRow {
                            id: t.now.next_id,
                            row: rows::row_for(job.entries[next as int], job.date),
                        },
                    ),
                    next_id: t.now.next_id + 1,
                    ..t.now
                },
                ..t
            },
            SyncState::Record { size, .. } => Tables {
                now: Contents {
                    sizes: t.now.sizes.insert(
                        job.filename,
                        SizeRecord { size: rows::signed(size), time: job.time },
                    ),
                    ..t.now
                },
                ..t
            },
            SyncState::Commit { .. } => Tables { saved: None, ..t },
            SyncState::RollBack => match t.saved {
                Some(before) => Tables { now: before, saved: None },
                None => t,
            },
            _ => t,
        }
    }
}

/// The tables after the first `n` answers.
pub open spec fn tables_after(t: Tables, job: Job, answers: Seq<Answer>, n: nat) -> Tables
    decreases n,
{
    if n == 0 {
        t
    } else {
        effect(
            tables_after(t, job, answers, (n - 1) as nat),
            job,
            sync::after(answers, (n - 1) as nat),
            answers[n - 1],
        )
    }
}

/// The answers tell the number of entries in the file.
pub open spec fn counted(job: Job, answers: Seq<Answer>) -> bool {
    forall|i: int|
        0 <= i < answers.len() ==> ((#[trigger] answers[i]) matches Answer::Entries { count }
            ==> count == job.entries.len())
}

/// Every transaction that was to be rolled back was rolled back.
pub open spec fn rolled_back(answers: Seq<Answer>) -> bool {
    forall|i: int|
        0 <= i < answers.len() && sync::after(answers, i as nat) is RollBack
            ==> #[trigger] answers[i] == Answer::Done
}

/// The tables in a state.
spec fn tables_in(t: Tables, job: Job, state: SyncState, now: Tables) -> bool {
    let kept = other_rows(t.now.rows, job.session_id);
    let all = new_rows(job, t.now.next_id);
    let saved = Some(t.now);
    match state {
        SyncState::Begin { entries, .. } => now == t && entries == all.len(),
        SyncState::Delete { entries, .. } => {
            &&& now == (Tables { saved, ..t })
            &&& entries == all.len()
        },
        SyncState::Insert { entries, next, .. } => {
            &&& now.now.rows == kept + all.take(next as int)
            &&& now.now.next_id == t.now.next_id + next
            &&& now.now.sizes == t.now.sizes
            &&& now.saved == saved
            &&& entries == all.len()
            &&& next < entries
        },
        SyncState::Record { entries, .. } => {
            &&& now.now.rows == kept + all
            &&& now.now.next_id == t.now.next_id + all.len()
            &&& now.now.sizes == t.now.sizes
            &&& now.saved == saved
            &&& entries == all.len()
        },
        SyncState::Commit { size, entries } => {
            &&& now.now == replaced(t.now, job, size)
            &&& now.saved == saved
            &&& entries == all.len()
        },
        SyncState::RollBack => now.saved == saved,
        SyncState::Finished { outcome } => outcome == Outcome::Committed || now == t,
        _ => now == t,
    }
}

proof fn lemma_tables_step(t: Tables, job: Job, state: SyncState, now: Tables, answer: Answer)
    requires
        t.saved is None,
        tables_in(t, job, state, now),
        answer matches Answer::Entries { count } ==> count == job.entries.len(),
        state is RollBack ==> answer == Answer::Done,
    ensures
        tables_in(t, job, sync::step(state, answer), effect(now, job, state, answer)),
{
    let all = new_rows(job, t.now.next_id);
    let kept = other_rows(t.now.rows, job.session_id);
    match state {
        SyncState::Delete { .. } => {
            if answer == Answer::Done {
                assert(kept + all.take(0) =~= kept);
                if all.len() == 0 {
                    assert(kept + all =~= kept);
                }
            }
        },
        SyncState::Insert { next, .. } => {
            if answer == Answer::Done {
                assert((kept + all.take(next as int)).push(all[next as int]) =~= kept + all.take(
                    next + 1,
                ));
                if next + 1 == all.len() {
                    assert(all.take(next + 1) =~= all);
                }
            }
        },
        _ => {},
    }
}

proof fn lemma_tables_so_far(t: Tables, job: Job, answers: Seq<Answer>, n: nat)
    requires
        t.saved is None,
        n <= answers.len(),
        counted(job, answers),
        rolled_back(answers),
    ensures
        tables_in(t, job, sync::after(answers, n), tables_after(t, job, answers, n)),
    decreases n,
{
    if n > 0 {
        lemma_tables_so_far(t, job, answers, (n - 1) as nat);
        lemma_tables_step(
            t,
            job,
            sync::after(answers, (n - 1) as nat),
            tables_after(t, job, answers, (n - 1) as nat),
            answers[n - 1],
        );
    }
}

/// The tables hold either all that was read or what they held before: where the work ends
/// without a commit, nothing has changed.
pub proof fn lemma_unchanged_unless_committed(t: Tables, job: Job, answers: Seq<Answer>)
    requires
        t.saved is None,
        counted(job, answers),
        rolled_back(answers),
        sync::after(answers, answers.len()) is Finished,
        sync::after(answers, answers.len()) != (SyncState::Finished {
            outcome: Outcome::Committed,
        }),
    ensures
        tables_after(t, job, answers, answers.len()) == t,
{
    lemma_tables_so_far(t, job, answers, answers.len());
}

/// A commit replaces the rows of the session by those for the entries in the file, in their
/// order, and records the size of the file; the rows of other sessions and the sizes of other
/// files are as before.
pub proof fn lemma_replaced_when_committed(t: Tables, job: Job, answers: Seq<Answer>, n: nat)
    requires
        t.saved is None,
        n <= answers.len(),
        counted(job, answers),
        rolled_back(answers),
        sync::after(answers, n) == (SyncState::Finished { outcome: Outcome::Committed }),
    ensures
        tables_after(t, job, answers, n) == (Tables {
            now: replaced(t.now, job, answers[1]->size),
            saved: None,
        }),
    decreases n,
{
    if n > 0 {
        let before = sync::after(answers, (n - 1) as nat);
        if before is Finished {
            lemma_replaced_when_committed(t, job, answers, (n - 1) as nat);
        } else {
            lemma_tables_so_far(t, job, answers, (n - 1) as nat);
            sync::lemma_size_kept(answers, (n - 1) as nat);
        }
    }
}

/// After a commit the session has the rows for the entries in the file, and no others.
pub proof fn lemma_session_rows_after_commit(c: Contents, job: Job, size: u64)
    requires
        forall|k: int|
            0 <= k < job.entries.len() ==> (#[trigger] job.entries[k]).session_id
                == job.session_id,
    ensures
        replaced(c, job, size).rows.filter(|r: StoredRow| r.row.session_id == job.session_id)
            == new_rows(job, c.next_id),
{
    let mine = |r: StoredRow| r.row.session_id == job.session_id;
    let kept = other_rows(c.rows, job.session_id);
    let all = new_rows(job, c.next_id);
    Seq::filter_distributes_over_add(kept, all, mine);
    lemma_filter_none(kept, mine, c.rows, |r: StoredRow| r.row.session_id != job.session_id);
    lemma_filter_all(all, mine);
}

proof fn lemma_filter_none<A>(
    kept: Seq<A>,
    p: spec_fn(A) -> bool,
    s: Seq<A>,
    q: spec_fn(A) -> bool,
)
    requires
        kept == s.filter(q),
        forall|x: A| #[trigger] q(x) ==> !p(x),
    ensures
        kept.filter(p) == Seq::<A>::empty(),
    decreases s.len(),
{
    reveal(Seq::filter);
    if s.len() > 0 {
        lemma_filter_none(s.drop_last().filter(q), p, s.drop_last(), q);
        if q(s.last()) {
            assert(kept.drop_last() =~= s.drop_last().filter(q));
        }
    }
}

proof fn lemma_filter_all<A>(s: Seq<A>, p: spec_fn(A) -> bool)
    requires
        forall|i: int| 0 <= i < s.len() ==> p(#[trigger] s[i]),
    ensures
        s.filter(p) == s,
    decreases s.len(),
{
    reveal(Seq::filter);
    if s.len() > 0 {
        lemma_filter_all(s.drop_last(), p);
        assert(s.drop_last().push(s.last()) =~= s);
    } else {
        assert(s.filter(p) =~= s);
    }
}

/// The tables after the first `k` files of a run.
pub open spec fn run(t: Tables, jobs: Seq<Job>, answers: Seq<Seq<Answer>>, k: nat) -> Tables
    decreases k,
{
    if k == 0 {
        t
    } else {
        tables_after(
            run(t, jobs, answers, (k - 1) as nat),
            jobs[k - 1],
            answers[k - 1],
            answers[k - 1].len(),
        )
    }
}

/// What the tables answer when they are asked for the size of a file.
pub open spec fn recorded(t: Tables, job: Job) -> Answer {
    sync::size_in(
        if t.now.sizes.contains_key(job.filename) {
            Some(t.now.sizes[job.filename].size)
        } else {
            None
        },
    )
}

/// The first answers are the recorded size and the size of the file.
pub open spec fn looked_up(t: Tables, job: Job, answers: Seq<Answer>) -> bool {
    &&& answers.len() >= 2
    &&& answers[0] == recorded(t, job)
    &&& answers[1] == (Answer::Size { size: job.size })
}

/// Nothing fails in the work on a file.
pub open spec fn smooth(t: Tables, job: Job, answers: Seq<Answer>) -> bool {
    &&& looked_up(t, job, answers)
    &&& answers.len() >= job.entries.len() + 7
    &&& answers[2] is Entries && answers[2]->count == job.entries.len()
    &&& forall|i: int| 3 <= i < answers.len() ==> #[trigger] answers[i] == Answer::Done
}

/// Nothing fails in a run.
pub open spec fn smooth_run(t: Tables, jobs: Seq<Job>, answers: Seq<Seq<Answer>>) -> bool {
    &&& answers.len() == jobs.len()
    &&& forall|k: int|
        0 <= k < jobs.len() ==> smooth(
            run(t, jobs, answers, k as nat),
            jobs[k],
            #[trigger] answers[k],
        )
}

/// The files of two runs have the same names and sizes.
pub open spec fn same_files(jobs: Seq<Job>, again: Seq<Job>) -> bool {
    &&& again.len() == jobs.len()
    &&& forall|k: int|
        0 <= k < jobs.len() ==> (#[trigger] again[k]).filename == jobs[k].filename
            && again[k].size == jobs[k].size
}

/// The state asks for a statement that can change the tables.
pub open spec fn writes(state: SyncState) -> bool {
    match state {
        SyncState::LookUp => false,
        SyncState::Measure { .. } => false,
        SyncState::Read { .. } => false,
        SyncState::Finished { .. } => false,
        _ => true,
    }
}

/// The tables know the size of the file.
spec fn settled(t: Tables, job: Job) -> bool {
    recorded(t, job) == (Answer::Size { size: job.size }) || (recorded(t, job) == Answer::Failed
        && job.size == 0)
}

proof fn lemma_settled_skipped(t: Tables, job: Job, answers: Seq<Answer>, n: nat)
    requires
        settled(t, job),
        looked_up(t, job, answers),
    ensures
        tables_after(t, job, answers, n) == t,
        !writes(sync::after(answers, n)),
        n >= 2 ==> sync::after(answers, n) == (SyncState::Finished { outcome: Outcome::Skipped }),
    decreases n,
{
    if n > 0 {
        lemma_settled_skipped(t, job, answers, (n - 1) as nat);
        reveal_with_fuel(sync::after, 3);
    }
}

proof fn lemma_smooth(t: Tables, job: Job, answers: Seq<Answer>)
    requires
        t.saved is None,
        job.size <= i64::MAX,
        smooth(t, job, answers),
    ensures
        ({
            let then_tables = tables_after(t, job, answers, answers.len());
            &&& then_tables.saved is None
            &&& settled(then_tables, job)
            &&& forall|f: Seq<char>|
                f != job.filename ==> (#[trigger] then_tables.now.sizes.contains_key(f)
                    <==> t.now.sizes.contains_key(f)) && then_tables.now.sizes[f]
                    == t.now.sizes[f]
        }),
{
    if settled(t, job) {
        lemma_settled_skipped(t, job, answers, answers.len());
    } else {
        sync::lemma_replaced(answers, job.size, job.entries.len());
        assert(rolled_back(answers)) by {
            reveal_with_fuel(sync::after, 3);
        }
        lemma_replaced_when_committed(t, job, answers, answers.len());
    }
}

proof fn lemma_run_settles(t: Tables, jobs: Seq<Job>, answers: Seq<Seq<Answer>>, k: nat)
    requires
        t.saved is None,
        k <= jobs.len(),
        forall|i: int| 0 <= i < jobs.len() ==> (#[trigger] jobs[i]).size <= i64::MAX,
        forall|i: int, j: int|
            0 <= i < j < jobs.len() ==> (#[trigger] jobs[i]).filename != (
            #[trigger] jobs[j]).filename,
        smooth_run(t, jobs, answers),
    ensures
        run(t, jobs, answers, k).saved is None,
        forall|i: int| 0 <= i < k ==> settled(run(t, jobs, answers, k), #[trigger] jobs[i]),
    decreases k,
{
    if k > 0 {
        lemma_run_settles(t, jobs, answers, (k - 1) as nat);
        let before = run(t, jobs, answers, (k - 1) as nat);
        assert(smooth(before, jobs[k - 1], answers[k - 1]));
        lemma_smooth(before, jobs[k - 1], answers[k - 1]);
        let now = run(t, jobs, answers, k);
        assert forall|i: int| 0 <= i < k implies settled(now, #[trigger] jobs[i]) by {
            if i < k - 1 {
                assert(settled(before, jobs[i]));
                assert(now.now.sizes.contains_key(jobs[i].filename)
                    <==> before.now.sizes.contains_key(jobs[i].filename));
            }
        }
    }
}

/// A second run over files that have not changed changes nothing: it asks for no statement
/// that writes, and every file is skipped. The rows, their numbers, the recorded sizes and
/// the times are what the first run, in which nothing failed, left.
pub proof fn lemma_second_run_changes_nothing(
    t: Tables,
    jobs: Seq<Job>,
    answers: Seq<Seq<Answer>>,
    again: Seq<Job>,
    more: Seq<Seq<Answer>>,
)
    requires
        t.saved is None,
        forall|i: int| 0 <= i < jobs.len() ==> (#[trigger] jobs[i]).size <= i64::MAX,
        forall|i: int, j: int|
            0 <= i < j < jobs.len() ==> (#[trigger] jobs[i]).filename != (
            #[trigger] jobs[j]).filename,
        smooth_run(t, jobs, answers),
        same_files(jobs, again),
        more.len() == again.len(),
        forall|k: int|
            0 <= k < again.len() ==> looked_up(
                run(run(t, jobs, answers, jobs.len()), again, more, k as nat),
                again[k],
                #[trigger] more[k],
            ),
    ensures
        run(run(t, jobs, answers, jobs.len()), again, more, again.len()) == run(
            t,
            jobs,
            answers,
            jobs.len(),
        ),
        forall|k: int|
            0 <= k < again.len() ==> sync::after(#[trigger] more[k], more[k].len()) == (
            SyncState::Finished { outcome: Outcome::Skipped }),
        forall|k: int, n: nat|
            0 <= k < again.len() ==> !writes(#[trigger] sync::after(more[k], n)),
{
    let first = run(t, jobs, answers, jobs.len());
    lemma_run_settles(t, jobs, answers, jobs.len());
    assert forall|k: int| 0 <= k < again.len() implies settled(first, #[trigger] again[k]) by {
        assert(settled(first, jobs[k]));
    }
    lemma_settled_run(first, again, more, again.len());
    assert forall|k: int| 0 <= k < again.len() implies sync::after(#[trigger] more[k], more[k].len())
        == (SyncState::Finished { outcome: Outcome::Skipped }) by {
        lemma_settled_run(first, again, more, k as nat);
        assert(settled(first, again[k]));
        lemma_settled_skipped(first, again[k], more[k], more[k].len());
    }
    assert forall|k: int, n: nat| 0 <= k < again.len() implies !writes(
        #[trigger] sync::after(more[k], n),
    ) by {
        lemma_settled_run(first, again, more, k as nat);
        assert(looked_up(run(first, again, more, k as nat), again[k], more[k]));
        assert(settled(first, again[k]));
        lemma_settled_skipped(first, again[k], more[k], n);
    }
}

proof fn lemma_settled_run(t: Tables, again: Seq<Job>, more: Seq<Seq<Answer>>, k: nat)
    requires
        k <= again.len(),
        more.len() == again.len(),
        forall|i: int| 0 <= i < again.len() ==> settled(t, #[trigger] again[i]),
        forall|i: int|
            0 <= i < again.len() ==> looked_up(
                run(t, again, more, i as nat),
                again[i],
                #[trigger] more[i],
            ),
    ensures
        run(t, again, more, k) == t,
    decreases k,
{
    if k > 0 {
        lemma_settled_run(t, again, more, (k - 1) as nat);
        assert(looked_up(run(t, again, more, (k - 1) as nat), again[k - 1], more[k - 1]));
        assert(settled(t, again[k - 1]));
        lemma_settled_skipped(t, again[k - 1], more[k - 1], more[k - 1].len());
    }
}

/// Two rows are for the same turn of the same session.
pub open spec fn same_turn(a: RowView, b: RowView) -> bool {
    a.session_id == b.session_id && a.turn_no == b.turn_no
}

/// No two rows are for the same turn of the same session.
pub open spec fn turns_unique(rows: Seq<StoredRow>) -> bool {
    forall|i: int, j: int|
        0 <= i < j < rows.len() ==> !same_turn((#[trigger] rows[i]).row, (#[trigger] rows[j]).row)
}

/// No two rows are for the same turn of the same session, nor are any two that a roll-back
/// would bring back.
pub open spec fn tables_unique(t: Tables) -> bool {
    &&& turns_unique(t.now.rows)
    &&& t.saved matches Some(before) ==> turns_unique(before.rows)
}

/// The entries in a file are all of one session, and no two of the same turn.
pub open spec fn one_session(job: Job) -> bool {
    &&& forall|k: int|
        0 <= k < job.entries.len() ==> (#[trigger] job.entries[k]).session_id == job.session_id
    &&& forall|j: int, k: int|
        0 <= j < k < job.entries.len() ==> (#[trigger] job.entries[j]).turn_no != (
        #[trigger] job.entries[k]).turn_no
}

/// The entries of a session are all of it, and no two of the same turn.
pub proof fn lemma_one_session(events: Seq<JsonView>, source: SourceView, job: Job)
    requires
        job.entries == session::session_entries(events, source),
        job.session_id == source.session_id,
        job.entries.len() <= u32::MAX,
    ensures
        one_session(job),
{
    session::lemma_turn_numbers(events, source);
}

proof fn lemma_filter_unique(s: Seq<StoredRow>, p: spec_fn(StoredRow) -> bool)
    requires
        turns_unique(s),
    ensures
        turns_unique(s.filter(p)),
        forall|i: int|
            0 <= i < s.filter(p).len() ==> p(#[trigger] s.filter(p)[i]) && s.contains(
                s.filter(p)[i],
            ),
    decreases s.len(),
{
    reveal(Seq::filter);
    if s.len() > 0 {
        let rest = s.drop_last();
        lemma_filter_unique(rest, p);
        let before = rest.filter(p);
        let now = s.filter(p);
        assert forall|i: int| 0 <= i < now.len() implies p(#[trigger] now[i]) && s.contains(
            now[i],
        ) by {
            if i < before.len() {
                assert(now[i] == before[i]);
                let k = rest.index_of(before[i]);
                assert(s[k] == now[i]);
            } else {
                assert(s[s.len() - 1] == now[i]);
            }
        }
        assert forall|i: int, j: int| 0 <= i < j < now.len() implies !same_turn(
            (#[trigger] now[i]).row,
            (#[trigger] now[j]).row,
        ) by {
            assert(now[i] == before[i]);
            if j < before.len() {
                assert(now[j] == before[j]);
            } else {
                assert(rest.contains(before[i]));
                let k = rest.index_of(before[i]);
                assert(s[k] == now[i]);
                assert(s[s.len() - 1] == now[j]);
            }
        }
    }
}

proof fn lemma_joined_unique(rows: Seq<StoredRow>, job: Job, first: int, next: int)
    requires
        turns_unique(rows),
        one_session(job),
        0 <= next <= job.entries.len(),
    ensures
        turns_unique(other_rows(rows, job.session_id) + new_rows(job, first).take(next)),
        forall|i: int|
            0 <= i < other_rows(rows, job.session_id).len() ==> (#[trigger] other_rows(
                rows,
                job.session_id,
            )[i]).row.session_id != job.session_id,
{
    let kept = other_rows(rows, job.session_id);
    let new = new_rows(job, first).take(next);
    lemma_filter_unique(rows, |r: StoredRow| r.row.session_id != job.session_id);
    let all = kept + new;
    assert forall|i: int, j: int| 0 <= i < j < all.len() implies !same_turn(
        (#[trigger] all[i]).row,
        (#[trigger] all[j]).row,
    ) by {
        if j < kept.len() {
            assert(all[i] == kept[i] && all[j] == kept[j]);
        } else {
            let b = job.entries[j - kept.len()];
            assert(all[j].row == rows::row_for(b, job.date));
            if i < kept.len() {
                assert(all[i] == kept[i]);
            } else {
                let a = job.entries[i - kept.len()];
                assert(all[i].row == rows::row_for(a, job.date));
                assert(a.turn_no != b.turn_no);
            }
        }
    }
}

/// The rows in a state.
spec fn rows_in(t: Tables, job: Job, state: SyncState, now: Tables) -> bool {
    let kept = other_rows(t.now.rows, job.session_id);
    let len = job.entries.len();
    &&& tables_unique(now)
    &&& match state {
        SyncState::LookUp => now.now == t.now,
        SyncState::Measure { .. } => now.now == t.now,
        SyncState::Read { .. } => now.now == t.now,
        SyncState::Begin { entries, .. } => now.now == t.now && entries == len,
        SyncState::Delete { entries, .. } => now.now == t.now && entries == len,
        SyncState::Insert { entries, next, .. } => {
            &&& now.now.rows == kept + new_rows(job, t.now.next_id).take(next as int)
            &&& now.now.next_id == t.now.next_id + next
            &&& entries == len
            &&& next < len
        },
        _ => true,
    }
}

proof fn lemma_rows_so_far(t: Tables, job: Job, answers: Seq<Answer>, n: nat)
    requires
        n <= answers.len(),
        counted(job, answers),
        one_session(job),
        tables_unique(t),
    ensures
        rows_in(t, job, sync::after(answers, n), tables_after(t, job, answers, n)),
    decreases n,
{
    if n > 0 {
        lemma_rows_so_far(t, job, answers, (n - 1) as nat);
        let before = sync::after(answers, (n - 1) as nat);
        let all = new_rows(job, t.now.next_id);
        let kept = other_rows(t.now.rows, job.session_id);
        if answers[n - 1] == Answer::Done {
            if let SyncState::Delete { .. } = before {
                lemma_joined_unique(t.now.rows, job, t.now.next_id, 0);
                assert(kept + all.take(0) =~= kept);
            }
            if let SyncState::Insert { next, .. } = before {
                lemma_joined_unique(t.now.rows, job, t.now.next_id, next + 1);
                assert((kept + all.take(next as int)).push(all[next as int]) =~= kept + all.take(
                    next + 1,
                ));
            }
        }
    }
}

/// Where no two rows are for the same turn of the same session, none are at any time in the
/// work on a file, whatever fails.
pub proof fn lemma_turns_stay_unique(t: Tables, job: Job, answers: Seq<Answer>, n: nat)
    requires
        n <= answers.len(),
        counted(job, answers),
        one_session(job),
        tables_unique(t),
    ensures
        tables_unique(tables_after(t, job, answers, n)),
{
    lemma_rows_so_far(t, job, answers, n);
}

/// An entry that is to be inserted is for a turn that the tables have no row for.
pub proof fn lemma_inserted_turn_is_new(t: Tables, job: Job, answers: Seq<Answer>, n: nat, i: int)
    requires
        n <= answers.len(),
        counted(job, answers),
        one_session(job),
        tables_unique(t),
        sync::after(answers, n) is Insert,
        0 <= i < tables_after(t, job, answers, n).now.rows.len(),
    ensures
        !same_turn(
            tables_after(t, job, answers, n).now.rows[i].row,
            rows::row_for(job.entries[sync::after(answers, n)->next as int], job.date),
        ),
{
    lemma_rows_so_far(t, job, answers, n);
    let next = sync::after(answers, n)->next as int;
    let kept = other_rows(t.now.rows, job.session_id);
    let all = new_rows(job, t.now.next_id);
    lemma_joined_unique(t.now.rows, job, t.now.next_id, next + 1);
    let joined = kept + all.take(next + 1);
    let rows = tables_after(t, job, answers, n).now.rows;
    assert(joined[i] == rows[i]);
    assert(joined[joined.len() - 1] == all[next]);
}

/// Where no two rows are for the same turn of the same session, none are after a run.
pub proof fn lemma_turns_stay_unique_in_runs(
    t: Tables,
    jobs: Seq<Job>,
    answers: Seq<Seq<Answer>>,
    k: nat,
)
    requires
        k <= jobs.len(),
        answers.len() == jobs.len(),
        forall|i: int|
            0 <= i < jobs.len() ==> one_session(#[trigger] jobs[i]) && counted(jobs[i], answers[i]),
        tables_unique(t),
    ensures
        tables_unique(run(t, jobs, answers, k)),
    decreases k,
{
    if k > 0 {
        lemma_turns_stay_unique_in_runs(t, jobs, answers, (k - 1) as nat);
        assert(one_session(jobs[k - 1]));
        lemma_turns_stay_unique(
            run(t, jobs, answers, (k - 1) as nat),
            jobs[k - 1],
            answers[k - 1],
            answers[k - 1].len(),
        );
    }
}

/// Once the tables are set up, no two rows are ever for the same turn of the same session:
/// the index on both can be created only where there are none.
pub proof fn lemma_turns_unique_once_set_up(
    works: spec_fn(SchemaStep) -> bool,
    n: nat,
    t: Tables,
    jobs: Seq<Job>,
    answers: Seq<Seq<Answer>>,
    k: nat,
)
    requires
        works(SchemaStep::CreateTurnIndex) ==> turns_unique(t.now.rows),
        n >= 8,
        schema::after(works, n) == SchemaStep::Ready,
        t.saved is None,
        k <= jobs.len(),
        answers.len() == jobs.len(),
        forall|i: int|
            0 <= i < jobs.len() ==> one_session(#[trigger] jobs[i]) && counted(jobs[i], answers[i]),
    ensures
        tables_unique(run(t, jobs, answers, k)),
{
    schema::lemma_tables_set_up(works, n);
    lemma_turns_stay_unique_in_runs(t, jobs, answers, k);
}

/// Tables in which two rows are for the same turn of the same session are not set up: the
/// index on both is reported.
pub proof fn lemma_repeated_turns_reported(
    works: spec_fn(SchemaStep) -> bool,
    n: nat,
    rows: Seq<StoredRow>,
)
    requires
        works(SchemaStep::CreateTurnIndex) ==> turns_unique(rows),
        works(SchemaStep::CreateEntries),
        !turns_unique(rows),
        n >= 8,
    ensures
        schema::after(works, n) == SchemaStep::Broken(SchemaPart::TurnIndex),
{
    schema::lemma_tables_set_up(works, n);
}

} // verus!
