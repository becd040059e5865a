//! Bringing the table of usage entries up to date with one session file.
//!
//! The work on a file goes step by step: the state says what is to be done next, and what came
//! of it leads to the next state. The entries of a session are replaced as a whole, within a
//! transaction.

use crate::rows;
use crate::rows::to_signed;
use vstd::prelude::*;

verus! {

/// How the work on a file ended.
#[derive(Clone, Copy, Debug, PartialEq, Eq, Structural)]
pub enum Outcome {
    /// The file has not changed, or its size could not be found out.
    Skipped,
    /// The file could not be read.
    Unreadable,
    /// No transaction could be started.
    NotStarted,
    /// The entries were left as they were.
    RolledBack,
    /// The entries were replaced.
    Committed,
}

/// What is to be done next for a file.
#[derive(Clone, Copy, Debug, PartialEq, Eq, Structural)]
pub enum SyncState {
    /// Look up the size that the file had when it was last read.
    LookUp,
    /// Find out the size of the file.
    Measure { recorded: u64 },
    /// Read the entries in the file.
    Read { size: u64 },
    /// Begin a transaction.
    Begin { size: u64, entries: usize },
    /// Delete the entries of the session.
    Delete { size: u64, entries: usize },
    /// Insert the entry at place `next`.
    Insert { size: u64, entries: usize, next: usize },
    /// Record the size of the file.
    Record { size: u64, entries: usize },
    /// Commit the transaction.
    Commit { size: u64, entries: usize },
    /// Roll the transaction back.
    RollBack,
    /// Nothing.
    Finished { outcome: Outcome },
}

/// What came of doing what a state asks for.
#[derive(Clone, Copy, Debug, PartialEq, Eq, Structural)]
pub enum Answer {
    /// The size that was asked for.
    Size { size: u64 },
    /// The number of entries in the file.
    Entries { count: usize },
    /// It was done.
    Done,
    /// It could not be done.
    Failed,
}

/// What follows once `next` entries are in place.
pub open spec fn inserting(size: u64, entries: usize, next: int) -> SyncState {
    if next < entries {
        SyncState::Insert { size, entries, next: next as usize }
    } else {
        SyncState::Record { size, entries }
    }
}

/// The state that an answer leads to.
pub open spec fn step(state: SyncState, answer: Answer) -> SyncState {
    match state {
        SyncState::LookUp => SyncState::Measure {
            recorded: match answer {
                Answer::Size { size } => size,
                _ => 0,
            },
        },
        SyncState::Measure { recorded } => match answer {
            Answer::Size { size } if size != recorded => SyncState::Read { size },
            _ => SyncState::Finished { outcome: Outcome::Skipped },
        },
        SyncState::Read { size } => match answer {
            Answer::Entries { count } => SyncState::Begin { size, entries: count },
            _ => SyncState::Finished { outcome: Outcome::Unreadable },
        },
        SyncState::Begin { size, entries } => if answer is Done {
            SyncState::Delete { size, entries }
        } else {
            SyncState::Finished { outcome: Outcome::NotStarted }
        },
        SyncState::Delete { size, entries } => if answer is Done {
            inserting(size, entries, 0)
        } else {
            SyncState::RollBack
        },
        SyncState::Insert { size, entries, next } => if answer is Done {
            inserting(size, entries, next + 1)
        } else {
            SyncState::RollBack
        },
        SyncState::Record { size, entries } => if answer is Done {
            SyncState::Commit { size, entries }
        } else {
            SyncState::RollBack
        },
        SyncState::Commit { .. } => if answer is Done {
            SyncState::Finished { outcome: Outcome::Committed }
        } else {
            SyncState::RollBack
        },
        SyncState::RollBack => SyncState::Finished { outcome: Outcome::RolledBack },
        SyncState::Finished { .. } => state,
    }
}

/// Goes on to the state that an answer leads to.
pub fn advance(state: SyncState, answer: Answer) -> (r: SyncState)
    ensures
        r == step(state, answer),
{
    let done: bool = matches!(answer, Answer::Done);
    match state {
        SyncState::LookUp => match answer {
            Answer::Size { size } => SyncState::Measure { recorded: size },
            _ => SyncState::Measure { recorded: 0 },
        },
        SyncState::Measure { recorded } => match answer {
            Answer::Size { size } if size != recorded => SyncState::Read { size },
            _ => SyncState::Finished { outcome: Outcome::Skipped },
        },
        SyncState::Read { size } => match answer {
            Answer::Entries { count } => SyncState::Begin { size, entries: count },
            _ => SyncState::Finished { outcome: Outcome::Unreadable },
        },
        SyncState::Begin { size, entries } => if done {
            SyncState::Delete { size, entries }
        } else {
            SyncState::Finished { outcome: Outcome::NotStarted }
        },
        SyncState::Delete { size, entries } => if !done {
            SyncState::RollBack
        } else if entries > 0 {
            SyncState::Insert { size, entries, next: 0 }
        } else {
            SyncState::Record { size, entries }
        },
        SyncState::Insert { size, entries, next } => if !done {
            SyncState::RollBack
        } else if next < entries && next + 1 < entries {
            SyncState::Insert { size, entries, next: next + 1 }
        } else {
            SyncState::Record { size, entries }
        },
        SyncState::Record { size, entries } => if done {
            SyncState::Commit { size, entries }
        } else {
            SyncState::RollBack
        },
        SyncState::Commit { .. } => if done {
            SyncState::Finished { outcome: Outcome::Committed }
        } else {
            SyncState::RollBack
        },
        SyncState::RollBack => SyncState::Finished { outcome: Outcome::RolledBack },
        SyncState::Finished { .. } => state,
    }
}

/// Where the work on a file begins.
pub fn start() -> (r: SyncState)
    ensures
        r == SyncState::LookUp,
{
    SyncState::LookUp
}

/// Whether the other files are to be worked on after a file ended this way.
pub fn goes_on(outcome: Outcome) -> (r: bool)
    ensures
        r == (outcome != Outcome::NotStarted),
{
    match outcome {
        Outcome::NotStarted => false,
        _ => true,
    }
}

/// The state after the first `n` answers.
pub open spec fn after(answers: Seq<Answer>, n: nat) -> SyncState
    decreases n,
{
    if n == 0 {
        SyncState::LookUp
    } else {
        step(after(answers, (n - 1) as nat), answers[n - 1])
    }
}

/// A transaction has been begun.
pub open spec fn begun(state: SyncState) -> bool {
    match state {
        SyncState::Delete { .. } => true,
        SyncState::Insert { .. } => true,
        SyncState::Record { .. } => true,
        SyncState::Commit { .. } => true,
        SyncState::RollBack => true,
        SyncState::Finished { outcome } => outcome == Outcome::RolledBack || outcome
            == Outcome::Committed,
        _ => false,
    }
}

/// The answers that lead to the replacement of `count` entries from a file of size `size`:
/// the recorded size, which is another, the size, the entries, and success of everything
/// that follows.
pub open spec fn replaced(answers: Seq<Answer>, size: u64, count: nat) -> bool {
    &&& answers.len() >= count + 7
    &&& answers[0] != Answer::Size { size }
    &&& answers[0] is Size || size != 0
    &&& answers[1] == Answer::Size { size }
    &&& answers[2] is Entries && answers[2]->count == count
    &&& forall|i: int| 3 <= i < count + 7 ==> #[trigger] answers[i] == Answer::Done
}

/// What each state says of the answers so far.
spec fn explained(answers: Seq<Answer>, n: nat) -> bool {
    let size = answers[1]->size;
    let count = answers[2]->count;
    let measured = {
        &&& n >= 2
        &&& answers[1] is Size
        &&& answers[0] != answers[1]
        &&& answers[0] is Size || size != 0
    };
    let read = {
        &&& n >= 3
        &&& measured
        &&& answers[2] is Entries
    };
    match after(answers, n) {
        SyncState::LookUp => n == 0,
        SyncState::Measure { recorded } => n == 1 && recorded == (if answers[0] is Size {
            answers[0]->size
        } else {
            0
        }),
        SyncState::Read { size: s } => n == 2 && measured && s == size,
        SyncState::Begin { size: s, entries } => n == 3 && read && s == size && entries == count,
        SyncState::Delete { size: s, entries } => {
            &&& n == 4
            &&& read
            &&& s == size
            &&& entries == count
            &&& answers[3] == Answer::Done
        },
        SyncState::Insert { size: s, entries, next } => {
            &&& n == 5 + next
            &&& read
            &&& s == size
            &&& entries == count
            &&& next < entries
            &&& forall|i: int| 3 <= i < n ==> #[trigger] answers[i] == Answer::Done
        },
        SyncState::Record { size: s, entries } => {
            &&& n == 5 + count
            &&& read
            &&& s == size
            &&& entries == count
            &&& forall|i: int| 3 <= i < n ==> #[trigger] answers[i] == Answer::Done
        },
        SyncState::Commit { size: s, entries } => {
            &&& n == 6 + count
            &&& read
            &&& s == size
            &&& entries == count
            &&& forall|i: int| 3 <= i < n ==> #[trigger] answers[i] == Answer::Done
        },
        SyncState::RollBack => n >= 5 && read && answers[3] == Answer::Done,
        SyncState::Finished { outcome } => match outcome {
            Outcome::Committed => {
                &&& n >= 7 + count
                &&& read
                &&& forall|i: int| 3 <= i < 7 + count ==> #[trigger] answers[i] == Answer::Done
            },
            Outcome::RolledBack => n >= 6 && read && answers[3] == Answer::Done,
            Outcome::NotStarted => n >= 4 && read && answers[3] != Answer::Done,
            Outcome::Unreadable => n >= 3 && measured && !(answers[2] is Entries),
            Outcome::Skipped => n >= 2 && !measured,
        },
    }
}

proof fn lemma_explained(answers: Seq<Answer>, n: nat)
    requires
        n <= answers.len(),
    ensures
        explained(answers, n),
    decreases n,
{
    if n > 0 {
        lemma_explained(answers, (n - 1) as nat);
    }
}

/// The size that is committed is the one that was found out.
pub(crate) proof fn lemma_size_kept(answers: Seq<Answer>, n: nat)
    requires
        n <= answers.len(),
    ensures
        after(answers, n) matches SyncState::Commit { size, .. } ==> size == answers[1]->size,
{
    lemma_explained(answers, n);
}

/// The entries are replaced only if everything succeeded: the transaction was begun, the old
/// entries were deleted, every entry was inserted, the size was recorded, and the transaction
/// was committed.
pub proof fn lemma_committed(answers: Seq<Answer>)
    requires
        after(answers, answers.len()) == (SyncState::Finished { outcome: Outcome::Committed }),
    ensures
        replaced(answers, answers[1]->size, answers[2]->count as nat),
{
    lemma_explained(answers, answers.len());
}

/// Where everything succeeds, the entries are replaced.
pub proof fn lemma_replaced(answers: Seq<Answer>, size: u64, count: nat)
    requires
        replaced(answers, size, count),
    ensures
        after(answers, answers.len()) == (SyncState::Finished { outcome: Outcome::Committed }),
{
    lemma_stays_finished(answers, count + 7, answers.len());
    lemma_explained(answers, count + 7);
    lemma_success(answers, size, count, count + 7);
}

proof fn lemma_success(answers: Seq<Answer>, size: u64, count: nat, n: nat)
    requires
        replaced(answers, size, count),
        3 <= n <= count + 7,
    ensures
        after(answers, n) == (if n == 3 {
            SyncState::Begin { size, entries: count as usize }
        } else if n == 4 {
            SyncState::Delete { size, entries: count as usize }
        } else if n <= count + 5 {
            inserting(size, count as usize, n - 5)
        } else if n == count + 6 {
            SyncState::Commit { size, entries: count as usize }
        } else {
            SyncState::Finished { outcome: Outcome::Committed }
        }),
    decreases n,
{
    assert(count <= usize::MAX);
    if n == 3 {
        reveal_with_fuel(after, 4);
        assert(after(answers, 1) == step(SyncState::LookUp, answers[0]));
        assert(after(answers, 2) == SyncState::Read { size });
    } else {
        lemma_success(answers, size, count, (n - 1) as nat);
        assert(answers[n - 1] == Answer::Done);
    }
}

proof fn lemma_stays_finished(answers: Seq<Answer>, m: nat, n: nat)
    requires
        m <= n,
    ensures
        after(answers, m) is Finished ==> after(answers, n) == after(answers, m),
    decreases n,
{
    if m < n {
        lemma_stays_finished(answers, m, (n - 1) as nat);
    }
}

/// A transaction that was begun is committed or rolled back, and only such a one.
pub proof fn lemma_transaction_ends(answers: Seq<Answer>)
    requires
        answers.len() >= 4,
    ensures
        match after(answers, answers.len()) {
            SyncState::Finished { outcome } => (outcome == Outcome::Committed || outcome
                == Outcome::RolledBack) <==> begun(after(answers, 4)),
            _ => begun(after(answers, answers.len())),
        },
{
    lemma_begun_stays(answers, answers.len());
}

proof fn lemma_begun_stays(answers: Seq<Answer>, n: nat)
    requires
        4 <= n <= answers.len(),
    ensures
        begun(after(answers, n)) <==> begun(after(answers, 4)),
        !begun(after(answers, n)) ==> after(answers, n) is Finished,
    decreases n,
{
    if n > 4 {
        lemma_begun_stays(answers, (n - 1) as nat);
    } else {
        lemma_explained(answers, 4);
    }
}

/// A file whose size is the recorded one is skipped.
pub proof fn lemma_unchanged_file_skipped(answers: Seq<Answer>)
    requires
        answers.len() >= 2,
        answers[0] == answers[1],
        answers[1] is Size,
    ensures
        after(answers, answers.len()) == (SyncState::Finished { outcome: Outcome::Skipped }),
{
    reveal_with_fuel(after, 3);
    assert(after(answers, 2) == (SyncState::Finished { outcome: Outcome::Skipped }));
    lemma_stays_finished(answers, 2, answers.len());
}

/// The work on a file ends: at the latest after eight answers and one for each entry.
pub proof fn lemma_work_ends(answers: Seq<Answer>)
    requires
        answers.len() >= 3,
        answers.len() >= 8 + (if answers[2] is Entries {
            answers[2]->count as nat
        } else {
            0
        }),
    ensures
        after(answers, answers.len()) is Finished,
{
    let n = answers.len();
    lemma_explained(answers, n);
    if after(answers, n) is RollBack {
        lemma_rolled_back_in_time(answers, n);
    }
}

proof fn lemma_rolled_back_in_time(answers: Seq<Answer>, n: nat)
    requires
        0 < n <= answers.len(),
        after(answers, n) is RollBack,
    ensures
        n <= 7 + answers[2]->count,
{
    lemma_explained(answers, (n - 1) as nat);
}

/// The size of a file as it is recorded.
pub fn recorded_size(size: u64) -> (r: i64)
    ensures
        r == rows::signed(size),
{
    to_signed(size)
}

/// What a recorded size answers: a negative one is no size.
pub open spec fn size_in(recorded: Option<i64>) -> Answer {
    match recorded {
        Some(v) if v >= 0 => Answer::Size { size: v as u64 },
        _ => Answer::Failed,
    }
}

/// Reads a recorded size.
pub fn size_answer(recorded: Option<i64>) -> (r: Answer)
    ensures
        r == size_in(recorded),
{
    match recorded {
        Some(v) if v >= 0 => Answer::Size { size: v as u64 },
        _ => Answer::Failed,
    }
}

/// A file that still has the size under which it was recorded is skipped.
pub proof fn lemma_recorded_file_skipped(size: u64, answers: Seq<Answer>)
    requires
        size <= i64::MAX,
        answers.len() >= 2,
        answers[0] == size_in(Some(rows::signed(size))),
        answers[1] == (Answer::Size { size }),
    ensures
        after(answers, answers.len()) == (SyncState::Finished { outcome: Outcome::Skipped }),
{
    lemma_unchanged_file_skipped(answers);
}

/// How the work on a file ends follows from the answers: it is skipped where its size could
/// not be found out or is the recorded one, which counts as zero where none is recorded; it is
/// unreadable where the entries could not be read; nothing is started where the transaction
/// could not be begun; it is rolled back where something in the transaction failed; and
/// otherwise it is committed.
pub proof fn lemma_outcome(answers: Seq<Answer>, outcome: Outcome)
    requires
        after(answers, answers.len()) == (SyncState::Finished { outcome }),
    ensures
        ({
            let recorded: u64 = if answers[0] is Size {
                answers[0]->size
            } else {
                0
            };
            let changed = answers[1] is Size && answers[1]->size != recorded;
            if !changed {
                outcome == Outcome::Skipped
            } else if !(answers[2] is Entries) {
                outcome == Outcome::Unreadable
            } else if answers[3] != Answer::Done {
                outcome == Outcome::NotStarted
            } else if exists|i: int|
                4 <= i < answers[2]->count + 7 && i < answers.len() && #[trigger] answers[i]
                    != Answer::Done {
                outcome == Outcome::RolledBack
            } else {
                outcome == Outcome::Committed
            }
        }),
{
    lemma_explained(answers, answers.len());
    if outcome == Outcome::RolledBack {
        lemma_failure_found(answers, answers.len());
    }
}

proof fn lemma_failure_found(answers: Seq<Answer>, n: nat)
    requires
        n <= answers.len(),
        after(answers, n) == SyncState::RollBack || after(answers, n) == (SyncState::Finished {
            outcome: Outcome::RolledBack,
        }),
    ensures
        exists|i: int|
            4 <= i < answers[2]->count + 7 && i < n && #[trigger] answers[i] != Answer::Done,
    decreases n,
{
    if n > 0 {
        let before = after(answers, (n - 1) as nat);
        lemma_explained(answers, (n - 1) as nat);
        if before == SyncState::RollBack || before == (SyncState::Finished {
            outcome: Outcome::RolledBack,
        }) {
            lemma_failure_found(answers, (n - 1) as nat);
            let i = choose|i: int|
                4 <= i < answers[2]->count + 7 && i < n - 1 && #[trigger] answers[i] != Answer::Done;
            assert(answers[i] != Answer::Done);
        } else {
            assert(answers[n - 1] != Answer::Done);
        }
    }
}

} // verus!
