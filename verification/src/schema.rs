//! Setting up the tables.
//!
//! Tables of an earlier layout get the columns that they lack; once one of these is new, all
//! session files are read again.

use vstd::prelude::*;

verus! {

/// What is to be done next to set up the tables.
#[derive(Clone, Copy, Debug, PartialEq, Eq, Structural)]
pub enum SchemaStep {
    CreateEntries,
    AddParentColumn,
    AddNicknameColumn,
    ClearSyncState,
    AddRoleColumn,
    CreateTurnIndex,
    CreateDateIndex,
    CreateSyncState,
    /// Nothing: the tables are set up.
    Ready,
    /// Nothing: this could not be done.
    Broken(SchemaPart),
}

/// What cannot be done without.
#[derive(Clone, Copy, Debug, PartialEq, Eq, Structural)]
pub enum SchemaPart {
    Entries,
    TurnIndex,
    DateIndex,
    SyncState,
}

/// The step that follows, given whether a step succeeded.
pub open spec fn step(s: SchemaStep, done: bool) -> SchemaStep {
    match s {
        SchemaStep::CreateEntries => if done {
            SchemaStep::AddParentColumn
        } else {
            SchemaStep::Broken(SchemaPart::Entries)
        },
        SchemaStep::AddParentColumn => SchemaStep::AddNicknameColumn,
        SchemaStep::AddNicknameColumn => if done {
            SchemaStep::ClearSyncState
        } else {
            SchemaStep::AddRoleColumn
        },
        SchemaStep::ClearSyncState => SchemaStep::AddRoleColumn,
        SchemaStep::AddRoleColumn => SchemaStep::CreateTurnIndex,
        SchemaStep::CreateTurnIndex => if done {
            SchemaStep::CreateDateIndex
        } else {
            SchemaStep::Broken(SchemaPart::TurnIndex)
        },
        SchemaStep::CreateDateIndex => if done {
            SchemaStep::CreateSyncState
        } else {
            SchemaStep::Broken(SchemaPart::DateIndex)
        },
        SchemaStep::CreateSyncState => if done {
            SchemaStep::Ready
        } else {
            SchemaStep::Broken(SchemaPart::SyncState)
        },
        SchemaStep::Ready => s,
        SchemaStep::Broken(_) => s,
    }
}

/// Where setting up the tables begins.
pub fn start() -> (r: SchemaStep)
    ensures
        r == SchemaStep::CreateEntries,
{
    SchemaStep::CreateEntries
}

/// Goes on to the step that follows.
pub fn advance(s: SchemaStep, done: bool) -> (r: SchemaStep)
    ensures
        r == step(s, done),
{
    match (s, done) {
        (SchemaStep::CreateEntries, true) => SchemaStep::AddParentColumn,
        (SchemaStep::CreateEntries, false) => SchemaStep::Broken(SchemaPart::Entries),
        (SchemaStep::AddParentColumn, _) => SchemaStep::AddNicknameColumn,
        (SchemaStep::AddNicknameColumn, true) => SchemaStep::ClearSyncState,
        (SchemaStep::AddNicknameColumn, false) => SchemaStep::AddRoleColumn,
        (SchemaStep::ClearSyncState, _) => SchemaStep::AddRoleColumn,
        (SchemaStep::AddRoleColumn, _) => SchemaStep::CreateTurnIndex,
        (SchemaStep::CreateTurnIndex, true) => SchemaStep::CreateDateIndex,
        (SchemaStep::CreateTurnIndex, false) => SchemaStep::Broken(SchemaPart::TurnIndex),
        (SchemaStep::CreateDateIndex, true) => SchemaStep::CreateSyncState,
        (SchemaStep::CreateDateIndex, false) => SchemaStep::Broken(SchemaPart::DateIndex),
        (SchemaStep::CreateSyncState, true) => SchemaStep::Ready,
        (SchemaStep::CreateSyncState, false) => SchemaStep::Broken(SchemaPart::SyncState),
        (SchemaStep::Ready, _) => s,
        (SchemaStep::Broken(_), _) => s,
    }
}

/// The step after `n` others, where `works` says which steps succeed.
pub open spec fn after(works: spec_fn(SchemaStep) -> bool, n: nat) -> SchemaStep
    decreases n,
{
    if n == 0 {
        SchemaStep::CreateEntries
    } else {
        let before = after(works, (n - 1) as nat);
        step(before, works(before))
    }
}

/// After at most eight steps the tables are set up if the tables and indexes could be
/// created; otherwise the first of these that could not is reported. Whether a column could
/// be added makes no difference.
pub proof fn lemma_tables_set_up(works: spec_fn(SchemaStep) -> bool, n: nat)
    requires
        n >= 8,
    ensures
        after(works, n) == (if !works(SchemaStep::CreateEntries) {
            SchemaStep::Broken(SchemaPart::Entries)
        } else if !works(SchemaStep::CreateTurnIndex) {
            SchemaStep::Broken(SchemaPart::TurnIndex)
        } else if !works(SchemaStep::CreateDateIndex) {
            SchemaStep::Broken(SchemaPart::DateIndex)
        } else if !works(SchemaStep::CreateSyncState) {
            SchemaStep::Broken(SchemaPart::SyncState)
        } else {
            SchemaStep::Ready
        }),
    decreases n,
{
    if n == 8 {
        reveal_with_fuel(after, 9);
    } else {
        lemma_tables_set_up(works, (n - 1) as nat);
    }
}

/// The recorded sizes are cleared if the table exists and the column for nicknames was new,
/// and only then.
pub proof fn lemma_sync_state_cleared(works: spec_fn(SchemaStep) -> bool)
    ensures
        (exists|n: nat| #[trigger] after(works, n) == SchemaStep::ClearSyncState) <==> (works(
            SchemaStep::CreateEntries,
        ) && works(SchemaStep::AddNicknameColumn)),
{
    reveal_with_fuel(after, 4);
    if works(SchemaStep::CreateEntries) && works(SchemaStep::AddNicknameColumn) {
        assert(after(works, 3) == SchemaStep::ClearSyncState);
    } else {
        assert forall|n: nat| #[trigger] after(works, n) != SchemaStep::ClearSyncState by {
            lemma_not_cleared(works, n);
        }
    }
}

proof fn lemma_not_cleared(works: spec_fn(SchemaStep) -> bool, n: nat)
    requires
        !(works(SchemaStep::CreateEntries) && works(SchemaStep::AddNicknameColumn)),
    ensures
        after(works, n) != SchemaStep::ClearSyncState,
        !works(SchemaStep::CreateEntries) ==> after(works, n) == SchemaStep::CreateEntries
            || after(works, n) is Broken,
    decreases n,
{
    if n > 0 {
        lemma_not_cleared(works, (n - 1) as nat);
    }
}

} // verus!
