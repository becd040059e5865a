//! What becomes of the tables while they are set up.

use crate::schema;
use crate::schema::SchemaStep;
use crate::sync_laws;
use crate::sync_laws::Contents;
use vstd::prelude::*;

verus! {

/// The contents after a step: clearing the recorded sizes empties them, and no other step
/// touches what the tables hold. What is in a table that does not exist is empty.
pub open spec fn effect(c: Contents, s: SchemaStep, done: bool) -> Contents {
    if done && s == SchemaStep::ClearSyncState {
        Contents { sizes: Map::empty(), ..c }
    } else {
        c
    }
}

/// The contents after `n` steps, where `works` says which steps succeed.
pub open spec fn contents_after(
    c: Contents,
    works: spec_fn(SchemaStep) -> bool,
    n: nat,
) -> Contents
    decreases n,
{
    if n == 0 {
        c
    } else {
        let s = schema::after(works, (n - 1) as nat);
        effect(contents_after(c, works, (n - 1) as nat), s, works(s))
    }
}

/// Setting up the tables keeps all rows of entries, whatever succeeds and whatever fails.
pub proof fn lemma_rows_kept(c: Contents, works: spec_fn(SchemaStep) -> bool, n: nat)
    ensures
        contents_after(c, works, n).rows == c.rows,
        contents_after(c, works, n).next_id == c.next_id,
    decreases n,
{
    if n > 0 {
        lemma_rows_kept(c, works, (n - 1) as nat);
    }
}

/// Setting up the tables keeps the recorded sizes too, unless clearing them is reached and
/// done.
pub proof fn lemma_sizes_kept(c: Contents, works: spec_fn(SchemaStep) -> bool, n: nat)
    requires
        forall|k: nat|
            k < n && #[trigger] schema::after(works, k) == SchemaStep::ClearSyncState ==> !works(
                SchemaStep::ClearSyncState,
            ),
    ensures
        contents_after(c, works, n) == c,
    decreases n,
{
    if n > 0 {
        lemma_sizes_kept(c, works, (n - 1) as nat);
    }
}

/// Once clearing the recorded sizes was reached and done, there are none.
pub proof fn lemma_sizes_cleared(
    c: Contents,
    works: spec_fn(SchemaStep) -> bool,
    k: nat,
    n: nat,
)
    requires
        schema::after(works, k) == SchemaStep::ClearSyncState,
        works(SchemaStep::ClearSyncState),
        k < n,
    ensures
        contents_after(c, works, n) == (Contents { sizes: Map::empty(), ..c }),
    decreases n,
{
    lemma_rows_kept(c, works, n);
    if n > k + 1 {
        lemma_sizes_cleared(c, works, k, (n - 1) as nat);
    }
}

/// Which tables, columns and indexes there are.
pub struct Layout {
    pub entries: bool,
    pub parent_column: bool,
    pub nickname_column: bool,
    pub role_column: bool,
    pub turn_index: bool,
    pub date_index: bool,
    pub sync_state: bool,
}

/// A set-up in progress.
pub struct Setup {
    pub layout: Layout,
    pub contents: Contents,
    pub step: SchemaStep,
}

/// A step succeeds: tables and indexes can be created if they are there already, a column
/// cannot be added twice, what is changed must be there, and the index on turns is created
/// only where no two rows are for the same turn of the same session.
pub open spec fn succeeds(l: Layout, c: Contents, s: SchemaStep) -> bool {
    match s {
        SchemaStep::CreateEntries => true,
        SchemaStep::AddParentColumn => l.entries && !l.parent_column,
        SchemaStep::AddNicknameColumn => l.entries && !l.nickname_column,
        SchemaStep::ClearSyncState => l.sync_state,
        SchemaStep::AddRoleColumn => l.entries && !l.role_column,
        SchemaStep::CreateTurnIndex => l.entries && (l.turn_index || sync_laws::turns_unique(
            c.rows,
        )),
        SchemaStep::CreateDateIndex => l.entries,
        SchemaStep::CreateSyncState => true,
        SchemaStep::Ready => true,
        SchemaStep::Broken(_) => true,
    }
}

/// The layout after a step that succeeds.
pub open spec fn laid_out(l: Layout, s: SchemaStep) -> Layout {
    match s {
        SchemaStep::CreateEntries => if l.entries {
            l
        } else {
            Layout {
                entries: true,
                parent_column: true,
                nickname_column: true,
                role_column: true,
                turn_index: false,
                date_index: false,
                sync_state: l.sync_state,
            }
        },
        SchemaStep::AddParentColumn => Layout { parent_column: true, ..l },
        SchemaStep::AddNicknameColumn => Layout { nickname_column: true, ..l },
        SchemaStep::AddRoleColumn => Layout { role_column: true, ..l },
        SchemaStep::CreateTurnIndex => Layout { turn_index: true, ..l },
        SchemaStep::CreateDateIndex => Layout { date_index: true, ..l },
        SchemaStep::CreateSyncState => Layout { sync_state: true, ..l },
        _ => l,
    }
}

/// The set-up after one more step.
pub open spec fn next(u: Setup) -> Setup {
    let done = succeeds(u.layout, u.contents, u.step);
    Setup {
        layout: if done {
            laid_out(u.layout, u.step)
        } else {
            u.layout
        },
        contents: effect(u.contents, u.step, done),
        step: schema::step(u.step, done),
    }
}

/// The set-up after `n` steps.
pub open spec fn set_up(l: Layout, c: Contents, n: nat) -> Setup
    decreases n,
{
    if n == 0 {
        Setup { layout: l, contents: c, step: SchemaStep::CreateEntries }
    } else {
        next(set_up(l, c, (n - 1) as nat))
    }
}

/// All tables, columns and indexes are there.
pub open spec fn complete(l: Layout) -> bool {
    &&& l.entries
    &&& l.parent_column
    &&& l.nickname_column
    &&& l.role_column
    &&& l.turn_index
    &&& l.date_index
    &&& l.sync_state
}

/// Tables in which no two rows are for the same turn of the same session are set up, whatever
/// their layout was, and only tables that are complete are.
pub proof fn lemma_set_up_completes(l: Layout, c: Contents, n: nat)
    requires
        n >= 8,
    ensures
        sync_laws::turns_unique(c.rows) ==> set_up(l, c, n).step == SchemaStep::Ready,
        set_up(l, c, n).step == SchemaStep::Ready ==> complete(set_up(l, c, n).layout),
        set_up(l, c, n).contents.rows == c.rows,
        set_up(l, c, n).contents.next_id == c.next_id,
    decreases n,
{
    if n == 8 {
        reveal_with_fuel(set_up, 9);
    } else {
        lemma_set_up_completes(l, c, (n - 1) as nat);
        lemma_stays(l, c, (n - 1) as nat);
    }
}

proof fn lemma_stays(l: Layout, c: Contents, n: nat)
    requires
        n >= 8,
    ensures
        set_up(l, c, n).step == SchemaStep::Ready || set_up(l, c, n).step is Broken,
    decreases n,
{
    if n == 8 {
        reveal_with_fuel(set_up, 9);
    } else {
        lemma_stays(l, c, (n - 1) as nat);
    }
}

/// A further set-up succeeds and leaves all that the tables hold as it was, whatever was
/// written since the first; the recorded sizes are not cleared again.
pub proof fn lemma_further_set_up_changes_nothing(
    l: Layout,
    c: Contents,
    n: nat,
    written: Contents,
    m: nat,
)
    requires
        n >= 8,
        set_up(l, c, n).step == SchemaStep::Ready,
        m >= 8,
    ensures
        set_up(set_up(l, c, n).layout, written, m) == (Setup {
            layout: set_up(l, c, n).layout,
            contents: written,
            step: SchemaStep::Ready,
        }),
        forall|k: nat| (#[trigger] set_up(set_up(l, c, n).layout, written, k)).step
            != SchemaStep::ClearSyncState,
{
    lemma_set_up_completes(l, c, n);
    let layout = set_up(l, c, n).layout;
    lemma_complete_kept(layout, written, m);
    lemma_complete_ready(layout, written, m);
    assert forall|k: nat| (#[trigger] set_up(layout, written, k)).step
        != SchemaStep::ClearSyncState by {
        lemma_complete_kept(layout, written, k);
    }
}

proof fn lemma_complete_kept(l: Layout, c: Contents, k: nat)
    requires
        complete(l),
    ensures
        set_up(l, c, k).layout == l,
        set_up(l, c, k).contents == c,
        set_up(l, c, k).step != SchemaStep::ClearSyncState,
        !(set_up(l, c, k).step is Broken),
    decreases k,
{
    if k > 0 {
        lemma_complete_kept(l, c, (k - 1) as nat);
    }
}

proof fn lemma_complete_ready(l: Layout, c: Contents, m: nat)
    requires
        complete(l),
        m >= 8,
    ensures
        set_up(l, c, m).step == SchemaStep::Ready,
{
    lemma_complete_kept(l, c, m);
    lemma_stays(l, c, m);
}

/// The first set-up over a table of entries without the column for nicknames empties the
/// recorded sizes and keeps the entries.
pub proof fn lemma_old_layout_read_again(l: Layout, c: Contents, n: nat)
    requires
        l.entries,
        !l.nickname_column,
        l.sync_state,
        n >= 4,
    ensures
        set_up(l, c, n).contents == (Contents { sizes: Map::empty(), ..c }),
    decreases n,
{
    if n == 4 {
        reveal_with_fuel(set_up, 5);
    } else {
        lemma_old_layout_read_again(l, c, (n - 1) as nat);
    }
}

/// A set-up over a table of entries that has the column for nicknames, or over no such table,
/// leaves all that the tables hold as it was.
pub proof fn lemma_known_layout_kept(l: Layout, c: Contents, n: nat)
    requires
        !l.entries || l.nickname_column,
    ensures
        set_up(l, c, n).contents == c,
{
    lemma_known_layout_so_far(l, c, n);
}

proof fn lemma_known_layout_so_far(l: Layout, c: Contents, n: nat)
    requires
        !l.entries || l.nickname_column,
    ensures
        set_up(l, c, n).contents == c,
        set_up(l, c, n).step != SchemaStep::ClearSyncState,
        set_up(l, c, n).step == SchemaStep::CreateEntries || set_up(l, c, n).layout.nickname_column,
        set_up(l, c, n).step == SchemaStep::CreateEntries ==> set_up(l, c, n).layout == l,
    decreases n,
{
    if n > 0 {
        lemma_known_layout_so_far(l, c, (n - 1) as nat);
    }
}

} // verus!
