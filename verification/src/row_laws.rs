//! What the rows of the table hold, column by column.

use crate::entry::{EntryView, TokenStats};
use crate::rows;
use crate::rows::{RowView, TokenColumns, TurnRow};
use crate::whole;
use vstd::prelude::*;

verus! {

/// The number in a column stands for a count: it is the count, less 2 to the 64th where the
/// count has no room beside a sign.
pub open spec fn stands_for(column: Option<i64>, n: Option<u64>) -> bool {
    match (column, n) {
        (Some(v), Some(n)) => v == n || v == n - 0x1_0000_0000_0000_0000,
        (None, None) => true,
        _ => false,
    }
}

/// The columns stand for token counts, each for its own.
pub open spec fn columns_stand_for(c: TokenColumns, t: TokenStats) -> bool {
    &&& stands_for(c.input, Some(t.input))
    &&& stands_for(c.output, Some(t.output))
    &&& stands_for(c.cache_read, t.cache_read)
    &&& stands_for(c.reasoning, t.reasoning)
    &&& stands_for(c.total, Some(t.total))
}

/// All columns are empty.
pub open spec fn all_empty(c: TokenColumns) -> bool {
    c.input is None && c.output is None && c.cache_read is None && c.reasoning is None
        && c.total is None
}

/// A row holds each part of its entry in a column of its own.
pub proof fn lemma_row_written(e: EntryView, date: Seq<char>)
    ensures
        ({
            let row = rows::row_for(e, date);
            &&& row.timestamp == e.timestamp
            &&& row.date == date
            &&& row.session_id == e.session_id
            &&& row.session_name == e.session_name
            &&& row.transcript_path == e.transcript_path
            &&& row.cwd == e.cwd
            &&& row.version == e.version
            &&& row.turn_no == e.turn_no
            &&& row.model == e.model
            &&& row.model_id == e.model_id
            &&& row.parent_session_id == e.parent_session_id
            &&& row.agent_nickname == e.agent_nickname
            &&& row.agent_role == e.agent_role
            &&& e.tokens matches Some(t) ==> columns_stand_for(row.tokens, t)
            &&& e.tokens is None ==> all_empty(row.tokens)
            &&& e.delta_tokens matches Some(t) ==> columns_stand_for(row.delta, t)
            &&& e.delta_tokens is None ==> all_empty(row.delta)
        }),
{
}

/// A whole number that fits in 64 bits with a sign is stored as it is; a larger or a smaller
/// one as the nearest that fits.
pub proof fn lemma_cost_written(e: EntryView, date: Seq<char>)
    ensures
        e.cost is None ==> rows::row_for(e, date).duration_ms is None && rows::row_for(
            e,
            date,
        ).premium_requests is None,
        e.cost matches Some(c) ==> held(c.total_api_duration_ms, rows::row_for(e, date).duration_ms)
            && held(c.total_premium_requests, rows::row_for(e, date).premium_requests),
{
}

/// What a column holds of a whole number: no other number that fits is nearer to it.
pub open spec fn held(v: Option<i128>, column: Option<i64>) -> bool {
    match (v, column) {
        (Some(v), Some(w)) => forall|x: i64|
            away(v as int, w as int) <= #[trigger] away(v as int, x as int),
        (None, None) => true,
        _ => false,
    }
}

/// The distance between two numbers.
pub open spec fn away(a: int, b: int) -> int {
    if a >= b {
        a - b
    } else {
        b - a
    }
}

/// Token counts are read where input, output and total are there, each from its own column;
/// where one of the three is missing, there are none.
pub proof fn lemma_counts_read(c: TokenColumns)
    ensures
        c.input is Some && c.output is Some && c.total is Some ==> {
            &&& rows::stats_in(c) matches Some(t)
            &&& columns_stand_for(c, t)
            &&& t.cache_write is None
        },
        c.input is None || c.output is None || c.total is None ==> rows::stats_in(c) is None,
{
}

/// An entry is read from the columns of its row, each part from its own.
pub proof fn lemma_row_read(row: RowView)
    ensures
        ({
            let e = rows::entry_in(row);
            &&& e.timestamp == row.timestamp
            &&& e.session_id == row.session_id
            &&& e.session_name == row.session_name
            &&& e.transcript_path == row.transcript_path
            &&& e.cwd == row.cwd
            &&& e.version == row.version
            &&& e.model == row.model
            &&& e.model_id == row.model_id
            &&& (row.turn_no - e.turn_no) % 0x1_0000_0000 == 0
            &&& e.tokens == rows::stats_in(row.tokens)
            &&& e.delta_tokens == rows::stats_in(row.delta)
            &&& e.cost is None <==> row.duration_ms is None && row.premium_requests is None
            &&& e.cost matches Some(c) ==> {
                &&& c.total_duration_ms is None
                &&& c.total_api_duration_ms is Some <==> row.duration_ms is Some
                &&& c.total_premium_requests is Some <==> row.premium_requests is Some
            }
        }),
{
}

/// A number of less than 2 to the 53rd in a column of the costs is read as it is.
pub proof fn lemma_cost_read(row: RowView)
    ensures
        row.duration_ms matches Some(v) ==> 0 <= v < 0x20_0000_0000_0000 ==> rows::entry_in(row).cost->0.total_api_duration_ms == Some(v as i128),
        row.premium_requests matches Some(v) ==> 0 <= v < 0x20_0000_0000_0000 ==> rows::entry_in(row).cost->0.total_premium_requests == Some(v as i128),
{
    if let Some(v) = row.duration_ms {
        if 0 <= v < 0x20_0000_0000_0000 {
            whole::lemma_nearest_close(v as int);
        }
    }
    if let Some(v) = row.premium_requests {
        if 0 <= v < 0x20_0000_0000_0000 {
            whole::lemma_nearest_close(v as int);
        }
    }
}

/// The row holds counts of the turn.
pub open spec fn counts_turn(row: TurnRow, turn: u32) -> bool {
    &&& (row.turn_no - turn) % 0x1_0000_0000 == 0
    &&& row.delta.input is Some && row.delta.output is Some && row.delta.total is Some
}

proof fn lemma_counts_turn(row: TurnRow, turn: u32)
    ensures
        counts_turn(row, turn) <==> rows::stats_in(row.delta) is Some && rows::low_half(row.turn_no)
            == turn,
{
    let half = rows::low_half(row.turn_no);
    assert((row.turn_no - half) % 0x1_0000_0000 == 0);
    assert((row.turn_no - turn) % 0x1_0000_0000 == 0 ==> (half - turn) % 0x1_0000_0000 == 0);
}

/// The counts of a turn are those in the last row that holds some for it.
pub proof fn lemma_last_row_counts(rows_read: Seq<TurnRow>, turn: u32, i: int, n: nat)
    requires
        0 <= i < n <= rows_read.len(),
        counts_turn(rows_read[i], turn),
        forall|j: int| i < j < n ==> !counts_turn(#[trigger] rows_read[j], turn),
    ensures
        rows::turn_stats_in(rows_read, n).dom().contains(turn),
        columns_stand_for(rows_read[i].delta, rows::turn_stats_in(rows_read, n)[turn]),
        rows::turn_stats_in(rows_read, n)[turn].cache_write is None,
    decreases n,
{
    lemma_counts_turn(rows_read[n - 1], turn);
    if i < n - 1 {
        lemma_last_row_counts(rows_read, turn, i, (n - 1) as nat);
        assert(!counts_turn(rows_read[n - 1], turn));
    }
}

/// A turn for which no row holds counts has none.
pub proof fn lemma_turn_without_row(rows_read: Seq<TurnRow>, turn: u32, n: nat)
    requires
        n <= rows_read.len(),
        forall|j: int| 0 <= j < n ==> !counts_turn(#[trigger] rows_read[j], turn),
    ensures
        !rows::turn_stats_in(rows_read, n).dom().contains(turn),
    decreases n,
{
    if n > 0 {
        lemma_turn_without_row(rows_read, turn, (n - 1) as nat);
        lemma_counts_turn(rows_read[n - 1], turn);
        assert(!counts_turn(rows_read[n - 1], turn));
    }
}

} // verus!
