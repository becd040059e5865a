//! Names of session files.

use crate::text;
use crate::text::{chars_of, replace_char, slice_bytes, string_of, text_begins_with, text_ends_with};
use vstd::prelude::*;
use vstd::utf8::*;

verus! {

/// The names of session files: `rollout-*.jsonl`.
pub open spec fn session_file_name(name: Seq<char>) -> bool {
    text::begins_with(name, "rollout-"@) && text::ends_with(name, ".jsonl"@)
}

/// What stands between `rollout-` and `.jsonl`.
pub open spec fn core_of(name: Seq<char>) -> Seq<char> {
    name.subrange(8, name.len() - 6)
}

/// The name is one of a session file whose core is long enough for a date and a time.
pub open spec fn parsable(name: Seq<char>) -> bool {
    session_file_name(name) && text::byte_len(core_of(name)) >= 20
}

/// The offsets at which date, time and identifier begin and end fall between characters.
pub open spec fn sliceable(name: Seq<char>) -> bool {
    parsable(name) ==> {
        let core = core_of(name);
        text::cuts_at(core, 10) && text::cuts_at(core, 11) && text::cuts_at(core, 19) && text::cuts_at(core, 20)
    }
}

/// The session that the name stands for.
pub open spec fn session_id_of(name: Seq<char>) -> Seq<char> {
    text::byte_slice(core_of(name), 20, text::byte_len(core_of(name)) as int)
}

/// The date on which the session began.
pub open spec fn date_of(name: Seq<char>) -> Seq<char> {
    text::byte_slice(core_of(name), 0, 10)
}

/// The name under which the session is shown.
pub open spec fn session_name_of(name: Seq<char>) -> Seq<char> {
    "Rollout "@ + date_of(name) + " "@ + text::replaced(text::byte_slice(core_of(name), 11, 19), '-', ':')
}

proof fn lemma_session_file_name_len(name: Seq<char>)
    requires
        session_file_name(name),
    ensures
        name.len() >= 14,
        "rollout-"@.len() == 8,
        ".jsonl"@.len() == 6,
{
    reveal_strlit("rollout-");
    reveal_strlit(".jsonl");
    let at = name.len() - 6;
    assert(name.skip(at)[0] == '.');
    if at < 8 {
        assert(name.take(8)[at] == "rollout-"@[at]);
        assert(name[at] == '.');
    }
}

/// Whether `filename` is the name of a session file.
pub fn is_session_file_name(filename: &str) -> (r: bool)
    ensures
        r == session_file_name(filename@),
{
    text_begins_with(filename, "rollout-") && text_ends_with(filename, ".jsonl")
}

/// What stands between `rollout-` and `.jsonl`.
fn core_text(filename: &str) -> (r: String)
    requires
        session_file_name(filename@),
    ensures
        r@ == core_of(filename@),
{
    proof {
        lemma_session_file_name_len(filename@);
    }
    let chars = chars_of(filename);
    string_of(&chars, 8, chars.len() - 6)
}

/// Whether `parse_filename` may be called on `filename`.
pub fn filename_sliceable(filename: &str) -> (r: bool)
    ensures
        r == sliceable(filename@),
{
    if !is_session_file_name(filename) {
        return true;
    }
    let core = core_text(filename);
    let core: &str = core.as_str();
    if core.as_bytes().len() < 20 {
        return true;
    }
    core.is_char_boundary(10) && core.is_char_boundary(11) && core.is_char_boundary(19)
        && core.is_char_boundary(20)
}

/// Reads session identifier, start date and session name off the name of a session file.
///
/// The offsets are counted in bytes; a name whose characters straddle one of them is not
/// accepted.
pub fn parse_filename(filename: &str) -> (r: Option<(String, String, String)>)
    requires
        sliceable(filename@),
    ensures
        r is Some <==> parsable(filename@),
        r matches Some((session_id, date, session_name)) ==> {
            &&& session_id@ == session_id_of(filename@)
            &&& date@ == date_of(filename@)
            &&& session_name@ == session_name_of(filename@)
        },
{
    if !is_session_file_name(filename) {
        return None;
    }
    let core = core_text(filename);
    let core: &str = core.as_str();
    let len: usize = core.as_bytes().len();
    if len < 20 {
        return None;
    }
    proof {
        encode_utf8_valid_utf8(core@);
        is_char_boundary_start_end_of_seq(encode_utf8(core@));
    }
    let date = slice_bytes(core, 0, 10);
    let time = slice_bytes(core, 11, 19);
    let session_id = slice_bytes(core, 20, len);
    let clock = replace_char(time.as_str(), '-', ':');
    let session_name = "Rollout ".to_string().concat(date.as_str()).concat(" ").concat(
        clock.as_str(),
    );
    Some((session_id, date, session_name))
}

/// A name made of an ASCII date of ten characters, an ASCII time of eight and an ASCII
/// identifier, set apart by single characters, is read back into these parts.
pub proof fn lemma_file_name_parts(
    date: Seq<char>,
    c1: char,
    time: Seq<char>,
    c2: char,
    id: Seq<char>,
)
    requires
        is_ascii_chars(date),
        is_ascii_chars(seq![c1]),
        is_ascii_chars(time),
        is_ascii_chars(seq![c2]),
        is_ascii_chars(id),
        date.len() == 10,
        time.len() == 8,
    ensures
        ({
            let name = "rollout-"@ + date + seq![c1] + time + seq![c2] + id + ".jsonl"@;
            &&& parsable(name)
            &&& sliceable(name)
            &&& date_of(name) == date
            &&& session_id_of(name) == id
            &&& session_name_of(name) == "Rollout "@ + date + " "@ + text::replaced(time, '-', ':')
        }),
{
    reveal_strlit("rollout-");
    reveal_strlit(".jsonl");
    let core = date + seq![c1] + time + seq![c2] + id;
    let name = "rollout-"@ + date + seq![c1] + time + seq![c2] + id + ".jsonl"@;
    assert(is_ascii_chars(core)) by {
        assert(c1 == seq![c1][0]);
        assert(c2 == seq![c2][0]);
    }
    assert(name =~= "rollout-"@ + core + ".jsonl"@);
    assert(name.take(8) =~= "rollout-"@);
    assert(name.skip(name.len() - 6) =~= ".jsonl"@);
    assert(core_of(name) =~= core);
    text::lemma_ascii_byte_slice(core, 0, 10);
    text::lemma_ascii_byte_slice(core, 11, 19);
    text::lemma_ascii_byte_slice(core, 20, core.len() as int);
    assert(core.subrange(0, 10) =~= date);
    assert(core.subrange(11, 19) =~= time);
    assert(core.subrange(20, core.len() as int) =~= id);
}

/// A name that does not begin with `rollout-`, does not end with `.jsonl`, or has less than
/// twenty characters between the two stands for no session.
pub proof fn lemma_not_a_session_file(name: Seq<char>)
    requires
        is_ascii_chars(name),
    ensures
        parsable(name) <==> {
            &&& name.len() >= 34
            &&& name.take(8) == "rollout-"@
            &&& name.skip(name.len() - 6) == ".jsonl"@
        },
{
    reveal_strlit("rollout-");
    reveal_strlit(".jsonl");
    if session_file_name(name) {
        lemma_session_file_name_len(name);
        let core = core_of(name);
        assert(is_ascii_chars(core));
        text::lemma_ascii_byte_slice(core, 0, core.len() as int);
    }
}

} // verus!
