//! Where the data lies, and what is told of it.

use vstd::prelude::*;

verus! {

/// A place where the data may lie.
#[derive(Clone, Copy, Debug, PartialEq, Eq, Structural)]
pub enum Place {
    /// The directory that was configured.
    Configured,
    /// The directory below the home directory.
    Home,
    /// The directory of last resort.
    Backup,
}

/// Chooses the place where the data lies: the first that exists. A place that is not known
/// is `None`.
pub fn get_codex_dir(configured: Option<bool>, home: Option<bool>, backup: bool) -> (r: Option<
    Place,
>)
    ensures
        r == (if configured == Some(true) {
            Some(Place::Configured)
        } else if home == Some(true) {
            Some(Place::Home)
        } else if backup {
            Some(Place::Backup)
        } else {
            None
        }),
{
    if let Some(true) = configured {
        return Some(Place::Configured);
    }
    if let Some(true) = home {
        return Some(Place::Home);
    }
    if backup {
        Some(Place::Backup)
    } else {
        None
    }
}

/// What is told of the setup.
#[derive(Debug)]
pub struct SetupInfo {
    pub workspace_dir: String,
    pub script_path: String,
    pub codex_dir: String,
    pub codex_dir_exists: bool,
    pub home_dir: String,
}

/// An optional text; one that is missing is empty.
pub open spec fn or_empty(s: Option<String>) -> Seq<char> {
    match s {
        Some(s) => s@,
        None => Seq::empty(),
    }
}

fn text_or_empty(s: Option<String>) -> (r: String)
    ensures
        r@ == or_empty(s),
{
    match s {
        Some(s) => s,
        None => String::new(),
    }
}

/// Puts together what is told of the setup: directories that are not known are empty, and a
/// data directory that was not found does not exist.
pub fn get_setup_info(
    workspace_dir: Option<String>,
    codex_dir: Option<(String, bool)>,
    home_dir: Option<String>,
) -> (r: SetupInfo)
    ensures
        r.workspace_dir@ == or_empty(workspace_dir),
        r.script_path@ == Seq::<char>::empty(),
        r.codex_dir@ == (match codex_dir {
            Some(d) => d.0@,
            None => Seq::empty(),
        }),
        r.codex_dir_exists == (match codex_dir {
            Some(d) => d.1,
            None => false,
        }),
        r.home_dir@ == or_empty(home_dir),
{
    let (codex_dir, codex_dir_exists): (String, bool) = match codex_dir {
        Some(d) => d,
        None => (String::new(), false),
    };
    SetupInfo {
        workspace_dir: text_or_empty(workspace_dir),
        script_path: String::new(),
        codex_dir,
        codex_dir_exists,
        home_dir: text_or_empty(home_dir),
    }
}

/// The pattern that the dates of a month match.
pub fn month_pattern(year_month: &str) -> (r: String)
    ensures
        r@ == year_month@ + "-%"@,
{
    let mut pattern: String = year_month.to_string();
    pattern.append("-%");
    pattern
}

} // verus!
