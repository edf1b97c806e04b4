//! Whether a browser is running: the process name each browser runs under,
//! and the decision over a listing of processes.
use vstd::prelude::*;

use crate::model::opt_text;
use crate::text::{
    chars_of, contains_text, lowercase, same_text, text_contains, to_lowercase, trim, trimmed,
};

verus! {

/// The text that the process of each known browser has in its (lower-case)
/// name; empty for a browser the audit does not know.
pub open spec fn needle_of(browser: Seq<char>) -> Seq<char> {
    if browser == "Brave"@ {
        "brave"@
    } else if browser == "Chrome"@ {
        "chrome"@
    } else if browser == "Chromium"@ {
        "chromium"@
    } else if browser == "Vivaldi"@ {
        "vivaldi"@
    } else if browser == "Edge"@ {
        "edge"@
    } else if browser == "Firefox"@ {
        "firefox"@
    } else if browser == "LibreWolf"@ {
        "librewolf"@
    } else {
        Seq::empty()
    }
}

/// The text that the browser's process name holds.
pub fn browser_needle(browser: &str) -> (r: &'static str)
    ensures
        r@ == needle_of(browser@),
{
    if same_text(browser, "Brave") {
        "brave"
    } else if same_text(browser, "Chrome") {
        "chrome"
    } else if same_text(browser, "Chromium") {
        "chromium"
    } else if same_text(browser, "Vivaldi") {
        "vivaldi"
    } else if same_text(browser, "Edge") {
        "edge"
    } else if same_text(browser, "Firefox") {
        "firefox"
    } else if same_text(browser, "LibreWolf") {
        "librewolf"
    } else {
        proof {
            reveal_strlit("");
        }
        ""
    }
}

/// One entry of the process table: its directory name and, when it could be
/// read, the process's command name.
#[derive(Debug)]
pub struct ProcEntry {
    pub name: String,
    pub comm: Option<String>,
}

/// A directory name made only of ASCII digits names a process.
pub open spec fn is_pid_name(name: Seq<char>) -> bool {
    forall|i: int| 0 <= i < name.len() ==> '0' <= #[trigger] name[i] && name[i] <= '9'
}

/// A command name that, trimmed and in lower case, holds the needle.
pub open spec fn comm_mentions(comm: Seq<char>, needle: Seq<char>) -> bool {
    contains_text(lowercase(trimmed(comm)), needle)
}

/// The entry is a process (its name is numeric) whose command name, read,
/// mentions the needle.
pub open spec fn process_mentions(e: ProcEntry, needle: Seq<char>) -> bool {
    is_pid_name(e.name@) && match opt_text(e.comm) {
        Some(c) => comm_mentions(c, needle),
        None => false,
    }
}

/// The browser runs according to a process table: it is a known browser and
/// some process entry with a numeric name has a command name that mentions it.
pub open spec fn running_among(browser: Seq<char>, procs: Seq<ProcEntry>) -> bool {
    &&& needle_of(browser).len() > 0
    &&& exists|i: int| 0 <= i < procs.len() && #[trigger] process_mentions(procs[i], needle_of(browser))
}

/// Whether a directory name is made only of ASCII digits.
pub fn is_pid_dir_name(name: &str) -> (r: bool)
    ensures
        r == is_pid_name(name@),
{
    let c = chars_of(name);
    let mut i: usize = 0;
    while i < c.len()
        invariant
            c@ == name@,
            i <= c@.len(),
            forall|j: int| 0 <= j < i ==> '0' <= #[trigger] c@[j] && c@[j] <= '9',
        decreases c@.len() - i,
    {
        if !('0' <= c[i] && c[i] <= '9') {
            return false;
        }
        i = i + 1;
    }
    true
}

/// Whether a command name, trimmed and in lower case, holds `needle`.
pub fn comm_mentions_needle(comm: &str, needle: &str) -> (r: bool)
    ensures
        r == comm_mentions(comm@, needle@),
{
    let lower = to_lowercase(trim(comm));
    text_contains(lower.as_str(), needle)
}

/// Whether the browser runs according to a Linux process table (see `running_among`).
pub fn browser_running_among(browser: &str, procs: &Vec<ProcEntry>) -> (r: bool)
    ensures
        r == running_among(browser@, procs@),
{
    let needle = browser_needle(browser);
    if needle.is_empty() {
        return false;
    }
    let mut i: usize = 0;
    while i < procs.len()
        invariant
            needle@ == needle_of(browser@),
            needle@.len() > 0,
            i <= procs@.len(),
            forall|j: int| 0 <= j < i ==> !#[trigger] process_mentions(procs@[j], needle@),
        decreases procs@.len() - i,
    {
        let e = &procs[i];
        if is_pid_dir_name(e.name.as_str()) {
            match &e.comm {
                Some(c) => {
                    if comm_mentions_needle(c.as_str(), needle) {
                        assert(procs@[i as int] == *e);
                        assert(opt_text(procs@[i as int].comm) == Some(c@));
                        assert(process_mentions(procs@[i as int], needle@));
                        return true;
                    }
                },
                None => {},
            }
        }
        i = i + 1;
    }
    false
}

/// The browser runs according to a Windows task list: it is a known browser
/// and the listing, in lower case, holds its needle.
pub open spec fn running_in_task_list(browser: Seq<char>, listing: Option<Seq<char>>) -> bool {
    &&& needle_of(browser).len() > 0
    &&& listing matches Some(t) && contains_text(lowercase(t), needle_of(browser))
}

/// Whether the browser runs according to a Windows task list, or `None`
/// when the list could not be had.
pub fn browser_running_in_task_list(browser: &str, listing: Option<&str>) -> (r: bool)
    ensures
        r == running_in_task_list(
            browser@,
            match listing {
                Some(t) => Some(t@),
                None => None,
            },
        ),
{
    let needle = browser_needle(browser);
    if needle.is_empty() {
        return false;
    }
    match listing {
        Some(t) => {
            let lower = to_lowercase(t);
            text_contains(lower.as_str(), needle)
        },
        None => false,
    }
}

} // verus!
