//! What the log begins with, and where it is kept.

use vstd::prelude::*;

verus! {

/// The directory of the log, below the user's directory for local data.
pub const LOG_DIRECTORY: &'static str = "ufrume";

/// The name of the log file.
pub const LOG_FILE: &'static str = "ufrume.log";

/// What is logged where the environment does not say: warnings, and all but traces of this
/// program.
pub const LOG_FILTER: &'static str = "warn,ufrume=debug";

/// The lines with which the log begins.
pub fn log_startup(version: &str, log_path: &str) -> (lines: Vec<String>)
    ensures
        lines@.len() == 2,
        lines@[0]@ == "ufrume v"@ + version@ + " starting"@,
        lines@[1]@ == "logging to "@ + log_path@,
{
    let mut starting = "ufrume v".to_owned();
    starting.append(version);
    starting.append(" starting");
    let mut place = "logging to ".to_owned();
    place.append(log_path);
    let mut lines: Vec<String> = Vec::new();
    lines.push(starting);
    lines.push(place);
    lines
}

/// The log is kept in a file of this program, and holds warnings and what this program says.
pub proof fn lemma_log_is_kept_by_name()
    ensures
        LOG_DIRECTORY@ == "ufrume"@,
        LOG_FILE@ == "ufrume.log"@,
        LOG_FILTER@ == "warn,ufrume=debug"@,
{
}

} // verus!
