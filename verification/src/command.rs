//! The commands, step by step: what each does next, and how it fails.

use vstd::prelude::*;

verus! {

/// How many threads a run uses.
pub enum ThreadPlan {
    /// As many as the machine has.
    Default,
    /// This many.
    Use(usize),
    /// None: the number that was asked for makes no sense.
    Invalid(String),
}

/// Decides how many threads a run uses.
pub fn configure_threads(threads: Option<usize>) -> (plan: ThreadPlan)
    ensures
        match plan {
            ThreadPlan::Default => threads is None,
            ThreadPlan::Use(count) => threads == Some(count) && count > 0,
            ThreadPlan::Invalid(message) => threads == Some(0usize) && message@
                == "Thread count must be greater than 0"@,
        },
{
    match threads {
        None => ThreadPlan::Default,
        Some(count) => if count == 0 {
            ThreadPlan::Invalid("Thread count must be greater than 0".to_owned())
        } else {
            ThreadPlan::Use(count)
        },
    }
}

/// A message with a cause.
pub fn with_cause(message: &str, cause: &str) -> (text: String)
    ensures
        text@ == message@ + cause@,
{
    let mut text = message.to_owned();
    text.append(cause);
    text
}

/// Where the organizing of a directory stands: the step that is to be done next, or its end.
#[derive(Debug, Clone, Copy, PartialEq, Eq)]
pub enum OrganizePhase {
    /// Find out which directory is meant.
    ResolveDir,
    /// Make sure that it is a directory.
    CheckDir,
    /// Load the configuration.
    LoadConfig,
    /// Scan the directory.
    Scan,
    /// Move the files.
    Organize,
    /// There is nothing to organize.
    NothingFound,
    /// All is done.
    Done,
    /// The command has failed.
    Failed,
}

/// Organizing has come to its end.
pub open spec fn organize_is_over(phase: OrganizePhase) -> bool {
    phase == OrganizePhase::NothingFound || phase == OrganizePhase::Done || phase
        == OrganizePhase::Failed
}

/// Where organizing stands after a step that failed, for `None`, or that worked and, where it was
/// the scan, found this many files.
pub open spec fn organize_next(phase: OrganizePhase, found: Option<usize>) -> OrganizePhase {
    if organize_is_over(phase) {
        phase
    } else {
        match found {
            None => OrganizePhase::Failed,
            Some(files) => match phase {
                OrganizePhase::ResolveDir => OrganizePhase::CheckDir,
                OrganizePhase::CheckDir => OrganizePhase::LoadConfig,
                OrganizePhase::LoadConfig => OrganizePhase::Scan,
                OrganizePhase::Scan => if files == 0 {
                    OrganizePhase::NothingFound
                } else {
                    OrganizePhase::Organize
                },
                _ => OrganizePhase::Done,
            },
        }
    }
}

/// What a failure of a step is reported with, before its cause.
pub open spec fn organize_complaint(phase: OrganizePhase) -> Option<Complaint> {
    match phase {
        OrganizePhase::ResolveDir => Some(
            Complaint {
                shown: "Failed to determine the current directory: "@,
                logged: "Failed to determine the current directory: "@,
            },
        ),
        OrganizePhase::CheckDir => Some(
            Complaint {
                shown: "Not a directory: "@,
                logged: "organize target is not a directory: "@,
            },
        ),
        OrganizePhase::LoadConfig => Some(
            Complaint { shown: "Failed to load config: "@, logged: "failed to load config: "@ },
        ),
        OrganizePhase::Scan => Some(
            Complaint {
                shown: "Failed to scan music files: "@,
                logged: "failed to scan music files: "@,
            },
        ),
        OrganizePhase::Organize => Some(
            Complaint {
                shown: "Failed to organize music files: "@,
                logged: "failed to organize music files: "@,
            },
        ),
        OrganizePhase::NothingFound => None,
        OrganizePhase::Done => None,
        OrganizePhase::Failed => None,
    }
}

/// The number in the outcome of a step that worked.
pub open spec fn found_in(outcome: Result<usize, String>) -> Option<usize> {
    match outcome {
        Ok(found) => Some(found),
        Err(_) => None,
    }
}

/// Why a command fails: what is shown, and what goes into the log.
#[derive(Debug, PartialEq, Eq)]
pub struct Failure {
    pub shown: String,
    pub logged: String,
}

/// What a step that failed is reported with, before the cause: on the screen, and in the log.
#[verifier::ext_equal]
pub struct Complaint {
    pub shown: Seq<char>,
    pub logged: Seq<char>,
}

/// `failure` reports the outcome of a step: the complaint with the cause where the step failed,
/// and nothing where it worked or where there was no step to be done.
pub open spec fn reports(
    failure: Option<Failure>,
    complaint: Option<Complaint>,
    outcome: Result<usize, String>,
) -> bool {
    match (complaint, outcome) {
        (Some(complaint), Err(cause)) => {
            &&& failure is Some
            &&& failure.unwrap().shown@ == complaint.shown + cause@
            &&& failure.unwrap().logged@ == complaint.logged + cause@
        },
        _ => failure is None,
    }
}

/// A failure with its cause.
pub fn failure_with_cause(shown: &str, logged: &str, cause: &str) -> (failure: Failure)
    ensures
        failure.shown@ == shown@ + cause@,
        failure.logged@ == logged@ + cause@,
{
    Failure { shown: with_cause(shown, cause), logged: with_cause(logged, cause) }
}

/// Decides how organizing a directory goes on after a step, and gives the failure to report. The
/// outcome of the scan is the number of files that it found; that of another step that worked
/// says nothing. The cause of a failure is given as it is shown: for a path that is no directory,
/// the path.
pub fn organize_step(
    phase: OrganizePhase,
    outcome: &Result<usize, String>,
) -> (next: (OrganizePhase, Option<Failure>))
    ensures
        next.0 == organize_next(phase, found_in(*outcome)),
        reports(next.1, organize_complaint(phase), *outcome),
        outcome is Ok ==> next.1 is None,
        next.1 is Some ==> next.0 == OrganizePhase::Failed,
        outcome matches Err(cause) ==> match phase {
            OrganizePhase::ResolveDir => next.1 is Some && next.1.unwrap().shown@
                == "Failed to determine the current directory: "@ + cause@,
            OrganizePhase::CheckDir => next.1 is Some && next.1.unwrap().shown@
                == "Not a directory: "@ + cause@,
            OrganizePhase::LoadConfig => next.1 is Some && next.1.unwrap().shown@
                == "Failed to load config: "@ + cause@,
            OrganizePhase::Scan => next.1 is Some && next.1.unwrap().shown@
                == "Failed to scan music files: "@ + cause@,
            OrganizePhase::Organize => next.1 is Some && next.1.unwrap().shown@
                == "Failed to organize music files: "@ + cause@,
            _ => next.1 is None,
        },
{
    let (shown, logged): (&str, &str) = match phase {
        OrganizePhase::ResolveDir => (
            "Failed to determine the current directory: ",
            "Failed to determine the current directory: ",
        ),
        OrganizePhase::CheckDir => ("Not a directory: ", "organize target is not a directory: "),
        OrganizePhase::LoadConfig => ("Failed to load config: ", "failed to load config: "),
        OrganizePhase::Scan => ("Failed to scan music files: ", "failed to scan music files: "),
        OrganizePhase::Organize => (
            "Failed to organize music files: ",
            "failed to organize music files: ",
        ),
        OrganizePhase::NothingFound | OrganizePhase::Done | OrganizePhase::Failed => {
            return (phase, None);
        },
    };
    match outcome {
        Err(cause) => (
            OrganizePhase::Failed,
            Some(failure_with_cause(shown, logged, cause.as_str())),
        ),
        Ok(files) => {
            let next: OrganizePhase = match phase {
                OrganizePhase::ResolveDir => OrganizePhase::CheckDir,
                OrganizePhase::CheckDir => OrganizePhase::LoadConfig,
                OrganizePhase::LoadConfig => OrganizePhase::Scan,
                OrganizePhase::Scan => if *files == 0 {
                    OrganizePhase::NothingFound
                } else {
                    OrganizePhase::Organize
                },
                _ => OrganizePhase::Done,
            };
            (next, None)
        },
    }
}

/// The preview of a scan is shown: it was asked for, and files were found.
pub open spec fn preview_is_shown(verbose: bool, found: usize) -> bool {
    verbose && found > 0
}

/// Whether the preview of a scan that found this many files is shown.
pub fn shows_preview(verbose: bool, found: usize) -> (shown: bool)
    ensures
        shown == preview_is_shown(verbose, found),
        shown == (verbose && found > 0),
{
    verbose && found > 0
}

/// The preview is shown exactly where it was asked for and the files are going to be moved.
pub proof fn lemma_preview_comes_before_moving(verbose: bool, found: usize)
    ensures
        preview_is_shown(verbose, found) <==> verbose && organize_next(
            OrganizePhase::Scan,
            Some(found),
        ) == OrganizePhase::Organize,
{
}

/// Where organizing stands after its first steps, with these outcomes.
pub open spec fn organize_after(outcomes: Seq<Option<usize>>) -> OrganizePhase
    decreases outcomes.len(),
{
    if outcomes.len() == 0 {
        OrganizePhase::ResolveDir
    } else {
        organize_next(organize_after(outcomes.drop_last()), outcomes.last())
    }
}

/// Files are moved only after the directory was resolved and checked, the configuration loaded,
/// and files found.
pub proof fn lemma_files_are_moved_last(outcomes: Seq<Option<usize>>)
    requires
        organize_after(outcomes) == OrganizePhase::Organize,
    ensures
        outcomes.len() == 4,
        forall|i: int| 0 <= i < 4 ==> (#[trigger] outcomes[i]) is Some,
        outcomes[3].unwrap() > 0,
{
    reveal_with_fuel(organize_after, 5);
    let three = outcomes.drop_last();
    let two = three.drop_last();
    let one = two.drop_last();
    assert(organize_after(three) == OrganizePhase::Scan);
    assert(organize_after(two) == OrganizePhase::LoadConfig);
    assert(organize_after(one) == OrganizePhase::CheckDir);
    assert(organize_after(one.drop_last()) == OrganizePhase::ResolveDir);
    lemma_only_the_beginning_resolves(one.drop_last());
    assert(one[0] == outcomes[0]);
    assert(two[1] == outcomes[1]);
    assert(three[2] == outcomes[2]);
}

/// The directory is resolved at the very beginning.
proof fn lemma_only_the_beginning_resolves(outcomes: Seq<Option<usize>>)
    requires
        organize_after(outcomes) == OrganizePhase::ResolveDir,
    ensures
        outcomes.len() == 0,
{
}

/// Organizing ends after five steps at the latest.
pub proof fn lemma_organizing_ends(outcomes: Seq<Option<usize>>)
    requires
        outcomes.len() >= 5,
    ensures
        organize_is_over(organize_after(outcomes)),
    decreases outcomes.len(),
{
    if outcomes.len() > 5 {
        lemma_organizing_ends(outcomes.drop_last());
    } else {
        reveal_with_fuel(organize_after, 6);
    }
}

/// Where the ReplayGain command stands: the step that is to be done next, or its end.
#[derive(Debug, Clone, Copy, PartialEq, Eq)]
pub enum ReplayGainPhase {
    /// Find out which path is meant.
    ResolvePath,
    /// Make sure that it exists.
    CheckPath,
    /// Measure and tag the files.
    Apply,
    /// All is done.
    Done,
    /// The command has failed.
    Failed,
}

/// Where the ReplayGain command stands after a step.
pub open spec fn replaygain_next(phase: ReplayGainPhase, worked: bool) -> ReplayGainPhase {
    if phase == ReplayGainPhase::Done || phase == ReplayGainPhase::Failed {
        phase
    } else if !worked {
        ReplayGainPhase::Failed
    } else {
        match phase {
            ReplayGainPhase::ResolvePath => ReplayGainPhase::CheckPath,
            ReplayGainPhase::CheckPath => ReplayGainPhase::Apply,
            _ => ReplayGainPhase::Done,
        }
    }
}

/// What a failure of a step is reported with, before its cause.
pub open spec fn replaygain_complaint(phase: ReplayGainPhase) -> Option<Complaint> {
    match phase {
        ReplayGainPhase::ResolvePath => Some(
            Complaint {
                shown: "Failed to determine the current directory: "@,
                logged: "Failed to determine the current directory: "@,
            },
        ),
        ReplayGainPhase::CheckPath => Some(
            Complaint {
                shown: "Path does not exist: "@,
                logged: "replaygain target does not exist: "@,
            },
        ),
        ReplayGainPhase::Apply => Some(
            Complaint {
                shown: "Failed to compute ReplayGain: "@,
                logged: "failed to compute ReplayGain: "@,
            },
        ),
        ReplayGainPhase::Done => None,
        ReplayGainPhase::Failed => None,
    }
}

/// Decides how the ReplayGain command goes on after a step, and gives the failure to report. The
/// cause of a failure is given as it is shown: for a path that does not exist, the path. What a
/// step that worked says does not count.
pub fn replaygain_step(
    phase: ReplayGainPhase,
    outcome: &Result<usize, String>,
) -> (next: (ReplayGainPhase, Option<Failure>))
    ensures
        next.0 == replaygain_next(phase, outcome is Ok),
        reports(next.1, replaygain_complaint(phase), *outcome),
        outcome is Ok ==> next.1 is None,
        next.1 is Some ==> next.0 == ReplayGainPhase::Failed,
        outcome matches Err(cause) ==> match phase {
            ReplayGainPhase::ResolvePath => next.1 is Some && next.1.unwrap().shown@
                == "Failed to determine the current directory: "@ + cause@,
            ReplayGainPhase::CheckPath => next.1 is Some && next.1.unwrap().shown@
                == "Path does not exist: "@ + cause@,
            ReplayGainPhase::Apply => next.1 is Some && next.1.unwrap().shown@
                == "Failed to compute ReplayGain: "@ + cause@,
            _ => next.1 is None,
        },
{
    let (shown, logged): (&str, &str) = match phase {
        ReplayGainPhase::ResolvePath => (
            "Failed to determine the current directory: ",
            "Failed to determine the current directory: ",
        ),
        ReplayGainPhase::CheckPath => (
            "Path does not exist: ",
            "replaygain target does not exist: ",
        ),
        ReplayGainPhase::Apply => (
            "Failed to compute ReplayGain: ",
            "failed to compute ReplayGain: ",
        ),
        ReplayGainPhase::Done | ReplayGainPhase::Failed => {
            return (phase, None);
        },
    };
    match outcome {
        Err(cause) => (
            ReplayGainPhase::Failed,
            Some(failure_with_cause(shown, logged, cause.as_str())),
        ),
        Ok(_) => {
            let next: ReplayGainPhase = match phase {
                ReplayGainPhase::ResolvePath => ReplayGainPhase::CheckPath,
                ReplayGainPhase::CheckPath => ReplayGainPhase::Apply,
                _ => ReplayGainPhase::Done,
            };
            (next, None)
        },
    }
}

/// Organizing goes from step to step as long as each works: files are moved exactly where the scan
/// found some, a step that fails ends it, and what has ended stays so.
pub proof fn lemma_organizing_goes_on_while_steps_work(found: usize)
    ensures
        organize_next(OrganizePhase::ResolveDir, Some(found)) == OrganizePhase::CheckDir,
        organize_next(OrganizePhase::CheckDir, Some(found)) == OrganizePhase::LoadConfig,
        organize_next(OrganizePhase::LoadConfig, Some(found)) == OrganizePhase::Scan,
        found > 0 <==> organize_next(OrganizePhase::Scan, Some(found)) == OrganizePhase::Organize,
        found == 0 <==> organize_next(OrganizePhase::Scan, Some(found))
            == OrganizePhase::NothingFound,
        organize_next(OrganizePhase::Organize, Some(found)) == OrganizePhase::Done,
        forall|phase: OrganizePhase|
            phase != OrganizePhase::Done && phase != OrganizePhase::NothingFound
                ==> #[trigger] organize_next(phase, None) == OrganizePhase::Failed,
        forall|outcome: Option<usize>|
            #![trigger organize_next(OrganizePhase::Done, outcome)]
            #![trigger organize_next(OrganizePhase::NothingFound, outcome)]
            #![trigger organize_next(OrganizePhase::Failed, outcome)]
            organize_next(OrganizePhase::Done, outcome) == OrganizePhase::Done && organize_next(
                OrganizePhase::NothingFound,
                outcome,
            ) == OrganizePhase::NothingFound && organize_next(OrganizePhase::Failed, outcome)
                == OrganizePhase::Failed,
{
}

/// The ReplayGain command goes from step to step as long as each works, and a step that fails ends
/// it.
pub proof fn lemma_replaygain_goes_on_while_steps_work(worked: bool)
    ensures
        replaygain_next(ReplayGainPhase::ResolvePath, true) == ReplayGainPhase::CheckPath,
        replaygain_next(ReplayGainPhase::CheckPath, true) == ReplayGainPhase::Apply,
        replaygain_next(ReplayGainPhase::Apply, true) == ReplayGainPhase::Done,
        forall|phase: ReplayGainPhase|
            phase != ReplayGainPhase::Done ==> #[trigger] replaygain_next(phase, false)
                == ReplayGainPhase::Failed,
        replaygain_next(ReplayGainPhase::Done, worked) == ReplayGainPhase::Done,
        replaygain_next(ReplayGainPhase::Failed, worked) == ReplayGainPhase::Failed,
{
}

} // verus!
