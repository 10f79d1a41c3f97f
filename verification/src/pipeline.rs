//! Job orchestration: the pre-flight check of the target location and the
//! stage machine that orders one job's steps — validate, unpack, process,
//! repack — with every failure routed to an abort.

use vstd::prelude::*;

use crate::errors::PipelineError;

verus! {

/// What the filesystem holds at the target archive path.
#[derive(Clone, Copy, PartialEq, Eq, Structural, Debug)]
pub enum TargetStatus {
    /// Nothing exists at the path.
    Missing,
    /// A file (or other non-directory) exists at the path.
    ExistingFile,
    /// An empty directory exists at the path.
    EmptyDir,
    /// A non-empty directory exists at the path.
    NonEmptyDir,
}

/// A target location is acceptable when nothing exists there or an empty
/// directory does.
pub open spec fn target_ok(s: TargetStatus) -> bool {
    s is Missing || s is EmptyDir
}

/// Pre-flight validation of the target location: accepts exactly a missing
/// path or an empty directory; an existing non-directory or a non-empty
/// directory is rejected before any unpacking.
pub fn validate_target(s: TargetStatus) -> (r: Result<(), PipelineError>)
    ensures
        (match r {
            Ok(_) => true,
            Err(_) => false,
        }) == target_ok(s),
        match r {
            Ok(_) => true,
            Err(e) => e is Filesystem,
        },
{
    match s {
        TargetStatus::Missing => Ok(()),
        TargetStatus::EmptyDir => Ok(()),
        TargetStatus::ExistingFile => {
            // "target exists"
            let msg = vec![116u8, 97, 114, 103, 101, 116, 32, 101, 120, 105, 115, 116, 115];
            Err(PipelineError::Filesystem { message: msg })
        },
        TargetStatus::NonEmptyDir => {
            // "target exists"
            let msg = vec![116u8, 97, 114, 103, 101, 116, 32, 101, 120, 105, 115, 116, 115];
            Err(PipelineError::Filesystem { message: msg })
        },
    }
}

/// Where one job stands.
#[derive(Clone, Copy, PartialEq, Eq, Structural, Debug)]
pub enum Stage {
    /// Nothing has happened yet.
    Start,
    /// The target location passed validation.
    Validated,
    /// The archive was unpacked into the scratch tree.
    Unpacked,
    /// Every entry was dispatched.
    Processed,
    /// The target archive was written.
    Complete,
    /// A job-fatal step failed.
    Failed,
}

/// The step the runner must perform next in a given stage.
#[derive(Clone, Copy, PartialEq, Eq, Structural, Debug)]
pub enum StageAction {
    /// Examine the target location.
    CheckTarget,
    /// Unpack the source archive into the scratch tree.
    Unpack,
    /// Dispatch every extracted entry.
    Process,
    /// Repack the processed tree into the target archive.
    Repack,
    /// The job is done.
    Finish,
    /// The job failed; clean up and stop.
    Abort,
}

/// What the runner reports back after performing a step.
#[derive(Clone, Copy, PartialEq, Eq, Structural, Debug)]
pub enum StageEvent {
    /// The target location was examined.
    TargetChecked(TargetStatus),
    /// Unpacking finished, successfully or not.
    UnpackFinished(bool),
    /// Dispatching finished, successfully or not.
    ProcessFinished(bool),
    /// Repacking finished, successfully or not.
    RepackFinished(bool),
}

/// The transition relation of one job: each stage accepts exactly the
/// event of its own step; everything else, and every failed step, aborts
/// the job.
pub open spec fn spec_advance(s: Stage, e: StageEvent) -> Stage {
    match (s, e) {
        (Stage::Start, StageEvent::TargetChecked(st)) => if target_ok(st) {
            Stage::Validated
        } else {
            Stage::Failed
        },
        (Stage::Validated, StageEvent::UnpackFinished(ok)) => if ok {
            Stage::Unpacked
        } else {
            Stage::Failed
        },
        (Stage::Unpacked, StageEvent::ProcessFinished(ok)) => if ok {
            Stage::Processed
        } else {
            Stage::Failed
        },
        (Stage::Processed, StageEvent::RepackFinished(ok)) => if ok {
            Stage::Complete
        } else {
            Stage::Failed
        },
        _ => Stage::Failed,
    }
}

/// Advances one job by one reported event.
pub fn advance(s: Stage, e: StageEvent) -> (n: Stage)
    ensures
        n == spec_advance(s, e),
{
    match (s, e) {
        (Stage::Start, StageEvent::TargetChecked(st)) => {
            if st == TargetStatus::Missing || st == TargetStatus::EmptyDir {
                Stage::Validated
            } else {
                Stage::Failed
            }
        },
        (Stage::Validated, StageEvent::UnpackFinished(ok)) => {
            if ok {
                Stage::Unpacked
            } else {
                Stage::Failed
            }
        },
        (Stage::Unpacked, StageEvent::ProcessFinished(ok)) => {
            if ok {
                Stage::Processed
            } else {
                Stage::Failed
            }
        },
        (Stage::Processed, StageEvent::RepackFinished(ok)) => {
            if ok {
                Stage::Complete
            } else {
                Stage::Failed
            }
        },
        _ => Stage::Failed,
    }
}

/// The step due in each stage.
pub open spec fn action_of(s: Stage) -> StageAction {
    match s {
        Stage::Start => StageAction::CheckTarget,
        Stage::Validated => StageAction::Unpack,
        Stage::Unpacked => StageAction::Process,
        Stage::Processed => StageAction::Repack,
        Stage::Complete => StageAction::Finish,
        Stage::Failed => StageAction::Abort,
    }
}

/// Tells the runner which step is due.
pub fn next_action(s: Stage) -> (a: StageAction)
    ensures
        a == action_of(s),
{
    match s {
        Stage::Start => StageAction::CheckTarget,
        Stage::Validated => StageAction::Unpack,
        Stage::Unpacked => StageAction::Process,
        Stage::Processed => StageAction::Repack,
        Stage::Complete => StageAction::Finish,
        Stage::Failed => StageAction::Abort,
    }
}

/// The stage reached after a sequence of reported events, from the start.
pub open spec fn run_events(evs: Seq<StageEvent>) -> Stage
    decreases evs.len(),
{
    if evs.len() == 0 {
        Stage::Start
    } else {
        spec_advance(run_events(evs.drop_last()), evs.last())
    }
}

/// LAW: unpacking is never due before validation passed — whenever the
/// machine asks for the unpack step, an earlier event reported an
/// acceptable target location. A job whose target is a non-empty directory
/// is therefore rejected before any unpacking occurs.
pub proof fn lemma_no_unpack_before_validation(evs: Seq<StageEvent>)
    requires
        action_of(run_events(evs)) is Unpack,
    ensures
        exists|j: int|
            0 <= j < evs.len() && (#[trigger] evs[j] matches StageEvent::TargetChecked(st)
                && target_ok(st)),
{
    assert(run_events(evs) is Validated);
    assert(evs.len() > 0);
    let l = evs.last();
    assert(evs[evs.len() - 1] == l);
    assert(spec_advance(run_events(evs.drop_last()), l) is Validated);
    assert(l matches StageEvent::TargetChecked(st) && target_ok(st));
}

} // verus!
