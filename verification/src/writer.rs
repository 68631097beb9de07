//! The atomic transform writer: the crash-safe protocol that produces one
//! destination file from one source file.
//!
//! The protocol is: remove stale staging artifacts, copy the source to a
//! scratch input, run the external transform into a scratch output, copy the
//! scratch output to a working file beside the destination, atomically rename
//! the working file to the destination, and remove the scratch files. The
//! library drives it as a state machine: each state names one filesystem or
//! process action for the surrounding program to perform, and the outcome
//! comes back as an event. An observer of the destination therefore sees
//! either no file or a fully formed file, never a partial one.

use crate::paths::file_name_of;
use vstd::prelude::*;

verus! {

/// The five paths one transfer works with: the source file, the final
/// destination, the two scratch files, and the working file beside the
/// destination.
pub struct StagingPaths {
    pub source: String,
    pub dest: String,
    pub temp_input: String,
    pub temp_output: String,
    pub working_output: String,
}

/// Derive the staging paths for one transfer. The scratch names depend only
/// on the file names of the source and destination, so a re-run after a crash
/// reuses, and can clean up, the same paths; the working file is the
/// destination name with a fixed marker suffix, which keeps it on the same
/// volume as the destination so the final rename can be atomic.
pub fn staging_paths(temp_dir: &str, source: &str, dest: &str) -> (p: StagingPaths)
    ensures
        p.source@ == source@,
        p.dest@ == dest@,
        p.temp_input@ == temp_dir@ + seq!['/'] + "downscaler_input_"@ + file_name_of(source@),
        p.temp_output@ == temp_dir@ + seq!['/'] + "downscaler_output_"@ + file_name_of(dest@),
        p.working_output@ == dest@ + ".working"@,
{
    proof {
        reveal_strlit("/");
        assert("/"@ =~= seq!['/']);
    }
    let mut temp_input = String::from_str(temp_dir);
    temp_input.append("/");
    temp_input.append("downscaler_input_");
    let source_name = crate::paths::file_name(source);
    temp_input.append(source_name.as_str());

    let mut temp_output = String::from_str(temp_dir);
    temp_output.append("/");
    temp_output.append("downscaler_output_");
    let dest_name = crate::paths::file_name(dest);
    temp_output.append(dest_name.as_str());

    let mut working_output = String::from_str(dest);
    working_output.append(".working");

    StagingPaths {
        source: String::from_str(source),
        dest: String::from_str(dest),
        temp_input,
        temp_output,
        working_output,
    }
}

/// Why one transfer failed: a filesystem operation failed, the external
/// transform exited with a non-zero code, or it ended without a code.
#[derive(Clone, Copy, Debug, PartialEq, Eq, Structural)]
pub enum WriterError {
    Io,
    TransformExit(i32),
    TransformSignal,
}

/// What the surrounding program reports back after performing an action.
#[derive(Clone, Copy, Debug, PartialEq, Eq, Structural)]
pub enum WriterEvent {
    /// The requested filesystem operation succeeded.
    Succeeded,
    /// The requested filesystem operation failed, or the external process
    /// could not be started.
    IoFailed,
    /// The external transform exited with this code.
    TransformExited(i32),
    /// The external transform ended without an exit code.
    TransformSignaled,
}

/// Where the protocol stands. The states follow the protocol order; `Done`
/// and `Failed` are terminal.
#[derive(Clone, Copy, Debug, PartialEq, Eq, Structural)]
pub enum WriterState {
    /// Remove a stale scratch input if one exists.
    CleanTempInput,
    /// Remove a stale scratch output if one exists.
    CleanTempOutput,
    /// Remove a stale working file if one exists.
    CleanWorking,
    /// Copy the source file to the scratch input.
    StageInput,
    /// Run the external transform from the scratch input to the scratch
    /// output.
    Transform,
    /// Copy the scratch output to the working file beside the destination.
    StageOutput,
    /// Atomically rename the working file to the destination.
    Commit,
    /// Remove the scratch input.
    RemoveTempInput,
    /// Remove the scratch output.
    RemoveTempOutput,
    /// The destination file exists and no scratch artifact remains.
    Done,
    /// The transfer failed; artifacts past the point of failure are left for
    /// diagnosis.
    Failed(WriterError),
}

/// One filesystem or process action for the surrounding program to perform.
#[derive(Debug)]
pub enum WriterAction {
    /// Remove the named file if it exists; succeed if it does not.
    RemoveIfExists(String),
    /// Copy the first file to the second.
    CopyFile(String, String),
    /// Run the external transform synchronously: input path, output path,
    /// and the bound on the output height, or none to re-encode without
    /// scaling.
    RunTransform(String, String, Option<u32>),
    /// Atomically rename the first path to the second.
    RenameFile(String, String),
    /// Remove the named file.
    RemoveFile(String),
}

/// The state every transfer starts in.
pub open spec fn writer_start() -> WriterState {
    WriterState::CleanTempInput
}

/// The transition relation of the protocol. A cleanup or staging step moves
/// forward on success and fails the transfer otherwise; the transform step
/// moves forward only on exit code zero and records any other outcome as the
/// failure; terminal states absorb every event.
pub open spec fn writer_next(s: WriterState, e: WriterEvent) -> WriterState {
    match (s, e) {
        (WriterState::CleanTempInput, WriterEvent::Succeeded) => WriterState::CleanTempOutput,
        (WriterState::CleanTempOutput, WriterEvent::Succeeded) => WriterState::CleanWorking,
        (WriterState::CleanWorking, WriterEvent::Succeeded) => WriterState::StageInput,
        (WriterState::StageInput, WriterEvent::Succeeded) => WriterState::Transform,
        (WriterState::Transform, WriterEvent::TransformExited(c)) => if c == 0 {
            WriterState::StageOutput
        } else {
            WriterState::Failed(WriterError::TransformExit(c))
        },
        (WriterState::Transform, WriterEvent::TransformSignaled) => WriterState::Failed(
            WriterError::TransformSignal,
        ),
        (WriterState::StageOutput, WriterEvent::Succeeded) => WriterState::Commit,
        (WriterState::Commit, WriterEvent::Succeeded) => WriterState::RemoveTempInput,
        (WriterState::RemoveTempInput, WriterEvent::Succeeded) => WriterState::RemoveTempOutput,
        (WriterState::RemoveTempOutput, WriterEvent::Succeeded) => WriterState::Done,
        (WriterState::Done, _) => WriterState::Done,
        (WriterState::Failed(err), _) => WriterState::Failed(err),
        (_, _) => WriterState::Failed(WriterError::Io),
    }
}

/// The action each state asks for; terminal states ask for nothing.
pub open spec fn writer_action_spec(p: StagingPaths, scale: Option<u32>, s: WriterState) -> Option<
    WriterAction,
> {
    match s {
        WriterState::CleanTempInput => Some(WriterAction::RemoveIfExists(p.temp_input)),
        WriterState::CleanTempOutput => Some(WriterAction::RemoveIfExists(p.temp_output)),
        WriterState::CleanWorking => Some(WriterAction::RemoveIfExists(p.working_output)),
        WriterState::StageInput => Some(WriterAction::CopyFile(p.source, p.temp_input)),
        WriterState::Transform => Some(
            WriterAction::RunTransform(p.temp_input, p.temp_output, scale),
        ),
        WriterState::StageOutput => Some(WriterAction::CopyFile(p.temp_output, p.working_output)),
        WriterState::Commit => Some(WriterAction::RenameFile(p.working_output, p.dest)),
        WriterState::RemoveTempInput => Some(WriterAction::RemoveFile(p.temp_input)),
        WriterState::RemoveTempOutput => Some(WriterAction::RemoveFile(p.temp_output)),
        WriterState::Done => None,
        WriterState::Failed(_) => None,
    }
}

/// Begin the protocol for one transfer.
pub fn writer_init() -> (s: WriterState)
    ensures
        s == writer_start(),
{
    WriterState::CleanTempInput
}

/// Advance the protocol by one observed event.
pub fn writer_step(s: &WriterState, e: &WriterEvent) -> (t: WriterState)
    ensures
        t == writer_next(*s, *e),
{
    match (s, e) {
        (WriterState::CleanTempInput, WriterEvent::Succeeded) => WriterState::CleanTempOutput,
        (WriterState::CleanTempOutput, WriterEvent::Succeeded) => WriterState::CleanWorking,
        (WriterState::CleanWorking, WriterEvent::Succeeded) => WriterState::StageInput,
        (WriterState::StageInput, WriterEvent::Succeeded) => WriterState::Transform,
        (WriterState::Transform, WriterEvent::TransformExited(c)) => if *c == 0 {
            WriterState::StageOutput
        } else {
            WriterState::Failed(WriterError::TransformExit(*c))
        },
        (WriterState::Transform, WriterEvent::TransformSignaled) => WriterState::Failed(
            WriterError::TransformSignal,
        ),
        (WriterState::StageOutput, WriterEvent::Succeeded) => WriterState::Commit,
        (WriterState::Commit, WriterEvent::Succeeded) => WriterState::RemoveTempInput,
        (WriterState::RemoveTempInput, WriterEvent::Succeeded) => WriterState::RemoveTempOutput,
        (WriterState::RemoveTempOutput, WriterEvent::Succeeded) => WriterState::Done,
        (WriterState::Done, _) => WriterState::Done,
        (WriterState::Failed(err), _) => WriterState::Failed(*err),
        (_, _) => WriterState::Failed(WriterError::Io),
    }
}

/// The action the protocol asks for in state `s`, or `None` when the
/// transfer has ended.
pub fn writer_action(p: &StagingPaths, scale: Option<u32>, s: &WriterState) -> (a: Option<
    WriterAction,
>)
    ensures
        a == writer_action_spec(*p, scale, *s),
{
    match s {
        WriterState::CleanTempInput => Some(WriterAction::RemoveIfExists(p.temp_input.clone())),
        WriterState::CleanTempOutput => Some(WriterAction::RemoveIfExists(p.temp_output.clone())),
        WriterState::CleanWorking => Some(WriterAction::RemoveIfExists(p.working_output.clone())),
        WriterState::StageInput => Some(
            WriterAction::CopyFile(p.source.clone(), p.temp_input.clone()),
        ),
        WriterState::Transform => Some(
            WriterAction::RunTransform(p.temp_input.clone(), p.temp_output.clone(), scale),
        ),
        WriterState::StageOutput => Some(
            WriterAction::CopyFile(p.temp_output.clone(), p.working_output.clone()),
        ),
        WriterState::Commit => Some(
            WriterAction::RenameFile(p.working_output.clone(), p.dest.clone()),
        ),
        WriterState::RemoveTempInput => Some(WriterAction::RemoveFile(p.temp_input.clone())),
        WriterState::RemoveTempOutput => Some(WriterAction::RemoveFile(p.temp_output.clone())),
        WriterState::Done => None,
        WriterState::Failed(_) => None,
    }
}

/// The outcome of a finished transfer, or `None` while it is still running.
pub open spec fn writer_result_spec(s: WriterState) -> Option<Result<(), WriterError>> {
    match s {
        WriterState::Done => Some(Ok(())),
        WriterState::Failed(e) => Some(Err(e)),
        _ => None,
    }
}

/// Report whether the transfer has ended, and how.
pub fn writer_result(s: &WriterState) -> (r: Option<Result<(), WriterError>>)
    ensures
        r == writer_result_spec(*s),
{
    match s {
        WriterState::Done => Some(Ok(())),
        WriterState::Failed(e) => Some(Err(*e)),
        _ => None,
    }
}

/// The state after consuming a sequence of events, one transition each.
pub open spec fn writer_run(s: WriterState, evs: Seq<WriterEvent>) -> WriterState
    decreases evs.len(),
{
    if evs.len() == 0 {
        s
    } else {
        writer_run(writer_next(s, evs.first()), evs.drop_first())
    }
}

/// The state of a transfer after its first `i` events.
pub open spec fn writer_trace_state(evs: Seq<WriterEvent>, i: int) -> WriterState {
    writer_run(writer_start(), evs.take(i))
}

proof fn lemma_run_snoc(s: WriterState, evs: Seq<WriterEvent>)
    requires
        evs.len() > 0,
    ensures
        writer_run(s, evs) == writer_next(writer_run(s, evs.drop_last()), evs.last()),
    decreases evs.len(),
{
    if evs.len() == 1 {
        assert(evs.drop_last() =~= Seq::<WriterEvent>::empty());
        assert(evs.drop_first() =~= Seq::<WriterEvent>::empty());
    } else {
        lemma_run_snoc(writer_next(s, evs.first()), evs.drop_first());
        assert(evs.drop_first().drop_last() =~= evs.drop_last().drop_first());
        assert(evs.drop_first().last() == evs.last());
        assert(evs.drop_last().first() == evs.first());
    }
}

proof fn lemma_trace_step(evs: Seq<WriterEvent>, i: int)
    requires
        0 <= i < evs.len(),
    ensures
        writer_trace_state(evs, i + 1) == writer_next(writer_trace_state(evs, i), evs[i]),
{
    lemma_run_snoc(writer_start(), evs.take(i + 1));
    assert(evs.take(i + 1).drop_last() =~= evs.take(i));
    assert(evs.take(i + 1).last() == evs[i]);
}

/// A failure is final: whatever events follow, the machine stays in the same
/// failure state, and in particular asks for no further action.
pub proof fn lemma_failed_is_final(e: WriterError, evs: Seq<WriterEvent>)
    ensures
        writer_run(WriterState::Failed(e), evs) == WriterState::Failed(e),
    decreases evs.len(),
{
    if evs.len() > 0 {
        lemma_failed_is_final(e, evs.drop_first());
    }
}

proof fn lemma_run_append(s: WriterState, a: Seq<WriterEvent>, b: Seq<WriterEvent>)
    ensures
        writer_run(s, a + b) == writer_run(writer_run(s, a), b),
    decreases a.len(),
{
    if a.len() == 0 {
        assert(a + b =~= b);
    } else {
        lemma_run_append(writer_next(s, a.first()), a.drop_first(), b);
        assert((a + b).first() == a.first());
        assert((a + b).drop_first() =~= a.drop_first() + b);
    }
}

/// The position of a state in the protocol order; both terminal states rank
/// last.
pub open spec fn writer_rank(s: WriterState) -> int {
    match s {
        WriterState::CleanTempInput => 0,
        WriterState::CleanTempOutput => 1,
        WriterState::CleanWorking => 2,
        WriterState::StageInput => 3,
        WriterState::Transform => 4,
        WriterState::StageOutput => 5,
        WriterState::Commit => 6,
        WriterState::RemoveTempInput => 7,
        WriterState::RemoveTempOutput => 8,
        WriterState::Done => 9,
        WriterState::Failed(_) => 9,
    }
}

/// The protocol only moves forward: a state is never revisited after the
/// machine has moved past it.
pub proof fn lemma_rank_monotone(evs: Seq<WriterEvent>, i: int, j: int)
    requires
        0 <= i <= j <= evs.len(),
    ensures
        writer_rank(writer_trace_state(evs, i)) <= writer_rank(writer_trace_state(evs, j)),
    decreases j - i,
{
    if i < j {
        lemma_trace_step(evs, j - 1);
        lemma_rank_monotone(evs, i, j - 1);
    }
}

/// The committing rename happens only after the external transform has been
/// observed to exit with code zero: whenever the machine stands at any step
/// past the transform — staging the output, the commit itself, or later — an
/// earlier step ran the transform and it succeeded.
pub proof fn lemma_commit_requires_transform_success(evs: Seq<WriterEvent>, j: int)
    requires
        0 <= j <= evs.len(),
        writer_rank(writer_trace_state(evs, j)) >= 5,
        !(writer_trace_state(evs, j) is Failed),
    ensures
        exists|i: int|
            0 <= i < j && #[trigger] writer_trace_state(evs, i) == WriterState::Transform && evs[i]
                == WriterEvent::TransformExited(0),
    decreases j,
{
    if j == 0 {
        assert(evs.take(0) =~= Seq::<WriterEvent>::empty());
        assert(writer_trace_state(evs, 0) == writer_start());
    } else {
        lemma_trace_step(evs, j - 1);
        let prev = writer_trace_state(evs, j - 1);
        if prev == WriterState::Transform && evs[j - 1] == WriterEvent::TransformExited(0i32) {
            assert(writer_trace_state(evs, j - 1) == WriterState::Transform && evs[j - 1]
                == WriterEvent::TransformExited(0));
        } else {
            lemma_commit_requires_transform_success(evs, j - 1);
            let i = choose|i: int|
                0 <= i < j - 1 && #[trigger] writer_trace_state(evs, i) == WriterState::Transform
                    && evs[i] == WriterEvent::TransformExited(0);
            assert(0 <= i < j && writer_trace_state(evs, i) == WriterState::Transform && evs[i]
                == WriterEvent::TransformExited(0));
        }
    }
}

/// Atomicity under a failed transform: if the external transform fails at
/// step `i` — any exit other than code zero — the machine never reaches the
/// committing rename, before or after, so nothing ever appears at the
/// destination path.
pub proof fn lemma_transform_failure_never_commits(evs: Seq<WriterEvent>, i: int)
    requires
        0 <= i < evs.len(),
        writer_trace_state(evs, i) == WriterState::Transform,
        evs[i] != WriterEvent::TransformExited(0),
    ensures
        forall|j: int| 0 <= j <= evs.len() ==> #[trigger] writer_trace_state(evs, j)
            != WriterState::Commit,
{
    lemma_trace_step(evs, i);
    let failed = writer_trace_state(evs, i + 1);
    assert(failed is Failed);
    assert forall|j: int| 0 <= j <= evs.len() implies #[trigger] writer_trace_state(evs, j)
        != WriterState::Commit by {
        if j <= i {
            lemma_rank_monotone(evs, j, i);
        } else {
            lemma_run_append(writer_start(), evs.take(i + 1), evs.take(j).skip(i + 1));
            assert(evs.take(i + 1) + evs.take(j).skip(i + 1) =~= evs.take(j));
            let e = failed->Failed_0;
            lemma_failed_is_final(e, evs.take(j).skip(i + 1));
        }
    }
}

proof fn lemma_past_remove_input(evs: Seq<WriterEvent>, j: int)
    requires
        0 <= j <= evs.len(),
        writer_rank(writer_trace_state(evs, j)) >= 8,
        !(writer_trace_state(evs, j) is Failed),
    ensures
        exists|i: int|
            0 <= i < j && #[trigger] writer_trace_state(evs, i) == WriterState::RemoveTempInput
                && evs[i] == WriterEvent::Succeeded,
    decreases j,
{
    if j == 0 {
        assert(evs.take(0) =~= Seq::<WriterEvent>::empty());
    } else {
        lemma_trace_step(evs, j - 1);
        let prev = writer_trace_state(evs, j - 1);
        if prev == WriterState::RemoveTempInput && evs[j - 1] == WriterEvent::Succeeded {
            assert(writer_trace_state(evs, j - 1) == WriterState::RemoveTempInput && evs[j - 1]
                == WriterEvent::Succeeded);
        } else {
            lemma_past_remove_input(evs, j - 1);
            let i = choose|i: int|
                0 <= i < j - 1 && #[trigger] writer_trace_state(evs, i)
                    == WriterState::RemoveTempInput && evs[i] == WriterEvent::Succeeded;
            assert(0 <= i < j && writer_trace_state(evs, i) == WriterState::RemoveTempInput
                && evs[i] == WriterEvent::Succeeded);
        }
    }
}

/// A finished transfer leaves no scratch artifact: a trace that ends at
/// `Done` removed the scratch input and the scratch output along the way,
/// each removal reported successful.
pub proof fn lemma_done_implies_cleanup(evs: Seq<WriterEvent>, j: int)
    requires
        0 <= j <= evs.len(),
        writer_trace_state(evs, j) == WriterState::Done,
    ensures
        exists|i: int|
            0 <= i < j && #[trigger] writer_trace_state(evs, i) == WriterState::RemoveTempInput
                && evs[i] == WriterEvent::Succeeded,
        exists|i: int|
            0 <= i < j && #[trigger] writer_trace_state(evs, i) == WriterState::RemoveTempOutput
                && evs[i] == WriterEvent::Succeeded,
    decreases j,
{
    lemma_past_remove_input(evs, j);
    if j == 0 {
        assert(evs.take(0) =~= Seq::<WriterEvent>::empty());
    } else {
        lemma_trace_step(evs, j - 1);
        let prev = writer_trace_state(evs, j - 1);
        if prev == WriterState::RemoveTempOutput && evs[j - 1] == WriterEvent::Succeeded {
            assert(writer_trace_state(evs, j - 1) == WriterState::RemoveTempOutput && evs[j - 1]
                == WriterEvent::Succeeded);
        } else {
            lemma_done_implies_cleanup(evs, j - 1);
            let i = choose|i: int|
                0 <= i < j - 1 && #[trigger] writer_trace_state(evs, i)
                    == WriterState::RemoveTempOutput && evs[i] == WriterEvent::Succeeded;
            assert(0 <= i < j && writer_trace_state(evs, i) == WriterState::RemoveTempOutput
                && evs[i] == WriterEvent::Succeeded);
        }
    }
}

/// Success makes the destination visible: when a transfer has run to `Done`,
/// the committing rename was requested and reported successful along the way.
pub proof fn lemma_done_implies_commit(evs: Seq<WriterEvent>, j: int)
    requires
        0 <= j <= evs.len(),
        writer_rank(writer_trace_state(evs, j)) >= 7,
        !(writer_trace_state(evs, j) is Failed),
    ensures
        exists|i: int|
            0 <= i < j && #[trigger] writer_trace_state(evs, i) == WriterState::Commit && evs[i]
                == WriterEvent::Succeeded,
    decreases j,
{
    if j == 0 {
        assert(evs.take(0) =~= Seq::<WriterEvent>::empty());
    } else {
        lemma_trace_step(evs, j - 1);
        let prev = writer_trace_state(evs, j - 1);
        if prev == WriterState::Commit && evs[j - 1] == WriterEvent::Succeeded {
            assert(writer_trace_state(evs, j - 1) == WriterState::Commit && evs[j - 1]
                == WriterEvent::Succeeded);
        } else {
            lemma_done_implies_commit(evs, j - 1);
            let i = choose|i: int|
                0 <= i < j - 1 && #[trigger] writer_trace_state(evs, i) == WriterState::Commit
                    && evs[i] == WriterEvent::Succeeded;
            assert(0 <= i < j && writer_trace_state(evs, i) == WriterState::Commit && evs[i]
                == WriterEvent::Succeeded);
        }
    }
}

} // verus!
