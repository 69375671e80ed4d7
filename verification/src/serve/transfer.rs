//! Writing one file of an upload: into a temporary file, which then takes the place of the
//! target.

use vstd::prelude::*;
use vstd::string::*;

use crate::serve::files::{FilesError, FilesErrorView, spend, UploadBudget};

verus! {

/// How far the writing of a file is.
#[derive(Debug, Clone, Copy, PartialEq, Eq, Structural)]
pub enum WritePhase {
    /// The directory of the target is made.
    MakingDirectory,
    /// The temporary file is opened.
    OpeningTemp,
    /// A chunk of the body is awaited.
    Reading,
    /// A chunk is written.
    Writing,
    /// What was written is flushed.
    Flushing,
    /// The temporary file takes the place of the target.
    Renaming,
    /// The file is there.
    Done,
    /// The temporary file is removed, if it is there.
    Removing,
    /// The file is not there.
    Failed,
}

/// What happened.
#[derive(Debug)]
pub enum WriteEvent {
    /// What was under way has succeeded.
    Succeeded,
    /// The body has this many bytes more.
    Chunk(usize),
    /// The body has ended.
    BodyEnd,
    /// What was under way has failed, or the body could not be read.
    Failed(FilesError),
}

/// The writing of one file.
#[derive(Debug)]
pub struct FileWrite {
    pub phase: WritePhase,
    /// Why it failed.
    pub error: Option<FilesError>,
}

/// Whether an event is one that a phase waits for.
pub open spec fn awaited(phase: WritePhase, event: WriteEvent) -> bool {
    match phase {
        WritePhase::Reading => event is Chunk || event is BodyEnd || event is Failed,
        WritePhase::Removing => event is Succeeded || event is Failed,
        WritePhase::Done | WritePhase::Failed => false,
        _ => event is Succeeded || event is Failed,
    }
}

/// The phase after an event, and the error that it brings. Before the directory is there
/// nothing has to be removed.
pub open spec fn phase_after(phase: WritePhase, event: WriteEvent, left: nat) -> (
    WritePhase,
    Option<FilesErrorView>,
) {
    match event {
        WriteEvent::Failed(e) => match phase {
            WritePhase::Removing => (WritePhase::Failed, None),
            WritePhase::MakingDirectory => (WritePhase::Failed, Some(e.view())),
            _ => (WritePhase::Removing, Some(e.view())),
        },
        WriteEvent::Chunk(len) => if spend(left, len as nat) is Some {
            (WritePhase::Writing, None)
        } else {
            (WritePhase::Removing, Some(FilesErrorView::TooLarge))
        },
        WriteEvent::BodyEnd => (WritePhase::Flushing, None),
        WriteEvent::Succeeded => match phase {
            WritePhase::MakingDirectory => (WritePhase::OpeningTemp, None),
            WritePhase::OpeningTemp => (WritePhase::Reading, None),
            WritePhase::Writing => (WritePhase::Reading, None),
            WritePhase::Flushing => (WritePhase::Renaming, None),
            WritePhase::Renaming => (WritePhase::Done, None),
            WritePhase::Removing => (WritePhase::Failed, None),
            other => (other, None),
        },
    }
}

impl FileWrite {
    /// A file that has an error exactly where it failed, or is about to.
    pub open spec fn wf(self) -> bool {
        self.error is Some <==> (self.phase == WritePhase::Removing || self.phase
            == WritePhase::Failed)
    }

    /// The writing begins.
    pub fn new() -> (r: FileWrite)
        ensures
            r.wf(),
            r.phase == WritePhase::MakingDirectory,
            r.error is None,
    {
        FileWrite { phase: WritePhase::MakingDirectory, error: None }
    }

    /// Takes in what happened. A chunk is taken from the budget of the upload before it is
    /// written; whatever fails once the temporary file may be there leads to its removal.
    pub fn step(&mut self, event: WriteEvent, budget: &mut UploadBudget)
        requires
            old(self).wf(),
            awaited(old(self).phase, event),
        ensures
            final(self).wf(),
            final(self).phase == phase_after(
                old(self).phase,
                event,
                old(budget).remaining as nat,
            ).0,
            match phase_after(old(self).phase, event, old(budget).remaining as nat).1 {
                Some(e) => final(self).error is Some && final(self).error->0.view() == e,
                None => final(self).error == old(self).error,
            },
            final(budget).remaining == match event {
                WriteEvent::Chunk(len) => match spend(
                    old(budget).remaining as nat,
                    len as nat,
                ) {
                    Some(left) => left,
                    None => 0,
                },
                _ => old(budget).remaining as nat,
            },
    {
        match event {
            WriteEvent::Failed(e) => match self.phase {
                WritePhase::Removing => {
                    self.phase = WritePhase::Failed;
                },
                WritePhase::MakingDirectory => {
                    self.phase = WritePhase::Failed;
                    self.error = Some(e);
                },
                _ => {
                    self.phase = WritePhase::Removing;
                    self.error = Some(e);
                },
            },
            WriteEvent::Chunk(len) => match budget.consume(len) {
                Ok(()) => {
                    self.phase = WritePhase::Writing;
                },
                Err(e) => {
                    self.phase = WritePhase::Removing;
                    self.error = Some(e);
                },
            },
            WriteEvent::BodyEnd => {
                self.phase = WritePhase::Flushing;
            },
            WriteEvent::Succeeded => {
                self.phase = match self.phase {
                    WritePhase::MakingDirectory => WritePhase::OpeningTemp,
                    WritePhase::OpeningTemp => WritePhase::Reading,
                    WritePhase::Writing => WritePhase::Reading,
                    WritePhase::Flushing => WritePhase::Renaming,
                    WritePhase::Renaming => WritePhase::Done,
                    WritePhase::Removing => WritePhase::Failed,
                    other => other,
                };
            },
        }
    }
}

/// The target is touched only once the whole body is in the temporary file and flushed: the
/// renaming comes after the flush, the flush after the end of the body, and after a failure
/// there is no way back to it.
pub proof fn law_the_target_is_replaced_whole_or_not_at_all(
    phase: WritePhase,
    event: WriteEvent,
    left: nat,
)
    requires
        awaited(phase, event),
    ensures
        phase_after(phase, event, left).0 == WritePhase::Renaming ==> phase
            == WritePhase::Flushing && event is Succeeded,
        phase_after(phase, event, left).0 == WritePhase::Flushing ==> phase == WritePhase::Reading
            && event is BodyEnd,
        phase_after(phase, event, left).0 == WritePhase::Done ==> phase == WritePhase::Renaming
            && event is Succeeded,
        phase == WritePhase::Removing ==> phase_after(phase, event, left).0 == WritePhase::Failed,
{
}

/// Whatever fails once the temporary file may be there, the temporary file is removed.
pub proof fn law_failed_uploads_leave_no_temporary_file(
    phase: WritePhase,
    event: WriteEvent,
    left: nat,
)
    requires
        awaited(phase, event),
        phase != WritePhase::MakingDirectory,
        phase != WritePhase::Removing,
        event is Failed || (event matches WriteEvent::Chunk(len) && spend(left, len as nat) is None),
    ensures
        phase_after(phase, event, left).0 == WritePhase::Removing,
{
}

/// A file is written step by step: its directory, the temporary file, every chunk that is
/// within the budget, the end of the body, the flush, and the renaming, after which it is
/// done.
pub proof fn law_files_are_written_step_by_step(left: nat, len: usize)
    ensures
        phase_after(WritePhase::MakingDirectory, WriteEvent::Succeeded, left) == (
            WritePhase::OpeningTemp,
            None::<FilesErrorView>,
        ),
        phase_after(WritePhase::OpeningTemp, WriteEvent::Succeeded, left) == (
            WritePhase::Reading,
            None::<FilesErrorView>,
        ),
        len <= left ==> phase_after(WritePhase::Reading, WriteEvent::Chunk(len), left) == (
            WritePhase::Writing,
            None::<FilesErrorView>,
        ),
        len > left ==> phase_after(WritePhase::Reading, WriteEvent::Chunk(len), left) == (
            WritePhase::Removing,
            Some(FilesErrorView::TooLarge),
        ),
        phase_after(WritePhase::Writing, WriteEvent::Succeeded, left) == (
            WritePhase::Reading,
            None::<FilesErrorView>,
        ),
        phase_after(WritePhase::Reading, WriteEvent::BodyEnd, left) == (
            WritePhase::Flushing,
            None::<FilesErrorView>,
        ),
        phase_after(WritePhase::Flushing, WriteEvent::Succeeded, left) == (
            WritePhase::Renaming,
            None::<FilesErrorView>,
        ),
        phase_after(WritePhase::Renaming, WriteEvent::Succeeded, left) == (
            WritePhase::Done,
            None::<FilesErrorView>,
        ),
{
}

/// What failed first is what is reported, and a failure to remove the temporary file does not
/// hide it.
pub proof fn law_the_first_failure_is_reported(phase: WritePhase, error: FilesError, left: nat)
    ensures
        phase == WritePhase::MakingDirectory ==> phase_after(
            phase,
            WriteEvent::Failed(error),
            left,
        ) == (WritePhase::Failed, Some(error.view())),
        phase != WritePhase::MakingDirectory && phase != WritePhase::Removing ==> phase_after(
            phase,
            WriteEvent::Failed(error),
            left,
        ) == (WritePhase::Removing, Some(error.view())),
        phase_after(WritePhase::Removing, WriteEvent::Failed(error), left) == (
            WritePhase::Failed,
            None::<FilesErrorView>,
        ),
        phase_after(WritePhase::Removing, WriteEvent::Succeeded, left) == (
            WritePhase::Failed,
            None::<FilesErrorView>,
        ),
{
}

} // verus!
