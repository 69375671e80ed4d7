//! Walks over directories: the archive of a download, and the sweep of left-over files.
//!
//! `D` is a directory that is still to be read. Links are never followed.

use vstd::prelude::*;
use vstd::string::*;

use crate::serve::files::{MAX_DOWNLOAD_ENTRIES, SWEEP_MAX_DEPTH, SWEEP_MAX_ENTRIES, TEMP_SUFFIX};
use crate::text::{has_text, holds_text};

verus! {

/// What reading a directory began with.
#[derive(Debug)]
pub enum OpenOutcome {
    Opened,
    PermissionDenied,
    Failed(String),
}

/// What an entry of a directory is.
#[derive(Debug)]
pub enum EntryKind {
    Directory,
    File,
    Link,
    /// A socket, a pipe or a device.
    Special,
    /// It was removed in the meantime.
    Vanished,
    Failed(String),
}

/// What an archive does with an entry.
#[derive(Debug)]
pub enum ArchiveStep {
    /// Leave it out.
    Skip,
    /// Add the directory, and read it later.
    AddDirectory,
    /// Add the file, or the link as a link.
    AddFile,
    /// Give up.
    Abort(String),
}

/// What an archive does with an entry, on the level of specifications.
pub enum ArchiveStepView {
    Skip,
    AddDirectory,
    AddFile,
    Abort(Seq<char>),
}

impl ArchiveStep {
    pub open spec fn view(self) -> ArchiveStepView {
        match self {
            ArchiveStep::Skip => ArchiveStepView::Skip,
            ArchiveStep::AddDirectory => ArchiveStepView::AddDirectory,
            ArchiveStep::AddFile => ArchiveStepView::AddFile,
            ArchiveStep::Abort(m) => ArchiveStepView::Abort(m@),
        }
    }
}

/// How adding a file ended.
#[derive(Debug)]
pub enum AddOutcome {
    Added,
    PermissionDenied,
    /// It was removed in the meantime.
    Vanished,
    Failed(String),
}

/// The archive of a directory in the making.
pub struct ArchiveWalk<D> {
    /// Entries so far, the directory itself among them.
    pub entries: usize,
    /// Directories that are still to be read.
    pub pending: Vec<D>,
}

impl<D> ArchiveWalk<D> {
    /// No more entries than the limit were counted.
    pub open spec fn wf(self) -> bool {
        1 <= self.entries <= MAX_DOWNLOAD_ENTRIES
    }

    /// The archive of a directory, which is its first entry.
    pub fn new(directory: D) -> (r: ArchiveWalk<D>)
        ensures
            r.wf(),
            r.entries == 1,
            r.pending@ == seq![directory],
    {
        let mut pending: Vec<D> = Vec::new();
        pending.push(directory);
        proof {
            assert(pending@ =~= seq![directory]);
        }
        ArchiveWalk { entries: 1, pending }
    }

    /// The next directory to read, the one that was found last.
    pub fn next_directory(&mut self) -> (r: Option<D>)
        ensures
            final(self).entries == old(self).entries,
            match r {
                Some(d) => old(self).pending@ == final(self).pending@.push(d),
                None => old(self).pending@.len() == 0 && final(self).pending@.len() == 0,
            },
    {
        let r = self.pending.pop();
        proof {
            if r is Some {
                assert(old(self).pending@ =~= self.pending@.push(r->0));
            }
        }
        r
    }

    /// Whether to read a directory that was opened; one that may not be read is left out.
    pub fn opened(outcome: OpenOutcome) -> (r: Result<bool, String>)
        ensures
            r == match outcome {
                OpenOutcome::Opened => Ok::<bool, String>(true),
                OpenOutcome::PermissionDenied => Ok(false),
                OpenOutcome::Failed(m) => Err(m),
            },
    {
        match outcome {
            OpenOutcome::Opened => Ok(true),
            OpenOutcome::PermissionDenied => Ok(false),
            OpenOutcome::Failed(m) => Err(m),
        }
    }

    /// What is done with an entry. Every entry counts; the first one past the limit ends the
    /// archive. A directory is read later, at `place`.
    pub fn entry(&mut self, kind: EntryKind, place: D) -> (r: ArchiveStep)
        requires
            old(self).wf(),
        ensures
            final(self).wf(),
            if old(self).entries == MAX_DOWNLOAD_ENTRIES {
                &&& r.view() == ArchiveStepView::Abort(
                    "directory has more than 100000 entries"@,
                )
                &&& *final(self) == *old(self)
            } else {
                &&& final(self).entries == old(self).entries + 1
                &&& r.view() == archive_step(kind)
                &&& final(self).pending@ == if kind is Directory {
                    old(self).pending@.push(place)
                } else {
                    old(self).pending@
                }
            },
    {
        if self.entries >= MAX_DOWNLOAD_ENTRIES {
            return ArchiveStep::Abort("directory has more than 100000 entries".to_owned());
        }
        self.entries = self.entries + 1;
        match kind {
            EntryKind::Directory => {
                self.pending.push(place);
                ArchiveStep::AddDirectory
            },
            EntryKind::File | EntryKind::Link => ArchiveStep::AddFile,
            EntryKind::Special | EntryKind::Vanished => ArchiveStep::Skip,
            EntryKind::Failed(m) => ArchiveStep::Abort(m),
        }
    }

    /// Whether the archive goes on after a file was added; one that cannot be read or is
    /// gone does not end it.
    pub fn added(outcome: AddOutcome) -> (r: Result<(), String>)
        ensures
            r == match outcome {
                AddOutcome::Failed(m) => Err::<(), String>(m),
                _ => Ok(()),
            },
    {
        match outcome {
            AddOutcome::Added | AddOutcome::PermissionDenied | AddOutcome::Vanished => Ok(()),
            AddOutcome::Failed(m) => Err(m),
        }
    }
}

/// What an archive does with an entry of a kind.
pub open spec fn archive_step(kind: EntryKind) -> ArchiveStepView {
    match kind {
        EntryKind::Directory => ArchiveStepView::AddDirectory,
        EntryKind::File | EntryKind::Link => ArchiveStepView::AddFile,
        EntryKind::Special | EntryKind::Vanished => ArchiveStepView::Skip,
        EntryKind::Failed(m) => ArchiveStepView::Abort(m@),
    }
}

/// What the sweep does with an entry.
#[derive(Debug, Clone, Copy, PartialEq, Eq, Structural)]
pub enum SweepStep {
    /// Leave it.
    Keep,
    /// Leave it; it is a directory to look into.
    Enter,
    /// See when it was changed, and ask [`SweepWalk::is_stale`].
    Examine,
    /// Stop sweeping.
    Stop,
}

/// The sweep of left-over files.
pub struct SweepWalk<D> {
    pub visited: usize,
    /// Directories that are still to be read, with their depth.
    pub pending: Vec<(D, usize)>,
}

/// What the sweep does with an entry of a kind, a name and the depth of its directory.
pub open spec fn sweep_step(kind: EntryKind, name: Seq<char>, depth: usize) -> SweepStep {
    match kind {
        EntryKind::Link | EntryKind::Vanished | EntryKind::Failed(_) => SweepStep::Keep,
        EntryKind::Directory => if depth < SWEEP_MAX_DEPTH {
            SweepStep::Enter
        } else {
            SweepStep::Keep
        },
        EntryKind::File | EntryKind::Special => if holds_text(name, TEMP_SUFFIX@) {
            SweepStep::Examine
        } else {
            SweepStep::Keep
        },
    }
}

impl<D> SweepWalk<D> {
    /// Neither more entries nor deeper directories than the limits allow.
    pub open spec fn wf(self) -> bool {
        &&& self.visited <= SWEEP_MAX_ENTRIES
        &&& forall|i: int|
            0 <= i < self.pending@.len() ==> (#[trigger] self.pending@[i]).1 <= SWEEP_MAX_DEPTH
    }

    /// The sweep of a directory.
    pub fn new(root: D) -> (r: SweepWalk<D>)
        ensures
            r.wf(),
            r.visited == 0,
            r.pending@ == seq![(root, 0usize)],
    {
        let mut pending: Vec<(D, usize)> = Vec::new();
        pending.push((root, 0));
        proof {
            assert(pending@ =~= seq![(root, 0usize)]);
        }
        SweepWalk { visited: 0, pending }
    }

    /// The next directory to read, and its depth.
    pub fn next_directory(&mut self) -> (r: Option<(D, usize)>)
        requires
            old(self).wf(),
        ensures
            final(self).wf(),
            final(self).visited == old(self).visited,
            match r {
                Some(d) => old(self).pending@ == final(self).pending@.push(d) && d.1
                    <= SWEEP_MAX_DEPTH,
                None => old(self).pending@.len() == 0 && final(self).pending@.len() == 0,
            },
    {
        let r = self.pending.pop();
        proof {
            if r is Some {
                assert(old(self).pending@ =~= self.pending@.push(r->0));
                assert(old(self).pending@[old(self).pending@.len() - 1] == r->0);
                assert forall|i: int| 0 <= i < self.pending@.len() implies (
                #[trigger] self.pending@[i]).1 <= SWEEP_MAX_DEPTH by {
                    assert(old(self).pending@[i] == self.pending@[i]);
                }
            }
        }
        r
    }

    /// What is done with an entry. Links are left alone, directories are looked into down to
    /// the largest depth, and of other files only those with the name of a temporary file
    /// are looked at further. The first entry past the limit ends the sweep.
    pub fn entry(&mut self, kind: &EntryKind, name: &str, place: D, depth: usize) -> (r: SweepStep)
        requires
            old(self).wf(),
            depth <= SWEEP_MAX_DEPTH,
        ensures
            final(self).wf(),
            if old(self).visited == SWEEP_MAX_ENTRIES {
                r == SweepStep::Stop && *final(self) == *old(self)
            } else {
                &&& final(self).visited == old(self).visited + 1
                &&& r == sweep_step(*kind, name@, depth)
                &&& final(self).pending@ == if r == SweepStep::Enter {
                    old(self).pending@.push((place, (depth + 1) as usize))
                } else {
                    old(self).pending@
                }
            },
    {
        if self.visited >= SWEEP_MAX_ENTRIES {
            return SweepStep::Stop;
        }
        self.visited = self.visited + 1;
        match kind {
            EntryKind::Link | EntryKind::Vanished | EntryKind::Failed(_) => SweepStep::Keep,
            EntryKind::Directory => {
                if depth < SWEEP_MAX_DEPTH {
                    self.pending.push((place, depth + 1));
                    SweepStep::Enter
                } else {
                    SweepStep::Keep
                }
            },
            EntryKind::File | EntryKind::Special => {
                if has_text(name, TEMP_SUFFIX) {
                    SweepStep::Examine
                } else {
                    SweepStep::Keep
                }
            },
        }
    }

    /// Whether a temporary file is left over: it was last changed before the cutoff. One
    /// whose time cannot be read is not. Times are in nanoseconds since 1970.
    pub fn is_stale(modified: Option<i128>, older_than: i128) -> (r: bool)
        ensures
            r == (modified is Some && modified->0 < older_than),
    {
        match modified {
            Some(modified) => modified < older_than,
            None => false,
        }
    }
}

/// A sweep removes nothing but temporary files: whatever it examines is no link and no
/// directory, and has the name of one.
pub proof fn law_sweep_examines_temporary_files_only(
    kind: EntryKind,
    name: Seq<char>,
    depth: usize,
)
    requires
        sweep_step(kind, name, depth) == SweepStep::Examine,
    ensures
        !(kind is Link) && !(kind is Directory),
        holds_text(name, TEMP_SUFFIX@),
{
}

/// The temporary file of an upload is one that a sweep finds.
pub proof fn law_temporary_files_are_swept(target: Seq<char>, tag: Seq<char>, depth: usize)
    ensures
        sweep_step(EntryKind::File, target + TEMP_SUFFIX@ + tag, depth) == SweepStep::Examine,
{
    let name = target + TEMP_SUFFIX@ + tag;
    let i = target.len() as int;
    assert(name.subrange(i, i + TEMP_SUFFIX@.len()) =~= TEMP_SUFFIX@);
}

/// An archive holds every file, link and directory; what is none of these, or is gone, is left
/// out, and what cannot be looked at ends it.
pub proof fn law_archives_are_complete(kind: EntryKind)
    ensures
        kind is Directory <==> archive_step(kind) is AddDirectory,
        kind is File || kind is Link <==> archive_step(kind) is AddFile,
        kind is Special || kind is Vanished <==> archive_step(kind) is Skip,
        kind matches EntryKind::Failed(m) ==> archive_step(kind) == ArchiveStepView::Abort(m@),
{
}

/// A sweep goes into every directory down to the 32nd level, follows no link, and examines
/// every file that has the mark of an upload in its name.
pub proof fn law_sweeps_find_what_uploads_left(name: Seq<char>, depth: usize, i: int)
    ensures
        sweep_step(EntryKind::Directory, name, depth) == if depth < 32 {
            SweepStep::Enter
        } else {
            SweepStep::Keep
        },
        sweep_step(EntryKind::Link, name, depth) == SweepStep::Keep,
        sweep_step(EntryKind::Vanished, name, depth) == SweepStep::Keep,
        0 <= i <= name.len() - ".zs-upload-"@.len() && name.subrange(
            i,
            i + ".zs-upload-"@.len(),
        ) == ".zs-upload-"@ ==> sweep_step(EntryKind::File, name, depth) == SweepStep::Examine
            && sweep_step(EntryKind::Special, name, depth) == SweepStep::Examine,
{
}

} // verus!
