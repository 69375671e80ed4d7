//! Commands that need the clipboard of a browser.
//!
//! A browser hands out the clipboard only after a while. A command that needs it is put
//! off, and carried out once the clipboard is there, unless anything that it depends on has
//! changed in the meantime.

use vstd::prelude::*;
use vstd::string::*;

use crate::text::{same, texts};

verus! {

/// A command that needs the clipboard. `P` and `H` are the two kinds of pasting, `M` is a
/// motion and `O` a text object.
pub enum Operation<P, H, M, O> {
    Paste(P),
    HelixPaste(H),
    InsertRegister(String),
    Motion(M),
    Object(O, bool),
}

/// A selection in a text, by the positions of its ends.
#[derive(Debug, Clone, Copy, PartialEq, Eq, Structural)]
pub struct SelectionMark {
    pub id: u64,
    pub start: u64,
    pub end: u64,
    pub reversed: bool,
}

/// What a command depends on.
#[derive(Debug)]
pub struct Snapshot {
    pub editor: u64,
    pub mode: String,
    pub operators: Vec<String>,
    pub register: Option<char>,
    pub pre_count: Option<usize>,
    pub post_count: Option<usize>,
    pub forced_motion: bool,
    pub selections: Vec<SelectionMark>,
    /// How often the text was edited.
    pub edits: usize,
}

/// What a command depends on, on the level of specifications.
pub struct SnapshotView {
    pub editor: u64,
    pub mode: Seq<char>,
    pub operators: Seq<Seq<char>>,
    pub register: Option<char>,
    pub pre_count: Option<usize>,
    pub post_count: Option<usize>,
    pub forced_motion: bool,
    pub selections: Seq<SelectionMark>,
    pub edits: usize,
}

fn same_number(a: Option<usize>, b: Option<usize>) -> (r: bool)
    ensures
        r == (a == b),
{
    match (a, b) {
        (Some(a), Some(b)) => a == b,
        (None, None) => true,
        _ => false,
    }
}

impl Snapshot {
    pub open spec fn view(self) -> SnapshotView {
        SnapshotView {
            editor: self.editor,
            mode: self.mode@,
            operators: texts(self.operators@),
            register: self.register,
            pre_count: self.pre_count,
            post_count: self.post_count,
            forced_motion: self.forced_motion,
            selections: self.selections@,
            edits: self.edits,
        }
    }

    /// Whether nothing has changed between two snapshots.
    pub fn same_as(&self, other: &Snapshot) -> (r: bool)
        ensures
            r == (self.view() == other.view()),
    {
        let register = match (self.register, other.register) {
            (Some(a), Some(b)) => a == b,
            (None, None) => true,
            _ => false,
        };
        if !(self.editor == other.editor && register && same_number(
            self.pre_count,
            other.pre_count,
        ) && same_number(self.post_count, other.post_count) && self.forced_motion
            == other.forced_motion && self.edits == other.edits && same(
            self.mode.as_str(),
            other.mode.as_str(),
        )) {
            return false;
        }
        proof {
            assert(texts(self.operators@).len() == self.operators@.len());
            assert(texts(other.operators@).len() == other.operators@.len());
        }
        if self.operators.len() != other.operators.len() || self.selections.len()
            != other.selections.len() {
            return false;
        }
        let mut i: usize = 0;
        while i < self.operators.len()
            invariant
                i <= self.operators@.len(),
                self.operators@.len() == other.operators@.len(),
                forall|j: int| 0 <= j < i ==> (#[trigger] self.operators@[j])@ == other.operators@[j]@,
            decreases self.operators@.len() - i,
        {
            if !same(self.operators[i].as_str(), other.operators[i].as_str()) {
                proof {
                    assert(texts(self.operators@)[i as int] != texts(other.operators@)[i as int]);
                }
                return false;
            }
            i = i + 1;
        }
        proof {
            assert(texts(self.operators@) =~= texts(other.operators@));
        }
        let mut k: usize = 0;
        while k < self.selections.len()
            invariant
                k <= self.selections@.len(),
                self.selections@.len() == other.selections@.len(),
                forall|j: int| 0 <= j < k ==> #[trigger] self.selections@[j] == other.selections@[j],
            decreases self.selections@.len() - k,
        {
            if self.selections[k] != other.selections[k] {
                return false;
            }
            k = k + 1;
        }
        proof {
            assert(self.selections@ =~= other.selections@);
        }
        true
    }
}

/// What the vim mode knows of all its editors. `A` is an action that can be repeated.
pub struct VimGlobals<A> {
    /// How many commands are put off.
    pub web_clipboard_pending: usize,
    /// Whether what is done is recorded, to be repeated.
    pub dot_recording: bool,
    pub stop_recording_after_next_action: bool,
    pub recording_actions: Vec<A>,
    pub recorded_actions: Vec<A>,
    pub recording_count: Option<usize>,
    pub recorded_count: Option<usize>,
    pub recording_register_for_dot: Option<char>,
    pub recorded_register_for_dot: Option<char>,
}

/// A command that was put off.
pub struct WebClipboardAction<P, H, M, O> {
    pub operation: Operation<P, H, M, O>,
    pub expected: Snapshot,
    /// Whether recording was under way when the command was put off.
    pub was_recording: bool,
    pub finished: bool,
}

/// Whether a register is that of the clipboard.
pub open spec fn is_system_register(register: Option<char>, never_by_default: bool) -> bool {
    match register {
        Some('+') | Some('*') => true,
        None | Some('"') => !never_by_default,
        Some(_) => false,
    }
}

/// Whether a register is that of the clipboard: always for `+` and `*`, and for the unnamed
/// one unless the user does not want that.
pub fn uses_system_clipboard(register: Option<char>, never_by_default: bool) -> (r: bool)
    ensures
        r == is_system_register(register, never_by_default),
{
    match register {
        None => !never_by_default,
        Some(c) => {
            if c == '+' || c == '*' {
                true
            } else if c == '"' {
                !never_by_default
            } else {
                false
            }
        },
    }
}

impl<P, H, M, O> WebClipboardAction<P, H, M, O> {
    /// Notes that a command is no longer put off. Only the first time counts.
    pub fn finish<A>(&mut self, globals: &mut VimGlobals<A>)
        ensures
            *final(self) == (WebClipboardAction { finished: true, ..*old(self) }),
            *final(globals) == (VimGlobals {
                web_clipboard_pending: pending_after(
                    old(globals).web_clipboard_pending,
                    old(self).finished,
                ),
                ..*old(globals)
            }),
    {
        if !self.finished {
            self.finished = true;
            globals.web_clipboard_pending = globals.web_clipboard_pending.saturating_sub(1);
        }
    }

    /// Whether a command that was put off is carried out now. It is not where anything that
    /// it depends on has changed, or nothing of that is left.
    pub fn complete<A>(&mut self, globals: &mut VimGlobals<A>, now: Option<&Snapshot>) -> (r: bool)
        ensures
            r == (now is Some && now->0.view() == old(self).expected.view()),
            *final(self) == (WebClipboardAction { finished: true, ..*old(self) }),
            *final(globals) == (VimGlobals {
                web_clipboard_pending: pending_after(
                    old(globals).web_clipboard_pending,
                    old(self).finished,
                ),
                ..*old(globals)
            }),
    {
        self.finish(globals);
        match now {
            Some(now) => now.same_as(&self.expected),
            None => false,
        }
    }
}

/// How many commands are put off after one was finished.
pub open spec fn pending_after(pending: usize, finished: bool) -> usize {
    if finished || pending == 0 {
        pending
    } else {
        (pending - 1) as usize
    }
}

/// Puts a command off if it needs the clipboard and the clipboard is not there. It is
/// carried out at once where it is not put off.
pub fn defer_web_clipboard<P, H, M, O, A>(
    globals: &mut VimGlobals<A>,
    operation: Operation<P, H, M, O>,
    register: Option<char>,
    never_by_default: bool,
    clipboard_is_there: bool,
    snapshot: Option<Snapshot>,
) -> (r: Result<WebClipboardAction<P, H, M, O>, Operation<P, H, M, O>>)
    requires
        old(globals).web_clipboard_pending < usize::MAX,
    ensures
        if puts_off(register, never_by_default, clipboard_is_there, snapshot is Some) {
            &&& r == Ok::<_, Operation<P, H, M, O>>(
                WebClipboardAction {
                    operation,
                    expected: snapshot->0,
                    was_recording: old(globals).dot_recording,
                    finished: false,
                },
            )
            &&& *final(globals) == (VimGlobals {
                web_clipboard_pending: (old(globals).web_clipboard_pending + 1) as usize,
                ..*old(globals)
            })
        } else {
            &&& r == Err::<WebClipboardAction<P, H, M, O>, _>(operation)
            &&& *final(globals) == *old(globals)
        },
{
    if !uses_system_clipboard(register, never_by_default) || clipboard_is_there {
        return Err(operation);
    }
    let expected = match snapshot {
        Some(expected) => expected,
        None => {
            return Err(operation);
        },
    };
    globals.web_clipboard_pending = globals.web_clipboard_pending + 1;
    Ok(
        WebClipboardAction {
            operation,
            expected,
            was_recording: globals.dot_recording,
            finished: false,
        },
    )
}

/// Ends recording after a command that was put off, if recording was to end with it: the
/// key was pressed long before, and the next one must not be recorded in its place. `paste`
/// is the command as it is repeated, where it pastes.
pub fn end_recording<A>(globals: &mut VimGlobals<A>, was_recording: bool, paste: Option<A>)
    ensures
        if old(globals).dot_recording && old(globals).stop_recording_after_next_action {
            &&& final(globals).recorded_actions@ == recorded_actions(
                old(globals).recording_actions@,
                was_recording,
                paste,
            )
            &&& final(globals).recording_actions@.len() == 0
            &&& final(globals).recorded_count == old(globals).recording_count
            &&& final(globals).recording_count is None
            &&& final(globals).recorded_register_for_dot == old(
                globals,
            ).recording_register_for_dot
            &&& final(globals).recording_register_for_dot is None
            &&& !final(globals).dot_recording
            &&& !final(globals).stop_recording_after_next_action
            &&& final(globals).web_clipboard_pending == old(globals).web_clipboard_pending
        } else {
            *final(globals) == *old(globals)
        },
{
    if globals.dot_recording && globals.stop_recording_after_next_action {
        if !was_recording {
            if let Some(paste) = paste {
                globals.recording_actions.push(paste);
            }
        }
        let mut empty: Vec<A> = Vec::new();
        std::mem::swap(&mut globals.recording_actions, &mut empty);
        globals.recorded_actions = empty;
        globals.recorded_count = globals.recording_count.take();
        globals.recorded_register_for_dot = globals.recording_register_for_dot.take();
        globals.dot_recording = false;
        globals.stop_recording_after_next_action = false;
    }
}

/// Whether to go back to inserting, from a mode that was for one command only. Only the
/// first time counts.
pub fn leave_temporary_mode(exit_temporary_mode: &mut bool) -> (r: bool)
    ensures
        r == *old(exit_temporary_mode),
        !*final(exit_temporary_mode),
{
    let leave = *exit_temporary_mode;
    *exit_temporary_mode = false;
    leave
}

/// A command that is put off and finished, however often, counts once: as many commands are
/// put off afterwards as before.
pub proof fn law_deferred_commands_count_once(pending: usize)
    requires
        pending < usize::MAX,
    ensures
        pending_after((pending + 1) as usize, false) == pending,
        pending_after(pending_after((pending + 1) as usize, false), true) == pending,
{
}

/// Whether a command is put off until the clipboard was read.
pub open spec fn puts_off(
    register: Option<char>,
    never_by_default: bool,
    clipboard_is_there: bool,
    in_editor: bool,
) -> bool {
    is_system_register(register, never_by_default) && !clipboard_is_there && in_editor
}

/// The actions that are repeated after a recording that a command ended.
pub open spec fn recorded_actions<A>(
    recording: Seq<A>,
    was_recording: bool,
    paste: Option<A>,
) -> Seq<A> {
    match paste {
        Some(a) => if was_recording {
            recording
        } else {
            recording.push(a)
        },
        None => recording,
    }
}

/// A command is put off exactly where it is for the clipboard of the system, which was not
/// read yet, and there is an editor: for the registers of the system always, and without a
/// register, or with the unnamed one, unless that was ruled out.
pub proof fn law_commands_for_the_clipboard_are_put_off(
    register: Option<char>,
    never_by_default: bool,
    there: bool,
    in_editor: bool,
)
    ensures
        puts_off(register, never_by_default, there, in_editor) ==> !there && in_editor,
        !there && in_editor ==> {
            &&& register == Some('+') || register == Some('*') ==> puts_off(
                register,
                never_by_default,
                there,
                in_editor,
            )
            &&& register is None || register == Some('"') ==> puts_off(
                register,
                never_by_default,
                there,
                in_editor,
            ) == !never_by_default
            &&& register is Some && register != Some('+') && register != Some('*') && register
                != Some('"') ==> !puts_off(register, never_by_default, there, in_editor)
        },
{
}

/// A command that was put off is repeated once: it is added where it was not recorded when
/// its key was pressed, and not again where it was; nothing that was recorded is lost.
pub proof fn law_deferred_commands_are_repeated_once<A>(recording: Seq<A>, paste: A)
    ensures
        recorded_actions(recording, false, Some(paste)) == recording.push(paste),
        recorded_actions(recording, true, Some(paste)) == recording,
        recorded_actions(recording, false, None) == recording,
        recorded_actions(recording, true, None) == recording,
{
}

/// A command that is finished waits no more, and one that was finished before changes
/// nothing.
pub proof fn law_finished_commands_wait_no_more(pending: usize)
    ensures
        pending > 0 ==> pending_after(pending, false) + 1 == pending,
        pending_after(0, false) == 0,
        pending_after(pending, true) == pending,
{
}

} // verus!
