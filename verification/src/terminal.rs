//! Terminals whose process runs on the server.
//!
//! The server streams the output of a terminal in chunks that carry their position. A
//! terminal feeds each byte of the stream to its grid once and in order, tells the server
//! how far it got, and asks for a replay where bytes are missing. The grid itself is kept
//! elsewhere: the functions here say what is done to it.

use vstd::prelude::*;
use vstd::string::*;
use vstd::utf8::*;

use crate::text::opt_text;

verus! {

/// How many bytes a terminal feeds before it tells the server how far it got.
pub const REMOTE_ACK_THRESHOLD: u64 = 65_536;

/// How many bytes of output are fed in one go.
pub const REMOTE_PARSE_BUDGET: usize = 262_144;

/// A message to the server about one terminal.
#[derive(Debug)]
pub enum TransportMessage {
    Input(Vec<u8>),
    Resize { cols: u16, rows: u16 },
    Ack { offset: u64 },
    Resync { from_offset: u64, cols: u16, rows: u16 },
    Close,
}

/// A message to the server, on the level of specifications.
pub enum TransportCall {
    Input(Seq<u8>),
    Resize(u16, u16),
    Ack(u64),
    Resync(u64, u16, u16),
    Close,
}

impl TransportMessage {
    pub open spec fn view(self) -> TransportCall {
        match self {
            TransportMessage::Input(data) => TransportCall::Input(data@),
            TransportMessage::Resize { cols, rows } => TransportCall::Resize(cols, rows),
            TransportMessage::Ack { offset } => TransportCall::Ack(offset),
            TransportMessage::Resync { from_offset, cols, rows } => TransportCall::Resync(
                from_offset,
                cols,
                rows,
            ),
            TransportMessage::Close => TransportCall::Close,
        }
    }
}

/// The way from a terminal to its process on the server.
pub trait RemotePtyTransport: Sized {
    /// The id that the server gave to the terminal.
    spec fn id(&self) -> u64;

    /// Everything that was sent, in order.
    spec fn calls(&self) -> Seq<TransportCall>;

    /// The id that the server gave to the terminal.
    fn terminal_id(&self) -> (r: u64)
        ensures
            r == self.id(),
    ;

    /// Sends input to the process.
    fn input(&mut self, data: Vec<u8>)
        ensures
            final(self).id() == old(self).id(),
            final(self).calls() == old(self).calls().push(TransportCall::Input(data@)),
    ;

    /// Sets the size of the terminal.
    fn resize(&mut self, cols: u16, rows: u16)
        ensures
            final(self).id() == old(self).id(),
            final(self).calls() == old(self).calls().push(TransportCall::Resize(cols, rows)),
    ;

    /// Reports that everything below an offset is in the grid.
    fn ack(&mut self, offset: u64)
        ensures
            final(self).id() == old(self).id(),
            final(self).calls() == old(self).calls().push(TransportCall::Ack(offset)),
    ;

    /// Asks for a replay from an offset on.
    fn resync(&mut self, from_offset: u64, cols: u16, rows: u16)
        ensures
            final(self).id() == old(self).id(),
            final(self).calls() == old(self).calls().push(
                TransportCall::Resync(from_offset, cols, rows),
            ),
    ;

    /// Ends the process.
    fn close(&mut self)
        ensures
            final(self).id() == old(self).id(),
            final(self).calls() == old(self).calls().push(TransportCall::Close),
    ;
}

/// A transport that keeps its messages in a list, from which they are sent.
pub struct MessageList {
    pub terminal: u64,
    pub messages: Vec<TransportMessage>,
}

/// The messages of a list, on the level of specifications.
pub open spec fn message_calls(messages: Seq<TransportMessage>) -> Seq<TransportCall> {
    messages.map_values(|m: TransportMessage| m.view())
}

impl MessageList {
    /// An empty list for a terminal.
    pub fn new(terminal: u64) -> (r: MessageList)
        ensures
            r.id() == terminal,
            r.calls() == Seq::<TransportCall>::empty(),
    {
        let r = MessageList { terminal, messages: Vec::new() };
        proof {
            assert(r.calls() =~= Seq::<TransportCall>::empty());
        }
        r
    }

    fn push(&mut self, message: TransportMessage)
        ensures
            final(self).id() == old(self).id(),
            final(self).calls() == old(self).calls().push(message.view()),
    {
        self.messages.push(message);
        proof {
            assert(self.calls() =~= old(self).calls().push(message.view()));
        }
    }
}

impl RemotePtyTransport for MessageList {
    open spec fn id(&self) -> u64 {
        self.terminal
    }

    open spec fn calls(&self) -> Seq<TransportCall> {
        message_calls(self.messages@)
    }

    fn terminal_id(&self) -> (r: u64) {
        self.terminal
    }

    fn input(&mut self, data: Vec<u8>) {
        self.push(TransportMessage::Input(data));
    }

    fn resize(&mut self, cols: u16, rows: u16) {
        self.push(TransportMessage::Resize { cols, rows });
    }

    fn ack(&mut self, offset: u64) {
        self.push(TransportMessage::Ack { offset });
    }

    fn resync(&mut self, from_offset: u64, cols: u16, rows: u16) {
        self.push(TransportMessage::Resync { from_offset, cols, rows });
    }

    fn close(&mut self) {
        self.push(TransportMessage::Close);
    }
}

/// What arrives for a terminal.
#[derive(Debug)]
pub enum PtyEvent {
    /// Output; `offset` is the position of its first byte in the stream, and `reset` asks
    /// for an empty grid first.
    Output { offset: u64, data: Vec<u8>, reset: bool },
    /// The process ended.
    Exited { code: Option<i32>, signal: Option<i32> },
    /// The server no longer has the terminal.
    RemoteLost,
}

/// What arrived for a terminal and was not handled yet.
pub struct RemotePtyHandle {
    pub events: Vec<PtyEvent>,
    /// Whether the terminal still exists.
    pub open: bool,
}

impl RemotePtyHandle {
    /// The queue of a terminal.
    pub fn new() -> (r: RemotePtyHandle)
        ensures
            r.open,
            r.events@ == Seq::<PtyEvent>::empty(),
    {
        RemotePtyHandle { events: Vec::new(), open: true }
    }

    /// The queue with one more event, unless the terminal is gone.
    pub open spec fn with(self, event: PtyEvent) -> Seq<PtyEvent> {
        if self.open {
            self.events@.push(event)
        } else {
            self.events@
        }
    }

    /// Queues output; false where the terminal is gone.
    pub fn push_output(&mut self, offset: u64, data: Vec<u8>, reset: bool) -> (r: bool)
        ensures
            r == old(self).open,
            final(self).open == old(self).open,
            final(self).events@ == old(self).with(PtyEvent::Output { offset, data, reset }),
    {
        if self.open {
            self.events.push(PtyEvent::Output { offset, data, reset });
        }
        self.open
    }

    /// Queues the end of the process; false where the terminal is gone. One of code and signal
    /// is expected; without either the process counts as having failed: see
    /// [`PtyEvent::exit_status`].
    pub fn push_exit(&mut self, code: Option<i32>, signal: Option<i32>) -> (r: bool)
        ensures
            r == old(self).open,
            final(self).open == old(self).open,
            final(self).events@ == old(self).with(PtyEvent::Exited { code, signal }),
    {
        if self.open {
            self.events.push(PtyEvent::Exited { code, signal });
        }
        self.open
    }

    /// Queues the loss of the terminal; false where the terminal is gone.
    pub fn push_lost(&mut self) -> (r: bool)
        ensures
            r == old(self).open,
            final(self).open == old(self).open,
            final(self).events@ == old(self).with(PtyEvent::RemoteLost),
    {
        if self.open {
            self.events.push(PtyEvent::RemoteLost);
        }
        self.open
    }
}

impl PtyEvent {
    /// The wait status of a process that ended; there is none in another event.
    pub fn exit_status(&self) -> (r: Option<i32>)
        ensures
            r == match *self {
                PtyEvent::Exited { code, signal } => Some(wait_status(code, signal)),
                _ => None,
            },
    {
        match self {
            PtyEvent::Exited { code, signal } => Some(exit_status_from_remote(*code, *signal)),
            _ => None,
        }
    }
}

/// The wait status that stands for an exit code or a signal: the signal in the low bits,
/// else the code in the next byte. Without either the process counts as having failed, with
/// a code of one.
pub fn exit_status_from_remote(code: Option<i32>, signal: Option<i32>) -> (raw: i32)
    ensures
        raw == wait_status(code, signal),
{
    match signal {
        Some(signal) => signal & 0x7f,
        None => {
            let code: i32 = match code {
                Some(code) => code,
                None => 1,
            };
            (code & 0xff) << 8
        },
    }
}

/// The wait status that stands for an exit code or a signal.
pub open spec fn wait_status(code: Option<i32>, signal: Option<i32>) -> i32 {
    match signal {
        Some(signal) => signal & 0x7f,
        None => match code {
            Some(code) => (code & 0xff) << 8,
            None => (1i32 & 0xff) << 8,
        },
    }
}

/// Whether a wait status says that a process ended well.
pub open spec fn ended_well(raw: i32) -> bool {
    raw == 0
}

/// The exit code in a wait status: there is none where a signal ended the process.
pub open spec fn status_code(raw: i32) -> Option<i32> {
    if raw & 0x7f == 0 {
        Some((raw >> 8) & 0xff)
    } else {
        None
    }
}

/// The exit code on a system without signals: a signal counts as a failure with a code of
/// its own, and so does an unknown end. A negative number is taken as the unsigned one with
/// the same bits.
pub fn exit_code_without_signals(code: Option<i32>, signal: Option<i32>) -> (raw: u32)
    requires
        code is None && signal is Some ==> !(-128 <= signal->0 < 0),
    ensures
        raw == match (code, signal) {
            (Some(code), _) => code as u32,
            (None, Some(signal)) => if signal >= 0 {
                (128 + signal) as u32
            } else {
                (128 + signal + 0x1_0000_0000) as u32
            },
            (None, None) => 1,
        },
{
    match (code, signal) {
        (Some(code), _) => {
            #[verifier::truncate]
            (code as u32)
        },
        (None, Some(signal)) => {
            let signal: i64 = signal as i64;
            let bits: i64 = if signal < 0 {
                signal + 0x1_0000_0000
            } else {
                signal
            };
            (128 + bits) as u32
        },
        (None, None) => 1,
    }
}

/// An exit code comes back from its wait status, and a signal leaves none.
pub proof fn law_exit_code_survives(code: i32, signal: i32)
    requires
        0 <= code <= 0xff,
        0 < signal < 0x80,
    ensures
        status_code(wait_status(Some(code), None)) == Some(code),
        status_code(wait_status(None, Some(signal))) is None,
        status_code(wait_status(Some(code), Some(signal))) is None,
{
    assert(((code & 0xff) << 8) & 0x7f == 0 && ((((code & 0xff) << 8) >> 8) & 0xff) == code)
        by (bit_vector)
        requires
            0 <= code <= 0xff,
    ;
    assert((signal & 0x7f) & 0x7f != 0) by (bit_vector)
        requires
            0 < signal < 0x80,
    ;
}

/// Only a code of zero is an end that is well: a process that a signal ended, or of which
/// nothing is known, has failed.
pub proof fn law_only_zero_ends_well(code: i32, signal: i32)
    requires
        0 <= code <= 0xff,
        0 < signal < 0x80,
    ensures
        ended_well(wait_status(Some(code), None)) <==> code == 0,
        !ended_well(wait_status(None, Some(signal))),
        !ended_well(wait_status(Some(code), Some(signal))),
        !ended_well(wait_status(None, None)),
        status_code(wait_status(None, None)) == Some(1i32),
{
    assert(((code & 0xff) << 8 == 0) == (code == 0)) by (bit_vector)
        requires
            0 <= code <= 0xff,
    ;
    assert(signal & 0x7f != 0) by (bit_vector)
        requires
            0 < signal < 0x80,
    ;
    assert((1i32 & 0xff) << 8 != 0 && ((1i32 & 0xff) << 8) & 0x7f == 0 && (((1i32 & 0xff) << 8)
        >> 8) & 0xff == 1) by (bit_vector);
}

/// What is sent when something is written to the process of a terminal.
pub open spec fn sent_input(attached: bool, data: Seq<u8>) -> Seq<TransportCall> {
    if attached {
        seq![TransportCall::Input(data)]
    } else {
        Seq::empty()
    }
}

/// What is done to the grid and to the view of a terminal.
#[derive(Debug)]
pub enum TerminalAction {
    /// Clear the grid and the history of directories.
    ResetGrid,
    /// Feed bytes to the grid as they are.
    Feed(Vec<u8>),
    /// Look for the marker that ends the startup of a shell.
    DetectStartupMarker,
    /// Give up waiting for that marker.
    CompleteStartup,
    /// End a synchronized update in time.
    ExpireSyncUpdate,
    /// Paint.
    Wakeup,
    /// Close the tab.
    CloseTerminal,
    /// Complete the task, without an exit status.
    FinishTask,
}

/// What is done to a terminal, on the level of specifications.
pub enum ActionView {
    ResetGrid,
    Feed(Seq<u8>),
    DetectStartupMarker,
    CompleteStartup,
    ExpireSyncUpdate,
    Wakeup,
    CloseTerminal,
    FinishTask,
}

impl TerminalAction {
    pub open spec fn view(self) -> ActionView {
        match self {
            TerminalAction::ResetGrid => ActionView::ResetGrid,
            TerminalAction::Feed(data) => ActionView::Feed(data@),
            TerminalAction::DetectStartupMarker => ActionView::DetectStartupMarker,
            TerminalAction::CompleteStartup => ActionView::CompleteStartup,
            TerminalAction::ExpireSyncUpdate => ActionView::ExpireSyncUpdate,
            TerminalAction::Wakeup => ActionView::Wakeup,
            TerminalAction::CloseTerminal => ActionView::CloseTerminal,
            TerminalAction::FinishTask => ActionView::FinishTask,
        }
    }
}

/// A list of actions, on the level of specifications.
pub open spec fn action_views(actions: Seq<TerminalAction>) -> Seq<ActionView> {
    actions.map_values(|a: TerminalAction| a.view())
}

/// Where a terminal stands in the stream of its output.
pub struct StreamView {
    /// Everything below is in the grid.
    pub next: u64,
    /// Everything below was reported to the server.
    pub acked: u64,
    /// A replay was asked for and has not arrived.
    pub resync_pending: bool,
}

/// The position behind a chunk.
pub open spec fn chunk_end(offset: u64, len: nat) -> u64 {
    if offset + len > u64::MAX {
        u64::MAX
    } else {
        (offset + len) as u64
    }
}

/// Where the terminal stands once the server asked for an empty grid.
pub open spec fn after_reset(s: StreamView, offset: u64, reset: bool) -> StreamView {
    if reset {
        StreamView { next: offset, acked: offset, resync_pending: false }
    } else {
        s
    }
}

/// What a chunk leads to: bytes for the grid, messages to the server, and the new place in
/// the stream.
pub struct OutputResult {
    pub stream: StreamView,
    pub actions: Seq<ActionView>,
    pub calls: Seq<TransportCall>,
}

/// What a chunk leads to. A chunk that is known is dropped, of one that overlaps the known
/// beginning is dropped, and one that leaves a gap is dropped too, with one request for a
/// replay until it arrives. Only a reset clears the grid.
pub open spec fn chunk_result(
    before: StreamView,
    offset: u64,
    data: Seq<u8>,
    reset: bool,
    cols: u16,
    rows: u16,
) -> OutputResult {
    let s = after_reset(before, offset, reset);
    let cleared: Seq<ActionView> = if reset {
        seq![ActionView::ResetGrid]
    } else {
        Seq::empty()
    };
    let end = chunk_end(offset, data.len());
    if reset && data.len() == 0 {
        OutputResult {
            stream: s,
            actions: cleared.push(ActionView::Wakeup),
            calls: Seq::empty(),
        }
    } else if end <= s.next {
        OutputResult { stream: s, actions: cleared, calls: Seq::empty() }
    } else if offset > s.next {
        OutputResult {
            stream: StreamView { resync_pending: true, ..s },
            actions: cleared,
            calls: if s.resync_pending {
                Seq::empty()
            } else {
                seq![TransportCall::Resync(s.next, cols, rows)]
            },
        }
    } else {
        let told = end - s.acked >= REMOTE_ACK_THRESHOLD;
        OutputResult {
            stream: StreamView {
                next: end,
                acked: if told {
                    end
                } else {
                    s.acked
                },
                resync_pending: false,
            },
            actions: cleared + seq![
                ActionView::Feed(data.skip(s.next - offset)),
                ActionView::DetectStartupMarker,
                ActionView::Wakeup,
                ActionView::ExpireSyncUpdate,
            ],
            calls: if told {
                seq![TransportCall::Ack(end)]
            } else {
                Seq::empty()
            },
        }
    }
}

/// What a terminal knows of its process on the server.
pub struct RemotePtyState<T> {
    pub transport: T,
    /// The directory on the server in which the process was started.
    pub working_directory: Option<String>,
    /// Everything below is in the grid.
    pub next_offset: u64,
    /// Everything below was reported to the server.
    pub acked_offset: u64,
    /// False once the terminal was closed, exited or lost: no input is sent any more.
    pub attached: bool,
    /// Whether the server holds the terminal until this client closes it.
    pub owns_server_entry: bool,
    /// A replay was asked for and has not arrived.
    pub resync_pending: bool,
}

impl<T> RemotePtyState<T> {
    /// Where the terminal stands in the stream.
    pub open spec fn stream(self) -> StreamView {
        StreamView {
            next: self.next_offset,
            acked: self.acked_offset,
            resync_pending: self.resync_pending,
        }
    }

    /// No more was reported than is in the grid.
    pub open spec fn wf(self) -> bool {
        self.acked_offset <= self.next_offset
    }
}

/// Where the process of a terminal runs.
pub enum TerminalType<T> {
    Local,
    Remote(RemotePtyState<T>),
}

/// What a terminal was opened for. `K` is the state of a task, `C` is where its completion
/// is reported.
pub enum TerminalMode<K, C> {
    Interactive,
    InteractiveWithCompletion(C),
    Task { state: K, completion: C },
}

/// How many lines a terminal keeps.
#[derive(Debug, Clone, Copy)]
pub struct ScrollLimits {
    pub default_lines: usize,
    pub max_lines: usize,
}

/// What a remote terminal is made of. `S` are the settings that a copy of the terminal is
/// made with.
pub struct RemoteTerminalOptions<K, C, S> {
    pub working_directory: Option<String>,
    pub mode: TerminalMode<K, C>,
    pub template: S,
    pub max_scroll_history_lines: Option<usize>,
    pub title_override: Option<String>,
    /// Commands that are typed into the shell right after it opens.
    pub activation_script: Vec<String>,
    /// The command that clears the screen of this shell.
    pub clear_screen_command: String,
}

/// A terminal.
pub struct Terminal<T, K, C, S> {
    pub terminal_type: TerminalType<T>,
    pub task: Option<K>,
    pub completion: Option<C>,
    pub title_override: Option<String>,
    pub template: S,
    /// How many lines the grid keeps.
    pub scrolling_history: usize,
    pub columns: u16,
    pub rows: u16,
    /// Whether the user has typed anything.
    pub keyboard_input_sent: bool,
    pub activation_script: Vec<String>,
    /// When a synchronized update that is under way is given up, in milliseconds.
    pub sync_update_expiry: Option<u64>,
}

/// How many lines a terminal keeps: as many as possible for a task, else what was asked
/// for, within the limit.
pub open spec fn history_lines(task: bool, wanted: Option<usize>, limits: ScrollLimits) -> usize {
    let lines = match wanted {
        Some(lines) => lines,
        None => limits.default_lines,
    };
    if task || lines > limits.max_lines {
        limits.max_lines
    } else {
        lines
    }
}

/// A line as it is typed, with the carriage return that ends it.
pub open spec fn typed(line: Seq<char>) -> Seq<TransportCall> {
    seq![TransportCall::Input(encode_utf8(line)), TransportCall::Input(seq![0x0du8])]
}

/// The lines of a script as they are typed.
pub open spec fn typed_lines(lines: Seq<String>) -> Seq<TransportCall>
    decreases lines.len(),
{
    if lines.len() == 0 {
        Seq::empty()
    } else {
        typed_lines(lines.drop_last()) + typed(lines.last()@)
    }
}

/// What is typed into a new terminal: the script and the command that clears the screen,
/// for a shell that has a script; nothing for a task.
pub open spec fn startup_input(script: Seq<String>, clear: Seq<char>, task: bool) -> Seq<
    TransportCall,
> {
    if script.len() == 0 || task {
        Seq::empty()
    } else {
        typed_lines(script) + typed(clear)
    }
}

impl<T: RemotePtyTransport, K, C, S> Terminal<T, K, C, S> {
    /// No more was reported to the server than is in the grid.
    pub open spec fn wf(self) -> bool {
        match self.terminal_type {
            TerminalType::Local => true,
            TerminalType::Remote(state) => state.wf(),
        }
    }

    /// What the terminal knows of its process on the server.
    pub open spec fn remote(self) -> Option<RemotePtyState<T>> {
        match self.terminal_type {
            TerminalType::Local => None,
            TerminalType::Remote(state) => Some(state),
        }
    }

    /// Whether everything but what it knows of its process is the same in two terminals.
    pub open spec fn same_but_remote(self, other: Self) -> bool {
        &&& self.task == other.task
        &&& self.completion == other.completion
        &&& self.title_override == other.title_override
        &&& self.template == other.template
        &&& self.scrolling_history == other.scrolling_history
        &&& self.columns == other.columns
        &&& self.rows == other.rows
        &&& self.keyboard_input_sent == other.keyboard_input_sent
        &&& self.activation_script == other.activation_script
        &&& self.sync_update_expiry == other.sync_update_expiry
    }

    /// Builds a terminal whose process runs on the server. Its script, if it has one and is
    /// no task, is typed at once.
    pub fn new_remote(
        options: RemoteTerminalOptions<K, C, S>,
        transport: T,
        limits: ScrollLimits,
        columns: u16,
        rows: u16,
    ) -> (r: Terminal<T, K, C, S>)
        ensures
            r.wf(),
            r.remote() is Some,
            ({
                let state = r.remote()->0;
                &&& state.transport.id() == transport.id()
                &&& state.transport.calls() == transport.calls() + startup_input(
                    options.activation_script@,
                    options.clear_screen_command@,
                    options.mode is Task,
                )
                &&& state.working_directory == options.working_directory
                &&& state.next_offset == 0
                &&& state.acked_offset == 0
                &&& state.attached
                &&& state.owns_server_entry
                &&& !state.resync_pending
            }),
            match options.mode {
                TerminalMode::Interactive => r.task is None && r.completion is None,
                TerminalMode::InteractiveWithCompletion(c) => r.task is None && r.completion
                    == Some(c),
                TerminalMode::Task { state, completion } => r.task == Some(state) && r.completion
                    == Some(completion),
            },
            r.title_override == options.title_override,
            r.template == options.template,
            r.scrolling_history == history_lines(
                options.mode is Task,
                options.max_scroll_history_lines,
                limits,
            ),
            r.columns == columns,
            r.rows == rows,
            !r.keyboard_input_sent,
            r.activation_script == options.activation_script,
            r.sync_update_expiry is None,
    {
        let (task, completion) = match options.mode {
            TerminalMode::Interactive => (None, None),
            TerminalMode::InteractiveWithCompletion(completion) => (None, Some(completion)),
            TerminalMode::Task { state, completion } => (Some(state), Some(completion)),
        };
        let wanted: usize = match options.max_scroll_history_lines {
            Some(lines) => lines,
            None => limits.default_lines,
        };
        let scrolling_history: usize = if task.is_some() || wanted > limits.max_lines {
            limits.max_lines
        } else {
            wanted
        };
        let mut transport = transport;
        let ghost start = transport.calls();
        let script = &options.activation_script;
        if script.len() > 0 && task.is_none() {
            let ghost id = transport.id();
            let mut i: usize = 0;
            proof {
                assert(start + typed_lines(script@.take(0)) =~= start);
            }
            while i < script.len()
                invariant
                    i <= script@.len(),
                    transport.id() == id,
                    transport.calls() == start + typed_lines(script@.take(i as int)),
                decreases script@.len() - i,
            {
                let ghost before = transport.calls();
                type_line(&mut transport, script[i].as_str());
                proof {
                    assert(script@.take(i + 1).drop_last() =~= script@.take(i as int));
                    assert(transport.calls() =~= start + typed_lines(script@.take(i + 1)));
                }
                i = i + 1;
            }
            proof {
                assert(script@.take(i as int) =~= script@);
            }
            type_line(&mut transport, options.clear_screen_command.as_str());
            proof {
                assert(transport.calls() =~= start + (typed_lines(script@) + typed(
                    options.clear_screen_command@,
                )));
            }
        } else {
            proof {
                assert(start + Seq::<TransportCall>::empty() =~= start);
            }
        }
        Terminal {
            terminal_type: TerminalType::Remote(
                RemotePtyState {
                    transport,
                    working_directory: options.working_directory,
                    next_offset: 0,
                    acked_offset: 0,
                    attached: true,
                    owns_server_entry: true,
                    resync_pending: false,
                },
            ),
            task,
            completion,
            title_override: options.title_override,
            template: options.template,
            scrolling_history,
            columns,
            rows,
            keyboard_input_sent: false,
            activation_script: options.activation_script,
            sync_update_expiry: None,
        }
    }

    /// Whether the process runs on the server.
    pub fn is_remote_pty(&self) -> (r: bool)
        ensures
            r == (self.remote() is Some),
    {
        match &self.terminal_type {
            TerminalType::Remote(_) => true,
            TerminalType::Local => false,
        }
    }

    /// The id that the server gave to the terminal.
    pub fn remote_terminal_id(&self) -> (r: Option<u64>)
        ensures
            r == match self.remote() {
                Some(state) => Some(state.transport.id()),
                None => None,
            },
    {
        match &self.terminal_type {
            TerminalType::Remote(state) => Some(state.transport.terminal_id()),
            TerminalType::Local => None,
        }
    }

    /// How much of the stream is in the grid.
    pub fn remote_next_offset(&self) -> (r: Option<u64>)
        ensures
            r == match self.remote() {
                Some(state) => Some(state.next_offset),
                None => None,
            },
    {
        match &self.terminal_type {
            TerminalType::Remote(state) => Some(state.next_offset),
            TerminalType::Local => None,
        }
    }

    /// The directory on the server in which the process was started.
    pub fn remote_working_directory(&self) -> (r: Option<&str>)
        ensures
            match r {
                Some(path) => self.remote() is Some && opt_text(
                    self.remote()->0.working_directory,
                ) == Some(path@),
                None => self.remote() is None || self.remote()->0.working_directory is None,
            },
    {
        match &self.terminal_type {
            TerminalType::Remote(state) => match &state.working_directory {
                Some(path) => Some(path.as_str()),
                None => None,
            },
            TerminalType::Local => None,
        }
    }

    /// The title that was set for the terminal.
    pub fn title_override(&self) -> (r: Option<&str>)
        ensures
            match r {
                Some(title) => opt_text(self.title_override) == Some(title@),
                None => self.title_override is None,
            },
    {
        match &self.title_override {
            Some(title) => Some(title.as_str()),
            None => None,
        }
    }

    /// Takes in a chunk of output.
    pub fn process_remote_output(&mut self, offset: u64, data: Vec<u8>, reset: bool) -> (r: Vec<
        TerminalAction,
    >)
        requires
            old(self).wf(),
        ensures
            final(self).wf(),
            final(self).same_but_remote(*old(self)),
            match old(self).remote() {
                None => *final(self) == *old(self) && r@.len() == 0,
                Some(before) => {
                    let result = chunk_result(
                        before.stream(),
                        offset,
                        data@,
                        reset,
                        old(self).columns,
                        old(self).rows,
                    );
                    &&& final(self).remote() is Some
                    &&& ({
                        let after = final(self).remote()->0;
                        &&& after.stream() == result.stream
                        &&& after.transport.calls() == before.transport.calls() + result.calls
                        &&& after.transport.id() == before.transport.id()
                        &&& after.working_directory == before.working_directory
                        &&& after.attached == before.attached
                        &&& after.owns_server_entry == before.owns_server_entry
                    })
                    &&& action_views(r@) == result.actions
                },
            },
    {
        let cols: u16 = self.columns;
        let rows: u16 = self.rows;
        let mut actions: Vec<TerminalAction> = Vec::new();
        match &mut self.terminal_type {
            TerminalType::Local => {},
            TerminalType::Remote(state) => {
                let ghost before = *state;
                let ghost result = chunk_result(
                    before.stream(),
                    offset,
                    data@,
                    reset,
                    cols,
                    rows,
                );
                let ghost calls = state.transport.calls();
                let end: u64 = offset.saturating_add(data.len() as u64);
                proof {
                    assert(calls + Seq::<TransportCall>::empty() =~= calls);
                    assert(action_views(actions@) =~= Seq::<ActionView>::empty());
                }
                if reset {
                    actions.push(TerminalAction::ResetGrid);
                    state.next_offset = offset;
                    state.acked_offset = offset;
                    state.resync_pending = false;
                    proof {
                        assert(action_views(actions@) =~= seq![ActionView::ResetGrid]);
                    }
                }
                if reset && data.len() == 0 {
                    actions.push(TerminalAction::Wakeup);
                    proof {
                        assert(action_views(actions@) =~= result.actions);
                    }
                } else if end <= state.next_offset {
                    proof {
                        assert(action_views(actions@) =~= result.actions);
                    }
                } else if offset > state.next_offset {
                    if !state.resync_pending {
                        state.resync_pending = true;
                        state.transport.resync(state.next_offset, cols, rows);
                        proof {
                            assert(state.transport.calls() =~= calls + result.calls);
                        }
                    }
                    proof {
                        assert(action_views(actions@) =~= result.actions);
                    }
                } else {
                    let known: usize = (state.next_offset - offset) as usize;
                    let bytes = vstd::slice::slice_to_vec(
                        vstd::slice::slice_subrange(data.as_slice(), known, data.len()),
                    );
                    proof {
                        assert(bytes@ =~= data@.skip(known as int));
                    }
                    actions.push(TerminalAction::Feed(bytes));
                    actions.push(TerminalAction::DetectStartupMarker);
                    actions.push(TerminalAction::Wakeup);
                    actions.push(TerminalAction::ExpireSyncUpdate);
                    state.resync_pending = false;
                    state.next_offset = end;
                    if state.next_offset - state.acked_offset >= REMOTE_ACK_THRESHOLD {
                        state.acked_offset = state.next_offset;
                        state.transport.ack(state.next_offset);
                        proof {
                            assert(state.transport.calls() =~= calls + result.calls);
                        }
                    }
                    proof {
                        assert(action_views(actions@) =~= result.actions);
                    }
                }
            },
        }
        actions
    }

    /// Reports how far the grid was fed, if the server was not told yet.
    pub fn flush_remote_ack(&mut self)
        requires
            old(self).wf(),
        ensures
            final(self).wf(),
            final(self).same_but_remote(*old(self)),
            match old(self).remote() {
                None => *final(self) == *old(self),
                Some(before) => {
                    &&& final(self).remote() is Some
                    &&& ({
                        let after = final(self).remote()->0;
                        &&& after.stream() == flushed(before.stream()).0
                        &&& after.transport.calls() == before.transport.calls() + flushed(
                            before.stream(),
                        ).1
                        &&& after.transport.id() == before.transport.id()
                        &&& after.working_directory == before.working_directory
                        &&& after.attached == before.attached
                        &&& after.owns_server_entry == before.owns_server_entry
                    })
                },
            },
    {
        match &mut self.terminal_type {
            TerminalType::Local => {},
            TerminalType::Remote(state) => {
                let ghost calls = state.transport.calls();
                proof {
                    assert(calls + Seq::<TransportCall>::empty() =~= calls);
                    assert(calls + seq![TransportCall::Ack(state.next_offset)] =~= calls.push(
                        TransportCall::Ack(state.next_offset),
                    ));
                }
                if state.next_offset > state.acked_offset {
                    state.acked_offset = state.next_offset;
                    state.transport.ack(state.next_offset);
                }
            },
        }
    }

    /// Sends input to the process, as long as the terminal is attached to it.
    pub fn write_to_pty(&mut self, data: Vec<u8>)
        requires
            old(self).wf(),
        ensures
            final(self).wf(),
            final(self).same_but_remote(*old(self)),
            match old(self).remote() {
                None => *final(self) == *old(self),
                Some(before) => {
                    &&& final(self).remote() is Some
                    &&& ({
                        let after = final(self).remote()->0;
                        &&& after.stream() == before.stream()
                        &&& after.transport.calls() == before.transport.calls() + sent_input(
                            before.attached,
                            data@,
                        )
                        &&& after.transport.id() == before.transport.id()
                        &&& after.working_directory == before.working_directory
                        &&& after.attached == before.attached
                        &&& after.owns_server_entry == before.owns_server_entry
                    })
                },
            },
    {
        match &mut self.terminal_type {
            TerminalType::Local => {},
            TerminalType::Remote(state) => {
                if state.attached {
                    state.transport.input(data);
                }
            },
        }
    }

    /// Takes in that the server no longer has the terminal: a notice is shown, and the
    /// terminal ends as if its process had. A task completes without an exit status; a shell
    /// keeps its tab unless the user had typed into it.
    pub fn process_remote_lost(&mut self) -> (r: Vec<TerminalAction>)
        requires
            old(self).wf(),
        ensures
            final(self).wf(),
            final(self).same_but_remote(*old(self)),
            if old(self).remote() is None || !old(self).remote()->0.attached {
                *final(self) == *old(self) && r@.len() == 0
            } else {
                let before = old(self).remote()->0;
                &&& final(self).terminal_type == TerminalType::Remote(let_go(before))
                &&& action_views(r@) == lost_actions(
                    old(self).task is Some,
                    old(self).keyboard_input_sent,
                )
            },
    {
        let mut actions: Vec<TerminalAction> = Vec::new();
        match &mut self.terminal_type {
            TerminalType::Local => {
                return actions;
            },
            TerminalType::Remote(state) => {
                if !state.attached {
                    return actions;
                }
                state.attached = false;
                state.owns_server_entry = false;
            },
        }
        actions.push(append_notice("\r\n[remote terminal is no longer available]\r\n"));
        if self.task.is_some() {
            actions.push(TerminalAction::FinishTask);
        } else {
            actions.push(TerminalAction::CompleteStartup);
            if self.keyboard_input_sent {
                actions.push(TerminalAction::CloseTerminal);
            }
            actions.push(TerminalAction::Wakeup);
        }
        proof {
            assert(action_views(actions@) =~= lost_actions(
                self.task is Some,
                self.keyboard_input_sent,
            ));
        }
        actions
    }

    /// Notes when a synchronized update that is under way is to be given up. Returns how
    /// long to wait, in milliseconds.
    pub fn expire_sync_update(&mut self, deadline: Option<u64>, now: u64) -> (r: Option<u64>)
        ensures
            *final(self) == (Terminal { sync_update_expiry: deadline, ..*old(self) }),
            r == match deadline {
                None => None,
                Some(deadline) => Some(
                    if deadline > now {
                        (deadline - now) as u64
                    } else {
                        0
                    },
                ),
            },
    {
        self.sync_update_expiry = deadline;
        match deadline {
            None => None,
            Some(deadline) => Some(deadline.saturating_sub(now)),
        }
    }

    /// Leaves the terminal to the server without a word, as a client that vanished would.
    pub fn forget_remote_transport(&mut self)
        ensures
            final(self).same_but_remote(*old(self)),
            final(self).terminal_type == match old(self).terminal_type {
                TerminalType::Local => TerminalType::Local,
                TerminalType::Remote(state) => TerminalType::Remote(let_go(state)),
            },
            old(self).wf() ==> final(self).wf(),
    {
        match &mut self.terminal_type {
            TerminalType::Local => {},
            TerminalType::Remote(state) => {
                state.attached = false;
                state.owns_server_entry = false;
            },
        }
    }
}

/// What is done once the server no longer has a terminal.
pub open spec fn lost_actions(task: bool, typed: bool) -> Seq<ActionView> {
    let notice = ActionView::Feed(
        encode_utf8("\r\n[remote terminal is no longer available]\r\n"@),
    );
    if task {
        seq![notice, ActionView::FinishTask]
    } else if typed {
        seq![
            notice,
            ActionView::CompleteStartup,
            ActionView::CloseTerminal,
            ActionView::Wakeup,
        ]
    } else {
        seq![notice, ActionView::CompleteStartup, ActionView::Wakeup]
    }
}

/// A line that the client itself writes to the grid.
pub fn append_notice(text: &str) -> (r: TerminalAction)
    ensures
        r.view() == ActionView::Feed(encode_utf8(text@)),
{
    TerminalAction::Feed(text.as_bytes_vec())
}

fn type_line<T: RemotePtyTransport>(transport: &mut T, line: &str)
    ensures
        final(transport).id() == old(transport).id(),
        final(transport).calls() == old(transport).calls() + typed(line@),
{
    let mut enter: Vec<u8> = Vec::new();
    enter.push(0x0d);
    proof {
        assert(enter@ =~= seq![0x0du8]);
    }
    transport.input(line.as_bytes_vec());
    transport.input(enter);
    proof {
        assert(transport.calls() =~= old(transport).calls() + typed(line@));
    }
}

/// The deadline of a synchronized update, in milliseconds.
pub struct WebSyncHandler {
    pub timeout: Option<u64>,
}

impl WebSyncHandler {
    /// No update is under way.
    pub fn new() -> (r: WebSyncHandler)
        ensures
            r.timeout is None,
    {
        WebSyncHandler { timeout: None }
    }

    /// An update begins now and may take this long.
    pub fn set_timeout(&mut self, now: u64, duration: u64)
        requires
            now + duration <= u64::MAX,
        ensures
            final(self).timeout == Some((now + duration) as u64),
    {
        self.timeout = Some(now + duration);
    }

    /// The update has ended.
    pub fn clear_timeout(&mut self)
        ensures
            final(self).timeout is None,
    {
        self.timeout = None;
    }

    /// Whether an update is under way.
    pub fn pending_timeout(&self) -> (r: bool)
        ensures
            r == (self.timeout is Some),
    {
        self.timeout.is_some()
    }

    /// When the update is given up.
    pub fn sync_timeout(&self) -> (r: Option<u64>)
        ensures
            r == self.timeout,
    {
        self.timeout
    }

    /// What is done when the time to wait is over: an update that is still under way ends,
    /// and the grid is painted.
    pub fn expired(&self) -> (r: bool)
        ensures
            r == (self.timeout is Some),
    {
        self.timeout.is_some()
    }
}

/// The bytes that actions feed to the grid.
pub open spec fn fed_bytes(actions: Seq<ActionView>) -> Seq<u8>
    decreases actions.len(),
{
    if actions.len() == 0 {
        Seq::empty()
    } else {
        let rest = fed_bytes(actions.drop_last());
        match actions.last() {
            ActionView::Feed(data) => rest + data,
            _ => rest,
        }
    }
}

/// Whether a chunk is the part of a stream at its offset.
pub open spec fn part_of(stream: Seq<u8>, offset: u64, data: Seq<u8>) -> bool {
    &&& offset + data.len() <= stream.len()
    &&& stream.len() <= u64::MAX
    &&& data == stream.subrange(offset as int, offset + data.len())
}

/// Whatever chunks of a stream arrive, and in whatever order, the grid is fed the stream
/// without a gap and without a repetition: each chunk adds exactly the bytes between the
/// place before it and the place after it, which never goes back unless the server asks for
/// an empty grid.
pub proof fn law_the_grid_is_fed_the_stream(
    stream: Seq<u8>,
    before: StreamView,
    offset: u64,
    data: Seq<u8>,
    reset: bool,
    cols: u16,
    rows: u16,
)
    requires
        part_of(stream, offset, data),
    ensures
        ({
            let result = chunk_result(before, offset, data, reset, cols, rows);
            let start = after_reset(before, offset, reset).next;
            &&& start <= result.stream.next
            &&& start < result.stream.next ==> result.stream.next <= stream.len()
            &&& fed_bytes(result.actions) == if start < result.stream.next {
                stream.subrange(start as int, result.stream.next as int)
            } else {
                Seq::empty()
            }
        }),
{
    let result = chunk_result(before, offset, data, reset, cols, rows);
    let start = after_reset(before, offset, reset).next;
    let cleared: Seq<ActionView> = if reset {
        seq![ActionView::ResetGrid]
    } else {
        Seq::empty()
    };
    assert(cleared.len() > 0 ==> cleared.drop_last() =~= Seq::<ActionView>::empty());
    reveal_with_fuel(fed_bytes, 2);
    assert(fed_bytes(cleared) =~= Seq::<u8>::empty());
    if reset && data.len() == 0 {
        assert(result.actions.drop_last() =~= cleared);
    } else if start < result.stream.next {
        let bytes = data.skip(start - offset);
        let a4 = result.actions;
        let a3 = a4.drop_last();
        let a2 = a3.drop_last();
        let a1 = a2.drop_last();
        assert(a1.drop_last() =~= cleared);
        assert(a1.last() == ActionView::Feed(bytes));
        assert(fed_bytes(a1) =~= bytes);
        assert(fed_bytes(a2) == fed_bytes(a1));
        assert(fed_bytes(a3) == fed_bytes(a2));
        assert(fed_bytes(a4) == fed_bytes(a3));
        assert(bytes =~= stream.subrange(start as int, result.stream.next as int));
    }
}

/// A gap is answered with one request for a replay: until bytes arrive that close it, or
/// the grid is cleared, no second one is sent.
pub proof fn law_one_replay_per_gap(
    before: StreamView,
    offset: u64,
    data: Seq<u8>,
    cols: u16,
    rows: u16,
)
    requires
        before.resync_pending,
    ensures
        ({
            let result = chunk_result(before, offset, data, false, cols, rows);
            &&& forall|i: int|
                0 <= i < result.calls.len() ==> !(#[trigger] result.calls[i] is Resync)
            &&& result.stream.resync_pending <==> result.stream.next == before.next
        }),
{
}

/// The server is told in time: after a chunk less than the threshold is unreported,
/// provided that it was so before, and no more is reported than is in the grid.
pub proof fn law_acks_keep_up(
    before: StreamView,
    offset: u64,
    data: Seq<u8>,
    reset: bool,
    cols: u16,
    rows: u16,
)
    requires
        before.acked <= before.next,
        before.next - before.acked < REMOTE_ACK_THRESHOLD,
    ensures
        ({
            let s = chunk_result(before, offset, data, reset, cols, rows).stream;
            &&& s.acked <= s.next
            &&& s.next - s.acked < REMOTE_ACK_THRESHOLD
        }),
{
}

/// A chunk of output as it arrives: its offset, its bytes, and whether it asks for an empty
/// grid.
pub struct ChunkView {
    pub offset: u64,
    pub data: Seq<u8>,
    pub reset: bool,
}

/// What a grid was fed since it was last empty, and from where on.
pub struct Shown {
    pub stream: StreamView,
    /// The place in the stream at which the grid was last empty.
    pub base: u64,
    pub bytes: Seq<u8>,
}

/// What a new grid shows.
pub open spec fn shown_first() -> Shown {
    Shown {
        stream: StreamView { next: 0, acked: 0, resync_pending: false },
        base: 0,
        bytes: Seq::empty(),
    }
}

/// What a grid shows after one more chunk.
pub open spec fn shown_next(shown: Shown, chunk: ChunkView, cols: u16, rows: u16) -> Shown {
    let result = chunk_result(shown.stream, chunk.offset, chunk.data, chunk.reset, cols, rows);
    let fed = fed_bytes(result.actions);
    if chunk.reset {
        Shown { stream: result.stream, base: chunk.offset, bytes: fed }
    } else {
        Shown { stream: result.stream, base: shown.base, bytes: shown.bytes + fed }
    }
}

/// What a new grid shows after chunks.
pub open spec fn shown_after(chunks: Seq<ChunkView>, cols: u16, rows: u16) -> Shown
    decreases chunks.len(),
{
    if chunks.len() == 0 {
        shown_first()
    } else {
        shown_next(shown_after(chunks.drop_last(), cols, rows), chunks.last(), cols, rows)
    }
}

/// A terminal shows the stream of its process: whatever parts of the stream arrive, in
/// whatever order, however often and with whatever resets, the grid holds exactly the bytes
/// between the place at which it was last empty and the place up to which the server is told
/// that it got.
pub proof fn law_a_terminal_shows_its_stream(
    stream: Seq<u8>,
    chunks: Seq<ChunkView>,
    cols: u16,
    rows: u16,
)
    requires
        stream.len() <= u64::MAX,
        forall|i: int|
            0 <= i < chunks.len() ==> part_of(
                stream,
                (#[trigger] chunks[i]).offset,
                chunks[i].data,
            ),
    ensures
        ({
            let shown = shown_after(chunks, cols, rows);
            &&& shown.base <= shown.stream.next <= stream.len()
            &&& shown.bytes == stream.subrange(shown.base as int, shown.stream.next as int)
            &&& shown.stream.acked <= shown.stream.next
        }),
    decreases chunks.len(),
{
    if chunks.len() == 0 {
        assert(stream.subrange(0, 0) =~= Seq::<u8>::empty());
    } else {
        let front = chunks.drop_last();
        let chunk = chunks.last();
        assert forall|i: int| 0 <= i < front.len() implies part_of(
            stream,
            (#[trigger] front[i]).offset,
            front[i].data,
        ) by {
            assert(front[i] == chunks[i]);
        }
        law_a_terminal_shows_its_stream(stream, front, cols, rows);
        assert(part_of(stream, chunks[chunks.len() - 1].offset, chunks[chunks.len() - 1].data));
        let before = shown_after(front, cols, rows);
        law_the_grid_is_fed_the_stream(
            stream,
            before.stream,
            chunk.offset,
            chunk.data,
            chunk.reset,
            cols,
            rows,
        );
        let after = shown_after(chunks, cols, rows);
        assert(after.bytes =~= stream.subrange(after.base as int, after.stream.next as int));
    }
}

/// How far the server was told once everything is reported, and what is sent for it.
pub open spec fn flushed(s: StreamView) -> (StreamView, Seq<TransportCall>) {
    if s.next > s.acked {
        (StreamView { acked: s.next, ..s }, seq![TransportCall::Ack(s.next)])
    } else {
        (s, Seq::empty())
    }
}

/// Output moves a terminal on: a chunk that starts at or before the place where the grid
/// stands, which after a reset is the chunk's own start, and ends behind it, is fed from that
/// place to its end, is shown, and closes a gap. Any other chunk feeds nothing and leaves the
/// place as it is.
pub proof fn law_output_moves_on(
    before: StreamView,
    offset: u64,
    data: Seq<u8>,
    reset: bool,
    cols: u16,
    rows: u16,
)
    requires
        offset + data.len() <= u64::MAX,
    ensures
        ({
            let start = if reset {
                offset
            } else {
                before.next
            };
            let end = offset + data.len();
            let result = chunk_result(before, offset, data, reset, cols, rows);
            if offset <= start < end {
                &&& result.stream.next == end
                &&& !result.stream.resync_pending
                &&& fed_bytes(result.actions) == data.skip(start - offset)
                &&& result.actions.contains(ActionView::Wakeup)
                &&& result.actions.contains(ActionView::DetectStartupMarker)
                &&& result.actions.contains(ActionView::ExpireSyncUpdate)
            } else {
                &&& result.stream.next == start
                &&& fed_bytes(result.actions).len() == 0
            }
        }),
{
    let start = if reset {
        offset
    } else {
        before.next
    };
    let end = offset + data.len();
    let result = chunk_result(before, offset, data, reset, cols, rows);
    let cleared: Seq<ActionView> = if reset {
        seq![ActionView::ResetGrid]
    } else {
        Seq::empty()
    };
    assert(cleared.len() > 0 ==> cleared.drop_last() =~= Seq::<ActionView>::empty());
    reveal_with_fuel(fed_bytes, 2);
    assert(fed_bytes(cleared) =~= Seq::<u8>::empty());
    if offset <= start < end {
        let bytes = data.skip(start - offset);
        let n = cleared.len() as int;
        let a4 = result.actions;
        let a3 = a4.drop_last();
        let a2 = a3.drop_last();
        let a1 = a2.drop_last();
        assert(a1.drop_last() =~= cleared);
        assert(a1.last() == ActionView::Feed(bytes));
        assert(fed_bytes(a1) =~= bytes);
        assert(fed_bytes(a2) == fed_bytes(a1));
        assert(fed_bytes(a3) == fed_bytes(a2));
        assert(a4[n + 1] == ActionView::DetectStartupMarker);
        assert(a4[n + 2] == ActionView::Wakeup);
        assert(a4[n + 3] == ActionView::ExpireSyncUpdate);
    } else if reset {
        assert(data.len() == 0);
        assert(result.actions.drop_last() =~= cleared);
    }
}

/// The grid is emptied exactly where the server asks for it, once and before anything is fed,
/// and a reset leaves no gap open and nothing to report of what was before it.
pub proof fn law_resets_come_first(
    before: StreamView,
    offset: u64,
    data: Seq<u8>,
    reset: bool,
    cols: u16,
    rows: u16,
)
    requires
        offset + data.len() <= u64::MAX,
    ensures
        ({
            let result = chunk_result(before, offset, data, reset, cols, rows);
            &&& reset ==> {
                &&& result.actions.len() > 1
                &&& result.actions[0] == ActionView::ResetGrid
                &&& result.actions.contains(ActionView::Wakeup)
                &&& !result.stream.resync_pending
                &&& result.stream.acked >= offset
                &&& result.stream.next == offset + data.len()
            }
            &&& forall|i: int|
                0 <= i < result.actions.len() && (#[trigger] result.actions[i]) is ResetGrid
                    ==> reset && i == 0
        }),
{
    let result = chunk_result(before, offset, data, reset, cols, rows);
    if reset {
        if data.len() == 0 {
            assert(result.actions[1] == ActionView::Wakeup);
        } else {
            assert(result.actions[3] == ActionView::Wakeup);
        }
    }
}

/// Output that leaves a gap is not fed; a replay is asked for from the place where the grid
/// stands, unless one was asked for already.
pub proof fn law_gaps_ask_for_a_replay(
    before: StreamView,
    offset: u64,
    data: Seq<u8>,
    cols: u16,
    rows: u16,
)
    requires
        offset > before.next,
    ensures
        ({
            let result = chunk_result(before, offset, data, false, cols, rows);
            &&& result.stream == (StreamView { resync_pending: true, ..before })
            &&& result.actions.len() == 0
            &&& before.resync_pending ==> result.calls.len() == 0
            &&& !before.resync_pending ==> result.calls == seq![
                TransportCall::Resync(before.next, cols, rows),
            ]
        }),
{
}

/// Output that the grid has already changes nothing and sends nothing.
pub proof fn law_repeated_output_is_dropped(
    before: StreamView,
    offset: u64,
    data: Seq<u8>,
    cols: u16,
    rows: u16,
)
    requires
        offset + data.len() <= before.next,
    ensures
        ({
            let result = chunk_result(before, offset, data, false, cols, rows);
            &&& result.stream == before
            &&& result.actions.len() == 0
            &&& result.calls.len() == 0
        }),
{
}

/// The server is told of output exactly when 64 KiB or more were not reported, and then of
/// everything that is in the grid.
pub proof fn law_acks_report_the_grid(
    before: StreamView,
    offset: u64,
    data: Seq<u8>,
    reset: bool,
    cols: u16,
    rows: u16,
)
    requires
        before.acked <= before.next,
        offset + data.len() <= u64::MAX,
    ensures
        ({
            let result = chunk_result(before, offset, data, reset, cols, rows);
            let reported = if reset {
                offset
            } else {
                before.acked
            };
            let moved = if reset {
                data.len() > 0
            } else {
                result.stream.next != before.next
            };
            let due = moved && result.stream.next - reported >= 65_536;
            &&& result.calls.contains(TransportCall::Ack(result.stream.next)) <==> due
            &&& due ==> result.stream.acked == result.stream.next && result.calls.len() == 1
            &&& !due ==> result.stream.acked == reported
            &&& forall|i: int|
                0 <= i < result.calls.len() && (#[trigger] result.calls[i]) is Ack
                    ==> result.calls[i] == TransportCall::Ack(result.stream.next)
        }),
{
    let result = chunk_result(before, offset, data, reset, cols, rows);
    if result.calls.len() > 0 {
        assert(result.calls[0] is Ack || result.calls[0] is Resync);
    }
}

/// A flush reports everything that was not reported, and only that; a second one sends
/// nothing.
pub proof fn law_flushes_report_the_rest(s: StreamView)
    requires
        s.acked <= s.next,
    ensures
        flushed(s).0.acked == s.next,
        flushed(s).0.next == s.next,
        flushed(s).0.resync_pending == s.resync_pending,
        s.acked < s.next ==> flushed(s).1 == seq![TransportCall::Ack(s.next)],
        s.acked == s.next ==> flushed(s).1.len() == 0,
        flushed(flushed(s).0).1.len() == 0,
{
}

/// What is typed reaches the process as it is, once, for as long as the terminal is attached
/// to it, and never afterwards.
pub proof fn law_input_reaches_the_process(data: Seq<u8>)
    ensures
        sent_input(true, data) == seq![TransportCall::Input(data)],
        sent_input(false, data).len() == 0,
{
}

/// The lines of a script are typed into a new shell in their order, each with the key that
/// enters it, and then the command that clears the screen; a task is typed nothing, and
/// neither is a shell without a script.
pub proof fn law_scripts_are_typed_line_by_line(script: Seq<String>, clear: Seq<char>, i: int)
    requires
        0 <= i < script.len(),
    ensures
        ({
            let calls = startup_input(script, clear, false);
            let n = script.len() as int;
            &&& calls.len() == 2 * n + 2
            &&& calls[2 * i] == TransportCall::Input(encode_utf8(script[i]@))
            &&& calls[2 * i + 1] == TransportCall::Input(seq![13u8])
            &&& calls[2 * n] == TransportCall::Input(encode_utf8(clear))
            &&& calls[2 * n + 1] == TransportCall::Input(seq![13u8])
        }),
        startup_input(script, clear, true).len() == 0,
        startup_input(Seq::empty(), clear, false).len() == 0,
{
    lemma_typed_lines(script, i);
}

proof fn lemma_typed_lines(lines: Seq<String>, i: int)
    requires
        0 <= i < lines.len(),
    ensures
        typed_lines(lines).len() == 2 * lines.len(),
        typed_lines(lines)[2 * i] == TransportCall::Input(encode_utf8(lines[i]@)),
        typed_lines(lines)[2 * i + 1] == TransportCall::Input(seq![13u8]),
    decreases lines.len(),
{
    let front = lines.drop_last();
    if front.len() == 0 {
        assert(typed_lines(front).len() == 0);
    } else if i < front.len() {
        lemma_typed_lines(front, i);
        assert(lines[i] == front[i]);
    } else {
        lemma_typed_lines(front, 0);
    }
}

/// A task keeps as many lines as possible; a shell keeps as many as are wanted, or as many
/// as are usual, and never more than possible.
pub proof fn law_history_is_bounded(task: bool, wanted: Option<usize>, limits: ScrollLimits)
    ensures
        ({
            let lines = history_lines(task, wanted, limits);
            &&& lines <= limits.max_lines
            &&& task ==> lines == limits.max_lines
            &&& !task && wanted is Some && wanted->0 <= limits.max_lines ==> lines == wanted->0
            &&& !task && wanted is Some && wanted->0 > limits.max_lines ==> lines
                == limits.max_lines
            &&& !task && wanted is None && limits.default_lines <= limits.max_lines ==> lines
                == limits.default_lines
        }),
{
}

/// The user is told that a terminal is lost, whatever it was; a task ends, and a shell closes
/// exactly where something was typed into it.
pub proof fn law_lost_terminals_say_so(task: bool, typed: bool)
    ensures
        ({
            let actions = lost_actions(task, typed);
            &&& fed_bytes(actions) == encode_utf8(
                "\r\n[remote terminal is no longer available]\r\n"@,
            )
            &&& actions[0] is Feed
            &&& actions.contains(ActionView::FinishTask) <==> task
            &&& actions.contains(ActionView::CloseTerminal) <==> !task && typed
            &&& !task ==> actions.contains(ActionView::CompleteStartup) && actions.contains(
                ActionView::Wakeup,
            )
        }),
{
    let actions = lost_actions(task, typed);
    let text = encode_utf8("\r\n[remote terminal is no longer available]\r\n"@);
    reveal_with_fuel(fed_bytes, 5);
    assert(actions.drop_last().len() < actions.len());
    let a1 = actions.drop_last();
    if task {
        assert(actions[1] == ActionView::FinishTask);
        assert(a1 =~= seq![ActionView::Feed(text)]);
    } else if typed {
        assert(actions[1] == ActionView::CompleteStartup);
        assert(actions[2] == ActionView::CloseTerminal);
        assert(actions[3] == ActionView::Wakeup);
        assert(a1.drop_last().drop_last() =~= seq![ActionView::Feed(text)]);
    } else {
        assert(actions[1] == ActionView::CompleteStartup);
        assert(actions[2] == ActionView::Wakeup);
        assert(a1.drop_last() =~= seq![ActionView::Feed(text)]);
    }
    let one = seq![ActionView::Feed(text)];
    assert(one.drop_last() =~= Seq::<ActionView>::empty());
    assert(fed_bytes(one) =~= text);
}

/// What arrives for a terminal is handled in the order in which it arrived, and nothing is
/// queued for one that is gone.
pub proof fn law_events_keep_their_order(handle: RemotePtyHandle, event: PtyEvent, i: int)
    requires
        0 <= i < handle.events@.len(),
    ensures
        handle.with(event)[i] == handle.events@[i],
        handle.open ==> handle.with(event).len() == handle.events@.len() + 1 && handle.with(
            event,
        ).last() == event,
        !handle.open ==> handle.with(event).len() == handle.events@.len(),
{
}

/// The state of a terminal that the server no longer has, or that is forgotten.
pub open spec fn let_go<T>(state: RemotePtyState<T>) -> RemotePtyState<T> {
    RemotePtyState { attached: false, owns_server_entry: false, ..state }
}

/// A terminal that is let go of is sent nothing more, not even that it closes, and shows what
/// it showed.
pub proof fn law_terminals_are_let_go<T>(state: RemotePtyState<T>, data: Seq<u8>)
    ensures
        !let_go(state).attached,
        !let_go(state).owns_server_entry,
        let_go(state).stream() == state.stream(),
        let_go(state).transport == state.transport,
        let_go(state).working_directory == state.working_directory,
        sent_input(let_go(state).attached, data).len() == 0,
{
}

/// What a terminal knows of its stream is what its counters hold.
pub proof fn law_streams_are_the_counters<T>(state: RemotePtyState<T>)
    ensures
        state.stream().next == state.next_offset,
        state.stream().acked == state.acked_offset,
        state.stream().resync_pending == state.resync_pending,
{
}

/// What arrives from the server changes nothing of a terminal but what it knows of its
/// process: neither its size nor its title, its task or what was typed.
pub proof fn law_the_rest_of_a_terminal_stays<T: RemotePtyTransport, K, C, S>(
    a: Terminal<T, K, C, S>,
    b: Terminal<T, K, C, S>,
)
    requires
        a.same_but_remote(b),
    ensures
        a.task == b.task,
        a.completion == b.completion,
        a.title_override == b.title_override,
        a.template == b.template,
        a.scrolling_history == b.scrolling_history,
        a.columns == b.columns && a.rows == b.rows,
        a.keyboard_input_sent == b.keyboard_input_sent,
        a.activation_script == b.activation_script,
        a.sync_update_expiry == b.sync_update_expiry,
{
}

} // verus!
