//! One socket: the opening exchange, and the task that moves frames while the socket is
//! attached.
//!
//! The socket is read and written outside. The functions here are told what came in and
//! say what to do about it.

use vstd::prelude::*;
use vstd::string::*;

use crate::serve::auth::Claims;
use crate::serve::session::{SessionExit, stale_response};
use crate::serve::wire::{
    CLOSE_BAD_HELLO, CLOSE_BUILD_MISMATCH, CLOSE_GOING_AWAY, CLOSE_INTERNAL_ERROR,
    CLOSE_POLICY_VIOLATION, control_frame_name, control_kind, ControlFrame, ControlKind, Envelope,
    Hello, input_envelope, is_input_envelope, WireLimits,
};
use crate::text::{
    byte_len, bytes_in, concat2, concat3, decimal, decimal_digits, fitting, same, truncate_bytes,
};

verus! {

/// A socket must deliver its first frame within this many milliseconds after the upgrade.
pub const HELLO_TIMEOUT_MS: u64 = 5_000;

/// An upgrade must complete within this many milliseconds.
pub const UPGRADE_TIMEOUT_MS: u64 = 10_000;

/// A write that takes longer than this many milliseconds is given up.
pub const WRITE_TIMEOUT_MS: u64 = 30_000;

/// A session must end this many milliseconds after it was told to close.
pub const DETACH_TIMEOUT_MS: u64 = 1_000;

/// Queued envelopes are flushed for at most this many milliseconds before a close.
pub const SHUTDOWN_FLUSH_TIMEOUT_MS: u64 = 2_000;

/// How long a close waits for stragglers, in milliseconds.
pub const CLOSE_GRACE_MS: u64 = 100;

/// How long writing a close frame may take, in milliseconds.
pub const CLOSE_WRITE_TIMEOUT_MS: u64 = 2_000;

/// The time between two heartbeats, in milliseconds.
pub const HEARTBEAT_INTERVAL_MS: u64 = 5_000;

/// A socket from which nothing came for this many milliseconds is dead.
pub const DEAD_AFTER_MS: u64 = 90_000;

/// How many frames wait for a session at most.
pub const SESSION_QUEUE_FRAMES: usize = 64;

/// The longest close reason, in bytes.
pub const MAX_CLOSE_REASON_BYTES: usize = 123;

/// The longest identifier and the longest instance of a client, in bytes.
pub const MAX_HELLO_NAME_BYTES: usize = 256;

/// The longest build of a client, in bytes.
pub const MAX_HELLO_BUILD_BYTES: usize = 128;

/// A close reason cut to the length that a close frame can hold, at a character's end.
pub fn truncate_reason(reason: &str) -> (r: &str)
    ensures
        r@ == fitting(reason@, MAX_CLOSE_REASON_BYTES as nat),
        byte_len(r@) <= MAX_CLOSE_REASON_BYTES,
        byte_len(reason@) <= MAX_CLOSE_REASON_BYTES ==> r@ == reason@,
{
    truncate_bytes(reason, MAX_CLOSE_REASON_BYTES)
}

/// What is wrong with the first frame of a client, in the order in which it is looked for.
pub open spec fn hello_fault(hello: Hello, claims: Claims, protocol: u32) -> Option<Seq<char>> {
    if hello.protocol != protocol {
        Some("unsupported protocol version"@)
    } else if byte_len(hello.identifier@) > MAX_HELLO_NAME_BYTES {
        Some("identifier too long"@)
    } else if hello.instance@.len() == 0 || byte_len(hello.instance@) > MAX_HELLO_NAME_BYTES {
        Some("instance must be 1 to 256 bytes"@)
    } else if byte_len(hello.build@) > MAX_HELLO_BUILD_BYTES {
        Some("build too long"@)
    } else if byte_len(hello.session_id@) > MAX_HELLO_NAME_BYTES || byte_len(hello.workspace_id@)
        > MAX_HELLO_NAME_BYTES {
        Some("session_id or workspace_id too long"@)
    } else if hello.workspace_id@ != claims.ws@ {
        Some("workspace_id does not match the token"@)
    } else {
        None
    }
}

/// Checks the parts of a client's first frame that need no broker.
pub fn validate_hello(hello: &Hello, claims: &Claims, protocol: u32) -> (r: Result<
    (),
    &'static str,
>)
    ensures
        match r {
            Ok(()) => hello_fault(*hello, *claims, protocol) is None,
            Err(reason) => hello_fault(*hello, *claims, protocol) == Some(reason@),
        },
{
    if hello.protocol != protocol {
        return Err("unsupported protocol version");
    }
    if bytes_in(hello.identifier.as_str()) > MAX_HELLO_NAME_BYTES {
        return Err("identifier too long");
    }
    if hello.instance.as_str().is_empty() || bytes_in(hello.instance.as_str())
        > MAX_HELLO_NAME_BYTES {
        return Err("instance must be 1 to 256 bytes");
    }
    if bytes_in(hello.build.as_str()) > MAX_HELLO_BUILD_BYTES {
        return Err("build too long");
    }
    if bytes_in(hello.session_id.as_str()) > MAX_HELLO_NAME_BYTES || bytes_in(
        hello.workspace_id.as_str(),
    ) > MAX_HELLO_NAME_BYTES {
        return Err("session_id or workspace_id too long");
    }
    if !same(hello.workspace_id.as_str(), claims.ws.as_str()) {
        return Err("workspace_id does not match the token");
    }
    Ok(())
}

/// What came of waiting for a client's first frame.
pub enum HelloInput {
    /// A text frame of this many bytes, and what it holds where it could be read.
    Text { len: usize, frame: Option<ControlFrame> },
    /// A ping, a pong or a continuation.
    Other,
    Close,
    Binary,
    /// The socket failed.
    Failed(String),
    TimedOut,
}

/// What to do about it.
pub enum HelloStep {
    Wait,
    Ready(Hello),
    /// Close the socket with this reason.
    Refuse(String),
}

/// Why a client's first frame is refused.
pub open spec fn hello_refusal(input: HelloInput) -> Option<Seq<char>> {
    match input {
        HelloInput::Text { len: _, frame: Some(ControlFrame::Hello(_)) } => None,
        HelloInput::Text { len: _, frame: Some(other) } => Some(
            "expected Hello, got a "@ + control_kind(other).name_of() + " frame"@,
        ),
        HelloInput::Text { len, frame: None } => Some(
            "malformed Hello ("@ + decimal_digits(len as nat) + " byte text frame)"@,
        ),
        HelloInput::Other => None,
        HelloInput::Close => Some("peer closed before Hello"@),
        HelloInput::Binary => Some("expected a Hello text frame, got a binary frame"@),
        HelloInput::Failed(error) => Some("socket error before Hello: "@ + error@),
        HelloInput::TimedOut => Some("no Hello within 5s"@),
    }
}

/// Looks for a client's first frame; frames that carry nothing are passed over.
pub fn read_hello(input: HelloInput) -> (r: HelloStep)
    ensures
        match r {
            HelloStep::Wait => input is Other,
            HelloStep::Ready(hello) => input matches HelloInput::Text {
                frame: Some(ControlFrame::Hello(h)),
                ..
            } && h == hello,
            HelloStep::Refuse(reason) => hello_refusal(input) == Some(reason@),
        },
{
    match input {
        HelloInput::Text { len, frame } => match frame {
            Some(ControlFrame::Hello(hello)) => HelloStep::Ready(hello),
            Some(other) => HelloStep::Refuse(
                concat3("expected Hello, got a ", control_frame_name(&other), " frame"),
            ),
            None => {
                let digits = decimal(len as u64);
                HelloStep::Refuse(
                    concat3("malformed Hello (", digits.as_str(), " byte text frame)"),
                )
            },
        },
        HelloInput::Other => HelloStep::Wait,
        HelloInput::Close => HelloStep::Refuse("peer closed before Hello".to_owned()),
        HelloInput::Binary => HelloStep::Refuse(
            "expected a Hello text frame, got a binary frame".to_owned(),
        ),
        HelloInput::Failed(error) => HelloStep::Refuse(
            concat2("socket error before Hello: ", error.as_str()),
        ),
        HelloInput::TimedOut => HelloStep::Refuse("no Hello within 5s".to_owned()),
    }
}

/// Whether a socket goes to the broker.
pub enum Admission {
    Attach { session_id_differs: bool },
    Refuse { code: u16, reason: String },
}

/// Why a socket is not handed to the broker: the code and the reason with which it is closed.
pub open spec fn admission_fault(
    hello: Hello,
    claims: Claims,
    protocol: u32,
    expected_build: Option<Seq<char>>,
    compatible: bool,
) -> Option<(u16, Seq<char>)> {
    match hello_fault(hello, claims, protocol) {
        Some(fault) => Some((CLOSE_BAD_HELLO, fault)),
        None => match expected_build {
            Some(build) => if compatible {
                None
            } else {
                Some((CLOSE_BUILD_MISMATCH, "expected build "@ + build))
            },
            None => None,
        },
    }
}

/// Decides whether a socket goes to the broker: its first frame must be in order, and its
/// build must fit the expected one, where one is expected. `compatible` says whether the two
/// builds fit.
pub fn run_connection(
    hello: &Hello,
    claims: &Claims,
    protocol: u32,
    expected_build: Option<&str>,
    compatible: bool,
) -> (r: Admission)
    ensures
        ({
            let expected = match expected_build {
                Some(build) => Some(build@),
                None => None,
            };
            match r {
                Admission::Attach { session_id_differs } => {
                    &&& admission_fault(*hello, *claims, protocol, expected, compatible) is None
                    &&& session_id_differs == (hello.session_id@ != claims.sid@)
                },
                Admission::Refuse { code, reason } => admission_fault(
                    *hello,
                    *claims,
                    protocol,
                    expected,
                    compatible,
                ) == Some((code, reason@)),
            }
        }),
{
    if let Err(reason) = validate_hello(hello, claims, protocol) {
        return Admission::Refuse { code: CLOSE_BAD_HELLO, reason: reason.to_owned() };
    }
    if let Some(expected) = expected_build {
        if !compatible {
            return Admission::Refuse {
                code: CLOSE_BUILD_MISMATCH,
                reason: concat2("expected build ", expected),
            };
        }
    }
    Admission::Attach {
        session_id_differs: !same(hello.session_id.as_str(), claims.sid.as_str()),
    }
}

/// An order of the broker to close the session.
pub struct SessionCtl {
    pub code: u16,
    pub reason: String,
}

/// Code and reason of a close; a broker that is gone closes too.
pub open spec fn close_of(ctl: Option<SessionCtl>) -> (u16, Seq<char>) {
    match ctl {
        Some(ctl) => (ctl.code, ctl.reason@),
        None => (CLOSE_GOING_AWAY, "server going away"@),
    }
}

/// Code and reason of a close.
pub fn close_request(ctl: Option<SessionCtl>) -> (r: (u16, String))
    ensures
        (r.0, r.1@) == close_of(ctl),
{
    match ctl {
        Some(ctl) => (ctl.code, ctl.reason),
        None => (CLOSE_GOING_AWAY, "server going away".to_owned()),
    }
}

/// What is done with the socket when a session ends.
pub enum Farewell {
    /// Nothing.
    Silent,
    /// Close it without a frame of our own.
    CloseOnly,
    /// Send a close frame, then close it.
    SendClose { code: u16, reason: String },
}

/// What is done with the socket, on the level of specifications.
pub enum FarewellView {
    Silent,
    CloseOnly,
    SendClose { code: u16, reason: Seq<char> },
}

impl Farewell {
    pub open spec fn view(self) -> FarewellView {
        match self {
            Farewell::Silent => FarewellView::Silent,
            Farewell::CloseOnly => FarewellView::CloseOnly,
            Farewell::SendClose { code, reason } => FarewellView::SendClose { code, reason: reason@ },
        }
    }
}

/// Why a session ended, on the level of specifications.
pub enum ExitView {
    PeerClosed(Option<u16>),
    ReadError(Seq<char>),
    WriteError(Seq<char>),
    SlowConsumer,
    FrameTooLarge,
    Dead,
    Closed(u16),
}

impl SessionExit {
    pub open spec fn view(self) -> ExitView {
        match self {
            SessionExit::PeerClosed { code } => ExitView::PeerClosed(code),
            SessionExit::ReadError(error) => ExitView::ReadError(error@),
            SessionExit::WriteError(error) => ExitView::WriteError(error@),
            SessionExit::SlowConsumer => ExitView::SlowConsumer,
            SessionExit::FrameTooLarge => ExitView::FrameTooLarge,
            SessionExit::Dead => ExitView::Dead,
            SessionExit::Closed { code } => ExitView::Closed(code),
        }
    }
}

/// The end of a session.
pub struct TaskEnd {
    pub farewell: Farewell,
    pub exit: SessionExit,
}

impl TaskEnd {
    pub open spec fn view(self) -> (FarewellView, ExitView) {
        (self.farewell.view(), self.exit.view())
    }
}

/// The end where the session is closed from here.
pub open spec fn closed_with(code: u16, reason: Seq<char>, exit: ExitView) -> (
    FarewellView,
    ExitView,
) {
    (FarewellView::SendClose { code, reason }, exit)
}

/// How writing one frame ended.
pub enum WriteOutcome {
    /// The broker wants the session closed, or is gone.
    Preempted(Option<SessionCtl>),
    Written,
    Failed(String),
    TimedOut,
}

/// The end of the session that a write brings about.
pub open spec fn write_end(outcome: WriteOutcome) -> Option<(FarewellView, ExitView)> {
    match outcome {
        WriteOutcome::Preempted(ctl) => Some(
            closed_with(close_of(ctl).0, close_of(ctl).1, ExitView::Closed(close_of(ctl).0)),
        ),
        WriteOutcome::Written => None,
        WriteOutcome::Failed(error) => Some((FarewellView::Silent, ExitView::WriteError(error@))),
        WriteOutcome::TimedOut => Some(
            closed_with(CLOSE_POLICY_VIOLATION, "slow consumer"@, ExitView::SlowConsumer),
        ),
    }
}

/// Takes in how writing one frame ended: an order to close wins over the write, and a
/// write that takes too long ends the session.
pub fn write_frame(outcome: WriteOutcome) -> (r: Result<(), TaskEnd>)
    ensures
        match r {
            Ok(()) => write_end(outcome) is None,
            Err(end) => write_end(outcome) == Some(end.view()),
        },
{
    match outcome {
        WriteOutcome::Preempted(ctl) => {
            let (code, reason) = close_request(ctl);
            Err(
                TaskEnd {
                    farewell: Farewell::SendClose { code, reason },
                    exit: SessionExit::Closed { code },
                },
            )
        },
        WriteOutcome::Written => Ok(()),
        WriteOutcome::Failed(error) => Err(
            TaskEnd { farewell: Farewell::Silent, exit: SessionExit::WriteError(error) },
        ),
        WriteOutcome::TimedOut => Err(
            TaskEnd {
                farewell: Farewell::SendClose {
                    code: CLOSE_POLICY_VIOLATION,
                    reason: "slow consumer".to_owned(),
                },
                exit: SessionExit::SlowConsumer,
            },
        ),
    }
}

/// What was read from the socket.
pub enum Inbound {
    /// A binary frame of this many bytes: its envelope, or why it is none.
    Binary { len: usize, envelope: Result<Envelope, String> },
    /// A text frame; `None` where it could not be read.
    Text { kind: Option<ControlKind> },
    Close { code: Option<u16> },
    /// A ping, a pong or a continuation.
    Other,
    /// Reading stopped at a frame over the limit.
    TooLarge,
    /// The stream ended.
    Ended,
    Failed(String),
}

/// What woke the task of a session.
pub enum TaskEvent<F> {
    Close(Option<SessionCtl>),
    Inbound(Inbound),
    /// A frame to send, or none where the queue is gone.
    Outbound(Option<F>),
    /// The heartbeat is due; nothing came in for this many milliseconds.
    Heartbeat { silent_ms: u64 },
}

/// What the task does about it.
pub enum TaskStep<F> {
    /// Nothing.
    Wait,
    /// Pass an envelope on; if `input`, note that the user did something.
    Deliver { envelope: Envelope, input: bool },
    /// Say in the log that a text frame was ignored.
    IgnoreText { kind: Option<ControlKind> },
    /// Write a frame.
    Write(F),
    /// Write a heartbeat frame and then a ping.
    Beat,
    End(TaskEnd),
}

/// The state of a session's task that its rules read.
pub struct SessionTask {
    /// One past the largest envelope id that came in.
    pub watermark: u32,
    /// Envelopes below this id were received before the socket was attached.
    pub watermark_at_attach: u32,
}

/// The number after an id, or the largest number.
pub open spec fn after(id: u32) -> u32 {
    if id == u32::MAX {
        u32::MAX
    } else {
        (id + 1) as u32
    }
}

/// The watermark once an envelope came in.
pub open spec fn raised(watermark: u32, id: u32) -> u32 {
    if after(id) > watermark {
        after(id)
    } else {
        watermark
    }
}

/// Whether an envelope is user input that was not received before the socket was attached.
pub open spec fn new_input(envelope: Envelope, at_attach: u32) -> bool {
    envelope.id >= at_attach && input_envelope(envelope)
}

/// The end of the session that reading brings about.
pub open spec fn inbound_end(inbound: Inbound, limits: WireLimits) -> Option<
    (FarewellView, ExitView),
> {
    match inbound {
        Inbound::Binary { len, envelope: Err(error) } => if len > limits.max_frame_bytes {
            Some(
                closed_with(
                    limits.close_frame_too_large,
                    "frame too large"@,
                    ExitView::FrameTooLarge,
                ),
            )
        } else {
            Some(
                closed_with(
                    CLOSE_POLICY_VIOLATION,
                    "malformed envelope"@,
                    ExitView::ReadError("malformed envelope: "@ + error@),
                ),
            )
        },
        Inbound::Close { code } => Some((FarewellView::Silent, ExitView::PeerClosed(code))),
        Inbound::TooLarge => Some((FarewellView::CloseOnly, ExitView::FrameTooLarge)),
        Inbound::Ended => Some((FarewellView::Silent, ExitView::PeerClosed(None))),
        Inbound::Failed(error) => Some((FarewellView::Silent, ExitView::ReadError(error@))),
        _ => None,
    }
}

/// The end of the session that an event brings about.
pub open spec fn event_end<F>(event: TaskEvent<F>, limits: WireLimits) -> Option<
    (FarewellView, ExitView),
> {
    match event {
        TaskEvent::Close(ctl) => Some(
            closed_with(close_of(ctl).0, close_of(ctl).1, ExitView::Closed(close_of(ctl).0)),
        ),
        TaskEvent::Inbound(inbound) => inbound_end(inbound, limits),
        TaskEvent::Outbound(Some(_)) => None,
        TaskEvent::Outbound(None) => Some(
            closed_with(
                CLOSE_GOING_AWAY,
                "server going away"@,
                ExitView::Closed(CLOSE_GOING_AWAY),
            ),
        ),
        TaskEvent::Heartbeat { silent_ms } => if silent_ms >= DEAD_AFTER_MS {
            Some(closed_with(CLOSE_POLICY_VIOLATION, "no frames for 90 s"@, ExitView::Dead))
        } else {
            None
        },
    }
}

impl SessionTask {
    /// The task of a socket that is attached with this watermark.
    pub fn new(watermark: u32) -> (r: SessionTask)
        ensures
            r.watermark == watermark,
            r.watermark_at_attach == watermark,
    {
        SessionTask { watermark, watermark_at_attach: watermark }
    }

    /// What the task does about an event, and the task then.
    pub open spec fn stepped<F>(
        self,
        event: TaskEvent<F>,
        limits: WireLimits,
        step: TaskStep<F>,
        after: SessionTask,
    ) -> bool {
        &&& after.watermark_at_attach == self.watermark_at_attach
        &&& match event {
            TaskEvent::Inbound(Inbound::Binary { len: _, envelope: Ok(envelope) }) => {
                &&& after.watermark == raised(self.watermark, envelope.id)
                &&& step == (TaskStep::<F>::Deliver {
                    envelope,
                    input: new_input(envelope, self.watermark_at_attach),
                })
            },
            _ => {
                &&& after.watermark == self.watermark
                &&& match event_end(event, limits) {
                    Some(end) => step matches TaskStep::End(e) && e.view() == end,
                    None => match event {
                        TaskEvent::Inbound(Inbound::Text { kind }) => if kind == Some(
                            ControlKind::Heartbeat,
                        ) {
                            step == TaskStep::<F>::Wait
                        } else {
                            step == (TaskStep::<F>::IgnoreText { kind })
                        },
                        TaskEvent::Outbound(Some(frame)) => step == TaskStep::<F>::Write(frame),
                        TaskEvent::Heartbeat { .. } => step == TaskStep::<F>::Beat,
                        _ => step == TaskStep::<F>::Wait,
                    },
                }
            },
        }
    }

    /// What the task does about an event.
    pub fn step<F>(&mut self, event: TaskEvent<F>, limits: &WireLimits) -> (r: TaskStep<F>)
        ensures
            old(self).stepped(event, *limits, r, *final(self)),
    {
        match event {
            TaskEvent::Close(ctl) => {
                let (code, reason) = close_request(ctl);
                TaskStep::End(
                    TaskEnd {
                        farewell: Farewell::SendClose { code, reason },
                        exit: SessionExit::Closed { code },
                    },
                )
            },
            TaskEvent::Inbound(inbound) => match inbound {
                Inbound::Binary { len, envelope } => match envelope {
                    Ok(envelope) => {
                        let next: u32 = envelope.id.saturating_add(1);
                        if next > self.watermark {
                            self.watermark = next;
                        }
                        let input = envelope.id >= self.watermark_at_attach && is_input_envelope(
                            &envelope,
                        );
                        TaskStep::Deliver { envelope, input }
                    },
                    Err(error) => if len > limits.max_frame_bytes {
                        TaskStep::End(
                            TaskEnd {
                                farewell: Farewell::SendClose {
                                    code: limits.close_frame_too_large,
                                    reason: "frame too large".to_owned(),
                                },
                                exit: SessionExit::FrameTooLarge,
                            },
                        )
                    } else {
                        TaskStep::End(
                            TaskEnd {
                                farewell: Farewell::SendClose {
                                    code: CLOSE_POLICY_VIOLATION,
                                    reason: "malformed envelope".to_owned(),
                                },
                                exit: SessionExit::ReadError(
                                    concat2("malformed envelope: ", error.as_str()),
                                ),
                            },
                        )
                    },
                },
                Inbound::Text { kind } => match kind {
                    Some(ControlKind::Heartbeat) => TaskStep::Wait,
                    _ => TaskStep::IgnoreText { kind },
                },
                Inbound::Close { code } => TaskStep::End(
                    TaskEnd { farewell: Farewell::Silent, exit: SessionExit::PeerClosed { code } },
                ),
                Inbound::Other => TaskStep::Wait,
                Inbound::TooLarge => TaskStep::End(
                    TaskEnd { farewell: Farewell::CloseOnly, exit: SessionExit::FrameTooLarge },
                ),
                Inbound::Ended => TaskStep::End(
                    TaskEnd {
                        farewell: Farewell::Silent,
                        exit: SessionExit::PeerClosed { code: None },
                    },
                ),
                Inbound::Failed(error) => TaskStep::End(
                    TaskEnd { farewell: Farewell::Silent, exit: SessionExit::ReadError(error) },
                ),
            },
            TaskEvent::Outbound(Some(frame)) => TaskStep::Write(frame),
            TaskEvent::Outbound(None) => TaskStep::End(
                TaskEnd {
                    farewell: Farewell::SendClose {
                        code: CLOSE_GOING_AWAY,
                        reason: "server going away".to_owned(),
                    },
                    exit: SessionExit::Closed { code: CLOSE_GOING_AWAY },
                },
            ),
            TaskEvent::Heartbeat { silent_ms } => if silent_ms >= DEAD_AFTER_MS {
                TaskStep::End(
                    TaskEnd {
                        farewell: Farewell::SendClose {
                            code: CLOSE_POLICY_VIOLATION,
                            reason: "no frames for 90 s".to_owned(),
                        },
                        exit: SessionExit::Dead,
                    },
                )
            } else {
                TaskStep::Beat
            },
        }
    }

    /// Takes in whether an envelope could be passed on; where it could not, the session
    /// ends.
    pub fn delivered(passed_on: bool) -> (r: Option<TaskEnd>)
        ensures
            passed_on ==> r is None,
            !passed_on ==> r is Some && r->0.view() == closed_with(
                CLOSE_INTERNAL_ERROR,
                "server channel closed"@,
                ExitView::ReadError("incoming channel closed"@),
            ),
    {
        if passed_on {
            None
        } else {
            Some(
                TaskEnd {
                    farewell: Farewell::SendClose {
                        code: CLOSE_INTERNAL_ERROR,
                        reason: "server channel closed".to_owned(),
                    },
                    exit: SessionExit::ReadError("incoming channel closed".to_owned()),
                },
            )
        }
    }
}

/// The exit that is reported for a session whose task was told to close, or is known to
/// have ended: its own exit, an error where the task failed, or, where it did not end in
/// time, a close with the code that it was told.
pub enum JoinOutcome {
    Exited(SessionExit),
    Failed(String),
    TimedOut,
}

/// The exit that is reported for a session.
pub open spec fn exit_of(outcome: JoinOutcome, told: u16) -> ExitView {
    match outcome {
        JoinOutcome::Exited(exit) => exit.view(),
        JoinOutcome::Failed(error) => ExitView::ReadError("session task failed: "@ + error@),
        JoinOutcome::TimedOut => ExitView::Closed(told),
    }
}

/// The exit that is reported for a session that was told to close with a code; the code is
/// 0 where it was told nothing.
pub fn join_session(outcome: JoinOutcome, told: u16) -> (r: SessionExit)
    ensures
        r.view() == exit_of(outcome, told),
{
    match outcome {
        JoinOutcome::Exited(exit) => exit,
        JoinOutcome::Failed(error) => SessionExit::ReadError(
            concat2("session task failed: ", error.as_str()),
        ),
        JoinOutcome::TimedOut => SessionExit::Closed { code: told },
    }
}

/// The shell of the server: the one that its environment names, or that of the system.
pub fn server_shell(windows: bool, named: Option<String>) -> (r: String)
    ensures
        r@ == match named {
            Some(shell) => shell@,
            None => if windows {
                "cmd.exe"@
            } else {
                "/bin/sh"@
            },
        },
{
    match named {
        Some(shell) => shell,
        None => {
            if windows {
                "cmd.exe".to_owned()
            } else {
                "/bin/sh".to_owned()
            }
        },
    }
}

/// A request that was received can be answered from then on, over this socket and over
/// those that resume the session; one that was not received cannot.
pub proof fn law_received_requests_can_be_answered(
    watermark: u32,
    id: u32,
    later: u32,
    answer: Envelope,
)
    requires
        id < u32::MAX,
        answer.responding_to is Some,
        raised(watermark, id) <= later,
    ensures
        raised(watermark, id) >= watermark,
        answer.responding_to == Some(id) ==> !stale_response(answer, later),
        answer.responding_to->0 >= later ==> stale_response(answer, later),
{
}

/// What a client sends again after it resumed does not count as new input.
pub proof fn law_replayed_envelopes_are_no_input(
    watermark: u32,
    envelope: Envelope,
    at_attach: u32,
)
    requires
        envelope.id < u32::MAX,
        raised(watermark, envelope.id) <= at_attach,
    ensures
        !new_input(envelope, at_attach),
{
}

/// The envelopes that frames hold, in order.
pub open spec fn received(frames: Seq<Inbound>) -> Seq<Envelope>
    decreases frames.len(),
{
    if frames.len() == 0 {
        Seq::empty()
    } else {
        let before = received(frames.drop_last());
        match frames.last() {
            Inbound::Binary { len: _, envelope: Ok(envelope) } => before.push(envelope),
            _ => before,
        }
    }
}

/// The envelopes that steps pass on, in order, and whether each counts as input.
pub open spec fn passed_on<F>(steps: Seq<TaskStep<F>>) -> Seq<(Envelope, bool)>
    decreases steps.len(),
{
    if steps.len() == 0 {
        Seq::empty()
    } else {
        let before = passed_on(steps.drop_last());
        match steps.last() {
            TaskStep::Deliver { envelope, input } => before.push((envelope, input)),
            _ => before,
        }
    }
}

/// The watermark once envelopes came in.
pub open spec fn raised_by(watermark: u32, envelopes: Seq<Envelope>) -> u32
    decreases envelopes.len(),
{
    if envelopes.len() == 0 {
        watermark
    } else {
        raised(raised_by(watermark, envelopes.drop_last()), envelopes.last().id)
    }
}

/// Whether a task goes through frames one after the other: it is in each state in turn, and
/// takes each step.
pub open spec fn goes_through<F>(
    states: Seq<SessionTask>,
    frames: Seq<Inbound>,
    steps: Seq<TaskStep<F>>,
    limits: WireLimits,
) -> bool {
    &&& states.len() == frames.len() + 1
    &&& steps.len() == frames.len()
    &&& forall|i: int|
        0 <= i < frames.len() ==> #[trigger] states[i].stepped(
            TaskEvent::Inbound(frames[i]),
            limits,
            steps[i],
            states[i + 1],
        )
}

/// Every envelope that comes in is passed on, unchanged and in order; it raises the
/// watermark, and counts as input where it is new and is any. Text, pings and pongs do none
/// of this and do not end the session.
pub proof fn law_frames_are_passed_on<F>(
    states: Seq<SessionTask>,
    frames: Seq<Inbound>,
    steps: Seq<TaskStep<F>>,
    limits: WireLimits,
)
    requires
        goes_through(states, frames, steps, limits),
    ensures
        states.last().watermark_at_attach == states[0].watermark_at_attach,
        states.last().watermark == raised_by(states[0].watermark, received(frames)),
        passed_on(steps) == received(frames).map_values(
            |e: Envelope| (e, new_input(e, states[0].watermark_at_attach)),
        ),
        forall|i: int|
            0 <= i < frames.len() && (frames[i] is Text || frames[i] is Other) ==> {
                &&& !(#[trigger] steps[i] is Deliver)
                &&& !(steps[i] is End)
                &&& states[i + 1] == states[i]
            },
    decreases frames.len(),
{
    let at = states[0].watermark_at_attach;
    let f = |e: Envelope| (e, new_input(e, at));
    if frames.len() == 0 {
        assert(passed_on(steps) =~= received(frames).map_values(f));
    } else {
        let n = frames.len() - 1;
        let s = states.drop_last();
        let g = frames.drop_last();
        let t = steps.drop_last();
        assert forall|i: int| 0 <= i < g.len() implies #[trigger] s[i].stepped(
            TaskEvent::Inbound(g[i]),
            limits,
            t[i],
            s[i + 1],
        ) by {
            assert(states[i].stepped(
                TaskEvent::Inbound(frames[i]),
                limits,
                steps[i],
                states[i + 1],
            ));
        }
        law_frames_are_passed_on(s, g, t, limits);
        assert(states[n].stepped(TaskEvent::Inbound(frames[n]), limits, steps[n], states[n + 1]));
        assert(s.last() == states[n]);
        if let Inbound::Binary { len: _, envelope: Ok(envelope) } = frames[n] {
            assert(received(frames) == received(g).push(envelope));
            assert(received(frames).drop_last() =~= received(g));
            assert(received(frames).map_values(f) =~= received(g).map_values(f).push(f(envelope)));
        }
        assert forall|i: int|
            0 <= i < frames.len() && (frames[i] is Text || frames[i] is Other) implies {
            &&& !(#[trigger] steps[i] is Deliver)
            &&& !(steps[i] is End)
            &&& states[i + 1] == states[i]
        } by {
            assert(states[i].stepped(
                TaskEvent::Inbound(frames[i]),
                limits,
                steps[i],
                states[i + 1],
            ));
        }
    }
}

/// A client is let in exactly where it speaks the protocol, names itself within bounds, is for
/// the workspace of its token, and has a build that works with the expected one, if one is;
/// who is not let in is closed with 4006, or 4002 for the build alone.
pub proof fn law_clients_are_let_in(
    hello: Hello,
    claims: Claims,
    protocol: u32,
    expected_build: Option<Seq<char>>,
    compatible: bool,
)
    ensures
        ({
            let fault = admission_fault(hello, claims, protocol, expected_build, compatible);
            let good = {
                &&& hello.protocol == protocol
                &&& hello.workspace_id@ == claims.ws@
                &&& hello.instance@.len() > 0
                &&& byte_len(hello.instance@) <= 256
                &&& byte_len(hello.identifier@) <= 256
                &&& byte_len(hello.build@) <= 128
                &&& byte_len(hello.session_id@) <= 256
                &&& byte_len(hello.workspace_id@) <= 256
            };
            &&& fault is None <==> good && (expected_build is None || compatible)
            &&& !good ==> fault is Some && (fault->0).0 == 4006
            &&& good && fault is Some ==> (fault->0).0 == 4002 && (fault->0).1 == "expected build "@
                + expected_build->0
        }),
{
}

/// What comes before the first frame of a client is waited for: anything but that frame, a
/// ping or a pong ends the socket with a reason.
pub proof fn law_sockets_begin_with_hello(input: HelloInput)
    ensures
        hello_refusal(input) is None <==> input is Other || (input matches HelloInput::Text {
            frame: Some(ControlFrame::Hello(_)),
            ..
        }),
{
}

/// A session ends with what is told to the peer: the close that was asked for, or that the
/// server goes away; a peer that is silent for 90 seconds or does not read is told so, and one
/// that has closed is told nothing.
pub proof fn law_sessions_end_with_a_reason<F>(
    ctl: SessionCtl,
    silent_ms: u64,
    code: Option<u16>,
    error: String,
    limits: WireLimits,
    frame: F,
)
    ensures
        event_end::<F>(TaskEvent::Close(Some(ctl)), limits) == Some(
            (
                FarewellView::SendClose { code: ctl.code, reason: ctl.reason@ },
                ExitView::Closed(ctl.code),
            ),
        ),
        event_end::<F>(TaskEvent::Close(None), limits) == Some(
            (
                FarewellView::SendClose { code: 1001, reason: "server going away"@ },
                ExitView::Closed(1001),
            ),
        ),
        event_end::<F>(TaskEvent::Outbound(None), limits) == Some(
            (
                FarewellView::SendClose { code: 1001, reason: "server going away"@ },
                ExitView::Closed(1001),
            ),
        ),
        event_end(TaskEvent::Outbound(Some(frame)), limits) is None,
        silent_ms < 90_000 ==> event_end::<F>(TaskEvent::Heartbeat { silent_ms }, limits) is None,
        silent_ms >= 90_000 ==> event_end::<F>(TaskEvent::Heartbeat { silent_ms }, limits) == Some(
            (
                FarewellView::SendClose { code: 1008, reason: "no frames for 90 s"@ },
                ExitView::Dead,
            ),
        ),
        event_end::<F>(TaskEvent::Inbound(Inbound::Close { code }), limits) == Some(
            (FarewellView::Silent, ExitView::PeerClosed(code)),
        ),
        event_end::<F>(TaskEvent::Inbound(Inbound::Ended), limits) == Some(
            (FarewellView::Silent, ExitView::PeerClosed(None)),
        ),
        event_end::<F>(TaskEvent::Inbound(Inbound::TooLarge), limits) == Some(
            (FarewellView::CloseOnly, ExitView::FrameTooLarge),
        ),
        event_end::<F>(TaskEvent::Inbound(Inbound::Failed(error)), limits) == Some(
            (FarewellView::Silent, ExitView::ReadError(error@)),
        ),
{
}

/// A frame that is no envelope ends the session: as too large where it is over the limit, and
/// else as malformed.
pub proof fn law_bad_frames_end_the_session<F>(len: usize, error: String, limits: WireLimits)
    ensures
        ({
            let end = event_end::<F>(
                TaskEvent::Inbound(Inbound::Binary { len, envelope: Err(error) }),
                limits,
            );
            &&& len > limits.max_frame_bytes ==> end == Some(
                (
                    FarewellView::SendClose {
                        code: limits.close_frame_too_large,
                        reason: "frame too large"@,
                    },
                    ExitView::FrameTooLarge,
                ),
            )
            &&& len <= limits.max_frame_bytes ==> end == Some(
                (
                    FarewellView::SendClose { code: 1008, reason: "malformed envelope"@ },
                    ExitView::ReadError("malformed envelope: "@ + error@),
                ),
            )
        }),
{
}

/// A frame that was written ends nothing; one that could not be, ends the session, as does a
/// close that comes first and a peer that does not read.
pub proof fn law_writes_that_fail_end_the_session(outcome: WriteOutcome, ctl: SessionCtl)
    ensures
        write_end(outcome) is None <==> outcome is Written,
        write_end(WriteOutcome::TimedOut) == Some(
            (
                FarewellView::SendClose { code: 1008, reason: "slow consumer"@ },
                ExitView::SlowConsumer,
            ),
        ),
        write_end(WriteOutcome::Preempted(Some(ctl))) == Some(
            (
                FarewellView::SendClose { code: ctl.code, reason: ctl.reason@ },
                ExitView::Closed(ctl.code),
            ),
        ),
        outcome matches WriteOutcome::Failed(m) ==> write_end(outcome) == Some(
            (FarewellView::Silent, ExitView::WriteError(m@)),
        ),
{
}

/// What the server sends is written, and as long as the peer is heard of it is sent a beat.
pub proof fn law_frames_are_written<F>(
    task: SessionTask,
    frame: F,
    silent_ms: u64,
    limits: WireLimits,
    step: TaskStep<F>,
    after: SessionTask,
)
    ensures
        task.stepped(TaskEvent::Outbound(Some(frame)), limits, step, after) ==> step
            == TaskStep::<F>::Write(frame) && after == task,
        silent_ms < 90_000 && task.stepped(
            TaskEvent::Heartbeat { silent_ms },
            limits,
            step,
            after,
        ) ==> step is Beat && after == task,
        silent_ms >= 90_000 && task.stepped(
            TaskEvent::Heartbeat { silent_ms },
            limits,
            step,
            after,
        ) ==> step is End,
{
}

/// The watermark is one past the largest id that came in, and never falls.
pub proof fn law_the_watermark_is_past_every_id(watermark: u32, envelopes: Seq<Envelope>, i: int)
    requires
        0 <= i < envelopes.len(),
    ensures
        raised_by(watermark, envelopes) >= watermark,
        envelopes[i].id < u32::MAX ==> raised_by(watermark, envelopes) > envelopes[i].id,
        raised_by(watermark, envelopes) == watermark || exists|k: int|
            0 <= k < envelopes.len() && (#[trigger] envelopes[k]).id + 1 >= raised_by(
                watermark,
                envelopes,
            ),
    decreases envelopes.len(),
{
    let front = envelopes.drop_last();
    let last = envelopes.len() - 1;
    if front.len() > 0 {
        law_the_watermark_is_past_every_id(
            watermark,
            front,
            if i < front.len() {
                i
            } else {
                0
            },
        );
        let before = raised_by(watermark, front);
        if raised_by(watermark, envelopes) == before && before != watermark {
            let k = choose|k: int|
                0 <= k < front.len() && (#[trigger] front[k]).id + 1 >= raised_by(watermark, front);
            assert(envelopes[k].id + 1 >= raised_by(watermark, envelopes));
        } else if raised_by(watermark, envelopes) != before {
            assert(envelopes[last].id + 1 >= raised_by(watermark, envelopes));
        }
    } else {
        assert(raised_by(watermark, front) == watermark);
        assert(envelopes[last] == envelopes.last());
        if raised_by(watermark, envelopes) != watermark {
            assert(envelopes[last].id + 1 >= raised_by(watermark, envelopes));
        }
    }
}

/// A session that does not end in time counts as closed with what it was told, and one whose
/// task failed as one that could not be read.
pub proof fn law_exits_are_reported(exit: SessionExit, error: String, told: u16)
    ensures
        exit_of(JoinOutcome::Exited(exit), told) == exit.view(),
        exit_of(JoinOutcome::TimedOut, told) == ExitView::Closed(told),
        exit_of(JoinOutcome::Failed(error), told) == ExitView::ReadError(
            "session task failed: "@ + error@,
        ),
{
}

/// The number after an id is the next one; behind the largest there is none, and it stays.
pub proof fn law_ids_count_up_to_the_largest(a: u32, b: u32)
    ensures
        after(a) >= a,
        after(a) <= a + 1,
        a < u32::MAX ==> after(a) == a + 1,
        a <= b ==> after(a) <= after(b),
{
}

} // verus!
