use zed_web::serve::auth::Claims;
use zed_web::serve::connection::{
    join_session, read_hello, run_connection, server_shell, validate_hello, write_frame, Admission,
    Farewell, HelloInput, HelloStep, Inbound, JoinOutcome, SessionCtl, SessionTask, TaskEvent,
    TaskStep, WriteOutcome, DEAD_AFTER_MS, HEARTBEAT_INTERVAL_MS, MAX_HELLO_BUILD_BYTES,
    MAX_HELLO_NAME_BYTES,
};
use zed_web::serve::session::{
    AttachOutcome, AttachPlan, AttachResults, Attachment, BrokerAction, BrokerCommand, BrokerEvent,
    BrokerSource, Classification, DrainInput, DrainStep, FramePlan, PumpOutcome, ServerFacts,
    SessionBroker, SessionExit, SessionKind,
};
use zed_web::serve::state::{mirror_record, ServeConfig, ServeState};
use zed_web::serve::wire::{
    control_frame_name, is_input_envelope, payload_variant_name, BoundedName, ClientKind,
    ControlFrame, ControlKind, Envelope, Hello, LogFrame, Payload, WireLimits, CLOSE_BAD_HELLO,
    CLOSE_BUILD_MISMATCH, CLOSE_GOING_AWAY, CLOSE_POLICY_VIOLATION, CLOSE_STOPPING,
    CLOSE_SUPERSEDED, CLOSE_TAKEN_OVER,
};

type Broker = SessionBroker<&'static str, u32>;

const LIMITS: WireLimits =
    WireLimits { protocol: 1, max_frame_bytes: 1000, close_frame_too_large: 1009 };

fn claims(sid: &str) -> Claims {
    Claims {
        pid: None,
        iss: "zs".into(),
        sub: "user_1".into(),
        ws: "ws_test".into(),
        sid: sid.into(),
        aud: "sb_test".into(),
        iat: 1,
        exp: 2,
        jti: format!("jti_{sid}"),
    }
}

fn hello(sid: &str, instance: &str, reconnect: bool, epoch: Option<u64>) -> Hello {
    Hello {
        protocol: 1,
        build: "test-build".into(),
        workspace_id: "ws_test".into(),
        session_id: sid.into(),
        identifier: format!("setup-{instance}"),
        instance: instance.into(),
        reconnect,
        client: ClientKind::Web,
        epoch,
    }
}

fn facts() -> ServerFacts {
    ServerFacts {
        replica_id: 8,
        build: "test-build".into(),
        os: "linux".into(),
        arch: "x86_64".into(),
        os_version: None,
        shell: "/bin/sh".into(),
    }
}

fn ready(closed_watermark: u32) -> AttachResults {
    AttachResults { replay_healthy: true, closed_watermark, fresh_ready: true }
}

fn attach(broker: &mut Broker, hello: &Hello, sid: &str, closed_watermark: u32) -> Attachment {
    match broker.attach(hello, &claims(sid), ready(closed_watermark), &facts(), 1, 5) {
        AttachOutcome::Attached(attachment) => {
            broker.activate(attachment.meta.clone());
            attachment
        }
        AttachOutcome::Refused(order) => panic!("refused with {} {}", order.code, order.reason),
    }
}

fn message(name: &str) -> Option<Payload> {
    Some(Payload::Message { name: name.into(), body: vec![] })
}

fn envelope(id: u32, name: &str) -> Envelope {
    Envelope {
        id,
        responding_to: None,
        original_sender_id: None,
        ack_id: None,
        payload: message(name),
    }
}

fn response(id: u32, to: u32) -> Envelope {
    Envelope { responding_to: Some(to), ack_id: Some(3), ..envelope(id, "Ack") }
}

#[test]
fn is_input_envelope_rules() {
    for name in [
        "Ping",
        "Ack",
        "RemoteStarted",
        "FlushBufferedMessages",
        "AckTerminalOutput",
        "ResizeTerminal",
        "ListTerminals",
        "AttachTerminal",
        "SaveClientState",
        "LoadClientState",
        "ListExtensions",
    ] {
        assert!(!is_input_envelope(&envelope(1, name)), "{name} must not be input");
    }
    for name in [
        "AddWorktree",
        "TerminalInput",
        "CloseTerminal",
        "ForwardPort",
        "InstallRegistryExtension",
    ] {
        assert!(is_input_envelope(&envelope(1, name)), "{name} must be input");
    }
    assert!(!is_input_envelope(&response(2, 1)));
    let worktree_response = Envelope { responding_to: Some(1), ..envelope(3, "AddWorktree") };
    assert!(!is_input_envelope(&worktree_response));
    assert!(!is_input_envelope(&Envelope { payload: None, ..envelope(4, "Ping") }));
}

#[test]
fn payload_variant_name_is_bounded() {
    let big = format!("TerminalOutput(TerminalOutput {{ data: {:?} }})", vec![0u8; 1000]);
    assert_eq!(payload_variant_name(Some(&big)), "TerminalOutput");
    assert_eq!(payload_variant_name(Some("Ping(Ping)")), "Ping");
    assert_eq!(payload_variant_name(None), "<none>");
    assert_eq!(payload_variant_name(Some(&"x".repeat(100))), "x".repeat(64));
    let mut name = BoundedName::new();
    assert!(name.write_part("Terminal"));
    assert!(!name.write_part("Output(more"));
    assert_eq!(name.text, "TerminalOutput");
}

#[test]
fn retirement_never_evicts_a_live_session() {
    let mut broker = Broker::new(1);
    attach(&mut broker, &hello("sid_1", "inst_1", false, None), "sid_1", 0);
    assert!(!broker.may_retire());
    assert!(matches!(
        broker.dispatch(BrokerEvent::Command(Some(BrokerCommand::RetireIfDetached { done: 9 }))),
        BrokerAction::Retire { done: 9 }
    ));
    assert!(broker.detach(0).is_some());
    assert!(broker.may_retire());
}

#[test]
fn fresh_session_swaps_channels() {
    let mut broker = Broker::new(1);
    broker.keep_pending(envelope(7, "Ping"));
    broker.outgoing_closed = true;
    let attachment = attach(&mut broker, &hello("sid_1", "inst_1", false, None), "sid_1", 0);
    assert!(!attachment.ack.resumed);
    assert_eq!(attachment.ack.session_id, "sid_1");
    assert_eq!(attachment.ack.build, "test-build");
    assert_eq!(attachment.ack.replica_id, 8);
    assert_eq!(attachment.meta.kind, SessionKind::Fresh);
    assert!(broker.pending_outgoing.is_none(), "nothing of the old channel may arrive");
    assert!(!broker.outgoing_closed);
    assert!(matches!(broker.next_source(), BrokerSource::Select { outgoing: true }));
}

#[test]
fn fresh_session_failure_refuses_with_1011() {
    let mut broker = Broker::new(1);
    let results = AttachResults { replay_healthy: true, closed_watermark: 0, fresh_ready: false };
    let first = hello("sid_1", "inst_1", false, None);
    match broker.attach(&first, &claims("sid_1"), results, &facts(), 1, 5) {
        AttachOutcome::Refused(order) => {
            assert_eq!(order.code, 1011);
            assert_eq!(order.reason, "server not ready");
        }
        AttachOutcome::Attached(_) => panic!("attached"),
    }
    assert!(broker.current.is_none());
    let attachment = attach(&mut broker, &hello("sid_2", "inst_2", false, None), "sid_2", 0);
    assert!(!attachment.ack.resumed);
}

#[test]
fn reconnect_supersedes_half_open_socket() {
    let mut broker = Broker::new(1);
    let first = attach(&mut broker, &hello("sid_1", "inst_1", false, None), "sid_1", 0);
    let again = hello("sid_2", "inst_1", true, Some(first.ack.epoch));
    match broker.plan_attach(&again, true) {
        AttachPlan::Proceed { kind, close: Some(order) } => {
            assert_eq!(kind, SessionKind::Reconnect);
            assert_eq!(order.code, CLOSE_SUPERSEDED);
            assert_eq!(order.reason, "superseded by reconnect");
        }
        _ => panic!("unexpected plan"),
    }
    let resumed = attach(&mut broker, &again, "sid_2", 4);
    assert!(resumed.ack.resumed);
    assert_eq!(resumed.ack.epoch, first.ack.epoch);
    assert_eq!(resumed.ack.session_id, "sid_2");
    assert_eq!(resumed.watermark, 4);
    assert_eq!(broker.attach_seq, 1);
    assert!(broker.drains_channel(false));
    assert!(!broker.drains_channel(true));
}

#[test]
fn replacement_closes_old_with_4001_and_stale_epoch_is_refused() {
    let mut broker = Broker::new(1);
    let first = attach(&mut broker, &hello("sid_1", "inst_1", false, None), "sid_1", 0);
    let second = hello("sid_2", "inst_2", false, None);
    match broker.plan_attach(&second, true) {
        AttachPlan::Proceed { kind, close: Some(order) } => {
            assert_eq!(kind, SessionKind::Fresh);
            assert_eq!(order.code, CLOSE_TAKEN_OVER);
            assert_eq!(order.reason, "replaced by participant reload");
        }
        _ => panic!("unexpected plan"),
    }
    let second = attach(&mut broker, &second, "sid_2", 0);
    assert!(!second.ack.resumed);
    assert!(second.ack.epoch > first.ack.epoch);

    let third = hello("sid_3", "inst_1", true, Some(first.ack.epoch));
    assert_eq!(broker.classify(&third), Classification::StaleEpoch);
    match broker.attach(&third, &claims("sid_3"), ready(0), &facts(), 1, 5) {
        AttachOutcome::Refused(order) => {
            assert_eq!(order.code, CLOSE_TAKEN_OVER);
            assert_eq!(order.reason, "stale epoch");
        }
        AttachOutcome::Attached(_) => panic!("attached"),
    }
    assert_eq!(broker.current.as_ref().unwrap().session_id, "sid_2", "second still attached");
    // A client of another instance that knows the epoch starts over.
    let other = hello("sid_4", "inst_9", true, Some(second.ack.epoch));
    assert_eq!(broker.classify(&other), Classification::Fresh);
}

#[test]
fn an_overflowing_replay_buffer_ends_the_epoch() {
    let mut broker = Broker::new(1);
    assert!(broker.replay_guard(false).is_none());
    let first = attach(&mut broker, &hello("sid_1", "inst_1", false, None), "sid_1", 0);
    assert!(broker.replay_guard(true).is_none());
    let order = broker.replay_guard(false).unwrap();
    assert_eq!((order.code, order.reason), (CLOSE_TAKEN_OVER, "stale epoch"));
    let again = hello("sid_2", "inst_1", true, Some(first.ack.epoch));
    assert!(matches!(broker.plan_attach(&again, false), AttachPlan::Refuse(_)));
}

#[test]
fn epoch_is_unique_and_monotonic() {
    let mut broker = Broker::new(1_000);
    let mut epochs = Vec::new();
    for index in 0..3 {
        let sid = format!("sid_{index}");
        let hello = hello(&sid, &format!("inst_{index}"), false, None);
        epochs.push(attach(&mut broker, &hello, &sid, 0).ack.epoch);
    }
    assert!(epochs.windows(2).all(|pair| pair[1] > pair[0]), "{epochs:?}");
    assert_eq!(epochs[0], (1_000 << 16) + 1);
    let mut later = Broker::new(1_002);
    let later = attach(&mut later, &hello("sid_x", "inst_x", false, None), "sid_x", 0);
    assert!(later.ack.epoch > epochs[2]);
}

#[test]
fn reconnect_session_keeps_queue() {
    let mut broker = Broker::new(1);
    let first = attach(&mut broker, &hello("sid_1", "inst_1", false, None), "sid_1", 0);
    assert!(broker.detach(6).is_some());
    broker.keep_pending(envelope(1, "Ping"));
    assert!(matches!(broker.next_source(), BrokerSource::Command));
    let again = hello("sid_9", "inst_1", true, Some(first.ack.epoch));
    let resumed = attach(&mut broker, &again, "sid_9", 99);
    assert!(resumed.ack.resumed);
    assert_eq!(resumed.ack.epoch, first.ack.epoch);
    assert_eq!(resumed.meta.kind, SessionKind::Reconnect);
    assert_eq!(resumed.watermark, 6);
    match broker.next_source() {
        BrokerSource::Ready(BrokerEvent::Outgoing(Some(envelope))) => assert_eq!(envelope.id, 1),
        _ => panic!("the queued envelope comes first"),
    }
}

#[test]
fn reconnect_to_fresh_process_is_not_resumed() {
    let mut broker = Broker::new(1);
    let attachment = attach(&mut broker, &hello("sid_1", "inst_1", true, Some(123)), "sid_1", 0);
    assert!(!attachment.ack.resumed);
    let mut broker = Broker::new(1);
    let attachment = attach(&mut broker, &hello("sid_1", "inst_1", true, None), "sid_1", 0);
    assert!(!attachment.ack.resumed);
}

#[test]
fn a_change_of_user_is_noticed() {
    let mut broker = Broker::new(1);
    let first = attach(&mut broker, &hello("sid_1", "inst_1", false, None), "sid_1", 0);
    assert!(!first.user_changed);
    let mut other = claims("sid_2");
    other.sub = "user_2".into();
    let second = hello("sid_2", "inst_2", false, None);
    match broker.attach(&second, &other, ready(0), &facts(), 1, 5) {
        AttachOutcome::Attached(attachment) => assert!(attachment.user_changed),
        AttachOutcome::Refused(_) => panic!("refused"),
    }
}

#[test]
fn stale_response_dropped_after_fresh() {
    let mut broker = Broker::new(1);
    assert!(matches!(
        broker.prepare_frame(&envelope(1, "Ping"), 0, 10, &LIMITS),
        FramePlan::NotAttached
    ));
    attach(&mut broker, &hello("sid_1", "inst_1", false, None), "sid_1", 0);
    assert!(matches!(broker.prepare_frame(&response(50, 41), 0, 10, &LIMITS), FramePlan::Stale));
    let mut task = SessionTask::new(0);
    let event = TaskEvent::<()>::Inbound(Inbound::Binary { len: 4, envelope: Ok(envelope(41, "Ping")) });
    assert!(matches!(task.step(event, &LIMITS), TaskStep::Deliver { input: false, .. }));
    assert_eq!(task.watermark, 42);
    assert!(matches!(
        broker.prepare_frame(&response(51, 41), task.watermark, 10, &LIMITS),
        FramePlan::Send
    ));
    assert!(matches!(
        broker.prepare_frame(&response(52, 60), task.watermark, 10, &LIMITS),
        FramePlan::Stale
    ));
}

#[test]
fn oversize_outgoing_frame_is_dropped_and_replaced() {
    let mut broker = Broker::new(1);
    attach(&mut broker, &hello("sid_1", "inst_1", false, None), "sid_1", 0);
    assert!(matches!(
        broker.prepare_frame(&envelope(99, "TerminalOutput"), 8, 1001, &LIMITS),
        FramePlan::Replace(None)
    ));
    match broker.prepare_frame(&response(101, 7), 8, 1001, &LIMITS) {
        FramePlan::Replace(Some(reply)) => {
            assert_eq!(reply.id, 101);
            assert_eq!(reply.responding_to, Some(7));
            assert_eq!(reply.ack_id, Some(3));
            match reply.payload {
                Some(Payload::Error { message }) => assert_eq!(
                    message,
                    "message too large for the WebSocket transport (1001 bytes, limit 1000)"
                ),
                _ => panic!("no error"),
            }
        }
        _ => panic!("unexpected plan"),
    }
}

#[test]
fn a_command_preempts_an_envelope_without_losing_it() {
    let mut broker = Broker::new(1);
    attach(&mut broker, &hello("sid_1", "inst_1", false, None), "sid_1", 0);
    let command = BrokerCommand::CloseSession { code: 1000, reason: "done".into() };
    assert!(broker.pump(envelope(5, "Ping"), PumpOutcome::Preempted(Some(command))).is_none());
    assert!(matches!(
        broker.next_source(),
        BrokerSource::Ready(BrokerEvent::Command(Some(BrokerCommand::CloseSession { code: 1000, .. })))
    ));
    assert!(matches!(
        broker.next_source(),
        BrokerSource::Ready(BrokerEvent::Outgoing(Some(Envelope { id: 5, .. })))
    ));
    assert!(broker.pump(envelope(6, "Ping"), PumpOutcome::Sent).is_none());
    assert!(broker.pending_outgoing.is_none());
    let gone = broker.pump(envelope(7, "Ping"), PumpOutcome::QueueGone { watermark: 3 }).unwrap();
    assert_eq!(gone.session_id, "sid_1");
    assert!(broker.current.is_none());
    assert_eq!(broker.last_watermark, 3);
    assert_eq!(broker.pending_outgoing.as_ref().unwrap().id, 7);
    assert!(broker.pump(envelope(8, "Ping"), PumpOutcome::TimedOut).is_none());
}

#[test]
fn close_session_delivers_queued_envelopes_first() {
    let mut broker = Broker::new(1);
    assert!(!broker.begin_close());
    attach(&mut broker, &hello("sid_1", "inst_1", false, None), "sid_1", 0);
    assert!(broker.begin_close());
    broker.keep_pending(envelope(4, "Ping"));
    let received = DrainInput::Envelope(envelope(5, "Ack"));
    match broker.drain_outgoing(false, DrainInput::Nothing) {
        DrainStep::Send(envelope) => assert_eq!(envelope.id, 4),
        DrainStep::Done => panic!("an envelope waits"),
    }
    match broker.drain_outgoing(false, received) {
        DrainStep::Send(envelope) => {
            assert_eq!(envelope.id, 5);
            assert!(broker.send_before(envelope, &FramePlan::Send, true));
        }
        DrainStep::Done => panic!("an envelope waits"),
    }
    assert!(matches!(broker.drain_outgoing(false, DrainInput::Nothing), DrainStep::Done));
    assert!(!broker.send_before(envelope(6, "Ping"), &FramePlan::Send, false));
    assert_eq!(broker.pending_outgoing.as_ref().unwrap().id, 6);
    assert!(matches!(broker.drain_outgoing(true, DrainInput::Nothing), DrainStep::Send(_)));
    assert!(matches!(broker.drain_outgoing(false, DrainInput::Ended), DrainStep::Done));
    assert!(broker.outgoing_closed);
}

#[test]
fn shutdown_flushes_then_closes_going_away() {
    let mut broker = Broker::new(1);
    attach(&mut broker, &hello("sid_1", "inst_1", false, None), "sid_1", 0);
    let mut channel = vec![envelope(21, "Ping"), envelope(20, "Ping")];
    match broker.dispatch(BrokerEvent::Command(Some(BrokerCommand::Shutdown { done: 4 }))) {
        BrokerAction::CloseAndQuit { code, reason, done } => {
            assert_eq!((code, reason, done), (CLOSE_STOPPING, "server shutting down", 4));
        }
        _ => panic!("unexpected action"),
    }
    // What was queued goes out before the close, in order.
    assert!(broker.begin_close());
    let mut sent = Vec::new();
    loop {
        let received = match channel.pop() {
            Some(envelope) => DrainInput::Envelope(envelope),
            None => DrainInput::Nothing,
        };
        match broker.drain_outgoing(false, received) {
            DrainStep::Send(envelope) => {
                sent.push(envelope.id);
                let plan = broker.prepare_frame(&envelope, 0, 10, &LIMITS);
                assert!(matches!(plan, FramePlan::Send));
                assert!(broker.send_before(envelope, &plan, true));
            }
            DrainStep::Done => break,
        }
    }
    assert_eq!(sent, [20, 21]);
    let mut task = SessionTask::new(0);
    let order = SessionCtl { code: CLOSE_STOPPING, reason: "server shutting down".into() };
    match task.step::<u8>(TaskEvent::Close(Some(order)), &LIMITS) {
        TaskStep::End(end) => match (end.farewell, end.exit) {
            (Farewell::SendClose { code, reason }, exit) => {
                assert_eq!((code, reason.as_str()), (CLOSE_STOPPING, "server shutting down"));
                assert_eq!(exit.reason(), "closed(1001)");
            }
            _ => panic!("the peer is told"),
        },
        _ => panic!("the session ends"),
    }
    assert!(broker.detach(0).is_some());
    assert!(!broker.begin_close());
    match broker.dispatch(BrokerEvent::Command(None)) {
        BrokerAction::CloseAndStop { code, reason } => {
            assert_eq!((code, reason), (CLOSE_GOING_AWAY, "server going away"));
        }
        _ => panic!("unexpected action"),
    }
}

#[test]
fn shutdown_without_session_is_immediate() {
    let broker = Broker::new(1);
    assert!(!broker.begin_close());
}

#[test]
fn detach_hook_runs_on_peer_close() {
    let mut broker = Broker::new(1);
    attach(&mut broker, &hello("sid_1", "inst_1", false, None), "sid_1", 0);
    match broker.dispatch(BrokerEvent::SessionExited { watermark: 17 }) {
        BrokerAction::Detached { meta } => assert_eq!(meta.session_id, "sid_1"),
        _ => panic!("unexpected action"),
    }
    assert_eq!(broker.last_watermark, 17);
    assert!(matches!(
        broker.dispatch(BrokerEvent::SessionExited { watermark: 18 }),
        BrokerAction::Continue
    ));
    assert!(matches!(broker.dispatch(BrokerEvent::ReplayCheck), BrokerAction::Continue));
    assert!(matches!(broker.dispatch(BrokerEvent::Outgoing(None)), BrokerAction::Continue));
    assert!(broker.outgoing_closed);
    assert!(matches!(
        broker.dispatch(BrokerEvent::Outgoing(Some(envelope(3, "Ping")))),
        BrokerAction::Pump { .. }
    ));
}

#[test]
fn hello_timeout_and_bad_protocol_close_4006() {
    let refused = |input: HelloInput| match read_hello(input) {
        HelloStep::Refuse(reason) => reason,
        _ => panic!("not refused"),
    };
    assert_eq!(refused(HelloInput::TimedOut), "no Hello within 5s");
    assert_eq!(refused(HelloInput::Close), "peer closed before Hello");
    assert_eq!(refused(HelloInput::Binary), "expected a Hello text frame, got a binary frame");
    assert_eq!(
        refused(HelloInput::Text { len: 16, frame: None }),
        "malformed Hello (16 byte text frame)"
    );
    assert_eq!(
        refused(HelloInput::Text { len: 16, frame: Some(ControlFrame::Heartbeat) }),
        "expected Hello, got a heartbeat frame"
    );
    assert_eq!(refused(HelloInput::Failed("reset".into())), "socket error before Hello: reset");
    assert!(matches!(read_hello(HelloInput::Other), HelloStep::Wait));
    let first = hello("sid_1", "inst_1", false, None);
    let frame = Some(ControlFrame::Hello(first.clone()));
    assert!(matches!(read_hello(HelloInput::Text { len: 1, frame }), HelloStep::Ready(_)));

    let two = Hello { protocol: 2, ..first };
    assert_eq!(validate_hello(&two, &claims("sid_1"), 1), Err("unsupported protocol version"));
    match run_connection(&two, &claims("sid_1"), 1, None, true) {
        Admission::Refuse { code, .. } => assert_eq!(code, CLOSE_BAD_HELLO),
        Admission::Attach { .. } => panic!("attached"),
    }
}

#[test]
fn oversize_or_foreign_hello_fields_close_4006() {
    let base = hello("sid_1", "inst_1", false, None);
    let cases = [
        (
            Hello { identifier: "i".repeat(MAX_HELLO_NAME_BYTES + 1), ..base.clone() },
            "identifier too long",
        ),
        (
            Hello { instance: "n".repeat(MAX_HELLO_NAME_BYTES + 1), ..base.clone() },
            "instance must be 1 to 256 bytes",
        ),
        (Hello { instance: String::new(), ..base.clone() }, "instance must be 1 to 256 bytes"),
        (Hello { build: "b".repeat(MAX_HELLO_BUILD_BYTES + 1), ..base.clone() }, "build too long"),
        (
            Hello { session_id: "s".repeat(MAX_HELLO_NAME_BYTES + 1), ..base.clone() },
            "session_id or workspace_id too long",
        ),
        (
            Hello { workspace_id: "ws_other".into(), ..base.clone() },
            "workspace_id does not match the token",
        ),
    ];
    for (hello, reason) in cases {
        assert_eq!(validate_hello(&hello, &claims("sid_1"), 1), Err(reason));
    }
    let longest = Hello { identifier: "i".repeat(MAX_HELLO_NAME_BYTES), ..base };
    assert_eq!(validate_hello(&longest, &claims("sid_1"), 1), Ok(()));
}

#[test]
fn build_mismatch_closes_4002() {
    let hello = Hello { build: "b2".into(), ..hello("sid_1", "inst_1", false, None) };
    match run_connection(&hello, &claims("sid_1"), 1, Some("b1"), false) {
        Admission::Refuse { code, reason } => {
            assert_eq!(code, CLOSE_BUILD_MISMATCH);
            assert_eq!(reason, "expected build b1");
        }
        Admission::Attach { .. } => panic!("attached"),
    }
    let admission = run_connection(&hello, &claims("sid_1"), 1, Some("b1"), true);
    assert!(matches!(admission, Admission::Attach { .. }));
}

#[test]
fn hello_session_id_mismatch_is_accepted() {
    let hello = hello("other", "inst_1", false, None);
    assert!(matches!(
        run_connection(&hello, &claims("sid_1"), 1, None, false),
        Admission::Attach { session_id_differs: true }
    ));
    let mut broker = Broker::new(1);
    assert_eq!(attach(&mut broker, &hello, "sid_1", 0).ack.session_id, "sid_1");
}

#[test]
fn activity_excludes_pings_heartbeats_and_replay() {
    let binary = |id: u32, name: &str| {
        TaskEvent::<()>::Inbound(Inbound::Binary { len: 4, envelope: Ok(envelope(id, name)) })
    };
    let mut task = SessionTask::new(0);
    assert!(matches!(task.step(binary(1, "Ping"), &LIMITS), TaskStep::Deliver { input: false, .. }));
    let heartbeat = TaskEvent::<()>::Inbound(Inbound::Text { kind: Some(ControlKind::Heartbeat) });
    assert!(matches!(task.step(heartbeat, &LIMITS), TaskStep::Wait));
    let add = task.step(binary(2, "AddWorktree"), &LIMITS);
    assert!(matches!(add, TaskStep::Deliver { input: true, .. }));
    // What is sent again over the next socket is no new input.
    let mut task = SessionTask::new(task.watermark);
    let again = task.step(binary(2, "AddWorktree"), &LIMITS);
    assert!(matches!(again, TaskStep::Deliver { input: false, .. }));
    assert_eq!(task.watermark, 3);
    let last = task.step(binary(u32::MAX, "AddWorktree"), &LIMITS);
    assert!(matches!(last, TaskStep::Deliver { input: true, .. }));
    assert_eq!(task.watermark, u32::MAX);
}

#[test]
fn server_heartbeat_every_5s() {
    assert_eq!(HEARTBEAT_INTERVAL_MS, 5_000);
    let mut task = SessionTask::new(0);
    let alive = TaskEvent::<()>::Heartbeat { silent_ms: DEAD_AFTER_MS - 1 };
    assert!(matches!(task.step(alive, &LIMITS), TaskStep::Beat));
    match task.step(TaskEvent::<()>::Heartbeat { silent_ms: DEAD_AFTER_MS }, &LIMITS) {
        TaskStep::End(end) => {
            assert_eq!(end.exit.reason(), "dead");
            match end.farewell {
                Farewell::SendClose { code, reason } => {
                    assert_eq!((code, reason.as_str()), (1008, "no frames for 90 s"));
                }
                _ => panic!("no close"),
            }
        }
        _ => panic!("not ended"),
    }
}

fn ended(event: TaskEvent<u8>) -> (Option<(u16, String)>, String) {
    let mut task = SessionTask::new(0);
    match task.step(event, &LIMITS) {
        TaskStep::End(end) => (
            match end.farewell {
                Farewell::SendClose { code, reason } => Some((code, reason)),
                Farewell::Silent => None,
                Farewell::CloseOnly => Some((0, String::new())),
            },
            end.exit.reason(),
        ),
        _ => panic!("not ended"),
    }
}

#[test]
fn oversize_incoming_frame_detaches_only_that_session() {
    let bad = |len| TaskEvent::Inbound(Inbound::Binary { len, envelope: Err("short".into()) });
    assert_eq!(
        ended(bad(1001)),
        (Some((1009, "frame too large".into())), "frame_too_large".into())
    );
    assert_eq!(
        ended(bad(1000)),
        (
            Some((CLOSE_POLICY_VIOLATION, "malformed envelope".into())),
            "read_error: malformed envelope: short".into()
        )
    );
    assert_eq!(
        ended(TaskEvent::Inbound(Inbound::TooLarge)),
        (Some((0, String::new())), "frame_too_large".into())
    );
}

#[test]
fn sessions_end_for_many_reasons() {
    assert_eq!(
        ended(TaskEvent::Inbound(Inbound::Close { code: Some(1000) })),
        (None, "peer_closed(1000)".into())
    );
    assert_eq!(ended(TaskEvent::Inbound(Inbound::Ended)), (None, "peer_closed".into()));
    assert_eq!(
        ended(TaskEvent::Inbound(Inbound::Failed("reset".into()))),
        (None, "read_error: reset".into())
    );
    assert_eq!(
        ended(TaskEvent::Outbound(None)),
        (Some((CLOSE_GOING_AWAY, "server going away".into())), "closed(1001)".into())
    );
    assert_eq!(
        ended(TaskEvent::Close(Some(SessionCtl { code: 4001, reason: "bye".into() }))),
        (Some((4001, "bye".into())), "closed(4001)".into())
    );
    assert_eq!(
        ended(TaskEvent::Close(None)),
        (Some((CLOSE_GOING_AWAY, "server going away".into())), "closed(1001)".into())
    );
    let mut task = SessionTask::new(0);
    assert!(matches!(task.step(TaskEvent::Outbound(Some(7u8)), &LIMITS), TaskStep::Write(7)));
    let ping = TaskEvent::<u8>::Inbound(Inbound::Other);
    assert!(matches!(task.step(ping, &LIMITS), TaskStep::Wait));
    let odd = TaskEvent::<u8>::Inbound(Inbound::Text { kind: Some(ControlKind::Log) });
    assert!(matches!(task.step(odd, &LIMITS), TaskStep::IgnoreText { .. }));
    assert!(SessionTask::delivered(true).is_none());
    let end = SessionTask::delivered(false).unwrap();
    assert_eq!(end.exit.reason(), "read_error: incoming channel closed");
}

#[test]
fn dead_session_never_refuses_the_next_client() {
    let mut broker = Broker::new(1_000);
    for round in 0..5 {
        let sid = format!("sid_{round}");
        let first = attach(&mut broker, &hello(&sid, &format!("inst_{round}"), false, None), &sid, 0);
        assert!(!first.ack.resumed);
        // The exit was not polled yet; the next client finds the session gone.
        assert!(broker.detach(0).is_some());
        let next = hello("sid_next", &format!("next_{round}"), false, None);
        assert!(matches!(
            broker.plan_attach(&next, true),
            AttachPlan::Proceed { kind: SessionKind::Fresh, close: None }
        ));
        let second = attach(&mut broker, &next, "sid_next", 0);
        assert!(!second.ack.resumed, "a dead session must not be arbitrated as active");
        assert!(broker.detach(0).is_some());
    }
}

#[test]
fn slow_consumer_does_not_block_broker() {
    assert!(write_frame(WriteOutcome::Written).is_ok());
    let end = write_frame(WriteOutcome::TimedOut).err().unwrap();
    assert_eq!(end.exit.reason(), "slow_consumer");
    let end = write_frame(WriteOutcome::Failed("pipe".into())).err().unwrap();
    assert_eq!(end.exit.reason(), "write_error: pipe");
    let ctl = SessionCtl { code: 4001, reason: "replaced".into() };
    let end = write_frame(WriteOutcome::Preempted(Some(ctl))).err().unwrap();
    assert_eq!(end.exit.reason(), "closed(4001)");
}

#[test]
fn ended_sessions_are_joined() {
    let exit = join_session(JoinOutcome::Exited(SessionExit::Dead), 4001);
    assert_eq!(exit.reason(), "dead");
    let exit = join_session(JoinOutcome::Failed("panicked".into()), 4001);
    assert_eq!(exit.reason(), "read_error: session task failed: panicked");
    assert_eq!(join_session(JoinOutcome::TimedOut, 4001).reason(), "closed(4001)");
}

#[test]
fn log_frames_mirror_warnings() {
    let config = ServeConfig {
        build: "test-build".into(),
        version: "test-version".into(),
        workspace_id: "ws_test".into(),
        allowed_origins: Vec::new(),
        client_build: None,
    };
    let mut state: ServeState<tokio::sync::mpsc::Sender<ControlFrame>> = ServeState::new(config, 0);
    // A full queue, or no session, drops the frame.
    let mirror = |state: &ServeState<tokio::sync::mpsc::Sender<ControlFrame>>, level, message: &str| {
        for (_, sink) in &state.log_frame_sinks {
            let record = LogFrame {
                level,
                message: message.into(),
                module: Some("test".into()),
                file: None,
                line: None,
            };
            if let Some(frame) = mirror_record(record) {
                sink.try_send(frame).ok();
            }
        }
    };
    mirror(&state, 1, "before attach");
    let (sink, mut frames) = tokio::sync::mpsc::channel(3);
    state.set_log_frame_sink("sid_1", Some(sink));
    mirror(&state, 2, "careful");
    mirror(&state, 3, "chatty");
    mirror(&state, 1, "broken");
    match frames.try_recv() {
        Ok(ControlFrame::Log(frame)) => {
            assert_eq!(frame.level, 2);
            assert_eq!(frame.message, "careful");
            assert_eq!(frame.module.as_deref(), Some("test"));
        }
        _ => panic!("expected a log frame"),
    }
    match frames.try_recv() {
        Ok(frame) => {
            assert_eq!(control_frame_name(&frame), "log");
            match frame {
                ControlFrame::Log(frame) => {
                    assert_eq!(frame.level, 1);
                    assert_eq!(frame.message, "broken", "info records are not mirrored");
                }
                _ => panic!("expected a log frame"),
            }
        }
        Err(_) => panic!("expected a log frame"),
    }
    for _ in 0..200 {
        mirror(&state, 2, "dropped");
    }
    assert_eq!(std::iter::from_fn(|| frames.try_recv().ok()).count(), 3);
    state.set_log_frame_sink("sid_1", None);
    mirror(&state, 2, "after detach");
    assert!(frames.try_recv().is_err());
}

#[test]
fn sessions_are_listed_in_the_state() {
    let mut broker = Broker::new(1);
    let one = attach(&mut broker, &hello("sid_1", "inst_1", false, None), "sid_1", 0).meta;
    let two = attach(&mut broker, &hello("sid_2", "inst_2", false, None), "sid_2", 0).meta;
    let mut state: ServeState<u8> = ServeState::new(
        ServeConfig {
            build: "test-build".into(),
            version: "test-version".into(),
            workspace_id: "ws_test".into(),
            allowed_origins: vec![],
            client_build: None,
        },
        1_000,
    );
    let epoch = one.epoch;
    assert_eq!(state.set_session(Some(one)), Some(("sid_1".to_owned(), epoch)));
    assert_eq!(state.set_session(Some(two)), None, "a record belongs to one of several");
    assert_eq!(state.session().unwrap().session_id, "sid_1");
    let epoch = state.sessions[1].epoch;
    assert_eq!(state.remove_session("sid_1"), Some(("sid_2".to_owned(), epoch)));
    assert_eq!(state.remove_session("sid_9"), Some(("sid_2".to_owned(), epoch)));
    assert!(state.health(false, 1_000).session_active);
    assert_eq!(state.set_session(None), None);
    assert!(!state.health(true, 1_000).session_active);
    state.set_log_frame_sink("a", Some(1));
    state.set_log_frame_sink("b", Some(2));
    state.set_log_frame_sink("a", Some(3));
    assert_eq!(state.log_frame_sinks, vec![("b".to_owned(), 2), ("a".to_owned(), 3)]);
    state.set_log_frame_sink("b", None);
    assert_eq!(state.log_frame_sinks.len(), 1);
    state.pending_connection();
    assert_eq!(state.pending_connections(), 1);
    state.connection_done();
    assert_eq!(state.pending_connections(), 0);
}

#[test]
fn the_shell_has_a_default() {
    assert_eq!(server_shell(false, Some("/bin/zsh".into())), "/bin/zsh");
    assert_eq!(server_shell(false, None), "/bin/sh");
    assert_eq!(server_shell(true, None), "cmd.exe");
}
