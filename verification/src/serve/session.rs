//! The session broker: who is attached, under which epoch, and what happens to the
//! envelopes of the server.
//!
//! A broker serves one participant. It has at most one attached socket. A client may
//! resume under the epoch that it was given, and only the instance that the epoch was
//! given to may; every other attach is a fresh session under a new epoch.
//!
//! Sockets, channels and timers are driven from outside: the broker says what to do and
//! is told what came of it.

use vstd::prelude::*;
use vstd::string::*;

use crate::serve::auth::Claims;
use crate::serve::wire::{
    ClientKind, CLOSE_INTERNAL_ERROR, CLOSE_REASON_STALE_EPOCH, CLOSE_STOPPING, CLOSE_SUPERSEDED,
    CLOSE_TAKEN_OVER, Envelope, Hello, HelloAck, Payload, WireLimits,
};
use crate::text::{concat3, decimal, decimal_digits, same};

verus! {

/// An epoch is the start of the process in milliseconds, shifted by this many bits, plus
/// the number of the attach.
pub const EPOCH_SEQ_BITS: u32 = 16;

/// Whether an attach goes on with a session or starts one.
#[derive(Clone, Copy, Debug, PartialEq, Eq, Structural)]
pub enum SessionKind {
    /// New channels and a new epoch.
    Fresh,
    /// State, queue and epoch are kept.
    Reconnect,
}

/// What is reported of an attached session.
#[derive(Debug)]
pub struct SessionMeta {
    /// The session id of the token.
    pub session_id: String,
    /// The user of the token.
    pub sub: String,
    /// The id of the token.
    pub jti: String,
    /// For the logs.
    pub identifier: String,
    /// The nonce of the client.
    pub instance: String,
    pub kind: SessionKind,
    pub epoch: u64,
    pub client_build: String,
    pub client: ClientKind,
    /// Unix milliseconds of the attach.
    pub attached_at_ms: u64,
}

impl Clone for SessionMeta {
    fn clone(&self) -> (r: SessionMeta)
        ensures
            r == *self,
    {
        SessionMeta {
            session_id: self.session_id.clone(),
            sub: self.sub.clone(),
            jti: self.jti.clone(),
            identifier: self.identifier.clone(),
            instance: self.instance.clone(),
            kind: self.kind,
            epoch: self.epoch,
            client_build: self.client_build.clone(),
            client: self.client,
            attached_at_ms: self.attached_at_ms,
        }
    }
}

/// Why a session ended.
#[derive(Debug)]
pub enum SessionExit {
    /// The peer closed the socket, with this code if it sent one.
    PeerClosed { code: Option<u16> },
    /// Reading failed.
    ReadError(String),
    /// Writing failed.
    WriteError(String),
    /// A write took too long.
    SlowConsumer,
    /// The peer sent too large a frame.
    FrameTooLarge,
    /// Nothing came from the peer for too long.
    Dead,
    /// The broker closed the session with this code.
    Closed { code: u16 },
}

impl SessionExit {
    /// A short label for the logs.
    pub open spec fn label(self) -> Seq<char> {
        match self {
            SessionExit::PeerClosed { code: Some(code) } => "peer_closed("@ + decimal_digits(
                code as nat,
            ) + ")"@,
            SessionExit::PeerClosed { code: None } => "peer_closed"@,
            SessionExit::ReadError(error) => "read_error: "@ + error@,
            SessionExit::WriteError(error) => "write_error: "@ + error@,
            SessionExit::SlowConsumer => "slow_consumer"@,
            SessionExit::FrameTooLarge => "frame_too_large"@,
            SessionExit::Dead => "dead"@,
            SessionExit::Closed { code } => "closed("@ + decimal_digits(code as nat) + ")"@,
        }
    }

    /// A short label for the logs.
    pub fn reason(&self) -> (r: String)
        ensures
            r@ == self.label(),
    {
        match self {
            SessionExit::PeerClosed { code: Some(code) } => {
                let digits = decimal(*code as u64);
                concat3("peer_closed(", digits.as_str(), ")")
            },
            SessionExit::PeerClosed { code: None } => "peer_closed".to_owned(),
            SessionExit::ReadError(error) => {
                let mut r = "read_error: ".to_owned();
                r.append(error.as_str());
                r
            },
            SessionExit::WriteError(error) => {
                let mut r = "write_error: ".to_owned();
                r.append(error.as_str());
                r
            },
            SessionExit::SlowConsumer => "slow_consumer".to_owned(),
            SessionExit::FrameTooLarge => "frame_too_large".to_owned(),
            SessionExit::Dead => "dead".to_owned(),
            SessionExit::Closed { code } => {
                let digits = decimal(*code as u64);
                concat3("closed(", digits.as_str(), ")")
            },
        }
    }
}

/// A command to the broker. `W` is a socket, `R` is where an answer goes.
pub enum BrokerCommand<W, R> {
    /// A socket whose opening exchange succeeded.
    Attach { ws: W, hello: Hello, claims: Claims },
    /// Flush, close the session, stay alive.
    CloseSession { code: u16, reason: String },
    /// End the broker unless a session is attached.
    RetireIfDetached { done: R },
    /// Flush, close the session, quit.
    Shutdown { done: R },
}

/// What the broker was woken by.
pub enum BrokerEvent<W, R> {
    /// Time to look at the replay buffer again.
    ReplayCheck,
    /// A command, or none where every sender is gone.
    Command(Option<BrokerCommand<W, R>>),
    /// The session ended; `watermark` is one past the largest envelope id it received.
    SessionExited { watermark: u32 },
    /// An envelope of the server, or none where its channel is closed.
    Outgoing(Option<Envelope>),
}

/// Where the broker takes its next event from.
pub enum BrokerSource<W, R> {
    /// Right away, this event.
    Ready(BrokerEvent<W, R>),
    /// Whatever comes first: a command, the end of the session, one second, and, if
    /// `outgoing`, an envelope.
    Select { outgoing: bool },
    /// The next command.
    Command,
}

/// What to do about an event.
pub enum BrokerAction<W, R> {
    Continue,
    /// Close the session as [`SessionBroker::begin_close`] says, then end.
    CloseAndStop { code: u16, reason: &'static str },
    /// Attach a socket.
    Attach { ws: W, hello: Hello, claims: Claims },
    /// Close the session, then go on.
    Close { code: u16, reason: String },
    /// See whether the broker may end, and answer.
    Retire { done: R },
    /// Close the session, request to quit, answer, then end.
    CloseAndQuit { code: u16, reason: &'static str, done: R },
    /// Report the session that ended.
    Detached { meta: SessionMeta },
    /// Send an envelope.
    Pump { envelope: Envelope },
}

/// An order to close a socket.
#[derive(Debug, Clone, Copy)]
pub struct CloseOrder {
    pub code: u16,
    pub reason: &'static str,
}

/// How a client's wish to attach is seen.
#[derive(Debug, Clone, Copy, PartialEq, Eq, Structural)]
pub enum Classification {
    Fresh,
    Reconnect(u64),
    StaleEpoch,
}

/// What an attach needs done before it can go through.
pub enum AttachPlan {
    /// Refuse the socket.
    Refuse(CloseOrder),
    /// Close the attached session, if there is one, with this order, and where `kind` is
    /// fresh, start a fresh session.
    Proceed { kind: SessionKind, close: Option<CloseOrder> },
}

/// What came of the preparations that an [`AttachPlan`] asked for.
#[derive(Debug, Clone, Copy)]
pub struct AttachResults {
    /// Whether the replay buffer can still be replayed.
    pub replay_healthy: bool,
    /// The watermark of the session that was closed, if one was.
    pub closed_watermark: u32,
    /// Whether a fresh session could be started, where one was asked for.
    pub fresh_ready: bool,
}

/// What the server tells every client about itself.
pub struct ServerFacts {
    pub replica_id: u16,
    pub build: String,
    pub os: String,
    pub arch: String,
    pub os_version: Option<String>,
    pub shell: String,
}

/// An attach that went through.
pub struct Attachment {
    pub meta: SessionMeta,
    pub ack: HelloAck,
    /// Envelopes below this id were received before.
    pub watermark: u32,
    /// Whether the previous session was another user's.
    pub user_changed: bool,
}

/// How an attach ended.
pub enum AttachOutcome {
    Refused(CloseOrder),
    Attached(Attachment),
}

/// What becomes of an envelope on its way out.
pub enum FramePlan {
    /// No session is attached.
    NotAttached,
    /// It answers a request that this session never received.
    Stale,
    /// It goes out as it is.
    Send,
    /// It is too large: it leaves the replay buffer, and where it answered a request this
    /// reply takes its place in the buffer and on the wire.
    Replace(Option<Envelope>),
}

/// How waiting for room in the session's queue ended.
pub enum PumpOutcome<W, R> {
    /// A command came first, or the end of the commands.
    Preempted(Option<BrokerCommand<W, R>>),
    /// A second passed.
    TimedOut,
    /// The frame is in the queue.
    Sent,
    /// The session dropped its queue; `watermark` is its last watermark.
    QueueGone { watermark: u32 },
}

/// The epoch of the attach with this number.
pub open spec fn epoch_at(base: u64, seq: u64) -> u64 {
    if base + seq > u64::MAX {
        (base + seq - u64::MAX - 1) as u64
    } else {
        (base + seq) as u64
    }
}

/// Owns the arbitration between the sockets of one participant.
pub struct SessionBroker<W, R> {
    /// The attached session.
    pub current: Option<SessionMeta>,
    /// Whether the channel of the server's envelopes is closed.
    pub outgoing_closed: bool,
    pub epoch_base: u64,
    /// The number of fresh sessions so far.
    pub attach_seq: u64,
    pub current_epoch: Option<u64>,
    /// The instance that the current epoch belongs to.
    pub current_instance: Option<String>,
    /// The watermark of the last session that ended under the current epoch.
    pub last_watermark: u32,
    pub last_sub: Option<String>,
    /// A command that preempted an envelope.
    pub stashed: Option<BrokerCommand<W, R>>,
    /// An envelope that was taken from the channel and not delivered.
    pub pending_outgoing: Option<Envelope>,
}

impl<W, R> SessionBroker<W, R> {
    /// An attached session runs under the current epoch and belongs to its instance, and
    /// the current epoch is that of the latest fresh session.
    pub open spec fn wf(self) -> bool {
        &&& self.current_epoch is Some <==> self.attach_seq > 0
        &&& self.current_instance is Some <==> self.attach_seq > 0
        &&& self.current_epoch is Some ==> self.current_epoch->0 == epoch_at(
            self.epoch_base,
            self.attach_seq,
        )
        &&& match self.current {
            Some(meta) => {
                &&& self.current_epoch == Some(meta.epoch)
                &&& self.current_instance is Some
                &&& self.current_instance->0@ == meta.instance@
                &&& self.last_sub is Some
                &&& self.last_sub->0@ == meta.sub@
            },
            None => true,
        }
    }

    /// A broker of a process that started at this time, in unix milliseconds.
    pub fn new(start_ms: u64) -> (r: SessionBroker<W, R>)
        ensures
            r.wf(),
            r.current is None,
            !r.outgoing_closed,
            r.epoch_base == start_ms << EPOCH_SEQ_BITS,
            r.attach_seq == 0,
            r.current_epoch is None,
            r.current_instance is None,
            r.last_watermark == 0,
            r.last_sub is None,
            r.stashed is None,
            r.pending_outgoing is None,
    {
        SessionBroker {
            current: None,
            outgoing_closed: false,
            epoch_base: start_ms << EPOCH_SEQ_BITS,
            attach_seq: 0,
            current_epoch: None,
            current_instance: None,
            last_watermark: 0,
            last_sub: None,
            stashed: None,
            pending_outgoing: None,
        }
    }

    /// The close that is due where the replay buffer overflowed under an attached session.
    pub fn replay_guard(&self, replay_healthy: bool) -> (r: Option<CloseOrder>)
        ensures
            r is Some <==> self.current is Some && !replay_healthy,
            r is Some ==> r->0.code == CLOSE_TAKEN_OVER && r->0.reason@
                == CLOSE_REASON_STALE_EPOCH@,
    {
        if self.current.is_some() && !replay_healthy {
            Some(CloseOrder { code: CLOSE_TAKEN_OVER, reason: CLOSE_REASON_STALE_EPOCH })
        } else {
            None
        }
    }

    /// Where the next event comes from, and the broker once it was taken: a stashed command
    /// comes first, then an envelope that waits for the session, then the outside.
    pub open spec fn source_of(self) -> (BrokerSource<W, R>, Self) {
        match self.stashed {
            Some(command) => (
                BrokerSource::Ready(BrokerEvent::Command(Some(command))),
                SessionBroker { stashed: None, ..self },
            ),
            None => match (self.current, self.pending_outgoing) {
                (Some(_), Some(envelope)) => (
                    BrokerSource::Ready(BrokerEvent::Outgoing(Some(envelope))),
                    SessionBroker { pending_outgoing: None, ..self },
                ),
                (Some(_), None) => (
                    BrokerSource::Select { outgoing: !self.outgoing_closed },
                    self,
                ),
                (None, _) => (BrokerSource::Command, self),
            },
        }
    }

    /// Where the next event comes from.
    pub fn next_source(&mut self) -> (r: BrokerSource<W, R>)
        ensures
            (r, *final(self)) == old(self).source_of(),
            old(self).wf() ==> final(self).wf(),
    {
        if self.stashed.is_some() {
            let command = self.stashed.take();
            return BrokerSource::Ready(BrokerEvent::Command(command));
        }
        if self.current.is_some() {
            if self.pending_outgoing.is_some() {
                let envelope = self.pending_outgoing.take();
                return BrokerSource::Ready(BrokerEvent::Outgoing(envelope));
            }
            return BrokerSource::Select { outgoing: !self.outgoing_closed };
        }
        BrokerSource::Command
    }

    /// What to do about an event, and the broker then.
    pub open spec fn dispatched(
        self,
        event: BrokerEvent<W, R>,
        action: BrokerAction<W, R>,
        after: Self,
    ) -> bool {
        match event {
            BrokerEvent::ReplayCheck => action == BrokerAction::<W, R>::Continue && after
                == self,
            BrokerEvent::Command(None) => {
                &&& action matches BrokerAction::CloseAndStop { code, reason }
                &&& code == CLOSE_STOPPING
                &&& reason@ == "server going away"@
                &&& after == self
            },
            BrokerEvent::Command(Some(BrokerCommand::Attach { ws, hello, claims })) => action == (
            BrokerAction::<W, R>::Attach { ws, hello, claims }) && after == self,
            BrokerEvent::Command(Some(BrokerCommand::CloseSession { code, reason })) => action == (
            BrokerAction::<W, R>::Close { code, reason }) && after == self,
            BrokerEvent::Command(Some(BrokerCommand::RetireIfDetached { done })) => action == (
            BrokerAction::<W, R>::Retire { done }) && after == self,
            BrokerEvent::Command(Some(BrokerCommand::Shutdown { done })) => {
                &&& action matches BrokerAction::CloseAndQuit { code, reason, done: d }
                &&& code == CLOSE_STOPPING
                &&& reason@ == "server shutting down"@
                &&& d == done
                &&& after == self
            },
            BrokerEvent::SessionExited { watermark } => match self.current {
                Some(meta) => {
                    &&& action == (BrokerAction::<W, R>::Detached { meta })
                    &&& after == (SessionBroker {
                        current: None,
                        last_watermark: watermark,
                        ..self
                    })
                },
                None => action == BrokerAction::<W, R>::Continue && after == self,
            },
            BrokerEvent::Outgoing(None) => {
                &&& action == BrokerAction::<W, R>::Continue
                &&& after == (SessionBroker { outgoing_closed: true, ..self })
            },
            BrokerEvent::Outgoing(Some(envelope)) => action == (BrokerAction::<W, R>::Pump {
                envelope,
            }) && after == self,
        }
    }

    /// What to do about an event.
    pub fn dispatch(&mut self, event: BrokerEvent<W, R>) -> (r: BrokerAction<W, R>)
        requires
            old(self).wf(),
        ensures
            final(self).wf(),
            old(self).dispatched(event, r, *final(self)),
    {
        match event {
            BrokerEvent::ReplayCheck => BrokerAction::Continue,
            BrokerEvent::Command(None) => BrokerAction::CloseAndStop {
                code: CLOSE_STOPPING,
                reason: "server going away",
            },
            BrokerEvent::Command(Some(BrokerCommand::Attach { ws, hello, claims })) => {
                BrokerAction::Attach { ws, hello, claims }
            },
            BrokerEvent::Command(Some(BrokerCommand::CloseSession { code, reason })) => {
                BrokerAction::Close { code, reason }
            },
            BrokerEvent::Command(Some(BrokerCommand::RetireIfDetached { done })) => {
                BrokerAction::Retire { done }
            },
            BrokerEvent::Command(Some(BrokerCommand::Shutdown { done })) => {
                BrokerAction::CloseAndQuit {
                    code: CLOSE_STOPPING,
                    reason: "server shutting down",
                    done,
                }
            },
            BrokerEvent::SessionExited { watermark } => match self.detach(watermark) {
                Some(meta) => BrokerAction::Detached { meta },
                None => BrokerAction::Continue,
            },
            BrokerEvent::Outgoing(None) => {
                self.outgoing_closed = true;
                BrokerAction::Continue
            },
            BrokerEvent::Outgoing(Some(envelope)) => BrokerAction::Pump { envelope },
        }
    }

    /// How a client's wish to attach is seen: an epoch is resumed only under its own number
    /// and by its own instance; a client that asks for another epoch is stale; before the
    /// first session there is nothing to resume.
    pub open spec fn class_of(self, hello: Hello) -> Classification {
        match (hello.epoch, self.current_epoch) {
            (Some(epoch), Some(current)) => if !hello.reconnect {
                Classification::Fresh
            } else if epoch != current {
                Classification::StaleEpoch
            } else if self.current_instance is Some && self.current_instance->0@
                == hello.instance@ {
                Classification::Reconnect(epoch)
            } else {
                Classification::Fresh
            },
            _ => Classification::Fresh,
        }
    }

    /// How a client's wish to attach is seen.
    pub fn classify(&self, hello: &Hello) -> (r: Classification)
        ensures
            r == self.class_of(*hello),
    {
        if !hello.reconnect {
            return Classification::Fresh;
        }
        match (hello.epoch, self.current_epoch) {
            (Some(epoch), Some(current)) => {
                if epoch != current {
                    return Classification::StaleEpoch;
                }
                match &self.current_instance {
                    Some(instance) => if same(instance.as_str(), hello.instance.as_str()) {
                        Classification::Reconnect(epoch)
                    } else {
                        Classification::Fresh
                    },
                    None => Classification::Fresh,
                }
            },
            _ => Classification::Fresh,
        }
    }

    /// A client is refused where it wants to go on with an epoch that cannot be resumed.
    pub open spec fn refuses(self, hello: Hello, replay_healthy: bool) -> bool {
        (hello.reconnect && !replay_healthy) || self.class_of(hello) == Classification::StaleEpoch
    }

    /// Whether an attach that is not refused resumes the current epoch.
    pub open spec fn resumes(self, hello: Hello) -> bool {
        self.class_of(hello) is Reconnect
    }

    /// Whether an attach begins a session: it is not refused, does not resume one, and a
    /// session could be started.
    pub open spec fn begins_session(self, hello: Hello, results: AttachResults) -> bool {
        !self.refuses(hello, results.replay_healthy) && !self.resumes(hello) && results.fresh_ready
    }

    /// What an attach needs done before it can go through.
    pub open spec fn planned(self, hello: Hello, replay_healthy: bool, plan: AttachPlan) -> bool {
        match plan {
            AttachPlan::Refuse(order) => {
                &&& self.refuses(hello, replay_healthy)
                &&& order.code == CLOSE_TAKEN_OVER
                &&& order.reason@ == CLOSE_REASON_STALE_EPOCH@
            },
            AttachPlan::Proceed { kind, close } => {
                &&& !self.refuses(hello, replay_healthy)
                &&& kind == if self.resumes(hello) {
                    SessionKind::Reconnect
                } else {
                    SessionKind::Fresh
                }
                &&& close is Some <==> self.current is Some
                &&& close is Some ==> if kind == SessionKind::Reconnect {
                    close->0.code == CLOSE_SUPERSEDED && close->0.reason@
                        == "superseded by reconnect"@
                } else {
                    close->0.code == CLOSE_TAKEN_OVER && close->0.reason@
                        == "replaced by participant reload"@
                }
            },
        }
    }

    /// What an attach needs done before it can go through. A session that already ended
    /// must have been reported before.
    pub fn plan_attach(&self, hello: &Hello, replay_healthy: bool) -> (r: AttachPlan)
        ensures
            self.planned(*hello, replay_healthy, r),
    {
        let stale = CloseOrder { code: CLOSE_TAKEN_OVER, reason: CLOSE_REASON_STALE_EPOCH };
        if hello.reconnect && !replay_healthy {
            return AttachPlan::Refuse(stale);
        }
        match self.classify(hello) {
            Classification::StaleEpoch => AttachPlan::Refuse(stale),
            Classification::Reconnect(_) => {
                let close = if self.current.is_some() {
                    Some(CloseOrder { code: CLOSE_SUPERSEDED, reason: "superseded by reconnect" })
                } else {
                    None
                };
                AttachPlan::Proceed { kind: SessionKind::Reconnect, close }
            },
            Classification::Fresh => {
                let close = if self.current.is_some() {
                    Some(
                        CloseOrder {
                            code: CLOSE_TAKEN_OVER,
                            reason: "replaced by participant reload",
                        },
                    )
                } else {
                    None
                };
                AttachPlan::Proceed { kind: SessionKind::Fresh, close }
            },
        }
    }

    /// The broker after the preparations of an attach: an attached session was closed, and
    /// where the attach starts a session and one could be started, its epoch begins.
    pub open spec fn prepared(self, hello: Hello, results: AttachResults) -> Self {
        let closed = self.detached(results.closed_watermark);
        if self.resumes(hello) || !results.fresh_ready {
            closed
        } else {
            SessionBroker {
                outgoing_closed: false,
                pending_outgoing: None,
                attach_seq: (self.attach_seq + 1) as u64,
                current_epoch: Some(epoch_at(self.epoch_base, (self.attach_seq + 1) as u64)),
                current_instance: Some(hello.instance),
                last_watermark: 0,
                ..closed
            }
        }
    }

    /// How an attach ends, and the broker then.
    pub open spec fn attached(
        self,
        hello: Hello,
        claims: Claims,
        results: AttachResults,
        server: ServerFacts,
        protocol: u32,
        now_ms: u64,
        outcome: AttachOutcome,
        after: Self,
    ) -> bool {
        if self.refuses(hello, results.replay_healthy) {
            &&& outcome matches AttachOutcome::Refused(order)
            &&& order.code == CLOSE_TAKEN_OVER
            &&& order.reason@ == CLOSE_REASON_STALE_EPOCH@
            &&& after == self
        } else if !self.resumes(hello) && !results.fresh_ready {
            &&& outcome matches AttachOutcome::Refused(order)
            &&& order.code == CLOSE_INTERNAL_ERROR
            &&& order.reason@ == "server not ready"@
            &&& after == self.prepared(hello, results)
        } else {
            let ready = self.prepared(hello, results);
            &&& outcome matches AttachOutcome::Attached(a)
            &&& after == (SessionBroker { last_sub: Some(claims.sub), ..ready })
            &&& ready.current_epoch == Some(a.meta.epoch)
            &&& a.meta.session_id == claims.sid
            &&& a.meta.sub == claims.sub
            &&& a.meta.jti == claims.jti
            &&& a.meta.identifier == hello.identifier
            &&& a.meta.instance == hello.instance
            &&& a.meta.kind == if self.resumes(hello) {
                SessionKind::Reconnect
            } else {
                SessionKind::Fresh
            }
            &&& a.meta.client_build == hello.build
            &&& a.meta.client == hello.client
            &&& a.meta.attached_at_ms == now_ms
            &&& a.ack.replica_id == server.replica_id
            &&& a.ack.protocol == protocol
            &&& a.ack.build == server.build
            &&& a.ack.os == server.os
            &&& a.ack.arch == server.arch
            &&& a.ack.os_version == server.os_version
            &&& a.ack.shell == server.shell
            &&& a.ack.resumed == self.resumes(hello)
            &&& a.ack.session_id == claims.sid
            &&& a.ack.epoch == a.meta.epoch
            &&& a.watermark == ready.last_watermark
            &&& a.user_changed == (self.last_sub is Some && self.last_sub->0@ != claims.sub@)
        }
    }

    /// Attaches a client, given what came of the preparations that
    /// [`plan_attach`](Self::plan_attach) asked for. The session counts as attached once
    /// [`activate`](Self::activate) is told so.
    pub fn attach(
        &mut self,
        hello: &Hello,
        claims: &Claims,
        results: AttachResults,
        server: &ServerFacts,
        protocol: u32,
        now_ms: u64,
    ) -> (r: AttachOutcome)
        requires
            old(self).wf(),
            old(self).begins_session(*hello, results) ==> old(self).attach_seq < u64::MAX,
        ensures
            final(self).wf(),
            old(self).attached(
                *hello,
                *claims,
                results,
                *server,
                protocol,
                now_ms,
                r,
                *final(self),
            ),
    {
        if hello.reconnect && !results.replay_healthy {
            return AttachOutcome::Refused(
                CloseOrder { code: CLOSE_TAKEN_OVER, reason: CLOSE_REASON_STALE_EPOCH },
            );
        }
        let class = self.classify(hello);
        if class == Classification::StaleEpoch {
            return AttachOutcome::Refused(
                CloseOrder { code: CLOSE_TAKEN_OVER, reason: CLOSE_REASON_STALE_EPOCH },
            );
        }
        let _ = self.detach(results.closed_watermark);
        let (kind, epoch) = match class {
            Classification::Reconnect(epoch) => (SessionKind::Reconnect, epoch),
            _ => {
                if !results.fresh_ready {
                    return AttachOutcome::Refused(
                        CloseOrder { code: CLOSE_INTERNAL_ERROR, reason: "server not ready" },
                    );
                }
                self.outgoing_closed = false;
                self.pending_outgoing = None;
                self.attach_seq = self.attach_seq + 1;
                let epoch: u64 = self.epoch_base.wrapping_add(self.attach_seq);
                self.current_epoch = Some(epoch);
                self.current_instance = Some(hello.instance.clone());
                self.last_watermark = 0;
                (SessionKind::Fresh, epoch)
            },
        };
        let user_changed = match &self.last_sub {
            Some(previous) => !same(previous.as_str(), claims.sub.as_str()),
            None => false,
        };
        self.last_sub = Some(claims.sub.clone());
        let meta = SessionMeta {
            session_id: claims.sid.clone(),
            sub: claims.sub.clone(),
            jti: claims.jti.clone(),
            identifier: hello.identifier.clone(),
            instance: hello.instance.clone(),
            kind,
            epoch,
            client_build: hello.build.clone(),
            client: hello.client,
            attached_at_ms: now_ms,
        };
        let os_version = match &server.os_version {
            Some(version) => Some(version.clone()),
            None => None,
        };
        let ack = HelloAck {
            replica_id: server.replica_id,
            protocol,
            build: server.build.clone(),
            os: server.os.clone(),
            arch: server.arch.clone(),
            os_version,
            shell: server.shell.clone(),
            resumed: kind == SessionKind::Reconnect,
            session_id: claims.sid.clone(),
            epoch,
        };
        AttachOutcome::Attached(
            Attachment { meta, ack, watermark: self.last_watermark, user_changed },
        )
    }

    /// Counts a session as attached.
    pub fn activate(&mut self, meta: SessionMeta)
        requires
            old(self).wf(),
            old(self).current is None,
            old(self).current_epoch == Some(meta.epoch),
            old(self).current_instance is Some,
            old(self).current_instance->0@ == meta.instance@,
            old(self).last_sub is Some,
            old(self).last_sub->0@ == meta.sub@,
        ensures
            final(self).wf(),
            *final(self) == (SessionBroker { current: Some(meta), ..*old(self) }),
    {
        self.current = Some(meta);
    }

    /// Takes the attached session off, if there is one, and keeps its watermark.
    pub fn detach(&mut self, watermark: u32) -> (r: Option<SessionMeta>)
        ensures
            r == old(self).current,
            *final(self) == old(self).detached(watermark),
            old(self).wf() ==> final(self).wf(),
    {
        let session = self.current.take();
        if session.is_some() {
            self.last_watermark = watermark;
        }
        session
    }

    /// Whether the broker may end: never while a session is attached.
    pub fn may_retire(&self) -> (r: bool)
        ensures
            r == (self.current is None),
    {
        self.current.is_none()
    }

    /// What becomes of an envelope on its way out.
    pub open spec fn framed(
        self,
        envelope: Envelope,
        watermark: u32,
        encoded_len: usize,
        limits: WireLimits,
        plan: FramePlan,
    ) -> bool {
        match plan {
            FramePlan::NotAttached => self.current is None,
            FramePlan::Stale => self.current is Some && stale_response(envelope, watermark),
            FramePlan::Send => self.current is Some && !stale_response(envelope, watermark)
                && encoded_len <= limits.max_frame_bytes,
            FramePlan::Replace(reply) => {
                &&& self.current is Some
                &&& !stale_response(envelope, watermark)
                &&& encoded_len > limits.max_frame_bytes
                &&& reply is Some <==> envelope.responding_to is Some
                &&& reply is Some ==> is_oversize_reply(
                    reply->0,
                    envelope,
                    encoded_len,
                    limits.max_frame_bytes,
                )
            },
        }
    }

    /// What becomes of an envelope on its way out. `watermark` is that of the attached
    /// session, `encoded_len` the size of the envelope's frame.
    pub fn prepare_frame(
        &self,
        envelope: &Envelope,
        watermark: u32,
        encoded_len: usize,
        limits: &WireLimits,
    ) -> (r: FramePlan)
        ensures
            self.framed(*envelope, watermark, encoded_len, *limits, r),
    {
        if self.current.is_none() {
            return FramePlan::NotAttached;
        }
        if let Some(responding_to) = envelope.responding_to {
            if responding_to >= watermark {
                return FramePlan::Stale;
            }
        }
        if encoded_len <= limits.max_frame_bytes {
            return FramePlan::Send;
        }
        match envelope.responding_to {
            None => FramePlan::Replace(None),
            Some(responding_to) => {
                let message = oversize_message(encoded_len, limits.max_frame_bytes);
                FramePlan::Replace(
                    Some(
                        Envelope {
                            id: envelope.id,
                            responding_to: Some(responding_to),
                            original_sender_id: None,
                            ack_id: envelope.ack_id,
                            payload: Some(Payload::Error { message }),
                        },
                    ),
                )
            },
        }
    }

    /// Keeps an envelope until a session of the same epoch is attached.
    pub fn keep_pending(&mut self, envelope: Envelope)
        ensures
            *final(self) == (SessionBroker { pending_outgoing: Some(envelope), ..*old(self) }),
            old(self).wf() ==> final(self).wf(),
    {
        self.pending_outgoing = Some(envelope);
    }

    /// The broker after the session ended, if one was attached.
    pub open spec fn detached(self, watermark: u32) -> Self {
        match self.current {
            Some(_) => SessionBroker { current: None, last_watermark: watermark, ..self },
            None => self,
        }
    }

    /// The broker after waiting for room in the session's queue ended.
    pub open spec fn pumped(self, envelope: Envelope, outcome: PumpOutcome<W, R>) -> Self {
        match outcome {
            PumpOutcome::Preempted(command) => SessionBroker {
                stashed: command,
                pending_outgoing: Some(envelope),
                ..self
            },
            PumpOutcome::TimedOut => SessionBroker { pending_outgoing: Some(envelope), ..self },
            PumpOutcome::Sent => self,
            PumpOutcome::QueueGone { watermark } => SessionBroker {
                pending_outgoing: Some(envelope),
                ..self.detached(watermark)
            },
        }
    }

    /// Takes in how waiting for room in the session's queue ended. An envelope that did not
    /// go out is kept, and a command that came first is handled next. Returns the session
    /// that turned out to have ended.
    pub fn pump(&mut self, envelope: Envelope, outcome: PumpOutcome<W, R>) -> (r: Option<
        SessionMeta,
    >)
        requires
            old(self).wf(),
        ensures
            final(self).wf(),
            *final(self) == old(self).pumped(envelope, outcome),
            r == if outcome is QueueGone {
                old(self).current
            } else {
                None
            },
    {
        match outcome {
            PumpOutcome::Preempted(command) => {
                self.stashed = command;
                self.pending_outgoing = Some(envelope);
                None
            },
            PumpOutcome::TimedOut => {
                self.pending_outgoing = Some(envelope);
                None
            },
            PumpOutcome::Sent => None,
            PumpOutcome::QueueGone { watermark } => {
                let session = self.detach(watermark);
                self.pending_outgoing = Some(envelope);
                session
            },
        }
    }

    /// Takes in how sending an envelope before a deadline ended; one that did not go out is
    /// kept. Returns whether draining may go on.
    pub fn send_before(&mut self, envelope: Envelope, plan: &FramePlan, sent: bool) -> (r: bool)
        ensures
            r == handled(*plan, sent),
            *final(self) == if r {
                *old(self)
            } else {
                SessionBroker { pending_outgoing: Some(envelope), ..*old(self) }
            },
            old(self).wf() ==> final(self).wf(),
    {
        let done = match plan {
            FramePlan::NotAttached => false,
            FramePlan::Stale => true,
            FramePlan::Replace(None) => true,
            FramePlan::Send => sent,
            FramePlan::Replace(Some(_)) => sent,
        };
        if !done {
            self.pending_outgoing = Some(envelope);
        }
        done
    }

    /// What the flush before a close does next, and the broker then. An envelope that waits
    /// goes first, then those of the channel, until it has none left or time is up.
    pub open spec fn drained(self, past_deadline: bool, received: DrainInput) -> (DrainStep, Self) {
        match self.pending_outgoing {
            Some(envelope) => (
                DrainStep::Send(envelope),
                SessionBroker { pending_outgoing: None, ..self },
            ),
            None => if self.outgoing_closed || past_deadline {
                (DrainStep::Done, self)
            } else {
                match received {
                    DrainInput::Envelope(envelope) => (DrainStep::Send(envelope), self),
                    DrainInput::Nothing => (DrainStep::Done, self),
                    DrainInput::Ended => (
                        DrainStep::Done,
                        SessionBroker { outgoing_closed: true, ..self },
                    ),
                }
            },
        }
    }

    /// Whether the flush before a close looks into the channel of the server's envelopes: not
    /// while an envelope waits, not once the channel is closed, and not when time is up.
    pub fn drains_channel(&self, past_deadline: bool) -> (r: bool)
        ensures
            r == (self.pending_outgoing is None && !self.outgoing_closed && !past_deadline),
    {
        self.pending_outgoing.is_none() && !self.outgoing_closed && !past_deadline
    }

    /// What the flush before a close does next. `received` is what the channel of the
    /// server's envelopes gave without waiting: an envelope, nothing yet, or its end. It is
    /// looked at only where [`drains_channel`](Self::drains_channel) says so, and may be
    /// [`DrainInput::Nothing`] otherwise.
    pub fn drain_outgoing(&mut self, past_deadline: bool, received: DrainInput) -> (r: DrainStep)
        requires
            old(self).wf(),
        ensures
            final(self).wf(),
            (r, *final(self)) == old(self).drained(past_deadline, received),
    {
        if self.pending_outgoing.is_some() {
            let pending = self.pending_outgoing.take();
            if let Some(envelope) = pending {
                return DrainStep::Send(envelope);
            }
        }
        if self.outgoing_closed || past_deadline {
            return DrainStep::Done;
        }
        match received {
            DrainInput::Envelope(envelope) => DrainStep::Send(envelope),
            DrainInput::Nothing => DrainStep::Done,
            DrainInput::Ended => {
                self.outgoing_closed = true;
                DrainStep::Done
            },
        }
    }

    /// Whether a close has anything to do: without a session it has not.
    pub fn begin_close(&self) -> (r: bool)
        ensures
            r == (self.current is Some),
    {
        self.current.is_some()
    }
}

/// What the channel of the server's envelopes gave.
pub enum DrainInput {
    Envelope(Envelope),
    Nothing,
    Ended,
}

/// What the flush before a close does next.
pub enum DrainStep {
    Send(Envelope),
    Done,
}

/// Whether an envelope is done with, given what became of it.
pub open spec fn handled(plan: FramePlan, sent: bool) -> bool {
    match plan {
        FramePlan::NotAttached => false,
        FramePlan::Stale => true,
        FramePlan::Replace(None) => true,
        FramePlan::Send | FramePlan::Replace(Some(_)) => sent,
    }
}

/// A response to a request that the session with this watermark never received.
pub open spec fn stale_response(envelope: Envelope, watermark: u32) -> bool {
    envelope.responding_to is Some && envelope.responding_to->0 >= watermark
}

/// The text of the error that stands for an envelope that is too large.
pub open spec fn oversize_text(len: nat, limit: nat) -> Seq<char> {
    "message too large for the WebSocket transport ("@ + decimal_digits(len) + " bytes, limit "@
        + decimal_digits(limit) + ")"@
}

fn oversize_message(len: usize, limit: usize) -> (r: String)
    ensures
        r@ == oversize_text(len as nat, limit as nat),
{
    let mut r = "message too large for the WebSocket transport (".to_owned();
    r.append(decimal(len as u64).as_str());
    r.append(" bytes, limit ");
    r.append(decimal(limit as u64).as_str());
    r.append(")");
    r
}

/// The reply that takes the place of a response that is too large: an error under the
/// same id, to the same request.
pub open spec fn is_oversize_reply(
    reply: Envelope,
    envelope: Envelope,
    len: usize,
    limit: usize,
) -> bool {
    &&& reply.id == envelope.id
    &&& reply.responding_to == envelope.responding_to
    &&& reply.original_sender_id is None
    &&& reply.ack_id == envelope.ack_id
    &&& reply.payload matches Some(Payload::Error { message })
    &&& message@ == oversize_text(len as nat, limit as nat)
}

/// Epochs of one process grow from one fresh session to the next.
pub proof fn law_epochs_grow(base: u64, seq: u64)
    requires
        base + seq + 1 <= u64::MAX,
    ensures
        epoch_at(base, seq) < epoch_at(base, (seq + 1) as u64),
{
}

/// No epoch of a process that started later equals one of an earlier process: each is
/// larger than all of the earlier, as long as the earlier process had no more fresh
/// sessions than fit into an epoch's lower bits.
pub proof fn law_epochs_grow_across_restarts(start: u64, seq: u64, later_start: u64, later_seq: u64)
    requires
        start < later_start,
        later_start < 0x1_0000_0000_0000,
        seq < 0x1_0000,
        1 <= later_seq < 0x1_0000,
    ensures
        epoch_at(start << EPOCH_SEQ_BITS, seq) < epoch_at(
            later_start << EPOCH_SEQ_BITS,
            later_seq,
        ),
{
    assert(start << 16u32 == start * 0x1_0000) by (bit_vector)
        requires
            start < 0x1_0000_0000_0000,
    ;
    assert(later_start << 16u32 == later_start * 0x1_0000) by (bit_vector)
        requires
            later_start < 0x1_0000_0000_0000,
    ;
}

/// Only the instance that an epoch was given to can resume it, and only by naming it.
pub proof fn law_only_the_owner_resumes<W, R>(broker: SessionBroker<W, R>, hello: Hello)
    requires
        broker.wf(),
        broker.resumes(hello),
    ensures
        hello.reconnect,
        hello.epoch is Some,
        broker.current_epoch == hello.epoch,
        hello.epoch->0 == epoch_at(broker.epoch_base, broker.attach_seq),
        broker.current_instance is Some && broker.current_instance->0@ == hello.instance@,
{
}

/// The owner of the current epoch that asks for it is never refused while the replay
/// buffer is healthy, whether or not its old socket is still attached, and resumes.
pub proof fn law_the_owner_is_resumed<W, R>(broker: SessionBroker<W, R>, hello: Hello)
    requires
        broker.wf(),
        hello.reconnect,
        hello.epoch is Some,
        hello.epoch == broker.current_epoch,
        broker.current_instance->0@ == hello.instance@,
    ensures
        broker.resumes(hello),
        !broker.refuses(hello, true),
{
}

/// The owner of the current epoch gets its session back, whatever its token's session id:
/// the old socket, where there still is one, is closed as superseded, no session is begun,
/// and the client is told that it resumed the same epoch, under the id of its new token. The
/// envelope that waits, the channel and the watermark stay.
pub proof fn law_a_session_is_given_back<W, R>(
    broker: SessionBroker<W, R>,
    hello: Hello,
    claims: Claims,
    results: AttachResults,
    server: ServerFacts,
    protocol: u32,
    now_ms: u64,
    plan: AttachPlan,
    outcome: AttachOutcome,
    after: SessionBroker<W, R>,
)
    requires
        broker.wf(),
        hello.reconnect,
        hello.epoch is Some,
        hello.epoch == broker.current_epoch,
        broker.current_instance->0@ == hello.instance@,
        results.replay_healthy,
        broker.planned(hello, results.replay_healthy, plan),
        broker.attached(hello, claims, results, server, protocol, now_ms, outcome, after),
    ensures
        ({
            &&& plan matches AttachPlan::Proceed { kind, close }
            &&& kind == SessionKind::Reconnect
            &&& close is Some <==> broker.current is Some
            &&& close matches Some(order) ==> order.code == CLOSE_SUPERSEDED && order.reason@
                == "superseded by reconnect"@
        }),
        ({
            &&& outcome matches AttachOutcome::Attached(a)
            &&& a.ack.resumed
            &&& Some(a.ack.epoch) == hello.epoch
            &&& a.ack.session_id == claims.sid
            &&& a.watermark == if broker.current is Some {
                results.closed_watermark
            } else {
                broker.last_watermark
            }
        }),
        !broker.begins_session(hello, results),
        after.attach_seq == broker.attach_seq,
        after.current_epoch == broker.current_epoch,
        after.pending_outgoing == broker.pending_outgoing,
        after.outgoing_closed == broker.outgoing_closed,
        after.stashed == broker.stashed,
{
    law_the_owner_is_resumed(broker, hello);
}

/// A client that does not ask to resume is never refused for what went before it.
pub proof fn law_fresh_clients_are_not_refused<W, R>(
    broker: SessionBroker<W, R>,
    hello: Hello,
    replay_healthy: bool,
)
    requires
        !hello.reconnect,
    ensures
        !broker.refuses(hello, replay_healthy),
        !broker.resumes(hello),
{
}

/// A resumed session keeps the epoch, the undelivered envelope, the open channel and the
/// watermark of the socket that it replaces.
pub proof fn law_resume_keeps_the_queue<W, R>(
    broker: SessionBroker<W, R>,
    hello: Hello,
    results: AttachResults,
)
    requires
        broker.resumes(hello),
    ensures
        ({
            let after = broker.prepared(hello, results);
            &&& after.current_epoch == broker.current_epoch
            &&& after.attach_seq == broker.attach_seq
            &&& after.pending_outgoing == broker.pending_outgoing
            &&& after.outgoing_closed == broker.outgoing_closed
            &&& broker.current is Some ==> after.last_watermark == results.closed_watermark
            &&& broker.current is None ==> after.last_watermark == broker.last_watermark
        }),
{
}

/// A fresh session starts under an epoch of its own, with nothing left of the one before:
/// no envelope waits, and every response to an earlier request is stale.
pub proof fn law_fresh_session_starts_clean<W, R>(
    broker: SessionBroker<W, R>,
    hello: Hello,
    results: AttachResults,
    envelope: Envelope,
)
    requires
        broker.wf(),
        broker.epoch_base + broker.attach_seq + 1 <= u64::MAX,
        !broker.resumes(hello),
        results.fresh_ready,
    ensures
        ({
            let after = broker.prepared(hello, results);
            &&& after.current_epoch is Some
            &&& broker.current_epoch is Some ==> broker.current_epoch->0 < after.current_epoch->0
            &&& after.pending_outgoing is None
            &&& !after.outgoing_closed
            &&& envelope.responding_to is Some ==> stale_response(envelope, after.last_watermark)
        }),
{
}

/// Once another session is current, a client that asks for an earlier epoch is refused.
pub proof fn law_replaced_epoch_is_stale<W, R>(
    broker: SessionBroker<W, R>,
    first: Hello,
    results: AttachResults,
    again: Hello,
    replay_healthy: bool,
)
    requires
        broker.wf(),
        broker.epoch_base + broker.attach_seq + 1 <= u64::MAX,
        broker.current_epoch is Some,
        !broker.resumes(first),
        results.fresh_ready,
        again.reconnect,
        again.epoch == broker.current_epoch,
    ensures
        broker.prepared(first, results).refuses(again, replay_healthy),
{
}

/// An envelope that was taken from the channel is not lost: unless it went out, it is the
/// next thing that the broker turns to under a session, after the command that preempted it.
pub proof fn law_undelivered_envelope_comes_next<W, R>(
    broker: SessionBroker<W, R>,
    envelope: Envelope,
    outcome: PumpOutcome<W, R>,
    session: SessionMeta,
)
    requires
        !(outcome is Sent),
    ensures
        ({
            let kept = broker.pumped(envelope, outcome);
            let attached = SessionBroker { current: Some(session), stashed: None, ..kept };
            &&& kept.pending_outgoing == Some(envelope)
            &&& attached.source_of().0 == BrokerSource::<W, R>::Ready(
                BrokerEvent::Outgoing(Some(envelope)),
            )
        }),
{
}

/// A response to a request that was received is still delivered after its socket was
/// replaced by a resumed one, and one to a request that never arrived is not.
pub proof fn law_watermark_is_carried_over<W, R>(
    broker: SessionBroker<W, R>,
    hello: Hello,
    results: AttachResults,
    envelope: Envelope,
)
    requires
        broker.current is Some,
        broker.resumes(hello),
    ensures
        stale_response(envelope, broker.prepared(hello, results).last_watermark)
            == stale_response(envelope, results.closed_watermark),
{
}

/// A flush ends only when no envelope waits, and the channel has none left or time is up:
/// everything that was queued before a close goes out before it, if there is time.
pub proof fn law_a_flush_leaves_nothing<W, R>(
    broker: SessionBroker<W, R>,
    past_deadline: bool,
    received: DrainInput,
)
    requires
        broker.drained(past_deadline, received).0 is Done,
    ensures
        broker.pending_outgoing is None,
        past_deadline || broker.outgoing_closed || !(received is Envelope),
{
}

/// What the server sends of its own accord is never stale: under an attached session it goes
/// out as it is where it is within the limit, whatever its id and the watermark.
pub proof fn law_messages_of_the_server_go_out<W, R>(
    broker: SessionBroker<W, R>,
    envelope: Envelope,
    watermark: u32,
    encoded_len: usize,
    limits: WireLimits,
    plan: FramePlan,
)
    requires
        broker.framed(envelope, watermark, encoded_len, limits, plan),
        broker.current is Some,
        envelope.responding_to is None,
    ensures
        encoded_len <= limits.max_frame_bytes ==> plan is Send,
        encoded_len > limits.max_frame_bytes ==> plan == FramePlan::Replace(None),
{
}

/// An answer goes out exactly where the session has received the request: to one below the
/// watermark it is sent, or an error in its place where it is too large; to any other it is
/// dropped.
pub proof fn law_answers_go_to_their_requests<W, R>(
    broker: SessionBroker<W, R>,
    envelope: Envelope,
    watermark: u32,
    encoded_len: usize,
    limits: WireLimits,
    plan: FramePlan,
)
    requires
        broker.framed(envelope, watermark, encoded_len, limits, plan),
        broker.current is Some,
        envelope.responding_to is Some,
    ensures
        envelope.responding_to->0 >= watermark ==> plan is Stale,
        envelope.responding_to->0 < watermark && encoded_len <= limits.max_frame_bytes
            ==> plan is Send,
        envelope.responding_to->0 < watermark && encoded_len > limits.max_frame_bytes ==> {
            &&& plan matches FramePlan::Replace(Some(reply))
            &&& reply.id == envelope.id
            &&& reply.responding_to == envelope.responding_to
            &&& reply.ack_id == envelope.ack_id
            &&& reply.original_sender_id is None
            &&& reply.payload matches Some(Payload::Error { .. })
        },
{
}

/// Without a session nothing goes out, and nothing counts as done.
pub proof fn law_nothing_goes_out_without_a_session<W, R>(
    broker: SessionBroker<W, R>,
    envelope: Envelope,
    watermark: u32,
    encoded_len: usize,
    limits: WireLimits,
    plan: FramePlan,
    sent: bool,
)
    requires
        broker.framed(envelope, watermark, encoded_len, limits, plan),
    ensures
        broker.current is None <==> plan is NotAttached,
        broker.current is None ==> !handled(plan, sent),
        plan is Send ==> handled(plan, sent) == sent,
        plan is Stale ==> handled(plan, sent),
        plan matches FramePlan::Replace(reply) ==> handled(plan, sent) == (sent || reply is None),
{
}

/// No command is lost: whoever waits for the end of one is handed on with what is done about
/// it, a socket goes on with what came with it, and a stop closes the session as going away.
pub proof fn law_commands_are_carried_out<W, R>(
    broker: SessionBroker<W, R>,
    command: BrokerCommand<W, R>,
    action: BrokerAction<W, R>,
    after: SessionBroker<W, R>,
)
    requires
        broker.dispatched(BrokerEvent::Command(Some(command)), action, after),
    ensures
        after == broker,
        match command {
            BrokerCommand::Attach { ws, hello, claims } => action == (BrokerAction::<W, R>::Attach {
                ws,
                hello,
                claims,
            }),
            BrokerCommand::CloseSession { code, reason } => {
                &&& action matches BrokerAction::Close { code: c, reason: x }
                &&& c == code && x == reason
            },
            BrokerCommand::RetireIfDetached { done } => {
                &&& action matches BrokerAction::Retire { done: d }
                &&& d == done
            },
            BrokerCommand::Shutdown { done } => {
                &&& action matches BrokerAction::CloseAndQuit { code, reason, done: d }
                &&& d == done && code == 1001
            },
        },
{
}

/// An envelope of the server goes on to the session, the end of the channel is remembered and
/// ends nothing, the end of the commands ends the broker, and a session that ended is taken
/// off with its watermark.
pub proof fn law_events_are_handled<W, R>(
    broker: SessionBroker<W, R>,
    event: BrokerEvent<W, R>,
    action: BrokerAction<W, R>,
    after: SessionBroker<W, R>,
)
    requires
        broker.dispatched(event, action, after),
    ensures
        event matches BrokerEvent::Outgoing(Some(envelope)) ==> action == (
        BrokerAction::<W, R>::Pump { envelope }) && after == broker,
        event matches BrokerEvent::Outgoing(None) ==> {
            &&& action is Continue
            &&& after.outgoing_closed
            &&& after.current == broker.current
            &&& after.pending_outgoing == broker.pending_outgoing
            &&& after.current_epoch == broker.current_epoch
        },
        event matches BrokerEvent::Command(None) ==> action is CloseAndStop && after == broker,
        event is ReplayCheck ==> action is Continue && after == broker,
        event matches BrokerEvent::SessionExited { watermark } ==> {
            &&& after.current is None
            &&& broker.current is Some ==> after.last_watermark == watermark
            &&& broker.current is Some ==> (action matches BrokerAction::Detached { meta } && meta
                == broker.current->0)
            &&& broker.current is None ==> action is Continue && after == broker
            &&& after.current_epoch == broker.current_epoch
            &&& after.current_instance == broker.current_instance
            &&& after.pending_outgoing == broker.pending_outgoing
        },
{
}

/// Commands come before envelopes, and an envelope that waits before those of the channel;
/// without a session only commands are heard.
pub proof fn law_commands_come_first<W, R>(broker: SessionBroker<W, R>)
    ensures
        broker.stashed is Some ==> broker.source_of().0 == BrokerSource::<W, R>::Ready(
            BrokerEvent::Command(broker.stashed),
        ) && broker.source_of().1.stashed is None,
        broker.stashed is None && broker.current is Some && broker.pending_outgoing is Some
            ==> broker.source_of().0 == BrokerSource::<W, R>::Ready(
            BrokerEvent::Outgoing(broker.pending_outgoing),
        ) && broker.source_of().1.pending_outgoing is None,
        broker.stashed is None && broker.current is Some && broker.pending_outgoing is None
            ==> broker.source_of().0 == (BrokerSource::<W, R>::Select {
            outgoing: !broker.outgoing_closed,
        }) && broker.source_of().1 == broker,
        broker.stashed is None && broker.current is None ==> broker.source_of().0 is Command
            && broker.source_of().1 == broker,
{
}

/// A client that does not resume gets a session of its own where one could be started: under
/// a new epoch that belongs to its instance, with nothing received and nothing waiting, and
/// the session before it is closed as taken over.
pub proof fn law_a_fresh_client_gets_a_session<W, R>(
    broker: SessionBroker<W, R>,
    hello: Hello,
    claims: Claims,
    results: AttachResults,
    server: ServerFacts,
    protocol: u32,
    now_ms: u64,
    plan: AttachPlan,
    outcome: AttachOutcome,
    after: SessionBroker<W, R>,
)
    requires
        broker.wf(),
        broker.epoch_base + broker.attach_seq + 1 <= u64::MAX,
        !hello.reconnect,
        results.fresh_ready,
        broker.planned(hello, results.replay_healthy, plan),
        broker.attached(hello, claims, results, server, protocol, now_ms, outcome, after),
    ensures
        ({
            &&& plan matches AttachPlan::Proceed { kind, close }
            &&& kind == SessionKind::Fresh
            &&& close is Some <==> broker.current is Some
            &&& close matches Some(order) ==> order.code == 4001
        }),
        ({
            &&& outcome matches AttachOutcome::Attached(a)
            &&& !a.ack.resumed
            &&& a.ack.session_id == claims.sid
            &&& a.ack.protocol == protocol
            &&& a.ack.replica_id == server.replica_id
            &&& a.ack.build == server.build
            &&& a.ack.os == server.os && a.ack.arch == server.arch && a.ack.shell == server.shell
            &&& a.ack.os_version == server.os_version
            &&& a.meta.epoch == a.ack.epoch
            &&& a.meta.session_id == claims.sid && a.meta.sub == claims.sub && a.meta.jti
                == claims.jti
            &&& a.meta.identifier == hello.identifier && a.meta.instance == hello.instance
            &&& a.meta.client_build == hello.build && a.meta.client == hello.client
            &&& a.meta.attached_at_ms == now_ms
            &&& a.meta.kind == SessionKind::Fresh
            &&& a.watermark == 0
            &&& after.current_epoch == Some(a.ack.epoch)
            &&& broker.current_epoch is Some ==> broker.current_epoch->0 < a.ack.epoch
            &&& after.current_instance == Some(hello.instance)
        }),
        after.pending_outgoing is None,
        !after.outgoing_closed,
        after.current is None,
        after.last_watermark == 0,
        after.stashed == broker.stashed,
{
}

/// A client that wants to go on is refused as stale, and nothing changes, where its epoch is
/// not the current one or what it missed cannot be replayed any more.
pub proof fn law_stale_clients_are_refused<W, R>(
    broker: SessionBroker<W, R>,
    hello: Hello,
    claims: Claims,
    results: AttachResults,
    server: ServerFacts,
    protocol: u32,
    now_ms: u64,
    plan: AttachPlan,
    outcome: AttachOutcome,
    after: SessionBroker<W, R>,
)
    requires
        hello.reconnect,
        !results.replay_healthy || (hello.epoch is Some && broker.current_epoch is Some
            && hello.epoch->0 != broker.current_epoch->0),
        broker.planned(hello, results.replay_healthy, plan),
        broker.attached(hello, claims, results, server, protocol, now_ms, outcome, after),
    ensures
        plan matches AttachPlan::Refuse(order) && order.code == 4001 && order.reason@
            == "stale epoch"@,
        outcome matches AttachOutcome::Refused(order) && order.code == 4001 && order.reason@
            == "stale epoch"@,
        after == broker,
{
}

/// A client for which no session could be started is told that the server is not ready, and
/// no epoch is used up for it.
pub proof fn law_unready_servers_say_so<W, R>(
    broker: SessionBroker<W, R>,
    hello: Hello,
    claims: Claims,
    results: AttachResults,
    server: ServerFacts,
    protocol: u32,
    now_ms: u64,
    outcome: AttachOutcome,
    after: SessionBroker<W, R>,
)
    requires
        !hello.reconnect,
        !results.fresh_ready,
        broker.attached(hello, claims, results, server, protocol, now_ms, outcome, after),
    ensures
        outcome matches AttachOutcome::Refused(order) && order.code == 1011 && order.reason@
            == "server not ready"@,
        after.attach_seq == broker.attach_seq,
        after.current_epoch == broker.current_epoch,
        after.current_instance == broker.current_instance,
        after.pending_outgoing == broker.pending_outgoing,
        after.current is None,
{
}

/// Another instance that names the current epoch does not get its session, but one of its
/// own.
pub proof fn law_other_instances_start_afresh<W, R>(broker: SessionBroker<W, R>, hello: Hello)
    requires
        broker.current_instance is Some,
        broker.current_instance->0@ != hello.instance@,
    ensures
        !broker.resumes(hello),
        hello.epoch == broker.current_epoch ==> !broker.refuses(hello, true),
{
}

/// A session that ends leaves its watermark behind, and nothing else of the broker changes.
pub proof fn law_sessions_leave_their_watermark<W, R>(broker: SessionBroker<W, R>, watermark: u32)
    ensures
        ({
            let after = broker.detached(watermark);
            &&& after.current is None
            &&& broker.current is Some ==> after.last_watermark == watermark
            &&& broker.current is None ==> after.last_watermark == broker.last_watermark
            &&& after.current_epoch == broker.current_epoch
            &&& after.current_instance == broker.current_instance
            &&& after.attach_seq == broker.attach_seq
            &&& after.pending_outgoing == broker.pending_outgoing
            &&& after.outgoing_closed == broker.outgoing_closed
            &&& after.stashed == broker.stashed
            &&& after.last_sub == broker.last_sub
        }),
{
}

/// A command that came while an envelope waited for room is carried out next; an envelope
/// that went out waits no more than before, and a session stays attached unless its queue is
/// gone.
pub proof fn law_waiting_envelopes_make_way<W, R>(
    broker: SessionBroker<W, R>,
    envelope: Envelope,
    outcome: PumpOutcome<W, R>,
)
    ensures
        ({
            let after = broker.pumped(envelope, outcome);
            &&& outcome is Sent ==> after == broker
            &&& outcome matches PumpOutcome::Preempted(command) ==> after.stashed == command
            &&& !(outcome is Preempted) ==> after.stashed == broker.stashed
            &&& !(outcome is QueueGone) ==> after.current == broker.current
            &&& outcome is QueueGone ==> after.current is None
            &&& after.current_epoch == broker.current_epoch
        }),
{
}

/// A flush sends what waits, then everything that the channel gives, for as long as there is
/// time; the end of the channel is remembered.
pub proof fn law_flushes_send_in_order<W, R>(
    broker: SessionBroker<W, R>,
    past_deadline: bool,
    received: DrainInput,
)
    ensures
        ({
            let (step, after) = broker.drained(past_deadline, received);
            &&& broker.pending_outgoing matches Some(envelope) ==> step == DrainStep::Send(envelope)
                && after.pending_outgoing is None
            &&& broker.pending_outgoing is None && !broker.outgoing_closed && !past_deadline ==> {
                &&& received matches DrainInput::Envelope(envelope) ==> step == DrainStep::Send(
                    envelope,
                ) && after == broker
                &&& received is Nothing ==> step is Done && after == broker
                &&& received is Ended ==> step is Done && after.outgoing_closed
            }
            &&& after.current == broker.current
            &&& after.current_epoch == broker.current_epoch
        }),
{
}

/// Every session has a number of its own, one more than the session before it, and the epoch
/// that goes with it; a client that comes back, or one that no session could be started for,
/// leaves the numbers as they are.
pub proof fn law_sessions_are_numbered<W, R>(
    broker: SessionBroker<W, R>,
    hello: Hello,
    results: AttachResults,
)
    requires
        broker.attach_seq < u64::MAX,
    ensures
        ({
            let after = broker.prepared(hello, results);
            let begins = !broker.resumes(hello) && results.fresh_ready;
            &&& begins ==> after.attach_seq == broker.attach_seq + 1
            &&& begins ==> after.current_epoch is Some
            &&& begins && broker.epoch_base + broker.attach_seq + 1 <= u64::MAX
                ==> after.current_epoch->0 == broker.epoch_base + broker.attach_seq + 1
            &&& begins ==> after.current_instance == Some(hello.instance)
            &&& begins ==> after.last_watermark == 0 && after.pending_outgoing is None
                && !after.outgoing_closed
            &&& !begins ==> after.attach_seq == broker.attach_seq && after.current_epoch
                == broker.current_epoch && after.current_instance == broker.current_instance
            &&& after.current is None
            &&& after.epoch_base == broker.epoch_base
            &&& after.stashed == broker.stashed
        }),
{
}

/// The logs tell the ends of sessions apart, each with its code or with the error.
pub proof fn law_ends_have_labels(code: u16, error: String)
    ensures
        (SessionExit::PeerClosed { code: Some(code) }).label() == "peer_closed("@ + decimal_digits(
            code as nat,
        ) + ")"@,
        (SessionExit::PeerClosed { code: None }).label() == "peer_closed"@,
        SessionExit::ReadError(error).label() == "read_error: "@ + error@,
        SessionExit::WriteError(error).label() == "write_error: "@ + error@,
        SessionExit::SlowConsumer.label() == "slow_consumer"@,
        SessionExit::FrameTooLarge.label() == "frame_too_large"@,
        SessionExit::Dead.label() == "dead"@,
        (SessionExit::Closed { code }).label() == "closed("@ + decimal_digits(code as nat) + ")"@,
{
}

/// Whoever asked for something too large is told how large it was, and how large it may be.
pub proof fn law_oversize_texts_name_both_sizes(len: nat, limit: nat)
    ensures
        ({
            let text = oversize_text(len, limit);
            let head = "message too large for the WebSocket transport ("@;
            let tail = " bytes, limit "@ + (decimal_digits(limit) + ")"@);
            &&& text.take(head.len() as int) == head
            &&& text.skip(head.len() as int).take(decimal_digits(len).len() as int)
                == decimal_digits(len)
            &&& text.skip((head.len() + decimal_digits(len).len()) as int) == tail
        }),
{
    let text = oversize_text(len, limit);
    let head = "message too large for the WebSocket transport ("@;
    let tail = " bytes, limit "@ + (decimal_digits(limit) + ")"@);
    let d = decimal_digits(len);
    assert(text =~= head + (d + tail));
    assert(text.take(head.len() as int) =~= head);
    assert(text.skip(head.len() as int) =~= d + tail);
    assert((d + tail).take(d.len() as int) =~= d);
    assert(text.skip((head.len() + d.len()) as int) =~= tail);
}

/// A client is told whether the server shuts down, or goes away.
pub proof fn law_stops_have_their_reasons<W, R>(
    broker: SessionBroker<W, R>,
    done: R,
    action: BrokerAction<W, R>,
    after: SessionBroker<W, R>,
)
    ensures
        broker.dispatched(BrokerEvent::Command(None), action, after) ==> {
            &&& action matches BrokerAction::CloseAndStop { code, reason }
            &&& code == 1001
            &&& reason@ == "server going away"@
        },
        broker.dispatched(
            BrokerEvent::Command(Some(BrokerCommand::Shutdown { done })),
            action,
            after,
        ) ==> {
            &&& action matches BrokerAction::CloseAndQuit { code, reason, done: d }
            &&& code == 1001
            &&& reason@ == "server shutting down"@
        },
{
}

/// Whoever attaches is known by what their token and their greeting say, fresh or not, is told
/// what the server is, and is remembered as the user; it is noticed where the user before was
/// another.
pub proof fn law_clients_are_known_by_their_token<W, R>(
    broker: SessionBroker<W, R>,
    hello: Hello,
    claims: Claims,
    results: AttachResults,
    server: ServerFacts,
    protocol: u32,
    now_ms: u64,
    a: Attachment,
    after: SessionBroker<W, R>,
)
    requires
        broker.attached(
            hello,
            claims,
            results,
            server,
            protocol,
            now_ms,
            AttachOutcome::Attached(a),
            after,
        ),
    ensures
        after.last_sub == Some(claims.sub),
        a.user_changed <==> broker.last_sub is Some && broker.last_sub->0@ != claims.sub@,
        a.meta.session_id == claims.sid && a.ack.session_id == claims.sid,
        a.meta.sub == claims.sub && a.meta.jti == claims.jti,
        a.meta.identifier == hello.identifier && a.meta.instance == hello.instance,
        a.meta.client_build == hello.build && a.meta.client == hello.client,
        a.meta.attached_at_ms == now_ms,
        a.meta.epoch == a.ack.epoch && after.current_epoch == Some(a.ack.epoch),
        a.meta.kind == SessionKind::Reconnect <==> a.ack.resumed,
        a.ack.replica_id == server.replica_id && a.ack.protocol == protocol,
        a.ack.build == server.build && a.ack.os == server.os && a.ack.arch == server.arch,
        a.ack.os_version == server.os_version && a.ack.shell == server.shell,
        a.watermark == after.last_watermark,
{
}

} // verus!
