//! What goes over the socket between a browser and the server: close codes, the opening
//! exchange, and the envelopes.

use vstd::prelude::*;
use vstd::string::*;

use crate::text::{byte_len, bytes_in, chars_of, same};

verus! {

/// The socket was replaced by another one of the same participant.
pub const CLOSE_TAKEN_OVER: u16 = 4001;

/// The client is of another build.
pub const CLOSE_BUILD_MISMATCH: u16 = 4002;

/// The opening exchange failed.
pub const CLOSE_BAD_HELLO: u16 = 4006;

/// The server goes away.
pub const CLOSE_GOING_AWAY: u16 = 1001;

/// The peer broke a rule.
pub const CLOSE_POLICY_VIOLATION: u16 = 1008;

/// The server cannot serve the peer.
pub const CLOSE_INTERNAL_ERROR: u16 = 1011;

/// A still-attached socket that the same client replaced by a reconnect.
pub const CLOSE_SUPERSEDED: u16 = 4001;

/// The server stops.
pub const CLOSE_STOPPING: u16 = 1001;

/// The reason that tells a client to start over instead of giving up.
pub const CLOSE_REASON_STALE_EPOCH: &'static str = "stale epoch";

/// The longest name of a payload that is kept for a log line, in bytes.
pub const MAX_PAYLOAD_NAME_BYTES: usize = 64;

/// Values that both ends of the socket are built with.
#[derive(Debug, Clone, Copy)]
pub struct WireLimits {
    /// The version of the protocol.
    pub protocol: u32,
    /// The largest frame, in bytes.
    pub max_frame_bytes: usize,
    /// The close code for a frame over the limit.
    pub close_frame_too_large: u16,
}

/// What kind of client is at the other end.
#[derive(Debug, Clone, Copy, PartialEq, Eq, Structural)]
pub enum ClientKind {
    Native,
    Web,
}

/// The first frame of a client.
#[derive(Debug, Clone)]
pub struct Hello {
    pub protocol: u32,
    pub build: String,
    pub workspace_id: String,
    pub session_id: String,
    /// Only for the logs.
    pub identifier: String,
    /// A nonce that the client draws at every start.
    pub instance: String,
    pub reconnect: bool,
    pub client: ClientKind,
    /// The epoch that the client wants to go on with.
    pub epoch: Option<u64>,
}

/// The answer to a [`Hello`].
#[derive(Debug, Clone)]
pub struct HelloAck {
    pub replica_id: u16,
    pub protocol: u32,
    pub build: String,
    pub os: String,
    pub arch: String,
    pub os_version: Option<String>,
    pub shell: String,
    pub resumed: bool,
    pub session_id: String,
    pub epoch: u64,
}

/// A log record sent to the client.
#[derive(Debug, Clone)]
pub struct LogFrame {
    pub level: usize,
    pub message: String,
    pub module: Option<String>,
    pub file: Option<String>,
    pub line: Option<u32>,
}

/// A text frame.
#[derive(Debug, Clone)]
pub enum ControlFrame {
    Hello(Hello),
    HelloAck(HelloAck),
    Log(LogFrame),
    Heartbeat,
}

/// The kinds of text frames.
#[derive(Debug, Clone, Copy, PartialEq, Eq, Structural)]
pub enum ControlKind {
    Hello,
    HelloAck,
    Log,
    Heartbeat,
}

impl ControlKind {
    /// The name of a kind of text frame.
    pub open spec fn name_of(self) -> Seq<char> {
        match self {
            ControlKind::Hello => "hello"@,
            ControlKind::HelloAck => "hello_ack"@,
            ControlKind::Log => "log"@,
            ControlKind::Heartbeat => "heartbeat"@,
        }
    }
}

/// The kind of a text frame.
pub open spec fn control_kind(frame: ControlFrame) -> ControlKind {
    match frame {
        ControlFrame::Hello(_) => ControlKind::Hello,
        ControlFrame::HelloAck(_) => ControlKind::HelloAck,
        ControlFrame::Log(_) => ControlKind::Log,
        ControlFrame::Heartbeat => ControlKind::Heartbeat,
    }
}

/// The name of a text frame, for log lines that must not repeat what the peer wrote.
pub fn control_frame_name(frame: &ControlFrame) -> (r: &'static str)
    ensures
        r@ == control_kind(*frame).name_of(),
{
    match frame {
        ControlFrame::Hello(_) => "hello",
        ControlFrame::HelloAck(_) => "hello_ack",
        ControlFrame::Log(_) => "log",
        ControlFrame::Heartbeat => "heartbeat",
    }
}

/// What an envelope carries: an error reply that the server makes itself, or a message
/// by its name and its encoded body.
#[derive(Debug)]
pub enum Payload {
    Error { message: String },
    Message { name: String, body: Vec<u8> },
}

/// One message between the two ends.
#[derive(Debug)]
pub struct Envelope {
    pub id: u32,
    pub responding_to: Option<u32>,
    pub original_sender_id: Option<u64>,
    pub ack_id: Option<u32>,
    pub payload: Option<Payload>,
}

/// Messages that do not count as something the user did: handshake and heartbeat, the
/// flow control of terminals, and the periodic saving and listing of a client.
pub open spec fn background_message(name: Seq<char>) -> bool {
    ||| name == "Ping"@
    ||| name == "Ack"@
    ||| name == "RemoteStarted"@
    ||| name == "FlushBufferedMessages"@
    ||| name == "AckTerminalOutput"@
    ||| name == "ResizeTerminal"@
    ||| name == "ListTerminals"@
    ||| name == "AttachTerminal"@
    ||| name == "SaveClientState"@
    ||| name == "LoadClientState"@
    ||| name == "ListExtensions"@
}

/// Whether an envelope counts as user input.
pub open spec fn input_envelope(envelope: Envelope) -> bool {
    &&& envelope.responding_to is None
    &&& match envelope.payload {
        None => false,
        Some(Payload::Error { .. }) => true,
        Some(Payload::Message { name, .. }) => !background_message(name@),
    }
}

fn is_background_message(name: &str) -> (r: bool)
    ensures
        r == background_message(name@),
{
    same(name, "Ping") || same(name, "Ack") || same(name, "RemoteStarted") || same(
        name,
        "FlushBufferedMessages",
    ) || same(name, "AckTerminalOutput") || same(name, "ResizeTerminal") || same(
        name,
        "ListTerminals",
    ) || same(name, "AttachTerminal") || same(name, "SaveClientState") || same(
        name,
        "LoadClientState",
    ) || same(name, "ListExtensions")
}

/// Whether an envelope counts as user input for the idle clock. Responses to the server's
/// own requests do not, nor do background messages.
pub fn is_input_envelope(envelope: &Envelope) -> (r: bool)
    ensures
        r == input_envelope(*envelope),
{
    if envelope.responding_to.is_some() {
        return false;
    }
    match &envelope.payload {
        None => false,
        Some(Payload::Error { .. }) => true,
        Some(Payload::Message { name, .. }) => !is_background_message(name.as_str()),
    }
}

/// A character at which the name of a payload ends.
pub open spec fn ends_name(c: char) -> bool {
    c == '(' || c == '{' || c == ' '
}

/// `text` with the characters of `part`, up to the end of the name or the size limit.
pub open spec fn name_with(text: Seq<char>, part: Seq<char>) -> Seq<char>
    decreases part.len(),
{
    if part.len() == 0 || ends_name(part[0]) || byte_len(text) >= MAX_PAYLOAD_NAME_BYTES {
        text
    } else {
        name_with(text.push(part[0]), part.skip(1))
    }
}

/// Whether all of `part` went into the name.
pub open spec fn name_takes_all(text: Seq<char>, part: Seq<char>) -> bool
    decreases part.len(),
{
    part.len() == 0 || (!(ends_name(part[0]) || byte_len(text) >= MAX_PAYLOAD_NAME_BYTES)
        && name_takes_all(text.push(part[0]), part.skip(1)))
}

/// Collects the name of a payload while its description is written, and refuses to go on
/// once the name has ended, so that a large payload is never written out.
pub struct BoundedName {
    pub text: String,
}

impl BoundedName {
    /// No name yet.
    pub fn new() -> (r: BoundedName)
        ensures
            r.text@ == Seq::<char>::empty(),
    {
        BoundedName { text: String::new() }
    }

    /// Takes one more part of the description; false once the name has ended.
    pub fn write_part(&mut self, part: &str) -> (r: bool)
        ensures
            final(self).text@ == name_with(old(self).text@, part@),
            r == name_takes_all(old(self).text@, part@),
    {
        let v = chars_of(part);
        let mut i: usize = 0;
        proof {
            assert(v@.skip(0) =~= v@);
        }
        while i < v.len()
            invariant
                i <= v@.len(),
                v@ == part@,
                name_with(self.text@, v@.skip(i as int)) == name_with(old(self).text@, part@),
                name_takes_all(self.text@, v@.skip(i as int)) == name_takes_all(
                    old(self).text@,
                    part@,
                ),
            decreases v@.len() - i,
        {
            let c = v[i];
            if c == '(' || c == '{' || c == ' ' || bytes_in(self.text.as_str())
                >= MAX_PAYLOAD_NAME_BYTES {
                return false;
            }
            proof {
                assert(v@.skip(i as int).skip(1) =~= v@.skip(i + 1));
            }
            self.text.push(c);
            i = i + 1;
        }
        true
    }
}

/// The name of a payload in a log line, from its description; a fixed word where there is
/// no payload.
pub fn payload_variant_name(description: Option<&str>) -> (r: String)
    ensures
        r@ == match description {
            Some(d) => name_with(Seq::empty(), d@),
            None => "<none>"@,
        },
{
    match description {
        Some(d) => {
            let mut name = BoundedName::new();
            name.write_part(d);
            name.text
        },
        None => "<none>".to_owned(),
    }
}

/// A description that arrives in parts gives the same name as one that arrives whole, as
/// long as the first part was taken in full.
pub proof fn law_name_parts(text: Seq<char>, a: Seq<char>, b: Seq<char>)
    ensures
        name_takes_all(text, a) ==> name_with(name_with(text, a), b) == name_with(text, a + b),
        !name_takes_all(text, a) ==> name_with(text, a) == name_with(text, a + b),
    decreases a.len(),
{
    if a.len() == 0 {
        assert(a + b =~= b);
    } else {
        assert((a + b)[0] == a[0]);
        assert((a + b).skip(1) =~= a.skip(1) + b);
        law_name_parts(text.push(a[0]), a.skip(1), b);
    }
}

/// An envelope of the user counts as input unless it answers a request, is empty, or is one of
/// those that come without the user.
pub proof fn law_input_is_what_the_user_does(envelope: Envelope)
    ensures
        envelope.responding_to is Some ==> !input_envelope(envelope),
        envelope.payload is None ==> !input_envelope(envelope),
        envelope.responding_to is None && envelope.payload is Some
            && envelope.payload->0 is Message ==> {
            let name = envelope.payload->0->name@;
            input_envelope(envelope) <==> !(name == "Ping"@ || name == "Ack"@ || name
                == "RemoteStarted"@ || name == "FlushBufferedMessages"@ || name
                == "AckTerminalOutput"@ || name == "ResizeTerminal"@ || name == "ListTerminals"@
                || name == "AttachTerminal"@ || name == "SaveClientState"@ || name
                == "LoadClientState"@ || name == "ListExtensions"@)
        },
{
}

/// The name of a message is the beginning of its description, up to a bracket, a brace or a
/// space, and no longer than is needed to tell it.
pub proof fn law_names_are_beginnings(text: Seq<char>, part: Seq<char>)
    ensures
        ({
            let name = name_with(text, part);
            let n = name.len() - text.len();
            &&& 0 <= n <= part.len()
            &&& name == text + part.take(n)
            &&& forall|i: int|
                0 <= i < n ==> #[trigger] part[i] != '(' && part[i] != '{' && part[i] != ' '
            &&& n < part.len() ==> part[n] == '(' || part[n] == '{' || part[n] == ' ' || byte_len(
                name,
            ) >= 64
            &&& name_takes_all(text, part) <==> n == part.len()
        }),
    decreases part.len(),
{
    if part.len() == 0 || ends_name(part[0]) || byte_len(text) >= MAX_PAYLOAD_NAME_BYTES {
        assert(part.take(0) =~= Seq::<char>::empty());
        assert(text + part.take(0) =~= text);
    } else {
        let rest = part.skip(1);
        law_names_are_beginnings(text.push(part[0]), rest);
        let name = name_with(text, part);
        let n = name.len() - text.len();
        assert(name =~= text + part.take(n)) by {
            assert(text.push(part[0]) + rest.take(n - 1) =~= text + part.take(n));
        }
        assert forall|i: int| 0 <= i < n implies #[trigger] part[i] != '(' && part[i] != '{'
            && part[i] != ' ' by {
            if i > 0 {
                assert(rest[i - 1] == part[i]);
            }
        }
    }
}

/// Every frame of control is called by its own name.
pub proof fn law_control_frames_have_names(hello: Hello, ack: HelloAck, log: LogFrame)
    ensures
        control_kind(ControlFrame::Hello(hello)).name_of() == "hello"@,
        control_kind(ControlFrame::HelloAck(ack)).name_of() == "hello_ack"@,
        control_kind(ControlFrame::Log(log)).name_of() == "log"@,
        control_kind(ControlFrame::Heartbeat).name_of() == "heartbeat"@,
{
}

} // verus!
