//! The messages between clients, the VM owner's broker and the guest agent: their
//! framing, the opening handshake, and what each side does with a message.
use vstd::prelude::*;

use crate::bytes;
use crate::text;

verus! {

/// A message between a client, the broker and the guest agent. The messages of one
/// command or connection carry the same channel id.
#[derive(Clone, Debug, PartialEq, Eq)]
pub enum Message {
    Hello { version: u16 },
    OpenExec {
        channel_id: u64,
        argv: Vec<String>,
        cwd: String,
        pty: bool,
        term: String,
        colorterm: String,
        rows: u16,
        cols: u16,
        uid: u32,
        gid: u32,
        group: String,
        env: Vec<(String, String)>,
    },
    OpenTcp { channel_id: u64, host: String, port: u16 },
    Data { channel_id: u64, bytes: Vec<u8> },
    Stderr { channel_id: u64, bytes: Vec<u8> },
    Eof { channel_id: u64 },
    Close { channel_id: u64 },
    ExitStatus { channel_id: u64, status: i32 },
    ExecStarted { channel_id: u64 },
    Error { channel_id: u64, message: String },
    WindowResize { channel_id: u64, rows: u16, cols: u16 },
    Checkpoint { channel_id: u64, path: String },
    CheckpointCreated { channel_id: u64 },
    SnapshotExit { channel_id: u64 },
    SnapshotReady,
    OpenUrl { channel_id: u64, url: String },
    OpenUrlResult { channel_id: u64, ok: bool },
    PortListeners { ports: Vec<u16> },
    RestoreSync { channel_id: u64, entropy: Vec<u8> },
    RestoreSynced { channel_id: u64 },
}

// ---------------------------------------------------------------------------
// Frames
// ---------------------------------------------------------------------------

/// A message body is longer than the protocol allows.
#[derive(Debug, PartialEq, Eq)]
pub struct FrameTooLarge {
    pub len: u64,
}

impl FrameTooLarge {
    /// The message shown to the user.
    pub fn message(&self) -> (m: String)
        ensures
            m@ == "protocol message too large: "@ + text::dec(self.len as nat),
    {
        let mut m: String = "protocol message too large: ".to_owned();
        text::push_dec(&mut m, self.len as u128);
        m
    }
}

/// An encoded message on the wire: its length in four big-endian bytes, then itself.
pub open spec fn frame_of(body: Seq<u8>) -> Seq<u8> {
    bytes::be_bytes(body.len(), 4) + body
}

/// Frames an encoded message, unless it is longer than `max_size`.
pub fn encode_frame(body: &[u8], max_size: u32) -> (r: Result<Vec<u8>, FrameTooLarge>)
    ensures
        r is Ok <==> body@.len() <= max_size,
        r matches Ok(frame) ==> frame@ == frame_of(body@),
        r matches Err(e) ==> e.len == body@.len(),
{
    let len: u64 = body.len() as u64;
    if len > max_size as u64 {
        return Err(FrameTooLarge { len });
    }
    let mut frame: Vec<u8> = Vec::new();
    bytes::push_be(&mut frame, len, 4);
    bytes::push_all(&mut frame, body);
    assert(frame@ =~= frame_of(body@));
    Ok(frame)
}

/// The length of the body that follows a frame's four length bytes, unless it is
/// longer than `max_size`.
pub fn frame_length(header: &[u8], max_size: u32) -> (r: Result<u32, FrameTooLarge>)
    requires
        header@.len() == 4,
    ensures
        r is Ok <==> bytes::be_value(header@) <= max_size,
        r matches Ok(n) ==> n == bytes::be_value(header@),
        r matches Err(e) ==> e.len == bytes::be_value(header@),
{
    let len: u64 = bytes::read_be(header);
    if len > max_size as u64 {
        Err(FrameTooLarge { len })
    } else {
        Ok(len as u32)
    }
}

/// What is read from a frame is what was framed: its first four bytes give the length
/// of the body, and the body follows them.
pub proof fn lemma_frame_round_trip(body: Seq<u8>)
    requires
        body.len() <= u32::MAX,
    ensures
        frame_of(body).len() == 4 + body.len(),
        bytes::be_value(frame_of(body).take(4)) == body.len(),
        frame_of(body).skip(4) == body,
{
    bytes::lemma_byte_ranges();
    bytes::lemma_be_round_trip(body.len(), 4);
    assert(frame_of(body).take(4) =~= bytes::be_bytes(body.len(), 4));
    assert(frame_of(body).skip(4) =~= body);
}

/// Frames sent one after the other are read apart again: the first body, then what
/// remains.
pub proof fn lemma_frames_are_read_apart(first: Seq<u8>, rest: Seq<u8>)
    requires
        first.len() <= u32::MAX,
    ensures
        ({
            let stream = frame_of(first) + rest;
            let len = bytes::be_value(stream.take(4)) as int;
            &&& stream.subrange(4, 4 + len) == first
            &&& stream.skip(4 + len) == rest
        }),
{
    lemma_frame_round_trip(first);
    let stream = frame_of(first) + rest;
    assert(stream.take(4) =~= frame_of(first).take(4));
    assert(stream.subrange(4, 4 + first.len() as int) =~= frame_of(first).skip(4));
    assert(stream.skip(4 + first.len() as int) =~= rest);
}

// ---------------------------------------------------------------------------
// Handshake
// ---------------------------------------------------------------------------

/// Why a client could not shake hands with the broker.
#[derive(Debug, PartialEq, Eq)]
pub enum HelloError {
    /// No reply, or one that could not be read.
    Failed,
    /// The broker speaks another version of the protocol.
    Mismatch { expected: u16, actual: u16 },
    /// The reply was no hello.
    Bad(Message),
}

/// What the broker's reply to a client's hello means; `None` is a reply that could not
/// be read.
pub open spec fn hello_outcome(version: u16, reply: Option<Message>) -> Result<(), HelloError> {
    match reply {
        None => Err(HelloError::Failed),
        Some(Message::Hello { version: actual }) => if actual == version {
            Ok(())
        } else {
            Err(HelloError::Mismatch { expected: version, actual })
        },
        Some(other) => Err(HelloError::Bad(other)),
    }
}

/// Judges the broker's reply to a client's hello.
pub fn broker_hello(version: u16, reply: Option<Message>) -> (r: Result<(), HelloError>)
    ensures
        r == hello_outcome(version, reply),
{
    match reply {
        None => Err(HelloError::Failed),
        Some(Message::Hello { version: actual }) => {
            if actual == version {
                Ok(())
            } else {
                Err(HelloError::Mismatch { expected: version, actual })
            }
        },
        Some(other) => Err(HelloError::Bad(other)),
    }
}

/// The message for a broker that speaks another version of the protocol.
pub fn mismatch_message(expected: u16, actual: u16) -> (m: String)
    ensures
        m@ == "running VM owner protocol version "@ + text::dec(actual as nat)
            + " is incompatible with this client protocol version "@ + text::dec(expected as nat)
            + "; stop the instance and retry"@,
{
    let mut m: String = "running VM owner protocol version ".to_owned();
    text::push_dec(&mut m, actual as u128);
    m.append(" is incompatible with this client protocol version ");
    text::push_dec(&mut m, expected as u128);
    m.append("; stop the instance and retry");
    m
}

/// Why connecting to the broker failed.
#[derive(Debug, PartialEq, Eq)]
pub enum ConnectError {
    /// The socket could not be reached or set up.
    Io(String),
    Hello(HelloError),
}

/// What a client does when connecting to a broker failed.
#[derive(Debug, PartialEq, Eq)]
pub enum AfterConnectError {
    /// Give up: the owner speaks another version of the protocol.
    Propagate { expected: u16, actual: u16 },
    /// The broker is not ready; the client goes on without it.
    NotReady,
}

/// Only a version mismatch ends the attempt; every other failure means that the broker
/// is not ready.
pub fn after_connect_error(error: ConnectError) -> (r: AfterConnectError)
    ensures
        match error {
            ConnectError::Hello(HelloError::Mismatch { expected, actual }) => r
                == (AfterConnectError::Propagate { expected, actual }),
            _ => r == AfterConnectError::NotReady,
        },
{
    match error {
        ConnectError::Hello(HelloError::Mismatch { expected, actual }) => {
            AfterConnectError::Propagate { expected, actual }
        },
        _ => AfterConnectError::NotReady,
    }
}

/// What the broker does with the first message of a client.
#[derive(Debug, PartialEq, Eq)]
pub enum ClientHello {
    /// Answer with a hello and go on.
    Accept,
    /// Log the other version and close without an error.
    CloseMismatch { expected: u16, actual: u16 },
    /// Not a hello: an error.
    Reject(Message),
}

/// Judges the first message of a client.
pub fn client_hello(version: u16, message: Message) -> (r: ClientHello)
    ensures
        match message {
            Message::Hello { version: actual } => if actual == version {
                r == ClientHello::Accept
            } else {
                r == (ClientHello::CloseMismatch { expected: version, actual })
            },
            other => r == ClientHello::Reject(other),
        },
        r is Accept <==> message == (Message::Hello { version }),
        r is Reject <==> !(message is Hello),
{
    match message {
        Message::Hello { version: actual } => {
            if actual == version {
                ClientHello::Accept
            } else {
                ClientHello::CloseMismatch { expected: version, actual }
            }
        },
        other => ClientHello::Reject(other),
    }
}

/// Whether a connection to the agent port is accepted: its first message must be a
/// hello of this version. Anything else is logged, and the owner waits for the next
/// connection.
pub fn agent_hello_is_accepted(version: u16, first: &Option<Message>) -> (r: bool)
    ensures
        r == (*first matches Some(Message::Hello { version: actual }) && actual == version),
{
    match first {
        Some(Message::Hello { version: actual }) => *actual == version,
        _ => false,
    }
}

/// What a client asked for with the message after its hello.
#[derive(Debug, PartialEq, Eq)]
pub enum FirstRequest {
    Checkpoint { channel_id: u64, path: String },
    Open { channel_id: u64, message: Message },
    /// The client did not open a channel.
    Invalid,
}

/// Sorts the message after a client's hello.
pub fn first_request(message: Message) -> (r: FirstRequest)
    ensures
        match message {
            Message::Checkpoint { channel_id, path } => r == (FirstRequest::Checkpoint {
                channel_id,
                path,
            }),
            Message::OpenExec { channel_id, .. } => r == (FirstRequest::Open {
                channel_id,
                message,
            }),
            Message::OpenTcp { channel_id, .. } => r == (FirstRequest::Open {
                channel_id,
                message,
            }),
            _ => r == FirstRequest::Invalid,
        },
        r is Checkpoint <==> message is Checkpoint,
        r is Open <==> message is OpenExec || message is OpenTcp,
{
    let channel: Option<u64> = match &message {
        Message::OpenExec { channel_id, .. } => Some(*channel_id),
        Message::OpenTcp { channel_id, .. } => Some(*channel_id),
        _ => None,
    };
    match channel {
        Some(channel_id) => FirstRequest::Open { channel_id, message },
        None => match message {
            Message::Checkpoint { channel_id, path } => FirstRequest::Checkpoint {
                channel_id,
                path,
            },
            _ => FirstRequest::Invalid,
        },
    }
}

// ---------------------------------------------------------------------------
// A client's session
// ---------------------------------------------------------------------------

/// What happens to a client while its command runs.
#[derive(Debug, PartialEq, Eq)]
pub enum SessionEvent {
    /// The broker sent a message.
    Received(Message),
    /// The user interrupted the client.
    Interrupted,
    /// The connection to the broker failed.
    Failed(String),
}

/// What the client does about it.
#[derive(Debug, PartialEq, Eq)]
pub enum SessionAction {
    /// Write the bytes to standard output and flush it.
    Stdout(Vec<u8>),
    /// Write the bytes to standard error and flush it.
    Stderr(Vec<u8>),
    /// Leave with this exit status.
    Exit(i32),
    /// Send end-of-input and close for the channel, then leave with status 130.
    HangUp,
    /// Leave with this error.
    Fail(String),
    /// Nothing.
    Ignore,
}

/// The exit status of an interrupted command.
pub const INTERRUPTED_STATUS: i32 = 130;

/// What a client does about an event: only messages of its own channel count.
pub open spec fn session_response(channel: u64, event: SessionEvent) -> SessionAction {
    match event {
        SessionEvent::Interrupted => SessionAction::HangUp,
        SessionEvent::Failed(error) => SessionAction::Fail(error),
        SessionEvent::Received(message) => match message {
            Message::Data { channel_id, bytes } if channel_id == channel => SessionAction::Stdout(
                bytes,
            ),
            Message::Stderr { channel_id, bytes } if channel_id
                == channel => SessionAction::Stderr(bytes),
            Message::ExitStatus { channel_id, status } if channel_id
                == channel => SessionAction::Exit(status),
            Message::Error { channel_id, message } if channel_id == channel => SessionAction::Fail(
                message,
            ),
            _ => SessionAction::Ignore,
        },
    }
}

/// Decides what a client does about an event.
pub fn session_step(channel: u64, event: SessionEvent) -> (r: SessionAction)
    ensures
        r == session_response(channel, event),
{
    match event {
        SessionEvent::Interrupted => SessionAction::HangUp,
        SessionEvent::Failed(error) => SessionAction::Fail(error),
        SessionEvent::Received(message) => match message {
            Message::Data { channel_id, bytes } => {
                if channel_id == channel {
                    SessionAction::Stdout(bytes)
                } else {
                    SessionAction::Ignore
                }
            },
            Message::Stderr { channel_id, bytes } => {
                if channel_id == channel {
                    SessionAction::Stderr(bytes)
                } else {
                    SessionAction::Ignore
                }
            },
            Message::ExitStatus { channel_id, status } => {
                if channel_id == channel {
                    SessionAction::Exit(status)
                } else {
                    SessionAction::Ignore
                }
            },
            Message::Error { channel_id, message } => {
                if channel_id == channel {
                    SessionAction::Fail(message)
                } else {
                    SessionAction::Ignore
                }
            },
            _ => SessionAction::Ignore,
        },
    }
}

/// Whether a session is over after an action.
pub open spec fn session_ends(action: SessionAction) -> bool {
    action is Exit || action is HangUp || action is Fail
}

/// What a client writes to standard output and standard error, and how it ends, over a
/// run of events.
pub open spec fn session_run(channel: u64, events: Seq<SessionEvent>) -> (
    Seq<u8>,
    Seq<u8>,
    Option<SessionAction>,
)
    decreases events.len(),
{
    if events.len() == 0 {
        (Seq::empty(), Seq::empty(), None)
    } else {
        let action = session_response(channel, events[0]);
        if session_ends(action) {
            (Seq::empty(), Seq::empty(), Some(action))
        } else {
            let (out, err, end) = session_run(channel, events.skip(1));
            match action {
                SessionAction::Stdout(b) => (b@ + out, err, end),
                SessionAction::Stderr(b) => (out, b@ + err, end),
                _ => (out, err, end),
            }
        }
    }
}

/// Whether an event is a message of another channel, or one that no session reads.
pub open spec fn is_foreign(channel: u64, event: SessionEvent) -> bool {
    session_response(channel, event) is Ignore
}

/// Messages of other channels change nothing: a session ends and writes as it would
/// have without them.
pub proof fn lemma_session_reads_only_its_channel(channel: u64, events: Seq<SessionEvent>)
    ensures
        session_run(channel, events) == session_run(
            channel,
            events.filter(|e: SessionEvent| !is_foreign(channel, e)),
        ),
    decreases events.len(),
{
    let own = |e: SessionEvent| !is_foreign(channel, e);
    reveal(Seq::filter);
    if events.len() > 0 {
        let rest = events.skip(1);
        lemma_session_reads_only_its_channel(channel, rest);
        lemma_filter_head(events, own);
        if own(events[0]) {
            let kept = events.filter(own);
            assert(kept =~= seq![events[0]] + rest.filter(own));
            assert(kept.skip(1) =~= rest.filter(own));
        }
    } else {
        assert(events.filter(own) =~= events);
    }
}

proof fn lemma_filter_head(s: Seq<SessionEvent>, p: spec_fn(SessionEvent) -> bool)
    requires
        s.len() > 0,
    ensures
        s.filter(p) == if p(s[0]) {
            seq![s[0]] + s.skip(1).filter(p)
        } else {
            s.skip(1).filter(p)
        },
    decreases s.len(),
{
    reveal(Seq::filter);
    let rest = s.skip(1);
    if s.len() == 1 {
        assert(s.drop_last() =~= Seq::<SessionEvent>::empty());
        assert(rest =~= Seq::<SessionEvent>::empty());
        assert(s.drop_last().filter(p) =~= Seq::<SessionEvent>::empty());
        assert(rest.filter(p) =~= Seq::<SessionEvent>::empty());
        assert(s.filter(p) =~= if p(s[0]) {
            seq![s[0]]
        } else {
            Seq::<SessionEvent>::empty()
        });
    } else {
        lemma_filter_head(s.drop_last(), p);
        assert(s.drop_last().skip(1) =~= rest.drop_last());
        assert(rest.last() == s.last());
        assert(s.drop_last()[0] == s[0]);
        assert(s.filter(p) =~= if p(s[0]) {
            seq![s[0]] + rest.filter(p)
        } else {
            rest.filter(p)
        });
    }
}

// ---------------------------------------------------------------------------
// Input towards a channel
// ---------------------------------------------------------------------------

/// The outcome of reading local input.
#[derive(Debug, PartialEq, Eq)]
pub enum InputRead {
    /// The end of the input.
    End,
    Bytes(Vec<u8>),
    Interrupted,
    WouldBlock,
    Failed,
}

/// What to do with it.
#[derive(Debug, PartialEq, Eq)]
pub enum InputAction {
    /// Send the message and read on; a failed send ends the input.
    Send(Message),
    /// Send the message, whether or not that succeeds, and stop.
    SendLast(Message),
    /// Read again at once.
    Retry,
    /// Read again after a moment.
    Wait,
    /// Stop without a message.
    Stop,
}

/// Input typed by the user: it ends with end-of-input, and a failed read just stops.
pub fn stdin_step(channel_id: u64, read: InputRead) -> (r: InputAction)
    ensures
        match read {
            InputRead::End => r == InputAction::SendLast(Message::Eof { channel_id }),
            InputRead::Bytes(bytes) => r == InputAction::Send(Message::Data { channel_id, bytes }),
            InputRead::Interrupted => r == InputAction::Retry,
            InputRead::WouldBlock => r == InputAction::Stop,
            InputRead::Failed => r == InputAction::Stop,
        },
{
    match read {
        InputRead::End => InputAction::SendLast(Message::Eof { channel_id }),
        InputRead::Bytes(bytes) => InputAction::Send(Message::Data { channel_id, bytes }),
        InputRead::Interrupted => InputAction::Retry,
        InputRead::WouldBlock => InputAction::Stop,
        InputRead::Failed => InputAction::Stop,
    }
}

/// Bytes from a local TCP connection: a failed read closes the channel.
pub fn connection_input_step(channel_id: u64, read: InputRead) -> (r: InputAction)
    ensures
        match read {
            InputRead::End => r == InputAction::SendLast(Message::Eof { channel_id }),
            InputRead::Bytes(bytes) => r == InputAction::Send(Message::Data { channel_id, bytes }),
            InputRead::Interrupted => r == InputAction::Retry,
            InputRead::WouldBlock => r == InputAction::Wait,
            InputRead::Failed => r == InputAction::SendLast(Message::Close { channel_id }),
        },
{
    match read {
        InputRead::End => InputAction::SendLast(Message::Eof { channel_id }),
        InputRead::Bytes(bytes) => InputAction::Send(Message::Data { channel_id, bytes }),
        InputRead::Interrupted => InputAction::Retry,
        InputRead::WouldBlock => InputAction::Wait,
        InputRead::Failed => InputAction::SendLast(Message::Close { channel_id }),
    }
}

/// Piped input, sent as a whole: the bytes in one message unless there are none, then
/// end-of-input.
pub fn piped_input(channel_id: u64, bytes: Vec<u8>) -> (r: Vec<Message>)
    ensures
        bytes@.len() == 0 ==> r@ == seq![Message::Eof { channel_id }],
        bytes@.len() > 0 ==> r@ == seq![
            Message::Data { channel_id, bytes },
            Message::Eof { channel_id },
        ],
{
    let mut r: Vec<Message> = Vec::new();
    if bytes.len() > 0 {
        r.push(Message::Data { channel_id, bytes });
    }
    r.push(Message::Eof { channel_id });
    r
}

// ---------------------------------------------------------------------------
// Connections into the guest
// ---------------------------------------------------------------------------

/// How far a connection into the guest has come.
#[derive(Clone, Copy, PartialEq, Eq, Structural, Debug)]
pub enum ProxyPhase {
    /// No byte has come back yet: an error may be answered by opening anew.
    Opening,
    /// Bytes are flowing.
    Streaming,
}

/// What to do about a message on a connection into the guest.
#[derive(Debug, PartialEq, Eq)]
pub enum ProxyAction {
    /// Write the bytes to the local connection.
    WriteLocal(Vec<u8>),
    /// Tell the local peer that no more bytes will come.
    ShutdownWrite,
    /// The connection is over.
    Done,
    /// Wait a moment, then connect to the broker again with a new channel.
    Reopen,
    /// Shut the local connection down and fail with this error.
    Fail(String),
    /// Nothing.
    Ignore,
}

/// What to do about a message, and the phase after it. `late` says that the time for a
/// first response is over.
pub open spec fn proxy_response(
    phase: ProxyPhase,
    channel: u64,
    late: bool,
    message: Message,
) -> (ProxyAction, ProxyPhase) {
    match message {
        Message::Data { channel_id, bytes } if channel_id == channel => (
            ProxyAction::WriteLocal(bytes),
            ProxyPhase::Streaming,
        ),
        Message::Eof { channel_id } if channel_id == channel => (ProxyAction::ShutdownWrite, phase),
        Message::Close { channel_id } if channel_id == channel => (ProxyAction::Done, phase),
        Message::Error { channel_id, message } if channel_id == channel => if phase
            == ProxyPhase::Opening && !late {
            (ProxyAction::Reopen, ProxyPhase::Opening)
        } else {
            (ProxyAction::Fail(message), phase)
        },
        _ => (ProxyAction::Ignore, phase),
    }
}

/// Decides what to do about a message on a connection into the guest.
pub fn proxy_step(phase: ProxyPhase, channel: u64, late: bool, message: Message) -> (r: (
    ProxyAction,
    ProxyPhase,
))
    ensures
        r == proxy_response(phase, channel, late, message),
{
    match message {
        Message::Data { channel_id, bytes } => {
            if channel_id == channel {
                (ProxyAction::WriteLocal(bytes), ProxyPhase::Streaming)
            } else {
                (ProxyAction::Ignore, phase)
            }
        },
        Message::Eof { channel_id } => {
            if channel_id == channel {
                (ProxyAction::ShutdownWrite, phase)
            } else {
                (ProxyAction::Ignore, phase)
            }
        },
        Message::Close { channel_id } => {
            if channel_id == channel {
                (ProxyAction::Done, phase)
            } else {
                (ProxyAction::Ignore, phase)
            }
        },
        Message::Error { channel_id, message } => {
            if channel_id != channel {
                (ProxyAction::Ignore, phase)
            } else if phase == ProxyPhase::Opening && !late {
                (ProxyAction::Reopen, ProxyPhase::Opening)
            } else {
                (ProxyAction::Fail(message), phase)
            }
        },
        _ => (ProxyAction::Ignore, phase),
    }
}

/// A connection is opened anew only while no byte has come back: once bytes flow, the
/// phase never goes back.
pub proof fn lemma_streaming_is_never_reopened(channel: u64, late: bool, message: Message)
    ensures
        proxy_response(ProxyPhase::Streaming, channel, late, message).1 == ProxyPhase::Streaming,
        !(proxy_response(ProxyPhase::Streaming, channel, late, message).0 is Reopen),
{
}

/// The messages that open a connection into the guest and hand over the bytes that
/// were read before it was opened.
pub fn proxy_open(channel_id: u64, host: String, port: u16, initial: Vec<u8>) -> (r: Vec<Message>)
    ensures
        initial@.len() == 0 ==> r@ == seq![Message::OpenTcp { channel_id, host, port }],
        initial@.len() > 0 ==> r@ == seq![
            Message::OpenTcp { channel_id, host, port },
            Message::Data { channel_id, bytes: initial },
        ],
{
    let mut r: Vec<Message> = Vec::new();
    r.push(Message::OpenTcp { channel_id, host, port });
    if initial.len() > 0 {
        r.push(Message::Data { channel_id, bytes: initial });
    }
    r
}

/// Decides what the host side of a port forward does about a message: as on any
/// connection into the guest, but an error ends it at once.
pub fn forward_step(channel: u64, message: Message) -> (r: ProxyAction)
    ensures
        r == proxy_response(ProxyPhase::Streaming, channel, true, message).0,
{
    proxy_step(ProxyPhase::Streaming, channel, true, message).0
}

// ---------------------------------------------------------------------------
// Requests that wait for one answer
// ---------------------------------------------------------------------------

/// How far a request has come.
#[derive(Debug, PartialEq, Eq)]
pub enum Reply {
    Done,
    Failed(String),
    /// Another message: keep waiting.
    Waiting,
}

/// The answer to a checkpoint request.
pub fn checkpoint_reply(channel: u64, message: Message) -> (r: Reply)
    ensures
        r == match message {
            Message::CheckpointCreated { channel_id } if channel_id == channel => Reply::Done,
            Message::Error { channel_id, message } if channel_id == channel => Reply::Failed(
                message,
            ),
            _ => Reply::Waiting,
        },
        r is Done <==> message == (Message::CheckpointCreated { channel_id: channel }),
        r is Failed <==> (message matches Message::Error { channel_id, .. } && channel_id == channel),
{
    match message {
        Message::CheckpointCreated { channel_id } => {
            if channel_id == channel {
                Reply::Done
            } else {
                Reply::Waiting
            }
        },
        Message::Error { channel_id, message } => {
            if channel_id == channel {
                Reply::Failed(message)
            } else {
                Reply::Waiting
            }
        },
        _ => Reply::Waiting,
    }
}

/// The guest agent's answer to a restore sync.
pub fn restore_sync_reply(channel: u64, message: Message) -> (r: Reply)
    ensures
        r == match message {
            Message::RestoreSynced { channel_id } if channel_id == channel => Reply::Done,
            Message::Error { channel_id, message } if channel_id == channel => Reply::Failed(
                message,
            ),
            _ => Reply::Waiting,
        },
        r is Done <==> message == (Message::RestoreSynced { channel_id: channel }),
        r is Failed <==> (message matches Message::Error { channel_id, .. } && channel_id == channel),
{
    match message {
        Message::RestoreSynced { channel_id } => {
            if channel_id == channel {
                Reply::Done
            } else {
                Reply::Waiting
            }
        },
        Message::Error { channel_id, message } => {
            if channel_id == channel {
                Reply::Failed(message)
            } else {
                Reply::Waiting
            }
        },
        _ => Reply::Waiting,
    }
}

// ---------------------------------------------------------------------------
// Laws of a session and of a connection
// ---------------------------------------------------------------------------

/// A session goes on from where it was: what is written over two runs of events is what
/// the first writes and then what the second writes, unless the first ended it.
pub proof fn lemma_session_goes_on(channel: u64, a: Seq<SessionEvent>, b: Seq<SessionEvent>)
    ensures
        session_run(channel, a).2 is None ==> session_run(channel, a + b) == (
            session_run(channel, a).0 + session_run(channel, b).0,
            session_run(channel, a).1 + session_run(channel, b).1,
            session_run(channel, b).2,
        ),
        session_run(channel, a).2 is Some ==> session_run(channel, a + b) == session_run(
            channel,
            a,
        ),
    decreases a.len(),
{
    if a.len() == 0 {
        assert(a + b =~= b);
        assert(session_run(channel, a).0 + session_run(channel, b).0 =~= session_run(
            channel,
            b,
        ).0);
        assert(session_run(channel, a).1 + session_run(channel, b).1 =~= session_run(
            channel,
            b,
        ).1);
    } else {
        lemma_session_goes_on(channel, a.skip(1), b);
        assert((a + b).skip(1) =~= a.skip(1) + b);
        assert((a + b)[0] == a[0]);
        let (out, err, end) = session_run(channel, a.skip(1));
        let (more, more_err, _) = session_run(channel, b);
        match session_response(channel, a[0]) {
            SessionAction::Stdout(bytes) => {
                assert(bytes@ + (out + more) =~= (bytes@ + out) + more);
            },
            SessionAction::Stderr(bytes) => {
                assert(bytes@ + (err + more_err) =~= (bytes@ + err) + more_err);
            },
            _ => {},
        }
    }
}

/// What one message of the session's own channel does: output goes to standard output,
/// error output to standard error, a status ends the session with it, an error fails it,
/// and an interruption hangs up.
pub proof fn lemma_session_of_one(
    channel: u64,
    other: u64,
    bytes: Vec<u8>,
    status: i32,
    error: String,
)
    ensures
        session_run(
            channel,
            seq![SessionEvent::Received(Message::Data { channel_id: channel, bytes })],
        ) == (bytes@, Seq::<u8>::empty(), None::<SessionAction>),
        session_run(
            channel,
            seq![SessionEvent::Received(Message::Stderr { channel_id: channel, bytes })],
        ) == (Seq::<u8>::empty(), bytes@, None::<SessionAction>),
        session_run(
            channel,
            seq![SessionEvent::Received(Message::ExitStatus { channel_id: channel, status })],
        ) == (Seq::<u8>::empty(), Seq::<u8>::empty(), Some(SessionAction::Exit(status))),
        session_run(
            channel,
            seq![SessionEvent::Received(Message::Error { channel_id: channel, message: error })],
        ) == (Seq::<u8>::empty(), Seq::<u8>::empty(), Some(SessionAction::Fail(error))),
        session_run(channel, seq![SessionEvent::Interrupted]) == (
            Seq::<u8>::empty(),
            Seq::<u8>::empty(),
            Some(SessionAction::HangUp),
        ),
        session_run(channel, seq![SessionEvent::Failed(error)]) == (
            Seq::<u8>::empty(),
            Seq::<u8>::empty(),
            Some(SessionAction::Fail(error)),
        ),
        other != channel ==> {
            let nothing = (Seq::<u8>::empty(), Seq::<u8>::empty(), None::<SessionAction>);
            &&& session_run(
                channel,
                seq![SessionEvent::Received(Message::Data { channel_id: other, bytes })],
            ) == nothing
            &&& session_run(
                channel,
                seq![SessionEvent::Received(Message::Stderr { channel_id: other, bytes })],
            ) == nothing
            &&& session_run(
                channel,
                seq![SessionEvent::Received(Message::ExitStatus { channel_id: other, status })],
            ) == nothing
            &&& session_run(
                channel,
                seq![SessionEvent::Received(Message::Error { channel_id: other, message: error })],
            ) == nothing
        },
{
    reveal_with_fuel(session_run, 2);
    assert(bytes@ + Seq::<u8>::empty() =~= bytes@);
    let events = seq![SessionEvent::Received(Message::Data { channel_id: channel, bytes })];
    assert(events.skip(1) =~= Seq::<SessionEvent>::empty());
    let events = seq![SessionEvent::Received(Message::Stderr { channel_id: channel, bytes })];
    assert(events.skip(1) =~= Seq::<SessionEvent>::empty());
    let events = seq![SessionEvent::Received(Message::Data { channel_id: other, bytes })];
    assert(events.skip(1) =~= Seq::<SessionEvent>::empty());
    let events = seq![SessionEvent::Received(Message::Stderr { channel_id: other, bytes })];
    assert(events.skip(1) =~= Seq::<SessionEvent>::empty());
    let events = seq![SessionEvent::Received(Message::ExitStatus { channel_id: other, status })];
    assert(events.skip(1) =~= Seq::<SessionEvent>::empty());
    let events = seq![
        SessionEvent::Received(Message::Error { channel_id: other, message: error }),
    ];
    assert(events.skip(1) =~= Seq::<SessionEvent>::empty());
}

/// Bytes of the guest are written out whatever came before, the end of its output and the
/// close are passed on, and an error is answered by opening anew exactly while no byte has
/// come back and there is time; a message of another channel changes nothing.
pub proof fn lemma_connection_answers(
    phase: ProxyPhase,
    channel: u64,
    other: u64,
    late: bool,
    bytes: Vec<u8>,
    error: String,
)
    ensures
        proxy_response(phase, channel, late, Message::Data { channel_id: channel, bytes }) == (
            ProxyAction::WriteLocal(bytes),
            ProxyPhase::Streaming,
        ),
        proxy_response(phase, channel, late, Message::Eof { channel_id: channel }) == (
            ProxyAction::ShutdownWrite,
            phase,
        ),
        proxy_response(phase, channel, late, Message::Close { channel_id: channel }) == (
            ProxyAction::Done,
            phase,
        ),
        (proxy_response(
            phase,
            channel,
            late,
            Message::Error { channel_id: channel, message: error },
        ).0 is Reopen) == (phase is Opening && !late),
        phase is Streaming || late ==> proxy_response(
            phase,
            channel,
            late,
            Message::Error { channel_id: channel, message: error },
        ).0 == ProxyAction::Fail(error),
        other != channel ==> {
            &&& proxy_response(phase, channel, late, Message::Data { channel_id: other, bytes })
                == (ProxyAction::Ignore, phase)
            &&& proxy_response(phase, channel, late, Message::Eof { channel_id: other }) == (
                ProxyAction::Ignore,
                phase,
            )
            &&& proxy_response(phase, channel, late, Message::Close { channel_id: other }) == (
                ProxyAction::Ignore,
                phase,
            )
            &&& proxy_response(
                phase,
                channel,
                late,
                Message::Error { channel_id: other, message: error },
            ) == (ProxyAction::Ignore, phase)
        },
{
}

/// A client goes on with a broker exactly where that answers with a hello of the same
/// version; another version is named on both sides, and any other answer is handed back.
pub proof fn lemma_hello(version: u16, actual: u16, other: Message)
    ensures
        hello_outcome(version, Some(Message::Hello { version: actual })) is Ok <==> actual
            == version,
        actual != version ==> hello_outcome(version, Some(Message::Hello { version: actual }))
            == Err::<(), _>(HelloError::Mismatch { expected: version, actual }),
        hello_outcome(version, None) == Err::<(), _>(HelloError::Failed),
        !(other is Hello) ==> hello_outcome(version, Some(other)) == Err::<(), _>(
            HelloError::Bad(other),
        ),
{
}

} // verus!
