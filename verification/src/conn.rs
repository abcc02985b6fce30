//! The lifecycle of one connection, shared by both peer roles, and the
//! decision the client takes on each console line.
//!
//! A connection is opened once, then polled: frames that arrive are
//! decoded and displayed, transient would-blocks are tolerated, and any
//! non-transient failure (or an undecodable frame) closes it for good.

use crate::codec;
use crate::codec::{payload_of, FrameError, FRAME_LEN};
use vstd::prelude::*;
use vstd::string::StrSliceExecFns;
use vstd::utf8::{decode_utf8, encode_utf8, valid_utf8};

verus! {

/// How long a polling loop sleeps between attempts on a non-blocking
/// socket, in milliseconds.
pub const POLL_INTERVAL_MS: u64 = 100;

/// The well-known local endpoint both peer roles use.
pub const ENDPOINT: &'static str = "127.0.0.1:6000";

/// Where a connection stands in its lifecycle.
#[derive(Clone, Copy, Debug, PartialEq, Eq, Structural)]
pub enum Phase {
    /// The connect attempt has not completed yet.
    Connecting,
    /// The connection relays frames in both directions.
    Open,
    /// The connection is gone; this phase is terminal.
    Closed,
}

/// What a connection's owner observed since the last step.
pub enum ConnEvent {
    /// The connect attempt succeeded.
    Connected,
    /// A whole frame was read from the socket.
    FrameArrived(Vec<u8>),
    /// A frame was written to the socket.
    FrameSent,
    /// The socket had nothing pending: a transient would-block.
    Paused,
    /// A non-transient I/O error, or a short read at end of stream.
    IoFailed,
    /// The user entered the quit sentinel (client only).
    QuitEntered,
}

/// What the connection's owner must do after a step.
#[derive(Debug)]
pub enum ConnEffect {
    /// Display the decoded payload of the frame that arrived.
    Deliver(String),
    /// Report why the frame that arrived was dropped.
    Reject(FrameError),
    /// Nothing beyond moving to the new phase.
    NoEffect,
}

/// Advances a connection by one observed event and says what its owner
/// must do: a frame that arrives on an open connection is decoded and
/// delivered, an undecodable frame or any non-transient failure closes
/// the connection, a would-block leaves everything as it was, and the
/// quit sentinel closes an open connection without an error.
pub fn step(phase: Phase, event: ConnEvent) -> (r: (Phase, ConnEffect))
    requires
        event matches ConnEvent::FrameArrived(f) ==> f@.len() == FRAME_LEN,
    ensures
        phase is Closed ==> (r.0 is Closed && r.1 is NoEffect),
        phase is Connecting && event is Connected ==> (r.0 is Open && r.1 is NoEffect),
        phase is Connecting && event is IoFailed ==> (r.0 is Closed && r.1 is NoEffect),
        phase is Connecting && !(event is Connected) && !(event is IoFailed) ==> (r.0
            is Connecting && r.1 is NoEffect),
        phase is Open ==> (event matches ConnEvent::FrameArrived(f) ==> (if valid_utf8(
            payload_of(f@),
        ) {
            &&& r.0 is Open
            &&& r.1 matches ConnEffect::Deliver(s) && s@ == decode_utf8(payload_of(f@))
        } else {
            &&& r.0 is Closed
            &&& r.1 matches ConnEffect::Reject(e) && e == FrameError::BadEncoding
        })),
        phase is Open && (event is Connected || event is FrameSent || event is Paused) ==> (r.0
            is Open && r.1 is NoEffect),
        phase is Open && (event is IoFailed || event is QuitEntered) ==> (r.0 is Closed && r.1
            is NoEffect),
{
    match phase {
        Phase::Closed => (Phase::Closed, ConnEffect::NoEffect),
        Phase::Connecting => match event {
            ConnEvent::Connected => (Phase::Open, ConnEffect::NoEffect),
            ConnEvent::IoFailed => (Phase::Closed, ConnEffect::NoEffect),
            _ => (Phase::Connecting, ConnEffect::NoEffect),
        },
        Phase::Open => match event {
            ConnEvent::FrameArrived(f) => match codec::decode(&f) {
                Ok(s) => (Phase::Open, ConnEffect::Deliver(s)),
                Err(e) => (Phase::Closed, ConnEffect::Reject(e)),
            },
            ConnEvent::IoFailed => (Phase::Closed, ConnEffect::NoEffect),
            ConnEvent::QuitEntered => (Phase::Closed, ConnEffect::NoEffect),
            _ => (Phase::Open, ConnEffect::NoEffect),
        },
    }
}

/// What the client does with one console line.
#[derive(Debug)]
pub enum LineAction {
    /// End the program cleanly; transmit nothing.
    Quit,
    /// Enqueue the line for transmission.
    Send(String),
}

/// The literal console line that ends the client.
pub open spec fn quit_sentinel() -> Seq<char> {
    ":quit"@
}

/// Two UTF-8 encodings agree only on equal character sequences.
pub proof fn lemma_encode_utf8_injective(a: Seq<char>, b: Seq<char>)
    requires
        encode_utf8(a) == encode_utf8(b),
    ensures
        a == b,
{
    vstd::utf8::encode_utf8_decode_utf8(a);
    vstd::utf8::encode_utf8_decode_utf8(b);
}

fn bytes_eq(a: &Vec<u8>, b: &Vec<u8>) -> (r: bool)
    ensures
        r == (a@ == b@),
{
    if a.len() != b.len() {
        return false;
    }
    let mut i: usize = 0;
    while i < a.len()
        invariant
            i <= a@.len(),
            a@.len() == b@.len(),
            forall|j: int| 0 <= j < i ==> a@[j] == b@[j],
        decreases a@.len() - i,
    {
        if a[i] != b[i] {
            return false;
        }
        i = i + 1;
    }
    proof {
        assert(a@ =~= b@);
    }
    true
}

/// Decides what to do with one console line, already stripped of its
/// newline: the quit sentinel ends the client and is never transmitted;
/// every other line is sent as it was entered.
pub fn classify_line(line: String) -> (a: LineAction)
    ensures
        line@ == quit_sentinel() ==> a is Quit,
        line@ != quit_sentinel() ==> (a matches LineAction::Send(m) && m == line),
{
    let line_bytes = line.as_str().as_bytes_vec();
    let quit_bytes = ":quit".as_bytes_vec();
    if bytes_eq(&line_bytes, &quit_bytes) {
        proof {
            lemma_encode_utf8_injective(line@, ":quit"@);
        }
        LineAction::Quit
    } else {
        LineAction::Send(line)
    }
}

} // verus!
