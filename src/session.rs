//! Decisions of a player's reliable connection: what to do with each inbound
//! frame while waiting for the connect message, and when the connection ends.
//! The connection task performs the I/O and reports what happened.

use vstd::prelude::*;

verus! {

/// What a frame of the reliable stream is.
#[derive(Debug, Clone, Copy, PartialEq, Eq, Structural)]
pub enum FrameKind {
    Text,
    Binary,
    Close,
    Other,
}

/// What reading the reliable stream gave.
#[derive(Debug, Clone, Copy, PartialEq, Eq, Structural)]
pub enum Inbound {
    /// The stream has no more frames.
    Ended,
    /// Reading failed.
    Failed,
    /// A frame arrived.
    Frame(FrameKind),
}

/// Why a connection ends.
#[derive(Debug, Clone, Copy, PartialEq, Eq, Structural)]
pub enum StopReason {
    /// The stream has no more frames.
    StreamClosed,
    /// Reading the stream failed.
    StreamFailed,
    /// The client sent a close frame.
    CloseFrame,
    /// The event queue yielded nothing: its sending half is gone.
    QueueClosed,
    /// Forwarding events to the client failed.
    SendFailed,
}

/// What to do with an inbound frame while waiting for the connect message.
#[derive(Debug, Clone, Copy, PartialEq, Eq, Structural)]
pub enum ConnectStep {
    /// Read the frame as the connect message.
    Parse,
    /// Ignore the frame and read the next one.
    Skip,
    /// Give up on the connection.
    Stop(StopReason),
}

/// What happened while a connection is established.
#[derive(Debug, Clone, Copy, PartialEq, Eq, Structural)]
pub enum SessionEvent {
    /// A batch of this many queued events was taken and forwarded.
    Forwarded(usize),
    /// Forwarding a batch failed.
    ForwardFailed,
    /// Something was read from the stream.
    Received(Inbound),
}

/// Why reading the stream ends a connection, if it does.
pub open spec fn inbound_stop(inbound: Inbound) -> Option<StopReason> {
    match inbound {
        Inbound::Ended => Some(StopReason::StreamClosed),
        Inbound::Failed => Some(StopReason::StreamFailed),
        Inbound::Frame(FrameKind::Close) => Some(StopReason::CloseFrame),
        Inbound::Frame(_) => None,
    }
}

fn stop_on(inbound: Inbound) -> (r: Option<StopReason>)
    ensures
        r == inbound_stop(inbound),
{
    match inbound {
        Inbound::Ended => Some(StopReason::StreamClosed),
        Inbound::Failed => Some(StopReason::StreamFailed),
        Inbound::Frame(FrameKind::Close) => Some(StopReason::CloseFrame),
        Inbound::Frame(_) => None,
    }
}

/// Before the connect message: text and binary frames are parsed, other
/// frames skipped, and the end of the stream, a read error or a close frame
/// end the connection.
pub fn connect_step(inbound: Inbound) -> (r: ConnectStep)
    ensures
        r == match inbound_stop(inbound) {
            Some(reason) => ConnectStep::Stop(reason),
            None => if inbound == Inbound::Frame(FrameKind::Text) || inbound == Inbound::Frame(
                FrameKind::Binary,
            ) {
                ConnectStep::Parse
            } else {
                ConnectStep::Skip
            },
        },
{
    match stop_on(inbound) {
        Some(reason) => ConnectStep::Stop(reason),
        None => match inbound {
            Inbound::Frame(FrameKind::Text) | Inbound::Frame(FrameKind::Binary) => ConnectStep::Parse,
            _ => ConnectStep::Skip,
        },
    }
}

/// While connected: the connection ends on an empty batch, a failed
/// forward, or what ends it in `inbound_stop`; `None` means it goes on.
pub fn session_step(event: SessionEvent) -> (r: Option<StopReason>)
    ensures
        r == match event {
            SessionEvent::Forwarded(n) => if n == 0 {
                Some(StopReason::QueueClosed)
            } else {
                None
            },
            SessionEvent::ForwardFailed => Some(StopReason::SendFailed),
            SessionEvent::Received(inbound) => inbound_stop(inbound),
        },
{
    match event {
        SessionEvent::Forwarded(n) => if n == 0 {
            Some(StopReason::QueueClosed)
        } else {
            None
        },
        SessionEvent::ForwardFailed => Some(StopReason::SendFailed),
        SessionEvent::Received(inbound) => stop_on(inbound),
    }
}

} // verus!
