//! The decisions of one connection's inbound and outbound loops.
use vstd::prelude::*;

verus! {

/// What a read from the connection produced.
#[derive(Debug, Clone, PartialEq, Eq)]
pub enum InboundFrame {
    /// A text frame.
    Text(String),
    /// A binary, ping, pong or other frame that carries no chat message.
    NonText,
    /// The peer closed the connection, or the read failed.
    Ended,
}

/// What the inbound loop does with a frame.
#[derive(Debug, PartialEq, Eq)]
pub enum InboundDecision {
    /// Decode this text as a chat message and hand it to the ingest pipeline.
    Decode(String),
    /// Ignore the frame and read the next one.
    Skip,
    /// Stop reading, deregister the connection and stop its outbound loop.
    EndSession,
}

/// What the outbound loop does after writing a frame.
#[derive(Debug, PartialEq, Eq, Structural, Clone, Copy)]
pub enum OutboundDecision {
    /// Wait for the next queued frame.
    Continue,
    /// Stop writing and deregister the connection.
    EndSession,
}

/// Decides on one inbound frame: text frames are decoded, other frames are
/// skipped, and only the end of the stream ends the session.
pub fn on_inbound(frame: InboundFrame) -> (r: InboundDecision)
    ensures
        match frame {
            InboundFrame::Text(t) => r matches InboundDecision::Decode(d) && d@ == t@,
            InboundFrame::NonText => r is Skip,
            InboundFrame::Ended => r is EndSession,
        },
{
    match frame {
        InboundFrame::Text(t) => InboundDecision::Decode(t),
        InboundFrame::NonText => InboundDecision::Skip,
        InboundFrame::Ended => InboundDecision::EndSession,
    }
}

/// Decides after a write: a failed write ends the session.
pub fn on_write_result(written: bool) -> (r: OutboundDecision)
    ensures
        r == (if written { OutboundDecision::Continue } else { OutboundDecision::EndSession }),
{
    if written {
        OutboundDecision::Continue
    } else {
        OutboundDecision::EndSession
    }
}

} // verus!
