//! Errors of tunnels and of the streams below them, as plain values.
use crate::text::concat;
use vstd::prelude::*;

verus! {

/// What kind of failure a stream reports.
#[derive(Debug, Clone, Copy, PartialEq, Eq, Structural)]
pub enum IoKind {
    ConnectionRefused,
    ConnectionReset,
    ConnectionAborted,
    NotConnected,
    BrokenPipe,
    InvalidInput,
    InvalidData,
    TimedOut,
    Interrupted,
    WouldBlock,
    UnexpectedEof,
    Other,
}

/// The tunnel error that a failure of a stream carries.
#[derive(Debug)]
pub enum IoCause {
    Plain,
    ConnectionClosed,
    Remote(String),
    Transport(String),
}

/// A failure of a stream, and the text that it shows.
#[derive(Debug)]
pub struct IoError {
    pub kind: IoKind,
    pub text: String,
    pub cause: IoCause,
}

/// An error of a tunnel.
#[derive(Debug)]
pub enum TunnelError {
    Transport(IoError),
    ConnectionClosed,
    Remote(String),
}

impl TunnelError {
    /// What the error shows.
    pub open spec fn text(&self) -> Seq<char> {
        match self {
            TunnelError::Transport(e) => "transport error: "@ + e.text@,
            TunnelError::ConnectionClosed => "connection closed"@,
            TunnelError::Remote(reason) => "remote error: "@ + reason@,
        }
    }

    pub fn message(&self) -> (r: String)
        ensures
            r@ == self.text(),
    {
        match self {
            TunnelError::Transport(e) => concat("transport error: ", e.text.as_str()),
            TunnelError::ConnectionClosed => "connection closed".to_owned(),
            TunnelError::Remote(reason) => concat("remote error: ", reason.as_str()),
        }
    }

    /// The failure that stands for the error on a stream.
    pub fn into_io_error(self) -> (r: IoError)
        ensures
            match self {
                TunnelError::Transport(e) => r == e,
                TunnelError::ConnectionClosed => {
                    &&& r.kind == IoKind::BrokenPipe
                    &&& r.text@ == "connection closed"@
                    &&& r.cause is ConnectionClosed
                },
                TunnelError::Remote(reason) => {
                    &&& r.kind == IoKind::Other
                    &&& r.text@ == "remote error: "@ + reason@
                    &&& r.cause == IoCause::Remote(reason)
                },
            },
    {
        match self {
            TunnelError::Transport(e) => e,
            TunnelError::ConnectionClosed => IoError {
                kind: IoKind::BrokenPipe,
                text: "connection closed".to_owned(),
                cause: IoCause::ConnectionClosed,
            },
            TunnelError::Remote(reason) => {
                let text: String = concat("remote error: ", reason.as_str());
                IoError { kind: IoKind::Other, text, cause: IoCause::Remote(reason) }
            },
        }
    }
}

/// An error of a tunnel keeps its cause on the stream: one of the transport is
/// handed on as it is, a closed connection is a broken pipe, and the reason that
/// the other side gave can still be told.
pub proof fn law_stream_keeps_the_cause(e: TunnelError, r: IoError)
    requires
        call_ensures(TunnelError::into_io_error, (e,), r),
    ensures
        e matches TunnelError::Transport(io) ==> r == io,
        e is ConnectionClosed ==> r.kind is BrokenPipe && r.cause is ConnectionClosed,
        e matches TunnelError::Remote(reason) ==> r.kind is Other && (r.cause
            matches IoCause::Remote(t) && t@ == reason@),
{
}

} // verus!
