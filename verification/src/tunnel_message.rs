//! The messages that open a stream in a tunnel, and what each side does with
//! them.
use crate::text::{concat3, decimal, format_u64, utf8_text};
use crate::tunnel_error::{IoCause, IoError, IoKind, TunnelError};
use crate::wire::{be16, push_bytes, push_u16, read_u16, slice_bytes, u16_at};
use vstd::prelude::*;
use vstd::utf8::{decode_utf8, encode_utf8, valid_utf8};

verus! {

broadcast use {vstd::utf8::encode_utf8_valid_utf8, vstd::utf8::encode_utf8_decode_utf8};

/// What a tunnel connects to.
#[derive(Debug, Clone)]
pub struct TunnelTarget {
    pub host: String,
    pub port: u16,
}

impl TunnelTarget {
    pub fn new(host: String, port: u16) -> (r: Self)
        ensures
            r.host == host,
            r.port == port,
    {
        TunnelTarget { host, port }
    }

    /// The address of the target.
    pub fn address(&self) -> (r: String)
        ensures
            r@ == self.host@ + ":"@ + decimal(self.port as nat),
    {
        let port: String = format_u64(self.port as u64);
        concat3(self.host.as_str(), ":", port.as_str())
    }
}

/// The protocol of a stream.
#[derive(Debug, Clone, Copy, PartialEq, Eq, Structural)]
pub enum Protocol {
    Tcp,
    Udp,
}

/// The byte that stands for a protocol.
pub open spec fn protocol_byte(p: Protocol) -> u8 {
    match p {
        Protocol::Tcp => 0u8,
        Protocol::Udp => 1u8,
    }
}

impl Protocol {
    pub fn as_u8(self) -> (r: u8)
        ensures
            r == protocol_byte(self),
    {
        match self {
            Protocol::Tcp => 0,
            Protocol::Udp => 1,
        }
    }

    /// The protocol that a byte stands for.
    pub fn from_u8(value: u8) -> (r: Option<Self>)
        ensures
            match r {
                Some(p) => value == protocol_byte(p),
                None => value > 1,
            },
    {
        match value {
            0 => Some(Protocol::Tcp),
            1 => Some(Protocol::Udp),
            _ => None,
        }
    }
}

#[derive(Debug, Clone)]
pub struct StreamOpenRequest {
    pub protocol: Protocol,
    pub target: TunnelTarget,
}

#[derive(Debug, Clone)]
pub struct StreamOpenResponse {
    pub success: bool,
    pub error: Option<String>,
}

pub const MAX_HOST_LEN: usize = 65535;

pub const MAX_ERROR_LEN: usize = 65535;

// ---------------------------------------------------------------------------
// Requests
// ---------------------------------------------------------------------------

/// The bytes of a request.
pub open spec fn request_bytes(protocol: Protocol, host: Seq<char>, port: u16) -> Seq<u8> {
    let name = encode_utf8(host);
    seq![protocol_byte(protocol)] + be16(name.len() as u16) + name + be16(port)
}

/// Writes a request. Fails on a host whose name is too long.
pub fn write_stream_open_request(protocol: Protocol, target: &TunnelTarget) -> (r: Result<
    Vec<u8>,
    TunnelError,
>)
    ensures
        match r {
            Ok(bytes) => encode_utf8(target.host@).len() <= MAX_HOST_LEN && bytes@ == request_bytes(
                protocol,
                target.host@,
                target.port,
            ),
            Err(e) => encode_utf8(target.host@).len() > MAX_HOST_LEN && (e matches
                TunnelError::Remote(m) && m@ == "target host too long"@),
        },
{
    let host: &[u8] = target.host.as_str().as_bytes();
    if host.len() > MAX_HOST_LEN {
        return Err(TunnelError::Remote("target host too long".to_owned()));
    }
    let mut out: Vec<u8> = Vec::new();
    out.push(protocol.as_u8());
    push_u16(&mut out, host.len() as u16);
    push_bytes(&mut out, host);
    push_u16(&mut out, target.port);
    proof {
        assert(out@ =~= request_bytes(protocol, target.host@, target.port));
    }
    Ok(out)
}

/// What the bytes of a request say so far.
pub enum RequestParse {
    /// More bytes are needed.
    More,
    UnsupportedProtocol,
    InvalidHost,
    Done { protocol: Protocol, host: Seq<char>, port: u16, used: int },
}

/// The protocol that a byte stands for.
pub open spec fn byte_protocol(b: u8) -> Option<Protocol> {
    if b == 0 {
        Some(Protocol::Tcp)
    } else if b == 1 {
        Some(Protocol::Udp)
    } else {
        None
    }
}

/// What the bytes of a request say so far.
pub open spec fn request_in(data: Seq<u8>) -> RequestParse {
    if data.len() < 1 {
        RequestParse::More
    } else {
        match byte_protocol(data[0]) {
            None => RequestParse::UnsupportedProtocol,
            Some(protocol) => if data.len() < 3 || data.len() < 3 + u16_at(data, 1) {
                RequestParse::More
            } else {
                let n = u16_at(data, 1) as int;
                let name = data.subrange(3, 3 + n);
                if !valid_utf8(name) {
                    RequestParse::InvalidHost
                } else if data.len() < 5 + n {
                    RequestParse::More
                } else {
                    RequestParse::Done {
                        protocol,
                        host: decode_utf8(name),
                        port: u16_at(data, 3 + n),
                        used: 5 + n,
                    }
                }
            },
        }
    }
}

/// Reads a request from the bytes that have come; nothing where more are
/// needed. Also gives the number of bytes that the request takes.
pub fn read_stream_open_request(data: &[u8]) -> (r: Result<
    Option<(StreamOpenRequest, usize)>,
    TunnelError,
>)
    ensures
        match request_in(data@) {
            RequestParse::More => r matches Ok(None),
            RequestParse::UnsupportedProtocol => r matches Err(TunnelError::Remote(m)) && m@
                == "unsupported protocol"@,
            RequestParse::InvalidHost => r matches Err(TunnelError::Remote(m)) && m@
                == "invalid target host encoding"@,
            RequestParse::Done { protocol, host, port, used } => r matches Ok(Some((q, n)))
                && q.protocol == protocol && q.target.host@ == host && q.target.port == port && n
                == used,
        },
{
    if data.len() < 1 {
        return Ok(None);
    }
    let protocol: Protocol = match Protocol::from_u8(data[0]) {
        Some(p) => p,
        None => {
            return Err(TunnelError::Remote("unsupported protocol".to_owned()));
        },
    };
    if data.len() < 3 {
        return Ok(None);
    }
    let n: usize = read_u16(data, 1) as usize;
    if data.len() < 3 + n {
        return Ok(None);
    }
    match utf8_text(slice_bytes(data, 3, 3 + n)) {
        Err(_) => Err(TunnelError::Remote("invalid target host encoding".to_owned())),
        Ok(host) => {
            if data.len() < 5 + n {
                return Ok(None);
            }
            let port: u16 = read_u16(data, 3 + n);
            Ok(Some((StreamOpenRequest { protocol, target: TunnelTarget::new(host, port) }, 5 + n)))
        },
    }
}

/// What the end of a stream inside a message counts as.
#[derive(Debug, Clone, Copy, PartialEq, Eq, Structural)]
pub enum StreamEnd {
    /// The transport failed.
    Transport,
    ConnectionClosed,
}

/// The stream ended after these bytes: inside the name of the host, or inside
/// one of the numbers around it.
pub fn request_end(data: &[u8]) -> (r: StreamEnd)
    requires
        request_in(data@) is More,
    ensures
        r == (if data@.len() >= 3 && data@.len() < 3 + u16_at(data@, 1) {
            StreamEnd::ConnectionClosed
        } else {
            StreamEnd::Transport
        }),
{
    if data.len() >= 3 && data.len() < 3 + read_u16(data, 1) as usize {
        StreamEnd::ConnectionClosed
    } else {
        StreamEnd::Transport
    }
}

/// A request is read as it was written, whatever follows it.
pub proof fn law_request_round_trip(
    protocol: Protocol,
    host: Seq<char>,
    port: u16,
    rest: Seq<u8>,
)
    requires
        encode_utf8(host).len() <= MAX_HOST_LEN,
    ensures
        request_in(request_bytes(protocol, host, port) + rest) == (RequestParse::Done {
            protocol,
            host,
            port,
            used: request_bytes(protocol, host, port).len() as int,
        }),
{
    let name = encode_utf8(host);
    let n = name.len() as int;
    let data = request_bytes(protocol, host, port) + rest;
    assert(data[0] == protocol_byte(protocol));
    assert(data[1] == be16(n as u16)[0]);
    assert(data[2] == be16(n as u16)[1]);
    assert(u16_at(data, 1) == n);
    assert(data.subrange(3, 3 + n) =~= name);
    assert(data[3 + n] == be16(port)[0]);
    assert(data[4 + n] == be16(port)[1]);
    assert(u16_at(data, 3 + n) == port);
}

/// A request is not taken for complete, nor for broken, before all of it has
/// come.
pub proof fn law_request_waits(protocol: Protocol, host: Seq<char>, port: u16, cut: int)
    requires
        encode_utf8(host).len() <= MAX_HOST_LEN,
        0 <= cut < request_bytes(protocol, host, port).len(),
    ensures
        request_in(request_bytes(protocol, host, port).take(cut)) is More,
{
    let name = encode_utf8(host);
    let n = name.len() as int;
    let whole = request_bytes(protocol, host, port);
    let data = whole.take(cut);
    if cut >= 1 {
        assert(data[0] == protocol_byte(protocol));
    }
    if cut >= 3 {
        assert(data[1] == be16(n as u16)[0]);
        assert(data[2] == be16(n as u16)[1]);
        assert(u16_at(data, 1) == n);
    }
    if cut >= 3 + n {
        assert(data.subrange(3, 3 + n) =~= name);
    }
}

// ---------------------------------------------------------------------------
// Responses
// ---------------------------------------------------------------------------

/// What is said of a stream that was refused without a reason.
pub open spec fn default_reason() -> Seq<char> {
    "remote open failed"@
}

/// The bytes of a response. A reason that is too long is cut.
pub open spec fn response_bytes(success: bool, error: Option<Seq<char>>) -> Seq<u8> {
    if success {
        seq![1u8]
    } else {
        let text = encode_utf8(
            match error {
                Some(e) => e,
                None => default_reason(),
            },
        );
        let n = if text.len() < MAX_ERROR_LEN {
            text.len() as int
        } else {
            MAX_ERROR_LEN as int
        };
        seq![0u8] + be16(n as u16) + text.take(n)
    }
}

/// Writes a response.
pub fn write_stream_open_response(success: bool, error: Option<&str>) -> (r: Vec<u8>)
    ensures
        r@ == response_bytes(
            success,
            match error {
                Some(e) => Some(e@),
                None => None,
            },
        ),
{
    let mut out: Vec<u8> = Vec::new();
    if success {
        out.push(1);
        proof {
            assert(out@ =~= seq![1u8]);
        }
        return out;
    }
    out.push(0);
    let message: &str = match error {
        Some(e) => e,
        None => "remote open failed",
    };
    let bytes: &[u8] = message.as_bytes();
    let n: usize = if bytes.len() < MAX_ERROR_LEN {
        bytes.len()
    } else {
        MAX_ERROR_LEN
    };
    push_u16(&mut out, n as u16);
    let cut: Vec<u8> = slice_bytes(bytes, 0, n);
    push_bytes(&mut out, cut.as_slice());
    proof {
        assert(cut@ =~= bytes@.take(n as int));
        assert(out@ =~= seq![0u8] + be16(n as u16) + bytes@.take(n as int));
    }
    out
}

/// What the bytes of a response say so far.
pub enum ResponseParse {
    More,
    Done { success: bool, error: Option<Seq<char>>, used: int },
}

/// What the bytes of a response say so far. A reason that cannot be read is
/// replaced.
pub open spec fn response_in(data: Seq<u8>) -> ResponseParse {
    if data.len() < 1 {
        ResponseParse::More
    } else if data[0] != 0 {
        ResponseParse::Done { success: true, error: None, used: 1 }
    } else if data.len() < 3 || data.len() < 3 + u16_at(data, 1) {
        ResponseParse::More
    } else {
        let n = u16_at(data, 1) as int;
        let text = data.subrange(3, 3 + n);
        ResponseParse::Done {
            success: false,
            error: Some(
                if valid_utf8(text) {
                    decode_utf8(text)
                } else {
                    default_reason()
                },
            ),
            used: 3 + n,
        }
    }
}

/// Reads a response from the bytes that have come; nothing where more are
/// needed.
pub fn read_stream_open_response(data: &[u8]) -> (r: Option<(StreamOpenResponse, usize)>)
    ensures
        match response_in(data@) {
            ResponseParse::More => r is None,
            ResponseParse::Done { success, error, used } => r matches Some((p, n)) && p.success
                == success && n == used && (match p.error {
                Some(t) => error == Some(t@),
                None => error is None,
            }),
        },
{
    if data.len() < 1 {
        return None;
    }
    if data[0] != 0 {
        return Some((StreamOpenResponse { success: true, error: None }, 1));
    }
    if data.len() < 3 {
        return None;
    }
    let n: usize = read_u16(data, 1) as usize;
    if data.len() < 3 + n {
        return None;
    }
    let message: String = match utf8_text(slice_bytes(data, 3, 3 + n)) {
        Ok(t) => t,
        Err(_) => "remote open failed".to_owned(),
    };
    Some((StreamOpenResponse { success: false, error: Some(message) }, 3 + n))
}

/// The stream ended after these bytes of a response: inside the reason, or
/// before it.
pub fn response_end(data: &[u8]) -> (r: StreamEnd)
    requires
        response_in(data@) is More,
    ensures
        r == (if data@.len() >= 3 {
            StreamEnd::ConnectionClosed
        } else {
            StreamEnd::Transport
        }),
{
    if data.len() >= 3 {
        StreamEnd::ConnectionClosed
    } else {
        StreamEnd::Transport
    }
}

/// A response is read as it was written, whatever follows it, if its reason
/// was not cut.
pub proof fn law_response_round_trip(success: bool, error: Seq<char>, rest: Seq<u8>)
    requires
        encode_utf8(error).len() <= MAX_ERROR_LEN,
    ensures
        response_in(response_bytes(success, Some(error)) + rest) == (ResponseParse::Done {
            success,
            error: if success {
                None
            } else {
                Some(error)
            },
            used: response_bytes(success, Some(error)).len() as int,
        }),
{
    let data = response_bytes(success, Some(error)) + rest;
    if success {
        assert(data[0] == 1);
    } else {
        let text = encode_utf8(error);
        let n = text.len() as int;
        assert(text.take(n) =~= text);
        assert(data[0] == 0);
        assert(data[1] == be16(n as u16)[0]);
        assert(data[2] == be16(n as u16)[1]);
        assert(u16_at(data, 1) == n);
        assert(data.subrange(3, 3 + n) =~= text);
    }
}

/// Reads the answer to a request for a stream.
pub fn opened(response: StreamOpenResponse) -> (r: Result<(), TunnelError>)
    ensures
        if response.success {
            r is Ok
        } else {
            r matches Err(TunnelError::Remote(m)) && m@ == (match response.error {
                Some(e) => e@,
                None => default_reason(),
            })
        },
{
    if response.success {
        Ok(())
    } else {
        match response.error {
            Some(reason) => Err(TunnelError::Remote(reason)),
            None => Err(TunnelError::Remote("remote open failed".to_owned())),
        }
    }
}

// ---------------------------------------------------------------------------
// Serving
// ---------------------------------------------------------------------------

/// What a server does with a new stream.
#[derive(Debug)]
pub enum StreamStep {
    /// Answer with a refusal, and end with the error.
    Refuse { reason: String, error: TunnelError },
    Connect(TunnelTarget),
}

/// Decides what to do with a request. Only TCP is served.
pub fn serve_request(request: Result<StreamOpenRequest, TunnelError>) -> (r: StreamStep)
    ensures
        match request {
            Err(e) => r matches StreamStep::Refuse { reason, error } && reason@ == "bad request"@
                && error == e,
            Ok(q) => if q.protocol == Protocol::Tcp {
                r == StreamStep::Connect(q.target)
            } else {
                r matches StreamStep::Refuse { reason, error } && reason@
                    == "protocol not supported"@ && (error matches TunnelError::Remote(m) && m@
                    == "protocol not supported"@)
            },
        },
{
    match request {
        Err(error) => StreamStep::Refuse { reason: "bad request".to_owned(), error },
        Ok(q) => match q.protocol {
            Protocol::Tcp => StreamStep::Connect(q.target),
            Protocol::Udp => StreamStep::Refuse {
                reason: "protocol not supported".to_owned(),
                error: TunnelError::Remote("protocol not supported".to_owned()),
            },
        },
    }
}

/// The answer to a request whose target was tried: the error shows as the
/// reason.
pub fn connect_response(failure: Option<&TunnelError>) -> (r: Vec<u8>)
    ensures
        r@ == (match failure {
            None => response_bytes(true, None),
            Some(e) => response_bytes(false, Some(e.text())),
        }),
{
    match failure {
        None => write_stream_open_response(true, None),
        Some(e) => {
            let reason: String = e.message();
            write_stream_open_response(false, Some(reason.as_str()))
        },
    }
}

/// Why a connection gives no more streams.
#[derive(Debug)]
pub enum ConnectionEnd {
    ApplicationClosed,
    ConnectionClosed,
    Other(String),
}

/// What a server ends with when its connection does. A connection that was
/// closed is no failure.
pub fn after_connection_end(end: ConnectionEnd) -> (r: Result<(), TunnelError>)
    ensures
        match end {
            ConnectionEnd::Other(text) => r matches Err(TunnelError::Transport(e)) && e.kind
                == IoKind::Other && e.text == text && e.cause is Plain,
            _ => r is Ok,
        },
{
    match end {
        ConnectionEnd::Other(text) => Err(
            TunnelError::Transport(IoError { kind: IoKind::Other, text, cause: IoCause::Plain }),
        ),
        _ => Ok(()),
    }
}

/// Connects to targets over TCP.
#[derive(Debug, Clone, Copy)]
pub struct TcpConnector;

impl TcpConnector {
    /// The address that is connected to for a target.
    pub fn address(&self, target: &TunnelTarget) -> (r: String)
        ensures
            r@ == target.host@ + ":"@ + decimal(target.port as nat),
    {
        target.address()
    }
}

// ---------------------------------------------------------------------------
// Choosing a path
// ---------------------------------------------------------------------------

/// How a tunnel reaches the other side.
#[derive(Debug, Clone, Copy, PartialEq, Eq, Structural)]
pub enum TunnelMode {
    Direct,
    Relay,
}

/// What came of the attempt to connect directly.
#[derive(Debug, Clone, Copy, PartialEq, Eq, Structural)]
pub enum DirectAttempt {
    NotConfigured,
    Connected,
    Failed,
}

/// A tunnel is direct where that works, and is relayed otherwise.
pub fn tunnel_mode(attempt: DirectAttempt) -> (r: TunnelMode)
    ensures
        r == (if attempt == DirectAttempt::Connected {
            TunnelMode::Direct
        } else {
            TunnelMode::Relay
        }),
{
    match attempt {
        DirectAttempt::Connected => TunnelMode::Direct,
        DirectAttempt::NotConfigured | DirectAttempt::Failed => TunnelMode::Relay,
    }
}

// ---------------------------------------------------------------------------
// Laws of calls
// ---------------------------------------------------------------------------

/// What one side asks for is what the other side reads, whatever follows it.
/// Only a host whose name is too long cannot be asked for.
pub proof fn law_asked_for_is_read(
    protocol: Protocol,
    target: TunnelTarget,
    written: Result<Vec<u8>, TunnelError>,
    rest: Seq<u8>,
    data: &[u8],
    read: Result<Option<(StreamOpenRequest, usize)>, TunnelError>,
)
    requires
        call_ensures(write_stream_open_request, (protocol, &target), written),
        written matches Ok(bytes) ==> data@ == bytes@ + rest,
        call_ensures(read_stream_open_request, (data,), read),
    ensures
        written is Ok <==> encode_utf8(target.host@).len() <= 65535,
        written matches Ok(bytes) ==> (read matches Ok(Some((q, used))) && q.protocol == protocol
            && q.target.host@ == target.host@ && q.target.port == target.port && used
            == bytes@.len()),
{
    if written is Ok {
        law_request_round_trip(protocol, target.host@, target.port, rest);
    }
}

/// As long as not all of a request has come, more is waited for.
pub proof fn law_part_of_a_request_is_waited_for(
    protocol: Protocol,
    target: TunnelTarget,
    written: Vec<u8>,
    cut: int,
    data: &[u8],
    read: Result<Option<(StreamOpenRequest, usize)>, TunnelError>,
)
    requires
        call_ensures(
            write_stream_open_request,
            (protocol, &target),
            Ok::<Vec<u8>, TunnelError>(written),
        ),
        0 <= cut < written@.len(),
        data@ == written@.take(cut),
        call_ensures(read_stream_open_request, (data,), read),
    ensures
        read matches Ok(None),
{
    law_request_waits(protocol, target.host@, target.port, cut);
}

/// A refusal tells its reason, and an acceptance is read as one: what one side
/// answers, whatever follows it, the other side takes it for. A reason that was
/// not given is replaced by a usual one, and only one that is too long is not
/// told whole.
pub proof fn law_answer_is_read(
    success: bool,
    error: Option<&str>,
    written: Vec<u8>,
    rest: Seq<u8>,
    data: &[u8],
    read: Option<(StreamOpenResponse, usize)>,
    told: Result<(), TunnelError>,
)
    requires
        call_ensures(write_stream_open_response, (success, error), written),
        data@ == written@ + rest,
        call_ensures(read_stream_open_response, (data,), read),
        read is Some ==> call_ensures(opened, ((read->0).0,), told),
    ensures
        error matches Some(e) ==> (encode_utf8(e@).len() <= 65535 ==> {
            &&& read matches Some((p, used)) && p.success == success && used == written@.len()
            &&& success <==> told is Ok
            &&& !success ==> (told matches Err(TunnelError::Remote(m)) && m@ == e@)
        }),
        success ==> (read matches Some((p, used)) && p.success && used == 1),
{
    if error is Some {
        let e = (error->0)@;
        if encode_utf8(e).len() <= 65535 {
            law_response_round_trip(success, e, rest);
        }
    }
    if success {
        assert(data@[0] == 1);
    }
}

/// A target that was reached is answered with an acceptance, one that was not
/// with a refusal that tells the error.
pub proof fn law_attempt_is_answered(
    failure: Option<&TunnelError>,
    written: Vec<u8>,
    data: &[u8],
    read: Option<(StreamOpenResponse, usize)>,
)
    requires
        call_ensures(connect_response, (failure,), written),
        data@ == written@,
        call_ensures(read_stream_open_response, (data,), read),
        failure matches Some(e) ==> encode_utf8(e.text()).len() <= 65535,
    ensures
        read matches Some((p, used)) && used == written@.len() && (p.success <==> failure is None)
            && (failure matches Some(e) ==> (p.error matches Some(t) && t@ == e.text())),
{
    if failure is Some {
        law_response_round_trip(false, failure->0.text(), Seq::empty());
        assert(written@ + Seq::<u8>::empty() =~= written@);
    } else {
        assert(written@[0] == 1);
    }
}

/// A server connects just for a good request over TCP, and to the very target
/// that was asked for. A request that could not be read ends with its error.
pub proof fn law_only_tcp_is_served(request: Result<StreamOpenRequest, TunnelError>, r: StreamStep)
    requires
        call_ensures(serve_request, (request,), r),
    ensures
        r is Connect <==> (request matches Ok(q) && q.protocol is Tcp),
        r matches StreamStep::Connect(t) ==> t == request->Ok_0.target,
        request matches Err(e) ==> (r matches StreamStep::Refuse { error, .. } && error == e),
{
}

/// Protocols are told apart: each is read from its own byte, and other bytes
/// stand for none.
pub proof fn law_protocols_are_told_apart(
    p: Protocol,
    byte: u8,
    back: Option<Protocol>,
    other: u8,
    read: Option<Protocol>,
)
    requires
        call_ensures(Protocol::as_u8, (p,), byte),
        call_ensures(Protocol::from_u8, (byte,), back),
        call_ensures(Protocol::from_u8, (other,), read),
    ensures
        back == Some(p),
        other == 0 ==> read == Some(Protocol::Tcp),
        other == 1 ==> read == Some(Protocol::Udp),
        other > 1 ==> read is None,
{
}

/// A tunnel is direct just where the direct attempt succeeded.
pub proof fn law_direct_where_it_works(attempt: DirectAttempt, r: TunnelMode)
    requires
        call_ensures(tunnel_mode, (attempt,), r),
    ensures
        r is Direct <==> attempt is Connected,
{
}

/// A connection that was closed by either side ends well; any other end fails
/// with what was said of it.
pub proof fn law_closed_connections_end_well(end: ConnectionEnd, r: Result<(), TunnelError>)
    requires
        call_ensures(after_connection_end, (end,), r),
    ensures
        r is Ok <==> !(end is Other),
        end matches ConnectionEnd::Other(text) ==> (r matches Err(TunnelError::Transport(e))
            && e.text@ == text@),
{
}

/// A target is connected to at its own host and port.
pub proof fn law_target_is_connected_to(
    connector: TcpConnector,
    target: TunnelTarget,
    r: String,
    own: String,
)
    requires
        call_ensures(TcpConnector::address, (&connector, &target), r),
        call_ensures(TunnelTarget::address, (&target,), own),
    ensures
        r@ == own@,
        r@ == target.host@ + seq![':'] + decimal(target.port as nat),
{
    reveal_strlit(":");
    assert(":"@ =~= seq![':']);
}

/// A stream that ends inside the name of a host, or inside a reason, was closed;
/// one that ends inside the numbers around them failed.
pub proof fn law_cut_messages_are_told(
    request: &[u8],
    of_request: StreamEnd,
    response: &[u8],
    of_response: StreamEnd,
)
    requires
        request_in(request@) is More,
        call_ensures(request_end, (request,), of_request),
        response_in(response@) is More,
        call_ensures(response_end, (response,), of_response),
    ensures
        of_request is ConnectionClosed <==> request@.len() >= 3 && request@.len() < 3 + request@[1]
            * 256 + request@[2],
        of_response is ConnectionClosed <==> response@.len() >= 3,
{
}

} // verus!
