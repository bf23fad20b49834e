//! Calls in both directions over one transport.
use crate::tunnel_error::{IoCause, IoError};
use vstd::prelude::*;

verus! {

/// How many messages wait in each direction.
pub const RPC_CHANNEL_CAPACITY: usize = 32;

/// A message is a call from the other side, or the answer to a call.
#[derive(Debug)]
pub enum TwoWayMessage<Req, Resp> {
    ClientMessage(Req),
    Response(Resp),
}

/// What came from a transport.
#[derive(Debug)]
pub enum Inbound<Req, Resp> {
    Message(TwoWayMessage<Req, Resp>),
    Failed(IoError),
    Ended,
}

/// What is done with what came.
#[derive(Debug)]
pub enum InboundStep<Req, Resp> {
    ToServer(Req),
    ToClient(Resp),
    /// Both sides are told, and nothing more is read.
    Fail { server: IoError, client: IoError },
    Stop,
}

/// A failure of the same kind that shows the same text.
pub fn clone_io_error(err: &IoError) -> (r: IoError)
    ensures
        r.kind == err.kind,
        r.text == err.text,
        r.cause is Plain,
{
    IoError { kind: err.kind, text: err.text.clone(), cause: IoCause::Plain }
}

/// Decides where a message goes: calls to the server, answers to the client.
pub fn route_inbound<Req, Resp>(item: Inbound<Req, Resp>) -> (r: InboundStep<Req, Resp>)
    ensures
        match item {
            Inbound::Message(message) => is_delivery(message, r),
            Inbound::Failed(e) => r matches InboundStep::Fail { server, client } && server == e
                && client.kind == e.kind && client.text == e.text && client.cause is Plain,
            Inbound::Ended => r is Stop,
        },
{
    match item {
        Inbound::Message(TwoWayMessage::ClientMessage(req)) => InboundStep::ToServer(req),
        Inbound::Message(TwoWayMessage::Response(resp)) => InboundStep::ToClient(resp),
        Inbound::Failed(e) => {
            let client: IoError = clone_io_error(&e);
            InboundStep::Fail { server: e, client }
        },
        Inbound::Ended => InboundStep::Stop,
    }
}

/// What has to be sent: an answer of the server, or a call of the client.
#[derive(Debug)]
pub enum Outbound<Req, Resp> {
    FromServer(Resp),
    FromClient(Req),
}

/// The message that carries what has to be sent.
pub fn wrap_outbound<Req, Resp>(item: Outbound<Req, Resp>) -> (r: TwoWayMessage<Req, Resp>)
    ensures
        r == wrapped(item),
{
    match item {
        Outbound::FromServer(resp) => TwoWayMessage::Response(resp),
        Outbound::FromClient(req) => TwoWayMessage::ClientMessage(req),
    }
}

/// The message that carries what has to be sent.
pub open spec fn wrapped<Req, Resp>(item: Outbound<Req, Resp>) -> TwoWayMessage<Req, Resp> {
    match item {
        Outbound::FromServer(resp) => TwoWayMessage::Response(resp),
        Outbound::FromClient(req) => TwoWayMessage::ClientMessage(req),
    }
}

/// `r` is what the other side does with a message.
pub open spec fn is_delivery<Req, Resp>(
    message: TwoWayMessage<Req, Resp>,
    r: InboundStep<Req, Resp>,
) -> bool {
    match message {
        TwoWayMessage::ClientMessage(req) => r == InboundStep::<Req, Resp>::ToServer(req),
        TwoWayMessage::Response(resp) => r == InboundStep::<Req, Resp>::ToClient(resp),
    }
}

/// What the client of one side sends arrives at the server of the other, and
/// what its server sends at the client of the other.
pub proof fn law_halves_meet<Req, Resp>(item: Outbound<Req, Resp>, r: InboundStep<Req, Resp>)
    requires
        is_delivery(wrapped(item), r),
    ensures
        match item {
            Outbound::FromClient(req) => r == InboundStep::<Req, Resp>::ToServer(req),
            Outbound::FromServer(resp) => r == InboundStep::<Req, Resp>::ToClient(resp),
        },
{
}

/// Why a message could not be passed on.
#[derive(Debug)]
pub enum TwoWayTransportError {
    Closed,
    Io(IoError),
}

impl TwoWayTransportError {
    /// What the error shows.
    pub open spec fn text(&self) -> Seq<char> {
        match self {
            TwoWayTransportError::Closed => "transport closed"@,
            TwoWayTransportError::Io(e) => e.text@,
        }
    }

    pub fn message(&self) -> (r: String)
        ensures
            r@ == self.text(),
    {
        match self {
            TwoWayTransportError::Closed => "transport closed".to_owned(),
            TwoWayTransportError::Io(e) => e.text.clone(),
        }
    }
}

/// The image of a workspace.
#[derive(Debug, Clone)]
pub struct Workspace {
    pub image: String,
}

/// A call that one side sends is a call to the server of the other, and an
/// answer goes to the client that waits for it.
pub proof fn law_sent_is_delivered<Req, Resp>(
    item: Outbound<Req, Resp>,
    message: TwoWayMessage<Req, Resp>,
    r: InboundStep<Req, Resp>,
)
    requires
        call_ensures(wrap_outbound::<Req, Resp>, (item,), message),
        call_ensures(
            route_inbound::<Req, Resp>,
            (Inbound::<Req, Resp>::Message(message),),
            r,
        ),
    ensures
        item matches Outbound::FromClient(req) ==> r == InboundStep::<Req, Resp>::ToServer(req),
        item matches Outbound::FromServer(resp) ==> r == InboundStep::<Req, Resp>::ToClient(resp),
{
}

/// A failure is told to both sides, with its kind and its text; the end of the
/// transport just stops.
pub proof fn law_failure_is_told_to_both<Req, Resp>(
    item: Inbound<Req, Resp>,
    r: InboundStep<Req, Resp>,
)
    requires
        call_ensures(route_inbound::<Req, Resp>, (item,), r),
    ensures
        r is Stop <==> item is Ended,
        r is Fail <==> item is Failed,
        item matches Inbound::Failed(e) ==> (r matches InboundStep::Fail { server, client }
            && server == e && client.kind == e.kind && client.text@ == e.text@),
{
}

} // verus!
