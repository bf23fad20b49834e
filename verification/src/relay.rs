//! Datagrams over a stream: the buffers on both sides of it.
use crate::net::{plain_address, IpAddress, SocketAddress};
use crate::tunnel_error::{IoCause, IoError, IoKind};
use std::collections::VecDeque;
use vstd::prelude::*;

verus! {

pub const DEFAULT_BUFFER_CAPACITY: usize = 256;

/// The address under which the client of a relay is known.
pub fn relay_client_addr() -> (r: SocketAddress)
    ensures
        r@ == plain_address(seq![127u8, 0, 0, 1], 60000),
{
    let ip: [u8; 4] = [127, 0, 0, 1];
    proof {
        assert(ip@ =~= seq![127u8, 0, 0, 1]);
    }
    SocketAddress { ip: IpAddress::V4(ip), port: 60000 }
}

/// The address under which the server of a relay is known.
pub fn relay_server_addr() -> (r: SocketAddress)
    ensures
        r@ == plain_address(seq![127u8, 0, 0, 1], 60001),
{
    let ip: [u8; 4] = [127, 0, 0, 1];
    proof {
        assert(ip@ =~= seq![127u8, 0, 0, 1]);
    }
    SocketAddress { ip: IpAddress::V4(ip), port: 60001 }
}

fn failure(kind: IoKind, text: &str) -> (r: IoError)
    ensures
        r.kind == kind,
        r.text@ == text@,
        r.cause is Plain,
{
    IoError { kind, text: text.to_owned(), cause: IoCause::Plain }
}

/// The failure has a kind and a text.
pub open spec fn is_failure(e: IoError, kind: IoKind, text: Seq<char>) -> bool {
    e.kind == kind && e.text@ == text && e.cause is Plain
}

/// Datagrams that wait, up to a number, in the order in which they came.
#[derive(Debug)]
pub struct DatagramQueue {
    queue: VecDeque<Vec<u8>>,
    capacity: usize,
    closed: bool,
}

/// What the next datagram is.
#[derive(Debug)]
pub enum NextDatagram {
    Ready(Vec<u8>),
    /// None has come, and none will.
    Finished,
    /// None has come yet.
    Wait,
}

/// What comes of a wait for room.
#[derive(Debug)]
pub enum Writable {
    Ready,
    Failed(IoError),
    Wait,
}

/// What comes of an attempt to keep a datagram.
#[derive(Debug)]
pub enum Pushed {
    Kept,
    Failed(IoError),
    /// There is no room yet; the datagram is handed back.
    Wait(Vec<u8>),
}

/// What comes of a read.
#[derive(Debug)]
pub enum Received {
    Datagram(Vec<u8>),
    Failed(IoError),
    Wait,
}

impl DatagramQueue {
    /// The datagrams that wait.
    pub closed spec fn waiting(&self) -> Seq<Vec<u8>> {
        self.queue@
    }

    /// How many may wait.
    pub closed spec fn limit(&self) -> nat {
        self.capacity as nat
    }

    pub closed spec fn is_closed_spec(&self) -> bool {
        self.closed
    }

    /// Never more wait than may.
    pub open spec fn well_formed(&self) -> bool {
        self.waiting().len() <= self.limit()
    }

    pub fn new(capacity: usize) -> (r: Self)
        ensures
            r.well_formed(),
            r.waiting() == Seq::<Vec<u8>>::empty(),
            r.limit() == capacity,
            !r.is_closed_spec(),
    {
        DatagramQueue { queue: VecDeque::new(), capacity, closed: false }
    }

    pub fn is_closed(&self) -> (r: bool)
        ensures
            r == self.is_closed_spec(),
    {
        self.closed
    }

    /// Takes no more datagrams. Those that wait are still handed out.
    pub fn close(&mut self)
        ensures
            old(self).well_formed() ==> final(self).well_formed(),
            final(self).is_closed_spec(),
            final(self).waiting() == old(self).waiting(),
            final(self).limit() == old(self).limit(),
    {
        self.closed = true;
    }

    pub fn has_capacity(&self) -> (r: bool)
        ensures
            r == (self.waiting().len() < self.limit()),
    {
        self.queue.len() < self.capacity
    }

    fn dequeue(&mut self) -> (r: Option<Vec<u8>>)
        ensures
            match r {
                Some(d) => old(self).waiting().len() > 0 && d == old(self).waiting()[0]
                    && final(self).waiting() == old(self).waiting().drop_first(),
                None => old(self).waiting().len() == 0 && final(self).waiting() == old(
                    self,
                ).waiting(),
            },
            final(self).limit() == old(self).limit(),
            final(self).is_closed_spec() == old(self).is_closed_spec(),
    {
        let r: Option<Vec<u8>> = self.queue.pop_front();
        proof {
            if r is Some {
                assert(self.waiting() =~= old(self).waiting().drop_first());
            }
        }
        r
    }

    // -----------------------------------------------------------------------
    // The sending side
    // -----------------------------------------------------------------------

    /// Keeps a datagram to be sent; fails where the queue is closed or full.
    pub fn enqueue(&mut self, datagram: Vec<u8>) -> (r: Result<(), IoError>)
        requires
            old(self).well_formed(),
        ensures
            final(self).well_formed(),
            final(self).limit() == old(self).limit(),
            final(self).is_closed_spec() == old(self).is_closed_spec(),
            match r {
                Ok(_) => {
                    &&& !old(self).is_closed_spec()
                    &&& old(self).waiting().len() < old(self).limit()
                    &&& final(self).waiting() == old(self).waiting().push(datagram)
                },
                Err(e) => {
                    &&& final(self).waiting() == old(self).waiting()
                    &&& if old(self).is_closed_spec() {
                        is_failure(e, IoKind::ConnectionReset, "send buffer closed"@)
                    } else {
                        old(self).waiting().len() >= old(self).limit() && is_failure(
                            e,
                            IoKind::WouldBlock,
                            "send buffer full"@,
                        )
                    }
                },
            },
    {
        if self.closed {
            return Err(failure(IoKind::ConnectionReset, "send buffer closed"));
        }
        if self.queue.len() >= self.capacity {
            return Err(failure(IoKind::WouldBlock, "send buffer full"));
        }
        self.queue.push_back(datagram);
        Ok(())
    }

    /// Takes a packet to be sent. One in several segments is not taken.
    pub fn try_send(&mut self, segmented: bool, contents: Vec<u8>) -> (r: Result<(), IoError>)
        requires
            old(self).well_formed(),
        ensures
            final(self).well_formed(),
            final(self).limit() == old(self).limit(),
            final(self).is_closed_spec() == old(self).is_closed_spec(),
            segmented ==> final(self).waiting() == old(self).waiting() && (r matches Err(e)
                && is_failure(
                e,
                IoKind::InvalidInput,
                "segmented transmits are not supported"@,
            )),
            !segmented ==> (match r {
                Ok(_) => {
                    &&& !old(self).is_closed_spec()
                    &&& old(self).waiting().len() < old(self).limit()
                    &&& final(self).waiting() == old(self).waiting().push(contents)
                },
                Err(e) => {
                    &&& final(self).waiting() == old(self).waiting()
                    &&& if old(self).is_closed_spec() {
                        is_failure(e, IoKind::ConnectionReset, "send buffer closed"@)
                    } else {
                        old(self).waiting().len() >= old(self).limit() && is_failure(
                            e,
                            IoKind::WouldBlock,
                            "send buffer full"@,
                        )
                    }
                },
            }),
    {
        if segmented {
            return Err(failure(IoKind::InvalidInput, "segmented transmits are not supported"));
        }
        self.enqueue(contents)
    }

    /// Tells whether a datagram can be kept.
    pub fn poll_writable(&self) -> (r: Writable)
        ensures
            if self.waiting().len() < self.limit() {
                r is Ready
            } else if self.is_closed_spec() {
                r matches Writable::Failed(e) && is_failure(
                    e,
                    IoKind::ConnectionReset,
                    "send buffer closed"@,
                )
            } else {
                r is Wait
            },
    {
        if self.has_capacity() {
            Writable::Ready
        } else if self.closed {
            Writable::Failed(failure(IoKind::ConnectionReset, "send buffer closed"))
        } else {
            Writable::Wait
        }
    }

    /// Hands out the next datagram to be sent. What waits is still sent after
    /// the queue was closed.
    pub fn next_datagram(&mut self) -> (r: NextDatagram)
        requires
            old(self).well_formed(),
        ensures
            final(self).well_formed(),
            final(self).limit() == old(self).limit(),
            final(self).is_closed_spec() == old(self).is_closed_spec(),
            if old(self).waiting().len() > 0 {
                &&& r == NextDatagram::Ready(old(self).waiting()[0])
                &&& final(self).waiting() == old(self).waiting().drop_first()
            } else {
                &&& final(self).waiting() == old(self).waiting()
                &&& if old(self).is_closed_spec() {
                    r is Finished
                } else {
                    r is Wait
                }
            },
    {
        match self.dequeue() {
            Some(d) => NextDatagram::Ready(d),
            None => if self.closed {
                NextDatagram::Finished
            } else {
                NextDatagram::Wait
            },
        }
    }

    // -----------------------------------------------------------------------
    // The receiving side
    // -----------------------------------------------------------------------

    /// Keeps a datagram that came, or hands it back until there is room.
    pub fn push(&mut self, datagram: Vec<u8>) -> (r: Pushed)
        requires
            old(self).well_formed(),
        ensures
            final(self).well_formed(),
            final(self).limit() == old(self).limit(),
            final(self).is_closed_spec() == old(self).is_closed_spec(),
            if old(self).is_closed_spec() {
                &&& final(self).waiting() == old(self).waiting()
                &&& r matches Pushed::Failed(e) && is_failure(
                    e,
                    IoKind::ConnectionReset,
                    "receive buffer closed"@,
                )
            } else if old(self).waiting().len() < old(self).limit() {
                &&& r is Kept
                &&& final(self).waiting() == old(self).waiting().push(datagram)
            } else {
                &&& r == Pushed::Wait(datagram)
                &&& final(self).waiting() == old(self).waiting()
            },
    {
        if self.closed {
            return Pushed::Failed(failure(IoKind::ConnectionReset, "receive buffer closed"));
        }
        if self.queue.len() < self.capacity {
            self.queue.push_back(datagram);
            Pushed::Kept
        } else {
            Pushed::Wait(datagram)
        }
    }

    /// Hands out the next datagram that came, to a reader with room for so
    /// many bytes. One that does not fit is lost.
    pub fn poll_recv(&mut self, room: Option<usize>) -> (r: Received)
        requires
            old(self).well_formed(),
        ensures
            final(self).well_formed(),
            final(self).limit() == old(self).limit(),
            final(self).is_closed_spec() == old(self).is_closed_spec(),
            match room {
                None => final(self).waiting() == old(self).waiting() && (r matches Received::Failed(
                    e,
                ) && is_failure(e, IoKind::InvalidInput, "no receive buffers provided"@)),
                Some(n) => if old(self).waiting().len() > 0 {
                    &&& final(self).waiting() == old(self).waiting().drop_first()
                    &&& if n < old(self).waiting()[0]@.len() {
                        r matches Received::Failed(e) && is_failure(
                            e,
                            IoKind::InvalidData,
                            "buffer too small for datagram"@,
                        )
                    } else {
                        r == Received::Datagram(old(self).waiting()[0])
                    }
                } else {
                    &&& final(self).waiting() == old(self).waiting()
                    &&& if old(self).is_closed_spec() {
                        r matches Received::Failed(e) && is_failure(
                            e,
                            IoKind::ConnectionReset,
                            "websocket closed"@,
                        )
                    } else {
                        r is Wait
                    }
                },
            },
    {
        let n: usize = match room {
            Some(n) => n,
            None => {
                return Received::Failed(
                    failure(IoKind::InvalidInput, "no receive buffers provided"),
                );
            },
        };
        match self.dequeue() {
            Some(d) => if n < d.len() {
                Received::Failed(failure(IoKind::InvalidData, "buffer too small for datagram"))
            } else {
                Received::Datagram(d)
            },
            None => if self.closed {
                Received::Failed(failure(IoKind::ConnectionReset, "websocket closed"))
            } else {
                Received::Wait
            },
        }
    }
}

/// What happens to a queue.
pub enum QueueEvent {
    /// A datagram is kept.
    Kept(Vec<u8>),
    /// The first datagram is handed out, if there is one.
    Taken,
}

/// The datagrams that events keep.
pub open spec fn kept(events: Seq<QueueEvent>) -> Seq<Vec<u8>>
    decreases events.len(),
{
    if events.len() == 0 {
        Seq::empty()
    } else {
        match events.last() {
            QueueEvent::Kept(d) => kept(events.drop_last()).push(d),
            QueueEvent::Taken => kept(events.drop_last()),
        }
    }
}

/// What events hand out of a queue, and what waits in it in the end.
pub open spec fn after_events(waiting: Seq<Vec<u8>>, events: Seq<QueueEvent>) -> (
    Seq<Vec<u8>>,
    Seq<Vec<u8>>,
)
    decreases events.len(),
{
    if events.len() == 0 {
        (Seq::empty(), waiting)
    } else {
        let (out, left) = after_events(waiting, events.drop_last());
        match events.last() {
            QueueEvent::Kept(d) => (out, left.push(d)),
            QueueEvent::Taken => if left.len() == 0 {
                (out, left)
            } else {
                (out.push(left[0]), left.drop_first())
            },
        }
    }
}

/// Datagrams come out in the order in which they went in, with none lost and
/// none twice: what was handed out, followed by what still waits, is what
/// waited before, followed by what was kept.
pub proof fn law_first_in_first_out(waiting: Seq<Vec<u8>>, events: Seq<QueueEvent>)
    ensures
        after_events(waiting, events).0 + after_events(waiting, events).1 == waiting + kept(events),
    decreases events.len(),
{
    let (out, left) = after_events(waiting, events);
    if events.len() == 0 {
        assert(out + left =~= waiting + kept(events));
    } else {
        law_first_in_first_out(waiting, events.drop_last());
        let (out0, left0) = after_events(waiting, events.drop_last());
        let kept0 = kept(events.drop_last());
        match events.last() {
            QueueEvent::Kept(d) => {
                assert(out0 + left0.push(d) =~= (out0 + left0).push(d));
                assert(waiting + kept0.push(d) =~= (waiting + kept0).push(d));
            },
            QueueEvent::Taken => {
                if left0.len() > 0 {
                    assert(out0.push(left0[0]) + left0.drop_first() =~= out0 + left0);
                }
            },
        }
    }
}

/// What comes out of a WebSocket.
#[derive(Debug)]
pub enum SocketFrame {
    Binary(Vec<u8>),
    Close,
    /// A text, a ping or a pong.
    Other,
    Failed(String),
    Ended,
}

/// What is done with what comes out of a WebSocket.
#[derive(Debug)]
pub enum FrameUse {
    Deliver(Vec<u8>),
    Skip,
    Fail(String),
    End,
}

/// Decides what is done with a frame: only binary frames carry data. A close
/// frame ends the stream at once, or is passed over until the socket ends.
pub fn use_frame(frame: SocketFrame, ends_at_close: bool) -> (r: FrameUse)
    ensures
        r == (match frame {
            SocketFrame::Binary(data) => FrameUse::Deliver(data),
            SocketFrame::Close => if ends_at_close {
                FrameUse::End
            } else {
                FrameUse::Skip
            },
            SocketFrame::Other => FrameUse::Skip,
            SocketFrame::Failed(text) => FrameUse::Fail(text),
            SocketFrame::Ended => FrameUse::End,
        }),
{
    match frame {
        SocketFrame::Binary(data) => FrameUse::Deliver(data),
        SocketFrame::Close => if ends_at_close {
            FrameUse::End
        } else {
            FrameUse::Skip
        },
        SocketFrame::Other => FrameUse::Skip,
        SocketFrame::Failed(text) => FrameUse::Fail(text),
        SocketFrame::Ended => FrameUse::End,
    }
}

/// A datagram that was kept is the last that waits, and none that waited before
/// is lost or moved. It is kept just where the queue is open and has room.
pub proof fn law_kept_datagram_waits_last(
    queue: &mut DatagramQueue,
    datagram: Vec<u8>,
    r: Result<(), IoError>,
)
    requires
        call_ensures(DatagramQueue::enqueue, (queue, datagram), r),
    ensures
        r is Ok <==> !old(queue).is_closed_spec() && old(queue).waiting().len() < old(
            queue,
        ).limit(),
        r is Ok ==> final(queue).waiting().len() == old(queue).waiting().len() + 1,
        r is Ok ==> final(queue).waiting().last() == datagram,
        forall|i: int|
            0 <= i < old(queue).waiting().len() ==> #[trigger] final(queue).waiting()[i] == old(
                queue,
            ).waiting()[i],
        r is Err ==> final(queue).waiting() == old(queue).waiting(),
        r matches Err(e) ==> (e.kind is ConnectionReset <==> old(queue).is_closed_spec()) && (
        e.kind is WouldBlock <==> !old(queue).is_closed_spec()),
        final(queue).limit() == old(queue).limit(),
        final(queue).is_closed_spec() == old(queue).is_closed_spec(),
{
}

/// Sending a packet in one piece is keeping it; one in several segments is
/// refused whatever the queue.
pub proof fn law_only_whole_packets_are_sent(
    queue: &mut DatagramQueue,
    segmented: bool,
    contents: Vec<u8>,
    r: Result<(), IoError>,
)
    requires
        call_ensures(DatagramQueue::try_send, (queue, segmented, contents), r),
    ensures
        r is Ok <==> !segmented && !old(queue).is_closed_spec() && old(queue).waiting().len() < old(
            queue,
        ).limit(),
        r is Ok ==> final(queue).waiting() == old(queue).waiting().push(contents),
        r is Err ==> final(queue).waiting() == old(queue).waiting(),
        segmented ==> (r matches Err(e) && e.kind is InvalidInput),
{
}

/// A queue can be written to as long as it has room. Without room a closed one
/// fails and an open one waits.
pub proof fn law_room_can_be_written(queue: DatagramQueue, r: Writable)
    requires
        call_ensures(DatagramQueue::poll_writable, (&queue,), r),
    ensures
        r is Ready <==> queue.waiting().len() < queue.limit(),
        r is Failed ==> queue.is_closed_spec(),
        r is Wait ==> !queue.is_closed_spec(),
{
}

/// The datagram that is sent next is the one that waited longest. A queue is
/// finished just where it is empty and closed.
pub proof fn law_longest_waiting_is_sent(queue: &mut DatagramQueue, r: NextDatagram)
    requires
        call_ensures(DatagramQueue::next_datagram, (queue,), r),
    ensures
        r is Ready <==> old(queue).waiting().len() > 0,
        r matches NextDatagram::Ready(d) ==> seq![d] + final(queue).waiting() == old(
            queue,
        ).waiting(),
        r is Finished <==> old(queue).waiting().len() == 0 && old(queue).is_closed_spec(),
        !(r is Ready) ==> final(queue).waiting() == old(queue).waiting(),
{
    if let NextDatagram::Ready(d) = r {
        assert(seq![d] + final(queue).waiting() =~= old(queue).waiting());
    }
}

/// A datagram that came is kept behind the others, handed back unchanged where
/// there is no room, and lost only where the queue is closed.
pub proof fn law_datagrams_that_came_are_kept(
    queue: &mut DatagramQueue,
    datagram: Vec<u8>,
    r: Pushed,
)
    requires
        call_ensures(DatagramQueue::push, (queue, datagram), r),
    ensures
        r is Failed <==> old(queue).is_closed_spec(),
        r is Kept <==> !old(queue).is_closed_spec() && old(queue).waiting().len() < old(
            queue,
        ).limit(),
        r is Kept ==> final(queue).waiting() == old(queue).waiting().push(datagram),
        !(r is Kept) ==> final(queue).waiting() == old(queue).waiting(),
        r matches Pushed::Wait(d) ==> d == datagram,
{
}

/// A reader gets the datagram that waited longest, whole, or an error where it
/// does not fit; either way it no longer waits. Without one the reader waits,
/// or fails where none can come.
pub proof fn law_reader_gets_the_longest_waiting(
    queue: &mut DatagramQueue,
    room: usize,
    r: Received,
)
    requires
        call_ensures(DatagramQueue::poll_recv, (queue, Some(room)), r),
    ensures
        ({
            let before = old(queue).waiting();
            let after = final(queue).waiting();
            &&& before.len() > 0 ==> seq![before[0]] + after == before
            &&& before.len() == 0 ==> after == before
            &&& r is Datagram <==> before.len() > 0 && before[0]@.len() <= room
            &&& r matches Received::Datagram(d) ==> d == before[0]
            &&& r is Wait <==> before.len() == 0 && !old(queue).is_closed_spec()
            &&& r matches Received::Failed(e) ==> (e.kind is InvalidData <==> before.len() > 0) && (
            e.kind is ConnectionReset <==> before.len() == 0)
        }),
{
    if old(queue).waiting().len() > 0 {
        assert(seq![old(queue).waiting()[0]] + final(queue).waiting() =~= old(queue).waiting());
    }
}

/// Closing a queue loses nothing that waits, and it stays closed whatever is
/// sent or read.
pub proof fn law_closing_loses_nothing(queue: &mut DatagramQueue)
    requires
        call_ensures(DatagramQueue::close, (queue,), ()),
    ensures
        final(queue).is_closed_spec(),
        final(queue).waiting() == old(queue).waiting(),
        final(queue).limit() == old(queue).limit(),
{
}

/// Just binary frames carry data, and they carry it unchanged; a stream ends
/// where the socket does, or at a close frame where that is to end it.
pub proof fn law_binary_frames_carry_data(frame: SocketFrame, ends_at_close: bool, r: FrameUse)
    requires
        call_ensures(use_frame, (frame, ends_at_close), r),
    ensures
        frame matches SocketFrame::Binary(data) ==> r == FrameUse::Deliver(data),
        r is Deliver ==> frame is Binary,
        r is End <==> frame is Ended || (frame is Close && ends_at_close),
        frame matches SocketFrame::Failed(text) ==> r == FrameUse::Fail(text),
        r is Fail ==> frame is Failed,
{
}

} // verus!
