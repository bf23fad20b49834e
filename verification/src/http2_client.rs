//! The state of a shared HTTP/2 client: who waits for it, and whether it is
//! connected.
use vstd::prelude::*;

verus! {

/// A client with its connection, if it has one, and those who wait for it, in
/// the order in which they came.
#[derive(Debug)]
pub struct ActorState<S, W> {
    pub sender: Option<S>,
    pub waiters: Vec<W>,
    pub connecting: bool,
}

/// What a client is told.
#[derive(Debug)]
pub enum ActorMessage<S, W> {
    /// Somebody wants a lease.
    Acquire { responder: W },
    /// A lease came back.
    Return { broken: bool },
    Connected { sender: S },
    ConnectFailed,
    /// The connection ended.
    DriverFinished,
    Shutdown,
}

/// What has to be done after a message.
#[derive(Debug)]
pub struct ActorStep<W> {
    /// They get a lease of the connection.
    pub leased: Vec<W>,
    /// They get the error.
    pub failed: Vec<W>,
    /// A connection has to be made.
    pub connect: bool,
    /// No more messages are taken.
    pub stop: bool,
}

/// Those who came with a message.
pub open spec fn arrived<S, W>(message: ActorMessage<S, W>) -> Seq<W> {
    match message {
        ActorMessage::Acquire { responder } => seq![responder],
        _ => seq![],
    }
}

impl<S, W> ActorState<S, W> {
    /// Who waits, waits for a connection that is being made, and no second
    /// one is made beside the one in use.
    pub open spec fn well_formed(&self) -> bool {
        &&& self.waiters@.len() > 0 ==> self.connecting
        &&& self.connecting ==> self.sender is None
    }

    pub fn new() -> (r: Self)
        ensures
            r.well_formed(),
            r.sender is None,
            r.waiters@.len() == 0,
            !r.connecting,
    {
        ActorState { sender: None, waiters: Vec::new(), connecting: false }
    }

    fn ensure_connect(&mut self) -> (r: bool)
        ensures
            r == !old(self).connecting,
            final(self).connecting,
            final(self).sender == old(self).sender,
            final(self).waiters == old(self).waiters,
    {
        if !self.connecting {
            self.connecting = true;
            true
        } else {
            false
        }
    }

    fn take_waiters(&mut self) -> (r: Vec<W>)
        ensures
            r@ == old(self).waiters@,
            final(self).waiters@ == Seq::<W>::empty(),
            final(self).sender == old(self).sender,
            final(self).connecting == old(self).connecting,
    {
        let mut out: Vec<W> = Vec::new();
        core::mem::swap(&mut out, &mut self.waiters);
        out
    }

    /// Takes a message. Nobody is forgotten and nobody is answered twice:
    /// those who waited and those who came are those who are answered and
    /// those who wait on, in this order.
    pub fn handle(&mut self, message: ActorMessage<S, W>) -> (r: ActorStep<W>)
        requires
            old(self).well_formed(),
        ensures
            final(self).well_formed(),
            old(self).waiters@ + arrived(message) == r.leased@ + r.failed@ + final(self).waiters@,
            r.leased@.len() > 0 ==> final(self).sender is Some,
            r.connect ==> final(self).connecting && !old(self).connecting,
            r.stop == (message is Shutdown),
            match message {
                ActorMessage::Acquire { responder } => {
                    &&& final(self).sender == old(self).sender
                    &&& r.failed@.len() == 0
                    &&& if old(self).sender is Some {
                        &&& r.leased@ == seq![responder]
                        &&& !r.connect
                        &&& final(self).connecting == old(self).connecting
                    } else {
                        &&& r.leased@.len() == 0
                        &&& r.connect == !old(self).connecting
                        &&& final(self).connecting
                    }
                },
                ActorMessage::Return { broken } => {
                    &&& r.leased@.len() == 0 && r.failed@.len() == 0 && !r.connect
                    &&& final(self).sender == (if broken {
                        None
                    } else {
                        old(self).sender
                    })
                    &&& final(self).connecting == old(self).connecting
                },
                ActorMessage::Connected { sender } => {
                    &&& final(self).sender == Some(sender)
                    &&& r.leased@ == old(self).waiters@
                    &&& r.failed@.len() == 0
                    &&& !r.connect
                    &&& !final(self).connecting
                },
                ActorMessage::ConnectFailed => {
                    &&& final(self).sender == old(self).sender
                    &&& r.leased@.len() == 0
                    &&& r.failed@ == old(self).waiters@
                    &&& !r.connect
                    &&& !final(self).connecting
                },
                ActorMessage::DriverFinished => {
                    &&& final(self).sender is None
                    &&& r.leased@.len() == 0 && r.failed@.len() == 0 && !r.connect
                    &&& final(self).connecting == old(self).connecting
                },
                ActorMessage::Shutdown => {
                    &&& final(self).sender == old(self).sender
                    &&& r.leased@.len() == 0
                    &&& r.failed@ == old(self).waiters@
                    &&& !r.connect
                    &&& final(self).connecting == old(self).connecting
                },
            },
    {
        let mut step: ActorStep<W> = ActorStep {
            leased: Vec::new(),
            failed: Vec::new(),
            connect: false,
            stop: false,
        };
        match message {
            ActorMessage::Acquire { responder } => {
                if self.sender.is_some() {
                    step.leased.push(responder);
                } else {
                    self.waiters.push(responder);
                    step.connect = self.ensure_connect();
                }
            },
            ActorMessage::Return { broken } => {
                if broken {
                    self.sender = None;
                    if self.waiters.len() != 0 {
                        step.connect = self.ensure_connect();
                    }
                }
            },
            ActorMessage::Connected { sender } => {
                self.connecting = false;
                self.sender = Some(sender);
                step.leased = self.take_waiters();
            },
            ActorMessage::ConnectFailed => {
                self.connecting = false;
                step.failed = self.take_waiters();
            },
            ActorMessage::DriverFinished => {
                self.sender = None;
                if self.waiters.len() != 0 {
                    step.connect = self.ensure_connect();
                }
            },
            ActorMessage::Shutdown => {
                step.failed = self.take_waiters();
                step.stop = true;
            },
        }
        proof {
            assert(old(self).waiters@ + arrived(message) =~= step.leased@ + step.failed@
                + self.waiters@);
        }
        step
    }
}

/// Whoever asks for a lease while there is a connection gets it at once. Else
/// they wait behind the others, and a connection is made if none is being made.
pub proof fn law_lease_or_wait<S, W>(
    state: &mut ActorState<S, W>,
    responder: W,
    r: ActorStep<W>,
)
    requires
        old(state).well_formed(),
        call_ensures(
            ActorState::<S, W>::handle,
            (state, ActorMessage::<S, W>::Acquire { responder }),
            r,
        ),
    ensures
        old(state).sender is Some ==> r.leased@ == seq![responder] && final(state).waiters@ == old(
            state,
        ).waiters@ && !r.connect,
        old(state).sender is None ==> r.leased@.len() == 0 && final(state).waiters@ == old(
            state,
        ).waiters@.push(responder) && final(state).connecting && (r.connect <==> !old(
            state,
        ).connecting),
        r.failed@.len() == 0,
        !r.stop,
        final(state).sender == old(state).sender,
{
    let before = old(state).waiters@;
    assert(before + arrived(ActorMessage::<S, W>::Acquire { responder }) =~= before.push(
        responder,
    ));
    if old(state).sender is Some {
        assert(before.len() == 0);
        assert(r.leased@ + r.failed@ + final(state).waiters@ =~= r.leased@ + final(state).waiters@);
        assert((r.leased@ + final(state).waiters@).len() == 1);
        assert(final(state).waiters@ =~= before);
    } else {
        assert(r.leased@ + r.failed@ + final(state).waiters@ =~= final(state).waiters@);
    }
}

/// A new connection goes to everybody who waits, in their order; a failed one
/// is an error for all of them. Nobody waits after either.
pub proof fn law_waiters_are_answered<S, W>(
    state: &mut ActorState<S, W>,
    message: ActorMessage<S, W>,
    r: ActorStep<W>,
)
    requires
        old(state).well_formed(),
        message is Connected || message is ConnectFailed || message is Shutdown,
        call_ensures(ActorState::<S, W>::handle, (state, message), r),
    ensures
        message is Connected ==> r.leased@ == old(state).waiters@ && r.failed@.len() == 0,
        !(message is Connected) ==> r.failed@ == old(state).waiters@ && r.leased@.len() == 0,
        final(state).waiters@.len() == 0,
        message matches ActorMessage::Connected { sender } ==> final(state).sender == Some(sender),
        !(message is Shutdown) ==> !final(state).connecting,
        r.stop <==> message is Shutdown,
        !r.connect,
{
    let before = old(state).waiters@;
    assert(before + arrived(message) =~= before);
    assert((r.leased@ + r.failed@ + final(state).waiters@).len() == r.leased@.len()
        + r.failed@.len() + final(state).waiters@.len());
}

/// A connection is given up just where it broke or ended; a lease that comes
/// back in order leaves it in use. Nobody is answered by either.
pub proof fn law_broken_connection_is_given_up<S, W>(
    state: &mut ActorState<S, W>,
    message: ActorMessage<S, W>,
    r: ActorStep<W>,
)
    requires
        old(state).well_formed(),
        message is Return || message is DriverFinished,
        call_ensures(ActorState::<S, W>::handle, (state, message), r),
    ensures
        message is DriverFinished ==> final(state).sender is None,
        message matches ActorMessage::Return { broken } ==> final(state).sender == (if broken {
            None
        } else {
            old(state).sender
        }),
        r.leased@.len() == 0 && r.failed@.len() == 0,
        final(state).waiters@ == old(state).waiters@,
        !r.stop,
{
    let before = old(state).waiters@;
    assert(before + arrived(message) =~= before);
    assert(r.leased@ + r.failed@ + final(state).waiters@ =~= final(state).waiters@);
}

} // verus!
