//! The receiver of one accepted connection, as a state machine.
//!
//! The receiver owns the socket of its connection until it ends. The caller
//! performs the reads on that socket; the receiver decides what each read
//! outcome means and what is emitted for it.

use vstd::prelude::*;
use crate::address::AddressKey;
use crate::events::{
    ReadOutcome, ReadOutcomeView, ReceiverStatusView, ReceiverStatus_E, is_terminal,
};

verus! {

/// A new event source: the receiver of `addr`, which owns `stream`.
#[derive(Debug)]
pub struct TcpReceiverRecipe<S> {
    pub addr: AddressKey,
    pub stream: S,
}

/// The event source of a receiver that is already running for `addr`.
///
/// It has the identity of the `TcpReceiverRecipe` that started the receiver,
/// so that declaring it again leaves the running receiver alone.
#[derive(Clone, Copy, Debug, PartialEq, Eq, Hash, Structural)]
pub struct TcpReceiverStubRecipe {
    pub addr: AddressKey,
}

/// Where a receiver stands.
#[derive(Clone, Copy, Debug, PartialEq, Eq, Structural)]
pub enum ReceiverState {
    /// Constructed; nothing emitted yet.
    Init,
    /// Established; reading.
    Ready,
    /// Ended; nothing is emitted any more.
    Closed,
}

/// What the caller has to do next for a receiver.
#[derive(Clone, Copy, Debug, PartialEq, Eq, Structural)]
pub enum ReceiverAction {
    /// Call `begin` and pass its status on.
    Announce,
    /// Suspend until the socket is readable, read once, and call `on_read`.
    Read,
    /// End the sequence: the receiver has let go of its socket.
    Finish,
}

/// The state after a read with `outcome` in `state`.
pub open spec fn next_state(state: ReceiverState, outcome: ReadOutcomeView) -> ReceiverState {
    match state {
        ReceiverState::Init => ReceiverState::Init,
        ReceiverState::Closed => ReceiverState::Closed,
        ReceiverState::Ready => match outcome {
            ReadOutcomeView::Bytes(bytes) => if bytes.len() > 0 {
                ReceiverState::Ready
            } else {
                ReceiverState::Closed
            },
            ReadOutcomeView::WouldBlock => ReceiverState::Ready,
            ReadOutcomeView::Failed(_) => ReceiverState::Closed,
        },
    }
}

/// What is emitted for a read with `outcome` in `state`.
pub open spec fn emitted(state: ReceiverState, outcome: ReadOutcomeView) -> Option<
    ReceiverStatusView,
> {
    match state {
        ReceiverState::Init => None,
        ReceiverState::Closed => None,
        ReceiverState::Ready => match outcome {
            ReadOutcomeView::Bytes(bytes) => if bytes.len() > 0 {
                Some(ReceiverStatusView::Message(bytes))
            } else {
                Some(ReceiverStatusView::Disconnected)
            },
            ReadOutcomeView::WouldBlock => None,
            ReadOutcomeView::Failed(message) => Some(ReceiverStatusView::Error(message)),
        },
    }
}

/// The state after the reads `outcomes`, in order, from `state`.
pub open spec fn state_after(state: ReceiverState, outcomes: Seq<ReadOutcomeView>) -> ReceiverState
    decreases outcomes.len(),
{
    if outcomes.len() == 0 {
        state
    } else {
        next_state(state_after(state, outcomes.drop_last()), outcomes.last())
    }
}

/// Everything that is emitted for the reads `outcomes`, in order, from `state`.
pub open spec fn trace(state: ReceiverState, outcomes: Seq<ReadOutcomeView>) -> Seq<
    ReceiverStatusView,
>
    decreases outcomes.len(),
{
    if outcomes.len() == 0 {
        Seq::empty()
    } else {
        let before = outcomes.drop_last();
        match emitted(state_after(state, before), outcomes.last()) {
            Some(status) => trace(state, before).push(status),
            None => trace(state, before),
        }
    }
}

impl<S> TcpReceiverRecipe<S> {
    /// The peer that identifies this event source.
    pub fn key(&self) -> (key: AddressKey)
        ensures
            key == self.addr,
    {
        self.addr
    }

    /// The stub that stands for this source once its receiver runs.
    pub fn stub(&self) -> (stub: TcpReceiverStubRecipe)
        ensures
            stub.addr == self.addr,
    {
        TcpReceiverStubRecipe { addr: self.addr }
    }

    /// The receiver of this source, in its entry state; it owns the socket.
    pub fn into_receiver(self) -> (receiver: Receiver<S>)
        ensures
            receiver.wf(),
            receiver.key() == self.addr,
            receiver.state() == ReceiverState::Init,
            receiver.held() == Some(self.stream),
    {
        Receiver::new(self.addr, self.stream)
    }
}

impl TcpReceiverStubRecipe {
    /// The peer that identifies this event source.
    pub fn key(&self) -> (key: AddressKey)
        ensures
            key == self.addr,
    {
        self.addr
    }
}

/// The receiver of one connection.
#[derive(Debug)]
pub struct Receiver<S> {
    key: AddressKey,
    state: ReceiverState,
    socket: Option<S>,
}

impl<S> Receiver<S> {
    /// The peer of the connection, in specifications.
    pub closed spec fn spec_key(&self) -> AddressKey {
        self.key
    }

    /// The state of the receiver, in specifications.
    pub closed spec fn spec_state(&self) -> ReceiverState {
        self.state
    }

    /// The socket that the receiver owns, if it still owns one.
    pub closed spec fn held(&self) -> Option<S> {
        self.socket
    }

    /// The receiver owns its socket exactly until it is closed.
    pub open spec fn wf(&self) -> bool {
        self.held().is_some() <==> self.state() != ReceiverState::Closed
    }

    /// A receiver for the connection of `key` on `socket`, in its entry
    /// state.
    pub fn new(key: AddressKey, socket: S) -> (receiver: Receiver<S>)
        ensures
            receiver.wf(),
            receiver.key() == key,
            receiver.state() == ReceiverState::Init,
            receiver.held() == Some(socket),
    {
        Receiver { key, state: ReceiverState::Init, socket: Some(socket) }
    }

    /// The peer of the connection.
    #[verifier::when_used_as_spec(spec_key)]
    pub fn key(&self) -> (key: AddressKey)
        ensures
            key == self.spec_key(),
    {
        self.key
    }

    /// The state of the receiver.
    #[verifier::when_used_as_spec(spec_state)]
    pub fn state(&self) -> (state: ReceiverState)
        ensures
            state == self.spec_state(),
    {
        self.state
    }

    /// The socket to read from, while the receiver owns one.
    pub fn socket(&self) -> (socket: Option<&S>)
        ensures
            socket.is_some() == self.held().is_some(),
            socket.is_some() ==> *socket.unwrap() == self.held().unwrap(),
    {
        self.socket.as_ref()
    }

    /// Whether the receiver has ended.
    pub fn is_closed(&self) -> (closed: bool)
        ensures
            closed == (self.state() == ReceiverState::Closed),
    {
        self.state == ReceiverState::Closed
    }

    /// What the owner of the receiver has to do next.
    pub fn next_action(&self) -> (action: ReceiverAction)
        ensures
            action == match self.state() {
                ReceiverState::Init => ReceiverAction::Announce,
                ReceiverState::Ready => ReceiverAction::Read,
                ReceiverState::Closed => ReceiverAction::Finish,
            },
    {
        match self.state {
            ReceiverState::Init => ReceiverAction::Announce,
            ReceiverState::Ready => ReceiverAction::Read,
            ReceiverState::Closed => ReceiverAction::Finish,
        }
    }

    /// Leaves the entry state: the receiver becomes ready and announces its
    /// peer. In any other state nothing changes and nothing is emitted, so
    /// the announcement is made exactly once.
    pub fn begin(&mut self) -> (status: Option<ReceiverStatus_E>)
        requires
            old(self).wf(),
        ensures
            final(self).wf(),
            final(self).key() == old(self).key(),
            final(self).held() == old(self).held(),
            old(self).state() == ReceiverState::Init ==> final(self).state()
                == ReceiverState::Ready && status.is_some() && status.unwrap()@
                == ReceiverStatusView::Ready(old(self).key()),
            old(self).state() != ReceiverState::Init ==> final(self).state() == old(self).state()
                && status.is_none(),
    {
        match self.state {
            ReceiverState::Init => {
                self.state = ReceiverState::Ready;
                Some(ReceiverStatus_E::Ready(self.key))
            },
            _ => None,
        }
    }

    /// Takes the outcome of one read.
    ///
    /// While ready, a read with bytes is emitted as a message and the
    /// receiver stays ready, as it does, silently, when nothing was
    /// available; a read without bytes means that the peer closed, and a
    /// failed read is reported: either ends the receiver, which lets go of
    /// its socket. Before `begin` and after the end nothing is emitted and
    /// nothing changes.
    pub fn on_read(&mut self, outcome: ReadOutcome) -> (status: Option<ReceiverStatus_E>)
        requires
            old(self).wf(),
        ensures
            final(self).wf(),
            final(self).key() == old(self).key(),
            final(self).state() == next_state(old(self).state(), outcome@),
            final(self).held() == (if final(self).state() == ReceiverState::Closed {
                None
            } else {
                old(self).held()
            }),
            match status {
                Some(s) => emitted(old(self).state(), outcome@) == Some(s@),
                None => emitted(old(self).state(), outcome@).is_none(),
            },
    {
        match self.state {
            ReceiverState::Ready => match outcome {
                ReadOutcome::Bytes(bytes) => {
                    if bytes.len() > 0 {
                        Some(ReceiverStatus_E::Message(bytes))
                    } else {
                        self.state = ReceiverState::Closed;
                        self.socket = None;
                        Some(ReceiverStatus_E::Disconnected)
                    }
                },
                ReadOutcome::WouldBlock => None,
                ReadOutcome::Failed(message) => {
                    self.state = ReceiverState::Closed;
                    self.socket = None;
                    Some(ReceiverStatus_E::Error(message))
                },
            },
            _ => None,
        }
    }

    /// Ends the receiver because nobody observes its peer any more: it is
    /// closed, lets go of its socket, and emits nothing from then on.
    pub fn cancel(&mut self)
        ensures
            final(self).wf(),
            final(self).key() == old(self).key(),
            final(self).state() == ReceiverState::Closed,
            final(self).held().is_none(),
    {
        self.state = ReceiverState::Closed;
        self.socket = None;
    }
}

/// A closed receiver stays closed and emits nothing, whatever is read.
pub proof fn lemma_closed_is_silent(outcomes: Seq<ReadOutcomeView>)
    ensures
        state_after(ReceiverState::Closed, outcomes) == ReceiverState::Closed,
        trace(ReceiverState::Closed, outcomes) == Seq::<ReceiverStatusView>::empty(),
    decreases outcomes.len(),
{
    if outcomes.len() > 0 {
        lemma_closed_is_silent(outcomes.drop_last());
    }
}

/// A receiver that has not announced its peer emits nothing for any read:
/// the announcement comes before the first message.
pub proof fn lemma_init_is_silent(outcomes: Seq<ReadOutcomeView>)
    ensures
        state_after(ReceiverState::Init, outcomes) == ReceiverState::Init,
        trace(ReceiverState::Init, outcomes) == Seq::<ReceiverStatusView>::empty(),
    decreases outcomes.len(),
{
    if outcomes.len() > 0 {
        lemma_init_is_silent(outcomes.drop_last());
    }
}

/// The reads `first` and then `second` give the state and the trace of
/// `second` started where `first` ended.
pub proof fn lemma_trace_concat(
    state: ReceiverState,
    first: Seq<ReadOutcomeView>,
    second: Seq<ReadOutcomeView>,
)
    ensures
        state_after(state, first + second) == state_after(state_after(state, first), second),
        trace(state, first + second) == trace(state, first) + trace(
            state_after(state, first),
            second,
        ),
    decreases second.len(),
{
    let middle = state_after(state, first);
    if second.len() == 0 {
        assert(first + second =~= first);
        assert(trace(state, first) + trace(middle, second) =~= trace(state, first));
    } else {
        let whole = first + second;
        assert(whole.drop_last() =~= first + second.drop_last());
        assert(whole.last() == second.last());
        lemma_trace_concat(state, first, second.drop_last());
        match emitted(state_after(middle, second.drop_last()), second.last()) {
            Some(status) => {
                assert(trace(state, whole) =~= trace(state, first) + trace(middle, second));
            },
            None => {},
        }
    }
}

/// A ready receiver that reads zero bytes emits the disconnect, is closed,
/// and emits nothing for anything that is read afterwards.
pub proof fn lemma_zero_read_ends(later: Seq<ReadOutcomeView>)
    ensures
        state_after(
            ReceiverState::Ready,
            seq![ReadOutcomeView::Bytes(Seq::empty())] + later,
        ) == ReceiverState::Closed,
        trace(ReceiverState::Ready, seq![ReadOutcomeView::Bytes(Seq::empty())] + later)
            == seq![ReceiverStatusView::Disconnected],
{
    let first = seq![ReadOutcomeView::Bytes(Seq::empty())];
    assert(first.drop_last() =~= Seq::<ReadOutcomeView>::empty());
    assert(first.last() == ReadOutcomeView::Bytes(Seq::empty()));
    assert(state_after(ReceiverState::Ready, first.drop_last()) == ReceiverState::Ready);
    assert(trace(ReceiverState::Ready, first.drop_last()) =~= Seq::<ReceiverStatusView>::empty());
    assert(state_after(ReceiverState::Ready, first) == ReceiverState::Closed);
    assert(trace(ReceiverState::Ready, first) =~= seq![ReceiverStatusView::Disconnected]);
    lemma_trace_concat(ReceiverState::Ready, first, later);
    lemma_closed_is_silent(later);
    assert(trace(ReceiverState::Ready, first) + Seq::<ReceiverStatusView>::empty() =~= trace(
        ReceiverState::Ready,
        first,
    ));
}

/// In what a receiver emits for its reads, a terminal status comes last:
/// no message follows a disconnect or an error. Reads never repeat the
/// announcement. A receiver that its reads have closed has emitted a
/// terminal status, and one that is not closed has emitted none.
pub proof fn lemma_terminal_is_last(state: ReceiverState, outcomes: Seq<ReadOutcomeView>)
    ensures
        forall|i: int|
            0 <= i < trace(state, outcomes).len() && is_terminal(
                #[trigger] trace(state, outcomes)[i],
            ) ==> i == trace(state, outcomes).len() - 1,
        forall|i: int|
            0 <= i < trace(state, outcomes).len() ==> !(#[trigger] trace(
                state,
                outcomes,
            )[i] is Ready),
        state != ReceiverState::Closed && state_after(state, outcomes) == ReceiverState::Closed
            ==> trace(state, outcomes).len() > 0 && is_terminal(trace(state, outcomes).last()),
        state_after(state, outcomes) != ReceiverState::Closed ==> forall|i: int|
            0 <= i < trace(state, outcomes).len() ==> !is_terminal(
                #[trigger] trace(state, outcomes)[i],
            ),
    decreases outcomes.len(),
{
    if outcomes.len() > 0 {
        lemma_terminal_is_last(state, outcomes.drop_last());
    }
}

} // verus!
