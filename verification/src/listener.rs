//! The listener, as a state machine.
//!
//! The listener owns the bound socket until it is cancelled. The caller
//! binds the socket and performs the accepts on it; the listener decides
//! what each outcome means and what is emitted for it.

use vstd::prelude::*;
use crate::address::AddressKey;
use crate::events::{ListenerStatusView, ListenerStatus_E};

verus! {

/// The event source of the listener bound to `addr`.
#[derive(Clone, Copy, Debug, PartialEq, Eq, Hash, Structural)]
pub struct TcpListenerRecipe {
    pub addr: AddressKey,
}

/// Where a listener stands.
#[derive(Clone, Copy, Debug, PartialEq, Eq, Structural)]
pub enum ListenerState {
    /// Bound and accepting.
    Listening,
    /// Cancelled; the socket is released.
    Stopped,
}

/// The bind address was in use or otherwise unavailable.
#[derive(Debug, Clone, PartialEq, Eq)]
pub struct BindError {
    pub address: AddressKey,
    pub message: String,
}

/// The listener of one bind address.
#[derive(Debug)]
pub struct Listener<L> {
    address: AddressKey,
    state: ListenerState,
    socket: Option<L>,
}

/// What a listener in `state` emits for the accept outcome `outcome`.
pub open spec fn accept_status<S>(state: ListenerState, outcome: ListenerStatusView<S>) -> Option<
    ListenerStatusView<S>,
> {
    if state == ListenerState::Listening {
        Some(outcome)
    } else {
        None
    }
}

/// Everything that a listener in `state` emits for the accept outcomes
/// `outcomes`, in order.
pub open spec fn accept_trace<S>(state: ListenerState, outcomes: Seq<ListenerStatusView<S>>) -> Seq<
    ListenerStatusView<S>,
>
    decreases outcomes.len(),
{
    if outcomes.len() == 0 {
        Seq::empty()
    } else {
        match accept_status(state, outcomes.last()) {
            Some(status) => accept_trace(state, outcomes.drop_last()).push(status),
            None => accept_trace(state, outcomes.drop_last()),
        }
    }
}

/// The number of accepted connections among `statuses`.
pub open spec fn accepted_count<S>(statuses: Seq<ListenerStatusView<S>>) -> nat
    decreases statuses.len(),
{
    if statuses.len() == 0 {
        0
    } else if statuses.last() is Accepted {
        accepted_count(statuses.drop_last()) + 1
    } else {
        accepted_count(statuses.drop_last())
    }
}

impl TcpListenerRecipe {
    /// The bind address, which identifies this event source.
    pub fn key(&self) -> (key: AddressKey)
        ensures
            key == self.addr,
    {
        self.addr
    }

    /// The listener of this source, from the outcome of binding a socket to
    /// its address: see `Listener::bind`.
    pub fn bind<L>(&self, outcome: Result<L, String>) -> (result: Result<Listener<L>, BindError>)
        ensures
            match (result, outcome) {
                (Ok(listener), Ok(socket)) => listener.wf() && listener.address() == self.addr
                    && listener.state() == ListenerState::Listening && listener.held() == Some(
                    socket,
                ),
                (Err(error), Err(message)) => error.address == self.addr && error.message@ == message@,
                _ => false,
            },
    {
        Listener::bind(self.addr, outcome)
    }
}

impl BindError {
    /// The one status by which the failure is reported.
    pub fn into_status<S>(self) -> (status: ListenerStatus_E<S>)
        ensures
            status@ == ListenerStatusView::<S>::Error(self.message@),
    {
        ListenerStatus_E::Error(self.message)
    }
}

impl<L> Listener<L> {
    /// The bind address, in specifications.
    pub closed spec fn spec_address(&self) -> AddressKey {
        self.address
    }

    /// The state of the listener, in specifications.
    pub closed spec fn spec_state(&self) -> ListenerState {
        self.state
    }

    /// The bound socket that the listener owns, if it still owns one.
    pub closed spec fn held(&self) -> Option<L> {
        self.socket
    }

    /// The listener owns its socket exactly while it listens.
    pub open spec fn wf(&self) -> bool {
        self.held().is_some() <==> self.state() == ListenerState::Listening
    }

    /// The listener at `address`, from the outcome of binding a socket to
    /// it: the bound socket, or the text of the OS error.
    ///
    /// With a socket the listener listens and owns it. Without one there is
    /// no listener, only the error: the failure is reported once and no
    /// accept can follow it.
    pub fn bind(address: AddressKey, outcome: Result<L, String>) -> (result: Result<
        Listener<L>,
        BindError,
    >)
        ensures
            match (result, outcome) {
                (Ok(listener), Ok(socket)) => listener.wf() && listener.address() == address
                    && listener.state() == ListenerState::Listening && listener.held() == Some(
                    socket,
                ),
                (Err(error), Err(message)) => error.address == address && error.message@ == message@,
                _ => false,
            },
    {
        match outcome {
            Ok(socket) => Ok(
                Listener { address, state: ListenerState::Listening, socket: Some(socket) },
            ),
            Err(message) => Err(BindError { address, message }),
        }
    }

    /// The bind address.
    #[verifier::when_used_as_spec(spec_address)]
    pub fn address(&self) -> (address: AddressKey)
        ensures
            address == self.spec_address(),
    {
        self.address
    }

    /// The state of the listener.
    #[verifier::when_used_as_spec(spec_state)]
    pub fn state(&self) -> (state: ListenerState)
        ensures
            state == self.spec_state(),
    {
        self.state
    }

    /// The socket to accept on, while the listener owns one.
    pub fn socket(&self) -> (socket: Option<&L>)
        ensures
            socket.is_some() == self.held().is_some(),
            socket.is_some() ==> *socket.unwrap() == self.held().unwrap(),
    {
        self.socket.as_ref()
    }

    /// Takes the outcome of one accept attempt.
    ///
    /// A listening listener emits every outcome, an error too, and goes on
    /// listening. A cancelled listener emits nothing and the outcome is
    /// dropped, its socket with it.
    pub fn on_accept<S>(&self, outcome: ListenerStatus_E<S>) -> (status: Option<
        ListenerStatus_E<S>,
    >)
        ensures
            match status {
                Some(s) => accept_status(self.state(), outcome@) == Some(s@),
                None => accept_status(self.state(), outcome@).is_none(),
            },
            status.is_some() ==> status.unwrap() == outcome,
    {
        match self.state {
            ListenerState::Listening => Some(outcome),
            ListenerState::Stopped => None,
        }
    }

    /// Stops the listener and lets go of the bound socket, which releases
    /// the port.
    pub fn cancel(&mut self)
        ensures
            final(self).wf(),
            final(self).address() == old(self).address(),
            final(self).state() == ListenerState::Stopped,
            final(self).held().is_none(),
    {
        self.state = ListenerState::Stopped;
        self.socket = None;
    }
}

/// A listening listener emits one status for every accept outcome, in
/// order: what it emits never ends while outcomes arrive.
pub proof fn lemma_listening_emits_all<S>(outcomes: Seq<ListenerStatusView<S>>)
    ensures
        accept_trace(ListenerState::Listening, outcomes) == outcomes,
    decreases outcomes.len(),
{
    if outcomes.len() > 0 {
        lemma_listening_emits_all(outcomes.drop_last());
        assert(outcomes.drop_last().push(outcomes.last()) =~= outcomes);
    }
}

/// Where no accept fails, a listening listener has emitted as many accepted
/// connections as there were accepts, and more accepts never give fewer.
pub proof fn lemma_accepts_grow<S>(
    outcomes: Seq<ListenerStatusView<S>>,
    more: Seq<ListenerStatusView<S>>,
)
    requires
        forall|i: int| 0 <= i < outcomes.len() ==> #[trigger] outcomes[i] is Accepted,
        forall|i: int| 0 <= i < more.len() ==> #[trigger] more[i] is Accepted,
    ensures
        accept_trace(ListenerState::Listening, outcomes).len() == outcomes.len(),
        accepted_count(accept_trace(ListenerState::Listening, outcomes)) == outcomes.len(),
        accepted_count(accept_trace(ListenerState::Listening, outcomes + more)) == outcomes.len()
            + more.len(),
        accept_trace(ListenerState::Listening, outcomes + more).subrange(
            0,
            outcomes.len() as int,
        ) == accept_trace(ListenerState::Listening, outcomes),
{
    lemma_listening_emits_all(outcomes);
    lemma_listening_emits_all(more);
    lemma_listening_emits_all(outcomes + more);
    lemma_count_all_accepted(outcomes);
    lemma_count_all_accepted(outcomes + more);
    assert((outcomes + more).subrange(0, outcomes.len() as int) =~= outcomes);
}

/// Among accepted connections alone, every one is counted.
proof fn lemma_count_all_accepted<S>(statuses: Seq<ListenerStatusView<S>>)
    requires
        forall|i: int| 0 <= i < statuses.len() ==> #[trigger] statuses[i] is Accepted,
    ensures
        accepted_count(statuses) == statuses.len(),
    decreases statuses.len(),
{
    if statuses.len() > 0 {
        assert(statuses.last() == statuses[statuses.len() - 1]);
        lemma_count_all_accepted(statuses.drop_last());
    }
}

/// A cancelled listener emits nothing: no accept status ever follows.
pub proof fn lemma_stopped_is_silent<S>(state: ListenerState, outcomes: Seq<ListenerStatusView<S>>)
    requires
        state != ListenerState::Listening,
    ensures
        accept_trace(state, outcomes) == Seq::<ListenerStatusView<S>>::empty(),
    decreases outcomes.len(),
{
    if outcomes.len() > 0 {
        lemma_stopped_is_silent(state, outcomes.drop_last());
    }
}

} // verus!
