//! The event router: one event stream out of the listener and the
//! receivers, and the set of event sources to declare on each tick.

use std::collections::VecDeque;
use vstd::prelude::*;
use crate::address::AddressKey;
use crate::events::{
    Event, ListenerStatusView, ListenerStatus_E, ReceiverStatus_E, is_terminal, listener_event,
    receiver_event,
};
use crate::listener::TcpListenerRecipe;
use crate::receiver::{TcpReceiverRecipe, TcpReceiverStubRecipe};
use crate::registry::{Registry, after_unregister};

verus! {

/// An accepted connection that no receiver has claimed yet.
#[derive(Debug)]
pub struct PendingConnection<S> {
    pub key: AddressKey,
    pub socket: S,
}

/// The event sources of one tick, and the sockets to close.
#[derive(Debug)]
pub struct Subscriptions<S> {
    /// The listener, declared on every tick.
    pub listener: TcpListenerRecipe,
    /// One stub for each receiver that was running before the tick.
    pub ongoing: Vec<TcpReceiverStubRecipe>,
    /// One recipe for each receiver to start, with the socket it owns.
    pub started: Vec<TcpReceiverRecipe<S>>,
    /// The sockets of connections whose peer has a receiver already.
    pub discarded: Vec<S>,
}

/// Composes the listener and the receivers, and keeps the registry.
///
/// The router is the only writer of its registry and of its staging area.
pub struct Router<S> {
    address: AddressKey,
    registry: Registry,
    pending: VecDeque<PendingConnection<S>>,
}

/// Whether the pending connection at `index` gets a receiver: its peer has
/// none yet, and no earlier pending connection is of the same peer.
pub open spec fn claims<S>(
    registered: Set<AddressKey>,
    pending: Seq<PendingConnection<S>>,
    index: int,
) -> bool {
    &&& !registered.contains(pending[index].key)
    &&& forall|j: int| 0 <= j < index ==> (#[trigger] pending[j]).key != pending[index].key
}

/// The recipe that hands the socket of `connection` to a new receiver.
pub open spec fn recipe_of<S>(connection: PendingConnection<S>) -> TcpReceiverRecipe<S> {
    TcpReceiverRecipe { addr: connection.key, stream: connection.socket }
}

/// The recipes of the receivers to start for the first `count` pending
/// connections, in arrival order.
pub open spec fn started_of<S>(
    registered: Set<AddressKey>,
    pending: Seq<PendingConnection<S>>,
    count: nat,
) -> Seq<TcpReceiverRecipe<S>>
    decreases count,
{
    if count == 0 {
        Seq::empty()
    } else if claims(registered, pending, count - 1) {
        started_of(registered, pending, (count - 1) as nat).push(recipe_of(pending[count - 1]))
    } else {
        started_of(registered, pending, (count - 1) as nat)
    }
}

/// The sockets to close among the first `count` pending connections, in
/// arrival order.
pub open spec fn discarded_of<S>(
    registered: Set<AddressKey>,
    pending: Seq<PendingConnection<S>>,
    count: nat,
) -> Seq<S>
    decreases count,
{
    if count == 0 {
        Seq::empty()
    } else if claims(registered, pending, count - 1) {
        discarded_of(registered, pending, (count - 1) as nat)
    } else {
        discarded_of(registered, pending, (count - 1) as nat).push(pending[count - 1].socket)
    }
}

/// The peers of the first `count` pending connections.
pub open spec fn pending_keys<S>(pending: Seq<PendingConnection<S>>, count: nat) -> Set<
    AddressKey,
> {
    Set::new(|key: AddressKey| exists|j: int| 0 <= j < count && (#[trigger] pending[j]).key == key)
}

/// The peers of the receivers that `recipes` start, in order.
pub open spec fn peers_of<S>(recipes: Seq<TcpReceiverRecipe<S>>) -> Seq<AddressKey> {
    recipes.map_values(|recipe: TcpReceiverRecipe<S>| recipe.addr)
}

/// The sockets that the recipes `recipes` hand to their receivers, in order.
pub open spec fn streams_of<S>(recipes: Seq<TcpReceiverRecipe<S>>) -> Seq<S> {
    recipes.map_values(|recipe: TcpReceiverRecipe<S>| recipe.stream)
}

/// The sockets of the first `count` pending connections, in arrival order.
pub open spec fn sockets_of<S>(pending: Seq<PendingConnection<S>>, count: nat) -> Seq<S> {
    Seq::new(count, |j: int| pending[j].socket)
}

/// The stubs of the running receivers, from their peers.
pub open spec fn stubs_of(order: Seq<AddressKey>) -> Seq<TcpReceiverStubRecipe> {
    Seq::new(order.len(), |i: int| TcpReceiverStubRecipe { addr: order[i] })
}

impl<S> Router<S> {
    /// The address that the listener binds to.
    pub closed spec fn spec_address(&self) -> AddressKey {
        self.address
    }

    /// The peers that have a receiver.
    pub closed spec fn registered(&self) -> Set<AddressKey> {
        self.registry@
    }

    /// The peers that have a receiver, in the order in which they got it.
    pub closed spec fn order(&self) -> Seq<AddressKey> {
        self.registry.order()
    }

    /// The accepted connections that wait for the next tick, in arrival
    /// order.
    pub closed spec fn staged(&self) -> Seq<PendingConnection<S>> {
        self.pending@
    }

    /// No peer has two receivers.
    pub closed spec fn wf(&self) -> bool {
        self.registry.wf()
    }

    /// The order holds exactly the registered peers, each once.
    pub proof fn lemma_order(&self)
        requires
            self.wf(),
        ensures
            self.order().no_duplicates(),
            self.order().to_set() == self.registered(),
    {
        self.registry.lemma_order();
    }

    /// A router for the listener at `address`, with no receiver and nothing
    /// staged.
    pub fn new(address: AddressKey) -> (router: Router<S>)
        ensures
            router.wf(),
            router.spec_address() == address,
            router.registered() == Set::<AddressKey>::empty(),
            router.order() == Seq::<AddressKey>::empty(),
            router.staged() == Seq::<PendingConnection<S>>::empty(),
    {
        Router { address, registry: Registry::new(), pending: VecDeque::new() }
    }

    /// The address that the listener binds to.
    #[verifier::when_used_as_spec(spec_address)]
    pub fn address(&self) -> (address: AddressKey)
        ensures
            address == self.spec_address(),
    {
        self.address
    }

    /// Whether `key` has a receiver.
    pub fn is_registered(&self, key: AddressKey) -> (found: bool)
        requires
            self.wf(),
        ensures
            found == self.registered().contains(key),
    {
        self.registry.contains(key)
    }

    /// The number of peers that have a receiver.
    pub fn registered_len(&self) -> (count: usize)
        requires
            self.wf(),
        ensures
            count == self.order().len(),
            count == self.registered().len(),
    {
        self.registry.len()
    }

    /// The number of accepted connections that wait for the next tick.
    pub fn staged_len(&self) -> (count: usize)
        ensures
            count == self.staged().len(),
    {
        self.pending.len()
    }

    /// Takes a status of the listener and gives the event for the UI loop.
    ///
    /// An accepted connection is staged behind those that wait already; its
    /// socket is held until the next tick. An error changes nothing.
    pub fn on_listener_status(&mut self, status: ListenerStatus_E<S>) -> (event: Event)
        requires
            old(self).wf(),
        ensures
            final(self).wf(),
            final(self).spec_address() == old(self).spec_address(),
            final(self).registered() == old(self).registered(),
            final(self).order() == old(self).order(),
            event@ == listener_event(status@),
            final(self).staged() == (match status@ {
                ListenerStatusView::Accepted { stream, addr } => old(self).staged().push(
                    PendingConnection { key: addr, socket: stream },
                ),
                ListenerStatusView::Error(_) => old(self).staged(),
            }),
    {
        match status {
            ListenerStatus_E::Accepted { stream, addr } => {
                self.pending.push_back(PendingConnection { key: addr, socket: stream });
                Event::Accepted(addr)
            },
            ListenerStatus_E::Error(message) => Event::AcceptError(message),
        }
    }

    /// Takes a status of the receiver of `key` and gives the event for the
    /// UI loop.
    ///
    /// A terminal status, a disconnect or an error, removes the peer from
    /// the registry, so that a later connection of the same peer gets a
    /// receiver again. Any other status changes nothing.
    pub fn on_receiver_status(&mut self, key: AddressKey, status: ReceiverStatus_E) -> (event:
        Event)
        requires
            old(self).wf(),
        ensures
            final(self).wf(),
            final(self).spec_address() == old(self).spec_address(),
            final(self).staged() == old(self).staged(),
            event@ == receiver_event(key, status@),
            is_terminal(status@) ==> final(self).registered() == after_unregister(
                old(self).registered(),
                key,
            ) && final(self).order() == old(self).order().filter(|k: AddressKey| k != key),
            !is_terminal(status@) ==> final(self).registered() == old(self).registered()
                && final(self).order() == old(self).order(),
    {
        match status {
            ReceiverStatus_E::Ready(ready) => Event::Ready(ready),
            ReceiverStatus_E::Message(bytes) => Event::Data(key, bytes),
            ReceiverStatus_E::Disconnected => {
                self.registry.unregister(key);
                Event::Disconnected(key)
            },
            ReceiverStatus_E::Error(message) => {
                self.registry.unregister(key);
                Event::ReceiveError(key, message)
            },
        }
    }

    /// Forgets the receiver of `key`, for a peer that the UI loop no longer
    /// observes; the caller stops that receiver and closes its socket.
    pub fn cancel(&mut self, key: AddressKey)
        requires
            old(self).wf(),
        ensures
            final(self).wf(),
            final(self).spec_address() == old(self).spec_address(),
            final(self).staged() == old(self).staged(),
            final(self).registered() == after_unregister(old(self).registered(), key),
            final(self).order() == old(self).order().filter(|k: AddressKey| k != key),
    {
        self.registry.unregister(key);
    }

    /// The event sources to declare on this tick.
    ///
    /// The listener is always among them, and a stub for each receiver that
    /// was running. The staging area is drained in arrival order: a
    /// connection whose peer has no receiver gets one, which owns its socket,
    /// and the peer is registered; the socket of any other connection is
    /// handed back to be closed. Every staged socket leaves the router in
    /// exactly one of the two ways, and nothing stays staged.
    pub fn tick(&mut self) -> (sources: Subscriptions<S>)
        requires
            old(self).wf(),
        ensures
            final(self).wf(),
            final(self).spec_address() == old(self).spec_address(),
            final(self).staged() == Seq::<PendingConnection<S>>::empty(),
            final(self).registered() == old(self).registered().union(
                pending_keys(old(self).staged(), old(self).staged().len()),
            ),
            sources.listener.addr == old(self).spec_address(),
            sources.ongoing@ == stubs_of(old(self).order()),
            sources.started@ == started_of(
                old(self).registered(),
                old(self).staged(),
                old(self).staged().len(),
            ),
            sources.discarded@ == discarded_of(
                old(self).registered(),
                old(self).staged(),
                old(self).staged().len(),
            ),
            final(self).order() == old(self).order() + peers_of(sources.started@),
    {
        let ghost before = self.registry@;
        let ghost order_before = self.registry.order();
        let ghost staged = self.pending@;
        let running = self.registry.keys();
        let mut ongoing: Vec<TcpReceiverStubRecipe> = Vec::new();
        let mut at: usize = 0;
        while at < running.len()
            invariant
                at <= running@.len(),
                ongoing@ == stubs_of(running@.subrange(0, at as int)),
            decreases running@.len() - at,
        {
            ongoing.push(TcpReceiverStubRecipe { addr: running[at] });
            at += 1;
            assert(ongoing@ =~= stubs_of(running@.subrange(0, at as int)));
        }
        assert(running@.subrange(0, at as int) =~= running@);

        let mut started: Vec<TcpReceiverRecipe<S>> = Vec::new();
        let mut discarded: Vec<S> = Vec::new();
        let ghost mut done: nat = 0;
        while self.pending.len() > 0
            invariant
                self.registry.wf(),
                self.address == old(self).address,
                done <= staged.len(),
                self.pending@ == staged.subrange(done as int, staged.len() as int),
                self.registry@ == before.union(pending_keys(staged, done)),
                started@ == started_of(before, staged, done),
                discarded@ == discarded_of(before, staged, done),
                self.registry.order() == order_before + peers_of(started@),
            decreases self.pending@.len(),
        {
            let connection = self.pending.pop_front().unwrap();
            let ghost started_before = started@;
            proof {
                assert(connection == staged[done as int]);
                assert(self.pending@ =~= staged.subrange(done as int + 1, staged.len() as int));
            }
            let fresh = self.registry.register(connection.key);
            proof {
                assert(fresh == claims(before, staged, done as int)) by {
                    if !fresh {
                        if !before.contains(connection.key) {
                            let j = choose|j: int|
                                0 <= j < done && (#[trigger] staged[j]).key == connection.key;
                            assert(staged[j].key == staged[done as int].key);
                        }
                    } else {
                        assert(!before.contains(connection.key));
                        assert forall|j: int| 0 <= j < done implies (#[trigger] staged[j]).key
                            != staged[done as int].key by {
                            if staged[j].key == connection.key {
                                assert(pending_keys(staged, done).contains(connection.key));
                            }
                        }
                    }
                }
                lemma_pending_keys_grow(staged, done);
                assert(self.registry@ =~= before.union(pending_keys(staged, done + 1)));
            }
            if fresh {
                started.push(TcpReceiverRecipe { addr: connection.key, stream: connection.socket });
                proof {
                    assert(peers_of(started@) =~= peers_of(started_before).push(connection.key));
                    assert(self.registry.order() =~= order_before + peers_of(started@));
                }
            } else {
                discarded.push(connection.socket);
            }
            proof {
                done = done + 1;
            }
        }
        Subscriptions {
            listener: TcpListenerRecipe { addr: self.address },
            ongoing,
            started,
            discarded,
        }
    }
}

/// The peers of one more pending connection are those of the connections
/// before it and its own.
proof fn lemma_pending_keys_grow<S>(pending: Seq<PendingConnection<S>>, count: nat)
    requires
        count < pending.len(),
    ensures
        pending_keys(pending, count + 1) == pending_keys(pending, count).insert(
            pending[count as int].key,
        ),
{
    assert forall|key: AddressKey|
        pending_keys(pending, count + 1).contains(key) <==> pending_keys(pending, count).insert(
            pending[count as int].key,
        ).contains(key) by {
        if pending_keys(pending, count).contains(key) {
            let j = choose|j: int| 0 <= j < count && (#[trigger] pending[j]).key == key;
            assert(0 <= j < count + 1 && pending[j].key == key);
        }
        if key == pending[count as int].key {
            assert(0 <= count < count + 1 && pending[count as int].key == key);
        }
    }
    assert(pending_keys(pending, count + 1) =~= pending_keys(pending, count).insert(
        pending[count as int].key,
    ));
}

/// Each peer gets exactly one receiver. Of the first `count` staged
/// connections every one either starts a receiver or has its socket handed
/// back; no receiver is started for a peer that has one; no two receivers
/// are started for one peer; and every staged peer without a receiver gets
/// one.
pub proof fn lemma_one_receiver_per_peer<S>(
    registered: Set<AddressKey>,
    pending: Seq<PendingConnection<S>>,
    count: nat,
)
    requires
        count <= pending.len(),
    ensures
        started_of(registered, pending, count).len() + discarded_of(
            registered,
            pending,
            count,
        ).len() == count,
        forall|i: int|
            0 <= i < started_of(registered, pending, count).len() ==> {
                let key = (#[trigger] started_of(registered, pending, count)[i]).addr;
                !registered.contains(key) && pending_keys(pending, count).contains(key)
            },
        peers_of(started_of(registered, pending, count)).no_duplicates(),
        forall|key: AddressKey|
            #[trigger] pending_keys(pending, count).contains(key) && !registered.contains(key)
                ==> peers_of(started_of(registered, pending, count)).contains(key),
    decreases count,
{
    if count > 0 {
        let fewer = (count - 1) as nat;
        let last = pending[count - 1];
        let earlier = started_of(registered, pending, fewer);
        let now = started_of(registered, pending, count);
        lemma_one_receiver_per_peer(registered, pending, fewer);
        lemma_pending_keys_grow(pending, fewer);
        if claims(registered, pending, count - 1) {
            assert(!pending_keys(pending, fewer).contains(last.key)) by {
                if pending_keys(pending, fewer).contains(last.key) {
                    let j = choose|j: int|
                        0 <= j < fewer && (#[trigger] pending[j]).key == last.key;
                    assert(pending[j].key != pending[count - 1].key);
                }
            }
            assert(now == earlier.push(recipe_of(last)));
            assert(peers_of(now) =~= peers_of(earlier).push(last.key));
            assert forall|i: int| 0 <= i < now.len() implies {
                let key = (#[trigger] now[i]).addr;
                !registered.contains(key) && pending_keys(pending, count).contains(key)
            } by {
                if i < earlier.len() {
                    assert(now[i] == earlier[i]);
                }
            }
            assert(peers_of(now).no_duplicates()) by {
                assert forall|i: int, j: int|
                    0 <= i < peers_of(now).len() && 0 <= j < peers_of(now).len() && i
                        != j implies peers_of(now)[i] != peers_of(now)[j] by {
                    if i < earlier.len() && j < earlier.len() {
                        assert(peers_of(earlier)[i] != peers_of(earlier)[j]);
                    } else if i < earlier.len() {
                        assert(pending_keys(pending, fewer).contains(earlier[i].addr));
                    } else {
                        assert(pending_keys(pending, fewer).contains(earlier[j].addr));
                    }
                }
            }
            assert forall|key: AddressKey| #[trigger]
                pending_keys(pending, count).contains(key) && !registered.contains(
                    key,
                ) implies peers_of(now).contains(key) by {
                if key == last.key {
                    assert(peers_of(now)[earlier.len() as int] == key);
                } else {
                    let i = choose|i: int|
                        0 <= i < peers_of(earlier).len() && peers_of(earlier)[i] == key;
                    assert(peers_of(now)[i] == key);
                }
            }
        } else {
            assert(now == earlier);
            assert forall|key: AddressKey| #[trigger]
                pending_keys(pending, count).contains(key) && !registered.contains(
                    key,
                ) implies peers_of(now).contains(key) by {
                if key == last.key && !pending_keys(pending, fewer).contains(key) {
                    assert forall|j: int| 0 <= j < count - 1 implies (#[trigger] pending[j]).key
                        != pending[count - 1].key by {
                        if pending[j].key == key {
                            assert(pending_keys(pending, fewer).contains(key));
                        }
                    }
                    assert(false);
                }
            }
        }
    } else {
        assert(peers_of(started_of(registered, pending, count)) =~= Seq::<AddressKey>::empty());
    }
}

/// Every staged socket leaves the staging area exactly once: the sockets
/// that the new receivers own, together with the sockets that are handed
/// back, are the staged sockets, each as often as it was staged.
pub proof fn lemma_every_socket_leaves_once<S>(
    registered: Set<AddressKey>,
    pending: Seq<PendingConnection<S>>,
    count: nat,
)
    requires
        count <= pending.len(),
    ensures
        streams_of(started_of(registered, pending, count)).to_multiset().add(
            discarded_of(registered, pending, count).to_multiset(),
        ) == sockets_of(pending, count).to_multiset(),
    decreases count,
{
    broadcast use vstd::multiset::group_multiset_axioms;

    let started = streams_of(started_of(registered, pending, count));
    let discarded = discarded_of(registered, pending, count);
    if count > 0 {
        let fewer = (count - 1) as nat;
        let socket = pending[count - 1].socket;
        let started_earlier = streams_of(started_of(registered, pending, fewer));
        let discarded_earlier = discarded_of(registered, pending, fewer);
        lemma_every_socket_leaves_once(registered, pending, fewer);
        assert(sockets_of(pending, count) =~= sockets_of(pending, fewer).push(socket));
        vstd::seq_lib::to_multiset_build(sockets_of(pending, fewer), socket);
        if claims(registered, pending, count - 1) {
            assert(started =~= started_earlier.push(socket));
            vstd::seq_lib::to_multiset_build(started_earlier, socket);
        } else {
            vstd::seq_lib::to_multiset_build(discarded_earlier, socket);
        }
        assert(started.to_multiset().add(discarded.to_multiset()) =~= sockets_of(
            pending,
            count,
        ).to_multiset());
    } else {
        assert(started =~= Seq::<S>::empty());
        assert forall|socket: S|
            started.to_multiset().count(socket) == 0 && discarded.to_multiset().count(socket)
                == 0 && sockets_of(pending, count).to_multiset().count(socket) == 0 by {
            vstd::seq_lib::to_multiset_contains(started, socket);
            vstd::seq_lib::to_multiset_contains(discarded, socket);
            vstd::seq_lib::to_multiset_contains(sockets_of(pending, count), socket);
        }
        assert(started.to_multiset().add(discarded.to_multiset()) =~= sockets_of(
            pending,
            count,
        ).to_multiset());
    }
}

/// Where every staged connection is of a peer that has a receiver, no
/// receiver is started and every socket is handed back, in arrival order.
pub proof fn lemma_registered_peers_start_nothing<S>(
    registered: Set<AddressKey>,
    pending: Seq<PendingConnection<S>>,
    count: nat,
)
    requires
        count <= pending.len(),
        forall|j: int| 0 <= j < count ==> registered.contains((#[trigger] pending[j]).key),
    ensures
        started_of(registered, pending, count) == Seq::<TcpReceiverRecipe<S>>::empty(),
        discarded_of(registered, pending, count) == sockets_of(pending, count),
    decreases count,
{
    if count > 0 {
        lemma_registered_peers_start_nothing(registered, pending, (count - 1) as nat);
        assert(registered.contains(pending[count - 1].key));
    }
    assert(discarded_of(registered, pending, count) =~= sockets_of(pending, count));
}

/// Declaring the same peers on a later tick starts nothing: after a tick
/// that drained `first`, connections of peers that had a receiver before it
/// or were staged in it start no receiver.
pub proof fn lemma_next_tick_restarts_nothing<S>(
    registered: Set<AddressKey>,
    first: Seq<PendingConnection<S>>,
    second: Seq<PendingConnection<S>>,
)
    requires
        forall|j: int|
            0 <= j < second.len() ==> registered.contains((#[trigger] second[j]).key)
                || pending_keys(first, first.len()).contains(second[j].key),
    ensures
        started_of(
            registered.union(pending_keys(first, first.len())),
            second,
            second.len(),
        ) == Seq::<TcpReceiverRecipe<S>>::empty(),
        discarded_of(
            registered.union(pending_keys(first, first.len())),
            second,
            second.len(),
        ) == sockets_of(second, second.len()),
{
    lemma_registered_peers_start_nothing(
        registered.union(pending_keys(first, first.len())),
        second,
        second.len(),
    );
}

/// Two connections of different peers, neither of which has a receiver,
/// start one receiver each, in arrival order, and no socket is handed back.
pub proof fn lemma_two_new_peers<S>(
    registered: Set<AddressKey>,
    first: PendingConnection<S>,
    second: PendingConnection<S>,
)
    requires
        first.key != second.key,
        !registered.contains(first.key),
        !registered.contains(second.key),
    ensures
        started_of(registered, seq![first, second], 2) == seq![
            recipe_of(first),
            recipe_of(second),
        ],
        discarded_of(registered, seq![first, second], 2) == Seq::<S>::empty(),
{
    let pending = seq![first, second];
    reveal_with_fuel(started_of, 3);
    reveal_with_fuel(discarded_of, 3);
    assert(claims(registered, pending, 0));
    assert(claims(registered, pending, 1));
    assert(started_of(registered, pending, 2) =~= seq![recipe_of(first), recipe_of(second)]);
}

/// Two staged connections of one peer that has no receiver start exactly
/// one receiver, on the socket that arrived first; the other socket is
/// handed back.
pub proof fn lemma_same_peer_twice<S>(
    registered: Set<AddressKey>,
    first: PendingConnection<S>,
    second: PendingConnection<S>,
)
    requires
        first.key == second.key,
        !registered.contains(first.key),
    ensures
        started_of(registered, seq![first, second], 2) == seq![recipe_of(first)],
        discarded_of(registered, seq![first, second], 2) == seq![second.socket],
{
    let pending = seq![first, second];
    reveal_with_fuel(started_of, 3);
    reveal_with_fuel(discarded_of, 3);
    assert(claims(registered, pending, 0));
    assert(!claims(registered, pending, 1)) by {
        assert(pending[0].key == pending[1].key);
    }
    assert(started_of(registered, pending, 2) =~= seq![recipe_of(first)]);
    assert(discarded_of(registered, pending, 2) =~= seq![second.socket]);
}

} // verus!
