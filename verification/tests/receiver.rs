use std::cell::Cell;
use std::rc::Rc;
use tcp_events::address::AddressKey;
use tcp_events::events::{Event, ListenerStatus_E, ReadOutcome, ReceiverStatus_E};
use tcp_events::listener::Listener;
use tcp_events::receiver::{
    Receiver, ReceiverAction, ReceiverState, TcpReceiverRecipe, TcpReceiverStubRecipe,
};
use tcp_events::router::Router;

fn receiver_peer() -> AddressKey {
    AddressKey::v4(127, 0, 0, 1, 51234)
}

#[derive(Debug)]
struct TrackedSocket {
    open: Rc<Cell<bool>>,
}

impl TrackedSocket {
    fn open(flag: &Rc<Cell<bool>>) -> TrackedSocket {
        flag.set(true);
        TrackedSocket { open: Rc::clone(flag) }
    }
}

impl Drop for TrackedSocket {
    fn drop(&mut self) {
        self.open.set(false);
    }
}

#[test]
fn new_receiver_is_in_entry_state() {
    let receiver = Receiver::new(receiver_peer(), 3u32);
    assert_eq!(receiver.key(), receiver_peer());
    assert_eq!(receiver.state(), ReceiverState::Init);
    assert_eq!(receiver.next_action(), ReceiverAction::Announce);
    assert_eq!(receiver.socket(), Some(&3));
    assert!(!receiver.is_closed());
}

#[test]
fn begin_announces_exactly_once() {
    let mut receiver = Receiver::new(receiver_peer(), 3u32);
    assert_eq!(receiver.begin(), Some(ReceiverStatus_E::Ready(receiver_peer())));
    assert_eq!(receiver.state(), ReceiverState::Ready);
    assert_eq!(receiver.next_action(), ReceiverAction::Read);
    assert_eq!(receiver.begin(), None);
    assert_eq!(receiver.state(), ReceiverState::Ready);
    assert_eq!(receiver.socket(), Some(&3));
}

#[test]
fn read_before_begin_emits_nothing() {
    let mut receiver = Receiver::new(receiver_peer(), 3u32);
    assert_eq!(receiver.on_read(ReadOutcome::Bytes(vec![1, 2, 3])), None);
    assert_eq!(receiver.state(), ReceiverState::Init);
    assert_eq!(receiver.on_read(ReadOutcome::Bytes(vec![])), None);
    assert_eq!(receiver.on_read(ReadOutcome::Failed("early".to_string())), None);
    assert_eq!(receiver.state(), ReceiverState::Init);
    assert_eq!(receiver.socket(), Some(&3));
    assert_eq!(receiver.begin(), Some(ReceiverStatus_E::Ready(receiver_peer())));
}

#[test]
fn non_empty_reads_are_messages_in_read_order() {
    let mut receiver = Receiver::new(receiver_peer(), 3u32);
    receiver.begin();
    assert_eq!(
        receiver.on_read(ReadOutcome::Bytes(vec![1])),
        Some(ReceiverStatus_E::Message(vec![1]))
    );
    assert_eq!(
        receiver.on_read(ReadOutcome::Bytes(vec![2, 3])),
        Some(ReceiverStatus_E::Message(vec![2, 3]))
    );
    assert_eq!(receiver.state(), ReceiverState::Ready);
    assert_eq!(receiver.next_action(), ReceiverAction::Read);
    assert_eq!(receiver.socket(), Some(&3));
}

#[test]
fn would_block_keeps_the_receiver_waiting() {
    let mut receiver = Receiver::new(receiver_peer(), 3u32);
    receiver.begin();
    assert_eq!(receiver.on_read(ReadOutcome::WouldBlock), None);
    assert_eq!(receiver.state(), ReceiverState::Ready);
    assert_eq!(receiver.next_action(), ReceiverAction::Read);
    assert_eq!(receiver.socket(), Some(&3));
    assert_eq!(
        receiver.on_read(ReadOutcome::Bytes(vec![7])),
        Some(ReceiverStatus_E::Message(vec![7]))
    );
}

#[test]
fn zero_byte_read_closes_and_nothing_follows() {
    let mut receiver = Receiver::new(receiver_peer(), 3u32);
    receiver.begin();
    assert_eq!(
        receiver.on_read(ReadOutcome::Bytes(Vec::new())),
        Some(ReceiverStatus_E::Disconnected)
    );
    assert!(receiver.is_closed());
    assert_eq!(receiver.next_action(), ReceiverAction::Finish);
    assert_eq!(receiver.socket(), None);
    assert_eq!(receiver.on_read(ReadOutcome::Bytes(vec![9, 9])), None);
    assert_eq!(receiver.on_read(ReadOutcome::Bytes(Vec::new())), None);
    assert_eq!(receiver.on_read(ReadOutcome::WouldBlock), None);
    assert_eq!(receiver.on_read(ReadOutcome::Failed("late".to_string())), None);
    assert_eq!(receiver.begin(), None);
    assert_eq!(receiver.state(), ReceiverState::Closed);
}

#[test]
fn failed_read_is_reported_and_closes() {
    let mut receiver = Receiver::new(receiver_peer(), 3u32);
    receiver.begin();
    assert_eq!(
        receiver.on_read(ReadOutcome::Failed("connection reset".to_string())),
        Some(ReceiverStatus_E::Error("connection reset".to_string()))
    );
    assert!(receiver.is_closed());
    assert_eq!(receiver.socket(), None);
    assert_eq!(receiver.on_read(ReadOutcome::Bytes(vec![1])), None);
}

#[test]
fn closing_releases_the_socket() {
    let open = Rc::new(Cell::new(false));
    let mut receiver = Receiver::new(receiver_peer(), TrackedSocket::open(&open));
    receiver.begin();
    receiver.on_read(ReadOutcome::Bytes(vec![1]));
    receiver.on_read(ReadOutcome::WouldBlock);
    assert!(open.get());
    receiver.on_read(ReadOutcome::Bytes(Vec::new()));
    assert!(!open.get());

    let mut failing = Receiver::new(receiver_peer(), TrackedSocket::open(&open));
    failing.begin();
    assert!(open.get());
    failing.on_read(ReadOutcome::Failed("broken pipe".to_string()));
    assert!(!open.get());
}

#[test]
fn cancel_closes_and_releases_the_socket() {
    let open = Rc::new(Cell::new(false));
    let mut receiver = Receiver::new(receiver_peer(), TrackedSocket::open(&open));
    receiver.begin();
    assert!(open.get());
    receiver.cancel();
    assert!(!open.get());
    assert!(receiver.is_closed());
    assert!(receiver.socket().is_none());
    assert_eq!(receiver.on_read(ReadOutcome::Bytes(vec![1])), None);
    assert_eq!(receiver.next_action(), ReceiverAction::Finish);
}

#[test]
fn recipe_and_stub_share_the_identity() {
    let recipe = TcpReceiverRecipe { addr: receiver_peer(), stream: 17u32 };
    let stub = TcpReceiverStubRecipe { addr: receiver_peer() };
    assert_eq!(recipe.key(), stub.key());
    assert_eq!(recipe.stub(), stub);
    assert_eq!(recipe.key(), receiver_peer());
}

#[test]
fn recipe_hands_its_socket_to_the_receiver() {
    let recipe = TcpReceiverRecipe { addr: receiver_peer(), stream: String::from("socket") };
    let receiver = recipe.into_receiver();
    assert_eq!(receiver.socket(), Some(&String::from("socket")));
    assert_eq!(receiver.key(), receiver_peer());
    assert_eq!(receiver.state(), ReceiverState::Init);
}

#[test]
fn connection_is_ready_then_data_then_disconnected() {
    let bind = AddressKey::v4(127, 0, 0, 1, 8000);
    let peer = receiver_peer();
    let mut router: Router<u32> = Router::new(bind);
    let listener = Listener::bind(bind, Ok(1u32)).unwrap();
    let accepted =
        listener.on_accept(ListenerStatus_E::Accepted { stream: 5u32, addr: peer }).unwrap();
    assert_eq!(router.on_listener_status(accepted), Event::Accepted(peer));
    let mut sources = router.tick();
    assert_eq!(sources.started.len(), 1);
    let mut receiver = sources.started.remove(0).into_receiver();
    assert_eq!(receiver.socket(), Some(&5));

    let mut seen = Vec::new();
    let ready = receiver.begin().unwrap();
    seen.push(router.on_receiver_status(receiver.key(), ready));
    let data = receiver.on_read(ReadOutcome::Bytes(b"abc".to_vec())).unwrap();
    seen.push(router.on_receiver_status(receiver.key(), data));
    let end = receiver.on_read(ReadOutcome::Bytes(Vec::new())).unwrap();
    seen.push(router.on_receiver_status(receiver.key(), end));
    assert_eq!(
        seen,
        vec![Event::Ready(peer), Event::Data(peer, b"abc".to_vec()), Event::Disconnected(peer)]
    );
    assert_eq!(receiver.on_read(ReadOutcome::Bytes(b"more".to_vec())), None);
    assert_eq!(receiver.on_read(ReadOutcome::Bytes(Vec::new())), None);
    assert!(receiver.is_closed());
    assert_eq!(receiver.socket(), None);
    assert!(!router.is_registered(peer));
}
