use std::cell::Cell;
use std::rc::Rc;
use tcp_events::address::AddressKey;
use tcp_events::events::{Event, ListenerStatus_E};
use tcp_events::listener::{BindError, Listener, ListenerState, TcpListenerRecipe};
use tcp_events::router::Router;

fn listen_address() -> AddressKey {
    AddressKey::v4(127, 0, 0, 1, 8000)
}

fn accepted(socket: u32, port: u16) -> ListenerStatus_E<u32> {
    ListenerStatus_E::Accepted { stream: socket, addr: AddressKey::v4(127, 0, 0, 1, port) }
}

#[derive(Debug)]
struct BoundPort {
    taken: Rc<Cell<bool>>,
}

impl BoundPort {
    fn take(flag: &Rc<Cell<bool>>) -> BoundPort {
        flag.set(true);
        BoundPort { taken: Rc::clone(flag) }
    }
}

impl Drop for BoundPort {
    fn drop(&mut self) {
        self.taken.set(false);
    }
}

#[test]
fn successful_bind_starts_listening() {
    let listener = Listener::bind(listen_address(), Ok(11u32)).unwrap();
    assert_eq!(listener.state(), ListenerState::Listening);
    assert_eq!(listener.address(), listen_address());
    assert_eq!(listener.socket(), Some(&11));
}

#[test]
fn recipe_binds_at_its_address() {
    let recipe = TcpListenerRecipe { addr: listen_address() };
    assert_eq!(recipe.key(), listen_address());
    let listener = recipe.bind(Ok(11u32)).unwrap();
    assert_eq!(listener.address(), listen_address());
    assert_eq!(listener.state(), ListenerState::Listening);
    assert_eq!(listener.socket(), Some(&11));
    let failure = recipe.bind::<u32>(Err("permission denied".to_string())).unwrap_err();
    assert_eq!(
        failure,
        BindError { address: listen_address(), message: "permission denied".to_string() }
    );
}

#[test]
fn bind_failure_is_one_fatal_event_and_no_accepts_follow() {
    let outcome: Result<u32, String> = Err("address already in use".to_string());
    let failure = Listener::bind(listen_address(), outcome).unwrap_err();
    assert_eq!(
        failure,
        BindError { address: listen_address(), message: "address already in use".to_string() }
    );
    let mut router: Router<u32> = Router::new(listen_address());
    let events = vec![router.on_listener_status(failure.into_status())];
    assert_eq!(events, vec![Event::AcceptError("address already in use".to_string())]);
    assert_eq!(router.staged_len(), 0);
    let sources = router.tick();
    assert!(sources.started.is_empty());
    assert!(sources.ongoing.is_empty());
    assert!(sources.discarded.is_empty());
}

#[test]
fn listening_listener_emits_every_accept_in_order() {
    let listener = Listener::bind(listen_address(), Ok(11u32)).unwrap();
    let mut emitted: usize = 0;
    for n in 0..1000u32 {
        let port = 10000 + n as u16;
        match listener.on_accept(accepted(n, port)) {
            Some(ListenerStatus_E::Accepted { stream, addr }) => {
                assert_eq!(stream, n);
                assert_eq!(addr, AddressKey::v4(127, 0, 0, 1, port));
                emitted += 1;
            }
            other => panic!("expected an accepted connection, got {:?}", other),
        }
        assert_eq!(emitted, n as usize + 1);
        assert_eq!(listener.state(), ListenerState::Listening);
    }
    assert_eq!(emitted, 1000);
}

#[test]
fn accept_error_is_reported_and_listening_goes_on() {
    let listener = Listener::bind(listen_address(), Ok(11u32)).unwrap();
    match listener.on_accept(ListenerStatus_E::<u32>::Error("too many open files".to_string())) {
        Some(ListenerStatus_E::Error(message)) => assert_eq!(message, "too many open files"),
        other => panic!("expected an error status, got {:?}", other),
    }
    assert_eq!(listener.state(), ListenerState::Listening);
    assert_eq!(listener.socket(), Some(&11));
    assert!(matches!(
        listener.on_accept(accepted(4, 50004)),
        Some(ListenerStatus_E::Accepted { stream: 4, .. })
    ));
}

#[test]
fn cancelled_listener_stops_and_releases_the_port() {
    let taken = Rc::new(Cell::new(false));
    let mut listener = Listener::bind(listen_address(), Ok(BoundPort::take(&taken))).unwrap();
    assert!(taken.get());
    assert!(listener.socket().is_some());
    listener.cancel();
    assert!(!taken.get());
    assert_eq!(listener.state(), ListenerState::Stopped);
    assert!(listener.socket().is_none());
    assert_eq!(listener.address(), listen_address());
    assert!(listener.on_accept(accepted(1, 50000)).is_none());
    assert!(listener.on_accept(ListenerStatus_E::<u32>::Error("late".to_string())).is_none());
}
