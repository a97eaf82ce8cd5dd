//! The values that flow between the listener, the receivers, the router and
//! the UI loop.

use vstd::prelude::*;
use crate::address::AddressKey;

verus! {

/// What a listener produces for one accept attempt.
#[allow(non_camel_case_types)]
#[derive(Debug)]
pub enum ListenerStatus_E<S> {
    /// An inbound connection was accepted from `addr`; `stream` is its socket.
    Accepted { stream: S, addr: AddressKey },
    /// An accept attempt failed, or the bind did; the text is the OS error.
    Error(String),
}

/// What a receiver produces while it serves one connection.
#[allow(non_camel_case_types)]
#[derive(Debug, Clone, PartialEq, Eq)]
pub enum ReceiverStatus_E {
    /// The connection is established and reading is about to start.
    Ready(AddressKey),
    /// The bytes of one non-empty read.
    Message(Vec<u8>),
    /// The peer closed the connection.
    Disconnected,
    /// A read failed; the text is the OS error.
    Error(String),
}

/// The outcome of one read attempt on a connected socket.
#[derive(Debug, Clone, PartialEq, Eq)]
pub enum ReadOutcome {
    /// The bytes that were available; none at all means the peer closed.
    Bytes(Vec<u8>),
    /// Nothing was available yet; the socket has to become readable first.
    WouldBlock,
    /// The read failed with a non-recoverable error.
    Failed(String),
}

/// An event for the UI loop.
#[derive(Debug, Clone, PartialEq, Eq)]
pub enum Event {
    /// A connection from this peer was accepted.
    Accepted(AddressKey),
    /// The listener reported an error.
    AcceptError(String),
    /// The receiver of this peer is established.
    Ready(AddressKey),
    /// Bytes arrived from this peer.
    Data(AddressKey, Vec<u8>),
    /// This peer closed its connection.
    Disconnected(AddressKey),
    /// Reading from this peer failed.
    ReceiveError(AddressKey, String),
}

/// A listener status as a mathematical value.
pub ghost enum ListenerStatusView<S> {
    Accepted { stream: S, addr: AddressKey },
    Error(Seq<char>),
}

/// A receiver status as a mathematical value.
pub ghost enum ReceiverStatusView {
    Ready(AddressKey),
    Message(Seq<u8>),
    Disconnected,
    Error(Seq<char>),
}

/// A read outcome as a mathematical value.
pub ghost enum ReadOutcomeView {
    Bytes(Seq<u8>),
    WouldBlock,
    Failed(Seq<char>),
}

/// An event as a mathematical value.
pub ghost enum EventView {
    Accepted(AddressKey),
    AcceptError(Seq<char>),
    Ready(AddressKey),
    Data(AddressKey, Seq<u8>),
    Disconnected(AddressKey),
    ReceiveError(AddressKey, Seq<char>),
}

impl<S> View for ListenerStatus_E<S> {
    type V = ListenerStatusView<S>;

    open spec fn view(&self) -> ListenerStatusView<S> {
        match *self {
            ListenerStatus_E::Accepted { stream, addr } => ListenerStatusView::Accepted {
                stream,
                addr,
            },
            ListenerStatus_E::Error(message) => ListenerStatusView::Error(message@),
        }
    }
}

impl View for ReceiverStatus_E {
    type V = ReceiverStatusView;

    open spec fn view(&self) -> ReceiverStatusView {
        match *self {
            ReceiverStatus_E::Ready(key) => ReceiverStatusView::Ready(key),
            ReceiverStatus_E::Message(bytes) => ReceiverStatusView::Message(bytes@),
            ReceiverStatus_E::Disconnected => ReceiverStatusView::Disconnected,
            ReceiverStatus_E::Error(message) => ReceiverStatusView::Error(message@),
        }
    }
}

impl View for ReadOutcome {
    type V = ReadOutcomeView;

    open spec fn view(&self) -> ReadOutcomeView {
        match *self {
            ReadOutcome::Bytes(bytes) => ReadOutcomeView::Bytes(bytes@),
            ReadOutcome::WouldBlock => ReadOutcomeView::WouldBlock,
            ReadOutcome::Failed(message) => ReadOutcomeView::Failed(message@),
        }
    }
}

impl View for Event {
    type V = EventView;

    open spec fn view(&self) -> EventView {
        match *self {
            Event::Accepted(key) => EventView::Accepted(key),
            Event::AcceptError(message) => EventView::AcceptError(message@),
            Event::Ready(key) => EventView::Ready(key),
            Event::Data(key, bytes) => EventView::Data(key, bytes@),
            Event::Disconnected(key) => EventView::Disconnected(key),
            Event::ReceiveError(key, message) => EventView::ReceiveError(key, message@),
        }
    }
}

/// The event that the UI loop sees for a status of the receiver of `key`.
pub open spec fn receiver_event(key: AddressKey, status: ReceiverStatusView) -> EventView {
    match status {
        ReceiverStatusView::Ready(ready) => EventView::Ready(ready),
        ReceiverStatusView::Message(bytes) => EventView::Data(key, bytes),
        ReceiverStatusView::Disconnected => EventView::Disconnected(key),
        ReceiverStatusView::Error(message) => EventView::ReceiveError(key, message),
    }
}

/// The event that the UI loop sees for a status of the listener.
pub open spec fn listener_event<S>(status: ListenerStatusView<S>) -> EventView {
    match status {
        ListenerStatusView::Accepted { stream, addr } => EventView::Accepted(addr),
        ListenerStatusView::Error(message) => EventView::AcceptError(message),
    }
}

/// Whether a receiver status is the last one of its receiver.
pub open spec fn is_terminal(status: ReceiverStatusView) -> bool {
    status is Disconnected || status is Error
}

} // verus!
