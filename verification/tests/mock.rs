use protocol_util::generic::Channel;
use protocol_util::mock::{Attached, SharedState};
use std::cell::Cell;
use std::rc::Rc;

use protocol_util::generic::{ChannelReceiver, ChannelSender};
use protocol_util::mock::{simple_connection, simple_duplex_connection};

#[test]
fn simple_connections_can_send_messages() {
    let (sender, receiver) = simple_connection();
    let channel = sender.allocate_send_channel();
    let received = Rc::new(Cell::new(String::new()));
    receiver.listen(channel, {
        let received = received.clone();
        move |message| received.set(message)
    });
    assert_eq!(received.replace(String::new()), String::new());
    sender.send_message(channel, String::from("Hello!"));
    assert_eq!(received.replace(String::new()), String::from("Hello!"));
    sender.send_message(channel, String::from("Bye!"));
    assert_eq!(received.replace(String::new()), String::from("Bye!"));
}

#[test]
fn channels_of_one_connection_are_numbered_in_turn() {
    let (sender, receiver) = simple_connection();
    assert_eq!(sender.allocate_send_channel().0, 0);
    assert_eq!(receiver.allocate_receive_channel().0, 1);
    assert_eq!(sender.allocate_send_channel().0, 2);
}

#[test]
fn messages_without_listener_are_dropped() {
    let (sender, receiver) = simple_connection();
    let listened = sender.allocate_send_channel();
    let other = sender.allocate_send_channel();
    let received = Rc::new(Cell::new(0u32));
    receiver.listen(listened, {
        let received = received.clone();
        move |_message| received.set(received.get() + 1)
    });
    sender.send_message(other, String::from("nobody"));
    assert_eq!(received.get(), 0);
    sender.send_message(listened, String::from("somebody"));
    assert_eq!(received.get(), 1);
}

#[test]
fn duplex_connections_cross_over() {
    let (end_1, end_2) = simple_duplex_connection();
    let received = Rc::new(Cell::new(String::new()));
    let channel = end_1.allocate_send_channel();
    end_2.listen(channel, {
        let received = received.clone();
        move |message| received.set(message)
    });
    end_1.send_message(channel, String::from("across"));
    assert_eq!(received.replace(String::new()), String::from("across"));
    // A message sent by the second end goes to the first end's listeners.
    end_2.send_message(channel, String::from("back"));
    assert_eq!(received.replace(String::new()), String::new());
}

#[test]
fn the_shared_table_calls_the_listener_of_the_channel() {
    let mut state = SharedState::new();
    let channel = state.allocate_channel();
    let other = state.allocate_channel();
    let received = Rc::new(Cell::new(String::new()));
    state.listen(channel, Attached(Box::new({
        let received = received.clone();
        move |message: String| received.set(message)
    })));
    assert!(state.send_message(channel, String::from("Hi")));
    assert_eq!(received.replace(String::new()), "Hi");
    assert!(!state.send_message(other, String::from("Nobody")));
    assert_eq!(received.replace(String::new()), "");
    assert_eq!(channel, Channel(0));
}

#[test]
fn a_listener_may_use_the_connection_while_it_runs() {
    let (sender, receiver) = simple_connection();
    let sender = Rc::new(sender);
    let channel = sender.allocate_send_channel();
    let allocated = Rc::new(Cell::new(None));
    receiver.listen(channel, {
        let sender = sender.clone();
        let allocated = allocated.clone();
        move |_message: String| allocated.set(Some(sender.allocate_send_channel()))
    });
    sender.send_message(channel, String::from("go"));
    // The table was in place while the listener ran: the next number was 1.
    assert_eq!(allocated.get(), Some(Channel(1)));
    assert_eq!(sender.allocate_send_channel(), Channel(2));
}
