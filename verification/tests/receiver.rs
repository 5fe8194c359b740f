use protocol_util::receiver::{TaskInput, TaskStep};
use std::cell::RefCell;
use std::rc::Rc;

use protocol_util::receiver::{Listener, ListenerUpdate};

/// A listener: a function of the messages it is handed.
type Echo = Box<dyn FnMut(String)>;

/// Echoes every message into `log`, and asks to stop listening on its
/// channel when it sees "Bye".
fn echo(
    channel: u64,
    log: &Rc<RefCell<Vec<String>>>,
    updates: &Rc<RefCell<Vec<ListenerUpdate<Echo>>>>,
) -> Echo {
    let log = log.clone();
    let updates = updates.clone();
    Box::new(move |message: String| {
        if message == "Bye" {
            updates.borrow_mut().push(ListenerUpdate::StopListening(channel));
        }
        log.borrow_mut().push(message);
    })
}

/// Feeds `messages` as a listener task does: pending updates are applied
/// before each message, and each message's work finishes before the next.
fn run(
    listener: &mut Listener<Echo, ()>,
    updates: &Rc<RefCell<Vec<ListenerUpdate<Echo>>>>,
    messages: Vec<(u64, &str)>,
) {
    for (channel, message) in messages {
        let pending: Vec<ListenerUpdate<Echo>> = updates.borrow_mut().drain(..).collect();
        assert!(listener.can_apply(&pending));
        listener.receive_after_updates(pending, channel, message.to_string());
        if listener.running_mut().is_some() {
            listener.finish_running();
        }
    }
}

#[test]
fn test_echo_batch() {
    let log = Rc::new(RefCell::new(Vec::new()));
    let updates = Rc::new(RefCell::new(Vec::new()));
    let mut listener = Listener::new();
    updates.borrow_mut().push(ListenerUpdate::Listen(0, echo(0, &log, &updates)));
    run(&mut listener, &updates, vec![(0, "Hey"), (0, "Hey_2"), (0, "Bye"), (0, "Hey_3")]);
    assert_eq!(*log.borrow(), vec!["Hey", "Hey_2", "Bye"]);
}

#[test]
fn messages_before_listening_and_on_other_channels_are_ignored() {
    let log = Rc::new(RefCell::new(Vec::new()));
    let updates = Rc::new(RefCell::new(Vec::new()));
    let mut listener = Listener::new();
    run(&mut listener, &updates, vec![(0, "Hello")]);
    updates.borrow_mut().push(ListenerUpdate::Listen(0, echo(0, &log, &updates)));
    run(&mut listener, &updates, vec![(0, "Hey"), (1, "Wrong channel"), (0, "Hey_2")]);
    assert_eq!(*log.borrow(), vec!["Hey", "Hey_2"]);
}

#[test]
fn work_runs_until_finished() {
    let log = Rc::new(RefCell::new(Vec::new()));
    let updates = Rc::new(RefCell::new(Vec::new()));
    let mut listener = Listener::new();
    listener.listen(3, echo(3, &log, &updates));
    assert!(!listener.busy());
    listener.receive_message(3, "Hey".to_string());
    assert!(listener.busy());
    assert!(listener.running_mut().is_some());
    listener.finish_running();
    assert!(!listener.busy());
    listener.receive_message(4, "nobody".to_string());
    assert!(!listener.busy());
}

#[test]
fn updates_that_cannot_apply_are_detected() {
    let log = Rc::new(RefCell::new(Vec::new()));
    let updates = Rc::new(RefCell::new(Vec::new()));
    let listener: Listener<Echo, ()> = Listener::new();
    assert!(!listener.can_apply(&vec![ListenerUpdate::StopListening(0)]));
    assert!(!listener.can_apply(&vec![
        ListenerUpdate::Listen(0, echo(0, &log, &updates)),
        ListenerUpdate::Listen(0, echo(0, &log, &updates)),
    ]));
    assert!(listener.can_apply(&vec![
        ListenerUpdate::Listen(0, echo(0, &log, &updates)),
        ListenerUpdate::StopListening(0),
        ListenerUpdate::Listen(0, echo(0, &log, &updates)),
    ]));
}

#[test]
fn listen_then_stop_listening_leaves_no_listener() {
    let log = Rc::new(RefCell::new(Vec::new()));
    let updates = Rc::new(RefCell::new(Vec::new()));
    let mut listener = Listener::new();
    listener.listen(0, echo(0, &log, &updates));
    listener.stop_listening(0);
    listener.receive_message(0, "Hey".to_string());
    assert!(!listener.busy());
    assert!(log.borrow().is_empty());
}

#[test]
fn test_echo() {
    let log = Rc::new(RefCell::new(Vec::new()));
    let updates = Rc::new(RefCell::new(Vec::new()));
    let mut listener = Listener::new();
    // A message before any listener is attached is ignored.
    run(&mut listener, &updates, vec![(0, "Hello")]);
    assert!(log.borrow().is_empty());
    updates.borrow_mut().push(ListenerUpdate::Listen(0, echo(0, &log, &updates)));
    run(&mut listener, &updates, vec![(0, "Hey")]);
    assert_eq!(*log.borrow(), vec!["Hey"]);
    run(&mut listener, &updates, vec![(0, "Hey_2")]);
    assert_eq!(*log.borrow(), vec!["Hey", "Hey_2"]);
    // Channels are told apart.
    run(&mut listener, &updates, vec![(1, "Wrong channel")]);
    assert_eq!(*log.borrow(), vec!["Hey", "Hey_2"]);
    // "Bye" is echoed, and detaches the listener.
    run(&mut listener, &updates, vec![(0, "Bye")]);
    assert_eq!(*log.borrow(), vec!["Hey", "Hey_2", "Bye"]);
    run(&mut listener, &updates, vec![(0, "Hey_3")]);
    assert_eq!(*log.borrow(), vec!["Hey", "Hey_2", "Bye"]);
}

#[test]
fn test_strict_order() {
    let log = Rc::new(RefCell::new(Vec::new()));
    let updates = Rc::new(RefCell::new(Vec::new()));
    let mut listener = Listener::new();
    listener.listen(0, echo(0, &log, &updates));
    // The first message is handled at once.
    listener.receive_message(0, "Hey".to_string());
    assert_eq!(*log.borrow(), vec!["Hey"]);
    // While its work runs, the next message cannot be handed out.
    assert!(listener.busy());
    // Once the work is done, the next message goes through.
    listener.finish_running();
    listener.receive_message(0, "Hey_2".to_string());
    assert_eq!(*log.borrow(), vec!["Hey", "Hey_2"]);
    assert!(listener.busy());
}

#[test]
fn the_task_turn_receives_waits_or_ends() {
    let log = Rc::new(RefCell::new(Vec::new()));
    let updates = Rc::new(RefCell::new(Vec::new()));
    let mut listener = Listener::new();
    let step = listener.take_input(
        vec![ListenerUpdate::Listen(2, echo(2, &log, &updates))],
        TaskInput::Message(2, "Hey".to_string()),
    );
    assert!(matches!(step, TaskStep::Continue));
    assert_eq!(*log.borrow(), vec!["Hey"]);
    listener.finish_running();
    assert!(matches!(listener.take_input(Vec::new(), TaskInput::Pending), TaskStep::Wait));
    assert!(matches!(listener.take_input(Vec::new(), TaskInput::Ended), TaskStep::Done));
    assert!(!listener.busy());
}
