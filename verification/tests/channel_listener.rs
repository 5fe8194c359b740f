use protocol_util::channel_listener::AsyncFunctionListener;
use std::sync::{Arc, Mutex};

use protocol_util::channel_listener::{
    ChannelCommand, ChanneledListener, ListenerPoll, ListenerWork, StreamListenerResult,
};

/// The work a test listener starts: done at the first poll with a given
/// result, or running until a flag is set.
enum TestWork {
    Finish(fn() -> StreamListenerResult),
    WaitFor(Arc<Mutex<bool>>),
}

impl ListenerWork<()> for TestWork {
    fn poll_work(&mut self, _cx: &mut ()) -> ListenerPoll {
        match self {
            TestWork::Finish(result) => ListenerPoll::Ready(result()),
            TestWork::WaitFor(done) => {
                if *done.lock().unwrap() {
                    ListenerPoll::Ready(StreamListenerResult::Continue)
                } else {
                    ListenerPoll::Pending
                }
            },
        }
    }
}

type Function = Box<dyn FnMut(String) -> TestWork>;

fn continue_() -> StreamListenerResult {
    StreamListenerResult::Continue
}

fn stop() -> StreamListenerResult {
    StreamListenerResult::Stop
}

/// Sets `value` to each message it receives (or to `replacement`); its work
/// is done at the first poll, ending with `result`.
fn setter(
    value: &Arc<Mutex<String>>,
    replacement: Option<&str>,
    result: fn() -> StreamListenerResult,
) -> Function {
    let value = value.clone();
    let replacement = replacement.map(String::from);
    Box::new(move |message| {
        *value.lock().unwrap() = match &replacement {
            Some(text) => text.clone(),
            None => message,
        };
        TestWork::Finish(result)
    })
}

/// Records each message in `seen`; its work runs until `done` is set.
fn slow(seen: &Arc<Mutex<Vec<String>>>, done: &Arc<Mutex<bool>>) -> Function {
    let seen = seen.clone();
    let done = done.clone();
    Box::new(move |message| {
        seen.lock().unwrap().push(message);
        *done.lock().unwrap() = false;
        TestWork::WaitFor(done.clone())
    })
}

#[test]
fn test_callback() {
    let mut receiver: ChanneledListener<Function, TestWork> = ChanneledListener::new();
    let value = Arc::new(Mutex::new(String::new()));
    receiver.handle_command(ChannelCommand::Receive(0, "Hello".into()), &mut ());
    receiver.run_pending(&mut ());
    assert_eq!(*value.lock().unwrap(), "");
    receiver.handle_command(ChannelCommand::Listen(0, setter(&value, None, continue_)), &mut ());
    receiver.run_pending(&mut ());
    assert_eq!(*value.lock().unwrap(), "Hello");

    receiver.handle_command(ChannelCommand::Receive(0, "Bye".into()), &mut ());
    receiver.run_pending(&mut ());
    assert_eq!(*value.lock().unwrap(), "Bye");

    receiver.handle_command(ChannelCommand::Receive(1, "Ohno".into()), &mut ());
    receiver.run_pending(&mut ());
    assert_eq!(*value.lock().unwrap(), "Bye");

    // Never called: the listener before it never stops.
    receiver.handle_command(
        ChannelCommand::Listen(0, setter(&value, Some("Oh no"), continue_)),
        &mut (),
    );
    receiver.handle_command(ChannelCommand::Receive(0, "Hey".into()), &mut ());
    receiver.run_pending(&mut ());
    assert_eq!(*value.lock().unwrap(), "Hey");
    assert!(receiver.is_finished(true));
    assert!(!receiver.is_finished(false));
}

#[test]
fn a_stopping_listener_hands_over_to_the_next() {
    let mut receiver: ChanneledListener<Function, TestWork> = ChanneledListener::new();
    let first = Arc::new(Mutex::new(String::new()));
    let second = Arc::new(Mutex::new(String::new()));
    receiver.handle_command(ChannelCommand::Listen(5, setter(&first, None, stop)), &mut ());
    receiver.handle_command(ChannelCommand::Listen(5, setter(&second, None, continue_)), &mut ());
    receiver.handle_command(ChannelCommand::Receive(5, "one".into()), &mut ());
    receiver.handle_command(ChannelCommand::Receive(5, "two".into()), &mut ());
    receiver.handle_command(ChannelCommand::Receive(5, "three".into()), &mut ());
    assert_eq!(*first.lock().unwrap(), "one");
    assert_eq!(*second.lock().unwrap(), "three");
}

#[test]
fn messages_wait_while_work_runs() {
    let mut receiver: ChanneledListener<Function, TestWork> = ChanneledListener::new();
    let seen = Arc::new(Mutex::new(Vec::new()));
    let done = Arc::new(Mutex::new(true));
    receiver.handle_command(ChannelCommand::Listen(0, slow(&seen, &done)), &mut ());
    receiver.handle_command(ChannelCommand::Receive(0, "a".into()), &mut ());
    receiver.handle_command(ChannelCommand::Receive(0, "b".into()), &mut ());
    assert_eq!(*seen.lock().unwrap(), vec!["a"]);
    assert!(!receiver.is_finished(true));
    *done.lock().unwrap() = true;
    receiver.run_pending(&mut ());
    assert_eq!(*seen.lock().unwrap(), vec!["a", "b"]);
    *done.lock().unwrap() = true;
    receiver.run_pending(&mut ());
    assert!(receiver.is_finished(true));
}

#[test]
fn channel_listener_test_future() {
    // With its input closed at once and nothing running, the listener is done.
    let receiver: ChanneledListener<Function, TestWork> = ChanneledListener::new();
    assert!(receiver.is_finished(true));
}

#[test]
fn a_function_listener_passes_each_message_to_its_function() {
    let value = Arc::new(Mutex::new(String::new()));
    let mut listener: AsyncFunctionListener<Function, TestWork> =
        AsyncFunctionListener::new(setter(&value, None, stop));
    // With no work, it is ready to go on.
    assert!(matches!(
        listener.poll_ready(&mut ()),
        ListenerPoll::Ready(StreamListenerResult::Continue)
    ));
    listener.receive("first".into());
    assert_eq!(*value.lock().unwrap(), "first");
    // Its work ends as the function said, and is then dropped.
    assert!(matches!(listener.poll_ready(&mut ()), ListenerPoll::Ready(StreamListenerResult::Stop)));
    assert!(matches!(
        listener.poll_ready(&mut ()),
        ListenerPoll::Ready(StreamListenerResult::Continue)
    ));
}

fn assert_send<T: Send>() {}

#[test]
fn channel_listener_items_are_send() {
    assert_send::<ChanneledListener<Box<dyn FnMut(String) -> TestWork + Send>, TestWork>>();
}
