//! A series of channels on each of which one listener can be attached. A
//! listener is handed every message received on its channel; messages on a
//! channel without a listener are ignored. The work a listener starts for a
//! message is run to completion before the next message is handed out, and
//! changes to the attached listeners are applied immediately before each
//! message is received.
use vstd::prelude::*;
use std::collections::HashMap;
use crate::callback::{call_with, handed_to};

verus! {

broadcast use vstd::std_specs::hash::group_hash_axioms;

/// A change to the attached listeners.
pub enum ListenerUpdate<C> {
    Listen(u64, C),
    StopListening(u64),
}

/// The listeners after one update.
pub open spec fn apply_update<C>(m: Map<u64, C>, u: ListenerUpdate<C>) -> Map<u64, C> {
    match u {
        ListenerUpdate::Listen(channel, listener) => m.insert(channel, listener),
        ListenerUpdate::StopListening(channel) => m.remove(channel),
    }
}

/// An update can be applied when it attaches a listener to a free channel or
/// detaches one from a channel that has one.
pub open spec fn update_ok<C>(m: Map<u64, C>, u: ListenerUpdate<C>) -> bool {
    match u {
        ListenerUpdate::Listen(channel, _) => !m.contains_key(channel),
        ListenerUpdate::StopListening(channel) => m.contains_key(channel),
    }
}

/// The listeners after a sequence of updates, applied in order.
pub open spec fn apply_updates<C>(m: Map<u64, C>, us: Seq<ListenerUpdate<C>>) -> Map<u64, C>
    decreases us.len(),
{
    if us.len() == 0 {
        m
    } else {
        apply_update(apply_updates(m, us.drop_last()), us.last())
    }
}

/// Each update of the sequence can be applied in turn.
pub open spec fn updates_ok<C>(m: Map<u64, C>, us: Seq<ListenerUpdate<C>>) -> bool
    decreases us.len(),
{
    if us.len() == 0 {
        true
    } else {
        updates_ok(m, us.drop_last()) && update_ok(apply_updates(m, us.drop_last()), us.last())
    }
}

/// What the task around a listener found when it looked for the next
/// message.
pub enum TaskInput {
    /// The input has ended.
    Ended,
    /// No message is available yet.
    Pending,
    /// The next message, with the channel it was received on.
    Message(u64, String),
}

/// What the task does after a turn: it is done, it waits to be woken, or it
/// goes on once the work for the message it received is done.
pub enum TaskStep {
    Done,
    Wait,
    Continue,
}

/// The listeners attached to channels. A listener is a function of the
/// message it is handed; what it returns is the work `W` it starts, which
/// must run to completion before the next message is handed out.
pub struct Listener<C, W> {
    running: Option<W>,
    callbacks: HashMap<u64, C>,
    /// The messages handed to listeners so far, with their channels.
    delivered: Ghost<Seq<(u64, String)>>,
}

impl<C: FnMut(String) -> W, W> Listener<C, W> {
    /// The listener attached to each channel.
    pub closed spec fn listeners(&self) -> Map<u64, C> {
        self.callbacks@
    }

    /// Whether the work started for the last message is still running.
    pub closed spec fn is_busy(&self) -> bool {
        self.running is Some
    }

    /// The work started for the last message, while it runs.
    pub closed spec fn work(&self) -> Option<W> {
        self.running
    }

    /// The messages handed to listeners so far, oldest first, each with the
    /// channel it was received on.
    pub closed spec fn delivered(&self) -> Seq<(u64, String)> {
        self.delivered@
    }

    pub fn new() -> (r: Self)
        ensures
            r.listeners() == Map::<u64, C>::empty(),
            !r.is_busy(),
            r.delivered() == Seq::<(u64, String)>::empty(),
    {
        Listener { running: None, callbacks: HashMap::new(), delivered: Ghost(Seq::empty()) }
    }

    /// Whether the work started for the last message is still running.
    pub fn busy(&self) -> (r: bool)
        ensures
            r == self.is_busy(),
    {
        self.running.is_some()
    }

    /// Attaches `listener` to `channel`, which must not have one yet.
    pub fn listen(&mut self, channel: u64, listener: C)
        requires
            !old(self).listeners().contains_key(channel),
        ensures
            final(self).listeners() == old(self).listeners().insert(channel, listener),
            final(self).is_busy() == old(self).is_busy(),
            final(self).delivered() == old(self).delivered(),
    {
        let _ = self.callbacks.insert(channel, listener);
    }

    /// Detaches the listener of `channel`, which must have one.
    pub fn stop_listening(&mut self, channel: u64)
        requires
            old(self).listeners().contains_key(channel),
        ensures
            final(self).listeners() == old(self).listeners().remove(channel),
            final(self).is_busy() == old(self).is_busy(),
            final(self).delivered() == old(self).delivered(),
    {
        let _ = self.callbacks.remove(&channel);
    }

    /// Applies one update to the attached listeners.
    pub fn apply_update(&mut self, update: ListenerUpdate<C>)
        requires
            update_ok(old(self).listeners(), update),
        ensures
            final(self).listeners() == apply_update(old(self).listeners(), update),
            final(self).is_busy() == old(self).is_busy(),
            final(self).delivered() == old(self).delivered(),
    {
        match update {
            ListenerUpdate::Listen(channel, listener) => self.listen(channel, listener),
            ListenerUpdate::StopListening(channel) => self.stop_listening(channel),
        }
    }

    /// Whether `updates` can be applied in order to the attached listeners.
    pub fn can_apply(&self, updates: &Vec<ListenerUpdate<C>>) -> (r: bool)
        ensures
            r == updates_ok(self.listeners(), updates@),
    {
        // The channels whose having a listener has changed so far.
        let mut changed: HashMap<u64, ()> = HashMap::new();
        let ghost start = self.listeners();
        let mut i: usize = 0;
        while i < updates.len()
            invariant
                i <= updates.len(),
                start == self.listeners(),
                updates_ok(start, updates@.take(i as int)),
                forall|c: u64|
                    #[trigger] changed@.contains_key(c) == (apply_updates(
                        start,
                        updates@.take(i as int),
                    ).contains_key(c) != start.contains_key(c)),
            decreases updates.len() - i,
        {
            let ghost before = apply_updates(start, updates@.take(i as int));
            assert(updates@.take(i + 1).drop_last() =~= updates@.take(i as int));
            assert(updates@.take(i + 1).last() == updates@[i as int]);
            let channel = match &updates[i] {
                ListenerUpdate::Listen(channel, _) => *channel,
                ListenerUpdate::StopListening(channel) => *channel,
            };
            let attached_now = self.callbacks.contains_key(&channel) != changed.contains_key(
                &channel,
            );
            assert(attached_now == before.contains_key(channel));
            let ok = match &updates[i] {
                ListenerUpdate::Listen(_, _) => !attached_now,
                ListenerUpdate::StopListening(_) => attached_now,
            };
            if !ok {
                proof {
                    if updates_ok(start, updates@) {
                        assert(updates@.take(updates@.len() as int) =~= updates@);
                        lemma_updates_ok_prefix(start, updates@, i + 1, updates@.len() as int);
                    }
                }
                return false;
            }
            if changed.contains_key(&channel) {
                let _ = changed.remove(&channel);
            } else {
                let _ = changed.insert(channel, ());
            }
            i = i + 1;
        }
        assert(updates@.take(updates@.len() as int) =~= updates@);
        true
    }

    /// Hands `message`, received on `channel`, to the listener attached to
    /// it: calls the listener on the message and keeps the work it returns.
    /// Ignored when `channel` has no listener. May only be called while no
    /// work is running.
    pub fn receive_message(&mut self, channel: u64, message: String)
        requires
            !old(self).is_busy(),
            old(self).listeners().contains_key(channel) ==> call_requires(
                old(self).listeners()[channel],
                (message,),
            ),
        ensures
            final(self).is_busy() == old(self).listeners().contains_key(channel),
            old(self).listeners().contains_key(channel) ==> handed_to(
                old(self).listeners()[channel],
                message,
                final(self).work().unwrap(),
            ),
            final(self).listeners().dom() == old(self).listeners().dom(),
            forall|c: u64|
                c != channel && #[trigger] old(self).listeners().contains_key(c)
                    ==> final(self).listeners()[c] == old(self).listeners()[c],
            !old(self).listeners().contains_key(channel)
                ==> final(self).listeners() == old(self).listeners(),
            final(self).delivered() == if old(self).listeners().contains_key(channel) {
                old(self).delivered().push((channel, message))
            } else {
                old(self).delivered()
            },
    {
        match self.callbacks.remove(&channel) {
            None => {},
            Some(mut receiver) => {
                proof {
                    self.delivered = Ghost(self.delivered@.push((channel, message)));
                }
                let work = call_with(&mut receiver, message);
                let _ = self.callbacks.insert(channel, receiver);
                self.running = Some(work);
                assert(self.callbacks@.dom() =~= old(self).callbacks@.dom());
            },
        }
    }

    /// Applies `updates` in order, then receives `message` on `channel`: the
    /// message goes to the listener attached to `channel` once the updates
    /// are made, if there is one.
    pub fn receive_after_updates(
        &mut self,
        updates: Vec<ListenerUpdate<C>>,
        channel: u64,
        message: String,
    )
        requires
            !old(self).is_busy(),
            updates_ok(old(self).listeners(), updates@),
            apply_updates(old(self).listeners(), updates@).contains_key(channel) ==> call_requires(
                apply_updates(old(self).listeners(), updates@)[channel],
                (message,),
            ),
        ensures
            final(self).is_busy() == apply_updates(old(self).listeners(), updates@).contains_key(
                channel,
            ),
            forall|c: u64|
                c != channel && #[trigger] apply_updates(
                    old(self).listeners(),
                    updates@,
                ).contains_key(c) ==> final(self).listeners()[c] == apply_updates(
                    old(self).listeners(),
                    updates@,
                )[c],
            apply_updates(old(self).listeners(), updates@).contains_key(channel) ==> handed_to(
                apply_updates(old(self).listeners(), updates@)[channel],
                message,
                final(self).work().unwrap(),
            ),
            final(self).listeners().dom() == apply_updates(
                old(self).listeners(),
                updates@,
            ).dom(),
            final(self).delivered() == if apply_updates(old(self).listeners(), updates@).contains_key(
                channel,
            ) {
                old(self).delivered().push((channel, message))
            } else {
                old(self).delivered()
            },
    {
        self.apply_updates(updates);
        self.receive_message(channel, message);
    }

    /// One turn of the task around the listener, taken once the work
    /// started for the last message is done: the changes to the listeners
    /// that have arrived (`updates`) are applied, then the next message, if
    /// there is one, is received. The task is done once its input has ended,
    /// waits while no message is available, and goes on after a message.
    pub fn take_input(&mut self, updates: Vec<ListenerUpdate<C>>, input: TaskInput) -> (r:
        TaskStep)
        requires
            !old(self).is_busy(),
            updates_ok(old(self).listeners(), updates@),
            input matches TaskInput::Message(channel, message) ==> (apply_updates(
                old(self).listeners(),
                updates@,
            ).contains_key(channel) ==> call_requires(
                apply_updates(old(self).listeners(), updates@)[channel],
                (message,),
            )),
        ensures
            final(self).listeners().dom() == apply_updates(old(self).listeners(), updates@).dom(),
            match input {
                TaskInput::Message(channel, message) => {
                    let listeners = apply_updates(old(self).listeners(), updates@);
                    &&& r == TaskStep::Continue
                    &&& final(self).is_busy() == listeners.contains_key(channel)
                    &&& forall|c: u64|
                        c != channel && #[trigger] listeners.contains_key(c)
                            ==> final(self).listeners()[c] == listeners[c]
                    &&& listeners.contains_key(channel) ==> handed_to(
                        listeners[channel],
                        message,
                        final(self).work().unwrap(),
                    )
                    &&& final(self).delivered() == if listeners.contains_key(channel) {
                        old(self).delivered().push((channel, message))
                    } else {
                        old(self).delivered()
                    }
                },
                TaskInput::Ended => {
                    &&& r == TaskStep::Done
                    &&& final(self).listeners() == apply_updates(old(self).listeners(), updates@)
                    &&& !final(self).is_busy()
                    &&& final(self).delivered() == old(self).delivered()
                },
                TaskInput::Pending => {
                    &&& r == TaskStep::Wait
                    &&& final(self).listeners() == apply_updates(old(self).listeners(), updates@)
                    &&& !final(self).is_busy()
                    &&& final(self).delivered() == old(self).delivered()
                },
            },
    {
        match input {
            TaskInput::Message(channel, message) => {
                self.receive_after_updates(updates, channel, message);
                TaskStep::Continue
            },
            TaskInput::Ended => {
                self.apply_updates(updates);
                TaskStep::Done
            },
            TaskInput::Pending => {
                self.apply_updates(updates);
                TaskStep::Wait
            },
        }
    }

    /// Applies `updates` in order.
    pub fn apply_updates(&mut self, updates: Vec<ListenerUpdate<C>>)
        requires
            updates_ok(old(self).listeners(), updates@),
        ensures
            final(self).listeners() == apply_updates(old(self).listeners(), updates@),
            final(self).is_busy() == old(self).is_busy(),
            final(self).delivered() == old(self).delivered(),
    {
        let ghost start = self.listeners();
        let ghost all = updates@;
        let ghost n = all.len();
        let mut rest = updates;
        let mut applied: usize = 0;
        assert(n == rest.len());
        while rest.len() > 0
            invariant
                applied + rest.len() == n,
                n == all.len(),
                n <= usize::MAX,
                updates_ok(start, all),
                rest@ == all.skip(applied as int),
                self.listeners() == apply_updates(start, all.take(applied as int)),
                self.is_busy() == old(self).is_busy(),
                self.delivered() == old(self).delivered(),
            decreases rest.len(),
        {
            let u = rest.remove(0);
            proof {
                assert(u == all[applied as int]);
                assert(all.take(applied + 1).drop_last() =~= all.take(applied as int));
                assert(all.take(n as int) =~= all);
                lemma_updates_ok_prefix(start, all, applied + 1, n as int);
                assert(rest@ =~= all.skip(applied + 1));
            }
            self.apply_update(u);
            applied = applied + 1;
        }
        assert(all.take(n as int) =~= all);
    }

    /// The work started for the last message, while it runs.
    pub fn running_mut(&mut self) -> (r: Option<&mut W>)
        ensures
            r is Some == old(self).is_busy(),
            final(self).listeners() == old(self).listeners(),
            final(self).is_busy() == old(self).is_busy(),
            final(self).delivered() == old(self).delivered(),
    {
        self.running.as_mut()
    }

    /// Marks the running work as finished, so that the next message can be
    /// received.
    pub fn finish_running(&mut self)
        ensures
            !final(self).is_busy(),
            final(self).listeners() == old(self).listeners(),
            final(self).delivered() == old(self).delivered(),
    {
        self.running = None;
    }
}

/// A prefix of an applicable sequence of updates is applicable.
pub proof fn lemma_updates_ok_prefix<C>(m: Map<u64, C>, us: Seq<ListenerUpdate<C>>, i: int, j: int)
    requires
        0 <= i <= j <= us.len(),
        updates_ok(m, us.take(j)),
    ensures
        updates_ok(m, us.take(i)),
    decreases j - i,
{
    if i < j {
        assert(us.take(j).drop_last() =~= us.take(j - 1));
        lemma_updates_ok_prefix(m, us, i, j - 1);
    }
}

/// Attaching a listener to a free channel and detaching it again leaves the
/// listeners as they were.
pub proof fn lemma_listen_then_stop<C>(m: Map<u64, C>, channel: u64, listener: C)
    requires
        !m.contains_key(channel),
    ensures
        apply_updates(
            m,
            seq![ListenerUpdate::Listen(channel, listener), ListenerUpdate::StopListening(channel)],
        ) == m,
{
    let us = seq![ListenerUpdate::Listen(channel, listener), ListenerUpdate::StopListening(channel)];
    assert(us.drop_last() =~= seq![ListenerUpdate::Listen(channel, listener)]);
    let one = seq![ListenerUpdate::Listen(channel, listener)];
    assert(one.drop_last() =~= Seq::<ListenerUpdate<C>>::empty());
    assert(apply_updates(m, one.drop_last()) == m);
    assert(one.last() == ListenerUpdate::Listen(channel, listener));
    assert(apply_updates(m, seq![ListenerUpdate::Listen(channel, listener)]) == m.insert(
        channel,
        listener,
    ));
    assert(m.insert(channel, listener).remove(channel) =~= m);
}

/// A message received on a channel whose listener was detached by an update
/// that arrived before it is ignored, whatever came before the detaching.
pub proof fn lemma_stop_then_ignored<C>(
    m: Map<u64, C>,
    us: Seq<ListenerUpdate<C>>,
    channel: u64,
)
    requires
        us.len() > 0,
        us.last() == ListenerUpdate::<C>::StopListening(channel),
    ensures
        !apply_updates(m, us).contains_key(channel),
{
}

} // verus!
