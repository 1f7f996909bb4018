//! Mock implementation of a `std::sync::mpsc` channel: the messages in
//! flight, kept in the order they were sent, over a channel object of the
//! execution that orders each send before the receive that takes it.
use vstd::prelude::*;

use crate::rt::execution::Execution;
use crate::rt::mpsc::{channel_state, is_channel, received, sent, Channel as Object};

verus! {

/// A channel with its messages in flight.
#[derive(Debug)]
pub struct Channel<T> {
    object: Object,
    queue: Vec<T>,
}

impl<T> Channel<T> {
    /// The messages in flight, oldest first.
    pub closed spec fn messages(&self) -> Seq<T> {
        self.queue@
    }

    /// The channel object of the execution.
    pub closed spec fn obj(&self) -> crate::rt::object::Object {
        self.object.obj
    }

    /// The channel belongs to the execution `e`, whose channel object counts
    /// its messages.
    pub closed spec fn fits(&self, e: Execution) -> bool {
        is_channel(e, self.object.obj) && channel_state(e, self.object.obj).msg_cnt == self.queue@.len()
    }

    /// A new channel, with no message in flight.
    pub fn new(execution: &mut Execution) -> (r: Channel<T>)
        requires
            old(execution).wf(),
        ensures
            final(execution).wf(),
            final(execution).same_config(old(execution)),
            final(execution).path == old(execution).path,
            final(execution).threads == old(execution).threads,
            final(execution).objects.causal_cells == old(execution).objects.causal_cells,
            final(execution).objects.entries@.drop_last() == old(execution).objects.entries@,
            r.obj().index == old(execution).objects.entries@.len(),
            r.fits(*final(execution)),
            r.messages() == Seq::<T>::empty(),
    {
        Channel { object: Object::new(execution), queue: Vec::new() }
    }

    /// The channel object of the execution, on which sends and receives
    /// branch.
    pub fn object(&self) -> (r: crate::rt::object::Object)
        ensures
            r == self.obj(),
    {
        self.object.obj
    }

    /// Whether no message is in flight.
    pub fn is_empty(&self) -> (r: bool)
        ensures
            r == (self.messages().len() == 0),
    {
        self.queue.len() == 0
    }

    /// Sends `msg`: it joins the messages in flight, after the others, and
    /// carries the active thread's causality. The caller branches on the
    /// channel with `MsgSend` first.
    pub fn send(&mut self, execution: &mut Execution, msg: T)
        requires
            old(execution).running(),
            old(self).fits(*old(execution)),
            old(self).messages().len() < usize::MAX,
        ensures
            final(execution).running(),
            final(self).fits(*final(execution)),
            final(self).obj() == old(self).obj(),
            final(self).messages() == old(self).messages().push(msg),
            sent(*old(execution), *final(execution), old(self).obj()),
    {
        self.object.send(execution);
        self.queue.push(msg);
    }

    /// Receives the oldest message in flight, if there is one: the active
    /// thread acquires the causality of its send. The caller branches on
    /// the channel with `MsgRecv` first, blocked while the channel is
    /// empty.
    pub fn recv(&mut self, execution: &mut Execution) -> (r: Option<T>)
        requires
            old(execution).running(),
            old(self).fits(*old(execution)),
        ensures
            final(execution).running(),
            final(self).fits(*final(execution)),
            final(self).obj() == old(self).obj(),
            old(self).messages().len() == 0 ==> {
                &&& r is None
                &&& *final(execution) == *old(execution)
                &&& final(self).messages() == old(self).messages()
            },
            old(self).messages().len() > 0 ==> {
                &&& r == Some(old(self).messages()[0])
                &&& final(self).messages() == old(self).messages().drop_first()
                &&& received(*old(execution), *final(execution), old(self).obj())
            },
    {
        if self.queue.len() == 0 {
            return None;
        }
        let got = self.object.recv(execution);
        assert(got);
        let msg = self.queue.remove(0);
        proof {
            assert(self.queue@ =~= old(self).queue@.drop_first());
        }
        Some(msg)
    }
}

} // verus!
