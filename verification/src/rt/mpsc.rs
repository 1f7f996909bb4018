//! Message-count state of a mocked channel.
use vstd::prelude::*;

use crate::rt::execution::{lemma_entry_insert, lemma_entry_update, others_same, Execution};
use crate::rt::mpsc;
use crate::rt::mutex::{entry_changed, lemma_synced, others_waiting_set, same_but_causality, threads_synced};
use crate::rt::object::{access_view, clone_access, Access, Entry, Object};
use crate::rt::synchronize::Synchronize;
use crate::rt::thread::{self, active_causality};
use crate::rt::vv::{lemma_join_least_upper_bound, lemma_le_partial_order, vv_join, vv_le, VersionVec};
use std::sync::atomic::Ordering;

verus! {

/// Actions performed on the Channel.
#[derive(Debug, Clone, Copy, PartialEq, Eq, Structural)]
pub enum Action {
    /// Send a message
    MsgSend,
    /// Receive a message
    MsgRecv,
}

#[derive(Debug)]
pub struct State {
    /// Count of messages in the channel.
    pub msg_cnt: usize,
    /// Last access that was a send operation.
    pub last_send_access: Option<Access>,
    /// Last access that was a receive operation.
    pub last_recv_access: Option<Access>,
    /// Causality transfers between threads
    pub synchronize: Synchronize,
}

impl State {
    /// `true` when no message is left; otherwise messages leaked.
    pub fn check_for_leaks(&self) -> (r: bool)
        ensures
            r == (self.msg_cnt == 0),
    {
        self.msg_cnt == 0
    }

    /// Sends depend on the last send, receives on the last receive.
    pub fn last_dependent_access(&self, action: Action) -> (r: Option<Access>)
        ensures
            access_view(r) == match action {
                Action::MsgSend => access_view(self.last_send_access),
                Action::MsgRecv => access_view(self.last_recv_access),
            },
    {
        match action {
            Action::MsgSend => clone_access(&self.last_send_access),
            Action::MsgRecv => clone_access(&self.last_recv_access),
        }
    }

    pub fn set_last_access(&mut self, action: Action, path_id: usize, version: &VersionVec)
        requires
            old(self).last_send_access matches Some(a) ==> a.dpor_vv@.len() == version@.len(),
            old(self).last_recv_access matches Some(a) ==> a.dpor_vv@.len() == version@.len(),
        ensures
            final(self).msg_cnt == old(self).msg_cnt,
            final(self).synchronize == old(self).synchronize,
            action == Action::MsgSend ==> access_view(final(self).last_send_access) == Some((path_id, version@))
                && final(self).last_recv_access == old(self).last_recv_access,
            action == Action::MsgRecv ==> access_view(final(self).last_recv_access) == Some((path_id, version@))
                && final(self).last_send_access == old(self).last_send_access,
    {
        match action {
            Action::MsgSend => Access::set_or_create(&mut self.last_send_access, path_id, version),
            Action::MsgRecv => Access::set_or_create(&mut self.last_recv_access, path_id, version),
        }
    }
}

/// A mocked channel: a handle to its message count in the execution.
#[derive(Debug, Clone, Copy, PartialEq, Eq, Structural)]
pub struct Channel {
    pub obj: Object,
}

/// The object is a channel of the execution.
pub open spec fn is_channel(e: Execution, obj: Object) -> bool {
    &&& obj.execution_id == e.objects.execution_id
    &&& obj.index < e.objects.entries@.len()
    &&& e.objects.entries@[obj.index as int] is Channel
}

/// The state of the channel `obj`.
pub open spec fn channel_state(e: Execution, obj: Object) -> State {
    e.objects.entries@[obj.index as int]->Channel_0
}

/// The effect of sending on `obj`: one more message, carrying the active
/// thread's causality; when the channel was empty, the other threads about
/// to operate on it may run.
pub open spec fn sent(old: Execution, new: Execution, obj: Object) -> bool {
    let s = channel_state(old, obj);
    let ns = channel_state(new, obj);
    &&& new.objects.entries@[obj.index as int] is Channel
    &&& ns.msg_cnt == s.msg_cnt + 1
    &&& ns.synchronize@ == vv_join(s.synchronize@, active_causality(old.threads))
    &&& ns.last_send_access == s.last_send_access && ns.last_recv_access == s.last_recv_access
    &&& entry_changed(old, new, obj, new.objects.entries@[obj.index as int])
    &&& s.msg_cnt == 0 ==> others_waiting_set(old.threads, new.threads, obj, None, thread::State::Runnable { unparked: false })
    &&& s.msg_cnt != 0 ==> new.threads == old.threads
    &&& new.threads.seq_cst_causality == old.threads.seq_cst_causality
    &&& new.threads.threads@[old.threads.active_index()] == old.threads.threads@[old.threads.active_index()]
}

/// The effect of receiving from `obj`: one message less, whose causality
/// the active thread acquires; when the channel becomes empty, the other
/// threads about to receive from it are blocked.
pub open spec fn received(old: Execution, new: Execution, obj: Object) -> bool {
    let s = channel_state(old, obj);
    let ns = channel_state(new, obj);
    let c = vv_join(active_causality(old.threads), s.synchronize@);
    &&& new.objects.entries@[obj.index as int] is Channel
    &&& ns.msg_cnt == s.msg_cnt - 1
    &&& ns.synchronize == s.synchronize
    &&& ns.last_send_access == s.last_send_access && ns.last_recv_access == s.last_recv_access
    &&& entry_changed(old, new, obj, new.objects.entries@[obj.index as int])
    &&& s.msg_cnt == 1 ==> threads_synced(
        old.threads,
        new.threads,
        c,
        old.threads.seq_cst_causality@,
        obj,
        Some(crate::rt::object::Action::Channel(mpsc::Action::MsgRecv)),
        thread::State::Blocked,
    )
    &&& s.msg_cnt != 1 ==> {
        let a = old.threads.active_index();
        &&& new.threads.execution_id == old.threads.execution_id
        &&& new.threads.max == old.threads.max
        &&& new.threads.active == old.threads.active
        &&& new.threads.seq_cst_causality@ == old.threads.seq_cst_causality@
        &&& new.threads.threads@[a].causality@ == c
        &&& same_but_causality(old.threads.threads@[a], new.threads.threads@[a])
        &&& others_same(old.threads, new.threads, a)
    }
}

impl Channel {
    /// A new, empty channel.
    pub fn new(execution: &mut Execution) -> (r: Channel)
        requires
            old(execution).wf(),
        ensures
            final(execution).wf(),
            final(execution).same_config(old(execution)),
            final(execution).path == old(execution).path,
            final(execution).threads == old(execution).threads,
            final(execution).objects.causal_cells == old(execution).objects.causal_cells,
            final(execution).objects.execution_id == old(execution).objects.execution_id,
            final(execution).objects.entries@.drop_last() == old(execution).objects.entries@,
            r.obj.index == old(execution).objects.entries@.len(),
            r.obj.execution_id == old(execution).id,
            is_channel(*final(execution), r.obj),
            ({
                let s = channel_state(*final(execution), r.obj);
                &&& s.msg_cnt == 0 && s.last_send_access is None && s.last_recv_access is None
                &&& s.synchronize@ == Seq::new(old(execution).max_threads as nat, |i: int| 0usize)
            }),
    {
        let ghost old_e = *execution;
        let max = execution.threads.max();
        let state = State { msg_cnt: 0, last_send_access: None, last_recv_access: None, synchronize: Synchronize::new(max) };
        let obj = execution.objects.insert(Entry::Channel(state));
        proof {
            assert(execution.objects.entries@.drop_last() =~= old_e.objects.entries@);
            lemma_entry_insert(old_e, *execution);
            assert(execution.objects.entries@[obj.index as int] == Entry::Channel(state));
        }
        Channel { obj }
    }

    /// Returns `true` if the channel is currently empty.
    pub fn is_empty(&self, execution: &Execution) -> (r: bool)
        requires
            is_channel(*execution, self.obj),
        ensures
            r == (channel_state(*execution, self.obj).msg_cnt == 0),
    {
        match &execution.objects.entries[self.obj.index] {
            Entry::Channel(s) => s.msg_cnt == 0,
            _ => false,
        }
    }

    /// The number of messages in the channel.
    pub fn msg_count(&self, execution: &Execution) -> (r: usize)
        requires
            is_channel(*execution, self.obj),
        ensures
            r == channel_state(*execution, self.obj).msg_cnt,
    {
        match &execution.objects.entries[self.obj.index] {
            Entry::Channel(s) => s.msg_cnt,
            _ => 0,
        }
    }
}

impl Channel {
    /// Sends a message: it carries the active thread's causality; a channel
    /// that was empty lets the threads waiting on it run. The caller
    /// branches on the channel with `MsgSend` first.
    pub fn send(&self, execution: &mut Execution)
        requires
            old(execution).running(),
            is_channel(*old(execution), self.obj),
            channel_state(*old(execution), self.obj).msg_cnt < usize::MAX,
        ensures
            final(execution).running(),
            sent(*old(execution), *final(execution), self.obj),
    {
        let ghost old_e = *execution;
        let mut first = false;
        match &mut execution.objects.entries[self.obj.index] {
            Entry::Channel(state) => {
                state.msg_cnt = state.msg_cnt + 1;
                state.synchronize.sync_store(&mut execution.threads, Ordering::Release);
                first = state.msg_cnt == 1;
            },
            _ => {},
        }
        proof {
            lemma_entry_update(old_e, *execution, self.obj.idx());
        }
        if first {
            let ghost mid = *execution;
            // Unblock all threads that are blocked waiting on this channel
            execution.set_waiting_state(self.obj, None, thread::State::Runnable { unparked: false });
        }
    }

    /// Receives a message: the active thread acquires its causality; a
    /// channel that becomes empty blocks the other threads about to receive
    /// from it. Returns `false`, changing nothing, when the channel is
    /// empty. The caller branches on the channel with `MsgRecv` first.
    pub fn recv(&self, execution: &mut Execution) -> (r: bool)
        requires
            old(execution).running(),
            is_channel(*old(execution), self.obj),
        ensures
            final(execution).running(),
            r == (channel_state(*old(execution), self.obj).msg_cnt > 0),
            !r ==> *final(execution) == *old(execution),
            r ==> received(*old(execution), *final(execution), self.obj),
    {
        let ghost old_e = *execution;
        if self.is_empty(execution) {
            return false;
        }
        let mut last = false;
        match &mut execution.objects.entries[self.obj.index] {
            Entry::Channel(state) => {
                state.msg_cnt = state.msg_cnt - 1;
                state.synchronize.sync_load(&mut execution.threads, Ordering::Acquire);
                last = state.msg_cnt == 0;
            },
            _ => {},
        }
        proof {
            lemma_entry_update(old_e, *execution, self.obj.idx());
        }
        let ghost mid = *execution;
        if last {
            // Block all **other** threads attempting to read from the channel
            execution.set_waiting_state(
                self.obj,
                Some(crate::rt::object::Action::Channel(Action::MsgRecv)),
                thread::State::Blocked,
            );
            proof {
                lemma_synced(old_e, mid, *execution, self.obj, Some(crate::rt::object::Action::Channel(Action::MsgRecv)), thread::State::Blocked);
            }
        }
        proof {
            let s = channel_state(old_e, self.obj);
            let ns = channel_state(*execution, self.obj);
            assert(ns.msg_cnt == s.msg_cnt - 1);
            assert(ns.synchronize == s.synchronize);
            assert(entry_changed(old_e, *execution, self.obj, execution.objects.entries@[self.obj.idx()]));
            let a = old_e.threads.active_index();
            let c = vv_join(active_causality(old_e.threads), s.synchronize@);
            assert(mid.threads.threads@[a].causality@ == c);
            assert(execution.threads.threads@[a].causality@ == c);
            if s.msg_cnt != 1 {
                assert(*execution == mid);
                assert(others_same(old_e.threads, execution.threads, a));
            }
        }
        true
    }
}

/// In a running execution, the clock of a channel and the active thread's
/// causality have one entry per thread.
proof fn lemma_channel_lens(e: Execution, obj: Object)
    requires
        e.running(),
        is_channel(e, obj),
    ensures
        channel_state(e, obj).synchronize@.len() == e.max_threads,
        active_causality(e.threads).len() == e.max_threads,
{
    assert(crate::rt::object::entry_wf(e.objects.entries@[obj.index as int], e.max_threads as nat));
    crate::rt::thread::lemma_active_wf(e.threads);
}

/// What a send hands to the receive that takes a message after it: every
/// event of the sending thread up to the send happens before the receiving
/// thread after the receive. A channel's clock only grows: sends join into
/// it and receives keep it.
pub proof fn lemma_send_then_recv(e0: Execution, e1: Execution, e2: Execution, e3: Execution, obj: Object)
    requires
        e0.running(),
        e2.running(),
        is_channel(e0, obj),
        is_channel(e2, obj),
        sent(e0, e1, obj),
        vv_le(channel_state(e1, obj).synchronize@, channel_state(e2, obj).synchronize@),
        received(e2, e3, obj),
    ensures
        vv_le(active_causality(e0.threads), active_causality(e3.threads)),
{
    let c0 = active_causality(e0.threads);
    let s1 = channel_state(e1, obj).synchronize@;
    let s2 = channel_state(e2, obj).synchronize@;
    let j = vv_join(active_causality(e2.threads), s2);
    lemma_channel_lens(e0, obj);
    lemma_channel_lens(e2, obj);
    lemma_join_least_upper_bound(channel_state(e0, obj).synchronize@, c0, s1);
    lemma_join_least_upper_bound(active_causality(e2.threads), s2, j);
    lemma_le_partial_order(c0, s1, s2);
    lemma_le_partial_order(c0, s2, j);
    assert(active_causality(e3.threads) == j);
}

/// A send followed by a receive leaves the channel with as many messages
/// as before.
pub proof fn lemma_send_recv_count(e0: Execution, e1: Execution, e2: Execution, obj: Object)
    requires
        sent(e0, e1, obj),
        received(e1, e2, obj),
    ensures
        channel_state(e2, obj).msg_cnt == channel_state(e0, obj).msg_cnt,
{
}

} // verus!
