//! The fan-out model behind the three per-room notification channels: a
//! bounded pending buffer per subscriber. Publishing is non-blocking and
//! never fails the caller: with no subscribers it is a no-op, and a
//! subscriber that has fallen a full buffer behind silently loses the
//! oldest undelivered item. Wake-up channels carry a unit signal; the chat
//! channel carries whole messages.

use vstd::prelude::*;
use vstd::pervasive::VecAdditionalExecFns;

use crate::messages::{ChatMessage, ChatMessageV};

verus! {

/// How many undelivered items one subscriber may have pending.
pub open spec fn channel_capacity() -> nat {
    128
}

/// A buffer after a bounded publish: the item goes on the back; at
/// capacity, the oldest pending item falls off the front.
pub open spec fn spec_push_bounded<T>(s: Seq<T>, x: T) -> Seq<T> {
    if s.len() < channel_capacity() {
        s.push(x)
    } else {
        s.subrange(1, s.len() as int).push(x)
    }
}

/// A multicast wake-up channel: one bounded signal buffer per subscriber.
#[derive(Debug)]
pub struct SignalQueue {
    pub buffers: Vec<Vec<bool>>,
}

impl SignalQueue {
    /// A channel with no subscribers yet.
    pub fn new() -> (q: SignalQueue)
        ensures
            q.buffers@.len() == 0,
    {
        SignalQueue { buffers: Vec::new() }
    }

    /// Register one more subscriber; the returned id indexes its buffer.
    pub fn subscribe(&mut self) -> (id: usize)
        ensures
            id == old(self).buffers@.len(),
            final(self).buffers@.len() == old(self).buffers@.len() + 1,
            forall|j: int|
                0 <= j < old(self).buffers@.len() ==> final(self).buffers@[j] == old(self).buffers@[j],
            final(self).buffers@[id as int]@.len() == 0,
    {
        let id = self.buffers.len();
        self.buffers.push(Vec::new());
        id
    }

    /// Publish one wake-up to every subscriber. Never blocks, never fails:
    /// each subscriber's buffer takes the signal, shedding its oldest
    /// pending one if full; with no subscribers nothing happens.
    pub fn publish(&mut self, signal: bool)
        ensures
            final(self).buffers@.len() == old(self).buffers@.len(),
            forall|j: int|
                0 <= j < old(self).buffers@.len() ==> final(self).buffers@[j]@
                    == spec_push_bounded(old(self).buffers@[j]@, signal),
    {
        let n = self.buffers.len();
        let mut i: usize = 0;
        while i < n
            invariant
                n == self.buffers@.len(),
                n == old(self).buffers@.len(),
                i <= n,
                forall|j: int|
                    i <= j < n ==> self.buffers@[j] == old(self).buffers@[j],
                forall|j: int|
                    0 <= j < i ==> self.buffers@[j]@ == spec_push_bounded(
                        old(self).buffers@[j]@,
                        signal,
                    ),
            decreases n - i,
        {
            let mut nb: Vec<bool> = Vec::new();
            let len = self.buffers[i].len();
            let start: usize = if len < 128 {
                0
            } else {
                1
            };
            let mut k: usize = start;
            while k < len
                invariant
                    start <= k <= len,
                    start <= 1,
                    len == self.buffers@[i as int]@.len(),
                    i < n == self.buffers@.len(),
                    nb@ =~= self.buffers@[i as int]@.subrange(start as int, k as int),
                decreases len - k,
            {
                let b = self.buffers[i][k];
                nb.push(b);
                proof {
                    assert(nb@ =~= self.buffers@[i as int]@.subrange(start as int, k + 1));
                }
                k = k + 1;
            }
            nb.push(signal);
            proof {
                assert(nb@ =~= spec_push_bounded(self.buffers@[i as int]@, signal));
            }
            self.buffers.set(i, nb);
            i = i + 1;
        }
    }

    /// Take a subscriber's oldest pending wake-up, if any.
    pub fn recv(&mut self, id: usize) -> (r: Option<bool>)
        requires
            id < old(self).buffers@.len(),
        ensures
            final(self).buffers@.len() == old(self).buffers@.len(),
            forall|j: int|
                0 <= j < old(self).buffers@.len() && j != id ==> final(self).buffers@[j] == old(self).buffers@[j],
            (match r {
                Some(s) => old(self).buffers@[id as int]@.len() > 0 && s == old(self).buffers@[id as int]@[0] && final(self).buffers@[id as int]@ == old(self).buffers@[id as int]@.drop_first(),
                None => old(self).buffers@[id as int]@.len() == 0 && final(self).buffers@[id as int] == old(self).buffers@[id as int],
            }),
    {
        let len = self.buffers[id].len();
        if len == 0 {
            return None;
        }
        let s = self.buffers[id][0];
        let mut nb: Vec<bool> = Vec::new();
        let mut k: usize = 1;
        while k < len
            invariant
                1 <= k <= len,
                len == self.buffers@[id as int]@.len(),
                id < self.buffers@.len(),
                nb@ =~= self.buffers@[id as int]@.subrange(1, k as int),
            decreases len - k,
        {
            let b = self.buffers[id][k];
            nb.push(b);
            proof {
                assert(nb@ =~= self.buffers@[id as int]@.subrange(1, k + 1));
            }
            k = k + 1;
        }
        proof {
            assert(nb@ =~= self.buffers@[id as int]@.drop_first());
        }
        self.buffers.set(id, nb);
        Some(s)
    }
}

/// The multicast chat channel: like a wake-up channel, but each pending
/// item carries a whole chat line.
#[derive(Debug)]
pub struct ChatQueue {
    pub buffers: Vec<Vec<ChatMessage>>,
}

/// The pending lines of one chat buffer, by value.
pub open spec fn chat_buffer_view(b: Vec<ChatMessage>) -> Seq<ChatMessageV> {
    b@.map_values(|m: ChatMessage| m@)
}

impl ChatQueue {
    /// A channel with no subscribers yet.
    pub fn new() -> (q: ChatQueue)
        ensures
            q.buffers@.len() == 0,
    {
        ChatQueue { buffers: Vec::new() }
    }

    /// Register one more subscriber; the returned id indexes its buffer.
    pub fn subscribe(&mut self) -> (id: usize)
        ensures
            id == old(self).buffers@.len(),
            final(self).buffers@.len() == old(self).buffers@.len() + 1,
            forall|j: int|
                0 <= j < old(self).buffers@.len() ==> final(self).buffers@[j] == old(self).buffers@[j],
            chat_buffer_view(final(self).buffers@[id as int]).len() == 0,
    {
        let id = self.buffers.len();
        self.buffers.push(Vec::new());
        proof {
            assert(chat_buffer_view(self.buffers@[id as int]) =~= Seq::<ChatMessageV>::empty());
        }
        id
    }

    /// Publish one chat line to every subscriber, with the same bounded,
    /// non-blocking, drop-oldest behavior as a wake-up channel.
    pub fn publish(&mut self, message: &ChatMessage)
        ensures
            final(self).buffers@.len() == old(self).buffers@.len(),
            forall|j: int|
                0 <= j < old(self).buffers@.len() ==> chat_buffer_view(final(self).buffers@[j])
                    == spec_push_bounded(chat_buffer_view(old(self).buffers@[j]), message@),
    {
        let n = self.buffers.len();
        let mut i: usize = 0;
        while i < n
            invariant
                n == self.buffers@.len(),
                n == old(self).buffers@.len(),
                i <= n,
                forall|j: int|
                    i <= j < n ==> self.buffers@[j] == old(self).buffers@[j],
                forall|j: int|
                    0 <= j < i ==> chat_buffer_view(#[trigger] self.buffers@[j])
                        == spec_push_bounded(chat_buffer_view(old(self).buffers@[j]), message@),
            decreases n - i,
        {
            let mut nb: Vec<ChatMessage> = Vec::new();
            let len = self.buffers[i].len();
            let start: usize = if len < 128 {
                0
            } else {
                1
            };
            let mut k: usize = start;
            while k < len
                invariant
                    start <= k <= len,
                    start <= 1,
                    len == self.buffers@[i as int]@.len(),
                    i < n == self.buffers@.len(),
                    nb@.len() == k - start,
                    chat_buffer_view(nb) =~= chat_buffer_view(self.buffers@[i as int]).subrange(
                        start as int,
                        k as int,
                    ),
                decreases len - k,
            {
                let m = self.buffers[i][k].clone();
                nb.push(m);
                proof {
                    let bv = chat_buffer_view(self.buffers@[i as int]);
                    assert forall|t: int|
                        0 <= t < nb@.len() implies chat_buffer_view(nb)[t] == bv.subrange(
                        start as int,
                        k + 1,
                    )[t] by {
                        assert(chat_buffer_view(nb)[t] == nb@[t]@);
                        assert(bv.subrange(start as int, k + 1)[t] == self.buffers@[i as int]@[
                        start + t]@);
                        if t < nb@.len() - 1 {
                            assert(chat_buffer_view(nb)[t] == chat_buffer_view(
                                self.buffers@[i as int],
                            ).subrange(start as int, k as int)[t]);
                        }
                    }
                    assert(chat_buffer_view(nb) =~= bv.subrange(start as int, k + 1));
                }
                k = k + 1;
            }
            nb.push(message.clone());
            proof {
                let bv = chat_buffer_view(self.buffers@[i as int]);
                let goal = spec_push_bounded(bv, message@);
                assert forall|t: int|
                    0 <= t < nb@.len() implies chat_buffer_view(nb)[t] == goal[t] by {
                    assert(chat_buffer_view(nb)[t] == nb@[t]@);
                    if t < nb@.len() - 1 {
                        assert(chat_buffer_view(nb)[t] == bv.subrange(start as int, len as int)[t]);
                        assert(bv.subrange(start as int, len as int)[t] == bv[start + t]);
                    }
                }
                assert(chat_buffer_view(nb).len() == goal.len());
                assert(chat_buffer_view(nb) =~= goal);
            }
            self.buffers.set(i, nb);
            i = i + 1;
        }
    }

    /// Take a subscriber's oldest pending line, if any.
    pub fn recv(&mut self, id: usize) -> (r: Option<ChatMessage>)
        requires
            id < old(self).buffers@.len(),
        ensures
            final(self).buffers@.len() == old(self).buffers@.len(),
            forall|j: int|
                0 <= j < old(self).buffers@.len() && j != id ==> final(self).buffers@[j] == old(self).buffers@[j],
            (match r {
                Some(m) => chat_buffer_view(old(self).buffers@[id as int]).len() > 0 && m@
                    == chat_buffer_view(old(self).buffers@[id as int])[0] && chat_buffer_view(
                    final(self).buffers@[id as int],
                ) == chat_buffer_view(old(self).buffers@[id as int]).drop_first(),
                None => chat_buffer_view(old(self).buffers@[id as int]).len() == 0 && final(self).buffers@[id as int] == old(self).buffers@[id as int],
            }),
    {
        let len = self.buffers[id].len();
        if len == 0 {
            return None;
        }
        let m = self.buffers[id][0].clone();
        let mut nb: Vec<ChatMessage> = Vec::new();
        let mut k: usize = 1;
        while k < len
            invariant
                1 <= k <= len,
                len == self.buffers@[id as int]@.len(),
                id < self.buffers@.len(),
                nb@.len() == k - 1,
                chat_buffer_view(nb) =~= chat_buffer_view(self.buffers@[id as int]).subrange(
                    1,
                    k as int,
                ),
            decreases len - k,
        {
            let b = self.buffers[id][k].clone();
            nb.push(b);
            proof {
                let bv = chat_buffer_view(self.buffers@[id as int]);
                assert forall|t: int|
                    0 <= t < nb@.len() implies chat_buffer_view(nb)[t] == bv.subrange(1, k + 1)[t]
                    by {
                    assert(chat_buffer_view(nb)[t] == nb@[t]@);
                    assert(bv.subrange(1, k + 1)[t] == self.buffers@[id as int]@[1 + t]@);
                    if t < nb@.len() - 1 {
                        assert(chat_buffer_view(nb)[t] == chat_buffer_view(
                            self.buffers@[id as int],
                        ).subrange(1, k as int)[t]);
                    }
                }
                assert(chat_buffer_view(nb) =~= bv.subrange(1, k + 1));
            }
            k = k + 1;
        }
        proof {
            assert(chat_buffer_view(nb) =~= chat_buffer_view(
                self.buffers@[id as int],
            ).drop_first());
        }
        self.buffers.set(id, nb);
        Some(m)
    }
}

} // verus!
