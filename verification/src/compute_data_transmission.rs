//! The cross-context channel: a bounded FIFO pipe that carries completion
//! and readback messages from the render context to the logic context.
//!
//! Delivery is strictly in send order: `send` appends at the back (and
//! refuses when the channel is full, which is the backpressure signal),
//! `try_receive` takes from the front. Nothing is ever reordered, coalesced
//! or dropped.

use vstd::prelude::*;

use crate::shader_buffer_set::{swap_valid, RegV, ShaderBufferHandle, ShaderBufferSet};
use crate::{ComputeGroupDoneEvent, CopyBufferEvent};

verus! {

/// Every swap message in the queue names a partnered live resource of the
/// registry.
pub open spec fn queue_swaps_valid(r: RegV, q: Seq<MessageV>) -> bool {
    forall|i: int|
        0 <= i < q.len() ==> match #[trigger] q[i] {
            MessageV::SwapBuffers { buffer } => swap_valid(r, buffer),
            _ => true,
        }
}

/// One message sent from the render context back to the logic context.
pub enum ComputeMessage {
    /// A buffer readback completed with these bytes.
    CopyBuffer(CopyBufferEvent),
    /// A task reached its iteration bound.
    GroupDone(ComputeGroupDoneEvent),
    /// A double buffer was flipped; the logic-side registry must flip too.
    SwapBuffers(ShaderBufferHandle),
}

/// Spec-level mirror of `ComputeMessage`.
pub enum MessageV {
    CopyBuffer { buffer: ShaderBufferHandle, data: Seq<u8> },
    GroupDone {
        group_finished: int,
        label: Option<Seq<char>>,
        time_in_group: u64,
        final_group: bool,
    },
    SwapBuffers { buffer: ShaderBufferHandle },
}

impl View for ComputeMessage {
    type V = MessageV;

    open spec fn view(&self) -> MessageV {
        match self {
            ComputeMessage::CopyBuffer(e) => MessageV::CopyBuffer {
                buffer: e.buffer,
                data: e.data@,
            },
            ComputeMessage::GroupDone(e) => MessageV::GroupDone {
                group_finished: e.group_finished as int,
                label: match &e.group_finished_label {
                    Some(l) => Some(l@),
                    None => None,
                },
                time_in_group: e.time_in_group,
                final_group: e.final_group,
            },
            ComputeMessage::SwapBuffers(h) => MessageV::SwapBuffers { buffer: *h },
        }
    }
}

/// The bounded FIFO channel between the two contexts. Its view is the
/// sequence of queued messages, oldest first.
pub struct ComputeDataTransmission {
    queue: Vec<ComputeMessage>,
    capacity: usize,
}

impl View for ComputeDataTransmission {
    type V = Seq<MessageV>;

    closed spec fn view(&self) -> Seq<MessageV> {
        Seq::new(self.queue@.len(), |i: int| self.queue@[i]@)
    }
}

impl ComputeDataTransmission {
    /// The fixed capacity chosen at creation.
    pub closed spec fn cap(&self) -> int {
        self.capacity as int
    }

    /// An empty channel with the given capacity. The capacity is small on
    /// purpose: it forces the consumer to drain every tick instead of
    /// letting backlog grow.
    pub fn new(capacity: usize) -> (r: Self)
        ensures
            r@ == Seq::<MessageV>::empty(),
            r.cap() == capacity,
    {
        let r = ComputeDataTransmission { queue: Vec::new(), capacity };
        proof {
            assert(r@ =~= Seq::<MessageV>::empty());
        }
        r
    }

    /// Queued message count.
    pub fn len(&self) -> (r: usize)
        ensures
            r == self@.len(),
    {
        self.queue.len()
    }

    /// Appends one message at the back. Succeeds exactly when the channel
    /// is not full; a refused message leaves the channel unchanged, and the
    /// producer is expected to retry after the consumer drains — that stall
    /// is the designed backpressure.
    pub fn send(&mut self, message: ComputeMessage) -> (ok: bool)
        ensures
            final(self).cap() == old(self).cap(),
            ok == (old(self)@.len() < old(self).cap()),
            ok ==> final(self)@ == old(self)@.push(message@),
            !ok ==> final(self)@ == old(self)@,
    {
        if self.queue.len() < self.capacity {
            let ghost before = self@;
            let ghost mv = message@;
            self.queue.push(message);
            proof {
                assert(self@ =~= before.push(mv));
            }
            true
        } else {
            false
        }
    }

    /// Tests whether every queued swap message names a partnered live
    /// resource of the registry, so the logic context can fail loudly
    /// before draining rather than flip a handle that no longer exists.
    pub fn swaps_valid_for(&self, buffer_set: &ShaderBufferSet) -> (b: bool)
        ensures
            b == queue_swaps_valid(buffer_set@, self@),
    {
        let mut i: usize = 0;
        while i < self.queue.len()
            invariant
                i <= self.queue@.len(),
                forall|j: int|
                    0 <= j < i ==> match #[trigger] self@[j] {
                        MessageV::SwapBuffers { buffer } => swap_valid(buffer_set@, buffer),
                        _ => true,
                    },
            decreases self.queue@.len() - i,
        {
            let ok: bool = match &self.queue[i] {
                ComputeMessage::SwapBuffers(h) => match buffer_set.lookup(*h) {
                    Some(e) => e.partner.is_some(),
                    None => false,
                },
                _ => true,
            };
            if !ok {
                proof {
                    assert(self@[i as int] matches MessageV::SwapBuffers { buffer }
                        && !swap_valid(buffer_set@, buffer));
                }
                return false;
            }
            i = i + 1;
        }
        true
    }

    /// Takes the oldest message, or nothing when the channel is empty.
    pub fn try_receive(&mut self) -> (r: Option<ComputeMessage>)
        ensures
            final(self).cap() == old(self).cap(),
            old(self)@.len() == 0 ==> r is None && final(self)@ == old(self)@,
            old(self)@.len() > 0 ==> (r matches Some(m) && m@ == old(self)@[0]) && final(self)@
                == old(self)@.skip(1),
    {
        if self.queue.len() == 0 {
            return None;
        }
        let ghost before = self@;
        let m = self.queue.remove(0);
        proof {
            assert(self@ =~= before.skip(1));
        }
        Some(m)
    }
}

/// Law: delivery preserves send order. Sending `m1` then `m2` behind a
/// queue `q` (with room for both) yields `q + [m1, m2]`; since every
/// receive returns the front element and keeps the rest in place, the
/// messages of `q` leave first, in order, then `m1`, then `m2` — nothing is
/// lost while under capacity.
pub proof fn lemma_channel_fifo(q: Seq<MessageV>, m1: MessageV, m2: MessageV)
    ensures
        q.push(m1).push(m2).len() == q.len() + 2,
        q.push(m1).push(m2)[q.len() as int] == m1,
        q.push(m1).push(m2)[q.len() as int + 1] == m2,
        forall|i: int| 0 <= i < q.len() ==> q.push(m1).push(m2)[i] == q[i],
        forall|i: int|
            0 <= i < q.len() + 1 ==> q.push(m1).push(m2).skip(1)[i] == q.push(m1).push(m2)[i + 1],
{
    assert(forall|i: int|
        0 <= i < q.len() + 1 ==> q.push(m1).push(m2).skip(1)[i] == q.push(m1).push(m2)[i + 1]);
}

} // verus!
