//! Draining the cross-context channel in the logic context, once per logic
//! tick: readback and completion messages become application-visible events
//! in exactly the order they were sent, and swap messages flip the
//! logic-side registry so displayed handles resolve to the new front
//! buffer.

use vstd::prelude::*;

use crate::compute_data_transmission::{
    queue_swaps_valid, ComputeDataTransmission, ComputeMessage, MessageV,
};
use crate::shader_buffer_set::{apply_swap, swap_valid, RegV, ShaderBufferSet};
use crate::{ComputeGroupDoneEvent, CopyBufferEvent};

verus! {

/// The readback messages of a queue, in delivery order.
pub open spec fn copies_of(q: Seq<MessageV>) -> Seq<MessageV>
    decreases q.len(),
{
    if q.len() == 0 {
        Seq::empty()
    } else {
        (if q[0] is CopyBuffer {
            seq![q[0]]
        } else {
            Seq::<MessageV>::empty()
        }) + copies_of(q.skip(1))
    }
}

/// The completion messages of a queue, in delivery order.
pub open spec fn dones_of(q: Seq<MessageV>) -> Seq<MessageV>
    decreases q.len(),
{
    if q.len() == 0 {
        Seq::empty()
    } else {
        (if q[0] is GroupDone {
            seq![q[0]]
        } else {
            Seq::<MessageV>::empty()
        }) + dones_of(q.skip(1))
    }
}

/// The registry after applying every swap message of the queue, in order.
pub open spec fn apply_queue(r: RegV, q: Seq<MessageV>) -> RegV
    decreases q.len(),
{
    if q.len() == 0 {
        r
    } else {
        apply_queue(
            match q[0] {
                MessageV::SwapBuffers { buffer } => apply_swap(r, buffer),
                _ => r,
            },
            q.skip(1),
        )
    }
}

/// The view of collected readback events, for comparing against the queue.
pub open spec fn copy_events_view(s: Seq<CopyBufferEvent>) -> Seq<MessageV> {
    Seq::new(s.len(), |i: int| MessageV::CopyBuffer { buffer: s[i].buffer, data: s[i].data@ })
}

/// The view of collected completion events.
pub open spec fn done_events_view(s: Seq<ComputeGroupDoneEvent>) -> Seq<MessageV> {
    Seq::new(
        s.len(),
        |i: int|
            MessageV::GroupDone {
                group_finished: s[i].group_finished as int,
                label: match s[i].group_finished_label {
                    Some(l) => Some(l@),
                    None => None,
                },
                time_in_group: s[i].time_in_group,
                final_group: s[i].final_group,
            },
    )
}

/// Drains the channel completely and applies its effects: readback messages
/// become `CopyBufferEvent`s and completion messages become
/// `ComputeGroupDoneEvent`s — each list in exact delivery order, with
/// nothing lost — and each swap message flips the named double buffer in
/// the logic-side registry, in delivery order.
#[verifier::loop_isolation(false)]
pub fn parse_render_messages(
    buffer_set: &mut ShaderBufferSet,
    transmission: &mut ComputeDataTransmission,
) -> (events: (Vec<CopyBufferEvent>, Vec<ComputeGroupDoneEvent>))
    requires
        old(buffer_set)@.wf(),
        queue_swaps_valid(old(buffer_set)@, old(transmission)@),
    ensures
        final(transmission)@ == Seq::<MessageV>::empty(),
        final(transmission).cap() == old(transmission).cap(),
        final(buffer_set)@ == apply_queue(old(buffer_set)@, old(transmission)@),
        final(buffer_set)@.wf(),
        copy_events_view(events.0@) == copies_of(old(transmission)@),
        done_events_view(events.1@) == dones_of(old(transmission)@),
{
    let ghost q0 = transmission@;
    let ghost r0 = buffer_set@;
    let mut copies: Vec<CopyBufferEvent> = Vec::new();
    let mut dones: Vec<ComputeGroupDoneEvent> = Vec::new();
    proof {
        assert(copy_events_view(copies@) + copies_of(q0) =~= copies_of(q0));
        assert(done_events_view(dones@) + dones_of(q0) =~= dones_of(q0));
    }
    loop
        invariant
            transmission.cap() == old(transmission).cap(),
            copy_events_view(copies@) + copies_of(transmission@) == copies_of(q0),
            done_events_view(dones@) + dones_of(transmission@) == dones_of(q0),
            apply_queue(buffer_set@, transmission@) == apply_queue(r0, q0),
            buffer_set@.wf(),
            queue_swaps_valid(buffer_set@, transmission@),
        decreases transmission@.len(),
    {
        let ghost q_pre = transmission@;
        let ghost rb_pre = buffer_set@;
        let ghost copies_pre = copies@;
        let ghost dones_pre = dones@;
        let m = match transmission.try_receive() {
            Some(m) => m,
            None => {
                break ;
            },
        };
        proof {
            assert(m@ == q_pre[0] && transmission@ == q_pre.skip(1));
        }
        match m {
            ComputeMessage::CopyBuffer(e) => {
                copies.push(e);
                proof {
                    assert(copy_events_view(copies@) =~= copy_events_view(copies_pre) + seq![
                        q_pre[0],
                    ]);
                    assert((copy_events_view(copies_pre) + seq![q_pre[0]]) + copies_of(
                        q_pre.skip(1),
                    ) =~= copy_events_view(copies_pre) + (seq![q_pre[0]] + copies_of(
                        q_pre.skip(1),
                    )));
                    assert(done_events_view(dones@) + dones_of(q_pre.skip(1)) =~= done_events_view(
                        dones@,
                    ) + dones_of(q_pre));
                }
            },
            ComputeMessage::GroupDone(e) => {
                dones.push(e);
                proof {
                    assert(done_events_view(dones@) =~= done_events_view(dones_pre) + seq![
                        q_pre[0],
                    ]);
                    assert((done_events_view(dones_pre) + seq![q_pre[0]]) + dones_of(q_pre.skip(1))
                        =~= done_events_view(dones_pre) + (seq![q_pre[0]] + dones_of(
                        q_pre.skip(1),
                    )));
                    assert(copy_events_view(copies@) + copies_of(q_pre.skip(1))
                        =~= copy_events_view(copies@) + copies_of(q_pre));
                }
            },
            ComputeMessage::SwapBuffers(h) => {
                proof {
                    assert(q_pre[0] matches MessageV::SwapBuffers { buffer } && buffer == h);
                    assert(swap_valid(rb_pre, h));
                }
                buffer_set.swap_front_buffer(h);
                proof {
                    assert forall|i: int|
                        0 <= i < transmission@.len() implies match #[trigger] transmission@[i] {
                        MessageV::SwapBuffers { buffer } => swap_valid(buffer_set@, buffer),
                        _ => true,
                    } by {
                        assert(transmission@[i] == q_pre[i + 1]);
                        match transmission@[i] {
                            MessageV::SwapBuffers { buffer } => {
                                crate::shader_buffer_set::lemma_swap_preserves_shape(
                                    rb_pre,
                                    h,
                                    buffer,
                                );
                            },
                            _ => {},
                        }
                    }
                    assert(copy_events_view(copies@) + copies_of(q_pre.skip(1))
                        =~= copy_events_view(copies@) + copies_of(q_pre));
                    assert(done_events_view(dones@) + dones_of(q_pre.skip(1)) =~= done_events_view(
                        dones@,
                    ) + dones_of(q_pre));
                }
            },
        }
    }
    proof {
        assert(copy_events_view(copies@) + copies_of(transmission@) =~= copy_events_view(copies@));
        assert(done_events_view(dones@) + dones_of(transmission@) =~= done_events_view(dones@));
    }
    (copies, dones)
}

} // verus!
