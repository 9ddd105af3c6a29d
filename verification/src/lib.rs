//! A verified core for tick-driven GPU compute orchestration.
//!
//! The crate models the three pieces that make recurring compute work
//! correct: a handle-indexed registry of GPU-resident buffers and textures
//! (including double-buffer flips), a task scheduler that decides which
//! compute steps run on each tick, and a bounded FIFO channel that carries
//! completion and readback events from the render context back to the
//! logic context. Actual GPU work is returned to the host as plain
//! command values; the host executes them and hands results back.

pub mod compute_data_transmission;
pub mod compute_main_setup;
pub mod compute_node;
pub mod compute_sequence;
pub mod parse_render_messages;
pub mod shader_buffer_set;

use vstd::prelude::*;

use crate::compute_sequence::ComputeTask;
use crate::shader_buffer_set::ShaderBufferHandle;

verus! {

/// Request to install a new compute pipeline: the ordered tasks to run and
/// an optional buffer whose contents the host updates with the iteration
/// counter before each dispatch.
pub struct StartComputeEvent {
    pub tasks: Vec<ComputeTask>,
    pub iteration_buffer: Option<ShaderBufferHandle>,
}

/// Application-visible event: a buffer readback finished and `data` holds
/// the bytes that were in the source buffer when the copy was issued.
pub struct CopyBufferEvent {
    pub buffer: ShaderBufferHandle,
    pub data: Vec<u8>,
}

/// Application-visible event: one task of the active pipeline reached its
/// iteration bound. `time_in_group` is the wall-clock time in milliseconds
/// the task spent active; `final_group` says whether it was the last task.
pub struct ComputeGroupDoneEvent {
    pub group_finished: usize,
    pub group_finished_label: Option<String>,
    pub time_in_group: u64,
    pub final_group: bool,
}

/// Marks a display-side image that mirrors a double-buffered texture: after
/// each swap the host points it at the new front buffer's allocation.
pub struct DoubleBufferedSprite(pub ShaderBufferHandle);

} // verus!
