//! The task/step/action vocabulary of a compute pipeline, and the spec-level
//! views the scheduler's contracts are stated over.

use vstd::prelude::*;

use crate::shader_buffer_set::ShaderBufferHandle;

verus! {

/// One action a compute step performs on its tick.
#[derive(Clone)]
pub enum ComputeAction {
    /// Dispatch the shader at the given asset path and entry point with the
    /// given workgroup counts.
    RunShader {
        shader: String,
        entry_point: String,
        x_workgroup_count: u32,
        y_workgroup_count: u32,
        z_workgroup_count: u32,
    },
    /// GPU-side copy between two textures of identical extent.
    CopyTexture { src: ShaderBufferHandle, dst: ShaderBufferHandle },
    /// Start the two-phase readback of a storage buffer; the bytes arrive
    /// later as a `CopyBuffer` message.
    CopyBuffer { src: ShaderBufferHandle },
    /// Flip a double-buffered resource's front/back roles.
    SwapBuffers { buffer: ShaderBufferHandle },
}

/// One throttleable action inside a task. `max_frequency` is the most times
/// per second the step may run; absent means every tick.
#[derive(Clone)]
pub struct ComputeStep {
    pub max_frequency: Option<u32>,
    pub action: ComputeAction,
}

/// A labeled unit of recurring work: its steps are considered once per tick
/// for `iterations` ticks (forever when absent).
#[derive(Clone)]
pub struct ComputeTask {
    pub label: Option<String>,
    pub iterations: Option<u32>,
    pub steps: Vec<ComputeStep>,
}

/// The installed pipeline, as the logic context sees it: the ordered tasks
/// and the optional buffer the host refreshes with the iteration counter.
/// At most one exists at a time; the render context mirrors it into a
/// running scheduler.
#[derive(Clone)]
pub struct ComputeSequence {
    pub tasks: Vec<ComputeTask>,
    pub iteration_buffer: Option<ShaderBufferHandle>,
}

/// Spec-level mirror of `ComputeAction`.
pub enum ActionV {
    RunShader { shader: Seq<char>, entry_point: Seq<char>, x: u32, y: u32, z: u32 },
    CopyTexture { src: ShaderBufferHandle, dst: ShaderBufferHandle },
    CopyBuffer { src: ShaderBufferHandle },
    SwapBuffers { buffer: ShaderBufferHandle },
}

/// Spec-level mirror of `ComputeStep`.
pub struct StepV {
    pub max_frequency: Option<u32>,
    pub action: ActionV,
}

/// Spec-level mirror of `ComputeTask`.
pub struct TaskV {
    pub label: Option<Seq<char>>,
    pub iterations: Option<u32>,
    pub steps: Seq<StepV>,
}

impl View for ComputeAction {
    type V = ActionV;

    open spec fn view(&self) -> ActionV {
        match self {
            ComputeAction::RunShader {
                shader,
                entry_point,
                x_workgroup_count,
                y_workgroup_count,
                z_workgroup_count,
            } => ActionV::RunShader {
                shader: shader@,
                entry_point: entry_point@,
                x: *x_workgroup_count,
                y: *y_workgroup_count,
                z: *z_workgroup_count,
            },
            ComputeAction::CopyTexture { src, dst } => ActionV::CopyTexture { src: *src, dst: *dst },
            ComputeAction::CopyBuffer { src } => ActionV::CopyBuffer { src: *src },
            ComputeAction::SwapBuffers { buffer } => ActionV::SwapBuffers { buffer: *buffer },
        }
    }
}

impl View for ComputeStep {
    type V = StepV;

    open spec fn view(&self) -> StepV {
        StepV {
            max_frequency: self.max_frequency,
            action: self.action@,
        }
    }
}

impl View for ComputeTask {
    type V = TaskV;

    open spec fn view(&self) -> TaskV {
        TaskV {
            label: match self.label {
                Some(l) => Some(l@),
                None => None,
            },
            iterations: self.iterations,
            steps: Seq::new(self.steps@.len(), |i: int| self.steps@[i]@),
        }
    }
}

impl TaskV {
    /// A usable task: a declared iteration bound or throttle is never zero.
    pub open spec fn wf(self) -> bool {
        &&& match self.iterations {
            Some(n) => n > 0,
            None => true,
        }
        &&& forall|i: int|
            0 <= i < self.steps.len() ==> match (#[trigger] self.steps[i]).max_frequency {
                Some(f) => f > 0,
                None => true,
            }
    }
}

} // verus!
