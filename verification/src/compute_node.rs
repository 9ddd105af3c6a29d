//! The per-tick task scheduler that runs in the render context.
//!
//! Each tick it considers only the active task's steps, skips steps whose
//! throttle period has not elapsed, turns the rest into GPU commands for
//! the host, performs double-buffer swaps on the registry, books readback
//! phase 1 into the staging manager, and advances the iteration counter —
//! emitting exactly one `GroupDone` message when a bounded task reaches its
//! iteration count. Readback phase 2 is commanded on the following tick, so
//! the mapping wait never races the copy.

use vstd::prelude::*;

use crate::compute_data_transmission::{ComputeMessage, MessageV};
use crate::compute_sequence::{ActionV, ComputeAction, ComputeTask, StepV, TaskV};
use crate::shader_buffer_set::{
    apply_swap, lookup_v, phase1_v, readback_valid, swap_valid, tex_copy_valid, CopyBufferEntry,
    RegV, ShaderBufferHandle, ShaderBufferRenderSet, ShaderBufferSet, ShaderBufferStorage,
};
use crate::ComputeGroupDoneEvent;

verus! {

/// GPU work the host must perform for one tick, in command order.
pub enum GpuCommand {
    /// Dispatch a compute shader with the given workgroup counts.
    Dispatch { shader: String, entry_point: String, x: u32, y: u32, z: u32 },
    /// Copy one texture onto another of identical extent.
    CopyTexture { src: ShaderBufferHandle, dst: ShaderBufferHandle },
    /// Phase 1 of a readback: copy the buffer into its staging allocation.
    CopyBufferToStaging { src: ShaderBufferHandle },
    /// Phase 2 of a readback: map the staging allocation, read the bytes,
    /// and hand them to `ShaderBufferRenderSet::readback_message`.
    ReadStaging { src: ShaderBufferHandle },
}

/// Spec-level mirror of `GpuCommand`.
pub enum CommandV {
    Dispatch { shader: Seq<char>, entry_point: Seq<char>, x: u32, y: u32, z: u32 },
    CopyTexture { src: ShaderBufferHandle, dst: ShaderBufferHandle },
    CopyBufferToStaging { src: ShaderBufferHandle },
    ReadStaging { src: ShaderBufferHandle },
}

impl View for GpuCommand {
    type V = CommandV;

    open spec fn view(&self) -> CommandV {
        match self {
            GpuCommand::Dispatch { shader, entry_point, x, y, z } => CommandV::Dispatch {
                shader: shader@,
                entry_point: entry_point@,
                x: *x,
                y: *y,
                z: *z,
            },
            GpuCommand::CopyTexture { src, dst } => CommandV::CopyTexture {
                src: *src,
                dst: *dst,
            },
            GpuCommand::CopyBufferToStaging { src } => CommandV::CopyBufferToStaging {
                src: *src,
            },
            GpuCommand::ReadStaging { src } => CommandV::ReadStaging { src: *src },
        }
    }
}

/// What one tick asks of the host: commands to run against the device, and
/// messages to push onto the cross-context channel, each in order.
pub struct TickOutput {
    pub commands: Vec<GpuCommand>,
    pub messages: Vec<ComputeMessage>,
}

/// Spec view of a command list.
pub open spec fn cmds_view(s: Seq<GpuCommand>) -> Seq<CommandV> {
    Seq::new(s.len(), |i: int| s[i]@)
}

/// Spec view of a message list.
pub open spec fn msgs_view(s: Seq<ComputeMessage>) -> Seq<MessageV> {
    Seq::new(s.len(), |i: int| s[i]@)
}

/// Mathematical state of the scheduler.
#[verifier::ext_equal]
pub struct NodeV {
    pub tasks: Seq<TaskV>,
    pub active_task: int,
    pub iteration: u32,
    pub task_start: u64,
    pub last_runs: Seq<Option<u64>>,
    pub pending: Seq<ShaderBufferHandle>,
    pub clock: u64,
}

impl NodeV {
    /// Cursor in range; tasks usable; the live per-step timestamps match the
    /// active task's steps and never lie in the future; a bounded active
    /// task has iterations left, an unbounded one keeps its counter at zero.
    pub open spec fn wf(self) -> bool {
        &&& 0 <= self.active_task <= self.tasks.len()
        &&& forall|t: int| 0 <= t < self.tasks.len() ==> (#[trigger] self.tasks[t]).wf()
        &&& self.active_task < self.tasks.len() ==> self.last_runs.len()
            == self.tasks[self.active_task].steps.len()
        &&& self.active_task < self.tasks.len() ==> match self.tasks[self.active_task].iterations {
            Some(n) => self.iteration < n,
            None => self.iteration == 0,
        }
        &&& self.task_start <= self.clock
        &&& forall|i: int|
            0 <= i < self.last_runs.len() ==> match #[trigger] self.last_runs[i] {
                Some(t) => t <= self.clock,
                None => true,
            }
    }
}

/// A step is due when it never ran, carries no throttle, or its waiting
/// time has reached the throttle period: with `max_frequency` F runs per
/// second and time in milliseconds, the step runs only when
/// `(now - last) * F >= 1000`.
pub open spec fn step_due(s: StepV, last: Option<u64>, now: u64) -> bool {
    match last {
        None => true,
        Some(t) => match s.max_frequency {
            None => true,
            Some(f) => (now - t) * f >= 1000,
        },
    }
}

/// The commands one action contributes when its step runs. Swaps issue no
/// GPU command: they are registry bookkeeping, visible to the device only
/// through the next tick's rebuilt bind groups.
pub open spec fn cmds_of_action(a: ActionV) -> Seq<CommandV> {
    match a {
        ActionV::RunShader { shader, entry_point, x, y, z } => seq![
            CommandV::Dispatch { shader, entry_point, x, y, z },
        ],
        ActionV::CopyTexture { src, dst } => seq![CommandV::CopyTexture { src, dst }],
        ActionV::CopyBuffer { src } => seq![CommandV::CopyBufferToStaging { src }],
        ActionV::SwapBuffers { .. } => Seq::empty(),
    }
}

/// Commands of the steps from position `i` on, throttled steps skipped.
pub open spec fn step_cmds_from(
    steps: Seq<StepV>,
    lasts: Seq<Option<u64>>,
    now: u64,
    i: int,
) -> Seq<CommandV>
    decreases steps.len() - i,
{
    if i < 0 || i >= steps.len() {
        Seq::empty()
    } else if step_due(steps[i], lasts[i], now) {
        cmds_of_action(steps[i].action) + step_cmds_from(steps, lasts, now, i + 1)
    } else {
        step_cmds_from(steps, lasts, now, i + 1)
    }
}

/// Handles of the due swap steps from position `i` on, in step order.
pub open spec fn swap_list_from(
    steps: Seq<StepV>,
    lasts: Seq<Option<u64>>,
    now: u64,
    i: int,
) -> Seq<ShaderBufferHandle>
    decreases steps.len() - i,
{
    if i < 0 || i >= steps.len() {
        Seq::empty()
    } else if step_due(steps[i], lasts[i], now) && steps[i].action matches ActionV::SwapBuffers {
        buffer,
    } {
        seq![steps[i].action->SwapBuffers_buffer] + swap_list_from(steps, lasts, now, i + 1)
    } else {
        swap_list_from(steps, lasts, now, i + 1)
    }
}

/// Sources of the due readback steps from position `i` on: the handles
/// whose phase 2 runs on the next tick.
pub open spec fn pending_from(
    steps: Seq<StepV>,
    lasts: Seq<Option<u64>>,
    now: u64,
    i: int,
) -> Seq<ShaderBufferHandle>
    decreases steps.len() - i,
{
    if i < 0 || i >= steps.len() {
        Seq::empty()
    } else if step_due(steps[i], lasts[i], now) && steps[i].action matches ActionV::CopyBuffer {
        src,
    } {
        seq![steps[i].action->CopyBuffer_src] + pending_from(steps, lasts, now, i + 1)
    } else {
        pending_from(steps, lasts, now, i + 1)
    }
}

/// The swap messages for a list of flipped handles, in order.
pub open spec fn swap_msgs(hs: Seq<ShaderBufferHandle>) -> Seq<MessageV> {
    Seq::new(hs.len(), |i: int| MessageV::SwapBuffers { buffer: hs[i] })
}

/// Per-step timestamps after the tick: each due step records `now`.
pub open spec fn new_lasts(steps: Seq<StepV>, lasts: Seq<Option<u64>>, now: u64) -> Seq<
    Option<u64>,
> {
    Seq::new(lasts.len(), |i: int| if step_due(steps[i], lasts[i], now) {
        Some(now)
    } else {
        lasts[i]
    })
}

/// The joint effect of the tick's due steps on the registry and the staging
/// pool, applied in step order: swaps flip allocations, readbacks book
/// phase 1 with the source's current byte size.
pub open spec fn tick_fold(
    r: RegV,
    s: Seq<CopyBufferEntry>,
    steps: Seq<StepV>,
    lasts: Seq<Option<u64>>,
    now: u64,
    i: int,
) -> (RegV, Seq<CopyBufferEntry>)
    decreases steps.len() - i,
{
    if i < 0 || i >= steps.len() {
        (r, s)
    } else if step_due(steps[i], lasts[i], now) {
        match steps[i].action {
            ActionV::SwapBuffers { buffer } => tick_fold(
                apply_swap(r, buffer),
                s,
                steps,
                lasts,
                now,
                i + 1,
            ),
            ActionV::CopyBuffer { src } => tick_fold(
                r,
                phase1_v(s, src, lookup_v(r, src)->Some_0.storage.byte_size()),
                steps,
                lasts,
                now,
                i + 1,
            ),
            _ => tick_fold(r, s, steps, lasts, now, i + 1),
        }
    } else {
        tick_fold(r, s, steps, lasts, now, i + 1)
    }
}

/// The active bounded task reaches its iteration count on this tick.
pub open spec fn completing(v: NodeV) -> bool {
    v.active_task < v.tasks.len() && match v.tasks[v.active_task].iterations {
        Some(n) => v.iteration + 1 >= n,
        None => false,
    }
}

/// The completion message a finishing task emits: its index, its label, the
/// simulated wall-clock time it was active, and whether it was the last
/// task of the pipeline.
pub open spec fn done_msg(v: NodeV, now: u64) -> MessageV {
    MessageV::GroupDone {
        group_finished: v.active_task,
        label: v.tasks[v.active_task].label,
        time_in_group: (now - v.task_start) as u64,
        final_group: v.active_task + 1 == v.tasks.len(),
    }
}

/// All messages one tick emits: one `SwapBuffers` per flipped handle in
/// step order, then the `GroupDone` if the task completes.
pub open spec fn sched_msgs(v: NodeV, now: u64) -> Seq<MessageV> {
    if v.active_task >= v.tasks.len() {
        Seq::empty()
    } else {
        swap_msgs(swap_list_from(v.tasks[v.active_task].steps, v.last_runs, now, 0)) + (
        if completing(v) {
            seq![done_msg(v, now)]
        } else {
            Seq::empty()
        })
    }
}

/// All commands one tick issues: first phase 2 of last tick's readbacks,
/// then the due steps' commands in step order.
pub open spec fn sched_cmds(v: NodeV, now: u64) -> Seq<CommandV> {
    if v.active_task >= v.tasks.len() {
        Seq::new(v.pending.len(), |i: int| CommandV::ReadStaging { src: v.pending[i] })
    } else {
        Seq::new(v.pending.len(), |i: int| CommandV::ReadStaging { src: v.pending[i] })
            + step_cmds_from(v.tasks[v.active_task].steps, v.last_runs, now, 0)
    }
}

/// The scheduler state after one tick: due steps stamp their run time, the
/// iteration counter of a bounded task advances, and a completed task hands
/// the cursor to the next task with fresh step timestamps. An unbounded
/// task never completes, so the cursor never moves past it. A finished
/// pipeline only hands out its still-pending readbacks and then rests.
pub open spec fn sched_next(v: NodeV, now: u64) -> NodeV {
    if v.active_task >= v.tasks.len() {
        NodeV { pending: Seq::empty(), ..v }
    } else {
        let steps = v.tasks[v.active_task].steps;
        let pend = pending_from(steps, v.last_runs, now, 0);
        if completing(v) {
            let next = v.active_task + 1;
            NodeV {
                tasks: v.tasks,
                active_task: next,
                iteration: 0,
                task_start: now,
                last_runs: if next < v.tasks.len() {
                    Seq::new(v.tasks[next].steps.len(), |i: int| None::<u64>)
                } else {
                    Seq::empty()
                },
                pending: pend,
                clock: now,
            }
        } else {
            NodeV {
                tasks: v.tasks,
                active_task: v.active_task,
                iteration: match v.tasks[v.active_task].iterations {
                    Some(_) => (v.iteration + 1) as u32,
                    None => v.iteration,
                },
                task_start: v.task_start,
                last_runs: new_lasts(steps, v.last_runs, now),
                pending: pend,
                clock: now,
            }
        }
    }
}

/// The scheduler states visited by ticking at the given times, folded to
/// the last one.
pub open spec fn run_ticks(v: NodeV, times: Seq<u64>) -> NodeV
    decreases times.len(),
{
    if times.len() == 0 {
        v
    } else {
        run_ticks(sched_next(v, times[0]), times.skip(1))
    }
}

/// The times form a tick schedule from the given clock on: nondecreasing
/// and never before the clock.
pub open spec fn times_mono(clock: u64, times: Seq<u64>) -> bool
    decreases times.len(),
{
    times.len() == 0 || (times[0] >= clock && times_mono(times[0], times.skip(1)))
}

/// How many `GroupDone` messages a message list holds.
pub open spec fn count_done(msgs: Seq<MessageV>) -> int
    decreases msgs.len(),
{
    if msgs.len() == 0 {
        0
    } else {
        (if msgs[0] is GroupDone {
            1int
        } else {
            0int
        }) + count_done(msgs.skip(1))
    }
}

/// How many `GroupDone` messages a whole run of ticks emits.
pub open spec fn count_done_in_run(v: NodeV, times: Seq<u64>) -> int
    decreases times.len(),
{
    if times.len() == 0 {
        0
    } else {
        count_done(sched_msgs(v, times[0])) + count_done_in_run(
            sched_next(v, times[0]),
            times.skip(1),
        )
    }
}

/// Swap messages are never completions.
proof fn lemma_count_done_swaps(hs: Seq<ShaderBufferHandle>)
    ensures
        count_done(swap_msgs(hs)) == 0,
    decreases hs.len(),
{
    if hs.len() == 0 {
    } else {
        lemma_count_done_swaps(hs.skip(1));
        assert(swap_msgs(hs).skip(1) =~= swap_msgs(hs.skip(1)));
    }
}

/// Appending one message adds its own count.
proof fn lemma_count_done_push(msgs: Seq<MessageV>, m: MessageV)
    ensures
        count_done(msgs.push(m)) == count_done(msgs) + (if m is GroupDone {
            1int
        } else {
            0int
        }),
    decreases msgs.len(),
{
    assert(msgs.push(m).len() == msgs.len() + 1);
    assert(count_done(msgs.push(m)) == (if msgs.push(m)[0] is GroupDone {
        1int
    } else {
        0int
    }) + count_done(msgs.push(m).skip(1)));
    if msgs.len() == 0 {
        assert(msgs.push(m).skip(1) =~= Seq::<MessageV>::empty());
        assert(msgs.push(m)[0] == m);
        assert(count_done(Seq::<MessageV>::empty()) == 0);
        assert(count_done(msgs) == 0);
    } else {
        lemma_count_done_push(msgs.skip(1), m);
        assert(msgs.push(m).skip(1) =~= msgs.skip(1).push(m));
        assert(msgs.push(m)[0] == msgs[0]);
        assert(count_done(msgs) == (if msgs[0] is GroupDone {
            1int
        } else {
            0int
        }) + count_done(msgs.skip(1)));
    }
}

/// One tick keeps the scheduler well-formed when time does not run
/// backwards.
pub proof fn lemma_sched_next_wf(v: NodeV, now: u64)
    requires
        v.wf(),
        now >= v.clock,
    ensures
        sched_next(v, now).wf(),
        sched_next(v, now).clock == if v.active_task < v.tasks.len() {
            now
        } else {
            v.clock
        },
        sched_next(v, now).tasks == v.tasks,
{
}

/// The count of a tick's messages: one completion when the task finishes,
/// none otherwise.
pub proof fn lemma_tick_done_count(v: NodeV, now: u64)
    requires
        v.active_task < v.tasks.len(),
    ensures
        count_done(sched_msgs(v, now)) == if completing(v) {
            1int
        } else {
            0int
        },
{
    let swaps = swap_list_from(v.tasks[v.active_task].steps, v.last_runs, now, 0);
    lemma_count_done_swaps(swaps);
    if completing(v) {
        assert(swap_msgs(swaps) + seq![done_msg(v, now)] =~= swap_msgs(swaps).push(
            done_msg(v, now),
        ));
        lemma_count_done_push(swap_msgs(swaps), done_msg(v, now));
    } else {
        assert(swap_msgs(swaps) + Seq::<MessageV>::empty() =~= swap_msgs(swaps));
    }
}

/// Law: a task with a finite iteration count N, entered with `iteration`
/// iterations already done, emits no completion for the first
/// N - iteration - 1 ticks it is active — however many of its steps the
/// throttle skipped — then exactly one `GroupDone` on its last tick, after
/// which the cursor stands on the next task. Over the whole run exactly one
/// completion is emitted.
pub proof fn lemma_task_done_after_exactly_n_ticks(v: NodeV, times: Seq<u64>)
    requires
        v.wf(),
        times_mono(v.clock, times),
        v.active_task < v.tasks.len(),
        v.tasks[v.active_task].iterations matches Some(n) && v.iteration + times.len() == n,
        times.len() >= 1,
    ensures
        count_done_in_run(v, times) == 1,
        count_done_in_run(v, times.take(times.len() - 1)) == 0,
        run_ticks(v, times.take(times.len() - 1)).active_task == v.active_task,
        run_ticks(v, times).active_task == v.active_task + 1,
        run_ticks(v, times).wf(),
    decreases times.len(),
{
    let v1 = sched_next(v, times[0]);
    lemma_sched_next_wf(v, times[0]);
    lemma_tick_done_count(v, times[0]);
    assert(count_done_in_run(v, times) == count_done(sched_msgs(v, times[0])) + count_done_in_run(
        v1,
        times.skip(1),
    ));
    if times.len() == 1 {
        assert(completing(v));
        assert(times.take(0) =~= Seq::<u64>::empty());
        assert(run_ticks(v, times) == run_ticks(v1, times.skip(1)));
        assert(times.skip(1) =~= Seq::<u64>::empty());
    } else {
        assert(!completing(v));
        assert(v1.active_task == v.active_task && v1.iteration == v.iteration + 1);
        lemma_task_done_after_exactly_n_ticks(v1, times.skip(1));
        let front = times.take(times.len() - 1);
        assert(front[0] == times[0]);
        assert(front.skip(1) =~= times.skip(1).take(times.skip(1).len() - 1));
        assert(count_done_in_run(v, front) == count_done(sched_msgs(v, front[0]))
            + count_done_in_run(sched_next(v, front[0]), front.skip(1)));
    }
}

/// Law: a step with `max_frequency` F that runs on the tick at `now1` while
/// its task stays active is skipped on any later tick at `now2` with
/// `(now2 - now1) * F < 1000` — it never runs twice within `1000/F`
/// milliseconds of simulated time.
pub proof fn lemma_throttle_respected(v: NodeV, now1: u64, now2: u64, j: int)
    requires
        v.wf(),
        now1 >= v.clock,
        now2 >= now1,
        v.active_task < v.tasks.len(),
        0 <= j < v.tasks[v.active_task].steps.len(),
        v.tasks[v.active_task].steps[j].max_frequency matches Some(f) && (now2 - now1) * f < 1000,
        step_due(v.tasks[v.active_task].steps[j], v.last_runs[j], now1),
        !completing(v),
    ensures
        sched_next(v, now1).active_task == v.active_task,
        sched_next(v, now1).last_runs[j] == Some(now1),
        !step_due(v.tasks[v.active_task].steps[j], sched_next(v, now1).last_runs[j], now2),
{
}

/// Law: a step without a throttle is due on every tick of its task.
pub proof fn lemma_unthrottled_runs_every_tick(v: NodeV, now: u64, j: int)
    requires
        v.active_task < v.tasks.len(),
        0 <= j < v.tasks[v.active_task].steps.len(),
        v.tasks[v.active_task].steps[j].max_frequency is None,
    ensures
        step_due(v.tasks[v.active_task].steps[j], v.last_runs[j], now),
{
}

/// Step commands never read staging: phase 2 is commanded only from the
/// pending list.
proof fn lemma_step_cmds_no_read(steps: Seq<StepV>, lasts: Seq<Option<u64>>, now: u64, i: int)
    ensures
        forall|k: int|
            0 <= k < step_cmds_from(steps, lasts, now, i).len() ==> !(step_cmds_from(
                steps,
                lasts,
                now,
                i,
            )[k] is ReadStaging),
    decreases steps.len() - i,
{
    if i < 0 || i >= steps.len() {
    } else {
        lemma_step_cmds_no_read(steps, lasts, now, i + 1);
        if step_due(steps[i], lasts[i], now) {
            let head = cmds_of_action(steps[i].action);
            let rest = step_cmds_from(steps, lasts, now, i + 1);
            assert forall|k: int|
                0 <= k < (head + rest).len() implies !((head + rest)[k] is ReadStaging) by {
                if k < head.len() {
                } else {
                    assert((head + rest)[k] == rest[k - head.len()]);
                }
            }
        }
    }
}

/// Law: readback is two-phase across ticks. A tick's `ReadStaging`
/// commands are exactly the previous tick's phase-1 issues, in order, and
/// stand before every step command; the new pending list is exactly this
/// tick's due `CopyBuffer` sources, whose staging read is commanded only on
/// the next tick. So the bytes a readback returns are those captured when
/// its own phase 1 ran, never a later write's.
pub proof fn lemma_readback_two_phase(v: NodeV, now: u64)
    requires
        v.wf(),
        v.active_task < v.tasks.len(),
    ensures
        sched_cmds(v, now).len() >= v.pending.len(),
        forall|i: int|
            0 <= i < v.pending.len() ==> sched_cmds(v, now)[i] == (CommandV::ReadStaging {
                src: v.pending[i],
            }),
        forall|i: int|
            v.pending.len() <= i < sched_cmds(v, now).len() ==> !(sched_cmds(v, now)[i]
                is ReadStaging),
        sched_next(v, now).pending == pending_from(
            v.tasks[v.active_task].steps,
            v.last_runs,
            now,
            0,
        ),
{
    let reads = Seq::new(v.pending.len(), |i: int| CommandV::ReadStaging { src: v.pending[i] });
    let rest = step_cmds_from(v.tasks[v.active_task].steps, v.last_runs, now, 0);
    lemma_step_cmds_no_read(v.tasks[v.active_task].steps, v.last_runs, now, 0);
    assert forall|i: int|
        v.pending.len() <= i < sched_cmds(v, now).len() implies !(sched_cmds(v, now)[i]
        is ReadStaging) by {
        assert((reads + rest)[i] == rest[i - reads.len()]);
    }
}

/// One action's handles are usable against the registry: copies name
/// textures of equal extent, readbacks name storage buffers, swaps name a
/// partnered resource.
pub open spec fn action_valid(r: RegV, a: ActionV) -> bool {
    match a {
        ActionV::RunShader { .. } => true,
        ActionV::CopyTexture { src, dst } => tex_copy_valid(r, src, dst),
        ActionV::CopyBuffer { src } => readback_valid(r, src),
        ActionV::SwapBuffers { buffer } => swap_valid(r, buffer),
    }
}

/// Every step of the task is usable against the registry.
pub open spec fn task_valid(r: RegV, t: TaskV) -> bool {
    forall|i: int| 0 <= i < t.steps.len() ==> action_valid(r, (#[trigger] t.steps[i]).action)
}

/// A swap leaves every action valid: it moves allocations, never bindings,
/// kinds, extents or partner links.
pub proof fn lemma_action_valid_after_swap(r: RegV, h: ShaderBufferHandle, a: ActionV)
    requires
        r.wf(),
        swap_valid(r, h),
        action_valid(r, a),
    ensures
        action_valid(apply_swap(r, h), a),
{
    match a {
        ActionV::RunShader { .. } => {},
        ActionV::CopyTexture { src, dst } => {
            crate::shader_buffer_set::lemma_swap_preserves_shape(r, h, src);
            crate::shader_buffer_set::lemma_swap_preserves_shape(r, h, dst);
        },
        ActionV::CopyBuffer { src } => {
            crate::shader_buffer_set::lemma_swap_preserves_shape(r, h, src);
        },
        ActionV::SwapBuffers { buffer } => {
            crate::shader_buffer_set::lemma_swap_preserves_shape(r, h, buffer);
        },
    }
}

/// Tests whether every step of a task can run against the registry, so a
/// host can reject a broken pipeline loudly before ticking: the scheduler
/// itself treats an unusable handle as a caller error and rules it out by
/// precondition.
pub fn task_valid_check(buffers: &ShaderBufferSet, task: &ComputeTask) -> (b: bool)
    ensures
        b == task_valid(buffers@, task@),
{
    let mut i: usize = 0;
    while i < task.steps.len()
        invariant
            i <= task.steps@.len(),
            forall|j: int|
                0 <= j < i ==> action_valid(buffers@, (#[trigger] task@.steps[j]).action),
        decreases task.steps@.len() - i,
    {
        let ok: bool = match &task.steps[i].action {
            ComputeAction::RunShader { .. } => true,
            ComputeAction::CopyTexture { src, dst } => {
                let sd = match buffers.lookup(*src) {
                    Some(e) => match e.storage {
                        ShaderBufferStorage::Texture { width, height } => Some((width, height)),
                        ShaderBufferStorage::StorageTexture { width, height } => Some(
                            (width, height),
                        ),
                        _ => None,
                    },
                    None => None,
                };
                let dd = match buffers.lookup(*dst) {
                    Some(e) => match e.storage {
                        ShaderBufferStorage::Texture { width, height } => Some((width, height)),
                        ShaderBufferStorage::StorageTexture { width, height } => Some(
                            (width, height),
                        ),
                        _ => None,
                    },
                    None => None,
                };
                match (sd, dd) {
                    (Some(a), Some(b)) => a.0 == b.0 && a.1 == b.1,
                    _ => false,
                }
            },
            ComputeAction::CopyBuffer { src } => match buffers.lookup(*src) {
                Some(e) => match e.storage {
                    ShaderBufferStorage::Storage { .. } => true,
                    _ => false,
                },
                None => false,
            },
            ComputeAction::SwapBuffers { buffer } => match buffers.lookup(*buffer) {
                Some(e) => e.partner.is_some(),
                None => false,
            },
        };
        proof {
            assert(task@.steps[i as int] == task.steps@[i as int]@);
            assert(ok == action_valid(buffers@, task@.steps[i as int].action));
        }
        if !ok {
            return false;
        }
        i = i + 1;
    }
    true
}

/// The live scheduler instance installed in the render context: the task
/// list, the cursor, the per-task iteration counter, the per-step last-run
/// stamps, last tick's readbacks awaiting phase 2, and the tick clock.
pub struct ComputeNode {
    tasks: Vec<ComputeTask>,
    active_task: usize,
    iteration: u32,
    task_start: u64,
    last_runs: Vec<Option<u64>>,
    pending: Vec<ShaderBufferHandle>,
    clock: u64,
}

impl View for ComputeNode {
    type V = NodeV;

    closed spec fn view(&self) -> NodeV {
        NodeV {
            tasks: Seq::new(self.tasks@.len(), |i: int| self.tasks@[i]@),
            active_task: self.active_task as int,
            iteration: self.iteration,
            task_start: self.task_start,
            last_runs: self.last_runs@,
            pending: self.pending@,
            clock: self.clock,
        }
    }
}

impl ComputeNode {
    /// Installs a fresh pipeline: the cursor on the first task, no
    /// iterations done, no step ever run, no readback pending.
    pub fn new(tasks: Vec<ComputeTask>, now: u64) -> (r: Self)
        requires
            forall|i: int| 0 <= i < tasks@.len() ==> (#[trigger] tasks@[i])@.wf(),
        ensures
            r@.tasks == Seq::new(tasks@.len(), |i: int| tasks@[i]@),
            r@.active_task == 0,
            r@.iteration == 0,
            r@.task_start == now,
            r@.clock == now,
            r@.pending == Seq::<ShaderBufferHandle>::empty(),
            r@.last_runs == if tasks@.len() > 0 {
                Seq::new(tasks@[0]@.steps.len(), |i: int| None::<u64>)
            } else {
                Seq::<Option<u64>>::empty()
            },
            r@.wf(),
    {
        let mut last_runs: Vec<Option<u64>> = Vec::new();
        if tasks.len() > 0 {
            let m = tasks[0].steps.len();
            let mut j: usize = 0;
            while j < m
                invariant
                    last_runs@ =~= Seq::new(j as nat, |i: int| None::<u64>),
                    j <= m,
                decreases m - j,
            {
                last_runs.push(None);
                proof {
                    assert(last_runs@ =~= Seq::new(j as nat + 1, |i: int| None::<u64>));
                }
                j = j + 1;
            }
        }
        let r = ComputeNode {
            tasks,
            active_task: 0,
            iteration: 0,
            task_start: now,
            last_runs,
            pending: Vec::new(),
            clock: now,
        };
        proof {
            if r.tasks@.len() > 0 {
                assert(r@.last_runs =~= Seq::new(r.tasks@[0]@.steps.len(), |i: int| None::<u64>));
            } else {
                assert(r@.last_runs =~= Seq::<Option<u64>>::empty());
            }
            assert(r@.pending =~= Seq::<ShaderBufferHandle>::empty());
        }
        r
    }

    /// The pipeline has run every bounded task to completion (never true
    /// while an unbounded task is active).
    pub fn is_finished(&self) -> (r: bool)
        ensures
            r == (self@.active_task >= self@.tasks.len()),
    {
        self.active_task >= self.tasks.len()
    }

    /// Runs one scheduler tick at simulated time `now` (milliseconds): due
    /// steps of the active task execute in declared order — swaps flip the
    /// registry at once, readbacks book staging phase 1 — and last tick's
    /// readbacks are commanded to phase 2 first. The returned commands and
    /// messages are exactly those of the specification transition, and the
    /// scheduler, registry and staging pool step to their specified
    /// successors.
    #[verifier::loop_isolation(false)]
    #[verifier::rlimit(60)]
    pub fn tick(
        &mut self,
        now: u64,
        buffers: &mut ShaderBufferSet,
        staging: &mut ShaderBufferRenderSet,
    ) -> (out: TickOutput)
        requires
            old(self)@.wf(),
            now >= old(self)@.clock,
            old(buffers)@.wf(),
            old(self)@.active_task < old(self)@.tasks.len() ==> task_valid(
                old(buffers)@,
                old(self)@.tasks[old(self)@.active_task],
            ),
        ensures
            final(self)@ == sched_next(old(self)@, now),
            final(self)@.wf(),
            cmds_view(out.commands@) == sched_cmds(old(self)@, now),
            msgs_view(out.messages@) == sched_msgs(old(self)@, now),
            final(buffers)@.wf(),
            ({
                let st = if old(self)@.active_task < old(self)@.tasks.len() {
                    tick_fold(
                        old(buffers)@,
                        old(staging)@,
                        old(self)@.tasks[old(self)@.active_task].steps,
                        old(self)@.last_runs,
                        now,
                        0,
                    )
                } else {
                    (old(buffers)@, old(staging)@)
                };
                final(buffers)@ == st.0 && final(staging)@ == st.1
            }),
    {
        let ghost v0 = self@;
        let ghost r0 = buffers@;
        let ghost s0 = staging@;
        if self.active_task >= self.tasks.len() {
            // A finished pipeline only drains the readbacks its last tick
            // issued; it never runs steps or emits messages again.
            let mut commands: Vec<GpuCommand> = Vec::new();
            let mut k: usize = 0;
            while k < self.pending.len()
                invariant
                    k <= self.pending.len(),
                    self.pending@ == v0.pending,
                    commands@.len() == k,
                    forall|j: int|
                        0 <= j < k ==> (#[trigger] commands@[j])@ == (CommandV::ReadStaging {
                            src: v0.pending[j],
                        }),
                decreases self.pending.len() - k,
            {
                commands.push(GpuCommand::ReadStaging { src: self.pending[k] });
                k = k + 1;
            }
            self.pending = Vec::new();
            let out = TickOutput { commands, messages: Vec::new() };
            proof {
                assert(cmds_view(out.commands@) =~= sched_cmds(v0, now));
                assert(msgs_view(out.messages@) =~= sched_msgs(v0, now));
                assert(self@.pending =~= Seq::<ShaderBufferHandle>::empty());
                assert(self@ =~~= sched_next(v0, now));
            }
            return out;
        }
        let ghost steps = v0.tasks[v0.active_task].steps;
        let ghost lasts0 = v0.last_runs;
        let active = self.active_task;
        let mut commands: Vec<GpuCommand> = Vec::new();
        let mut messages: Vec<ComputeMessage> = Vec::new();
        let mut k: usize = 0;
        while k < self.pending.len()
            invariant
                k <= self.pending.len(),
                commands@.len() == k,
                forall|j: int|
                    0 <= j < k ==> (#[trigger] commands@[j])@ == (CommandV::ReadStaging {
                        src: v0.pending[j],
                    }),
            decreases self.pending.len() - k,
        {
            commands.push(GpuCommand::ReadStaging { src: self.pending[k] });
            k = k + 1;
        }
        self.pending = Vec::new();
        proof {
            assert(cmds_view(commands@) =~= Seq::new(
                v0.pending.len(),
                |i: int| CommandV::ReadStaging { src: v0.pending[i] },
            ));
            assert(cmds_view(commands@) + step_cmds_from(steps, lasts0, now, 0) =~= sched_cmds(
                v0,
                now,
            ));
            assert(self.pending@ + pending_from(steps, lasts0, now, 0) =~= pending_from(
                steps,
                lasts0,
                now,
                0,
            ));
            assert(msgs_view(messages@) + swap_msgs(swap_list_from(steps, lasts0, now, 0))
                =~= swap_msgs(swap_list_from(steps, lasts0, now, 0)));
        }
        let nsteps = self.tasks[active].steps.len();
        let mut i: usize = 0;
        while i < nsteps
            invariant
                i <= nsteps,
                nsteps == steps.len(),
                self.tasks@ == old(self).tasks@,
                self.active_task == active,
                self.iteration == v0.iteration,
                self.task_start == v0.task_start,
                self.clock == v0.clock,
                self.last_runs@.len() == steps.len(),
                forall|j: int|
                    0 <= j < i ==> self.last_runs@[j] == (if step_due(steps[j], lasts0[j], now) {
                        Some(now)
                    } else {
                        lasts0[j]
                    }),
                forall|j: int| i <= j < steps.len() ==> self.last_runs@[j] == lasts0[j],
                self.pending@ + pending_from(steps, lasts0, now, i as int) == pending_from(
                    steps,
                    lasts0,
                    now,
                    0,
                ),
                cmds_view(commands@) + step_cmds_from(steps, lasts0, now, i as int) == sched_cmds(
                    v0,
                    now,
                ),
                msgs_view(messages@) + swap_msgs(swap_list_from(steps, lasts0, now, i as int))
                    == swap_msgs(swap_list_from(steps, lasts0, now, 0)),
                tick_fold(buffers@, staging@, steps, lasts0, now, i as int) == tick_fold(
                    r0,
                    s0,
                    steps,
                    lasts0,
                    now,
                    0,
                ),
                buffers@.wf(),
                task_valid(buffers@, v0.tasks[v0.active_task]),
            decreases nsteps - i,
        {
            let ghost cmds_pre = commands@;
            let ghost msgs_pre = messages@;
            let ghost pend_pre = self.pending@;
            let ghost rb_pre = buffers@;
            let ghost sg_pre = staging@;
            proof {
                assert(steps[i as int] == self.tasks@[active as int]@.steps[i as int]);
                assert(action_valid(buffers@, steps[i as int].action));
            }
            let due: bool = match self.last_runs[i] {
                None => true,
                Some(t) => match self.tasks[active].steps[i].max_frequency {
                    None => true,
                    Some(f) => {
                        let waited = now - t;
                        proof {
                            assert((waited as int) * (f as int) < 0x100000000000000000000000000000000)
                                by (nonlinear_arith)
                                requires
                                    0 <= waited as int <= 0xffffffffffffffff,
                                    0 <= f as int <= 0xffffffff,
                            ;
                        }
                        (waited as u128) * (f as u128) >= 1000
                    },
                },
            };
            proof {
                assert(due == step_due(steps[i as int], lasts0[i as int], now));
            }
            if due {
                self.last_runs[i] = Some(now);
                match &self.tasks[active].steps[i].action {
                    ComputeAction::RunShader {
                        shader,
                        entry_point,
                        x_workgroup_count,
                        y_workgroup_count,
                        z_workgroup_count,
                    } => {
                        commands.push(
                            GpuCommand::Dispatch {
                                shader: shader.clone(),
                                entry_point: entry_point.clone(),
                                x: *x_workgroup_count,
                                y: *y_workgroup_count,
                                z: *z_workgroup_count,
                            },
                        );
                        proof {
                            assert(cmds_view(commands@) =~= cmds_view(cmds_pre) + cmds_of_action(
                                steps[i as int].action,
                            ));
                        }
                    },
                    ComputeAction::CopyTexture { src, dst } => {
                        commands.push(GpuCommand::CopyTexture { src: *src, dst: *dst });
                        proof {
                            assert(cmds_view(commands@) =~= cmds_view(cmds_pre) + cmds_of_action(
                                steps[i as int].action,
                            ));
                        }
                    },
                    ComputeAction::CopyBuffer { src } => {
                        let src = *src;
                        staging.stage_phase1(src, buffers);
                        commands.push(GpuCommand::CopyBufferToStaging { src });
                        self.pending.push(src);
                        proof {
                            assert(cmds_view(commands@) =~= cmds_view(cmds_pre) + cmds_of_action(
                                steps[i as int].action,
                            ));
                        }
                    },
                    ComputeAction::SwapBuffers { buffer } => {
                        let buffer = *buffer;
                        buffers.swap_front_buffer(buffer);
                        messages.push(ComputeMessage::SwapBuffers(buffer));
                        proof {
                            assert forall|j: int|
                                0 <= j < v0.tasks[v0.active_task].steps.len() implies action_valid(
                                buffers@,
                                (#[trigger] v0.tasks[v0.active_task].steps[j]).action,
                            ) by {
                                lemma_action_valid_after_swap(
                                    rb_pre,
                                    buffer,
                                    v0.tasks[v0.active_task].steps[j].action,
                                );
                            }
                            assert(msgs_view(messages@) =~= msgs_view(msgs_pre) + seq![
                                MessageV::SwapBuffers { buffer },
                            ]);
                        }
                    },
                }
            }
            proof {
                let ii = i as int;
                assert(step_cmds_from(steps, lasts0, now, ii) == (if step_due(
                    steps[ii],
                    lasts0[ii],
                    now,
                ) {
                    cmds_of_action(steps[ii].action)
                } else {
                    Seq::<CommandV>::empty()
                }) + step_cmds_from(steps, lasts0, now, ii + 1));
                if due {
                    assert((cmds_view(cmds_pre) + cmds_of_action(steps[ii].action))
                        + step_cmds_from(steps, lasts0, now, ii + 1) =~= cmds_view(cmds_pre) + (
                    cmds_of_action(steps[ii].action) + step_cmds_from(steps, lasts0, now, ii + 1)));
                    match steps[ii].action {
                        ActionV::SwapBuffers { buffer } => {
                            assert(swap_list_from(steps, lasts0, now, ii) == seq![buffer]
                                + swap_list_from(steps, lasts0, now, ii + 1));
                            assert(swap_msgs(seq![buffer] + swap_list_from(steps, lasts0, now, ii + 1))
                                =~= seq![MessageV::SwapBuffers { buffer }] + swap_msgs(
                                swap_list_from(steps, lasts0, now, ii + 1),
                            ));
                            assert((msgs_view(msgs_pre) + seq![MessageV::SwapBuffers { buffer }])
                                + swap_msgs(swap_list_from(steps, lasts0, now, ii + 1)) =~= msgs_view(
                                msgs_pre,
                            ) + (seq![MessageV::SwapBuffers { buffer }] + swap_msgs(
                                swap_list_from(steps, lasts0, now, ii + 1),
                            )));
                        },
                        ActionV::CopyBuffer { src } => {
                            assert(pending_from(steps, lasts0, now, ii) == seq![src]
                                + pending_from(steps, lasts0, now, ii + 1));
                            assert((pend_pre.push(src)) + pending_from(steps, lasts0, now, ii + 1)
                                =~= pend_pre + (seq![src] + pending_from(
                                steps,
                                lasts0,
                                now,
                                ii + 1,
                            )));
                        },
                        _ => {},
                    }
                } else {
                    assert(cmds_view(commands@) =~= cmds_view(cmds_pre));
                    assert(msgs_view(messages@) =~= msgs_view(msgs_pre));
                }
            }
            i = i + 1;
        }
        let ghost mid_lasts = self.last_runs@;
        proof {
            assert(mid_lasts =~= new_lasts(steps, lasts0, now));
            assert(self.pending@ + pending_from(steps, lasts0, now, nsteps as int)
                =~= self.pending@);
            assert(self.pending@ =~= pending_from(steps, lasts0, now, 0));
            assert(cmds_view(commands@) + step_cmds_from(steps, lasts0, now, nsteps as int)
                =~= cmds_view(commands@));
            assert(cmds_view(commands@) =~= sched_cmds(v0, now));
            assert(msgs_view(messages@) + swap_msgs(swap_list_from(steps, lasts0, now, nsteps as int))
                =~= msgs_view(messages@));
            assert(msgs_view(messages@) =~= swap_msgs(swap_list_from(steps, lasts0, now, 0)));
        }
        let completes: bool = match self.tasks[active].iterations {
            Some(n) => self.iteration + 1 >= n,
            None => false,
        };
        proof {
            assert(completes == completing(v0));
        }
        if completes {
            let label = match &self.tasks[active].label {
                Some(l) => Some(l.clone()),
                None => None,
            };
            let elapsed = now - self.task_start;
            let is_final = active + 1 == self.tasks.len();
            messages.push(
                ComputeMessage::GroupDone(
                    ComputeGroupDoneEvent {
                        group_finished: active,
                        group_finished_label: label,
                        time_in_group: elapsed,
                        final_group: is_final,
                    },
                ),
            );
            proof {
                assert(msgs_view(messages@) =~= sched_msgs(v0, now));
            }
            self.active_task = active + 1;
            self.iteration = 0;
            self.task_start = now;
            self.last_runs = Vec::new();
            if self.active_task < self.tasks.len() {
                let m = self.tasks[self.active_task].steps.len();
                let mut j: usize = 0;
                while j < m
                    invariant
                        j <= m,
                        self.active_task == active + 1,
                        self.tasks@ == old(self).tasks@,
                        (active + 1) < self.tasks@.len(),
                        m == v0.tasks[active + 1].steps.len(),
                        self.last_runs@ =~= Seq::new(j as nat, |x: int| None::<u64>),
                        self.iteration == 0,
                        self.task_start == now,
                        self.clock == v0.clock,
                        self.pending@ == pending_from(steps, lasts0, now, 0),
                    decreases m - j,
                {
                    self.last_runs.push(None);
                    proof {
                        assert(self.last_runs@ =~= Seq::new(j as nat + 1, |x: int| None::<u64>));
                    }
                    j = j + 1;
                }
            }
        } else {
            match self.tasks[active].iterations {
                Some(_) => {
                    self.iteration = self.iteration + 1;
                },
                None => {},
            }
            proof {
                assert(msgs_view(messages@) =~= sched_msgs(v0, now));
            }
        }
        self.clock = now;
        proof {
            let t = sched_next(v0, now);
            assert(self@.tasks =~= t.tasks);
            assert(self@.last_runs =~= t.last_runs);
            assert(self@.pending =~= t.pending);
            assert(self@.active_task == t.active_task);
            assert(self@.iteration == t.iteration);
            assert(self@.task_start == t.task_start);
            assert(self@.clock == t.clock);
            assert(self@ =~~= t);
            assert(cmds_view(commands@) == sched_cmds(v0, now));
        }
        TickOutput { commands, messages }
    }
}

} // verus!
