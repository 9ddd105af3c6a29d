use gpu_compute::compute_data_transmission::{ComputeDataTransmission, ComputeMessage};
use gpu_compute::compute_main_setup::compute_main_setup;
use gpu_compute::compute_node::{task_valid_check, ComputeNode, GpuCommand, TickOutput};
use gpu_compute::compute_sequence::{ComputeAction, ComputeSequence, ComputeStep, ComputeTask};
use gpu_compute::parse_render_messages::parse_render_messages;
use gpu_compute::shader_buffer_set::{
    ShaderBufferHandle, ShaderBufferRenderSet, ShaderBufferSet,
};
use gpu_compute::{ComputeGroupDoneEvent, StartComputeEvent};

fn shader_step(freq: Option<u32>) -> ComputeStep {
    ComputeStep {
        max_frequency: freq,
        action: ComputeAction::RunShader {
            shader: String::from("life.wgsl"),
            entry_point: String::from("main"),
            x_workgroup_count: 8,
            y_workgroup_count: 8,
            z_workgroup_count: 1,
        },
    }
}

fn dones(out: &TickOutput) -> Vec<ComputeGroupDoneEvent> {
    out.messages
        .iter()
        .filter_map(|m| match m {
            ComputeMessage::GroupDone(e) => Some(ComputeGroupDoneEvent {
                group_finished: e.group_finished,
                group_finished_label: e.group_finished_label.clone(),
                time_in_group: e.time_in_group,
                final_group: e.final_group,
            }),
            _ => None,
        })
        .collect()
}

fn dispatch_count(out: &TickOutput) -> usize {
    out.commands
        .iter()
        .filter(|c| matches!(c, GpuCommand::Dispatch { .. }))
        .count()
}

#[test]
fn bounded_task_emits_one_done_after_exactly_n_ticks() {
    let mut buffers = ShaderBufferSet::new();
    let mut staging = ShaderBufferRenderSet::new();
    let task = ComputeTask {
        label: Some(String::from("warmup")),
        iterations: Some(3),
        steps: vec![shader_step(None)],
    };
    let mut node = ComputeNode::new(vec![task], 0);
    let mut all_dones = Vec::new();
    for t in 0..3u64 {
        let out = node.tick(t * 10, &mut buffers, &mut staging);
        assert_eq!(dispatch_count(&out), 1);
        all_dones.extend(dones(&out));
        if t < 2 {
            assert!(all_dones.is_empty());
            assert!(!node.is_finished());
        }
    }
    // Exactly one completion, on the third tick of being active.
    assert_eq!(all_dones.len(), 1);
    assert_eq!(all_dones[0].group_finished, 0);
    assert_eq!(all_dones[0].group_finished_label.as_deref(), Some("warmup"));
    assert_eq!(all_dones[0].time_in_group, 20);
    assert!(all_dones[0].final_group);
    assert!(node.is_finished());
    // A finished pipeline stays silent.
    let out = node.tick(100, &mut buffers, &mut staging);
    assert!(out.commands.is_empty() && out.messages.is_empty());
}

#[test]
fn throttled_step_skips_ticks_unthrottled_runs_every_tick() {
    let mut buffers = ShaderBufferSet::new();
    let mut staging = ShaderBufferRenderSet::new();
    // One step at 10 Hz (period 100 ms) next to an unthrottled one.
    let task = ComputeTask {
        label: None,
        iterations: None,
        steps: vec![shader_step(Some(10)), shader_step(None)],
    };
    let mut node = ComputeNode::new(vec![task], 0);
    let mut throttled_runs = Vec::new();
    for t in [0u64, 40, 80, 100, 140, 200] {
        let out = node.tick(t, &mut buffers, &mut staging);
        let n = dispatch_count(&out);
        // The unthrottled step runs on every tick.
        assert!(n >= 1);
        if n == 2 {
            throttled_runs.push(t);
        }
        assert!(dones(&out).is_empty());
    }
    // Never twice within 100 ms of simulated time: first run at 0, then
    // only once the full period elapsed since the previous run.
    assert_eq!(throttled_runs, vec![0, 100, 200]);
}

#[test]
fn two_task_pipeline_init_then_throttled_update() {
    let mut buffers = ShaderBufferSet::new();
    let mut staging = ShaderBufferRenderSet::new();
    let init = ComputeTask {
        label: Some(String::from("Init")),
        iterations: Some(1),
        steps: vec![shader_step(None)],
    };
    let update = ComputeTask {
        label: Some(String::from("Update")),
        iterations: None,
        steps: vec![shader_step(Some(10))],
    };
    let mut node = ComputeNode::new(vec![init, update], 0);

    // Tick 1: Init runs once and completes; it is not the final task.
    let out = node.tick(0, &mut buffers, &mut staging);
    assert_eq!(dispatch_count(&out), 1);
    let d = dones(&out);
    assert_eq!(d.len(), 1);
    assert_eq!(d[0].group_finished, 0);
    assert_eq!(d[0].group_finished_label.as_deref(), Some("Init"));
    assert!(!d[0].final_group);
    assert!(!node.is_finished());

    // Update runs indefinitely, at most once per 100 ms, with no second
    // completion ever.
    let mut update_runs = Vec::new();
    for t in [10u64, 60, 110, 150, 210, 320, 400, 410] {
        let out = node.tick(t, &mut buffers, &mut staging);
        assert!(dones(&out).is_empty());
        if dispatch_count(&out) == 1 {
            update_runs.push(t);
        }
    }
    assert_eq!(update_runs, vec![10, 110, 210, 320]);
    for w in update_runs.windows(2) {
        assert!(w[1] - w[0] >= 100);
    }
    assert!(!node.is_finished());
}

#[test]
fn swap_step_flips_registry_and_reports() {
    let mut buffers = ShaderBufferSet::new();
    let mut staging = ShaderBufferRenderSet::new();
    let (front, back) = buffers.add_read_write_texture(4, 4, Some((0, 0)), Some((0, 1)));
    let front_alloc = buffers.image_handle(front).unwrap();
    let back_alloc = buffers.image_handle(back).unwrap();
    let task = ComputeTask {
        label: None,
        iterations: Some(1),
        steps: vec![ComputeStep {
            max_frequency: None,
            action: ComputeAction::SwapBuffers { buffer: front },
        }],
    };
    let mut node = ComputeNode::new(vec![task], 0);
    let out = node.tick(5, &mut buffers, &mut staging);
    // The render-side registry flipped at once...
    assert_eq!(buffers.image_handle(front), Some(back_alloc));
    assert_eq!(buffers.image_handle(back), Some(front_alloc));
    // ...and the logic side is told to flip its own copy.
    let swaps: Vec<ShaderBufferHandle> = out
        .messages
        .iter()
        .filter_map(|m| match m {
            ComputeMessage::SwapBuffers(h) => Some(*h),
            _ => None,
        })
        .collect();
    assert_eq!(swaps, vec![front]);
}

/// A stand-in for the GPU device: plain byte arrays per allocation, a
/// staging array per readback source, executed command by command.
struct SimDevice {
    allocations: Vec<(u32, Vec<u8>)>,
    staging: Vec<(ShaderBufferHandle, Vec<u8>)>,
}

impl SimDevice {
    fn write(&mut self, alloc: u32, bytes: Vec<u8>) {
        for slot in self.allocations.iter_mut() {
            if slot.0 == alloc {
                slot.1 = bytes;
                return;
            }
        }
        self.allocations.push((alloc, bytes));
    }

    fn read(&self, alloc: u32) -> Vec<u8> {
        for slot in self.allocations.iter() {
            if slot.0 == alloc {
                return slot.1.clone();
            }
        }
        Vec::new()
    }

    fn run(
        &mut self,
        out: TickOutput,
        buffers: &ShaderBufferSet,
        staging: &ShaderBufferRenderSet,
        chan: &mut ComputeDataTransmission,
    ) {
        for c in out.commands.iter() {
            match c {
                GpuCommand::Dispatch { .. } => {},
                GpuCommand::CopyTexture { src, dst } => {
                    let s = buffers.lookup(*src).unwrap().alloc;
                    let d = buffers.lookup(*dst).unwrap().alloc;
                    let bytes = self.read(s);
                    self.write(d, bytes);
                },
                GpuCommand::CopyBufferToStaging { src } => {
                    let alloc = buffers.lookup(*src).unwrap().alloc;
                    let bytes = self.read(alloc);
                    let mut found = false;
                    for slot in self.staging.iter_mut() {
                        if slot.0 == *src {
                            slot.1 = bytes.clone();
                            found = true;
                        }
                    }
                    if !found {
                        self.staging.push((*src, bytes));
                    }
                },
                GpuCommand::ReadStaging { src } => {
                    let mut bytes = Vec::new();
                    for slot in self.staging.iter() {
                        if slot.0 == *src {
                            bytes = slot.1.clone();
                        }
                    }
                    let msg = staging.readback_message(*src, bytes);
                    assert!(chan.send(msg));
                },
            }
        }
        for m in out.messages {
            assert!(chan.send(m));
        }
    }
}

#[test]
fn readback_returns_bytes_from_the_tick_phase_one_ran() {
    let mut buffers = ShaderBufferSet::new();
    let mut staging = ShaderBufferRenderSet::new();
    let mut chan = ComputeDataTransmission::new(16);
    let src = buffers.add_storage_uninit(4, None, false);
    let src_alloc = buffers.lookup(src).unwrap().alloc;
    let mut device = SimDevice { allocations: Vec::new(), staging: Vec::new() };
    device.write(src_alloc, vec![10, 20, 30, 40]);

    let task = ComputeTask {
        label: None,
        iterations: Some(2),
        steps: vec![ComputeStep {
            max_frequency: Some(1000),
            action: ComputeAction::CopyBuffer { src },
        }],
    };
    let mut node = ComputeNode::new(vec![task], 0);

    // Tick 1: phase 1 copies the current contents into staging.
    let out = node.tick(0, &mut buffers, &mut staging);
    assert!(matches!(out.commands[..], [GpuCommand::CopyBufferToStaging { .. }]));
    device.run(out, &buffers, &staging, &mut chan);

    // The source is overwritten after phase 1 ran.
    device.write(src_alloc, vec![9, 9, 9, 9]);

    // Tick 2: phase 2 reads staging; the step itself is throttled out.
    let out = node.tick(1, &mut buffers, &mut staging);
    assert!(matches!(out.commands[0], GpuCommand::ReadStaging { .. }));
    device.run(out, &buffers, &staging, &mut chan);

    // The delivered bytes are those captured when phase 1 ran, not the
    // later write.
    let mut got = None;
    while let Some(m) = chan.try_receive() {
        if let ComputeMessage::CopyBuffer(e) = m {
            got = Some((e.buffer, e.data));
        }
    }
    let (h, data) = got.expect("readback event expected");
    assert_eq!(h, src);
    assert_eq!(data, vec![10, 20, 30, 40]);
}

#[test]
fn second_start_request_is_rejected_and_first_unaffected() {
    let mut active: Option<ComputeSequence> = None;
    let first = StartComputeEvent {
        tasks: vec![ComputeTask {
            label: Some(String::from("first")),
            iterations: Some(5),
            steps: vec![shader_step(None)],
        }],
        iteration_buffer: None,
    };
    assert!(compute_main_setup(&mut active, first));
    let second = StartComputeEvent {
        tasks: vec![ComputeTask { label: None, iterations: None, steps: Vec::new() }],
        iteration_buffer: Some(ShaderBufferHandle::Unbound { id: 7 }),
    };
    // Rejected: exactly one pipeline may exist at a time.
    assert!(!compute_main_setup(&mut active, second));
    let kept = active.as_ref().unwrap();
    assert_eq!(kept.tasks.len(), 1);
    assert_eq!(kept.tasks[0].label.as_deref(), Some("first"));
    assert_eq!(kept.tasks[0].iterations, Some(5));
    assert!(kept.iteration_buffer.is_none());
}

#[test]
fn drain_preserves_order_and_applies_swaps() {
    let mut buffers = ShaderBufferSet::new();
    let (front, _back) = buffers.add_read_write_texture(4, 4, None, None);
    let front_alloc = buffers.image_handle(front).unwrap();
    let mut chan = ComputeDataTransmission::new(16);
    assert!(chan.send(ComputeMessage::CopyBuffer(gpu_compute::CopyBufferEvent {
        buffer: ShaderBufferHandle::Unbound { id: 42 },
        data: vec![1],
    })));
    assert!(chan.send(ComputeMessage::GroupDone(ComputeGroupDoneEvent {
        group_finished: 0,
        group_finished_label: None,
        time_in_group: 3,
        final_group: false,
    })));
    assert!(chan.send(ComputeMessage::SwapBuffers(front)));
    assert!(chan.send(ComputeMessage::CopyBuffer(gpu_compute::CopyBufferEvent {
        buffer: ShaderBufferHandle::Unbound { id: 43 },
        data: vec![2],
    })));
    let (copies, group_dones) = parse_render_messages(&mut buffers, &mut chan);
    assert_eq!(chan.len(), 0);
    let copy_ids: Vec<u32> = copies
        .iter()
        .map(|e| match e.buffer {
            ShaderBufferHandle::Unbound { id } => id,
            ShaderBufferHandle::Bound { id, .. } => id,
        })
        .collect();
    assert_eq!(copy_ids, vec![42, 43]);
    assert_eq!(group_dones.len(), 1);
    assert_eq!(group_dones[0].time_in_group, 3);
    // The swap message flipped the logic-side registry.
    assert_ne!(buffers.image_handle(front), Some(front_alloc));
}

#[test]
fn copy_texture_step_copies_between_equal_textures() {
    let mut buffers = ShaderBufferSet::new();
    let mut staging = ShaderBufferRenderSet::new();
    let mut chan = ComputeDataTransmission::new(16);
    let src = buffers.add_write_texture(2, 2, Some((0, 0)));
    let dst = buffers.add_write_texture(2, 2, Some((0, 1)));
    let src_alloc = buffers.lookup(src).unwrap().alloc;
    let dst_alloc = buffers.lookup(dst).unwrap().alloc;
    let mut device = SimDevice { allocations: Vec::new(), staging: Vec::new() };
    device.write(src_alloc, vec![7; 16]);
    device.write(dst_alloc, vec![0; 16]);
    let task = ComputeTask {
        label: None,
        iterations: Some(1),
        steps: vec![ComputeStep {
            max_frequency: None,
            action: ComputeAction::CopyTexture { src, dst },
        }],
    };
    let mut node = ComputeNode::new(vec![task], 0);
    let out = node.tick(0, &mut buffers, &mut staging);
    assert!(matches!(out.commands[..], [GpuCommand::CopyTexture { .. }]));
    device.run(out, &buffers, &staging, &mut chan);
    assert_eq!(device.read(dst_alloc), vec![7; 16]);
}

#[test]
fn task_valid_check_rejects_unusable_handles() {
    let mut buffers = ShaderBufferSet::new();
    let small = buffers.add_write_texture(2, 2, None);
    let large = buffers.add_write_texture(4, 4, None);
    let buffer = buffers.add_storage_uninit(8, None, false);
    let ok_task = ComputeTask {
        label: None,
        iterations: Some(1),
        steps: vec![ComputeStep {
            max_frequency: None,
            action: ComputeAction::CopyBuffer { src: buffer },
        }],
    };
    assert!(task_valid_check(&buffers, &ok_task));
    // Mismatched extents make a texture copy unusable.
    let bad_copy = ComputeTask {
        label: None,
        iterations: Some(1),
        steps: vec![ComputeStep {
            max_frequency: None,
            action: ComputeAction::CopyTexture { src: small, dst: large },
        }],
    };
    assert!(!task_valid_check(&buffers, &bad_copy));
    // A swap needs a partnered resource; a lone texture has none.
    let bad_swap = ComputeTask {
        label: None,
        iterations: Some(1),
        steps: vec![ComputeStep {
            max_frequency: None,
            action: ComputeAction::SwapBuffers { buffer: small },
        }],
    };
    assert!(!task_valid_check(&buffers, &bad_swap));
    // Reading back a texture is unusable: only storage buffers stage.
    let bad_readback = ComputeTask {
        label: None,
        iterations: Some(1),
        steps: vec![ComputeStep {
            max_frequency: None,
            action: ComputeAction::CopyBuffer { src: small },
        }],
    };
    assert!(!task_valid_check(&buffers, &bad_readback));
}

#[test]
fn repeated_readback_interleaves_phases_across_ticks() {
    let mut buffers = ShaderBufferSet::new();
    let mut staging = ShaderBufferRenderSet::new();
    let mut chan = ComputeDataTransmission::new(16);
    let src = buffers.add_storage_uninit(1, None, false);
    let src_alloc = buffers.lookup(src).unwrap().alloc;
    let mut device = SimDevice { allocations: Vec::new(), staging: Vec::new() };
    let task = ComputeTask {
        label: None,
        iterations: Some(3),
        steps: vec![ComputeStep {
            max_frequency: None,
            action: ComputeAction::CopyBuffer { src },
        }],
    };
    let mut node = ComputeNode::new(vec![task], 0);
    let mut delivered = Vec::new();
    for t in 0..4u64 {
        device.write(src_alloc, vec![t as u8]);
        let out = node.tick(t, &mut buffers, &mut staging);
        device.run(out, &buffers, &staging, &mut chan);
        while let Some(m) = chan.try_receive() {
            if let ComputeMessage::CopyBuffer(e) = m {
                delivered.push(e.data[0]);
            }
        }
    }
    // Each tick's phase 2 delivers the snapshot its own phase 1 captured on
    // the previous tick, in order.
    assert_eq!(delivered, vec![0, 1, 2]);
}
