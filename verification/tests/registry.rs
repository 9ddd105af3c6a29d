use gpu_compute::compute_data_transmission::{ComputeDataTransmission, ComputeMessage};
use gpu_compute::shader_buffer_set::{
    BindingKind, ShaderBufferHandle, ShaderBufferRenderSet, ShaderBufferSet, ShaderBufferStorage,
};
use gpu_compute::CopyBufferEvent;

fn handle_id(h: ShaderBufferHandle) -> u32 {
    match h {
        ShaderBufferHandle::Bound { id, .. } => id,
        ShaderBufferHandle::Unbound { id } => id,
    }
}

#[test]
fn handle_ids_unique_and_monotonic() {
    let mut set = ShaderBufferSet::new();
    let a = set.add_storage_uninit(16, Some((0, 0)), false);
    let b = set.add_storage_zeroed(32, None, true);
    let c = set.add_uniform_init(8, Some((0, 1)));
    let (d, e) = set.add_read_write_texture(4, 4, Some((1, 0)), Some((1, 1)));
    let ids = vec![handle_id(a), handle_id(b), handle_id(c), handle_id(d), handle_id(e)];
    assert_eq!(ids, vec![0, 1, 2, 3, 4]);
    for i in 0..ids.len() {
        for j in 0..ids.len() {
            if i != j {
                assert_ne!(ids[i], ids[j]);
            }
        }
    }
    // Freeing never recycles an id: the counter is shared and only grows.
    let removed = set.delete_buffer(b);
    assert!(removed.is_some());
    let f = set.add_storage_uninit(64, None, false);
    assert_eq!(handle_id(f), 5);
    assert!(set.lookup(b).is_none());
    assert!(set.lookup(f).is_some());
}

#[test]
fn lookup_and_kind_checks() {
    let mut set = ShaderBufferSet::new();
    let buf = set.add_storage_init(24, Some((0, 0)), true);
    let tex = set.add_write_texture(8, 6, Some((0, 1)));
    let info = set.lookup(buf).unwrap();
    match info.storage {
        ShaderBufferStorage::Storage { readonly, size } => {
            assert!(readonly);
            assert_eq!(size, 24);
        },
        _ => panic!("storage buffer expected"),
    }
    // set_buffer validates the write target and hands back alloc and size.
    let (alloc, size) = set.set_buffer(buf);
    assert_eq!(alloc, handle_id(buf));
    assert_eq!(size, 24);
    // image_handle answers only for textures.
    assert_eq!(set.image_handle(tex), Some(handle_id(tex)));
    assert_eq!(set.image_handle(buf), None);
    // Unknown handles resolve to nothing.
    let ghost_handle = ShaderBufferHandle::Unbound { id: 999 };
    assert!(set.lookup(ghost_handle).is_none());
    assert_eq!(set.image_handle(ghost_handle), None);
}

#[test]
fn layout_shapes_follow_storage_kinds() {
    let mut set = ShaderBufferSet::new();
    set.add_storage_uninit(16, Some((0, 0)), true);
    set.add_storage_uninit(16, Some((0, 1)), false);
    set.add_uniform_init(4, Some((0, 2)));
    set.add_read_write_texture(2, 2, Some((0, 3)), Some((0, 4)));
    set.add_storage_uninit(16, None, false);
    let layout = set.layout_for_group(0);
    let kinds: Vec<BindingKind> = layout.iter().map(|d| d.kind).collect();
    assert_eq!(
        kinds,
        vec![
            BindingKind::StorageReadOnly,
            BindingKind::StorageReadWrite,
            BindingKind::Uniform,
            BindingKind::SampledTexture,
            BindingKind::WriteStorageTexture,
        ]
    );
    let bindings: Vec<u32> = layout.iter().map(|d| d.binding).collect();
    assert_eq!(bindings, vec![0, 1, 2, 3, 4]);
    // The unbound resource contributes to no group layout.
    let all = set.bind_group_layouts();
    assert_eq!(all.len(), 1);
    assert_eq!(all[0].len(), 5);
}

#[test]
fn swap_twice_restores_registry() {
    let mut set = ShaderBufferSet::new();
    let unrelated = set.add_storage_uninit(16, Some((0, 0)), false);
    let (front, back) = set.add_read_write_texture(4, 4, Some((0, 1)), Some((0, 2)));
    let original_layout = set.bind_group_layouts();
    let front_alloc = set.image_handle(front).unwrap();
    let back_alloc = set.image_handle(back).unwrap();
    assert_ne!(front_alloc, back_alloc);

    set.swap_front_buffer(front);
    // The pair exchanged backing allocations; roles and bindings stayed put.
    assert_eq!(set.image_handle(front), Some(back_alloc));
    assert_eq!(set.image_handle(back), Some(front_alloc));
    let swapped_layout = set.bind_group_layouts();
    assert_eq!(swapped_layout[0][1].kind, BindingKind::SampledTexture);
    assert_eq!(swapped_layout[0][2].kind, BindingKind::WriteStorageTexture);
    // Unrelated bindings are untouched by a swap.
    assert_eq!(swapped_layout[0][0], original_layout[0][0]);
    assert_eq!(set.lookup(unrelated).unwrap().alloc, handle_id(unrelated));

    set.swap_front_buffer(front);
    // Swapping is its own inverse: the full bind-group content is restored.
    assert_eq!(set.image_handle(front), Some(front_alloc));
    assert_eq!(set.image_handle(back), Some(back_alloc));
    assert_eq!(set.bind_group_layouts(), original_layout);
}

#[test]
fn set_texture_access_flips_role_only() {
    let mut set = ShaderBufferSet::new();
    let tex = set.add_write_texture(8, 8, Some((0, 0)));
    set.set_texture_access(tex, true);
    let info = set.lookup(tex).unwrap();
    match info.storage {
        ShaderBufferStorage::Texture { width, height } => {
            assert_eq!((width, height), (8, 8));
        },
        _ => panic!("sampled texture expected"),
    }
    set.set_texture_access(tex, false);
    match set.lookup(tex).unwrap().storage {
        ShaderBufferStorage::StorageTexture { width, height } => {
            assert_eq!((width, height), (8, 8));
        },
        _ => panic!("storage texture expected"),
    }
}

#[test]
fn delete_unpairs_partner() {
    let mut set = ShaderBufferSet::new();
    let (front, back) = set.add_read_write_texture(4, 4, None, None);
    let removed = set.delete_buffer(front).unwrap();
    assert_eq!(removed.partner, Some(handle_id(back)));
    let back_info = set.lookup(back).unwrap();
    assert_eq!(back_info.partner, None);
    // Freeing an unknown handle is a no-op that reports nothing.
    assert!(set.delete_buffer(front).is_none());
}

#[test]
fn staging_lifecycle() {
    let mut set = ShaderBufferSet::new();
    let src = set.add_storage_uninit(12, None, false);
    let mut staging = ShaderBufferRenderSet::new();
    assert!(!staging.has_copy_buffer(src));
    let size = staging.create_copy_buffer(src, &set);
    assert_eq!(size, 12);
    assert!(staging.has_copy_buffer(src));
    staging.copy_to_copy_buffer(src);
    let msg = staging.readback_message(src, vec![1, 2, 3]);
    match msg {
        ComputeMessage::CopyBuffer(CopyBufferEvent { buffer, data }) => {
            assert_eq!(buffer, src);
            assert_eq!(data, vec![1, 2, 3]);
        },
        _ => panic!("readback message expected"),
    }
    staging.remove_copy_buffer(src);
    assert!(!staging.has_copy_buffer(src));
}

#[test]
fn channel_delivers_in_send_order() {
    let mut chan = ComputeDataTransmission::new(16);
    let handles: Vec<ShaderBufferHandle> =
        (0..5).map(|id| ShaderBufferHandle::Unbound { id }).collect();
    for h in &handles {
        assert!(chan.send(ComputeMessage::SwapBuffers(*h)));
    }
    for h in &handles {
        match chan.try_receive() {
            Some(ComputeMessage::SwapBuffers(got)) => assert_eq!(got, *h),
            _ => panic!("message lost or reordered"),
        }
    }
    assert!(chan.try_receive().is_none());
}

#[test]
fn channel_backpressure_at_capacity() {
    let mut chan = ComputeDataTransmission::new(2);
    let m = |id: u32| ComputeMessage::SwapBuffers(ShaderBufferHandle::Unbound { id });
    assert!(chan.send(m(0)));
    assert!(chan.send(m(1)));
    // Full: the producer is stalled, nothing is dropped or overwritten.
    assert!(!chan.send(m(2)));
    assert_eq!(chan.len(), 2);
    match chan.try_receive() {
        Some(ComputeMessage::SwapBuffers(h)) => {
            assert_eq!(h, ShaderBufferHandle::Unbound { id: 0 })
        },
        _ => panic!("front message expected"),
    }
    assert!(chan.send(m(2)));
}
