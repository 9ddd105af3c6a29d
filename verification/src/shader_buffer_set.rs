//! Registry of GPU-resident buffers and textures behind opaque handles.
//!
//! Every resource is a plain record: its binding slot (if any), a unique
//! `id`, the `alloc` number naming the physical GPU allocation that backs
//! it (the host maps `alloc` to the real device object), an optional
//! double-buffer partner, and the storage kind with its size. The registry
//! never holds device objects itself, so all of its bookkeeping — handle
//! assignment, binding-group layouts, double-buffer flips, deletion — is
//! verified here.

use vstd::prelude::*;

use crate::compute_data_transmission::{ComputeMessage, MessageV};
use crate::CopyBufferEvent;

verus! {

/// Opaque identifier of one registered resource. `id` is unique across the
/// whole registry; bound handles also carry their binding-group coordinates.
#[derive(Clone, Copy, PartialEq, Eq, Structural, Debug, Hash)]
pub enum ShaderBufferHandle {
    Bound { group: u32, binding: u32, id: u32 },
    Unbound { id: u32 },
}

impl ShaderBufferHandle {
    /// The registry-wide unique id this handle names.
    pub open spec fn id_spec(self) -> u32 {
        match self {
            ShaderBufferHandle::Bound { id, .. } => id,
            ShaderBufferHandle::Unbound { id } => id,
        }
    }

    pub fn id(&self) -> (r: u32)
        ensures
            r == self.id_spec(),
    {
        match self {
            ShaderBufferHandle::Bound { id, .. } => *id,
            ShaderBufferHandle::Unbound { id } => *id,
        }
    }
}

/// The binding-group coordinates of a bound resource.
#[derive(Clone, Copy, PartialEq, Eq, Structural, Debug)]
pub struct BindingSlot {
    pub group: u32,
    pub binding: u32,
}

/// What kind of storage backs a resource, with the host-relevant extent:
/// byte size for buffers, width and height for textures.
#[derive(Clone, Copy, PartialEq, Eq, Structural, Debug)]
pub enum ShaderBufferStorage {
    Storage { readonly: bool, size: u32 },
    Uniform { size: u32 },
    Texture { width: u32, height: u32 },
    StorageTexture { width: u32, height: u32 },
}

impl ShaderBufferStorage {
    /// Sampled or storage texture.
    pub open spec fn is_texture(self) -> bool {
        match self {
            ShaderBufferStorage::Texture { .. } => true,
            ShaderBufferStorage::StorageTexture { .. } => true,
            _ => false,
        }
    }

    /// Storage or uniform buffer: a resource whose bytes the host may set.
    pub open spec fn is_data_buffer(self) -> bool {
        match self {
            ShaderBufferStorage::Storage { .. } => true,
            ShaderBufferStorage::Uniform { .. } => true,
            _ => false,
        }
    }

    /// Plain storage buffer (the only kind that supports readback).
    pub open spec fn is_storage(self) -> bool {
        match self {
            ShaderBufferStorage::Storage { .. } => true,
            _ => false,
        }
    }

    /// Byte size of a data buffer.
    pub open spec fn byte_size(self) -> u32 {
        match self {
            ShaderBufferStorage::Storage { size, .. } => size,
            ShaderBufferStorage::Uniform { size } => size,
            _ => 0,
        }
    }

    /// Width and height of a texture.
    pub open spec fn tex_dims(self) -> (u32, u32) {
        match self {
            ShaderBufferStorage::Texture { width, height } => (width, height),
            ShaderBufferStorage::StorageTexture { width, height } => (width, height),
            _ => (0, 0),
        }
    }
}

/// One registered resource. `alloc` names the physical GPU allocation that
/// currently backs this slot; a double-buffer swap exchanges `alloc` between
/// the two partners while the slot's binding and access role stay put.
#[derive(Clone, Copy, Debug)]
pub struct ShaderBufferInfo {
    pub binding: Option<BindingSlot>,
    pub id: u32,
    pub alloc: u32,
    pub partner: Option<u32>,
    pub storage: ShaderBufferStorage,
}

/// Mathematical model of the registry: the unbound pool in insertion order,
/// the bound pool as one sequence of resources per binding group, and the
/// counter that feeds both pools.
#[verifier::ext_equal]
pub struct RegV {
    pub unbound: Seq<ShaderBufferInfo>,
    pub bound: Seq<Seq<ShaderBufferInfo>>,
    pub next_id: u32,
}

/// Index of the first entry with the given id at or after position `i`,
/// or -1 when there is none.
pub open spec fn find_idx(s: Seq<ShaderBufferInfo>, id: u32, i: int) -> int
    decreases s.len() - i,
{
    if i < 0 || i >= s.len() {
        -1
    } else if s[i].id == id {
        i
    } else {
        find_idx(s, id, i + 1)
    }
}

/// Index of the first binding group at or after `g` holding an entry with
/// the given id, or -1 when no group does.
pub open spec fn find_group(bound: Seq<Seq<ShaderBufferInfo>>, id: u32, g: int) -> int
    decreases bound.len() - g,
{
    if g < 0 || g >= bound.len() {
        -1
    } else if find_idx(bound[g], id, 0) >= 0 {
        g
    } else {
        find_group(bound, id, g + 1)
    }
}

/// The entry with the given id, searched across both pools.
pub open spec fn entry_of(r: RegV, id: u32) -> Option<ShaderBufferInfo> {
    if find_idx(r.unbound, id, 0) >= 0 {
        Some(r.unbound[find_idx(r.unbound, id, 0)])
    } else {
        let g = find_group(r.bound, id, 0);
        if g >= 0 {
            Some(r.bound[g][find_idx(r.bound[g], id, 0)])
        } else {
            None
        }
    }
}

/// The entry a handle refers to: an unbound handle is looked up in the
/// unbound pool, a bound handle inside its own binding group.
pub open spec fn lookup_v(r: RegV, h: ShaderBufferHandle) -> Option<ShaderBufferInfo> {
    match h {
        ShaderBufferHandle::Unbound { id } => {
            if find_idx(r.unbound, id, 0) >= 0 {
                Some(r.unbound[find_idx(r.unbound, id, 0)])
            } else {
                None
            }
        },
        ShaderBufferHandle::Bound { group, binding: _, id } => {
            if group < r.bound.len() && find_idx(r.bound[group as int], id, 0) >= 0 {
                Some(r.bound[group as int][find_idx(r.bound[group as int], id, 0)])
            } else {
                None
            }
        },
    }
}

impl RegV {
    /// Every id in either pool is below `next_id` and appears exactly once;
    /// bound entries carry the coordinates of the group that holds them;
    /// unbound entries carry none.
    pub open spec fn ids_wf(self) -> bool {
        &&& forall|i: int|
            0 <= i < self.unbound.len() ==> (#[trigger] self.unbound[i]).id < self.next_id
                && self.unbound[i].binding is None
        &&& forall|i: int, j: int|
            0 <= i < j < self.unbound.len() ==> (#[trigger] self.unbound[i]).id != (
            #[trigger] self.unbound[j]).id
        &&& forall|g: int, i: int|
            0 <= g < self.bound.len() && 0 <= i < self.bound[g].len() ==> {
                let e = #[trigger] self.bound[g][i];
                &&& e.id < self.next_id
                &&& e.binding matches Some(bs) && bs.group == g
            }
        &&& forall|g: int, i: int, g2: int, i2: int|
            0 <= g < self.bound.len() && 0 <= i < self.bound[g].len() && 0 <= g2
                < self.bound.len() && 0 <= i2 < self.bound[g2].len() && (g != g2 || i != i2) ==> (
            #[trigger] self.bound[g][i]).id != (#[trigger] self.bound[g2][i2]).id
        &&& forall|i: int, g: int, j: int|
            0 <= i < self.unbound.len() && 0 <= g < self.bound.len() && 0 <= j
                < self.bound[g].len() ==> (#[trigger] self.unbound[i]).id != (
            #[trigger] self.bound[g][j]).id
    }

    /// Ids are well-formed and double-buffer partners are mutual links
    /// between two textures of equal extent.
    pub open spec fn wf(self) -> bool {
        &&& self.ids_wf()
        &&& forall|i: int|
            0 <= i < self.unbound.len() ==> self.partner_wf(#[trigger] self.unbound[i])
        &&& forall|g: int, i: int|
            0 <= g < self.bound.len() && 0 <= i < self.bound[g].len() ==> self.partner_wf(
                #[trigger] self.bound[g][i],
            )
    }

    /// The partner clause for one entry: if it names a partner, the partner
    /// exists, links back, and both are textures of the same extent.
    pub open spec fn partner_wf(self, e: ShaderBufferInfo) -> bool {
        match e.partner {
            Some(p) => {
                &&& p != e.id
                &&& e.storage.is_texture()
                &&& match entry_of(self, p) {
                    Some(pe) => pe.partner == Some(e.id) && pe.storage.is_texture()
                        && pe.storage.tex_dims() == e.storage.tex_dims(),
                    None => false,
                }
            },
            None => true,
        }
    }
}

/// Owns the records of all GPU-resident resources. The host mirrors the
/// `alloc` numbers to real device objects.
pub struct ShaderBufferSet {
    unbound_buffers: Vec<ShaderBufferInfo>,
    bound_buffers: Vec<Vec<ShaderBufferInfo>>,
    next_id: u32,
}

impl View for ShaderBufferSet {
    type V = RegV;

    closed spec fn view(&self) -> RegV {
        RegV {
            unbound: self.unbound_buffers@,
            bound: self.bound_buffers@.map_values(|g: Vec<ShaderBufferInfo>| g@),
            next_id: self.next_id,
        }
    }
}

impl ShaderBufferSet {
    /// An empty registry with the id counter at zero.
    pub fn new() -> (r: Self)
        ensures
            r@ == (RegV { unbound: Seq::empty(), bound: Seq::empty(), next_id: 0u32 }),
            r@.wf(),
    {
        let r = ShaderBufferSet { unbound_buffers: Vec::new(), bound_buffers: Vec::new(), next_id: 0 };
        proof {
            assert(r@.bound =~= Seq::<Seq<ShaderBufferInfo>>::empty());
            assert(r@ =~= RegV { unbound: Seq::empty(), bound: Seq::empty(), next_id: 0u32 });
        }
        r
    }

    /// The record the handle refers to, or nothing when no resource with
    /// that id sits where the handle points.
    pub fn lookup(&self, handle: ShaderBufferHandle) -> (r: Option<ShaderBufferInfo>)
        ensures
            r == lookup_v(self@, handle),
    {
        match handle {
            ShaderBufferHandle::Unbound { id } => find_in_vec(&self.unbound_buffers, id),
            ShaderBufferHandle::Bound { group, binding: _, id } => {
                if (group as usize) < self.bound_buffers.len() {
                    find_in_vec(&self.bound_buffers[group as usize], id)
                } else {
                    None
                }
            },
        }
    }

    /// The entry with the given id, wherever it sits.
    pub fn find_by_id(&self, id: u32) -> (r: Option<ShaderBufferInfo>)
        ensures
            r == entry_of(self@, id),
    {
        let in_unbound = find_in_vec(&self.unbound_buffers, id);
        if in_unbound.is_some() {
            return in_unbound;
        }
        let mut g: usize = 0;
        while g < self.bound_buffers.len()
            invariant
                0 <= g <= self.bound_buffers.len(),
                find_idx(self@.unbound, id, 0) < 0,
                find_group(self@.bound, id, 0) == find_group(self@.bound, id, g as int),
            decreases self.bound_buffers.len() - g,
        {
            let found = find_in_vec(&self.bound_buffers[g], id);
            if found.is_some() {
                return found;
            }
            g = g + 1;
        }
        None
    }
}

/// A single-field change to one registry entry, applied by id.
#[derive(Clone, Copy)]
pub enum EntryWrite {
    Alloc(u32),
    Partner(Option<u32>),
    Access(ShaderBufferStorage),
}

/// The entry with one field rewritten, when its id matches.
pub open spec fn write_one(e: ShaderBufferInfo, id: u32, w: EntryWrite) -> ShaderBufferInfo {
    if e.id == id {
        match w {
            EntryWrite::Alloc(a) => ShaderBufferInfo { alloc: a, ..e },
            EntryWrite::Partner(p) => ShaderBufferInfo { partner: p, ..e },
            EntryWrite::Access(s) => ShaderBufferInfo { storage: s, ..e },
        }
    } else {
        e
    }
}

/// One pool with the write applied to every entry of that id.
pub open spec fn write_seq(s: Seq<ShaderBufferInfo>, id: u32, w: EntryWrite) -> Seq<
    ShaderBufferInfo,
> {
    Seq::new(s.len(), |j: int| write_one(s[j], id, w))
}

/// The bound pools with the write applied throughout.
pub open spec fn write_bound(b: Seq<Seq<ShaderBufferInfo>>, id: u32, w: EntryWrite) -> Seq<
    Seq<ShaderBufferInfo>,
> {
    Seq::new(b.len(), |g: int| write_seq(b[g], id, w))
}

/// The registry with the write applied to the entry of the given id.
pub open spec fn update_v(r: RegV, id: u32, w: EntryWrite) -> RegV {
    RegV {
        unbound: write_seq(r.unbound, id, w),
        bound: write_bound(r.bound, id, w),
        next_id: r.next_id,
    }
}

/// The handle refers to a registered resource that has a double-buffer
/// partner.
pub open spec fn swap_valid(r: RegV, h: ShaderBufferHandle) -> bool {
    match lookup_v(r, h) {
        Some(e) => e.partner is Some,
        None => false,
    }
}

/// The registry after flipping the double buffer the handle belongs to:
/// the two partners exchange backing allocations while each slot keeps its
/// binding, access role and extent.
pub open spec fn apply_swap(r: RegV, h: ShaderBufferHandle) -> RegV {
    match lookup_v(r, h) {
        Some(e) => match e.partner {
            Some(p) => match entry_of(r, p) {
                Some(pe) => update_v(
                    update_v(r, e.id, EntryWrite::Alloc(pe.alloc)),
                    p,
                    EntryWrite::Alloc(e.alloc),
                ),
                None => r,
            },
            None => r,
        },
        None => r,
    }
}

/// A found index is in range and names the id; a miss means no entry at or
/// after the start holds it.
pub proof fn lemma_find_idx_props(s: Seq<ShaderBufferInfo>, id: u32, i: int)
    ensures
        find_idx(s, id, i) >= -1,
        i >= 0 && find_idx(s, id, i) == -1 ==> forall|j: int| i <= j < s.len() ==> s[j].id != id,
        find_idx(s, id, i) >= 0 ==> i <= find_idx(s, id, i) < s.len() && s[find_idx(s, id, i)].id
            == id,
    decreases s.len() - i,
{
    if i < 0 || i >= s.len() {
    } else if s[i].id == id {
    } else {
        lemma_find_idx_props(s, id, i + 1);
    }
}

/// Same characterization for the group search across the bound pools.
pub proof fn lemma_find_group_props(b: Seq<Seq<ShaderBufferInfo>>, id: u32, g: int)
    ensures
        find_group(b, id, g) >= -1,
        g >= 0 && find_group(b, id, g) == -1 ==> forall|g2: int, j: int|
            g <= g2 < b.len() && 0 <= j < b[g2].len() ==> b[g2][j].id != id,
        find_group(b, id, g) >= 0 ==> g <= find_group(b, id, g) < b.len() && find_idx(
            b[find_group(b, id, g)],
            id,
            0,
        ) >= 0,
    decreases b.len() - g,
{
    if g < 0 || g >= b.len() {
    } else if find_idx(b[g], id, 0) >= 0 {
    } else {
        lemma_find_idx_props(b[g], id, 0);
        lemma_find_group_props(b, id, g + 1);
    }
}

/// Searching a written pool behaves as searching the original: the write
/// keeps every id in place, so the same entry is found, with the write
/// applied.
pub proof fn lemma_entry_of_write(r: RegV, id: u32, w: EntryWrite, q: u32)
    requires
        r.ids_wf(),
    ensures
        entry_of(update_v(r, id, w), q) == match entry_of(r, q) {
            Some(e) => Some(write_one(e, id, w)),
            None => None::<ShaderBufferInfo>,
        },
{
    let r2 = update_v(r, id, w);
    lemma_find_idx_props(r.unbound, q, 0);
    lemma_find_idx_props(r2.unbound, q, 0);
    lemma_find_group_props(r.bound, q, 0);
    lemma_find_group_props(r2.bound, q, 0);
    let iu = find_idx(r.unbound, q, 0);
    let iu2 = find_idx(r2.unbound, q, 0);
    if iu >= 0 {
        assert(r2.unbound[iu].id == q);
        assert(iu2 >= 0);
        assert(r.unbound[iu2].id == q);
        assert(iu2 == iu);
    } else {
        assert(forall|j: int| 0 <= j < r2.unbound.len() ==> r2.unbound[j].id != q);
        assert(iu2 == -1);
        let gr = find_group(r.bound, q, 0);
        let gr2 = find_group(r2.bound, q, 0);
        if gr >= 0 {
            let jj = find_idx(r.bound[gr], q, 0);
            lemma_find_idx_props(r.bound[gr], q, 0);
            assert(r2.bound[gr][jj].id == q);
            lemma_find_idx_props(r2.bound[gr], q, 0);
            assert(find_idx(r2.bound[gr], q, 0) >= 0);
            assert(gr2 >= 0) by {
                if gr2 == -1 {
                    assert(r2.bound[gr][jj].id != q);
                }
            }
            let jj2 = find_idx(r2.bound[gr2], q, 0);
            lemma_find_idx_props(r2.bound[gr2], q, 0);
            assert(r.bound[gr2][jj2].id == q);
            assert(gr2 == gr && jj2 == jj);
        } else {
            assert(forall|g2: int, j: int|
                0 <= g2 < r2.bound.len() && 0 <= j < r2.bound[g2].len() ==> r2.bound[g2][j].id
                    != q);
            assert(gr2 == -1) by {
                if gr2 >= 0 {
                    let jj2 = find_idx(r2.bound[gr2], q, 0);
                    lemma_find_idx_props(r2.bound[gr2], q, 0);
                }
            }
        }
    }
}

/// The same fact for handle-directed lookup.
pub proof fn lemma_lookup_write(r: RegV, id: u32, w: EntryWrite, h: ShaderBufferHandle)
    requires
        r.ids_wf(),
    ensures
        lookup_v(update_v(r, id, w), h) == match lookup_v(r, h) {
            Some(e) => Some(write_one(e, id, w)),
            None => None::<ShaderBufferInfo>,
        },
{
    let r2 = update_v(r, id, w);
    match h {
        ShaderBufferHandle::Unbound { id: q } => {
            lemma_find_idx_props(r.unbound, q, 0);
            lemma_find_idx_props(r2.unbound, q, 0);
            let iu = find_idx(r.unbound, q, 0);
            let iu2 = find_idx(r2.unbound, q, 0);
            if iu >= 0 {
                assert(r2.unbound[iu].id == q);
                assert(iu2 >= 0 && iu2 == iu);
            } else {
                assert(iu2 == -1) by {
                    if iu2 >= 0 {
                        assert(r.unbound[iu2].id == q);
                    }
                }
            }
        },
        ShaderBufferHandle::Bound { group, binding: _, id: q } => {
            if group < r.bound.len() {
                let s = r.bound[group as int];
                let s2 = r2.bound[group as int];
                lemma_find_idx_props(s, q, 0);
                lemma_find_idx_props(s2, q, 0);
                let iu = find_idx(s, q, 0);
                let iu2 = find_idx(s2, q, 0);
                if iu >= 0 {
                    assert(s2[iu].id == q);
                    assert(iu2 >= 0 && iu2 == iu);
                } else {
                    assert(iu2 == -1) by {
                        if iu2 >= 0 {
                            assert(s[iu2].id == q);
                        }
                    }
                }
            }
        },
    }
}

/// A write that leaves ids, bindings, partner links, texture-ness and
/// extents in place preserves well-formedness. Allocation writes always
/// qualify; an access-mode write qualifies when the new storage keeps the
/// entry's texture-ness and extent.
pub proof fn lemma_wf_write_keep(r: RegV, id: u32, w: EntryWrite)
    requires
        r.wf(),
        match w {
            EntryWrite::Alloc(_) => true,
            EntryWrite::Access(s) => match entry_of(r, id) {
                Some(e) => s.is_texture() == e.storage.is_texture() && s.tex_dims()
                    == e.storage.tex_dims(),
                None => true,
            },
            EntryWrite::Partner(_) => false,
        },
    ensures
        update_v(r, id, w).wf(),
{
    let r2 = update_v(r, id, w);
    assert forall|i: int| 0 <= i < r2.unbound.len() implies (#[trigger] r2.unbound[i]).id
        < r2.next_id && r2.unbound[i].binding is None by {
        assert(r2.unbound[i] == write_one(r.unbound[i], id, w));
    }
    assert forall|i: int| 0 <= i < r2.unbound.len() implies r2.partner_wf(
        #[trigger] r2.unbound[i],
    ) by {
        assert(r2.unbound[i] == write_one(r.unbound[i], id, w));
        lemma_one_partner_wf(r, id, w, r.unbound[i]);
    }
    assert forall|g: int, i: int|
        0 <= g < r2.bound.len() && 0 <= i < r2.bound[g].len() implies {
        let e = #[trigger] r2.bound[g][i];
        e.id < r2.next_id && (e.binding matches Some(bs) && bs.group == g) && r2.partner_wf(e)
    } by {
        assert(r2.bound[g][i] == write_one(r.bound[g][i], id, w));
        lemma_one_partner_wf(r, id, w, r.bound[g][i]);
    }
}

/// The entry the global search returns carries the id it was searched for.
pub proof fn lemma_entry_of_id(r: RegV, q: u32)
    ensures
        match entry_of(r, q) {
            Some(e) => e.id == q,
            None => true,
        },
{
    lemma_find_idx_props(r.unbound, q, 0);
    lemma_find_group_props(r.bound, q, 0);
    let gr = find_group(r.bound, q, 0);
    if find_idx(r.unbound, q, 0) < 0 && gr >= 0 {
        lemma_find_idx_props(r.bound[gr], q, 0);
    }
}

/// Helper for the above: one registered entry's partner clause survives the
/// write.
proof fn lemma_one_partner_wf(r: RegV, id: u32, w: EntryWrite, e: ShaderBufferInfo)
    requires
        r.wf(),
        r.partner_wf(e),
        (exists|i: int| 0 <= i < r.unbound.len() && r.unbound[i] == e) || (exists|g: int, i: int|
            0 <= g < r.bound.len() && 0 <= i < r.bound[g].len() && r.bound[g][i] == e),
        match w {
            EntryWrite::Alloc(_) => true,
            EntryWrite::Access(s) => match entry_of(r, id) {
                Some(e2) => s.is_texture() == e2.storage.is_texture() && s.tex_dims()
                    == e2.storage.tex_dims(),
                None => true,
            },
            EntryWrite::Partner(_) => false,
        },
    ensures
        update_v(r, id, w).partner_wf(write_one(e, id, w)),
{
    let r2 = update_v(r, id, w);
    let e2 = write_one(e, id, w);
    match e.partner {
        Some(p) => {
            lemma_entry_of_write(r, id, w, p);
            assert(e2.partner == e.partner);
            if e.id == id {
                lemma_entry_unique_value(r, id, e);
                assert(entry_of(r, id) == Some(e));
            }
            assert(e2.storage.is_texture() == e.storage.is_texture() && e2.storage.tex_dims()
                == e.storage.tex_dims());
            match entry_of(r, p) {
                Some(pe) => {
                    let pe2 = write_one(pe, id, w);
                    assert(entry_of(r2, p) == Some(pe2));
                    lemma_entry_of_id(r, p);
                    if pe.id == id {
                        assert(entry_of(r, id) == Some(pe));
                    }
                    assert(pe2.partner == pe.partner && pe2.storage.is_texture()
                        == pe.storage.is_texture() && pe2.storage.tex_dims()
                        == pe.storage.tex_dims());
                },
                None => {},
            }
        },
        None => {},
    }
}

/// In a well-formed registry an entry that carries an id is the entry that
/// the global search returns for that id.
pub proof fn lemma_entry_unique_value(r: RegV, id: u32, e: ShaderBufferInfo)
    requires
        r.ids_wf(),
        e.id == id,
        (exists|i: int| 0 <= i < r.unbound.len() && r.unbound[i] == e) || (exists|g: int, i: int|
            0 <= g < r.bound.len() && 0 <= i < r.bound[g].len() && r.bound[g][i] == e),
    ensures
        entry_of(r, id) == Some(e),
{
    lemma_find_idx_props(r.unbound, id, 0);
    lemma_find_group_props(r.bound, id, 0);
    let iu = find_idx(r.unbound, id, 0);
    let gr = find_group(r.bound, id, 0);
    if exists|i: int| 0 <= i < r.unbound.len() && r.unbound[i] == e {
        let i = choose|i: int| 0 <= i < r.unbound.len() && r.unbound[i] == e;
        assert(iu >= 0) by {
            if iu == -1 {
                assert(r.unbound[i].id != id);
            }
        }
        assert(r.unbound[iu].id == id);
        assert(iu == i);
    } else {
        let (g, i) = choose|g: int, i: int|
            0 <= g < r.bound.len() && 0 <= i < r.bound[g].len() && r.bound[g][i] == e;
        assert(iu == -1) by {
            if iu >= 0 {
                assert(r.unbound[iu].id == id);
                assert(r.unbound[iu].id != r.bound[g][i].id);
            }
        }
        assert(gr >= 0) by {
            if gr == -1 {
                assert(r.bound[g][i].id != id);
            }
        }
        let jj = find_idx(r.bound[gr], id, 0);
        lemma_find_idx_props(r.bound[gr], id, 0);
        assert(r.bound[gr][jj].id == id);
        assert(gr == g && jj == i);
    }
}

/// A successful handle lookup names a registered entry: it carries the
/// handle's id, sits at a position of its pool, satisfies its partner
/// clause, and is what the global id search returns.
pub proof fn lemma_lookup_props(r: RegV, h: ShaderBufferHandle)
    requires
        r.wf(),
    ensures
        match lookup_v(r, h) {
            Some(e) => e.id == h.id_spec() && r.partner_wf(e) && entry_of(r, e.id) == Some(e),
            None => true,
        },
{
    match h {
        ShaderBufferHandle::Unbound { id } => {
            lemma_find_idx_props(r.unbound, id, 0);
            let iu = find_idx(r.unbound, id, 0);
            if iu >= 0 {
                lemma_entry_unique_value(r, id, r.unbound[iu]);
            }
        },
        ShaderBufferHandle::Bound { group, binding: _, id } => {
            if group < r.bound.len() {
                lemma_find_idx_props(r.bound[group as int], id, 0);
                let jj = find_idx(r.bound[group as int], id, 0);
                if jj >= 0 {
                    lemma_entry_unique_value(r, id, r.bound[group as int][jj]);
                }
            }
        },
    }
}

/// Flipping a double buffer twice restores the registry exactly: the second
/// swap exchanges the two backing allocations back and nothing else ever
/// moved.
pub proof fn lemma_swap_involutive(r: RegV, h: ShaderBufferHandle)
    requires
        r.wf(),
        swap_valid(r, h),
    ensures
        apply_swap(apply_swap(r, h), h) == r,
{
    lemma_lookup_props(r, h);
    let e = lookup_v(r, h)->Some_0;
    let p = e.partner->Some_0;
    let pe = entry_of(r, p)->Some_0;
    lemma_entry_of_id(r, p);
    let w1 = EntryWrite::Alloc(pe.alloc);
    let w2 = EntryWrite::Alloc(e.alloc);
    let r1 = update_v(r, e.id, w1);
    let r2 = update_v(r1, p, w2);
    assert(apply_swap(r, h) == r2);
    lemma_wf_write_keep(r, e.id, w1);
    lemma_lookup_write(r, e.id, w1, h);
    lemma_lookup_write(r1, p, w2, h);
    let e2 = lookup_v(r2, h)->Some_0;
    assert(e2 == write_one(write_one(e, e.id, w1), p, w2));
    assert(e2.partner == Some(p) && e2.id == e.id && e2.alloc == pe.alloc);
    lemma_entry_of_write(r, e.id, w1, p);
    lemma_entry_of_write(r1, p, w2, p);
    let pe2 = entry_of(r2, p)->Some_0;
    assert(pe2 == write_one(write_one(pe, e.id, w1), p, w2));
    assert(pe2.alloc == e.alloc);
    let w3 = EntryWrite::Alloc(pe2.alloc);
    let w4 = EntryWrite::Alloc(e2.alloc);
    let r3 = update_v(r2, e2.id, w3);
    let r4 = update_v(r3, p, w4);
    assert(apply_swap(r2, h) == r4);
    assert forall|j: int| 0 <= j < r.unbound.len() implies r4.unbound[j] == r.unbound[j] by {
        let x = r.unbound[j];
        if x.id == e.id || x.id == p {
            assert(exists|i2: int| 0 <= i2 < r.unbound.len() && r.unbound[i2] == x) by {
                assert(0 <= j < r.unbound.len() && r.unbound[j] == x);
            }
            lemma_entry_unique_value(r, x.id, x);
        }
        assert(r4.unbound[j] == write_one(
            write_one(write_one(write_one(x, e.id, w1), p, w2), e.id, w3),
            p,
            w4,
        ));
    }
    assert(r4.unbound =~= r.unbound);
    assert forall|g: int| 0 <= g < r.bound.len() implies r4.bound[g] =~= r.bound[g] by {
        assert forall|j: int| 0 <= j < r.bound[g].len() implies r4.bound[g][j] == r.bound[g][j] by {
            let x = r.bound[g][j];
            if x.id == e.id || x.id == p {
                assert(exists|g2: int, i2: int|
                    0 <= g2 < r.bound.len() && 0 <= i2 < r.bound[g2].len() && r.bound[g2][i2]
                        == x) by {
                    assert(0 <= g < r.bound.len() && 0 <= j < r.bound[g].len() && r.bound[g][j]
                        == x);
                }
                lemma_entry_unique_value(r, x.id, x);
            }
            assert(r4.bound[g][j] == write_one(
                write_one(write_one(write_one(x, e.id, w1), p, w2), e.id, w3),
                p,
                w4,
            ));
        }
    }
    assert(r4.bound =~~= r.bound);
    assert(r4 =~~= r);
}

/// A swap touches only the two partnered slots: any other id keeps its
/// entry — and with it its binding-group layout contribution — unchanged.
pub proof fn lemma_swap_unrelated(r: RegV, h: ShaderBufferHandle, q: u32)
    requires
        r.wf(),
        swap_valid(r, h),
        lookup_v(r, h) matches Some(e) && q != e.id && e.partner != Some(q),
    ensures
        entry_of(apply_swap(r, h), q) == entry_of(r, q),
{
    lemma_lookup_props(r, h);
    let e = lookup_v(r, h)->Some_0;
    let p = e.partner->Some_0;
    let pe = entry_of(r, p)->Some_0;
    let w1 = EntryWrite::Alloc(pe.alloc);
    let w2 = EntryWrite::Alloc(e.alloc);
    let r1 = update_v(r, e.id, w1);
    lemma_wf_write_keep(r, e.id, w1);
    lemma_entry_of_write(r, e.id, w1, q);
    lemma_entry_of_write(r1, p, w2, q);
    lemma_entry_of_id(r, q);
}

impl ShaderBufferSet {
    /// Applies a single-field write to the entry with the given id.
    fn update_entry(&mut self, id: u32, w: EntryWrite)
        requires
            old(self)@.ids_wf(),
            entry_of(old(self)@, id) is Some,
        ensures
            final(self)@ == update_v(old(self)@, id, w),
    {
        let ghost r0 = self@;
        let mut i: usize = 0;
        while i < self.unbound_buffers.len()
            invariant
                *self == *old(self),
                r0 == self@,
                r0 == old(self)@,
                r0.ids_wf(),
                i <= self.unbound_buffers.len(),
                forall|j: int| 0 <= j < i ==> r0.unbound[j].id != id,
            decreases self.unbound_buffers.len() - i,
        {
            if self.unbound_buffers[i].id == id {
                let e = self.unbound_buffers[i];
                let e2 = apply_entry_write(e, w);
                self.unbound_buffers[i] = e2;
                proof {
                    lemma_update_ext(r0, self@, id, w, i as int, -1, -1);
                }
                return ;
            }
            i = i + 1;
        }
        let mut g: usize = 0;
        while g < self.bound_buffers.len()
            invariant
                *self == *old(self),
                r0 == self@,
                r0 == old(self)@,
                r0.ids_wf(),
                entry_of(r0, id) is Some,
                g <= self.bound_buffers.len(),
                forall|j: int| 0 <= j < r0.unbound.len() ==> r0.unbound[j].id != id,
                forall|g2: int, j: int|
                    0 <= g2 < g && 0 <= j < r0.bound[g2].len() ==> r0.bound[g2][j].id != id,
            decreases self.bound_buffers.len() - g,
        {
            let mut j: usize = 0;
            while j < self.bound_buffers[g].len()
                invariant
                    *self == *old(self),
                    r0 == self@,
                    r0 == old(self)@,
                    r0.ids_wf(),
                    g < self.bound_buffers.len(),
                    j <= self.bound_buffers[g as int].len(),
                    forall|k: int| 0 <= k < j ==> r0.bound[g as int][k].id != id,
                decreases self.bound_buffers[g as int].len() - j,
            {
                if self.bound_buffers[g][j].id == id {
                    let e = self.bound_buffers[g][j];
                    let e2 = apply_entry_write(e, w);
                    let mut row = self.bound_buffers.remove(g);
                    row[j] = e2;
                    self.bound_buffers.insert(g, row);
                    proof {
                        assert(row@ =~= r0.bound[g as int].update(
                            j as int,
                            write_one(r0.bound[g as int][j as int], id, w),
                        ));
                        assert(self@.bound =~= r0.bound.update(g as int, row@));
                        lemma_update_ext(r0, self@, id, w, -1, g as int, j as int);
                    }
                    return ;
                }
                j = j + 1;
            }
            g = g + 1;
        }
        proof {
            lemma_find_idx_props(r0.unbound, id, 0);
            lemma_find_group_props(r0.bound, id, 0);
            assert(find_idx(r0.unbound, id, 0) == -1) by {
                if find_idx(r0.unbound, id, 0) >= 0 {
                    assert(r0.unbound[find_idx(r0.unbound, id, 0)].id == id);
                }
            }
            assert(find_group(r0.bound, id, 0) == -1) by {
                let gr = find_group(r0.bound, id, 0);
                if gr >= 0 {
                    lemma_find_idx_props(r0.bound[gr], id, 0);
                }
            }
            assert(false);
        }
    }
}

/// One entry with the write applied unconditionally.
fn apply_entry_write(e: ShaderBufferInfo, w: EntryWrite) -> (r: ShaderBufferInfo)
    ensures
        r == write_one(e, e.id, w),
{
    match w {
        EntryWrite::Alloc(a) => ShaderBufferInfo {
            binding: e.binding,
            id: e.id,
            alloc: a,
            partner: e.partner,
            storage: e.storage,
        },
        EntryWrite::Partner(p) => ShaderBufferInfo {
            binding: e.binding,
            id: e.id,
            alloc: e.alloc,
            partner: p,
            storage: e.storage,
        },
        EntryWrite::Access(s) => ShaderBufferInfo {
            binding: e.binding,
            id: e.id,
            alloc: e.alloc,
            partner: e.partner,
            storage: s,
        },
    }
}

/// A registry that changed at exactly one position — which held the only
/// entry with the written id — equals the pointwise-written registry.
proof fn lemma_update_ext(r0: RegV, r2: RegV, id: u32, w: EntryWrite, iu: int, gu: int, ju: int)
    requires
        r0.ids_wf(),
        r2.next_id == r0.next_id,
        r2.unbound.len() == r0.unbound.len(),
        r2.bound.len() == r0.bound.len(),
        forall|g: int| 0 <= g < r0.bound.len() ==> r2.bound[g].len() == r0.bound[g].len(),
        iu >= 0 ==> {
            &&& iu < r0.unbound.len()
            &&& r0.unbound[iu].id == id
            &&& r2.unbound == r0.unbound.update(iu, write_one(r0.unbound[iu], id, w))
            &&& r2.bound == r0.bound
        },
        iu < 0 ==> {
            &&& 0 <= gu < r0.bound.len()
            &&& 0 <= ju < r0.bound[gu].len()
            &&& r0.bound[gu][ju].id == id
            &&& r2.unbound == r0.unbound
            &&& r2.bound == r0.bound.update(gu, r0.bound[gu].update(ju, write_one(r0.bound[gu][ju], id, w)))
        },
    ensures
        r2 == update_v(r0, id, w),
{
    let t = update_v(r0, id, w);
    assert forall|j: int| 0 <= j < r0.unbound.len() implies r2.unbound[j] == t.unbound[j] by {
        assert(t.unbound[j] == write_one(r0.unbound[j], id, w));
        if iu >= 0 {
            if j != iu {
                assert(r0.unbound[j].id != id);
            }
        } else {
            assert(r0.unbound[j].id != r0.bound[gu][ju].id);
        }
    }
    assert(r2.unbound =~= t.unbound);
    assert forall|g: int| 0 <= g < r0.bound.len() implies r2.bound[g] =~= t.bound[g] by {
        assert forall|j: int| 0 <= j < r0.bound[g].len() implies r2.bound[g][j] == t.bound[g][j] by {
            assert(t.bound[g][j] == write_one(r0.bound[g][j], id, w));
            if iu >= 0 {
                assert(r0.bound[g][j].id != r0.unbound[iu].id);
            } else {
                if g != gu || j != ju {
                    assert(r0.bound[g][j].id != r0.bound[gu][ju].id);
                }
            }
        }
    }
    assert(r2.bound =~~= t.bound);
    assert(r2 =~~= t);
}

/// The binding slot a public allocation call names, as stored.
pub open spec fn slot_of(binding: Option<(u32, u32)>) -> Option<BindingSlot> {
    match binding {
        Some((g, b)) => Some(BindingSlot { group: g, binding: b }),
        None => None,
    }
}

/// The record a fresh allocation stores: backed by a new allocation whose
/// number equals the fresh id, with no partner.
pub open spec fn new_entry(
    binding: Option<BindingSlot>,
    id: u32,
    storage: ShaderBufferStorage,
) -> ShaderBufferInfo {
    ShaderBufferInfo { binding, id, alloc: id, partner: None, storage }
}

/// The handle a fresh allocation returns.
pub open spec fn handle_for(binding: Option<BindingSlot>, id: u32) -> ShaderBufferHandle {
    match binding {
        Some(bs) => ShaderBufferHandle::Bound { group: bs.group, binding: bs.binding, id },
        None => ShaderBufferHandle::Unbound { id },
    }
}

/// The bound pools extended with empty groups up to length `n`.
pub open spec fn pad_groups(b: Seq<Seq<ShaderBufferInfo>>, n: int) -> Seq<Seq<ShaderBufferInfo>> {
    if b.len() >= n {
        b
    } else {
        b + Seq::new((n - b.len()) as nat, |k: int| Seq::<ShaderBufferInfo>::empty())
    }
}

/// The registry after storing one fresh resource.
pub open spec fn store_v(
    r: RegV,
    binding: Option<BindingSlot>,
    storage: ShaderBufferStorage,
) -> RegV {
    let e = new_entry(binding, r.next_id, storage);
    match binding {
        None => RegV {
            unbound: r.unbound.push(e),
            bound: r.bound,
            next_id: (r.next_id + 1) as u32,
        },
        Some(bs) => {
            let b = pad_groups(r.bound, bs.group + 1);
            RegV {
                unbound: r.unbound,
                bound: b.update(bs.group as int, b[bs.group as int].push(e)),
                next_id: (r.next_id + 1) as u32,
            }
        },
    }
}

/// Storing keeps the ids well-formed: the fresh id is above every live one.
pub proof fn lemma_store_ids_wf(r: RegV, binding: Option<BindingSlot>, storage: ShaderBufferStorage)
    requires
        r.ids_wf(),
        r.next_id < u32::MAX,
    ensures
        store_v(r, binding, storage).ids_wf(),
{
    let r2 = store_v(r, binding, storage);
    match binding {
        None => {},
        Some(bs) => {
            let b = pad_groups(r.bound, bs.group + 1);
            assert(forall|g: int|
                0 <= g < r.bound.len() ==> b[g] == r.bound[g]);
        },
    }
}

/// Storing does not move or change any existing entry: every id other than
/// the fresh one resolves as before.
pub proof fn lemma_store_preserves_entry(
    r: RegV,
    binding: Option<BindingSlot>,
    storage: ShaderBufferStorage,
    q: u32,
)
    requires
        r.ids_wf(),
        r.next_id < u32::MAX,
        q != r.next_id,
    ensures
        entry_of(store_v(r, binding, storage), q) == entry_of(r, q),
{
    let r2 = store_v(r, binding, storage);
    lemma_store_ids_wf(r, binding, storage);
    lemma_find_idx_props(r.unbound, q, 0);
    lemma_find_group_props(r.bound, q, 0);
    lemma_find_idx_props(r2.unbound, q, 0);
    lemma_find_group_props(r2.bound, q, 0);
    let ghost b = match binding {
        Some(bs) => pad_groups(r.bound, bs.group + 1),
        None => r.bound,
    };
    assert(forall|g: int| 0 <= g < r.bound.len() ==> b[g] == r.bound[g]);
    match entry_of(r, q) {
        Some(x) => {
            assert(x.id == q) by { lemma_entry_of_id(r, q); }
            if find_idx(r.unbound, q, 0) >= 0 {
                let i = find_idx(r.unbound, q, 0);
                assert(r2.unbound[i] == x);
                assert(exists|i2: int| 0 <= i2 < r2.unbound.len() && r2.unbound[i2] == x) by {
                    assert(0 <= i < r2.unbound.len() && r2.unbound[i] == x);
                }
                lemma_entry_unique_value(r2, q, x);
            } else {
                let g = find_group(r.bound, q, 0);
                let i = find_idx(r.bound[g], q, 0);
                lemma_find_idx_props(r.bound[g], q, 0);
                assert(r2.bound[g][i] == x);
                assert(exists|g2: int, i2: int|
                    0 <= g2 < r2.bound.len() && 0 <= i2 < r2.bound[g2].len() && r2.bound[g2][i2]
                        == x) by {
                    assert(0 <= g < r2.bound.len() && 0 <= i < r2.bound[g].len() && r2.bound[g][i]
                        == x);
                }
                lemma_entry_unique_value(r2, q, x);
            }
        },
        None => {
            assert(entry_of(r2, q) is None) by {
                let iu2 = find_idx(r2.unbound, q, 0);
                if iu2 >= 0 {
                    assert(r2.unbound[iu2].id == q);
                    if iu2 < r.unbound.len() {
                        assert(r.unbound[iu2].id != q);
                    }
                }
                let gr2 = find_group(r2.bound, q, 0);
                if gr2 >= 0 {
                    let jj2 = find_idx(r2.bound[gr2], q, 0);
                    lemma_find_idx_props(r2.bound[gr2], q, 0);
                    assert(r2.bound[gr2][jj2].id == q);
                    if gr2 < r.bound.len() && jj2 < r.bound[gr2].len() {
                        assert(r.bound[gr2][jj2].id != q);
                    }
                }
            }
        },
    }
}

/// Storing keeps full well-formedness: existing partner links still resolve
/// and the fresh entry has none.
pub proof fn lemma_store_wf(r: RegV, binding: Option<BindingSlot>, storage: ShaderBufferStorage)
    requires
        r.wf(),
        r.next_id < u32::MAX,
    ensures
        store_v(r, binding, storage).wf(),
{
    let r2 = store_v(r, binding, storage);
    lemma_store_ids_wf(r, binding, storage);
    let ghost b = match binding {
        Some(bs) => pad_groups(r.bound, bs.group + 1),
        None => r.bound,
    };
    assert(forall|g: int| 0 <= g < r.bound.len() ==> b[g] == r.bound[g]);
    assert forall|i: int| 0 <= i < r2.unbound.len() implies r2.partner_wf(
        #[trigger] r2.unbound[i],
    ) by {
        let e = r2.unbound[i];
        if i < r.unbound.len() {
            assert(r.partner_wf(e));
            lemma_partner_wf_after_store(r, binding, storage, e);
        }
    }
    assert forall|g: int, i: int|
        0 <= g < r2.bound.len() && 0 <= i < r2.bound[g].len() implies r2.partner_wf(
        #[trigger] r2.bound[g][i],
    ) by {
        let e = r2.bound[g][i];
        if g < r.bound.len() && i < r.bound[g].len() {
            assert(r.partner_wf(e));
            lemma_partner_wf_after_store(r, binding, storage, e);
        }
    }
}

/// Helper: one existing entry's partner clause survives a store.
proof fn lemma_partner_wf_after_store(
    r: RegV,
    binding: Option<BindingSlot>,
    storage: ShaderBufferStorage,
    e: ShaderBufferInfo,
)
    requires
        r.wf(),
        r.next_id < u32::MAX,
        r.partner_wf(e),
    ensures
        store_v(r, binding, storage).partner_wf(e),
{
    match e.partner {
        Some(p) => {
            lemma_entry_of_props(r, p);
            assert(entry_of(r, p) is Some);
            let pe = entry_of(r, p)->Some_0;
            assert(p < r.next_id) by {
                if exists|i: int| 0 <= i < r.unbound.len() && r.unbound[i] == pe {
                    let i = choose|i: int| 0 <= i < r.unbound.len() && r.unbound[i] == pe;
                    assert(r.unbound[i].id < r.next_id);
                } else {
                    let (g, i) = choose|g: int, i: int|
                        0 <= g < r.bound.len() && 0 <= i < r.bound[g].len() && r.bound[g][i] == pe;
                    assert(r.bound[g][i].id < r.next_id);
                }
            }
            lemma_store_preserves_entry(r, binding, storage, p);
        },
        None => {},
    }
}

/// The entry the global search returns carries the searched id and sits at
/// a position of one of the pools.
pub proof fn lemma_entry_of_props(r: RegV, q: u32)
    ensures
        match entry_of(r, q) {
            Some(e) => e.id == q && ((exists|i: int|
                0 <= i < r.unbound.len() && r.unbound[i] == e) || (exists|g: int, i: int|
                0 <= g < r.bound.len() && 0 <= i < r.bound[g].len() && r.bound[g][i] == e)),
            None => true,
        },
{
    lemma_find_idx_props(r.unbound, q, 0);
    lemma_find_group_props(r.bound, q, 0);
    let iu = find_idx(r.unbound, q, 0);
    let gr = find_group(r.bound, q, 0);
    if iu >= 0 {
        assert(0 <= iu < r.unbound.len() && r.unbound[iu] == r.unbound[iu]);
    } else if gr >= 0 {
        lemma_find_idx_props(r.bound[gr], q, 0);
        let jj = find_idx(r.bound[gr], q, 0);
        assert(0 <= gr < r.bound.len() && 0 <= jj < r.bound[gr].len() && r.bound[gr][jj]
            == r.bound[gr][jj]);
    }
}

impl ShaderBufferSet {
    /// Stores one fresh resource record and hands back its handle. The new
    /// id is the old counter value, so ids grow strictly with each
    /// allocation and never repeat.
    fn store_buffer(
        &mut self,
        binding: Option<(u32, u32)>,
        storage: ShaderBufferStorage,
    ) -> (h: ShaderBufferHandle)
        requires
            old(self)@.wf(),
            old(self)@.next_id < u32::MAX,
        ensures
            final(self)@ == store_v(old(self)@, slot_of(binding), storage),
            final(self)@.wf(),
            h == handle_for(slot_of(binding), old(self)@.next_id),
            h.id_spec() == old(self)@.next_id,
            final(self)@.next_id == old(self)@.next_id + 1,
            lookup_v(final(self)@, h) == Some(
                new_entry(slot_of(binding), old(self)@.next_id, storage),
            ),
    {
        let ghost r0 = self@;
        let ghost t = store_v(r0, slot_of(binding), storage);
        let id = self.next_id;
        proof {
            lemma_store_wf(r0, slot_of(binding), storage);
        }
        self.next_id = id + 1;
        let h: ShaderBufferHandle;
        match binding {
            None => {
                let e = ShaderBufferInfo { binding: None, id, alloc: id, partner: None, storage };
                self.unbound_buffers.push(e);
                h = ShaderBufferHandle::Unbound { id };
                proof {
                    assert(self@.bound =~~= t.bound);
                    assert(self@.unbound =~= t.unbound);
                    assert(self@ =~~= t);
                    lemma_find_idx_props(t.unbound, id, 0);
                    let jj = find_idx(t.unbound, id, 0);
                    assert(jj >= 0) by {
                        if jj == -1 {
                            assert(t.unbound[t.unbound.len() - 1].id == id);
                        }
                    }
                    assert(t.unbound[jj] == e) by {
                        if jj < t.unbound.len() - 1 {
                            assert(r0.unbound[jj].id < r0.next_id);
                        }
                    }
                }
            },
            Some((group, binding_slot)) => {
                let e = ShaderBufferInfo {
                    binding: Some(BindingSlot { group, binding: binding_slot }),
                    id,
                    alloc: id,
                    partner: None,
                    storage,
                };
                while self.bound_buffers.len() <= group as usize
                    invariant
                        r0.bound == old(self)@.bound,
                        self.unbound_buffers@ == old(self).unbound_buffers@,
                        self.next_id == old(self).next_id + 1,
                        self@.bound =~= pad_groups(r0.bound, self.bound_buffers@.len() as int),
                        self.bound_buffers@.len() >= r0.bound.len(),
                        self.bound_buffers@.len() <= group as int + 1 || self.bound_buffers@.len()
                            == r0.bound.len(),
                    decreases group as int - self.bound_buffers@.len() + 1,
                {
                    let ghost before = self@.bound;
                    self.bound_buffers.push(Vec::new());
                    proof {
                        assert(self@.bound =~= before.push(Seq::<ShaderBufferInfo>::empty()));
                        assert(self@.bound =~= pad_groups(
                            r0.bound,
                            self.bound_buffers@.len() as int,
                        ));
                    }
                }
                let ghost padded = self@.bound;
                proof {
                    assert(padded =~= pad_groups(r0.bound, group + 1)) by {
                        if self.bound_buffers@.len() > group as int + 1 {
                            assert(self.bound_buffers@.len() == r0.bound.len());
                        }
                    }
                }
                let mut row = self.bound_buffers.remove(group as usize);
                row.push(e);
                self.bound_buffers.insert(group as usize, row);
                h = ShaderBufferHandle::Bound { group, binding: binding_slot, id };
                proof {
                    assert(self@.bound =~= padded.update(
                        group as int,
                        padded[group as int].push(e),
                    ));
                    assert(self@.bound =~~= t.bound);
                    assert(self@.unbound =~= t.unbound);
                    assert(self@ =~~= t);
                    lemma_find_idx_props(t.bound[group as int], id, 0);
                    let jj = find_idx(t.bound[group as int], id, 0);
                    assert(jj >= 0) by {
                        if jj == -1 {
                            assert(t.bound[group as int][t.bound[group as int].len() - 1].id == id);
                        }
                    }
                    assert(t.bound[group as int][jj] == e) by {
                        if jj < t.bound[group as int].len() - 1 {
                            let pg = pad_groups(r0.bound, group + 1);
                            assert(t.bound[group as int] == pg[group as int].push(e));
                            if (group as int) < r0.bound.len() {
                                assert(r0.bound[group as int][jj].id < r0.next_id);
                            } else {
                                assert(pg[group as int].len() == 0);
                            }
                        }
                    }
                }
            },
        }
        h
    }

    /// Registers a storage buffer whose contents start undefined.
    pub fn add_storage_uninit(
        &mut self,
        size: u32,
        binding: Option<(u32, u32)>,
        readonly: bool,
    ) -> (h: ShaderBufferHandle)
        requires
            old(self)@.wf(),
            old(self)@.next_id < u32::MAX,
        ensures
            final(self)@ == store_v(
                old(self)@,
                slot_of(binding),
                ShaderBufferStorage::Storage { readonly, size },
            ),
            final(self)@.wf(),
            h == handle_for(slot_of(binding), old(self)@.next_id),
            final(self)@.next_id == old(self)@.next_id + 1,
            lookup_v(final(self)@, h) == Some(
                new_entry(
                    slot_of(binding),
                    old(self)@.next_id,
                    ShaderBufferStorage::Storage { readonly, size },
                ),
            ),
    {
        self.store_buffer(binding, ShaderBufferStorage::Storage { readonly, size })
    }

    /// Registers a storage buffer the host fills with zeroes at creation.
    pub fn add_storage_zeroed(
        &mut self,
        size: u32,
        binding: Option<(u32, u32)>,
        readonly: bool,
    ) -> (h: ShaderBufferHandle)
        requires
            old(self)@.wf(),
            old(self)@.next_id < u32::MAX,
        ensures
            final(self)@ == store_v(
                old(self)@,
                slot_of(binding),
                ShaderBufferStorage::Storage { readonly, size },
            ),
            final(self)@.wf(),
            h == handle_for(slot_of(binding), old(self)@.next_id),
            final(self)@.next_id == old(self)@.next_id + 1,
    {
        self.store_buffer(binding, ShaderBufferStorage::Storage { readonly, size })
    }

    /// Registers a storage buffer the host initializes with caller data of
    /// the given byte size.
    pub fn add_storage_init(
        &mut self,
        size: u32,
        binding: Option<(u32, u32)>,
        readonly: bool,
    ) -> (h: ShaderBufferHandle)
        requires
            old(self)@.wf(),
            old(self)@.next_id < u32::MAX,
        ensures
            final(self)@ == store_v(
                old(self)@,
                slot_of(binding),
                ShaderBufferStorage::Storage { readonly, size },
            ),
            final(self)@.wf(),
            h == handle_for(slot_of(binding), old(self)@.next_id),
            final(self)@.next_id == old(self)@.next_id + 1,
    {
        self.store_buffer(binding, ShaderBufferStorage::Storage { readonly, size })
    }

    /// Registers a uniform buffer the host initializes with caller data.
    pub fn add_uniform_init(&mut self, size: u32, binding: Option<(u32, u32)>) -> (h:
        ShaderBufferHandle)
        requires
            old(self)@.wf(),
            old(self)@.next_id < u32::MAX,
        ensures
            final(self)@ == store_v(
                old(self)@,
                slot_of(binding),
                ShaderBufferStorage::Uniform { size },
            ),
            final(self)@.wf(),
            h == handle_for(slot_of(binding), old(self)@.next_id),
            final(self)@.next_id == old(self)@.next_id + 1,
    {
        self.store_buffer(binding, ShaderBufferStorage::Uniform { size })
    }

    /// Registers a single write-only storage texture.
    pub fn add_write_texture(
        &mut self,
        width: u32,
        height: u32,
        binding: Option<(u32, u32)>,
    ) -> (h: ShaderBufferHandle)
        requires
            old(self)@.wf(),
            old(self)@.next_id < u32::MAX,
        ensures
            final(self)@ == store_v(
                old(self)@,
                slot_of(binding),
                ShaderBufferStorage::StorageTexture { width, height },
            ),
            final(self)@.wf(),
            h == handle_for(slot_of(binding), old(self)@.next_id),
            final(self)@.next_id == old(self)@.next_id + 1,
    {
        self.store_buffer(binding, ShaderBufferStorage::StorageTexture { width, height })
    }
}

/// Any single-field write keeps the ids well-formed: ids, bindings and the
/// counter are untouched.
pub proof fn lemma_ids_wf_write(r: RegV, id: u32, w: EntryWrite)
    requires
        r.ids_wf(),
    ensures
        update_v(r, id, w).ids_wf(),
{
    let r2 = update_v(r, id, w);
    assert(forall|i: int|
        0 <= i < r2.unbound.len() ==> (#[trigger] r2.unbound[i]) == write_one(
            r.unbound[i],
            id,
            w,
        ));
    assert(forall|g: int, i: int|
        0 <= g < r2.bound.len() && 0 <= i < r2.bound[g].len() ==> (#[trigger] r2.bound[g][i])
            == write_one(r.bound[g][i], id, w));
}

/// Two mutually-linked partner entries, as produced by a paired texture
/// allocation.
pub open spec fn link_v(r: RegV, a: u32, b: u32) -> RegV {
    update_v(update_v(r, a, EntryWrite::Partner(Some(b))), b, EntryWrite::Partner(Some(a)))
}

/// Registers the read (sampled) and write (storage) halves of one
/// double-buffered texture and links them as partners, so a later
/// `swap_front_buffer` on either handle exchanges their backing allocations.
impl ShaderBufferSet {
    pub fn add_read_write_texture(
        &mut self,
        width: u32,
        height: u32,
        read_binding: Option<(u32, u32)>,
        write_binding: Option<(u32, u32)>,
    ) -> (handles: (ShaderBufferHandle, ShaderBufferHandle))
        requires
            old(self)@.wf(),
            old(self)@.next_id < u32::MAX - 1,
        ensures
            final(self)@ == link_v(
                store_v(
                    store_v(
                        old(self)@,
                        slot_of(read_binding),
                        ShaderBufferStorage::Texture { width, height },
                    ),
                    slot_of(write_binding),
                    ShaderBufferStorage::StorageTexture { width, height },
                ),
                old(self)@.next_id,
                (old(self)@.next_id + 1) as u32,
            ),
            final(self)@.wf(),
            handles.0 == handle_for(slot_of(read_binding), old(self)@.next_id),
            handles.1 == handle_for(slot_of(write_binding), (old(self)@.next_id + 1) as u32),
            final(self)@.next_id == old(self)@.next_id + 2,
            swap_valid(final(self)@, handles.0),
            swap_valid(final(self)@, handles.1),
    {
        let ghost r0 = self@;
        let read_storage = ShaderBufferStorage::Texture { width, height };
        let write_storage = ShaderBufferStorage::StorageTexture { width, height };
        let read_handle = self.store_buffer(read_binding, read_storage);
        let ghost r1 = self@;
        let write_handle = self.store_buffer(write_binding, write_storage);
        let ghost r2 = self@;
        let a = read_handle.id();
        let b = write_handle.id();
        proof {
            lemma_store_preserves_entry(r1, slot_of(write_binding), write_storage, a);
            lemma_lookup_props(r1, read_handle);
            lemma_lookup_props(r2, write_handle);
            assert(entry_of(r2, a) == Some(new_entry(slot_of(read_binding), a, read_storage)));
            assert(entry_of(r2, b) == Some(new_entry(slot_of(write_binding), b, write_storage)));
        }
        self.link_partners(a, b);
        proof {
            let wa = EntryWrite::Partner(Some(b));
            let wb = EntryWrite::Partner(Some(a));
            let ra = update_v(r2, a, wa);
            lemma_entry_to_lookup(r2, read_handle);
            lemma_entry_to_lookup(r2, write_handle);
            lemma_ids_wf_write(r2, a, wa);
            lemma_lookup_write(r2, a, wa, read_handle);
            lemma_lookup_write(ra, b, wb, read_handle);
            lemma_lookup_write(r2, a, wa, write_handle);
            lemma_lookup_write(ra, b, wb, write_handle);
        }
        (read_handle, write_handle)
    }

    /// Makes two fresh unpaired texture entries of equal extent partners of
    /// each other.
    fn link_partners(&mut self, a: u32, b: u32)
        requires
            old(self)@.wf(),
            a != b,
            entry_of(old(self)@, a) matches Some(ea) && ea.partner is None
                && ea.storage.is_texture(),
            entry_of(old(self)@, b) matches Some(eb) && eb.partner is None
                && eb.storage.is_texture(),
            entry_of(old(self)@, a)->Some_0.storage.tex_dims() == entry_of(
                old(self)@,
                b,
            )->Some_0.storage.tex_dims(),
        ensures
            final(self)@ == link_v(old(self)@, a, b),
            final(self)@.wf(),
    {
        let ghost r0 = self@;
        let ghost wa = EntryWrite::Partner(Some(b));
        let ghost wb = EntryWrite::Partner(Some(a));
        self.update_entry(a, EntryWrite::Partner(Some(b)));
        proof {
            lemma_ids_wf_write(r0, a, wa);
            lemma_entry_of_write(r0, a, wa, b);
        }
        self.update_entry(b, EntryWrite::Partner(Some(a)));
        proof {
            lemma_link_wf(r0, a, b);
        }
    }
}

/// Linking two fresh, unpaired textures of equal extent yields a
/// well-formed registry again.
proof fn lemma_link_wf(r: RegV, a: u32, b: u32)
    requires
        r.wf(),
        a != b,
        entry_of(r, a) matches Some(ea) && ea.partner is None && ea.storage.is_texture(),
        entry_of(r, b) matches Some(eb) && eb.partner is None && eb.storage.is_texture(),
        entry_of(r, a)->Some_0.storage.tex_dims() == entry_of(r, b)->Some_0.storage.tex_dims(),
    ensures
        link_v(r, a, b).wf(),
{
    let ea = entry_of(r, a)->Some_0;
    let eb = entry_of(r, b)->Some_0;
    lemma_entry_of_props(r, a);
    lemma_entry_of_props(r, b);
    let wa = EntryWrite::Partner(Some(b));
    let wb = EntryWrite::Partner(Some(a));
    let r1 = update_v(r, a, wa);
    let r2 = update_v(r1, b, wb);
    lemma_ids_wf_write(r, a, wa);
    lemma_ids_wf_write(r1, b, wb);
    lemma_entry_of_write(r, a, wa, a);
    lemma_entry_of_write(r, a, wa, b);
    lemma_entry_of_write(r1, b, wb, a);
    lemma_entry_of_write(r1, b, wb, b);
    let ea2 = write_one(ea, a, wa);
    let eb2 = write_one(write_one(eb, a, wa), b, wb);
    assert(entry_of(r2, a) == Some(ea2) && entry_of(r2, b) == Some(eb2));
    assert forall|i: int| 0 <= i < r2.unbound.len() implies r2.partner_wf(
        #[trigger] r2.unbound[i],
    ) by {
        let x = r.unbound[i];
        assert(r2.unbound[i] == write_one(write_one(x, a, wa), b, wb));
        lemma_link_one_partner_wf(r, a, b, x);
    }
    assert forall|g: int, i: int|
        0 <= g < r2.bound.len() && 0 <= i < r2.bound[g].len() implies r2.partner_wf(
        #[trigger] r2.bound[g][i],
    ) by {
        let x = r.bound[g][i];
        assert(r2.bound[g][i] == write_one(write_one(x, a, wa), b, wb));
        lemma_link_one_partner_wf(r, a, b, x);
    }
}

/// Helper: one registered entry's partner clause after the two linking
/// writes.
proof fn lemma_link_one_partner_wf(r: RegV, a: u32, b: u32, x: ShaderBufferInfo)
    requires
        r.wf(),
        a != b,
        entry_of(r, a) matches Some(ea) && ea.partner is None && ea.storage.is_texture(),
        entry_of(r, b) matches Some(eb) && eb.partner is None && eb.storage.is_texture(),
        entry_of(r, a)->Some_0.storage.tex_dims() == entry_of(r, b)->Some_0.storage.tex_dims(),
        r.partner_wf(x),
        (exists|i: int| 0 <= i < r.unbound.len() && r.unbound[i] == x) || (exists|g: int, i: int|
            0 <= g < r.bound.len() && 0 <= i < r.bound[g].len() && r.bound[g][i] == x),
    ensures
        link_v(r, a, b).partner_wf(write_one(write_one(x, a, EntryWrite::Partner(Some(b))), b,
        EntryWrite::Partner(Some(a)))),
{
    let ea = entry_of(r, a)->Some_0;
    let eb = entry_of(r, b)->Some_0;
    lemma_entry_of_id(r, a);
    lemma_entry_of_id(r, b);
    let wa = EntryWrite::Partner(Some(b));
    let wb = EntryWrite::Partner(Some(a));
    let r1 = update_v(r, a, wa);
    let r2 = update_v(r1, b, wb);
    lemma_ids_wf_write(r, a, wa);
    let x2 = write_one(write_one(x, a, wa), b, wb);
    if x.id == a || x.id == b {
        lemma_entry_unique_value(r, x.id, x);
        lemma_entry_of_write(r, a, wa, a);
        lemma_entry_of_write(r, a, wa, b);
        lemma_entry_of_write(r1, b, wb, a);
        lemma_entry_of_write(r1, b, wb, b);
    } else {
        match x.partner {
            Some(q) => {
                let qe = entry_of(r, q)->Some_0;
                lemma_entry_of_id(r, q);
                assert(q != a) by {
                    if q == a {
                        assert(ea.partner == Some(x.id));
                    }
                }
                assert(q != b) by {
                    if q == b {
                        assert(eb.partner == Some(x.id));
                    }
                }
                lemma_entry_of_write(r, a, wa, q);
                lemma_entry_of_write(r1, b, wb, q);
                assert(entry_of(r2, q) == Some(qe));
            },
            None => {},
        }
    }
}

impl ShaderBufferSet {
    /// Flips the double buffer the handle belongs to: the handle's entry and
    /// its partner exchange backing allocations; bindings, access roles and
    /// every other resource stay exactly as they were.
    pub fn swap_front_buffer(&mut self, handle: ShaderBufferHandle)
        requires
            old(self)@.wf(),
            swap_valid(old(self)@, handle),
        ensures
            final(self)@ == apply_swap(old(self)@, handle),
            final(self)@.wf(),
    {
        let ghost r0 = self@;
        proof {
            lemma_lookup_props(r0, handle);
        }
        let e = match self.lookup(handle) {
            Some(e) => e,
            None => vstd::pervasive::unreached(),
        };
        let p = match e.partner {
            Some(p) => p,
            None => vstd::pervasive::unreached(),
        };
        let pe = match self.find_by_id(p) {
            Some(pe) => pe,
            None => vstd::pervasive::unreached(),
        };
        let ghost w1 = EntryWrite::Alloc(pe.alloc);
        let ghost w2 = EntryWrite::Alloc(e.alloc);
        proof {
            lemma_entry_unique_value_of_lookup(r0, handle);
            lemma_wf_write_keep(r0, e.id, w1);
            lemma_entry_of_write(r0, e.id, w1, p);
        }
        self.update_entry(e.id, EntryWrite::Alloc(pe.alloc));
        self.update_entry(p, EntryWrite::Alloc(e.alloc));
        proof {
            lemma_wf_write_keep(update_v(r0, e.id, w1), p, w2);
        }
    }

    /// Changes a texture's access role between sampled (read) and write-only
    /// storage, keeping its extent and backing allocation.
    pub fn set_texture_access(&mut self, handle: ShaderBufferHandle, readonly: bool)
        requires
            old(self)@.wf(),
            lookup_v(old(self)@, handle) matches Some(e) && e.storage.is_texture(),
        ensures
            final(self)@ == update_v(
                old(self)@,
                handle.id_spec(),
                EntryWrite::Access(
                    tex_storage(lookup_v(old(self)@, handle)->Some_0.storage.tex_dims(), readonly),
                ),
            ),
            final(self)@.wf(),
    {
        let ghost r0 = self@;
        proof {
            lemma_lookup_props(r0, handle);
        }
        let e = match self.lookup(handle) {
            Some(e) => e,
            None => vstd::pervasive::unreached(),
        };
        let (width, height) = match e.storage {
            ShaderBufferStorage::Texture { width, height } => (width, height),
            ShaderBufferStorage::StorageTexture { width, height } => (width, height),
            _ => vstd::pervasive::unreached(),
        };
        let storage = if readonly {
            ShaderBufferStorage::Texture { width, height }
        } else {
            ShaderBufferStorage::StorageTexture { width, height }
        };
        proof {
            lemma_wf_write_keep(r0, e.id, EntryWrite::Access(storage));
        }
        self.update_entry(e.id, EntryWrite::Access(storage));
    }
}

/// The texture storage with the given extent and access role.
pub open spec fn tex_storage(dims: (u32, u32), readonly: bool) -> ShaderBufferStorage {
    if readonly {
        ShaderBufferStorage::Texture { width: dims.0, height: dims.1 }
    } else {
        ShaderBufferStorage::StorageTexture { width: dims.0, height: dims.1 }
    }
}

/// A handle lookup agrees with the global id search.
pub proof fn lemma_entry_unique_value_of_lookup(r: RegV, h: ShaderBufferHandle)
    requires
        r.ids_wf(),
    ensures
        match lookup_v(r, h) {
            Some(e) => entry_of(r, e.id) == Some(e) && e.id == h.id_spec(),
            None => true,
        },
{
    match h {
        ShaderBufferHandle::Unbound { id } => {
            lemma_find_idx_props(r.unbound, id, 0);
            let iu = find_idx(r.unbound, id, 0);
            if iu >= 0 {
                lemma_entry_unique_value(r, id, r.unbound[iu]);
            }
        },
        ShaderBufferHandle::Bound { group, binding: _, id } => {
            if group < r.bound.len() {
                lemma_find_idx_props(r.bound[group as int], id, 0);
                let jj = find_idx(r.bound[group as int], id, 0);
                if jj >= 0 {
                    lemma_entry_unique_value(r, id, r.bound[group as int][jj]);
                }
            }
        },
    }
}

/// When the global search finds the entry and its stored binding agrees
/// with the handle's shape, the handle-directed lookup finds it too.
pub proof fn lemma_entry_to_lookup(r: RegV, h: ShaderBufferHandle)
    requires
        r.ids_wf(),
        entry_of(r, h.id_spec()) matches Some(e) && (match h {
            ShaderBufferHandle::Unbound { .. } => e.binding is None,
            ShaderBufferHandle::Bound { group, .. } => e.binding matches Some(bs) && bs.group
                == group,
        }),
    ensures
        lookup_v(r, h) == entry_of(r, h.id_spec()),
{
    let id = h.id_spec();
    let e = entry_of(r, id)->Some_0;
    lemma_entry_of_props(r, id);
    match h {
        ShaderBufferHandle::Unbound { .. } => {
            assert(exists|i: int| 0 <= i < r.unbound.len() && r.unbound[i] == e) by {
                if exists|g: int, i: int|
                    0 <= g < r.bound.len() && 0 <= i < r.bound[g].len() && r.bound[g][i] == e {
                    let (g, i) = choose|g: int, i: int|
                        0 <= g < r.bound.len() && 0 <= i < r.bound[g].len() && r.bound[g][i] == e;
                    assert(r.bound[g][i].binding matches Some(bs) && bs.group == g);
                }
            }
            let i = choose|i: int| 0 <= i < r.unbound.len() && r.unbound[i] == e;
            lemma_find_idx_props(r.unbound, id, 0);
            let iu = find_idx(r.unbound, id, 0);
            assert(iu >= 0) by {
                if iu == -1 {
                    assert(r.unbound[i].id != id);
                }
            }
            assert(r.unbound[iu].id == id);
            assert(iu == i);
        },
        ShaderBufferHandle::Bound { group, .. } => {
            assert(exists|g: int, i: int|
                0 <= g < r.bound.len() && 0 <= i < r.bound[g].len() && r.bound[g][i] == e) by {
                if exists|i: int| 0 <= i < r.unbound.len() && r.unbound[i] == e {
                    let i = choose|i: int| 0 <= i < r.unbound.len() && r.unbound[i] == e;
                    assert(r.unbound[i].binding is None);
                }
            }
            let (g, i) = choose|g: int, i: int|
                0 <= g < r.bound.len() && 0 <= i < r.bound[g].len() && r.bound[g][i] == e;
            assert(r.bound[g][i].binding matches Some(bs) && bs.group == g);
            assert(g == group);
            lemma_find_idx_props(r.bound[group as int], id, 0);
            let jj = find_idx(r.bound[group as int], id, 0);
            assert(jj >= 0) by {
                if jj == -1 {
                    assert(r.bound[g][i].id != id);
                }
            }
            assert(r.bound[group as int][jj].id == id);
            assert(jj == i);
        },
    }
}

/// The registry with the handle's entry taken out of its pool.
pub open spec fn remove_entry_v(r: RegV, h: ShaderBufferHandle) -> RegV {
    match h {
        ShaderBufferHandle::Unbound { id } => {
            if find_idx(r.unbound, id, 0) >= 0 {
                RegV {
                    unbound: r.unbound.remove(find_idx(r.unbound, id, 0)),
                    bound: r.bound,
                    next_id: r.next_id,
                }
            } else {
                r
            }
        },
        ShaderBufferHandle::Bound { group, binding: _, id } => {
            if group < r.bound.len() && find_idx(r.bound[group as int], id, 0) >= 0 {
                RegV {
                    unbound: r.unbound,
                    bound: r.bound.update(
                        group as int,
                        r.bound[group as int].remove(find_idx(r.bound[group as int], id, 0)),
                    ),
                    next_id: r.next_id,
                }
            } else {
                r
            }
        },
    }
}

/// The registry after freeing the handle's resource: the entry leaves its
/// pool and, if it had a double-buffer partner, the partner's back-link is
/// cleared. Freeing an unknown handle changes nothing.
pub open spec fn delete_v(r: RegV, h: ShaderBufferHandle) -> RegV {
    match lookup_v(r, h) {
        None => r,
        Some(e) => {
            let r1 = remove_entry_v(r, h);
            match e.partner {
                Some(p) => update_v(r1, p, EntryWrite::Partner(None)),
                None => r1,
            }
        },
    }
}

/// Taking one entry out keeps ids well-formed.
pub proof fn lemma_remove_ids_wf(r: RegV, h: ShaderBufferHandle)
    requires
        r.ids_wf(),
    ensures
        remove_entry_v(r, h).ids_wf(),
{
    let r1 = remove_entry_v(r, h);
    match h {
        ShaderBufferHandle::Unbound { id } => {
            let idx = find_idx(r.unbound, id, 0);
            if idx >= 0 {
                lemma_find_idx_props(r.unbound, id, 0);
                r.unbound.remove_ensures(idx);
            }
        },
        ShaderBufferHandle::Bound { group, binding: _, id } => {
            if group < r.bound.len() && find_idx(r.bound[group as int], id, 0) >= 0 {
                let idx = find_idx(r.bound[group as int], id, 0);
                lemma_find_idx_props(r.bound[group as int], id, 0);
                r.bound[group as int].remove_ensures(idx);
            }
        },
    }
}

/// Taking one entry out leaves the search for every other id unchanged.
pub proof fn lemma_remove_preserves_entry(r: RegV, h: ShaderBufferHandle, q: u32)
    requires
        r.ids_wf(),
        q != h.id_spec(),
    ensures
        entry_of(remove_entry_v(r, h), q) == entry_of(r, q),
{
    let r1 = remove_entry_v(r, h);
    lemma_remove_ids_wf(r, h);
    match h {
        ShaderBufferHandle::Unbound { id } => {
            let idx = find_idx(r.unbound, id, 0);
            if idx >= 0 {
                lemma_find_idx_props(r.unbound, id, 0);
                r.unbound.remove_ensures(idx);
                match entry_of(r, q) {
                    Some(x) => {
                        lemma_entry_of_props(r, q);
                        if exists|i: int| 0 <= i < r.unbound.len() && r.unbound[i] == x {
                            let i = choose|i: int| 0 <= i < r.unbound.len() && r.unbound[i] == x;
                            assert(i != idx);
                            let i1: int = if i < idx {
                                i
                            } else {
                                i - 1
                            };
                            assert(r1.unbound[i1] == x);
                            assert(exists|i2: int|
                                0 <= i2 < r1.unbound.len() && r1.unbound[i2] == x) by {
                                assert(0 <= i1 < r1.unbound.len() && r1.unbound[i1] == x);
                            }
                            lemma_entry_unique_value(r1, q, x);
                        } else {
                            let (g, i) = choose|g: int, i: int|
                                0 <= g < r.bound.len() && 0 <= i < r.bound[g].len() && r.bound[g][i]
                                    == x;
                            lemma_entry_unique_value(r1, q, x);
                        }
                    },
                    None => {
                        lemma_none_entry(r, q);
                        assert forall|i: int| 0 <= i < r1.unbound.len() implies (
                        #[trigger] r1.unbound[i]).id != q by {
                            if i < idx {
                                assert(r1.unbound[i] == r.unbound[i]);
                            } else {
                                assert(r1.unbound[i] == r.unbound[i + 1]);
                            }
                        }
                        lemma_entry_none_from_positions(r1, q);
                    },
                }
            }
        },
        ShaderBufferHandle::Bound { group, binding: _, id } => {
            if group < r.bound.len() && find_idx(r.bound[group as int], id, 0) >= 0 {
                let idx = find_idx(r.bound[group as int], id, 0);
                lemma_find_idx_props(r.bound[group as int], id, 0);
                r.bound[group as int].remove_ensures(idx);
                match entry_of(r, q) {
                    Some(x) => {
                        lemma_entry_of_props(r, q);
                        if exists|i: int| 0 <= i < r.unbound.len() && r.unbound[i] == x {
                            lemma_entry_unique_value(r1, q, x);
                        } else {
                            let (g, i) = choose|g: int, i: int|
                                0 <= g < r.bound.len() && 0 <= i < r.bound[g].len() && r.bound[g][i]
                                    == x;
                            if g == group as int {
                                assert(i != idx);
                                let i1: int = if i < idx {
                                    i
                                } else {
                                    i - 1
                                };
                                assert(r1.bound[g][i1] == x);
                                assert(exists|g2: int, i2: int|
                                    0 <= g2 < r1.bound.len() && 0 <= i2 < r1.bound[g2].len()
                                        && r1.bound[g2][i2] == x) by {
                                    assert(0 <= g < r1.bound.len() && 0 <= i1 < r1.bound[g].len()
                                        && r1.bound[g][i1] == x);
                                }
                                lemma_entry_unique_value(r1, q, x);
                            } else {
                                assert(r1.bound[g][i] == x);
                                assert(exists|g2: int, i2: int|
                                    0 <= g2 < r1.bound.len() && 0 <= i2 < r1.bound[g2].len()
                                        && r1.bound[g2][i2] == x) by {
                                    assert(0 <= g < r1.bound.len() && 0 <= i < r1.bound[g].len()
                                        && r1.bound[g][i] == x);
                                }
                                lemma_entry_unique_value(r1, q, x);
                            }
                        }
                    },
                    None => {
                        lemma_none_entry(r, q);
                        assert forall|g2: int, j: int|
                            0 <= g2 < r1.bound.len() && 0 <= j < r1.bound[g2].len() implies (
                        #[trigger] r1.bound[g2][j]).id != q by {
                            if g2 == group as int {
                                if j < idx {
                                    assert(r1.bound[g2][j] == r.bound[g2][j]);
                                } else {
                                    assert(r1.bound[g2][j] == r.bound[g2][j + 1]);
                                }
                            } else {
                                assert(r1.bound[g2][j] == r.bound[g2][j]);
                            }
                        }
                        lemma_entry_none_from_positions(r1, q);
                    },
                }
            }
        },
    }
}

/// When the search misses, no position holds the id.
proof fn lemma_none_entry(r: RegV, q: u32)
    requires
        entry_of(r, q) is None,
    ensures
        forall|i: int| 0 <= i < r.unbound.len() ==> (#[trigger] r.unbound[i]).id != q,
        forall|g: int, j: int|
            0 <= g < r.bound.len() && 0 <= j < r.bound[g].len() ==> (#[trigger] r.bound[g][j]).id
                != q,
{
    lemma_find_idx_props(r.unbound, q, 0);
    lemma_find_group_props(r.bound, q, 0);
    assert(find_idx(r.unbound, q, 0) == -1) by {
        if find_idx(r.unbound, q, 0) >= 0 {
        }
    }
    assert(find_group(r.bound, q, 0) == -1) by {
        let gr = find_group(r.bound, q, 0);
        if gr >= 0 {
        }
    }
}

/// When no position holds the id, the search misses.
proof fn lemma_entry_none_from_positions(r: RegV, q: u32)
    requires
        forall|i: int| 0 <= i < r.unbound.len() ==> (#[trigger] r.unbound[i]).id != q,
        forall|g: int, j: int|
            0 <= g < r.bound.len() && 0 <= j < r.bound[g].len() ==> (#[trigger] r.bound[g][j]).id
                != q,
    ensures
        entry_of(r, q) is None,
{
    lemma_find_idx_props(r.unbound, q, 0);
    lemma_find_group_props(r.bound, q, 0);
    assert(find_idx(r.unbound, q, 0) == -1) by {
        if find_idx(r.unbound, q, 0) >= 0 {
            assert(r.unbound[find_idx(r.unbound, q, 0)].id == q);
        }
    }
    assert(find_group(r.bound, q, 0) == -1) by {
        let gr = find_group(r.bound, q, 0);
        if gr >= 0 {
            let jj = find_idx(r.bound[gr], q, 0);
            lemma_find_idx_props(r.bound[gr], q, 0);
            assert(r.bound[gr][jj].id == q);
        }
    }
}

/// Freeing keeps the registry well-formed: surviving partner links still
/// resolve, because only the freed entry's own partner pointed at it and
/// that link is cleared.
pub proof fn lemma_delete_wf(r: RegV, h: ShaderBufferHandle)
    requires
        r.wf(),
    ensures
        delete_v(r, h).wf(),
{
    match lookup_v(r, h) {
        None => {},
        Some(e) => {
            lemma_lookup_props(r, h);
            let r1 = remove_entry_v(r, h);
            lemma_remove_ids_wf(r, h);
            let rf = delete_v(r, h);
            match e.partner {
                Some(p) => {
                    lemma_ids_wf_write(r1, p, EntryWrite::Partner(None));
                },
                None => {},
            }
            assert(rf.ids_wf());
            assert forall|k: int| 0 <= k < rf.unbound.len() implies rf.partner_wf(
                #[trigger] rf.unbound[k],
            ) by {
                lemma_delete_position_unbound(r, h, k);
            }
            assert forall|g: int, k: int|
                0 <= g < rf.bound.len() && 0 <= k < rf.bound[g].len() implies rf.partner_wf(
                #[trigger] rf.bound[g][k],
            ) by {
                lemma_delete_position_bound(r, h, g, k);
            }
        },
    }
}

/// Helper: the final value at one unbound position satisfies its partner
/// clause.
proof fn lemma_delete_position_unbound(r: RegV, h: ShaderBufferHandle, k: int)
    requires
        r.wf(),
        lookup_v(r, h) is Some,
        0 <= k < delete_v(r, h).unbound.len(),
    ensures
        delete_v(r, h).partner_wf(delete_v(r, h).unbound[k]),
{
    lemma_lookup_props(r, h);
    let e = lookup_v(r, h)->Some_0;
    let r1 = remove_entry_v(r, h);
    lemma_remove_ids_wf(r, h);
    let ghost j: int = match h {
        ShaderBufferHandle::Unbound { id } => {
            let idx = find_idx(r.unbound, id, 0);
            lemma_find_idx_props(r.unbound, id, 0);
            r.unbound.remove_ensures(idx);
            if k < idx {
                k
            } else {
                k + 1
            }
        },
        ShaderBufferHandle::Bound { .. } => k,
    };
    let x = r.unbound[j];
    assert(r1.unbound[k] == x);
    assert(x.id != e.id) by {
        match h {
            ShaderBufferHandle::Unbound { id } => {
                let idx = find_idx(r.unbound, id, 0);
                assert(r.unbound[idx] == e);
                assert(j != idx);
            },
            ShaderBufferHandle::Bound { group, binding: _, id } => {
                let idx = find_idx(r.bound[group as int], id, 0);
                lemma_find_idx_props(r.bound[group as int], id, 0);
                assert(r.bound[group as int][idx] == e);
            },
        }
    }
    assert(exists|i: int| 0 <= i < r.unbound.len() && r.unbound[i] == x) by {
        assert(0 <= j < r.unbound.len() && r.unbound[j] == x);
    }
    lemma_delete_one_partner(r, h, x);
}

/// Helper: the final value at one bound position satisfies its partner
/// clause.
proof fn lemma_delete_position_bound(r: RegV, h: ShaderBufferHandle, g: int, k: int)
    requires
        r.wf(),
        lookup_v(r, h) is Some,
        0 <= g < delete_v(r, h).bound.len(),
        0 <= k < delete_v(r, h).bound[g].len(),
    ensures
        delete_v(r, h).partner_wf(delete_v(r, h).bound[g][k]),
{
    lemma_lookup_props(r, h);
    let e = lookup_v(r, h)->Some_0;
    let r1 = remove_entry_v(r, h);
    lemma_remove_ids_wf(r, h);
    let ghost j: int = match h {
        ShaderBufferHandle::Unbound { .. } => k,
        ShaderBufferHandle::Bound { group, binding: _, id } => {
            if g == group as int {
                let idx = find_idx(r.bound[group as int], id, 0);
                lemma_find_idx_props(r.bound[group as int], id, 0);
                r.bound[group as int].remove_ensures(idx);
                if k < idx {
                    k
                } else {
                    k + 1
                }
            } else {
                k
            }
        },
    };
    let x = r.bound[g][j];
    assert(r1.bound[g][k] == x);
    assert(x.id != e.id) by {
        match h {
            ShaderBufferHandle::Unbound { id } => {
                let idx = find_idx(r.unbound, id, 0);
                lemma_find_idx_props(r.unbound, id, 0);
                assert(r.unbound[idx] == e);
            },
            ShaderBufferHandle::Bound { group, binding: _, id } => {
                let idx = find_idx(r.bound[group as int], id, 0);
                lemma_find_idx_props(r.bound[group as int], id, 0);
                assert(r.bound[group as int][idx] == e);
                if g == group as int {
                    assert(j != idx);
                }
            },
        }
    }
    assert(exists|g2: int, i: int|
        0 <= g2 < r.bound.len() && 0 <= i < r.bound[g2].len() && r.bound[g2][i] == x) by {
        assert(0 <= g < r.bound.len() && 0 <= j < r.bound[g].len() && r.bound[g][j] == x);
    }
    lemma_delete_one_partner(r, h, x);
}

/// Helper: one surviving entry's partner clause after the free.
proof fn lemma_delete_one_partner(r: RegV, h: ShaderBufferHandle, x: ShaderBufferInfo)
    requires
        r.wf(),
        lookup_v(r, h) is Some,
        x.id != lookup_v(r, h)->Some_0.id,
        r.partner_wf(x),
        (exists|i: int| 0 <= i < r.unbound.len() && r.unbound[i] == x) || (exists|g: int, i: int|
            0 <= g < r.bound.len() && 0 <= i < r.bound[g].len() && r.bound[g][i] == x),
    ensures
        delete_v(r, h).partner_wf(
            match lookup_v(r, h)->Some_0.partner {
                Some(p) => write_one(x, p, EntryWrite::Partner(None)),
                None => x,
            },
        ),
{
    lemma_lookup_props(r, h);
    let e = lookup_v(r, h)->Some_0;
    let r1 = remove_entry_v(r, h);
    lemma_remove_ids_wf(r, h);
    match e.partner {
        Some(p) => {
            let pe = entry_of(r, p)->Some_0;
            lemma_entry_of_id(r, p);
            if x.id == p {
                lemma_entry_unique_value(r, p, x);
                assert(x == pe);
                assert(write_one(x, p, EntryWrite::Partner(None)).partner is None);
            } else {
                match x.partner {
                    Some(q) => {
                        let qe = entry_of(r, q)->Some_0;
                        lemma_entry_of_id(r, q);
                        assert(q != e.id) by {
                            if q == e.id {
                                assert(qe == e);
                                assert(e.partner == Some(x.id));
                            }
                        }
                        assert(q != p) by {
                            if q == p {
                                assert(qe == pe);
                                assert(pe.partner == Some(x.id));
                                assert(pe.partner == Some(e.id));
                            }
                        }
                        lemma_remove_preserves_entry(r, h, q);
                        lemma_entry_of_write(r1, p, EntryWrite::Partner(None), q);
                        assert(entry_of(delete_v(r, h), q) == Some(qe));
                    },
                    None => {},
                }
            }
        },
        None => {
            match x.partner {
                Some(q) => {
                    let qe = entry_of(r, q)->Some_0;
                    lemma_entry_of_id(r, q);
                    assert(q != e.id) by {
                        if q == e.id {
                            assert(qe == e);
                            assert(e.partner == Some(x.id));
                        }
                    }
                    lemma_remove_preserves_entry(r, h, q);
                    assert(entry_of(delete_v(r, h), q) == Some(qe));
                },
                None => {},
            }
        },
    }
}

impl ShaderBufferSet {
    /// Frees the handle's resource and returns its record, so the host can
    /// release the backing allocation. The partner of a freed double buffer
    /// stays registered, unpaired. Freeing an unknown handle returns nothing
    /// and changes nothing.
    pub fn delete_buffer(&mut self, handle: ShaderBufferHandle) -> (removed: Option<
        ShaderBufferInfo,
    >)
        requires
            old(self)@.wf(),
        ensures
            removed == lookup_v(old(self)@, handle),
            final(self)@ == delete_v(old(self)@, handle),
            final(self)@.wf(),
    {
        let ghost r0 = self@;
        proof {
            lemma_delete_wf(r0, handle);
            lemma_lookup_props(r0, handle);
        }
        let e = match self.lookup(handle) {
            Some(e) => e,
            None => {
                return None;
            },
        };
        match handle {
            ShaderBufferHandle::Unbound { id } => {
                let i = match find_pos(&self.unbound_buffers, id) {
                    Some(i) => i,
                    None => vstd::pervasive::unreached(),
                };
                proof {
                    lemma_find_idx_props(r0.unbound, id, 0);
                    assert(i as int == find_idx(r0.unbound, id, 0));
                }
                let _freed = self.unbound_buffers.remove(i);
                proof {
                    assert(self@.bound =~~= r0.bound);
                    assert(self@.unbound == r0.unbound.remove(i as int));
                    assert(i as int == find_idx(r0.unbound, id, 0));
                    assert(self@.unbound =~= remove_entry_v(r0, handle).unbound);
                    assert(self@ =~~= remove_entry_v(r0, handle));
                }
            },
            ShaderBufferHandle::Bound { group, binding: _, id } => {
                let i = match find_pos(&self.bound_buffers[group as usize], id) {
                    Some(i) => i,
                    None => vstd::pervasive::unreached(),
                };
                proof {
                    lemma_find_idx_props(r0.bound[group as int], id, 0);
                    assert(i as int == find_idx(r0.bound[group as int], id, 0));
                }
                let mut row = self.bound_buffers.remove(group as usize);
                let _freed = row.remove(i);
                self.bound_buffers.insert(group as usize, row);
                proof {
                    assert(self@.unbound =~= r0.unbound);
                    assert(row@ == r0.bound[group as int].remove(i as int));
                    assert(i as int == find_idx(r0.bound[group as int], id, 0));
                    assert(self@.bound =~= r0.bound.update(group as int, row@));
                    assert(self@.bound =~= remove_entry_v(r0, handle).bound);
                    assert(self@ =~~= remove_entry_v(r0, handle));
                }
            },
        }
        if let Some(p) = e.partner {
            proof {
                lemma_remove_ids_wf(r0, handle);
                lemma_remove_preserves_entry(r0, handle, p);
            }
            self.update_entry(p, EntryWrite::Partner(None));
        }
        Some(e)
    }
}

/// Scans a pool for the position of the entry with the given id.
fn find_pos(s: &Vec<ShaderBufferInfo>, id: u32) -> (r: Option<usize>)
    ensures
        match r {
            Some(i) => i as int == find_idx(s@, id, 0),
            None => find_idx(s@, id, 0) == -1,
        },
{
    let mut i: usize = 0;
    while i < s.len()
        invariant
            0 <= i <= s.len(),
            find_idx(s@, id, 0) == find_idx(s@, id, i as int),
        decreases s.len() - i,
    {
        if s[i].id == id {
            return Some(i);
        }
        i = i + 1;
    }
    None
}

/// How one binding-slot entry appears in a compute bind-group layout.
#[derive(Clone, Copy, PartialEq, Eq, Structural, Debug)]
pub enum BindingKind {
    StorageReadOnly,
    StorageReadWrite,
    Uniform,
    SampledTexture,
    WriteStorageTexture,
}

/// One entry of a bind-group layout: the shader binding slot, the backing
/// allocation the host must bind there, and the entry's shape.
#[derive(Clone, Copy, PartialEq, Eq, Structural, Debug)]
pub struct BindingDescriptor {
    pub binding: u32,
    pub alloc: u32,
    pub kind: BindingKind,
}

/// The layout entry one bound resource contributes, shaped by its storage
/// kind.
pub open spec fn descriptor_of(e: ShaderBufferInfo) -> BindingDescriptor {
    BindingDescriptor {
        binding: match e.binding {
            Some(bs) => bs.binding,
            None => 0,
        },
        alloc: e.alloc,
        kind: match e.storage {
            ShaderBufferStorage::Storage { readonly, .. } => if readonly {
                BindingKind::StorageReadOnly
            } else {
                BindingKind::StorageReadWrite
            },
            ShaderBufferStorage::Uniform { .. } => BindingKind::Uniform,
            ShaderBufferStorage::Texture { .. } => BindingKind::SampledTexture,
            ShaderBufferStorage::StorageTexture { .. } => BindingKind::WriteStorageTexture,
        },
    }
}

/// Builds the layout entry for one bound resource.
fn descriptor_for(e: ShaderBufferInfo) -> (r: BindingDescriptor)
    ensures
        r == descriptor_of(e),
{
    BindingDescriptor {
        binding: match e.binding {
            Some(bs) => bs.binding,
            None => 0,
        },
        alloc: e.alloc,
        kind: match e.storage {
            ShaderBufferStorage::Storage { readonly, .. } => if readonly {
                BindingKind::StorageReadOnly
            } else {
                BindingKind::StorageReadWrite
            },
            ShaderBufferStorage::Uniform { .. } => BindingKind::Uniform,
            ShaderBufferStorage::Texture { .. } => BindingKind::SampledTexture,
            ShaderBufferStorage::StorageTexture { .. } => BindingKind::WriteStorageTexture,
        },
    }
}

/// The layout of one binding group: one descriptor per bound resource of
/// that group, in registration order. Resources without a binding never
/// appear.
pub open spec fn group_layout(r: RegV, g: int) -> Seq<BindingDescriptor> {
    if 0 <= g < r.bound.len() {
        Seq::new(r.bound[g].len(), |i: int| descriptor_of(r.bound[g][i]))
    } else {
        Seq::empty()
    }
}

impl ShaderBufferSet {
    /// The bind-group layout of one binding group.
    pub fn layout_for_group(&self, group: u32) -> (r: Vec<BindingDescriptor>)
        ensures
            r@ == group_layout(self@, group as int),
    {
        self.layout_for_group_idx(group as usize)
    }

    /// The bind-group layout of one binding group, by pool index.
    fn layout_for_group_idx(&self, group: usize) -> (r: Vec<BindingDescriptor>)
        ensures
            r@ == group_layout(self@, group as int),
    {
        let mut r: Vec<BindingDescriptor> = Vec::new();
        if group >= self.bound_buffers.len() {
            proof {
                assert(r@ =~= group_layout(self@, group as int));
            }
            return r;
        }
        let mut i: usize = 0;
        while i < self.bound_buffers[group].len()
            invariant
                (group as int) < self@.bound.len(),
                0 <= i <= self@.bound[group as int].len(),
                r@.len() == i,
                forall|j: int|
                    0 <= j < i ==> r@[j] == descriptor_of(self@.bound[group as int][j]),
            decreases self.bound_buffers[group as int].len() - i,
        {
            let e = self.bound_buffers[group][i];
            r.push(descriptor_for(e));
            i = i + 1;
        }
        proof {
            assert(r@ =~= group_layout(self@, group as int));
        }
        r
    }

    /// The layouts of all binding groups, one per group index.
    pub fn bind_group_layouts(&self) -> (r: Vec<Vec<BindingDescriptor>>)
        ensures
            r@.len() == self@.bound.len(),
            forall|g: int| 0 <= g < r@.len() ==> (#[trigger] r@[g])@ == group_layout(self@, g),
    {
        let mut r: Vec<Vec<BindingDescriptor>> = Vec::new();
        let mut g: usize = 0;
        while g < self.bound_buffers.len()
            invariant
                0 <= g <= self@.bound.len(),
                r@.len() == g,
                forall|g2: int| 0 <= g2 < g ==> (#[trigger] r@[g2])@ == group_layout(self@, g2),
            decreases self.bound_buffers.len() - g,
        {
            let layout = self.layout_for_group_idx(g);
            r.push(layout);
            g = g + 1;
        }
        r
    }

    /// The backing allocation of the texture a handle names, or nothing when
    /// the handle is unknown or names a buffer. After a double-buffer swap
    /// this returns the other allocation of the pair.
    pub fn image_handle(&self, handle: ShaderBufferHandle) -> (r: Option<u32>)
        ensures
            r == match lookup_v(self@, handle) {
                Some(e) => if e.storage.is_texture() {
                    Some(e.alloc)
                } else {
                    None::<u32>
                },
                None => None::<u32>,
            },
    {
        match self.lookup(handle) {
            Some(e) => match e.storage {
                ShaderBufferStorage::Texture { .. } => Some(e.alloc),
                ShaderBufferStorage::StorageTexture { .. } => Some(e.alloc),
                _ => None,
            },
            None => None,
        }
    }

    /// Validates a host data write: the handle must name a storage or
    /// uniform buffer. Returns the backing allocation and its byte size for
    /// the host to write through.
    pub fn set_buffer(&self, handle: ShaderBufferHandle) -> (r: (u32, u32))
        requires
            lookup_v(self@, handle) matches Some(e) && e.storage.is_data_buffer(),
        ensures
            r.0 == lookup_v(self@, handle)->Some_0.alloc,
            r.1 == lookup_v(self@, handle)->Some_0.storage.byte_size(),
    {
        let e = match self.lookup(handle) {
            Some(e) => e,
            None => vstd::pervasive::unreached(),
        };
        match e.storage {
            ShaderBufferStorage::Storage { size, .. } => (e.alloc, size),
            ShaderBufferStorage::Uniform { size } => (e.alloc, size),
            _ => vstd::pervasive::unreached(),
        }
    }

    /// Validates a texture-to-texture copy and returns the two backing
    /// allocations, source first.
    pub fn copy_texture(&self, src: ShaderBufferHandle, dst: ShaderBufferHandle) -> (r: (
        u32,
        u32,
    ))
        requires
            tex_copy_valid(self@, src, dst),
        ensures
            r.0 == lookup_v(self@, src)->Some_0.alloc,
            r.1 == lookup_v(self@, dst)->Some_0.alloc,
    {
        let s = match self.lookup(src) {
            Some(e) => e,
            None => vstd::pervasive::unreached(),
        };
        let d = match self.lookup(dst) {
            Some(e) => e,
            None => vstd::pervasive::unreached(),
        };
        (s.alloc, d.alloc)
    }
}

/// Both handles name textures of identical extent, so a GPU copy between
/// them is well-defined.
pub open spec fn tex_copy_valid(r: RegV, src: ShaderBufferHandle, dst: ShaderBufferHandle) -> bool {
    &&& lookup_v(r, src) matches Some(s) && s.storage.is_texture()
    &&& lookup_v(r, dst) matches Some(d) && d.storage.is_texture()
    &&& lookup_v(r, src)->Some_0.storage.tex_dims() == lookup_v(r, dst)->Some_0.storage.tex_dims()
}

/// The handle names a storage buffer, so a staged readback of it is
/// well-defined.
pub open spec fn readback_valid(r: RegV, src: ShaderBufferHandle) -> bool {
    lookup_v(r, src) matches Some(s) && s.storage.is_storage()
}

/// Law: no two live handles share an id. Any two handles that resolve and
/// carry the same id resolve to the very same entry; entries at distinct
/// positions always carry distinct ids, which is part of `wf` itself.
pub proof fn lemma_live_handle_ids_unique(r: RegV, h1: ShaderBufferHandle, h2: ShaderBufferHandle)
    requires
        r.ids_wf(),
        lookup_v(r, h1) is Some,
        lookup_v(r, h2) is Some,
        h1.id_spec() == h2.id_spec(),
    ensures
        lookup_v(r, h1) == lookup_v(r, h2),
{
    lemma_entry_unique_value_of_lookup(r, h1);
    lemma_entry_unique_value_of_lookup(r, h2);
}

/// Law: ids grow monotonically. Every live id sits below the shared
/// counter, and each allocation returns the counter's old value and then
/// raises it, so a fresh handle's id exceeds every id allocated before it
/// and no freed id is ever reissued.
pub proof fn lemma_live_ids_below_counter(r: RegV, h: ShaderBufferHandle)
    requires
        r.ids_wf(),
        lookup_v(r, h) is Some,
    ensures
        lookup_v(r, h)->Some_0.id == h.id_spec(),
        lookup_v(r, h)->Some_0.id < r.next_id,
{
    lemma_entry_unique_value_of_lookup(r, h);
    let e = lookup_v(r, h)->Some_0;
    lemma_entry_of_props(r, e.id);
    if exists|i: int| 0 <= i < r.unbound.len() && r.unbound[i] == e {
        let i = choose|i: int| 0 <= i < r.unbound.len() && r.unbound[i] == e;
        assert(r.unbound[i].id < r.next_id);
    } else {
        let (g, i) = choose|g: int, i: int|
            0 <= g < r.bound.len() && 0 <= i < r.bound[g].len() && r.bound[g][i] == e;
        assert(r.bound[g][i].id < r.next_id);
    }
}

/// A double-buffer swap changes which allocation backs the two partnered
/// slots and nothing else: every lookup still resolves (or not) as before,
/// with identical binding, partner link and storage.
pub proof fn lemma_swap_preserves_shape(r: RegV, h: ShaderBufferHandle, h2: ShaderBufferHandle)
    requires
        r.wf(),
        swap_valid(r, h),
    ensures
        apply_swap(r, h).wf(),
        apply_swap(r, h).next_id == r.next_id,
        match (lookup_v(r, h2), lookup_v(apply_swap(r, h), h2)) {
            (Some(a), Some(b)) => a.id == b.id && a.binding == b.binding && a.partner == b.partner
                && a.storage == b.storage,
            (None, None) => true,
            _ => false,
        },
{
    lemma_lookup_props(r, h);
    let e = lookup_v(r, h)->Some_0;
    let p = e.partner->Some_0;
    let pe = entry_of(r, p)->Some_0;
    let w1 = EntryWrite::Alloc(pe.alloc);
    let w2 = EntryWrite::Alloc(e.alloc);
    let r1 = update_v(r, e.id, w1);
    lemma_wf_write_keep(r, e.id, w1);
    lemma_wf_write_keep(r1, p, w2);
    lemma_lookup_write(r, e.id, w1, h2);
    lemma_lookup_write(r1, p, w2, h2);
}

/// One staging allocation: a host-visible copy-destination buffer the host
/// keeps for the source handle, sized to match it. `copied` records whether
/// phase 1 (the GPU-side copy into staging) has run at least once.
#[derive(Clone, Copy, PartialEq, Eq, Structural, Debug)]
pub struct CopyBufferEntry {
    pub handle: ShaderBufferHandle,
    pub size: u32,
    pub copied: bool,
}

/// Index of the staging entry for the handle at or after `i`, or -1.
pub open spec fn staging_idx(s: Seq<CopyBufferEntry>, h: ShaderBufferHandle, i: int) -> int
    decreases s.len() - i,
{
    if i < 0 || i >= s.len() {
        -1
    } else if s[i].handle == h {
        i
    } else {
        staging_idx(s, h, i + 1)
    }
}

/// A staging allocation exists for the handle.
pub open spec fn has_staging(s: Seq<CopyBufferEntry>, h: ShaderBufferHandle) -> bool {
    staging_idx(s, h, 0) >= 0
}

/// The staging pool after making sure the handle has an allocation: an
/// existing one is kept (with its size), otherwise a fresh, not-yet-copied
/// one of the given size is added.
pub open spec fn ensure_staging_v(s: Seq<CopyBufferEntry>, h: ShaderBufferHandle, size: u32) -> Seq<
    CopyBufferEntry,
> {
    if has_staging(s, h) {
        s
    } else {
        s.push(CopyBufferEntry { handle: h, size, copied: false })
    }
}

/// The staging pool after phase 1 ran for the handle: its entry is marked
/// copied.
pub open spec fn mark_copied_v(s: Seq<CopyBufferEntry>, h: ShaderBufferHandle) -> Seq<
    CopyBufferEntry,
> {
    if has_staging(s, h) {
        let i = staging_idx(s, h, 0);
        s.update(i, CopyBufferEntry { handle: s[i].handle, size: s[i].size, copied: true })
    } else {
        s
    }
}

/// Both phase-1 effects together: ensure the staging allocation, then mark
/// it copied.
pub open spec fn phase1_v(s: Seq<CopyBufferEntry>, h: ShaderBufferHandle, size: u32) -> Seq<
    CopyBufferEntry,
> {
    mark_copied_v(ensure_staging_v(s, h, size), h)
}

/// Render-context bookkeeping of the staging allocations used for two-phase
/// buffer readback. The host owns the actual host-visible buffers, one per
/// entry, keyed by the source handle.
pub struct ShaderBufferRenderSet {
    copy_buffers: Vec<CopyBufferEntry>,
}

impl View for ShaderBufferRenderSet {
    type V = Seq<CopyBufferEntry>;

    closed spec fn view(&self) -> Seq<CopyBufferEntry> {
        self.copy_buffers@
    }
}

/// A found staging index is in range and names the handle; a miss means no
/// entry holds it.
pub proof fn lemma_staging_idx_props(s: Seq<CopyBufferEntry>, h: ShaderBufferHandle, i: int)
    ensures
        staging_idx(s, h, i) >= -1,
        i >= 0 && staging_idx(s, h, i) == -1 ==> forall|j: int|
            i <= j < s.len() ==> s[j].handle != h,
        staging_idx(s, h, i) >= 0 ==> i <= staging_idx(s, h, i) < s.len() && s[staging_idx(
            s,
            h,
            i,
        )].handle == h,
    decreases s.len() - i,
{
    if i < 0 || i >= s.len() {
    } else if s[i].handle == h {
    } else {
        lemma_staging_idx_props(s, h, i + 1);
    }
}

impl ShaderBufferRenderSet {
    /// An empty staging pool.
    pub fn new() -> (r: Self)
        ensures
            r@ == Seq::<CopyBufferEntry>::empty(),
    {
        ShaderBufferRenderSet { copy_buffers: Vec::new() }
    }

    /// Whether the handle already has a staging allocation.
    pub fn has_copy_buffer(&self, handle: ShaderBufferHandle) -> (r: bool)
        ensures
            r == has_staging(self@, handle),
    {
        let mut i: usize = 0;
        while i < self.copy_buffers.len()
            invariant
                0 <= i <= self.copy_buffers.len(),
                staging_idx(self@, handle, 0) == staging_idx(self@, handle, i as int),
            decreases self.copy_buffers.len() - i,
        {
            if self.copy_buffers[i].handle == handle {
                proof {
                    lemma_staging_idx_props(self@, handle, 0);
                }
                return true;
            }
            i = i + 1;
        }
        false
    }

    /// Registers a fresh staging allocation for a storage buffer. Creating a
    /// second one for the same handle is a caller error and ruled out here.
    pub fn create_copy_buffer(
        &mut self,
        handle: ShaderBufferHandle,
        buffers: &ShaderBufferSet,
    ) -> (size: u32)
        requires
            !has_staging(old(self)@, handle),
            readback_valid(buffers@, handle),
        ensures
            final(self)@ == old(self)@.push(CopyBufferEntry { handle, size, copied: false }),
            size == lookup_v(buffers@, handle)->Some_0.storage.byte_size(),
    {
        let e = match buffers.lookup(handle) {
            Some(e) => e,
            None => vstd::pervasive::unreached(),
        };
        let size = match e.storage {
            ShaderBufferStorage::Storage { size, .. } => size,
            _ => vstd::pervasive::unreached(),
        };
        self.copy_buffers.push(CopyBufferEntry { handle, size, copied: false });
        size
    }

    /// Drops the staging allocation of a handle that has one, so the host
    /// can destroy the backing buffer. Removing one that does not exist is a
    /// caller error and ruled out here.
    pub fn remove_copy_buffer(&mut self, handle: ShaderBufferHandle)
        requires
            has_staging(old(self)@, handle),
        ensures
            final(self)@ == old(self)@.remove(staging_idx(old(self)@, handle, 0)),
    {
        let ghost s0 = self@;
        proof {
            lemma_staging_idx_props(s0, handle, 0);
        }
        let mut i: usize = 0;
        while i < self.copy_buffers.len()
            invariant
                self@ == s0,
                s0 == old(self)@,
                has_staging(s0, handle),
                0 <= i <= self.copy_buffers.len(),
                staging_idx(s0, handle, 0) == staging_idx(s0, handle, i as int),
            decreases self.copy_buffers.len() - i,
        {
            if self.copy_buffers[i].handle == handle {
                proof {
                    lemma_staging_idx_props(s0, handle, 0);
                }
                let _freed = self.copy_buffers.remove(i);
                return ;
            }
            i = i + 1;
        }
        proof {
            lemma_staging_idx_props(s0, handle, 0);
            assert(false);
        }
    }

    /// Phase 1 of a readback, as bookkeeping: makes sure the handle has a
    /// staging allocation (of the source's byte size) and marks it copied.
    /// The host performs the matching GPU copy when it executes the
    /// `CopyBufferToStaging` command of the same tick.
    pub fn stage_phase1(&mut self, handle: ShaderBufferHandle, buffers: &ShaderBufferSet)
        requires
            readback_valid(buffers@, handle),
        ensures
            final(self)@ == phase1_v(
                old(self)@,
                handle,
                lookup_v(buffers@, handle)->Some_0.storage.byte_size(),
            ),
    {
        let ghost s0 = self@;
        let ghost size = lookup_v(buffers@, handle)->Some_0.storage.byte_size();
        if !self.has_copy_buffer(handle) {
            let _size = self.create_copy_buffer(handle, buffers);
            proof {
                lemma_staging_idx_props(self@, handle, 0);
                assert(has_staging(self@, handle)) by {
                    if staging_idx(self@, handle, 0) == -1 {
                        assert(self@[self@.len() - 1].handle != handle);
                    }
                }
            }
        }
        proof {
            assert(self@ == ensure_staging_v(s0, handle, size));
        }
        self.copy_to_copy_buffer(handle);
    }

    /// Marks the handle's staging allocation as copied (phase 1 ran).
    /// Copying without a staging allocation is a caller error and ruled out
    /// here.
    pub fn copy_to_copy_buffer(&mut self, handle: ShaderBufferHandle)
        requires
            has_staging(old(self)@, handle),
        ensures
            final(self)@ == mark_copied_v(old(self)@, handle),
    {
        let ghost s0 = self@;
        proof {
            lemma_staging_idx_props(s0, handle, 0);
        }
        let mut i: usize = 0;
        while i < self.copy_buffers.len()
            invariant
                self@ == s0,
                s0 == old(self)@,
                has_staging(s0, handle),
                0 <= i <= self.copy_buffers.len(),
                staging_idx(s0, handle, 0) == staging_idx(s0, handle, i as int),
            decreases self.copy_buffers.len() - i,
        {
            if self.copy_buffers[i].handle == handle {
                let e = self.copy_buffers[i];
                proof {
                    lemma_staging_idx_props(s0, handle, 0);
                }
                self.copy_buffers[i] = CopyBufferEntry {
                    handle: e.handle,
                    size: e.size,
                    copied: true,
                };
                return ;
            }
            i = i + 1;
        }
        proof {
            lemma_staging_idx_props(s0, handle, 0);
            assert(false);
        }
    }

    /// Phase 2's verified half: wraps the bytes the host read out of the
    /// mapped staging allocation into the message the logic context
    /// receives. Reading before phase 1 ran, or without a staging
    /// allocation, is a caller error and ruled out here.
    pub fn readback_message(&self, handle: ShaderBufferHandle, data: Vec<u8>) -> (m:
        ComputeMessage)
        requires
            has_staging(self@, handle),
            self@[staging_idx(self@, handle, 0)].copied,
        ensures
            m@ == (MessageV::CopyBuffer { buffer: handle, data: data@ }),
    {
        ComputeMessage::CopyBuffer(CopyBufferEvent { buffer: handle, data })
    }
}

/// Scans a pool for the entry with the given id.
fn find_in_vec(s: &Vec<ShaderBufferInfo>, id: u32) -> (r: Option<ShaderBufferInfo>)
    ensures
        r == if find_idx(s@, id, 0) >= 0 {
            Some(s@[find_idx(s@, id, 0)])
        } else {
            None::<ShaderBufferInfo>
        },
{
    let mut i: usize = 0;
    while i < s.len()
        invariant
            0 <= i <= s.len(),
            find_idx(s@, id, 0) == find_idx(s@, id, i as int),
        decreases s.len() - i,
    {
        if s[i].id == id {
            return Some(s[i]);
        }
        i = i + 1;
    }
    None
}

} // verus!
