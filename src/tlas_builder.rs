use crate::blas::{replace_buffer, AccelerationStructure, BufferRef};
use crate::render_device::VkDestroyCmd;
use crate::vk_utils::{aligned_size, is_aligned_up, is_power_of_two};
use vstd::prelude::*;

verus! {

/// Values of the 24-bit custom-index and hit-group-offset fields of an
/// instance are below this bound.
pub const INSTANCE_FIELD_LIMIT: u32 = 0x100_0000;

/// Mask of every instance: visible to all rays.
pub const INSTANCE_MASK: u8 = 0xff;

/// Flags of every instance: face culling disabled.
pub const INSTANCE_FLAGS: u8 = 1;

/// What an object of the scene is traced as.
#[derive(Clone, Copy, Debug, PartialEq, Eq, Structural)]
pub enum InstanceKind {
    /// A triangle mesh, by the key of its mesh asset.
    Mesh(u64),
    /// The analytic sphere, which has the procedural hit group.
    Sphere,
}

/// One renderable object this frame.
#[derive(Clone, Copy, Debug)]
pub struct SceneObject {
    pub kind: InstanceKind,
    /// Device address of the object's bottom-level structure; `None` while
    /// it is still being prepared.
    pub blas_address: Option<u64>,
    /// World transform as bit patterns of the affine matrix, column-major:
    /// four columns of three rows.
    pub transform: [u32; 12],
    /// How many materials the object contributes to the material table.
    pub material_count: u32,
}

/// One entry of the instance buffer.
#[derive(Clone, Copy, Debug)]
pub struct InstanceRecord {
    /// The affine transform, row-major: three rows of four.
    pub transform: [u32; 12],
    /// Position of the instance's first material in the material table.
    pub custom_index: u32,
    pub mask: u8,
    /// Hit-group offset into the hit region of the binding table.
    pub sbt_offset: u32,
    pub flags: u8,
    pub blas_address: u64,
}

/// The content of an instance record.
pub struct InstanceModel {
    pub transform: Seq<u32>,
    pub custom_index: int,
    pub mask: u8,
    pub sbt_offset: int,
    pub flags: u8,
    pub blas_address: u64,
}

impl View for InstanceRecord {
    type V = InstanceModel;

    open spec fn view(&self) -> InstanceModel {
        InstanceModel {
            transform: self.transform@,
            custom_index: self.custom_index as int,
            mask: self.mask,
            sbt_offset: self.sbt_offset as int,
            flags: self.flags,
            blas_address: self.blas_address,
        }
    }
}

/// Why a frame cannot be laid out.
#[derive(Clone, Copy, Debug, PartialEq, Eq, Structural)]
pub enum TlasError {
    /// A material offset does not fit the 24-bit custom index.
    TooManyMaterials,
    /// A hit-group offset does not fit its 24-bit field.
    TooManyMeshes,
}

/// The column-major 4x3 matrix `c` written row-major as 3x4.
pub open spec fn row_major(c: Seq<u32>) -> Seq<u32> {
    Seq::new(12, |i: int| c[(i % 4) * 3 + i / 4])
}

pub open spec fn is_ready(o: SceneObject) -> bool {
    o.blas_address.is_some()
}

/// Position of `m` in `ks`, or -1.
pub open spec fn slot_in(ks: Seq<u64>, m: u64) -> int
    decreases ks.len(),
{
    if ks.len() == 0 {
        -1
    } else if ks.last() == m {
        ks.len() - 1
    } else {
        slot_in(ks.drop_last(), m)
    }
}

/// The meshes with a ready structure among the first `k` objects, in order
/// of first appearance; mesh `keys[i]` has hit-group offset `i + 1`.
pub open spec fn frame_keys(objs: Seq<SceneObject>, k: int) -> Seq<u64>
    decreases k,
{
    if k <= 0 {
        Seq::empty()
    } else {
        let ks = frame_keys(objs, k - 1);
        let o = objs[k - 1];
        match o.kind {
            InstanceKind::Mesh(m) => if is_ready(o) && !ks.contains(m) {
                ks.push(m)
            } else {
                ks
            },
            InstanceKind::Sphere => ks,
        }
    }
}

/// Materials of the ready objects among the first `k`.
pub open spec fn frame_materials(objs: Seq<SceneObject>, k: int) -> int
    decreases k,
{
    if k <= 0 {
        0
    } else {
        frame_materials(objs, k - 1) + if is_ready(objs[k - 1]) {
            objs[k - 1].material_count as int
        } else {
            0
        }
    }
}

/// The hit-group offset of a ready object once `ks` holds its mesh.
pub open spec fn hit_offset_of(o: SceneObject, ks: Seq<u64>) -> int {
    match o.kind {
        InstanceKind::Mesh(m) => slot_in(ks, m) + 1,
        InstanceKind::Sphere => 0,
    }
}

/// The instance records of the first `k` objects.
pub open spec fn frame_instances(objs: Seq<SceneObject>, k: int) -> Seq<InstanceModel>
    decreases k,
{
    if k <= 0 {
        Seq::empty()
    } else {
        let o = objs[k - 1];
        let prev = frame_instances(objs, k - 1);
        if is_ready(o) {
            prev.push(
                InstanceModel {
                    transform: row_major(o.transform@),
                    custom_index: frame_materials(objs, k - 1),
                    mask: INSTANCE_MASK,
                    sbt_offset: hit_offset_of(o, frame_keys(objs, k)),
                    flags: INSTANCE_FLAGS,
                    blas_address: o.blas_address.unwrap(),
                },
            )
        } else {
            prev
        }
    }
}

/// The first field overflow among the first `k` objects.
pub open spec fn frame_error(objs: Seq<SceneObject>, k: int) -> Option<TlasError>
    decreases k,
{
    if k <= 0 {
        None
    } else if frame_error(objs, k - 1).is_some() {
        frame_error(objs, k - 1)
    } else if !is_ready(objs[k - 1]) {
        None
    } else if frame_materials(objs, k - 1) >= INSTANCE_FIELD_LIMIT {
        Some(TlasError::TooManyMaterials)
    } else if hit_offset_of(objs[k - 1], frame_keys(objs, k)) >= INSTANCE_FIELD_LIMIT {
        Some(TlasError::TooManyMeshes)
    } else {
        None
    }
}

/// The materials an object contributes, by where they come from.
pub open spec fn materials_of<M>(own: Option<Option<M>>, mesh_materials: Option<Seq<M>>, default: M) -> Seq<M> {
    match own {
        Some(Some(m)) => seq![m],
        Some(None) => seq![default],
        None => match mesh_materials {
            Some(ms) => ms,
            None => seq![default],
        },
    }
}

/// The materials of one object. An object with a material of its own
/// uses it, or the default one while that material is not prepared yet;
/// an object without one uses its mesh's materials; failing both, it uses
/// the default material, and the second result says that this fallback
/// deserves a warning.
pub fn instance_materials<M: Copy>(own: Option<Option<M>>, mesh_materials: Option<&Vec<M>>, default: M) -> (r: (
    Vec<M>,
    bool,
))
    ensures
        r.0@ == materials_of(
            own,
            match mesh_materials {
                Some(v) => Some(v@),
                None => None,
            },
            default,
        ),
        r.1 == (own.is_none() && mesh_materials.is_none()),
{
    match own {
        Some(Some(m)) => {
            let mut v = Vec::new();
            v.push(m);
            assert(v@ =~= seq![m]);
            (v, false)
        },
        Some(None) => {
            let mut v = Vec::new();
            v.push(default);
            assert(v@ =~= seq![default]);
            (v, false)
        },
        None => match mesh_materials {
            Some(ms) => {
                let mut v: Vec<M> = Vec::new();
                let mut i: usize = 0;
                while i < ms.len()
                    invariant
                        i <= ms@.len(),
                        v@ == ms@.subrange(0, i as int),
                    decreases ms@.len() - i,
                {
                    v.push(ms[i]);
                    i = i + 1;
                    assert(v@ =~= ms@.subrange(0, i as int));
                }
                assert(ms@.subrange(0, i as int) =~= ms@);
                (v, false)
            },
            None => {
                let mut v = Vec::new();
                v.push(default);
                assert(v@ =~= seq![default]);
                (v, true)
            },
        },
    }
}

/// The meshes that have a hit group this frame; the mesh at position `i`
/// has offset `i + 1`, offset 0 being the sphere's.
pub struct HitOffsets {
    meshes: Vec<u64>,
}

impl View for HitOffsets {
    type V = Seq<u64>;

    closed spec fn view(&self) -> Seq<u64> {
        self.meshes@
    }
}

impl HitOffsets {
    pub fn new() -> (r: Self)
        ensures
            r@.len() == 0,
    {
        HitOffsets { meshes: Vec::new() }
    }

    /// Number of meshes with a hit group.
    pub fn len(&self) -> (r: usize)
        ensures
            r == self@.len(),
    {
        self.meshes.len()
    }

    /// The mesh that has offset `i + 1`.
    pub fn mesh_at(&self, i: usize) -> (r: u64)
        requires
            i < self@.len(),
        ensures
            r == self@[i as int],
    {
        self.meshes[i]
    }

    /// The hit-group offset of `mesh`, if it has one this frame.
    pub fn get(&self, mesh: u64) -> (r: Option<u32>)
        requires
            self@.len() < INSTANCE_FIELD_LIMIT,
        ensures
            slot_in(self@, mesh) < 0 ==> r.is_none(),
            slot_in(self@, mesh) >= 0 ==> r == Some((slot_in(self@, mesh) + 1) as u32),
    {
        let mut i: usize = self.meshes.len();
        assert(self@.subrange(0, i as int) =~= self@);
        while i > 0
            invariant
                i <= self@.len(),
                self@.len() < INSTANCE_FIELD_LIMIT,
                slot_in(self@, mesh) == slot_in(self@.subrange(0, i as int), mesh),
            decreases i,
        {
            let ghost pre = self@.subrange(0, i as int);
            if self.meshes[i - 1] == mesh {
                return Some(i as u32);
            }
            assert(pre.drop_last() =~= self@.subrange(0, i - 1));
            i = i - 1;
        }
        None
    }

    fn push(&mut self, mesh: u64)
        ensures
            final(self)@ == old(self)@.push(mesh),
    {
        self.meshes.push(mesh);
    }
}

/// Everything the instance buffer and the binding table need this frame.
pub struct TlasFrame {
    pub instances: Vec<InstanceRecord>,
    /// Materials of all instances; the material table's length.
    pub material_count: u64,
    pub mesh_to_hit_offset: HitOffsets,
}

pub open spec fn view_instances(v: Seq<InstanceRecord>) -> Seq<InstanceModel> {
    v.map_values(|r: InstanceRecord| r@)
}

proof fn lemma_slot_in_bound(ks: Seq<u64>, m: u64)
    ensures
        -1 <= slot_in(ks, m) < ks.len(),
        slot_in(ks, m) >= 0 ==> ks[slot_in(ks, m)] == m,
        slot_in(ks, m) < 0 ==> !ks.contains(m),
    decreases ks.len(),
{
    if ks.len() > 0 {
        lemma_slot_in_bound(ks.drop_last(), m);
        if ks.last() != m && slot_in(ks, m) < 0 {
            assert forall|i: int| 0 <= i < ks.len() implies ks[i] != m by {
                if i < ks.len() - 1 {
                    assert(ks.drop_last()[i] == ks[i]);
                }
            }
        }
    }
}

/// Lays out this frame's instances: every object whose structure is ready
/// gets a record, in order; each mesh gets one hit-group offset, counting
/// from 1 in order of first appearance, the sphere has offset 0; each
/// record's custom index is the position of its first material.
pub fn plan_frame(objs: &Vec<SceneObject>) -> (r: Result<TlasFrame, TlasError>)
    ensures
        frame_error(objs@, objs@.len() as int) matches Some(e) ==> r == Err::<TlasFrame, TlasError>(e),
        frame_error(objs@, objs@.len() as int).is_none() ==> (r matches Ok(f) && {
            &&& view_instances(f.instances@) == frame_instances(objs@, objs@.len() as int)
            &&& f.mesh_to_hit_offset@ == frame_keys(objs@, objs@.len() as int)
            &&& f.material_count == frame_materials(objs@, objs@.len() as int)
        }),
{
    let ghost os = objs@;
    let mut instances: Vec<InstanceRecord> = Vec::new();
    let mut offsets = HitOffsets::new();
    let mut material_offset: u64 = 0;
    let mut i: usize = 0;
    while i < objs.len()
        invariant
            os == objs@,
            i <= os.len(),
            frame_error(os, i as int).is_none(),
            view_instances(instances@) == frame_instances(os, i as int),
            offsets@ == frame_keys(os, i as int),
            offsets@.len() < INSTANCE_FIELD_LIMIT,
            material_offset == frame_materials(os, i as int),
            material_offset <= INSTANCE_FIELD_LIMIT + 0xffff_ffff,
        decreases os.len() - i,
    {
        let o = objs[i];
        match o.blas_address {
            None => {
                assert(view_instances(instances@) =~= frame_instances(os, i as int + 1));
            },
            Some(address) => {
                if material_offset >= INSTANCE_FIELD_LIMIT as u64 {
                    proof {
                        lemma_frame_error_stays(os, i as int + 1, os.len() as int);
                    }
                    return Err(TlasError::TooManyMaterials);
                }
                let hit_offset: u32 = match o.kind {
                    InstanceKind::Sphere => 0,
                    InstanceKind::Mesh(m) => {
                        let found = offsets.get(m);
                        proof {
                            lemma_slot_in_bound(offsets@, m);
                        }
                        match found {
                            Some(h) => {
                                proof {
                                    lemma_slot_in_bound(offsets@, m);
                                }
                                h
                            },
                            None => {
                                if offsets.len() + 1 >= INSTANCE_FIELD_LIMIT as usize {
                                    proof {
                                        let ks = offsets@.push(m);
                                        assert(ks.drop_last() =~= offsets@);
                                        assert(slot_in(ks, m) == offsets@.len());
                                        lemma_frame_error_stays(os, i as int + 1, os.len() as int);
                                    }
                                    return Err(TlasError::TooManyMeshes);
                                }
                                let ghost before = offsets@;
                                offsets.push(m);
                                proof {
                                    assert(offsets@.drop_last() =~= before);
                                }
                                offsets.len() as u32
                            },
                        }
                    },
                };
                proof {
                    match o.kind {
                        InstanceKind::Mesh(m) => {
                            if slot_in(frame_keys(os, i as int), m) >= 0 {
                                lemma_slot_in_bound(frame_keys(os, i as int), m);
                            }
                        },
                        InstanceKind::Sphere => {},
                    }
                }
                let rec = InstanceRecord {
                    transform: [
                        o.transform[0],
                        o.transform[3],
                        o.transform[6],
                        o.transform[9],
                        o.transform[1],
                        o.transform[4],
                        o.transform[7],
                        o.transform[10],
                        o.transform[2],
                        o.transform[5],
                        o.transform[8],
                        o.transform[11],
                    ],
                    custom_index: material_offset as u32,
                    mask: INSTANCE_MASK,
                    sbt_offset: hit_offset,
                    flags: INSTANCE_FLAGS,
                    blas_address: address,
                };
                let ghost prev = instances@;
                instances.push(rec);
                proof {
                    assert(rec.transform@ =~= row_major(o.transform@));
                    assert(view_instances(instances@) =~= view_instances(prev).push(rec@));
                }
                material_offset = material_offset + o.material_count as u64;
            },
        }
        i = i + 1;
    }
    Ok(TlasFrame { instances, material_count: material_offset, mesh_to_hit_offset: offsets })
}

/// For each instance record of the first `k` objects, the object it
/// comes from.
pub open spec fn frame_sources(objs: Seq<SceneObject>, k: int) -> Seq<int>
    decreases k,
{
    if k <= 0 {
        Seq::empty()
    } else if is_ready(objs[k - 1]) {
        frame_sources(objs, k - 1).push(k - 1)
    } else {
        frame_sources(objs, k - 1)
    }
}

proof fn lemma_keys_prefix(objs: Seq<SceneObject>, i: int, k: int)
    requires
        0 <= i <= k <= objs.len(),
    ensures
        frame_keys(objs, i).len() <= frame_keys(objs, k).len(),
        forall|t: int| 0 <= t < frame_keys(objs, i).len() ==> #[trigger] frame_keys(objs, k)[t] == frame_keys(objs, i)[t],
    decreases k - i,
{
    if i < k {
        lemma_keys_prefix(objs, i, k - 1);
    }
}

/// Every instance of a frame carries the hit-group offset of its own
/// object: 0 for the sphere, and for a mesh an offset of at least 1 whose
/// entry in the frame's table is that mesh. So no mesh ever gets the
/// procedural group's offset, and every offset names an entry of the table.
pub proof fn lemma_offsets_in_table(objs: Seq<SceneObject>, k: int)
    requires
        0 <= k <= objs.len(),
    ensures
        frame_sources(objs, k).len() == frame_instances(objs, k).len(),
        forall|j: int|
            0 <= j < frame_instances(objs, k).len() ==> {
                let src = #[trigger] frame_sources(objs, k)[j];
                let h = frame_instances(objs, k)[j].sbt_offset;
                &&& 0 <= src < k
                &&& is_ready(objs[src])
                &&& frame_instances(objs, k)[j].blas_address == objs[src].blas_address.unwrap()
                &&& 0 <= h <= frame_keys(objs, k).len()
                &&& objs[src].kind == InstanceKind::Sphere ==> h == 0
                &&& objs[src].kind matches InstanceKind::Mesh(m) ==> h >= 1 && frame_keys(objs, k)[h - 1] == m
            },
    decreases k,
{
    if k > 0 {
        lemma_offsets_in_table(objs, k - 1);
        lemma_keys_prefix(objs, k - 1, k);
        let o = objs[k - 1];
        let ks = frame_keys(objs, k);
        if let InstanceKind::Mesh(m) = o.kind {
            if is_ready(o) {
                lemma_slot_in_bound(ks, m);
                assert(ks.contains(m)) by {
                    let prev = frame_keys(objs, k - 1);
                    if !prev.contains(m) {
                        assert(ks[ks.len() - 1] == m);
                    } else {
                        let w = choose|w: int| 0 <= w < prev.len() && prev[w] == m;
                        assert(ks[w] == m);
                    }
                }
            }
        }
        let prev = frame_instances(objs, k - 1);
        let cur = frame_instances(objs, k);
        let ps = frame_sources(objs, k - 1);
        let cs = frame_sources(objs, k);
        assert forall|j: int| 0 <= j < cur.len() implies {
            let src = #[trigger] cs[j];
            let h = cur[j].sbt_offset;
            &&& 0 <= src < k
            &&& is_ready(objs[src])
            &&& cur[j].blas_address == objs[src].blas_address.unwrap()
            &&& 0 <= h <= ks.len()
            &&& objs[src].kind == InstanceKind::Sphere ==> h == 0
            &&& objs[src].kind matches InstanceKind::Mesh(m) ==> h >= 1 && ks[h - 1] == m
        } by {
            if j < prev.len() {
                assert(cur[j] == prev[j]);
                assert(cs[j] == ps[j]);
                let src = ps[j];
                let h = prev[j].sbt_offset;
                if let InstanceKind::Mesh(m) = objs[src].kind {
                    assert(frame_keys(objs, k - 1)[h - 1] == m);
                }
            }
        }
    }
}

/// A frame has no more meshes with a hit group than instances; so a frame
/// without instances has an empty hit-group table, and after such a frame
/// the binding table's hit region holds the procedural record only.
pub proof fn lemma_keys_within_instances(objs: Seq<SceneObject>, k: int)
    requires
        0 <= k <= objs.len(),
    ensures
        frame_keys(objs, k).len() <= frame_instances(objs, k).len(),
        frame_instances(objs, k).len() == 0 ==> frame_keys(objs, k).len() == 0,
    decreases k,
{
    if k > 0 {
        lemma_keys_within_instances(objs, k - 1);
    }
}

proof fn lemma_frame_error_stays(objs: Seq<SceneObject>, i: int, n: int)
    requires
        0 <= i <= n,
        frame_error(objs, i).is_some(),
    ensures
        frame_error(objs, n) == frame_error(objs, i),
    decreases n - i,
{
    if i < n {
        lemma_frame_error_stays(objs, i, n - 1);
    }
}

/// What happens to the instance and material buffers this frame.
#[derive(Clone, Copy, Debug, PartialEq, Eq, Structural)]
pub enum InstanceBufferStep {
    /// No instance: the previous structure stays as it is.
    Skip,
    /// Same number of instances: rewrite the buffers in place.
    InPlace,
    /// The number changed: make new buffers of this many instances.
    Reallocate(u64),
}

/// The process-wide top-level acceleration structure and its buffers.
pub struct TLAS {
    pub acceleration_structure: AccelerationStructure,
    pub instance_buffer: BufferRef,
    pub scratch_buffer: BufferRef,
    pub material_buffer: BufferRef,
    pub mesh_to_hit_offset: HitOffsets,
}

impl TLAS {
    /// No structure and no buffers yet.
    pub fn new() -> (r: Self)
        ensures
            r.instance_buffer.nr_elements == 0,
            r.scratch_buffer.nr_elements == 0,
            r.acceleration_structure.buffer.nr_elements == 0,
            r.mesh_to_hit_offset@.len() == 0,
    {
        TLAS {
            acceleration_structure: AccelerationStructure::null(),
            instance_buffer: BufferRef::null(),
            scratch_buffer: BufferRef::null(),
            material_buffer: BufferRef::null(),
            mesh_to_hit_offset: HitOffsets::new(),
        }
    }

    /// Starts this frame's update. The frame's hit-group offsets replace
    /// the previous ones in full, also when the frame has no instance. With
    /// no instance the structure and its buffers stay exactly as they are
    /// and nothing is built; otherwise the buffers are made anew exactly
    /// when the number of instances changed.
    pub fn begin_update(&mut self, frame: TlasFrame) -> (step: InstanceBufferStep)
        ensures
            frame.instances@.len() == 0 ==> step == InstanceBufferStep::Skip,
            final(self).mesh_to_hit_offset@ == frame.mesh_to_hit_offset@,
            frame.instances@.len() > 0 && frame.instances@.len()
                == old(self).instance_buffer.nr_elements ==> step == InstanceBufferStep::InPlace,
            frame.instances@.len() > 0 && frame.instances@.len()
                != old(self).instance_buffer.nr_elements ==> step == InstanceBufferStep::Reallocate(
                frame.instances@.len() as u64,
            ),
            final(self).acceleration_structure == old(self).acceleration_structure,
            final(self).instance_buffer == old(self).instance_buffer,
            final(self).scratch_buffer == old(self).scratch_buffer,
            final(self).material_buffer == old(self).material_buffer,
    {
        let count = frame.instances.len();
        self.mesh_to_hit_offset = frame.mesh_to_hit_offset;
        if count == 0 {
            return InstanceBufferStep::Skip;
        }
        if count as u64 == self.instance_buffer.nr_elements {
            InstanceBufferStep::InPlace
        } else {
            InstanceBufferStep::Reallocate(count as u64)
        }
    }

    /// Installs the new instance and material buffers, handing the old
    /// ones to deferred destruction.
    pub fn replace_instance_buffers(
        &mut self,
        instance_buffer: BufferRef,
        material_buffer: BufferRef,
        outbox: &mut Vec<VkDestroyCmd>,
    )
        ensures
            final(self).instance_buffer == instance_buffer,
            final(self).material_buffer == material_buffer,
            final(self).acceleration_structure == old(self).acceleration_structure,
            final(self).scratch_buffer == old(self).scratch_buffer,
            final(self).mesh_to_hit_offset == old(self).mesh_to_hit_offset,
            final(outbox)@ == old(outbox)@ + seq![
                VkDestroyCmd::Buffer(old(self).instance_buffer.handle),
                VkDestroyCmd::Buffer(old(self).material_buffer.handle),
            ],
    {
        let ghost start = outbox@;
        replace_buffer(&mut self.instance_buffer, instance_buffer, outbox);
        replace_buffer(&mut self.material_buffer, material_buffer, outbox);
        assert(outbox@ =~= start + seq![
            VkDestroyCmd::Buffer(old(self).instance_buffer.handle),
            VkDestroyCmd::Buffer(old(self).material_buffer.handle),
        ]);
    }

    /// Whether the structure's backing buffer must grow to hold
    /// `required` bytes; it never shrinks.
    pub fn needs_larger_storage(&self, required: u64) -> (r: bool)
        ensures
            r == (required > self.acceleration_structure.buffer.nr_elements),
    {
        required > self.acceleration_structure.buffer.nr_elements
    }

    /// The scratch size to build with: the reported size rounded up to the
    /// scratch alignment, and whether the scratch buffer must grow to it.
    pub fn scratch_plan(&self, required: u64, alignment: u64) -> (r: (u64, bool))
        requires
            is_power_of_two(alignment),
            required + alignment - 1 <= u64::MAX,
        ensures
            is_aligned_up(r.0 as int, required as int, alignment as int),
            r.1 == (r.0 > self.scratch_buffer.nr_elements),
    {
        let size = aligned_size(required, alignment);
        (size, size > self.scratch_buffer.nr_elements)
    }

    /// Installs a larger backing buffer for the structure.
    pub fn replace_storage(&mut self, buffer: BufferRef, outbox: &mut Vec<VkDestroyCmd>)
        ensures
            final(self).acceleration_structure.buffer == buffer,
            final(self).acceleration_structure.handle == old(self).acceleration_structure.handle,
            final(self).instance_buffer == old(self).instance_buffer,
            final(self).scratch_buffer == old(self).scratch_buffer,
            final(outbox)@ == old(outbox)@.push(
                VkDestroyCmd::Buffer(old(self).acceleration_structure.buffer.handle),
            ),
    {
        replace_buffer(&mut self.acceleration_structure.buffer, buffer, outbox);
    }

    /// Installs a larger scratch buffer.
    pub fn replace_scratch(&mut self, buffer: BufferRef, outbox: &mut Vec<VkDestroyCmd>)
        ensures
            final(self).scratch_buffer == buffer,
            final(self).acceleration_structure == old(self).acceleration_structure,
            final(self).instance_buffer == old(self).instance_buffer,
            final(outbox)@ == old(outbox)@.push(VkDestroyCmd::Buffer(old(self).scratch_buffer.handle)),
    {
        replace_buffer(&mut self.scratch_buffer, buffer, outbox);
    }

    /// Installs the structure object created for this build over the
    /// current backing buffer; the previous object is handed to deferred
    /// destruction.
    pub fn replace_structure(&mut self, handle: u64, address: u64, outbox: &mut Vec<VkDestroyCmd>)
        ensures
            final(self).acceleration_structure.handle == handle,
            final(self).acceleration_structure.address == address,
            final(self).acceleration_structure.buffer == old(self).acceleration_structure.buffer,
            final(self).instance_buffer == old(self).instance_buffer,
            final(self).scratch_buffer == old(self).scratch_buffer,
            final(outbox)@ == old(outbox)@.push(
                VkDestroyCmd::AccelerationStructure(old(self).acceleration_structure.handle),
            ),
    {
        outbox.push(VkDestroyCmd::AccelerationStructure(self.acceleration_structure.handle));
        self.acceleration_structure.handle = handle;
        self.acceleration_structure.address = address;
    }

    /// The requests that release everything the structure holds.
    pub fn destroy(&self, outbox: &mut Vec<VkDestroyCmd>)
        ensures
            final(outbox)@ == old(outbox)@ + self.acceleration_structure.destroy_cmds() + seq![
                VkDestroyCmd::Buffer(self.instance_buffer.handle),
                VkDestroyCmd::Buffer(self.scratch_buffer.handle),
                VkDestroyCmd::Buffer(self.material_buffer.handle),
            ],
    {
        self.acceleration_structure.destroy(outbox);
        outbox.push(VkDestroyCmd::Buffer(self.instance_buffer.handle));
        outbox.push(VkDestroyCmd::Buffer(self.scratch_buffer.handle));
        outbox.push(VkDestroyCmd::Buffer(self.material_buffer.handle));
        assert(outbox@ =~= old(outbox)@ + self.acceleration_structure.destroy_cmds() + seq![
            VkDestroyCmd::Buffer(self.instance_buffer.handle),
            VkDestroyCmd::Buffer(self.scratch_buffer.handle),
            VkDestroyCmd::Buffer(self.material_buffer.handle),
        ]);
    }
}

} // verus!
