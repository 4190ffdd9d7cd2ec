use crate::tlas_builder::{
    frame_instances, frame_keys, frame_sources, lemma_offsets_in_table, HitOffsets, InstanceKind,
    SceneObject, INSTANCE_FIELD_LIMIT,
};
use crate::vk_utils::{aligned_size, is_aligned_up, is_power_of_two};
use vstd::arithmetic::power2::pow2;
use vstd::prelude::*;

verus! {

/// Size of a shader-group handle.
pub const GROUP_HANDLE_SIZE: u64 = 32;

/// Size of a triangle hit record: a handle and five device addresses. A
/// procedural hit record is a handle only, so this is the larger one.
pub const HIT_TRIANGLE_RECORD_SIZE: u64 = 72;

/// Largest alignment the graphics API lets a device ask of binding-table
/// records.
pub const MAX_SBT_ALIGNMENT: u32 = 64;

/// The device's alignment rules for binding-table records, read once.
pub struct SBTAligments {
    pub shader_group_handle_alignment: u64,
    pub shader_group_base_alignment: u64,
}

impl SBTAligments {
    pub open spec fn wf(&self) -> bool {
        &&& is_power_of_two(self.shader_group_handle_alignment)
        &&& is_power_of_two(self.shader_group_base_alignment)
        &&& self.shader_group_handle_alignment <= MAX_SBT_ALIGNMENT
        &&& self.shader_group_base_alignment <= MAX_SBT_ALIGNMENT
    }

    pub fn new(shader_group_handle_alignment: u32, shader_group_base_alignment: u32) -> (r: Self)
        requires
            is_power_of_two(shader_group_handle_alignment as u64),
            is_power_of_two(shader_group_base_alignment as u64),
            shader_group_handle_alignment <= MAX_SBT_ALIGNMENT,
            shader_group_base_alignment <= MAX_SBT_ALIGNMENT,
        ensures
            r.wf(),
            r.shader_group_handle_alignment == shader_group_handle_alignment,
            r.shader_group_base_alignment == shader_group_base_alignment,
    {
        SBTAligments {
            shader_group_handle_alignment: shader_group_handle_alignment as u64,
            shader_group_base_alignment: shader_group_base_alignment as u64,
        }
    }
}

/// A strided region of the binding table; addresses are offsets from the
/// start of the table's buffer.
#[derive(Clone, Copy, Debug, PartialEq, Eq, Structural)]
pub struct StridedRegion {
    pub offset: u64,
    pub stride: u64,
    pub size: u64,
}

/// `[raygen region][miss region][hit region]`.
#[derive(Clone, Copy, Debug, PartialEq, Eq, Structural)]
pub struct SbtLayout {
    pub raygen: StridedRegion,
    pub miss: StridedRegion,
    pub hit: StridedRegion,
}

impl SbtLayout {
    pub open spec fn total(&self) -> int {
        self.raygen.size + self.miss.size + self.hit.size
    }

    /// The layout for `mesh_count` meshes under `al`: raygen and miss hold
    /// one aligned handle each; the hit region has room for the procedural
    /// group and every mesh, at a stride that fits the larger record.
    pub open spec fn is_layout_for(&self, al: SBTAligments, mesh_count: int) -> bool {
        &&& (exists|h: int|
            {
                &&& is_aligned_up(h, GROUP_HANDLE_SIZE as int, al.shader_group_handle_alignment as int)
                &&& is_aligned_up(self.raygen.stride as int, h, al.shader_group_base_alignment as int)
                &&& is_aligned_up(self.miss.stride as int, h, al.shader_group_base_alignment as int)
            })
        &&& is_aligned_up(
            self.hit.stride as int,
            HIT_TRIANGLE_RECORD_SIZE as int,
            al.shader_group_base_alignment as int,
        )
        &&& self.raygen.size == self.raygen.stride
        &&& self.miss.size == self.miss.stride
        &&& self.hit.size == self.hit.stride * (mesh_count + 1)
        &&& self.raygen.offset == 0
        &&& self.miss.offset == self.raygen.size
        &&& self.hit.offset == self.raygen.size + self.miss.size
    }
}

/// Computes the layout for `mesh_count` meshes.
pub fn sbt_layout(al: &SBTAligments, mesh_count: u64) -> (r: SbtLayout)
    requires
        al.wf(),
        mesh_count < INSTANCE_FIELD_LIMIT,
    ensures
        r.is_layout_for(*al, mesh_count as int),
        r.hit.stride >= HIT_TRIANGLE_RECORD_SIZE,
        r.raygen.size >= GROUP_HANDLE_SIZE,
        r.miss.size >= GROUP_HANDLE_SIZE,
        r.total() <= 0xffff_ffff,
{
    let handle_size_aligned = aligned_size(GROUP_HANDLE_SIZE, al.shader_group_handle_alignment);
    let raygen_stride = aligned_size(handle_size_aligned, al.shader_group_base_alignment);
    let miss_stride = aligned_size(handle_size_aligned, al.shader_group_base_alignment);
    // the triangle record is the larger of the two hit records
    let hit_stride = aligned_size(HIT_TRIANGLE_RECORD_SIZE, al.shader_group_base_alignment);
    assert(hit_stride * (mesh_count + 1) <= 136 * 0x100_0000) by (nonlinear_arith)
        requires
            hit_stride <= 136,
            mesh_count + 1 <= 0x100_0000,
    ;
    let hit_size = hit_stride * (mesh_count + 1);
    let raygen = StridedRegion { offset: 0, stride: raygen_stride, size: raygen_stride };
    let miss = StridedRegion { offset: raygen_stride, stride: miss_stride, size: miss_stride };
    let hit = StridedRegion {
        offset: raygen_stride + miss_stride,
        stride: hit_stride,
        size: hit_size,
    };
    let r = SbtLayout { raygen, miss, hit };
    assert(r.is_layout_for(*al, mesh_count as int));
    r
}

/// The four shader-group handles of the ray-tracing pipeline.
pub struct ShaderGroupHandles {
    pub raygen: [u8; 32],
    pub miss: [u8; 32],
    pub hit: [u8; 32],
    pub sphere_hit: [u8; 32],
}

/// Device addresses of the buffers a triangle hit record points at, for
/// one mesh.
#[derive(Clone, Copy, Debug, PartialEq, Eq, Structural)]
pub struct MeshAddresses {
    pub mesh: u64,
    pub vertex_buffer: u64,
    pub triangle_buffer: u64,
    pub index_buffer: u64,
    pub geometry_to_index: u64,
    pub geometry_to_triangle: u64,
}

/// Little-endian bytes of `x`.
pub open spec fn le64(x: u64) -> Seq<u8> {
    Seq::new(8, |i: int| ((x >> (8 * i) as u64) & 0xff) as u8)
}

/// A triangle hit record: the handle, then the five addresses.
pub open spec fn triangle_record(handle: Seq<u8>, m: MeshAddresses) -> Seq<u8> {
    handle + le64(m.vertex_buffer) + le64(m.triangle_buffer) + le64(m.index_buffer) + le64(
        m.geometry_to_index,
    ) + le64(m.geometry_to_triangle)
}

/// `data` holds `bytes` from position `at` on.
pub open spec fn holds_at(data: Seq<u8>, at: int, bytes: Seq<u8>) -> bool {
    &&& 0 <= at
    &&& at + bytes.len() <= data.len()
    &&& forall|k: int| 0 <= k < bytes.len() ==> data[at + k] == #[trigger] bytes[k]
}

/// The first entry of `ms` for `mesh`.
pub open spec fn find_mesh(ms: Seq<MeshAddresses>, mesh: u64) -> Option<MeshAddresses>
    decreases ms.len(),
{
    if ms.len() == 0 {
        None
    } else if ms[0].mesh == mesh {
        Some(ms[0])
    } else {
        find_mesh(ms.drop_first(), mesh)
    }
}

/// The table's bytes hold the raygen and miss handles, the procedural hit
/// record at hit offset 0, and, at hit offset `i + 1`, the record of mesh
/// `keys[i]` whenever its buffers are listed.
pub open spec fn sbt_written(
    data: Seq<u8>,
    layout: SbtLayout,
    handles: ShaderGroupHandles,
    keys: Seq<u64>,
    meshes: Seq<MeshAddresses>,
) -> bool {
    &&& holds_at(data, layout.raygen.offset as int, handles.raygen@)
    &&& holds_at(data, layout.miss.offset as int, handles.miss@)
    &&& holds_at(data, layout.hit.offset as int, handles.sphere_hit@)
    &&& forall|i: int|
        0 <= i < keys.len() ==> (#[trigger] find_mesh(meshes, keys[i]) matches Some(m)
            ==> holds_at(
            data,
            layout.hit.offset + (i + 1) * layout.hit.stride,
            triangle_record(handles.hit@, m),
        ))
}

fn push_le64(v: &mut Vec<u8>, x: u64)
    ensures
        final(v)@ == old(v)@ + le64(x),
{
    let mut k: u64 = 0;
    while k < 8
        invariant
            k <= 8,
            v@ == old(v)@ + le64(x).subrange(0, k as int),
        decreases 8 - k,
    {
        v.push(((x >> (8 * k)) & 0xff) as u8);
        k = k + 1;
        assert(v@ =~= old(v)@ + le64(x).subrange(0, k as int));
    }
    assert(le64(x).subrange(0, 8) =~= le64(x));
}

fn handle_bytes(h: &[u8; 32]) -> (r: Vec<u8>)
    ensures
        r@ == h@,
{
    let mut r: Vec<u8> = Vec::new();
    let mut k: usize = 0;
    while k < 32
        invariant
            k <= 32,
            r@ == h@.subrange(0, k as int),
        decreases 32 - k,
    {
        r.push(h[k]);
        k = k + 1;
        assert(r@ =~= h@.subrange(0, k as int));
    }
    assert(h@.subrange(0, 32) =~= h@);
    r
}

fn record_bytes(h: &[u8; 32], m: &MeshAddresses) -> (r: Vec<u8>)
    ensures
        r@ == triangle_record(h@, *m),
        r@.len() == HIT_TRIANGLE_RECORD_SIZE,
{
    let mut r = handle_bytes(h);
    push_le64(&mut r, m.vertex_buffer);
    push_le64(&mut r, m.triangle_buffer);
    push_le64(&mut r, m.index_buffer);
    push_le64(&mut r, m.geometry_to_index);
    push_le64(&mut r, m.geometry_to_triangle);
    r
}

fn write_bytes(data: &mut Vec<u8>, at: usize, bytes: &Vec<u8>)
    requires
        at + bytes@.len() <= old(data)@.len(),
    ensures
        final(data)@.len() == old(data)@.len(),
        holds_at(final(data)@, at as int, bytes@),
        forall|k: int| 0 <= k < at ==> #[trigger] final(data)@[k] == old(data)@[k],
{
    let n = data.len();
    let mut k: usize = 0;
    while k < bytes.len()
        invariant
            n == data@.len(),
            at + bytes@.len() <= data@.len(),
            data@.len() == old(data)@.len(),
            k <= bytes@.len(),
            forall|j: int| 0 <= j < k ==> data@[at + j] == bytes@[j],
            forall|j: int| 0 <= j < at ==> #[trigger] data@[j] == old(data)@[j],
        decreases bytes@.len() - k,
    {
        data[at + k] = bytes[k];
        k = k + 1;
    }
}

/// Finds the buffers listed for `mesh`.
pub fn lookup_mesh(meshes: &Vec<MeshAddresses>, mesh: u64) -> (r: Option<MeshAddresses>)
    ensures
        r == find_mesh(meshes@, mesh),
{
    let mut i: usize = 0;
    assert(meshes@.subrange(0, meshes@.len() as int) =~= meshes@);
    while i < meshes.len()
        invariant
            i <= meshes@.len(),
            find_mesh(meshes@, mesh) == find_mesh(meshes@.subrange(i as int, meshes@.len() as int), mesh),
        decreases meshes@.len() - i,
    {
        let ghost rest = meshes@.subrange(i as int, meshes@.len() as int);
        if meshes[i].mesh == mesh {
            return Some(meshes[i]);
        }
        assert(rest.drop_first() =~= meshes@.subrange(i + 1, meshes@.len() as int));
        i = i + 1;
    }
    None
}

proof fn lemma_aligned_unique(r1: int, r2: int, v: int, a: int)
    requires
        a > 0,
        is_aligned_up(r1, v, a),
        is_aligned_up(r2, v, a),
    ensures
        r1 == r2,
{
    vstd::arithmetic::div_mod::lemma_fundamental_div_mod(r1, a);
    vstd::arithmetic::div_mod::lemma_fundamental_div_mod(r2, a);
    let q1 = r1 / a;
    let q2 = r2 / a;
    assert(q1 == q2) by (nonlinear_arith)
        requires
            r1 == a * q1,
            r2 == a * q2,
            r1 - r2 < a,
            r2 - r1 < a,
            a > 0,
    ;
}

proof fn lemma_pow2_positive(a: u64)
    requires
        is_power_of_two(a),
    ensures
        a > 0,
{
    let n = choose|n: nat| n < 64 && a as nat == pow2(n);
    vstd::arithmetic::power2::lemma_pow2_pos(n);
}

/// Two layouts under the same alignments differ in the hit region only.
proof fn lemma_same_alignments(l1: SbtLayout, c1: int, l2: SbtLayout, c2: int, al: SBTAligments)
    requires
        al.wf(),
        l1.is_layout_for(al, c1),
        l2.is_layout_for(al, c2),
    ensures
        l1.raygen == l2.raygen,
        l1.miss == l2.miss,
        l1.hit.stride == l2.hit.stride,
        l1.hit.offset == l2.hit.offset,
{
    lemma_pow2_positive(al.shader_group_handle_alignment);
    lemma_pow2_positive(al.shader_group_base_alignment);
    let h1 = choose|h: int|
        {
            &&& is_aligned_up(h, GROUP_HANDLE_SIZE as int, al.shader_group_handle_alignment as int)
            &&& is_aligned_up(l1.raygen.stride as int, h, al.shader_group_base_alignment as int)
            &&& is_aligned_up(l1.miss.stride as int, h, al.shader_group_base_alignment as int)
        };
    let h2 = choose|h: int|
        {
            &&& is_aligned_up(h, GROUP_HANDLE_SIZE as int, al.shader_group_handle_alignment as int)
            &&& is_aligned_up(l2.raygen.stride as int, h, al.shader_group_base_alignment as int)
            &&& is_aligned_up(l2.miss.stride as int, h, al.shader_group_base_alignment as int)
        };
    lemma_aligned_unique(h1, h2, GROUP_HANDLE_SIZE as int, al.shader_group_handle_alignment as int);
    lemma_aligned_unique(
        l1.raygen.stride as int,
        l2.raygen.stride as int,
        h1,
        al.shader_group_base_alignment as int,
    );
    lemma_aligned_unique(
        l1.miss.stride as int,
        l2.miss.stride as int,
        h1,
        al.shader_group_base_alignment as int,
    );
    lemma_aligned_unique(
        l1.hit.stride as int,
        l2.hit.stride as int,
        HIT_TRIANGLE_RECORD_SIZE as int,
        al.shader_group_base_alignment as int,
    );
}

/// The binding table: its layout and the bytes of its buffer.
pub struct SBT {
    pub layout: SbtLayout,
    pub data: Vec<u8>,
}

impl SBT {
    /// The table holds as many bytes as its layout spans, and the layout is
    /// either empty or one made under `al`.
    pub open spec fn wf(&self, al: SBTAligments) -> bool {
        &&& self.data@.len() == self.layout.total()
        &&& self.layout.raygen.size == 0 && self.layout.miss.size == 0 && self.layout.hit.size == 0
            || exists|c: int| 0 <= c && #[trigger] self.layout.is_layout_for(al, c)
    }

    /// A table with no buffer yet.
    pub fn new() -> (r: Self)
        ensures
            r.data@.len() == 0,
            r.layout.total() == 0,
    {
        let z = StridedRegion { offset: 0, stride: 0, size: 0 };
        SBT { layout: SbtLayout { raygen: z, miss: z, hit: z }, data: Vec::new() }
    }

    /// Lays the table out for this frame's meshes and writes its records.
    /// The buffer is made anew exactly when its size changes, which is
    /// exactly when the hit region's size changes.
    pub fn update_sbt(
        &mut self,
        al: &SBTAligments,
        handles: &ShaderGroupHandles,
        offsets: &HitOffsets,
        meshes: &Vec<MeshAddresses>,
    ) -> (reallocated: bool)
        requires
            al.wf(),
            old(self).wf(*al),
            offsets@.len() < INSTANCE_FIELD_LIMIT,
        ensures
            final(self).wf(*al),
            final(self).layout.is_layout_for(*al, offsets@.len() as int),
            reallocated <==> old(self).data@.len() != final(self).data@.len(),
            reallocated <==> old(self).layout.hit.size != final(self).layout.hit.size,
            sbt_written(final(self).data@, final(self).layout, *handles, offsets@, meshes@),
    {
        let count = offsets.len();
        let layout = sbt_layout(al, count as u64);
        let total = (layout.raygen.size + layout.miss.size + layout.hit.size) as usize;
        proof {
            lemma_pow2_positive(al.shader_group_base_alignment);
            let old_layout = old(self).layout;
            if old_layout.raygen.size == 0 && old_layout.miss.size == 0 && old_layout.hit.size == 0 {
                assert(layout.hit.size > 0) by (nonlinear_arith)
                    requires
                        layout.hit.size == layout.hit.stride * (count + 1),
                        layout.hit.stride >= 72,
                ;
            } else {
                let c = choose|c: int| 0 <= c && #[trigger] old_layout.is_layout_for(*al, c);
                lemma_same_alignments(old_layout, c, layout, count as int, *al);
            }
        }
        let reallocated = self.data.len() != total;
        if reallocated {
            self.data = vec![0u8; total];
        }
        self.layout = layout;
        proof {
            assert(self.layout.is_layout_for(*al, count as int));
        }
        let raygen = handle_bytes(&handles.raygen);
        write_bytes(&mut self.data, layout.raygen.offset as usize, &raygen);
        let miss = handle_bytes(&handles.miss);
        write_bytes(&mut self.data, layout.miss.offset as usize, &miss);
        let hit_start = layout.hit.offset as usize;
        let stride = layout.hit.stride as usize;
        let sphere = handle_bytes(&handles.sphere_hit);
        assert(layout.hit.size >= layout.hit.stride) by (nonlinear_arith)
            requires
                layout.hit.size == layout.hit.stride * (count + 1),
                layout.hit.stride >= 72,
        ;
        write_bytes(&mut self.data, hit_start, &sphere);
        assert(holds_at(self.data@, layout.raygen.offset as int, handles.raygen@));
        let mut i: usize = 0;
        while i < count
            invariant
                count == offsets@.len(),
                count < INSTANCE_FIELD_LIMIT,
                self.layout == layout,
                layout.is_layout_for(*al, count as int),
                layout.hit.stride >= HIT_TRIANGLE_RECORD_SIZE,
                layout.raygen.size >= GROUP_HANDLE_SIZE,
                layout.miss.size >= GROUP_HANDLE_SIZE,
                layout.total() <= 0xffff_ffff,
                hit_start == layout.hit.offset,
                stride == layout.hit.stride,
                self.data@.len() == total,
                total == layout.total(),
                i <= count,
                holds_at(self.data@, layout.raygen.offset as int, handles.raygen@),
                holds_at(self.data@, layout.miss.offset as int, handles.miss@),
                holds_at(self.data@, layout.hit.offset as int, handles.sphere_hit@),
                forall|j: int|
                    0 <= j < i ==> (#[trigger] find_mesh(meshes@, offsets@[j]) matches Some(m)
                        ==> holds_at(
                        self.data@,
                        layout.hit.offset + (j + 1) * layout.hit.stride,
                        triangle_record(handles.hit@, m),
                    )),
            decreases count - i,
        {
            let key = offsets.mesh_at(i);
            match lookup_mesh(meshes, key) {
                Some(m) => {
                    let rec = record_bytes(&handles.hit, &m);
                    proof {
                        assert((i + 1) * stride + 72 <= (i + 2) * stride) by (nonlinear_arith)
                            requires
                                stride >= 72,
                        ;
                        assert((i + 2) * stride <= (count + 1) * stride) by (nonlinear_arith)
                            requires
                                i + 1 <= count,
                        ;
                        assert(72 <= (i + 1) * stride) by (nonlinear_arith)
                            requires
                                stride >= 72,
                        ;
                    }
                    let at = hit_start + (i + 1) * stride;
                    let ghost before = self.data@;
                    write_bytes(&mut self.data, at, &rec);
                    proof {
                        assert forall|j: int|
                            0 <= j < i + 1 implies (#[trigger] find_mesh(meshes@, offsets@[j]) matches Some(
                            mm,
                        ) ==> holds_at(
                            self.data@,
                            layout.hit.offset + (j + 1) * layout.hit.stride,
                            triangle_record(handles.hit@, mm),
                        )) by {
                            if j < i {
                                assert((j + 1) * stride + 72 <= (i + 1) * stride) by (nonlinear_arith)
                                    requires
                                        stride >= 72,
                                        j < i,
                                ;
                                if let Some(mm) = find_mesh(meshes@, offsets@[j]) {
                                    assert forall|k: int|
                                        0 <= k < triangle_record(handles.hit@, mm).len() implies self.data@[
                                        layout.hit.offset + (j + 1) * layout.hit.stride + k]
                                        == #[trigger] triangle_record(handles.hit@, mm)[k] by {
                                        assert(before[layout.hit.offset + (j + 1) * layout.hit.stride
                                            + k] == triangle_record(handles.hit@, mm)[k]);
                                    }
                                }
                            }
                        }
                    }
                },
                None => {},
            }
            i = i + 1;
        }
        reallocated
    }
}

/// The top-level structure and the binding table of one frame agree: the
/// hit-group offset of every instance lies inside the hit region; the
/// sphere's instances point at the procedural record, and every mesh
/// instance points at the record of its own mesh.
pub proof fn lemma_tlas_sbt_agreement(
    objs: Seq<SceneObject>,
    al: SBTAligments,
    layout: SbtLayout,
    data: Seq<u8>,
    handles: ShaderGroupHandles,
    meshes: Seq<MeshAddresses>,
)
    requires
        al.wf(),
        layout.is_layout_for(al, frame_keys(objs, objs.len() as int).len() as int),
        sbt_written(data, layout, handles, frame_keys(objs, objs.len() as int), meshes),
        forall|i: int|
            0 <= i < frame_keys(objs, objs.len() as int).len() ==> #[trigger] find_mesh(
                meshes,
                frame_keys(objs, objs.len() as int)[i],
            ).is_some(),
    ensures
        forall|j: int|
            0 <= j < frame_instances(objs, objs.len() as int).len() ==> {
                let h = #[trigger] frame_instances(objs, objs.len() as int)[j].sbt_offset;
                let o = objs[frame_sources(objs, objs.len() as int)[j]];
                &&& h * layout.hit.stride + HIT_TRIANGLE_RECORD_SIZE <= layout.hit.size
                &&& o.kind == InstanceKind::Sphere ==> h == 0 && holds_at(
                    data,
                    layout.hit.offset as int,
                    handles.sphere_hit@,
                )
                &&& o.kind matches InstanceKind::Mesh(m) ==> h >= 1 && holds_at(
                    data,
                    layout.hit.offset + h * layout.hit.stride,
                    triangle_record(handles.hit@, find_mesh(meshes, m).unwrap()),
                )
            },
{
    let n = objs.len() as int;
    let keys = frame_keys(objs, n);
    lemma_offsets_in_table(objs, n);
    assert forall|j: int| 0 <= j < frame_instances(objs, n).len() implies {
        let h = #[trigger] frame_instances(objs, n)[j].sbt_offset;
        let o = objs[frame_sources(objs, n)[j]];
        &&& h * layout.hit.stride + HIT_TRIANGLE_RECORD_SIZE <= layout.hit.size
        &&& o.kind == InstanceKind::Sphere ==> h == 0 && holds_at(
            data,
            layout.hit.offset as int,
            handles.sphere_hit@,
        )
        &&& o.kind matches InstanceKind::Mesh(m) ==> h >= 1 && holds_at(
            data,
            layout.hit.offset + h * layout.hit.stride,
            triangle_record(handles.hit@, find_mesh(meshes, m).unwrap()),
        )
    } by {
        let h = frame_instances(objs, n)[j].sbt_offset;
        let src = frame_sources(objs, n)[j];
        let stride = layout.hit.stride as int;
        assert(stride >= HIT_TRIANGLE_RECORD_SIZE) by {
            lemma_pow2_positive(al.shader_group_base_alignment);
        }
        assert(0 <= h <= keys.len());
        assert(h * stride + HIT_TRIANGLE_RECORD_SIZE <= stride * (keys.len() + 1)) by (nonlinear_arith)
            requires
                0 <= h <= keys.len(),
                stride >= HIT_TRIANGLE_RECORD_SIZE,
        ;
        if let InstanceKind::Mesh(m) = objs[src].kind {
            let i = h - 1;
            assert(keys[i] == m);
            assert(find_mesh(meshes, keys[i]).is_some());
            assert(i + 1 == h);
        }
    }
}

} // verus!
