use crate::render_device::VkDestroyCmd;
use vstd::prelude::*;

verus! {

/// Largest total vertex count of one mesh: rebased indices are 32-bit.
pub const MAX_MESH_VERTICES: u64 = 0xffff_ffff;

/// Largest total index count of one mesh: the byte offset of every index
/// must fit the 32-bit primitive offset of a build range.
pub const MAX_MESH_INDICES: u64 = 0x3fff_ffff;

/// One material-homogeneous primitive inside the shared vertex and index
/// buffers of a mesh.
#[derive(Clone, Copy, Debug, PartialEq, Eq, Structural)]
pub struct GeometryDescr {
    pub first_vertex: usize,
    pub vertex_count: usize,
    pub first_index: usize,
    pub index_count: usize,
}

/// Per-triangle shading data: a packed tangent and, per corner, a packed
/// normal and a packed texture coordinate.
#[derive(Clone, Copy, Debug, PartialEq, Eq)]
pub struct Triangle {
    pub tangent: u32,
    pub normals: [u32; 3],
    pub uvs: [u32; 3],
}

impl Triangle {
    /// Packs a quantized normal: 16 bits of x, 15 bits of y and the sign of z.
    pub fn pack_normal(qx: u16, qy: u16, negative_z: bool) -> (r: u32)
        requires
            qy < 0x8000,
        ensures
            r == qx as int * 0x10000 + qy as int * 2 + if negative_z {
                1int
            } else {
                0int
            },
    {
        let x = qx as u32;
        let y = qy as u32;
        let z: u32 = if negative_z {
            1
        } else {
            0
        };
        let r = (x << 16u32) | (y << 1u32) | z;
        assert(r == x * 0x10000 + y * 2 + z) by (bit_vector)
            requires
                x < 0x10000,
                y < 0x8000,
                z < 2,
                r == (x << 16u32) | (y << 1u32) | z,
        ;
        r
    }

    /// Packs two half-precision bit patterns, `u` in the low half.
    pub fn pack_uv(u_bits: u16, v_bits: u16) -> (r: u32)
        ensures
            r == v_bits as int * 0x10000 + u_bits as int,
    {
        let u = u_bits as u32;
        let v = v_bits as u32;
        let r = (v << 16u32) | u;
        assert(r == v * 0x10000 + u) by (bit_vector)
            requires
                u < 0x10000,
                v < 0x10000,
                r == (v << 16u32) | u,
        ;
        r
    }
}

/// The descriptors tile `[0, vertex_count)` and `[0, index_count)` in order,
/// with no gap and no overlap, and each index range holds whole triangles.
pub open spec fn descrs_cover(g: Seq<GeometryDescr>, vertex_count: int, index_count: int) -> bool {
    &&& g.len() == 0 ==> vertex_count == 0 && index_count == 0
    &&& g.len() > 0 ==> {
        &&& g[0].first_vertex == 0
        &&& g[0].first_index == 0
        &&& g.last().first_vertex + g.last().vertex_count == vertex_count
        &&& g.last().first_index + g.last().index_count == index_count
    }
    &&& forall|i: int, j: int|
        #![trigger g[i], g[j]]
        0 <= i && j == i + 1 && j < g.len() ==> {
            &&& g[j].first_vertex == g[i].first_vertex + g[i].vertex_count
            &&& g[j].first_index == g[i].first_index + g[i].index_count
        }
    &&& forall|i: int| 0 <= i < g.len() ==> #[trigger] g[i].index_count % 3 == 0
}

/// A mesh's shared index buffer, rebased to its shared vertex buffer, and
/// the range of each primitive in both.
pub struct PackedGeometry {
    pub indices: Vec<u32>,
    pub geometries: Vec<GeometryDescr>,
    pub vertex_count: usize,
}

/// Offset and size of one geometry's build range: the triangle count and
/// the byte offset of its first index.
#[derive(Clone, Copy, Debug, PartialEq, Eq, Structural)]
pub struct BuildRange {
    pub primitive_count: u32,
    pub primitive_offset: u32,
    pub first_vertex: u32,
    pub transform_offset: u32,
}

impl PackedGeometry {
    pub open spec fn wf(&self) -> bool {
        &&& descrs_cover(self.geometries@, self.vertex_count as int, self.indices@.len() as int)
        &&& self.vertex_count <= MAX_MESH_VERTICES
        &&& self.indices@.len() <= MAX_MESH_INDICES
        &&& forall|k: int| 0 <= k < self.indices@.len() ==> #[trigger] self.indices@[k] < self.vertex_count
    }

    /// Total number of triangles.
    pub fn triangle_count(&self) -> (r: usize)
        requires
            self.wf(),
        ensures
            r == self.indices@.len() / 3,
    {
        self.indices.len() / 3
    }

    /// For each geometry, the position of its first index.
    pub fn geometry_to_index(&self) -> (r: Vec<u32>)
        requires
            self.wf(),
        ensures
            r@.len() == self.geometries@.len(),
            forall|i: int| 0 <= i < r@.len() ==> #[trigger] r@[i] == self.geometries@[i].first_index,
    {
        let mut r: Vec<u32> = Vec::new();
        let mut i: usize = 0;
        while i < self.geometries.len()
            invariant
                self.wf(),
                i <= self.geometries@.len(),
                r@.len() == i,
                forall|j: int| 0 <= j < i ==> #[trigger] r@[j] == self.geometries@[j].first_index,
            decreases self.geometries@.len() - i,
        {
            proof {
                self.lemma_descr_bounds(i as int);
            }
            r.push(self.geometries[i].first_index as u32);
            i = i + 1;
        }
        r
    }

    /// For each geometry, the position of its first triangle: the prefix sum
    /// of the triangle counts.
    pub fn geometry_to_triangle(&self) -> (r: Vec<u32>)
        requires
            self.wf(),
        ensures
            r@.len() == self.geometries@.len(),
            r@.len() > 0 ==> r@[0] == 0,
            forall|i: int|
                0 <= i < r@.len() - 1 ==> #[trigger] r@[i + 1] == r@[i]
                    + self.geometries@[i].index_count / 3,
            forall|i: int| 0 <= i < r@.len() ==> #[trigger] r@[i] == self.geometries@[i].first_index / 3,
    {
        let mut r: Vec<u32> = Vec::new();
        let mut prefix_sum: u32 = 0;
        let mut i: usize = 0;
        while i < self.geometries.len()
            invariant
                self.wf(),
                i <= self.geometries@.len(),
                r@.len() == i,
                i < self.geometries@.len() ==> prefix_sum == self.geometries@[i as int].first_index / 3,
                forall|j: int| 0 <= j < i ==> #[trigger] r@[j] == self.geometries@[j].first_index / 3,
            decreases self.geometries@.len() - i,
        {
            proof {
                self.lemma_descr_bounds(i as int);
            }
            r.push(prefix_sum);
            let g = self.geometries[i];
            if i + 1 < self.geometries.len() {
                proof {
                    let gs = self.geometries@;
                    assert(gs[i + 1].first_index == gs[i as int].first_index + gs[i as int].index_count);
                    assert(gs[i as int].index_count % 3 == 0);
                }
                prefix_sum = prefix_sum + (g.index_count / 3) as u32;
            }
            i = i + 1;
        }
        proof {
            let gs = self.geometries@;
            assert forall|j: int| 0 <= j < r@.len() - 1 implies #[trigger] r@[j + 1] == r@[j]
                + gs[j].index_count / 3 by {
                assert(gs[j + 1].first_index == gs[j].first_index + gs[j].index_count);
                assert(gs[j].index_count % 3 == 0);
            }
        }
        r
    }

    /// The build range of each geometry: its triangles, starting at the
    /// byte offset of its first index.
    pub fn build_ranges(&self) -> (r: Vec<BuildRange>)
        requires
            self.wf(),
        ensures
            r@.len() == self.geometries@.len(),
            forall|i: int|
                0 <= i < r@.len() ==> (#[trigger] r@[i]) == (BuildRange {
                    primitive_count: (self.geometries@[i].index_count / 3) as u32,
                    primitive_offset: (self.geometries@[i].first_index * 4) as u32,
                    first_vertex: 0,
                    transform_offset: 0,
                }),
            forall|i: int|
                0 <= i < r@.len() ==> r@[i].primitive_count == self.geometries@[i].index_count / 3
                    && r@[i].primitive_offset == self.geometries@[i].first_index * 4,
    {
        let mut r: Vec<BuildRange> = Vec::new();
        let mut i: usize = 0;
        while i < self.geometries.len()
            invariant
                self.wf(),
                i <= self.geometries@.len(),
                r@.len() == i,
                forall|j: int|
                    0 <= j < i ==> (#[trigger] r@[j]) == (BuildRange {
                        primitive_count: (self.geometries@[j].index_count / 3) as u32,
                        primitive_offset: (self.geometries@[j].first_index * 4) as u32,
                        first_vertex: 0,
                        transform_offset: 0,
                    }),
                forall|j: int|
                    0 <= j < i ==> r@[j].primitive_count == self.geometries@[j].index_count / 3
                        && r@[j].primitive_offset == self.geometries@[j].first_index * 4,
            decreases self.geometries@.len() - i,
        {
            proof {
                self.lemma_descr_bounds(i as int);
            }
            let g = self.geometries[i];
            r.push(
                BuildRange {
                    primitive_count: (g.index_count / 3) as u32,
                    primitive_offset: (g.first_index as u32) * 4,
                    first_vertex: 0,
                    transform_offset: 0,
                },
            );
            i = i + 1;
        }
        r
    }

    /// The three vertex indices of triangle `tid` of geometry `g`.
    pub fn triangle_corners(&self, g: usize, tid: usize) -> (r: [u32; 3])
        requires
            self.wf(),
            g < self.geometries@.len(),
            tid < self.geometries@[g as int].index_count / 3,
        ensures
            forall|k: int|
                0 <= k < 3 ==> r@[k] == self.indices@[self.geometries@[g as int].first_index + 3
                    * tid + k],
            forall|k: int| 0 <= k < 3 ==> r@[k] < self.vertex_count,
    {
        proof {
            self.lemma_descr_bounds(g as int);
        }
        let d = self.geometries[g];
        let base = d.first_index + 3 * tid;
        [self.indices[base], self.indices[base + 1], self.indices[base + 2]]
    }

    /// Places the triangles of each geometry at that geometry's first
    /// triangle, giving one triangle buffer for the whole mesh.
    pub fn assemble_triangles(&self, per_geometry: &Vec<Vec<Triangle>>) -> (r: Vec<Triangle>)
        requires
            self.wf(),
            per_geometry@.len() == self.geometries@.len(),
            forall|i: int|
                0 <= i < per_geometry@.len() ==> (#[trigger] per_geometry@[i])@.len()
                    == self.geometries@[i].index_count / 3,
        ensures
            r@.len() == self.indices@.len() / 3,
            forall|i: int, t: int|
                0 <= i < per_geometry@.len() && 0 <= t < per_geometry@[i]@.len() ==> r@[
                    self.geometries@[i].first_index / 3 + t] == #[trigger] per_geometry@[i]@[t],
    {
        let mut r: Vec<Triangle> = Vec::new();
        let mut i: usize = 0;
        while i < per_geometry.len()
            invariant
                self.wf(),
                per_geometry@.len() == self.geometries@.len(),
                forall|j: int|
                    0 <= j < per_geometry@.len() ==> (#[trigger] per_geometry@[j])@.len()
                        == self.geometries@[j].index_count / 3,
                i <= per_geometry@.len(),
                i < per_geometry@.len() ==> r@.len() == self.geometries@[i as int].first_index / 3,
                i == per_geometry@.len() ==> r@.len() == self.indices@.len() / 3,
                forall|j: int, t: int|
                    0 <= j < i && 0 <= t < per_geometry@[j]@.len() ==> r@[
                        self.geometries@[j].first_index / 3 + t] == #[trigger] per_geometry@[j]@[t],
            decreases per_geometry@.len() - i,
        {
            proof {
                self.lemma_descr_bounds(i as int);
            }
            proof {
                assert forall|j: int| 0 <= j < i implies self.geometries@[j].first_index / 3
                    + per_geometry@[j]@.len() <= self.geometries@[i as int].first_index / 3 by {
                    self.lemma_descr_order(j, i as int);
                    self.lemma_descr_bounds(j);
                }
            }
            let batch = &per_geometry[i];
            let ghost start = r@.len();
            let mut t: usize = 0;
            while t < batch.len()
                invariant
                    self.wf(),
                    per_geometry@.len() == self.geometries@.len(),
                    i < per_geometry@.len(),
                    batch == per_geometry@[i as int],
                    batch@.len() == self.geometries@[i as int].index_count / 3,
                    start == self.geometries@[i as int].first_index / 3,
                    t <= batch@.len(),
                    r@.len() == start + t,
                    forall|s: int| 0 <= s < t ==> r@[start + s] == batch@[s],
                    forall|j: int| 0 <= j < i ==> self.geometries@[j].first_index / 3
                        + per_geometry@[j]@.len() <= start,
                    forall|j: int, u: int|
                        0 <= j < i && 0 <= u < per_geometry@[j]@.len() ==> r@[
                            self.geometries@[j].first_index / 3 + u] == #[trigger] per_geometry@[j]@[u],
                decreases batch@.len() - t,
            {
                r.push(batch[t]);
                t = t + 1;
            }
            proof {
                let gs = self.geometries@;
                if i + 1 < gs.len() {
                    assert(gs[i + 1].first_index == gs[i as int].first_index + gs[i as int].index_count);
                    assert(gs[i as int].index_count % 3 == 0);
                    assert(gs[i as int].first_index % 3 == 0);
                } else {
                    assert(gs.last().first_index + gs.last().index_count == self.indices@.len());
                    assert(gs[i as int].index_count % 3 == 0);
                    assert(gs[i as int].first_index % 3 == 0);
                }
            }
            i = i + 1;
        }
        proof {
            if per_geometry@.len() == 0 {
                assert(self.indices@.len() == 0);
            }
        }
        r
    }

    /// Bounds of one descriptor that follow from the tiling.
    proof fn lemma_descr_bounds(&self, i: int)
        requires
            self.wf(),
            0 <= i < self.geometries@.len(),
        ensures
            self.geometries@[i].first_index % 3 == 0,
            self.geometries@[i].first_index + self.geometries@[i].index_count <= self.indices@.len(),
            self.geometries@[i].first_vertex + self.geometries@[i].vertex_count <= self.vertex_count,
            self.geometries@[i].first_index <= MAX_MESH_INDICES,
            self.geometries@[i].index_count <= MAX_MESH_INDICES,
        decreases self.geometries@.len() - i,
    {
        let gs = self.geometries@;
        self.lemma_first_index_mod3(i);
        if i < gs.len() - 1 {
            self.lemma_descr_bounds(i + 1);
            assert(gs[i + 1].first_vertex == gs[i].first_vertex + gs[i].vertex_count);
            assert(gs[i + 1].first_index == gs[i].first_index + gs[i].index_count);
        }
    }

    proof fn lemma_descr_order(&self, j: int, i: int)
        requires
            self.wf(),
            0 <= j < i < self.geometries@.len(),
        ensures
            self.geometries@[j].first_index + self.geometries@[j].index_count
                <= self.geometries@[i].first_index,
        decreases i,
    {
        let gs = self.geometries@;
        assert(gs[i].first_index == gs[i - 1].first_index + gs[i - 1].index_count);
        if j < i - 1 {
            self.lemma_descr_order(j, i - 1);
        }
    }

    proof fn lemma_first_index_mod3(&self, i: int)
        requires
            self.wf(),
            0 <= i < self.geometries@.len(),
        ensures
            self.geometries@[i].first_index % 3 == 0,
        decreases i,
    {
        let gs = self.geometries@;
        if i > 0 {
            self.lemma_first_index_mod3(i - 1);
            assert(gs[i].first_index == gs[i - 1].first_index + gs[i - 1].index_count);
            assert(gs[i - 1].index_count % 3 == 0);
        }
    }
}

/// A GPU buffer: its handle, its size in elements and its device address.
#[derive(Clone, Copy, Debug, PartialEq, Eq, Structural)]
pub struct BufferRef {
    pub handle: u64,
    pub nr_elements: u64,
    pub address: u64,
}

impl BufferRef {
    /// No buffer.
    pub fn null() -> (r: Self)
        ensures
            r == (BufferRef { handle: 0, nr_elements: 0, address: 0 }),
    {
        BufferRef { handle: 0, nr_elements: 0, address: 0 }
    }
}

/// Puts `new` in `slot` and asks for the old buffer's destruction.
pub fn replace_buffer(slot: &mut BufferRef, new: BufferRef, outbox: &mut Vec<VkDestroyCmd>)
    ensures
        *final(slot) == new,
        final(outbox)@ == old(outbox)@.push(VkDestroyCmd::Buffer(old(slot).handle)),
{
    outbox.push(VkDestroyCmd::Buffer(slot.handle));
    *slot = new;
}

/// An acceleration structure, the buffer that backs it, and the address
/// shaders reach it by.
#[derive(Clone, Copy, Debug, PartialEq, Eq, Structural)]
pub struct AccelerationStructure {
    pub handle: u64,
    pub buffer: BufferRef,
    pub address: u64,
}

impl AccelerationStructure {
    /// No structure.
    pub fn null() -> (r: Self)
        ensures
            r.handle == 0,
            r.buffer == (BufferRef { handle: 0, nr_elements: 0, address: 0 }),
            r.address == 0,
    {
        AccelerationStructure { handle: 0, buffer: BufferRef::null(), address: 0 }
    }

    /// The reference an instance record holds: the device address.
    pub fn get_reference(&self) -> (r: u64)
        ensures
            r == self.address,
    {
        self.address
    }

    /// The requests that release the structure and its buffer.
    pub open spec fn destroy_cmds(&self) -> Seq<VkDestroyCmd> {
        seq![VkDestroyCmd::AccelerationStructure(self.handle), VkDestroyCmd::Buffer(self.buffer.handle)]
    }

    /// Asks for the destruction of the structure and its buffer.
    pub fn destroy(&self, outbox: &mut Vec<VkDestroyCmd>)
        ensures
            final(outbox)@ == old(outbox)@ + self.destroy_cmds(),
    {
        outbox.push(VkDestroyCmd::AccelerationStructure(self.handle));
        outbox.push(VkDestroyCmd::Buffer(self.buffer.handle));
        assert(outbox@ =~= old(outbox)@ + self.destroy_cmds());
    }

    /// Makes the compacted copy the live structure; the uncompacted one and its
    /// larger buffer are handed to deferred destruction, never destroyed
    /// here.
    pub fn install_compacted(&mut self, compacted: AccelerationStructure, outbox: &mut Vec<VkDestroyCmd>)
        requires
            compacted.buffer.nr_elements <= old(self).buffer.nr_elements,
        ensures
            *final(self) == compacted,
            final(self).buffer.nr_elements == compacted.buffer.nr_elements,
            final(outbox)@ == old(outbox)@ + old(self).destroy_cmds(),
    {
        self.destroy(outbox);
        *self = compacted;
    }
}

/// The GPU side of one mesh: its acceleration structure and the buffers
/// its hit records point at.
#[derive(Clone, Copy, Debug, PartialEq, Eq, Structural)]
pub struct BLAS {
    pub acceleration_structure: AccelerationStructure,
    pub vertex_buffer: BufferRef,
    pub triangle_buffer: BufferRef,
    pub index_buffer: BufferRef,
    pub geometry_to_index: BufferRef,
    pub geometry_to_triangle: BufferRef,
}

impl BLAS {
    pub open spec fn destroy_cmds(&self) -> Seq<VkDestroyCmd> {
        self.acceleration_structure.destroy_cmds() + seq![
            VkDestroyCmd::Buffer(self.vertex_buffer.handle),
            VkDestroyCmd::Buffer(self.triangle_buffer.handle),
            VkDestroyCmd::Buffer(self.index_buffer.handle),
            VkDestroyCmd::Buffer(self.geometry_to_index.handle),
            VkDestroyCmd::Buffer(self.geometry_to_triangle.handle),
        ]
    }

    /// Asks for the destruction of the structure and of every buffer.
    pub fn destroy(&self, outbox: &mut Vec<VkDestroyCmd>)
        ensures
            final(outbox)@ == old(outbox)@ + self.destroy_cmds(),
    {
        self.acceleration_structure.destroy(outbox);
        outbox.push(VkDestroyCmd::Buffer(self.vertex_buffer.handle));
        outbox.push(VkDestroyCmd::Buffer(self.triangle_buffer.handle));
        outbox.push(VkDestroyCmd::Buffer(self.index_buffer.handle));
        outbox.push(VkDestroyCmd::Buffer(self.geometry_to_index.handle));
        outbox.push(VkDestroyCmd::Buffer(self.geometry_to_triangle.handle));
        assert(outbox@ =~= old(outbox)@ + self.destroy_cmds());
    }
}

/// Bit pattern of the single-precision value 1.0.
pub const F32_ONE_BITS: u32 = 0x3f80_0000;

/// `b` is the bit pattern of a single-precision NaN: all exponent bits
/// set and a nonzero fraction.
pub open spec fn is_nan_bits(b: u32) -> bool {
    &&& b & 0x7f80_0000 == 0x7f80_0000
    &&& b & 0x007f_ffff != 0
}

/// The normal that stands in for one with a NaN component: zero.
pub open spec fn nan_fallback_normal() -> Seq<u32> {
    seq![0u32, 0u32, 0u32]
}

/// The normal that stands in for one that is far from unit length: +x.
pub open spec fn off_unit_fallback_normal() -> Seq<u32> {
    seq![F32_ONE_BITS, 0u32, 0u32]
}

/// The tangent used when the texture-coordinate determinant is too small
/// to divide by: +z.
pub open spec fn fallback_tangent() -> Seq<u32> {
    seq![0u32, 0u32, F32_ONE_BITS]
}

/// Whether `b` is the bit pattern of a NaN.
pub fn is_nan(b: u32) -> (r: bool)
    ensures
        r == is_nan_bits(b),
{
    b & 0x7f80_0000 == 0x7f80_0000 && b & 0x007f_ffff != 0
}

/// Some component of `n` is a NaN.
pub open spec fn has_nan(n: Seq<u32>) -> bool {
    is_nan_bits(n[0]) || is_nan_bits(n[1]) || is_nan_bits(n[2])
}

/// The sanitized normal: zero when a component is NaN, +x when the length
/// is off unit, else `n` itself.
pub open spec fn sanitized_normal(n: Seq<u32>, near_unit: bool) -> Seq<u32> {
    if has_nan(n) {
        nan_fallback_normal()
    } else if !near_unit {
        off_unit_fallback_normal()
    } else {
        n
    }
}

/// Sanitizes a normal given as bit patterns: one with a NaN component
/// becomes zero; one whose length is off unit by more than the tolerance
/// (as `near_unit` reports) becomes +x; any other is kept.
pub fn sanitize_normal(n: [u32; 3], near_unit: bool) -> (r: [u32; 3])
    ensures
        r@ == sanitized_normal(n@, near_unit),
{
    if is_nan(n[0]) || is_nan(n[1]) || is_nan(n[2]) {
        let r = [0u32, 0u32, 0u32];
        assert(r@ =~= nan_fallback_normal());
        r
    } else if !near_unit {
        let r = [F32_ONE_BITS, 0u32, 0u32];
        assert(r@ =~= off_unit_fallback_normal());
        r
    } else {
        n
    }
}

/// Every normal that has a NaN component, or that is off unit length,
/// comes out as one of the two fallbacks; one with a NaN never comes out
/// as it went in.
pub proof fn lemma_sanitized_normal(n: Seq<u32>, near_unit: bool)
    requires
        n.len() == 3,
        has_nan(n) || !near_unit,
    ensures
        sanitized_normal(n, near_unit) == nan_fallback_normal() || sanitized_normal(n, near_unit)
            == off_unit_fallback_normal(),
        has_nan(n) ==> sanitized_normal(n, near_unit) != n,
{
    let r = sanitized_normal(n, near_unit);
    if has_nan(n) {
        assert(!is_nan_bits(0u32)) by (bit_vector);
        if is_nan_bits(n[0]) {
            assert(r[0] != n[0]);
        } else if is_nan_bits(n[1]) {
            assert(r[1] != n[1]);
        } else {
            assert(r[2] != n[2]);
        }
    }
}

/// The tangent of a triangle: the computed one, or the fixed +z axis when
/// the determinant was degenerate.
pub fn choose_tangent(computed: [u32; 3], degenerate: bool) -> (r: [u32; 3])
    ensures
        degenerate ==> r@ == fallback_tangent(),
        !degenerate ==> r == computed,
{
    if degenerate {
        let r = [0u32, 0u32, F32_ONE_BITS];
        assert(r@ =~= fallback_tangent());
        r
    } else {
        computed
    }
}

} // verus!
