use crate::blas::{descrs_cover, GeometryDescr, PackedGeometry, MAX_MESH_INDICES, MAX_MESH_VERTICES};
use crate::render_device::{
    registered, BindlessRegistry, DEFAULT_NORMAL_TEXTURE_IDX, MAX_BINDLESS_IMAGES, WHITE_TEXTURE_IDX,
};
use vstd::prelude::*;

verus! {

/// What one primitive of a mesh brings: the lengths of its position and
/// normal streams, when present, and its index stream, local to the
/// primitive's own vertices.
pub struct PrimitiveSource {
    pub position_count: Option<usize>,
    pub normal_count: Option<usize>,
    pub indices: Option<Vec<u32>>,
}

/// Why a mesh cannot be packed; the number is the offending primitive.
#[derive(Clone, Copy, Debug, PartialEq, Eq, Structural)]
pub enum PackError {
    MissingPositions(usize),
    MissingNormals(usize),
    NormalCountMismatch(usize),
    MissingIndices(usize),
    IndicesNotTriangles(usize),
    IndexOutOfRange(usize),
    TooLarge,
}

pub open spec fn pos_count(p: PrimitiveSource) -> int {
    match p.position_count {
        Some(c) => c as int,
        None => 0,
    }
}

pub open spec fn index_seq(p: PrimitiveSource) -> Seq<u32> {
    match p.indices {
        Some(v) => v@,
        None => Seq::empty(),
    }
}

/// The defect of primitive `p`, number `i`, if it has one.
pub open spec fn prim_error(p: PrimitiveSource, i: usize) -> Option<PackError> {
    if p.position_count.is_none() {
        Some(PackError::MissingPositions(i))
    } else if p.normal_count.is_none() {
        Some(PackError::MissingNormals(i))
    } else if p.normal_count != p.position_count {
        Some(PackError::NormalCountMismatch(i))
    } else if p.indices.is_none() {
        Some(PackError::MissingIndices(i))
    } else if index_seq(p).len() % 3 != 0 {
        Some(PackError::IndicesNotTriangles(i))
    } else if exists|k: int| 0 <= k < index_seq(p).len() && index_seq(p)[k] >= pos_count(p) {
        Some(PackError::IndexOutOfRange(i))
    } else {
        None
    }
}

/// The defect of the first defective primitive among the first `n`.
pub open spec fn first_error(ps: Seq<PrimitiveSource>, n: int) -> Option<PackError>
    decreases n,
{
    if n <= 0 {
        None
    } else {
        match first_error(ps, n - 1) {
            Some(e) => Some(e),
            None => prim_error(ps[n - 1], (n - 1) as usize),
        }
    }
}

/// Vertices of the first `n` primitives.
pub open spec fn vertex_total(ps: Seq<PrimitiveSource>, n: int) -> int
    decreases n,
{
    if n <= 0 {
        0
    } else {
        vertex_total(ps, n - 1) + pos_count(ps[n - 1])
    }
}

/// Indices of the first `n` primitives.
pub open spec fn index_total(ps: Seq<PrimitiveSource>, n: int) -> int
    decreases n,
{
    if n <= 0 {
        0
    } else {
        index_total(ps, n - 1) + index_seq(ps[n - 1]).len()
    }
}

/// The indices of `p` moved up by `base`.
pub open spec fn rebased(p: PrimitiveSource, base: int) -> Seq<u32> {
    index_seq(p).map_values(|x: u32| (x + base) as u32)
}

/// The shared index buffer of the first `n` primitives.
pub open spec fn packed_indices(ps: Seq<PrimitiveSource>, n: int) -> Seq<u32>
    decreases n,
{
    if n <= 0 {
        Seq::empty()
    } else {
        packed_indices(ps, n - 1) + rebased(ps[n - 1], vertex_total(ps, n - 1))
    }
}

/// The range of primitive `i` in the shared buffers.
pub open spec fn descr_of(ps: Seq<PrimitiveSource>, i: int) -> GeometryDescr {
    GeometryDescr {
        first_vertex: vertex_total(ps, i) as usize,
        vertex_count: pos_count(ps[i]) as usize,
        first_index: index_total(ps, i) as usize,
        index_count: index_seq(ps[i]).len() as usize,
    }
}

/// The mesh fits the limits of one acceleration structure.
pub open spec fn within_limits(ps: Seq<PrimitiveSource>) -> bool {
    &&& vertex_total(ps, ps.len() as int) <= MAX_MESH_VERTICES
    &&& index_total(ps, ps.len() as int) <= MAX_MESH_INDICES
}

proof fn lemma_totals_monotonic(ps: Seq<PrimitiveSource>, i: int, n: int)
    requires
        0 <= i <= n <= ps.len(),
    ensures
        vertex_total(ps, i) <= vertex_total(ps, n),
        index_total(ps, i) <= index_total(ps, n),
    decreases n - i,
{
    if i < n {
        lemma_totals_monotonic(ps, i, n - 1);
    }
}

proof fn lemma_error_at(ps: Seq<PrimitiveSource>, i: int, n: int, e: PackError)
    requires
        0 <= i < n,
        first_error(ps, i).is_none(),
        prim_error(ps[i], i as usize) == Some(e),
    ensures
        first_error(ps, n) == Some(e),
    decreases n - i,
{
    if i + 1 < n {
        lemma_error_at(ps, i, n - 1, e);
    }
}

proof fn lemma_first_error_prefix(ps: Seq<PrimitiveSource>, i: int, n: int)
    requires
        0 <= i <= n,
        first_error(ps, n).is_none(),
    ensures
        first_error(ps, i).is_none(),
    decreases n - i,
{
    if i < n {
        lemma_first_error_prefix(ps, i, n - 1);
    }
}

/// Packs the index streams of all primitives into one buffer rebased to the
/// shared vertex buffer, and gives each primitive its range in both.
pub fn pack_primitives(prims: &Vec<PrimitiveSource>) -> (r: Result<PackedGeometry, PackError>)
    ensures
        first_error(prims@, prims@.len() as int) matches Some(e) ==> r == Err::<PackedGeometry, PackError>(e),
        first_error(prims@, prims@.len() as int).is_none() && !within_limits(prims@) ==> r
            == Err::<PackedGeometry, PackError>(PackError::TooLarge),
        first_error(prims@, prims@.len() as int).is_none() && within_limits(prims@) ==> (r
            matches Ok(p) && {
            &&& p.wf()
            &&& p.vertex_count == vertex_total(prims@, prims@.len() as int)
            &&& p.indices@ == packed_indices(prims@, prims@.len() as int)
            &&& p.geometries@.len() == prims@.len()
            &&& forall|i: int| 0 <= i < prims@.len() ==> #[trigger] p.geometries@[i] == descr_of(prims@, i)
        }),
{
    let ghost ps = prims@;
    let n = prims.len();
    // validation, primitive by primitive
    let mut i: usize = 0;
    while i < n
        invariant
            n == ps.len(),
            ps == prims@,
            i <= n,
            first_error(ps, i as int).is_none(),
        decreases n - i,
    {
        let p = &prims[i];
        let count = match p.position_count {
            Some(c) => c,
            None => {
                proof {
                    lemma_error_at(ps, i as int, n as int, PackError::MissingPositions(i));
                }
                return Err(PackError::MissingPositions(i));
            },
        };
        match p.normal_count {
            Some(c) => {
                if c != count {
                    proof {
                        lemma_error_at(ps, i as int, n as int, PackError::NormalCountMismatch(i));
                    }
                    return Err(PackError::NormalCountMismatch(i));
                }
            },
            None => {
                proof {
                    lemma_error_at(ps, i as int, n as int, PackError::MissingNormals(i));
                }
                return Err(PackError::MissingNormals(i));
            },
        }
        let idx = match &p.indices {
            Some(v) => v,
            None => {
                proof {
                    lemma_error_at(ps, i as int, n as int, PackError::MissingIndices(i));
                }
                return Err(PackError::MissingIndices(i));
            },
        };
        if idx.len() % 3 != 0 {
            proof {
                lemma_error_at(ps, i as int, n as int, PackError::IndicesNotTriangles(i));
            }
            return Err(PackError::IndicesNotTriangles(i));
        }
        let mut k: usize = 0;
        while k < idx.len()
            invariant
                i < n,
                n == ps.len(),
                first_error(ps, i as int).is_none(),
                ps == prims@,
                ps[i as int].position_count == Some(count),
                ps[i as int].normal_count == Some(count),
                ps[i as int].indices.is_some(),
                index_seq(ps[i as int]).len() % 3 == 0,
                k <= idx@.len(),
                idx@ == index_seq(ps[i as int]),
                count == pos_count(ps[i as int]),
                forall|j: int| 0 <= j < k ==> idx@[j] < count,
            decreases idx@.len() - k,
        {
            if idx[k] as usize >= count {
                proof {
                    assert(index_seq(ps[i as int])[k as int] >= pos_count(ps[i as int]));
                    lemma_error_at(ps, i as int, n as int, PackError::IndexOutOfRange(i));
                }
                return Err(PackError::IndexOutOfRange(i));
            }
            k = k + 1;
        }
        assert(prim_error(ps[i as int], i).is_none());
        i = i + 1;
    }
    // totals
    let mut vtotal: u64 = 0;
    let mut itotal: u64 = 0;
    let mut i: usize = 0;
    while i < n
        invariant
            n == ps.len(),
            ps == prims@,
            i <= n,
            vtotal == vertex_total(ps, i as int),
            itotal == index_total(ps, i as int),
            vtotal <= MAX_MESH_VERTICES,
            itotal <= MAX_MESH_INDICES,
            first_error(ps, n as int).is_none(),
        decreases n - i,
    {
        proof {
            lemma_first_error_prefix(ps, i as int + 1, n as int);
            lemma_totals_monotonic(ps, i as int + 1, n as int);
        }
        let p = &prims[i];
        let c = p.position_count.unwrap() as u64;
        let len = p.indices.as_ref().unwrap().len() as u64;
        if c > MAX_MESH_VERTICES - vtotal || len > MAX_MESH_INDICES - itotal {
            return Err(PackError::TooLarge);
        }
        vtotal = vtotal + c;
        itotal = itotal + len;
        i = i + 1;
    }
    // packing
    let mut indices: Vec<u32> = Vec::new();
    let mut geometries: Vec<GeometryDescr> = Vec::new();
    let mut vhead: usize = 0;
    let mut ihead: usize = 0;
    let mut i: usize = 0;
    while i < n
        invariant
            n == ps.len(),
            ps == prims@,
            i <= n,
            first_error(ps, n as int).is_none(),
            within_limits(ps),
            vhead == vertex_total(ps, i as int),
            ihead == index_total(ps, i as int),
            indices@ == packed_indices(ps, i as int),
            geometries@.len() == i,
            forall|j: int| 0 <= j < i ==> #[trigger] geometries@[j] == descr_of(ps, j),
        decreases n - i,
    {
        proof {
            lemma_first_error_prefix(ps, i as int + 1, n as int);
            lemma_totals_monotonic(ps, i as int + 1, n as int);
            assert(prim_error(ps[i as int], i).is_none());
        }
        let p = &prims[i];
        let count = p.position_count.unwrap();
        let idx = p.indices.as_ref().unwrap();
        let ghost before = indices@;
        let mut k: usize = 0;
        while k < idx.len()
            invariant
                i < n,
                n == ps.len(),
                idx@ == index_seq(ps[i as int]),
                count == pos_count(ps[i as int]),
                forall|j: int| 0 <= j < idx@.len() ==> idx@[j] < count,
                vhead + count <= MAX_MESH_VERTICES,
                k <= idx@.len(),
                indices@ == before + rebased(ps[i as int], vhead as int).subrange(0, k as int),
            decreases idx@.len() - k,
        {
            indices.push(idx[k] + vhead as u32);
            k = k + 1;
            proof {
                assert(indices@ =~= before + rebased(ps[i as int], vhead as int).subrange(0, k as int));
            }
        }
        assert(rebased(ps[i as int], vhead as int).subrange(0, k as int) =~= rebased(ps[i as int], vhead as int));
        geometries.push(
            GeometryDescr {
                first_vertex: vhead,
                vertex_count: count,
                first_index: ihead,
                index_count: idx.len(),
            },
        );
        vhead = vhead + count;
        ihead = ihead + idx.len();
        i = i + 1;
    }
    let r = PackedGeometry { indices, geometries, vertex_count: vhead };
    proof {
        lemma_packing_covers(ps);
        assert(r.geometries@ =~= Seq::new(ps.len(), |i: int| descr_of(ps, i)));
    }
    Ok(r)
}

proof fn lemma_packed_len_and_range(ps: Seq<PrimitiveSource>, n: int)
    requires
        0 <= n <= ps.len(),
        first_error(ps, n).is_none(),
        vertex_total(ps, n) <= MAX_MESH_VERTICES,
    ensures
        packed_indices(ps, n).len() == index_total(ps, n),
        forall|k: int| 0 <= k < packed_indices(ps, n).len() ==> #[trigger] packed_indices(ps, n)[k] < vertex_total(ps, n),
    decreases n,
{
    if n > 0 {
        lemma_first_error_prefix(ps, n - 1, n);
        lemma_totals_monotonic(ps, n - 1, n);
        lemma_packed_len_and_range(ps, n - 1);
        let a = packed_indices(ps, n - 1);
        let b = rebased(ps[n - 1], vertex_total(ps, n - 1));
        assert(prim_error(ps[n - 1], (n - 1) as usize).is_none());
        lemma_totals_monotonic(ps, 0, n - 1);
        assert(packed_indices(ps, n) == a + b);
        assert forall|k: int| 0 <= k < packed_indices(ps, n).len() implies #[trigger] packed_indices(ps, n)[k] < vertex_total(ps, n) by {
            if k >= a.len() {
                let j = k - a.len();
                assert(index_seq(ps[n - 1])[j] < pos_count(ps[n - 1]));
                assert(b[j] == (index_seq(ps[n - 1])[j] + vertex_total(ps, n - 1)) as u32);
                assert(packed_indices(ps, n)[k] == b[j]);
            } else {
                assert(packed_indices(ps, n)[k] == a[k]);
            }
        }
    }
}

proof fn lemma_descr_exact(ps: Seq<PrimitiveSource>, i: int)
    requires
        0 <= i < ps.len(),
        within_limits(ps),
    ensures
        descr_of(ps, i).first_vertex as int == vertex_total(ps, i),
        descr_of(ps, i).vertex_count as int == pos_count(ps[i]),
        descr_of(ps, i).first_index as int == index_total(ps, i),
        descr_of(ps, i).index_count as int == index_seq(ps[i]).len(),
        vertex_total(ps, i + 1) == vertex_total(ps, i) + pos_count(ps[i]),
        index_total(ps, i + 1) == index_total(ps, i) + index_seq(ps[i]).len(),
{
    let n = ps.len() as int;
    lemma_totals_monotonic(ps, 0, i);
    lemma_totals_monotonic(ps, i, i + 1);
    lemma_totals_monotonic(ps, i + 1, n);
    assert(pos_count(ps[i]) >= 0);
}

/// Packing a well-formed mesh tiles the shared vertex and index buffers
/// with the primitives' ranges, in order, with no gap and no overlap, and
/// every rebased index names a vertex of the shared buffer.
pub proof fn lemma_packing_covers(ps: Seq<PrimitiveSource>)
    requires
        first_error(ps, ps.len() as int).is_none(),
        within_limits(ps),
    ensures
        packed_indices(ps, ps.len() as int).len() == index_total(ps, ps.len() as int),
        descrs_cover(
            Seq::new(ps.len(), |i: int| descr_of(ps, i)),
            vertex_total(ps, ps.len() as int),
            packed_indices(ps, ps.len() as int).len() as int,
        ),
        forall|k: int|
            0 <= k < packed_indices(ps, ps.len() as int).len() ==> #[trigger] packed_indices(
                ps,
                ps.len() as int,
            )[k] < vertex_total(ps, ps.len() as int),
{
    let n = ps.len() as int;
    let g = Seq::new(ps.len(), |i: int| descr_of(ps, i));
    lemma_packed_len_and_range(ps, n);
    assert forall|i: int| 0 <= i <= n implies vertex_total(ps, i) <= MAX_MESH_VERTICES
        && index_total(ps, i) <= MAX_MESH_INDICES by {
        lemma_totals_monotonic(ps, i, n);
    }
    assert forall|i: int| 0 <= i < n implies #[trigger] g[i].index_count % 3 == 0 && pos_count(ps[i]) <= MAX_MESH_VERTICES by {
        lemma_first_error_prefix(ps, i + 1, n);
        assert(prim_error(ps[i], i as usize).is_none());
        lemma_descr_exact(ps, i);
    }
    assert forall|i: int, j: int|
        #![trigger g[i], g[j]]
        0 <= i && j == i + 1 && j < g.len() implies {
            &&& g[j].first_vertex == g[i].first_vertex + g[i].vertex_count
            &&& g[j].first_index == g[i].first_index + g[i].index_count
        } by {
        lemma_descr_exact(ps, i);
        lemma_descr_exact(ps, j);
    }
    if n > 0 {
        lemma_descr_exact(ps, n - 1);
    }
}

/// The slot cached for source image `image_idx` in `s`, if any.
pub open spec fn cached_slot(s: Seq<(usize, u32)>, image_idx: usize) -> Option<u32>
    decreases s.len(),
{
    if s.len() == 0 {
        None
    } else if s.last().0 == image_idx {
        Some(s.last().1)
    } else {
        cached_slot(s.drop_last(), image_idx)
    }
}

/// The bindless slots of the source images registered while one mesh is
/// built.
pub struct TextureCache {
    entries: Vec<(usize, u32)>,
}

impl View for TextureCache {
    type V = Seq<(usize, u32)>;

    closed spec fn view(&self) -> Seq<(usize, u32)> {
        self.entries@
    }
}

impl TextureCache {
    pub fn new() -> (r: Self)
        ensures
            r@.len() == 0,
    {
        TextureCache { entries: Vec::new() }
    }

    /// The slot of source image `image_idx`, if it was registered during
    /// this build.
    pub fn lookup(&self, image_idx: usize) -> (r: Option<u32>)
        ensures
            r == cached_slot(self@, image_idx),
    {
        let mut i: usize = self.entries.len();
        assert(self@.subrange(0, i as int) =~= self@);
        while i > 0
            invariant
                i <= self@.len(),
                cached_slot(self@, image_idx) == cached_slot(self@.subrange(0, i as int), image_idx),
            decreases i,
        {
            let ghost pre = self@.subrange(0, i as int);
            if self.entries[i - 1].0 == image_idx {
                return Some(self.entries[i - 1].1);
            }
            assert(pre.drop_last() =~= self@.subrange(0, i - 1));
            i = i - 1;
        }
        None
    }

    /// The bindless slot of source image `image_idx` for this build. An
    /// image registered earlier in the build keeps its slot and nothing
    /// changes. Otherwise `loaded_view` is the outcome of loading it: when
    /// it could not be loaded the white texture's slot stands in for it and
    /// nothing is remembered; else its view is registered in the bindless
    /// table and the slot is remembered for the rest of the build.
    pub fn load_cached_texture(
        &mut self,
        registry: &mut BindlessRegistry,
        image_idx: usize,
        loaded_view: Option<u64>,
    ) -> (slot: u32)
        requires
            old(registry).wf(),
            cached_slot(old(self)@, image_idx).is_some() || old(registry)@.len() < MAX_BINDLESS_IMAGES,
        ensures
            final(registry).wf(),
            cached_slot(old(self)@, image_idx) matches Some(c) ==> slot == c && final(self)@ == old(
                self,
            )@ && final(registry)@ == old(registry)@,
            cached_slot(old(self)@, image_idx).is_none() && loaded_view.is_none() ==> slot
                == WHITE_TEXTURE_IDX && final(self)@ == old(self)@ && final(registry)@ == old(
                registry,
            )@,
            cached_slot(old(self)@, image_idx).is_none() ==> (loaded_view matches Some(v) ==> {
                &&& final(registry)@ == registered(old(registry)@, v)
                &&& final(registry)@[slot as int] == v
                &&& final(self)@ == old(self)@.push((image_idx, slot))
            }),
            cached_slot(old(self)@, image_idx).is_some() || loaded_view.is_some() ==> cached_slot(
                final(self)@,
                image_idx,
            ) == Some(slot),
    {
        if let Some(c) = self.lookup(image_idx) {
            return c;
        }
        match loaded_view {
            None => WHITE_TEXTURE_IDX,
            Some(v) => {
                let slot = registry.register_bindless_texture(v);
                self.entries.push((image_idx, slot));
                slot
            },
        }
    }
}

/// The bindless slots a material samples.
#[derive(Clone, Copy, Debug, PartialEq, Eq, Structural)]
pub struct MaterialTextures {
    pub base_color_texture: u32,
    pub base_emissive_texture: u32,
    pub specular_transmission_texture: u32,
    pub metallic_roughness_texture: u32,
    pub normal_texture: u32,
}

/// The slots of a material whose textures have the given slots, if any: a
/// missing normal map samples the flat default normal map, any other
/// missing texture samples white.
pub fn material_textures(
    base_color: Option<u32>,
    base_emissive: Option<u32>,
    specular_transmission: Option<u32>,
    metallic_roughness: Option<u32>,
    normal: Option<u32>,
) -> (r: MaterialTextures)
    ensures
        r.base_color_texture == match base_color {
            Some(s) => s,
            None => WHITE_TEXTURE_IDX,
        },
        r.base_emissive_texture == match base_emissive {
            Some(s) => s,
            None => WHITE_TEXTURE_IDX,
        },
        r.specular_transmission_texture == match specular_transmission {
            Some(s) => s,
            None => WHITE_TEXTURE_IDX,
        },
        r.metallic_roughness_texture == match metallic_roughness {
            Some(s) => s,
            None => WHITE_TEXTURE_IDX,
        },
        r.normal_texture == match normal {
            Some(s) => s,
            None => DEFAULT_NORMAL_TEXTURE_IDX,
        },
{
    MaterialTextures {
        base_color_texture: base_color.unwrap_or(WHITE_TEXTURE_IDX),
        base_emissive_texture: base_emissive.unwrap_or(WHITE_TEXTURE_IDX),
        specular_transmission_texture: specular_transmission.unwrap_or(WHITE_TEXTURE_IDX),
        metallic_roughness_texture: metallic_roughness.unwrap_or(WHITE_TEXTURE_IDX),
        normal_texture: normal.unwrap_or(DEFAULT_NORMAL_TEXTURE_IDX),
    }
}

} // verus!
