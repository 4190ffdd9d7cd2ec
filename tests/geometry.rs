use vk_rays::blas::{
    choose_tangent, is_nan, sanitize_normal, BuildRange, GeometryDescr, Triangle, F32_ONE_BITS,
};
use vk_rays::gltf_mesh::{pack_primitives, PackError, PrimitiveSource};

fn prim(count: usize, indices: Vec<u32>) -> PrimitiveSource {
    PrimitiveSource {
        position_count: Some(count),
        normal_count: Some(count),
        indices: Some(indices),
    }
}

#[test]
fn packing_rebases_indices_and_tiles_ranges() {
    let prims = vec![prim(3, vec![0, 1, 2]), prim(4, vec![0, 1, 2, 2, 3, 0])];
    let packed = pack_primitives(&prims).unwrap();
    assert_eq!(packed.vertex_count, 7);
    assert_eq!(packed.indices, vec![0, 1, 2, 3, 4, 5, 5, 6, 3]);
    assert_eq!(
        packed.geometries,
        vec![
            GeometryDescr { first_vertex: 0, vertex_count: 3, first_index: 0, index_count: 3 },
            GeometryDescr { first_vertex: 3, vertex_count: 4, first_index: 3, index_count: 6 },
        ]
    );
    for g in packed.geometries.windows(2) {
        assert_eq!(g[0].first_vertex + g[0].vertex_count, g[1].first_vertex);
        assert_eq!(g[0].first_index + g[0].index_count, g[1].first_index);
    }
    assert!(packed.indices.iter().all(|&i| (i as usize) < packed.vertex_count));
}

#[test]
fn packing_empty_mesh() {
    let packed = pack_primitives(&Vec::new()).unwrap();
    assert_eq!(packed.vertex_count, 0);
    assert!(packed.indices.is_empty());
    assert!(packed.geometries.is_empty());
}

#[test]
fn packing_errors() {
    let missing_positions = PrimitiveSource { position_count: None, normal_count: Some(3), indices: Some(vec![0, 1, 2]) };
    assert_eq!(pack_primitives(&vec![prim(3, vec![0, 1, 2]), missing_positions]).err(), Some(PackError::MissingPositions(1)));
    let missing_normals = PrimitiveSource { position_count: Some(3), normal_count: None, indices: Some(vec![0, 1, 2]) };
    assert_eq!(pack_primitives(&vec![missing_normals]).err(), Some(PackError::MissingNormals(0)));
    let mismatch = PrimitiveSource { position_count: Some(3), normal_count: Some(2), indices: Some(vec![0, 1, 2]) };
    assert_eq!(pack_primitives(&vec![mismatch]).err(), Some(PackError::NormalCountMismatch(0)));
    let no_indices = PrimitiveSource { position_count: Some(3), normal_count: Some(3), indices: None };
    assert_eq!(pack_primitives(&vec![no_indices]).err(), Some(PackError::MissingIndices(0)));
    assert_eq!(pack_primitives(&vec![prim(3, vec![0, 1])]).err(), Some(PackError::IndicesNotTriangles(0)));
    assert_eq!(pack_primitives(&vec![prim(3, vec![0, 1, 3])]).err(), Some(PackError::IndexOutOfRange(0)));
    let huge = vec![prim(0xffff_ffff, vec![]), prim(1, vec![])];
    assert_eq!(pack_primitives(&huge).err(), Some(PackError::TooLarge));
}

#[test]
fn packing_reports_first_bad_primitive() {
    let prims = vec![prim(3, vec![0, 1, 2]), prim(3, vec![0, 1]), prim(3, vec![7, 7, 7])];
    assert_eq!(pack_primitives(&prims).err(), Some(PackError::IndicesNotTriangles(1)));
}

#[test]
fn geometry_tables() {
    let prims = vec![prim(3, vec![0, 1, 2]), prim(4, vec![0, 1, 2, 2, 3, 0]), prim(3, vec![2, 1, 0])];
    let packed = pack_primitives(&prims).unwrap();
    assert_eq!(packed.triangle_count(), 4);
    assert_eq!(packed.geometry_to_index(), vec![0, 3, 9]);
    assert_eq!(packed.geometry_to_triangle(), vec![0, 1, 3]);
    assert_eq!(
        packed.build_ranges(),
        vec![
            BuildRange { primitive_count: 1, primitive_offset: 0, first_vertex: 0, transform_offset: 0 },
            BuildRange { primitive_count: 2, primitive_offset: 12, first_vertex: 0, transform_offset: 0 },
            BuildRange { primitive_count: 1, primitive_offset: 36, first_vertex: 0, transform_offset: 0 },
        ]
    );
    assert_eq!(packed.triangle_corners(1, 1), [5, 6, 3]);
    assert_eq!(packed.triangle_corners(2, 0), [9, 8, 7]);
}

fn tri(t: u32) -> Triangle {
    Triangle { tangent: t, normals: [t; 3], uvs: [t; 3] }
}

#[test]
fn triangles_land_at_their_geometry() {
    let prims = vec![prim(3, vec![0, 1, 2]), prim(4, vec![0, 1, 2, 2, 3, 0])];
    let packed = pack_primitives(&prims).unwrap();
    let per_geometry = vec![vec![tri(10)], vec![tri(20), tri(21)]];
    let all = packed.assemble_triangles(&per_geometry);
    assert_eq!(all, vec![tri(10), tri(20), tri(21)]);
}

#[test]
fn normal_and_uv_packing() {
    assert_eq!(Triangle::pack_normal(0xffff, 0x7fff, true), 0xffff_ffff);
    assert_eq!(Triangle::pack_normal(0x8000, 0x4000, false), 0x8000_8000);
    assert_eq!(Triangle::pack_normal(1, 2, true), 0x0001_0005);
    assert_eq!(Triangle::pack_uv(0x3c00, 0x4000), 0x4000_3c00);
    assert_eq!(Triangle::pack_uv(0, 0), 0);
}

#[test]
fn nan_normals_become_zero() {
    let nan = f32::NAN.to_bits();
    assert!(is_nan(nan));
    assert!(!is_nan(1.0f32.to_bits()));
    assert!(!is_nan(f32::INFINITY.to_bits()));
    let n = [0.0f32.to_bits(), nan, 1.0f32.to_bits()];
    assert_eq!(sanitize_normal(n, true), [0, 0, 0]);
    assert_eq!(sanitize_normal(n, false), [0, 0, 0]);
}

#[test]
fn off_unit_normals_become_x_axis() {
    let n = [0.5f32.to_bits(), 0.0f32.to_bits(), 0.0f32.to_bits()];
    assert_eq!(sanitize_normal(n, false), [F32_ONE_BITS, 0, 0]);
    assert_eq!(f32::from_bits(F32_ONE_BITS), 1.0);
}

#[test]
fn unit_normals_are_kept() {
    let n = [0.0f32.to_bits(), 1.0f32.to_bits(), 0.0f32.to_bits()];
    assert_eq!(sanitize_normal(n, true), n);
}

#[test]
fn degenerate_uvs_give_z_tangent() {
    let computed = [0.6f32.to_bits(), 0.8f32.to_bits(), 0.0f32.to_bits()];
    assert_eq!(choose_tangent(computed, true), [0, 0, 1.0f32.to_bits()]);
    assert_eq!(choose_tangent(computed, false), computed);
}
