use mesh_builder::encode::FIX_ONE;
use mesh_builder::{BuildError, GeometryVariant, IndexBuffer, MergedMesh, MeshBuilder, PaletteRecord};

fn fx(v: f32) -> i32 {
    (v * FIX_ONE as f32).round() as i32
}

/// A unit cube: six faces of two triangles, each face with its own four
/// vertices and outward normal.
fn cube(material: u32) -> GeometryVariant {
    let faces: [([f32; 3], [[f32; 3]; 4]); 6] = [
        ([1.0, 0.0, 0.0], [[1.0, 0.0, 0.0], [1.0, 1.0, 0.0], [1.0, 1.0, 1.0], [1.0, 0.0, 1.0]]),
        ([-1.0, 0.0, 0.0], [[0.0, 0.0, 0.0], [0.0, 0.0, 1.0], [0.0, 1.0, 1.0], [0.0, 1.0, 0.0]]),
        ([0.0, 1.0, 0.0], [[0.0, 1.0, 0.0], [0.0, 1.0, 1.0], [1.0, 1.0, 1.0], [1.0, 1.0, 0.0]]),
        ([0.0, -1.0, 0.0], [[0.0, 0.0, 0.0], [1.0, 0.0, 0.0], [1.0, 0.0, 1.0], [0.0, 0.0, 1.0]]),
        ([0.0, 0.0, 1.0], [[0.0, 0.0, 1.0], [1.0, 0.0, 1.0], [1.0, 1.0, 1.0], [0.0, 1.0, 1.0]]),
        ([0.0, 0.0, -1.0], [[0.0, 0.0, 0.0], [0.0, 1.0, 0.0], [1.0, 1.0, 0.0], [1.0, 0.0, 0.0]]),
    ];
    let mut positions = Vec::new();
    let mut normals = Vec::new();
    let mut uvs = Vec::new();
    let mut indices = Vec::new();
    for (f, (n, corners)) in faces.iter().enumerate() {
        for c in corners.iter() {
            positions.extend(c.iter().map(|v| fx(*v)));
            normals.extend(n.iter().map(|v| fx(*v)));
            uvs.extend([0, 0]);
        }
        let b = 4 * f as u32;
        indices.extend([b, b + 1, b + 2, b, b + 2, b + 3]);
    }
    GeometryVariant { positions, normals, uvs, indices, material_index: material }
}

fn record(index: u32, flags: Option<u32>, category: Option<&str>, geometries: Vec<GeometryVariant>) -> PaletteRecord {
    PaletteRecord {
        index,
        occlusion_flags: flags,
        category: category.map(|c| c.to_string()),
        geometries,
    }
}

fn builder_with(records: Vec<PaletteRecord>) -> MeshBuilder {
    let mut b = MeshBuilder::new();
    b.update_palette(records);
    b
}

fn solid_builder() -> MeshBuilder {
    builder_with(vec![record(0, Some(63), Some("solid"), vec![cube(3)])])
}

/// The quads of a greedy mesh: four consecutive vertices each.
fn quads(m: &MergedMesh) -> Vec<([i16; 3], [[i16; 3]; 4])> {
    let mut out = Vec::new();
    for q in 0..(m.vertex_count as usize / 4) {
        let n = [m.normals[12 * q], m.normals[12 * q + 1], m.normals[12 * q + 2]];
        let mut cs = [[0i16; 3]; 4];
        for (k, c) in cs.iter_mut().enumerate() {
            for a in 0..3 {
                c[a] = m.positions[12 * q + 3 * k + a];
            }
        }
        out.push(([n[0] as i16, n[1] as i16, n[2] as i16], cs));
    }
    out
}

fn check_groups(m: &MergedMesh) {
    let total: u32 = m.groups.iter().map(|g| g.count).sum();
    assert_eq!(total as usize, m.indices.len());
    let mut next = 0;
    for g in &m.groups {
        assert_eq!(g.start, next);
        assert!(g.count > 0);
        next = g.start + g.count;
    }
    for w in m.groups.windows(2) {
        assert_ne!(w[0].material_index, w[1].material_index);
    }
}

#[test]
fn empty_voxel_list_gives_no_meshes() {
    let mut b = solid_builder();
    let r = b.build_chunk(&vec![], 5, 6, 7).unwrap();
    assert!(r.meshes.is_empty());
    assert_eq!(r.origin, (0, 0, 0));
    let r = b.build_chunk_greedy(&vec![1, 2, 3], 5, 6, 7).unwrap();
    assert!(r.meshes.is_empty());
    assert_eq!(r.origin, (0, 0, 0));
}

#[test]
fn single_voxel_greedy_emits_six_quads() {
    let mut b = solid_builder();
    let r = b.build_chunk_greedy(&vec![0, 0, 0, 0], 0, 0, 0).unwrap();
    assert_eq!(r.origin, (0, 0, 0));
    assert_eq!(r.meshes.len(), 1);
    let m = &r.meshes[0];
    assert_eq!(m.category, "solid");
    assert_eq!(m.vertex_count, 24);
    assert_eq!(m.indices.len(), 36);
    assert_eq!(m.positions.len(), 72);
    assert_eq!(m.normals.len(), 72);
    assert_eq!(m.uvs.len(), 48);
    assert_eq!(m.groups.len(), 1);
    assert_eq!((m.groups[0].start, m.groups[0].count, m.groups[0].material_index), (0, 36, 3));
    let normals: Vec<[i16; 3]> = quads(m).iter().map(|q| q.0).collect();
    assert_eq!(
        normals,
        vec![[127, 0, 0], [-127, 0, 0], [0, 127, 0], [0, -127, 0], [0, 0, 127], [0, 0, -127]]
    );
    // the +X quad lies on the plane x = 1, wound as the corner table says
    assert_eq!(quads(m)[0].1, [[1024, 0, 0], [1024, 1024, 0], [1024, 1024, 1024], [1024, 0, 1024]]);
    assert_eq!(&m.indices[0..6], &[0, 1, 2, 0, 2, 3]);
    assert_eq!(&m.indices[6..12], &[4, 5, 6, 4, 6, 7]);
}

#[test]
fn adjacent_occluding_voxels_hide_shared_faces() {
    let blocks = vec![0, 0, 0, 0, 1, 0, 0, 0];
    // naive merger: every cube keeps 10 of its 12 faces' triangles
    let mut b = builder_with(vec![record(0, Some(63), Some("stone"), vec![cube(1)])]);
    let r = b.build_chunk(&blocks, 0, 0, 0).unwrap();
    assert_eq!(r.meshes.len(), 1);
    assert_eq!(r.meshes[0].indices.len(), 2 * 10 * 3);
    assert_eq!(r.meshes[0].vertex_count, 48);
    // greedy mesher: no quad lies on the shared plane x = 1
    let mut b = solid_builder();
    let r = b.build_chunk_greedy(&blocks, 0, 0, 0).unwrap();
    let m = &r.meshes[0];
    let qs = quads(m);
    assert_eq!(qs.len(), 6);
    for (_, cs) in &qs {
        assert!(!cs.iter().all(|c| c[0] == 1024));
    }
    // the ten remaining unit faces are covered: areas add up to 10
    let area: i64 = qs
        .iter()
        .map(|(_, cs)| {
            let ext: Vec<i64> = (0..3)
                .map(|a| {
                    let lo = cs.iter().map(|c| c[a]).min().unwrap() as i64;
                    let hi = cs.iter().map(|c| c[a]).max().unwrap() as i64;
                    (hi - lo) / 1024
                })
                .filter(|e| *e > 0)
                .collect();
            ext.iter().product::<i64>()
        })
        .sum();
    assert_eq!(area, 10);
}

#[test]
fn flat_slab_top_is_one_quad() {
    let mut blocks = Vec::new();
    for x in 0..4 {
        for z in 0..3 {
            blocks.extend([x, 0, z, 0]);
        }
    }
    let mut b = solid_builder();
    let r = b.build_chunk_greedy(&blocks, 0, 0, 0).unwrap();
    let qs = quads(&r.meshes[0]);
    let tops: Vec<_> = qs.iter().filter(|q| q.0 == [0, 127, 0]).collect();
    assert_eq!(tops.len(), 1);
    assert_eq!(tops[0].1, [[0, 1024, 0], [0, 1024, 3072], [4096, 1024, 3072], [4096, 1024, 0]]);
    // UVs scale with the quad so textures tile
    let q = qs.iter().position(|q| q.0 == [0, 127, 0]).unwrap();
    let uvs = &r.meshes[0].uvs[8 * q..8 * q + 8];
    assert_eq!(uvs, &[0, 0, 0, 3 * 65536, 4 * 65536, 3 * 65536, 4 * 65536, 0]);
    // every face of the slab merges: six quads in all
    assert_eq!(qs.len(), 6);
}

#[test]
fn groups_partition_the_indices() {
    let mut b = builder_with(vec![
        record(0, Some(0), Some("glass"), vec![cube(1)]),
        record(1, Some(0), Some("glass"), vec![cube(2), cube(2)]),
        record(2, Some(0), Some("glass"), vec![cube(1)]),
        record(3, Some(63), None, vec![cube(7)]),
        record(4, Some(63), None, vec![cube(8)]),
    ]);
    let blocks = vec![0, 0, 0, 0, 5, 0, 0, 1, 9, 0, 0, 2, 0, 5, 0, 3, 2, 5, 0, 4];
    let r = b.build_chunk(&blocks, 0, 0, 0).unwrap();
    for m in &r.meshes {
        check_groups(m);
    }
    let glass = r.meshes.iter().find(|m| m.category == "glass").unwrap();
    let mats: Vec<u32> = glass.groups.iter().map(|g| g.material_index).collect();
    assert_eq!(mats, vec![1, 2, 1]);
    let r = b.build_chunk_greedy(&blocks, 0, 0, 0).unwrap();
    for m in &r.meshes {
        check_groups(m);
    }
    assert_eq!(r.meshes[0].category, "solid");
}

#[test]
fn index_width_follows_vertex_count() {
    let mut m = MergedMesh {
        category: "solid".to_string(),
        positions: vec![0; 3 * 65535],
        normals: vec![0; 3 * 65535],
        uvs: vec![0; 2 * 65535],
        indices: vec![0, 1, 65534],
        groups: vec![],
        vertex_count: 65535,
    };
    match m.index_buffer() {
        IndexBuffer::U16(v) => assert_eq!(v, vec![0u16, 1, 65534]),
        IndexBuffer::U32(_) => panic!("expected 16-bit indices"),
    }
    m.vertex_count = 65536;
    m.indices = vec![0, 1, 65535];
    match m.index_buffer() {
        IndexBuffer::U32(v) => assert_eq!(v, vec![0u32, 1, 65535]),
        IndexBuffer::U16(_) => panic!("expected 32-bit indices"),
    }
}

#[test]
fn batch_totals_match_a_single_build() {
    let records = || vec![record(0, Some(63), Some("leaves"), vec![cube(4)])];
    let a = vec![0, 0, 0, 0, 1, 0, 0, 0];
    let c = vec![10, 0, 0, 0, 10, 1, 0, 0, 10, 2, 0, 0];
    let mut both = a.clone();
    both.extend(c.iter());

    let mut single = builder_with(records());
    let whole = single.build_chunk(&both, 0, 0, 0).unwrap();
    let whole = whole.meshes.iter().find(|m| m.category == "leaves").unwrap();

    let mut batch = builder_with(records());
    batch.start_batch();
    assert!(batch.is_batch_mode());
    let r1 = batch.build_chunk(&a, 0, 0, 0).unwrap();
    let r2 = batch.build_chunk(&c, 0, 0, 0).unwrap();
    assert!(r1.meshes.is_empty() && r2.meshes.is_empty());
    let out = batch.finish_batch();
    assert!(!batch.is_batch_mode());
    assert_eq!(out.origin, (0, 0, 0));
    assert_eq!(out.meshes.len(), 1);
    let m = &out.meshes[0];
    assert_eq!(m.vertex_count, whole.vertex_count);
    assert_eq!(m.indices.len(), whole.indices.len());
    check_groups(m);
    // indices of the second chunk continue past the first chunk's vertices
    assert!(m.indices.iter().all(|i| *i < m.vertex_count));
    assert_eq!(m.indices[60], 48);
}

#[test]
fn clearing_or_restarting_a_batch_discards_it() {
    let mut b = builder_with(vec![record(0, Some(0), Some("glass"), vec![cube(1)])]);
    b.start_batch();
    b.build_chunk(&vec![0, 0, 0, 0], 0, 0, 0).unwrap();
    b.start_batch();
    assert!(b.finish_batch().meshes.is_empty());
    b.start_batch();
    b.build_chunk(&vec![0, 0, 0, 0], 0, 0, 0).unwrap();
    b.clear_batch();
    assert!(!b.is_batch_mode());
    assert!(b.finish_batch().meshes.is_empty());
}

#[test]
fn grid_beyond_addressing_is_refused() {
    let mut b = solid_builder();
    let blocks = vec![i32::MIN, i32::MIN, i32::MIN, 0, i32::MAX, i32::MAX, i32::MAX, 0];
    assert!(matches!(b.build_chunk(&blocks, 0, 0, 0), Err(BuildError::GridTooLarge)));
    assert!(matches!(b.build_chunk_greedy(&blocks, 0, 0, 0), Err(BuildError::GridTooLarge)));
}

#[test]
fn unknown_types_contribute_nothing() {
    let mut b = solid_builder();
    let r = b.build_chunk(&vec![0, 0, 0, 7, 1, 0, 0, -3], 0, 0, 0).unwrap();
    assert!(r.meshes.is_empty());
    assert_eq!(r.origin, (0, 0, 0));
    let r = b.build_chunk_greedy(&vec![0, 0, 0, 7, 4, 4, 4, 0], 1, 2, 3).unwrap();
    assert_eq!(r.origin, (1, 2, 3));
    assert_eq!(r.meshes[0].vertex_count, 24);
}

#[test]
fn positions_are_relative_to_the_origin() {
    let mut b = builder_with(vec![record(0, Some(0), Some("glass"), vec![cube(1)])]);
    let r = b.build_chunk(&vec![3, 4, 5, 0], 1, 1, 1).unwrap();
    let m = &r.meshes[0];
    assert_eq!(&m.positions[0..3], &[3 * 1024, 3 * 1024, 4 * 1024]);
    assert_eq!(&m.normals[0..3], &[127, 0, 0]);
}

#[test]
fn later_voxel_at_a_position_wins() {
    let mut b = builder_with(vec![
        record(0, Some(63), Some("solid"), vec![cube(1)]),
        record(1, Some(0), Some("solid"), vec![cube(2)]),
    ]);
    // the neighbour at x = 1 is written twice; the second, non-occluding, wins
    let r = b.build_chunk_greedy(&vec![0, 0, 0, 0, 1, 0, 0, 0, 1, 0, 0, 1], 0, 0, 0).unwrap();
    let qs = quads(&r.meshes[0]);
    assert!(qs.iter().any(|(n, cs)| *n == [127, 0, 0] && cs.iter().all(|c| c[0] == 1024)));
}

#[test]
fn batch_totals_match_without_occlusion_even_when_chunks_touch() {
    let records = || {
        vec![
            record(0, Some(0), Some("glass"), vec![cube(1)]),
            record(1, Some(0), Some("water"), vec![cube(2), cube(5)]),
        ]
    };
    let a = vec![0, 0, 0, 0, 1, 0, 0, 1];
    let c = vec![2, 0, 0, 0, 1, 1, 0, 1, 1, 0, 0, 0];
    let mut both = a.clone();
    both.extend(c.iter());

    let mut single = builder_with(records());
    let whole = single.build_chunk(&both, 0, 0, 0).unwrap();

    let mut batch = builder_with(records());
    batch.start_batch();
    batch.build_chunk(&a, 3, 3, 3).unwrap();
    batch.build_chunk(&c, -1, 0, 9).unwrap();
    let out = batch.finish_batch();
    assert_eq!(out.meshes.len(), whole.meshes.len());
    for m in &whole.meshes {
        let acc = out.meshes.iter().find(|x| x.category == m.category).unwrap();
        assert_eq!(acc.vertex_count, m.vertex_count);
        assert_eq!(acc.indices.len(), m.indices.len());
        check_groups(acc);
    }
}

#[test]
fn wall_uvs_follow_the_quad_edges() {
    // a wall one voxel deep along z and three voxels high along y
    let mut b = solid_builder();
    let r = b.build_chunk_greedy(&vec![0, 0, 0, 0, 0, 1, 0, 0, 0, 2, 0, 0], 0, 0, 0).unwrap();
    let m = &r.meshes[0];
    for (q, (n, cs)) in quads(m).iter().enumerate() {
        if n[0] != 0 {
            let uvs = &m.uvs[8 * q..8 * q + 8];
            for k in 0..4 {
                // UV u runs along y (the quad's width) and v along z
                assert_eq!(uvs[2 * k] as i64, cs[k][1] as i64 * 64);
                assert_eq!(uvs[2 * k + 1] as i64, cs[k][2] as i64 * 64);
            }
        }
    }
}

#[test]
fn category_with_vertices_but_no_triangles_gets_an_empty_mesh() {
    let lone = GeometryVariant { positions: vec![0, 0, 0], normals: vec![], uvs: vec![], indices: vec![], material_index: 0 };
    let mut b = builder_with(vec![record(0, Some(0), Some("c"), vec![lone])]);
    let blocks = vec![0, 0, 0, 0];
    for r in [b.build_chunk(&blocks, 0, 0, 0).unwrap(), b.build_chunk_greedy(&blocks, 0, 0, 0).unwrap()] {
        assert_eq!(r.meshes.len(), 1);
        let m = &r.meshes[0];
        assert_eq!(m.category, "c");
        assert_eq!(m.vertex_count, 0);
        assert!(m.positions.is_empty() && m.indices.is_empty() && m.groups.is_empty());
    }
    // a batch passes empty meshes over
    b.start_batch();
    b.build_chunk(&blocks, 0, 0, 0).unwrap();
    assert!(b.finish_batch().meshes.is_empty());
}

#[test]
fn category_whose_triangles_are_all_culled_gets_an_empty_mesh() {
    // a glass cube enclosed on all six sides by occluding stone
    let mut b = builder_with(vec![
        record(0, Some(63), Some("stone"), vec![cube(1)]),
        record(1, Some(0), Some("glass"), vec![cube(2)]),
    ]);
    let mut blocks = vec![0, 0, 0, 1];
    for (dx, dy, dz) in [(1, 0, 0), (-1, 0, 0), (0, 1, 0), (0, -1, 0), (0, 0, 1), (0, 0, -1)] {
        blocks.extend([dx, dy, dz, 0]);
    }
    let r = b.build_chunk(&blocks, 0, 0, 0).unwrap();
    let glass = r.meshes.iter().find(|m| m.category == "glass").unwrap();
    assert_eq!(glass.vertex_count, 0);
    assert!(glass.indices.is_empty());
}
