//! The naive merger: every geometry variant of every voxel of a category,
//! with hidden triangles culled, in one mesh.
use vstd::prelude::*;
use crate::catalog::{GeometryCatalog, GeometryVariant, CatalogEntry, slot_wf, variants_wf};
use crate::encode::{FIX_ONE, POSITION_STEP, spec_encode_position, spec_decode_position, spec_encode_normal, encode_position, encode_normal, lemma_position_round_trip};
use crate::grid::{VoxelGrid, block_count, comp, occupant, lemma_comp_in_bounds};
use crate::mesh::{MeshView, PartView, MeshPart, MergedMesh, empty_view, append_view, mesh_wf, part_wf, append_fits};
use crate::visibility::{triangle_hidden, triangle_culled, vertex_dir};
use crate::direction::{dir_delta, dir_opposite, occlusion_bit};

verus! {

/// A chunk's geometry exceeds what 32-bit vertex numbers and index counts
/// can address, or its grid exceeds memory addressing.
#[derive(Clone, Copy, PartialEq, Eq, Structural, Debug)]
pub enum BuildError {
    GridTooLarge,
    MeshTooLarge,
}

/// The buffers' vertex and index counts fit 32 bits.
pub open spec fn mesh_fits(m: MeshView) -> bool {
    m.vertex_count <= u32::MAX && m.indices.len() <= u32::MAX
}

/// `a` has no more vertices and indices than `b`.
pub open spec fn no_larger(a: MeshView, b: MeshView) -> bool {
    a.vertex_count <= b.vertex_count && a.indices.len() <= b.indices.len()
}

/// The indices of the first `k` triangles of `g`, placed at `(x, y, z)`,
/// that are not hidden, in order.
pub open spec fn kept_indices(
    cat: GeometryCatalog,
    blocks: Seq<i32>,
    x: int,
    y: int,
    z: int,
    g: GeometryVariant,
    k: int,
) -> Seq<u32>
    decreases k,
{
    if k <= 0 {
        Seq::empty()
    } else {
        let prev = kept_indices(cat, blocks, x, y, z, g, k - 1);
        if triangle_hidden(cat, blocks, x, y, z, g, k - 1) {
            prev
        } else {
            prev + g.indices@.subrange(3 * (k - 1), 3 * k)
        }
    }
}

/// Component `a` of the offset of voxel `(x, y, z)` from the origin `o`.
pub open spec fn rel(x: int, y: int, z: int, o: (i32, i32, i32), a: int) -> int {
    if a == 0 {
        x - o.0
    } else if a == 1 {
        y - o.1
    } else {
        z - o.2
    }
}

/// The quantized positions of `g`'s vertices placed at voxel `(x, y, z)`,
/// relative to the chunk origin.
pub open spec fn placed_positions(x: int, y: int, z: int, o: (i32, i32, i32), g: GeometryVariant) -> Seq<i16> {
    Seq::new(
        (3 * g.vertex_count()) as nat,
        |j: int| spec_encode_position(rel(x, y, z, o, j % 3) * FIX_ONE + g.positions@[j]) as i16,
    )
}

/// The quantized normals of `g`'s vertices; a vertex without a normal gets
/// the up vector.
pub open spec fn placed_normals(g: GeometryVariant) -> Seq<i8> {
    Seq::new(
        (3 * g.vertex_count()) as nat,
        |j: int|
            if g.normals@.len() > 3 * (j / 3) + 2 {
                spec_encode_normal(g.normals@[j] as int) as i8
            } else if j % 3 == 1 {
                127i8
            } else {
                0i8
            },
    )
}

/// The UVs of `g`'s vertices; a vertex without UVs gets `(0, 0)`.
pub open spec fn placed_uvs(g: GeometryVariant) -> Seq<i64> {
    Seq::new(
        (2 * g.vertex_count()) as nat,
        |j: int|
            if g.uvs@.len() > 2 * (j / 2) + 1 {
                g.uvs@[j] as i64
            } else {
                0i64
            },
    )
}

/// The piece of geometry of variant `g` at voxel `(x, y, z)`.
pub open spec fn instance_view(
    cat: GeometryCatalog,
    blocks: Seq<i32>,
    x: int,
    y: int,
    z: int,
    o: (i32, i32, i32),
    g: GeometryVariant,
) -> PartView {
    PartView {
        positions: placed_positions(x, y, z, o, g),
        normals: placed_normals(g),
        uvs: placed_uvs(g),
        indices: kept_indices(cat, blocks, x, y, z, g, g.triangle_count()),
        vertex_count: g.vertex_count() as nat,
        material_index: g.material_index,
    }
}

/// The buffers after a piece is added: unchanged when all its triangles
/// were culled, appended otherwise.
pub open spec fn add_part(m: MeshView, p: PartView) -> MeshView {
    if p.indices.len() == 0 {
        m
    } else {
        append_view(m, p)
    }
}

/// The buffers after the first `k` variants of voxel `i` are added to `m`.
pub open spec fn fold_variants(
    cat: GeometryCatalog,
    blocks: Seq<i32>,
    o: (i32, i32, i32),
    i: int,
    gs: Seq<GeometryVariant>,
    k: int,
    m: MeshView,
) -> MeshView
    decreases k,
{
    if k <= 0 {
        m
    } else {
        add_part(
            fold_variants(cat, blocks, o, i, gs, k - 1, m),
            instance_view(
                cat,
                blocks,
                comp(blocks, i, 0),
                comp(blocks, i, 1),
                comp(blocks, i, 2),
                o,
                gs[k - 1],
            ),
        )
    }
}

/// The buffers after the voxels of type `t` among the first `k` are added
/// to `m`, in voxel order.
pub open spec fn fold_blocks(
    cat: GeometryCatalog,
    blocks: Seq<i32>,
    o: (i32, i32, i32),
    t: int,
    k: int,
    m: MeshView,
) -> MeshView
    decreases k,
{
    if k <= 0 {
        m
    } else {
        let prev = fold_blocks(cat, blocks, o, t, k - 1, m);
        if comp(blocks, k - 1, 3) == t && cat.spec_entry(t) is Some {
            let gs = cat.spec_entry(t).unwrap().geometries@;
            fold_variants(cat, blocks, o, k - 1, gs, gs.len() as int, prev)
        } else {
            prev
        }
    }
}

/// The buffers of the voxels of the first `k` types that belong to category
/// `c`, type by type in ascending order.
pub open spec fn fold_types(
    cat: GeometryCatalog,
    blocks: Seq<i32>,
    o: (i32, i32, i32),
    c: Seq<char>,
    k: int,
) -> MeshView
    decreases k,
{
    if k <= 0 {
        empty_view()
    } else {
        let prev = fold_types(cat, blocks, o, c, k - 1);
        if cat.spec_entry(k - 1) matches Some(e) && e.category@ == c {
            fold_blocks(cat, blocks, o, k - 1, block_count(blocks), prev)
        } else {
            prev
        }
    }
}

/// The merged mesh of category `c` in a chunk.
pub open spec fn naive_view(
    cat: GeometryCatalog,
    blocks: Seq<i32>,
    o: (i32, i32, i32),
    c: Seq<char>,
) -> MeshView {
    fold_types(cat, blocks, o, c, cat.entries@.len() as int)
}

proof fn lemma_fold_variants_grows(
    cat: GeometryCatalog,
    blocks: Seq<i32>,
    o: (i32, i32, i32),
    i: int,
    gs: Seq<GeometryVariant>,
    j: int,
    k: int,
    m: MeshView,
)
    requires
        0 <= j <= k,
    ensures
        no_larger(fold_variants(cat, blocks, o, i, gs, j, m), fold_variants(cat, blocks, o, i, gs, k, m)),
        no_larger(m, fold_variants(cat, blocks, o, i, gs, k, m)),
    decreases k,
{
    if k > 0 {
        lemma_fold_variants_grows(cat, blocks, o, i, gs, if j == k { k - 1 } else { j }, k - 1, m);
    }
}

proof fn lemma_fold_blocks_grows(
    cat: GeometryCatalog,
    blocks: Seq<i32>,
    o: (i32, i32, i32),
    t: int,
    j: int,
    k: int,
    m: MeshView,
)
    requires
        0 <= j <= k,
    ensures
        no_larger(fold_blocks(cat, blocks, o, t, j, m), fold_blocks(cat, blocks, o, t, k, m)),
        no_larger(m, fold_blocks(cat, blocks, o, t, k, m)),
    decreases k,
{
    if k > 0 {
        lemma_fold_blocks_grows(cat, blocks, o, t, if j == k { k - 1 } else { j }, k - 1, m);
        let prev = fold_blocks(cat, blocks, o, t, k - 1, m);
        if comp(blocks, k - 1, 3) == t && cat.spec_entry(t) is Some {
            let gs = cat.spec_entry(t).unwrap().geometries@;
            lemma_fold_variants_grows(cat, blocks, o, k - 1, gs, 0, gs.len() as int, prev);
        }
    }
}

proof fn lemma_fold_types_grows(
    cat: GeometryCatalog,
    blocks: Seq<i32>,
    o: (i32, i32, i32),
    c: Seq<char>,
    j: int,
    k: int,
)
    requires
        0 <= j <= k,
    ensures
        no_larger(fold_types(cat, blocks, o, c, j), fold_types(cat, blocks, o, c, k)),
    decreases k,
{
    if k > 0 && j < k {
        lemma_fold_types_grows(cat, blocks, o, c, j, k - 1);
        let prev = fold_types(cat, blocks, o, c, k - 1);
        if cat.spec_entry(k - 1) matches Some(e) && e.category@ == c {
            lemma_fold_blocks_grows(cat, blocks, o, k - 1, 0, block_count(blocks), prev);
        }
    }
}

/// Voxels of a type that none of the first `k` voxels has add nothing.
pub proof fn lemma_fold_blocks_absent(
    cat: GeometryCatalog,
    blocks: Seq<i32>,
    o: (i32, i32, i32),
    t: int,
    k: int,
    m: MeshView,
)
    requires
        forall|i: int| 0 <= i < k ==> comp(blocks, i, 3) != t,
    ensures
        fold_blocks(cat, blocks, o, t, k, m) == m,
    decreases k,
{
    if k > 0 {
        lemma_fold_blocks_absent(cat, blocks, o, t, k - 1, m);
    }
}

/// Kept indices name vertices of the variant.
pub proof fn lemma_kept_bounded(
    cat: GeometryCatalog,
    blocks: Seq<i32>,
    x: int,
    y: int,
    z: int,
    g: GeometryVariant,
    k: int,
)
    requires
        g.wf(),
        k <= g.triangle_count(),
    ensures
        forall|j: int|
            0 <= j < kept_indices(cat, blocks, x, y, z, g, k).len() ==> kept_indices(
                cat,
                blocks,
                x,
                y,
                z,
                g,
                k,
            )[j] < g.vertex_count(),
    decreases k,
{
    if k > 0 {
        lemma_kept_bounded(cat, blocks, x, y, z, g, k - 1);
        assert(3 * k <= g.indices@.len());
        let prev = kept_indices(cat, blocks, x, y, z, g, k - 1);
        let cur = kept_indices(cat, blocks, x, y, z, g, k);
        assert forall|j: int| 0 <= j < cur.len() implies cur[j] < g.vertex_count() by {
            if j >= prev.len() {
                assert(cur[j] == g.indices@[3 * (k - 1) + (j - prev.len())]);
            }
        }
    }
}

/// Which voxel types below `ntypes` occur in the chunk.
pub fn types_present(blocks: &Vec<i32>, ntypes: usize) -> (r: Vec<bool>)
    ensures
        r@.len() == ntypes,
        forall|t: int|
            0 <= t < ntypes ==> (#[trigger] r@[t] <==> exists|i: int|
                0 <= i < block_count(blocks@) && comp(blocks@, i, 3) == t),
{
    let mut r: Vec<bool> = Vec::with_capacity(ntypes);
    let mut t: usize = 0;
    while t < ntypes
        invariant
            t <= ntypes,
            r@.len() == t,
            forall|k: int| 0 <= k < t ==> !r@[k],
        decreases ntypes - t,
    {
        r.push(false);
        t += 1;
    }
    let n = blocks.len() / 4;
    let mut i: usize = 0;
    while i < n
        invariant
            i <= n,
            n == block_count(blocks@),
            4 * n <= blocks@.len(),
            4 * n <= usize::MAX,
            r@.len() == ntypes,
            forall|t: int|
                0 <= t < ntypes ==> (#[trigger] r@[t] <==> exists|k: int|
                    0 <= k < i && comp(blocks@, k, 3) == t),
        decreases n - i,
    {
        let ty = blocks[4 * i + 3];
        if ty >= 0 && (ty as u64) < ntypes as u64 {
            r.set(ty as usize, true);
        }
        proof {
            assert forall|t: int| 0 <= t < ntypes implies (#[trigger] r@[t] <==> exists|k: int|
                0 <= k < i + 1 && comp(blocks@, k, 3) == t) by {
                if comp(blocks@, i as int, 3) == t {
                    assert(r@[t]);
                }
                if r@[t] && comp(blocks@, i as int, 3) != t {
                    let k = choose|k: int| 0 <= k < i && comp(blocks@, k, 3) == t;
                    assert(0 <= k < i + 1 && comp(blocks@, k, 3) == t);
                }
                if exists|k: int| 0 <= k < i + 1 && comp(blocks@, k, 3) == t {
                    let k = choose|k: int| 0 <= k < i + 1 && comp(blocks@, k, 3) == t;
                    if k < i {
                        assert(exists|k: int| 0 <= k < i && comp(blocks@, k, 3) == t);
                    }
                }
            }
        }
        i += 1;
    }
    r
}

/// The indices of the triangles of `g`, placed at voxel `(x, y, z)`, that
/// are not hidden by a neighbour, in order and with their winding.
pub fn kept_triangles(cat: &GeometryCatalog, grid: &VoxelGrid, blocks: &Vec<i32>, x: i32, y: i32, z: i32, g: &GeometryVariant) -> (r: Vec<u32>)
    requires
        grid.of_chunk(blocks@),
        grid.bounds.min_x <= x <= grid.bounds.max_x,
        grid.bounds.min_y <= y <= grid.bounds.max_y,
        grid.bounds.min_z <= z <= grid.bounds.max_z,
        g.wf(),
    ensures
        r@ == kept_indices(*cat, blocks@, x as int, y as int, z as int, *g, g.triangle_count()),
{
    let ntri = g.indices.len() / 3;
    assert(3 * ntri == g.indices@.len());
    let mut out: Vec<u32> = Vec::new();
    let mut t: usize = 0;
    while t < ntri
        invariant
            t <= ntri,
            ntri == g.triangle_count(),
            3 * ntri == g.indices@.len(),
            g.indices@.len() <= usize::MAX,
            grid.of_chunk(blocks@),
            grid.bounds.min_x <= x <= grid.bounds.max_x,
            grid.bounds.min_y <= y <= grid.bounds.max_y,
            grid.bounds.min_z <= z <= grid.bounds.max_z,
            g.wf(),
            out@ == kept_indices(*cat, blocks@, x as int, y as int, z as int, *g, t as int),
        decreases ntri - t,
    {
        if !triangle_culled(cat, grid, blocks, x as i64, y as i64, z as i64, g, t) {
            out.push(g.indices[3 * t]);
            out.push(g.indices[3 * t + 1]);
            out.push(g.indices[3 * t + 2]);
            proof {
                assert(out@ =~= kept_indices(*cat, blocks@, x as int, y as int, z as int, *g, t as int)
                    + g.indices@.subrange(3 * t, 3 * t + 3));
            }
        }
        t += 1;
    }
    out
}

/// The vertices of `g` placed at voxel `(x, y, z)`: quantized positions
/// relative to the origin, quantized normals (the up vector where one is
/// missing) and UVs (`(0, 0)` where missing).
pub fn place_vertices(
    x: i32,
    y: i32,
    z: i32,
    origin: (i32, i32, i32),
    g: &GeometryVariant,
) -> (r: (Vec<i16>, Vec<i8>, Vec<i64>))
    ensures
        r.0@ == placed_positions(x as int, y as int, z as int, origin, *g),
        r.1@ == placed_normals(*g),
        r.2@ == placed_uvs(*g),
{
    let nv = g.positions.len() / 3;
    let offsets = [
        (x as i64 - origin.0 as i64) * FIX_ONE,
        (y as i64 - origin.1 as i64) * FIX_ONE,
        (z as i64 - origin.2 as i64) * FIX_ONE,
    ];
    let mut positions: Vec<i16> = Vec::new();
    let mut normals: Vec<i8> = Vec::new();
    let mut uvs: Vec<i64> = Vec::new();
    let mut v: usize = 0;
    while v < nv
        invariant
            v <= nv,
            nv == g.vertex_count(),
            3 * nv <= g.positions@.len(),
            g.positions@.len() <= usize::MAX,
            offsets@.len() == 3,
            forall|a: int| 0 <= a < 3 ==> offsets@[a] == rel(x as int, y as int, z as int, origin, a) * FIX_ONE,
            positions@.len() == 3 * v,
            normals@.len() == 3 * v,
            uvs@.len() == 2 * v,
            forall|j: int| 0 <= j < 3 * v ==> positions@[j] == placed_positions(x as int, y as int, z as int, origin, *g)[j],
            forall|j: int| 0 <= j < 3 * v ==> normals@[j] == placed_normals(*g)[j],
            forall|j: int| 0 <= j < 2 * v ==> uvs@[j] == placed_uvs(*g)[j],
        decreases nv - v,
    {
        let mut a: usize = 0;
        while a < 3
            invariant
                a <= 3,
                v < nv,
                nv == g.vertex_count(),
                3 * nv <= g.positions@.len(),
                g.positions@.len() <= usize::MAX,
                offsets@.len() == 3,
                forall|a: int| 0 <= a < 3 ==> offsets@[a] == rel(x as int, y as int, z as int, origin, a) * FIX_ONE,
                positions@.len() == 3 * v + a,
                normals@.len() == 3 * v + a,
                forall|j: int| 0 <= j < 3 * v + a ==> positions@[j] == placed_positions(x as int, y as int, z as int, origin, *g)[j],
                forall|j: int| 0 <= j < 3 * v + a ==> normals@[j] == placed_normals(*g)[j],
            decreases 3 - a,
        {
            let j = 3 * v + a;
            assert(j % 3 == a && j / 3 == v) by (nonlinear_arith)
                requires
                    j == 3 * v + a,
                    a < 3,
            ;
            positions.push(encode_position(offsets[a] + g.positions[j] as i64));
            if g.normals.len() > 3 * v + 2 {
                normals.push(encode_normal(g.normals[j]));
            } else if a == 1 {
                normals.push(127);
            } else {
                normals.push(0);
            }
            a += 1;
        }
        let mut b: usize = 0;
        while b < 2
            invariant
                b <= 2,
                v < nv,
                uvs@.len() == 2 * v + b,
                3 * nv <= g.positions@.len(),
                g.positions@.len() <= usize::MAX,
                forall|j: int| 0 <= j < 2 * v + b ==> uvs@[j] == placed_uvs(*g)[j],
                nv == g.vertex_count(),
            decreases 2 - b,
        {
            let j = 2 * v + b;
            assert(j / 2 == v) by (nonlinear_arith)
                requires
                    j == 2 * v + b,
                    b < 2,
            ;
            if g.uvs.len() > 2 * v + 1 {
                uvs.push(g.uvs[j] as i64);
            } else {
                uvs.push(0);
            }
            b += 1;
        }
        v += 1;
    }
    proof {
        assert(positions@ =~= placed_positions(x as int, y as int, z as int, origin, *g));
        assert(normals@ =~= placed_normals(*g));
        assert(uvs@ =~= placed_uvs(*g));
    }
    (positions, normals, uvs)
}

/// Adds the variants of voxel `i` (of the catalog entry `e`) to the mesh.
fn add_voxel(
    cat: &GeometryCatalog,
    grid: &VoxelGrid,
    blocks: &Vec<i32>,
    i: usize,
    e: &CatalogEntry,
    origin: (i32, i32, i32),
    mesh: &mut MergedMesh,
) -> (r: Result<(), BuildError>)
    requires
        grid.of_chunk(blocks@),
        i < block_count(blocks@),
        variants_wf(e.geometries@),
        mesh_wf(old(mesh).view()),
    ensures
        final(mesh).category == old(mesh).category,
        r is Ok ==> final(mesh).view() == fold_variants(*cat, blocks@, origin, i as int, e.geometries@, e.geometries@.len() as int, old(mesh).view())
            && mesh_wf(final(mesh).view()),
        r is Err ==> r == Err::<(), BuildError>(BuildError::MeshTooLarge) && !mesh_fits(
            fold_variants(*cat, blocks@, origin, i as int, e.geometries@, e.geometries@.len() as int, old(mesh).view()),
        ),
{
    let ghost m0 = mesh.view();
    let ghost gs = e.geometries@;
    let n = blocks.len() / 4;
    assert(4 * n <= blocks@.len());
    let x = blocks[4 * i];
    let y = blocks[4 * i + 1];
    let z = blocks[4 * i + 2];
    proof {
        lemma_comp_in_bounds(blocks@, n as int, i as int, 0);
        lemma_comp_in_bounds(blocks@, n as int, i as int, 1);
        lemma_comp_in_bounds(blocks@, n as int, i as int, 2);
    }
    let mut g: usize = 0;
    while g < e.geometries.len()
        invariant
            g <= gs.len(),
            gs == e.geometries@,
            variants_wf(gs),
            x == comp(blocks@, i as int, 0),
            y == comp(blocks@, i as int, 1),
            z == comp(blocks@, i as int, 2),
            grid.of_chunk(blocks@),
            grid.bounds.min_x <= x <= grid.bounds.max_x,
            grid.bounds.min_y <= y <= grid.bounds.max_y,
            grid.bounds.min_z <= z <= grid.bounds.max_z,
            mesh.view() == fold_variants(*cat, blocks@, origin, i as int, gs, g as int, m0),
            m0 == old(mesh).view(),
            mesh_wf(mesh.view()),
            mesh.category == old(mesh).category,
        decreases gs.len() - g,
    {
        let geom = &e.geometries[g];
        let kept = kept_triangles(cat, grid, blocks, x, y, z, geom);
        if kept.len() > 0 {
            let ghost part = instance_view(*cat, blocks@, x as int, y as int, z as int, origin, *geom);
            let nv = geom.positions.len() / 3;
            if !mesh.fits_after(nv, kept.len()) {
                proof {
                    assert(fold_variants(*cat, blocks@, origin, i as int, gs, g as int + 1, m0)
                        == add_part(mesh.view(), part));
                    lemma_fold_variants_grows(*cat, blocks@, origin, i as int, gs, g as int + 1, gs.len() as int, m0);
                    assert(part.indices.len() == kept@.len());
                    assert(part.vertex_count == nv);
                    assert(!mesh_fits(add_part(mesh.view(), part)));
                    assert(!mesh_fits(fold_variants(*cat, blocks@, origin, i as int, gs, gs.len() as int, m0)));
                }
                return Err(BuildError::MeshTooLarge);
            }
            let (positions, normals, uvs) = place_vertices(x, y, z, origin, geom);
            let p = MeshPart {
                positions,
                normals,
                uvs,
                indices: kept,
                vertex_count: nv as u32,
                material_index: geom.material_index,
            };
            assert(p.view() == part);
            proof {
                lemma_kept_bounded(*cat, blocks@, x as int, y as int, z as int, *geom, geom.triangle_count());
            }
            mesh.append(p);
        }
        g += 1;
    }
    Ok(())
}

/// Adds every voxel of type `t` (whose catalog entry is `e`) to the mesh.
fn add_type(
    cat: &GeometryCatalog,
    grid: &VoxelGrid,
    blocks: &Vec<i32>,
    t: usize,
    e: &CatalogEntry,
    origin: (i32, i32, i32),
    mesh: &mut MergedMesh,
) -> (r: Result<(), BuildError>)
    requires
        grid.of_chunk(blocks@),
        cat.spec_entry(t as int) == Some(*e),
        variants_wf(e.geometries@),
        mesh_wf(old(mesh).view()),
    ensures
        final(mesh).category == old(mesh).category,
        r is Ok ==> final(mesh).view() == fold_blocks(*cat, blocks@, origin, t as int, block_count(blocks@), old(mesh).view())
            && mesh_wf(final(mesh).view()),
        r is Err ==> r == Err::<(), BuildError>(BuildError::MeshTooLarge) && !mesh_fits(
            fold_blocks(*cat, blocks@, origin, t as int, block_count(blocks@), old(mesh).view()),
        ),
{
    let ghost m0 = mesh.view();
    let n = blocks.len() / 4;
    assert(4 * n <= blocks@.len());
    let mut i: usize = 0;
    while i < n
        invariant
            i <= n,
            n == block_count(blocks@),
            4 * n <= blocks@.len(),
            4 * n <= usize::MAX,
            grid.of_chunk(blocks@),
            cat.spec_entry(t as int) == Some(*e),
            variants_wf(e.geometries@),
            mesh.view() == fold_blocks(*cat, blocks@, origin, t as int, i as int, m0),
            m0 == old(mesh).view(),
            mesh_wf(mesh.view()),
            mesh.category == old(mesh).category,
        decreases n - i,
    {
        let ty = blocks[4 * i + 3];
        let ghost mesh_before = mesh.view();
        if ty >= 0 && ty as usize == t {
            match add_voxel(cat, grid, blocks, i, e, origin, mesh) {
                Ok(_) => {},
                Err(err) => {
                    proof {
                        assert(comp(blocks@, i as int, 3) == t);
                        assert(fold_blocks(*cat, blocks@, origin, t as int, i as int + 1, m0)
                            == fold_variants(*cat, blocks@, origin, i as int, e.geometries@, e.geometries@.len() as int, mesh_before));
                        lemma_fold_blocks_grows(*cat, blocks@, origin, t as int, i as int + 1, n as int, m0);
                    }
                    return Err(err);
                },
            }
        }
        i += 1;
    }
    Ok(())
}

/// Merges the geometry of every voxel of category `category`: voxel types
/// in ascending order, each type's voxels in list order, each voxel's
/// variants in order; hidden triangles are culled and a variant left with
/// none adds nothing. Fails exactly when the result would not fit 32-bit
/// vertex numbers and index counts.
pub fn merge_category(
    cat: &GeometryCatalog,
    grid: &VoxelGrid,
    blocks: &Vec<i32>,
    category: &String,
    origin: (i32, i32, i32),
) -> (r: Result<MergedMesh, BuildError>)
    requires
        cat.wf(),
        grid.of_chunk(blocks@),
        block_count(blocks@) > 0,
    ensures
        match r {
            Ok(m) => m.view() == naive_view(*cat, blocks@, origin, category@) && mesh_wf(
                m.view(),
            ) && m.category@ == category@,
            Err(e) => e == BuildError::MeshTooLarge && !mesh_fits(
                naive_view(*cat, blocks@, origin, category@),
            ),
        },
{
    let ntypes = cat.entries.len();
    let present = types_present(blocks, ntypes);
    let mut mesh = MergedMesh::new(category.clone());
    let mut t: usize = 0;
    while t < ntypes
        invariant
            t <= ntypes,
            ntypes == cat.entries@.len(),
            cat.wf(),
            grid.of_chunk(blocks@),
            present@.len() == ntypes,
            forall|t: int|
                0 <= t < ntypes ==> (#[trigger] present@[t] <==> exists|i: int|
                    0 <= i < block_count(blocks@) && comp(blocks@, i, 3) == t),
            mesh.view() == fold_types(*cat, blocks@, origin, category@, t as int),
            mesh_wf(mesh.view()),
            mesh.category@ == category@,
        decreases ntypes - t,
    {
        let ghost mt = mesh.view();
        match &cat.entries[t] {
            Some(e) => {
                let same = e.category.eq(category);
                if same {
                    assert(slot_wf(cat.entries@[t as int]));
                    if present[t] {
                        match add_type(cat, grid, blocks, t, e, origin, &mut mesh) {
                            Ok(_) => {},
                            Err(err) => {
                                proof {
                                    lemma_fold_types_grows(*cat, blocks@, origin, category@, t as int + 1, ntypes as int);
                                }
                                return Err(err);
                            },
                        }
                    } else {
                        proof {
                            lemma_fold_blocks_absent(*cat, blocks@, origin, t as int, block_count(blocks@), mt);
                        }
                    }
                }
            },
            None => {},
        }
        t += 1;
    }
    Ok(mesh)
}

/// No voxel type of the catalog occludes any face.
pub open spec fn never_occludes(cat: GeometryCatalog) -> bool {
    forall|t: int| #[trigger] cat.spec_entry(t) matches Some(e) ==> e.occlusion_flags == 0
}

/// The vertex count (or, with `idx`, the index count) of buffers.
pub open spec fn measure(m: MeshView, idx: bool) -> int {
    if idx {
        m.indices.len() as int
    } else {
        m.vertex_count as int
    }
}

/// What a variant adds when nothing is culled: its vertices (or indices),
/// or nothing when it has no triangle.
pub open spec fn variant_weight(g: GeometryVariant, idx: bool) -> int {
    if g.indices@.len() == 0 {
        0
    } else if idx {
        g.indices@.len() as int
    } else {
        g.vertex_count()
    }
}

/// The weights of the first `k` variants.
pub open spec fn variants_total(gs: Seq<GeometryVariant>, k: int, idx: bool) -> int
    decreases k,
{
    if k <= 0 {
        0
    } else {
        variants_total(gs, k - 1, idx) + variant_weight(gs[k - 1], idx)
    }
}

/// The weight of one voxel of type `t`.
pub open spec fn type_total(cat: GeometryCatalog, t: int, idx: bool) -> int {
    match cat.spec_entry(t) {
        Some(e) => variants_total(e.geometries@, e.geometries@.len() as int, idx),
        None => 0,
    }
}

/// The weight of the voxels of type `t` among the first `k`.
pub open spec fn blocks_total(cat: GeometryCatalog, blocks: Seq<i32>, t: int, k: int, idx: bool) -> int
    decreases k,
{
    if k <= 0 {
        0
    } else {
        blocks_total(cat, blocks, t, k - 1, idx) + if comp(blocks, k - 1, 3) == t {
            type_total(cat, t, idx)
        } else {
            0
        }
    }
}

/// The weight of the voxels of the first `k` types of category `c`.
pub open spec fn types_total(cat: GeometryCatalog, blocks: Seq<i32>, c: Seq<char>, k: int, idx: bool) -> int
    decreases k,
{
    if k <= 0 {
        0
    } else {
        types_total(cat, blocks, c, k - 1, idx) + if cat.spec_entry(k - 1) matches Some(e) && e.category@
            == c {
            blocks_total(cat, blocks, k - 1, block_count(blocks), idx)
        } else {
            0
        }
    }
}

proof fn lemma_nothing_hidden(cat: GeometryCatalog, blocks: Seq<i32>, x: int, y: int, z: int, g: GeometryVariant, k: int)
    requires
        never_occludes(cat),
        g.wf(),
        0 <= k <= g.triangle_count(),
    ensures
        kept_indices(cat, blocks, x, y, z, g, k).len() == 3 * k,
    decreases k,
{
    if k > 0 {
        lemma_nothing_hidden(cat, blocks, x, y, z, g, k - 1);
        let v = g.indices@[3 * (k - 1)] as int;
        if let Some(d) = vertex_dir(g, v) {
            let (dx, dy, dz) = dir_delta(d);
            let cell = occupant(blocks, x + dx, y + dy, z + dz);
            if cell > 0 {
                if let Some(e) = cat.spec_entry(cell - 1) {
                    let b = occlusion_bit(dir_opposite(d));
                    assert(e.occlusion_flags == 0);
                    assert(0u32 & (1u32 << b) == 0u32) by (bit_vector);
                }
            }
        }
        assert(!triangle_hidden(cat, blocks, x, y, z, g, k - 1));
    }
}

proof fn lemma_variants_measure(
    cat: GeometryCatalog,
    blocks: Seq<i32>,
    o: (i32, i32, i32),
    i: int,
    gs: Seq<GeometryVariant>,
    k: int,
    m: MeshView,
    idx: bool,
)
    requires
        never_occludes(cat),
        variants_wf(gs),
        0 <= k <= gs.len(),
    ensures
        measure(fold_variants(cat, blocks, o, i, gs, k, m), idx) == measure(m, idx) + variants_total(gs, k, idx),
    decreases k,
{
    if k > 0 {
        lemma_variants_measure(cat, blocks, o, i, gs, k - 1, m, idx);
        let g = gs[k - 1];
        assert(g.wf());
        lemma_nothing_hidden(cat, blocks, comp(blocks, i, 0), comp(blocks, i, 1), comp(blocks, i, 2), g, g.triangle_count());
    }
}

proof fn lemma_blocks_measure(
    cat: GeometryCatalog,
    blocks: Seq<i32>,
    o: (i32, i32, i32),
    t: int,
    k: int,
    m: MeshView,
    idx: bool,
)
    requires
        never_occludes(cat),
        cat.wf(),
    ensures
        measure(fold_blocks(cat, blocks, o, t, k, m), idx) == measure(m, idx) + blocks_total(cat, blocks, t, k, idx),
    decreases k,
{
    if k > 0 {
        lemma_blocks_measure(cat, blocks, o, t, k - 1, m, idx);
        if comp(blocks, k - 1, 3) == t && cat.spec_entry(t) is Some {
            let e = cat.spec_entry(t).unwrap();
            assert(slot_wf(cat.entries@[t]));
            lemma_variants_measure(cat, blocks, o, k - 1, e.geometries@, e.geometries@.len() as int, fold_blocks(cat, blocks, o, t, k - 1, m), idx);
        }
    }
}

proof fn lemma_types_measure(cat: GeometryCatalog, blocks: Seq<i32>, o: (i32, i32, i32), c: Seq<char>, k: int, idx: bool)
    requires
        never_occludes(cat),
        cat.wf(),
    ensures
        measure(fold_types(cat, blocks, o, c, k), idx) == types_total(cat, blocks, c, k, idx),
    decreases k,
{
    if k > 0 {
        lemma_types_measure(cat, blocks, o, c, k - 1, idx);
        if cat.spec_entry(k - 1) matches Some(e) && e.category@ == c {
            lemma_blocks_measure(cat, blocks, o, k - 1, block_count(blocks), fold_types(cat, blocks, o, c, k - 1), idx);
        }
    }
}

proof fn lemma_blocks_total_prefix(cat: GeometryCatalog, first: Seq<i32>, second: Seq<i32>, t: int, k: int, idx: bool)
    requires
        0 <= k <= block_count(first),
        first.len() % 4 == 0,
    ensures
        blocks_total(cat, first + second, t, k, idx) == blocks_total(cat, first, t, k, idx),
    decreases k,
{
    if k > 0 {
        lemma_blocks_total_prefix(cat, first, second, t, k - 1, idx);
        assert((first + second)[4 * (k - 1) + 3] == first[4 * (k - 1) + 3]);
    }
}

proof fn lemma_blocks_total_split(cat: GeometryCatalog, first: Seq<i32>, second: Seq<i32>, t: int, j: int, idx: bool)
    requires
        0 <= j <= block_count(second),
        first.len() % 4 == 0,
    ensures
        blocks_total(cat, first + second, t, block_count(first) + j, idx) == blocks_total(cat, first, t, block_count(first), idx)
            + blocks_total(cat, second, t, j, idx),
    decreases j,
{
    let na = block_count(first);
    if j == 0 {
        lemma_blocks_total_prefix(cat, first, second, t, na, idx);
    } else {
        lemma_blocks_total_split(cat, first, second, t, j - 1, idx);
        assert(4 * (na + j - 1) + 3 == first.len() + 4 * (j - 1) + 3);
        assert((first + second)[4 * (na + j - 1) + 3] == second[4 * (j - 1) + 3]);
    }
}

proof fn lemma_types_total_split(cat: GeometryCatalog, first: Seq<i32>, second: Seq<i32>, c: Seq<char>, k: int, idx: bool)
    requires
        first.len() % 4 == 0,
    ensures
        types_total(cat, first + second, c, k, idx) == types_total(cat, first, c, k, idx) + types_total(
            cat,
            second,
            c,
            k,
            idx,
        ),
    decreases k,
{
    if k > 0 {
        lemma_types_total_split(cat, first, second, c, k - 1, idx);
        assert(block_count(first + second) == block_count(first) + block_count(second));
        lemma_blocks_total_split(cat, first, second, k - 1, block_count(second), idx);
    }
}

/// When no voxel type of the catalog occludes anything, the naive mesh of a
/// category built from two voxel lists together holds as many vertices and
/// as many indices as the two lists' meshes built apart, whatever the
/// origins.
pub proof fn lemma_naive_totals_split(
    cat: GeometryCatalog,
    first: Seq<i32>,
    second: Seq<i32>,
    c: Seq<char>,
    o: (i32, i32, i32),
    o1: (i32, i32, i32),
    o2: (i32, i32, i32),
)
    requires
        cat.wf(),
        never_occludes(cat),
        first.len() % 4 == 0,
    ensures
        naive_view(cat, first + second, o, c).vertex_count == naive_view(cat, first, o1, c).vertex_count
            + naive_view(cat, second, o2, c).vertex_count,
        naive_view(cat, first + second, o, c).indices.len() == naive_view(cat, first, o1, c).indices.len()
            + naive_view(cat, second, o2, c).indices.len(),
{
    let n = cat.entries@.len() as int;
    lemma_types_measure(cat, first + second, o, c, n, false);
    lemma_types_measure(cat, first, o1, c, n, false);
    lemma_types_measure(cat, second, o2, c, n, false);
    lemma_types_measure(cat, first + second, o, c, n, true);
    lemma_types_measure(cat, first, o1, c, n, true);
    lemma_types_measure(cat, second, o2, c, n, true);
    lemma_types_total_split(cat, first, second, c, n, false);
    lemma_types_total_split(cat, first, second, c, n, true);
}

/// Every position component the naive merger writes decodes to within
/// 1/1024 of a voxel of the vertex's place relative to the origin (voxel
/// offset plus the variant's local position), when that place lies less
/// than 32 voxels from the origin.
pub proof fn lemma_placed_position_round_trip(x: int, y: int, z: int, o: (i32, i32, i32), g: GeometryVariant, j: int)
    requires
        0 <= j < 3 * g.vertex_count(),
        -32 * FIX_ONE < rel(x, y, z, o, j % 3) * FIX_ONE + g.positions@[j] < 32 * FIX_ONE,
    ensures
        -POSITION_STEP < spec_decode_position(placed_positions(x, y, z, o, g)[j]) - (rel(x, y, z, o, j % 3) * FIX_ONE
            + g.positions@[j]) < POSITION_STEP,
{
    let p = rel(x, y, z, o, j % 3) * FIX_ONE + g.positions@[j];
    lemma_position_round_trip(p);
}

} // verus!
