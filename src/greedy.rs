//! The greedy mesher for solid voxels: visible faces are gathered per
//! direction, material and layer, and merged into maximal rectangles.
use vstd::prelude::*;
use crate::catalog::{GeometryCatalog, CatalogEntry, default_category, solid_category};
use crate::direction::{FaceDir, dir_at, dir_delta, dir_normal};
use crate::encode::{FIX_ONE, spec_encode_position, encode_position};
use crate::grid::{ChunkBounds, VoxelGrid, block_count, comp, occupant, written, chunk_bounds, grid_fits, padded_volume, lemma_comp_in_bounds, lemma_written_outside, lemma_bounds_range};
use crate::mesh::{MeshView, PartView, MeshPart, MergedMesh, empty_view, append_view, mesh_wf, part_wf, shifted};
use crate::naive::{BuildError, mesh_fits, no_larger};
use crate::rects::{Rect, scan, greedy_rectangles, full_plane, partitions, lemma_full_plane_one_rect, lemma_scan_partition};
use crate::visibility::{occludes, face_visible};

verus! {

/// The material a solid voxel type is drawn with: that of its first
/// variant, 0 when it has none.
pub open spec fn material_of(e: CatalogEntry) -> u32 {
    if e.geometries@.len() > 0 {
        e.geometries@[0].material_index
    } else {
        0
    }
}

/// The face of the voxel at `(x, y, z)` in direction `d` is drawn by the
/// greedy mesher with material `m`: the voxel's type is in the catalog, is
/// solid and has material `m`, and its neighbour across the face does not
/// occlude it.
pub open spec fn solid_face(
    cat: GeometryCatalog,
    blocks: Seq<i32>,
    x: int,
    y: int,
    z: int,
    d: FaceDir,
    m: u32,
) -> bool {
    let c = occupant(blocks, x, y, z);
    &&& c > 0
    &&& cat.spec_entry(c - 1) matches Some(e) && e.category@ == default_category()
        && material_of(e) == m
    &&& !occludes(
        cat,
        occupant(blocks, x + dir_delta(d).0, y + dir_delta(d).1, z + dir_delta(d).2),
        d,
    )
}

/// The plane of the faces in direction `d` within the chunk bounds: the
/// first column and row coordinates, the numbers of columns and rows, and
/// the first and last layer along the normal axis. Faces along ±Y lie in
/// the XZ plane, along ±X in the YZ plane, along ±Z in the XY plane.
pub open spec fn frame(b: ChunkBounds, d: FaceDir) -> (int, int, int, int, int, int) {
    match d {
        FaceDir::PosY | FaceDir::NegY => (
            b.min_x as int,
            b.min_z as int,
            b.max_x - b.min_x + 1,
            b.max_z - b.min_z + 1,
            b.min_y as int,
            b.max_y as int,
        ),
        FaceDir::PosX | FaceDir::NegX => (
            b.min_y as int,
            b.min_z as int,
            b.max_y - b.min_y + 1,
            b.max_z - b.min_z + 1,
            b.min_x as int,
            b.max_x as int,
        ),
        FaceDir::PosZ | FaceDir::NegZ => (
            b.min_x as int,
            b.min_y as int,
            b.max_x - b.min_x + 1,
            b.max_y - b.min_y + 1,
            b.min_z as int,
            b.max_z as int,
        ),
    }
}

/// The voxel at plane position `(u, v)` of layer `layer` for direction `d`.
pub open spec fn plane_point(d: FaceDir, layer: int, u: int, v: int) -> (int, int, int) {
    match d {
        FaceDir::PosY | FaceDir::NegY => (u, layer, v),
        FaceDir::PosX | FaceDir::NegX => (layer, u, v),
        FaceDir::PosZ | FaceDir::NegZ => (u, v, layer),
    }
}

/// Which cells of a layer's plane hold a face drawn with material `m`; the
/// cell of column `i % us` and row `i / us` is at index `i`.
pub open spec fn layer_mask(cat: GeometryCatalog, blocks: Seq<i32>, d: FaceDir, m: u32, layer: int) -> Seq<bool> {
    let f = frame(chunk_bounds(blocks), d);
    Seq::new(
        (f.2 * f.3) as nat,
        |i: int|
            {
                let p = plane_point(d, layer, f.0 + i % f.2, f.1 + i / f.2);
                solid_face(cat, blocks, p.0, p.1, p.2, d, m)
            },
    )
}

/// The rectangles of a layer.
pub open spec fn layer_rects(cat: GeometryCatalog, blocks: Seq<i32>, d: FaceDir, m: u32, layer: int) -> Seq<Rect> {
    let f = frame(chunk_bounds(blocks), d);
    scan(layer_mask(cat, blocks, d, m, layer), f.2, f.3, 0)
}

/// The faces whose width axis, turned onto the height axis, turns
/// counter-clockwise seen from outside (+X, -Y, +Z); the others run their
/// corners the other way round.
pub open spec fn width_first(d: FaceDir) -> bool {
    d == FaceDir::PosX || d == FaceDir::NegY || d == FaceDir::PosZ
}

/// The offset of corner `k` of a quad `w` wide and `h` high from its first
/// corner, along the face's width axis and along its height axis. The
/// corners run counter-clockwise seen from outside.
pub open spec fn corner_offset(d: FaceDir, w: int, h: int, k: int) -> (int, int) {
    if k == 0 {
        (0, 0)
    } else if k == 2 {
        (w, h)
    } else if (k == 1) == width_first(d) {
        (w, 0)
    } else {
        (0, h)
    }
}

/// Corner `k` of a merged quad in direction `d` whose first voxel is
/// `(x, y, z)`, `w` wide along the face's width axis (x for ±Y and ±Z, y for
/// ±X) and `h` high along its height axis (z for ±Y and ±X, y for ±Z); the
/// corners run counter-clockwise seen from outside.
pub open spec fn quad_corner(d: FaceDir, x: int, y: int, z: int, w: int, h: int, k: int) -> (int, int, int) {
    let (a, b) = corner_offset(d, w, h, k);
    match d {
        FaceDir::PosY => (x + a, y + 1, z + b),
        FaceDir::NegY => (x + a, y, z + b),
        FaceDir::PosX => (x + 1, y + a, z + b),
        FaceDir::NegX => (x, y + a, z + b),
        FaceDir::PosZ => (x + a, y + b, z + 1),
        FaceDir::NegZ => (x + a, y + b, z),
    }
}

/// `a - b`.
pub open spec fn sub3(a: (int, int, int), b: (int, int, int)) -> (int, int, int) {
    (a.0 - b.0, a.1 - b.1, a.2 - b.2)
}

/// The cross product `a × b`.
pub open spec fn cross(a: (int, int, int), b: (int, int, int)) -> (int, int, int) {
    (a.1 * b.2 - a.2 * b.1, a.2 * b.0 - a.0 * b.2, a.0 * b.1 - a.1 * b.0)
}

/// Both triangles of a quad, 0-1-2 and 0-2-3, wind counter-clockwise seen
/// from outside: their cross products point along the outward unit step,
/// scaled by the quad's area.
pub proof fn lemma_quad_winding(d: FaceDir, x: int, y: int, z: int, w: int, h: int)
    ensures
        ({
            let c0 = quad_corner(d, x, y, z, w, h, 0);
            let c1 = quad_corner(d, x, y, z, w, h, 1);
            let c2 = quad_corner(d, x, y, z, w, h, 2);
            let c3 = quad_corner(d, x, y, z, w, h, 3);
            let n = dir_delta(d);
            let area = (w * h * n.0, w * h * n.1, w * h * n.2);
            cross(sub3(c1, c0), sub3(c2, c0)) == area && cross(sub3(c2, c0), sub3(c3, c0)) == area
        }),
{
    let c0 = quad_corner(d, x, y, z, w, h, 0);
    let e1 = sub3(quad_corner(d, x, y, z, w, h, 1), c0);
    let e2 = sub3(quad_corner(d, x, y, z, w, h, 2), c0);
    let e3 = sub3(quad_corner(d, x, y, z, w, h, 3), c0);
    assert(h * w == w * h) by (nonlinear_arith);
    let wh = w * h;
    assert(w * h * 0 == 0 && w * h * 1 == wh && w * h * -1 == -wh && h * w == wh && w * h == wh) by (nonlinear_arith)
        requires
            wh == w * h,
    ;
    let n = dir_delta(d);
    let area = (w * h * n.0, w * h * n.1, w * h * n.2);
    match d {
        FaceDir::PosY => {
            assert(e1 == (0int, 0int, h) && e2 == (w, 0int, h) && e3 == (w, 0int, 0int));
            assert(area == (0int, wh, 0int));
            assert(cross(e1, e2) == area && cross(e2, e3) == area);
        },
        FaceDir::NegY => {
            assert(e1 == (w, 0int, 0int) && e2 == (w, 0int, h) && e3 == (0int, 0int, h));
            assert(area == (0int, -wh, 0int));
            assert(cross(e1, e2) == area && cross(e2, e3) == area);
        },
        FaceDir::PosX => {
            assert(e1 == (0int, w, 0int) && e2 == (0int, w, h) && e3 == (0int, 0int, h));
            assert(area == (wh, 0int, 0int));
            assert(cross(e1, e2) == area && cross(e2, e3) == area);
        },
        FaceDir::NegX => {
            assert(e1 == (0int, 0int, h) && e2 == (0int, w, h) && e3 == (0int, w, 0int));
            assert(area == (-wh, 0int, 0int));
            assert(cross(e1, e2) == area && cross(e2, e3) == area);
        },
        FaceDir::PosZ => {
            assert(e1 == (w, 0int, 0int) && e2 == (w, h, 0int) && e3 == (0int, h, 0int));
            assert(area == (0int, 0int, wh));
            assert(cross((w, 0int, 0int), (w, h, 0int)) == (0int, 0int, wh));
            assert(cross((w, h, 0int), (0int, h, 0int)) == (0int, 0int, wh));
        },
        FaceDir::NegZ => {
            assert(e1 == (0int, h, 0int) && e2 == (w, h, 0int) && e3 == (w, 0int, 0int));
            assert(area == (0int, 0int, -wh));
            assert(cross(e1, e2) == area && cross(e2, e3) == area);
        },
    }
}

/// Component `a` of a triple.
pub open spec fn pick(t: (int, int, int), a: int) -> int {
    if a == 0 {
        t.0
    } else if a == 1 {
        t.1
    } else {
        t.2
    }
}

/// UV component `j` of a quad in direction `d`, `w` wide and `h` high:
/// each corner's UV is its offset along the width and height axes,
/// fixed-point, so that textures repeat once per voxel.
pub open spec fn quad_uv(d: FaceDir, w: int, h: int, j: int) -> i64 {
    let (a, b) = corner_offset(d, w, h, j / 2);
    (if j % 2 == 0 {
        a * FIX_ONE
    } else {
        b * FIX_ONE
    }) as i64
}

/// The two triangles of a quad.
pub open spec fn quad_indices() -> Seq<u32> {
    seq![0u32, 1, 2, 0, 2, 3]
}

/// The geometry of rectangle `r` of layer `layer` in direction `d`, drawn
/// with material `m`, relative to origin `o`.
pub open spec fn quad_view(
    b: ChunkBounds,
    o: (i32, i32, i32),
    d: FaceDir,
    m: u32,
    layer: int,
    r: Rect,
) -> PartView {
    let f = frame(b, d);
    let base = plane_point(d, layer, f.0 + r.u, f.1 + r.v);
    let oo = (o.0 as int, o.1 as int, o.2 as int);
    PartView {
        positions: Seq::new(
            12,
            |j: int|
                spec_encode_position(
                    (pick(
                        quad_corner(d, base.0, base.1, base.2, r.width as int, r.height as int, j / 3),
                        j % 3,
                    ) - pick(oo, j % 3)) * FIX_ONE,
                ) as i16,
        ),
        normals: Seq::new(12, |j: int| pick(dir_normal(d), j % 3) as i8),
        uvs: Seq::new(8, |j: int| quad_uv(d, r.width as int, r.height as int, j)),
        indices: quad_indices(),
        vertex_count: 4,
        material_index: m,
    }
}

/// The buffers after the first `k` rectangles of a layer are added.
pub open spec fn fold_rects(
    b: ChunkBounds,
    o: (i32, i32, i32),
    d: FaceDir,
    m: u32,
    layer: int,
    rs: Seq<Rect>,
    k: int,
    acc: MeshView,
) -> MeshView
    decreases k,
{
    if k <= 0 {
        acc
    } else {
        append_view(fold_rects(b, o, d, m, layer, rs, k - 1, acc), quad_view(b, o, d, m, layer, rs[k - 1]))
    }
}

/// The buffers after the first `k` layers (from the lowest) of direction
/// `d` and material `m` are added.
pub open spec fn fold_layers(
    cat: GeometryCatalog,
    blocks: Seq<i32>,
    o: (i32, i32, i32),
    d: FaceDir,
    m: u32,
    k: int,
    acc: MeshView,
) -> MeshView
    decreases k,
{
    if k <= 0 {
        acc
    } else {
        let layer = frame(chunk_bounds(blocks), d).4 + k - 1;
        let rs = layer_rects(cat, blocks, d, m, layer);
        fold_rects(chunk_bounds(blocks), o, d, m, layer, rs, rs.len() as int, fold_layers(cat, blocks, o, d, m, k - 1, acc))
    }
}

/// Number of layers of direction `d`.
pub open spec fn layer_count(b: ChunkBounds, d: FaceDir) -> int {
    frame(b, d).5 - frame(b, d).4 + 1
}

/// The buffers after the first `k` materials of `ms` in direction `d` are
/// added.
pub open spec fn fold_materials(
    cat: GeometryCatalog,
    blocks: Seq<i32>,
    o: (i32, i32, i32),
    d: FaceDir,
    ms: Seq<u32>,
    k: int,
    acc: MeshView,
) -> MeshView
    decreases k,
{
    if k <= 0 {
        acc
    } else {
        fold_layers(
            cat,
            blocks,
            o,
            d,
            ms[k - 1],
            layer_count(chunk_bounds(blocks), d),
            fold_materials(cat, blocks, o, d, ms, k - 1, acc),
        )
    }
}

/// The buffers of the first `k` directions in table order.
pub open spec fn fold_dirs(cat: GeometryCatalog, blocks: Seq<i32>, o: (i32, i32, i32), ms: Seq<u32>, k: int) -> MeshView
    decreases k,
{
    if k <= 0 {
        empty_view()
    } else {
        fold_materials(cat, blocks, o, dir_at(k - 1), ms, ms.len() as int, fold_dirs(cat, blocks, o, ms, k - 1))
    }
}

/// The material of voxel `i` when its type is a solid type of the catalog.
pub open spec fn block_material(cat: GeometryCatalog, blocks: Seq<i32>, i: int) -> Option<u32> {
    match cat.spec_entry(comp(blocks, i, 3)) {
        Some(e) => if e.category@ == default_category() {
            Some(material_of(e))
        } else {
            None
        },
        None => None,
    }
}

/// The materials of the solid voxels among the first `k`, in order of first
/// appearance.
pub open spec fn solid_materials(cat: GeometryCatalog, blocks: Seq<i32>, k: int) -> Seq<u32>
    decreases k,
{
    if k <= 0 {
        Seq::empty()
    } else {
        let prev = solid_materials(cat, blocks, k - 1);
        match block_material(cat, blocks, k - 1) {
            Some(m) => if prev.contains(m) {
                prev
            } else {
                prev.push(m)
            },
            None => prev,
        }
    }
}

/// The greedy mesh of a chunk's solid voxels: directions in table order,
/// then materials in order of first appearance, then layers from the lowest,
/// then each layer's rectangles in scan order.
pub open spec fn greedy_view(cat: GeometryCatalog, blocks: Seq<i32>, o: (i32, i32, i32)) -> MeshView {
    fold_dirs(cat, blocks, o, solid_materials(cat, blocks, block_count(blocks)), 6)
}

/// The four corners of a merged quad in direction `d` whose first voxel is
/// `(x, y, z)`, `w` wide and `h` high, counter-clockwise seen from outside
/// (see `quad_corner`).
pub fn quad_vertices(
    d: FaceDir,
    x: i64,
    y: i64,
    z: i64,
    w: i64,
    h: i64,
) -> (r: ((i64, i64, i64), (i64, i64, i64), (i64, i64, i64), (i64, i64, i64)))
    requires
        -0x1_0000_0000_0000 <= x <= 0x1_0000_0000_0000,
        -0x1_0000_0000_0000 <= y <= 0x1_0000_0000_0000,
        -0x1_0000_0000_0000 <= z <= 0x1_0000_0000_0000,
        0 <= w <= 0x1_0000_0000_0000,
        0 <= h <= 0x1_0000_0000_0000,
    ensures
        (r.0.0 as int, r.0.1 as int, r.0.2 as int) == quad_corner(d, x as int, y as int, z as int, w as int, h as int, 0),
        (r.1.0 as int, r.1.1 as int, r.1.2 as int) == quad_corner(d, x as int, y as int, z as int, w as int, h as int, 1),
        (r.2.0 as int, r.2.1 as int, r.2.2 as int) == quad_corner(d, x as int, y as int, z as int, w as int, h as int, 2),
        (r.3.0 as int, r.3.1 as int, r.3.2 as int) == quad_corner(d, x as int, y as int, z as int, w as int, h as int, 3),
        ({
            let c0 = (r.0.0 as int, r.0.1 as int, r.0.2 as int);
            let c1 = (r.1.0 as int, r.1.1 as int, r.1.2 as int);
            let c2 = (r.2.0 as int, r.2.1 as int, r.2.2 as int);
            let c3 = (r.3.0 as int, r.3.1 as int, r.3.2 as int);
            let n = dir_delta(d);
            let area = (w * h * n.0, w * h * n.1, w * h * n.2);
            cross(sub3(c1, c0), sub3(c2, c0)) == area && cross(sub3(c2, c0), sub3(c3, c0)) == area
        }),
{
    proof {
        lemma_quad_winding(d, x as int, y as int, z as int, w as int, h as int);
    }
    match d {
        FaceDir::PosY => ((x, y + 1, z), (x, y + 1, z + h), (x + w, y + 1, z + h), (x + w, y + 1, z)),
        FaceDir::NegY => ((x, y, z), (x + w, y, z), (x + w, y, z + h), (x, y, z + h)),
        FaceDir::PosX => ((x + 1, y, z), (x + 1, y + w, z), (x + 1, y + w, z + h), (x + 1, y, z + h)),
        FaceDir::NegX => ((x, y, z), (x, y, z + h), (x, y + w, z + h), (x, y + w, z)),
        FaceDir::PosZ => ((x, y, z + 1), (x + w, y, z + 1), (x + w, y + h, z + 1), (x, y + h, z + 1)),
        FaceDir::NegZ => ((x, y, z), (x, y + h, z), (x + w, y + h, z), (x + w, y, z)),
    }
}

/// The plane frame of direction `d` within the grid's chunk bounds: first
/// column, first row, columns, rows, first layer, last layer.
pub fn plane_frame(grid: &VoxelGrid, d: FaceDir) -> (r: (i64, i64, usize, usize, i64, i64))
    requires
        grid.wf(),
    ensures
        (r.0 as int, r.1 as int, r.2 as int, r.3 as int, r.4 as int, r.5 as int) == frame(grid.bounds, d),
{
    let b = &grid.bounds;
    let sx = grid.size_x - 2;
    let sy = grid.size_y - 2;
    let sz = grid.size_z - 2;
    match d {
        FaceDir::PosY | FaceDir::NegY => (b.min_x as i64, b.min_z as i64, sx, sz, b.min_y as i64, b.max_y as i64),
        FaceDir::PosX | FaceDir::NegX => (b.min_y as i64, b.min_z as i64, sy, sz, b.min_x as i64, b.max_x as i64),
        FaceDir::PosZ | FaceDir::NegZ => (b.min_x as i64, b.min_y as i64, sx, sy, b.min_z as i64, b.max_z as i64),
    }
}

/// The voxel at plane position `(u, v)` of a layer.
fn plane_point_exec(d: FaceDir, layer: i64, u: i64, v: i64) -> (r: (i64, i64, i64))
    ensures
        (r.0 as int, r.1 as int, r.2 as int) == plane_point(d, layer as int, u as int, v as int),
{
    match d {
        FaceDir::PosY | FaceDir::NegY => (u, layer, v),
        FaceDir::PosX | FaceDir::NegX => (layer, u, v),
        FaceDir::PosZ | FaceDir::NegZ => (u, v, layer),
    }
}

/// Whether the face of voxel `(x, y, z)` in direction `d` is drawn by the
/// greedy mesher with material `m`.
pub fn is_solid_face(
    cat: &GeometryCatalog,
    grid: &VoxelGrid,
    blocks: &Vec<i32>,
    x: i64,
    y: i64,
    z: i64,
    d: FaceDir,
    m: u32,
    solid: &String,
) -> (r: bool)
    requires
        grid.of_chunk(blocks@),
        grid.bounds.min_x <= x <= grid.bounds.max_x,
        grid.bounds.min_y <= y <= grid.bounds.max_y,
        grid.bounds.min_z <= z <= grid.bounds.max_z,
        solid@ == default_category(),
    ensures
        r == solid_face(*cat, blocks@, x as int, y as int, z as int, d, m),
{
    proof {
        let (dx, dy, dz) = dir_delta(d);
        assert(grid.in_box(x as int, y as int, z as int));
        assert(grid.spec_get(x as int, y as int, z as int) == occupant(blocks@, x as int, y as int, z as int));
        assert(grid.in_box(x + dx, y + dy, z + dz));
        assert(grid.spec_get(x + dx, y + dy, z + dz) == occupant(blocks@, x + dx, y + dy, z + dz));
    }
    let c = grid.get(x, y, z);
    if c == 0 {
        return false;
    }
    match cat.entry(c as i64 - 1) {
        None => false,
        Some(e) => {
            if !e.category.eq(solid) {
                return false;
            }
            let mat = if e.geometries.len() > 0 {
                e.geometries[0].material_index
            } else {
                0
            };
            if mat != m {
                return false;
            }
            face_visible(cat, grid, x, y, z, d)
        },
    }
}

proof fn lemma_frame_fits(grid: VoxelGrid, d: FaceDir)
    requires
        grid.wf(),
        grid.bounds.min_x <= grid.bounds.max_x && grid.bounds.min_y <= grid.bounds.max_y
            && grid.bounds.min_z <= grid.bounds.max_z,
    ensures
        frame(grid.bounds, d).2 * frame(grid.bounds, d).3 <= usize::MAX,
        frame(grid.bounds, d).2 >= 1,
        frame(grid.bounds, d).3 >= 1,
{
    let sx = grid.size_x as int;
    let sy = grid.size_y as int;
    let sz = grid.size_z as int;
    assert((sx - 2) * (sz - 2) <= sx * sy * sz && (sy - 2) * (sz - 2) <= sx * sy * sz && (sx - 2) * (sy
        - 2) <= sx * sy * sz) by (nonlinear_arith)
        requires
            sx >= 3,
            sy >= 3,
            sz >= 3,
    ;
}

/// The occupancy plane of layer `layer` for direction `d` and material `m`.
pub fn build_layer_mask(
    cat: &GeometryCatalog,
    grid: &VoxelGrid,
    blocks: &Vec<i32>,
    d: FaceDir,
    m: u32,
    layer: i64,
    solid: &String,
) -> (r: Vec<bool>)
    requires
        grid.of_chunk(blocks@),
        frame(grid.bounds, d).4 <= layer <= frame(grid.bounds, d).5,
        solid@ == default_category(),
    ensures
        r@ == layer_mask(*cat, blocks@, d, m, layer as int),
{
    let (u0, v0, us, vs, _l0, _l1) = plane_frame(grid, d);
    proof {
        lemma_frame_fits(*grid, d);
    }
    let n = us * vs;
    let mut out: Vec<bool> = Vec::with_capacity(n);
    let mut i: usize = 0;
    while i < n
        invariant
            i <= n,
            n == us * vs,
            us >= 1,
            (u0 as int, v0 as int, us as int, vs as int, _l0 as int, _l1 as int) == frame(grid.bounds, d),
            grid.of_chunk(blocks@),
            _l0 <= layer <= _l1,
            solid@ == default_category(),
            out@.len() == i,
            forall|k: int| 0 <= k < i ==> out@[k] == layer_mask(*cat, blocks@, d, m, layer as int)[k],
        decreases n - i,
    {
        let u = i % us;
        let v = i / us;
        proof {
            assert(v < vs) by (nonlinear_arith)
                requires
                    v == i / us,
                    i < us * vs,
                    us >= 1,
            ;
            vstd::arithmetic::div_mod::lemma_mod_pos_bound(i as int, us as int);
        }
        let (x, y, z) = plane_point_exec(d, layer, u0 + u as i64, v0 + v as i64);
        let f = is_solid_face(cat, grid, blocks, x, y, z, d, m, solid);
        out.push(f);
        i += 1;
    }
    proof {
        assert(out@ =~= layer_mask(*cat, blocks@, d, m, layer as int));
    }
    out
}

/// The geometry of rectangle `r` of layer `layer` in direction `d`.
fn quad_part(
    grid: &VoxelGrid,
    origin: (i32, i32, i32),
    d: FaceDir,
    m: u32,
    layer: i64,
    r: Rect,
) -> (p: MeshPart)
    requires
        grid.wf(),
        frame(grid.bounds, d).4 <= layer <= frame(grid.bounds, d).5,
        r.u + r.width <= frame(grid.bounds, d).2,
        r.v + r.height <= frame(grid.bounds, d).3,
    ensures
        p.view() == quad_view(grid.bounds, origin, d, m, layer as int, r),
        part_wf(p.view()),
{
    let (u0, v0, _us, _vs, _l0, _l1) = plane_frame(grid, d);
    let (x, y, z) = plane_point_exec(d, layer, u0 + r.u as i64, v0 + r.v as i64);
    let w = r.width as i64;
    let h = r.height as i64;
    assert(-0x1_0000_0000 <= x <= 0x1_0000_0000 && -0x1_0000_0000 <= y <= 0x1_0000_0000 && -0x1_0000_0000
        <= z <= 0x1_0000_0000);
    assert(w <= 0x1_0000_0000 && h <= 0x1_0000_0000);
    let (c0, c1, c2, c3) = quad_vertices(d, x, y, z, w, h);
    let o = (origin.0 as i64, origin.1 as i64, origin.2 as i64);
    let corners = [c0, c1, c2, c3];
    let mut positions: Vec<i16> = Vec::new();
    let mut k: usize = 0;
    while k < 4
        invariant
            k <= 4,
            corners@.len() == 4,
            forall|j: int| 0 <= j < 4 ==> (corners@[j].0 as int, corners@[j].1 as int, corners@[j].2 as int)
                == quad_corner(d, x as int, y as int, z as int, w as int, h as int, j),
            -0x1_0000_0000 <= x <= 0x1_0000_0000,
            -0x1_0000_0000 <= y <= 0x1_0000_0000,
            -0x1_0000_0000 <= z <= 0x1_0000_0000,
            0 <= w <= 0x1_0000_0000,
            0 <= h <= 0x1_0000_0000,
            o == (origin.0 as i64, origin.1 as i64, origin.2 as i64),
            positions@.len() == 3 * k,
            forall|j: int|
                0 <= j < 3 * k ==> positions@[j] == spec_encode_position(
                    (pick(quad_corner(d, x as int, y as int, z as int, w as int, h as int, j / 3), j % 3)
                        - pick((origin.0 as int, origin.1 as int, origin.2 as int), j % 3)) * FIX_ONE,
                ) as i16,
        decreases 4 - k,
    {
        let c = corners[k];
        assert((c.0 as int, c.1 as int, c.2 as int) == quad_corner(d, x as int, y as int, z as int, w as int, h as int, k as int));
        assert(-0x4_0000_0000 <= c.0 <= 0x4_0000_0000 && -0x4_0000_0000 <= c.1 <= 0x4_0000_0000
            && -0x4_0000_0000 <= c.2 <= 0x4_0000_0000);
        positions.push(encode_position((c.0 - o.0) * FIX_ONE));
        positions.push(encode_position((c.1 - o.1) * FIX_ONE));
        positions.push(encode_position((c.2 - o.2) * FIX_ONE));
        k += 1;
    }
    let (nx, ny, nz) = d.normal();
    let normals: Vec<i8> = vec![nx, ny, nz, nx, ny, nz, nx, ny, nz, nx, ny, nz];
    let uw = w * FIX_ONE;
    let uh = h * FIX_ONE;
    let width_first = match d {
        FaceDir::PosX | FaceDir::NegY | FaceDir::PosZ => true,
        _ => false,
    };
    let uvs: Vec<i64> = if width_first {
        vec![0, 0, uw, 0, uw, uh, 0, uh]
    } else {
        vec![0, 0, 0, uh, uw, uh, uw, 0]
    };
    let indices: Vec<u32> = vec![0, 1, 2, 0, 2, 3];
    let p = MeshPart { positions, normals, uvs, indices, vertex_count: 4, material_index: m };
    proof {
        let qv = quad_view(grid.bounds, origin, d, m, layer as int, r);
        assert(p.view().positions =~= qv.positions);
        assert(p.view().normals =~= qv.normals);
        assert(p.view().uvs =~= qv.uvs);
        assert(p.view().indices =~= qv.indices);
    }
    p
}

proof fn lemma_fold_rects_grows(
    b: ChunkBounds,
    o: (i32, i32, i32),
    d: FaceDir,
    m: u32,
    layer: int,
    rs: Seq<Rect>,
    j: int,
    k: int,
    acc: MeshView,
)
    requires
        0 <= j <= k,
    ensures
        no_larger(fold_rects(b, o, d, m, layer, rs, j, acc), fold_rects(b, o, d, m, layer, rs, k, acc)),
        no_larger(acc, fold_rects(b, o, d, m, layer, rs, k, acc)),
    decreases k,
{
    if k > 0 {
        lemma_fold_rects_grows(b, o, d, m, layer, rs, if j == k { k - 1 } else { j }, k - 1, acc);
    }
}

proof fn lemma_fold_layers_grows(
    cat: GeometryCatalog,
    blocks: Seq<i32>,
    o: (i32, i32, i32),
    d: FaceDir,
    m: u32,
    j: int,
    k: int,
    acc: MeshView,
)
    requires
        0 <= j <= k,
    ensures
        no_larger(fold_layers(cat, blocks, o, d, m, j, acc), fold_layers(cat, blocks, o, d, m, k, acc)),
        no_larger(acc, fold_layers(cat, blocks, o, d, m, k, acc)),
    decreases k,
{
    if k > 0 {
        lemma_fold_layers_grows(cat, blocks, o, d, m, if j == k { k - 1 } else { j }, k - 1, acc);
        let layer = frame(chunk_bounds(blocks), d).4 + k - 1;
        let rs = layer_rects(cat, blocks, d, m, layer);
        lemma_fold_rects_grows(chunk_bounds(blocks), o, d, m, layer, rs, 0, rs.len() as int, fold_layers(cat, blocks, o, d, m, k - 1, acc));
    }
}

proof fn lemma_fold_materials_grows(
    cat: GeometryCatalog,
    blocks: Seq<i32>,
    o: (i32, i32, i32),
    d: FaceDir,
    ms: Seq<u32>,
    j: int,
    k: int,
    acc: MeshView,
)
    requires
        0 <= j <= k <= ms.len(),
        layer_count(chunk_bounds(blocks), d) >= 0,
    ensures
        no_larger(fold_materials(cat, blocks, o, d, ms, j, acc), fold_materials(cat, blocks, o, d, ms, k, acc)),
        no_larger(acc, fold_materials(cat, blocks, o, d, ms, k, acc)),
    decreases k,
{
    if k > 0 {
        lemma_fold_materials_grows(cat, blocks, o, d, ms, if j == k { k - 1 } else { j }, k - 1, acc);
        lemma_fold_layers_grows(cat, blocks, o, d, ms[k - 1], 0, layer_count(chunk_bounds(blocks), d), fold_materials(cat, blocks, o, d, ms, k - 1, acc));
    }
}

proof fn lemma_fold_dirs_grows(cat: GeometryCatalog, blocks: Seq<i32>, o: (i32, i32, i32), ms: Seq<u32>, j: int, k: int)
    requires
        0 <= j <= k,
        forall|d: FaceDir| layer_count(chunk_bounds(blocks), d) >= 0,
    ensures
        no_larger(fold_dirs(cat, blocks, o, ms, j), fold_dirs(cat, blocks, o, ms, k)),
    decreases k,
{
    if k > 0 && j < k {
        lemma_fold_dirs_grows(cat, blocks, o, ms, j, k - 1);
        lemma_fold_materials_grows(cat, blocks, o, dir_at(k - 1), ms, 0, ms.len() as int, fold_dirs(cat, blocks, o, ms, k - 1));
    }
}

/// Adds the merged quads of one layer to the mesh.
fn emit_layer(
    cat: &GeometryCatalog,
    grid: &VoxelGrid,
    blocks: &Vec<i32>,
    origin: (i32, i32, i32),
    d: FaceDir,
    m: u32,
    layer: i64,
    solid: &String,
    mesh: &mut MergedMesh,
) -> (r: Result<(), BuildError>)
    requires
        grid.of_chunk(blocks@),
        frame(grid.bounds, d).4 <= layer <= frame(grid.bounds, d).5,
        solid@ == default_category(),
        mesh_wf(old(mesh).view()),
    ensures
        final(mesh).category == old(mesh).category,
        r is Ok ==> final(mesh).view() == fold_rects(chunk_bounds(blocks@), origin, d, m, layer as int, layer_rects(*cat, blocks@, d, m, layer as int), layer_rects(*cat, blocks@, d, m, layer as int).len() as int, old(mesh).view())
            && mesh_wf(final(mesh).view()),
        r is Err ==> r == Err::<(), BuildError>(BuildError::MeshTooLarge) && !mesh_fits(
            fold_rects(chunk_bounds(blocks@), origin, d, m, layer as int, layer_rects(*cat, blocks@, d, m, layer as int), layer_rects(*cat, blocks@, d, m, layer as int).len() as int, old(mesh).view()),
        ),
{
    let ghost m0 = mesh.view();
    let (_u0, _v0, us, vs, _l0, _l1) = plane_frame(grid, d);
    let mask = build_layer_mask(cat, grid, blocks, d, m, layer, solid);
    let rects = greedy_rectangles(mask, us, vs);
    let ghost rs = rects@;
    assert(rs == layer_rects(*cat, blocks@, d, m, layer as int));
    let mut k: usize = 0;
    while k < rects.len()
        invariant
            k <= rs.len(),
            rs == rects@,
            rs == layer_rects(*cat, blocks@, d, m, layer as int),
            grid.of_chunk(blocks@),
            (_u0 as int, _v0 as int, us as int, vs as int, _l0 as int, _l1 as int) == frame(grid.bounds, d),
            _l0 <= layer <= _l1,
            forall|q: int|
                0 <= q < rs.len() ==> (#[trigger] rs[q]).u + rs[q].width <= us && rs[q].v + rs[q].height
                    <= vs && rs[q].width >= 1 && rs[q].height >= 1,
            mesh.view() == fold_rects(chunk_bounds(blocks@), origin, d, m, layer as int, rs, k as int, m0),
            m0 == old(mesh).view(),
            mesh_wf(mesh.view()),
            mesh.category == old(mesh).category,
        decreases rs.len() - k,
    {
        let p = quad_part(grid, origin, d, m, layer, rects[k]);
        if !mesh.fits_after(4, 6) {
            proof {
                lemma_fold_rects_grows(chunk_bounds(blocks@), origin, d, m, layer as int, rs, k + 1, rs.len() as int, m0);
                assert(quad_indices().len() == 6);
                assert(fold_rects(chunk_bounds(blocks@), origin, d, m, layer as int, rs, k + 1, m0) == append_view(
                    mesh.view(),
                    p.view(),
                ));
            }
            return Err(BuildError::MeshTooLarge);
        }
        mesh.append(p);
        k += 1;
    }
    Ok(())
}

/// Adds every layer of direction `d` and material `m`, from the lowest.
fn emit_material(
    cat: &GeometryCatalog,
    grid: &VoxelGrid,
    blocks: &Vec<i32>,
    origin: (i32, i32, i32),
    d: FaceDir,
    m: u32,
    solid: &String,
    mesh: &mut MergedMesh,
) -> (r: Result<(), BuildError>)
    requires
        grid.of_chunk(blocks@),
        solid@ == default_category(),
        mesh_wf(old(mesh).view()),
    ensures
        final(mesh).category == old(mesh).category,
        r is Ok ==> final(mesh).view() == fold_layers(*cat, blocks@, origin, d, m, layer_count(chunk_bounds(blocks@), d), old(mesh).view())
            && mesh_wf(final(mesh).view()),
        r is Err ==> r == Err::<(), BuildError>(BuildError::MeshTooLarge) && !mesh_fits(
            fold_layers(*cat, blocks@, origin, d, m, layer_count(chunk_bounds(blocks@), d), old(mesh).view()),
        ),
{
    let ghost m0 = mesh.view();
    let (_u0, _v0, _us, _vs, l0, l1) = plane_frame(grid, d);
    let mut layer: i64 = l0;
    while layer <= l1
        invariant
            grid.of_chunk(blocks@),
            solid@ == default_category(),
            (_u0 as int, _v0 as int, _us as int, _vs as int, l0 as int, l1 as int) == frame(grid.bounds, d),
            l0 <= layer <= l1 + 1,
            l1 <= i32::MAX,
            mesh.view() == fold_layers(*cat, blocks@, origin, d, m, layer - l0, m0),
            m0 == old(mesh).view(),
            mesh_wf(mesh.view()),
            mesh.category == old(mesh).category,
        decreases l1 + 1 - layer,
    {
        match emit_layer(cat, grid, blocks, origin, d, m, layer, solid, mesh) {
            Ok(_) => {},
            Err(e) => {
                proof {
                    lemma_fold_layers_grows(*cat, blocks@, origin, d, m, layer - l0 + 1, layer_count(chunk_bounds(blocks@), d), m0);
                }
                return Err(e);
            },
        }
        layer += 1;
    }
    Ok(())
}

/// Adds every material of `ms` in direction `d`, in order.
fn emit_direction(
    cat: &GeometryCatalog,
    grid: &VoxelGrid,
    blocks: &Vec<i32>,
    origin: (i32, i32, i32),
    d: FaceDir,
    ms: &Vec<u32>,
    solid: &String,
    mesh: &mut MergedMesh,
) -> (r: Result<(), BuildError>)
    requires
        grid.of_chunk(blocks@),
        solid@ == default_category(),
        mesh_wf(old(mesh).view()),
    ensures
        final(mesh).category == old(mesh).category,
        r is Ok ==> final(mesh).view() == fold_materials(*cat, blocks@, origin, d, ms@, ms@.len() as int, old(mesh).view())
            && mesh_wf(final(mesh).view()),
        r is Err ==> r == Err::<(), BuildError>(BuildError::MeshTooLarge) && !mesh_fits(
            fold_materials(*cat, blocks@, origin, d, ms@, ms@.len() as int, old(mesh).view()),
        ),
{
    let ghost m0 = mesh.view();
    let mut k: usize = 0;
    while k < ms.len()
        invariant
            k <= ms@.len(),
            grid.of_chunk(blocks@),
            solid@ == default_category(),
            mesh.view() == fold_materials(*cat, blocks@, origin, d, ms@, k as int, m0),
            m0 == old(mesh).view(),
            mesh_wf(mesh.view()),
            mesh.category == old(mesh).category,
        decreases ms@.len() - k,
    {
        match emit_material(cat, grid, blocks, origin, d, ms[k], solid, mesh) {
            Ok(_) => {},
            Err(e) => {
                proof {
                    lemma_fold_materials_grows(*cat, blocks@, origin, d, ms@, k + 1, ms@.len() as int, m0);
                }
                return Err(e);
            },
        }
        k += 1;
    }
    Ok(())
}

/// Whether `m` is in the list.
fn contains_material(ms: &Vec<u32>, m: u32) -> (r: bool)
    ensures
        r == ms@.contains(m),
{
    let mut k: usize = 0;
    while k < ms.len()
        invariant
            k <= ms@.len(),
            forall|j: int| 0 <= j < k ==> ms@[j] != m,
        decreases ms@.len() - k,
    {
        if ms[k] == m {
            assert(ms@[k as int] == m);
            return true;
        }
        k += 1;
    }
    false
}

/// The materials of the chunk's solid voxels, in order of first appearance.
pub fn collect_solid_materials(cat: &GeometryCatalog, blocks: &Vec<i32>, solid: &String) -> (r: Vec<u32>)
    requires
        solid@ == default_category(),
    ensures
        r@ == solid_materials(*cat, blocks@, block_count(blocks@)),
{
    let n = blocks.len() / 4;
    assert(4 * n <= blocks@.len());
    let mut out: Vec<u32> = Vec::new();
    let mut i: usize = 0;
    while i < n
        invariant
            i <= n,
            n == block_count(blocks@),
            4 * n <= blocks@.len(),
            4 * n <= usize::MAX,
            solid@ == default_category(),
            out@ == solid_materials(*cat, blocks@, i as int),
        decreases n - i,
    {
        let ty = blocks[4 * i + 3];
        match cat.entry(ty as i64) {
            Some(e) => {
                if e.category.eq(solid) {
                    let mat = if e.geometries.len() > 0 {
                        e.geometries[0].material_index
                    } else {
                        0
                    };
                    if !contains_material(&out, mat) {
                        out.push(mat);
                    }
                }
            },
            None => {},
        }
        i += 1;
    }
    out
}

/// Meshes the chunk's solid voxels greedily: for each direction in table
/// order, each material in order of first appearance and each layer from
/// the lowest, the layer's visible faces of that material are merged into
/// rectangles, each drawn as one quad. Fails exactly when the result would
/// not fit 32-bit vertex numbers and index counts.
pub fn build_solid(
    cat: &GeometryCatalog,
    grid: &VoxelGrid,
    blocks: &Vec<i32>,
    origin: (i32, i32, i32),
) -> (r: Result<MergedMesh, BuildError>)
    requires
        grid.of_chunk(blocks@),
    ensures
        match r {
            Ok(m) => m.view() == greedy_view(*cat, blocks@, origin) && mesh_wf(m.view())
                && m.category@ == default_category(),
            Err(e) => e == BuildError::MeshTooLarge && !mesh_fits(greedy_view(*cat, blocks@, origin)),
        },
{
    let solid = String::from_str(solid_category());
    let ms = collect_solid_materials(cat, blocks, &solid);
    let mut mesh = MergedMesh::new(String::from_str(solid_category()));
    let mut k: usize = 0;
    while k < 6
        invariant
            k <= 6,
            grid.of_chunk(blocks@),
            solid@ == default_category(),
            ms@ == solid_materials(*cat, blocks@, block_count(blocks@)),
            mesh.view() == fold_dirs(*cat, blocks@, origin, ms@, k as int),
            mesh_wf(mesh.view()),
            mesh.category@ == default_category(),
        decreases 6 - k,
    {
        let d = FaceDir::from_index(k);
        match emit_direction(cat, grid, blocks, origin, d, &ms, &solid, &mut mesh) {
            Ok(_) => {},
            Err(e) => {
                proof {
                    lemma_fold_dirs_grows(*cat, blocks@, origin, ms@, k + 1, 6);
                }
                return Err(e);
            },
        }
        k += 1;
    }
    Ok(mesh)
}

/// The top faces of a flat slab merge into one quad: when every column of
/// the chunk's bounds holds, in the chunk's single layer, a voxel of one
/// solid type of material `m`, the upward layer yields exactly one
/// rectangle, as long and as wide as the slab.
pub proof fn lemma_slab_top_one_quad(cat: GeometryCatalog, blocks: Seq<i32>, t: int, m: u32)
    requires
        block_count(blocks) > 0,
        grid_fits(blocks),
        chunk_bounds(blocks).min_y == chunk_bounds(blocks).max_y,
        cat.spec_entry(t) matches Some(e) && e.category@ == default_category() && material_of(e) == m,
        t >= 0,
        forall|x: int, z: int|
            chunk_bounds(blocks).min_x <= x <= chunk_bounds(blocks).max_x && chunk_bounds(blocks).min_z
                <= z <= chunk_bounds(blocks).max_z ==> #[trigger] occupant(
                blocks,
                x,
                chunk_bounds(blocks).min_y as int,
                z,
            ) == t + 1,
    ensures
        ({
            let b = chunk_bounds(blocks);
            layer_rects(cat, blocks, FaceDir::PosY, m, b.min_y as int) == Seq::empty().push(
                Rect {
                    u: 0,
                    v: 0,
                    width: (b.max_x - b.min_x + 1) as usize,
                    height: (b.max_z - b.min_z + 1) as usize,
                },
            )
        }),
{
    let b = chunk_bounds(blocks);
    let n = block_count(blocks);
    let y = b.min_y as int;
    let us = b.max_x - b.min_x + 1;
    let vs = b.max_z - b.min_z + 1;
    lemma_comp_in_bounds(blocks, n, 0, 0);
    lemma_comp_in_bounds(blocks, n, 0, 1);
    lemma_comp_in_bounds(blocks, n, 0, 2);
    lemma_bounds_range(blocks, n, 0);
    lemma_bounds_range(blocks, n, 1);
    lemma_bounds_range(blocks, n, 2);
    let dy = b.max_y - b.min_y + 3;
    assert(us + 2 <= padded_volume(blocks) && vs + 2 <= padded_volume(blocks)) by {
        assert(us + 2 <= (us + 2) * dy * (vs + 2) && vs + 2 <= (us + 2) * dy * (vs + 2)) by (nonlinear_arith)
            requires
                us >= 1,
                vs >= 1,
                dy >= 1,
        ;
    }
    let mask = layer_mask(cat, blocks, FaceDir::PosY, m, y);
    assert forall|i: int| 0 <= i < mask.len() implies mask[i] by {
        vstd::arithmetic::div_mod::lemma_fundamental_div_mod(i, us);
        vstd::arithmetic::div_mod::lemma_mod_pos_bound(i, us);
        let q = i / us;
        let r = i % us;
        assert(0 <= q < vs) by (nonlinear_arith)
            requires
                i == us * q + r,
                0 <= r < us,
                0 <= i < us * vs,
        ;
        let x = b.min_x + r;
        let z = b.min_z + q;
        assert(occupant(blocks, x, y, z) == t + 1);
        lemma_written_outside(blocks, n, x, y + 1, z);
    }
    assert(mask =~= full_plane(us, vs));
    lemma_full_plane_one_rect(us, vs);
}

/// The quads of a layer cover exactly the layer's faces drawn with
/// material `m`, each face once: every rectangle of `layer_rects` covers
/// only cells of `layer_mask` that hold such a face, no two rectangles share
/// a cell, and every such cell lies in one of them.
pub proof fn lemma_layer_quads_cover_faces(cat: GeometryCatalog, blocks: Seq<i32>, d: FaceDir, m: u32, layer: int)
    requires
        block_count(blocks) > 0,
        grid_fits(blocks),
    ensures
        partitions(
            layer_rects(cat, blocks, d, m, layer),
            layer_mask(cat, blocks, d, m, layer),
            frame(chunk_bounds(blocks), d).2,
            frame(chunk_bounds(blocks), d).3,
        ),
{
    let b = chunk_bounds(blocks);
    let n = block_count(blocks);
    lemma_comp_in_bounds(blocks, n, 0, 0);
    lemma_comp_in_bounds(blocks, n, 0, 1);
    lemma_comp_in_bounds(blocks, n, 0, 2);
    lemma_bounds_range(blocks, n, 0);
    lemma_bounds_range(blocks, n, 1);
    lemma_bounds_range(blocks, n, 2);
    let sx = b.max_x - b.min_x + 1;
    let sy = b.max_y - b.min_y + 1;
    let sz = b.max_z - b.min_z + 1;
    assert(sx + 2 <= padded_volume(blocks) && sy + 2 <= padded_volume(blocks) && sz + 2 <= padded_volume(blocks)) by {
        assert(sx + 2 <= (sx + 2) * (sy + 2) * (sz + 2) && sy + 2 <= (sx + 2) * (sy + 2) * (sz + 2) && sz + 2 <= (sx
            + 2) * (sy + 2) * (sz + 2)) by (nonlinear_arith)
            requires
                sx >= 1,
                sy >= 1,
                sz >= 1,
        ;
    }
    let f = frame(b, d);
    lemma_scan_partition(layer_mask(cat, blocks, d, m, layer), f.2, f.3);
}

/// A whole-voxel position component less than 32 voxels from the origin
/// is quantized exactly: `1024` times its offset, so decoding it gives the
/// offset back.
pub proof fn lemma_quad_position_exact(c: int, o: int)
    requires
        -32 < c - o < 32,
    ensures
        spec_encode_position((c - o) * FIX_ONE) == 1024 * (c - o),
{
    let k = c - o;
    if k >= 0 {
        let n = 1024 * k;
        assert(2 * (k * 65536) + 64 == 128 * n + 64) by (nonlinear_arith)
            requires
                n == 1024 * k,
        ;
        assert((128 * n + 64) / 128 == n) by (nonlinear_arith)
            requires
                n >= 0,
        ;
    } else {
        let n = -1024 * k;
        assert(-2 * (k * 65536) + 64 == 128 * n + 64) by (nonlinear_arith)
            requires
                n == -1024 * k,
        ;
        assert((128 * n + 64) / 128 == n) by (nonlinear_arith)
            requires
                n >= 0,
        ;
    }
}

/// The voxel list holding one voxel of type `t` at `(x, y, z)`.
pub open spec fn one_voxel(x: i32, y: i32, z: i32, t: i32) -> Seq<i32> {
    seq![x, y, z, t]
}

proof fn lemma_one_voxel_layer(cat: GeometryCatalog, x: i32, y: i32, z: i32, t: i32, d: FaceDir, m: u32)
    requires
        t >= 0,
        cat.spec_entry(t as int) matches Some(e) && e.category@ == default_category() && material_of(e) == m,
    ensures
        ({
            let blocks = one_voxel(x, y, z, t);
            let f = frame(chunk_bounds(blocks), d);
            &&& f.2 == 1 && f.3 == 1 && f.4 == f.5
            &&& layer_rects(cat, blocks, d, m, f.4) == Seq::empty().push(Rect { u: 0, v: 0, width: 1, height: 1 })
        }),
{
    let blocks = one_voxel(x, y, z, t);
    assert(block_count(blocks) == 1);
    assert(comp(blocks, 0, 0) == x && comp(blocks, 0, 1) == y && comp(blocks, 0, 2) == z && comp(blocks, 0, 3) == t);
    let b = chunk_bounds(blocks);
    assert(b.min_x == x && b.max_x == x && b.min_y == y && b.max_y == y && b.min_z == z && b.max_z == z);
    let f = frame(b, d);
    let mask = layer_mask(cat, blocks, d, m, f.4);
    assert(f.2 == 1 && f.3 == 1 && f.4 == f.5);
    assert(mask.len() == 1);
    assert(0int % 1 == 0 && 0int / 1 == 0);
    let p = plane_point(d, f.4, f.0 + 0int % f.2, f.1 + 0int / f.2);
    assert(p == (x as int, y as int, z as int));
    assert(mask[0] == solid_face(cat, blocks, x as int, y as int, z as int, d, m));
    assert(occupant(blocks, x as int, y as int, z as int) == t + 1);
    let n = dir_delta(d);
    assert(n.0 != 0 || n.1 != 0 || n.2 != 0);
    assert(written(blocks, 0, x + n.0, y + n.1, z + n.2) == 0);
    assert(occupant(blocks, x + n.0, y + n.1, z + n.2) == 0);
    assert(mask[0]);
    assert(mask =~= full_plane(1, 1));
    lemma_full_plane_one_rect(1, 1);
}

proof fn lemma_one_voxel_direction(
    cat: GeometryCatalog,
    x: i32,
    y: i32,
    z: i32,
    t: i32,
    o: (i32, i32, i32),
    d: FaceDir,
    m: u32,
    acc: MeshView,
)
    requires
        t >= 0,
        cat.spec_entry(t as int) matches Some(e) && e.category@ == default_category() && material_of(e) == m,
    ensures
        fold_materials(cat, one_voxel(x, y, z, t), o, d, seq![m], 1, acc).vertex_count == acc.vertex_count + 4,
        fold_materials(cat, one_voxel(x, y, z, t), o, d, seq![m], 1, acc).indices.len() == acc.indices.len() + 6,
{
    let blocks = one_voxel(x, y, z, t);
    lemma_one_voxel_layer(cat, x, y, z, t, d, m);
    let ms = seq![m];
    assert(ms[0] == m);
    let f = frame(chunk_bounds(blocks), d);
    assert(layer_count(chunk_bounds(blocks), d) == 1);
    let rs = layer_rects(cat, blocks, d, m, f.4);
    assert(fold_materials(cat, blocks, o, d, ms, 0, acc) == acc);
    assert(fold_layers(cat, blocks, o, d, m, 0, acc) == acc);
    assert(fold_rects(chunk_bounds(blocks), o, d, m, f.4, rs, 0, acc) == acc);
    assert(quad_indices().len() == 6);
    let q = quad_view(chunk_bounds(blocks), o, d, m, f.4, rs[0]);
    assert(shifted(q.indices, acc.vertex_count).len() == 6);
}

proof fn lemma_one_voxel_dirs(cat: GeometryCatalog, x: i32, y: i32, z: i32, t: i32, o: (i32, i32, i32), m: u32, k: int)
    requires
        t >= 0,
        cat.spec_entry(t as int) matches Some(e) && e.category@ == default_category() && material_of(e) == m,
        0 <= k <= 6,
    ensures
        fold_dirs(cat, one_voxel(x, y, z, t), o, seq![m], k).vertex_count == 4 * k,
        fold_dirs(cat, one_voxel(x, y, z, t), o, seq![m], k).indices.len() == 6 * k,
    decreases k,
{
    if k > 0 {
        lemma_one_voxel_dirs(cat, x, y, z, t, o, m, k - 1);
        assert(seq![m].len() == 1);
        lemma_one_voxel_direction(cat, x, y, z, t, o, dir_at(k - 1), m, fold_dirs(cat, one_voxel(x, y, z, t), o, seq![m], k - 1));
    }
}

/// The greedy mesh of a chunk holding a single solid voxel has six quads,
/// one per direction: 24 vertices and 36 indices.
pub proof fn lemma_single_voxel_six_quads(cat: GeometryCatalog, x: i32, y: i32, z: i32, t: i32, o: (i32, i32, i32))
    requires
        t >= 0,
        cat.spec_entry(t as int) matches Some(e) && e.category@ == default_category(),
    ensures
        greedy_view(cat, one_voxel(x, y, z, t), o).vertex_count == 24,
        greedy_view(cat, one_voxel(x, y, z, t), o).indices.len() == 36,
{
    let blocks = one_voxel(x, y, z, t);
    let e = cat.spec_entry(t as int).unwrap();
    let m = material_of(e);
    assert(block_count(blocks) == 1);
    assert(comp(blocks, 0, 3) == t);
    assert(block_material(cat, blocks, 0) == Some(m));
    assert(solid_materials(cat, blocks, 0) == Seq::<u32>::empty());
    assert(!Seq::<u32>::empty().contains(m));
    assert(solid_materials(cat, blocks, 1) =~= seq![m]);
    lemma_one_voxel_dirs(cat, x, y, z, t, o, m, 6);
}

proof fn lemma_one_type_materials(cat: GeometryCatalog, blocks: Seq<i32>, t: int, m: u32, k: int)
    requires
        1 <= k <= block_count(blocks),
        forall|i: int| 0 <= i < block_count(blocks) ==> #[trigger] comp(blocks, i, 3) == t,
        cat.spec_entry(t) matches Some(e) && e.category@ == default_category() && material_of(e) == m,
    ensures
        solid_materials(cat, blocks, k) == seq![m],
    decreases k,
{
    assert(comp(blocks, k - 1, 3) == t);
    assert(block_material(cat, blocks, k - 1) == Some(m));
    if k > 1 {
        lemma_one_type_materials(cat, blocks, t, m, k - 1);
        assert(seq![m].contains(m)) by {
            assert(seq![m][0] == m);
        }
    } else {
        assert(solid_materials(cat, blocks, 0) == Seq::<u32>::empty());
        assert(!Seq::<u32>::empty().contains(m));
        assert(Seq::<u32>::empty().push(m) =~= seq![m]);
    }
}

/// In the greedy mesh of a flat slab of one solid type, the upward pass
/// adds exactly one quad, as long and as wide as the slab: the buffers after
/// the upward direction are those before it with that one quad appended.
pub proof fn lemma_slab_mesh_one_top_quad(cat: GeometryCatalog, blocks: Seq<i32>, t: int, o: (i32, i32, i32))
    requires
        block_count(blocks) > 0,
        grid_fits(blocks),
        chunk_bounds(blocks).min_y == chunk_bounds(blocks).max_y,
        t >= 0,
        cat.spec_entry(t) matches Some(e) && e.category@ == default_category(),
        forall|i: int| 0 <= i < block_count(blocks) ==> #[trigger] comp(blocks, i, 3) == t,
        forall|x: int, z: int|
            chunk_bounds(blocks).min_x <= x <= chunk_bounds(blocks).max_x && chunk_bounds(blocks).min_z
                <= z <= chunk_bounds(blocks).max_z ==> #[trigger] occupant(
                blocks,
                x,
                chunk_bounds(blocks).min_y as int,
                z,
            ) == t + 1,
    ensures
        ({
            let b = chunk_bounds(blocks);
            let m = material_of(cat.spec_entry(t).unwrap());
            let ms = solid_materials(cat, blocks, block_count(blocks));
            let top = Rect {
                u: 0,
                v: 0,
                width: (b.max_x - b.min_x + 1) as usize,
                height: (b.max_z - b.min_z + 1) as usize,
            };
            &&& ms == seq![m]
            &&& fold_dirs(cat, blocks, o, ms, 3) == append_view(
                fold_dirs(cat, blocks, o, ms, 2),
                quad_view(b, o, FaceDir::PosY, m, b.min_y as int, top),
            )
        }),
{
    let b = chunk_bounds(blocks);
    let e = cat.spec_entry(t).unwrap();
    let m = material_of(e);
    lemma_one_type_materials(cat, blocks, t, m, block_count(blocks));
    lemma_slab_top_one_quad(cat, blocks, t, m);
    let ms = seq![m];
    assert(ms[0] == m && ms.len() == 1);
    let d = dir_at(2);
    assert(d == FaceDir::PosY);
    assert(layer_count(b, d) == 1);
    let acc = fold_dirs(cat, blocks, o, ms, 2);
    assert(fold_materials(cat, blocks, o, d, ms, 0, acc) == acc);
    assert(fold_layers(cat, blocks, o, d, m, 0, acc) == acc);
    let rs = layer_rects(cat, blocks, d, m, b.min_y as int);
    assert(frame(b, d).4 == b.min_y);
    assert(fold_rects(b, o, d, m, b.min_y as int, rs, 0, acc) == acc);
}

/// Every position component of a merged quad whose corners lie less than
/// 32 voxels from the origin is exactly 1024 times the corner's offset from
/// the origin, so decoding it gives the corner back.
pub proof fn lemma_quad_positions_exact(b: ChunkBounds, o: (i32, i32, i32), d: FaceDir, m: u32, layer: int, r: Rect)
    requires
        ({
            let f = frame(b, d);
            let base = plane_point(d, layer, f.0 + r.u, f.1 + r.v);
            forall|k: int, a: int|
                0 <= k < 4 && 0 <= a < 3 ==> -32 < #[trigger] pick(
                    quad_corner(d, base.0, base.1, base.2, r.width as int, r.height as int, k),
                    a,
                ) - pick((o.0 as int, o.1 as int, o.2 as int), a) < 32
        }),
    ensures
        ({
            let f = frame(b, d);
            let base = plane_point(d, layer, f.0 + r.u, f.1 + r.v);
            let q = quad_view(b, o, d, m, layer, r);
            forall|j: int|
                0 <= j < 12 ==> (#[trigger] q.positions[j]) as int == 1024 * (pick(
                    quad_corner(d, base.0, base.1, base.2, r.width as int, r.height as int, j / 3),
                    j % 3,
                ) - pick((o.0 as int, o.1 as int, o.2 as int), j % 3))
        }),
{
    let f = frame(b, d);
    let base = plane_point(d, layer, f.0 + r.u, f.1 + r.v);
    let oo = (o.0 as int, o.1 as int, o.2 as int);
    let q = quad_view(b, o, d, m, layer, r);
    assert forall|j: int| 0 <= j < 12 implies (#[trigger] q.positions[j]) as int == 1024 * (pick(
        quad_corner(d, base.0, base.1, base.2, r.width as int, r.height as int, j / 3),
        j % 3,
    ) - pick(oo, j % 3)) by {
        let c = pick(quad_corner(d, base.0, base.1, base.2, r.width as int, r.height as int, j / 3), j % 3);
        assert(-32 < c - pick(oo, j % 3) < 32);
        lemma_quad_position_exact(c, pick(oo, j % 3));
    }
}

} // verus!
