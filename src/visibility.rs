//! Face visibility: whether a face or a triangle is hidden by an occluding
//! neighbour.
use vstd::prelude::*;
use crate::catalog::{GeometryCatalog, GeometryVariant};
use crate::direction::{FaceDir, dir_delta, dir_opposite, dir_of_delta, occlusion_bit};
use crate::encode::{FIX_ONE, spec_round_fix, round_fix};
use crate::grid::{VoxelGrid, occupant};

verus! {

/// How far (in fixed-point units, 0.01 of a voxel) a vertex may lie from a
/// boundary plane and still count as on it.
pub const FLUSH_TOLERANCE: i64 = 655;

/// A neighbour cell holding `cell` occludes the face in direction `d`: it
/// is occupied by a type of the catalog whose facing side (the opposite
/// direction) has its occlusion bit set.
pub open spec fn occludes(cat: GeometryCatalog, cell: int, d: FaceDir) -> bool {
    cell > 0 && match cat.spec_entry(cell - 1) {
        Some(e) => e.occlusion_flags & (1u32 << occlusion_bit(dir_opposite(d))) != 0u32,
        None => false,
    }
}

/// The axis (0 for x, 1 for y, 2 for z) of a direction.
pub open spec fn dir_axis(d: FaceDir) -> int {
    match d {
        FaceDir::PosX | FaceDir::NegX => 0,
        FaceDir::PosY | FaceDir::NegY => 1,
        FaceDir::PosZ | FaceDir::NegZ => 2,
    }
}

/// Whether a direction points along its axis rather than against it.
pub open spec fn dir_positive(d: FaceDir) -> bool {
    d == FaceDir::PosX || d == FaceDir::PosY || d == FaceDir::PosZ
}

/// `|a - b|` is within the flush tolerance.
pub open spec fn near(a: int, b: int) -> bool {
    -FLUSH_TOLERANCE <= a - b <= FLUSH_TOLERANCE
}

/// A vertex component `p` (fixed-point) along the axis of `d` lies on the
/// voxel's boundary plane facing `d` (1.0 facing up the axis, 0.0 facing
/// down it) or on the half-height plane 0.5.
pub open spec fn flush(p: int, d: FaceDir) -> bool {
    if dir_positive(d) {
        near(p, FIX_ONE as int) || near(p, FIX_ONE / 2)
    } else {
        near(p, 0) || near(p, FIX_ONE / 2)
    }
}

/// The axis direction of vertex `v`'s normal rounded to integers, when the
/// variant gives that normal and it rounds to a unit axis vector.
pub open spec fn vertex_dir(g: GeometryVariant, v: int) -> Option<FaceDir> {
    if g.normals@.len() > 3 * v + 2 {
        dir_of_delta(
            spec_round_fix(g.normals@[3 * v] as int),
            spec_round_fix(g.normals@[3 * v + 1] as int),
            spec_round_fix(g.normals@[3 * v + 2] as int),
        )
    } else {
        None
    }
}

/// Triangle `t` of variant `g`, placed at voxel `(x, y, z)` of the grid, is
/// hidden: its first vertex's normal points along an axis, that vertex lies
/// flush with the boundary the normal faces, and the neighbour across it
/// occludes that face.
pub open spec fn triangle_hidden(
    cat: GeometryCatalog,
    blocks: Seq<i32>,
    x: int,
    y: int,
    z: int,
    g: GeometryVariant,
    t: int,
) -> bool {
    let v = g.indices@[3 * t] as int;
    match vertex_dir(g, v) {
        None => false,
        Some(d) => {
            let (dx, dy, dz) = dir_delta(d);
            flush(g.positions@[3 * v + dir_axis(d)] as int, d) && occludes(
                cat,
                occupant(blocks, x + dx, y + dy, z + dz),
                d,
            )
        },
    }
}

/// Whether the cell value `cell` of a neighbour occludes the face in
/// direction `d`.
pub fn neighbor_occludes(cat: &GeometryCatalog, cell: u32, d: FaceDir) -> (r: bool)
    ensures
        r == occludes(*cat, cell as int, d),
{
    if cell == 0 {
        return false;
    }
    match cat.entry(cell as i64 - 1) {
        Some(e) => {
            let bit = d.opposite_occlusion_index();
            e.occlusion_flags & (1u32 << bit) != 0
        },
        None => false,
    }
}

/// Whether the face of voxel `(x, y, z)` in direction `d` is seen: the
/// neighbour across it does not occlude it.
pub fn face_visible(cat: &GeometryCatalog, grid: &VoxelGrid, x: i64, y: i64, z: i64, d: FaceDir) -> (r: bool)
    requires
        grid.wf(),
        grid.bounds.min_x <= x <= grid.bounds.max_x,
        grid.bounds.min_y <= y <= grid.bounds.max_y,
        grid.bounds.min_z <= z <= grid.bounds.max_z,
    ensures
        r == !occludes(
            *cat,
            grid.spec_get(x + dir_delta(d).0, y + dir_delta(d).1, z + dir_delta(d).2),
            d,
        ),
{
    let (dx, dy, dz) = d.delta();
    let cell = grid.get(x + dx as i64, y + dy as i64, z + dz as i64);
    !neighbor_occludes(cat, cell, d)
}

/// Whether a fixed-point vertex component lies flush with the boundary that
/// direction `d` faces.
pub fn is_flush(p: i32, d: FaceDir) -> (r: bool)
    ensures
        r == flush(p as int, d),
{
    let p = p as i64;
    let half = FIX_ONE / 2;
    let positive = match d {
        FaceDir::PosX | FaceDir::PosY | FaceDir::PosZ => true,
        _ => false,
    };
    let near_half = -FLUSH_TOLERANCE <= p - half && p - half <= FLUSH_TOLERANCE;
    if positive {
        (-FLUSH_TOLERANCE <= p - FIX_ONE && p - FIX_ONE <= FLUSH_TOLERANCE) || near_half
    } else {
        (-FLUSH_TOLERANCE <= p && p <= FLUSH_TOLERANCE) || near_half
    }
}

/// The axis of a direction.
pub fn axis_of(d: FaceDir) -> (r: usize)
    ensures
        r == dir_axis(d),
{
    match d {
        FaceDir::PosX | FaceDir::NegX => 0,
        FaceDir::PosY | FaceDir::NegY => 1,
        FaceDir::PosZ | FaceDir::NegZ => 2,
    }
}

/// Whether triangle `t` of variant `g`, placed at voxel `(x, y, z)`, is
/// hidden by its neighbour.
pub fn triangle_culled(
    cat: &GeometryCatalog,
    grid: &VoxelGrid,
    blocks: &Vec<i32>,
    x: i64,
    y: i64,
    z: i64,
    g: &GeometryVariant,
    t: usize,
) -> (r: bool)
    requires
        grid.of_chunk(blocks@),
        grid.bounds.min_x <= x <= grid.bounds.max_x,
        grid.bounds.min_y <= y <= grid.bounds.max_y,
        grid.bounds.min_z <= z <= grid.bounds.max_z,
        g.wf(),
        t < g.triangle_count(),
    ensures
        r == triangle_hidden(*cat, blocks@, x as int, y as int, z as int, *g, t as int),
{
    let _ = g.indices.len();
    let _ = g.positions.len();
    let v = g.indices[3 * t] as usize;
    assert(v < g.vertex_count());
    if g.normals.len() <= 3 * v + 2 {
        return false;
    }
    let rx = round_fix(g.normals[3 * v]);
    let ry = round_fix(g.normals[3 * v + 1]);
    let rz = round_fix(g.normals[3 * v + 2]);
    match FaceDir::from_delta(rx, ry, rz) {
        None => false,
        Some(d) => {
            let p = g.positions[3 * v + axis_of(d)];
            if is_flush(p, d) {
                proof {
                    let (dx, dy, dz) = dir_delta(d);
                    assert(grid.in_box(x + dx, y + dy, z + dz));
                    assert(grid.spec_get(x + dx, y + dy, z + dz) == occupant(blocks@, x + dx, y + dy, z + dz));
                }
                !face_visible(cat, grid, x, y, z, d)
            } else {
                false
            }
        },
    }
}

} // verus!
