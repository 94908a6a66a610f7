//! The chunk's voxel list, its bounds, and the dense padded grid built from
//! it for neighbour lookups.
use vstd::prelude::*;

verus! {

/// Number of whole `(x, y, z, type)` quadruples in the flat voxel list.
pub open spec fn block_count(blocks: Seq<i32>) -> int {
    blocks.len() as int / 4
}

/// Component `a` (0 for x, 1 for y, 2 for z, 3 for the type) of voxel `i`.
pub open spec fn comp(blocks: Seq<i32>, i: int, a: int) -> int {
    blocks[4 * i + a] as int
}

/// The smallest value of component `a` among the first `k >= 1` voxels.
pub open spec fn min_comp(blocks: Seq<i32>, k: int, a: int) -> int
    decreases k,
{
    if k <= 1 {
        comp(blocks, 0, a)
    } else {
        let m = min_comp(blocks, k - 1, a);
        if comp(blocks, k - 1, a) < m {
            comp(blocks, k - 1, a)
        } else {
            m
        }
    }
}

/// The largest value of component `a` among the first `k >= 1` voxels.
pub open spec fn max_comp(blocks: Seq<i32>, k: int, a: int) -> int
    decreases k,
{
    if k <= 1 {
        comp(blocks, 0, a)
    } else {
        let m = max_comp(blocks, k - 1, a);
        if comp(blocks, k - 1, a) > m {
            comp(blocks, k - 1, a)
        } else {
            m
        }
    }
}

/// The grid value of a voxel type: the type plus one, or 0 (empty) for a
/// negative type.
pub open spec fn cell_value(t: int) -> int {
    if t >= 0 {
        t + 1
    } else {
        0
    }
}

/// The grid value at `(x, y, z)` after the first `k` voxels are written:
/// the value of the last of them at that position, 0 where there is none.
pub open spec fn written(blocks: Seq<i32>, k: int, x: int, y: int, z: int) -> int
    decreases k,
{
    if k <= 0 {
        0
    } else if comp(blocks, k - 1, 0) == x && comp(blocks, k - 1, 1) == y && comp(blocks, k - 1, 2)
        == z {
        cell_value(comp(blocks, k - 1, 3))
    } else {
        written(blocks, k - 1, x, y, z)
    }
}

/// The grid value of the whole chunk at `(x, y, z)`.
pub open spec fn occupant(blocks: Seq<i32>, x: int, y: int, z: int) -> int {
    written(blocks, block_count(blocks), x, y, z)
}

/// Cells of the chunk's bounding box with one cell of padding on every side.
pub open spec fn padded_volume(blocks: Seq<i32>) -> int {
    (max_comp(blocks, block_count(blocks), 0) - min_comp(blocks, block_count(blocks), 0) + 3) * (
    max_comp(blocks, block_count(blocks), 1) - min_comp(blocks, block_count(blocks), 1) + 3) * (
    max_comp(blocks, block_count(blocks), 2) - min_comp(blocks, block_count(blocks), 2) + 3)
}

/// The chunk's padded grid fits in memory addressing.
pub open spec fn grid_fits(blocks: Seq<i32>) -> bool {
    block_count(blocks) > 0 ==> padded_volume(blocks) <= usize::MAX
}

/// Every voxel lies within the bounds of the first `k` voxels that hold it.
pub proof fn lemma_comp_in_bounds(blocks: Seq<i32>, k: int, i: int, a: int)
    requires
        0 <= i < k,
    ensures
        min_comp(blocks, k, a) <= comp(blocks, i, a) <= max_comp(blocks, k, a),
    decreases k,
{
    if k > 1 && i < k - 1 {
        lemma_comp_in_bounds(blocks, k - 1, i, a);
    }
}

/// The bounds of the voxels are 32-bit values.
pub proof fn lemma_bounds_range(blocks: Seq<i32>, k: int, a: int)
    ensures
        i32::MIN <= min_comp(blocks, k, a) <= i32::MAX,
        i32::MIN <= max_comp(blocks, k, a) <= i32::MAX,
    decreases k,
{
    if k > 1 {
        lemma_bounds_range(blocks, k - 1, a);
    }
}

/// A value outside the voxels' bounds was never written.
pub proof fn lemma_written_outside(blocks: Seq<i32>, k: int, x: int, y: int, z: int)
    requires
        k >= 1,
        x < min_comp(blocks, k, 0) || x > max_comp(blocks, k, 0) || y < min_comp(blocks, k, 1)
            || y > max_comp(blocks, k, 1) || z < min_comp(blocks, k, 2) || z > max_comp(
            blocks,
            k,
            2,
        ),
    ensures
        written(blocks, k, x, y, z) == 0,
    decreases k,
{
    lemma_comp_in_bounds(blocks, k, k - 1, 0);
    lemma_comp_in_bounds(blocks, k, k - 1, 1);
    lemma_comp_in_bounds(blocks, k, k - 1, 2);
    if k > 1 {
        assert(min_comp(blocks, k, 0) <= min_comp(blocks, k - 1, 0));
        assert(min_comp(blocks, k, 1) <= min_comp(blocks, k - 1, 1));
        assert(min_comp(blocks, k, 2) <= min_comp(blocks, k - 1, 2));
        assert(max_comp(blocks, k, 0) >= max_comp(blocks, k - 1, 0));
        assert(max_comp(blocks, k, 1) >= max_comp(blocks, k - 1, 1));
        assert(max_comp(blocks, k, 2) >= max_comp(blocks, k - 1, 2));
        lemma_written_outside(blocks, k - 1, x, y, z);
    } else {
        assert(written(blocks, 0, x, y, z) == 0);
    }
}

/// The axis-aligned bounds of a non-empty chunk.
#[derive(Clone, Copy, PartialEq, Eq, Structural, Debug)]
pub struct ChunkBounds {
    pub min_x: i32,
    pub min_y: i32,
    pub min_z: i32,
    pub max_x: i32,
    pub max_y: i32,
    pub max_z: i32,
}

/// The bounds of a non-empty chunk's voxels.
pub open spec fn chunk_bounds(blocks: Seq<i32>) -> ChunkBounds {
    let n = block_count(blocks);
    ChunkBounds {
        min_x: min_comp(blocks, n, 0) as i32,
        min_y: min_comp(blocks, n, 1) as i32,
        min_z: min_comp(blocks, n, 2) as i32,
        max_x: max_comp(blocks, n, 0) as i32,
        max_y: max_comp(blocks, n, 1) as i32,
        max_z: max_comp(blocks, n, 2) as i32,
    }
}

/// The bounds are those of the chunk's voxels.
pub open spec fn bounds_of(b: ChunkBounds, blocks: Seq<i32>) -> bool {
    let n = block_count(blocks);
    &&& b.min_x == min_comp(blocks, n, 0)
    &&& b.min_y == min_comp(blocks, n, 1)
    &&& b.min_z == min_comp(blocks, n, 2)
    &&& b.max_x == max_comp(blocks, n, 0)
    &&& b.max_y == max_comp(blocks, n, 1)
    &&& b.max_z == max_comp(blocks, n, 2)
}

/// The bounds of the voxels of a non-empty chunk, in one pass.
pub fn calculate_bounds(blocks: &Vec<i32>) -> (r: ChunkBounds)
    requires
        block_count(blocks@) > 0,
    ensures
        bounds_of(r, blocks@),
        r.min_x <= r.max_x && r.min_y <= r.max_y && r.min_z <= r.max_z,
{
    let n = blocks.len() / 4;
    assert(4 * n <= blocks@.len());
    let mut b = ChunkBounds {
        min_x: blocks[0],
        min_y: blocks[1],
        min_z: blocks[2],
        max_x: blocks[0],
        max_y: blocks[1],
        max_z: blocks[2],
    };
    let mut i: usize = 1;
    while i < n
        invariant
            1 <= i <= n,
            4 * n <= blocks@.len(),
            4 * n <= usize::MAX,
            n == block_count(blocks@),
            b.min_x == min_comp(blocks@, i as int, 0),
            b.min_y == min_comp(blocks@, i as int, 1),
            b.min_z == min_comp(blocks@, i as int, 2),
            b.max_x == max_comp(blocks@, i as int, 0),
            b.max_y == max_comp(blocks@, i as int, 1),
            b.max_z == max_comp(blocks@, i as int, 2),
        decreases n - i,
    {
        let x = blocks[4 * i];
        let y = blocks[4 * i + 1];
        let z = blocks[4 * i + 2];
        if x < b.min_x {
            b.min_x = x;
        }
        if y < b.min_y {
            b.min_y = y;
        }
        if z < b.min_z {
            b.min_z = z;
        }
        if x > b.max_x {
            b.max_x = x;
        }
        if y > b.max_y {
            b.max_y = y;
        }
        if z > b.max_z {
            b.max_z = z;
        }
        i += 1;
    }
    proof {
        lemma_comp_in_bounds(blocks@, n as int, 0, 0);
        lemma_comp_in_bounds(blocks@, n as int, 0, 1);
        lemma_comp_in_bounds(blocks@, n as int, 0, 2);
    }
    b
}

/// Distinct cells of a box have distinct row-major offsets.
proof fn lemma_offset_injective(
    x1: int,
    y1: int,
    z1: int,
    x2: int,
    y2: int,
    z2: int,
    sx: int,
    sy: int,
)
    requires
        0 <= x1 < sx,
        0 <= x2 < sx,
        0 <= y1 < sy,
        0 <= y2 < sy,
        0 <= z1,
        0 <= z2,
        x1 + y1 * sx + z1 * (sx * sy) == x2 + y2 * sx + z2 * (sx * sy),
    ensures
        x1 == x2 && y1 == y2 && z1 == z2,
{
    let m1 = y1 + z1 * sy;
    let m2 = y2 + z2 * sy;
    assert(x1 + sx * m1 == x2 + sx * m2) by (nonlinear_arith)
        requires
            x1 + y1 * sx + z1 * (sx * sy) == x2 + y2 * sx + z2 * (sx * sy),
            m1 == y1 + z1 * sy,
            m2 == y2 + z2 * sy,
    ;
    assert(m1 == m2) by (nonlinear_arith)
        requires
            x1 + sx * m1 == x2 + sx * m2,
            0 <= x1 < sx,
            0 <= x2 < sx,
    ;
    assert(z1 == z2) by (nonlinear_arith)
        requires
            y1 + z1 * sy == y2 + z2 * sy,
            0 <= y1 < sy,
            0 <= y2 < sy,
    ;
}

/// An offset of a box cell lies inside the box.
proof fn lemma_offset_bound(x: int, y: int, z: int, sx: int, sy: int, sz: int)
    requires
        0 <= x < sx,
        0 <= y < sy,
        0 <= z < sz,
    ensures
        0 <= x + y * sx + z * (sx * sy) < sx * sy * sz,
        0 <= y * sx <= sx * sy,
        0 <= z * (sx * sy) <= sx * sy * sz,
{
    assert(0 <= x + y * sx + z * (sx * sy) < sx * sy * sz) by (nonlinear_arith)
        requires
            0 <= x < sx,
            0 <= y < sy,
            0 <= z < sz,
    ;
    assert(0 <= y * sx <= sx * sy) by (nonlinear_arith)
        requires
            0 <= x < sx,
            0 <= y < sy,
    ;
    assert(0 <= z * (sx * sy) <= sx * sy * sz) by (nonlinear_arith)
        requires
            0 <= x < sx,
            0 <= y < sy,
            0 <= z < sz,
    ;
}

/// A dense grid over a chunk's bounding box plus one cell of padding on every
/// side, X fastest, then Y, then Z. A cell holds 0 when empty and the voxel
/// type plus one otherwise.
pub struct VoxelGrid {
    pub bounds: ChunkBounds,
    pub size_x: usize,
    pub size_y: usize,
    pub size_z: usize,
    pub cells: Vec<u32>,
}

impl VoxelGrid {
    /// `(x, y, z)` lies in the padded box.
    pub open spec fn in_box(&self, x: int, y: int, z: int) -> bool {
        &&& self.bounds.min_x - 1 <= x <= self.bounds.max_x + 1
        &&& self.bounds.min_y - 1 <= y <= self.bounds.max_y + 1
        &&& self.bounds.min_z - 1 <= z <= self.bounds.max_z + 1
    }

    /// The offset of cell `(x, y, z)` in `cells`.
    pub open spec fn offset(&self, x: int, y: int, z: int) -> int {
        (x - self.bounds.min_x + 1) + (y - self.bounds.min_y + 1) * self.size_x + (z
            - self.bounds.min_z + 1) * (self.size_x * self.size_y)
    }

    /// The sizes are those of the padded box and `cells` covers it.
    pub open spec fn wf(&self) -> bool {
        &&& self.bounds.min_x <= self.bounds.max_x
        &&& self.bounds.min_y <= self.bounds.max_y
        &&& self.bounds.min_z <= self.bounds.max_z
        &&& self.size_x == self.bounds.max_x - self.bounds.min_x + 3
        &&& self.size_y == self.bounds.max_y - self.bounds.min_y + 3
        &&& self.size_z == self.bounds.max_z - self.bounds.min_z + 3
        &&& self.cells@.len() == self.size_x * self.size_y * self.size_z
        &&& self.size_x * self.size_y * self.size_z <= usize::MAX
    }

    /// The value of cell `(x, y, z)`.
    pub open spec fn spec_get(&self, x: int, y: int, z: int) -> int {
        self.cells@[self.offset(x, y, z)] as int
    }

    /// The grid is that of the chunk: well formed, bounded by its voxels,
    /// and each cell of the padded box holds the chunk's occupant.
    pub open spec fn of_chunk(&self, blocks: Seq<i32>) -> bool {
        &&& self.wf()
        &&& bounds_of(self.bounds, blocks)
        &&& self.bounds == chunk_bounds(blocks)
        &&& forall|x: int, y: int, z: int|
            self.in_box(x, y, z) ==> #[trigger] self.spec_get(x, y, z) == occupant(blocks, x, y, z)
    }

    proof fn lemma_offset(&self, x: int, y: int, z: int)
        requires
            self.wf(),
            self.in_box(x, y, z),
        ensures
            0 <= self.offset(x, y, z) < self.cells@.len(),
            0 <= (y - self.bounds.min_y + 1) * self.size_x <= self.size_x * self.size_y,
            0 <= (z - self.bounds.min_z + 1) * (self.size_x * self.size_y) <= self.cells@.len(),
            self.size_x * self.size_y <= usize::MAX,
    {
        assert(self.size_x * self.size_y <= self.size_x * self.size_y * self.size_z)
            by (nonlinear_arith)
            requires
                self.size_z >= 1,
                self.size_x >= 0,
                self.size_y >= 0,
        ;
        lemma_offset_bound(
            x - self.bounds.min_x + 1,
            y - self.bounds.min_y + 1,
            z - self.bounds.min_z + 1,
            self.size_x as int,
            self.size_y as int,
            self.size_z as int,
        );
    }

    /// The offset of a cell of the padded box.
    pub fn index(&self, x: i64, y: i64, z: i64) -> (r: usize)
        requires
            self.wf(),
            self.in_box(x as int, y as int, z as int),
        ensures
            r == self.offset(x as int, y as int, z as int),
            r < self.cells@.len(),
    {
        proof {
            self.lemma_offset(x as int, y as int, z as int);
        }
        let lx = (x - self.bounds.min_x as i64 + 1) as usize;
        let ly = (y - self.bounds.min_y as i64 + 1) as usize;
        let lz = (z - self.bounds.min_z as i64 + 1) as usize;
        lx + ly * self.size_x + lz * (self.size_x * self.size_y)
    }

    /// The value of cell `(x, y, z)` of the padded box.
    pub fn get(&self, x: i64, y: i64, z: i64) -> (r: u32)
        requires
            self.wf(),
            self.in_box(x as int, y as int, z as int),
        ensures
            r as int == self.spec_get(x as int, y as int, z as int),
    {
        let i = self.index(x, y, z);
        self.cells[i]
    }

    /// Builds the grid of a non-empty chunk; of two voxels at one position
    /// the later one wins.
    pub fn build(blocks: &Vec<i32>) -> (r: VoxelGrid)
        requires
            block_count(blocks@) > 0,
            grid_fits(blocks@),
        ensures
            r.of_chunk(blocks@),
    {
        let bounds = calculate_bounds(blocks);
        let ghost dx = bounds.max_x - bounds.min_x + 3;
        let ghost dy = bounds.max_y - bounds.min_y + 3;
        let ghost dz = bounds.max_z - bounds.min_z + 3;
        proof {
            assert(dx * dy * dz == padded_volume(blocks@));
            assert(dx <= dx * dy * dz && dx * dy <= dx * dy * dz && dy <= dx * dy && dz <= dx * dy
                * dz) by (nonlinear_arith)
                requires
                    dx >= 1,
                    dy >= 1,
                    dz >= 1,
            ;
        }
        let sx = (bounds.max_x as i64 - bounds.min_x as i64 + 3) as usize;
        let sy = (bounds.max_y as i64 - bounds.min_y as i64 + 3) as usize;
        let sz = (bounds.max_z as i64 - bounds.min_z as i64 + 3) as usize;
        let volume = sx * sy * sz;
        let mut cells: Vec<u32> = Vec::with_capacity(volume);
        let mut k: usize = 0;
        while k < volume
            invariant
                k <= volume,
                cells@.len() == k,
                forall|j: int| 0 <= j < k ==> cells@[j] == 0,
            decreases volume - k,
        {
            cells.push(0);
            k += 1;
        }
        let mut grid = VoxelGrid { bounds, size_x: sx, size_y: sy, size_z: sz, cells };
        let n = blocks.len() / 4;
        assert(4 * n <= blocks@.len());
        proof {
            assert forall|x: int, y: int, z: int| grid.in_box(x, y, z) implies #[trigger] grid.spec_get(
                x,
                y,
                z,
            ) == written(blocks@, 0, x, y, z) by {
                grid.lemma_offset(x, y, z);
            }
        }
        let mut i: usize = 0;
        while i < n
            invariant
                i <= n,
                4 * n <= blocks@.len(),
                4 * n <= usize::MAX,
                n == block_count(blocks@),
                grid.wf(),
                bounds_of(grid.bounds, blocks@),
                forall|x: int, y: int, z: int|
                    grid.in_box(x, y, z) ==> #[trigger] grid.spec_get(x, y, z) == written(
                        blocks@,
                        i as int,
                        x,
                        y,
                        z,
                    ),
            decreases n - i,
        {
            let x = blocks[4 * i];
            let y = blocks[4 * i + 1];
            let z = blocks[4 * i + 2];
            let t = blocks[4 * i + 3];
            proof {
                lemma_comp_in_bounds(blocks@, n as int, i as int, 0);
                lemma_comp_in_bounds(blocks@, n as int, i as int, 1);
                lemma_comp_in_bounds(blocks@, n as int, i as int, 2);
            }
            let at = grid.index(x as i64, y as i64, z as i64);
            let v: u32 = if t >= 0 {
                (t as u32) + 1
            } else {
                0
            };
            let ghost prev = grid;
            grid.cells.set(at, v);
            proof {
                assert forall|px: int, py: int, pz: int| grid.in_box(px, py, pz) implies #[trigger] grid.spec_get(
                    px,
                    py,
                    pz,
                ) == written(blocks@, i + 1, px, py, pz) by {
                    assert(prev.spec_get(px, py, pz) == written(blocks@, i as int, px, py, pz));
                    if px != x || py != y || pz != z {
                        prev.lemma_offset(px, py, pz);
                        if grid.offset(px, py, pz) == at {
                            lemma_offset_injective(
                                px - grid.bounds.min_x + 1,
                                py - grid.bounds.min_y + 1,
                                pz - grid.bounds.min_z + 1,
                                x - grid.bounds.min_x + 1,
                                y - grid.bounds.min_y + 1,
                                z - grid.bounds.min_z + 1,
                                grid.size_x as int,
                                grid.size_y as int,
                            );
                        }
                    }
                }
            }
            i += 1;
        }
        grid
    }
}

} // verus!
