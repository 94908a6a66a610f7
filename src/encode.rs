//! Quantization of vertex attributes, index width selection and material
//! groups, shared by both mergers.
use vstd::prelude::*;

verus! {

/// The fixed-point value of 1.0 in the catalog's geometry.
pub const FIX_ONE: i64 = 65536;

/// Fixed-point units per quantized position unit (positions are quantized at
/// 1024 steps per voxel).
pub const POSITION_STEP: i64 = 64;

/// Scale of quantized normals.
pub const NORMAL_SCALE: i64 = 127;

/// `n / d` rounded to the nearest integer, halves away from zero.
pub open spec fn round_div(n: int, d: int) -> int {
    if n >= 0 {
        (2 * n + d) / (2 * d)
    } else {
        -((-2 * n + d) / (2 * d))
    }
}

/// `v` held inside `[lo, hi]`.
pub open spec fn clamp(v: int, lo: int, hi: int) -> int {
    if v < lo {
        lo
    } else if v > hi {
        hi
    } else {
        v
    }
}

/// The quantized form of a fixed-point position component: `round(p * 1024)`
/// held in the signed 16-bit range.
pub open spec fn spec_encode_position(p: int) -> int {
    clamp(round_div(p, POSITION_STEP as int), i16::MIN as int, i16::MAX as int)
}

/// The fixed-point value that a quantized position component stands for.
pub open spec fn spec_decode_position(q: i16) -> int {
    q as int * POSITION_STEP
}

/// The quantized form of a fixed-point normal component: `round(n * 127)` held
/// in the signed 8-bit range.
pub open spec fn spec_encode_normal(n: int) -> int {
    clamp(round_div(n * NORMAL_SCALE, FIX_ONE as int), i8::MIN as int, i8::MAX as int)
}

/// A fixed-point value rounded to the nearest integer, halves away from zero.
pub open spec fn spec_round_fix(v: int) -> int {
    round_div(v, FIX_ONE as int)
}

/// `n / d` rounded to the nearest integer, halves away from zero.
pub fn round_div_i64(n: i64, d: i64) -> (r: i64)
    requires
        0 < d <= 0x1_0000_0000,
        -0x1000_0000_0000_0000 <= n <= 0x1000_0000_0000_0000,
    ensures
        r as int == round_div(n as int, d as int),
        n >= 0 ==> 0 <= r <= n,
        n < 0 ==> n <= r <= 0,
{
    if n >= 0 {
        let r = (2 * n + d) / (2 * d);
        assert(0 <= r <= n) by (nonlinear_arith)
            requires
                r == (2 * n + d) / (2 * d),
                n >= 0,
                d > 0,
        ;
        r
    } else {
        let q = (-2 * n + d) / (2 * d);
        assert(0 <= q <= -n) by (nonlinear_arith)
            requires
                q == (-2 * n + d) / (2 * d),
                n < 0,
                d > 0,
        ;
        -q
    }
}

/// Quantizes a fixed-point position component to 1/1024 of a voxel.
pub fn encode_position(p: i64) -> (r: i16)
    requires
        -0x1000_0000_0000_0000 <= p <= 0x1000_0000_0000_0000,
    ensures
        r as int == spec_encode_position(p as int),
{
    let q = round_div_i64(p, POSITION_STEP);
    if q < i16::MIN as i64 {
        i16::MIN
    } else if q > i16::MAX as i64 {
        i16::MAX
    } else {
        q as i16
    }
}

/// Quantizes a fixed-point normal component to 1/127.
pub fn encode_normal(n: i32) -> (r: i8)
    ensures
        r as int == spec_encode_normal(n as int),
{
    let q = round_div_i64(n as i64 * NORMAL_SCALE, FIX_ONE);
    if q < i8::MIN as i64 {
        i8::MIN
    } else if q > i8::MAX as i64 {
        i8::MAX
    } else {
        q as i8
    }
}

/// Rounds a fixed-point value to the nearest integer.
pub fn round_fix(v: i32) -> (r: i64)
    ensures
        r as int == spec_round_fix(v as int),
        -32768 <= r <= 32768,
{
    let r = round_div_i64(v as i64, FIX_ONE);
    assert(-32768 <= r <= 32768) by (nonlinear_arith)
        requires
            r as int == round_div(v as int, 65536),
            i32::MIN <= v <= i32::MAX,
    ;
    r
}

/// Quantizing a position component of magnitude under 32 voxels and decoding
/// it again lands within 1/1024 of a voxel of where it started.
pub proof fn lemma_position_round_trip(p: int)
    requires
        -32 * FIX_ONE < p < 32 * FIX_ONE,
    ensures
        -POSITION_STEP < spec_decode_position(spec_encode_position(p) as i16) - p < POSITION_STEP,
{
    let q = round_div(p, POSITION_STEP as int);
    if p >= 0 {
        assert(64 * q - 32 <= p && p < 64 * q + 32) by (nonlinear_arith)
            requires
                q == (2 * p + 64) / 128,
                p >= 0,
        ;
    } else {
        assert(-64 * q - 32 <= -p && -p < -64 * q + 32) by (nonlinear_arith)
            requires
                -q == (-2 * p + 64) / 128,
                p < 0,
        ;
    }
}

/// A contiguous run of the index buffer drawn with one material.
#[derive(Clone, Copy, PartialEq, Eq, Structural, Debug)]
pub struct MaterialGroup {
    pub start: u32,
    pub count: u32,
    pub material_index: u32,
}

/// The groups tile the first `n` indices exactly: they start at 0, each
/// begins where the previous one ends, none is empty, neighbours differ in
/// material, and the last ends at `n`.
pub open spec fn groups_tile(gs: Seq<MaterialGroup>, n: int) -> bool {
    &&& (gs.len() == 0 ==> n == 0)
    &&& (gs.len() > 0 ==> gs[0].start == 0 && gs.last().start + gs.last().count == n)
    &&& forall|i: int| 0 <= i < gs.len() ==> (#[trigger] gs[i]).count > 0
    &&& forall|i: int|
        0 <= i < gs.len() - 1 ==> (#[trigger] gs[i + 1]).start == gs[i].start + gs[i].count
            && gs[i + 1].material_index != gs[i].material_index
}

/// The sum of the groups' counts.
pub open spec fn groups_total(gs: Seq<MaterialGroup>) -> int
    decreases gs.len(),
{
    if gs.len() == 0 {
        0
    } else {
        groups_total(gs.drop_last()) + gs.last().count
    }
}

/// The groups after a run of `count` indices of material `mat`, starting at
/// index `start`, is appended: it joins the last group when that has the same
/// material, and opens a new group otherwise.
pub open spec fn coalesce(
    gs: Seq<MaterialGroup>,
    start: u32,
    count: u32,
    mat: u32,
) -> Seq<MaterialGroup> {
    if gs.len() > 0 && gs.last().material_index == mat {
        gs.update(
            gs.len() - 1,
            MaterialGroup {
                start: gs.last().start,
                count: (gs.last().count + count) as u32,
                material_index: mat,
            },
        )
    } else {
        gs.push(MaterialGroup { start, count, material_index: mat })
    }
}

/// Every group of a tiling ends within the tiled indices.
pub proof fn lemma_group_in_range(gs: Seq<MaterialGroup>, n: int, k: int)
    requires
        groups_tile(gs, n),
        0 <= k < gs.len(),
    ensures
        gs[k].start + gs[k].count <= n,
    decreases gs.len() - k,
{
    if k + 1 < gs.len() {
        lemma_group_in_range(gs, n, k + 1);
        assert(gs[k + 1].start == gs[k].start + gs[k].count);
    }
}

/// Groups that tile the indices sum to their number.
pub proof fn lemma_groups_total(gs: Seq<MaterialGroup>, n: int)
    requires
        groups_tile(gs, n),
    ensures
        groups_total(gs) == n,
    decreases gs.len(),
{
    if gs.len() > 0 {
        let init = gs.drop_last();
        if init.len() > 0 {
            let j = init.len() - 1;
            assert(gs[j + 1].start == gs[j].start + gs[j].count);
            assert forall|i: int| 0 <= i < init.len() - 1 implies (#[trigger] init[i + 1]).start
                == init[i].start + init[i].count && init[i + 1].material_index
                != init[i].material_index by {
                assert(init[i + 1] == gs[i + 1]);
                assert(init[i] == gs[i]);
            }
            assert forall|i: int| 0 <= i < init.len() implies (#[trigger] init[i]).count > 0 by {
                assert(init[i] == gs[i]);
            }
        }
        lemma_groups_total(init, gs.last().start as int);
    }
}

/// Appends a run of `count > 0` indices of material `mat` to groups that
/// tile `n` indices.
pub fn push_group(groups: &mut Vec<MaterialGroup>, n: u32, count: u32, mat: u32)
    requires
        groups_tile(old(groups)@, n as int),
        count > 0,
        n + count <= u32::MAX,
    ensures
        final(groups)@ == coalesce(old(groups)@, n, count, mat),
        groups_tile(final(groups)@, n + count),
{
    let len = groups.len();
    if len > 0 && groups[len - 1].material_index == mat {
        let last = groups[len - 1];
        groups.set(
            len - 1,
            MaterialGroup { start: last.start, count: last.count + count, material_index: mat },
        );
        proof {
            let gs = final(groups)@;
            assert forall|i: int| 0 <= i < gs.len() - 1 implies (#[trigger] gs[i + 1]).start
                == gs[i].start + gs[i].count && gs[i + 1].material_index
                != gs[i].material_index by {
                assert(gs[i] == old(groups)@[i]);
                if i + 1 < len - 1 {
                    assert(gs[i + 1] == old(groups)@[i + 1]);
                } else {
                    assert(old(groups)@[i + 1].start == old(groups)@[i].start + old(
                        groups,
                    )@[i].count);
                }
            }
        }
    } else {
        groups.push(MaterialGroup { start: n, count, material_index: mat });
        proof {
            let gs = final(groups)@;
            assert forall|i: int| 0 <= i < gs.len() - 1 implies (#[trigger] gs[i + 1]).start
                == gs[i].start + gs[i].count && gs[i + 1].material_index
                != gs[i].material_index by {
                assert(gs[i] == old(groups)@[i]);
                if i + 1 < len {
                    assert(gs[i + 1] == old(groups)@[i + 1]);
                }
            }
            assert forall|i: int| 0 <= i < gs.len() implies (#[trigger] gs[i]).count > 0 by {
                if i < len {
                    assert(gs[i] == old(groups)@[i]);
                }
            }
        }
    }
}

/// An index buffer in the narrowest width its mesh allows.
pub enum IndexBuffer {
    U16(Vec<u16>),
    U32(Vec<u32>),
}

/// Whether a mesh with `vertex_count` vertices is drawn with 16-bit indices.
pub open spec fn uses_short_indices(vertex_count: int) -> bool {
    vertex_count <= 65535
}

/// Packs indices of a mesh of `vertex_count` vertices: 16-bit when the count
/// is at most 65535, 32-bit otherwise, the values unchanged.
pub fn select_index_buffer(indices: &Vec<u32>, vertex_count: u32) -> (r: IndexBuffer)
    requires
        forall|i: int| 0 <= i < indices@.len() ==> indices@[i] < vertex_count,
    ensures
        uses_short_indices(vertex_count as int) <==> r is U16,
        r matches IndexBuffer::U16(v) ==> v@.len() == indices@.len() && forall|i: int|
            0 <= i < v@.len() ==> v@[i] as u32 == indices@[i],
        r matches IndexBuffer::U32(v) ==> v@ == indices@,
{
    if vertex_count > 65535 {
        IndexBuffer::U32(indices.clone())
    } else {
        let mut out: Vec<u16> = Vec::with_capacity(indices.len());
        let mut i: usize = 0;
        while i < indices.len()
            invariant
                i <= indices@.len(),
                vertex_count <= 65535,
                forall|k: int| 0 <= k < indices@.len() ==> indices@[k] < vertex_count,
                out@.len() == i,
                forall|k: int| 0 <= k < i ==> out@[k] as u32 == indices@[k],
            decreases indices@.len() - i,
        {
            out.push(indices[i] as u16);
            i += 1;
        }
        IndexBuffer::U16(out)
    }
}

} // verus!
