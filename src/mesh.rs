//! Merged mesh buffers and the appending of one piece of geometry to them.
use vstd::prelude::*;
use crate::encode::{lemma_group_in_range, lemma_groups_total, groups_total, MaterialGroup, IndexBuffer, groups_tile, coalesce, push_group, select_index_buffer, uses_short_indices};

verus! {

/// The contents of a mesh's buffers.
pub ghost struct MeshView {
    pub positions: Seq<i16>,
    pub normals: Seq<i8>,
    pub uvs: Seq<i64>,
    pub indices: Seq<u32>,
    pub groups: Seq<MaterialGroup>,
    pub vertex_count: nat,
}

/// The contents of one piece of geometry: its vertices, its triangles over
/// its own vertices, and its material.
pub ghost struct PartView {
    pub positions: Seq<i16>,
    pub normals: Seq<i8>,
    pub uvs: Seq<i64>,
    pub indices: Seq<u32>,
    pub vertex_count: nat,
    pub material_index: u32,
}

/// Buffers with no geometry.
pub open spec fn empty_view() -> MeshView {
    MeshView {
        positions: Seq::empty(),
        normals: Seq::empty(),
        uvs: Seq::empty(),
        indices: Seq::empty(),
        groups: Seq::empty(),
        vertex_count: 0,
    }
}

/// The attribute buffers hold `vertex_count` vertices, every index names
/// one of them, and the groups tile the indices.
pub open spec fn mesh_wf(m: MeshView) -> bool {
    &&& m.vertex_count <= u32::MAX
    &&& m.positions.len() == 3 * m.vertex_count
    &&& m.normals.len() == 3 * m.vertex_count
    &&& m.uvs.len() == 2 * m.vertex_count
    &&& m.indices.len() <= u32::MAX
    &&& forall|i: int| 0 <= i < m.indices.len() ==> m.indices[i] < m.vertex_count
    &&& groups_tile(m.groups, m.indices.len() as int)
}

/// The piece holds `vertex_count` vertices and at least one index, every
/// index naming one of them.
pub open spec fn part_wf(p: PartView) -> bool {
    &&& p.vertex_count <= u32::MAX
    &&& p.positions.len() == 3 * p.vertex_count
    &&& p.normals.len() == 3 * p.vertex_count
    &&& p.uvs.len() == 2 * p.vertex_count
    &&& p.indices.len() > 0
    &&& forall|i: int| 0 <= i < p.indices.len() ==> p.indices[i] < p.vertex_count
}

/// Appending the piece fits 32-bit vertex numbers and index counts.
pub open spec fn append_fits(m: MeshView, p: PartView) -> bool {
    &&& m.vertex_count + p.vertex_count <= u32::MAX
    &&& m.indices.len() + p.indices.len() <= u32::MAX
}

/// The material groups of a well-formed mesh partition its index buffer:
/// their counts sum to the number of indices, the first starts at 0, each
/// starts where the previous one ends (so none overlaps another and they
/// follow the order in which their runs appear), and none is empty.
pub proof fn lemma_groups_partition(m: MeshView)
    requires
        mesh_wf(m),
    ensures
        groups_total(m.groups) == m.indices.len(),
        m.groups.len() > 0 ==> m.groups[0].start == 0,
        forall|i: int|
            0 <= i < m.groups.len() - 1 ==> (#[trigger] m.groups[i + 1]).start == m.groups[i].start
                + m.groups[i].count,
        forall|i: int| 0 <= i < m.groups.len() ==> (#[trigger] m.groups[i]).count > 0,
        forall|i: int|
            0 <= i < m.groups.len() ==> (#[trigger] m.groups[i]).start + m.groups[i].count
                <= m.indices.len(),
{
    lemma_groups_total(m.groups, m.indices.len() as int);
    assert forall|i: int| 0 <= i < m.groups.len() implies (#[trigger] m.groups[i]).start
        + m.groups[i].count <= m.indices.len() by {
        lemma_group_in_range(m.groups, m.indices.len() as int, i);
    }
}

/// The indices of a piece renumbered to follow `base` earlier vertices.
pub open spec fn shifted(indices: Seq<u32>, base: nat) -> Seq<u32> {
    Seq::new(indices.len(), |i: int| (indices[i] + base) as u32)
}

/// The buffers after the piece is appended: its vertices follow the earlier
/// ones, its indices are renumbered past them, and its indices join the
/// material groups.
pub open spec fn append_view(m: MeshView, p: PartView) -> MeshView {
    MeshView {
        positions: m.positions + p.positions,
        normals: m.normals + p.normals,
        uvs: m.uvs + p.uvs,
        indices: m.indices + shifted(p.indices, m.vertex_count),
        groups: coalesce(
            m.groups,
            m.indices.len() as u32,
            p.indices.len() as u32,
            p.material_index,
        ),
        vertex_count: m.vertex_count + p.vertex_count,
    }
}

/// The groups `gs` (tiling `n` indices) after the first `k` groups of
/// `more`, shifted past those `n` indices, are appended one by one; a group
/// joins the previous one when their materials match.
pub open spec fn push_groups(gs: Seq<MaterialGroup>, n: int, more: Seq<MaterialGroup>, k: int) -> Seq<MaterialGroup>
    decreases k,
{
    if k <= 0 {
        gs
    } else {
        coalesce(
            push_groups(gs, n, more, k - 1),
            (n + more[k - 1].start) as u32,
            more[k - 1].count,
            more[k - 1].material_index,
        )
    }
}

/// The buffers `a` after the whole mesh `m` is appended: vertices after
/// vertices, indices renumbered past `a`'s vertices, groups shifted past
/// `a`'s indices and coalesced.
pub open spec fn merge_view(a: MeshView, m: MeshView) -> MeshView {
    MeshView {
        positions: a.positions + m.positions,
        normals: a.normals + m.normals,
        uvs: a.uvs + m.uvs,
        indices: a.indices + shifted(m.indices, a.vertex_count),
        groups: push_groups(a.groups, a.indices.len() as int, m.groups, m.groups.len() as int),
        vertex_count: a.vertex_count + m.vertex_count,
    }
}

/// One piece of geometry ready to be appended.
pub struct MeshPart {
    pub positions: Vec<i16>,
    pub normals: Vec<i8>,
    pub uvs: Vec<i64>,
    pub indices: Vec<u32>,
    pub vertex_count: u32,
    pub material_index: u32,
}

impl MeshPart {
    pub open spec fn view(&self) -> PartView {
        PartView {
            positions: self.positions@,
            normals: self.normals@,
            uvs: self.uvs@,
            indices: self.indices@,
            vertex_count: self.vertex_count as nat,
            material_index: self.material_index,
        }
    }
}

/// The merged geometry of one category: quantized positions (1/1024 of a
/// voxel), quantized normals (1/127), fixed-point UVs, a triangle index
/// list and its material groups.
pub struct MergedMesh {
    pub category: String,
    pub positions: Vec<i16>,
    pub normals: Vec<i8>,
    pub uvs: Vec<i64>,
    pub indices: Vec<u32>,
    pub groups: Vec<MaterialGroup>,
    pub vertex_count: u32,
}

impl MergedMesh {
    pub open spec fn view(&self) -> MeshView {
        MeshView {
            positions: self.positions@,
            normals: self.normals@,
            uvs: self.uvs@,
            indices: self.indices@,
            groups: self.groups@,
            vertex_count: self.vertex_count as nat,
        }
    }

    /// An empty mesh of the category.
    pub fn new(category: String) -> (r: MergedMesh)
        ensures
            r.view() == empty_view(),
            r.category@ == category@,
            mesh_wf(r.view()),
    {
        MergedMesh {
            category,
            positions: Vec::new(),
            normals: Vec::new(),
            uvs: Vec::new(),
            indices: Vec::new(),
            groups: Vec::new(),
            vertex_count: 0,
        }
    }

    /// Whether `nv` more vertices and `ni` more indices keep the counts
    /// within 32 bits.
    pub fn fits_after(&self, nv: usize, ni: usize) -> (r: bool)
        ensures
            r == (self.vertex_count + nv <= u32::MAX && self.indices@.len() + ni <= u32::MAX),
    {
        let _ = self.indices.len();
        nv as u64 <= u32::MAX as u64 - self.vertex_count as u64 && self.indices.len() as u64
            <= u32::MAX as u64 && ni as u64 <= u32::MAX as u64 - self.indices.len() as u64
    }

    /// The index list in the narrowest width the vertex count allows.
    pub fn index_buffer(&self) -> (r: IndexBuffer)
        requires
            mesh_wf(self.view()),
        ensures
            uses_short_indices(self.vertex_count as int) <==> r is U16,
            r matches IndexBuffer::U16(v) ==> v@.len() == self.indices@.len() && forall|i: int|
                0 <= i < v@.len() ==> v@[i] as u32 == self.indices@[i],
            r matches IndexBuffer::U32(v) ==> v@ == self.indices@,
    {
        select_index_buffer(&self.indices, self.vertex_count)
    }

    /// Appends a piece of geometry.
    pub fn append(&mut self, part: MeshPart)
        requires
            mesh_wf(old(self).view()),
            part_wf(part.view()),
            append_fits(old(self).view(), part.view()),
        ensures
            final(self).view() == append_view(old(self).view(), part.view()),
            mesh_wf(final(self).view()),
            final(self).category == old(self).category,
    {
        let ghost pv = part.view();
        let ghost mv = self.view();
        let ghost cat = self.category;
        let mut part = part;
        let base = self.vertex_count;
        let start = self.indices.len() as u32;
        let count = part.indices.len() as u32;
        self.positions.append(&mut part.positions);
        self.normals.append(&mut part.normals);
        self.uvs.append(&mut part.uvs);
        let mut i: usize = 0;
        while i < part.indices.len()
            invariant
                i <= part.indices@.len(),
                part.indices@ == pv.indices,
                part_wf(pv),
                append_fits(mv, pv),
                base == mv.vertex_count,
                start == mv.indices.len(),
                count == pv.indices.len(),
                part.material_index == pv.material_index,
                self.category == cat,
                self.groups@ == mv.groups,
                self.vertex_count == mv.vertex_count,
                self.positions@ == mv.positions + pv.positions,
                self.normals@ == mv.normals + pv.normals,
                self.uvs@ == mv.uvs + pv.uvs,
                self.indices@.len() == mv.indices.len() + i,
                self.indices@.subrange(0, mv.indices.len() as int) == mv.indices,
                forall|k: int|
                    0 <= k < i ==> self.indices@[mv.indices.len() + k] == (pv.indices[k]
                        + base) as u32,
            decreases part.indices@.len() - i,
        {
            self.indices.push(part.indices[i] + base);
            proof {
                assert(self.indices@.subrange(0, mv.indices.len() as int) =~= mv.indices);
            }
            i += 1;
        }
        proof {
            assert(self.indices@ =~= mv.indices + shifted(pv.indices, mv.vertex_count));
        }
        push_group(&mut self.groups, start, count, part.material_index);
        self.vertex_count = base + part.vertex_count;
        proof {
            let v = self.view();
            assert(v.indices.len() == mv.indices.len() + pv.indices.len());
            assert forall|i: int| 0 <= i < v.indices.len() implies v.indices[i] < v.vertex_count by {
                if i >= mv.indices.len() {
                    assert(v.indices[i] == (pv.indices[i - mv.indices.len()] + base) as u32);
                }
            }
        }
    }

    /// Appends a whole mesh: its vertices, its indices renumbered past this
    /// mesh's vertices, and its groups shifted past this mesh's indices.
    /// The category is kept.
    pub fn absorb(&mut self, other: MergedMesh)
        requires
            mesh_wf(old(self).view()),
            mesh_wf(other.view()),
            old(self).vertex_count + other.vertex_count <= u32::MAX,
            old(self).indices@.len() + other.indices@.len() <= u32::MAX,
        ensures
            final(self).view() == merge_view(old(self).view(), other.view()),
            mesh_wf(final(self).view()),
            final(self).category == old(self).category,
    {
        let ghost ov = other.view();
        let ghost mv = self.view();
        let ghost cat = self.category;
        let mut other = other;
        let base = self.vertex_count;
        let offset = self.indices.len() as u32;
        self.positions.append(&mut other.positions);
        self.normals.append(&mut other.normals);
        self.uvs.append(&mut other.uvs);
        let mut i: usize = 0;
        while i < other.indices.len()
            invariant
                i <= ov.indices.len(),
                other.indices@ == ov.indices,
                other.groups@ == ov.groups,
                mesh_wf(ov),
                mesh_wf(mv),
                mv.vertex_count + ov.vertex_count <= u32::MAX,
                mv.indices.len() + ov.indices.len() <= u32::MAX,
                base == mv.vertex_count,
                offset == mv.indices.len(),
                self.category == cat,
                self.groups@ == mv.groups,
                self.vertex_count == mv.vertex_count,
                self.positions@ == mv.positions + ov.positions,
                self.normals@ == mv.normals + ov.normals,
                self.uvs@ == mv.uvs + ov.uvs,
                self.indices@.len() == mv.indices.len() + i,
                self.indices@.subrange(0, mv.indices.len() as int) == mv.indices,
                forall|k: int|
                    0 <= k < i ==> self.indices@[mv.indices.len() + k] == (ov.indices[k] + base) as u32,
            decreases ov.indices.len() - i,
        {
            self.indices.push(other.indices[i] + base);
            proof {
                assert(self.indices@.subrange(0, mv.indices.len() as int) =~= mv.indices);
            }
            i += 1;
        }
        proof {
            assert(self.indices@ =~= mv.indices + shifted(ov.indices, mv.vertex_count));
        }
        let mut k: usize = 0;
        while k < other.groups.len()
            invariant
                k <= ov.groups.len(),
                other.groups@ == ov.groups,
                mesh_wf(ov),
                mesh_wf(mv),
                mv.indices.len() + ov.indices.len() <= u32::MAX,
                offset == mv.indices.len(),
                self.category == cat,
                self.indices@ == mv.indices + shifted(ov.indices, mv.vertex_count),
                self.vertex_count == mv.vertex_count,
                self.positions@ == mv.positions + ov.positions,
                self.normals@ == mv.normals + ov.normals,
                self.uvs@ == mv.uvs + ov.uvs,
                self.groups@ == push_groups(mv.groups, mv.indices.len() as int, ov.groups, k as int),
                groups_tile(
                    self.groups@,
                    offset + (if k < ov.groups.len() {
                        ov.groups[k as int].start as int
                    } else {
                        ov.indices.len() as int
                    }),
                ),
            decreases ov.groups.len() - k,
        {
            let g = other.groups[k];
            proof {
                if k + 1 < ov.groups.len() {
                    assert(ov.groups[k + 1].start == ov.groups[k as int].start + ov.groups[k as int].count);
                } else {
                    assert(ov.groups.last() == ov.groups[k as int]);
                }
                assert(ov.groups[k as int].count > 0);
                lemma_group_in_range(ov.groups, ov.indices.len() as int, k as int);
            }
            push_group(&mut self.groups, offset + g.start, g.count, g.material_index);
            k += 1;
        }
        self.vertex_count = base + other.vertex_count;
        proof {
            let v = self.view();
            if ov.groups.len() == 0 {
                assert(ov.indices.len() == 0);
            }
            assert(v.indices.len() == mv.indices.len() + ov.indices.len());
            assert forall|i: int| 0 <= i < v.indices.len() implies v.indices[i] < v.vertex_count by {
                if i >= mv.indices.len() {
                    assert(v.indices[i] == (ov.indices[i - mv.indices.len()] + base) as u32);
                }
            }
        }
    }
}

} // verus!
