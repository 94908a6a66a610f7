//! The geometry catalog: per voxel type, its occlusion flags, category and
//! geometry variants.
use vstd::prelude::*;

verus! {

/// One piece of cached geometry of a voxel type. Positions, normals and UVs
/// are fixed-point (`FIX_ONE` is 1.0); normals and UVs may be shorter than
/// the positions, and the vertices they miss take defaults when encoded.
pub struct GeometryVariant {
    pub positions: Vec<i32>,
    pub normals: Vec<i32>,
    pub uvs: Vec<i32>,
    pub indices: Vec<u32>,
    pub material_index: u32,
}

impl GeometryVariant {
    /// Number of vertices: one per position triple.
    pub open spec fn vertex_count(&self) -> int {
        self.positions@.len() as int / 3
    }

    /// Number of triangles of the index list.
    pub open spec fn triangle_count(&self) -> int {
        self.indices@.len() as int / 3
    }

    /// The index list is a whole number of triangles and every index names a
    /// vertex.
    pub open spec fn wf(&self) -> bool {
        &&& self.indices@.len() % 3 == 0
        &&& forall|i: int| 0 <= i < self.indices@.len() ==> self.indices@[i] < self.vertex_count()
    }

    /// Whether the variant is well formed.
    pub fn is_well_formed(&self) -> (r: bool)
        ensures
            r == self.wf(),
    {
        if self.indices.len() % 3 != 0 {
            return false;
        }
        let n = self.positions.len() / 3;
        let mut i: usize = 0;
        while i < self.indices.len()
            invariant
                i <= self.indices@.len(),
                n == self.vertex_count(),
                forall|k: int| 0 <= k < i ==> self.indices@[k] < n,
            decreases self.indices@.len() - i,
        {
            if self.indices[i] as usize >= n {
                return false;
            }
            i += 1;
        }
        true
    }
}

/// A single-variant palette entry as the host hands it over.
pub struct PaletteEntry {
    pub index: u32,
    pub occlusion_flags: u32,
    pub positions: Vec<i32>,
    pub normals: Vec<i32>,
    pub uvs: Vec<i32>,
    pub indices: Vec<u32>,
    pub material_index: u32,
    pub vertex_count: u32,
}

impl PaletteEntry {
    /// Builds the entry; its vertex count is the number of position triples.
    pub fn new(
        index: u32,
        occlusion_flags: u32,
        positions: Vec<i32>,
        normals: Vec<i32>,
        uvs: Vec<i32>,
        indices: Vec<u32>,
        material_index: u32,
    ) -> (r: PaletteEntry)
        ensures
            r.index == index,
            r.occlusion_flags == occlusion_flags,
            r.positions@ == positions@,
            r.normals@ == normals@,
            r.uvs@ == uvs@,
            r.indices@ == indices@,
            r.material_index == material_index,
            r.vertex_count == (positions@.len() / 3) as u32,
    {
        let vertex_count = (positions.len() / 3) as u32;
        PaletteEntry {
            index,
            occlusion_flags,
            positions,
            normals,
            uvs,
            indices,
            material_index,
            vertex_count,
        }
    }
}

/// A catalog update record; absent fields take their defaults.
pub struct PaletteRecord {
    pub index: u32,
    pub occlusion_flags: Option<u32>,
    pub category: Option<String>,
    pub geometries: Vec<GeometryVariant>,
}

/// What the catalog holds for one voxel type.
pub struct CatalogEntry {
    pub occlusion_flags: u32,
    pub category: String,
    pub geometries: Vec<GeometryVariant>,
}

/// The category given to entries that name none.
pub open spec fn default_category() -> Seq<char> {
    "solid"@
}

/// The category whose voxels go through the greedy mesher.
pub fn solid_category() -> (r: &'static str)
    ensures
        r@ == default_category(),
{
    "solid"
}

/// Every variant of the list is well formed.
pub open spec fn variants_wf(gs: Seq<GeometryVariant>) -> bool {
    forall|g: int| 0 <= g < gs.len() ==> (#[trigger] gs[g]).wf()
}

/// The entry is what the record describes once its defaults are applied.
pub open spec fn entry_from_record(e: CatalogEntry, r: PaletteRecord) -> bool {
    &&& e.occlusion_flags == match r.occlusion_flags {
        Some(f) => f,
        None => 0u32,
    }
    &&& e.category@ == match r.category {
        Some(c) => c@,
        None => default_category(),
    }
    &&& e.geometries@ == r.geometries@
}

/// One past the largest index among the records (0 for none).
pub open spec fn records_len(rs: Seq<PaletteRecord>) -> int
    decreases rs.len(),
{
    if rs.len() == 0 {
        0
    } else {
        let rest = records_len(rs.subrange(1, rs.len() as int));
        if rs[0].index + 1 > rest {
            rs[0].index + 1
        } else {
            rest
        }
    }
}

/// The last record with index `i`, if any.
pub open spec fn last_record(rs: Seq<PaletteRecord>, i: int) -> Option<PaletteRecord>
    decreases rs.len(),
{
    if rs.len() == 0 {
        None
    } else {
        match last_record(rs.subrange(1, rs.len() as int), i) {
            Some(r) => Some(r),
            None => if rs[0].index == i {
                Some(rs[0])
            } else {
                None
            },
        }
    }
}

/// The slot holds what the record (if any) describes.
pub open spec fn slot_from_record(slot: Option<CatalogEntry>, r: Option<PaletteRecord>) -> bool {
    match r {
        None => slot is None,
        Some(r) => slot matches Some(e) && entry_from_record(e, r),
    }
}

/// The slot is empty or holds well-formed geometry.
pub open spec fn slot_wf(slot: Option<CatalogEntry>) -> bool {
    slot matches Some(e) ==> variants_wf(e.geometries@)
}

/// A record found for an index lies below the catalog length.
proof fn lemma_last_record_in_range(rs: Seq<PaletteRecord>, i: int)
    requires
        last_record(rs, i) is Some,
    ensures
        i < records_len(rs),
        last_record(rs, i) matches Some(r) && r.index == i,
    decreases rs.len(),
{
    let rest = rs.subrange(1, rs.len() as int);
    if last_record(rest, i) is Some {
        lemma_last_record_in_range(rest, i);
    }
}

/// A catalog indexed by voxel type; absent types hold `None`.
pub struct GeometryCatalog {
    pub entries: Vec<Option<CatalogEntry>>,
}

impl GeometryCatalog {
    /// Every present entry has well-formed geometry.
    pub open spec fn wf(&self) -> bool {
        forall|t: int| 0 <= t < self.entries@.len() ==> slot_wf(#[trigger] self.entries@[t])
    }

    /// The entry of voxel type `t`, if the catalog has one.
    pub open spec fn spec_entry(&self, t: int) -> Option<CatalogEntry> {
        if 0 <= t < self.entries@.len() {
            self.entries@[t]
        } else {
            None
        }
    }

    /// An empty catalog.
    pub fn new() -> (r: GeometryCatalog)
        ensures
            r.entries@.len() == 0,
            r.wf(),
    {
        GeometryCatalog { entries: Vec::new() }
    }

    /// The entry of voxel type `t`; `None` for an absent or out-of-range type.
    pub fn entry(&self, t: i64) -> (r: Option<&CatalogEntry>)
        ensures
            r matches Some(e) ==> self.spec_entry(t as int) == Some(*e),
            r is None ==> self.spec_entry(t as int) is None,
    {
        if t < 0 || t as u64 >= self.entries.len() as u64 {
            None
        } else {
            match &self.entries[t as usize] {
                Some(e) => Some(e),
                None => None,
            }
        }
    }

    /// Replaces the whole catalog by the records: the catalog is sized to one
    /// past the largest index, each index holds its last record with defaults
    /// applied (no occlusion, category "solid"), and the other indices hold
    /// nothing.
    pub fn update(&mut self, records: Vec<PaletteRecord>)
        requires
            forall|k: int| 0 <= k < records@.len() ==> (#[trigger] records@[k]).index < usize::MAX,
            forall|k: int| 0 <= k < records@.len() ==> variants_wf((#[trigger] records@[k]).geometries@),
        ensures
            final(self).wf(),
            final(self).entries@.len() == records_len(records@),
            forall|i: int|
                0 <= i < final(self).entries@.len() ==> slot_from_record(
                    #[trigger] final(self).entries@[i],
                    last_record(records@, i),
                ),
    {
        let ghost all = records@;
        let mut records = records;
        let mut entries: Vec<Option<CatalogEntry>> = Vec::new();
        while records.len() > 0
            invariant
                all.len() >= records@.len(),
                records@ == all.subrange(0, records@.len() as int),
                forall|k: int| 0 <= k < all.len() ==> (#[trigger] all[k]).index < usize::MAX,
                forall|k: int| 0 <= k < all.len() ==> variants_wf((#[trigger] all[k]).geometries@),
                entries@.len() == records_len(all.subrange(records@.len() as int, all.len() as int)),
                forall|t: int| 0 <= t < entries@.len() ==> slot_wf(#[trigger] entries@[t]),
                forall|i: int|
                    0 <= i < entries@.len() ==> slot_from_record(
                        #[trigger] entries@[i],
                        last_record(all.subrange(records@.len() as int, all.len() as int), i),
                    ),
            decreases records@.len(),
        {
            let ghost k = (records@.len() - 1) as int;
            let ghost before = entries@;
            let ghost old_suffix = all.subrange(k + 1, all.len() as int);
            let ghost suffix = all.subrange(k, all.len() as int);
            let r = records.pop().unwrap();
            proof {
                assert(r == all[k]);
                assert(suffix.subrange(1, suffix.len() as int) =~= old_suffix);
                assert(suffix[0] == r);
            }
            let idx = r.index as usize;
            while entries.len() <= idx
                invariant
                    entries@.len() >= before.len(),
                    entries@.len() <= idx + 1 || entries@.len() == before.len(),
                    forall|t: int| 0 <= t < before.len() ==> entries@[t] == before[t],
                    forall|t: int| before.len() <= t < entries@.len() ==> entries@[t] is None,
                    idx < usize::MAX,
                decreases idx + 1 - entries@.len(),
            {
                entries.push(None);
            }
            let unset = entries[idx].is_none();
            if unset {
                let occlusion_flags = match r.occlusion_flags {
                    Some(f) => f,
                    None => 0,
                };
                let category = match r.category {
                    Some(c) => c,
                    None => String::from_str(solid_category()),
                };
                let e = CatalogEntry { occlusion_flags, category, geometries: r.geometries };
                entries.set(idx, Some(e));
            }
            proof {
                assert(entries@.len() == records_len(suffix));
                assert forall|i: int| 0 <= i < entries@.len() implies slot_from_record(
                    #[trigger] entries@[i],
                    last_record(suffix, i),
                ) && slot_wf(entries@[i]) by {
                    if last_record(old_suffix, i) is Some {
                        lemma_last_record_in_range(old_suffix, i);
                    }
                    if i < before.len() {
                        assert(slot_from_record(before[i], last_record(old_suffix, i)));
                        assert(slot_wf(before[i]));
                    }
                    if i == idx && unset {
                        assert(variants_wf(all[k].geometries@));
                    }
                }
            }
        }
        proof {
            assert(all.subrange(0, all.len() as int) =~= all);
        }
        self.entries = entries;
    }
}

} // verus!
