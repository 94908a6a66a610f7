//! The mesh builder: the catalog snapshot, chunk builds with either merger,
//! and batch accumulation across chunks.
use vstd::prelude::*;
use crate::catalog::{GeometryCatalog, GeometryVariant, PaletteRecord, default_category, solid_category, variants_wf, records_len, last_record, slot_from_record};
use crate::grid::{VoxelGrid, block_count, comp, grid_fits, calculate_bounds};
use crate::mesh::{MeshView, MergedMesh, mesh_wf, empty_view, merge_view, lemma_groups_partition};
use crate::encode::groups_total;
use crate::naive::{BuildError, mesh_fits, naive_view, merge_category, types_present};
use crate::greedy::{greedy_view, build_solid, one_voxel, lemma_single_voxel_six_quads};

verus! {

/// Type `t` occurs among the chunk's voxels.
pub open spec fn type_present(blocks: Seq<i32>, t: int) -> bool {
    exists|i: int| 0 <= i < block_count(blocks) && comp(blocks, i, 3) == t
}

/// The categories of the voxel types below `k` that occur in the chunk and
/// are in the catalog, in order of first appearance by ascending type; the
/// solid category is left out when `skip_solid` holds.
pub open spec fn chunk_categories(cat: GeometryCatalog, blocks: Seq<i32>, skip_solid: bool, k: int) -> Seq<Seq<char>>
    decreases k,
{
    if k <= 0 {
        Seq::empty()
    } else {
        let prev = chunk_categories(cat, blocks, skip_solid, k - 1);
        match cat.spec_entry(k - 1) {
            Some(e) => if type_present(blocks, k - 1) && !(skip_solid && e.category@
                == default_category()) && !prev.contains(e.category@) {
                prev.push(e.category@)
            } else {
                prev
            },
            None => prev,
        }
    }
}

/// The vertices of the first `k` variants of the list, counted before any
/// culling.
pub open spec fn variants_vertices(gs: Seq<GeometryVariant>, k: int) -> int
    decreases k,
{
    if k <= 0 {
        0
    } else {
        variants_vertices(gs, k - 1) + gs[k - 1].vertex_count()
    }
}

/// The vertices, counted before culling, of the variants that voxel `i`
/// uses when its type belongs to category `c`; 0 otherwise.
pub open spec fn voxel_vertices(cat: GeometryCatalog, blocks: Seq<i32>, c: Seq<char>, i: int) -> int {
    match cat.spec_entry(comp(blocks, i, 3)) {
        Some(e) => if e.category@ == c {
            variants_vertices(e.geometries@, e.geometries@.len() as int)
        } else {
            0
        },
        None => 0,
    }
}

/// The vertices, counted before culling, of the variants that the first
/// `k` voxels of category `c` use.
pub open spec fn category_vertices(cat: GeometryCatalog, blocks: Seq<i32>, c: Seq<char>, k: int) -> int
    decreases k,
{
    if k <= 0 {
        0
    } else {
        category_vertices(cat, blocks, c, k - 1) + voxel_vertices(cat, blocks, c, k - 1)
    }
}

/// The naive meshes of the first `k` categories of `cs` whose voxels use
/// variants holding at least one vertex before culling, each with its
/// category; such a mesh is kept even when culling leaves it empty.
pub open spec fn naive_meshes(
    cat: GeometryCatalog,
    blocks: Seq<i32>,
    o: (i32, i32, i32),
    cs: Seq<Seq<char>>,
    k: int,
) -> Seq<(Seq<char>, MeshView)>
    decreases k,
{
    if k <= 0 {
        Seq::empty()
    } else {
        let prev = naive_meshes(cat, blocks, o, cs, k - 1);
        let m = naive_view(cat, blocks, o, cs[k - 1]);
        if category_vertices(cat, blocks, cs[k - 1], block_count(blocks)) > 0 {
            prev.push((cs[k - 1], m))
        } else {
            prev
        }
    }
}

/// The naive mesh of every listed category fits 32-bit counts.
pub open spec fn all_fit(cat: GeometryCatalog, blocks: Seq<i32>, o: (i32, i32, i32), cs: Seq<Seq<char>>) -> bool {
    forall|i: int| 0 <= i < cs.len() ==> mesh_fits(#[trigger] naive_view(cat, blocks, o, cs[i]))
}

/// The categories and contents of a list of meshes.
pub open spec fn meshes_view(ms: Seq<MergedMesh>) -> Seq<(Seq<char>, MeshView)> {
    Seq::new(ms.len(), |i: int| (ms[i].category@, ms[i].view()))
}

/// The contents of the strings.
pub open spec fn strings_view(ss: Seq<String>) -> Seq<Seq<char>> {
    Seq::new(ss.len(), |i: int| ss[i]@)
}

/// Every mesh of the list is well formed.
pub open spec fn meshes_wf(ms: Seq<MergedMesh>) -> bool {
    forall|i: int| 0 <= i < ms.len() ==> mesh_wf((#[trigger] ms[i]).view())
}

/// Every mesh of the list holds at least one vertex.
pub open spec fn meshes_nonempty(ms: Seq<MergedMesh>) -> bool {
    forall|i: int| 0 <= i < ms.len() ==> (#[trigger] ms[i]).vertex_count > 0
}

/// Whether the variants that the chunk's voxels of category `c` use hold at
/// least one vertex, counted before culling.
fn has_vertices(cat: &GeometryCatalog, blocks: &Vec<i32>, c: &String) -> (r: bool)
    ensures
        r == (category_vertices(*cat, blocks@, c@, block_count(blocks@)) > 0),
{
    let n = blocks.len() / 4;
    assert(4 * n <= blocks@.len());
    let mut found = false;
    let mut i: usize = 0;
    while i < n
        invariant
            i <= n,
            n == block_count(blocks@),
            4 * n <= blocks@.len(),
            4 * n <= usize::MAX,
            found == (category_vertices(*cat, blocks@, c@, i as int) > 0),
            category_vertices(*cat, blocks@, c@, i as int) >= 0,
        decreases n - i,
    {
        let ghost vv = voxel_vertices(*cat, blocks@, c@, i as int);
        match cat.entry(blocks[4 * i + 3] as i64) {
            Some(e) => {
                if e.category.eq(c) {
                    let ghost gs = e.geometries@;
                    let mut any = false;
                    let mut g: usize = 0;
                    while g < e.geometries.len()
                        invariant
                            g <= gs.len(),
                            gs == e.geometries@,
                            any == (variants_vertices(gs, g as int) > 0),
                            variants_vertices(gs, g as int) >= 0,
                        decreases gs.len() - g,
                    {
                        if e.geometries[g].positions.len() >= 3 {
                            any = true;
                        }
                        g += 1;
                    }
                    found = found || any;
                } else {
                    assert(vv == 0);
                }
            },
            None => {
                assert(vv == 0);
            },
        }
        i += 1;
    }
    found
}

/// No two meshes of the list share a category.
pub open spec fn categories_distinct(ms: Seq<MergedMesh>) -> bool {
    forall|i: int, j: int| 0 <= i < j < ms.len() ==> (#[trigger] ms[i]).category@ != (#[trigger] ms[j]).category@
}

/// The categories of a chunk built with the naive merger alone.
pub open spec fn naive_categories(cat: GeometryCatalog, blocks: Seq<i32>) -> Seq<Seq<char>> {
    chunk_categories(cat, blocks, false, cat.entries@.len() as int)
}

/// The categories that a greedy build merges naively: all but solid.
pub open spec fn greedy_categories(cat: GeometryCatalog, blocks: Seq<i32>) -> Seq<Seq<char>> {
    chunk_categories(cat, blocks, true, cat.entries@.len() as int)
}

/// The meshes of a chunk built with the naive merger: one per category, in
/// category order, for each category whose voxels use variants holding a
/// vertex before culling (its mesh may be empty after culling).
pub open spec fn chunk_meshes(cat: GeometryCatalog, blocks: Seq<i32>, o: (i32, i32, i32)) -> Seq<(Seq<char>, MeshView)> {
    let cs = naive_categories(cat, blocks);
    naive_meshes(cat, blocks, o, cs, cs.len() as int)
}

/// The meshes of a chunk built greedily: the solid mesh first when it holds
/// geometry, then the other categories' naive meshes.
pub open spec fn greedy_chunk_meshes(cat: GeometryCatalog, blocks: Seq<i32>, o: (i32, i32, i32)) -> Seq<(Seq<char>, MeshView)> {
    let cs = greedy_categories(cat, blocks);
    let g = greedy_view(cat, blocks, o);
    let solid = if g.vertex_count > 0 {
        Seq::empty().push((default_category(), g))
    } else {
        Seq::empty()
    };
    solid + naive_meshes(cat, blocks, o, cs, cs.len() as int)
}

/// Whether the list holds a string with the same contents as `c`.
fn contains_string(ss: &Vec<String>, c: &String) -> (r: bool)
    ensures
        r == strings_view(ss@).contains(c@),
{
    let mut k: usize = 0;
    while k < ss.len()
        invariant
            k <= ss@.len(),
            forall|j: int| 0 <= j < k ==> ss@[j]@ != c@,
        decreases ss@.len() - k,
    {
        if ss[k].eq(c) {
            assert(strings_view(ss@)[k as int] == c@);
            return true;
        }
        k += 1;
    }
    proof {
        if strings_view(ss@).contains(c@) {
            let j = choose|j: int| 0 <= j < strings_view(ss@).len() && strings_view(ss@)[j] == c@;
            assert(ss@[j]@ == c@);
        }
    }
    false
}

/// The categories of the chunk, as `chunk_categories` lists them.
fn collect_categories(
    cat: &GeometryCatalog,
    blocks: &Vec<i32>,
    skip_solid: bool,
    solid: &String,
) -> (r: Vec<String>)
    requires
        solid@ == default_category(),
    ensures
        strings_view(r@) == chunk_categories(*cat, blocks@, skip_solid, cat.entries@.len() as int),
{
    let ntypes = cat.entries.len();
    let present = types_present(blocks, ntypes);
    let mut out: Vec<String> = Vec::new();
    let mut t: usize = 0;
    while t < ntypes
        invariant
            t <= ntypes,
            ntypes == cat.entries@.len(),
            solid@ == default_category(),
            present@.len() == ntypes,
            forall|t: int|
                0 <= t < ntypes ==> (#[trigger] present@[t] <==> exists|i: int|
                    0 <= i < block_count(blocks@) && comp(blocks@, i, 3) == t),
            strings_view(out@) == chunk_categories(*cat, blocks@, skip_solid, t as int),
        decreases ntypes - t,
    {
        let ghost prev = out@;
        if present[t] {
            match &cat.entries[t] {
                Some(e) => {
                    let is_solid = e.category.eq(solid);
                    if !(skip_solid && is_solid) && !contains_string(&out, &e.category) {
                        out.push(e.category.clone());
                        proof {
                            assert(strings_view(out@) =~= strings_view(prev).push(e.category@));
                        }
                    }
                },
                None => {},
            }
        }
        t += 1;
    }
    out
}

/// Merges each listed category naively and appends to `out` the mesh of
/// each category whose voxels use variants holding a vertex before culling. Fails when one of them does not fit 32-bit counts.
fn merge_categories(
    cat: &GeometryCatalog,
    grid: &VoxelGrid,
    blocks: &Vec<i32>,
    cats: &Vec<String>,
    origin: (i32, i32, i32),
    out: &mut Vec<MergedMesh>,
) -> (r: Result<(), BuildError>)
    requires
        cat.wf(),
        grid.of_chunk(blocks@),
        block_count(blocks@) > 0,
        meshes_wf(old(out)@),
    ensures
        r is Ok ==> all_fit(*cat, blocks@, origin, strings_view(cats@)) && meshes_view(final(out)@)
            == meshes_view(old(out)@) + naive_meshes(*cat, blocks@, origin, strings_view(cats@), cats@.len() as int)
            && meshes_wf(final(out)@),
        r is Err ==> r == Err::<(), BuildError>(BuildError::MeshTooLarge) && !all_fit(
            *cat,
            blocks@,
            origin,
            strings_view(cats@),
        ),
{
    let ghost cs = strings_view(cats@);
    let ghost out0 = out@;
    let mut k: usize = 0;
    while k < cats.len()
        invariant
            k <= cats@.len(),
            cs == strings_view(cats@),
            cat.wf(),
            grid.of_chunk(blocks@),
            block_count(blocks@) > 0,
            out0 == old(out)@,
            forall|i: int| 0 <= i < k ==> mesh_fits(#[trigger] naive_view(*cat, blocks@, origin, cs[i])),
            meshes_view(out@) == meshes_view(out0) + naive_meshes(*cat, blocks@, origin, cs, k as int),
            meshes_wf(out@),
        decreases cats@.len() - k,
    {
        match merge_category(cat, grid, blocks, &cats[k], origin) {
            Ok(m) => {
                let ghost before = out@;
                assert(cs[k as int] == cats@[k as int]@);
                if has_vertices(cat, blocks, &cats[k]) {
                    out.push(m);
                    proof {
                        assert(meshes_view(out@) =~= meshes_view(before).push((cs[k as int], m.view())));
                    }
                }
            },
            Err(e) => {
                assert(cs[k as int] == cats@[k as int]@);
                return Err(e);
            },
        }
        k += 1;
    }
    Ok(())
}

/// Whether the padded grid of a non-empty chunk fits memory addressing.
pub fn chunk_grid_fits(blocks: &Vec<i32>) -> (r: bool)
    requires
        block_count(blocks@) > 0,
    ensures
        r == grid_fits(blocks@),
{
    let b = calculate_bounds(blocks);
    let dx = (b.max_x as i64 - b.min_x as i64 + 3) as u64;
    let dy = (b.max_y as i64 - b.min_y as i64 + 3) as u64;
    let dz = (b.max_z as i64 - b.min_z as i64 + 3) as u64;
    match dx.checked_mul(dy) {
        None => {
            proof {
                assert(dx * dy * dz >= dx * dy) by (nonlinear_arith)
                    requires
                        dz >= 1,
                        dx * dy >= 0,
                ;
            }
            false
        },
        Some(a) => match a.checked_mul(dz) {
            None => false,
            Some(v) => v <= usize::MAX as u64,
        },
    }
}

/// The first accumulator of category `c`, or -1 when there is none.
pub open spec fn acc_index(accs: Seq<(Seq<char>, MeshView)>, c: Seq<char>) -> int
    decreases accs.len(),
{
    if accs.len() == 0 {
        -1
    } else {
        let r = acc_index(accs.drop_last(), c);
        if r >= 0 {
            r
        } else if accs.last().0 == c {
            accs.len() - 1
        } else {
            -1
        }
    }
}

/// `acc_index` is the first position of the category, or -1 when it is
/// absent.
pub proof fn lemma_acc_index(a: Seq<(Seq<char>, MeshView)>, c: Seq<char>)
    ensures
        -1 <= acc_index(a, c) < a.len(),
        acc_index(a, c) >= 0 ==> a[acc_index(a, c)].0 == c && forall|i: int|
            0 <= i < acc_index(a, c) ==> a[i].0 != c,
        acc_index(a, c) < 0 ==> forall|i: int| 0 <= i < a.len() ==> a[i].0 != c,
    decreases a.len(),
{
    if a.len() > 0 {
        let p = a.drop_last();
        lemma_acc_index(p, c);
        assert forall|i: int| 0 <= i < p.len() implies p[i] == a[i] by {}
    }
}

/// The first position holding the category is `acc_index`.
pub proof fn lemma_acc_index_first(a: Seq<(Seq<char>, MeshView)>, c: Seq<char>, k: int)
    requires
        0 <= k < a.len(),
        a[k].0 == c,
        forall|i: int| 0 <= i < k ==> a[i].0 != c,
    ensures
        acc_index(a, c) == k,
{
    lemma_acc_index(a, c);
    let j = acc_index(a, c);
    if j < 0 {
        assert(a[k].0 != c);
    } else if j < k {
        assert(a[j].0 != c);
    } else if j > k {
        assert(a[k].0 != c);
    }
}

/// The accumulated buffers of category `c` (empty when there are none).
pub open spec fn acc_of(accs: Seq<(Seq<char>, MeshView)>, c: Seq<char>) -> MeshView {
    let j = acc_index(accs, c);
    if j >= 0 {
        accs[j].1
    } else {
        empty_view()
    }
}

/// Folding mesh `m` of category `c` into the accumulators fits 32-bit
/// counts.
pub open spec fn step_fits(accs: Seq<(Seq<char>, MeshView)>, c: Seq<char>, m: MeshView) -> bool {
    &&& acc_of(accs, c).vertex_count + m.vertex_count <= u32::MAX
    &&& acc_of(accs, c).indices.len() + m.indices.len() <= u32::MAX
}

/// The accumulators after mesh `m` of category `c` is folded in: appended to
/// the category's accumulator, or to a new one at the end.
pub open spec fn absorb_one(accs: Seq<(Seq<char>, MeshView)>, c: Seq<char>, m: MeshView) -> Seq<(Seq<char>, MeshView)> {
    let j = acc_index(accs, c);
    if j >= 0 {
        accs.update(j, (accs[j].0, merge_view(accs[j].1, m)))
    } else {
        accs.push((c, merge_view(empty_view(), m)))
    }
}

/// The accumulators after the first `k` meshes of `ms` are folded in; a
/// mesh without vertices is passed over.
pub open spec fn absorb_list(accs: Seq<(Seq<char>, MeshView)>, ms: Seq<(Seq<char>, MeshView)>, k: int) -> Seq<(Seq<char>, MeshView)>
    decreases k,
{
    if k <= 0 {
        accs
    } else {
        let prev = absorb_list(accs, ms, k - 1);
        if ms[k - 1].1.vertex_count == 0 {
            prev
        } else {
            absorb_one(prev, ms[k - 1].0, ms[k - 1].1)
        }
    }
}

/// Each of the first `k` folds that is not passed over fits 32-bit counts.
pub open spec fn list_fits(accs: Seq<(Seq<char>, MeshView)>, ms: Seq<(Seq<char>, MeshView)>, k: int) -> bool {
    forall|i: int| 0 <= i < k && ms[i].1.vertex_count > 0 ==> step_fits(#[trigger] absorb_list(accs, ms, i), ms[i].0, ms[i].1)
}

/// Folds mesh `m` into the accumulator of its category.
fn absorb_into(accs: &mut Vec<MergedMesh>, m: MergedMesh) -> (r: Result<(), BuildError>)
    requires
        meshes_wf(old(accs)@),
        meshes_nonempty(old(accs)@),
        categories_distinct(old(accs)@),
        mesh_wf(m.view()),
        m.vertex_count > 0,
    ensures
        categories_distinct(final(accs)@),
        meshes_nonempty(final(accs)@),
        r is Ok ==> step_fits(meshes_view(old(accs)@), m.category@, m.view()) && meshes_view(final(accs)@)
            == absorb_one(meshes_view(old(accs)@), m.category@, m.view()) && meshes_wf(final(accs)@),
        r is Err ==> r == Err::<(), BuildError>(BuildError::MeshTooLarge) && !step_fits(
            meshes_view(old(accs)@),
            m.category@,
            m.view(),
        ) && final(accs)@ == old(accs)@,
{
    let ghost av = meshes_view(accs@);
    let mut k: usize = 0;
    let mut found = false;
    while k < accs.len() && !found
        invariant
            k <= accs@.len(),
            av == meshes_view(accs@),
            accs@ == old(accs)@,
            forall|i: int| 0 <= i < k ==> accs@[i].category@ != m.category@,
            found ==> k < accs@.len() && accs@[k as int].category@ == m.category@,
        decreases accs@.len() - k + (if found { 0int } else { 1 }),
    {
        if accs[k].category.eq(&m.category) {
            found = true;
        } else {
            k += 1;
        }
    }
    proof {
        lemma_acc_index(av, m.category@);
        if found {
            lemma_acc_index_first(av, m.category@, k as int);
        } else {
            if acc_index(av, m.category@) >= 0 {
                assert(accs@[acc_index(av, m.category@)].category@ == m.category@);
            }
        }
    }
    if found {
        if !accs[k].fits_after(m.vertex_count as usize, m.indices.len()) {
            return Err(BuildError::MeshTooLarge);
        }
        let ghost before = accs@;
        let mut a = accs.remove(k);
        a.absorb(m);
        accs.insert(k, a);
        proof {
            assert(meshes_view(accs@) =~= absorb_one(av, m.category@, m.view()));
            assert(accs@ =~= before.update(k as int, a));
            assert forall|i: int| 0 <= i < accs@.len() implies (#[trigger] accs@[i]).category@ == before[i].category@ by {}
        }
    } else {
        let ghost before = accs@;
        let mut a = MergedMesh::new(m.category.clone());
        a.absorb(m);
        accs.push(a);
        proof {
            assert(meshes_view(accs@) =~= absorb_one(av, m.category@, m.view()));
            assert forall|i: int, j: int| 0 <= i < j < accs@.len() implies (#[trigger] accs@[i]).category@
                != (#[trigger] accs@[j]).category@ by {
                if j == before.len() {
                    assert(accs@[i] == before[i]);
                } else {
                    assert(accs@[i] == before[i] && accs@[j] == before[j]);
                }
            }
        }
    }
    Ok(())
}

/// Folds the meshes, in order, into the accumulators. On failure the
/// meshes before the first one that does not fit have been folded in.
fn absorb_all(accs: &mut Vec<MergedMesh>, ms: Vec<MergedMesh>) -> (r: Result<(), BuildError>)
    requires
        meshes_wf(old(accs)@),
        meshes_nonempty(old(accs)@),
        categories_distinct(old(accs)@),
        meshes_wf(ms@),
    ensures
        meshes_wf(final(accs)@),
        meshes_nonempty(final(accs)@),
        categories_distinct(final(accs)@),
        r is Ok ==> list_fits(meshes_view(old(accs)@), meshes_view(ms@), ms@.len() as int) && meshes_view(
            final(accs)@,
        ) == absorb_list(meshes_view(old(accs)@), meshes_view(ms@), ms@.len() as int),
        r is Err ==> r == Err::<(), BuildError>(BuildError::MeshTooLarge) && exists|i: int|
            0 <= i < ms@.len() && meshes_view(ms@)[i].1.vertex_count > 0 && list_fits(meshes_view(old(accs)@), meshes_view(ms@), i) && !step_fits(
                absorb_list(meshes_view(old(accs)@), meshes_view(ms@), i),
                meshes_view(ms@)[i].0,
                meshes_view(ms@)[i].1,
            ) && meshes_view(final(accs)@) == absorb_list(meshes_view(old(accs)@), meshes_view(ms@), i),
{
    let ghost a0 = meshes_view(accs@);
    let ghost mv = meshes_view(ms@);
    let total = ms.len();
    let ghost n = ms@.len();
    let ghost ms0 = ms@;
    let mut rest = ms;
    let mut i: usize = 0;
    while rest.len() > 0
        invariant
            i + rest@.len() == n,
            n == mv.len(),
            n == total,
            mv == meshes_view(ms0),
            ms0 == ms@,
            meshes_wf(rest@),
            forall|k: int| 0 <= k < rest@.len() ==> (rest@[k].category@, rest@[k].view()) == mv[i + k],
            meshes_wf(accs@),
            meshes_nonempty(accs@),
            categories_distinct(accs@),
            a0 == meshes_view(old(accs)@),
            list_fits(a0, mv, i as int),
            meshes_view(accs@) == absorb_list(a0, mv, i as int),
        decreases rest@.len(),
    {
        let ghost before = rest@;
        let m = rest.remove(0);
        proof {
            assert(mv[i as int] == (m.category@, m.view()));
            assert forall|k: int| 0 <= k < rest@.len() implies (rest@[k].category@, rest@[k].view()) == mv[i + 1 + k] by {
                assert(rest@[k] == before[k + 1]);
            }
            assert forall|k: int| 0 <= k < rest@.len() implies mesh_wf((#[trigger] rest@[k]).view()) by {
                assert(rest@[k] == before[k + 1]);
            }
        }
        if m.vertex_count > 0 {
            match absorb_into(accs, m) {
                Ok(_) => {},
                Err(e) => {
                    proof {
                        assert(list_fits(a0, mv, i as int) && !step_fits(absorb_list(a0, mv, i as int), mv[i as int].0, mv[i as int].1)
                            && meshes_view(accs@) == absorb_list(a0, mv, i as int));
                    }
                    return Err(e);
                },
            }
        }
        proof {
            assert forall|q: int| 0 <= q < i + 1 && mv[q].1.vertex_count > 0 implies step_fits(#[trigger] absorb_list(a0, mv, q), mv[q].0, mv[q].1) by {
                if q < i {
                    assert(list_fits(a0, mv, i as int));
                }
            }
        }
        i += 1;
    }
    Ok(())
}

/// The outcome of a chunk build: the meshes and the origin they are
/// relative to.
pub struct BuildResult {
    pub meshes: Vec<MergedMesh>,
    pub origin: (i32, i32, i32),
}

/// Holds the catalog snapshot and, in batch mode, the meshes accumulated
/// per category across chunk builds.
pub struct MeshBuilder {
    pub catalog: GeometryCatalog,
    pub accumulators: Vec<MergedMesh>,
    pub batch_mode: bool,
}

impl MeshBuilder {
    /// The catalog's geometry is well formed, and every accumulator is well
    /// formed, holds at least one vertex and has a category of its own.
    pub open spec fn wf(&self) -> bool {
        self.catalog.wf() && meshes_wf(self.accumulators@) && meshes_nonempty(self.accumulators@) && categories_distinct(
            self.accumulators@,
        )
    }

    /// A builder with an empty catalog, outside batch mode.
    pub fn new() -> (r: MeshBuilder)
        ensures
            r.wf(),
            r.catalog.entries@.len() == 0,
            r.accumulators@.len() == 0,
            !r.batch_mode,
    {
        MeshBuilder { catalog: GeometryCatalog::new(), accumulators: Vec::new(), batch_mode: false }
    }

    /// Opens a batch, discarding whatever an open batch had accumulated.
    pub fn start_batch(&mut self)
        requires
            old(self).wf(),
        ensures
            final(self).wf(),
            final(self).batch_mode,
            final(self).accumulators@.len() == 0,
            final(self).catalog == old(self).catalog,
    {
        self.batch_mode = true;
        self.accumulators = Vec::new();
    }

    /// Closes the batch without producing output.
    pub fn clear_batch(&mut self)
        requires
            old(self).wf(),
        ensures
            final(self).wf(),
            !final(self).batch_mode,
            final(self).accumulators@.len() == 0,
            final(self).catalog == old(self).catalog,
    {
        self.accumulators = Vec::new();
        self.batch_mode = false;
    }

    /// Whether a batch is open.
    pub fn is_batch_mode(&self) -> (r: bool)
        ensures
            r == self.batch_mode,
    {
        self.batch_mode
    }

    /// Closes the batch and hands out one mesh per category accumulated (no
    /// two with the same category, none empty), in order of first appearance; the result's origin is `(0, 0, 0)`.
    pub fn finish_batch(&mut self) -> (r: BuildResult)
        requires
            old(self).wf(),
        ensures
            final(self).wf(),
            !final(self).batch_mode,
            final(self).accumulators@.len() == 0,
            final(self).catalog == old(self).catalog,
            meshes_view(r.meshes@) == meshes_view(old(self).accumulators@),
            meshes_wf(r.meshes@),
            meshes_nonempty(r.meshes@),
            categories_distinct(r.meshes@),
            r.origin == (0i32, 0i32, 0i32),
    {
        self.batch_mode = false;
        let mut meshes: Vec<MergedMesh> = Vec::new();
        core::mem::swap(&mut meshes, &mut self.accumulators);
        BuildResult { meshes, origin: (0, 0, 0) }
    }

    /// Replaces the whole catalog by the records (see
    /// `GeometryCatalog::update`); the batch state is untouched.
    pub fn update_palette(&mut self, records: Vec<PaletteRecord>)
        requires
            old(self).wf(),
            forall|k: int| 0 <= k < records@.len() ==> (#[trigger] records@[k]).index < usize::MAX,
            forall|k: int| 0 <= k < records@.len() ==> variants_wf((#[trigger] records@[k]).geometries@),
        ensures
            final(self).wf(),
            final(self).catalog.entries@.len() == records_len(records@),
            forall|i: int|
                0 <= i < final(self).catalog.entries@.len() ==> slot_from_record(
                    #[trigger] final(self).catalog.entries@[i],
                    last_record(records@, i),
                ),
            final(self).batch_mode == old(self).batch_mode,
            final(self).accumulators@ == old(self).accumulators@,
    {
        self.catalog.update(records);
    }

    /// Builds a chunk with the naive merger for every category. An empty
    /// voxel list gives no meshes and origin `(0, 0, 0)`. Otherwise the
    /// meshes are those of `chunk_meshes`, relative to the origin, which the
    /// result echoes; in batch mode they are folded into the accumulators
    /// instead (meshes without vertices are passed over) and the result
    /// holds none. Fails when the padded grid or a
    /// mesh (or, in batch mode, an accumulator) exceeds what can be
    /// addressed.
    pub fn build_chunk(&mut self, blocks: &Vec<i32>, origin_x: i32, origin_y: i32, origin_z: i32) -> (r: Result<BuildResult, BuildError>)
        requires
            old(self).wf(),
        ensures
            final(self).wf(),
            final(self).catalog == old(self).catalog,
            final(self).batch_mode == old(self).batch_mode,
            ({
                let o = (origin_x, origin_y, origin_z);
                let exp = chunk_meshes(old(self).catalog, blocks@, o);
                let acc0 = meshes_view(old(self).accumulators@);
                match r {
                    Ok(res) => meshes_wf(res.meshes@) && if block_count(blocks@) == 0 {
                        res.meshes@.len() == 0 && res.origin == (0i32, 0i32, 0i32)
                            && final(self).accumulators@ == old(self).accumulators@
                    } else {
                        &&& grid_fits(blocks@)
                        &&& all_fit(old(self).catalog, blocks@, o, naive_categories(old(self).catalog, blocks@))
                        &&& res.origin == o
                        &&& !old(self).batch_mode ==> meshes_view(res.meshes@) == exp
                            && final(self).accumulators@ == old(self).accumulators@
                        &&& old(self).batch_mode ==> res.meshes@.len() == 0 && list_fits(acc0, exp, exp.len() as int)
                            && meshes_view(final(self).accumulators@) == absorb_list(acc0, exp, exp.len() as int)
                    },
                    Err(e) => block_count(blocks@) > 0 && if e == BuildError::GridTooLarge {
                        !grid_fits(blocks@) && final(self).accumulators@ == old(self).accumulators@
                    } else {
                        grid_fits(blocks@) && (!all_fit(old(self).catalog, blocks@, o, naive_categories(old(self).catalog, blocks@))
                            || (old(self).batch_mode && exists|i: int|
                                0 <= i < exp.len() && list_fits(acc0, exp, i) && !step_fits(absorb_list(acc0, exp, i), exp[i].0, exp[i].1)
                                    && meshes_view(final(self).accumulators@) == absorb_list(acc0, exp, i)))
                    },
                }
            }),
    {
        let origin = (origin_x, origin_y, origin_z);
        if blocks.len() / 4 == 0 {
            return Ok(BuildResult { meshes: Vec::new(), origin: (0, 0, 0) });
        }
        if !chunk_grid_fits(blocks) {
            return Err(BuildError::GridTooLarge);
        }
        let grid = VoxelGrid::build(blocks);
        let solid = String::from_str(solid_category());
        let cats = collect_categories(&self.catalog, blocks, false, &solid);
        let mut meshes: Vec<MergedMesh> = Vec::new();
        proof {
            assert(meshes_view(meshes@) =~= Seq::empty());
        }
        match merge_categories(&self.catalog, &grid, blocks, &cats, origin, &mut meshes) {
            Ok(_) => {},
            Err(e) => {
                return Err(e);
            },
        }
        proof {
            assert(meshes_view(meshes@) =~= chunk_meshes(self.catalog, blocks@, origin));
        }
        if self.batch_mode {
            match absorb_all(&mut self.accumulators, meshes) {
                Ok(_) => {},
                Err(e) => {
                    return Err(e);
                },
            }
            Ok(BuildResult { meshes: Vec::new(), origin })
        } else {
            Ok(BuildResult { meshes, origin })
        }
    }

    /// Builds a chunk with the greedy mesher for solid voxels and the naive
    /// merger for every other category: the meshes are those of
    /// `greedy_chunk_meshes`; otherwise as `build_chunk`.
    pub fn build_chunk_greedy(&mut self, blocks: &Vec<i32>, origin_x: i32, origin_y: i32, origin_z: i32) -> (r: Result<BuildResult, BuildError>)
        requires
            old(self).wf(),
        ensures
            final(self).wf(),
            final(self).catalog == old(self).catalog,
            final(self).batch_mode == old(self).batch_mode,
            ({
                let o = (origin_x, origin_y, origin_z);
                let exp = greedy_chunk_meshes(old(self).catalog, blocks@, o);
                let acc0 = meshes_view(old(self).accumulators@);
                let fits = mesh_fits(greedy_view(old(self).catalog, blocks@, o)) && all_fit(
                    old(self).catalog,
                    blocks@,
                    o,
                    greedy_categories(old(self).catalog, blocks@),
                );
                match r {
                    Ok(res) => meshes_wf(res.meshes@) && if block_count(blocks@) == 0 {
                        res.meshes@.len() == 0 && res.origin == (0i32, 0i32, 0i32)
                            && final(self).accumulators@ == old(self).accumulators@
                    } else {
                        &&& grid_fits(blocks@)
                        &&& fits
                        &&& res.origin == o
                        &&& !old(self).batch_mode ==> meshes_view(res.meshes@) == exp
                            && final(self).accumulators@ == old(self).accumulators@
                        &&& old(self).batch_mode ==> res.meshes@.len() == 0 && list_fits(acc0, exp, exp.len() as int)
                            && meshes_view(final(self).accumulators@) == absorb_list(acc0, exp, exp.len() as int)
                    },
                    Err(e) => block_count(blocks@) > 0 && if e == BuildError::GridTooLarge {
                        !grid_fits(blocks@) && final(self).accumulators@ == old(self).accumulators@
                    } else {
                        grid_fits(blocks@) && (!fits || (old(self).batch_mode && exists|i: int|
                            0 <= i < exp.len() && list_fits(acc0, exp, i) && !step_fits(absorb_list(acc0, exp, i), exp[i].0, exp[i].1)
                                && meshes_view(final(self).accumulators@) == absorb_list(acc0, exp, i)))
                    },
                }
            }),
    {
        let origin = (origin_x, origin_y, origin_z);
        if blocks.len() / 4 == 0 {
            return Ok(BuildResult { meshes: Vec::new(), origin: (0, 0, 0) });
        }
        if !chunk_grid_fits(blocks) {
            return Err(BuildError::GridTooLarge);
        }
        let grid = VoxelGrid::build(blocks);
        let mut meshes: Vec<MergedMesh> = Vec::new();
        match build_solid(&self.catalog, &grid, blocks, origin) {
            Ok(m) => {
                if m.vertex_count > 0 {
                    meshes.push(m);
                }
            },
            Err(e) => {
                return Err(e);
            },
        }
        let ghost first = meshes_view(meshes@);
        let solid = String::from_str(solid_category());
        let cats = collect_categories(&self.catalog, blocks, true, &solid);
        match merge_categories(&self.catalog, &grid, blocks, &cats, origin, &mut meshes) {
            Ok(_) => {},
            Err(e) => {
                return Err(e);
            },
        }
        proof {
            let g = greedy_view(self.catalog, blocks@, origin);
            if g.vertex_count > 0 {
                assert(first =~= Seq::empty().push((default_category(), g)));
            } else {
                assert(first =~= Seq::empty());
            }
            assert(meshes_view(meshes@) =~= greedy_chunk_meshes(self.catalog, blocks@, origin));
        }
        if self.batch_mode {
            match absorb_all(&mut self.accumulators, meshes) {
                Ok(_) => {},
                Err(e) => {
                    return Err(e);
                },
            }
            Ok(BuildResult { meshes: Vec::new(), origin })
        } else {
            Ok(BuildResult { meshes, origin })
        }
    }
}

/// In every mesh a build hands out (`meshes_wf` holds of them all), the
/// material groups partition the index buffer: their counts sum to the
/// number of indices, the first starts at 0, each starts where the previous
/// one ends, neighbours differ in material, and none is empty.
pub proof fn lemma_built_groups_partition(ms: Seq<MergedMesh>)
    requires
        meshes_wf(ms),
    ensures
        forall|i: int|
            0 <= i < ms.len() ==> groups_total((#[trigger] ms[i]).groups@) == ms[i].indices@.len() && (ms[i].groups@.len() > 0
                ==> ms[i].groups@[0].start == 0) && forall|g: int|
                0 <= g < ms[i].groups@.len() - 1 ==> ms[i].groups@[g + 1].start == ms[i].groups@[g].start
                    + ms[i].groups@[g].count && ms[i].groups@[g + 1].material_index != ms[i].groups@[g].material_index,
{
    assert forall|i: int| 0 <= i < ms.len() implies groups_total((#[trigger] ms[i]).groups@) == ms[i].indices@.len() && (
    ms[i].groups@.len() > 0 ==> ms[i].groups@[0].start == 0) && forall|g: int|
        0 <= g < ms[i].groups@.len() - 1 ==> ms[i].groups@[g + 1].start == ms[i].groups@[g].start
            + ms[i].groups@[g].count && ms[i].groups@[g + 1].material_index != ms[i].groups@[g].material_index by {
        lemma_groups_partition(ms[i].view());
        let gs = ms[i].groups@;
        assert forall|g: int| 0 <= g < gs.len() - 1 implies gs[g + 1].start == gs[g].start + gs[g].count
            && gs[g + 1].material_index != gs[g].material_index by {
            assert(gs[g + 1].start == gs[g].start + gs[g].count);
        }
    }
}

proof fn lemma_one_voxel_no_other_category(cat: GeometryCatalog, x: i32, y: i32, z: i32, t: i32, k: int)
    requires
        cat.spec_entry(t as int) matches Some(e) && e.category@ == default_category(),
    ensures
        chunk_categories(cat, one_voxel(x, y, z, t), true, k) == Seq::<Seq<char>>::empty(),
    decreases k,
{
    let blocks = one_voxel(x, y, z, t);
    if k > 0 {
        lemma_one_voxel_no_other_category(cat, x, y, z, t, k - 1);
        assert(block_count(blocks) == 1);
        if type_present(blocks, k - 1) {
            let i = choose|i: int| 0 <= i < block_count(blocks) && comp(blocks, i, 3) == k - 1;
            assert(i == 0);
            assert(k - 1 == t);
        }
    }
}

/// A chunk holding one solid voxel builds greedily into exactly one mesh,
/// of the solid category, with six quads: 24 vertices and 36 indices.
pub proof fn lemma_single_voxel_chunk(cat: GeometryCatalog, x: i32, y: i32, z: i32, t: i32, o: (i32, i32, i32))
    requires
        t >= 0,
        cat.spec_entry(t as int) matches Some(e) && e.category@ == default_category(),
    ensures
        ({
            let ms = greedy_chunk_meshes(cat, one_voxel(x, y, z, t), o);
            &&& ms.len() == 1
            &&& ms[0].0 == default_category()
            &&& ms[0].1.vertex_count == 24
            &&& ms[0].1.indices.len() == 36
        }),
{
    let blocks = one_voxel(x, y, z, t);
    lemma_single_voxel_six_quads(cat, x, y, z, t, o);
    lemma_one_voxel_no_other_category(cat, x, y, z, t, cat.entries@.len() as int);
    let ms = greedy_chunk_meshes(cat, blocks, o);
    let g = greedy_view(cat, blocks, o);
    assert(naive_meshes(cat, blocks, o, greedy_categories(cat, blocks), 0) == Seq::<(Seq<char>, MeshView)>::empty());
    assert(ms =~= Seq::empty().push((default_category(), g)));
}

} // verus!
