//! Vertex and index totals of batches against single builds.
use vstd::prelude::*;
use crate::builder::{variants_vertices, voxel_vertices, category_vertices, acc_index, lemma_acc_index, lemma_acc_index_first, acc_of, absorb_one, absorb_list, naive_meshes, chunk_categories, chunk_meshes, type_present};
use crate::catalog::{GeometryCatalog, GeometryVariant, variants_wf, slot_wf};
use crate::grid::{block_count, comp, occupant, written};
use crate::direction::{FaceDir, dir_delta};
use crate::visibility::vertex_dir;
use crate::mesh::{MeshView, empty_view, merge_view, shifted};
use crate::naive::{measure, naive_view, never_occludes, fold_types, fold_blocks, fold_variants, kept_indices, lemma_kept_bounded, lemma_fold_blocks_absent, lemma_naive_totals_split};

verus! {

/// The total measure of the meshes of category `c` among the first `n` of
/// the list.
pub open spec fn list_total(ms: Seq<(Seq<char>, MeshView)>, c: Seq<char>, n: int, idx: bool) -> int
    decreases n,
{
    if n <= 0 {
        0
    } else {
        list_total(ms, c, n - 1, idx) + if ms[n - 1].0 == c {
            measure(ms[n - 1].1, idx)
        } else {
            0
        }
    }
}

/// Two accumulator lists with the same categories in the same order find
/// a category at the same place.
proof fn lemma_acc_index_same(a: Seq<(Seq<char>, MeshView)>, b: Seq<(Seq<char>, MeshView)>, c: Seq<char>)
    requires
        a.len() == b.len(),
        forall|i: int| 0 <= i < a.len() ==> a[i].0 == b[i].0,
    ensures
        acc_index(a, c) == acc_index(b, c),
{
    lemma_acc_index(a, c);
    lemma_acc_index(b, c);
    let ja = acc_index(a, c);
    if ja >= 0 {
        lemma_acc_index_first(b, c, ja);
    } else {
        let jb = acc_index(b, c);
        if jb >= 0 {
            assert(a[jb].0 == c);
        }
    }
}

proof fn lemma_merge_measure(a: MeshView, m: MeshView, idx: bool)
    ensures
        measure(merge_view(a, m), idx) == measure(a, idx) + measure(m, idx),
{
    assert(shifted(m.indices, a.vertex_count).len() == m.indices.len());
}

/// Folding a mesh of category `c` adds its measure to that category's
/// accumulator and leaves the others.
proof fn lemma_absorb_one_measure(accs: Seq<(Seq<char>, MeshView)>, c: Seq<char>, m: MeshView, k: Seq<char>, idx: bool)
    ensures
        measure(acc_of(absorb_one(accs, c, m), k), idx) == measure(acc_of(accs, k), idx) + if c == k {
            measure(m, idx)
        } else {
            0
        },
{
    let j = acc_index(accs, c);
    let next = absorb_one(accs, c, m);
    lemma_acc_index(accs, c);
    lemma_acc_index(accs, k);
    lemma_merge_measure(accs[j].1, m, idx);
    lemma_merge_measure(empty_view(), m, idx);
    if j >= 0 {
        lemma_acc_index_same(next, accs, k);
        if c != k {
            let jk = acc_index(accs, k);
            if jk >= 0 {
                assert(jk != j);
            }
        }
    } else {
        lemma_acc_index(next, k);
        if c == k {
            assert(next[accs.len() as int].0 == c);
            let jn = acc_index(next, k);
            assert(jn == accs.len());
        } else {
            let pre = next.subrange(0, accs.len() as int);
            assert(pre =~= accs);
            let jn = acc_index(next, k);
            let ja = acc_index(accs, k);
            if jn >= 0 {
                assert(jn < accs.len());
                assert(accs[jn].0 == k);
                if ja < jn && ja >= 0 {
                    assert(next[ja].0 == k);
                }
                if ja > jn || ja < 0 {
                    assert(accs[jn].0 == k);
                }
            } else {
                if ja >= 0 {
                    assert(next[ja].0 == k);
                }
            }
        }
    }
}

/// Folding a list adds, to each category's accumulator, the measures of
/// the list's meshes of that category.
pub proof fn lemma_absorb_list_measure(
    accs: Seq<(Seq<char>, MeshView)>,
    ms: Seq<(Seq<char>, MeshView)>,
    n: int,
    k: Seq<char>,
    idx: bool,
)
    requires
        0 <= n <= ms.len(),
        forall|i: int| 0 <= i < n ==> counts_ok(#[trigger] ms[i].1),
    ensures
        measure(acc_of(absorb_list(accs, ms, n), k), idx) == measure(acc_of(accs, k), idx) + list_total(ms, k, n, idx),
    decreases n,
{
    if n > 0 {
        lemma_absorb_list_measure(accs, ms, n - 1, k, idx);
        if ms[n - 1].1.vertex_count > 0 {
            lemma_absorb_one_measure(absorb_list(accs, ms, n - 1), ms[n - 1].0, ms[n - 1].1, k, idx);
        } else {
            assert(counts_ok(ms[n - 1].1));
        }
    }
}

/// Buffers with indices have vertices.
pub open spec fn counts_ok(m: MeshView) -> bool {
    m.indices.len() > 0 ==> m.vertex_count > 0
}

proof fn lemma_fold_variants_ok(
    cat: GeometryCatalog,
    blocks: Seq<i32>,
    o: (i32, i32, i32),
    i: int,
    gs: Seq<GeometryVariant>,
    k: int,
    m: MeshView,
)
    requires
        counts_ok(m),
        variants_wf(gs),
        0 <= k <= gs.len(),
    ensures
        counts_ok(fold_variants(cat, blocks, o, i, gs, k, m)),
    decreases k,
{
    if k > 0 {
        lemma_fold_variants_ok(cat, blocks, o, i, gs, k - 1, m);
        let g = gs[k - 1];
        assert(g.wf());
        let (x, y, z) = (comp(blocks, i, 0), comp(blocks, i, 1), comp(blocks, i, 2));
        lemma_kept_bounded(cat, blocks, x, y, z, g, g.triangle_count());
        let kept = kept_indices(cat, blocks, x, y, z, g, g.triangle_count());
        if kept.len() > 0 {
            assert(kept[0] < g.vertex_count());
        }
    }
}

proof fn lemma_fold_blocks_ok(cat: GeometryCatalog, blocks: Seq<i32>, o: (i32, i32, i32), t: int, k: int, m: MeshView)
    requires
        counts_ok(m),
        cat.wf(),
    ensures
        counts_ok(fold_blocks(cat, blocks, o, t, k, m)),
    decreases k,
{
    if k > 0 {
        lemma_fold_blocks_ok(cat, blocks, o, t, k - 1, m);
        if comp(blocks, k - 1, 3) == t && cat.spec_entry(t) is Some {
            let e = cat.spec_entry(t).unwrap();
            assert(slot_wf(cat.entries@[t]));
            lemma_fold_variants_ok(cat, blocks, o, k - 1, e.geometries@, e.geometries@.len() as int, fold_blocks(cat, blocks, o, t, k - 1, m));
        }
    }
}

proof fn lemma_fold_types_ok(cat: GeometryCatalog, blocks: Seq<i32>, o: (i32, i32, i32), c: Seq<char>, k: int)
    requires
        cat.wf(),
    ensures
        counts_ok(fold_types(cat, blocks, o, c, k)),
    decreases k,
{
    if k > 0 {
        lemma_fold_types_ok(cat, blocks, o, c, k - 1);
        if cat.spec_entry(k - 1) matches Some(e) && e.category@ == c {
            lemma_fold_blocks_ok(cat, blocks, o, k - 1, block_count(blocks), fold_types(cat, blocks, o, c, k - 1));
        }
    }
}

/// The list total only looks at the first `n` meshes.
proof fn lemma_list_total_prefix(ms: Seq<(Seq<char>, MeshView)>, x: (Seq<char>, MeshView), c: Seq<char>, n: int, idx: bool)
    requires
        0 <= n <= ms.len(),
    ensures
        list_total(ms.push(x), c, n, idx) == list_total(ms, c, n, idx),
    decreases n,
{
    if n > 0 {
        lemma_list_total_prefix(ms, x, c, n - 1, idx);
    }
}

/// The measures of the naive meshes of category `k` among the first `n`
/// listed categories.
pub open spec fn cats_total(
    cat: GeometryCatalog,
    blocks: Seq<i32>,
    o: (i32, i32, i32),
    cs: Seq<Seq<char>>,
    k: Seq<char>,
    n: int,
    idx: bool,
) -> int
    decreases n,
{
    if n <= 0 {
        0
    } else {
        cats_total(cat, blocks, o, cs, k, n - 1, idx) + if cs[n - 1] == k {
            measure(naive_view(cat, blocks, o, cs[n - 1]), idx)
        } else {
            0
        }
    }
}

proof fn lemma_naive_meshes_total(
    cat: GeometryCatalog,
    blocks: Seq<i32>,
    o: (i32, i32, i32),
    cs: Seq<Seq<char>>,
    k: Seq<char>,
    n: int,
    idx: bool,
)
    requires
        cat.wf(),
        0 <= n <= cs.len(),
    ensures
        list_total(naive_meshes(cat, blocks, o, cs, n), k, naive_meshes(cat, blocks, o, cs, n).len() as int, idx)
            == cats_total(cat, blocks, o, cs, k, n, idx),
        naive_meshes(cat, blocks, o, cs, n).len() <= n,
        forall|i: int|
            0 <= i < naive_meshes(cat, blocks, o, cs, n).len() ==> counts_ok(#[trigger] naive_meshes(cat, blocks, o, cs, n)[i].1),
    decreases n,
{
    if n > 0 {
        lemma_naive_meshes_total(cat, blocks, o, cs, k, n - 1, idx);
        let prev = naive_meshes(cat, blocks, o, cs, n - 1);
        let m = naive_view(cat, blocks, o, cs[n - 1]);
        lemma_fold_types_ok(cat, blocks, o, cs[n - 1], cat.entries@.len() as int);
        if category_vertices(cat, blocks, cs[n - 1], block_count(blocks)) > 0 {
            lemma_list_total_prefix(prev, (cs[n - 1], m), k, prev.len() as int, idx);
            let cur = naive_meshes(cat, blocks, o, cs, n);
            assert forall|i: int| 0 <= i < cur.len() implies counts_ok(#[trigger] cur[i].1) by {
                if i < prev.len() {
                    assert(cur[i] == prev[i]);
                }
            }
        } else {
            lemma_vertices_before_culling(cat, blocks, o, cs[n - 1]);
        }
    }
}

/// Listed categories are distinct.
proof fn lemma_categories_distinct(cat: GeometryCatalog, blocks: Seq<i32>, skip: bool, k: int)
    ensures
        forall|i: int, j: int|
            0 <= i < j < chunk_categories(cat, blocks, skip, k).len() ==> chunk_categories(cat, blocks, skip, k)[i]
                != chunk_categories(cat, blocks, skip, k)[j],
    decreases k,
{
    if k > 0 {
        lemma_categories_distinct(cat, blocks, skip, k - 1);
        let prev = chunk_categories(cat, blocks, skip, k - 1);
        let cur = chunk_categories(cat, blocks, skip, k);
        assert forall|i: int, j: int| 0 <= i < j < cur.len() implies cur[i] != cur[j] by {
            if j == prev.len() {
                assert(cur[i] == prev[i]);
                assert(!prev.contains(cur[j]));
            } else {
                assert(cur[i] == prev[i] && cur[j] == prev[j]);
            }
        }
    }
}

/// Categories listed before stay listed.
proof fn lemma_categories_grow(cat: GeometryCatalog, blocks: Seq<i32>, skip: bool, j: int, k: int)
    requires
        0 <= j <= k,
    ensures
        chunk_categories(cat, blocks, skip, j).len() <= chunk_categories(cat, blocks, skip, k).len(),
        forall|i: int|
            0 <= i < chunk_categories(cat, blocks, skip, j).len() ==> chunk_categories(cat, blocks, skip, k)[i]
                == chunk_categories(cat, blocks, skip, j)[i],
    decreases k,
{
    if j < k {
        lemma_categories_grow(cat, blocks, skip, j, k - 1);
    }
}

/// With distinct categories, the total of category `k` is its mesh's
/// measure when it is listed, and nothing otherwise.
proof fn lemma_cats_total_distinct(
    cat: GeometryCatalog,
    blocks: Seq<i32>,
    o: (i32, i32, i32),
    cs: Seq<Seq<char>>,
    k: Seq<char>,
    n: int,
    idx: bool,
)
    requires
        0 <= n <= cs.len(),
        forall|i: int, j: int| 0 <= i < j < cs.len() ==> cs[i] != cs[j],
    ensures
        cats_total(cat, blocks, o, cs, k, n, idx) == if exists|i: int| 0 <= i < n && cs[i] == k {
            measure(naive_view(cat, blocks, o, k), idx)
        } else {
            0
        },
    decreases n,
{
    if n > 0 {
        lemma_cats_total_distinct(cat, blocks, o, cs, k, n - 1, idx);
        if cs[n - 1] == k {
            assert(!exists|i: int| 0 <= i < n - 1 && cs[i] == k) by {
                if exists|i: int| 0 <= i < n - 1 && cs[i] == k {
                    let i = choose|i: int| 0 <= i < n - 1 && cs[i] == k;
                    assert(cs[i] != cs[n - 1]);
                }
            }
        } else {
            if exists|i: int| 0 <= i < n && cs[i] == k {
                let i = choose|i: int| 0 <= i < n && cs[i] == k;
                assert(0 <= i < n - 1);
            }
        }
    }
}

proof fn lemma_fold_types_absent(cat: GeometryCatalog, blocks: Seq<i32>, o: (i32, i32, i32), c: Seq<char>, k: int)
    requires
        forall|i: int| 0 <= i < chunk_categories(cat, blocks, false, k).len() ==> chunk_categories(cat, blocks, false, k)[i] != c,
    ensures
        fold_types(cat, blocks, o, c, k) == empty_view(),
    decreases k,
{
    if k > 0 {
        lemma_categories_grow(cat, blocks, false, k - 1, k);
        lemma_fold_types_absent(cat, blocks, o, c, k - 1);
        if cat.spec_entry(k - 1) matches Some(e) && e.category@ == c {
            let prev = chunk_categories(cat, blocks, false, k - 1);
            if type_present(blocks, k - 1) {
                if prev.contains(c) {
                    let i = choose|i: int| 0 <= i < prev.len() && prev[i] == c;
                    assert(chunk_categories(cat, blocks, false, k)[i] == c);
                } else {
                    assert(chunk_categories(cat, blocks, false, k)[prev.len() as int] == c);
                }
            } else {
                lemma_fold_blocks_absent(cat, blocks, o, k - 1, block_count(blocks), empty_view());
            }
        }
    }
}

/// The meshes of a chunk build hold, for category `k`, exactly the measure
/// of `k`'s naive mesh.
pub proof fn lemma_chunk_list_total(cat: GeometryCatalog, blocks: Seq<i32>, o: (i32, i32, i32), k: Seq<char>, idx: bool)
    requires
        cat.wf(),
    ensures
        list_total(chunk_meshes(cat, blocks, o), k, chunk_meshes(cat, blocks, o).len() as int, idx) == measure(
            naive_view(cat, blocks, o, k),
            idx,
        ),
        forall|i: int| 0 <= i < chunk_meshes(cat, blocks, o).len() ==> counts_ok(#[trigger] chunk_meshes(cat, blocks, o)[i].1),
{
    let n = cat.entries@.len() as int;
    let cs = chunk_categories(cat, blocks, false, n);
    lemma_naive_meshes_total(cat, blocks, o, cs, k, cs.len() as int, idx);
    lemma_categories_distinct(cat, blocks, false, n);
    lemma_cats_total_distinct(cat, blocks, o, cs, k, cs.len() as int, idx);
    if !exists|i: int| 0 <= i < cs.len() && cs[i] == k {
        lemma_fold_types_absent(cat, blocks, o, k, n);
    }
}

/// For a catalog in which no voxel type occludes anything, building two
/// voxel lists in one batch gives, for every category, the vertex and index
/// totals that one build of both lists together gives that category.
pub proof fn lemma_batch_matches_single_build(
    cat: GeometryCatalog,
    first: Seq<i32>,
    second: Seq<i32>,
    o1: (i32, i32, i32),
    o2: (i32, i32, i32),
    o: (i32, i32, i32),
    k: Seq<char>,
    idx: bool,
)
    requires
        cat.wf(),
        never_occludes(cat),
        first.len() % 4 == 0,
    ensures
        ({
            let ms1 = chunk_meshes(cat, first, o1);
            let ms2 = chunk_meshes(cat, second, o2);
            let batch = absorb_list(absorb_list(Seq::empty(), ms1, ms1.len() as int), ms2, ms2.len() as int);
            let single = chunk_meshes(cat, first + second, o);
            measure(acc_of(batch, k), idx) == list_total(single, k, single.len() as int, idx)
        }),
{
    let ms1 = chunk_meshes(cat, first, o1);
    let ms2 = chunk_meshes(cat, second, o2);
    let a0: Seq<(Seq<char>, MeshView)> = Seq::empty();
    let a1 = absorb_list(a0, ms1, ms1.len() as int);
    lemma_acc_index(a0, k);
    lemma_chunk_list_total(cat, first, o1, k, idx);
    lemma_chunk_list_total(cat, second, o2, k, idx);
    lemma_absorb_list_measure(a0, ms1, ms1.len() as int, k, idx);
    lemma_absorb_list_measure(a1, ms2, ms2.len() as int, k, idx);
    lemma_chunk_list_total(cat, first + second, o, k, idx);
    lemma_naive_totals_split(cat, first, second, k, o, o1, o2);
}

/// No voxel of `first` shares a cell with, or touches across a face, a
/// voxel of `second`.
pub open spec fn apart(first: Seq<i32>, second: Seq<i32>) -> bool {
    forall|i: int, j: int|
        0 <= i < block_count(first) && 0 <= j < block_count(second) ==> #[trigger] voxels_apart(first, i, second, j)
}

/// Voxel `i` of `first` and voxel `j` of `second` are two or more unit
/// steps apart.
pub open spec fn voxels_apart(first: Seq<i32>, i: int, second: Seq<i32>, j: int) -> bool {
    abs_int(comp(first, i, 0) - comp(second, j, 0)) + abs_int(comp(first, i, 1) - comp(second, j, 1)) + abs_int(
        comp(first, i, 2) - comp(second, j, 2),
    ) >= 2
}

/// `|v|`.
pub open spec fn abs_int(v: int) -> int {
    if v < 0 {
        -v
    } else {
        v
    }
}

/// The vertex count (or index count) that a variant adds at voxel `i`:
/// nothing when all its triangles are culled.
pub open spec fn kept_weight(cat: GeometryCatalog, blocks: Seq<i32>, i: int, g: GeometryVariant, idx: bool) -> int {
    let kept = kept_indices(cat, blocks, comp(blocks, i, 0), comp(blocks, i, 1), comp(blocks, i, 2), g, g.triangle_count());
    if kept.len() == 0 {
        0
    } else if idx {
        kept.len() as int
    } else {
        g.vertex_count()
    }
}

/// The weights of the first `k` variants at voxel `i`.
pub open spec fn voxel_total(cat: GeometryCatalog, blocks: Seq<i32>, i: int, gs: Seq<GeometryVariant>, k: int, idx: bool) -> int
    decreases k,
{
    if k <= 0 {
        0
    } else {
        voxel_total(cat, blocks, i, gs, k - 1, idx) + kept_weight(cat, blocks, i, gs[k - 1], idx)
    }
}

/// The weight of voxel `i` when it has type `t`, nothing otherwise.
pub open spec fn voxel_weight(cat: GeometryCatalog, blocks: Seq<i32>, t: int, i: int, idx: bool) -> int {
    if comp(blocks, i, 3) == t && cat.spec_entry(t) is Some {
        let gs = cat.spec_entry(t).unwrap().geometries@;
        voxel_total(cat, blocks, i, gs, gs.len() as int, idx)
    } else {
        0
    }
}

/// The weights of the voxels of type `t` among the first `k`.
pub open spec fn culled_blocks_total(cat: GeometryCatalog, blocks: Seq<i32>, t: int, k: int, idx: bool) -> int
    decreases k,
{
    if k <= 0 {
        0
    } else {
        culled_blocks_total(cat, blocks, t, k - 1, idx) + voxel_weight(cat, blocks, t, k - 1, idx)
    }
}

/// The weights of the voxels of the first `k` types of category `c`.
pub open spec fn culled_types_total(cat: GeometryCatalog, blocks: Seq<i32>, c: Seq<char>, k: int, idx: bool) -> int
    decreases k,
{
    if k <= 0 {
        0
    } else {
        culled_types_total(cat, blocks, c, k - 1, idx) + if cat.spec_entry(k - 1) matches Some(e) && e.category@ == c {
            culled_blocks_total(cat, blocks, k - 1, block_count(blocks), idx)
        } else {
            0
        }
    }
}

proof fn lemma_culled_variants_measure(
    cat: GeometryCatalog,
    blocks: Seq<i32>,
    o: (i32, i32, i32),
    i: int,
    gs: Seq<GeometryVariant>,
    k: int,
    m: MeshView,
    idx: bool,
)
    requires
        0 <= k <= gs.len(),
    ensures
        measure(fold_variants(cat, blocks, o, i, gs, k, m), idx) == measure(m, idx) + voxel_total(cat, blocks, i, gs, k, idx),
    decreases k,
{
    if k > 0 {
        lemma_culled_variants_measure(cat, blocks, o, i, gs, k - 1, m, idx);
        let g = gs[k - 1];
        let kept = kept_indices(cat, blocks, comp(blocks, i, 0), comp(blocks, i, 1), comp(blocks, i, 2), g, g.triangle_count());
        let prev = fold_variants(cat, blocks, o, i, gs, k - 1, m);
        assert(shifted(kept, prev.vertex_count).len() == kept.len());
    }
}

proof fn lemma_culled_blocks_measure(cat: GeometryCatalog, blocks: Seq<i32>, o: (i32, i32, i32), t: int, k: int, m: MeshView, idx: bool)
    ensures
        measure(fold_blocks(cat, blocks, o, t, k, m), idx) == measure(m, idx) + culled_blocks_total(cat, blocks, t, k, idx),
    decreases k,
{
    if k > 0 {
        lemma_culled_blocks_measure(cat, blocks, o, t, k - 1, m, idx);
        if comp(blocks, k - 1, 3) == t && cat.spec_entry(t) is Some {
            let gs = cat.spec_entry(t).unwrap().geometries@;
            lemma_culled_variants_measure(cat, blocks, o, k - 1, gs, gs.len() as int, fold_blocks(cat, blocks, o, t, k - 1, m), idx);
        }
    }
}

proof fn lemma_culled_types_measure(cat: GeometryCatalog, blocks: Seq<i32>, o: (i32, i32, i32), c: Seq<char>, k: int, idx: bool)
    ensures
        measure(fold_types(cat, blocks, o, c, k), idx) == culled_types_total(cat, blocks, c, k, idx),
    decreases k,
{
    if k > 0 {
        lemma_culled_types_measure(cat, blocks, o, c, k - 1, idx);
        if cat.spec_entry(k - 1) matches Some(e) && e.category@ == c {
            lemma_culled_blocks_measure(cat, blocks, o, k - 1, block_count(blocks), fold_types(cat, blocks, o, c, k - 1), idx);
        }
    }
}

/// The voxel `(x, y, z)` is not among the first `k` voxels.
pub open spec fn absent_at(blocks: Seq<i32>, k: int, x: int, y: int, z: int) -> bool {
    forall|i: int| 0 <= i < k ==> !(#[trigger] comp(blocks, i, 0) == x && comp(blocks, i, 1) == y && comp(blocks, i, 2) == z)
}

proof fn lemma_written_absent(blocks: Seq<i32>, k: int, x: int, y: int, z: int)
    requires
        absent_at(blocks, k, x, y, z),
    ensures
        written(blocks, k, x, y, z) == 0,
    decreases k,
{
    if k > 0 {
        lemma_written_absent(blocks, k - 1, x, y, z);
    }
}

proof fn lemma_comp_concat(first: Seq<i32>, second: Seq<i32>, i: int, a: int)
    requires
        first.len() % 4 == 0,
        0 <= a < 4,
        0 <= i < block_count(first) + block_count(second),
    ensures
        i < block_count(first) ==> comp(first + second, i, a) == comp(first, i, a),
        i >= block_count(first) ==> comp(first + second, i, a) == comp(second, i - block_count(first), a),
{
    if i >= block_count(first) {
        assert(4 * i + a == first.len() + 4 * (i - block_count(first)) + a);
    }
}

proof fn lemma_written_prefix(first: Seq<i32>, second: Seq<i32>, k: int, x: int, y: int, z: int)
    requires
        first.len() % 4 == 0,
        0 <= k <= block_count(first),
    ensures
        written(first + second, k, x, y, z) == written(first, k, x, y, z),
    decreases k,
{
    if k > 0 {
        lemma_written_prefix(first, second, k - 1, x, y, z);
        lemma_comp_concat(first, second, k - 1, 0);
        lemma_comp_concat(first, second, k - 1, 1);
        lemma_comp_concat(first, second, k - 1, 2);
        lemma_comp_concat(first, second, k - 1, 3);
    }
}

/// At a cell no voxel of `second` holds, the voxels of both lists leave
/// what those of `first` leave.
proof fn lemma_written_keeps_first(first: Seq<i32>, second: Seq<i32>, j: int, x: int, y: int, z: int)
    requires
        first.len() % 4 == 0,
        0 <= j <= block_count(second),
        absent_at(second, block_count(second), x, y, z),
    ensures
        written(first + second, block_count(first) + j, x, y, z) == written(first, block_count(first), x, y, z),
    decreases j,
{
    if j == 0 {
        lemma_written_prefix(first, second, block_count(first), x, y, z);
    } else {
        lemma_written_keeps_first(first, second, j - 1, x, y, z);
        let i = block_count(first) + j - 1;
        lemma_comp_concat(first, second, i, 0);
        lemma_comp_concat(first, second, i, 1);
        lemma_comp_concat(first, second, i, 2);
        assert(!(comp(second, j - 1, 0) == x && comp(second, j - 1, 1) == y && comp(second, j - 1, 2) == z));
    }
}

/// At a cell no voxel of `first` holds, the voxels of both lists leave
/// what those of `second` leave.
proof fn lemma_written_keeps_second(first: Seq<i32>, second: Seq<i32>, j: int, x: int, y: int, z: int)
    requires
        first.len() % 4 == 0,
        0 <= j <= block_count(second),
        absent_at(first, block_count(first), x, y, z),
    ensures
        written(first + second, block_count(first) + j, x, y, z) == written(second, j, x, y, z),
    decreases j,
{
    if j == 0 {
        lemma_written_prefix(first, second, block_count(first), x, y, z);
        lemma_written_absent(first, block_count(first), x, y, z);
    } else {
        lemma_written_keeps_second(first, second, j - 1, x, y, z);
        let i = block_count(first) + j - 1;
        lemma_comp_concat(first, second, i, 0);
        lemma_comp_concat(first, second, i, 1);
        lemma_comp_concat(first, second, i, 2);
        lemma_comp_concat(first, second, i, 3);
    }
}

/// A voxel whose neighbours across its six faces hold the same in two
/// voxel lists keeps the same triangles in both.
proof fn lemma_kept_same(cat: GeometryCatalog, b1: Seq<i32>, b2: Seq<i32>, x: int, y: int, z: int, g: GeometryVariant, k: int)
    requires
        forall|d: FaceDir|
            occupant(b1, x + dir_delta(d).0, y + dir_delta(d).1, z + dir_delta(d).2) == #[trigger] occupant(
                b2,
                x + dir_delta(d).0,
                y + dir_delta(d).1,
                z + dir_delta(d).2,
            ),
    ensures
        kept_indices(cat, b1, x, y, z, g, k) == kept_indices(cat, b2, x, y, z, g, k),
    decreases k,
{
    if k > 0 {
        lemma_kept_same(cat, b1, b2, x, y, z, g, k - 1);
        let v = g.indices@[3 * (k - 1)] as int;
        if let Some(d) = vertex_dir(g, v) {
            let n = dir_delta(d);
            assert(occupant(b1, x + n.0, y + n.1, z + n.2) == occupant(b2, x + n.0, y + n.1, z + n.2));
        }
    }
}

proof fn lemma_delta_unit(d: FaceDir)
    ensures
        abs_int(dir_delta(d).0) + abs_int(dir_delta(d).1) + abs_int(dir_delta(d).2) == 1,
{
}

proof fn lemma_voxel_total_same(cat: GeometryCatalog, b1: Seq<i32>, i1: int, b2: Seq<i32>, i2: int, gs: Seq<GeometryVariant>, k: int, idx: bool)
    requires
        comp(b1, i1, 0) == comp(b2, i2, 0) && comp(b1, i1, 1) == comp(b2, i2, 1) && comp(b1, i1, 2) == comp(b2, i2, 2),
        forall|d: FaceDir|
            occupant(b1, comp(b1, i1, 0) + dir_delta(d).0, comp(b1, i1, 1) + dir_delta(d).1, comp(b1, i1, 2) + dir_delta(d).2)
                == #[trigger] occupant(
                b2,
                comp(b1, i1, 0) + dir_delta(d).0,
                comp(b1, i1, 1) + dir_delta(d).1,
                comp(b1, i1, 2) + dir_delta(d).2,
            ),
    ensures
        voxel_total(cat, b1, i1, gs, k, idx) == voxel_total(cat, b2, i2, gs, k, idx),
    decreases k,
{
    if k > 0 {
        lemma_voxel_total_same(cat, b1, i1, b2, i2, gs, k - 1, idx);
        let g = gs[k - 1];
        lemma_kept_same(cat, b1, b2, comp(b1, i1, 0), comp(b1, i1, 1), comp(b1, i1, 2), g, g.triangle_count());
    }
}

/// Each voxel weighs the same in both lists built together as in its own
/// list built alone.
proof fn lemma_voxel_weight_apart(cat: GeometryCatalog, first: Seq<i32>, second: Seq<i32>, t: int, i: int, idx: bool)
    requires
        first.len() % 4 == 0,
        apart(first, second),
        0 <= i < block_count(first) + block_count(second),
    ensures
        i < block_count(first) ==> voxel_weight(cat, first + second, t, i, idx) == voxel_weight(cat, first, t, i, idx),
        i >= block_count(first) ==> voxel_weight(cat, first + second, t, i, idx) == voxel_weight(
            cat,
            second,
            t,
            i - block_count(first),
            idx,
        ),
{
    let both = first + second;
    let na = block_count(first);
    let nc = block_count(second);
    assert(block_count(both) == na + nc);
    lemma_comp_concat(first, second, i, 0);
    lemma_comp_concat(first, second, i, 1);
    lemma_comp_concat(first, second, i, 2);
    lemma_comp_concat(first, second, i, 3);
    let (x, y, z) = (comp(both, i, 0), comp(both, i, 1), comp(both, i, 2));
    if i < na {
        assert forall|d: FaceDir|
            occupant(both, x + dir_delta(d).0, y + dir_delta(d).1, z + dir_delta(d).2) == #[trigger] occupant(
                first,
                x + dir_delta(d).0,
                y + dir_delta(d).1,
                z + dir_delta(d).2,
            ) by {
            let n = dir_delta(d);
            lemma_delta_unit(d);
            assert forall|j: int| 0 <= j < nc implies !(#[trigger] comp(second, j, 0) == x + n.0 && comp(second, j, 1) == y
                + n.1 && comp(second, j, 2) == z + n.2) by {
                assert(voxels_apart(first, i, second, j));
            }
            lemma_written_keeps_first(first, second, nc, x + n.0, y + n.1, z + n.2);
        }
        if comp(both, i, 3) == t && cat.spec_entry(t) is Some {
            let gs = cat.spec_entry(t).unwrap().geometries@;
            lemma_voxel_total_same(cat, both, i, first, i, gs, gs.len() as int, idx);
        }
    } else {
        let j = i - na;
        assert forall|d: FaceDir|
            occupant(both, x + dir_delta(d).0, y + dir_delta(d).1, z + dir_delta(d).2) == #[trigger] occupant(
                second,
                x + dir_delta(d).0,
                y + dir_delta(d).1,
                z + dir_delta(d).2,
            ) by {
            let n = dir_delta(d);
            lemma_delta_unit(d);
            assert forall|q: int| 0 <= q < na implies !(#[trigger] comp(first, q, 0) == x + n.0 && comp(first, q, 1) == y
                + n.1 && comp(first, q, 2) == z + n.2) by {
                assert(voxels_apart(first, q, second, j));
            }
            lemma_written_keeps_second(first, second, nc, x + n.0, y + n.1, z + n.2);
        }
        if comp(both, i, 3) == t && cat.spec_entry(t) is Some {
            let gs = cat.spec_entry(t).unwrap().geometries@;
            lemma_voxel_total_same(cat, both, i, second, j, gs, gs.len() as int, idx);
        }
    }
}

proof fn lemma_culled_blocks_prefix(cat: GeometryCatalog, first: Seq<i32>, second: Seq<i32>, t: int, k: int, idx: bool)
    requires
        first.len() % 4 == 0,
        apart(first, second),
        0 <= k <= block_count(first),
    ensures
        culled_blocks_total(cat, first + second, t, k, idx) == culled_blocks_total(cat, first, t, k, idx),
    decreases k,
{
    if k > 0 {
        lemma_culled_blocks_prefix(cat, first, second, t, k - 1, idx);
        lemma_voxel_weight_apart(cat, first, second, t, k - 1, idx);
    }
}

proof fn lemma_culled_blocks_split(cat: GeometryCatalog, first: Seq<i32>, second: Seq<i32>, t: int, j: int, idx: bool)
    requires
        first.len() % 4 == 0,
        apart(first, second),
        0 <= j <= block_count(second),
    ensures
        culled_blocks_total(cat, first + second, t, block_count(first) + j, idx) == culled_blocks_total(
            cat,
            first,
            t,
            block_count(first),
            idx,
        ) + culled_blocks_total(cat, second, t, j, idx),
    decreases j,
{
    if j == 0 {
        lemma_culled_blocks_prefix(cat, first, second, t, block_count(first), idx);
    } else {
        lemma_culled_blocks_split(cat, first, second, t, j - 1, idx);
        lemma_voxel_weight_apart(cat, first, second, t, block_count(first) + j - 1, idx);
    }
}

proof fn lemma_culled_types_split(cat: GeometryCatalog, first: Seq<i32>, second: Seq<i32>, c: Seq<char>, k: int, idx: bool)
    requires
        first.len() % 4 == 0,
        apart(first, second),
    ensures
        culled_types_total(cat, first + second, c, k, idx) == culled_types_total(cat, first, c, k, idx)
            + culled_types_total(cat, second, c, k, idx),
    decreases k,
{
    if k > 0 {
        lemma_culled_types_split(cat, first, second, c, k - 1, idx);
        assert(block_count(first + second) == block_count(first) + block_count(second));
        lemma_culled_blocks_split(cat, first, second, k - 1, block_count(second), idx);
    }
}

/// When no voxel of one list shares a cell with, or touches across a face,
/// a voxel of the other, building the two lists in one batch gives, for
/// every category, the vertex and index totals that one build of both
/// lists together gives that category, whatever the occlusion flags.
pub proof fn lemma_batch_matches_single_build_apart(
    cat: GeometryCatalog,
    first: Seq<i32>,
    second: Seq<i32>,
    o1: (i32, i32, i32),
    o2: (i32, i32, i32),
    o: (i32, i32, i32),
    k: Seq<char>,
    idx: bool,
)
    requires
        cat.wf(),
        first.len() % 4 == 0,
        apart(first, second),
    ensures
        ({
            let ms1 = chunk_meshes(cat, first, o1);
            let ms2 = chunk_meshes(cat, second, o2);
            let batch = absorb_list(absorb_list(Seq::empty(), ms1, ms1.len() as int), ms2, ms2.len() as int);
            let single = chunk_meshes(cat, first + second, o);
            measure(acc_of(batch, k), idx) == list_total(single, k, single.len() as int, idx)
        }),
{
    let ms1 = chunk_meshes(cat, first, o1);
    let ms2 = chunk_meshes(cat, second, o2);
    let a0: Seq<(Seq<char>, MeshView)> = Seq::empty();
    let a1 = absorb_list(a0, ms1, ms1.len() as int);
    let n = cat.entries@.len() as int;
    lemma_acc_index(a0, k);
    lemma_chunk_list_total(cat, first, o1, k, idx);
    lemma_chunk_list_total(cat, second, o2, k, idx);
    lemma_absorb_list_measure(a0, ms1, ms1.len() as int, k, idx);
    lemma_absorb_list_measure(a1, ms2, ms2.len() as int, k, idx);
    lemma_chunk_list_total(cat, first + second, o, k, idx);
    lemma_culled_types_measure(cat, first + second, o, k, n, idx);
    lemma_culled_types_measure(cat, first, o1, k, n, idx);
    lemma_culled_types_measure(cat, second, o2, k, n, idx);
    lemma_culled_types_split(cat, first, second, k, n, idx);
}

/// Voxel `i` has type `t`, the catalog has that type, and its variant `g`
/// holds a vertex.
pub open spec fn voxel_variant(cat: GeometryCatalog, blocks: Seq<i32>, t: int, i: int, g: int) -> bool {
    &&& comp(blocks, i, 3) == t
    &&& cat.spec_entry(t) matches Some(e) && 0 <= g < e.geometries@.len() && e.geometries@[g].vertex_count() > 0
}

proof fn lemma_variants_source(
    cat: GeometryCatalog,
    blocks: Seq<i32>,
    o: (i32, i32, i32),
    i: int,
    gs: Seq<GeometryVariant>,
    k: int,
    m: MeshView,
)
    requires
        0 <= k <= gs.len(),
    ensures
        fold_variants(cat, blocks, o, i, gs, k, m).vertex_count >= m.vertex_count,
        fold_variants(cat, blocks, o, i, gs, k, m).vertex_count > m.vertex_count ==> exists|g: int|
            0 <= g < k && (#[trigger] gs[g]).vertex_count() > 0,
    decreases k,
{
    if k > 0 {
        lemma_variants_source(cat, blocks, o, i, gs, k - 1, m);
        let prev = fold_variants(cat, blocks, o, i, gs, k - 1, m);
        if fold_variants(cat, blocks, o, i, gs, k, m).vertex_count > m.vertex_count {
            if prev.vertex_count == m.vertex_count {
                assert(gs[k - 1].vertex_count() > 0);
            } else {
                let g = choose|g: int| 0 <= g < k - 1 && (#[trigger] gs[g]).vertex_count() > 0;
                assert(0 <= g < k && gs[g].vertex_count() > 0);
            }
        }
    }
}

proof fn lemma_blocks_source(cat: GeometryCatalog, blocks: Seq<i32>, o: (i32, i32, i32), t: int, k: int, m: MeshView)
    requires
        0 <= k,
    ensures
        fold_blocks(cat, blocks, o, t, k, m).vertex_count >= m.vertex_count,
        fold_blocks(cat, blocks, o, t, k, m).vertex_count > m.vertex_count ==> exists|i: int, g: int|
            0 <= i < k && #[trigger] voxel_variant(cat, blocks, t, i, g),
    decreases k,
{
    if k > 0 {
        lemma_blocks_source(cat, blocks, o, t, k - 1, m);
        let prev = fold_blocks(cat, blocks, o, t, k - 1, m);
        if comp(blocks, k - 1, 3) == t && cat.spec_entry(t) is Some {
            let gs = cat.spec_entry(t).unwrap().geometries@;
            lemma_variants_source(cat, blocks, o, k - 1, gs, gs.len() as int, prev);
            if fold_blocks(cat, blocks, o, t, k, m).vertex_count > prev.vertex_count {
                let g = choose|g: int| 0 <= g < gs.len() && (#[trigger] gs[g]).vertex_count() > 0;
                assert(voxel_variant(cat, blocks, t, k - 1, g));
            }
        }
        if fold_blocks(cat, blocks, o, t, k, m).vertex_count > m.vertex_count && prev.vertex_count > m.vertex_count {
            let (i, g) = choose|i: int, g: int| 0 <= i < k - 1 && #[trigger] voxel_variant(cat, blocks, t, i, g);
            assert(0 <= i < k && voxel_variant(cat, blocks, t, i, g));
        }
    }
}

proof fn lemma_types_source(cat: GeometryCatalog, blocks: Seq<i32>, o: (i32, i32, i32), c: Seq<char>, k: int)
    requires
        0 <= k,
    ensures
        fold_types(cat, blocks, o, c, k).vertex_count > 0 ==> exists|t: int, i: int, g: int|
            0 <= i < block_count(blocks) && #[trigger] voxel_variant(cat, blocks, t, i, g) && cat.spec_entry(t).unwrap().category@ == c,
    decreases k,
{
    if k > 0 {
        lemma_types_source(cat, blocks, o, c, k - 1);
        let prev = fold_types(cat, blocks, o, c, k - 1);
        if cat.spec_entry(k - 1) matches Some(e) && e.category@ == c {
            lemma_blocks_source(cat, blocks, o, k - 1, block_count(blocks), prev);
            if fold_types(cat, blocks, o, c, k).vertex_count > 0 && prev.vertex_count == 0 {
                let (i, g) = choose|i: int, g: int| 0 <= i < block_count(blocks) && #[trigger] voxel_variant(cat, blocks, k - 1, i, g);
                assert(voxel_variant(cat, blocks, k - 1, i, g) && cat.spec_entry(k - 1).unwrap().category@ == c);
            }
        }
    }
}

proof fn lemma_variants_vertices_ge(gs: Seq<GeometryVariant>, k: int, g: int)
    requires
        0 <= g < k <= gs.len(),
    ensures
        variants_vertices(gs, k) >= gs[g].vertex_count(),
    decreases k,
{
    if g < k - 1 {
        lemma_variants_vertices_ge(gs, k - 1, g);
        lemma_variants_vertices_nonneg(gs, k - 1);
    } else {
        lemma_variants_vertices_nonneg(gs, k - 1);
    }
}

proof fn lemma_variants_vertices_nonneg(gs: Seq<GeometryVariant>, k: int)
    ensures
        variants_vertices(gs, k) >= 0,
    decreases k,
{
    if k > 0 {
        lemma_variants_vertices_nonneg(gs, k - 1);
    }
}

proof fn lemma_category_vertices_ge(cat: GeometryCatalog, blocks: Seq<i32>, c: Seq<char>, k: int, i: int)
    requires
        0 <= i < k,
    ensures
        category_vertices(cat, blocks, c, k) >= voxel_vertices(cat, blocks, c, i),
        voxel_vertices(cat, blocks, c, i) >= 0,
    decreases k,
{
    lemma_category_vertices_nonneg(cat, blocks, c, k - 1);
    if let Some(e) = cat.spec_entry(comp(blocks, i, 3)) {
        lemma_variants_vertices_nonneg(e.geometries@, e.geometries@.len() as int);
    }
    if let Some(e) = cat.spec_entry(comp(blocks, k - 1, 3)) {
        lemma_variants_vertices_nonneg(e.geometries@, e.geometries@.len() as int);
    }
    if i < k - 1 {
        lemma_category_vertices_ge(cat, blocks, c, k - 1, i);
    }
}

proof fn lemma_category_vertices_nonneg(cat: GeometryCatalog, blocks: Seq<i32>, c: Seq<char>, k: int)
    ensures
        category_vertices(cat, blocks, c, k) >= 0,
    decreases k,
{
    if k > 0 {
        lemma_category_vertices_nonneg(cat, blocks, c, k - 1);
        if let Some(e) = cat.spec_entry(comp(blocks, k - 1, 3)) {
            lemma_variants_vertices_nonneg(e.geometries@, e.geometries@.len() as int);
        }
    }
}

/// A category whose voxels use variants holding no vertex before culling
/// has an empty naive mesh.
pub proof fn lemma_vertices_before_culling(cat: GeometryCatalog, blocks: Seq<i32>, o: (i32, i32, i32), c: Seq<char>)
    requires
        cat.wf(),
        category_vertices(cat, blocks, c, block_count(blocks)) <= 0,
    ensures
        naive_view(cat, blocks, o, c).vertex_count == 0,
        naive_view(cat, blocks, o, c).indices.len() == 0,
{
    let n = cat.entries@.len() as int;
    lemma_types_source(cat, blocks, o, c, n);
    lemma_fold_types_ok(cat, blocks, o, c, n);
    if naive_view(cat, blocks, o, c).vertex_count > 0 {
        let (t, i, g) = choose|t: int, i: int, g: int|
            0 <= i < block_count(blocks) && #[trigger] voxel_variant(cat, blocks, t, i, g) && cat.spec_entry(t).unwrap().category@ == c;
        let e = cat.spec_entry(t).unwrap();
        lemma_variants_vertices_ge(e.geometries@, e.geometries@.len() as int, g);
        lemma_category_vertices_ge(cat, blocks, c, block_count(blocks), i);
    }
}

} // verus!
