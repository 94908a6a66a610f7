//! Greedy rectangle merging over a boolean occupancy plane.
use vstd::prelude::*;
use vstd::arithmetic::div_mod::{lemma_fundamental_div_mod, lemma_fundamental_div_mod_converse};

verus! {

/// A rectangle of cells of a plane: corner `(u, v)`, `width` cells along u
/// and `height` cells along v.
#[derive(Clone, Copy, PartialEq, Eq, Structural, Debug)]
pub struct Rect {
    pub u: usize,
    pub v: usize,
    pub width: usize,
    pub height: usize,
}

/// Number of consecutive occupied cells of row `v` from column `u` on.
pub open spec fn row_run(mask: Seq<bool>, us: int, v: int, u: int) -> int
    decreases us - u,
{
    if 0 <= u < us && mask[v * us + u] {
        1 + row_run(mask, us, v, u + 1)
    } else {
        0
    }
}

/// Columns `u .. u + w` of row `v` are all occupied.
pub open spec fn row_full(mask: Seq<bool>, us: int, v: int, u: int, w: int) -> bool {
    forall|k: int| 0 <= k < w ==> #[trigger] mask[v * us + u + k]
}

/// Number of consecutive rows from `v` on whose columns `u .. u + w` are
/// all occupied.
pub open spec fn col_run(mask: Seq<bool>, us: int, vs: int, v: int, u: int, w: int) -> int
    decreases vs - v,
{
    if 0 <= v < vs && row_full(mask, us, v, u, w) {
        1 + col_run(mask, us, vs, v + 1, u, w)
    } else {
        0
    }
}

/// The rectangle grown from cell `p`: as wide as the run of occupied cells
/// from it, then as tall as the rows that are occupied over that width.
pub open spec fn rect_at(mask: Seq<bool>, us: int, vs: int, p: int) -> Rect {
    let u = p % us;
    let v = p / us;
    let w = row_run(mask, us, v, u);
    Rect { u: u as usize, v: v as usize, width: w as usize, height: col_run(mask, us, vs, v, u, w) as usize }
}

/// The rectangle covers cell `(u, v)`.
pub open spec fn covers(r: Rect, u: int, v: int) -> bool {
    r.u <= u < r.u + r.width && r.v <= v < r.v + r.height
}

/// The plane with the rectangle's cells emptied.
pub open spec fn cleared(mask: Seq<bool>, us: int, r: Rect) -> Seq<bool> {
    Seq::new(mask.len(), |i: int| mask[i] && !covers(r, i % us, i / us))
}

/// The rectangles found by scanning the plane (`us` cells per row, row
/// after row) from cell `p` on: each occupied cell met starts a rectangle
/// grown from it, whose cells are then emptied.
pub open spec fn scan(mask: Seq<bool>, us: int, vs: int, p: int) -> Seq<Rect>
    decreases mask.len() - p,
{
    if p < 0 || p >= mask.len() || us <= 0 {
        Seq::empty()
    } else if !mask[p] {
        scan(mask, us, vs, p + 1)
    } else {
        let r = rect_at(mask, us, vs, p);
        Seq::empty().push(r) + scan(cleared(mask, us, r), us, vs, p + 1)
    }
}

/// Where cell `(u, v)` lies in the plane.
proof fn lemma_cell(us: int, vs: int, u: int, v: int)
    requires
        0 <= u < us,
        0 <= v < vs,
    ensures
        0 <= v * us + u < us * vs,
        (v * us + u) % us == u,
        (v * us + u) / us == v,
        v * us + us <= us * vs,
{
    assert(0 <= v * us + u < us * vs && v * us + us <= us * vs) by (nonlinear_arith)
        requires
            0 <= u < us,
            0 <= v < vs,
    ;
    lemma_fundamental_div_mod_converse(v * us + u, us, v, u);
}

proof fn lemma_row_run_end(mask: Seq<bool>, us: int, v: int, u: int, w: int)
    requires
        0 <= u,
        0 <= w,
        row_full(mask, us, v, u, w),
        u + w <= us,
    ensures
        row_run(mask, us, v, u) == w + row_run(mask, us, v, u + w),
    decreases w,
{
    if w > 0 {
        assert(mask[v * us + u + 0]);
        assert forall|k: int| 0 <= k < w - 1 implies #[trigger] mask[v * us + (u + 1) + k] by {
            assert(mask[v * us + u + (k + 1)]);
        }
        lemma_row_run_end(mask, us, v, u + 1, w - 1);
    }
}

/// Finds the rectangles of the plane `mask` (`us` cells per row, `vs`
/// rows): row after row, each occupied cell not yet covered starts a
/// rectangle, widened while the row stays occupied and then heightened
/// while whole rows of that width stay occupied.
pub fn greedy_rectangles(mask: Vec<bool>, us: usize, vs: usize) -> (r: Vec<Rect>)
    requires
        mask@.len() == us * vs,
    ensures
        r@ == scan(mask@, us as int, vs as int, 0),
        forall|k: int|
            0 <= k < r@.len() ==> (#[trigger] r@[k]).u + r@[k].width <= us && r@[k].v + r@[k].height
                <= vs && r@[k].width >= 1 && r@[k].height >= 1,
{
    let ghost m0 = mask@;
    let n = mask.len();
    let mut cur = mask;
    let mut out: Vec<Rect> = Vec::new();
    let mut p: usize = 0;
    while p < n
        invariant
            p <= n,
            n == cur@.len(),
            n == us * vs,
            out@ + scan(cur@, us as int, vs as int, p as int) == scan(m0, us as int, vs as int, 0),
            forall|k: int|
                0 <= k < out@.len() ==> (#[trigger] out@[k]).u + out@[k].width <= us && out@[k].v
                    + out@[k].height <= vs && out@[k].width >= 1 && out@[k].height >= 1,
        decreases n - p,
    {
        if cur[p] {
            let ghost before = cur@;
            proof {
                assert(us > 0) by (nonlinear_arith)
                    requires
                        n == us * vs,
                        p < n,
                ;
            }
            let u = p % us;
            let v = p / us;
            proof {
                lemma_fundamental_div_mod(p as int, us as int);
                assert(us * v == v * us) by (nonlinear_arith);
                assert(p == v * us + u);
                assert(v < vs) by (nonlinear_arith)
                    requires
                        p == v * us + u,
                        p < us * vs,
                        0 <= u,
                ;
                lemma_cell(us as int, vs as int, u as int, v as int);
            }
            let mut w: usize = 1;
            while u + w < us && cur[p + w]
                invariant
                    1 <= w,
                    u + w <= us,
                    u < us,
                    v < vs,
                    p == v * us + u,
                    v * us + us <= us * vs,
                    n == us * vs,
                    cur@ == before,
                    n == cur@.len(),
                    row_full(before, us as int, v as int, u as int, w as int),
                decreases us - w,
            {
                proof {
                    assert(before[v * us + u + w as int]);
                }
                w += 1;
            }
            proof {
                lemma_row_run_end(before, us as int, v as int, u as int, w as int);
                if u + w < us {
                    assert(!before[v * us + (u + w)]);
                }
                assert(row_run(before, us as int, v as int, (u + w) as int) == 0);
            }
            let mut h: usize = 1;
            let mut growing = true;
            proof {
                assert(col_run(before, us as int, vs as int, v as int, u as int, w as int) == 1
                    + col_run(before, us as int, vs as int, v + 1, u as int, w as int));
            }
            while v + h < vs && growing
                invariant
                    1 <= h,
                    v + h <= vs,
                    1 <= w,
                    u + w <= us,
                    n == us * vs,
                    cur@ == before,
                    n == cur@.len(),
                    col_run(before, us as int, vs as int, v as int, u as int, w as int) == h
                        + col_run(before, us as int, vs as int, v + h, u as int, w as int),
                    !growing ==> !row_full(before, us as int, (v + h) as int, u as int, w as int),
                decreases vs - h + (if growing { 1int } else { 0 }),
            {
                proof {
                    lemma_cell(us as int, vs as int, u as int, (v + h) as int);
                }
                let row = (v + h) * us + u;
                let mut k: usize = 0;
                let mut full = true;
                while k < w && full
                    invariant
                        k <= w,
                        u + w <= us,
                        row == (v + h) * us + u,
                        (v + h) * us + us <= us * vs,
                        n == us * vs,
                        n == cur@.len(),
                        cur@ == before,
                        forall|j: int| 0 <= j < k ==> #[trigger] before[(v + h) * us + u + j],
                        !full ==> !row_full(before, us as int, (v + h) as int, u as int, w as int),
                    decreases w - k + (if full { 1int } else { 0 }),
                {
                    if !cur[row + k] {
                        full = false;
                        proof {
                            assert(!before[(v + h) * us + u + k]);
                        }
                    } else {
                        k += 1;
                    }
                }
                if full {
                    proof {
                        assert(row_full(before, us as int, (v + h) as int, u as int, w as int));
                        assert(col_run(before, us as int, vs as int, (v + h) as int, u as int, w as int) == 1
                            + col_run(before, us as int, vs as int, v + h + 1, u as int, w as int));
                    }
                    h += 1;
                } else {
                    growing = false;
                }
            }
            proof {
                assert(col_run(before, us as int, vs as int, (v + h) as int, u as int, w as int) == 0);
            }
            let rect = Rect { u, v, width: w, height: h };
            assert(rect == rect_at(before, us as int, vs as int, p as int));
            let mut hh: usize = 0;
            while hh < h
                invariant
                    hh <= h,
                    v + h <= vs,
                    u + w <= us,
                    n == us * vs,
                    n == cur@.len(),
                    rect == (Rect { u, v, width: w, height: h }),
                    us > 0,
                    forall|k: int|
                        0 <= k < out@.len() ==> (#[trigger] out@[k]).u + out@[k].width <= us && out@[k].v
                            + out@[k].height <= vs && out@[k].width >= 1 && out@[k].height >= 1,
                    forall|i: int|
                        0 <= i < n ==> #[trigger] cur@[i] == (before[i] && !(u <= i % (us as int) < u + w
                            && v <= i / (us as int) < v + hh)),
                decreases h - hh,
            {
                let mut k: usize = 0;
                while k < w
                    invariant
                        k <= w,
                        hh < h,
                        v + h <= vs,
                        u + w <= us,
                        n == us * vs,
                        n == cur@.len(),
                        us > 0,
                        forall|i: int|
                            0 <= i < n ==> #[trigger] cur@[i] == (before[i] && !(u <= i % (us as int) < u
                                + w && v <= i / (us as int) < v + hh) && !(u <= i % (us as int) < u + k
                                && i / (us as int) == v + hh)),
                    decreases w - k,
                {
                    proof {
                        lemma_cell(us as int, vs as int, (u + k) as int, (v + hh) as int);
                    }
                    let idx = (v + hh) * us + u + k;
                    let ghost prev = cur@;
                    cur.set(idx, false);
                    proof {
                        assert forall|i: int| 0 <= i < n implies #[trigger] cur@[i] == (before[i] && !(u
                            <= i % (us as int) < u + w && v <= i / (us as int) < v + hh) && !(u <= i
                            % (us as int) < u + k + 1 && i / (us as int) == v + hh)) by {
                            if i != idx {
                                assert(cur@[i] == prev[i]);
                                lemma_fundamental_div_mod(i, us as int);
                                if i % (us as int) == u + k && i / (us as int) == v + hh {
                                    assert(i == (us as int) * (v + hh) + (u + k));
                                    assert((us as int) * (v + hh) == (v + hh) * (us as int)) by (nonlinear_arith);
                                }
                            }
                        }
                    }
                    k += 1;
                }
                proof {
                    assert forall|i: int| 0 <= i < n implies #[trigger] cur@[i] == (before[i] && !(u
                        <= i % (us as int) < u + w && v <= i / (us as int) < v + hh + 1)) by {}
                }
                hh += 1;
            }
            proof {
                assert(cur@ =~= cleared(before, us as int, rect));
                assert(scan(before, us as int, vs as int, p as int) == Seq::empty().push(rect) + scan(
                    cur@,
                    us as int,
                    vs as int,
                    p + 1,
                ));
                assert(out@.push(rect) + scan(cur@, us as int, vs as int, p + 1) =~= out@ + scan(
                    before,
                    us as int,
                    vs as int,
                    p as int,
                ));
            }
            out.push(rect);
        }
        p += 1;
    }
    proof {
        assert(scan(cur@, us as int, vs as int, n as int) =~= Seq::empty());
        assert(out@ + Seq::<Rect>::empty() =~= out@);
    }
    out
}

/// A plane with every cell occupied.
pub open spec fn full_plane(us: int, vs: int) -> Seq<bool> {
    Seq::new((us * vs) as nat, |i: int| true)
}

proof fn lemma_scan_empty_plane(mask: Seq<bool>, us: int, vs: int, p: int)
    requires
        forall|i: int| 0 <= i < mask.len() ==> !mask[i],
    ensures
        scan(mask, us, vs, p) == Seq::<Rect>::empty(),
    decreases mask.len() - p,
{
    if 0 <= p < mask.len() && us > 0 {
        lemma_scan_empty_plane(mask, us, vs, p + 1);
    }
}

proof fn lemma_col_run_full(us: int, vs: int, v: int)
    requires
        us >= 1,
        0 <= v <= vs,
    ensures
        col_run(full_plane(us, vs), us, vs, v, 0, us) == vs - v,
    decreases vs - v,
{
    if v < vs {
        assert forall|k: int| 0 <= k < us implies #[trigger] full_plane(us, vs)[v * us + 0 + k] by {
            lemma_cell(us, vs, k, v);
        }
        lemma_col_run_full(us, vs, v + 1);
    }
}

/// Scanning a fully occupied plane of `us` by `vs` cells yields exactly one
/// rectangle, the whole plane.
pub proof fn lemma_full_plane_one_rect(us: int, vs: int)
    requires
        1 <= us <= usize::MAX,
        1 <= vs <= usize::MAX,
    ensures
        scan(full_plane(us, vs), us, vs, 0) == Seq::empty().push(
            Rect { u: 0, v: 0, width: us as usize, height: vs as usize },
        ),
{
    let mask = full_plane(us, vs);
    lemma_cell(us, vs, 0, 0);
    assert forall|k: int| 0 <= k < us implies #[trigger] mask[0 * us + 0 + k] by {
        lemma_cell(us, vs, k, 0);
    }
    lemma_row_run_end(mask, us, 0, 0, us);
    lemma_col_run_full(us, vs, 0);
    let r = rect_at(mask, us, vs, 0);
    assert(r == Rect { u: 0, v: 0, width: us as usize, height: vs as usize });
    let rest = cleared(mask, us, r);
    assert forall|i: int| 0 <= i < rest.len() implies !rest[i] by {
        lemma_fundamental_div_mod(i, us);
        let q = i / us;
        let m = i % us;
        assert(0 <= m < us && 0 <= q < vs) by (nonlinear_arith)
            requires
                i == us * q + m,
                0 <= i < us * vs,
                us >= 1,
                m == i % us,
        {
            assert(0 <= m < us) by {
                vstd::arithmetic::div_mod::lemma_mod_pos_bound(i, us);
            }
        }
    }
    lemma_scan_empty_plane(rest, us, vs, 1);
}

proof fn lemma_row_run_full(mask: Seq<bool>, us: int, v: int, u: int)
    requires
        0 <= u,
    ensures
        row_full(mask, us, v, u, row_run(mask, us, v, u)),
        row_run(mask, us, v, u) >= 0,
        u < us ==> u + row_run(mask, us, v, u) <= us,
    decreases us - u,
{
    if 0 <= u < us && mask[v * us + u] {
        lemma_row_run_full(mask, us, v, u + 1);
        let w = row_run(mask, us, v, u);
        assert forall|k: int| 0 <= k < w implies #[trigger] mask[v * us + u + k] by {
            if k > 0 {
                assert(mask[v * us + (u + 1) + (k - 1)]);
            }
        }
    }
}

proof fn lemma_col_run_rows(mask: Seq<bool>, us: int, vs: int, v: int, u: int, w: int, v2: int)
    requires
        0 <= v <= v2 < v + col_run(mask, us, vs, v, u, w),
    ensures
        row_full(mask, us, v2, u, w),
        v2 < vs,
    decreases v2 - v,
{
    if v2 > v {
        lemma_col_run_rows(mask, us, vs, v + 1, u, w, v2);
    }
}

proof fn lemma_col_run_bound(mask: Seq<bool>, us: int, vs: int, v: int, u: int, w: int)
    requires
        0 <= v,
    ensures
        0 <= col_run(mask, us, vs, v, u, w),
        v < vs ==> v + col_run(mask, us, vs, v, u, w) <= vs,
    decreases vs - v,
{
    if 0 <= v < vs && row_full(mask, us, v, u, w) {
        lemma_col_run_bound(mask, us, vs, v + 1, u, w);
    }
}

/// The rectangles cover only occupied cells of the plane, pairwise
/// disjointly, and every occupied cell.
pub open spec fn partitions(rs: Seq<Rect>, mask: Seq<bool>, us: int, vs: int) -> bool {
    &&& forall|k: int, u: int, v: int|
        0 <= k < rs.len() && #[trigger] covers(rs[k], u, v) ==> 0 <= u < us && 0 <= v < vs && mask[v * us + u]
    &&& forall|k1: int, k2: int, u: int, v: int|
        0 <= k1 < k2 < rs.len() && #[trigger] covers(rs[k1], u, v) ==> !#[trigger] covers(rs[k2], u, v)
    &&& forall|u: int, v: int|
        0 <= u < us && 0 <= v < vs && #[trigger] mask[v * us + u] ==> exists|k: int| 0 <= k < rs.len() && covers(rs[k], u, v)
}

proof fn lemma_scan_partition_from(mask: Seq<bool>, us: int, vs: int, p: int)
    requires
        1 <= us <= usize::MAX,
        1 <= vs <= usize::MAX,
        mask.len() == us * vs,
        0 <= p <= mask.len(),
        forall|i: int| 0 <= i < p ==> !mask[i],
    ensures
        partitions(scan(mask, us, vs, p), mask, us, vs),
    decreases mask.len() - p,
{
    let rs = scan(mask, us, vs, p);
    if p == mask.len() {
        assert forall|u: int, v: int| 0 <= u < us && 0 <= v < vs && #[trigger] mask[v * us + u] implies exists|k: int|
            0 <= k < rs.len() && covers(rs[k], u, v) by {
            lemma_cell(us, vs, u, v);
        }
    } else if !mask[p] {
        lemma_scan_partition_from(mask, us, vs, p + 1);
    } else {
        lemma_fundamental_div_mod(p, us);
        vstd::arithmetic::div_mod::lemma_mod_pos_bound(p, us);
        let u0 = p % us;
        let v0 = p / us;
        assert(us * v0 == v0 * us) by (nonlinear_arith);
        assert(0 <= v0 < vs) by (nonlinear_arith)
            requires
                p == us * v0 + u0,
                0 <= u0 < us,
                0 <= p < us * vs,
        ;
        let r = rect_at(mask, us, vs, p);
        lemma_row_run_full(mask, us, v0, u0);
        let w = row_run(mask, us, v0, u0);
        assert(mask[v0 * us + u0]);
        lemma_row_run_full(mask, us, v0, u0 + 1);
        assert(w == 1 + row_run(mask, us, v0, u0 + 1));
        assert(w >= 1);
        lemma_col_run_bound(mask, us, vs, v0, u0, w);
        assert(row_full(mask, us, v0, u0, w));
        let h = col_run(mask, us, vs, v0, u0, w);
        lemma_col_run_bound(mask, us, vs, v0 + 1, u0, w);
        assert(h == 1 + col_run(mask, us, vs, v0 + 1, u0, w));
        assert(h >= 1);
        assert(r.u == u0 && r.v == v0 && r.width == w && r.height == h);
        let m2 = cleared(mask, us, r);
        assert forall|i: int| 0 <= i < p + 1 implies !m2[i] by {
            if i == p {
                assert(covers(r, u0, v0));
            }
        }
        lemma_scan_partition_from(m2, us, vs, p + 1);
        let rest = scan(m2, us, vs, p + 1);
        assert(rs == Seq::empty().push(r) + rest);
        assert(rs[0] == r);
        assert forall|k: int| 0 <= k < rest.len() implies rs[k + 1] == rest[k] by {}
        // the rectangle's own cells are occupied and inside the plane
        assert forall|u: int, v: int| #[trigger] covers(r, u, v) implies 0 <= u < us && 0 <= v < vs && mask[v * us + u]
            && !m2[v * us + u] by {
            lemma_col_run_rows(mask, us, vs, v0, u0, w, v);
            assert(mask[v * us + u0 + (u - u0)]);
            lemma_cell(us, vs, u, v);
        }
        // cells of later rectangles are occupied cells outside the first one
        assert forall|k: int, u: int, v: int| 0 <= k < rest.len() && #[trigger] covers(rest[k], u, v) implies !covers(r, u, v)
            && mask[v * us + u] by {
            lemma_cell(us, vs, u, v);
        }
        assert forall|k: int, u: int, v: int|
            0 <= k < rs.len() && #[trigger] covers(rs[k], u, v) implies 0 <= u < us && 0 <= v < vs && mask[v * us + u] by {
            if k > 0 {
                assert(covers(rest[k - 1], u, v));
            }
        }
        assert forall|k1: int, k2: int, u: int, v: int|
            0 <= k1 < k2 < rs.len() && #[trigger] covers(rs[k1], u, v) implies !#[trigger] covers(rs[k2], u, v) by {
            if k1 == 0 {
                if covers(rs[k2], u, v) {
                    assert(covers(rest[k2 - 1], u, v));
                }
            } else {
                assert(covers(rest[k1 - 1], u, v));
                if covers(rs[k2], u, v) {
                    assert(covers(rest[k2 - 1], u, v));
                }
            }
        }
        assert forall|u: int, v: int| 0 <= u < us && 0 <= v < vs && #[trigger] mask[v * us + u] implies exists|k: int|
            0 <= k < rs.len() && covers(rs[k], u, v) by {
            if covers(r, u, v) {
                assert(covers(rs[0], u, v));
            } else {
                lemma_cell(us, vs, u, v);
                assert(m2[v * us + u]);
                let k = choose|k: int| 0 <= k < rest.len() && covers(rest[k], u, v);
                assert(covers(rs[k + 1], u, v));
            }
        }
    }
}

/// The rectangles of the scan partition the occupied cells of the plane:
/// each covers only occupied cells inside it, no two share a cell, and
/// every occupied cell lies in one of them.
pub proof fn lemma_scan_partition(mask: Seq<bool>, us: int, vs: int)
    requires
        1 <= us <= usize::MAX,
        1 <= vs <= usize::MAX,
        mask.len() == us * vs,
    ensures
        partitions(scan(mask, us, vs, 0), mask, us, vs),
{
    lemma_scan_partition_from(mask, us, vs, 0);
}

/// A plane of `us` by `vs` cells whose occupied cells are exactly the
/// rectangle at `(u0, v0)`, `w` wide and `h` high.
pub open spec fn rect_plane(us: int, vs: int, u0: int, v0: int, w: int, h: int) -> Seq<bool> {
    Seq::new((us * vs) as nat, |i: int| u0 <= i % us < u0 + w && v0 <= i / us < v0 + h)
}

proof fn lemma_scan_skip(mask: Seq<bool>, us: int, vs: int, p: int, q: int)
    requires
        0 <= p <= q <= mask.len(),
        us >= 1,
        forall|i: int| p <= i < q ==> !mask[i],
    ensures
        scan(mask, us, vs, p) == scan(mask, us, vs, q),
    decreases q - p,
{
    if p < q {
        lemma_scan_skip(mask, us, vs, p + 1, q);
    }
}

proof fn lemma_rect_plane_rows(us: int, vs: int, u0: int, v0: int, w: int, h: int, v: int)
    requires
        1 <= us,
        0 <= u0,
        w >= 1,
        u0 + w <= us,
        0 <= v0,
        h >= 1,
        v0 + h <= vs,
        v0 <= v <= v0 + h,
    ensures
        col_run(rect_plane(us, vs, u0, v0, w, h), us, vs, v, u0, w) == v0 + h - v,
    decreases v0 + h - v,
{
    let mask = rect_plane(us, vs, u0, v0, w, h);
    if v < v0 + h {
        assert forall|k: int| 0 <= k < w implies #[trigger] mask[v * us + u0 + k] by {
            lemma_cell(us, vs, u0 + k, v);
        }
        lemma_rect_plane_rows(us, vs, u0, v0, w, h, v + 1);
    } else if v < vs {
        lemma_cell(us, vs, u0, v);
        assert(!mask[v * us + u0 + 0]);
    }
}

/// Scanning a plane whose occupied cells form one rectangle yields exactly
/// that rectangle, wherever it lies in the plane.
pub proof fn lemma_rect_plane_one_rect(us: int, vs: int, u0: int, v0: int, w: int, h: int)
    requires
        1 <= us <= usize::MAX,
        1 <= vs <= usize::MAX,
        0 <= u0,
        w >= 1,
        u0 + w <= us,
        0 <= v0,
        h >= 1,
        v0 + h <= vs,
    ensures
        scan(rect_plane(us, vs, u0, v0, w, h), us, vs, 0) == Seq::empty().push(
            Rect { u: u0 as usize, v: v0 as usize, width: w as usize, height: h as usize },
        ),
{
    let mask = rect_plane(us, vs, u0, v0, w, h);
    lemma_cell(us, vs, u0, v0);
    let p0 = v0 * us + u0;
    assert forall|i: int| 0 <= i < p0 implies !mask[i] by {
        lemma_fundamental_div_mod(i, us);
        vstd::arithmetic::div_mod::lemma_mod_pos_bound(i, us);
        let q = i / us;
        let r = i % us;
        assert(q < v0 || (q == v0 && r < u0)) by (nonlinear_arith)
            requires
                i == us * q + r,
                0 <= r < us,
                0 <= u0 < us,
                i < v0 * us + u0,
        ;
    }
    lemma_scan_skip(mask, us, vs, 0, p0);
    assert forall|k: int| 0 <= k < w implies #[trigger] mask[v0 * us + u0 + k] by {
        lemma_cell(us, vs, u0 + k, v0);
    }
    lemma_row_run_end(mask, us, v0, u0, w);
    if u0 + w < us {
        lemma_cell(us, vs, u0 + w, v0);
        assert(!mask[v0 * us + (u0 + w)]);
    }
    assert(row_run(mask, us, v0, u0 + w) == 0);
    lemma_rect_plane_rows(us, vs, u0, v0, w, h, v0);
    let r = rect_at(mask, us, vs, p0);
    assert(r == Rect { u: u0 as usize, v: v0 as usize, width: w as usize, height: h as usize });
    let rest = cleared(mask, us, r);
    assert forall|i: int| 0 <= i < rest.len() implies !rest[i] by {}
    lemma_scan_empty_plane(rest, us, vs, p0 + 1);
    assert(mask[p0]);
}

} // verus!
