//! The back-to-front draw plan.
//!
//! Every frame the application projects each primitive, keeps its depth
//! surrogate (the floor of the squared distance to the projection origin, a
//! plain non-negative integer) and whether each projected coordinate landed
//! strictly inside the screen.  The painter then decides the whole drawing
//! pass: which primitives are drawn at all, and in which order.  Primitives
//! are drawn farthest first — ascending by depth surrogate and then
//! reversed, so at equal depth the later-built primitive is drawn first —
//! and a primitive with any projected vertex off screen is dropped whole,
//! with no clipping.

use vstd::arithmetic::div_mod::lemma_div_is_ordered;
use vstd::arithmetic::div_mod::lemma_div_multiples_vanish;
use vstd::arithmetic::mul::lemma_mul_inequality;
use vstd::prelude::*;

verus! {

/// One primitive queued for this frame: its depth surrogate, used only as a
/// relative sort key, and whether every one of its projected coordinates
/// lies strictly inside the screen.
#[derive(Clone, Copy)]
pub struct Prim {
    /// floor of the squared distance from the projection origin
    pub depth: usize,
    /// true when the whole primitive lies strictly on screen
    pub visible: bool,
}

/// Primitive `i` is drawn strictly before primitive `j`: it is farther
/// away, or equally far and built later.  (The plan is the reverse of a
/// stable ascending sort, so equal depths come back in reverse build
/// order.)  This is a total order on distinct indices of one frame.
pub open spec fn drawn_before(ps: Seq<Prim>, i: int, j: int) -> bool {
    ps[i].depth > ps[j].depth || (ps[i].depth == ps[j].depth && i > j)
}

/// `r` is the complete draw plan for the frame `ps`: it lists exactly the
/// indices of the visible primitives, each once, farthest first.
pub open spec fn is_draw_plan(ps: Seq<Prim>, r: Seq<usize>) -> bool {
    &&& forall|k: int|
        0 <= k < r.len() ==> r[k] < ps.len() && ps[r[k] as int].visible
    &&& forall|i: int|
        0 <= i < ps.len() && ps[i].visible ==> exists|k: int|
            0 <= k < r.len() && r[k] as int == i
    &&& forall|k1: int, k2: int|
        0 <= k1 < k2 < r.len() ==> drawn_before(ps, r[k1] as int, r[k2] as int)
}

/// A triangle is kept only when all three of its projected vertices lie
/// strictly inside the screen; one vertex out of range drops it whole.
pub fn triangle_prim(depth: usize, v0_on: bool, v1_on: bool, v2_on: bool) -> (p: Prim)
    ensures
        p.depth == depth,
        p.visible == (v0_on && v1_on && v2_on),
{
    Prim { depth, visible: v0_on && v1_on && v2_on }
}

/// A cloud point is kept exactly when its own projected coordinate lies
/// strictly inside the screen.
pub fn point_prim(depth: usize, on_screen: bool) -> (p: Prim)
    ensures
        p.depth == depth,
        p.visible == on_screen,
{
    Prim { depth, visible: on_screen }
}

/// The draw plan for this frame's primitives: the manual painter's
/// algorithm.  Sorting the frame ascending by depth surrogate (stably) and
/// reversing yields exactly the plan below — the visible primitives,
/// farthest first, equal depths in reverse build order.
pub fn draw_order(prims: &Vec<Prim>) -> (r: Vec<usize>)
    ensures
        is_draw_plan(prims@, r@),
{
    let mut r: Vec<usize> = Vec::new();
    let mut i: usize = 0;
    while i < prims.len()
        invariant
            i <= prims@.len(),
            forall|k: int| 0 <= k < r@.len()
                ==> #[trigger] r@[k] < i && prims@[r@[k] as int].visible,
            forall|m: int|
                0 <= m < i && prims@[m].visible ==> exists|k: int|
                    0 <= k < r@.len() && #[trigger] r@[k] as int == m,
            forall|k1: int, k2: int|
                0 <= k1 < k2 < r@.len() ==> drawn_before(
                    prims@,
                    r@[k1] as int,
                    r@[k2] as int,
                ),
        decreases prims@.len() - i,
    {
        if prims[i].visible {
            let depth_i = prims[i].depth;
            let mut j: usize = 0;
            while j < r.len() && prims[r[j]].depth > depth_i
                invariant
                    j <= r@.len(),
                    i < prims@.len(),
                    depth_i == prims@[i as int].depth,
                    forall|k: int| 0 <= k < r@.len()
                        ==> #[trigger] r@[k] < i && prims@[r@[k] as int].visible,
                    forall|k: int|
                        0 <= k < j ==> prims@[#[trigger] r@[k] as int].depth
                            > prims@[i as int].depth,
                decreases r@.len() - j,
            {
                j = j + 1;
            }
            let ghost old_r = r@;
            let ghost jj = j as int;
            proof {
                assert(jj == old_r.len() || prims@[old_r[jj] as int].depth
                    <= prims@[i as int].depth);
            }
            r.insert(j, i);
            proof {
                old_r.insert_ensures(jj, i);
                assert(r@ == old_r.insert(jj, i));
                assert forall|k: int| 0 <= k < r@.len() implies #[trigger] r@[k] < i + 1
                    && prims@[r@[k] as int].visible by {
                    if k < jj {
                        assert(r@[k] == old_r[k]);
                    } else if k == jj {
                        assert(r@[k] == i);
                    } else {
                        assert(r@[k] == old_r[k - 1]);
                    }
                }
                assert forall|m: int| 0 <= m < i + 1 && prims@[m].visible implies exists|k: int|
                    0 <= k < r@.len() && #[trigger] r@[k] as int == m by {
                    if m == i as int {
                        assert(r@[jj] as int == m);
                    } else {
                        let k0 = choose|k0: int|
                            0 <= k0 < old_r.len() && #[trigger] old_r[k0] as int == m;
                        if k0 < jj {
                            assert(r@[k0] == old_r[k0]);
                            assert(r@[k0] as int == m);
                        } else {
                            assert(r@[k0 + 1] == old_r[k0]);
                            assert(r@[k0 + 1] as int == m);
                        }
                    }
                }
                assert forall|k1: int, k2: int| 0 <= k1 < k2 < r@.len() implies drawn_before(
                    prims@,
                    r@[k1] as int,
                    r@[k2] as int,
                ) by {
                    if k2 < jj {
                        assert(r@[k1] == old_r[k1]);
                        assert(r@[k2] == old_r[k2]);
                    } else if k2 == jj {
                        assert(r@[k1] == old_r[k1]);
                        assert(r@[k2] == i);
                        assert(prims@[old_r[k1] as int].depth > prims@[i as int].depth);
                    } else {
                        assert(r@[k2] == old_r[k2 - 1]);
                        if k1 < jj {
                            assert(r@[k1] == old_r[k1]);
                            if jj < k2 - 1 {
                                assert(drawn_before(prims@, old_r[k1] as int, old_r[k2 - 1] as int));
                            }
                        } else if k1 == jj {
                            assert(r@[k1] == i);
                            assert(jj <= k2 - 1 < old_r.len());
                            assert(prims@[old_r[jj] as int].depth <= prims@[i as int].depth);
                            if jj < k2 - 1 {
                                assert(drawn_before(prims@, old_r[jj] as int, old_r[k2 - 1] as int));
                            }
                            assert(old_r[k2 - 1] < i);
                        } else {
                            assert(r@[k1] == old_r[k1 - 1]);
                            assert(drawn_before(prims@, old_r[k1 - 1] as int, old_r[k2 - 1] as int));
                        }
                    }
                }
            }
        }
        i = i + 1;
    }
    r
}

/// Back-to-front: of two primitives standing in the plan, the one with the
/// strictly greater depth surrogate stands strictly earlier, so it is drawn
/// strictly before the nearer one.
pub proof fn lemma_farther_drawn_first(ps: Seq<Prim>, r: Seq<usize>, k1: int, k2: int)
    requires
        is_draw_plan(ps, r),
        0 <= k1 < r.len(),
        0 <= k2 < r.len(),
        ps[r[k1] as int].depth > ps[r[k2] as int].depth,
    ensures
        k1 < k2,
{
    if k2 < k1 {
        assert(drawn_before(ps, r[k2] as int, r[k1] as int));
    }
}

/// Culling is total: a primitive with any projected vertex off screen —
/// one whose `visible` flag is false — appears nowhere in the plan, even
/// when the rest of it would be drawable.
pub proof fn lemma_culled_never_drawn(ps: Seq<Prim>, r: Seq<usize>, i: int)
    requires
        is_draw_plan(ps, r),
        0 <= i < ps.len(),
        !ps[i].visible,
    ensures
        forall|k: int| 0 <= k < r.len() ==> #[trigger] r[k] as int != i,
{
    assert forall|k: int| 0 <= k < r.len() implies #[trigger] r[k] as int != i by {
        assert(ps[r[k] as int].visible);
    }
}

/// No index repeats in a plan: the order between two positions is strict,
/// and nothing is drawn strictly before itself.
pub proof fn lemma_plan_distinct(ps: Seq<Prim>, r: Seq<usize>, k1: int, k2: int)
    requires
        is_draw_plan(ps, r),
        0 <= k1 < r.len(),
        0 <= k2 < r.len(),
        k1 != k2,
    ensures
        r[k1] != r[k2],
{
    if k1 < k2 {
        assert(drawn_before(ps, r[k1] as int, r[k2] as int));
    } else {
        assert(drawn_before(ps, r[k2] as int, r[k1] as int));
    }
}

proof fn lemma_plan_agree_upto(ps: Seq<Prim>, r1: Seq<usize>, r2: Seq<usize>, n: int)
    requires
        is_draw_plan(ps, r1),
        is_draw_plan(ps, r2),
        0 <= n <= r1.len(),
        n <= r2.len(),
    ensures
        forall|k: int| 0 <= k < n ==> r1[k] == r2[k],
    decreases n,
{
    if n > 0 {
        lemma_plan_agree_upto(ps, r1, r2, n - 1);
        let e1 = r1[n - 1];
        let e2 = r2[n - 1];
        if e1 != e2 {
            assert(e1 < ps.len() && ps[e1 as int].visible);
            assert(e2 < ps.len() && ps[e2 as int].visible);
            let p = choose|p: int| 0 <= p < r2.len() && #[trigger] r2[p] as int == e1 as int;
            if p < n - 1 {
                assert(r1[p] == r2[p]);
                lemma_plan_distinct(ps, r1, p, n - 1);
                assert(false);
            }
            assert(p > n - 1);
            assert(drawn_before(ps, e2 as int, e1 as int));
            let q = choose|q: int| 0 <= q < r1.len() && #[trigger] r1[q] as int == e2 as int;
            if q < n - 1 {
                assert(r2[q] == r1[q]);
                lemma_plan_distinct(ps, r2, q, n - 1);
                assert(false);
            }
            assert(q > n - 1);
            assert(drawn_before(ps, e1 as int, e2 as int));
            assert(false);
        }
    }
}

/// One frame admits exactly one draw plan: the depth surrogates induce a
/// fixed draw order, reproducible across repeated runs on identical input.
pub proof fn lemma_plan_unique(ps: Seq<Prim>, r1: Seq<usize>, r2: Seq<usize>)
    requires
        is_draw_plan(ps, r1),
        is_draw_plan(ps, r2),
    ensures
        r1 == r2,
{
    if r1.len() < r2.len() {
        lemma_plan_agree_upto(ps, r1, r2, r1.len() as int);
        let e = r2[r1.len() as int];
        assert(e < ps.len() && ps[e as int].visible);
        let q = choose|q: int| 0 <= q < r1.len() && #[trigger] r1[q] as int == e as int;
        assert(r2[q] == r1[q]);
        lemma_plan_distinct(ps, r2, q, r1.len() as int);
        assert(false);
    }
    if r2.len() < r1.len() {
        lemma_plan_agree_upto(ps, r1, r2, r2.len() as int);
        let e = r1[r2.len() as int];
        assert(e < ps.len() && ps[e as int].visible);
        let q = choose|q: int| 0 <= q < r2.len() && #[trigger] r2[q] as int == e as int;
        assert(r1[q] == r2[q]);
        lemma_plan_distinct(ps, r1, q, r2.len() as int);
        assert(false);
    }
    lemma_plan_agree_upto(ps, r1, r2, r1.len() as int);
    assert(r1 =~= r2);
}

/// The depth surrogate of the farthest primitive of the frame, or `None`
/// for an empty frame.
pub fn frame_max_depth(prims: &Vec<Prim>) -> (r: Option<usize>)
    ensures
        match r {
            Some(m) => (exists|k: int| 0 <= k < prims@.len() && prims@[k].depth == m)
                && (forall|k: int| 0 <= k < prims@.len() ==> prims@[k].depth <= m),
            None => prims@.len() == 0,
        },
{
    if prims.len() == 0 {
        return None;
    }
    let mut m = prims[0].depth;
    let mut i: usize = 1;
    while i < prims.len()
        invariant
            1 <= i <= prims@.len(),
            exists|k: int| 0 <= k < i && prims@[k].depth == m,
            forall|k: int| 0 <= k < i ==> prims@[k].depth <= m,
        decreases prims@.len() - i,
    {
        if prims[i].depth > m {
            m = prims[i].depth;
        }
        i = i + 1;
    }
    Some(m)
}

/// The brightness of one cloud point, as a function of its depth surrogate
/// and the frame's farthest one: a linear falloff, the farthest point drawn
/// darkest.
pub open spec fn falloff(depth: int, max_depth: int) -> int {
    255 - (depth * 200) / max_depth
}

/// The shade of one cloud point: nearer points get a lighter tone, from 55
/// at the frame's farthest point up to 255 at the projection origin.
pub fn point_brightness(depth: usize, max_depth: usize) -> (b: u8)
    requires
        max_depth > 0,
        depth <= max_depth,
    ensures
        b as int == falloff(depth as int, max_depth as int),
        55 <= b <= 255,
{
    let t: u128 = (depth as u128) * 200 / (max_depth as u128);
    proof {
        lemma_mul_inequality(depth as int, max_depth as int, 200);
        lemma_div_is_ordered(
            (depth as int) * 200,
            (max_depth as int) * 200,
            max_depth as int,
        );
        lemma_div_multiples_vanish(200, max_depth as int);
        assert(t <= 200);
    }
    255 - (t as u8)
}

/// The falloff never brightens with distance: of two depth surrogates in
/// range, the greater one gets the lower (or equal) brightness.
pub proof fn lemma_falloff_antitone(d1: int, d2: int, m: int)
    requires
        0 <= d1 <= d2,
        0 < m,
    ensures
        falloff(d1, m) >= falloff(d2, m),
{
    lemma_mul_inequality(d1, d2, 200);
    lemma_div_is_ordered(d1 * 200, d2 * 200, m);
}

} // verus!

