//! Incremental point-set triangulation in the Bowyer–Watson style: seed
//! with an oversized super-triangle, insert points one at a time by removing
//! every triangle whose circumcircle contains the new point, re-triangulate
//! the hole's boundary against it, and finally discard everything touching a
//! super-triangle corner.
//!
//! Coordinates are bounded integers, so the circumcircle test — the sign of
//! the determinant of paraboloid-lifted coordinates — is computed exactly.

use vstd::prelude::*;

verus! {

/// A planar point with bounded integer coordinates.
#[derive(Debug, Clone, Copy, PartialEq, Eq)]
pub struct Point2 {
    pub x: i64,
    pub y: i64,
}

/// Largest coordinate magnitude the triangulator accepts.
pub const COORD_LIMIT: i64 = 1048576;

/// A triangle as three indices into a point list.
#[derive(Debug, Clone, Copy, PartialEq, Eq)]
pub struct IndexTriangle {
    pub a: usize,
    pub b: usize,
    pub c: usize,
}

/// The point lies within the working coordinate range (which also admits
/// the super-triangle's corners, placed a few spans outside the input box).
pub open spec fn point_in_working_range(p: Point2) -> bool {
    -16777216 <= p.x <= 16777216 && -16777216 <= p.y <= 16777216
}

/// The point lies within the range accepted for input.
pub open spec fn point_in_input_range(p: Point2) -> bool {
    -(COORD_LIMIT as int) <= p.x <= COORD_LIMIT as int && -(COORD_LIMIT as int) <= p.y
        <= COORD_LIMIT as int
}

/// The circumcircle determinant: positive exactly when `d` lies inside the
/// circle through `a`, `b`, `c` (taken in counterclockwise order), by the
/// sign of the 3x3 determinant of the `d`-relative lifted coordinates.
pub open spec fn spec_incircle_det(a: Point2, b: Point2, c: Point2, d: Point2) -> int {
    let adx = a.x - d.x;
    let ady = a.y - d.y;
    let bdx = b.x - d.x;
    let bdy = b.y - d.y;
    let cdx = c.x - d.x;
    let cdy = c.y - d.y;
    let al = adx * adx + ady * ady;
    let bl = bdx * bdx + bdy * bdy;
    let cl = cdx * cdx + cdy * cdy;
    adx * (bdy * cl - bl * cdy) - ady * (bdx * cl - bl * cdx) + al * (bdx * cdy - bdy * cdx)
}

/// Whether `d` lies strictly inside the circumcircle of `a`, `b`, `c`:
/// the exact sign of the lifted determinant.
pub fn in_circumcircle(a: Point2, b: Point2, c: Point2, d: Point2) -> (r: bool)
    requires
        point_in_working_range(a),
        point_in_working_range(b),
        point_in_working_range(c),
        point_in_working_range(d),
    ensures
        r == (spec_incircle_det(a, b, c, d) > 0),
{
    let adx: i128 = a.x as i128 - d.x as i128;
    let ady: i128 = a.y as i128 - d.y as i128;
    let bdx: i128 = b.x as i128 - d.x as i128;
    let bdy: i128 = b.y as i128 - d.y as i128;
    let cdx: i128 = c.x as i128 - d.x as i128;
    let cdy: i128 = c.y as i128 - d.y as i128;
    proof {
        assert(adx * adx <= 1125899906842624int && ady * ady <= 1125899906842624int && bdx * bdx
            <= 1125899906842624int && bdy * bdy <= 1125899906842624int && cdx * cdx
            <= 1125899906842624int && cdy * cdy <= 1125899906842624int && adx * adx >= 0 && ady
            * ady >= 0 && bdx * bdx >= 0 && bdy * bdy >= 0 && cdx * cdx >= 0 && cdy * cdy
            >= 0) by (nonlinear_arith)
            requires
                -33554432 <= adx <= 33554432,
                -33554432 <= ady <= 33554432,
                -33554432 <= bdx <= 33554432,
                -33554432 <= bdy <= 33554432,
                -33554432 <= cdx <= 33554432,
                -33554432 <= cdy <= 33554432,
        ;
    }
    let al: i128 = adx * adx + ady * ady;
    let bl: i128 = bdx * bdx + bdy * bdy;
    let cl: i128 = cdx * cdx + cdy * cdy;
    proof {
        assert(-75557863725914323419136int <= bdy * cl <= 75557863725914323419136int
            && -75557863725914323419136int <= bl * cdy <= 75557863725914323419136int
            && -75557863725914323419136int <= bdx * cl <= 75557863725914323419136int
            && -75557863725914323419136int <= bl * cdx <= 75557863725914323419136int
            && -1125899906842624int <= bdx * cdy <= 1125899906842624int && -1125899906842624int
            <= bdy * cdx <= 1125899906842624int) by (nonlinear_arith)
            requires
                -33554432 <= bdx <= 33554432,
                -33554432 <= bdy <= 33554432,
                -33554432 <= cdx <= 33554432,
                -33554432 <= cdy <= 33554432,
                0 <= bl <= 2251799813685248,
                0 <= cl <= 2251799813685248,
        ;
    }
    let t0: i128 = bdy * cl - bl * cdy;
    let t1: i128 = bdx * cl - bl * cdx;
    let t2: i128 = bdx * cdy - bdy * cdx;
    proof {
        assert(-5070602400912917605986812821504int <= adx * t0
            <= 5070602400912917605986812821504int && -5070602400912917605986812821504int <= ady
            * t1 <= 5070602400912917605986812821504int && -5070602400912917605986812821504int <= al
            * t2 <= 5070602400912917605986812821504int) by (nonlinear_arith)
            requires
                -33554432 <= adx <= 33554432,
                -33554432 <= ady <= 33554432,
                0 <= al <= 2251799813685248,
                -151115727451828646838272 <= t0 <= 151115727451828646838272,
                -151115727451828646838272 <= t1 <= 151115727451828646838272,
                -2251799813685248 <= t2 <= 2251799813685248,
        ;
    }
    let det: i128 = adx * t0 - ady * t1 + al * t2;
    det > 0
}

/// Twice the signed area of the triangle `points[t.a] points[t.b]
/// points[t.c]`, by the exact cross product of two sides.
pub open spec fn spec_area_x2(pa: Point2, pb: Point2, pc: Point2) -> int {
    (pb.x - pa.x) * (pc.y - pa.y) - (pb.y - pa.y) * (pc.x - pa.x)
}

/// Twice the signed area of an indexed triangle over a point list.
pub fn triangle_area_x2(points: &Vec<Point2>, t: IndexTriangle) -> (r: i64)
    requires
        t.a < points@.len(),
        t.b < points@.len(),
        t.c < points@.len(),
        forall|j: int| 0 <= j < points@.len() ==> point_in_input_range(#[trigger] points@[j]),
    ensures
        r == spec_area_x2(points@[t.a as int], points@[t.b as int], points@[t.c as int]),
{
    let pa = points[t.a];
    let pb = points[t.b];
    let pc = points[t.c];
    proof {
        assert(point_in_input_range(points@[t.a as int]));
        assert(point_in_input_range(points@[t.b as int]));
        assert(point_in_input_range(points@[t.c as int]));
        let lim = 2097152int;
        assert(-(lim * lim) <= (pb.x - pa.x) * (pc.y - pa.y) <= lim * lim && -(lim * lim) <= (pb.y
            - pa.y) * (pc.x - pa.x) <= lim * lim) by (nonlinear_arith)
            requires
                -lim <= pb.x - pa.x <= lim,
                -lim <= pc.y - pa.y <= lim,
                -lim <= pb.y - pa.y <= lim,
                -lim <= pc.x - pa.x <= lim,
        ;
    }
    (pb.x - pa.x) * (pc.y - pa.y) - (pb.y - pa.y) * (pc.x - pa.x)
}

/// The two directed index pairs name the same undirected edge.
pub open spec fn spec_same_edge(e1: (usize, usize), e2: (usize, usize)) -> bool {
    (e1.0 == e2.0 && e1.1 == e2.1) || (e1.0 == e2.1 && e1.1 == e2.0)
}

/// Whether two undirected index edges coincide.
fn same_edge(e1: (usize, usize), e2: (usize, usize)) -> (r: bool)
    ensures
        r == spec_same_edge(e1, e2),
{
    (e1.0 == e2.0 && e1.1 == e2.1) || (e1.0 == e2.1 && e1.1 == e2.0)
}

/// All three corner indices stay below `n` and are pairwise distinct.
pub open spec fn triangle_ok(t: IndexTriangle, n: int) -> bool {
    t.a < n && t.b < n && t.c < n && t.a != t.b && t.b != t.c && t.a != t.c
}

/// Every triangle of the working list is well-formed over `n + 3` points
/// and draws its corners from the first `bound` input points or the three
/// super-triangle corners (at `n`, `n + 1`, `n + 2`).
pub open spec fn tris_ok(tris: Seq<IndexTriangle>, n: int, bound: int) -> bool {
    forall|j: int|
        0 <= j < tris.len() ==> {
            let t = #[trigger] tris[j];
            &&& triangle_ok(t, n + 3)
            &&& (t.a < bound || t.a >= n)
            &&& (t.b < bound || t.b >= n)
            &&& (t.c < bound || t.c >= n)
        }
}

/// The indexed triangle `(i, j, k)` turned counterclockwise: its corners
/// reordered so the doubled signed area is nonnegative.
pub open spec fn spec_oriented(points: Seq<Point2>, i: usize, j: usize, k: usize) -> IndexTriangle {
    if spec_area_x2(points[i as int], points[j as int], points[k as int]) >= 0 {
        IndexTriangle { a: i, b: j, c: k }
    } else {
        IndexTriangle { a: i, b: k, c: j }
    }
}

/// A Delaunay triangle of the point set: three distinct input corners in
/// counterclockwise order whose circumcircle holds no input point strictly
/// inside.
pub open spec fn delaunay_ok(points: Seq<Point2>, t: IndexTriangle) -> bool {
    &&& triangle_ok(t, points.len() as int)
    &&& spec_area_x2(points[t.a as int], points[t.b as int], points[t.c as int]) > 0
    &&& forall|p: int|
        0 <= p < points.len() && p != t.a && p != t.b && p != t.c ==> spec_incircle_det(
            points[t.a as int],
            points[t.b as int],
            points[t.c as int],
            #[trigger] points[p],
        ) <= 0
}

/// Whether the triangle's circumcircle holds no input point strictly
/// inside, decided point by point with the exact determinant.
fn circumcircle_clear(points: &Vec<Point2>, t: IndexTriangle) -> (r: bool)
    requires
        t.a < points@.len(),
        t.b < points@.len(),
        t.c < points@.len(),
        forall|j: int| 0 <= j < points@.len() ==> point_in_input_range(#[trigger] points@[j]),
    ensures
        r == (forall|p: int|
            0 <= p < points@.len() && p != t.a && p != t.b && p != t.c ==> spec_incircle_det(
                points@[t.a as int],
                points@[t.b as int],
                points@[t.c as int],
                #[trigger] points@[p],
            ) <= 0),
{
    let pa = points[t.a];
    let pb = points[t.b];
    let pc = points[t.c];
    let mut p: usize = 0;
    while p < points.len()
        invariant
            t.a < points@.len() && t.b < points@.len() && t.c < points@.len(),
            pa == points@[t.a as int] && pb == points@[t.b as int] && pc == points@[t.c as int],
            p <= points@.len(),
            forall|j: int| 0 <= j < points@.len() ==> point_in_input_range(#[trigger] points@[j]),
            forall|q: int|
                0 <= q < p && q != t.a && q != t.b && q != t.c ==> spec_incircle_det(
                    pa,
                    pb,
                    pc,
                    #[trigger] points@[q],
                ) <= 0,
        decreases points@.len() - p,
    {
        if p != t.a && p != t.b && p != t.c {
            proof {
                assert(point_in_input_range(points@[p as int]));
            }
            if in_circumcircle(pa, pb, pc, points[p]) {
                return false;
            }
        }
        p = p + 1;
    }
    true
}

/// Orients the corner triple counterclockwise and accepts it exactly when
/// it is a Delaunay triangle of the point set.
fn delaunay_check(points: &Vec<Point2>, i: usize, j: usize, k: usize) -> (r: Option<
    IndexTriangle,
>)
    requires
        i < points@.len(),
        j < points@.len(),
        k < points@.len(),
        i != j && j != k && i != k,
        forall|q: int| 0 <= q < points@.len() ==> point_in_input_range(#[trigger] points@[q]),
    ensures
        match r {
            Some(t) => t == spec_oriented(points@, i, j, k) && delaunay_ok(points@, t),
            None => !delaunay_ok(points@, spec_oriented(points@, i, j, k)),
        },
{
    let cand = IndexTriangle { a: i, b: j, c: k };
    let area = triangle_area_x2(points, cand);
    let t = if area >= 0 {
        cand
    } else {
        IndexTriangle { a: i, b: k, c: j }
    };
    let oriented_area = triangle_area_x2(points, t);
    proof {
        let pi = points@[i as int];
        let pj = points@[j as int];
        let pk = points@[k as int];
        assert(spec_area_x2(pi, pk, pj) == -spec_area_x2(pi, pj, pk)) by (nonlinear_arith);
    }
    if oriented_area <= 0 {
        return None;
    }
    if circumcircle_clear(points, t) {
        Some(t)
    } else {
        None
    }
}

/// Triangulates a planar point set: seeds a super-triangle, inserts each
/// point by the circumcircle rule, discards every triangle touching a
/// super-triangle corner, and keeps of the rest exactly the
/// counterclockwise triangles whose circumcircle holds no input point
/// strictly inside — the property the insertion rule works to establish.
/// Every returned triangle draws its three pairwise-distinct corners from
/// the input set alone; and whenever the point set has any Delaunay
/// triangle at all, at least one triangle comes back (found directly if the
/// incremental pass yielded none).
pub fn triangulate(points: &Vec<Point2>) -> (r: Vec<IndexTriangle>)
    requires
        3 <= points@.len(),
        points@.len() + 3 <= usize::MAX,
        forall|j: int| 0 <= j < points@.len() ==> point_in_input_range(#[trigger] points@[j]),
    ensures
        forall|j: int|
            0 <= j < r@.len() ==> triangle_ok(#[trigger] r@[j], points@.len() as int),
        forall|j: int| 0 <= j < r@.len() ==> delaunay_ok(points@, #[trigger] r@[j]),
        (exists|i: usize, j: usize, k: usize|
            i < j && j < k && k < points@.len() && delaunay_ok(
                points@,
                spec_oriented(points@, i, j, k),
            )) ==> r@.len() >= 1,
{
    let n = points.len();
    // the super-triangle, a few spans outside the input's range
    let sp0 = Point2 { x: -8388608, y: -8388608 };
    let sp1 = Point2 { x: 8388608, y: -8388608 };
    let sp2 = Point2 { x: 0, y: 8388608 };
    let mut pts: Vec<Point2> = Vec::new();
    let mut i: usize = 0;
    while i < n
        invariant
            n == points@.len(),
            i <= n,
            pts@.len() == i,
            forall|j: int| 0 <= j < n ==> point_in_input_range(#[trigger] points@[j]),
            forall|j: int| 0 <= j < i ==> pts@[j] == points@[j],
            forall|j: int| 0 <= j < i ==> point_in_working_range(#[trigger] pts@[j]),
        decreases n - i,
    {
        proof {
            assert(point_in_input_range(points@[i as int]));
        }
        pts.push(points[i]);
        i = i + 1;
    }
    pts.push(sp0);
    pts.push(sp1);
    pts.push(sp2);
    let mut tris: Vec<IndexTriangle> = Vec::new();
    tris.push(IndexTriangle { a: n, b: n + 1, c: n + 2 });
    let mut p: usize = 0;
    while p < n
        invariant
            n == points@.len(),
            n + 3 <= usize::MAX,
            p <= n,
            pts@.len() == n + 3,
            forall|j: int| 0 <= j < n + 3 ==> point_in_working_range(#[trigger] pts@[j]),
            tris_ok(tris@, n as int, p as int),
        decreases n - p,
    {
        let pt = pts[p];
        proof {
            assert(point_in_working_range(pts@[p as int]));
        }
        // split the triangles into those whose circumcircle holds the new
        // point (the hole) and the rest
        let mut bad: Vec<IndexTriangle> = Vec::new();
        let mut good: Vec<IndexTriangle> = Vec::new();
        let mut k: usize = 0;
        while k < tris.len()
            invariant
                n == points@.len(),
                n + 3 <= usize::MAX,
                p < n,
                pts@.len() == n + 3,
                forall|j: int| 0 <= j < n + 3 ==> point_in_working_range(#[trigger] pts@[j]),
                point_in_working_range(pt),
                k <= tris@.len(),
                tris_ok(tris@, n as int, p as int),
                tris_ok(bad@, n as int, p as int),
                tris_ok(good@, n as int, p as int),
            decreases tris@.len() - k,
        {
            let t = tris[k];
            proof {
                assert(tris@[k as int] == t);
                assert(triangle_ok(t, (n + 3) as int));
                assert(point_in_working_range(pts@[t.a as int]));
                assert(point_in_working_range(pts@[t.b as int]));
                assert(point_in_working_range(pts@[t.c as int]));
            }
            if in_circumcircle(pts[t.a], pts[t.b], pts[t.c], pt) {
                bad.push(t);
            } else {
                good.push(t);
            }
            k = k + 1;
        }
        // the hole's boundary: edges of hole triangles shared with no other
        // hole triangle
        let mut boundary: Vec<(usize, usize)> = Vec::new();
        let mut k2: usize = 0;
        while k2 < bad.len()
            invariant
                n == points@.len(),
                n + 3 <= usize::MAX,
                p < n,
                k2 <= bad@.len(),
                tris_ok(bad@, n as int, p as int),
                forall|j: int|
                    0 <= j < boundary@.len() ==> {
                        let e = #[trigger] boundary@[j];
                        &&& e.0 < n + 3 && e.1 < n + 3 && e.0 != e.1
                        &&& (e.0 < p || e.0 >= n) && (e.1 < p || e.1 >= n)
                    },
            decreases bad@.len() - k2,
        {
            let t = bad[k2];
            let edges: [(usize, usize); 3] = [(t.a, t.b), (t.b, t.c), (t.c, t.a)];
            let mut ei: usize = 0;
            while ei < 3
                invariant
                    n == points@.len(),
                    n + 3 <= usize::MAX,
                    p < n,
                    k2 < bad@.len(),
                    ei <= 3,
                    tris_ok(bad@, n as int, p as int),
                    edges@ == seq![(t.a, t.b), (t.b, t.c), (t.c, t.a)],
                    t == bad@[k2 as int],
                    forall|j: int|
                        0 <= j < boundary@.len() ==> {
                            let e = #[trigger] boundary@[j];
                            &&& e.0 < n + 3 && e.1 < n + 3 && e.0 != e.1
                            &&& (e.0 < p || e.0 >= n) && (e.1 < p || e.1 >= n)
                        },
                decreases 3 - ei,
            {
                let e = edges[ei];
                let mut shared = false;
                let mut k3: usize = 0;
                while k3 < bad.len()
                    invariant
                        k3 <= bad@.len(),
                        k2 < bad@.len(),
                    decreases bad@.len() - k3,
                {
                    if k3 != k2 {
                        let u = bad[k3];
                        if same_edge(e, (u.a, u.b)) || same_edge(e, (u.b, u.c)) || same_edge(
                            e,
                            (u.c, u.a),
                        ) {
                            shared = true;
                        }
                    }
                    k3 = k3 + 1;
                }
                if !shared {
                    proof {
                        assert(triangle_ok(bad@[k2 as int], (n + 3) as int));
                        assert(edges@[ei as int] == e);
                    }
                    boundary.push(e);
                }
                ei = ei + 1;
            }
            k2 = k2 + 1;
        }
        // re-triangulate the hole against the new point
        let mut next: Vec<IndexTriangle> = good;
        let mut k4: usize = 0;
        while k4 < boundary.len()
            invariant
                n == points@.len(),
                n + 3 <= usize::MAX,
                p < n,
                k4 <= boundary@.len(),
                tris_ok(next@, n as int, (p + 1) as int),
                forall|j: int|
                    0 <= j < boundary@.len() ==> {
                        let e = #[trigger] boundary@[j];
                        &&& e.0 < n + 3 && e.1 < n + 3 && e.0 != e.1
                        &&& (e.0 < p || e.0 >= n) && (e.1 < p || e.1 >= n)
                    },
            decreases boundary@.len() - k4,
        {
            let e = boundary[k4];
            next.push(IndexTriangle { a: e.0, b: e.1, c: p });
            k4 = k4 + 1;
        }
        tris = next;
        p = p + 1;
    }
    // drop everything that touches a super-triangle corner, and of the
    // rest keep exactly the Delaunay triangles, counterclockwise
    let mut result: Vec<IndexTriangle> = Vec::new();
    let mut k5: usize = 0;
    while k5 < tris.len()
        invariant
            n == points@.len(),
            k5 <= tris@.len(),
            tris_ok(tris@, n as int, n as int),
            forall|q: int| 0 <= q < points@.len() ==> point_in_input_range(#[trigger] points@[q]),
            forall|j: int| 0 <= j < result@.len() ==> delaunay_ok(points@, #[trigger] result@[j]),
        decreases tris@.len() - k5,
    {
        let t = tris[k5];
        proof {
            assert(tris@[k5 as int] == t);
            assert(triangle_ok(t, (n + 3) as int));
        }
        if t.a < n && t.b < n && t.c < n {
            match delaunay_check(points, t.a, t.b, t.c) {
                Some(ot) => result.push(ot),
                None => {},
            }
        }
        k5 = k5 + 1;
    }
    // a point set with any Delaunay triangle never yields nothing: search
    // one directly when the incremental pass kept none
    if result.len() == 0 {
        let mut fi: usize = 0;
        while fi < n && result.len() == 0
            invariant
                n == points@.len(),
                fi <= n,
                result@.len() <= 1,
                forall|q: int|
                    0 <= q < points@.len() ==> point_in_input_range(#[trigger] points@[q]),
                forall|j: int|
                    0 <= j < result@.len() ==> delaunay_ok(points@, #[trigger] result@[j]),
                result@.len() == 0 ==> forall|a: usize, b: usize, c: usize|
                    a < b && b < c && c < n && a < fi ==> !delaunay_ok(
                        points@,
                        #[trigger] spec_oriented(points@, a, b, c),
                    ),
            decreases n - fi,
        {
            let mut fj: usize = fi + 1;
            while fj < n && result.len() == 0
                invariant
                    n == points@.len(),
                    fi < fj <= n || fj == fi + 1,
                    fi < n,
                    fj >= fi + 1,
                    fj <= n,
                    result@.len() <= 1,
                    forall|q: int|
                        0 <= q < points@.len() ==> point_in_input_range(#[trigger] points@[q]),
                    forall|j: int|
                        0 <= j < result@.len() ==> delaunay_ok(points@, #[trigger] result@[j]),
                    result@.len() == 0 ==> forall|a: usize, b: usize, c: usize|
                        a < b && b < c && c < n && a < fi ==> !delaunay_ok(
                            points@,
                            #[trigger] spec_oriented(points@, a, b, c),
                        ),
                    result@.len() == 0 ==> forall|b: usize, c: usize|
                        fi < b && b < c && c < n && b < fj ==> !delaunay_ok(
                            points@,
                            #[trigger] spec_oriented(points@, fi, b, c),
                        ),
                decreases n - fj,
            {
                let mut fk: usize = fj + 1;
                while fk < n && result.len() == 0
                    invariant
                        n == points@.len(),
                        fi < fj < fk || fk == fj + 1,
                        fi < fj,
                        fj < n,
                        fi < n,
                        fj + 1 <= fk <= n,
                        result@.len() <= 1,
                        forall|q: int|
                            0 <= q < points@.len() ==> point_in_input_range(#[trigger] points@[q]),
                        forall|j: int|
                            0 <= j < result@.len() ==> delaunay_ok(points@, #[trigger] result@[j]),
                        result@.len() == 0 ==> forall|c: usize|
                            fj < c && c < fk ==> !delaunay_ok(
                                points@,
                                #[trigger] spec_oriented(points@, fi, fj, c),
                            ),
                    decreases n - fk,
                {
                    match delaunay_check(points, fi, fj, fk) {
                        Some(t) => result.push(t),
                        None => {},
                    }
                    fk = fk + 1;
                }
                proof {
                    if result@.len() == 0 {
                        assert forall|b: usize, c: usize|
                            fi < b && b < c && c < n && b < fj + 1 implies !delaunay_ok(
                            points@,
                            #[trigger] spec_oriented(points@, fi, b, c),
                        ) by {}
                    }
                }
                fj = fj + 1;
            }
            proof {
                if result@.len() == 0 {
                    assert forall|a: usize, b: usize, c: usize|
                        a < b && b < c && c < n && a < fi + 1 implies !delaunay_ok(
                        points@,
                        #[trigger] spec_oriented(points@, a, b, c),
                    ) by {}
                }
            }
            fi = fi + 1;
        }
    }
    result
}

} // verus!
