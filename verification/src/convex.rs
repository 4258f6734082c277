//! Convex–convex narrow phase: the GJK existence test over Minkowski
//! support points, and the expanding-polytope (EPA) extraction of the
//! penetration normal and depth, each pinned to its mathematical run.
//!
//! All geometry is fixed-point, in micrometers.  A simplex is a short
//! list of support points (front at index zero); each refinement case
//! either narrows the search direction or confirms that the simplex
//! encloses the origin.  Every function's contract mirrors its
//! computation exactly over the `V3` model.
//!
//! EPA face normals are unit fixed-point directions (each face's edge
//! cross product normalized by its integer floor length), so the stored
//! plane distances are comparable across faces and the least-distance
//! face really is the face nearest the origin.

use vstd::prelude::*;
use crate::fx::{abs_i, UNITS_PER_METER};
use crate::vec3::{IVec3, V3, v_sub, v_neg, v_cross_fx, v_dot_fx, v_bounded, v_mag2};
use crate::collisions::v_unit_fx;

verus! {

/// Bound on simplex and polytope coordinates: five hundred meters in
/// micrometers, which keeps even a dot of a cross of a cross in i64.
pub const GJK_CAP: i64 = 500000000;

/// Bound on search-direction coordinates: wide enough for every
/// direction the simplex cases can produce from in-range points.
pub const GJK_DIR_CAP: i64 = 4000000000000000;

/// The views of a vertex list.
pub open spec fn vm(s: Seq<IVec3>) -> Seq<V3> {
    s.map_values(|v: IVec3| v@)
}

/// The line case: with simplex `[a, b]`, search on the `ab` side of the
/// origin keeps both points and turns the direction perpendicular to
/// `ab` toward the origin; otherwise only `a` stays and the direction
/// points at the origin.
pub open spec fn line_keep(a: V3, b: V3) -> bool {
    v_dot_fx(v_sub(b, a), v_neg(a)) > 0
}

pub open spec fn line_result_s(a: V3, b: V3) -> Seq<V3> {
    if line_keep(a, b) {
        seq![a, b]
    } else {
        seq![a]
    }
}

pub open spec fn line_dir_s(a: V3, b: V3) -> V3 {
    if line_keep(a, b) {
        v_cross_fx(v_cross_fx(v_sub(b, a), v_neg(a)), v_sub(b, a))
    } else {
        v_neg(a)
    }
}

/// The triangle case, written over the line case for its two edge
/// fall-throughs.
pub open spec fn tri_result_s(a: V3, b: V3, c: V3) -> Seq<V3> {
    let ab = v_sub(b, a);
    let ac = v_sub(c, a);
    let ao = v_neg(a);
    let abc = v_cross_fx(ab, ac);
    if v_dot_fx(v_cross_fx(abc, ac), ao) > 0 {
        if v_dot_fx(ac, ao) > 0 {
            seq![a, c]
        } else {
            line_result_s(a, b)
        }
    } else if v_dot_fx(v_cross_fx(ab, abc), ao) > 0 {
        line_result_s(a, b)
    } else if v_dot_fx(abc, ao) > 0 {
        seq![a, b, c]
    } else {
        seq![a, c, b]
    }
}

pub open spec fn tri_dir_s(a: V3, b: V3, c: V3) -> V3 {
    let ab = v_sub(b, a);
    let ac = v_sub(c, a);
    let ao = v_neg(a);
    let abc = v_cross_fx(ab, ac);
    if v_dot_fx(v_cross_fx(abc, ac), ao) > 0 {
        if v_dot_fx(ac, ao) > 0 {
            v_cross_fx(v_cross_fx(ac, ao), ac)
        } else {
            line_dir_s(a, b)
        }
    } else if v_dot_fx(v_cross_fx(ab, abc), ao) > 0 {
        line_dir_s(a, b)
    } else if v_dot_fx(abc, ao) > 0 {
        abc
    } else {
        v_neg(abc)
    }
}

/// The tetrahedron case confirms origin containment when the origin is
/// on the inner side of all three faces around `a`.
pub open spec fn tet_hit(a: V3, b: V3, c: V3, d: V3) -> bool {
    let ao = v_neg(a);
    &&& v_dot_fx(v_cross_fx(v_sub(b, a), v_sub(c, a)), ao) <= 0
    &&& v_dot_fx(v_cross_fx(v_sub(c, a), v_sub(d, a)), ao) <= 0
    &&& v_dot_fx(v_cross_fx(v_sub(d, a), v_sub(b, a)), ao) <= 0
}

pub open spec fn tet_result_s(a: V3, b: V3, c: V3, d: V3) -> Seq<V3> {
    let ao = v_neg(a);
    if v_dot_fx(v_cross_fx(v_sub(b, a), v_sub(c, a)), ao) > 0 {
        tri_result_s(a, b, c)
    } else if v_dot_fx(v_cross_fx(v_sub(c, a), v_sub(d, a)), ao) > 0 {
        tri_result_s(a, c, d)
    } else if v_dot_fx(v_cross_fx(v_sub(d, a), v_sub(b, a)), ao) > 0 {
        tri_result_s(a, d, b)
    } else {
        seq![a, b, c, d]
    }
}

pub open spec fn tet_dir_s(a: V3, b: V3, c: V3, d: V3, init: V3) -> V3 {
    let ao = v_neg(a);
    if v_dot_fx(v_cross_fx(v_sub(b, a), v_sub(c, a)), ao) > 0 {
        tri_dir_s(a, b, c)
    } else if v_dot_fx(v_cross_fx(v_sub(c, a), v_sub(d, a)), ao) > 0 {
        tri_dir_s(a, c, d)
    } else if v_dot_fx(v_cross_fx(v_sub(d, a), v_sub(b, a)), ao) > 0 {
        tri_dir_s(a, d, b)
    } else {
        init
    }
}

/// Rebuilds a simplex from up to four points.
fn set_simplex(simplex: &mut Vec<IVec3>, pts: &Vec<IVec3>)
    ensures
        final(simplex)@ == pts@,
{
    simplex.clear();
    let mut i: usize = 0;
    while i < pts.len()
        invariant
            i <= pts@.len(),
            simplex@ == pts@.take(i as int),
        decreases pts@.len() - i,
    {
        simplex.push(pts[i]);
        proof {
            assert(simplex@ =~= pts@.take(i as int + 1));
        }
        i = i + 1;
    }
    proof {
        assert(pts@.take(pts@.len() as int) =~= pts@);
    }
}

/// GJK line case.
fn line(simplex: &mut Vec<IVec3>, direction: &mut IVec3) -> (r: bool)
    requires
        old(simplex)@.len() == 2,
        v_bounded(old(simplex)@[0]@, GJK_CAP as int),
        v_bounded(old(simplex)@[1]@, GJK_CAP as int),
    ensures
        r == false,
        vm(final(simplex)@) == line_result_s(old(simplex)@[0]@, old(simplex)@[1]@),
        final(direction)@ == line_dir_s(old(simplex)@[0]@, old(simplex)@[1]@),
        forall|k: int|
            0 <= k < final(simplex)@.len() ==> v_bounded(
                (#[trigger] final(simplex)@[k])@,
                GJK_CAP as int,
            ),
{
    let a = simplex[0];
    let b = simplex[1];
    proof {
        let ab = v_sub(b@, a@);
        let ao = v_neg(a@);
        crate::vec3::lemma_cross_fx_cap(ab, ao, 1000000000, 500000000, 500000000000);
        crate::vec3::lemma_cross_fx_cap(
            v_cross_fx(ab, ao),
            ab,
            1000000000000,
            1000000000,
            1000000000000000,
        );
    }
    let a_to_b = b.sub(&a);
    let a_to_origin = a.neg();
    if a_to_b.dot_fx(&a_to_origin) > 0 {
        *direction = a_to_b.cross_fx(&a_to_origin).cross_fx(&a_to_b);
        proof {
            assert(vm(simplex@) =~= line_result_s(a@, b@));
        }
    } else {
        simplex.pop();
        *direction = a_to_origin;
        proof {
            assert(vm(simplex@) =~= line_result_s(a@, b@));
        }
    }
    false
}

/// GJK triangle case.
#[verifier::rlimit(80)]
fn triangle(simplex: &mut Vec<IVec3>, direction: &mut IVec3) -> (r: bool)
    requires
        old(simplex)@.len() == 3,
        forall|k: int|
            0 <= k < 3 ==> v_bounded((#[trigger] old(simplex)@[k])@, GJK_CAP as int),
    ensures
        r == false,
        vm(final(simplex)@) == tri_result_s(
            old(simplex)@[0]@,
            old(simplex)@[1]@,
            old(simplex)@[2]@,
        ),
        final(direction)@ == tri_dir_s(old(simplex)@[0]@, old(simplex)@[1]@, old(simplex)@[2]@),
        forall|k: int|
            0 <= k < final(simplex)@.len() ==> v_bounded(
                (#[trigger] final(simplex)@[k])@,
                GJK_CAP as int,
            ),
{
    let a = simplex[0];
    let b = simplex[1];
    let c = simplex[2];
    proof {
        let ab = v_sub(b@, a@);
        let ac = v_sub(c@, a@);
        let ao = v_neg(a@);
        let abc = v_cross_fx(ab, ac);
        crate::vec3::lemma_cross_fx_cap(ab, ao, 1000000000, 500000000, 500000000000);
        crate::vec3::lemma_cross_fx_cap(ac, ao, 1000000000, 500000000, 500000000000);
        crate::vec3::lemma_cross_fx_cap(ab, ac, 1000000000, 1000000000, 1000000000000);
        crate::vec3::lemma_cross_fx_cap(abc, ac, 2000000000000, 1000000000, 2000000000000000);
        crate::vec3::lemma_cross_fx_cap(ab, abc, 1000000000, 2000000000000, 2000000000000000);
        crate::vec3::lemma_cross_fx_cap(
            v_cross_fx(abc, ac),
            ao,
            4000000000000000,
            500000000,
            2000000000000000000,
        );
        crate::vec3::lemma_cross_fx_cap(
            v_cross_fx(ab, abc),
            ao,
            4000000000000000,
            500000000,
            2000000000000000000,
        );
        crate::vec3::lemma_cross_fx_cap(abc, ao, 2000000000000, 500000000, 1000000000000000);
        crate::vec3::lemma_cross_fx_cap(
            v_cross_fx(ac, ao),
            ac,
            1000000000000,
            1000000000,
            1000000000000000,
        );
    }
    let a_to_b = b.sub(&a);
    let a_to_c = c.sub(&a);
    let a_to_origin = a.neg();
    let ab_to_c = a_to_b.cross_fx(&a_to_c);
    if ab_to_c.cross_fx(&a_to_c).dot_fx(&a_to_origin) > 0 {
        if a_to_c.dot_fx(&a_to_origin) > 0 {
            simplex.remove(1);
            *direction = a_to_c.cross_fx(&a_to_origin).cross_fx(&a_to_c);
            proof {
                assert(vm(simplex@) =~= tri_result_s(a@, b@, c@));
            }
            false
        } else {
            simplex.pop();
            proof {
                assert(simplex@[0] == a && simplex@[1] == b);
            }
            line(simplex, direction)
        }
    } else if a_to_b.cross_fx(&ab_to_c).dot_fx(&a_to_origin) > 0 {
        simplex.pop();
        proof {
            assert(simplex@[0] == a && simplex@[1] == b);
        }
        line(simplex, direction)
    } else if ab_to_c.dot_fx(&a_to_origin) > 0 {
        *direction = ab_to_c;
        proof {
            assert(vm(simplex@) =~= tri_result_s(a@, b@, c@));
        }
        false
    } else {
        let mut pts: Vec<IVec3> = Vec::new();
        pts.push(a);
        pts.push(c);
        pts.push(b);
        set_simplex(simplex, &pts);
        *direction = ab_to_c.neg();
        proof {
            assert(vm(simplex@) =~= tri_result_s(a@, b@, c@));
        }
        false
    }
}

/// GJK tetrahedron case: true confirms the origin is enclosed.
fn tetrahedron(simplex: &mut Vec<IVec3>, direction: &mut IVec3) -> (r: bool)
    requires
        old(simplex)@.len() == 4,
        forall|k: int|
            0 <= k < 4 ==> v_bounded((#[trigger] old(simplex)@[k])@, GJK_CAP as int),
    ensures
        r == tet_hit(
            old(simplex)@[0]@,
            old(simplex)@[1]@,
            old(simplex)@[2]@,
            old(simplex)@[3]@,
        ),
        vm(final(simplex)@) == tet_result_s(
            old(simplex)@[0]@,
            old(simplex)@[1]@,
            old(simplex)@[2]@,
            old(simplex)@[3]@,
        ),
        final(direction)@ == tet_dir_s(
            old(simplex)@[0]@,
            old(simplex)@[1]@,
            old(simplex)@[2]@,
            old(simplex)@[3]@,
            old(direction)@,
        ),
        forall|k: int|
            0 <= k < final(simplex)@.len() ==> v_bounded(
                (#[trigger] final(simplex)@[k])@,
                GJK_CAP as int,
            ),
{
    let a = simplex[0];
    let b = simplex[1];
    let c = simplex[2];
    let d = simplex[3];
    proof {
        let ab = v_sub(b@, a@);
        let ac = v_sub(c@, a@);
        let ad = v_sub(d@, a@);
        let ao = v_neg(a@);
        crate::vec3::lemma_cross_fx_cap(ab, ac, 1000000000, 1000000000, 1000000000000);
        crate::vec3::lemma_cross_fx_cap(ac, ad, 1000000000, 1000000000, 1000000000000);
        crate::vec3::lemma_cross_fx_cap(ad, ab, 1000000000, 1000000000, 1000000000000);
        crate::vec3::lemma_cross_fx_cap(
            v_cross_fx(ab, ac),
            ao,
            2000000000000,
            500000000,
            1000000000000000,
        );
        crate::vec3::lemma_cross_fx_cap(
            v_cross_fx(ac, ad),
            ao,
            2000000000000,
            500000000,
            1000000000000000,
        );
        crate::vec3::lemma_cross_fx_cap(
            v_cross_fx(ad, ab),
            ao,
            2000000000000,
            500000000,
            1000000000000000,
        );
    }
    let a_to_b = b.sub(&a);
    let a_to_c = c.sub(&a);
    let a_to_d = d.sub(&a);
    let a_to_origin = a.neg();
    let tri_abc = a_to_b.cross_fx(&a_to_c);
    let tri_acd = a_to_c.cross_fx(&a_to_d);
    let tri_adb = a_to_d.cross_fx(&a_to_b);
    if tri_abc.dot_fx(&a_to_origin) > 0 {
        let mut pts: Vec<IVec3> = Vec::new();
        pts.push(a);
        pts.push(b);
        pts.push(c);
        set_simplex(simplex, &pts);
        return triangle(simplex, direction);
    }
    if tri_acd.dot_fx(&a_to_origin) > 0 {
        let mut pts: Vec<IVec3> = Vec::new();
        pts.push(a);
        pts.push(c);
        pts.push(d);
        set_simplex(simplex, &pts);
        return triangle(simplex, direction);
    }
    if tri_adb.dot_fx(&a_to_origin) > 0 {
        let mut pts: Vec<IVec3> = Vec::new();
        pts.push(a);
        pts.push(d);
        pts.push(b);
        set_simplex(simplex, &pts);
        return triangle(simplex, direction);
    }
    proof {
        assert(vm(simplex@) =~= tet_result_s(a@, b@, c@, d@));
    }
    true
}

/// One GJK refinement step, dispatched on the simplex size.  True means
/// the simplex encloses the origin (a confirmed overlap); false leaves a
/// refined simplex and search direction behind.
pub fn next_simplex(simplex: &mut Vec<IVec3>, direction: &mut IVec3) -> (r: bool)
    requires
        2 <= old(simplex)@.len() <= 4,
        forall|k: int|
            0 <= k < old(simplex)@.len() ==> v_bounded(
                (#[trigger] old(simplex)@[k])@,
                GJK_CAP as int,
            ),
    ensures
        old(simplex)@.len() == 2 ==> r == false && vm(final(simplex)@) == line_result_s(
            old(simplex)@[0]@,
            old(simplex)@[1]@,
        ) && final(direction)@ == line_dir_s(old(simplex)@[0]@, old(simplex)@[1]@),
        old(simplex)@.len() == 3 ==> r == false && vm(final(simplex)@) == tri_result_s(
            old(simplex)@[0]@,
            old(simplex)@[1]@,
            old(simplex)@[2]@,
        ) && final(direction)@ == tri_dir_s(
            old(simplex)@[0]@,
            old(simplex)@[1]@,
            old(simplex)@[2]@,
        ),
        old(simplex)@.len() == 4 ==> r == tet_hit(
            old(simplex)@[0]@,
            old(simplex)@[1]@,
            old(simplex)@[2]@,
            old(simplex)@[3]@,
        ) && vm(final(simplex)@) == tet_result_s(
            old(simplex)@[0]@,
            old(simplex)@[1]@,
            old(simplex)@[2]@,
            old(simplex)@[3]@,
        ) && final(direction)@ == tet_dir_s(
            old(simplex)@[0]@,
            old(simplex)@[1]@,
            old(simplex)@[2]@,
            old(simplex)@[3]@,
            old(direction)@,
        ),
        forall|k: int|
            0 <= k < final(simplex)@.len() ==> v_bounded(
                (#[trigger] final(simplex)@[k])@,
                GJK_CAP as int,
            ),
{
    let n = simplex.len();
    if n == 2 {
        line(simplex, direction)
    } else if n == 3 {
        triangle(simplex, direction)
    } else {
        tetrahedron(simplex, direction)
    }
}

/// Running best of the furthest-point search over the first `i`
/// vertices: the highest fixed-point dot with the direction, seeded the
/// way the scan seeds it.
pub open spec fn furthest_upto(verts: Seq<V3>, direction: V3, i: int) -> (int, V3) {
    furthest_upto_rec(verts, direction, i)
}

pub open spec fn furthest_upto_rec(verts: Seq<V3>, direction: V3, i: int) -> (int, V3)
    decreases i,
{
    if i <= 0 {
        (
            -10 * UNITS_PER_METER as int,
            V3 {
                x: -(UNITS_PER_METER as int),
                y: -(UNITS_PER_METER as int),
                z: -(UNITS_PER_METER as int),
            },
        )
    } else {
        let prev = furthest_upto_rec(verts, direction, i - 1);
        let d = v_dot_fx(verts[i - 1], direction);
        if d > prev.0 {
            (d, verts[i - 1])
        } else {
            prev
        }
    }
}

/// The vertex with the highest fixed-point dot product with the search
/// direction — the support point of one shape.
pub fn find_furthest_point(verts: &Vec<IVec3>, direction: IVec3) -> (r: IVec3)
    requires
        forall|k: int|
            0 <= k < verts@.len() ==> v_bounded((#[trigger] verts@[k])@, GJK_CAP as int),
        v_bounded(direction@, GJK_DIR_CAP as int),
    ensures
        r@ == furthest_upto(vm(verts@), direction@, verts@.len() as int).1,
{
    let mut dot_product: i64 = -10 * UNITS_PER_METER;
    let mut best_point = IVec3 {
        x: -UNITS_PER_METER,
        y: -UNITS_PER_METER,
        z: -UNITS_PER_METER,
    };
    let n = verts.len();
    let mut i: usize = 0;
    while i < n
        invariant
            n == verts@.len(),
            i <= n,
            forall|k: int|
                0 <= k < verts@.len() ==> v_bounded((#[trigger] verts@[k])@, GJK_CAP as int),
            v_bounded(direction@, GJK_DIR_CAP as int),
            dot_product == furthest_upto(vm(verts@), direction@, i as int).0,
            best_point@ == furthest_upto(vm(verts@), direction@, i as int).1,
        decreases n - i,
    {
        let v = verts[i];
        proof {
            assert(vm(verts@)[i as int] == v@);
            crate::vec3::lemma_cross_fx_cap(
                v@,
                direction@,
                GJK_CAP as int,
                GJK_DIR_CAP as int,
                2000000000000000000,
            );
        }
        let d = v.dot_fx(&direction);
        if d > dot_product {
            best_point = v;
            dot_product = d;
        }
        i = i + 1;
    }
    best_point
}

/// A Minkowski-difference support point: the furthest point of the
/// first shape along the direction minus the furthest point of the
/// second against it.
pub fn support(verts1: &Vec<IVec3>, verts2: &Vec<IVec3>, direction: IVec3) -> (r: IVec3)
    requires
        forall|k: int|
            0 <= k < verts1@.len() ==> v_bounded((#[trigger] verts1@[k])@, GJK_CAP as int),
        forall|k: int|
            0 <= k < verts2@.len() ==> v_bounded((#[trigger] verts2@[k])@, GJK_CAP as int),
        v_bounded(direction@, GJK_DIR_CAP as int),
        direction@.x != i64::MIN && direction@.y != i64::MIN && direction@.z != i64::MIN,
    ensures
        r@ == v_sub(
            furthest_upto(vm(verts1@), direction@, verts1@.len() as int).1,
            furthest_upto(vm(verts2@), v_neg(direction@), verts2@.len() as int).1,
        ),
{
    let p1 = find_furthest_point(verts1, direction);
    let p2 = find_furthest_point(verts2, direction.neg());
    proof {
        lemma_furthest_bounded(vm(verts1@), direction@, verts1@.len() as int);
        lemma_furthest_bounded(vm(verts2@), v_neg(direction@), verts2@.len() as int);
    }
    p1.sub(&p2)
}

/// The edge cross product of face `i` of an EPA polytope.
pub open spec fn face_cross(poly: Seq<V3>, faces: Seq<usize>, i: int) -> V3 {
    let a = poly[faces[3 * i] as int];
    let b = poly[faces[3 * i + 1] as int];
    let c = poly[faces[3 * i + 2] as int];
    v_cross_fx(v_sub(b, a), v_sub(c, a))
}

/// The unit normal and plane distance of face `i` of an EPA polytope:
/// the edge cross product normalized to fixed-point unit length, flipped
/// so the distance from the origin comes out non-negative.  Distances
/// are in plain micrometers, comparable across faces.
pub open spec fn face_normal_s(poly: Seq<V3>, faces: Seq<usize>, i: int) -> (V3, int) {
    let a = poly[faces[3 * i] as int];
    let n0 = v_unit_fx(face_cross(poly, faces, i));
    let d0 = v_dot_fx(n0, a);
    if d0 < 0 {
        (v_neg(n0), -d0)
    } else {
        (n0, d0)
    }
}

/// Running least face distance and its face index over the first `i`
/// faces, first-wins on ties.
pub open spec fn min_face_upto(poly: Seq<V3>, faces: Seq<usize>, i: int) -> (int, int)
    decreases i,
{
    if i <= 0 {
        (i64::MAX as int, 0)
    } else {
        let prev = min_face_upto(poly, faces, i - 1);
        let d = face_normal_s(poly, faces, i - 1).1;
        if d < prev.0 {
            (d, i - 1)
        } else {
            prev
        }
    }
}

/// Computes every face's unit outward normal and origin distance, and
/// the index of the face closest to the origin — the EPA bookkeeping
/// step.  Every face must be non-degenerate: a zero cross product has no
/// direction to normalize.
pub fn get_face_normals(polyhedron: &Vec<IVec3>, faces: &Vec<usize>) -> (r: (
    Vec<(IVec3, i64)>,
    usize,
))
    requires
        faces@.len() % 3 == 0,
        forall|f: int| 0 <= f < faces@.len() ==> (#[trigger] faces@[f]) < polyhedron@.len(),
        forall|k: int|
            0 <= k < polyhedron@.len() ==> v_bounded((#[trigger] polyhedron@[k])@, GJK_CAP as int),
        forall|i: int|
            0 <= i < faces@.len() / 3 ==> v_mag2(#[trigger] face_cross(vm(polyhedron@), faces@, i))
                > 0,
    ensures
        r.0@.len() == faces@.len() / 3,
        forall|i: int|
            0 <= i < r.0@.len() ==> (#[trigger] r.0@[i]).0@ == face_normal_s(
                vm(polyhedron@),
                faces@,
                i,
            ).0 && r.0@[i].1 == face_normal_s(vm(polyhedron@), faces@, i).1,
        r.1 as int == min_face_upto(vm(polyhedron@), faces@, (faces@.len() / 3) as int).1,
{
    let mut normals: Vec<(IVec3, i64)> = Vec::new();
    let mut min_triangle: usize = 0;
    let mut min_distance: i64 = i64::MAX;
    let nf = faces.len() / 3;
    proof {
        vstd::arithmetic::div_mod::lemma_fundamental_div_mod(faces@.len() as int, 3);
    }
    let mut i: usize = 0;
    while i < nf
        invariant
            nf == faces@.len() / 3,
            faces@.len() % 3 == 0,
            3 * (nf as int) == faces@.len(),
            faces@.len() <= usize::MAX,
            i <= nf,
            forall|f: int| 0 <= f < faces@.len() ==> (#[trigger] faces@[f]) < polyhedron@.len(),
            forall|k: int|
                0 <= k < polyhedron@.len() ==> v_bounded(
                    (#[trigger] polyhedron@[k])@,
                    GJK_CAP as int,
                ),
            normals@.len() == i,
            forall|i2: int|
                0 <= i2 < i ==> (#[trigger] normals@[i2]).0@ == face_normal_s(
                    vm(polyhedron@),
                    faces@,
                    i2,
                ).0 && normals@[i2].1 == face_normal_s(vm(polyhedron@), faces@, i2).1,
            min_distance == min_face_upto(vm(polyhedron@), faces@, i as int).0,
            min_triangle as int == min_face_upto(vm(polyhedron@), faces@, i as int).1,
        decreases nf - i,
    {
        proof {
            assert(3 * (i as int) + 2 < faces@.len());
        }
        let a = polyhedron[faces[3 * i]];
        let b = polyhedron[faces[3 * i + 1]];
        let c = polyhedron[faces[3 * i + 2]];
        proof {
            assert(vm(polyhedron@)[faces@[3 * i] as int] == a@);
            assert(vm(polyhedron@)[faces@[3 * i + 1] as int] == b@);
            assert(vm(polyhedron@)[faces@[3 * i + 2] as int] == c@);
            let ab = v_sub(b@, a@);
            let ac = v_sub(c@, a@);
            crate::vec3::lemma_cross_fx_cap(ab, ac, 1000000000, 1000000000, 1000000000000);
            crate::vec3::lemma_cross_fx_cap(
                v_cross_fx(ab, ac),
                a@,
                2000000000000,
                500000000,
                1000000000000000,
            );
        }
        let cross = b.sub(&a).cross_fx(&c.sub(&a));
        proof {
            assert(cross@ == face_cross(vm(polyhedron@), faces@, i as int));
        }
        let mut normal = crate::collisions::unit_dir(&cross);
        proof {
            crate::vec3::lemma_cross_fx_cap(
                normal@,
                a@,
                UNITS_PER_METER as int,
                GJK_CAP as int,
                500000000,
            );
        }
        let mut distance = normal.dot_fx(&a);
        if distance < 0 {
            normal = normal.neg();
            distance = -distance;
        }
        normals.push((normal, distance));
        if distance < min_distance {
            min_triangle = i;
            min_distance = distance;
        }
        i = i + 1;
    }
    (normals, min_triangle)
}

/// First index of `e` in `edges` at or after `i`; the length when `e`
/// does not occur.
pub open spec fn find_edge_from(edges: Seq<(usize, usize)>, e: (usize, usize), i: int) -> int
    decreases edges.len() - i,
{
    if i < 0 || i >= edges.len() {
        edges.len() as int
    } else if edges[i] == e {
        i
    } else {
        find_edge_from(edges, e, i + 1)
    }
}

/// EPA edge bookkeeping: a shared edge seen from two faces cancels out,
/// a fresh edge is recorded.  The reverse orientation is looked up
/// first-match; absent that, the edge joins the list.
pub fn add_if_unique_edge(edges: &mut Vec<(usize, usize)>, faces: &Vec<usize>, a: usize, b: usize)
    requires
        a < faces@.len(),
        b < faces@.len(),
    ensures
        ({
            let rev = (faces@[b as int], faces@[a as int]);
            let fi = find_edge_from(old(edges)@, rev, 0);
            if fi < old(edges)@.len() {
                final(edges)@ == old(edges)@.remove(fi)
            } else {
                final(edges)@ == old(edges)@.push((faces@[a as int], faces@[b as int]))
            }
        }),
{
    let rev = (faces[b], faces[a]);
    let n = edges.len();
    let mut k: usize = 0;
    while k < n
        invariant
            n == edges@.len(),
            k <= n,
            edges@ == old(edges)@,
            rev == (faces@[b as int], faces@[a as int]),
            find_edge_from(edges@, rev, 0) == find_edge_from(edges@, rev, k as int),
        decreases n - k,
    {
        if edges[k].0 == rev.0 && edges[k].1 == rev.1 {
            proof {
                assert(edges@[k as int] == rev);
                assert(find_edge_from(edges@, rev, k as int) == k);
            }
            edges.remove(k);
            return;
        }
        k = k + 1;
    }
    edges.push((faces[a], faces[b]));
}

/// Every entry of an edge list names a polytope vertex below `cap`.
pub open spec fn edges_bounded(edges: Seq<(usize, usize)>, cap: int) -> bool {
    forall|k: int|
        0 <= k < edges.len() ==> ((#[trigger] edges[k]).0 as int) < cap && (edges[k].1 as int)
            < cap
}

/// Rounds the polytope expansion is given before it reports no answer.
pub const EPA_ROUNDS: usize = 16;

/// Expansion stops once the support along the nearest face's normal is
/// within this of the face plane, in micrometers.
pub const EPA_TOL: i64 = 1000;

/// What one edge insertion does to the horizon-edge list: the reverse
/// orientation cancels out when present, otherwise the edge joins the
/// list — exactly `add_if_unique_edge`.
pub open spec fn add_edge_s(
    edges: Seq<(usize, usize)>,
    faces: Seq<usize>,
    a: int,
    b: int,
) -> Seq<(usize, usize)> {
    let rev = (faces[b], faces[a]);
    let fi = find_edge_from(edges, rev, 0);
    if fi < edges.len() {
        edges.remove(fi)
    } else {
        edges.push((faces[a], faces[b]))
    }
}

/// The new support point sees face `i`: it lies strictly beyond the
/// face's plane.
pub open spec fn face_visible(poly: Seq<V3>, faces: Seq<usize>, i: int, sp: V3) -> bool {
    v_dot_fx(face_normal_s(poly, faces, i).0, sp) > face_normal_s(poly, faces, i).1
}

/// The face triples kept from the first `i` faces: those the new
/// support point cannot see.
pub open spec fn kept_upto(poly: Seq<V3>, faces: Seq<usize>, sp: V3, i: int) -> Seq<usize>
    decreases i,
{
    if i <= 0 {
        Seq::empty()
    } else {
        let pre = kept_upto(poly, faces, sp, i - 1);
        if face_visible(poly, faces, i - 1, sp) {
            pre
        } else {
            pre + seq![faces[3 * (i - 1)], faces[3 * (i - 1) + 1], faces[3 * (i - 1) + 2]]
        }
    }
}

/// The horizon edges of the first `i` faces: each visible face offers
/// its three edges, and an edge shared by two visible faces cancels.
pub open spec fn edges_upto(poly: Seq<V3>, faces: Seq<usize>, sp: V3, i: int) -> Seq<(usize, usize)>
    decreases i,
{
    if i <= 0 {
        Seq::empty()
    } else {
        let pre = edges_upto(poly, faces, sp, i - 1);
        if face_visible(poly, faces, i - 1, sp) {
            add_edge_s(
                add_edge_s(
                    add_edge_s(pre, faces, 3 * (i - 1), 3 * (i - 1) + 1),
                    faces,
                    3 * (i - 1) + 1,
                    3 * (i - 1) + 2,
                ),
                faces,
                3 * (i - 1) + 2,
                3 * (i - 1),
            )
        } else {
            pre
        }
    }
}

/// The fan of new faces over the first `j` horizon edges, each edge
/// joined to the new vertex `v`.
pub open spec fn fan_upto(edges: Seq<(usize, usize)>, v: usize, j: int) -> Seq<usize>
    decreases j,
{
    if j <= 0 {
        Seq::empty()
    } else {
        fan_upto(edges, v, j - 1) + seq![edges[j - 1].0, edges[j - 1].1, v]
    }
}

/// The faces of the starting tetrahedron.
pub open spec fn epa_seed_faces() -> Seq<usize> {
    seq![0usize, 1usize, 2usize, 0usize, 3usize, 1usize, 0usize, 2usize, 3usize, 1usize, 3usize, 2usize]
}

/// The polytope expansion as a mathematical run.  Each round takes the
/// face nearest the origin and probes the Minkowski support along its
/// unit normal: a support within tolerance of the face plane settles the
/// answer as that face's normal and distance; otherwise the faces the
/// support sees are replaced by a fan from their horizon edges to the
/// support, and the next round runs on the grown polytope.  The run
/// reports no answer for an empty or degenerate face list (a face whose
/// edge cross product is zero has no normal) and when the round budget
/// is spent.
pub open spec fn epa_run_s(
    v1: Seq<V3>,
    v2: Seq<V3>,
    poly: Seq<V3>,
    faces: Seq<usize>,
    rounds: int,
) -> Option<(V3, int)>
    decreases rounds,
{
    let nf = faces.len() as int / 3;
    if faces.len() == 0 || !(forall|i: int|
        0 <= i < nf ==> v_mag2(#[trigger] face_cross(poly, faces, i)) > 0) {
        None
    } else if rounds <= 0 {
        None
    } else {
        let mf = min_face_upto(poly, faces, nf).1;
        let nd = face_normal_s(poly, faces, mf);
        let sp = mink_support_s(v1, v2, nd.0);
        if v_dot_fx(nd.0, sp) - nd.1 < EPA_TOL as int {
            Some(nd)
        } else {
            let newfaces = kept_upto(poly, faces, sp, nf) + fan_upto(
                edges_upto(poly, faces, sp, nf),
                poly.len() as usize,
                edges_upto(poly, faces, sp, nf).len() as int,
            );
            epa_run_s(v1, v2, poly.push(sp), newfaces, rounds - 1)
        }
    }
}

/// The Minkowski-difference support point the two vertex sets produce
/// for a search direction.
pub open spec fn mink_support_s(v1: Seq<V3>, v2: Seq<V3>, d: V3) -> V3 {
    v_sub(
        furthest_upto(v1, d, v1.len() as int).1,
        furthest_upto(v2, v_neg(d), v2.len() as int).1,
    )
}

/// A face's normal is a unit direction and its origin distance is a
/// bounded non-negative integer — the ranges the expansion's arithmetic
/// rests on.
proof fn lemma_face_dist_bound(poly: Seq<V3>, faces: Seq<usize>, i: int)
    requires
        0 <= i,
        3 * i + 2 < faces.len(),
        forall|f: int| 0 <= f < faces.len() ==> (#[trigger] faces[f]) < poly.len(),
        forall|k: int| 0 <= k < poly.len() ==> v_bounded(#[trigger] poly[k], GJK_CAP as int),
    ensures
        v_bounded(face_normal_s(poly, faces, i).0, UNITS_PER_METER as int),
        0 <= face_normal_s(poly, faces, i).1 <= 1500000000,
{
    let a = poly[faces[3 * i] as int];
    crate::collisions::lemma_unit_fx_bounded(face_cross(poly, faces, i));
    let n = v_unit_fx(face_cross(poly, faces, i));
    crate::mat3::lemma_dot_fx_bound(n, a, UNITS_PER_METER as int, GJK_CAP as int);
    assert((UNITS_PER_METER as int * GJK_CAP as int) / (UNITS_PER_METER as int)
        == GJK_CAP as int) by {
        vstd::arithmetic::div_mod::lemma_div_multiples_vanish(
            GJK_CAP as int,
            UNITS_PER_METER as int,
        );
        assert(UNITS_PER_METER as int * GJK_CAP as int == GJK_CAP as int * (UNITS_PER_METER
            as int)) by (nonlinear_arith);
    }
}

/// The nearest-face fold lands on a real face index once one face
/// exists, since every face distance lies below the fold's seed.
proof fn lemma_min_face_in_range(poly: Seq<V3>, faces: Seq<usize>, nf: int)
    requires
        1 <= nf,
        3 * nf <= faces.len(),
        forall|f: int| 0 <= f < faces.len() ==> (#[trigger] faces[f]) < poly.len(),
        forall|k: int| 0 <= k < poly.len() ==> v_bounded(#[trigger] poly[k], GJK_CAP as int),
    ensures
        0 <= min_face_upto(poly, faces, nf).1 < nf,
        min_face_upto(poly, faces, nf).0 < i64::MAX as int,
    decreases nf,
{
    lemma_face_dist_bound(poly, faces, nf - 1);
    if nf == 1 {
        assert(min_face_upto(poly, faces, 0) == (i64::MAX as int, 0int));
    } else {
        lemma_min_face_in_range(poly, faces, nf - 1);
    }
}

/// The edge search never lands before its starting index.
proof fn lemma_find_edge_ge(edges: Seq<(usize, usize)>, e: (usize, usize), i: int)
    requires
        0 <= i <= edges.len(),
    ensures
        find_edge_from(edges, e, i) >= i,
    decreases edges.len() - i,
{
    if i < edges.len() && edges[i] != e {
        lemma_find_edge_ge(edges, e, i + 1);
    }
}

/// Inserting an edge keeps every entry below the vertex bound.
proof fn lemma_add_edge_bounded(
    edges: Seq<(usize, usize)>,
    faces: Seq<usize>,
    a: int,
    b: int,
    cap: int,
)
    requires
        0 <= a < faces.len(),
        0 <= b < faces.len(),
        edges_bounded(edges, cap),
        forall|f: int| 0 <= f < faces.len() ==> ((#[trigger] faces[f]) as int) < cap,
    ensures
        edges_bounded(add_edge_s(edges, faces, a, b), cap),
{
    let r = add_edge_s(edges, faces, a, b);
    let rev = (faces[b], faces[a]);
    let fi = find_edge_from(edges, rev, 0);
    assert forall|k: int|
        0 <= k < r.len() implies ((#[trigger] r[k]).0 as int) < cap && (r[k].1 as int) < cap by {
        if fi < edges.len() {
            lemma_find_edge_ge(edges, rev, 0);
            edges.remove_ensures(fi);
            if k < fi {
                assert(r[k] == edges[k]);
            } else {
                assert(r[k] == edges[k + 1]);
            }
        } else {
            if k < edges.len() {
                assert(r[k] == edges[k]);
            } else {
                assert(r[k] == (faces[a], faces[b]));
            }
        }
    }
}

/// Expanding-polytope penetration extraction — the driver over the
/// verified building blocks.  From a tetrahedron of Minkowski support
/// points (as the intersection test leaves behind when it certifies
/// containment), each round finds the face nearest the origin and probes
/// the support along its unit normal: a support within `EPA_TOL` of the
/// face plane settles the penetration as that face's normal and
/// distance; otherwise the faces the support sees are replaced by a fan
/// from their horizon edges to the support and the expansion continues.
/// No answer is reported when a face degenerates (a zero edge cross
/// product has no normal) or the round budget is spent.  The result is
/// pinned exactly to the mathematical run `epa_run_s`.
pub fn epa_penetration(
    verts1: &Vec<IVec3>,
    verts2: &Vec<IVec3>,
    simplex: &Vec<IVec3>,
) -> (r: Option<(IVec3, i64)>)
    requires
        verts1@.len() > 0,
        verts2@.len() > 0,
        forall|k: int| 0 <= k < verts1@.len() ==> v_bounded((#[trigger] verts1@[k])@, 250000000),
        forall|k: int| 0 <= k < verts2@.len() ==> v_bounded((#[trigger] verts2@[k])@, 250000000),
        simplex@.len() == 4,
        forall|k: int| 0 <= k < 4 ==> v_bounded((#[trigger] simplex@[k])@, GJK_CAP as int),
    ensures
        ({
            let m = epa_run_s(
                vm(verts1@),
                vm(verts2@),
                vm(simplex@),
                epa_seed_faces(),
                EPA_ROUNDS as int,
            );
            match r {
                Some(p) => m == Some((p.0@, p.1 as int)),
                None => m is None,
            }
        }),
{
    let ghost v1 = vm(verts1@);
    let ghost v2 = vm(verts2@);
    let ghost target = epa_run_s(v1, v2, vm(simplex@), epa_seed_faces(), EPA_ROUNDS as int);
    let mut poly: Vec<IVec3> = Vec::new();
    let mut t: usize = 0;
    while t < 4
        invariant
            simplex@.len() == 4,
            t <= 4,
            poly@ == simplex@.take(t as int),
        decreases 4 - t,
    {
        poly.push(simplex[t]);
        proof {
            assert(poly@ =~= simplex@.take(t as int + 1));
        }
        t = t + 1;
    }
    proof {
        assert(poly@ =~= simplex@);
    }
    let mut faces: Vec<usize> = Vec::new();
    faces.push(0);
    faces.push(1);
    faces.push(2);
    faces.push(0);
    faces.push(3);
    faces.push(1);
    faces.push(0);
    faces.push(2);
    faces.push(3);
    faces.push(1);
    faces.push(3);
    faces.push(2);
    proof {
        assert(faces@ =~= epa_seed_faces());
        assert(vm(poly@) =~= vm(simplex@));
    }
    let mut rounds: usize = 0;
    while rounds < EPA_ROUNDS
        invariant
            v1 == vm(verts1@),
            v2 == vm(verts2@),
            verts1@.len() > 0,
            verts2@.len() > 0,
            forall|k: int|
                0 <= k < verts1@.len() ==> v_bounded((#[trigger] verts1@[k])@, 250000000),
            forall|k: int|
                0 <= k < verts2@.len() ==> v_bounded((#[trigger] verts2@[k])@, 250000000),
            rounds <= EPA_ROUNDS,
            faces@.len() % 3 == 0,
            forall|f: int| 0 <= f < faces@.len() ==> (#[trigger] faces@[f]) < poly@.len(),
            forall|k: int|
                0 <= k < poly@.len() ==> v_bounded((#[trigger] poly@[k])@, GJK_CAP as int),
            epa_run_s(v1, v2, vm(poly@), faces@, EPA_ROUNDS as int - rounds as int) == target,
            target == epa_run_s(v1, v2, vm(simplex@), epa_seed_faces(), EPA_ROUNDS as int),
        decreases EPA_ROUNDS - rounds,
    {
        if faces.len() == 0 {
            proof {
                assert(epa_run_s(
                    v1,
                    v2,
                    vm(poly@),
                    faces@,
                    EPA_ROUNDS as int - rounds as int,
                ) is None);
            }
            return None;
        }
        let nf = faces.len() / 3;
        proof {
            vstd::arithmetic::div_mod::lemma_fundamental_div_mod(faces@.len() as int, 3);
        }
        // a degenerate face has no normal: no answer
        let mut i: usize = 0;
        while i < nf
            invariant
                i <= nf,
                nf == faces@.len() / 3,
                3 * (nf as int) == faces@.len(),
                v1 == vm(verts1@),
                v2 == vm(verts2@),
                rounds < EPA_ROUNDS,
                epa_run_s(v1, v2, vm(poly@), faces@, EPA_ROUNDS as int - rounds as int)
                    == target,
                target == epa_run_s(v1, v2, vm(simplex@), epa_seed_faces(), EPA_ROUNDS as int),
                forall|f: int| 0 <= f < faces@.len() ==> (#[trigger] faces@[f]) < poly@.len(),
                forall|k: int|
                    0 <= k < poly@.len() ==> v_bounded((#[trigger] poly@[k])@, GJK_CAP as int),
                forall|i2: int|
                    0 <= i2 < i ==> v_mag2(#[trigger] face_cross(vm(poly@), faces@, i2)) > 0,
            decreases nf - i,
        {
            proof {
                assert(faces@.len() == faces.len());
                assert(3 * (i as int) + 2 < faces@.len());
            }
            let a = poly[faces[3 * i]];
            let b = poly[faces[3 * i + 1]];
            let c = poly[faces[3 * i + 2]];
            proof {
                assert(vm(poly@)[faces@[3 * i] as int] == a@);
                assert(vm(poly@)[faces@[3 * i + 1] as int] == b@);
                assert(vm(poly@)[faces@[3 * i + 2] as int] == c@);
                crate::vec3::lemma_cross_fx_cap(
                    v_sub(b@, a@),
                    v_sub(c@, a@),
                    1000000000,
                    1000000000,
                    1000000000000,
                );
            }
            let cr = b.sub(&a).cross_fx(&c.sub(&a));
            proof {
                assert(cr@ == face_cross(vm(poly@), faces@, i as int));
                crate::vec3::lemma_mag2_bound(cr@, 2000000000000);
            }
            let m2 = cr.mag2_wide();
            if m2 == 0 {
                proof {
                    assert(v_mag2(face_cross(vm(poly@), faces@, i as int)) == 0);
                    assert(!(forall|i2: int|
                        0 <= i2 < faces@.len() as int / 3 ==> v_mag2(
                            #[trigger] face_cross(vm(poly@), faces@, i2),
                        ) > 0));
                    assert(epa_run_s(
                        v1,
                        v2,
                        vm(poly@),
                        faces@,
                        EPA_ROUNDS as int - rounds as int,
                    ) is None);
                }
                return None;
            }
            i = i + 1;
        }
        let (normals, min_face) = get_face_normals(&poly, &faces);
        proof {
            lemma_min_face_in_range(vm(poly@), faces@, nf as int);
            lemma_face_dist_bound(
                vm(poly@),
                faces@,
                min_face_upto(vm(poly@), faces@, nf as int).1,
            );
        }
        let nd = normals[min_face];
        let n = nd.0;
        let d = nd.1;
        let sp = support(verts1, verts2, n);
        proof {
            lemma_support_in_range(v1, v2, n@);
            crate::vec3::lemma_cross_fx_cap(
                n@,
                sp@,
                UNITS_PER_METER as int,
                GJK_CAP as int,
                500000000,
            );
        }
        let sd = n.dot_fx(&sp);
        if sd - d < EPA_TOL {
            return Some((n, d));
        }
        // expand: keep the faces the support cannot see, fan the horizon
        // edges of the ones it can to the new point
        let ghost spv = sp@;
        let mut edges: Vec<(usize, usize)> = Vec::new();
        let mut kept: Vec<usize> = Vec::new();
        let mut f: usize = 0;
        while f < nf
            invariant
                f <= nf,
                nf == faces@.len() / 3,
                3 * (nf as int) == faces@.len(),
                normals@.len() == nf,
                forall|i2: int|
                    0 <= i2 < nf ==> (#[trigger] normals@[i2]).0@ == face_normal_s(
                        vm(poly@),
                        faces@,
                        i2,
                    ).0 && normals@[i2].1 == face_normal_s(vm(poly@), faces@, i2).1,
                forall|fi: int| 0 <= fi < faces@.len() ==> (#[trigger] faces@[fi]) < poly@.len(),
                forall|k: int|
                    0 <= k < poly@.len() ==> v_bounded((#[trigger] poly@[k])@, GJK_CAP as int),
                sp@ == spv,
                v_bounded(spv, GJK_CAP as int),
                edges@ == edges_upto(vm(poly@), faces@, spv, f as int),
                kept@ == kept_upto(vm(poly@), faces@, spv, f as int),
                edges_bounded(edges@, poly@.len() as int),
                forall|k: int| 0 <= k < kept@.len() ==> (#[trigger] kept@[k]) < poly@.len(),
                kept@.len() % 3 == 0,
            decreases nf - f,
        {
            let nv = normals[f];
            proof {
                lemma_face_dist_bound(vm(poly@), faces@, f as int);
                crate::vec3::lemma_cross_fx_cap(
                    nv.0@,
                    spv,
                    UNITS_PER_METER as int,
                    GJK_CAP as int,
                    500000000,
                );
            }
            let vis = nv.0.dot_fx(&sp) > nv.1;
            proof {
                assert(vis == face_visible(vm(poly@), faces@, f as int, spv));
                assert(faces@.len() == faces.len());
                assert(3 * (f as int) + 2 < faces@.len());
            }
            if vis {
                let ghost e0 = edges@;
                add_if_unique_edge(&mut edges, &faces, 3 * f, 3 * f + 1);
                proof {
                    assert(edges@ == add_edge_s(e0, faces@, 3 * (f as int), 3 * (f as int) + 1));
                    lemma_add_edge_bounded(
                        e0,
                        faces@,
                        3 * (f as int),
                        3 * (f as int) + 1,
                        poly@.len() as int,
                    );
                }
                let ghost e1 = edges@;
                add_if_unique_edge(&mut edges, &faces, 3 * f + 1, 3 * f + 2);
                proof {
                    assert(edges@ == add_edge_s(
                        e1,
                        faces@,
                        3 * (f as int) + 1,
                        3 * (f as int) + 2,
                    ));
                    lemma_add_edge_bounded(
                        e1,
                        faces@,
                        3 * (f as int) + 1,
                        3 * (f as int) + 2,
                        poly@.len() as int,
                    );
                }
                let ghost e2 = edges@;
                add_if_unique_edge(&mut edges, &faces, 3 * f + 2, 3 * f);
                proof {
                    assert(edges@ == add_edge_s(e2, faces@, 3 * (f as int) + 2, 3 * (f as int)));
                    lemma_add_edge_bounded(
                        e2,
                        faces@,
                        3 * (f as int) + 2,
                        3 * (f as int),
                        poly@.len() as int,
                    );
                    assert(edges@ == edges_upto(vm(poly@), faces@, spv, f as int + 1));
                }
            } else {
                let ghost k0 = kept@;
                kept.push(faces[3 * f]);
                kept.push(faces[3 * f + 1]);
                kept.push(faces[3 * f + 2]);
                proof {
                    assert(kept@ =~= k0 + seq![
                        faces@[3 * (f as int)],
                        faces@[3 * (f as int) + 1],
                        faces@[3 * (f as int) + 2],
                    ]);
                    assert(kept@ == kept_upto(vm(poly@), faces@, spv, f as int + 1));
                }
            }
            f = f + 1;
        }
        // fan the horizon to the new vertex
        let newv = poly.len();
        let ghost keptv = kept@;
        let ghost edgesv = edges@;
        let mut newfaces = kept;
        let ne = edges.len();
        let mut j: usize = 0;
        while j < ne
            invariant
                j <= ne,
                ne == edges@.len(),
                edges@ == edgesv,
                newv == poly@.len(),
                edges_bounded(edgesv, poly@.len() as int),
                forall|k: int| 0 <= k < keptv.len() ==> (#[trigger] keptv[k]) < poly@.len(),
                keptv.len() % 3 == 0,
                newfaces@ == keptv + fan_upto(edgesv, newv, j as int),
                newfaces@.len() == keptv.len() + 3 * (j as int),
                forall|k: int| 0 <= k < newfaces@.len() ==> (#[trigger] newfaces@[k]) <= newv,
            decreases ne - j,
        {
            let e = edges[j];
            newfaces.push(e.0);
            newfaces.push(e.1);
            newfaces.push(newv);
            proof {
                assert(newfaces@ =~= keptv + fan_upto(edgesv, newv, j as int + 1));
            }
            j = j + 1;
        }
        let ghost oldpoly = poly@;
        let ghost oldfaces = faces@;
        poly.push(sp);
        faces = newfaces;
        rounds = rounds + 1;
        proof {
            assert(vm(poly@) =~= vm(oldpoly).push(spv));
            assert(faces@ == kept_upto(vm(oldpoly), oldfaces, spv, nf as int) + fan_upto(
                edges_upto(vm(oldpoly), oldfaces, spv, nf as int),
                vm(oldpoly).len() as usize,
                edges_upto(vm(oldpoly), oldfaces, spv, nf as int).len() as int,
            ));
            assert(sp@ == mink_support_s(v1, v2, n@));
            assert(epa_run_s(v1, v2, vm(poly@), faces@, EPA_ROUNDS as int - rounds as int)
                == target);
            assert(faces@.len() % 3 == 0) by {
                assert(fan_upto(edgesv, newv, ne as int).len() == 3 * (ne as int));
            }
            assert forall|fi: int|
                0 <= fi < faces@.len() implies (#[trigger] faces@[fi]) < poly@.len() by {
                assert(faces@[fi] <= newv);
                assert(poly@.len() == newv + 1);
            }
        }
    }
    None
}

/// `p` is a Minkowski-difference support point of the two vertex sets:
/// some search direction produces it.
pub open spec fn is_minkowski_support(v1: Seq<V3>, v2: Seq<V3>, p: V3) -> bool {
    exists|d: V3| p == mink_support_s(v1, v2, d)
}

/// Every point of a refined simplex came from the simplex it refined.
proof fn lemma_line_result_elements(a: V3, b: V3, k: int)
    requires
        0 <= k < line_result_s(a, b).len(),
    ensures
        line_result_s(a, b)[k] == a || line_result_s(a, b)[k] == b,
{
}

proof fn lemma_tri_result_elements(a: V3, b: V3, c: V3, k: int)
    requires
        0 <= k < tri_result_s(a, b, c).len(),
    ensures
        tri_result_s(a, b, c)[k] == a || tri_result_s(a, b, c)[k] == b || tri_result_s(a, b, c)[k]
            == c,
{
    let ab = v_sub(b, a);
    let ac = v_sub(c, a);
    let ao = v_neg(a);
    let abc = v_cross_fx(ab, ac);
    if v_dot_fx(v_cross_fx(abc, ac), ao) > 0 {
        if !(v_dot_fx(ac, ao) > 0) {
            lemma_line_result_elements(a, b, k);
        }
    } else if v_dot_fx(v_cross_fx(ab, abc), ao) > 0 {
        lemma_line_result_elements(a, b, k);
    }
}

proof fn lemma_tet_result_elements(a: V3, b: V3, c: V3, d: V3, k: int)
    requires
        0 <= k < tet_result_s(a, b, c, d).len(),
    ensures
        tet_result_s(a, b, c, d)[k] == a || tet_result_s(a, b, c, d)[k] == b || tet_result_s(
            a,
            b,
            c,
            d,
        )[k] == c || tet_result_s(a, b, c, d)[k] == d,
{
    let ao = v_neg(a);
    if v_dot_fx(v_cross_fx(v_sub(b, a), v_sub(c, a)), ao) > 0 {
        lemma_tri_result_elements(a, b, c, k);
    } else if v_dot_fx(v_cross_fx(v_sub(c, a), v_sub(d, a)), ao) > 0 {
        lemma_tri_result_elements(a, c, d, k);
    } else if v_dot_fx(v_cross_fx(v_sub(d, a), v_sub(b, a)), ao) > 0 {
        lemma_tri_result_elements(a, d, b, k);
    }
}

/// The directions the simplex cases produce stay bounded when the
/// simplex points are in range.
proof fn lemma_line_dir_bounded(a: V3, b: V3)
    requires
        v_bounded(a, GJK_CAP as int),
        v_bounded(b, GJK_CAP as int),
    ensures
        v_bounded(line_dir_s(a, b), GJK_DIR_CAP as int),
{
    let ab = v_sub(b, a);
    let ao = v_neg(a);
    crate::vec3::lemma_cross_fx_cap(ab, ao, 1000000000, 500000000, 500000000000);
    crate::vec3::lemma_cross_fx_cap(
        v_cross_fx(ab, ao),
        ab,
        1000000000000,
        1000000000,
        1000000000000000,
    );
}

proof fn lemma_tri_dir_bounded(a: V3, b: V3, c: V3)
    requires
        v_bounded(a, GJK_CAP as int),
        v_bounded(b, GJK_CAP as int),
        v_bounded(c, GJK_CAP as int),
    ensures
        v_bounded(tri_dir_s(a, b, c), GJK_DIR_CAP as int),
{
    let ab = v_sub(b, a);
    let ac = v_sub(c, a);
    let ao = v_neg(a);
    crate::vec3::lemma_cross_fx_cap(ab, ac, 1000000000, 1000000000, 1000000000000);
    let abc = v_cross_fx(ab, ac);
    crate::vec3::lemma_cross_fx_cap(ac, ao, 1000000000, 500000000, 500000000000);
    crate::vec3::lemma_cross_fx_cap(
        v_cross_fx(ac, ao),
        ac,
        1000000000000,
        1000000000,
        1000000000000000,
    );
    lemma_line_dir_bounded(a, b);
}

proof fn lemma_tet_dir_bounded(a: V3, b: V3, c: V3, d: V3, init: V3)
    requires
        v_bounded(a, GJK_CAP as int),
        v_bounded(b, GJK_CAP as int),
        v_bounded(c, GJK_CAP as int),
        v_bounded(d, GJK_CAP as int),
        v_bounded(init, GJK_DIR_CAP as int),
    ensures
        v_bounded(tet_dir_s(a, b, c, d, init), GJK_DIR_CAP as int),
{
    lemma_tri_dir_bounded(a, b, c);
    lemma_tri_dir_bounded(a, c, d);
    lemma_tri_dir_bounded(a, d, b);
}

/// How the overlap test ended: a containment certificate, a separation
/// certificate, or the round budget running out with neither.
#[derive(Clone, Copy, PartialEq, Eq, Structural, Debug)]
pub enum GjkOutcome {
    Intersecting,
    Separated,
    Exhausted,
}

/// The refinement as a mathematical run.  Each round probes the
/// Minkowski support along the search direction; a support that cannot
/// pass the origin certifies separation; otherwise the grown simplex
/// goes through the line, triangle or tetrahedron case, the last of
/// which certifies containment when it holds the origin.  A spent round
/// budget ends the run with neither certificate.
pub open spec fn gjk_run_s(
    v1: Seq<V3>,
    v2: Seq<V3>,
    simplex: Seq<V3>,
    dir: V3,
    rounds: int,
) -> GjkOutcome
    decreases rounds,
{
    if rounds <= 0 {
        GjkOutcome::Exhausted
    } else {
        let sp = mink_support_s(v1, v2, dir);
        if v_dot_fx(sp, dir) <= 0 {
            GjkOutcome::Separated
        } else {
            let s2 = seq![sp] + simplex;
            if s2.len() == 2 {
                gjk_run_s(v1, v2, line_result_s(s2[0], s2[1]), line_dir_s(s2[0], s2[1]), rounds - 1)
            } else if s2.len() == 3 {
                gjk_run_s(
                    v1,
                    v2,
                    tri_result_s(s2[0], s2[1], s2[2]),
                    tri_dir_s(s2[0], s2[1], s2[2]),
                    rounds - 1,
                )
            } else if tet_hit(s2[0], s2[1], s2[2], s2[3]) {
                GjkOutcome::Intersecting
            } else {
                gjk_run_s(
                    v1,
                    v2,
                    tet_result_s(s2[0], s2[1], s2[2], s2[3]),
                    tet_dir_s(s2[0], s2[1], s2[2], s2[3], dir),
                    rounds - 1,
                )
            }
        }
    }
}

/// The direction the refinement starts from.
pub open spec fn gjk_seed_dir() -> V3 {
    V3 { x: UNITS_PER_METER as int, y: 0, z: UNITS_PER_METER as int }
}

/// The GJK existence test: walks Minkowski-difference support points,
/// refining a simplex until it encloses the origin or the support in
/// the current direction cannot pass the origin.  Each conclusive answer
/// carries its certificate: `Intersecting` means four support points of
/// the difference whose tetrahedron passes the containment test exist,
/// and `Separated` means some direction's support point does not reach
/// past the origin, so no point of the difference does.  The iteration
/// count is capped; `Exhausted` reports that the budget ran out with
/// neither certificate found.  The result is pinned exactly: it is the
/// 32-round mathematical run `gjk_run_s` seeded with the fixed first
/// direction, so no outcome — `Exhausted` included — can be returned
/// except by running the refinement to its stated end.
pub fn gjk_intersects(verts1: &Vec<IVec3>, verts2: &Vec<IVec3>) -> (r: GjkOutcome)
    requires
        verts1@.len() > 0,
        verts2@.len() > 0,
        forall|k: int|
            0 <= k < verts1@.len() ==> v_bounded((#[trigger] verts1@[k])@, 250000000),
        forall|k: int|
            0 <= k < verts2@.len() ==> v_bounded((#[trigger] verts2@[k])@, 250000000),
    ensures
        r is Intersecting ==> exists|a: V3, b: V3, c: V3, d: V3|
            is_minkowski_support(vm(verts1@), vm(verts2@), a) && is_minkowski_support(
                vm(verts1@),
                vm(verts2@),
                b,
            ) && is_minkowski_support(vm(verts1@), vm(verts2@), c) && is_minkowski_support(
                vm(verts1@),
                vm(verts2@),
                d,
            ) && tet_hit(a, b, c, d),
        r is Separated ==> exists|d: V3|
            v_dot_fx(#[trigger] mink_support_s(vm(verts1@), vm(verts2@), d), d) <= 0,
        r == gjk_run_s(
            vm(verts1@),
            vm(verts2@),
            seq![mink_support_s(vm(verts1@), vm(verts2@), gjk_seed_dir())],
            v_neg(mink_support_s(vm(verts1@), vm(verts2@), gjk_seed_dir())),
            32,
        ),
{
    let ghost v1 = vm(verts1@);
    let ghost v2 = vm(verts2@);
    proof {
        assert forall|k: int|
            0 <= k < verts1@.len() implies v_bounded(
            (#[trigger] verts1@[k])@,
            GJK_CAP as int,
        ) by {}
        assert forall|k: int|
            0 <= k < verts2@.len() implies v_bounded(
            (#[trigger] verts2@[k])@,
            GJK_CAP as int,
        ) by {}
    }
    let mut direction = IVec3 { x: UNITS_PER_METER, y: 0, z: UNITS_PER_METER };
    let first = support(verts1, verts2, direction);
    proof {
        lemma_support_in_range(v1, v2, direction@);
        assert(direction@ == gjk_seed_dir());
        assert(first@ == mink_support_s(v1, v2, gjk_seed_dir()));
        assert(is_minkowski_support(v1, v2, first@));
    }
    let ghost target = gjk_run_s(
        v1,
        v2,
        seq![mink_support_s(v1, v2, gjk_seed_dir())],
        v_neg(mink_support_s(v1, v2, gjk_seed_dir())),
        32,
    );
    let mut simplex: Vec<IVec3> = Vec::new();
    simplex.push(first);
    direction = first.neg();
    proof {
        assert(vm(simplex@) =~= seq![first@]);
        assert(direction@ == v_neg(first@));
        assert(gjk_run_s(v1, v2, vm(simplex@), direction@, 32) == target);
    }
    let mut rounds: usize = 0;
    while rounds < 32
        invariant
            v1 == vm(verts1@),
            v2 == vm(verts2@),
            verts1@.len() > 0,
            verts2@.len() > 0,
            forall|k: int|
                0 <= k < verts1@.len() ==> v_bounded((#[trigger] verts1@[k])@, 250000000),
            forall|k: int|
                0 <= k < verts2@.len() ==> v_bounded((#[trigger] verts2@[k])@, 250000000),
            1 <= simplex@.len() <= 3,
            rounds <= 32,
            v_bounded(direction@, GJK_DIR_CAP as int),
            forall|k: int|
                0 <= k < simplex@.len() ==> v_bounded(
                    (#[trigger] simplex@[k])@,
                    GJK_CAP as int,
                ),
            forall|k: int|
                0 <= k < simplex@.len() ==> is_minkowski_support(
                    v1,
                    v2,
                    (#[trigger] simplex@[k])@,
                ),
            gjk_run_s(v1, v2, vm(simplex@), direction@, 32 - rounds as int) == target,
            target == gjk_run_s(
                v1,
                v2,
                seq![mink_support_s(v1, v2, gjk_seed_dir())],
                v_neg(mink_support_s(v1, v2, gjk_seed_dir())),
                32,
            ),
        decreases 32 - rounds,
    {
        rounds = rounds + 1;
        let sp = support(verts1, verts2, direction);
        proof {
            lemma_support_in_range(v1, v2, direction@);
            crate::vec3::lemma_cross_fx_cap(
                sp@,
                direction@,
                GJK_CAP as int,
                GJK_DIR_CAP as int,
                2000000000000000000,
            );
        }
        if sp.dot_fx(&direction) <= 0 {
            proof {
                assert(sp@ == mink_support_s(v1, v2, direction@));
                assert(v_dot_fx(mink_support_s(v1, v2, direction@), direction@) <= 0);
                assert(gjk_run_s(v1, v2, vm(simplex@), direction@, 32 - rounds as int + 1)
                    == GjkOutcome::Separated);
            }
            return GjkOutcome::Separated;
        }
        let ghost before_insert = simplex@;
        simplex.insert(0, sp);
        proof {
            let spd = direction@;
            assert(sp@ == mink_support_s(v1, v2, spd));
            assert(is_minkowski_support(v1, v2, sp@));
            assert forall|k: int| 0 <= k < simplex@.len() implies v_bounded(
                (#[trigger] simplex@[k])@,
                GJK_CAP as int,
            ) && is_minkowski_support(v1, v2, simplex@[k]@) by {
                if k == 0 {
                    assert(simplex@[0] == sp);
                } else {
                    assert(simplex@[k] == before_insert[k - 1]);
                }
            }
        }
        let ghost pre = simplex@;
        let ghost dir_pre = direction@;
        proof {
            assert(vm(pre) =~= seq![mink_support_s(v1, v2, dir_pre)] + vm(before_insert));
            assert(vm(pre)[0] == pre[0]@);
            assert(pre.len() >= 2 ==> vm(pre)[1] == pre[1]@);
            assert(pre.len() >= 3 ==> vm(pre)[2] == pre[2]@);
            assert(pre.len() >= 4 ==> vm(pre)[3] == pre[3]@);
        }
        if next_simplex(&mut simplex, &mut direction) {
            proof {
                assert(pre.len() == 4);
                assert(tet_hit(pre[0]@, pre[1]@, pre[2]@, pre[3]@));
                assert(is_minkowski_support(v1, v2, pre[0]@) && is_minkowski_support(
                    v1,
                    v2,
                    pre[1]@,
                ) && is_minkowski_support(v1, v2, pre[2]@) && is_minkowski_support(
                    v1,
                    v2,
                    pre[3]@,
                ));
                assert(gjk_run_s(v1, v2, vm(before_insert), dir_pre, 32 - rounds as int + 1)
                    == GjkOutcome::Intersecting);
            }
            return GjkOutcome::Intersecting;
        }
        proof {
            if pre.len() == 4 {
                assert(v_bounded(dir_pre, GJK_DIR_CAP as int) && direction@ == tet_dir_s(
                    pre[0]@,
                    pre[1]@,
                    pre[2]@,
                    pre[3]@,
                    dir_pre,
                ));
            }
            lemma_refined_simplex_ok(pre, simplex@, direction@, v1, v2);
            // one unfolding of the run matches the refinement step taken
            if pre.len() == 2 {
                assert(vm(simplex@) == line_result_s(pre[0]@, pre[1]@));
                assert(direction@ == line_dir_s(pre[0]@, pre[1]@));
            } else if pre.len() == 3 {
                assert(vm(simplex@) == tri_result_s(pre[0]@, pre[1]@, pre[2]@));
                assert(direction@ == tri_dir_s(pre[0]@, pre[1]@, pre[2]@));
            } else {
                assert(vm(simplex@) == tet_result_s(pre[0]@, pre[1]@, pre[2]@, pre[3]@));
                assert(!tet_hit(pre[0]@, pre[1]@, pre[2]@, pre[3]@));
            }
            assert(gjk_run_s(v1, v2, vm(simplex@), direction@, 32 - rounds as int) == gjk_run_s(
                v1,
                v2,
                vm(before_insert),
                dir_pre,
                32 - rounds as int + 1,
            ));
        }
    }
    proof {
        assert(gjk_run_s(v1, v2, vm(simplex@), direction@, 0) == GjkOutcome::Exhausted);
    }
    GjkOutcome::Exhausted
}

/// After a non-terminating refinement step the simplex shrank back to
/// at most three points, all drawn from the step's inputs, and the new
/// direction is in range.
proof fn lemma_refined_simplex_ok(
    pre: Seq<IVec3>,
    post: Seq<IVec3>,
    dir: V3,
    v1: Seq<V3>,
    v2: Seq<V3>,
)
    requires
        2 <= pre.len() <= 4,
        forall|k: int| 0 <= k < pre.len() ==> v_bounded((#[trigger] pre[k])@, GJK_CAP as int),
        forall|k: int| 0 <= k < pre.len() ==> is_minkowski_support(v1, v2, (#[trigger] pre[k])@),
        pre.len() == 2 ==> vm(post) == line_result_s(pre[0]@, pre[1]@) && dir == line_dir_s(
            pre[0]@,
            pre[1]@,
        ),
        pre.len() == 3 ==> vm(post) == tri_result_s(pre[0]@, pre[1]@, pre[2]@) && dir
            == tri_dir_s(pre[0]@, pre[1]@, pre[2]@),
        pre.len() == 4 ==> !tet_hit(pre[0]@, pre[1]@, pre[2]@, pre[3]@) && vm(post)
            == tet_result_s(pre[0]@, pre[1]@, pre[2]@, pre[3]@),
        pre.len() == 4 ==> exists|init: V3|
            v_bounded(init, GJK_DIR_CAP as int) && dir == tet_dir_s(
                pre[0]@,
                pre[1]@,
                pre[2]@,
                pre[3]@,
                init,
            ),
    ensures
        1 <= post.len() <= 3,
        v_bounded(dir, GJK_DIR_CAP as int),
        forall|k: int| 0 <= k < post.len() ==> v_bounded((#[trigger] post[k])@, GJK_CAP as int),
        forall|k: int| 0 <= k < post.len() ==> is_minkowski_support(v1, v2, (#[trigger] post[k])@),
{
    assert(vm(post).len() == post.len());
    if pre.len() == 2 {
        lemma_line_dir_bounded(pre[0]@, pre[1]@);
        assert forall|k: int| 0 <= k < post.len() implies v_bounded(
            (#[trigger] post[k])@,
            GJK_CAP as int,
        ) && is_minkowski_support(v1, v2, post[k]@) by {
            assert(vm(post)[k] == post[k]@);
            lemma_line_result_elements(pre[0]@, pre[1]@, k);
        }
    } else if pre.len() == 3 {
        lemma_tri_dir_bounded(pre[0]@, pre[1]@, pre[2]@);
        assert forall|k: int| 0 <= k < post.len() implies v_bounded(
            (#[trigger] post[k])@,
            GJK_CAP as int,
        ) && is_minkowski_support(v1, v2, post[k]@) by {
            assert(vm(post)[k] == post[k]@);
            lemma_tri_result_elements(pre[0]@, pre[1]@, pre[2]@, k);
        }
    } else {
        let init = choose|init: V3|
            v_bounded(init, GJK_DIR_CAP as int) && dir == tet_dir_s(
                pre[0]@,
                pre[1]@,
                pre[2]@,
                pre[3]@,
                init,
            );
        lemma_tet_dir_bounded(pre[0]@, pre[1]@, pre[2]@, pre[3]@, init);
        assert forall|k: int| 0 <= k < post.len() implies v_bounded(
            (#[trigger] post[k])@,
            GJK_CAP as int,
        ) && is_minkowski_support(v1, v2, post[k]@) by {
            assert(vm(post)[k] == post[k]@);
            lemma_tet_result_elements(pre[0]@, pre[1]@, pre[2]@, pre[3]@, k);
        }
    }
}

/// A support point of in-range vertex sets is in range itself.
proof fn lemma_support_in_range(v1: Seq<V3>, v2: Seq<V3>, d: V3)
    requires
        forall|k: int| 0 <= k < v1.len() ==> v_bounded(#[trigger] v1[k], 250000000),
        forall|k: int| 0 <= k < v2.len() ==> v_bounded(#[trigger] v2[k], 250000000),
    ensures
        v_bounded(
            v_sub(
                furthest_upto(v1, d, v1.len() as int).1,
                furthest_upto(v2, v_neg(d), v2.len() as int).1,
            ),
            GJK_CAP as int,
        ),
{
    lemma_furthest_in_cap(v1, d, v1.len() as int);
    lemma_furthest_in_cap(v2, v_neg(d), v2.len() as int);
}

proof fn lemma_furthest_in_cap(verts: Seq<V3>, direction: V3, i: int)
    requires
        forall|k: int| 0 <= k < verts.len() ==> v_bounded(#[trigger] verts[k], 250000000),
        i <= verts.len(),
    ensures
        v_bounded(furthest_upto_rec(verts, direction, i).1, 250000000),
    decreases i,
{
    if i > 0 {
        lemma_furthest_in_cap(verts, direction, i - 1);
    }
}

/// The furthest-point result is the seed or one of the vertices, so it
/// stays inside the simplex bound.
proof fn lemma_furthest_bounded(verts: Seq<V3>, direction: V3, i: int)
    requires
        forall|k: int| 0 <= k < verts.len() ==> v_bounded(#[trigger] verts[k], GJK_CAP as int),
        i <= verts.len(),
    ensures
        v_bounded(furthest_upto_rec(verts, direction, i).1, GJK_CAP as int),
    decreases i,
{
    if i > 0 {
        lemma_furthest_bounded(verts, direction, i - 1);
    }
}

} // verus!
