//! Ray queries against a mesh: nearest intersected face.
//!
//! Planes are carried as exact integer data (a Newell normal and a
//! determinant offset), so side tests and the nearest-face comparison are
//! decided without rounding; only the intersection parameter itself is
//! rounded to fixed point, through explicit truncating division.

use vstd::prelude::*;

use crate::WorldError;
use crate::fixed::{spec_tdiv, spec_tdiv_s, tdiv128};
use crate::polyhedron::{Polyhedron, coords_bounded, wf};
use crate::vec3::{Vec3, bounded};

verus! {

/// Coordinate band accepted for ray origins and mesh vertices.
pub const RAY_COORD_LIMIT: i64 = 8_000_000;

/// Intersections farther than this fixed-point parameter are rejected as
/// degenerate (the ray is nearly parallel to the plane).
pub const MAX_RAY_DIST: i128 = 1_000_000_000_000;

/// Which side of a plane a point lies on.
#[derive(Clone, Copy, Debug, PartialEq, Eq, Structural)]
pub enum PlaneSide {
    Above,
    On,
    Below,
}

/// A ray: origin and direction.
#[derive(Clone, Copy, Debug, PartialEq, Eq, Structural)]
pub struct Ray {
    pub orig: Vec3,
    pub dir: Vec3,
}

/// A supporting plane: an exact Newell normal and determinant offset.
#[derive(Clone, Copy, Debug, PartialEq, Eq, Structural)]
pub struct Plane {
    pub normal: Vec3,
    pub d: i128,
}

/// The Newell normal of a triangle: exact cross-product sums.
pub open spec fn spec_newell(v1: Vec3, v2: Vec3, v3: Vec3) -> (int, int, int) {
    (
        v1.y * (v2.z - v3.z) + v2.y * (v3.z - v1.z) + v3.y * (v1.z - v2.z),
        v1.z * (v2.x - v3.x) + v2.z * (v3.x - v1.x) + v3.z * (v1.x - v2.x),
        v1.x * (v2.y - v3.y) + v2.x * (v3.y - v1.y) + v3.x * (v1.y - v2.y),
    )
}

/// The determinant of the three vertices (six times the signed volume of
/// their tetrahedron with the origin).
pub open spec fn spec_det(v1: Vec3, v2: Vec3, v3: Vec3) -> int {
    v1.x * (v2.y * v3.z - v3.y * v2.z) + v2.x * (v3.y * v1.z - v1.y * v3.z) + v3.x * (v1.y
        * v2.z - v2.y * v1.z)
}

/// Which side of the plane through the origin with this normal a point is
/// on: the sign of the negated dot product.
pub open spec fn spec_side(normal: (int, int, int), p: (int, int, int)) -> PlaneSide {
    let dist = -(p.0 * normal.0 + p.1 * normal.1 + p.2 * normal.2);
    if dist < 0 {
        PlaneSide::Above
    } else if dist > 0 {
        PlaneSide::Below
    } else {
        PlaneSide::On
    }
}

/// The rounded ray/triangle intersection parameter, or `None` when the ray
/// is parallel to the plane, the intersection lies behind the origin or
/// beyond [`MAX_RAY_DIST`], or the intersection point fails one of the
/// three origin-relative edge-plane containment tests (edge planes oriented
/// so an interior point of a front face is never below any of them).
pub open spec fn spec_hit(ray: Ray, v1: Vec3, v2: Vec3, v3: Vec3) -> Option<int> {
    let n = spec_newell(v1, v2, v3);
    let d = -spec_det(v1, v2, v3);
    let den = ray.dir.x * n.0 + ray.dir.y * n.1 + ray.dir.z * n.2;
    let num = -(ray.orig.x * n.0 + ray.orig.y * n.1 + ray.orig.z * n.2 + d);
    if den == 0 {
        None
    } else {
        let t = spec_tdiv_s(num * 1_000_000, den);
        if t > MAX_RAY_DIST || t < 0 {
            None
        } else {
            let p = (
                ray.orig.x + spec_tdiv(ray.dir.x * t, 1_000_000),
                ray.orig.y + spec_tdiv(ray.dir.y * t, 1_000_000),
                ray.orig.z + spec_tdiv(ray.dir.z * t, 1_000_000),
            );
            let s1 = spec_side(spec_newell(ray.orig, v2, v1), p);
            let s2 = spec_side(spec_newell(ray.orig, v3, v2), p);
            let s3 = spec_side(spec_newell(ray.orig, v1, v3), p);
            if s1 != PlaneSide::Below && s2 != PlaneSide::Below && s3 != PlaneSide::Below {
                Some(t)
            } else {
                None
            }
        }
    }
}

/// The hit parameter of face `i` of the mesh.
pub open spec fn spec_face_hit(poly: Polyhedron, ray: Ray, i: int) -> Option<int> {
    spec_hit(
        ray,
        poly.vertices@[poly.faces@[i].vertex_indices@[0] as int].pos,
        poly.vertices@[poly.faces@[i].vertex_indices@[1] as int].pos,
        poly.vertices@[poly.faces@[i].vertex_indices@[2] as int].pos,
    )
}

impl Plane {
    /// The supporting plane of three points: Newell normal plus determinant
    /// offset, both exact.
    pub fn from_points(v1: &Vec3, v2: &Vec3, v3: &Vec3) -> (r: Plane)
        requires
            bounded(*v1, RAY_COORD_LIMIT as int),
            bounded(*v2, RAY_COORD_LIMIT as int),
            bounded(*v3, RAY_COORD_LIMIT as int),
        ensures
            r.normal.x == spec_newell(*v1, *v2, *v3).0,
            r.normal.y == spec_newell(*v1, *v2, *v3).1,
            r.normal.z == spec_newell(*v1, *v2, *v3).2,
            r.d == -spec_det(*v1, *v2, *v3),
            bounded(r.normal, 400_000_000_000_000),
            -7_000_000_000_000_000_000_000 <= r.d <= 7_000_000_000_000_000_000_000,
    {
        proof {
            let l: int = RAY_COORD_LIMIT as int;
            assert(forall|a: int, b: int|
                -l <= a <= l && -(2 * l) <= b <= 2 * l ==> -(2 * l * l) <= #[trigger] (a * b)
                    <= 2 * l * l) by (nonlinear_arith);
            assert(forall|a: int, b: int|
                -l <= a <= l && -(4 * (l * l)) <= b <= 4 * (l * l) ==> -(4 * ((l * l) * l))
                    <= #[trigger] (a * b) <= 4 * ((l * l) * l)) by (nonlinear_arith);
        }
        let nx: i128 = v1.y as i128 * (v2.z as i128 - v3.z as i128) + v2.y as i128 * (v3.z
            as i128 - v1.z as i128) + v3.y as i128 * (v1.z as i128 - v2.z as i128);
        let ny: i128 = v1.z as i128 * (v2.x as i128 - v3.x as i128) + v2.z as i128 * (v3.x
            as i128 - v1.x as i128) + v3.z as i128 * (v1.x as i128 - v2.x as i128);
        let nz: i128 = v1.x as i128 * (v2.y as i128 - v3.y as i128) + v2.x as i128 * (v3.y
            as i128 - v1.y as i128) + v3.x as i128 * (v1.y as i128 - v2.y as i128);
        let det: i128 = v1.x as i128 * (v2.y as i128 * v3.z as i128 - v3.y as i128 * v2.z
            as i128) + v2.x as i128 * (v3.y as i128 * v1.z as i128 - v1.y as i128 * v3.z
            as i128) + v3.x as i128 * (v1.y as i128 * v2.z as i128 - v2.y as i128 * v1.z
            as i128);
        Plane {
            normal: Vec3 { x: nx as i64, y: ny as i64, z: nz as i64 },
            d: -det,
        }
    }

    /// Which side of the origin-anchored plane with this normal the point
    /// lies on (the stored offset plays no part, matching the containment
    /// technique of [`Ray::intersection_dist`]).
    pub fn get_plane_side(&self, point: &Vec3) -> (r: PlaneSide)
        requires
            bounded(self.normal, 0x4000_0000_0000_0000),
            bounded(*point, 0x4000_0000_0000_0000),
        ensures
            r == spec_side(
                (self.normal.x as int, self.normal.y as int, self.normal.z as int),
                (point.x as int, point.y as int, point.z as int),
            ),
    {
        let dot = point.dot(&self.normal);
        if dot > 0 {
            PlaneSide::Above
        } else if dot < 0 {
            PlaneSide::Below
        } else {
            PlaneSide::On
        }
    }
}

impl Plane {
    /// The ray/plane intersection: the rounded fixed-point parameter and
    /// the rounded intersection point.  `None` when the ray is parallel to
    /// the plane (zero denominator) or the parameter is negative (behind
    /// the origin) or beyond [`MAX_RAY_DIST`].
    pub fn intersection_point(&self, ray: &Ray) -> (r: Option<(Vec3, i64)>)
        requires
            bounded(self.normal, 400_000_000_000_000),
            -7_000_000_000_000_000_000_000 <= self.d <= 7_000_000_000_000_000_000_000,
            bounded(ray.orig, RAY_COORD_LIMIT as int),
            bounded(ray.dir, RAY_COORD_LIMIT as int),
        ensures
            ({
                let n = (self.normal.x as int, self.normal.y as int, self.normal.z as int);
                let den = ray.dir.x * n.0 + ray.dir.y * n.1 + ray.dir.z * n.2;
                let num = -(ray.orig.x * n.0 + ray.orig.y * n.1 + ray.orig.z * n.2 + self.d);
                if den == 0 {
                    r is None
                } else {
                    let t = spec_tdiv_s(num * 1_000_000, den);
                    if t > MAX_RAY_DIST || t < 0 {
                        r is None
                    } else {
                        &&& r is Some
                        &&& r->Some_0.1 == t
                        &&& r->Some_0.0.x == ray.orig.x + spec_tdiv(ray.dir.x * t, 1_000_000)
                        &&& r->Some_0.0.y == ray.orig.y + spec_tdiv(ray.dir.y * t, 1_000_000)
                        &&& r->Some_0.0.z == ray.orig.z + spec_tdiv(ray.dir.z * t, 1_000_000)
                        &&& bounded(r->Some_0.0, 16_000_000_000_000)
                    }
                }
            }),
    {
        let den: i128 = ray.dir.dot(&self.normal);
        proof {
            crate::fixed::lemma_mul_le(
                ray.dir.x as int,
                self.normal.x as int,
                RAY_COORD_LIMIT as int,
                400_000_000_000_000,
            );
            crate::fixed::lemma_mul_le(
                ray.dir.y as int,
                self.normal.y as int,
                RAY_COORD_LIMIT as int,
                400_000_000_000_000,
            );
            crate::fixed::lemma_mul_le(
                ray.dir.z as int,
                self.normal.z as int,
                RAY_COORD_LIMIT as int,
                400_000_000_000_000,
            );
            crate::fixed::lemma_mul_le(
                ray.orig.x as int,
                self.normal.x as int,
                RAY_COORD_LIMIT as int,
                400_000_000_000_000,
            );
            crate::fixed::lemma_mul_le(
                ray.orig.y as int,
                self.normal.y as int,
                RAY_COORD_LIMIT as int,
                400_000_000_000_000,
            );
            crate::fixed::lemma_mul_le(
                ray.orig.z as int,
                self.normal.z as int,
                RAY_COORD_LIMIT as int,
                400_000_000_000_000,
            );
        }
        if den == 0 {
            return None;
        }
        let num: i128 = -(ray.orig.dot(&self.normal) + self.d);
        let t = crate::fixed::tdiv128_s(num * 1_000_000, den);
        if t > MAX_RAY_DIST || t < 0 {
            return None;
        }
        proof {
            crate::fixed::lemma_mul_le(
                ray.dir.x as int,
                t as int,
                RAY_COORD_LIMIT as int,
                MAX_RAY_DIST as int,
            );
            crate::fixed::lemma_mul_le(
                ray.dir.y as int,
                t as int,
                RAY_COORD_LIMIT as int,
                MAX_RAY_DIST as int,
            );
            crate::fixed::lemma_mul_le(
                ray.dir.z as int,
                t as int,
                RAY_COORD_LIMIT as int,
                MAX_RAY_DIST as int,
            );
            crate::fixed::lemma_tdiv_bound(
                ray.dir.x as int * t as int,
                1_000_000,
                8_000_000_000_000_000_000,
            );
            crate::fixed::lemma_tdiv_bound(
                ray.dir.y as int * t as int,
                1_000_000,
                8_000_000_000_000_000_000,
            );
            crate::fixed::lemma_tdiv_bound(
                ray.dir.z as int * t as int,
                1_000_000,
                8_000_000_000_000_000_000,
            );
        }
        let px = ray.orig.x as i128 + tdiv128(ray.dir.x as i128 * t, 1_000_000);
        let py = ray.orig.y as i128 + tdiv128(ray.dir.y as i128 * t, 1_000_000);
        let pz = ray.orig.z as i128 + tdiv128(ray.dir.z as i128 * t, 1_000_000);
        Some((Vec3 { x: px as i64, y: py as i64, z: pz as i64 }, t as i64))
    }
}

impl Ray {
    /// The ray from a viewpoint toward the coordinate origin.  Fails with
    /// [`WorldError::NumericDegeneracy`] exactly when the viewpoint is the
    /// origin itself.
    pub fn towards_center(orig: &Vec3) -> (r: Result<Ray, WorldError>)
        requires
            bounded(*orig, RAY_COORD_LIMIT as int),
        ensures
            r is Err <==> crate::vec3::spec_norm2(*orig) == 0,
            r is Err ==> r == Err::<Ray, WorldError>(WorldError::NumericDegeneracy),
            r is Ok ==> r->Ok_0.orig == *orig && r->Ok_0.dir == crate::vec3::spec_normalize(
                Vec3 { x: (-orig.x) as i64, y: (-orig.y) as i64, z: (-orig.z) as i64 },
            ) && bounded(r->Ok_0.dir, crate::fixed::SCALE as int),
    {
        let neg = orig.neg();
        proof {
            assert(crate::vec3::spec_norm2(neg) == crate::vec3::spec_norm2(*orig))
                by (nonlinear_arith)
                requires
                    neg.x == -orig.x && neg.y == -orig.y && neg.z == -orig.z,
            ;
        }
        match neg.normalize() {
            Ok(dir) => Ok(Ray { orig: *orig, dir }),
            Err(_) => Err(WorldError::NumericDegeneracy),
        }
    }

    /// The rounded intersection parameter of this ray with the triangle
    /// `v1 v2 v3`, or `None` when the supporting plane is missed or the
    /// intersection point lies below one of the three edge planes built
    /// from the ray origin.
    pub fn intersection_dist(&self, v1: &Vec3, v2: &Vec3, v3: &Vec3) -> (r: Option<i64>)
        requires
            bounded(self.orig, RAY_COORD_LIMIT as int),
            bounded(self.dir, RAY_COORD_LIMIT as int),
            bounded(*v1, RAY_COORD_LIMIT as int),
            bounded(*v2, RAY_COORD_LIMIT as int),
            bounded(*v3, RAY_COORD_LIMIT as int),
        ensures
            r is Some <==> spec_hit(*self, *v1, *v2, *v3) is Some,
            r is Some ==> r->Some_0 == spec_hit(*self, *v1, *v2, *v3)->Some_0,
    {
        let plane = Plane::from_points(v1, v2, v3);
        let hit = plane.intersection_point(self);
        match hit {
            None => None,
            Some((point, dist)) => {
                let p1 = Plane::from_points(&self.orig, v2, v1);
                let p2 = Plane::from_points(&self.orig, v3, v2);
                let p3 = Plane::from_points(&self.orig, v1, v3);
                let s1 = p1.get_plane_side(&point);
                let s2 = p2.get_plane_side(&point);
                let s3 = p3.get_plane_side(&point);
                if s1 != PlaneSide::Below && s2 != PlaneSide::Below && s3 != PlaneSide::Below {
                    Some(dist)
                } else {
                    None
                }
            },
        }
    }
}

/// The id of the nearest face the ray intersects, breaking ties toward the
/// lowest face id; `None` when the ray hits no face at all.
pub fn intersecting_triangle_id(poly: &Polyhedron, ray: &Ray) -> (r: Option<usize>)
    requires
        wf(*poly),
        coords_bounded(*poly, RAY_COORD_LIMIT as int),
        bounded(ray.orig, RAY_COORD_LIMIT as int),
        bounded(ray.dir, RAY_COORD_LIMIT as int),
    ensures
        r is None ==> forall|i: int|
            0 <= i < poly.faces@.len() ==> #[trigger] spec_face_hit(*poly, *ray, i) is None,
        r is Some ==> {
            let i = r->Some_0 as int;
            &&& i < poly.faces@.len()
            &&& spec_face_hit(*poly, *ray, i) is Some
            &&& forall|j: int|
                0 <= j < poly.faces@.len() && #[trigger] spec_face_hit(*poly, *ray, j) is Some
                    ==> spec_face_hit(*poly, *ray, i)->Some_0 <= spec_face_hit(
                    *poly,
                    *ray,
                    j,
                )->Some_0
            &&& forall|j: int|
                0 <= j < i && #[trigger] spec_face_hit(*poly, *ray, j) is Some ==> spec_face_hit(
                    *poly,
                    *ray,
                    i,
                )->Some_0 < spec_face_hit(*poly, *ray, j)->Some_0
        },
{
    let nf = poly.faces.len();
    let mut nearest_idx: usize = 0;
    let mut nearest_dist: i64 = 0;
    let mut found = false;
    let mut i: usize = 0;
    while i < nf
        invariant
            wf(*poly),
            coords_bounded(*poly, RAY_COORD_LIMIT as int),
            bounded(ray.orig, RAY_COORD_LIMIT as int),
            bounded(ray.dir, RAY_COORD_LIMIT as int),
            nf == poly.faces@.len(),
            i <= nf,
            !found ==> forall|j: int|
                0 <= j < i ==> #[trigger] spec_face_hit(*poly, *ray, j) is None,
            found ==> {
                &&& nearest_idx < i
                &&& spec_face_hit(*poly, *ray, nearest_idx as int) is Some
                &&& nearest_dist == spec_face_hit(*poly, *ray, nearest_idx as int)->Some_0
                &&& forall|j: int|
                    0 <= j < i && #[trigger] spec_face_hit(*poly, *ray, j) is Some
                        ==> nearest_dist <= spec_face_hit(*poly, *ray, j)->Some_0
                &&& forall|j: int|
                    0 <= j < nearest_idx && #[trigger] spec_face_hit(*poly, *ray, j) is Some
                        ==> nearest_dist < spec_face_hit(*poly, *ray, j)->Some_0
            },
        decreases nf - i,
    {
        let i1 = poly.faces[i].vertex_indices[0];
        let i2 = poly.faces[i].vertex_indices[1];
        let i3 = poly.faces[i].vertex_indices[2];
        let dist = ray.intersection_dist(
            &poly.vertices[i1].pos,
            &poly.vertices[i2].pos,
            &poly.vertices[i3].pos,
        );
        match dist {
            Some(d) => {
                if !found || nearest_dist > d {
                    nearest_idx = i;
                    nearest_dist = d;
                    found = true;
                }
            },
            None => {
            },
        }
        i += 1;
    }
    if found {
        Some(nearest_idx)
    } else {
        None
    }
}

} // verus!
