//! Fixed-point 3-vectors.
//!
//! Components are fixed-point scalars (see [`crate::fixed`]); a vector of
//! length one has norm [`SCALE`].  Dot products, cross products and plane
//! offsets are computed exactly in `i128`; only normalization and rotation
//! round, through explicit truncating division.

use vstd::prelude::*;

use crate::WorldError;
use crate::fixed::{SCALE, isqrt, spec_tdiv, tdiv128};

verus! {

/// A point or direction, in fixed-point coordinates.
#[derive(Clone, Copy, Debug, PartialEq, Eq, Structural)]
pub struct Vec3 {
    pub x: i64,
    pub y: i64,
    pub z: i64,
}

/// Every component lies in [-b, b].
pub open spec fn bounded(v: Vec3, b: int) -> bool {
    &&& -b <= v.x <= b
    &&& -b <= v.y <= b
    &&& -b <= v.z <= b
}

/// Mathematical dot product of the raw components.
pub open spec fn spec_dot(a: Vec3, b: Vec3) -> int {
    a.x * b.x + a.y * b.y + a.z * b.z
}

/// Mathematical squared norm of the raw components.
pub open spec fn spec_norm2(a: Vec3) -> int {
    spec_dot(a, a)
}

/// Mathematical cross product of the raw components.
pub open spec fn spec_cross(a: Vec3, b: Vec3) -> (int, int, int) {
    (a.y * b.z - a.z * b.y, a.z * b.x - a.x * b.z, a.x * b.y - a.y * b.x)
}

/// The normalization of a vector onto the unit sphere, as a mathematical
/// function: each component scaled by `SCALE` over the rounded-down norm,
/// truncating.  Meaningful only for nonzero vectors.
pub open spec fn spec_normalize(v: Vec3) -> Vec3 {
    let len = spec_sqrt(spec_norm2(v) as nat) as int;
    Vec3 {
        x: spec_tdiv(v.x * SCALE, len) as i64,
        y: spec_tdiv(v.y * SCALE, len) as i64,
        z: spec_tdiv(v.z * SCALE, len) as i64,
    }
}

/// Integer square root, as a mathematical function: the largest `r` with
/// `r * r <= n`.
pub open spec fn spec_sqrt(n: nat) -> nat
    decreases n,
{
    if n == 0 {
        0
    } else {
        let r = spec_sqrt((n - 1) as nat);
        if (r + 1) * (r + 1) <= n {
            r + 1
        } else {
            r
        }
    }
}

/// The defining bracket of [`spec_sqrt`].
pub proof fn lemma_spec_sqrt(n: nat)
    ensures
        (spec_sqrt(n) as int) * (spec_sqrt(n) as int) <= n as int,
        (spec_sqrt(n) as int + 1) * (spec_sqrt(n) as int + 1) > n as int,
    decreases n,
{
    let s = spec_sqrt(n) as int;
    let ni = n as int;
    if n > 0 {
        lemma_spec_sqrt((n - 1) as nat);
        let r = spec_sqrt((n - 1) as nat) as int;
        assert(spec_sqrt(n) == if (r + 1) * (r + 1) <= n {
            (r + 1) as nat
        } else {
            r as nat
        });
        if (r + 1) * (r + 1) <= n {
            assert(s * s <= ni && (s + 1) * (s + 1) > ni) by (nonlinear_arith)
                requires
                    r >= 0 && s == r + 1 && (r + 1) * (r + 1) <= ni && (r + 1) * (r + 1) > ni - 1,
            ;
        } else {
            assert(s * s <= ni && (s + 1) * (s + 1) > ni) by (nonlinear_arith)
                requires
                    r >= 0 && s == r && r * r <= ni - 1 && !((r + 1) * (r + 1) <= ni),
            ;
        }
    } else {
        assert(s == 0);
    }
}

/// Any `r` inside the bracket is the square root.
pub proof fn lemma_sqrt_unique(n: nat, r: nat)
    requires
        (r as int) * (r as int) <= n as int,
        (r as int + 1) * (r as int + 1) > n as int,
    ensures
        r == spec_sqrt(n),
{
    lemma_spec_sqrt(n);
    let s = spec_sqrt(n) as int;
    let ri = r as int;
    if ri < s {
        assert((ri + 1) * (ri + 1) <= s * s) by (nonlinear_arith)
            requires
                ri + 1 <= s && ri >= 0,
        ;
    }
    if s < ri {
        assert((s + 1) * (s + 1) <= ri * ri) by (nonlinear_arith)
            requires
                s + 1 <= ri && s >= 0,
        ;
    }
}

/// If a square is bracketed by another square, the base is bracketed too.
proof fn lemma_abs_le_of_sq_lt(a: int, b: int)
    requires
        a * a < (b + 1) * (b + 1),
        b >= 0,
    ensures
        -b <= a <= b,
{
    assert(-b <= a <= b) by (nonlinear_arith)
        requires
            a * a < (b + 1) * (b + 1) && b >= 0,
    ;
}

/// Squares are never negative.
proof fn lemma_sq_nonneg(a: int)
    ensures
        a * a >= 0,
{
    assert(a * a >= 0) by (nonlinear_arith);
}

impl Vec3 {
    /// Build a vector from its fixed-point components.
    pub fn new(x: i64, y: i64, z: i64) -> (v: Vec3)
        ensures
            v == (Vec3 { x, y, z }),
    {
        Vec3 { x, y, z }
    }

    /// Componentwise sum.
    pub fn add(&self, o: &Vec3) -> (v: Vec3)
        requires
            bounded(*self, 0x2000_0000_0000_0000),
            bounded(*o, 0x2000_0000_0000_0000),
        ensures
            v.x == self.x + o.x,
            v.y == self.y + o.y,
            v.z == self.z + o.z,
    {
        Vec3 { x: self.x + o.x, y: self.y + o.y, z: self.z + o.z }
    }

    /// Componentwise difference.
    pub fn sub(&self, o: &Vec3) -> (v: Vec3)
        requires
            bounded(*self, 0x2000_0000_0000_0000),
            bounded(*o, 0x2000_0000_0000_0000),
        ensures
            v.x == self.x - o.x,
            v.y == self.y - o.y,
            v.z == self.z - o.z,
    {
        Vec3 { x: self.x - o.x, y: self.y - o.y, z: self.z - o.z }
    }

    /// Componentwise negation.
    pub fn neg(&self) -> (v: Vec3)
        requires
            bounded(*self, 0x2000_0000_0000_0000),
        ensures
            v.x == -self.x,
            v.y == -self.y,
            v.z == -self.z,
    {
        Vec3 { x: -self.x, y: -self.y, z: -self.z }
    }

    /// Exact dot product.
    pub fn dot(&self, o: &Vec3) -> (r: i128)
        requires
            bounded(*self, 0x4000_0000_0000_0000),
            bounded(*o, 0x4000_0000_0000_0000),
        ensures
            r == spec_dot(*self, *o),
    {
        proof {
            assert(self.x * o.x <= 0x4000_0000_0000_0000 * 0x4000_0000_0000_0000
                && self.x * o.x >= -(0x4000_0000_0000_0000 * 0x4000_0000_0000_0000)
                && self.y * o.y <= 0x4000_0000_0000_0000 * 0x4000_0000_0000_0000
                && self.y * o.y >= -(0x4000_0000_0000_0000 * 0x4000_0000_0000_0000)
                && self.z * o.z <= 0x4000_0000_0000_0000 * 0x4000_0000_0000_0000
                && self.z * o.z >= -(0x4000_0000_0000_0000 * 0x4000_0000_0000_0000))
                by (nonlinear_arith)
                requires
                    bounded(*self, 0x4000_0000_0000_0000) && bounded(*o, 0x4000_0000_0000_0000),
            ;
        }
        self.x as i128 * o.x as i128 + self.y as i128 * o.y as i128 + self.z as i128
            * o.z as i128
    }

    /// Exact squared norm; never negative.
    pub fn norm2(&self) -> (r: i128)
        requires
            bounded(*self, 0x4000_0000_0000_0000),
        ensures
            r == spec_norm2(*self),
            r >= 0,
    {
        proof {
            lemma_sq_nonneg(self.x as int);
            lemma_sq_nonneg(self.y as int);
            lemma_sq_nonneg(self.z as int);
        }
        self.dot(self)
    }

    /// Exact cross product (components must be small enough that the
    /// products fit an `i64`).
    pub fn cross(&self, o: &Vec3) -> (v: Vec3)
        requires
            bounded(*self, 0x7fff_ffff),
            bounded(*o, 0x7fff_ffff),
        ensures
            v.x == spec_cross(*self, *o).0,
            v.y == spec_cross(*self, *o).1,
            v.z == spec_cross(*self, *o).2,
    {
        proof {
            let l: int = 0x7fff_ffff;
            assert(forall|a: int, b: int|
                -l <= a <= l && -l <= b <= l ==> -(l * l) <= #[trigger] (a * b) <= l * l)
                by (nonlinear_arith);
        }
        Vec3 {
            x: self.y * o.z - self.z * o.y,
            y: self.z * o.x - self.x * o.z,
            z: self.x * o.y - self.y * o.x,
        }
    }

    /// Norm, rounded down to the nearest fixed-point step.
    pub fn length(&self) -> (r: i64)
        requires
            bounded(*self, 0x1000_0000_0000_0000),
        ensures
            r == spec_sqrt(spec_norm2(*self) as nat),
            r >= 0,
    {
        let n = self.norm2();
        proof {
            assert(n <= 3 * (0x1000_0000_0000_0000 * 0x1000_0000_0000_0000))
                by (nonlinear_arith)
                requires
                    bounded(*self, 0x1000_0000_0000_0000) && n == spec_norm2(*self),
            ;
        }
        let r = isqrt(n as u128);
        proof {
            lemma_sqrt_unique(n as nat, r as nat);
            assert(r * r <= n);
            assert(r < 0x4000_0000_0000_0000) by (nonlinear_arith)
                requires
                    r * r <= n && n < 0x4000_0000_0000_0000 * 0x4000_0000_0000_0000,
            ;
        }
        r as i64
    }

    /// Scale onto the unit sphere: each component becomes
    /// `c * SCALE / length`, rounding toward zero.  Fails with
    /// [`WorldError::NumericDegeneracy`] exactly on the zero vector.
    pub fn normalize(&self) -> (r: Result<Vec3, WorldError>)
        requires
            bounded(*self, 0x1000_0000_0000_0000),
        ensures
            r is Err <==> spec_norm2(*self) == 0,
            r is Err ==> r == Err::<Vec3, WorldError>(WorldError::NumericDegeneracy),
            r is Ok ==> {
                let len = spec_sqrt(spec_norm2(*self) as nat) as int;
                &&& r->Ok_0.x == spec_tdiv(self.x * SCALE, len)
                &&& r->Ok_0.y == spec_tdiv(self.y * SCALE, len)
                &&& r->Ok_0.z == spec_tdiv(self.z * SCALE, len)
                &&& r->Ok_0 == spec_normalize(*self)
                &&& bounded(r->Ok_0, SCALE as int)
            },
    {
        let len = self.length();
        if len == 0 {
            proof {
                let n = spec_norm2(*self);
                lemma_sq_nonneg(self.x as int);
                lemma_sq_nonneg(self.y as int);
                lemma_sq_nonneg(self.z as int);
                lemma_spec_sqrt(n as nat);
                assert(n == 0) by (nonlinear_arith)
                    requires
                        n >= 0 && spec_sqrt(n as nat) == 0 && (1int) * (1int) > n,
                ;
            }
            Err(WorldError::NumericDegeneracy)
        } else {
            proof {
                let n = spec_norm2(*self);
                lemma_sq_nonneg(self.x as int);
                lemma_sq_nonneg(self.y as int);
                lemma_sq_nonneg(self.z as int);
                lemma_spec_sqrt(n as nat);
                if n == 0 {
                    assert(spec_sqrt(0nat) == 0);
                }
            }
            let vx = self.norm_comp(self.x, len);
            let vy = self.norm_comp(self.y, len);
            let vz = self.norm_comp(self.z, len);
            Ok(Vec3 { x: vx, y: vy, z: vz })
        }
    }

    /// One component of [`Vec3::normalize`]: `c * SCALE / len`, truncated.
    fn norm_comp(&self, c: i64, len: i64) -> (r: i64)
        requires
            bounded(*self, 0x1000_0000_0000_0000),
            len > 0,
            len == spec_sqrt(spec_norm2(*self) as nat),
            c == self.x || c == self.y || c == self.z,
        ensures
            r == spec_tdiv(c * SCALE, len as int),
            -SCALE <= r <= SCALE,
    {
        proof {
            let n = spec_norm2(*self);
            lemma_sq_nonneg(self.x as int);
            lemma_sq_nonneg(self.y as int);
            lemma_sq_nonneg(self.z as int);
            lemma_spec_sqrt(n as nat);
            assert(c * c <= n);
            lemma_abs_le_of_sq_lt(c as int, len as int);
            // |c| <= len, so |c * SCALE / len| <= SCALE.
            assert(-(len * (SCALE as int)) <= c * SCALE <= len * (SCALE as int))
                by (nonlinear_arith)
                requires
                    -len <= c <= len,
            ;
            vstd::arithmetic::div_mod::lemma_div_is_ordered(
                c * SCALE,
                len * (SCALE as int),
                len as int,
            );
            vstd::arithmetic::div_mod::lemma_div_is_ordered(
                -(c * (SCALE as int)),
                len * (SCALE as int),
                len as int,
            );
            vstd::arithmetic::div_mod::lemma_div_multiples_vanish(SCALE as int, len as int);
        }
        let q = tdiv128(c as i128 * SCALE as i128, len as i128);
        q as i64
    }

    /// Axis-angle (Rodrigues) rotation of `self` about `axis`, where `s` and
    /// `c` are the fixed-point sine and cosine of the angle.  The result is
    /// the exact integer numerator of the Rodrigues formula divided by
    /// `SCALE^3`, truncating: see [`spec_rotate`].
    pub fn rotate(&self, axis: &Vec3, s: i64, c: i64) -> (r: Vec3)
        requires
            bounded(*self, 32_000_000),
            bounded(*axis, 2_000_000),
            -SCALE <= s <= SCALE,
            -SCALE <= c <= SCALE,
        ensures
            r.x == spec_rotate(*self, *axis, s as int, c as int).0,
            r.y == spec_rotate(*self, *axis, s as int, c as int).1,
            r.z == spec_rotate(*self, *axis, s as int, c as int).2,
            bounded(r, 1_000_000_000),
    {
        let d: i128 = axis.dot(self);
        let u: Vec3 = axis.cross(self);
        proof {
            crate::fixed::lemma_mul_le(axis.x as int, self.x as int, 2_000_000, 32_000_000);
            crate::fixed::lemma_mul_le(axis.y as int, self.y as int, 2_000_000, 32_000_000);
            crate::fixed::lemma_mul_le(axis.z as int, self.z as int, 2_000_000, 32_000_000);
            crate::fixed::lemma_mul_le(axis.y as int, self.z as int, 2_000_000, 32_000_000);
            crate::fixed::lemma_mul_le(axis.z as int, self.y as int, 2_000_000, 32_000_000);
            crate::fixed::lemma_mul_le(axis.z as int, self.x as int, 2_000_000, 32_000_000);
            crate::fixed::lemma_mul_le(axis.x as int, self.z as int, 2_000_000, 32_000_000);
            crate::fixed::lemma_mul_le(axis.x as int, self.y as int, 2_000_000, 32_000_000);
            crate::fixed::lemma_mul_le(axis.y as int, self.x as int, 2_000_000, 32_000_000);
        }
        let rx = self.rot_comp(axis, s, c, self.x, u.x, axis.x, d);
        let ry = self.rot_comp(axis, s, c, self.y, u.y, axis.y, d);
        let rz = self.rot_comp(axis, s, c, self.z, u.z, axis.z, d);
        Vec3 { x: rx, y: ry, z: rz }
    }

    /// One component of [`Vec3::rotate`].
    fn rot_comp(&self, axis: &Vec3, s: i64, c: i64, vc: i64, uc: i64, kc: i64, d: i128) -> (r:
        i64)
        requires
            -32_000_000 <= vc <= 32_000_000,
            -128_000_000_000_000 <= uc <= 128_000_000_000_000,
            -2_000_000 <= kc <= 2_000_000,
            -192_000_000_000_000 <= d <= 192_000_000_000_000,
            -SCALE <= s <= SCALE,
            -SCALE <= c <= SCALE,
        ensures
            r == spec_tdiv(
                c * 1_000_000 * 1_000_000 * vc + s * 1_000_000 * uc + kc * d * (1_000_000 - c),
                1_000_000_000_000_000_000,
            ),
            -1_000_000_000 <= r <= 1_000_000_000,
    {
        proof {
            crate::fixed::lemma_mul_le(
                c * 1_000_000 * 1_000_000,
                vc as int,
                1_000_000_000_000_000_000,
                32_000_000,
            );
            crate::fixed::lemma_mul_le(
                s * 1_000_000,
                uc as int,
                1_000_000_000_000,
                128_000_000_000_000,
            );
            crate::fixed::lemma_mul_le(kc as int, d as int, 2_000_000, 192_000_000_000_000);
            crate::fixed::lemma_mul_le(
                kc * d,
                1_000_000 - c,
                384_000_000_000_000_000_000,
                2_000_000,
            );
        }
        let num: i128 = c as i128 * 1_000_000 * 1_000_000 * vc as i128 + s as i128 * 1_000_000
            * uc as i128 + kc as i128 * d * (1_000_000 - c as i128);
        let q = tdiv128(num, 1_000_000_000_000_000_000);
        proof {
            crate::fixed::lemma_tdiv_bound(
                num as int,
                1_000_000_000_000_000_000,
                1_000_000_000_000_000_000_000_000_000,
            );
        }
        q as i64
    }
}

/// The exact integer numerators of the Rodrigues rotation formula, scaled by
/// `SCALE^3`: cosine term, sine-cross term, and axis-projection term.
pub open spec fn spec_rot_num(v: Vec3, k: Vec3, s: int, c: int) -> (int, int, int) {
    let d = spec_dot(k, v);
    let u = spec_cross(k, v);
    (
        c * 1_000_000 * 1_000_000 * v.x + s * 1_000_000 * u.0 + k.x * d * (1_000_000 - c),
        c * 1_000_000 * 1_000_000 * v.y + s * 1_000_000 * u.1 + k.y * d * (1_000_000 - c),
        c * 1_000_000 * 1_000_000 * v.z + s * 1_000_000 * u.2 + k.z * d * (1_000_000 - c),
    )
}

/// The rotated vector: Rodrigues numerators divided by `SCALE^3`, truncating.
pub open spec fn spec_rotate(v: Vec3, k: Vec3, s: int, c: int) -> (int, int, int) {
    let n = spec_rot_num(v, k, s, c);
    (
        spec_tdiv(n.0, 1_000_000_000_000_000_000),
        spec_tdiv(n.1, 1_000_000_000_000_000_000),
        spec_tdiv(n.2, 1_000_000_000_000_000_000),
    )
}

/// Axis-angle rotation preserves distance from the origin: for an exactly
/// unit axis and an exact sine/cosine pair, the squared norm of the exact
/// Rodrigues numerators equals the squared norm of the input, scaled by
/// `SCALE^6`.  The executable [`Vec3::rotate`] only adds the final truncating
/// division by `SCALE^3`.
pub proof fn lemma_rotation_preserves_norm(v: Vec3, k: Vec3, s: int, c: int)
    requires
        spec_norm2(k) == 1_000_000_000_000,
        s * s + c * c == 1_000_000_000_000,
    ensures
        ({
            let n = spec_rot_num(v, k, s, c);
            n.0 * n.0 + n.1 * n.1 + n.2 * n.2 == 1_000_000_000_000_000_000_000_000_000_000_000_000
                * spec_norm2(v)
        }),
{
    lemma_rodrigues_norm_gen(v, k, s, c, 1_000_000);
    let d = spec_dot(k, v);
    let u = spec_cross(k, v);
    let n = spec_rot_num(v, k, s, c);
    assert(n.0 == c * 1_000_000 * 1_000_000 * v.x + s * 1_000_000 * u.0 + k.x * d * (1_000_000
        - c));
    assert(n.1 == c * 1_000_000 * 1_000_000 * v.y + s * 1_000_000 * u.1 + k.y * d * (1_000_000
        - c));
    assert(n.2 == c * 1_000_000 * 1_000_000 * v.z + s * 1_000_000 * u.2 + k.z * d * (1_000_000
        - c));
    assert(((1_000_000int * 1_000_000 * 1_000_000) * (1_000_000int * 1_000_000 * 1_000_000))
        == 1_000_000_000_000_000_000_000_000_000_000_000_000int) by (nonlinear_arith);
}

/// The Rodrigues norm identity for an arbitrary scale `m`: proved in small
/// ring steps (square expansion, Lagrange's identity, orthogonality of the
/// cross product, and a final scalar assembly).
#[verifier::rlimit(100)]
proof fn lemma_rodrigues_norm_gen(v: Vec3, k: Vec3, s: int, c: int, m: int)
    requires
        spec_norm2(k) == m * m,
        s * s + c * c == m * m,
    ensures
        ({
            let d = spec_dot(k, v);
            let u = spec_cross(k, v);
            let n0 = c * m * m * v.x + s * m * u.0 + k.x * d * (m - c);
            let n1 = c * m * m * v.y + s * m * u.1 + k.y * d * (m - c);
            let n2 = c * m * m * v.z + s * m * u.2 + k.z * d * (m - c);
            n0 * n0 + n1 * n1 + n2 * n2 == ((m * m * m) * (m * m * m)) * spec_norm2(v)
        }),
{
    let d = spec_dot(k, v);
    let w = m - c;
    let u0 = k.y * v.z - k.z * v.y;
    let u1 = k.z * v.x - k.x * v.z;
    let u2 = k.x * v.y - k.y * v.x;
    let nv = spec_norm2(v);
    let sk = spec_norm2(k);
    let su = u0 * u0 + u1 * u1 + u2 * u2;
    let uv = v.x * u0 + v.y * u1 + v.z * u2;
    let uk = u0 * k.x + u1 * k.y + u2 * k.z;
    let dvk = v.x * k.x + v.y * k.y + v.z * k.z;
    let a0 = c * m * m * v.x;
    let a1 = c * m * m * v.y;
    let a2 = c * m * m * v.z;
    let b0 = s * m * u0;
    let b1 = s * m * u1;
    let b2 = s * m * u2;
    let e0 = k.x * d * w;
    let e1 = k.y * d * w;
    let e2 = k.z * d * w;
    let n0 = a0 + b0 + e0;
    let n1 = a1 + b1 + e1;
    let n2 = a2 + b2 + e2;
    // Squares of the three-term numerators.
    lemma_sq_of_sum3(a0, b0, e0);
    lemma_sq_of_sum3(a1, b1, e1);
    lemma_sq_of_sum3(a2, b2, e2);
    // Group each of the six sums as a scalar times a vector invariant.
    let xa = (c * m * m) * (c * m * m);
    let xb = (s * m) * (s * m);
    let xe = (d * d) * (w * w);
    let xab = (c * m * m) * (s * m);
    let xae = (c * m * m) * (d * w);
    let xbe = (s * m) * (d * w);
    lemma_sq_of_prod(c * m * m, v.x as int);
    lemma_sq_of_prod(c * m * m, v.y as int);
    lemma_sq_of_prod(c * m * m, v.z as int);
    lemma_factor3(xa, v.x as int * v.x as int, v.y as int * v.y as int, v.z as int * v.z as int);
    assert(a0 * a0 + a1 * a1 + a2 * a2 == xa * nv);
    lemma_sq_of_prod(s * m, u0);
    lemma_sq_of_prod(s * m, u1);
    lemma_sq_of_prod(s * m, u2);
    lemma_factor3(xb, u0 * u0, u1 * u1, u2 * u2);
    assert(b0 * b0 + b1 * b1 + b2 * b2 == xb * su);
    lemma_sq_of_prod(k.x as int * d, w);
    lemma_sq_of_prod(k.y as int * d, w);
    lemma_sq_of_prod(k.z as int * d, w);
    lemma_sq_of_prod(k.x as int, d);
    lemma_sq_of_prod(k.y as int, d);
    lemma_sq_of_prod(k.z as int, d);
    lemma_shuffle3(k.x as int * k.x as int, d * d, w * w);
    lemma_shuffle3(k.y as int * k.y as int, d * d, w * w);
    lemma_shuffle3(k.z as int * k.z as int, d * d, w * w);
    lemma_factor3(xe, k.x as int * k.x as int, k.y as int * k.y as int, k.z as int * k.z as int);
    assert(e0 * e0 + e1 * e1 + e2 * e2 == xe * sk);
    lemma_group_prod(c * m * m, v.x as int, s * m, u0);
    lemma_group_prod(c * m * m, v.y as int, s * m, u1);
    lemma_group_prod(c * m * m, v.z as int, s * m, u2);
    lemma_factor3(xab, v.x as int * u0, v.y as int * u1, v.z as int * u2);
    assert(a0 * b0 + a1 * b1 + a2 * b2 == xab * uv);
    lemma_shuffle3(k.x as int, d, w);
    lemma_shuffle3(k.y as int, d, w);
    lemma_shuffle3(k.z as int, d, w);
    lemma_group_prod(c * m * m, v.x as int, d * w, k.x as int);
    lemma_group_prod(c * m * m, v.y as int, d * w, k.y as int);
    lemma_group_prod(c * m * m, v.z as int, d * w, k.z as int);
    lemma_factor3(xae, v.x as int * k.x as int, v.y as int * k.y as int, v.z as int * k.z as int);
    assert(a0 * e0 + a1 * e1 + a2 * e2 == xae * dvk);
    lemma_group_prod(s * m, u0, d * w, k.x as int);
    lemma_group_prod(s * m, u1, d * w, k.y as int);
    lemma_group_prod(s * m, u2, d * w, k.z as int);
    lemma_factor3(xbe, u0 * k.x as int, u1 * k.y as int, u2 * k.z as int);
    assert(b0 * e0 + b1 * e1 + b2 * e2 == xbe * uk);
    // The projection sum is the dot product itself.
    lemma_mul_comm(v.x as int, k.x as int);
    lemma_mul_comm(v.y as int, k.y as int);
    lemma_mul_comm(v.z as int, k.z as int);
    assert(dvk == d);
    // The cross product is orthogonal to both of its factors.
    assert(uv == 0) by (nonlinear_arith)
        requires
            u0 == k.y * v.z - k.z * v.y && u1 == k.z * v.x - k.x * v.z && u2 == k.x * v.y - k.y
                * v.x && uv == v.x * u0 + v.y * u1 + v.z * u2,
    ;
    assert(uk == 0) by (nonlinear_arith)
        requires
            u0 == k.y * v.z - k.z * v.y && u1 == k.z * v.x - k.x * v.z && u2 == k.x * v.y - k.y
                * v.x && uk == u0 * k.x + u1 * k.y + u2 * k.z,
    ;
    lemma_lagrange(v, k);
    assert(su == sk * nv - d * d);
    // Everything so far: the squared norm of the numerators in grouped form.
    assert(n0 * n0 + n1 * n1 + n2 * n2 == xa * nv + xb * su + xe * sk + 2 * (xae * d));
    // Substitute Lagrange and |k|^2 == m^2, then collapse the scalars.
    lemma_distr_sub(xb, sk * nv, d * d);
    lemma_mul_assoc(xb, m * m, nv);
    assert(xb * su == (xb * (m * m)) * nv - xb * (d * d));
    lemma_distr_add(xa, xb * (m * m), nv);
    assert((c * m * m) * (c * m * m) == (c * c) * (((m * m) * (m * m)))) by (nonlinear_arith);
    assert(((s * m) * (s * m)) * (m * m) == (s * s) * (((m * m) * (m * m)))) by (nonlinear_arith);
    lemma_distr_add(c * c, s * s, (m * m) * (m * m));
    assert((m * m) * ((m * m) * (m * m)) == (m * m * m) * (m * m * m)) by (nonlinear_arith);
    assert(xa + xb * (m * m) == (m * m * m) * (m * m * m));
    assert(xa * nv + (xb * (m * m)) * nv == ((m * m * m) * (m * m * m)) * nv);
    // The leftover terms cancel: they share the factor (d * d) * (m * m).
    let big = (d * d) * (m * m);
    assert(xb * (d * d) == big * (s * s)) by (nonlinear_arith)
        requires
            xb == (s * m) * (s * m) && big == (d * d) * (m * m),
    ;
    assert(xe * (m * m) == big * (w * w)) by (nonlinear_arith)
        requires
            xe == (d * d) * (w * w) && big == (d * d) * (m * m),
    ;
    assert(xae * d == big * (c * w)) by (nonlinear_arith)
        requires
            xae == (c * m * m) * (d * w) && big == (d * d) * (m * m),
    ;
    assert(xe * sk == big * (w * w));
    lemma_combine_bracket(big, w * w, c * w, s * s);
    assert(w * w + 2 * (c * w) - s * s == 0) by (nonlinear_arith)
        requires
            w == m - c && s * s + c * c == m * m,
    ;
    assert(xe * sk + 2 * (xae * d) - xb * (d * d) == 0);
}

/// Distributivity helper: a common factor over a three-term sum.
proof fn lemma_factor3(x: int, p: int, q: int, r: int)
    ensures
        x * p + x * q + x * r == x * (p + q + r),
{
    assert(x * p + x * q + x * r == x * (p + q + r)) by (nonlinear_arith);
}

/// Commutativity of multiplication.
proof fn lemma_mul_comm(p: int, q: int)
    ensures
        p * q == q * p,
{
    assert(p * q == q * p) by (nonlinear_arith);
}

/// Associativity of multiplication.
proof fn lemma_mul_assoc(p: int, q: int, r: int)
    ensures
        p * (q * r) == (p * q) * r,
{
    assert(p * (q * r) == (p * q) * r) by (nonlinear_arith);
}

/// Regrouping a product of two pairs.
proof fn lemma_group_prod(p: int, q: int, r: int, t: int)
    ensures
        (p * q) * (r * t) == (p * r) * (q * t),
{
    assert((p * q) * (r * t) == (p * r) * (q * t)) by (nonlinear_arith);
}

/// Exchanging the inner factors of a product of two pairs.
proof fn lemma_swap_prod(p: int, q: int, r: int, t: int)
    ensures
        (p * q) * (r * t) == (p * t) * (r * q),
{
    assert((p * q) * (r * t) == (p * t) * (r * q)) by (nonlinear_arith);
}

/// Rotating a three-factor product.
proof fn lemma_shuffle3(p: int, q: int, r: int)
    ensures
        (p * q) * r == (q * r) * p,
{
    assert((p * q) * r == (q * r) * p) by (nonlinear_arith);
}

/// The square of a product is the product of the squares.
proof fn lemma_sq_of_prod(p: int, q: int)
    ensures
        (p * q) * (p * q) == (p * p) * (q * q),
{
    assert((p * q) * (p * q) == (p * p) * (q * q)) by (nonlinear_arith);
}

/// Expansion of a squared difference.
proof fn lemma_sq_of_diff(a: int, b: int)
    ensures
        (a - b) * (a - b) == a * a - 2 * (a * b) + b * b,
{
    assert((a - b) * (a - b) == a * a - 2 * (a * b) + b * b) by (nonlinear_arith);
}

/// Expansion of a squared three-term sum.
proof fn lemma_sq_of_sum3(a: int, b: int, e: int)
    ensures
        (a + b + e) * (a + b + e) == a * a + b * b + e * e + 2 * (a * b) + 2 * (a * e) + 2 * (b
            * e),
{
    assert((a + b + e) * (a + b + e) == a * a + b * b + e * e + 2 * (a * b) + 2 * (a * e) + 2 * (b
        * e)) by (nonlinear_arith);
}

/// Distributing a factor over a difference.
proof fn lemma_distr_sub(x: int, p: int, q: int)
    ensures
        x * (p - q) == x * p - x * q,
{
    assert(x * (p - q) == x * p - x * q) by (nonlinear_arith);
}

/// Distributing a common right factor over a sum.
proof fn lemma_distr_add(p: int, q: int, r: int)
    ensures
        (p + q) * r == p * r + q * r,
{
    assert((p + q) * r == p * r + q * r) by (nonlinear_arith);
}

/// Collecting three terms over a common factor.
proof fn lemma_combine_bracket(x: int, p: int, q: int, r: int)
    ensures
        x * p + 2 * (x * q) - x * r == x * (p + 2 * q - r),
{
    assert(x * p + 2 * (x * q) - x * r == x * (p + 2 * q - r)) by (nonlinear_arith);
}

/// Lagrange's identity for the cross product:
/// `|k x v|^2 == |k|^2 |v|^2 - (k . v)^2`.
proof fn lemma_lagrange(v: Vec3, k: Vec3)
    ensures
        ({
            let u = spec_cross(k, v);
            u.0 * u.0 + u.1 * u.1 + u.2 * u.2 == spec_norm2(k) * spec_norm2(v) - spec_dot(k, v)
                * spec_dot(k, v)
        }),
{
    let d = spec_dot(k, v);
    let u0 = k.y * v.z - k.z * v.y;
    let u1 = k.z * v.x - k.x * v.z;
    let u2 = k.x * v.y - k.y * v.x;
    let p1 = k.x * v.x;
    let p2 = k.y * v.y;
    let p3 = k.z * v.z;
    let kk1 = k.x * k.x;
    let kk2 = k.y * k.y;
    let kk3 = k.z * k.z;
    let vv1 = v.x * v.x;
    let vv2 = v.y * v.y;
    let vv3 = v.z * v.z;
    // The square of the dot product, over its three summands.
    lemma_sq_of_sum3(p1, p2, p3);
    // The product of the squared norms, distributed over atoms.
    assert(spec_norm2(k) * spec_norm2(v) == kk1 * vv1 + kk1 * vv2 + kk1 * vv3 + kk2 * vv1 + kk2
        * vv2 + kk2 * vv3 + kk3 * vv1 + kk3 * vv2 + kk3 * vv3) by (nonlinear_arith)
        requires
            spec_norm2(k) == kk1 + kk2 + kk3 && spec_norm2(v) == vv1 + vv2 + vv3,
    ;
    // Each cross component squared, over its two summands.
    lemma_sq_of_diff(k.y as int * v.z as int, k.z as int * v.y as int);
    lemma_sq_of_diff(k.z as int * v.x as int, k.x as int * v.z as int);
    lemma_sq_of_diff(k.x as int * v.y as int, k.y as int * v.x as int);
    // Bridge every product of mixed pairs back to norm and dot atoms.
    lemma_sq_of_prod(k.y as int, v.z as int);
    lemma_sq_of_prod(k.z as int, v.y as int);
    lemma_sq_of_prod(k.z as int, v.x as int);
    lemma_sq_of_prod(k.x as int, v.z as int);
    lemma_sq_of_prod(k.x as int, v.y as int);
    lemma_sq_of_prod(k.y as int, v.x as int);
    lemma_sq_of_prod(k.x as int, v.x as int);
    lemma_sq_of_prod(k.y as int, v.y as int);
    lemma_sq_of_prod(k.z as int, v.z as int);
    lemma_swap_prod(k.y as int, v.z as int, k.z as int, v.y as int);
    lemma_swap_prod(k.z as int, v.x as int, k.x as int, v.z as int);
    lemma_swap_prod(k.x as int, v.y as int, k.y as int, v.x as int);
    lemma_mul_comm(p3, p1);
    lemma_mul_comm(p2, p3);
    lemma_mul_comm(p1, p2);
    assert(u0 * u0 == kk2 * vv3 - 2 * (p2 * p3) + kk3 * vv2);
    assert(u1 * u1 == kk3 * vv1 - 2 * (p3 * p1) + kk1 * vv3);
    assert(u2 * u2 == kk1 * vv2 - 2 * (p1 * p2) + kk2 * vv1);
    assert(d * d == kk1 * vv1 + kk2 * vv2 + kk3 * vv3 + 2 * (p1 * p2) + 2 * (p1 * p3) + 2 * (p2
        * p3));
}

} // verus!
