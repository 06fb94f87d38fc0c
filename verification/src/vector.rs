//! Geometry data model and the orientation engine.
//!
//! `Vector3` holds fixed-point camera/world coordinates. `get_quaternion`
//! builds an orthonormal rotation basis from yaw and pitch: a yaw-only
//! basis around the vertical axis is combined with a pitch-only basis
//! around the horizontal axis by expressing each pitch-basis vector in
//! the yaw frame, so the net effect is pitch first, then yaw.
//! `Model::apply_transform` derives a fresh transformed triangle list
//! from the immutable source geometry each time it is called; the stored
//! triangles are never mutated.

use vstd::prelude::*;
use crate::RGBA;
use crate::fixed::{SCALE, iabs, tdiv, fxm, fx_mul, lemma_iabs_mul, lemma_tdiv_mag};
use crate::trig::{spec_sin_fx, spec_cos_fx, sin_fx, cos_fx, TRIG_BOUND};

verus! {

/// Largest magnitude allowed for an input coordinate of a model:
/// position, and every vertex component.
pub const WORLD_MAX: i64 = 0x100_0000_0000;

/// Largest magnitude of a component of a basis vector built by
/// `get_quaternion`.
pub const BASIS_MAX: i64 = 0x10_0000;

/// Largest magnitude of a coordinate after rotation.
pub const ROTATED_MAX: i64 = 0x3000_0000_0003;

/// Largest magnitude of a coordinate of a transformed triangle
/// (rotation plus translation); the rasterizer accepts these.
pub const TRI_MAX: i64 = 0x4000_0000_0000;

/// A point or direction in 3D space, in fixed-point coordinates.
#[derive(Clone, Copy, PartialEq, Eq, Structural, Debug)]
pub struct Vector3 {
    pub x: i64,
    pub y: i64,
    pub z: i64,
}

/// The mathematical value of a vector: its components as integers.
pub open spec fn v3(v: Vector3) -> (int, int, int) {
    (v.x as int, v.y as int, v.z as int)
}

/// Every component is at most `b` in magnitude.
pub open spec fn t3_bounded(t: (int, int, int), b: int) -> bool {
    iabs(t.0) <= b && iabs(t.1) <= b && iabs(t.2) <= b
}

/// Change of basis: `v.0 * i + v.1 * j + v.2 * k` in fixed-point.
pub open spec fn rot(
    v: (int, int, int),
    i: (int, int, int),
    j: (int, int, int),
    k: (int, int, int),
) -> (int, int, int) {
    (
        fxm(i.0, v.0) + fxm(j.0, v.1) + fxm(k.0, v.2),
        fxm(i.1, v.0) + fxm(j.1, v.1) + fxm(k.1, v.2),
        fxm(i.2, v.0) + fxm(j.2, v.1) + fxm(k.2, v.2),
    )
}

/// Componentwise sum.
pub open spec fn add3(a: (int, int, int), b: (int, int, int)) -> (int, int, int) {
    (a.0 + b.0, a.1 + b.1, a.2 + b.2)
}

/// A fixed-point product is within `(ab * bb) / SCALE + 1` once its
/// factors are within `ab` and `bb`.
pub proof fn lemma_fxm_bound(a: int, b: int, ab: int, bb: int)
    requires
        iabs(a) <= ab,
        iabs(b) <= bb,
        0 <= ab,
        0 <= bb,
    ensures
        iabs(fxm(a, b)) <= (ab * bb) / 65536 + 1,
{
    lemma_iabs_mul(a, b);
    vstd::arithmetic::mul::lemma_mul_upper_bound(iabs(a), ab, iabs(b), bb);
    let q = (ab * bb) / 65536;
    vstd::arithmetic::div_mod::lemma_fundamental_div_mod(ab * bb, 65536);
    vstd::arithmetic::div_mod::lemma_div_pos_is_pos(ab * bb, 65536);
    assert((q + 1) * 65536 == q * 65536 + 65536) by {
        vstd::arithmetic::mul::lemma_mul_is_distributive_add_other_way(65536, q, 1);
    }
    lemma_tdiv_mag(a * b, 65536, q + 1);
}

/// Every component of a rotated vector is within
/// `3 * ((vb * bb) / SCALE) + 3` once the vector is within `vb` and the
/// basis within `bb`.
pub proof fn lemma_rot_bound(
    v: (int, int, int),
    i: (int, int, int),
    j: (int, int, int),
    k: (int, int, int),
    vb: int,
    bb: int,
)
    requires
        t3_bounded(v, vb),
        t3_bounded(i, bb),
        t3_bounded(j, bb),
        t3_bounded(k, bb),
        0 <= vb,
        0 <= bb,
    ensures
        t3_bounded(rot(v, i, j, k), 3 * ((vb * bb) / 65536) + 3),
{
    lemma_fxm_bound(i.0, v.0, bb, vb);
    lemma_fxm_bound(j.0, v.1, bb, vb);
    lemma_fxm_bound(k.0, v.2, bb, vb);
    lemma_fxm_bound(i.1, v.0, bb, vb);
    lemma_fxm_bound(j.1, v.1, bb, vb);
    lemma_fxm_bound(k.1, v.2, bb, vb);
    lemma_fxm_bound(i.2, v.0, bb, vb);
    lemma_fxm_bound(j.2, v.1, bb, vb);
    lemma_fxm_bound(k.2, v.2, bb, vb);
    vstd::arithmetic::mul::lemma_mul_is_commutative(vb, bb);
}

impl Vector3 {
    /// Express this vector in the basis `(i, j, k)`.
    pub fn transform(&self, i: &Vector3, j: &Vector3, k: &Vector3) -> (r: Vector3)
        requires
            t3_bounded(v3(*self), WORLD_MAX as int),
            t3_bounded(v3(*i), BASIS_MAX as int),
            t3_bounded(v3(*j), BASIS_MAX as int),
            t3_bounded(v3(*k), BASIS_MAX as int),
        ensures
            v3(r) == rot(v3(*self), v3(*i), v3(*j), v3(*k)),
            t3_bounded(v3(r), ROTATED_MAX as int),
    {
        proof {
            lemma_rot_bound(v3(*self), v3(*i), v3(*j), v3(*k), WORLD_MAX as int, BASIS_MAX as int);
            lemma_mul_requirements(v3(*self), v3(*i), v3(*j), v3(*k));
            lemma_fxm_bound(i.x as int, self.x as int, BASIS_MAX as int, WORLD_MAX as int);
            lemma_fxm_bound(j.x as int, self.y as int, BASIS_MAX as int, WORLD_MAX as int);
            lemma_fxm_bound(k.x as int, self.z as int, BASIS_MAX as int, WORLD_MAX as int);
            lemma_fxm_bound(i.y as int, self.x as int, BASIS_MAX as int, WORLD_MAX as int);
            lemma_fxm_bound(j.y as int, self.y as int, BASIS_MAX as int, WORLD_MAX as int);
            lemma_fxm_bound(k.y as int, self.z as int, BASIS_MAX as int, WORLD_MAX as int);
            lemma_fxm_bound(i.z as int, self.x as int, BASIS_MAX as int, WORLD_MAX as int);
            lemma_fxm_bound(j.z as int, self.y as int, BASIS_MAX as int, WORLD_MAX as int);
            lemma_fxm_bound(k.z as int, self.z as int, BASIS_MAX as int, WORLD_MAX as int);
        }
        let x = fx_mul(i.x, self.x) + fx_mul(j.x, self.y) + fx_mul(k.x, self.z);
        let y = fx_mul(i.y, self.x) + fx_mul(j.y, self.y) + fx_mul(k.y, self.z);
        let z = fx_mul(i.z, self.x) + fx_mul(j.z, self.y) + fx_mul(k.z, self.z);
        Vector3 { x, y, z }
    }

    /// Componentwise sum.
    pub fn add(self, other: Vector3) -> (r: Vector3)
        requires
            iabs(self.x + other.x) <= i64::MAX as int,
            iabs(self.y + other.y) <= i64::MAX as int,
            iabs(self.z + other.z) <= i64::MAX as int,
        ensures
            v3(r) == add3(v3(self), v3(other)),
    {
        Vector3 { x: self.x + other.x, y: self.y + other.y, z: self.z + other.z }
    }

    /// Fixed-point scaling of every component.
    pub fn mul(self, other: i64) -> (r: Vector3)
        requires
            iabs(self.x as int) * iabs(other as int) <= 0x7fff_ffff_ffff_ffff * 0x10000,
            iabs(self.y as int) * iabs(other as int) <= 0x7fff_ffff_ffff_ffff * 0x10000,
            iabs(self.z as int) * iabs(other as int) <= 0x7fff_ffff_ffff_ffff * 0x10000,
        ensures
            v3(r) == (fxm(self.x as int, other as int), fxm(self.y as int, other as int),
            fxm(self.z as int, other as int)),
    {
        Vector3 { x: fx_mul(self.x, other), y: fx_mul(self.y, other), z: fx_mul(self.z, other) }
    }
}

/// The nine fixed-point products of a change of basis stay within the
/// range that `fx_mul` accepts.
proof fn lemma_mul_requirements(
    v: (int, int, int),
    i: (int, int, int),
    j: (int, int, int),
    k: (int, int, int),
)
    requires
        t3_bounded(v, WORLD_MAX as int),
        t3_bounded(i, BASIS_MAX as int),
        t3_bounded(j, BASIS_MAX as int),
        t3_bounded(k, BASIS_MAX as int),
    ensures
        iabs(i.0) * iabs(v.0) <= 0x7fff_ffff_ffff_ffff * 0x10000,
        iabs(j.0) * iabs(v.1) <= 0x7fff_ffff_ffff_ffff * 0x10000,
        iabs(k.0) * iabs(v.2) <= 0x7fff_ffff_ffff_ffff * 0x10000,
        iabs(i.1) * iabs(v.0) <= 0x7fff_ffff_ffff_ffff * 0x10000,
        iabs(j.1) * iabs(v.1) <= 0x7fff_ffff_ffff_ffff * 0x10000,
        iabs(k.1) * iabs(v.2) <= 0x7fff_ffff_ffff_ffff * 0x10000,
        iabs(i.2) * iabs(v.0) <= 0x7fff_ffff_ffff_ffff * 0x10000,
        iabs(j.2) * iabs(v.1) <= 0x7fff_ffff_ffff_ffff * 0x10000,
        iabs(k.2) * iabs(v.2) <= 0x7fff_ffff_ffff_ffff * 0x10000,
{
    vstd::arithmetic::mul::lemma_mul_upper_bound(iabs(i.0), BASIS_MAX as int, iabs(v.0), WORLD_MAX as int);
    vstd::arithmetic::mul::lemma_mul_upper_bound(iabs(j.0), BASIS_MAX as int, iabs(v.1), WORLD_MAX as int);
    vstd::arithmetic::mul::lemma_mul_upper_bound(iabs(k.0), BASIS_MAX as int, iabs(v.2), WORLD_MAX as int);
    vstd::arithmetic::mul::lemma_mul_upper_bound(iabs(i.1), BASIS_MAX as int, iabs(v.0), WORLD_MAX as int);
    vstd::arithmetic::mul::lemma_mul_upper_bound(iabs(j.1), BASIS_MAX as int, iabs(v.1), WORLD_MAX as int);
    vstd::arithmetic::mul::lemma_mul_upper_bound(iabs(k.1), BASIS_MAX as int, iabs(v.2), WORLD_MAX as int);
    vstd::arithmetic::mul::lemma_mul_upper_bound(iabs(i.2), BASIS_MAX as int, iabs(v.0), WORLD_MAX as int);
    vstd::arithmetic::mul::lemma_mul_upper_bound(iabs(j.2), BASIS_MAX as int, iabs(v.1), WORLD_MAX as int);
    vstd::arithmetic::mul::lemma_mul_upper_bound(iabs(k.2), BASIS_MAX as int, iabs(v.2), WORLD_MAX as int);
}

/// A 2D screen point: integer pixel coordinates.
#[derive(Clone, Copy, PartialEq, Eq, Structural, Debug)]
pub struct Vector2 {
    pub x: i32,
    pub y: i32,
}

impl Vector2 {
    /// Dot product of two screen vectors.
    pub fn dot(&self, b: &Vector2) -> (r: i32)
        requires
            iabs(self.x as int * b.x as int) + iabs(self.y as int * b.y as int) <= i32::MAX as int,
        ensures
            r == self.x as int * b.x as int + self.y as int * b.y as int,
    {
        proof {
            lemma_iabs_mul(self.x as int, b.x as int);
            lemma_iabs_mul(self.y as int, b.y as int);
        }
        self.x * b.x + self.y * b.y
    }

    /// Rotate a quarter turn clockwise (on a screen whose rows grow
    /// downward).
    pub fn perpendicular_clockwise(&self) -> (r: Vector2)
        requires
            self.x > i32::MIN,
        ensures
            r.x == self.y,
            r.y == -(self.x as int),
    {
        Vector2 { x: self.y, y: -self.x }
    }

    /// Componentwise sum.
    pub fn add(self, other: Vector2) -> (r: Vector2)
        requires
            iabs(self.x + other.x) <= i32::MAX as int,
            iabs(self.y + other.y) <= i32::MAX as int,
        ensures
            r.x == self.x + other.x,
            r.y == self.y + other.y,
    {
        Vector2 { x: self.x + other.x, y: self.y + other.y }
    }

    /// Componentwise difference.
    pub fn sub(&self, other: &Vector2) -> (r: Vector2)
        requires
            iabs(self.x - other.x) <= i32::MAX as int,
            iabs(self.y - other.y) <= i32::MAX as int,
        ensures
            r.x == self.x - other.x,
            r.y == self.y - other.y,
    {
        Vector2 { x: self.x - other.x, y: self.y - other.y }
    }
}

/// A face: exactly three vertices.
#[derive(Clone, Copy, PartialEq, Eq, Structural, Debug)]
pub struct Triangle3 {
    pub a: Vector3,
    pub b: Vector3,
    pub c: Vector3,
}

/// The mathematical value of a triangle: its three vertices.
pub open spec fn tri3(t: Triangle3) -> ((int, int, int), (int, int, int), (int, int, int)) {
    (v3(t.a), v3(t.b), v3(t.c))
}

/// All three vertices bounded by `b`.
pub open spec fn tri_bounded(t: Triangle3, b: int) -> bool {
    t3_bounded(v3(t.a), b) && t3_bounded(v3(t.b), b) && t3_bounded(v3(t.c), b)
}

/// The atomic drawable unit: a face with one flat color.
#[derive(Clone, Copy, PartialEq, Eq, Structural, Debug)]
pub struct ColoredTriangle {
    pub triangle: Triangle3,
    pub color: RGBA,
}

/// One rigid-body transform: a translation plus yaw (`direction.x`) and
/// pitch (`direction.y`) in fixed-point radians.
pub struct Transform {
    pub position: Vector3,
    pub direction: Vector3,
}

/// A flat list of colored triangles with one rigid transform.
pub struct Model {
    pub triangles: Vec<ColoredTriangle>,
    pub transform: Transform,
}

/// Inputs a model must satisfy before a frame can be derived from it:
/// coordinates within `WORLD_MAX`, and angles that can be negated.
pub open spec fn model_wf(m: Model) -> bool {
    &&& forall|n: int|
        0 <= n < m.triangles@.len() ==> tri_bounded(
            (#[trigger] m.triangles@[n]).triangle,
            WORLD_MAX as int,
        )
    &&& t3_bounded(v3(m.transform.position), WORLD_MAX as int)
    &&& m.transform.direction.x != i64::MIN
    &&& m.transform.direction.y != i64::MIN
}

/// The rotation basis for the given yaw and pitch: each pitch-basis
/// vector expressed in the yaw-basis frame.
pub open spec fn spec_basis(yaw: int, pitch: int) -> (
    (int, int, int),
    (int, int, int),
    (int, int, int),
) {
    let cy = spec_cos_fx(yaw);
    let sy = spec_sin_fx(yaw);
    let cp = spec_cos_fx(pitch);
    let sp = spec_sin_fx(pitch);
    let iy = (cy, 0int, sy);
    let jy = (0int, SCALE as int, 0int);
    let ky = (-sy, 0int, cy);
    (
        rot((SCALE as int, 0int, 0int), iy, jy, ky),
        rot((0int, cp, -sp), iy, jy, ky),
        rot((0int, sp, cp), iy, jy, ky),
    )
}

/// Build the rotated coordinate frame for the given yaw and pitch.
pub fn get_quaternion(yaw: i64, pitch: i64) -> (r: (Vector3, Vector3, Vector3))
    requires
        yaw != i64::MIN,
        pitch != i64::MIN,
    ensures
        (v3(r.0), v3(r.1), v3(r.2)) == spec_basis(yaw as int, pitch as int),
        t3_bounded(v3(r.0), BASIS_MAX as int),
        t3_bounded(v3(r.1), BASIS_MAX as int),
        t3_bounded(v3(r.2), BASIS_MAX as int),
{
    let cy = cos_fx(yaw);
    let sy = sin_fx(yaw);
    let cp = cos_fx(pitch);
    let sp = sin_fx(pitch);
    let i_yaw = Vector3 { x: cy, y: 0, z: sy };
    let j_yaw = Vector3 { x: 0, y: SCALE, z: 0 };
    let k_yaw = Vector3 { x: -sy, y: 0, z: cy };
    let i_pitch = Vector3 { x: SCALE, y: 0, z: 0 };
    let j_pitch = Vector3 { x: 0, y: cp, z: -sp };
    let k_pitch = Vector3 { x: 0, y: sp, z: cp };
    proof {
        lemma_basis_rot_bounds(v3(i_pitch), v3(i_yaw), v3(j_yaw), v3(k_yaw));
        lemma_basis_rot_bounds(v3(j_pitch), v3(i_yaw), v3(j_yaw), v3(k_yaw));
        lemma_basis_rot_bounds(v3(k_pitch), v3(i_yaw), v3(j_yaw), v3(k_yaw));
    }
    let i = i_pitch.transform(&i_yaw, &j_yaw, &k_yaw);
    let j = j_pitch.transform(&i_yaw, &j_yaw, &k_yaw);
    let k = k_pitch.transform(&i_yaw, &j_yaw, &k_yaw);
    (i, j, k)
}

/// Rotating one trig-bounded vector by a trig-bounded basis stays
/// within `BASIS_MAX`.
proof fn lemma_basis_rot_bounds(
    v: (int, int, int),
    i: (int, int, int),
    j: (int, int, int),
    k: (int, int, int),
)
    requires
        t3_bounded(v, TRIG_BOUND as int),
        t3_bounded(i, TRIG_BOUND as int),
        t3_bounded(j, TRIG_BOUND as int),
        t3_bounded(k, TRIG_BOUND as int),
    ensures
        t3_bounded(rot(v, i, j, k), BASIS_MAX as int),
{
    lemma_rot_bound(v, i, j, k, TRIG_BOUND as int, TRIG_BOUND as int);
}

/// Rotate a model vertex and translate it by the model position.
fn place_vertex(v: &Vector3, i: &Vector3, j: &Vector3, k: &Vector3, p: &Vector3) -> (r: Vector3)
    requires
        t3_bounded(v3(*v), WORLD_MAX as int),
        t3_bounded(v3(*i), BASIS_MAX as int),
        t3_bounded(v3(*j), BASIS_MAX as int),
        t3_bounded(v3(*k), BASIS_MAX as int),
        t3_bounded(v3(*p), WORLD_MAX as int),
    ensures
        v3(r) == add3(rot(v3(*v), v3(*i), v3(*j), v3(*k)), v3(*p)),
        t3_bounded(v3(r), TRI_MAX as int),
{
    let w = v.transform(i, j, k);
    w.add(*p)
}

/// Where the vertices of a triangle land under the current basis and
/// translation.
pub open spec fn spec_place_tri(
    t: Triangle3,
    i: (int, int, int),
    j: (int, int, int),
    k: (int, int, int),
    p: (int, int, int),
) -> ((int, int, int), (int, int, int), (int, int, int)) {
    (
        add3(rot(v3(t.a), i, j, k), p),
        add3(rot(v3(t.b), i, j, k), p),
        add3(rot(v3(t.c), i, j, k), p),
    )
}

impl Model {
    /// Derive the transformed triangle list for the current transform:
    /// every vertex of every stored triangle is rotated by the basis of
    /// the current yaw and pitch and translated by the position. The
    /// stored geometry is left untouched.
    pub fn apply_transform(&self) -> (out: Vec<ColoredTriangle>)
        requires
            model_wf(*self),
        ensures
            out@.len() == self.triangles@.len(),
            forall|n: int|
                0 <= n < out@.len() ==> {
                    let b = spec_basis(
                        self.transform.direction.x as int,
                        self.transform.direction.y as int,
                    );
                    &&& (#[trigger] out@[n]).color == self.triangles@[n].color
                    &&& tri3(out@[n].triangle) == spec_place_tri(
                        self.triangles@[n].triangle,
                        b.0,
                        b.1,
                        b.2,
                        v3(self.transform.position),
                    )
                    &&& tri_bounded(out@[n].triangle, TRI_MAX as int)
                },
    {
        let (i, j, k) = get_quaternion(self.transform.direction.x, self.transform.direction.y);
        let mut out: Vec<ColoredTriangle> = Vec::new();
        let mut n: usize = 0;
        while n < self.triangles.len()
            invariant
                model_wf(*self),
                n <= self.triangles@.len(),
                out@.len() == n as int,
                (v3(i), v3(j), v3(k)) == spec_basis(
                    self.transform.direction.x as int,
                    self.transform.direction.y as int,
                ),
                t3_bounded(v3(i), BASIS_MAX as int),
                t3_bounded(v3(j), BASIS_MAX as int),
                t3_bounded(v3(k), BASIS_MAX as int),
                forall|m: int|
                    0 <= m < n as int ==> {
                        let b = spec_basis(
                            self.transform.direction.x as int,
                            self.transform.direction.y as int,
                        );
                        &&& (#[trigger] out@[m]).color == self.triangles@[m].color
                        &&& tri3(out@[m].triangle) == spec_place_tri(
                            self.triangles@[m].triangle,
                            b.0,
                            b.1,
                            b.2,
                            v3(self.transform.position),
                        )
                        &&& tri_bounded(out@[m].triangle, TRI_MAX as int)
                    },
            decreases self.triangles@.len() - n as int,
        {
            let t = &self.triangles[n];
            let placed = ColoredTriangle {
                triangle: Triangle3 {
                    a: place_vertex(&t.triangle.a, &i, &j, &k, &self.transform.position),
                    b: place_vertex(&t.triangle.b, &i, &j, &k, &self.transform.position),
                    c: place_vertex(&t.triangle.c, &i, &j, &k, &self.transform.position),
                },
                color: t.color,
            };
            out.push(placed);
            n = n + 1;
        }
        out
    }
}

impl From<Vec<ColoredTriangle>> for Model {
    /// A model over the given triangles with the identity transform.
    fn from(triangles: Vec<ColoredTriangle>) -> (m: Model) {
        Model {
            triangles,
            transform: Transform {
                position: Vector3 { x: 0, y: 0, z: 0 },
                direction: Vector3 { x: 0, y: 0, z: 0 },
            },
        }
    }
}

impl vstd::std_specs::convert::FromSpecImpl<Vec<ColoredTriangle>> for Model {
    open spec fn obeys_from_spec() -> bool {
        true
    }

    open spec fn from_spec(triangles: Vec<ColoredTriangle>) -> Model {
        Model {
            triangles,
            transform: Transform {
                position: Vector3 { x: 0, y: 0, z: 0 },
                direction: Vector3 { x: 0, y: 0, z: 0 },
            },
        }
    }
}

/// A fixed-point product by zero is zero, and by one whole unit is the
/// other factor unchanged.
pub proof fn lemma_fxm_unit(a: int)
    ensures
        fxm(a, 0) == 0,
        fxm(0, a) == 0,
        fxm(a, SCALE as int) == a,
        fxm(SCALE as int, a) == a,
{
    vstd::arithmetic::div_mod::lemma_div_of0(65536);
    vstd::arithmetic::mul::lemma_mul_by_zero_is_zero(a);
    vstd::arithmetic::div_mod::lemma_div_multiples_vanish(a, 65536);
    vstd::arithmetic::div_mod::lemma_div_multiples_vanish(-a, 65536);
    assert(a * 65536 == 65536 * a) by {
        vstd::arithmetic::mul::lemma_mul_is_commutative(a, 65536);
    }
    if a >= 0 {
        assert(tdiv(a * 65536, 65536) == a);
    } else {
        assert(iabs(a * 65536) == -(a * 65536)) by {
            vstd::arithmetic::mul::lemma_mul_strict_inequality(a, 0, 65536);
        }
        assert(-(a * 65536) == 65536 * (-a)) by {
            vstd::arithmetic::mul::lemma_mul_unary_negation(65536, a);
            vstd::arithmetic::mul::lemma_mul_is_commutative(a, 65536);
        }
        assert(tdiv(a * 65536, 65536) == a);
    }
}

/// The basis of yaw 0 and pitch 0 is the identity basis, and applying
/// the identity basis to any vector returns that vector unchanged.
pub proof fn lemma_identity_basis(v: (int, int, int))
    ensures
        spec_basis(0, 0) == (
            (SCALE as int, 0int, 0int),
            (0int, SCALE as int, 0int),
            (0int, 0int, SCALE as int),
        ),
        rot(
            v,
            (SCALE as int, 0int, 0int),
            (0int, SCALE as int, 0int),
            (0int, 0int, SCALE as int),
        ) == v,
{
    crate::trig::lemma_trig_zero();
    lemma_fxm_unit(0);
    lemma_fxm_unit(SCALE as int);
    lemma_fxm_unit(v.0);
    lemma_fxm_unit(v.1);
    lemma_fxm_unit(v.2);
}

} // verus!
