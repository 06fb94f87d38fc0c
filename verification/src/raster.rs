//! Perspective projection and the edge-function rasterizer.
//!
//! A camera-space point is mapped to a screen coordinate by the
//! perspective formula of `spec_project`; the camera looks down the
//! negative z axis, and dividing by a negative z flips the sign of the
//! offsets on purpose. The rasterizer fills each triangle whose three
//! vertices are strictly in front of the camera and whose projected
//! signed area is positive, resolving visibility per pixel with a depth
//! buffer: greater camera-space z is closer and wins; equal depth does
//! not overwrite. Pixels exactly on an edge belong to a triangle only
//! when that edge is a top or left edge, so two triangles sharing an
//! edge never both claim a pixel strictly interior to it.
//!
//! The final content of every pixel is pinned down by `cell`, which
//! folds `cell_step` over the triangle list.

use vstd::prelude::*;
use crate::RGBA;
use crate::fixed::{SCALE, iabs, tdiv, fxd, fx_div, div_trunc, lemma_tdiv_mag, lemma_mag_product};
use crate::trig::{spec_sin_fx, spec_cos_fx, sin_fx, cos_fx, TRIG_BOUND};
use crate::vector::{Vector3, Vector2, Triangle3, ColoredTriangle, v3, t3_bounded, tri_bounded,
    TRI_MAX};

verus! {

/// Largest field of view accepted, in fixed-point degrees.
pub const FOV_MAX: i64 = 0x100_0000_0000;

/// Largest render width or height accepted, in pixels.
pub const DIM_MAX: usize = 16384;

/// Smaller of two integers.
pub open spec fn imin(a: int, b: int) -> int {
    if a < b {
        a
    } else {
        b
    }
}

/// Larger of two integers.
pub open spec fn imax(a: int, b: int) -> int {
    if a < b {
        b
    } else {
        a
    }
}

/// The field of view in fixed-point radians.
pub open spec fn spec_rad(fov: int) -> int {
    tdiv(fov * 205887, 11796480)
}

/// How many fixed-point world units the screen height spans: twice the
/// tangent of half the field of view, floored at one ulp so the later
/// division is defined, and capped when the half angle reaches a
/// quarter turn.
pub open spec fn spec_world_unit(fov: int) -> int {
    let half = tdiv(spec_rad(fov), 2);
    let c = spec_cos_fx(half);
    if c <= 0 {
        0x4_0000_0000
    } else {
        let t = fxd(spec_sin_fx(half), c);
        if 2 * t < 1 {
            1
        } else {
            2 * t
        }
    }
}

/// Pixels per world unit for a point at depth `pz`: the screen height
/// divided by the world unit, then divided by `pz` when the point is in
/// front of the camera. Dividing by a negative `pz` flips the sign.
pub open spec fn spec_scale(fov: int, pz: int, height: int) -> int {
    let s0 = fxd(height * (SCALE as int), spec_world_unit(fov));
    if pz < 0 {
        fxd(s0, pz)
    } else {
        s0
    }
}

/// Clamp to the machine range of a screen coordinate.
pub open spec fn spec_clamp_i32(v: int) -> int {
    if v < -0x8000_0000 {
        -0x8000_0000
    } else if v > 0x7fff_ffff {
        0x7fff_ffff
    } else {
        v
    }
}

/// Where a camera-space point lands on the screen: column, then row.
/// The row axis is inverted because screen rows grow downward.
pub open spec fn spec_project(p: (int, int, int), fov: int, height: int) -> (int, int) {
    let sc = spec_scale(fov, p.2, height);
    (
        spec_clamp_i32(height / 2 + tdiv(p.0 * sc, 0x1_0000_0000)),
        spec_clamp_i32(height / 2 - tdiv(p.1 * sc, 0x1_0000_0000)),
    )
}

/// The edge function: twice the signed area of the triangle formed by
/// the directed edge from `a` to `b` and the point `p`. Its sign says
/// on which side of the edge the point lies.
pub open spec fn spec_edge(ax: int, ay: int, bx: int, by: int, px: int, py: int) -> int {
    (px - ax) * (by - ay) - (py - ay) * (bx - ax)
}

/// Whether pixels lying exactly on the directed edge from `a` to `b`
/// belong to the triangle on its positive side: only top edges
/// (horizontal, interior below) and left edges count, so each boundary
/// pixel belongs to exactly one of two adjacent triangles.
pub open spec fn spec_edge_included(ax: int, ay: int, bx: int, by: int) -> bool {
    let ex = bx - ax;
    let ey = by - ay;
    ey > 0 || (ey == 0 && ex < 0)
}

/// One edge's inclusion test for a pixel: strictly on the positive
/// side, or exactly on a top or left edge.
pub open spec fn spec_edge_admits(ax: int, ay: int, bx: int, by: int, px: int, py: int) -> bool {
    let w = spec_edge(ax, ay, bx, by, px, py);
    w > 0 || (w == 0 && spec_edge_included(ax, ay, bx, by))
}

/// A pixel is inside a screen triangle when every edge admits it.
pub open spec fn spec_inside(
    ax: int,
    ay: int,
    bx: int,
    by: int,
    cx: int,
    cy: int,
    px: int,
    py: int,
) -> bool {
    &&& spec_edge_admits(ax, ay, bx, by, px, py)
    &&& spec_edge_admits(bx, by, cx, cy, px, py)
    &&& spec_edge_admits(cx, cy, ax, ay, px, py)
}

/// The screen-space bounding box scanned for a triangle: clamped to the
/// screen, upper bounds exclusive.
pub open spec fn spec_in_bbox(
    ax: int,
    ay: int,
    bx: int,
    by: int,
    cx: int,
    cy: int,
    w: int,
    h: int,
    px: int,
    py: int,
) -> bool {
    &&& imax(imin(imin(ax, bx), cx), 0) <= px < imin(imax(imax(ax, bx), cx), w)
    &&& imax(imin(imin(ay, by), cy), 0) <= py < imin(imax(imax(ay, by), cy), h)
}

/// Whether rasterizing triangle `t` writes pixel `(px, py)` (before the
/// depth test): all three vertices strictly in front of the camera, a
/// positive projected signed area, and a pixel of the scanned box that
/// every edge admits.
pub open spec fn tri_covered(
    t: ColoredTriangle,
    fov: int,
    w: int,
    h: int,
    px: int,
    py: int,
) -> bool {
    let a = spec_project(v3(t.triangle.a), fov, h);
    let b = spec_project(v3(t.triangle.b), fov, h);
    let c = spec_project(v3(t.triangle.c), fov, h);
    &&& t.triangle.a.z < 0
    &&& t.triangle.b.z < 0
    &&& t.triangle.c.z < 0
    &&& spec_edge(a.0, a.1, b.0, b.1, c.0, c.1) > 0
    &&& spec_in_bbox(a.0, a.1, b.0, b.1, c.0, c.1, w, h, px, py)
    &&& spec_inside(a.0, a.1, b.0, b.1, c.0, c.1, px, py)
}

/// The interpolated depth of triangle `t` at pixel `(px, py)`: the
/// edge-function sub-areas weight the three vertices' camera-space z
/// values, divided by the total doubled area.
pub open spec fn tri_depth(t: ColoredTriangle, fov: int, h: int, px: int, py: int) -> int {
    let a = spec_project(v3(t.triangle.a), fov, h);
    let b = spec_project(v3(t.triangle.b), fov, h);
    let c = spec_project(v3(t.triangle.c), fov, h);
    let wab = spec_edge(a.0, a.1, b.0, b.1, px, py);
    let wbc = spec_edge(b.0, b.1, c.0, c.1, px, py);
    let wca = spec_edge(c.0, c.1, a.0, a.1, px, py);
    let area = spec_edge(a.0, a.1, b.0, b.1, c.0, c.1);
    tdiv(wab * (t.triangle.a.z as int) + wbc * (t.triangle.b.z as int) + wca * (t.triangle.c.z
        as int), area)
}

/// How one triangle changes one pixel's color and depth: it overwrites
/// both exactly when it covers the pixel strictly closer than what is
/// already there. Equal depth does not overwrite.
pub open spec fn cell_step(
    prev: (RGBA, int),
    t: ColoredTriangle,
    fov: int,
    w: int,
    h: int,
    px: int,
    py: int,
) -> (RGBA, int) {
    if tri_covered(t, fov, w, h, px, py) && tri_depth(t, fov, h, px, py) > prev.1 {
        (t.color, tri_depth(t, fov, h, px, py))
    } else {
        prev
    }
}

/// The final color and depth of one pixel after rasterizing a triangle
/// list in order over background color `bg` and an empty depth buffer.
pub open spec fn cell(
    bg: RGBA,
    tris: Seq<ColoredTriangle>,
    fov: int,
    w: int,
    h: int,
    px: int,
    py: int,
) -> (RGBA, int)
    decreases tris.len(),
{
    if tris.len() == 0 {
        (bg, i128::MIN as int)
    } else {
        cell_step(cell(bg, tris.drop_last(), fov, w, h, px, py), tris.last(), fov, w, h, px, py)
    }
}

/// Smaller of two screen coordinates.
fn min_i32(a: i32, b: i32) -> (r: i32)
    ensures
        r as int == imin(a as int, b as int),
{
    if a < b {
        a
    } else {
        b
    }
}

/// Larger of two screen coordinates.
fn max_i32(a: i32, b: i32) -> (r: i32)
    ensures
        r as int == imax(a as int, b as int),
{
    if a < b {
        b
    } else {
        a
    }
}

/// Clamp a wide intermediate to the machine range of a screen
/// coordinate.
fn clamp_i32(v: i128) -> (r: i32)
    ensures
        r as int == spec_clamp_i32(v as int),
{
    if v < -0x8000_0000 {
        -0x8000_0000i32
    } else if v > 0x7fff_ffff {
        0x7fff_ffffi32
    } else {
        v as i32
    }
}

/// Project a camera-space point to its screen coordinate, keeping the
/// camera-space z as the retained depth.
pub fn world_to_screen(point: &Vector3, fov: i64, height: usize) -> (r: (Vector2, i64))
    requires
        0 < fov <= FOV_MAX,
        height <= DIM_MAX,
        t3_bounded(v3(*point), TRI_MAX as int),
    ensures
        (r.0.x as int, r.0.y as int) == spec_project(v3(*point), fov as int, height as int),
        r.1 == point.z,
{
    proof {
        lemma_mag_product(fov as int, 205887, FOV_MAX as int, 11796480);
    }
    let rad = div_trunc((fov as i128) * 205887, 11796480) as i64;
    proof {
        lemma_tdiv_mag((fov as int) * 205887, 11796480, FOV_MAX as int);
    }
    let half = div_trunc(rad as i128, 2) as i64;
    proof {
        lemma_tdiv_mag(rad as int, 2, FOV_MAX as int);
    }
    let c = cos_fx(half);
    let s = sin_fx(half);
    let wu: i64 = if c <= 0 {
        0x4_0000_0000
    } else {
        proof {
            lemma_mag_product(s as int, 65536, TRIG_BOUND as int, 65536);
            vstd::arithmetic::mul::lemma_mul_left_inequality(0x7fff_ffff_ffff_ffff, 1, c as int);
            vstd::arithmetic::mul::lemma_mul_left_inequality(0x2_0000_0000, 1, c as int);
        }
        let t = fx_div(s, c);
        proof {
            lemma_tdiv_mag((s as int) * 65536, c as int, 0x2_0000_0000);
        }
        let wu0 = 2 * t;
        if wu0 < 1 {
            1
        } else {
            wu0
        }
    };
    let height_fx = (height as i64) * 65536;
    proof {
        lemma_mag_product(height_fx as int, 65536, 0x4000_0000, 65536);
        vstd::arithmetic::mul::lemma_mul_left_inequality(0x7fff_ffff_ffff_ffff, 1, wu as int);
        vstd::arithmetic::mul::lemma_mul_left_inequality(0x4000_0000_0000, 1, wu as int);
    }
    let s0 = fx_div(height_fx, wu);
    proof {
        lemma_tdiv_mag((height_fx as int) * 65536, wu as int, 0x4000_0000_0000);
    }
    let sc: i64 = if point.z < 0 {
        proof {
            lemma_mag_product(s0 as int, 65536, 0x4000_0000_0000, 65536);
            vstd::arithmetic::mul::lemma_mul_left_inequality(
                0x7fff_ffff_ffff_ffff,
                1,
                iabs(point.z as int),
            );
            vstd::arithmetic::mul::lemma_mul_left_inequality(
                0x4000_0000_0000_0000,
                1,
                iabs(point.z as int),
            );
        }
        let v = fx_div(s0, point.z);
        proof {
            lemma_tdiv_mag((s0 as int) * 65536, point.z as int, 0x4000_0000_0000_0000);
        }
        v
    } else {
        s0
    };
    proof {
        lemma_mag_product(point.x as int, sc as int, TRI_MAX as int, 0x4000_0000_0000_0000);
        lemma_mag_product(point.y as int, sc as int, TRI_MAX as int, 0x4000_0000_0000_0000);
    }
    let xo = div_trunc((point.x as i128) * (sc as i128), 0x1_0000_0000);
    let yo = div_trunc((point.y as i128) * (sc as i128), 0x1_0000_0000);
    proof {
        lemma_tdiv_mag(
            (point.x as int) * (sc as int),
            0x1_0000_0000,
            0x4000_0000_0000int * 0x4000_0000_0000int,
        );
        lemma_tdiv_mag(
            (point.y as int) * (sc as int),
            0x1_0000_0000,
            0x4000_0000_0000int * 0x4000_0000_0000int,
        );
    }
    let hx = (height / 2) as i128;
    let sx = clamp_i32(hx + xo);
    let sy = clamp_i32(hx - yo);
    (Vector2 { x: sx, y: sy }, point.z)
}

/// Evaluate one edge function at a pixel, exactly.
fn edge_at(ax: i32, ay: i32, bx: i32, by: i32, px: i32, py: i32) -> (r: i128)
    ensures
        r == spec_edge(ax as int, ay as int, bx as int, by as int, px as int, py as int),
        iabs(r as int) <= 0x4_0000_0000_0000_0000_0,
{
    proof {
        lemma_mag_product(
            px as int - ax as int,
            by as int - ay as int,
            0x1_0000_0000,
            0x1_0000_0000,
        );
        lemma_mag_product(
            py as int - ay as int,
            bx as int - ax as int,
            0x1_0000_0000,
            0x1_0000_0000,
        );
    }
    (px as i128 - ax as i128) * (by as i128 - ay as i128) - (py as i128 - ay as i128) * (bx as i128
        - ax as i128)
}

/// The fill rule's answer for pixels exactly on a directed edge.
fn edge_included(ax: i32, ay: i32, bx: i32, by: i32) -> (r: bool)
    ensures
        r == spec_edge_included(ax as int, ay as int, bx as int, by as int),
{
    let ex = bx as i64 - ax as i64;
    let ey = by as i64 - ay as i64;
    ey > 0 || (ey == 0 && ex < 0)
}

/// The draw was refused before any pixel was touched.
#[derive(Clone, Copy, PartialEq, Eq, Structural, Debug)]
pub enum RenderError {
    /// The field of view was zero or negative.
    NonPositiveFov,
}

/// One pixel of the color and depth buffers holds exactly what `cell`
/// says it holds after the given triangles, over background `bg`.
pub open spec fn pixel_state(
    bg: Seq<RGBA>,
    buf: Seq<RGBA>,
    dep: Seq<i128>,
    tris: Seq<ColoredTriangle>,
    fov: int,
    w: int,
    h: int,
    px: int,
    py: int,
) -> bool {
    let cc = cell(bg[py * w + px], tris, fov, w, h, px, py);
    buf[py * w + px] == cc.0 && (dep[py * w + px] as int) == cc.1
}

/// Row-major pixel indices stay inside the buffer and are injective.
proof fn lemma_pixel_index(w: int, h: int, px: int, py: int)
    requires
        0 <= px < w,
        0 <= py < h,
    ensures
        0 <= py * w,
        py * w + px < w * h,
{
    assert(0 <= py * w && py * w + px < w * h) by (nonlinear_arith)
        requires
            0 <= px < w,
            0 <= py < h,
    ;
}

/// Two distinct pixels have distinct row-major indices.
proof fn lemma_index_injective(w: int, px: int, py: int, qx: int, qy: int)
    requires
        0 <= px < w,
        0 <= qx < w,
        !(px == qx && py == qy),
    ensures
        py * w + px != qy * w + qx,
{
    assert(py * w + px != qy * w + qx) by (nonlinear_arith)
        requires
            0 <= px < w,
            0 <= qx < w,
            !(px == qx && py == qy),
    ;
}

/// Splitting off the last of the first `i + 1` triangles.
proof fn lemma_cell_unfold(
    bg: RGBA,
    tris: Seq<ColoredTriangle>,
    i: int,
    fov: int,
    w: int,
    h: int,
    px: int,
    py: int,
)
    requires
        0 <= i < tris.len(),
    ensures
        cell(bg, tris.take(i + 1), fov, w, h, px, py) == cell_step(
            cell(bg, tris.take(i), fov, w, h, px, py),
            tris[i],
            fov,
            w,
            h,
            px,
            py,
        ),
{
    let s = tris.take(i + 1);
    assert(s.drop_last() =~= tris.take(i));
    assert(s.last() == tris[i]);
    assert(cell(bg, s, fov, w, h, px, py) == cell_step(
        cell(bg, s.drop_last(), fov, w, h, px, py),
        s.last(),
        fov,
        w,
        h,
        px,
        py,
    ));
}

/// A triangle that covers nothing at a pixel leaves that pixel's state
/// over one more list element unchanged.
proof fn lemma_pixel_skip(
    bg: Seq<RGBA>,
    buf: Seq<RGBA>,
    dep: Seq<i128>,
    tris: Seq<ColoredTriangle>,
    i: int,
    fov: int,
    w: int,
    h: int,
    px: int,
    py: int,
)
    requires
        0 <= i < tris.len(),
        pixel_state(bg, buf, dep, tris.take(i), fov, w, h, px, py),
        !tri_covered(tris[i], fov, w, h, px, py),
    ensures
        pixel_state(bg, buf, dep, tris.take(i + 1), fov, w, h, px, py),
{
    lemma_cell_unfold(bg[py * w + px], tris, i, fov, w, h, px, py);
}

/// Pixels of rows the scan has finished for the current triangle.
pub open spec fn row_scanned(
    minx: int,
    maxx: int,
    miny: int,
    maxy: int,
    y: int,
    px: int,
    py: int,
) -> bool {
    minx <= px < maxx && miny <= py < maxy && py < y
}

/// Pixels the scan has finished for the current triangle, part way
/// through row `y`.
pub open spec fn cell_scanned(
    minx: int,
    maxx: int,
    miny: int,
    maxy: int,
    y: int,
    x: int,
    px: int,
    py: int,
) -> bool {
    minx <= px < maxx && miny <= py < maxy && (py < y || (py == y && px < x))
}


/// The final color of one screen pixel after rasterizing `tris` over
/// the background frame `bg`.
pub open spec fn frame_pixel(
    bg: Seq<RGBA>,
    tris: Seq<ColoredTriangle>,
    fov: int,
    w: int,
    h: int,
    px: int,
    py: int,
) -> RGBA {
    cell(bg[py * w + px], tris, fov, w, h, px, py).0
}

/// Rasterize the triangles into the pixel buffer, resolving visibility
/// with a depth test over a fresh depth buffer. A field of view that is
/// not strictly positive aborts the draw before any pixel is touched.
/// Otherwise every screen pixel afterwards holds exactly what `cell`
/// says: the color of the closest covering triangle, or its previous
/// content where no triangle covers it.
#[verifier::rlimit(100)]
#[verifier::loop_isolation(false)]
pub fn draw_triangles(
    pixels_buffer: &mut Vec<RGBA>,
    triangles: &Vec<ColoredTriangle>,
    fov: i64,
    width: usize,
    height: usize,
) -> (r: Result<(), RenderError>)
    requires
        old(pixels_buffer)@.len() == width * height,
        width <= DIM_MAX,
        height <= DIM_MAX,
        fov <= FOV_MAX,
        forall|n: int|
            0 <= n < triangles@.len() ==> tri_bounded(
                (#[trigger] triangles@[n]).triangle,
                TRI_MAX as int,
            ),
    ensures
        final(pixels_buffer)@.len() == old(pixels_buffer)@.len(),
        fov <= 0 ==> r == Err::<(), RenderError>(RenderError::NonPositiveFov) && final(pixels_buffer)@ == old(pixels_buffer)@,
        fov > 0 ==> r == Ok::<(), RenderError>(()) && forall|px: int, py: int|
            0 <= px < width as int && 0 <= py < height as int ==> final(pixels_buffer)@[py * (
            width as int) + px] == #[trigger] frame_pixel(
                old(pixels_buffer)@,
                triangles@,
                fov as int,
                width as int,
                height as int,
                px,
                py,
            ),
{
    if fov <= 0 {
        return Err(RenderError::NonPositiveFov);
    }
    let ghost fovi: int = fov as int;
    let ghost w: int = width as int;
    let ghost h: int = height as int;
    let ghost bg: Seq<RGBA> = pixels_buffer@;
    proof {
        vstd::arithmetic::mul::lemma_mul_upper_bound(w, 16384, h, 16384);
    }
    let total: usize = width * height;
    let mut depth_buffer: Vec<i128> = Vec::new();
    while depth_buffer.len() < total
        invariant
            depth_buffer@.len() <= total,
            forall|i: int| 0 <= i < depth_buffer@.len() ==> depth_buffer@[i] == i128::MIN,
        decreases total - depth_buffer@.len(),
    {
        depth_buffer.push(i128::MIN);
    }
    proof {
        assert(triangles@.take(0) =~= Seq::<ColoredTriangle>::empty());
        assert forall|px: int, py: int|
            #![trigger pixel_state(bg, pixels_buffer@, depth_buffer@, triangles@.take(0), fovi, w, h, px, py)]
            0 <= px < w && 0 <= py < h implies pixel_state(
            bg,
            pixels_buffer@,
            depth_buffer@,
            triangles@.take(0),
            fovi,
            w,
            h,
            px,
            py,
        ) by {
            lemma_pixel_index(w, h, px, py);
        }
    }
    let mut ti: usize = 0;
    while ti < triangles.len()
        invariant
            0 < fov <= FOV_MAX,
            width <= DIM_MAX,
            height <= DIM_MAX,
            fovi == fov as int,
            w == width as int,
            h == height as int,
            bg == old(pixels_buffer)@,
            bg.len() == width * height,
            forall|n: int|
                0 <= n < triangles@.len() ==> tri_bounded(
                    (#[trigger] triangles@[n]).triangle,
                    TRI_MAX as int,
                ),
            ti <= triangles@.len(),
            pixels_buffer@.len() == width * height,
            depth_buffer@.len() == width * height,
            forall|px: int, py: int|
                #![trigger pixel_state(bg, pixels_buffer@, depth_buffer@, triangles@.take(ti as int), fovi, w, h, px, py)]
                0 <= px < w && 0 <= py < h ==> pixel_state(
                    bg,
                    pixels_buffer@,
                    depth_buffer@,
                    triangles@.take(ti as int),
                    fovi,
                    w,
                    h,
                    px,
                    py,
                ),
        decreases triangles@.len() - ti as int,
    {
        let t = triangles[ti];
        let ghost tcur: Seq<ColoredTriangle> = triangles@.take(ti as int);
        let ghost tnext: Seq<ColoredTriangle> = triangles@.take(ti as int + 1);
        if t.triangle.a.z >= 0 || t.triangle.b.z >= 0 || t.triangle.c.z >= 0 {
            proof {
                assert forall|px: int, py: int|
                    #![trigger pixel_state(bg, pixels_buffer@, depth_buffer@, tnext, fovi, w, h, px, py)]
                    0 <= px < w && 0 <= py < h implies pixel_state(
                    bg,
                    pixels_buffer@,
                    depth_buffer@,
                    tnext,
                    fovi,
                    w,
                    h,
                    px,
                    py,
                ) by {
                    assert(pixel_state(
                        bg,
                        pixels_buffer@,
                        depth_buffer@,
                        triangles@.take(ti as int),
                        fovi,
                        w,
                        h,
                        px,
                        py,
                    ));
                    assert(!tri_covered(triangles@[ti as int], fovi, w, h, px, py));
                    lemma_pixel_skip(
                        bg,
                        pixels_buffer@,
                        depth_buffer@,
                        triangles@,
                        ti as int,
                        fovi,
                        w,
                        h,
                        px,
                        py,
                    );
                }
            }
        } else {
            let (pa, az) = world_to_screen(&t.triangle.a, fov, height);
            let (pb, bz) = world_to_screen(&t.triangle.b, fov, height);
            let (pc, cz) = world_to_screen(&t.triangle.c, fov, height);
            let area = edge_at(pa.x, pa.y, pb.x, pb.y, pc.x, pc.y);
            if area <= 0 {
                proof {
                    assert forall|px: int, py: int|
                        #![trigger pixel_state(bg, pixels_buffer@, depth_buffer@, tnext, fovi, w, h, px, py)]
                        0 <= px < w && 0 <= py < h implies pixel_state(
                        bg,
                        pixels_buffer@,
                        depth_buffer@,
                        tnext,
                        fovi,
                        w,
                        h,
                        px,
                        py,
                    ) by {
                        assert(pixel_state(
                            bg,
                            pixels_buffer@,
                            depth_buffer@,
                            triangles@.take(ti as int),
                            fovi,
                            w,
                            h,
                            px,
                            py,
                        ));
                        assert(!tri_covered(triangles@[ti as int], fovi, w, h, px, py));
                        lemma_pixel_skip(
                            bg,
                            pixels_buffer@,
                            depth_buffer@,
                            triangles@,
                            ti as int,
                            fovi,
                            w,
                            h,
                            px,
                            py,
                        );
                    }
                }
            } else {
                let minx = max_i32(min_i32(min_i32(pa.x, pb.x), pc.x), 0);
                let miny = max_i32(min_i32(min_i32(pa.y, pb.y), pc.y), 0);
                let maxx = min_i32(max_i32(max_i32(pa.x, pb.x), pc.x), width as i32);
                let maxy = min_i32(max_i32(max_i32(pa.y, pb.y), pc.y), height as i32);
                let inc_ab = edge_included(pa.x, pa.y, pb.x, pb.y);
                let inc_bc = edge_included(pb.x, pb.y, pc.x, pc.y);
                let inc_ca = edge_included(pc.x, pc.y, pa.x, pa.y);
                let mut y = miny;
                while y < maxy
                    invariant
                        miny <= y,
                        pixels_buffer@.len() == width * height,
                        depth_buffer@.len() == width * height,
                        forall|px: int, py: int|
                            #![trigger pixel_state(bg, pixels_buffer@, depth_buffer@, tnext, fovi, w, h, px, py)]
                            0 <= px < w && 0 <= py < h && row_scanned(
                                minx as int,
                                maxx as int,
                                miny as int,
                                maxy as int,
                                y as int,
                                px,
                                py,
                            ) ==> pixel_state(
                                bg,
                                pixels_buffer@,
                                depth_buffer@,
                                tnext,
                                fovi,
                                w,
                                h,
                                px,
                                py,
                            ),
                        forall|px: int, py: int|
                            #![trigger pixel_state(bg, pixels_buffer@, depth_buffer@, tcur, fovi, w, h, px, py)]
                            0 <= px < w && 0 <= py < h && !row_scanned(
                                minx as int,
                                maxx as int,
                                miny as int,
                                maxy as int,
                                y as int,
                                px,
                                py,
                            ) ==> pixel_state(
                                bg,
                                pixels_buffer@,
                                depth_buffer@,
                                tcur,
                                fovi,
                                w,
                                h,
                                px,
                                py,
                            ),
                    decreases maxy as int - y as int,
                {
                    let mut x = minx;
                    while x < maxx
                        invariant
                            minx <= x,
                            miny <= y < maxy,
                            pixels_buffer@.len() == width * height,
                            depth_buffer@.len() == width * height,
                            forall|px: int, py: int|
                                #![trigger pixel_state(bg, pixels_buffer@, depth_buffer@, tnext, fovi, w, h, px, py)]
                                0 <= px < w && 0 <= py < h && cell_scanned(
                                    minx as int,
                                    maxx as int,
                                    miny as int,
                                    maxy as int,
                                    y as int,
                                    x as int,
                                    px,
                                    py,
                                ) ==> pixel_state(
                                    bg,
                                    pixels_buffer@,
                                    depth_buffer@,
                                    tnext,
                                    fovi,
                                    w,
                                    h,
                                    px,
                                    py,
                                ),
                            forall|px: int, py: int|
                                #![trigger pixel_state(bg, pixels_buffer@, depth_buffer@, tcur, fovi, w, h, px, py)]
                                0 <= px < w && 0 <= py < h && !cell_scanned(
                                    minx as int,
                                    maxx as int,
                                    miny as int,
                                    maxy as int,
                                    y as int,
                                    x as int,
                                    px,
                                    py,
                                ) ==> pixel_state(
                                    bg,
                                    pixels_buffer@,
                                    depth_buffer@,
                                    tcur,
                                    fovi,
                                    w,
                                    h,
                                    px,
                                    py,
                                ),
                        decreases maxx as int - x as int,
                    {
                        let wab = edge_at(pa.x, pa.y, pb.x, pb.y, x, y);
                        let wbc = edge_at(pb.x, pb.y, pc.x, pc.y, x, y);
                        let wca = edge_at(pc.x, pc.y, pa.x, pa.y, x, y);
                        let inside = (wab > 0 || (wab == 0 && inc_ab)) && (wbc > 0 || (wbc == 0
                            && inc_bc)) && (wca > 0 || (wca == 0 && inc_ca));
                        let ghost pre_buf = pixels_buffer@;
                        let ghost pre_dep = depth_buffer@;
                        if inside {
                            proof {
                                lemma_pixel_index(w, h, x as int, y as int);
                                lemma_mag_product(
                                    wab as int,
                                    t.triangle.a.z as int,
                                    0x4_0000_0000_0000_0000_0,
                                    TRI_MAX as int,
                                );
                                lemma_mag_product(
                                    wbc as int,
                                    t.triangle.b.z as int,
                                    0x4_0000_0000_0000_0000_0,
                                    TRI_MAX as int,
                                );
                                lemma_mag_product(
                                    wca as int,
                                    t.triangle.c.z as int,
                                    0x4_0000_0000_0000_0000_0,
                                    TRI_MAX as int,
                                );
                            }
                            let num = wab * (az as i128) + wbc * (bz as i128) + wca * (cz as i128);
                            let d = div_trunc(num, area);
                            let idx = (y as usize) * width + (x as usize);
                            let prev_d = depth_buffer[idx];
                            if d > prev_d {
                                pixels_buffer.set(idx, t.color);
                                depth_buffer.set(idx, d);
                            }
                            proof {
                                assert(tri_covered(
                                    triangles@[ti as int],
                                    fovi,
                                    w,
                                    h,
                                    x as int,
                                    y as int,
                                ));
                                assert(tri_depth(triangles@[ti as int], fovi, h, x as int, y as int)
                                    == d as int);
                                assert forall|px: int, py: int|
                                    #![trigger pixel_state(bg, pixels_buffer@, depth_buffer@, tnext, fovi, w, h, px, py)]
                                    0 <= px < w && 0 <= py < h && cell_scanned(
                                        minx as int,
                                        maxx as int,
                                        miny as int,
                                        maxy as int,
                                        y as int,
                                        x as int + 1,
                                        px,
                                        py,
                                    ) implies pixel_state(
                                    bg,
                                    pixels_buffer@,
                                    depth_buffer@,
                                    tnext,
                                    fovi,
                                    w,
                                    h,
                                    px,
                                    py,
                                ) by {
                                    lemma_pixel_index(w, h, px, py);
                                    if px == x as int && py == y as int {
                                        assert(pixel_state(
                                            bg,
                                            pre_buf,
                                            pre_dep,
                                            tcur,
                                            fovi,
                                            w,
                                            h,
                                            px,
                                            py,
                                        ));
                                        lemma_cell_unfold(
                                            bg[py * w + px],
                                            triangles@,
                                            ti as int,
                                            fovi,
                                            w,
                                            h,
                                            px,
                                            py,
                                        );
                                    } else {
                                        lemma_index_injective(w, px, py, x as int, y as int);
                                        assert(cell_scanned(
                                            minx as int,
                                            maxx as int,
                                            miny as int,
                                            maxy as int,
                                            y as int,
                                            x as int,
                                            px,
                                            py,
                                        ));
                                        assert(pixel_state(
                                            bg,
                                            pre_buf,
                                            pre_dep,
                                            tnext,
                                            fovi,
                                            w,
                                            h,
                                            px,
                                            py,
                                        ));
                                    }
                                }
                                assert forall|px: int, py: int|
                                    #![trigger pixel_state(bg, pixels_buffer@, depth_buffer@, tcur, fovi, w, h, px, py)]
                                    0 <= px < w && 0 <= py < h && !cell_scanned(
                                        minx as int,
                                        maxx as int,
                                        miny as int,
                                        maxy as int,
                                        y as int,
                                        x as int + 1,
                                        px,
                                        py,
                                    ) implies pixel_state(
                                    bg,
                                    pixels_buffer@,
                                    depth_buffer@,
                                    tcur,
                                    fovi,
                                    w,
                                    h,
                                    px,
                                    py,
                                ) by {
                                    lemma_pixel_index(w, h, px, py);
                                    assert(!(px == x as int && py == y as int));
                                    lemma_index_injective(w, px, py, x as int, y as int);
                                    assert(!cell_scanned(
                                        minx as int,
                                        maxx as int,
                                        miny as int,
                                        maxy as int,
                                        y as int,
                                        x as int,
                                        px,
                                        py,
                                    ));
                                    assert(pixel_state(
                                        bg,
                                        pre_buf,
                                        pre_dep,
                                        tcur,
                                        fovi,
                                        w,
                                        h,
                                        px,
                                        py,
                                    ));
                                }
                            }
                        } else {
                            proof {
                                assert forall|px: int, py: int|
                                    #![trigger pixel_state(bg, pixels_buffer@, depth_buffer@, tnext, fovi, w, h, px, py)]
                                    0 <= px < w && 0 <= py < h && cell_scanned(
                                        minx as int,
                                        maxx as int,
                                        miny as int,
                                        maxy as int,
                                        y as int,
                                        x as int + 1,
                                        px,
                                        py,
                                    ) implies pixel_state(
                                    bg,
                                    pixels_buffer@,
                                    depth_buffer@,
                                    tnext,
                                    fovi,
                                    w,
                                    h,
                                    px,
                                    py,
                                ) by {
                                    if px == x as int && py == y as int {
                                        assert(pixel_state(
                                            bg,
                                            pixels_buffer@,
                                            depth_buffer@,
                                            tcur,
                                            fovi,
                                            w,
                                            h,
                                            px,
                                            py,
                                        ));
                                        assert(!tri_covered(
                                            triangles@[ti as int],
                                            fovi,
                                            w,
                                            h,
                                            px,
                                            py,
                                        ));
                                        lemma_pixel_skip(
                                            bg,
                                            pixels_buffer@,
                                            depth_buffer@,
                                            triangles@,
                                            ti as int,
                                            fovi,
                                            w,
                                            h,
                                            px,
                                            py,
                                        );
                                    } else {
                                        assert(cell_scanned(
                                            minx as int,
                                            maxx as int,
                                            miny as int,
                                            maxy as int,
                                            y as int,
                                            x as int,
                                            px,
                                            py,
                                        ));
                                        assert(pixel_state(
                                            bg,
                                            pixels_buffer@,
                                            depth_buffer@,
                                            tnext,
                                            fovi,
                                            w,
                                            h,
                                            px,
                                            py,
                                        ));
                                    }
                                }
                            }
                        }
                        x = x + 1;
                    }
                    proof {
                        assert forall|px: int, py: int|
                            #![trigger pixel_state(bg, pixels_buffer@, depth_buffer@, tnext, fovi, w, h, px, py)]
                            0 <= px < w && 0 <= py < h && row_scanned(
                                minx as int,
                                maxx as int,
                                miny as int,
                                maxy as int,
                                y as int + 1,
                                px,
                                py,
                            ) implies pixel_state(
                            bg,
                            pixels_buffer@,
                            depth_buffer@,
                            tnext,
                            fovi,
                            w,
                            h,
                            px,
                            py,
                        ) by {
                            assert(cell_scanned(
                                minx as int,
                                maxx as int,
                                miny as int,
                                maxy as int,
                                y as int,
                                x as int,
                                px,
                                py,
                            ));
                            assert(pixel_state(
                                bg,
                                pixels_buffer@,
                                depth_buffer@,
                                tnext,
                                fovi,
                                w,
                                h,
                                px,
                                py,
                            ));
                        }
                        assert forall|px: int, py: int|
                            #![trigger pixel_state(bg, pixels_buffer@, depth_buffer@, tcur, fovi, w, h, px, py)]
                            0 <= px < w && 0 <= py < h && !row_scanned(
                                minx as int,
                                maxx as int,
                                miny as int,
                                maxy as int,
                                y as int + 1,
                                px,
                                py,
                            ) implies pixel_state(
                            bg,
                            pixels_buffer@,
                            depth_buffer@,
                            tcur,
                            fovi,
                            w,
                            h,
                            px,
                            py,
                        ) by {
                            assert(!cell_scanned(
                                minx as int,
                                maxx as int,
                                miny as int,
                                maxy as int,
                                y as int,
                                x as int,
                                px,
                                py,
                            ));
                            assert(pixel_state(
                                bg,
                                pixels_buffer@,
                                depth_buffer@,
                                tcur,
                                fovi,
                                w,
                                h,
                                px,
                                py,
                            ));
                        }
                    }
                    y = y + 1;
                }
                proof {
                    assert forall|px: int, py: int|
                        #![trigger pixel_state(bg, pixels_buffer@, depth_buffer@, tnext, fovi, w, h, px, py)]
                        0 <= px < w && 0 <= py < h implies pixel_state(
                        bg,
                        pixels_buffer@,
                        depth_buffer@,
                        tnext,
                        fovi,
                        w,
                        h,
                        px,
                        py,
                    ) by {
                        if row_scanned(
                            minx as int,
                            maxx as int,
                            miny as int,
                            maxy as int,
                            y as int,
                            px,
                            py,
                        ) {
                            assert(pixel_state(
                                bg,
                                pixels_buffer@,
                                depth_buffer@,
                                tnext,
                                fovi,
                                w,
                                h,
                                px,
                                py,
                            ));
                        } else {
                            assert(pixel_state(
                                bg,
                                pixels_buffer@,
                                depth_buffer@,
                                tcur,
                                fovi,
                                w,
                                h,
                                px,
                                py,
                            ));
                            assert(!tri_covered(triangles@[ti as int], fovi, w, h, px, py));
                            lemma_pixel_skip(
                                bg,
                                pixels_buffer@,
                                depth_buffer@,
                                triangles@,
                                ti as int,
                                fovi,
                                w,
                                h,
                                px,
                                py,
                            );
                        }
                    }
                }
            }
        }
        ti = ti + 1;
        proof {
            assert forall|px: int, py: int|
                #![trigger pixel_state(bg, pixels_buffer@, depth_buffer@, triangles@.take(ti as int), fovi, w, h, px, py)]
                0 <= px < w && 0 <= py < h implies pixel_state(
                bg,
                pixels_buffer@,
                depth_buffer@,
                triangles@.take(ti as int),
                fovi,
                w,
                h,
                px,
                py,
            ) by {
                assert(triangles@.take(ti as int) =~= tnext);
                assert(pixel_state(
                    bg,
                    pixels_buffer@,
                    depth_buffer@,
                    tnext,
                    fovi,
                    w,
                    h,
                    px,
                    py,
                ));
            }
        }
    }
    proof {
        assert(triangles@.take(triangles@.len() as int) =~= triangles@);
        assert forall|px: int, py: int|
            #![trigger frame_pixel(bg, triangles@, fovi, w, h, px, py)]
            0 <= px < w && 0 <= py < h implies pixels_buffer@[py * w + px] == frame_pixel(
            bg,
            triangles@,
            fovi,
            w,
            h,
            px,
            py,
        ) by {
            assert(pixel_state(
                bg,
                pixels_buffer@,
                depth_buffer@,
                triangles@.take(triangles@.len() as int),
                fovi,
                w,
                h,
                px,
                py,
            ));
        }
    }
    Ok(())
}


/// For a fixed field of view and resolution, projection is a function
/// of the point alone: results of projecting equal points are equal.
pub proof fn lemma_project_deterministic(
    p: (int, int, int),
    q: (int, int, int),
    fov: int,
    h: int,
    r1: (int, int),
    r2: (int, int),
)
    requires
        p == q,
        r1 == spec_project(p, fov, h),
        r2 == spec_project(q, fov, h),
    ensures
        r1 == r2,
{
}

/// A triangle with any vertex at or behind the camera plane writes no
/// pixel: it leaves every pixel's color and depth exactly as they were,
/// regardless of its other vertices.
pub proof fn lemma_behind_camera_no_writes(
    prev: (RGBA, int),
    t: ColoredTriangle,
    fov: int,
    w: int,
    h: int,
    px: int,
    py: int,
)
    requires
        t.triangle.a.z >= 0 || t.triangle.b.z >= 0 || t.triangle.c.z >= 0,
    ensures
        cell_step(prev, t, fov, w, h, px, py) == prev,
{
}

/// A triangle whose projected signed area is zero or negative
/// (degenerate or wrong winding) writes no pixel.
pub proof fn lemma_backface_no_writes(
    prev: (RGBA, int),
    t: ColoredTriangle,
    fov: int,
    w: int,
    h: int,
    px: int,
    py: int,
)
    requires
        spec_edge(
            spec_project(v3(t.triangle.a), fov, h).0,
            spec_project(v3(t.triangle.a), fov, h).1,
            spec_project(v3(t.triangle.b), fov, h).0,
            spec_project(v3(t.triangle.b), fov, h).1,
            spec_project(v3(t.triangle.c), fov, h).0,
            spec_project(v3(t.triangle.c), fov, h).1,
        ) <= 0,
    ensures
        cell_step(prev, t, fov, w, h, px, py) == prev,
{
}

/// At a pixel covered by two triangles of different interpolated
/// depths, the closer triangle's color wins, whichever of the two is
/// rasterized first.
pub proof fn lemma_nearer_triangle_wins(
    bg: RGBA,
    t1: ColoredTriangle,
    t2: ColoredTriangle,
    fov: int,
    w: int,
    h: int,
    px: int,
    py: int,
)
    requires
        tri_covered(t1, fov, w, h, px, py),
        tri_covered(t2, fov, w, h, px, py),
        tri_depth(t1, fov, h, px, py) > tri_depth(t2, fov, h, px, py),
        tri_depth(t2, fov, h, px, py) > i128::MIN as int,
    ensures
        cell(bg, seq![t1, t2], fov, w, h, px, py).0 == t1.color,
        cell(bg, seq![t2, t1], fov, w, h, px, py).0 == t1.color,
{
    let e = Seq::<ColoredTriangle>::empty();
    assert(cell(bg, e, fov, w, h, px, py) == (bg, i128::MIN as int));
    let s1 = seq![t1];
    let s2 = seq![t2];
    assert(s1.drop_last() =~= e);
    assert(s2.drop_last() =~= e);
    assert(cell(bg, s1, fov, w, h, px, py) == (t1.color, tri_depth(t1, fov, h, px, py)));
    assert(cell(bg, s2, fov, w, h, px, py) == (t2.color, tri_depth(t2, fov, h, px, py)));
    let s12 = seq![t1, t2];
    let s21 = seq![t2, t1];
    assert(s12.drop_last() =~= s1);
    assert(s21.drop_last() =~= s2);
    assert(s12.last() == t2);
    assert(s21.last() == t1);
    assert(cell(bg, s12, fov, w, h, px, py) == cell_step(
        cell(bg, s1, fov, w, h, px, py),
        t2,
        fov,
        w,
        h,
        px,
        py,
    ));
    assert(cell(bg, s21, fov, w, h, px, py) == cell_step(
        cell(bg, s2, fov, w, h, px, py),
        t1,
        fov,
        w,
        h,
        px,
        py,
    ));
}

/// Two triangles that share an edge with opposite orientations claim a
/// pixel strictly interior to that edge exactly once under the fill
/// rule: no gap and no double claim. The first triangle is `(a, b, c)`,
/// the second `(b, a, d)`, and the pixel lies on the shared edge,
/// strictly inside every other edge of both triangles.
pub proof fn lemma_shared_edge_single_paint(
    ax: int,
    ay: int,
    bx: int,
    by: int,
    cx: int,
    cy: int,
    dx: int,
    dy: int,
    px: int,
    py: int,
)
    requires
        spec_edge(ax, ay, bx, by, cx, cy) > 0,
        spec_edge(bx, by, ax, ay, dx, dy) > 0,
        spec_edge(ax, ay, bx, by, px, py) == 0,
        spec_edge(bx, by, cx, cy, px, py) > 0,
        spec_edge(cx, cy, ax, ay, px, py) > 0,
        spec_edge(ax, ay, dx, dy, px, py) > 0,
        spec_edge(dx, dy, bx, by, px, py) > 0,
    ensures
        spec_inside(ax, ay, bx, by, cx, cy, px, py) != spec_inside(bx, by, ax, ay, dx, dy, px, py),
{
    assert(spec_edge(bx, by, ax, ay, px, py) == -spec_edge(ax, ay, bx, by, px, py))
        by (nonlinear_arith);
    if ax == bx && ay == by {
        assert(spec_edge(ax, ay, bx, by, cx, cy) == 0) by (nonlinear_arith)
            requires
                ax == bx && ay == by,
        ;
    }
    assert(spec_inside(ax, ay, bx, by, cx, cy, px, py) == spec_edge_included(ax, ay, bx, by));
    assert(spec_inside(bx, by, ax, ay, dx, dy, px, py) == spec_edge_included(bx, by, ax, ay));
}



/// A product of differences, written out.
proof fn lemma_expand(x1: int, x2: int, y1: int, y2: int)
    ensures
        (x1 - x2) * (y1 - y2) == x1 * y1 - x1 * y2 - x2 * y1 + x2 * y2,
{
    assert((x1 - x2) * (y1 - y2) == x1 * y1 - x1 * y2 - x2 * y1 + x2 * y2) by (nonlinear_arith);
}

/// Multiplying by a positive factor keeps the sign, in either order.
proof fn lemma_sign_pos(x: int, y: int)
    requires
        y > 0,
    ensures
        (x * y > 0 <==> x > 0) && (y * x > 0 <==> x > 0),
        (x * y == 0 <==> x == 0) && (y * x == 0 <==> x == 0),
        (x * y < 0 <==> x < 0) && (y * x < 0 <==> x < 0),
{
    assert((x * y > 0 <==> x > 0) && (y * x > 0 <==> x > 0) && (x * y == 0 <==> x == 0) && (y * x
        == 0 <==> x == 0) && (x * y < 0 <==> x < 0) && (y * x < 0 <==> x < 0))
        by (nonlinear_arith)
        requires
            y > 0,
    ;
}

/// Multiplying by a negative factor flips the sign, in either order.
proof fn lemma_sign_neg(x: int, y: int)
    requires
        y < 0,
    ensures
        (x * y > 0 <==> x < 0) && (y * x > 0 <==> x < 0),
        (x * y == 0 <==> x == 0) && (y * x == 0 <==> x == 0),
        (x * y < 0 <==> x > 0) && (y * x < 0 <==> x > 0),
{
    assert((x * y > 0 <==> x < 0) && (y * x > 0 <==> x < 0) && (x * y == 0 <==> x == 0) && (y * x
        == 0 <==> x == 0) && (x * y < 0 <==> x > 0) && (y * x < 0 <==> x > 0))
        by (nonlinear_arith)
        requires
            y < 0,
    ;
}

/// An edge function over coordinates relative to the probe point.
proof fn lemma_edge_uvt(ax: int, ay: int, bx: int, by: int, px: int, py: int)
    ensures
        spec_edge(ax, ay, bx, by, px, py) == (py - ay) * (px - bx) - (px - ax) * (py - by),
{
    assert(spec_edge(ax, ay, bx, by, px, py) == (py - ay) * (px - bx) - (px - ax) * (py - by))
        by (nonlinear_arith);
}

/// How the doubled area weights the probe's offset from vertex `a`
/// along the x axis, over relative coordinates `u = p - a`, `v = p - b`,
/// `t = p - c`.
#[verifier::spinoff_prover]
#[verifier::rlimit(100)]
proof fn lemma_bary_x_low(ux: int, uy: int, vx: int, vy: int, tx: int, ty: int)
    ensures
        ((ux - tx) * (uy - vy) - (uy - ty) * (ux - vx)) * ux == (ty * ux - tx * uy) * (ux - vx) + (
        ux - tx) * (uy * vx - ux * vy),
{
    assert(((ux - tx) * (uy - vy) - (uy - ty) * (ux - vx)) * ux == (ty * ux - tx * uy) * (ux - vx)
        + (ux - tx) * (uy * vx - ux * vy)) by (nonlinear_arith);
}


/// How the doubled area weights the probe's offset from vertex `a`
/// along the y axis.
proof fn lemma_bary_y_low(ux: int, uy: int, vx: int, vy: int, tx: int, ty: int)
    ensures
        ((ux - tx) * (uy - vy) - (uy - ty) * (ux - vx)) * uy == (ty * ux - tx * uy) * (uy - vy) + (
        uy - ty) * (uy * vx - ux * vy),
{
    lemma_bary_x_low(uy, ux, vy, vx, ty, tx);
    vstd::arithmetic::mul::lemma_mul_unary_negation(
        (ux - tx) * (uy - vy) - (uy - ty) * (ux - vx),
        uy,
    );
    vstd::arithmetic::mul::lemma_mul_unary_negation(ty * ux - tx * uy, uy - vy);
    vstd::arithmetic::mul::lemma_mul_unary_negation(uy - ty, uy * vx - ux * vy);
}


/// The three edge-function sub-areas of a pixel always sum to the
/// triangle's doubled area.
pub proof fn lemma_subareas_sum(
    ax: int,
    ay: int,
    bx: int,
    by: int,
    cx: int,
    cy: int,
    px: int,
    py: int,
)
    ensures
        spec_edge(ax, ay, bx, by, px, py) + spec_edge(bx, by, cx, cy, px, py) + spec_edge(
            cx,
            cy,
            ax,
            ay,
            px,
            py,
        ) == spec_edge(ax, ay, bx, by, cx, cy),
{
    lemma_expand(px, ax, by, ay);
    lemma_expand(py, ay, bx, ax);
    lemma_expand(px, bx, cy, by);
    lemma_expand(py, by, cx, bx);
    lemma_expand(px, cx, ay, cy);
    lemma_expand(py, cy, ax, cx);
    lemma_expand(cx, ax, by, ay);
    lemma_expand(cy, ay, bx, ax);
    vstd::arithmetic::mul::lemma_mul_is_commutative(ax, ay);
    vstd::arithmetic::mul::lemma_mul_is_commutative(bx, by);
    vstd::arithmetic::mul::lemma_mul_is_commutative(cx, cy);
    vstd::arithmetic::mul::lemma_mul_is_commutative(bx, cy);
    vstd::arithmetic::mul::lemma_mul_is_commutative(by, cx);
}

/// A pixel on the edge from `a` to `b`, strictly inside the other two
/// edges of a positively wound triangle, and admitted by the fill
/// rule, lies in the triangle's scanned bounding box.
proof fn lemma_bbox_contains_edge_pixel(
    ax: int,
    ay: int,
    bx: int,
    by: int,
    cx: int,
    cy: int,
    w: int,
    h: int,
    px: int,
    py: int,
)
    requires
        spec_edge(ax, ay, bx, by, cx, cy) > 0,
        spec_edge(ax, ay, bx, by, px, py) == 0,
        spec_edge(bx, by, cx, cy, px, py) > 0,
        spec_edge(cx, cy, ax, ay, px, py) > 0,
        spec_edge_included(ax, ay, bx, by),
        0 <= px < w,
        0 <= py < h,
    ensures
        spec_in_bbox(ax, ay, bx, by, cx, cy, w, h, px, py),
{
    let ux = px - ax;
    let uy = py - ay;
    let vx = px - bx;
    let vy = py - by;
    let tx = px - cx;
    let ty = py - cy;
    let area = spec_edge(ax, ay, bx, by, cx, cy);
    let wab = spec_edge(ax, ay, bx, by, px, py);
    let wbc = spec_edge(bx, by, cx, cy, px, py);
    let wca = spec_edge(cx, cy, ax, ay, px, py);
    lemma_edge_uvt(ax, ay, bx, by, px, py);
    lemma_edge_uvt(bx, by, cx, cy, px, py);
    lemma_edge_uvt(cx, cy, ax, ay, px, py);
    assert(wab == uy * vx - ux * vy);
    assert(wbc == vy * tx - vx * ty);
    assert(wca == ty * ux - tx * uy);
    assert(area == (ux - tx) * (uy - vy) - (uy - ty) * (ux - vx));
    lemma_bary_x_low(ux, uy, vx, vy, tx, ty);
    lemma_bary_y_low(ux, uy, vx, vy, tx, ty);
    // The pixel lies on the shared edge's line, so the cofactor terms
    // vanish and the area weighs the offset from `a` through one
    // sub-area.
    vstd::arithmetic::mul::lemma_mul_by_zero_is_zero(ux - tx);
    vstd::arithmetic::mul::lemma_mul_by_zero_is_zero(uy - ty);
    assert(area * ux == wca * (ux - vx));
    assert(area * uy == wca * (uy - vy));
    // The offset from `b` follows from the sub-area sum.
    lemma_subareas_sum(ax, ay, bx, by, cx, cy, px, py);
    assert(wbc + wca == area);
    vstd::arithmetic::mul::lemma_mul_is_distributive_sub(area, ux, vx);
    vstd::arithmetic::mul::lemma_mul_is_distributive_sub(area, uy, vy);
    vstd::arithmetic::mul::lemma_mul_is_distributive_add_other_way(ux - vx, wbc, wca);
    vstd::arithmetic::mul::lemma_mul_is_distributive_add_other_way(uy - vy, wbc, wca);
    assert(area * (ux - vx) == wbc * (ux - vx) + wca * (ux - vx));
    assert(area * (uy - vy) == wbc * (uy - vy) + wca * (uy - vy));
    assert(-(area * vx) == wbc * (ux - vx));
    assert(-(area * vy) == wbc * (uy - vy));
    // Place px between ax and bx, strictly below the larger.
    if ax < bx {
        lemma_sign_pos(wca, bx - ax);
        lemma_sign_pos(wbc, bx - ax);
        lemma_sign_pos(ux, area);
        lemma_sign_pos(vx, area);
        assert(ax < px < bx);
    } else if bx < ax {
        lemma_sign_neg(wca, bx - ax);
        lemma_sign_neg(wbc, bx - ax);
        lemma_sign_pos(ux, area);
        lemma_sign_pos(vx, area);
        assert(bx < px < ax);
    } else {
        lemma_sign_pos(ux, area);
        assert(px == ax);
        // A vertical edge the fill rule admits points downward, so the
        // third vertex lies strictly to its right.
        assert(by > ay);
        vstd::arithmetic::mul::lemma_mul_by_zero_is_zero(cy - ay);
        assert(area == (cx - ax) * (by - ay));
        lemma_sign_pos(cx - ax, by - ay);
        assert(cx > ax);
    }
    // Place py between ay and by, strictly below the larger.
    if ay < by {
        lemma_sign_pos(wca, by - ay);
        lemma_sign_pos(wbc, by - ay);
        lemma_sign_pos(uy, area);
        lemma_sign_pos(vy, area);
        assert(ay < py < by);
    } else if by < ay {
        lemma_sign_neg(wca, by - ay);
        lemma_sign_neg(wbc, by - ay);
        lemma_sign_pos(uy, area);
        lemma_sign_pos(vy, area);
        assert(by < py < ay);
    } else {
        lemma_sign_pos(uy, area);
        assert(py == ay);
        // A horizontal edge the fill rule admits points left, so the
        // third vertex lies strictly below it.
        assert(bx < ax);
        vstd::arithmetic::mul::lemma_mul_by_zero_is_zero(cx - ax);
        assert(area == -((cy - ay) * (bx - ax)));
        lemma_sign_neg(cy - ay, bx - ax);
        assert(cy > ay);
    }
}

/// Two front-facing triangles that share an edge with opposite
/// orientations cover a screen pixel strictly interior to that edge
/// exactly once: the rasterizer leaves no gap along the seam and never
/// claims such a pixel twice. The first triangle is `(a, b, c)`; the
/// second shares the edge as `(b, a, d)`.
pub proof fn lemma_shared_edge_one_covers(
    t1: ColoredTriangle,
    t2: ColoredTriangle,
    fov: int,
    w: int,
    h: int,
    px: int,
    py: int,
)
    requires
        t2.triangle.a == t1.triangle.b,
        t2.triangle.b == t1.triangle.a,
        t1.triangle.a.z < 0,
        t1.triangle.b.z < 0,
        t1.triangle.c.z < 0,
        t2.triangle.c.z < 0,
        ({
            let a = spec_project(v3(t1.triangle.a), fov, h);
            let b = spec_project(v3(t1.triangle.b), fov, h);
            let c = spec_project(v3(t1.triangle.c), fov, h);
            let d = spec_project(v3(t2.triangle.c), fov, h);
            &&& spec_edge(a.0, a.1, b.0, b.1, c.0, c.1) > 0
            &&& spec_edge(b.0, b.1, a.0, a.1, d.0, d.1) > 0
            &&& spec_edge(a.0, a.1, b.0, b.1, px, py) == 0
            &&& spec_edge(b.0, b.1, c.0, c.1, px, py) > 0
            &&& spec_edge(c.0, c.1, a.0, a.1, px, py) > 0
            &&& spec_edge(a.0, a.1, d.0, d.1, px, py) > 0
            &&& spec_edge(d.0, d.1, b.0, b.1, px, py) > 0
        }),
        0 <= px < w,
        0 <= py < h,
    ensures
        tri_covered(t1, fov, w, h, px, py) != tri_covered(t2, fov, w, h, px, py),
{
    let a = spec_project(v3(t1.triangle.a), fov, h);
    let b = spec_project(v3(t1.triangle.b), fov, h);
    let c = spec_project(v3(t1.triangle.c), fov, h);
    let d = spec_project(v3(t2.triangle.c), fov, h);
    lemma_shared_edge_single_paint(a.0, a.1, b.0, b.1, c.0, c.1, d.0, d.1, px, py);
    assert(spec_edge(b.0, b.1, a.0, a.1, px, py) == -spec_edge(a.0, a.1, b.0, b.1, px, py))
        by (nonlinear_arith);
    if spec_inside(a.0, a.1, b.0, b.1, c.0, c.1, px, py) {
        assert(spec_edge_included(a.0, a.1, b.0, b.1));
        lemma_bbox_contains_edge_pixel(a.0, a.1, b.0, b.1, c.0, c.1, w, h, px, py);
        assert(tri_covered(t1, fov, w, h, px, py));
        assert(!tri_covered(t2, fov, w, h, px, py));
    } else {
        assert(spec_inside(b.0, b.1, a.0, a.1, d.0, d.1, px, py));
        assert(spec_edge_included(b.0, b.1, a.0, a.1));
        lemma_bbox_contains_edge_pixel(b.0, b.1, a.0, a.1, d.0, d.1, w, h, px, py);
        assert(tri_covered(t2, fov, w, h, px, py));
        assert(!tri_covered(t1, fov, w, h, px, py));
    }
}

} // verus!
