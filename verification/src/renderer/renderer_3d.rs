//! The 3D triangle rasterizer: per-vertex transform into raster space,
//! per-triangle bounding-box scan with edge-function coverage, perspective-
//! correct attribute interpolation, a per-pixel depth test, and a Wu-line
//! wireframe overlay, all composited by the 2D renderer.

use vstd::prelude::*;

verus! {

use crate::camera::{Camera, canvas_width_frac, canvas_height_frac};
use crate::drawing::{Color, Pixel, Shape2D};
use crate::drawing::line::{LineBuilder, WuLine, path_pixels};
use crate::fixed::{
    FX_ONE,
    Mat4x,
    Vec3x,
    Vec4x,
    fx_div,
    fx_ok,
    fx_sat,
    floor_div_i128,
    mat_vec_mul,
    spec_fx_div,
    spec_fx_sat,
    spec_mat_vec_mul,
    spec_trunc_div,
    trunc_div_i128,
    lemma_trunc_div_bound,
};
use crate::renderer::Renderer;
use crate::renderer::drawifier::{
    Drawifier,
    spec_clear,
    spec_put_pixels,
    spec_shapes_pixels,
};

/// Per-vertex color attribute (alpha is implied: filled surfaces are
/// opaque).
#[derive(Clone, Copy, Debug, PartialEq, Eq, Structural)]
pub struct VertexAttribute {
    pub color: Color,
}

/// A triangle mesh: vertices in world space, triangles as vertex-index
/// triples, and one color attribute per vertex.
#[derive(Debug, Clone)]
pub struct Mesh3D {
    pub vertices: Vec<Vec3x>,
    pub indices: Vec<(usize, usize, usize)>,
    pub attributes: Vec<VertexAttribute>,
}

impl Mesh3D {
    /// A well-formed mesh: every triangle's indices address real vertices,
    /// there is exactly one attribute per vertex, and the coordinates lie in
    /// the pipeline's working range. An index past the vertex array is a
    /// content error (a malformed asset), not a runtime condition, so it is
    /// excluded here rather than silently tolerated.
    pub open spec fn wf(self) -> bool {
        &&& self.attributes@.len() == self.vertices@.len()
        &&& forall|i: int|
            0 <= i < self.vertices@.len() ==> (#[trigger] self.vertices@[i]).wf()
        &&& forall|i: int|
            0 <= i < self.indices@.len() ==> {
                let t = #[trigger] self.indices@[i];
                t.0 < self.vertices@.len() && t.1 < self.vertices@.len() && t.2
                    < self.vertices@.len()
            }
    }
}

/// Raster coordinates are saturated into this range, the way a float cast
/// saturates, just tighter (a machine limit).
pub const RASTER_LIMIT: i64 = 0x4000_0000;

/// A vertex after projection: integer raster x and y, and the post-divide
/// depth kept in fixed point for the z-buffer.
#[derive(Clone, Copy, Debug, PartialEq, Eq, Structural)]
pub struct RasterPoint {
    pub x: i64,
    pub y: i64,
    pub z: i64,
}

impl RasterPoint {
    pub open spec fn wf(self) -> bool {
        &&& -RASTER_LIMIT <= self.x <= RASTER_LIMIT
        &&& -RASTER_LIMIT <= self.y <= RASTER_LIMIT
        &&& fx_ok(self.z)
    }
}

/// Clamp a raster coordinate into its working range.
pub open spec fn spec_sat_raster(q: int) -> int {
    if q > RASTER_LIMIT as int {
        RASTER_LIMIT as int
    } else if q < -RASTER_LIMIT as int {
        -RASTER_LIMIT as int
    } else {
        q
    }
}

fn sat_raster(q: i128) -> (r: i64)
    ensures
        r == spec_sat_raster(q as int),
        -RASTER_LIMIT <= r <= RASTER_LIMIT,
{
    if q > RASTER_LIMIT as i128 {
        RASTER_LIMIT
    } else if q < -(RASTER_LIMIT as i128) {
        -RASTER_LIMIT
    } else {
        q as i64
    }
}

/// A canvas-derived fraction rounded down to fixed point and saturated.
pub open spec fn spec_rat_fx(n: int, d: int) -> int {
    if d <= 0 {
        0
    } else {
        spec_fx_sat((n * 65536) / d)
    }
}

fn rat_fx(n: i128, d: i128) -> (r: i64)
    requires
        0 < d <= 0x4000_0000_0000_0000_0000_0000_0000,
        -0x4000_0000_0000_0000_0000_0000_0000 <= n <= 0x4000_0000_0000_0000_0000_0000_0000,
    ensures
        r == spec_rat_fx(n as int, d as int),
        fx_ok(r),
{
    proof {
        crate::fixed::lemma_abs_mul_le(n as int, 65536, 0x4000_0000_0000_0000_0000_0000_0000, 65536);
    }
    let t: i128 = n * 65536;
    fx_sat(floor_div_i128(t, d))
}

/// The perspective matrix of a camera at the given output size: the standard
/// right-handed frustum matrix built from the canvas extent and the near and
/// far planes, with every entry rounded to fixed point.
pub open spec fn spec_perspective(camera: Camera, dims: (u32, u32)) -> Mat4x {
    let cw = canvas_width_frac(camera.aperture, camera.focal_length, camera.near, camera.fit_strategy, dims);
    let ch = canvas_height_frac(camera.aperture, camera.focal_length, camera.near, camera.fit_strategy, dims);
    let nn = camera.near.num as int;
    let nd = camera.near.den as int;
    let fn_ = camera.far.num as int;
    let fd = camera.far.den as int;
    // far - near and far + near as exact fractions over fd * nd; the same
    // fd * nd scale carries through far * near, so it cancels out of both
    // z-column entries and the plain numerators divide by diff_n alone
    let diff_n = fn_ * nd - nn * fd;
    let sum_n = fn_ * nd + nn * fd;
    Mat4x {
        x_axis: Vec4x { x: spec_rat_fx(2 * nn * cw.1, nd * cw.0) as i64, y: 0, z: 0, w: 0 },
        y_axis: Vec4x { x: 0, y: spec_rat_fx(2 * nn * ch.1, nd * ch.0) as i64, z: 0, w: 0 },
        z_axis: Vec4x {
            x: 0,
            y: 0,
            z: spec_rat_fx(-sum_n, diff_n) as i64,
            w: (-(FX_ONE as int)) as i64,
        },
        w_axis: Vec4x {
            x: 0,
            y: 0,
            z: spec_rat_fx(-2 * fn_ * nn, diff_n) as i64,
            w: 0,
        },
    }
}

/// Build the perspective matrix at runtime.
pub fn perspective_matrix(camera: &Camera, width: u32, height: u32) -> (m: Mat4x)
    requires
        camera.wf(),
        1 <= width <= 16384,
        1 <= height <= 16384,
    ensures
        m == spec_perspective(*camera, (width, height)),
        m.wf(),
{
    let canvas = camera.canvas((width, height));
    let nn = camera.near.num;
    let nd = camera.near.den;
    let fnum = camera.far.num;
    let fd = camera.far.den;
    proof {
        crate::fixed::lemma_abs_mul_le(fnum as int, nd as int, 65536, 65536);
        crate::fixed::lemma_abs_mul_le(nn as int, fd as int, 65536, 65536);
    }
    let diff_n: i128 = fnum * nd - nn * fd;
    let sum_n: i128 = fnum * nd + nn * fd;
    assert(diff_n > 0);
    proof {
        crate::fixed::lemma_abs_mul_le(2 * nn as int, canvas.width.den as int, 0x20000, 0x1_0000_0000_0000_0000_0000);
        crate::fixed::lemma_abs_mul_le(nd as int, canvas.width.num as int, 65536, 0x1_0000_0000_0000_0000_0000);
        crate::fixed::lemma_abs_mul_le(2 * nn as int, canvas.height.den as int, 0x20000, 0x2000_0000_0000_0000_0000_0000);
        crate::fixed::lemma_abs_mul_le(nd as int, canvas.height.num as int, 65536, 0x2000_0000_0000_0000_0000_0000);
        crate::fixed::lemma_abs_mul_le(-2 * fnum as int, nn as int, 0x20000, 65536);
    }
    let ex = rat_fx(2 * nn * canvas.width.den, nd * canvas.width.num);
    let ey = rat_fx(2 * nn * canvas.height.den, nd * canvas.height.num);
    let ez = rat_fx(-sum_n, diff_n);
    let ew = rat_fx(-2 * fnum * nn, diff_n);
    Mat4x {
        x_axis: Vec4x { x: ex, y: 0, z: 0, w: 0 },
        y_axis: Vec4x { x: 0, y: ey, z: 0, w: 0 },
        z_axis: Vec4x { x: 0, y: 0, z: ez, w: -FX_ONE },
        w_axis: Vec4x { x: 0, y: 0, z: ew, w: 0 },
    }
}

/// One vertex through the whole transform chain: world space to camera space
/// to clip space, the homogeneous divide, and the viewport mapping (raster y
/// grows downward, so the y axis flips). The fixed-point divide maps a zero
/// homogeneous coordinate to the origin instead of infinity.
pub open spec fn spec_to_raster(world: Mat4x, persp: Mat4x, v: Vec3x, dims: (u32, u32)) -> RasterPoint {
    let cam = spec_mat_vec_mul(world, Vec4x { x: v.x, y: v.y, z: v.z, w: FX_ONE as i64 });
    let clip = spec_mat_vec_mul(persp, cam);
    let xd = spec_fx_div(clip.x as int, clip.w as int);
    let yd = spec_fx_div(clip.y as int, clip.w as int);
    let zd = spec_fx_div(clip.z as int, clip.w as int);
    RasterPoint {
        x: spec_sat_raster(spec_trunc_div((xd + 65536) * (dims.0 as int), 131072)) as i64,
        y: spec_sat_raster(spec_trunc_div((65536 - yd) * (dims.1 as int), 131072)) as i64,
        z: zd as i64,
    }
}

/// Transform one vertex to raster space at runtime.
pub fn to_raster(world: &Mat4x, persp: &Mat4x, v: Vec3x, width: u32, height: u32) -> (r:
    RasterPoint)
    requires
        world.wf(),
        persp.wf(),
        v.wf(),
        width <= 16384,
        height <= 16384,
    ensures
        r == spec_to_raster(*world, *persp, v, (width, height)),
        r.wf(),
{
    let cam = mat_vec_mul(world, Vec4x { x: v.x, y: v.y, z: v.z, w: FX_ONE });
    let clip = mat_vec_mul(persp, cam);
    let xd = fx_div(clip.x, clip.w);
    let yd = fx_div(clip.y, clip.w);
    let zd = fx_div(clip.z, clip.w);
    proof {
        crate::fixed::lemma_abs_mul_le(
            xd as int + 65536,
            width as int,
            0x100_0000_0000,
            16384,
        );
        crate::fixed::lemma_abs_mul_le(
            65536 - yd as int,
            height as int,
            0x100_0000_0000,
            16384,
        );
    }
    let tx: i128 = ((xd as i128) + 65536) * (width as i128);
    let ty: i128 = (65536 - (yd as i128)) * (height as i128);
    let xr = sat_raster(trunc_div_i128(tx, 131072));
    let yr = sat_raster(trunc_div_i128(ty, 131072));
    RasterPoint { x: xr, y: yr, z: zd }
}

/// All of a mesh's vertices in raster space.
pub open spec fn spec_project(world: Mat4x, persp: Mat4x, verts: Seq<Vec3x>, dims: (u32, u32)) -> Seq<RasterPoint> {
    Seq::new(verts.len(), |i: int| spec_to_raster(world, persp, verts[i], dims))
}

/// Project every vertex of a mesh.
pub fn project_vertices(world: &Mat4x, persp: &Mat4x, verts: &Vec<Vec3x>, width: u32, height: u32)
    -> (r: Vec<RasterPoint>)
    requires
        world.wf(),
        persp.wf(),
        forall|i: int| 0 <= i < verts@.len() ==> (#[trigger] verts@[i]).wf(),
        width <= 16384,
        height <= 16384,
    ensures
        r@ == spec_project(*world, *persp, verts@, (width, height)),
        forall|i: int| 0 <= i < r@.len() ==> (#[trigger] r@[i]).wf(),
{
    let mut r: Vec<RasterPoint> = Vec::new();
    let mut i: usize = 0;
    while i < verts.len()
        invariant
            0 <= i <= verts@.len(),
            world.wf(),
            persp.wf(),
            width <= 16384,
            height <= 16384,
            forall|j: int| 0 <= j < verts@.len() ==> (#[trigger] verts@[j]).wf(),
            r@ == spec_project(*world, *persp, verts@, (width, height)).take(i as int),
            forall|j: int| 0 <= j < r@.len() ==> (#[trigger] r@[j]).wf(),
        decreases verts@.len() - i,
    {
        let p = to_raster(world, persp, verts[i], width, height);
        r.push(p);
        proof {
            assert(r@ =~= spec_project(*world, *persp, verts@, (width, height)).take(i as int + 1));
        }
        i = i + 1;
    }
    proof {
        assert(spec_project(*world, *persp, verts@, (width, height)).take(verts@.len() as int)
            =~= spec_project(*world, *persp, verts@, (width, height)));
    }
    r
}

/// The edge function: the signed parallelogram area of `(b - a, p - a)`,
/// with the sign convention of the coverage test (counterclockwise inside).
pub open spec fn spec_edge_at(a: RasterPoint, b: RasterPoint, px: int, py: int) -> int {
    -((px - a.x as int) * (b.y as int - a.y as int) - (py - a.y as int) * (b.x as int
        - a.x as int))
}

/// The doubled signed area of a triangle.
pub open spec fn spec_area(p0: RasterPoint, p1: RasterPoint, p2: RasterPoint) -> int {
    spec_edge_at(p0, p1, p2.x as int, p2.y as int)
}

/// Evaluate the edge function at a point.
fn edge_at(a: &RasterPoint, b: &RasterPoint, px: i64, py: i64) -> (e: i128)
    requires
        a.wf(),
        b.wf(),
        -RASTER_LIMIT <= px <= RASTER_LIMIT,
        -RASTER_LIMIT <= py <= RASTER_LIMIT,
    ensures
        e == spec_edge_at(*a, *b, px as int, py as int),
        -0x8000_0000_0000_0000 <= e <= 0x8000_0000_0000_0000,
{
    proof {
        crate::fixed::lemma_abs_mul_le(
            px as int - a.x as int,
            b.y as int - a.y as int,
            0x8000_0000,
            0x8000_0000,
        );
        crate::fixed::lemma_abs_mul_le(
            py as int - a.y as int,
            b.x as int - a.x as int,
            0x8000_0000,
            0x8000_0000,
        );
    }
    let t1: i128 = ((px - a.x) as i128) * ((b.y - a.y) as i128);
    let t2: i128 = ((py - a.y) as i128) * ((b.x - a.x) as i128);
    -(t1 - t2)
}

/// One inverse-depth term of the perspective-correct interpolation, with 32
/// fraction bits: `(e / area) * (1 / z)` where `z` carries 16 fraction bits.
pub open spec fn spec_inv_term(e: int, area: int, z: int) -> int {
    spec_trunc_div(e * 0x1_0000_0000_0000, area * z)
}

/// The interpolated inverse depth at a covered pixel, with 32 fraction bits.
pub open spec fn spec_inv_z(
    e0: int,
    e1: int,
    e2: int,
    area: int,
    z0: int,
    z1: int,
    z2: int,
) -> int {
    spec_inv_term(e0, area, z0) + spec_inv_term(e1, area, z1) + spec_inv_term(e2, area, z2)
}

/// Clamp an interpolated channel into a byte.
pub open spec fn spec_clamp255(v: int) -> int {
    if v < 0 {
        0
    } else if v > 255 {
        255
    } else {
        v
    }
}

/// One perspective-corrected color channel: the barycentric mix of the three
/// vertex channels, scaled by the interpolated depth as the correction
/// factor, rounded and clamped into a byte.
pub open spec fn spec_shade(
    z: int,
    e0: int,
    e1: int,
    e2: int,
    c0: int,
    c1: int,
    c2: int,
    area: int,
) -> int {
    spec_clamp255(crate::fixed::spec_round_div(z * (e0 * c0 + e1 * c1 + e2 * c2), area * 65536))
}

/// The state one triangle's scan threads through: the depth buffer and the
/// fill pixels emitted so far.
pub open spec fn spec_cell(
    p0: RasterPoint,
    p1: RasterPoint,
    p2: RasterPoint,
    a0: VertexAttribute,
    a1: VertexAttribute,
    a2: VertexAttribute,
    w: int,
    x: int,
    y: int,
    st: (Seq<i64>, Seq<Pixel>),
) -> (Seq<i64>, Seq<Pixel>) {
    let area = spec_area(p0, p1, p2);
    let e0 = spec_edge_at(p1, p2, x, y);
    let e1 = spec_edge_at(p2, p0, x, y);
    let e2 = spec_edge_at(p0, p1, x, y);
    if e0 >= 0 && e1 >= 0 && e2 >= 0 {
        let invz = spec_inv_z(e0, e1, e2, area, p0.z as int, p1.z as int, p2.z as int);
        if invz == 0 {
            st
        } else {
            let z = spec_trunc_div(0x1_0000_0000_0000, invz);
            let idx = y * w + x;
            if z < st.0[idx] as int {
                let col = Color {
                    r: spec_shade(z, e0, e1, e2, a0.color.r as int, a1.color.r as int, a2.color.r as int, area) as u8,
                    g: spec_shade(z, e0, e1, e2, a0.color.g as int, a1.color.g as int, a2.color.g as int, area) as u8,
                    b: spec_shade(z, e0, e1, e2, a0.color.b as int, a1.color.b as int, a2.color.b as int, area) as u8,
                    a: 255u8,
                };
                (st.0.update(idx, z as i64), st.1.push(Pixel { x: x as i32, y: y as i32, color: col }))
            } else {
                st
            }
        }
    } else {
        st
    }
}

/// Scan one bounding-box column segment, rows `y .. ye`.
pub open spec fn spec_scan_col(
    p0: RasterPoint,
    p1: RasterPoint,
    p2: RasterPoint,
    a0: VertexAttribute,
    a1: VertexAttribute,
    a2: VertexAttribute,
    w: int,
    x: int,
    y: int,
    ye: int,
    st: (Seq<i64>, Seq<Pixel>),
) -> (Seq<i64>, Seq<Pixel>)
    decreases ye - y,
{
    if y >= ye {
        st
    } else {
        spec_scan_col(
            p0,
            p1,
            p2,
            a0,
            a1,
            a2,
            w,
            x,
            y + 1,
            ye,
            spec_cell(p0, p1, p2, a0, a1, a2, w, x, y, st),
        )
    }
}

/// Scan the clipped bounding box, columns `x .. xe`.
pub open spec fn spec_scan_rows(
    p0: RasterPoint,
    p1: RasterPoint,
    p2: RasterPoint,
    a0: VertexAttribute,
    a1: VertexAttribute,
    a2: VertexAttribute,
    w: int,
    x: int,
    xe: int,
    ys: int,
    ye: int,
    st: (Seq<i64>, Seq<Pixel>),
) -> (Seq<i64>, Seq<Pixel>)
    decreases xe - x,
{
    if x >= xe {
        st
    } else {
        spec_scan_rows(
            p0,
            p1,
            p2,
            a0,
            a1,
            a2,
            w,
            x + 1,
            xe,
            ys,
            ye,
            spec_scan_col(p0, p1, p2, a0, a1, a2, w, x, ys, ye, st),
        )
    }
}

/// The smaller / larger of two ints.
pub open spec fn imin(a: int, b: int) -> int {
    if a < b {
        a
    } else {
        b
    }
}

pub open spec fn imax(a: int, b: int) -> int {
    if a > b {
        a
    } else {
        b
    }
}

/// One whole triangle: skipped when degenerate (zero signed area, so the
/// barycentric divide would be undefined) or when a vertex sits exactly on
/// the camera plane (zero fixed-point depth); otherwise its clipped
/// bounding box is scanned. The box is a half-open range: its maximum
/// column and row are not sampled.
pub open spec fn spec_raster_tri(
    p0: RasterPoint,
    p1: RasterPoint,
    p2: RasterPoint,
    a0: VertexAttribute,
    a1: VertexAttribute,
    a2: VertexAttribute,
    w: int,
    h: int,
    st: (Seq<i64>, Seq<Pixel>),
) -> (Seq<i64>, Seq<Pixel>) {
    let area = spec_area(p0, p1, p2);
    if area == 0 || p0.z == 0 || p1.z == 0 || p2.z == 0 {
        st
    } else {
        let xs = imax(imin(p0.x as int, imin(p1.x as int, p2.x as int)), 0);
        let xe = imin(imax(p0.x as int, imax(p1.x as int, p2.x as int)), w);
        let ys = imax(imin(p0.y as int, imin(p1.y as int, p2.y as int)), 0);
        let ye = imin(imax(p0.y as int, imax(p1.y as int, p2.y as int)), h);
        spec_scan_rows(p0, p1, p2, a0, a1, a2, w, xs, xe, ys, ye, st)
    }
}

/// Process one candidate pixel: coverage test, perspective-correct depth,
/// depth test, and shading.
fn raster_cell(
    p0: &RasterPoint,
    p1: &RasterPoint,
    p2: &RasterPoint,
    a0: VertexAttribute,
    a1: VertexAttribute,
    a2: VertexAttribute,
    w: u32,
    h: u32,
    x: i64,
    y: i64,
    depth: &mut Vec<i64>,
    pix: &mut Vec<Pixel>,
)
    requires
        p0.wf(),
        p1.wf(),
        p2.wf(),
        w <= 16384,
        h <= 16384,
        0 <= x < w,
        0 <= y < h,
        spec_area(*p0, *p1, *p2) != 0,
        p0.z != 0,
        p1.z != 0,
        p2.z != 0,
        old(depth)@.len() == w * h,
    ensures
        (final(depth)@, final(pix)@) == spec_cell(
            *p0,
            *p1,
            *p2,
            a0,
            a1,
            a2,
            w as int,
            x as int,
            y as int,
            (old(depth)@, old(pix)@),
        ),
        final(depth)@.len() == old(depth)@.len(),
{
    let e0 = edge_at(p1, p2, x, y);
    let e1 = edge_at(p2, p0, x, y);
    let e2 = edge_at(p0, p1, x, y);
    let area = edge_at(p0, p1, p2.x, p2.y);
    if e0 >= 0 && e1 >= 0 && e2 >= 0 {
        proof {
            crate::fixed::lemma_abs_mul_le(e0 as int, 0x1_0000_0000_0000, 0x8000_0000_0000_0000, 0x1_0000_0000_0000);
            crate::fixed::lemma_abs_mul_le(e1 as int, 0x1_0000_0000_0000, 0x8000_0000_0000_0000, 0x1_0000_0000_0000);
            crate::fixed::lemma_abs_mul_le(e2 as int, 0x1_0000_0000_0000, 0x8000_0000_0000_0000, 0x1_0000_0000_0000);
            crate::fixed::lemma_abs_mul_le(area as int, p0.z as int, 0x8000_0000_0000_0000, 0x80_0000_0000);
            crate::fixed::lemma_abs_mul_le(area as int, p1.z as int, 0x8000_0000_0000_0000, 0x80_0000_0000);
            crate::fixed::lemma_abs_mul_le(area as int, p2.z as int, 0x8000_0000_0000_0000, 0x80_0000_0000);
            assert(area as int * p0.z as int != 0 && area as int * p1.z as int != 0 && area as int
                * p2.z as int != 0) by (nonlinear_arith)
                requires
                    area != 0,
                    p0.z != 0,
                    p1.z != 0,
                    p2.z != 0,
            ;
            lemma_trunc_div_bound(e0 as int * 0x1_0000_0000_0000, area as int * p0.z as int);
            lemma_trunc_div_bound(e1 as int * 0x1_0000_0000_0000, area as int * p1.z as int);
            lemma_trunc_div_bound(e2 as int * 0x1_0000_0000_0000, area as int * p2.z as int);
        }
        let t0 = trunc_div_i128(e0 * 0x1_0000_0000_0000, area * (p0.z as i128));
        let t1 = trunc_div_i128(e1 * 0x1_0000_0000_0000, area * (p1.z as i128));
        let t2 = trunc_div_i128(e2 * 0x1_0000_0000_0000, area * (p2.z as i128));
        let invz = t0 + t1 + t2;
        if invz != 0 {
            proof {
                lemma_trunc_div_bound(0x1_0000_0000_0000, invz as int);
            }
            let z = trunc_div_i128(0x1_0000_0000_0000, invz);
            proof {
                crate::fixed::lemma_abs_mul_le(y as int, w as int, 16384, 16384);
                assert((y as int) * (w as int) + (x as int) < (w as int) * (h as int))
                    by (nonlinear_arith)
                    requires
                        0 <= x < w as int,
                        0 <= y < h as int,
                        w as int <= 16384,
                        h as int <= 16384,
                ;
                assert(0 <= (y as int) * (w as int) + (x as int)) by (nonlinear_arith)
                    requires
                        0 <= x,
                        0 <= y,
                        0 < w as int,
                ;
            }
            let idx = (y * (w as i64) + x) as usize;
            let dv = depth[idx];
            if z < dv as i128 {
                depth.set(idx, z as i64);
                let sr = shade_channel(z, e0, e1, e2, a0.color.r, a1.color.r, a2.color.r, area);
                let sg = shade_channel(z, e0, e1, e2, a0.color.g, a1.color.g, a2.color.g, area);
                let sb = shade_channel(z, e0, e1, e2, a0.color.b, a1.color.b, a2.color.b, area);
                pix.push(
                    Pixel {
                        x: x as i32,
                        y: y as i32,
                        color: Color { r: sr, g: sg, b: sb, a: 255 },
                    },
                );
            }
        }
    }
}

/// Rasterize one triangle: scan its clipped bounding box, depth-test every
/// covered pixel, and append the shaded fill pixels in scan order.
pub fn rasterize_triangle(
    p0: &RasterPoint,
    p1: &RasterPoint,
    p2: &RasterPoint,
    a0: VertexAttribute,
    a1: VertexAttribute,
    a2: VertexAttribute,
    w: u32,
    h: u32,
    depth: &mut Vec<i64>,
    pix: &mut Vec<Pixel>,
)
    requires
        p0.wf(),
        p1.wf(),
        p2.wf(),
        1 <= w <= 16384,
        1 <= h <= 16384,
        old(depth)@.len() == w * h,
    ensures
        (final(depth)@, final(pix)@) == spec_raster_tri(
            *p0,
            *p1,
            *p2,
            a0,
            a1,
            a2,
            w as int,
            h as int,
            (old(depth)@, old(pix)@),
        ),
        final(depth)@.len() == old(depth)@.len(),
{
    let area = edge_at(p0, p1, p2.x, p2.y);
    if area == 0 || p0.z == 0 || p1.z == 0 || p2.z == 0 {
        return ;
    }
    let minx = if p0.x < p1.x {
        if p0.x < p2.x {
            p0.x
        } else {
            p2.x
        }
    } else {
        if p1.x < p2.x {
            p1.x
        } else {
            p2.x
        }
    };
    let maxx = if p0.x > p1.x {
        if p0.x > p2.x {
            p0.x
        } else {
            p2.x
        }
    } else {
        if p1.x > p2.x {
            p1.x
        } else {
            p2.x
        }
    };
    let miny = if p0.y < p1.y {
        if p0.y < p2.y {
            p0.y
        } else {
            p2.y
        }
    } else {
        if p1.y < p2.y {
            p1.y
        } else {
            p2.y
        }
    };
    let maxy = if p0.y > p1.y {
        if p0.y > p2.y {
            p0.y
        } else {
            p2.y
        }
    } else {
        if p1.y > p2.y {
            p1.y
        } else {
            p2.y
        }
    };
    let xs: i64 = if minx > 0 {
        minx
    } else {
        0
    };
    let xe: i64 = if maxx < w as i64 {
        maxx
    } else {
        w as i64
    };
    let ys: i64 = if miny > 0 {
        miny
    } else {
        0
    };
    let ye: i64 = if maxy < h as i64 {
        maxy
    } else {
        h as i64
    };
    let ghost st0 = (old(depth)@, old(pix)@);
    let ghost target = spec_raster_tri(
        *p0,
        *p1,
        *p2,
        a0,
        a1,
        a2,
        w as int,
        h as int,
        st0,
    );
    let mut x = xs;
    while x < xe
        invariant
            p0.wf(),
            p1.wf(),
            p2.wf(),
            1 <= w <= 16384,
            1 <= h <= 16384,
            spec_area(*p0, *p1, *p2) != 0,
            p0.z != 0,
            p1.z != 0,
            p2.z != 0,
            0 <= xs <= x,
            xe <= w,
            0 <= ys,
            ye <= h,
            depth@.len() == w * h,
            spec_scan_rows(
                *p0,
                *p1,
                *p2,
                a0,
                a1,
                a2,
                w as int,
                x as int,
                xe as int,
                ys as int,
                ye as int,
                (depth@, pix@),
            ) == target,
        decreases xe - x,
    {
        let ghost row_start = (depth@, pix@);
        let mut y = ys;
        while y < ye
            invariant
                p0.wf(),
                p1.wf(),
                p2.wf(),
                1 <= w <= 16384,
                1 <= h <= 16384,
                spec_area(*p0, *p1, *p2) != 0,
                p0.z != 0,
                p1.z != 0,
                p2.z != 0,
                0 <= xs <= x < xe <= w,
                0 <= ys <= y,
                ye <= h,
                depth@.len() == w * h,
                spec_scan_col(
                    *p0,
                    *p1,
                    *p2,
                    a0,
                    a1,
                    a2,
                    w as int,
                    x as int,
                    y as int,
                    ye as int,
                    (depth@, pix@),
                ) == spec_scan_col(
                    *p0,
                    *p1,
                    *p2,
                    a0,
                    a1,
                    a2,
                    w as int,
                    x as int,
                    ys as int,
                    ye as int,
                    row_start,
                ),
            decreases ye - y,
        {
            raster_cell(p0, p1, p2, a0, a1, a2, w, h, x, y, depth, pix);
            y = y + 1;
        }
        proof {
            assert(spec_scan_rows(
                *p0,
                *p1,
                *p2,
                a0,
                a1,
                a2,
                w as int,
                x as int,
                xe as int,
                ys as int,
                ye as int,
                row_start,
            ) == spec_scan_rows(
                *p0,
                *p1,
                *p2,
                a0,
                a1,
                a2,
                w as int,
                x as int + 1,
                xe as int,
                ys as int,
                ye as int,
                (depth@, pix@),
            ));
        }
        x = x + 1;
    }
}

/// One shaded channel at runtime.
fn shade_channel(z: i128, e0: i128, e1: i128, e2: i128, c0: u8, c1: u8, c2: u8, area: i128) -> (r:
    u8)
    requires
        area != 0,
        -0x1_0000_0000_0000 <= z <= 0x1_0000_0000_0000,
        -0x8000_0000_0000_0000 <= e0 <= 0x8000_0000_0000_0000,
        -0x8000_0000_0000_0000 <= e1 <= 0x8000_0000_0000_0000,
        -0x8000_0000_0000_0000 <= e2 <= 0x8000_0000_0000_0000,
        -0x8000_0000_0000_0000 <= area <= 0x8000_0000_0000_0000,
    ensures
        r as int == spec_shade(
            z as int,
            e0 as int,
            e1 as int,
            e2 as int,
            c0 as int,
            c1 as int,
            c2 as int,
            area as int,
        ),
{
    proof {
        crate::fixed::lemma_abs_mul_le(e0 as int, c0 as int, 0x8000_0000_0000_0000, 255);
        crate::fixed::lemma_abs_mul_le(e1 as int, c1 as int, 0x8000_0000_0000_0000, 255);
        crate::fixed::lemma_abs_mul_le(e2 as int, c2 as int, 0x8000_0000_0000_0000, 255);
    }
    let s: i128 = e0 * (c0 as i128) + e1 * (c1 as i128) + e2 * (c2 as i128);
    proof {
        crate::fixed::lemma_abs_mul_le(z as int, s as int, 0x1_0000_0000_0000, 0x2FD_0000_0000_0000_0000);
        crate::fixed::lemma_abs_mul_le(area as int, 65536, 0x8000_0000_0000_0000, 65536);
        assert(area as int * 65536 != 0) by (nonlinear_arith)
            requires
                area != 0,
        ;
    }
    let num: i128 = z * s;
    let den: i128 = area * 65536;
    let v = crate::fixed::round_div_i128(num, den);
    if v < 0 {
        0
    } else if v > 255 {
        255
    } else {
        v as u8
    }
}

/// The interpolated depth a triangle assigns to a covered pixel.
pub open spec fn spec_cell_z(
    p0: RasterPoint,
    p1: RasterPoint,
    p2: RasterPoint,
    x: int,
    y: int,
) -> int {
    let area = spec_area(p0, p1, p2);
    let e0 = spec_edge_at(p1, p2, x, y);
    let e1 = spec_edge_at(p2, p0, x, y);
    let e2 = spec_edge_at(p0, p1, x, y);
    spec_trunc_div(
        0x1_0000_0000_0000,
        spec_inv_z(e0, e1, e2, area, p0.z as int, p1.z as int, p2.z as int),
    )
}

/// Does a triangle cover the pixel, with a usable inverse depth?
pub open spec fn spec_cell_covers(
    p0: RasterPoint,
    p1: RasterPoint,
    p2: RasterPoint,
    x: int,
    y: int,
) -> bool {
    let area = spec_area(p0, p1, p2);
    let e0 = spec_edge_at(p1, p2, x, y);
    let e1 = spec_edge_at(p2, p0, x, y);
    let e2 = spec_edge_at(p0, p1, x, y);
    e0 >= 0 && e1 >= 0 && e2 >= 0 && spec_inv_z(e0, e1, e2, area, p0.z as int, p1.z as int, p2.z as int) != 0
}

/// Depth-buffer law: when two triangles both cover a pixel whose stored
/// depth they both beat, the nearer triangle's fragment is the last one
/// emitted and its depth is the one recorded, whichever triangle is drawn
/// first. Since fill fragments are fully opaque, source-over compositing
/// then shows the nearer triangle's color in either draw order.
pub proof fn lemma_depth_order_two_triangles(
    q0: RasterPoint,
    q1: RasterPoint,
    q2: RasterPoint,
    b0: VertexAttribute,
    b1: VertexAttribute,
    b2: VertexAttribute,
    r0: RasterPoint,
    r1: RasterPoint,
    r2: RasterPoint,
    c0: VertexAttribute,
    c1: VertexAttribute,
    c2: VertexAttribute,
    w: int,
    x: int,
    y: int,
    st0: (Seq<i64>, Seq<Pixel>),
)
    requires
        0 <= x <= 16384,
        0 <= y <= 16384,
        spec_cell_covers(q0, q1, q2, x, y),
        spec_cell_covers(r0, r1, r2, x, y),
        spec_cell_z(q0, q1, q2, x, y) < spec_cell_z(r0, r1, r2, x, y),
        0 <= y * w + x < st0.0.len(),
        spec_cell_z(q0, q1, q2, x, y) < st0.0[y * w + x] as int,
        spec_cell_z(r0, r1, r2, x, y) < st0.0[y * w + x] as int,
        -0x1_0000_0000_0000 <= spec_cell_z(q0, q1, q2, x, y) <= 0x1_0000_0000_0000,
        -0x1_0000_0000_0000 <= spec_cell_z(r0, r1, r2, x, y) <= 0x1_0000_0000_0000,
    ensures
        ({
            let near_first = spec_cell(
                r0,
                r1,
                r2,
                c0,
                c1,
                c2,
                w,
                x,
                y,
                spec_cell(q0, q1, q2, b0, b1, b2, w, x, y, st0),
            );
            let far_first = spec_cell(
                q0,
                q1,
                q2,
                b0,
                b1,
                b2,
                w,
                x,
                y,
                spec_cell(r0, r1, r2, c0, c1, c2, w, x, y, st0),
            );
            &&& near_first.0[y * w + x] as int == spec_cell_z(q0, q1, q2, x, y)
            &&& far_first.0[y * w + x] as int == spec_cell_z(q0, q1, q2, x, y)
            &&& near_first.1.len() == st0.1.len() + 1
            &&& far_first.1.len() == st0.1.len() + 2
            &&& near_first.1.last() == far_first.1.last()
            &&& near_first.1.last().x as int == x && near_first.1.last().y as int == y
            &&& near_first.1.last().color.a == 255
        }),
{
    let idx = y * w + x;
    let zq = spec_cell_z(q0, q1, q2, x, y);
    let zr = spec_cell_z(r0, r1, r2, x, y);
    let st_q = spec_cell(q0, q1, q2, b0, b1, b2, w, x, y, st0);
    assert(st_q.0[idx] as int == zq);
    assert(st_q.1.len() == st0.1.len() + 1);
    let st_qr = spec_cell(r0, r1, r2, c0, c1, c2, w, x, y, st_q);
    assert(!(zr < st_q.0[idx] as int));
    assert(st_qr == st_q);
    let st_r = spec_cell(r0, r1, r2, c0, c1, c2, w, x, y, st0);
    assert(st_r.0[idx] as int == zr);
    assert(st_r.1.len() == st0.1.len() + 1);
    let st_rq = spec_cell(q0, q1, q2, b0, b1, b2, w, x, y, st_r);
    assert(zq < st_r.0[idx] as int);
    assert(st_rq.0[idx] as int == zq);
    assert(st_rq.1.len() == st0.1.len() + 2);
    assert(st_rq.1.last() == st_q.1.last());
}

/// The fill pass of one mesh: its triangles rasterized in index order, all
/// sharing the depth buffer.
pub open spec fn spec_raster_mesh(
    points: Seq<RasterPoint>,
    attrs: Seq<VertexAttribute>,
    indices: Seq<(usize, usize, usize)>,
    w: int,
    h: int,
    ti: int,
    st: (Seq<i64>, Seq<Pixel>),
) -> (Seq<i64>, Seq<Pixel>)
    decreases indices.len() - ti,
{
    if ti < 0 || ti >= indices.len() {
        st
    } else {
        let t = indices[ti];
        spec_raster_mesh(
            points,
            attrs,
            indices,
            w,
            h,
            ti + 1,
            spec_raster_tri(
                points[t.0 as int],
                points[t.1 as int],
                points[t.2 as int],
                attrs[t.0 as int],
                attrs[t.1 as int],
                attrs[t.2 as int],
                w,
                h,
                st,
            ),
        )
    }
}

/// The fixed overlay color every wireframe edge is drawn with.
pub open spec fn spec_wire_color() -> Color {
    Color { r: 178u8, g: 128u8, b: 153u8, a: 255u8 }
}

fn wire_color() -> (c: Color)
    ensures
        c == spec_wire_color(),
{
    Color { r: 178, g: 128, b: 153, a: 255 }
}

/// The wireframe pixels of one triangle: its three edges drawn by the Wu
/// line through the closed path `A -> B -> C -> A`.
pub open spec fn spec_tri_wire(points: Seq<RasterPoint>, t: (usize, usize, usize)) -> Seq<Pixel> {
    let a = ((points[t.0 as int].x as i32), (points[t.0 as int].y as i32));
    let b = ((points[t.1 as int].x as i32), (points[t.1 as int].y as i32));
    let c = ((points[t.2 as int].x as i32), (points[t.2 as int].y as i32));
    path_pixels::<WuLine>(seq![a, b, c, a], Seq::empty(), spec_wire_color())
}

/// The wireframe pixels of the first `n` triangles, in order.
pub open spec fn spec_wire_upto(
    points: Seq<RasterPoint>,
    indices: Seq<(usize, usize, usize)>,
    n: int,
) -> Seq<Pixel>
    decreases n,
{
    if n <= 0 {
        Seq::empty()
    } else {
        spec_wire_upto(points, indices, n - 1) + spec_tri_wire(points, indices[n - 1])
    }
}

/// The whole render: for each object, project its vertices, run the fill
/// pass through the shared depth buffer, then append its wireframe overlay.
pub open spec fn spec_render_steps(
    world: Mat4x,
    persp: Mat4x,
    objects: Seq<Mesh3D>,
    dims: (u32, u32),
    oi: int,
    depth: Seq<i64>,
    px: Seq<Pixel>,
) -> (Seq<i64>, Seq<Pixel>)
    decreases objects.len() - oi,
{
    if oi < 0 || oi >= objects.len() {
        (depth, px)
    } else {
        let obj = objects[oi];
        let pts = spec_project(world, persp, obj.vertices@, dims);
        let fill = spec_raster_mesh(
            pts,
            obj.attributes@,
            obj.indices@,
            dims.0 as int,
            dims.1 as int,
            0,
            (depth, Seq::empty()),
        );
        spec_render_steps(
            world,
            persp,
            objects,
            dims,
            oi + 1,
            fill.0,
            px + fill.1 + spec_wire_upto(pts, obj.indices@, obj.indices@.len() as int),
        )
    }
}

/// Every pixel one frame of the 3D renderer hands to the compositor: fill
/// pixels and wireframe overlay per object, in draw order, starting from a
/// depth buffer cleared to "infinitely far".
pub open spec fn spec_render_pixels(camera: Camera, objects: Seq<Mesh3D>, dims: (u32, u32)) -> Seq<
    Pixel,
> {
    spec_render_steps(
        camera.transform,
        spec_perspective(camera, dims),
        objects,
        dims,
        0,
        Seq::new((dims.0 * dims.1) as nat, |i: int| i64::MAX),
        Seq::empty(),
    ).1
}

/// The 3D renderer.
pub struct Rasterizer {
    pub output_width: u32,
    pub output_height: u32,
}

impl Renderer for Rasterizer {
    type Renderable = Mesh3D;

    open spec fn render_req(&self, camera: Camera, objects: Seq<Mesh3D>, frame: Seq<u8>) -> bool {
        &&& camera.wf()
        &&& 1 <= self.output_width <= 16384
        &&& 1 <= self.output_height <= 16384
        &&& forall|i: int| 0 <= i < objects.len() ==> (#[trigger] objects[i]).wf()
    }

    open spec fn render_ens(
        &self,
        camera: Camera,
        objects: Seq<Mesh3D>,
        old_frame: Seq<u8>,
        frame: Seq<u8>,
    ) -> bool {
        frame == spec_put_pixels(
            spec_clear(old_frame),
            self.output_width as int,
            self.output_height as int,
            spec_render_pixels(camera, objects, (self.output_width, self.output_height)),
        )
    }

    open spec fn spec_output_dimensions(&self) -> (u32, u32) {
        (self.output_width, self.output_height)
    }

    #[verifier::rlimit(50)]
    fn render(&self, camera: &Camera, objects: &Vec<Mesh3D>, frame: &mut Vec<u8>) {
        let w = self.output_width;
        let h = self.output_height;
        let persp = perspective_matrix(camera, w, h);
        let world = camera.transform;
        proof {
            crate::fixed::lemma_abs_mul_le(w as int, h as int, 16384, 16384);
        }
        let n: usize = (w as usize) * (h as usize);
        let mut depth: Vec<i64> = Vec::new();
        let mut di: usize = 0;
        while di < n
            invariant
                0 <= di <= n,
                depth@.len() == di,
                forall|j: int| 0 <= j < di ==> depth@[j] == i64::MAX,
            decreases n - di,
        {
            depth.push(i64::MAX);
            di = di + 1;
        }
        proof {
            assert(depth@ =~= Seq::new((w * h) as nat, |i: int| i64::MAX));
        }
        let ghost depth0 = depth@;
        let ghost target = spec_render_steps(
            world,
            persp,
            objects@,
            (w, h),
            0,
            depth0,
            Seq::<Pixel>::empty(),
        );
        let mut shapes: Vec<Shape2D> = Vec::new();
        let mut oi: usize = 0;
        while oi < objects.len()
            invariant
                0 <= oi <= objects@.len(),
                camera.wf(),
                1 <= w <= 16384,
                1 <= h <= 16384,
                persp == spec_perspective(*camera, (w, h)),
                persp.wf(),
                world == camera.transform,
                world.wf(),
                forall|i: int| 0 <= i < objects@.len() ==> (#[trigger] objects@[i]).wf(),
                depth@.len() == w * h,
                spec_render_steps(
                    world,
                    persp,
                    objects@,
                    (w, h),
                    oi as int,
                    depth@,
                    spec_shapes_pixels(shapes@),
                ) == target,
            decreases objects@.len() - oi,
        {
            let obj = &objects[oi];
            let pts = project_vertices(&world, &persp, &obj.vertices, w, h);
            let ghost depth_in = depth@;
            let ghost shapes_px_in = spec_shapes_pixels(shapes@);
            let mut fill: Vec<Pixel> = Vec::new();
            let mut ti: usize = 0;
            while ti < obj.indices.len()
                invariant
                    0 <= ti <= obj.indices@.len(),
                    obj == &objects@[oi as int],
                    0 <= oi < objects@.len(),
                    obj.wf(),
                    1 <= w <= 16384,
                    1 <= h <= 16384,
                    pts@ == spec_project(world, persp, obj.vertices@, (w, h)),
                    pts@.len() == obj.vertices@.len(),
                    forall|j: int| 0 <= j < pts@.len() ==> (#[trigger] pts@[j]).wf(),
                    depth@.len() == w * h,
                    spec_raster_mesh(
                        pts@,
                        obj.attributes@,
                        obj.indices@,
                        w as int,
                        h as int,
                        ti as int,
                        (depth@, fill@),
                    ) == spec_raster_mesh(
                        pts@,
                        obj.attributes@,
                        obj.indices@,
                        w as int,
                        h as int,
                        0,
                        (depth_in, Seq::<Pixel>::empty()),
                    ),
                decreases obj.indices@.len() - ti,
            {
                let t = obj.indices[ti];
                let pa = pts[t.0];
                let pb = pts[t.1];
                let pc = pts[t.2];
                rasterize_triangle(
                    &pa,
                    &pb,
                    &pc,
                    obj.attributes[t.0],
                    obj.attributes[t.1],
                    obj.attributes[t.2],
                    w,
                    h,
                    &mut depth,
                    &mut fill,
                );
                ti = ti + 1;
            }
            let ghost fill_spec = spec_raster_mesh(
                pts@,
                obj.attributes@,
                obj.indices@,
                w as int,
                h as int,
                0,
                (depth_in, Seq::<Pixel>::empty()),
            );
            proof {
                assert((depth@, fill@) == fill_spec);
            }
            let ghost fill_snap = fill@;
            let ghost shapes_pre = shapes@;
            shapes.push(Shape2D::Complex(fill));
            proof {
                crate::renderer::drawifier::lemma_shapes_pixels_push(shapes_pre, shapes@.last());
                assert(shapes@ == shapes_pre.push(shapes@.last()));
                assert(shapes@.last().spec_pixels() == fill_snap);
                assert(spec_shapes_pixels(shapes@) == shapes_px_in + fill_snap);
            }
            let mut wi: usize = 0;
            while wi < obj.indices.len()
                invariant
                    0 <= wi <= obj.indices@.len(),
                    obj == &objects@[oi as int],
                    0 <= oi < objects@.len(),
                    obj.wf(),
                    1 <= w <= 16384,
                    1 <= h <= 16384,
                    pts@ == spec_project(world, persp, obj.vertices@, (w, h)),
                    pts@.len() == obj.vertices@.len(),
                    forall|j: int| 0 <= j < pts@.len() ==> (#[trigger] pts@[j]).wf(),
                    depth@.len() == w * h,
                    spec_shapes_pixels(shapes@) == shapes_px_in + fill_snap + spec_wire_upto(
                        pts@,
                        obj.indices@,
                        wi as int,
                    ),
                decreases obj.indices@.len() - wi,
            {
                let t = obj.indices[wi];
                let pa = pts[t.0];
                let pb = pts[t.1];
                let pc = pts[t.2];
                let a: (i32, i32) = (pa.x as i32, pa.y as i32);
                let b: (i32, i32) = (pb.x as i32, pb.y as i32);
                let c: (i32, i32) = (pc.x as i32, pc.y as i32);
                let builder = LineBuilder::<WuLine>::new().color(
                    wire_color(),
                ).from(a).to(b).to(c).close();
                proof {
                    assert(builder.points@ =~= seq![a, b, c, a]);
                }
                let sh = builder.shape();
                let ghost shapes_pre2 = shapes@;
                shapes.push(sh);
                proof {
                    crate::renderer::drawifier::lemma_shapes_pixels_push(
                        shapes_pre2,
                        shapes@.last(),
                    );
                    assert(shapes@ == shapes_pre2.push(shapes@.last()));
                    assert(sh.spec_pixels() == spec_tri_wire(pts@, obj.indices@[wi as int]));
                    assert((shapes_px_in + fill_snap + spec_wire_upto(pts@, obj.indices@, wi as int))
                        + spec_tri_wire(pts@, obj.indices@[wi as int]) =~= shapes_px_in + fill_snap
                        + spec_wire_upto(pts@, obj.indices@, wi as int + 1));
                }
                wi = wi + 1;
            }
            proof {
                assert(spec_render_steps(
                    world,
                    persp,
                    objects@,
                    (w, h),
                    oi as int,
                    depth_in,
                    shapes_px_in,
                ) == spec_render_steps(
                    world,
                    persp,
                    objects@,
                    (w, h),
                    oi as int + 1,
                    depth@,
                    spec_shapes_pixels(shapes@),
                ));
            }
            oi = oi + 1;
        }
        let d = Drawifier { output_width: w, output_height: h };
        d.render(camera, &shapes, frame);
    }

    fn set_output_dimensions(&mut self, width: u32, height: u32) {
        self.output_width = width;
        self.output_height = height;
    }
}

} // verus!
