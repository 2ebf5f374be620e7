use crate::error::{SurfelReconsResult, SurfelReconstError};
use crate::math::{
    bounded3, div_trunc, div_trunc_i128, dot3, lemma_div_trunc_le_bound, lemma_mul_le, mul_i128,
    Vec3, NORM_ONE, POS_LIMIT, SAMPLE_POS_LIMIT,
};
use vstd::prelude::*;

verus! {

/// Bound on the translation part of a pose, chosen so that a transformed
/// sample stays within [`POS_LIMIT`].
pub const TRANS_LIMIT: i64 = 0x2000_0000;

/// Bound on focal lengths (pixels).
pub const FOCAL_LIMIT: i64 = 0x10_0000;

/// Bound on the magnitude of principal-point coordinates (pixels).
pub const CENTER_LIMIT: i64 = 0x10_0000;

/// Bound on sensor width and height (pixels).
pub const SENSOR_DIM_LIMIT: usize = 16384;

/// Bound on the components of a camera-frame point computed from a
/// world-frame point.
pub const CAM_COORD_LIMIT: i64 = 0x1_2000_0000;

/// A rigid camera-to-world transform: the three rows of the rotation
/// matrix, each scaled by [`NORM_ONE`], and a translation in world units.
#[derive(Debug, Clone, Copy, PartialEq, Eq, Structural)]
pub struct Pose {
    pub r0: Vec3,
    pub r1: Vec3,
    pub r2: Vec3,
    pub t: Vec3,
}

pub open spec fn pose_wf(p: Pose) -> bool {
    &&& bounded3(p.r0, NORM_ONE as int)
    &&& bounded3(p.r1, NORM_ONE as int)
    &&& bounded3(p.r2, NORM_ONE as int)
    &&& bounded3(p.t, TRANS_LIMIT as int)
}

/// Rotation part of a pose applied to a vector, with the fixed-point scale
/// divided back out.
pub open spec fn rotate_spec(p: Pose, v: Vec3) -> Vec3 {
    Vec3 {
        x: div_trunc(dot3(p.r0, v), NORM_ONE as int) as i64,
        y: div_trunc(dot3(p.r1, v), NORM_ONE as int) as i64,
        z: div_trunc(dot3(p.r2, v), NORM_ONE as int) as i64,
    }
}

/// Full rigid transform of a camera-frame point into the world frame.
pub open spec fn transform_point_spec(p: Pose, v: Vec3) -> Vec3 {
    let r = rotate_spec(p, v);
    Vec3 { x: (r.x + p.t.x) as i64, y: (r.y + p.t.y) as i64, z: (r.z + p.t.z) as i64 }
}

/// Inverse transform of a world-frame point into the camera frame, using
/// the transpose of the rotation rows.
pub open spec fn world_to_cam_spec(p: Pose, w: Vec3) -> Vec3 {
    let dx = w.x - p.t.x;
    let dy = w.y - p.t.y;
    let dz = w.z - p.t.z;
    Vec3 {
        x: div_trunc(p.r0.x * dx + p.r1.x * dy + p.r2.x * dz, NORM_ONE as int) as i64,
        y: div_trunc(p.r0.y * dx + p.r1.y * dy + p.r2.y * dz, NORM_ONE as int) as i64,
        z: div_trunc(p.r0.z * dx + p.r1.z * dy + p.r2.z * dz, NORM_ONE as int) as i64,
    }
}

impl Pose {
    /// Builds a pose, rejecting entries outside the fixed-point ranges.
    pub fn new(r0: Vec3, r1: Vec3, r2: Vec3, t: Vec3) -> (r: SurfelReconsResult<Pose>)
        ensures
            r is Ok <==> pose_wf(Pose { r0, r1, r2, t }),
            r is Ok ==> r.unwrap() == (Pose { r0, r1, r2, t }),
    {
        let p = Pose { r0, r1, r2, t };
        if in_box(&r0, NORM_ONE) && in_box(&r1, NORM_ONE) && in_box(&r2, NORM_ONE) && in_box(
            &t,
            TRANS_LIMIT,
        ) {
            Ok(p)
        } else {
            Err(SurfelReconstError::InvalidArgument(("pose entries out of range").to_string()))
        }
    }

    /// The identity transform.
    pub fn identity() -> (r: Pose)
        ensures
            r == (Pose {
                r0: Vec3 { x: NORM_ONE, y: 0, z: 0 },
                r1: Vec3 { x: 0, y: NORM_ONE, z: 0 },
                r2: Vec3 { x: 0, y: 0, z: NORM_ONE },
                t: Vec3 { x: 0, y: 0, z: 0 },
            }),
            pose_wf(r),
    {
        Pose {
            r0: Vec3 { x: NORM_ONE, y: 0, z: 0 },
            r1: Vec3 { x: 0, y: NORM_ONE, z: 0 },
            r2: Vec3 { x: 0, y: 0, z: NORM_ONE },
            t: Vec3 { x: 0, y: 0, z: 0 },
        }
    }
}

fn in_box(v: &Vec3, lim: i64) -> (r: bool)
    requires
        lim >= 0,
    ensures
        r == bounded3(*v, lim as int),
{
    -lim <= v.x && v.x <= lim && -lim <= v.y && v.y <= lim && -lim <= v.z && v.z <= lim
}

/// Applies the rotation part of `p` to `v`.
pub fn rotate(p: &Pose, v: &Vec3) -> (r: Vec3)
    requires
        pose_wf(*p),
        bounded3(*v, SAMPLE_POS_LIMIT as int),
    ensures
        r == rotate_spec(*p, *v),
        bounded3(r, 3 * SAMPLE_POS_LIMIT as int),
{
    let dx = p.r0.dot(v);
    let dy = p.r1.dot(v);
    let dz = p.r2.dot(v);
    proof {
        lemma_rotate_row_bound(p.r0, *v);
        lemma_rotate_row_bound(p.r1, *v);
        lemma_rotate_row_bound(p.r2, *v);
    }
    let qx = div_trunc_i128(dx, NORM_ONE as i128);
    let qy = div_trunc_i128(dy, NORM_ONE as i128);
    let qz = div_trunc_i128(dz, NORM_ONE as i128);
    Vec3 { x: qx as i64, y: qy as i64, z: qz as i64 }
}

/// A rotation row applied to a bounded vector divides back to a bounded
/// coordinate.
proof fn lemma_rotate_row_bound(row: Vec3, v: Vec3)
    requires
        bounded3(row, NORM_ONE as int),
        bounded3(v, SAMPLE_POS_LIMIT as int),
    ensures
        -(NORM_ONE as int) * (3 * SAMPLE_POS_LIMIT as int) <= dot3(row, v) <= (NORM_ONE as int) * (
        3 * SAMPLE_POS_LIMIT as int),
        -(3 * SAMPLE_POS_LIMIT as int) <= div_trunc(dot3(row, v), NORM_ONE as int) <= 3
            * SAMPLE_POS_LIMIT as int,
{
    lemma_mul_le(row.x as int, v.x as int, NORM_ONE as int, SAMPLE_POS_LIMIT as int);
    lemma_mul_le(row.y as int, v.y as int, NORM_ONE as int, SAMPLE_POS_LIMIT as int);
    lemma_mul_le(row.z as int, v.z as int, NORM_ONE as int, SAMPLE_POS_LIMIT as int);
    assert((NORM_ONE as int) * (3 * SAMPLE_POS_LIMIT as int) == 3 * ((NORM_ONE as int) * (
    SAMPLE_POS_LIMIT as int))) by (nonlinear_arith);
    lemma_div_trunc_le_bound(dot3(row, v), NORM_ONE as int, 3 * SAMPLE_POS_LIMIT as int);
}

/// Rotation keeps a component bound: a vector bounded by `m` rotates to a
/// vector bounded by `3 * m`.
pub proof fn lemma_rotate_bound(p: Pose, v: Vec3, m: int)
    requires
        pose_wf(p),
        bounded3(v, m),
        0 <= m <= 0x1000_0000,
    ensures
        bounded3(rotate_spec(p, v), 3 * m),
{
    lemma_rotate_bound_row(p.r0, v, m);
    lemma_rotate_bound_row(p.r1, v, m);
    lemma_rotate_bound_row(p.r2, v, m);
}

proof fn lemma_rotate_bound_row(row: Vec3, v: Vec3, m: int)
    requires
        bounded3(row, NORM_ONE as int),
        bounded3(v, m),
        0 <= m <= 0x1000_0000,
    ensures
        -(3 * m) <= div_trunc(dot3(row, v), NORM_ONE as int) <= 3 * m,
{
    lemma_mul_le(row.x as int, v.x as int, NORM_ONE as int, m);
    lemma_mul_le(row.y as int, v.y as int, NORM_ONE as int, m);
    lemma_mul_le(row.z as int, v.z as int, NORM_ONE as int, m);
    assert((NORM_ONE as int) * (3 * m) == 3 * ((NORM_ONE as int) * m)) by (nonlinear_arith);
    lemma_div_trunc_le_bound(dot3(row, v), NORM_ONE as int, 3 * m);
}

/// Transforms a camera-frame point into the world frame.
pub fn transform_point(p: &Pose, v: &Vec3) -> (r: Vec3)
    requires
        pose_wf(*p),
        bounded3(*v, SAMPLE_POS_LIMIT as int),
    ensures
        r == transform_point_spec(*p, *v),
        bounded3(r, POS_LIMIT as int),
{
    let q = rotate(p, v);
    Vec3 { x: q.x + p.t.x, y: q.y + p.t.y, z: q.z + p.t.z }
}

/// Transforms a world-frame point into the camera frame.
pub fn world_to_cam(p: &Pose, w: &Vec3) -> (r: Vec3)
    requires
        pose_wf(*p),
        bounded3(*w, POS_LIMIT as int),
    ensures
        r == world_to_cam_spec(*p, *w),
        bounded3(r, CAM_COORD_LIMIT as int),
{
    let dx = (w.x as i128) - (p.t.x as i128);
    let dy = (w.y as i128) - (p.t.y as i128);
    let dz = (w.z as i128) - (p.t.z as i128);
    proof {
        lemma_col_bound(p.r0.x as int, p.r1.x as int, p.r2.x as int, dx as int, dy as int,
            dz as int);
        lemma_col_bound(p.r0.y as int, p.r1.y as int, p.r2.y as int, dx as int, dy as int,
            dz as int);
        lemma_col_bound(p.r0.z as int, p.r1.z as int, p.r2.z as int, dx as int, dy as int,
            dz as int);
        let lim = POS_LIMIT as int + TRANS_LIMIT as int;
        lemma_mul_le(p.r0.x as int, dx as int, NORM_ONE as int, lim);
        lemma_mul_le(p.r1.x as int, dy as int, NORM_ONE as int, lim);
        lemma_mul_le(p.r2.x as int, dz as int, NORM_ONE as int, lim);
        lemma_mul_le(p.r0.y as int, dx as int, NORM_ONE as int, lim);
        lemma_mul_le(p.r1.y as int, dy as int, NORM_ONE as int, lim);
        lemma_mul_le(p.r2.y as int, dz as int, NORM_ONE as int, lim);
        lemma_mul_le(p.r0.z as int, dx as int, NORM_ONE as int, lim);
        lemma_mul_le(p.r1.z as int, dy as int, NORM_ONE as int, lim);
        lemma_mul_le(p.r2.z as int, dz as int, NORM_ONE as int, lim);
    }
    let nx = mul_i128(p.r0.x as i128, dx) + mul_i128(p.r1.x as i128, dy) + mul_i128(
        p.r2.x as i128,
        dz,
    );
    let ny = mul_i128(p.r0.y as i128, dx) + mul_i128(p.r1.y as i128, dy) + mul_i128(
        p.r2.y as i128,
        dz,
    );
    let nz = mul_i128(p.r0.z as i128, dx) + mul_i128(p.r1.z as i128, dy) + mul_i128(
        p.r2.z as i128,
        dz,
    );
    let qx = div_trunc_i128(nx, NORM_ONE as i128);
    let qy = div_trunc_i128(ny, NORM_ONE as i128);
    let qz = div_trunc_i128(nz, NORM_ONE as i128);
    Vec3 { x: qx as i64, y: qy as i64, z: qz as i64 }
}

/// Bounds one camera-frame coordinate built from a rotation column.
proof fn lemma_col_bound(a: int, b: int, c: int, dx: int, dy: int, dz: int)
    requires
        -(NORM_ONE as int) <= a <= NORM_ONE as int,
        -(NORM_ONE as int) <= b <= NORM_ONE as int,
        -(NORM_ONE as int) <= c <= NORM_ONE as int,
        -(POS_LIMIT as int + TRANS_LIMIT as int) <= dx <= POS_LIMIT as int + TRANS_LIMIT as int,
        -(POS_LIMIT as int + TRANS_LIMIT as int) <= dy <= POS_LIMIT as int + TRANS_LIMIT as int,
        -(POS_LIMIT as int + TRANS_LIMIT as int) <= dz <= POS_LIMIT as int + TRANS_LIMIT as int,
    ensures
        -(NORM_ONE as int) * (CAM_COORD_LIMIT as int) <= a * dx + b * dy + c * dz <= (
        NORM_ONE as int) * (CAM_COORD_LIMIT as int),
        -(CAM_COORD_LIMIT as int) <= div_trunc(a * dx + b * dy + c * dz, NORM_ONE as int) <= (
        CAM_COORD_LIMIT as int),
{
    let lim = POS_LIMIT as int + TRANS_LIMIT as int;
    lemma_mul_le(a, dx, NORM_ONE as int, lim);
    lemma_mul_le(b, dy, NORM_ONE as int, lim);
    lemma_mul_le(c, dz, NORM_ONE as int, lim);
    assert((NORM_ONE as int) * (CAM_COORD_LIMIT as int) == 3 * ((NORM_ONE as int) * lim))
        by (nonlinear_arith)
        requires
            lim == POS_LIMIT as int + TRANS_LIMIT as int,
    ;
    lemma_div_trunc_le_bound(a * dx + b * dy + c * dz, NORM_ONE as int, CAM_COORD_LIMIT as int);
    assert((NORM_ONE as int) * (CAM_COORD_LIMIT as int) == (CAM_COORD_LIMIT as int) * (
    NORM_ONE as int)) by (nonlinear_arith);
}

/// Inverse rotation of a direction (no translation), using the transpose
/// of the rotation rows.
pub open spec fn rotate_t_spec(p: Pose, v: Vec3) -> Vec3 {
    Vec3 {
        x: div_trunc(p.r0.x * v.x + p.r1.x * v.y + p.r2.x * v.z, NORM_ONE as int) as i64,
        y: div_trunc(p.r0.y * v.x + p.r1.y * v.y + p.r2.y * v.z, NORM_ONE as int) as i64,
        z: div_trunc(p.r0.z * v.x + p.r1.z * v.y + p.r2.z * v.z, NORM_ONE as int) as i64,
    }
}

/// Rotates a direction from the world frame into the camera frame.
pub fn rotate_transpose(p: &Pose, v: &Vec3) -> (r: Vec3)
    requires
        pose_wf(*p),
        bounded3(*v, crate::math::NORMAL_COMP_LIMIT as int),
    ensures
        r == rotate_t_spec(*p, *v),
        bounded3(r, 3 * crate::math::NORMAL_COMP_LIMIT as int),
{
    proof {
        lemma_dir_col_bound(p.r0.x as int, p.r1.x as int, p.r2.x as int, v.x as int, v.y as int,
            v.z as int);
        lemma_dir_col_bound(p.r0.y as int, p.r1.y as int, p.r2.y as int, v.x as int, v.y as int,
            v.z as int);
        lemma_dir_col_bound(p.r0.z as int, p.r1.z as int, p.r2.z as int, v.x as int, v.y as int,
            v.z as int);
        let lim = crate::math::NORMAL_COMP_LIMIT as int;
        lemma_mul_le(p.r0.x as int, v.x as int, NORM_ONE as int, lim);
        lemma_mul_le(p.r1.x as int, v.y as int, NORM_ONE as int, lim);
        lemma_mul_le(p.r2.x as int, v.z as int, NORM_ONE as int, lim);
        lemma_mul_le(p.r0.y as int, v.x as int, NORM_ONE as int, lim);
        lemma_mul_le(p.r1.y as int, v.y as int, NORM_ONE as int, lim);
        lemma_mul_le(p.r2.y as int, v.z as int, NORM_ONE as int, lim);
        lemma_mul_le(p.r0.z as int, v.x as int, NORM_ONE as int, lim);
        lemma_mul_le(p.r1.z as int, v.y as int, NORM_ONE as int, lim);
        lemma_mul_le(p.r2.z as int, v.z as int, NORM_ONE as int, lim);
    }
    let nx = mul_i128(p.r0.x as i128, v.x as i128) + mul_i128(p.r1.x as i128, v.y as i128)
        + mul_i128(p.r2.x as i128, v.z as i128);
    let ny = mul_i128(p.r0.y as i128, v.x as i128) + mul_i128(p.r1.y as i128, v.y as i128)
        + mul_i128(p.r2.y as i128, v.z as i128);
    let nz = mul_i128(p.r0.z as i128, v.x as i128) + mul_i128(p.r1.z as i128, v.y as i128)
        + mul_i128(p.r2.z as i128, v.z as i128);
    let qx = div_trunc_i128(nx, NORM_ONE as i128);
    let qy = div_trunc_i128(ny, NORM_ONE as i128);
    let qz = div_trunc_i128(nz, NORM_ONE as i128);
    Vec3 { x: qx as i64, y: qy as i64, z: qz as i64 }
}

/// Bounds one rotated direction coordinate built from a rotation column.
proof fn lemma_dir_col_bound(a: int, b: int, c: int, vx: int, vy: int, vz: int)
    requires
        -(NORM_ONE as int) <= a <= NORM_ONE as int,
        -(NORM_ONE as int) <= b <= NORM_ONE as int,
        -(NORM_ONE as int) <= c <= NORM_ONE as int,
        -(crate::math::NORMAL_COMP_LIMIT as int) <= vx <= crate::math::NORMAL_COMP_LIMIT as int,
        -(crate::math::NORMAL_COMP_LIMIT as int) <= vy <= crate::math::NORMAL_COMP_LIMIT as int,
        -(crate::math::NORMAL_COMP_LIMIT as int) <= vz <= crate::math::NORMAL_COMP_LIMIT as int,
    ensures
        -(NORM_ONE as int) * (3 * crate::math::NORMAL_COMP_LIMIT as int) <= a * vx + b * vy + c
            * vz <= (NORM_ONE as int) * (3 * crate::math::NORMAL_COMP_LIMIT as int),
        -(3 * crate::math::NORMAL_COMP_LIMIT as int) <= div_trunc(
            a * vx + b * vy + c * vz,
            NORM_ONE as int,
        ) <= 3 * crate::math::NORMAL_COMP_LIMIT as int,
{
    let lim = crate::math::NORMAL_COMP_LIMIT as int;
    lemma_mul_le(a, vx, NORM_ONE as int, lim);
    lemma_mul_le(b, vy, NORM_ONE as int, lim);
    lemma_mul_le(c, vz, NORM_ONE as int, lim);
    assert((NORM_ONE as int) * (3 * lim) == 3 * ((NORM_ONE as int) * lim)) by (nonlinear_arith);
    lemma_div_trunc_le_bound(a * vx + b * vy + c * vz, NORM_ONE as int, 3 * lim);
}

/// A pinhole camera: intrinsics in pixel units plus a camera-to-world pose.
#[derive(Debug, Clone, Copy, PartialEq, Eq, Structural)]
pub struct Camera {
    pub fx: i64,
    pub fy: i64,
    pub cx: i64,
    pub cy: i64,
    pub width: usize,
    pub height: usize,
    pub pose: Pose,
}

pub open spec fn camera_wf(c: Camera) -> bool {
    &&& 1 <= c.fx <= FOCAL_LIMIT
    &&& 1 <= c.fy <= FOCAL_LIMIT
    &&& -CENTER_LIMIT <= c.cx <= CENTER_LIMIT
    &&& -CENTER_LIMIT <= c.cy <= CENTER_LIMIT
    &&& 1 <= c.width <= SENSOR_DIM_LIMIT
    &&& 1 <= c.height <= SENSOR_DIM_LIMIT
    &&& pose_wf(c.pose)
}

impl Camera {
    /// Builds a camera, rejecting degenerate intrinsics.
    pub fn new(fx: i64, fy: i64, cx: i64, cy: i64, width: usize, height: usize, pose: Pose) -> (r:
        SurfelReconsResult<Camera>)
        ensures
            r is Ok <==> camera_wf(Camera { fx, fy, cx, cy, width, height, pose }),
            r is Ok ==> r.unwrap() == (Camera { fx, fy, cx, cy, width, height, pose }),
    {
        let c = Camera { fx, fy, cx, cy, width, height, pose };
        if 1 <= fx && fx <= FOCAL_LIMIT && 1 <= fy && fy <= FOCAL_LIMIT && -CENTER_LIMIT <= cx && cx
            <= CENTER_LIMIT && -CENTER_LIMIT <= cy && cy <= CENTER_LIMIT && 1 <= width && width
            <= SENSOR_DIM_LIMIT && 1 <= height && height <= SENSOR_DIM_LIMIT && in_box(
            &pose.r0,
            NORM_ONE,
        ) && in_box(&pose.r1, NORM_ONE) && in_box(&pose.r2, NORM_ONE) && in_box(
            &pose.t,
            TRANS_LIMIT,
        ) {
            Ok(c)
        } else {
            Err(SurfelReconstError::InvalidArgument(("camera configuration out of range").to_string()))
        }
    }
}

/// Whether a world-frame point projects into the camera's image rectangle
/// with positive depth.
pub open spec fn in_frustum_spec(c: Camera, w: Vec3) -> bool {
    let p = world_to_cam_spec(c.pose, w);
    &&& p.z >= 1
    &&& 0 <= div_trunc(p.x * c.fx, p.z as int) + c.cx < c.width
    &&& 0 <= div_trunc(p.y * c.fy, p.z as int) + c.cy < c.height
}

/// Runtime frustum test for a world-frame point.
pub fn in_frustum(c: &Camera, w: &Vec3) -> (r: bool)
    requires
        camera_wf(*c),
        bounded3(*w, POS_LIMIT as int),
    ensures
        r == in_frustum_spec(*c, *w),
{
    let p = world_to_cam(&c.pose, w);
    if p.z < 1 {
        return false;
    }
    proof {
        lemma_mul_le(p.x as int, c.fx as int, CAM_COORD_LIMIT as int, FOCAL_LIMIT as int);
        lemma_mul_le(p.y as int, c.fy as int, CAM_COORD_LIMIT as int, FOCAL_LIMIT as int);
    }
    let u = div_trunc_i128(mul_i128(p.x as i128, c.fx as i128), p.z as i128) + (c.cx as i128);
    let v = div_trunc_i128(mul_i128(p.y as i128, c.fy as i128), p.z as i128) + (c.cy as i128);
    0 <= u && u < (c.width as i128) && 0 <= v && v < (c.height as i128)
}

} // verus!
