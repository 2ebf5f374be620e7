use crate::camera::{lemma_rotate_bound, pose_wf, rotate, rotate_spec, transform_point,
    transform_point_spec, Pose};
use crate::error::{SurfelReconsResult, SurfelReconstError};
use crate::math::{
    bounded3, div_trunc, div_trunc_i128, dot3, is_unit3, lemma_mul_le, lemma_wavg_same, mul_i128,
    norm_sq3, unitize, unitize_opt, unitize_opt_spec, unitize_spec, wavg, wavg3, wavg3_spec,
    wavg_int, Vec3, CONF_CAP, NORMAL_COMP_LIMIT, NORM_ONE, NORM_SQ_ONE, NORM_TOL, POS_LIMIT,
    RADIUS_LIMIT, SAMPLE_POS_LIMIT, UNIT_CAND_LIMIT,
};
use crate::rgb::ColorRgb;
use vstd::prelude::*;

verus! {

/// Base confidence granted to a sample observed at zero depth; confidence
/// falls off with squared camera-frame distance.
pub const CONF_BASE: u32 = 256;

/// One range-image sample in the camera frame: a point with its estimated
/// normal, color, patch radius, and an optional sparse-feature identity.
/// Invalid samples (sensor dropout) carry `valid == false`.
#[derive(Debug, Clone, Copy, PartialEq, Eq, Structural)]
pub struct Sample {
    pub valid: bool,
    pub position: Vec3,
    pub normal: Vec3,
    pub color: ColorRgb,
    pub radius: i64,
    pub feature: Option<u64>,
}

/// A valid sample keeps its geometry within the fixed-point ranges.
pub open spec fn sample_wf(s: Sample) -> bool {
    s.valid ==> {
        &&& bounded3(s.position, SAMPLE_POS_LIMIT as int)
        &&& is_unit3(s.normal)
        &&& 0 < s.radius <= RADIUS_LIMIT
    }
}

/// An oriented disc patch of the reconstructed surface.
#[derive(Debug, Clone, Copy, PartialEq, Eq, Structural)]
pub struct Surfel {
    /// Center, world frame.
    pub position: Vec3,
    /// Unit surface orientation, scaled by [`NORM_ONE`].
    pub normal: Vec3,
    /// Physical extent of the patch.
    pub radius: i64,
    /// Fused color estimate.
    pub color: ColorRgb,
    /// Fusion weight; grows while the surfel keeps being matched.
    pub confidence: u32,
    /// Frame index of the most recent successful match.
    pub last_seen: u64,
    /// Frame index of instantiation.
    pub created_at: u64,
    /// Sparse-feature identity observed at creation or the latest update.
    pub feature_ref: Option<u64>,
}

/// The per-surfel invariant: positive bounded radius, unit normal,
/// positive capped confidence, and coherent frame stamps.
pub open spec fn surfel_valid(s: Surfel) -> bool {
    &&& bounded3(s.position, POS_LIMIT as int)
    &&& is_unit3(s.normal)
    &&& 0 < s.radius <= RADIUS_LIMIT
    &&& 1 <= s.confidence <= CONF_CAP
    &&& s.created_at <= s.last_seen
}

/// Turns accepted range-image samples into fresh surfels.
///
/// `min_frontal_cos` is the smallest accepted cosine (scaled by
/// [`NORM_ONE`]) of the angle between a sample's normal and the ray back
/// toward the camera; flatter samples are rejected as grazing.
/// `conf_falloff` divides the squared camera-frame distance when the
/// initial confidence is attenuated with depth.
#[derive(Debug, Clone, Copy, PartialEq, Eq, Structural)]
pub struct SurfelBuilder {
    pub min_frontal_cos: i64,
    pub conf_falloff: i64,
}

pub open spec fn builder_wf(b: SurfelBuilder) -> bool {
    &&& 0 <= b.min_frontal_cos <= NORM_ONE
    &&& b.conf_falloff >= 1
}

/// The grazing-angle gate: the sample faces the camera, and the squared
/// cosine of the angle between its normal and the viewing ray is at least
/// the squared configured threshold (both sides carry the fixed-point
/// scale, so no square root is needed).
pub open spec fn frontal_ok(min_cos: int, p: Vec3, n: Vec3) -> bool {
    let d = -dot3(p, n);
    &&& d > 0
    &&& (d * (NORM_ONE as int)) * (d * (NORM_ONE as int)) >= ((min_cos * min_cos) * norm_sq3(n))
        * norm_sq3(p)
}

/// Initial confidence of a sample: [`CONF_BASE`] attenuated by the squared
/// camera-frame distance divided by the builder's falloff, floored at 1.
pub open spec fn init_confidence_spec(b: SurfelBuilder, p: Vec3) -> u32 {
    let pen = div_trunc(norm_sq3(p), b.conf_falloff as int);
    if pen >= CONF_BASE - 1 {
        1u32
    } else {
        (CONF_BASE - pen) as u32
    }
}

/// Whether a sample yields a surfel: it is valid, passes the grazing gate,
/// and its rotated normal renormalizes.
pub open spec fn sample_accepted(b: SurfelBuilder, s: Sample, pose: Pose) -> bool {
    &&& s.valid
    &&& frontal_ok(b.min_frontal_cos as int, s.position, s.normal)
    &&& unitize_opt_spec(rotate_spec(pose, s.normal)) is Some
}

/// The surfel built from an accepted sample.
pub open spec fn build_spec(b: SurfelBuilder, s: Sample, pose: Pose, frame: u64) -> Option<
    Surfel,
> {
    if sample_accepted(b, s, pose) {
        Some(
            Surfel {
                position: transform_point_spec(pose, s.position),
                normal: unitize_opt_spec(rotate_spec(pose, s.normal)).unwrap(),
                radius: s.radius,
                color: s.color,
                confidence: init_confidence_spec(b, s.position),
                last_seen: frame,
                created_at: frame,
                feature_ref: s.feature,
            },
        )
    } else {
        None
    }
}

impl SurfelBuilder {
    /// Builds a sample-to-surfel builder, rejecting configurations outside
    /// the documented ranges.
    pub fn new(min_frontal_cos: i64, conf_falloff: i64) -> (r: SurfelReconsResult<SurfelBuilder>)
        ensures
            r is Ok <==> builder_wf(SurfelBuilder { min_frontal_cos, conf_falloff }),
            r is Ok ==> r.unwrap() == (SurfelBuilder { min_frontal_cos, conf_falloff }),
    {
        if 0 <= min_frontal_cos && min_frontal_cos <= NORM_ONE && conf_falloff >= 1 {
            Ok(SurfelBuilder { min_frontal_cos, conf_falloff })
        } else {
            Err(
                SurfelReconstError::InvalidArgument(
                    ("surfel builder thresholds out of range").to_string(),
                ),
            )
        }
    }

    /// Runtime grazing-angle gate.
    fn frontal_check(&self, s: &Sample) -> (r: bool)
        requires
            builder_wf(*self),
            sample_wf(*s),
            s.valid,
        ensures
            r == frontal_ok(self.min_frontal_cos as int, s.position, s.normal),
    {
        proof {
            lemma_mul_le(s.position.x as int, s.normal.x as int, SAMPLE_POS_LIMIT as int,
                NORMAL_COMP_LIMIT as int);
            lemma_mul_le(s.position.y as int, s.normal.y as int, SAMPLE_POS_LIMIT as int,
                NORMAL_COMP_LIMIT as int);
            lemma_mul_le(s.position.z as int, s.normal.z as int, SAMPLE_POS_LIMIT as int,
                NORMAL_COMP_LIMIT as int);
        }
        let dd = s.position.dot(&s.normal);
        let d = -dd;
        if d <= 0 {
            return false;
        }
        proof {
            lemma_mul_le(d as int, NORM_ONE as int, 0xC000_0000_0000, NORM_ONE as int);
            lemma_mul_le(self.min_frontal_cos as int, self.min_frontal_cos as int,
                NORM_ONE as int, NORM_ONE as int);
            lemma_mul_le(s.position.x as int, s.position.x as int, SAMPLE_POS_LIMIT as int,
                SAMPLE_POS_LIMIT as int);
            lemma_mul_le(s.position.y as int, s.position.y as int, SAMPLE_POS_LIMIT as int,
                SAMPLE_POS_LIMIT as int);
            lemma_mul_le(s.position.z as int, s.position.z as int, SAMPLE_POS_LIMIT as int,
                SAMPLE_POS_LIMIT as int);
        }
        let dk = mul_i128(d, NORM_ONE as i128);
        let lhs = mul_i128(dk, dk);
        let mc2 = mul_i128(self.min_frontal_cos as i128, self.min_frontal_cos as i128);
        let nn = s.normal.norm_sq();
        let m1 = mul_i128(mc2, nn);
        proof {
            lemma_mul_le(mc2 as int, nn as int, 1048576, 1056768);
        }
        let pp = s.position.norm_sq();
        let rhs = mul_i128(m1, pp);
        lhs >= rhs
    }

    /// Runtime initial-confidence model.
    fn init_confidence(&self, p: &Vec3) -> (r: u32)
        requires
            builder_wf(*self),
            bounded3(*p, SAMPLE_POS_LIMIT as int),
        ensures
            r == init_confidence_spec(*self, *p),
            1 <= r <= CONF_BASE,
    {
        proof {
            lemma_mul_le(p.x as int, p.x as int, SAMPLE_POS_LIMIT as int, SAMPLE_POS_LIMIT as int);
            lemma_mul_le(p.y as int, p.y as int, SAMPLE_POS_LIMIT as int, SAMPLE_POS_LIMIT as int);
            lemma_mul_le(p.z as int, p.z as int, SAMPLE_POS_LIMIT as int, SAMPLE_POS_LIMIT as int);
        }
        let pp = p.norm_sq();
        let pen = div_trunc_i128(pp, self.conf_falloff as i128);
        if pen >= (CONF_BASE - 1) as i128 {
            1u32
        } else {
            (CONF_BASE as i128 - pen) as u32
        }
    }

    /// Builds a surfel from one range-image sample, or nothing when the
    /// sample is invalid, grazing, or numerically degenerate.
    pub fn build(&self, s: &Sample, pose: &Pose, frame: u64) -> (r: Option<Surfel>)
        requires
            builder_wf(*self),
            sample_wf(*s),
            pose_wf(*pose),
        ensures
            r == build_spec(*self, *s, *pose, frame),
            r is Some <==> sample_accepted(*self, *s, *pose),
            r is Some ==> surfel_valid(r.unwrap()) && r.unwrap().created_at == frame
                && r.unwrap().last_seen == frame,
    {
        if !s.valid {
            return None;
        }
        if !self.frontal_check(s) {
            return None;
        }
        proof {
            lemma_rotate_bound(*pose, s.normal, NORMAL_COMP_LIMIT as int);
        }
        let ncand = rotate(pose, &s.normal);
        match unitize_opt(&ncand) {
            None => None,
            Some(wn) => {
                let wp = transform_point(pose, &s.position);
                let conf = self.init_confidence(&s.position);
                Some(
                    Surfel {
                        position: wp,
                        normal: wn,
                        radius: s.radius,
                        color: s.color,
                        confidence: conf,
                        last_seen: frame,
                        created_at: frame,
                        feature_ref: s.feature,
                    },
                )
            },
        }
    }
}

/// Fused color: each channel is the confidence-weighted average.
pub open spec fn fuse_color_spec(c: int, a: ColorRgb, nc: int, b: ColorRgb) -> ColorRgb {
    ColorRgb {
        r: wavg_int(c, a.r as int, nc, b.r as int) as u8,
        g: wavg_int(c, a.g as int, nc, b.g as int) as u8,
        b: wavg_int(c, a.b as int, nc, b.b as int) as u8,
    }
}

/// Fused confidence: the sum, capped at [`CONF_CAP`].
pub open spec fn fuse_confidence_spec(c: u32, nc: u32) -> u32 {
    if c + nc > CONF_CAP {
        CONF_CAP
    } else {
        (c + nc) as u32
    }
}

/// The merge of an observation surfel `o` into an existing surfel `s`:
/// position, normal and color move toward the observation in proportion to
/// its confidence (the normal renormalized, keeping the old normal when the
/// average degenerates), the radius shrinks to the finer of the two
/// estimates, the confidence is the capped sum, and the match is stamped
/// with the current frame.
pub open spec fn fuse_spec(s: Surfel, o: Surfel, frame: u64) -> Surfel {
    Surfel {
        position: wavg3_spec(s.confidence as int, s.position, o.confidence as int, o.position),
        normal: unitize_spec(
            wavg3_spec(s.confidence as int, s.normal, o.confidence as int, o.normal),
            s.normal,
        ),
        radius: if o.radius < s.radius {
            o.radius
        } else {
            s.radius
        },
        color: fuse_color_spec(s.confidence as int, s.color, o.confidence as int, o.color),
        confidence: fuse_confidence_spec(s.confidence, o.confidence),
        last_seen: frame,
        created_at: s.created_at,
        feature_ref: if o.feature_ref is Some {
            o.feature_ref
        } else {
            s.feature_ref
        },
    }
}

/// Merges an observation into an existing surfel.
pub fn fuse(s: &Surfel, o: &Surfel, frame: u64) -> (r: Surfel)
    requires
        surfel_valid(*s),
        surfel_valid(*o),
        s.created_at <= frame,
    ensures
        r == fuse_spec(*s, *o, frame),
        surfel_valid(r),
        r.created_at == s.created_at,
        r.last_seen == frame,
{
    let position = wavg3(s.confidence, &s.position, o.confidence, &o.position);
    let ncand = wavg3(s.confidence, &s.normal, o.confidence, &o.normal);
    let normal = unitize(&ncand, &s.normal);
    let radius = if o.radius < s.radius {
        o.radius
    } else {
        s.radius
    };
    let cr = wavg(s.confidence, s.color.r as i64, o.confidence, o.color.r as i64);
    let cg = wavg(s.confidence, s.color.g as i64, o.confidence, o.color.g as i64);
    let cb = wavg(s.confidence, s.color.b as i64, o.confidence, o.color.b as i64);
    let sum = s.confidence as u64 + o.confidence as u64;
    let confidence = if sum > CONF_CAP as u64 {
        CONF_CAP
    } else {
        sum as u32
    };
    Surfel {
        position,
        normal,
        radius,
        color: ColorRgb { r: cr as u8, g: cg as u8, b: cb as u8 },
        confidence,
        last_seen: frame,
        created_at: s.created_at,
        feature_ref: if o.feature_ref.is_some() {
            o.feature_ref
        } else {
            s.feature_ref
        },
    }
}

/// Merging an observation that coincides with a surfel's current estimate
/// leaves position, normal, color and radius unchanged and strictly raises
/// the confidence until it reaches the cap.
pub proof fn lemma_fuse_identical(s: Surfel, o: Surfel, frame: u64)
    requires
        surfel_valid(s),
        surfel_valid(o),
        o.position == s.position,
        o.normal == s.normal,
        o.color == s.color,
        o.radius == s.radius,
    ensures
        fuse_spec(s, o, frame).position == s.position,
        fuse_spec(s, o, frame).normal == s.normal,
        fuse_spec(s, o, frame).color == s.color,
        fuse_spec(s, o, frame).radius == s.radius,
        s.confidence < CONF_CAP ==> fuse_spec(s, o, frame).confidence > s.confidence,
        fuse_spec(s, o, frame).confidence <= CONF_CAP,
{
    let c = s.confidence as int;
    let nc = o.confidence as int;
    lemma_wavg_same(c, s.position.x as int, nc);
    lemma_wavg_same(c, s.position.y as int, nc);
    lemma_wavg_same(c, s.position.z as int, nc);
    lemma_wavg_same(c, s.normal.x as int, nc);
    lemma_wavg_same(c, s.normal.y as int, nc);
    lemma_wavg_same(c, s.normal.z as int, nc);
    lemma_wavg_same(c, s.color.r as int, nc);
    lemma_wavg_same(c, s.color.g as int, nc);
    lemma_wavg_same(c, s.color.b as int, nc);
    assert(wavg3_spec(c, s.position, nc, o.position) == s.position);
    assert(wavg3_spec(c, s.normal, nc, o.normal) == s.normal);
    assert(fuse_color_spec(c, s.color, nc, o.color) == s.color);
}

} // verus!
