use crate::camera::{
    camera_wf, in_frustum, in_frustum_spec, rotate_t_spec, rotate_transpose, world_to_cam,
    world_to_cam_spec, Camera, CAM_COORD_LIMIT, FOCAL_LIMIT, SENSOR_DIM_LIMIT,
};
use crate::error::{SurfelReconsResult, SurfelReconstError};
use crate::math::{
    bounded3, dist_sq3, div_trunc, div_trunc_i128, dot3, is_unit3, lemma_mul_le, mul_i128,
    unitize_opt, unitize_opt_spec, Vec3, NORM_SQ_ONE, NORM_TOL, POS_LIMIT, SAMPLE_POS_LIMIT,
};
use crate::model::{first_free, SlotId, SurfelModel};
use crate::surfel::{
    build_spec, builder_wf, fuse, fuse_spec, sample_wf, surfel_valid, Sample, Surfel,
    SurfelBuilder,
};
use vstd::prelude::*;

verus! {

/// Tuning knobs of one fusion step.
///
/// `match_distance_tolerance` is the largest world-frame distance between a
/// sample and a surfel that still counts as a correspondence (compared by
/// squares). `match_angle_tolerance` is the smallest accepted dot product
/// of their unit normals, carrying the squared fixed-point scale, so
/// `NORM_SQ_ONE` demands exact agreement and `0` tolerates up to a right
/// angle. `stability_window` is the minimum age, in frames, before a surfel
/// may be retired; `staleness_limit` the number of unmatched in-view frames
/// after which it is. `scale_factor` subsamples the frame by that stride in
/// both axes before fusion.
#[derive(Debug, Clone, Copy, PartialEq, Eq, Structural)]
pub struct SurfelFusionParameters {
    pub max_surfels_per_frame: usize,
    pub match_distance_tolerance: i64,
    pub match_angle_tolerance: i64,
    pub stability_window: u64,
    pub staleness_limit: u64,
    pub scale_factor: usize,
}

pub open spec fn params_wf(p: SurfelFusionParameters) -> bool {
    &&& 1 <= p.match_distance_tolerance <= POS_LIMIT
    &&& -(NORM_SQ_ONE + NORM_TOL) <= p.match_angle_tolerance <= NORM_SQ_ONE + NORM_TOL
    &&& p.staleness_limit >= 1
    &&& p.scale_factor >= 1
}

impl SurfelFusionParameters {
    /// Builds a parameter set, rejecting degenerate tolerances.
    pub fn new(
        max_surfels_per_frame: usize,
        match_distance_tolerance: i64,
        match_angle_tolerance: i64,
        stability_window: u64,
        staleness_limit: u64,
        scale_factor: usize,
    ) -> (r: SurfelReconsResult<SurfelFusionParameters>)
        ensures
            r is Ok <==> params_wf(
                SurfelFusionParameters {
                    max_surfels_per_frame,
                    match_distance_tolerance,
                    match_angle_tolerance,
                    stability_window,
                    staleness_limit,
                    scale_factor,
                },
            ),
            r is Ok ==> r.unwrap() == (SurfelFusionParameters {
                max_surfels_per_frame,
                match_distance_tolerance,
                match_angle_tolerance,
                stability_window,
                staleness_limit,
                scale_factor,
            }),
    {
        let p = SurfelFusionParameters {
            max_surfels_per_frame,
            match_distance_tolerance,
            match_angle_tolerance,
            stability_window,
            staleness_limit,
            scale_factor,
        };
        if 1 <= match_distance_tolerance && match_distance_tolerance <= POS_LIMIT && -(NORM_SQ_ONE
            + NORM_TOL) <= match_angle_tolerance && match_angle_tolerance <= NORM_SQ_ONE + NORM_TOL
            && staleness_limit >= 1 && scale_factor >= 1 {
            Ok(p)
        } else {
            Err(
                SurfelReconstError::InvalidArgument(
                    ("fusion parameters out of range").to_string(),
                ),
            )
        }
    }
}

impl Default for SurfelFusionParameters {
    /// Moderate defaults: a generous per-frame budget, a tight distance
    /// tolerance, normals within roughly thirty degrees, and ten-frame
    /// stability and staleness horizons at full resolution.
    fn default() -> (r: SurfelFusionParameters)
        ensures
            r == (SurfelFusionParameters {
                max_surfels_per_frame: 4096,
                match_distance_tolerance: 32,
                match_angle_tolerance: 908000,
                stability_window: 10,
                staleness_limit: 10,
                scale_factor: 1,
            }),
            params_wf(r),
    {
        SurfelFusionParameters {
            max_surfels_per_frame: 4096,
            match_distance_tolerance: 32,
            match_angle_tolerance: 908000,
            stability_window: 10,
            staleness_limit: 10,
            scale_factor: 1,
        }
    }
}

/// One frame of range samples on a fixed `width x height` grid, stored in
/// row-major order.
pub struct RangeImage {
    pub width: usize,
    pub height: usize,
    pub samples: Vec<Sample>,
}

pub open spec fn frame_wf(f: RangeImage) -> bool {
    &&& 1 <= f.width <= SENSOR_DIM_LIMIT
    &&& 1 <= f.height <= SENSOR_DIM_LIMIT
    &&& f.samples@.len() == f.width as int * f.height as int
    &&& forall|i: int| 0 <= i < f.samples@.len() ==> sample_wf(#[trigger] f.samples@[i])
}

/// Runtime check of the per-sample ranges.
pub fn sample_ok(s: &Sample) -> (r: bool)
    ensures
        r == sample_wf(*s),
{
    if !s.valid {
        return true;
    }
    let p = &s.position;
    let n = &s.normal;
    let lim = crate::math::SAMPLE_POS_LIMIT;
    let nlim = crate::math::NORMAL_COMP_LIMIT;
    -lim <= p.x && p.x <= lim && -lim <= p.y && p.y <= lim && -lim <= p.z && p.z <= lim
        && -nlim <= n.x && n.x <= nlim && -nlim <= n.y && n.y <= nlim && -nlim <= n.z && n.z <= nlim
        && s.normal.is_unit() && 0 < s.radius && s.radius <= crate::math::RADIUS_LIMIT
}

impl RangeImage {
    /// Assembles a frame, rejecting mismatched dimensions or samples whose
    /// geometry leaves the fixed-point ranges.
    pub fn new(width: usize, height: usize, samples: Vec<Sample>) -> (r: SurfelReconsResult<
        RangeImage,
    >)
        ensures
            r is Ok <==> frame_wf(RangeImage { width, height, samples: samples }),
            r is Ok ==> r.unwrap().width == width && r.unwrap().height == height && r.unwrap()
                .samples@ == samples@,
    {
        if width < 1 || width > SENSOR_DIM_LIMIT || height < 1 || height > SENSOR_DIM_LIMIT {
            return Err(
                SurfelReconstError::InvalidArgument(("frame dimensions out of range").to_string()),
            );
        }
        proof {
            lemma_mul_le(width as int, height as int, 16384, 16384);
        }
        let expect: usize = width * height;
        if samples.len() != expect {
            return Err(
                SurfelReconstError::InvalidArgument(
                    ("frame sample count does not match its dimensions").to_string(),
                ),
            );
        }
        let n = samples.len();
        let mut i: usize = 0;
        while i < n
            invariant
                i <= n,
                n == samples@.len(),
                forall|k: int| 0 <= k < i as int ==> sample_wf(#[trigger] samples@[k]),
            decreases n - i,
        {
            if !sample_ok(&samples[i]) {
                return Err(
                    SurfelReconstError::InvalidArgument(
                        ("frame sample out of numeric range").to_string(),
                    ),
                );
            }
            i = i + 1;
        }
        Ok(RangeImage { width, height, samples })
    }
}

/// Counts reported by one fusion step: samples merged into existing
/// surfels, surfels newly created, surfels retired (for reuse or by the
/// staleness sweep), and samples dropped because the model was full with
/// no eligible retirement candidate.
#[derive(Debug, Clone, Copy, PartialEq, Eq, Structural)]
pub struct FusionStats {
    pub matched: usize,
    pub created: usize,
    pub retired: usize,
    pub dropped: usize,
}

/// Whether a surfel is an acceptable correspondence for a world-frame
/// sample at `wp` with unit normal `wn`.
pub open spec fn slot_matches(s: Surfel, wp: Vec3, wn: Vec3, p: SurfelFusionParameters) -> bool {
    &&& dist_sq3(s.position, wp) <= p.match_distance_tolerance * p.match_distance_tolerance
    &&& dot3(s.normal, wn) >= p.match_angle_tolerance
}

/// The best correspondence among the first `k` slots: smallest distance,
/// earliest slot on ties.
pub open spec fn best_plain(
    m: Seq<Option<Surfel>>,
    k: int,
    wp: Vec3,
    wn: Vec3,
    p: SurfelFusionParameters,
) -> Option<int>
    decreases k,
{
    if k <= 0 {
        None
    } else {
        let prev = best_plain(m, k - 1, wp, wn, p);
        let cur = k - 1;
        if m[cur] is Some && slot_matches(m[cur].unwrap(), wp, wn, p) {
            match prev {
                None => Some(cur),
                Some(q) => if dist_sq3(m[cur].unwrap().position, wp) < dist_sq3(
                    m[q].unwrap().position,
                    wp,
                ) {
                    Some(cur)
                } else {
                    Some(q)
                },
            }
        } else {
            prev
        }
    }
}

/// The best correspondence among the first `k` slots that also carries the
/// sparse-feature identity `f`.
pub open spec fn best_feat(
    m: Seq<Option<Surfel>>,
    k: int,
    wp: Vec3,
    wn: Vec3,
    f: u64,
    p: SurfelFusionParameters,
) -> Option<int>
    decreases k,
{
    if k <= 0 {
        None
    } else {
        let prev = best_feat(m, k - 1, wp, wn, f, p);
        let cur = k - 1;
        if m[cur] is Some && slot_matches(m[cur].unwrap(), wp, wn, p) && m[cur].unwrap().feature_ref
            == Some(f) {
            match prev {
                None => Some(cur),
                Some(q) => if dist_sq3(m[cur].unwrap().position, wp) < dist_sq3(
                    m[q].unwrap().position,
                    wp,
                ) {
                    Some(cur)
                } else {
                    Some(q)
                },
            }
        } else {
            prev
        }
    }
}

/// The correspondence chosen for a sample: a surfel carrying the same
/// sparse-feature identity is preferred; otherwise the closest compatible
/// surfel.
pub open spec fn best_match(
    m: Seq<Option<Surfel>>,
    wp: Vec3,
    wn: Vec3,
    feat: Option<u64>,
    p: SurfelFusionParameters,
) -> Option<int> {
    match feat {
        Some(f) => match best_feat(m, m.len() as int, wp, wn, f, p) {
            Some(i) => Some(i),
            None => best_plain(m, m.len() as int, wp, wn, p),
        },
        None => best_plain(m, m.len() as int, wp, wn, p),
    }
}

/// A chosen correspondence is a live, matching slot.
pub proof fn lemma_best_plain_valid(
    m: Seq<Option<Surfel>>,
    k: int,
    wp: Vec3,
    wn: Vec3,
    p: SurfelFusionParameters,
)
    requires
        k <= m.len(),
        best_plain(m, k, wp, wn, p) is Some,
    ensures
        0 <= best_plain(m, k, wp, wn, p).unwrap() < k,
        m[best_plain(m, k, wp, wn, p).unwrap()] is Some,
        slot_matches(m[best_plain(m, k, wp, wn, p).unwrap()].unwrap(), wp, wn, p),
    decreases k,
{
    if k > 0 {
        if best_plain(m, k - 1, wp, wn, p) is Some {
            lemma_best_plain_valid(m, k - 1, wp, wn, p);
        }
    }
}

/// A chosen feature correspondence is a live, matching slot with the
/// feature.
pub proof fn lemma_best_feat_valid(
    m: Seq<Option<Surfel>>,
    k: int,
    wp: Vec3,
    wn: Vec3,
    f: u64,
    p: SurfelFusionParameters,
)
    requires
        k <= m.len(),
        best_feat(m, k, wp, wn, f, p) is Some,
    ensures
        0 <= best_feat(m, k, wp, wn, f, p).unwrap() < k,
        m[best_feat(m, k, wp, wn, f, p).unwrap()] is Some,
        slot_matches(m[best_feat(m, k, wp, wn, f, p).unwrap()].unwrap(), wp, wn, p),
    decreases k,
{
    if k > 0 {
        if best_feat(m, k - 1, wp, wn, f, p) is Some {
            lemma_best_feat_valid(m, k - 1, wp, wn, f, p);
        }
    }
}

/// A chosen correspondence (either kind) is a live, matching slot.
pub proof fn lemma_best_match_valid(
    m: Seq<Option<Surfel>>,
    wp: Vec3,
    wn: Vec3,
    feat: Option<u64>,
    p: SurfelFusionParameters,
)
    requires
        best_match(m, wp, wn, feat, p) is Some,
    ensures
        0 <= best_match(m, wp, wn, feat, p).unwrap() < m.len(),
        m[best_match(m, wp, wn, feat, p).unwrap()] is Some,
        slot_matches(m[best_match(m, wp, wn, feat, p).unwrap()].unwrap(), wp, wn, p),
{
    match feat {
        Some(f) => {
            if best_feat(m, m.len() as int, wp, wn, f, p) is Some {
                lemma_best_feat_valid(m, m.len() as int, wp, wn, f, p);
            } else {
                lemma_best_plain_valid(m, m.len() as int, wp, wn, p);
            }
        },
        None => {
            lemma_best_plain_valid(m, m.len() as int, wp, wn, p);
        },
    }
}

/// Whether a surfel may be retired to make room at frame `frame`: it is
/// older than the stability window and was not matched this frame.
pub open spec fn eligible_for_retirement(s: Surfel, frame: u64, p: SurfelFusionParameters) -> bool {
    &&& s.created_at + p.stability_window <= frame
    &&& s.last_seen < frame
}

/// Retirement preference: lower confidence first, then the longest-unseen,
/// then the lowest slot.
pub open spec fn retire_better(a: Surfel, b: Surfel) -> bool {
    ||| a.confidence < b.confidence
    ||| (a.confidence == b.confidence && a.last_seen < b.last_seen)
}

/// The retirement candidate among the first `k` slots: the eligible live
/// surfel with the lowest confidence, ties broken toward the oldest
/// `last_seen`, then the lowest slot identifier.
pub open spec fn retire_pick(
    m: Seq<Option<Surfel>>,
    k: int,
    frame: u64,
    p: SurfelFusionParameters,
) -> Option<int>
    decreases k,
{
    if k <= 0 {
        None
    } else {
        let prev = retire_pick(m, k - 1, frame, p);
        let cur = k - 1;
        if m[cur] is Some && eligible_for_retirement(m[cur].unwrap(), frame, p) {
            match prev {
                None => Some(cur),
                Some(q) => if retire_better(m[cur].unwrap(), m[q].unwrap()) {
                    Some(cur)
                } else {
                    Some(q)
                },
            }
        } else {
            prev
        }
    }
}

/// A chosen retirement candidate is a live, eligible slot.
pub proof fn lemma_retire_pick_valid(
    m: Seq<Option<Surfel>>,
    k: int,
    frame: u64,
    p: SurfelFusionParameters,
)
    requires
        k <= m.len(),
        retire_pick(m, k, frame, p) is Some,
    ensures
        0 <= retire_pick(m, k, frame, p).unwrap() < k,
        m[retire_pick(m, k, frame, p).unwrap()] is Some,
        eligible_for_retirement(m[retire_pick(m, k, frame, p).unwrap()].unwrap(), frame, p),
    decreases k,
{
    if k > 0 {
        if retire_pick(m, k - 1, frame, p) is Some {
            lemma_retire_pick_valid(m, k - 1, frame, p);
        }
    }
}

/// When every live surfel is younger than the stability window, no
/// retirement candidate exists: a full model drops new samples rather than
/// evicting healthy surfels.
pub proof fn lemma_no_eligible_candidate(
    m: Seq<Option<Surfel>>,
    k: int,
    frame: u64,
    p: SurfelFusionParameters,
)
    requires
        k <= m.len(),
        forall|i: int|
            0 <= i < m.len() && m[i] is Some ==> (#[trigger] m[i].unwrap().created_at)
                + p.stability_window > frame,
    ensures
        retire_pick(m, k, frame, p) is None,
    decreases k,
{
    if k > 0 {
        lemma_no_eligible_candidate(m, k - 1, frame, p);
    }
}

/// Whether slot `j` is swept as stale at frame `frame`: live, inside the
/// camera frustum (so an observation was expected), past the stability
/// window, and unmatched for at least `staleness_limit` frames.
pub open spec fn stale_at(
    m: Seq<Option<Surfel>>,
    j: int,
    frame: u64,
    cam: Camera,
    p: SurfelFusionParameters,
) -> bool {
    &&& m[j] is Some
    &&& in_frustum_spec(cam, m[j].unwrap().position)
    &&& m[j].unwrap().created_at + p.stability_window <= frame
    &&& m[j].unwrap().last_seen + p.staleness_limit <= frame
}

/// The slot sequence after sweeping the first `k` slots for staleness.
pub open spec fn sweep_slots(
    m: Seq<Option<Surfel>>,
    k: int,
    frame: u64,
    cam: Camera,
    p: SurfelFusionParameters,
) -> Seq<Option<Surfel>>
    decreases k,
{
    if k <= 0 {
        m
    } else {
        let pre = sweep_slots(m, k - 1, frame, cam, p);
        if stale_at(m, k - 1, frame, cam, p) {
            pre.update(k - 1, None)
        } else {
            pre
        }
    }
}

/// How many of the first `k` slots the staleness sweep retires.
pub open spec fn sweep_count(
    m: Seq<Option<Surfel>>,
    k: int,
    frame: u64,
    cam: Camera,
    p: SurfelFusionParameters,
) -> nat
    decreases k,
{
    if k <= 0 {
        0
    } else {
        sweep_count(m, k - 1, frame, cam, p) + if stale_at(m, k - 1, frame, cam, p) {
            1nat
        } else {
            0nat
        }
    }
}

/// The sweep keeps the slot count and touches no slot at or above `k`.
pub proof fn lemma_sweep_frame(
    m: Seq<Option<Surfel>>,
    k: int,
    frame: u64,
    cam: Camera,
    p: SurfelFusionParameters,
)
    requires
        k <= m.len(),
    ensures
        sweep_slots(m, k, frame, cam, p).len() == m.len(),
        forall|j: int|
            k <= j < m.len() ==> sweep_slots(m, k, frame, cam, p)[j] == m[j],
        forall|j: int|
            0 <= j < m.len() ==> sweep_slots(m, k, frame, cam, p)[j] == m[j] || sweep_slots(
                m,
                k,
                frame,
                cam,
                p,
            )[j] is None,
    decreases k,
{
    if k > 0 {
        lemma_sweep_frame(m, k - 1, frame, cam, p);
        let pre = sweep_slots(m, k - 1, frame, cam, p);
        let cur = sweep_slots(m, k, frame, cam, p);
        assert forall|j: int| k <= j < m.len() implies cur[j] == m[j] by {
            assert(pre[j] == m[j]);
        }
        assert forall|j: int| 0 <= j < m.len() implies cur[j] == m[j] || cur[j] is None by {
            if j == k - 1 {
                if !stale_at(m, j, frame, cam, p) {
                    assert(cur[j] == pre[j]);
                    assert(pre[j] == m[j]);
                }
            } else {
                assert(cur[j] == pre[j]);
            }
        }
    }
}

/// Whether row-major sample `i` of a frame `width` pixels wide is on the
/// subsampling grid of stride `f`.
pub open spec fn sel_spec(width: int, f: int, i: int) -> bool {
    &&& (i % width) % f == 0
    &&& (i / width) % f == 0
}

/// One sample folded into the running fusion state
/// `(slots, matched, created, retired, dropped)`: invalid, grazing or
/// degenerate samples are skipped; a matched sample is fused into its
/// correspondence; an unmatched one becomes a new surfel while the
/// per-frame budget lasts, retiring the weakest eligible surfel when the
/// model is full, and is dropped when nothing may be retired.
pub open spec fn step_sample(
    b: SurfelBuilder,
    p: SurfelFusionParameters,
    cam: Camera,
    frame: u64,
    st: (Seq<Option<Surfel>>, nat, nat, nat, nat),
    s: Sample,
) -> (Seq<Option<Surfel>>, nat, nat, nat, nat) {
    let m = st.0;
    match build_spec(b, s, cam.pose, frame) {
        None => st,
        Some(obs) => match best_match(m, obs.position, obs.normal, s.feature, p) {
            Some(i) => (m.update(i, Some(fuse_spec(m[i].unwrap(), obs, frame))), st.1 + 1, st.2,
            st.3, st.4),
            None => if st.2 < p.max_surfels_per_frame {
                match first_free(m) {
                    Some(slot) => (m.update(slot, Some(obs)), st.1, st.2 + 1, st.3, st.4),
                    None => match retire_pick(m, m.len() as int, frame, p) {
                        Some(victim) => (m.update(victim, Some(obs)), st.1, st.2 + 1, st.3 + 1,
                        st.4),
                        None => (m, st.1, st.2, st.3, st.4 + 1),
                    },
                }
            } else {
                st
            },
        },
    }
}

/// The fusion state after folding the first `k` samples of a frame,
/// honoring the subsampling stride.
pub open spec fn run_samples(
    b: SurfelBuilder,
    p: SurfelFusionParameters,
    cam: Camera,
    frame: u64,
    width: int,
    m0: Seq<Option<Surfel>>,
    samples: Seq<Sample>,
    k: int,
) -> (Seq<Option<Surfel>>, nat, nat, nat, nat)
    decreases k,
{
    if k <= 0 {
        (m0, 0, 0, 0, 0)
    } else {
        let st = run_samples(b, p, cam, frame, width, m0, samples, k - 1);
        if sel_spec(width, p.scale_factor as int, k - 1) {
            step_sample(b, p, cam, frame, st, samples[k - 1])
        } else {
            st
        }
    }
}

/// Every live surfel was last matched no later than frame `frame`.
pub open spec fn model_synced(m: Seq<Option<Surfel>>, frame: u64) -> bool {
    forall|i: int|
        0 <= i < m.len() && m[i] is Some ==> (#[trigger] m[i].unwrap()).last_seen <= frame
}

/// Largest frame index at which another frame may still be integrated.
pub const FRAME_LIMIT: u64 = 0x1000_0000_0000_0000;

/// The stateless-per-call fusion engine: it carries the frame geometry it
/// was configured for, the sample-to-surfel builder, the tuning
/// parameters, and the index of the next frame.
#[derive(Debug, Clone, Copy, PartialEq, Eq, Structural)]
pub struct SurfelFusion {
    pub width: usize,
    pub height: usize,
    pub builder: SurfelBuilder,
    pub params: SurfelFusionParameters,
    pub frame_count: u64,
}

pub open spec fn fusion_wf(f: SurfelFusion) -> bool {
    &&& 1 <= f.width <= SENSOR_DIM_LIMIT
    &&& 1 <= f.height <= SENSOR_DIM_LIMIT
    &&& builder_wf(f.builder)
    &&& params_wf(f.params)
    &&& f.frame_count <= FRAME_LIMIT
}

/// The complete effect of integrating one frame: every selected sample
/// folded in order, then the staleness sweep; the tuple carries the final
/// slots and the matched, created, retired and dropped counts.
pub open spec fn integrate_spec(
    fu: SurfelFusion,
    cam: Camera,
    m0: Seq<Option<Surfel>>,
    samples: Seq<Sample>,
) -> (Seq<Option<Surfel>>, nat, nat, nat, nat) {
    let st = run_samples(
        fu.builder,
        fu.params,
        cam,
        fu.frame_count,
        fu.width as int,
        m0,
        samples,
        samples.len() as int,
    );
    let swept = sweep_slots(st.0, st.0.len() as int, fu.frame_count, cam, fu.params);
    (
        swept,
        st.1,
        st.2,
        st.3 + sweep_count(st.0, st.0.len() as int, fu.frame_count, cam, fu.params),
        st.4,
    )
}

/// With `k` slots all live below `v` and slot `v` free, `v` is the first
/// free slot.
proof fn lemma_ff_scan(m: Seq<Option<Surfel>>, k: int, v: int)
    requires
        0 <= k <= v < m.len(),
        m[v] is None,
        forall|j: int| k <= j < v ==> m[j] is Some,
    ensures
        crate::model::first_free_from(m, k) == Some(v),
    decreases v - k,
{
    if k < v {
        lemma_ff_scan(m, k + 1, v);
    }
}

proof fn lemma_first_free_at(m: Seq<Option<Surfel>>, v: int)
    requires
        0 <= v < m.len(),
        m[v] is None,
        forall|j: int| 0 <= j < v ==> m[j] is Some,
    ensures
        first_free(m) == Some(v),
{
    lemma_ff_scan(m, 0, v);
}

/// Finds the correspondence for a world-frame observation, preferring a
/// surfel that carries the sample's sparse-feature identity.
fn find_match(
    model: &SurfelModel,
    wp: &Vec3,
    wn: &Vec3,
    feat: Option<u64>,
    p: &SurfelFusionParameters,
) -> (r: Option<SlotId>)
    requires
        model.wf(),
        bounded3(*wp, POS_LIMIT as int),
        bounded3(*wn, POS_LIMIT as int),
        params_wf(*p),
    ensures
        match r {
            None => best_match(model.slots@, *wp, *wn, feat, *p) is None,
            Some(id) => best_match(model.slots@, *wp, *wn, feat, *p) == Some(id as int),
        },
{
    let n = model.slots.len();
    proof {
        lemma_mul_le(p.match_distance_tolerance as int, p.match_distance_tolerance as int,
            POS_LIMIT as int, POS_LIMIT as int);
    }
    let mdt2 = mul_i128(p.match_distance_tolerance as i128, p.match_distance_tolerance as i128);
    let mut bp: Option<usize> = None;
    let mut bpd: i128 = 0;
    let mut bf: Option<usize> = None;
    let mut bfd: i128 = 0;
    let mut i: usize = 0;
    while i < n
        invariant
            i <= n,
            n == model.slots@.len(),
            model.wf(),
            bounded3(*wp, POS_LIMIT as int),
            bounded3(*wn, POS_LIMIT as int),
            params_wf(*p),
            mdt2 as int == p.match_distance_tolerance * p.match_distance_tolerance,
            match bp {
                None => best_plain(model.slots@, i as int, *wp, *wn, *p) is None,
                Some(q) => {
                    &&& best_plain(model.slots@, i as int, *wp, *wn, *p) == Some(q as int)
                    &&& q < i
                    &&& model.slots@[q as int] is Some
                    &&& bpd as int == dist_sq3(model.slots@[q as int].unwrap().position, *wp)
                },
            },
            match feat {
                None => bf is None,
                Some(f) => match bf {
                    None => best_feat(model.slots@, i as int, *wp, *wn, f, *p) is None,
                    Some(q) => {
                        &&& best_feat(model.slots@, i as int, *wp, *wn, f, *p) == Some(q as int)
                        &&& q < i
                        &&& model.slots@[q as int] is Some
                        &&& bfd as int == dist_sq3(model.slots@[q as int].unwrap().position, *wp)
                    },
                },
            },
        decreases n - i,
    {
        match model.slots[i] {
            Some(s) => {
                proof {
                    assert(surfel_valid(model.slots@[i as int].unwrap()));
                }
                let d = s.position.dist_sq(wp);
                let dotv = s.normal.dot(wn);
                if d <= mdt2 && dotv >= p.match_angle_tolerance as i128 {
                    let take_plain = match bp {
                        None => true,
                        Some(_) => d < bpd,
                    };
                    if take_plain {
                        bp = Some(i);
                        bpd = d;
                    }
                    match feat {
                        Some(f) => {
                            let has = match s.feature_ref {
                                Some(g) => g == f,
                                None => false,
                            };
                            if has {
                                let take_feat = match bf {
                                    None => true,
                                    Some(_) => d < bfd,
                                };
                                if take_feat {
                                    bf = Some(i);
                                    bfd = d;
                                }
                            }
                        },
                        None => {},
                    }
                }
            },
            None => {},
        }
        i = i + 1;
    }
    match feat {
        Some(_) => match bf {
            Some(q) => Some(q),
            None => bp,
        },
        None => bp,
    }
}

/// Finds the retirement candidate: the eligible surfel with the lowest
/// confidence, preferring the longest-unseen, then the lowest slot.
fn pick_retire(model: &SurfelModel, frame: u64, p: &SurfelFusionParameters) -> (r: Option<SlotId>)
    requires
        model.wf(),
        params_wf(*p),
    ensures
        match r {
            None => retire_pick(model.slots@, model.slots@.len() as int, frame, *p) is None,
            Some(id) => retire_pick(model.slots@, model.slots@.len() as int, frame, *p) == Some(
                id as int,
            ),
        },
{
    let n = model.slots.len();
    let mut best: Option<usize> = None;
    let mut bconf: u32 = 0;
    let mut blast: u64 = 0;
    let mut i: usize = 0;
    while i < n
        invariant
            i <= n,
            n == model.slots@.len(),
            model.wf(),
            params_wf(*p),
            match best {
                None => retire_pick(model.slots@, i as int, frame, *p) is None,
                Some(q) => {
                    &&& retire_pick(model.slots@, i as int, frame, *p) == Some(q as int)
                    &&& q < i
                    &&& model.slots@[q as int] is Some
                    &&& bconf == model.slots@[q as int].unwrap().confidence
                    &&& blast == model.slots@[q as int].unwrap().last_seen
                },
            },
        decreases n - i,
    {
        match model.slots[i] {
            Some(s) => {
                let elig = frame >= p.stability_window && s.created_at <= frame
                    - p.stability_window && s.last_seen < frame;
                if elig {
                    let take = match best {
                        None => true,
                        Some(_) => s.confidence < bconf || (s.confidence == bconf && s.last_seen
                            < blast),
                    };
                    if take {
                        best = Some(i);
                        bconf = s.confidence;
                        blast = s.last_seen;
                    }
                }
            },
            None => {},
        }
        i = i + 1;
    }
    best
}

impl SurfelFusion {
    /// Builds a fusion engine for frames of the given size, starting at
    /// frame zero.
    pub fn new(
        width: usize,
        height: usize,
        builder: SurfelBuilder,
        params: SurfelFusionParameters,
    ) -> (r: SurfelReconsResult<SurfelFusion>)
        ensures
            r is Ok <==> fusion_wf(
                SurfelFusion { width, height, builder, params, frame_count: 0 },
            ),
            r is Ok ==> r.unwrap() == (SurfelFusion {
                width,
                height,
                builder,
                params,
                frame_count: 0,
            }),
    {
        let ok_dims = 1 <= width && width <= SENSOR_DIM_LIMIT && 1 <= height && height
            <= SENSOR_DIM_LIMIT;
        let ok_builder = 0 <= builder.min_frontal_cos && builder.min_frontal_cos
            <= crate::math::NORM_ONE && builder.conf_falloff >= 1;
        let ok_params = 1 <= params.match_distance_tolerance && params.match_distance_tolerance
            <= POS_LIMIT && -(NORM_SQ_ONE + NORM_TOL) <= params.match_angle_tolerance
            && params.match_angle_tolerance <= NORM_SQ_ONE + NORM_TOL && params.staleness_limit
            >= 1 && params.scale_factor >= 1;
        if ok_dims && ok_builder && ok_params {
            Ok(SurfelFusion { width, height, builder, params, frame_count: 0 })
        } else {
            Err(
                SurfelReconstError::InvalidArgument(
                    ("fusion configuration out of range").to_string(),
                ),
            )
        }
    }

    /// Integrates one frame into the model: each selected sample is
    /// associated, merged or inserted (retiring the weakest eligible
    /// surfel when the model is full), then stale in-view surfels are
    /// swept. Fails fast, changing nothing, exactly when the frame or
    /// camera dimensions do not match the engine's.
    #[verifier::rlimit(60)]
    pub fn integrate(
        &mut self,
        model: &mut SurfelModel,
        frame_img: &RangeImage,
        cam: &Camera,
    ) -> (r: SurfelReconsResult<FusionStats>)
        requires
            fusion_wf(*old(self)),
            old(self).frame_count < FRAME_LIMIT,
            old(model).wf(),
            frame_wf(*frame_img),
            camera_wf(*cam),
            model_synced(old(model).slots@, old(self).frame_count),
        ensures
            fusion_wf(*final(self)),
            final(model).wf(),
            final(model).capacity == old(model).capacity,
            final(self).width == old(self).width && final(self).height == old(self).height
                && final(self).builder == old(self).builder && final(self).params == old(
                self,
            ).params,
            r is Ok <==> (frame_img.width == old(self).width && frame_img.height == old(
                self,
            ).height && cam.width == old(self).width && cam.height == old(self).height),
            r is Err ==> *final(model) == *old(model) && *final(self) == *old(self) && r matches Err(
                SurfelReconstError::InvalidArgument(_),
            ),
            r is Ok ==> ({
                let out = integrate_spec(*old(self), *cam, old(model).slots@, frame_img.samples@);
                &&& final(model).slots@ == out.0
                &&& r.unwrap().matched as nat == out.1
                &&& r.unwrap().created as nat == out.2
                &&& r.unwrap().retired as nat == out.3
                &&& r.unwrap().dropped as nat == out.4
                &&& final(self).frame_count == old(self).frame_count + 1
                &&& model_synced(final(model).slots@, final(self).frame_count)
            }),
    {
        if !(frame_img.width == self.width && frame_img.height == self.height && cam.width
            == self.width && cam.height == self.height) {
            return Err(
                SurfelReconstError::InvalidArgument(
                    ("frame or camera dimensions do not match the fusion engine").to_string(),
                ),
            );
        }
        let frame = self.frame_count;
        let w = self.width;
        let stride = self.params.scale_factor;
        let budget = self.params.max_surfels_per_frame;
        let n = frame_img.samples.len();
        proof {
            lemma_mul_le(frame_img.width as int, frame_img.height as int, 16384, 16384);
        }
        let mut matched: usize = 0;
        let mut created: usize = 0;
        let mut retired: usize = 0;
        let mut dropped: usize = 0;
        let mut i: usize = 0;
        while i < n
            invariant
                i <= n,
                n == frame_img.samples@.len(),
                n <= 0x1000_0000,
                *self == *old(self),
                fusion_wf(*old(self)),
                frame == old(self).frame_count,
                w == old(self).width,
                stride == old(self).params.scale_factor,
                budget == old(self).params.max_surfels_per_frame,
                frame_wf(*frame_img),
                camera_wf(*cam),
                model.wf(),
                model.capacity == old(model).capacity,
                model_synced(model.slots@, frame),
                matched as int + created as int + dropped as int <= i as int,
                retired <= created,
                ({
                    let st = run_samples(
                        old(self).builder,
                        old(self).params,
                        *cam,
                        frame,
                        w as int,
                        old(model).slots@,
                        frame_img.samples@,
                        i as int,
                    );
                    &&& st.0 == model.slots@
                    &&& st.1 == matched as nat
                    &&& st.2 == created as nat
                    &&& st.3 == retired as nat
                    &&& st.4 == dropped as nat
                }),
            decreases n - i,
        {
            let ghost m_pre = model.slots@;
            let ghost st_pre = run_samples(
                old(self).builder,
                old(self).params,
                *cam,
                frame,
                w as int,
                old(model).slots@,
                frame_img.samples@,
                i as int,
            );
            let s = frame_img.samples[i];
            assert(sample_wf(s));
            let x = i % w;
            let y = i / w;
            if x % stride == 0 && y % stride == 0 {
                assert(sel_spec(w as int, stride as int, i as int));
                match self.builder.build(&s, &cam.pose, frame) {
                    None => {},
                    Some(obs) => {
                        match find_match(model, &obs.position, &obs.normal, s.feature,
                            &self.params) {
                            Some(idx) => {
                                proof {
                                    lemma_best_match_valid(model.slots@, obs.position, obs.normal,
                                        s.feature, self.params);
                                }
                                let cur = model.get(idx).unwrap();
                                let fused = fuse(&cur, &obs, frame);
                                model.update(idx, fused);
                                matched = matched + 1;
                            },
                            None => {
                                if created < budget {
                                    match model.insert(obs) {
                                        Ok(_) => {
                                            created = created + 1;
                                        },
                                        Err(_) => {
                                            match pick_retire(model, frame, &self.params) {
                                                Some(v) => {
                                                    proof {
                                                        lemma_retire_pick_valid(model.slots@,
                                                            model.slots@.len() as int, frame,
                                                            self.params);
                                                    }
                                                    model.remove(v);
                                                    proof {
                                                        lemma_first_free_at(model.slots@, v as int);
                                                    }
                                                    let ins = model.insert(obs);
                                                    proof {
                                                        assert(ins is Ok);
                                                        assert(model.slots@ == m_pre.update(
                                                            v as int,
                                                            None,
                                                        ).update(v as int, Some(obs)));
                                                        assert(m_pre.update(v as int, None).update(
                                                            v as int,
                                                            Some(obs),
                                                        ) =~= m_pre.update(v as int, Some(obs)));
                                                    }
                                                    created = created + 1;
                                                    retired = retired + 1;
                                                },
                                                None => {
                                                    dropped = dropped + 1;
                                                },
                                            }
                                        },
                                    }
                                }
                            },
                        }
                    },
                }
            } else {
                assert(!sel_spec(w as int, stride as int, i as int));
            }
            proof {
                let st_next = run_samples(
                    old(self).builder,
                    old(self).params,
                    *cam,
                    frame,
                    w as int,
                    old(model).slots@,
                    frame_img.samples@,
                    i as int + 1,
                );
                assert(st_next == if sel_spec(w as int, stride as int, i as int) {
                    step_sample(old(self).builder, old(self).params, *cam, frame, st_pre, s)
                } else {
                    st_pre
                });
            }
            i = i + 1;
        }
        let ghost m_mid = model.slots@;
        let cap = model.slots.len();
        let mut sweep_ret: usize = 0;
        let mut j: usize = 0;
        while j < cap
            invariant
                j <= cap,
                cap == m_mid.len(),
                cap <= 0x1000_0000,
                *self == *old(self),
                fusion_wf(*old(self)),
                frame == old(self).frame_count,
                camera_wf(*cam),
                model.wf(),
                model.capacity == old(model).capacity,
                model_synced(model.slots@, frame),
                sweep_ret <= j,
                model.slots@ == sweep_slots(m_mid, j as int, frame, *cam, old(self).params),
                sweep_ret as nat == sweep_count(m_mid, j as int, frame, *cam, old(self).params),
            decreases cap - j,
        {
            proof {
                lemma_sweep_frame(m_mid, j as int, frame, *cam, old(self).params);
            }
            match model.slots[j] {
                Some(s) => {
                    let p = self.params;
                    let stale = in_frustum(cam, &s.position) && frame >= p.stability_window
                        && s.created_at <= frame - p.stability_window && frame >= p.staleness_limit
                        && s.last_seen <= frame - p.staleness_limit;
                    assert(stale == stale_at(m_mid, j as int, frame, *cam, old(self).params));
                    if stale {
                        model.remove(j);
                        sweep_ret = sweep_ret + 1;
                    }
                },
                None => {
                    assert(!stale_at(m_mid, j as int, frame, *cam, old(self).params));
                },
            }
            j = j + 1;
        }
        self.frame_count = frame + 1;
        Ok(FusionStats { matched, created, retired: retired + sweep_ret, dropped })
    }
}

/// A sparse keypoint descriptor identity observed at one pixel.
#[derive(Debug, Clone, Copy, PartialEq, Eq, Structural)]
pub struct PixelFeature {
    pub x: usize,
    pub y: usize,
    pub id: u64,
}

/// The identity of the first listed feature at pixel `(x, y)`, scanning
/// from entry `k`.
pub open spec fn feature_from(fs: Seq<PixelFeature>, k: int, x: int, y: int) -> Option<u64>
    decreases fs.len() - k,
{
    if k < 0 || k >= fs.len() {
        None
    } else if fs[k].x == x && fs[k].y == y {
        Some(fs[k].id)
    } else {
        feature_from(fs, k + 1, x, y)
    }
}

/// The sample at index `i` after binding sparse features: a feature listed
/// for its pixel replaces the sample's feature identity.
pub open spec fn attach_elem(
    samples: Seq<Sample>,
    fs: Seq<PixelFeature>,
    width: int,
    i: int,
) -> Sample {
    let s = samples[i];
    match feature_from(fs, 0, i % width, i / width) {
        Some(f) => Sample { feature: Some(f), ..s },
        None => s,
    }
}

/// A frame's samples after binding sparse features to their pixels.
pub open spec fn attach_seq(samples: Seq<Sample>, fs: Seq<PixelFeature>, width: int) -> Seq<
    Sample,
> {
    Seq::new(samples.len(), |i: int| attach_elem(samples, fs, width, i))
}

impl SurfelFusion {
    /// Integrates one frame together with sparse keypoint features keyed
    /// by pixel: a sample at a feature's pixel carries that feature's
    /// identity into association, so a correspondence with the same
    /// identity is preferred.
    pub fn integrate_with_sparse_features(
        &mut self,
        model: &mut SurfelModel,
        frame_img: &RangeImage,
        cam: &Camera,
        feats: &Vec<PixelFeature>,
    ) -> (r: SurfelReconsResult<FusionStats>)
        requires
            fusion_wf(*old(self)),
            old(self).frame_count < FRAME_LIMIT,
            old(model).wf(),
            frame_wf(*frame_img),
            camera_wf(*cam),
            model_synced(old(model).slots@, old(self).frame_count),
        ensures
            fusion_wf(*final(self)),
            final(model).wf(),
            final(model).capacity == old(model).capacity,
            r is Ok <==> (frame_img.width == old(self).width && frame_img.height == old(
                self,
            ).height && cam.width == old(self).width && cam.height == old(self).height),
            r is Err ==> *final(model) == *old(model) && *final(self) == *old(self) && r matches Err(
                SurfelReconstError::InvalidArgument(_),
            ),
            r is Ok ==> ({
                let out = integrate_spec(
                    *old(self),
                    *cam,
                    old(model).slots@,
                    attach_seq(frame_img.samples@, feats@, frame_img.width as int),
                );
                &&& final(model).slots@ == out.0
                &&& r.unwrap().matched as nat == out.1
                &&& r.unwrap().created as nat == out.2
                &&& r.unwrap().retired as nat == out.3
                &&& r.unwrap().dropped as nat == out.4
                &&& final(self).frame_count == old(self).frame_count + 1
                &&& model_synced(final(model).slots@, final(self).frame_count)
            }),
    {
        if !(frame_img.width == self.width && frame_img.height == self.height && cam.width
            == self.width && cam.height == self.height) {
            return Err(
                SurfelReconstError::InvalidArgument(
                    ("frame or camera dimensions do not match the fusion engine").to_string(),
                ),
            );
        }
        let w = frame_img.width;
        let n = frame_img.samples.len();
        let nf = feats.len();
        let mut bound: Vec<Sample> = Vec::new();
        let mut i: usize = 0;
        while i < n
            invariant
                i <= n,
                n == frame_img.samples@.len(),
                nf == feats@.len(),
                w == frame_img.width,
                w >= 1,
                frame_wf(*frame_img),
                bound@.len() == i as int,
                forall|k: int|
                    0 <= k < i as int ==> bound@[k] == attach_elem(
                        frame_img.samples@,
                        feats@,
                        w as int,
                        k,
                    ),
            decreases n - i,
        {
            let s = frame_img.samples[i];
            let x = i % w;
            let y = i / w;
            let mut j: usize = 0;
            while j < nf && !(feats[j].x == x && feats[j].y == y)
                invariant
                    j <= nf,
                    nf == feats@.len(),
                    forall|k: int|
                        0 <= k < j as int ==> !(feats@[k].x == x as int && feats@[k].y == y as int),
                    feature_from(feats@, 0, x as int, y as int) == feature_from(
                        feats@,
                        j as int,
                        x as int,
                        y as int,
                    ),
                decreases nf - j,
            {
                j = j + 1;
            }
            let found: Option<u64> = if j < nf {
                Some(feats[j].id)
            } else {
                None
            };
            proof {
                if j < nf {
                    assert(feature_from(feats@, j as int, x as int, y as int) == Some(
                        feats@[j as int].id,
                    ));
                }
            }
            let s2 = match found {
                Some(f) => Sample {
                    valid: s.valid,
                    position: s.position,
                    normal: s.normal,
                    color: s.color,
                    radius: s.radius,
                    feature: Some(f),
                },
                None => s,
            };
            bound.push(s2);
            i = i + 1;
        }
        let ghost attached = attach_seq(frame_img.samples@, feats@, w as int);
        proof {
            assert(bound@ =~= attached);
            assert forall|k: int| 0 <= k < attached.len() implies sample_wf(
                #[trigger] attached[k],
            ) by {
                assert(sample_wf(frame_img.samples@[k]));
            }
        }
        let bound_frame = RangeImage { width: frame_img.width, height: frame_img.height, samples: bound };
        self.integrate(model, &bound_frame, cam)
    }
}

/// The sample a painted pixel carries: the surfel's camera-frame point and
/// normal with its fused color and radius.
pub open spec fn blank_sample() -> Sample {
    Sample {
        valid: false,
        position: Vec3 { x: 0, y: 0, z: 0 },
        normal: Vec3 { x: 0, y: 0, z: 0 },
        color: crate::rgb::ColorRgb { r: 0, g: 0, b: 0 },
        radius: 0,
        feature: None,
    }
}

/// An all-invalid sample buffer of the camera's size.
pub open spec fn blank_buf(cam: Camera) -> Seq<Sample> {
    Seq::new((cam.height as int * cam.width as int) as nat, |i: int| blank_sample())
}

/// One surfel painted into a sample buffer: when it projects to a pixel
/// with positive depth, stays within the sample ranges, and its
/// camera-frame normal renormalizes, it claims the pixel unless a strictly
/// nearer surfel already holds it.
pub open spec fn paint_slot(buf: Seq<Sample>, cam: Camera, s: Surfel) -> Seq<Sample> {
    let pc = world_to_cam_spec(cam.pose, s.position);
    let ncand = rotate_t_spec(cam.pose, s.normal);
    if pc.z < 1 {
        buf
    } else {
        let u = div_trunc(pc.x * cam.fx, pc.z as int) + cam.cx;
        let v = div_trunc(pc.y * cam.fy, pc.z as int) + cam.cy;
        if !(0 <= u < cam.width && 0 <= v < cam.height) {
            buf
        } else if !bounded3(pc, SAMPLE_POS_LIMIT as int) {
            buf
        } else {
            match unitize_opt_spec(ncand) {
                None => buf,
                Some(nrm) => {
                    let idx = v * cam.width + u;
                    let cur = buf[idx];
                    if cur.valid && cur.position.z <= pc.z {
                        buf
                    } else {
                        buf.update(
                            idx,
                            Sample {
                                valid: true,
                                position: pc,
                                normal: nrm,
                                color: s.color,
                                radius: s.radius,
                                feature: s.feature_ref,
                            },
                        )
                    }
                },
            }
        }
    }
}

/// The sample buffer after painting the first `k` slots.
pub open spec fn render_fold(
    m: Seq<Option<Surfel>>,
    k: int,
    cam: Camera,
    buf: Seq<Sample>,
) -> Seq<Sample>
    decreases k,
{
    if k <= 0 {
        buf
    } else {
        let pre = render_fold(m, k - 1, cam, buf);
        match m[k - 1] {
            Some(s) => paint_slot(pre, cam, s),
            None => pre,
        }
    }
}

impl SurfelModel {
    /// Projects the current surfel set into a synthetic range image as
    /// seen from `cam`, keeping the nearest surfel at each pixel: the
    /// frame-to-model tracking target for the upstream pose estimator.
    /// Reading `&self`, it reflects one consistent snapshot of the model.
    #[verifier::rlimit(60)]
    pub fn render_to_range_image(&self, cam: &Camera) -> (r: RangeImage)
        requires
            self.wf(),
            camera_wf(*cam),
        ensures
            r.width == cam.width,
            r.height == cam.height,
            frame_wf(r),
            r.samples@ == render_fold(
                self.slots@,
                self.slots@.len() as int,
                *cam,
                blank_buf(*cam),
            ),
    {
        proof {
            lemma_mul_le(cam.height as int, cam.width as int, 16384, 16384);
        }
        let total = cam.height * cam.width;
        let mut buf: Vec<Sample> = Vec::new();
        let mut t: usize = 0;
        while t < total
            invariant
                t <= total,
                buf@.len() == t as int,
                forall|q: int| 0 <= q < t as int ==> buf@[q] == blank_sample(),
            decreases total - t,
        {
            buf.push(
                Sample {
                    valid: false,
                    position: Vec3 { x: 0, y: 0, z: 0 },
                    normal: Vec3 { x: 0, y: 0, z: 0 },
                    color: crate::rgb::ColorRgb { r: 0, g: 0, b: 0 },
                    radius: 0,
                    feature: None,
                },
            );
            t = t + 1;
        }
        proof {
            assert(buf@ =~= blank_buf(*cam));
        }
        let n = self.slots.len();
        let mut i: usize = 0;
        while i < n
            invariant
                i <= n,
                n == self.slots@.len(),
                self.wf(),
                camera_wf(*cam),
                total == cam.height as int * cam.width as int,
                buf@.len() == total as int,
                forall|q: int| 0 <= q < buf@.len() ==> sample_wf(#[trigger] buf@[q]),
                buf@ == render_fold(self.slots@, i as int, *cam, blank_buf(*cam)),
            decreases n - i,
        {
            match self.slots[i] {
                Some(s) => {
                    proof {
                        assert(surfel_valid(self.slots@[i as int].unwrap()));
                    }
                    let pc = world_to_cam(&cam.pose, &s.position);
                    let ncand = rotate_transpose(&cam.pose, &s.normal);
                    if pc.z >= 1 {
                        proof {
                            lemma_mul_le(pc.x as int, cam.fx as int, CAM_COORD_LIMIT as int,
                                FOCAL_LIMIT as int);
                            lemma_mul_le(pc.y as int, cam.fy as int, CAM_COORD_LIMIT as int,
                                FOCAL_LIMIT as int);
                        }
                        let u = div_trunc_i128(mul_i128(pc.x as i128, cam.fx as i128),
                            pc.z as i128) + (cam.cx as i128);
                        let v = div_trunc_i128(mul_i128(pc.y as i128, cam.fy as i128),
                            pc.z as i128) + (cam.cy as i128);
                        if 0 <= u && u < cam.width as i128 && 0 <= v && v < cam.height as i128 {
                            let lim = SAMPLE_POS_LIMIT;
                            if -lim <= pc.x && pc.x <= lim && -lim <= pc.y && pc.y <= lim && -lim
                                <= pc.z && pc.z <= lim {
                                match unitize_opt(&ncand) {
                                    Some(nrm) => {
                                        let uu = u as usize;
                                        let vv = v as usize;
                                        proof {
                                            lemma_mul_le(vv as int, cam.width as int, 16384,
                                                16384);
                                            assert((vv as int * cam.width as int + uu as int)
                                                < cam.height as int * cam.width as int)
                                                by (nonlinear_arith)
                                                requires
                                                    0 <= vv as int,
                                                    (vv as int) < cam.height as int,
                                                    0 <= uu as int,
                                                    (uu as int) < cam.width as int,
                                            ;
                                        }
                                        let idx = vv * cam.width + uu;
                                        let cur = buf[idx];
                                        if !(cur.valid && cur.position.z <= pc.z) {
                                            buf[idx] = Sample {
                                                valid: true,
                                                position: pc,
                                                normal: nrm,
                                                color: s.color,
                                                radius: s.radius,
                                                feature: s.feature_ref,
                                            };
                                        }
                                    },
                                    None => {},
                                }
                            }
                        }
                    }
                },
                None => {},
            }
            i = i + 1;
        }
        proof {
            assert(cam.width as int * cam.height as int == cam.height as int * cam.width as int)
                by (nonlinear_arith);
        }
        RangeImage { width: cam.width, height: cam.height, samples: buf }
    }
}

/// Capacity pressure: when the model is full and every live surfel is
/// still inside its stability window, an unmatched sample within budget is
/// counted as dropped and no surfel is touched — the model never exceeds
/// its capacity and never evicts a protected surfel.
pub proof fn lemma_full_model_drops(
    b: SurfelBuilder,
    p: SurfelFusionParameters,
    cam: Camera,
    frame: u64,
    st: (Seq<Option<Surfel>>, nat, nat, nat, nat),
    s: Sample,
)
    requires
        first_free(st.0) is None,
        forall|i: int|
            0 <= i < st.0.len() && st.0[i] is Some ==> (#[trigger] st.0[i].unwrap().created_at)
                + p.stability_window > frame,
        build_spec(b, s, cam.pose, frame) is Some,
        best_match(
            st.0,
            build_spec(b, s, cam.pose, frame).unwrap().position,
            build_spec(b, s, cam.pose, frame).unwrap().normal,
            s.feature,
            p,
        ) is None,
        st.2 < p.max_surfels_per_frame,
    ensures
        step_sample(b, p, cam, frame, st, s) == (st.0, st.1, st.2, st.3, st.4 + 1),
{
    lemma_no_eligible_candidate(st.0, st.0.len() as int, frame, p);
}

/// A live surfel seen more recently than the staleness limit survives the
/// sweep untouched, wherever it stands.
pub proof fn lemma_sweep_keeps_fresh(
    m: Seq<Option<Surfel>>,
    k: int,
    j: int,
    frame: u64,
    cam: Camera,
    p: SurfelFusionParameters,
)
    requires
        k <= m.len(),
        0 <= j < m.len(),
        m[j] is Some,
        m[j].unwrap().last_seen + p.staleness_limit > frame,
    ensures
        sweep_slots(m, k, frame, cam, p)[j] == m[j],
    decreases k,
{
    if k > 0 {
        lemma_sweep_keeps_fresh(m, k - 1, j, frame, cam, p);
        lemma_sweep_frame(m, k - 1, frame, cam, p);
    }
}

/// Integrating a frame with no valid samples creates, matches and drops
/// nothing: every surfel either stays exactly as it was or is retired by
/// the staleness sweep.
pub proof fn lemma_empty_frame(
    fu: SurfelFusion,
    cam: Camera,
    m: Seq<Option<Surfel>>,
    samples: Seq<Sample>,
)
    requires
        forall|i: int| 0 <= i < samples.len() ==> !(#[trigger] samples[i]).valid,
    ensures
        ({
            let out = integrate_spec(fu, cam, m, samples);
            &&& out.1 == 0
            &&& out.2 == 0
            &&& out.4 == 0
            &&& out.0.len() == m.len()
            &&& forall|j: int| 0 <= j < m.len() ==> out.0[j] == m[j] || out.0[j] is None
        }),
{
    lemma_run_invalid(
        fu.builder,
        fu.params,
        cam,
        fu.frame_count,
        fu.width as int,
        m,
        samples,
        samples.len() as int,
    );
    lemma_sweep_frame(m, m.len() as int, fu.frame_count, cam, fu.params);
}

/// Folding only invalid samples changes nothing.
proof fn lemma_run_invalid(
    b: SurfelBuilder,
    p: SurfelFusionParameters,
    cam: Camera,
    frame: u64,
    width: int,
    m: Seq<Option<Surfel>>,
    samples: Seq<Sample>,
    k: int,
)
    requires
        k <= samples.len(),
        forall|i: int| 0 <= i < samples.len() ==> !(#[trigger] samples[i]).valid,
    ensures
        run_samples(b, p, cam, frame, width, m, samples, k) == (
            m,
            0nat,
            0nat,
            0nat,
            0nat,
        ),
    decreases k,
{
    if k > 0 {
        lemma_run_invalid(b, p, cam, frame, width, m, samples, k - 1);
    }
}

} // verus!
