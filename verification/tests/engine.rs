//! End-to-end scenarios for the surfel fusion engine.

use surfelrec::{
    Camera, ColorRgb, Pose, RangeImage, Sample, SurfelBuilder, SurfelFusion,
    SurfelFusionParameters, SurfelModel, Vec3,
};

const W: usize = 64;
const H: usize = 64;

fn invalid_sample() -> Sample {
    Sample {
        valid: false,
        position: Vec3 { x: 0, y: 0, z: 0 },
        normal: Vec3 { x: 0, y: 0, z: 0 },
        color: ColorRgb { r: 0, g: 0, b: 0 },
        radius: 0,
        feature: None,
    }
}

fn frontal_sample(x: i64, y: i64, z: i64) -> Sample {
    Sample {
        valid: true,
        position: Vec3 { x, y, z },
        normal: Vec3 { x: 0, y: 0, z: -1024 },
        color: ColorRgb { r: 100, g: 150, b: 200 },
        radius: 10,
        feature: None,
    }
}

fn empty_frame() -> RangeImage {
    let samples = vec![invalid_sample(); W * H];
    RangeImage::new(W, H, samples).unwrap()
}

fn frame_with(samples_at: &[(usize, Sample)]) -> RangeImage {
    let mut samples = vec![invalid_sample(); W * H];
    for (i, s) in samples_at {
        samples[*i] = *s;
    }
    RangeImage::new(W, H, samples).unwrap()
}

fn camera() -> Camera {
    Camera::new(512, 512, 32, 32, W, H, Pose::identity()).unwrap()
}

fn builder(falloff: i64) -> SurfelBuilder {
    SurfelBuilder::new(512, falloff).unwrap()
}

fn params(max_per_frame: usize, stability: u64, staleness: u64) -> SurfelFusionParameters {
    SurfelFusionParameters::new(max_per_frame, 100, 500000, stability, staleness, 1).unwrap()
}

#[test]
fn scenario_one_sample_creates_one_surfel() {
    let mut model = SurfelModel::new(1).unwrap();
    let mut fusion = SurfelFusion::new(W, H, builder(1_000_000), params(10, 2, 1000)).unwrap();
    let frame = frame_with(&[(0, frontal_sample(0, 0, 1000))]);
    let stats = fusion.integrate(&mut model, &frame, &camera()).unwrap();
    assert_eq!(stats.created, 1);
    assert_eq!(stats.matched, 0);
    assert_eq!(stats.retired, 0);
    assert_eq!(stats.dropped, 0);
    assert_eq!(model.live(), 1);
    let s = model.get(0).unwrap();
    assert_eq!(s.position.x, 0);
    assert_eq!(s.position.y, 0);
    assert_eq!(s.position.z, 1000);
    assert_eq!(s.normal.z, -1024);
    assert_eq!(s.radius, 10);
    assert_eq!(s.created_at, 0);
    assert_eq!(s.last_seen, 0);
    // CONF_BASE 256 minus |p|^2 / falloff = 256 - 1 = 255.
    assert_eq!(s.confidence, 255);
}

#[test]
fn scenario_matching_sample_fuses_and_raises_confidence() {
    let mut model = SurfelModel::new(1).unwrap();
    let mut fusion = SurfelFusion::new(W, H, builder(1_000_000), params(10, 2, 1000)).unwrap();
    let frame = frame_with(&[(0, frontal_sample(0, 0, 1000))]);
    fusion.integrate(&mut model, &frame, &camera()).unwrap();
    let before = model.get(0).unwrap();

    let stats = fusion.integrate(&mut model, &frame, &camera()).unwrap();
    assert_eq!(stats.matched, 1);
    assert_eq!(stats.created, 0);
    assert_eq!(stats.retired, 0);
    assert_eq!(stats.dropped, 0);
    assert_eq!(model.live(), 1);
    let after = model.get(0).unwrap();
    // An identical observation leaves the estimate in place and raises
    // the confidence.
    assert_eq!(after.position.x, before.position.x);
    assert_eq!(after.position.y, before.position.y);
    assert_eq!(after.position.z, before.position.z);
    assert_eq!(after.normal.x, before.normal.x);
    assert_eq!(after.normal.y, before.normal.y);
    assert_eq!(after.normal.z, before.normal.z);
    assert_eq!(after.color.r, before.color.r);
    assert!(after.confidence > before.confidence);
    assert_eq!(after.confidence, 510);
    assert_eq!(after.last_seen, 1);
    assert_eq!(after.created_at, 0);
}

#[test]
fn scenario_full_model_retires_weakest_eligible() {
    let mut model = SurfelModel::new(2).unwrap();
    // Stability window of 2 frames; staleness effectively off.
    let mut fusion = SurfelFusion::new(W, H, builder(10_000), params(10, 2, 1000)).unwrap();
    let cam = camera();
    // Frame 0: a far surfel with very low confidence (penalty 400 floors
    // the confidence at 1).
    fusion
        .integrate(&mut model, &frame_with(&[(0, frontal_sample(0, 0, 2000))]), &cam)
        .unwrap();
    // Frame 1: a nearer, stronger surfel.
    fusion
        .integrate(&mut model, &frame_with(&[(0, frontal_sample(200, 0, 1000))]), &cam)
        .unwrap();
    assert_eq!(model.live(), 2);
    assert_eq!(model.get(0).unwrap().confidence, 1);
    // Frame 2: nothing, so both surfels age past the stability window.
    fusion.integrate(&mut model, &empty_frame(), &cam).unwrap();
    // Frame 3: an unmatched sample with the model full: the weakest
    // surfel (slot 0) is retired and replaced; the count stays at 2.
    let stats = fusion
        .integrate(&mut model, &frame_with(&[(0, frontal_sample(400, 0, 1000))]), &cam)
        .unwrap();
    assert_eq!(stats.created, 1);
    assert_eq!(stats.retired, 1);
    assert_eq!(stats.dropped, 0);
    assert_eq!(model.live(), 2);
    let replaced = model.get(0).unwrap();
    assert_eq!(replaced.position.x, 400);
    assert_eq!(replaced.created_at, 3);
    // The stronger surfel survived.
    assert_eq!(model.get(1).unwrap().position.x, 200);
}

#[test]
fn capacity_pressure_drops_sample_when_nothing_is_eligible() {
    let mut model = SurfelModel::new(2).unwrap();
    // Stability window far longer than the test: nothing may be retired.
    let mut fusion = SurfelFusion::new(W, H, builder(10_000), params(10, 100, 1000)).unwrap();
    let cam = camera();
    fusion
        .integrate(&mut model, &frame_with(&[(0, frontal_sample(0, 0, 2000))]), &cam)
        .unwrap();
    fusion
        .integrate(&mut model, &frame_with(&[(0, frontal_sample(200, 0, 1000))]), &cam)
        .unwrap();
    fusion.integrate(&mut model, &empty_frame(), &cam).unwrap();
    let stats = fusion
        .integrate(&mut model, &frame_with(&[(0, frontal_sample(400, 0, 1000))]), &cam)
        .unwrap();
    // Dropped for capacity: reported, never overwriting a healthy surfel.
    assert_eq!(stats.created, 0);
    assert_eq!(stats.retired, 0);
    assert_eq!(stats.dropped, 1);
    assert_eq!(model.live(), 2);
    assert_eq!(model.get(0).unwrap().position.z, 2000);
    assert_eq!(model.get(1).unwrap().position.x, 200);
}

#[test]
fn scenario_stale_surfel_retired_exactly_at_limit() {
    let mut model = SurfelModel::new(4).unwrap();
    // Stability 1, staleness 3.
    let mut fusion = SurfelFusion::new(W, H, builder(1_000_000), params(10, 1, 3)).unwrap();
    let cam = camera();
    // Frame 0 creates one surfel that projects into the camera.
    fusion
        .integrate(&mut model, &frame_with(&[(0, frontal_sample(0, 0, 1000))]), &cam)
        .unwrap();
    // Frames 1 and 2: unmatched, but one frame short of the limit.
    fusion.integrate(&mut model, &empty_frame(), &cam).unwrap();
    let s2 = fusion.integrate(&mut model, &empty_frame(), &cam).unwrap();
    assert_eq!(s2.retired, 0);
    assert_eq!(model.live(), 1);
    // Frame 3: unmatched for exactly the staleness limit: swept.
    let s3 = fusion.integrate(&mut model, &empty_frame(), &cam).unwrap();
    assert_eq!(s3.retired, 1);
    assert_eq!(model.live(), 0);
}

#[test]
fn out_of_view_surfel_is_never_swept() {
    let mut model = SurfelModel::new(4).unwrap();
    // Aggressive staleness, but the surfel sits behind the camera.
    let mut fusion = SurfelFusion::new(W, H, builder(1_000_000), params(10, 1, 1)).unwrap();
    let cam = camera();
    let behind = surfelrec::Surfel {
        position: Vec3 { x: 0, y: 0, z: -1000 },
        normal: Vec3 { x: 0, y: 0, z: 1024 },
        radius: 10,
        color: ColorRgb { r: 0, g: 0, b: 0 },
        confidence: 5,
        last_seen: 0,
        created_at: 0,
        feature_ref: None,
    };
    model.insert(behind).unwrap();
    for _ in 0..5 {
        let stats = fusion.integrate(&mut model, &empty_frame(), &cam).unwrap();
        assert_eq!(stats.retired, 0);
    }
    assert_eq!(model.live(), 1);
}

#[test]
fn empty_frame_changes_nothing_but_staleness() {
    let mut model = SurfelModel::new(4).unwrap();
    let mut fusion = SurfelFusion::new(W, H, builder(1_000_000), params(10, 2, 1000)).unwrap();
    let cam = camera();
    fusion
        .integrate(&mut model, &frame_with(&[(0, frontal_sample(0, 0, 1000))]), &cam)
        .unwrap();
    let before = model.get(0).unwrap();
    // A fusion pass with a zero per-sample budget and no samples.
    let mut idle = SurfelFusion::new(W, H, builder(1_000_000), params(0, 2, 1000)).unwrap();
    let stats = idle.integrate(&mut model, &empty_frame(), &cam).unwrap();
    assert_eq!(stats.matched, 0);
    assert_eq!(stats.created, 0);
    assert_eq!(stats.retired, 0);
    assert_eq!(stats.dropped, 0);
    let after = model.get(0).unwrap();
    assert_eq!(after.position.z, before.position.z);
    assert_eq!(after.confidence, before.confidence);
    assert_eq!(after.last_seen, before.last_seen);
    assert_eq!(model.live(), 1);
}

#[test]
fn budget_limits_new_surfels_per_frame() {
    let mut model = SurfelModel::new(8).unwrap();
    // At most one new surfel per frame.
    let mut fusion = SurfelFusion::new(W, H, builder(1_000_000), params(1, 2, 1000)).unwrap();
    let frame = frame_with(&[
        (0, frontal_sample(0, 0, 1000)),
        (1, frontal_sample(300, 0, 1000)),
    ]);
    let stats = fusion.integrate(&mut model, &frame, &camera()).unwrap();
    // The second sample is skipped (not dropped-for-capacity).
    assert_eq!(stats.created, 1);
    assert_eq!(stats.dropped, 0);
    assert_eq!(model.live(), 1);
}

#[test]
fn mismatched_dimensions_fail_fast() {
    let mut model = SurfelModel::new(4).unwrap();
    let mut fusion = SurfelFusion::new(32, 32, builder(1_000_000), params(10, 2, 1000)).unwrap();
    let r = fusion.integrate(&mut model, &empty_frame(), &camera());
    assert!(matches!(
        r,
        Err(surfelrec::SurfelReconstError::InvalidArgument(_))
    ));
    assert_eq!(model.live(), 0);
}

#[test]
fn sparse_feature_biases_association() {
    let mut model = SurfelModel::new(4).unwrap();
    // Distance tolerance 250: both surfels are within reach of the probe,
    // but not of each other.
    let p = SurfelFusionParameters::new(10, 250, 500000, 2, 1000, 1).unwrap();
    let mut fusion = SurfelFusion::new(W, H, builder(1_000_000), p).unwrap();
    let cam = camera();
    // Two surfels, both near the later probe; the farther one carries
    // feature 7.
    let mut near = frontal_sample(0, 0, 1000);
    near.feature = None;
    let mut far = frontal_sample(0, 300, 1000);
    far.feature = Some(7);
    fusion
        .integrate(&mut model, &frame_with(&[(0, near), (1, far)]), &cam)
        .unwrap();
    assert_eq!(model.live(), 2);
    // A probe at the near position carrying feature 7: the feature match
    // is preferred over the closer surfel.
    let feats = vec![surfelrec::PixelFeature { x: 0, y: 0, id: 7 }];
    let probe = frame_with(&[(0, frontal_sample(0, 100, 1000))]);
    let stats = fusion
        .integrate_with_sparse_features(&mut model, &probe, &cam, &feats)
        .unwrap();
    assert_eq!(stats.matched, 1);
    let with_feature = model.get(1).unwrap();
    // The feature-bearing surfel absorbed the observation.
    assert_eq!(with_feature.last_seen, 1);
    assert_eq!(model.get(0).unwrap().last_seen, 0);
}

#[test]
fn subsampling_stride_skips_off_grid_pixels() {
    let mut model = SurfelModel::new(8).unwrap();
    let p = SurfelFusionParameters::new(10, 100, 500000, 2, 1000, 2).unwrap();
    let mut fusion = SurfelFusion::new(W, H, builder(1_000_000), p).unwrap();
    // Pixel 0 is on the stride-2 grid, pixel 1 is not.
    let frame = frame_with(&[
        (0, frontal_sample(0, 0, 1000)),
        (1, frontal_sample(300, 0, 1000)),
    ]);
    let stats = fusion.integrate(&mut model, &frame, &camera()).unwrap();
    assert_eq!(stats.created, 1);
    assert_eq!(model.live(), 1);
    assert_eq!(model.get(0).unwrap().position.x, 0);
}
