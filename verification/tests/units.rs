//! Unit tests for the model store, the builder, the merge arithmetic, and
//! the image conversions.

use surfelrec::{
    fuse, ByteGrid, Camera, ColorRgb, IntoImageRgb8, PixelGrid, Pose, RangeImage, Sample, Surfel,
    SurfelBuilder, SurfelFusionParameters, SurfelModel, SurfelReconstError, ToImageRgb8, Vec3,
};

fn unit_z_surfel(x: i64, confidence: u32, frame: u64) -> Surfel {
    Surfel {
        position: Vec3 { x, y: 0, z: 1000 },
        normal: Vec3 { x: 0, y: 0, z: 1024 },
        radius: 10,
        color: ColorRgb { r: 10, g: 20, b: 30 },
        confidence,
        last_seen: frame,
        created_at: frame,
        feature_ref: None,
    }
}

#[test]
fn model_rejects_zero_capacity() {
    assert!(matches!(
        SurfelModel::new(0),
        Err(SurfelReconstError::InvalidArgument(_))
    ));
}

#[test]
fn model_insert_fills_slots_in_order() {
    let mut m = SurfelModel::new(2).unwrap();
    assert_eq!(m.live(), 0);
    let a = m.insert(unit_z_surfel(1, 5, 0)).unwrap();
    let b = m.insert(unit_z_surfel(2, 6, 0)).unwrap();
    assert_eq!(a, 0);
    assert_eq!(b, 1);
    assert_eq!(m.live(), 2);
    assert_eq!(m.get(0).unwrap().position.x, 1);
    assert_eq!(m.get(1).unwrap().position.x, 2);
}

#[test]
fn model_insert_full_reports_capacity_exceeded() {
    let mut m = SurfelModel::new(1).unwrap();
    m.insert(unit_z_surfel(1, 5, 0)).unwrap();
    assert!(matches!(
        m.insert(unit_z_surfel(2, 6, 0)),
        Err(SurfelReconstError::CapacityExceeded)
    ));
    assert_eq!(m.live(), 1);
    assert_eq!(m.get(0).unwrap().position.x, 1);
}

#[test]
fn model_remove_frees_slot_for_reuse() {
    let mut m = SurfelModel::new(2).unwrap();
    m.insert(unit_z_surfel(1, 5, 0)).unwrap();
    m.insert(unit_z_surfel(2, 6, 0)).unwrap();
    m.remove(0);
    assert_eq!(m.live(), 1);
    assert!(m.get(0).is_none());
    let id = m.insert(unit_z_surfel(3, 7, 1)).unwrap();
    assert_eq!(id, 0);
    assert_eq!(m.get(0).unwrap().position.x, 3);
}

#[test]
fn model_update_replaces_in_place() {
    let mut m = SurfelModel::new(1).unwrap();
    m.insert(unit_z_surfel(1, 5, 0)).unwrap();
    m.update(0, unit_z_surfel(9, 8, 2));
    assert_eq!(m.get(0).unwrap().position.x, 9);
    assert_eq!(m.get(0).unwrap().confidence, 8);
    assert_eq!(m.live(), 1);
}

#[test]
fn snapshot_lists_live_surfels_in_slot_order() {
    let mut m = SurfelModel::new(3).unwrap();
    m.insert(unit_z_surfel(1, 5, 0)).unwrap();
    m.insert(unit_z_surfel(2, 6, 0)).unwrap();
    m.insert(unit_z_surfel(3, 7, 0)).unwrap();
    m.remove(1);
    let snap = m.snapshot_for_render();
    assert_eq!(snap.len(), 2);
    assert_eq!(snap[0].0, 0);
    assert_eq!(snap[0].1.position.x, 1);
    assert_eq!(snap[1].0, 2);
    assert_eq!(snap[1].1.position.x, 3);
}

#[test]
fn builder_rejects_bad_thresholds() {
    assert!(SurfelBuilder::new(-1, 100).is_err());
    assert!(SurfelBuilder::new(2000, 100).is_err());
    assert!(SurfelBuilder::new(512, 0).is_err());
    assert!(SurfelBuilder::new(512, 1).is_ok());
}

#[test]
fn builder_skips_invalid_and_grazing_samples() {
    let b = SurfelBuilder::new(512, 1_000_000).unwrap();
    let pose = Pose::identity();
    let mut s = Sample {
        valid: false,
        position: Vec3 { x: 0, y: 0, z: 1000 },
        normal: Vec3 { x: 0, y: 0, z: -1024 },
        color: ColorRgb { r: 1, g: 2, b: 3 },
        radius: 5,
        feature: Some(4),
    };
    assert!(b.build(&s, &pose, 0).is_none());
    s.valid = true;
    // A normal pointing away from the camera is rejected.
    let mut away = s;
    away.normal = Vec3 { x: 0, y: 0, z: 1024 };
    assert!(b.build(&away, &pose, 0).is_none());
    // A sideways normal fails the sixty-degree gate.
    let mut grazing = s;
    grazing.normal = Vec3 { x: 1024, y: 0, z: 0 };
    assert!(b.build(&grazing, &pose, 0).is_none());
    let built = b.build(&s, &pose, 7).unwrap();
    assert_eq!(built.position.z, 1000);
    assert_eq!(built.normal.z, -1024);
    assert_eq!(built.radius, 5);
    assert_eq!(built.created_at, 7);
    assert_eq!(built.last_seen, 7);
    assert_eq!(built.feature_ref, Some(4));
    // 256 - (1000*1000) / 1000000 = 255.
    assert_eq!(built.confidence, 255);
}

#[test]
fn builder_applies_pose_to_position() {
    let b = SurfelBuilder::new(512, 1_000_000).unwrap();
    // Identity rotation with a translation of (50, -20, 7).
    let pose = Pose::new(
        Vec3 { x: 1024, y: 0, z: 0 },
        Vec3 { x: 0, y: 1024, z: 0 },
        Vec3 { x: 0, y: 0, z: 1024 },
        Vec3 { x: 50, y: -20, z: 7 },
    )
    .unwrap();
    let s = Sample {
        valid: true,
        position: Vec3 { x: 100, y: 200, z: 300 },
        normal: Vec3 { x: 0, y: 0, z: -1024 },
        color: ColorRgb { r: 0, g: 0, b: 0 },
        radius: 5,
        feature: None,
    };
    let built = b.build(&s, &pose, 0).unwrap();
    assert_eq!(built.position.x, 150);
    assert_eq!(built.position.y, 180);
    assert_eq!(built.position.z, 307);
}

#[test]
fn fuse_takes_confidence_weighted_average() {
    let a = unit_z_surfel(100, 1, 0);
    let mut b = unit_z_surfel(200, 3, 2);
    b.radius = 4;
    b.color = ColorRgb { r: 50, g: 20, b: 30 };
    let f = fuse(&a, &b, 2);
    // (1*100 + 3*200) / 4 = 175.
    assert_eq!(f.position.x, 175);
    assert_eq!(f.position.z, 1000);
    assert_eq!(f.confidence, 4);
    // The radius shrinks to the finer estimate.
    assert_eq!(f.radius, 4);
    // (1*10 + 3*50) / 4 = 40.
    assert_eq!(f.color.r, 40);
    assert_eq!(f.last_seen, 2);
    assert_eq!(f.created_at, 0);
}

#[test]
fn fuse_caps_confidence() {
    let a = unit_z_surfel(0, 0x10_0000 - 1, 0);
    let b = unit_z_surfel(0, 5, 1);
    let f = fuse(&a, &b, 1);
    assert_eq!(f.confidence, 0x10_0000);
}

#[test]
fn params_reject_degenerate_tolerances() {
    assert!(SurfelFusionParameters::new(1, 0, 500000, 1, 1, 1).is_err());
    assert!(SurfelFusionParameters::new(1, 100, 500000, 1, 0, 1).is_err());
    assert!(SurfelFusionParameters::new(1, 100, 500000, 1, 1, 0).is_err());
    assert!(SurfelFusionParameters::new(1, 100, 2_000_000, 1, 1, 1).is_err());
    assert!(SurfelFusionParameters::new(0, 100, 500000, 0, 1, 1).is_ok());
    let d = SurfelFusionParameters::default();
    assert_eq!(d.scale_factor, 1);
    assert_eq!(d.staleness_limit, 10);
}

#[test]
fn range_image_rejects_wrong_sample_count() {
    let s = Sample {
        valid: false,
        position: Vec3 { x: 0, y: 0, z: 0 },
        normal: Vec3 { x: 0, y: 0, z: 0 },
        color: ColorRgb { r: 0, g: 0, b: 0 },
        radius: 0,
        feature: None,
    };
    assert!(RangeImage::new(2, 2, vec![s; 3]).is_err());
    assert!(RangeImage::new(2, 2, vec![s; 4]).is_ok());
    // A valid sample with a non-unit normal is rejected.
    let mut bad = s;
    bad.valid = true;
    bad.normal = Vec3 { x: 0, y: 0, z: 3 };
    bad.radius = 1;
    assert!(RangeImage::new(1, 1, vec![bad]).is_err());
}

#[test]
fn byte_grid_moves_into_image() {
    let data: Vec<u8> = (0u8..12u8).collect();
    let g = ByteGrid::new(2, 2, 3, data.clone()).unwrap();
    let img = g.into_image_rgb8();
    assert_eq!(img.width, 2);
    assert_eq!(img.height, 2);
    assert_eq!(img.data, data);
}

#[test]
fn byte_grid_rejects_wrong_buffer() {
    assert!(ByteGrid::new(2, 2, 3, vec![0u8; 11]).is_err());
    assert!(ByteGrid::new(2, 2, 3, vec![0u8; 12]).is_ok());
}

#[test]
fn render_projects_nearest_surfel_per_pixel() {
    let mut m = SurfelModel::new(4).unwrap();
    // Two surfels on the optical axis; the nearer one must win the pixel.
    let mut far = unit_z_surfel(0, 5, 0);
    far.position = Vec3 { x: 0, y: 0, z: 2000 };
    far.normal = Vec3 { x: 0, y: 0, z: -1024 };
    far.color = ColorRgb { r: 9, g: 9, b: 9 };
    let mut near = unit_z_surfel(0, 5, 0);
    near.position = Vec3 { x: 0, y: 0, z: 1000 };
    near.normal = Vec3 { x: 0, y: 0, z: -1024 };
    near.color = ColorRgb { r: 77, g: 1, b: 2 };
    m.insert(far).unwrap();
    m.insert(near).unwrap();
    let cam = Camera::new(512, 512, 32, 32, 64, 64, Pose::identity()).unwrap();
    let img = m.render_to_range_image(&cam);
    assert_eq!(img.width, 64);
    assert_eq!(img.height, 64);
    let px = img.samples[32 * 64 + 32];
    assert!(px.valid);
    assert_eq!(px.position.z, 1000);
    assert_eq!(px.color.r, 77);
    assert_eq!(px.normal.z, -1024);
    // An unpainted pixel stays invalid.
    assert!(!img.samples[0].valid);
}

#[test]
fn pixel_grid_interleaves_channels() {
    let data = vec![
        ColorRgb { r: 1, g: 2, b: 3 },
        ColorRgb { r: 4, g: 5, b: 6 },
        ColorRgb { r: 7, g: 8, b: 9 },
        ColorRgb { r: 10, g: 11, b: 12 },
    ];
    let g = PixelGrid::new(2, 2, data).unwrap();
    let img = g.to_image_rgb8();
    assert_eq!(img.width, 2);
    assert_eq!(img.height, 2);
    assert_eq!(img.data, (1u8..13u8).collect::<Vec<u8>>());
}
