//! Online surfel-based scene reconstruction.
//!
//! The crate maintains a bounded, slot-addressed store of surfels (oriented
//! disc patches approximating a surface) and fuses a stream of range-image
//! frames into it: incoming samples are associated with existing surfels,
//! merged by confidence-weighted averaging, inserted as new surfels when
//! unmatched, and retired when stale.
//!
//! All geometry is carried in fixed-point integers: positions and radii in
//! plain world units, normals and rotation entries scaled by
//! [`NORM_ONE`].

mod camera;
mod error;
mod fusion;
mod math;
mod model;
mod rgb;
mod surfel;

pub use camera::{Camera, Pose};
pub use error::{SurfelReconsResult, SurfelReconstError};
pub use math::{Vec3, CONF_CAP, NORM_ONE, NORM_SQ_ONE};
pub use fusion::{
    FusionStats, PixelFeature, RangeImage, SurfelFusion, SurfelFusionParameters,
};
pub use model::{SlotId, SurfelModel};
pub use rgb::{ByteGrid, ColorRgb, ImageRgb8, IntoImageRgb8, PixelGrid, ToImageRgb8};
pub use surfel::{fuse, Sample, Surfel, SurfelBuilder};
