use crate::error::{SurfelReconsResult, SurfelReconstError};
use vstd::prelude::*;

verus! {

/// One RGB color sample, eight bits per channel.
#[derive(Debug, Clone, Copy, PartialEq, Eq, Structural)]
pub struct ColorRgb {
    pub r: u8,
    pub g: u8,
    pub b: u8,
}

impl ColorRgb {
    pub fn new(r: u8, g: u8, b: u8) -> (c: ColorRgb)
        ensures
            c == (ColorRgb { r, g, b }),
    {
        ColorRgb { r, g, b }
    }
}

/// Largest accepted image dimension, in pixels.
pub const IMAGE_DIM_LIMIT: usize = 16384;

/// An eight-bit RGB image: row-major, channel-interleaved bytes.
pub struct ImageRgb8 {
    pub width: usize,
    pub height: usize,
    pub data: Vec<u8>,
}

pub open spec fn image_wf(img: ImageRgb8) -> bool {
    &&& img.width <= IMAGE_DIM_LIMIT
    &&& img.height <= IMAGE_DIM_LIMIT
    &&& img.data@.len() == img.height as int * img.width as int * 3
}

impl ImageRgb8 {
    /// Wraps raw interleaved bytes, rejecting a buffer whose size does not
    /// match the dimensions.
    pub fn from_raw(width: usize, height: usize, data: Vec<u8>) -> (r: SurfelReconsResult<
        ImageRgb8,
    >)
        ensures
            r is Ok <==> image_wf(ImageRgb8 { width, height, data: data }),
            r is Ok ==> r.unwrap().width == width && r.unwrap().height == height && r.unwrap()
                .data@ == data@,
    {
        if width > IMAGE_DIM_LIMIT || height > IMAGE_DIM_LIMIT {
            return Err(
                SurfelReconstError::InvalidArgument(("image dimensions out of range").to_string()),
            );
        }
        proof {
            crate::math::lemma_mul_le(height as int, width as int, 16384, 16384);
            crate::math::lemma_mul_le(height as int * width as int, 3, 0x1000_0000, 3);
        }
        let expect: usize = height * width * 3;
        if data.len() != expect {
            return Err(
                SurfelReconstError::InvalidArgument(
                    ("image buffer size does not match its dimensions").to_string(),
                ),
            );
        }
        Ok(ImageRgb8 { width, height, data })
    }
}

/// A three-dimensional grid of bytes indexed `[row][column][channel]`,
/// row-major, as range sensors and learned pipelines hand color data over.
pub struct ByteGrid {
    pub height: usize,
    pub width: usize,
    pub channels: usize,
    pub data: Vec<u8>,
}

pub open spec fn byte_grid_wf(g: ByteGrid) -> bool {
    &&& g.height <= IMAGE_DIM_LIMIT
    &&& g.width <= IMAGE_DIM_LIMIT
    &&& g.channels <= 8
    &&& g.data@.len() == g.height as int * g.width as int * g.channels as int
}

impl ByteGrid {
    /// Wraps a raw buffer, rejecting one whose size does not match the
    /// shape.
    pub fn new(height: usize, width: usize, channels: usize, data: Vec<u8>) -> (r:
        SurfelReconsResult<ByteGrid>)
        ensures
            r is Ok <==> byte_grid_wf(ByteGrid { height, width, channels, data: data }),
            r is Ok ==> r.unwrap().height == height && r.unwrap().width == width && r.unwrap()
                .channels == channels && r.unwrap().data@ == data@,
    {
        if height > IMAGE_DIM_LIMIT || width > IMAGE_DIM_LIMIT || channels > 8 {
            return Err(
                SurfelReconstError::InvalidArgument(("grid shape out of range").to_string()),
            );
        }
        proof {
            crate::math::lemma_mul_le(height as int, width as int, 16384, 16384);
            crate::math::lemma_mul_le(height as int * width as int, channels as int, 0x1000_0000,
                8);
        }
        let expect: usize = height * width * channels;
        if data.len() != expect {
            return Err(
                SurfelReconstError::InvalidArgument(
                    ("grid buffer size does not match its shape").to_string(),
                ),
            );
        }
        Ok(ByteGrid { height, width, channels, data })
    }
}

/// A two-dimensional grid of RGB pixels, row-major.
pub struct PixelGrid {
    pub height: usize,
    pub width: usize,
    pub data: Vec<ColorRgb>,
}

pub open spec fn pixel_grid_wf(g: PixelGrid) -> bool {
    &&& g.height <= IMAGE_DIM_LIMIT
    &&& g.width <= IMAGE_DIM_LIMIT
    &&& g.data@.len() == g.height as int * g.width as int
}

impl PixelGrid {
    /// Wraps a pixel buffer, rejecting one whose size does not match the
    /// shape.
    pub fn new(height: usize, width: usize, data: Vec<ColorRgb>) -> (r: SurfelReconsResult<
        PixelGrid,
    >)
        ensures
            r is Ok <==> pixel_grid_wf(PixelGrid { height, width, data: data }),
            r is Ok ==> r.unwrap().height == height && r.unwrap().width == width && r.unwrap()
                .data@ == data@,
    {
        if height > IMAGE_DIM_LIMIT || width > IMAGE_DIM_LIMIT {
            return Err(
                SurfelReconstError::InvalidArgument(("grid shape out of range").to_string()),
            );
        }
        proof {
            crate::math::lemma_mul_le(height as int, width as int, 16384, 16384);
        }
        let expect: usize = height * width;
        if data.len() != expect {
            return Err(
                SurfelReconstError::InvalidArgument(
                    ("pixel count does not match the shape").to_string(),
                ),
            );
        }
        Ok(PixelGrid { height, width, data })
    }
}

/// The row-major, channel-interleaved bytes of a pixel sequence.
pub open spec fn interleave(s: Seq<ColorRgb>) -> Seq<u8>
    decreases s.len(),
{
    if s.len() == 0 {
        Seq::empty()
    } else {
        interleave(s.drop_last()) + seq![s.last().r, s.last().g, s.last().b]
    }
}

pub proof fn lemma_interleave_len(s: Seq<ColorRgb>)
    ensures
        interleave(s).len() == 3 * s.len(),
    decreases s.len(),
{
    if s.len() > 0 {
        lemma_interleave_len(s.drop_last());
    }
}

/// Conversion of an owned byte grid into an RGB image.
pub trait IntoImageRgb8: Sized {
    /// Whether the value is convertible as it stands.
    spec fn rgb8_ready(self) -> bool;

    /// The width and height of the resulting image.
    spec fn rgb8_dims(self) -> (int, int);

    /// The interleaved bytes of the resulting image.
    spec fn rgb8_bytes(self) -> Seq<u8>;

    fn into_image_rgb8(self) -> (r: ImageRgb8)
        requires
            self.rgb8_ready(),
        ensures
            image_wf(r),
            r.width as int == self.rgb8_dims().0,
            r.height as int == self.rgb8_dims().1,
            r.data@ == self.rgb8_bytes(),
    ;
}

impl IntoImageRgb8 for ByteGrid {
    /// A grid converts when well-formed with exactly three channels.
    open spec fn rgb8_ready(self) -> bool {
        byte_grid_wf(self) && self.channels == 3
    }

    open spec fn rgb8_dims(self) -> (int, int) {
        (self.width as int, self.height as int)
    }

    open spec fn rgb8_bytes(self) -> Seq<u8> {
        self.data@
    }

    /// The grid's `[row][column][channel]` layout is already the image's
    /// row-major interleaved layout, so the buffer moves as it is.
    fn into_image_rgb8(self) -> (r: ImageRgb8) {
        ImageRgb8 { width: self.width, height: self.height, data: self.data }
    }
}

/// Conversion of a borrowed pixel grid into an RGB image.
pub trait ToImageRgb8 {
    /// Whether the value is convertible as it stands.
    spec fn rgb8_ready(&self) -> bool;

    /// The width and height of the resulting image.
    spec fn rgb8_dims(&self) -> (int, int);

    /// The interleaved bytes of the resulting image.
    spec fn rgb8_bytes(&self) -> Seq<u8>;

    fn to_image_rgb8(&self) -> (r: ImageRgb8)
        requires
            self.rgb8_ready(),
        ensures
            image_wf(r),
            r.width as int == self.rgb8_dims().0,
            r.height as int == self.rgb8_dims().1,
            r.data@ == self.rgb8_bytes(),
    ;
}

impl ToImageRgb8 for PixelGrid {
    open spec fn rgb8_ready(&self) -> bool {
        pixel_grid_wf(*self)
    }

    open spec fn rgb8_dims(&self) -> (int, int) {
        (self.width as int, self.height as int)
    }

    open spec fn rgb8_bytes(&self) -> Seq<u8> {
        interleave(self.data@)
    }

    /// Interleaves the pixels' channels into a fresh image buffer.
    fn to_image_rgb8(&self) -> (r: ImageRgb8) {
        proof {
            crate::math::lemma_mul_le(self.height as int, self.width as int, 16384, 16384);
        }
        let n = self.data.len();
        let mut out: Vec<u8> = Vec::new();
        let mut p: usize = 0;
        while p < n
            invariant
                p <= n,
                n == self.data@.len(),
                n <= 0x1000_0000,
                out@.len() == 3 * p as int,
                out@ == interleave(self.data@.take(p as int)),
            decreases n - p,
        {
            let c = self.data[p];
            out.push(c.r);
            out.push(c.g);
            out.push(c.b);
            proof {
                let pre = self.data@.take(p as int);
                let now = self.data@.take(p as int + 1);
                assert(now.drop_last() =~= pre);
                assert(now.last() == self.data@[p as int]);
                lemma_interleave_len(pre);
                assert(out@ =~= interleave(pre) + seq![c.r, c.g, c.b]);
            }
            p = p + 1;
        }
        proof {
            assert(self.data@.take(n as int) =~= self.data@);
            assert(3 * (self.height as int * self.width as int) == self.height as int
                * self.width as int * 3) by (nonlinear_arith);
        }
        ImageRgb8 { width: self.width, height: self.height, data: out }
    }
}

} // verus!
