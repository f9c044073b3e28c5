//! Decoded images: rows of pixels, each with a red, a green and a blue
//! sample of eight bits.

use vstd::prelude::*;

verus! {

/// The number of samples of a pixel.
pub const CHANNELS: usize = 3;

/// A decoded image. Its samples stand row by row, from the top, and in each
/// row pixel by pixel, from the left, red before green before blue.
#[derive(Debug)]
pub struct Raster {
    width: u32,
    height: u32,
    data: Vec<u8>,
}

/// What a decoded image holds.
pub struct RasterView {
    pub width: nat,
    pub height: nat,
    pub data: Seq<u8>,
}

impl RasterView {
    /// The number of pixels.
    pub open spec fn pixels(self) -> nat {
        self.width * self.height
    }

    /// There are three samples to each pixel, and none besides.
    pub open spec fn wf(self) -> bool {
        self.data.len() == CHANNELS * self.pixels()
    }

    /// Sample `channel` of pixel `pixel`, counted along the rows.
    pub open spec fn sample(self, pixel: int, channel: int) -> u8 {
        self.data[CHANNELS * pixel + channel]
    }
}

impl View for Raster {
    type V = RasterView;

    closed spec fn view(&self) -> RasterView {
        RasterView { width: self.width as nat, height: self.height as nat, data: self.data@ }
    }
}

/// Why the bytes of an archive member are no image.
#[derive(Debug)]
pub struct DecodeFailure {
    pub reason: String,
}

/// The error of the image codecs, `image::ImageError`: carried, never looked
/// into.
#[verifier::external_type_specification]
#[verifier::external_body]
pub struct ExImageError(image::ImageError);

/// Calls `image::io::Reader::new(..).with_guessed_format()`, then `decode()`
/// and `DynamicImage::to_rgb8()` on what it gave.
///
/// Not proved: that the buffer handed back on success holds exactly three
/// samples for each of `width` times `height` pixels, as `ImageBuffer::new`
/// allocates it. Nothing is claimed of which image comes out of which bytes,
/// nor of when there is none: a codec may read the same bytes differently
/// on another machine. An error of any of the three steps is handed on.
#[verifier::external_body]
fn decode_rgb8(bytes: &Vec<u8>) -> (outcome: Result<Raster, image::ImageError>)
    ensures
        outcome matches Ok(raster) ==> raster@.wf(),
{
    let reader = image::io::Reader::new(std::io::Cursor::new(bytes.as_slice()));
    let image = reader.with_guessed_format()?.decode()?.to_rgb8();
    let (width, height) = image.dimensions();
    Ok(Raster { width, height, data: image.into_raw() })
}

/// Calls `ToString::to_string` on the error, which writes it out through
/// its `Display`. Nothing is claimed of the text.
#[verifier::external_body]
fn describe(error: &image::ImageError) -> (reason: String) {
    error.to_string()
}

impl Raster {
    #[verifier::type_invariant]
    spec fn well_formed(&self) -> bool {
        self@.wf()
    }

    /// An image of `width` by `height` pixels out of its samples, or nothing
    /// where their number is not three times that of the pixels.
    pub fn from_samples(width: u32, height: u32, data: Vec<u8>) -> (raster: Option<Raster>)
        ensures
            match raster {
                Some(raster) => raster@ == (RasterView {
                    width: width as nat,
                    height: height as nat,
                    data: data@,
                }) && raster@.wf(),
                None => data@.len() != CHANNELS * (width as nat * height as nat),
            },
    {
        assert((width as u128) * (height as u128) <= 0xffff_ffff * 0xffff_ffff)
            by (nonlinear_arith)
            requires
                width <= 0xffff_ffff,
                height <= 0xffff_ffff,
        ;
        let pixels: u128 = (width as u128) * (height as u128);
        if data.len() as u128 == 3 * pixels {
            Some(Raster { width, height, data })
        } else {
            None
        }
    }

    /// Reads the image that `bytes` encode, in whichever of the known
    /// formats their first bytes announce. Which image that is, and whether
    /// there is one, is the codec's to say; an image that comes out is well
    /// formed.
    pub fn decode(bytes: &Vec<u8>) -> (outcome: Result<Raster, DecodeFailure>)
        ensures
            outcome matches Ok(raster) ==> raster@.wf(),
    {
        match decode_rgb8(bytes) {
            Ok(raster) => Ok(raster),
            Err(error) => Err(DecodeFailure { reason: describe(&error) }),
        }
    }

    pub fn width(&self) -> (width: u32)
        ensures
            width == self@.width,
    {
        self.width
    }

    pub fn height(&self) -> (height: u32)
        ensures
            height == self@.height,
    {
        self.height
    }

    /// The number of pixels.
    pub fn pixel_count(&self) -> (count: usize)
        ensures
            count == self@.pixels(),
            self@.wf(),
    {
        proof {
            use_type_invariant(self);
        }
        self.data.len() / CHANNELS
    }

    /// Sample `channel` of pixel `pixel`, counted along the rows.
    pub fn sample(&self, pixel: usize, channel: usize) -> (value: u8)
        requires
            pixel < self@.pixels(),
            channel < CHANNELS,
        ensures
            value == self@.sample(pixel as int, channel as int),
    {
        let length = self.data.len();
        proof {
            use_type_invariant(self);
            assert(CHANNELS * pixel + channel < length);
        }
        self.data[CHANNELS * pixel + channel]
    }

    /// The samples, three to a pixel.
    pub fn samples(&self) -> (data: &Vec<u8>)
        ensures
            data@ == self@.data,
    {
        &self.data
    }
}

} // verus!
