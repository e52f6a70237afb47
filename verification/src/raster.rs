//! Decoded images: rasters of 8-bit samples with three or four channels, and
//! the decoding of raw bytes into them.

use crate::path::{PathView, VirtualPath};
use crate::text::{chars_of, eq_ignore_ascii_case, same_ignoring_case};
use vstd::prelude::*;

verus! {

/// Why raw bytes did not become a raster.
#[derive(Clone, Copy, Debug, PartialEq, Eq, Structural)]
pub enum DecodeError {
    /// The bytes are of no image format that is recognised.
    UnknownFormat,
    /// The bytes are damaged, or too few for the image they declare.
    CorruptData,
}

/// The decoder that the bytes of a path go to.
#[derive(Clone, Copy, Debug, PartialEq, Eq, Structural)]
pub enum Decoder {
    /// The decoder of the high-efficiency container format, for `heic` and
    /// `heif`.
    Heif,
    /// The decoder that tells the format from the first bytes.
    Generic,
}

/// The decoder for the bytes of a path, by its extension; none for a path
/// without one.
pub open spec fn decoder_of(path: PathView) -> Option<Decoder> {
    match path.extension() {
        Some(e) => if same_ignoring_case(e, "heic"@) || same_ignoring_case(e, "heif"@) {
            Some(Decoder::Heif)
        } else {
            Some(Decoder::Generic)
        },
        None => None,
    }
}

/// Picks the decoder for the bytes of a path by its extension.
pub fn decoder_for(path: &VirtualPath) -> (picked: Option<Decoder>)
    ensures
        picked == decoder_of(path@),
{
    match path.extension() {
        Some(ext) => {
            let heic = chars_of("heic");
            let heif = chars_of("heif");
            if eq_ignore_ascii_case(&ext, &heic) || eq_ignore_ascii_case(&ext, &heif) {
                Some(Decoder::Heif)
            } else {
                Some(Decoder::Generic)
            }
        },
        None => None,
    }
}

/// The number of samples of each pixel.
pub open spec fn channels(alpha: bool) -> int {
    if alpha {
        4
    } else {
        3
    }
}

/// The number of samples of a raster of the given size.
pub open spec fn sample_count(width: u32, height: u32, alpha: bool) -> int {
    width * height * channels(alpha)
}

/// A decoded image: rows of pixels, each of three samples (red, green, blue)
/// or four (with alpha), one byte per sample.
#[derive(Debug, PartialEq, Eq)]
pub struct Raster {
    width: u32,
    height: u32,
    alpha: bool,
    pixels: Vec<u8>,
}

/// The mathematical value of a [`Raster`].
pub ghost struct RasterView {
    pub width: u32,
    pub height: u32,
    pub alpha: bool,
    pub pixels: Seq<u8>,
}

/// The raster of the given size over the first samples of `data`: none when
/// `data` holds too few.
pub open spec fn assembled(alpha: bool, width: u32, height: u32, data: Seq<u8>) -> Option<
    RasterView,
> {
    if data.len() >= sample_count(width, height, alpha) {
        Some(
            RasterView { width, height, alpha, pixels: data.take(sample_count(width, height, alpha)) },
        )
    } else {
        None
    }
}

impl View for Raster {
    type V = RasterView;

    closed spec fn view(&self) -> RasterView {
        RasterView { width: self.width, height: self.height, alpha: self.alpha, pixels: self.pixels@ }
    }
}

impl Raster {
    #[verifier::type_invariant]
    spec fn holds_its_pixels(self) -> bool {
        self.pixels.len() == sample_count(self.width, self.height, self.alpha)
    }

    /// The raster of the given size over the first samples of `data`.
    pub fn assemble(alpha: bool, width: u32, height: u32, data: Vec<u8>) -> (raster: Option<Raster>)
        ensures
            match raster {
                Some(r) => assembled(alpha, width, height, data@) == Some(r@),
                None => assembled(alpha, width, height, data@).is_none(),
            },
    {
        let count: u128 = if alpha {
            4
        } else {
            3
        };
        proof {
            assert(width * height <= 0xffff_ffff * 0xffff_ffff) by (nonlinear_arith)
                requires
                    width <= 0xffff_ffff,
                    height <= 0xffff_ffff,
            ;
            assert(0 <= width * height) by (nonlinear_arith);
        }
        let area: u128 = (width as u128) * (height as u128);
        let need: u128 = area * count;
        if (data.len() as u128) < need {
            return None;
        }
        let mut pixels = data;
        pixels.truncate(need as usize);
        Some(Raster { width, height, alpha, pixels })
    }

    /// A raster holds no more bytes than a machine can count.
    pub proof fn lemma_size_fits(self)
        ensures
            self@.pixels.len() <= usize::MAX,
    {
        assert(self.pixels@.len() == self.pixels.len());
    }

    /// A fresh copy of the raster.
    pub fn duplicate(&self) -> (copy: Raster)
        ensures
            copy@ == self@,
    {
        proof {
            use_type_invariant(self);
        }
        let mut pixels: Vec<u8> = Vec::new();
        let mut i: usize = 0;
        while i < self.pixels.len()
            invariant
                i <= self.pixels.len(),
                pixels@ == self.pixels@.take(i as int),
            decreases self.pixels.len() - i,
        {
            pixels.push(self.pixels[i]);
            proof {
                assert(pixels@ =~= self.pixels@.take(i + 1));
            }
            i += 1;
        }
        proof {
            assert(self.pixels@.take(self.pixels.len() as int) =~= self.pixels@);
        }
        Raster { width: self.width, height: self.height, alpha: self.alpha, pixels }
    }

    /// The number of pixels in a row.
    pub fn width(&self) -> (w: u32)
        ensures
            w == self@.width,
    {
        self.width
    }

    /// The number of rows.
    pub fn height(&self) -> (h: u32)
        ensures
            h == self@.height,
    {
        self.height
    }

    /// Whether each pixel has an alpha sample.
    pub fn has_alpha(&self) -> (alpha: bool)
        ensures
            alpha == self@.alpha,
    {
        self.alpha
    }

    /// The samples, row by row.
    pub fn pixels(&self) -> (samples: &Vec<u8>)
        ensures
            samples@ == self@.pixels,
            samples@.len() == sample_count(self@.width, self@.height, self@.alpha),
    {
        proof {
            use_type_invariant(self);
        }
        &self.pixels
    }

    /// The number of bytes that the raster holds.
    pub fn byte_len(&self) -> (n: usize)
        ensures
            n == self@.pixels.len(),
    {
        self.pixels.len()
    }
}

/// What decoding `bytes` as an image of a format told from its first bytes
/// gives: whether the pixels have alpha, the width, the height and the
/// samples, or why there is no image.
pub uninterp spec fn sniffed_image(bytes: Seq<u8>) -> Result<(bool, u32, u32, Seq<u8>), DecodeError>;

/// The mathematical value of the outcome of decoding.
pub open spec fn sniffed_outcome(r: Result<(bool, u32, u32, Vec<u8>), DecodeError>) -> Result<
    (bool, u32, u32, Seq<u8>),
    DecodeError,
> {
    match r {
        Ok((alpha, width, height, data)) => Ok((alpha, width, height, data@)),
        Err(e) => Err(e),
    }
}

/// Decodes an image held in memory with `image::guess_format`, which
/// tells the format from the first bytes by the crate's own table, and
/// `image::load_from_memory_with_format`. An image of four 8-bit channels
/// is handed on as it is, any other through `DynamicImage::into_rgb8`, each
/// with the buffer of `ImageBuffer::into_raw`. Believed, not proved: the
/// outcome depends on the bytes alone. A format that is not recognised or
/// not supported is reported as `UnknownFormat`, every other failure as
/// `CorruptData`.
#[verifier::external_body]
fn image_decode(bytes: &Vec<u8>) -> (decoded: Result<(bool, u32, u32, Vec<u8>), DecodeError>)
    ensures
        sniffed_outcome(decoded) == sniffed_image(bytes@),
{
    let decoded = image::guess_format(bytes.as_slice()).and_then(
        |format| image::load_from_memory_with_format(bytes.as_slice(), format),
    );
    match decoded {
        Ok(image::DynamicImage::ImageRgba8(buf)) => Ok(
            (true, buf.width(), buf.height(), buf.into_raw()),
        ),
        Ok(other) => {
            let buf = other.into_rgb8();
            Ok((false, buf.width(), buf.height(), buf.into_raw()))
        },
        Err(image::ImageError::Unsupported(_)) => Err(DecodeError::UnknownFormat),
        Err(_) => Err(DecodeError::CorruptData),
    }
}

/// The raster that decoded values make: the decoder's failure stands, and
/// samples too few for the declared size are corrupt data.
pub open spec fn raster_of(decoded: Result<(bool, u32, u32, Seq<u8>), DecodeError>) -> Result<
    RasterView,
    DecodeError,
> {
    match decoded {
        Ok((alpha, width, height, data)) => match assembled(alpha, width, height, data) {
            Some(r) => Ok(r),
            None => Err(DecodeError::CorruptData),
        },
        Err(e) => Err(e),
    }
}

/// The mathematical value of a raster or a failure.
pub open spec fn raster_outcome(r: Result<Raster, DecodeError>) -> Result<RasterView, DecodeError> {
    match r {
        Ok(raster) => Ok(raster@),
        Err(e) => Err(e),
    }
}

/// Makes a raster of what a decoder handed out.
pub fn finish_decode(decoded: Result<(bool, u32, u32, Vec<u8>), DecodeError>) -> (raster: Result<
    Raster,
    DecodeError,
>)
    ensures
        raster_outcome(raster) == raster_of(sniffed_outcome(decoded)),
{
    match decoded {
        Ok((alpha, width, height, data)) => match Raster::assemble(alpha, width, height, data) {
            Some(r) => Ok(r),
            None => Err(DecodeError::CorruptData),
        },
        Err(e) => Err(e),
    }
}

/// Decodes an image of a format told from its first bytes.
pub fn decode_generic(bytes: &Vec<u8>) -> (raster: Result<Raster, DecodeError>)
    ensures
        raster_outcome(raster) == raster_of(sniffed_image(bytes@)),
{
    finish_decode(image_decode(bytes))
}

/// What became of an attempt to decode the bytes of a path.
#[derive(Debug, PartialEq, Eq)]
pub enum DecodeStep {
    /// The bytes were decoded.
    Decoded(Raster),
    /// The bytes could not be decoded.
    Failed(DecodeError),
    /// The bytes are for the decoder of the high-efficiency container
    /// format, whose output [`Raster::assemble`] takes.
    HandOver,
}

impl View for DecodeStep {
    type V = Option<Result<RasterView, DecodeError>>;

    open spec fn view(&self) -> Option<Result<RasterView, DecodeError>> {
        match self {
            DecodeStep::Decoded(r) => Some(Ok(r@)),
            DecodeStep::Failed(e) => Some(Err(*e)),
            DecodeStep::HandOver => None,
        }
    }
}

/// What decoding the bytes of a path gives: a failure for a path without
/// extension, which has no decoder; nothing yet for `heic` and `heif`, which
/// are handed over; and for any other path what the decoder that tells the
/// format from the first bytes makes of them.
pub open spec fn decode_step(path: PathView, bytes: Seq<u8>) -> Option<
    Result<RasterView, DecodeError>,
> {
    match decoder_of(path) {
        None => Some(Err(DecodeError::UnknownFormat)),
        Some(Decoder::Heif) => None,
        Some(Decoder::Generic) => Some(raster_of(sniffed_image(bytes))),
    }
}

/// Decodes the bytes of a path, as far as its decoder is at hand.
pub fn try_decode_image(image_data: &Vec<u8>, image_pb: &VirtualPath) -> (step: DecodeStep)
    ensures
        step@ == decode_step(image_pb@, image_data@),
{
    match decoder_for(image_pb) {
        None => DecodeStep::Failed(DecodeError::UnknownFormat),
        Some(Decoder::Heif) => DecodeStep::HandOver,
        Some(Decoder::Generic) => match decode_generic(image_data) {
            Ok(r) => DecodeStep::Decoded(r),
            Err(e) => DecodeStep::Failed(e),
        },
    }
}

} // verus!
