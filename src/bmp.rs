//! Embedding a secret into a 24-bit image file and extracting it: the file
//! is decoded to its RGB raster, the raster carries the secret, and the
//! raster is written back as a BMP file.
use vstd::prelude::*;
use vstd::utf8::encode_utf8;
use crate::grid::{StegError, encode_result, decode_result, encode_secret, decode_secret};

verus! {

/// The 8-bit RGB raster (width, height, row-major channel bytes) that an
/// image file decodes to, when it decodes to one.
pub uninterp spec fn rgb8_raster(file: Seq<u8>) -> Option<(u32, u32, Seq<u8>)>;

/// The BMP file that an 8-bit RGB raster is written as, when it can be.
pub uninterp spec fn bmp_file(width: u32, height: u32, channels: Seq<u8>) -> Option<Seq<u8>>;

/// Relies on `image::load_from_memory` (format guessed from the content):
/// an image that decodes to `DynamicImage::ImageRgb8` gives its width,
/// height and raw channel bytes; any other image or an error gives nothing.
#[verifier::external_body]
fn read_rgb8(file: &[u8]) -> (r: Option<(u32, u32, Vec<u8>)>)
    ensures
        match r {
            Some(t) => rgb8_raster(file@) == Some((t.0, t.1, t.2@)),
            None => rgb8_raster(file@) is None,
        },
{
    match image::load_from_memory(file) {
        Ok(image::DynamicImage::ImageRgb8(buf)) => Some((buf.width(), buf.height(), buf.into_raw())),
        _ => None,
    }
}

/// Relies on `image::write_buffer_with_format` with `ExtendedColorType::Rgb8`
/// and `ImageFormat::Bmp`: it writes the raster as a BMP file, or fails.
/// The encoder asserts that the buffer holds exactly three bytes per pixel.
#[verifier::external_body]
fn write_bmp(width: u32, height: u32, channels: &[u8]) -> (r: Option<Vec<u8>>)
    requires
        channels@.len() == 3 * width * height,
    ensures
        match r {
            Some(f) => bmp_file(width, height, channels@) == Some(f@),
            None => bmp_file(width, height, channels@) is None,
        },
{
    let mut out = std::io::Cursor::new(Vec::new());
    let color = image::ExtendedColorType::Rgb8;
    match image::write_buffer_with_format(&mut out, channels, width, height, color, image::ImageFormat::Bmp) {
        Ok(()) => Some(out.into_inner()),
        Err(_) => None,
    }
}

/// The raster of `file`, when it is 8-bit RGB with three bytes per pixel.
pub open spec fn raster_of(file: Seq<u8>) -> Option<(u32, u32, Seq<u8>)> {
    match rgb8_raster(file) {
        Some(t) => if t.2.len() == 3 * t.0 * t.1 {
            Some(t)
        } else {
            None
        },
        None => None,
    }
}

/// What embedding `secret` into the image `file` gives.
pub open spec fn file_encode_result(secret: Seq<char>, file: Seq<u8>) -> Result<Seq<u8>, StegError> {
    match raster_of(file) {
        None => Err(StegError::UnsupportedImage),
        Some(t) => match encode_result(t.2, encode_utf8(secret)) {
            Err(e) => Err(e),
            Ok(g) => match bmp_file(t.0, t.1, g) {
                Some(f) => Ok(f),
                None => Err(StegError::UnsupportedImage),
            },
        },
    }
}

/// What extracting a secret from the image `file` gives.
pub open spec fn file_decode_result(file: Seq<u8>) -> Result<Seq<char>, StegError> {
    match raster_of(file) {
        None => Err(StegError::UnsupportedImage),
        Some(t) => decode_result(t.2),
    }
}

/// Embeds and extracts secrets in 24-bit image files.
pub struct Steganography;

impl Steganography {
    fn raster(file: &[u8]) -> (r: Option<(u32, u32, Vec<u8>)>)
        ensures
            match r {
                Some(t) => raster_of(file@) == Some((t.0, t.1, t.2@)),
                None => raster_of(file@) is None,
            },
    {
        match read_rgb8(file) {
            Some((w, h, channels)) => {
                let (w64, h64) = (w as u64, h as u64);
                assert(w64 * h64 <= u64::MAX) by (nonlinear_arith)
                    requires
                        w64 <= u32::MAX,
                        h64 <= u32::MAX,
                ;
                let pixels = w64 * h64;
                assert(pixels * 3 == 3 * w * h) by (nonlinear_arith)
                    requires
                        pixels == w64 * h64,
                        w64 == w,
                        h64 == h,
                ;
                let clen = channels.len();
                let fits = match pixels.checked_mul(3) {
                    Some(n) => n == clen as u64,
                    None => false,
                };
                assert(fits == (channels@.len() == 3 * w * h));
                if fits {
                    Some((w, h, channels))
                } else {
                    None
                }
            },
            None => None,
        }
    }

    /// Embeds `secret` into the image file `image` and returns the result
    /// as a BMP file.
    pub fn encode_secret_into_bmp(secret: String, image: Vec<u8>) -> (r: Result<Vec<u8>, StegError>)
        ensures
            match file_encode_result(secret@, image@) {
                Ok(f) => r matches Ok(v) && v@ == f,
                Err(e) => r == Err::<Vec<u8>, StegError>(e),
            },
    {
        match Self::raster(image.as_slice()) {
            None => Err(StegError::UnsupportedImage),
            Some((w, h, mut channels)) => {
                match encode_secret(secret.as_str(), &mut channels) {
                    Err(e) => Err(e),
                    Ok(()) => match write_bmp(w, h, channels.as_slice()) {
                        Some(f) => Ok(f),
                        None => Err(StegError::UnsupportedImage),
                    },
                }
            },
        }
    }

    /// Extracts the secret embedded in the image file `image`.
    pub fn decode_secret_from_bmp(image: Vec<u8>) -> (r: Result<String, StegError>)
        ensures
            match file_decode_result(image@) {
                Ok(s) => r matches Ok(t) && t@ == s,
                Err(e) => r == Err::<String, StegError>(e),
            },
    {
        match Self::raster(image.as_slice()) {
            None => Err(StegError::UnsupportedImage),
            Some((_, _, channels)) => decode_secret(&channels),
        }
    }
}

} // verus!
