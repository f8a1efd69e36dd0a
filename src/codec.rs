use vstd::prelude::*;

use crate::grid::{LumaGrid, Rgba, RgbaGrid};

verus! {

#[verifier::external_type_specification]
#[verifier::external_body]
pub struct ExDynamicImage(image::DynamicImage);

#[verifier::external_type_specification]
#[verifier::external_body]
pub struct ExImageError(image::ImageError);

#[verifier::external_type_specification]
#[verifier::external_body]
pub struct ExDecodeError(base64::DecodeError);

/// The bytes that `text` spells in standard base64, or `None` when it is
/// not such an encoding.
pub uninterp spec fn base64_decoded(text: Seq<u8>) -> Option<Seq<u8>>;

/// The standard, padded base64 spelling of `bytes`.
pub uninterp spec fn base64_encoded(bytes: Seq<u8>) -> Seq<char>;

/// `bytes` hold an image in a format that the `image` crate recognises and
/// decodes without error.
pub uninterp spec fn loads_as_image(bytes: Seq<u8>) -> bool;

/// Width, height and 8-bit luminance samples of the gray version of the
/// image that `bytes` hold.
pub uninterp spec fn luma_of(bytes: Seq<u8>) -> (u32, u32, Seq<u8>);

/// The PNG file written for the gray version of the image that `bytes`
/// hold, or `None` when PNG cannot hold it.
pub uninterp spec fn gray_png_of(bytes: Seq<u8>) -> Option<Seq<u8>>;

/// The PNG file written for a `width × height` RGBA image with the given
/// channels, four per pixel, row by row.
pub uninterp spec fn rgba_png_of(width: u32, height: u32, channels: Seq<u8>) -> Seq<u8>;

/// The channels of `pixels` laid end to end: red, green, blue, alpha.
pub open spec fn rgba_channels(pixels: Seq<Rgba>) -> Seq<u8> {
    Seq::new(
        4 * pixels.len(),
        |i: int|
            {
                let p = pixels[i / 4];
                if i % 4 == 0 {
                    p.r
                } else if i % 4 == 1 {
                    p.g
                } else if i % 4 == 2 {
                    p.b
                } else {
                    p.a
                }
            },
    )
}

/// An image decoded from the bytes `source()`. Only `load` builds one, so
/// `inner` is always what `image::load_from_memory` gave for those bytes.
pub struct LoadedImage {
    inner: image::DynamicImage,
    source: Ghost<Seq<u8>>,
}

/// The gray version of the image decoded from `source()`. Only `to_gray`
/// builds one, so `inner` is always `grayscale` of a `LoadedImage` of
/// those bytes.
pub struct GrayImage {
    inner: image::DynamicImage,
    source: Ghost<Seq<u8>>,
}

impl LoadedImage {
    /// The bytes this image was decoded from.
    pub closed spec fn source(&self) -> Seq<u8> {
        self.source@
    }

    /// The decoded image.
    pub fn image(&self) -> &image::DynamicImage {
        &self.inner
    }
}

impl GrayImage {
    /// The bytes the original image was decoded from.
    pub closed spec fn source(&self) -> Seq<u8> {
        self.source@
    }
}

/// Relies on `base64::decode`: the bytes that `text` encodes, or an error
/// when `text` is not valid standard base64.
#[verifier::external_body]
pub(crate) fn decode_base64(text: &[u8]) -> (r: Result<Vec<u8>, base64::DecodeError>)
    ensures
        match r {
            Ok(bytes) => base64_decoded(text@) == Some(bytes@),
            Err(_) => base64_decoded(text@) is None,
        },
{
    base64::decode(text)
}

/// Relies on `base64::encode`: the standard base64 spelling of `bytes`,
/// four characters for every started group of three bytes.
#[verifier::external_body]
pub(crate) fn encode_base64(bytes: &[u8]) -> (r: String)
    ensures
        r@ == base64_encoded(bytes@),
        r@.len() == 4 * ((bytes@.len() + 2) / 3),
{
    base64::encode(bytes)
}

/// Relies on `image::load_from_memory`: guesses the format of `bytes` and
/// decodes them; it fails exactly when that does not succeed.
#[verifier::external_body]
fn load_image(bytes: &[u8]) -> (r: Result<image::DynamicImage, image::ImageError>)
    ensures
        r is Ok <==> loads_as_image(bytes@),
{
    image::load_from_memory(bytes)
}

/// Relies on `DynamicImage::grayscale`: a gray copy of `img`.
#[verifier::external_body]
fn grayscale(img: &image::DynamicImage) -> image::DynamicImage {
    img.grayscale()
}

/// Relies on `DynamicImage::to_luma8`: the 8-bit luminance of the gray
/// image, in a buffer of exactly `width * height` samples.
#[verifier::external_body]
pub(crate) fn luma_grid(img: &GrayImage) -> (r: LumaGrid)
    ensures
        r.wf(),
        luma_of(img.source()) == (r.width, r.height, r.data@),
{
    let luma = img.inner.to_luma8();
    let (width, height) = luma.dimensions();
    LumaGrid { width, height, data: luma.into_raw() }
}

/// Relies on `DynamicImage::write_to` with the PNG format: the PNG file of
/// the gray image, or the encoder's error.
#[verifier::external_body]
pub(crate) fn gray_png(img: &GrayImage) -> (r: Result<Vec<u8>, image::ImageError>)
    ensures
        match r {
            Ok(png) => gray_png_of(img.source()) == Some(png@),
            Err(_) => gray_png_of(img.source()) is None,
        },
{
    let mut out = std::io::Cursor::new(Vec::new());
    img.inner.write_to(&mut out, image::ImageOutputFormat::Png).map(|_| out.into_inner())
}

/// Relies on `ImageBuffer::from_raw` and `DynamicImage::write_to` with the
/// PNG format: the PNG file of the RGBA image that `grid` holds. The buffer
/// is accepted whenever its `4 * width * height` channels fit in a `usize`,
/// and PNG refuses only a zero width or height.
#[verifier::external_body]
pub(crate) fn rgba_png(grid: &RgbaGrid) -> (r: Result<Vec<u8>, image::ImageError>)
    ensures
        r matches Ok(png) ==> png@ == rgba_png_of(
            grid.width,
            grid.height,
            rgba_channels(grid.pixels@),
        ),
        grid.wf() && grid.width > 0 && grid.height > 0 && 4 * grid.width * grid.height
            <= usize::MAX ==> r is Ok,
{
    let raw: Vec<u8> = grid.pixels.iter().flat_map(|p| [p.r, p.g, p.b, p.a]).collect();
    let buffer = image::ImageBuffer::<image::Rgba<u8>, Vec<u8>>::from_raw(grid.width, grid.height, raw)
        .ok_or_else(|| image::ImageError::Parameter(image::error::ParameterError::from_kind(
            image::error::ParameterErrorKind::DimensionMismatch,
        )))?;
    let mut out = std::io::Cursor::new(Vec::new());
    image::DynamicImage::ImageRgba8(buffer).write_to(&mut out, image::ImageOutputFormat::Png)?;
    Ok(out.into_inner())
}

/// The image that `bytes` hold, remembering where it came from.
pub(crate) fn load(bytes: &[u8]) -> (r: Result<LoadedImage, image::ImageError>)
    ensures
        r is Ok <==> loads_as_image(bytes@),
        r matches Ok(img) ==> img.source() == bytes@,
{
    match load_image(bytes) {
        Ok(inner) => Ok(LoadedImage { inner, source: Ghost(bytes@) }),
        Err(e) => Err(e),
    }
}

/// The gray version of `img`.
pub(crate) fn to_gray(img: &LoadedImage) -> (r: GrayImage)
    ensures
        r.source() == img.source(),
{
    GrayImage { inner: grayscale(&img.inner), source: Ghost(img.source@) }
}

} // verus!
