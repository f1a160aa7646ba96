//! Raster images as plain pixel buffers, and the trusted wrappers around the
//! outside codecs: decoding to RGB, Lanczos resampling, and PNG and WebP
//! encoding.  Each codec result is a pure function of the wrapper's
//! arguments, so it is given a name that the callers' contracts build on.

use vstd::prelude::*;

verus! {

/// A decoded raster: tightly packed 8-bit RGB rows, three bytes per pixel.
pub struct RgbRaster {
    pub width: u32,
    pub height: u32,
    pub pixels: Vec<u8>,
}

impl RgbRaster {
    /// The buffer holds exactly one three-byte pixel per coordinate.
    pub open spec fn wf(&self) -> bool {
        self.pixels@.len() == 3 * self.width * self.height
    }
}

/// What decoding a byte string to 8-bit RGB yields: `None` when the bytes
/// are no readable raster image, otherwise width, height and packed pixels.
/// A function of the bytes alone.
pub uninterp spec fn rgb_decoding(b: Seq<u8>) -> Option<(u32, u32, Seq<u8>)>;

/// The packed RGB pixels of resampling a raster to the given dimensions with
/// a Lanczos-class filter.
pub uninterp spec fn lanczos_rgb(w: u32, h: u32, px: Seq<u8>, nw: u32, nh: u32) -> Seq<u8>;

/// The bytes of encoding a raster to the lossy target codec at a quality.
pub uninterp spec fn webp_rgb(w: u32, h: u32, px: Seq<u8>, quality: u8) -> Seq<u8>;

/// The bytes of losslessly encoding packed RGB pixels as PNG.
pub uninterp spec fn png_rgb(w: u32, h: u32, px: Seq<u8>) -> Seq<u8>;

/// The bytes of losslessly encoding 8-bit single-channel pixels as PNG.
pub uninterp spec fn png_gray(w: u32, h: u32, px: Seq<u8>) -> Seq<u8>;

#[verifier::external_type_specification]
#[verifier::external_body]
pub struct ExImageError(image::ImageError);

#[verifier::external_type_specification]
#[verifier::external_body]
pub struct ExWebPEncodingError(webp::WebPEncodingError);

/// Relies on `image::load_from_memory` and `DynamicImage::to_rgb8`: decoding
/// succeeds or fails deterministically on the bytes alone, and a decoded
/// `RgbImage` holds exactly three bytes per pixel.
#[verifier::external_body]
pub(crate) fn decode_rgb(bytes: &Vec<u8>) -> (r: Result<RgbRaster, image::ImageError>)
    ensures
        r matches Ok(img) ==> {
            &&& rgb_decoding(bytes@) == Some((img.width, img.height, img.pixels@))
            &&& img.wf()
        },
        r is Err <==> rgb_decoding(bytes@) is None,
{
    let img = image::load_from_memory(bytes.as_slice())?;
    let rgb = img.to_rgb8();
    let (width, height) = rgb.dimensions();
    Ok(RgbRaster { width, height, pixels: rgb.into_raw() })
}

/// Relies on `image::imageops::resize` with the Lanczos3 filter: the result
/// has exactly the requested dimensions, three bytes per pixel.
#[verifier::external_body]
pub(crate) fn resize_lanczos(img: &RgbRaster, nw: u32, nh: u32) -> (r: RgbRaster)
    requires
        img.wf(),
        1 <= nw,
        1 <= nh,
        3 * nw * nh <= usize::MAX,
    ensures
        r.width == nw,
        r.height == nh,
        r.pixels@ == lanczos_rgb(img.width, img.height, img.pixels@, nw, nh),
        r.wf(),
{
    let buf = image::RgbImage::from_raw(img.width, img.height, img.pixels.clone()).unwrap();
    let out = image::imageops::resize(&buf, nw, nh, image::imageops::FilterType::Lanczos3);
    RgbRaster { width: nw, height: nh, pixels: out.into_raw() }
}

/// Relies on `webp::Encoder::from_rgb` and `encode_simple` (lossy): on
/// success the bytes are the codec's encoding of the given pixels at the
/// given quality.  The buffer length must match the dimensions, else the
/// encoder's bounds check aborts.  The codec rejects any dimension above
/// 16383; success on smaller pictures is not promised, as the codec reports
/// resource exhaustion as an error value of its own.
#[verifier::external_body]
pub(crate) fn webp_encode(img: &RgbRaster, quality: u8) -> (r: Result<Vec<u8>, webp::WebPEncodingError>)
    requires
        img.wf(),
        1 <= img.width,
        1 <= img.height,
    ensures
        r matches Ok(b) ==> b@ == webp_rgb(img.width, img.height, img.pixels@, quality),
        img.width > 16383 || img.height > 16383 ==> r is Err,
{
    let encoder = webp::Encoder::from_rgb(&img.pixels, img.width, img.height);
    match encoder.encode_simple(false, quality.into()) {
        Ok(mem) => Ok(mem.to_vec()),
        Err(e) => Err(e),
    }
}

/// Relies on `image::RgbImage::from_raw` and `DynamicImage::write_to` with
/// the PNG format: on success the bytes are the PNG encoding of the given
/// packed RGB pixels.  The buffer length must match the dimensions, else
/// `from_raw` has no image to build.  The PNG encoder rejects exactly the
/// zero dimensions; nothing else can fail when writing to memory.
#[verifier::external_body]
pub(crate) fn png_encode_rgb(width: u32, height: u32, pixels: &Vec<u8>) -> (r: Result<Vec<u8>, image::ImageError>)
    requires
        pixels@.len() == 3 * width * height,
    ensures
        width >= 1 && height >= 1 ==> r is Ok,
        width == 0 || height == 0 ==> r is Err,
        r matches Ok(b) ==> b@ == png_rgb(width, height, pixels@),
{
    let img = image::RgbImage::from_raw(width, height, pixels.clone()).unwrap();
    let mut out = std::io::Cursor::new(Vec::new());
    image::DynamicImage::ImageRgb8(img).write_to(&mut out, image::ImageFormat::Png)?;
    Ok(out.into_inner())
}

/// Relies on `image::GrayImage::from_raw` and `DynamicImage::write_to` with
/// the PNG format: on success the bytes are the PNG encoding of the given
/// single-channel pixels.  The buffer length must match the dimensions.
/// The PNG encoder rejects exactly the zero dimensions; nothing else can
/// fail when writing to memory.
#[verifier::external_body]
pub(crate) fn png_encode_gray(width: u32, height: u32, pixels: &Vec<u8>) -> (r: Result<Vec<u8>, image::ImageError>)
    requires
        pixels@.len() == width * height,
    ensures
        width >= 1 && height >= 1 ==> r is Ok,
        width == 0 || height == 0 ==> r is Err,
        r matches Ok(b) ==> b@ == png_gray(width, height, pixels@),
{
    let img = image::GrayImage::from_raw(width, height, pixels.clone()).unwrap();
    let mut out = std::io::Cursor::new(Vec::new());
    image::DynamicImage::ImageLuma8(img).write_to(&mut out, image::ImageFormat::Png)?;
    Ok(out.into_inner())
}

} // verus!
