//! Page-description extraction: pages are enumerated in document order, each
//! page's resource dictionary is searched for embedded image objects, and
//! every image stream is decoded by its declared filter into one page file.
//! The document's object graph is opaque and reached through trusted
//! wrappers; everything decided on plain values — filter dispatch, stream
//! inflation, color-space handling, pixel conversion and numbering — is
//! verified.

use vstd::prelude::*;

use crate::fileset::views_of;
use crate::fileset::FileEntry;
use crate::kinds::ComicError;
use crate::names::page_name;
use crate::names::spec_page_name;
use crate::raster::png_encode_gray;
use crate::raster::png_encode_rgb;
use crate::raster::png_gray;
use crate::raster::png_rgb;

verus! {

#[verifier::external_type_specification]
#[verifier::external_body]
pub struct ExPdfDocument(lopdf::Document);

#[verifier::external_type_specification]
#[verifier::external_body]
pub struct ExPdfObject(lopdf::Object);

#[verifier::external_type_specification]
#[verifier::external_body]
pub struct ExPdfDictionary(lopdf::Dictionary);

#[verifier::external_type_specification]
#[verifier::external_body]
pub struct ExPdfStream(lopdf::Stream);

#[verifier::external_type_specification]
#[verifier::external_body]
pub struct ExPdfError(lopdf::Error);

/// Relies on `lopdf::Document::load_mem`: parses a document from bytes.
#[verifier::external_body]
fn pdf_load(bytes: &Vec<u8>) -> (r: Result<lopdf::Document, lopdf::Error>) {
    lopdf::Document::load_mem(bytes.as_slice())
}

/// Relies on `lopdf::Document::get_pages`: the page object ids, in ascending
/// page-number order, which is document order.
#[verifier::external_body]
fn pdf_pages(doc: &lopdf::Document) -> (r: Vec<(u32, u16)>) {
    doc.get_pages().into_values().collect()
}

/// Relies on `lopdf::Document::get_object`: resolves an object id.
#[verifier::external_body]
fn pdf_get_object(doc: &lopdf::Document, id: (u32, u16)) -> (r: Option<&lopdf::Object>) {
    doc.get_object(id).ok()
}

/// Relies on `lopdf::Object::as_dict`.
#[verifier::external_body]
fn pdf_as_dict(o: &lopdf::Object) -> (r: Option<&lopdf::Dictionary>) {
    o.as_dict().ok()
}

/// Relies on `lopdf::Object::as_stream`.
#[verifier::external_body]
fn pdf_as_stream(o: &lopdf::Object) -> (r: Option<&lopdf::Stream>) {
    o.as_stream().ok()
}

/// Relies on `lopdf::Object::as_reference`.
#[verifier::external_body]
fn pdf_as_reference(o: &lopdf::Object) -> (r: Option<(u32, u16)>) {
    o.as_reference().ok()
}

/// Relies on `lopdf::Object::as_name`: the name's bytes.
#[verifier::external_body]
fn pdf_as_name(o: &lopdf::Object) -> (r: Option<Vec<u8>>) {
    match o.as_name() {
        Ok(n) => Some(n.to_vec()),
        Err(_) => None,
    }
}

/// Relies on `lopdf::Object::as_i64`.
#[verifier::external_body]
fn pdf_as_i64(o: &lopdf::Object) -> (r: Option<i64>) {
    o.as_i64().ok()
}

/// Relies on `lopdf::Dictionary::get`.
#[verifier::external_body]
fn pdf_dict_get<'a>(d: &'a lopdf::Dictionary, key: &Vec<u8>) -> (r: Option<&'a lopdf::Object>) {
    d.get(key.as_slice()).ok()
}

/// Relies on `lopdf::Dictionary::iter`: the dictionary's values, in entry
/// order.
#[verifier::external_body]
fn pdf_dict_values<'a>(d: &'a lopdf::Dictionary) -> (r: Vec<&'a lopdf::Object>) {
    d.iter().map(|(_k, v)| v).collect()
}

/// Relies on `lopdf::Stream`'s public `dict` field.
#[verifier::external_body]
fn pdf_stream_dict(s: &lopdf::Stream) -> (r: &lopdf::Dictionary) {
    &s.dict
}

/// Relies on `lopdf::Stream`'s public `content` field: the stream's raw
/// (still filtered) bytes.
#[verifier::external_body]
fn pdf_stream_content(s: &lopdf::Stream) -> (r: Vec<u8>) {
    s.content.clone()
}

/// What zlib-inflating a byte string yields, or `None` when the bytes are no
/// zlib stream.  A function of the bytes alone.
pub uninterp spec fn inflated(b: Seq<u8>) -> Option<Seq<u8>>;

/// Relies on `flate2::read::ZlibDecoder`: inflation succeeds or fails
/// deterministically on the bytes alone.
#[verifier::external_body]
fn zlib_inflate(bytes: &Vec<u8>) -> (r: Option<Vec<u8>>)
    ensures
        r matches Some(d) ==> inflated(bytes@) == Some(d@),
        r is None <==> inflated(bytes@) is None,
{
    let mut decoder = flate2::read::ZlibDecoder::new(bytes.as_slice());
    let mut out: Vec<u8> = Vec::new();
    match std::io::Read::read_to_end(&mut decoder, &mut out) {
        Ok(_) => Some(out),
        Err(_) => None,
    }
}

/// One page's embedded image object, read off the document as plain values:
/// declared dimensions and depth, color space and filter names, and the raw
/// content bytes.
pub struct EmbeddedImageStream {
    pub width: u32,
    pub height: u32,
    pub bits_per_component: u32,
    pub color_space: Option<Vec<u8>>,
    pub filter: Option<Vec<u8>>,
    pub data: Vec<u8>,
}

/// The closed set of stream filters the extractor dispatches on.
#[derive(Clone, Copy, Debug, PartialEq, Eq, Structural)]
pub enum FilterKind {
    /// The content already is a complete encoded image; written verbatim.
    Dct,
    /// Zlib-compressed raw pixels; inflated, then read by color space.
    Flate,
    /// Fax compression; skipped, not fatal.
    Fax,
    /// Any other named filter; skipped, not fatal.
    OtherNamed,
    /// No name-shaped filter: the content is raw pixel data.
    Unfiltered,
}

pub open spec fn name_dct() -> Seq<u8> {
    seq![68u8, 67u8, 84u8, 68u8, 101u8, 99u8, 111u8, 100u8, 101u8]
}

pub open spec fn name_flate() -> Seq<u8> {
    seq![70u8, 108u8, 97u8, 116u8, 101u8, 68u8, 101u8, 99u8, 111u8, 100u8, 101u8]
}

pub open spec fn name_fax() -> Seq<u8> {
    seq![67u8, 67u8, 73u8, 84u8, 84u8, 70u8, 97u8, 120u8, 68u8, 101u8, 99u8, 111u8, 100u8, 101u8]
}

/// Dispatch of a declared filter name into the closed filter set.
pub open spec fn spec_filter_kind(f: Option<Seq<u8>>) -> FilterKind {
    match f {
        None => FilterKind::Unfiltered,
        Some(n) => {
            if n == name_dct() {
                FilterKind::Dct
            } else if n == name_flate() {
                FilterKind::Flate
            } else if n == name_fax() {
                FilterKind::Fax
            } else {
                FilterKind::OtherNamed
            }
        },
    }
}

/// Dispatches a declared filter name into the closed filter set.
pub fn filter_kind(f: &Option<Vec<u8>>) -> (r: FilterKind)
    ensures
        r == spec_filter_kind(match f {
            Some(n) => Some(n@),
            None => None,
        }),
{
    let n = match f {
        Some(n) => n,
        None => {
            return FilterKind::Unfiltered;
        },
    };
    let dct: Vec<u8> = vec![68u8, 67u8, 84u8, 68u8, 101u8, 99u8, 111u8, 100u8, 101u8];
    let flate: Vec<u8> = vec![
        70u8, 108u8, 97u8, 116u8, 101u8, 68u8, 101u8, 99u8, 111u8, 100u8, 101u8,
    ];
    let fax: Vec<u8> = vec![
        67u8, 67u8, 73u8, 84u8, 84u8, 70u8, 97u8, 120u8, 68u8, 101u8, 99u8, 111u8, 100u8, 101u8,
    ];
    if crate::names::bytes_eq(n, &dct) {
        FilterKind::Dct
    } else if crate::names::bytes_eq(n, &flate) {
        FilterKind::Flate
    } else if crate::names::bytes_eq(n, &fax) {
        FilterKind::Fax
    } else {
        FilterKind::OtherNamed
    }
}

/// The color-space/bit-depth combinations the extractor can rebuild.
#[derive(Clone, Copy, Debug, PartialEq, Eq, Structural)]
pub enum ColorKind {
    /// 8-bit three-channel device color.
    Rgb8,
    /// 8-bit single-channel.
    Gray8,
    /// 8-bit four-channel device color, converted to RGB.
    Cmyk8,
    /// Any other combination; skipped, not fatal.
    Unsupported,
}

pub open spec fn name_device_rgb() -> Seq<u8> {
    seq![68u8, 101u8, 118u8, 105u8, 99u8, 101u8, 82u8, 71u8, 66u8]
}

pub open spec fn name_device_gray() -> Seq<u8> {
    seq![68u8, 101u8, 118u8, 105u8, 99u8, 101u8, 71u8, 114u8, 97u8, 121u8]
}

pub open spec fn name_device_cmyk() -> Seq<u8> {
    seq![68u8, 101u8, 118u8, 105u8, 99u8, 101u8, 67u8, 77u8, 89u8, 75u8]
}

/// Dispatch of a declared color space and bit depth into the supported set.
pub open spec fn spec_color_kind(cs: Option<Seq<u8>>, bits: u32) -> ColorKind {
    match cs {
        None => ColorKind::Unsupported,
        Some(n) => {
            if bits != 8 {
                ColorKind::Unsupported
            } else if n == name_device_rgb() {
                ColorKind::Rgb8
            } else if n == name_device_gray() {
                ColorKind::Gray8
            } else if n == name_device_cmyk() {
                ColorKind::Cmyk8
            } else {
                ColorKind::Unsupported
            }
        },
    }
}

/// Dispatches a declared color space and bit depth into the supported set.
pub fn color_kind(cs: &Option<Vec<u8>>, bits: u32) -> (r: ColorKind)
    ensures
        r == spec_color_kind(
            match cs {
                Some(n) => Some(n@),
                None => None,
            },
            bits,
        ),
{
    let n = match cs {
        Some(n) => n,
        None => {
            return ColorKind::Unsupported;
        },
    };
    if bits != 8 {
        return ColorKind::Unsupported;
    }
    let rgb: Vec<u8> = vec![68u8, 101u8, 118u8, 105u8, 99u8, 101u8, 82u8, 71u8, 66u8];
    let gray: Vec<u8> = vec![68u8, 101u8, 118u8, 105u8, 99u8, 101u8, 71u8, 114u8, 97u8, 121u8];
    let cmyk: Vec<u8> = vec![68u8, 101u8, 118u8, 105u8, 99u8, 101u8, 67u8, 77u8, 89u8, 75u8];
    if crate::names::bytes_eq(n, &rgb) {
        ColorKind::Rgb8
    } else if crate::names::bytes_eq(n, &gray) {
        ColorKind::Gray8
    } else if crate::names::bytes_eq(n, &cmyk) {
        ColorKind::Cmyk8
    } else {
        ColorKind::Unsupported
    }
}

/// One channel of the CMYK-to-RGB conversion: the normalized product
/// `(1 - c)(1 - k)` scaled back to 8 bits, with the arithmetic carried out
/// exactly over integers.
pub open spec fn cmyk_component(c: u8, k: u8) -> u8 {
    ((((255 - c) * (255 - k)) / 255) as u8)
}

/// The RGB bytes of a packed 4-byte-per-pixel CMYK buffer: full color and
/// full key each darken a channel to zero.
pub open spec fn spec_cmyk_to_rgb(px: Seq<u8>) -> Seq<u8>
    decreases px.len(),
{
    if px.len() < 4 {
        Seq::empty()
    } else {
        seq![
            cmyk_component(px[0], px[3]),
            cmyk_component(px[1], px[3]),
            cmyk_component(px[2], px[3]),
        ] + spec_cmyk_to_rgb(px.skip(4))
    }
}

/// One channel of the CMYK-to-RGB conversion.
pub fn cmyk_component_ex(c: u8, k: u8) -> (r: u8)
    ensures
        r == cmyk_component(c, k),
{
    let a: u32 = (255 - c) as u32;
    let b: u32 = (255 - k) as u32;
    proof {
        assert(a * b <= 255 * 255) by (nonlinear_arith)
            requires
                a <= 255u32,
                b <= 255u32,
        ;
    }
    let p: u32 = a * b;
    (p / 255) as u8
}

/// Converts a packed CMYK buffer to packed RGB, three bytes out for every
/// four in.
pub fn cmyk_to_rgb(px: &Vec<u8>) -> (r: Vec<u8>)
    requires
        px@.len() % 4 == 0,
    ensures
        r@ == spec_cmyk_to_rgb(px@),
        4 * r@.len() == 3 * px@.len(),
{
    let mut out: Vec<u8> = Vec::new();
    let plen: usize = px.len();
    let npix: usize = plen / 4;
    let mut i: usize = 0;
    let mut j: usize = 0;
    proof {
        assert(px@.skip(0) =~= px@);
    }
    while i < npix
        invariant
            i <= npix,
            j == 4 * i,
            plen == px@.len(),
            4 * npix == plen,
            4 * out@.len() == 3 * j,
            out@ + spec_cmyk_to_rgb(px@.skip(j as int)) == spec_cmyk_to_rgb(px@),
        decreases npix - i,
    {
        let ghost tail = px@.skip(j as int);
        let c = px[j];
        let m = px[j + 1];
        let y = px[j + 2];
        let k = px[j + 3];
        proof {
            assert(tail[0] == px@[j as int]);
            assert(tail[1] == px@[j + 1]);
            assert(tail[2] == px@[j + 2]);
            assert(tail[3] == px@[j + 3]);
            assert(tail.skip(4) =~= px@.skip(j + 4));
        }
        out.push(cmyk_component_ex(c, k));
        out.push(cmyk_component_ex(m, k));
        out.push(cmyk_component_ex(y, k));
        proof {
            assert(out@ + spec_cmyk_to_rgb(px@.skip(j + 4)) =~= spec_cmyk_to_rgb(px@));
        }
        j = j + 4;
        i = i + 1;
    }
    proof {
        assert(j == px@.len());
        assert(spec_cmyk_to_rgb(px@.skip(j as int)) =~= Seq::<u8>::empty());
        assert(out@ =~= spec_cmyk_to_rgb(px@));
    }
    out
}

/// The view of an optional byte vector.
pub open spec fn opt_bytes_view(o: Option<Vec<u8>>) -> Option<Seq<u8>> {
    match o {
        Some(v) => Some(v@),
        None => None,
    }
}

pub open spec fn ext_jpg() -> Seq<u8> {
    seq![106u8, 112u8, 103u8]
}

pub open spec fn ext_png() -> Seq<u8> {
    seq![112u8, 110u8, 103u8]
}

/// Copies a byte vector.
fn copy_bytes(v: &Vec<u8>) -> (r: Vec<u8>)
    ensures
        r@ == v@,
{
    let mut r: Vec<u8> = Vec::new();
    crate::names::push_all(&mut r, v);
    proof {
        assert(r@ =~= v@);
    }
    r
}

/// Builds one page file from decoded raw pixels, by the supported color
/// kinds: a `.png` entry for 8-bit RGB, grayscale, or (where the filter path
/// supports it) CMYK converted to RGB.  An unsupported combination is a
/// skip, not a failure.  A pixel buffer shorter than the declared dimensions
/// ask (for the four-channel kind: of any other length than asked), or a
/// zero dimension, is a failure; surplus bytes past the declared size are
/// ignored, as a raster rebuilt from an oversized buffer reads only its
/// leading pixels.
fn build_raster_entry(
    w: u32,
    h: u32,
    ck: ColorKind,
    data: Vec<u8>,
    number: u64,
    cmyk_supported: bool,
) -> (r: Result<Option<FileEntry>, ComicError>)
    ensures
        r matches Err(e) ==> e == ComicError::ExtractionError,
        ck == ColorKind::Unsupported ==> r == Ok::<Option<FileEntry>, ComicError>(None),
        ck == ColorKind::Cmyk8 && !cmyk_supported ==> r == Ok::<Option<FileEntry>, ComicError>(
            None,
        ),
        ck == ColorKind::Rgb8 ==> if data@.len() < 3 * w * h || w == 0 || h == 0 {
            r is Err
        } else {
            r matches Ok(o) && o matches Some(e) && e.name@ == spec_page_name(
                number as nat,
                ext_png(),
            ) && e.data@ == png_rgb(w, h, data@.take(3 * w * h))
        },
        ck == ColorKind::Gray8 ==> if data@.len() < w * h || w == 0 || h == 0 {
            r is Err
        } else {
            r matches Ok(o) && o matches Some(e) && e.name@ == spec_page_name(
                number as nat,
                ext_png(),
            ) && e.data@ == png_gray(w, h, data@.take(w * h))
        },
        ck == ColorKind::Cmyk8 && cmyk_supported ==> if data@.len() != 4 * w * h || w == 0 || h
            == 0 {
            r is Err
        } else {
            r matches Ok(o) && o matches Some(e) && e.name@ == spec_page_name(
                number as nat,
                ext_png(),
            ) && e.data@ == png_rgb(w, h, spec_cmyk_to_rgb(data@))
        },
{
    let png: Vec<u8> = vec![112u8, 110u8, 103u8];
    match ck {
        ColorKind::Unsupported => Ok(None),
        ColorKind::Rgb8 => {
            proof {
                assert((w as int) * (h as int) <= 0xffff_ffff * 0xffff_ffff) by (nonlinear_arith)
                    requires
                        w <= 0xffff_ffffu32,
                        h <= 0xffff_ffffu32,
                ;
            }
            let wh: u64 = (w as u64) * (h as u64);
            proof {
                assert(3 * ((w as int) * (h as int)) == 3 * (w as int) * (h as int))
                    by (nonlinear_arith);
            }
            let dlen: usize = data.len();
            let want: u128 = 3u128 * (wh as u128);
            if (dlen as u128) < want || w == 0 || h == 0 {
                return Err(ComicError::ExtractionError);
            }
            let need: usize = want as usize;
            let pixels = crate::names::sub_bytes(&data, 0, need);
            proof {
                assert(pixels@ =~= data@.take(3 * (w as int) * (h as int)));
            }
            match png_encode_rgb(w, h, &pixels) {
                Ok(b) => Ok(Some(FileEntry { name: page_name(number, &png), data: b })),
                Err(_) => {
                    proof {
                        assert(false);
                    }
                    Err(ComicError::ExtractionError)
                },
            }
        },
        ColorKind::Gray8 => {
            proof {
                assert((w as int) * (h as int) <= 0xffff_ffff * 0xffff_ffff) by (nonlinear_arith)
                    requires
                        w <= 0xffff_ffffu32,
                        h <= 0xffff_ffffu32,
                ;
            }
            let wh: u64 = (w as u64) * (h as u64);
            let dlen: usize = data.len();
            let want: u128 = wh as u128;
            if (dlen as u128) < want || w == 0 || h == 0 {
                return Err(ComicError::ExtractionError);
            }
            let need: usize = want as usize;
            let pixels = crate::names::sub_bytes(&data, 0, need);
            proof {
                assert(pixels@ =~= data@.take((w as int) * (h as int)));
            }
            match png_encode_gray(w, h, &pixels) {
                Ok(b) => Ok(Some(FileEntry { name: page_name(number, &png), data: b })),
                Err(_) => {
                    proof {
                        assert(false);
                    }
                    Err(ComicError::ExtractionError)
                },
            }
        },
        ColorKind::Cmyk8 => {
            if !cmyk_supported {
                return Ok(None);
            }
            proof {
                assert((w as int) * (h as int) <= 0xffff_ffff * 0xffff_ffff) by (nonlinear_arith)
                    requires
                        w <= 0xffff_ffffu32,
                        h <= 0xffff_ffffu32,
                ;
            }
            let wh: u64 = (w as u64) * (h as u64);
            proof {
                assert(4 * ((w as int) * (h as int)) == 4 * (w as int) * (h as int))
                    by (nonlinear_arith);
                assert(3 * ((w as int) * (h as int)) == 3 * (w as int) * (h as int))
                    by (nonlinear_arith);
            }
            let want: u128 = 4u128 * (wh as u128);
            if (data.len() as u128) != want || w == 0 || h == 0 {
                return Err(ComicError::ExtractionError);
            }
            proof {
                vstd::arithmetic::div_mod::lemma_mod_multiples_basic(wh as int, 4);
                assert(data@.len() == (wh as int) * 4);
                assert(data@.len() % 4 == 0);
            }
            let rgb = cmyk_to_rgb(&data);
            proof {
                assert(rgb@.len() == 3 * (w as int) * (h as int));
            }
            match png_encode_rgb(w, h, &rgb) {
                Ok(b) => Ok(Some(FileEntry { name: page_name(number, &png), data: b })),
                Err(_) => {
                    proof {
                        assert(false);
                    }
                    Err(ComicError::ExtractionError)
                },
            }
        },
    }
}

/// Decodes one embedded image object into at most one page file, dispatching
/// on its declared filter: a `Dct` stream is already a complete encoded
/// image and is written verbatim under a `.jpg` page name; a `Flate` stream
/// is inflated and its pixels rebuilt by color space; fax and other named
/// filters are skipped; an unfiltered stream's content is read as raw pixels
/// (RGB or grayscale only).  Skips are `Ok(None)`: they are not fatal, but
/// still consume the page number handed in.
pub fn decode_embedded_image(img: &EmbeddedImageStream, number: u64) -> (r: Result<
    Option<FileEntry>,
    ComicError,
>)
    ensures
        r matches Err(e) ==> e == ComicError::ExtractionError,
        r matches Ok(o) ==> (o matches Some(e) ==> e.name@ == spec_page_name(
            number as nat,
            ext_jpg(),
        ) || e.name@ == spec_page_name(number as nat, ext_png())),
        spec_filter_kind(opt_bytes_view(img.filter)) == FilterKind::Dct ==> (r matches Ok(o)
            && o matches Some(e) && e.name@ == spec_page_name(number as nat, ext_jpg())
            && e.data@ == img.data@),
        spec_filter_kind(opt_bytes_view(img.filter)) == FilterKind::Fax || spec_filter_kind(
            opt_bytes_view(img.filter),
        ) == FilterKind::OtherNamed ==> r == Ok::<Option<FileEntry>, ComicError>(None),
        spec_filter_kind(opt_bytes_view(img.filter)) == FilterKind::Flate ==> match inflated(
            img.data@,
        ) {
            None => r is Err,
            Some(d) => raster_outcome_ok(
                img.width,
                img.height,
                spec_color_kind(opt_bytes_view(img.color_space), img.bits_per_component),
                d,
                number as nat,
                true,
                r,
            ),
        },
        spec_filter_kind(opt_bytes_view(img.filter)) == FilterKind::Unfiltered
            ==> raster_outcome_ok(
            img.width,
            img.height,
            spec_color_kind(opt_bytes_view(img.color_space), img.bits_per_component),
            img.data@,
            number as nat,
            false,
            r,
        ),
{
    let fk = filter_kind(&img.filter);
    match fk {
        FilterKind::Dct => {
            let jpg: Vec<u8> = vec![106u8, 112u8, 103u8];
            let name = page_name(number, &jpg);
            let data = copy_bytes(&img.data);
            Ok(Some(FileEntry { name, data }))
        },
        FilterKind::Fax => Ok(None),
        FilterKind::OtherNamed => Ok(None),
        FilterKind::Flate => {
            let d = match zlib_inflate(&img.data) {
                Some(d) => d,
                None => {
                    return Err(ComicError::ExtractionError);
                },
            };
            let ck = color_kind(&img.color_space, img.bits_per_component);
            build_raster_entry(img.width, img.height, ck, d, number, true)
        },
        FilterKind::Unfiltered => {
            let d = copy_bytes(&img.data);
            let ck = color_kind(&img.color_space, img.bits_per_component);
            build_raster_entry(img.width, img.height, ck, d, number, false)
        },
    }
}

/// Narrows a declared dimension to `u32`; a negative or oversized value is
/// treated like a missing one.
fn narrow_dim(v: i64) -> (r: u32)
    ensures
        0 <= v <= u32::MAX ==> r == v,
        !(0 <= v <= u32::MAX) ==> r == 0,
{
    if v < 0 || v > 0xffff_ffffi64 {
        0
    } else {
        v as u32
    }
}

/// Reads one image stream's declared properties and content off the document
/// as plain values: dimensions (0 when missing), bit depth (8 when missing),
/// and the filter and color-space names where they are name-shaped.
fn read_image_stream(stream: &lopdf::Stream) -> (img: EmbeddedImageStream) {
    let sdict = pdf_stream_dict(stream);
    let key_width: Vec<u8> = vec![87u8, 105u8, 100u8, 116u8, 104u8];
    let key_height: Vec<u8> = vec![72u8, 101u8, 105u8, 103u8, 104u8, 116u8];
    let key_bits: Vec<u8> = vec![
        66u8, 105u8, 116u8, 115u8, 80u8, 101u8, 114u8, 67u8, 111u8, 109u8, 112u8, 111u8, 110u8,
        101u8, 110u8, 116u8,
    ];
    let key_filter: Vec<u8> = vec![70u8, 105u8, 108u8, 116u8, 101u8, 114u8];
    let key_cs: Vec<u8> = vec![67u8, 111u8, 108u8, 111u8, 114u8, 83u8, 112u8, 97u8, 99u8, 101u8];
    let width = match pdf_dict_get(sdict, &key_width) {
        Some(o) => match pdf_as_i64(o) {
            Some(v) => narrow_dim(v),
            None => 0,
        },
        None => 0,
    };
    let height = match pdf_dict_get(sdict, &key_height) {
        Some(o) => match pdf_as_i64(o) {
            Some(v) => narrow_dim(v),
            None => 0,
        },
        None => 0,
    };
    let bits_per_component = match pdf_dict_get(sdict, &key_bits) {
        Some(o) => match pdf_as_i64(o) {
            Some(v) => narrow_dim(v),
            None => 8,
        },
        None => 8,
    };
    let filter = match pdf_dict_get(sdict, &key_filter) {
        Some(o) => pdf_as_name(o),
        None => None,
    };
    let color_space = match pdf_dict_get(sdict, &key_cs) {
        Some(o) => pdf_as_name(o),
        None => None,
    };
    let data = pdf_stream_content(stream);
    EmbeddedImageStream { width, height, bits_per_component, color_space, filter, data }
}

/// Whether an entry is the page file of number `n`: a verbatim image or a
/// rebuilt raster.
pub open spec fn page_entry_named(e: (Seq<u8>, Seq<u8>), n: nat) -> bool {
    e.0 == spec_page_name(n, ext_jpg()) || e.0 == spec_page_name(n, ext_png())
}

/// Extracts every embedded image object of one page into page files,
/// appending to `out` in resource-dictionary order and returning the page
/// number each appended file was written under.  The shared counter advances
/// once per attempted image — skips consume a number without producing a
/// file — so the numbers are strictly increasing.  A page without the
/// expected resource shape contributes nothing; a stream whose pixels cannot
/// be rebuilt is fatal.
fn extract_page_images(
    doc: &lopdf::Document,
    page_id: (u32, u16),
    out: &mut Vec<FileEntry>,
    counter: &mut u64,
) -> (r: (Result<(), ComicError>, Ghost<Seq<u64>>))
    ensures
        r.0 matches Err(e) ==> e == ComicError::ExtractionError,
        *final(counter) >= *old(counter),
        final(out)@.len() == old(out)@.len() + r.1@.len(),
        final(out)@.take(old(out)@.len() as int) == old(out)@,
        forall|k: int|
            0 <= k < r.1@.len() ==> page_entry_named(
                #[trigger] views_of(final(out)@)[old(out)@.len() + k],
                r.1@[k] as nat,
            ),
        forall|k: int|
            0 <= k < r.1@.len() ==> *old(counter) <= #[trigger] r.1@[k] < *final(counter),
        forall|k1: int, k2: int| 0 <= k1 < k2 < r.1@.len() ==> r.1@[k1] < r.1@[k2],
{
    let ghost out0 = out@;
    let ghost c0 = *counter;
    let ghost mut ns: Seq<u64> = Seq::empty();
    proof {
        assert(out@.take(out0.len() as int) =~= out0);
    }
    let key_res: Vec<u8> = vec![82u8, 101u8, 115u8, 111u8, 117u8, 114u8, 99u8, 101u8, 115u8];
    let key_xobj: Vec<u8> = vec![88u8, 79u8, 98u8, 106u8, 101u8, 99u8, 116u8];
    let key_subtype: Vec<u8> = vec![83u8, 117u8, 98u8, 116u8, 121u8, 112u8, 101u8];
    let name_image: Vec<u8> = vec![73u8, 109u8, 97u8, 103u8, 101u8];
    let page_obj = match pdf_get_object(doc, page_id) {
        Some(o) => o,
        None => {
            return (Ok(()), Ghost(Seq::empty()));
        },
    };
    let page_dict = match pdf_as_dict(page_obj) {
        Some(d) => d,
        None => {
            return (Ok(()), Ghost(Seq::empty()));
        },
    };
    let resources = match pdf_dict_get(page_dict, &key_res) {
        Some(o) => o,
        None => {
            return (Ok(()), Ghost(Seq::empty()));
        },
    };
    let res_dict = match pdf_as_dict(resources) {
        Some(d) => d,
        None => {
            return (Ok(()), Ghost(Seq::empty()));
        },
    };
    let xobj = match pdf_dict_get(res_dict, &key_xobj) {
        Some(o) => o,
        None => {
            return (Ok(()), Ghost(Seq::empty()));
        },
    };
    let xobj_dict = match pdf_as_dict(xobj) {
        Some(d) => d,
        None => {
            return (Ok(()), Ghost(Seq::empty()));
        },
    };
    let objects = pdf_dict_values(xobj_dict);
    let mut i: usize = 0;
    while i < objects.len()
        invariant
            out0 == old(out)@,
            c0 == *old(counter),
            *counter >= c0,
            out@.len() == out0.len() + ns.len(),
            out@.take(out0.len() as int) == out0,
            forall|k: int|
                0 <= k < ns.len() ==> page_entry_named(
                    #[trigger] views_of(out@)[out0.len() + k],
                    ns[k] as nat,
                ),
            forall|k: int| 0 <= k < ns.len() ==> c0 <= #[trigger] ns[k] < *counter,
            forall|k1: int, k2: int| 0 <= k1 < k2 < ns.len() ==> ns[k1] < ns[k2],
        decreases objects@.len() - i,
    {
        let obj = objects[i];
        i = i + 1;
        let rid = match pdf_as_reference(obj) {
            Some(id) => id,
            None => {
                continue ;
            },
        };
        let target = match pdf_get_object(doc, rid) {
            Some(o) => o,
            None => {
                continue ;
            },
        };
        let stream = match pdf_as_stream(target) {
            Some(s) => s,
            None => {
                continue ;
            },
        };
        let sdict = pdf_stream_dict(stream);
        let subtype = match pdf_dict_get(sdict, &key_subtype) {
            Some(o) => match pdf_as_name(o) {
                Some(n) => n,
                None => {
                    continue ;
                },
            },
            None => {
                continue ;
            },
        };
        if !crate::names::bytes_eq(&subtype, &name_image) {
            continue ;
        }
        let img = read_image_stream(stream);
        if *counter == u64::MAX {
            return (Err(ComicError::ExtractionError), Ghost(ns));
        }
        let ghost pre = out@;
        let ghost n_now = *counter;
        match decode_embedded_image(&img, *counter) {
            Ok(Some(entry)) => {
                let ghost ev = entry@;
                proof {
                    assert(page_entry_named(ev, n_now as nat));
                }
                out.push(entry);
                proof {
                    ns = ns.push(n_now);
                    assert(out@.take(out0.len() as int) =~= pre.take(out0.len() as int));
                    assert(views_of(out@)[out0.len() + (ns.len() - 1)] == ev);
                    assert forall|k: int| 0 <= k < ns.len() - 1 implies page_entry_named(
                        #[trigger] views_of(out@)[out0.len() + k],
                        ns[k] as nat,
                    ) by {
                        assert(out@[out0.len() + k] == pre[out0.len() + k]);
                        assert(views_of(out@)[out0.len() + k] == views_of(pre)[out0.len() + k]);
                    }
                }
            },
            Ok(None) => {},
            Err(e) => {
                return (Err(e), Ghost(ns));
            },
        }
        *counter = *counter + 1;
    }
    (Ok(()), Ghost(ns))
}

/// What one document extraction yields: the page files in extraction order,
/// and — for the contracts — the page number each file was written under.
pub struct PdfExtraction {
    pub files: Vec<FileEntry>,
    pub numbers: Ghost<Seq<u64>>,
}

/// Unpacks a page-description document: pages are walked in document order
/// and every embedded image object becomes one page file, named `page_` plus
/// at least four decimal digits and the filter's extension, under a shared
/// number that advances once per attempted image.  Skips consume a number
/// without producing a file, so the numbers of the produced files are
/// strictly increasing and never reused.  Fails with `ExtractionError` when
/// the bytes are no readable document, when a stream's pixels cannot be
/// rebuilt, or when not one image file came out of the whole document — such
/// input is no image-bearing container and yields no output.
pub fn extract_pdf(bytes: &Vec<u8>) -> (r: Result<PdfExtraction, ComicError>)
    ensures
        r matches Err(e) ==> e == ComicError::ExtractionError,
        r matches Ok(x) ==> {
            &&& x.files@.len() >= 1
            &&& x.numbers@.len() == x.files@.len()
            &&& forall|i: int|
                0 <= i < x.files@.len() ==> page_entry_named(
                    #[trigger] views_of(x.files@)[i],
                    x.numbers@[i] as nat,
                )
            &&& forall|i: int| 0 <= i < x.files@.len() ==> #[trigger] x.numbers@[i] >= 1
            &&& forall|i: int, j: int| 0 <= i < j < x.files@.len() ==> x.numbers@[i] < x.numbers@[j]
        },
{
    let doc = match pdf_load(bytes) {
        Ok(d) => d,
        Err(_) => {
            return Err(ComicError::ExtractionError);
        },
    };
    let pages = pdf_pages(&doc);
    let mut out: Vec<FileEntry> = Vec::new();
    let mut counter: u64 = 1;
    let ghost mut ns_all: Seq<u64> = Seq::empty();
    let mut i: usize = 0;
    while i < pages.len()
        invariant
            counter >= 1,
            ns_all.len() == out@.len(),
            forall|k: int|
                0 <= k < ns_all.len() ==> page_entry_named(
                    #[trigger] views_of(out@)[k],
                    ns_all[k] as nat,
                ),
            forall|k: int| 0 <= k < ns_all.len() ==> 1 <= #[trigger] ns_all[k] < counter,
            forall|k1: int, k2: int| 0 <= k1 < k2 < ns_all.len() ==> ns_all[k1] < ns_all[k2],
        decreases pages@.len() - i,
    {
        let page_id = pages[i];
        let ghost pre = out@;
        let ghost pre_ns = ns_all;
        let ghost c_before = counter;
        let (res, delta) = extract_page_images(&doc, page_id, &mut out, &mut counter);
        match res {
            Ok(_) => {},
            Err(e) => {
                return Err(e);
            },
        }
        proof {
            ns_all = ns_all + delta@;
            assert forall|k: int| 0 <= k < pre.len() implies out@[k] == pre[k] by {
                assert(out@.take(pre.len() as int)[k] == out@[k]);
            }
            assert forall|k: int| 0 <= k < ns_all.len() implies page_entry_named(
                #[trigger] views_of(out@)[k],
                ns_all[k] as nat,
            ) by {
                if k < pre_ns.len() {
                    assert(ns_all[k] == pre_ns[k]);
                    assert(views_of(out@)[k] == views_of(pre)[k]);
                } else {
                    assert(ns_all[k] == delta@[k - pre.len()]);
                    assert(views_of(out@)[pre.len() + (k - pre.len())] == views_of(out@)[k]);
                }
            }
            assert forall|k: int| 0 <= k < ns_all.len() implies 1 <= #[trigger] ns_all[k]
                < counter by {
                if k < pre_ns.len() {
                    assert(ns_all[k] == pre_ns[k]);
                    assert(1 <= pre_ns[k] < c_before);
                    assert(counter >= c_before);
                } else {
                    assert(ns_all[k] == delta@[k - pre.len()]);
                    assert(c_before <= delta@[k - pre.len()] < counter);
                }
            }
            assert forall|k1: int, k2: int|
                0 <= k1 < k2 < ns_all.len() implies ns_all[k1] < ns_all[k2] by {
                if k1 < pre_ns.len() && k2 >= pre_ns.len() {
                    assert(ns_all[k1] == pre_ns[k1] && pre_ns[k1] < c_before);
                    assert(ns_all[k2] == delta@[k2 - pre.len()] && delta@[k2 - pre.len()]
                        >= c_before);
                } else if k2 < pre_ns.len() {
                    assert(ns_all[k1] == pre_ns[k1] && ns_all[k2] == pre_ns[k2]);
                } else if k1 >= pre_ns.len() {
                    assert(ns_all[k1] == delta@[k1 - pre.len()] && ns_all[k2] == delta@[k2
                        - pre.len()]);
                }
            }
        }
        i = i + 1;
    }
    if out.len() == 0 {
        return Err(ComicError::ExtractionError);
    }
    Ok(PdfExtraction { files: out, numbers: Ghost(ns_all) })
}

/// What `build_raster_entry` promises of its result, abstracted over the
/// pixel source, so that the filter paths can share it.
pub open spec fn raster_outcome_ok(
    w: u32,
    h: u32,
    ck: ColorKind,
    d: Seq<u8>,
    number: nat,
    cmyk_supported: bool,
    r: Result<Option<FileEntry>, ComicError>,
) -> bool {
    &&& (ck == ColorKind::Unsupported ==> r == Ok::<Option<FileEntry>, ComicError>(None))
    &&& (ck == ColorKind::Cmyk8 && !cmyk_supported ==> r == Ok::<Option<FileEntry>, ComicError>(
        None,
    ))
    &&& (ck == ColorKind::Rgb8 ==> if d.len() < 3 * w * h || w == 0 || h == 0 {
        r is Err
    } else {
        r matches Ok(o) && o matches Some(e) && e.name@ == spec_page_name(number, ext_png())
            && e.data@ == png_rgb(w, h, d.take(3 * w * h))
    })
    &&& (ck == ColorKind::Gray8 ==> if d.len() < w * h || w == 0 || h == 0 {
        r is Err
    } else {
        r matches Ok(o) && o matches Some(e) && e.name@ == spec_page_name(number, ext_png())
            && e.data@ == png_gray(w, h, d.take(w * h))
    })
    &&& (ck == ColorKind::Cmyk8 && cmyk_supported ==> if d.len() != 4 * w * h || w == 0 || h
        == 0 {
        r is Err
    } else {
        r matches Ok(o) && o matches Some(e) && e.name@ == spec_page_name(number, ext_png())
            && e.data@ == png_rgb(w, h, spec_cmyk_to_rgb(d))
    })
}

} // verus!
