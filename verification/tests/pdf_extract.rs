//! Page-description extraction: filter dispatch, pixel rebuilding, the CMYK
//! conversion, skips, and the zero-image failure.

use comicpress::kinds::ComicError;
use comicpress::pdf::{cmyk_to_rgb, decode_embedded_image, extract_pdf, EmbeddedImageStream};
use std::io::Write;

fn zlib(data: &[u8]) -> Vec<u8> {
    let mut enc = flate2::write::ZlibEncoder::new(Vec::new(), flate2::Compression::default());
    enc.write_all(data).unwrap();
    enc.finish().unwrap()
}

/// A one-page document referencing the given image streams from its
/// resource dictionary.
fn build_pdf_with(images: Vec<lopdf::Stream>) -> Vec<u8> {
    let mut doc = lopdf::Document::with_version("1.5");
    let pages_id = doc.new_object_id();
    let mut page = lopdf::Dictionary::new();
    page.set("Type", lopdf::Object::Name(b"Page".to_vec()));
    page.set("Parent", lopdf::Object::Reference(pages_id));
    if !images.is_empty() {
        let mut xobjects = lopdf::Dictionary::new();
        for (i, stream) in images.into_iter().enumerate() {
            let img_id = doc.add_object(lopdf::Object::Stream(stream));
            xobjects.set(format!("Im{}", i + 1), lopdf::Object::Reference(img_id));
        }
        let mut resources = lopdf::Dictionary::new();
        resources.set("XObject", lopdf::Object::Dictionary(xobjects));
        page.set("Resources", lopdf::Object::Dictionary(resources));
    }
    let page_id = doc.add_object(lopdf::Object::Dictionary(page));
    let mut pages = lopdf::Dictionary::new();
    pages.set("Type", lopdf::Object::Name(b"Pages".to_vec()));
    pages.set("Kids", lopdf::Object::Array(vec![lopdf::Object::Reference(page_id)]));
    pages.set("Count", lopdf::Object::Integer(1));
    doc.objects.insert(pages_id, lopdf::Object::Dictionary(pages));
    let mut catalog = lopdf::Dictionary::new();
    catalog.set("Type", lopdf::Object::Name(b"Catalog".to_vec()));
    catalog.set("Pages", lopdf::Object::Reference(pages_id));
    let catalog_id = doc.add_object(lopdf::Object::Dictionary(catalog));
    doc.trailer.set("Root", lopdf::Object::Reference(catalog_id));
    let mut out: Vec<u8> = Vec::new();
    doc.save_to(&mut out).unwrap();
    out
}

fn build_pdf(image: Option<lopdf::Stream>) -> Vec<u8> {
    build_pdf_with(image.into_iter().collect())
}

fn image_stream(
    width: i64,
    height: i64,
    bits: i64,
    color_space: &[u8],
    filter: Option<&[u8]>,
    content: Vec<u8>,
) -> lopdf::Stream {
    let mut dict = lopdf::Dictionary::new();
    dict.set("Type", lopdf::Object::Name(b"XObject".to_vec()));
    dict.set("Subtype", lopdf::Object::Name(b"Image".to_vec()));
    dict.set("Width", lopdf::Object::Integer(width));
    dict.set("Height", lopdf::Object::Integer(height));
    dict.set("BitsPerComponent", lopdf::Object::Integer(bits));
    dict.set("ColorSpace", lopdf::Object::Name(color_space.to_vec()));
    if let Some(f) = filter {
        dict.set("Filter", lopdf::Object::Name(f.to_vec()));
    }
    lopdf::Stream::new(dict, content)
}

#[test]
fn zero_image_document_is_a_fatal_extraction_error() {
    let bytes = build_pdf(None);
    assert!(matches!(extract_pdf(&bytes), Err(ComicError::ExtractionError)));
}

#[test]
fn dct_stream_is_written_verbatim_as_jpg() {
    let payload = b"not really jpeg but written verbatim".to_vec();
    let stream = image_stream(3, 2, 8, b"DeviceRGB", Some(b"DCTDecode"), payload.clone());
    let bytes = build_pdf(Some(stream));
    let files = extract_pdf(&bytes).unwrap().files;
    assert_eq!(files.len(), 1);
    assert_eq!(files[0].name, b"page_0001.jpg".to_vec());
    assert_eq!(files[0].data, payload);
}

#[test]
fn flate_gray_stream_becomes_a_png_page() {
    let pixels: Vec<u8> = vec![0, 85, 170, 255];
    let stream = image_stream(2, 2, 8, b"DeviceGray", Some(b"FlateDecode"), zlib(&pixels));
    let bytes = build_pdf(Some(stream));
    let files = extract_pdf(&bytes).unwrap().files;
    assert_eq!(files.len(), 1);
    assert_eq!(files[0].name, b"page_0001.png".to_vec());
    let img = image::load_from_memory(&files[0].data).unwrap().to_luma8();
    assert_eq!(img.dimensions(), (2, 2));
    assert_eq!(img.into_raw(), pixels);
}

#[test]
fn flate_cmyk_stream_converts_pixels_to_rgb() {
    // Full C, M and Y with zero K darkens every channel to zero; all-zero
    // ink leaves white.
    let pixels: Vec<u8> = vec![255, 255, 255, 0, 0, 0, 0, 0];
    let stream = image_stream(2, 1, 8, b"DeviceCMYK", Some(b"FlateDecode"), zlib(&pixels));
    let bytes = build_pdf(Some(stream));
    let files = extract_pdf(&bytes).unwrap().files;
    assert_eq!(files.len(), 1);
    assert_eq!(files[0].name, b"page_0001.png".to_vec());
    let img = image::load_from_memory(&files[0].data).unwrap().to_rgb8();
    assert_eq!(img.dimensions(), (2, 1));
    assert_eq!(img.into_raw(), vec![0, 0, 0, 255, 255, 255]);
}

#[test]
fn fax_stream_is_skipped_but_consumes_a_page_number() {
    // The fax image is skipped without failing the document; the grayscale
    // image after it is written under the next number, leaving a gap.
    let fax = image_stream(2, 2, 8, b"DeviceGray", Some(b"CCITTFaxDecode"), vec![1, 2, 3]);
    let gray = image_stream(2, 2, 8, b"DeviceGray", Some(b"FlateDecode"), zlib(&[0, 85, 170, 255]));
    let bytes = build_pdf_with(vec![fax, gray]);
    let files = extract_pdf(&bytes).unwrap().files;
    assert_eq!(files.len(), 1);
    assert_eq!(files[0].name, b"page_0002.png".to_vec());
}

#[test]
fn document_whose_images_are_all_skipped_yields_no_output() {
    let fax = image_stream(2, 2, 8, b"DeviceGray", Some(b"CCITTFaxDecode"), vec![1, 2, 3]);
    let bytes = build_pdf(Some(fax));
    assert!(matches!(extract_pdf(&bytes), Err(ComicError::ExtractionError)));
}

#[test]
fn unsupported_depth_is_skipped_and_alone_yields_no_output() {
    let stream = image_stream(2, 2, 4, b"DeviceGray", Some(b"FlateDecode"), zlib(&[0x12, 0x34]));
    let bytes = build_pdf(Some(stream));
    assert!(matches!(extract_pdf(&bytes), Err(ComicError::ExtractionError)));
}

#[test]
fn corrupt_flate_stream_is_fatal() {
    let stream = image_stream(2, 2, 8, b"DeviceGray", Some(b"FlateDecode"), vec![9, 9, 9]);
    let bytes = build_pdf(Some(stream));
    assert!(matches!(extract_pdf(&bytes), Err(ComicError::ExtractionError)));
}

#[test]
fn raw_rgb_stream_becomes_a_png_page() {
    let img = EmbeddedImageStream {
        width: 1,
        height: 1,
        bits_per_component: 8,
        color_space: Some(b"DeviceRGB".to_vec()),
        filter: None,
        data: vec![10, 20, 30],
    };
    let entry = decode_embedded_image(&img, 7).unwrap().unwrap();
    assert_eq!(entry.name, b"page_0007.png".to_vec());
    let png = image::load_from_memory(&entry.data).unwrap().to_rgb8();
    assert_eq!(png.dimensions(), (1, 1));
    assert_eq!(png.into_raw(), vec![10, 20, 30]);
}

#[test]
fn raw_cmyk_stream_is_skipped_not_converted() {
    let img = EmbeddedImageStream {
        width: 1,
        height: 1,
        bits_per_component: 8,
        color_space: Some(b"DeviceCMYK".to_vec()),
        filter: None,
        data: vec![0, 0, 0, 0],
    };
    assert!(decode_embedded_image(&img, 1).unwrap().is_none());
}

#[test]
fn surplus_pixel_bytes_are_ignored() {
    let img = EmbeddedImageStream {
        width: 1,
        height: 1,
        bits_per_component: 8,
        color_space: Some(b"DeviceRGB".to_vec()),
        filter: None,
        data: vec![10, 20, 30, 99, 99],
    };
    let entry = decode_embedded_image(&img, 1).unwrap().unwrap();
    let png = image::load_from_memory(&entry.data).unwrap().to_rgb8();
    assert_eq!(png.dimensions(), (1, 1));
    assert_eq!(png.into_raw(), vec![10, 20, 30]);
}

#[test]
fn short_pixel_buffer_is_fatal() {
    let img = EmbeddedImageStream {
        width: 2,
        height: 2,
        bits_per_component: 8,
        color_space: Some(b"DeviceRGB".to_vec()),
        filter: None,
        data: vec![1, 2, 3],
    };
    assert!(matches!(decode_embedded_image(&img, 1), Err(ComicError::ExtractionError)));
    // A four-channel buffer of the wrong length is fatal in either direction.
    let cmyk = EmbeddedImageStream {
        width: 1,
        height: 1,
        bits_per_component: 8,
        color_space: Some(b"DeviceCMYK".to_vec()),
        filter: Some(b"FlateDecode".to_vec()),
        data: zlib(&[0, 0, 0, 0, 9]),
    };
    assert!(matches!(decode_embedded_image(&cmyk, 1), Err(ComicError::ExtractionError)));
}

#[test]
fn cmyk_conversion_formula_on_plain_buffers() {
    assert_eq!(cmyk_to_rgb(&vec![255, 255, 255, 0]), vec![0, 0, 0]);
    assert_eq!(cmyk_to_rgb(&vec![0, 0, 0, 0]), vec![255, 255, 255]);
    assert_eq!(cmyk_to_rgb(&vec![0, 0, 0, 255]), vec![0, 0, 0]);
    // 20% cyan, no key: (255-51)*(255-0)/255 = 204.
    assert_eq!(cmyk_to_rgb(&vec![51, 0, 0, 0]), vec![204, 255, 255]);
}

#[test]
fn pipeline_over_page_description_counts_its_one_image() {
    let pixels: Vec<u8> = vec![0, 85, 170, 255];
    let stream = image_stream(2, 2, 8, b"DeviceGray", Some(b"FlateDecode"), zlib(&pixels));
    let bytes = build_pdf(Some(stream));
    let out =
        comicpress::pipeline::run_pipeline(&b"doc.pdf".to_vec(), &bytes, None, 90, 1800).unwrap();
    assert_eq!(out.stats.images_processed + out.stats.images_skipped, 1);
    let entries = comicpress::archive::extract_zip(&out.archive).unwrap();
    assert_eq!(entries.len(), 1);
}

#[test]
fn pipeline_over_zero_image_document_fails_without_output() {
    let bytes = build_pdf(None);
    let r = comicpress::pipeline::run_pipeline(&b"doc.pdf".to_vec(), &bytes, None, 90, 1800);
    assert!(matches!(r, Err(ComicError::ExtractionError)));
}
