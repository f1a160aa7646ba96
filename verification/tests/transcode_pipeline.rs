//! The transcoding policy, outcome aggregation, the whole pipeline, and the
//! batch summary.

use comicpress::archive::{extract_zip, repackage};
use comicpress::fileset::FileEntry;
use comicpress::kinds::{ComicError, SkipReason};
use comicpress::pipeline::{run_pipeline, summary_totals, ProcessingStats};
use comicpress::transcode::{transcode_all, transcode_image, Aggregator};

/// A deterministic noisy raster, encoded as PNG: noise keeps the lossless
/// source big, so a lossy downscale is reliably smaller.
fn noisy_png(w: u32, h: u32) -> Vec<u8> {
    let img = image::RgbImage::from_fn(w, h, |x, y| {
        let v = (x.wrapping_mul(97).wrapping_add(y.wrapping_mul(131))) % 251;
        image::Rgb([v as u8, (v * 7 % 253) as u8, (v * 13 % 241) as u8])
    });
    let mut buf = std::io::Cursor::new(Vec::new());
    image::DynamicImage::ImageRgb8(img).write_to(&mut buf, image::ImageFormat::Png).unwrap();
    buf.into_inner()
}

fn small_jpg() -> Vec<u8> {
    let img = image::RgbImage::from_fn(16, 16, |x, y| image::Rgb([x as u8 * 8, y as u8 * 8, 128]));
    let mut buf = std::io::Cursor::new(Vec::new());
    image::DynamicImage::ImageRgb8(img).write_to(&mut buf, image::ImageFormat::Jpeg).unwrap();
    buf.into_inner()
}

#[test]
fn downscaled_noisy_image_is_processed_and_renamed() {
    let data = noisy_png(300, 200);
    let original_len = data.len();
    let entry = FileEntry { name: b"a.png".to_vec(), data };
    let (out, outcome) = transcode_image(entry, 60, 40);
    assert_eq!(outcome, Ok(()));
    assert_eq!(out.name, b"a.webp".to_vec());
    assert!(out.data.len() < original_len);
    // The new width is the target height times the aspect ratio, rounded:
    // (40 * 300 + 100) / 200 = 60.
    let webp = image::load_from_memory(&out.data).unwrap();
    assert_eq!((webp.width(), webp.height()), (60, 40));
}

#[test]
fn undecodable_image_is_skipped_and_left_untouched() {
    let entry = FileEntry { name: b"bad.png".to_vec(), data: b"not an image".to_vec() };
    let (out, outcome) = transcode_image(entry, 90, 1800);
    assert_eq!(outcome, Err(SkipReason::DecodeFailed));
    assert_eq!(out.name, b"bad.png".to_vec());
    assert_eq!(out.data, b"not an image".to_vec());
}

#[test]
fn enlarging_encode_is_rejected_and_counted_skipped() {
    // A one-pixel source blown up to the target height cannot come out
    // smaller; the original must stay byte-identical.
    let data = noisy_png(1, 1);
    let copy = data.clone();
    let entry = FileEntry { name: b"tiny.png".to_vec(), data };
    let (out, outcome) = transcode_image(entry, 90, 1800);
    assert_eq!(outcome, Err(SkipReason::NotSmaller));
    assert_eq!(out.name, b"tiny.png".to_vec());
    assert_eq!(out.data, copy);
}

#[test]
fn counts_sum_to_the_number_of_images() {
    let files = vec![
        FileEntry { name: b"001.png".to_vec(), data: noisy_png(120, 160) },
        FileEntry { name: b"002.png".to_vec(), data: b"garbage".to_vec() },
        FileEntry { name: b"readme.txt".to_vec(), data: b"keep me".to_vec() },
    ];
    let (out, processed, skipped, _outcomes) = transcode_all(files, 80, 40);
    assert_eq!(processed + skipped, 2);
    assert_eq!(out.len(), 3);
    assert_eq!(out[2].name, b"readme.txt".to_vec());
    assert_eq!(out[2].data, b"keep me".to_vec());
}

#[test]
fn aggregator_positions_climb_from_base_to_span_end() {
    let mut agg = Aggregator::new(4);
    assert_eq!(agg.position(), 30);
    let mut last = 30;
    let outcomes = [true, false, true, true];
    let mut positions = Vec::new();
    for &s in outcomes.iter() {
        agg.record(s);
        let p = agg.position();
        assert!(p >= last);
        last = p;
        positions.push(p);
    }
    assert_eq!(positions, vec![42, 55, 67, 80]);
    assert_eq!(agg.processed, 3);
    assert_eq!(agg.skipped, 1);
}

#[test]
fn pipeline_scenario_three_ordered_pages() {
    let files = vec![
        FileEntry { name: b"001.png".to_vec(), data: noisy_png(60, 80) },
        FileEntry { name: b"002.png".to_vec(), data: noisy_png(60, 80) },
        FileEntry { name: b"003.jpg".to_vec(), data: small_jpg() },
    ];
    let container = repackage(&files).unwrap();
    let out = run_pipeline(&b"c.cbz".to_vec(), &container, None, 90, 1800).unwrap();
    assert_eq!(out.output_name, b"c optimized_webp_q90.cbr".to_vec());
    assert_eq!(out.stats.original_size, container.len() as u64);
    assert_eq!(out.stats.compressed_size, out.archive.len() as u64);
    assert_eq!(out.stats.images_processed + out.stats.images_skipped, 3);
    let entries = extract_zip(&out.archive).unwrap();
    assert_eq!(entries.len(), 3);
    let stems = [b"001".to_vec(), b"002".to_vec(), b"003".to_vec()];
    for (i, e) in entries.iter().enumerate() {
        assert_eq!(e.name[..3].to_vec(), stems[i]);
    }
}

#[test]
fn pipeline_processes_and_keeps_page_order() {
    let files = vec![
        FileEntry { name: b"002.png".to_vec(), data: noisy_png(300, 200) },
        FileEntry { name: b"001.png".to_vec(), data: noisy_png(300, 200) },
    ];
    let container = repackage(&files).unwrap();
    let out = run_pipeline(&b"c.cbz".to_vec(), &container, None, 60, 40).unwrap();
    assert_eq!(out.stats.images_processed, 2);
    assert_eq!(out.stats.images_skipped, 0);
    let entries = extract_zip(&out.archive).unwrap();
    assert_eq!(entries.len(), 2);
    assert_eq!(entries[0].name, b"001.webp".to_vec());
    assert_eq!(entries[1].name, b"002.webp".to_vec());
}

#[test]
fn pipeline_fallback_kind_reads_mislabeled_zip() {
    let files = vec![FileEntry { name: b"only.txt".to_vec(), data: b"x".to_vec() }];
    let container = repackage(&files).unwrap();
    let out = run_pipeline(&b"mislabeled.cbr".to_vec(), &container, None, 90, 1800).unwrap();
    let entries = extract_zip(&out.archive).unwrap();
    assert_eq!(entries.len(), 1);
    assert_eq!(entries[0].name, b"only.txt".to_vec());
    assert_eq!(entries[0].data, b"x".to_vec());
}

#[test]
fn pipeline_rejects_bad_configuration_first() {
    let container = b"whatever".to_vec();
    assert!(matches!(
        run_pipeline(&b"c.cbz".to_vec(), &container, None, 0, 1800),
        Err(ComicError::ConfigurationError)
    ));
    assert!(matches!(
        run_pipeline(&b"c.cbz".to_vec(), &container, None, 101, 1800),
        Err(ComicError::ConfigurationError)
    ));
    assert!(matches!(
        run_pipeline(&b"c.cbz".to_vec(), &container, None, 90, 0),
        Err(ComicError::ConfigurationError)
    ));
}

#[test]
fn pipeline_rejects_unsupported_names_and_bad_containers() {
    let container = b"whatever".to_vec();
    assert!(matches!(
        run_pipeline(&b"c.mp3".to_vec(), &container, None, 90, 1800),
        Err(ComicError::UnsupportedFormat)
    ));
    assert!(matches!(
        run_pipeline(&b"c.cbz".to_vec(), &container, None, 90, 1800),
        Err(ComicError::ExtractionError)
    ));
}

#[test]
fn rerunning_the_pipeline_derives_the_same_output_name() {
    let files = vec![FileEntry { name: b"p.txt".to_vec(), data: b"x".to_vec() }];
    let container = repackage(&files).unwrap();
    let first = run_pipeline(&b"Vol 1.cbz".to_vec(), &container, None, 85, 1800).unwrap();
    let second = run_pipeline(&b"Vol 1.cbz".to_vec(), &container, None, 85, 1800).unwrap();
    assert_eq!(first.output_name, second.output_name);
    assert_eq!(first.output_name, b"Vol 1 optimized_webp_q85.cbr".to_vec());
}

#[test]
fn summary_totals_add_up_and_count_low_savings() {
    let stats = vec![
        ProcessingStats {
            original_size: 100,
            compressed_size: 96,
            images_processed: 2,
            images_skipped: 1,
        },
        ProcessingStats {
            original_size: 100,
            compressed_size: 94,
            images_processed: 3,
            images_skipped: 0,
        },
        ProcessingStats {
            original_size: 100,
            compressed_size: 95,
            images_processed: 0,
            images_skipped: 0,
        },
        ProcessingStats {
            original_size: 50,
            compressed_size: 60,
            images_processed: 1,
            images_skipped: 2,
        },
    ];
    let t = summary_totals(&stats);
    assert_eq!(t.total_original, 350);
    assert_eq!(t.total_compressed, 345);
    assert_eq!(t.total_images_processed, 6);
    assert_eq!(t.total_images_skipped, 3);
    // 4% and a size increase count as low savings; 6% and exactly 5% do not.
    assert_eq!(t.files_with_low_savings, 2);
}

#[test]
fn degenerate_aspect_ratio_is_an_encode_skip() {
    // A 1-pixel-wide, very tall source rounds to a zero target width; that
    // is an encode-stage failure, contained as a skip.
    let data = noisy_png(1, 4000);
    let copy = data.clone();
    let entry = FileEntry { name: b"strip.png".to_vec(), data };
    let (out, outcome) = transcode_image(entry, 90, 1800);
    assert_eq!(outcome, Err(SkipReason::EncodeFailed));
    assert_eq!(out.data, copy);
}

#[test]
fn unencodable_entry_name_is_a_repackage_error() {
    let files = vec![FileEntry { name: vec![0xff, 0xfe, 0x2f], data: vec![1] }];
    assert!(matches!(repackage(&files), Err(ComicError::RepackageError)));
}

#[test]
fn repeated_entry_names_are_a_repackage_error() {
    let files = vec![
        FileEntry { name: b"a.txt".to_vec(), data: vec![1] },
        FileEntry { name: b"a.txt".to_vec(), data: vec![2] },
    ];
    assert!(matches!(repackage(&files), Err(ComicError::RepackageError)));
}

#[test]
fn pipeline_collapses_repeated_names_to_the_last_entry() {
    // Extraction into one scratch directory overwrites earlier files of the
    // same name, so the pipeline keeps only the last one.
    let entries = vec![
        FileEntry { name: b"page.txt".to_vec(), data: b"first".to_vec() },
        FileEntry { name: b"other.txt".to_vec(), data: b"x".to_vec() },
        FileEntry { name: b"page.txt".to_vec(), data: b"second".to_vec() },
    ];
    let out = run_pipeline(&b"c.cbr".to_vec(), &b"junk".to_vec(), Some(entries), 90, 1800)
        .unwrap();
    let files = extract_zip(&out.archive).unwrap();
    assert_eq!(files.len(), 2);
    assert_eq!(files[0].name, b"other.txt".to_vec());
    assert_eq!(files[1].name, b"page.txt".to_vec());
    assert_eq!(files[1].data, b"second".to_vec());
}
