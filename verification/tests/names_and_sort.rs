//! Classification, naming and ordering behavior.

use comicpress::fileset::{sort_by_name_entries, FileEntry};
use comicpress::kinds::{ComicError, ComicKind};
use comicpress::names::{
    classify, extension_of, is_image_name, output_name, page_name, stem_of, u64_pad4, webp_name,
};

#[test]
fn classify_is_by_lowercased_extension() {
    assert_eq!(classify(&b"a.cbz".to_vec()), Ok(ComicKind::ArchiveA));
    assert_eq!(classify(&b"a.CBZ".to_vec()), Ok(ComicKind::ArchiveA));
    assert_eq!(classify(&b"dir name.CbR".to_vec()), Ok(ComicKind::ArchiveB));
    assert_eq!(classify(&b"x.pdf".to_vec()), Ok(ComicKind::PageDescription));
    assert_eq!(classify(&b"x.PDF".to_vec()), Ok(ComicKind::PageDescription));
}

#[test]
fn classify_rejects_other_extensions() {
    assert_eq!(classify(&b"a.zip".to_vec()), Err(ComicError::UnsupportedFormat));
    assert_eq!(classify(&b"a.txt".to_vec()), Err(ComicError::UnsupportedFormat));
    assert_eq!(classify(&b"noext".to_vec()), Err(ComicError::UnsupportedFormat));
    assert_eq!(classify(&b".cbz".to_vec()), Err(ComicError::UnsupportedFormat));
    assert_eq!(classify(&b"".to_vec()), Err(ComicError::UnsupportedFormat));
}

#[test]
fn extension_follows_the_last_dot() {
    assert_eq!(extension_of(&b"a.tar.gz".to_vec()), Some(b"gz".to_vec()));
    assert_eq!(extension_of(&b"a.".to_vec()), Some(b"".to_vec()));
    assert_eq!(extension_of(&b".hidden".to_vec()), None);
    assert_eq!(extension_of(&b"plain".to_vec()), None);
    assert_eq!(stem_of(&b"a.tar.gz".to_vec()), b"a.tar".to_vec());
    assert_eq!(stem_of(&b".hidden".to_vec()), b".hidden".to_vec());
}

#[test]
fn image_names_by_extension() {
    assert!(is_image_name(&b"p/001.png".to_vec()));
    assert!(is_image_name(&b"001.JPG".to_vec()));
    assert!(is_image_name(&b"x.jpeg".to_vec()));
    assert!(is_image_name(&b"x.bmp".to_vec()));
    assert!(is_image_name(&b"x.tiff".to_vec()));
    assert!(is_image_name(&b"x.tif".to_vec()));
    assert!(!is_image_name(&b"x.webp".to_vec()));
    assert!(!is_image_name(&b"x.txt".to_vec()));
    assert!(!is_image_name(&b"png".to_vec()));
}

#[test]
fn page_names_are_zero_padded() {
    assert_eq!(u64_pad4(7), b"0007".to_vec());
    assert_eq!(u64_pad4(123), b"0123".to_vec());
    assert_eq!(u64_pad4(12345), b"12345".to_vec());
    assert_eq!(page_name(1, &b"jpg".to_vec()), b"page_0001.jpg".to_vec());
    assert_eq!(page_name(42, &b"png".to_vec()), b"page_0042.png".to_vec());
}

#[test]
fn webp_name_replaces_the_extension() {
    assert_eq!(webp_name(&b"001.png".to_vec()), b"001.webp".to_vec());
    assert_eq!(webp_name(&b"a.tar.gz".to_vec()), b"a.tar.webp".to_vec());
    assert_eq!(webp_name(&b"plain".to_vec()), b"plain.webp".to_vec());
}

#[test]
fn output_name_is_stable_across_reruns() {
    let stem = b"My Comic".to_vec();
    let first = output_name(&stem, 90);
    let second = output_name(&stem, 90);
    assert_eq!(first, b"My Comic optimized_webp_q90.cbr".to_vec());
    assert_eq!(first, second);
    assert_eq!(output_name(&stem, 5), b"My Comic optimized_webp_q5.cbr".to_vec());
}

#[test]
fn sorting_orders_entries_lexicographically() {
    let files = vec![
        FileEntry { name: b"b/2.png".to_vec(), data: vec![2] },
        FileEntry { name: b"a/10.png".to_vec(), data: vec![1] },
        FileEntry { name: b"a/1.png".to_vec(), data: vec![0] },
        FileEntry { name: b"a/1.png".to_vec(), data: vec![9] },
    ];
    let sorted = sort_by_name_entries(files);
    let names: Vec<Vec<u8>> = sorted.iter().map(|e| e.name.clone()).collect();
    assert_eq!(
        names,
        vec![b"a/1.png".to_vec(), b"a/1.png".to_vec(), b"a/10.png".to_vec(), b"b/2.png".to_vec()]
    );
    assert_eq!(sorted.len(), 4);
}
