//! Extraction, repackaging, the round trip, and the fallback path.

use comicpress::archive::{extract_archive_b, extract_zip, repackage, rewrap_archive};
use comicpress::fileset::FileEntry;
use comicpress::kinds::ComicError;

fn sample_files() -> Vec<FileEntry> {
    vec![
        FileEntry { name: b"001.png".to_vec(), data: vec![1, 2, 3, 4] },
        FileEntry { name: b"sub/002.png".to_vec(), data: vec![] },
        FileEntry { name: b"info.txt".to_vec(), data: b"hello".to_vec() },
    ]
}

fn names_and_data(files: &[FileEntry]) -> Vec<(Vec<u8>, Vec<u8>)> {
    files.iter().map(|e| (e.name.clone(), e.data.clone())).collect()
}

#[test]
fn pack_then_extract_preserves_entries() {
    let files = sample_files();
    let expected = names_and_data(&files);
    let bytes = repackage(&files).unwrap();
    let back = extract_zip(&bytes).unwrap();
    assert_eq!(names_and_data(&back), expected);
}

#[test]
fn rewrap_keeps_entry_set_and_bytes() {
    let files = sample_files();
    let expected = names_and_data(&files);
    let container = repackage(&files).unwrap();
    let rewrapped = rewrap_archive(&container).unwrap();
    let back = extract_zip(&rewrapped).unwrap();
    assert_eq!(names_and_data(&back), expected);
}

#[test]
fn extract_zip_rejects_garbage() {
    let garbage = b"this is not an archive at all".to_vec();
    assert!(matches!(extract_zip(&garbage), Err(ComicError::ExtractionError)));
}

#[test]
fn fallback_uses_rar_entries_when_present() {
    let rar_files = vec![FileEntry { name: b"r.png".to_vec(), data: vec![7] }];
    let garbage = b"not a zip".to_vec();
    let got = extract_archive_b(&garbage, Some(rar_files)).unwrap();
    assert_eq!(names_and_data(&got), vec![(b"r.png".to_vec(), vec![7])]);
}

#[test]
fn mislabeled_zip_extracts_like_direct_zip() {
    let files = sample_files();
    let container = repackage(&files).unwrap();
    let direct = extract_zip(&container).unwrap();
    let fallback = extract_archive_b(&container, None).unwrap();
    assert_eq!(names_and_data(&fallback), names_and_data(&direct));
}

#[test]
fn fallback_fails_only_when_both_ways_fail() {
    let garbage = b"neither rar nor zip".to_vec();
    assert!(matches!(extract_archive_b(&garbage, None), Err(ComicError::ExtractionError)));
}
