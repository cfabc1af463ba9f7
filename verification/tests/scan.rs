//! Scans over files that are held in memory.

use std::io::Cursor;

use media_duplicate_eraser_rs::commands::scan::{is_hidden, Scanner};
use media_duplicate_eraser_rs::error::Error;
use media_duplicate_eraser_rs::services::duplicate::{
    files_to_fingerprint, files_to_hash, find_duplicates, find_duplicates_with_options,
    find_duplicates_with_progress, ANALYZING_PHASE, HASHING_PHASE,
    find_exact_duplicates, find_perceptual_duplicates, group_by_size, DuplicateReport,
    DuplicateType, DuplicatesFile, FileRecord, FingerprintProbe, MediaFilter, ScanTime,
};
use media_duplicate_eraser_rs::services::hasher::{
    extraction_of, media_perceptual_hash, sha256_hash, Extraction, Fingerprint,
};

/// A file as the scan sees it when everything can be measured.
fn measured(path: &str, content: &[u8]) -> FileRecord {
    let fingerprint = match extraction_of(path) {
        Extraction::ImageFile(format) => {
            match media_perceptual_hash(Extraction::ImageFile(format), &content.to_vec()) {
                Some(fingerprint) => FingerprintProbe::Found(fingerprint),
                None => FingerprintProbe::Unsupported,
            }
        }
        _ => FingerprintProbe::Unsupported,
    };
    FileRecord {
        path: path.to_string(),
        size: Some(content.len() as u64),
        digest: Some(sha256_hash(content)),
        fingerprint,
    }
}

/// A file of which only the given measurements are known.
fn plain(path: &str, size: Option<u64>, digest: Option<&str>, bits: Option<Vec<u8>>) -> FileRecord {
    FileRecord {
        path: path.to_string(),
        size,
        digest: digest.map(|d| d.to_string()),
        fingerprint: match bits {
            Some(bytes) => FingerprintProbe::Found(Fingerprint::from_bytes(bytes).unwrap()),
            None => FingerprintProbe::Unsupported,
        },
    }
}

fn now() -> ScanTime {
    ScanTime { seconds: 1_767_225_600, nanoseconds: 250 }
}

fn text_fixtures() -> Vec<FileRecord> {
    vec![
        measured("text/duplicate_a.txt", b"This content appears twice.\n"),
        measured("text/duplicate_b.txt", b"This content appears twice.\n"),
        measured("text/unique.txt", b"This content appears only once, and is longer.\n"),
    ]
}

fn png(pixel: impl Fn(u32, u32) -> u8) -> Vec<u8> {
    let picture = image::GrayImage::from_fn(64, 64, |x, y| image::Luma([pixel(x, y)]));
    let mut bytes = Vec::new();
    image::DynamicImage::ImageLuma8(picture)
        .write_to(&mut Cursor::new(&mut bytes), image::ImageFormat::Png)
        .unwrap();
    bytes
}

fn image_fixtures() -> Vec<FileRecord> {
    let image_a = png(|x, y| (x * 2 + y) as u8);
    let image_b = png(|x, y| (x * 2 + y + 1) as u8);
    let unique = png(|x, y| 255 - (x * 2 + y) as u8);
    vec![
        measured("images/image_a.png", &image_a),
        measured("images/image_a copy.png", &image_a),
        measured("images/image_b.png", &image_b),
        measured("images/unique.png", &unique),
    ]
}

fn names(report: &DuplicateReport) -> Vec<Vec<String>> {
    report.groups.iter().map(|g| g.files.clone()).collect()
}

#[test]
fn test_scan_detects_exact_duplicates() {
    let report = find_duplicates(&text_fixtures()).unwrap();

    assert!(!report.groups.is_empty(), "Should find at least one duplicate group");

    let exact_groups: Vec<_> = report
        .groups
        .iter()
        .filter(|g| g.duplicate_type == DuplicateType::Exact)
        .collect();

    assert_eq!(exact_groups.len(), 1, "Should find exactly one exact duplicate group");
    assert_eq!(exact_groups[0].files.len(), 2, "Duplicate group should have 2 files");
}

#[test]
fn test_scan_does_not_report_unique_files_as_duplicates() {
    let files = vec![measured("text/unique.txt", b"This content appears only once.\n")];

    let report = find_duplicates(&files).unwrap();

    assert!(report.groups.is_empty(), "Unique file should not be in any duplicate group");
    assert_eq!(report.errors, 0, "Should have no errors");
}

#[test]
fn test_scan_handles_empty_input() {
    let files: Vec<FileRecord> = vec![];

    let report = find_duplicates(&files).unwrap();

    assert!(report.groups.is_empty(), "Empty input should produce no groups");
    assert_eq!(report.total_files, 0, "Total files should be 0");
    assert_eq!(report.errors, 0, "Should have no errors");
}

#[test]
fn test_scan_reports_correct_counts() {
    let report = find_duplicates(&text_fixtures()).unwrap();

    assert_eq!(report.total_files, 3, "Should have scanned 3 files");
    assert_eq!(report.duplicate_count(), 1, "Should have 1 duplicate (excluding original)");
    assert_eq!(report.exact_duplicate_count(), 1, "Should have 1 exact duplicate");
    assert_eq!(report.perceptual_duplicate_count(), 0, "Should have 0 perceptual duplicates");
}

#[test]
fn test_scanner_executes_without_error() {
    let scanner = Scanner::new(
        "text".to_string(),
        true,
        false,
        Some("out/duplicates.json".to_string()),
        true,
        MediaFilter::All,
    );
    assert!(scanner.check_root(true).is_ok(), "Scanner should execute without error");
    let report = find_duplicates_with_options(&text_fixtures(), scanner.media_filter()).unwrap();
    assert!(scanner.writes_manifest(&report), "Duplicates file should be created");
    assert_eq!(scanner.output_path(), "out/duplicates.json");
}

#[test]
fn test_scan_detects_image_duplicates() {
    let report = find_duplicates(&image_fixtures()).unwrap();

    assert!(!report.groups.is_empty(), "Should find duplicate images");

    let has_image_a_duplicates = report
        .groups
        .iter()
        .any(|g| g.files.iter().any(|f| f.contains("image_a")));
    assert!(has_image_a_duplicates, "Should find image_a.png in a duplicate group");

    let image_a_group = report
        .groups
        .iter()
        .find(|g| g.files.iter().any(|f| f.ends_with("/image_a.png")));
    assert!(image_a_group.is_some(), "Should have a group with image_a.png");

    let group = image_a_group.unwrap();
    let has_copy = group.files.iter().any(|f| f.contains("image_a copy"));
    assert!(has_copy, "image_a.png and image_a copy.png should be in the same duplicate group");
}

#[test]
fn test_scan_unique_image_not_in_duplicates() {
    let unique = png(|x, y| 255 - (x * 2 + y) as u8);
    let files = vec![measured("images/unique.png", &unique)];

    let report = find_duplicates(&files).unwrap();

    assert!(report.groups.is_empty(), "Single unique image should not be in any duplicate group");
    assert_eq!(report.total_files, 1, "Should have scanned 1 file");
    assert_eq!(report.errors, 0, "Should have no errors");
}

#[test]
fn test_scan_image_reports_correct_counts() {
    let report = find_duplicates(&image_fixtures()).unwrap();

    assert_eq!(report.total_files, 4, "Should have scanned 4 image files");
    assert!(report.duplicate_count() >= 1, "Should have at least 1 duplicate");
    assert!(!report.groups.is_empty(), "Should have at least one duplicate group");
}

#[test]
fn test_scanner_executes_on_images_without_error() {
    let scanner = Scanner::new("images".to_string(), false, false, None, true, MediaFilter::All);
    let report = find_duplicates_with_options(&image_fixtures(), scanner.media_filter()).unwrap();
    assert!(scanner.writes_manifest(&report), "Duplicates file should be created for images");
    assert_eq!(scanner.output_path(), "images/duplicates.json");

    let manifest = DuplicatesFile::from_report(&report, now());
    assert!(!manifest.entries.is_empty(), "Output should contain entries field");
    let mentions_image_a = manifest.entries.iter().any(|e| {
        e.original.contains("image_a") || e.duplicates.iter().any(|d| d.contains("image_a"))
    });
    assert!(mentions_image_a, "Output should reference image_a duplicates");
}

#[test]
fn test_scan_mixed_files_in_directory() {
    let mut files = text_fixtures();
    files.extend(image_fixtures());
    let scanner = Scanner::new("mixed".to_string(), true, false, None, true, MediaFilter::All);
    let report = find_duplicates_with_options(&files, scanner.media_filter()).unwrap();
    assert!(scanner.writes_manifest(&report), "Duplicates file should be created");
    assert_eq!(report.total_files, 7);
    let manifest = DuplicatesFile::from_report(&report, now());
    assert!(!manifest.entries.is_empty(), "Output should contain entries");
}

#[test]
fn images_similar_to_an_exact_pair_join_its_group() {
    let report = find_duplicates(&image_fixtures()).unwrap();
    assert_eq!(
        names(&report),
        vec![vec![
            "images/image_a copy.png".to_string(),
            "images/image_a.png".to_string(),
            "images/image_b.png".to_string(),
        ]]
    );
    assert_eq!(report.groups[0].duplicate_type, DuplicateType::Perceptual);
    assert_eq!(report.duplicate_count(), 2);
    assert_eq!(report.exact_duplicate_count(), 0);
    assert_eq!(report.perceptual_duplicate_count(), 2);
    assert_eq!(report.group_count(DuplicateType::Perceptual), 1);
    assert_eq!(report.group_count(DuplicateType::Exact), 0);
}

#[test]
fn a_picture_under_the_extension_of_another_format_is_passed_over() {
    let picture = png(|x, y| (x * 2 + y) as u8);
    let files = vec![
        measured("a.png", &picture),
        measured("b.jpg", &png(|x, y| (x * 2 + y + 1) as u8)),
        measured("c.png", &png(|x, y| (x * 2 + y + 2) as u8)),
    ];
    assert!(matches!(files[0].fingerprint, FingerprintProbe::Found(_)));
    assert!(matches!(files[1].fingerprint, FingerprintProbe::Unsupported));
    let report = find_duplicates(&files).unwrap();
    assert_eq!(names(&report), vec![vec!["a.png".to_string(), "c.png".to_string()]]);
    assert_eq!(report.errors, 0);
}

#[test]
fn merged_groups_are_ordered_by_components() {
    let near = vec![0u8; 18];
    let files = vec![
        plain("pics-old/a.png", Some(1), None, Some(near.clone())),
        plain("pics/b.png", Some(2), None, Some(near.clone())),
        plain("pics/a.png", Some(3), None, Some(near)),
    ];
    let report = find_duplicates(&files).unwrap();
    assert_eq!(
        names(&report),
        vec![vec![
            "pics/a.png".to_string(),
            "pics/b.png".to_string(),
            "pics-old/a.png".to_string(),
        ]]
    );
    let manifest = DuplicatesFile::from_report(&report, now());
    assert_eq!(manifest.entries[0].original, "pics/a.png");
}

#[test]
fn progress_is_told_and_changes_nothing() {
    let files = text_fixtures();
    let calls = std::cell::RefCell::new(Vec::new());
    let told = find_duplicates_with_progress(
        &files,
        Some(|done: usize, total: usize, phase: &str| {
            calls.borrow_mut().push((done, total, phase.to_string()));
        }),
    )
    .unwrap();
    assert_eq!(
        calls.into_inner(),
        vec![(3, 3, "Hashing files".to_string()), (3, 3, "Analyzing media".to_string())]
    );
    let boxed: Box<dyn Fn(usize, usize, &str) + Send + Sync> = Box::new(|_, _, _| {});
    let with_box = find_duplicates_with_progress(&files, Some(boxed)).unwrap();
    let untold = find_duplicates_with_progress(&files, None::<fn(usize, usize, &str)>).unwrap();
    let plain = find_duplicates(&files).unwrap();
    for report in [&told, &with_box, &untold] {
        assert_eq!(names(report), names(&plain));
        assert_eq!(report.total_files, plain.total_files);
        assert_eq!(report.errors, plain.errors);
    }
    assert_eq!(names(&plain), vec![vec![
        "text/duplicate_a.txt".to_string(),
        "text/duplicate_b.txt".to_string(),
    ]]);
    assert_eq!(HASHING_PHASE, "Hashing files");
    assert_eq!(ANALYZING_PHASE, "Analyzing media");
}

#[test]
fn files_that_are_no_images_are_left_out_of_a_scan_of_images() {
    let files = vec![
        plain("a.txt", Some(4), Some("d"), None),
        plain("b.txt", Some(4), Some("d"), None),
    ];
    let report = find_duplicates_with_options(&files, MediaFilter::ImagesOnly).unwrap();
    assert!(report.groups.is_empty());
    assert_eq!(report.total_files, 0);
    assert_eq!(report.errors, 0);
    assert!(MediaFilter::ImagesOnly.includes("photo.PNG"));
    assert!(!MediaFilter::VideosOnly.includes("photo.PNG"));
    assert!(!MediaFilter::ImagesOnly.includes("notes.txt"));
}

#[test]
fn three_identical_files_make_one_exact_group() {
    let files = vec![
        measured("a.txt", b"same bytes"),
        measured("b.txt", b"same bytes"),
        measured("c.txt", b"same bytes"),
    ];
    let report = find_duplicates(&files).unwrap();
    assert_eq!(
        names(&report),
        vec![vec!["a.txt".to_string(), "b.txt".to_string(), "c.txt".to_string()]]
    );
    assert_eq!(report.groups[0].duplicate_type, DuplicateType::Exact);
    assert_eq!(report.total_files, 3);
    assert_eq!(report.errors, 0);
}

#[test]
fn file_of_unique_size_is_never_in_an_exact_group() {
    let near = vec![0u8; 32];
    let mut nearer = vec![0u8; 32];
    nearer[0] = 0b0000_0111;
    let files = vec![
        plain("a.png", Some(10), Some("d1"), Some(near.clone())),
        plain("b.png", Some(10), Some("d1"), None),
        plain("lonely.png", Some(77), None, Some(nearer)),
    ];
    let report = find_duplicates(&files).unwrap();
    assert_eq!(
        names(&report),
        vec![vec!["a.png".to_string(), "b.png".to_string(), "lonely.png".to_string()]]
    );
    assert_eq!(report.groups[0].duplicate_type, DuplicateType::Perceptual);
    assert_eq!(report.errors, 0, "a digest that is not needed is not missed");

    let far = vec![0xFFu8; 32];
    let files = vec![
        plain("a.png", Some(10), Some("d1"), Some(near)),
        plain("b.png", Some(10), Some("d1"), None),
        plain("lonely.png", Some(77), Some("d1"), Some(far)),
    ];
    let report = find_duplicates(&files).unwrap();
    assert_eq!(names(&report), vec![vec!["a.png".to_string(), "b.png".to_string()]]);
    assert_eq!(report.groups[0].duplicate_type, DuplicateType::Exact);
}

#[test]
fn files_of_different_sizes_with_the_same_digest_are_not_grouped() {
    let files = vec![
        plain("a.bin", Some(1), Some("same"), None),
        plain("b.bin", Some(2), Some("same"), None),
        plain("c.bin", Some(1), Some("other"), None),
        plain("d.bin", Some(2), Some("other"), None),
    ];
    let report = find_duplicates(&files).unwrap();
    assert!(report.groups.is_empty());
    assert_eq!(report.total_files, 4);
    assert_eq!(report.errors, 0);
}

#[test]
fn files_of_the_same_size_with_different_digests_are_not_grouped() {
    let files = vec![
        measured("a.txt", b"abcd"),
        measured("b.txt", b"abce"),
        measured("c.txt", b"abcd"),
        measured("d.txt", b"abcf"),
    ];
    let report = find_duplicates(&files).unwrap();
    assert_eq!(names(&report), vec![vec!["a.txt".to_string(), "c.txt".to_string()]]);
    assert_eq!(report.groups[0].duplicate_type, DuplicateType::Exact);
    assert_eq!(report.errors, 0);
}

#[test]
fn failed_measurements_are_counted_and_the_file_dropped() {
    let files = vec![
        plain("a.bin", Some(5), Some("x"), None),
        plain("b.bin", Some(5), Some("x"), None),
        plain("unsized.bin", None, Some("x"), None),
        plain("unread.bin", Some(5), None, None),
        FileRecord {
            path: "blurred.png".to_string(),
            size: Some(9),
            digest: None,
            fingerprint: FingerprintProbe::Failed,
        },
        FileRecord {
            path: "blurred.txt".to_string(),
            size: Some(11),
            digest: None,
            fingerprint: FingerprintProbe::Failed,
        },
    ];
    let report = find_duplicates(&files).unwrap();
    assert_eq!(names(&report), vec![vec!["a.bin".to_string(), "b.bin".to_string()]]);
    assert_eq!(report.total_files, 6);
    assert_eq!(report.errors, 3, "no size, no digest, no fingerprint; the text file needs none");
}

#[test]
fn planning_asks_only_for_what_is_needed() {
    let files = vec![
        plain("a.png", Some(5), Some("x"), None),
        plain("b.png", Some(5), Some("x"), None),
        plain("c.png", Some(6), None, None),
        plain("d.txt", Some(7), None, None),
        plain("e.png", None, None, None),
        plain("f.png", Some(5), Some("y"), None),
    ];
    assert_eq!(
        files_to_hash(&files, MediaFilter::All),
        vec![true, true, false, false, false, true]
    );
    assert_eq!(
        files_to_fingerprint(&files, MediaFilter::All),
        vec![true, false, true, false, false, true]
    );
    assert_eq!(
        files_to_fingerprint(&files, MediaFilter::VideosOnly),
        vec![false, false, false, false, false, false]
    );
    assert_eq!(
        group_by_size(&files, MediaFilter::All),
        vec![vec![0, 1, 5], vec![2], vec![3]]
    );
    assert_eq!(find_exact_duplicates(&files, MediaFilter::All), vec![vec![0, 1]]);
}

#[test]
fn clustering_goes_by_the_distance_to_the_seed_only() {
    // b is within tolerance of a, c is within tolerance of b but not of a.
    let a = vec![0u8; 32];
    let mut b = vec![0u8; 32];
    b[0] = 0xFF;
    let mut c = vec![0u8; 32];
    c[0] = 0xFF;
    c[1] = 0xFF;
    let files = vec![
        plain("a.png", Some(1), None, Some(a)),
        plain("b.png", Some(2), None, Some(b)),
        plain("c.png", Some(3), None, Some(c)),
    ];
    assert_eq!(find_perceptual_duplicates(&files, MediaFilter::All), vec![vec![0, 1]]);
    let report = find_duplicates(&files).unwrap();
    assert_eq!(names(&report), vec![vec!["a.png".to_string(), "b.png".to_string()]]);

    // Had the scan met b first, c would have joined b.
    let reordered = vec![
        plain("b.png", Some(2), None, Some(files_bits(&files[1]))),
        plain("c.png", Some(3), None, Some(files_bits(&files[2]))),
        plain("a.png", Some(1), None, Some(files_bits(&files[0]))),
    ];
    assert_eq!(
        find_perceptual_duplicates(&reordered, MediaFilter::All),
        vec![vec![0, 1, 2]]
    );
}

fn files_bits(record: &FileRecord) -> Vec<u8> {
    match &record.fingerprint {
        FingerprintProbe::Found(fingerprint) => fingerprint.as_bytes().clone(),
        _ => Vec::new(),
    }
}

#[test]
fn the_filter_decides_what_is_scanned() {
    let files = vec![
        plain("a.png", Some(5), Some("x"), None),
        plain("b.PNG", Some(5), Some("x"), None),
        plain("c.mp4", Some(5), Some("x"), None),
        plain("d.mp3", Some(5), Some("x"), None),
        plain("e", Some(5), Some("x"), None),
    ];
    let all = find_duplicates_with_options(&files, MediaFilter::All).unwrap();
    assert_eq!(all.total_files, 5);
    assert_eq!(all.groups.len(), 1);
    assert_eq!(all.groups[0].files.len(), 5);

    let images = find_duplicates_with_options(&files, MediaFilter::ImagesOnly).unwrap();
    assert_eq!(images.total_files, 2);
    assert_eq!(names(&images), vec![vec!["a.png".to_string(), "b.PNG".to_string()]]);

    let videos = find_duplicates_with_options(&files, MediaFilter::VideosOnly).unwrap();
    assert_eq!(videos.total_files, 1);
    assert!(videos.groups.is_empty());

    let audio = find_duplicates_with_options(&files, MediaFilter::AudioOnly).unwrap();
    assert_eq!(audio.total_files, 1);
    assert!(audio.groups.is_empty());

    assert_eq!(MediaFilter::default(), MediaFilter::All);
    assert!(MediaFilter::All.includes("e"));
    assert!(!MediaFilter::All.includes_for_perceptual("e"));
    assert!(MediaFilter::All.includes_for_perceptual("d.mp3"));
    assert!(MediaFilter::ImagesOnly.includes("dir/pic.JPeG"));
    assert!(!MediaFilter::ImagesOnly.includes("dir/pic.mp4"));
    assert!(MediaFilter::VideosOnly.includes_for_perceptual("clip.webm"));
    assert!(!MediaFilter::AudioOnly.includes_for_perceptual("clip.webm"));
}

#[test]
fn no_path_is_reported_in_two_groups() {
    let mut files = text_fixtures();
    files.extend(image_fixtures());
    files.push(measured("more/duplicate_c.txt", b"This content appears twice.\n"));
    let report = find_duplicates(&files).unwrap();
    let mut seen = std::collections::BTreeSet::new();
    for group in &report.groups {
        assert!(group.files.len() >= 2);
        for file in &group.files {
            assert!(seen.insert(file.clone()), "{file} is in two groups");
        }
    }
    assert_eq!(seen.len(), 6);
}

#[test]
fn manifest_keeps_the_first_file_of_each_group() {
    let report = DuplicateReport {
        groups: find_duplicates(&text_fixtures()).unwrap().groups,
        total_files: 3,
        errors: 0,
    };
    let manifest = DuplicatesFile::from_report(&report, now());
    assert_eq!(manifest.version, "1.0");
    assert_eq!(manifest.total_files_scanned, 3);
    assert_eq!(manifest.duplicate_groups, 1);
    assert_eq!(manifest.total_duplicates, 1);
    assert_eq!(manifest.entries.len(), 1);
    assert_eq!(manifest.entries[0].original, "text/duplicate_a.txt");
    assert_eq!(manifest.entries[0].duplicates, vec!["text/duplicate_b.txt".to_string()]);
    assert_eq!(manifest.entries[0].duplicate_type, DuplicateType::Exact);
    assert_eq!(manifest.files_to_delete(), vec!["text/duplicate_b.txt".to_string()]);
    assert_eq!(manifest.scanned_at, now());

    let midnight = ScanTime { seconds: 1_704_067_200, nanoseconds: 5 };
    let stamped = DuplicatesFile::from_report(&report, midnight);
    assert_eq!(stamped.scanned_at, midnight);
    assert_eq!(stamped.entries.len(), 1);
    assert_eq!(stamped.total_duplicates, 1);
}

#[test]
fn empty_scan_writes_no_manifest() {
    let scanner = Scanner::new(".".to_string(), true, false, None, false, MediaFilter::All);
    let report = find_duplicates(&Vec::new()).unwrap();
    assert!(!scanner.writes_manifest(&report));
    assert_eq!(report.duplicate_count(), 0);
}

#[test]
fn scanner_settings_steer_the_traversal() {
    let scanner = Scanner::new("root".to_string(), true, false, None, true, MediaFilter::All);
    assert_eq!(scanner.path(), "root");
    assert!(scanner.quiet());
    assert_eq!(scanner.max_depth(), None);
    assert!(scanner.enters(0, ".hidden_root"));
    assert!(!scanner.enters(1, ".git"));
    assert!(scanner.enters(3, "photo.jpg"));
    assert!(scanner.needs_ffmpeg());
    assert_eq!(scanner.output_path(), "root/duplicates.json");

    let flat = Scanner::new("root/".to_string(), false, true, None, false, MediaFilter::ImagesOnly);
    assert_eq!(flat.max_depth(), Some(1));
    assert!(flat.enters(1, ".git"));
    assert!(!flat.needs_ffmpeg());
    assert!(!flat.quiet());
    assert_eq!(flat.output_path(), "root/duplicates.json");

    assert!(is_hidden(".bashrc"));
    assert!(!is_hidden("bashrc."));
    assert!(!is_hidden(""));
}

#[test]
fn scan_of_a_missing_directory_fails() {
    let scanner = Scanner::new("nowhere".to_string(), true, false, None, true, MediaFilter::All);
    match scanner.check_root(false) {
        Err(Error::PathNotFound(path)) => assert_eq!(path, "nowhere"),
        other => panic!("expected PathNotFound, got {other:?}"),
    }
    assert!(scanner.check_root(true).is_ok());
}
