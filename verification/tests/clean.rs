//! The clean command, run against a disk in memory.

use std::collections::BTreeSet;

use media_duplicate_eraser_rs::commands::clean::{CleanAction, Cleaner, DUPLICATES_FILENAME};

/// Runs the clean command on the directory: does what it says to the disk.
fn clean(disk: &mut BTreeSet<String>, dir: &str) -> Result<CleanAction, String> {
    let cleaner = Cleaner::new(dir.to_string(), true);
    let manifest = cleaner.duplicates_file_path();
    let action = cleaner.action(disk.contains(&manifest));
    match action {
        CleanAction::RemoveManifest => {
            if !disk.remove(&manifest) {
                return Err("no such file".to_string());
            }
        }
        CleanAction::Nothing => {}
    }
    Ok(action)
}

fn disk_with(paths: &[&str]) -> BTreeSet<String> {
    paths.iter().map(|p| p.to_string()).collect()
}

#[test]
fn test_clean_removes_duplicates_json() {
    let mut disk = disk_with(&["tmp/duplicates.json"]);
    assert!(disk.contains("tmp/duplicates.json"));
    let result = clean(&mut disk, "tmp");
    assert!(result.is_ok(), "Cleaner should execute without error");
    assert!(!disk.contains("tmp/duplicates.json"));
}

#[test]
fn test_clean_handles_missing_duplicates_json() {
    let mut disk = disk_with(&[]);
    assert!(!disk.contains("tmp/duplicates.json"));
    let result = clean(&mut disk, "tmp");
    assert!(result.is_ok(), "Cleaner should handle missing file gracefully");
    assert_eq!(result.unwrap(), CleanAction::Nothing);
}

#[test]
fn test_clean_does_not_affect_other_files() {
    let mut disk = disk_with(&[
        "tmp/duplicates.json",
        "tmp/other_file.txt",
        "tmp/subdir/nested.txt",
        "tmp/subdir/duplicates.json",
    ]);
    assert!(disk.contains("tmp/duplicates.json"));
    assert!(disk.contains("tmp/other_file.txt"));
    assert!(disk.contains("tmp/subdir/nested.txt"));
    let result = clean(&mut disk, "tmp");
    assert!(result.is_ok(), "Cleaner should execute without error");
    assert!(!disk.contains("tmp/duplicates.json"));
    assert!(disk.contains("tmp/other_file.txt"));
    assert!(disk.contains("tmp/subdir/nested.txt"));
    assert!(disk.contains("tmp/subdir/duplicates.json"));
}

#[test]
fn test_clean_is_idempotent() {
    let mut disk = disk_with(&["tmp/duplicates.json", "tmp/a.txt"]);
    let result1 = clean(&mut disk, "tmp");
    assert!(result1.is_ok(), "First clean should succeed");
    assert_eq!(result1.unwrap(), CleanAction::RemoveManifest);
    assert!(!disk.contains("tmp/duplicates.json"));

    let after_first = disk.clone();
    let result2 = clean(&mut disk, "tmp");
    assert!(result2.is_ok(), "Second clean should also succeed");
    assert_eq!(result2.unwrap(), CleanAction::Nothing);
    assert!(!disk.contains("tmp/duplicates.json"));
    assert_eq!(disk, after_first);
}

#[test]
fn cleaner_names_the_manifest() {
    assert_eq!(DUPLICATES_FILENAME, "duplicates.json");
    let cleaner = Cleaner::new("some/dir".to_string(), false);
    assert!(!cleaner.quiet());
    assert_eq!(cleaner.duplicates_file_path(), "some/dir/duplicates.json");
    assert_eq!(cleaner.action(true), CleanAction::RemoveManifest);
    assert_eq!(cleaner.action(false), CleanAction::Nothing);
    assert!(Cleaner::new(".".to_string(), true).quiet());
}
