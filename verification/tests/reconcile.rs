//! Reconciling exact groups and perceptual clusters, and the order of paths.

use media_duplicate_eraser_rs::services::duplicate::{DuplicateGroup, DuplicateType};
use media_duplicate_eraser_rs::services::paths::{
    compare_paths, decimal_text, join_path, sort_unique, Order,
};
use media_duplicate_eraser_rs::services::reconcile::merge_groups;

fn group(kind: DuplicateType, files: &[&str]) -> DuplicateGroup {
    DuplicateGroup { files: files.iter().map(|f| f.to_string()).collect(), duplicate_type: kind }
}

fn exact(files: &[&str]) -> DuplicateGroup {
    group(DuplicateType::Exact, files)
}

fn cluster(files: &[&str]) -> DuplicateGroup {
    group(DuplicateType::Perceptual, files)
}

fn shape(groups: &[DuplicateGroup]) -> Vec<(DuplicateType, Vec<&str>)> {
    groups
        .iter()
        .map(|g| (g.duplicate_type, g.files.iter().map(|f| f.as_str()).collect()))
        .collect()
}

#[test]
fn cluster_takes_the_whole_exact_group_of_a_member() {
    let merged = merge_groups(
        vec![exact(&["z1", "a1"]), exact(&["k1", "k2"])],
        vec![cluster(&["z1", "m"])],
    );
    assert_eq!(
        shape(&merged),
        vec![
            (DuplicateType::Perceptual, vec!["a1", "m", "z1"]),
            (DuplicateType::Exact, vec!["k1", "k2"]),
        ]
    );
}

#[test]
fn exact_groups_that_no_cluster_takes_stay_as_they_are() {
    let merged = merge_groups(vec![exact(&["b", "a"]), exact(&["d", "c", "e"])], vec![]);
    assert_eq!(
        shape(&merged),
        vec![(DuplicateType::Exact, vec!["b", "a"]), (DuplicateType::Exact, vec!["d", "c", "e"])]
    );
}

#[test]
fn clusters_without_exact_members_are_sorted() {
    let merged = merge_groups(vec![], vec![cluster(&["c", "a", "b"]), cluster(&["y", "x"])]);
    assert_eq!(
        shape(&merged),
        vec![
            (DuplicateType::Perceptual, vec!["a", "b", "c"]),
            (DuplicateType::Perceptual, vec!["x", "y"]),
        ]
    );
}

#[test]
fn merged_group_is_perceptual_even_if_all_its_files_are_identical() {
    let merged = merge_groups(vec![exact(&["a", "b"])], vec![cluster(&["a", "b"])]);
    assert_eq!(shape(&merged), vec![(DuplicateType::Perceptual, vec!["a", "b"])]);
}

#[test]
fn repeats_are_removed_before_the_group_is_measured() {
    let merged = merge_groups(vec![], vec![cluster(&["a", "a"]), cluster(&["b", "c", "b"])]);
    assert_eq!(shape(&merged), vec![(DuplicateType::Perceptual, vec!["b", "c"])]);
    let merged = merge_groups(vec![exact(&["a", "a"])], vec![cluster(&["a", "a"])]);
    assert!(merged.is_empty());
}

#[test]
fn an_exact_group_goes_into_one_cluster_only() {
    let merged = merge_groups(
        vec![exact(&["e1", "e2"])],
        vec![cluster(&["e1", "p"]), cluster(&["e2", "q", "r"])],
    );
    assert_eq!(
        shape(&merged),
        vec![
            (DuplicateType::Perceptual, vec!["e1", "e2", "p"]),
            (DuplicateType::Perceptual, vec!["q", "r"]),
        ]
    );
    let merged = merge_groups(
        vec![exact(&["e1", "e2"])],
        vec![cluster(&["e1", "p"]), cluster(&["e2", "q"])],
    );
    assert_eq!(shape(&merged), vec![(DuplicateType::Perceptual, vec!["e1", "e2", "p"])]);
}

#[test]
fn nothing_in_gives_nothing_out() {
    assert!(merge_groups(vec![], vec![]).is_empty());
    assert!(merge_groups(vec![], vec![cluster(&["only"])]).is_empty());
}

#[test]
fn paths_are_ordered_component_by_component() {
    assert_eq!(compare_paths("pics/a.png", "pics-old/a.png"), Order::Before);
    assert_eq!(compare_paths("pics-old/a.png", "pics/a.png"), Order::After);
    assert_eq!(compare_paths("a/z", "a b/a"), Order::Before);
    assert_eq!(compare_paths("a", "a/b"), Order::Before);
    assert_eq!(compare_paths("a/b", "a!"), Order::Before);
    assert_eq!(compare_paths("/x", "x"), Order::Before);
    assert_eq!(compare_paths("a/b/c", "a/b.c"), Order::Before);
    let paths = [
        "pics/a.png", "pics-old/a.png", "pics", "pics/b", "pics.d/a", "a b/c", "a/c", "a", "/a",
        "/a/b", "/a-b", "x/y/z", "x/y z", "x/y", "é/x", "e/x", "x-y", "10", "9",
    ];
    for a in paths {
        for b in paths {
            let expected = match std::path::Path::new(a).cmp(std::path::Path::new(b)) {
                std::cmp::Ordering::Less => Order::Before,
                std::cmp::Ordering::Equal => Order::Same,
                std::cmp::Ordering::Greater => Order::After,
            };
            assert_eq!(compare_paths(a, b), expected, "{a} and {b}");
        }
    }
}

#[test]
fn components_are_ordered_byte_by_byte() {
    assert_eq!(compare_paths("a", "b"), Order::Before);
    assert_eq!(compare_paths("b", "a"), Order::After);
    assert_eq!(compare_paths("same", "same"), Order::Same);
    assert_eq!(compare_paths("", ""), Order::Same);
    assert_eq!(compare_paths("", "a"), Order::Before);
    assert_eq!(compare_paths("ab", "abc"), Order::Before);
    assert_eq!(compare_paths("abc", "ab"), Order::After);
    assert_eq!(compare_paths("B", "a"), Order::Before);
    assert_eq!(compare_paths("image_a copy.png", "image_a.png"), Order::Before);
    assert_eq!(compare_paths("z", "é"), Order::Before);
    assert_eq!(compare_paths("é", "日本"), Order::Before);
    for (a, b) in [("a", "b"), ("x.y", "x-y"), ("ä", "z"), ("10", "9")] {
        let expected = match a.cmp(b) {
            std::cmp::Ordering::Less => Order::Before,
            std::cmp::Ordering::Equal => Order::Same,
            std::cmp::Ordering::Greater => Order::After,
        };
        assert_eq!(compare_paths(a, b), expected, "{a} and {b}");
    }
}

#[test]
fn sorting_orders_and_removes_repeats() {
    let sorted = sort_unique(
        ["pear", "apple", "fig", "apple", "Pear", "fig", "a"].iter().map(|s| s.to_string()).collect(),
    );
    assert_eq!(sorted, vec!["Pear", "a", "apple", "fig", "pear"]);
    assert!(sort_unique(Vec::new()).is_empty());
    assert_eq!(sort_unique(vec!["x".to_string(), "x".to_string()]), vec!["x"]);
    let mut expected: Vec<String> = (0..50).map(|n| format!("f{}", (n * 37) % 23)).collect();
    let sorted = sort_unique(expected.clone());
    expected.sort();
    expected.dedup();
    assert_eq!(sorted, expected);

    let listed: Vec<String> =
        ["d-1/x", "d/y", "d", "d/x", "d.1/x", "d/x"].iter().map(|s| s.to_string()).collect();
    let mut as_paths: Vec<std::path::PathBuf> = listed.iter().map(std::path::PathBuf::from).collect();
    as_paths.sort();
    as_paths.dedup();
    let expected: Vec<String> =
        as_paths.iter().map(|p| p.to_str().unwrap().to_string()).collect();
    assert_eq!(sort_unique(listed), expected);
}

#[test]
fn joining_puts_one_slash_between() {
    assert_eq!(join_path("dir", "file"), "dir/file");
    assert_eq!(join_path("dir/", "file"), "dir/file");
    assert_eq!(join_path("", "file"), "file");
    assert_eq!(join_path("/", "file"), "/file");
    assert_eq!(join_path("a/b", "c.d"), "a/b/c.d");
    assert_eq!(join_path("ordner/größe", "x"), "ordner/größe/x");
    assert_eq!(join_path("dir", ""), "dir/");
}

#[test]
fn numbers_are_written_in_decimal() {
    assert_eq!(decimal_text(0), "0");
    assert_eq!(decimal_text(7), "7");
    assert_eq!(decimal_text(10), "10");
    assert_eq!(decimal_text(909), "909");
    assert_eq!(decimal_text(1234567890), "1234567890");
    assert_eq!(decimal_text(usize::MAX), usize::MAX.to_string());
}
