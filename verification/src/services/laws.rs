//! What a scan guarantees of its groups.
//!
//! The laws speak of `scan_groups`, which is what
//! `find_duplicates_with_options` returns, and of the records that went in.

use vstd::prelude::*;

use crate::services::cluster::{cluster_map, cluster_of, clusters, joins, leads_cluster};
use crate::services::duplicate::{
    as_groups, digest_text, paths_at, scan_groups, DuplicateType, FileRecord, GroupView,
    MediaFilter,
};
use crate::services::partition::{
    class_map, class_of, classes, classes_are_within, exact_classes, kept, leads, leads_class_of,
    related, related_to, size_mates, takes_part, twins, Relation,
};
use crate::services::cluster::clusters_are_within;
use crate::services::indices::{classes_where_is_exact, indices_where, indices_where_is_exact};
use crate::services::paths::{path_before, path_order_is_total};
use crate::services::reconcile::{
    merged_groups_are_ascending, covers, holds_two, is_left, left_over, left_over_is_exact, merge_clusters, merge_keeps_length,
    merged_paths_are_accounted, reconciled, reconciled_groups_hold_two,
    reconciled_groups_share_no_file, share_no_file,
    share_no_path, taken_groups_are_kept_whole,
};

verus! {

/// No two records have the same path.
pub open spec fn distinct_paths(rs: Seq<FileRecord>) -> bool {
    forall|i: int, j: int| 0 <= i < j < rs.len() ==> (#[trigger] rs[i]).path@ != (#[trigger] rs[j]).path@
}

/// No file is in two of the sets.
pub open spec fn share_no_index(sets: Seq<Seq<usize>>) -> bool {
    forall|a: int, b: int, x: usize|
        0 <= a < b < sets.len() && #[trigger] sets[a].contains(x) ==> !#[trigger] sets[b].contains(x)
}

/// Every file of every set is a file of the scan.
pub open spec fn all_within(sets: Seq<Seq<usize>>, n: int) -> bool {
    forall|k: int, m: int| 0 <= k < sets.len() && 0 <= m < sets[k].len() ==> (#[trigger] sets[k][m]) < n
}

/// The first file of the class of file `i`.
proof fn first_of_class(rs: Seq<FileRecord>, filter: MediaFilter, relation: Relation, i: int) -> (r:
    int)
    requires
        takes_part(rs, filter, relation, i),
    ensures
        0 <= r <= i,
        leads(rs, filter, relation, r),
        related(rs, filter, relation, r, i),
    decreases i,
{
    if leads(rs, filter, relation, i) {
        i
    } else {
        let j = choose|j: int| 0 <= j < i && #[trigger] related(rs, filter, relation, j, i);
        let r = first_of_class(rs, filter, relation, j);
        assert(related(rs, filter, relation, r, i));
        r
    }
}

/// The classes of a relation are disjoint: no file is in two of them.
pub proof fn classes_share_no_index(
    rs: Seq<FileRecord>,
    filter: MediaFilter,
    relation: Relation,
    least: int,
)
    requires
        rs.len() <= usize::MAX,
    ensures
        share_no_index(classes(rs, filter, relation, least)),
{
    let n = rs.len() as int;
    let all = classes(rs, filter, relation, least);
    let firsts = indices_where(n, leads_class_of(rs, filter, relation, least));
    classes_where_is_exact(
        n,
        leads_class_of(rs, filter, relation, least),
        class_map(rs, filter, relation),
    );
    indices_where_is_exact(n, leads_class_of(rs, filter, relation, least));
    assert forall|a: int, b: int, x: usize|
        0 <= a < b < all.len() && #[trigger] all[a].contains(x) implies !#[trigger] all[b].contains(
        x,
    ) by {
        if all[b].contains(x) {
            let r = firsts[a] as int;
            let s = firsts[b] as int;
            assert(r < s);
            indices_where_is_exact(n, related_to(rs, filter, relation, r));
            indices_where_is_exact(n, related_to(rs, filter, relation, s));
            let u = choose|u: int| 0 <= u < all[a].len() && all[a][u] == x;
            let v = choose|v: int| 0 <= v < all[b].len() && all[b][v] == x;
            assert(related_to(rs, filter, relation, r)(all[a][u] as int));
            assert(related_to(rs, filter, relation, s)(all[b][v] as int));
            assert(related(rs, filter, relation, r, x as int));
            assert(related(rs, filter, relation, s, x as int));
            assert(related(rs, filter, relation, r, s));
            assert(leads(rs, filter, relation, s));
        }
    }
}

/// The clusters are disjoint: no file is in two of them.
pub proof fn clusters_share_no_index(rs: Seq<FileRecord>, filter: MediaFilter)
    requires
        rs.len() <= usize::MAX,
    ensures
        share_no_index(clusters(rs, filter)),
{
    let n = rs.len() as int;
    let all = clusters(rs, filter);
    let seeds = indices_where(n, leads_cluster(rs, filter));
    classes_where_is_exact(n, leads_cluster(rs, filter), cluster_map(rs, filter));
    indices_where_is_exact(n, leads_cluster(rs, filter));
    assert forall|a: int, b: int, x: usize|
        0 <= a < b < all.len() && #[trigger] all[a].contains(x) implies !#[trigger] all[b].contains(
        x,
    ) by {
        if all[b].contains(x) {
            let r = seeds[a] as int;
            let s = seeds[b] as int;
            assert(r < s);
            indices_where_is_exact(n, joins(rs, filter, r));
            indices_where_is_exact(n, joins(rs, filter, s));
            let u = choose|u: int| 0 <= u < all[a].len() && all[a][u] == x;
            let v = choose|v: int| 0 <= v < all[b].len() && all[b][v] == x;
            assert(joins(rs, filter, r)(all[a][u] as int));
            assert(joins(rs, filter, s)(all[b][v] as int));
        }
    }
}

/// Sets of files that share no file give groups that share no path, where
/// no two files have the same path.
pub proof fn disjoint_sets_give_disjoint_groups(
    rs: Seq<FileRecord>,
    sets: Seq<Seq<usize>>,
    kind: DuplicateType,
)
    requires
        distinct_paths(rs),
        share_no_index(sets),
        all_within(sets, rs.len() as int),
    ensures
        share_no_file(as_groups(rs, sets, kind)),
{
    let groups = as_groups(rs, sets, kind);
    assert forall|i: int, j: int| 0 <= i < j < groups.len() implies share_no_path(
        (#[trigger] groups[i]).files,
        (#[trigger] groups[j]).files,
    ) by {
        assert forall|p: Seq<char>| #[trigger] groups[i].files.contains(p) implies !groups[j].files.contains(
            p,
        ) by {
            if groups[j].files.contains(p) {
                let u = choose|u: int| 0 <= u < groups[i].files.len() && groups[i].files[u] == p;
                let v = choose|v: int| 0 <= v < groups[j].files.len() && groups[j].files[v] == p;
                let x = sets[i][u];
                let y = sets[j][v];
                assert(rs[x as int].path@ == rs[y as int].path@);
                if x < y {
                    assert(rs[x as int].path@ != rs[y as int].path@);
                } else if y < x {
                    assert(rs[y as int].path@ != rs[x as int].path@);
                }
                assert(sets[i].contains(x));
                assert(sets[j].contains(y));
            }
        }
    }
}

/// The partition invariant: in what a scan reports, no path appears in two
/// groups, provided that no two records of the scan have the same path.
pub proof fn no_file_in_two_groups(rs: Seq<FileRecord>, filter: MediaFilter)
    requires
        distinct_paths(rs),
        rs.len() <= usize::MAX,
    ensures
        share_no_file(scan_groups(rs, filter)),
{
    let n = rs.len() as int;
    classes_share_no_index(rs, filter, Relation::Content, 2);
    clusters_share_no_index(rs, filter);
    classes_are_within(rs, filter, Relation::Content, 2);
    clusters_are_within(rs, filter);
    disjoint_sets_give_disjoint_groups(rs, exact_classes(rs, filter), DuplicateType::Exact);
    disjoint_sets_give_disjoint_groups(rs, clusters(rs, filter), DuplicateType::Perceptual);
    let exact = as_groups(rs, exact_classes(rs, filter), DuplicateType::Exact);
    classes_where_is_exact(
        n,
        leads_class_of(rs, filter, Relation::Content, 2),
        class_map(rs, filter, Relation::Content),
    );
    indices_where_is_exact(n, leads_class_of(rs, filter, Relation::Content, 2));
    reconciled_groups_share_no_file(
        exact,
        as_groups(rs, clusters(rs, filter), DuplicateType::Perceptual),
    );
}

/// Soundness of exact grouping, one half: two different files of the scan
/// with the same length and the same digest are reported in one group,
/// whatever else is in the scan. (Files with identical content have the
/// same length and, the digest being a function of the content, the same
/// digest.) The two must have different paths, as files do.
pub proof fn identical_files_share_a_group(
    rs: Seq<FileRecord>,
    filter: MediaFilter,
    i: int,
    j: int,
) -> (k: int)
    requires
        rs.len() <= usize::MAX,
        kept(rs, filter, i),
        kept(rs, filter, j),
        i != j,
        rs[i].size is Some,
        rs[i].size == rs[j].size,
        rs[i].digest is Some,
        digest_text(rs[i]) == digest_text(rs[j]),
        rs[i].path@ != rs[j].path@,
    ensures
        0 <= k < scan_groups(rs, filter).len(),
        scan_groups(rs, filter)[k].files.contains(rs[i].path@),
        scan_groups(rs, filter)[k].files.contains(rs[j].path@),
{
    let n = rs.len() as int;
    let content = Relation::Content;
    assert(size_mates(rs, filter, i, j));
    assert(size_mates(rs, filter, j, i));
    assert(twins(rs, filter, i, j));
    let r = first_of_class(rs, filter, content, i);
    assert(related(rs, filter, content, r, j));
    let class = class_of(rs, filter, content, r);
    indices_where_is_exact(n, related_to(rs, filter, content, r));
    assert(related_to(rs, filter, content, r)(i));
    assert(related_to(rs, filter, content, r)(j));
    assert(class.contains(i as usize));
    assert(class.contains(j as usize));
    let u = choose|u: int| 0 <= u < class.len() && class[u] == i as usize;
    let v = choose|v: int| 0 <= v < class.len() && class[v] == j as usize;
    assert(u != v);
    assert(class.len() >= 2);
    let firsts = indices_where(n, leads_class_of(rs, filter, content, 2));
    indices_where_is_exact(n, leads_class_of(rs, filter, content, 2));
    assert(leads_class_of(rs, filter, content, 2)(r));
    assert(firsts.contains(r as usize));
    let c = choose|c: int| 0 <= c < firsts.len() && firsts[c] == r as usize;
    classes_where_is_exact(
        n,
        leads_class_of(rs, filter, content, 2),
        class_map(rs, filter, content),
    );
    assert(exact_classes(rs, filter)[c] == class);
    let exact = as_groups(rs, exact_classes(rs, filter), DuplicateType::Exact);
    let groups = as_groups(rs, clusters(rs, filter), DuplicateType::Perceptual);
    let files = exact[c].files;
    assert(files[u] == rs[i].path@);
    assert(files[v] == rs[j].path@);
    assert(files.contains(rs[i].path@));
    assert(files.contains(rs[j].path@));
    assert(holds_two(files));
    let merging = merge_clusters(exact, groups);
    merge_keeps_length(exact, groups);
    let all = scan_groups(rs, filter);
    if merging.consumed[c] {
        taken_groups_are_kept_whole(exact, groups);
        let k = choose|k: int|
            0 <= k < merging.groups.len() && covers((#[trigger] merging.groups[k]).files, files);
        assert(all[k] == merging.groups[k]);
        k
    } else {
        left_over_is_exact(exact, merging.consumed, exact.len() as int);
        indices_where_is_exact(exact.len() as int, is_left(merging.consumed));
        let left = indices_where(exact.len() as int, is_left(merging.consumed));
        assert(is_left(merging.consumed)(c));
        assert(left.contains(c as usize));
        let m = choose|m: int| 0 <= m < left.len() && left[m] == c as usize;
        let k = merging.groups.len() + m;
        assert(all[k] == left_over(exact, merging.consumed, exact.len() as int)[m]);
        assert(all[k] == exact[c]);
        k
    }
}

/// Partition correctness and the other half of soundness: a group that a
/// scan reports as exact is one of the exact classes, and any two files of
/// an exact class have the same length and the same digest. So two files
/// of different lengths are never in one exact group, and neither are two
/// files with different digests.
pub proof fn exact_group_is_one_class(rs: Seq<FileRecord>, filter: MediaFilter, k: int) -> (c: int)
    requires
        rs.len() <= usize::MAX,
        0 <= k < scan_groups(rs, filter).len(),
        scan_groups(rs, filter)[k].duplicate_type == DuplicateType::Exact,
    ensures
        0 <= c < exact_classes(rs, filter).len(),
        scan_groups(rs, filter)[k].files == paths_at(rs, exact_classes(rs, filter)[c]),
        forall|a: int, b: int|
            0 <= a < exact_classes(rs, filter)[c].len() && 0 <= b < exact_classes(rs, filter)[c].len()
                ==> #[trigger] twins(
                rs,
                filter,
                exact_classes(rs, filter)[c][a] as int,
                exact_classes(rs, filter)[c][b] as int,
            ),
{
    let n = rs.len() as int;
    let content = Relation::Content;
    let exact = as_groups(rs, exact_classes(rs, filter), DuplicateType::Exact);
    let groups = as_groups(rs, clusters(rs, filter), DuplicateType::Perceptual);
    let merging = merge_clusters(exact, groups);
    classes_where_is_exact(
        n,
        leads_class_of(rs, filter, content, 2),
        class_map(rs, filter, content),
    );
    indices_where_is_exact(n, leads_class_of(rs, filter, content, 2));
    merged_paths_are_accounted(exact, groups);
    left_over_is_exact(exact, merging.consumed, exact.len() as int);
    indices_where_is_exact(exact.len() as int, is_left(merging.consumed));
    let left = indices_where(exact.len() as int, is_left(merging.consumed));
    let all = scan_groups(rs, filter);
    if k < merging.groups.len() {
        assert(all[k] == merging.groups[k]);
        assert(false);
    }
    let m = k - merging.groups.len();
    let c = left[m] as int;
    assert(all[k] == exact[c]);
    let firsts = indices_where(n, leads_class_of(rs, filter, content, 2));
    let r = firsts[c] as int;
    let class = exact_classes(rs, filter)[c];
    assert(class == class_of(rs, filter, content, r));
    indices_where_is_exact(n, related_to(rs, filter, content, r));
    assert forall|a: int, b: int| 0 <= a < class.len() && 0 <= b < class.len() implies #[trigger] twins(
        rs,
        filter,
        class[a] as int,
        class[b] as int,
    ) by {
        assert(related_to(rs, filter, content, r)(class[a] as int));
        assert(related_to(rs, filter, content, r)(class[b] as int));
    }
    c
}

/// Every group that a scan reports holds at least two files.
pub proof fn groups_hold_two_files(rs: Seq<FileRecord>, filter: MediaFilter)
    requires
        rs.len() <= usize::MAX,
    ensures
        forall|k: int|
            0 <= k < scan_groups(rs, filter).len() ==> (#[trigger] scan_groups(rs, filter)[k]).files.len()
                >= 2,
{
    let n = rs.len() as int;
    let content = Relation::Content;
    let exact = as_groups(rs, exact_classes(rs, filter), DuplicateType::Exact);
    classes_where_is_exact(
        n,
        leads_class_of(rs, filter, content, 2),
        class_map(rs, filter, content),
    );
    indices_where_is_exact(n, leads_class_of(rs, filter, content, 2));
    assert forall|g: int| 0 <= g < exact.len() implies (#[trigger] exact[g]).files.len() >= 2 by {
        let r = indices_where(n, leads_class_of(rs, filter, content, 2))[g] as int;
        assert(leads_class_of(rs, filter, content, 2)(r));
        assert(exact_classes(rs, filter)[g] == class_of(rs, filter, content, r));
    }
    reconciled_groups_hold_two(
        exact,
        as_groups(rs, clusters(rs, filter), DuplicateType::Perceptual),
    );
}

/// No path is twice in the list.
pub open spec fn no_repeats(files: Seq<Seq<char>>) -> bool {
    forall|i: int, j: int| 0 <= i < j < files.len() ==> #[trigger] files[i] != #[trigger] files[j]
}

/// In what a scan reports, no group lists a path twice, provided that no
/// two records of the scan have the same path.
pub proof fn no_file_twice_in_a_group(rs: Seq<FileRecord>, filter: MediaFilter)
    requires
        distinct_paths(rs),
        rs.len() <= usize::MAX,
    ensures
        forall|k: int|
            0 <= k < scan_groups(rs, filter).len() ==> no_repeats(
                (#[trigger] scan_groups(rs, filter)[k]).files,
            ),
{
    let n = rs.len() as int;
    let content = Relation::Content;
    let exact = as_groups(rs, exact_classes(rs, filter), DuplicateType::Exact);
    let groups = as_groups(rs, clusters(rs, filter), DuplicateType::Perceptual);
    let merging = merge_clusters(exact, groups);
    classes_where_is_exact(
        n,
        leads_class_of(rs, filter, content, 2),
        class_map(rs, filter, content),
    );
    indices_where_is_exact(n, leads_class_of(rs, filter, content, 2));
    merged_groups_are_ascending(exact, groups);
    left_over_is_exact(exact, merging.consumed, exact.len() as int);
    indices_where_is_exact(exact.len() as int, is_left(merging.consumed));
    let all = scan_groups(rs, filter);
    assert forall|k: int| 0 <= k < all.len() implies no_repeats((#[trigger] all[k]).files) by {
        let files = all[k].files;
        if k < merging.groups.len() {
            assert(all[k] == merging.groups[k]);
            assert forall|i: int, j: int| 0 <= i < j < files.len() implies #[trigger] files[i]
                != #[trigger] files[j] by {
                assert(path_before(files[i], files[j]));
                path_order_is_total(files[i], files[j], files[i]);
            }
        } else {
            let c = indices_where(exact.len() as int, is_left(merging.consumed))[k
                - merging.groups.len()] as int;
            assert(all[k] == exact[c]);
            let r = indices_where(n, leads_class_of(rs, filter, content, 2))[c] as int;
            let class = exact_classes(rs, filter)[c];
            assert(class == class_of(rs, filter, content, r));
            indices_where_is_exact(n, related_to(rs, filter, content, r));
            assert forall|i: int, j: int| 0 <= i < j < files.len() implies #[trigger] files[i]
                != #[trigger] files[j] by {
                assert(class[i] < class[j]);
                assert(rs[class[i] as int].path@ != rs[class[j] as int].path@);
            }
        }
    }
}

} // verus!
