//! Sorting files by length and by content.
//!
//! Files of different lengths cannot be copies of each other, so the scan
//! sorts by length first and asks for a digest only of the files that share
//! their length with another. Those it sorts by length and digest: each set
//! of two or more is an exact group. The first file of each set goes on to
//! the perceptual comparison, together with the files whose length is their
//! own.

use std::collections::HashMap;

use vstd::prelude::*;

use crate::services::duplicate::{
    all_lower_plainly, digest_text, filter_fingerprints, filter_includes, FileRecord, MediaFilter,
};
use crate::services::hasher::lowers_plainly;
use crate::services::indices::{
    classes_where, classes_where_is_exact, indices_where, indices_where_is_exact,
    indices_where_none, views,
};

verus! {

/// File `i` is part of the scan: it exists and the filter lets it in.
pub open spec fn kept(rs: Seq<FileRecord>, filter: MediaFilter, i: int) -> bool {
    0 <= i < rs.len() && filter_includes(filter, rs[i].path@)
}

/// File `i` is part of the scan and its length is known.
pub open spec fn sized(rs: Seq<FileRecord>, filter: MediaFilter, i: int) -> bool {
    kept(rs, filter, i) && rs[i].size is Some
}

/// Files `i` and `j` are two files of the scan with the same known length.
pub open spec fn size_mates(rs: Seq<FileRecord>, filter: MediaFilter, i: int, j: int) -> bool {
    sized(rs, filter, i) && sized(rs, filter, j) && rs[i].size == rs[j].size
}

/// File `i` shares its length with another file of the scan, so that only
/// its content can tell whether it is a copy.
pub open spec fn contested(rs: Seq<FileRecord>, filter: MediaFilter, i: int) -> bool {
    exists|j: int| j != i && #[trigger] size_mates(rs, filter, i, j)
}

/// File `i` was in need of a digest and has one.
pub open spec fn hashed(rs: Seq<FileRecord>, filter: MediaFilter, i: int) -> bool {
    contested(rs, filter, i) && rs[i].digest is Some
}

/// Files `i` and `j` are exact duplicates: same length, same digest.
pub open spec fn twins(rs: Seq<FileRecord>, filter: MediaFilter, i: int, j: int) -> bool {
    &&& hashed(rs, filter, i)
    &&& hashed(rs, filter, j)
    &&& rs[i].size == rs[j].size
    &&& digest_text(rs[i]) == digest_text(rs[j])
}

/// File `i` is the first among its exact duplicates.
pub open spec fn representative(rs: Seq<FileRecord>, filter: MediaFilter, i: int) -> bool {
    leads(rs, filter, Relation::Content, i)
}

/// File `i` goes into the perceptual comparison: a file whose length no
/// other file has, or the first of a set of exact duplicates (which may be a
/// set of one).
pub open spec fn candidate(rs: Seq<FileRecord>, filter: MediaFilter, i: int) -> bool {
    (sized(rs, filter, i) && !contested(rs, filter, i)) || representative(rs, filter, i)
}

/// File `i` is in need of a fingerprint.
pub open spec fn eligible(rs: Seq<FileRecord>, filter: MediaFilter, i: int) -> bool {
    candidate(rs, filter, i) && filter_fingerprints(filter, rs[i].path@)
}

/// For each file, whether the filter lets it into the scan.
pub(crate) fn kept_flags(records: &Vec<FileRecord>, filter: MediaFilter) -> (flags: Vec<bool>)
    ensures
        flags@.len() == records@.len(),
        forall|i: int| 0 <= i < flags@.len() ==> flags@[i] == kept(records@, filter, i),
        all_lower_plainly(records@),
{
    let mut flags: Vec<bool> = Vec::new();
    let mut i: usize = 0;
    while i < records.len()
        invariant
            i <= records@.len(),
            flags@.len() == i,
            forall|k: int| 0 <= k < i ==> flags@[k] == kept(records@, filter, k),
            forall|k: int| 0 <= k < i ==> lowers_plainly((#[trigger] records@[k]).path@),
        decreases records@.len() - i,
    {
        flags.push(filter.includes(records[i].path.as_str()));
        i = i + 1;
    }
    flags
}

/// Whether two records give the same known length.
fn same_size(a: &FileRecord, b: &FileRecord) -> (same: bool)
    ensures
        same == (a.size is Some && a.size == b.size),
{
    match (a.size, b.size) {
        (Some(x), Some(y)) => x == y,
        _ => false,
    }
}

/// Whether two records give the same known digest.
fn same_digest(a: &FileRecord, b: &FileRecord) -> (same: bool)
    ensures
        same == (a.digest is Some && digest_text(*a) == digest_text(*b)),
{
    match (&a.digest, &b.digest) {
        (Some(x), Some(y)) => *x == *y,
        _ => false,
    }
}

/// File `k` shares its length with another file of the scan among the
/// first `i` files.
pub open spec fn has_mate_before(rs: Seq<FileRecord>, filter: MediaFilter, k: int, i: int) -> bool {
    exists|j: int| 0 <= j < i && j != k && #[trigger] size_mates(rs, filter, k, j)
}

/// For each file, whether it shares its length with another file of the
/// scan. One pass: the first file of each length is remembered, and when a
/// later file has that length, both are marked.
pub(crate) fn contested_flags(records: &Vec<FileRecord>, keep: &Vec<bool>, Ghost(filter): Ghost<MediaFilter>) -> (flags: Vec<
    bool,
>)
    requires
        keep@.len() == records@.len(),
        forall|i: int| 0 <= i < keep@.len() ==> keep@[i] == kept(records@, filter, i),
    ensures
        flags@.len() == records@.len(),
        forall|i: int| 0 <= i < flags@.len() ==> flags@[i] == contested(records@, filter, i),
{
    broadcast use vstd::std_specs::hash::group_hash_axioms;

    let n = records.len();
    let mut flags: Vec<bool> = Vec::new();
    let mut t: usize = 0;
    while t < n
        invariant
            t <= n,
            flags@.len() == t,
            forall|k: int| 0 <= k < t ==> !flags@[k],
        decreases n - t,
    {
        flags.push(false);
        t = t + 1;
    }
    let mut first_of: HashMap<u64, usize> = HashMap::new();
    let mut i: usize = 0;
    while i < n
        invariant
            n == records@.len(),
            keep@.len() == n,
            forall|k: int| 0 <= k < n ==> keep@[k] == kept(records@, filter, k),
            i <= n,
            flags@.len() == n,
            forall|k: int| 0 <= k < i ==> #[trigger] flags@[k] == has_mate_before(records@, filter, k, i as int),
            forall|k: int| i <= k < n ==> !#[trigger] flags@[k],
            forall|s: u64| #[trigger]
                first_of@.contains_key(s) ==> first_of@[s] < i && sized(
                    records@,
                    filter,
                    first_of@[s] as int,
                ) && records@[first_of@[s] as int].size == Some(s),
            forall|j: int|
                0 <= j < i && #[trigger] sized(records@, filter, j) ==> first_of@.contains_key(
                    records@[j].size.unwrap(),
                ),
        decreases n - i,
    {
        let ghost before = flags@;
        let ghost here = i as int;
        let mut met: Option<usize> = None;
        let mut fresh: bool = false;
        if keep[i] {
            match records[i].size {
                Some(size) => {
                    match first_of.get(&size) {
                        Some(first) => {
                            met = Some(*first);
                        },
                        None => {
                            fresh = true;
                        },
                    }
                    if fresh {
                        first_of.insert(size, i);
                    }
                },
                None => {},
            }
        }
        match met {
            Some(first) => {
                flags.set(first, true);
                flags.set(i, true);
            },
            None => {},
        }
        proof {
            assert forall|k: int| 0 <= k < i + 1 implies #[trigger] flags@[k] == has_mate_before(
                records@,
                filter,
                k,
                i + 1,
            ) by {
                let was = k < i && has_mate_before(records@, filter, k, here);
                if was {
                    let j = choose|j: int|
                        0 <= j < here && j != k && #[trigger] size_mates(records@, filter, k, j);
                    assert(size_mates(records@, filter, k, j));
                }
                if has_mate_before(records@, filter, k, i + 1) {
                    let j = choose|j: int|
                        0 <= j < i + 1 && j != k && #[trigger] size_mates(records@, filter, k, j);
                    assert(size_mates(records@, filter, k, j));
                    if k == here {
                        assert(sized(records@, filter, j));
                        assert(met is Some);
                    } else if j == here {
                        assert(sized(records@, filter, k));
                        assert(met is Some);
                        if met != Some(k as usize) {
                            assert(size_mates(records@, filter, k, met.unwrap() as int));
                        }
                    }
                }
                match met {
                    Some(first) => {
                        if k == first as int {
                            assert(size_mates(records@, filter, k, here));
                        } else if k == here {
                            assert(size_mates(records@, filter, k, first as int));
                        }
                    },
                    None => {},
                }
            }
        }
        i = i + 1;
    }
    proof {
        assert forall|k: int| 0 <= k < n implies flags@[k] == contested(records@, filter, k) by {
            if has_mate_before(records@, filter, k, n as int) {
                let j = choose|j: int|
                    0 <= j < n && j != k && #[trigger] size_mates(records@, filter, k, j);
                assert(size_mates(records@, filter, k, j));
            }
            if contested(records@, filter, k) {
                let j = choose|j: int| j != k && #[trigger] size_mates(records@, filter, k, j);
                assert(size_mates(records@, filter, k, j));
            }
        }
    }
    flags
}

/// The two ways in which the scan sorts files into classes.
#[derive(Debug, Clone, Copy, PartialEq, Eq, Structural)]
pub enum Relation {
    /// By length: the files of one class have the same length.
    Size,
    /// By content: the files of one class have the same length and digest.
    Content,
}

/// Whether file `i` takes part in the sorting by `relation`.
pub open spec fn takes_part(
    rs: Seq<FileRecord>,
    filter: MediaFilter,
    relation: Relation,
    i: int,
) -> bool {
    match relation {
        Relation::Size => sized(rs, filter, i),
        Relation::Content => hashed(rs, filter, i),
    }
}

/// Whether files `i` and `j` belong to the same class of `relation`.
pub open spec fn related(
    rs: Seq<FileRecord>,
    filter: MediaFilter,
    relation: Relation,
    i: int,
    j: int,
) -> bool {
    match relation {
        Relation::Size => size_mates(rs, filter, i, j),
        Relation::Content => twins(rs, filter, i, j),
    }
}

/// `related` with all but the second file fixed.
pub open spec fn related_to(
    rs: Seq<FileRecord>,
    filter: MediaFilter,
    relation: Relation,
    i: int,
) -> spec_fn(int) -> bool {
    |j: int| related(rs, filter, relation, i, j)
}

/// The class of file `i`: every file related to it, in ascending order.
pub open spec fn class_of(
    rs: Seq<FileRecord>,
    filter: MediaFilter,
    relation: Relation,
    i: int,
) -> Seq<usize> {
    indices_where(rs.len() as int, related_to(rs, filter, relation, i))
}

/// File `i` is the first of its class.
pub open spec fn leads(rs: Seq<FileRecord>, filter: MediaFilter, relation: Relation, i: int) -> bool {
    takes_part(rs, filter, relation, i) && forall|j: int|
        0 <= j < i ==> !#[trigger] related(rs, filter, relation, j, i)
}

/// File `i` is the first of a class of at least `least` files.
pub open spec fn leads_class_of(
    rs: Seq<FileRecord>,
    filter: MediaFilter,
    relation: Relation,
    least: int,
) -> spec_fn(int) -> bool {
    |i: int| leads(rs, filter, relation, i) && class_of(rs, filter, relation, i).len() >= least
}

/// `class_of` with all but the file fixed.
pub open spec fn class_map(
    rs: Seq<FileRecord>,
    filter: MediaFilter,
    relation: Relation,
) -> spec_fn(int) -> Seq<usize> {
    |i: int| class_of(rs, filter, relation, i)
}

/// The classes of `relation` with at least `least` files, in the order of
/// their first files.
pub open spec fn classes(
    rs: Seq<FileRecord>,
    filter: MediaFilter,
    relation: Relation,
    least: int,
) -> Seq<Seq<usize>> {
    classes_where(
        rs.len() as int,
        leads_class_of(rs, filter, relation, least),
        class_map(rs, filter, relation),
    )
}

/// The size partitions of a scan: for each length that occurs, the files of
/// that length.
pub open spec fn size_partitions(rs: Seq<FileRecord>, filter: MediaFilter) -> Seq<Seq<usize>> {
    classes(rs, filter, Relation::Size, 1)
}

/// The exact groups of a scan: each set of two or more files with the same
/// length and digest.
pub open spec fn exact_classes(rs: Seq<FileRecord>, filter: MediaFilter) -> Seq<Seq<usize>> {
    classes(rs, filter, Relation::Content, 2)
}

/// For each file, whether it takes part in the sorting by `relation`.
pub(crate) fn part_flags(
    records: &Vec<FileRecord>,
    relation: Relation,
    keep: &Vec<bool>,
    shared: &Vec<bool>,
    Ghost(filter): Ghost<MediaFilter>,
) -> (flags: Vec<bool>)
    requires
        keep@.len() == records@.len(),
        shared@.len() == records@.len(),
        forall|i: int| 0 <= i < keep@.len() ==> keep@[i] == kept(records@, filter, i),
        forall|i: int| 0 <= i < shared@.len() ==> shared@[i] == contested(records@, filter, i),
    ensures
        flags@.len() == records@.len(),
        forall|i: int|
            0 <= i < flags@.len() ==> flags@[i] == takes_part(records@, filter, relation, i),
{
    let n = records.len();
    let mut flags: Vec<bool> = Vec::new();
    let mut i: usize = 0;
    while i < n
        invariant
            n == records@.len(),
            keep@.len() == n,
            shared@.len() == n,
            forall|k: int| 0 <= k < n ==> keep@[k] == kept(records@, filter, k),
            forall|k: int| 0 <= k < n ==> shared@[k] == contested(records@, filter, k),
            i <= n,
            flags@.len() == i,
            forall|k: int| 0 <= k < i ==> flags@[k] == takes_part(records@, filter, relation, k),
        decreases n - i,
    {
        let flag = match relation {
            Relation::Size => keep[i] && records[i].size.is_some(),
            Relation::Content => shared[i] && records[i].digest.is_some(),
        };
        flags.push(flag);
        i = i + 1;
    }
    flags
}

/// Whether files `i` and `j` belong to the same class of `relation`.
fn are_related(
    records: &Vec<FileRecord>,
    part: &Vec<bool>,
    relation: Relation,
    i: usize,
    j: usize,
    Ghost(filter): Ghost<MediaFilter>,
) -> (yes: bool)
    requires
        i < records@.len(),
        j < records@.len(),
        part@.len() == records@.len(),
        forall|k: int|
            0 <= k < part@.len() ==> part@[k] == takes_part(records@, filter, relation, k),
    ensures
        yes == related(records@, filter, relation, i as int, j as int),
{
    if !part[i] || !part[j] {
        return false;
    }
    match relation {
        Relation::Size => same_size(&records[i], &records[j]),
        Relation::Content => same_size(&records[i], &records[j]) && same_digest(
            &records[i],
            &records[j],
        ),
    }
}

/// The classes of `relation` with at least `least` files, and for each file
/// whether it is the first of its class.
pub(crate) fn sort_into_classes(
    records: &Vec<FileRecord>,
    relation: Relation,
    least: usize,
    part: &Vec<bool>,
    Ghost(filter): Ghost<MediaFilter>,
) -> (sorted: (Vec<Vec<usize>>, Vec<bool>))
    requires
        part@.len() == records@.len(),
        forall|k: int|
            0 <= k < part@.len() ==> part@[k] == takes_part(records@, filter, relation, k),
    ensures
        views(sorted.0@) == classes(records@, filter, relation, least as int),
        sorted.1@.len() == records@.len(),
        forall|i: int|
            0 <= i < records@.len() ==> sorted.1@[i] == leads(records@, filter, relation, i),
{
    let n = records.len();
    let mut taken: Vec<bool> = Vec::new();
    let mut t: usize = 0;
    while t < n
        invariant
            t <= n,
            taken@.len() == t,
            forall|k: int| 0 <= k < t ==> !taken@[k],
        decreases n - t,
    {
        taken.push(false);
        t = t + 1;
    }
    let mut groups: Vec<Vec<usize>> = Vec::new();
    let mut first: Vec<bool> = Vec::new();
    let mut r: usize = 0;
    while r < n
        invariant
            n == records@.len(),
            first@.len() == r,
            forall|k: int| 0 <= k < r ==> first@[k] == leads(records@, filter, relation, k),
            part@.len() == n,
            forall|k: int| 0 <= k < n ==> part@[k] == takes_part(records@, filter, relation, k),
            taken@.len() == n,
            r <= n,
            forall|j: int|
                0 <= j < n ==> taken@[j] == (exists|q: int|
                    0 <= q < r && #[trigger] related(records@, filter, relation, q, j)),
            views(groups@) == classes_where(
                r as int,
                leads_class_of(records@, filter, relation, least as int),
                class_map(records@, filter, relation),
            ),
        decreases n - r,
    {
        let ghost before = taken@;
        first.push(part[r] && !taken[r]);
        if part[r] && !taken[r] {
            assert(leads(records@, filter, relation, r as int));
            let mut class: Vec<usize> = Vec::new();
            proof {
                assert forall|k: int| 0 <= k < r implies !#[trigger] related_to(
                    records@,
                    filter,
                    relation,
                    r as int,
                )(k) by {
                    assert(!related(records@, filter, relation, k, r as int));
                }
                indices_where_none(r as int, related_to(records@, filter, relation, r as int));
            }
            let mut j: usize = r;
            while j < n
                invariant
                    n == records@.len(),
                    part@.len() == n,
                    forall|k: int|
                        0 <= k < n ==> part@[k] == takes_part(records@, filter, relation, k),
                    taken@.len() == n,
                    r <= j <= n,
                    class@ == indices_where(
                        j as int,
                        related_to(records@, filter, relation, r as int),
                    ),
                    before.len() == n,
                    forall|k: int|
                        0 <= k < n ==> #[trigger] taken@[k] == (before[k] || (r <= k < j && related(
                            records@,
                            filter,
                            relation,
                            r as int,
                            k,
                        ))),
                decreases n - j,
            {
                if are_related(records, part, relation, r, j, Ghost(filter)) {
                    class.push(j);
                    taken.set(j, true);
                }
                j = j + 1;
            }
            assert(class@ == class_of(records@, filter, relation, r as int));
            if class.len() >= least {
                proof {
                    assert(views(groups@.push(class)) =~= views(groups@).push(class@));
                }
                groups.push(class);
            }
        } else {
            assert(!leads(records@, filter, relation, r as int)) by {
                if part@[r as int] {
                    let q = choose|q: int|
                        0 <= q < r && #[trigger] related(records@, filter, relation, q, r as int);
                    assert(related(records@, filter, relation, q, r as int));
                }
            }
        }
        proof {
            assert forall|j: int| 0 <= j < n implies taken@[j] == (exists|q: int|
                0 <= q < r + 1 && #[trigger] related(records@, filter, relation, q, j)) by {
                if taken@[j] {
                    if before[j] {
                        let q = choose|q: int|
                            0 <= q < r && #[trigger] related(records@, filter, relation, q, j);
                        assert(related(records@, filter, relation, q, j));
                    } else {
                        assert(related(records@, filter, relation, r as int, j));
                    }
                } else {
                    if exists|q: int|
                        0 <= q < r + 1 && #[trigger] related(records@, filter, relation, q, j) {
                        let q = choose|q: int|
                            0 <= q < r + 1 && #[trigger] related(records@, filter, relation, q, j);
                        if q < r {
                            assert(before[j]);
                        } else {
                            assert(related(records@, filter, relation, r as int, j));
                            if part@[r as int] && !before[r as int] {
                                assert(leads(records@, filter, relation, r as int));
                                if j < r {
                                    assert(related(records@, filter, relation, j, r as int));
                                }
                                assert(taken@[j]);
                            } else {
                                let q2 = choose|q2: int|
                                    0 <= q2 < r && #[trigger] related(
                                        records@,
                                        filter,
                                        relation,
                                        q2,
                                        r as int,
                                    );
                                assert(related(records@, filter, relation, q2, j));
                                assert(before[j]);
                            }
                        }
                    }
                }
            }
        }
        r = r + 1;
    }
    (groups, first)
}

/// The size partitions: the files whose length is known, sorted into one
/// list per length. The lists stand in the order of their first files, and
/// each lists its files in ascending order.
pub fn group_by_size(records: &Vec<FileRecord>, filter: MediaFilter) -> (partitions: Vec<
    Vec<usize>,
>)
    ensures
        views(partitions@) == size_partitions(records@, filter),
        all_lower_plainly(records@),
{
    let keep = kept_flags(records, filter);
    let shared = contested_flags(records, &keep, Ghost(filter));
    let part = part_flags(records, Relation::Size, &keep, &shared, Ghost(filter));
    sort_into_classes(records, Relation::Size, 1, &part, Ghost(filter)).0
}

/// The exact groups: among the files that share their length with another
/// file and whose digest is known, each set of two or more with the same
/// length and digest. The groups stand in the order of their first files,
/// and each lists its files in ascending order.
pub fn find_exact_duplicates(records: &Vec<FileRecord>, filter: MediaFilter) -> (groups: Vec<
    Vec<usize>,
>)
    ensures
        views(groups@) == exact_classes(records@, filter),
        all_lower_plainly(records@),
{
    let keep = kept_flags(records, filter);
    let shared = contested_flags(records, &keep, Ghost(filter));
    let part = part_flags(records, Relation::Content, &keep, &shared, Ghost(filter));
    sort_into_classes(records, Relation::Content, 2, &part, Ghost(filter)).0
}

/// For each file, whether the scan needs its digest: whether its length is
/// known and another file of the scan has the same length.
pub fn files_to_hash(records: &Vec<FileRecord>, filter: MediaFilter) -> (flags: Vec<bool>)
    ensures
        flags@.len() == records@.len(),
        forall|i: int| 0 <= i < flags@.len() ==> flags@[i] == contested(records@, filter, i),
        all_lower_plainly(records@),
{
    let keep = kept_flags(records, filter);
    contested_flags(records, &keep, Ghost(filter))
}

/// For each file, whether it is in need of a fingerprint.
pub(crate) fn eligible_flags(
    records: &Vec<FileRecord>,
    filter: MediaFilter,
    keep: &Vec<bool>,
    shared: &Vec<bool>,
    first: &Vec<bool>,
) -> (flags: Vec<bool>)
    requires
        keep@.len() == records@.len(),
        shared@.len() == records@.len(),
        first@.len() == records@.len(),
        forall|k: int| 0 <= k < keep@.len() ==> keep@[k] == kept(records@, filter, k),
        forall|k: int| 0 <= k < shared@.len() ==> shared@[k] == contested(records@, filter, k),
        forall|k: int|
            0 <= k < first@.len() ==> first@[k] == leads(records@, filter, Relation::Content, k),
    ensures
        flags@.len() == records@.len(),
        forall|i: int| 0 <= i < flags@.len() ==> flags@[i] == eligible(records@, filter, i),
{
    let n = records.len();
    let mut flags: Vec<bool> = Vec::new();
    let mut i: usize = 0;
    while i < n
        invariant
            n == records@.len(),
            keep@.len() == n,
            shared@.len() == n,
            first@.len() == n,
            forall|k: int| 0 <= k < n ==> keep@[k] == kept(records@, filter, k),
            forall|k: int| 0 <= k < n ==> shared@[k] == contested(records@, filter, k),
            forall|k: int|
                0 <= k < n ==> first@[k] == leads(records@, filter, Relation::Content, k),
            i <= n,
            flags@.len() == i,
            forall|k: int| 0 <= k < i ==> flags@[k] == eligible(records@, filter, k),
        decreases n - i,
    {
        let alone = keep[i] && records[i].size.is_some() && !shared[i];
        let wanted = (alone || first[i]) && filter.includes_for_perceptual(
            records[i].path.as_str(),
        );
        flags.push(wanted);
        i = i + 1;
    }
    flags
}

/// For each file, whether the scan needs its fingerprint: whether it goes
/// into the perceptual comparison and the filter asks for fingerprints of
/// its media type.
pub fn files_to_fingerprint(records: &Vec<FileRecord>, filter: MediaFilter) -> (flags: Vec<bool>)
    ensures
        flags@.len() == records@.len(),
        forall|i: int| 0 <= i < flags@.len() ==> flags@[i] == eligible(records@, filter, i),
        all_lower_plainly(records@),
{
    let keep = kept_flags(records, filter);
    let shared = contested_flags(records, &keep, Ghost(filter));
    let part = part_flags(records, Relation::Content, &keep, &shared, Ghost(filter));
    let first = sort_into_classes(records, Relation::Content, 2, &part, Ghost(filter)).1;
    eligible_flags(records, filter, &keep, &shared, &first)
}

/// Every file of every class is a file of the scan.
pub proof fn classes_are_within(
    rs: Seq<FileRecord>,
    filter: MediaFilter,
    relation: Relation,
    least: int,
)
    requires
        rs.len() <= usize::MAX,
    ensures
        forall|k: int, m: int|
            0 <= k < classes(rs, filter, relation, least).len() && 0 <= m < classes(
                rs,
                filter,
                relation,
                least,
            )[k].len() ==> (#[trigger] classes(rs, filter, relation, least)[k][m]) < rs.len(),
{
    let n = rs.len() as int;
    let all = classes(rs, filter, relation, least);
    classes_where_is_exact(
        n,
        leads_class_of(rs, filter, relation, least),
        class_map(rs, filter, relation),
    );
    assert forall|k: int, m: int| 0 <= k < all.len() && 0 <= m < all[k].len() implies (
    #[trigger] all[k][m]) < rs.len() by {
        let r = indices_where(n, leads_class_of(rs, filter, relation, least))[k] as int;
        indices_where_is_exact(n, related_to(rs, filter, relation, r));
    }
}

} // verus!
