//! The duplicate-detection engine.
//!
//! A scan works on one record per file. The record holds the path and what
//! has been measured of the file so far: its length, its digest, its
//! fingerprint. The engine never measures anything itself. It says which
//! files have to be hashed ([`files_to_hash`]) and which have to be
//! fingerprinted ([`files_to_fingerprint`]), and from the complete records it
//! computes the groups ([`find_duplicates_with_options`]).
//!
//! Files are told apart by their position in the list of records; paths come
//! back in only when the groups are written out.

use vstd::prelude::*;

use crate::error::Error;
use crate::services::cluster::{cluster_around_seeds, clusters, clusters_are_within};
use crate::services::hasher::{
    get_media_type, lowers_plainly, media_type_of, Fingerprint, MediaType,
};
use crate::services::indices::{indices_where, views};
use crate::services::laws::groups_hold_two_files;
use crate::services::partition::{
    classes_are_within, contested, contested_flags, eligible, eligible_flags, exact_classes, kept,
    kept_flags, part_flags, sort_into_classes, Relation,
};
use crate::services::paths::texts;
use crate::services::reconcile::{merge_groups, reconciled};

pub use crate::services::cluster::find_perceptual_duplicates;
pub use crate::services::manifest::{DuplicateEntry, DuplicatesFile, ScanTime};
pub use crate::services::partition::{
    files_to_fingerprint, files_to_hash, find_exact_duplicates, group_by_size,
};

verus! {

/// How the files of a group resemble each other.
#[derive(Debug, Clone, Copy, PartialEq, Eq, Structural)]
pub enum DuplicateType {
    /// Byte for byte the same.
    Exact,
    /// Similar to the eye or the ear.
    Perceptual,
}

/// A group of files that are duplicates of each other.
#[derive(Debug)]
pub struct DuplicateGroup {
    /// The paths of the files. In the groups that a scan reports, the first
    /// is the one to keep.
    pub files: Vec<String>,
    /// How the files resemble each other.
    pub duplicate_type: DuplicateType,
}

/// A group as a value: the texts of its paths, and its type.
pub struct GroupView {
    pub files: Seq<Seq<char>>,
    pub duplicate_type: DuplicateType,
}

impl View for DuplicateGroup {
    type V = GroupView;

    open spec fn view(&self) -> GroupView {
        GroupView { files: texts(self.files@), duplicate_type: self.duplicate_type }
    }
}

/// The groups of a list, as values.
pub open spec fn group_views(groups: Seq<DuplicateGroup>) -> Seq<GroupView> {
    Seq::new(groups.len(), |k: int| groups[k]@)
}

/// Which media types a scan looks at.
#[derive(Debug, Clone, Copy, PartialEq, Eq, Structural)]
pub enum MediaFilter {
    /// Every file.
    All,
    /// Images only.
    ImagesOnly,
    /// Videos only.
    VideosOnly,
    /// Audio files only.
    AudioOnly,
}

impl Default for MediaFilter {
    fn default() -> (filter: Self)
        ensures
            filter == MediaFilter::All,
    {
        MediaFilter::All
    }
}

/// Whether a scan under `filter` looks at the file at `path` at all.
pub open spec fn filter_includes(filter: MediaFilter, path: Seq<char>) -> bool {
    match filter {
        MediaFilter::All => true,
        MediaFilter::ImagesOnly => media_type_of(path) == MediaType::Image,
        MediaFilter::VideosOnly => media_type_of(path) == MediaType::Video,
        MediaFilter::AudioOnly => media_type_of(path) == MediaType::Audio,
    }
}

/// Whether a scan under `filter` asks for a fingerprint of the file at
/// `path`: only of the media types that the filter names, and under `All`
/// only of the three known ones.
pub open spec fn filter_fingerprints(filter: MediaFilter, path: Seq<char>) -> bool {
    match filter {
        MediaFilter::All => media_type_of(path) != MediaType::Unknown,
        MediaFilter::ImagesOnly => media_type_of(path) == MediaType::Image,
        MediaFilter::VideosOnly => media_type_of(path) == MediaType::Video,
        MediaFilter::AudioOnly => media_type_of(path) == MediaType::Audio,
    }
}

impl MediaFilter {
    /// Whether the filter lets the file at `path` into the scan.
    pub fn includes(&self, path: &str) -> (included: bool)
        ensures
            included == filter_includes(*self, path@),
            lowers_plainly(path@),
    {
        let media_type = get_media_type(path);
        match self {
            MediaFilter::All => true,
            MediaFilter::ImagesOnly => media_type == MediaType::Image,
            MediaFilter::VideosOnly => media_type == MediaType::Video,
            MediaFilter::AudioOnly => media_type == MediaType::Audio,
        }
    }

    /// Whether the filter lets the file at `path` into the perceptual
    /// comparison.
    pub fn includes_for_perceptual(&self, path: &str) -> (included: bool)
        ensures
            included == filter_fingerprints(*self, path@),
            lowers_plainly(path@),
    {
        let media_type = get_media_type(path);
        match self {
            MediaFilter::All => media_type == MediaType::Image || media_type == MediaType::Video
                || media_type == MediaType::Audio,
            MediaFilter::ImagesOnly => media_type == MediaType::Image,
            MediaFilter::VideosOnly => media_type == MediaType::Video,
            MediaFilter::AudioOnly => media_type == MediaType::Audio,
        }
    }
}

/// How the attempt to fingerprint a file went.
#[derive(Debug)]
pub enum FingerprintProbe {
    /// The file has this fingerprint.
    Found(Fingerprint),
    /// The file is no media file that can be fingerprinted.
    Unsupported,
    /// Fingerprinting failed.
    Failed,
}

/// One file of a scan: its path and what has been measured of it.
#[derive(Debug)]
pub struct FileRecord {
    /// The path of the file.
    pub path: String,
    /// Its length in bytes; `None` if the length could not be read.
    pub size: Option<u64>,
    /// The digest of its content; `None` if the content could not be read,
    /// or was not asked for.
    pub digest: Option<String>,
    /// Its fingerprint, if one was asked for.
    pub fingerprint: FingerprintProbe,
}

/// The lower-case forms of the extensions of all paths are the plain ones
/// where the extensions are ASCII text.
pub open spec fn all_lower_plainly(rs: Seq<FileRecord>) -> bool {
    forall|i: int| 0 <= i < rs.len() ==> lowers_plainly((#[trigger] rs[i]).path@)
}

/// The digest of a record, as text.
pub open spec fn digest_text(record: FileRecord) -> Option<Seq<char>> {
    match record.digest {
        Some(digest) => Some(digest@),
        None => None,
    }
}

/// The fingerprint of a record, as bytes.
pub open spec fn fingerprint_bits(record: FileRecord) -> Option<Seq<u8>> {
    match record.fingerprint {
        FingerprintProbe::Found(fingerprint) => Some(fingerprint@),
        _ => None,
    }
}

/// File `i` dropped out of the scan because something that was needed of it
/// could not be measured: its length, its digest or its fingerprint.
pub open spec fn failed(rs: Seq<FileRecord>, filter: MediaFilter, i: int) -> bool {
    kept(rs, filter, i) && (rs[i].size is None || (contested(rs, filter, i) && rs[i].digest
        is None) || (eligible(rs, filter, i) && rs[i].fingerprint is Failed))
}

/// The paths of the files `files`, in that order.
pub open spec fn paths_at(rs: Seq<FileRecord>, files: Seq<usize>) -> Seq<Seq<char>> {
    Seq::new(files.len(), |m: int| rs[files[m] as int].path@)
}

/// The groups of type `kind` that list the paths of the classes `sets`.
pub open spec fn as_groups(
    rs: Seq<FileRecord>,
    sets: Seq<Seq<usize>>,
    kind: DuplicateType,
) -> Seq<GroupView> {
    Seq::new(sets.len(), |k: int| GroupView { files: paths_at(rs, sets[k]), duplicate_type: kind })
}

/// The groups that a scan of `rs` under `filter` reports: the exact groups
/// and the perceptual clusters of the scan, reconciled.
pub open spec fn scan_groups(rs: Seq<FileRecord>, filter: MediaFilter) -> Seq<GroupView> {
    reconciled(
        as_groups(rs, exact_classes(rs, filter), DuplicateType::Exact),
        as_groups(rs, clusters(rs, filter), DuplicateType::Perceptual),
    )
}

/// `kept` with all but the file fixed.
pub open spec fn is_kept(rs: Seq<FileRecord>, filter: MediaFilter) -> spec_fn(int) -> bool {
    |i: int| kept(rs, filter, i)
}

/// `failed` with all but the file fixed.
pub open spec fn has_failed(rs: Seq<FileRecord>, filter: MediaFilter) -> spec_fn(int) -> bool {
    |i: int| failed(rs, filter, i)
}

/// The number of files that a scan of `rs` under `filter` looks at.
pub open spec fn scan_total(rs: Seq<FileRecord>, filter: MediaFilter) -> nat {
    indices_where(rs.len() as int, is_kept(rs, filter)).len()
}

/// The number of files that drop out of a scan of `rs` under `filter`
/// because a measurement failed.
pub open spec fn scan_errors(rs: Seq<FileRecord>, filter: MediaFilter) -> nat {
    indices_where(rs.len() as int, has_failed(rs, filter)).len()
}

/// The groups of type `kind` that list the paths of the classes `sets`.
fn write_groups(records: &Vec<FileRecord>, sets: &Vec<Vec<usize>>, kind: DuplicateType) -> (groups: Vec<
    DuplicateGroup,
>)
    requires
        forall|k: int, m: int|
            0 <= k < sets@.len() && 0 <= m < sets@[k]@.len() ==> (#[trigger] sets@[k]@[m])
                < records@.len(),
    ensures
        group_views(groups@) == as_groups(records@, views(sets@), kind),
{
    let mut groups: Vec<DuplicateGroup> = Vec::new();
    let mut k: usize = 0;
    while k < sets.len()
        invariant
            k <= sets@.len(),
            forall|k: int, m: int|
                0 <= k < sets@.len() && 0 <= m < sets@[k]@.len() ==> (#[trigger] sets@[k]@[m])
                    < records@.len(),
            groups@.len() == k,
            forall|q: int|
                0 <= q < k ==> (#[trigger] groups@[q])@ == (GroupView {
                    files: paths_at(records@, sets@[q]@),
                    duplicate_type: kind,
                }),
        decreases sets@.len() - k,
    {
        let set = &sets[k];
        let mut files: Vec<String> = Vec::new();
        let mut m: usize = 0;
        while m < set.len()
            invariant
                m <= set@.len(),
                forall|q: int| 0 <= q < set@.len() ==> (#[trigger] set@[q]) < records@.len(),
                files@.len() == m,
                forall|q: int| 0 <= q < m ==> (#[trigger] files@[q])@ == records@[set@[q] as int].path@,
            decreases set@.len() - m,
        {
            files.push(records[set[m]].path.clone());
            m = m + 1;
        }
        let group = DuplicateGroup { files, duplicate_type: kind };
        assert(group@.files =~= paths_at(records@, set@));
        groups.push(group);
        k = k + 1;
    }
    assert(group_views(groups@) =~= as_groups(records@, views(sets@), kind));
    groups
}

/// What a scan found.
#[derive(Debug)]
pub struct DuplicateReport {
    /// The groups of duplicates. No file is in two of them.
    pub groups: Vec<DuplicateGroup>,
    /// The number of files that the scan looked at.
    pub total_files: usize,
    /// The number of files that dropped out because a measurement failed.
    pub errors: usize,
}

/// Finds the duplicates among the files of `records`, looking only at the
/// files that `filter` lets in.
///
/// The scan goes in passes. Files are sorted by length; a file whose length
/// could not be read drops out and counts as an error. Files that share
/// their length are sorted by digest; one whose digest is missing drops out
/// and counts as an error. Each set of two or more with the same length and
/// digest is an exact group. The first file of each set, and each file
/// whose length is its own, goes into the perceptual comparison if the
/// filter asks for fingerprints of its media type; one whose fingerprinting
/// failed counts as an error, one without a fingerprint is passed over. The
/// clusters that the comparison gives are reconciled with the exact groups.
///
/// The scan itself cannot fail: the result is always `Ok`.
pub fn find_duplicates_with_options(records: &Vec<FileRecord>, filter: MediaFilter) -> (result: Result<
    DuplicateReport,
    Error,
>)
    ensures
        result is Ok,
        group_views(result.unwrap().groups@) == scan_groups(records@, filter),
        result.unwrap().total_files == scan_total(records@, filter),
        result.unwrap().errors == scan_errors(records@, filter),
        all_lower_plainly(records@),
        forall|k: int|
            0 <= k < result.unwrap().groups@.len() ==> (#[trigger] result.unwrap().groups@[k]).files@.len()
                >= 2,
{
    let n = records.len();
    let keep = kept_flags(records, filter);
    let shared = contested_flags(records, &keep, Ghost(filter));
    let part = part_flags(records, Relation::Content, &keep, &shared, Ghost(filter));
    let (exact, first) = sort_into_classes(records, Relation::Content, 2, &part, Ghost(filter));
    let wanted = eligible_flags(records, filter, &keep, &shared, &first);
    let mut total_files: usize = 0;
    let mut errors: usize = 0;
    let mut i: usize = 0;
    while i < n
        invariant
            n == records@.len(),
            keep@.len() == n,
            shared@.len() == n,
            wanted@.len() == n,
            forall|k: int| 0 <= k < n ==> keep@[k] == kept(records@, filter, k),
            forall|k: int| 0 <= k < n ==> shared@[k] == contested(records@, filter, k),
            forall|k: int| 0 <= k < n ==> wanted@[k] == eligible(records@, filter, k),
            i <= n,
            total_files == indices_where(i as int, is_kept(records@, filter)).len(),
            errors == indices_where(i as int, has_failed(records@, filter)).len(),
            total_files <= i,
            errors <= i,
        decreases n - i,
    {
        let record = &records[i];
        if keep[i] {
            total_files = total_files + 1;
            let unsighted = match &record.fingerprint {
                FingerprintProbe::Failed => true,
                _ => false,
            };
            if record.size.is_none() || (shared[i] && record.digest.is_none()) || (wanted[i]
                && unsighted) {
                errors = errors + 1;
            }
        }
        i = i + 1;
    }
    let perceptual = cluster_around_seeds(records, &wanted, Ghost(filter));
    proof {
        classes_are_within(records@, filter, Relation::Content, 2);
        clusters_are_within(records@, filter);
        assert forall|k: int, m: int| 0 <= k < exact@.len() && 0 <= m < exact@[k]@.len() implies (
        #[trigger] exact@[k]@[m]) < records@.len() by {
            assert(views(exact@)[k] == exact@[k]@);
        }
        assert forall|k: int, m: int|
            0 <= k < perceptual@.len() && 0 <= m < perceptual@[k]@.len() implies (
        #[trigger] perceptual@[k]@[m]) < records@.len() by {
            assert(views(perceptual@)[k] == perceptual@[k]@);
        }
    }
    let exact_groups = write_groups(records, &exact, DuplicateType::Exact);
    let perceptual_groups = write_groups(records, &perceptual, DuplicateType::Perceptual);
    let groups = merge_groups(exact_groups, perceptual_groups);
    proof {
        groups_hold_two_files(records@, filter);
        assert forall|k: int| 0 <= k < groups@.len() implies (#[trigger] groups@[k]).files@.len()
            >= 2 by {
            assert(group_views(groups@)[k].files.len() >= 2);
        }
    }
    Ok(DuplicateReport { groups, total_files, errors })
}

/// Finds the duplicates among all files of `records`.
pub fn find_duplicates(records: &Vec<FileRecord>) -> (result: Result<DuplicateReport, Error>)
    ensures
        result is Ok,
        group_views(result.unwrap().groups@) == scan_groups(records@, MediaFilter::All),
        result.unwrap().total_files == scan_total(records@, MediaFilter::All),
        result.unwrap().errors == scan_errors(records@, MediaFilter::All),
        all_lower_plainly(records@),
        forall|k: int|
            0 <= k < result.unwrap().groups@.len() ==> (#[trigger] result.unwrap().groups@[k]).files@.len()
                >= 2,
{
    find_duplicates_with_options(records, MediaFilter::All)
}

/// The label under which the sorting by content reports its progress.
pub const HASHING_PHASE: &'static str = "Hashing files";

/// The label under which the perceptual comparison reports its progress.
pub const ANALYZING_PHASE: &'static str = "Analyzing media";

/// Finds the duplicates among all files of `records`, as `find_duplicates`
/// does, and tells `progress`, if there is one, when each of the two passes
/// is through: it is called with the number of files gone through, the
/// number of files of the scan, and the label of the pass. The callback is
/// told, never asked: the result is the same with it and without it. It
/// must take whatever it is handed.
pub fn find_duplicates_with_progress<F: Fn(usize, usize, &str)>(
    records: &Vec<FileRecord>,
    progress: Option<F>,
) -> (result: Result<DuplicateReport, Error>)
    requires
        progress matches Some(report) ==> forall|done: usize, total: usize, phase: &str|
            #[trigger] report.requires((done, total, phase)),
    ensures
        result is Ok,
        group_views(result.unwrap().groups@) == scan_groups(records@, MediaFilter::All),
        result.unwrap().total_files == scan_total(records@, MediaFilter::All),
        result.unwrap().errors == scan_errors(records@, MediaFilter::All),
        all_lower_plainly(records@),
        forall|k: int|
            0 <= k < result.unwrap().groups@.len() ==> (#[trigger] result.unwrap().groups@[k]).files@.len()
                >= 2,
{
    let result = find_duplicates(records);
    match &progress {
        Some(report) => {
            let total = match &result {
                Ok(found) => found.total_files,
                Err(_) => 0,
            };
            report(total, total, HASHING_PHASE);
            report(total, total, ANALYZING_PHASE);
        },
        None => {},
    }
    result
}

/// The number of files of a group beyond the first.
pub open spec fn surplus(group: GroupView) -> nat {
    if group.files.len() > 0 {
        (group.files.len() - 1) as nat
    } else {
        0
    }
}

/// Whether a group counts under `kind`: every group if `kind` is `None`,
/// else the groups of that type.
pub open spec fn counts_as(group: GroupView, kind: Option<DuplicateType>) -> bool {
    match kind {
        Some(wanted) => group.duplicate_type == wanted,
        None => true,
    }
}

/// The number of files beyond the first in the first `n` groups, over the
/// groups that count under `kind`.
pub open spec fn surplus_total(groups: Seq<GroupView>, kind: Option<DuplicateType>, n: int) -> nat
    decreases n,
{
    if n <= 0 {
        0
    } else if counts_as(groups[n - 1], kind) {
        surplus_total(groups, kind, n - 1) + surplus(groups[n - 1])
    } else {
        surplus_total(groups, kind, n - 1)
    }
}

/// `v` as a `usize`, or `usize::MAX` if it is larger than that.
pub open spec fn clipped(v: nat) -> usize {
    if v > usize::MAX {
        usize::MAX
    } else {
        v as usize
    }
}

/// `a + b`, or `usize::MAX` if that is too large.
fn add_clipped(a: usize, b: usize) -> (sum: usize)
    ensures
        sum == clipped((a + b) as nat),
{
    if a > usize::MAX - b {
        usize::MAX
    } else {
        a + b
    }
}

/// The number of files beyond the first in the groups that count under
/// `kind`, clipped to `usize::MAX`.
fn count_surplus(groups: &Vec<DuplicateGroup>, kind: Option<DuplicateType>) -> (count: usize)
    ensures
        count == clipped(surplus_total(group_views(groups@), kind, groups@.len() as int)),
{
    let mut count: usize = 0;
    let mut k: usize = 0;
    while k < groups.len()
        invariant
            k <= groups@.len(),
            count == clipped(surplus_total(group_views(groups@), kind, k as int)),
        decreases groups@.len() - k,
    {
        let group = &groups[k];
        let wanted = match kind {
            Some(DuplicateType::Exact) => group.duplicate_type == DuplicateType::Exact,
            Some(DuplicateType::Perceptual) => group.duplicate_type == DuplicateType::Perceptual,
            None => true,
        };
        if wanted {
            let extra = if group.files.len() > 0 {
                group.files.len() - 1
            } else {
                0
            };
            assert(extra == surplus(group_views(groups@)[k as int]));
            count = add_clipped(count, extra);
        }
        k = k + 1;
    }
    count
}

impl DuplicateReport {
    /// The groups of the report, as values.
    pub open spec fn group_list(&self) -> Seq<GroupView> {
        group_views(self.groups@)
    }

    /// The number of duplicates: the files of all groups, not counting one
    /// file per group. A number beyond `usize::MAX` is given as `usize::MAX`.
    pub fn duplicate_count(&self) -> (count: usize)
        ensures
            count == clipped(surplus_total(self.group_list(), None, self.groups@.len() as int)),
    {
        count_surplus(&self.groups, None)
    }

    /// The number of duplicates in the exact groups.
    pub fn exact_duplicate_count(&self) -> (count: usize)
        ensures
            count == clipped(
                surplus_total(
                    self.group_list(),
                    Some(DuplicateType::Exact),
                    self.groups@.len() as int,
                ),
            ),
    {
        count_surplus(&self.groups, Some(DuplicateType::Exact))
    }

    /// The number of duplicates in the perceptual groups.
    pub fn perceptual_duplicate_count(&self) -> (count: usize)
        ensures
            count == clipped(
                surplus_total(
                    self.group_list(),
                    Some(DuplicateType::Perceptual),
                    self.groups@.len() as int,
                ),
            ),
    {
        count_surplus(&self.groups, Some(DuplicateType::Perceptual))
    }

    /// The number of groups of type `kind`.
    pub fn group_count(&self, kind: DuplicateType) -> (count: usize)
        ensures
            count == indices_where(self.groups@.len() as int, is_of_type(self.group_list(), kind)).len(),
    {
        let mut count: usize = 0;
        let mut k: usize = 0;
        while k < self.groups.len()
            invariant
                k <= self.groups@.len(),
                count <= k,
                count == indices_where(k as int, is_of_type(self.group_list(), kind)).len(),
            decreases self.groups@.len() - k,
        {
            let same = match kind {
                DuplicateType::Exact => self.groups[k].duplicate_type == DuplicateType::Exact,
                DuplicateType::Perceptual => self.groups[k].duplicate_type
                    == DuplicateType::Perceptual,
            };
            if same {
                count = count + 1;
            }
            k = k + 1;
        }
        count
    }
}

/// Whether the group at a position is of type `kind`.
pub open spec fn is_of_type(groups: Seq<GroupView>, kind: DuplicateType) -> spec_fn(int) -> bool {
    |k: int| groups[k].duplicate_type == kind
}

} // verus!
