//! The manifest: what a scan found, as the erase takes it.
//!
//! Each group of the report becomes an entry, which names one file to keep
//! and the others to delete.

use vstd::prelude::*;

use crate::services::duplicate::{
    clipped, surplus_total, DuplicateReport, DuplicateType, GroupView,
};
use crate::services::paths::texts;

verus! {

/// The moment of a scan: seconds and nanoseconds since the beginning of
/// 1970, in universal time.
#[derive(Debug, Clone, Copy, PartialEq, Eq, Structural)]
pub struct ScanTime {
    pub seconds: i64,
    pub nanoseconds: u32,
}

/// One group of the manifest: the file to keep and the files to delete.
#[derive(Debug)]
pub struct DuplicateEntry {
    /// The file to keep.
    pub original: String,
    /// The files to delete.
    pub duplicates: Vec<String>,
    /// How the files resemble each other.
    pub duplicate_type: DuplicateType,
}

/// An entry as a value.
pub struct EntryView {
    pub original: Seq<char>,
    pub duplicates: Seq<Seq<char>>,
    pub duplicate_type: DuplicateType,
}

impl View for DuplicateEntry {
    type V = EntryView;

    open spec fn view(&self) -> EntryView {
        EntryView {
            original: self.original@,
            duplicates: texts(self.duplicates@),
            duplicate_type: self.duplicate_type,
        }
    }
}

/// The manifest of a scan: what the scan found, as the erase takes it.
#[derive(Debug)]
pub struct DuplicatesFile {
    /// The version of the format.
    pub version: String,
    /// When the manifest was made.
    pub scanned_at: ScanTime,
    /// The number of files that the scan looked at.
    pub total_files_scanned: usize,
    /// The number of groups.
    pub duplicate_groups: usize,
    /// The number of files to delete.
    pub total_duplicates: usize,
    /// The groups.
    pub entries: Vec<DuplicateEntry>,
}

/// The entry that a group becomes: its first file is the one to keep, the
/// others are the ones to delete.
pub open spec fn entry_of(group: GroupView) -> EntryView {
    EntryView {
        original: group.files[0],
        duplicates: group.files.skip(1),
        duplicate_type: group.duplicate_type,
    }
}

/// An entry keeps its group: the original followed by the duplicates is
/// the list of the group's files, and the type is the group's.
pub proof fn entry_keeps_the_group(group: GroupView)
    requires
        group.files.len() > 0,
    ensures
        seq![entry_of(group).original] + entry_of(group).duplicates == group.files,
        entry_of(group).duplicate_type == group.duplicate_type,
{
    assert(seq![entry_of(group).original] + entry_of(group).duplicates =~= group.files);
}

/// The entries of a list, as values.
pub open spec fn entry_views(entries: Seq<DuplicateEntry>) -> Seq<EntryView> {
    Seq::new(entries.len(), |k: int| entries[k]@)
}

/// The files to delete of the first `n` entries, in the order of the
/// entries.
pub open spec fn doomed(entries: Seq<EntryView>, n: int) -> Seq<Seq<char>>
    decreases n,
{
    if n <= 0 {
        Seq::empty()
    } else {
        doomed(entries, n - 1) + entries[n - 1].duplicates
    }
}

impl DuplicatesFile {
    /// The manifest of a report, stamped with the time `scanned_at`, which
    /// the caller reads from the clock.
    ///
    /// Each group becomes an entry: its first file is the original, the
    /// others are the duplicates. The totals are counted here. A group
    /// without files has no first file: the report must hold none.
    pub fn from_report(report: &DuplicateReport, scanned_at: ScanTime) -> (file: Self)
        requires
            forall|k: int| 0 <= k < report.groups@.len() ==> (#[trigger] report.groups@[k]).files@.len() > 0,
        ensures
            file.version@ == "1.0"@,
            file.scanned_at == scanned_at,
            file.total_files_scanned == report.total_files,
            file.duplicate_groups == report.groups@.len(),
            file.total_duplicates == clipped(
                surplus_total(report.group_list(), None, report.groups@.len() as int),
            ),
            entry_views(file.entries@).len() == report.groups@.len(),
            forall|k: int|
                0 <= k < report.groups@.len() ==> #[trigger] entry_views(file.entries@)[k] == entry_of(
                    report.group_list()[k],
                ),
    {
        let mut entries: Vec<DuplicateEntry> = Vec::new();
        let mut k: usize = 0;
        while k < report.groups.len()
            invariant
                k <= report.groups@.len(),
                forall|q: int|
                    0 <= q < report.groups@.len() ==> (#[trigger] report.groups@[q]).files@.len() > 0,
                entries@.len() == k,
                forall|q: int|
                    0 <= q < k ==> (#[trigger] entries@[q])@ == entry_of(report.groups@[q]@),
            decreases report.groups@.len() - k,
        {
            let group = &report.groups[k];
            let original = group.files[0].clone();
            let mut duplicates: Vec<String> = Vec::new();
            let mut m: usize = 1;
            while m < group.files.len()
                invariant
                    1 <= m <= group.files@.len(),
                    duplicates@.len() == m - 1,
                    forall|q: int| 0 <= q < m - 1 ==> (#[trigger] duplicates@[q])@ == group.files@[q + 1]@,
                decreases group.files@.len() - m,
            {
                duplicates.push(group.files[m].clone());
                m = m + 1;
            }
            let entry = DuplicateEntry { original, duplicates, duplicate_type: group.duplicate_type };
            assert(entry@.duplicates =~= group@.files.skip(1));
            entries.push(entry);
            k = k + 1;
        }
        let total_duplicates = report.duplicate_count();
        DuplicatesFile {
            version: "1.0".to_string(),
            scanned_at,
            total_files_scanned: report.total_files,
            duplicate_groups: report.groups.len(),
            total_duplicates,
            entries,
        }
    }

    /// The files to delete: the duplicates of all entries, in the order of
    /// the entries.
    pub fn files_to_delete(&self) -> (files: Vec<String>)
        ensures
            texts(files@) == doomed(entry_views(self.entries@), self.entries@.len() as int),
    {
        let ghost entries = entry_views(self.entries@);
        let mut files: Vec<String> = Vec::new();
        let mut k: usize = 0;
        assert(texts(files@) =~= doomed(entries, 0));
        while k < self.entries.len()
            invariant
                k <= self.entries@.len(),
                entries == entry_views(self.entries@),
                texts(files@) == doomed(entries, k as int),
            decreases self.entries@.len() - k,
        {
            let entry = &self.entries[k];
            let ghost sofar = texts(files@);
            let mut m: usize = 0;
            assert(texts(files@) =~= sofar + texts(entry.duplicates@).take(0));
            while m < entry.duplicates.len()
                invariant
                    m <= entry.duplicates@.len(),
                    texts(files@) == sofar + texts(entry.duplicates@).take(m as int),
                decreases entry.duplicates@.len() - m,
            {
                let path = entry.duplicates[m].clone();
                let ghost before = texts(files@);
                files.push(path);
                assert(texts(files@) =~= before.push(entry.duplicates@[m as int]@));
                assert(sofar + texts(entry.duplicates@).take(m + 1) =~= (sofar + texts(
                    entry.duplicates@,
                ).take(m as int)).push(entry.duplicates@[m as int]@));
                m = m + 1;
            }
            assert(texts(entry.duplicates@).take(entry.duplicates@.len() as int) =~= texts(
                entry.duplicates@,
            ));
            k = k + 1;
        }
        files
    }
}

} // verus!
