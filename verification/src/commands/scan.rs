//! The scan command: which files a traversal takes in, and where the
//! manifest goes.

use vstd::prelude::*;
use vstd::string::StrSliceExecFns;

use crate::commands::clean::DUPLICATES_FILENAME;
use crate::error::Error;
use crate::services::duplicate::{DuplicateReport, MediaFilter};
use crate::services::paths::{join_path, joined};

verus! {

/// The scan command for one directory.
#[derive(Debug)]
pub struct Scanner {
    path: String,
    recursive: bool,
    include_hidden: bool,
    output: Option<String>,
    quiet: bool,
    media_filter: MediaFilter,
}

/// The settings of a scan, as values.
pub struct ScannerView {
    pub path: Seq<char>,
    pub recursive: bool,
    pub include_hidden: bool,
    pub output: Option<Seq<char>>,
    pub quiet: bool,
    pub media_filter: MediaFilter,
}

/// Whether a file name marks a hidden entry: whether it begins with a dot.
pub open spec fn hidden_name(name: Seq<char>) -> bool {
    name.len() > 0 && name[0] == '.'
}

/// Whether a file name marks a hidden entry.
pub fn is_hidden(name: &str) -> (hidden: bool)
    ensures
        hidden == hidden_name(name@),
{
    name.unicode_len() > 0 && name.get_char(0) == '.'
}

impl View for Scanner {
    type V = ScannerView;

    closed spec fn view(&self) -> ScannerView {
        ScannerView {
            path: self.path@,
            recursive: self.recursive,
            include_hidden: self.include_hidden,
            output: match self.output {
                Some(path) => Some(path@),
                None => None,
            },
            quiet: self.quiet,
            media_filter: self.media_filter,
        }
    }
}

impl Scanner {
    /// The scan command for the directory `path`. Without `output` the
    /// manifest goes into that directory.
    pub fn new(
        path: String,
        recursive: bool,
        include_hidden: bool,
        output: Option<String>,
        quiet: bool,
        media_filter: MediaFilter,
    ) -> (scanner: Self)
        ensures
            scanner@ == (ScannerView {
                path: path@,
                recursive,
                include_hidden,
                output: match output {
                    Some(path) => Some(path@),
                    None => None,
                },
                quiet,
                media_filter,
            }),
    {
        Scanner { path, recursive, include_hidden, output, quiet, media_filter }
    }

    /// The directory to scan.
    pub fn path(&self) -> (path: &String)
        ensures
            path@ == self@.path,
    {
        &self.path
    }

    /// Whether the command keeps silent.
    pub fn quiet(&self) -> (quiet: bool)
        ensures
            quiet == self@.quiet,
    {
        self.quiet
    }

    /// The media types that the scan looks at.
    pub fn media_filter(&self) -> (filter: MediaFilter)
        ensures
            filter == self@.media_filter,
    {
        self.media_filter
    }

    /// Where the manifest goes: to the output path if one was given, else
    /// into the scanned directory.
    pub fn output_path(&self) -> (path: String)
        ensures
            path@ == (match self@.output {
                Some(output) => output,
                None => joined(self@.path, DUPLICATES_FILENAME@),
            }),
    {
        match &self.output {
            Some(output) => output.clone(),
            None => join_path(self.path.as_str(), DUPLICATES_FILENAME),
        }
    }

    /// Whether the scan can begin, given whether the directory to scan
    /// exists: a scan of nothing fails with `PathNotFound`.
    pub fn check_root(&self, exists: bool) -> (checked: Result<(), Error>)
        ensures
            match checked {
                Ok(_) => exists,
                Err(Error::PathNotFound(path)) => !exists && path@ == self@.path,
                Err(_) => false,
            },
    {
        if exists {
            Ok(())
        } else {
            Err(Error::PathNotFound(self.path.clone()))
        }
    }

    /// How deep the traversal goes: without limit if the scan is recursive,
    /// else only to the entries of the directory itself.
    pub fn max_depth(&self) -> (depth: Option<usize>)
        ensures
            depth == (if self@.recursive {
                None::<usize>
            } else {
                Some(1usize)
            }),
    {
        if self.recursive {
            None
        } else {
            Some(1)
        }
    }

    /// Whether the traversal takes in the entry named `name` at depth
    /// `depth`: the directory to scan (depth 0) always, and below it every
    /// entry that is not hidden, or every entry if hidden ones are asked
    /// for.
    pub fn enters(&self, depth: usize, name: &str) -> (taken: bool)
        ensures
            taken == (depth == 0 || self@.include_hidden || !hidden_name(name@)),
    {
        depth == 0 || self.include_hidden || !is_hidden(name)
    }

    /// Whether the scan fingerprints videos or audio files, for which it
    /// needs the help of FFmpeg.
    pub fn needs_ffmpeg(&self) -> (needed: bool)
        ensures
            needed == (self@.media_filter != MediaFilter::ImagesOnly),
    {
        match self.media_filter {
            MediaFilter::ImagesOnly => false,
            _ => true,
        }
    }

    /// Whether a manifest is written for `report`: only if the scan found
    /// a group.
    pub fn writes_manifest(&self, report: &DuplicateReport) -> (written: bool)
        ensures
            written == (report.groups@.len() > 0),
    {
        report.groups.len() > 0
    }
}

} // verus!
