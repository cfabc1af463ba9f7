//! The clean command: removing the manifest of an earlier scan.

use vstd::prelude::*;

use crate::services::paths::{join_path, joined};

verus! {

/// The name of the manifest in the directory that was scanned.
pub const DUPLICATES_FILENAME: &'static str = "duplicates.json";

/// The clean command for one directory.
#[derive(Debug)]
pub struct Cleaner {
    path: String,
    quiet: bool,
}

/// What a clean does to the file system.
#[derive(Debug, Clone, Copy, PartialEq, Eq, Structural)]
pub enum CleanAction {
    /// Remove the manifest.
    RemoveManifest,
    /// Nothing: there is no manifest.
    Nothing,
}

/// What a clean does when the manifest is there, and when it is not.
pub open spec fn clean_action(manifest_present: bool) -> CleanAction {
    if manifest_present {
        CleanAction::RemoveManifest
    } else {
        CleanAction::Nothing
    }
}

/// Whether the manifest is there after `action` was carried out
/// successfully.
pub open spec fn present_after(manifest_present: bool, action: CleanAction) -> bool {
    match action {
        CleanAction::RemoveManifest => false,
        CleanAction::Nothing => manifest_present,
    }
}

/// Clean is idempotent: after a clean that went through, be it with or
/// without a manifest to remove, a second clean does nothing, so that
/// nothing can fail in it, and leaves the directory as the first left it.
pub proof fn second_clean_does_nothing(manifest_present: bool)
    ensures
        clean_action(present_after(manifest_present, clean_action(manifest_present)))
            == CleanAction::Nothing,
        present_after(
            present_after(manifest_present, clean_action(manifest_present)),
            CleanAction::Nothing,
        ) == present_after(manifest_present, clean_action(manifest_present)),
        !present_after(manifest_present, clean_action(manifest_present)),
{
}

impl Cleaner {
    /// The directory that the command works on.
    pub closed spec fn dir(&self) -> Seq<char> {
        self.path@
    }

    /// Whether the command keeps silent.
    pub closed spec fn is_quiet(&self) -> bool {
        self.quiet
    }

    /// The clean command for the directory `path`.
    pub fn new(path: String, quiet: bool) -> (cleaner: Self)
        ensures
            cleaner.dir() == path@,
            cleaner.is_quiet() == quiet,
    {
        Cleaner { path, quiet }
    }

    /// Whether the command keeps silent.
    pub fn quiet(&self) -> (quiet: bool)
        ensures
            quiet == self.is_quiet(),
    {
        self.quiet
    }

    /// The path of the manifest.
    pub fn duplicates_file_path(&self) -> (path: String)
        ensures
            path@ == joined(self.dir(), DUPLICATES_FILENAME@),
    {
        join_path(self.path.as_str(), DUPLICATES_FILENAME)
    }

    /// What to do, given whether the manifest exists: remove it if it does,
    /// nothing if it does not.
    pub fn action(&self, manifest_present: bool) -> (action: CleanAction)
        ensures
            action == clean_action(manifest_present),
    {
        if manifest_present {
            CleanAction::RemoveManifest
        } else {
            CleanAction::Nothing
        }
    }
}

} // verus!
