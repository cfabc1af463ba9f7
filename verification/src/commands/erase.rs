//! The erase command and the transaction that stages, commits and rolls back.
//!
//! Deleting is done in two moves so that it can be undone until the very end:
//! every target is first renamed into a holding directory, and only when all of
//! them are there is the directory removed. The transaction here is the
//! bookkeeping of that procedure. It performs no operation itself: it names
//! the next one ([`StagingTransaction::pending`]) and takes its outcome
//! ([`StagingTransaction::advance`]).

use vstd::prelude::*;

use crate::commands::clean::{CleanAction, DUPLICATES_FILENAME};
use crate::error::Error;
use crate::services::manifest::{doomed, entry_views, DuplicatesFile};
use crate::services::paths::{decimal, decimal_text, join_path, joined, texts};

verus! {

/// Where a transaction stands, as seen from outside.
#[derive(Debug, Clone, Copy, PartialEq, Eq, Structural)]
pub enum Phase {
    /// No target has been touched and the holding directory is not set up yet.
    Idle,
    /// Targets are being moved into the holding directory, one by one.
    Staging,
    /// Every target is in the holding directory. A transaction passes through
    /// this phase inside the step that records the last move, on its way to
    /// `Committing`.
    Staged,
    /// The removal of the holding directory has been asked for.
    Committing,
    /// The holding directory is gone, and the targets with it.
    Committed,
    /// Staged files are being moved back.
    RollingBack,
    /// Moving back has been attempted for every staged file.
    RolledBack,
}

/// The exact place of a transaction in its procedure.
#[derive(Debug, Clone, Copy, PartialEq, Eq, Structural)]
pub enum Step {
    /// Asking whether a holding directory was left behind by an earlier run.
    LeftoverProbe,
    /// Removing the holding directory that an earlier run left behind.
    LeftoverRemoval,
    /// Creating the holding directory.
    DirCreation,
    /// Setting up the holding directory failed; nothing was touched.
    Refused,
    /// Moving the next target into the holding directory.
    Staging,
    /// Removing the holding directory with all targets in it.
    Committing,
    /// The targets are deleted.
    Committed,
    /// Asking whether the staged file under the cursor is still there.
    StagedProbe,
    /// Moving the staged file under the cursor back.
    Restoring,
    /// Asking whether the holding directory is still there after a rollback.
    CleanupProbe,
    /// Removing the holding directory after a rollback.
    Cleanup,
    /// The rollback is over.
    RolledBack,
}

/// An operation on the file system that the transaction asks for.
#[derive(Debug)]
pub enum FsRequest {
    /// Does the holding directory exist?
    ProbeHoldingDir,
    /// Remove the holding directory and everything under it.
    RemoveHoldingDir,
    /// Create the holding directory.
    CreateHoldingDir,
    /// Rename `source` to the holding directory's entry number `slot`.
    StageFile { slot: usize, source: String },
    /// Does the holding directory's entry number `slot` exist?
    ProbeStaged { slot: usize },
    /// Rename the holding directory's entry number `slot` to `destination`.
    RestoreFile { slot: usize, destination: String },
    /// Nothing: the transaction is over.
    Finished,
}

/// How an operation on the file system went.
#[derive(Debug)]
pub enum FsReply {
    /// What was probed exists.
    Present,
    /// What was probed does not exist.
    Absent,
    /// The operation succeeded.
    Done,
    /// The operation failed.
    Failed(std::io::Error),
}

/// A request without the paths: what is asked for, and for which slot.
pub enum RequestKind {
    ProbeHoldingDir,
    RemoveHoldingDir,
    CreateHoldingDir,
    StageFile(nat),
    ProbeStaged(nat),
    RestoreFile(nat),
    Finished,
}

/// A target that was moved into the holding directory.
#[derive(Debug)]
pub struct StagedFile {
    /// Where the file was, and where a rollback puts it again.
    pub original: String,
    /// The number of its entry in the holding directory.
    pub slot: usize,
}

/// The bookkeeping of one erase.
#[derive(Debug)]
pub struct StagingTransaction {
    targets: Vec<String>,
    moved: Vec<StagedFile>,
    step: Step,
    cursor: usize,
    from_staging: bool,
    restore_failed: bool,
    failure: Option<std::io::Error>,
}

/// What decides the course of a transaction: its step and its counters.
pub struct TxModel {
    pub step: Step,
    /// Number of targets.
    pub total: nat,
    /// Number of targets moved into the holding directory so far.
    pub moved: nat,
    /// Number of staged files that the rollback has dealt with.
    pub cursor: nat,
    /// Whether the rollback began while staging (and not while committing).
    pub from_staging: bool,
    /// Whether a staged file could not be put back.
    pub restore_failed: bool,
    /// The failure that ended the transaction, if one did.
    pub failure: Option<std::io::Error>,
}

/// The state in which every transaction on `total` targets begins.
pub open spec fn fresh(total: nat) -> TxModel {
    TxModel {
        step: Step::LeftoverProbe,
        total,
        moved: 0,
        cursor: 0,
        from_staging: false,
        restore_failed: false,
        failure: None,
    }
}

/// The phase that a step belongs to.
pub open spec fn phase_of(step: Step) -> Phase {
    match step {
        Step::LeftoverProbe | Step::LeftoverRemoval | Step::DirCreation | Step::Refused => Phase::Idle,
        Step::Staging => Phase::Staging,
        Step::Committing => Phase::Committing,
        Step::Committed => Phase::Committed,
        Step::StagedProbe | Step::Restoring | Step::CleanupProbe | Step::Cleanup => Phase::RollingBack,
        Step::RolledBack => Phase::RolledBack,
    }
}

/// The counters of a transaction state are within their bounds.
pub open spec fn state_counters_fit(m: TxModel) -> bool {
    &&& m.moved <= m.total
    &&& m.cursor <= m.moved
    &&& phase_of(m.step) == Phase::Idle ==> m.moved == 0
    &&& m.step == Step::Staging ==> m.moved < m.total
    &&& (m.step == Step::Committing || m.step == Step::Committed) ==> m.moved == m.total
    &&& (m.step == Step::StagedProbe || m.step == Step::Restoring) ==> m.cursor < m.moved
}

/// Whether a step is one of the three in which a transaction rests.
pub open spec fn is_final(step: Step) -> bool {
    step == Step::Refused || step == Step::Committed || step == Step::RolledBack
}

/// The operation that a transaction in state `m` waits for.
pub open spec fn request_of(m: TxModel) -> RequestKind {
    match m.step {
        Step::LeftoverProbe | Step::CleanupProbe => RequestKind::ProbeHoldingDir,
        Step::LeftoverRemoval | Step::Committing | Step::Cleanup => RequestKind::RemoveHoldingDir,
        Step::DirCreation => RequestKind::CreateHoldingDir,
        Step::Staging => RequestKind::StageFile(m.moved),
        Step::StagedProbe => RequestKind::ProbeStaged(m.cursor),
        Step::Restoring => RequestKind::RestoreFile(m.cursor),
        Step::Refused | Step::Committed | Step::RolledBack => RequestKind::Finished,
    }
}

/// The state in which a rollback goes on once `m.cursor` staged files are
/// dealt with: at the next staged file if one is left, else at the clean-up
/// of the holding directory if staging was interrupted and every staged
/// file was put back, else at its end. A holding directory that still
/// holds a file that could not be put back is left alone.
pub open spec fn resume_rollback(m: TxModel) -> TxModel {
    if m.cursor < m.moved {
        TxModel { step: Step::StagedProbe, ..m }
    } else if m.from_staging && !m.restore_failed {
        TxModel { step: Step::CleanupProbe, ..m }
    } else {
        TxModel { step: Step::RolledBack, ..m }
    }
}

/// The state in which a rollback begins after the failure `e`.
pub open spec fn start_rollback(m: TxModel, e: std::io::Error, from_staging: bool) -> TxModel {
    resume_rollback(
        TxModel { cursor: 0, from_staging, restore_failed: false, failure: Some(e), ..m },
    )
}

/// The state that follows `m` when the pending operation went as `reply`
/// says. A reply that cannot answer the pending operation changes nothing.
pub open spec fn next_state(m: TxModel, reply: FsReply) -> TxModel {
    match m.step {
        Step::LeftoverProbe => match reply {
            FsReply::Present => TxModel { step: Step::LeftoverRemoval, ..m },
            FsReply::Absent => TxModel { step: Step::DirCreation, ..m },
            _ => m,
        },
        Step::LeftoverRemoval => match reply {
            FsReply::Done => TxModel { step: Step::DirCreation, ..m },
            FsReply::Failed(e) => TxModel { step: Step::Refused, failure: Some(e), ..m },
            _ => m,
        },
        Step::DirCreation => match reply {
            FsReply::Done => if m.total == 0 {
                TxModel { step: Step::Committing, ..m }
            } else {
                TxModel { step: Step::Staging, ..m }
            },
            FsReply::Failed(e) => TxModel { step: Step::Refused, failure: Some(e), ..m },
            _ => m,
        },
        Step::Staging => match reply {
            FsReply::Done => if m.moved + 1 < m.total {
                TxModel { moved: m.moved + 1, ..m }
            } else {
                TxModel { step: Step::Committing, moved: m.moved + 1, ..m }
            },
            FsReply::Failed(e) => start_rollback(m, e, true),
            _ => m,
        },
        Step::Committing => match reply {
            FsReply::Done => TxModel { step: Step::Committed, ..m },
            FsReply::Failed(e) => start_rollback(m, e, false),
            _ => m,
        },
        Step::StagedProbe => match reply {
            FsReply::Present => TxModel { step: Step::Restoring, ..m },
            FsReply::Absent => resume_rollback(TxModel { cursor: m.cursor + 1, ..m }),
            _ => m,
        },
        Step::Restoring => match reply {
            FsReply::Done => resume_rollback(TxModel { cursor: m.cursor + 1, ..m }),
            FsReply::Failed(_) => resume_rollback(
                TxModel { cursor: m.cursor + 1, restore_failed: true, ..m },
            ),
            _ => m,
        },
        Step::CleanupProbe => match reply {
            FsReply::Present => TxModel { step: Step::Cleanup, ..m },
            FsReply::Absent => TxModel { step: Step::RolledBack, ..m },
            _ => m,
        },
        Step::Cleanup => match reply {
            FsReply::Done | FsReply::Failed(_) => TxModel { step: Step::RolledBack, ..m },
            _ => m,
        },
        Step::Refused | Step::Committed | Step::RolledBack => m,
    }
}

/// The result of a transaction in state `m`: the number of deleted files
/// after a commit, the failure after a refusal or a rollback, nothing before.
pub open spec fn outcome_of(m: TxModel) -> Option<Result<usize, Error>> {
    match m.step {
        Step::Committed => Some(Ok(m.moved as usize)),
        Step::Refused | Step::RolledBack => match m.failure {
            Some(e) => Some(Err(Error::Io(e))),
            None => None,
        },
        _ => None,
    }
}

impl FsRequest {
    /// What is asked for, without the paths.
    pub open spec fn kind(&self) -> RequestKind {
        match *self {
            FsRequest::ProbeHoldingDir => RequestKind::ProbeHoldingDir,
            FsRequest::RemoveHoldingDir => RequestKind::RemoveHoldingDir,
            FsRequest::CreateHoldingDir => RequestKind::CreateHoldingDir,
            FsRequest::StageFile { slot, source } => RequestKind::StageFile(slot as nat),
            FsRequest::ProbeStaged { slot } => RequestKind::ProbeStaged(slot as nat),
            FsRequest::RestoreFile { slot, destination } => RequestKind::RestoreFile(slot as nat),
            FsRequest::Finished => RequestKind::Finished,
        }
    }

    /// The path of the target that the request moves, if it moves one.
    pub open spec fn path(&self) -> Option<Seq<char>> {
        match *self {
            FsRequest::StageFile { slot, source } => Some(source@),
            FsRequest::RestoreFile { slot, destination } => Some(destination@),
            _ => None,
        }
    }
}

/// The path that `request_of` speaks of: that of the target under `slot` for
/// the two moves, none for the other operations.
pub open spec fn path_of(kind: RequestKind, targets: Seq<Seq<char>>) -> Option<Seq<char>> {
    match kind {
        RequestKind::StageFile(slot) => Some(targets[slot as int]),
        RequestKind::RestoreFile(slot) => Some(targets[slot as int]),
        _ => None,
    }
}

impl StagingTransaction {
    /// The step and the counters of this transaction.
    pub closed spec fn model(&self) -> TxModel {
        TxModel {
            step: self.step,
            total: self.targets@.len(),
            moved: self.moved@.len(),
            cursor: self.cursor as nat,
            from_staging: self.from_staging,
            restore_failed: self.restore_failed,
            failure: self.failure,
        }
    }

    /// The paths to delete, in the order in which they are staged.
    pub closed spec fn target_paths(&self) -> Seq<Seq<char>> {
        Seq::new(self.targets@.len(), |i: int| self.targets@[i]@)
    }

    /// What every transaction keeps true of itself: the record of staged
    /// files lists the first targets, each under the slot of its own number,
    /// and the counters stay within it.
    pub closed spec fn wf(&self) -> bool {
        &&& self.moved@.len() <= self.targets@.len()
        &&& phase_of(self.step) == Phase::Idle ==> self.moved@.len() == 0
        &&& self.cursor <= self.moved@.len()
        &&& forall|i: int|
            0 <= i < self.moved@.len() ==> (#[trigger] self.moved@[i]).slot == i
                && self.moved@[i].original@ == self.targets@[i]@
        &&& self.step == Step::Staging ==> self.moved@.len() < self.targets@.len()
        &&& (self.step == Step::StagedProbe || self.step == Step::Restoring) ==> self.cursor
            < self.moved@.len()
        &&& (self.step == Step::Committing || self.step == Step::Committed) ==> self.moved@.len()
            == self.targets@.len()
        &&& (self.step == Step::Refused || phase_of(self.step) == Phase::RollingBack || self.step
            == Step::RolledBack) ==> self.failure.is_some()
    }

    /// What every transaction keeps true of itself, as far as its course
    /// goes: the counters are within their bounds, and there are as many
    /// targets as the model counts. So a move that is pending names a
    /// target.
    pub proof fn wf_bounds(&self)
        requires
            self.wf(),
        ensures
            state_counters_fit(self.model()),
            self.model().total == self.target_paths().len(),
    {
    }

    /// A transaction that will delete `targets`, in that order.
    pub fn new(targets: Vec<String>) -> (tx: Self)
        ensures
            tx.wf(),
            tx.target_paths() == Seq::new(targets@.len(), |i: int| targets@[i]@),
            tx.model() == fresh(targets@.len()),
    {
        StagingTransaction {
            targets,
            moved: Vec::new(),
            step: Step::LeftoverProbe,
            cursor: 0,
            from_staging: false,
            restore_failed: false,
            failure: None,
        }
    }

    /// The phase that the transaction is in.
    pub fn phase(&self) -> (phase: Phase)
        ensures
            phase == phase_of(self.model().step),
    {
        match self.step {
            Step::LeftoverProbe | Step::LeftoverRemoval | Step::DirCreation | Step::Refused => Phase::Idle,
            Step::Staging => Phase::Staging,
            Step::Committing => Phase::Committing,
            Step::Committed => Phase::Committed,
            Step::StagedProbe | Step::Restoring | Step::CleanupProbe | Step::Cleanup => Phase::RollingBack,
            Step::RolledBack => Phase::RolledBack,
        }
    }
    /// The operation that the transaction waits for. It is `Finished` once
    /// the transaction rests, and only then.
    pub fn pending(&self) -> (request: FsRequest)
        requires
            self.wf(),
        ensures
            request.kind() == request_of(self.model()),
            request.path() == path_of(request_of(self.model()), self.target_paths()),
            state_counters_fit(self.model()),
            self.model().total == self.target_paths().len(),
    {
        match self.step {
            Step::LeftoverProbe | Step::CleanupProbe => FsRequest::ProbeHoldingDir,
            Step::LeftoverRemoval | Step::Committing | Step::Cleanup => FsRequest::RemoveHoldingDir,
            Step::DirCreation => FsRequest::CreateHoldingDir,
            Step::Staging => {
                let slot = self.moved.len();
                FsRequest::StageFile { slot, source: self.targets[slot].clone() }
            },
            Step::StagedProbe => FsRequest::ProbeStaged { slot: self.cursor },
            Step::Restoring => {
                let slot = self.cursor;
                FsRequest::RestoreFile { slot, destination: self.moved[slot].original.clone() }
            },
            Step::Refused | Step::Committed | Step::RolledBack => FsRequest::Finished,
        }
    }

    /// Continues the rollback after the cursor has moved.
    fn resume(&mut self)
        requires
            old(self).moved@.len() <= old(self).targets@.len(),
            old(self).cursor <= old(self).moved@.len(),
            forall|i: int|
                0 <= i < old(self).moved@.len() ==> (#[trigger] old(self).moved@[i]).slot == i
                    && old(self).moved@[i].original@ == old(self).targets@[i]@,
            old(self).failure.is_some(),
        ensures
            final(self).wf(),
            final(self).model() == resume_rollback(old(self).model()),
            final(self).target_paths() == old(self).target_paths(),
    {
        if self.cursor < self.moved.len() {
            self.step = Step::StagedProbe;
        } else if self.from_staging && !self.restore_failed {
            self.step = Step::CleanupProbe;
        } else {
            self.step = Step::RolledBack;
        }
    }

    /// Takes the outcome of the pending operation and moves on.
    ///
    /// A reply that cannot answer the pending operation (`Present` to a
    /// rename, say) is ignored, and so is any reply to a transaction at rest.
    pub fn advance(&mut self, reply: FsReply)
        requires
            old(self).wf(),
        ensures
            final(self).wf(),
            final(self).model() == next_state(old(self).model(), reply),
            final(self).target_paths() == old(self).target_paths(),
            state_counters_fit(final(self).model()),
            final(self).model().total == final(self).target_paths().len(),
    {
        match self.step {
            Step::LeftoverProbe => match reply {
                FsReply::Present => {
                    self.step = Step::LeftoverRemoval;
                },
                FsReply::Absent => {
                    self.step = Step::DirCreation;
                },
                _ => {},
            },
            Step::LeftoverRemoval => match reply {
                FsReply::Done => {
                    self.step = Step::DirCreation;
                },
                FsReply::Failed(e) => {
                    self.step = Step::Refused;
                    self.failure = Some(e);
                },
                _ => {},
            },
            Step::DirCreation => match reply {
                FsReply::Done => {
                    if self.targets.len() == 0 {
                        self.step = Step::Committing;
                    } else {
                        self.step = Step::Staging;
                    }
                },
                FsReply::Failed(e) => {
                    self.step = Step::Refused;
                    self.failure = Some(e);
                },
                _ => {},
            },
            Step::Staging => match reply {
                FsReply::Done => {
                    let slot = self.moved.len();
                    let original = self.targets[slot].clone();
                    self.moved.push(StagedFile { original, slot });
                    if self.moved.len() >= self.targets.len() {
                        self.step = Step::Committing;
                    }
                },
                FsReply::Failed(e) => {
                    self.cursor = 0;
                    self.from_staging = true;
                    self.restore_failed = false;
                    self.failure = Some(e);
                    self.resume();
                },
                _ => {},
            },
            Step::Committing => match reply {
                FsReply::Done => {
                    self.step = Step::Committed;
                },
                FsReply::Failed(e) => {
                    self.cursor = 0;
                    self.from_staging = false;
                    self.restore_failed = false;
                    self.failure = Some(e);
                    self.resume();
                },
                _ => {},
            },
            Step::StagedProbe => match reply {
                FsReply::Present => {
                    self.step = Step::Restoring;
                },
                FsReply::Absent => {
                    assert(self.cursor < self.moved.len());
                    self.cursor = self.cursor + 1;
                    self.resume();
                },
                _ => {},
            },
            Step::Restoring => match reply {
                FsReply::Done => {
                    assert(self.cursor < self.moved.len());
                    self.cursor = self.cursor + 1;
                    self.resume();
                },
                FsReply::Failed(_) => {
                    assert(self.cursor < self.moved.len());
                    self.cursor = self.cursor + 1;
                    self.restore_failed = true;
                    self.resume();
                },
                _ => {},
            },
            Step::CleanupProbe => match reply {
                FsReply::Present => {
                    self.step = Step::Cleanup;
                },
                FsReply::Absent => {
                    self.step = Step::RolledBack;
                },
                _ => {},
            },
            Step::Cleanup => match reply {
                FsReply::Done | FsReply::Failed(_) => {
                    self.step = Step::RolledBack;
                },
                _ => {},
            },
            Step::Refused | Step::Committed | Step::RolledBack => {},
        }
    }

    /// Whether the transaction rests: no operation is pending any more.
    pub fn is_finished(&self) -> (done: bool)
        ensures
            done == is_final(self.model().step),
    {
        match self.step {
            Step::Refused | Step::Committed | Step::RolledBack => true,
            _ => false,
        }
    }

    /// The exact step that the transaction is at.
    pub fn step(&self) -> (step: Step)
        ensures
            step == self.model().step,
    {
        self.step
    }

    /// Whether the rollback, if there was one, began while staging: before
    /// anything was deleted. If it began while committing, files may be
    /// gone.
    pub fn failed_while_staging(&self) -> (staging: bool)
        ensures
            staging == self.model().from_staging,
    {
        self.from_staging
    }

    /// Whether a staged file could not be put back in the rollback. Such a
    /// file is still in the holding directory, which is then left in place.
    pub fn restore_failed(&self) -> (failed: bool)
        ensures
            failed == self.model().restore_failed,
    {
        self.restore_failed
    }

    /// The number of targets that are in the holding directory, or were
    /// when the commit or the rollback began.
    pub fn staged_count(&self) -> (count: usize)
        ensures
            count == self.model().moved,
    {
        self.moved.len()
    }

    /// The record of the staged files, in the order in which they were moved.
    pub fn staged_files(&self) -> (files: &Vec<StagedFile>)
        requires
            self.wf(),
        ensures
            files@.len() == self.model().moved,
            forall|i: int|
                0 <= i < files@.len() ==> (#[trigger] files@[i]).slot == i && files@[i].original@
                    == self.target_paths()[i],
    {
        &self.moved
    }

    /// How the transaction ended: the number of files deleted, or the
    /// failure that stopped it. `None` while an operation is pending.
    pub fn into_result(self) -> (result: Option<Result<usize, Error>>)
        requires
            self.wf(),
        ensures
            result == outcome_of(self.model()),
            is_final(self.model().step) ==> result is Some,
            self.model().step == Step::Committed ==> result == Some(
                Ok::<usize, Error>(self.target_paths().len() as usize),
            ),
    {
        match self.step {
            Step::Committed => Some(Ok(self.moved.len())),
            Step::Refused | Step::RolledBack => match self.failure {
                Some(e) => Some(Err(Error::Io(e))),
                None => None,
            },
            _ => None,
        }
    }
}

/// The name of the holding directory in the directory that was scanned.
pub const STAGING_DIR_NAME: &'static str = ".mde_erase_staging";

/// Why an erase has nothing to do.
#[derive(Debug, Clone, Copy, PartialEq, Eq, Structural)]
pub enum Skip {
    /// There is no manifest.
    NoManifest,
    /// The manifest has no entries.
    NoEntries,
    /// The entries of the manifest list no file to delete.
    NoDuplicates,
    /// None of the files to delete exists any more.
    NoExistingFiles,
}

/// An erase that is ready to run.
#[derive(Debug)]
pub struct ErasePlan {
    /// The transaction that deletes the files that exist.
    pub transaction: StagingTransaction,
    /// The number of listed files that do not exist any more; they are
    /// passed over.
    pub missing: usize,
}

/// What the erase command does to the manifest, given how its transaction
/// ended.
pub open spec fn manifest_action(result: Result<usize, Error>) -> CleanAction {
    match result {
        Ok(_) => CleanAction::RemoveManifest,
        Err(_) => CleanAction::Nothing,
    }
}

/// Whether the file at position `k` was found to exist.
pub open spec fn exists_at(exists: Seq<bool>, k: int) -> bool {
    0 <= k < exists.len() && exists[k]
}

/// Of the first `n` files, those that exist, in their order.
pub open spec fn existing(files: Seq<Seq<char>>, exists: Seq<bool>, n: int) -> Seq<Seq<char>>
    decreases n,
{
    if n <= 0 {
        Seq::empty()
    } else if exists_at(exists, n - 1) {
        existing(files, exists, n - 1).push(files[n - 1])
    } else {
        existing(files, exists, n - 1)
    }
}

/// The erase command for one directory.
#[derive(Debug)]
pub struct Eraser {
    path: String,
    quiet: bool,
}

impl Eraser {
    /// The directory that the command works on.
    pub closed spec fn dir(&self) -> Seq<char> {
        self.path@
    }

    /// Whether the command keeps silent.
    pub closed spec fn is_quiet(&self) -> bool {
        self.quiet
    }

    /// The erase command for the directory `path`.
    pub fn new(path: String, quiet: bool) -> (eraser: Self)
        ensures
            eraser.dir() == path@,
            eraser.is_quiet() == quiet,
    {
        Eraser { path, quiet }
    }

    /// Whether the command keeps silent.
    pub fn quiet(&self) -> (quiet: bool)
        ensures
            quiet == self.is_quiet(),
    {
        self.quiet
    }

    /// The path of the manifest.
    pub fn duplicates_file_path(&self) -> (path: String)
        ensures
            path@ == joined(self.dir(), DUPLICATES_FILENAME@),
    {
        join_path(self.path.as_str(), DUPLICATES_FILENAME)
    }

    /// The path of the holding directory.
    pub fn staging_dir(&self) -> (path: String)
        ensures
            path@ == joined(self.dir(), STAGING_DIR_NAME@),
    {
        join_path(self.path.as_str(), STAGING_DIR_NAME)
    }

    /// The path of the holding directory's entry number `slot`: the entry
    /// is named by the number in decimal.
    pub fn staged_path(&self, slot: usize) -> (path: String)
        ensures
            path@ == joined(joined(self.dir(), STAGING_DIR_NAME@), decimal(slot as nat)),
    {
        let dir = self.staging_dir();
        let name = decimal_text(slot);
        join_path(dir.as_str(), name.as_str())
    }

    /// The files that the manifest asks to delete, or the reason why there
    /// is nothing to do: no manifest, no entries in it, or no file to
    /// delete in its entries.
    pub fn listed_files(&self, manifest: Option<&DuplicatesFile>) -> (listed: Result<
        Vec<String>,
        Skip,
    >)
        ensures
            match manifest {
                None => listed == Err::<Vec<String>, Skip>(Skip::NoManifest),
                Some(file) => {
                    let entries = entry_views(file.entries@);
                    let files = doomed(entries, entries.len() as int);
                    if entries.len() == 0 {
                        listed == Err::<Vec<String>, Skip>(Skip::NoEntries)
                    } else if files.len() == 0 {
                        listed == Err::<Vec<String>, Skip>(Skip::NoDuplicates)
                    } else {
                        listed is Ok && texts(listed.unwrap()@) == files
                    }
                },
            },
    {
        match manifest {
            None => Err(Skip::NoManifest),
            Some(file) => {
                if file.entries.len() == 0 {
                    return Err(Skip::NoEntries);
                }
                let files = file.files_to_delete();
                if files.len() == 0 {
                    Err(Skip::NoDuplicates)
                } else {
                    Ok(files)
                }
            },
        }
    }

    /// What the command does to the manifest once its transaction has come
    /// to rest: it removes the manifest after a commit, and leaves it in
    /// place after a failure, so that the erase can be tried again.
    pub fn conclude(&self, result: &Result<usize, Error>) -> (action: CleanAction)
        ensures
            action == manifest_action(*result),
    {
        match result {
            Ok(_) => CleanAction::RemoveManifest,
            Err(_) => CleanAction::Nothing,
        }
    }

    /// The erase of `files`, of which `exists` says which are still there:
    /// a transaction on those that are, in their order, and the number of
    /// those that are not. A file for which `exists` has no entry counts as
    /// not there. If none is there, there is nothing to do.
    pub fn prepare(&self, files: &Vec<String>, exists: &Vec<bool>) -> (plan: Result<ErasePlan, Skip>)
        ensures
            match plan {
                Ok(plan) => {
                    &&& plan.transaction.wf()
                    &&& plan.transaction.target_paths() == existing(
                        texts(files@),
                        exists@,
                        files@.len() as int,
                    )
                    &&& plan.transaction.target_paths().len() > 0
                    &&& plan.transaction.model() == fresh(plan.transaction.target_paths().len())
                    &&& plan.missing == files@.len() - plan.transaction.target_paths().len()
                },
                Err(skip) => skip == Skip::NoExistingFiles && existing(
                    texts(files@),
                    exists@,
                    files@.len() as int,
                ).len() == 0,
            },
    {
        let mut targets: Vec<String> = Vec::new();
        let mut k: usize = 0;
        assert(texts(targets@) =~= existing(texts(files@), exists@, 0));
        while k < files.len()
            invariant
                k <= files@.len(),
                targets@.len() <= k,
                texts(targets@) == existing(texts(files@), exists@, k as int),
            decreases files@.len() - k,
        {
            if k < exists.len() && exists[k] {
                let ghost before = texts(targets@);
                let path = files[k].clone();
                targets.push(path);
                assert(texts(targets@) =~= before.push(files@[k as int]@));
            }
            k = k + 1;
        }
        if targets.len() == 0 {
            Err(Skip::NoExistingFiles)
        } else {
            let missing = files.len() - targets.len();
            let ghost paths = texts(targets@);
            let transaction = StagingTransaction::new(targets);
            assert(transaction.target_paths() =~= paths);
            Ok(ErasePlan { transaction, missing })
        }
    }
}

} // verus!
