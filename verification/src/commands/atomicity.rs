//! What the erase transaction guarantees, stated against a model of the disk.
//!
//! The transaction only ever sees replies. Here the replies are tied to a
//! small model of what they report on: where each target is, and whether the
//! holding directory exists. Against that model the laws below show that
//! nothing is lost before the commit, that an interrupted staging puts every
//! file back, that a committed erase leaves nothing behind, and that every
//! transaction comes to rest.

use vstd::prelude::*;

use crate::error::Error;
use crate::commands::clean::{present_after, CleanAction};
use crate::commands::erase::{
    fresh, is_final, manifest_action, next_state, outcome_of, state_counters_fit, phase_of, request_of, FsReply, Phase, RequestKind, Step, TxModel,
};

verus! {

/// Where a target is.
pub enum Place {
    /// At the path it had when the transaction began.
    Original,
    /// In the holding directory.
    Holding,
    /// Nowhere: deleted.
    Gone,
}

/// The part of the file system that a transaction works on.
pub struct Disk {
    /// The place of each target, in the order of the transaction's targets.
    pub places: Seq<Place>,
    /// Whether the holding directory exists.
    pub holding_dir: bool,
}

/// Whether carrying out `request` on `before` can give `reply` and leave
/// `after`.
///
/// Probes answer truthfully and change nothing. A rename either succeeds and
/// moves the one file, or fails and changes nothing. Removing the holding
/// directory deletes every file in it when it succeeds; when it fails, any
/// of them may be deleted already, and the directory may or may not be left.
pub open spec fn carries_out(before: Disk, request: RequestKind, reply: FsReply, after: Disk) -> bool {
    match request {
        RequestKind::ProbeHoldingDir => {
            &&& after == before
            &&& if before.holding_dir {
                reply is Present
            } else {
                reply is Absent
            }
        },
        RequestKind::CreateHoldingDir => match reply {
            FsReply::Done => after == (Disk { holding_dir: true, ..before }),
            FsReply::Failed(_) => after == before,
            _ => false,
        },
        RequestKind::RemoveHoldingDir => match reply {
            FsReply::Done => {
                &&& !after.holding_dir
                &&& after.places.len() == before.places.len()
                &&& forall|i: int|
                    0 <= i < before.places.len() ==> #[trigger] after.places[i] == (if before.places[i] is Holding {
                        Place::Gone
                    } else {
                        before.places[i]
                    })
            },
            FsReply::Failed(_) => {
                &&& after.places.len() == before.places.len()
                &&& forall|i: int|
                    0 <= i < before.places.len() ==> #[trigger] after.places[i] == before.places[i]
                        || (before.places[i] is Holding && after.places[i] is Gone)
            },
            _ => false,
        },
        RequestKind::StageFile(slot) => match reply {
            FsReply::Done => {
                &&& slot < before.places.len()
                &&& before.holding_dir
                &&& before.places[slot as int] is Original
                &&& after == (Disk { places: before.places.update(slot as int, Place::Holding), ..before })
            },
            FsReply::Failed(_) => after == before,
            _ => false,
        },
        RequestKind::ProbeStaged(slot) => {
            &&& after == before
            &&& slot < before.places.len()
            &&& if before.places[slot as int] is Holding {
                reply is Present
            } else {
                reply is Absent
            }
        },
        RequestKind::RestoreFile(slot) => match reply {
            FsReply::Done => {
                &&& slot < before.places.len()
                &&& before.places[slot as int] is Holding
                &&& after == (Disk { places: before.places.update(slot as int, Place::Original), ..before })
            },
            FsReply::Failed(_) => after == before,
            _ => false,
        },
        RequestKind::Finished => after == before,
    }
}

/// Every target is where it was when the transaction began.
pub open spec fn untouched(disk: Disk) -> bool {
    forall|i: int| 0 <= i < disk.places.len() ==> #[trigger] disk.places[i] is Original
}

/// No target is lost: each is at its original path or in the holding
/// directory.
pub open spec fn nothing_lost(disk: Disk) -> bool {
    forall|i: int| 0 <= i < disk.places.len() ==> !(#[trigger] disk.places[i] is Gone)
}

/// The state of a transaction after it was given `replies`, one after the
/// other, beginning in state `m`.
pub open spec fn state_after(m: TxModel, replies: Seq<FsReply>) -> TxModel
    decreases replies.len(),
{
    if replies.len() == 0 {
        m
    } else {
        next_state(state_after(m, replies.drop_last()), replies.last())
    }
}

/// The disk at the beginning of a history, and after each of its
/// operations.
pub open spec fn disk_after(start: Disk, disks: Seq<Disk>) -> Disk {
    if disks.len() == 0 {
        start
    } else {
        disks.last()
    }
}

/// Whether `replies` and `disks` are a possible history of a transaction
/// that begins in state `m` on the disk `start`: each reply is an outcome of
/// the operation that was pending, and it leaves the disk that `disks`
/// lists for it.
pub open spec fn is_history(m: TxModel, start: Disk, replies: Seq<FsReply>, disks: Seq<Disk>) -> bool
    decreases replies.len(),
{
    &&& replies.len() == disks.len()
    &&& replies.len() > 0 ==> {
        &&& is_history(m, start, replies.drop_last(), disks.drop_last())
        &&& carries_out(
            disk_after(start, disks.drop_last()),
            request_of(state_after(m, replies.drop_last())),
            replies.last(),
            disks.last(),
        )
    }
}

/// Whether `reply` reports that putting a file back, or removing the holding
/// directory after a rollback, failed.
pub open spec fn undo_failed(m: TxModel, reply: FsReply) -> bool {
    (m.step == Step::Restoring || m.step == Step::Cleanup) && reply is Failed
}

/// Whether undoing failed somewhere in the history.
pub open spec fn undo_failed_in(m: TxModel, replies: Seq<FsReply>) -> bool
    decreases replies.len(),
{
    replies.len() > 0 && (undo_failed_in(m, replies.drop_last()) || undo_failed(
        state_after(m, replies.drop_last()),
        replies.last(),
    ))
}

/// How a transaction in state `m` and the disk fit together as long as
/// undoing never fails: staging has moved exactly the first `m.moved`
/// targets, and a rollback has put back exactly the first `m.cursor` of them.
pub open spec fn in_step(m: TxModel, disk: Disk) -> bool {
    &&& disk.places.len() == m.total
    &&& m.moved <= m.total
    &&& m.cursor <= m.moved
    &&& !m.restore_failed
    &&& match m.step {
        Step::LeftoverProbe | Step::LeftoverRemoval | Step::DirCreation | Step::Refused => {
            &&& untouched(disk)
            &&& m.moved == 0
        },
        Step::Staging => {
            &&& m.moved < m.total
            &&& disk.holding_dir
            &&& forall|i: int|
                0 <= i < m.total ==> #[trigger] disk.places[i] == (if i < m.moved {
                    Place::Holding
                } else {
                    Place::Original
                })
        },
        Step::Committing => {
            &&& m.moved == m.total
            &&& disk.holding_dir
            &&& forall|i: int| 0 <= i < m.total ==> #[trigger] disk.places[i] is Holding
        },
        Step::Committed => {
            &&& !disk.holding_dir
            &&& forall|i: int| 0 <= i < m.total ==> #[trigger] disk.places[i] is Gone
        },
        Step::StagedProbe | Step::Restoring => {
            &&& m.cursor < m.moved
            &&& m.from_staging ==> {
                &&& disk.holding_dir
                &&& forall|i: int|
                    0 <= i < m.total ==> #[trigger] disk.places[i] == (if m.cursor <= i < m.moved {
                        Place::Holding
                    } else {
                        Place::Original
                    })
            }
        },
        Step::CleanupProbe | Step::Cleanup => {
            &&& m.from_staging
            &&& untouched(disk)
            &&& m.step == Step::Cleanup ==> disk.holding_dir
        },
        Step::RolledBack => m.from_staging ==> untouched(disk) && !disk.holding_dir,
    }
}

/// A new transaction fits a disk on which every target is in its place.
pub proof fn fresh_transaction_fits(total: nat, disk: Disk)
    requires
        disk.places.len() == total,
        untouched(disk),
    ensures
        in_step(fresh(total), disk),
{
}

/// One operation keeps transaction and disk fitted, whatever its outcome,
/// unless the outcome is that undoing failed.
pub proof fn operation_keeps_fit(m: TxModel, before: Disk, reply: FsReply, after: Disk)
    requires
        in_step(m, before),
        carries_out(before, request_of(m), reply, after),
        !undo_failed(m, reply),
    ensures
        in_step(next_state(m, reply), after),
{
    let n = next_state(m, reply);
    match m.step {
        Step::Staging => {
            match reply {
                FsReply::Done => {
                    assert forall|i: int| 0 <= i < m.total implies #[trigger] after.places[i] == (if i
                        < m.moved + 1 {
                        Place::Holding
                    } else {
                        Place::Original
                    }) by {
                        assert(before.places[i] == (if i < m.moved {
                            Place::Holding
                        } else {
                            Place::Original
                        }));
                    }
                },
                FsReply::Failed(e) => {
                    assert forall|i: int| 0 <= i < m.total implies #[trigger] after.places[i] == (if 0
                        <= i < m.moved {
                        Place::Holding
                    } else {
                        Place::Original
                    }) by {
                        assert(before.places[i] == (if i < m.moved {
                            Place::Holding
                        } else {
                            Place::Original
                        }));
                    }
                    if m.moved == 0 {
                        assert forall|i: int| 0 <= i < after.places.len() implies #[trigger] after.places[i] is Original by {
                            assert(before.places[i] == (if i < m.moved {
                                Place::Holding
                            } else {
                                Place::Original
                            }));
                        }
                    }
                },
                _ => {},
            }
        },
        Step::StagedProbe => {
            if m.from_staging {
                assert(before.places[m.cursor as int] is Holding);
            }
        },
        Step::Restoring => {
            if m.from_staging {
                match reply {
                    FsReply::Done => {
                        assert forall|i: int| 0 <= i < m.total implies #[trigger] after.places[i] == (if m.cursor
                            + 1 <= i < m.moved {
                            Place::Holding
                        } else {
                            Place::Original
                        }) by {
                            assert(before.places[i] == (if m.cursor <= i < m.moved {
                                Place::Holding
                            } else {
                                Place::Original
                            }));
                        }
                        if m.cursor + 1 == m.moved {
                            assert forall|i: int| 0 <= i < after.places.len() implies #[trigger] after.places[i] is Original by {
                                assert(after.places[i] == (if m.cursor + 1 <= i < m.moved {
                                    Place::Holding
                                } else {
                                    Place::Original
                                }));
                            }
                        }
                    },
                    _ => {},
                }
            }
        },
        Step::Committing => {
            match reply {
                FsReply::Done => {
                    assert forall|i: int| 0 <= i < m.total implies #[trigger] after.places[i] is Gone by {
                        assert(before.places[i] is Holding);
                    }
                },
                _ => {},
            }
        },
        Step::LeftoverRemoval | Step::Cleanup => {
            assert forall|i: int| 0 <= i < after.places.len() implies #[trigger] after.places[i] is Original by {
                assert(before.places[i] is Original);
            }
        },
        _ => {},
    }
}

/// Atomicity of an interrupted staging: when the transaction has rolled back
/// after a move into the holding directory failed, every target is at its
/// original path and the holding directory is gone. The same holds when the
/// holding directory could not be set up in the first place.
pub proof fn interrupted_staging_leaves_everything(m: TxModel, disk: Disk)
    requires
        in_step(m, disk),
        m.step == Step::Refused || (m.step == Step::RolledBack && m.from_staging),
    ensures
        untouched(disk),
        m.step == Step::RolledBack ==> !disk.holding_dir,
{
}

/// Along every history in which undoing never fails, transaction and disk
/// stay fitted.
pub proof fn history_keeps_fit(total: nat, start: Disk, replies: Seq<FsReply>, disks: Seq<Disk>)
    requires
        start.places.len() == total,
        untouched(start),
        is_history(fresh(total), start, replies, disks),
        !undo_failed_in(fresh(total), replies),
    ensures
        in_step(state_after(fresh(total), replies), disk_after(start, disks)),
    decreases replies.len(),
{
    if replies.len() == 0 {
        fresh_transaction_fits(total, start);
    } else {
        history_keeps_fit(total, start, replies.drop_last(), disks.drop_last());
        operation_keeps_fit(
            state_after(fresh(total), replies.drop_last()),
            disk_after(start, disks.drop_last()),
            replies.last(),
            disks.last(),
        );
    }
}

/// Transaction atomicity. Take any transaction on targets that are all in
/// place, and any history of it: whichever operation fails, as long as
/// putting files back and cleaning up do not. If the history ends rolled
/// back after a move into the holding directory failed, or refused because
/// the holding directory could not be set up, then every target is at its
/// original path, and after the rollback the holding directory is gone.
pub proof fn failed_staging_changes_nothing(
    total: nat,
    start: Disk,
    replies: Seq<FsReply>,
    disks: Seq<Disk>,
)
    requires
        start.places.len() == total,
        untouched(start),
        is_history(fresh(total), start, replies, disks),
        !undo_failed_in(fresh(total), replies),
        state_after(fresh(total), replies).step == Step::Refused || (state_after(
            fresh(total),
            replies,
        ).step == Step::RolledBack && state_after(fresh(total), replies).from_staging),
    ensures
        untouched(disk_after(start, disks)),
        state_after(fresh(total), replies).step == Step::RolledBack ==> !disk_after(
            start,
            disks,
        ).holding_dir,
{
    history_keeps_fit(total, start, replies, disks);
    interrupted_staging_leaves_everything(
        state_after(fresh(total), replies),
        disk_after(start, disks),
    );
}

/// The steps of the rollback that follows a failed commit. What the failed
/// removal of the holding directory has deleted by then is lost.
pub open spec fn after_failed_commit(m: TxModel) -> bool {
    !m.from_staging && (m.step == Step::StagedProbe || m.step == Step::Restoring || m.step
        == Step::RolledBack)
}

/// The steps at which the commit has not been carried out, in whole or in
/// part: all but `Committed` and the rollback that follows a failed commit.
pub open spec fn before_commit(m: TxModel) -> bool {
    m.step != Step::Committed && !after_failed_commit(m)
}

/// The steps of the rollback of an interrupted staging, its end included.
pub open spec fn undoing_staging(m: TxModel) -> bool {
    m.from_staging && (m.step == Step::StagedProbe || m.step == Step::Restoring || m.step
        == Step::CleanupProbe || m.step == Step::Cleanup || m.step == Step::RolledBack)
}

/// How transaction and disk fit together when any operation may fail: as
/// long as the commit has not been carried out, no target is lost, the
/// targets that staging has not reached are untouched, and the holding
/// directory is cleaned up only when every staged file is back in its
/// place.
pub open spec fn safe(m: TxModel, disk: Disk) -> bool {
    &&& disk.places.len() == m.total
    &&& state_counters_fit(m)
    &&& before_commit(m) ==> {
        &&& nothing_lost(disk)
        &&& forall|i: int| m.moved <= i < m.total ==> #[trigger] disk.places[i] is Original
        &&& undoing_staging(m) && !m.restore_failed ==> forall|i: int|
            0 <= i < m.cursor ==> #[trigger] disk.places[i] is Original
        &&& (m.step == Step::CleanupProbe || m.step == Step::Cleanup) ==> m.from_staging
            && !m.restore_failed && m.cursor == m.moved
        &&& m.step == Step::RolledBack && !m.restore_failed ==> untouched(disk)
        &&& (m.step == Step::Staging || m.step == Step::Committing) ==> forall|i: int|
            0 <= i < m.moved ==> #[trigger] disk.places[i] is Holding
    }
    &&& m.step == Step::Committed ==> !disk.holding_dir && forall|i: int|
        0 <= i < m.total ==> #[trigger] disk.places[i] is Gone
}

/// Nothing is lost before the commit: one operation keeps `safe`, whatever
/// its outcome.
pub proof fn operation_keeps_safe(m: TxModel, before: Disk, reply: FsReply, after: Disk)
    requires
        safe(m, before),
        carries_out(before, request_of(m), reply, after),
    ensures
        safe(next_state(m, reply), after),
{
    let n = next_state(m, reply);
    counters_stay_fitted(m, reply);
    if before_commit(n) {
        assert(before_commit(m));
        if m.step == Step::Cleanup || m.step == Step::CleanupProbe {
            assert forall|i: int| 0 <= i < before.places.len() implies #[trigger] before.places[i] is Original by {
                if i < m.cursor {
                    assert(before.places[i] is Original);
                } else {
                    assert(before.places[i] is Original);
                }
            }
        }
        assert forall|i: int| 0 <= i < after.places.len() implies !(#[trigger] after.places[i] is Gone) by {
            assert(!(before.places[i] is Gone));
            if phase_of(m.step) == Phase::Idle || m.step == Step::Cleanup {
                assert(before.places[i] is Original);
            }
        }
        assert forall|i: int| n.moved <= i < n.total implies #[trigger] after.places[i] is Original by {
            assert(before.places[i] is Original);
        }
        if undoing_staging(n) && !n.restore_failed {
            assert forall|i: int| 0 <= i < n.cursor implies #[trigger] after.places[i] is Original by {
                if i < m.cursor && undoing_staging(m) {
                    assert(before.places[i] is Original);
                } else if undoing_staging(m) {
                    assert(!(before.places[i] is Gone));
                }
            }
        }
        if n.step == Step::RolledBack && !n.restore_failed {
            assert forall|i: int| 0 <= i < after.places.len() implies #[trigger] after.places[i] is Original by {
                assert(!(before.places[i] is Gone));
                if i < m.moved {
                    if i < n.cursor {
                        assert(after.places[i] is Original);
                    }
                } else {
                    assert(before.places[i] is Original);
                }
            }
        }
    }
}

/// Nothing is lost before the commit. Take any transaction on targets that
/// are all in place, and any history of it, whatever fails in it. As long
/// as the commit has not been carried out, every target is at its original
/// path or in the holding directory: while staging, while the commit is
/// pending, and all through the rollback of an interrupted staging and
/// after it.
pub proof fn nothing_is_lost_before_commit(
    total: nat,
    start: Disk,
    replies: Seq<FsReply>,
    disks: Seq<Disk>,
)
    requires
        start.places.len() == total,
        untouched(start),
        is_history(fresh(total), start, replies, disks),
    ensures
        safe(state_after(fresh(total), replies), disk_after(start, disks)),
        before_commit(state_after(fresh(total), replies)) ==> nothing_lost(
            disk_after(start, disks),
        ),
    decreases replies.len(),
{
    if replies.len() > 0 {
        nothing_is_lost_before_commit(total, start, replies.drop_last(), disks.drop_last());
        operation_keeps_safe(
            state_after(fresh(total), replies.drop_last()),
            disk_after(start, disks.drop_last()),
            replies.last(),
            disks.last(),
        );
    }
}

/// An operation keeps the counters within their bounds.
pub proof fn counters_stay_fitted(m: TxModel, reply: FsReply)
    requires
        state_counters_fit(m),
    ensures
        state_counters_fit(next_state(m, reply)),
{
}

/// An upper bound on the number of operations that a transaction in state
/// `m` still asks for.
pub open spec fn operations_left(m: TxModel) -> nat {
    match m.step {
        Step::LeftoverProbe => 3 * m.total + 7,
        Step::LeftoverRemoval => 3 * m.total + 6,
        Step::DirCreation => 3 * m.total + 5,
        Step::Staging => (3 * m.total + 3 - m.moved) as nat,
        Step::Committing => 2 * m.total + 3,
        Step::StagedProbe => (2 * (m.moved - m.cursor) + 2) as nat,
        Step::Restoring => (2 * (m.moved - m.cursor) + 1) as nat,
        Step::CleanupProbe => 2,
        Step::Cleanup => 1,
        Step::Refused | Step::Committed | Step::RolledBack => 0,
    }
}

/// Whether `reply` is an answer to the operation that `m` waits for: present
/// or absent to a probe, done or failed to anything else.
pub open spec fn answers(m: TxModel, reply: FsReply) -> bool {
    match request_of(m) {
        RequestKind::ProbeHoldingDir | RequestKind::ProbeStaged(_) => reply is Present || reply is Absent,
        RequestKind::Finished => false,
        _ => reply is Done || reply is Failed,
    }
}

/// Each answer brings a transaction strictly closer to rest.
pub proof fn every_answer_brings_rest_closer(m: TxModel, reply: FsReply)
    requires
        state_counters_fit(m),
        answers(m, reply),
    ensures
        operations_left(next_state(m, reply)) < operations_left(m),
        is_final(next_state(m, reply).step) <==> operations_left(next_state(m, reply)) == 0,
{
}

/// Every transaction comes to rest: after `3 * total + 7` answers at the
/// latest, whatever they are, no operation is pending.
pub proof fn transaction_comes_to_rest(total: nat, replies: Seq<FsReply>)
    requires
        forall|k: int|
            0 <= k < replies.len() ==> !is_final(
                #[trigger] state_after(fresh(total), replies.take(k)).step,
            ) ==> answers(state_after(fresh(total), replies.take(k)), replies[k]),
    ensures
        state_counters_fit(state_after(fresh(total), replies)),
        operations_left(state_after(fresh(total), replies)) + replies.len() <= 3 * total + 7
            || is_final(state_after(fresh(total), replies).step),
        replies.len() >= 3 * total + 7 ==> is_final(state_after(fresh(total), replies).step),
    decreases replies.len(),
{
    if replies.len() > 0 {
        let head = replies.drop_last();
        assert forall|k: int| 0 <= k < head.len() && !is_final(
            #[trigger] state_after(fresh(total), head.take(k)).step,
        ) implies answers(state_after(fresh(total), head.take(k)), head[k]) by {
            assert(head.take(k) =~= replies.take(k));
        }
        transaction_comes_to_rest(total, head);
        let before = state_after(fresh(total), head);
        assert(replies.take(head.len() as int) =~= head);
        if !is_final(before.step) {
            every_answer_brings_rest_closer(before, replies.last());
            counters_stay_fitted(before, replies.last());
        }
    }
}

/// A rollback that put every file back leaves every target in its place.
/// Take any transaction on targets that are all in place, and any history
/// of it, whatever fails in it, the clean-up included. If it ends rolled
/// back after an interrupted staging and no file failed to be put back,
/// every target is at its original path.
pub proof fn complete_rollback_restores_everything(
    total: nat,
    start: Disk,
    replies: Seq<FsReply>,
    disks: Seq<Disk>,
)
    requires
        start.places.len() == total,
        untouched(start),
        is_history(fresh(total), start, replies, disks),
        state_after(fresh(total), replies).step == Step::RolledBack,
        state_after(fresh(total), replies).from_staging,
        !state_after(fresh(total), replies).restore_failed,
    ensures
        untouched(disk_after(start, disks)),
{
    nothing_is_lost_before_commit(total, start, replies, disks);
}

/// A transaction keeps the number of its targets.
pub proof fn targets_stay(total: nat, replies: Seq<FsReply>)
    ensures
        state_after(fresh(total), replies).total == total,
    decreases replies.len(),
{
    if replies.len() > 0 {
        targets_stay(total, replies.drop_last());
    }
}

/// What a successful erase leaves behind. Take any transaction on targets
/// that are all in place, and any history of it that ends committed. Then
/// every target is deleted and the holding directory is gone; the
/// transaction answers with the number of its targets; and the command
/// that ran it removes the manifest, which is gone once that is done.
pub proof fn committed_erase_leaves_nothing_behind(
    total: nat,
    start: Disk,
    replies: Seq<FsReply>,
    disks: Seq<Disk>,
    manifest_present: bool,
)
    requires
        total <= usize::MAX,
        start.places.len() == total,
        untouched(start),
        is_history(fresh(total), start, replies, disks),
        state_after(fresh(total), replies).step == Step::Committed,
    ensures
        !disk_after(start, disks).holding_dir,
        forall|i: int| 0 <= i < total ==> #[trigger] disk_after(start, disks).places[i] is Gone,
        outcome_of(state_after(fresh(total), replies)) == Some(Ok::<usize, Error>(total as usize)),
        manifest_action(outcome_of(state_after(fresh(total), replies)).unwrap())
            == CleanAction::RemoveManifest,
        !present_after(
            manifest_present,
            manifest_action(outcome_of(state_after(fresh(total), replies)).unwrap()),
        ),
{
    nothing_is_lost_before_commit(total, start, replies, disks);
    targets_stay(total, replies);
}

} // verus!
