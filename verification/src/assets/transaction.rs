//! Changing an asset under a journal, so that an interrupted change is undone.
//!
//! A snapshot of the project is taken and the journal names it before anything
//! is changed. The steps are decided here; the caller carries each one out and
//! reports what came of it.
use vstd::prelude::*;

use crate::agents::router;
use crate::json_store;
use crate::text;

verus! {

broadcast use vstd::string::group_string_axioms;

pub const TRANSACTION_VERSION: u32 = 1;

/// Where the journal stands, below the project's root.
pub const JOURNAL_PATH: &'static str = ".ollaic/assets/file-mutation.json";

/// The record of a change under way.
#[derive(Debug, PartialEq, Eq)]
pub struct AssetMutationJournal {
    pub version: u32,
    pub rollback_snapshot: String,
}

/// What a failed recovery adds to a message.
pub open spec fn suffix_of(recovery: Option<Seq<char>>) -> Seq<char> {
    match recovery {
        None => ""@,
        Some(e) => "; rollback failed: "@ + e,
    }
}

pub fn recovery_suffix(result: &Result<(), String>) -> (r: String)
    ensures
        r@ == suffix_of(json_store::fault(*result)),
{
    match result {
        Ok(_) => text::copy(""),
        Err(e) => router::joined("; rollback failed: ", e.as_str()),
    }
}

// ---------------------------------------------------------------------------
// Recovery
// ---------------------------------------------------------------------------

/// How far a recovery has come.
#[derive(Debug, PartialEq, Eq)]
pub enum RecoveryPhase {
    /// The journal is to be read.
    Reading,
    /// The snapshot is to be restored.
    Restoring(String),
    /// The journal is to be removed.
    Clearing(String),
    /// The snapshot is to be deleted; whether that goes well does not matter.
    Deleting(String),
    /// It is over.
    Done(Result<(), String>),
}

pub enum RecoveryView {
    Reading,
    Restoring(Seq<char>),
    Clearing(Seq<char>),
    Deleting(Seq<char>),
    Done(Option<Seq<char>>),
}

impl View for RecoveryPhase {
    type V = RecoveryView;

    open spec fn view(&self) -> RecoveryView {
        match *self {
            RecoveryPhase::Reading => RecoveryView::Reading,
            RecoveryPhase::Restoring(id) => RecoveryView::Restoring(id@),
            RecoveryPhase::Clearing(id) => RecoveryView::Clearing(id@),
            RecoveryPhase::Deleting(id) => RecoveryView::Deleting(id@),
            RecoveryPhase::Done(r) => RecoveryView::Done(json_store::fault(r)),
        }
    }
}

/// What came of a step of a recovery.
#[derive(Debug, PartialEq, Eq)]
pub enum RecoveryEvent {
    /// The journal, if there is one, or why it could not be read.
    Journal(Result<Option<AssetMutationJournal>, String>),
    Finished(Result<(), String>),
}

pub enum RecoveryEventView {
    NoJournal,
    Journal(u32, Seq<char>),
    Unreadable(Seq<char>),
    Finished(Option<Seq<char>>),
}

impl View for RecoveryEvent {
    type V = RecoveryEventView;

    open spec fn view(&self) -> RecoveryEventView {
        match *self {
            RecoveryEvent::Journal(Ok(None)) => RecoveryEventView::NoJournal,
            RecoveryEvent::Journal(Ok(Some(j))) => RecoveryEventView::Journal(
                j.version,
                j.rollback_snapshot@,
            ),
            RecoveryEvent::Journal(Err(m)) => RecoveryEventView::Unreadable(m@),
            RecoveryEvent::Finished(r) => RecoveryEventView::Finished(json_store::fault(r)),
        }
    }
}

/// The phase after an event. An event that answers no open question changes
/// nothing.
pub open spec fn next_recovery(phase: RecoveryView, event: RecoveryEventView) -> RecoveryView {
    match (phase, event) {
        (RecoveryView::Reading, RecoveryEventView::NoJournal) => RecoveryView::Done(None),
        (RecoveryView::Reading, RecoveryEventView::Unreadable(m)) => RecoveryView::Done(Some(m)),
        (RecoveryView::Reading, RecoveryEventView::Journal(version, id)) => if version
            == TRANSACTION_VERSION {
            RecoveryView::Restoring(id)
        } else {
            RecoveryView::Done(
                Some(
                    "unsupported asset mutation transaction version "@ + text::decimal(
                        version as nat,
                    ),
                ),
            )
        },
        (RecoveryView::Restoring(id), RecoveryEventView::Finished(failure)) => match failure {
            None => RecoveryView::Clearing(id),
            Some(e) => RecoveryView::Done(
                Some("failed to restore asset mutation snapshot: "@ + e),
            ),
        },
        (RecoveryView::Clearing(id), RecoveryEventView::Finished(failure)) => match failure {
            None => RecoveryView::Deleting(id),
            Some(e) => RecoveryView::Done(Some(e)),
        },
        (RecoveryView::Deleting(_), RecoveryEventView::Finished(_)) => RecoveryView::Done(None),
        _ => phase,
    }
}

/// Takes a recovery one step further.
pub fn recover_pending(phase: RecoveryPhase, event: RecoveryEvent) -> (r: RecoveryPhase)
    ensures
        r@ == next_recovery(phase@, event@),
{
    match (phase, event) {
        (RecoveryPhase::Reading, RecoveryEvent::Journal(Ok(None))) => RecoveryPhase::Done(Ok(())),
        (RecoveryPhase::Reading, RecoveryEvent::Journal(Err(m))) => RecoveryPhase::Done(Err(m)),
        (RecoveryPhase::Reading, RecoveryEvent::Journal(Ok(Some(journal)))) => {
            if journal.version == TRANSACTION_VERSION {
                RecoveryPhase::Restoring(journal.rollback_snapshot)
            } else {
                let number = text::decimal_of(journal.version as u128);
                RecoveryPhase::Done(
                    Err(
                        router::joined(
                            "unsupported asset mutation transaction version ",
                            number.as_str(),
                        ),
                    ),
                )
            }
        },
        (RecoveryPhase::Restoring(id), RecoveryEvent::Finished(result)) => match result {
            Ok(_) => RecoveryPhase::Clearing(id),
            Err(e) => RecoveryPhase::Done(
                Err(router::joined("failed to restore asset mutation snapshot: ", e.as_str())),
            ),
        },
        (RecoveryPhase::Clearing(id), RecoveryEvent::Finished(result)) => match result {
            Ok(_) => RecoveryPhase::Deleting(id),
            Err(e) => RecoveryPhase::Done(Err(e)),
        },
        (RecoveryPhase::Deleting(_), RecoveryEvent::Finished(_)) => RecoveryPhase::Done(Ok(())),
        (phase, _) => phase,
    }
}

// ---------------------------------------------------------------------------
// A change
// ---------------------------------------------------------------------------

/// How far a change has come.
#[derive(Debug, PartialEq, Eq)]
pub enum MutationPhase {
    /// A snapshot of the project is to be taken.
    Snapshotting,
    /// The journal that names the snapshot is to be written.
    Journalling(String),
    /// The snapshot is to be deleted, as the journal could not be written.
    Discarding(String, String),
    /// The change itself is to be made.
    Operating(String),
    /// The journal is to be removed.
    Clearing(String),
    /// The snapshot is to be deleted; whether that goes well does not matter.
    Deleting(String),
    /// The change is to be recovered from.
    Recovering(String),
    /// It is over.
    Done(Result<(), String>),
}

pub enum MutationView {
    Snapshotting,
    Journalling(Seq<char>),
    Discarding(Seq<char>, Seq<char>),
    Operating(Seq<char>),
    Clearing(Seq<char>),
    Deleting(Seq<char>),
    Recovering(Seq<char>),
    Done(Option<Seq<char>>),
}

impl View for MutationPhase {
    type V = MutationView;

    open spec fn view(&self) -> MutationView {
        match *self {
            MutationPhase::Snapshotting => MutationView::Snapshotting,
            MutationPhase::Journalling(id) => MutationView::Journalling(id@),
            MutationPhase::Discarding(id, m) => MutationView::Discarding(id@, m@),
            MutationPhase::Operating(id) => MutationView::Operating(id@),
            MutationPhase::Clearing(id) => MutationView::Clearing(id@),
            MutationPhase::Deleting(id) => MutationView::Deleting(id@),
            MutationPhase::Recovering(m) => MutationView::Recovering(m@),
            MutationPhase::Done(r) => MutationView::Done(json_store::fault(r)),
        }
    }
}

/// What came of a step of a change.
#[derive(Debug, PartialEq, Eq)]
pub enum MutationEvent {
    /// The id of the snapshot, or why there is none.
    Snapshot(Result<String, String>),
    Finished(Result<(), String>),
}

pub enum MutationEventView {
    Snapshot(Seq<char>),
    NoSnapshot(Seq<char>),
    Finished(Option<Seq<char>>),
}

impl View for MutationEvent {
    type V = MutationEventView;

    open spec fn view(&self) -> MutationEventView {
        match *self {
            MutationEvent::Snapshot(Ok(id)) => MutationEventView::Snapshot(id@),
            MutationEvent::Snapshot(Err(m)) => MutationEventView::NoSnapshot(m@),
            MutationEvent::Finished(r) => MutationEventView::Finished(json_store::fault(r)),
        }
    }
}

/// The phase after an event. An event that answers no open question changes
/// nothing.
pub open spec fn next_mutation(phase: MutationView, event: MutationEventView) -> MutationView {
    match (phase, event) {
        (MutationView::Snapshotting, MutationEventView::Snapshot(id)) => MutationView::Journalling(
            id,
        ),
        (MutationView::Snapshotting, MutationEventView::NoSnapshot(m)) => MutationView::Done(
            Some(m),
        ),
        (MutationView::Journalling(id), MutationEventView::Finished(failure)) => match failure {
            None => MutationView::Operating(id),
            Some(m) => MutationView::Discarding(id, m),
        },
        (MutationView::Discarding(_, m), MutationEventView::Finished(_)) => MutationView::Done(
            Some(m),
        ),
        (MutationView::Operating(id), MutationEventView::Finished(failure)) => match failure {
            None => MutationView::Clearing(id),
            Some(m) => MutationView::Recovering(m),
        },
        (MutationView::Clearing(id), MutationEventView::Finished(failure)) => match failure {
            None => MutationView::Deleting(id),
            Some(m) => MutationView::Recovering(m),
        },
        (MutationView::Deleting(_), MutationEventView::Finished(_)) => MutationView::Done(None),
        (MutationView::Recovering(m), MutationEventView::Finished(recovery)) => MutationView::Done(
            Some(m + suffix_of(recovery)),
        ),
        _ => phase,
    }
}

/// Takes a change one step further. In `Recovering`, the event reports what came
/// of a whole recovery.
pub fn run_locked(phase: MutationPhase, event: MutationEvent) -> (r: MutationPhase)
    ensures
        r@ == next_mutation(phase@, event@),
{
    match (phase, event) {
        (MutationPhase::Snapshotting, MutationEvent::Snapshot(Ok(id))) => MutationPhase::Journalling(
            id,
        ),
        (MutationPhase::Snapshotting, MutationEvent::Snapshot(Err(m))) => MutationPhase::Done(
            Err(m),
        ),
        (MutationPhase::Journalling(id), MutationEvent::Finished(result)) => match result {
            Ok(_) => MutationPhase::Operating(id),
            Err(m) => MutationPhase::Discarding(id, m),
        },
        (MutationPhase::Discarding(_, m), MutationEvent::Finished(_)) => MutationPhase::Done(Err(m)),
        (MutationPhase::Operating(id), MutationEvent::Finished(result)) => match result {
            Ok(_) => MutationPhase::Clearing(id),
            Err(m) => MutationPhase::Recovering(m),
        },
        (MutationPhase::Clearing(id), MutationEvent::Finished(result)) => match result {
            Ok(_) => MutationPhase::Deleting(id),
            Err(m) => MutationPhase::Recovering(m),
        },
        (MutationPhase::Deleting(_), MutationEvent::Finished(_)) => MutationPhase::Done(Ok(())),
        (MutationPhase::Recovering(m), MutationEvent::Finished(recovery)) => {
            let suffix = recovery_suffix(&recovery);
            MutationPhase::Done(Err(router::joined(m.as_str(), suffix.as_str())))
        },
        (phase, _) => phase,
    }
}

// ---------------------------------------------------------------------------
// What an interrupted change leaves
// ---------------------------------------------------------------------------

/// A project on disk: its contents, its journal, and its snapshots.
pub struct Project {
    pub contents: Seq<u8>,
    pub journal: Option<(u32, Seq<char>)>,
    pub snapshots: Map<Seq<char>, Seq<u8>>,
}

/// Whether only this snapshot may differ.
pub open spec fn but_for(
    before: Map<Seq<char>, Seq<u8>>,
    after: Map<Seq<char>, Seq<u8>>,
    id: Seq<char>,
) -> bool {
    before.remove(id) == after.remove(id)
}

/// What a whole recovery may make of a project. One that ends without a fault has
/// restored the snapshot that the journal names and removed the journal; one that
/// ends with a fault may have left any contents, but has the journal and the
/// snapshots still.
pub open spec fn recovers(before: Project, failure: Option<Seq<char>>, after: Project) -> bool {
    match failure {
        None => match before.journal {
            None => after == before,
            Some((version, id)) => version == TRANSACTION_VERSION && after.journal is None
                && after.contents == before.snapshots[id] && but_for(
                before.snapshots,
                after.snapshots,
                id,
            ),
        },
        Some(_) => after.journal == before.journal && after.snapshots == before.snapshots,
    }
}

/// What a step of a change may make of a project. The change itself may leave any
/// contents, whether it goes well or not. The journal may stand although its write
/// failed, as the file is replaced before its directory is synced. A snapshot whose
/// deletion failed may be there, in part or not at all.
pub open spec fn change_leaves(
    before: Project,
    phase: MutationView,
    event: MutationEventView,
    after: Project,
) -> bool {
    match (phase, event) {
        (MutationView::Snapshotting, MutationEventView::Snapshot(id)) => after == (Project {
            snapshots: before.snapshots.insert(id, before.contents),
            ..before
        }),
        (MutationView::Snapshotting, MutationEventView::NoSnapshot(_)) => after.contents
            == before.contents && after.journal == before.journal,
        (MutationView::Journalling(id), MutationEventView::Finished(failure)) => {
            &&& after.contents == before.contents
            &&& after.snapshots == before.snapshots
            &&& after.journal == Some((TRANSACTION_VERSION, id)) || (failure is Some
                && after.journal == before.journal)
        },
        (MutationView::Discarding(id, _), MutationEventView::Finished(_)) => after.contents
            == before.contents && after.journal == before.journal && but_for(
            before.snapshots,
            after.snapshots,
            id,
        ),
        (MutationView::Operating(_), MutationEventView::Finished(_)) => after.journal
            == before.journal && after.snapshots == before.snapshots,
        (MutationView::Clearing(_), MutationEventView::Finished(failure)) => if failure is None {
            after == (Project { journal: None, ..before })
        } else {
            after == before
        },
        (MutationView::Deleting(id), MutationEventView::Finished(_)) => after.contents
            == before.contents && after.journal == before.journal && but_for(
            before.snapshots,
            after.snapshots,
            id,
        ),
        (MutationView::Recovering(_), MutationEventView::Finished(failure)) => recovers(
            before,
            failure,
            after,
        ),
        _ => after == before,
    }
}

/// Whether the project can be brought back to what it was: without a journal it is
/// that still, and a journal names a snapshot of it.
pub open spec fn recoverable(project: Project, original: Seq<u8>) -> bool {
    match project.journal {
        None => project.contents == original,
        Some((version, id)) => version == TRANSACTION_VERSION && project.snapshots.dom().contains(id)
            && project.snapshots[id] == original,
    }
}

/// What holds of the project in each phase of a change.
pub open spec fn project_fits(project: Project, phase: MutationView, original: Seq<u8>) -> bool {
    match phase {
        MutationView::Snapshotting => project.journal is None && project.contents == original,
        MutationView::Journalling(id) => project.journal is None && project.contents == original
            && project.snapshots.dom().contains(id) && project.snapshots[id] == original,
        MutationView::Discarding(_, _) => project.contents == original,
        MutationView::Operating(id) => project.journal == Some((TRANSACTION_VERSION, id))
            && recoverable(project, original) && project.contents == original,
        MutationView::Clearing(id) => project.journal == Some((TRANSACTION_VERSION, id))
            && recoverable(project, original),
        MutationView::Deleting(_) => project.journal is None,
        MutationView::Recovering(_) => project.journal is Some && recoverable(project, original),
        MutationView::Done(None) => project.journal is None,
        MutationView::Done(Some(_)) => project.contents == original || recoverable(
            project,
            original,
        ),
    }
}

/// A change keeps the project recoverable until it is complete: at every step up to
/// the removal of the journal, whatever the step may leave, the project is what it
/// was or the journal names a snapshot of what it was. A change that was recovered
/// from without a fault has left no trace. Where the write of the journal failed, the
/// project is what it was, but a journal may stand whose snapshot is deleted.
pub proof fn changes_stay_recoverable(
    before: Project,
    phase: MutationView,
    event: MutationEventView,
    after: Project,
    original: Seq<u8>,
)
    requires
        project_fits(before, phase, original),
        change_leaves(before, phase, event, after),
    ensures
        project_fits(after, next_mutation(phase, event), original),
        phase is Recovering && event == MutationEventView::Finished(None) ==> after.journal is None
            && after.contents == original,
{
}

/// What a reader of the journal may find.
pub open spec fn reads(project: Project, event: RecoveryEventView) -> bool {
    match event {
        RecoveryEventView::NoJournal => project.journal is None,
        RecoveryEventView::Journal(version, id) => project.journal == Some((version, id)),
        RecoveryEventView::Unreadable(_) => true,
        RecoveryEventView::Finished(_) => false,
    }
}

/// What a step of a recovery may make of a project. A restore that failed may have
/// left any contents, and a snapshot whose deletion failed may be there, in part or
/// not at all.
pub open spec fn recovery_leaves(
    before: Project,
    phase: RecoveryView,
    event: RecoveryEventView,
    after: Project,
) -> bool {
    match (phase, event) {
        (RecoveryView::Reading, _) => reads(before, event) && after == before,
        (RecoveryView::Restoring(id), RecoveryEventView::Finished(failure)) => {
            &&& after.journal == before.journal
            &&& after.snapshots == before.snapshots
            &&& failure is None ==> after.contents == before.snapshots[id]
        },
        (RecoveryView::Clearing(_), RecoveryEventView::Finished(failure)) => if failure is None {
            after == (Project { journal: None, ..before })
        } else {
            after == before
        },
        (RecoveryView::Deleting(id), RecoveryEventView::Finished(_)) => after.contents
            == before.contents && after.journal == before.journal && but_for(
            before.snapshots,
            after.snapshots,
            id,
        ),
        _ => after == before,
    }
}

/// What a project goes through in a recovery: its states, and the phases and events
/// between them.
pub open spec fn recovery_course(
    projects: Seq<Project>,
    phases: Seq<RecoveryView>,
    events: Seq<RecoveryEventView>,
) -> bool {
    &&& projects.len() == phases.len() == events.len() + 1
    &&& phases[0] == RecoveryView::Reading
    &&& forall|k: int|
        #![trigger events[k]]
        0 <= k < events.len() ==> recovery_leaves(
            projects[k],
            phases[k],
            events[k],
            projects[k + 1],
        ) && phases[k + 1] == next_recovery(phases[k], events[k])
}

/// What holds of the project in each phase of a recovery that began with `start`.
spec fn recovery_stands(start: Project, phase: RecoveryView, project: Project) -> bool {
    match phase {
        RecoveryView::Reading => project == start,
        RecoveryView::Restoring(id) => start.journal == Some((TRANSACTION_VERSION, id)) && project
            == start,
        RecoveryView::Clearing(id) => start.journal == Some((TRANSACTION_VERSION, id))
            && project.journal == start.journal && project.snapshots == start.snapshots
            && project.contents == start.snapshots[id],
        RecoveryView::Deleting(id) => start.journal == Some((TRANSACTION_VERSION, id))
            && project.journal is None && project.snapshots == start.snapshots && project.contents
            == start.snapshots[id],
        RecoveryView::Done(failure) => recovers(start, failure, project),
    }
}

/// A course of steps is a recovery: what it has made of the project when it is over
/// is what a whole recovery may make of it.
pub proof fn recoveries_are_whole(
    projects: Seq<Project>,
    phases: Seq<RecoveryView>,
    events: Seq<RecoveryEventView>,
    n: int,
)
    requires
        0 <= n < projects.len(),
        recovery_course(projects, phases, events),
    ensures
        phases[n] matches RecoveryView::Done(failure) ==> recovers(
            projects[0],
            failure,
            projects[n],
        ),
{
    lemma_recovery_stands(projects, phases, events, n);
}

proof fn lemma_recovery_stands(
    projects: Seq<Project>,
    phases: Seq<RecoveryView>,
    events: Seq<RecoveryEventView>,
    n: int,
)
    requires
        0 <= n < projects.len(),
        recovery_course(projects, phases, events),
    ensures
        recovery_stands(projects[0], phases[n], projects[n]),
    decreases n,
{
    if n > 0 {
        lemma_recovery_stands(projects, phases, events, n - 1);
        assert(recovery_leaves(projects[n - 1], phases[n - 1], events[n - 1], projects[n]));
    }
}

/// What holds of the project in each phase of a recovery.
pub open spec fn recovery_fits(project: Project, phase: RecoveryView, original: Seq<u8>) -> bool {
    match phase {
        RecoveryView::Reading => recoverable(project, original),
        RecoveryView::Restoring(id) => project.journal == Some((TRANSACTION_VERSION, id))
            && recoverable(project, original),
        RecoveryView::Clearing(id) => project.journal == Some((TRANSACTION_VERSION, id))
            && recoverable(project, original) && project.contents == original,
        RecoveryView::Deleting(_) => project.journal is None && project.contents == original,
        RecoveryView::Done(None) => project.journal is None && project.contents == original,
        RecoveryView::Done(Some(_)) => recoverable(project, original),
    }
}

/// Recoveries undo an interrupted change, however often they are cut short or fail
/// and are begun again: the project stays recoverable whatever a failed restore has
/// left of its contents, and a recovery that ends without a fault has brought back
/// what the project was, and has removed the journal. In the course, a step without
/// an event is one at which a recovery is begun anew.
pub proof fn recovery_undoes_interrupted_changes(
    projects: Seq<Project>,
    phases: Seq<RecoveryView>,
    events: Seq<Option<RecoveryEventView>>,
    original: Seq<u8>,
    n: int,
)
    requires
        0 <= n < projects.len(),
        projects.len() == phases.len() == events.len() + 1,
        phases[0] == RecoveryView::Reading,
        recoverable(projects[0], original),
        forall|k: int|
            #![trigger events[k]]
            0 <= k < events.len() ==> match events[k] {
                None => projects[k + 1] == projects[k] && phases[k + 1] == RecoveryView::Reading,
                Some(event) => recovery_leaves(projects[k], phases[k], event, projects[k + 1])
                    && phases[k + 1] == next_recovery(phases[k], event),
            },
    ensures
        recovery_fits(projects[n], phases[n], original),
    decreases n,
{
    if n > 0 {
        recovery_undoes_interrupted_changes(projects, phases, events, original, n - 1);
        let event = events[n - 1];
        if event is Some {
            assert(recovery_leaves(projects[n - 1], phases[n - 1], event->0, projects[n]));
        }
    }
}

/// A failure whose rollback failed too says so behind its own message; one that was rolled back adds
/// nothing.
pub proof fn failed_rollbacks_are_told(e: Seq<char>)
    ensures
        suffix_of(None) == Seq::<char>::empty(),
        suffix_of(Some(e)) == "; rollback failed: "@ + e,
{
    reveal_strlit("");
    assert(""@ =~= Seq::<char>::empty());
}

/// A recovery without a journal is done; with one of the version that is written, the snapshot is
/// restored before the journal goes and the snapshot last. A journal that cannot be read or is of
/// another version ends it, and so does a step that fails, but for the snapshot's own removal.
pub proof fn recoveries_restore_before_they_clear(version: u32, id: Seq<char>, m: Seq<char>)
    ensures
        next_recovery(RecoveryView::Reading, RecoveryEventView::NoJournal) == RecoveryView::Done(
            None,
        ),
        next_recovery(RecoveryView::Reading, RecoveryEventView::Unreadable(m))
            == RecoveryView::Done(Some(m)),
        next_recovery(RecoveryView::Reading, RecoveryEventView::Journal(1, id))
            == RecoveryView::Restoring(id),
        version != 1 ==> next_recovery(
            RecoveryView::Reading,
            RecoveryEventView::Journal(version, id),
        ) == RecoveryView::Done(
            Some(
                "unsupported asset mutation transaction version "@ + text::decimal(version as nat),
            ),
        ),
        next_recovery(RecoveryView::Restoring(id), RecoveryEventView::Finished(None))
            == RecoveryView::Clearing(id),
        next_recovery(RecoveryView::Restoring(id), RecoveryEventView::Finished(Some(m)))
            == RecoveryView::Done(Some("failed to restore asset mutation snapshot: "@ + m)),
        next_recovery(RecoveryView::Clearing(id), RecoveryEventView::Finished(None))
            == RecoveryView::Deleting(id),
        next_recovery(RecoveryView::Clearing(id), RecoveryEventView::Finished(Some(m)))
            == RecoveryView::Done(Some(m)),
        next_recovery(RecoveryView::Deleting(id), RecoveryEventView::Finished(None))
            == RecoveryView::Done(None),
        next_recovery(RecoveryView::Deleting(id), RecoveryEventView::Finished(Some(m)))
            == RecoveryView::Done(None),
        JOURNAL_PATH@ == ".ollaic/assets/file-mutation.json"@,
{
}

/// A change takes a snapshot, writes the journal, operates, clears the journal and deletes the
/// snapshot. Without a snapshot nothing is done; where the journal cannot be written the snapshot is
/// discarded; and where the operation or the clearing fails, the change is recovered and fails with
/// that message and with what the recovery adds.
pub proof fn changes_are_journalled_before_they_are_made(
    id: Seq<char>,
    m: Seq<char>,
    left: Option<Seq<char>>,
)
    ensures
        next_mutation(MutationView::Snapshotting, MutationEventView::Snapshot(id))
            == MutationView::Journalling(id),
        next_mutation(MutationView::Snapshotting, MutationEventView::NoSnapshot(m))
            == MutationView::Done(Some(m)),
        next_mutation(MutationView::Journalling(id), MutationEventView::Finished(None))
            == MutationView::Operating(id),
        next_mutation(MutationView::Journalling(id), MutationEventView::Finished(Some(m)))
            == MutationView::Discarding(id, m),
        next_mutation(MutationView::Discarding(id, m), MutationEventView::Finished(left))
            == MutationView::Done(Some(m)),
        next_mutation(MutationView::Operating(id), MutationEventView::Finished(None))
            == MutationView::Clearing(id),
        next_mutation(MutationView::Operating(id), MutationEventView::Finished(Some(m)))
            == MutationView::Recovering(m),
        next_mutation(MutationView::Clearing(id), MutationEventView::Finished(None))
            == MutationView::Deleting(id),
        next_mutation(MutationView::Clearing(id), MutationEventView::Finished(Some(m)))
            == MutationView::Recovering(m),
        next_mutation(MutationView::Deleting(id), MutationEventView::Finished(left))
            == MutationView::Done(None),
        left is None ==> next_mutation(
            MutationView::Recovering(m),
            MutationEventView::Finished(left),
        ) == MutationView::Done(Some(m)),
        left is Some ==> next_mutation(
            MutationView::Recovering(m),
            MutationEventView::Finished(left),
        ) == MutationView::Done(Some(m + ("; rollback failed: "@ + left->0))),
{
    failed_rollbacks_are_told(m);
    assert(m + Seq::<char>::empty() =~= m);
}

} // verus!
