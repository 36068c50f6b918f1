//! Writing a file so that a crash leaves either its old or its new contents.
//!
//! The order of the steps is decided here; the caller carries each one out and
//! reports what came of it.
use vstd::prelude::*;

use crate::agents::router;
use crate::text;

verus! {

broadcast use vstd::string::group_string_axioms;

/// Where an earlier writer may have left a copy of a file.
pub fn backup_path(path: &str) -> (r: String)
    ensures
        r@ == path@ + ".bak"@,
{
    router::joined(path, ".bak")
}

/// Where the new contents are written before they take the file's place.
pub fn temporary_path(path: &str) -> (r: String)
    ensures
        r@ == path@ + ".tmp"@,
{
    router::joined(path, ".tmp")
}

/// The texts that a reader may find: the file's, read after a missing file was
/// restored from its backup, and then the backup's, where one is left.
pub open spec fn candidates_of(
    primary: Option<Seq<char>>,
    backup: Option<Seq<char>>,
) -> Seq<Seq<char>> {
    match (primary, backup) {
        (None, None) => Seq::empty(),
        (Some(p), None) => seq![p],
        (None, Some(b)) => seq![b],
        (Some(p), Some(b)) => seq![p, b],
    }
}

/// The text of an optional text.
pub open spec fn opt(s: Option<String>) -> Option<Seq<char>> {
    match s {
        None => None,
        Some(t) => Some(t@),
    }
}

pub fn read_candidates(primary: Option<String>, backup: Option<String>) -> (r: Vec<String>)
    ensures
        text::texts(r@) == candidates_of(opt(primary), opt(backup)),
{
    let mut out: Vec<String> = Vec::new();
    match primary {
        Some(p) => out.push(p),
        None => {},
    }
    match backup {
        Some(b) => out.push(b),
        None => {},
    }
    assert(text::texts(out@) =~= candidates_of(opt(primary), opt(backup)));
    out
}

/// How far a write, or the recovery before a read, has come.
#[derive(Debug, PartialEq, Eq)]
pub enum StorePhase {
    /// Which of the file and its backup are there is to be found out.
    Looking,
    /// The backup is to be renamed to the file.
    Restoring,
    /// The directory is to be made durable after that.
    SyncingRestored,
    /// The contents are to be written to the temporary file, and made durable.
    WritingTemporary,
    /// The temporary file is to take the file's place.
    Replacing,
    /// The directory is to be made durable after that.
    Syncing,
    /// Whether a backup is left is to be found out.
    LookingForBackup,
    /// The backup is to be removed.
    RemovingBackup,
    /// The directory is to be made durable after that.
    SyncingRemoved,
    /// It is over.
    Done(Result<(), String>),
}

pub enum StoreView {
    Looking,
    Restoring,
    SyncingRestored,
    WritingTemporary,
    Replacing,
    Syncing,
    LookingForBackup,
    RemovingBackup,
    SyncingRemoved,
    Done(Option<Seq<char>>),
}

impl View for StorePhase {
    type V = StoreView;

    open spec fn view(&self) -> StoreView {
        match *self {
            StorePhase::Looking => StoreView::Looking,
            StorePhase::Restoring => StoreView::Restoring,
            StorePhase::SyncingRestored => StoreView::SyncingRestored,
            StorePhase::WritingTemporary => StoreView::WritingTemporary,
            StorePhase::Replacing => StoreView::Replacing,
            StorePhase::Syncing => StoreView::Syncing,
            StorePhase::LookingForBackup => StoreView::LookingForBackup,
            StorePhase::RemovingBackup => StoreView::RemovingBackup,
            StorePhase::SyncingRemoved => StoreView::SyncingRemoved,
            StorePhase::Done(r) => StoreView::Done(fault(r)),
        }
    }
}

/// The message of a step that failed, if it failed.
pub open spec fn fault(r: Result<(), String>) -> Option<Seq<char>> {
    match r {
        Ok(_) => None,
        Err(m) => Some(m@),
    }
}

/// What the caller reports: what came of the step, and whether the file and its
/// backup are there after it.
#[derive(Debug, PartialEq, Eq)]
pub struct StoreEvent {
    pub result: Result<(), String>,
    pub primary: bool,
    pub backup: bool,
}

/// The phase that follows, for a writer; a reader is done once the file is
/// restored.
pub open spec fn next_store(
    writing: bool,
    phase: StoreView,
    failure: Option<Seq<char>>,
    primary: bool,
    backup: bool,
) -> StoreView {
    let restored = if writing {
        StoreView::WritingTemporary
    } else {
        StoreView::Done(None)
    };
    match phase {
        StoreView::Looking => if primary || !backup {
            restored
        } else {
            StoreView::Restoring
        },
        StoreView::Restoring => match failure {
            None => StoreView::SyncingRestored,
            Some(m) => if primary {
                restored
            } else {
                StoreView::Done(Some(m))
            },
        },
        StoreView::SyncingRestored => match failure {
            None => restored,
            Some(m) => StoreView::Done(Some(m)),
        },
        StoreView::WritingTemporary => match failure {
            None => StoreView::Replacing,
            Some(m) => StoreView::Done(Some(m)),
        },
        StoreView::Replacing => match failure {
            None => StoreView::Syncing,
            Some(m) => StoreView::Done(Some(m)),
        },
        StoreView::Syncing => match failure {
            None => StoreView::LookingForBackup,
            Some(m) => StoreView::Done(Some(m)),
        },
        StoreView::LookingForBackup => if backup {
            StoreView::RemovingBackup
        } else {
            StoreView::Done(None)
        },
        StoreView::RemovingBackup => match failure {
            None => StoreView::SyncingRemoved,
            Some(m) => StoreView::Done(Some(m)),
        },
        StoreView::SyncingRemoved => StoreView::Done(failure),
        StoreView::Done(r) => StoreView::Done(r),
    }
}

fn restored_phase(writing: bool) -> (r: StorePhase)
    ensures
        r@ == (if writing {
            StoreView::WritingTemporary
        } else {
            StoreView::Done(None)
        }),
{
    if writing {
        StorePhase::WritingTemporary
    } else {
        StorePhase::Done(Ok(()))
    }
}

fn after(next: StorePhase, result: Result<(), String>) -> (r: StorePhase)
    ensures
        r@ == (match fault(result) {
            None => next@,
            Some(m) => StoreView::Done(Some(m)),
        }),
{
    match result {
        Ok(_) => next,
        Err(m) => StorePhase::Done(Err(m)),
    }
}

fn advance(writing: bool, phase: StorePhase, event: StoreEvent) -> (r: StorePhase)
    ensures
        r@ == next_store(writing, phase@, fault(event.result), event.primary, event.backup),
{
    match phase {
        StorePhase::Looking => if event.primary || !event.backup {
            restored_phase(writing)
        } else {
            StorePhase::Restoring
        },
        StorePhase::Restoring => match event.result {
            Ok(_) => StorePhase::SyncingRestored,
            Err(m) => if event.primary {
                restored_phase(writing)
            } else {
                StorePhase::Done(Err(m))
            },
        },
        StorePhase::SyncingRestored => after(restored_phase(writing), event.result),
        StorePhase::WritingTemporary => after(StorePhase::Replacing, event.result),
        StorePhase::Replacing => after(StorePhase::Syncing, event.result),
        StorePhase::Syncing => after(StorePhase::LookingForBackup, event.result),
        StorePhase::LookingForBackup => if event.backup {
            StorePhase::RemovingBackup
        } else {
            StorePhase::Done(Ok(()))
        },
        StorePhase::RemovingBackup => after(StorePhase::SyncingRemoved, event.result),
        StorePhase::SyncingRemoved => StorePhase::Done(event.result),
        StorePhase::Done(r) => StorePhase::Done(r),
    }
}

/// Takes a write one step further.
pub fn write_crash_safe(phase: StorePhase, event: StoreEvent) -> (r: StorePhase)
    ensures
        r@ == next_store(true, phase@, fault(event.result), event.primary, event.backup),
{
    advance(true, phase, event)
}

/// Takes the recovery before a read one step further; once it is done without a
/// fault, the file is read.
pub fn read_to_string_recovering(phase: StorePhase, event: StoreEvent) -> (r: StorePhase)
    ensures
        r@ == next_store(false, phase@, fault(event.result), event.primary, event.backup),
{
    advance(false, phase, event)
}

// ---------------------------------------------------------------------------
// Crash safety
// ---------------------------------------------------------------------------

/// The three files, as far as they are there.
pub struct Files {
    pub primary: Option<Seq<u8>>,
    pub backup: Option<Seq<u8>>,
    pub temporary: Option<Seq<u8>>,
}

/// What a reader who recovers first finds.
pub open spec fn readable(files: Files) -> Option<Seq<u8>> {
    match files.primary {
        Some(bytes) => Some(bytes),
        None => files.backup,
    }
}

/// The files after a step. Renaming and removing are atomic: they happen or they
/// do not. Writing the temporary file may leave anything in it where it fails or
/// is cut short.
pub open spec fn files_after(
    files: Files,
    phase: StoreView,
    contents: Seq<u8>,
    failed: bool,
    torn: Option<Seq<u8>>,
) -> Files {
    match phase {
        StoreView::Restoring => if failed {
            files
        } else {
            Files { primary: files.backup, backup: None, ..files }
        },
        StoreView::WritingTemporary => if failed {
            Files { temporary: torn, ..files }
        } else {
            Files { temporary: Some(contents), ..files }
        },
        StoreView::Replacing => if failed {
            files
        } else {
            Files { primary: files.temporary, temporary: None, ..files }
        },
        StoreView::RemovingBackup => if failed {
            files
        } else {
            Files { backup: None, ..files }
        },
        _ => files,
    }
}

/// One step of a write: whether it failed and with which message, and what a
/// torn write has left.
pub struct StoreStep {
    pub failure: Option<Seq<char>>,
    pub torn: Option<Seq<u8>>,
}

/// The phase and the files after a number of steps.
pub open spec fn store_course(original: Files, contents: Seq<u8>, steps: Seq<StoreStep>) -> (
    StoreView,
    Files,
)
    decreases steps.len(),
{
    if steps.len() == 0 {
        (StoreView::Looking, original)
    } else {
        let (phase, files) = store_course(original, contents, steps.drop_last());
        let step = steps.last();
        let then_files = files_after(files, phase, contents, step.failure is Some, step.torn);
        (
            next_store(
                true,
                phase,
                step.failure,
                then_files.primary is Some,
                then_files.backup is Some,
            ),
            then_files,
        )
    }
}

/// What holds of the files in each phase of a write.
pub open spec fn files_fit(
    original: Files,
    contents: Seq<u8>,
    phase: StoreView,
    files: Files,
) -> bool {
    match phase {
        StoreView::Looking => files == original,
        StoreView::Restoring => files.primary is None && readable(files) == readable(original),
        StoreView::SyncingRestored => files.primary is Some && readable(files) == readable(
            original,
        ),
        StoreView::WritingTemporary => (files.primary is Some || files.backup is None) && readable(
            files,
        ) == readable(original),
        StoreView::Replacing => (files.primary is Some || files.backup is None) && readable(files)
            == readable(original) && files.temporary == Some(contents),
        StoreView::Syncing => files.primary == Some(contents),
        StoreView::LookingForBackup => files.primary == Some(contents),
        StoreView::RemovingBackup => files.primary == Some(contents),
        StoreView::SyncingRemoved => files.primary == Some(contents),
        StoreView::Done(None) => files.primary == Some(contents) && files.backup is None,
        StoreView::Done(Some(_)) => readable(files) == readable(original) || files.primary == Some(
            contents,
        ),
    }
}

/// At whatever point a write is cut short, a reader finds either all of what it
/// found before or all of the new contents; a write that reports success has
/// put the new contents in place and left no backup.
pub proof fn writes_are_old_or_new(original: Files, contents: Seq<u8>, steps: Seq<StoreStep>)
    ensures
        ({
            let (phase, files) = store_course(original, contents, steps);
            &&& files_fit(original, contents, phase, files)
            &&& readable(files) == readable(original) || readable(files) == Some(contents)
            &&& phase == StoreView::Done(None) ==> readable(files) == Some(contents)
        }),
    decreases steps.len(),
{
    if steps.len() > 0 {
        writes_are_old_or_new(original, contents, steps.drop_last());
    }
}

/// A file that could be read before can be read at every point of a write.
pub proof fn writes_never_lose_the_file(original: Files, contents: Seq<u8>, steps: Seq<StoreStep>)
    requires
        readable(original) is Some,
    ensures
        readable(store_course(original, contents, steps).1) is Some,
{
    writes_are_old_or_new(original, contents, steps);
}

/// The file itself is tried before its backup, and each only where it is there.
pub proof fn files_are_tried_before_their_backup(primary: Seq<char>, backup: Seq<char>)
    ensures
        candidates_of(Some(primary), Some(backup)) == seq![primary, backup],
        candidates_of(Some(primary), None) == seq![primary],
        candidates_of(None, Some(backup)) == seq![backup],
        candidates_of(None, None) == Seq::<Seq<char>>::empty(),
{
}

/// A backup is brought back exactly where the file is missing and the backup is there; then a write
/// goes on and a read is done. A write replaces the file only after its temporary file was written,
/// removes the backup only after that, and ends with the message of the first step that fails.
pub proof fn stores_restore_write_and_replace(
    writing: bool,
    m: Seq<char>,
    primary: bool,
    backup: bool,
)
    ensures
        next_store(writing, StoreView::Looking, None, primary, backup) is Restoring <==> !primary
            && backup,
        primary || !backup ==> next_store(writing, StoreView::Looking, None, primary, backup) == (
        if writing {
            StoreView::WritingTemporary
        } else {
            StoreView::Done(None)
        }),
        next_store(writing, StoreView::Restoring, None, primary, backup) is SyncingRestored,
        next_store(writing, StoreView::Restoring, Some(m), false, backup) == StoreView::Done(
            Some(m),
        ),
        next_store(true, StoreView::Restoring, Some(m), true, backup) is WritingTemporary,
        next_store(false, StoreView::Restoring, Some(m), true, backup) == StoreView::Done(None),
        next_store(true, StoreView::SyncingRestored, None, primary, backup) is WritingTemporary,
        next_store(false, StoreView::SyncingRestored, None, primary, backup) == StoreView::Done(
            None,
        ),
        next_store(writing, StoreView::WritingTemporary, None, primary, backup) is Replacing,
        next_store(writing, StoreView::Replacing, None, primary, backup) is Syncing,
        next_store(writing, StoreView::Syncing, None, primary, backup) is LookingForBackup,
        next_store(writing, StoreView::LookingForBackup, None, primary, true) is RemovingBackup,
        next_store(writing, StoreView::LookingForBackup, None, primary, false) == StoreView::Done(
            None,
        ),
        next_store(writing, StoreView::RemovingBackup, None, primary, backup) is SyncingRemoved,
        next_store(writing, StoreView::SyncingRemoved, None, primary, backup) == StoreView::Done(
            None,
        ),
        forall|phase: StoreView|
            phase is SyncingRestored || phase is WritingTemporary || phase is Replacing || phase
                is Syncing || phase is RemovingBackup || phase is SyncingRemoved
                ==> #[trigger] next_store(writing, phase, Some(m), primary, backup)
                == StoreView::Done(Some(m)),
{
}

/// Once a write is done, the file holds what was written.
pub proof fn done_writes_are_in_their_file(
    original: Files,
    contents: Seq<u8>,
    steps: Seq<StoreStep>,
)
    ensures
        store_course(original, contents, steps).0 == StoreView::Done(None) ==> store_course(
            original,
            contents,
            steps,
        ).1.primary == Some(contents),
        ({
            let files = store_course(original, contents, steps).1;
            let left = if files.primary is Some { files.primary } else { files.backup };
            let before = if original.primary is Some { original.primary } else { original.backup };
            left == before || left == Some(contents)
        }),
{
    writes_are_old_or_new(original, contents, steps);
}

/// A result fails with its message or not at all, and an optional text is there with its text or not
/// at all.
pub proof fn failures_are_told_by_their_message(r: Result<(), String>, s: Option<String>)
    ensures
        r is Ok ==> fault(r) is None,
        r is Err ==> fault(r) == Some(r->Err_0@),
        s is None ==> opt(s) is None,
        s is Some ==> opt(s) == Some(s->0@),
{
}

} // verus!
