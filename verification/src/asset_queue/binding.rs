//! The course of a binding: which files it may change, in which order it goes,
//! and how it is undone where it fails.
//!
//! The steps are decided here; the caller carries each one out and reports what
//! came of it.
use vstd::prelude::*;

use crate::agents::router;
use crate::asset_queue::binder;
use crate::asset_queue::transaction;
use crate::asset_queue::types::AssetKind;
use crate::order;
use crate::path_order::ByPath;
use crate::paths;
use crate::story_plan;
use crate::text;

verus! {

broadcast use vstd::string::group_string_axioms;

/// Refuses an artifact that is not a file in the directory of its task.
pub fn check_artifact(root: &str, task_id: &str, artifact: &str, is_file: bool) -> (r: Result<
    (),
    String,
>)
    ensures
        match r {
            Ok(_) => is_file && paths::within(artifact@, paths::joined(root@, task_id@)),
            Err(m) => !(is_file && paths::within(artifact@, paths::joined(root@, task_id@))) && m@
                == "artifact is outside task directory: "@ + artifact@,
        },
{
    match transaction::check_contained(root, task_id, artifact, is_file) {
        Ok(_) => Ok(()),
        Err(_) => Err(router::joined("artifact is outside task directory: ", artifact)),
    }
}

// ---------------------------------------------------------------------------
// The files of a binding
// ---------------------------------------------------------------------------

/// An entry of the scene directory: its path, and what the path resolves to or
/// why it does not.
#[derive(Debug, PartialEq, Eq)]
pub struct SceneEntry {
    pub path: String,
    pub resolved: Result<String, String>,
}

/// Whether an entry is a scene, by its extension.
pub open spec fn is_scene(entry: SceneEntry) -> bool {
    paths::extension_of(entry.path@) == Some("txt"@)
}

/// Why a scene may not be touched, if it may not.
pub open spec fn entry_fault(root: Seq<char>, entry: SceneEntry) -> Option<Seq<char>> {
    match entry.resolved {
        Err(m) => Some(m@),
        Ok(path) => if paths::within(path@, root) {
            None
        } else {
            Some("scene path is outside project: "@ + path@)
        },
    }
}

/// The scenes among the entries, as they resolve, in the order of the entries.
pub open spec fn scenes_among(entries: Seq<SceneEntry>) -> Seq<Seq<char>>
    decreases entries.len(),
{
    if entries.len() == 0 {
        Seq::empty()
    } else {
        let before = scenes_among(entries.drop_last());
        match (is_scene(entries.last()), entries.last().resolved) {
            (true, Ok(path)) => before.push(path@),
            _ => before,
        }
    }
}

/// Whether the entry at `i` is the first scene that may not be touched.
pub open spec fn first_faulty(root: Seq<char>, entries: Seq<SceneEntry>, i: int) -> bool {
    &&& 0 <= i < entries.len()
    &&& is_scene(entries[i])
    &&& entry_fault(root, entries[i]) is Some
    &&& forall|j: int|
        0 <= j < i && is_scene(#[trigger] entries[j]) ==> entry_fault(root, entries[j]) is None
}

/// The scenes of a project, in the order of their paths; a scene that resolves to a place outside
/// the scene directory, or to none, is an error.
pub fn all_scene_paths(root: &str, entries: Vec<SceneEntry>) -> (r: Result<Vec<String>, String>)
    ensures
        match r {
            Ok(scenes) => (forall|i: int|
                0 <= i < entries@.len() && is_scene(#[trigger] entries@[i]) ==> entry_fault(
                    root@,
                    entries@[i],
                ) is None) && order::sorted::<ByPath>(text::texts(scenes@)) && text::texts(
                scenes@,
            ).to_multiset() == scenes_among(entries@).to_multiset(),
            Err(m) => exists|i: int| #[trigger]
                first_faulty(root@, entries@, i) && entry_fault(root@, entries@[i]) == Some(m@),
        },
{
    let ghost all = entries@;
    let mut found: Vec<String> = Vec::new();
    let mut i: usize = 0;
    assert(all.take(0) =~= Seq::<SceneEntry>::empty());
    assert(text::texts(found@) =~= Seq::<Seq<char>>::empty());
    while i < entries.len()
        invariant
            i <= entries.len(),
            all == entries@,
            text::texts(found@) == scenes_among(all.take(i as int)),
            forall|j: int|
                0 <= j < i && is_scene(#[trigger] all[j]) ==> entry_fault(root@, all[j]) is None,
        decreases entries.len() - i,
    {
        let ghost before = text::texts(found@);
        proof {
            assert(all.take(i + 1).drop_last() =~= all.take(i as int));
            assert(all.take(i + 1).last() == all[i as int]);
        }
        let extension = paths::extension(entries[i].path.as_str());
        if story_plan::opt_is(&extension, "txt") {
            match &entries[i].resolved {
                Err(m) => {
                    assert(first_faulty(root@, all, i as int));
                    return Err(m.clone());
                },
                Ok(path) => {
                    match binder::checked_scene_path(root, path.clone()) {
                        Err(m) => {
                            assert(first_faulty(root@, all, i as int));
                            return Err(m);
                        },
                        Ok(scene) => {
                            found.push(scene);
                            assert(text::texts(found@) =~= before.push(scene@));
                        },
                    }
                },
            }
        }
        i += 1;
    }
    assert(all.take(i as int) =~= all);
    Ok(order::sort::<ByPath>(found))
}

/// What is to be done to put a file back.
#[derive(Debug, Clone, Copy, PartialEq, Eq, Structural)]
pub enum RestoreAction {
    /// Write what it held.
    Write,
    /// Remove it: there was none.
    Remove,
    Nothing,
}

/// Decides how a file is put back.
pub fn restore_file(was_there: bool, is_there: bool) -> (r: RestoreAction)
    ensures
        r == (if was_there {
            RestoreAction::Write
        } else if is_there {
            RestoreAction::Remove
        } else {
            RestoreAction::Nothing
        }),
{
    if was_there {
        RestoreAction::Write
    } else if is_there {
        RestoreAction::Remove
    } else {
        RestoreAction::Nothing
    }
}

/// What went wrong with each file that could not be put back.
pub open spec fn restore_faults(results: Seq<(String, Result<(), String>)>) -> Seq<Seq<char>>
    decreases results.len(),
{
    if results.len() == 0 {
        Seq::empty()
    } else {
        let before = restore_faults(results.drop_last());
        match results.last().1 {
            Ok(_) => before,
            Err(m) => before.push(results.last().0@ + ": "@ + m@),
        }
    }
}

/// What came of putting the files back.
pub fn restore_binding_files(results: &Vec<(String, Result<(), String>)>) -> (r: Result<(), String>)
    ensures
        ({
            let faults = restore_faults(results@);
            match r {
                Ok(_) => faults.len() == 0,
                Err(m) => faults.len() > 0 && m@ == text::join_with(faults, "; "@),
            }
        }),
{
    let ghost all = results@;
    let mut errors: Vec<String> = Vec::new();
    let mut i: usize = 0;
    assert(all.take(0) =~= Seq::<(String, Result<(), String>)>::empty());
    assert(text::texts(errors@) =~= Seq::<Seq<char>>::empty());
    while i < results.len()
        invariant
            i <= results.len(),
            all == results@,
            text::texts(errors@) == restore_faults(all.take(i as int)),
        decreases results.len() - i,
    {
        let ghost before = text::texts(errors@);
        proof {
            assert(all.take(i + 1).drop_last() =~= all.take(i as int));
            assert(all.take(i + 1).last() == all[i as int]);
        }
        match &results[i].1 {
            Ok(_) => {},
            Err(m) => {
                let mut error = text::copy(results[i].0.as_str());
                error.append(": ");
                error.append(m.as_str());
                errors.push(error);
                assert(text::texts(errors@) =~= before.push(error@));
            },
        }
        i += 1;
    }
    assert(all.take(i as int) =~= all);
    if errors.len() == 0 {
        Ok(())
    } else {
        Err(text::join(&errors, "; "))
    }
}

// ---------------------------------------------------------------------------
// The course
// ---------------------------------------------------------------------------

/// How far a binding has come.
#[derive(Debug, PartialEq, Eq)]
pub enum BindPhase {
    /// The files that it may change are to be remembered.
    Snapshotting,
    /// The media is to be read.
    Reading,
    /// The directory of the promoted file is to be made.
    MakingDirectory,
    /// The promoted file is to be written.
    Promoting,
    /// The scenes, the cards and the metadata are to be changed.
    Applying,
    /// The files are to be put back as they are remembered.
    Restoring(String),
    /// It is over.
    Done(Result<(), String>),
}

pub enum BindView {
    Snapshotting,
    Reading,
    MakingDirectory,
    Promoting,
    Applying,
    Restoring(Seq<char>),
    Done(Option<Seq<char>>),
}

impl View for BindPhase {
    type V = BindView;

    open spec fn view(&self) -> BindView {
        match *self {
            BindPhase::Snapshotting => BindView::Snapshotting,
            BindPhase::Reading => BindView::Reading,
            BindPhase::MakingDirectory => BindView::MakingDirectory,
            BindPhase::Promoting => BindView::Promoting,
            BindPhase::Applying => BindView::Applying,
            BindPhase::Restoring(m) => BindView::Restoring(m@),
            BindPhase::Done(r) => BindView::Done(crate::json_store::fault(r)),
        }
    }
}

/// What came of a step of a binding.
#[derive(Debug, PartialEq, Eq)]
pub enum BindEvent {
    /// The media, or why it could not be read.
    Read(Result<Vec<u8>, String>),
    Finished(Result<(), String>),
}

/// Why media cannot be bound, if it cannot: a figure must be a PNG with a pixel
/// that is not opaque.
pub open spec fn media_fault(kind: AssetKind, extension: Seq<char>, bytes: Seq<u8>) -> Option<
    Seq<char>,
> {
    if kind != AssetKind::Figure {
        None
    } else if text::ascii_lowercase(extension) != text::ascii_lowercase("png"@) {
        Some("figure artifact must be a transparent PNG"@)
    } else {
        match binder::png_pixels(bytes) {
            Err(e) => Some("invalid figure PNG: "@ + e),
            Ok(pixels) => if binder::see_through(pixels) {
                None
            } else {
                Some("figure artifact has no transparent pixels"@)
            },
        }
    }
}

fn check_media(kind: AssetKind, extension: &str, bytes: &Vec<u8>) -> (r: Result<(), String>)
    ensures
        crate::json_store::fault(r) == media_fault(kind, extension@, bytes@),
{
    if kind != AssetKind::Figure {
        return Ok(());
    }
    binder::validate_transparent_figure(extension, bytes.as_slice())
}

/// The phase that follows a step that went well, or the end.
pub open spec fn unless(next: BindView, failure: Option<Seq<char>>) -> BindView {
    match failure {
        None => next,
        Some(m) => BindView::Done(Some(m)),
    }
}

/// The phase after an event, given what is wrong with media that was read. A
/// generated artifact is promoted first; of a promoted one only the references
/// are restored. An event that answers no open question changes nothing.
pub open spec fn next_bind(
    again: bool,
    wrong: spec_fn(Seq<u8>) -> Option<Seq<char>>,
    phase: BindView,
    event: BindEvent,
) -> BindView {
    match (phase, event) {
        (BindView::Snapshotting, BindEvent::Finished(r)) => unless(
            if again {
                BindView::Applying
            } else {
                BindView::Reading
            },
            crate::json_store::fault(r),
        ),
        (BindView::Reading, BindEvent::Read(Err(m))) => BindView::Done(Some(m@)),
        (BindView::Reading, BindEvent::Read(Ok(bytes))) => unless(
            if again {
                BindView::Snapshotting
            } else {
                BindView::MakingDirectory
            },
            wrong(bytes@),
        ),
        (BindView::MakingDirectory, BindEvent::Finished(r)) => unless(
            BindView::Promoting,
            crate::json_store::fault(r),
        ),
        (BindView::Promoting, BindEvent::Finished(r)) => unless(
            BindView::Applying,
            crate::json_store::fault(r),
        ),
        (BindView::Applying, BindEvent::Finished(r)) => match crate::json_store::fault(r) {
            None => BindView::Done(None),
            Some(m) => BindView::Restoring(m),
        },
        (BindView::Restoring(m), BindEvent::Finished(r)) => BindView::Done(
            Some(m + transaction::suffix_of(r)),
        ),
        _ => phase,
    }
}

fn go_on(next: BindPhase, result: Result<(), String>) -> (r: BindPhase)
    ensures
        r@ == unless(next@, crate::json_store::fault(result)),
{
    match result {
        Ok(_) => next,
        Err(m) => BindPhase::Done(Err(m)),
    }
}

fn advance(again: bool, kind: AssetKind, extension: &str, phase: BindPhase, event: BindEvent) -> (r:
    BindPhase)
    ensures
        r@ == next_bind(
            again,
            |bytes: Seq<u8>| media_fault(kind, extension@, bytes),
            phase@,
            event,
        ),
{
    match (phase, event) {
        (BindPhase::Snapshotting, BindEvent::Finished(r)) => {
            if again {
                go_on(BindPhase::Applying, r)
            } else {
                go_on(BindPhase::Reading, r)
            }
        },
        (BindPhase::Reading, BindEvent::Read(Err(m))) => BindPhase::Done(Err(m)),
        (BindPhase::Reading, BindEvent::Read(Ok(bytes))) => {
            let checked = check_media(kind, extension, &bytes);
            if again {
                go_on(BindPhase::Snapshotting, checked)
            } else {
                go_on(BindPhase::MakingDirectory, checked)
            }
        },
        (BindPhase::MakingDirectory, BindEvent::Finished(r)) => go_on(BindPhase::Promoting, r),
        (BindPhase::Promoting, BindEvent::Finished(r)) => go_on(BindPhase::Applying, r),
        (BindPhase::Applying, BindEvent::Finished(r)) => match r {
            Ok(_) => BindPhase::Done(Ok(())),
            Err(m) => BindPhase::Restoring(m),
        },
        (BindPhase::Restoring(m), BindEvent::Finished(r)) => {
            BindPhase::Done(Err(transaction::with_rollback(m, r)))
        },
        (phase, _) => phase,
    }
}

/// Takes the binding of a generated artifact one step further; it begins by
/// remembering the files.
pub fn bind_asset(kind: AssetKind, extension: &str, phase: BindPhase, event: BindEvent) -> (r:
    BindPhase)
    ensures
        r@ == next_bind(
            false,
            |bytes: Seq<u8>| media_fault(kind, extension@, bytes),
            phase@,
            event,
        ),
{
    advance(false, kind, extension, phase, event)
}

/// Where the restoring of references begins: a figure is read again first.
pub fn first_rebind(kind: AssetKind) -> (r: BindPhase)
    ensures
        r@ == (if kind == AssetKind::Figure {
            BindView::Reading
        } else {
            BindView::Snapshotting
        }),
{
    if kind == AssetKind::Figure {
        BindPhase::Reading
    } else {
        BindPhase::Snapshotting
    }
}

/// Takes the restoring of references to a promoted file one step further.
pub fn rebind_asset(kind: AssetKind, extension: &str, phase: BindPhase, event: BindEvent) -> (r:
    BindPhase)
    ensures
        r@ == next_bind(
            true,
            |bytes: Seq<u8>| media_fault(kind, extension@, bytes),
            phase@,
            event,
        ),
{
    advance(true, kind, extension, phase, event)
}

// ---------------------------------------------------------------------------
// What a failed binding leaves
// ---------------------------------------------------------------------------

/// The files of a project, and those among them that are remembered.
pub struct BindDisk {
    pub files: Map<Seq<char>, Seq<u8>>,
    pub remembered: Option<Map<Seq<char>, Seq<u8>>>,
}

/// Whether two projects have the same files, but for some.
pub open spec fn same_but(
    a: Map<Seq<char>, Seq<u8>>,
    b: Map<Seq<char>, Seq<u8>>,
    some: Set<Seq<char>>,
) -> bool {
    a.remove_keys(some) == b.remove_keys(some)
}

/// Whether a step may leave these files. Applying changes no files but those of
/// the binding, in any way; a promotion changes the promoted file or not, and
/// fails or not; putting back, where it goes well, gives each file of the
/// binding what it is remembered with.
pub open spec fn may_leave(
    scope: Set<Seq<char>>,
    target: Seq<char>,
    before: BindDisk,
    phase: BindView,
    event: BindEvent,
    after: BindDisk,
) -> bool {
    match (phase, event) {
        (BindView::Snapshotting, BindEvent::Finished(Ok(_))) => after.files == before.files
            && after.remembered == Some(before.files.restrict(scope)),
        (BindView::Promoting, BindEvent::Finished(_)) => same_but(
            after.files,
            before.files,
            set![target],
        ) && after.remembered == before.remembered,
        (BindView::Applying, BindEvent::Finished(_)) => same_but(after.files, before.files, scope)
            && after.remembered == before.remembered,
        (BindView::Restoring(_), BindEvent::Finished(Ok(_))) => after.remembered
            == before.remembered && (before.remembered matches Some(kept) ==> after.files
            == before.files.remove_keys(scope).union_prefer_right(kept)),
        (BindView::Restoring(_), BindEvent::Finished(Err(_))) => same_but(
            after.files,
            before.files,
            scope,
        ) && after.remembered == before.remembered,
        _ => after == before,
    }
}

/// What holds of the files in each phase of a binding.
pub open spec fn bind_fits(
    scope: Set<Seq<char>>,
    again: bool,
    original: Map<Seq<char>, Seq<u8>>,
    disk: BindDisk,
    phase: BindView,
) -> bool {
    let kept = disk.remembered == Some(original.restrict(scope));
    match phase {
        BindView::Snapshotting => disk.files == original,
        BindView::Reading => disk.files == original && (again || kept),
        BindView::MakingDirectory => disk.files == original && kept,
        BindView::Promoting => disk.files == original && kept,
        BindView::Applying => same_but(disk.files, original, scope) && kept,
        BindView::Restoring(_) => same_but(disk.files, original, scope) && kept,
        BindView::Done(_) => same_but(disk.files, original, scope),
    }
}

/// Where a binding has come to, and how.
pub struct BindStep {
    pub event: BindEvent,
    pub disk: BindDisk,
}

/// The phase and the files after a number of steps.
pub open spec fn bind_course(
    again: bool,
    wrong: spec_fn(Seq<u8>) -> Option<Seq<char>>,
    first: BindView,
    disk: BindDisk,
    steps: Seq<BindStep>,
) -> (BindView, BindDisk)
    decreases steps.len(),
{
    if steps.len() == 0 {
        (first, disk)
    } else {
        let (phase, _) = bind_course(again, wrong, first, disk, steps.drop_last());
        (next_bind(again, wrong, phase, steps.last().event), steps.last().disk)
    }
}

/// Whether each step leaves what it may leave.
pub open spec fn possible(
    scope: Set<Seq<char>>,
    target: Seq<char>,
    again: bool,
    wrong: spec_fn(Seq<u8>) -> Option<Seq<char>>,
    first: BindView,
    disk: BindDisk,
    steps: Seq<BindStep>,
) -> bool
    decreases steps.len(),
{
    steps.len() > 0 ==> {
        let (phase, before) = bind_course(again, wrong, first, disk, steps.drop_last());
        &&& possible(scope, target, again, wrong, first, disk, steps.drop_last())
        &&& may_leave(scope, target, before, phase, steps.last().event, steps.last().disk)
    }
}

/// A binding changes no file but those it may change.
pub proof fn bindings_stay_in_scope(
    scope: Set<Seq<char>>,
    target: Seq<char>,
    again: bool,
    wrong: spec_fn(Seq<u8>) -> Option<Seq<char>>,
    first: BindView,
    original: Map<Seq<char>, Seq<u8>>,
    steps: Seq<BindStep>,
)
    requires
        scope.contains(target),
        again ==> first == BindView::Reading || first == BindView::Snapshotting,
        !again ==> first == BindView::Snapshotting,
        possible(
            scope,
            target,
            again,
            wrong,
            first,
            BindDisk { files: original, remembered: None },
            steps,
        ),
    ensures
        ({
            let (phase, disk) = bind_course(
                again,
                wrong,
                first,
                BindDisk { files: original, remembered: None },
                steps,
            );
            same_but(disk.files, original, scope) && bind_fits(
                scope,
                again,
                original,
                disk,
                phase,
            )
        }),
    decreases steps.len(),
{
    let start = BindDisk { files: original, remembered: None };
    if steps.len() > 0 {
        bindings_stay_in_scope(scope, target, again, wrong, first, original, steps.drop_last());
        let (phase, before) = bind_course(again, wrong, first, start, steps.drop_last());
        let event = steps.last().event;
        let after = steps.last().disk;
        match (phase, event) {
            (BindView::Promoting, BindEvent::Finished(_)) => {
                lemma_same_but_more(after.files, before.files, set![target], scope);
            },
            (BindView::Applying, BindEvent::Finished(_)) => {},
            (BindView::Restoring(_), BindEvent::Finished(Ok(_))) => {
                assert(after.files.remove_keys(scope) =~= before.files.remove_keys(scope));
            },
            _ => {},
        }
    }
}

proof fn lemma_same_but_more(
    a: Map<Seq<char>, Seq<u8>>,
    b: Map<Seq<char>, Seq<u8>>,
    few: Set<Seq<char>>,
    more: Set<Seq<char>>,
)
    requires
        same_but(a, b, few),
        few.subset_of(more),
    ensures
        same_but(a, b, more),
{
    assert(a.remove_keys(more) =~= a.remove_keys(few).remove_keys(more));
    assert(b.remove_keys(more) =~= b.remove_keys(few).remove_keys(more));
}

/// A binding whose application failed and whose files were put back has left
/// the project as it was.
pub proof fn failed_bindings_are_undone(
    scope: Set<Seq<char>>,
    target: Seq<char>,
    again: bool,
    wrong: spec_fn(Seq<u8>) -> Option<Seq<char>>,
    first: BindView,
    original: Map<Seq<char>, Seq<u8>>,
    steps: Seq<BindStep>,
)
    requires
        scope.contains(target),
        again ==> first == BindView::Reading || first == BindView::Snapshotting,
        !again ==> first == BindView::Snapshotting,
        possible(
            scope,
            target,
            again,
            wrong,
            first,
            BindDisk { files: original, remembered: None },
            steps,
        ),
        steps.len() > 0,
        bind_course(
            again,
            wrong,
            first,
            BindDisk { files: original, remembered: None },
            steps.drop_last(),
        ).0 is Restoring,
        steps.last().event matches BindEvent::Finished(Ok(_)),
    ensures
        steps.last().disk.files == original,
{
    let start = BindDisk { files: original, remembered: None };
    bindings_stay_in_scope(scope, target, again, wrong, first, original, steps.drop_last());
    let before = bind_course(again, wrong, first, start, steps.drop_last()).1;
    let kept = original.restrict(scope);
    assert(before.files.remove_keys(scope) == original.remove_keys(scope));
    assert(original.remove_keys(scope).union_prefer_right(kept) =~= original);
}

// ---------------------------------------------------------------------------
// What a binding looks at
// ---------------------------------------------------------------------------

/// The scenes of a project are its `.txt` files, and each of them that resolves is among
/// them.
pub proof fn scenes_are_the_text_files(entries: Seq<SceneEntry>, path: Seq<char>)
    ensures
        scenes_among(entries).contains(path) <==> exists|i: int|
            0 <= i < entries.len() && paths::extension_of((#[trigger] entries[i]).path@) == Some(
                "txt"@,
            ) && (entries[i].resolved is Ok && entries[i].resolved->Ok_0@ == path),
    decreases entries.len(),
{
    if entries.len() > 0 {
        let d = entries.drop_last();
        let last = entries.len() - 1;
        scenes_are_the_text_files(d, path);
        let before = scenes_among(d);
        let all = scenes_among(entries);
        assert forall|i: int| 0 <= i < d.len() implies d[i] == #[trigger] entries[i] by {}
        if before.contains(path) {
            let i = choose|i: int| 0 <= i < before.len() && before[i] == path;
            assert(all[i] == path);
            let j = choose|j: int|
                0 <= j < d.len() && paths::extension_of((#[trigger] d[j]).path@) == Some("txt"@) && (
                d[j].resolved is Ok && d[j].resolved->Ok_0@ == path);
            assert(entries[j] == d[j]);
        }
        if all.contains(path) {
            let i = choose|i: int| 0 <= i < all.len() && all[i] == path;
            if i < before.len() {
                assert(before[i] == path);
            } else {
                assert(entries[last].resolved is Ok);
            }
        }
        if exists|i: int|
            0 <= i < entries.len() && paths::extension_of((#[trigger] entries[i]).path@) == Some(
                "txt"@,
            ) && (entries[i].resolved is Ok && entries[i].resolved->Ok_0@ == path) {
            let i = choose|i: int|
                0 <= i < entries.len() && paths::extension_of((#[trigger] entries[i]).path@) == Some(
                    "txt"@,
                ) && (entries[i].resolved is Ok && entries[i].resolved->Ok_0@ == path);
            if i < last {
                assert(d[i].resolved is Ok);
            } else {
                assert(all[before.len() as int] == path);
            }
        }
    }
}

/// A scene that leads out of the scene directory, or that does not resolve, is refused;
/// one inside it is not.
pub proof fn scenes_outside_are_refused(root: Seq<char>, entry: SceneEntry)
    ensures
        entry_fault(root, entry) is None <==> entry.resolved is Ok && paths::within(
            entry.resolved->Ok_0@,
            root,
        ),
{
}

/// Every file that could not be put back is told of, by its path and the fault.
pub proof fn files_not_put_back_are_told_of(
    results: Seq<(String, Result<(), String>)>,
    i: int,
)
    requires
        0 <= i < results.len(),
    ensures
        results[i].1 is Err ==> restore_faults(results).contains(
            results[i].0@ + ": "@ + results[i].1->Err_0@,
        ),
        (forall|j: int| 0 <= j < results.len() ==> (#[trigger] results[j]).1 is Ok)
            ==> restore_faults(results).len() == 0,
    decreases results.len(),
{
    let d = results.drop_last();
    let last = results.len() - 1;
    let before = restore_faults(d);
    let all = restore_faults(results);
    if d.len() > 0 {
        files_not_put_back_are_told_of(d, if i < last { i } else { 0 });
        if forall|j: int| 0 <= j < results.len() ==> (#[trigger] results[j]).1 is Ok {
            assert forall|j: int| 0 <= j < d.len() implies (#[trigger] d[j]).1 is Ok by {
                assert(results[j].1 is Ok);
            }
        }
    }
    if results[i].1 is Err {
        let m = results[i].0@ + ": "@ + results[i].1->Err_0@;
        if i < last {
            let k = choose|k: int| 0 <= k < before.len() && before[k] == m;
            assert(all[k] == m);
        } else {
            assert(all[before.len() as int] == m);
        }
    }
    if forall|j: int| 0 <= j < results.len() ==> (#[trigger] results[j]).1 is Ok {
        assert(results[last].1 is Ok);
    }
}

/// A figure must be a PNG that can be decoded and has a pixel that is not opaque; any
/// other kind of media is taken as it is.
pub proof fn figures_must_be_see_through(kind: AssetKind, extension: Seq<char>, bytes: Seq<u8>)
    ensures
        media_fault(kind, extension, bytes) is None <==> kind != AssetKind::Figure || (
        text::ascii_lowercase(extension) == "png"@ && binder::png_pixels(bytes) is Ok
            && binder::see_through(binder::png_pixels(bytes)->Ok_0)),
{
    reveal_strlit("png");
    assert(text::ascii_lowercase("png"@) =~= "png"@);
}

/// Nothing is written before the files are kept and the media is judged, and a binding is
/// done without a fault only once it is applied. Where applying fails, what was kept is
/// put back and the fault is reported.
pub proof fn bindings_are_applied_last(
    again: bool,
    wrong: spec_fn(Seq<u8>) -> Option<Seq<char>>,
    phase: BindView,
    event: BindEvent,
)
    ensures
        ({
            let next = next_bind(again, wrong, phase, event);
            &&& next is Promoting ==> phase is Promoting || (phase is MakingDirectory && (event
                matches BindEvent::Finished(Ok(_))))
            &&& next is MakingDirectory ==> phase is MakingDirectory || (!again && phase is Reading
                && (event matches BindEvent::Read(Ok(bytes)) && wrong(bytes@) is None))
            &&& next is Applying ==> phase is Applying || (event matches BindEvent::Finished(Ok(_)))
                && (phase is Promoting || (again && phase is Snapshotting))
            &&& next == BindView::Done(None) ==> phase == next || (phase is Applying && (event
                matches BindEvent::Finished(Ok(_))))
            &&& phase is Applying ==> (event matches BindEvent::Finished(Err(m)) ==> next
                == BindView::Restoring(m@))
            &&& phase matches BindView::Restoring(m) ==> (event matches BindEvent::Finished(r)
                ==> next matches BindView::Done(Some(told)) && text::begins(told, m))
            &&& phase is Reading ==> (event matches BindEvent::Read(Ok(bytes)) ==> (wrong(
                bytes@,
            ) matches Some(m) ==> next == BindView::Done(Some(m))))
        }),
{
    if let (BindView::Restoring(m), BindEvent::Finished(r)) = (phase, event) {
        text::parts_of_a_text_are_found(Seq::empty(), m, transaction::suffix_of(r), m);
    }
}

} // verus!
