//! Carrying out one edit of a change set.
//!
//! An edit of a scene writes the scene and then brings the cards of its
//! backgrounds up to date; a plan of assets is merged into the metadata; the edits
//! of characters and of the memory are their stores'. The caller does each step
//! and reports what came of it.
use vstd::prelude::*;

use crate::ai::change_set;
use crate::ai::change_set::{ChangeSetEdit, SceneWrite};
use crate::assets::AssetMetadata;
use crate::paths;
use crate::text;
use crate::webgal::WebGalNode;

verus! {

broadcast use vstd::string::group_string_axioms;

/// What an edit waits for.
#[derive(Debug, PartialEq, Eq)]
pub enum EditPhase {
    /// Whether the scene's file is there is to be found out.
    Looking,
    /// The scene is to be written.
    WritingScene(SceneWrite),
    /// The scene that was written is to be parsed.
    Parsing,
    /// The metadata are to be read, and whether the files of these backgrounds are
    /// there is to be found out.
    ReadingBackgrounds(Vec<String>),
    /// The metadata are to be read.
    ReadingMetadata,
    /// The metadata are to be written.
    SavingMetadata(AssetMetadata),
    /// The store of the characters or of the memory is to carry the edit out.
    Handing,
    Done(Result<(), String>),
}

/// What the caller reports.
#[derive(Debug, PartialEq, Eq)]
pub enum EditEvent {
    Looked(bool),
    Parsed(Vec<WebGalNode>),
    /// The metadata, and of each background whether its file is there.
    Backgrounds(Result<(AssetMetadata, Vec<bool>), String>),
    Metadata(Result<AssetMetadata, String>),
    Saved(Result<(), String>),
}

/// Whether there is an answer for every background.
pub open spec fn answers(phase: EditPhase, event: EditEvent) -> bool {
    match (phase, event) {
        (EditPhase::ReadingBackgrounds(names), EditEvent::Backgrounds(Ok((_, present)))) => {
            present@.len() == names@.len()
        },
        _ => true,
    }
}

/// The file of the scene that an edit writes.
pub open spec fn edited_scene(edit: ChangeSetEdit) -> Seq<char> {
    match change_set::scene_content(edit) {
        Some(written) => written.0,
        None => Seq::empty(),
    }
}

/// Whether a write puts an edit's scene where it belongs.
pub open spec fn writes_scene(write: SceneWrite, project: Seq<char>, edit: ChangeSetEdit) -> bool {
    change_set::scene_content(edit) matches Some(written) && write.content@ == written.1
        && write.path@ == paths::joined(paths::joined(project, "game/scene"@), written.0)
}

/// Whether names are the backgrounds that a scene shows, each once.
pub open spec fn backgrounds_of(names: Seq<Seq<char>>, nodes: Seq<WebGalNode>) -> bool {
    &&& names.no_duplicates()
    &&& forall|name: Seq<char>|
        names.contains(name) <==> #[trigger] change_set::shown_upto(
            nodes,
            nodes.len() as int,
            name,
        )
}

/// Whether a scene shows no background.
pub open spec fn shows_nothing(nodes: Seq<WebGalNode>) -> bool {
    forall|name: Seq<char>| !(#[trigger] change_set::shown_upto(nodes, nodes.len() as int, name))
}

/// How an edit begins.
pub open spec fn first_phase(edit: ChangeSetEdit) -> EditPhase {
    match edit {
        ChangeSetEdit::Scene { .. } => EditPhase::Looking,
        ChangeSetEdit::CreateScene { .. } => EditPhase::Looking,
        ChangeSetEdit::AssetPlan { .. } => EditPhase::ReadingMetadata,
        _ => EditPhase::Handing,
    }
}

/// Whether an edit goes over into another phase on what the caller reports.
pub open spec fn edit_moves(
    project: Seq<char>,
    edit: ChangeSetEdit,
    before: EditPhase,
    event: EditEvent,
    after: EditPhase,
) -> bool {
    match (before, event) {
        (EditPhase::Looking, EditEvent::Looked(present)) => match change_set::edit_fault(
            edit,
            present,
        ) {
            Some(m) => after matches EditPhase::Done(Err(e)) && e@ == m,
            None => match change_set::scene_content(edit) {
                Some(_) => after matches EditPhase::WritingScene(write) && writes_scene(
                    write,
                    project,
                    edit,
                ),
                None => after == EditPhase::Done(Ok(())),
            },
        },
        (EditPhase::WritingScene(_), EditEvent::Saved(Ok(_))) => after is Parsing,
        (EditPhase::WritingScene(_), EditEvent::Saved(Err(m))) => after matches EditPhase::Done(
            Err(e),
        ) && e@ == change_set::write_fault(edit, m@),
        (EditPhase::Parsing, EditEvent::Parsed(nodes)) => if shows_nothing(nodes@) {
            after == EditPhase::Done(Ok(()))
        } else {
            after matches EditPhase::ReadingBackgrounds(names) && backgrounds_of(
                text::texts(names@),
                nodes@,
            )
        },
        (
            EditPhase::ReadingBackgrounds(names),
            EditEvent::Backgrounds(Ok((metadata, present))),
        ) => {
            let scene = edited_scene(edit);
            if change_set::sync_needed(metadata, scene, text::texts(names@), present@) {
                after matches EditPhase::SavingMetadata(synced) && change_set::syncs(
                    synced,
                    metadata,
                    scene,
                    text::texts(names@),
                    present@,
                )
            } else {
                after == EditPhase::Done(Ok(()))
            }
        },
        (EditPhase::ReadingBackgrounds(_), EditEvent::Backgrounds(Err(m))) => after
            == EditPhase::Done(Err(m)),
        (EditPhase::ReadingMetadata, EditEvent::Metadata(Ok(metadata))) => match edit {
            ChangeSetEdit::AssetPlan { cards } => after matches EditPhase::SavingMetadata(merged)
                && change_set::merges(merged, metadata, cards@),
            _ => after == EditPhase::Done(Ok(())),
        },
        (EditPhase::ReadingMetadata, EditEvent::Metadata(Err(m))) => after == EditPhase::Done(
            Err(m),
        ),
        (EditPhase::SavingMetadata(_), EditEvent::Saved(result)) => after == EditPhase::Done(
            result,
        ),
        (EditPhase::Handing, EditEvent::Saved(result)) => after == EditPhase::Done(result),
        _ => after == before,
    }
}

/// Begins an edit.
pub fn begin_edit(edit: &ChangeSetEdit) -> (r: EditPhase)
    ensures
        r == first_phase(*edit),
{
    match edit {
        ChangeSetEdit::Scene { .. } => EditPhase::Looking,
        ChangeSetEdit::CreateScene { .. } => EditPhase::Looking,
        ChangeSetEdit::AssetPlan { .. } => EditPhase::ReadingMetadata,
        ChangeSetEdit::Character { .. } => EditPhase::Handing,
        ChangeSetEdit::CreateCharacter { .. } => EditPhase::Handing,
        ChangeSetEdit::Memory { .. } => EditPhase::Handing,
    }
}

fn write_scene(project: &str, edit: &ChangeSetEdit, present: bool) -> (r: EditPhase)
    ensures
        edit_moves(project@, *edit, EditPhase::Looking, EditEvent::Looked(present), r),
{
    match change_set::plan_scene_write(project, edit, present) {
        Ok(Some(write)) => EditPhase::WritingScene(write),
        Ok(None) => EditPhase::Done(Ok(())),
        Err(m) => EditPhase::Done(Err(m)),
    }
}

fn find_backgrounds(nodes: Vec<WebGalNode>) -> (r: EditPhase)
    ensures
        if shows_nothing(nodes@) {
            r == EditPhase::Done(Ok(()))
        } else {
            r matches EditPhase::ReadingBackgrounds(names) && backgrounds_of(
                text::texts(names@),
                nodes@,
            )
        },
{
    let names = change_set::scene_backgrounds(&nodes);
    let ghost found = text::texts(names@);
    if names.len() == 0 {
        assert(shows_nothing(nodes@)) by {
            assert forall|name: Seq<char>| !(#[trigger] change_set::shown_upto(
                nodes@,
                nodes@.len() as int,
                name,
            )) by {
                assert(!found.contains(name));
            }
        }
        EditPhase::Done(Ok(()))
    } else {
        proof {
            let name = found[0];
            assert(found.contains(name));
            assert(change_set::shown_upto(nodes@, nodes@.len() as int, name));
        }
        EditPhase::ReadingBackgrounds(names)
    }
}

fn sync_backgrounds(
    edit: &ChangeSetEdit,
    names: Vec<String>,
    metadata: AssetMetadata,
    present: Vec<bool>,
) -> (r: EditPhase)
    requires
        present@.len() == names@.len(),
    ensures
        ({
            let scene = edited_scene(*edit);
            if change_set::sync_needed(metadata, scene, text::texts(names@), present@) {
                r matches EditPhase::SavingMetadata(synced) && change_set::syncs(
                    synced,
                    metadata,
                    scene,
                    text::texts(names@),
                    present@,
                )
            } else {
                r == EditPhase::Done(Ok(()))
            }
        }),
{
    let mut metadata = metadata;
    let scene = match edit {
        ChangeSetEdit::Scene { file, .. } => text::copy(file.as_str()),
        ChangeSetEdit::CreateScene { file, .. } => text::copy(file.as_str()),
        ChangeSetEdit::AssetPlan { .. } => String::new(),
        ChangeSetEdit::Character { .. } => String::new(),
        ChangeSetEdit::CreateCharacter { .. } => String::new(),
        ChangeSetEdit::Memory { .. } => String::new(),
    };
    assert(scene@ =~= edited_scene(*edit));
    if change_set::sync_scene_background_cards(&mut metadata, scene.as_str(), &names, &present) {
        EditPhase::SavingMetadata(metadata)
    } else {
        EditPhase::Done(Ok(()))
    }
}

fn merge_plan(edit: &ChangeSetEdit, metadata: AssetMetadata) -> (r: EditPhase)
    ensures
        match *edit {
            ChangeSetEdit::AssetPlan { cards } => r matches EditPhase::SavingMetadata(merged)
                && change_set::merges(merged, metadata, cards@),
            _ => r == EditPhase::Done(Ok(())),
        },
{
    match edit {
        ChangeSetEdit::AssetPlan { cards } => {
            let mut metadata = metadata;
            change_set::merge_asset_plan(&mut metadata, cards);
            EditPhase::SavingMetadata(metadata)
        },
        _ => EditPhase::Done(Ok(())),
    }
}

/// Takes an edit one step further.
pub fn apply_edit(project_path: &str, edit: &ChangeSetEdit, phase: EditPhase, event: EditEvent) -> (r:
    EditPhase)
    requires
        answers(phase, event),
    ensures
        edit_moves(project_path@, *edit, phase, event, r),
{
    match phase {
        EditPhase::Looking => match event {
            EditEvent::Looked(present) => write_scene(project_path, edit, present),
            _ => EditPhase::Looking,
        },
        EditPhase::WritingScene(write) => match event {
            EditEvent::Saved(saved) => match saved {
                Ok(_) => EditPhase::Parsing,
                Err(m) => EditPhase::Done(
                    Err(change_set::scene_write_error(edit, m.as_str())),
                ),
            },
            _ => EditPhase::WritingScene(write),
        },
        EditPhase::Parsing => match event {
            EditEvent::Parsed(nodes) => find_backgrounds(nodes),
            _ => EditPhase::Parsing,
        },
        EditPhase::ReadingBackgrounds(names) => match event {
            EditEvent::Backgrounds(found) => match found {
                Ok((metadata, present)) => sync_backgrounds(edit, names, metadata, present),
                Err(m) => EditPhase::Done(Err(m)),
            },
            _ => EditPhase::ReadingBackgrounds(names),
        },
        EditPhase::ReadingMetadata => match event {
            EditEvent::Metadata(found) => match found {
                Ok(metadata) => merge_plan(edit, metadata),
                Err(m) => EditPhase::Done(Err(m)),
            },
            _ => EditPhase::ReadingMetadata,
        },
        EditPhase::SavingMetadata(metadata) => match event {
            EditEvent::Saved(saved) => EditPhase::Done(saved),
            _ => EditPhase::SavingMetadata(metadata),
        },
        EditPhase::Handing => match event {
            EditEvent::Saved(saved) => EditPhase::Done(saved),
            _ => EditPhase::Handing,
        },
        EditPhase::Done(r) => EditPhase::Done(r),
    }
}

// ---------------------------------------------------------------------------
// What an edit leaves
// ---------------------------------------------------------------------------

/// What the edits of scenes and of the plan of assets touch.
pub struct EditFiles {
    pub scenes: Map<Seq<char>, Seq<char>>,
    pub metadata: AssetMetadata,
}

/// What a step may do to the files, given what the caller reports of it: a write
/// replaces one file or fails alone, and what is read is what is there.
pub open spec fn edit_step(
    phase: EditPhase,
    event: EditEvent,
    before: EditFiles,
    after: EditFiles,
) -> bool {
    match (phase, event) {
        (EditPhase::WritingScene(write), EditEvent::Saved(Ok(_))) => {
            &&& after.scenes == before.scenes.insert(write.path@, write.content@)
            &&& after.metadata == before.metadata
        },
        (EditPhase::WritingScene(write), EditEvent::Saved(Err(_))) => {
            &&& after.scenes.remove(write.path@) == before.scenes.remove(write.path@)
            &&& after.metadata == before.metadata
        },
        (EditPhase::ReadingBackgrounds(_), EditEvent::Backgrounds(Ok((metadata, _)))) => {
            &&& after == before
            &&& metadata == before.metadata
        },
        (EditPhase::ReadingMetadata, EditEvent::Metadata(Ok(metadata))) => {
            &&& after == before
            &&& metadata == before.metadata
        },
        (EditPhase::SavingMetadata(metadata), EditEvent::Saved(saved)) => {
            &&& after.scenes == before.scenes
            &&& saved is Ok ==> after.metadata == metadata
        },
        _ => after == before,
    }
}

/// The scenes once an edit has written its own.
pub open spec fn scenes_with(
    project: Seq<char>,
    edit: ChangeSetEdit,
    scenes: Map<Seq<char>, Seq<char>>,
) -> Map<Seq<char>, Seq<char>> {
    match change_set::scene_content(edit) {
        Some(written) => scenes.insert(edited_path(project, edit), written.1),
        None => scenes,
    }
}

/// Where the scene of an edit stands.
pub open spec fn edited_path(project: Seq<char>, edit: ChangeSetEdit) -> Seq<char> {
    paths::joined(paths::joined(project, "game/scene"@), edited_scene(edit))
}

/// Whether metadata are what an edit makes of others: those with its cards, or
/// those with the cards of some backgrounds brought up to date.
pub open spec fn edited_metadata(
    edit: ChangeSetEdit,
    before: AssetMetadata,
    after: AssetMetadata,
) -> bool {
    match edit {
        ChangeSetEdit::AssetPlan { cards } => change_set::merges(after, before, cards@),
        _ => exists|names: Seq<Seq<char>>, present: Seq<bool>| #[trigger]
            change_set::syncs(after, before, edited_scene(edit), names, present),
    }
}

/// What holds of the files in every phase.
pub open spec fn edit_fits(
    project: Seq<char>,
    edit: ChangeSetEdit,
    original: EditFiles,
    phase: EditPhase,
    files: EditFiles,
) -> bool {
    match phase {
        EditPhase::Looking => files == original && change_set::scene_content(edit) is Some,
        EditPhase::WritingScene(write) => files == original && writes_scene(write, project, edit),
        EditPhase::Parsing | EditPhase::ReadingBackgrounds(_) => {
            &&& change_set::scene_content(edit) is Some
            &&& files.scenes == scenes_with(project, edit, original.scenes)
            &&& files.metadata == original.metadata
        },
        EditPhase::ReadingMetadata => files == original && edit is AssetPlan,
        EditPhase::SavingMetadata(metadata) => {
            &&& files.scenes == scenes_with(project, edit, original.scenes)
            &&& files.metadata == original.metadata
            &&& edited_metadata(edit, original.metadata, metadata)
        },
        EditPhase::Handing => files == original && change_set::scene_content(edit) is None && !(
        edit is AssetPlan),
        EditPhase::Done(Ok(_)) => {
            &&& files.scenes == scenes_with(project, edit, original.scenes)
            &&& edit is AssetPlan ==> edited_metadata(edit, original.metadata, files.metadata)
            &&& !(edit is AssetPlan) ==> files.metadata == original.metadata || edited_metadata(
                edit,
                original.metadata,
                files.metadata,
            )
        },
        EditPhase::Done(Err(_)) => files.scenes.remove(edited_path(project, edit))
            == original.scenes.remove(edited_path(project, edit)),
    }
}

proof fn lemma_edit_fits(
    project: Seq<char>,
    edit: ChangeSetEdit,
    original: EditFiles,
    phase: EditPhase,
    event: EditEvent,
    next: EditPhase,
    before: EditFiles,
    after: EditFiles,
)
    requires
        edit_moves(project, edit, phase, event, next),
        edit_step(phase, event, before, after),
        edit_fits(project, edit, original, phase, before),
    ensures
        edit_fits(project, edit, original, next, after),
{
    let path = edited_path(project, edit);
    assert(scenes_with(project, edit, original.scenes).remove(path) =~= original.scenes.remove(
        path,
    ));
    match (phase, event) {
        (
            EditPhase::ReadingBackgrounds(names),
            EditEvent::Backgrounds(Ok((metadata, present))),
        ) => {
            if let EditPhase::SavingMetadata(synced) = next {
                assert(change_set::syncs(
                    synced,
                    metadata,
                    edited_scene(edit),
                    text::texts(names@),
                    present@,
                ));
            }
        },
        _ => {},
    }
}

/// An edit leaves what it says. Where it ends well, its scene holds its content
/// and the metadata are what it makes of them; whatever it ends with, no other
/// scene changes.
pub proof fn edits_leave_what_they_say(
    project: Seq<char>,
    edit: ChangeSetEdit,
    original: EditFiles,
    phases: Seq<EditPhase>,
    events: Seq<EditEvent>,
    files: Seq<EditFiles>,
    k: int,
)
    requires
        phases.len() == events.len() + 1,
        files.len() == phases.len(),
        phases[0] == first_phase(edit),
        files[0] == original,
        forall|j: int|
            0 <= j < events.len() ==> edit_moves(
                project,
                edit,
                phases[j],
                #[trigger] events[j],
                phases[j + 1],
            ) && edit_step(phases[j], events[j], files[j], files[j + 1]),
        0 <= k < phases.len(),
    ensures
        edit_fits(project, edit, original, phases[k], files[k]),
    decreases k,
{
    if k > 0 {
        edits_leave_what_they_say(project, edit, original, phases, events, files, k - 1);
        let event = events[k - 1];
        assert(edit_moves(project, edit, phases[k - 1], event, phases[k]));
        lemma_edit_fits(
            project,
            edit,
            original,
            phases[k - 1],
            event,
            phases[k],
            files[k - 1],
            files[k],
        );
    }
}

/// However the caller gets there: once an edit of a scene is done, the scene's file holds the text
/// that the edit leaves and no other scene has changed; an edit of something else changes no scene,
/// and one that is no plan of assets and shows no background leaves the metadata.
pub proof fn done_edits_have_written_their_scene(
    project: Seq<char>,
    edit: ChangeSetEdit,
    original: EditFiles,
    phases: Seq<EditPhase>,
    events: Seq<EditEvent>,
    files: Seq<EditFiles>,
    end: int,
)
    requires
        phases.len() == events.len() + 1,
        files.len() == phases.len(),
        phases[0] == first_phase(edit),
        files[0] == original,
        forall|j: int|
            0 <= j < events.len() ==> edit_moves(
                project,
                edit,
                phases[j],
                #[trigger] events[j],
                phases[j + 1],
            ) && edit_step(phases[j], events[j], files[j], files[j + 1]),
        0 <= end < phases.len(),
        phases[end] == EditPhase::Done(Ok(())),
    ensures
        match edit {
            ChangeSetEdit::Scene { file, after_content, .. } => files[end].scenes
                == original.scenes.insert(
                paths::joined(paths::joined(project, "game/scene"@), file@),
                after_content@,
            ),
            ChangeSetEdit::CreateScene { file, .. } => exists|content: Seq<char>|
                change_set::scene_content(edit) == Some((file@, content)) && files[end].scenes
                    == #[trigger] original.scenes.insert(
                    paths::joined(paths::joined(project, "game/scene"@), file@),
                    content,
                ),
            ChangeSetEdit::AssetPlan { cards } => files[end].scenes == original.scenes
                && change_set::merges(files[end].metadata, original.metadata, cards@),
            _ => files[end].scenes == original.scenes,
        },
{
    edits_leave_what_they_say(project, edit, original, phases, events, files, end);
    if let ChangeSetEdit::CreateScene { file, .. } = edit {
        let content = change_set::scene_content(edit).unwrap().1;
        assert(files[end].scenes == original.scenes.insert(
            paths::joined(paths::joined(project, "game/scene"@), file@),
            content,
        ));
    }
}

/// After a scene is written, exactly the backgrounds that it shows are looked up, each once, and
/// their cards are brought up to date from what was found; a scene that shows none is done.
pub proof fn written_scenes_bring_their_backgrounds_up_to_date(
    project: Seq<char>,
    edit: ChangeSetEdit,
    before: EditPhase,
    event: EditEvent,
    after: EditPhase,
)
    requires
        answers(before, event),
        edit_moves(project, edit, before, event, after),
    ensures
        before is WritingScene && event == EditEvent::Saved(Ok(())) ==> after is Parsing,
        before is Parsing && event is Parsed ==> {
            let nodes = event->Parsed_0@;
            &&& after is ReadingBackgrounds || after == EditPhase::Done(Ok(()))
            &&& after is ReadingBackgrounds ==> {
                let names = after->ReadingBackgrounds_0@;
                &&& forall|i: int, j: int|
                    0 <= i < j < names.len() ==> (#[trigger] names[i])@ != (#[trigger] names[j])@
                &&& forall|i: int|
                    0 <= i < names.len() ==> change_set::shown_upto(
                        nodes,
                        nodes.len() as int,
                        (#[trigger] names[i])@,
                    )
                &&& forall|name: Seq<char>| #[trigger]
                    change_set::shown_upto(nodes, nodes.len() as int, name) ==> exists|i: int|
                        0 <= i < names.len() && (#[trigger] names[i])@ == name
            }
            &&& after is Done ==> forall|name: Seq<char>|
                !(#[trigger] change_set::shown_upto(nodes, nodes.len() as int, name))
        },
        before is ReadingBackgrounds && event is Backgrounds && event->Backgrounds_0 is Ok ==> {
            let metadata = event->Backgrounds_0->Ok_0.0;
            let present = event->Backgrounds_0->Ok_0.1@;
            let names = text::texts(before->ReadingBackgrounds_0@);
            ||| after is SavingMetadata && change_set::syncs(
                after->SavingMetadata_0,
                metadata,
                edited_scene(edit),
                names,
                present,
            )
            ||| after == EditPhase::Done(Ok(())) && !change_set::sync_needed(
                metadata,
                edited_scene(edit),
                names,
                present,
            )
        },
        before is SavingMetadata && event is Saved ==> after == EditPhase::Done(event->Saved_0),
        before is Handing && event is Saved ==> after == EditPhase::Done(event->Saved_0),
{
    if before is Parsing && event is Parsed && after is ReadingBackgrounds {
        let names = after->ReadingBackgrounds_0@;
        let nodes = event->Parsed_0@;
        let all = text::texts(names);
        assert(backgrounds_of(all, nodes));
        assert forall|i: int, j: int| 0 <= i < j < names.len() implies (#[trigger] names[i])@ != (
        #[trigger] names[j])@ by {
            assert(all[i] == names[i]@ && all[j] == names[j]@);
        }
        assert forall|i: int| 0 <= i < names.len() implies change_set::shown_upto(
            nodes,
            nodes.len() as int,
            (#[trigger] names[i])@,
        ) by {
            assert(all[i] == names[i]@);
            assert(all.contains(names[i]@));
        }
        assert forall|name: Seq<char>| #[trigger]
            change_set::shown_upto(nodes, nodes.len() as int, name) implies exists|i: int|
            0 <= i < names.len() && (#[trigger] names[i])@ == name by {
            assert(all.contains(name));
            let i = choose|i: int| 0 <= i < all.len() && all[i] == name;
            assert(names[i]@ == name);
        }
    }
}

/// A scene is written where its name is a scene's and, for a new one, no file has it; else the edit
/// ends with the fault, and nothing was written.
pub proof fn edits_of_scenes_look_first(
    project: Seq<char>,
    edit: ChangeSetEdit,
    present: bool,
    after: EditPhase,
)
    requires
        edit_moves(project, edit, EditPhase::Looking, EditEvent::Looked(present), after),
        edit is Scene || edit is CreateScene,
    ensures
        first_phase(edit) is Looking,
        ({
            let file = match edit {
                ChangeSetEdit::Scene { file, .. } => file@,
                ChangeSetEdit::CreateScene { file, .. } => file@,
                _ => Seq::empty(),
            };
            &&& !change_set::scene_file(file) ==> after is Done && after->Done_0 is Err
                && after->Done_0->Err_0@ == "场景文件名无效："@ + file
            &&& change_set::scene_file(file) && edit is CreateScene && present ==> after is Done
                && after->Done_0 is Err && after->Done_0->Err_0@ == "场景 "@ + file + " 已存在"@
            &&& change_set::scene_file(file) && (edit is Scene || !present) ==> after
                is WritingScene && after->WritingScene_0.path@ == paths::joined(
                paths::joined(project, "game/scene"@),
                file,
            )
        }),
{
}

} // verus!
