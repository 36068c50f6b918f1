//! The scene writer: compiles structured dialogue into WebGAL scripts.
use vstd::prelude::*;

use crate::agents::asset_planner;
use crate::agents::router;
use crate::agents::{AgentContext, AgentError, AgentOutput, AgentOutputPayload, SceneScript};
use crate::asset_queue::binder;
use crate::characters;
use crate::characters::{Character, CharacterView};
use crate::story_plan;
use crate::story_plan::{
    AssetTaskPlan, BeatView, BranchEdge, BranchGraph, BranchView, CueView, DialogueBeat, DraftView,
    EdgeView, FigureCue, FigureCueAction, FigureStagePosition, SceneDraft, ScenePlan, SceneView,
    TaskPlanView,
};
use crate::text;

verus! {

broadcast use vstd::string::group_string_axioms;

/// Compiles the dialogue drafts, without a model.
pub struct SceneAgent;

// ---------------------------------------------------------------------------
// The contract of the inputs
// ---------------------------------------------------------------------------

/// The cast of the scene with this id: that of the first scene card.
pub open spec fn cast_of(scenes: Seq<SceneView>, id: Seq<char>) -> Seq<Seq<char>>
    decreases scenes.len(),
{
    if scenes.len() == 0 {
        Seq::empty()
    } else if scenes[0].id == id {
        scenes[0].character_ids
    } else {
        cast_of(scenes.drop_first(), id)
    }
}

/// The path of a cue.
pub open spec fn cue_path(d: int, b: int, c: int) -> Seq<char> {
    router::item_path(
        router::item_path(router::item_path("$.sceneDrafts"@, d) + ".beats"@, b) + ".figureCues"@,
        c,
    )
}

/// What is wrong with a cue, if anything is.
pub open spec fn cue_fault(
    cue: CueView,
    path: Seq<char>,
    cast: Seq<Seq<char>>,
    cards: Seq<CharacterView>,
    tasks: Seq<TaskPlanView>,
) -> Option<Seq<char>> {
    if !characters::character_known(cards, cue.character_id) || !cast.contains(cue.character_id) {
        Some(
            router::violation(
                path + ".characterId"@,
                "references character outside this scene: "@ + cue.character_id,
            ),
        )
    } else if cue.action == FigureCueAction::Show {
        if cue.position is None {
            Some(router::violation(path + ".position"@, "required for show cues"@))
        } else if !story_plan::flag_value(cue.emotion) {
            Some(router::violation(path + ".emotion"@, "must be a safe label"@))
        } else if !asset_planner::drawn(tasks, (cue.character_id, cue.emotion)) {
            Some(
                router::violation(
                    "$.assetPlan"@,
                    "missing figure task for "@ + cue.character_id + "/"@ + cue.emotion
                        + " referenced by "@ + path,
                ),
            )
        } else {
            None
        }
    } else {
        None
    }
}

pub open spec fn cues_fault_from(
    cues: Seq<CueView>,
    d: int,
    b: int,
    c: int,
    cast: Seq<Seq<char>>,
    cards: Seq<CharacterView>,
    tasks: Seq<TaskPlanView>,
) -> Option<Seq<char>>
    decreases cues.len() - c,
{
    if c >= cues.len() {
        None
    } else if cue_fault(cues[c], cue_path(d, b, c), cast, cards, tasks) is Some {
        cue_fault(cues[c], cue_path(d, b, c), cast, cards, tasks)
    } else {
        cues_fault_from(cues, d, b, c + 1, cast, cards, tasks)
    }
}

pub open spec fn beats_fault_from(
    beats: Seq<BeatView>,
    d: int,
    b: int,
    cast: Seq<Seq<char>>,
    cards: Seq<CharacterView>,
    tasks: Seq<TaskPlanView>,
) -> Option<Seq<char>>
    decreases beats.len() - b,
{
    if b >= beats.len() {
        None
    } else if cues_fault_from(beats[b].figure_cues, d, b, 0, cast, cards, tasks) is Some {
        cues_fault_from(beats[b].figure_cues, d, b, 0, cast, cards, tasks)
    } else {
        beats_fault_from(beats, d, b + 1, cast, cards, tasks)
    }
}

pub open spec fn draft_taken(drafts: Seq<DraftView>, d: int) -> bool {
    exists|j: int| 0 <= j < d && (#[trigger] drafts[j]).scene_id == drafts[d].scene_id
}

/// What is wrong with the draft at `d`, if anything is.
pub open spec fn draft_fault(
    drafts: Seq<DraftView>,
    d: int,
    scenes: Seq<SceneView>,
    cards: Seq<CharacterView>,
    tasks: Seq<TaskPlanView>,
) -> Option<Seq<char>> {
    let id = drafts[d].scene_id;
    if !story_plan::scene_known(scenes, id) {
        Some(
            router::violation(
                router::item_path("$.sceneDrafts"@, d) + ".sceneId"@,
                "references unknown scene: "@ + id,
            ),
        )
    } else if draft_taken(drafts, d) {
        Some(
            router::violation(
                router::item_path("$.sceneDrafts"@, d) + ".sceneId"@,
                "must be unique"@,
            ),
        )
    } else {
        beats_fault_from(drafts[d].beats, d, 0, cast_of(scenes, id), cards, tasks)
    }
}

pub open spec fn drafts_fault_from(
    drafts: Seq<DraftView>,
    d: int,
    scenes: Seq<SceneView>,
    cards: Seq<CharacterView>,
    tasks: Seq<TaskPlanView>,
) -> Option<Seq<char>>
    decreases drafts.len() - d,
{
    if d >= drafts.len() {
        None
    } else if draft_fault(drafts, d, scenes, cards, tasks) is Some {
        draft_fault(drafts, d, scenes, cards, tasks)
    } else {
        drafts_fault_from(drafts, d + 1, scenes, cards, tasks)
    }
}

/// Whether some draft is that of the scene with this id.
pub open spec fn drafted(drafts: Seq<DraftView>, id: Seq<char>) -> bool {
    exists|d: int| 0 <= d < drafts.len() && (#[trigger] drafts[d]).scene_id == id
}

pub open spec fn undrafted_fault_from(
    scenes: Seq<SceneView>,
    i: int,
    drafts: Seq<DraftView>,
) -> Option<Seq<char>>
    decreases scenes.len() - i,
{
    if i >= scenes.len() {
        None
    } else if !drafted(drafts, scenes[i].id) {
        Some(router::violation("$.sceneDrafts"@, "missing draft for scene: "@ + scenes[i].id))
    } else {
        undrafted_fault_from(scenes, i + 1, drafts)
    }
}

/// What is wrong with the edge at `i`, if anything is.
pub open spec fn edge_fault(edge: EdgeView, i: int, scenes: Seq<SceneView>) -> Option<Seq<char>> {
    if !story_plan::scene_known(scenes, edge.from) {
        Some(
            router::violation(
                router::item_path("$.branches.edges"@, i) + ".from"@,
                "references unknown scene: "@ + edge.from,
            ),
        )
    } else if !story_plan::scene_known(scenes, edge.to) {
        Some(
            router::violation(
                router::item_path("$.branches.edges"@, i) + ".to"@,
                "references unknown scene: "@ + edge.to,
            ),
        )
    } else {
        None
    }
}

pub open spec fn edges_fault_from(edges: Seq<EdgeView>, i: int, scenes: Seq<SceneView>) -> Option<
    Seq<char>,
>
    decreases edges.len() - i,
{
    if i >= edges.len() {
        None
    } else if edge_fault(edges[i], i, scenes) is Some {
        edge_fault(edges[i], i, scenes)
    } else {
        edges_fault_from(edges, i + 1, scenes)
    }
}

/// What is wrong with the inputs of the compiler, if anything is.
pub open spec fn inputs_fault(
    scenes: Seq<SceneView>,
    drafts: Seq<DraftView>,
    branches: BranchView,
    cards: Seq<CharacterView>,
    tasks: Seq<TaskPlanView>,
) -> Option<Seq<char>> {
    if scenes.len() == 0 {
        Some(router::violation("$.scenePlans"@, "must not be empty"@))
    } else if drafts.len() == 0 {
        Some(router::violation("$.sceneDrafts"@, "must not be empty"@))
    } else if !story_plan::scene_known(scenes, branches.entry_scene) {
        Some(router::violation("$.branches.entryScene"@, "references unknown scene"@))
    } else if drafts_fault_from(drafts, 0, scenes, cards, tasks) is Some {
        drafts_fault_from(drafts, 0, scenes, cards, tasks)
    } else if undrafted_fault_from(scenes, 0, drafts) is Some {
        undrafted_fault_from(scenes, 0, drafts)
    } else {
        edges_fault_from(branches.edges, 0, scenes)
    }
}

/// Whether a cue keeps its contract: its character has a card and plays in the
/// scene, and a figure that is shown has a place, a safe emotion and a task
/// that draws it.
pub open spec fn cue_sound(
    cue: CueView,
    cast: Seq<Seq<char>>,
    cards: Seq<CharacterView>,
    tasks: Seq<TaskPlanView>,
) -> bool {
    &&& characters::character_known(cards, cue.character_id)
    &&& cast.contains(cue.character_id)
    &&& cue.action == FigureCueAction::Show ==> cue.position is Some && story_plan::flag_value(
        cue.emotion,
    ) && asset_planner::drawn(tasks, (cue.character_id, cue.emotion))
}

pub open spec fn beat_sound(
    beat: BeatView,
    cast: Seq<Seq<char>>,
    cards: Seq<CharacterView>,
    tasks: Seq<TaskPlanView>,
) -> bool {
    forall|c: int|
        0 <= c < beat.figure_cues.len() ==> cue_sound(
            #[trigger] beat.figure_cues[c],
            cast,
            cards,
            tasks,
        )
}

pub open spec fn draft_sound(
    draft: DraftView,
    scenes: Seq<SceneView>,
    cards: Seq<CharacterView>,
    tasks: Seq<TaskPlanView>,
) -> bool {
    &&& story_plan::scene_known(scenes, draft.scene_id)
    &&& forall|b: int|
        0 <= b < draft.beats.len() ==> beat_sound(
            #[trigger] draft.beats[b],
            cast_of(scenes, draft.scene_id),
            cards,
            tasks,
        )
}

/// Whether the inputs keep their contract: the entry and every edge lead to
/// known scenes, every scene has one draft, and every cue is sound.
pub open spec fn inputs_sound(
    scenes: Seq<SceneView>,
    drafts: Seq<DraftView>,
    branches: BranchView,
    cards: Seq<CharacterView>,
    tasks: Seq<TaskPlanView>,
) -> bool {
    &&& scenes.len() > 0
    &&& drafts.len() > 0
    &&& story_plan::scene_known(scenes, branches.entry_scene)
    &&& forall|d: int|
        0 <= d < drafts.len() ==> draft_sound(#[trigger] drafts[d], scenes, cards, tasks)
    &&& forall|i: int, j: int|
        0 <= i < j < drafts.len() ==> (#[trigger] drafts[i]).scene_id != (
        #[trigger] drafts[j]).scene_id
    &&& forall|i: int| 0 <= i < scenes.len() ==> drafted(drafts, (#[trigger] scenes[i]).id)
    &&& forall|i: int|
        0 <= i < branches.edges.len() ==> story_plan::scene_known(
            scenes,
            (#[trigger] branches.edges[i]).from,
        ) && story_plan::scene_known(scenes, branches.edges[i].to)
}

proof fn lemma_cues_from(
    cues: Seq<CueView>,
    d: int,
    b: int,
    c: int,
    cast: Seq<Seq<char>>,
    cards: Seq<CharacterView>,
    tasks: Seq<TaskPlanView>,
)
    requires
        0 <= c <= cues.len(),
    ensures
        cues_fault_from(cues, d, b, c, cast, cards, tasks) is None <==> forall|k: int|
            c <= k < cues.len() ==> cue_sound(#[trigger] cues[k], cast, cards, tasks),
    decreases cues.len() - c,
{
    if c < cues.len() {
        lemma_cues_from(cues, d, b, c + 1, cast, cards, tasks);
        let fault = cue_fault(cues[c], cue_path(d, b, c), cast, cards, tasks);
        assert(fault is None <==> cue_sound(cues[c], cast, cards, tasks));
        if fault is None && cues_fault_from(cues, d, b, c + 1, cast, cards, tasks) is None {
            assert forall|k: int| c <= k < cues.len() implies cue_sound(
                #[trigger] cues[k],
                cast,
                cards,
                tasks,
            ) by {
                if k > c {
                    assert(c + 1 <= k);
                }
            }
        }
    }
}

proof fn lemma_beats_from(
    beats: Seq<BeatView>,
    d: int,
    b: int,
    cast: Seq<Seq<char>>,
    cards: Seq<CharacterView>,
    tasks: Seq<TaskPlanView>,
)
    requires
        0 <= b <= beats.len(),
    ensures
        beats_fault_from(beats, d, b, cast, cards, tasks) is None <==> forall|k: int|
            b <= k < beats.len() ==> beat_sound(#[trigger] beats[k], cast, cards, tasks),
    decreases beats.len() - b,
{
    if b < beats.len() {
        lemma_beats_from(beats, d, b + 1, cast, cards, tasks);
        lemma_cues_from(beats[b].figure_cues, d, b, 0, cast, cards, tasks);
        let fault = cues_fault_from(beats[b].figure_cues, d, b, 0, cast, cards, tasks);
        if fault is None && beats_fault_from(beats, d, b + 1, cast, cards, tasks) is None {
            assert forall|k: int| b <= k < beats.len() implies beat_sound(
                #[trigger] beats[k],
                cast,
                cards,
                tasks,
            ) by {
                if k > b {
                    assert(b + 1 <= k);
                }
            }
        }
    }
}

proof fn lemma_drafts_from(
    drafts: Seq<DraftView>,
    d: int,
    scenes: Seq<SceneView>,
    cards: Seq<CharacterView>,
    tasks: Seq<TaskPlanView>,
)
    requires
        0 <= d <= drafts.len(),
    ensures
        drafts_fault_from(drafts, d, scenes, cards, tasks) is None <==> forall|k: int|
            d <= k < drafts.len() ==> draft_sound(#[trigger] drafts[k], scenes, cards, tasks)
                && !draft_taken(drafts, k),
    decreases drafts.len() - d,
{
    if d < drafts.len() {
        lemma_drafts_from(drafts, d + 1, scenes, cards, tasks);
        lemma_beats_from(
            drafts[d].beats,
            d,
            0,
            cast_of(scenes, drafts[d].scene_id),
            cards,
            tasks,
        );
        let fault = draft_fault(drafts, d, scenes, cards, tasks);
        assert(fault is None <==> draft_sound(drafts[d], scenes, cards, tasks) && !draft_taken(
            drafts,
            d,
        ));
        if fault is None && drafts_fault_from(drafts, d + 1, scenes, cards, tasks) is None {
            assert forall|k: int| d <= k < drafts.len() implies draft_sound(
                #[trigger] drafts[k],
                scenes,
                cards,
                tasks,
            ) && !draft_taken(drafts, k) by {
                if k > d {
                    assert(d + 1 <= k);
                }
            }
        }
    }
}

proof fn lemma_undrafted_from(scenes: Seq<SceneView>, i: int, drafts: Seq<DraftView>)
    requires
        0 <= i <= scenes.len(),
    ensures
        undrafted_fault_from(scenes, i, drafts) is None <==> forall|k: int|
            i <= k < scenes.len() ==> drafted(drafts, (#[trigger] scenes[k]).id),
    decreases scenes.len() - i,
{
    if i < scenes.len() {
        lemma_undrafted_from(scenes, i + 1, drafts);
        if drafted(drafts, scenes[i].id) && undrafted_fault_from(scenes, i + 1, drafts) is None {
            assert forall|k: int| i <= k < scenes.len() implies drafted(
                drafts,
                (#[trigger] scenes[k]).id,
            ) by {
                if k > i {
                    assert(i + 1 <= k);
                }
            }
        }
    }
}

proof fn lemma_edges_from(edges: Seq<EdgeView>, i: int, scenes: Seq<SceneView>)
    requires
        0 <= i <= edges.len(),
    ensures
        edges_fault_from(edges, i, scenes) is None <==> forall|k: int|
            i <= k < edges.len() ==> story_plan::scene_known(scenes, (#[trigger] edges[k]).from)
                && story_plan::scene_known(scenes, edges[k].to),
    decreases edges.len() - i,
{
    if i < edges.len() {
        lemma_edges_from(edges, i + 1, scenes);
        if edge_fault(edges[i], i, scenes) is None && edges_fault_from(edges, i + 1, scenes) is None {
            assert forall|k: int| i <= k < edges.len() implies story_plan::scene_known(
                scenes,
                (#[trigger] edges[k]).from,
            ) && story_plan::scene_known(scenes, edges[k].to) by {
                if k > i {
                    assert(i + 1 <= k);
                }
            }
        }
    }
}

/// The inputs have no fault exactly when they keep their contract.
pub proof fn faultless_inputs_are_sound(
    scenes: Seq<SceneView>,
    drafts: Seq<DraftView>,
    branches: BranchView,
    cards: Seq<CharacterView>,
    tasks: Seq<TaskPlanView>,
)
    ensures
        inputs_fault(scenes, drafts, branches, cards, tasks) is None <==> inputs_sound(
            scenes,
            drafts,
            branches,
            cards,
            tasks,
        ),
{
    lemma_drafts_from(drafts, 0, scenes, cards, tasks);
    lemma_undrafted_from(scenes, 0, drafts);
    lemma_edges_from(branches.edges, 0, scenes);
    if inputs_fault(scenes, drafts, branches, cards, tasks) is None {
        assert forall|i: int, j: int| 0 <= i < j < drafts.len() implies (
        #[trigger] drafts[i]).scene_id != (#[trigger] drafts[j]).scene_id by {
            assert(draft_sound(drafts[j], scenes, cards, tasks) && !draft_taken(drafts, j));
        }
    }
    if inputs_sound(scenes, drafts, branches, cards, tasks) {
        assert forall|k: int| 0 <= k < drafts.len() implies draft_sound(
            #[trigger] drafts[k],
            scenes,
            cards,
            tasks,
        ) && !draft_taken(drafts, k) by {
            if draft_taken(drafts, k) {
                let j = choose|j: int|
                    0 <= j < k && (#[trigger] drafts[j]).scene_id == drafts[k].scene_id;
                assert(drafts[j].scene_id != drafts[k].scene_id);
            }
        }
    }
}

fn violates(path: &str, field: &str, message: &str) -> (r: Option<AgentError>)
    ensures
        r matches Some(e) && e.0@ == router::violation(path@ + field@, message@),
{
    let full = router::joined(path, field);
    Some(router::contract_error(full.as_str(), message))
}

fn is_drawn(tasks: &[AssetTaskPlan], character: &str, emotion: &str) -> (r: bool)
    ensures
        r == asset_planner::drawn(story_plan::task_views(tasks@), (character@, emotion@)),
{
    let ghost all = story_plan::task_views(tasks@);
    let ghost pair = (character@, emotion@);
    let mut i: usize = 0;
    while i < tasks.len()
        invariant
            i <= tasks.len(),
            all == story_plan::task_views(tasks@),
            pair == (character@, emotion@),
            forall|j: int| 0 <= j < i ==> !asset_planner::draws(#[trigger] all[j], pair),
        decreases tasks.len() - i,
    {
        assert(all[i as int] == tasks@[i as int]@);
        if text::same(tasks[i].kind.as_str(), "figure") && story_plan::opt_is(
            &tasks[i].character_ref,
            character,
        ) && story_plan::opt_is(&tasks[i].emotion, emotion) {
            assert(asset_planner::draws(all[i as int], pair));
            return true;
        }
        i += 1;
    }
    false
}

fn check_cue(
    cue: &FigureCue,
    path: &str,
    cast: &Vec<String>,
    cards: &[Character],
    tasks: &[AssetTaskPlan],
) -> (r: Option<AgentError>)
    ensures
        match (
            r,
            cue_fault(
                cue@,
                path@,
                text::texts(cast@),
                characters::character_views(cards@),
                story_plan::task_views(tasks@),
            ),
        ) {
            (Some(e), Some(m)) => e.0@ == m,
            (None, None) => true,
            _ => false,
        },
{
    if characters::position_of(cards, cue.character_id.as_str()) == cards.len()
        || !text::contains_text(cast, cue.character_id.as_str()) {
        let message = router::joined(
            "references character outside this scene: ",
            cue.character_id.as_str(),
        );
        return violates(path, ".characterId", message.as_str());
    }
    if cue.action == FigureCueAction::Show {
        if cue.position.is_none() {
            return violates(path, ".position", "required for show cues");
        }
        if !story_plan::is_webgal_flag_value(cue.emotion.as_str()) {
            return violates(path, ".emotion", "must be a safe label");
        }
        if !is_drawn(tasks, cue.character_id.as_str(), cue.emotion.as_str()) {
            let mut message = text::copy("missing figure task for ");
            message.append(cue.character_id.as_str());
            message.append("/");
            message.append(cue.emotion.as_str());
            message.append(" referenced by ");
            message.append(path);
            return Some(router::contract_error("$.assetPlan", message.as_str()));
        }
    }
    None
}

fn cue_path_of(d: usize, b: usize, c: usize) -> (r: String)
    ensures
        r@ == cue_path(d as int, b as int, c as int),
{
    let draft = router::item_path_of("$.sceneDrafts", d);
    let beats = router::joined(draft.as_str(), ".beats");
    let beat = router::item_path_of(beats.as_str(), b);
    let cues = router::joined(beat.as_str(), ".figureCues");
    router::item_path_of(cues.as_str(), c)
}

fn check_cues(
    cues: &Vec<FigureCue>,
    d: usize,
    b: usize,
    cast: &Vec<String>,
    cards: &[Character],
    tasks: &[AssetTaskPlan],
) -> (r: Option<AgentError>)
    ensures
        match (
            r,
            cues_fault_from(
                cues@.map_values(|c: FigureCue| c@),
                d as int,
                b as int,
                0,
                text::texts(cast@),
                characters::character_views(cards@),
                story_plan::task_views(tasks@),
            ),
        ) {
            (Some(e), Some(m)) => e.0@ == m,
            (None, None) => true,
            _ => false,
        },
{
    let ghost all = cues@.map_values(|c: FigureCue| c@);
    let ghost ca = text::texts(cast@);
    let ghost cs = characters::character_views(cards@);
    let ghost ts = story_plan::task_views(tasks@);
    let mut c: usize = 0;
    while c < cues.len()
        invariant
            c <= cues.len(),
            all == cues@.map_values(|c: FigureCue| c@),
            ca == text::texts(cast@),
            cs == characters::character_views(cards@),
            ts == story_plan::task_views(tasks@),
            cues_fault_from(all, d as int, b as int, 0, ca, cs, ts) == cues_fault_from(
                all,
                d as int,
                b as int,
                c as int,
                ca,
                cs,
                ts,
            ),
        decreases cues.len() - c,
    {
        assert(all[c as int] == cues@[c as int]@);
        let path = cue_path_of(d, b, c);
        let fault = check_cue(&cues[c], path.as_str(), cast, cards, tasks);
        if fault.is_some() {
            return fault;
        }
        c += 1;
    }
    None
}

fn check_beats(
    beats: &Vec<DialogueBeat>,
    d: usize,
    cast: &Vec<String>,
    cards: &[Character],
    tasks: &[AssetTaskPlan],
) -> (r: Option<AgentError>)
    ensures
        match (
            r,
            beats_fault_from(
                beats@.map_values(|b: DialogueBeat| b@),
                d as int,
                0,
                text::texts(cast@),
                characters::character_views(cards@),
                story_plan::task_views(tasks@),
            ),
        ) {
            (Some(e), Some(m)) => e.0@ == m,
            (None, None) => true,
            _ => false,
        },
{
    let ghost all = beats@.map_values(|b: DialogueBeat| b@);
    let ghost ca = text::texts(cast@);
    let ghost cs = characters::character_views(cards@);
    let ghost ts = story_plan::task_views(tasks@);
    let mut b: usize = 0;
    while b < beats.len()
        invariant
            b <= beats.len(),
            all == beats@.map_values(|b: DialogueBeat| b@),
            ca == text::texts(cast@),
            cs == characters::character_views(cards@),
            ts == story_plan::task_views(tasks@),
            beats_fault_from(all, d as int, 0, ca, cs, ts) == beats_fault_from(
                all,
                d as int,
                b as int,
                ca,
                cs,
                ts,
            ),
        decreases beats.len() - b,
    {
        assert(all[b as int] == beats@[b as int]@);
        let fault = check_cues(&beats[b].figure_cues, d, b, cast, cards, tasks);
        if fault.is_some() {
            return fault;
        }
        b += 1;
    }
    None
}

fn find_scene(scenes: &[ScenePlan], id: &str) -> (r: usize)
    ensures
        r <= scenes.len(),
        r < scenes.len() <==> story_plan::scene_known(story_plan::scene_views(scenes@), id@),
        r < scenes.len() ==> scenes@[r as int].id@ == id@ && text::texts(
            scenes@[r as int].character_ids@,
        ) == cast_of(story_plan::scene_views(scenes@), id@),
{
    let ghost all = story_plan::scene_views(scenes@);
    let mut i: usize = 0;
    while i < scenes.len()
        invariant
            i <= scenes.len(),
            all == story_plan::scene_views(scenes@),
            forall|j: int| 0 <= j < i ==> (#[trigger] all[j]).id != id@,
        decreases scenes.len() - i,
    {
        assert(all[i as int] == scenes@[i as int]@);
        if text::same(scenes[i].id.as_str(), id) {
            proof {
                lemma_cast_of(all, id@, i as int);
            }
            return i;
        }
        i += 1;
    }
    i
}

proof fn lemma_cast_of(scenes: Seq<SceneView>, id: Seq<char>, k: int)
    requires
        0 <= k < scenes.len(),
        forall|j: int| 0 <= j < k ==> (#[trigger] scenes[j]).id != id,
        scenes[k].id == id,
    ensures
        cast_of(scenes, id) == scenes[k].character_ids,
    decreases k,
{
    if k > 0 {
        let t = scenes.drop_first();
        assert(scenes[0].id != id);
        assert forall|j: int| 0 <= j < k - 1 implies (#[trigger] t[j]).id != id by {
            assert(scenes[j + 1].id != id);
        }
        lemma_cast_of(t, id, k - 1);
    }
}

fn is_draft_taken(drafts: &[SceneDraft], d: usize) -> (r: bool)
    requires
        d < drafts.len(),
    ensures
        r == draft_taken(story_plan::draft_views(drafts@), d as int),
{
    let ghost all = story_plan::draft_views(drafts@);
    let mut j: usize = 0;
    while j < d
        invariant
            j <= d < drafts.len(),
            all == story_plan::draft_views(drafts@),
            forall|k: int| 0 <= k < j ==> (#[trigger] all[k]).scene_id != all[d as int].scene_id,
        decreases d - j,
    {
        if text::same(drafts[j].scene_id.as_str(), drafts[d].scene_id.as_str()) {
            assert(all[j as int].scene_id == all[d as int].scene_id);
            return true;
        }
        j += 1;
    }
    false
}

fn check_draft(
    drafts: &[SceneDraft],
    d: usize,
    scenes: &[ScenePlan],
    cards: &[Character],
    tasks: &[AssetTaskPlan],
) -> (r: Option<AgentError>)
    requires
        d < drafts.len(),
    ensures
        match (
            r,
            draft_fault(
                story_plan::draft_views(drafts@),
                d as int,
                story_plan::scene_views(scenes@),
                characters::character_views(cards@),
                story_plan::task_views(tasks@),
            ),
        ) {
            (Some(e), Some(m)) => e.0@ == m,
            (None, None) => true,
            _ => false,
        },
{
    assert(story_plan::draft_views(drafts@)[d as int] == drafts@[d as int]@);
    let path = router::item_path_of("$.sceneDrafts", d);
    let k = find_scene(scenes, drafts[d].scene_id.as_str());
    if k == scenes.len() {
        let message = router::joined("references unknown scene: ", drafts[d].scene_id.as_str());
        return violates(path.as_str(), ".sceneId", message.as_str());
    }
    if is_draft_taken(drafts, d) {
        return violates(path.as_str(), ".sceneId", "must be unique");
    }
    check_beats(&drafts[d].beats, d, &scenes[k].character_ids, cards, tasks)
}

/// The position of the last draft of a scene, or the number of drafts.
fn find_draft(drafts: &[SceneDraft], id: &str) -> (r: usize)
    ensures
        r <= drafts.len(),
        r < drafts.len() <==> drafted(story_plan::draft_views(drafts@), id@),
        r < drafts.len() ==> drafts@[r as int].scene_id@ == id@ && draft_of(
            story_plan::draft_views(drafts@),
            id@,
        ) == Some(drafts@[r as int]@),
        r == drafts.len() ==> draft_of(story_plan::draft_views(drafts@), id@) is None,
{
    let ghost all = story_plan::draft_views(drafts@);
    let mut i: usize = drafts.len();
    assert(all.take(i as int) =~= all);
    while i > 0
        invariant
            i <= drafts.len(),
            all == story_plan::draft_views(drafts@),
            forall|j: int| i <= j < drafts.len() ==> (#[trigger] all[j]).scene_id != id@,
            draft_of(all, id@) == draft_of(all.take(i as int), id@),
        decreases i,
    {
        let k: usize = i - 1;
        proof {
            assert(all.take(i as int).drop_last() =~= all.take(k as int));
            assert(all.take(i as int).last() == drafts@[k as int]@);
            assert(all[k as int] == drafts@[k as int]@);
        }
        if text::same(drafts[k].scene_id.as_str(), id) {
            return k;
        }
        i = k;
    }
    drafts.len()
}

/// The draft of the scene with this id: the last one.
pub open spec fn draft_of(drafts: Seq<DraftView>, id: Seq<char>) -> Option<DraftView>
    decreases drafts.len(),
{
    if drafts.len() == 0 {
        None
    } else if drafts.last().scene_id == id {
        Some(drafts.last())
    } else {
        draft_of(drafts.drop_last(), id)
    }
}

fn check_drafts(
    drafts: &[SceneDraft],
    scenes: &[ScenePlan],
    cards: &[Character],
    tasks: &[AssetTaskPlan],
) -> (r: Option<AgentError>)
    ensures
        match (
            r,
            drafts_fault_from(
                story_plan::draft_views(drafts@),
                0,
                story_plan::scene_views(scenes@),
                characters::character_views(cards@),
                story_plan::task_views(tasks@),
            ),
        ) {
            (Some(e), Some(m)) => e.0@ == m,
            (None, None) => true,
            _ => false,
        },
{
    let ghost ds = story_plan::draft_views(drafts@);
    let ghost ss = story_plan::scene_views(scenes@);
    let ghost cs = characters::character_views(cards@);
    let ghost ts = story_plan::task_views(tasks@);
    let mut d: usize = 0;
    while d < drafts.len()
        invariant
            d <= drafts.len(),
            ds == story_plan::draft_views(drafts@),
            ss == story_plan::scene_views(scenes@),
            cs == characters::character_views(cards@),
            ts == story_plan::task_views(tasks@),
            drafts_fault_from(ds, 0, ss, cs, ts) == drafts_fault_from(ds, d as int, ss, cs, ts),
        decreases drafts.len() - d,
    {
        let fault = check_draft(drafts, d, scenes, cards, tasks);
        if fault.is_some() {
            return fault;
        }
        d += 1;
    }
    None
}

fn check_undrafted(scenes: &[ScenePlan], drafts: &[SceneDraft]) -> (r: Option<AgentError>)
    ensures
        match (
            r,
            undrafted_fault_from(
                story_plan::scene_views(scenes@),
                0,
                story_plan::draft_views(drafts@),
            ),
        ) {
            (Some(e), Some(m)) => e.0@ == m,
            (None, None) => true,
            _ => false,
        },
{
    let ghost ss = story_plan::scene_views(scenes@);
    let ghost ds = story_plan::draft_views(drafts@);
    let mut i: usize = 0;
    while i < scenes.len()
        invariant
            i <= scenes.len(),
            ss == story_plan::scene_views(scenes@),
            ds == story_plan::draft_views(drafts@),
            undrafted_fault_from(ss, 0, ds) == undrafted_fault_from(ss, i as int, ds),
        decreases scenes.len() - i,
    {
        assert(ss[i as int] == scenes@[i as int]@);
        if find_draft(drafts, scenes[i].id.as_str()) == drafts.len() {
            let message = router::joined("missing draft for scene: ", scenes[i].id.as_str());
            return Some(router::contract_error("$.sceneDrafts", message.as_str()));
        }
        i += 1;
    }
    None
}

fn check_edges(edges: &Vec<BranchEdge>, scenes: &[ScenePlan]) -> (r: Option<AgentError>)
    ensures
        match (
            r,
            edges_fault_from(
                edges@.map_values(|e: BranchEdge| e@),
                0,
                story_plan::scene_views(scenes@),
            ),
        ) {
            (Some(e), Some(m)) => e.0@ == m,
            (None, None) => true,
            _ => false,
        },
{
    let ghost all = edges@.map_values(|e: BranchEdge| e@);
    let ghost ss = story_plan::scene_views(scenes@);
    let mut i: usize = 0;
    while i < edges.len()
        invariant
            i <= edges.len(),
            all == edges@.map_values(|e: BranchEdge| e@),
            ss == story_plan::scene_views(scenes@),
            edges_fault_from(all, 0, ss) == edges_fault_from(all, i as int, ss),
        decreases edges.len() - i,
    {
        assert(all[i as int] == edges@[i as int]@);
        let path = router::item_path_of("$.branches.edges", i);
        if !story_plan::has_scene(scenes, edges[i].from.as_str()) {
            let message = router::joined("references unknown scene: ", edges[i].from.as_str());
            return violates(path.as_str(), ".from", message.as_str());
        }
        if !story_plan::has_scene(scenes, edges[i].to.as_str()) {
            let message = router::joined("references unknown scene: ", edges[i].to.as_str());
            return violates(path.as_str(), ".to", message.as_str());
        }
        i += 1;
    }
    None
}

/// Holds the inputs of the compiler to their contract.
pub fn validate_scene_inputs(
    scene_plans: &[ScenePlan],
    drafts: &[SceneDraft],
    branches: &BranchGraph,
    cards: &[Character],
    asset_plan: &[AssetTaskPlan],
) -> (r: Result<(), AgentError>)
    ensures
        match (
            r,
            inputs_fault(
                story_plan::scene_views(scene_plans@),
                story_plan::draft_views(drafts@),
                branches@,
                characters::character_views(cards@),
                story_plan::task_views(asset_plan@),
            ),
        ) {
            (Ok(_), None) => true,
            (Err(e), Some(m)) => e.0@ == m,
            _ => false,
        },
        r is Ok <==> inputs_sound(
            story_plan::scene_views(scene_plans@),
            story_plan::draft_views(drafts@),
            branches@,
            characters::character_views(cards@),
            story_plan::task_views(asset_plan@),
        ),
{
    proof {
        faultless_inputs_are_sound(
            story_plan::scene_views(scene_plans@),
            story_plan::draft_views(drafts@),
            branches@,
            characters::character_views(cards@),
            story_plan::task_views(asset_plan@),
        );
    }
    if scene_plans.len() == 0 {
        return Err(router::contract_error("$.scenePlans", "must not be empty"));
    }
    if drafts.len() == 0 {
        return Err(router::contract_error("$.sceneDrafts", "must not be empty"));
    }
    if !story_plan::has_scene(scene_plans, branches.entry_scene.as_str()) {
        return Err(router::contract_error("$.branches.entryScene", "references unknown scene"));
    }
    if let Some(error) = check_drafts(drafts, scene_plans, cards, asset_plan) {
        return Err(error);
    }
    if let Some(error) = check_undrafted(scene_plans, drafts) {
        return Err(error);
    }
    if let Some(error) = check_edges(&branches.edges, scene_plans) {
        return Err(error);
    }
    Ok(())
}

// ---------------------------------------------------------------------------
// Lines
// ---------------------------------------------------------------------------

/// A character that cannot end a WebGAL command or a line.
pub open spec fn clean_char(c: char) -> char {
    if c == '\r' || c == '\n' {
        ' '
    } else if c == ';' {
        '；'
    } else {
        c
    }
}

/// A text that can stand inside a WebGAL command.
pub open spec fn cleaned(s: Seq<char>) -> Seq<char> {
    text::trim_of(s).map_values(|c: char| clean_char(c))
}

pub open spec fn choice_char(c: char) -> char {
    if c == ':' || c == '|' {
        ' '
    } else {
        c
    }
}

/// A text that can be the label of a choice.
pub open spec fn cleaned_choice(s: Seq<char>) -> Seq<char> {
    cleaned(s).map_values(|c: char| choice_char(c))
}

pub fn clean(value: &str) -> (r: String)
    ensures
        r@ == cleaned(value@),
{
    let trimmed = text::trim(value);
    let v = text::chars_of(trimmed.as_str());
    let mut out = String::new();
    let mut i: usize = 0;
    while i < v.len()
        invariant
            i <= v.len(),
            v@ == text::trim_of(value@),
            out@ =~= cleaned(value@).take(i as int),
        decreases v.len() - i,
    {
        let c = v[i];
        out.push(
            if c == '\r' || c == '\n' {
                ' '
            } else if c == ';' {
                '；'
            } else {
                c
            },
        );
        i += 1;
    }
    assert(cleaned(value@).take(v@.len() as int) =~= cleaned(value@));
    out
}

pub fn clean_choice(value: &str) -> (r: String)
    ensures
        r@ == cleaned_choice(value@),
{
    let cleaned_value = clean(value);
    let v = text::chars_of(cleaned_value.as_str());
    let mut out = String::new();
    let mut i: usize = 0;
    while i < v.len()
        invariant
            i <= v.len(),
            v@ == cleaned(value@),
            out@ =~= cleaned_choice(value@).take(i as int),
        decreases v.len() - i,
    {
        let c = v[i];
        out.push(
            if c == ':' || c == '|' {
                ' '
            } else {
                c
            },
        );
        i += 1;
    }
    assert(cleaned_choice(value@).take(v@.len() as int) =~= cleaned_choice(value@));
    out
}

/// The command of a beat: what a speaker says, or narration.
pub open spec fn beat_line(beat: BeatView) -> Seq<char> {
    if beat.speaker is Some && !text::blank(beat.speaker->0) {
        text::replaced(cleaned(text::trim_of(beat.speaker->0)), ':', '：') + ":"@ + cleaned(beat.text)
            + ";"@
    } else {
        ":"@ + cleaned(beat.text) + ";"@
    }
}

fn narration(text_value: &str) -> (r: String)
    ensures
        r@ == ":"@ + text_value@ + ";"@,
{
    let mut s = text::copy(":");
    s.append(text_value);
    s.append(";");
    s
}

pub fn compile_beat(beat: &DialogueBeat) -> (r: String)
    ensures
        r@ == beat_line(beat@),
{
    let line = clean(beat.text.as_str());
    match &beat.speaker {
        Some(speaker) => {
            let trimmed = text::trim(speaker.as_str());
            if trimmed.as_str().is_empty() {
                narration(line.as_str())
            } else {
                let cleaned_name = clean(trimmed.as_str());
                let mut s = text::replace_char(cleaned_name.as_str(), ':', '：');
                s.append(":");
                s.append(line.as_str());
                s.append(";");
                s
            }
        },
        None => narration(line.as_str()),
    }
}

/// The task that draws a character in an emotion: the last one.
pub open spec fn target_of(tasks: Seq<TaskPlanView>, pair: (Seq<char>, Seq<char>)) -> Option<
    Seq<char>,
>
    decreases tasks.len(),
{
    if tasks.len() == 0 {
        None
    } else if asset_planner::draws(tasks.last(), pair) {
        Some(tasks.last().id)
    } else {
        target_of(tasks.drop_last(), pair)
    }
}

pub open spec fn position_word(p: FigureStagePosition) -> Seq<char> {
    match p {
        FigureStagePosition::Left => "left"@,
        FigureStagePosition::Center => "center"@,
        FigureStagePosition::Right => "right"@,
    }
}

/// The command that shows a figure once it is drawn.
pub open spec fn show_command(character: Seq<char>, emotion: Seq<char>, position: Seq<char>) -> Seq<
    char,
> {
    "changeFigure:none -id="@ + character + " -figureCharacter="@ + character + " -figureEmotion="@
        + emotion + " -"@ + position + ";"@
}

/// The lines of a cue, or why it has none.
pub open spec fn cue_lines(cue: CueView, tasks: Seq<TaskPlanView>) -> Result<
    Seq<Seq<char>>,
    Seq<char>,
> {
    if !story_plan::flag_value(cue.character_id) {
        Err("figure cue has an invalid characterId"@)
    } else if cue.action == FigureCueAction::Hide {
        Ok(seq!["changeFigure:none -id="@ + cue.character_id + ";"@])
    } else if !story_plan::flag_value(cue.emotion) {
        Err("figure cue has an invalid emotion"@)
    } else {
        match target_of(tasks, (cue.character_id, cue.emotion)) {
            None => Err(
                "figure cue references character/emotion without an asset task: "@
                    + cue.character_id + "/"@ + cue.emotion,
            ),
            Some(task) => match cue.position {
                None => Err("show figure cue has no position: "@ + cue.character_id),
                Some(position) => Ok(
                    seq![
                        "; "@ + binder::marker(task),
                        "; "@ + binder::staged_command(
                            show_command(cue.character_id, cue.emotion, position_word(position)),
                        ),
                    ],
                ),
            },
        }
    }
}

fn find_target(tasks: &[AssetTaskPlan], character: &str, emotion: &str) -> (r: Option<String>)
    ensures
        story_plan::opt_text(r) == target_of(
            story_plan::task_views(tasks@),
            (character@, emotion@),
        ),
{
    let ghost all = story_plan::task_views(tasks@);
    let ghost pair = (character@, emotion@);
    let mut i: usize = tasks.len();
    assert(all.take(i as int) =~= all);
    while i > 0
        invariant
            i <= tasks.len(),
            all == story_plan::task_views(tasks@),
            pair == (character@, emotion@),
            target_of(all, pair) == target_of(all.take(i as int), pair),
        decreases i,
    {
        let k: usize = i - 1;
        proof {
            assert(all.take(i as int).drop_last() =~= all.take(k as int));
            assert(all.take(i as int).last() == tasks@[k as int]@);
        }
        if text::same(tasks[k].kind.as_str(), "figure") && story_plan::opt_is(
            &tasks[k].character_ref,
            character,
        ) && story_plan::opt_is(&tasks[k].emotion, emotion) {
            return Some(tasks[k].id.clone());
        }
        i = k;
    }
    None
}

fn make_show_command(character: &str, emotion: &str, position: &str) -> (r: String)
    ensures
        r@ == show_command(character@, emotion@, position@),
{
    let mut s = text::copy("changeFigure:none -id=");
    s.append(character);
    s.append(" -figureCharacter=");
    s.append(character);
    s.append(" -figureEmotion=");
    s.append(emotion);
    s.append(" -");
    s.append(position);
    s.append(";");
    s
}

pub fn compile_figure_cue(cue: &FigureCue, tasks: &[AssetTaskPlan]) -> (r: Result<
    Vec<String>,
    AgentError,
>)
    ensures
        match (r, cue_lines(cue@, story_plan::task_views(tasks@))) {
            (Ok(lines), Ok(expected)) => text::texts(lines@) == expected,
            (Err(e), Err(m)) => e.0@ == m,
            _ => false,
        },
{
    if !story_plan::is_webgal_flag_value(cue.character_id.as_str()) {
        return Err(AgentError(text::copy("figure cue has an invalid characterId")));
    }
    if cue.action == FigureCueAction::Hide {
        let mut s = text::copy("changeFigure:none -id=");
        s.append(cue.character_id.as_str());
        s.append(";");
        let mut lines: Vec<String> = Vec::new();
        lines.push(s);
        assert(text::texts(lines@) =~= seq![s@]);
        return Ok(lines);
    }
    if !story_plan::is_webgal_flag_value(cue.emotion.as_str()) {
        return Err(AgentError(text::copy("figure cue has an invalid emotion")));
    }
    let task = match find_target(tasks, cue.character_id.as_str(), cue.emotion.as_str()) {
        Some(task) => task,
        None => {
            let mut s = text::copy(
                "figure cue references character/emotion without an asset task: ",
            );
            s.append(cue.character_id.as_str());
            s.append("/");
            s.append(cue.emotion.as_str());
            return Err(AgentError(s));
        },
    };
    let position = match cue.position {
        Some(FigureStagePosition::Left) => "left",
        Some(FigureStagePosition::Center) => "center",
        Some(FigureStagePosition::Right) => "right",
        None => {
            return Err(
                AgentError(
                    router::joined("show figure cue has no position: ", cue.character_id.as_str()),
                ),
            );
        },
    };
    let marker = binder::task_marker(task.as_str());
    let command = make_show_command(cue.character_id.as_str(), cue.emotion.as_str(), position);
    let staged = binder::staged_figure_command(command.as_str());
    let first = router::joined("; ", marker.as_str());
    let second = router::joined("; ", staged.as_str());
    let mut lines: Vec<String> = Vec::new();
    lines.push(first);
    lines.push(second);
    assert(text::texts(lines@) =~= seq![first@, second@]);
    Ok(lines)
}

// ---------------------------------------------------------------------------
// Scripts
// ---------------------------------------------------------------------------

pub open spec fn script_name_char(c: char) -> bool {
    text::alphanumeric(c) || c == '_' || c == '-'
}

/// A scene file name: a stem of letters, digits, `_` and `-`, then `.txt`.
pub open spec fn script_name(name: Seq<char>) -> bool {
    text::ends(name, ".txt"@) && name.len() > 4 && forall|i: int|
        0 <= i < name.len() - 4 ==> script_name_char(#[trigger] name[i])
}

/// A line that is a comment or a finished command.
pub open spec fn finished(line: Seq<char>) -> bool {
    text::begins(line, ";"@) || text::ends(line, ";"@)
}

pub open spec fn all_finished(lines: Seq<Seq<char>>) -> bool {
    forall|i: int| 0 <= i < lines.len() ==> finished(#[trigger] lines[i])
}

/// What is wrong with a script, if anything is.
pub open spec fn script_fault(name: Seq<char>, content: Seq<char>) -> Option<Seq<char>> {
    if !script_name(name) {
        Some("invalid WebGAL scene file name: "@ + name)
    } else if !all_finished(text::lines_of(content)) {
        Some("scene "@ + name + " contains an unterminated WebGAL command"@)
    } else {
        None
    }
}

fn is_script_name(name: &str) -> (r: bool)
    ensures
        r == script_name(name@),
{
    proof {
        reveal_strlit(".txt");
    }
    if !text::ends_with(name, ".txt") {
        return false;
    }
    let v = text::chars_of(name);
    if v.len() <= 4 {
        return false;
    }
    let mut i: usize = 0;
    while i < v.len() - 4
        invariant
            4 < v.len(),
            i <= v.len() - 4,
            v@ == name@,
            forall|j: int| 0 <= j < i ==> script_name_char(#[trigger] name@[j]),
        decreases v.len() - i,
    {
        if !(text::is_alphanumeric(v[i]) || v[i] == '_' || v[i] == '-') {
            assert(!script_name_char(name@[i as int]));
            return false;
        }
        i += 1;
    }
    true
}

/// Holds a script to its contract.
pub fn validate_script(name: &str, content: &str) -> (r: Result<(), AgentError>)
    ensures
        match (r, script_fault(name@, content@)) {
            (Ok(_), None) => true,
            (Err(e), Some(m)) => e.0@ == m,
            _ => false,
        },
{
    if !is_script_name(name) {
        return Err(AgentError(router::joined("invalid WebGAL scene file name: ", name)));
    }
    let lines = text::lines(content);
    let ghost all = text::texts(lines@);
    let mut i: usize = 0;
    while i < lines.len()
        invariant
            i <= lines.len(),
            all == text::texts(lines@),
            all == text::lines_of(content@),
            script_name(name@),
            forall|j: int| 0 <= j < i ==> finished(#[trigger] all[j]),
        decreases lines.len() - i,
    {
        assert(all[i as int] == lines@[i as int]@);
        if !text::starts_with(lines[i].as_str(), ";") && !text::ends_with(lines[i].as_str(), ";") {
            assert(!finished(all[i as int]));
            let mut s = text::copy("scene ");
            s.append(name);
            s.append(" contains an unterminated WebGAL command");
            return Err(AgentError(s));
        }
        i += 1;
    }
    Ok(())
}

/// The lines of a list of cues, or why they have none.
pub open spec fn cues_lines(cues: Seq<CueView>, tasks: Seq<TaskPlanView>) -> Result<
    Seq<Seq<char>>,
    Seq<char>,
>
    decreases cues.len(),
{
    if cues.len() == 0 {
        Ok(Seq::empty())
    } else {
        match cues_lines(cues.drop_last(), tasks) {
            Err(m) => Err(m),
            Ok(before) => match cue_lines(cues.last(), tasks) {
                Err(m) => Err(m),
                Ok(lines) => Ok(before + lines),
            },
        }
    }
}

/// The lines of a list of beats: each beat's cues, then the beat itself.
pub open spec fn beats_lines(beats: Seq<BeatView>, tasks: Seq<TaskPlanView>) -> Result<
    Seq<Seq<char>>,
    Seq<char>,
>
    decreases beats.len(),
{
    if beats.len() == 0 {
        Ok(Seq::empty())
    } else {
        match beats_lines(beats.drop_last(), tasks) {
            Err(m) => Err(m),
            Ok(before) => match cues_lines(beats.last().figure_cues, tasks) {
                Err(m) => Err(m),
                Ok(lines) => Ok((before + lines).push(beat_line(beats.last()))),
            },
        }
    }
}

/// The file of the scene with this id: that of the last scene card.
pub open spec fn file_of(scenes: Seq<SceneView>, id: Seq<char>) -> Seq<char>
    decreases scenes.len(),
{
    if scenes.len() == 0 {
        Seq::empty()
    } else if scenes.last().id == id {
        scenes.last().file
    } else {
        file_of(scenes.drop_last(), id)
    }
}

/// The edges that leave a scene, in order.
pub open spec fn outgoing(edges: Seq<EdgeView>, id: Seq<char>) -> Seq<EdgeView>
    decreases edges.len(),
{
    if edges.len() == 0 {
        Seq::empty()
    } else if edges.last().from == id {
        outgoing(edges.drop_last(), id).push(edges.last())
    } else {
        outgoing(edges.drop_last(), id)
    }
}

/// One option of a choice: its label, then the file that it leads to.
pub open spec fn choice_option(edge: EdgeView, scenes: Seq<SceneView>) -> Seq<char> {
    cleaned_choice(
        match edge.choice {
            Some(c) => c,
            None => "继续"@,
        },
    ) + ":"@ + file_of(scenes, edge.to)
}

/// The command that ends a scene: a choice, a change of scene, or the end.
pub open spec fn ending_line(scenes: Seq<SceneView>, edges: Seq<EdgeView>, id: Seq<char>) -> Seq<
    char,
> {
    let out = outgoing(edges, id);
    if out.len() > 1 || (out.len() == 1 && out[0].choice is Some) {
        "choose:"@ + text::join_with(
            out.map_values(|e: EdgeView| choice_option(e, scenes)),
            "|"@,
        ) + ";"@
    } else if out.len() == 1 {
        "changeScene:"@ + file_of(scenes, out[0].to) + ";"@
    } else {
        "end;"@
    }
}

/// The lines before the first beat.
pub open spec fn heading(scene: SceneView, staged: bool, planned: nat) -> Seq<Seq<char>> {
    let lines = seq![
        "; Ollaic Agent scene: "@ + cleaned(scene.title),
        "; Planned assets in this production: "@ + text::decimal(planned),
        "intro:"@ + cleaned(scene.title) + ";"@,
    ];
    if staged {
        lines.push("; Ollaic Scene Staging"@)
    } else {
        lines
    }
}

/// The script of a scene, or why it has none.
pub open spec fn scene_script(
    scene: SceneView,
    scenes: Seq<SceneView>,
    drafts: Seq<DraftView>,
    edges: Seq<EdgeView>,
    tasks: Seq<TaskPlanView>,
) -> Result<Seq<char>, Seq<char>> {
    match draft_of(drafts, scene.id) {
        None => Err("SceneScript is missing draft for scene "@ + scene.id),
        Some(draft) => match beats_lines(draft.beats, tasks) {
            Err(m) => Err(m),
            Ok(lines) => {
                let content = text::join_with(
                    (heading(scene, draft.stage_managed, tasks.len()) + lines).push(
                        ending_line(scenes, edges, scene.id),
                    ),
                    "\n"@,
                ) + "\n"@;
                match script_fault(scene.file, content) {
                    Some(m) => Err(m),
                    None => Ok(content),
                }
            },
        },
    }
}

/// The scripts of the first `n` scenes, in order, or why there are none.
pub open spec fn scripts_upto(
    n: int,
    scenes: Seq<SceneView>,
    drafts: Seq<DraftView>,
    edges: Seq<EdgeView>,
    tasks: Seq<TaskPlanView>,
) -> Result<Seq<(Seq<char>, Seq<char>)>, Seq<char>>
    decreases n,
{
    if n <= 0 {
        Ok(Seq::empty())
    } else {
        match scripts_upto(n - 1, scenes, drafts, edges, tasks) {
            Err(m) => Err(m),
            Ok(before) => match scene_script(scenes[n - 1], scenes, drafts, edges, tasks) {
                Err(m) => Err(m),
                Ok(content) => Ok(before.push((scenes[n - 1].file, content))),
            },
        }
    }
}

/// The models of a list of scripts.
pub open spec fn script_views(v: Seq<SceneScript>) -> Seq<(Seq<char>, Seq<char>)> {
    v.map_values(|s: SceneScript| (s.name@, s.content@))
}

fn push_all(lines: &mut Vec<String>, more: Vec<String>)
    ensures
        text::texts(final(lines)@) == text::texts(old(lines)@) + text::texts(more@),
{
    let mut more = more;
    let ghost a = text::texts(lines@);
    let ghost b = text::texts(more@);
    lines.append(&mut more);
    assert(text::texts(lines@) =~= a + b);
}

fn push_cues(lines: &mut Vec<String>, cues: &Vec<FigureCue>, tasks: &[AssetTaskPlan]) -> (r: Result<
    (),
    AgentError,
>)
    ensures
        match (
            r,
            cues_lines(cues@.map_values(|c: FigureCue| c@), story_plan::task_views(tasks@)),
        ) {
            (Ok(_), Ok(expected)) => text::texts(final(lines)@) == text::texts(old(lines)@)
                + expected,
            (Err(e), Err(m)) => e.0@ == m,
            _ => false,
        },
{
    let ghost start = text::texts(lines@);
    let ghost all = cues@.map_values(|c: FigureCue| c@);
    let ghost ts = story_plan::task_views(tasks@);
    let mut i: usize = 0;
    assert(all.take(0) =~= Seq::<CueView>::empty());
    while i < cues.len()
        invariant
            i <= cues.len(),
            all == cues@.map_values(|c: FigureCue| c@),
            ts == story_plan::task_views(tasks@),
            cues_lines(all.take(i as int), ts) matches Ok(expected) && text::texts(lines@) =~= start
                + expected,
        decreases cues.len() - i,
    {
        proof {
            assert(all.take(i + 1).drop_last() =~= all.take(i as int));
            assert(all.take(i + 1).last() == cues@[i as int]@);
        }
        match compile_figure_cue(&cues[i], tasks) {
            Ok(more) => {
                push_all(lines, more);
            },
            Err(error) => {
                proof {
                    lemma_cues_error(all, ts, i + 1);
                }
                return Err(error);
            },
        }
        i += 1;
    }
    assert(all.take(all.len() as int) =~= all);
    Ok(())
}

proof fn lemma_cues_error(cues: Seq<CueView>, tasks: Seq<TaskPlanView>, k: int)
    requires
        0 <= k <= cues.len(),
        cues_lines(cues.take(k), tasks) is Err,
    ensures
        cues_lines(cues, tasks) == cues_lines(cues.take(k), tasks),
    decreases cues.len() - k,
{
    if k == cues.len() {
        assert(cues.take(k) =~= cues);
    } else {
        assert(cues.take(k + 1).drop_last() =~= cues.take(k));
        lemma_cues_error(cues, tasks, k + 1);
    }
}

proof fn lemma_beats_error(beats: Seq<BeatView>, tasks: Seq<TaskPlanView>, k: int)
    requires
        0 <= k <= beats.len(),
        beats_lines(beats.take(k), tasks) is Err,
    ensures
        beats_lines(beats, tasks) == beats_lines(beats.take(k), tasks),
    decreases beats.len() - k,
{
    if k == beats.len() {
        assert(beats.take(k) =~= beats);
    } else {
        assert(beats.take(k + 1).drop_last() =~= beats.take(k));
        lemma_beats_error(beats, tasks, k + 1);
    }
}

fn push_beats(
    lines: &mut Vec<String>,
    beats: &Vec<DialogueBeat>,
    tasks: &[AssetTaskPlan],
) -> (r: Result<(), AgentError>)
    ensures
        match (
            r,
            beats_lines(beats@.map_values(|b: DialogueBeat| b@), story_plan::task_views(tasks@)),
        ) {
            (Ok(_), Ok(expected)) => text::texts(final(lines)@) == text::texts(old(lines)@)
                + expected,
            (Err(e), Err(m)) => e.0@ == m,
            _ => false,
        },
{
    let ghost start = text::texts(lines@);
    let ghost all = beats@.map_values(|b: DialogueBeat| b@);
    let ghost ts = story_plan::task_views(tasks@);
    let mut i: usize = 0;
    assert(all.take(0) =~= Seq::<BeatView>::empty());
    while i < beats.len()
        invariant
            i <= beats.len(),
            all == beats@.map_values(|b: DialogueBeat| b@),
            ts == story_plan::task_views(tasks@),
            beats_lines(all.take(i as int), ts) matches Ok(expected) && text::texts(lines@)
                =~= start + expected,
        decreases beats.len() - i,
    {
        proof {
            assert(all.take(i + 1).drop_last() =~= all.take(i as int));
            assert(all.take(i + 1).last() == beats@[i as int]@);
        }
        if let Err(error) = push_cues(lines, &beats[i].figure_cues, tasks) {
            proof {
                lemma_beats_error(all, ts, i + 1);
            }
            return Err(error);
        }
        let ghost before = text::texts(lines@);
        let line = compile_beat(&beats[i]);
        lines.push(line);
        assert(text::texts(lines@) =~= before.push(line@));
        i += 1;
    }
    assert(all.take(all.len() as int) =~= all);
    Ok(())
}

fn find_file(scenes: &[ScenePlan], id: &str) -> (r: String)
    ensures
        r@ == file_of(story_plan::scene_views(scenes@), id@),
{
    let ghost all = story_plan::scene_views(scenes@);
    let mut i: usize = scenes.len();
    assert(all.take(i as int) =~= all);
    while i > 0
        invariant
            i <= scenes.len(),
            all == story_plan::scene_views(scenes@),
            file_of(all, id@) == file_of(all.take(i as int), id@),
        decreases i,
    {
        let k: usize = i - 1;
        proof {
            assert(all.take(i as int).drop_last() =~= all.take(k as int));
            assert(all.take(i as int).last() == scenes@[k as int]@);
        }
        if text::same(scenes[k].id.as_str(), id) {
            return scenes[k].file.clone();
        }
        i = k;
    }
    let r = String::new();
    assert(r@ =~= Seq::<char>::empty());
    r
}

/// The edges that leave a scene: their options, whether the first has a choice
/// of its own, and where the first leads.
fn make_ending(scenes: &[ScenePlan], edges: &Vec<BranchEdge>, id: &str) -> (r: String)
    ensures
        r@ == ending_line(
            story_plan::scene_views(scenes@),
            edges@.map_values(|e: BranchEdge| e@),
            id@,
        ),
{
    let ghost ss = story_plan::scene_views(scenes@);
    let ghost all = edges@.map_values(|e: BranchEdge| e@);
    let mut options: Vec<String> = Vec::new();
    let mut first_target = String::new();
    let mut any_choice = false;
    let mut i: usize = 0;
    assert(all.take(0) =~= Seq::<EdgeView>::empty());
    while i < edges.len()
        invariant
            i <= edges.len(),
            ss == story_plan::scene_views(scenes@),
            all == edges@.map_values(|e: BranchEdge| e@),
            text::texts(options@) =~= outgoing(all.take(i as int), id@).map_values(
                |e: EdgeView| choice_option(e, ss),
            ),
            options.len() == 1 ==> first_target@ == file_of(
                ss,
                outgoing(all.take(i as int), id@)[0].to,
            ) && any_choice == (outgoing(all.take(i as int), id@)[0].choice is Some),
            options.len() == 0 ==> !any_choice,
        decreases edges.len() - i,
    {
        let ghost before = outgoing(all.take(i as int), id@);
        proof {
            assert(all.take(i + 1).drop_last() =~= all.take(i as int));
            assert(all.take(i + 1).last() == edges@[i as int]@);
        }
        if text::same(edges[i].from.as_str(), id) {
            let ghost edge = edges@[i as int]@;
            let file = find_file(scenes, edges[i].to.as_str());
            let mut option = match &edges[i].choice {
                Some(choice) => {
                    any_choice = true;
                    clean_choice(choice.as_str())
                },
                None => clean_choice("继续"),
            };
            option.append(":");
            option.append(file.as_str());
            let ghost texts_before = text::texts(options@);
            if options.len() == 0 {
                first_target = file;
            }
            options.push(option);
            proof {
                assert(text::texts(options@) =~= texts_before.push(option@));
                assert(option@ == choice_option(edge, ss));
                assert(outgoing(all.take(i + 1), id@) == before.push(edge));
                assert(before.push(edge).map_values(|e: EdgeView| choice_option(e, ss))
                    =~= before.map_values(|e: EdgeView| choice_option(e, ss)).push(option@));
                if options@.len() == 1 {
                    assert(before.len() == 0);
                    assert(before.push(edge)[0] == edge);
                }
            }
        }
        i += 1;
    }
    assert(all.take(all.len() as int) =~= all);
    if options.len() > 1 || (options.len() == 1 && any_choice) {
        let joined = text::join(&options, "|");
        let mut s = text::copy("choose:");
        s.append(joined.as_str());
        s.append(";");
        s
    } else if options.len() == 1 {
        let mut s = text::copy("changeScene:");
        s.append(first_target.as_str());
        s.append(";");
        s
    } else {
        text::copy("end;")
    }
}

fn make_heading(scene: &ScenePlan, staged: bool, planned: usize) -> (r: Vec<String>)
    ensures
        text::texts(r@) == heading(scene@, staged, planned as nat),
{
    let title = clean(scene.title.as_str());
    let first = router::joined("; Ollaic Agent scene: ", title.as_str());
    let count = text::decimal_of(planned as u128);
    let second = router::joined("; Planned assets in this production: ", count.as_str());
    let mut third = text::copy("intro:");
    third.append(title.as_str());
    third.append(";");
    let mut lines: Vec<String> = Vec::new();
    lines.push(first);
    lines.push(second);
    lines.push(third);
    if staged {
        lines.push(text::copy("; Ollaic Scene Staging"));
    }
    assert(text::texts(lines@) =~= heading(scene@, staged, planned as nat));
    lines
}

fn make_script(
    scene: &ScenePlan,
    scenes: &[ScenePlan],
    drafts: &[SceneDraft],
    edges: &Vec<BranchEdge>,
    tasks: &[AssetTaskPlan],
) -> (r: Result<String, AgentError>)
    ensures
        match (
            r,
            scene_script(
                scene@,
                story_plan::scene_views(scenes@),
                story_plan::draft_views(drafts@),
                edges@.map_values(|e: BranchEdge| e@),
                story_plan::task_views(tasks@),
            ),
        ) {
            (Ok(content), Ok(expected)) => content@ == expected,
            (Err(e), Err(m)) => e.0@ == m,
            _ => false,
        },
{
    let d = find_draft(drafts, scene.id.as_str());
    if d == drafts.len() {
        return Err(
            AgentError(
                router::joined("SceneScript is missing draft for scene ", scene.id.as_str()),
            ),
        );
    }
    let mut lines = make_heading(scene, drafts[d].stage_managed, tasks.len());
    if let Err(error) = push_beats(&mut lines, &drafts[d].beats, tasks) {
        return Err(error);
    }
    let ending = make_ending(scenes, edges, scene.id.as_str());
    let ghost before = text::texts(lines@);
    lines.push(ending);
    assert(text::texts(lines@) =~= before.push(ending@));
    let mut content = text::join(&lines, "\n");
    content.append("\n");
    match validate_script(scene.file.as_str(), content.as_str()) {
        Ok(_) => Ok(content),
        Err(error) => Err(error),
    }
}

proof fn lemma_scripts_error(
    k: int,
    n: int,
    scenes: Seq<SceneView>,
    drafts: Seq<DraftView>,
    edges: Seq<EdgeView>,
    tasks: Seq<TaskPlanView>,
)
    requires
        0 <= k <= n,
        scripts_upto(k, scenes, drafts, edges, tasks) is Err,
    ensures
        scripts_upto(n, scenes, drafts, edges, tasks) == scripts_upto(
            k,
            scenes,
            drafts,
            edges,
            tasks,
        ),
    decreases n - k,
{
    if k < n {
        lemma_scripts_error(k + 1, n, scenes, drafts, edges, tasks);
    }
}

impl SceneAgent {
    /// Compiles every scene, in the order of the scene cards.
    pub fn run(&self, ctx: &AgentContext) -> (r: Result<AgentOutput, AgentError>)
        ensures
            ({
                let scenes = story_plan::scene_views(ctx.scene_plans@);
                let drafts = story_plan::draft_views(ctx.scene_drafts@);
                let cards = characters::character_views(ctx.characters@);
                let tasks = story_plan::task_views(ctx.asset_plan@);
                match inputs_fault(scenes, drafts, ctx.branches@, cards, tasks) {
                    Some(m) => r matches Err(e) && e.0@ == m,
                    None => match (
                        r,
                        scripts_upto(
                            scenes.len() as int,
                            scenes,
                            drafts,
                            ctx.branches@.edges,
                            tasks,
                        ),
                    ) {
                        (Ok(out), Ok(expected)) => crate::agents::bare(out) && (
                        out.payload matches AgentOutputPayload::Scenes(scripts) && script_views(
                            scripts@,
                        ) == expected),
                        (Err(e), Err(m)) => e.0@ == m,
                        _ => false,
                    },
                }
            }),
    {
        let ghost scenes = story_plan::scene_views(ctx.scene_plans@);
        let ghost drafts = story_plan::draft_views(ctx.scene_drafts@);
        let ghost tasks = story_plan::task_views(ctx.asset_plan@);
        let ghost edges = ctx.branches@.edges;
        if let Err(error) = validate_scene_inputs(
            ctx.scene_plans,
            ctx.scene_drafts,
            ctx.branches,
            ctx.characters,
            ctx.asset_plan,
        ) {
            return Err(error);
        }
        let mut scripts: Vec<SceneScript> = Vec::new();
        let mut i: usize = 0;
        assert(script_views(scripts@) =~= Seq::<(Seq<char>, Seq<char>)>::empty());
        while i < ctx.scene_plans.len()
            invariant
                i <= ctx.scene_plans.len(),
                scenes == story_plan::scene_views(ctx.scene_plans@),
                drafts == story_plan::draft_views(ctx.scene_drafts@),
                tasks == story_plan::task_views(ctx.asset_plan@),
                edges == ctx.branches@.edges,
                inputs_fault(
                    scenes,
                    drafts,
                    ctx.branches@,
                    characters::character_views(ctx.characters@),
                    tasks,
                ) is None,
                scripts_upto(i as int, scenes, drafts, edges, tasks) matches Ok(expected)
                    && script_views(scripts@) == expected,
            decreases ctx.scene_plans.len() - i,
        {
            assert(scenes[i as int] == ctx.scene_plans@[i as int]@);
            match make_script(
                &ctx.scene_plans[i],
                ctx.scene_plans,
                ctx.scene_drafts,
                &ctx.branches.edges,
                ctx.asset_plan,
            ) {
                Ok(content) => {
                    let ghost before = script_views(scripts@);
                    let script = SceneScript { name: ctx.scene_plans[i].file.clone(), content };
                    scripts.push(script);
                    assert(script_views(scripts@) =~= before.push((script.name@, script.content@)));
                },
                Err(error) => {
                    proof {
                        lemma_scripts_error(
                            i + 1,
                            scenes.len() as int,
                            scenes,
                            drafts,
                            edges,
                            tasks,
                        );
                    }
                    return Err(error);
                },
            }
            i += 1;
        }
        Ok(AgentOutput::new(AgentOutputPayload::Scenes(scripts)))
    }
}

// ---------------------------------------------------------------------------
// Sound inputs compile
// ---------------------------------------------------------------------------

/// A line of a script: no line break in it, and finished.
pub open spec fn script_line(line: Seq<char>) -> bool {
    text::one_line(line) && finished(line)
}

pub open spec fn script_lines(lines: Seq<Seq<char>>) -> bool {
    forall|i: int| 0 <= i < lines.len() ==> script_line(#[trigger] lines[i])
}

proof fn lemma_comment(head: Seq<char>, tail: Seq<char>)
    requires
        head.len() > 0,
        head[0] == ';',
        text::one_line(head),
        text::one_line(tail),
    ensures
        script_line(head + tail),
{
    reveal_strlit(";");
    assert((head + tail).subrange(0, 1) =~= ";"@);
}

proof fn lemma_command(body: Seq<char>)
    requires
        text::one_line(body),
    ensures
        script_line(body + ";"@),
{
    reveal_strlit(";");
    let line = body + ";"@;
    assert(line.subrange(line.len() - 1, line.len() as int) =~= ";"@);
}

proof fn lemma_flag_one_line(s: Seq<char>)
    requires
        story_plan::flag_value(s),
    ensures
        text::one_line(s),
{
    assert forall|i: int| 0 <= i < s.len() implies #[trigger] s[i] != '\n' && s[i] != '\r' by {
        assert(story_plan::flag_char(s[i]));
    }
}

proof fn lemma_beat_line(beat: BeatView)
    ensures
        script_line(beat_line(beat)),
{
    reveal_strlit(":");
    let body = cleaned(beat.text);
    assert(text::one_line(body));
    if beat.speaker is Some && !text::blank(beat.speaker->0) {
        let name = text::replaced(cleaned(text::trim_of(beat.speaker->0)), ':', '：');
        assert(text::one_line(name)) by {
            assert(text::one_line(cleaned(text::trim_of(beat.speaker->0))));
        }
        assert(text::one_line(name + ":"@ + body));
        lemma_command(name + ":"@ + body);
    } else {
        assert(text::one_line(":"@ + body));
        lemma_command(":"@ + body);
    }
}

proof fn lemma_target_flag(tasks: Seq<TaskPlanView>, pair: (Seq<char>, Seq<char>))
    requires
        forall|i: int| 0 <= i < tasks.len() ==> story_plan::flag_value((#[trigger] tasks[i]).id),
    ensures
        target_of(tasks, pair) matches Some(id) ==> story_plan::flag_value(id),
        target_of(tasks, pair) is Some <==> asset_planner::drawn(tasks, pair),
    decreases tasks.len(),
{
    if tasks.len() > 0 {
        let t = tasks.drop_last();
        assert forall|i: int| 0 <= i < t.len() implies story_plan::flag_value(
            (#[trigger] t[i]).id,
        ) by {
            assert(story_plan::flag_value(tasks[i].id));
        }
        lemma_target_flag(t, pair);
        assert(story_plan::flag_value(tasks[tasks.len() - 1].id));
        if asset_planner::draws(tasks.last(), pair) {
            assert(asset_planner::draws(tasks[tasks.len() - 1], pair));
        }
        if asset_planner::drawn(t, pair) {
            let i = choose|i: int| 0 <= i < t.len() && asset_planner::draws(#[trigger] t[i], pair);
            assert(asset_planner::draws(tasks[i], pair));
        }
        if asset_planner::drawn(tasks, pair) && !asset_planner::draws(tasks.last(), pair) {
            let i = choose|i: int|
                0 <= i < tasks.len() && asset_planner::draws(#[trigger] tasks[i], pair);
            assert(asset_planner::draws(t[i], pair));
        }
    }
}

proof fn lemma_cue_lines(
    cue: CueView,
    cast: Seq<Seq<char>>,
    cards: Seq<CharacterView>,
    tasks: Seq<TaskPlanView>,
)
    requires
        cue_sound(cue, cast, cards, tasks),
        forall|i: int| 0 <= i < cards.len() ==> story_plan::flag_value((#[trigger] cards[i]).id),
        forall|i: int| 0 <= i < tasks.len() ==> story_plan::flag_value((#[trigger] tasks[i]).id),
    ensures
        cue_lines(cue, tasks) matches Ok(lines) && script_lines(lines),
{
    let k = choose|k: int| 0 <= k < cards.len() && (#[trigger] cards[k]).id == cue.character_id;
    assert(story_plan::flag_value(cards[k].id));
    lemma_flag_one_line(cue.character_id);
    reveal_strlit("changeFigure:none -id=");
    if cue.action == FigureCueAction::Hide {
        lemma_command("changeFigure:none -id="@ + cue.character_id);
    } else {
        lemma_flag_one_line(cue.emotion);
        let pair = (cue.character_id, cue.emotion);
        lemma_target_flag(tasks, pair);
        let task = target_of(tasks, pair)->0;
        lemma_flag_one_line(task);
        reveal_strlit("; ");
        reveal_strlit("ollaic-asset-task:");
        reveal_strlit("ollaic-figure-staging:");
        reveal_strlit(" -figureCharacter=");
        reveal_strlit(" -figureEmotion=");
        reveal_strlit(" -");
        reveal_strlit("left");
        reveal_strlit("center");
        reveal_strlit("right");
        reveal_strlit(";");
        let position = position_word(cue.position->0);
        lemma_comment("; "@, binder::marker(task));
        let c = cue.character_id;
        let command = show_command(c, cue.emotion, position);
        assert(text::one_line("changeFigure:none -id="@ + c + " -figureCharacter="@ + c));
        assert(text::one_line(
            "changeFigure:none -id="@ + c + " -figureCharacter="@ + c + " -figureEmotion="@
                + cue.emotion,
        ));
        assert(text::one_line(command));
        lemma_comment("; "@, binder::staged_command(command));
    }
}

proof fn lemma_cues_lines(
    cues: Seq<CueView>,
    cast: Seq<Seq<char>>,
    cards: Seq<CharacterView>,
    tasks: Seq<TaskPlanView>,
)
    requires
        forall|c: int| 0 <= c < cues.len() ==> cue_sound(#[trigger] cues[c], cast, cards, tasks),
        forall|i: int| 0 <= i < cards.len() ==> story_plan::flag_value((#[trigger] cards[i]).id),
        forall|i: int| 0 <= i < tasks.len() ==> story_plan::flag_value((#[trigger] tasks[i]).id),
    ensures
        cues_lines(cues, tasks) matches Ok(lines) && script_lines(lines),
    decreases cues.len(),
{
    if cues.len() > 0 {
        let d = cues.drop_last();
        assert forall|c: int| 0 <= c < d.len() implies cue_sound(
            #[trigger] d[c],
            cast,
            cards,
            tasks,
        ) by {
            assert(cue_sound(cues[c], cast, cards, tasks));
        }
        lemma_cues_lines(d, cast, cards, tasks);
        assert(cue_sound(cues[cues.len() - 1], cast, cards, tasks));
        lemma_cue_lines(cues.last(), cast, cards, tasks);
    }
}

proof fn lemma_beats_lines(
    beats: Seq<BeatView>,
    cast: Seq<Seq<char>>,
    cards: Seq<CharacterView>,
    tasks: Seq<TaskPlanView>,
)
    requires
        forall|b: int| 0 <= b < beats.len() ==> beat_sound(#[trigger] beats[b], cast, cards, tasks),
        forall|i: int| 0 <= i < cards.len() ==> story_plan::flag_value((#[trigger] cards[i]).id),
        forall|i: int| 0 <= i < tasks.len() ==> story_plan::flag_value((#[trigger] tasks[i]).id),
    ensures
        beats_lines(beats, tasks) matches Ok(lines) && script_lines(lines),
    decreases beats.len(),
{
    if beats.len() > 0 {
        let d = beats.drop_last();
        assert forall|b: int| 0 <= b < d.len() implies beat_sound(
            #[trigger] d[b],
            cast,
            cards,
            tasks,
        ) by {
            assert(beat_sound(beats[b], cast, cards, tasks));
        }
        lemma_beats_lines(d, cast, cards, tasks);
        assert(beat_sound(beats[beats.len() - 1], cast, cards, tasks));
        lemma_cues_lines(beats.last().figure_cues, cast, cards, tasks);
        lemma_beat_line(beats.last());
    }
}

proof fn lemma_file_one_line(scenes: Seq<SceneView>, id: Seq<char>)
    requires
        forall|i: int| 0 <= i < scenes.len() ==> text::one_line((#[trigger] scenes[i]).file),
    ensures
        text::one_line(file_of(scenes, id)),
    decreases scenes.len(),
{
    if scenes.len() > 0 {
        let d = scenes.drop_last();
        assert forall|i: int| 0 <= i < d.len() implies text::one_line((#[trigger] d[i]).file) by {
            assert(text::one_line(scenes[i].file));
        }
        lemma_file_one_line(d, id);
        assert(text::one_line(scenes[scenes.len() - 1].file));
    }
}

proof fn lemma_ending_line(scenes: Seq<SceneView>, edges: Seq<EdgeView>, id: Seq<char>)
    requires
        forall|i: int| 0 <= i < scenes.len() ==> text::one_line((#[trigger] scenes[i]).file),
    ensures
        script_line(ending_line(scenes, edges, id)),
{
    let out = outgoing(edges, id);
    reveal_strlit("choose:");
    reveal_strlit("changeScene:");
    reveal_strlit("end;");
    reveal_strlit("end");
    reveal_strlit(";");
    reveal_strlit(":");
    reveal_strlit("|");
    if out.len() > 1 || (out.len() == 1 && out[0].choice is Some) {
        let options = out.map_values(|e: EdgeView| choice_option(e, scenes));
        assert forall|i: int| 0 <= i < options.len() implies text::one_line(#[trigger] options[i]) by {
            let e = out[i];
            let label = match e.choice {
                Some(c) => c,
                None => "继续"@,
            };
            lemma_file_one_line(scenes, e.to);
            assert(text::one_line(cleaned(label)));
            assert(text::one_line(cleaned_choice(label)));
        }
        text::lemma_join_one_line(options, "|"@);
        lemma_command("choose:"@ + text::join_with(options, "|"@));
    } else if out.len() == 1 {
        lemma_file_one_line(scenes, out[0].to);
        lemma_command("changeScene:"@ + file_of(scenes, out[0].to));
    } else {
        lemma_command("end"@);
        assert("end"@ + ";"@ =~= "end;"@);
    }
}

proof fn lemma_heading(scene: SceneView, staged: bool, planned: nat)
    ensures
        script_lines(heading(scene, staged, planned)),
{
    reveal_strlit("; Ollaic Agent scene: ");
    reveal_strlit("; Planned assets in this production: ");
    reveal_strlit("intro:");
    reveal_strlit("; Ollaic Scene Staging");
    let title = cleaned(scene.title);
    assert(text::one_line(title));
    text::lemma_decimal_one_line(planned);
    lemma_comment("; Ollaic Agent scene: "@, title);
    lemma_comment("; Planned assets in this production: "@, text::decimal(planned));
    lemma_command("intro:"@ + title);
    lemma_comment("; Ollaic Scene Staging"@, Seq::empty());
    assert("; Ollaic Scene Staging"@ + Seq::<char>::empty() =~= "; Ollaic Scene Staging"@);
}

proof fn lemma_draft_of(drafts: Seq<DraftView>, id: Seq<char>)
    ensures
        draft_of(drafts, id) is Some <==> drafted(drafts, id),
        draft_of(drafts, id) matches Some(d) ==> d.scene_id == id && exists|k: int|
            0 <= k < drafts.len() && #[trigger] drafts[k] == d,
    decreases drafts.len(),
{
    if drafts.len() > 0 {
        let t = drafts.drop_last();
        lemma_draft_of(t, id);
        if drafts.last().scene_id == id {
            assert(drafts[drafts.len() - 1].scene_id == id);
        } else {
            if drafted(drafts, id) {
                let k = choose|k: int|
                    0 <= k < drafts.len() && (#[trigger] drafts[k]).scene_id == id;
                assert(t[k].scene_id == id);
            }
            if drafted(t, id) {
                let k = choose|k: int| 0 <= k < t.len() && (#[trigger] t[k]).scene_id == id;
                assert(drafts[k].scene_id == id);
            }
            if draft_of(t, id) is Some {
                let k = choose|k: int| 0 <= k < t.len() && #[trigger] t[k] == draft_of(t, id)->0;
                assert(drafts[k] == draft_of(t, id)->0);
            }
        }
    }
}

proof fn lemma_name_one_line(name: Seq<char>)
    requires
        script_name(name),
    ensures
        text::one_line(name),
{
    reveal_strlit(".txt");
    assert forall|i: int| 0 <= i < name.len() implies #[trigger] name[i] != '\n' && name[i]
        != '\r' by {
        if i < name.len() - 4 {
            assert(script_name_char(name[i]));
        } else {
            let end = name.subrange(name.len() - 4, name.len() as int);
            assert(end[i - (name.len() - 4)] == name[i]);
        }
    }
}

/// Sound inputs compile. Where the inputs keep their contract, the scene files
/// are named as scripts are and the ids of cards and tasks are safe, every
/// scene gets its script, and every line of it is finished.
pub proof fn sound_inputs_compile(
    n: int,
    scenes: Seq<SceneView>,
    drafts: Seq<DraftView>,
    branches: BranchView,
    cards: Seq<CharacterView>,
    tasks: Seq<TaskPlanView>,
)
    requires
        0 <= n <= scenes.len(),
        inputs_sound(scenes, drafts, branches, cards, tasks),
        forall|i: int| 0 <= i < scenes.len() ==> script_name((#[trigger] scenes[i]).file),
        forall|i: int| 0 <= i < cards.len() ==> story_plan::flag_value((#[trigger] cards[i]).id),
        forall|i: int| 0 <= i < tasks.len() ==> story_plan::flag_value((#[trigger] tasks[i]).id),
    ensures
        scripts_upto(n, scenes, drafts, branches.edges, tasks) matches Ok(scripts) && scripts.len()
            == n && forall|i: int|
            0 <= i < n ==> (#[trigger] scripts[i]).0 == scenes[i].file && all_finished(
                text::lines_of(scripts[i].1),
            ),
    decreases n,
{
    if n > 0 {
        sound_inputs_compile(n - 1, scenes, drafts, branches, cards, tasks);
        assert forall|i: int| 0 <= i < scenes.len() implies text::one_line(
            (#[trigger] scenes[i]).file,
        ) by {
            lemma_name_one_line(scenes[i].file);
        }
        let scene = scenes[n - 1];
        assert(drafted(drafts, scene.id));
        lemma_draft_of(drafts, scene.id);
        let draft = draft_of(drafts, scene.id)->0;
        let k = choose|k: int| 0 <= k < drafts.len() && #[trigger] drafts[k] == draft;
        assert(draft_sound(drafts[k], scenes, cards, tasks));
        lemma_beats_lines(draft.beats, cast_of(scenes, draft.scene_id), cards, tasks);
        let lines = beats_lines(draft.beats, tasks)->Ok_0;
        lemma_heading(scene, draft.stage_managed, tasks.len());
        lemma_ending_line(scenes, branches.edges, scene.id);
        let all = (heading(scene, draft.stage_managed, tasks.len()) + lines).push(
            ending_line(scenes, branches.edges, scene.id),
        );
        assert forall|i: int| 0 <= i < all.len() implies script_line(#[trigger] all[i]) by {
            let h = heading(scene, draft.stage_managed, tasks.len());
            if i < h.len() {
                assert(script_line(h[i]));
            } else if i < h.len() + lines.len() {
                assert(script_line(lines[i - h.len()]));
            }
        }
        assert forall|i: int| 0 <= i < all.len() implies text::one_line(#[trigger] all[i]) by {
            assert(script_line(all[i]));
        }
        text::lemma_lines_of_joined(all);
        assert forall|i: int| 0 <= i < all.len() implies finished(#[trigger] all[i]) by {
            assert(script_line(all[i]));
        }
        assert(script_name(scenes[n - 1].file));
    }
}

// ---------------------------------------------------------------------------
// What a script holds
// ---------------------------------------------------------------------------

proof fn lemma_file_of(scenes: Seq<SceneView>, id: Seq<char>, t: int)
    requires
        0 <= t < scenes.len(),
        scenes[t].id == id,
        forall|j: int| t < j < scenes.len() ==> (#[trigger] scenes[j]).id != id,
    ensures
        file_of(scenes, id) == scenes[t].file,
    decreases scenes.len(),
{
    if t < scenes.len() - 1 {
        assert(scenes[scenes.len() - 1].id != id);
        let d = scenes.drop_last();
        assert forall|j: int| t < j < d.len() implies (#[trigger] d[j]).id != id by {
            assert(scenes[j].id != id);
        }
        lemma_file_of(d, id, t);
    }
}

/// Whether these are the positions of the edges that leave a scene, in order.
pub open spec fn positions_leaving(edges: Seq<EdgeView>, id: Seq<char>, at: Seq<int>) -> bool {
    &&& forall|k: int| 0 <= k < at.len() ==> 0 <= #[trigger] at[k] < edges.len() && edges[at[k]].from == id
    &&& forall|k: int, l: int| 0 <= k < l < at.len() ==> #[trigger] at[k] < #[trigger] at[l]
    &&& forall|e: int| 0 <= e < edges.len() && (#[trigger] edges[e]).from == id ==> at.contains(e)
}

proof fn lemma_outgoing(edges: Seq<EdgeView>, id: Seq<char>, at: Seq<int>)
    requires
        positions_leaving(edges, id, at),
    ensures
        outgoing(edges, id) == at.map_values(|e: int| edges[e]),
    decreases edges.len(),
{
    if edges.len() == 0 {
        if at.len() > 0 {
            assert(0 <= at[0] < edges.len());
        }
        assert(outgoing(edges, id) =~= at.map_values(|e: int| edges[e]));
    } else {
        let last = edges.len() - 1;
        let d = edges.drop_last();
        if edges[last].from == id {
            let k = choose|k: int| 0 <= k < at.len() && at[k] == last;
            if k < at.len() - 1 {
                assert(at[k] < at[at.len() - 1]);
            }
            let short = at.drop_last();
            assert forall|j: int| 0 <= j < short.len() implies 0 <= #[trigger] short[j] < d.len()
                && d[short[j]].from == id by {
                assert(at[j] < at[at.len() - 1]);
            }
            assert forall|e: int| 0 <= e < d.len() && (#[trigger] d[e]).from == id implies short.contains(
                e,
            ) by {
                assert(edges[e].from == id);
                let j = choose|j: int| 0 <= j < at.len() && at[j] == e;
                assert(short[j] == e);
            }
            assert forall|j: int, l: int| 0 <= j < l < short.len() implies #[trigger] short[j]
                < #[trigger] short[l] by {
                assert(at[j] < at[l]);
            }
            lemma_outgoing(d, id, short);
            assert(outgoing(edges, id) =~= at.map_values(|e: int| edges[e]));
        } else {
            assert forall|j: int| 0 <= j < at.len() implies 0 <= #[trigger] at[j] < d.len()
                && d[at[j]].from == id by {
                assert(edges[at[j]].from == id);
            }
            assert forall|e: int| 0 <= e < d.len() && (#[trigger] d[e]).from == id implies at.contains(
                e,
            ) by {
                assert(edges[e].from == id);
            }
            lemma_outgoing(d, id, at);
            assert(outgoing(edges, id) =~= at.map_values(|e: int| edges[e]));
        }
    }
}

/// The scripts that are handed out, one by one.
proof fn lemma_scripts(
    n: int,
    scenes: Seq<SceneView>,
    drafts: Seq<DraftView>,
    edges: Seq<EdgeView>,
    tasks: Seq<TaskPlanView>,
    i: int,
)
    requires
        0 <= i < n <= scenes.len(),
        scripts_upto(n, scenes, drafts, edges, tasks) is Ok,
    ensures
        scripts_upto(n, scenes, drafts, edges, tasks)->Ok_0.len() == n,
        scripts_upto(n, scenes, drafts, edges, tasks)->Ok_0[i].0 == scenes[i].file,
        scene_script(scenes[i], scenes, drafts, edges, tasks) == Ok::<Seq<char>, Seq<char>>(
            scripts_upto(n, scenes, drafts, edges, tasks)->Ok_0[i].1,
        ),
    decreases n,
{
    reveal_with_fuel(scripts_upto, 2);
    if n > 1 {
        lemma_scripts(n - 1, scenes, drafts, edges, tasks, if i < n - 1 { i } else { 0 });
    }
}

/// Every scene leads on as the branch graph says. Its script ends the story where no
/// edge leaves the scene; a single edge without a choice of its own leads to its scene
/// at once; otherwise there is one option for each edge, in their order, and behind
/// the colon of each stands the file of the scene that its edge leads to.
pub proof fn scripts_lead_where_the_edges_lead(
    scenes: Seq<SceneView>,
    drafts: Seq<DraftView>,
    edges: Seq<EdgeView>,
    tasks: Seq<TaskPlanView>,
    i: int,
    at: Seq<int>,
    to: Seq<int>,
) -> (options: Seq<Seq<char>>)
    requires
        0 <= i < scenes.len(),
        scripts_upto(scenes.len() as int, scenes, drafts, edges, tasks) is Ok,
        forall|k: int|
            0 <= k < at.len() ==> 0 <= #[trigger] at[k] < edges.len() && edges[at[k]].from
                == scenes[i].id,
        forall|k: int, l: int| 0 <= k < l < at.len() ==> #[trigger] at[k] < #[trigger] at[l],
        forall|e: int|
            0 <= e < edges.len() && (#[trigger] edges[e]).from == scenes[i].id ==> at.contains(e),
        to.len() == at.len(),
        forall|k: int|
            0 <= k < to.len() ==> 0 <= #[trigger] to[k] < scenes.len() && scenes[to[k]].id
                == edges[at[k]].to,
        forall|k: int, j: int|
            0 <= k < to.len() && to[k] < j < scenes.len() ==> (#[trigger] scenes[j]).id
                != edges[#[trigger] at[k]].to,
    ensures
        ({
            let script = scripts_upto(scenes.len() as int, scenes, drafts, edges, tasks)->Ok_0[i];
            &&& script.0 == scenes[i].file
            &&& options.len() == at.len()
            &&& forall|k: int|
                0 <= k < at.len() ==> #[trigger] options[k] == cleaned_choice(
                    match edges[at[k]].choice {
                        Some(label) => label,
                        None => "继续"@,
                    },
                ) + ":"@ + scenes[to[k]].file
            &&& if at.len() == 0 {
                text::ends(script.1, "\n"@ + "end;"@ + "\n"@)
            } else if at.len() == 1 && edges[at[0]].choice is None {
                text::ends(script.1, "\n"@ + ("changeScene:"@ + scenes[to[0]].file + ";"@) + "\n"@)
            } else {
                text::ends(
                    script.1,
                    "\n"@ + ("choose:"@ + text::join_with(options, "|"@) + ";"@) + "\n"@,
                )
            }
        }),
{
    let id = scenes[i].id;
    assert(positions_leaving(edges, id, at));
    lemma_outgoing(edges, id, at);
    let out = outgoing(edges, id);
    let options = out.map_values(|e: EdgeView| choice_option(e, scenes));
    assert forall|k: int| 0 <= k < at.len() implies #[trigger] options[k] == cleaned_choice(
        match edges[at[k]].choice {
            Some(label) => label,
            None => "继续"@,
        },
    ) + ":"@ + scenes[to[k]].file by {
        assert(out[k] == edges[at[k]]);
        assert forall|j: int| to[k] < j < scenes.len() implies (#[trigger] scenes[j]).id
            != edges[at[k]].to by {}
        lemma_file_of(scenes, edges[at[k]].to, to[k]);
    }
    if at.len() > 0 {
        assert(out[0] == edges[at[0]]);
        assert forall|j: int| to[0] < j < scenes.len() implies (#[trigger] scenes[j]).id
            != edges[at[0]].to by {}
        lemma_file_of(scenes, edges[at[0]].to, to[0]);
    }
    lemma_scripts(scenes.len() as int, scenes, drafts, edges, tasks, i);
    let draft = draft_of(drafts, id)->0;
    let before = heading(scenes[i], draft.stage_managed, tasks.len()) + beats_lines(
        draft.beats,
        tasks,
    )->Ok_0;
    let ending = ending_line(scenes, edges, id);
    assert(before.push(ending) =~= before + seq![ending]);
    text::joining_puts_one_separator_between(before, seq![ending], "\n"@, ending);
    let script = scripts_upto(scenes.len() as int, scenes, drafts, edges, tasks)->Ok_0[i].1;
    assert(script =~= text::join_with(before, "\n"@) + ("\n"@ + ending + "\n"@));
    text::parts_of_a_text_are_found(
        text::join_with(before, "\n"@),
        "\n"@ + ending + "\n"@,
        Seq::empty(),
        script,
    );
    options
}

/// A script shows the title of its scene and then plays its draft: the last draft of
/// the scene, beat by beat. The lines of a list of beats are those of its first part
/// and then those of the rest, and the lines of one beat are those of its cues, in
/// order, and then what is said.
pub proof fn scripts_play_their_draft_in_order(
    scenes: Seq<SceneView>,
    drafts: Seq<DraftView>,
    edges: Seq<EdgeView>,
    tasks: Seq<TaskPlanView>,
    i: int,
    d: int,
)
    requires
        0 <= i < scenes.len(),
        scripts_upto(scenes.len() as int, scenes, drafts, edges, tasks) is Ok,
        0 <= d < drafts.len(),
        drafts[d].scene_id == scenes[i].id,
        forall|k: int| d < k < drafts.len() ==> (#[trigger] drafts[k]).scene_id != scenes[i].id,
    ensures
        beats_lines(drafts[d].beats, tasks) is Ok,
        ({
            let script = scripts_upto(scenes.len() as int, scenes, drafts, edges, tasks)->Ok_0[i];
            let played = beats_lines(drafts[d].beats, tasks)->Ok_0;
            exists|head: Seq<Seq<char>>, ending: Seq<char>|
                head.len() >= 3 && head[2] == "intro:"@ + cleaned(scenes[i].title) + ";"@
                    && script.1 == #[trigger] text::join_with(
                    (head + played).push(ending),
                    "\n"@,
                ) + "\n"@
        }),
{
    lemma_scripts(scenes.len() as int, scenes, drafts, edges, tasks, i);
    lemma_last_draft(drafts, scenes[i].id, d);
    let head = heading(scenes[i], drafts[d].stage_managed, tasks.len());
    let played = beats_lines(drafts[d].beats, tasks)->Ok_0;
    let ending = ending_line(scenes, edges, scenes[i].id);
    assert(scripts_upto(scenes.len() as int, scenes, drafts, edges, tasks)->Ok_0[i].1
        == text::join_with((head + played).push(ending), "\n"@) + "\n"@);
}

proof fn lemma_last_draft(drafts: Seq<DraftView>, id: Seq<char>, d: int)
    requires
        0 <= d < drafts.len(),
        drafts[d].scene_id == id,
        forall|k: int| d < k < drafts.len() ==> (#[trigger] drafts[k]).scene_id != id,
    ensures
        draft_of(drafts, id) == Some(drafts[d]),
    decreases drafts.len(),
{
    if d < drafts.len() - 1 {
        assert(drafts[drafts.len() - 1].scene_id != id);
        let t = drafts.drop_last();
        assert forall|k: int| d < k < t.len() implies (#[trigger] t[k]).scene_id != id by {
            assert(drafts[k].scene_id != id);
        }
        lemma_last_draft(t, id, d);
    }
}

/// Beats follow one another: the lines of two lists of beats are the lines of the
/// first and then those of the second, and one beat is its cues and then its words.
pub proof fn beats_follow_one_another(
    a: Seq<BeatView>,
    b: Seq<BeatView>,
    beat: BeatView,
    tasks: Seq<TaskPlanView>,
)
    requires
        beats_lines(a, tasks) is Ok,
        beats_lines(b, tasks) is Ok,
        cues_lines(beat.figure_cues, tasks) is Ok,
    ensures
        beats_lines(a + b, tasks) == Ok::<Seq<Seq<char>>, Seq<char>>(
            beats_lines(a, tasks)->Ok_0 + beats_lines(b, tasks)->Ok_0,
        ),
        beats_lines(seq![beat], tasks) == Ok::<Seq<Seq<char>>, Seq<char>>(
            cues_lines(beat.figure_cues, tasks)->Ok_0.push(beat_line(beat)),
        ),
    decreases b.len(),
{
    reveal_with_fuel(beats_lines, 2);
    assert(seq![beat].drop_last() =~= Seq::<BeatView>::empty());
    assert(Seq::<Seq<char>>::empty() + cues_lines(beat.figure_cues, tasks)->Ok_0 =~= cues_lines(
        beat.figure_cues,
        tasks,
    )->Ok_0);
    if b.len() == 0 {
        assert(a + b =~= a);
        assert(beats_lines(a, tasks)->Ok_0 + beats_lines(b, tasks)->Ok_0 =~= beats_lines(
            a,
            tasks,
        )->Ok_0);
    } else {
        assert((a + b).drop_last() =~= a + b.drop_last());
        assert((a + b).last() == b.last());
        beats_follow_one_another(a, b.drop_last(), beat, tasks);
        let x = beats_lines(a, tasks)->Ok_0;
        let y = beats_lines(b.drop_last(), tasks)->Ok_0;
        let c = cues_lines(b.last().figure_cues, tasks)->Ok_0;
        let l = beat_line(b.last());
        assert((x + y + c).push(l) =~= x + (y + c).push(l));
    }
}

/// Cues follow one another: the lines of two lists of cues are the lines of the first
/// and then those of the second, and those of one cue are its own.
pub proof fn cues_follow_one_another(
    a: Seq<CueView>,
    b: Seq<CueView>,
    cue: CueView,
    tasks: Seq<TaskPlanView>,
)
    requires
        cues_lines(a, tasks) is Ok,
        cues_lines(b, tasks) is Ok,
        cue_lines(cue, tasks) is Ok,
    ensures
        cues_lines(a + b, tasks) == Ok::<Seq<Seq<char>>, Seq<char>>(
            cues_lines(a, tasks)->Ok_0 + cues_lines(b, tasks)->Ok_0,
        ),
        cues_lines(seq![cue], tasks) == cue_lines(cue, tasks),
    decreases b.len(),
{
    reveal_with_fuel(cues_lines, 2);
    assert(seq![cue].drop_last() =~= Seq::<CueView>::empty());
    assert(Seq::<Seq<char>>::empty() + cue_lines(cue, tasks)->Ok_0 =~= cue_lines(
        cue,
        tasks,
    )->Ok_0);
    if b.len() == 0 {
        assert(a + b =~= a);
        assert(cues_lines(a, tasks)->Ok_0 + cues_lines(b, tasks)->Ok_0 =~= cues_lines(
            a,
            tasks,
        )->Ok_0);
    } else {
        assert((a + b).drop_last() =~= a + b.drop_last());
        assert((a + b).last() == b.last());
        cues_follow_one_another(a, b.drop_last(), cue, tasks);
        let x = cues_lines(a, tasks)->Ok_0;
        let y = cues_lines(b.drop_last(), tasks)->Ok_0;
        let c = cue_lines(b.last(), tasks)->Ok_0;
        assert(x + y + c =~= x + (y + c));
    }
}

/// Words are said by who says them: what stands before the first colon of a beat's
/// command is the speaker and what stands behind it, up to the semicolon, is the text,
/// both as they are where they need no cleaning; narration has nothing before it.
pub proof fn beats_say_what_their_speaker_says(beat: BeatView, line: Seq<char>)
    requires
        line == beat_line(beat),
    ensures
        line.len() > 0 && line.last() == ';',
        ({
            let colon = text::index_of(line, ':');
            let spoken = line.subrange(colon + 1, line.len() - 1);
            &&& 0 <= colon < line.len() - 1
            &&& plain_text(beat.text) ==> spoken == beat.text
            &&& beat.speaker is None ==> colon == 0
            &&& beat.speaker matches Some(name) ==> {
                &&& text::blank(name) ==> colon == 0
                &&& plain_text(name) && name.len() > 0 && !name.contains(':') ==> line.take(colon)
                    == name
            }
        }),
{
    reveal_strlit(":");
    reveal_strlit(";");
    lemma_plain_text(beat.text);
    if beat.speaker is Some && !text::blank(beat.speaker->0) {
        let name = beat.speaker->0;
        let shown = text::replaced(cleaned(text::trim_of(name)), ':', '：');
        assert forall|j: int| 0 <= j < shown.len() implies line[j] != ':' by {
            assert(line[j] == shown[j]);
        }
        assert(line[shown.len() as int] == ':');
        text::lemma_index_of_unique(line, ':', shown.len() as int);
        assert(line.subrange((shown.len() + 1) as int, line.len() - 1) =~= cleaned(beat.text));
        if plain_text(name) && name.len() > 0 && !name.contains(':') {
            lemma_plain_text(name);
            assert(text::trim_of(name) == name);
            assert(shown =~= name) by {
                assert forall|j: int| 0 <= j < name.len() implies shown[j] == name[j] by {
                    assert(name.contains(name[j]));
                }
            }
            assert(line.take(shown.len() as int) =~= shown);
        }
    } else {
        assert(line[0] == ':');
        text::lemma_index_of_unique(line, ':', 0);
        assert(line.subrange(1, line.len() - 1) =~= cleaned(beat.text));
        if beat.speaker is Some {
            let name = beat.speaker->0;
            if plain_text(name) && name.len() > 0 {
                lemma_plain_text(name);
            }
        }
    }
}

/// A text that can stand in a command as it is: no white space at its ends, and no
/// line break or semicolon in it.
pub open spec fn plain_text(s: Seq<char>) -> bool {
    &&& s.len() > 0 ==> !text::whitespace(s[0]) && !text::whitespace(s.last())
    &&& forall|i: int| 0 <= i < s.len() ==> #[trigger] s[i] != '\n' && s[i] != '\r' && s[i] != ';'
}

proof fn lemma_plain_text(s: Seq<char>)
    ensures
        plain_text(s) ==> cleaned(s) == s && text::trim_of(s) == s && (text::blank(s) <==> s.len()
            == 0),
{
    if plain_text(s) {
        text::trimming_takes_white_space_only(s, 0, s.len() as int);
        assert(s.subrange(0, s.len() as int) =~= s);
        assert(cleaned(s) =~= s);
    }
}

/// Cleaning makes a text safe and changes no more than that: the result breaks no line
/// and ends no command, a label ends no option either, each other character of the
/// trimmed text stays where it is, and what is safe already is kept.
pub proof fn cleaning_changes_what_is_unsafe_only(s: Seq<char>, i: int)
    requires
        0 <= i < text::trim_of(s).len(),
    ensures
        cleaned(s).len() == text::trim_of(s).len(),
        cleaned_choice(s).len() == text::trim_of(s).len(),
        cleaned(s)[i] != '\n' && cleaned(s)[i] != '\r' && cleaned(s)[i] != ';',
        cleaned_choice(s)[i] != '\n' && cleaned_choice(s)[i] != '\r' && cleaned_choice(s)[i] != ';',
        cleaned_choice(s)[i] != ':' && cleaned_choice(s)[i] != '|',
        ({
            let c = text::trim_of(s)[i];
            &&& c != '\n' && c != '\r' && c != ';' ==> cleaned(s)[i] == c
            &&& c == '\n' || c == '\r' ==> cleaned(s)[i] == ' '
            &&& c != '\n' && c != '\r' && c != ';' && c != ':' && c != '|' ==> cleaned_choice(s)[i]
                == c
        }),
{
}

/// A figure that is shown is the one that is asked for: the marker names the last task
/// that draws the character in the emotion, and the command that waits for it names
/// the character, the emotion and the place. A figure that is hidden is taken away.
pub proof fn cues_stage_their_figure(cue: CueView, tasks: Seq<TaskPlanView>, k: int)
    requires
        story_plan::flag_value(cue.character_id),
    ensures
        cue.action == FigureCueAction::Hide ==> cue_lines(cue, tasks) == Ok::<
            Seq<Seq<char>>,
            Seq<char>,
        >(seq!["changeFigure:none -id="@ + cue.character_id + ";"@]),
        cue.action == FigureCueAction::Show && story_plan::flag_value(cue.emotion)
            && cue.position is Some && 0 <= k < tasks.len() && tasks[k].kind == "figure"@
            && tasks[k].character_ref == Some(cue.character_id) && tasks[k].emotion == Some(
            cue.emotion,
        ) && (forall|j: int|
            k < j < tasks.len() ==> !((#[trigger] tasks[j]).kind == "figure"@
                && tasks[j].character_ref == Some(cue.character_id) && tasks[j].emotion == Some(
                cue.emotion,
            ))) ==> cue_lines(cue, tasks) == Ok::<Seq<Seq<char>>, Seq<char>>(
            seq![
                "; "@ + ("ollaic-asset-task:"@ + tasks[k].id),
                "; "@ + ("ollaic-figure-staging:"@ + (
                "changeFigure:none -id="@ + cue.character_id + " -figureCharacter="@
                    + cue.character_id + " -figureEmotion="@ + cue.emotion + " -"@ + (
                match cue.position {
                    Some(FigureStagePosition::Left) => "left"@,
                    Some(FigureStagePosition::Center) => "center"@,
                    _ => "right"@,
                }) + ";"@)),
            ],
        ),
{
    if cue.action == FigureCueAction::Show && 0 <= k < tasks.len() && tasks[k].kind == "figure"@
        && tasks[k].character_ref == Some(cue.character_id) && tasks[k].emotion == Some(cue.emotion)
        && (forall|j: int|
        k < j < tasks.len() ==> !((#[trigger] tasks[j]).kind == "figure"@ && tasks[j].character_ref
            == Some(cue.character_id) && tasks[j].emotion == Some(cue.emotion))) {
        lemma_last_target(tasks, (cue.character_id, cue.emotion), k);
    }
}

proof fn lemma_last_target(tasks: Seq<TaskPlanView>, pair: (Seq<char>, Seq<char>), k: int)
    requires
        0 <= k < tasks.len(),
        asset_planner::draws(tasks[k], pair),
        forall|j: int|
            k < j < tasks.len() ==> !((#[trigger] tasks[j]).kind == "figure"@
                && tasks[j].character_ref == Some(pair.0) && tasks[j].emotion == Some(pair.1)),
    ensures
        target_of(tasks, pair) == Some(tasks[k].id),
    decreases tasks.len(),
{
    if k < tasks.len() - 1 {
        let last = tasks[tasks.len() - 1];
        let t = tasks.drop_last();
        assert forall|j: int| k < j < t.len() implies !((#[trigger] t[j]).kind == "figure"@
            && t[j].character_ref == Some(pair.0) && t[j].emotion == Some(pair.1)) by {
            assert(tasks[j] == t[j]);
        }
        lemma_last_target(t, pair, k);
    }
}

/// The inputs are refused exactly where a reference leads nowhere or a scene lacks its
/// draft: the entry and both ends of every edge are scenes, every draft is that of a
/// scene and every scene has exactly one, and every cue speaks of a character that has
/// a card and plays in its scene, and shows it in a place, with a safe emotion that
/// some task draws.
pub proof fn inputs_are_refused_for_broken_references(
    scenes: Seq<SceneView>,
    drafts: Seq<DraftView>,
    branches: BranchView,
    cards: Seq<CharacterView>,
    tasks: Seq<TaskPlanView>,
)
    ensures
        inputs_fault(scenes, drafts, branches, cards, tasks) is None <==> {
            &&& scenes.len() > 0 && drafts.len() > 0
            &&& exists|s: int| 0 <= s < scenes.len() && (#[trigger] scenes[s]).id == branches.entry_scene
            &&& forall|e: int|
                0 <= e < branches.edges.len() ==> (exists|s: int|
                    0 <= s < scenes.len() && (#[trigger] scenes[s]).id == (
                    #[trigger] branches.edges[e]).from) && (exists|s: int|
                    0 <= s < scenes.len() && (#[trigger] scenes[s]).id == branches.edges[e].to)
            &&& forall|s: int|
                0 <= s < scenes.len() ==> exists|d: int|
                    0 <= d < drafts.len() && (#[trigger] drafts[d]).scene_id == (
                    #[trigger] scenes[s]).id
            &&& forall|i: int, j: int|
                0 <= i < j < drafts.len() ==> (#[trigger] drafts[i]).scene_id != (
                #[trigger] drafts[j]).scene_id
            &&& forall|d: int|
                0 <= d < drafts.len() ==> (exists|s: int|
                    0 <= s < scenes.len() && (#[trigger] scenes[s]).id == (
                    #[trigger] drafts[d]).scene_id)
            &&& forall|d: int, b: int, c: int|
                0 <= d < drafts.len() && 0 <= b < drafts[d].beats.len() && 0 <= c
                    < drafts[d].beats[b].figure_cues.len() ==> {
                    let cue = #[trigger] drafts[d].beats[b].figure_cues[c];
                    &&& exists|k: int| 0 <= k < cards.len() && (#[trigger] cards[k]).id == cue.character_id
                    &&& cast_of(scenes, drafts[d].scene_id).contains(cue.character_id)
                    &&& cue.action == FigureCueAction::Show ==> cue.position is Some
                        && story_plan::flag_value(cue.emotion) && exists|t: int|
                        0 <= t < tasks.len() && (#[trigger] tasks[t]).kind == "figure"@
                            && tasks[t].character_ref == Some(cue.character_id) && tasks[t].emotion
                            == Some(cue.emotion)
                }
        },
{
    faultless_inputs_are_sound(scenes, drafts, branches, cards, tasks);
    if inputs_sound(scenes, drafts, branches, cards, tasks) {
        assert forall|d: int, b: int, c: int|
            0 <= d < drafts.len() && 0 <= b < drafts[d].beats.len() && 0 <= c
                < drafts[d].beats[b].figure_cues.len() implies cue_sound(
            #[trigger] drafts[d].beats[b].figure_cues[c],
            cast_of(scenes, drafts[d].scene_id),
            cards,
            tasks,
        ) by {
            assert(draft_sound(drafts[d], scenes, cards, tasks));
            assert(beat_sound(
                drafts[d].beats[b],
                cast_of(scenes, drafts[d].scene_id),
                cards,
                tasks,
            ));
        }
        assert forall|d: int, b: int, c: int|
            0 <= d < drafts.len() && 0 <= b < drafts[d].beats.len() && 0 <= c
                < drafts[d].beats[b].figure_cues.len() implies ({
            let cue = #[trigger] drafts[d].beats[b].figure_cues[c];
            &&& exists|k: int| 0 <= k < cards.len() && (#[trigger] cards[k]).id == cue.character_id
            &&& cast_of(scenes, drafts[d].scene_id).contains(cue.character_id)
            &&& cue.action == FigureCueAction::Show ==> cue.position is Some
                && story_plan::flag_value(cue.emotion) && exists|t: int|
                0 <= t < tasks.len() && (#[trigger] tasks[t]).kind == "figure"@
                    && tasks[t].character_ref == Some(cue.character_id) && tasks[t].emotion == Some(
                    cue.emotion,
                )
        }) by {
            let cue = drafts[d].beats[b].figure_cues[c];
            let cast = cast_of(scenes, drafts[d].scene_id);
            assert(cue_sound(cue, cast, cards, tasks));
            if cue.action == FigureCueAction::Show {
                let t = choose|t: int|
                    0 <= t < tasks.len() && asset_planner::draws(
                        #[trigger] tasks[t],
                        (cue.character_id, cue.emotion),
                    );
                assert(tasks[t].kind == "figure"@);
            }
        }
        assert forall|d: int| 0 <= d < drafts.len() implies (exists|s: int|
            0 <= s < scenes.len() && (#[trigger] scenes[s]).id == (
            #[trigger] drafts[d]).scene_id) by {
            assert(draft_sound(drafts[d], scenes, cards, tasks));
        }
        assert forall|s: int| 0 <= s < scenes.len() implies exists|d: int|
            0 <= d < drafts.len() && (#[trigger] drafts[d]).scene_id == (#[trigger] scenes[s]).id by {
            assert(drafted(drafts, scenes[s].id));
        }
    }
    if {
        &&& scenes.len() > 0 && drafts.len() > 0
        &&& exists|s: int| 0 <= s < scenes.len() && (#[trigger] scenes[s]).id == branches.entry_scene
        &&& forall|e: int|
            0 <= e < branches.edges.len() ==> (exists|s: int|
                0 <= s < scenes.len() && (#[trigger] scenes[s]).id == (
                #[trigger] branches.edges[e]).from) && (exists|s: int|
                0 <= s < scenes.len() && (#[trigger] scenes[s]).id == branches.edges[e].to)
        &&& forall|s: int|
            0 <= s < scenes.len() ==> exists|d: int|
                0 <= d < drafts.len() && (#[trigger] drafts[d]).scene_id == (
                #[trigger] scenes[s]).id
        &&& forall|i: int, j: int|
            0 <= i < j < drafts.len() ==> (#[trigger] drafts[i]).scene_id != (
            #[trigger] drafts[j]).scene_id
        &&& forall|d: int|
            0 <= d < drafts.len() ==> (exists|s: int|
                0 <= s < scenes.len() && (#[trigger] scenes[s]).id == (
                #[trigger] drafts[d]).scene_id)
        &&& forall|d: int, b: int, c: int|
            0 <= d < drafts.len() && 0 <= b < drafts[d].beats.len() && 0 <= c
                < drafts[d].beats[b].figure_cues.len() ==> {
                let cue = #[trigger] drafts[d].beats[b].figure_cues[c];
                &&& exists|k: int| 0 <= k < cards.len() && (#[trigger] cards[k]).id == cue.character_id
                &&& cast_of(scenes, drafts[d].scene_id).contains(cue.character_id)
                &&& cue.action == FigureCueAction::Show ==> cue.position is Some
                    && story_plan::flag_value(cue.emotion) && exists|t: int|
                    0 <= t < tasks.len() && (#[trigger] tasks[t]).kind == "figure"@
                        && tasks[t].character_ref == Some(cue.character_id) && tasks[t].emotion
                        == Some(cue.emotion)
            }
    } {
        assert forall|d: int| 0 <= d < drafts.len() implies draft_sound(
            #[trigger] drafts[d],
            scenes,
            cards,
            tasks,
        ) by {
            let cast = cast_of(scenes, drafts[d].scene_id);
            assert forall|b: int| 0 <= b < drafts[d].beats.len() implies beat_sound(
                #[trigger] drafts[d].beats[b],
                cast,
                cards,
                tasks,
            ) by {
                assert forall|c: int|
                    0 <= c < drafts[d].beats[b].figure_cues.len() implies cue_sound(
                    #[trigger] drafts[d].beats[b].figure_cues[c],
                    cast,
                    cards,
                    tasks,
                ) by {
                    let cue = drafts[d].beats[b].figure_cues[c];
                    if cue.action == FigureCueAction::Show {
                        let t = choose|t: int|
                            0 <= t < tasks.len() && (#[trigger] tasks[t]).kind == "figure"@
                                && tasks[t].character_ref == Some(cue.character_id)
                                && tasks[t].emotion == Some(cue.emotion);
                        assert(asset_planner::draws(tasks[t], (cue.character_id, cue.emotion)));
                    }
                }
            }
        }
        assert forall|s: int| 0 <= s < scenes.len() implies drafted(
            drafts,
            (#[trigger] scenes[s]).id,
        ) by {}
        assert(inputs_sound(scenes, drafts, branches, cards, tasks));
    }
}

/// The cast of a scene is that of the first card with its id.
pub proof fn casts_are_those_of_the_first_card(scenes: Seq<SceneView>, s: int)
    requires
        0 <= s < scenes.len(),
        forall|j: int| 0 <= j < s ==> (#[trigger] scenes[j]).id != scenes[s].id,
    ensures
        cast_of(scenes, scenes[s].id) == scenes[s].character_ids,
    decreases s,
{
    if s > 0 {
        assert(scenes[0].id != scenes[s].id);
        let t = scenes.drop_first();
        assert forall|j: int| 0 <= j < s - 1 implies (#[trigger] t[j]).id != t[s - 1].id by {
            assert(scenes[j + 1].id != scenes[s].id);
        }
        casts_are_those_of_the_first_card(t, s - 1);
    }
}

/// A script is refused exactly where its name is no scene file's or a line of it is
/// neither a comment nor ended.
pub proof fn scripts_are_refused_for_open_commands(name: Seq<char>, content: Seq<char>)
    ensures
        script_fault(name, content) is None <==> {
            &&& text::ends(name, ".txt"@) && name.len() > 4
            &&& forall|i: int|
                0 <= i < name.len() - 4 ==> text::alphanumeric(#[trigger] name[i]) || name[i] == '_'
                    || name[i] == '-'
            &&& forall|i: int|
                0 <= i < text::lines_of(content).len() ==> {
                    let line = #[trigger] text::lines_of(content)[i];
                    line.len() > 0 && (line[0] == ';' || line.last() == ';')
                }
        },
{
    reveal_strlit(";");
    let lines = text::lines_of(content);
    assert forall|i: int| 0 <= i < lines.len() implies (finished(#[trigger] lines[i]) <==> (
    lines[i].len() > 0 && (lines[i][0] == ';' || lines[i].last() == ';'))) by {
        let line = lines[i];
        if line.len() > 0 {
            assert(line.subrange(0, 1)[0] == line[0]);
            assert(line.subrange(line.len() - 1, line.len() as int)[0] == line.last());
            if line[0] == ';' {
                assert(line.subrange(0, 1) =~= ";"@);
            }
            if line.last() == ';' {
                assert(line.subrange(line.len() - 1, line.len() as int) =~= ";"@);
            }
        }
    }
    if forall|i: int|
        0 <= i < lines.len() ==> (#[trigger] lines[i]).len() > 0 && (lines[i][0] == ';'
            || lines[i].last() == ';') {
        assert forall|i: int| 0 <= i < lines.len() implies finished(#[trigger] lines[i]) by {}
    }
    if script_name(name) {
        assert forall|i: int| 0 <= i < name.len() - 4 implies text::alphanumeric(#[trigger] name[i])
            || name[i] == '_' || name[i] == '-' by {
            assert(script_name_char(name[i]));
        }
    } else if text::ends(name, ".txt"@) && name.len() > 4 {
        let i = choose|i: int| 0 <= i < name.len() - 4 && !script_name_char(#[trigger] name[i]);
        assert(!(text::alphanumeric(name[i]) || name[i] == '_' || name[i] == '-'));
    }
}

} // verus!
