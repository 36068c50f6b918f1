//! The plotter: chapters, scene cards and the branch graph of a story.
use vstd::prelude::*;

use crate::agents::router;
use crate::agents::router::{ModelTask, Routed};
use crate::agents::{AgentContext, AgentError, AgentOutput, AgentOutputPayload};
use crate::story_plan;
use crate::story_plan::{
    BranchEdge, BranchGraph, BranchView, ChapterPlan, ChapterView, EdgeView, ScenePlan, SceneView,
};
use crate::text;
use crate::text_map::TextMap;

verus! {

broadcast use vstd::string::group_string_axioms;

/// Turns canon into chapters, scene cards, and an explicit branch graph.
pub struct OutlineAgent;

/// What the model is asked to return.
#[derive(Debug, PartialEq, Eq)]
pub struct OutlineResponse {
    pub chapters: Vec<ChapterPlan>,
    pub scene_plans: Vec<ScenePlan>,
    pub branches: BranchGraph,
}

pub const ROLE: &'static str = "Plotter / 剧情结构";

pub const TASK: &'static str = "输出可执行的章节、场景卡和分支拓扑。严格使用 JSON：{\"chapters\":[{\"id\":\"ch1\",\"title\":\"...\",\"summary\":\"...\"}],\"scenePlans\":[{\"id\":\"opening\",\"file\":\"start.txt\",\"chapterId\":\"ch1\",\"title\":\"...\",\"summary\":\"...\",\"characterIds\":[\"protagonist\"]}],\"branches\":{\"entryScene\":\"opening\",\"edges\":[{\"from\":\"opening\",\"to\":\"next_scene\",\"choice\":null}]}}。每个 chapter 和 scenePlan 都必须包含非空 summary。";

pub const REQUIREMENTS: &'static str = "生成 3 章、至少 5 个 scene。入口 scene 的 file 必须是 start.txt；其他 file 只能是无路径的 .txt 文件名。scene id 唯一，chapterId 必须引用章节 id。branches.entryScene 和每条 edge 的 from/to 使用 scene id，至少包含一次有 choice 文本的分支。";

// ---------------------------------------------------------------------------
// Filling in what a model left out
// ---------------------------------------------------------------------------

pub open spec fn filled_chapter(c: ChapterView, synopsis: Seq<char>) -> ChapterView {
    if text::blank(c.summary) {
        ChapterView { summary: "章节“"@ + c.title + "”围绕故事主线继续推进："@ + synopsis, ..c }
    } else {
        c
    }
}

pub open spec fn filled_scene(s: SceneView) -> SceneView {
    if text::blank(s.summary) {
        SceneView { summary: "围绕“"@ + s.title + "”展开，推进主线冲突与人物关系。"@, ..s }
    } else {
        s
    }
}

pub open spec fn filled_chapters(v: Seq<ChapterView>, synopsis: Seq<char>) -> Seq<ChapterView> {
    v.map_values(|c: ChapterView| filled_chapter(c, synopsis))
}

pub open spec fn filled_scenes(v: Seq<SceneView>) -> Seq<SceneView> {
    v.map_values(|s: SceneView| filled_scene(s))
}

fn fill_chapters(chapters: &mut Vec<ChapterPlan>, synopsis: &str)
    ensures
        story_plan::chapter_views(final(chapters)@) == filled_chapters(
            story_plan::chapter_views(old(chapters)@),
            synopsis@,
        ),
{
    let ghost all = story_plan::chapter_views(chapters@);
    let mut given: Vec<ChapterPlan> = Vec::new();
    std::mem::swap(&mut given, chapters);
    for chapter in it: given
        invariant
            all == story_plan::chapter_views(it.seq()),
            story_plan::chapter_views(chapters@) =~= filled_chapters(all, synopsis@).take(
                it.index(),
            ),
    {
        let mut chapter = chapter;
        let ghost before = story_plan::chapter_views(chapters@);
        if text::is_blank(chapter.summary.as_str()) {
            let mut s = text::copy("章节“");
            s.append(chapter.title.as_str());
            s.append("”围绕故事主线继续推进：");
            s.append(synopsis);
            chapter.summary = s;
        }
        chapters.push(chapter);
        assert(story_plan::chapter_views(chapters@) =~= before.push(chapter@));
        assert(chapter@ == filled_chapter(all[it.index()], synopsis@));
    }
    assert(filled_chapters(all, synopsis@).take(all.len() as int) =~= filled_chapters(
        all,
        synopsis@,
    ));
}

fn fill_scenes(scenes: &mut Vec<ScenePlan>)
    ensures
        story_plan::scene_views(final(scenes)@) == filled_scenes(
            story_plan::scene_views(old(scenes)@),
        ),
{
    let ghost all = story_plan::scene_views(scenes@);
    let mut given: Vec<ScenePlan> = Vec::new();
    std::mem::swap(&mut given, scenes);
    for scene in it: given
        invariant
            all == story_plan::scene_views(it.seq()),
            story_plan::scene_views(scenes@) =~= filled_scenes(all).take(it.index()),
    {
        let mut scene = scene;
        let ghost before = story_plan::scene_views(scenes@);
        if text::is_blank(scene.summary.as_str()) {
            let mut s = text::copy("围绕“");
            s.append(scene.title.as_str());
            s.append("”展开，推进主线冲突与人物关系。");
            scene.summary = s;
        }
        scenes.push(scene);
        assert(story_plan::scene_views(scenes@) =~= before.push(scene@));
        assert(scene@ == filled_scene(all[it.index()]));
    }
    assert(filled_scenes(all).take(all.len() as int) =~= filled_scenes(all));
}

/// Gives every chapter and scene without a summary one.
pub fn fill_missing_summaries(response: &mut OutlineResponse, synopsis: &str)
    ensures
        story_plan::chapter_views(final(response).chapters@) == filled_chapters(
            story_plan::chapter_views(old(response).chapters@),
            synopsis@,
        ),
        story_plan::scene_views(final(response).scene_plans@) == filled_scenes(
            story_plan::scene_views(old(response).scene_plans@),
        ),
        final(response).branches == old(response).branches,
{
    fill_chapters(&mut response.chapters, synopsis);
    fill_scenes(&mut response.scene_plans);
}

// ---------------------------------------------------------------------------
// The contract of an outline
// ---------------------------------------------------------------------------

/// A scene file that is a plain name: safe characters, then `.txt`.
pub open spec fn safe_scene_file(file: Seq<char>) -> bool {
    text::ends(file, ".txt"@) && story_plan::flag_value(file.take(file.len() - 4))
}

pub fn is_safe_scene_file(file: &str) -> (r: bool)
    ensures
        r == safe_scene_file(file@),
{
    proof {
        reveal_strlit(".txt");
    }
    if !text::ends_with(file, ".txt") {
        return false;
    }
    let v = text::chars_of(file);
    let stem = text::string_of_range(&v, 0, v.len() - 4);
    assert(stem@ =~= file@.take(file@.len() - 4));
    story_plan::is_webgal_flag_value(stem.as_str())
}

pub open spec fn chapter_known(chapters: Seq<ChapterView>, id: Seq<char>) -> bool {
    exists|i: int| 0 <= i < chapters.len() && (#[trigger] chapters[i]).id == id
}

pub open spec fn chapter_id_taken(chapters: Seq<ChapterView>, i: int) -> bool {
    exists|j: int| 0 <= j < i && (#[trigger] chapters[j]).id == chapters[i].id
}

pub open spec fn scene_id_taken(scenes: Seq<SceneView>, i: int) -> bool {
    exists|j: int| 0 <= j < i && (#[trigger] scenes[j]).id == scenes[i].id
}

pub open spec fn scene_file_taken(scenes: Seq<SceneView>, i: int) -> bool {
    exists|j: int| 0 <= j < i && (#[trigger] scenes[j]).file == scenes[i].file
}

/// The first rule that the chapter at `i` breaks.
pub open spec fn chapter_fault(chapters: Seq<ChapterView>, i: int) -> Option<
    (Seq<char>, Seq<char>),
> {
    if text::blank(chapters[i].id) {
        Some((".id"@, "must not be empty"@))
    } else if chapter_id_taken(chapters, i) {
        Some((".id"@, "must be unique"@))
    } else if text::blank(chapters[i].title) {
        Some((".title"@, "must not be empty"@))
    } else {
        None
    }
}

/// The position of the first blank text, or the number of texts.
pub open spec fn first_blank(ids: Seq<Seq<char>>) -> int
    decreases ids.len(),
{
    if ids.len() == 0 || text::blank(ids[0]) {
        0
    } else {
        1 + first_blank(ids.drop_first())
    }
}

/// The first rule that the scene at `i` breaks.
pub open spec fn scene_fault(scenes: Seq<SceneView>, i: int, chapters: Seq<ChapterView>) -> Option<
    (Seq<char>, Seq<char>),
> {
    let s = scenes[i];
    if text::blank(s.id) || scene_id_taken(scenes, i) {
        Some((".id"@, "must be non-empty and unique"@))
    } else if !safe_scene_file(s.file) || scene_file_taken(scenes, i) {
        Some((".file"@, "must be a unique safe .txt filename"@))
    } else if !chapter_known(chapters, s.chapter_id) {
        Some((".chapterId"@, "references unknown chapter id"@))
    } else if text::blank(s.title) {
        Some((".title"@, "must not be empty"@))
    } else if first_blank(s.character_ids) < s.character_ids.len() {
        Some(
            (
                router::item_path(".characterIds"@, first_blank(s.character_ids)),
                "must not be empty"@,
            ),
        )
    } else {
        None
    }
}

/// The first rule that an edge breaks.
pub open spec fn edge_fault(edge: EdgeView, scenes: Seq<SceneView>) -> Option<
    (Seq<char>, Seq<char>),
> {
    if !story_plan::scene_known(scenes, edge.from) {
        Some((".from"@, "references unknown scene id"@))
    } else if !story_plan::scene_known(scenes, edge.to) {
        Some((".to"@, "references unknown scene id"@))
    } else {
        None
    }
}

pub open spec fn chapters_fault_from(chapters: Seq<ChapterView>, i: int) -> Option<Seq<char>>
    decreases chapters.len() - i,
{
    if i >= chapters.len() {
        None
    } else {
        match chapter_fault(chapters, i) {
            Some(f) => Some(router::violation(router::item_path("$.chapters"@, i) + f.0, f.1)),
            None => chapters_fault_from(chapters, i + 1),
        }
    }
}

pub open spec fn scenes_fault_from(
    scenes: Seq<SceneView>,
    i: int,
    chapters: Seq<ChapterView>,
) -> Option<Seq<char>>
    decreases scenes.len() - i,
{
    if i >= scenes.len() {
        None
    } else {
        match scene_fault(scenes, i, chapters) {
            Some(f) => Some(router::violation(router::item_path("$.scenePlans"@, i) + f.0, f.1)),
            None => scenes_fault_from(scenes, i + 1, chapters),
        }
    }
}

pub open spec fn edges_fault_from(edges: Seq<EdgeView>, i: int, scenes: Seq<SceneView>) -> Option<
    Seq<char>,
>
    decreases edges.len() - i,
{
    if i >= edges.len() {
        None
    } else {
        match edge_fault(edges[i], scenes) {
            Some(f) => Some(
                router::violation(router::item_path("$.branches.edges"@, i) + f.0, f.1),
            ),
            None => edges_fault_from(edges, i + 1, scenes),
        }
    }
}

/// What is wrong with an outline, if anything is.
pub open spec fn outline_fault(
    chapters: Seq<ChapterView>,
    scenes: Seq<SceneView>,
    branches: BranchView,
) -> Option<Seq<char>> {
    if chapters.len() == 0 {
        Some(router::violation("$.chapters"@, "must not be empty"@))
    } else if scenes.len() < 2 {
        Some(router::violation("$.scenePlans"@, "must contain at least 2 scenes"@))
    } else if chapters_fault_from(chapters, 0) is Some {
        chapters_fault_from(chapters, 0)
    } else if scenes_fault_from(scenes, 0, chapters) is Some {
        scenes_fault_from(scenes, 0, chapters)
    } else if !story_plan::scene_known(scenes, branches.entry_scene) {
        Some(router::violation("$.branches.entryScene"@, "references unknown scene id"@))
    } else {
        edges_fault_from(branches.edges, 0, scenes)
    }
}

/// Whether an outline keeps its contract: there is a chapter and there are two
/// scenes, ids and files are unique and safe, every reference resolves.
pub open spec fn outline_sound(
    chapters: Seq<ChapterView>,
    scenes: Seq<SceneView>,
    branches: BranchView,
) -> bool {
    &&& chapters.len() > 0
    &&& scenes.len() >= 2
    &&& forall|i: int|
        0 <= i < chapters.len() ==> !text::blank((#[trigger] chapters[i]).id) && !text::blank(
            chapters[i].title,
        )
    &&& forall|i: int, j: int|
        0 <= i < j < chapters.len() ==> (#[trigger] chapters[i]).id != (#[trigger] chapters[j]).id
    &&& forall|i: int|
        0 <= i < scenes.len() ==> {
            let s = #[trigger] scenes[i];
            &&& !text::blank(s.id)
            &&& safe_scene_file(s.file)
            &&& chapter_known(chapters, s.chapter_id)
            &&& !text::blank(s.title)
            &&& forall|k: int|
                0 <= k < s.character_ids.len() ==> !text::blank(#[trigger] s.character_ids[k])
        }
    &&& forall|i: int, j: int|
        0 <= i < j < scenes.len() ==> (#[trigger] scenes[i]).id != (#[trigger] scenes[j]).id
            && scenes[i].file != scenes[j].file
    &&& story_plan::scene_known(scenes, branches.entry_scene)
    &&& forall|i: int|
        0 <= i < branches.edges.len() ==> story_plan::scene_known(
            scenes,
            (#[trigger] branches.edges[i]).from,
        ) && story_plan::scene_known(scenes, branches.edges[i].to)
}

proof fn lemma_first_blank(ids: Seq<Seq<char>>, k: int)
    requires
        0 <= k <= ids.len(),
        forall|j: int| 0 <= j < k ==> !text::blank(#[trigger] ids[j]),
        k < ids.len() ==> text::blank(ids[k]),
    ensures
        first_blank(ids) == k,
    decreases ids.len(),
{
    if ids.len() > 0 && !text::blank(ids[0]) {
        let t = ids.drop_first();
        assert forall|j: int| 0 <= j < k - 1 implies !text::blank(#[trigger] t[j]) by {
            assert(!text::blank(ids[j + 1]));
        }
        lemma_first_blank(t, k - 1);
    }
}

proof fn lemma_first_blank_at(ids: Seq<Seq<char>>)
    ensures
        0 <= first_blank(ids) <= ids.len(),
        first_blank(ids) < ids.len() ==> text::blank(ids[first_blank(ids)]),
        forall|j: int| 0 <= j < first_blank(ids) ==> !text::blank(#[trigger] ids[j]),
    decreases ids.len(),
{
    if ids.len() > 0 && !text::blank(ids[0]) {
        let t = ids.drop_first();
        lemma_first_blank_at(t);
        assert forall|j: int| 0 <= j < first_blank(ids) implies !text::blank(#[trigger] ids[j]) by {
            if j > 0 {
                assert(!text::blank(t[j - 1]));
            }
        }
    }
}

proof fn lemma_chapters_from(chapters: Seq<ChapterView>, i: int)
    requires
        0 <= i <= chapters.len(),
    ensures
        chapters_fault_from(chapters, i) is None <==> forall|k: int|
            i <= k < chapters.len() ==> #[trigger] chapter_fault(chapters, k) is None,
    decreases chapters.len() - i,
{
    if i < chapters.len() {
        lemma_chapters_from(chapters, i + 1);
        if chapter_fault(chapters, i) is None && chapters_fault_from(chapters, i + 1) is None {
            assert forall|k: int| i <= k < chapters.len() implies #[trigger] chapter_fault(
                chapters,
                k,
            ) is None by {
                if k > i {
                    assert(i + 1 <= k);
                }
            }
        }
    }
}

proof fn lemma_scenes_from(scenes: Seq<SceneView>, i: int, chapters: Seq<ChapterView>)
    requires
        0 <= i <= scenes.len(),
    ensures
        scenes_fault_from(scenes, i, chapters) is None <==> forall|k: int|
            i <= k < scenes.len() ==> #[trigger] scene_fault(scenes, k, chapters) is None,
    decreases scenes.len() - i,
{
    if i < scenes.len() {
        lemma_scenes_from(scenes, i + 1, chapters);
        if scene_fault(scenes, i, chapters) is None && scenes_fault_from(scenes, i + 1, chapters) is None {
            assert forall|k: int| i <= k < scenes.len() implies #[trigger] scene_fault(
                scenes,
                k,
                chapters,
            ) is None by {
                if k > i {
                    assert(i + 1 <= k);
                }
            }
        }
    }
}

proof fn lemma_edges_from(edges: Seq<EdgeView>, i: int, scenes: Seq<SceneView>)
    requires
        0 <= i <= edges.len(),
    ensures
        edges_fault_from(edges, i, scenes) is None <==> forall|k: int|
            i <= k < edges.len() ==> edge_fault(#[trigger] edges[k], scenes) is None,
    decreases edges.len() - i,
{
    if i < edges.len() {
        lemma_edges_from(edges, i + 1, scenes);
        if edge_fault(edges[i], scenes) is None && edges_fault_from(edges, i + 1, scenes) is None {
            assert forall|k: int| i <= k < edges.len() implies edge_fault(
                #[trigger] edges[k],
                scenes,
            ) is None by {
                if k > i {
                    assert(i + 1 <= k);
                }
            }
        }
    }
}

/// An outline has no fault exactly when it keeps its contract.
pub proof fn faultless_outlines_are_sound(
    chapters: Seq<ChapterView>,
    scenes: Seq<SceneView>,
    branches: BranchView,
)
    ensures
        outline_fault(chapters, scenes, branches) is None <==> outline_sound(
            chapters,
            scenes,
            branches,
        ),
{
    lemma_chapters_from(chapters, 0);
    lemma_scenes_from(scenes, 0, chapters);
    lemma_edges_from(branches.edges, 0, scenes);
    if outline_fault(chapters, scenes, branches) is None {
        assert forall|i: int| 0 <= i < chapters.len() implies !text::blank(
            (#[trigger] chapters[i]).id,
        ) && !text::blank(chapters[i].title) by {
            assert(chapter_fault(chapters, i) is None);
        }
        assert forall|i: int, j: int| 0 <= i < j < chapters.len() implies (#[trigger] chapters[i]).id
            != (#[trigger] chapters[j]).id by {
            assert(chapter_fault(chapters, j) is None);
        }
        assert forall|i: int| 0 <= i < scenes.len() implies {
            let s = #[trigger] scenes[i];
            &&& !text::blank(s.id)
            &&& safe_scene_file(s.file)
            &&& chapter_known(chapters, s.chapter_id)
            &&& !text::blank(s.title)
            &&& forall|k: int|
                0 <= k < s.character_ids.len() ==> !text::blank(#[trigger] s.character_ids[k])
        } by {
            assert(scene_fault(scenes, i, chapters) is None);
            lemma_first_blank_at(scenes[i].character_ids);
        }
        assert forall|i: int, j: int| 0 <= i < j < scenes.len() implies (#[trigger] scenes[i]).id
            != (#[trigger] scenes[j]).id && scenes[i].file != scenes[j].file by {
            assert(scene_fault(scenes, j, chapters) is None);
        }
        assert forall|i: int| 0 <= i < branches.edges.len() implies story_plan::scene_known(
            scenes,
            (#[trigger] branches.edges[i]).from,
        ) && story_plan::scene_known(scenes, branches.edges[i].to) by {
            assert(edge_fault(branches.edges[i], scenes) is None);
        }
    }
    if outline_sound(chapters, scenes, branches) {
        assert forall|k: int| 0 <= k < chapters.len() implies #[trigger] chapter_fault(
            chapters,
            k,
        ) is None by {
            assert(!text::blank(chapters[k].id));
            if chapter_id_taken(chapters, k) {
                let j = choose|j: int| 0 <= j < k && (#[trigger] chapters[j]).id == chapters[k].id;
                assert(chapters[j].id != chapters[k].id);
            }
        }
        assert forall|k: int| 0 <= k < scenes.len() implies #[trigger] scene_fault(
            scenes,
            k,
            chapters,
        ) is None by {
            let s = scenes[k];
            lemma_first_blank_at(s.character_ids);
            if scene_id_taken(scenes, k) {
                let j = choose|j: int| 0 <= j < k && (#[trigger] scenes[j]).id == scenes[k].id;
                assert(scenes[j].id != scenes[k].id);
            }
            if scene_file_taken(scenes, k) {
                let j = choose|j: int| 0 <= j < k && (#[trigger] scenes[j]).file == scenes[k].file;
                assert(scenes[j].id != scenes[k].id);
            }
        }
        assert forall|k: int| 0 <= k < branches.edges.len() implies edge_fault(
            #[trigger] branches.edges[k],
            scenes,
        ) is None by {
            assert(story_plan::scene_known(scenes, branches.edges[k].from));
        }
    }
}

fn has_chapter(chapters: &Vec<ChapterPlan>, upto: usize, id: &str) -> (r: bool)
    requires
        upto <= chapters.len(),
    ensures
        r == exists|j: int|
            0 <= j < upto && (#[trigger] story_plan::chapter_views(chapters@)[j]).id == id@,
{
    let ghost all = story_plan::chapter_views(chapters@);
    let mut j: usize = 0;
    while j < upto
        invariant
            j <= upto <= chapters.len(),
            all == story_plan::chapter_views(chapters@),
            forall|k: int| 0 <= k < j ==> (#[trigger] all[k]).id != id@,
        decreases upto - j,
    {
        if text::same(chapters[j].id.as_str(), id) {
            assert(all[j as int].id == id@);
            return true;
        }
        j += 1;
    }
    false
}

fn is_scene_id_taken(scenes: &Vec<ScenePlan>, i: usize) -> (r: bool)
    requires
        i < scenes.len(),
    ensures
        r == scene_id_taken(story_plan::scene_views(scenes@), i as int),
{
    let ghost all = story_plan::scene_views(scenes@);
    let mut j: usize = 0;
    while j < i
        invariant
            j <= i < scenes.len(),
            all == story_plan::scene_views(scenes@),
            forall|k: int| 0 <= k < j ==> (#[trigger] all[k]).id != all[i as int].id,
        decreases i - j,
    {
        if text::same(scenes[j].id.as_str(), scenes[i].id.as_str()) {
            assert(all[j as int].id == all[i as int].id);
            return true;
        }
        j += 1;
    }
    false
}

fn is_scene_file_taken(scenes: &Vec<ScenePlan>, i: usize) -> (r: bool)
    requires
        i < scenes.len(),
    ensures
        r == scene_file_taken(story_plan::scene_views(scenes@), i as int),
{
    let ghost all = story_plan::scene_views(scenes@);
    let mut j: usize = 0;
    while j < i
        invariant
            j <= i < scenes.len(),
            all == story_plan::scene_views(scenes@),
            forall|k: int| 0 <= k < j ==> (#[trigger] all[k]).file != all[i as int].file,
        decreases i - j,
    {
        if text::same(scenes[j].file.as_str(), scenes[i].file.as_str()) {
            assert(all[j as int].file == all[i as int].file);
            return true;
        }
        j += 1;
    }
    false
}

fn find_first_blank(ids: &Vec<String>) -> (r: usize)
    ensures
        r == first_blank(text::texts(ids@)),
{
    let ghost all = text::texts(ids@);
    let mut i: usize = 0;
    while i < ids.len() && !text::is_blank(ids[i].as_str())
        invariant
            i <= ids.len(),
            all == text::texts(ids@),
            forall|j: int| 0 <= j < i ==> !text::blank(#[trigger] all[j]),
        decreases ids.len() - i,
    {
        i += 1;
    }
    proof {
        lemma_first_blank(all, i as int);
    }
    i
}

fn check_chapters(chapters: &Vec<ChapterPlan>) -> (r: Result<(), AgentError>)
    ensures
        match (r, chapters_fault_from(story_plan::chapter_views(chapters@), 0)) {
            (Ok(_), None) => true,
            (Err(e), Some(message)) => e.0@ == message,
            _ => false,
        },
{
    let ghost all = story_plan::chapter_views(chapters@);
    let mut i: usize = 0;
    while i < chapters.len()
        invariant
            i <= chapters.len(),
            all == story_plan::chapter_views(chapters@),
            chapters_fault_from(all, 0) == chapters_fault_from(all, i as int),
        decreases chapters.len() - i,
    {
        assert(all[i as int] == chapters@[i as int]@);
        let fault: Option<(&'static str, &'static str)> = if text::is_blank(
            chapters[i].id.as_str(),
        ) {
            Some((".id", "must not be empty"))
        } else if has_chapter(chapters, i, chapters[i].id.as_str()) {
            Some((".id", "must be unique"))
        } else if text::is_blank(chapters[i].title.as_str()) {
            Some((".title", "must not be empty"))
        } else {
            None
        };
        if let Some(f) = fault {
            let base = router::item_path_of("$.chapters", i);
            let path = router::joined(base.as_str(), f.0);
            return Err(router::contract_error(path.as_str(), f.1));
        }
        i += 1;
    }
    Ok(())
}

fn check_scene(scenes: &Vec<ScenePlan>, i: usize, chapters: &Vec<ChapterPlan>) -> (r: Option<
    (String, &'static str),
>)
    requires
        i < scenes.len(),
    ensures
        match (
            r,
            scene_fault(
                story_plan::scene_views(scenes@),
                i as int,
                story_plan::chapter_views(chapters@),
            ),
        ) {
            (Some(a), Some(b)) => a.0@ == b.0 && a.1@ == b.1,
            (None, None) => true,
            _ => false,
        },
{
    let s = &scenes[i];
    assert(story_plan::scene_views(scenes@)[i as int] == s@);
    if text::is_blank(s.id.as_str()) || is_scene_id_taken(scenes, i) {
        return Some((text::copy(".id"), "must be non-empty and unique"));
    }
    if !is_safe_scene_file(s.file.as_str()) || is_scene_file_taken(scenes, i) {
        return Some((text::copy(".file"), "must be a unique safe .txt filename"));
    }
    if !has_chapter(chapters, chapters.len(), s.chapter_id.as_str()) {
        return Some((text::copy(".chapterId"), "references unknown chapter id"));
    }
    if text::is_blank(s.title.as_str()) {
        return Some((text::copy(".title"), "must not be empty"));
    }
    let k = find_first_blank(&s.character_ids);
    if k < s.character_ids.len() {
        return Some((router::item_path_of(".characterIds", k), "must not be empty"));
    }
    None
}

fn check_scenes(scenes: &Vec<ScenePlan>, chapters: &Vec<ChapterPlan>) -> (r: Result<
    (),
    AgentError,
>)
    ensures
        match (
            r,
            scenes_fault_from(
                story_plan::scene_views(scenes@),
                0,
                story_plan::chapter_views(chapters@),
            ),
        ) {
            (Ok(_), None) => true,
            (Err(e), Some(message)) => e.0@ == message,
            _ => false,
        },
{
    let ghost all = story_plan::scene_views(scenes@);
    let ghost chs = story_plan::chapter_views(chapters@);
    let mut i: usize = 0;
    while i < scenes.len()
        invariant
            i <= scenes.len(),
            all == story_plan::scene_views(scenes@),
            chs == story_plan::chapter_views(chapters@),
            scenes_fault_from(all, 0, chs) == scenes_fault_from(all, i as int, chs),
        decreases scenes.len() - i,
    {
        if let Some(f) = check_scene(scenes, i, chapters) {
            let base = router::item_path_of("$.scenePlans", i);
            let path = router::joined(base.as_str(), f.0.as_str());
            return Err(router::contract_error(path.as_str(), f.1));
        }
        i += 1;
    }
    Ok(())
}

fn check_edges(edges: &Vec<BranchEdge>, scenes: &Vec<ScenePlan>) -> (r: Result<(), AgentError>)
    ensures
        match (
            r,
            edges_fault_from(
                edges@.map_values(|e: BranchEdge| e@),
                0,
                story_plan::scene_views(scenes@),
            ),
        ) {
            (Ok(_), None) => true,
            (Err(e), Some(message)) => e.0@ == message,
            _ => false,
        },
{
    let ghost all = edges@.map_values(|e: BranchEdge| e@);
    let ghost ss = story_plan::scene_views(scenes@);
    let mut i: usize = 0;
    while i < edges.len()
        invariant
            i <= edges.len(),
            all == edges@.map_values(|e: BranchEdge| e@),
            ss == story_plan::scene_views(scenes@),
            edges_fault_from(all, 0, ss) == edges_fault_from(all, i as int, ss),
        decreases edges.len() - i,
    {
        assert(all[i as int] == edges@[i as int]@);
        let fault: Option<&'static str> = if !story_plan::has_scene(
            scenes.as_slice(),
            edges[i].from.as_str(),
        ) {
            Some(".from")
        } else if !story_plan::has_scene(scenes.as_slice(), edges[i].to.as_str()) {
            Some(".to")
        } else {
            None
        };
        if let Some(field) = fault {
            let base = router::item_path_of("$.branches.edges", i);
            let path = router::joined(base.as_str(), field);
            return Err(router::contract_error(path.as_str(), "references unknown scene id"));
        }
        i += 1;
    }
    Ok(())
}

/// Fills in the missing summaries and holds the outline to its contract.
pub fn validate_response(response: &mut OutlineResponse, synopsis: &str) -> (r: Result<
    (),
    AgentError,
>)
    ensures
        story_plan::chapter_views(final(response).chapters@) == filled_chapters(
            story_plan::chapter_views(old(response).chapters@),
            synopsis@,
        ),
        story_plan::scene_views(final(response).scene_plans@) == filled_scenes(
            story_plan::scene_views(old(response).scene_plans@),
        ),
        final(response).branches == old(response).branches,
        match (
            r,
            outline_fault(
                story_plan::chapter_views(final(response).chapters@),
                story_plan::scene_views(final(response).scene_plans@),
                final(response).branches@,
            ),
        ) {
            (Ok(_), None) => true,
            (Err(e), Some(message)) => e.0@ == message,
            _ => false,
        },
        r is Ok <==> outline_sound(
            story_plan::chapter_views(final(response).chapters@),
            story_plan::scene_views(final(response).scene_plans@),
            final(response).branches@,
        ),
{
    fill_missing_summaries(response, synopsis);
    proof {
        faultless_outlines_are_sound(
            story_plan::chapter_views(response.chapters@),
            story_plan::scene_views(response.scene_plans@),
            response.branches@,
        );
    }
    if response.chapters.len() == 0 {
        return Err(router::contract_error("$.chapters", "must not be empty"));
    }
    if response.scene_plans.len() < 2 {
        return Err(router::contract_error("$.scenePlans", "must contain at least 2 scenes"));
    }
    if let Err(error) = check_chapters(&response.chapters) {
        return Err(error);
    }
    if let Err(error) = check_scenes(&response.scene_plans, &response.chapters) {
        return Err(error);
    }
    if !story_plan::has_scene(
        response.scene_plans.as_slice(),
        response.branches.entry_scene.as_str(),
    ) {
        return Err(
            router::contract_error("$.branches.entryScene", "references unknown scene id"),
        );
    }
    check_edges(&response.branches.edges, &response.scene_plans)
}

// ---------------------------------------------------------------------------
// The outline of a run without a model
// ---------------------------------------------------------------------------

pub open spec fn local_chapters(synopsis: Seq<char>) -> Seq<ChapterView> {
    seq![
        ChapterView {
            id: "ch1"@,
            title: "序章 · 日常的裂缝"@,
            summary: "主人公在熟悉的日常中发现异常，并第一次遇见掌握秘密的少女。"@ + synopsis,
        },
        ChapterView {
            id: "ch2"@,
            title: "第二章 · 共同越界"@,
            summary: "两人合作验证异常回声，在互相试探中建立信任，也触碰静默协议。"@,
        },
        ChapterView {
            id: "ch3"@,
            title: "终章 · 锚点"@,
            summary: "真相迫使主人公决定相信对方并承担代价，或退回安全却失去这段关系。"@,
        },
    ]
}

pub open spec fn local_scenes() -> Seq<SceneView> {
    seq![
        SceneView {
            id: "opening"@,
            file: "start.txt"@,
            chapter_id: "ch1"@,
            title: "听见回声"@,
            summary: "日常第一次出现无法解释的重复信号。"@,
            character_ids: seq!["protagonist"@, "heroine"@],
        },
        SceneView {
            id: "encounter"@,
            file: "chapter_01.txt"@,
            chapter_id: "ch1"@,
            title: "交换秘密"@,
            summary: "少女指出主人公也已成为异常的一部分。"@,
            character_ids: seq!["protagonist"@, "heroine"@],
        },
        SceneView {
            id: "investigation"@,
            file: "chapter_02.txt"@,
            chapter_id: "ch2"@,
            title: "共同越界"@,
            summary: "两人验证规则，第三位角色带来现实压力。"@,
            character_ids: seq!["protagonist"@, "heroine"@, "friend"@],
        },
        SceneView {
            id: "decision"@,
            file: "decision.txt"@,
            chapter_id: "ch3"@,
            title: "锚点选择"@,
            summary: "静默协议启动，主人公必须当场选择。"@,
            character_ids: seq!["protagonist"@, "heroine"@, "friend"@],
        },
        SceneView {
            id: "ending_trust"@,
            file: "ending_trust.txt"@,
            chapter_id: "ch3"@,
            title: "共同承担"@,
            summary: "主人公选择相信少女，两人带着代价继续追索真相。"@,
            character_ids: seq!["protagonist"@, "heroine"@],
        },
        SceneView {
            id: "ending_depart"@,
            file: "ending_depart.txt"@,
            chapter_id: "ch3"@,
            title: "归于静默"@,
            summary: "主人公回到安稳日常，却保留了一丝无法解释的熟悉感。"@,
            character_ids: seq!["protagonist"@],
        },
    ]
}

pub open spec fn local_branches() -> BranchView {
    BranchView {
        entry_scene: "opening"@,
        edges: seq![
            EdgeView { from: "opening"@, to: "encounter"@, choice: None },
            EdgeView { from: "encounter"@, to: "investigation"@, choice: None },
            EdgeView { from: "investigation"@, to: "decision"@, choice: None },
            EdgeView {
                from: "decision"@,
                to: "ending_trust"@,
                choice: Some("握住她的手，一起承担"@),
            },
            EdgeView {
                from: "decision"@,
                to: "ending_depart"@,
                choice: Some("遵守协议，回到日常"@),
            },
        ],
    }
}

fn chapter(id: &str, title: &str, summary: String) -> (r: ChapterPlan)
    ensures
        r@ == (ChapterView { id: id@, title: title@, summary: summary@ }),
{
    ChapterPlan { id: text::copy(id), title: text::copy(title), summary }
}

fn scene(
    id: &str,
    file: &str,
    chapter_id: &str,
    title: &str,
    summary: &str,
    characters: Vec<String>,
) -> (r: ScenePlan)
    ensures
        r@ == (SceneView {
            id: id@,
            file: file@,
            chapter_id: chapter_id@,
            title: title@,
            summary: summary@,
            character_ids: text::texts(characters@),
        }),
{
    ScenePlan {
        id: text::copy(id),
        file: text::copy(file),
        chapter_id: text::copy(chapter_id),
        title: text::copy(title),
        summary: text::copy(summary),
        character_ids: characters,
    }
}

fn edge(from: &str, to: &str, choice: Option<&str>) -> (r: BranchEdge)
    ensures
        r@ == (EdgeView {
            from: from@,
            to: to@,
            choice: match choice {
                Some(c) => Some(c@),
                None => None,
            },
        }),
{
    BranchEdge {
        from: text::copy(from),
        to: text::copy(to),
        choice: match choice {
            Some(c) => Some(text::copy(c)),
            None => None,
        },
    }
}

/// The cast: the protagonist, then the heroine, then the friend, `n` of them.
fn cast(n: usize) -> (r: Vec<String>)
    requires
        1 <= n <= 3,
    ensures
        text::texts(r@) == seq!["protagonist"@, "heroine"@, "friend"@].take(n as int),
{
    let mut r: Vec<String> = Vec::new();
    r.push(text::copy("protagonist"));
    if n > 1 {
        r.push(text::copy("heroine"));
    }
    if n > 2 {
        r.push(text::copy("friend"));
    }
    assert(text::texts(r@) =~= seq!["protagonist"@, "heroine"@, "friend"@].take(n as int));
    r
}

fn make_local_chapters(synopsis: &str) -> (r: Vec<ChapterPlan>)
    ensures
        story_plan::chapter_views(r@) == local_chapters(synopsis@),
{
    let r = vec![
        chapter(
            "ch1",
            "序章 · 日常的裂缝",
            router::joined("主人公在熟悉的日常中发现异常，并第一次遇见掌握秘密的少女。", synopsis),
        ),
        chapter(
            "ch2",
            "第二章 · 共同越界",
            text::copy("两人合作验证异常回声，在互相试探中建立信任，也触碰静默协议。"),
        ),
        chapter(
            "ch3",
            "终章 · 锚点",
            text::copy("真相迫使主人公决定相信对方并承担代价，或退回安全却失去这段关系。"),
        ),
    ];
    assert(story_plan::chapter_views(r@) =~= local_chapters(synopsis@));
    r
}

fn make_local_scenes() -> (r: Vec<ScenePlan>)
    ensures
        story_plan::scene_views(r@) == local_scenes(),
{
    let ghost all = seq!["protagonist"@, "heroine"@, "friend"@];
    assert(all.take(1) =~= seq!["protagonist"@]);
    assert(all.take(2) =~= seq!["protagonist"@, "heroine"@]);
    assert(all.take(3) =~= all);
    let r = vec![
        scene("opening", "start.txt", "ch1", "听见回声", "日常第一次出现无法解释的重复信号。", cast(2)),
        scene(
            "encounter",
            "chapter_01.txt",
            "ch1",
            "交换秘密",
            "少女指出主人公也已成为异常的一部分。",
            cast(2),
        ),
        scene(
            "investigation",
            "chapter_02.txt",
            "ch2",
            "共同越界",
            "两人验证规则，第三位角色带来现实压力。",
            cast(3),
        ),
        scene("decision", "decision.txt", "ch3", "锚点选择", "静默协议启动，主人公必须当场选择。", cast(3)),
        scene(
            "ending_trust",
            "ending_trust.txt",
            "ch3",
            "共同承担",
            "主人公选择相信少女，两人带着代价继续追索真相。",
            cast(2),
        ),
        scene(
            "ending_depart",
            "ending_depart.txt",
            "ch3",
            "归于静默",
            "主人公回到安稳日常，却保留了一丝无法解释的熟悉感。",
            cast(1),
        ),
    ];
    assert(story_plan::scene_views(r@) =~= local_scenes());
    r
}

fn make_local_branches() -> (r: BranchGraph)
    ensures
        r@ == local_branches(),
{
    let edges = vec![
        edge("opening", "encounter", None),
        edge("encounter", "investigation", None),
        edge("investigation", "decision", None),
        edge("decision", "ending_trust", Some("握住她的手，一起承担")),
        edge("decision", "ending_depart", Some("遵守协议，回到日常")),
    ];
    let r = BranchGraph { entry_scene: text::copy("opening"), edges };
    assert(r@.edges =~= local_branches().edges);
    r
}

/// What the model is told, each field under its name in JSON.
pub struct OutlineInput<'a> {
    pub production_brief: &'a str,
    pub synopsis: String,
    pub worldbook: &'a str,
    pub glossary: &'a TextMap<String>,
    pub step_instruction: &'a str,
    pub requirements: &'static str,
}

impl OutlineAgent {
    /// What the model is told of the flow.
    pub fn input<'a>(&self, ctx: &AgentContext<'a>) -> (r: Result<OutlineInput<'a>, AgentError>)
        ensures
            match r {
                Ok(input) => {
                    &&& !text::blank(ctx.synopsis@)
                    &&& input.production_brief@ == ctx.prompt@
                    &&& input.synopsis@ == text::trim_of(ctx.synopsis@)
                    &&& input.worldbook@ == ctx.worldbook@
                    &&& input.glossary == ctx.glossary
                    &&& input.step_instruction@ == ctx.instruction@
                    &&& input.requirements@ == REQUIREMENTS@
                },
                Err(e) => text::blank(ctx.synopsis@) && e.0@ == "Plotter requires a synopsis"@,
            },
    {
        if text::is_blank(ctx.synopsis) {
            return Err(AgentError(text::copy("Plotter requires a synopsis")));
        }
        Ok(
            OutlineInput {
                production_brief: ctx.prompt,
                synopsis: text::trim(ctx.synopsis),
                worldbook: ctx.worldbook,
                glossary: ctx.glossary,
                step_instruction: ctx.instruction,
                requirements: REQUIREMENTS,
            },
        )
    }
}

impl OutlineAgent {
    /// What is asked of the model, around the given context.
    pub fn request(&self, ctx: &AgentContext, context: String) -> (r: Result<ModelTask, AgentError>)
        ensures
            match r {
                Ok(task) => !text::blank(ctx.synopsis@) && task.role@ == ROLE@ && task.task@ == TASK@
                    && task.context == context && task.allow_local_fallback
                    == ctx.allow_local_fallback,
                Err(e) => text::blank(ctx.synopsis@) && e.0@ == "Plotter requires a synopsis"@,
            },
    {
        if text::is_blank(ctx.synopsis) {
            return Err(AgentError(text::copy("Plotter requires a synopsis")));
        }
        Ok(
            ModelTask {
                role: text::copy(ROLE),
                task: text::copy(TASK),
                context,
                allow_local_fallback: ctx.allow_local_fallback,
            },
        )
    }

    /// Completes a model's outline and holds it to its contract.
    pub fn validate(&self, ctx: &AgentContext, response: &mut OutlineResponse) -> (r: Result<
        (),
        AgentError,
    >)
        ensures
            story_plan::chapter_views(final(response).chapters@) == filled_chapters(
                story_plan::chapter_views(old(response).chapters@),
                text::trim_of(ctx.synopsis@),
            ),
            story_plan::scene_views(final(response).scene_plans@) == filled_scenes(
                story_plan::scene_views(old(response).scene_plans@),
            ),
            final(response).branches == old(response).branches,
            match (
                r,
                outline_fault(
                    story_plan::chapter_views(final(response).chapters@),
                    story_plan::scene_views(final(response).scene_plans@),
                    final(response).branches@,
                ),
            ) {
                (Ok(_), None) => true,
                (Err(e), Some(message)) => e.0@ == message,
                _ => false,
            },
    {
        let synopsis = text::trim(ctx.synopsis);
        validate_response(response, synopsis.as_str())
    }

    /// The agent's output, given how the conversation with the model ended.
    pub fn run(
        &self,
        ctx: &AgentContext,
        reply: Result<Option<Routed<OutlineResponse>>, AgentError>,
    ) -> (r: Result<AgentOutput, AgentError>)
        ensures
            if text::blank(ctx.synopsis@) {
                r matches Err(e) && e.0@ == "Plotter requires a synopsis"@
            } else {
                match reply {
                    Err(error) => r == Err::<AgentOutput, AgentError>(error),
                    Ok(Some(routed)) => r matches Ok(out) && out.payload == (
                    AgentOutputPayload::Outline {
                        chapters: routed.value.chapters,
                        scene_plans: routed.value.scene_plans,
                        branches: routed.value.branches,
                    }) && crate::agents::from_model(
                        out,
                        routed.model,
                        routed.prompt_tokens,
                        routed.completion_tokens,
                    ),
                    Ok(None) => r matches Ok(out) && crate::agents::from_template(out) && (
                    out.payload matches AgentOutputPayload::Outline {
                        chapters,
                        scene_plans,
                        branches,
                    } && story_plan::chapter_views(chapters@) == local_chapters(
                        text::trim_of(ctx.synopsis@),
                    ) && story_plan::scene_views(scene_plans@) == local_scenes() && branches@
                        == local_branches()),
                }
            },
    {
        let synopsis = text::trim(ctx.synopsis);
        if synopsis.as_str().is_empty() {
            return Err(AgentError(text::copy("Plotter requires a synopsis")));
        }
        match reply {
            Err(error) => Err(error),
            Ok(Some(routed)) => Ok(
                AgentOutput::new(
                    AgentOutputPayload::Outline {
                        chapters: routed.value.chapters,
                        scene_plans: routed.value.scene_plans,
                        branches: routed.value.branches,
                    },
                ).with_model(routed.model, routed.prompt_tokens, routed.completion_tokens),
            ),
            Ok(None) => {
                let payload = AgentOutputPayload::Outline {
                    chapters: make_local_chapters(synopsis.as_str()),
                    scene_plans: make_local_scenes(),
                    branches: make_local_branches(),
                };
                let out = AgentOutput::new(payload).local_fallback();
                assert(text::texts(out.warnings@) =~= seq!["未配置可用的对话模型，已使用本地内容模板"@]);
                Ok(out)
            },
        }
    }
}

proof fn lemma_starts_dark(s: Seq<char>)
    requires
        s.len() > 0,
        !text::whitespace(s[0]),
    ensures
        !text::blank(s),
{
    text::lemma_blank(s);
}

proof fn lemma_local_ids()
    ensures
        forall|i: int|
            #![trigger local_scenes()[i]]
            0 <= i < 6 ==> !text::blank(local_scenes()[i].id) && !text::blank(
                local_scenes()[i].title,
            ),
        forall|i: int, j: int|
            0 <= i < j < 6 ==> (#[trigger] local_scenes()[i]).id != (#[trigger] local_scenes()[j]).id,
{
    reveal_strlit("opening");
    reveal_strlit("encounter");
    reveal_strlit("investigation");
    reveal_strlit("decision");
    reveal_strlit("ending_trust");
    reveal_strlit("ending_depart");
    reveal_strlit("听见回声");
    reveal_strlit("交换秘密");
    reveal_strlit("共同越界");
    reveal_strlit("锚点选择");
    reveal_strlit("共同承担");
    reveal_strlit("归于静默");
    assert("encounter"@[1] == 'n' && "ending_trust"@[1] == 'n' && "ending_depart"@[1] == 'n');
    let ss = local_scenes();
    assert forall|i: int| #![trigger local_scenes()[i]] 0 <= i < 6 implies !text::blank(
        local_scenes()[i].id,
    ) && !text::blank(local_scenes()[i].title) by {
        lemma_starts_dark(ss[i].id);
        lemma_starts_dark(ss[i].title);
    }
}

proof fn lemma_local_files()
    ensures
        forall|i: int|
            #![trigger local_scenes()[i]]
            0 <= i < 6 ==> safe_scene_file(local_scenes()[i].file),
        forall|i: int, j: int|
            #![trigger local_scenes()[i], local_scenes()[j]]
            0 <= i < j < 6 ==> local_scenes()[i].file != local_scenes()[j].file,
{
    reveal_strlit(".txt");
    reveal_strlit("start.txt");
    reveal_strlit("chapter_01.txt");
    reveal_strlit("chapter_02.txt");
    reveal_strlit("decision.txt");
    reveal_strlit("ending_trust.txt");
    reveal_strlit("ending_depart.txt");
    assert("chapter_01.txt"@[9] == '1' && "chapter_02.txt"@[9] == '2');
    let ss = local_scenes();
    assert forall|i: int| #![trigger local_scenes()[i]] 0 <= i < 6 implies safe_scene_file(
        local_scenes()[i].file,
    ) by {
        let f = ss[i].file;
        assert(f.subrange(f.len() - 4, f.len() as int) =~= ".txt"@);
        assert forall|k: int| 0 <= k < f.len() - 4 implies story_plan::flag_char(
            #[trigger] f.take(f.len() - 4)[k],
        ) by {
            assert(f.take(f.len() - 4)[k] == f[k]);
        }
    }
}

proof fn lemma_local_references(synopsis: Seq<char>)
    ensures
        forall|i: int|
            #![trigger local_scenes()[i]]
            0 <= i < 6 ==> chapter_known(local_chapters(synopsis), local_scenes()[i].chapter_id),
        forall|i: int|
            #![trigger local_chapters(synopsis)[i]]
            0 <= i < 3 ==> !text::blank(local_chapters(synopsis)[i].id) && !text::blank(
                local_chapters(synopsis)[i].title,
            ),
        forall|i: int, j: int|
            0 <= i < j < 3 ==> (#[trigger] local_chapters(synopsis)[i]).id != (
            #[trigger] local_chapters(synopsis)[j]).id,
{
    reveal_strlit("ch1");
    reveal_strlit("ch2");
    reveal_strlit("ch3");
    reveal_strlit("序章 · 日常的裂缝");
    reveal_strlit("第二章 · 共同越界");
    reveal_strlit("终章 · 锚点");
    let cs = local_chapters(synopsis);
    assert("ch1"@[2] == '1' && "ch2"@[2] == '2' && "ch3"@[2] == '3');
    assert(cs[0].id == "ch1"@ && cs[1].id == "ch2"@ && cs[2].id == "ch3"@);
    assert forall|i: int| #![trigger local_chapters(synopsis)[i]] 0 <= i < 3 implies !text::blank(
        local_chapters(synopsis)[i].id,
    ) && !text::blank(local_chapters(synopsis)[i].title) by {
        lemma_starts_dark(cs[i].id);
        lemma_starts_dark(cs[i].title);
    }
}

/// The outline of a run without a model keeps the contract that a model's
/// outline is held to.
pub proof fn local_outline_is_sound(synopsis: Seq<char>)
    ensures
        outline_sound(local_chapters(synopsis), local_scenes(), local_branches()),
{
    lemma_local_ids();
    lemma_local_files();
    lemma_local_references(synopsis);
    let cs = local_chapters(synopsis);
    let ss = local_scenes();
    let b = local_branches();
    reveal_strlit("protagonist");
    reveal_strlit("heroine");
    reveal_strlit("friend");
    lemma_starts_dark("protagonist"@);
    lemma_starts_dark("heroine"@);
    lemma_starts_dark("friend"@);
    assert(ss[0].id == "opening"@ && ss[1].id == "encounter"@ && ss[2].id == "investigation"@
        && ss[3].id == "decision"@ && ss[4].id == "ending_trust"@ && ss[5].id == "ending_depart"@);
    assert forall|i: int| 0 <= i < cs.len() implies !text::blank((#[trigger] cs[i]).id)
        && !text::blank(cs[i].title) by {
        assert(local_chapters(synopsis)[i] == cs[i]);
    }
    assert forall|i: int| 0 <= i < ss.len() implies {
        let s = #[trigger] ss[i];
        &&& !text::blank(s.id)
        &&& safe_scene_file(s.file)
        &&& chapter_known(cs, s.chapter_id)
        &&& !text::blank(s.title)
        &&& forall|k: int|
            0 <= k < s.character_ids.len() ==> !text::blank(#[trigger] s.character_ids[k])
    } by {
        assert(local_scenes()[i] == ss[i]);
    }
    assert(story_plan::scene_known(ss, b.entry_scene));
    assert forall|i: int| 0 <= i < b.edges.len() implies story_plan::scene_known(
        ss,
        (#[trigger] b.edges[i]).from,
    ) && story_plan::scene_known(ss, b.edges[i].to) by {}
}

// ---------------------------------------------------------------------------
// What an outline is refused for
// ---------------------------------------------------------------------------

/// An outline is accepted exactly where it can be played: it has chapters and at least
/// two scenes; chapters and scenes have names and ids of their own; each scene has a
/// safe file of its own, belongs to a chapter and names its cast; and the entry and both
/// ends of every edge are scenes.
pub proof fn outlines_are_accepted_where_they_can_be_played(
    chapters: Seq<ChapterView>,
    scenes: Seq<SceneView>,
    branches: BranchView,
)
    ensures
        outline_fault(chapters, scenes, branches) is None <==> {
            &&& chapters.len() > 0 && scenes.len() >= 2
            &&& forall|i: int|
                0 <= i < chapters.len() ==> !text::blank((#[trigger] chapters[i]).id)
                    && !text::blank(chapters[i].title)
            &&& forall|i: int, j: int|
                0 <= i < j < chapters.len() ==> (#[trigger] chapters[i]).id != (
                #[trigger] chapters[j]).id
            &&& forall|i: int|
                0 <= i < scenes.len() ==> {
                    let s = #[trigger] scenes[i];
                    &&& !text::blank(s.id) && !text::blank(s.title)
                    &&& text::ends(s.file, ".txt"@) && s.file.len() > 4 && forall|k: int|
                        0 <= k < s.file.len() - 4 ==> text::ascii_alphanumeric(#[trigger] s.file[k])
                            || s.file[k] == '_' || s.file[k] == '-'
                    &&& exists|c: int| 0 <= c < chapters.len() && (#[trigger] chapters[c]).id == s.chapter_id
                    &&& forall|k: int|
                        0 <= k < s.character_ids.len() ==> !text::blank(#[trigger] s.character_ids[k])
                }
            &&& forall|i: int, j: int|
                0 <= i < j < scenes.len() ==> (#[trigger] scenes[i]).id != (#[trigger] scenes[j]).id
                    && scenes[i].file != scenes[j].file
            &&& exists|s: int| 0 <= s < scenes.len() && (#[trigger] scenes[s]).id == branches.entry_scene
            &&& forall|e: int|
                0 <= e < branches.edges.len() ==> (exists|s: int|
                    0 <= s < scenes.len() && (#[trigger] scenes[s]).id == (
                    #[trigger] branches.edges[e]).from) && (exists|s: int|
                    0 <= s < scenes.len() && (#[trigger] scenes[s]).id == branches.edges[e].to)
        },
{
    faultless_outlines_are_sound(chapters, scenes, branches);
    assert forall|i: int| 0 <= i < scenes.len() implies (safe_scene_file(
        (#[trigger] scenes[i]).file,
    ) <==> text::ends(scenes[i].file, ".txt"@) && scenes[i].file.len() > 4 && forall|k: int|
        0 <= k < scenes[i].file.len() - 4 ==> text::ascii_alphanumeric(
            #[trigger] scenes[i].file[k],
        ) || scenes[i].file[k] == '_' || scenes[i].file[k] == '-') by {
        lemma_safe_scene_file(scenes[i].file);
    }
    assert forall|i: int| 0 <= i < scenes.len() implies (chapter_known(
        chapters,
        (#[trigger] scenes[i]).chapter_id,
    ) <==> exists|c: int|
        0 <= c < chapters.len() && (#[trigger] chapters[c]).id == scenes[i].chapter_id) by {}
}

proof fn lemma_safe_scene_file(file: Seq<char>)
    ensures
        safe_scene_file(file) <==> text::ends(file, ".txt"@) && file.len() > 4 && forall|k: int|
            0 <= k < file.len() - 4 ==> text::ascii_alphanumeric(#[trigger] file[k]) || file[k] == '_'
                || file[k] == '-',
{
    reveal_strlit(".txt");
    if text::ends(file, ".txt"@) {
        let stem = file.take(file.len() - 4);
        if safe_scene_file(file) {
            assert forall|k: int| 0 <= k < file.len() - 4 implies text::ascii_alphanumeric(
                #[trigger] file[k],
            ) || file[k] == '_' || file[k] == '-' by {
                assert(story_plan::flag_char(stem[k]));
            }
        }
        if file.len() > 4 && forall|k: int|
            0 <= k < file.len() - 4 ==> text::ascii_alphanumeric(#[trigger] file[k]) || file[k] == '_'
                || file[k] == '-' {
            assert forall|k: int| 0 <= k < stem.len() implies story_plan::flag_char(
                #[trigger] stem[k],
            ) by {
                assert(stem[k] == file[k]);
            }
        }
    }
}

/// A refused chapter is named: the first one with a fault, by its place in the list and
/// the field that is wrong.
pub proof fn refused_chapters_are_named(
    chapters: Seq<ChapterView>,
    scenes: Seq<SceneView>,
    branches: BranchView,
    i: int,
)
    requires
        scenes.len() >= 2,
        0 <= i < chapters.len(),
        forall|j: int|
            0 <= j < i ==> !text::blank((#[trigger] chapters[j]).id) && !text::blank(
                chapters[j].title,
            ),
        forall|j: int, k: int|
            0 <= j < k < i ==> (#[trigger] chapters[j]).id != (#[trigger] chapters[k]).id,
        text::blank(chapters[i].id) || text::blank(chapters[i].title) || exists|j: int|
            0 <= j < i && (#[trigger] chapters[j]).id == chapters[i].id,
    ensures
        ({
            let taken = exists|j: int| 0 <= j < i && (#[trigger] chapters[j]).id == chapters[i].id;
            outline_fault(chapters, scenes, branches) == Some(
                router::violation(
                    "$.chapters"@ + "["@ + text::decimal(i as nat) + "]"@ + (if text::blank(
                        chapters[i].id,
                    ) || taken {
                        ".id"@
                    } else {
                        ".title"@
                    }),
                    if !text::blank(chapters[i].id) && taken {
                        "must be unique"@
                    } else {
                        "must not be empty"@
                    },
                ),
            )
        }),
{
    assert forall|j: int| 0 <= j < i implies chapter_fault(chapters, j) is None by {
        assert(!text::blank(chapters[j].id));
        if chapter_id_taken(chapters, j) {
            let k = choose|k: int| 0 <= k < j && (#[trigger] chapters[k]).id == chapters[j].id;
            assert(chapters[k].id != chapters[j].id);
        }
    }
    lemma_first_chapter_fault(chapters, 0, i);
}

proof fn lemma_first_chapter_fault(chapters: Seq<ChapterView>, from: int, i: int)
    requires
        0 <= from <= i < chapters.len(),
        forall|j: int| from <= j < i ==> chapter_fault(chapters, j) is None,
        chapter_fault(chapters, i) is Some,
    ensures
        chapters_fault_from(chapters, from) == Some(
            router::violation(
                router::item_path("$.chapters"@, i) + chapter_fault(chapters, i).unwrap().0,
                chapter_fault(chapters, i).unwrap().1,
            ),
        ),
    decreases i - from,
{
    if from < i {
        assert(chapter_fault(chapters, from) is None);
        lemma_first_chapter_fault(chapters, from + 1, i);
    }
}

/// A refused scene is named: where the chapters have no fault, the first scene with one,
/// by its place in the list and the field that is wrong.
pub proof fn refused_scenes_are_named(
    chapters: Seq<ChapterView>,
    scenes: Seq<SceneView>,
    branches: BranchView,
    i: int,
)
    requires
        chapters.len() > 0 && scenes.len() >= 2,
        chapters_fault_from(chapters, 0) is None,
        0 <= i < scenes.len(),
        forall|j: int| 0 <= j < i ==> scene_fault(scenes, j, chapters) is None,
        ({
            let s = scenes[i];
            text::blank(s.id) || !safe_scene_file(s.file) || !chapter_known(chapters, s.chapter_id)
                || text::blank(s.title)
        }),
        forall|j: int|
            0 <= j < i ==> (#[trigger] scenes[j]).id != scenes[i].id && scenes[j].file
                != scenes[i].file,
    ensures
        ({
            let s = scenes[i];
            let field = if text::blank(s.id) {
                ".id"@
            } else if !safe_scene_file(s.file) {
                ".file"@
            } else if !chapter_known(chapters, s.chapter_id) {
                ".chapterId"@
            } else {
                ".title"@
            };
            outline_fault(chapters, scenes, branches) matches Some(m) && text::begins(
                m,
                "contract violation at "@ + ("$.scenePlans"@ + "["@ + text::decimal(i as nat) + "]"@
                    + field) + ": "@,
            )
        }),
{
    let fault = scene_fault(scenes, i, chapters);
    lemma_first_scene_fault(scenes, 0, i, chapters);
    let head = "contract violation at "@ + (router::item_path("$.scenePlans"@, i)
        + fault.unwrap().0) + ": "@;
    text::parts_of_a_text_are_found(Seq::empty(), head, fault.unwrap().1, head);
}

proof fn lemma_first_scene_fault(
    scenes: Seq<SceneView>,
    from: int,
    i: int,
    chapters: Seq<ChapterView>,
)
    requires
        0 <= from <= i < scenes.len(),
        forall|j: int| from <= j < i ==> scene_fault(scenes, j, chapters) is None,
        scene_fault(scenes, i, chapters) is Some,
    ensures
        scenes_fault_from(scenes, from, chapters) == Some(
            router::violation(
                router::item_path("$.scenePlans"@, i) + scene_fault(
                    scenes,
                    i,
                    chapters,
                ).unwrap().0,
                scene_fault(scenes, i, chapters).unwrap().1,
            ),
        ),
    decreases i - from,
{
    if from < i {
        assert(scene_fault(scenes, from, chapters) is None);
        lemma_first_scene_fault(scenes, from + 1, i, chapters);
    }
}

/// A missing summary is made up from what is known, the title and, of a chapter, the
/// synopsis; a summary that is there is kept, and so is everything else.
pub proof fn missing_summaries_are_made_up(
    chapters: Seq<ChapterView>,
    scenes: Seq<SceneView>,
    synopsis: Seq<char>,
    i: int,
    j: int,
)
    requires
        0 <= i < chapters.len(),
        0 <= j < scenes.len(),
    ensures
        filled_chapters(chapters, synopsis).len() == chapters.len(),
        filled_scenes(scenes).len() == scenes.len(),
        ({
            let c = filled_chapters(chapters, synopsis)[i];
            &&& c.id == chapters[i].id && c.title == chapters[i].title
            &&& !text::blank(chapters[i].summary) ==> c.summary == chapters[i].summary
            &&& text::blank(chapters[i].summary) ==> text::occurs(c.summary, chapters[i].title)
                && text::ends(c.summary, synopsis)
        }),
        ({
            let s = filled_scenes(scenes)[j];
            &&& s == (SceneView { summary: s.summary, ..scenes[j] })
            &&& !text::blank(scenes[j].summary) ==> s.summary == scenes[j].summary
            &&& text::blank(scenes[j].summary) ==> text::occurs(s.summary, scenes[j].title)
        }),
{
    let a = "章节“"@;
    let b = "”围绕故事主线继续推进："@;
    let title = chapters[i].title;
    assert(a + title + b + synopsis =~= a + title + (b + synopsis));
    text::parts_of_a_text_are_found(a, title, b + synopsis, title);
    text::parts_of_a_text_are_found(a + title + b, synopsis, Seq::empty(), title);
    text::parts_of_a_text_are_found(
        "围绕“"@,
        scenes[j].title,
        "”展开，推进主线冲突与人物关系。"@,
        title,
    );
}

} // verus!
