//! The story plan: the structured data that the agents hand to one another.
use vstd::prelude::*;

use crate::characters::Character;
use crate::text;
use crate::text_map::TextMap;

verus! {

/// The model of an optional text.
pub open spec fn opt_text(o: Option<String>) -> Option<Seq<char>> {
    match o {
        Some(s) => Some(s@),
        None => None,
    }
}

/// A chapter of the story.
#[derive(Debug, Clone, PartialEq, Eq)]
pub struct ChapterPlan {
    pub id: String,
    pub title: String,
    pub summary: String,
}

/// A scene card: one scene file and the characters who appear in it.
#[derive(Debug, Clone, PartialEq, Eq)]
pub struct ScenePlan {
    pub id: String,
    pub file: String,
    pub chapter_id: String,
    pub title: String,
    pub summary: String,
    pub character_ids: Vec<String>,
}

/// A transition between two scenes, with the text of the choice that takes it.
#[derive(Debug, Clone, PartialEq, Eq)]
pub struct BranchEdge {
    pub from: String,
    pub to: String,
    pub choice: Option<String>,
}

/// The branch topology of the story.
#[derive(Debug, Clone, PartialEq, Eq, Default)]
pub struct BranchGraph {
    pub entry_scene: String,
    pub edges: Vec<BranchEdge>,
}

#[derive(Debug, Clone, Copy, PartialEq, Eq, Structural)]
pub enum FigureCueAction {
    Show,
    Hide,
}

#[derive(Debug, Clone, Copy, PartialEq, Eq, Structural)]
pub enum FigureStagePosition {
    Left,
    Center,
    Right,
}

/// A figure enters or leaves the stage.
#[derive(Debug, Clone, PartialEq, Eq)]
pub struct FigureCue {
    pub action: FigureCueAction,
    pub character_id: String,
    pub position: Option<FigureStagePosition>,
    pub emotion: String,
}

/// One line of dialogue or narration, with the cues that come before it.
#[derive(Debug, Clone, PartialEq, Eq)]
pub struct DialogueBeat {
    pub speaker: Option<String>,
    pub text: String,
    pub figure_cues: Vec<FigureCue>,
}

/// The dialogue of one scene.
#[derive(Debug, Clone, PartialEq, Eq)]
pub struct SceneDraft {
    pub scene_id: String,
    pub title: String,
    pub stage_managed: bool,
    pub beats: Vec<DialogueBeat>,
}

/// An asset that the story needs.
#[derive(Debug, Clone, PartialEq, Eq)]
pub struct AssetTaskPlan {
    pub id: String,
    pub kind: String,
    pub target_stem: String,
    pub prompt: String,
    pub scene_ref: Option<String>,
    pub character_ref: Option<String>,
    pub emotion: Option<String>,
    pub status: String,
}

/// What the story's world holds true.
pub struct StoryMemory {
    pub worldbook: String,
    pub glossary: TextMap<String>,
}

/// Everything that the agents have planned so far.
pub struct StoryPlan {
    pub prompt: String,
    pub synopsis: String,
    pub memory: StoryMemory,
    pub chapters: Vec<ChapterPlan>,
    pub characters: Vec<Character>,
    pub scene_plans: Vec<ScenePlan>,
    pub branches: BranchGraph,
    pub scene_drafts: Vec<SceneDraft>,
    pub asset_plan: Vec<AssetTaskPlan>,
}

impl StoryPlan {
    /// A plan that holds nothing but its brief.
    pub fn new(prompt: String) -> (r: StoryPlan)
        ensures
            r.prompt == prompt,
            r.synopsis@.len() == 0,
            r.memory.worldbook@.len() == 0,
            r.memory.glossary@ == Map::<Seq<char>, String>::empty(),
            r.chapters@.len() == 0,
            r.characters@.len() == 0,
            r.scene_plans@.len() == 0,
            r.branches.entry_scene@.len() == 0,
            r.branches.edges@.len() == 0,
            r.scene_drafts@.len() == 0,
            r.asset_plan@.len() == 0,
    {
        StoryPlan {
            prompt,
            synopsis: String::new(),
            memory: StoryMemory { worldbook: String::new(), glossary: TextMap::new() },
            chapters: Vec::new(),
            characters: Vec::new(),
            scene_plans: Vec::new(),
            branches: BranchGraph { entry_scene: String::new(), edges: Vec::new() },
            scene_drafts: Vec::new(),
            asset_plan: Vec::new(),
        }
    }
}

// ---------------------------------------------------------------------------
// Models
// ---------------------------------------------------------------------------

#[verifier::ext_equal]
pub struct ChapterView {
    pub id: Seq<char>,
    pub title: Seq<char>,
    pub summary: Seq<char>,
}

#[verifier::ext_equal]
pub struct SceneView {
    pub id: Seq<char>,
    pub file: Seq<char>,
    pub chapter_id: Seq<char>,
    pub title: Seq<char>,
    pub summary: Seq<char>,
    pub character_ids: Seq<Seq<char>>,
}

#[verifier::ext_equal]
pub struct EdgeView {
    pub from: Seq<char>,
    pub to: Seq<char>,
    pub choice: Option<Seq<char>>,
}

#[verifier::ext_equal]
pub struct BranchView {
    pub entry_scene: Seq<char>,
    pub edges: Seq<EdgeView>,
}

#[verifier::ext_equal]
pub struct CueView {
    pub action: FigureCueAction,
    pub character_id: Seq<char>,
    pub position: Option<FigureStagePosition>,
    pub emotion: Seq<char>,
}

#[verifier::ext_equal]
pub struct BeatView {
    pub speaker: Option<Seq<char>>,
    pub text: Seq<char>,
    pub figure_cues: Seq<CueView>,
}

#[verifier::ext_equal]
pub struct DraftView {
    pub scene_id: Seq<char>,
    pub title: Seq<char>,
    pub stage_managed: bool,
    pub beats: Seq<BeatView>,
}

#[verifier::ext_equal]
pub struct TaskPlanView {
    pub id: Seq<char>,
    pub kind: Seq<char>,
    pub target_stem: Seq<char>,
    pub prompt: Seq<char>,
    pub scene_ref: Option<Seq<char>>,
    pub character_ref: Option<Seq<char>>,
    pub emotion: Option<Seq<char>>,
    pub status: Seq<char>,
}

impl View for ChapterPlan {
    type V = ChapterView;

    open spec fn view(&self) -> ChapterView {
        ChapterView { id: self.id@, title: self.title@, summary: self.summary@ }
    }
}

impl View for ScenePlan {
    type V = SceneView;

    open spec fn view(&self) -> SceneView {
        SceneView {
            id: self.id@,
            file: self.file@,
            chapter_id: self.chapter_id@,
            title: self.title@,
            summary: self.summary@,
            character_ids: text::texts(self.character_ids@),
        }
    }
}

impl View for BranchEdge {
    type V = EdgeView;

    open spec fn view(&self) -> EdgeView {
        EdgeView { from: self.from@, to: self.to@, choice: opt_text(self.choice) }
    }
}

impl View for BranchGraph {
    type V = BranchView;

    open spec fn view(&self) -> BranchView {
        BranchView {
            entry_scene: self.entry_scene@,
            edges: self.edges@.map_values(|e: BranchEdge| e@),
        }
    }
}

impl View for FigureCue {
    type V = CueView;

    open spec fn view(&self) -> CueView {
        CueView {
            action: self.action,
            character_id: self.character_id@,
            position: self.position,
            emotion: self.emotion@,
        }
    }
}

impl View for DialogueBeat {
    type V = BeatView;

    open spec fn view(&self) -> BeatView {
        BeatView {
            speaker: opt_text(self.speaker),
            text: self.text@,
            figure_cues: self.figure_cues@.map_values(|c: FigureCue| c@),
        }
    }
}

impl View for SceneDraft {
    type V = DraftView;

    open spec fn view(&self) -> DraftView {
        DraftView {
            scene_id: self.scene_id@,
            title: self.title@,
            stage_managed: self.stage_managed,
            beats: self.beats@.map_values(|b: DialogueBeat| b@),
        }
    }
}

impl View for AssetTaskPlan {
    type V = TaskPlanView;

    open spec fn view(&self) -> TaskPlanView {
        TaskPlanView {
            id: self.id@,
            kind: self.kind@,
            target_stem: self.target_stem@,
            prompt: self.prompt@,
            scene_ref: opt_text(self.scene_ref),
            character_ref: opt_text(self.character_ref),
            emotion: opt_text(self.emotion),
            status: self.status@,
        }
    }
}

pub open spec fn chapter_views(v: Seq<ChapterPlan>) -> Seq<ChapterView> {
    v.map_values(|c: ChapterPlan| c@)
}

pub open spec fn scene_views(v: Seq<ScenePlan>) -> Seq<SceneView> {
    v.map_values(|s: ScenePlan| s@)
}

pub open spec fn draft_views(v: Seq<SceneDraft>) -> Seq<DraftView> {
    v.map_values(|d: SceneDraft| d@)
}

pub open spec fn task_views(v: Seq<AssetTaskPlan>) -> Seq<TaskPlanView> {
    v.map_values(|t: AssetTaskPlan| t@)
}

// ---------------------------------------------------------------------------
// Safe identifiers
// ---------------------------------------------------------------------------

pub open spec fn flag_char(c: char) -> bool {
    text::ascii_alphanumeric(c) || c == '_' || c == '-'
}

/// A value that can stand behind a WebGAL flag without being split or escaped:
/// ASCII letters, digits, `_` and `-`, at least one of them.
pub open spec fn flag_value(s: Seq<char>) -> bool {
    s.len() > 0 && forall|i: int| 0 <= i < s.len() ==> flag_char(#[trigger] s[i])
}

pub fn is_flag_char(c: char) -> (r: bool)
    ensures
        r == flag_char(c),
{
    text::is_ascii_alphanumeric(c) || c == '_' || c == '-'
}

pub fn is_webgal_flag_value(s: &str) -> (r: bool)
    ensures
        r == flag_value(s@),
{
    let v = text::chars_of(s);
    let mut i: usize = 0;
    while i < v.len()
        invariant
            i <= v.len(),
            v@ == s@,
            forall|j: int| 0 <= j < i ==> flag_char(#[trigger] s@[j]),
        decreases v.len() - i,
    {
        if !is_flag_char(v[i]) {
            assert(!flag_char(s@[i as int]));
            return false;
        }
        i += 1;
    }
    v.len() > 0
}

// ---------------------------------------------------------------------------
// Lookups by id
// ---------------------------------------------------------------------------

/// Whether some scene has this id.
pub open spec fn scene_known(scenes: Seq<SceneView>, id: Seq<char>) -> bool {
    exists|i: int| 0 <= i < scenes.len() && #[trigger] scenes[i].id == id
}

pub fn has_scene(scenes: &[ScenePlan], id: &str) -> (r: bool)
    ensures
        r == scene_known(scene_views(scenes@), id@),
{
    let ghost views = scene_views(scenes@);
    let mut i: usize = 0;
    while i < scenes.len()
        invariant
            i <= scenes.len(),
            views == scene_views(scenes@),
            forall|j: int| 0 <= j < i ==> #[trigger] views[j].id != id@,
        decreases scenes.len() - i,
    {
        if text::same(scenes[i].id.as_str(), id) {
            assert(views[i as int].id == id@);
            return true;
        }
        i += 1;
    }
    false
}

/// A copy of an optional text.
pub fn copy_opt(o: &Option<String>) -> (r: Option<String>)
    ensures
        r == *o,
{
    match o {
        Some(s) => Some(s.clone()),
        None => None,
    }
}

/// Whether an optional text is present and equals `s`.
pub fn opt_is(o: &Option<String>, s: &str) -> (r: bool)
    ensures
        r == (opt_text(*o) == Some(s@)),
{
    match o {
        Some(t) => text::same(t.as_str(), s),
        None => false,
    }
}

/// Whether two optional texts are equal.
pub fn same_opt(a: &Option<String>, b: &Option<String>) -> (r: bool)
    ensures
        r == (opt_text(*a) == opt_text(*b)),
{
    match (a, b) {
        (Some(x), Some(y)) => text::same(x.as_str(), y.as_str()),
        (None, None) => true,
        (Some(_), None) => false,
        (None, Some(_)) => false,
    }
}

/// A value can stand behind a flag of a command where it is not empty and made of ASCII letters,
/// digits, `_` and `-` only.
pub proof fn flag_values_are_plain_words(s: Seq<char>)
    ensures
        flag_value(s) <==> s != Seq::<char>::empty() && forall|i: int|
            0 <= i < s.len() ==> ('a' <= #[trigger] s[i] <= 'z' || 'A' <= s[i] <= 'Z' || '0' <= s[i]
                <= '9' || s[i] == '_' || s[i] == '-'),
{
    if s.len() == 0 {
        assert(s =~= Seq::<char>::empty());
    }
    if flag_value(s) {
        assert forall|i: int| 0 <= i < s.len() implies ('a' <= #[trigger] s[i] <= 'z' || 'A' <= s[i]
            <= 'Z' || '0' <= s[i] <= '9' || s[i] == '_' || s[i] == '-') by {
            assert(flag_char(s[i]));
        }
    }
}

/// Two chapters, scenes, edges or tasks are seen alike only where every field of theirs is.
pub proof fn plans_are_told_apart_by_their_fields(
    c: ChapterPlan,
    c2: ChapterPlan,
    s: ScenePlan,
    s2: ScenePlan,
    e: BranchEdge,
    e2: BranchEdge,
    t: AssetTaskPlan,
    t2: AssetTaskPlan,
)
    ensures
        c@ == c2@ <==> c.id@ == c2.id@ && c.title@ == c2.title@ && c.summary@ == c2.summary@,
        s@ == s2@ <==> s.id@ == s2.id@ && s.file@ == s2.file@ && s.chapter_id@ == s2.chapter_id@
            && s.title@ == s2.title@ && s.summary@ == s2.summary@ && text::texts(
            s.character_ids@,
        ) == text::texts(s2.character_ids@),
        e@ == e2@ <==> e.from@ == e2.from@ && e.to@ == e2.to@ && opt_text(e.choice) == opt_text(
            e2.choice,
        ),
        t@ == t2@ <==> t.id@ == t2.id@ && t.kind@ == t2.kind@ && t.target_stem@ == t2.target_stem@
            && t.prompt@ == t2.prompt@ && opt_text(t.scene_ref) == opt_text(t2.scene_ref)
            && opt_text(t.character_ref) == opt_text(t2.character_ref) && opt_text(t.emotion)
            == opt_text(t2.emotion) && t.status@ == t2.status@,
        e@.from == e.from@ && e@.to == e.to@,
        s@.id == s.id@ && s@.file == s.file@,
{
}

/// The drafts of a scene, its beats and their cues are seen alike only where every field of theirs
/// is, beat for beat and cue for cue.
pub proof fn drafts_are_told_apart_by_their_fields(
    d: SceneDraft,
    d2: SceneDraft,
    b: DialogueBeat,
    b2: DialogueBeat,
    c: FigureCue,
    c2: FigureCue,
)
    ensures
        d@ == d2@ ==> d.scene_id@ == d2.scene_id@ && d.title@ == d2.title@ && d.stage_managed
            == d2.stage_managed && d.beats@.len() == d2.beats@.len() && forall|i: int|
            0 <= i < d.beats@.len() ==> (#[trigger] d.beats@[i])@ == d2.beats@[i]@,
        b@ == b2@ ==> opt_text(b.speaker) == opt_text(b2.speaker) && b.text@ == b2.text@
            && b.figure_cues@.len() == b2.figure_cues@.len() && forall|i: int|
            0 <= i < b.figure_cues@.len() ==> (#[trigger] b.figure_cues@[i])@
                == b2.figure_cues@[i]@,
        c@ == c2@ <==> c.action == c2.action && c.character_id@ == c2.character_id@ && c.position
            == c2.position && c.emotion@ == c2.emotion@,
{
    if d@ == d2@ {
        let x = d.beats@.map_values(|b: DialogueBeat| b@);
        let y = d2.beats@.map_values(|b: DialogueBeat| b@);
        assert(x == y);
        assert(x.len() == d.beats@.len() && y.len() == d2.beats@.len());
        assert forall|i: int| 0 <= i < d.beats@.len() implies (#[trigger] d.beats@[i])@
            == d2.beats@[i]@ by {
            assert(x[i] == y[i]);
        }
    }
    if b@ == b2@ {
        let x = b.figure_cues@.map_values(|c: FigureCue| c@);
        let y = b2.figure_cues@.map_values(|c: FigureCue| c@);
        assert(x == y);
        assert(x.len() == b.figure_cues@.len() && y.len() == b2.figure_cues@.len());
        assert forall|i: int| 0 <= i < b.figure_cues@.len() implies (#[trigger] b.figure_cues@[i])@
            == b2.figure_cues@[i]@ by {
            assert(x[i] == y[i]);
        }
    }
}

/// A scene is known where one of the scenes has the id.
pub proof fn scenes_are_known_by_their_id(scenes: Seq<ScenePlan>, id: Seq<char>)
    ensures
        scene_known(scene_views(scenes), id) <==> exists|i: int|
            0 <= i < scenes.len() && (#[trigger] scenes[i]).id@ == id,
{
    let v = scene_views(scenes);
    if scene_known(v, id) {
        let i = choose|i: int| 0 <= i < v.len() && #[trigger] v[i].id == id;
        assert(scenes[i].id@ == id);
    }
    if exists|i: int| 0 <= i < scenes.len() && (#[trigger] scenes[i]).id@ == id {
        let i = choose|i: int| 0 <= i < scenes.len() && (#[trigger] scenes[i]).id@ == id;
        assert(v[i].id == id);
    }
}

/// An optional text is there with its text, or it is not there.
pub proof fn optional_texts_are_there_or_not(s: Option<String>)
    ensures
        s is None ==> opt_text(s) is None,
        s is Some ==> opt_text(s) == Some(s->0@),
{
}

} // verus!
