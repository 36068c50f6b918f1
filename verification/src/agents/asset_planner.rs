//! The asset planner: which media the story needs.
use vstd::prelude::*;

use crate::agents::router;
use crate::agents::router::{ModelTask, Routed};
use crate::agents::{AgentContext, AgentError, AgentOutput, AgentOutputPayload};
use crate::characters;
use crate::characters::Character;
use crate::story_plan;
use crate::story_plan::{
    AssetTaskPlan, CueView, DialogueBeat, DraftView, BeatView, FigureCue, FigureCueAction, SceneDraft,
    ScenePlan, SceneView, TaskPlanView,
};
use crate::text;

verus! {

broadcast use vstd::string::group_string_axioms;

pub struct AssetPlannerAgent;

/// What the model is asked to return.
#[derive(Debug, PartialEq, Eq)]
pub struct AssetPlanResponse {
    pub asset_plan: Vec<AssetTaskPlan>,
}

pub const ROLE: &'static str = "AssetPlanner / 资产规划";

pub const TASK: &'static str = "把故事内容转成 P2 可消费的结构化资产任务。严格使用 JSON：{\"assetPlan\":[{\"id\":\"bg_opening\",\"kind\":\"background\",\"targetStem\":\"bg_opening\",\"prompt\":\"...\",\"sceneRef\":\"opening\",\"characterRef\":null,\"status\":\"pending\"}]}。每项都必须包含 id、kind、targetStem、prompt 和 status，字段使用 camelCase。";

pub const REQUIREMENTS: &'static str = "仅规划需求，不生成或绑定素材。kind 使用 background、figure、bgm、sfx 之一；targetStem 使用安全英文/数字/下划线；sceneRef/characterRef 引用已有 id；status 固定 pending。覆盖每个场景的背景、Scene Staging 每个 show cue 的角色与 emotion 立绘，以及全局 BGM。figure 任务必须包含 emotion，prompt 必须要求单人、完整身体、纯色背景和对应表情，不得生成多人合照或全幅 CG。";

// ---------------------------------------------------------------------------
// Filling in what a model left out
// ---------------------------------------------------------------------------

/// A task with the emotion and the id that it may have lacked.
pub open spec fn filled(t: TaskPlanView) -> TaskPlanView {
    TaskPlanView {
        emotion: if t.kind == "figure"@ && t.emotion is None {
            Some("default"@)
        } else {
            t.emotion
        },
        id: if text::blank(t.id) {
            text::trim_of(t.kind) + "_"@ + text::trim_of(t.target_stem)
        } else {
            t.id
        },
        ..t
    }
}

fn fill_task(task: AssetTaskPlan) -> (r: AssetTaskPlan)
    ensures
        r@ == filled(task@),
{
    let mut task = task;
    if text::same(task.kind.as_str(), "figure") && task.emotion.is_none() {
        task.emotion = Some(text::copy("default"));
    }
    if text::is_blank(task.id.as_str()) {
        let mut id = text::trim(task.kind.as_str());
        id.append("_");
        id.append(text::trim(task.target_stem.as_str()).as_str());
        task.id = id;
    }
    task
}

pub fn fill_missing_task_ids(tasks: &mut Vec<AssetTaskPlan>)
    ensures
        story_plan::task_views(final(tasks)@) == story_plan::task_views(old(tasks)@).map_values(
            |t: TaskPlanView| filled(t),
        ),
{
    let ghost all = story_plan::task_views(tasks@);
    let mut given: Vec<AssetTaskPlan> = Vec::new();
    std::mem::swap(&mut given, tasks);
    for task in it: given
        invariant
            all == story_plan::task_views(it.seq()),
            story_plan::task_views(tasks@) =~= all.take(it.index()).map_values(
                |t: TaskPlanView| filled(t),
            ),
    {
        let ghost before = story_plan::task_views(tasks@);
        let done = fill_task(task);
        tasks.push(done);
        assert(story_plan::task_views(tasks@) =~= before.push(done@));
        assert(done@ == filled(all[it.index()]));
    }
    assert(all.take(all.len() as int) =~= all);
}

// ---------------------------------------------------------------------------
// One figure task for each staged figure
// ---------------------------------------------------------------------------

/// The characters and emotions that the cues bring on stage, in order.
pub open spec fn cue_pairs(cues: Seq<CueView>) -> Seq<(Seq<char>, Seq<char>)>
    decreases cues.len(),
{
    if cues.len() == 0 {
        Seq::empty()
    } else if cues.last().action == FigureCueAction::Show {
        cue_pairs(cues.drop_last()).push((cues.last().character_id, cues.last().emotion))
    } else {
        cue_pairs(cues.drop_last())
    }
}

pub open spec fn beat_pairs(beats: Seq<BeatView>) -> Seq<(Seq<char>, Seq<char>)>
    decreases beats.len(),
{
    if beats.len() == 0 {
        Seq::empty()
    } else {
        beat_pairs(beats.drop_last()) + cue_pairs(beats.last().figure_cues)
    }
}

pub open spec fn draft_pairs(drafts: Seq<DraftView>) -> Seq<(Seq<char>, Seq<char>)>
    decreases drafts.len(),
{
    if drafts.len() == 0 {
        Seq::empty()
    } else {
        draft_pairs(drafts.drop_last()) + beat_pairs(drafts.last().beats)
    }
}

/// Whether a task draws this character in this emotion.
pub open spec fn draws(t: TaskPlanView, pair: (Seq<char>, Seq<char>)) -> bool {
    t.kind == "figure"@ && t.character_ref == Some(pair.0) && t.emotion == Some(pair.1)
}

/// Whether one of the tasks draws this character in this emotion.
pub open spec fn drawn(tasks: Seq<TaskPlanView>, pair: (Seq<char>, Seq<char>)) -> bool {
    exists|i: int| 0 <= i < tasks.len() && draws(#[trigger] tasks[i], pair)
}

/// The card with this id: the first one.
pub open spec fn card_of(cards: Seq<characters::CharacterView>, id: Seq<char>) -> Option<
    characters::CharacterView,
>
    decreases cards.len(),
{
    if cards.len() == 0 {
        None
    } else if cards[0].id == id {
        Some(cards[0])
    } else {
        card_of(cards.drop_first(), id)
    }
}

/// The task that draws a character in an emotion.
pub open spec fn figure_task(card: characters::CharacterView, emotion: Seq<char>) -> TaskPlanView {
    TaskPlanView {
        id: "figure_"@ + card.id + "_"@ + emotion,
        kind: "figure"@,
        target_stem: card.id + "_"@ + emotion,
        prompt: "视觉小说角色立绘，单人，完整身体，纯色背景，"@ + emotion + "表情；"@ + card.description
            + "；性格："@ + card.personality,
        scene_ref: None,
        character_ref: Some(card.id),
        emotion: Some(emotion),
        status: "pending"@,
    }
}

/// The tasks to add: one for each pair that is staged for the first time, that
/// no task draws yet, and whose character is known.
pub open spec fn staged_tasks(
    tasks: Seq<TaskPlanView>,
    pairs: Seq<(Seq<char>, Seq<char>)>,
    cards: Seq<characters::CharacterView>,
) -> Seq<TaskPlanView>
    decreases pairs.len(),
{
    if pairs.len() == 0 {
        Seq::empty()
    } else {
        let before = staged_tasks(tasks, pairs.drop_last(), cards);
        let pair = pairs.last();
        if drawn(tasks, pair) || pairs.drop_last().contains(pair) {
            before
        } else {
            match card_of(cards, pair.0) {
                Some(card) => before.push(figure_task(card, pair.1)),
                None => before,
            }
        }
    }
}

/// The models of a list of pairs.
pub open spec fn pair_views(v: Seq<(String, String)>) -> Seq<(Seq<char>, Seq<char>)> {
    v.map_values(|p: (String, String)| (p.0@, p.1@))
}

fn push_cues(out: &mut Vec<(String, String)>, cues: &Vec<FigureCue>)
    ensures
        pair_views(final(out)@) == pair_views(old(out)@) + cue_pairs(
            cues@.map_values(|c: FigureCue| c@),
        ),
{
    let ghost start = pair_views(out@);
    let ghost all = cues@.map_values(|c: FigureCue| c@);
    let mut i: usize = 0;
    assert(all.take(0) =~= Seq::<CueView>::empty());
    while i < cues.len()
        invariant
            i <= cues.len(),
            all == cues@.map_values(|c: FigureCue| c@),
            pair_views(out@) =~= start + cue_pairs(all.take(i as int)),
        decreases cues.len() - i,
    {
        let ghost before = pair_views(out@);
        proof {
            assert(all.take(i + 1).drop_last() =~= all.take(i as int));
            assert(all.take(i + 1).last() == cues@[i as int]@);
        }
        if cues[i].action == FigureCueAction::Show {
            let pair = (cues[i].character_id.clone(), cues[i].emotion.clone());
            out.push(pair);
            assert(pair_views(out@) =~= before.push((pair.0@, pair.1@)));
        }
        i += 1;
    }
    assert(all.take(all.len() as int) =~= all);
}

fn push_beats(out: &mut Vec<(String, String)>, beats: &Vec<DialogueBeat>)
    ensures
        pair_views(final(out)@) == pair_views(old(out)@) + beat_pairs(
            beats@.map_values(|b: DialogueBeat| b@),
        ),
{
    let ghost start = pair_views(out@);
    let ghost all = beats@.map_values(|b: DialogueBeat| b@);
    let mut i: usize = 0;
    assert(all.take(0) =~= Seq::<BeatView>::empty());
    while i < beats.len()
        invariant
            i <= beats.len(),
            all == beats@.map_values(|b: DialogueBeat| b@),
            pair_views(out@) =~= start + beat_pairs(all.take(i as int)),
        decreases beats.len() - i,
    {
        proof {
            assert(all.take(i + 1).drop_last() =~= all.take(i as int));
            assert(all.take(i + 1).last() == beats@[i as int]@);
        }
        push_cues(out, &beats[i].figure_cues);
        i += 1;
    }
    assert(all.take(all.len() as int) =~= all);
}

fn collect_pairs(drafts: &[SceneDraft]) -> (r: Vec<(String, String)>)
    ensures
        pair_views(r@) == draft_pairs(story_plan::draft_views(drafts@)),
{
    let mut out: Vec<(String, String)> = Vec::new();
    let ghost all = story_plan::draft_views(drafts@);
    let mut i: usize = 0;
    assert(all.take(0) =~= Seq::<DraftView>::empty());
    assert(pair_views(out@) =~= Seq::<(Seq<char>, Seq<char>)>::empty());
    while i < drafts.len()
        invariant
            i <= drafts.len(),
            all == story_plan::draft_views(drafts@),
            pair_views(out@) =~= draft_pairs(all.take(i as int)),
        decreases drafts.len() - i,
    {
        proof {
            assert(all.take(i + 1).drop_last() =~= all.take(i as int));
            assert(all.take(i + 1).last() == drafts@[i as int]@);
        }
        push_beats(&mut out, &drafts[i].beats);
        i += 1;
    }
    assert(all.take(all.len() as int) =~= all);
    out
}

fn is_drawn(tasks: &Vec<AssetTaskPlan>, upto: usize, character: &str, emotion: &str) -> (r: bool)
    requires
        upto <= tasks.len(),
    ensures
        r == drawn(story_plan::task_views(tasks@).take(upto as int), (character@, emotion@)),
{
    let ghost all = story_plan::task_views(tasks@).take(upto as int);
    let ghost pair = (character@, emotion@);
    let mut i: usize = 0;
    while i < upto
        invariant
            i <= upto <= tasks.len(),
            all == story_plan::task_views(tasks@).take(upto as int),
            pair == (character@, emotion@),
            forall|j: int| 0 <= j < i ==> !draws(#[trigger] all[j], pair),
        decreases upto - i,
    {
        assert(all[i as int] == tasks@[i as int]@);
        if text::same(tasks[i].kind.as_str(), "figure") && story_plan::opt_is(
            &tasks[i].character_ref,
            character,
        ) && story_plan::opt_is(&tasks[i].emotion, emotion) {
            assert(draws(all[i as int], pair));
            return true;
        }
        i += 1;
    }
    false
}

proof fn lemma_card_of(cards: Seq<characters::CharacterView>, id: Seq<char>, k: int)
    requires
        0 <= k <= cards.len(),
        forall|j: int| 0 <= j < k ==> (#[trigger] cards[j]).id != id,
        k < cards.len() ==> cards[k].id == id,
    ensures
        card_of(cards, id) == (if k < cards.len() {
            Some(cards[k])
        } else {
            None
        }),
    decreases cards.len(),
{
    if cards.len() > 0 && cards[0].id != id {
        let t = cards.drop_first();
        assert forall|j: int| 0 <= j < k - 1 implies (#[trigger] t[j]).id != id by {
            assert(cards[j + 1].id != id);
        }
        lemma_card_of(t, id, k - 1);
    }
}

fn make_figure_task(card: &Character, emotion: &str) -> (r: AssetTaskPlan)
    ensures
        r@ == figure_task(card@, emotion@),
{
    let mut id = text::copy("figure_");
    id.append(card.id.as_str());
    id.append("_");
    id.append(emotion);
    let mut stem = text::copy(card.id.as_str());
    stem.append("_");
    stem.append(emotion);
    let mut prompt = text::copy("视觉小说角色立绘，单人，完整身体，纯色背景，");
    prompt.append(emotion);
    prompt.append("表情；");
    prompt.append(card.description.as_str());
    prompt.append("；性格：");
    prompt.append(card.personality.as_str());
    AssetTaskPlan {
        id,
        kind: text::copy("figure"),
        target_stem: stem,
        prompt,
        scene_ref: None,
        character_ref: Some(card.id.clone()),
        emotion: Some(text::copy(emotion)),
        status: text::copy("pending"),
    }
}

/// Adds a figure task for every staged figure that no task draws yet.
pub fn ensure_staged_figure_tasks(
    tasks: &mut Vec<AssetTaskPlan>,
    cards: &[Character],
    drafts: &[SceneDraft],
)
    ensures
        story_plan::task_views(final(tasks)@) == story_plan::task_views(old(tasks)@) + staged_tasks(
            story_plan::task_views(old(tasks)@),
            draft_pairs(story_plan::draft_views(drafts@)),
            characters::character_views(cards@),
        ),
{
    let planned = tasks.len();
    let ghost start = story_plan::task_views(tasks@);
    let ghost card_views = characters::character_views(cards@);
    let pairs = collect_pairs(drafts);
    let ghost all = pair_views(pairs@);
    let mut i: usize = 0;
    assert(all.take(0) =~= Seq::<(Seq<char>, Seq<char>)>::empty());
    while i < pairs.len()
        invariant
            i <= pairs.len(),
            all == pair_views(pairs@),
            planned == start.len(),
            card_views == characters::character_views(cards@),
            story_plan::task_views(tasks@) =~= start + staged_tasks(
                start,
                all.take(i as int),
                card_views,
            ),
        decreases pairs.len() - i,
    {
        let character = pairs[i].0.as_str();
        let emotion = pairs[i].1.as_str();
        let ghost pair = all[i as int];
        proof {
            assert(pair == (character@, emotion@));
            assert(all.take(i + 1).drop_last() =~= all.take(i as int));
            assert(all.take(i + 1).last() == pair);
            assert(story_plan::task_views(tasks@).take(planned as int) =~= start);
        }
        let mut seen = is_drawn(tasks, planned, character, emotion);
        if !seen {
            seen = seen_before(&pairs, i);
        }
        if !seen {
            let k = characters::position_of(cards, character);
            proof {
                assert forall|j: int| 0 <= j < k implies (#[trigger] card_views[j]).id
                    != character@ by {
                    assert(cards@[j].id@ != character@);
                }
                lemma_card_of(card_views, character@, k as int);
            }
            if k < cards.len() {
                let task = make_figure_task(&cards[k], emotion);
                let ghost before = story_plan::task_views(tasks@);
                tasks.push(task);
                assert(story_plan::task_views(tasks@) =~= before.push(task@));
                assert(task@ == figure_task(card_views[k as int], emotion@));
            }
        }
        i += 1;
    }
    assert(all.take(all.len() as int) =~= all);
}

/// Whether the pair at `i` already stands before it.
fn seen_before(pairs: &Vec<(String, String)>, i: usize) -> (r: bool)
    requires
        i < pairs.len(),
    ensures
        r == pair_views(pairs@).take(i as int).contains(pair_views(pairs@)[i as int]),
{
    let ghost all = pair_views(pairs@);
    let mut j: usize = 0;
    while j < i
        invariant
            j <= i < pairs.len(),
            all == pair_views(pairs@),
            forall|k: int| 0 <= k < j ==> all[k] != all[i as int],
        decreases i - j,
    {
        if text::same(pairs[j].0.as_str(), pairs[i].0.as_str()) && text::same(
            pairs[j].1.as_str(),
            pairs[i].1.as_str(),
        ) {
            assert(all.take(i as int)[j as int] == all[i as int]);
            return true;
        }
        j += 1;
    }
    proof {
        if all.take(i as int).contains(all[i as int]) {
            let k = choose|k: int| 0 <= k < i && all.take(i as int)[k] == all[i as int];
            assert(all[k] == all[i as int]);
        }
    }
    false
}

proof fn lemma_card_id(cards: Seq<characters::CharacterView>, id: Seq<char>)
    ensures
        characters::character_known(cards, id) <==> card_of(cards, id) is Some,
        card_of(cards, id) matches Some(card) ==> card.id == id,
    decreases cards.len(),
{
    if cards.len() > 0 {
        let t = cards.drop_first();
        lemma_card_id(t, id);
        if characters::character_known(cards, id) && cards[0].id != id {
            let i = choose|i: int| 0 <= i < cards.len() && #[trigger] cards[i].id == id;
            assert(t[i - 1].id == id);
        }
        if characters::character_known(t, id) {
            let i = choose|i: int| 0 <= i < t.len() && #[trigger] t[i].id == id;
            assert(cards[i + 1].id == id);
        }
        if cards[0].id == id {
            assert(characters::character_known(cards, id));
        }
    }
}

/// Every staged figure of a known character has its task in the end.
pub proof fn staged_figures_are_drawn(
    tasks: Seq<TaskPlanView>,
    pairs: Seq<(Seq<char>, Seq<char>)>,
    cards: Seq<characters::CharacterView>,
    k: int,
)
    requires
        0 <= k < pairs.len(),
        characters::character_known(cards, pairs[k].0),
    ensures
        drawn(tasks + staged_tasks(tasks, pairs, cards), pairs[k]),
    decreases pairs.len(),
{
    let all = tasks + staged_tasks(tasks, pairs, cards);
    let shorter = pairs.drop_last();
    let before = tasks + staged_tasks(tasks, shorter, cards);
    let pair = pairs[k];
    if drawn(tasks, pair) {
        let i = choose|i: int| 0 <= i < tasks.len() && draws(#[trigger] tasks[i], pair);
        assert(draws(all[i], pair));
    } else if shorter.contains(pair) {
        let m = choose|m: int| 0 <= m < shorter.len() && shorter[m] == pair;
        staged_figures_are_drawn(tasks, shorter, cards, m);
        let i = choose|i: int| 0 <= i < before.len() && draws(#[trigger] before[i], pair);
        assert(all[i] == before[i]);
        assert(draws(all[i], pair));
    } else {
        if k < pairs.len() - 1 {
            assert(shorter[k] == pair);
        }
        lemma_card_id(cards, pair.0);
        assert(draws(all.last(), pair));
        assert(draws(all[all.len() - 1], pair));
    }
}

/// Whether no two tasks draw one character in one emotion.
pub open spec fn distinct_figures(tasks: Seq<TaskPlanView>) -> bool {
    forall|i: int, j: int, pair: (Seq<char>, Seq<char>)|
        0 <= i < tasks.len() && 0 <= j < tasks.len() && #[trigger] draws(tasks[i], pair)
            && #[trigger] draws(tasks[j], pair) ==> i == j
}

proof fn lemma_staged_sources(
    tasks: Seq<TaskPlanView>,
    pairs: Seq<(Seq<char>, Seq<char>)>,
    cards: Seq<characters::CharacterView>,
    pair: (Seq<char>, Seq<char>),
)
    ensures
        drawn(staged_tasks(tasks, pairs, cards), pair) ==> pairs.contains(pair) && !drawn(
            tasks,
            pair,
        ),
    decreases pairs.len(),
{
    if pairs.len() > 0 {
        let shorter = pairs.drop_last();
        lemma_staged_sources(tasks, shorter, cards, pair);
        let before = staged_tasks(tasks, shorter, cards);
        let all = staged_tasks(tasks, pairs, cards);
        if drawn(all, pair) {
            let i = choose|i: int| 0 <= i < all.len() && draws(#[trigger] all[i], pair);
            if i < before.len() {
                assert(before[i] == all[i]);
                assert(drawn(before, pair));
                let m = choose|m: int| 0 <= m < shorter.len() && shorter[m] == pair;
                assert(pairs[m] == pair);
            } else {
                lemma_card_id(cards, pairs.last().0);
                assert(pairs.last() == pair);
                assert(pairs[pairs.len() - 1] == pair);
            }
        }
    }
}

/// Staging draws no figure twice that was not drawn twice before.
pub proof fn staging_keeps_figures_distinct(
    tasks: Seq<TaskPlanView>,
    pairs: Seq<(Seq<char>, Seq<char>)>,
    cards: Seq<characters::CharacterView>,
)
    requires
        distinct_figures(tasks),
    ensures
        distinct_figures(tasks + staged_tasks(tasks, pairs, cards)),
    decreases pairs.len(),
{
    let all = tasks + staged_tasks(tasks, pairs, cards);
    if pairs.len() == 0 {
        assert(all =~= tasks);
    } else {
        let shorter = pairs.drop_last();
        staging_keeps_figures_distinct(tasks, shorter, cards);
        let before = tasks + staged_tasks(tasks, shorter, cards);
        assert forall|i: int, j: int, pair: (Seq<char>, Seq<char>)|
            0 <= i < all.len() && 0 <= j < all.len() && #[trigger] draws(all[i], pair)
                && #[trigger] draws(all[j], pair) implies i == j by {
            if all.len() > before.len() {
                lemma_card_id(cards, pairs.last().0);
                assert(draws(all[all.len() - 1], pairs.last()));
                lemma_staged_sources(tasks, shorter, cards, pair);
                if i < before.len() && j == before.len() {
                    assert(pair == pairs.last());
                    if i < tasks.len() {
                        assert(tasks[i] == all[i]);
                        assert(drawn(tasks, pair));
                    } else {
                        assert(staged_tasks(tasks, shorter, cards)[i - tasks.len()] == all[i]);
                        assert(drawn(staged_tasks(tasks, shorter, cards), pair));
                    }
                }
                if j < before.len() && i == before.len() {
                    assert(pair == pairs.last());
                    if j < tasks.len() {
                        assert(tasks[j] == all[j]);
                        assert(drawn(tasks, pair));
                    } else {
                        assert(staged_tasks(tasks, shorter, cards)[j - tasks.len()] == all[j]);
                        assert(drawn(staged_tasks(tasks, shorter, cards), pair));
                    }
                }
            }
            if i < before.len() && j < before.len() {
                assert(before[i] == all[i] && before[j] == all[j]);
                assert(draws(before[i], pair) && draws(before[j], pair));
            }
        }
    }
}

// ---------------------------------------------------------------------------
// The contract of a plan
// ---------------------------------------------------------------------------

/// The kinds of task that a plan may hold.
pub open spec fn plan_kind(kind: Seq<char>) -> bool {
    kind == "background"@ || kind == "figure"@ || kind == "bgm"@ || kind == "sfx"@
}

/// Whether the id of the task at `i` stands before it already.
pub open spec fn id_taken(tasks: Seq<TaskPlanView>, i: int) -> bool {
    exists|j: int| 0 <= j < i && (#[trigger] tasks[j]).id == tasks[i].id
}

/// Whether the figure of the task at `i` is drawn before it already.
pub open spec fn figure_taken(tasks: Seq<TaskPlanView>, i: int) -> bool {
    exists|j: int|
        0 <= j < i && (#[trigger] tasks[j]).kind == "figure"@ && tasks[j].character_ref
            == tasks[i].character_ref && tasks[j].emotion == tasks[i].emotion
}

/// The first rule that the task at `i` breaks: the field, and what is wrong
/// with it.
pub open spec fn task_fault(
    tasks: Seq<TaskPlanView>,
    i: int,
    scenes: Seq<SceneView>,
    cards: Seq<characters::CharacterView>,
) -> Option<(Seq<char>, Seq<char>)> {
    let t = tasks[i];
    if !story_plan::flag_value(t.id) || id_taken(tasks, i) {
        Some((".id"@, "must be a unique safe id"@))
    } else if !plan_kind(t.kind) {
        Some((".kind"@, "must be background, figure, bgm, or sfx"@))
    } else if !story_plan::flag_value(t.target_stem) {
        Some((".targetStem"@, "must be a safe filename stem"@))
    } else if text::blank(t.prompt) {
        Some((".prompt"@, "must not be empty"@))
    } else if t.status != "pending"@ {
        Some((".status"@, "must equal pending"@))
    } else if t.scene_ref is Some && !story_plan::scene_known(scenes, t.scene_ref->0) {
        Some((".sceneRef"@, "references unknown scene id"@))
    } else if t.character_ref is Some && !characters::character_known(cards, t.character_ref->0) {
        Some((".characterRef"@, "references unknown character id"@))
    } else if t.kind == "figure"@ {
        if t.character_ref is None || t.character_ref->0.len() == 0 {
            Some((".characterRef"@, "is required for figure tasks"@))
        } else if t.emotion is None || !story_plan::flag_value(t.emotion->0) {
            Some((".emotion"@, "is required and must be safe for figure tasks"@))
        } else if figure_taken(tasks, i) {
            Some((".emotion"@, "duplicates an existing character/emotion figure variant"@))
        } else {
            None
        }
    } else if t.emotion is Some {
        Some((".emotion"@, "is only allowed for figure tasks"@))
    } else {
        None
    }
}

/// The message of the first fault from the task at `i` on.
pub open spec fn plan_fault_from(
    tasks: Seq<TaskPlanView>,
    i: int,
    scenes: Seq<SceneView>,
    cards: Seq<characters::CharacterView>,
) -> Option<Seq<char>>
    decreases tasks.len() - i,
{
    if i >= tasks.len() {
        None
    } else {
        match task_fault(tasks, i, scenes, cards) {
            Some(fault) => Some(
                router::violation(router::item_path("$.assetPlan"@, i) + fault.0, fault.1),
            ),
            None => plan_fault_from(tasks, i + 1, scenes, cards),
        }
    }
}

/// What is wrong with a plan, if anything is.
pub open spec fn plan_fault(
    tasks: Seq<TaskPlanView>,
    scenes: Seq<SceneView>,
    cards: Seq<characters::CharacterView>,
) -> Option<Seq<char>> {
    if tasks.len() == 0 {
        Some(router::violation("$.assetPlan"@, "must not be empty"@))
    } else {
        plan_fault_from(tasks, 0, scenes, cards)
    }
}

/// Whether a plan keeps its contract: it is not empty, its ids are safe and
/// unique, its references resolve, every figure names its character and its
/// emotion, and no figure is drawn twice.
pub open spec fn plan_sound(
    tasks: Seq<TaskPlanView>,
    scenes: Seq<SceneView>,
    cards: Seq<characters::CharacterView>,
) -> bool {
    &&& tasks.len() > 0
    &&& forall|i: int| 0 <= i < tasks.len() ==> story_plan::flag_value((#[trigger] tasks[i]).id)
    &&& forall|i: int, j: int|
        0 <= i < j < tasks.len() ==> (#[trigger] tasks[i]).id != (#[trigger] tasks[j]).id
    &&& forall|i: int|
        0 <= i < tasks.len() ==> {
            let t = #[trigger] tasks[i];
            &&& plan_kind(t.kind)
            &&& story_plan::flag_value(t.target_stem)
            &&& !text::blank(t.prompt)
            &&& t.status == "pending"@
            &&& t.scene_ref is Some ==> story_plan::scene_known(scenes, t.scene_ref->0)
            &&& t.character_ref is Some ==> characters::character_known(cards, t.character_ref->0)
            &&& t.kind == "figure"@ ==> t.character_ref is Some && t.character_ref->0.len() > 0
                && t.emotion is Some && story_plan::flag_value(t.emotion->0)
            &&& t.kind != "figure"@ ==> t.emotion is None
        }
    &&& distinct_figures(tasks)
}

proof fn lemma_fault_from(
    tasks: Seq<TaskPlanView>,
    i: int,
    scenes: Seq<SceneView>,
    cards: Seq<characters::CharacterView>,
)
    requires
        0 <= i <= tasks.len(),
    ensures
        plan_fault_from(tasks, i, scenes, cards) is None <==> forall|k: int|
            i <= k < tasks.len() ==> #[trigger] task_fault(tasks, k, scenes, cards) is None,
    decreases tasks.len() - i,
{
    if i < tasks.len() {
        lemma_fault_from(tasks, i + 1, scenes, cards);
        if task_fault(tasks, i, scenes, cards) is None && plan_fault_from(
            tasks,
            i + 1,
            scenes,
            cards,
        ) is None {
            assert forall|k: int| i <= k < tasks.len() implies #[trigger] task_fault(
                tasks,
                k,
                scenes,
                cards,
            ) is None by {
                if k > i {
                    assert(i + 1 <= k);
                }
            }
        }
    }
}

/// A plan has no fault exactly when it keeps its contract.
pub proof fn faultless_plans_are_sound(
    tasks: Seq<TaskPlanView>,
    scenes: Seq<SceneView>,
    cards: Seq<characters::CharacterView>,
)
    ensures
        plan_fault(tasks, scenes, cards) is None <==> plan_sound(tasks, scenes, cards),
{
    if tasks.len() > 0 {
        lemma_fault_from(tasks, 0, scenes, cards);
        if plan_fault(tasks, scenes, cards) is None {
            assert forall|i: int, j: int| 0 <= i < j < tasks.len() implies (#[trigger] tasks[i]).id
                != (#[trigger] tasks[j]).id by {
                assert(task_fault(tasks, j, scenes, cards) is None);
            }
            assert forall|i: int| 0 <= i < tasks.len() implies story_plan::flag_value(
                (#[trigger] tasks[i]).id,
            ) by {
                assert(task_fault(tasks, i, scenes, cards) is None);
            }
            assert forall|i: int, j: int, pair: (Seq<char>, Seq<char>)|
                0 <= i < tasks.len() && 0 <= j < tasks.len() && #[trigger] draws(tasks[i], pair)
                    && #[trigger] draws(tasks[j], pair) implies i == j by {
                assert(task_fault(tasks, i, scenes, cards) is None);
                assert(task_fault(tasks, j, scenes, cards) is None);
                if i < j {
                    assert(figure_taken(tasks, j));
                }
                if j < i {
                    assert(figure_taken(tasks, i));
                }
            }
            assert forall|i: int| 0 <= i < tasks.len() implies {
                let t = #[trigger] tasks[i];
                &&& plan_kind(t.kind)
                &&& story_plan::flag_value(t.target_stem)
                &&& !text::blank(t.prompt)
                &&& t.status == "pending"@
                &&& t.scene_ref is Some ==> story_plan::scene_known(scenes, t.scene_ref->0)
                &&& t.character_ref is Some ==> characters::character_known(
                    cards,
                    t.character_ref->0,
                )
                &&& t.kind == "figure"@ ==> t.character_ref is Some && t.character_ref->0.len() > 0
                    && t.emotion is Some && story_plan::flag_value(t.emotion->0)
                &&& t.kind != "figure"@ ==> t.emotion is None
            } by {
                assert(task_fault(tasks, i, scenes, cards) is None);
            }
        }
        if plan_sound(tasks, scenes, cards) {
            assert forall|k: int| 0 <= k < tasks.len() implies #[trigger] task_fault(
                tasks,
                k,
                scenes,
                cards,
            ) is None by {
                let t = tasks[k];
                if id_taken(tasks, k) {
                    let j = choose|j: int| 0 <= j < k && (#[trigger] tasks[j]).id == tasks[k].id;
                    assert(tasks[j].id != tasks[k].id);
                }
                if t.kind == "figure"@ && figure_taken(tasks, k) {
                    let j = choose|j: int|
                        0 <= j < k && (#[trigger] tasks[j]).kind == "figure"@
                            && tasks[j].character_ref == tasks[k].character_ref && tasks[j].emotion
                            == tasks[k].emotion;
                    let pair = (t.character_ref->0, t.emotion->0);
                    assert(draws(tasks[k], pair));
                    assert(draws(tasks[j], pair));
                }
            }
        }
    }
}

fn is_id_taken(tasks: &[AssetTaskPlan], i: usize) -> (r: bool)
    requires
        i < tasks.len(),
    ensures
        r == id_taken(story_plan::task_views(tasks@), i as int),
{
    let ghost all = story_plan::task_views(tasks@);
    let mut j: usize = 0;
    while j < i
        invariant
            j <= i < tasks.len(),
            all == story_plan::task_views(tasks@),
            forall|k: int| 0 <= k < j ==> (#[trigger] all[k]).id != all[i as int].id,
        decreases i - j,
    {
        if text::same(tasks[j].id.as_str(), tasks[i].id.as_str()) {
            assert(all[j as int].id == all[i as int].id);
            return true;
        }
        j += 1;
    }
    false
}

fn is_figure_taken(tasks: &[AssetTaskPlan], i: usize) -> (r: bool)
    requires
        i < tasks.len(),
    ensures
        r == figure_taken(story_plan::task_views(tasks@), i as int),
{
    let ghost all = story_plan::task_views(tasks@);
    let mut j: usize = 0;
    while j < i
        invariant
            j <= i < tasks.len(),
            all == story_plan::task_views(tasks@),
            forall|k: int|
                0 <= k < j ==> !((#[trigger] all[k]).kind == "figure"@ && all[k].character_ref
                    == all[i as int].character_ref && all[k].emotion == all[i as int].emotion),
        decreases i - j,
    {
        if text::same(tasks[j].kind.as_str(), "figure") && story_plan::same_opt(
            &tasks[j].character_ref,
            &tasks[i].character_ref,
        ) && story_plan::same_opt(&tasks[j].emotion, &tasks[i].emotion) {
            assert(all[j as int].kind == "figure"@);
            return true;
        }
        j += 1;
    }
    false
}

fn find_task_fault(
    tasks: &[AssetTaskPlan],
    i: usize,
    scenes: &[ScenePlan],
    cards: &[Character],
) -> (r: Option<(&'static str, &'static str)>)
    requires
        i < tasks.len(),
    ensures
        match (
            r,
            task_fault(
                story_plan::task_views(tasks@),
                i as int,
                story_plan::scene_views(scenes@),
                characters::character_views(cards@),
            ),
        ) {
            (Some(a), Some(b)) => a.0@ == b.0 && a.1@ == b.1,
            (None, None) => true,
            _ => false,
        },
{
    let t = &tasks[i];
    assert(story_plan::task_views(tasks@)[i as int] == t@);
    if !story_plan::is_webgal_flag_value(t.id.as_str()) || is_id_taken(tasks, i) {
        return Some((".id", "must be a unique safe id"));
    }
    if !text::same(t.kind.as_str(), "background") && !text::same(t.kind.as_str(), "figure")
        && !text::same(t.kind.as_str(), "bgm") && !text::same(t.kind.as_str(), "sfx") {
        return Some((".kind", "must be background, figure, bgm, or sfx"));
    }
    if !story_plan::is_webgal_flag_value(t.target_stem.as_str()) {
        return Some((".targetStem", "must be a safe filename stem"));
    }
    if text::is_blank(t.prompt.as_str()) {
        return Some((".prompt", "must not be empty"));
    }
    if !text::same(t.status.as_str(), "pending") {
        return Some((".status", "must equal pending"));
    }
    if let Some(scene) = &t.scene_ref {
        if !story_plan::has_scene(scenes, scene.as_str()) {
            return Some((".sceneRef", "references unknown scene id"));
        }
    }
    if let Some(character) = &t.character_ref {
        if characters::position_of(cards, character.as_str()) == cards.len() {
            return Some((".characterRef", "references unknown character id"));
        }
    }
    if text::same(t.kind.as_str(), "figure") {
        match &t.character_ref {
            None => {
                return Some((".characterRef", "is required for figure tasks"));
            },
            Some(character) => {
                if character.as_str().is_empty() {
                    return Some((".characterRef", "is required for figure tasks"));
                }
            },
        }
        match &t.emotion {
            None => {
                return Some((".emotion", "is required and must be safe for figure tasks"));
            },
            Some(emotion) => {
                if !story_plan::is_webgal_flag_value(emotion.as_str()) {
                    return Some((".emotion", "is required and must be safe for figure tasks"));
                }
            },
        }
        if is_figure_taken(tasks, i) {
            return Some((".emotion", "duplicates an existing character/emotion figure variant"));
        }
    } else if t.emotion.is_some() {
        return Some((".emotion", "is only allowed for figure tasks"));
    }
    None
}

/// Holds a plan to its contract.
pub fn validate_asset_plan(
    tasks: &[AssetTaskPlan],
    scenes: &[ScenePlan],
    cards: &[Character],
) -> (r: Result<(), AgentError>)
    ensures
        match (
            r,
            plan_fault(
                story_plan::task_views(tasks@),
                story_plan::scene_views(scenes@),
                characters::character_views(cards@),
            ),
        ) {
            (Ok(_), None) => true,
            (Err(e), Some(message)) => e.0@ == message,
            _ => false,
        },
        r is Ok <==> plan_sound(
            story_plan::task_views(tasks@),
            story_plan::scene_views(scenes@),
            characters::character_views(cards@),
        ),
{
    let ghost ts = story_plan::task_views(tasks@);
    let ghost ss = story_plan::scene_views(scenes@);
    let ghost cs = characters::character_views(cards@);
    proof {
        faultless_plans_are_sound(ts, ss, cs);
    }
    if tasks.len() == 0 {
        return Err(router::contract_error("$.assetPlan", "must not be empty"));
    }
    let mut i: usize = 0;
    while i < tasks.len()
        invariant
            i <= tasks.len(),
            ts == story_plan::task_views(tasks@),
            ss == story_plan::scene_views(scenes@),
            cs == characters::character_views(cards@),
            tasks.len() > 0,
            plan_fault(ts, ss, cs) == plan_fault_from(ts, i as int, ss, cs),
            plan_fault(ts, ss, cs) is None <==> plan_sound(ts, ss, cs),
        decreases tasks.len() - i,
    {
        if let Some(fault) = find_task_fault(tasks, i, scenes, cards) {
            let base = router::item_path_of("$.assetPlan", i);
            let path = router::joined(base.as_str(), fault.0);
            return Err(router::contract_error(path.as_str(), fault.1));
        }
        i += 1;
    }
    Ok(())
}

// ---------------------------------------------------------------------------
// The agent
// ---------------------------------------------------------------------------

/// The task that paints the background of a scene.
pub open spec fn background_task(scene: SceneView) -> TaskPlanView {
    TaskPlanView {
        id: "bg_"@ + scene.id,
        kind: "background"@,
        target_stem: "bg_"@ + scene.id,
        prompt: "视觉小说背景，无人物，"@ + scene.title + "；"@ + scene.summary
            + "；与统一世界观保持光线和建筑语言一致"@,
        scene_ref: Some(scene.id),
        character_ref: None,
        emotion: None,
        status: "pending"@,
    }
}

/// The task that composes the main theme.
pub open spec fn theme_task() -> TaskPlanView {
    TaskPlanView {
        id: "bgm_main_theme"@,
        kind: "bgm"@,
        target_stem: "bgm_main_theme"@,
        prompt: "克制而带悬念的视觉小说主题音乐，能从日常感逐渐过渡到温柔的决意。"@,
        scene_ref: None,
        character_ref: None,
        emotion: None,
        status: "pending"@,
    }
}

/// The plan of a run without a model: a background for each scene, a figure
/// for each staged pair, and one theme.
pub open spec fn local_plan(
    scenes: Seq<SceneView>,
    drafts: Seq<DraftView>,
    cards: Seq<characters::CharacterView>,
) -> Seq<TaskPlanView> {
    let backgrounds = scenes.map_values(|s: SceneView| background_task(s));
    (backgrounds + staged_tasks(backgrounds, draft_pairs(drafts), cards)).push(theme_task())
}

/// Whether no two staged pairs give one figure task id.
pub open spec fn figure_ids_differ(pairs: Seq<(Seq<char>, Seq<char>)>) -> bool {
    forall|p: (Seq<char>, Seq<char>), q: (Seq<char>, Seq<char>)| #[trigger]
        pairs.contains(p) && #[trigger] pairs.contains(q) && p != q ==> p.0 + "_"@ + p.1 != q.0
            + "_"@ + q.1
}

/// Whether a task is the one that draws a staged pair.
spec fn stages(
    t: TaskPlanView,
    pair: (Seq<char>, Seq<char>),
    pairs: Seq<(Seq<char>, Seq<char>)>,
    cards: Seq<characters::CharacterView>,
) -> bool {
    pairs.contains(pair) && characters::character_known(cards, pair.0) && t == figure_task(
        card_of(cards, pair.0)->0,
        pair.1,
    )
}

spec fn staged(
    t: TaskPlanView,
    pairs: Seq<(Seq<char>, Seq<char>)>,
    cards: Seq<characters::CharacterView>,
) -> bool {
    exists|pair: (Seq<char>, Seq<char>)| stages(t, pair, pairs, cards)
}

proof fn lemma_staged_task(
    tasks: Seq<TaskPlanView>,
    pairs: Seq<(Seq<char>, Seq<char>)>,
    cards: Seq<characters::CharacterView>,
    i: int,
) -> (pair: (Seq<char>, Seq<char>))
    requires
        0 <= i < staged_tasks(tasks, pairs, cards).len(),
    ensures
        stages(staged_tasks(tasks, pairs, cards)[i], pair, pairs, cards),
    decreases pairs.len(),
{
    let shorter = pairs.drop_last();
    let before = staged_tasks(tasks, shorter, cards);
    if i < before.len() {
        let pair = lemma_staged_task(tasks, shorter, cards, i);
        let m = choose|m: int| 0 <= m < shorter.len() && shorter[m] == pair;
        assert(pairs[m] == pair);
        pair
    } else {
        lemma_card_id(cards, pairs.last().0);
        assert(pairs[pairs.len() - 1] == pairs.last());
        pairs.last()
    }
}

proof fn lemma_background(scene: SceneView)
    requires
        story_plan::flag_value(scene.id),
    ensures
        story_plan::flag_value(background_task(scene).id),
        !text::blank(background_task(scene).prompt),
        background_task(scene).kind != "figure"@,
        background_task(scene).id[0] == 'b' && background_task(scene).id[2] == '_',
{
    reveal_strlit("bg_");
    reveal_strlit("background");
    reveal_strlit("figure");
    reveal_strlit("视觉小说背景，无人物，");
    let t = background_task(scene);
    assert("background"@.len() != "figure"@.len());
    assert(!text::whitespace(t.prompt[0]));
    text::lemma_blank(t.prompt);
}

proof fn lemma_figure(card: characters::CharacterView, emotion: Seq<char>)
    requires
        story_plan::flag_value(card.id),
        story_plan::flag_value(emotion),
    ensures
        story_plan::flag_value(figure_task(card, emotion).id),
        story_plan::flag_value(figure_task(card, emotion).target_stem),
        !text::blank(figure_task(card, emotion).prompt),
        figure_task(card, emotion).id[0] == 'f',
        figure_task(card, emotion).id.skip(7) == card.id + "_"@ + emotion,
{
    reveal_strlit("figure_");
    reveal_strlit("_");
    reveal_strlit("视觉小说角色立绘，单人，完整身体，纯色背景，");
    let t = figure_task(card, emotion);
    assert(!text::whitespace(t.prompt[0]));
    text::lemma_blank(t.prompt);
    assert(t.id.skip(7) =~= card.id + "_"@ + emotion);
}

proof fn lemma_theme()
    ensures
        story_plan::flag_value(theme_task().id),
        !text::blank(theme_task().prompt),
        theme_task().kind != "figure"@,
        theme_task().id[0] == 'b' && theme_task().id[2] == 'm',
{
    reveal_strlit("bgm_main_theme");
    reveal_strlit("bgm");
    reveal_strlit("figure");
    reveal_strlit("克制而带悬念的视觉小说主题音乐，能从日常感逐渐过渡到温柔的决意。");
    assert("bgm"@.len() != "figure"@.len());
    assert(!text::whitespace(theme_task().prompt[0]));
    text::lemma_blank(theme_task().prompt);
}

/// The plan of a run without a model keeps the contract that a model's plan is
/// held to, where the scenes have safe and distinct ids, what is staged has
/// safe ids and emotions, and no two staged pairs give one task id.
pub proof fn local_plan_is_sound(
    scenes: Seq<SceneView>,
    drafts: Seq<DraftView>,
    cards: Seq<characters::CharacterView>,
)
    requires
        forall|i: int| 0 <= i < scenes.len() ==> story_plan::flag_value((#[trigger] scenes[i]).id),
        forall|i: int, j: int|
            0 <= i < j < scenes.len() ==> (#[trigger] scenes[i]).id != (#[trigger] scenes[j]).id,
        forall|p: (Seq<char>, Seq<char>)| #[trigger]
            draft_pairs(drafts).contains(p) ==> story_plan::flag_value(p.0)
                && story_plan::flag_value(p.1),
        figure_ids_differ(draft_pairs(drafts)),
    ensures
        plan_sound(local_plan(scenes, drafts, cards), scenes, cards),
{
    let pairs = draft_pairs(drafts);
    let backgrounds = scenes.map_values(|s: SceneView| background_task(s));
    let figures = staged_tasks(backgrounds, pairs, cards);
    let tasks = local_plan(scenes, drafts, cards);
    let n = backgrounds.len();
    let m = n + figures.len();
    reveal_strlit("bg_");
    assert(tasks.len() == m + 1);
    lemma_theme();
    assert forall|i: int| 0 <= i < n implies tasks[i] == background_task(#[trigger] scenes[i])
        && story_plan::flag_value(tasks[i].id) && !text::blank(tasks[i].prompt) && tasks[i].kind
        != "figure"@ && tasks[i].id[0] == 'b' && tasks[i].id[2] == '_' by {
        lemma_background(scenes[i]);
    }
    assert forall|i: int| n <= i < m implies #[trigger] staged(tasks[i], pairs, cards) by {
        assert(tasks[i] == figures[i - n]);
        let pair = lemma_staged_task(backgrounds, pairs, cards, i - n);
        assert(stages(tasks[i], pair, pairs, cards));
    }
    assert forall|i: int, pair: (Seq<char>, Seq<char>)| #[trigger]
        stages(tasks[i], pair, pairs, cards) implies draws(tasks[i], pair)
        && story_plan::flag_value(tasks[i].id) && story_plan::flag_value(tasks[i].target_stem)
        && !text::blank(tasks[i].prompt) && tasks[i].id[0] == 'f' && tasks[i].id.skip(7) == pair.0
        + "_"@ + pair.1 by {
        lemma_card_id(cards, pair.0);
        lemma_figure(card_of(cards, pair.0)->0, pair.1);
    }
    assert(distinct_figures(backgrounds)) by {
        assert forall|i: int, pair: (Seq<char>, Seq<char>)| 0 <= i < n implies !#[trigger] draws(
            backgrounds[i],
            pair,
        ) by {
            assert(backgrounds[i] == background_task(scenes[i]));
            lemma_background(scenes[i]);
        }
    }
    staging_keeps_figures_distinct(backgrounds, pairs, cards);
    let drawn_tasks = backgrounds + figures;
    assert(distinct_figures(tasks)) by {
        assert forall|i: int, j: int, pair: (Seq<char>, Seq<char>)|
            0 <= i < tasks.len() && 0 <= j < tasks.len() && #[trigger] draws(tasks[i], pair)
                && #[trigger] draws(tasks[j], pair) implies i == j by {
            assert(!draws(theme_task(), pair));
            assert(i < m && j < m);
            assert(drawn_tasks[i] == tasks[i] && drawn_tasks[j] == tasks[j]);
            assert(draws(drawn_tasks[i], pair) && draws(drawn_tasks[j], pair));
        }
    }
    assert forall|i: int, j: int| 0 <= i < j < tasks.len() implies (#[trigger] tasks[i]).id != (
    #[trigger] tasks[j]).id by {
        if i < n && j < n {
            assert(tasks[i] == background_task(scenes[i]) && tasks[j] == background_task(scenes[j]));
            assert(tasks[i].id.skip(3) =~= scenes[i].id && tasks[j].id.skip(3) =~= scenes[j].id);
        } else if i < n {
            assert(tasks[i] == background_task(scenes[i]));
            if j < m {
                assert(staged(tasks[j], pairs, cards));
                let q = choose|q: (Seq<char>, Seq<char>)| stages(tasks[j], q, pairs, cards);
                assert(stages(tasks[j], q, pairs, cards));
            }
        } else {
            assert(staged(tasks[i], pairs, cards));
            let p = choose|p: (Seq<char>, Seq<char>)| stages(tasks[i], p, pairs, cards);
            assert(stages(tasks[i], p, pairs, cards));
            if j < m {
                assert(staged(tasks[j], pairs, cards));
                let q = choose|q: (Seq<char>, Seq<char>)| stages(tasks[j], q, pairs, cards);
                assert(stages(tasks[j], q, pairs, cards));
                assert(draws(tasks[i], p) && draws(tasks[j], q));
                assert(p != q);
            }
        }
    }
    assert forall|i: int| 0 <= i < tasks.len() implies story_plan::flag_value(
        (#[trigger] tasks[i]).id,
    ) by {
        if i < n {
            assert(tasks[i] == background_task(scenes[i]));
        } else if i < m {
            assert(staged(tasks[i], pairs, cards));
            let p = choose|p: (Seq<char>, Seq<char>)| stages(tasks[i], p, pairs, cards);
            assert(stages(tasks[i], p, pairs, cards));
        }
    }
    assert forall|i: int| 0 <= i < tasks.len() implies {
        let t = #[trigger] tasks[i];
        &&& plan_kind(t.kind)
        &&& story_plan::flag_value(t.target_stem)
        &&& !text::blank(t.prompt)
        &&& t.status == "pending"@
        &&& t.scene_ref is Some ==> story_plan::scene_known(scenes, t.scene_ref->0)
        &&& t.character_ref is Some ==> characters::character_known(cards, t.character_ref->0)
        &&& t.kind == "figure"@ ==> t.character_ref is Some && t.character_ref->0.len() > 0
            && t.emotion is Some && story_plan::flag_value(t.emotion->0)
        &&& t.kind != "figure"@ ==> t.emotion is None
    } by {
        if i < n {
            assert(tasks[i] == background_task(scenes[i]));
            assert(scenes[i].id == tasks[i].scene_ref->0);
        } else if i < m {
            assert(staged(tasks[i], pairs, cards));
            let p = choose|p: (Seq<char>, Seq<char>)| stages(tasks[i], p, pairs, cards);
            assert(stages(tasks[i], p, pairs, cards));
            assert(draws(tasks[i], p));
        }
    }
}

/// What a model's plan becomes before it is held to its contract.
pub open spec fn completed_plan(
    tasks: Seq<TaskPlanView>,
    drafts: Seq<DraftView>,
    cards: Seq<characters::CharacterView>,
) -> Seq<TaskPlanView> {
    let named = tasks.map_values(|t: TaskPlanView| filled(t));
    named + staged_tasks(named, draft_pairs(drafts), cards)
}

fn make_background_task(scene: &ScenePlan) -> (r: AssetTaskPlan)
    ensures
        r@ == background_task(scene@),
{
    let mut prompt = text::copy("视觉小说背景，无人物，");
    prompt.append(scene.title.as_str());
    prompt.append("；");
    prompt.append(scene.summary.as_str());
    prompt.append("；与统一世界观保持光线和建筑语言一致");
    AssetTaskPlan {
        id: router::joined("bg_", scene.id.as_str()),
        kind: text::copy("background"),
        target_stem: router::joined("bg_", scene.id.as_str()),
        prompt,
        scene_ref: Some(scene.id.clone()),
        character_ref: None,
        emotion: None,
        status: text::copy("pending"),
    }
}

fn make_local_plan(scenes: &[ScenePlan], drafts: &[SceneDraft], cards: &[Character]) -> (r: Vec<
    AssetTaskPlan,
>)
    ensures
        story_plan::task_views(r@) == local_plan(
            story_plan::scene_views(scenes@),
            story_plan::draft_views(drafts@),
            characters::character_views(cards@),
        ),
{
    let mut tasks: Vec<AssetTaskPlan> = Vec::new();
    let ghost backgrounds = story_plan::scene_views(scenes@).map_values(
        |s: SceneView| background_task(s),
    );
    let mut i: usize = 0;
    while i < scenes.len()
        invariant
            i <= scenes.len(),
            backgrounds == story_plan::scene_views(scenes@).map_values(
                |s: SceneView| background_task(s),
            ),
            story_plan::task_views(tasks@) =~= backgrounds.take(i as int),
        decreases scenes.len() - i,
    {
        let task = make_background_task(&scenes[i]);
        let ghost before = story_plan::task_views(tasks@);
        tasks.push(task);
        assert(story_plan::task_views(tasks@) =~= before.push(task@));
        assert(task@ == backgrounds[i as int]);
        i += 1;
    }
    assert(backgrounds.take(backgrounds.len() as int) =~= backgrounds);
    ensure_staged_figure_tasks(&mut tasks, cards, drafts);
    let ghost before = story_plan::task_views(tasks@);
    let theme = AssetTaskPlan {
        id: text::copy("bgm_main_theme"),
        kind: text::copy("bgm"),
        target_stem: text::copy("bgm_main_theme"),
        prompt: text::copy("克制而带悬念的视觉小说主题音乐，能从日常感逐渐过渡到温柔的决意。"),
        scene_ref: None,
        character_ref: None,
        emotion: None,
        status: text::copy("pending"),
    };
    tasks.push(theme);
    assert(story_plan::task_views(tasks@) =~= before.push(theme@));
    tasks
}

/// What the model is told, each field under its name in JSON.
pub struct AssetPlanInput<'a> {
    pub production_brief: &'a str,
    pub worldbook: &'a str,
    pub characters: &'a [Character],
    pub scene_plans: &'a [ScenePlan],
    pub scene_drafts: &'a [SceneDraft],
    pub step_instruction: &'a str,
    pub requirements: &'static str,
}

impl AssetPlannerAgent {
    /// What the model is told of the flow.
    pub fn input<'a>(&self, ctx: &AgentContext<'a>) -> (r: Result<AssetPlanInput<'a>, AgentError>)
        ensures
            match r {
                Ok(input) => {
                    &&& ctx.scene_drafts@.len() > 0 && ctx.characters@.len() > 0
                    &&& input.production_brief@ == ctx.prompt@
                    &&& input.worldbook@ == ctx.worldbook@
                    &&& input.characters@ == ctx.characters@
                    &&& input.scene_plans@ == ctx.scene_plans@
                    &&& input.scene_drafts@ == ctx.scene_drafts@
                    &&& input.step_instruction@ == ctx.instruction@
                    &&& input.requirements@ == REQUIREMENTS@
                },
                Err(e) => (ctx.scene_drafts@.len() == 0 || ctx.characters@.len() == 0) && e.0@
                    == "AssetPlanner requires dialogue drafts and characters"@,
            },
    {
        if ctx.scene_drafts.len() == 0 || ctx.characters.len() == 0 {
            return Err(
                AgentError(text::copy("AssetPlanner requires dialogue drafts and characters")),
            );
        }
        Ok(
            AssetPlanInput {
                production_brief: ctx.prompt,
                worldbook: ctx.worldbook,
                characters: ctx.characters,
                scene_plans: ctx.scene_plans,
                scene_drafts: ctx.scene_drafts,
                step_instruction: ctx.instruction,
                requirements: REQUIREMENTS,
            },
        )
    }
}

impl AssetPlannerAgent {
    /// What is asked of the model, around the given context.
    pub fn request(&self, ctx: &AgentContext, context: String) -> (r: Result<ModelTask, AgentError>)
        ensures
            match r {
                Ok(task) => ctx.scene_drafts@.len() > 0 && ctx.characters@.len() > 0 && task.role@
                    == ROLE@ && task.task@ == TASK@ && task.context == context
                    && task.allow_local_fallback == ctx.allow_local_fallback,
                Err(e) => (ctx.scene_drafts@.len() == 0 || ctx.characters@.len() == 0) && e.0@
                    == "AssetPlanner requires dialogue drafts and characters"@,
            },
    {
        if ctx.scene_drafts.len() == 0 || ctx.characters.len() == 0 {
            return Err(
                AgentError(text::copy("AssetPlanner requires dialogue drafts and characters")),
            );
        }
        Ok(
            ModelTask {
                role: text::copy(ROLE),
                task: text::copy(TASK),
                context,
                allow_local_fallback: ctx.allow_local_fallback,
            },
        )
    }

    /// Completes a model's plan and holds it to its contract.
    pub fn validate(&self, ctx: &AgentContext, response: &mut AssetPlanResponse) -> (r: Result<
        (),
        AgentError,
    >)
        ensures
            story_plan::task_views(final(response).asset_plan@) == completed_plan(
                story_plan::task_views(old(response).asset_plan@),
                story_plan::draft_views(ctx.scene_drafts@),
                characters::character_views(ctx.characters@),
            ),
            match (
                r,
                plan_fault(
                    story_plan::task_views(final(response).asset_plan@),
                    story_plan::scene_views(ctx.scene_plans@),
                    characters::character_views(ctx.characters@),
                ),
            ) {
                (Ok(_), None) => true,
                (Err(e), Some(message)) => e.0@ == message,
                _ => false,
            },
    {
        fill_missing_task_ids(&mut response.asset_plan);
        ensure_staged_figure_tasks(&mut response.asset_plan, ctx.characters, ctx.scene_drafts);
        validate_asset_plan(response.asset_plan.as_slice(), ctx.scene_plans, ctx.characters)
    }

    /// The agent's output, given how the conversation with the model ended.
    pub fn run(
        &self,
        ctx: &AgentContext,
        reply: Result<Option<Routed<AssetPlanResponse>>, AgentError>,
    ) -> (r: Result<AgentOutput, AgentError>)
        ensures
            if ctx.scene_drafts@.len() == 0 || ctx.characters@.len() == 0 {
                r matches Err(e) && e.0@ == "AssetPlanner requires dialogue drafts and characters"@
            } else {
                match reply {
                    Err(error) => r == Err::<AgentOutput, AgentError>(error),
                    Ok(Some(routed)) => r matches Ok(out) && out.payload
                        == AgentOutputPayload::AssetPlan(routed.value.asset_plan)
                        && crate::agents::from_model(
                        out,
                        routed.model,
                        routed.prompt_tokens,
                        routed.completion_tokens,
                    ),
                    Ok(None) => r matches Ok(out) && crate::agents::from_template(out)
                        && (out.payload matches AgentOutputPayload::AssetPlan(tasks)
                        && story_plan::task_views(tasks@) == local_plan(
                        story_plan::scene_views(ctx.scene_plans@),
                        story_plan::draft_views(ctx.scene_drafts@),
                        characters::character_views(ctx.characters@),
                    )),
                }
            },
    {
        if ctx.scene_drafts.len() == 0 || ctx.characters.len() == 0 {
            return Err(
                AgentError(text::copy("AssetPlanner requires dialogue drafts and characters")),
            );
        }
        match reply {
            Err(error) => Err(error),
            Ok(Some(routed)) => Ok(
                AgentOutput::new(
                    AgentOutputPayload::AssetPlan(routed.value.asset_plan),
                ).with_model(routed.model, routed.prompt_tokens, routed.completion_tokens),
            ),
            Ok(None) => {
                let tasks = make_local_plan(ctx.scene_plans, ctx.scene_drafts, ctx.characters);
                let out = AgentOutput::new(AgentOutputPayload::AssetPlan(tasks)).local_fallback();
                assert(text::texts(out.warnings@) =~= seq!["未配置可用的对话模型，已使用本地内容模板"@]);
                Ok(out)
            },
        }
    }
}

// ---------------------------------------------------------------------------
// What a plan is refused for, and what it covers
// ---------------------------------------------------------------------------

/// A plan is accepted exactly where every task of it can be carried out: there is one;
/// each has a safe id of its own, one of the four kinds, a safe stem, a prompt, and is
/// pending; what it refers to is there; a figure names its character and a safe emotion,
/// no two figures draw the same, and nothing else has an emotion.
pub proof fn plans_are_accepted_where_they_can_be_carried_out(
    tasks: Seq<TaskPlanView>,
    scenes: Seq<SceneView>,
    cards: Seq<characters::CharacterView>,
)
    ensures
        plan_fault(tasks, scenes, cards) is None <==> {
            &&& tasks.len() > 0
            &&& forall|i: int|
                0 <= i < tasks.len() ==> {
                    let t = #[trigger] tasks[i];
                    &&& story_plan::flag_value(t.id)
                    &&& t.kind == "background"@ || t.kind == "figure"@ || t.kind == "bgm"@ || t.kind
                        == "sfx"@
                    &&& story_plan::flag_value(t.target_stem)
                    &&& !text::blank(t.prompt)
                    &&& t.status == "pending"@
                    &&& t.scene_ref is Some ==> exists|s: int|
                        0 <= s < scenes.len() && (#[trigger] scenes[s]).id == t.scene_ref->0
                    &&& t.character_ref is Some ==> exists|c: int|
                        0 <= c < cards.len() && (#[trigger] cards[c]).id == t.character_ref->0
                    &&& t.kind == "figure"@ ==> t.character_ref is Some && t.character_ref->0.len()
                        > 0 && t.emotion is Some && story_plan::flag_value(t.emotion->0)
                    &&& t.kind != "figure"@ ==> t.emotion is None
                }
            &&& forall|i: int, j: int|
                0 <= i < j < tasks.len() ==> (#[trigger] tasks[i]).id != (#[trigger] tasks[j]).id
                    && !(tasks[i].kind == "figure"@ && tasks[j].kind == "figure"@
                    && tasks[i].character_ref == tasks[j].character_ref && tasks[i].emotion
                    == tasks[j].emotion)
        },
{
    faultless_plans_are_sound(tasks, scenes, cards);
    if plan_sound(tasks, scenes, cards) {
        assert forall|i: int, j: int| 0 <= i < j < tasks.len() implies (#[trigger] tasks[i]).id != (
        #[trigger] tasks[j]).id && !(tasks[i].kind == "figure"@ && tasks[j].kind == "figure"@
            && tasks[i].character_ref == tasks[j].character_ref && tasks[i].emotion
            == tasks[j].emotion) by {
            if tasks[i].kind == "figure"@ && tasks[j].kind == "figure"@ && tasks[i].character_ref
                == tasks[j].character_ref && tasks[i].emotion == tasks[j].emotion {
                let pair = (tasks[i].character_ref->0, tasks[i].emotion->0);
                assert(draws(tasks[i], pair) && draws(tasks[j], pair));
            }
        }
    }
    if {
        &&& tasks.len() > 0
        &&& forall|i: int|
            0 <= i < tasks.len() ==> {
                let t = #[trigger] tasks[i];
                &&& story_plan::flag_value(t.id)
                &&& t.kind == "background"@ || t.kind == "figure"@ || t.kind == "bgm"@ || t.kind
                    == "sfx"@
                &&& story_plan::flag_value(t.target_stem)
                &&& !text::blank(t.prompt)
                &&& t.status == "pending"@
                &&& t.scene_ref is Some ==> exists|s: int|
                    0 <= s < scenes.len() && (#[trigger] scenes[s]).id == t.scene_ref->0
                &&& t.character_ref is Some ==> exists|c: int|
                    0 <= c < cards.len() && (#[trigger] cards[c]).id == t.character_ref->0
                &&& t.kind == "figure"@ ==> t.character_ref is Some && t.character_ref->0.len() > 0
                    && t.emotion is Some && story_plan::flag_value(t.emotion->0)
                &&& t.kind != "figure"@ ==> t.emotion is None
            }
        &&& forall|i: int, j: int|
            0 <= i < j < tasks.len() ==> (#[trigger] tasks[i]).id != (#[trigger] tasks[j]).id && !(
            tasks[i].kind == "figure"@ && tasks[j].kind == "figure"@ && tasks[i].character_ref
                == tasks[j].character_ref && tasks[i].emotion == tasks[j].emotion)
    } {
        assert forall|i: int, j: int, pair: (Seq<char>, Seq<char>)|
            0 <= i < tasks.len() && 0 <= j < tasks.len() && #[trigger] draws(tasks[i], pair)
                && #[trigger] draws(tasks[j], pair) implies i == j by {
            if i < j {
                assert(tasks[i].id != tasks[j].id);
            } else if j < i {
                assert(tasks[j].id != tasks[i].id);
            }
        }
        assert(plan_sound(tasks, scenes, cards));
    }
}

/// A refused task is named: the first one with a fault, by its place in the list.
pub proof fn refused_tasks_are_named(
    tasks: Seq<TaskPlanView>,
    scenes: Seq<SceneView>,
    cards: Seq<characters::CharacterView>,
    i: int,
)
    requires
        0 <= i < tasks.len(),
        plan_fault(tasks.take(i), scenes, cards) is None || i == 0,
        task_fault(tasks, i, scenes, cards) is Some,
    ensures
        plan_fault(tasks, scenes, cards) matches Some(m) && text::begins(
            m,
            "contract violation at "@ + ("$.assetPlan"@ + "["@ + text::decimal(i as nat) + "]"@
                + task_fault(tasks, i, scenes, cards).unwrap().0) + ": "@,
        ),
{
    let before = tasks.take(i);
    assert forall|j: int| 0 <= j < i implies task_fault(tasks, j, scenes, cards) is None by {
        lemma_no_fault(before, 0, scenes, cards, j);
        assert(tasks[j] == before[j]);
        if id_taken(tasks, j) {
            let k = choose|k: int| 0 <= k < j && (#[trigger] tasks[k]).id == tasks[j].id;
            assert(before[k].id == before[j].id);
        }
        if figure_taken(tasks, j) {
            let k = choose|k: int|
                0 <= k < j && (#[trigger] tasks[k]).kind == "figure"@ && tasks[k].character_ref
                    == tasks[j].character_ref && tasks[k].emotion == tasks[j].emotion;
            assert(before[k].kind == "figure"@);
        }
    }
    lemma_first_task_fault(tasks, 0, i, scenes, cards);
    let fault = task_fault(tasks, i, scenes, cards).unwrap();
    let head = "contract violation at "@ + (router::item_path("$.assetPlan"@, i) + fault.0) + ": "@;
    text::parts_of_a_text_are_found(Seq::empty(), head, fault.1, head);
}

proof fn lemma_no_fault(
    tasks: Seq<TaskPlanView>,
    from: int,
    scenes: Seq<SceneView>,
    cards: Seq<characters::CharacterView>,
    j: int,
)
    requires
        0 <= from <= j < tasks.len(),
        plan_fault_from(tasks, from, scenes, cards) is None,
    ensures
        task_fault(tasks, j, scenes, cards) is None,
    decreases j - from,
{
    if from < j {
        lemma_no_fault(tasks, from + 1, scenes, cards, j);
    }
}

proof fn lemma_first_task_fault(
    tasks: Seq<TaskPlanView>,
    from: int,
    i: int,
    scenes: Seq<SceneView>,
    cards: Seq<characters::CharacterView>,
)
    requires
        0 <= from <= i < tasks.len(),
        forall|j: int| from <= j < i ==> task_fault(tasks, j, scenes, cards) is None,
        task_fault(tasks, i, scenes, cards) is Some,
    ensures
        plan_fault_from(tasks, from, scenes, cards) == Some(
            router::violation(
                router::item_path("$.assetPlan"@, i) + task_fault(
                    tasks,
                    i,
                    scenes,
                    cards,
                ).unwrap().0,
                task_fault(tasks, i, scenes, cards).unwrap().1,
            ),
        ),
    decreases i - from,
{
    if from < i {
        assert(task_fault(tasks, from, scenes, cards) is None);
        lemma_first_task_fault(tasks, from + 1, i, scenes, cards);
    }
}

proof fn lemma_cue_pairs(cues: Seq<CueView>, pair: (Seq<char>, Seq<char>))
    ensures
        cue_pairs(cues).contains(pair) <==> exists|c: int|
            0 <= c < cues.len() && (#[trigger] cues[c]).action == FigureCueAction::Show && pair == (
                cues[c].character_id,
                cues[c].emotion,
            ),
    decreases cues.len(),
{
    if cues.len() > 0 {
        let d = cues.drop_last();
        let last = cues.len() - 1;
        lemma_cue_pairs(d, pair);
        let before = cue_pairs(d);
        let all = cue_pairs(cues);
        if before.contains(pair) {
            let k = choose|k: int| 0 <= k < before.len() && before[k] == pair;
            assert(all[k] == pair);
            let c = choose|c: int|
                0 <= c < d.len() && (#[trigger] d[c]).action == FigureCueAction::Show && pair == (
                    d[c].character_id,
                    d[c].emotion,
                );
            assert(cues[c] == d[c]);
        }
        if all.contains(pair) {
            let k = choose|k: int| 0 <= k < all.len() && all[k] == pair;
            if k < before.len() {
                assert(before[k] == pair);
            } else {
                assert(cues[last].action == FigureCueAction::Show);
            }
        }
        if exists|c: int|
            0 <= c < cues.len() && (#[trigger] cues[c]).action == FigureCueAction::Show && pair == (
                cues[c].character_id,
                cues[c].emotion,
            ) {
            let c = choose|c: int|
                0 <= c < cues.len() && (#[trigger] cues[c]).action == FigureCueAction::Show && pair
                    == (cues[c].character_id, cues[c].emotion);
            if c < last {
                assert(d[c].action == FigureCueAction::Show);
            } else {
                assert(all[before.len() as int] == pair);
            }
        }
    }
}

proof fn lemma_contains_either<A>(a: Seq<A>, b: Seq<A>, x: A)
    ensures
        (a + b).contains(x) <==> a.contains(x) || b.contains(x),
{
    if a.contains(x) {
        let i = choose|i: int| 0 <= i < a.len() && a[i] == x;
        assert((a + b)[i] == x);
    }
    if b.contains(x) {
        let i = choose|i: int| 0 <= i < b.len() && b[i] == x;
        assert((a + b)[a.len() + i] == x);
    }
}

proof fn lemma_beat_pairs(beats: Seq<BeatView>, pair: (Seq<char>, Seq<char>))
    ensures
        beat_pairs(beats).contains(pair) <==> exists|b: int|
            0 <= b < beats.len() && cue_pairs((#[trigger] beats[b]).figure_cues).contains(pair),
    decreases beats.len(),
{
    if beats.len() > 0 {
        let d = beats.drop_last();
        lemma_beat_pairs(d, pair);
        lemma_contains_either(beat_pairs(d), cue_pairs(beats.last().figure_cues), pair);
        if beat_pairs(d).contains(pair) {
            let b = choose|b: int|
                0 <= b < d.len() && cue_pairs((#[trigger] d[b]).figure_cues).contains(pair);
            assert(beats[b] == d[b]);
        }
        if cue_pairs(beats.last().figure_cues).contains(pair) {
            assert(cue_pairs(beats[beats.len() - 1].figure_cues).contains(pair));
        }
        if exists|b: int|
            0 <= b < beats.len() && cue_pairs((#[trigger] beats[b]).figure_cues).contains(pair) {
            let b = choose|b: int|
                0 <= b < beats.len() && cue_pairs((#[trigger] beats[b]).figure_cues).contains(pair);
            if b < d.len() {
                assert(cue_pairs(d[b].figure_cues).contains(pair));
            }
        }
    }
}

proof fn lemma_draft_pairs(drafts: Seq<DraftView>, pair: (Seq<char>, Seq<char>))
    ensures
        draft_pairs(drafts).contains(pair) <==> exists|d: int|
            0 <= d < drafts.len() && beat_pairs((#[trigger] drafts[d]).beats).contains(pair),
    decreases drafts.len(),
{
    if drafts.len() > 0 {
        let t = drafts.drop_last();
        lemma_draft_pairs(t, pair);
        lemma_contains_either(draft_pairs(t), beat_pairs(drafts.last().beats), pair);
        if draft_pairs(t).contains(pair) {
            let d = choose|d: int|
                0 <= d < t.len() && beat_pairs((#[trigger] t[d]).beats).contains(pair);
            assert(drafts[d] == t[d]);
        }
        if beat_pairs(drafts.last().beats).contains(pair) {
            assert(beat_pairs(drafts[drafts.len() - 1].beats).contains(pair));
        }
        if exists|d: int|
            0 <= d < drafts.len() && beat_pairs((#[trigger] drafts[d]).beats).contains(pair) {
            let d = choose|d: int|
                0 <= d < drafts.len() && beat_pairs((#[trigger] drafts[d]).beats).contains(pair);
            if d < t.len() {
                assert(beat_pairs(t[d].beats).contains(pair));
            }
        }
    }
}

/// Every figure that a draft shows is drawn by the completed plan, where its character
/// has a card: in whatever scene, beat and cue it is shown, some task draws that
/// character in that emotion.
pub proof fn shown_figures_are_planned(
    tasks: Seq<TaskPlanView>,
    drafts: Seq<DraftView>,
    cards: Seq<characters::CharacterView>,
    d: int,
    b: int,
    c: int,
    k: int,
)
    requires
        0 <= d < drafts.len(),
        0 <= b < drafts[d].beats.len(),
        0 <= c < drafts[d].beats[b].figure_cues.len(),
        drafts[d].beats[b].figure_cues[c].action == FigureCueAction::Show,
        0 <= k < cards.len(),
        cards[k].id == drafts[d].beats[b].figure_cues[c].character_id,
    ensures
        exists|t: int|
            0 <= t < completed_plan(tasks, drafts, cards).len() && (#[trigger] completed_plan(
                tasks,
                drafts,
                cards,
            )[t]).kind == "figure"@ && completed_plan(tasks, drafts, cards)[t].character_ref == Some(
                drafts[d].beats[b].figure_cues[c].character_id,
            ) && completed_plan(tasks, drafts, cards)[t].emotion == Some(
                drafts[d].beats[b].figure_cues[c].emotion,
            ),
{
    let cue = drafts[d].beats[b].figure_cues[c];
    let pair = (cue.character_id, cue.emotion);
    lemma_cue_pairs(drafts[d].beats[b].figure_cues, pair);
    lemma_beat_pairs(drafts[d].beats, pair);
    lemma_draft_pairs(drafts, pair);
    let pairs = draft_pairs(drafts);
    let i = choose|i: int| 0 <= i < pairs.len() && pairs[i] == pair;
    let named = tasks.map_values(|t: TaskPlanView| filled(t));
    assert(characters::character_known(cards, pair.0)) by {
        assert(cards[k].id == pair.0);
    }
    staged_figures_are_drawn(named, pairs, cards, i);
    let all = completed_plan(tasks, drafts, cards);
    let t = choose|t: int| 0 <= t < all.len() && draws(#[trigger] all[t], pair);
    assert(all[t].kind == "figure"@);
}

/// A plan is completed and not rewritten: its own tasks come first, in their order, and
/// each that is added draws, pending, a character that has a card, in an emotion that
/// some cue shows it in.
pub proof fn plans_are_completed_by_shown_figures_only(
    tasks: Seq<TaskPlanView>,
    drafts: Seq<DraftView>,
    cards: Seq<characters::CharacterView>,
    t: int,
)
    requires
        0 <= t < completed_plan(tasks, drafts, cards).len(),
    ensures
        ({
            let all = completed_plan(tasks, drafts, cards);
            &&& t < tasks.len() ==> all[t] == filled(tasks[t])
            &&& t >= tasks.len() ==> {
                &&& all[t].kind == "figure"@ && all[t].status == "pending"@
                &&& all[t].character_ref is Some && all[t].emotion is Some
                &&& exists|k: int|
                    0 <= k < cards.len() && (#[trigger] cards[k]).id == all[t].character_ref->0
                &&& exists|d: int, b: int, c: int|
                    0 <= d < drafts.len() && 0 <= b < drafts[d].beats.len() && 0 <= c
                        < drafts[d].beats[b].figure_cues.len() && {
                        let cue = #[trigger] drafts[d].beats[b].figure_cues[c];
                        cue.action == FigureCueAction::Show && cue.character_id
                            == all[t].character_ref->0 && cue.emotion == all[t].emotion->0
                    }
            }
        }),
{
    let named = tasks.map_values(|t: TaskPlanView| filled(t));
    let all = completed_plan(tasks, drafts, cards);
    if t >= tasks.len() {
        let pairs = draft_pairs(drafts);
        let k = t - tasks.len();
        let pair = lemma_added_task(named, pairs, cards, k);
        assert(all[t] == staged_tasks(named, pairs, cards)[k]);
        lemma_draft_pairs(drafts, pair);
        let d = choose|d: int|
            0 <= d < drafts.len() && beat_pairs((#[trigger] drafts[d]).beats).contains(pair);
        lemma_beat_pairs(drafts[d].beats, pair);
        let b = choose|b: int|
            0 <= b < drafts[d].beats.len() && cue_pairs(
                (#[trigger] drafts[d].beats[b]).figure_cues,
            ).contains(pair);
        lemma_cue_pairs(drafts[d].beats[b].figure_cues, pair);
        let c = choose|c: int|
            0 <= c < drafts[d].beats[b].figure_cues.len() && (
            #[trigger] drafts[d].beats[b].figure_cues[c]).action == FigureCueAction::Show && pair
                == (
                drafts[d].beats[b].figure_cues[c].character_id,
                drafts[d].beats[b].figure_cues[c].emotion,
            );
        let cue = drafts[d].beats[b].figure_cues[c];
        assert(cue.action == FigureCueAction::Show);
    }
}

proof fn lemma_added_task(
    tasks: Seq<TaskPlanView>,
    pairs: Seq<(Seq<char>, Seq<char>)>,
    cards: Seq<characters::CharacterView>,
    k: int,
) -> (pair: (Seq<char>, Seq<char>))
    requires
        0 <= k < staged_tasks(tasks, pairs, cards).len(),
    ensures
        pairs.contains(pair),
        card_of(cards, pair.0) is Some,
        staged_tasks(tasks, pairs, cards)[k] == figure_task(card_of(cards, pair.0)->0, pair.1),
        card_of(cards, pair.0)->0.id == pair.0,
        characters::character_known(cards, pair.0),
    decreases pairs.len(),
{
    let d = pairs.drop_last();
    let before = staged_tasks(tasks, d, cards);
    if k < before.len() {
        let pair = lemma_added_task(tasks, d, cards, k);
        let i = choose|i: int| 0 <= i < d.len() && d[i] == pair;
        assert(pairs[i] == pair);
        pair
    } else {
        let pair = pairs.last();
        assert(pairs[pairs.len() - 1] == pair);
        lemma_found_card(cards, pair.0);
        pair
    }
}

proof fn lemma_found_card(cards: Seq<characters::CharacterView>, id: Seq<char>)
    ensures
        card_of(cards, id) matches Some(card) ==> card.id == id && characters::character_known(
            cards,
            id,
        ),
    decreases cards.len(),
{
    if cards.len() > 0 {
        if cards[0].id != id {
            let t = cards.drop_first();
            lemma_found_card(t, id);
            if card_of(t, id) is Some {
                let k = choose|k: int| 0 <= k < t.len() && #[trigger] t[k].id == id;
                assert(cards[k + 1].id == id);
            }
        } else {
            assert(cards[0].id == id);
        }
    }
}

/// A task that lacks its id is named after its kind and its stem, and a figure that lacks
/// its emotion is drawn in the default one; whatever a task has is kept.
pub proof fn tasks_are_filled_where_they_lack_something(t: TaskPlanView)
    ensures
        ({
            let f = filled(t);
            &&& f.kind == t.kind && f.target_stem == t.target_stem && f.prompt == t.prompt
            &&& f.scene_ref == t.scene_ref && f.character_ref == t.character_ref && f.status
                == t.status
            &&& !text::blank(t.id) ==> f.id == t.id
            &&& text::blank(t.id) ==> text::begins(f.id, text::trim_of(t.kind)) && text::ends(
                f.id,
                "_"@ + text::trim_of(t.target_stem),
            )
            &&& t.emotion is Some || t.kind != "figure"@ ==> f.emotion == t.emotion
            &&& t.emotion is None && t.kind == "figure"@ ==> f.emotion == Some("default"@)
        }),
{
    let kind = text::trim_of(t.kind);
    let stem = text::trim_of(t.target_stem);
    assert(kind + "_"@ + stem =~= kind + ("_"@ + stem));
    text::parts_of_a_text_are_found(kind, "_"@ + stem, Seq::empty(), kind);
    text::parts_of_a_text_are_found(Seq::empty(), kind, "_"@ + stem, kind);
}

/// The task of a figure says what to draw: its character as the card describes it, in
/// the emotion, under a stem of the two.
pub proof fn figure_tasks_say_what_to_draw(card: characters::CharacterView, emotion: Seq<char>)
    ensures
        ({
            let t = figure_task(card, emotion);
            &&& t.character_ref == Some(card.id) && t.emotion == Some(emotion)
            &&& t.kind == "figure"@ && t.status == "pending"@
            &&& t.target_stem == card.id + "_"@ + emotion
            &&& text::occurs(t.prompt, emotion + "表情；"@)
            &&& text::occurs(t.prompt, card.description)
            &&& text::ends(t.prompt, card.personality)
        }),
{
    let a = "视觉小说角色立绘，单人，完整身体，纯色背景，"@;
    let b = "表情；"@;
    let c = "；性格："@;
    let e = emotion;
    let d = card.description;
    let p = card.personality;
    let whole = a + e + b + d + c + p;
    assert(whole =~= a + (e + b) + (d + c + p));
    text::parts_of_a_text_are_found(a, e + b, d + c + p, whole);
    assert(whole =~= (a + e + b) + d + (c + p));
    text::parts_of_a_text_are_found(a + e + b, d, c + p, whole);
    text::parts_of_a_text_are_found(a + e + b + d + c, p, Seq::empty(), whole);
}

/// The plan that is made without a model gives every scene its background, in their
/// order, and the production its theme.
pub proof fn local_plans_cover_every_scene(
    scenes: Seq<SceneView>,
    drafts: Seq<DraftView>,
    cards: Seq<characters::CharacterView>,
    s: int,
)
    requires
        0 <= s < scenes.len(),
    ensures
        ({
            let plan = local_plan(scenes, drafts, cards);
            &&& plan.len() > scenes.len()
            &&& plan[s].kind == "background"@ && plan[s].scene_ref == Some(scenes[s].id)
            &&& text::occurs(plan[s].prompt, scenes[s].title)
            &&& plan.last().kind == "bgm"@
        }),
{
    let title = scenes[s].title;
    let head = "视觉小说背景，无人物，"@;
    let rest = "；"@ + scenes[s].summary + "；与统一世界观保持光线和建筑语言一致"@;
    assert(head + title + "；"@ + scenes[s].summary
        + "；与统一世界观保持光线和建筑语言一致"@ =~= head + title + rest);
    text::parts_of_a_text_are_found(head, title, rest, title);
}

} // verus!
