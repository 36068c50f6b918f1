//! Applying the assistant's changes to a project, all of them or none.
//!
//! Conflicts are found before anything is written, from what the caller read; a
//! snapshot is taken before the first edit and restored where an edit fails.
use vstd::prelude::*;

use crate::agents::router;
use crate::assets;
use crate::assets::{AssetMetadata, SceneAssetCard};
use crate::characters;
use crate::characters::Character;
use crate::json_store;
use crate::paths;
use crate::project;
use crate::project::ProjectMemory;
use crate::story_plan;
use crate::text;
use crate::text_map;
use crate::text_map::TextMap;
use crate::webgal::{CommandType, WebGalNode};

verus! {

broadcast use vstd::string::group_string_axioms;

#[derive(Debug, PartialEq, Eq)]
pub struct ApplyChangeSetRequest {
    pub project_path: String,
    pub force: bool,
    pub current_scene: Option<CurrentSceneState>,
    pub edits: Vec<ChangeSetEdit>,
}

/// The scene that is open in the editor, as it stands there.
#[derive(Debug, PartialEq, Eq)]
pub struct CurrentSceneState {
    pub file: String,
    pub content: String,
}

#[derive(Debug, PartialEq, Eq)]
pub enum ChangeSetEdit {
    Scene { file: String, before_content: String, after_content: String },
    CreateScene {
        file: String,
        chapter: Option<String>,
        outline: Option<String>,
        initial_content: Option<String>,
    },
    Character { before: Box<Character>, after: Box<Character> },
    CreateCharacter { draft: Box<Character> },
    Memory { before: ProjectMemory, after: ProjectMemory },
    AssetPlan { cards: Vec<PlannedAssetCard> },
}

#[derive(Debug, PartialEq, Eq)]
pub struct PlannedAssetCard {
    pub category: PlannedAssetCategory,
    pub card: SceneAssetCard,
}

#[derive(Debug, Clone, Copy, PartialEq, Eq, Structural)]
pub enum PlannedAssetCategory {
    Background,
    Cg,
}

#[derive(Debug, PartialEq, Eq)]
pub enum ApplyChangeSetResult {
    Applied,
    Conflict { resources: Vec<String> },
    Failed { resource: String, message: String, recovery: RecoveryStatus },
}

#[derive(Debug, PartialEq, Eq)]
pub enum RecoveryStatus {
    NotNeeded,
    Restored,
    Failed { message: String, snapshot_id: String },
}

pub enum RecoveryView {
    NotNeeded,
    Restored,
    Failed(Seq<char>, Seq<char>),
}

impl View for RecoveryStatus {
    type V = RecoveryView;

    open spec fn view(&self) -> RecoveryView {
        match *self {
            RecoveryStatus::NotNeeded => RecoveryView::NotNeeded,
            RecoveryStatus::Restored => RecoveryView::Restored,
            RecoveryStatus::Failed { message, snapshot_id } => RecoveryView::Failed(
                message@,
                snapshot_id@,
            ),
        }
    }
}

pub enum ResultView {
    Applied,
    Conflict(Seq<Seq<char>>),
    Failed(Seq<char>, Seq<char>, RecoveryView),
}

impl View for ApplyChangeSetResult {
    type V = ResultView;

    open spec fn view(&self) -> ResultView {
        match *self {
            ApplyChangeSetResult::Applied => ResultView::Applied,
            ApplyChangeSetResult::Conflict { resources } => ResultView::Conflict(
                text::texts(resources@),
            ),
            ApplyChangeSetResult::Failed { resource, message, recovery } => ResultView::Failed(
                resource@,
                message@,
                recovery@,
            ),
        }
    }
}

// ---------------------------------------------------------------------------
// Scenes
// ---------------------------------------------------------------------------

/// Whether a name is that of a scene file.
pub open spec fn scene_file(file: Seq<char>) -> bool {
    paths::plain_name(file) && text::ends(text::ascii_lowercase(file), ".txt"@)
}

/// Where a scene stands.
pub fn scene_path(project_path: &str, file: &str) -> (r: Result<String, String>)
    ensures
        if scene_file(file@) {
            r matches Ok(path) && path@ == paths::joined(
                paths::joined(project_path@, "game/scene"@),
                file@,
            )
        } else {
            r matches Err(m) && m@ == "场景文件名无效："@ + file@
        },
{
    let lower = text::to_ascii_lowercase(file);
    if !paths::is_plain_name(file) || !text::ends_with(lower.as_str(), ".txt") {
        return Err(router::joined("场景文件名无效：", file));
    }
    let dir = paths::join(project_path, "game/scene");
    Ok(paths::join(dir.as_str(), file))
}

/// A line that notes something, where there is something to note.
pub open spec fn noted(label: Seq<char>, value: Option<Seq<char>>) -> Seq<char> {
    match value {
        Some(v) => if text::blank(v) {
            Seq::empty()
        } else {
            label + text::trim_of(v) + "\n"@
        },
        None => Seq::empty(),
    }
}

/// What a new scene holds: its chapter and its outline as comments, and its
/// first content; a comment with its name where that is nothing.
pub open spec fn created_content(
    file: Seq<char>,
    chapter: Option<Seq<char>>,
    outline: Option<Seq<char>>,
    initial: Option<Seq<char>>,
) -> Seq<char> {
    let content = noted("; 章节: "@, chapter) + noted("; 大纲: "@, outline) + (match initial {
        Some(s) => s,
        None => Seq::empty(),
    });
    if content.len() == 0 {
        "; "@ + file + "\n"@
    } else {
        content
    }
}

fn note(label: &str, value: &Option<String>) -> (r: String)
    ensures
        r@ == noted(label@, story_plan::opt_text(*value)),
{
    match value {
        Some(v) => {
            if text::is_blank(v.as_str()) {
                let r = String::new();
                assert(r@ =~= Seq::<char>::empty());
                r
            } else {
                let trimmed = text::trim(v.as_str());
                let mut s = text::copy(label);
                s.append(trimmed.as_str());
                s.append("\n");
                s
            }
        },
        None => {
            let r = String::new();
            assert(r@ =~= Seq::<char>::empty());
            r
        },
    }
}

fn create_content(
    file: &str,
    chapter: &Option<String>,
    outline: &Option<String>,
    initial: &Option<String>,
) -> (r: String)
    ensures
        r@ == created_content(
            file@,
            story_plan::opt_text(*chapter),
            story_plan::opt_text(*outline),
            story_plan::opt_text(*initial),
        ),
{
    let mut content = note("; 章节: ", chapter);
    let noted_outline = note("; 大纲: ", outline);
    content.append(noted_outline.as_str());
    match initial {
        Some(s) => content.append(s.as_str()),
        None => {
            assert(content@ + Seq::<char>::empty() =~= content@);
        },
    }
    if content.as_str().is_empty() {
        let mut s = text::copy("; ");
        s.append(file);
        s.append("\n");
        return s;
    }
    content
}

/// What an edit writes to a scene file: nothing where it is none of a scene.
#[derive(Debug, PartialEq, Eq)]
pub struct SceneWrite {
    pub path: String,
    pub content: String,
}

/// Why an edit cannot be carried out, before anything is written.
pub open spec fn edit_fault(edit: ChangeSetEdit, present: bool) -> Option<Seq<char>> {
    match edit {
        ChangeSetEdit::Scene { file, .. } => if scene_file(file@) {
            None
        } else {
            Some("场景文件名无效："@ + file@)
        },
        ChangeSetEdit::CreateScene { file, .. } => if !scene_file(file@) {
            Some("场景文件名无效："@ + file@)
        } else if present {
            Some("场景 "@ + file@ + " 已存在"@)
        } else {
            None
        },
        _ => None,
    }
}

/// What an edit writes to a scene file.
pub open spec fn scene_content(edit: ChangeSetEdit) -> Option<(Seq<char>, Seq<char>)> {
    match edit {
        ChangeSetEdit::Scene { file, after_content, .. } => Some((file@, after_content@)),
        ChangeSetEdit::CreateScene { file, chapter, outline, initial_content } => Some(
            (
                file@,
                created_content(
                    file@,
                    story_plan::opt_text(chapter),
                    story_plan::opt_text(outline),
                    story_plan::opt_text(initial_content),
                ),
            ),
        ),
        _ => None,
    }
}

/// Decides what an edit writes to a scene file. `present` says whether there is
/// a file where a new scene would stand.
pub fn plan_scene_write(project_path: &str, edit: &ChangeSetEdit, present: bool) -> (r: Result<
    Option<SceneWrite>,
    String,
>)
    ensures
        match edit_fault(*edit, present) {
            Some(m) => r matches Err(e) && e@ == m,
            None => match scene_content(*edit) {
                Some(w) => r matches Ok(Some(write)) && write.content@ == w.1 && write.path@
                    == paths::joined(paths::joined(project_path@, "game/scene"@), w.0),
                None => r matches Ok(None),
            },
        },
{
    match edit {
        ChangeSetEdit::Scene { file, after_content, .. } => match scene_path(
            project_path,
            file.as_str(),
        ) {
            Ok(path) => Ok(Some(SceneWrite { path, content: after_content.clone() })),
            Err(m) => Err(m),
        },
        ChangeSetEdit::CreateScene { file, chapter, outline, initial_content } => match scene_path(
            project_path,
            file.as_str(),
        ) {
            Ok(path) => {
                if present {
                    let mut m = text::copy("场景 ");
                    m.append(file.as_str());
                    m.append(" 已存在");
                    return Err(m);
                }
                let content = create_content(file.as_str(), chapter, outline, initial_content);
                Ok(Some(SceneWrite { path, content }))
            },
            Err(m) => Err(m),
        },
        ChangeSetEdit::Character { .. } => Ok(None),
        ChangeSetEdit::CreateCharacter { .. } => Ok(None),
        ChangeSetEdit::Memory { .. } => Ok(None),
        ChangeSetEdit::AssetPlan { .. } => Ok(None),
    }
}

/// The message for a scene that could not be written.
pub open spec fn write_fault(edit: ChangeSetEdit, error: Seq<char>) -> Seq<char> {
    match edit {
        ChangeSetEdit::Scene { file, .. } => "写入场景 "@ + file@ + " 失败："@ + error,
        ChangeSetEdit::CreateScene { file, .. } => "创建场景 "@ + file@ + " 失败："@ + error,
        _ => error,
    }
}

pub fn scene_write_error(edit: &ChangeSetEdit, error: &str) -> (r: String)
    ensures
        r@ == write_fault(*edit, error@),
{
    match edit {
        ChangeSetEdit::Scene { file, .. } => {
            let mut m = text::copy("写入场景 ");
            m.append(file.as_str());
            m.append(" 失败：");
            m.append(error);
            m
        },
        ChangeSetEdit::CreateScene { file, .. } => {
            let mut m = text::copy("创建场景 ");
            m.append(file.as_str());
            m.append(" 失败：");
            m.append(error);
            m
        },
        ChangeSetEdit::Character { .. } => text::copy(error),
        ChangeSetEdit::CreateCharacter { .. } => text::copy(error),
        ChangeSetEdit::Memory { .. } => text::copy(error),
        ChangeSetEdit::AssetPlan { .. } => text::copy(error),
    }
}

// ---------------------------------------------------------------------------
// Conflicts
// ---------------------------------------------------------------------------

/// What stands where the scene of an edit does.
#[derive(Debug, PartialEq, Eq)]
pub struct SceneOnDisk {
    pub present: bool,
    pub content: Result<String, String>,
}

/// What the caller read of a project.
#[derive(Debug, PartialEq, Eq)]
pub struct ProjectState {
    pub characters: Vec<Character>,
    pub memory: Option<ProjectMemory>,
    pub metadata: AssetMetadata,
}

/// Whether two texts are the same but for the case of ASCII letters.
pub open spec fn alike(a: Seq<char>, b: Seq<char>) -> bool {
    text::ascii_lowercase(a) == text::ascii_lowercase(b)
}

/// Whether a planned card would take the place of one that is there.
pub open spec fn card_clashes(cards: Map<Seq<char>, SceneAssetCard>, planned: SceneAssetCard) -> bool {
    exists|k: Seq<char>| #[trigger]
        cards.dom().contains(k) && (alike(cards[k].id@, planned.id@) || alike(
            cards[k].target_stem@,
            planned.target_stem@,
        ))
}

/// The cards of a category.
pub open spec fn cards_of(metadata: AssetMetadata, category: PlannedAssetCategory) -> Map<
    Seq<char>,
    SceneAssetCard,
> {
    match category {
        PlannedAssetCategory::Background => metadata.scene_cards@,
        PlannedAssetCategory::Cg => metadata.cg_cards@,
    }
}

/// The planned cards that would take the place of others, in their order.
pub open spec fn clashing_cards(metadata: AssetMetadata, cards: Seq<PlannedAssetCard>, n: int) -> Seq<
    Seq<char>,
>
    decreases n,
{
    if n <= 0 {
        Seq::empty()
    } else {
        let before = clashing_cards(metadata, cards, n - 1);
        let planned = cards[n - 1];
        if card_clashes(cards_of(metadata, planned.category), planned.card) {
            before.push("asset:"@ + planned.card.id@)
        } else {
            before
        }
    }
}

/// Whether a card is no longer what the edit took it to be.
pub open spec fn card_changed(cards: Seq<Character>, before: Character) -> bool {
    !(exists|i: int|
        0 <= i < cards.len() && (#[trigger] cards[i]).id@ == before.id@ && cards[i]@ == before@
            && forall|j: int| 0 <= j < i ==> (#[trigger] cards[j]).id@ != before.id@)
}

/// A name by which cards are told apart: trimmed and in lower case.
pub open spec fn name_key(name: Seq<char>) -> Seq<char> {
    text::lowercase(text::trim_of(name))
}

/// Whether a card of this name is there.
pub open spec fn name_taken(cards: Seq<Character>, name: Seq<char>) -> bool {
    exists|i: int| 0 <= i < cards.len() && name_key((#[trigger] cards[i]).name@) == name_key(name)
}

/// Whether the memory is no longer what the edit took it to be; a memory that is
/// not there counts as an empty one.
pub open spec fn memory_changed(memory: Option<ProjectMemory>, before: ProjectMemory) -> bool {
    match memory {
        None => !project::memory_blank(before@),
        Some(m) => m@ != before@,
    }
}

/// Whether the scene that is open differs from what the edit took it to be.
pub open spec fn buffer_changed(
    current: Option<CurrentSceneState>,
    file: Seq<char>,
    before: Seq<char>,
) -> bool {
    current matches Some(scene) && scene.file@ == file && scene.content@ != before
}

/// The conflicts of one edit, or why they cannot be told.
pub open spec fn edit_conflicts(
    edit: ChangeSetEdit,
    disk: SceneOnDisk,
    current: Option<CurrentSceneState>,
    state: ProjectState,
) -> Result<Seq<Seq<char>>, (Seq<char>, Seq<char>)> {
    match edit {
        ChangeSetEdit::Scene { file, before_content, .. } => if !scene_file(file@) {
            Err(("scene:"@ + file@, "场景文件名无效："@ + file@))
        } else {
            match disk.content {
                Err(m) => Err(("scene:"@ + file@, m@)),
                Ok(content) => Ok(
                    if content@ != before_content@ || buffer_changed(
                        current,
                        file@,
                        before_content@,
                    ) {
                        seq!["scene:"@ + file@]
                    } else {
                        Seq::empty()
                    },
                ),
            }
        },
        ChangeSetEdit::CreateScene { file, .. } => if !scene_file(file@) {
            Err(("scene:"@ + file@, "场景文件名无效："@ + file@))
        } else {
            Ok(
                if disk.present {
                    seq!["scene:"@ + file@]
                } else {
                    Seq::empty()
                },
            )
        },
        ChangeSetEdit::Character { before, .. } => Ok(
            if card_changed(state.characters@, *before) {
                seq!["character:"@ + before.id@]
            } else {
                Seq::empty()
            },
        ),
        ChangeSetEdit::CreateCharacter { draft } => Ok(
            if name_taken(state.characters@, draft.name@) {
                seq!["character:"@ + draft.name@]
            } else {
                Seq::empty()
            },
        ),
        ChangeSetEdit::Memory { before, .. } => Ok(
            if memory_changed(state.memory, before) {
                seq!["memory"@]
            } else {
                Seq::empty()
            },
        ),
        ChangeSetEdit::AssetPlan { cards } => Ok(
            clashing_cards(state.metadata, cards@, cards@.len() as int),
        ),
    }
}

/// The conflicts of the first `n` edits, in their order.
pub open spec fn conflicts_upto(
    edits: Seq<ChangeSetEdit>,
    disk: Seq<SceneOnDisk>,
    current: Option<CurrentSceneState>,
    state: ProjectState,
    n: int,
) -> Result<Seq<Seq<char>>, (Seq<char>, Seq<char>)>
    decreases n,
{
    if n <= 0 {
        Ok(Seq::empty())
    } else {
        match conflicts_upto(edits, disk, current, state, n - 1) {
            Err(e) => Err(e),
            Ok(before) => match edit_conflicts(edits[n - 1], disk[n - 1], current, state) {
                Err(e) => Err(e),
                Ok(found) => Ok(before + found),
            },
        }
    }
}

/// Whether an outcome is the expected one.
pub open spec fn found_as(
    r: Result<Vec<String>, (String, String)>,
    expected: Result<Seq<Seq<char>>, (Seq<char>, Seq<char>)>,
) -> bool {
    match (r, expected) {
        (Ok(v), Ok(e)) => text::texts(v@) == e,
        (Err(f), Err(e)) => f.0@ == e.0 && f.1@ == e.1,
        _ => false,
    }
}

fn has_clash(cards: &TextMap<SceneAssetCard>, planned: &SceneAssetCard) -> (r: bool)
    ensures
        r == card_clashes(cards@, *planned),
{
    let n = cards.len();
    let ghost entries = cards.entries();
    let mut i: usize = 0;
    while i < n
        invariant
            i <= n,
            n == cards.entries().len(),
            entries == cards.entries(),
            text_map::distinct_keys(entries),
            cards@ == text_map::map_of(entries),
            forall|j: int|
                0 <= j < i ==> !(alike((#[trigger] entries[j]).1.id@, planned.id@) || alike(
                    entries[j].1.target_stem@,
                    planned.target_stem@,
                )),
        decreases n - i,
    {
        let (key, card) = cards.entry(i);
        if text::eq_ignore_ascii_case(card.id.as_str(), planned.id.as_str())
            || text::eq_ignore_ascii_case(card.target_stem.as_str(), planned.target_stem.as_str()) {
            assert(cards@.dom().contains(key@));
            return true;
        }
        i += 1;
    }
    proof {
        assert forall|k: Seq<char>| #[trigger] cards@.dom().contains(k) implies !(alike(
            cards@[k].id@,
            planned.id@,
        ) || alike(cards@[k].target_stem@, planned.target_stem@)) by {
            let j = choose|j: int| text_map::key_at(entries, j, k);
            text_map::lemma_map_at(entries, j);
        }
    }
    false
}

fn list_clashes(metadata: &AssetMetadata, cards: &Vec<PlannedAssetCard>) -> (r: Vec<String>)
    ensures
        text::texts(r@) == clashing_cards(*metadata, cards@, cards@.len() as int),
{
    let mut out: Vec<String> = Vec::new();
    let mut i: usize = 0;
    assert(text::texts(out@) =~= Seq::<Seq<char>>::empty());
    while i < cards.len()
        invariant
            i <= cards.len(),
            text::texts(out@) == clashing_cards(*metadata, cards@, i as int),
        decreases cards.len() - i,
    {
        let planned = &cards[i];
        let clash = match planned.category {
            PlannedAssetCategory::Background => has_clash(&metadata.scene_cards, &planned.card),
            PlannedAssetCategory::Cg => has_clash(&metadata.cg_cards, &planned.card),
        };
        if clash {
            let ghost before = text::texts(out@);
            let name = router::joined("asset:", planned.card.id.as_str());
            out.push(name);
            assert(text::texts(out@) =~= before.push(name@));
        }
        i += 1;
    }
    out
}

fn is_card_changed(cards: &Vec<Character>, before: &Character) -> (r: bool)
    ensures
        r == card_changed(cards@, *before),
{
    let k = characters::position_of(cards.as_slice(), before.id.as_str());
    if k < cards.len() {
        let same = characters::same_card(&cards[k], before);
        proof {
            if card_changed(cards@, *before) && same {
                assert(cards@[k as int].id@ == before.id@);
            }
            if !card_changed(cards@, *before) && !same {
                let i = choose|i: int|
                    0 <= i < cards@.len() && (#[trigger] cards@[i]).id@ == before.id@ && cards@[i]@
                        == before@ && forall|j: int|
                        0 <= j < i ==> (#[trigger] cards@[j]).id@ != before.id@;
                if i < k {
                    assert(cards@[i].id@ != before.id@);
                } else if i > k {
                    assert(cards@[k as int].id@ != before.id@);
                }
            }
        }
        !same
    } else {
        proof {
            assert forall|i: int| 0 <= i < cards@.len() implies (#[trigger] cards@[i]).id@
                != before.id@ by {}
        }
        true
    }
}

/// The names of cards as they are told apart.
pub open spec fn name_keys(cards: Seq<Character>) -> Seq<Seq<char>> {
    cards.map_values(|c: Character| name_key(c.name@))
}

fn list_name_keys(cards: &Vec<Character>) -> (r: Vec<String>)
    ensures
        text::texts(r@) == name_keys(cards@),
{
    let ghost all = name_keys(cards@);
    let mut out: Vec<String> = Vec::new();
    let mut i: usize = 0;
    assert(text::texts(out@) =~= all.take(0));
    while i < cards.len()
        invariant
            i <= cards.len(),
            all == name_keys(cards@),
            text::texts(out@) == all.take(i as int),
        decreases cards.len() - i,
    {
        let ghost before = text::texts(out@);
        let trimmed = text::trim(cards[i].name.as_str());
        let key = text::to_lowercase(trimmed.as_str());
        out.push(key);
        assert(text::texts(out@) =~= before.push(key@));
        assert(all.take(i + 1) =~= all.take(i as int).push(key@));
        i += 1;
    }
    assert(all.take(all.len() as int) =~= all);
    out
}

fn is_name_taken(cards: &Vec<Character>, name: &str) -> (r: bool)
    ensures
        r == name_taken(cards@, name@),
{
    let trimmed = text::trim(name);
    let wanted = text::to_lowercase(trimmed.as_str());
    let keys = list_name_keys(cards);
    let r = text::contains_text(&keys, wanted.as_str());
    proof {
        let all = name_keys(cards@);
        if all.contains(wanted@) {
            let i = choose|i: int| 0 <= i < all.len() && all[i] == wanted@;
            assert(name_key(cards@[i].name@) == wanted@);
        }
        if name_taken(cards@, name@) {
            let i = choose|i: int|
                0 <= i < cards@.len() && name_key((#[trigger] cards@[i]).name@) == name_key(name@);
            assert(all[i] == wanted@);
        }
    }
    r
}

fn one_name(head: &str, tail: &str) -> (r: Vec<String>)
    ensures
        text::texts(r@) == seq![head@ + tail@],
{
    let mut v: Vec<String> = Vec::new();
    v.push(router::joined(head, tail));
    assert(text::texts(v@) =~= seq![head@ + tail@]);
    v
}

fn no_names() -> (r: Vec<String>)
    ensures
        text::texts(r@) == Seq::<Seq<char>>::empty(),
{
    let v: Vec<String> = Vec::new();
    assert(text::texts(v@) =~= Seq::<Seq<char>>::empty());
    v
}

fn conflicts_of(
    edit: &ChangeSetEdit,
    disk: &SceneOnDisk,
    current: &Option<CurrentSceneState>,
    state: &ProjectState,
) -> (r: Result<Vec<String>, (String, String)>)
    ensures
        found_as(r, edit_conflicts(*edit, *disk, *current, *state)),
{
    match edit {
        ChangeSetEdit::Scene { file, before_content, .. } => {
            match scene_path("", file.as_str()) {
                Err(m) => {
                    return Err((router::joined("scene:", file.as_str()), m));
                },
                Ok(_) => {},
            }
            match &disk.content {
                Err(m) => Err((router::joined("scene:", file.as_str()), m.clone())),
                Ok(content) => {
                    let edited = match current {
                        Some(scene) => text::same(scene.file.as_str(), file.as_str())
                            && !text::same(scene.content.as_str(), before_content.as_str()),
                        None => false,
                    };
                    if !text::same(content.as_str(), before_content.as_str()) || edited {
                        Ok(one_name("scene:", file.as_str()))
                    } else {
                        Ok(no_names())
                    }
                },
            }
        },
        ChangeSetEdit::CreateScene { file, .. } => {
            match scene_path("", file.as_str()) {
                Err(m) => {
                    return Err((router::joined("scene:", file.as_str()), m));
                },
                Ok(_) => {},
            }
            if disk.present {
                Ok(one_name("scene:", file.as_str()))
            } else {
                Ok(no_names())
            }
        },
        ChangeSetEdit::Character { before, .. } => {
            if is_card_changed(&state.characters, &**before) {
                Ok(one_name("character:", before.id.as_str()))
            } else {
                Ok(no_names())
            }
        },
        ChangeSetEdit::CreateCharacter { draft } => {
            if is_name_taken(&state.characters, draft.name.as_str()) {
                Ok(one_name("character:", draft.name.as_str()))
            } else {
                Ok(no_names())
            }
        },
        ChangeSetEdit::Memory { before, .. } => {
            let changed = match &state.memory {
                None => !before.is_blank(),
                Some(m) => !m.same(before),
            };
            if changed {
                let mut v: Vec<String> = Vec::new();
                v.push(text::copy("memory"));
                assert(text::texts(v@) =~= seq!["memory"@]);
                Ok(v)
            } else {
                Ok(no_names())
            }
        },
        ChangeSetEdit::AssetPlan { cards } => Ok(list_clashes(&state.metadata, cards)),
    }
}

proof fn lemma_conflicts_error(
    edits: Seq<ChangeSetEdit>,
    disk: Seq<SceneOnDisk>,
    current: Option<CurrentSceneState>,
    state: ProjectState,
    k: int,
    n: int,
)
    requires
        0 <= k <= n,
        conflicts_upto(edits, disk, current, state, k) is Err,
    ensures
        conflicts_upto(edits, disk, current, state, n) == conflicts_upto(
            edits,
            disk,
            current,
            state,
            k,
        ),
    decreases n - k,
{
    if k < n {
        lemma_conflicts_error(edits, disk, current, state, k + 1, n);
    }
}

/// Finds what changed since the edits were made: every resource of which an edit
/// no longer finds what it took it to be. `disk` says, edit by edit, what
/// stands where its scene does.
pub fn detect_conflicts(
    request: &ApplyChangeSetRequest,
    disk: &Vec<SceneOnDisk>,
    state: &ProjectState,
) -> (r: Result<Vec<String>, (String, String)>)
    requires
        disk@.len() == request.edits@.len(),
    ensures
        found_as(
            r,
            conflicts_upto(
                request.edits@,
                disk@,
                request.current_scene,
                *state,
                request.edits@.len() as int,
            ),
        ),
{
    let ghost edits = request.edits@;
    let ghost current = request.current_scene;
    let n = request.edits.len();
    let mut out = no_names();
    let mut i: usize = 0;
    while i < n
        invariant
            i <= n,
            n == edits.len(),
            edits == request.edits@,
            current == request.current_scene,
            disk@.len() == n,
            conflicts_upto(edits, disk@, current, *state, i as int) == Ok::<
                Seq<Seq<char>>,
                (Seq<char>, Seq<char>),
            >(text::texts(out@)),
        decreases n - i,
    {
        match conflicts_of(&request.edits[i], &disk[i], &request.current_scene, state) {
            Err(e) => {
                proof {
                    lemma_conflicts_error(edits, disk@, current, *state, i + 1, n as int);
                }
                return Err(e);
            },
            Ok(found) => {
                let ghost before = text::texts(out@);
                let ghost all = text::texts(found@);
                let mut k: usize = 0;
                assert(before + all.take(0) =~= before);
                while k < found.len()
                    invariant
                        k <= found.len(),
                        all == text::texts(found@),
                        text::texts(out@) == before + all.take(k as int),
                    decreases found.len() - k,
                {
                    let ghost sofar = text::texts(out@);
                    out.push(found[k].clone());
                    assert(text::texts(out@) =~= sofar.push(all[k as int]));
                    assert(before + all.take(k + 1) =~= (before + all.take(k as int)).push(
                        all[k as int],
                    ));
                    k += 1;
                }
                assert(all.take(all.len() as int) =~= all);
            },
        }
        i += 1;
    }
    Ok(out)
}

/// What a project holds that an edit does not find as it took it to be is
/// reported, and where nothing changed, nothing is: a scene edit conflicts
/// exactly where the file or the open scene differs from what it was made for.
pub proof fn scene_conflicts_are_exact(
    file: String,
    before_content: String,
    after_content: String,
    present: bool,
    content: String,
    current: Option<CurrentSceneState>,
    state: ProjectState,
)
    requires
        scene_file(file@),
    ensures
        edit_conflicts(
            ChangeSetEdit::Scene { file, before_content, after_content },
            SceneOnDisk { present, content: Ok(content) },
            current,
            state,
        ) == Ok::<Seq<Seq<char>>, (Seq<char>, Seq<char>)>(
            if content@ == before_content@ && !buffer_changed(current, file@, before_content@) {
                Seq::empty()
            } else {
                seq!["scene:"@ + file@]
            },
        ),
{
}

// ---------------------------------------------------------------------------
// Asset cards
// ---------------------------------------------------------------------------

/// A planned card, with the picture that its card has already.
pub open spec fn merged_card(
    cards: Map<Seq<char>, assets::CardView>,
    planned: assets::CardView,
) -> assets::CardView {
    if cards.dom().contains(planned.id) && cards[planned.id].image_asset is Some {
        assets::CardView { image_asset: cards[planned.id].image_asset, ..planned }
    } else {
        planned
    }
}

/// The cards of a category after the first `n` planned ones were put in.
pub open spec fn merged_upto(
    cards: Map<Seq<char>, assets::CardView>,
    planned: Seq<PlannedAssetCard>,
    category: PlannedAssetCategory,
    n: int,
) -> Map<Seq<char>, assets::CardView>
    decreases n,
{
    if n <= 0 {
        cards
    } else {
        let before = merged_upto(cards, planned, category, n - 1);
        let p = planned[n - 1];
        if p.category == category {
            before.insert(p.card@.id, merged_card(before, p.card@))
        } else {
            before
        }
    }
}

fn put_card(cards: &mut TextMap<SceneAssetCard>, planned: &SceneAssetCard)
    ensures
        assets::card_views(final(cards)@) == assets::card_views(old(cards)@).insert(
            planned@.id,
            merged_card(assets::card_views(old(cards)@), planned@),
        ),
{
    let ghost before = assets::card_views(cards@);
    let mut card = planned.clone();
    match cards.get(planned.id.as_str()) {
        Some(existing) => {
            assert(before[planned@.id] == existing@);
            match &existing.image_asset {
                Some(image) => {
                    card.image_asset = Some(image.clone());
                },
                None => {},
            }
        },
        None => {},
    }
    let ghost put = card@;
    assert(put =~= merged_card(before, planned@));
    cards.insert(planned.id.clone(), card);
    assert(assets::card_views(cards@) =~= before.insert(planned@.id, put));
}

/// Whether metadata are others with planned cards put in, each under its id.
pub open spec fn merges(
    after: AssetMetadata,
    before: AssetMetadata,
    cards: Seq<PlannedAssetCard>,
) -> bool {
    &&& assets::card_views(after.scene_cards@) == merged_upto(
        assets::card_views(before.scene_cards@),
        cards,
        PlannedAssetCategory::Background,
        cards.len() as int,
    )
    &&& assets::card_views(after.cg_cards@) == merged_upto(
        assets::card_views(before.cg_cards@),
        cards,
        PlannedAssetCategory::Cg,
        cards.len() as int,
    )
    &&& after.aliases == before.aliases
    &&& after.descriptions == before.descriptions
    &&& after.tags == before.tags
    &&& after.references == before.references
    &&& after.voice_cards == before.voice_cards
    &&& after.deleted_scene_cards == before.deleted_scene_cards
    &&& after.deleted_cg_cards == before.deleted_cg_cards
    &&& after.deleted_voice_cards == before.deleted_voice_cards
}

/// Puts planned cards in, each under its id.
pub fn merge_asset_plan(metadata: &mut AssetMetadata, cards: &Vec<PlannedAssetCard>)
    ensures
        merges(*final(metadata), *old(metadata), cards@),
{
    let ghost scenes = assets::card_views(metadata.scene_cards@);
    let ghost stills = assets::card_views(metadata.cg_cards@);
    let ghost start = *metadata;
    let mut i: usize = 0;
    while i < cards.len()
        invariant
            i <= cards.len(),
            assets::card_views(metadata.scene_cards@) == merged_upto(
                scenes,
                cards@,
                PlannedAssetCategory::Background,
                i as int,
            ),
            assets::card_views(metadata.cg_cards@) == merged_upto(
                stills,
                cards@,
                PlannedAssetCategory::Cg,
                i as int,
            ),
            metadata.aliases == start.aliases,
            metadata.descriptions == start.descriptions,
            metadata.tags == start.tags,
            metadata.references == start.references,
            metadata.voice_cards == start.voice_cards,
            metadata.deleted_scene_cards == start.deleted_scene_cards,
            metadata.deleted_cg_cards == start.deleted_cg_cards,
            metadata.deleted_voice_cards == start.deleted_voice_cards,
        decreases cards.len() - i,
    {
        match cards[i].category {
            PlannedAssetCategory::Background => put_card(
                &mut metadata.scene_cards,
                &cards[i].card,
            ),
            PlannedAssetCategory::Cg => put_card(&mut metadata.cg_cards, &cards[i].card),
        }
        i += 1;
    }
}

/// The background that a command shows, if it shows one.
pub open spec fn shown_background(node: WebGalNode) -> Option<Seq<char>> {
    let asset = text::trim_of(
        match node.asset {
            Some(a) => a@,
            None => node.content@,
        },
    );
    if node.cmd_type == CommandType::ChangeBg && asset.len() > 0 && asset != "none"@ {
        Some(asset)
    } else {
        None
    }
}

/// Whether one of the first `n` commands shows this background.
pub open spec fn shown_upto(nodes: Seq<WebGalNode>, n: int, name: Seq<char>) -> bool {
    exists|i: int| 0 <= i < n && shown_background(#[trigger] nodes[i]) == Some(name)
}

/// The backgrounds that a scene shows, each once.
pub fn scene_backgrounds(nodes: &Vec<WebGalNode>) -> (r: Vec<String>)
    ensures
        text::texts(r@).no_duplicates(),
        forall|name: Seq<char>|
            text::texts(r@).contains(name) <==> #[trigger] shown_upto(
                nodes@,
                nodes@.len() as int,
                name,
            ),
{
    let mut out: Vec<String> = Vec::new();
    let mut i: usize = 0;
    assert(text::texts(out@) =~= Seq::<Seq<char>>::empty());
    while i < nodes.len()
        invariant
            i <= nodes.len(),
            text::texts(out@).no_duplicates(),
            forall|name: Seq<char>|
                text::texts(out@).contains(name) <==> #[trigger] shown_upto(
                    nodes@,
                    i as int,
                    name,
                ),
        decreases nodes.len() - i,
    {
        let node = &nodes[i];
        let ghost before = text::texts(out@);
        let mut added = false;
        if node.cmd_type == CommandType::ChangeBg {
            let asset = match &node.asset {
                Some(a) => text::trim(a.as_str()),
                None => text::trim(node.content.as_str()),
            };
            if !asset.as_str().is_empty() && !text::same(asset.as_str(), "none") {
                assert(shown_background(*node) == Some(asset@));
                if !text::contains_text(&out, asset.as_str()) {
                    out.push(asset);
                    assert(text::texts(out@) =~= before.push(asset@));
                    added = true;
                }
            }
        }
        proof {
            let now = text::texts(out@);
            assert forall|name: Seq<char>|
                now.contains(name) <==> #[trigger] shown_upto(nodes@, i + 1, name) by {
                if shown_upto(nodes@, i + 1, name) && !shown_upto(nodes@, i as int, name) {
                    assert(shown_background(nodes@[i as int]) == Some(name));
                    if added {
                        assert(now[before.len() as int] == name);
                    }
                }
                if shown_upto(nodes@, i as int, name) {
                    let j = choose|j: int|
                        0 <= j < i && shown_background(#[trigger] nodes@[j]) == Some(name);
                    assert(shown_upto(nodes@, i + 1, name));
                    assert(before.contains(name));
                    let q = choose|q: int| 0 <= q < before.len() && before[q] == name;
                    assert(now[q] == name);
                }
                if now.contains(name) && !before.contains(name) {
                    let q = choose|q: int| 0 <= q < now.len() && now[q] == name;
                    assert(q == before.len());
                    assert(shown_background(nodes@[i as int]) == Some(name));
                }
                if before.contains(name) {
                    assert(shown_upto(nodes@, i as int, name));
                    let j = choose|j: int|
                        0 <= j < i && shown_background(#[trigger] nodes@[j]) == Some(name);
                    assert(shown_upto(nodes@, i + 1, name));
                }
            }
        }
        i += 1;
    }
    out
}

/// A character of a card's id: ASCII letters and digits, `.`, `_` and `-` stay.
pub open spec fn id_char(c: char) -> char {
    if text::ascii_alphanumeric(c) || c == '.' || c == '_' || c == '-' {
        c
    } else {
        '_'
    }
}

/// The id of the card of a background.
pub open spec fn background_id(filename: Seq<char>) -> Seq<char> {
    "bg:"@ + filename.map_values(|c: char| id_char(c))
}

/// A picture's name without its extension, where it ends in one that is known.
pub open spec fn picture_stem(filename: Seq<char>) -> Seq<char> {
    let lower = text::ascii_lowercase(filename);
    if text::ends(lower, ".png"@) {
        filename.take(filename.len() - 4)
    } else if text::ends(lower, ".jpg"@) {
        filename.take(filename.len() - 4)
    } else if text::ends(lower, ".jpeg"@) {
        filename.take(filename.len() - 5)
    } else if text::ends(lower, ".webp"@) {
        filename.take(filename.len() - 5)
    } else if text::ends(lower, ".gif"@) {
        filename.take(filename.len() - 4)
    } else {
        filename
    }
}

/// The picture of a background, where its file is there.
pub open spec fn picture(filename: Seq<char>, present: bool) -> Option<Seq<char>> {
    if paths::plain_name(filename) && present {
        Some(filename)
    } else {
        None
    }
}

/// A card for a background that has none.
pub open spec fn fresh_card(scene: Seq<char>, filename: Seq<char>, present: bool) -> assets::CardView {
    assets::CardView {
        id: background_id(filename),
        title: picture_stem(filename),
        scene_file: Some(scene),
        image_asset: picture(filename, present),
        target_stem: picture_stem(filename),
        prompt: Seq::empty(),
        style: Seq::empty(),
        negative_prompt: Seq::empty(),
    }
}

/// The cards after one background was looked at: one that the author deleted
/// stays away, one that is there gets its picture, and one that is missing is
/// made.
pub open spec fn synced(
    cards: Map<Seq<char>, assets::CardView>,
    deleted: Seq<Seq<char>>,
    scene: Seq<char>,
    filename: Seq<char>,
    present: bool,
) -> Map<Seq<char>, assets::CardView> {
    let id = background_id(filename);
    if deleted.contains(id) {
        cards
    } else if cards.dom().contains(id) {
        cards.insert(
            id,
            assets::CardView { image_asset: picture(filename, present), ..cards[id] },
        )
    } else {
        cards.insert(id, fresh_card(scene, filename, present))
    }
}

/// The cards after the first `n` backgrounds were looked at, in their order.
pub open spec fn synced_upto(
    cards: Map<Seq<char>, assets::CardView>,
    deleted: Seq<Seq<char>>,
    scene: Seq<char>,
    names: Seq<Seq<char>>,
    present: Seq<bool>,
    n: int,
) -> Map<Seq<char>, assets::CardView>
    decreases n,
{
    if n <= 0 {
        cards
    } else {
        synced(
            synced_upto(cards, deleted, scene, names, present, n - 1),
            deleted,
            scene,
            names[n - 1],
            present[n - 1],
        )
    }
}

fn make_background_id(filename: &str) -> (r: String)
    ensures
        r@ == background_id(filename@),
{
    let chars = text::chars_of(filename);
    let ghost mapped = filename@.map_values(|c: char| id_char(c));
    let mut s = text::copy("bg:");
    let mut i: usize = 0;
    assert("bg:"@ + mapped.take(0) =~= "bg:"@);
    while i < chars.len()
        invariant
            i <= chars.len(),
            chars@ == filename@,
            mapped == filename@.map_values(|c: char| id_char(c)),
            s@ == "bg:"@ + mapped.take(i as int),
        decreases chars.len() - i,
    {
        let c = chars[i];
        let kept = if text::is_ascii_alphanumeric(c) || c == '.' || c == '_' || c == '-' {
            c
        } else {
            '_'
        };
        s.push(kept);
        assert("bg:"@ + mapped.take(i + 1) =~= ("bg:"@ + mapped.take(i as int)).push(kept));
        i += 1;
    }
    assert(mapped.take(mapped.len() as int) =~= mapped);
    s
}

fn cut(filename: &str, n: usize) -> (r: String)
    requires
        n <= filename@.len(),
    ensures
        r@ == filename@.take(filename@.len() - n),
{
    let chars = text::chars_of(filename);
    assert(filename@.subrange(0, filename@.len() - n) =~= filename@.take(filename@.len() - n));
    text::string_of_range(&chars, 0, chars.len() - n)
}

fn make_picture_stem(filename: &str) -> (r: String)
    ensures
        r@ == picture_stem(filename@),
{
    proof {
        reveal_strlit(".png");
        reveal_strlit(".jpg");
        reveal_strlit(".jpeg");
        reveal_strlit(".webp");
        reveal_strlit(".gif");
    }
    let lower = text::to_ascii_lowercase(filename);
    assert(lower@.len() == filename@.len());
    if text::ends_with(lower.as_str(), ".png") || text::ends_with(lower.as_str(), ".jpg") {
        cut(filename, 4)
    } else if text::ends_with(lower.as_str(), ".jpeg") || text::ends_with(
        lower.as_str(),
        ".webp",
    ) {
        cut(filename, 5)
    } else if text::ends_with(lower.as_str(), ".gif") {
        cut(filename, 4)
    } else {
        text::copy(filename)
    }
}

fn sync_one(
    cards: &mut TextMap<SceneAssetCard>,
    deleted: &Vec<String>,
    scene_file: &str,
    filename: &str,
    present: bool,
) -> (changed: bool)
    ensures
        assets::card_views(final(cards)@) == synced(
            assets::card_views(old(cards)@),
            text::texts(deleted@),
            scene_file@,
            filename@,
            present,
        ),
        changed == (assets::card_views(final(cards)@) != assets::card_views(old(cards)@)),
{
    let ghost before = assets::card_views(cards@);
    let id = make_background_id(filename);
    if text::contains_text(deleted, id.as_str()) {
        return false;
    }
    let image_asset: Option<String> = if paths::is_plain_name(filename) && present {
        Some(text::copy(filename))
    } else {
        None
    };
    let ghost shown = story_plan::opt_text(image_asset);
    assert(shown == picture(filename@, present));
    let mut updated: Option<SceneAssetCard> = None;
    let mut known = false;
    match cards.get(id.as_str()) {
        Some(existing) => {
            known = true;
            assert(before[id@] == existing@);
            if !story_plan::same_opt(&existing.image_asset, &image_asset) {
                let mut card = existing.clone();
                card.image_asset = story_plan::copy_opt(&image_asset);
                assert(card@ =~= assets::CardView { image_asset: shown, ..before[id@] });
                updated = Some(card);
            } else {
                assert(before[id@] =~= assets::CardView { image_asset: shown, ..before[id@] });
                assert(before.insert(id@, before[id@]) =~= before);
            }
        },
        None => {},
    }
    if known {
        match updated {
            Some(card) => {
                let ghost put = card@;
                cards.insert(id, card);
                assert(assets::card_views(cards@) =~= before.insert(id@, put));
                assert(assets::card_views(cards@)[id@] != before[id@]);
                true
            },
            None => false,
        }
    } else {
        let stem = make_picture_stem(filename);
        let card = SceneAssetCard {
            id: id.clone(),
            title: stem.clone(),
            scene_file: Some(text::copy(scene_file)),
            image_asset,
            target_stem: stem,
            prompt: String::new(),
            style: String::new(),
            negative_prompt: String::new(),
        };
        assert(card@ =~= fresh_card(scene_file@, filename@, present));
        let ghost put = card@;
        cards.insert(id, card);
        assert(assets::card_views(cards@) =~= before.insert(id@, put));
        assert(assets::card_views(cards@).dom().contains(id@));
        true
    }
}

/// Whether one of the first `n` backgrounds changes the cards when it is looked
/// at.
pub open spec fn sync_changes(
    cards: Map<Seq<char>, assets::CardView>,
    deleted: Seq<Seq<char>>,
    scene: Seq<char>,
    names: Seq<Seq<char>>,
    present: Seq<bool>,
    n: int,
) -> bool
    decreases n,
{
    if n <= 0 {
        false
    } else {
        sync_changes(cards, deleted, scene, names, present, n - 1) || synced_upto(
            cards,
            deleted,
            scene,
            names,
            present,
            n,
        ) != synced_upto(cards, deleted, scene, names, present, n - 1)
    }
}

/// Whether metadata are others with the cards of a scene's backgrounds brought up
/// to date.
pub open spec fn syncs(
    after: AssetMetadata,
    before: AssetMetadata,
    scene: Seq<char>,
    names: Seq<Seq<char>>,
    present: Seq<bool>,
) -> bool {
    &&& assets::card_views(after.scene_cards@) == synced_upto(
        assets::card_views(before.scene_cards@),
        text::texts(before.deleted_scene_cards@),
        scene,
        names,
        present,
        names.len() as int,
    )
    &&& after.aliases == before.aliases
    &&& after.descriptions == before.descriptions
    &&& after.tags == before.tags
    &&& after.references == before.references
    &&& after.cg_cards == before.cg_cards
    &&& after.voice_cards == before.voice_cards
    &&& after.deleted_scene_cards == before.deleted_scene_cards
    &&& after.deleted_cg_cards == before.deleted_cg_cards
    &&& after.deleted_voice_cards == before.deleted_voice_cards
}

/// Whether bringing the cards up to date changes the metadata.
pub open spec fn sync_needed(
    before: AssetMetadata,
    scene: Seq<char>,
    names: Seq<Seq<char>>,
    present: Seq<bool>,
) -> bool {
    sync_changes(
        assets::card_views(before.scene_cards@),
        text::texts(before.deleted_scene_cards@),
        scene,
        names,
        present,
        names.len() as int,
    )
}

/// Brings the cards of a scene's backgrounds up to date. The backgrounds come in
/// any order; `present` says of each whether its file is there. Whether the
/// metadata is to be written again is told.
pub fn sync_scene_background_cards(
    metadata: &mut AssetMetadata,
    scene_file: &str,
    backgrounds: &Vec<String>,
    present: &Vec<bool>,
) -> (changed: bool)
    requires
        present@.len() == backgrounds@.len(),
    ensures
        syncs(
            *final(metadata),
            *old(metadata),
            scene_file@,
            text::texts(backgrounds@),
            present@,
        ),
        changed == sync_needed(
            *old(metadata),
            scene_file@,
            text::texts(backgrounds@),
            present@,
        ),
{
    let ghost start = *metadata;
    let ghost cards = assets::card_views(metadata.scene_cards@);
    let ghost deleted = text::texts(metadata.deleted_scene_cards@);
    let ghost names = text::texts(backgrounds@);
    let mut changed = false;
    let mut i: usize = 0;
    while i < backgrounds.len()
        invariant
            i <= backgrounds.len(),
            present@.len() == backgrounds@.len(),
            names == text::texts(backgrounds@),
            deleted == text::texts(metadata.deleted_scene_cards@),
            assets::card_views(metadata.scene_cards@) == synced_upto(
                cards,
                deleted,
                scene_file@,
                names,
                present@,
                i as int,
            ),
            changed == sync_changes(cards, deleted, scene_file@, names, present@, i as int),
            metadata.aliases == start.aliases,
            metadata.descriptions == start.descriptions,
            metadata.tags == start.tags,
            metadata.references == start.references,
            metadata.cg_cards == start.cg_cards,
            metadata.voice_cards == start.voice_cards,
            metadata.deleted_scene_cards == start.deleted_scene_cards,
            metadata.deleted_cg_cards == start.deleted_cg_cards,
            metadata.deleted_voice_cards == start.deleted_voice_cards,
        decreases backgrounds.len() - i,
    {
        assert(names[i as int] == backgrounds@[i as int]@);
        let one = sync_one(
            &mut metadata.scene_cards,
            &metadata.deleted_scene_cards,
            scene_file,
            backgrounds[i].as_str(),
            present[i],
        );
        if one {
            changed = true;
        }
        i += 1;
    }
    changed
}

proof fn lemma_synced_keeps(
    cards: Map<Seq<char>, assets::CardView>,
    deleted: Seq<Seq<char>>,
    scene: Seq<char>,
    names: Seq<Seq<char>>,
    present: Seq<bool>,
    n: int,
    id: Seq<char>,
)
    requires
        0 <= n <= names.len(),
        deleted.contains(id),
    ensures
        ({
            let after = synced_upto(cards, deleted, scene, names, present, n);
            after.dom().contains(id) == cards.dom().contains(id) && (cards.dom().contains(id)
                ==> after[id] == cards[id])
        }),
    decreases n,
{
    if n > 0 {
        lemma_synced_keeps(cards, deleted, scene, names, present, n - 1, id);
    }
}

/// A card that the author deleted does not come back when its scene is written,
/// whatever the scene shows.
pub proof fn deleted_cards_stay_deleted(
    cards: Map<Seq<char>, assets::CardView>,
    deleted: Seq<Seq<char>>,
    scene: Seq<char>,
    names: Seq<Seq<char>>,
    present: Seq<bool>,
    id: Seq<char>,
)
    requires
        deleted.contains(id),
        !cards.dom().contains(id),
    ensures
        !synced_upto(cards, deleted, scene, names, present, names.len() as int).dom().contains(id),
{
    lemma_synced_keeps(cards, deleted, scene, names, present, names.len() as int, id);
}

// ---------------------------------------------------------------------------
// Applying
// ---------------------------------------------------------------------------

/// The kind of resource that an edit writes.
pub open spec fn resource_of(edit: ChangeSetEdit) -> Seq<char> {
    match edit {
        ChangeSetEdit::Scene { .. } => "scene"@,
        ChangeSetEdit::CreateScene { .. } => "scene"@,
        ChangeSetEdit::Character { .. } => "character"@,
        ChangeSetEdit::CreateCharacter { .. } => "character"@,
        ChangeSetEdit::Memory { .. } => "memory"@,
        ChangeSetEdit::AssetPlan { .. } => "asset_metadata"@,
    }
}

pub fn edit_resource(edit: &ChangeSetEdit) -> (r: &'static str)
    ensures
        r@ == resource_of(*edit),
{
    match edit {
        ChangeSetEdit::Scene { .. } => "scene",
        ChangeSetEdit::CreateScene { .. } => "scene",
        ChangeSetEdit::Character { .. } => "character",
        ChangeSetEdit::CreateCharacter { .. } => "character",
        ChangeSetEdit::Memory { .. } => "memory",
        ChangeSetEdit::AssetPlan { .. } => "asset_metadata",
    }
}

/// Whether an edit is of a character card.
pub open spec fn of_character(edit: ChangeSetEdit) -> bool {
    edit is Character || edit is CreateCharacter
}

/// Whether any of the edits is of a character card.
pub open spec fn any_of_character(edits: Seq<ChangeSetEdit>) -> bool {
    exists|i: int| 0 <= i < edits.len() && of_character(#[trigger] edits[i])
}

fn edits_characters(edits: &Vec<ChangeSetEdit>) -> (r: bool)
    ensures
        r == any_of_character(edits@),
{
    let mut i: usize = 0;
    while i < edits.len()
        invariant
            i <= edits.len(),
            forall|j: int| 0 <= j < i ==> !of_character(#[trigger] edits@[j]),
        decreases edits.len() - i,
    {
        match &edits[i] {
            ChangeSetEdit::Character { .. } => {
                assert(of_character(edits@[i as int]));
                return true;
            },
            ChangeSetEdit::CreateCharacter { .. } => {
                assert(of_character(edits@[i as int]));
                return true;
            },
            _ => {},
        }
        i += 1;
    }
    false
}

/// How far the applying of a change set has come.
#[derive(Debug, PartialEq, Eq)]
pub enum ApplyPhase {
    /// A snapshot of the project is to be taken.
    Snapshotting,
    /// The edit at this index is to be carried out; the snapshot.
    Applying(usize, String),
    /// The snapshot is to be restored, as an edit of this resource failed.
    Restoring { resource: String, message: String, snapshot: String },
    /// The snapshot is to be deleted; whether that goes well does not matter.
    Deleting(String, ApplyChangeSetResult),
    /// It is over.
    Done(ApplyChangeSetResult),
}

pub enum ApplyView {
    Snapshotting,
    Applying(int, Seq<char>),
    Restoring(Seq<char>, Seq<char>, Seq<char>),
    Deleting(Seq<char>, ResultView),
    Done(ResultView),
}

impl View for ApplyPhase {
    type V = ApplyView;

    open spec fn view(&self) -> ApplyView {
        match *self {
            ApplyPhase::Snapshotting => ApplyView::Snapshotting,
            ApplyPhase::Applying(i, id) => ApplyView::Applying(i as int, id@),
            ApplyPhase::Restoring { resource, message, snapshot } => ApplyView::Restoring(
                resource@,
                message@,
                snapshot@,
            ),
            ApplyPhase::Deleting(id, result) => ApplyView::Deleting(id@, result@),
            ApplyPhase::Done(result) => ApplyView::Done(result@),
        }
    }
}

/// A failure before anything was written.
pub open spec fn unwritten(resource: Seq<char>, message: Seq<char>) -> ResultView {
    ResultView::Failed(resource, message, RecoveryView::NotNeeded)
}

fn failed_without_writes(resource: &str, message: String) -> (r: ApplyChangeSetResult)
    ensures
        r@ == unwritten(resource@, message@),
{
    ApplyChangeSetResult::Failed {
        resource: text::copy(resource),
        message,
        recovery: RecoveryStatus::NotNeeded,
    }
}

/// What is known before anything is written.
#[derive(Debug, PartialEq, Eq)]
pub struct Preflight {
    /// Whether the project has its `game` directory.
    pub project_valid: bool,
    /// Whether the story plan may be edited.
    pub story_plan: Result<(), String>,
    /// Whether the character cards may be edited.
    pub characters: Result<(), String>,
    /// The conflicts, or which resource could not be compared and why.
    pub conflicts: Result<Vec<String>, (String, String)>,
}

/// The phase that applying begins in: over at once where the project is not one,
/// a running flow holds what is edited, or there is a conflict that is not
/// forced.
pub open spec fn first_apply(request: ApplyChangeSetRequest, known: Preflight) -> ApplyView {
    if !known.project_valid {
        ApplyView::Done(
            unwritten(
                "project"@,
                "项目目录无效："@ + request.project_path@ + "/game 不存在"@,
            ),
        )
    } else {
        match json_store::fault(known.story_plan) {
            Some(m) => ApplyView::Done(unwritten("flow_lock"@, m)),
            None => {
                let held = if any_of_character(request.edits@) {
                    json_store::fault(known.characters)
                } else {
                    None
                };
                match held {
                    Some(m) => ApplyView::Done(unwritten("flow_lock"@, m)),
                    None => if request.force {
                        ApplyView::Snapshotting
                    } else {
                        match known.conflicts {
                            Err(e) => ApplyView::Done(unwritten(e.0@, e.1@)),
                            Ok(found) => if found@.len() > 0 {
                                ApplyView::Done(ResultView::Conflict(text::texts(found@)))
                            } else {
                                ApplyView::Snapshotting
                            },
                        }
                    },
                }
            },
        }
    }
}

/// Begins to apply a change set.
pub fn apply_ai_change_set(request: &ApplyChangeSetRequest, known: Preflight) -> (r: ApplyPhase)
    ensures
        r@ == first_apply(*request, known),
{
    if !known.project_valid {
        let mut m = text::copy("项目目录无效：");
        m.append(request.project_path.as_str());
        m.append("/game 不存在");
        return ApplyPhase::Done(failed_without_writes("project", m));
    }
    match known.story_plan {
        Err(m) => {
            return ApplyPhase::Done(failed_without_writes("flow_lock", m));
        },
        Ok(_) => {},
    }
    if edits_characters(&request.edits) {
        match known.characters {
            Err(m) => {
                return ApplyPhase::Done(failed_without_writes("flow_lock", m));
            },
            Ok(_) => {},
        }
    }
    if request.force {
        return ApplyPhase::Snapshotting;
    }
    match known.conflicts {
        Err((resource, message)) => ApplyPhase::Done(
            failed_without_writes(resource.as_str(), message),
        ),
        Ok(found) => if found.len() > 0 {
            ApplyPhase::Done(ApplyChangeSetResult::Conflict { resources: found })
        } else {
            ApplyPhase::Snapshotting
        },
    }
}

/// What came of a step.
#[derive(Debug, PartialEq, Eq)]
pub enum ApplyEvent {
    /// The id of the snapshot, or why there is none.
    Snapshot(Result<String, String>),
    Finished(Result<(), String>),
}

pub enum ApplyEventView {
    Snapshot(Seq<char>),
    NoSnapshot(Seq<char>),
    Finished(Option<Seq<char>>),
}

impl View for ApplyEvent {
    type V = ApplyEventView;

    open spec fn view(&self) -> ApplyEventView {
        match *self {
            ApplyEvent::Snapshot(Ok(id)) => ApplyEventView::Snapshot(id@),
            ApplyEvent::Snapshot(Err(m)) => ApplyEventView::NoSnapshot(m@),
            ApplyEvent::Finished(r) => ApplyEventView::Finished(json_store::fault(r)),
        }
    }
}

/// The phase in which the edit at `i` is next.
pub open spec fn at_edit(n: int, i: int, snapshot: Seq<char>) -> ApplyView {
    if i < n {
        ApplyView::Applying(i, snapshot)
    } else {
        ApplyView::Deleting(snapshot, ResultView::Applied)
    }
}

/// The phase after an event. An event that answers no open question changes
/// nothing.
pub open spec fn next_apply(
    edits: Seq<ChangeSetEdit>,
    phase: ApplyView,
    event: ApplyEventView,
) -> ApplyView {
    match (phase, event) {
        (ApplyView::Snapshotting, ApplyEventView::Snapshot(id)) => at_edit(
            edits.len() as int,
            0,
            id,
        ),
        (ApplyView::Snapshotting, ApplyEventView::NoSnapshot(m)) => ApplyView::Done(
            unwritten("snapshot"@, m),
        ),
        (ApplyView::Applying(i, id), ApplyEventView::Finished(failure)) => match failure {
            None => at_edit(edits.len() as int, i + 1, id),
            Some(m) => ApplyView::Restoring(resource_of(edits[i]), m, id),
        },
        (ApplyView::Restoring(resource, message, id), ApplyEventView::Finished(failure)) =>
            match failure {
                None => ApplyView::Deleting(
                    id,
                    ResultView::Failed(resource, message, RecoveryView::Restored),
                ),
                Some(m) => ApplyView::Done(
                    ResultView::Failed(resource, message, RecoveryView::Failed(m, id)),
                ),
            },
        (ApplyView::Deleting(_, result), ApplyEventView::Finished(_)) => ApplyView::Done(result),
        _ => phase,
    }
}

/// Whether a phase speaks of an edit that is there.
pub open spec fn apply_fits(n: int, phase: ApplyView) -> bool {
    phase matches ApplyView::Applying(i, _) ==> 0 <= i < n
}

fn go_to_edit(n: usize, i: usize, snapshot: String) -> (r: ApplyPhase)
    ensures
        r@ == at_edit(n as int, i as int, snapshot@),
{
    if i < n {
        ApplyPhase::Applying(i, snapshot)
    } else {
        ApplyPhase::Deleting(snapshot, ApplyChangeSetResult::Applied)
    }
}

/// Takes the applying of a change set one step further.
pub fn advance(edits: &Vec<ChangeSetEdit>, phase: ApplyPhase, event: ApplyEvent) -> (r: ApplyPhase)
    requires
        apply_fits(edits@.len() as int, phase@),
    ensures
        apply_fits(edits@.len() as int, r@),
        r@ == next_apply(edits@, phase@, event@),
{
    let n = edits.len();
    match (phase, event) {
        (ApplyPhase::Snapshotting, ApplyEvent::Snapshot(Ok(id))) => go_to_edit(n, 0, id),
        (ApplyPhase::Snapshotting, ApplyEvent::Snapshot(Err(m))) => ApplyPhase::Done(
            failed_without_writes("snapshot", m),
        ),
        (ApplyPhase::Applying(i, id), ApplyEvent::Finished(result)) => match result {
            Ok(_) => go_to_edit(n, i + 1, id),
            Err(m) => ApplyPhase::Restoring {
                resource: text::copy(edit_resource(&edits[i])),
                message: m,
                snapshot: id,
            },
        },
        (
            ApplyPhase::Restoring { resource, message, snapshot },
            ApplyEvent::Finished(result),
        ) => match result {
            Ok(_) => ApplyPhase::Deleting(
                snapshot,
                ApplyChangeSetResult::Failed {
                    resource,
                    message,
                    recovery: RecoveryStatus::Restored,
                },
            ),
            Err(m) => ApplyPhase::Done(
                ApplyChangeSetResult::Failed {
                    resource,
                    message,
                    recovery: RecoveryStatus::Failed { message: m, snapshot_id: snapshot },
                },
            ),
        },
        (ApplyPhase::Deleting(_, result), ApplyEvent::Finished(_)) => ApplyPhase::Done(result),
        (phase, _) => phase,
    }
}

// ---------------------------------------------------------------------------
// All or nothing
// ---------------------------------------------------------------------------

/// A project on disk: its contents and its snapshots.
pub struct Project {
    pub contents: Seq<u8>,
    pub snapshots: Map<Seq<char>, Seq<u8>>,
}

/// The project after a step. An edit may leave the contents in any state.
pub open spec fn after_apply(
    project: Project,
    phase: ApplyView,
    event: ApplyEventView,
    contents: Seq<u8>,
) -> Project {
    match (phase, event) {
        (ApplyView::Snapshotting, ApplyEventView::Snapshot(id)) => Project {
            snapshots: project.snapshots.insert(id, project.contents),
            ..project
        },
        (ApplyView::Applying(_, _), ApplyEventView::Finished(_)) => Project { contents, ..project },
        (ApplyView::Restoring(_, _, id), ApplyEventView::Finished(None)) => Project {
            contents: project.snapshots[id],
            ..project
        },
        (ApplyView::Restoring(_, _, _), ApplyEventView::Finished(Some(_))) => Project {
            contents,
            ..project
        },
        (ApplyView::Deleting(id, _), ApplyEventView::Finished(None)) => Project {
            snapshots: project.snapshots.remove(id),
            ..project
        },
        _ => project,
    }
}

/// Whether a snapshot holds what the project was.
pub open spec fn kept_in(project: Project, id: Seq<char>, original: Seq<u8>) -> bool {
    project.snapshots.dom().contains(id) && project.snapshots[id] == original
}

/// What holds of the project in each phase.
pub open spec fn project_fits(project: Project, phase: ApplyView, original: Seq<u8>) -> bool {
    match phase {
        ApplyView::Snapshotting => project.contents == original,
        ApplyView::Applying(_, id) => kept_in(project, id, original),
        ApplyView::Restoring(_, _, id) => kept_in(project, id, original),
        ApplyView::Deleting(_, result) => result_fits(project, result, original) && !(result
            matches ResultView::Failed(_, _, RecoveryView::Failed(_, _))),
        ApplyView::Done(result) => result_fits(project, result, original),
    }
}

/// What a result says of the project: a failure that was recovered from, or that
/// came before any write, and a conflict have left it as it was; where the
/// recovery failed, the snapshot that is named still holds what it was.
pub open spec fn result_fits(project: Project, result: ResultView, original: Seq<u8>) -> bool {
    match result {
        ResultView::Applied => true,
        ResultView::Conflict(_) => project.contents == original,
        ResultView::Failed(_, _, RecoveryView::NotNeeded) => project.contents == original,
        ResultView::Failed(_, _, RecoveryView::Restored) => project.contents == original,
        ResultView::Failed(_, _, RecoveryView::Failed(_, id)) => kept_in(project, id, original),
    }
}

/// A change set that is refused writes nothing: it is over before a snapshot is
/// taken, with the project as it was.
pub proof fn refused_change_sets_write_nothing(
    project: Project,
    request: ApplyChangeSetRequest,
    known: Preflight,
)
    ensures
        project_fits(project, first_apply(request, known), project.contents),
        first_apply(request, known) is Snapshotting || first_apply(request, known) is Done,
{
}

/// Every step keeps what is said of the project, so that whatever comes of the
/// edits, a change set that did not go through has left the project as it was or
/// names a snapshot that holds it.
pub proof fn failed_change_sets_are_undone(
    project: Project,
    edits: Seq<ChangeSetEdit>,
    phase: ApplyView,
    event: ApplyEventView,
    contents: Seq<u8>,
    original: Seq<u8>,
)
    requires
        project_fits(project, phase, original),
        apply_fits(edits.len() as int, phase),
    ensures
        project_fits(
            after_apply(project, phase, event, contents),
            next_apply(edits, phase, event),
            original,
        ),
        apply_fits(edits.len() as int, next_apply(edits, phase, event)),
{
}

// ---------------------------------------------------------------------------
// What is found, and what is left
// ---------------------------------------------------------------------------

/// An edit of a card conflicts exactly where the author has changed the card meanwhile:
/// the first card of the same id in the project is another than the one that the edit
/// was made from, or there is none any more.
pub proof fn edited_cards_conflict_where_they_were_changed(
    before: Box<Character>,
    after: Box<Character>,
    disk: SceneOnDisk,
    current: Option<CurrentSceneState>,
    state: ProjectState,
    k: int,
)
    requires
        0 <= k <= state.characters@.len(),
        forall|j: int| 0 <= j < k ==> (#[trigger] state.characters@[j]).id@ != before.id@,
        k < state.characters@.len() ==> state.characters@[k].id@ == before.id@,
    ensures
        ({
            let found = edit_conflicts(
                ChangeSetEdit::Character { before, after },
                disk,
                current,
                state,
            );
            &&& k == state.characters@.len() || state.characters@[k]@ != before@ ==> found == Ok::<
                Seq<Seq<char>>,
                (Seq<char>, Seq<char>),
            >(seq!["character:"@ + before.id@])
            &&& k < state.characters@.len() && state.characters@[k]@ == before@ ==> found == Ok::<
                Seq<Seq<char>>,
                (Seq<char>, Seq<char>),
            >(Seq::empty())
        }),
{
    let cards = state.characters@;
    if !card_changed(cards, *before) {
        let i = choose|i: int|
            0 <= i < cards.len() && (#[trigger] cards[i]).id@ == before.id@ && cards[i]@ == before@
                && forall|j: int| 0 <= j < i ==> (#[trigger] cards[j]).id@ != before.id@;
        if i < k {
            assert(cards[i].id@ != before.id@);
        }
        if k < i {
            assert(cards[k].id@ != before.id@);
        }
        assert(i == k);
    } else if k < cards.len() && cards[k]@ == before@ {
        assert(cards[k].id@ == before.id@);
    }
}

/// An edit of a scene conflicts exactly where the file, or the editor's buffer where it
/// has the file open, holds another text than the one that the edit was made from. A
/// scene to be made conflicts exactly where there is one.
pub proof fn scenes_conflict_where_they_were_changed(
    file: String,
    before_content: String,
    after_content: String,
    content: String,
    chapter: Option<String>,
    outline: Option<String>,
    initial_content: Option<String>,
    disk: SceneOnDisk,
    current: Option<CurrentSceneState>,
    state: ProjectState,
)
    requires
        scene_file(file@),
        disk.content == Ok::<String, String>(content),
    ensures
        edit_conflicts(
            ChangeSetEdit::Scene { file, before_content, after_content },
            disk,
            current,
            state,
        ) == Ok::<Seq<Seq<char>>, (Seq<char>, Seq<char>)>(
            if content@ != before_content@ || (current is Some && current->0.file@ == file@
                && current->0.content@ != before_content@) {
                seq!["scene:"@ + file@]
            } else {
                Seq::empty()
            },
        ),
        edit_conflicts(
            ChangeSetEdit::CreateScene { file, chapter, outline, initial_content },
            disk,
            current,
            state,
        ) == Ok::<Seq<Seq<char>>, (Seq<char>, Seq<char>)>(
            if disk.present {
                seq!["scene:"@ + file@]
            } else {
                Seq::empty()
            },
        ),
{
}

/// A card to be made conflicts exactly where some card has its name, whatever white
/// space stands around either and in whatever case they are written. The memory
/// conflicts where it is another than it was; where none is kept yet, a blank one is
/// the same.
pub proof fn names_and_memories_conflict_where_they_are_taken(
    draft: Box<Character>,
    before: ProjectMemory,
    after: ProjectMemory,
    disk: SceneOnDisk,
    current: Option<CurrentSceneState>,
    state: ProjectState,
)
    ensures
        ({
            let taken = exists|i: int|
                0 <= i < state.characters@.len() && text::lowercase(
                    text::trim_of((#[trigger] state.characters@[i]).name@),
                ) == text::lowercase(text::trim_of(draft.name@));
            edit_conflicts(ChangeSetEdit::CreateCharacter { draft }, disk, current, state) == Ok::<
                Seq<Seq<char>>,
                (Seq<char>, Seq<char>),
            >(
                if taken {
                    seq!["character:"@ + draft.name@]
                } else {
                    Seq::empty()
                },
            )
        }),
        ({
            let same = match state.memory {
                Some(memory) => memory@ == before@,
                None => before@.world_setting.len() == 0 && before@.writing_style.len() == 0
                    && before@.user_preferences.len() == 0,
            };
            edit_conflicts(ChangeSetEdit::Memory { before, after }, disk, current, state) == Ok::<
                Seq<Seq<char>>,
                (Seq<char>, Seq<char>),
            >(
                if same {
                    Seq::empty()
                } else {
                    seq!["memory"@]
                },
            )
        }),
{
    let cards = state.characters@;
    if name_taken(cards, draft.name@) {
        let i = choose|i: int|
            0 <= i < cards.len() && name_key((#[trigger] cards[i]).name@) == name_key(draft.name@);
        assert(text::lowercase(text::trim_of(cards[i].name@)) == text::lowercase(
            text::trim_of(draft.name@),
        ));
    }
    if exists|i: int|
        0 <= i < cards.len() && text::lowercase(text::trim_of((#[trigger] cards[i]).name@))
            == text::lowercase(text::trim_of(draft.name@)) {
        let i = choose|i: int|
            0 <= i < cards.len() && text::lowercase(text::trim_of((#[trigger] cards[i]).name@))
                == text::lowercase(text::trim_of(draft.name@));
        assert(name_key(cards[i].name@) == name_key(draft.name@));
    }
}

/// A planned picture conflicts exactly where the project has a card of its category
/// with the same id or the same stem, in whatever case they are written.
pub proof fn planned_pictures_conflict_where_they_are_taken(
    cards: Vec<PlannedAssetCard>,
    disk: SceneOnDisk,
    current: Option<CurrentSceneState>,
    state: ProjectState,
    name: Seq<char>,
)
    ensures
        edit_conflicts(ChangeSetEdit::AssetPlan { cards }, disk, current, state) is Ok,
        edit_conflicts(
            ChangeSetEdit::AssetPlan { cards },
            disk,
            current,
            state,
        )->Ok_0.contains(name) <==> exists|k: int|
            0 <= k < cards@.len() && "asset:"@ + (#[trigger] cards@[k]).card.id@ == name && (if cards@[k].category
                == PlannedAssetCategory::Background {
                exists|key: Seq<char>| #[trigger]
                    state.metadata.scene_cards@.dom().contains(key) && (text::ascii_lowercase(
                        state.metadata.scene_cards@[key].id@,
                    ) == text::ascii_lowercase(cards@[k].card.id@) || text::ascii_lowercase(
                        state.metadata.scene_cards@[key].target_stem@,
                    ) == text::ascii_lowercase(cards@[k].card.target_stem@))
            } else {
                exists|key: Seq<char>| #[trigger]
                    state.metadata.cg_cards@.dom().contains(key) && (text::ascii_lowercase(
                        state.metadata.cg_cards@[key].id@,
                    ) == text::ascii_lowercase(cards@[k].card.id@) || text::ascii_lowercase(
                        state.metadata.cg_cards@[key].target_stem@,
                    ) == text::ascii_lowercase(cards@[k].card.target_stem@))
            }),
{
    lemma_clashing_cards(state.metadata, cards@, cards@.len() as int, name);
    assert forall|k: int| 0 <= k < cards@.len() implies (card_clashes(
        cards_of(state.metadata, (#[trigger] cards@[k]).category),
        cards@[k].card,
    ) <==> (if cards@[k].category == PlannedAssetCategory::Background {
        exists|key: Seq<char>| #[trigger]
            state.metadata.scene_cards@.dom().contains(key) && (text::ascii_lowercase(
                state.metadata.scene_cards@[key].id@,
            ) == text::ascii_lowercase(cards@[k].card.id@) || text::ascii_lowercase(
                state.metadata.scene_cards@[key].target_stem@,
            ) == text::ascii_lowercase(cards@[k].card.target_stem@))
    } else {
        exists|key: Seq<char>| #[trigger]
            state.metadata.cg_cards@.dom().contains(key) && (text::ascii_lowercase(
                state.metadata.cg_cards@[key].id@,
            ) == text::ascii_lowercase(cards@[k].card.id@) || text::ascii_lowercase(
                state.metadata.cg_cards@[key].target_stem@,
            ) == text::ascii_lowercase(cards@[k].card.target_stem@))
    })) by {
        let there = cards_of(state.metadata, cards@[k].category);
        let planned = cards@[k].card;
        if card_clashes(there, planned) {
            let key = choose|key: Seq<char>| #[trigger]
                there.dom().contains(key) && (alike(there[key].id@, planned.id@) || alike(
                    there[key].target_stem@,
                    planned.target_stem@,
                ));
            assert(there.dom().contains(key));
        }
    }
}

proof fn lemma_clashing_cards(
    metadata: AssetMetadata,
    cards: Seq<PlannedAssetCard>,
    n: int,
    name: Seq<char>,
)
    requires
        0 <= n <= cards.len(),
    ensures
        clashing_cards(metadata, cards, n).contains(name) <==> exists|k: int|
            0 <= k < n && "asset:"@ + (#[trigger] cards[k]).card.id@ == name && card_clashes(
                cards_of(metadata, cards[k].category),
                cards[k].card,
            ),
    decreases n,
{
    if n > 0 {
        lemma_clashing_cards(metadata, cards, n - 1, name);
        let before = clashing_cards(metadata, cards, n - 1);
        let all = clashing_cards(metadata, cards, n);
        if before.contains(name) {
            let i = choose|i: int| 0 <= i < before.len() && before[i] == name;
            assert(all[i] == name);
        }
        if all.contains(name) {
            let i = choose|i: int| 0 <= i < all.len() && all[i] == name;
            if i < before.len() {
                assert(before[i] == name);
            }
        }
        if card_clashes(cards_of(metadata, cards[n - 1].category), cards[n - 1].card) && "asset:"@
            + cards[n - 1].card.id@ == name {
            assert(all[before.len() as int] == name);
        }
    }
}

/// The conflicts of a change set are those of its edits: there are some only where every
/// edit could be looked at, and one is reported exactly where some edit has it.
pub proof fn conflicts_are_those_of_the_edits(
    edits: Seq<ChangeSetEdit>,
    disk: Seq<SceneOnDisk>,
    current: Option<CurrentSceneState>,
    state: ProjectState,
    n: int,
    name: Seq<char>,
)
    requires
        0 <= n,
    ensures
        conflicts_upto(edits, disk, current, state, n) is Ok <==> forall|k: int|
            0 <= k < n ==> edit_conflicts(#[trigger] edits[k], disk[k], current, state) is Ok,
        conflicts_upto(edits, disk, current, state, n) matches Ok(found) ==> (found.contains(name)
            <==> exists|k: int|
            0 <= k < n && edit_conflicts(
                #[trigger] edits[k],
                disk[k],
                current,
                state,
            )->Ok_0.contains(name)),
    decreases n,
{
    if n > 0 {
        conflicts_are_those_of_the_edits(edits, disk, current, state, n - 1, name);
        let last = edit_conflicts(edits[n - 1], disk[n - 1], current, state);
        if conflicts_upto(edits, disk, current, state, n - 1) is Ok && last is Ok {
            let a = conflicts_upto(edits, disk, current, state, n - 1)->Ok_0;
            let b = last->Ok_0;
            assert((a + b).contains(name) <==> a.contains(name) || b.contains(name)) by {
                if a.contains(name) {
                    let i = choose|i: int| 0 <= i < a.len() && a[i] == name;
                    assert((a + b)[i] == name);
                }
                if b.contains(name) {
                    let i = choose|i: int| 0 <= i < b.len() && b[i] == name;
                    assert((a + b)[a.len() + i] == name);
                }
            }
        }
    }
}

/// A change set that conflicts is not applied unless it is forced, and one without a
/// conflict that nothing holds up is.
pub proof fn conflicts_hold_a_change_set_up(request: ApplyChangeSetRequest, known: Preflight)
    requires
        known.project_valid,
        known.story_plan is Ok,
        known.characters is Ok,
    ensures
        request.force ==> first_apply(request, known) is Snapshotting,
        !request.force ==> match known.conflicts {
            Ok(found) => if found@.len() > 0 {
                first_apply(request, known) == ApplyView::Done(
                    ResultView::Conflict(text::texts(found@)),
                )
            } else {
                first_apply(request, known) is Snapshotting
            },
            Err(e) => first_apply(request, known) == ApplyView::Done(
                ResultView::Failed(e.0@, e.1@, RecoveryView::NotNeeded),
            ),
        },
{
}

/// A running flow keeps its resources: a change set is refused while the story plan is
/// held, and one that edits or makes a card also while the cards are, and none other.
pub proof fn held_resources_refuse_change_sets(request: ApplyChangeSetRequest, known: Preflight)
    requires
        known.project_valid,
    ensures
        ({
            let of_cards = exists|i: int|
                0 <= i < request.edits@.len() && ((#[trigger] request.edits@[i]) is Character
                    || request.edits@[i] is CreateCharacter);
            &&& known.story_plan matches Err(m) ==> first_apply(request, known) == ApplyView::Done(
                ResultView::Failed("flow_lock"@, m@, RecoveryView::NotNeeded),
            )
            &&& known.story_plan is Ok && of_cards ==> (known.characters matches Err(m)
                ==> first_apply(request, known) == ApplyView::Done(
                ResultView::Failed("flow_lock"@, m@, RecoveryView::NotNeeded),
            ))
            &&& known.story_plan is Ok && !of_cards && request.force ==> first_apply(
                request,
                known,
            ) is Snapshotting
        }),
{
    if any_of_character(request.edits@) {
        let i = choose|i: int|
            0 <= i < request.edits@.len() && of_character(#[trigger] request.edits@[i]);
        assert(request.edits@[i] is Character || request.edits@[i] is CreateCharacter);
    }
    if exists|i: int|
        0 <= i < request.edits@.len() && ((#[trigger] request.edits@[i]) is Character
            || request.edits@[i] is CreateCharacter) {
        let i = choose|i: int|
            0 <= i < request.edits@.len() && ((#[trigger] request.edits@[i]) is Character
                || request.edits@[i] is CreateCharacter);
        assert(of_character(request.edits@[i]));
    }
}

/// Every edit is applied once and in order: the first follows the snapshot, each other
/// one follows the one before it where that went well, and the change set is applied
/// only once the last of them has gone well. An edit that fails is undone and named.
pub proof fn edits_are_applied_one_after_another(
    edits: Seq<ChangeSetEdit>,
    phase: ApplyView,
    event: ApplyEventView,
)
    requires
        phase matches ApplyView::Applying(i, _) ==> 0 <= i < edits.len(),
    ensures
        ({
            let next = next_apply(edits, phase, event);
            &&& next matches ApplyView::Applying(i, id) ==> next == phase || (i == 0
                && phase is Snapshotting && event == ApplyEventView::Snapshot(id)) || (phase
                == ApplyView::Applying(i - 1, id) && event == ApplyEventView::Finished(None))
            &&& next matches ApplyView::Deleting(id, ResultView::Applied) ==> next == phase || (
            edits.len() == 0 && phase is Snapshotting) || (phase == ApplyView::Applying(
                edits.len() - 1,
                id,
            ) && event == ApplyEventView::Finished(None))
            &&& next == ApplyView::Done(ResultView::Applied) ==> next == phase || (phase
                matches ApplyView::Deleting(_, ResultView::Applied))
            &&& phase matches ApplyView::Applying(i, id) ==> {
                &&& event == ApplyEventView::Finished(None) && i + 1 < edits.len() ==> next
                    == ApplyView::Applying(i + 1, id)
                &&& event == ApplyEventView::Finished(None) && i + 1 == edits.len() ==> next
                    == ApplyView::Deleting(id, ResultView::Applied)
                &&& event matches ApplyEventView::Finished(Some(m)) ==> next == ApplyView::Restoring(
                    match edits[i] {
                        ChangeSetEdit::Scene { .. } | ChangeSetEdit::CreateScene { .. } => "scene"@,
                        ChangeSetEdit::Character { .. }
                        | ChangeSetEdit::CreateCharacter { .. } => "character"@,
                        ChangeSetEdit::Memory { .. } => "memory"@,
                        ChangeSetEdit::AssetPlan { .. } => "asset_metadata"@,
                    },
                    m,
                    id,
                )
            }
        }),
{
}

/// An edited scene is left with the text that the edit gives it; one that is made ends
/// with the text that it was to begin with, below its chapter and its outline.
pub proof fn scenes_are_left_with_their_text(
    file: String,
    before_content: String,
    after_content: String,
    chapter: Option<String>,
    outline: Option<String>,
    initial: String,
)
    ensures
        scene_content(ChangeSetEdit::Scene { file, before_content, after_content }) == Some(
            (file@, after_content@),
        ),
        ({
            let made = scene_content(
                ChangeSetEdit::CreateScene {
                    file,
                    chapter,
                    outline,
                    initial_content: Some(initial),
                },
            );
            &&& made is Some && made.unwrap().0 == file@
            &&& initial@.len() > 0 ==> text::ends(made.unwrap().1, initial@)
            &&& chapter is Some && !text::blank(chapter->0@) ==> text::begins(
                made.unwrap().1,
                "; 章节: "@ + text::trim_of(chapter->0@) + "\n"@,
            )
            &&& outline is Some && !text::blank(outline->0@) ==> text::occurs(
                made.unwrap().1,
                "; 大纲: "@ + text::trim_of(outline->0@) + "\n"@,
            )
        }),
{
    let c = noted("; 章节: "@, story_plan::opt_text(chapter));
    let o = noted("; 大纲: "@, story_plan::opt_text(outline));
    reveal_strlit("\n");
    reveal_strlit("; 章节: ");
    reveal_strlit("; 大纲: ");
    text::parts_of_a_text_are_found(c + o, initial@, Seq::empty(), initial@);
    assert(c + o + initial@ =~= c + (o + initial@));
    text::parts_of_a_text_are_found(Seq::empty(), c, o + initial@, initial@);
    text::parts_of_a_text_are_found(c, o, initial@, initial@);
}

/// A plan leaves each planned picture on its card: with the plan's own words, and with
/// the picture that the card had before, where it had one; and it leaves every other
/// card as it was.
pub proof fn plans_keep_pictures_that_are_there(
    cards: Map<Seq<char>, assets::CardView>,
    planned: Seq<PlannedAssetCard>,
    category: PlannedAssetCategory,
    n: int,
    k: int,
    id: Seq<char>,
)
    requires
        0 <= k < n <= planned.len(),
        planned[k].category == category,
        forall|j: int|
            0 <= j < n && j != k && (#[trigger] planned[j]).category == category
                ==> planned[j].card@.id != planned[k].card@.id,
        forall|j: int|
            0 <= j < n && (#[trigger] planned[j]).category == category ==> planned[j].card@.id != id,
    ensures
        ({
            let after = merged_upto(cards, planned, category, n);
            let card = planned[k].card@;
            let kept = if cards.dom().contains(card.id) && cards[card.id].image_asset is Some {
                cards[card.id].image_asset
            } else {
                card.image_asset
            };
            &&& after.dom().contains(card.id)
            &&& after[card.id] == (assets::CardView { image_asset: kept, ..card })
            &&& after.dom().contains(id) <==> cards.dom().contains(id)
            &&& cards.dom().contains(id) ==> after[id] == cards[id]
        }),
    decreases n,
{
    let card = planned[k].card@;
    if k < n - 1 {
        plans_keep_pictures_that_are_there(cards, planned, category, n - 1, k, id);
        if planned[n - 1].category == category {
            assert(planned[n - 1].card@.id != card.id);
            assert(planned[n - 1].card@.id != id);
        }
    } else {
        lemma_merged_elsewhere(cards, planned, category, n - 1, card.id);
        lemma_merged_elsewhere(cards, planned, category, n - 1, id);
        assert(planned[k].card@.id != id);
    }
}

proof fn lemma_merged_elsewhere(
    cards: Map<Seq<char>, assets::CardView>,
    planned: Seq<PlannedAssetCard>,
    category: PlannedAssetCategory,
    n: int,
    id: Seq<char>,
)
    requires
        0 <= n <= planned.len(),
        forall|j: int|
            0 <= j < n && (#[trigger] planned[j]).category == category ==> planned[j].card@.id != id,
    ensures
        merged_upto(cards, planned, category, n).dom().contains(id) <==> cards.dom().contains(id),
        cards.dom().contains(id) ==> merged_upto(cards, planned, category, n)[id] == cards[id],
    decreases n,
{
    if n > 0 {
        lemma_merged_elsewhere(cards, planned, category, n - 1, id);
        if planned[n - 1].category == category {
            assert(planned[n - 1].card@.id != id);
        }
    }
}

/// A background that a scene shows has its card: one that is there keeps what the author
/// wrote on it and shows the picture where the file is there, and one that is made is
/// named after the file and its scene. A card that was deleted is not made again, and
/// no other card is touched.
pub proof fn shown_backgrounds_have_their_card(
    cards: Map<Seq<char>, assets::CardView>,
    deleted: Seq<Seq<char>>,
    scene: Seq<char>,
    filename: Seq<char>,
    present: bool,
    id: Seq<char>,
    other: Seq<char>,
)
    requires
        id == background_id(filename),
        other != id,
    ensures
        ({
            let after = synced(cards, deleted, scene, filename, present);
            let shown = if paths::plain_name(filename) && present {
                Some(filename)
            } else {
                None
            };
            &&& after.dom().contains(other) <==> cards.dom().contains(other)
            &&& cards.dom().contains(other) ==> after[other] == cards[other]
            &&& deleted.contains(id) ==> after == cards
            &&& !deleted.contains(id) ==> after.dom().contains(id) && after[id].image_asset == shown
            &&& !deleted.contains(id) && cards.dom().contains(id) ==> after[id] == (
            assets::CardView { image_asset: shown, ..cards[id] })
            &&& !deleted.contains(id) && !cards.dom().contains(id) ==> after[id].id == id
                && after[id].scene_file == Some(scene) && text::begins(
                filename,
                after[id].target_stem,
            ) && after[id].title == after[id].target_stem
        }),
{
    reveal_strlit(".png");
    reveal_strlit(".jpg");
    reveal_strlit(".jpeg");
    reveal_strlit(".webp");
    reveal_strlit(".gif");
    let stem = picture_stem(filename);
    assert(stem.len() <= filename.len());
    assert(filename.subrange(0, stem.len() as int) =~= stem);
    assert(fresh_card(scene, filename, present).target_stem == stem);
    assert(text::begins(filename, stem));
}

/// The stem of a picture is its name without the ending of a picture file, in whatever
/// case that is written; another name is its own stem.
pub proof fn picture_stems_lose_the_ending(stem: Seq<char>, ending: Seq<char>, name: Seq<char>)
    requires
        ending == ".png"@ || ending == ".jpg"@ || ending == ".jpeg"@ || ending == ".webp"@ || ending
            == ".gif"@,
    ensures
        picture_stem(stem + ending) == stem,
        (forall|i: int| 0 <= i < name.len() ==> name[i] != '.') ==> picture_stem(name) == name,
{
    reveal_strlit(".png");
    reveal_strlit(".jpg");
    reveal_strlit(".jpeg");
    reveal_strlit(".webp");
    reveal_strlit(".gif");
    let whole = stem + ending;
    let lower = text::ascii_lowercase(whole);
    assert(text::ascii_lowercase(ending) =~= ending);
    assert(lower =~= text::ascii_lowercase(stem) + ending);
    text::parts_of_a_text_are_found(text::ascii_lowercase(stem), ending, Seq::empty(), lower);
    assert(whole.take(whole.len() - ending.len()) =~= stem);
    if ending != ".png"@ {
        lemma_ends_otherwise(text::ascii_lowercase(stem), ending, ".png"@, if ending == ".jpg"@ || ending == ".jpeg"@ { 1 } else { 0 });
        if ending != ".jpg"@ {
            lemma_ends_otherwise(text::ascii_lowercase(stem), ending, ".jpg"@, if ending == ".jpeg"@ { 1 } else { 0 });
            if ending != ".jpeg"@ {
                lemma_ends_otherwise(text::ascii_lowercase(stem), ending, ".jpeg"@, 0);
                if ending != ".webp"@ {
                    lemma_ends_otherwise(text::ascii_lowercase(stem), ending, ".webp"@, 0);
                }
            }
        }
    }
    if forall|i: int| 0 <= i < name.len() ==> name[i] != '.' {
        let l = text::ascii_lowercase(name);
        assert forall|i: int| 0 <= i < l.len() implies l[i] != '.' by {
            assert(name[i] != '.');
        }
        lemma_ends_without_dot(l, ".png"@);
        lemma_ends_without_dot(l, ".jpg"@);
        lemma_ends_without_dot(l, ".jpeg"@);
        lemma_ends_without_dot(l, ".webp"@);
        lemma_ends_without_dot(l, ".gif"@);
    }
}

proof fn lemma_ends_otherwise(stem: Seq<char>, ending: Seq<char>, other: Seq<char>, k: int)
    requires
        0 <= k < ending.len(),
        k < other.len(),
        ending[ending.len() - 1 - k] != other[other.len() - 1 - k],
    ensures
        !text::ends(stem + ending, other),
{
    let s = stem + ending;
    if text::ends(s, other) {
        assert(s.subrange(s.len() - other.len(), s.len() as int)[other.len() - 1 - k]
            == s[s.len() - 1 - k]);
    }
}

proof fn lemma_ends_without_dot(s: Seq<char>, ending: Seq<char>)
    requires
        ending.len() > 0,
        ending[0] == '.',
        forall|i: int| 0 <= i < s.len() ==> s[i] != '.',
    ensures
        !text::ends(s, ending),
{
    if text::ends(s, ending) {
        assert(s.subrange(s.len() - ending.len(), s.len() as int)[0] == s[s.len() - ending.len()]);
    }
}

/// A node shows a background exactly where it changes the background to a file: what
/// stands in its asset, or else in its content, without white space around it.
pub proof fn backgrounds_are_what_scenes_change_to(node: WebGalNode)
    ensures
        ({
            let written = text::trim_of(
                if node.asset is Some {
                    node.asset->0@
                } else {
                    node.content@
                },
            );
            if node.cmd_type == CommandType::ChangeBg && written.len() > 0 && written != "none"@ {
                shown_background(node) == Some(written)
            } else {
                shown_background(node) is None
            }
        }),
{
}

/// An edit is of the scenes, the characters, the memory or the metadata, and only those of a card
/// hold the characters.
pub proof fn edits_are_of_their_resource(edit: ChangeSetEdit)
    ensures
        resource_of(edit) == (if edit is Scene || edit is CreateScene {
            "scene"@
        } else if edit is Character || edit is CreateCharacter {
            "character"@
        } else if edit is Memory {
            "memory"@
        } else {
            "asset_metadata"@
        }),
        of_character(edit) <==> edit is Character || edit is CreateCharacter,
        any_of_character(seq![edit]) <==> of_character(edit),
{
    if of_character(edit) {
        assert(of_character(seq![edit][0]));
    }
}

/// A scene that could not be written says which, and whether it was to be changed or created; a
/// change set that fails before anything was written needs no recovery.
pub proof fn failed_writes_name_their_scene(
    edit: ChangeSetEdit,
    error: Seq<char>,
    resource: Seq<char>,
    message: Seq<char>,
)
    ensures
        match edit {
            ChangeSetEdit::Scene { file, .. } => write_fault(edit, error) == "写入场景 "@ + file@
                + " 失败："@ + error,
            ChangeSetEdit::CreateScene { file, .. } => write_fault(edit, error)
                == "创建场景 "@ + file@ + " 失败："@ + error,
            _ => write_fault(edit, error) == error,
        },
        unwritten(resource, message) == ResultView::Failed(
            resource,
            message,
            RecoveryView::NotNeeded,
        ),
{
}

/// What is found is what was expected: the same names in the same order, or the same failure.
pub proof fn findings_are_those_expected(
    r: Result<Vec<String>, (String, String)>,
    expected: Result<Seq<Seq<char>>, (Seq<char>, Seq<char>)>,
)
    requires
        found_as(r, expected),
    ensures
        r is Ok <==> expected is Ok,
        r is Ok ==> r->Ok_0@.len() == expected->Ok_0.len() && forall|i: int|
            0 <= i < r->Ok_0@.len() ==> (#[trigger] r->Ok_0@[i])@ == expected->Ok_0[i],
        r is Err ==> r->Err_0.0@ == expected->Err_0.0 && r->Err_0.1@ == expected->Err_0.1,
{
    if r is Ok {
        let t = text::texts(r->Ok_0@);
        assert(t.len() == r->Ok_0@.len());
        assert forall|i: int| 0 <= i < r->Ok_0@.len() implies (#[trigger] r->Ok_0@[i])@
            == expected->Ok_0[i] by {
            assert(t[i] == r->Ok_0@[i]@);
        }
    }
}

/// A background is shown by a part of a scene where one of its commands changes to it.
pub proof fn backgrounds_are_shown_by_a_command(nodes: Seq<WebGalNode>, n: int, name: Seq<char>)
    requires
        0 <= n < nodes.len(),
    ensures
        !shown_upto(nodes, 0, name),
        shown_upto(nodes, n + 1, name) <==> shown_upto(nodes, n, name) || shown_background(nodes[n])
            == Some(name),
{
    if shown_upto(nodes, n + 1, name) {
        let i = choose|i: int|
            0 <= i < n + 1 && shown_background(#[trigger] nodes[i]) == Some(name);
        if i < n {
            assert(shown_upto(nodes, n, name));
        }
    }
    if shown_upto(nodes, n, name) {
        let i = choose|i: int| 0 <= i < n && shown_background(#[trigger] nodes[i]) == Some(name);
        assert(shown_background(nodes[i]) == Some(name));
    }
    if shown_background(nodes[n]) == Some(name) {
        assert(shown_upto(nodes, n + 1, name));
    }
}

/// The backgrounds of a scene are brought up to date one after another, each from what was found of
/// its own file; where that changes nothing, the cards are as they were.
pub proof fn backgrounds_are_brought_up_to_date_in_turn(
    cards: Map<Seq<char>, assets::CardView>,
    deleted: Seq<Seq<char>>,
    scene: Seq<char>,
    names: Seq<Seq<char>>,
    present: Seq<bool>,
    n: int,
)
    requires
        0 <= n < names.len(),
    ensures
        synced_upto(cards, deleted, scene, names, present, 0) == cards,
        synced_upto(cards, deleted, scene, names, present, n + 1) == synced(
            synced_upto(cards, deleted, scene, names, present, n),
            deleted,
            scene,
            names[n],
            present[n],
        ),
        !sync_changes(cards, deleted, scene, names, present, n + 1) ==> synced_upto(
            cards,
            deleted,
            scene,
            names,
            present,
            n + 1,
        ) == cards,
        sync_changes(cards, deleted, scene, names, present, n + 1) ==> exists|k: int|
            0 <= k <= n && synced_upto(cards, deleted, scene, names, present, k + 1)
                != #[trigger] synced_upto(cards, deleted, scene, names, present, k),
    decreases n,
{
    if n > 0 {
        backgrounds_are_brought_up_to_date_in_turn(cards, deleted, scene, names, present, n - 1);
    }
    if sync_changes(cards, deleted, scene, names, present, n + 1) {
        if n > 0 && sync_changes(cards, deleted, scene, names, present, n) {
            let k = choose|k: int|
                0 <= k <= n - 1 && synced_upto(cards, deleted, scene, names, present, k + 1)
                    != #[trigger] synced_upto(cards, deleted, scene, names, present, k);
            assert(synced_upto(cards, deleted, scene, names, present, k + 1) != synced_upto(
                cards,
                deleted,
                scene,
                names,
                present,
                k,
            ));
        } else {
            assert(!sync_changes(cards, deleted, scene, names, present, 0));
            assert(synced_upto(cards, deleted, scene, names, present, n + 1) != synced_upto(
                cards,
                deleted,
                scene,
                names,
                present,
                n,
            ));
        }
    }
}

/// What a scene or a plan changes in the metadata is the cards of pictures alone: aliases,
/// descriptions, tags, references, voices and what was deleted stay.
pub proof fn only_cards_of_pictures_change(
    after: AssetMetadata,
    before: AssetMetadata,
    scene: Seq<char>,
    names: Seq<Seq<char>>,
    present: Seq<bool>,
    cards: Seq<PlannedAssetCard>,
)
    ensures
        syncs(after, before, scene, names, present) || merges(after, before, cards) ==> after.aliases
            == before.aliases && after.descriptions == before.descriptions && after.tags
            == before.tags && after.references == before.references && after.voice_cards
            == before.voice_cards && after.deleted_scene_cards == before.deleted_scene_cards
            && after.deleted_cg_cards == before.deleted_cg_cards && after.deleted_voice_cards
            == before.deleted_voice_cards,
        syncs(after, before, scene, names, present) ==> after.cg_cards == before.cg_cards
            && assets::card_views(after.scene_cards@) == synced_upto(
            assets::card_views(before.scene_cards@),
            text::texts(before.deleted_scene_cards@),
            scene,
            names,
            present,
            names.len() as int,
        ),
        merges(after, before, cards) ==> assets::card_views(after.scene_cards@) == merged_upto(
            assets::card_views(before.scene_cards@),
            cards,
            PlannedAssetCategory::Background,
            cards.len() as int,
        ) && assets::card_views(after.cg_cards@) == merged_upto(
            assets::card_views(before.cg_cards@),
            cards,
            PlannedAssetCategory::Cg,
            cards.len() as int,
        ),
{
}

} // verus!
