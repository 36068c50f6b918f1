//! Binding a drawn figure: its character's card, and every scene that it enters.
//!
//! The caller reads and writes the files, one at a time, and reports what came of
//! it.
use vstd::prelude::*;

use crate::asset_queue::binder;
use crate::asset_queue::binder::FigureScene;
use crate::asset_queue::types::{AssetTask, AssetTaskView};
use crate::characters;
use crate::characters::{CharacterView, CharactersDocument};
use crate::text;
use crate::webgal;
use crate::webgal::{NodeView, WebGalNode};

verus! {

broadcast use vstd::string::group_string_axioms;

/// What the binding of a figure waits for; `name` is that of its character.
#[derive(Debug, PartialEq, Eq)]
pub enum FigurePhase {
    /// The character cards are to be read.
    ReadingCards,
    /// These cards are to be written.
    SavingCards { cards: CharactersDocument, name: String },
    /// The scenes are to be listed: the one that the task names, else all.
    ListingScenes { name: String },
    /// The scene at this place is to be read.
    ReadingScene { name: String, scenes: Vec<String>, at: usize },
    /// The scene at this place is to be written.
    SavingScene { name: String, scenes: Vec<String>, at: usize, nodes: Vec<WebGalNode> },
    Done(Result<(), String>),
}

/// What the caller reports.
#[derive(Debug, PartialEq, Eq)]
pub enum FigureEvent {
    Cards(Result<CharactersDocument, String>),
    Scenes(Result<Vec<String>, String>),
    /// A scene's nodes, and what the staged command of each parses to.
    Scene(Result<(Vec<WebGalNode>, Vec<Option<WebGalNode>>), String>),
    Saved(Result<(), String>),
}

impl FigureEvent {
    /// Whether there is a parsed command, or none, for every node.
    pub open spec fn wf(self) -> bool {
        self matches FigureEvent::Scene(Ok((nodes, parsed))) ==> parsed@.len() == nodes@.len()
    }
}

impl FigurePhase {
    /// Whether the scene is one of those listed.
    pub open spec fn wf(self) -> bool {
        match self {
            FigurePhase::ReadingScene { scenes, at, .. } => at < scenes@.len(),
            FigurePhase::SavingScene { scenes, at, .. } => at < scenes@.len(),
            _ => true,
        }
    }

    /// Whether the scene at this place is up next; behind the last it is over.
    pub open spec fn turns_to(self, name: String, scenes: Vec<String>, at: int) -> bool {
        if at < scenes@.len() {
            self matches FigurePhase::ReadingScene { name: n, scenes: s, at: k } && n == name && s
                == scenes && k == at
        } else {
            self == FigurePhase::Done(Ok(()))
        }
    }
}

/// The character that a task draws, as the task refers to it.
pub open spec fn drawn_character(task: AssetTaskView) -> Seq<char> {
    match task.character_ref {
        Some(reference) => reference,
        None => Seq::empty(),
    }
}

/// The cards with a figure on the one of its character.
pub open spec fn cards_with(
    cards: Seq<CharacterView>,
    k: int,
    task: AssetTaskView,
    filename: Seq<char>,
) -> Seq<CharacterView> {
    cards.update(
        k,
        CharacterView {
            sprites: binder::with_sprite(
                cards[k].sprites,
                binder::task_emotion(task),
                filename,
                task.prompt,
            ),
            ..cards[k]
        },
    )
}

/// What becomes of a scene, and its nodes then.
pub open spec fn scene_outcome(
    nodes: Seq<NodeView>,
    parsed: Seq<Option<NodeView>>,
    task: AssetTaskView,
    name: Seq<char>,
    filename: Seq<char>,
) -> (FigureScene, Seq<NodeView>) {
    binder::figure_outcome(
        nodes,
        parsed,
        task,
        drawn_character(task),
        name,
        filename,
        task.scene_ref is Some,
    )
}

/// Whether the binding of a figure goes over into another phase on what the
/// caller reports: the card gets the figure first, then each scene in turn. It
/// ends with the first file that cannot be read or written, or with a scene that
/// the task names and that has no place for the figure.
pub open spec fn figure_moves(
    task: AssetTaskView,
    filename: Seq<char>,
    before: FigurePhase,
    event: FigureEvent,
    after: FigurePhase,
) -> bool {
    match (before, event) {
        (FigurePhase::ReadingCards, FigureEvent::Cards(Ok(document))) => {
            let cards = characters::character_views(document.characters@);
            match task.character_ref {
                None => after matches FigurePhase::Done(Err(m)) && m@ == "figure task "@ + task.id
                    + " has no characterRef"@,
                Some(reference) => {
                    let k = binder::card_index(cards, reference);
                    if k < cards.len() {
                        after matches FigurePhase::SavingCards { cards: saved, name }
                            && saved.version == document.version && name@ == cards[k].name
                            && characters::character_views(saved.characters@) == cards_with(
                            cards,
                            k,
                            task,
                            filename,
                        )
                    } else {
                        after matches FigurePhase::Done(Err(m)) && m@ == "character not found: "@
                            + reference
                    }
                },
            }
        },
        (FigurePhase::ReadingCards, FigureEvent::Cards(Err(m))) => after == FigurePhase::Done(
            Err(m),
        ),
        (FigurePhase::SavingCards { name, .. }, FigureEvent::Saved(Ok(_))) => after
            == FigurePhase::ListingScenes { name },
        (FigurePhase::SavingCards { .. }, FigureEvent::Saved(Err(m))) => after
            == FigurePhase::Done(Err(m)),
        (FigurePhase::ListingScenes { name }, FigureEvent::Scenes(Ok(scenes))) => after.turns_to(
            name,
            scenes,
            0,
        ),
        (FigurePhase::ListingScenes { .. }, FigureEvent::Scenes(Err(m))) => after
            == FigurePhase::Done(Err(m)),
        (
            FigurePhase::ReadingScene { name, scenes, at },
            FigureEvent::Scene(Ok((nodes, parsed))),
        ) => {
            let (outcome, goal) = scene_outcome(
                webgal::node_views(nodes@),
                binder::opt_nodes(parsed@),
                task,
                name@,
                filename,
            );
            match outcome {
                FigureScene::Changed => after matches FigurePhase::SavingScene {
                    name: n,
                    scenes: s,
                    at: k,
                    nodes: changed,
                } && n == name && s == scenes && k == at && webgal::node_views(changed@) == goal,
                FigureScene::Unchanged => after.turns_to(name, scenes, at + 1),
                FigureScene::NoPlace => after matches FigurePhase::Done(Err(m)) && m@
                    == binder::no_place(task.id, scenes@[at as int]@),
            }
        },
        (FigurePhase::ReadingScene { .. }, FigureEvent::Scene(Err(m))) => after
            == FigurePhase::Done(Err(m)),
        (FigurePhase::SavingScene { name, scenes, at, .. }, FigureEvent::Saved(Ok(_))) => after.turns_to(
            name,
            scenes,
            at + 1,
        ),
        (FigurePhase::SavingScene { .. }, FigureEvent::Saved(Err(m))) => after
            == FigurePhase::Done(Err(m)),
        _ => after == before,
    }
}

/// Begins the binding of a figure; a task that names no character is refused.
pub fn begin_figure(task: &AssetTask) -> (r: FigurePhase)
    ensures
        match task@.character_ref {
            Some(_) => r is ReadingCards,
            None => r matches FigurePhase::Done(Err(m)) && m@ == "figure task "@ + task.id@
                + " has no characterRef"@,
        },
        r.wf(),
{
    match &task.character_ref {
        Some(_) => FigurePhase::ReadingCards,
        None => {
            let mut m = text::copy("figure task ");
            m.append(task.id.as_str());
            m.append(" has no characterRef");
            FigurePhase::Done(Err(m))
        },
    }
}

fn turn_to(name: String, scenes: Vec<String>, at: usize) -> (r: FigurePhase)
    ensures
        r.turns_to(name, scenes, at as int),
        r.wf(),
{
    if at < scenes.len() {
        FigurePhase::ReadingScene { name, scenes, at }
    } else {
        FigurePhase::Done(Ok(()))
    }
}

fn bind_scene(
    task: &AssetTask,
    filename: &str,
    name: String,
    scenes: Vec<String>,
    at: usize,
    nodes: Vec<WebGalNode>,
    parsed: Vec<Option<WebGalNode>>,
) -> (r: FigurePhase)
    requires
        at < scenes@.len(),
        parsed@.len() == nodes@.len(),
    ensures
        figure_moves(
            task@,
            filename@,
            (FigurePhase::ReadingScene { name, scenes, at }),
            FigureEvent::Scene(Ok((nodes, parsed))),
            r,
        ),
        r.wf(),
{
    let mut nodes = nodes;
    let character = match &task.character_ref {
        Some(reference) => text::copy(reference.as_str()),
        None => String::new(),
    };
    assert(character@ =~= drawn_character(task@));
    let explicit = task.scene_ref.is_some();
    let outcome = binder::place_figure(
        &mut nodes,
        &parsed,
        task,
        character.as_str(),
        name.as_str(),
        filename,
        explicit,
    );
    match outcome {
        FigureScene::Changed => FigurePhase::SavingScene { name, scenes, at, nodes },
        FigureScene::Unchanged => {
            let n = scenes.len();
            assert(at < n);
            turn_to(name, scenes, at + 1)
        },
        FigureScene::NoPlace => FigurePhase::Done(
            Err(binder::no_place_error(task.id.as_str(), scenes[at].as_str())),
        ),
    }
}

/// Takes the binding of a figure one step further.
pub fn bind_figure(task: &AssetTask, filename: &str, phase: FigurePhase, event: FigureEvent) -> (r:
    FigurePhase)
    requires
        phase.wf(),
        event.wf(),
    ensures
        figure_moves(task@, filename@, phase, event, r),
        r.wf(),
{
    match event {
        FigureEvent::Cards(found) => match phase {
            FigurePhase::ReadingCards => match found {
                Ok(document) => {
                    let mut cards = document;
                    match binder::bind_card(&mut cards, task, filename) {
                        Ok(name) => FigurePhase::SavingCards { cards, name },
                        Err(m) => FigurePhase::Done(Err(m)),
                    }
                },
                Err(m) => FigurePhase::Done(Err(m)),
            },
            phase => phase,
        },
        FigureEvent::Scenes(found) => match phase {
            FigurePhase::ListingScenes { name } => match found {
                Ok(scenes) => turn_to(name, scenes, 0),
                Err(m) => FigurePhase::Done(Err(m)),
            },
            phase => phase,
        },
        FigureEvent::Scene(found) => match phase {
            FigurePhase::ReadingScene { name, scenes, at } => match found {
                Ok((nodes, parsed)) => bind_scene(task, filename, name, scenes, at, nodes, parsed),
                Err(m) => FigurePhase::Done(Err(m)),
            },
            phase => phase,
        },
        FigureEvent::Saved(saved) => match phase {
            FigurePhase::SavingCards { cards, name } => match saved {
                Ok(_) => FigurePhase::ListingScenes { name },
                Err(m) => FigurePhase::Done(Err(m)),
            },
            FigurePhase::SavingScene { name, scenes, at, nodes } => match saved {
                Ok(_) => {
                    let n = scenes.len();
                    assert(at < n);
                    turn_to(name, scenes, at + 1)
                },
                Err(m) => FigurePhase::Done(Err(m)),
            },
            phase => phase,
        },
    }
}

// ---------------------------------------------------------------------------
// Every scene
// ---------------------------------------------------------------------------

/// What binding a figure touches: the character cards, and the scenes.
pub struct FigureFiles {
    pub cards: Seq<CharacterView>,
    pub scenes: Map<Seq<char>, Seq<NodeView>>,
}

/// What a figure is bound to, and what the caller knows of it: the scenes that it
/// lists, and what the staged commands of a scene parse to.
pub struct FigureCase {
    pub task: AssetTaskView,
    pub filename: Seq<char>,
    pub listed: Vec<String>,
    pub parse: spec_fn(Seq<NodeView>) -> Seq<Option<NodeView>>,
}

/// What a step may do to the files, given what the caller reports of it: what is
/// read is what is there, and a write replaces one file or fails alone.
pub open spec fn figure_step(
    case: FigureCase,
    phase: FigurePhase,
    event: FigureEvent,
    before: FigureFiles,
    after: FigureFiles,
) -> bool {
    match (phase, event) {
        (FigurePhase::ReadingCards, FigureEvent::Cards(Ok(document))) => {
            &&& after == before
            &&& characters::character_views(document.characters@) == before.cards
        },
        (FigurePhase::SavingCards { cards, .. }, FigureEvent::Saved(saved)) => {
            &&& after.scenes == before.scenes
            &&& saved is Ok ==> after.cards == characters::character_views(cards.characters@)
        },
        (FigurePhase::ListingScenes { .. }, FigureEvent::Scenes(Ok(scenes))) => {
            &&& after == before
            &&& scenes == case.listed
        },
        (
            FigurePhase::ReadingScene { scenes, at, .. },
            FigureEvent::Scene(Ok((nodes, parsed))),
        ) => {
            &&& after == before
            &&& before.scenes.dom().contains(scenes@[at as int]@)
            &&& webgal::node_views(nodes@) == before.scenes[scenes@[at as int]@]
            &&& binder::opt_nodes(parsed@) == (case.parse)(webgal::node_views(nodes@))
        },
        (FigurePhase::SavingScene { scenes, at, nodes, .. }, FigureEvent::Saved(saved)) => {
            let path = scenes@[at as int]@;
            &&& after.cards == before.cards
            &&& if saved is Ok {
                after.scenes == before.scenes.insert(path, webgal::node_views(nodes@))
            } else {
                after.scenes.remove(path) == before.scenes.remove(path)
            }
        },
        _ => after == before,
    }
}

/// The card of the character that a task draws.
pub open spec fn drawn_card(case: FigureCase, cards: Seq<CharacterView>) -> int {
    binder::card_index(cards, drawn_character(case.task))
}

/// What becomes of a scene that was there, and its nodes then.
pub open spec fn bound_scene(case: FigureCase, original: FigureFiles, path: Seq<char>) -> (
    FigureScene,
    Seq<NodeView>,
) {
    let nodes = original.scenes[path];
    scene_outcome(
        nodes,
        (case.parse)(nodes),
        case.task,
        original.cards[drawn_card(case, original.cards)].name,
        case.filename,
    )
}

/// Whether the card and the first `n` scenes have the figure, and the other
/// scenes are as they were.
pub open spec fn bound_upto(
    case: FigureCase,
    original: FigureFiles,
    files: FigureFiles,
    n: int,
) -> bool {
    let k = drawn_card(case, original.cards);
    &&& k < original.cards.len()
    &&& files.cards == cards_with(original.cards, k, case.task, case.filename)
    &&& files.scenes.dom() == original.scenes.dom()
    &&& forall|j: int|
        0 <= j < n ==> original.scenes.dom().contains((#[trigger] case.listed@[j])@) && bound_scene(
            case,
            original,
            case.listed@[j]@,
        ).0 != FigureScene::NoPlace && files.scenes[case.listed@[j]@] == bound_scene(
            case,
            original,
            case.listed@[j]@,
        ).1
    &&& forall|path: Seq<char>| #[trigger]
        original.scenes.dom().contains(path) && (forall|j: int|
            0 <= j < n ==> (#[trigger] case.listed@[j])@ != path) ==> files.scenes[path]
            == original.scenes[path]
}

/// What holds of the files in every phase.
pub open spec fn figure_fits(
    case: FigureCase,
    original: FigureFiles,
    phase: FigurePhase,
    files: FigureFiles,
) -> bool {
    let k = drawn_card(case, original.cards);
    match phase {
        FigurePhase::ReadingCards => files == original,
        FigurePhase::SavingCards { cards, name } => {
            &&& files == original
            &&& k < original.cards.len()
            &&& name@ == original.cards[k].name
            &&& characters::character_views(cards.characters@) == cards_with(
                original.cards,
                k,
                case.task,
                case.filename,
            )
        },
        FigurePhase::ListingScenes { name } => {
            &&& bound_upto(case, original, files, 0)
            &&& name@ == original.cards[k].name
        },
        FigurePhase::ReadingScene { name, scenes, at } => {
            &&& bound_upto(case, original, files, at as int)
            &&& name@ == original.cards[k].name
            &&& scenes == case.listed
            &&& at < scenes@.len()
        },
        FigurePhase::SavingScene { name, scenes, at, nodes } => {
            &&& bound_upto(case, original, files, at as int)
            &&& name@ == original.cards[k].name
            &&& scenes == case.listed
            &&& at < scenes@.len()
            &&& original.scenes.dom().contains(scenes@[at as int]@)
            &&& bound_scene(case, original, scenes@[at as int]@) == (
                FigureScene::Changed,
                webgal::node_views(nodes@),
            )
        },
        FigurePhase::Done(Ok(_)) => bound_upto(case, original, files, case.listed@.len() as int),
        FigurePhase::Done(Err(_)) => true,
    }
}

proof fn lemma_figure_fits(
    case: FigureCase,
    original: FigureFiles,
    phase: FigurePhase,
    event: FigureEvent,
    next: FigurePhase,
    before: FigureFiles,
    after: FigureFiles,
)
    requires
        case.task.character_ref is Some,
        forall|i: int, j: int|
            0 <= i < j < case.listed@.len() ==> (#[trigger] case.listed@[i])@ != (
            #[trigger] case.listed@[j])@,
        figure_moves(case.task, case.filename, phase, event, next),
        figure_step(case, phase, event, before, after),
        figure_fits(case, original, phase, before),
    ensures
        figure_fits(case, original, next, after),
{
    match (phase, event) {
        (
            FigurePhase::ReadingScene { name, scenes, at },
            FigureEvent::Scene(Ok((nodes, parsed))),
        ) => {
            let path = scenes@[at as int]@;
            assert(case.listed@[at as int]@ == path);
            assert(original.scenes.dom().contains(path));
            assert forall|j: int| 0 <= j < at implies (#[trigger] case.listed@[j])@ != path by {}
            assert(before.scenes[path] == original.scenes[path]);
            if next.turns_to(name, scenes, at + 1) {
                assert(bound_upto(case, original, after, at + 1));
            }
        },
        (FigurePhase::SavingScene { scenes, at, .. }, FigureEvent::Saved(Ok(_))) => {
            let path = scenes@[at as int]@;
            assert(case.listed@[at as int]@ == path);
            assert(after.scenes.dom() =~= before.scenes.dom());
            assert(bound_upto(case, original, after, at + 1));
        },
        _ => {},
    }
}

/// A figure reaches every scene that is listed. Where its binding ends well, the
/// card of its character has it, every listed scene is what binding makes of it,
/// none that the task names lacked a place for it, and no other scene changed.
pub proof fn figures_reach_every_scene(
    case: FigureCase,
    original: FigureFiles,
    phases: Seq<FigurePhase>,
    events: Seq<FigureEvent>,
    files: Seq<FigureFiles>,
    k: int,
)
    requires
        case.task.character_ref is Some,
        forall|i: int, j: int|
            0 <= i < j < case.listed@.len() ==> (#[trigger] case.listed@[i])@ != (
            #[trigger] case.listed@[j])@,
        phases.len() == events.len() + 1,
        files.len() == phases.len(),
        phases[0] is ReadingCards,
        files[0] == original,
        forall|j: int|
            0 <= j < events.len() ==> figure_moves(
                case.task,
                case.filename,
                phases[j],
                #[trigger] events[j],
                phases[j + 1],
            ) && figure_step(case, phases[j], events[j], files[j], files[j + 1]),
        0 <= k < phases.len(),
    ensures
        figure_fits(case, original, phases[k], files[k]),
        phases[k] matches FigurePhase::Done(Ok(_)) ==> bound_upto(
            case,
            original,
            files[k],
            case.listed@.len() as int,
        ),
    decreases k,
{
    if k > 0 {
        figures_reach_every_scene(case, original, phases, events, files, k - 1);
        let event = events[k - 1];
        assert(figure_moves(case.task, case.filename, phases[k - 1], event, phases[k]));
        lemma_figure_fits(
            case,
            original,
            phases[k - 1],
            event,
            phases[k],
            files[k - 1],
            files[k],
        );
    }
}

/// However the caller gets there: once a figure is bound, the first card whose id or name is the
/// task's character holds its file under the task's emotion and is otherwise as it was, every other
/// card is as it was, every scene that was listed is what binding the figure makes of it, and no
/// other scene has changed.
pub proof fn bound_figures_are_on_their_card_and_in_their_scenes(
    case: FigureCase,
    original: FigureFiles,
    phases: Seq<FigurePhase>,
    events: Seq<FigureEvent>,
    files: Seq<FigureFiles>,
    end: int,
) -> (k: int)
    requires
        case.task.character_ref is Some,
        forall|i: int, j: int|
            0 <= i < j < case.listed@.len() ==> (#[trigger] case.listed@[i])@ != (
            #[trigger] case.listed@[j])@,
        phases.len() == events.len() + 1,
        files.len() == phases.len(),
        phases[0] is ReadingCards,
        files[0] == original,
        forall|j: int|
            0 <= j < events.len() ==> figure_moves(
                case.task,
                case.filename,
                phases[j],
                #[trigger] events[j],
                phases[j + 1],
            ) && figure_step(case, phases[j], events[j], files[j], files[j + 1]),
        0 <= end < phases.len(),
        phases[end] == FigurePhase::Done(Ok(())),
    ensures
        0 <= k < original.cards.len(),
        original.cards[k].id == case.task.character_ref->0 || original.cards[k].name
            == case.task.character_ref->0,
        forall|j: int|
            0 <= j < k ==> (#[trigger] original.cards[j]).id != case.task.character_ref->0
                && original.cards[j].name != case.task.character_ref->0,
        files[end].cards.len() == original.cards.len(),
        forall|j: int|
            0 <= j < original.cards.len() && j != k ==> #[trigger] files[end].cards[j]
                == original.cards[j],
        files[end].cards[k] == (CharacterView {
            sprites: binder::with_sprite(
                original.cards[k].sprites,
                binder::task_emotion(case.task),
                case.filename,
                case.task.prompt,
            ),
            ..original.cards[k]
        }),
        files[end].scenes.dom() == original.scenes.dom(),
        forall|j: int|
            0 <= j < case.listed@.len() ==> original.scenes.dom().contains(
                (#[trigger] case.listed@[j])@,
            ) && ({
                let path = case.listed@[j]@;
                let made = binder::figure_outcome(
                    original.scenes[path],
                    (case.parse)(original.scenes[path]),
                    case.task,
                    case.task.character_ref->0,
                    original.cards[k].name,
                    case.filename,
                    case.task.scene_ref is Some,
                );
                made.0 != FigureScene::NoPlace && files[end].scenes[path] == made.1
            }),
        forall|path: Seq<char>| #[trigger]
            original.scenes.dom().contains(path) && (forall|j: int|
                0 <= j < case.listed@.len() ==> (#[trigger] case.listed@[j])@ != path)
                ==> files[end].scenes[path] == original.scenes[path],
{
    figures_reach_every_scene(case, original, phases, events, files, end);
    let k = binder::card_index(original.cards, case.task.character_ref->0);
    binder::figures_belong_to_the_card_they_name(original.cards, case.task.character_ref->0);
    assert(bound_upto(case, original, files[end], case.listed@.len() as int));
    assert(files[end].cards == cards_with(original.cards, k, case.task, case.filename));
    k
}

/// The binding of a figure fails only where the caller reports a failure, where no card is the
/// task's character, or where a scene has no place for the figure; the error says which.
pub proof fn figures_fail_for_a_reason(
    task: AssetTaskView,
    filename: Seq<char>,
    before: FigurePhase,
    event: FigureEvent,
    after: FigurePhase,
)
    requires
        before.wf(),
        !(before is Done),
        figure_moves(task, filename, before, event, after),
    ensures
        after is Done && after->Done_0 is Err ==> {
            let m = after->Done_0->Err_0;
            ||| event == FigureEvent::Cards(Err(m))
            ||| event == FigureEvent::Scenes(Err(m))
            ||| event == FigureEvent::Scene(Err(m))
            ||| event == FigureEvent::Saved(Err(m))
            ||| before is ReadingCards && task.character_ref is None && m@ == "figure task "@
                + task.id + " has no characterRef"@
            ||| before is ReadingCards && task.character_ref is Some && m@ == "character not found: "@
                + task.character_ref->0
            ||| before is ReadingScene && m@ == binder::no_place(
                task.id,
                before->ReadingScene_scenes@[before->ReadingScene_at as int]@,
            )
        },
        before is ReadingCards && task.character_ref is Some && event is Cards && event->Cards_0
            is Ok ==> (after is SavingCards <==> exists|k: int|
            0 <= k < event->Cards_0->Ok_0.characters@.len() && ((
            #[trigger] event->Cards_0->Ok_0.characters@[k])@.id == task.character_ref->0
                || event->Cards_0->Ok_0.characters@[k]@.name == task.character_ref->0)),
        before is SavingCards && event == FigureEvent::Saved(Ok(())) ==> after is ListingScenes
            && after->ListingScenes_name == before->SavingCards_name,
{
    if before is ReadingCards && task.character_ref is Some && event is Cards && event->Cards_0
        is Ok {
        let all = event->Cards_0->Ok_0.characters@;
        let cards = characters::character_views(all);
        let r = task.character_ref->0;
        let k = binder::card_index(cards, r);
        binder::figures_belong_to_the_card_they_name(cards, r);
        if k < cards.len() {
            assert(all[k]@.id == r || all[k]@.name == r);
        } else {
            assert forall|j: int| 0 <= j < all.len() implies !((#[trigger] all[j])@.id == r
                || all[j]@.name == r) by {
                assert(cards[j] == all[j]@);
            }
        }
    }
}

} // verus!
