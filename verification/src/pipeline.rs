//! The production flow: its steps and who executes them.
use vstd::prelude::*;

use crate::text;

verus! {

#[derive(Debug, Clone, Copy, PartialEq, Eq, Structural)]
pub enum StepKind {
    Plan,
    Memory,
    Outline,
    Character,
    Asset,
    Scene,
}

/// The word that names a kind of step.
pub open spec fn kind_word(kind: StepKind) -> Seq<char> {
    match kind {
        StepKind::Plan => "plan"@,
        StepKind::Memory => "memory"@,
        StepKind::Outline => "outline"@,
        StepKind::Character => "character"@,
        StepKind::Asset => "asset"@,
        StepKind::Scene => "scene"@,
    }
}

impl StepKind {
    pub fn as_str(self) -> (r: &'static str)
        ensures
            r@ == kind_word(self),
    {
        match self {
            StepKind::Plan => "plan",
            StepKind::Memory => "memory",
            StepKind::Outline => "outline",
            StepKind::Character => "character",
            StepKind::Asset => "asset",
            StepKind::Scene => "scene",
        }
    }
}

/// Who executes a step.
#[derive(Debug, PartialEq, Eq)]
pub enum StepExecutor {
    /// The agent registered for the step's kind.
    Agent,
    /// The agent registered under a name of its own.
    NamedAgent(String),
    /// The asset queue, which calls no chat model.
    AssetQueue,
}

impl Clone for StepExecutor {
    fn clone(&self) -> (r: StepExecutor)
        ensures
            r == *self,
    {
        match self {
            StepExecutor::Agent => StepExecutor::Agent,
            StepExecutor::NamedAgent(name) => StepExecutor::NamedAgent(name.clone()),
            StepExecutor::AssetQueue => StepExecutor::AssetQueue,
        }
    }
}

/// One step of the flow.
#[derive(Debug, PartialEq, Eq)]
pub struct StepDef {
    pub id: String,
    pub kind: StepKind,
    pub executor: StepExecutor,
    pub prompt: String,
}

/// The model of a step: its id, its kind, and the name of its executor, where
/// it has one of its own.
pub enum ExecutorView {
    Agent,
    NamedAgent(Seq<char>),
    AssetQueue,
}

impl View for StepExecutor {
    type V = ExecutorView;

    open spec fn view(&self) -> ExecutorView {
        match *self {
            StepExecutor::Agent => ExecutorView::Agent,
            StepExecutor::NamedAgent(name) => ExecutorView::NamedAgent(name@),
            StepExecutor::AssetQueue => ExecutorView::AssetQueue,
        }
    }
}

#[verifier::ext_equal]
pub struct StepView {
    pub id: Seq<char>,
    pub kind: StepKind,
    pub executor: ExecutorView,
    pub prompt: Seq<char>,
}

impl View for StepDef {
    type V = StepView;

    open spec fn view(&self) -> StepView {
        StepView {
            id: self.id@,
            kind: self.kind,
            executor: self.executor@,
            prompt: self.prompt@,
        }
    }
}

pub open spec fn step_views(v: Seq<StepDef>) -> Seq<StepView> {
    v.map_values(|s: StepDef| s@)
}

pub open spec fn agent_step(id: Seq<char>, kind: StepKind) -> StepView {
    StepView { id, kind, executor: ExecutorView::Agent, prompt: Seq::empty() }
}

pub open spec fn named_step(id: Seq<char>, kind: StepKind, name: Seq<char>) -> StepView {
    StepView { id, kind, executor: ExecutorView::NamedAgent(name), prompt: Seq::empty() }
}

/// The steps of the default recipe that an agent executes.
pub open spec fn default_agent_steps() -> Seq<StepView> {
    seq![
        agent_step("plan"@, StepKind::Plan),
        agent_step("memory"@, StepKind::Memory),
        agent_step("outline"@, StepKind::Outline),
        agent_step("character"@, StepKind::Character),
        named_step("dialogist"@, StepKind::Scene, "dialogist"@),
        named_step("assetPlan"@, StepKind::Asset, "assetPlanner"@),
        named_step("scene"@, StepKind::Scene, "sceneScript"@),
    ]
}

/// The step that hands the planned assets to the queue.
pub open spec fn asset_queue_step() -> StepView {
    StepView {
        id: "assetQueue"@,
        kind: StepKind::Asset,
        executor: ExecutorView::AssetQueue,
        prompt: Seq::empty(),
    }
}

fn step(id: &str, kind: StepKind, executor: StepExecutor) -> (r: StepDef)
    ensures
        r@ == (StepView { id: id@, kind, executor: executor@, prompt: Seq::empty() }),
{
    let r = StepDef { id: text::copy(id), kind, executor, prompt: String::new() };
    assert(r.prompt@ =~= Seq::<char>::empty());
    r
}

/// The recipe that a new flow starts from, in dependency order.
pub fn default_recipe() -> (r: Vec<StepDef>)
    ensures
        step_views(r@) == default_agent_steps().push(asset_queue_step()),
{
    let r = vec![
        step("plan", StepKind::Plan, StepExecutor::Agent),
        step("memory", StepKind::Memory, StepExecutor::Agent),
        step("outline", StepKind::Outline, StepExecutor::Agent),
        step("character", StepKind::Character, StepExecutor::Agent),
        step("dialogist", StepKind::Scene, StepExecutor::NamedAgent(text::copy("dialogist"))),
        step("assetPlan", StepKind::Asset, StepExecutor::NamedAgent(text::copy("assetPlanner"))),
        step("scene", StepKind::Scene, StepExecutor::NamedAgent(text::copy("sceneScript"))),
        step("assetQueue", StepKind::Asset, StepExecutor::AssetQueue),
    ];
    assert(step_views(r@) =~= default_agent_steps().push(asset_queue_step()));
    r
}

/// The default recipe plans, remembers, outlines, casts, writes the dialogue, plans the assets,
/// writes the scenes and then makes the assets; each step but the last is an agent's.
pub proof fn the_default_recipe_makes_a_story()
    ensures
        ({
            let all = default_agent_steps().push(asset_queue_step());
            &&& all.len() == 8
            &&& all[0].id == "plan"@ && all[0].kind is Plan && all[0].executor is Agent
            &&& all[1].id == "memory"@ && all[1].kind is Memory && all[1].executor is Agent
            &&& all[2].id == "outline"@ && all[2].kind is Outline && all[2].executor is Agent
            &&& all[3].id == "character"@ && all[3].kind is Character && all[3].executor is Agent
            &&& all[4].id == "dialogist"@ && all[4].kind is Scene && all[4].executor
                == ExecutorView::NamedAgent("dialogist"@)
            &&& all[5].id == "assetPlan"@ && all[5].kind is Asset && all[5].executor
                == ExecutorView::NamedAgent("assetPlanner"@)
            &&& all[6].id == "scene"@ && all[6].kind is Scene && all[6].executor
                == ExecutorView::NamedAgent("sceneScript"@)
            &&& all[7].id == "assetQueue"@ && all[7].kind is Asset && all[7].executor is AssetQueue
            &&& forall|i: int| 0 <= i < 8 ==> (#[trigger] all[i]).prompt == Seq::<char>::empty()
        }),
{
}

/// Every kind of step has its word.
pub proof fn steps_have_their_word()
    ensures
        kind_word(StepKind::Plan) == "plan"@,
        kind_word(StepKind::Memory) == "memory"@,
        kind_word(StepKind::Outline) == "outline"@,
        kind_word(StepKind::Character) == "character"@,
        kind_word(StepKind::Asset) == "asset"@,
        kind_word(StepKind::Scene) == "scene"@,
{
}

} // verus!
