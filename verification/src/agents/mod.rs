//! The agents: each turns one slice of the story plan into the next.
pub mod asset_planner;
pub mod character;
pub mod outline;
pub mod router;
pub mod scene;

use vstd::prelude::*;

use crate::asset_queue::AssetQueue;
use crate::characters::Character;
use crate::pipeline;
use crate::pipeline::{StepExecutor, StepKind};
use crate::story_plan::{AssetTaskPlan, BranchGraph, ChapterPlan, SceneDraft, ScenePlan};
use crate::text;
use crate::text_map::TextMap;

verus! {

/// Why an agent gave up.
#[derive(Debug, Clone, PartialEq, Eq)]
pub struct AgentError(pub String);

/// The slice of the story plan that an agent may read.
pub struct AgentContext<'a> {
    /// The production brief that owns the run.
    pub prompt: &'a str,
    /// The instruction of this step.
    pub instruction: &'a str,
    pub synopsis: &'a str,
    pub chapters: &'a [ChapterPlan],
    pub worldbook: &'a str,
    pub glossary: &'a TextMap<String>,
    pub characters: &'a [Character],
    pub scene_plans: &'a [ScenePlan],
    pub branches: &'a BranchGraph,
    pub scene_drafts: &'a [SceneDraft],
    pub asset_plan: &'a [AssetTaskPlan],
    pub allow_local_fallback: bool,
}

/// A scene file and its script.
#[derive(Debug, Clone, PartialEq, Eq)]
pub struct SceneScript {
    pub name: String,
    pub content: String,
}

/// What one step produces. Each variant owns the fields that change together.
#[derive(Debug, PartialEq, Eq)]
pub enum AgentOutputPayload {
    Synopsis(String),
    Memory { worldbook: String, glossary: TextMap<String> },
    Outline { chapters: Vec<ChapterPlan>, scene_plans: Vec<ScenePlan>, branches: BranchGraph },
    Characters(Vec<Character>),
    SceneDrafts(Vec<SceneDraft>),
    AssetPlan(Vec<AssetTaskPlan>),
    Scenes(Vec<SceneScript>),
    AssetQueue(AssetQueue),
}

/// A payload, with where it came from.
#[derive(Debug, PartialEq, Eq)]
pub struct AgentOutput {
    pub payload: AgentOutputPayload,
    pub model: Option<String>,
    pub prompt_tokens: Option<u32>,
    pub completion_tokens: Option<u32>,
    pub warnings: Vec<String>,
    pub downgrade: Option<String>,
}

/// Whether an output comes from a model, and which.
pub open spec fn from_model(
    out: AgentOutput,
    model: String,
    prompt_tokens: Option<u32>,
    completion_tokens: Option<u32>,
) -> bool {
    &&& out.model == Some(model)
    &&& out.prompt_tokens == prompt_tokens
    &&& out.completion_tokens == completion_tokens
    &&& out.warnings@.len() == 0
    &&& out.downgrade is None
}

/// Whether an output comes from a local template, and says so.
pub open spec fn from_template(out: AgentOutput) -> bool {
    &&& out.model is None
    &&& out.prompt_tokens is None
    &&& out.completion_tokens is None
    &&& text::texts(out.warnings@) == seq!["未配置可用的对话模型，已使用本地内容模板"@]
    &&& crate::story_plan::opt_text(out.downgrade) == Some("local-template"@)
}

/// Whether an output carries nothing but its payload.
pub open spec fn bare(out: AgentOutput) -> bool {
    &&& out.model is None
    &&& out.prompt_tokens is None
    &&& out.completion_tokens is None
    &&& out.warnings@.len() == 0
    &&& out.downgrade is None
}

impl AgentOutput {
    pub fn new(payload: AgentOutputPayload) -> (r: AgentOutput)
        ensures
            r.payload == payload,
            bare(r),
    {
        AgentOutput {
            payload,
            model: None,
            prompt_tokens: None,
            completion_tokens: None,
            warnings: Vec::new(),
            downgrade: None,
        }
    }

    pub fn with_model(
        self,
        model: String,
        prompt_tokens: Option<u32>,
        completion_tokens: Option<u32>,
    ) -> (r: AgentOutput)
        ensures
            r == (AgentOutput { model: Some(model), prompt_tokens, completion_tokens, ..self }),
    {
        AgentOutput {
            payload: self.payload,
            model: Some(model),
            prompt_tokens,
            completion_tokens,
            warnings: self.warnings,
            downgrade: self.downgrade,
        }
    }

    pub fn local_fallback(self) -> (r: AgentOutput)
        ensures
            r.payload == self.payload,
            r.model == self.model,
            r.prompt_tokens == self.prompt_tokens,
            r.completion_tokens == self.completion_tokens,
            text::texts(r.warnings@) == text::texts(self.warnings@).push(
                "未配置可用的对话模型，已使用本地内容模板"@,
            ),
            crate::story_plan::opt_text(r.downgrade) == Some("local-template"@),
    {
        let mut warnings = self.warnings;
        let ghost before = text::texts(warnings@);
        let warning = text::copy("未配置可用的对话模型，已使用本地内容模板");
        warnings.push(warning);
        assert(text::texts(warnings@) =~= before.push(warning@));
        AgentOutput {
            payload: self.payload,
            model: self.model,
            prompt_tokens: self.prompt_tokens,
            completion_tokens: self.completion_tokens,
            warnings,
            downgrade: Some(text::copy("local-template")),
        }
    }
}

// ---------------------------------------------------------------------------
// The registry
// ---------------------------------------------------------------------------

/// The agents of the default registry.
#[derive(Debug, Clone, Copy, PartialEq, Eq, Structural)]
pub enum AgentRole {
    Plan,
    Memory,
    Outline,
    Character,
    AssetPlanner,
    Scene,
    Dialogist,
}

/// Maps a step to the agent that runs it. What stands for an agent is up to
/// the caller, so that others can be put in its place.
pub struct AgentRegistry<A> {
    map: TextMap<A>,
}

/// The key under which a step's agent is registered.
pub open spec fn agent_key(kind: StepKind, executor: pipeline::ExecutorView) -> Option<Seq<char>> {
    match executor {
        pipeline::ExecutorView::Agent => Some(pipeline::kind_word(kind)),
        pipeline::ExecutorView::NamedAgent(name) => Some(name),
        pipeline::ExecutorView::AssetQueue => None,
    }
}

/// The agents of the default registry, by their keys.
pub open spec fn default_agents() -> Map<Seq<char>, AgentRole> {
    Map::<Seq<char>, AgentRole>::empty()
        .insert("plan"@, AgentRole::Plan)
        .insert("memory"@, AgentRole::Memory)
        .insert("outline"@, AgentRole::Outline)
        .insert("character"@, AgentRole::Character)
        .insert("asset"@, AgentRole::AssetPlanner)
        .insert("scene"@, AgentRole::Scene)
        .insert("dialogist"@, AgentRole::Dialogist)
        .insert("assetPlanner"@, AgentRole::AssetPlanner)
        .insert("sceneScript"@, AgentRole::Scene)
}

impl<A> View for AgentRegistry<A> {
    type V = Map<Seq<char>, A>;

    closed spec fn view(&self) -> Map<Seq<char>, A> {
        self.map@
    }
}

impl<A> AgentRegistry<A> {
    pub fn new() -> (r: AgentRegistry<A>)
        ensures
            r@ == Map::<Seq<char>, A>::empty(),
    {
        AgentRegistry { map: TextMap::new() }
    }

    pub fn register(&mut self, kind: StepKind, agent: A)
        ensures
            final(self)@ == old(self)@.insert(pipeline::kind_word(kind), agent),
    {
        self.map.insert(text::copy(kind.as_str()), agent);
    }

    pub fn register_named(&mut self, key: &str, agent: A)
        ensures
            final(self)@ == old(self)@.insert(key@, agent),
    {
        self.map.insert(text::copy(key), agent);
    }

    pub fn get(&self, kind: StepKind, executor: &StepExecutor) -> (r: Option<&A>)
        ensures
            match agent_key(kind, executor@) {
                Some(key) => match r {
                    Some(agent) => self@.dom().contains(key) && *agent == self@[key],
                    None => !self@.dom().contains(key),
                },
                None => r is None,
            },
    {
        match executor {
            StepExecutor::Agent => self.map.get(kind.as_str()),
            StepExecutor::NamedAgent(key) => self.map.get(key.as_str()),
            StepExecutor::AssetQueue => None,
        }
    }
}

impl AgentRegistry<AgentRole> {
    /// The registry with every agent of the flow, the named roles among them.
    pub fn with_defaults() -> (r: AgentRegistry<AgentRole>)
        ensures
            r@ == default_agents(),
    {
        let mut registry: AgentRegistry<AgentRole> = AgentRegistry::new();
        registry.register(StepKind::Plan, AgentRole::Plan);
        registry.register(StepKind::Memory, AgentRole::Memory);
        registry.register(StepKind::Outline, AgentRole::Outline);
        registry.register(StepKind::Character, AgentRole::Character);
        registry.register(StepKind::Asset, AgentRole::AssetPlanner);
        registry.register(StepKind::Scene, AgentRole::Scene);
        registry.register_named("dialogist", AgentRole::Dialogist);
        registry.register_named("assetPlanner", AgentRole::AssetPlanner);
        registry.register_named("sceneScript", AgentRole::Scene);
        registry
    }
}

impl<A> Default for AgentRegistry<A> {
    fn default() -> (r: AgentRegistry<A>)
        ensures
            r@ == Map::<Seq<char>, A>::empty(),
    {
        AgentRegistry::new()
    }
}

/// Every agent step of the default recipe has an agent in the default
/// registry: none is skipped for want of one.
pub proof fn every_default_step_has_an_agent(i: int)
    requires
        0 <= i < pipeline::default_agent_steps().len(),
    ensures
        agent_key(
            pipeline::default_agent_steps()[i].kind,
            pipeline::default_agent_steps()[i].executor,
        ) matches Some(key) && default_agents().dom().contains(key),
{
    let step = pipeline::default_agent_steps()[i];
    assert(step.executor is Agent || step.executor is NamedAgent);
}

/// What a model gave names the model and what it used, and warns of nothing; what a template gave
/// names none and says so; what an agent made itself says neither.
pub proof fn outputs_say_where_they_come_from(
    out: AgentOutput,
    model: String,
    prompt_tokens: Option<u32>,
    completion_tokens: Option<u32>,
)
    ensures
        from_model(out, model, prompt_tokens, completion_tokens) <==> out.model == Some(model)
            && out.prompt_tokens == prompt_tokens && out.completion_tokens == completion_tokens
            && out.warnings@.len() == 0 && out.downgrade is None,
        from_template(out) ==> out.model is None && out.warnings@.len() == 1 && out.warnings@[0]@
            == "未配置可用的对话模型，已使用本地内容模板"@ && out.downgrade is Some
            && out.downgrade->0@ == "local-template"@ && out.prompt_tokens is None
            && out.completion_tokens is None,
        bare(out) ==> out.model is None && out.warnings@.len() == 0 && out.downgrade is None
            && out.prompt_tokens is None && out.completion_tokens is None,
{
    if from_template(out) {
        let w = text::texts(out.warnings@);
        assert(w.len() == 1);
        assert(w[0] == out.warnings@[0]@);
    }
}

/// A step of an agent is looked up by the word of its kind, one of a named agent by the name; the
/// queue has no agent. Every one of the default agents is found under its own words.
pub proof fn agents_are_found_by_kind_or_name(kind: StepKind, name: Seq<char>)
    ensures
        agent_key(kind, pipeline::ExecutorView::Agent) == Some(pipeline::kind_word(kind)),
        agent_key(kind, pipeline::ExecutorView::NamedAgent(name)) == Some(name),
        agent_key(kind, pipeline::ExecutorView::AssetQueue) is None,
        default_agents()["plan"@] is Plan,
        default_agents()["memory"@] is Memory,
        default_agents()["outline"@] is Outline,
        default_agents()["character"@] is Character,
        default_agents()["asset"@] is AssetPlanner,
        default_agents()["assetPlanner"@] is AssetPlanner,
        default_agents()["scene"@] is Scene,
        default_agents()["sceneScript"@] is Scene,
        default_agents()["dialogist"@] is Dialogist,
        default_agents().dom().contains(name) <==> name == "plan"@ || name == "memory"@ || name
            == "outline"@ || name == "character"@ || name == "asset"@ || name == "assetPlanner"@
            || name == "scene"@ || name == "sceneScript"@ || name == "dialogist"@,
{
    reveal_strlit("plan");
    reveal_strlit("memory");
    reveal_strlit("outline");
    reveal_strlit("character");
    reveal_strlit("asset");
    reveal_strlit("assetPlanner");
    reveal_strlit("scene");
    reveal_strlit("sceneScript");
    reveal_strlit("dialogist");
    assert("plan"@.len() == 4 && "memory"@.len() == 6 && "outline"@.len() == 7 && "character"@.len()
        == 9 && "asset"@.len() == 5 && "assetPlanner"@.len() == 12 && "scene"@.len() == 5
        && "sceneScript"@.len() == 11 && "dialogist"@.len() == 9);
    assert("asset"@[0] == 'a' && "scene"@[0] == 's');
    assert("character"@[0] == 'c' && "dialogist"@[0] == 'd');
}

} // verus!
