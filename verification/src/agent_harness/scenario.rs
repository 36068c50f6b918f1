//! What one agent is given of a story plan.
use vstd::prelude::*;

use crate::agent_harness::cli;
use crate::agent_harness::cli::AgentKind;
use crate::agents;
use crate::agents::router;
use crate::agents::{AgentContext, AgentRegistry};
use crate::pipeline;
use crate::pipeline::{StepExecutor, StepKind};
use crate::story_plan::StoryPlan;
use crate::text;

verus! {

broadcast use vstd::string::group_string_axioms;

/// Everything that a run of an agent needs.
pub struct Scenario {
    pub plan: StoryPlan,
    pub brief: String,
    pub instruction: String,
    pub allow_local_fallback: bool,
}

/// A file with a story plan, as far as it could be read.
pub enum PlanFile {
    Unreadable(String),
    Invalid(String),
    Plan(StoryPlan),
}

impl Scenario {
    /// The story plan of a project, or why there is none.
    pub fn from_project(loaded: Result<Option<StoryPlan>, String>, plan_path: &str) -> (r: Result<
        StoryPlan,
        String,
    >)
        ensures
            match loaded {
                Ok(Some(plan)) => r == Ok::<StoryPlan, String>(plan),
                Ok(None) => r matches Err(m) && m@ == "no StoryPlan at "@ + plan_path@
                    + " — run a Flow in the app first, or pass --scenario"@,
                Err(e) => r matches Err(m) && m@ == "failed to load StoryPlan: "@ + e@,
            },
    {
        match loaded {
            Ok(Some(plan)) => Ok(plan),
            Ok(None) => {
                let mut m = text::copy("no StoryPlan at ");
                m.append(plan_path);
                m.append(" — run a Flow in the app first, or pass --scenario");
                Err(m)
            },
            Err(e) => Err(router::joined("failed to load StoryPlan: ", e.as_str())),
        }
    }

    /// The story plan of a file, or why there is none.
    pub fn from_file(path: &str, file: PlanFile) -> (r: Result<StoryPlan, String>)
        ensures
            match file {
                PlanFile::Plan(plan) => r == Ok::<StoryPlan, String>(plan),
                PlanFile::Unreadable(e) => r matches Err(m) && m@ == "failed to read scenario "@
                    + path@ + ": "@ + e@,
                PlanFile::Invalid(e) => r matches Err(m) && m@ == "scenario "@ + path@
                    + " is not a valid StoryPlan: "@ + e@,
            },
    {
        match file {
            PlanFile::Plan(plan) => Ok(plan),
            PlanFile::Unreadable(e) => {
                let mut m = text::copy("failed to read scenario ");
                m.append(path);
                m.append(": ");
                m.append(e.as_str());
                Err(m)
            },
            PlanFile::Invalid(e) => {
                let mut m = text::copy("scenario ");
                m.append(path);
                m.append(" is not a valid StoryPlan: ");
                m.append(e.as_str());
                Err(m)
            },
        }
    }

    /// What the flow would hand the agent.
    pub fn context<'a>(&'a self) -> (r: AgentContext<'a>)
        ensures
            r.prompt@ == self.brief@,
            r.instruction@ == self.instruction@,
            r.synopsis@ == self.plan.synopsis@,
            r.chapters@ == self.plan.chapters@,
            r.worldbook@ == self.plan.memory.worldbook@,
            *r.glossary == self.plan.memory.glossary,
            r.characters@ == self.plan.characters@,
            r.scene_plans@ == self.plan.scene_plans@,
            *r.branches == self.plan.branches,
            r.scene_drafts@ == self.plan.scene_drafts@,
            r.asset_plan@ == self.plan.asset_plan@,
            r.allow_local_fallback == self.allow_local_fallback,
    {
        AgentContext {
            prompt: self.brief.as_str(),
            instruction: self.instruction.as_str(),
            synopsis: self.plan.synopsis.as_str(),
            chapters: self.plan.chapters.as_slice(),
            worldbook: self.plan.memory.worldbook.as_str(),
            glossary: &self.plan.memory.glossary,
            characters: self.plan.characters.as_slice(),
            scene_plans: self.plan.scene_plans.as_slice(),
            branches: &self.plan.branches,
            scene_drafts: self.plan.scene_drafts.as_slice(),
            asset_plan: self.plan.asset_plan.as_slice(),
            allow_local_fallback: self.allow_local_fallback,
        }
    }
}

/// The step kind that an agent is registered under.
pub open spec fn kind_of(kind: AgentKind) -> StepKind {
    match kind {
        AgentKind::Plan => StepKind::Plan,
        AgentKind::Memory => StepKind::Memory,
        AgentKind::Outline => StepKind::Outline,
        AgentKind::Character => StepKind::Character,
        AgentKind::Asset => StepKind::Asset,
        AgentKind::Scene => StepKind::Scene,
        AgentKind::Dialogist => StepKind::Scene,
    }
}

/// Who executes the step: the dialogist is a role of its own name.
pub open spec fn executor_of(kind: AgentKind) -> pipeline::ExecutorView {
    match kind {
        AgentKind::Dialogist => pipeline::ExecutorView::NamedAgent("dialogist"@),
        _ => pipeline::ExecutorView::Agent,
    }
}

/// How the registry addresses an agent.
pub fn registry_key(kind: AgentKind) -> (r: (StepKind, StepExecutor))
    ensures
        r.0 == kind_of(kind),
        r.1@ == executor_of(kind),
{
    match kind {
        AgentKind::Plan => (StepKind::Plan, StepExecutor::Agent),
        AgentKind::Memory => (StepKind::Memory, StepExecutor::Agent),
        AgentKind::Outline => (StepKind::Outline, StepExecutor::Agent),
        AgentKind::Character => (StepKind::Character, StepExecutor::Agent),
        AgentKind::Asset => (StepKind::Asset, StepExecutor::Agent),
        AgentKind::Scene => (StepKind::Scene, StepExecutor::Agent),
        AgentKind::Dialogist => (
            StepKind::Scene,
            StepExecutor::NamedAgent(text::copy("dialogist")),
        ),
    }
}

/// The key of an agent in a registry.
pub open spec fn key_of(kind: AgentKind) -> Seq<char> {
    match kind {
        AgentKind::Dialogist => "dialogist"@,
        _ => pipeline::kind_word(kind_of(kind)),
    }
}

/// The agent of a kind.
pub fn resolve_agent<A>(registry: &AgentRegistry<A>, kind: AgentKind) -> (r: Result<&A, String>)
    ensures
        match r {
            Ok(agent) => registry@.dom().contains(key_of(kind)) && *agent == registry@[key_of(
                kind,
            )],
            Err(m) => !registry@.dom().contains(key_of(kind)) && m@ == "no agent registered for "@
                + cli::kind_name(kind),
        },
{
    let (step_kind, executor) = registry_key(kind);
    match registry.get(step_kind, &executor) {
        Some(agent) => Ok(agent),
        None => Err(router::joined("no agent registered for ", kind.name())),
    }
}

/// Every agent that can be chosen is in the default registry.
pub proof fn every_kind_has_an_agent(kind: AgentKind)
    ensures
        agents::default_agents().dom().contains(key_of(kind)),
{
}

/// Every agent that can be run by hand is looked up where a flow finds it: by its kind, and the
/// dialogist, whose kind is that of a scene, by its name.
pub proof fn agents_run_by_hand_are_those_of_the_flow(kind: AgentKind)
    ensures
        agents::agent_key(kind_of(kind), executor_of(kind)) == Some(key_of(kind)),
        key_of(kind) == (match kind {
            AgentKind::Plan => "plan"@,
            AgentKind::Memory => "memory"@,
            AgentKind::Outline => "outline"@,
            AgentKind::Character => "character"@,
            AgentKind::Asset => "asset"@,
            AgentKind::Scene => "scene"@,
            AgentKind::Dialogist => "dialogist"@,
        }),
        cli::kind_name(kind) == (match kind {
            AgentKind::Plan => "Plan"@,
            AgentKind::Memory => "Memory"@,
            AgentKind::Outline => "Outline"@,
            AgentKind::Character => "Character"@,
            AgentKind::Asset => "Asset"@,
            AgentKind::Scene => "Scene"@,
            AgentKind::Dialogist => "Dialogist"@,
        }),
{
}

} // verus!
