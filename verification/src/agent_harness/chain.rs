//! Driving every agent of the flow from one production brief.
//!
//! The steps are those of the default recipe. The caller runs the agents, reads
//! and writes their cassettes, and checks their outputs against the flow's
//! contract; how each step is recorded or replayed, what is reported of it, and
//! whether the chain goes on is decided here.
use vstd::prelude::*;

use crate::agent_harness::cassette;
use crate::agent_harness::cassette::Cassette;
use crate::agent_harness::gateway::ReplayGateway;
use crate::agents::{AgentContext, AgentError, AgentOutput, AgentOutputPayload, AgentRegistry, SceneScript};
use crate::pipeline;
use crate::pipeline::{StepDef, StepExecutor};
use crate::story_plan;
use crate::story_plan::{BranchEdge, SceneDraft, StoryPlan};
use crate::text;

verus! {

broadcast use vstd::string::group_string_axioms;

/// One step that was run.
#[derive(Debug, PartialEq, Eq)]
pub struct StepReport {
    pub id: String,
    pub kind: &'static str,
    pub executor: String,
    pub elapsed_ms: u64,
    pub model: Option<String>,
    pub prompt_tokens: Option<u32>,
    pub completion_tokens: Option<u32>,
    pub interactions: usize,
    pub warnings: Vec<String>,
    pub downgrade: Option<String>,
    /// What the step produced, or what stopped the chain.
    pub outcome: Result<String, String>,
}

pub struct ChainReport {
    pub steps: Vec<StepReport>,
    pub plan: StoryPlan,
}

impl ChainReport {
    /// Whether a step has failed.
    pub fn failed(&self) -> (r: bool)
        ensures
            r == (exists|i: int|
                0 <= i < self.steps@.len() && (#[trigger] self.steps@[i]).outcome is Err),
    {
        let mut i: usize = 0;
        while i < self.steps.len()
            invariant
                i <= self.steps.len(),
                forall|j: int| 0 <= j < i ==> (#[trigger] self.steps@[j]).outcome is Ok,
            decreases self.steps.len() - i,
        {
            if self.steps[i].outcome.is_err() {
                return true;
            }
            i += 1;
        }
        false
    }
}

/// The steps that an agent executes, in their order.
pub fn chain_steps() -> (r: Vec<StepDef>)
    ensures
        pipeline::step_views(r@) == pipeline::default_agent_steps(),
{
    let recipe = pipeline::default_recipe();
    let ghost all = pipeline::default_agent_steps().push(pipeline::asset_queue_step());
    let mut out: Vec<StepDef> = Vec::new();
    assert(pipeline::step_views(out@) =~= agent_only(all.take(0)));
    for step in it: recipe
        invariant
            all == pipeline::step_views(it.seq()),
            pipeline::step_views(out@) == agent_only(all.take(it.index())),
    {
        proof {
            let k = it.index();
            assert(all[k] == step@);
            assert(all.take(k + 1).drop_last() =~= all.take(k));
            assert(all.take(k + 1).last() == step@);
        }
        let keep = match &step.executor {
            StepExecutor::AssetQueue => false,
            StepExecutor::Agent => true,
            StepExecutor::NamedAgent(_) => true,
        };
        if keep {
            let ghost before = pipeline::step_views(out@);
            out.push(step);
            assert(pipeline::step_views(out@) =~= before.push(step@));
        }
    }
    proof {
        assert(all.take(all.len() as int) =~= all);
        assert(all.drop_last() =~= pipeline::default_agent_steps());
        lemma_agent_only(pipeline::default_agent_steps());
    }
    out
}

/// The steps of a recipe that an agent executes.
pub open spec fn agent_only(steps: Seq<pipeline::StepView>) -> Seq<pipeline::StepView>
    decreases steps.len(),
{
    if steps.len() == 0 {
        Seq::empty()
    } else if steps.last().executor is AssetQueue {
        agent_only(steps.drop_last())
    } else {
        agent_only(steps.drop_last()).push(steps.last())
    }
}

proof fn lemma_agent_only(steps: Seq<pipeline::StepView>)
    requires
        forall|i: int| 0 <= i < steps.len() ==> !((#[trigger] steps[i]).executor is AssetQueue),
    ensures
        agent_only(steps) == steps,
    decreases steps.len(),
{
    if steps.len() > 0 {
        let d = steps.drop_last();
        assert forall|i: int| 0 <= i < d.len() implies !((#[trigger] d[i]).executor
            is AssetQueue) by {
            assert(d[i] == steps[i]);
        }
        lemma_agent_only(d);
        assert(d.push(steps.last()) =~= steps);
    } else {
        assert(agent_only(steps) =~= steps);
    }
}

pub struct ChainOptions {
    pub brief: String,
    pub allow_local_fallback: bool,
    /// The prefix of the cassettes that steps are recorded on.
    pub record: Option<String>,
    /// The prefix of the cassettes that steps are replayed from.
    pub replay: Option<String>,
    pub cassette_root: String,
    /// The step to stop after.
    pub stop_after: Option<String>,
}

/// Where a step's exchanges come from.
#[derive(Debug, PartialEq, Eq)]
pub enum StepMode {
    /// From the provider, recorded on this cassette.
    Record(String),
    /// From this cassette.
    Replay(String),
    /// From the provider.
    Live,
}

/// The cassette of a step.
pub open spec fn step_cassette(prefix: Seq<char>, id: Seq<char>) -> Seq<char> {
    prefix + "-"@ + id
}

/// Decides where a step's exchanges come from; recording goes before replaying.
pub fn step_mode(record: &Option<String>, replay: &Option<String>, id: &str) -> (r: StepMode)
    ensures
        match (*record, *replay) {
            (Some(prefix), _) => r matches StepMode::Record(name) && name@ == step_cassette(
                prefix@,
                id@,
            ),
            (None, Some(prefix)) => r matches StepMode::Replay(name) && name@ == step_cassette(
                prefix@,
                id@,
            ),
            (None, None) => r is Live,
        },
{
    match (record, replay) {
        (Some(prefix), _) => StepMode::Record(name_cassette(prefix.as_str(), id)),
        (None, Some(prefix)) => StepMode::Replay(name_cassette(prefix.as_str(), id)),
        (None, None) => StepMode::Live,
    }
}

fn name_cassette(prefix: &str, id: &str) -> (r: String)
    ensures
        r@ == step_cassette(prefix@, id@),
{
    let mut s = text::copy(prefix);
    s.append("-");
    s.append(id);
    s
}

/// The cassette that a step is replayed from. A step that makes no calls has
/// none: a missing cassette counts as an empty one, a broken one does not.
pub fn replay_cassette(loaded: Result<Cassette, String>, present: bool) -> (r: Result<
    Cassette,
    String,
>)
    ensures
        match loaded {
            Ok(c) => r == Ok::<Cassette, String>(c),
            Err(e) => if present {
                r == Err::<Cassette, String>(e)
            } else {
                r matches Ok(c) && c.interactions@.len() == 0 && c.version
                    == cassette::CASSETTE_VERSION && c.provider@.len() == 0 && c.model@.len() == 0
            },
        },
{
    match loaded {
        Ok(c) => Ok(c),
        Err(e) => if present {
            Err(e)
        } else {
            Ok(Cassette::new(String::new(), String::new()))
        },
    }
}

/// Whether a recording is to be kept: one with something on it, which must be
/// sound.
pub fn keep_recording(recorded: &Cassette) -> (r: Result<bool, String>)
    ensures
        recorded.interactions@.len() == 0 ==> r == Ok::<bool, String>(false),
        recorded.interactions@.len() > 0 ==> match r {
            Ok(kept) => kept && cassette::distinct_requests(recorded.interactions@),
            Err(m) => cassette::names_clash(recorded.interactions@, m@),
        },
        r is Err ==> !cassette::distinct_requests(recorded.interactions@),
{
    if recorded.interactions.len() == 0 {
        return Ok(false);
    }
    match cassette::verify(recorded) {
        Ok(_) => Ok(true),
        Err(m) => Err(m),
    }
}

/// The name of an executor in reports.
pub open spec fn executor_name(executor: pipeline::ExecutorView) -> Seq<char> {
    match executor {
        pipeline::ExecutorView::Agent => "agent"@,
        pipeline::ExecutorView::NamedAgent(name) => name,
        pipeline::ExecutorView::AssetQueue => "assetQueue"@,
    }
}

pub fn describe_executor(executor: &StepExecutor) -> (r: String)
    ensures
        r@ == executor_name(executor@),
{
    match executor {
        StepExecutor::Agent => text::copy("agent"),
        StepExecutor::NamedAgent(name) => name.clone(),
        StepExecutor::AssetQueue => text::copy("assetQueue"),
    }
}

/// How many of the first `n` edges are choices.
pub open spec fn choices(edges: Seq<BranchEdge>, n: int) -> nat
    decreases n,
{
    if n <= 0 {
        0
    } else {
        choices(edges, n - 1) + (if edges[n - 1].choice is Some {
            1nat
        } else {
            0
        })
    }
}

/// How many beats the first `n` drafts hold.
pub open spec fn beats(drafts: Seq<SceneDraft>, n: int) -> nat
    decreases n,
{
    if n <= 0 {
        0
    } else {
        beats(drafts, n - 1) + drafts[n - 1].beats@.len()
    }
}

/// How many lines the first `n` scripts hold.
pub open spec fn script_lines(scenes: Seq<SceneScript>, n: int) -> nat
    decreases n,
{
    if n <= 0 {
        0
    } else {
        script_lines(scenes, n - 1) + text::lines_of(scenes[n - 1].content@).len()
    }
}

/// What an output holds, in one line.
pub open spec fn summary(payload: AgentOutputPayload) -> Seq<char> {
    match payload {
        AgentOutputPayload::Synopsis(s) => "synopsis "@ + text::decimal(s@.len()) + " 字"@,
        AgentOutputPayload::Memory { worldbook, glossary } => "worldbook "@ + text::decimal(
            worldbook@.len(),
        ) + " 字, glossary "@ + text::decimal(glossary.entries().len()) + " 条"@,
        AgentOutputPayload::Outline { chapters, scene_plans, branches } => text::decimal(
            chapters@.len(),
        ) + " 章, "@ + text::decimal(scene_plans@.len()) + " 场景, "@ + text::decimal(
            branches.edges@.len(),
        ) + " 条边, "@ + text::decimal(
            choices(branches.edges@, branches.edges@.len() as int),
        ) + " 个选择"@,
        AgentOutputPayload::Characters(cards) => text::decimal(cards@.len()) + " 个角色"@,
        AgentOutputPayload::SceneDrafts(drafts) => text::decimal(drafts@.len())
            + " 份草稿, "@ + text::decimal(beats(drafts@, drafts@.len() as int))
            + " 条对白"@,
        AgentOutputPayload::AssetPlan(tasks) => text::decimal(tasks@.len())
            + " 个素材任务"@,
        AgentOutputPayload::Scenes(scenes) => text::decimal(scenes@.len())
            + " 个场景脚本, "@ + text::decimal(
            script_lines(scenes@, scenes@.len() as int),
        ) + " 行"@,
        AgentOutputPayload::AssetQueue(_) => "asset queue"@,
    }
}

fn append_number(s: &mut String, n: u128)
    ensures
        final(s)@ == old(s)@ + text::decimal(n as nat),
{
    let shown = text::decimal_of(n);
    s.append(shown.as_str());
}

fn count_choices(edges: &Vec<BranchEdge>) -> (r: usize)
    ensures
        r == choices(edges@, edges@.len() as int),
{
    let mut count: usize = 0;
    let mut i: usize = 0;
    while i < edges.len()
        invariant
            i <= edges.len(),
            count <= i,
            count == choices(edges@, i as int),
        decreases edges.len() - i,
    {
        if edges[i].choice.is_some() {
            count += 1;
        }
        i += 1;
    }
    count
}

fn count_beats(drafts: &Vec<SceneDraft>) -> (r: u128)
    ensures
        r == beats(drafts@, drafts@.len() as int),
{
    let mut count: u128 = 0;
    let mut i: usize = 0;
    while i < drafts.len()
        invariant
            i <= drafts.len(),
            count <= i * 0xffff_ffff_ffff_ffff,
            count == beats(drafts@, i as int),
        decreases drafts.len() - i,
    {
        let n = drafts[i].beats.len();
        assert(count + n <= (i + 1) * 0xffff_ffff_ffff_ffff);
        count += n as u128;
        i += 1;
    }
    count
}

fn count_lines(scenes: &Vec<SceneScript>) -> (r: u128)
    ensures
        r == script_lines(scenes@, scenes@.len() as int),
{
    let mut count: u128 = 0;
    let mut i: usize = 0;
    while i < scenes.len()
        invariant
            i <= scenes.len(),
            count <= i * 0xffff_ffff_ffff_ffff,
            count == script_lines(scenes@, i as int),
        decreases scenes.len() - i,
    {
        let lines = text::lines(scenes[i].content.as_str());
        assert(lines@.len() == text::texts(lines@).len());
        let n = lines.len();
        assert(count + n <= (i + 1) * 0xffff_ffff_ffff_ffff);
        count += n as u128;
        i += 1;
    }
    count
}

/// What an output holds, in one line.
pub fn summarize(payload: &AgentOutputPayload) -> (r: String)
    ensures
        r@ == summary(*payload),
{
    match payload {
        AgentOutputPayload::Synopsis(t) => {
            let chars = text::chars_of(t.as_str());
            let mut s = text::copy("synopsis ");
            append_number(&mut s, chars.len() as u128);
            s.append(" 字");
            s
        },
        AgentOutputPayload::Memory { worldbook, glossary } => {
            let chars = text::chars_of(worldbook.as_str());
            let mut s = text::copy("worldbook ");
            append_number(&mut s, chars.len() as u128);
            s.append(" 字, glossary ");
            append_number(&mut s, glossary.len() as u128);
            s.append(" 条");
            s
        },
        AgentOutputPayload::Outline { chapters, scene_plans, branches } => {
            let mut s = text::decimal_of(chapters.len() as u128);
            s.append(" 章, ");
            append_number(&mut s, scene_plans.len() as u128);
            s.append(" 场景, ");
            append_number(&mut s, branches.edges.len() as u128);
            s.append(" 条边, ");
            append_number(&mut s, count_choices(&branches.edges) as u128);
            s.append(" 个选择");
            s
        },
        AgentOutputPayload::Characters(cards) => {
            let mut s = text::decimal_of(cards.len() as u128);
            s.append(" 个角色");
            s
        },
        AgentOutputPayload::SceneDrafts(drafts) => {
            let mut s = text::decimal_of(drafts.len() as u128);
            s.append(" 份草稿, ");
            append_number(&mut s, count_beats(drafts));
            s.append(" 条对白");
            s
        },
        AgentOutputPayload::AssetPlan(tasks) => {
            let mut s = text::decimal_of(tasks.len() as u128);
            s.append(" 个素材任务");
            s
        },
        AgentOutputPayload::Scenes(scenes) => {
            let mut s = text::decimal_of(scenes.len() as u128);
            s.append(" 个场景脚本, ");
            append_number(&mut s, count_lines(scenes));
            s.append(" 行");
            s
        },
        AgentOutputPayload::AssetQueue(_) => text::copy("asset queue"),
    }
}

/// Whether a report says what came of a step: what the model counted and what
/// the output holds, or the first thing that went wrong.
pub open spec fn reports(
    r: StepReport,
    def: StepDef,
    elapsed_ms: u64,
    interactions: usize,
    result: Result<AgentOutput, AgentError>,
    contract: Result<(), String>,
) -> bool {
    &&& r.id@ == def.id@
    &&& r.kind@ == pipeline::kind_word(def.kind)
    &&& r.executor@ == executor_name(def.executor@)
    &&& r.elapsed_ms == elapsed_ms
    &&& r.interactions == interactions
    &&& match result {
        Ok(output) => {
            &&& story_plan::opt_text(r.model) == story_plan::opt_text(output.model)
            &&& r.prompt_tokens == output.prompt_tokens
            &&& r.completion_tokens == output.completion_tokens
            &&& text::texts(r.warnings@) == text::texts(output.warnings@)
            &&& story_plan::opt_text(r.downgrade) == story_plan::opt_text(output.downgrade)
            &&& match contract {
                Ok(_) => r.outcome matches Ok(s) && s@ == summary(output.payload),
                Err(e) => r.outcome matches Err(m) && m@ == e@,
            }
        },
        Err(e) => {
            &&& r.model is None
            &&& r.prompt_tokens is None
            &&& r.completion_tokens is None
            &&& r.warnings@.len() == 0
            &&& r.downgrade is None
            &&& r.outcome matches Err(m) && m@ == e.0@
        },
    }
}

/// Reports a step, from what its agent gave and whether the flow's contract
/// accepts it.
pub fn report_step(
    def: &StepDef,
    elapsed_ms: u64,
    interactions: usize,
    result: &Result<AgentOutput, AgentError>,
    contract: &Result<(), String>,
) -> (r: StepReport)
    ensures
        reports(r, *def, elapsed_ms, interactions, *result, *contract),
{
    let id = def.id.clone();
    let kind = def.kind.as_str();
    let executor = describe_executor(&def.executor);
    match result {
        Ok(output) => {
            let outcome: Result<String, String> = match contract {
                Ok(_) => Ok(summarize(&output.payload)),
                Err(e) => Err(e.clone()),
            };
            StepReport {
                id,
                kind,
                executor,
                elapsed_ms,
                model: story_plan::copy_opt(&output.model),
                prompt_tokens: output.prompt_tokens,
                completion_tokens: output.completion_tokens,
                interactions,
                warnings: text::copy_all(&output.warnings),
                downgrade: story_plan::copy_opt(&output.downgrade),
                outcome,
            }
        },
        Err(e) => StepReport {
            id,
            kind,
            executor,
            elapsed_ms,
            model: None,
            prompt_tokens: None,
            completion_tokens: None,
            interactions,
            warnings: Vec::new(),
            downgrade: None,
            outcome: Err(e.0.clone()),
        },
    }
}

/// Whether the chain goes on behind a step.
pub open spec fn goes_on(report: StepReport, stop_after: Option<String>) -> bool {
    report.outcome is Ok && story_plan::opt_text(stop_after) != Some(report.id@)
}

/// Decides whether the chain goes on behind a step: not behind one that failed,
/// nor behind the one to stop after.
pub fn continues(report: &StepReport, stop_after: &Option<String>) -> (r: bool)
    ensures
        r == goes_on(*report, *stop_after),
{
    match &report.outcome {
        Err(_) => false,
        Ok(_) => match stop_after {
            Some(id) => !text::same(id.as_str(), report.id.as_str()),
            None => true,
        },
    }
}

// ---------------------------------------------------------------------------
// The chain
// ---------------------------------------------------------------------------

/// What an agent's requests go to.
pub enum StepGateway {
    /// The provider, recorded for the cassette of this name.
    Recording(String),
    /// A cassette.
    Replaying(ReplayGateway),
    /// The provider.
    Live,
}

/// What a chain waits for; the number is that of the step.
pub enum ChainPhase {
    /// The cassette of this name is to be read.
    Loading(usize, String),
    /// The agent is to be run.
    Running(usize, StepGateway),
    /// The recording is to be written under this name, before anything is made of
    /// what the agent gave: it is the evidence for why a step failed.
    Saving(usize, String, Cassette, Result<AgentOutput, AgentError>),
    /// What the agent gave is to be held against the flow's contract. The second
    /// number is that of the exchanges.
    Judging(usize, usize, Result<AgentOutput, AgentError>),
    /// The output is to be taken over into the plan.
    Applying(usize, AgentOutput),
    /// It is over; with a fault, nothing is reported.
    Done(Result<(), String>),
}

/// What the caller reports.
pub enum ChainEvent {
    /// The cassette that was read, and whether there is one.
    Loaded(Result<Cassette, String>, bool),
    /// What the agent gave, and what was recorded of its exchanges.
    Ran(Result<AgentOutput, AgentError>, Cassette),
    Saved(Result<(), String>),
    /// Whether the contract accepts the output, and how long the step took.
    Judged(Result<(), String>, u64),
    /// The plan with the output taken over.
    Applied(StoryPlan),
}

pub struct ChainRun {
    pub brief: String,
    pub allow_local_fallback: bool,
    /// What the steps so far have left.
    pub plan: StoryPlan,
    pub defs: Vec<StepDef>,
    pub record: Option<String>,
    pub replay: Option<String>,
    pub stop_after: Option<String>,
    pub steps: Vec<StepReport>,
    pub phase: ChainPhase,
}

impl ChainRun {
    /// The step that the chain is at; the number of steps where it is over.
    pub open spec fn at(self) -> int {
        match self.phase {
            ChainPhase::Loading(i, _) => i as int,
            ChainPhase::Running(i, _) => i as int,
            ChainPhase::Saving(i, _, _, _) => i as int,
            ChainPhase::Judging(i, _, _) => i as int,
            ChainPhase::Applying(i, _) => i as int,
            ChainPhase::Done(_) => self.defs@.len() as int,
        }
    }

    /// Whether the step is one of the chain's, and reported once it is judged.
    pub open spec fn wf(self) -> bool {
        &&& !(self.phase is Done) ==> self.at() < self.defs@.len()
        &&& self.phase is Applying ==> self.steps@.len() > 0
    }

    /// Whether everything but the plan, the reports and the phase is that of another
    /// run.
    pub open spec fn same_chain(self, other: ChainRun) -> bool {
        &&& self.brief == other.brief
        &&& self.allow_local_fallback == other.allow_local_fallback
        &&& self.defs == other.defs
        &&& self.record == other.record
        &&& self.replay == other.replay
        &&& self.stop_after == other.stop_after
    }

    /// Whether the chain is at the start of this step: where its exchanges come
    /// from a cassette, that is to be read first. Behind the last it is over.
    pub open spec fn starts(self, i: int) -> bool {
        if i >= self.defs@.len() {
            self.phase == ChainPhase::Done(Ok(()))
        } else {
            let id = self.defs@[i].id@;
            match (self.record, self.replay) {
                (Some(prefix), _) => self.phase matches ChainPhase::Running(
                    k,
                    StepGateway::Recording(name),
                ) && k == i && name@ == step_cassette(prefix@, id),
                (None, Some(prefix)) => self.phase matches ChainPhase::Loading(k, name) && k == i
                    && name@ == step_cassette(prefix@, id),
                (None, None) => self.phase matches ChainPhase::Running(k, StepGateway::Live) && k
                    == i,
            }
        }
    }
}

/// Whether a chain goes over into another state on what the caller reports.
pub open spec fn chains(before: ChainRun, event: ChainEvent, after: ChainRun) -> bool {
    &&& after.same_chain(before)
    &&& after.plan == match (before.phase, event) {
        (ChainPhase::Applying(_, _), ChainEvent::Applied(plan)) => plan,
        _ => before.plan,
    }
    &&& match (before.phase, event) {
        (ChainPhase::Loading(i, name), ChainEvent::Loaded(loaded, present)) => {
            &&& after.steps == before.steps
            &&& match loaded {
                Ok(c) => after.phase == ChainPhase::Running(
                    i,
                    StepGateway::Replaying(ReplayGateway { cassette: c, name }),
                ),
                Err(e) => if present {
                    after.phase == ChainPhase::Done(Err(e))
                } else {
                    after.phase matches ChainPhase::Running(k, StepGateway::Replaying(gateway))
                        && k == i && gateway.name == name && gateway.cassette.interactions@.len()
                        == 0 && gateway.cassette.version == cassette::CASSETTE_VERSION
                        && gateway.cassette.provider@.len() == 0 && gateway.cassette.model@.len()
                        == 0
                },
            }
        },
        (ChainPhase::Running(i, gateway), ChainEvent::Ran(result, recorded)) => {
            &&& after.steps == before.steps
            &&& match gateway {
                StepGateway::Recording(name) => if recorded.interactions@.len() == 0 {
                    after.phase == ChainPhase::Judging(i, 0, result)
                } else if cassette::distinct_requests(recorded.interactions@) {
                    after.phase == ChainPhase::Saving(i, name, recorded, result)
                } else {
                    after.phase matches ChainPhase::Done(Err(m)) && cassette::names_clash(
                        recorded.interactions@,
                        m@,
                    )
                },
                StepGateway::Replaying(replay) => after.phase == ChainPhase::Judging(
                    i,
                    replay.cassette.interactions.len(),
                    result,
                ),
                StepGateway::Live => after.phase == ChainPhase::Judging(i, 0, result),
            }
        },
        (ChainPhase::Saving(i, _, recorded, result), ChainEvent::Saved(saved)) => {
            &&& after.steps == before.steps
            &&& match saved {
                Ok(_) => after.phase == ChainPhase::Judging(
                    i,
                    recorded.interactions.len(),
                    result,
                ),
                Err(e) => after.phase == ChainPhase::Done(Err(e)),
            }
        },
        (ChainPhase::Judging(i, interactions, result), ChainEvent::Judged(contract, elapsed_ms)) => {
            &&& after.steps@.len() == before.steps@.len() + 1
            &&& after.steps@.drop_last() == before.steps@
            &&& reports(
                after.steps@.last(),
                before.defs@[i as int],
                elapsed_ms,
                interactions,
                result,
                contract,
            )
            &&& match (result, contract) {
                (Ok(output), Ok(_)) => after.phase == ChainPhase::Applying(i, output),
                _ => after.phase == ChainPhase::Done(Ok(())),
            }
        },
        (ChainPhase::Applying(i, _), ChainEvent::Applied(_)) => {
            &&& after.steps == before.steps
            &&& if goes_on(before.steps@.last(), before.stop_after) {
                after.starts(i + 1)
            } else {
                after.phase == ChainPhase::Done(Ok(()))
            }
        },
        _ => after == before,
    }
}

/// Whether a plan holds nothing but its brief.
pub open spec fn blank_plan(plan: StoryPlan, brief: Seq<char>) -> bool {
    &&& plan.prompt@ == brief
    &&& plan.synopsis@.len() == 0
    &&& plan.memory.worldbook@.len() == 0
    &&& plan.memory.glossary@ == Map::<Seq<char>, String>::empty()
    &&& plan.chapters@.len() == 0
    &&& plan.characters@.len() == 0
    &&& plan.scene_plans@.len() == 0
    &&& plan.branches.entry_scene@.len() == 0
    &&& plan.branches.edges@.len() == 0
    &&& plan.scene_drafts@.len() == 0
    &&& plan.asset_plan@.len() == 0
}

fn start_step(
    defs: &Vec<StepDef>,
    record: &Option<String>,
    replay: &Option<String>,
    i: usize,
) -> (r: ChainPhase)
    ensures
        forall|run: ChainRun|
            run.defs == *defs && run.record == *record && run.replay == *replay && run.phase == r
                ==> #[trigger] run.starts(i as int),
        !(r is Done) ==> i < defs@.len(),
        !(r is Applying),
        r matches ChainPhase::Loading(k, _) ==> k == i,
        r matches ChainPhase::Running(k, _) ==> k == i,
        r is Loading || r is Running || r is Done,
{
    if i >= defs.len() {
        return ChainPhase::Done(Ok(()));
    }
    match step_mode(record, replay, defs[i].id.as_str()) {
        StepMode::Record(name) => ChainPhase::Running(i, StepGateway::Recording(name)),
        StepMode::Replay(name) => ChainPhase::Loading(i, name),
        StepMode::Live => ChainPhase::Running(i, StepGateway::Live),
    }
}

fn executed_steps() -> (r: Vec<StepDef>)
    ensures
        pipeline::step_views(r@) == pipeline::default_agent_steps(),
{
    let registry = AgentRegistry::with_defaults();
    let all = chain_steps();
    let ghost views = pipeline::step_views(all@);
    let mut out: Vec<StepDef> = Vec::new();
    assert(pipeline::step_views(out@) =~= views.take(0));
    for def in it: all
        invariant
            registry@ == crate::agents::default_agents(),
            views == pipeline::step_views(it.seq()),
            views == pipeline::default_agent_steps(),
            pipeline::step_views(out@) == views.take(it.index()),
    {
        proof {
            assert(views[it.index()] == def@);
            crate::agents::every_default_step_has_an_agent(it.index());
        }
        if registry.get(def.kind, &def.executor).is_some() {
            let ghost before = pipeline::step_views(out@);
            out.push(def);
            assert(pipeline::step_views(out@) =~= before.push(def@));
            assert(views.take(it.index() + 1) =~= before.push(def@));
        }
    }
    assert(views.take(views.len() as int) =~= views);
    out
}

/// Begins a chain: every step of the flow that an agent executes, in its order.
pub fn run(options: &ChainOptions) -> (r: ChainRun)
    ensures
        pipeline::step_views(r.defs@) == pipeline::default_agent_steps(),
        r.steps@.len() == 0,
        r.brief@ == options.brief@,
        r.allow_local_fallback == options.allow_local_fallback,
        blank_plan(r.plan, options.brief@),
        story_plan::opt_text(r.record) == story_plan::opt_text(options.record),
        story_plan::opt_text(r.replay) == story_plan::opt_text(options.replay),
        story_plan::opt_text(r.stop_after) == story_plan::opt_text(options.stop_after),
        r.starts(0),
        r.wf(),
{
    let defs = executed_steps();
    let record = story_plan::copy_opt(&options.record);
    let replay = story_plan::copy_opt(&options.replay);
    let stop_after = story_plan::copy_opt(&options.stop_after);
    let phase = start_step(&defs, &record, &replay, 0);
    ChainRun {
        brief: options.brief.clone(),
        allow_local_fallback: options.allow_local_fallback,
        plan: StoryPlan::new(options.brief.clone()),
        defs,
        record,
        replay,
        stop_after,
        steps: Vec::new(),
        phase,
    }
}

/// Takes a chain one step further.
pub fn advance(run: ChainRun, event: ChainEvent) -> (r: ChainRun)
    requires
        run.wf(),
    ensures
        chains(run, event, r),
        r.wf(),
{
    let ChainRun {
        brief,
        allow_local_fallback,
        plan,
        defs,
        record,
        replay,
        stop_after,
        steps,
        phase,
    } = run;
    let mut plan = plan;
    let mut steps = steps;
    let phase = match phase {
        ChainPhase::Loading(i, name) => match event {
            ChainEvent::Loaded(loaded, present) => match replay_cassette(loaded, present) {
                Ok(c) => ChainPhase::Running(
                    i,
                    StepGateway::Replaying(ReplayGateway::new(c, name)),
                ),
                Err(e) => ChainPhase::Done(Err(e)),
            },
            _ => ChainPhase::Loading(i, name),
        },
        ChainPhase::Running(i, gateway) => match event {
            ChainEvent::Ran(result, recorded) => match gateway {
                StepGateway::Recording(name) => match keep_recording(&recorded) {
                    Ok(true) => ChainPhase::Saving(i, name, recorded, result),
                    Ok(false) => ChainPhase::Judging(i, 0, result),
                    Err(m) => ChainPhase::Done(Err(m)),
                },
                StepGateway::Replaying(replay) => ChainPhase::Judging(
                    i,
                    replay.cassette.interactions.len(),
                    result,
                ),
                StepGateway::Live => ChainPhase::Judging(i, 0, result),
            },
            _ => ChainPhase::Running(i, gateway),
        },
        ChainPhase::Saving(i, name, recorded, result) => match event {
            ChainEvent::Saved(saved) => match saved {
                Ok(_) => ChainPhase::Judging(i, recorded.interactions.len(), result),
                Err(e) => ChainPhase::Done(Err(e)),
            },
            _ => ChainPhase::Saving(i, name, recorded, result),
        },
        ChainPhase::Judging(i, interactions, result) => match event {
            ChainEvent::Judged(contract, elapsed_ms) => {
                let report = report_step(&defs[i], elapsed_ms, interactions, &result, &contract);
                let ghost before = steps@;
                steps.push(report);
                assert(steps@.drop_last() =~= before);
                match result {
                    Ok(output) => match contract {
                        Ok(_) => ChainPhase::Applying(i, output),
                        Err(_) => ChainPhase::Done(Ok(())),
                    },
                    Err(_) => ChainPhase::Done(Ok(())),
                }
            },
            _ => ChainPhase::Judging(i, interactions, result),
        },
        ChainPhase::Applying(i, output) => match event {
            ChainEvent::Applied(left) => {
                plan = left;
                if continues(&steps[steps.len() - 1], &stop_after) {
                    let n = defs.len();
                    assert(i < n);
                    start_step(&defs, &record, &replay, i + 1)
                } else {
                    ChainPhase::Done(Ok(()))
                }
            },
            _ => ChainPhase::Applying(i, output),
        },
        ChainPhase::Done(r) => ChainPhase::Done(r),
    };
    ChainRun { brief, allow_local_fallback, plan, defs, record, replay, stop_after, steps, phase }
}

/// Whether a context is that of a step: its own instruction, on the chain's brief and
/// on what the steps before it have left.
pub open spec fn context_of(ctx: AgentContext, run: ChainRun, i: int) -> bool {
    &&& ctx.prompt@ == run.brief@
    &&& ctx.instruction@ == run.defs@[i].prompt@
    &&& ctx.synopsis@ == run.plan.synopsis@
    &&& ctx.chapters@ == run.plan.chapters@
    &&& ctx.worldbook@ == run.plan.memory.worldbook@
    &&& *ctx.glossary == run.plan.memory.glossary
    &&& ctx.characters@ == run.plan.characters@
    &&& ctx.scene_plans@ == run.plan.scene_plans@
    &&& *ctx.branches == run.plan.branches
    &&& ctx.scene_drafts@ == run.plan.scene_drafts@
    &&& ctx.asset_plan@ == run.plan.asset_plan@
    &&& ctx.allow_local_fallback == run.allow_local_fallback
}

impl ChainRun {
    /// What the agent of the step that is to be run gets.
    pub fn context<'a>(&'a self) -> (r: Option<AgentContext<'a>>)
        requires
            self.wf(),
        ensures
            match self.phase {
                ChainPhase::Running(i, _) => r matches Some(ctx) && context_of(
                    ctx,
                    *self,
                    i as int,
                ),
                _ => r is None,
            },
    {
        match &self.phase {
            ChainPhase::Running(i, _) => Some(
                AgentContext {
                    prompt: self.brief.as_str(),
                    instruction: self.defs[*i].prompt.as_str(),
                    synopsis: self.plan.synopsis.as_str(),
                    chapters: self.plan.chapters.as_slice(),
                    worldbook: self.plan.memory.worldbook.as_str(),
                    glossary: &self.plan.memory.glossary,
                    characters: self.plan.characters.as_slice(),
                    scene_plans: self.plan.scene_plans.as_slice(),
                    branches: &self.plan.branches,
                    scene_drafts: self.plan.scene_drafts.as_slice(),
                    asset_plan: self.plan.asset_plan.as_slice(),
                    allow_local_fallback: self.allow_local_fallback,
                },
            ),
            _ => None,
        }
    }
}

/// What a chain that is over has come to: its reports and the plan that its steps
/// have left, or its own fault.
pub fn finish(run: ChainRun) -> (r: Result<ChainReport, String>)
    requires
        run.phase is Done,
    ensures
        match run.phase {
            ChainPhase::Done(Err(e)) => r matches Err(m) && m == e,
            _ => r matches Ok(report) && report.steps == run.steps && report.plan == run.plan,
        },
{
    match run.phase {
        ChainPhase::Done(Err(e)) => Err(e),
        _ => Ok(ChainReport { steps: run.steps, plan: run.plan }),
    }
}

// ---------------------------------------------------------------------------
// Laws
// ---------------------------------------------------------------------------

/// What holds of a chain in every state: the reports are those of its first
/// steps, in their order, and none but the last of them failed or was the one to
/// stop after. A chain that is over has reported every step, unless the last one
/// it reported failed or was the one to stop after; one that is at a step, or
/// ended in a fault of its own, has reported no such step.
pub open spec fn in_order(run: ChainRun) -> bool {
    &&& run.steps@.len() <= run.defs@.len()
    &&& forall|k: int|
        0 <= k < run.steps@.len() ==> (#[trigger] run.steps@[k]).id@ == run.defs@[k].id@
    &&& forall|k: int|
        0 <= k < run.steps@.len() - 1 ==> goes_on(#[trigger] run.steps@[k], run.stop_after)
    &&& match run.phase {
        ChainPhase::Done(Ok(_)) => run.steps@.len() == run.defs@.len() || (run.steps@.len() > 0
            && !goes_on(run.steps@.last(), run.stop_after)),
        ChainPhase::Done(Err(_)) => forall|k: int|
            0 <= k < run.steps@.len() ==> goes_on(#[trigger] run.steps@[k], run.stop_after),
        ChainPhase::Applying(i, _) => run.steps@.len() == i + 1 && i < run.defs@.len()
            && run.steps@[i as int].outcome is Ok,
        _ => run.steps@.len() == run.at() && run.at() < run.defs@.len() && forall|k: int|
            0 <= k < run.steps@.len() ==> goes_on(#[trigger] run.steps@[k], run.stop_after),
    }
}

proof fn lemma_in_order(before: ChainRun, event: ChainEvent, after: ChainRun)
    requires
        in_order(before),
        chains(before, event, after),
    ensures
        in_order(after),
{
    match (before.phase, event) {
        (ChainPhase::Judging(i, _, _), ChainEvent::Judged(_, _)) => {
            assert forall|k: int| 0 <= k < before.steps@.len() implies after.steps@[k]
                == before.steps@[k] by {
                assert(after.steps@.drop_last()[k] == before.steps@[k]);
            }
            assert forall|k: int| 0 <= k < after.steps@.len() implies (#[trigger] after.steps@[k]).id@
                == after.defs@[k].id@ by {
                if k < before.steps@.len() {
                    assert(after.steps@[k] == before.steps@[k]);
                }
            }
            assert forall|k: int| 0 <= k < after.steps@.len() - 1 implies goes_on(
                #[trigger] after.steps@[k],
                after.stop_after,
            ) by {
                assert(after.steps@[k] == before.steps@[k]);
            }
        },
        (ChainPhase::Applying(i, _), ChainEvent::Applied(_)) => {
            assert(before.steps@.last() == before.steps@[i as int]);
        },
        _ => {},
    }
}

/// A chain reports its steps in the order of the flow and stops at the first
/// failure: every step that it reports but the last one passed, and is not the
/// one to stop after. Nor does it stop before: once it is over, every step of the
/// flow is reported, unless the last one reported failed or is the one to stop
/// after.
pub proof fn chains_stop_at_the_first_failure(runs: Seq<ChainRun>, events: Seq<ChainEvent>, k: int)
    requires
        runs.len() == events.len() + 1,
        runs[0].starts(0) && runs[0].steps@.len() == 0,
        forall|j: int|
            0 <= j < events.len() ==> chains(runs[j], #[trigger] events[j], runs[j + 1]),
        0 <= k < runs.len(),
    ensures
        in_order(runs[k]),
    decreases k,
{
    if k > 0 {
        chains_stop_at_the_first_failure(runs, events, k - 1);
        assert(chains(runs[k - 1], events[k - 1], runs[k]));
        lemma_in_order(runs[k - 1], events[k - 1], runs[k]);
    }
}

/// Whether a chain that records gets its exchanges from the provider.
pub open spec fn records_only(run: ChainRun) -> bool {
    run.record is Some ==> match run.phase {
        ChainPhase::Loading(_, _) => false,
        ChainPhase::Running(_, gateway) => gateway is Recording,
        _ => true,
    }
}

/// A recording is kept before anything is reported of its step: while a chain
/// records, a step with exchanges is judged only once its recording was written.
pub proof fn recordings_are_kept_first(
    runs: Seq<ChainRun>,
    events: Seq<ChainEvent>,
    k: int,
)
    requires
        runs.len() == events.len() + 1,
        runs[0].starts(0),
        runs[0].record is Some,
        forall|j: int|
            0 <= j < events.len() ==> chains(runs[j], #[trigger] events[j], runs[j + 1]),
        0 <= k < events.len(),
    ensures
        records_only(runs[k]) && runs[k].record is Some,
        runs[k + 1].phase matches ChainPhase::Judging(_, n, _) && n > 0 ==> runs[k + 1] == runs[k]
            || (runs[k].phase is Saving && events[k] matches ChainEvent::Saved(Ok(_))),
    decreases k,
{
    if k > 0 {
        recordings_are_kept_first(runs, events, k - 1);
        assert(chains(runs[k - 1], events[k - 1], runs[k]));
    }
    assert(chains(runs[k], events[k], runs[k + 1]));
}

/// How many steps have left something in a chain's plan: those that passed and whose
/// output was taken over.
pub open spec fn taken_over(run: ChainRun) -> int {
    match run.phase {
        ChainPhase::Done(_) => if run.steps@.len() > 0 && run.steps@.last().outcome is Err {
            run.steps@.len() - 1
        } else {
            run.steps@.len() as int
        },
        _ => run.at(),
    }
}

/// Whether the output of a step was taken over at this point, and has left this plan.
pub open spec fn leaves(run: ChainRun, event: ChainEvent, i: int, plan: StoryPlan) -> bool {
    &&& run.phase matches ChainPhase::Applying(k, _) && k == i
    &&& event matches ChainEvent::Applied(left) && left == plan
}

/// Every step runs on the plan that its predecessors have left: the plan of a chain is
/// the one that taking over the output of the last step that passed has given, and the
/// first step's is the blank one. So is the plan that a chain which is over reports.
pub proof fn steps_run_on_what_was_left(runs: Seq<ChainRun>, events: Seq<ChainEvent>, k: int)
    requires
        runs.len() == events.len() + 1,
        runs[0].starts(0) && runs[0].steps@.len() == 0,
        forall|j: int|
            0 <= j < events.len() ==> chains(runs[j], #[trigger] events[j], runs[j + 1]),
        0 <= k < runs.len(),
    ensures
        taken_over(runs[k]) >= 0,
        taken_over(runs[k]) == 0 ==> runs[k].plan == runs[0].plan,
        taken_over(runs[k]) > 0 ==> exists|j: int|
            0 <= j < k && leaves(
                runs[j],
                #[trigger] events[j],
                taken_over(runs[k]) - 1,
                runs[k].plan,
            ),
    decreases k,
{
    chains_stop_at_the_first_failure(runs, events, k);
    if k > 0 {
        steps_run_on_what_was_left(runs, events, k - 1);
        chains_stop_at_the_first_failure(runs, events, k - 1);
        let before = runs[k - 1];
        let event = events[k - 1];
        assert(chains(before, event, runs[k]));
        match (before.phase, event) {
            (ChainPhase::Applying(i, _), ChainEvent::Applied(plan)) => {
                assert(before.steps@.last() == before.steps@[i as int]);
                assert(leaves(before, events[k - 1], taken_over(runs[k]) - 1, runs[k].plan));
            },
            _ => {
                assert(runs[k].plan == before.plan);
                if before.steps@.len() > 0 {
                    assert(before.steps@.last() == before.steps@[before.steps@.len() - 1]);
                }
                assert(taken_over(runs[k]) == taken_over(before));
                if taken_over(before) > 0 {
                    let j = choose|j: int|
                        0 <= j < k - 1 && leaves(
                            runs[j],
                            #[trigger] events[j],
                            taken_over(before) - 1,
                            before.plan,
                        );
                    assert(leaves(runs[j], events[j], taken_over(runs[k]) - 1, runs[k].plan));
                }
            },
        }
    }
}

/// Choices, beats and lines are counted over all edges, drafts and scripts: nothing gives none, and
/// one more adds its own.
pub proof fn counts_add_up(
    edges: Seq<BranchEdge>,
    drafts: Seq<SceneDraft>,
    scenes: Seq<SceneScript>,
    n: int,
)
    requires
        0 <= n,
    ensures
        choices(edges, 0) == 0 && beats(drafts, 0) == 0 && script_lines(scenes, 0) == 0,
        n < edges.len() ==> choices(edges, n + 1) - choices(edges, n) == (if edges[n].choice
            is Some {
            1int
        } else {
            0
        }),
        n < drafts.len() ==> beats(drafts, n + 1) - beats(drafts, n) == drafts[n].beats@.len(),
        n < scenes.len() ==> script_lines(scenes, n + 1) - script_lines(scenes, n)
            == text::lines_of(scenes[n].content@).len(),
        (forall|i: int| 0 <= i < n ==> (#[trigger] edges[i]).choice is None) ==> choices(edges, n)
            == 0,
        choices(edges, n) <= n,
    decreases n,
{
    if n > 0 {
        counts_add_up(edges, drafts, scenes, n - 1);
    }
}

/// The summary of an output counts what it holds.
pub proof fn summaries_count_what_was_made(payload: AgentOutputPayload)
    ensures
        match payload {
            AgentOutputPayload::Synopsis(s) => summary(payload) == "synopsis "@ + text::decimal(
                s@.len(),
            ) + " 字"@,
            AgentOutputPayload::Memory { worldbook, glossary } => summary(payload) == "worldbook "@
                + text::decimal(worldbook@.len()) + " 字, glossary "@ + text::decimal(
                glossary.entries().len(),
            ) + " 条"@,
            AgentOutputPayload::Outline { chapters, scene_plans, branches } => summary(payload)
                == text::decimal(chapters@.len()) + " 章, "@ + text::decimal(scene_plans@.len())
                + " 场景, "@ + text::decimal(branches.edges@.len()) + " 条边, "@ + text::decimal(
                choices(branches.edges@, branches.edges@.len() as int),
            ) + " 个选择"@,
            AgentOutputPayload::Characters(cards) => summary(payload) == text::decimal(cards@.len())
                + " 个角色"@,
            AgentOutputPayload::SceneDrafts(drafts) => summary(payload) == text::decimal(
                drafts@.len(),
            ) + " 份草稿, "@ + text::decimal(beats(drafts@, drafts@.len() as int))
                + " 条对白"@,
            AgentOutputPayload::AssetPlan(tasks) => summary(payload) == text::decimal(tasks@.len())
                + " 个素材任务"@,
            AgentOutputPayload::Scenes(scenes) => summary(payload) == text::decimal(scenes@.len())
                + " 个场景脚本, "@ + text::decimal(
                script_lines(scenes@, scenes@.len() as int),
            ) + " 行"@,
            AgentOutputPayload::AssetQueue(_) => summary(payload) == "asset queue"@,
        },
{
}

/// A step passes exactly where its agent answered and the answer keeps the contract; it is reported
/// with what the answer says of itself, and a step that failed with the failure alone.
pub proof fn steps_pass_where_their_answer_keeps_the_contract(
    r: StepReport,
    def: StepDef,
    elapsed_ms: u64,
    interactions: usize,
    result: Result<AgentOutput, AgentError>,
    contract: Result<(), String>,
)
    requires
        reports(r, def, elapsed_ms, interactions, result, contract),
    ensures
        r.id@ == def.id@,
        r.kind@ == pipeline::kind_word(def.kind),
        r.elapsed_ms == elapsed_ms,
        r.interactions == interactions,
        r.outcome is Ok <==> result is Ok && contract is Ok,
        r.outcome is Ok ==> r.outcome->Ok_0@ == summary(result->Ok_0.payload),
        result is Err ==> r.outcome->Err_0@ == result->Err_0.0@ && r.model is None
            && r.prompt_tokens is None && r.completion_tokens is None && r.warnings@.len() == 0
            && r.downgrade is None,
        result is Ok && contract is Err ==> r.outcome->Err_0@ == contract->Err_0@,
        result is Ok ==> r.prompt_tokens == result->Ok_0.prompt_tokens && r.completion_tokens
            == result->Ok_0.completion_tokens && text::texts(r.warnings@) == text::texts(
            result->Ok_0.warnings@,
        ) && (r.model is Some <==> result->Ok_0.model is Some) && (r.model is Some ==> r.model->0@
            == result->Ok_0.model->0@) && (r.downgrade is Some <==> result->Ok_0.downgrade is Some)
            && (r.downgrade is Some ==> r.downgrade->0@ == result->Ok_0.downgrade->0@),
        match def.executor@ {
            pipeline::ExecutorView::Agent => r.executor@ == "agent"@,
            pipeline::ExecutorView::NamedAgent(name) => r.executor@ == name,
            pipeline::ExecutorView::AssetQueue => r.executor@ == "assetQueue"@,
        },
{
}

/// A chain goes on after a step that passed, unless it was to stop after it.
pub proof fn chains_go_on_after_success(report: StepReport, stop_after: Option<String>)
    ensures
        goes_on(report, stop_after) <==> report.outcome is Ok && (stop_after is Some
            ==> stop_after->0@ != report.id@),
{
}

/// Every step of a chain has a cassette of its own, named after the chain's and the step: the one it
/// records to, or else the one it replays.
pub proof fn steps_have_cassettes_of_their_own(run: ChainRun, i: int)
    requires
        0 <= i < run.defs@.len(),
        run.starts(i),
    ensures
        run.record is Some ==> run.phase is Running && run.phase->Running_0 == i
            && run.phase->Running_1 is Recording && run.phase->Running_1->Recording_0@
            == run.record->0@ + "-"@ + run.defs@[i].id@,
        run.record is None && run.replay is Some ==> run.phase is Loading && run.phase->Loading_0
            == i && run.phase->Loading_1@ == run.replay->0@ + "-"@ + run.defs@[i].id@,
        run.record is None && run.replay is None ==> run.phase == ChainPhase::Running(
            i as usize,
            StepGateway::Live,
        ),
{
}

proof fn lemma_kept_steps(steps: Seq<pipeline::StepView>) -> (at: Seq<int>)
    ensures
        at.len() == agent_only(steps).len(),
        forall|i: int|
            0 <= i < at.len() ==> 0 <= #[trigger] at[i] < steps.len() && agent_only(steps)[i]
                == steps[at[i]] && !(steps[at[i]].executor is AssetQueue),
        forall|i: int, j: int| 0 <= i < j < at.len() ==> #[trigger] at[i] < #[trigger] at[j],
        forall|k: int|
            0 <= k < steps.len() && !((#[trigger] steps[k]).executor is AssetQueue) ==> at.contains(
                k,
            ),
    decreases steps.len(),
{
    if steps.len() == 0 {
        Seq::empty()
    } else {
        let t = steps.drop_last();
        let n = t.len() as int;
        let before = lemma_kept_steps(t);
        assert forall|k: int|
            0 <= k < n && !((#[trigger] steps[k]).executor is AssetQueue) implies before.contains(
            k,
        ) by {
            assert(t[k] == steps[k]);
        }
        if steps.last().executor is AssetQueue {
            before
        } else {
            let at = before.push(n);
            assert forall|k: int|
                0 <= k < steps.len() && !((#[trigger] steps[k]).executor
                    is AssetQueue) implies at.contains(k) by {
                if k < n {
                    let i = choose|i: int| 0 <= i < before.len() && before[i] == k;
                    assert(at[i] == k);
                } else {
                    assert(at[before.len() as int] == k);
                }
            }
            at
        }
    }
}

/// Of a recipe a chain runs the steps that are agents', in their order, and no other.
pub proof fn chains_run_the_steps_of_agents(steps: Seq<pipeline::StepView>) -> (at: Seq<int>)
    ensures
        at.len() == agent_only(steps).len(),
        forall|i: int|
            0 <= i < at.len() ==> 0 <= #[trigger] at[i] < steps.len() && agent_only(steps)[i]
                == steps[at[i]] && !(steps[at[i]].executor is AssetQueue),
        forall|i: int, j: int| 0 <= i < j < at.len() ==> #[trigger] at[i] < #[trigger] at[j],
        forall|k: int|
            0 <= k < steps.len() && !((#[trigger] steps[k]).executor is AssetQueue) ==> at.contains(
                k,
            ),
{
    lemma_kept_steps(steps)
}

/// A step runs in the context of the chain's brief and of the plan as it stands.
pub proof fn steps_run_in_the_context_of_the_plan(ctx: AgentContext, run: ChainRun, i: int)
    requires
        context_of(ctx, run, i),
    ensures
        ctx.prompt@ == run.brief@,
        ctx.instruction@ == run.defs@[i].prompt@,
        ctx.synopsis@ == run.plan.synopsis@,
        ctx.chapters@ == run.plan.chapters@,
        ctx.worldbook@ == run.plan.memory.worldbook@,
        *ctx.glossary == run.plan.memory.glossary,
        ctx.characters@ == run.plan.characters@,
        ctx.scene_plans@ == run.plan.scene_plans@,
        *ctx.branches == run.plan.branches,
        ctx.scene_drafts@ == run.plan.scene_drafts@,
        ctx.asset_plan@ == run.plan.asset_plan@,
        ctx.allow_local_fallback == run.allow_local_fallback,
{
}

/// A step that ran is saved before it is judged where it recorded anything, judged with the number of
/// its interactions, applied where it passed, and the chain then turns to the next step; a failed
/// step, a cassette that cannot be read and a recording that cannot be kept end it.
pub proof fn chains_take_their_steps_in_turn(before: ChainRun, event: ChainEvent, after: ChainRun)
    requires
        before.wf(),
        chains(before, event, after),
    ensures
        before.phase is Loading && event is Loaded && event->Loaded_0 is Ok ==> after.phase is Running
            && after.phase->Running_0 == before.phase->Loading_0 && after.phase->Running_1
            is Replaying && after.phase->Running_1->Replaying_0.cassette == event->Loaded_0->Ok_0,
        before.phase is Loading && event is Loaded && event->Loaded_0 is Err && event->Loaded_1
            ==> after.phase == ChainPhase::Done(Err(event->Loaded_0->Err_0)),
        before.phase is Running && event is Ran && before.phase->Running_1 is Live ==> after.phase
            == ChainPhase::Judging(before.phase->Running_0, 0, event->Ran_0),
        before.phase is Running && event is Ran && before.phase->Running_1 is Recording
            && event->Ran_1.interactions@.len() > 0 && cassette::distinct_requests(
            event->Ran_1.interactions@,
        ) ==> after.phase == ChainPhase::Saving(
            before.phase->Running_0,
            before.phase->Running_1->Recording_0,
            event->Ran_1,
            event->Ran_0,
        ),
        before.phase is Saving && event is Saved && event->Saved_0 is Ok ==> after.phase
            == ChainPhase::Judging(
            before.phase->Saving_0,
            before.phase->Saving_2.interactions.len(),
            before.phase->Saving_3,
        ),
        before.phase is Saving && event is Saved && event->Saved_0 is Err ==> after.phase
            == ChainPhase::Done(Err(event->Saved_0->Err_0)),
        before.phase is Judging && event is Judged ==> after.steps@.len() == before.steps@.len() + 1
            && (forall|k: int|
            0 <= k < before.steps@.len() ==> #[trigger] after.steps@[k] == before.steps@[k]) && (
        after.phase is Applying <==> before.phase->Judging_2 is Ok && event->Judged_0 is Ok) && (
        after.phase is Applying || after.phase == ChainPhase::Done(Ok(()))),
        before.phase is Applying && event is Applied ==> after.plan == event->Applied_0
            && after.steps == before.steps,
        before.phase is Applying && event is Applied && before.steps@.last().outcome is Ok
            && before.stop_after is None ==> after.starts(before.phase->Applying_0 + 1),
        !(before.phase is Applying && event is Applied) ==> after.plan == before.plan,
{
    if before.phase is Judging && event is Judged {
        assert forall|k: int| 0 <= k < before.steps@.len() implies #[trigger] after.steps@[k]
            == before.steps@[k] by {
            assert(after.steps@.drop_last()[k] == before.steps@[k]);
        }
    }
}

/// A chain begins with a plan that holds its brief and nothing else, and keeps what it was told to do
/// throughout.
pub proof fn chains_begin_with_the_brief_alone(
    plan: StoryPlan,
    brief: Seq<char>,
    before: ChainRun,
    event: ChainEvent,
    after: ChainRun,
)
    ensures
        blank_plan(plan, brief) ==> plan.prompt@ == brief && plan.synopsis@ == Seq::<char>::empty()
            && plan.memory.worldbook@ == Seq::<char>::empty() && plan.memory.glossary@
            == Map::<Seq<char>, String>::empty() && plan.chapters@.len() == 0
            && plan.characters@.len() == 0 && plan.scene_plans@.len() == 0
            && plan.branches.entry_scene@ == Seq::<char>::empty() && plan.branches.edges@.len() == 0
            && plan.scene_drafts@.len() == 0 && plan.asset_plan@.len() == 0,
        chains(before, event, after) ==> after.brief == before.brief && after.defs == before.defs
            && after.record == before.record && after.replay == before.replay && after.stop_after
            == before.stop_after && after.allow_local_fallback == before.allow_local_fallback,
{
    if blank_plan(plan, brief) {
        assert(plan.synopsis@ =~= Seq::<char>::empty());
        assert(plan.memory.worldbook@ =~= Seq::<char>::empty());
        assert(plan.branches.entry_scene@ =~= Seq::<char>::empty());
    }
}

} // verus!
