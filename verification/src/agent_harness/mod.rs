//! A driver of the agents without the application around them.
pub mod cassette;
pub mod chain;
pub mod cli;
pub mod gateway;
pub mod render;
pub mod scenario;

use vstd::prelude::*;

use crate::agents::router;
use crate::agents::AgentError;
use crate::agent_harness::chain::ChainReport;
use crate::agent_harness::cli::{AgentArgs, ChainArgs, GlobalArgs, ProbeArgs};
use crate::ai::config::AiConfig;
use crate::ai::gateway::types::GeneratedMedia;
use crate::codec;
use crate::story_plan;
use crate::story_plan::StoryPlan;
use crate::text;

verus! {

broadcast use vstd::string::group_string_axioms;

/// A text, unless there is nothing in it.
pub fn non_empty<'a>(value: &'a str) -> (r: Option<&'a str>)
    ensures
        match r {
            Some(s) => !text::blank(value@) && s@ == value@,
            None => text::blank(value@),
        },
{
    if text::is_blank(value) {
        None
    } else {
        Some(value)
    }
}

/// A text, or what is given in its place.
pub open spec fn given_or(value: Option<String>, other: Seq<char>) -> Seq<char> {
    match value {
        Some(s) => s@,
        None => other,
    }
}

/// The key that a probe uses, if it has one of its own: that of the command, or
/// else that of the environment.
pub open spec fn probe_key(args: ProbeArgs, environment: Option<String>) -> Option<Seq<char>> {
    match args.api_key {
        Some(k) => Some(k@),
        None => story_plan::opt_text(environment),
    }
}

/// The configuration that a probe uses, and whether it is any other than the one
/// that is saved.
pub fn overridden_config(config: AiConfig, args: &ProbeArgs, environment: &Option<String>) -> (r: (
    AiConfig,
    bool,
))
    ensures
        r.0.provider@ == given_or(args.provider, config.provider@),
        r.0.model@ == given_or(args.model, config.model@),
        r.0.base_url@ == given_or(args.base_url, config.base_url@),
        r.0.api_key@ == (match probe_key(*args, *environment) {
            Some(k) => k,
            None => config.api_key@,
        }),
        r.0.capabilities == config.capabilities,
        r.1 == (args.provider is Some || args.model is Some || args.base_url is Some || probe_key(
            *args,
            *environment,
        ) is Some),
        !r.1 ==> r.0@ == config@,
{
    let mut overridden = false;
    let mut result = config;
    match &args.provider {
        Some(provider) => {
            result.provider = provider.clone();
            overridden = true;
        },
        None => {},
    }
    match &args.model {
        Some(model) => {
            result.model = model.clone();
            overridden = true;
        },
        None => {},
    }
    match &args.base_url {
        Some(base_url) => {
            result.base_url = base_url.clone();
            overridden = true;
        },
        None => {},
    }
    match &args.api_key {
        Some(key) => {
            result.api_key = key.clone();
            overridden = true;
        },
        None => match environment {
            Some(key) => {
                result.api_key = key.clone();
                overridden = true;
            },
            None => {},
        },
    }
    (result, overridden)
}

/// Whether a probe has failed: the configuration was refused, or the provider
/// did not answer.
pub fn probe_failed(validation_ok: bool, round_trip: &Option<Result<(), String>>) -> (r: bool)
    ensures
        r == (!validation_ok || (*round_trip matches Some(Err(_)))),
{
    if !validation_ok {
        return true;
    }
    match round_trip {
        Some(Err(_)) => true,
        Some(Ok(_)) => false,
        None => false,
    }
}

/// What comes of a call that ran with another configuration: the call's own
/// error goes before that of putting the saved one back.
pub fn with_config<T>(result: Result<T, String>, restored: Result<(), String>) -> (r: Result<
    T,
    String,
>)
    ensures
        match (result, restored) {
            (Err(e), _) => r == Err::<T, String>(e),
            (Ok(_), Err(e)) => r == Err::<T, String>(e),
            (Ok(v), Ok(_)) => r == Ok::<T, String>(v),
        },
{
    match result {
        Err(e) => Err(e),
        Ok(v) => match restored {
            Ok(_) => Ok(v),
            Err(e) => Err(e),
        },
    }
}

/// Where an agent's story plan comes from.
#[derive(Debug, PartialEq, Eq)]
pub enum PlanSource {
    Project(String),
    File(String),
}

/// Decides where the story plan comes from.
pub fn plan_source(args: &AgentArgs) -> (r: Result<PlanSource, String>)
    ensures
        match (args.project, args.scenario) {
            (Some(p), _) => r matches Ok(PlanSource::Project(dir)) && dir@ == p@,
            (None, Some(f)) => r matches Ok(PlanSource::File(path)) && path@ == f@,
            (None, None) => r matches Err(m) && m@
                == "pass --project <dir> or --scenario <file> to supply a StoryPlan"@,
        },
{
    match (&args.project, &args.scenario) {
        (Some(project), _) => Ok(PlanSource::Project(project.clone())),
        (None, Some(file)) => Ok(PlanSource::File(file.clone())),
        (None, None) => Err(
            text::copy("pass --project <dir> or --scenario <file> to supply a StoryPlan"),
        ),
    }
}

/// The brief of an agent's run: the one that is given, that of the story plan, or
/// its synopsis.
pub fn choose_brief(brief: &Option<String>, plan: &StoryPlan) -> (r: String)
    ensures
        r@ == (match *brief {
            Some(b) => b@,
            None => if text::blank(plan.prompt@) {
                plan.synopsis@
            } else {
                plan.prompt@
            },
        }),
{
    match brief {
        Some(b) => b.clone(),
        None => match non_empty(plan.prompt.as_str()) {
            Some(prompt) => text::copy(prompt),
            None => plan.synopsis.clone(),
        },
    }
}

/// What a chain's brief is.
#[derive(Debug, PartialEq, Eq)]
pub enum BriefSource {
    /// This text.
    Given(String),
    /// The text of this file.
    File(String),
    /// The brief that goes with the driver, which puts every agent to work.
    Coverage,
}

/// Decides what a chain's brief is: the one that is given goes before that of a
/// file, and that before the one that goes with the driver.
pub fn brief_source(args: &ChainArgs) -> (r: BriefSource)
    ensures
        match (args.brief, args.brief_file) {
            (Some(b), _) => r matches BriefSource::Given(s) && s@ == b@,
            (None, Some(f)) => r matches BriefSource::File(path) && path@ == f@,
            (None, None) => r is Coverage,
        },
{
    match (&args.brief, &args.brief_file) {
        (Some(brief), _) => BriefSource::Given(brief.clone()),
        (None, Some(path)) => BriefSource::File(path.clone()),
        (None, None) => BriefSource::Coverage,
    }
}

/// A chain's brief, from where it comes, what was read of its file, and the brief
/// that goes with the driver.
pub fn chain_brief(
    source: BriefSource,
    read: Result<String, String>,
    coverage: &str,
) -> (r: Result<String, String>)
    ensures
        match source {
            BriefSource::Given(s) => r == Ok::<String, String>(s),
            BriefSource::File(path) => match read {
                Ok(s) => r == Ok::<String, String>(s),
                Err(e) => r matches Err(m) && m@ == "failed to read brief "@ + path@ + ": "@ + e@,
            },
            BriefSource::Coverage => r matches Ok(s) && s@ == coverage@,
        },
{
    match source {
        BriefSource::Given(brief) => Ok(brief),
        BriefSource::File(path) => match read {
            Ok(brief) => Ok(brief),
            Err(e) => {
                let mut message = text::copy("failed to read brief ");
                message.append(path.as_str());
                message.append(": ");
                message.append(e.as_str());
                Err(message)
            },
        },
        BriefSource::Coverage => Ok(text::copy(coverage)),
    }
}

/// What a chain comes to once its report is printed: a failure where one of its
/// steps failed.
pub fn chain_outcome(report: &ChainReport) -> (r: Result<(), String>)
    ensures
        match r {
            Ok(_) => forall|i: int|
                0 <= i < report.steps@.len() ==> (#[trigger] report.steps@[i]).outcome is Ok,
            Err(m) => m@ == "chain failed"@ && exists|i: int|
                0 <= i < report.steps@.len() && (#[trigger] report.steps@[i]).outcome is Err,
        },
{
    if report.failed() {
        Err(text::copy("chain failed"))
    } else {
        Ok(())
    }
}

/// The message of an agent that failed.
pub fn agent_failure(error: AgentError, recorded: bool) -> (r: String)
    ensures
        r@ == (if recorded {
            error.0@ + " (the cassette was still written)"@
        } else {
            error.0@
        }),
{
    if recorded {
        router::joined(error.0.as_str(), " (the cassette was still written)")
    } else {
        error.0
    }
}

/// Where cassettes are kept.
pub fn cassette_root(global: &GlobalArgs, default_root: &str) -> (r: String)
    ensures
        r@ == given_or(global.cassette_dir, default_root@),
{
    match &global.cassette_dir {
        Some(dir) => dir.clone(),
        None => text::copy(default_root),
    }
}

/// Reports media whose payload could not be decoded.
pub fn decoded_media(decoded: Result<Vec<u8>, String>) -> (r: Result<Vec<u8>, String>)
    ensures
        match decoded {
            Ok(bytes) => r == Ok::<Vec<u8>, String>(bytes),
            Err(e) => r matches Err(m) && m@
                == "provider returned media that is not valid base64: "@ + e@,
        },
{
    match decoded {
        Ok(bytes) => Ok(bytes),
        Err(e) => Err(
            router::joined("provider returned media that is not valid base64: ", e.as_str()),
        ),
    }
}

/// The bytes of generated media.
pub fn decode_media(media: &GeneratedMedia) -> (r: Result<Vec<u8>, String>)
    ensures
        match codec::base64_bytes(media.base64_data@) {
            Ok(bytes) => r matches Ok(v) && v@ == bytes,
            Err(e) => r matches Err(m) && m@
                == "provider returned media that is not valid base64: "@ + e,
        },
{
    decoded_media(codec::base64_decode(media.base64_data.as_str()))
}

/// What is given on the command line goes before what is configured, and a key given there before
/// one of the environment.
pub proof fn arguments_go_before_the_configuration(
    value: Option<String>,
    other: Seq<char>,
    args: ProbeArgs,
    environment: Option<String>,
)
    ensures
        value is Some ==> given_or(value, other) == value->0@,
        value is None ==> given_or(value, other) == other,
        args.api_key is Some ==> probe_key(args, environment) == Some(args.api_key->0@),
        args.api_key is None && environment is Some ==> probe_key(args, environment) == Some(
            environment->0@,
        ),
        args.api_key is None && environment is None ==> probe_key(args, environment) is None,
{
}

} // verus!
