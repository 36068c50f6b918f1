//! The commands of the driver.
use vstd::prelude::*;

verus! {

#[derive(Debug, PartialEq, Eq)]
pub struct Cli {
    pub global: GlobalArgs,
    pub command: Command,
}

#[derive(Debug, Clone, PartialEq, Eq)]
pub struct GlobalArgs {
    /// The directory of the configuration, in place of the application's own.
    pub profile: Option<String>,
    /// The cassette that every exchange is recorded on.
    pub record: Option<String>,
    /// The cassette that every exchange is served from.
    pub replay: Option<String>,
    /// Where cassettes are kept.
    pub cassette_dir: Option<String>,
    /// Whether the output is for machines.
    pub json: bool,
}

#[derive(Debug, PartialEq, Eq)]
pub enum Command {
    Config { action: ConfigAction },
    Probe(ProbeArgs),
    Chat(ChatArgs),
    Agent(AgentArgs),
    Chain(ChainArgs),
    Media { action: MediaAction },
    Log(LogArgs),
    Cassette { action: CassetteAction },
}

#[derive(Debug, Clone, Copy, PartialEq, Eq, Structural)]
pub enum ConfigAction {
    Show,
}

#[derive(Debug, PartialEq, Eq)]
pub struct ProbeArgs {
    pub provider: Option<String>,
    pub model: Option<String>,
    pub base_url: Option<String>,
    pub api_key: Option<String>,
    /// Whether the provider is left alone.
    pub offline: bool,
}

#[derive(Debug, PartialEq, Eq)]
pub struct ChatArgs {
    pub prompt: String,
    pub system: Option<String>,
    /// A file of tool definitions.
    pub tools: Option<String>,
}

#[derive(Debug, Clone, Copy, PartialEq, Eq, Structural)]
pub enum AgentKind {
    Plan,
    Memory,
    Outline,
    Character,
    Asset,
    Scene,
    Dialogist,
}

/// The name of an agent in messages.
pub open spec fn kind_name(kind: AgentKind) -> Seq<char> {
    match kind {
        AgentKind::Plan => "Plan"@,
        AgentKind::Memory => "Memory"@,
        AgentKind::Outline => "Outline"@,
        AgentKind::Character => "Character"@,
        AgentKind::Asset => "Asset"@,
        AgentKind::Scene => "Scene"@,
        AgentKind::Dialogist => "Dialogist"@,
    }
}

impl AgentKind {
    pub fn name(self) -> (r: &'static str)
        ensures
            r@ == kind_name(self),
    {
        match self {
            AgentKind::Plan => "Plan",
            AgentKind::Memory => "Memory",
            AgentKind::Outline => "Outline",
            AgentKind::Character => "Character",
            AgentKind::Asset => "Asset",
            AgentKind::Scene => "Scene",
            AgentKind::Dialogist => "Dialogist",
        }
    }
}

#[derive(Debug, PartialEq, Eq)]
pub struct AgentArgs {
    pub kind: AgentKind,
    /// A project, whose story plan is read.
    pub project: Option<String>,
    /// A file with a story plan.
    pub scenario: Option<String>,
    pub brief: Option<String>,
    pub instruction: String,
    pub allow_local_fallback: bool,
    /// Where the payload is written.
    pub out: Option<String>,
}

#[derive(Debug, PartialEq, Eq)]
pub struct ChainArgs {
    pub brief: Option<String>,
    pub brief_file: Option<String>,
    pub show_brief: bool,
    pub allow_local_fallback: bool,
    /// The step to stop after.
    pub stop_after: Option<String>,
    /// Where the story plan is written.
    pub out: Option<String>,
}

#[derive(Debug, PartialEq, Eq)]
pub enum MediaAction {
    Image { prompt: String, model: Option<String>, reference: Option<String>, out: String },
    Tts { text: String, model: Option<String>, voice: String, format: String, out: String },
    Music { prompt: String, model: Option<String>, format: String, out: String },
}

#[derive(Debug, PartialEq, Eq)]
pub struct LogArgs {
    pub lines: usize,
    /// Whether the trace is read in place of the log.
    pub trace: bool,
}

#[derive(Debug, PartialEq, Eq)]
pub enum CassetteAction {
    Ls,
    Show { name: String },
    Verify { name: String },
}

} // verus!
