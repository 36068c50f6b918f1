//! The configuration of providers, and the assistant's logs.
//!
//! Files are read, written and renamed by the caller; what is to be done with
//! what was found, and in which order, is decided here.
use vstd::prelude::*;

use crate::agents::router;
use crate::json_store;
use crate::paths;
use crate::text;

verus! {

broadcast use vstd::string::group_string_axioms;

pub const CONFIG_DIR: &'static str = "ollaic";

pub const CONFIG_FILE: &'static str = "ai.json";

pub const IMAGE_CONFIG_FILE: &'static str = "ai-image.json";

pub const TTS_CONFIG_FILE: &'static str = "ai-tts.json";

pub const MUSIC_CONFIG_FILE: &'static str = "ai-music.json";

pub const LOG_FILE: &'static str = "ai-log.jsonl";

pub const AGENT_TRACE_FILE: &'static str = "ai-agent-trace.jsonl";

pub const MAX_AGENT_TRACE_RECORDS: usize = 200;

/// What a provider of the user's own declares that it can do.
#[derive(Debug, Clone, Copy, PartialEq, Eq)]
pub struct ProviderCapabilityDeclaration {
    pub chat_tools: bool,
    pub json_mode: bool,
    pub streaming_cancellation: bool,
    pub media_url_output: bool,
    pub chat_deadline_ms: Option<u64>,
    pub flow_step_deadline_ms: Option<u64>,
    pub media_fetch_deadline_ms: Option<u64>,
}

/// A declaration of nothing.
pub open spec fn no_declaration() -> ProviderCapabilityDeclaration {
    ProviderCapabilityDeclaration {
        chat_tools: false,
        json_mode: false,
        streaming_cancellation: false,
        media_url_output: false,
        chat_deadline_ms: None,
        flow_step_deadline_ms: None,
        media_fetch_deadline_ms: None,
    }
}

impl Default for ProviderCapabilityDeclaration {
    fn default() -> (r: ProviderCapabilityDeclaration)
        ensures
            r == no_declaration(),
    {
        ProviderCapabilityDeclaration {
            chat_tools: false,
            json_mode: false,
            streaming_cancellation: false,
            media_url_output: false,
            chat_deadline_ms: None,
            flow_step_deadline_ms: None,
            media_fetch_deadline_ms: None,
        }
    }
}

/// The provider of chats.
#[derive(Debug, PartialEq, Eq)]
pub struct AiConfig {
    pub provider: String,
    pub model: String,
    pub api_key: String,
    pub base_url: String,
    pub capabilities: Option<ProviderCapabilityDeclaration>,
}

/// The provider of one kind of media.
#[derive(Debug, PartialEq, Eq)]
pub struct AiProviderConfig {
    pub provider: String,
    pub model: String,
    pub api_key: String,
    pub base_url: String,
    pub capabilities: Option<ProviderCapabilityDeclaration>,
}

#[verifier::ext_equal]
pub struct ConfigView {
    pub provider: Seq<char>,
    pub model: Seq<char>,
    pub api_key: Seq<char>,
    pub base_url: Seq<char>,
    pub capabilities: Option<ProviderCapabilityDeclaration>,
}

impl View for AiConfig {
    type V = ConfigView;

    open spec fn view(&self) -> ConfigView {
        ConfigView {
            provider: self.provider@,
            model: self.model@,
            api_key: self.api_key@,
            base_url: self.base_url@,
            capabilities: self.capabilities,
        }
    }
}

impl View for AiProviderConfig {
    type V = ConfigView;

    open spec fn view(&self) -> ConfigView {
        ConfigView {
            provider: self.provider@,
            model: self.model@,
            api_key: self.api_key@,
            base_url: self.base_url@,
            capabilities: self.capabilities,
        }
    }
}

impl Clone for AiConfig {
    fn clone(&self) -> (r: AiConfig)
        ensures
            r@ == self@,
    {
        AiConfig {
            provider: self.provider.clone(),
            model: self.model.clone(),
            api_key: self.api_key.clone(),
            base_url: self.base_url.clone(),
            capabilities: self.capabilities,
        }
    }
}

impl Clone for AiProviderConfig {
    fn clone(&self) -> (r: AiProviderConfig)
        ensures
            r@ == self@,
    {
        AiProviderConfig {
            provider: self.provider.clone(),
            model: self.model.clone(),
            api_key: self.api_key.clone(),
            base_url: self.base_url.clone(),
            capabilities: self.capabilities,
        }
    }
}

/// A configuration with neither key nor address.
pub open spec fn unconfigured(provider: Seq<char>, model: Seq<char>) -> ConfigView {
    ConfigView {
        provider,
        model,
        api_key: Seq::empty(),
        base_url: Seq::empty(),
        capabilities: None,
    }
}

impl Default for AiConfig {
    fn default() -> (r: AiConfig)
        ensures
            r@ == unconfigured("openai"@, "gpt-4o-mini"@),
    {
        AiConfig {
            provider: text::copy("openai"),
            model: text::copy("gpt-4o-mini"),
            api_key: String::new(),
            base_url: String::new(),
            capabilities: None,
        }
    }
}

impl AiProviderConfig {
    fn unconfigured(provider: &str, model: &str) -> (r: AiProviderConfig)
        ensures
            r@ == unconfigured(provider@, model@),
    {
        AiProviderConfig {
            provider: text::copy(provider),
            model: text::copy(model),
            api_key: String::new(),
            base_url: String::new(),
            capabilities: None,
        }
    }

    pub fn image_default() -> (r: AiProviderConfig)
        ensures
            r@ == unconfigured("openai"@, "dall-e-3"@),
    {
        AiProviderConfig::unconfigured("openai", "dall-e-3")
    }

    pub fn tts_default() -> (r: AiProviderConfig)
        ensures
            r@ == unconfigured("openai"@, "tts-1"@),
    {
        AiProviderConfig::unconfigured("openai", "tts-1")
    }

    pub fn music_default() -> (r: AiProviderConfig)
        ensures
            r@ == unconfigured("custom"@, "music-1"@),
    {
        AiProviderConfig::unconfigured("custom", "music-1")
    }
}

impl Default for AiProviderConfig {
    fn default() -> (r: AiProviderConfig)
        ensures
            r@ == unconfigured("openai"@, "dall-e-3"@),
    {
        AiProviderConfig::image_default()
    }
}

/// What the assistant is told first.
pub const SYSTEM_PROMPT: &'static str = "You are a WebGAL story editing assistant.\n\nThe frontend provides the current scene, numbered script lines, available assets, characters, and project memory in system messages. Follow those higher-detail instructions exactly.\n\nCore output protocol:\n- When editing the script, output one JSON object: {\"patches\":[...]}.\n- When only discussing the story, output one JSON object: {\"type\":\"chat\",\"message\":\"...\"}.\n- Do not use Markdown fences.\n- Do not claim that files have already been changed. The app will preview changes and the user decides whether to apply them.\n\nPatch rules:\n- Supported patch types: insert, delete, replace.\n- Patch file must be the current scene file.\n- Line numbers refer to the numbered WebGAL txt script supplied by the app.\n- Include anchorText when possible by copying the target original line exactly.\n- insert.afterLine can be a positive line number or \"end\".\n- delete/replace require startLine <= endLine.\n- For insert/replace, text is raw WebGAL txt, with one command per line.\n\nWebGAL txt reminders:\n- Narration: :text;\n- Dialogue: Character:text;\n- Comment: ;comment text\n- Background: changeBg:file -next;\n- Figure: changeFigure:file -left/-right/-center -next;\n- BGM: bgm:file;\n- Sound effect: playEffect:file;\n- Choice: choose:Label A:sceneA.txt|Label B:sceneB.txt;\n- Scene jump: changeScene:scene.txt;\n\nUse only asset filenames listed by the app. If a required asset is missing, return chat explaining the missing asset instead of inventing a filename.\n";

/// What the assistant is told first.
pub fn default_system_prompt() -> (r: String)
    ensures
        r@ == SYSTEM_PROMPT@,
{
    text::copy(SYSTEM_PROMPT)
}

// ---------------------------------------------------------------------------
// Places
// ---------------------------------------------------------------------------

/// A file of the application below the user's configuration directory.
pub open spec fn config_file(dir: Seq<char>, file: Seq<char>) -> Seq<char> {
    paths::joined(paths::joined(dir, CONFIG_DIR@), file)
}

/// Where a file of the application stands, or why that is not known.
pub open spec fn places(r: Result<String, String>, dir: Option<String>, file: Seq<char>) -> bool {
    match (r, dir) {
        (Ok(path), Some(d)) => path@ == config_file(d@, file),
        (Err(m), None) => m@ == "Unable to locate user config directory"@,
        _ => false,
    }
}

/// Where a file of the application stands.
pub fn config_path(dir: &Option<String>, file_name: &str) -> (r: Result<String, String>)
    ensures
        places(r, *dir, file_name@),
{
    match dir {
        Some(d) => {
            let base = paths::join(d.as_str(), CONFIG_DIR);
            Ok(paths::join(base.as_str(), file_name))
        },
        None => Err(text::copy("Unable to locate user config directory")),
    }
}

/// Where the log stands.
pub fn log_path(dir: &Option<String>) -> (r: Result<String, String>)
    ensures
        places(r, *dir, LOG_FILE@),
{
    config_path(dir, LOG_FILE)
}

/// Where the trace of the agents stands.
pub fn agent_trace_path(dir: &Option<String>) -> (r: Result<String, String>)
    ensures
        places(r, *dir, AGENT_TRACE_FILE@),
{
    config_path(dir, AGENT_TRACE_FILE)
}

/// Where the chat configuration is saved.
pub fn save_config(dir: &Option<String>) -> (r: Result<String, String>)
    ensures
        places(r, *dir, CONFIG_FILE@),
{
    config_path(dir, CONFIG_FILE)
}

/// Where the configuration of images is saved.
pub fn save_image_config(dir: &Option<String>) -> (r: Result<String, String>)
    ensures
        places(r, *dir, IMAGE_CONFIG_FILE@),
{
    config_path(dir, IMAGE_CONFIG_FILE)
}

/// Where the configuration of speech is saved.
pub fn save_tts_config(dir: &Option<String>) -> (r: Result<String, String>)
    ensures
        places(r, *dir, TTS_CONFIG_FILE@),
{
    config_path(dir, TTS_CONFIG_FILE)
}

/// Where the configuration of music is saved.
pub fn save_music_config(dir: &Option<String>) -> (r: Result<String, String>)
    ensures
        places(r, *dir, MUSIC_CONFIG_FILE@),
{
    config_path(dir, MUSIC_CONFIG_FILE)
}

/// Whether the directory of a log is the application's own, and so to be closed
/// to others.
pub fn restricts_log_directory(dir: &str) -> (r: bool)
    ensures
        r == (paths::file_name_of(dir@) == Some(CONFIG_DIR@)),
{
    match paths::file_name(dir) {
        Some(name) => text::same(name.as_str(), CONFIG_DIR),
        None => false,
    }
}

// ---------------------------------------------------------------------------
// Loading
// ---------------------------------------------------------------------------

/// A configuration file, as far as it could be read.
#[derive(Debug, PartialEq, Eq)]
pub enum ConfigFile<T> {
    Missing,
    Unreadable,
    Corrupt,
    Valid(T),
}

/// What is to be done with what was found.
#[derive(Debug, PartialEq, Eq)]
pub enum LoadStep<T> {
    /// The configuration.
    Loaded(T),
    /// The file is to be restored from its backup, which holds the configuration.
    Restore(T),
    /// The file is to be restored from its backup, and the user told.
    RestoreAndReport,
    /// There is no configuration to be had.
    Failed(String),
}

/// What is to be done: the file counts where it can be read, its backup where
/// the file is missing, and the default where neither is there. A file that is
/// corrupt is restored from a backup that is not.
pub open spec fn load_step<T>(primary: ConfigFile<T>, backup: ConfigFile<T>, step: LoadStep<T>) -> bool {
    match primary {
        ConfigFile::Missing => match backup {
            ConfigFile::Missing => step is Loaded,
            ConfigFile::Unreadable => step matches LoadStep::Failed(m) && m@
                == "无法读取 Provider 配置备份"@,
            ConfigFile::Corrupt => step matches LoadStep::Failed(m) && m@
                == "配置文件缺失且备份损坏，无法恢复"@,
            ConfigFile::Valid(c) => step == LoadStep::Restore(c),
        },
        ConfigFile::Unreadable => step matches LoadStep::Failed(m) && m@
            == "无法读取 Provider 配置文件"@,
        ConfigFile::Valid(c) => step == LoadStep::Loaded(c),
        ConfigFile::Corrupt => match backup {
            ConfigFile::Missing => step matches LoadStep::Failed(m) && m@
                == "Provider 配置文件损坏且没有可用备份"@,
            ConfigFile::Unreadable => step matches LoadStep::Failed(m) && m@
                == "Provider 配置文件损坏且没有可用备份"@,
            ConfigFile::Corrupt => step matches LoadStep::Failed(m) && m@
                == "Provider 配置文件损坏，备份也无法解析"@,
            ConfigFile::Valid(_) => step is RestoreAndReport,
        },
    }
}

/// Decides what is to be done with what was found.
pub fn load_config_at<T>(primary: ConfigFile<T>, backup: ConfigFile<T>, default: T) -> (r: LoadStep<T>)
    ensures
        load_step(primary, backup, r),
        primary is Missing && backup is Missing ==> r == LoadStep::Loaded(default),
{
    match primary {
        ConfigFile::Missing => match backup {
            ConfigFile::Missing => LoadStep::Loaded(default),
            ConfigFile::Unreadable => LoadStep::Failed(
                text::copy("无法读取 Provider 配置备份"),
            ),
            ConfigFile::Corrupt => LoadStep::Failed(
                text::copy("配置文件缺失且备份损坏，无法恢复"),
            ),
            ConfigFile::Valid(c) => LoadStep::Restore(c),
        },
        ConfigFile::Unreadable => LoadStep::Failed(
            text::copy("无法读取 Provider 配置文件"),
        ),
        ConfigFile::Valid(c) => LoadStep::Loaded(c),
        ConfigFile::Corrupt => match backup {
            ConfigFile::Missing => LoadStep::Failed(
                text::copy("Provider 配置文件损坏且没有可用备份"),
            ),
            ConfigFile::Unreadable => LoadStep::Failed(
                text::copy("Provider 配置文件损坏且没有可用备份"),
            ),
            ConfigFile::Corrupt => LoadStep::Failed(
                text::copy("Provider 配置文件损坏，备份也无法解析"),
            ),
            ConfigFile::Valid(_) => LoadStep::RestoreAndReport,
        },
    }
}

/// What comes of loading: a restoration that was called for and failed gives its
/// own fault. That of a corrupt file is reported with one and the same text,
/// whatever the files hold.
pub open spec fn load_gives<T>(
    step: LoadStep<T>,
    restored: Option<Seq<char>>,
    r: Result<T, String>,
) -> bool {
    match (step, restored) {
        (LoadStep::Loaded(c), _) => r == Ok::<T, String>(c),
        (LoadStep::Failed(m), _) => r matches Err(e) && e@ == m@,
        (LoadStep::Restore(c), None) => r == Ok::<T, String>(c),
        (LoadStep::RestoreAndReport, None) => r matches Err(e) && e@
            == "Provider 配置文件损坏，已从备份恢复；请重试"@,
        (_, Some(m)) => r matches Err(e) && e@ == m,
    }
}

/// The configuration, or why there is none, once a restoration that was called
/// for has been tried.
pub fn finish_load<T>(step: LoadStep<T>, restored: Result<(), String>) -> (r: Result<T, String>)
    ensures
        load_gives(step, json_store::fault(restored), r),
{
    match step {
        LoadStep::Loaded(c) => Ok(c),
        LoadStep::Failed(m) => Err(m),
        LoadStep::Restore(c) => match restored {
            Ok(_) => Ok(c),
            Err(m) => Err(m),
        },
        LoadStep::RestoreAndReport => match restored {
            Ok(_) => Err(text::copy("Provider 配置文件损坏，已从备份恢复；请重试")),
            Err(m) => Err(m),
        },
    }
}

/// The chat configuration, from what was found in the application's directory.
pub fn load_config(
    dir: &Option<String>,
    primary: ConfigFile<AiConfig>,
    backup: ConfigFile<AiConfig>,
) -> (r: LoadStep<AiConfig>)
    ensures
        dir is None ==> (r matches LoadStep::Failed(m) && m@
            == "Unable to locate user config directory"@),
        dir is Some ==> load_step(primary, backup, r),
        dir is Some && primary is Missing && backup is Missing ==> (r matches LoadStep::Loaded(c)
            && c@ == unconfigured("openai"@, "gpt-4o-mini"@)),
{
    match config_path(dir, CONFIG_FILE) {
        Err(m) => LoadStep::Failed(m),
        Ok(_) => load_config_at(primary, backup, AiConfig::default()),
    }
}

fn load_provider_config(
    dir: &Option<String>,
    primary: ConfigFile<AiProviderConfig>,
    backup: ConfigFile<AiProviderConfig>,
    default: AiProviderConfig,
) -> (r: LoadStep<AiProviderConfig>)
    ensures
        dir is None ==> (r matches LoadStep::Failed(m) && m@
            == "Unable to locate user config directory"@),
        dir is Some ==> load_step(primary, backup, r),
        dir is Some && primary is Missing && backup is Missing ==> r == LoadStep::Loaded(default),
{
    match dir {
        None => LoadStep::Failed(text::copy("Unable to locate user config directory")),
        Some(_) => load_config_at(primary, backup, default),
    }
}

/// The configuration of images.
pub fn load_image_config(
    dir: &Option<String>,
    primary: ConfigFile<AiProviderConfig>,
    backup: ConfigFile<AiProviderConfig>,
) -> (r: LoadStep<AiProviderConfig>)
    ensures
        dir is None ==> (r matches LoadStep::Failed(m) && m@
            == "Unable to locate user config directory"@),
        dir is Some ==> load_step(primary, backup, r),
        dir is Some && primary is Missing && backup is Missing ==> (r matches LoadStep::Loaded(c)
            && c@ == unconfigured("openai"@, "dall-e-3"@)),
{
    load_provider_config(dir, primary, backup, AiProviderConfig::image_default())
}

/// The configuration of speech.
pub fn load_tts_config(
    dir: &Option<String>,
    primary: ConfigFile<AiProviderConfig>,
    backup: ConfigFile<AiProviderConfig>,
) -> (r: LoadStep<AiProviderConfig>)
    ensures
        dir is None ==> (r matches LoadStep::Failed(m) && m@
            == "Unable to locate user config directory"@),
        dir is Some ==> load_step(primary, backup, r),
        dir is Some && primary is Missing && backup is Missing ==> (r matches LoadStep::Loaded(c)
            && c@ == unconfigured("openai"@, "tts-1"@)),
{
    load_provider_config(dir, primary, backup, AiProviderConfig::tts_default())
}

/// The configuration of music.
pub fn load_music_config(
    dir: &Option<String>,
    primary: ConfigFile<AiProviderConfig>,
    backup: ConfigFile<AiProviderConfig>,
) -> (r: LoadStep<AiProviderConfig>)
    ensures
        dir is None ==> (r matches LoadStep::Failed(m) && m@
            == "Unable to locate user config directory"@),
        dir is Some ==> load_step(primary, backup, r),
        dir is Some && primary is Missing && backup is Missing ==> (r matches LoadStep::Loaded(c)
            && c@ == unconfigured("custom"@, "music-1"@)),
{
    load_provider_config(dir, primary, backup, AiProviderConfig::music_default())
}

// ---------------------------------------------------------------------------
// Replacing a file
// ---------------------------------------------------------------------------

/// How far the replacement of a configuration file has come. The file that is
/// replaced is set aside first: as the backup where a configuration is saved, as
/// the corrupt copy where it is restored.
#[derive(Debug, PartialEq, Eq)]
pub enum ReplacePhase {
    /// The new contents are to be written beside the file.
    WritingTemporary,
    /// Which files are there is to be found out.
    Looking,
    /// What was set aside before is to be removed.
    RemovingAside,
    /// The file is to be set aside.
    SettingAside,
    /// What was set aside is to be closed to others.
    RestrictingAside,
    /// The new contents are to take the file's place.
    Replacing,
    /// The file that was set aside is to be put back.
    PuttingBack,
    /// What was set aside is to be removed; whether that goes well does not
    /// matter.
    CleaningUp,
    /// The file is to be closed to others.
    RestrictingFile,
    /// It is over.
    Done(Result<(), String>),
}

pub enum ReplaceView {
    WritingTemporary,
    Looking,
    RemovingAside,
    SettingAside,
    RestrictingAside,
    Replacing,
    PuttingBack,
    CleaningUp,
    RestrictingFile,
    Done(Option<Seq<char>>),
}

impl View for ReplacePhase {
    type V = ReplaceView;

    open spec fn view(&self) -> ReplaceView {
        match *self {
            ReplacePhase::WritingTemporary => ReplaceView::WritingTemporary,
            ReplacePhase::Looking => ReplaceView::Looking,
            ReplacePhase::RemovingAside => ReplaceView::RemovingAside,
            ReplacePhase::SettingAside => ReplaceView::SettingAside,
            ReplacePhase::RestrictingAside => ReplaceView::RestrictingAside,
            ReplacePhase::Replacing => ReplaceView::Replacing,
            ReplacePhase::PuttingBack => ReplaceView::PuttingBack,
            ReplacePhase::CleaningUp => ReplaceView::CleaningUp,
            ReplacePhase::RestrictingFile => ReplaceView::RestrictingFile,
            ReplacePhase::Done(r) => ReplaceView::Done(json_store::fault(r)),
        }
    }
}

/// What the caller reports: what came of the step, and whether the file and what
/// was set aside are there after it.
#[derive(Debug, PartialEq, Eq)]
pub struct ReplaceEvent {
    pub result: Result<(), String>,
    pub primary: bool,
    pub aside: bool,
}

/// The phase that follows where a configuration is saved. The message of a step
/// that failed is this module's own, but for the temporary file and the
/// permissions, where it is the caller's.
pub open spec fn next_save(
    phase: ReplaceView,
    failure: Option<Seq<char>>,
    primary: bool,
    aside: bool,
) -> ReplaceView {
    match phase {
        ReplaceView::WritingTemporary => match failure {
            None => ReplaceView::Looking,
            Some(m) => ReplaceView::Done(Some(m)),
        },
        ReplaceView::Looking => if !primary {
            ReplaceView::Replacing
        } else if aside {
            ReplaceView::RemovingAside
        } else {
            ReplaceView::SettingAside
        },
        ReplaceView::RemovingAside => if failure is Some {
            ReplaceView::Done(Some("无法更新 Provider 配置备份"@))
        } else {
            ReplaceView::SettingAside
        },
        ReplaceView::SettingAside => if failure is Some {
            ReplaceView::Done(Some("无法备份当前 Provider 配置"@))
        } else {
            ReplaceView::RestrictingAside
        },
        ReplaceView::RestrictingAside => match failure {
            None => ReplaceView::Replacing,
            Some(m) => ReplaceView::Done(Some(m)),
        },
        ReplaceView::Replacing => if failure is None {
            ReplaceView::RestrictingFile
        } else if aside && !primary {
            ReplaceView::PuttingBack
        } else {
            ReplaceView::Done(Some("无法原子替换 Provider 配置"@))
        },
        ReplaceView::PuttingBack => ReplaceView::Done(
            Some("无法原子替换 Provider 配置"@),
        ),
        ReplaceView::CleaningUp => ReplaceView::RestrictingFile,
        ReplaceView::RestrictingFile => ReplaceView::Done(failure),
        ReplaceView::Done(r) => ReplaceView::Done(r),
    }
}

/// The phase that follows where a configuration is restored from its backup.
pub open spec fn next_restore(
    phase: ReplaceView,
    failure: Option<Seq<char>>,
    primary: bool,
    aside: bool,
) -> ReplaceView {
    let set_aside = if primary {
        ReplaceView::SettingAside
    } else {
        ReplaceView::Replacing
    };
    match phase {
        ReplaceView::WritingTemporary => match failure {
            None => ReplaceView::Looking,
            Some(m) => ReplaceView::Done(Some(m)),
        },
        ReplaceView::Looking => if aside {
            ReplaceView::RemovingAside
        } else {
            set_aside
        },
        ReplaceView::RemovingAside => if failure is Some {
            ReplaceView::Done(Some("无法清理损坏的 Provider 配置"@))
        } else {
            set_aside
        },
        ReplaceView::SettingAside => if failure is Some {
            ReplaceView::Done(Some("无法隔离损坏的 Provider 配置"@))
        } else {
            ReplaceView::Replacing
        },
        ReplaceView::RestrictingAside => ReplaceView::Replacing,
        ReplaceView::Replacing => if failure is None {
            ReplaceView::CleaningUp
        } else if aside && !primary {
            ReplaceView::PuttingBack
        } else {
            ReplaceView::Done(Some("无法恢复 Provider 配置备份"@))
        },
        ReplaceView::PuttingBack => ReplaceView::Done(
            Some("无法恢复 Provider 配置备份"@),
        ),
        ReplaceView::CleaningUp => ReplaceView::RestrictingFile,
        ReplaceView::RestrictingFile => ReplaceView::Done(failure),
        ReplaceView::Done(r) => ReplaceView::Done(r),
    }
}

fn refused(message: &str) -> (r: ReplacePhase)
    ensures
        r@ == ReplaceView::Done(Some(message@)),
{
    ReplacePhase::Done(Err(text::copy(message)))
}

fn or_fault(next: ReplacePhase, result: Result<(), String>) -> (r: ReplacePhase)
    ensures
        r@ == (match json_store::fault(result) {
            None => next@,
            Some(m) => ReplaceView::Done(Some(m)),
        }),
{
    match result {
        Ok(_) => next,
        Err(m) => ReplacePhase::Done(Err(m)),
    }
}

/// Takes the saving of a configuration one step further.
pub fn save_config_at(phase: ReplacePhase, event: ReplaceEvent) -> (r: ReplacePhase)
    ensures
        r@ == next_save(phase@, json_store::fault(event.result), event.primary, event.aside),
{
    match phase {
        ReplacePhase::WritingTemporary => or_fault(ReplacePhase::Looking, event.result),
        ReplacePhase::Looking => if !event.primary {
            ReplacePhase::Replacing
        } else if event.aside {
            ReplacePhase::RemovingAside
        } else {
            ReplacePhase::SettingAside
        },
        ReplacePhase::RemovingAside => match event.result {
            Err(_) => refused("无法更新 Provider 配置备份"),
            Ok(_) => ReplacePhase::SettingAside,
        },
        ReplacePhase::SettingAside => match event.result {
            Err(_) => refused("无法备份当前 Provider 配置"),
            Ok(_) => ReplacePhase::RestrictingAside,
        },
        ReplacePhase::RestrictingAside => or_fault(ReplacePhase::Replacing, event.result),
        ReplacePhase::Replacing => match event.result {
            Ok(_) => ReplacePhase::RestrictingFile,
            Err(_) => if event.aside && !event.primary {
                ReplacePhase::PuttingBack
            } else {
                refused("无法原子替换 Provider 配置")
            },
        },
        ReplacePhase::PuttingBack => refused("无法原子替换 Provider 配置"),
        ReplacePhase::CleaningUp => ReplacePhase::RestrictingFile,
        ReplacePhase::RestrictingFile => ReplacePhase::Done(event.result),
        ReplacePhase::Done(r) => ReplacePhase::Done(r),
    }
}

/// Takes the restoring of a configuration one step further.
pub fn restore_primary_from_backup(phase: ReplacePhase, event: ReplaceEvent) -> (r: ReplacePhase)
    ensures
        r@ == next_restore(phase@, json_store::fault(event.result), event.primary, event.aside),
{
    match phase {
        ReplacePhase::WritingTemporary => or_fault(ReplacePhase::Looking, event.result),
        ReplacePhase::Looking => if event.aside {
            ReplacePhase::RemovingAside
        } else if event.primary {
            ReplacePhase::SettingAside
        } else {
            ReplacePhase::Replacing
        },
        ReplacePhase::RemovingAside => match event.result {
            Err(_) => refused("无法清理损坏的 Provider 配置"),
            Ok(_) => if event.primary {
                ReplacePhase::SettingAside
            } else {
                ReplacePhase::Replacing
            },
        },
        ReplacePhase::SettingAside => match event.result {
            Err(_) => refused("无法隔离损坏的 Provider 配置"),
            Ok(_) => ReplacePhase::Replacing,
        },
        ReplacePhase::RestrictingAside => ReplacePhase::Replacing,
        ReplacePhase::Replacing => match event.result {
            Ok(_) => ReplacePhase::CleaningUp,
            Err(_) => if event.aside && !event.primary {
                ReplacePhase::PuttingBack
            } else {
                refused("无法恢复 Provider 配置备份")
            },
        },
        ReplacePhase::PuttingBack => refused("无法恢复 Provider 配置备份"),
        ReplacePhase::CleaningUp => ReplacePhase::RestrictingFile,
        ReplacePhase::RestrictingFile => ReplacePhase::Done(event.result),
        ReplacePhase::Done(r) => ReplacePhase::Done(r),
    }
}

/// The files, as far as they are there.
pub struct ConfigFiles {
    pub primary: Option<Seq<u8>>,
    pub aside: Option<Seq<u8>>,
    pub temporary: Option<Seq<u8>>,
}

/// What loading finds where nothing is corrupt: the file, or else its backup.
pub open spec fn stored(files: ConfigFiles) -> Option<Seq<u8>> {
    match files.primary {
        Some(bytes) => Some(bytes),
        None => files.aside,
    }
}

/// The files after a step. Renaming and removing happen or do not.
pub open spec fn after_replace(
    files: ConfigFiles,
    phase: ReplaceView,
    contents: Seq<u8>,
    failed: bool,
    torn: Option<Seq<u8>>,
) -> ConfigFiles {
    match phase {
        ReplaceView::WritingTemporary => if failed {
            ConfigFiles { temporary: torn, ..files }
        } else {
            ConfigFiles { temporary: Some(contents), ..files }
        },
        ReplaceView::RemovingAside => if failed {
            files
        } else {
            ConfigFiles { aside: None, ..files }
        },
        ReplaceView::SettingAside => if failed {
            files
        } else {
            ConfigFiles { aside: files.primary, primary: None, ..files }
        },
        ReplaceView::Replacing => if failed {
            files
        } else {
            ConfigFiles { primary: files.temporary, temporary: None, ..files }
        },
        ReplaceView::PuttingBack => if failed {
            files
        } else {
            ConfigFiles { primary: files.aside, aside: None, ..files }
        },
        ReplaceView::CleaningUp => if failed {
            files
        } else {
            ConfigFiles { aside: None, ..files }
        },
        _ => files,
    }
}

/// What holds of the files in each phase of saving.
pub open spec fn saving_fits(
    original: Option<Seq<u8>>,
    contents: Seq<u8>,
    phase: ReplaceView,
    files: ConfigFiles,
) -> bool {
    match phase {
        ReplaceView::WritingTemporary => stored(files) == original,
        ReplaceView::Looking => stored(files) == original && files.temporary == Some(contents),
        ReplaceView::RemovingAside => files.primary is Some && stored(files) == original
            && files.temporary == Some(contents),
        ReplaceView::SettingAside => files.primary is Some && stored(files) == original
            && files.temporary == Some(contents),
        ReplaceView::RestrictingAside => files.primary is None && stored(files) == original
            && files.temporary == Some(contents),
        ReplaceView::Replacing => files.primary is None && stored(files) == original
            && files.temporary == Some(contents),
        ReplaceView::PuttingBack => files.primary is None && stored(files) == original,
        ReplaceView::CleaningUp => files.primary == Some(contents),
        ReplaceView::RestrictingFile => files.primary == Some(contents),
        ReplaceView::Done(None) => files.primary == Some(contents),
        ReplaceView::Done(Some(_)) => stored(files) == original || files.primary == Some(contents),
    }
}

/// Saving a configuration keeps one to load: at every step what is stored is
/// what was stored before, or all of the new contents, and a save that reports
/// success has put the new contents in place.
pub proof fn saving_keeps_a_configuration(
    original: Option<Seq<u8>>,
    contents: Seq<u8>,
    phase: ReplaceView,
    files: ConfigFiles,
    failure: Option<Seq<char>>,
    torn: Option<Seq<u8>>,
)
    requires
        saving_fits(original, contents, phase, files),
    ensures
        ({
            let then_files = after_replace(files, phase, contents, failure is Some, torn);
            let then_phase = next_save(
                phase,
                failure,
                then_files.primary is Some,
                then_files.aside is Some,
            );
            &&& saving_fits(original, contents, then_phase, then_files)
            &&& stored(then_files) == original || stored(then_files) == Some(contents)
        }),
{
}

/// A restoration that reports success has put the backup's contents in the
/// file's place.
pub open spec fn restoring_fits(contents: Seq<u8>, phase: ReplaceView, files: ConfigFiles) -> bool {
    match phase {
        ReplaceView::WritingTemporary => true,
        ReplaceView::CleaningUp => files.primary == Some(contents),
        ReplaceView::RestrictingFile => files.primary == Some(contents),
        ReplaceView::Done(None) => files.primary == Some(contents),
        ReplaceView::Done(Some(_)) => true,
        ReplaceView::PuttingBack => true,
        _ => files.temporary == Some(contents),
    }
}

/// A restoration brings the backup's contents back or says that it did not.
pub proof fn restoring_brings_the_backup_back(
    contents: Seq<u8>,
    phase: ReplaceView,
    files: ConfigFiles,
    failure: Option<Seq<char>>,
    torn: Option<Seq<u8>>,
)
    requires
        restoring_fits(contents, phase, files),
    ensures
        ({
            let then_files = after_replace(files, phase, contents, failure is Some, torn);
            restoring_fits(
                contents,
                next_restore(
                    phase,
                    failure,
                    then_files.primary is Some,
                    then_files.aside is Some,
                ),
                then_files,
            )
        }),
{
}

/// Everything that a restoration can touch, and the backup.
pub struct ConfigDisk {
    pub files: ConfigFiles,
    pub backup: Option<Seq<u8>>,
}

/// Whether a restoration of these contents takes this course, from the disk as it
/// finds it: each step changes the files as `after_replace` says, and the next
/// phase goes by whether it failed and by what is there then.
pub open spec fn restores(
    contents: Seq<u8>,
    phases: Seq<ReplaceView>,
    disks: Seq<ConfigDisk>,
    failures: Seq<Option<Seq<char>>>,
) -> bool {
    &&& phases.len() == failures.len() + 1
    &&& disks.len() == failures.len() + 1
    &&& phases[0] is WritingTemporary
    &&& forall|k: int|
        0 <= k < failures.len() ==> restore_moves(
            contents,
            phases[k],
            disks[k],
            #[trigger] failures[k],
            phases[k + 1],
            disks[k + 1],
        )
}

/// One step of a restoration.
pub open spec fn restore_moves(
    contents: Seq<u8>,
    phase: ReplaceView,
    disk: ConfigDisk,
    failure: Option<Seq<char>>,
    then_phase: ReplaceView,
    then_disk: ConfigDisk,
) -> bool {
    &&& then_disk.backup == disk.backup
    &&& exists|torn: Option<Seq<u8>>|
        then_disk.files == #[trigger] after_replace(
            disk.files,
            phase,
            contents,
            failure is Some,
            torn,
        )
    &&& then_phase == next_restore(
        phase,
        failure,
        then_disk.files.primary is Some,
        then_disk.files.aside is Some,
    )
}

/// How many steps a restoration in which nothing fails has before it at most.
pub open spec fn steps_left(phase: ReplaceView) -> nat {
    match phase {
        ReplaceView::WritingTemporary => 7,
        ReplaceView::Looking => 6,
        ReplaceView::RemovingAside => 5,
        ReplaceView::SettingAside => 4,
        ReplaceView::RestrictingAside => 4,
        ReplaceView::Replacing => 3,
        ReplaceView::CleaningUp => 2,
        ReplaceView::RestrictingFile => 1,
        ReplaceView::PuttingBack => 0,
        ReplaceView::Done(_) => 0,
    }
}

proof fn lemma_restored(
    contents: Seq<u8>,
    phases: Seq<ReplaceView>,
    disks: Seq<ConfigDisk>,
    failures: Seq<Option<Seq<char>>>,
    k: int,
)
    requires
        restores(contents, phases, disks, failures),
        0 <= k < phases.len(),
    ensures
        disks[k].backup == disks[0].backup,
        restoring_fits(contents, phases[k], disks[k].files),
        (forall|j: int| 0 <= j < failures.len() ==> #[trigger] failures[j] is None) ==> {
            &&& !(phases[k] is PuttingBack)
            &&& phases[k] matches ReplaceView::Done(r) ==> r is None
            &&& steps_left(phases[k]) + k <= 7 || phases[k] is Done
        },
    decreases k,
{
    if k > 0 {
        lemma_restored(contents, phases, disks, failures, k - 1);
        let failure = failures[k - 1];
        let torn = choose|torn: Option<Seq<u8>>|
            disks[k].files == #[trigger] after_replace(
                disks[k - 1].files,
                phases[k - 1],
                contents,
                failure is Some,
                torn,
            );
        restoring_brings_the_backup_back(
            contents,
            phases[k - 1],
            disks[k - 1].files,
            failure,
            torn,
        );
    }
}

/// What reading a file gives, where it can be read.
pub open spec fn file_of<T>(
    contents: Option<Seq<u8>>,
    parse: spec_fn(Seq<u8>) -> Option<T>,
) -> ConfigFile<T> {
    match contents {
        None => ConfigFile::Missing,
        Some(bytes) => match parse(bytes) {
            None => ConfigFile::Corrupt,
            Some(c) => ConfigFile::Valid(c),
        },
    }
}

/// A corrupt configuration is restored from its backup and the user told: where
/// the file cannot be parsed, its backup can, and no step of the restoration
/// fails, the restoration ends, the first load is refused with the fixed report,
/// the next one gives the backup's configuration, and the backup is still there.
pub proof fn a_corrupt_file_is_restored_and_reported<T>(
    parse: spec_fn(Seq<u8>) -> Option<T>,
    backup: Seq<u8>,
    config: T,
    phases: Seq<ReplaceView>,
    disks: Seq<ConfigDisk>,
    failures: Seq<Option<Seq<char>>>,
    first: LoadStep<T>,
    first_gives: Result<T, String>,
    next: LoadStep<T>,
    next_restored: Option<Seq<char>>,
    next_gives: Result<T, String>,
)
    requires
        disks[0].backup == Some(backup),
        parse(backup) == Some(config),
        file_of(disks[0].files.primary, parse) is Corrupt,
        restores(backup, phases, disks, failures),
        forall|j: int| 0 <= j < failures.len() ==> #[trigger] failures[j] is None,
        load_step(
            file_of(disks[0].files.primary, parse),
            file_of(disks[0].backup, parse),
            first,
        ),
        phases.last() matches ReplaceView::Done(restored) ==> load_gives(
            first,
            restored,
            first_gives,
        ),
        load_step(
            file_of(disks.last().files.primary, parse),
            file_of(disks.last().backup, parse),
            next,
        ),
        load_gives(next, next_restored, next_gives),
    ensures
        phases.len() > 7 ==> phases.last() is Done,
        phases.last() is Done ==> {
            &&& first_gives matches Err(e) && e@
                == "Provider 配置文件损坏，已从备份恢复；请重试"@
            &&& next_gives == Ok::<T, String>(config)
            &&& disks.last().backup == Some(backup)
        },
{
    lemma_restored(backup, phases, disks, failures, phases.len() - 1);
}

/// A configuration that is missing is taken from its backup, which is put in its
/// place: where the backup can be parsed and no step of the restoration fails,
/// this load and the next one give the backup's configuration.
pub proof fn a_missing_file_is_restored<T>(
    parse: spec_fn(Seq<u8>) -> Option<T>,
    backup: Seq<u8>,
    config: T,
    phases: Seq<ReplaceView>,
    disks: Seq<ConfigDisk>,
    failures: Seq<Option<Seq<char>>>,
    first: LoadStep<T>,
    first_gives: Result<T, String>,
    next: LoadStep<T>,
    next_restored: Option<Seq<char>>,
    next_gives: Result<T, String>,
)
    requires
        disks[0].backup == Some(backup),
        parse(backup) == Some(config),
        disks[0].files.primary is None,
        restores(backup, phases, disks, failures),
        forall|j: int| 0 <= j < failures.len() ==> #[trigger] failures[j] is None,
        load_step(
            file_of(disks[0].files.primary, parse),
            file_of(disks[0].backup, parse),
            first,
        ),
        phases.last() matches ReplaceView::Done(restored) ==> load_gives(
            first,
            restored,
            first_gives,
        ),
        load_step(
            file_of(disks.last().files.primary, parse),
            file_of(disks.last().backup, parse),
            next,
        ),
        load_gives(next, next_restored, next_gives),
    ensures
        phases.len() > 7 ==> phases.last() is Done,
        phases.last() is Done ==> {
            &&& first_gives == Ok::<T, String>(config)
            &&& next_gives == Ok::<T, String>(config)
            &&& disks.last().backup == Some(backup)
        },
{
    lemma_restored(backup, phases, disks, failures, phases.len() - 1);
}

// ---------------------------------------------------------------------------
// Logs
// ---------------------------------------------------------------------------

/// The last `n` of a list.
pub open spec fn last_of(v: Seq<Seq<char>>, n: int) -> Seq<Seq<char>> {
    if v.len() > n {
        v.skip(v.len() - n)
    } else {
        v
    }
}

/// The lines of a file, if there is one.
pub open spec fn lines_in(contents: Option<String>) -> Seq<Seq<char>> {
    match contents {
        Some(s) => text::lines_of(s@),
        None => Seq::empty(),
    }
}

fn keep_last(lines: Vec<String>, n: usize) -> (r: Vec<String>)
    ensures
        text::texts(r@) == last_of(text::texts(lines@), n as int),
{
    if lines.len() <= n {
        return lines;
    }
    let from = lines.len() - n;
    let mut out: Vec<String> = Vec::new();
    let mut i: usize = from;
    while i < lines.len()
        invariant
            from <= i <= lines.len(),
            out@ =~= lines@.subrange(from as int, i as int),
        decreases lines.len() - i,
    {
        out.push(lines[i].clone());
        i += 1;
    }
    assert(text::texts(out@) =~= text::texts(lines@).skip(from as int));
    out
}

/// A bounded record after a line was added: the last `max` lines, each with its
/// end.
pub open spec fn bounded(contents: Option<String>, line: Seq<char>, max: int) -> Seq<char> {
    text::join_with(last_of(lines_in(contents).push(line), max), "\n"@) + "\n"@
}

/// Adds a line to a record that keeps the last `max_records`.
pub fn append_bounded_line_at(contents: &Option<String>, line: &str, max_records: usize) -> (r: String)
    ensures
        r@ == bounded(*contents, line@, max_records as int),
{
    let mut lines: Vec<String> = match contents {
        Some(s) => text::lines(s.as_str()),
        None => Vec::new(),
    };
    assert(text::texts(lines@) =~= lines_in(*contents));
    lines.push(text::copy(line));
    assert(text::texts(lines@) =~= lines_in(*contents).push(line@));
    let kept = keep_last(lines, max_records);
    let mut out = text::join(&kept, "\n");
    out.append("\n");
    out
}

/// Adds a line to the trace of the agents.
pub fn append_agent_trace_line(contents: &Option<String>, line: &str) -> (r: String)
    ensures
        r@ == bounded(*contents, line@, MAX_AGENT_TRACE_RECORDS as int),
{
    append_bounded_line_at(contents, line, MAX_AGENT_TRACE_RECORDS)
}

/// A record keeps its newest lines and no more: what is read back after a line
/// was added is the last `max` of the lines before and that line.
pub proof fn records_keep_the_newest(contents: Option<String>, line: Seq<char>, max: int)
    requires
        max > 0,
        text::one_line(line),
        forall|i: int|
            0 <= i < lines_in(contents).len() ==> text::one_line(#[trigger] lines_in(contents)[i]),
    ensures
        text::lines_of(bounded(contents, line, max)) == last_of(
            lines_in(contents).push(line),
            max,
        ),
        text::lines_of(bounded(contents, line, max)).len() <= max,
        text::lines_of(bounded(contents, line, max)).last() == line,
{
    let kept = last_of(lines_in(contents).push(line), max);
    assert forall|i: int| 0 <= i < kept.len() implies text::one_line(#[trigger] kept[i]) by {
        let all = lines_in(contents).push(line);
        let j = i + (all.len() - kept.len());
        assert(kept[i] == all[j]);
        if j < lines_in(contents).len() {
            assert(all[j] == lines_in(contents)[j]);
        }
    }
    text::lemma_lines_of_joined(kept);
}

/// What is added to the log for a line.
pub fn append_log_line(line: &str) -> (r: String)
    ensures
        r@ == line@ + "\n"@,
{
    router::joined(line, "\n")
}

/// The last `limit` lines of a log.
pub fn read_log_lines(contents: &Option<String>, limit: usize) -> (r: Vec<String>)
    ensures
        text::texts(r@) == last_of(lines_in(*contents), limit as int),
{
    let lines: Vec<String> = match contents {
        Some(s) => text::lines(s.as_str()),
        None => Vec::new(),
    };
    assert(text::texts(lines@) =~= lines_in(*contents));
    keep_last(lines, limit)
}

/// Every configuration and every log has a file of its own under `ollaic` in the user's
/// configuration directory.
pub proof fn files_are_kept_under_the_user_directory(
    r: Result<String, String>,
    dir: Option<String>,
    file: Seq<char>,
)
    requires
        places(r, dir, file),
    ensures
        dir is Some ==> r is Ok && r->Ok_0@ == paths::joined(
            paths::joined(dir->0@, "ollaic"@),
            file,
        ),
        dir is None ==> r is Err && r->Err_0@ == "Unable to locate user config directory"@,
        CONFIG_FILE@ == "ai.json"@,
        IMAGE_CONFIG_FILE@ == "ai-image.json"@,
        TTS_CONFIG_FILE@ == "ai-tts.json"@,
        MUSIC_CONFIG_FILE@ == "ai-music.json"@,
        LOG_FILE@ == "ai-log.jsonl"@,
        AGENT_TRACE_FILE@ == "ai-agent-trace.jsonl"@,
        MAX_AGENT_TRACE_RECORDS == 200,
{
}

/// A configuration that was never set up has its provider and model and no key, address or declared
/// capability; no declaration declares nothing.
pub proof fn fresh_configurations_hold_no_key(provider: Seq<char>, model: Seq<char>)
    ensures
        unconfigured(provider, model).provider == provider,
        unconfigured(provider, model).model == model,
        unconfigured(provider, model).api_key == Seq::<char>::empty(),
        unconfigured(provider, model).base_url == Seq::<char>::empty(),
        unconfigured(provider, model).capabilities is None,
        !no_declaration().chat_tools && !no_declaration().json_mode
            && !no_declaration().streaming_cancellation && !no_declaration().media_url_output,
        no_declaration().chat_deadline_ms is None,
        no_declaration().flow_step_deadline_ms is None,
        no_declaration().media_fetch_deadline_ms is None,
{
}

/// A file that can be read and parsed is loaded, whatever its backup is; the backup is used only
/// where the file is missing or cannot be parsed and the backup can. With neither file there is the
/// default, and everything else fails.
pub proof fn backups_stand_in_for_lost_files<T>(
    primary: ConfigFile<T>,
    backup: ConfigFile<T>,
    step: LoadStep<T>,
)
    requires
        load_step(primary, backup, step),
    ensures
        primary is Valid ==> step == LoadStep::Loaded(primary->Valid_0),
        step is Restore <==> primary is Missing && backup is Valid,
        step is Restore ==> step == LoadStep::Restore(backup->Valid_0),
        step is RestoreAndReport <==> primary is Corrupt && backup is Valid,
        step is Loaded <==> primary is Valid || primary is Missing && backup is Missing,
        primary is Unreadable ==> step is Failed && step->Failed_0@
            == "无法读取 Provider 配置文件"@,
        primary is Missing && backup is Unreadable ==> step is Failed && step->Failed_0@
            == "无法读取 Provider 配置备份"@,
        primary is Missing && backup is Corrupt ==> step is Failed && step->Failed_0@
            == "配置文件缺失且备份损坏，无法恢复"@,
        primary is Corrupt && (backup is Missing || backup is Unreadable) ==> step is Failed
            && step->Failed_0@ == "Provider 配置文件损坏且没有可用备份"@,
        primary is Corrupt && backup is Corrupt ==> step is Failed && step->Failed_0@
            == "Provider 配置文件损坏，备份也无法解析"@,
{
}

/// A backup that was restored for a missing file is what is loaded; for a file that could not be
/// parsed the load fails and says so. A restore that failed fails the load with its message.
pub proof fn loads_end_as_their_restore<T>(
    step: LoadStep<T>,
    restored: Option<Seq<char>>,
    r: Result<T, String>,
)
    requires
        load_gives(step, restored, r),
    ensures
        step is Loaded ==> r == Ok::<T, String>(step->Loaded_0),
        step is Failed ==> r is Err && r->Err_0@ == step->Failed_0@,
        step is Restore && restored is None ==> r == Ok::<T, String>(step->Restore_0),
        step is RestoreAndReport && restored is None ==> r is Err && r->Err_0@
            == "Provider 配置文件损坏，已从备份恢复；请重试"@,
        (step is Restore || step is RestoreAndReport) && restored is Some ==> r is Err && r->Err_0@
            == restored->0,
{
}

/// A save that nothing disturbs writes a temporary file, makes the file that was there the backup in
/// place of an older one, and puts the temporary file in its place.
pub proof fn saves_make_the_last_file_the_backup(
    last: Seq<u8>,
    older: Option<Seq<u8>>,
    stray: Option<Seq<u8>>,
    contents: Seq<u8>,
    torn: Option<Seq<u8>>,
)
    ensures
        ({
            let start = ConfigFiles { primary: Some(last), aside: older, temporary: stray };
            let a = after_replace(start, ReplaceView::WritingTemporary, contents, false, torn);
            let b = if older is Some {
                after_replace(a, ReplaceView::RemovingAside, contents, false, torn)
            } else {
                a
            };
            let c = after_replace(b, ReplaceView::SettingAside, contents, false, torn);
            let d = after_replace(c, ReplaceView::Replacing, contents, false, torn);
            &&& next_save(ReplaceView::WritingTemporary, None, true, older is Some) is Looking
            &&& next_save(ReplaceView::Looking, None, true, true) is RemovingAside
            &&& next_save(ReplaceView::Looking, None, true, false) is SettingAside
            &&& next_save(ReplaceView::RemovingAside, None, true, false) is SettingAside
            &&& next_save(ReplaceView::SettingAside, None, false, true) is RestrictingAside
            &&& next_save(ReplaceView::RestrictingAside, None, false, true) is Replacing
            &&& next_save(ReplaceView::Replacing, None, true, true) is RestrictingFile
            &&& next_save(ReplaceView::RestrictingFile, None, true, true) == ReplaceView::Done(None)
            &&& d.primary == Some(contents)
            &&& d.aside == Some(last)
            &&& d.temporary is None
        }),
        next_save(ReplaceView::Looking, None, false, true) is Replacing,
        next_save(ReplaceView::Looking, None, false, false) is Replacing,
{
}

/// A save that fails at a step ends with that step's message and never claims to be done; where the
/// file was set aside already, it is put back first.
pub proof fn failed_saves_say_so(m: Seq<char>, primary: bool, aside: bool)
    ensures
        next_save(ReplaceView::WritingTemporary, Some(m), primary, aside) == ReplaceView::Done(
            Some(m),
        ),
        next_save(ReplaceView::RemovingAside, Some(m), primary, aside) == ReplaceView::Done(
            Some("无法更新 Provider 配置备份"@),
        ),
        next_save(ReplaceView::SettingAside, Some(m), primary, aside) == ReplaceView::Done(
            Some("无法备份当前 Provider 配置"@),
        ),
        next_save(ReplaceView::RestrictingAside, Some(m), primary, aside) == ReplaceView::Done(
            Some(m),
        ),
        next_save(ReplaceView::Replacing, Some(m), false, true) is PuttingBack,
        primary || !aside ==> next_save(ReplaceView::Replacing, Some(m), primary, aside)
            == ReplaceView::Done(Some("无法原子替换 Provider 配置"@)),
        next_save(ReplaceView::PuttingBack, None, primary, aside) == ReplaceView::Done(
            Some("无法原子替换 Provider 配置"@),
        ),
        next_save(ReplaceView::PuttingBack, Some(m), primary, aside) == ReplaceView::Done(
            Some("无法原子替换 Provider 配置"@),
        ),
        next_save(ReplaceView::RestrictingFile, Some(m), primary, aside) == ReplaceView::Done(
            Some(m),
        ),
        next_restore(ReplaceView::WritingTemporary, Some(m), primary, aside) == ReplaceView::Done(
            Some(m),
        ),
        next_restore(ReplaceView::RemovingAside, Some(m), primary, aside) == ReplaceView::Done(
            Some("无法清理损坏的 Provider 配置"@),
        ),
        next_restore(ReplaceView::SettingAside, Some(m), primary, aside) == ReplaceView::Done(
            Some("无法隔离损坏的 Provider 配置"@),
        ),
        next_restore(ReplaceView::Replacing, Some(m), false, true) is PuttingBack,
        primary || !aside ==> next_restore(ReplaceView::Replacing, Some(m), primary, aside)
            == ReplaceView::Done(Some("无法恢复 Provider 配置备份"@)),
        next_restore(ReplaceView::PuttingBack, None, primary, aside) == ReplaceView::Done(
            Some("无法恢复 Provider 配置备份"@),
        ),
        next_restore(ReplaceView::PuttingBack, Some(m), primary, aside) == ReplaceView::Done(
            Some("无法恢复 Provider 配置备份"@),
        ),
        next_restore(ReplaceView::RestrictingFile, Some(m), primary, aside) == ReplaceView::Done(
            Some(m),
        ),
{
}

/// A restore that nothing disturbs writes the backup to a temporary file, takes the broken file out
/// of the way, puts the temporary file in its place and clears the broken one away.
pub proof fn restores_take_the_broken_file_away(
    broken: Option<Seq<u8>>,
    older: Option<Seq<u8>>,
    stray: Option<Seq<u8>>,
    contents: Seq<u8>,
    torn: Option<Seq<u8>>,
)
    ensures
        ({
            let start = ConfigFiles { primary: broken, aside: older, temporary: stray };
            let a = after_replace(start, ReplaceView::WritingTemporary, contents, false, torn);
            let b = if older is Some {
                after_replace(a, ReplaceView::RemovingAside, contents, false, torn)
            } else {
                a
            };
            let c = if broken is Some {
                after_replace(b, ReplaceView::SettingAside, contents, false, torn)
            } else {
                b
            };
            let d = after_replace(c, ReplaceView::Replacing, contents, false, torn);
            let e = after_replace(d, ReplaceView::CleaningUp, contents, false, torn);
            &&& e.primary == Some(contents)
            &&& e.aside is None
            &&& e.temporary is None
            &&& next_restore(ReplaceView::WritingTemporary, None, broken is Some, older is Some)
                is Looking
        }),
        forall|p: bool| (#[trigger] next_restore(ReplaceView::Looking, None, p, true))
            is RemovingAside,
        next_restore(ReplaceView::Looking, None, true, false) is SettingAside,
        next_restore(ReplaceView::Looking, None, false, false) is Replacing,
        next_restore(ReplaceView::RemovingAside, None, true, false) is SettingAside,
        next_restore(ReplaceView::RemovingAside, None, false, false) is Replacing,
        next_restore(ReplaceView::SettingAside, None, false, true) is Replacing,
        forall|q: bool| (#[trigger] next_restore(ReplaceView::Replacing, None, true, q))
            is CleaningUp,
        next_restore(ReplaceView::CleaningUp, None, true, false) is RestrictingFile,
        next_restore(ReplaceView::RestrictingFile, None, true, false) == ReplaceView::Done(None),
{
}

/// Of a log the newest lines are read, as many as are asked for or as there are, in their order; a
/// file that is not there has none.
pub proof fn logs_give_their_newest_lines(v: Seq<Seq<char>>, n: int)
    requires
        n >= 0,
    ensures
        last_of(v, n).len() == (if n < v.len() { n } else { v.len() as int }),
        forall|i: int|
            0 <= i < last_of(v, n).len() ==> #[trigger] last_of(v, n)[i] == v[v.len() - last_of(
                v,
                n,
            ).len() + i],
        lines_in(None) == Seq::<Seq<char>>::empty(),
        forall|s: String| #[trigger] lines_in(Some(s)) == text::lines_of(s@),
{
}

} // verus!
