//! What a provider can do, and how long it is given.
use vstd::prelude::*;

use crate::ai::config;
use crate::ai::config::{AiConfig, AiProviderConfig, ProviderCapabilityDeclaration};
use crate::agents::router;
use crate::text;

verus! {

broadcast use vstd::string::group_string_axioms;

pub const DEFAULT_CHAT_DEADLINE_MS: u64 = 120_000;

pub const DEFAULT_FLOW_DEADLINE_MS: u64 = 180_000;

pub const DEFAULT_MEDIA_FETCH_DEADLINE_MS: u64 = 30_000;

pub const MAX_DEADLINE_MS: u64 = 3_600_000;

#[derive(Debug, Clone, Copy, PartialEq, Eq, Structural)]
pub struct ProviderCapability {
    pub chat_tools: bool,
    pub json_mode: bool,
    pub streaming_cancellation: bool,
    pub media_url_output: bool,
    pub chat_deadline_ms: u64,
    pub flow_step_deadline_ms: u64,
    pub media_fetch_deadline_ms: u64,
}

#[derive(Debug, Clone, Copy, PartialEq, Eq, Structural)]
pub enum RequiredCapability {
    ChatTools,
    MediaUrlOutput,
}

/// Whether a capability is there.
pub open spec fn supports(c: ProviderCapability, required: RequiredCapability) -> bool {
    match required {
        RequiredCapability::ChatTools => c.chat_tools,
        RequiredCapability::MediaUrlOutput => c.media_url_output,
    }
}

/// The name of a capability in messages.
pub open spec fn label_of(required: RequiredCapability) -> Seq<char> {
    match required {
        RequiredCapability::ChatTools => "工具调用"@,
        RequiredCapability::MediaUrlOutput => "媒体 URL 输出"@,
    }
}

impl ProviderCapability {
    /// Refuses, before a request is made, what the provider does not support.
    pub fn require(self, required: RequiredCapability) -> (r: Result<(), String>)
        ensures
            r is Ok <==> supports(self, required),
            r matches Err(m) ==> m@ == "当前供应商/模型未声明支持"@ + label_of(required),
    {
        let (supported, label) = match required {
            RequiredCapability::ChatTools => (self.chat_tools, "工具调用"),
            RequiredCapability::MediaUrlOutput => (self.media_url_output, "媒体 URL 输出"),
        };
        if supported {
            Ok(())
        } else {
            Err(router::joined("当前供应商/模型未声明支持", label))
        }
    }
}

/// A provider that is known.
pub open spec fn builtin_of(
    chat_tools: bool,
    json_mode: bool,
    streaming_cancellation: bool,
    media_url_output: bool,
    flow_step_deadline_ms: u64,
) -> ProviderCapability {
    ProviderCapability {
        chat_tools,
        json_mode,
        streaming_cancellation,
        media_url_output,
        chat_deadline_ms: DEFAULT_CHAT_DEADLINE_MS,
        flow_step_deadline_ms,
        media_fetch_deadline_ms: DEFAULT_MEDIA_FETCH_DEADLINE_MS,
    }
}

/// A number, or what stands for it where there is none.
pub open spec fn or_default(n: Option<u64>, default: u64) -> u64 {
    match n {
        Some(v) => v,
        None => default,
    }
}

/// A provider of the user's own, as declared; what is not declared is not
/// there.
pub open spec fn custom_of(declaration: Option<ProviderCapabilityDeclaration>) -> ProviderCapability {
    let d = match declaration {
        Some(d) => d,
        None => config::no_declaration(),
    };
    ProviderCapability {
        chat_tools: d.chat_tools,
        json_mode: d.json_mode,
        streaming_cancellation: d.streaming_cancellation,
        media_url_output: d.media_url_output,
        chat_deadline_ms: or_default(d.chat_deadline_ms, DEFAULT_CHAT_DEADLINE_MS),
        flow_step_deadline_ms: or_default(d.flow_step_deadline_ms, DEFAULT_FLOW_DEADLINE_MS),
        media_fetch_deadline_ms: or_default(
            d.media_fetch_deadline_ms,
            DEFAULT_MEDIA_FETCH_DEADLINE_MS,
        ),
    }
}

/// What a provider can do; `None` for one that is not known.
pub open spec fn provider_table(
    provider: Seq<char>,
    declaration: Option<ProviderCapabilityDeclaration>,
) -> Option<ProviderCapability> {
    if provider == "openai"@ {
        Some(builtin_of(true, true, true, true, 180_000))
    } else if provider == "anthropic"@ {
        Some(builtin_of(true, false, true, false, 180_000))
    } else if provider == "gemini"@ {
        Some(builtin_of(true, true, true, true, 180_000))
    } else if provider == "deepseek"@ {
        Some(builtin_of(true, true, true, false, 180_000))
    } else if provider == "groq"@ || provider == "xai"@ || provider == "cohere"@ {
        Some(builtin_of(true, true, true, false, 120_000))
    } else if provider == "ollama"@ {
        Some(builtin_of(false, true, false, false, 600_000))
    } else if provider == "aliyun"@ || provider == "volcengine"@ || provider == "zhipu"@ || provider
        == "siliconflow"@ || provider == "elevenlabs"@ {
        Some(builtin_of(false, false, true, true, 600_000))
    } else if provider == "sd-webui"@ || provider == "comfyui"@ || provider == "edge-tts"@ {
        Some(builtin_of(false, false, false, false, 900_000))
    } else if provider == "custom"@ {
        Some(custom_of(declaration))
    } else {
        None
    }
}

/// Whether a deadline is one that may be set.
pub open spec fn deadline_allowed(ms: u64) -> bool {
    0 < ms <= MAX_DEADLINE_MS
}

/// Why a capability may not be used: the first deadline that may not be set.
pub open spec fn deadline_fault(c: ProviderCapability) -> Option<Seq<char>> {
    let tail = " 必须在 1 到 3600000 毫秒之间"@;
    if !deadline_allowed(c.chat_deadline_ms) {
        Some("chat_deadline_ms"@ + tail)
    } else if !deadline_allowed(c.flow_step_deadline_ms) {
        Some("flow_step_deadline_ms"@ + tail)
    } else if !deadline_allowed(c.media_fetch_deadline_ms) {
        Some("media_fetch_deadline_ms"@ + tail)
    } else {
        None
    }
}

/// What a configured provider can do, or why it may not be used.
pub open spec fn capability_of(c: config::ConfigView) -> Result<ProviderCapability, Seq<char>> {
    let provider = text::ascii_lowercase(text::trim_of(c.provider));
    let model = text::ascii_lowercase(text::trim_of(c.model));
    match provider_table(provider, c.capabilities) {
        None => if provider.len() == 0 {
            Err("尚未选择 AI 供应商"@)
        } else {
            Err("未知 AI 供应商："@ + text::trim_of(c.provider))
        },
        Some(found) => {
            let capability = if provider == "deepseek"@ && text::occurs(model, "reasoner"@) {
                ProviderCapability { chat_tools: false, ..found }
            } else {
                found
            };
            match deadline_fault(capability) {
                Some(m) => Err(m),
                None => Ok(capability),
            }
        },
    }
}

/// Whether an outcome is the expected one.
pub open spec fn agrees(
    r: Result<ProviderCapability, String>,
    expected: Result<ProviderCapability, Seq<char>>,
) -> bool {
    match (r, expected) {
        (Ok(a), Ok(b)) => a == b,
        (Err(m), Err(e)) => m@ == e,
        _ => false,
    }
}

fn builtin(
    chat_tools: bool,
    json_mode: bool,
    streaming_cancellation: bool,
    media_url_output: bool,
    flow_step_deadline_ms: u64,
) -> (r: ProviderCapability)
    ensures
        r == builtin_of(
            chat_tools,
            json_mode,
            streaming_cancellation,
            media_url_output,
            flow_step_deadline_ms,
        ),
{
    ProviderCapability {
        chat_tools,
        json_mode,
        streaming_cancellation,
        media_url_output,
        chat_deadline_ms: DEFAULT_CHAT_DEADLINE_MS,
        flow_step_deadline_ms,
        media_fetch_deadline_ms: DEFAULT_MEDIA_FETCH_DEADLINE_MS,
    }
}

fn from_custom(declaration: Option<ProviderCapabilityDeclaration>) -> (r: ProviderCapability)
    ensures
        r == custom_of(declaration),
{
    let d = match declaration {
        Some(d) => d,
        None => ProviderCapabilityDeclaration::default(),
    };
    ProviderCapability {
        chat_tools: d.chat_tools,
        json_mode: d.json_mode,
        streaming_cancellation: d.streaming_cancellation,
        media_url_output: d.media_url_output,
        chat_deadline_ms: d.chat_deadline_ms.unwrap_or(DEFAULT_CHAT_DEADLINE_MS),
        flow_step_deadline_ms: d.flow_step_deadline_ms.unwrap_or(DEFAULT_FLOW_DEADLINE_MS),
        media_fetch_deadline_ms: d.media_fetch_deadline_ms.unwrap_or(
            DEFAULT_MEDIA_FETCH_DEADLINE_MS,
        ),
    }
}

fn look_up(provider: &str, declaration: Option<ProviderCapabilityDeclaration>) -> (r: Option<
    ProviderCapability,
>)
    ensures
        r == provider_table(provider@, declaration),
{
    if text::same(provider, "openai") {
        Some(builtin(true, true, true, true, 180_000))
    } else if text::same(provider, "anthropic") {
        Some(builtin(true, false, true, false, 180_000))
    } else if text::same(provider, "gemini") {
        Some(builtin(true, true, true, true, 180_000))
    } else if text::same(provider, "deepseek") {
        Some(builtin(true, true, true, false, 180_000))
    } else if text::same(provider, "groq") || text::same(provider, "xai") || text::same(
        provider,
        "cohere",
    ) {
        Some(builtin(true, true, true, false, 120_000))
    } else if text::same(provider, "ollama") {
        Some(builtin(false, true, false, false, 600_000))
    } else if text::same(provider, "aliyun") || text::same(provider, "volcengine") || text::same(
        provider,
        "zhipu",
    ) || text::same(provider, "siliconflow") || text::same(provider, "elevenlabs") {
        Some(builtin(false, false, true, true, 600_000))
    } else if text::same(provider, "sd-webui") || text::same(provider, "comfyui") || text::same(
        provider,
        "edge-tts",
    ) {
        Some(builtin(false, false, false, false, 900_000))
    } else if text::same(provider, "custom") {
        Some(from_custom(declaration))
    } else {
        None
    }
}

fn validate_deadlines(c: ProviderCapability) -> (r: Result<(), String>)
    ensures
        match (r, deadline_fault(c)) {
            (Ok(_), None) => true,
            (Err(m), Some(e)) => m@ == e,
            _ => false,
        },
{
    if c.chat_deadline_ms == 0 || c.chat_deadline_ms > MAX_DEADLINE_MS {
        Err(router::joined("chat_deadline_ms", " 必须在 1 到 3600000 毫秒之间"))
    } else if c.flow_step_deadline_ms == 0 || c.flow_step_deadline_ms > MAX_DEADLINE_MS {
        Err(router::joined("flow_step_deadline_ms", " 必须在 1 到 3600000 毫秒之间"))
    } else if c.media_fetch_deadline_ms == 0 || c.media_fetch_deadline_ms > MAX_DEADLINE_MS {
        Err(router::joined("media_fetch_deadline_ms", " 必须在 1 到 3600000 毫秒之间"))
    } else {
        Ok(())
    }
}

/// What the provider of chats can do.
pub fn capability_for_config(config: &AiConfig) -> (r: Result<ProviderCapability, String>)
    ensures
        agrees(r, capability_of(config@)),
{
    let named = text::trim(config.provider.as_str());
    let provider = text::to_ascii_lowercase(named.as_str());
    let named_model = text::trim(config.model.as_str());
    let model = text::to_ascii_lowercase(named_model.as_str());
    match look_up(provider.as_str(), config.capabilities) {
        None => if provider.as_str().is_empty() {
            Err(text::copy("尚未选择 AI 供应商"))
        } else {
            Err(router::joined("未知 AI 供应商：", named.as_str()))
        },
        Some(found) => {
            let mut capability = found;
            // Reasoning models take no tool definitions, though the provider's
            // other models do.
            if text::same(provider.as_str(), "deepseek") && text::contains(
                model.as_str(),
                "reasoner",
            ) {
                capability.chat_tools = false;
            }
            match validate_deadlines(capability) {
                Ok(_) => Ok(capability),
                Err(m) => Err(m),
            }
        },
    }
}

/// What a provider of media can do, by the same rules.
pub fn capability_for_provider_config(config: &AiProviderConfig) -> (r: Result<
    ProviderCapability,
    String,
>)
    ensures
        agrees(r, capability_of(config@)),
{
    let same = AiConfig {
        provider: config.provider.clone(),
        model: config.model.clone(),
        api_key: config.api_key.clone(),
        base_url: config.base_url.clone(),
        capabilities: config.capabilities,
    };
    capability_for_config(&same)
}

/// Why the deadline of a media step cannot be told: the first provider that may
/// not be used.
pub open spec fn first_fault(configs: Seq<AiProviderConfig>) -> Option<Seq<char>>
    decreases configs.len(),
{
    if configs.len() == 0 {
        None
    } else {
        match first_fault(configs.drop_last()) {
            Some(m) => Some(m),
            None => match capability_of(configs.last()@) {
                Err(m) => Some(m),
                Ok(_) => None,
            },
        }
    }
}

/// The longest flow deadline of usable providers.
pub open spec fn longest(configs: Seq<AiProviderConfig>) -> int
    decreases configs.len(),
{
    if configs.len() == 0 {
        0
    } else {
        let before = longest(configs.drop_last());
        match capability_of(configs.last()@) {
            Ok(c) => if c.flow_step_deadline_ms > before {
                c.flow_step_deadline_ms as int
            } else {
                before
            },
            Err(_) => before,
        }
    }
}

proof fn lemma_first_fault(configs: Seq<AiProviderConfig>, k: int)
    requires
        0 <= k <= configs.len(),
        first_fault(configs.take(k)) is Some,
    ensures
        first_fault(configs) == first_fault(configs.take(k)),
    decreases configs.len() - k,
{
    if k < configs.len() {
        assert(configs.take(k + 1).drop_last() =~= configs.take(k));
        lemma_first_fault(configs, k + 1);
    } else {
        assert(configs.take(k) =~= configs);
    }
}

/// The deadline of a step that may use any of these providers: the longest.
pub fn media_flow_step_deadline_ms(configs: &[AiProviderConfig]) -> (r: Result<u64, String>)
    ensures
        match first_fault(configs@) {
            Some(m) => r matches Err(e) && e@ == m,
            None => if configs@.len() == 0 {
                r matches Err(e) && e@ == "没有可用于媒体步骤的供应商配置"@
            } else {
                r matches Ok(ms) && ms == longest(configs@)
            },
        },
{
    let mut longest_ms: u64 = 0;
    let mut i: usize = 0;
    while i < configs.len()
        invariant
            i <= configs.len(),
            first_fault(configs@.take(i as int)) is None,
            longest_ms == longest(configs@.take(i as int)),
        decreases configs.len() - i,
    {
        proof {
            assert(configs@.take(i + 1).drop_last() =~= configs@.take(i as int));
            assert(configs@.take(i + 1).last() == configs@[i as int]);
        }
        match capability_for_provider_config(&configs[i]) {
            Ok(c) => {
                if c.flow_step_deadline_ms > longest_ms {
                    longest_ms = c.flow_step_deadline_ms;
                }
            },
            Err(m) => {
                proof {
                    lemma_first_fault(configs@, i + 1);
                }
                return Err(m);
            },
        }
        i += 1;
    }
    assert(configs@.take(configs@.len() as int) =~= configs@);
    if configs.len() == 0 {
        Err(text::copy("没有可用于媒体步骤的供应商配置"))
    } else {
        Ok(longest_ms)
    }
}

/// Every deadline of a provider that may be used lies between a millisecond and
/// an hour.
pub proof fn usable_deadlines_are_bounded(c: config::ConfigView)
    ensures
        capability_of(c) matches Ok(found) ==> deadline_allowed(found.chat_deadline_ms)
            && deadline_allowed(found.flow_step_deadline_ms) && deadline_allowed(
            found.media_fetch_deadline_ms,
        ),
{
}

/// The deadline of a media step suffices for each of its providers, and is that
/// of one of them.
pub proof fn media_deadline_suffices(configs: Seq<AiProviderConfig>)
    requires
        configs.len() > 0,
        first_fault(configs) is None,
    ensures
        forall|i: int|
            0 <= i < configs.len() ==> (capability_of((#[trigger] configs[i])@) matches Ok(c)
                && c.flow_step_deadline_ms <= longest(configs)),
        exists|i: int|
            0 <= i < configs.len() && (capability_of((#[trigger] configs[i])@) matches Ok(c)
                && c.flow_step_deadline_ms == longest(configs)),
    decreases configs.len(),
{
    let d = configs.drop_last();
    let n = configs.len() - 1;
    assert(configs[n] == configs.last());
    usable_deadlines_are_bounded(configs.last()@);
    if d.len() > 0 {
        media_deadline_suffices(d);
        assert forall|i: int| 0 <= i < configs.len() implies (capability_of(
            (#[trigger] configs[i])@,
        ) matches Ok(c) && c.flow_step_deadline_ms <= longest(configs)) by {
            if i < n {
                assert(d[i] == configs[i]);
            }
        }
        if longest(configs) == longest(d) {
            let i = choose|i: int|
                0 <= i < d.len() && (capability_of((#[trigger] d[i])@) matches Ok(c)
                    && c.flow_step_deadline_ms == longest(d));
            assert(configs[i] == d[i]);
        }
    }
}

/// What a configured provider can do goes by its name, read without regard to case and surrounding
/// white space: which providers offer tools, JSON, cancellation and media by URL, and how long a
/// step of a flow may take there. A reasoning model of DeepSeek has no tools.
pub proof fn providers_can_do_what_is_known_of_them(c: config::ConfigView)
    ensures
        ({
            let p = text::ascii_lowercase(text::trim_of(c.provider));
            let m = text::ascii_lowercase(text::trim_of(c.model));
            let large = p == "openai"@ || p == "anthropic"@ || p == "gemini"@ || p == "deepseek"@;
            let fast = p == "groq"@ || p == "xai"@ || p == "cohere"@;
            let media = p == "aliyun"@ || p == "volcengine"@ || p == "zhipu"@ || p
                == "siliconflow"@ || p == "elevenlabs"@;
            let local = p == "sd-webui"@ || p == "comfyui"@ || p == "edge-tts"@;
            &&& large || fast || media || local || p == "ollama"@ ==> capability_of(c) is Ok && ({
                let found = capability_of(c)->Ok_0;
                &&& found.chat_tools <==> (large || fast) && !(p == "deepseek"@ && text::occurs(
                    m,
                    "reasoner"@,
                ))
                &&& found.json_mode <==> (large && p != "anthropic"@) || fast || p == "ollama"@
                &&& found.streaming_cancellation <==> large || fast || media
                &&& found.media_url_output <==> p == "openai"@ || p == "gemini"@ || media
                &&& found.chat_deadline_ms == 120_000
                &&& found.media_fetch_deadline_ms == 30_000
                &&& large ==> found.flow_step_deadline_ms == 180_000
                &&& fast ==> found.flow_step_deadline_ms == 120_000
                &&& media || p == "ollama"@ ==> found.flow_step_deadline_ms == 600_000
                &&& local ==> found.flow_step_deadline_ms == 900_000
            })
            &&& p == Seq::<char>::empty() ==> capability_of(c) == Err::<
                ProviderCapability,
                Seq<char>,
            >("尚未选择 AI 供应商"@)
            &&& !large && !fast && !media && !local && p != "ollama"@ && p != "custom"@ && p
                != Seq::<char>::empty() ==> capability_of(c) == Err::<ProviderCapability, Seq<char>>(
                "未知 AI 供应商："@ + text::trim_of(c.provider),
            )
        }),
{
    reveal_strlit("openai");
    reveal_strlit("anthropic");
    reveal_strlit("gemini");
    reveal_strlit("deepseek");
    reveal_strlit("groq");
    reveal_strlit("xai");
    reveal_strlit("cohere");
    reveal_strlit("ollama");
    reveal_strlit("aliyun");
    reveal_strlit("volcengine");
    reveal_strlit("zhipu");
    reveal_strlit("siliconflow");
    reveal_strlit("elevenlabs");
    reveal_strlit("sd-webui");
    reveal_strlit("comfyui");
    reveal_strlit("edge-tts");
    reveal_strlit("custom");
    let p = text::ascii_lowercase(text::trim_of(c.provider));
    if p.len() == 0 {
        assert(p =~= Seq::<char>::empty());
    }
    lemma_names_differ(p);
}

proof fn lemma_names_differ(p: Seq<char>)
    ensures
        p == "openai"@ ==> p.len() == 6 && p[0] == 'o' && p[1] == 'p',
        p == "anthropic"@ ==> p.len() == 9,
        p == "gemini"@ ==> p.len() == 6 && p[0] == 'g' && p[1] == 'e',
        p == "deepseek"@ ==> p.len() == 8 && p[0] == 'd',
        p == "groq"@ ==> p.len() == 4,
        p == "xai"@ ==> p.len() == 3,
        p == "cohere"@ ==> p.len() == 6 && p[0] == 'c' && p[1] == 'o',
        p == "ollama"@ ==> p.len() == 6 && p[0] == 'o' && p[1] == 'l',
        p == "aliyun"@ ==> p.len() == 6 && p[0] == 'a',
        p == "volcengine"@ ==> p.len() == 10 && p[0] == 'v',
        p == "zhipu"@ ==> p.len() == 5,
        p == "siliconflow"@ ==> p.len() == 11,
        p == "elevenlabs"@ ==> p.len() == 10 && p[0] == 'e',
        p == "sd-webui"@ ==> p.len() == 8 && p[0] == 's',
        p == "comfyui"@ ==> p.len() == 7,
        p == "edge-tts"@ ==> p.len() == 8 && p[0] == 'e',
        p == "custom"@ ==> p.len() == 6 && p[0] == 'c' && p[1] == 'u',
{
    reveal_strlit("openai");
    reveal_strlit("anthropic");
    reveal_strlit("gemini");
    reveal_strlit("deepseek");
    reveal_strlit("groq");
    reveal_strlit("xai");
    reveal_strlit("cohere");
    reveal_strlit("ollama");
    reveal_strlit("aliyun");
    reveal_strlit("volcengine");
    reveal_strlit("zhipu");
    reveal_strlit("siliconflow");
    reveal_strlit("elevenlabs");
    reveal_strlit("sd-webui");
    reveal_strlit("comfyui");
    reveal_strlit("edge-tts");
    reveal_strlit("custom");
}

/// A custom provider can do what it declares and nothing where it declares nothing; a deadline that
/// it leaves out is the default, and one outside of a millisecond to an hour is refused by name.
pub proof fn custom_providers_can_do_what_they_declare(c: config::ConfigView)
    requires
        text::ascii_lowercase(text::trim_of(c.provider)) == "custom"@,
    ensures
        c.capabilities is None ==> capability_of(c) == Ok::<ProviderCapability, Seq<char>>(
            ProviderCapability {
                chat_tools: false,
                json_mode: false,
                streaming_cancellation: false,
                media_url_output: false,
                chat_deadline_ms: 120_000,
                flow_step_deadline_ms: 180_000,
                media_fetch_deadline_ms: 30_000,
            },
        ),
        c.capabilities is Some ==> ({
            let d = c.capabilities->0;
            let chat = if d.chat_deadline_ms is Some { d.chat_deadline_ms->0 } else { 120_000 };
            let flow = if d.flow_step_deadline_ms is Some { d.flow_step_deadline_ms->0 } else {
                180_000
            };
            let fetch = if d.media_fetch_deadline_ms is Some { d.media_fetch_deadline_ms->0 } else {
                30_000
            };
            &&& 1 <= chat <= 3_600_000 && 1 <= flow <= 3_600_000 && 1 <= fetch <= 3_600_000
                ==> capability_of(c) == Ok::<ProviderCapability, Seq<char>>(
                ProviderCapability {
                    chat_tools: d.chat_tools,
                    json_mode: d.json_mode,
                    streaming_cancellation: d.streaming_cancellation,
                    media_url_output: d.media_url_output,
                    chat_deadline_ms: chat,
                    flow_step_deadline_ms: flow,
                    media_fetch_deadline_ms: fetch,
                },
            )
            &&& !(1 <= chat <= 3_600_000) ==> capability_of(c) == Err::<
                ProviderCapability,
                Seq<char>,
            >("chat_deadline_ms"@ + " 必须在 1 到 3600000 毫秒之间"@)
            &&& 1 <= chat <= 3_600_000 && !(1 <= flow <= 3_600_000) ==> capability_of(c) == Err::<
                ProviderCapability,
                Seq<char>,
            >("flow_step_deadline_ms"@ + " 必须在 1 到 3600000 毫秒之间"@)
            &&& 1 <= chat <= 3_600_000 && 1 <= flow <= 3_600_000 && !(1 <= fetch <= 3_600_000)
                ==> capability_of(c) == Err::<ProviderCapability, Seq<char>>(
                "media_fetch_deadline_ms"@ + " 必须在 1 到 3600000 毫秒之间"@,
            )
        }),
{
    lemma_names_differ("custom"@);
}

/// A capability is required of the field that declares it, and its name says so.
pub proof fn capabilities_are_required_by_name(c: ProviderCapability)
    ensures
        supports(c, RequiredCapability::ChatTools) == c.chat_tools,
        supports(c, RequiredCapability::MediaUrlOutput) == c.media_url_output,
        label_of(RequiredCapability::ChatTools) == "工具调用"@,
        label_of(RequiredCapability::MediaUrlOutput) == "媒体 URL 输出"@,
{
}

/// Of several configurations the first that cannot be used gives the fault; there is none exactly
/// where all can.
pub proof fn the_first_unusable_configuration_is_reported(configs: Seq<AiProviderConfig>)
    ensures
        first_fault(configs) is None <==> forall|i: int|
            0 <= i < configs.len() ==> capability_of((#[trigger] configs[i])@) is Ok,
        forall|k: int|
            0 <= k < configs.len() && capability_of((#[trigger] configs[k])@) is Err && (forall|
                i: int,
            |
                0 <= i < k ==> capability_of((#[trigger] configs[i])@) is Ok) ==> first_fault(
                configs,
            ) == Some(capability_of(configs[k]@)->Err_0),
    decreases configs.len(),
{
    if configs.len() > 0 {
        let t = configs.drop_last();
        let n = t.len() as int;
        the_first_unusable_configuration_is_reported(t);
        assert(forall|i: int| 0 <= i < n ==> #[trigger] t[i] == configs[i]);
        if forall|i: int| 0 <= i < n ==> capability_of((#[trigger] t[i])@) is Ok {
            assert forall|i: int| 0 <= i < n implies capability_of((#[trigger] configs[i])@)
                is Ok by {
                assert(t[i] == configs[i]);
            }
        } else {
            let i = choose|i: int| 0 <= i < n && !(capability_of((#[trigger] t[i])@) is Ok);
            assert(configs[i] == t[i]);
        }
        assert forall|k: int|
            0 <= k < configs.len() && capability_of((#[trigger] configs[k])@) is Err && (forall|
                i: int,
            |
                0 <= i < k ==> capability_of((#[trigger] configs[i])@) is Ok) implies first_fault(
            configs,
        ) == Some(capability_of(configs[k]@)->Err_0) by {
            if k < n {
                assert(t[k] == configs[k]);
                assert forall|i: int| 0 <= i < k implies capability_of((#[trigger] t[i])@) is Ok by {
                    assert(configs[i] == t[i]);
                }
            } else {
                assert forall|i: int| 0 <= i < n implies capability_of((#[trigger] t[i])@) is Ok by {
                    assert(configs[i] == t[i]);
                }
            }
        }
    }
}

/// What is looked up is what was expected: the same capability, or the same fault.
pub proof fn capabilities_are_those_expected(
    r: Result<ProviderCapability, String>,
    expected: Result<ProviderCapability, Seq<char>>,
)
    ensures
        agrees(r, expected) ==> (r is Ok <==> expected is Ok),
        agrees(r, expected) && r is Ok ==> r->Ok_0 == expected->Ok_0,
        agrees(r, expected) && r is Err ==> r->Err_0@ == expected->Err_0,
{
}

} // verus!
