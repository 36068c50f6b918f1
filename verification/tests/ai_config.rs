use ollaic::ai::chat_runs::{ChatRunRegistry, RunPhase, CANCELLED_MARKER_TTL, MAX_CANCELLED_MARKERS};
use ollaic::ai::config::{
    agent_trace_path, append_agent_trace_line, append_bounded_line_at, append_log_line,
    config_path, default_system_prompt, finish_load, load_config, load_config_at,
    load_image_config, load_music_config, load_tts_config, log_path, read_log_lines,
    restore_primary_from_backup, restricts_log_directory, save_config, save_config_at,
    save_image_config, save_music_config, save_tts_config, AiConfig, AiProviderConfig, ConfigFile,
    LoadStep, ProviderCapabilityDeclaration, ReplaceEvent, ReplacePhase, CONFIG_FILE,
};
use ollaic::ai::gateway::types::{
    extension_from_mime, normalize_audio_format, strip_data_url_prefix, ImageReference,
};
use ollaic::ai::provider_capability::{
    capability_for_config, capability_for_provider_config, media_flow_step_deadline_ms,
    RequiredCapability, MAX_DEADLINE_MS,
};
use ollaic::ai::secrets::{redact_common_secrets, redact_known_secret};

#[test]
fn audio_format_falls_back_to_mp3_and_tolerates_dotted_input() {
    assert_eq!(normalize_audio_format(".WAV"), "wav");
    assert_eq!(normalize_audio_format("pcm"), "pcm");
    assert_eq!(normalize_audio_format("something-else"), "mp3");
}

#[test]
fn extension_prefers_the_mime_then_the_requested_format() {
    assert_eq!(extension_from_mime("audio/wav", "mp3"), "wav");
    assert_eq!(extension_from_mime("application/octet-stream", "mp3"), "mp3");
}

#[test]
fn data_url_prefix_is_stripped_only_when_present() {
    assert_eq!(strip_data_url_prefix("data:image/png;base64,QUJD"), "QUJD");
    assert_eq!(strip_data_url_prefix("QUJD"), "QUJD");
    assert_eq!(strip_data_url_prefix("a,b"), "a,b");
    assert_eq!(strip_data_url_prefix("data:text/plain,b"), "data:text/plain,b");
    assert_eq!(strip_data_url_prefix("x;base64,b"), "x;base64,b");
}

#[test]
fn image_reference_renders_the_data_url_providers_expect() {
    let reference = ImageReference {
        mime: "image/png".to_string(),
        base64: "QUJD".to_string(),
    };
    assert_eq!(reference.data_url(), "data:image/png;base64,QUJD");
    assert_eq!(strip_data_url_prefix(&reference.data_url()), "QUJD");
}

fn config(provider: &str, model: &str) -> AiConfig {
    AiConfig {
        provider: provider.to_string(),
        model: model.to_string(),
        api_key: String::new(),
        base_url: String::new(),
        capabilities: None,
    }
}

#[test]
fn provider_capability_table_covers_configured_chat_providers() {
    for (provider, tools, json, local) in [
        ("openai", true, true, false),
        ("anthropic", true, false, false),
        ("gemini", true, true, false),
        ("deepseek", true, true, false),
        ("groq", true, true, false),
        ("xai", true, true, false),
        ("cohere", true, true, false),
        ("ollama", false, true, true),
    ] {
        let capability = capability_for_config(&config(provider, "model")).unwrap();
        assert_eq!(capability.chat_tools, tools, "{provider}");
        assert_eq!(capability.json_mode, json, "{provider}");
        assert_eq!(capability.flow_step_deadline_ms >= 120_000, true);
        assert_eq!(capability.flow_step_deadline_ms >= 600_000, local);
    }
}

#[test]
fn model_class_can_remove_provider_level_tool_support() {
    let capability = capability_for_config(&config("deepseek", "deepseek-reasoner")).unwrap();
    assert!(!capability.chat_tools);
    assert!(capability.json_mode);
}

#[test]
fn provider_names_are_compared_in_lower_case() {
    let upper = capability_for_config(&config("OpenAI", "model")).unwrap();
    assert_eq!(upper, capability_for_config(&config("openai", "model")).unwrap());
}

#[test]
fn custom_declaration_is_resolved_and_legacy_config_is_conservative() {
    let legacy = capability_for_config(&config("custom", "legacy-model")).unwrap();
    assert!(!legacy.chat_tools);
    assert!(!legacy.json_mode);

    let mut declared = config("custom", "tool-model");
    declared.capabilities = Some(ProviderCapabilityDeclaration {
        chat_tools: true,
        json_mode: true,
        streaming_cancellation: true,
        media_url_output: true,
        flow_step_deadline_ms: Some(240_000),
        ..Default::default()
    });
    let capability = capability_for_config(&declared).unwrap();
    assert!(capability.chat_tools);
    assert!(capability.media_url_output);
    assert_eq!(capability.flow_step_deadline_ms, 240_000);
}

#[test]
fn unknown_provider_and_invalid_custom_deadline_fail_early() {
    assert!(capability_for_config(&config("mystery", "model"))
        .unwrap_err()
        .contains("未知"));

    let mut invalid = config("custom", "model");
    invalid.capabilities = Some(ProviderCapabilityDeclaration {
        chat_deadline_ms: Some(0),
        ..Default::default()
    });
    assert!(capability_for_config(&invalid)
        .unwrap_err()
        .contains("chat_deadline_ms"));
    invalid.capabilities = Some(ProviderCapabilityDeclaration {
        media_fetch_deadline_ms: Some(MAX_DEADLINE_MS + 1),
        ..Default::default()
    });
    assert!(capability_for_config(&invalid)
        .unwrap_err()
        .contains("media_fetch_deadline_ms"));
}

#[test]
fn unsupported_capability_reports_before_request() {
    let capability = capability_for_config(&config("ollama", "qwen2.5:7b")).unwrap();
    assert!(capability
        .require(RequiredCapability::ChatTools)
        .unwrap_err()
        .contains("工具调用"));
}

#[test]
fn media_provider_config_uses_the_same_capability_contract() {
    let config = AiProviderConfig {
        provider: "custom".to_string(),
        model: "image-model".to_string(),
        api_key: String::new(),
        base_url: "https://example.test/v1".to_string(),
        capabilities: Some(ProviderCapabilityDeclaration {
            media_url_output: true,
            flow_step_deadline_ms: Some(720_000),
            ..Default::default()
        }),
    };
    let capability = capability_for_provider_config(&config).unwrap();
    assert!(capability.media_url_output);
    assert_eq!(capability.flow_step_deadline_ms, 720_000);
}

#[test]
fn asset_queue_uses_the_longest_declared_media_deadline() {
    let config_with_deadline = |deadline| AiProviderConfig {
        provider: "custom".to_string(),
        model: "media-model".to_string(),
        api_key: String::new(),
        base_url: "https://example.test/v1".to_string(),
        capabilities: Some(ProviderCapabilityDeclaration {
            flow_step_deadline_ms: Some(deadline),
            ..Default::default()
        }),
    };
    let deadline = media_flow_step_deadline_ms(&[
        config_with_deadline(240_000),
        config_with_deadline(900_000),
        config_with_deadline(600_000),
    ])
    .unwrap();
    assert_eq!(deadline, 900_000);
}

fn configured(key: &str) -> AiConfig {
    AiConfig {
        provider: "openai".into(),
        model: "gpt-test".into(),
        api_key: key.into(),
        base_url: "https://example.test".into(),
        capabilities: None,
    }
}

/// The files of one configuration, kept in memory.
struct Files {
    primary: Option<String>,
    backup: Option<String>,
    aside: Option<String>,
    temporary: Option<String>,
}

fn parse(file: &Option<String>) -> ConfigFile<AiConfig> {
    match file {
        None => ConfigFile::Missing,
        Some(text) => match text.strip_prefix("key:") {
            Some(key) => ConfigFile::Valid(configured(key)),
            None => ConfigFile::Corrupt,
        },
    }
}

impl Files {
    fn new(primary: Option<&str>, backup: Option<&str>) -> Files {
        Files {
            primary: primary.map(|s| s.to_string()),
            backup: backup.map(|s| s.to_string()),
            aside: None,
            temporary: None,
        }
    }

    fn save(&mut self, content: &str, failing: Option<ReplacePhase>) -> Result<(), String> {
        let mut phase = ReplacePhase::WritingTemporary;
        loop {
            let fails = failing.as_ref() == Some(&phase);
            match &phase {
                ReplacePhase::Done(result) => return result.clone(),
                ReplacePhase::WritingTemporary if !fails => {
                    self.temporary = Some(content.to_string())
                }
                ReplacePhase::RemovingAside => self.backup = None,
                ReplacePhase::SettingAside => self.backup = self.primary.take(),
                ReplacePhase::Replacing if !fails => self.primary = self.temporary.take(),
                ReplacePhase::PuttingBack => self.primary = self.backup.take(),
                _ => {}
            }
            let event = ReplaceEvent {
                result: if fails {
                    Err("Provider 配置写入在替换前失败".to_string())
                } else {
                    Ok(())
                },
                primary: self.primary.is_some(),
                aside: self.backup.is_some(),
            };
            phase = save_config_at(phase, event);
        }
    }

    fn restore(&mut self) -> Result<(), String> {
        let mut phase = ReplacePhase::WritingTemporary;
        loop {
            match &phase {
                ReplacePhase::Done(result) => return result.clone(),
                ReplacePhase::WritingTemporary => self.temporary = self.backup.clone(),
                ReplacePhase::RemovingAside => self.aside = None,
                ReplacePhase::SettingAside => self.aside = self.primary.take(),
                ReplacePhase::Replacing => self.primary = self.temporary.take(),
                ReplacePhase::CleaningUp => self.aside = None,
                _ => {}
            }
            let event = ReplaceEvent {
                result: Ok(()),
                primary: self.primary.is_some(),
                aside: self.aside.is_some(),
            };
            phase = restore_primary_from_backup(phase, event);
        }
    }

    fn load(&mut self) -> Result<AiConfig, String> {
        let step = load_config_at(parse(&self.primary), parse(&self.backup), AiConfig::default());
        let restored = match &step {
            LoadStep::Restore(_) | LoadStep::RestoreAndReport => self.restore(),
            LoadStep::Loaded(_) | LoadStep::Failed(_) => Ok(()),
        };
        finish_load(step, restored)
    }
}

#[test]
fn truncated_primary_recovers_valid_backup_and_reports_it() {
    let mut files = Files::new(Some(r#"{"provider":"openai""#), Some("key:secret"));
    let error = files.load().unwrap_err();
    assert!(error.contains("已从备份恢复"));
    assert!(!error.contains("secret"));
    let loaded = files.load().unwrap();
    assert_eq!(loaded.model, "gpt-test");
    assert!(files.backup.is_some());
}

#[test]
fn invalid_primary_and_backup_fail_without_exposing_contents() {
    let mut files = Files::new(Some(r#"{"api_key":"primary-secret""#), Some("backup-secret"));
    let error = files.load().unwrap_err();
    assert!(error.contains("配置文件损坏"));
    assert!(!error.contains("primary-secret"));
    assert!(!error.contains("backup-secret"));
}

#[test]
fn failed_replace_keeps_previous_valid_configuration() {
    let mut files = Files::new(None, None);
    files.save("key:old-key", None).unwrap();
    let error = files
        .save("key:new-key", Some(ReplacePhase::WritingTemporary))
        .unwrap_err();
    assert!(error.contains("替换前"));
    assert_eq!(files.load().unwrap().api_key, "old-key");
}

#[test]
fn a_failed_rename_puts_the_configuration_back() {
    let mut files = Files::new(Some("key:old-key"), Some("key:older-key"));
    let error = files.save("key:new-key", Some(ReplacePhase::Replacing)).unwrap_err();
    assert_eq!(error, "无法原子替换 Provider 配置");
    assert_eq!(files.load().unwrap().api_key, "old-key");
    files.save("key:new-key", None).unwrap();
    assert_eq!(files.load().unwrap().api_key, "new-key");
    assert_eq!(files.backup.as_deref(), Some("key:old-key"));
}

#[test]
fn a_missing_configuration_is_the_default() {
    let mut files = Files::new(None, None);
    assert_eq!(files.load().unwrap().model, "gpt-4o-mini");
    let mut backup_only = Files::new(None, Some("key:k"));
    assert_eq!(backup_only.load().unwrap().api_key, "k");
    assert_eq!(backup_only.primary.as_deref(), Some("key:k"));
    let broken = load_config_at::<AiConfig>(
        ConfigFile::Corrupt,
        ConfigFile::Missing,
        AiConfig::default(),
    );
    assert_eq!(
        broken,
        LoadStep::Failed("Provider 配置文件损坏且没有可用备份".to_string())
    );
}

#[test]
fn agent_trace_retention_keeps_only_the_newest_records() {
    let mut contents: Option<String> = None;
    for value in 0..5 {
        contents = Some(append_bounded_line_at(&contents, &value.to_string(), 3));
    }
    assert_eq!(contents.unwrap(), "2\n3\n4\n");
    assert_eq!(append_agent_trace_line(&None, "x"), "x\n");
    assert_eq!(append_log_line("x"), "x\n");
}

#[test]
fn log_lines_are_read_from_the_end() {
    let contents = Some("1\n2\n3\n".to_string());
    assert_eq!(read_log_lines(&contents, 2), vec!["2", "3"]);
    assert_eq!(read_log_lines(&contents, 9), vec!["1", "2", "3"]);
    assert!(read_log_lines(&None, 9).is_empty());
}

#[test]
fn configurations_have_their_places() {
    let dir = Some("/home/u/.config".to_string());
    assert_eq!(
        config_path(&dir, CONFIG_FILE).unwrap(),
        "/home/u/.config/ollaic/ai.json"
    );
    assert_eq!(save_config(&dir).unwrap(), "/home/u/.config/ollaic/ai.json");
    assert_eq!(save_image_config(&dir).unwrap(), "/home/u/.config/ollaic/ai-image.json");
    assert_eq!(save_tts_config(&dir).unwrap(), "/home/u/.config/ollaic/ai-tts.json");
    assert_eq!(save_music_config(&dir).unwrap(), "/home/u/.config/ollaic/ai-music.json");
    assert_eq!(log_path(&dir).unwrap(), "/home/u/.config/ollaic/ai-log.jsonl");
    assert_eq!(
        agent_trace_path(&dir).unwrap(),
        "/home/u/.config/ollaic/ai-agent-trace.jsonl"
    );
    assert!(config_path(&None, CONFIG_FILE).is_err());
    assert!(restricts_log_directory("/home/u/.config/ollaic"));
    assert!(default_system_prompt().starts_with("You are a WebGAL story editing assistant."));
}

#[test]
fn each_configuration_has_a_default() {
    let dir = Some("/c".to_string());
    assert_eq!(
        load_config(&dir, ConfigFile::Missing, ConfigFile::Missing),
        LoadStep::Loaded(AiConfig::default())
    );
    assert_eq!(
        load_image_config(&dir, ConfigFile::Missing, ConfigFile::Missing),
        LoadStep::Loaded(AiProviderConfig::image_default())
    );
    assert_eq!(
        load_tts_config(&dir, ConfigFile::Missing, ConfigFile::Missing),
        LoadStep::Loaded(AiProviderConfig::tts_default())
    );
    assert_eq!(
        load_music_config(&dir, ConfigFile::Missing, ConfigFile::Missing),
        LoadStep::Loaded(AiProviderConfig::music_default())
    );
}

/// Runs a provider's answer to its end.
fn run<T>(
    registry: &mut ChatRunRegistry,
    project: &str,
    id: &str,
    now: u64,
    value: T,
) -> Result<T, String> {
    match registry.run_cancellable(project, id, RunPhase::Beginning, None, now) {
        RunPhase::Done(result) => result,
        phase => match registry.run_cancellable(project, id, phase, Some(Ok(value)), now) {
            RunPhase::Done(result) => result,
            _ => unreachable!(),
        },
    }
}

#[test]
fn ai_chat_cancel_aborts_registered_provider_future() {
    let mut registry = ChatRunRegistry::new();
    let polled: RunPhase<u8> =
        registry.run_cancellable("/project/a", "run-a", RunPhase::Beginning, None, 0);
    assert!(matches!(polled, RunPhase::Polling(_)));
    assert!(registry.cancel("/project/a", "run-a", 1).unwrap());
    assert!(registry.cancel("/project/a", "run-a", 2).unwrap());
    let error = match registry.run_cancellable("/project/a", "run-a", polled, None, 3) {
        RunPhase::Done(result) => result.unwrap_err(),
        _ => unreachable!(),
    };
    assert!(error.contains("cancelled"));
    assert!(!registry.cancel("/project/a", "run-a", 4).unwrap());
    assert!(run(&mut registry, "/project/a", "run-a", 5, ())
        .unwrap_err()
        .contains("has been cancelled"));
}

#[test]
fn ai_chat_cancel_is_idempotent_for_unknown_or_finished_runs() {
    let mut registry = ChatRunRegistry::new();
    assert!(!registry.cancel("/project/a", "missing", 0).unwrap());
    assert_eq!(run(&mut registry, "/project/a", "done", 1, 42).unwrap(), 42);
    assert!(!registry.cancel("/project/a", "done", 2).unwrap());
}

#[test]
fn a_new_run_id_is_independent_from_a_cancelled_run() {
    let mut registry = ChatRunRegistry::new();
    assert_eq!(run(&mut registry, "/project/a", "run-b", 0, "new").unwrap(), "new");
}

#[test]
fn project_b_cannot_cancel_or_reuse_project_a_run_id() {
    let mut registry = ChatRunRegistry::new();
    let token = registry.begin("/project/a", "shared", 0).unwrap();
    let cancel_error = registry.cancel("/project/b", "shared", 1).unwrap_err();
    assert!(cancel_error.contains("belongs to project"));
    let reuse_error = run(&mut registry, "/project/b", "shared", 2, ()).unwrap_err();
    assert!(reuse_error.contains("belongs to project"));
    assert!(registry.cancel("/project/a", "shared", 3).unwrap());
    registry.finish("shared", token, 4);
    assert_eq!(registry.marker_count(), 1);
}

#[test]
fn cancel_before_register_rejects_the_late_provider_for_the_same_project() {
    let mut registry = ChatRunRegistry::new();
    assert!(!registry.cancel("/project/a", "late", 0).unwrap());
    for now in 1..3 {
        assert!(run(&mut registry, "/project/a", "late", now, ())
            .unwrap_err()
            .contains("has been cancelled"));
    }
}

#[test]
fn another_project_cannot_consume_a_cancel_before_register_marker() {
    let mut registry = ChatRunRegistry::new();
    assert!(!registry.cancel("/project/a", "late", 0).unwrap());
    assert!(run(&mut registry, "/project/b", "late", 1, ())
        .unwrap_err()
        .contains("belongs to project"));
    assert!(run(&mut registry, "/project/a", "late", 2, ())
        .unwrap_err()
        .contains("has been cancelled"));
}

#[test]
fn a_run_cancelled_before_it_begins_is_never_polled() {
    let mut registry = ChatRunRegistry::new();
    assert!(!registry.cancel("/project/a", "late", 0).unwrap());
    for now in 1..4 {
        let phase: RunPhase<u8> =
            registry.run_cancellable("/project/a", "late", RunPhase::Beginning, Some(Ok(1)), now);
        let expected = Err("chat run has been cancelled: late".to_string());
        assert_eq!(phase, RunPhase::Done(expected));
        let phase: RunPhase<u8> =
            registry.run_cancellable("/project/b", "late", RunPhase::Beginning, Some(Ok(1)), now);
        match phase {
            RunPhase::Done(Err(error)) => assert!(error.contains("belongs to project")),
            _ => panic!("another project began the run"),
        }
    }
    assert_eq!(registry.marker_count(), 1);
}

#[test]
fn a_marker_outlives_fewer_newer_ones_than_are_kept() {
    let mut registry = ChatRunRegistry::new();
    assert!(!registry.cancel("/project/a", "late", 0).unwrap());
    for index in 1..MAX_CANCELLED_MARKERS {
        assert!(!registry.cancel("/project/b", &format!("other-{index}"), 1).unwrap());
    }
    for now in [2, 3, CANCELLED_MARKER_TTL - 1] {
        assert!(registry
            .begin("/project/b", "late", now)
            .unwrap_err()
            .contains("belongs to project"));
        assert!(registry
            .begin("/project/a", "late", now)
            .unwrap_err()
            .contains("has been cancelled"));
    }
    // One more makes room by taking the oldest.
    assert!(!registry.cancel("/project/b", "last", 2).unwrap());
    assert!(registry.begin("/project/a", "late", 3).is_ok());
}

#[test]
fn cancel_before_register_markers_expire_and_are_bounded() {
    let mut registry = ChatRunRegistry::new();
    for index in 0..=MAX_CANCELLED_MARKERS {
        assert!(!registry.cancel("/project/a", &format!("late-{index}"), 0).unwrap());
    }
    assert_eq!(registry.marker_count(), MAX_CANCELLED_MARKERS);
    assert!(run(
        &mut registry,
        "/project/a",
        &format!("late-{MAX_CANCELLED_MARKERS}"),
        0,
        ()
    )
    .unwrap_err()
    .contains("has been cancelled"));
    assert_eq!(run(&mut registry, "/project/a", "late-0", 0, 7).unwrap(), 7);

    assert!(!registry.cancel("/project/a", "expires", 0).unwrap());
    let later = CANCELLED_MARKER_TTL;
    assert_eq!(run(&mut registry, "/project/a", "expires", later, 7).unwrap(), 7);
}

#[test]
fn a_live_run_cannot_begin_again() {
    let mut registry = ChatRunRegistry::new();
    registry.begin("/project/a", "run", 0).unwrap();
    assert!(registry
        .begin("/project/a", "run", 1)
        .unwrap_err()
        .contains("chat run already active: run"));
}

#[test]
fn secrets_are_taken_out() {
    assert_eq!(redact_known_secret("a key-1 b", "key-1"), "a [REDACTED] b");
    assert_eq!(redact_common_secrets("no secrets here"), "no secrets here");
    let shown = redact_common_secrets("authorization=Bearer abc.def sk-12345");
    assert!(!shown.contains("abc.def"));
    assert!(!shown.contains("sk-12345"));
}
