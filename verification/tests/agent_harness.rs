use ollaic::agent_harness::cassette::{
    cassette_path, default_root, list, load, redact, request_hash, save_blob, shown_time, verify,
    Cassette, Interaction, InteractionKind, Request, Response, CASSETTE_VERSION,
};
use ollaic::agent_harness::chain::{
    advance, chain_steps, continues, describe_executor, finish, keep_recording, replay_cassette,
    report_step, run, step_mode, summarize, ChainEvent, ChainOptions, ChainPhase, ChainReport,
    StepGateway, StepMode, StepReport,
};
use ollaic::agent_harness::cli::{AgentArgs, AgentKind, ChainArgs, GlobalArgs, ProbeArgs};
use ollaic::agent_harness::gateway::{line_diff, truncate, RecordingGateway, ReplayGateway};
use ollaic::agent_harness::render::{
    blank_as_dash, chain_footer, chain_totals, first_line, interaction_line, key_state, mark,
    media_line, provider_json, provider_row, short, step_lines, stopped_on_purpose, LogEntry,
    Renderer, Turn, Validation,
};
use ollaic::agent_harness::scenario::{resolve_agent, PlanFile, Scenario};
use ollaic::agent_harness::{
    agent_failure, brief_source, cassette_root, chain_brief, chain_outcome, choose_brief,
    decode_media, non_empty, overridden_config, plan_source, probe_failed, with_config,
    BriefSource, PlanSource,
};
use ollaic::agents::router::ModelCompletion;
use ollaic::agents::{AgentError, AgentOutput, AgentOutputPayload, AgentRegistry};
use ollaic::ai::config::{AiConfig, AiProviderConfig};
use ollaic::ai::gateway::types::GeneratedMedia;
use ollaic::ai::provider_capability::capability_for_config;
use ollaic::pipeline::StepExecutor;
use ollaic::story_plan::StoryPlan;

fn interaction(seq: usize, system: &str, user: &str, answer: &str) -> Interaction {
    Interaction {
        seq,
        kind: InteractionKind::Chat,
        request_hash: request_hash(system, user),
        request: Request {
            system: system.into(),
            user: user.into(),
        },
        response: Response {
            text: Some(answer.into()),
            model: Some("m".into()),
            prompt_tokens: None,
            completion_tokens: None,
            blob: None,
        },
        elapsed_ms: 1,
    }
}

#[test]
fn hash_separates_system_from_user() {
    assert_ne!(request_hash("ab", "c"), request_hash("a", "bc"));
}

#[test]
fn hashes_are_sha256_of_the_separated_prompt() {
    assert_eq!(
        request_hash("", ""),
        "sha256:ffe679bb831c95b67dc17819c63c5090d221aac6f4c7bf530f594ab43d21fa1e"
    );
}

#[test]
fn find_matches_on_content_not_order() {
    let mut cassette = Cassette::new("custom".into(), "m".into());
    for (seq, user) in ["first", "second"].iter().enumerate() {
        cassette
            .interactions
            .push(interaction(seq, "sys", user, &format!("answer to {user}")));
    }

    let hit = cassette.find("sys", "second").expect("second is recorded");
    assert_eq!(hit.response.text.as_deref(), Some("answer to second"));
    assert!(cassette.find("sys", "third").is_none());
}

#[test]
fn verify_rejects_two_answers_for_one_prompt() {
    let mut cassette = Cassette::new("custom".into(), "m".into());
    for seq in 0..2 {
        cassette
            .interactions
            .push(interaction(seq, "sys", "same", &format!("answer {seq}")));
    }

    let error = verify(&cassette).expect_err("duplicate hashes must be rejected");
    assert!(error.contains("share request hash"), "{error}");
}

#[test]
fn redact_removes_the_configured_key_and_inline_credentials() {
    let redacted = redact(
        "call failed for sk-secret-123: authorization=Bearer sk-other",
        "sk-secret-123",
    );
    assert!(!redacted.contains("sk-secret-123"), "{redacted}");
    assert!(!redacted.contains("sk-other"), "{redacted}");
}

#[test]
fn redact_tolerates_an_empty_key() {
    assert_eq!(redact("plain text", ""), "plain text");
}

#[test]
fn a_cassette_of_another_version_is_refused() {
    let mut cassette = Cassette::new("custom".into(), "m".into());
    assert_eq!(cassette.version, CASSETTE_VERSION);
    cassette.version = 2;
    let path = cassette_path("root", "demo");
    assert_eq!(
        load(&path, cassette).unwrap_err(),
        "cassette root/demo/cassette.json has version 2, this build understands 1"
    );
    let known = Cassette::new("custom".into(), "m".into());
    assert!(load(&path, known).is_ok());
}

#[test]
fn cassettes_are_listed_in_order() {
    let names = list(vec!["b".to_string(), "a".to_string(), "c".to_string()]);
    assert_eq!(names, vec!["a", "b", "c"]);
    assert_eq!(default_root("/pkg"), "/pkg/fixtures/agent-harness");
}

#[test]
fn blobs_are_named_by_their_digest() {
    let (file, reference) = save_blob(&b"abc".to_vec(), "png");
    assert_eq!(
        file,
        "ba7816bf8f01cfea414140de5dae2223b00361a396177a9cb410ff61f20015ad.png"
    );
    assert_eq!(reference, format!("blobs/{file}"));
}

#[test]
fn chain_follows_the_default_recipe_and_drops_non_agent_steps() {
    let ids: Vec<String> = chain_steps().into_iter().map(|step| step.id).collect();
    assert_eq!(
        ids,
        vec!["plan", "memory", "outline", "character", "dialogist", "assetPlan", "scene"],
        "the chain must mirror default_recipe() order, minus assetQueue"
    );
}

#[test]
fn every_chain_step_resolves_to_a_registered_agent() {
    let registry = AgentRegistry::with_defaults();
    for step in chain_steps() {
        assert!(
            registry.get(step.kind, &step.executor).is_some(),
            "step `{}` has no agent; `agent-harness chain` would silently skip it",
            step.id
        );
    }
}

fn answer(text: &str) -> Result<Option<ModelCompletion>, String> {
    Ok(Some((text.to_string(), "model-a".to_string(), Some(11), Some(22))))
}

fn recorder(api_key: &str) -> RecordingGateway {
    RecordingGateway::new("custom".into(), "model-a".into(), api_key.into())
}

#[test]
fn recording_passes_through_and_captures_the_exchange() {
    let mut recorder = recorder("");
    recorder.record("sys", "usr", &answer(r#"{"ok":true}"#), 4);
    let cassette = recorder.into_cassette();
    assert_eq!(cassette.interactions.len(), 1);
    let recorded = &cassette.interactions[0];
    assert_eq!(recorded.request.user, "usr");
    assert_eq!(recorded.response.prompt_tokens, Some(11));
    assert!(verify(&cassette).is_ok());
}

#[test]
fn recording_captures_each_turn_of_a_repair_sequence() {
    let mut recorder = recorder("");
    recorder.record("sys", "first", &answer("{}"), 1);
    recorder.record("repair-sys", "second", &answer("{}"), 1);
    let cassette = recorder.into_cassette();
    assert_eq!(cassette.interactions.len(), 2);
    assert!(cassette.find("sys", "first").is_some());
    assert!(cassette.find("repair-sys", "second").is_some());
    assert!(verify(&cassette).is_ok());
}

#[test]
fn a_provider_error_is_not_recorded() {
    let mut recorder = recorder("");
    recorder.record("sys", "usr", &Err("provider exploded".to_string()), 1);
    assert!(recorder.into_cassette().interactions.is_empty());
}

#[test]
fn an_unconfigured_model_is_not_recorded() {
    let mut recorder = recorder("");
    recorder.record("sys", "usr", &Ok(None), 1);
    assert!(recorder.into_cassette().interactions.is_empty());
}

#[test]
fn recording_redacts_the_api_key_from_the_prompt() {
    let mut recorder = recorder("sk-live-key");
    recorder.record("sys", "use sk-live-key please", &answer("fine"), 1);
    let cassette = recorder.into_cassette();
    assert!(!cassette.interactions[0].request.user.contains("sk-live-key"));
}

#[test]
fn replay_serves_a_recorded_exchange() {
    let mut recorder = recorder("");
    let result = Ok(Some((
        "recorded answer".to_string(),
        "model-a".to_string(),
        Some(5),
        Some(7),
    )));
    recorder.record("sys", "usr", &result, 1);
    let replay = ReplayGateway::new(recorder.into_cassette(), "demo".into());
    let (text, model, prompt, completion) = replay.complete("sys", "usr").unwrap().unwrap();
    assert_eq!(text, "recorded answer");
    assert_eq!(model, "model-a");
    assert_eq!((prompt, completion), (Some(5), Some(7)));
}

#[test]
fn replay_miss_names_the_cassette_and_shows_the_changed_line() {
    let mut cassette = Cassette::new("custom".into(), "model-a".into());
    cassette
        .interactions
        .push(interaction(0, "sys", "line one\nline two", "answer"));
    let replay = ReplayGateway::new(cassette, "outline-01".into());
    let error = replay
        .complete("sys", "line one\nline TWO")
        .expect_err("a drifted prompt must fail loudly");
    assert!(error.contains("outline-01"), "{error}");
    assert!(error.contains("--- user prompt ---"), "{error}");
    assert!(error.contains("-   2 line two"), "{error}");
    assert!(error.contains("+   2 line TWO"), "{error}");
}

#[test]
fn replay_never_reaches_a_provider_on_an_empty_cassette() {
    let replay = ReplayGateway::new(Cassette::new("custom".into(), "m".into()), "empty".into());
    assert!(replay.complete("sys", "usr").is_err());
}

#[test]
fn differences_are_shown_line_by_line() {
    assert_eq!(line_diff("a\nb", "a\nc"), "-   2 b\n+   2 c\n");
    assert_eq!(line_diff("a", "a\nc"), "+   2 c\n");
    assert_eq!(
        line_diff("a\n", "a"),
        "(identical line-by-line; difference is in trailing whitespace)\n"
    );
    let old: Vec<String> = (0..20).map(|i| format!("old {i}")).collect();
    let new: Vec<String> = (0..20).map(|i| format!("new {i}")).collect();
    let shown = line_diff(&old.join("\n"), &new.join("\n"));
    assert_eq!(shown.lines().count(), 25);
    assert!(shown.ends_with("… (further differences omitted)\n"));
    assert_eq!(truncate("abcdef", 3), "abc…");
    assert_eq!(truncate("abc", 3), "abc");
}

#[test]
fn key_state_never_leaks_the_key() {
    let state = key_state("sk-supersecret");
    assert!(!state.contains("sk-"), "{state}");
    assert_eq!(state, "set(14)");
    assert_eq!(key_state("   "), "unset");
}

#[test]
fn provider_json_reports_key_presence_not_value() {
    let value = provider_json("openai", "gpt-4o", "", "sk-abc", "https://api.openai.com/v1");
    assert_eq!(value.api_key, "set(6)");
    assert!(!format!("{value:?}").contains("sk-abc"));
}

#[test]
fn first_line_truncates_a_wall_of_text() {
    let long = "x".repeat(500);
    let shown = first_line(&long);
    assert!(shown.chars().count() <= 121, "{}", shown.chars().count());
    assert!(shown.ends_with('…'));
}

#[test]
fn first_line_stops_at_the_newline() {
    assert_eq!(first_line("head\ntail"), "head");
}

#[test]
fn keys_of_one_length_are_shown_alike() {
    assert_eq!(key_state("abc"), key_state(" xyz "));
}

#[test]
fn every_selectable_agent_resolves_in_the_default_registry() {
    let registry = AgentRegistry::with_defaults();
    for kind in [
        AgentKind::Plan,
        AgentKind::Memory,
        AgentKind::Outline,
        AgentKind::Character,
        AgentKind::Asset,
        AgentKind::Scene,
        AgentKind::Dialogist,
    ] {
        assert!(
            resolve_agent(&registry, kind).is_ok(),
            "{kind:?} must be reachable, or `agent-harness agent {kind:?}` is dead"
        );
    }
    let empty: AgentRegistry<u8> = AgentRegistry::new();
    assert_eq!(
        resolve_agent(&empty, AgentKind::Scene).unwrap_err(),
        "no agent registered for Scene"
    );
}

#[test]
fn context_carries_the_plan_through() {
    let mut plan = StoryPlan::new("原始 Brief".to_string());
    plan.synopsis = "一个夏天的故事".into();
    let scenario = Scenario {
        plan,
        brief: "原始 Brief".into(),
        instruction: "多写两章".into(),
        allow_local_fallback: true,
    };

    let ctx = scenario.context();
    assert_eq!(ctx.prompt, "原始 Brief");
    assert_eq!(ctx.instruction, "多写两章");
    assert_eq!(ctx.synopsis, "一个夏天的故事");
    assert!(ctx.allow_local_fallback);
}

#[test]
fn a_missing_plan_is_explained() {
    assert_eq!(
        Scenario::from_project(Ok(None), "/p/plan.json").err().unwrap(),
        "no StoryPlan at /p/plan.json — run a Flow in the app first, or pass --scenario"
    );
    assert_eq!(
        Scenario::from_project(Err("x".to_string()), "p").err().unwrap(),
        "failed to load StoryPlan: x"
    );
    assert_eq!(
        Scenario::from_file("f", PlanFile::Unreadable("gone".to_string())).err().unwrap(),
        "failed to read scenario f: gone"
    );
    assert_eq!(
        Scenario::from_file("f", PlanFile::Invalid("bad".to_string())).err().unwrap(),
        "scenario f is not a valid StoryPlan: bad"
    );
}

fn step(id: &str, outcome: Result<String, String>) -> StepReport {
    StepReport {
        id: id.into(),
        kind: "plan",
        executor: "agent".into(),
        elapsed_ms: 1500,
        model: None,
        prompt_tokens: Some(3),
        completion_tokens: Some(4),
        interactions: 2,
        warnings: vec!["careful".into()],
        downgrade: None,
        outcome,
    }
}

#[test]
fn a_chain_is_added_up() {
    let steps = vec![
        step("plan", Ok("synopsis 3 字".into())),
        step("memory", Err("broken\nsecond".into())),
    ];
    let totals = chain_totals(&steps);
    assert_eq!((totals.prompt_tokens, totals.completion_tokens), (6, 8));
    assert_eq!((totals.elapsed_ms, totals.passed), (3000, 1));
    assert_eq!(
        chain_footer(totals, 7, "3.0"),
        "1/7 步通过 · 3.0s · tokens 6 in / 8 out"
    );
    assert!(stopped_on_purpose(totals, 7, false));
    assert!(!stopped_on_purpose(totals, 7, true));
    assert_eq!(
        step_lines(&steps[1], "1.5"),
        vec![
            "✗ memory    agent         1.5s     2  broken",
            "             ↳ 2 轮（含 JSON 修复）",
            "             ⚠ careful",
            "               second",
        ]
    );
}

#[test]
fn a_chain_goes_on_until_it_fails_or_is_stopped() {
    assert!(continues(&step("plan", Ok("x".into())), &None));
    assert!(!continues(&step("plan", Ok("x".into())), &Some("plan".to_string())));
    assert!(!continues(&step("plan", Err("x".into())), &None));
}

#[test]
fn steps_are_reported() {
    let def = &chain_steps()[0];
    let output = AgentOutput {
        payload: AgentOutputPayload::Synopsis("三个字".into()),
        model: Some("m".into()),
        prompt_tokens: Some(1),
        completion_tokens: None,
        warnings: Vec::new(),
        downgrade: None,
    };
    let report = report_step(def, 9, 1, &Ok(output), &Ok(()));
    assert_eq!(report.outcome, Ok("synopsis 3 字".to_string()));
    assert_eq!(report.model.as_deref(), Some("m"));
    let failed = report_step(def, 9, 1, &Err(AgentError("no".to_string())), &Ok(()));
    assert_eq!(failed.outcome, Err("no".to_string()));
}

#[test]
fn payloads_are_summed_up() {
    assert_eq!(
        summarize(&AgentOutputPayload::Synopsis("雨夜".into())),
        "synopsis 2 字"
    );
    assert_eq!(summarize(&AgentOutputPayload::Characters(Vec::new())), "0 个角色");
    assert_eq!(describe_executor(&StepExecutor::NamedAgent("dialogist".into())), "dialogist");
    assert_eq!(describe_executor(&StepExecutor::AssetQueue), "assetQueue");
}

#[test]
fn a_step_is_recorded_before_it_is_replayed() {
    let full = Some("full".to_string());
    assert_eq!(step_mode(&full, &full, "plan"), StepMode::Record("full-plan".into()));
    assert_eq!(step_mode(&None, &full, "plan"), StepMode::Replay("full-plan".into()));
    assert_eq!(step_mode(&None, &None, "plan"), StepMode::Live);
}

#[test]
fn a_missing_cassette_is_an_empty_one() {
    let missing = replay_cassette(Err("gone".to_string()), false).unwrap();
    assert!(missing.interactions.is_empty());
    assert_eq!(keep_recording(&missing), Ok(false));
    assert_eq!(replay_cassette(Err("bad".to_string()), true).unwrap_err(), "bad");
    let mut twice = Cassette::new("p".into(), "m".into());
    twice.interactions.push(interaction(0, "s", "u", "a"));
    assert_eq!(keep_recording(&twice), Ok(true));
    twice.interactions.push(interaction(1, "s", "u", "b"));
    assert!(keep_recording(&twice).is_err());
}

#[test]
fn rows_are_filled() {
    assert_eq!(
        provider_row("chat ", "openai", "", "abc", ""),
        "chat   openai       -                        key set(3)    (provider default)"
    );
    assert_eq!(blank_as_dash("x"), "x");
    assert_eq!(short("https://e"), "https://e");
    assert_eq!((mark(true), mark(false)), ("✓", "✗"));
    assert_eq!(media_line("a.png", 2048, 7), "wrote a.png (2 KiB) in 7ms");
    let shown = interaction(3, "s", "u", "a");
    assert_eq!(
        interaction_line(&shown),
        format!("#3 Chat 1ms  {}", shown.request_hash)
    );
    assert!(Renderer::new(true).is_json());
}

#[test]
fn a_probe_may_use_other_settings() {
    let mut args = ProbeArgs {
        provider: None,
        model: None,
        base_url: None,
        api_key: None,
        offline: false,
    };
    let (same, overridden) = overridden_config(AiConfig::default(), &args, &None);
    assert!(!overridden);
    assert_eq!(same.model, "gpt-4o-mini");
    args.model = Some("other".into());
    args.api_key = Some("mine".into());
    let env = Some("env".to_string());
    let (changed, overridden) = overridden_config(AiConfig::default(), &args, &env);
    assert!(overridden);
    assert_eq!((changed.model.as_str(), changed.api_key.as_str()), ("other", "mine"));
    args.api_key = None;
    let (changed, _) = overridden_config(AiConfig::default(), &args, &env);
    assert_eq!(changed.api_key, "env");
}

#[test]
fn probes_fail_on_either_side() {
    assert!(probe_failed(false, &None));
    assert!(probe_failed(true, &Some(Err("x".to_string()))));
    assert!(!probe_failed(true, &Some(Ok(()))));
    assert!(!probe_failed(true, &None));
    assert_eq!(with_config(Ok(1u8), Err("back".to_string())), Err("back".to_string()));
    assert_eq!(
        with_config::<u8>(Err("own".to_string()), Err("back".to_string())),
        Err("own".to_string())
    );
}

#[test]
fn an_agent_needs_a_plan() {
    let mut args = AgentArgs {
        kind: AgentKind::Plan,
        project: None,
        scenario: None,
        brief: None,
        instruction: String::new(),
        allow_local_fallback: false,
        out: None,
    };
    assert_eq!(
        plan_source(&args).unwrap_err(),
        "pass --project <dir> or --scenario <file> to supply a StoryPlan"
    );
    args.scenario = Some("f".into());
    assert_eq!(plan_source(&args), Ok(PlanSource::File("f".into())));
    args.project = Some("p".into());
    assert_eq!(plan_source(&args), Ok(PlanSource::Project("p".into())));
    let mut plan = StoryPlan::new(" ".to_string());
    plan.synopsis = "s".into();
    assert_eq!(choose_brief(&None, &plan), "s");
    assert_eq!(choose_brief(&Some("b".to_string()), &plan), "b");
    assert_eq!(non_empty(" "), None);
    assert_eq!(
        agent_failure(AgentError("e".to_string()), true),
        "e (the cassette was still written)"
    );
}

#[test]
fn cassettes_may_be_kept_elsewhere() {
    let mut global = GlobalArgs {
        profile: None,
        record: None,
        replay: None,
        cassette_dir: None,
        json: false,
    };
    assert_eq!(cassette_root(&global, "/d"), "/d");
    global.cassette_dir = Some("/c".into());
    assert_eq!(cassette_root(&global, "/d"), "/c");
}

#[test]
fn media_is_decoded_from_base64() {
    let media = |data: &str| GeneratedMedia {
        base64_data: data.into(),
        extension: "png".into(),
    };
    assert_eq!(decode_media(&media("aGk=")), Ok(b"hi".to_vec()));
    let error = decode_media(&media("!")).unwrap_err();
    assert!(error.starts_with("provider returned media that is not valid base64: "));
}

#[test]
fn a_probe_is_reported() {
    let capability = capability_for_config(&AiConfig::default()).unwrap();
    let people = Renderer::new(false);
    let validation = Some(Validation {
        ok: true,
        provider: "openai".into(),
        model: "m".into(),
        endpoint: "".into(),
        message: "fine".into(),
    });
    let turn = Turn {
        text: Some("pong\nmore".into()),
        tool_calls: vec![("ping".into(), "{}".into()), ("pong".into(), "{}".into())],
    };
    let lines = people.probe(&validation, &capability, &Some(Ok(turn)));
    assert_eq!(lines[0], "✓ connect     openai m @ (provider default)");
    assert_eq!(lines[1], "           fine");
    assert_eq!(lines[2], "✓ chat tools");
    assert_eq!(
        lines[6],
        "  deadlines   chat 120000ms / flow step 180000ms / media fetch 30000ms"
    );
    assert_eq!(
        &lines[7..],
        ["✓ live round-trip", "           tool calls: ping, pong", "           pong"]
    );
    let offline = people.probe(&None, &capability, &None);
    assert_eq!(offline[5], "- live round-trip skipped (--offline)");
    let failed = people.probe(&None, &capability, &Some(Err("down".into())));
    assert_eq!(&failed[5..], ["✗ live round-trip", "           down"]);
    assert!(Renderer::new(true).probe(&None, &capability, &None).is_empty());
}

#[test]
fn turns_and_outputs_are_reported() {
    let people = Renderer::new(false);
    let silent = Turn {
        text: None,
        tool_calls: Vec::new(),
    };
    assert_eq!(
        people.turn(&silent),
        vec!["(the model returned neither text nor a tool call)"]
    );
    let spoken = Turn {
        text: Some("hi".into()),
        tool_calls: vec![("f".into(), "{}".into())],
    };
    assert_eq!(people.turn(&spoken), vec!["hi", "→ f({})"]);
    let output = AgentOutput {
        payload: AgentOutputPayload::Synopsis("s".into()),
        model: Some("m".into()),
        prompt_tokens: Some(1),
        completion_tokens: Some(2),
        warnings: vec!["w".into()],
        downgrade: Some("local-template".into()),
    };
    assert_eq!(
        people.agent("Plan", &output, "{}", 7),
        vec![
            "Plan completed in 7ms",
            "model m  tokens 1 in / 2 out",
            "downgrade: local-template",
            "warning: w",
            "",
            "{}"
        ]
    );
    assert_eq!(people.media("a.png", 2048, 7), vec!["wrote a.png (2 KiB) in 7ms"]);
}

#[test]
fn logs_and_cassettes_are_listed() {
    let people = Renderer::new(false);
    assert_eq!(people.logs(&Vec::new()), vec!["(no log entries)"]);
    let entry = LogEntry {
        success: false,
        action: "chat".into(),
        provider: "openai".into(),
        model: "m".into(),
        message: "bad\nworse".into(),
    };
    assert_eq!(
        people.logs(&vec![entry]),
        vec![format!("✗ {:<14} {:<10} {:<24} bad", "chat", "openai", "m")]
    );
    assert_eq!(
        people.cassette_list(Vec::new(), "/r"),
        vec!["(no cassettes under /r)"]
    );
    assert_eq!(people.cassette_list(vec!["a".into()], "/r"), vec!["a"]);
    assert_eq!(people.raw_lines(vec!["x".into()]), vec!["x"]);
}

fn synopsis() -> AgentOutput {
    AgentOutput {
        payload: AgentOutputPayload::Synopsis("雨夜".into()),
        model: None,
        prompt_tokens: None,
        completion_tokens: None,
        warnings: Vec::new(),
        downgrade: None,
    }
}

fn options(record: Option<&str>, replay: Option<&str>, stop_after: Option<&str>) -> ChainOptions {
    ChainOptions {
        brief: "brief".into(),
        allow_local_fallback: false,
        record: record.map(String::from),
        replay: replay.map(String::from),
        cassette_root: "cassettes".into(),
        stop_after: stop_after.map(String::from),
    }
}

fn empty() -> Cassette {
    Cassette::new(String::new(), String::new())
}

#[test]
fn a_chain_runs_every_step_in_order() {
    let mut chain = run(&options(None, None, None));
    for i in 0..chain_steps().len() {
        assert!(matches!(&chain.phase, ChainPhase::Running(k, StepGateway::Live) if *k == i));
        // Each step gets what the one before it has left.
        let context = chain.context().unwrap();
        assert_eq!(context.prompt, "brief");
        assert_eq!(context.instruction, chain_steps()[i].prompt);
        assert_eq!(context.synopsis, "x".repeat(i));
        chain = advance(chain, ChainEvent::Ran(Ok(synopsis()), empty()));
        assert!(chain.context().is_none());
        chain = advance(chain, ChainEvent::Judged(Ok(()), 5));
        assert!(matches!(&chain.phase, ChainPhase::Applying(k, _) if *k == i));
        let mut left = StoryPlan::new("brief".into());
        left.synopsis = "x".repeat(i + 1);
        chain = advance(chain, ChainEvent::Applied(left));
    }
    assert!(matches!(chain.phase, ChainPhase::Done(Ok(()))));
    let report = finish(chain).unwrap_or_else(|_| panic!("the chain has passed"));
    assert_eq!(report.plan.synopsis, "x".repeat(chain_steps().len()));
    let reported: Vec<String> = report.steps.into_iter().map(|step| step.id).collect();
    let all: Vec<String> = chain_steps().into_iter().map(|step| step.id).collect();
    assert_eq!(reported, all);
}

#[test]
fn a_chain_takes_the_brief_that_is_given_first() {
    let args = |brief: Option<&str>, file: Option<&str>| ChainArgs {
        brief: brief.map(String::from),
        brief_file: file.map(String::from),
        show_brief: false,
        allow_local_fallback: false,
        stop_after: None,
        out: None,
    };
    let given = brief_source(&args(Some("a"), Some("b.md")));
    assert_eq!(given, BriefSource::Given("a".to_string()));
    let unread = || Err("gone".to_string());
    assert_eq!(chain_brief(given, unread(), "c"), Ok("a".to_string()));
    let file = brief_source(&args(None, Some("b.md")));
    assert_eq!(file, BriefSource::File("b.md".to_string()));
    assert_eq!(
        chain_brief(file, unread(), "c"),
        Err("failed to read brief b.md: gone".to_string())
    );
    let file = brief_source(&args(None, Some("b.md")));
    assert_eq!(chain_brief(file, Ok("text".to_string()), "c"), Ok("text".to_string()));
    let built_in = brief_source(&args(None, None));
    assert_eq!(chain_brief(built_in, unread(), "c"), Ok("c".to_string()));
}

#[test]
fn a_clock_before_its_start_shows_zero() {
    assert_eq!(shown_time(Some(7)), 7);
    assert_eq!(shown_time(None), 0);
    assert!(Cassette::new(String::new(), String::new()).recorded_at_ms > 0);
}

#[test]
fn a_chain_with_a_failed_step_fails() {
    let report = |steps| ChainReport { steps, plan: StoryPlan::new("brief".into()) };
    let passed = report(vec![step("plan", Ok("fine".into()))]);
    assert_eq!(chain_outcome(&passed), Ok(()));
    let failed = report(vec![step("plan", Ok("fine".into())), step("memory", Err("no".into()))]);
    assert_eq!(chain_outcome(&failed), Err("chain failed".to_string()));
}

#[test]
fn a_chain_stops_at_the_first_failure() {
    let chain = run(&options(None, None, None));
    let chain = advance(chain, ChainEvent::Ran(Ok(synopsis()), empty()));
    let chain = advance(chain, ChainEvent::Judged(Err("not accepted".into()), 5));
    assert!(matches!(chain.phase, ChainPhase::Done(Ok(()))));
    assert_eq!(chain.steps.len(), 1);
    assert_eq!(chain.steps[0].outcome, Err("not accepted".to_string()));
}

#[test]
fn a_chain_stops_where_it_is_told_to() {
    let first = chain_steps()[0].id.clone();
    let chain = run(&options(None, None, Some(&first)));
    let chain = advance(chain, ChainEvent::Ran(Ok(synopsis()), empty()));
    let chain = advance(chain, ChainEvent::Judged(Ok(()), 5));
    let chain = advance(chain, ChainEvent::Applied(StoryPlan::new("brief".into())));
    assert!(matches!(chain.phase, ChainPhase::Done(Ok(()))));
    let seconds = vec!["   0.0".to_string()];
    let report = ChainReport { steps: chain.steps, plan: StoryPlan::new("brief".into()) };
    let lines = Renderer::new(false).chain(&report, &seconds, "0.0");
    assert_eq!(lines[0], "STEP        EXECUTOR         TIME  CALL  RESULT");
    assert_eq!(lines[3], format!("1/{} 步通过 · 0.0s · tokens 0 in / 0 out", chain_steps().len()));
    assert_eq!(lines[4], "（其余步骤未运行：--stop-after）");
    assert!(Renderer::new(true).chain(&report, &seconds, "0.0").is_empty());
}

#[test]
fn a_recording_is_kept_before_its_step_is_judged() {
    let first = chain_steps()[0].id.clone();
    let chain = run(&options(Some("full"), None, None));
    assert!(matches!(
        &chain.phase,
        ChainPhase::Running(0, StepGateway::Recording(name)) if *name == format!("full-{first}")
    ));
    let mut recorded = empty();
    recorded.interactions.push(interaction(0, "s", "u", "a"));
    let chain = advance(chain, ChainEvent::Ran(Err(AgentError("no".into())), recorded));
    assert!(matches!(&chain.phase, ChainPhase::Saving(0, _, _, _)));
    let chain = advance(chain, ChainEvent::Saved(Ok(())));
    assert!(matches!(&chain.phase, ChainPhase::Judging(0, 1, Err(_))));
    let chain = advance(chain, ChainEvent::Judged(Ok(()), 5));
    assert_eq!(chain.steps[0].outcome, Err("no".to_string()));
    assert_eq!(chain.steps[0].interactions, 1);

    let mut twice = empty();
    twice.interactions.push(interaction(0, "s", "u", "a"));
    twice.interactions.push(interaction(1, "s", "u", "b"));
    let chain = advance(
        run(&options(Some("full"), None, None)),
        ChainEvent::Ran(Ok(synopsis()), twice),
    );
    assert!(matches!(&chain.phase, ChainPhase::Done(Err(m)) if m.contains("two recorded answers")));
}

#[test]
fn a_step_without_a_cassette_is_replayed_from_nothing() {
    let chain = run(&options(None, Some("full"), None));
    assert!(matches!(&chain.phase, ChainPhase::Loading(0, _)));
    let chain = advance(chain, ChainEvent::Loaded(Err("gone".into()), false));
    assert!(matches!(
        &chain.phase,
        ChainPhase::Running(0, StepGateway::Replaying(g)) if g.cassette.interactions.is_empty()
    ));
    let chain = run(&options(None, Some("full"), None));
    let chain = advance(chain, ChainEvent::Loaded(Err("torn".into()), true));
    assert!(matches!(&chain.phase, ChainPhase::Done(Err(m)) if m == "torn"));
}

#[test]
fn settings_are_shown() {
    let chat = AiConfig::default();
    let image = AiProviderConfig::image_default();
    let tts = AiProviderConfig::tts_default();
    let music = AiProviderConfig::music_default();
    let lines = Renderer::new(false).config(
        (&chat, "https://chat"),
        (&image, ""),
        (&tts, ""),
        (&music, ""),
        "/c",
        "/c/ai-log.jsonl",
        "/c/trace",
    );
    assert_eq!(lines.len(), 8);
    assert_eq!(lines[0], "config dir   /c");
    assert_eq!(lines[3], "");
    assert_eq!(
        lines[4],
        provider_row("chat ", &chat.provider, &chat.model, &chat.api_key, "https://chat")
    );
    assert!(lines[7].starts_with("music  "));
}
