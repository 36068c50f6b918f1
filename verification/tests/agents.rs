use ollaic::agents::asset_planner::{
    ensure_staged_figure_tasks, fill_missing_task_ids, validate_asset_plan, AssetPlannerAgent,
};
use ollaic::agents::character::{
    discard_incomplete_relations, validate_characters, CharacterAgent, CharacterSeed,
};
use ollaic::agents::outline::{
    fill_missing_summaries, is_safe_scene_file, validate_response, OutlineAgent, OutlineResponse,
};
use ollaic::agents::router::{
    advance, contract_error, escape_string_control_characters, extract_json, json_candidates,
    parse_outcome, prompt, Conversation, ModelEvent, ModelTask,
};
use ollaic::agents::scene::{
    clean, clean_choice, compile_beat, validate_scene_inputs, validate_script, SceneAgent,
};
use ollaic::agents::{AgentContext, AgentError, AgentOutput, AgentOutputPayload, AgentRegistry};
use ollaic::characters::{Character, CharacterRelation};
use ollaic::pipeline::{default_recipe, StepExecutor, StepKind};
use ollaic::story_plan::{
    AssetTaskPlan, BranchEdge, BranchGraph, ChapterPlan, DialogueBeat, FigureCue, FigureCueAction,
    FigureStagePosition, SceneDraft, ScenePlan,
};
use ollaic::text_map::TextMap;

fn character(id: &str, name: &str) -> Character {
    Character {
        id: id.to_string(),
        name: name.to_string(),
        aliases: Vec::new(),
        description: String::new(),
        personality: String::new(),
        reference_images: Vec::new(),
        stance: String::new(),
        keywords: Vec::new(),
        dialogue_style: String::new(),
        gender: String::new(),
        age: String::new(),
        sprites: Vec::new(),
        default_voice: None,
        voice_timbre: None,
        relations: Vec::new(),
        color_theme: None,
        notes: String::new(),
    }
}

fn scene(id: &str, file: &str, title: &str, summary: &str, cast: &[&str]) -> ScenePlan {
    ScenePlan {
        id: id.into(),
        file: file.into(),
        chapter_id: "ch1".into(),
        title: title.into(),
        summary: summary.into(),
        character_ids: cast.iter().map(|c| c.to_string()).collect(),
    }
}

fn show(id: &str, position: FigureStagePosition, emotion: &str) -> FigureCue {
    FigureCue {
        action: FigureCueAction::Show,
        character_id: id.into(),
        position: Some(position),
        emotion: emotion.into(),
    }
}

fn figure_task(id: &str, stem: &str, character: &str, emotion: &str) -> AssetTaskPlan {
    AssetTaskPlan {
        id: id.into(),
        kind: "figure".into(),
        target_stem: stem.into(),
        prompt: "Alice".into(),
        scene_ref: None,
        character_ref: Some(character.into()),
        emotion: Some(emotion.into()),
        status: "pending".into(),
    }
}

fn text_field(value: &serde_json::Value, key: &str) -> String {
    value.get(key).and_then(|v| v.as_str()).unwrap_or("").to_string()
}

fn opt_field(value: &serde_json::Value, key: &str) -> Option<String> {
    value.get(key).and_then(|v| v.as_str()).map(|s| s.to_string())
}

#[test]
fn model_response_without_task_id_does_not_abort_asset_planner() {
    let response = r#"{
            "assetPlan":[{
                "kind":"background",
                "targetStem":"bg_opening",
                "prompt":"黄昏教室",
                "sceneRef":"opening",
                "status":"pending"
            }]
        }"#;
    let value: serde_json::Value = serde_json::from_str(response).unwrap();
    let mut tasks: Vec<AssetTaskPlan> = value["assetPlan"]
        .as_array()
        .unwrap()
        .iter()
        .map(|t| AssetTaskPlan {
            id: text_field(t, "id"),
            kind: text_field(t, "kind"),
            target_stem: text_field(t, "targetStem"),
            prompt: text_field(t, "prompt"),
            scene_ref: opt_field(t, "sceneRef"),
            character_ref: opt_field(t, "characterRef"),
            emotion: opt_field(t, "emotion"),
            status: text_field(t, "status"),
        })
        .collect();
    fill_missing_task_ids(&mut tasks);
    assert_eq!(tasks[0].id, "background_bg_opening");
}

#[test]
fn planned_tasks_are_pending_by_default() {
    let task = AssetTaskPlan {
        id: "bg_opening".into(),
        kind: "background".into(),
        target_stem: "bg_opening".into(),
        prompt: "教室".into(),
        scene_ref: Some("opening".into()),
        character_ref: None,
        emotion: None,
        status: "pending".into(),
    };
    assert_eq!(task.status, "pending");
    let mut tasks = vec![task];
    fill_missing_task_ids(&mut tasks);
    ensure_staged_figure_tasks(
        &mut tasks,
        &[character("alice", "alice"), character("bob", "bob")],
        &staged_drafts(),
    );
    assert_eq!(tasks.len(), 3);
    assert!(tasks.iter().all(|task| task.status == "pending"));
    let mut done = figure_task("first", "first", "alice", "default");
    done.status = "done".into();
    let error = validate_asset_plan(&[done], &[], &[character("alice", "alice")]).unwrap_err();
    assert!(error.0.contains("$.assetPlan[0].status"));
}

#[test]
fn agents_tell_the_model_what_the_flow_has() {
    let glossary: TextMap<String> = TextMap::new();
    let branches = BranchGraph { entry_scene: String::new(), edges: vec![] };
    let cards = [character("alice", "Alice")];
    let drafts = staged_drafts();
    let mut ctx = AgentContext {
        prompt: "brief",
        instruction: "instruction",
        synopsis: "  synopsis ",
        chapters: &[],
        worldbook: "world",
        glossary: &glossary,
        characters: &cards,
        scene_plans: &[],
        branches: &branches,
        scene_drafts: &drafts,
        asset_plan: &[],
        allow_local_fallback: false,
    };
    let outline = OutlineAgent.input(&ctx).ok().unwrap();
    assert_eq!(outline.production_brief, "brief");
    assert_eq!(outline.synopsis, "synopsis");
    assert_eq!(outline.worldbook, "world");
    assert_eq!(outline.step_instruction, "instruction");
    let assets = AssetPlannerAgent.input(&ctx).ok().unwrap();
    assert_eq!(assets.characters.len(), 1);
    assert_eq!(assets.scene_drafts.len(), 1);
    assert!(CharacterAgent.input(&ctx).is_err());
    ctx.synopsis = "   ";
    ctx.scene_drafts = &[];
    assert!(OutlineAgent.input(&ctx).is_err());
    assert!(AssetPlannerAgent.input(&ctx).is_err());
}

#[test]
fn unknown_scene_reference_reports_asset_field_path() {
    let tasks = vec![AssetTaskPlan {
        id: "bg_opening".into(),
        kind: "background".into(),
        target_stem: "bg_opening".into(),
        prompt: "教室".into(),
        scene_ref: Some("missing".into()),
        character_ref: None,
        emotion: None,
        status: "pending".into(),
    }];
    let error = validate_asset_plan(&tasks, &[], &[]).unwrap_err();
    assert!(error.0.contains("$.assetPlan[0].sceneRef"));
}

#[test]
fn duplicate_figure_variant_reports_asset_field_path() {
    let tasks = ["first", "second"].map(|id| figure_task(id, id, "alice", "default"));
    let error = validate_asset_plan(&tasks, &[], &[character("alice", "alice")]).unwrap_err();
    assert!(error.0.contains("$.assetPlan[1].emotion"));
}

fn staged_drafts() -> Vec<SceneDraft> {
    let cue = show("alice", FigureStagePosition::Left, "default");
    vec![SceneDraft {
        scene_id: "opening".into(),
        title: "Opening".into(),
        stage_managed: true,
        beats: vec![DialogueBeat {
            speaker: Some("Alice".into()),
            text: "Hello".into(),
            figure_cues: vec![
                cue.clone(),
                cue,
                show("bob", FigureStagePosition::Right, "angry"),
            ],
        }],
    }]
}

#[test]
fn staging_adds_one_task_for_each_visible_character() {
    let drafts = staged_drafts();
    let mut tasks = Vec::new();
    ensure_staged_figure_tasks(
        &mut tasks,
        &[character("alice", "alice"), character("bob", "bob")],
        &drafts,
    );
    assert_eq!(tasks.len(), 2);
    assert_eq!(tasks[0].character_ref.as_deref(), Some("alice"));
    assert_eq!(tasks[1].character_ref.as_deref(), Some("bob"));
    assert_eq!(tasks[1].emotion.as_deref(), Some("angry"));
}

#[test]
fn staging_twice_adds_nothing_more() {
    let drafts = staged_drafts();
    let cards = [character("alice", "alice"), character("bob", "bob")];
    let mut tasks = Vec::new();
    ensure_staged_figure_tasks(&mut tasks, &cards, &drafts);
    ensure_staged_figure_tasks(&mut tasks, &cards, &drafts);
    assert_eq!(tasks.len(), 2);
}

#[test]
fn model_response_accepts_incomplete_optional_relations() {
    let relation = |target: &str, kind: &str| CharacterRelation {
        target_id: target.into(),
        relation_type: kind.into(),
        description: String::new(),
    };
    let mut hero = character("hero", "陆川");
    hero.relations = vec![relation("", "朋友"), relation("heroine", "朋友")];
    let mut heroine = character("heroine", "林夏");
    heroine.relations = vec![relation("hero", "")];
    let mut cards = vec![hero, heroine];
    discard_incomplete_relations(&mut cards);
    assert_eq!(cards.len(), 2);
    assert_eq!(cards[0].relations.len(), 1);
    assert_eq!(cards[0].relations[0].target_id, "heroine");
    assert!(cards[1].relations.is_empty());
}

#[test]
fn uncovered_provisional_character_id_reports_upstream_path() {
    let characters = vec![
        CharacterSeed {
            id: "hero",
            name: "陆川",
            description: "主角",
            personality: "谨慎",
            dialogue_style: "短句",
            gender: "男",
            age: "17",
            keywords: &["主角"],
            stance: "中立",
        }
        .build(),
        CharacterSeed {
            id: "heroine",
            name: "林夏",
            description: "女主",
            personality: "冷静",
            dialogue_style: "简洁",
            gender: "女",
            age: "17",
            keywords: &["女主"],
            stance: "越界",
        }
        .build(),
    ];
    let scenes = vec![scene("opening", "start.txt", "开场", "相遇", &["missing_role"])];
    let error = validate_characters(&characters, &scenes).unwrap_err();
    assert!(error.0.contains("$.scenePlans[0].characterIds[0]"));
}

#[test]
fn local_character_agent_produces_editable_character_cards() {
    let scenes = vec![scene("opening", "start.txt", "开场", "相遇", &["protagonist"])];
    let glossary = TextMap::new();
    let branches = BranchGraph::default();
    let ctx = AgentContext {
        prompt: "校园悬疑恋爱",
        instruction: "",
        synopsis: "相遇",
        chapters: &[],
        worldbook: "规则",
        glossary: &glossary,
        characters: &[],
        scene_plans: &scenes,
        branches: &branches,
        scene_drafts: &[],
        asset_plan: &[],
        allow_local_fallback: true,
    };
    let out = CharacterAgent.run(&ctx, Ok(None)).unwrap();
    assert_eq!(out.downgrade.as_deref(), Some("local-template"));
    match out.payload {
        AgentOutputPayload::Characters(characters) => {
            assert_eq!(characters.len(), 3);
            assert!(characters.iter().all(|c| !c.dialogue_style.is_empty()));
        }
        _ => panic!("Character Agent must return characters"),
    }
}

#[test]
fn registry_resolves_typed_step_executors() {
    let registry = AgentRegistry::with_defaults();
    assert!(registry.get(StepKind::Plan, &StepExecutor::Agent).is_some());
    assert!(registry
        .get(StepKind::Scene, &StepExecutor::NamedAgent("dialogist".to_string()))
        .is_some());
    assert!(registry.get(StepKind::Asset, &StepExecutor::AssetQueue).is_none());
}

#[test]
fn a_registered_agent_takes_the_place_of_another() {
    let mut registry: AgentRegistry<u8> = AgentRegistry::new();
    assert!(registry.get(StepKind::Plan, &StepExecutor::Agent).is_none());
    registry.register(StepKind::Plan, 1);
    registry.register_named("plan", 2);
    assert_eq!(registry.get(StepKind::Plan, &StepExecutor::Agent), Some(&2));
}

#[test]
fn the_default_recipe_ends_with_the_asset_queue() {
    let steps = default_recipe();
    assert_eq!(steps.len(), 8);
    assert_eq!(steps[7].executor, StepExecutor::AssetQueue);
    assert_eq!(steps[6].kind.as_str(), "scene");
}

#[test]
fn model_response_without_summaries_does_not_abort_plotter() {
    let mut response = OutlineResponse {
        chapters: vec![ChapterPlan {
            id: "ch1".into(),
            title: "序章".into(),
            summary: String::new(),
        }],
        scene_plans: vec![scene("opening", "start.txt", "相遇", "", &[])],
        branches: BranchGraph::default(),
    };
    fill_missing_summaries(&mut response, "校园悬疑");
    assert!(!response.chapters[0].summary.is_empty());
    assert!(!response.scene_plans[0].summary.is_empty());
}

#[test]
fn unknown_chapter_reference_reports_scene_field_path() {
    let mut opening = scene("opening", "start.txt", "相遇", "开始", &[]);
    opening.chapter_id = "missing".into();
    let mut response = OutlineResponse {
        chapters: vec![ChapterPlan {
            id: "ch1".into(),
            title: "序章".into(),
            summary: "开始".into(),
        }],
        scene_plans: vec![opening, scene("ending", "ending.txt", "结束", "结束", &[])],
        branches: BranchGraph {
            entry_scene: "opening".into(),
            edges: vec![BranchEdge {
                from: "opening".into(),
                to: "ending".into(),
                choice: None,
            }],
        },
    };
    let error = validate_response(&mut response, "主线").unwrap_err();
    assert!(error.0.contains("$.scenePlans[0].chapterId"));
}

#[test]
fn outline_agent_produces_two_chapters_from_synopsis() {
    let glossary = TextMap::new();
    let branches = BranchGraph::default();
    let ctx = AgentContext {
        prompt: "",
        instruction: "",
        synopsis: "主角在校园发现异常信号",
        chapters: &[],
        worldbook: "霓虹学园",
        glossary: &glossary,
        characters: &[],
        scene_plans: &[],
        branches: &branches,
        scene_drafts: &[],
        asset_plan: &[],
        allow_local_fallback: true,
    };
    let out = OutlineAgent.run(&ctx, Ok(None)).unwrap();
    match out.payload {
        AgentOutputPayload::Outline { chapters, scene_plans, branches } => {
            assert_eq!(chapters.len(), 3);
            assert_eq!(chapters[0].id, "ch1");
            assert_eq!(chapters[1].id, "ch2");
            assert!(chapters[0].summary.contains("异常信号"));
            assert_eq!(scene_plans.len(), 6);
            assert_eq!(branches.entry_scene, "opening");
            let mut response = OutlineResponse { chapters, scene_plans, branches };
            assert!(validate_response(&mut response, "主角在校园发现异常信号").is_ok());
        }
        _ => panic!("Outline Agent must return an outline"),
    }
}

#[test]
fn scene_files_have_no_path() {
    assert!(is_safe_scene_file("start.txt"));
    assert!(!is_safe_scene_file("../start.txt"));
    assert!(!is_safe_scene_file("start.md"));
}

#[test]
fn extracts_json_from_markdown_wrapped_response() {
    assert_eq!(
        extract_json("```json\n{\"ok\":true}\n```").as_deref(),
        Some("{\"ok\":true}")
    );
    assert_eq!(extract_json("no object here"), None);
}

fn task(role: &str, task: &str, allow_local_fallback: bool) -> ModelTask {
    ModelTask {
        role: role.into(),
        task: task.into(),
        context: "{}".into(),
        allow_local_fallback,
    }
}

/// Parses an answer that must hold a text under `id`, as a provider's answers
/// are parsed.
fn parse_id(role: &str, answer: &str) -> Result<String, AgentError> {
    let (raw, escaped) = json_candidates(role, answer)?;
    let read = |json: &str| -> Result<String, String> {
        let value: serde_json::Value = serde_json::from_str(json).map_err(|e| e.to_string())?;
        value
            .get("id")
            .and_then(|id| id.as_str())
            .map(|id| id.to_string())
            .ok_or_else(|| "missing field `id`".to_string())
    };
    parse_outcome(role, read(&raw).or_else(|_| read(&escaped)))
}

fn non_blank(id: String) -> Result<String, AgentError> {
    if id.trim().is_empty() {
        Err(contract_error("$.id", "must not be empty"))
    } else {
        Ok(id)
    }
}

fn answered(
    role: &str,
    text: &str,
    prompt_tokens: Option<u32>,
    completion_tokens: Option<u32>,
) -> ModelEvent<String> {
    ModelEvent::Answered {
        completion: (text.to_string(), "model-a".to_string(), prompt_tokens, completion_tokens),
        verdict: parse_id(role, text).and_then(non_blank),
    }
}

#[test]
fn unavailable_gateway_does_not_implicitly_authorize_local_fallback() {
    let at: Conversation<String> = Conversation::First;
    match advance(&task("Test Agent", "return an id", false), at, ModelEvent::Unavailable) {
        Conversation::Done(Err(error)) => {
            assert!(error.0.contains("did not approve local fallback"))
        }
        _ => panic!("an unavailable gateway should require run authorization"),
    }
}

#[test]
fn an_approved_run_goes_on_without_a_model() {
    let at: Conversation<String> = Conversation::First;
    match advance(&task("Test Agent", "return an id", true), at, ModelEvent::Unavailable) {
        Conversation::Done(Ok(None)) => {}
        _ => panic!("an approved run falls back"),
    }
}

#[test]
fn parses_unescaped_control_characters_without_model_repair() {
    let t = task("Dialogist", "write dialogue", false);
    let answer = "{\"id\":\"line one\nline two\"}";
    match advance(&t, Conversation::First, answered("Dialogist", answer, Some(2), Some(3))) {
        Conversation::Done(Ok(Some(routed))) => assert_eq!(routed.value, "line one\nline two"),
        _ => panic!("model repair should not be called"),
    }
}

#[test]
fn repairs_an_invalid_structure_once_and_counts_both_calls() {
    let t = task("Test Agent", "返回 id", false);
    let at = advance(&t, Conversation::First, answered("Test Agent", "{}", Some(2), Some(3)));
    let asked = prompt(&t, &at).expect("a repair is asked for");
    assert!(asked.system.contains("JSON 修复器"));
    assert!(asked.user.contains("missing field `id`"));
    match advance(&t, at, answered("Test Agent", r#"{"id":"fixed"}"#, Some(5), Some(7))) {
        Conversation::Done(Ok(Some(routed))) => {
            assert_eq!(routed.value, "fixed");
            assert_eq!(routed.prompt_tokens, Some(7));
            assert_eq!(routed.completion_tokens, Some(10));
        }
        _ => panic!("the repair should be accepted"),
    }
}

#[test]
fn semantic_failure_uses_the_same_repair_loop_and_field_path() {
    let t = task("Test Agent", "返回非空 id", false);
    let first = answered("Test Agent", r#"{"id":""}"#, Some(2), Some(3));
    let at = advance(&t, Conversation::First, first);
    assert!(prompt(&t, &at).unwrap().user.contains("$.id"));
    match advance(&t, at, answered("Test Agent", r#"{"id":"fixed"}"#, None, None)) {
        Conversation::Done(Ok(Some(routed))) => assert_eq!(routed.value, "fixed"),
        _ => panic!("the repair should be accepted"),
    }
}

#[test]
fn semantic_failure_after_repair_keeps_both_field_paths() {
    let t = task("Test Agent", "返回非空 id", false);
    let at = advance(
        &t,
        Conversation::First,
        answered("Test Agent", r#"{"id":""}"#, None, None),
    );
    match advance(&t, at, answered("Test Agent", r#"{"id":""}"#, None, None)) {
        Conversation::Done(Err(error)) => {
            assert!(error.0.contains("$.id"));
            assert!(error.0.contains("automatic repair also failed"));
        }
        _ => panic!("there is only one repair"),
    }
}

#[test]
fn control_characters_are_escaped_inside_strings_only() {
    assert_eq!(
        escape_string_control_characters("{\n\"a\":\"x\ny\"}"),
        "{\n\"a\":\"x\\u000ay\"}"
    );
}

fn linked_scenes() -> (Vec<ScenePlan>, Vec<SceneDraft>, BranchGraph, Vec<AssetTaskPlan>) {
    let plans = vec![
        scene("opening", "start.txt", "开场", "相遇", &["heroine", "friend"]),
        scene("end", "ending.txt", "结尾", "告别", &[]),
    ];
    let drafts = vec![
        SceneDraft {
            scene_id: "opening".into(),
            title: "开场".into(),
            stage_managed: true,
            beats: vec![
                DialogueBeat {
                    speaker: Some("林夏".into()),
                    text: "你终于来了。".into(),
                    figure_cues: vec![
                        show("heroine", FigureStagePosition::Right, "default"),
                        show("friend", FigureStagePosition::Left, "surprised"),
                    ],
                },
                DialogueBeat {
                    speaker: None,
                    text: "她离开了教室。".into(),
                    figure_cues: vec![FigureCue {
                        action: FigureCueAction::Hide,
                        character_id: "heroine".into(),
                        position: None,
                        emotion: "default".into(),
                    }],
                },
            ],
        },
        SceneDraft {
            scene_id: "end".into(),
            title: "结尾".into(),
            stage_managed: false,
            beats: vec![DialogueBeat {
                speaker: None,
                text: "天亮了。".into(),
                figure_cues: Vec::new(),
            }],
        },
    ];
    let branches = BranchGraph {
        entry_scene: "opening".into(),
        edges: vec![BranchEdge {
            from: "opening".into(),
            to: "end".into(),
            choice: None,
        }],
    };
    let tasks = vec![
        figure_task("figure_heroine_default", "heroine_default", "heroine", "default"),
        figure_task("figure_friend_surprised", "friend_surprised", "friend", "surprised"),
    ];
    (plans, drafts, branches, tasks)
}

#[test]
fn scene_agent_compiles_multiple_linked_webgal_files() {
    let (plans, drafts, branches, tasks) = linked_scenes();
    let characters = vec![character("heroine", "林夏"), character("friend", "周遥")];
    let glossary = TextMap::new();
    let ctx = AgentContext {
        prompt: "",
        instruction: "",
        synopsis: "",
        chapters: &[],
        worldbook: "",
        glossary: &glossary,
        characters: &characters,
        scene_plans: &plans,
        branches: &branches,
        scene_drafts: &drafts,
        asset_plan: &tasks,
        allow_local_fallback: true,
    };
    let scripts = match SceneAgent.run(&ctx).unwrap().payload {
        AgentOutputPayload::Scenes(scripts) => scripts,
        _ => panic!("Scene Agent must return scene files"),
    };
    assert_eq!(scripts.len(), 2);
    assert!(scripts[0].content.contains("林夏:你终于来了。;"));
    assert!(scripts[0].content.contains("; ollaic-asset-task:figure_heroine_default"));
    assert!(scripts[0].content.contains(
        "; ollaic-figure-staging:changeFigure:none -id=heroine -figureCharacter=heroine -figureEmotion=default -right;"
    ));
    assert!(!scripts[0]
        .content
        .lines()
        .any(|line| line.starts_with("changeFigure:none -id=heroine -figureCharacter=heroine")));
    assert!(scripts[0].content.contains(
        "; ollaic-figure-staging:changeFigure:none -id=friend -figureCharacter=friend -figureEmotion=surprised -left;"
    ));
    assert!(scripts[0].content.contains("changeFigure:none -id=heroine;"));
    assert!(scripts[0].content.contains("changeScene:ending.txt;"));
    assert!(scripts[1].content.contains("end;"));
    for script in &scripts {
        assert!(validate_script(&script.name, &script.content).is_ok());
    }
}

#[test]
fn scene_input_errors_report_cross_node_paths() {
    let plans = vec![scene("opening", "start.txt", "Opening", "Summary", &[])];
    let error = validate_scene_inputs(&plans, &[], &BranchGraph::default(), &[], &[]).unwrap_err();
    assert!(error.0.contains("$.sceneDrafts"));

    let drafts = vec![SceneDraft {
        scene_id: "opening".into(),
        title: "Opening".into(),
        stage_managed: false,
        beats: vec![DialogueBeat {
            speaker: None,
            text: "Text".into(),
            figure_cues: Vec::new(),
        }],
    }];
    let branches = BranchGraph {
        entry_scene: "opening".into(),
        edges: vec![BranchEdge {
            from: "opening".into(),
            to: "missing".into(),
            choice: Some("Go".into()),
        }],
    };
    let error = validate_scene_inputs(&plans, &drafts, &branches, &[], &[]).unwrap_err();
    assert!(error.0.contains("$.branches.edges[0].to"));
}

#[test]
fn dialogue_is_compiled_on_one_line() {
    let beat = DialogueBeat {
        speaker: Some(" Alice ".into()),
        text: " hello\nthere; ".into(),
        figure_cues: Vec::new(),
    };
    let line = compile_beat(&beat);
    assert!(line.starts_with("Alice:"));
    assert!(line.ends_with(';'));
    assert!(!line.contains('\n'));
    assert!(!clean("a;b\nc").contains('\n'));
    assert!(!clean_choice("a|b:c").contains('|'));
}

#[test]
fn the_planner_asks_for_drafts_and_characters() {
    let glossary = TextMap::new();
    let branches = BranchGraph::default();
    let ctx = AgentContext {
        prompt: "",
        instruction: "",
        synopsis: "",
        chapters: &[],
        worldbook: "",
        glossary: &glossary,
        characters: &[],
        scene_plans: &[],
        branches: &branches,
        scene_drafts: &[],
        asset_plan: &[],
        allow_local_fallback: true,
    };
    assert_eq!(
        AssetPlannerAgent.run(&ctx, Ok(None)).unwrap_err().0,
        "AssetPlanner requires dialogue drafts and characters"
    );
    assert_eq!(OutlineAgent.run(&ctx, Ok(None)).unwrap_err().0, "Plotter requires a synopsis");
    assert_eq!(
        CharacterAgent.run(&ctx, Ok(None)).unwrap_err().0,
        "Character Agent requires scene plans"
    );
}

#[test]
fn a_local_plan_covers_every_staged_figure() {
    let (plans, drafts, branches, _) = linked_scenes();
    let characters = vec![character("heroine", "林夏"), character("friend", "周遥")];
    let glossary = TextMap::new();
    let ctx = AgentContext {
        prompt: "",
        instruction: "",
        synopsis: "",
        chapters: &[],
        worldbook: "",
        glossary: &glossary,
        characters: &characters,
        scene_plans: &plans,
        branches: &branches,
        scene_drafts: &drafts,
        asset_plan: &[],
        allow_local_fallback: true,
    };
    let out: AgentOutput = AssetPlannerAgent.run(&ctx, Ok(None)).unwrap();
    assert_eq!(out.warnings.len(), 1);
    match out.payload {
        AgentOutputPayload::AssetPlan(tasks) => {
            assert!(tasks.iter().any(|t| t.character_ref.as_deref() == Some("heroine")
                && t.emotion.as_deref() == Some("default")));
            assert!(tasks.iter().any(|t| t.character_ref.as_deref() == Some("friend")
                && t.emotion.as_deref() == Some("surprised")));
            assert_eq!(tasks.last().unwrap().id, "bgm_main_theme");
            assert_eq!(validate_asset_plan(&tasks, &plans, &characters), Ok(()));
        }
        _ => panic!("AssetPlanner must return a plan"),
    }
}
