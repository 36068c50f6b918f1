use ollaic::ai::batch_tts_transaction::{
    begin_publish, check_publish, publish_batch, target_paths, validate_batch, PreparedVoiceAsset,
    PublishEvent, PublishPhase,
};
use ollaic::ai::change_set::{
    advance, apply_ai_change_set, detect_conflicts, edit_resource, merge_asset_plan,
    plan_scene_write, scene_backgrounds, scene_write_error, sync_scene_background_cards,
    ApplyChangeSetRequest, ApplyChangeSetResult, ApplyEvent, ApplyPhase, ChangeSetEdit,
    CurrentSceneState, PlannedAssetCard, PlannedAssetCategory, Preflight, ProjectState,
    RecoveryStatus, SceneOnDisk,
};
use ollaic::ai::edits::{apply_edit, begin_edit, EditEvent, EditPhase};
use ollaic::assets::{AssetMetadata, SceneAssetCard, VoiceAssetCard};
use ollaic::characters::Character;
use ollaic::flow_edit_lock::{FlowEditGuard, FlowLocks, FlowResource};
use ollaic::project::ProjectMemory;
use ollaic::webgal::{CommandType, WebGalNode};

fn character(id: &str, name: &str) -> Character {
    Character {
        id: id.to_string(),
        name: name.to_string(),
        aliases: Vec::new(),
        description: String::new(),
        personality: String::new(),
        reference_images: Vec::new(),
        stance: String::new(),
        keywords: Vec::new(),
        dialogue_style: String::new(),
        gender: String::new(),
        age: String::new(),
        sprites: Vec::new(),
        default_voice: None,
        voice_timbre: None,
        relations: Vec::new(),
        color_theme: None,
        notes: String::new(),
    }
}

fn memory(world: &str) -> ProjectMemory {
    ProjectMemory {
        world_setting: world.to_string(),
        writing_style: String::new(),
        user_preferences: String::new(),
        updated_at: "2026-01-01T00:00:00Z".to_string(),
    }
}

fn scene_card(id: &str, title: &str) -> SceneAssetCard {
    SceneAssetCard {
        id: id.into(),
        title: title.into(),
        scene_file: None,
        image_asset: None,
        target_stem: String::new(),
        prompt: String::new(),
        style: String::new(),
        negative_prompt: String::new(),
    }
}

fn voice_card(id: &str, stem: &str) -> VoiceAssetCard {
    VoiceAssetCard {
        id: id.into(),
        character: String::new(),
        text: String::new(),
        emotion: String::new(),
        voice_asset: None,
        target_stem: stem.into(),
        prompt: String::new(),
    }
}

/// A project kept in memory: one scene, its characters, memory and metadata.
struct Project {
    scene: Option<String>,
    characters: Vec<Character>,
    memory: Option<ProjectMemory>,
    metadata: AssetMetadata,
    snapshots: Vec<String>,
    fail_on: Option<&'static str>,
    fail_restore: bool,
}

impl Project {
    fn new(scene: Option<&str>) -> Project {
        Project {
            scene: scene.map(|s| s.to_string()),
            characters: vec![character("hero", "Old Hero")],
            memory: Some(memory("old world")),
            metadata: AssetMetadata::new(),
            snapshots: Vec::new(),
            fail_on: None,
            fail_restore: false,
        }
    }

    fn state(&self) -> ProjectState {
        ProjectState {
            characters: self.characters.iter().map(|c| character(&c.id, &c.name)).collect(),
            memory: self.memory.clone(),
            metadata: AssetMetadata::new(),
        }
    }

    fn edit(&mut self, edit: &ChangeSetEdit) -> Result<(), String> {
        let resource = edit_resource(edit);
        if self.fail_on == Some(resource) {
            return Err(format!("injected {resource} write failure"));
        }
        if let Some(write) = plan_scene_write("/p", edit, self.scene.is_some())? {
            self.scene = Some(write.content);
        }
        match edit {
            ChangeSetEdit::Character { after, .. } => {
                self.characters = vec![character(&after.id, &after.name)]
            }
            ChangeSetEdit::Memory { after, .. } => self.memory = Some(after.clone()),
            ChangeSetEdit::AssetPlan { cards } => merge_asset_plan(&mut self.metadata, cards),
            _ => {}
        }
        Ok(())
    }

    fn apply(&mut self, request: &ApplyChangeSetRequest, locks: &FlowLocks) -> ApplyChangeSetResult {
        let disk = request
            .edits
            .iter()
            .map(|_| SceneOnDisk {
                present: self.scene.is_some(),
                content: self.scene.clone().ok_or_else(|| "missing".to_string()),
            })
            .collect();
        let known = Preflight {
            project_valid: true,
            story_plan: locks.ensure_editable("/p", FlowResource::StoryPlan),
            characters: locks.ensure_editable("/p", FlowResource::Characters),
            conflicts: detect_conflicts(request, &disk, &self.state()),
        };
        let mut phase = apply_ai_change_set(request, known);
        let before = (self.scene.clone(), self.state());
        loop {
            let event = match &phase {
                ApplyPhase::Done(_) => break,
                ApplyPhase::Snapshotting => {
                    self.snapshots.push("snap-1".to_string());
                    ApplyEvent::Snapshot(Ok("snap-1".to_string()))
                }
                ApplyPhase::Applying(at, _) => ApplyEvent::Finished(self.edit(&request.edits[*at])),
                ApplyPhase::Restoring { .. } => {
                    if self.fail_restore {
                        ApplyEvent::Finished(Err("injected snapshot restore failure".to_string()))
                    } else {
                        self.scene = before.0.clone();
                        self.characters = before
                            .1
                            .characters
                            .iter()
                            .map(|c| character(&c.id, &c.name))
                            .collect();
                        self.memory = before.1.memory.clone();
                        self.metadata = AssetMetadata::new();
                        ApplyEvent::Finished(Ok(()))
                    }
                }
                ApplyPhase::Deleting(..) => {
                    self.snapshots.clear();
                    ApplyEvent::Finished(Ok(()))
                }
            };
            phase = advance(&request.edits, phase, event);
        }
        match phase {
            ApplyPhase::Done(result) => result,
            _ => unreachable!(),
        }
    }
}

fn scene_edit(before: &str, after: &str) -> ChangeSetEdit {
    ChangeSetEdit::Scene {
        file: "start.txt".to_string(),
        before_content: before.to_string(),
        after_content: after.to_string(),
    }
}

fn request(force: bool, current: Option<&str>, edits: Vec<ChangeSetEdit>) -> ApplyChangeSetRequest {
    ApplyChangeSetRequest {
        project_path: "/p".to_string(),
        force,
        current_scene: current.map(|content| CurrentSceneState {
            file: "start.txt".to_string(),
            content: content.to_string(),
        }),
        edits,
    }
}

#[test]
fn later_resource_failure_restores_scene_asset_metadata_character_and_memory() {
    let mut project = Project::new(Some("old scene"));
    project.fail_on = Some("memory");
    let request = request(
        false,
        None,
        vec![
            scene_edit("old scene", "new scene"),
            ChangeSetEdit::AssetPlan {
                cards: vec![PlannedAssetCard {
                    category: PlannedAssetCategory::Background,
                    card: scene_card("scene:start:bg", "New background"),
                }],
            },
            ChangeSetEdit::Character {
                before: Box::new(character("hero", "Old Hero")),
                after: Box::new(character("hero", "New Hero")),
            },
            ChangeSetEdit::Memory {
                before: memory("old world"),
                after: memory("new world"),
            },
        ],
    );
    let result = project.apply(&request, &FlowLocks::new());
    assert!(matches!(
        result,
        ApplyChangeSetResult::Failed {
            recovery: RecoveryStatus::Restored,
            ..
        }
    ));
    assert_eq!(project.scene.as_deref(), Some("old scene"));
    assert!(project.metadata.scene_cards.is_empty());
    assert_eq!(project.characters[0].name, "Old Hero");
    assert_eq!(project.memory.unwrap().world_setting, "old world");
    assert!(project.snapshots.is_empty());
}

#[test]
fn a_change_set_is_applied_as_a_whole() {
    let mut project = Project::new(Some("old scene"));
    let request = request(
        false,
        None,
        vec![
            scene_edit("old scene", "new scene"),
            ChangeSetEdit::Memory {
                before: memory("old world"),
                after: memory("new world"),
            },
        ],
    );
    assert_eq!(
        project.apply(&request, &FlowLocks::new()),
        ApplyChangeSetResult::Applied
    );
    assert_eq!(project.scene.as_deref(), Some("new scene"));
    assert_eq!(project.memory.unwrap().world_setting, "new world");
}

#[test]
fn rollback_failure_is_reported_and_keeps_the_snapshot_for_manual_recovery() {
    let mut project = Project::new(Some("old scene"));
    project.fail_on = Some("memory");
    project.fail_restore = true;
    let request = request(
        false,
        None,
        vec![
            scene_edit("old scene", "new scene"),
            ChangeSetEdit::Memory {
                before: memory("old world"),
                after: memory("new world"),
            },
        ],
    );
    let snapshot_id = match project.apply(&request, &FlowLocks::new()) {
        ApplyChangeSetResult::Failed {
            resource,
            recovery: RecoveryStatus::Failed { message, snapshot_id },
            ..
        } => {
            assert_eq!(resource, "memory");
            assert!(message.contains("restore failure"));
            snapshot_id
        }
        other => panic!("expected explicit recovery failure, got {other:?}"),
    };
    assert_eq!(project.scene.as_deref(), Some("new scene"));
    assert!(project.snapshots.contains(&snapshot_id));
}

#[test]
fn conflict_is_reported_before_snapshot_or_write() {
    let mut project = Project::new(Some("old scene"));
    let request = request(
        false,
        Some("manual edit after preview"),
        vec![scene_edit("old scene", "AI scene")],
    );
    assert_eq!(
        project.apply(&request, &FlowLocks::new()),
        ApplyChangeSetResult::Conflict {
            resources: vec!["scene:start.txt".to_string()]
        }
    );
    assert_eq!(project.scene.as_deref(), Some("old scene"));
    assert!(project.snapshots.is_empty());
}

#[test]
fn disk_change_is_not_hidden_by_a_stale_current_scene_buffer() {
    let mut project = Project::new(Some("external edit after preview"));
    let request = request(false, Some("old scene"), vec![scene_edit("old scene", "AI scene")]);
    assert_eq!(
        project.apply(&request, &FlowLocks::new()),
        ApplyChangeSetResult::Conflict {
            resources: vec!["scene:start.txt".to_string()]
        }
    );
    assert_eq!(project.scene.as_deref(), Some("external edit after preview"));
}

#[test]
fn active_flow_scopes_reject_change_sets_before_snapshot_or_write() {
    let mut project = Project::new(Some("old scene"));
    let mut locks = FlowLocks::new();

    let story_guard = FlowEditGuard::acquire(&mut locks, "/p", &vec![FlowResource::StoryPlan]);
    let scene_result = project.apply(
        &request(true, None, vec![scene_edit("old scene", "new scene")]),
        &locks,
    );
    assert!(matches!(
        scene_result,
        ApplyChangeSetResult::Failed {
            resource,
            recovery: RecoveryStatus::NotNeeded,
            ..
        } if resource == "flow_lock"
    ));
    assert_eq!(project.scene.as_deref(), Some("old scene"));
    assert!(project.snapshots.is_empty());
    story_guard.release(&mut locks);

    let character_guard = FlowEditGuard::acquire(&mut locks, "/p", &vec![FlowResource::Characters]);
    let character_result = project.apply(
        &request(
            true,
            None,
            vec![ChangeSetEdit::Character {
                before: Box::new(character("hero", "Old Hero")),
                after: Box::new(character("hero", "New Hero")),
            }],
        ),
        &locks,
    );
    assert!(matches!(
        character_result,
        ApplyChangeSetResult::Failed {
            resource,
            recovery: RecoveryStatus::NotNeeded,
            ..
        } if resource == "flow_lock"
    ));
    assert_eq!(project.characters[0].name, "Old Hero");
    character_guard.release(&mut locks);
    assert!(locks.ensure_editable("/p", FlowResource::Characters).is_ok());
    assert!(locks.ensure_editable("/p", FlowResource::StoryPlan).is_ok());
}

#[test]
fn guards_are_counted() {
    let mut locks = FlowLocks::new();
    let both = vec![FlowResource::Characters, FlowResource::StoryPlan];
    let first = FlowEditGuard::acquire(&mut locks, "/p", &both);
    let second = FlowEditGuard::acquire(&mut locks, "/p", &both);
    first.release(&mut locks);
    assert!(locks.ensure_editable("/p", FlowResource::Characters).is_err());
    assert!(locks.ensure_editable("/q", FlowResource::Characters).is_ok());
    second.release(&mut locks);
    assert!(locks.ensure_editable("/p", FlowResource::Characters).is_ok());
}

#[test]
fn a_project_must_have_a_game() {
    let refused = apply_ai_change_set(
        &request(true, None, Vec::new()),
        Preflight {
            project_valid: false,
            story_plan: Ok(()),
            characters: Ok(()),
            conflicts: Ok(Vec::new()),
        },
    );
    assert_eq!(
        refused,
        ApplyPhase::Done(ApplyChangeSetResult::Failed {
            resource: "project".to_string(),
            message: "项目目录无效：/p/game 不存在".to_string(),
            recovery: RecoveryStatus::NotNeeded
        })
    );
}

#[test]
fn new_scenes_begin_with_their_header() {
    let create = |file: &str, chapter: Option<&str>, content: Option<&str>| {
        ChangeSetEdit::CreateScene {
            file: file.to_string(),
            chapter: chapter.map(|s| s.to_string()),
            outline: None,
            initial_content: content.map(|s| s.to_string()),
        }
    };
    let write = plan_scene_write("/p", &create("b.txt", Some(" one "), Some("end;")), false)
        .unwrap()
        .unwrap();
    assert_eq!(write.path, "/p/game/scene/b.txt");
    assert_eq!(write.content, "; 章节: one\nend;");
    let bare = plan_scene_write("/p", &create("b.txt", None, None), false).unwrap().unwrap();
    assert_eq!(bare.content, "; b.txt\n");
    assert_eq!(
        plan_scene_write("/p", &create("b.txt", None, None), true).unwrap_err(),
        "场景 b.txt 已存在"
    );
    assert!(plan_scene_write("/p", &create("../b.txt", None, None), false).is_err());
    assert_eq!(
        scene_write_error(&create("b.txt", None, None), "full"),
        "创建场景 b.txt 失败：full"
    );
}

#[test]
fn planned_cards_keep_the_image_they_have() {
    let mut metadata = AssetMetadata::new();
    let mut bound = scene_card("bg:1", "old");
    bound.image_asset = Some("bg.png".into());
    metadata.scene_cards.insert("bg:1".to_string(), bound);
    merge_asset_plan(
        &mut metadata,
        &vec![PlannedAssetCard {
            category: PlannedAssetCategory::Background,
            card: scene_card("bg:1", "new"),
        }],
    );
    let card = metadata.scene_cards.get("bg:1").unwrap();
    assert_eq!(card.title, "new");
    assert_eq!(card.image_asset.as_deref(), Some("bg.png"));
}

#[test]
fn backgrounds_of_a_scene_get_cards() {
    let node = |content: &str| {
        WebGalNode::new("n".to_string(), CommandType::ChangeBg, content.to_string())
    };
    let nodes = vec![node(" room.png "), node("none"), node("room.png")];
    let backgrounds = scene_backgrounds(&nodes);
    assert_eq!(backgrounds, vec!["room.png"]);
    let mut metadata = AssetMetadata::new();
    assert!(sync_scene_background_cards(
        &mut metadata,
        "start.txt",
        &backgrounds,
        &vec![true]
    ));
    let card = metadata.scene_cards.get("bg:room.png").unwrap();
    assert_eq!(card.image_asset.as_deref(), Some("room.png"));
    assert_eq!(card.target_stem, "room");

    let mut deleted = AssetMetadata::new();
    deleted.deleted_scene_cards.push("bg:room.png".to_string());
    assert!(!sync_scene_background_cards(
        &mut deleted,
        "start.txt",
        &backgrounds,
        &vec![true]
    ));
    assert!(deleted.scene_cards.is_empty());
}

fn asset(card: &str, file: &str, bytes: &[u8]) -> PreparedVoiceAsset {
    PreparedVoiceAsset::new(card.to_string(), file.to_string(), bytes.to_vec())
}

fn voice_metadata() -> AssetMetadata {
    let mut metadata = AssetMetadata::new();
    for (id, stem) in [("voice-1", "line_one"), ("voice-2", "line_two")] {
        metadata.voice_cards.insert(id.to_string(), voice_card(id, stem));
    }
    metadata
}

/// The same voice cards and tags: what publishing reads and writes.
fn copied(metadata: &AssetMetadata) -> AssetMetadata {
    let mut copy = AssetMetadata::new();
    for i in 0..metadata.voice_cards.len() {
        let (id, card) = metadata.voice_cards.entry(i);
        copy.voice_cards.insert(id.to_string(), card.clone());
    }
    for i in 0..metadata.tags.len() {
        let (key, tags) = metadata.tags.entry(i);
        copy.tags.insert(key.to_string(), tags.clone());
    }
    copy
}

/// Publishes into a directory and metadata that are kept in memory.
fn publish(
    directory: &mut Vec<(String, Vec<u8>)>,
    metadata: &mut AssetMetadata,
    assets: &[PreparedVoiceAsset],
    fail_after: Option<usize>,
) -> Result<Vec<String>, String> {
    let before = (directory.clone(), copied(metadata));
    let mut run = begin_publish(assets);
    loop {
        let event = match &run.phase {
            PublishPhase::Done(result) => return result.clone(),
            PublishPhase::Looking => {
                let existing = directory.iter().map(|f| f.0.clone()).collect();
                PublishEvent::Looked(Ok((existing, copied(metadata))))
            }
            PublishPhase::Writing(i) => {
                directory.push((assets[*i].filename.clone(), assets[*i].bytes.clone()));
                PublishEvent::Finished(if fail_after == Some(*i) {
                    Err("injected batch TTS publish failure".to_string())
                } else {
                    Ok(())
                })
            }
            PublishPhase::SavingMetadata => {
                *metadata = copied(&run.metadata);
                PublishEvent::Finished(Ok(()))
            }
            PublishPhase::Preparing => PublishEvent::Finished(Ok(())),
            PublishPhase::RollingBack(_) => {
                *directory = before.0.clone();
                *metadata = copied(&before.1);
                PublishEvent::Finished(Ok(()))
            }
        };
        run = publish_batch(assets, run, event);
    }
}

#[test]
fn batch_tts_transaction_publishes_every_file_and_metadata_together() {
    let mut directory = Vec::new();
    let mut metadata = voice_metadata();
    let assets = [
        asset("voice-1", "line_one.wav", b"one"),
        asset("voice-2", "line_two.mp3", b"two"),
    ];
    let published = publish(&mut directory, &mut metadata, &assets, None).unwrap();
    assert_eq!(published, vec!["line_one.wav", "line_two.mp3"]);
    assert_eq!(
        directory,
        vec![
            ("line_one.wav".to_string(), b"one".to_vec()),
            ("line_two.mp3".to_string(), b"two".to_vec())
        ]
    );
    assert_eq!(
        metadata.voice_cards.get("voice-1").unwrap().voice_asset.as_deref(),
        Some("line_one.wav")
    );
    assert_eq!(
        metadata.tags.get("vocal/line_one").unwrap(),
        &vec!["status:done".to_string(), "source:ai".to_string()]
    );
    assert_eq!(
        target_paths(&assets),
        vec![
            "game/vocal/line_one.wav",
            "game/vocal/line_two.mp3",
            "game/config/asset-metadata.json"
        ]
    );
}

#[test]
fn batch_tts_transaction_never_overwrites_a_case_insensitive_collision() {
    let mut directory = vec![("LINE_ONE.WAV".to_string(), b"original".to_vec())];
    let mut metadata = voice_metadata();
    let assets = [asset("voice-1", "line_one.wav", b"replacement")];
    let error = publish(&mut directory, &mut metadata, &assets, None).unwrap_err();
    assert!(error.contains("already exists"));
    assert_eq!(directory, vec![("LINE_ONE.WAV".to_string(), b"original".to_vec())]);
    assert_eq!(metadata, voice_metadata());
}

#[test]
fn concurrent_batch_tts_transactions_merge_metadata_updates() {
    let mut directory = Vec::new();
    let mut metadata = voice_metadata();
    publish(&mut directory, &mut metadata, &[asset("voice-1", "line_one.wav", b"one")], None)
        .unwrap();
    publish(&mut directory, &mut metadata, &[asset("voice-2", "line_two.wav", b"two")], None)
        .unwrap();
    assert_eq!(
        metadata.voice_cards.get("voice-1").unwrap().voice_asset.as_deref(),
        Some("line_one.wav")
    );
    assert_eq!(
        metadata.voice_cards.get("voice-2").unwrap().voice_asset.as_deref(),
        Some("line_two.wav")
    );
}

#[test]
fn batch_tts_transaction_rolls_back_files_after_a_publish_failure() {
    let mut directory = Vec::new();
    let mut metadata = voice_metadata();
    let assets = [
        asset("voice-1", "line_one.wav", b"one"),
        asset("voice-2", "line_two.wav", b"two"),
    ];
    let error = publish(&mut directory, &mut metadata, &assets, Some(0)).unwrap_err();
    assert!(error.contains("injected batch TTS publish failure"));
    assert!(directory.is_empty());
    assert_eq!(metadata, voice_metadata());
}

#[test]
fn batches_are_checked() {
    let twice = [asset("voice-1", "a.wav", b"1"), asset("voice-2", "A.WAV", b"2")];
    assert!(validate_batch(&twice).is_err());
    assert!(validate_batch(&[asset("voice-1", "../a.wav", b"1")]).is_err());
    assert!(validate_batch(&[]).is_ok());
    let unknown = [asset("voice-9", "a.wav", b"1")];
    assert!(validate_batch(&unknown).is_ok());
    assert_eq!(
        check_publish(&unknown, &Vec::new(), &voice_metadata()),
        Err("voice card does not exist: voice-9".to_string())
    );
    let taken = [asset("voice-1", "a.wav", b"1")];
    assert_eq!(
        check_publish(&taken, &vec!["A.WAV".to_string()], &voice_metadata()),
        Err("batch TTS target already exists: a.wav".to_string())
    );
}

#[test]
fn a_batch_that_does_not_pass_touches_nothing() {
    let mut directory = vec![("kept.wav".to_string(), b"0".to_vec())];
    let mut metadata = voice_metadata();
    for (assets, error) in [
        (
            [asset("voice-1", "a.wav", b"1"), asset("voice-2", "../x", b"2")],
            "invalid generated asset filename: ../x",
        ),
        (
            [asset("voice-1", "a.wav", b"1"), asset("voice-2", "A.wav", b"2")],
            "duplicate batch TTS target: A.wav",
        ),
    ] {
        assert_eq!(
            publish(&mut directory, &mut metadata, &assets, None),
            Err(error.to_string())
        );
        assert_eq!(directory.len(), 1);
        assert_eq!(begin_publish(&assets).phase, PublishPhase::Done(Err(error.to_string())));
    }
}

#[test]
fn failed_rollbacks_are_reported() {
    let assets = [asset("voice-1", "a.wav", b"1")];
    let run = publish_batch(
        &assets,
        begin_publish(&assets),
        PublishEvent::Looked(Err("unreadable".to_string())),
    );
    assert_eq!(run.phase, PublishPhase::RollingBack("unreadable".to_string()));
    let run = publish_batch(&assets, run, PublishEvent::Finished(Err("locked".to_string())));
    assert_eq!(
        run.phase,
        PublishPhase::Done(Err("unreadable; rollback failed: locked".to_string()))
    );
}

#[test]
fn a_scene_edit_writes_the_scene_and_then_its_cards() {
    let edit = ChangeSetEdit::CreateScene {
        file: "rain.txt".to_string(),
        chapter: None,
        outline: None,
        initial_content: Some("changeBg:rain.png;".to_string()),
    };
    let phase = begin_edit(&edit);
    assert_eq!(phase, EditPhase::Looking);
    assert_eq!(
        apply_edit("/p", &edit, EditPhase::Looking, EditEvent::Looked(true)),
        EditPhase::Done(Err("场景 rain.txt 已存在".to_string()))
    );
    let phase = apply_edit("/p", &edit, phase, EditEvent::Looked(false));
    match &phase {
        EditPhase::WritingScene(write) => {
            assert_eq!(write.path, "/p/game/scene/rain.txt");
            assert_eq!(write.content, "changeBg:rain.png;");
        }
        _ => panic!("the scene is written first"),
    }
    let phase = apply_edit("/p", &edit, phase, EditEvent::Saved(Ok(())));
    let mut shown = WebGalNode::new("n".into(), CommandType::ChangeBg, "rain.png".into());
    shown.asset = Some("rain.png".into());
    let phase = apply_edit("/p", &edit, phase, EditEvent::Parsed(vec![shown]));
    assert_eq!(phase, EditPhase::ReadingBackgrounds(vec!["rain.png".to_string()]));
    let found = EditEvent::Backgrounds(Ok((AssetMetadata::new(), vec![true])));
    let phase = apply_edit("/p", &edit, phase, found);
    match &phase {
        EditPhase::SavingMetadata(metadata) => {
            let card = metadata.scene_cards.get("bg:rain.png").unwrap();
            assert_eq!(card.image_asset.as_deref(), Some("rain.png"));
            assert_eq!(card.scene_file.as_deref(), Some("rain.txt"));
        }
        _ => panic!("the cards are written next"),
    }
    assert_eq!(
        apply_edit("/p", &edit, phase, EditEvent::Saved(Ok(()))),
        EditPhase::Done(Ok(()))
    );
    let failed = apply_edit(
        "/p",
        &edit,
        apply_edit("/p", &edit, EditPhase::Looking, EditEvent::Looked(false)),
        EditEvent::Saved(Err("disk full".to_string())),
    );
    assert_eq!(failed, EditPhase::Done(Err("创建场景 rain.txt 失败：disk full".to_string())));
}

#[test]
fn a_plan_edit_merges_its_cards() {
    let edit = ChangeSetEdit::AssetPlan { cards: Vec::new() };
    assert_eq!(begin_edit(&edit), EditPhase::ReadingMetadata);
    let phase = apply_edit(
        "/p",
        &edit,
        EditPhase::ReadingMetadata,
        EditEvent::Metadata(Ok(AssetMetadata::new())),
    );
    assert_eq!(phase, EditPhase::SavingMetadata(AssetMetadata::new()));
    let handed = ChangeSetEdit::CreateCharacter { draft: Box::new(character("a", "A")) };
    assert_eq!(begin_edit(&handed), EditPhase::Handing);
}
