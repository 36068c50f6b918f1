use ollaic::asset_queue::binder::{
    accepts_target, apply_binding, artifact_extension, available_target, bind_card, place_figure,
    bind_scene_command, bind_tts, binding_files, checked_scene_path, held_figure_command,
    newest_artifact, promoted_file, scene_file, scene_path, scene_task_owns_filename,
    staged_figure_command, task_marker, update_asset_metadata, validate_stem,
    validate_transparent_figure, BindingWay, FigureScene, TargetStep, TARGET_CANDIDATES,
};
use ollaic::asset_queue::binding::{
    all_scene_paths, bind_asset, check_artifact, first_rebind, rebind_asset,
    restore_binding_files, restore_file, BindEvent, BindPhase, RestoreAction, SceneEntry,
};
use ollaic::asset_queue::commands::asset_queue_preview_artifact;
use ollaic::asset_queue::figures::{begin_figure, bind_figure, FigureEvent, FigurePhase};
use ollaic::asset_queue::run::{
    begin_queue, begin_run, is_same_run, run_queue_cancellable, QueueRun, RunEvent, RunPhase, Slot,
};
use ollaic::asset_queue::scheduler::{
    cancel_binding, find_finished, lane, validate_limits, write_artifact, AttemptOutcome, Lane,
    ASSET_QUEUE_CANCELLED,
};
use ollaic::asset_queue::transaction::{
    advance_deletion, artifact_record, binding_commit_error, binding_journal, check_contained,
    checked_transaction_path, combine_rollbacks, commit_generated_binding, delete_artifact,
    deletion_journal, forget_artifact, persist_binding, promote_artifact, recover_pending,
    resolve_artifact, staged_recovery, with_rollback, ArtifactPlace, BindingCommitError,
    BindingEvent, BindingPhase, BindingRun, DeletionPhase, PendingTransaction, RecoveryEvent,
    RecoveryPhase, TRANSACTION_VERSION,
};
use ollaic::asset_queue::types::{
    AssetAttempt, AssetKind, AssetQueue, AssetTask, AssetTaskStatus, QueueLimits,
};
use ollaic::assets::AssetMetadata;
use ollaic::characters::{Character, CharactersDocument};
use ollaic::webgal::{CommandType, WebGalNode};

fn png(alpha: u8) -> Vec<u8> {
    let mut bytes = std::io::Cursor::new(Vec::new());
    image::DynamicImage::ImageRgba8(image::RgbaImage::from_pixel(
        1,
        1,
        image::Rgba([255, 255, 255, alpha]),
    ))
    .write_to(&mut bytes, image::ImageFormat::Png)
    .unwrap();
    bytes.into_inner()
}

fn attempt(number: u32, artifact: Option<&str>) -> AssetAttempt {
    AssetAttempt {
        attempt: number,
        started_at: 1,
        finished_at: 2,
        artifact: artifact.map(|s| s.to_string()),
        error: None,
        used_local_fallback: false,
    }
}

fn task(id: &str, kind: AssetKind, stem: &str) -> AssetTask {
    AssetTask {
        id: id.into(),
        kind,
        target_stem: stem.into(),
        prompt: "prompt".into(),
        scene_ref: None,
        character_ref: None,
        emotion: None,
        dialogue_index: None,
        text: None,
        status: AssetTaskStatus::Running,
        attempts: vec![attempt(1, Some(".ollaic/artifacts/assets/x/1.png"))],
        asset_file: None,
        error: None,
        used_local_fallback: false,
    }
}

fn queue(tasks: Vec<AssetTask>) -> AssetQueue {
    AssetQueue::new("run-1".into(), tasks, 2)
}

const BG_ARTIFACT: &str = "/p/.ollaic/artifacts/assets/bg_start/1.png";

/// What looking up a file that resolves to this path gives.
fn place(path: &str) -> ArtifactPlace {
    ArtifactPlace {
        root: Ok("/p/.ollaic/artifacts/assets".to_string()),
        artifact: Ok(path.to_string()),
        is_file: true,
    }
}

fn comment(content: &str) -> WebGalNode {
    WebGalNode::new("n".into(), CommandType::Comment, content.into())
}

fn line(speaker: &str, content: &str) -> WebGalNode {
    let mut node = WebGalNode::new("n".into(), CommandType::Dialogue, content.into());
    node.character = Some(speaker.into());
    node
}

fn document() -> CharactersDocument {
    let card = |id: &str, name: &str| Character {
        id: id.into(),
        name: name.into(),
        aliases: Vec::new(),
        description: String::new(),
        personality: String::new(),
        reference_images: Vec::new(),
        stance: String::new(),
        keywords: Vec::new(),
        dialogue_style: String::new(),
        gender: String::new(),
        age: String::new(),
        sprites: Vec::new(),
        default_voice: None,
        voice_timbre: None,
        relations: Vec::new(),
        color_theme: None,
        notes: String::new(),
    };
    CharactersDocument {
        version: 1,
        characters: vec![card("alice", "Alice"), card("bob", "Bob")],
    }
}

#[test]
fn figure_promotion_requires_transparent_png_pixels() {
    assert!(validate_transparent_figure("png", &png(0)).is_ok());
    assert!(validate_transparent_figure("png", &png(255)).is_err());
    assert!(validate_transparent_figure("webp", &png(0)).is_err());
    assert!(validate_transparent_figure("png", b"not a png").is_err());
}

/// Binds a figure into cards and scenes that are kept in memory.
fn bind_everywhere(
    task: &AssetTask,
    file: &str,
    held: &WebGalNode,
    cards: &mut CharactersDocument,
    scenes: &mut [(&str, &mut Vec<WebGalNode>)],
) -> Result<(), String> {
    let mut phase = begin_figure(task);
    loop {
        let event = match &phase {
            FigurePhase::Done(result) => return result.clone(),
            FigurePhase::ReadingCards => FigureEvent::Cards(Ok(cards.clone())),
            FigurePhase::SavingCards { cards: saved, .. } => {
                *cards = saved.clone();
                FigureEvent::Saved(Ok(()))
            }
            FigurePhase::ListingScenes { .. } => {
                FigureEvent::Scenes(Ok(scenes.iter().map(|scene| scene.0.to_string()).collect()))
            }
            FigurePhase::ReadingScene { at, .. } => {
                let nodes: Vec<WebGalNode> = scenes[*at].1.clone();
                let parsed = nodes
                    .iter()
                    .map(|node| held_figure_command(node).map(|_| held.clone()))
                    .collect();
                FigureEvent::Scene(Ok((nodes, parsed)))
            }
            FigurePhase::SavingScene { at, nodes, .. } => {
                *scenes[*at].1 = nodes.clone();
                FigureEvent::Saved(Ok(()))
            }
        };
        phase = bind_figure(task, file, phase, event);
    }
}

#[test]
fn figure_without_scene_ref_binds_every_scene_containing_character() {
    let mut held = WebGalNode::new("n".into(), CommandType::ChangeFigure, "none".into());
    held.flags = vec!["right".into()];
    let mut start = vec![
        comment("Ollaic Scene Staging"),
        comment("ollaic-asset-task:figure_alice"),
        comment("ollaic-figure-staging:changeFigure:none -id=alice -figureCharacter=alice -figureEmotion=default -right;"),
        line("Alice", "one"),
        line("Bob", "reply"),
    ];
    let mut route = vec![line("Alice", "two")];
    let mut other = vec![line("Bob", "three")];
    let mut cards = document();

    let mut alice = task("figure_alice", AssetKind::Figure, "alice_default");
    alice.character_ref = Some("alice".into());
    alice.emotion = Some("default".into());
    let mut bob = task("figure_bob", AssetKind::Figure, "bob_default");
    bob.character_ref = Some("bob".into());
    for (task, file) in [(&alice, "alice_default.png"), (&bob, "bob_default.png")] {
        let mut scenes = [
            ("start.txt", &mut start),
            ("route.txt", &mut route),
            ("other.txt", &mut other),
        ];
        bind_everywhere(task, file, &held, &mut cards, &mut scenes).unwrap();
    }
    assert_eq!(start[2].cmd_type, CommandType::ChangeFigure);
    assert_eq!(start[2].content, "alice_default.png");
    assert_eq!(start[2].flags, vec!["right"]);
    assert!(!start.iter().any(|node| node.content == "bob_default.png"));
    assert_eq!(route[0].asset.as_deref(), Some("alice_default.png"));
    assert_eq!(other[0].asset.as_deref(), Some("bob_default.png"));
    assert_eq!(cards.characters[0].sprites[0].file, "alice_default.png");
    assert_eq!(cards.characters[1].sprites[0].emotion, "default");
}

#[test]
fn a_named_scene_must_have_a_place_for_the_figure() {
    let mut staged = vec![comment("Ollaic Scene Staging"), line("Alice", "one")];
    let alice = task("figure_alice", AssetKind::Figure, "alice_default");
    let outcome = place_figure(&mut staged, &vec![None, None], &alice, "alice", "Alice", "a.png", true);
    assert_eq!(outcome, FigureScene::NoPlace);
    let mut named = task("figure_alice", AssetKind::Figure, "alice_default");
    named.character_ref = Some("alice".into());
    named.scene_ref = Some("start".into());
    let held = comment("unused");
    assert_eq!(
        bind_everywhere(
            &named,
            "a.png",
            &held,
            &mut document(),
            &mut [("/p/game/scene/start.txt", &mut staged)]
        )
        .unwrap_err(),
        "staged figure marker not found for task figure_alice in /p/game/scene/start.txt"
    );
    let mut unknown = task("x", AssetKind::Figure, "x");
    assert_eq!(
        begin_figure(&unknown),
        FigurePhase::Done(Err("figure task x has no characterRef".to_string()))
    );
    assert!(bind_card(&mut document(), &unknown, "x.png").is_err());
    unknown.character_ref = Some("carol".into());
    assert_eq!(
        bind_card(&mut document(), &unknown, "x.png").unwrap_err(),
        "character not found: carol"
    );
}

#[test]
fn rejects_queue_paths_outside_the_project() {
    let mut bg = task("bg", AssetKind::Background, "bg");
    bg.scene_ref = Some("../../outside".into());
    bg.attempts = vec![attempt(1, Some("/tmp/outside.png"))];
    let root = "/p/.ollaic/artifacts/assets";
    assert_eq!(newest_artifact(&bg).unwrap(), "/tmp/outside.png");
    assert_eq!(
        check_contained(root, "bg", "/tmp/outside.png", true).unwrap_err(),
        "artifact is outside the project task directory"
    );
    assert!(check_contained(root, "bg", "/p/.ollaic/artifacts/assets/bg/1.png", true).is_ok());
    assert!(check_contained(root, "bg", "/p/.ollaic/artifacts/assets/bg/1.png", false).is_err());
    assert!(scene_file("../../outside").is_err());
    assert!(checked_scene_path("/p/game/scene", "/p/game/scene/start.txt".into()).is_ok());
    assert!(checked_scene_path("/p/game/scene", "/p/game/other.txt".into()).is_err());
}

/// The command line of a node, as a scene file has it.
fn command(node: &WebGalNode) -> String {
    match node.cmd_type {
        CommandType::Comment => format!("; {}", node.content),
        CommandType::PlayEffect => format!("playEffect:{};", node.content),
        CommandType::ChangeBg => format!("changeBg:{};", node.content),
        _ => node.content.clone(),
    }
}

/// Binds an effect in a project that has these files.
fn bind_effect(nodes: &mut Vec<WebGalNode>, files: &mut Vec<String>, task: &AssetTask) {
    for k in 0.. {
        let name = match available_target(task, "wav", k) {
            TargetStep::Try(name) => name,
            TargetStep::Exhausted(m) => panic!("{m}"),
        };
        let owned = scene_task_owns_filename(nodes, task, &name);
        if accepts_target(task, &name, files.contains(&name), owned) {
            files.push(name.clone());
            bind_scene_command(nodes, task, &name, CommandType::PlayEffect);
            return;
        }
    }
}

#[test]
fn same_kind_tasks_keep_distinct_scene_commands() {
    let mut nodes = vec![WebGalNode::new("n".into(), CommandType::Narrator, "safe".into())];
    let mut files = vec!["impact-rain.wav".to_string()];
    for name in ["door", "rain"] {
        bind_effect(&mut nodes, &mut files, &task(name, AssetKind::Sfx, "impact"));
    }
    let scene: Vec<String> = nodes.iter().map(command).collect();
    assert!(scene.contains(&"; ollaic-asset-task:door".to_string()));
    assert!(scene.contains(&"playEffect:impact.wav;".to_string()));
    assert!(scene.contains(&"; ollaic-asset-task:rain".to_string()));
    assert!(scene.contains(&"playEffect:impact-rain-2.wav;".to_string()));
}

#[test]
fn binding_again_does_not_add_a_command() {
    let mut nodes = vec![WebGalNode::new("n".into(), CommandType::Narrator, "safe".into())];
    let bg = task("bg", AssetKind::Background, "bg");
    bind_scene_command(&mut nodes, &bg, "bg.png", CommandType::ChangeBg);
    let once: Vec<String> = nodes.iter().map(command).collect();
    bind_scene_command(&mut nodes, &bg, "bg.png", CommandType::ChangeBg);
    let twice: Vec<String> = nodes.iter().map(command).collect();
    assert_eq!(once, twice);
    assert_eq!(once, vec!["; ollaic-asset-task:bg", "changeBg:bg.png;", "safe"]);
}

#[test]
fn targets_run_out() {
    let t = task("a", AssetKind::Bgm, "s");
    assert_eq!(available_target(&t, "mp3", 0), TargetStep::Try("s.mp3".into()));
    assert_eq!(available_target(&t, "mp3", 1), TargetStep::Try("s-a.mp3".into()));
    assert_eq!(available_target(&t, "mp3", 2), TargetStep::Try("s-a-2.mp3".into()));
    assert_eq!(
        available_target(&t, "mp3", TARGET_CANDIDATES),
        TargetStep::Exhausted("no available target filename for task a".into())
    );
}

#[test]
fn names_in_binding_are_checked() {
    assert!(validate_stem("bg_start").is_ok());
    assert!(validate_stem("../x").is_err());
    assert_eq!(artifact_extension("a/1.png").unwrap(), "png");
    assert!(artifact_extension("a/1").is_err());
    assert_eq!(scene_file("start").unwrap(), "start.txt");
    assert_eq!(scene_path(None, &vec!["a.txt".into()]).unwrap(), "a.txt");
    assert!(scene_path(None, &Vec::new()).is_err());
    assert_eq!(task_marker("x"), "ollaic-asset-task:x");
    let staged = comment(&staged_figure_command("changeFigure:none;"));
    assert_eq!(held_figure_command(&staged).as_deref(), Some("changeFigure:none;"));
    assert_eq!(apply_binding(AssetKind::Tts), BindingWay::Voice);
    assert_eq!(apply_binding(AssetKind::Bgm), BindingWay::Command(CommandType::Bgm));
    assert!(promoted_file(&task("x", AssetKind::Bgm, "x")).is_err());
    assert_eq!(
        binding_files(vec!["b".into()], "b".into(), "c".into(), "a".into()),
        vec!["a", "b", "c"]
    );
}

#[test]
fn voices_are_bound_to_the_line_they_speak() {
    let mut nodes = vec![line("Alice", "one"), line("Alice", "two")];
    let mut tts = task("v", AssetKind::Tts, "v");
    assert!(bind_tts(&mut nodes, &tts, "v.wav", "s").is_err());
    tts.dialogue_index = Some(1);
    tts.text = Some("other".into());
    assert_eq!(
        bind_tts(&mut nodes, &tts, "v.wav", "s").unwrap_err(),
        "dialogue 1 changed in s"
    );
    tts.text = Some("two".into());
    bind_tts(&mut nodes, &tts, "v.wav", "s").unwrap();
    assert_eq!(nodes[1].voice.as_deref(), Some("v.wav"));
    tts.dialogue_index = Some(7);
    assert_eq!(
        bind_tts(&mut nodes, &tts, "v.wav", "s").unwrap_err(),
        "dialogue 7 not found in s"
    );
}

#[test]
fn bound_assets_are_described() {
    let mut metadata = AssetMetadata::new();
    update_asset_metadata(&mut metadata, &task("bg", AssetKind::Background, "bg"), "bg.png");
    assert_eq!(metadata.descriptions.get("background/bg.png").unwrap(), "prompt");
    assert_eq!(
        metadata.tags.get("background/bg.png").unwrap(),
        &vec!["status:done".to_string(), "source:ai".to_string()]
    );
    assert_eq!(
        metadata.scene_cards.get("bg").unwrap().image_asset.as_deref(),
        Some("bg.png")
    );
}

/// A project kept in memory: one scene, the queue, the journal and a snapshot,
/// and where the artifact stands.
struct Disk {
    scene: String,
    queue: AssetQueue,
    journal: Option<PendingTransaction>,
    snapshot: Option<String>,
    original: bool,
    staged: bool,
}

fn copy_journal(journal: &PendingTransaction) -> PendingTransaction {
    PendingTransaction {
        version: journal.version,
        previous_queue: journal.previous_queue.clone(),
        rollback_snapshot: journal.rollback_snapshot.clone(),
        staged_artifact: match &journal.staged_artifact {
            Some(s) => deletion_journal(&journal.previous_queue, &s.original).staged_artifact,
            None => None,
        },
    }
}

impl Disk {
    fn new() -> Disk {
        Disk {
            scene: ":hello;".to_string(),
            queue: queue(vec![task("bg_start", AssetKind::Background, "bg_start")]),
            journal: None,
            snapshot: None,
            original: true,
            staged: false,
        }
    }

    fn recover(&mut self) -> Result<(), String> {
        self.recover_until(usize::MAX)
    }

    /// A recovery whose step after a number of others fails, where it can; a restore
    /// that fails leaves half of a scene.
    fn recover_until(&mut self, fault: usize) -> Result<(), String> {
        let mut phase = RecoveryPhase::Reading;
        let mut steps = 0;
        loop {
            steps += 1;
            let failing = steps > fault;
            let event = match &phase {
                RecoveryPhase::Done(result) => return result.clone(),
                RecoveryPhase::RestoringSnapshot(_) if failing => {
                    self.scene = ":hel".to_string();
                    RecoveryEvent::Finished(Err("disk full".to_string()))
                }
                RecoveryPhase::RestoringQueue(_)
                | RecoveryPhase::MovingBack(_)
                | RecoveryPhase::ClearingJournal(_)
                    if failing =>
                {
                    RecoveryEvent::Finished(Err("disk full".to_string()))
                }
                RecoveryPhase::Reading => {
                    RecoveryEvent::Journal(Ok(self.journal.as_ref().map(copy_journal)))
                }
                RecoveryPhase::Locating(_) => RecoveryEvent::Located {
                    original: self.original,
                    staged: self.staged,
                },
                other => {
                    match other {
                        RecoveryPhase::CleaningStaging | RecoveryPhase::RemovingStaged(_) => {
                            self.staged = false
                        }
                        RecoveryPhase::RestoringSnapshot(_) => {
                            self.scene = self.snapshot.clone().unwrap()
                        }
                        RecoveryPhase::RestoringQueue(p) => self.queue = p.previous_queue.clone(),
                        RecoveryPhase::MovingBack(_) => {
                            self.original = true;
                            self.staged = false;
                        }
                        RecoveryPhase::ClearingJournal(_) => self.journal = None,
                        RecoveryPhase::DeletingSnapshot(_) => self.snapshot = None,
                        _ => {}
                    }
                    RecoveryEvent::Finished(Ok(()))
                }
            };
            phase = recover_pending("/p", phase, event);
        }
    }

    /// Commits a binding, with a fault in saving the bound queue or in binding,
    /// or a crash after a number of steps.
    fn commit(
        &mut self,
        run: &BindingRun,
        bound: Result<String, String>,
        save: Result<(), String>,
        crash: usize,
    ) -> Option<Result<AssetQueue, String>> {
        let mut phase = BindingPhase::Snapshotting;
        for _ in 0..crash {
            let event = match &phase {
                BindingPhase::Done(result) => return Some(result.clone()),
                BindingPhase::Snapshotting => {
                    self.snapshot = Some(self.scene.clone());
                    BindingEvent::Snapshot(Ok("snap".to_string()))
                }
                BindingPhase::Binding(_) => {
                    self.scene = "changeBg:bg_start.png;:hello;".to_string();
                    BindingEvent::Bound(bound.clone())
                }
                BindingPhase::Journalling(id) => {
                    self.journal = Some(binding_journal(run, id));
                    BindingEvent::Finished(Ok(()))
                }
                BindingPhase::Saving(_, updated) => {
                    if save.is_ok() {
                        self.queue = updated.clone();
                    }
                    BindingEvent::Finished(save.clone())
                }
                BindingPhase::Recovering(_) => BindingEvent::Finished(self.recover()),
                BindingPhase::SavingFailed(failed) => {
                    self.queue = failed.clone();
                    BindingEvent::Finished(Ok(()))
                }
                BindingPhase::ClearingJournal(..) => {
                    self.journal = None;
                    BindingEvent::Finished(Ok(()))
                }
                BindingPhase::DeletingSnapshot(..) => {
                    self.snapshot = None;
                    BindingEvent::Finished(Ok(()))
                }
                _ => BindingEvent::Finished(Ok(())),
            };
            phase = persist_binding(run, phase, event, 9);
        }
        match phase {
            BindingPhase::Done(result) => Some(result),
            _ => None,
        }
    }

    /// Deletes the artifact, up to a crash after a number of steps.
    fn delete(&mut self, save: Result<(), String>, crash: usize) -> Option<Result<AssetQueue, String>> {
        let before = self.queue.clone();
        let mut phase = DeletionPhase::Journalling;
        for _ in 0..crash {
            let result = match &phase {
                DeletionPhase::Done(result) => return Some(result.clone()),
                DeletionPhase::Journalling => {
                    self.journal = Some(deletion_journal(&before, "bg_start/1.png"));
                    Ok(())
                }
                DeletionPhase::Staging => {
                    self.original = false;
                    self.staged = true;
                    Ok(())
                }
                DeletionPhase::Saving(updated) => {
                    if save.is_ok() {
                        self.queue = updated.clone();
                    }
                    save.clone()
                }
                DeletionPhase::Recovering(_) => self.recover(),
                DeletionPhase::ClearingJournal(_) => {
                    self.journal = None;
                    Ok(())
                }
                DeletionPhase::RemovingStaged(_) => {
                    self.staged = false;
                    Ok(())
                }
            };
            phase = advance_deletion(&before, "bg_start", 1, phase, result, 5);
        }
        match phase {
            DeletionPhase::Done(result) => Some(result),
            _ => None,
        }
    }
}

fn bound_file() -> Result<String, String> {
    Ok("bg_start.png".to_string())
}

#[test]
fn queue_save_failure_rolls_back_binding_files() {
    let mut disk = Disk::new();
    let before = disk.queue.clone();
    let run = commit_generated_binding(&before, 0).unwrap();
    let save = Err("injected queue save failure".to_string());
    let error = disk.commit(&run, bound_file(), save, 20).unwrap().unwrap_err();
    assert_eq!(
        error,
        "failed to persist bound asset queue: injected queue save failure"
    );
    assert_eq!(disk.scene, ":hello;");
    assert_eq!(disk.queue, before);
    assert!(disk.journal.is_none());
}

#[test]
fn a_committed_binding_is_saved() {
    let mut disk = Disk::new();
    let run = commit_generated_binding(&disk.queue.clone(), 0).unwrap();
    let after = disk.commit(&run, bound_file(), Ok(()), 20).unwrap().unwrap();
    assert_eq!(after.tasks[0].status, AssetTaskStatus::Succeeded);
    assert_eq!(after.tasks[0].asset_file.as_deref(), Some("bg_start.png"));
    assert_eq!(disk.queue, after);
    assert!(disk.journal.is_none() && disk.snapshot.is_none());
}

#[test]
fn a_task_that_cannot_be_bound_fails() {
    let mut disk = Disk::new();
    let before = disk.queue.clone();
    let run = commit_generated_binding(&before, 0).unwrap();
    let after = disk.commit(&run, Err("no scene".to_string()), Ok(()), 20).unwrap().unwrap();
    assert_eq!(after.tasks[0].error.as_deref(), Some("binding failed: no scene"));
    assert_eq!(disk.scene, ":hello;");

    let promotion = promote_artifact(&before, "bg_start", 1, &place(BG_ARTIFACT)).unwrap();
    let mut disk = Disk::new();
    assert_eq!(
        disk.commit(&promotion, Err("no scene".to_string()), Ok(()), 20).unwrap(),
        Err("no scene".to_string())
    );
    assert_eq!(disk.queue, before);
}

#[test]
fn recovery_rolls_back_crash_after_binding_before_queue_save() {
    for crash in 0..10 {
        let mut disk = Disk::new();
        let before = disk.queue.clone();
        let run = commit_generated_binding(&before, 0).unwrap();
        disk.commit(&run, bound_file(), Ok(()), crash);
        disk.recover().unwrap();
        assert!(disk.journal.is_none());
        if disk.queue == before {
            assert_eq!(disk.scene, ":hello;");
        } else {
            assert_eq!(disk.queue.tasks[0].status, AssetTaskStatus::Succeeded);
        }
    }
}

#[test]
fn recoveries_that_failed_are_tried_again() {
    for fault in 1..4 {
        let mut disk = Disk::new();
        let before = disk.queue.clone();
        let run = commit_generated_binding(&before, 0).unwrap();
        assert!(disk.commit(&run, bound_file(), Ok(()), 4).is_none());
        assert!(disk.recover_until(fault).is_err());
        assert!(disk.journal.is_some() && disk.snapshot.is_some());
        disk.recover().unwrap();
        assert_eq!(disk.scene, ":hello;");
        assert_eq!(disk.queue, before);
        assert!(disk.journal.is_none());
    }
    for fault in 1..5 {
        let mut disk = Disk::new();
        let before = disk.queue.clone();
        assert!(disk.delete(Ok(()), 3).is_none());
        assert!(disk.recover_until(fault).is_err());
        disk.recover().unwrap();
        assert!(disk.original && !disk.staged);
        assert_eq!(disk.queue, before);
    }
}

#[test]
fn project_lock_recovers_before_running_the_next_project_write() {
    let mut disk = Disk::new();
    let before = disk.queue.clone();
    let run = commit_generated_binding(&before, 0).unwrap();
    assert!(disk.commit(&run, bound_file(), Ok(()), 3).is_none());
    assert!(disk.journal.is_some());
    disk.recover().unwrap();
    disk.scene = ":new AI edit;".to_string();
    disk.recover().unwrap();
    assert_eq!(disk.scene, ":new AI edit;");
    assert_eq!(disk.queue, before);
}

#[test]
fn queue_save_failure_restores_deleted_artifact() {
    let mut disk = Disk::new();
    let expected = disk.queue.clone();
    let save = Err("injected queue save failure".to_string());
    let error = disk.delete(save, 20).unwrap().unwrap_err();
    assert!(error.contains("injected queue save failure"));
    assert!(disk.original);
    assert_eq!(disk.queue, expected);
}

#[test]
fn recovery_rolls_back_crash_after_artifact_was_staged() {
    for crash in 0..7 {
        let mut disk = Disk::new();
        let before = disk.queue.clone();
        disk.delete(Ok(()), crash);
        disk.recover().unwrap();
        assert!(disk.journal.is_none());
        assert!(!disk.staged);
        if disk.original {
            assert_eq!(disk.queue, before);
        } else {
            assert!(disk.queue.tasks[0].attempts[0].artifact.is_none());
        }
    }
}

#[test]
fn journals_that_cannot_be_followed_are_refused() {
    let mut journal = deletion_journal(&queue(Vec::new()), "a/1.png");
    journal.version = 9;
    let event = RecoveryEvent::Journal(Ok(Some(journal)));
    assert_eq!(
        recover_pending("/p", RecoveryPhase::Reading, event),
        RecoveryPhase::Done(Err("unsupported asset transaction version 9".to_string()))
    );
    let outside = deletion_journal(&queue(Vec::new()), "../1.png");
    assert_eq!(outside.version, TRANSACTION_VERSION);
    assert_eq!(
        recover_pending(
            "/p",
            RecoveryPhase::RestoringQueue(outside),
            RecoveryEvent::Finished(Ok(()))
        ),
        RecoveryPhase::Done(Err("invalid asset transaction path: ../1.png".to_string()))
    );
    let both = deletion_journal(&queue(Vec::new()), "a/1.png");
    assert_eq!(
        recover_pending(
            "/p",
            RecoveryPhase::Locating(both),
            RecoveryEvent::Located {
                original: true,
                staged: true
            }
        ),
        RecoveryPhase::Done(Err(
            "asset transaction has both original and staged artifacts: /p/a/1.png".to_string()
        ))
    );
    assert!(staged_recovery("a", false, false).is_err());
    assert_eq!(checked_transaction_path("/p", "a/b").unwrap(), "/p/a/b");
    assert!(checked_transaction_path("/p", "../b").is_err());
}

#[test]
fn rollbacks_are_reported_together() {
    assert_eq!(
        combine_rollbacks(vec![Err("a".into()), Ok(()), Err("b".into())]),
        Err("a; b".to_string())
    );
    assert_eq!(combine_rollbacks(Vec::new()), Ok(()));
    assert_eq!(with_rollback("e".into(), Ok(())), "e");
    assert!(with_rollback("e".into(), Err("r".into())).contains('r'));
    assert_eq!(binding_commit_error(BindingCommitError::Binding("b".into())), "b");
}

#[test]
fn artifact_can_be_previewed_promoted_and_deleted() {
    let mut bg = task("bg_start", AssetKind::Background, "bg_start");
    bg.status = AssetTaskStatus::Failed;
    bg.error = Some("review rejected".into());
    bg.attempts = vec![attempt(1, Some(BG_ARTIFACT))];
    let before = queue(vec![bg]);
    assert_eq!(artifact_record(&before, "bg_start", 1).unwrap(), BG_ARTIFACT);
    let path = resolve_artifact(&before, "bg_start", 1, &place(BG_ARTIFACT)).unwrap();
    assert_eq!(
        asset_queue_preview_artifact(&path, &b"png".to_vec()),
        "data:image/png;base64,cG5n"
    );

    let run = promote_artifact(&before, "bg_start", 1, &place(BG_ARTIFACT)).unwrap();
    let mut disk = Disk::new();
    let promoted = disk.commit(&run, bound_file(), Ok(()), 20).unwrap().unwrap();
    assert_eq!(promoted.tasks[0].status, AssetTaskStatus::Succeeded);
    let mut nodes = vec![WebGalNode::new("n".into(), CommandType::Narrator, "hello".into())];
    bind_scene_command(&mut nodes, &run.task, "bg_start.png", CommandType::ChangeBg);
    assert!(nodes.iter().any(|node| command(node) == "changeBg:bg_start.png;"));

    let root = Ok("/p".to_string());
    let found = place(BG_ARTIFACT);
    let deletion =
        delete_artifact(&promoted, "bg_start", 1, &found, "/p", &root, false).unwrap();
    assert_eq!(deletion.artifact, BG_ARTIFACT);
    assert_eq!(
        deletion.journal.staged_artifact.unwrap().original,
        ".ollaic/artifacts/assets/bg_start/1.png"
    );
    let cleaned = forget_artifact(promoted, "bg_start", 1, 10).unwrap();
    assert!(cleaned.tasks[0].attempts[0].artifact.is_none());
    assert!(resolve_artifact(&cleaned, "bg_start", 1, &found).is_err());
}

#[test]
fn artifacts_outside_their_task_are_left_alone() {
    let mut odd = task("a b", AssetKind::Bgm, "a");
    odd.attempts = vec![attempt(1, Some("/p/.ollaic/artifacts/assets/a b/1.mp3"))];
    let mut bg = task("bg_start", AssetKind::Background, "bg_start");
    bg.attempts = vec![attempt(1, Some(BG_ARTIFACT)), attempt(2, None)];
    let q = queue(vec![odd, bg]);
    let root = Ok("/p".to_string());
    let delete = |id: &str, number: u32, place: &ArtifactPlace, staged: bool| {
        delete_artifact(&q, id, number, place, "/p", &root, staged)
    };
    let odd_place = place("/p/.ollaic/artifacts/assets/a b/1.mp3");
    assert_eq!(
        promote_artifact(&q, "a b", 1, &odd_place).unwrap_err(),
        "invalid asset task id: a b"
    );
    assert_eq!(
        delete("bg_start", 2, &place(BG_ARTIFACT), false).unwrap_err(),
        "asset artifact not found: bg_start/2"
    );
    let elsewhere = place("/p/.ollaic/artifacts/assets/other/1.png");
    let outside = "artifact is outside the project task directory";
    assert_eq!(promote_artifact(&q, "bg_start", 1, &elsewhere).unwrap_err(), outside);
    assert_eq!(delete("bg_start", 1, &elsewhere, false).unwrap_err(), outside);
    let mut gone = place(BG_ARTIFACT);
    gone.is_file = false;
    assert_eq!(delete("bg_start", 1, &gone, false).unwrap_err(), outside);
    gone.artifact = Err("no such file".to_string());
    assert_eq!(
        delete("bg_start", 1, &gone, false).unwrap_err(),
        "failed to resolve artifact: no such file"
    );
    gone.root = Err("no such directory".to_string());
    assert_eq!(
        delete("bg_start", 1, &gone, false).unwrap_err(),
        "failed to resolve artifact root: no such directory"
    );
    assert_eq!(
        delete("bg_start", 1, &place(BG_ARTIFACT), true).unwrap_err(),
        "stale asset transaction staging file: /p/.ollaic/assets/transaction-artifact"
    );
    let other = Ok("/q".to_string());
    assert_eq!(
        delete_artifact(&q, "bg_start", 1, &place(BG_ARTIFACT), "/p", &other, false).unwrap_err(),
        "artifact is outside the project"
    );
    let lost = Err("gone".to_string());
    assert_eq!(
        delete_artifact(&q, "bg_start", 1, &place(BG_ARTIFACT), "/p", &lost, false).unwrap_err(),
        "failed to resolve project root: gone"
    );
}

#[test]
fn unknown_artifacts_are_refused() {
    let q = queue(vec![task("a", AssetKind::Bgm, "a")]);
    let found = place(BG_ARTIFACT);
    assert_eq!(
        resolve_artifact(&q, "../a", 1, &found).unwrap_err(),
        "invalid asset task id: ../a"
    );
    assert!(resolve_artifact(&q, "a", 2, &found).is_err());
    assert_eq!(
        promote_artifact(&q, "b", 1, &found).unwrap_err(),
        "asset task not found: b"
    );
    assert!(promote_artifact(&q, "a", 2, &found).is_err());
    assert!(forget_artifact(q.clone(), "b", 1, 0).is_err());
    assert_eq!(
        commit_generated_binding(&q, 1).unwrap_err(),
        "asset task index out of range: 1"
    );
}

/// A queue with a task to generate, a finished one, and another to generate.
fn mixed_queue() -> AssetQueue {
    let waiting = |id: &str| {
        let mut t = task(id, AssetKind::Background, id);
        t.status = AssetTaskStatus::Pending;
        t.attempts = Vec::new();
        t
    };
    let mut done = task("b", AssetKind::Bgm, "b");
    done.status = AssetTaskStatus::Succeeded;
    let mut q = queue(vec![waiting("a"), done, waiting("c")]);
    q.limits = QueueLimits {
        image: 2,
        tts: 2,
        music: 1,
        max_retries: 1,
    };
    q
}

fn planned(same_run: bool) -> QueueRun {
    let mut run = begin_run(mixed_queue(), same_run).unwrap();
    if same_run {
        assert_eq!(run.phase, RunPhase::Rebinding(1));
        run = run_queue_cancellable(run, RunEvent::Rebound(Ok(())), 1);
    }
    assert_eq!(run.phase, RunPhase::Checking);
    run = run_queue_cancellable(run, RunEvent::Checked(vec![Ok(()), Ok(()), Ok(())]), 2);
    assert_eq!(run.phase, RunPhase::SavingPlan(vec![(0, 2), (2, 2)]));
    run = run_queue_cancellable(run, RunEvent::Saved(Ok(())), 3);
    assert_eq!(
        run.phase,
        RunPhase::Generating(vec![(0, 2), (2, 2)], vec![Slot::Open, Slot::Open])
    );
    run
}

#[test]
fn a_run_generates_and_binds_in_order() {
    let mut run = planned(true);
    // The later task is ready first.
    assert!(run.let_in(1));
    assert!(run.let_in(0));
    assert_eq!(run.begin_attempt(1, 4), Some(1));
    assert_eq!(run.begin_attempt(0, 4), Some(1));
    let made = Ok(("c/1.png".to_string(), false));
    assert_eq!(run.finish_attempt(1, 1, 4, 5, made, 5), AttemptOutcome::Generated);
    run = run_queue_cancellable(run, RunEvent::Ended(1, true), 5);
    let slow = Err("slow".to_string());
    assert_eq!(run.finish_attempt(0, 1, 4, 6, slow, 6), AttemptOutcome::TryAgain);
    assert_eq!(run.queue.tasks[0].status, AssetTaskStatus::Retrying);
    assert_eq!(run.begin_attempt(0, 7), Some(2));
    let made = Ok(("a/2.png".to_string(), true));
    assert_eq!(run.finish_attempt(0, 2, 7, 8, made, 8), AttemptOutcome::Generated);
    run = run_queue_cancellable(run, RunEvent::Ended(0, true), 8);
    assert_eq!(run.phase, RunPhase::Binding(vec![0, 2], 0));
    for index in [0usize, 2] {
        let mut bound = run.queue.clone();
        bound.tasks[index].status = AssetTaskStatus::Succeeded;
        run = run_queue_cancellable(run, RunEvent::Bound(Ok(bound)), 9);
    }
    assert_eq!(run.phase, RunPhase::Done(Ok(())));
    assert!(run.queue.tasks.iter().all(|t| t.status == AssetTaskStatus::Succeeded));
}

#[test]
fn a_task_that_fails_too_often_is_given_up() {
    let mut run = planned(false);
    assert!(run.let_in(0));
    for attempt in 1..=2u32 {
        assert_eq!(run.begin_attempt(0, 4), Some(attempt));
        run.finish_attempt(0, attempt, 4, 5, Err("slow".to_string()), 5);
    }
    assert_eq!(run.queue.tasks[0].status, AssetTaskStatus::Failed);
    assert_eq!(run.begin_attempt(0, 6), None);
    run = run_queue_cancellable(run, RunEvent::Ended(0, false), 6);
    assert!(run.let_in(1));
    run = run_queue_cancellable(run, RunEvent::Ended(1, true), 6);
    assert_eq!(run.phase, RunPhase::Binding(vec![2], 0));
    let cancelled = Err(ASSET_QUEUE_CANCELLED.to_string());
    let mut other = planned(false);
    assert!(other.let_in(0));
    other.begin_attempt(0, 4);
    assert_eq!(
        other.finish_attempt(0, 1, 4, 5, cancelled, 5),
        AttemptOutcome::Cancelled
    );
    other = run_queue_cancellable(other, RunEvent::Failed(ASSET_QUEUE_CANCELLED.to_string()), 6);
    assert_eq!(
        other.phase,
        RunPhase::Done(Err(ASSET_QUEUE_CANCELLED.to_string()))
    );
}

#[test]
fn a_lane_takes_no_more_tasks_than_its_limit() {
    let image = |id: &str| {
        let mut t = task(id, AssetKind::Background, id);
        t.attempts = Vec::new();
        t
    };
    let mut music = task("m", AssetKind::Bgm, "m");
    music.attempts = Vec::new();
    let mut q = queue(vec![image("a"), image("b"), image("c"), music]);
    q.limits = QueueLimits {
        image: 2,
        tts: 2,
        music: 1,
        max_retries: 0,
    };
    let mut run = begin_run(q, false).unwrap();
    run = run_queue_cancellable(run, RunEvent::Checked(vec![Ok(()), Ok(()), Ok(()), Ok(())]), 1);
    run = run_queue_cancellable(run, RunEvent::Saved(Ok(())), 2);
    assert!(run.let_in(0));
    assert!(run.let_in(1));
    assert!(!run.let_in(2));
    assert_eq!(
        run.phase,
        RunPhase::Generating(
            vec![(0, 1), (1, 1), (2, 1), (3, 1)],
            vec![Slot::Running, Slot::Running, Slot::Open, Slot::Open]
        )
    );
    assert!(run.let_in(3));
    run.begin_attempt(1, 3);
    run.finish_attempt(1, 1, 3, 4, Ok(("b/1.png".to_string(), false)), 4);
    run = run_queue_cancellable(run, RunEvent::Ended(1, true), 4);
    assert!(run.let_in(2));
    assert_eq!(
        run.phase,
        RunPhase::Generating(
            vec![(0, 1), (1, 1), (2, 1), (3, 1)],
            vec![Slot::Running, Slot::Made, Slot::Running, Slot::Running]
        )
    );
}

#[test]
fn a_kept_queue_of_the_same_run_is_bound_again() {
    let mut kept = mixed_queue();
    kept.run_id = "r1".to_string();
    assert!(is_same_run(&kept, "r1"));
    assert!(!is_same_run(&kept, "r2"));
    let again = begin_queue(&kept, mixed_queue(), "r1").unwrap();
    assert_eq!(again.phase, RunPhase::Rebinding(1));
    let fresh = begin_queue(&kept, mixed_queue(), "r2").unwrap();
    assert_eq!(fresh.phase, RunPhase::Checking);
}

#[test]
fn a_cancelled_run_leaves_no_task_in_flight() {
    let mut run = planned(false);
    for slot in 0..2 {
        assert!(run.let_in(slot));
        run.begin_attempt(slot, 4);
        run.finish_attempt(slot, 1, 4, 5, Ok(("x".to_string(), false)), 5);
        run = run_queue_cancellable(run, RunEvent::Ended(slot, true), 5);
    }
    assert_eq!(run.queue.tasks[0].status, AssetTaskStatus::Running);
    run = run_queue_cancellable(run, RunEvent::Cancelled, 6);
    assert_eq!(run.phase, RunPhase::SavingCancelled);
    assert_eq!(run.queue.tasks[0].status, AssetTaskStatus::Pending);
    assert_eq!(run.queue.tasks[2].status, AssetTaskStatus::Pending);
    run = run_queue_cancellable(run, RunEvent::Saved(Ok(())), 7);
    assert_eq!(
        run.phase,
        RunPhase::Done(Err(ASSET_QUEUE_CANCELLED.to_string()))
    );
}

#[test]
fn a_task_that_cannot_be_bound_again_runs_again() {
    let mut run = begin_run(mixed_queue(), true).unwrap();
    run = run_queue_cancellable(run, RunEvent::Rebound(Err("gone".to_string())), 1);
    assert_eq!(run.queue.tasks[1].error.as_deref(), Some("rebinding failed: gone"));
    let blocked = Err("no key".to_string());
    run = run_queue_cancellable(run, RunEvent::Checked(vec![blocked, Ok(()), Ok(())]), 2);
    assert_eq!(
        run.queue.tasks[0].error.as_deref(),
        Some("pending configuration: no key")
    );
    assert_eq!(run.phase, RunPhase::SavingPlan(vec![(1, 3), (2, 2)]));
    let mut none = mixed_queue();
    none.limits.tts = 0;
    assert!(begin_run(none, false).is_err());
    assert_eq!(find_finished(&mixed_queue(), 0), 1);
    let mut q = mixed_queue();
    q.tasks[0].status = AssetTaskStatus::Running;
    cancel_binding(&mut q, &vec![0], 0, 1);
    assert_eq!(q.tasks[0].status, AssetTaskStatus::Pending);
}

/// Binds in a project that is kept in memory, with a fault where one is set.
fn bind(
    files: &mut Vec<(String, String)>,
    failing: Option<BindPhase>,
    bytes: Vec<u8>,
) -> Result<(), String> {
    let mut remembered = Vec::new();
    let mut phase = BindPhase::Snapshotting;
    loop {
        let event = match &phase {
            BindPhase::Done(result) => return result.clone(),
            BindPhase::Reading => BindEvent::Read(Ok(bytes.clone())),
            other => {
                let result = if failing.as_ref() == Some(other) {
                    Err("fault".to_string())
                } else {
                    Ok(())
                };
                match other {
                    BindPhase::Snapshotting => remembered = files.clone(),
                    BindPhase::Promoting => files.push(("figure/a.png".into(), "png".into())),
                    BindPhase::Applying => files[0].1 = "changed".into(),
                    BindPhase::Restoring(_) => *files = remembered.clone(),
                    _ => {}
                }
                BindEvent::Finished(result)
            }
        };
        phase = bind_asset(AssetKind::Figure, "png", phase, event);
    }
}

#[test]
fn a_failed_binding_is_undone() {
    let before = vec![("scene/start.txt".to_string(), ":hello;".to_string())];
    let mut files = before.clone();
    assert_eq!(bind(&mut files, Some(BindPhase::Applying), png(0)), Err("fault".to_string()));
    assert_eq!(files, before);
    assert_eq!(
        bind(&mut files, None, png(255)),
        Err("figure artifact has no transparent pixels".to_string())
    );
    assert_eq!(files, before);
    assert_eq!(bind(&mut files, None, png(0)), Ok(()));
    assert_eq!(files.len(), 2);
}

#[test]
fn references_are_restored_without_promoting() {
    assert_eq!(first_rebind(AssetKind::Figure), BindPhase::Reading);
    assert_eq!(first_rebind(AssetKind::Bgm), BindPhase::Snapshotting);
    assert_eq!(
        rebind_asset(
            AssetKind::Bgm,
            "mp3",
            BindPhase::Snapshotting,
            BindEvent::Finished(Ok(()))
        ),
        BindPhase::Applying
    );
    assert_eq!(
        rebind_asset(
            AssetKind::Figure,
            "png",
            BindPhase::Reading,
            BindEvent::Read(Ok(png(0)))
        ),
        BindPhase::Snapshotting
    );
    assert_eq!(
        rebind_asset(
            AssetKind::Bgm,
            "mp3",
            BindPhase::Restoring("e".into()),
            BindEvent::Finished(Err("r".into()))
        ),
        BindPhase::Done(Err("e; rollback failed: r".into()))
    );
}

#[test]
fn scenes_are_listed_in_order() {
    let entry = |name: &str| SceneEntry {
        path: format!("/p/game/scene/{name}"),
        resolved: Ok(format!("/p/game/scene/{name}")),
    };
    assert_eq!(
        all_scene_paths("/p/game/scene", vec![entry("b.txt"), entry("x.bak"), entry("a.txt")])
            .unwrap(),
        vec!["/p/game/scene/a.txt", "/p/game/scene/b.txt"]
    );
    let outside = SceneEntry {
        path: "/p/game/scene/c.txt".into(),
        resolved: Ok("/elsewhere/c.txt".into()),
    };
    assert_eq!(
        all_scene_paths("/p/game/scene", vec![outside]).unwrap_err(),
        "scene path is outside project: /elsewhere/c.txt"
    );
    let gone = SceneEntry {
        path: "/p/game/scene/d.txt".into(),
        resolved: Err("failed to resolve scene path: gone".into()),
    };
    assert!(all_scene_paths("/p/game/scene", vec![gone]).is_err());
    assert_eq!(
        check_artifact("/r", "a", "/x/1.png", true).unwrap_err(),
        "artifact is outside task directory: /x/1.png"
    );
    assert!(check_artifact("/r", "a", "/r/a/1.png", true).is_ok());
    assert_eq!(restore_file(true, false), RestoreAction::Write);
    assert_eq!(restore_file(false, true), RestoreAction::Remove);
    assert_eq!(restore_file(false, false), RestoreAction::Nothing);
    assert_eq!(
        restore_binding_files(&vec![
            ("a".into(), Err("x".into())),
            ("b".into(), Ok(())),
            ("c".into(), Err("y".into()))
        ]),
        Err("a: x; c: y".to_string())
    );
    assert_eq!(restore_binding_files(&Vec::new()), Ok(()));
}

#[test]
fn paths_are_ordered_part_by_part() {
    let found = |path: &str| SceneEntry {
        path: path.to_string(),
        resolved: Ok(path.to_string()),
    };
    assert_eq!(
        all_scene_paths(
            "/s",
            vec![found("/s/a-b.txt"), found("/s/b.txt"), found("/s/a/b.txt"), found("/s/a.txt")]
        )
        .unwrap(),
        vec!["/s/a/b.txt", "/s/a-b.txt", "/s/a.txt", "/s/b.txt"]
    );
    // Of two texts that are the same path, the one that was given first is kept.
    assert_eq!(
        binding_files(
            vec!["/s/a-b.txt".into(), "/s/a//b.txt".into()],
            "/s/a/b.txt".into(),
            "../c.json".into(),
            "m.json".into()
        ),
        vec!["/s/a//b.txt", "/s/a-b.txt", "../c.json", "m.json"]
    );
}

#[test]
fn artifacts_have_their_places() {
    let t = task("a", AssetKind::Background, "a");
    assert_eq!(
        write_artifact(&t, 3, "png").unwrap(),
        ".ollaic/artifacts/assets/a/3.png"
    );
    assert_eq!(
        write_artifact(&t, 3, "p/g").unwrap_err(),
        "invalid generated artifact extension: p/g"
    );
    let limits = QueueLimits::default();
    assert_eq!(lane(AssetKind::Figure, &limits), (Lane::Image, limits.image));
    assert_eq!(lane(AssetKind::Sfx, &limits).0, Lane::Music);
    assert_eq!(lane(AssetKind::Tts, &limits).0, Lane::Tts);
    assert_eq!(AssetKind::from_plan("bgm"), Some(AssetKind::Bgm));
    assert_eq!(AssetKind::from_plan("film"), None);
    assert_eq!(AssetKind::Sfx.game_dir(), "vocal");
    let mut none = queue(Vec::new());
    none.limits.tts = 0;
    assert!(validate_limits(&none).is_err());
}
