use ollaic::assets::AssetMetadata;
use ollaic::change_set_commit::{
    advance, apply_change_set, baseline_matches, document_write, duplicate_resource,
    is_scene_name, missing_json_matches, parent_undone, prepare_write, rollback,
    target_is_project_owned, ApplyChangeSetResult, Baseline, ChangeSetOperation, CommitEvent,
    CommitPhase, DirectoryRemoval, DiskState, ExpectedDocument, PreparedWrite, ResourceId,
    RollbackAction, TargetState,
};
use ollaic::characters::CharactersDocument;
use ollaic::json::is_same_json;
use ollaic::json_store::{backup_path, write_crash_safe, StoreEvent, StorePhase};
use ollaic::project::ProjectMemory;
use std::collections::{BTreeMap, BTreeSet};

/// A project kept in memory, and what is to go wrong in it.
struct Project {
    files: BTreeMap<String, Vec<u8>>,
    directories: BTreeSet<String>,
    escapes: bool,
    fail_write: Option<ResourceId>,
    fail_after_write: Option<ResourceId>,
    fail_rollback: Vec<ResourceId>,
}

fn scene(file: &str) -> ResourceId {
    ResourceId::Scene { file: file.into() }
}

fn edit(file: &str, baseline: &str, content: &str) -> ChangeSetOperation {
    ChangeSetOperation::Scene {
        file: file.into(),
        baseline: baseline.into(),
        content: content.into(),
    }
}

fn create(file: &str, content: &str) -> ChangeSetOperation {
    ChangeSetOperation::CreateScene {
        file: file.into(),
        content: content.into(),
    }
}

fn value(text: &str) -> serde_json::Value {
    serde_json::from_str(text).unwrap()
}

/// The document that a baseline speaks of, where it can be read as one.
fn expected(write: &PreparedWrite) -> ExpectedDocument {
    let text = match &write.baseline {
        Baseline::Json(text) => text,
        _ => return ExpectedDocument::Unknown,
    };
    let json = value(text);
    let field = |name: &str| json.get(name).and_then(|v| v.as_str()).unwrap_or("").to_string();
    match &write.resource {
        ResourceId::Characters => match json.get("characters").and_then(|v| v.as_array()) {
            Some(cards) if cards.is_empty() => ExpectedDocument::Characters(CharactersDocument {
                version: 1,
                characters: Vec::new(),
            }),
            _ => ExpectedDocument::Unknown,
        },
        ResourceId::ProjectMemory => ExpectedDocument::Memory(ProjectMemory {
            world_setting: field("worldSetting"),
            writing_style: field("writingStyle"),
            user_preferences: field("userPreferences"),
            updated_at: field("updatedAt"),
        }),
        ResourceId::AssetMetadata if json.as_object().unwrap().is_empty() => {
            ExpectedDocument::Metadata(AssetMetadata::new())
        }
        _ => ExpectedDocument::Unknown,
    }
}

fn parent_of(path: &str) -> String {
    path.rsplit_once('/').unwrap().0.to_string()
}

impl Project {
    fn new(files: &[(&str, &str)]) -> Project {
        Project {
            files: files
                .iter()
                .map(|(path, content)| (path.to_string(), content.as_bytes().to_vec()))
                .collect(),
            directories: files
                .iter()
                .map(|(path, _)| parent_of(path))
                .chain(["game".to_string(), "game/scene".to_string()])
                .collect(),
            escapes: false,
            fail_write: None,
            fail_after_write: None,
            fail_rollback: Vec::new(),
        }
    }

    fn text(&self, path: &str) -> Option<String> {
        self.files.get(path).map(|b| String::from_utf8(b.clone()).unwrap())
    }

    fn json(&self, path: &str) -> serde_json::Value {
        value(&self.text(path).unwrap())
    }

    /// Replaces a file as the store does; a backup that is a directory cannot be removed.
    fn write_crash_safe(&mut self, path: &str, content: &[u8]) -> Result<(), String> {
        let backup = backup_path(path);
        let mut temporary = Vec::new();
        let mut phase = StorePhase::Looking;
        loop {
            let result = match &phase {
                StorePhase::Done(result) => return result.clone(),
                StorePhase::WritingTemporary => {
                    temporary = content.to_vec();
                    Ok(())
                }
                StorePhase::Replacing => {
                    self.files.insert(path.to_string(), temporary.clone());
                    Ok(())
                }
                StorePhase::RemovingBackup if self.directories.contains(&backup) => {
                    Err("Is a directory (os error 21)".to_string())
                }
                _ => Ok(()),
            };
            let event = StoreEvent {
                result,
                primary: self.files.contains_key(path),
                backup: self.files.contains_key(&backup) || self.directories.contains(&backup),
            };
            phase = write_crash_safe(phase, event);
        }
    }

    fn write(&mut self, write: &PreparedWrite) -> Result<(), String> {
        self.directories.insert(parent_of(&write.path));
        match write.baseline {
            Baseline::Missing => {
                self.files.insert(write.path.clone(), write.content.clone());
                Ok(())
            }
            _ => self.write_crash_safe(&write.path, &write.content),
        }
    }

    fn remove_directory(&mut self, directory: &str) -> DirectoryRemoval {
        if self.files.keys().any(|path| parent_of(path) == directory) {
            DirectoryRemoval::Occupied
        } else if self.directories.remove(directory) {
            DirectoryRemoval::Removed
        } else {
            DirectoryRemoval::Missing
        }
    }

    fn roll_back(
        &mut self,
        write: &PreparedWrite,
        snapshot: &Option<Vec<u8>>,
        parent_existed: bool,
    ) -> bool {
        let parent = parent_of(&write.path);
        let present = self.files.contains_key(&write.path);
        match rollback(snapshot.is_some(), present, parent_existed) {
            RollbackAction::Restore => {
                self.write_crash_safe(&write.path, snapshot.as_ref().unwrap()).is_ok()
            }
            RollbackAction::Remove => self.files.remove(&write.path).is_some(),
            RollbackAction::RemoveWithParent => {
                self.files.remove(&write.path).is_some()
                    && parent_undone(self.remove_directory(&parent))
            }
            RollbackAction::RemoveParent => parent_undone(self.remove_directory(&parent)),
            RollbackAction::Nothing => true,
        }
    }

    fn apply(&mut self, operations: Vec<ChangeSetOperation>) -> ApplyChangeSetResult {
        let mut run = apply_change_set(true, operations);
        let parents: Vec<bool> = run
            .writes
            .iter()
            .map(|write| self.directories.contains(&parent_of(&write.path)))
            .collect();
        let mut snapshots: Vec<Option<Vec<u8>>> = Vec::new();
        loop {
            let event = match &run.phase {
                CommitPhase::Done(_) => break,
                CommitPhase::Ownership(_) => CommitEvent::Owned(!self.escapes),
                CommitPhase::Baselines(at, _) => {
                    let write = &run.writes[*at];
                    let disk = match self.files.get(&write.path) {
                        Some(bytes) => DiskState::Present(bytes.clone()),
                        None => DiskState::Absent,
                    };
                    CommitEvent::BaselineMatches(baseline_matches(write, &disk, &expected(write)))
                }
                CommitPhase::Snapshots(at) => {
                    snapshots.push(self.files.get(&run.writes[*at].path).cloned());
                    CommitEvent::Snapshotted(Ok(()))
                }
                CommitPhase::Writing(at) => {
                    let write = &run.writes[*at];
                    CommitEvent::Written(if self.fail_write.as_ref() == Some(&write.resource) {
                        Err("injected write failure".to_string())
                    } else if self.fail_after_write.as_ref() == Some(&write.resource) {
                        self.write(write)
                            .and(Err("injected failure after create".to_string()))
                    } else {
                        self.write(write)
                    })
                }
                CommitPhase::RollingBack { next, .. } => {
                    let at = *next - 1;
                    let write = &run.writes[at];
                    CommitEvent::RolledBack(
                        !self.fail_rollback.contains(&write.resource)
                            && self.roll_back(write, &snapshots[at], parents[at]),
                    )
                }
            };
            run = advance(run, event);
        }
        match run.phase {
            CommitPhase::Done(result) => result,
            _ => unreachable!(),
        }
    }
}

const START: &str = "game/scene/start.txt";
const CHARACTERS: &str = "game/config/characters.json";
const MEMORY: &str = "game/ai-memory.json";
const METADATA: &str = "game/config/asset-metadata.json";

fn all_resources() -> Project {
    Project::new(&[
        (START, "scene-before"),
        (CHARACTERS, r#"{"version":1,"characters":[]}"#),
        (MEMORY, r#"{"value":"memory-before"}"#),
        (METADATA, r#"{"value":"metadata-before"}"#),
    ])
}

fn all_resource_operations() -> Vec<ChangeSetOperation> {
    vec![
        edit("start.txt", "scene-before", "scene-after"),
        ChangeSetOperation::Characters {
            baseline: r#"{"version":1,"characters":[]}"#.into(),
            document: r#"{"version":1,"characters":[{"id":"hero"}]}"#.into(),
        },
        ChangeSetOperation::ProjectMemory {
            baseline: r#"{"value":"memory-before"}"#.into(),
            memory: r#"{"value":"memory-after"}"#.into(),
        },
        ChangeSetOperation::AssetMetadata {
            baseline: r#"{"value":"metadata-before"}"#.into(),
            metadata: r#"{"value":"metadata-after"}"#.into(),
        },
        create("new.txt", "new"),
    ]
}

fn fails_and_restores(failing: ResourceId) {
    let mut project = all_resources();
    project.fail_write = Some(failing);
    let before = project.files.clone();
    let result = project.apply(all_resource_operations());
    assert!(matches!(result, ApplyChangeSetResult::FailedAndRolledBack { .. }));
    assert_eq!(project.files, before);
}

#[test]
fn what_is_no_json_equals_nothing() {
    assert!(is_same_json(&b"{\"a\": 1}".to_vec(), "{ \"a\" : 1 }"));
    assert!(!is_same_json(&b"{\"a\": 1}".to_vec(), "{\"a\": 2}"));
    assert!(!is_same_json(&b"nothing".to_vec(), "nothing"));
    assert!(!is_same_json(&b"{}".to_vec(), ""));
    assert!(!is_same_json(&Vec::new(), "{}"));
}

#[test]
fn change_set_commit_accepts_logical_empty_json_baselines_on_a_fresh_project() {
    let mut project = Project::new(&[]);
    let result = project.apply(vec![
        ChangeSetOperation::Characters {
            baseline: r#"{"version":1,"characters":[]}"#.into(),
            document: r#"{"version":1,"characters":[{"id":"hero","name":"Hero"}]}"#.into(),
        },
        ChangeSetOperation::ProjectMemory {
            baseline: r#"{"worldSetting":"","writingStyle":"","userPreferences":"","updatedAt":"fresh-client-timestamp"}"#.into(),
            memory: r#"{"worldSetting":"Harbor","writingStyle":"","userPreferences":"","updatedAt":"now"}"#.into(),
        },
        ChangeSetOperation::AssetMetadata {
            baseline: "{}".into(),
            metadata: r#"{"aliases":{"background/port.png":"Port"}}"#.into(),
        },
    ]);
    assert_eq!(
        result,
        ApplyChangeSetResult::Committed {
            resources: vec![
                ResourceId::Characters,
                ResourceId::ProjectMemory,
                ResourceId::AssetMetadata,
            ]
        }
    );
    for path in [CHARACTERS, MEMORY, METADATA] {
        assert!(project.files.contains_key(path));
    }
}

#[test]
fn change_set_commit_fresh_json_failure_removes_created_files_and_directories() {
    let mut project = Project::new(&[]);
    project.fail_write = Some(ResourceId::ProjectMemory);
    let result = project.apply(vec![
        ChangeSetOperation::Characters {
            baseline: r#"{"version":1,"characters":[]}"#.into(),
            document: r#"{"version":1,"characters":[{"id":"hero"}]}"#.into(),
        },
        ChangeSetOperation::ProjectMemory {
            baseline: r#"{"worldSetting":"","writingStyle":"","userPreferences":"","updatedAt":"fresh-client-timestamp"}"#.into(),
            memory: r#"{"worldSetting":"Harbor"}"#.into(),
        },
    ]);
    assert!(matches!(result, ApplyChangeSetResult::FailedAndRolledBack { .. }));
    assert!(project.files.is_empty());
    assert!(!project.directories.contains("game/config"));
    assert!(project.directories.contains("game/scene"));
}

#[test]
fn a_directory_that_something_else_is_in_stays() {
    let mut project = Project::new(&[]);
    project.fail_write = Some(ResourceId::AssetMetadata);
    project.fail_rollback = vec![ResourceId::Characters];
    let result = project.apply(vec![
        ChangeSetOperation::Characters {
            baseline: r#"{"version":1,"characters":[]}"#.into(),
            document: r#"{"version":1,"characters":[{"id":"hero"}]}"#.into(),
        },
        ChangeSetOperation::AssetMetadata {
            baseline: "{}".into(),
            metadata: r#"{"value":"after"}"#.into(),
        },
    ]);
    assert_eq!(
        result,
        ApplyChangeSetResult::RollbackFailed {
            failed_resource: ResourceId::AssetMetadata,
            residual_resources: vec![ResourceId::Characters],
            message: "injected write failure".into(),
        }
    );
    assert!(project.directories.contains("game/config"));
    assert!(!parent_undone(DirectoryRemoval::Failed));
}

#[test]
fn change_set_commit_different_projects_are_isolated() {
    let mut first = Project::new(&[(START, "before")]);
    let mut second = Project::new(&[(START, "before")]);
    for (project, content) in [(&mut first, "first"), (&mut second, "second")] {
        let result = project.apply(vec![edit("start.txt", "before", content)]);
        assert!(matches!(result, ApplyChangeSetResult::Committed { .. }));
    }
    assert_eq!(first.text(START).unwrap(), "first");
    assert_eq!(second.text(START).unwrap(), "second");
}

#[test]
fn change_set_commit_concurrent_same_baseline_allows_at_most_one_commit() {
    let mut project = Project::new(&[(START, "before")]);
    let results: Vec<ApplyChangeSetResult> = ["first", "second"]
        .iter()
        .map(|content| project.apply(vec![edit("start.txt", "before", content)]))
        .collect();
    assert_eq!(
        results
            .iter()
            .filter(|result| matches!(result, ApplyChangeSetResult::Committed { .. }))
            .count(),
        1,
        "{results:?}"
    );
    assert_eq!(
        results
            .iter()
            .filter(|result| matches!(result, ApplyChangeSetResult::Conflict { .. }))
            .count(),
        1,
        "{results:?}"
    );
}

#[test]
fn change_set_commit_rejects_escaping_scene_identifiers() {
    let mut project = Project::new(&[]);
    for invalid in [
        "/tmp/evil.txt",
        "../evil.txt",
        "nested/evil.txt",
        "nested\\evil.txt",
        "..\\evil.txt",
    ] {
        let result = project.apply(vec![create(invalid, "evil")]);
        assert!(
            matches!(result, ApplyChangeSetResult::FailedAndRolledBack { .. }),
            "{invalid}: {result:?}"
        );
        assert!(!is_scene_name(invalid));
    }
    assert!(project.files.is_empty());
    assert!(is_scene_name("start.txt"));
}

#[test]
fn change_set_commit_rejects_symlinked_resource_directory() {
    let outside = Some("/outside/game/scene".to_string());
    let present = TargetState::Present(Some("/outside/game/scene/victim.txt".to_string()));
    assert!(!target_is_project_owned("/project", &outside, &present));
    let mut project = Project::new(&[("game/scene/victim.txt", "outside")]);
    project.escapes = true;
    assert_eq!(
        project.apply(vec![edit("victim.txt", "outside", "changed")]),
        ApplyChangeSetResult::FailedAndRolledBack {
            failed_resource: scene("victim.txt"),
            message: "resource path escapes project".into(),
        }
    );
    assert_eq!(project.text("game/scene/victim.txt").unwrap(), "outside");
}

#[test]
fn change_set_commit_writer_error_after_replace_restores_current_resource() {
    let mut project = Project::new(&[(START, "before")]);
    project.directories.insert("game/scene/start.txt.bak".to_string());
    assert_eq!(
        project.apply(vec![edit("start.txt", "before", "after")]),
        ApplyChangeSetResult::RollbackFailed {
            failed_resource: scene("start.txt"),
            residual_resources: vec![scene("start.txt")],
            message: "Is a directory (os error 21)".into(),
        }
    );
    assert_eq!(project.text(START).unwrap(), "before");
}

#[test]
fn change_set_commit_duplicate_resource_is_rejected_without_writes() {
    let mut project = Project::new(&[(START, "before")]);
    assert_eq!(
        project.apply(vec![
            edit("start.txt", "before", "first"),
            edit("start.txt", "before", "second"),
        ]),
        ApplyChangeSetResult::FailedAndRolledBack {
            failed_resource: scene("start.txt"),
            message: "duplicate resource operation".into(),
        }
    );
    assert_eq!(project.text(START).unwrap(), "before");
}

#[test]
fn change_set_commit_failure_after_create_removes_partial_scene() {
    let mut project = Project::new(&[]);
    project.fail_after_write = Some(scene("new.txt"));
    assert_eq!(
        project.apply(vec![create("new.txt", "new")]),
        ApplyChangeSetResult::FailedAndRolledBack {
            failed_resource: scene("new.txt"),
            message: "injected failure after create".into(),
        }
    );
    assert!(project.files.is_empty());
}

#[test]
fn change_set_commit_rollback_failure_reports_exact_residual_resources() {
    let mut project = Project::new(&[
        ("game/scene/one.txt", "one-before"),
        ("game/scene/two.txt", "two-before"),
    ]);
    project.fail_write = Some(scene("two.txt"));
    project.fail_rollback = vec![scene("one.txt")];
    assert_eq!(
        project.apply(vec![
            edit("one.txt", "one-before", "one-after"),
            edit("two.txt", "two-before", "two-after"),
        ]),
        ApplyChangeSetResult::RollbackFailed {
            failed_resource: scene("two.txt"),
            residual_resources: vec![scene("one.txt")],
            message: "injected write failure".into(),
        }
    );
    assert_eq!(project.text("game/scene/one.txt").unwrap(), "one-after");
    assert_eq!(project.text("game/scene/two.txt").unwrap(), "two-before");
}

#[test]
fn change_set_commit_later_create_failure_removes_earlier_create() {
    let mut project = Project::new(&[]);
    project.fail_write = Some(scene("two.txt"));
    let result = project.apply(vec![create("one.txt", "one"), create("two.txt", "two")]);
    assert!(matches!(result, ApplyChangeSetResult::FailedAndRolledBack { .. }));
    assert!(project.files.is_empty());
}

#[test]
fn change_set_commit_create_failure_restores_all_previous_resources() {
    fails_and_restores(scene("new.txt"));
}

#[test]
fn change_set_commit_asset_metadata_failure_restores_previous_resources() {
    fails_and_restores(ResourceId::AssetMetadata);
}

#[test]
fn change_set_commit_memory_failure_restores_scene_and_characters() {
    fails_and_restores(ResourceId::ProjectMemory);
}

#[test]
fn change_set_commit_character_failure_restores_previous_scene() {
    fails_and_restores(ResourceId::Characters);
}

#[test]
fn change_set_commit_scene_write_failure_restores_previous_scene() {
    let mut project = Project::new(&[
        ("game/scene/one.txt", "one-before"),
        ("game/scene/two.txt", "two-before"),
    ]);
    project.fail_write = Some(scene("two.txt"));
    let result = project.apply(vec![
        edit("one.txt", "one-before", "one-after"),
        edit("two.txt", "two-before", "two-after"),
    ]);
    assert!(matches!(result, ApplyChangeSetResult::FailedAndRolledBack { .. }));
    assert_eq!(project.text("game/scene/one.txt").unwrap(), "one-before");
    assert_eq!(project.text("game/scene/two.txt").unwrap(), "two-before");
}

#[test]
fn change_set_commit_create_scene_with_header_and_content_is_one_create() {
    let mut project = Project::new(&[]);
    let content = "; 章节: 第一章\n; 大纲: 相遇\nAlice:Hello;\n";
    let result = project.apply(vec![create("chapter1.txt", content)]);
    assert!(matches!(result, ApplyChangeSetResult::Committed { .. }));
    assert_eq!(project.text("game/scene/chapter1.txt").unwrap(), content);
}

#[test]
fn change_set_commit_multiple_create_scenes_succeed() {
    let mut project = Project::new(&[]);
    let result = project.apply(vec![create("one.txt", "one"), create("two.txt", "two")]);
    assert!(matches!(result, ApplyChangeSetResult::Committed { .. }));
    assert_eq!(project.text("game/scene/one.txt").unwrap(), "one");
    assert_eq!(project.text("game/scene/two.txt").unwrap(), "two");
}

#[test]
fn change_set_commit_create_scene_collision_returns_conflict_without_writes() {
    let mut project = Project::new(&[(START, "before"), ("game/scene/new.txt", "existing")]);
    assert_eq!(
        project.apply(vec![
            edit("start.txt", "before", "after"),
            create("new.txt", "created"),
        ]),
        ApplyChangeSetResult::Conflict {
            resources: vec![scene("new.txt")]
        }
    );
    assert_eq!(project.text(START).unwrap(), "before");
    assert_eq!(project.text("game/scene/new.txt").unwrap(), "existing");
}

#[test]
fn change_set_commit_stale_asset_metadata_returns_conflict_without_writes() {
    let mut project = Project::new(&[
        (START, "before"),
        (METADATA, r#"{"aliases":{"current":"value"}}"#),
    ]);
    assert_eq!(
        project.apply(vec![
            edit("start.txt", "before", "after"),
            ChangeSetOperation::AssetMetadata {
                baseline: r#"{"aliases":{}}"#.into(),
                metadata: r#"{"aliases":{"new":"value"}}"#.into(),
            },
        ]),
        ApplyChangeSetResult::Conflict {
            resources: vec![ResourceId::AssetMetadata]
        }
    );
    assert_eq!(project.text(START).unwrap(), "before");
}

#[test]
fn change_set_commit_stale_project_memory_returns_conflict_without_writes() {
    let mut project = Project::new(&[
        (START, "before"),
        (MEMORY, r#"{"worldSetting":"current"}"#),
    ]);
    assert_eq!(
        project.apply(vec![
            edit("start.txt", "before", "after"),
            ChangeSetOperation::ProjectMemory {
                baseline: r#"{"worldSetting":"staged"}"#.into(),
                memory: r#"{"worldSetting":"new"}"#.into(),
            },
        ]),
        ApplyChangeSetResult::Conflict {
            resources: vec![ResourceId::ProjectMemory]
        }
    );
    assert_eq!(project.text(START).unwrap(), "before");
}

#[test]
fn change_set_commit_stale_characters_returns_conflict_without_writes() {
    let mut project = Project::new(&[
        (START, "before"),
        (CHARACTERS, r#"{"version":1,"characters":[{"id":"hero"}]}"#),
    ]);
    assert_eq!(
        project.apply(vec![
            edit("start.txt", "before", "after"),
            ChangeSetOperation::Characters {
                baseline: r#"{"version":1,"characters":[]}"#.into(),
                document: r#"{"version":1,"characters":[{"id":"new"}]}"#.into(),
            },
        ]),
        ApplyChangeSetResult::Conflict {
            resources: vec![ResourceId::Characters]
        }
    );
    assert_eq!(project.text(START).unwrap(), "before");
}

#[test]
fn change_set_commit_stale_scene_returns_conflict_without_writes() {
    let mut project = Project::new(&[
        (START, "start-before"),
        ("game/scene/other.txt", "other-current"),
    ]);
    assert_eq!(
        project.apply(vec![
            edit("start.txt", "start-before", "start-after"),
            edit("other.txt", "other-staged", "other-after"),
        ]),
        ApplyChangeSetResult::Conflict {
            resources: vec![scene("other.txt")]
        }
    );
    assert_eq!(project.text(START).unwrap(), "start-before");
    assert_eq!(project.text("game/scene/other.txt").unwrap(), "other-current");
}

#[test]
fn change_set_commit_multi_resource_succeeds() {
    let memory_before =
        r#"{"worldSetting":"old","writingStyle":"","userPreferences":"","updatedAt":"1"}"#;
    let memory_after =
        r#"{"worldSetting":"new","writingStyle":"","userPreferences":"","updatedAt":"2"}"#;
    let characters_after = r#"{"version": 1, "characters": [{"id":"hero","name":"Hero"}]}"#;
    let metadata_after = r#"{"aliases": {"background/park.webp":"Park"}}"#;
    let mut project = Project::new(&[
        (START, "before"),
        (CHARACTERS, r#"{"version":1,"characters":[]}"#),
        (MEMORY, memory_before),
        (METADATA, r#"{"aliases":{}}"#),
    ]);
    let result = project.apply(vec![
        edit("start.txt", "before", "after"),
        ChangeSetOperation::Characters {
            baseline: r#"{"characters": [], "version": 1}"#.into(),
            document: characters_after.into(),
        },
        ChangeSetOperation::ProjectMemory {
            baseline: memory_before.into(),
            memory: memory_after.into(),
        },
        ChangeSetOperation::AssetMetadata {
            baseline: r#"{"aliases": {}}"#.into(),
            metadata: metadata_after.into(),
        },
    ]);
    assert!(matches!(result, ApplyChangeSetResult::Committed { .. }));
    assert_eq!(project.text(START).unwrap(), "after");
    assert_eq!(project.json(CHARACTERS), value(characters_after));
    assert_eq!(project.json(MEMORY), value(memory_after));
    assert_eq!(project.json(METADATA), value(metadata_after));
}

#[test]
fn change_set_commit_single_scene_succeeds() {
    let mut project = Project::new(&[(START, "Alice:before;\n")]);
    assert_eq!(
        project.apply(vec![edit("start.txt", "Alice:before;\n", "Alice:after;\n")]),
        ApplyChangeSetResult::Committed {
            resources: vec![scene("start.txt")]
        }
    );
    assert_eq!(project.text(START).unwrap(), "Alice:after;\n");
}

#[test]
fn documents_are_written_with_indentation() {
    let write = prepare_write(ChangeSetOperation::AssetMetadata {
        baseline: "{}".into(),
        metadata: r#"{"a":1}"#.into(),
    })
    .unwrap();
    assert_eq!(write.path, METADATA);
    assert_eq!(write.content, b"{\n  \"a\": 1\n}".to_vec());
    let broken = document_write(
        ResourceId::Characters,
        CHARACTERS,
        "{}".into(),
        Err("bad".to_string()),
    );
    assert_eq!(broken, Err((ResourceId::Characters, "bad".to_string())));
}

#[test]
fn a_missing_document_matches_an_empty_one_only() {
    let empty = CharactersDocument {
        version: 1,
        characters: Vec::new(),
    };
    assert!(missing_json_matches(
        &ResourceId::Characters,
        &ExpectedDocument::Characters(empty)
    ));
    assert!(!missing_json_matches(&ResourceId::Characters, &ExpectedDocument::Unknown));
    assert!(!missing_json_matches(&scene("a.txt"), &ExpectedDocument::Unknown));
}

#[test]
fn an_invalid_project_is_refused() {
    let run = apply_change_set(false, vec![create("new.txt", "new")]);
    assert!(matches!(
        run.phase,
        CommitPhase::Done(ApplyChangeSetResult::FailedAndRolledBack {
            failed_resource: ResourceId::Project,
            ..
        })
    ));
    assert_eq!(duplicate_resource(&Vec::new()), None);
}

#[test]
fn targets_must_be_the_projects_own() {
    let inside = Some("/project/game/scene".to_string());
    assert!(target_is_project_owned("/project", &inside, &TargetState::Absent));
    assert!(!target_is_project_owned("/project", &inside, &TargetState::Symlink));
    assert!(!target_is_project_owned("/project", &inside, &TargetState::Unreadable));
    assert!(!target_is_project_owned("/project", &None, &TargetState::Absent));
    assert!(!target_is_project_owned(
        "/project",
        &inside,
        &TargetState::Present(Some("/elsewhere/a.txt".to_string()))
    ));
    assert_eq!(rollback(false, false, false), RollbackAction::RemoveParent);
    assert_eq!(rollback(false, false, true), RollbackAction::Nothing);
    assert_eq!(rollback(false, true, false), RollbackAction::RemoveWithParent);
    assert_eq!(rollback(false, true, true), RollbackAction::Remove);
    assert_eq!(rollback(true, true, false), RollbackAction::Restore);
}
