use ollaic::assets::transaction::{
    recover_pending, recovery_suffix, run_locked, AssetMutationJournal, MutationEvent,
    MutationPhase, RecoveryEvent, RecoveryPhase, TRANSACTION_VERSION,
};
use ollaic::json_store::{
    backup_path, read_candidates, read_to_string_recovering, temporary_path, write_crash_safe,
    StoreEvent, StorePhase,
};

/// The files of one value, kept in memory.
struct Files {
    primary: Option<String>,
    backup: Option<String>,
    temporary: Option<String>,
}

impl Files {
    /// Writes until a crash, which comes before the phase it is set for.
    fn write(&mut self, value: &str, crash: Option<StorePhase>) -> Result<(), String> {
        let mut phase = StorePhase::Looking;
        loop {
            if crash.as_ref() == Some(&phase) {
                return Err("injected crash".to_string());
            }
            match &phase {
                StorePhase::Done(result) => return result.clone(),
                StorePhase::Restoring => self.primary = self.backup.take(),
                StorePhase::WritingTemporary => self.temporary = Some(value.to_string()),
                StorePhase::Replacing => self.primary = self.temporary.take(),
                StorePhase::RemovingBackup => self.backup = None,
                _ => {}
            }
            let event = StoreEvent {
                result: Ok(()),
                primary: self.primary.is_some(),
                backup: self.backup.is_some(),
            };
            phase = write_crash_safe(phase, event);
        }
    }

    fn read(&mut self) -> Option<String> {
        let mut phase = StorePhase::Looking;
        loop {
            match &phase {
                StorePhase::Done(result) => {
                    result.clone().unwrap();
                    return self.primary.clone();
                }
                StorePhase::Restoring => self.primary = self.backup.take(),
                _ => {}
            }
            let event = StoreEvent {
                result: Ok(()),
                primary: self.primary.is_some(),
                backup: self.backup.is_some(),
            };
            phase = read_to_string_recovering(phase, event);
        }
    }
}

fn files(primary: Option<&str>, backup: Option<&str>) -> Files {
    Files {
        primary: primary.map(|s| s.to_string()),
        backup: backup.map(|s| s.to_string()),
        temporary: None,
    }
}

#[test]
fn crash_after_temp_sync_preserves_complete_old_value() {
    let mut files = files(Some(r#"{"value":"old"}"#), None);
    assert!(files.write(r#"{"value":"new"}"#, Some(StorePhase::Replacing)).is_err());
    assert_eq!(files.read().unwrap(), r#"{"value":"old"}"#);
}

#[test]
fn crash_after_atomic_replace_exposes_complete_new_value() {
    let mut files = files(Some(r#"{"value":"old"}"#), None);
    assert!(files.write(r#"{"value":"new"}"#, Some(StorePhase::Syncing)).is_err());
    assert_eq!(files.read().unwrap(), r#"{"value":"new"}"#);
}

#[test]
fn missing_primary_is_restored_from_legacy_backup() {
    let mut files = files(None, Some(r#"{"value":"old"}"#));
    assert_eq!(files.read().unwrap(), r#"{"value":"old"}"#);
    assert_eq!(files.primary.as_deref(), Some(r#"{"value":"old"}"#));
}

#[test]
fn a_write_leaves_nothing_but_the_value() {
    let mut files = files(Some("old"), Some("older"));
    files.write("new", None).unwrap();
    assert_eq!(files.primary.as_deref(), Some("new"));
    assert!(files.backup.is_none() && files.temporary.is_none());
}

#[test]
fn a_failed_step_ends_the_write() {
    let failed = StoreEvent {
        result: Err("full".to_string()),
        primary: true,
        backup: false,
    };
    assert_eq!(
        write_crash_safe(StorePhase::WritingTemporary, failed),
        StorePhase::Done(Err("full".to_string()))
    );
}

#[test]
fn values_have_neighbours() {
    assert_eq!(backup_path("/p/a.json"), "/p/a.json.bak");
    assert_eq!(temporary_path("/p/a.json"), "/p/a.json.tmp");
    assert_eq!(
        read_candidates(Some("a".into()), Some("b".into())),
        vec!["a", "b"]
    );
    assert!(read_candidates(None, None).is_empty());
}

/// A project whose scene is changed under a journal, kept in memory.
struct Project {
    scene: String,
    journal: Option<Result<AssetMutationJournal, String>>,
    snapshot: Option<String>,
}

impl Project {
    fn new() -> Project {
        Project {
            scene: ":original;\n".to_string(),
            journal: None,
            snapshot: None,
        }
    }

    /// Runs a change until a crash, which comes before the phase it is set for.
    fn change(
        &mut self,
        content: &str,
        result: Result<(), String>,
        crash: Option<MutationPhase>,
    ) -> Result<(), String> {
        let mut phase = MutationPhase::Snapshotting;
        loop {
            if crash.as_ref() == Some(&phase) {
                return Err("injected crash".to_string());
            }
            let event = match &phase {
                MutationPhase::Done(result) => return result.clone(),
                MutationPhase::Snapshotting => {
                    self.snapshot = Some(self.scene.clone());
                    MutationEvent::Snapshot(Ok("snap".to_string()))
                }
                MutationPhase::Journalling(id) => {
                    self.journal = Some(Ok(AssetMutationJournal {
                        version: TRANSACTION_VERSION,
                        rollback_snapshot: id.clone(),
                    }));
                    MutationEvent::Finished(Ok(()))
                }
                MutationPhase::Operating(_) => {
                    self.scene = content.to_string();
                    MutationEvent::Finished(result.clone())
                }
                MutationPhase::Clearing(_) => {
                    self.journal = None;
                    MutationEvent::Finished(Ok(()))
                }
                MutationPhase::Deleting(_) | MutationPhase::Discarding(..) => {
                    self.snapshot = None;
                    MutationEvent::Finished(Ok(()))
                }
                MutationPhase::Recovering(_) => MutationEvent::Finished(self.recover()),
            };
            phase = run_locked(phase, event);
        }
    }

    fn recover(&mut self) -> Result<(), String> {
        self.recover_but(false, false)
    }

    /// A recovery in which the restore or the removal of the journal may fail; a
    /// restore that fails leaves half of a scene.
    fn recover_but(&mut self, restore: bool, clear: bool) -> Result<(), String> {
        let mut phase = RecoveryPhase::Reading;
        loop {
            let event = match &phase {
                RecoveryPhase::Done(result) => return result.clone(),
                RecoveryPhase::Restoring(_) if restore => {
                    self.scene = ":ori".to_string();
                    RecoveryEvent::Finished(Err("disk full".to_string()))
                }
                RecoveryPhase::Clearing(_) if clear => {
                    RecoveryEvent::Finished(Err("disk full".to_string()))
                }
                RecoveryPhase::Reading => RecoveryEvent::Journal(match &self.journal {
                    None => Ok(None),
                    Some(Err(e)) => Err(e.clone()),
                    Some(Ok(j)) => Ok(Some(AssetMutationJournal {
                        version: j.version,
                        rollback_snapshot: j.rollback_snapshot.clone(),
                    })),
                }),
                RecoveryPhase::Restoring(_) => {
                    self.scene = self.snapshot.clone().unwrap();
                    RecoveryEvent::Finished(Ok(()))
                }
                RecoveryPhase::Clearing(_) => {
                    self.journal = None;
                    RecoveryEvent::Finished(Ok(()))
                }
                RecoveryPhase::Deleting(_) => {
                    self.snapshot = None;
                    RecoveryEvent::Finished(Ok(()))
                }
            };
            phase = recover_pending(phase, event);
        }
    }
}

#[test]
fn project_lock_recovers_crashed_asset_mutation_before_next_write() {
    let mut project = Project::new();
    let crash = Some(MutationPhase::Clearing("snap".to_string()));
    assert!(project.change(":interrupted;\n", Ok(()), crash).is_err());
    assert_eq!(project.scene, ":interrupted;\n");
    project.recover().unwrap();
    assert_eq!(project.scene, ":original;\n");
    project.change(":next write;\n", Ok(()), None).unwrap();
    assert_eq!(project.scene, ":next write;\n");
    assert!(project.journal.is_none());
    assert!(project.snapshot.is_none());
}

#[test]
fn recovery_failure_is_returned_without_running_the_operation() {
    let mut project = Project::new();
    project.journal = Some(Err("invalid asset mutation journal: not json".to_string()));
    let error = project.recover().unwrap_err();
    assert!(error.contains("invalid asset mutation journal"));
    assert_eq!(project.scene, ":original;\n");
}

#[test]
fn a_recovery_that_failed_is_tried_again() {
    let mut project = Project::new();
    let crash = Some(MutationPhase::Clearing("snap".to_string()));
    assert!(project.change(":interrupted;\n", Ok(()), crash).is_err());
    assert_eq!(
        project.recover_but(true, false).unwrap_err(),
        "failed to restore asset mutation snapshot: disk full"
    );
    assert_eq!(project.scene, ":ori");
    assert_eq!(project.recover_but(false, true).unwrap_err(), "disk full");
    assert!(project.journal.is_some() && project.snapshot.is_some());
    project.recover().unwrap();
    assert_eq!(project.scene, ":original;\n");
    assert!(project.journal.is_none());
}

#[test]
fn a_failed_change_is_undone() {
    let mut project = Project::new();
    let error = project.change(":half;\n", Err("broken".to_string()), None).unwrap_err();
    assert!(error.contains("broken"));
    assert_eq!(project.scene, ":original;\n");
    assert_eq!(recovery_suffix(&Ok(())), "");
    assert!(recovery_suffix(&Err("x".to_string())).contains('x'));
}

#[test]
fn journals_of_another_version_stop_recovery() {
    let journal = AssetMutationJournal {
        version: 7,
        rollback_snapshot: "s".to_string(),
    };
    assert!(matches!(
        recover_pending(RecoveryPhase::Reading, RecoveryEvent::Journal(Ok(Some(journal)))),
        RecoveryPhase::Done(Err(_))
    ));
}
