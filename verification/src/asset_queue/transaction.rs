//! Transactions on the asset queue: what a binding, a promotion or a deletion
//! makes of the queue, and how an interrupted one is undone.
use vstd::prelude::*;

use crate::agents::router;
use crate::asset_queue::scheduler;
use crate::asset_queue::types;
use crate::asset_queue::types::{
    AssetAttempt, AssetQueue, AssetTask, AssetTaskStatus, AssetTaskView, AttemptView, QueueView,
};
use crate::json_store;
use crate::paths;
use crate::story_plan;
use crate::text;

verus! {

broadcast use vstd::string::group_string_axioms;

pub const TRANSACTION_VERSION: u32 = 1;

/// Where a deleted artifact waits until its deletion is certain.
pub const STAGED_ARTIFACT: &'static str = ".ollaic/assets/transaction-artifact";

/// Where the journal of an open transaction stands.
pub const PENDING_PATH: &'static str = ".ollaic/assets/transaction.json";

/// An artifact on its way out: where it was and where it waits.
#[derive(Debug, PartialEq, Eq)]
pub struct StagedArtifact {
    pub original: String,
    pub staged: String,
}

/// The journal of an open transaction.
#[derive(Debug, PartialEq, Eq)]
pub struct PendingTransaction {
    pub version: u32,
    pub previous_queue: AssetQueue,
    pub rollback_snapshot: Option<String>,
    pub staged_artifact: Option<StagedArtifact>,
}

/// Why a binding was not committed.
#[derive(Debug, PartialEq, Eq)]
pub enum BindingCommitError {
    Binding(String),
    Persistence(String),
}

// ---------------------------------------------------------------------------
// Messages
// ---------------------------------------------------------------------------

pub fn binding_commit_error(error: BindingCommitError) -> (r: String)
    ensures
        r == (match error {
            BindingCommitError::Binding(m) => m,
            BindingCommitError::Persistence(m) => m,
        }),
{
    match error {
        BindingCommitError::Binding(m) => m,
        BindingCommitError::Persistence(m) => m,
    }
}

/// What a failed rollback adds to a message.
pub open spec fn suffix_of(result: Result<(), String>) -> Seq<char> {
    match result {
        Ok(_) => Seq::empty(),
        Err(m) => "; rollback failed: "@ + m@,
    }
}

pub fn rollback_suffix(result: Result<(), String>) -> (r: String)
    ensures
        r@ == suffix_of(result),
{
    match result {
        Ok(_) => {
            let r = String::new();
            assert(r@ =~= Seq::<char>::empty());
            r
        },
        Err(m) => router::joined("; rollback failed: ", m.as_str()),
    }
}

/// The messages of the rollbacks that failed, in order.
pub open spec fn failures(results: Seq<Result<(), String>>) -> Seq<Seq<char>>
    decreases results.len(),
{
    if results.len() == 0 {
        Seq::empty()
    } else {
        match results.last() {
            Ok(_) => failures(results.drop_last()),
            Err(m) => failures(results.drop_last()).push(m@),
        }
    }
}

/// Whether all rollbacks went well, and otherwise what went wrong with each
/// that did not.
pub fn combine_rollbacks(results: Vec<Result<(), String>>) -> (r: Result<(), String>)
    ensures
        match r {
            Ok(_) => failures(results@).len() == 0,
            Err(m) => failures(results@).len() > 0 && m@ == text::join_with(
                failures(results@),
                "; "@,
            ),
        },
{
    let mut errors: Vec<String> = Vec::new();
    let ghost all = results@;
    assert(all.take(0) =~= Seq::<Result<(), String>>::empty());
    assert(text::texts(errors@) =~= Seq::<Seq<char>>::empty());
    for result in it: results
        invariant
            all == it.seq(),
            text::texts(errors@) == failures(all.take(it.index())),
    {
        let ghost before = text::texts(errors@);
        proof {
            assert(all.take(it.index() + 1).drop_last() =~= all.take(it.index()));
            assert(all.take(it.index() + 1).last() == result);
        }
        if let Err(m) = result {
            errors.push(m);
            assert(text::texts(errors@) =~= before.push(m@));
        }
    }
    assert(all.take(all.len() as int) =~= all);
    assert(errors@.len() == text::texts(errors@).len());
    if errors.len() == 0 {
        Ok(())
    } else {
        Err(text::join(&errors, "; "))
    }
}

/// The error of a change that was not committed, with what its rollback adds.
pub fn with_rollback(error: String, rollback: Result<(), String>) -> (r: String)
    ensures
        r@ == error@ + suffix_of(rollback),
{
    let mut s = error;
    let suffix = rollback_suffix(rollback);
    s.append(suffix.as_str());
    s
}

/// Refuses a journal entry whose path could leave the project.
pub fn checked_transaction_path(project: &str, relative: &str) -> (r: Result<String, String>)
    ensures
        match r {
            Ok(path) => paths::descending(relative@) && path@ == paths::joined(
                project@,
                relative@,
            ),
            Err(m) => !paths::descending(relative@) && m@ == "invalid asset transaction path: "@
                + relative@,
        },
{
    if !paths::is_descending(relative) {
        return Err(router::joined("invalid asset transaction path: ", relative));
    }
    Ok(paths::join(project, relative))
}

// ---------------------------------------------------------------------------
// Finding tasks and artifacts
// ---------------------------------------------------------------------------

/// The position of the first task with this id, or the number of tasks.
pub open spec fn task_index(tasks: Seq<AssetTaskView>, id: Seq<char>) -> int
    decreases tasks.len(),
{
    if tasks.len() == 0 || tasks[0].id == id {
        0
    } else {
        1 + task_index(tasks.drop_first(), id)
    }
}

proof fn lemma_task_index(tasks: Seq<AssetTaskView>, id: Seq<char>, k: int)
    requires
        0 <= k <= tasks.len(),
        forall|j: int| 0 <= j < k ==> (#[trigger] tasks[j]).id != id,
        k < tasks.len() ==> tasks[k].id == id,
    ensures
        task_index(tasks, id) == k,
    decreases tasks.len(),
{
    if tasks.len() > 0 && tasks[0].id != id {
        let t = tasks.drop_first();
        assert forall|j: int| 0 <= j < k - 1 implies (#[trigger] t[j]).id != id by {
            assert(tasks[j + 1].id != id);
        }
        lemma_task_index(t, id, k - 1);
    }
}

/// The position of the first attempt with this number, or the number of
/// attempts.
pub open spec fn attempt_index(attempts: Seq<AttemptView>, number: u32) -> int
    decreases attempts.len(),
{
    if attempts.len() == 0 || attempts[0].attempt == number {
        0
    } else {
        1 + attempt_index(attempts.drop_first(), number)
    }
}

proof fn lemma_attempt_index(attempts: Seq<AttemptView>, number: u32, k: int)
    requires
        0 <= k <= attempts.len(),
        forall|j: int| 0 <= j < k ==> (#[trigger] attempts[j]).attempt != number,
        k < attempts.len() ==> attempts[k].attempt == number,
    ensures
        attempt_index(attempts, number) == k,
    decreases attempts.len(),
{
    if attempts.len() > 0 && attempts[0].attempt != number {
        let t = attempts.drop_first();
        assert forall|j: int| 0 <= j < k - 1 implies (#[trigger] t[j]).attempt != number by {
            assert(attempts[j + 1].attempt != number);
        }
        lemma_attempt_index(t, number, k - 1);
    }
}

pub fn find_task(queue: &AssetQueue, id: &str) -> (r: usize)
    ensures
        r <= queue.tasks.len(),
        r == task_index(queue@.tasks, id@),
{
    let ghost all = queue@.tasks;
    let mut i: usize = 0;
    while i < queue.tasks.len()
        invariant
            i <= queue.tasks.len(),
            all == queue@.tasks,
            forall|j: int| 0 <= j < i ==> (#[trigger] all[j]).id != id@,
        decreases queue.tasks.len() - i,
    {
        assert(all[i as int] == queue.tasks@[i as int]@);
        if text::same(queue.tasks[i].id.as_str(), id) {
            proof {
                lemma_task_index(all, id@, i as int);
            }
            return i;
        }
        i += 1;
    }
    proof {
        lemma_task_index(all, id@, i as int);
    }
    i
}

fn find_attempt(attempts: &Vec<AssetAttempt>, number: u32) -> (r: usize)
    ensures
        r <= attempts.len(),
        r == attempt_index(types::attempt_views(attempts@), number),
{
    let ghost all = types::attempt_views(attempts@);
    let mut i: usize = 0;
    while i < attempts.len()
        invariant
            i <= attempts.len(),
            all == types::attempt_views(attempts@),
            forall|j: int| 0 <= j < i ==> (#[trigger] all[j]).attempt != number,
        decreases attempts.len() - i,
    {
        assert(all[i as int] == attempts@[i as int]@);
        if attempts[i].attempt == number {
            proof {
                lemma_attempt_index(all, number, i as int);
            }
            return i;
        }
        i += 1;
    }
    proof {
        lemma_attempt_index(all, number, i as int);
    }
    i
}

/// The recorded path of the artifact of an attempt: that of the first attempt
/// with this number, of the first task with this id.
pub open spec fn recorded_artifact(queue: QueueView, id: Seq<char>, number: u32) -> Option<Seq<char>> {
    let i = task_index(queue.tasks, id);
    if i < queue.tasks.len() {
        let attempts = queue.tasks[i].attempts;
        let k = attempt_index(attempts, number);
        if k < attempts.len() {
            attempts[k].artifact
        } else {
            None
        }
    } else {
        None
    }
}

/// A task id and an attempt number, as messages name them.
pub open spec fn attempt_name(id: Seq<char>, number: u32) -> Seq<char> {
    id + "/"@ + text::decimal(number as nat)
}

fn attempt_message(head: &str, id: &str, number: u32) -> (r: String)
    ensures
        r@ == head@ + attempt_name(id@, number),
{
    let mut name = text::copy(id);
    name.append("/");
    name.append(text::decimal_of(number as u128).as_str());
    router::joined(head, name.as_str())
}

/// The recorded path of an artifact, before it is looked up on disk.
pub fn artifact_record(queue: &AssetQueue, task_id: &str, attempt: u32) -> (r: Result<
    String,
    String,
>)
    ensures
        match r {
            Ok(path) => story_plan::flag_value(task_id@) && recorded_artifact(
                queue@,
                task_id@,
                attempt,
            ) == Some(path@),
            Err(m) => if !story_plan::flag_value(task_id@) {
                m@ == "invalid asset task id: "@ + task_id@
            } else {
                recorded_artifact(queue@, task_id@, attempt) is None && m@
                    == "asset artifact not found: "@ + attempt_name(task_id@, attempt)
            },
        },
{
    if let Err(m) = scheduler::validate_component(task_id) {
        return Err(m);
    }
    let i = find_task(queue, task_id);
    if i < queue.tasks.len() {
        assert(queue@.tasks[i as int] == queue.tasks@[i as int]@);
        let k = find_attempt(&queue.tasks[i].attempts, attempt);
        if k < queue.tasks[i].attempts.len() {
            assert(queue@.tasks[i as int].attempts[k as int]
                == queue.tasks@[i as int].attempts@[k as int]@);
            if let Some(path) = &queue.tasks[i].attempts[k].artifact {
                return Ok(path.clone());
            }
        }
    }
    Err(attempt_message("asset artifact not found: ", task_id, attempt))
}

/// Whether a resolved artifact is a file of its task: a file, below the task's
/// own directory. Both paths are resolved.
pub fn check_contained(root: &str, task_id: &str, artifact: &str, is_file: bool) -> (r: Result<
    (),
    String,
>)
    ensures
        match r {
            Ok(_) => is_file && paths::within(artifact@, paths::joined(root@, task_id@)),
            Err(m) => !(is_file && paths::within(artifact@, paths::joined(root@, task_id@))) && m@
                == "artifact is outside the project task directory"@,
        },
{
    let directory = paths::join(root, task_id);
    if !paths::is_within(artifact, directory.as_str()) || !is_file {
        return Err(text::copy("artifact is outside the project task directory"));
    }
    Ok(())
}

/// What looking an artifact up gave: the directory of all artifacts and the recorded
/// path, as they resolve or why they do not, and whether there is a file.
#[derive(Debug, PartialEq, Eq)]
pub struct ArtifactPlace {
    pub root: Result<String, String>,
    pub artifact: Result<String, String>,
    pub is_file: bool,
}

/// The resolved path of an artifact, or why there is none: the task must have a
/// plain id and a record of the artifact, and the file must lie below the task's
/// own directory.
pub open spec fn resolution(
    queue: QueueView,
    id: Seq<char>,
    number: u32,
    place: ArtifactPlace,
) -> Result<Seq<char>, Seq<char>> {
    if !story_plan::flag_value(id) {
        Err("invalid asset task id: "@ + id)
    } else if recorded_artifact(queue, id, number) is None {
        Err("asset artifact not found: "@ + attempt_name(id, number))
    } else {
        match (place.root, place.artifact) {
            (Err(e), _) => Err("failed to resolve artifact root: "@ + e@),
            (Ok(_), Err(e)) => Err("failed to resolve artifact: "@ + e@),
            (Ok(root), Ok(path)) => if place.is_file && paths::within(
                path@,
                paths::joined(root@, id),
            ) {
                Ok(path@)
            } else {
                Err("artifact is outside the project task directory"@)
            },
        }
    }
}

/// Resolves an artifact, from what looking it up gave.
pub fn resolve_artifact(
    queue: &AssetQueue,
    task_id: &str,
    attempt: u32,
    place: &ArtifactPlace,
) -> (r: Result<String, String>)
    ensures
        match resolution(queue@, task_id@, attempt, *place) {
            Ok(path) => r matches Ok(p) && p@ == path,
            Err(e) => r matches Err(m) && m@ == e,
        },
{
    if let Err(m) = artifact_record(queue, task_id, attempt) {
        return Err(m);
    }
    let root = match &place.root {
        Ok(root) => root,
        Err(e) => {
            return Err(router::joined("failed to resolve artifact root: ", e.as_str()));
        },
    };
    match &place.artifact {
        Err(e) => Err(router::joined("failed to resolve artifact: ", e.as_str())),
        Ok(path) => match check_contained(root.as_str(), task_id, path.as_str(), place.is_file) {
            Err(m) => Err(m),
            Ok(_) => Ok(path.clone()),
        },
    }
}

// ---------------------------------------------------------------------------
// Binding
// ---------------------------------------------------------------------------

/// Whether the newest artifact of a task was made locally.
pub open spec fn newest_is_local(attempts: Seq<AttemptView>) -> bool
    decreases attempts.len(),
{
    if attempts.len() == 0 {
        false
    } else if attempts.last().artifact is Some {
        attempts.last().used_local_fallback
    } else {
        newest_is_local(attempts.drop_last())
    }
}

fn is_newest_local(attempts: &Vec<AssetAttempt>) -> (r: bool)
    ensures
        r == newest_is_local(types::attempt_views(attempts@)),
{
    let ghost all = types::attempt_views(attempts@);
    let mut i: usize = attempts.len();
    assert(all.take(i as int) =~= all);
    while i > 0
        invariant
            i <= attempts.len(),
            all == types::attempt_views(attempts@),
            newest_is_local(all) == newest_is_local(all.take(i as int)),
        decreases i,
    {
        let k: usize = i - 1;
        proof {
            assert(all.take(i as int).drop_last() =~= all.take(k as int));
            assert(all.take(i as int).last() == attempts@[k as int]@);
        }
        if attempts[k].artifact.is_some() {
            return attempts[k].used_local_fallback;
        }
        i = k;
    }
    false
}

/// A task that is bound to a file.
pub open spec fn bound(task: AssetTaskView, filename: Seq<char>, local: bool) -> AssetTaskView {
    AssetTaskView {
        status: AssetTaskStatus::Succeeded,
        asset_file: Some(filename),
        error: None,
        used_local_fallback: local,
        ..task
    }
}

/// The queue after a binding: what is to be saved.
pub fn bound_queue(
    queue: &AssetQueue,
    task_index: usize,
    binding_task: &AssetTask,
    filename: &str,
    now: u64,
) -> (r: AssetQueue)
    requires
        task_index < queue.tasks.len(),
    ensures
        r@ == scheduler::with_task(
            queue@,
            task_index as int,
            bound(
                queue@.tasks[task_index as int],
                filename@,
                newest_is_local(binding_task@.attempts),
            ),
            now,
        ),
{
    let mut updated = queue.clone();
    let ghost before = updated@;
    assert(before.tasks.len() == queue@.tasks.len());
    let local = is_newest_local(&binding_task.attempts);
    {
        let task = &mut updated.tasks[task_index];
        task.status = AssetTaskStatus::Succeeded;
        task.asset_file = Some(text::copy(filename));
        task.error = None;
        task.used_local_fallback = local;
    }
    updated.updated_at = now;
    proof {
        let task = bound(
            queue@.tasks[task_index as int],
            filename@,
            newest_is_local(binding_task@.attempts),
        );
        assert(updated.tasks@[task_index as int]@ == task);
        assert(updated@.tasks =~= before.tasks.update(task_index as int, task));
    }
    updated
}

/// The queue after a binding that failed.
pub fn failed_queue(queue: &AssetQueue, task_index: usize, error: &str, now: u64) -> (r: AssetQueue)
    requires
        task_index < queue.tasks.len(),
    ensures
        r@ == scheduler::with_task(
            queue@,
            task_index as int,
            AssetTaskView {
                status: AssetTaskStatus::Failed,
                error: Some("binding failed: "@ + error@),
                ..queue@.tasks[task_index as int]
            },
            now,
        ),
{
    let mut failed = queue.clone();
    let ghost before = failed@;
    assert(before.tasks.len() == queue@.tasks.len());
    {
        let task = &mut failed.tasks[task_index];
        task.status = AssetTaskStatus::Failed;
        task.error = Some(router::joined("binding failed: ", error));
    }
    failed.updated_at = now;
    assert(failed@.tasks =~= before.tasks.update(
        task_index as int,
        failed.tasks@[task_index as int]@,
    ));
    failed
}

/// The error of a binding whose queue could not be saved.
pub fn persistence_error(error: &str, rollback: Result<(), String>) -> (r: BindingCommitError)
    ensures
        r matches BindingCommitError::Persistence(m) && m@
            == "failed to persist bound asset queue: "@ + error@ + suffix_of(rollback),
{
    let message = router::joined("failed to persist bound asset queue: ", error);
    BindingCommitError::Persistence(with_rollback(message, rollback))
}

/// The error of a deletion whose queue could not be saved.
pub fn deletion_error(error: &str, rollback: Result<(), String>) -> (r: String)
    ensures
        r@ == "failed to persist artifact deletion: "@ + error@ + suffix_of(rollback),
{
    let message = router::joined("failed to persist artifact deletion: ", error);
    with_rollback(message, rollback)
}

/// The position of the first attempt with this number that left an artifact,
/// or the number of attempts.
pub open spec fn artifact_index(attempts: Seq<AttemptView>, number: u32) -> int
    decreases attempts.len(),
{
    if attempts.len() == 0 || (attempts[0].attempt == number && attempts[0].artifact is Some) {
        0
    } else {
        1 + artifact_index(attempts.drop_first(), number)
    }
}

proof fn lemma_artifact_index(attempts: Seq<AttemptView>, number: u32, k: int)
    requires
        0 <= k <= attempts.len(),
        forall|j: int|
            0 <= j < k ==> !((#[trigger] attempts[j]).attempt == number
                && attempts[j].artifact is Some),
        k < attempts.len() ==> attempts[k].attempt == number && attempts[k].artifact is Some,
    ensures
        artifact_index(attempts, number) == k,
    decreases attempts.len(),
{
    if attempts.len() > 0 && !(attempts[0].attempt == number && attempts[0].artifact is Some) {
        let t = attempts.drop_first();
        assert forall|j: int| 0 <= j < k - 1 implies !((#[trigger] t[j]).attempt == number
            && t[j].artifact is Some) by {
            assert(!(attempts[j + 1].attempt == number && attempts[j + 1].artifact is Some));
        }
        lemma_artifact_index(t, number, k - 1);
    }
}

/// A task that is to be bound from one of its earlier artifacts: it has that
/// attempt only.
pub open spec fn promoted(task: AssetTaskView, k: int) -> AssetTaskView {
    AssetTaskView {
        attempts: seq![task.attempts[k]],
        used_local_fallback: task.attempts[k].used_local_fallback,
        ..task
    }
}

/// A binding to be committed: the queue as it was, the task's place in it, and
/// the task as it is bound. A promotion that cannot be bound fails, while a
/// generated task is marked as failed.
#[derive(Debug, PartialEq, Eq)]
pub struct BindingRun {
    pub queue: AssetQueue,
    pub task_index: usize,
    pub task: AssetTask,
    pub promoting: bool,
}

#[verifier::ext_equal]
pub struct BindingRunView {
    pub queue: QueueView,
    pub index: int,
    pub task: AssetTaskView,
    pub promoting: bool,
}

impl View for BindingRun {
    type V = BindingRunView;

    open spec fn view(&self) -> BindingRunView {
        BindingRunView {
            queue: self.queue@,
            index: self.task_index as int,
            task: self.task@,
            promoting: self.promoting,
        }
    }
}

impl BindingRunView {
    /// The task stands in the queue.
    pub open spec fn wf(self) -> bool {
        0 <= self.index < self.queue.tasks.len()
    }
}

/// Begins the commit of a generated task.
pub fn commit_generated_binding(queue: &AssetQueue, task_index: usize) -> (r: Result<
    BindingRun,
    String,
>)
    ensures
        if task_index < queue.tasks@.len() {
            r matches Ok(run) && run@.wf() && run@ == (BindingRunView {
                queue: queue@,
                index: task_index as int,
                task: queue@.tasks[task_index as int],
                promoting: false,
            })
        } else {
            r matches Err(m) && m@ == "asset task index out of range: "@ + text::decimal(
                task_index as nat,
            )
        },
{
    if task_index >= queue.tasks.len() {
        let number = text::decimal_of(task_index as u128);
        return Err(router::joined("asset task index out of range: ", number.as_str()));
    }
    let task = queue.tasks[task_index].clone();
    Ok(BindingRun { queue: queue.clone(), task_index, task, promoting: false })
}

/// The promotion of one artifact of a task, or why there is none: the first attempt
/// of this number that has an artifact is promoted.
pub open spec fn promotion(queue: QueueView, task_id: Seq<char>, attempt: u32) -> Result<
    BindingRunView,
    Seq<char>,
> {
    let i = task_index(queue.tasks, task_id);
    if i >= queue.tasks.len() {
        Err("asset task not found: "@ + task_id)
    } else {
        let task = queue.tasks[i];
        let k = artifact_index(task.attempts, attempt);
        if k >= task.attempts.len() {
            Err("asset artifact not found: "@ + attempt_name(task_id, attempt))
        } else {
            Ok(BindingRunView { queue, index: i, task: promoted(task, k), promoting: true })
        }
    }
}

/// Begins the promotion of one artifact of a task, from what looking it up gave.
pub fn promote_artifact(
    queue: &AssetQueue,
    task_id: &str,
    attempt: u32,
    place: &ArtifactPlace,
) -> (r: Result<BindingRun, String>)
    ensures
        match promotion(queue@, task_id@, attempt) {
            Err(e) => r matches Err(m) && m@ == e,
            Ok(selected) => match resolution(queue@, task_id@, attempt, *place) {
                Err(e) => r matches Err(m) && m@ == e,
                Ok(_) => r matches Ok(run) && run@ == selected && run@.wf(),
            },
        },
{
    match select_artifact(queue, task_id, attempt) {
        Err(m) => Err(m),
        Ok(run) => match resolve_artifact(queue, task_id, attempt, place) {
            Err(m) => Err(m),
            Ok(_) => Ok(run),
        },
    }
}

fn select_artifact(queue: &AssetQueue, task_id: &str, attempt: u32) -> (r: Result<
    BindingRun,
    String,
>)
    ensures
        match promotion(queue@, task_id@, attempt) {
            Err(e) => r matches Err(m) && m@ == e,
            Ok(selected) => r matches Ok(run) && run@ == selected && run@.wf(),
        },
{
    let i = find_task(queue, task_id);
    if i == queue.tasks.len() {
        return Err(router::joined("asset task not found: ", task_id));
    }
    assert(queue@.tasks[i as int] == queue.tasks@[i as int]@);
    let ghost all = queue@.tasks[i as int].attempts;
    let mut k: usize = 0;
    while k < queue.tasks[i].attempts.len()
        invariant
            i < queue.tasks.len(),
            k <= queue.tasks@[i as int].attempts@.len(),
            i == task_index(queue@.tasks, task_id@),
            queue@.tasks[i as int] == queue.tasks@[i as int]@,
            all == types::attempt_views(queue.tasks@[i as int].attempts@),
            all == queue@.tasks[i as int].attempts,
            forall|j: int|
                0 <= j < k ==> !((#[trigger] all[j]).attempt == attempt && all[j].artifact is Some),
        decreases queue.tasks@[i as int].attempts@.len() - k,
    {
        assert(all[k as int] == queue.tasks@[i as int].attempts@[k as int]@);
        if queue.tasks[i].attempts[k].attempt == attempt
            && queue.tasks[i].attempts[k].artifact.is_some() {
            proof {
                lemma_artifact_index(all, attempt, k as int);
            }
            let mut candidate = queue.tasks[i].clone();
            let selected = queue.tasks[i].attempts[k].clone();
            candidate.used_local_fallback = selected.used_local_fallback;
            let mut attempts: Vec<AssetAttempt> = Vec::new();
            attempts.push(selected);
            assert(types::attempt_views(attempts@) =~= seq![all[k as int]]);
            candidate.attempts = attempts;
            return Ok(
                BindingRun {
                    queue: queue.clone(),
                    task_index: i,
                    task: candidate,
                    promoting: true,
                },
            );
        }
        k += 1;
    }
    proof {
        lemma_artifact_index(all, attempt, k as int);
    }
    Err(attempt_message("asset artifact not found: ", task_id, attempt))
}

// ---------------------------------------------------------------------------
// Deletion
// ---------------------------------------------------------------------------

/// A task without the artifact of one attempt.
pub open spec fn without_artifact(task: AssetTaskView, k: int) -> AssetTaskView {
    AssetTaskView {
        attempts: task.attempts.update(k, AttemptView { artifact: None, ..task.attempts[k] }),
        ..task
    }
}

/// The queue after an artifact was deleted: what is to be saved.
pub fn forget_artifact(queue: AssetQueue, task_id: &str, attempt: u32, now: u64) -> (r: Result<
    AssetQueue,
    String,
>)
    ensures
        outcome(r) == queue_without(queue@, task_id@, attempt, now),
{
    let i = find_task(&queue, task_id);
    if i < queue.tasks.len() {
        assert(queue@.tasks[i as int] == queue.tasks@[i as int]@);
        let k = find_attempt(&queue.tasks[i].attempts, attempt);
        if k < queue.tasks[i].attempts.len() {
            let ghost before = queue@;
            let ghost task_before = queue.tasks@[i as int]@;
            let mut updated = queue;
            {
                let task = &mut updated.tasks[i];
                let record = &mut task.attempts[k];
                record.artifact = None;
            }
            updated.updated_at = now;
            proof {
                let after = updated.tasks@[i as int]@;
                assert(after.attempts =~= task_before.attempts.update(
                    k as int,
                    AttemptView { artifact: None, ..task_before.attempts[k as int] },
                ));
                assert(after == without_artifact(task_before, k as int));
                assert(updated@.tasks =~= before.tasks.update(i as int, after));
            }
            return Ok(updated);
        }
    }
    Err(attempt_message("asset attempt not found: ", task_id, attempt))
}

// ---------------------------------------------------------------------------
// Recovery
// ---------------------------------------------------------------------------

/// The journal of an open transaction, as a value.
#[verifier::ext_equal]
pub struct PendingView {
    pub version: u32,
    pub previous_queue: QueueView,
    pub rollback_snapshot: Option<Seq<char>>,
    pub staged_artifact: Option<(Seq<char>, Seq<char>)>,
}

impl View for PendingTransaction {
    type V = PendingView;

    open spec fn view(&self) -> PendingView {
        PendingView {
            version: self.version,
            previous_queue: self.previous_queue@,
            rollback_snapshot: story_plan::opt_text(self.rollback_snapshot),
            staged_artifact: match self.staged_artifact {
                Some(s) => Some((s.original@, s.staged@)),
                None => None,
            },
        }
    }
}

/// How far a recovery has come.
#[derive(Debug, PartialEq, Eq)]
pub enum RecoveryPhase {
    /// The journal is to be read.
    Reading,
    /// There is no journal: an artifact in the staging place is to be removed.
    CleaningStaging,
    /// The project snapshot is to be restored.
    RestoringSnapshot(PendingTransaction),
    /// The queue of the journal is to be saved.
    RestoringQueue(PendingTransaction),
    /// It is to be looked where the artifact stands.
    Locating(PendingTransaction),
    /// The artifact is to be moved back from the staging place.
    MovingBack(PendingTransaction),
    /// The journal is to be removed.
    ClearingJournal(PendingTransaction),
    /// The staging place is to be emptied; whether that goes well does not
    /// matter.
    RemovingStaged(PendingTransaction),
    /// The project snapshot is to be deleted; whether that goes well does not
    /// matter.
    DeletingSnapshot(PendingTransaction),
    /// It is over.
    Done(Result<(), String>),
}

pub enum RecoveryView {
    Reading,
    CleaningStaging,
    RestoringSnapshot(PendingView),
    RestoringQueue(PendingView),
    Locating(PendingView),
    MovingBack(PendingView),
    ClearingJournal(PendingView),
    RemovingStaged(PendingView),
    DeletingSnapshot(PendingView),
    Done(Option<Seq<char>>),
}

impl View for RecoveryPhase {
    type V = RecoveryView;

    open spec fn view(&self) -> RecoveryView {
        match *self {
            RecoveryPhase::Reading => RecoveryView::Reading,
            RecoveryPhase::CleaningStaging => RecoveryView::CleaningStaging,
            RecoveryPhase::RestoringSnapshot(p) => RecoveryView::RestoringSnapshot(p@),
            RecoveryPhase::RestoringQueue(p) => RecoveryView::RestoringQueue(p@),
            RecoveryPhase::Locating(p) => RecoveryView::Locating(p@),
            RecoveryPhase::MovingBack(p) => RecoveryView::MovingBack(p@),
            RecoveryPhase::ClearingJournal(p) => RecoveryView::ClearingJournal(p@),
            RecoveryPhase::RemovingStaged(p) => RecoveryView::RemovingStaged(p@),
            RecoveryPhase::DeletingSnapshot(p) => RecoveryView::DeletingSnapshot(p@),
            RecoveryPhase::Done(r) => RecoveryView::Done(json_store::fault(r)),
        }
    }
}

/// What came of a step of a recovery.
#[derive(Debug, PartialEq, Eq)]
pub enum RecoveryEvent {
    /// The journal, if there is one, or why it could not be read.
    Journal(Result<Option<PendingTransaction>, String>),
    /// Whether the artifact stands in its place, and whether in the staging
    /// place.
    Located { original: bool, staged: bool },
    Finished(Result<(), String>),
}

pub enum RecoveryEventView {
    NoJournal,
    Journal(PendingView),
    Unreadable(Seq<char>),
    Located(bool, bool),
    Finished(Option<Seq<char>>),
}

impl View for RecoveryEvent {
    type V = RecoveryEventView;

    open spec fn view(&self) -> RecoveryEventView {
        match *self {
            RecoveryEvent::Journal(Ok(None)) => RecoveryEventView::NoJournal,
            RecoveryEvent::Journal(Ok(Some(p))) => RecoveryEventView::Journal(p@),
            RecoveryEvent::Journal(Err(m)) => RecoveryEventView::Unreadable(m@),
            RecoveryEvent::Located { original, staged } => RecoveryEventView::Located(
                original,
                staged,
            ),
            RecoveryEvent::Finished(r) => RecoveryEventView::Finished(json_store::fault(r)),
        }
    }
}

/// Why the staged artifact of a journal cannot be looked for, if it cannot: one
/// of its two paths could leave the project.
pub open spec fn path_fault(staged: (Seq<char>, Seq<char>)) -> Option<Seq<char>> {
    if !paths::descending(staged.0) {
        Some("invalid asset transaction path: "@ + staged.0)
    } else if !paths::descending(staged.1) {
        Some("invalid asset transaction path: "@ + staged.1)
    } else {
        None
    }
}

/// What follows the removal of the journal and of what was staged.
pub open spec fn after_staging(pending: PendingView) -> RecoveryView {
    if pending.rollback_snapshot is Some {
        RecoveryView::DeletingSnapshot(pending)
    } else {
        RecoveryView::Done(None)
    }
}

/// The phase after an event. An event that answers no open question changes
/// nothing.
pub open spec fn next_recovery(
    project: Seq<char>,
    phase: RecoveryView,
    event: RecoveryEventView,
) -> RecoveryView {
    match (phase, event) {
        (RecoveryView::Reading, RecoveryEventView::NoJournal) => RecoveryView::CleaningStaging,
        (RecoveryView::Reading, RecoveryEventView::Unreadable(m)) => RecoveryView::Done(Some(m)),
        (RecoveryView::Reading, RecoveryEventView::Journal(p)) => if p.version
            != TRANSACTION_VERSION {
            RecoveryView::Done(
                Some("unsupported asset transaction version "@ + text::decimal(p.version as nat)),
            )
        } else if p.rollback_snapshot is Some {
            RecoveryView::RestoringSnapshot(p)
        } else {
            RecoveryView::RestoringQueue(p)
        },
        (RecoveryView::CleaningStaging, RecoveryEventView::Finished(failure)) => RecoveryView::Done(
            failure,
        ),
        (RecoveryView::RestoringSnapshot(p), RecoveryEventView::Finished(failure)) =>
            match failure {
                None => RecoveryView::RestoringQueue(p),
                Some(e) => RecoveryView::Done(
                    Some("failed to restore asset transaction snapshot: "@ + e),
                ),
            },
        (RecoveryView::RestoringQueue(p), RecoveryEventView::Finished(failure)) => match failure {
            None => match p.staged_artifact {
                None => RecoveryView::ClearingJournal(p),
                Some(staged) => match path_fault(staged) {
                    None => RecoveryView::Locating(p),
                    Some(e) => RecoveryView::Done(Some(e)),
                },
            },
            Some(e) => RecoveryView::Done(
                Some("failed to restore asset transaction queue: "@ + e),
            ),
        },
        (RecoveryView::Locating(p), RecoveryEventView::Located(original, staged)) => if original
            == staged {
            RecoveryView::Done(
                Some(
                    (if original {
                        "asset transaction has both original and staged artifacts: "@
                    } else {
                        "asset transaction artifact is missing: "@
                    }) + paths::joined(
                        project,
                        match p.staged_artifact {
                            Some(s) => s.0,
                            None => ""@,
                        },
                    ),
                ),
            )
        } else if staged {
            RecoveryView::MovingBack(p)
        } else {
            RecoveryView::ClearingJournal(p)
        },
        (RecoveryView::MovingBack(p), RecoveryEventView::Finished(failure)) => match failure {
            None => RecoveryView::ClearingJournal(p),
            Some(e) => RecoveryView::Done(Some(e)),
        },
        (RecoveryView::ClearingJournal(p), RecoveryEventView::Finished(failure)) => match failure {
            None => if p.staged_artifact is Some {
                RecoveryView::RemovingStaged(p)
            } else {
                after_staging(p)
            },
            Some(e) => RecoveryView::Done(Some(e)),
        },
        (RecoveryView::RemovingStaged(p), RecoveryEventView::Finished(_)) => after_staging(p),
        (RecoveryView::DeletingSnapshot(_), RecoveryEventView::Finished(_)) => RecoveryView::Done(
            None,
        ),
        _ => phase,
    }
}

/// Decides whether the staged artifact is moved back: exactly one of the two
/// files must be there.
pub fn staged_recovery(original: &str, original_exists: bool, staged_exists: bool) -> (r: Result<
    bool,
    String,
>)
    ensures
        match r {
            Ok(move_back) => original_exists != staged_exists && move_back == staged_exists,
            Err(m) => original_exists == staged_exists && m@ == (if original_exists {
                "asset transaction has both original and staged artifacts: "@ + original@
            } else {
                "asset transaction artifact is missing: "@ + original@
            }),
        },
{
    if original_exists && staged_exists {
        return Err(
            router::joined("asset transaction has both original and staged artifacts: ", original),
        );
    }
    if !original_exists && !staged_exists {
        return Err(router::joined("asset transaction artifact is missing: ", original));
    }
    Ok(staged_exists)
}

fn finish_staging(pending: PendingTransaction) -> (r: RecoveryPhase)
    ensures
        r@ == after_staging(pending@),
{
    if pending.rollback_snapshot.is_some() {
        RecoveryPhase::DeletingSnapshot(pending)
    } else {
        RecoveryPhase::Done(Ok(()))
    }
}

fn queue_restored(pending: PendingTransaction) -> (r: RecoveryPhase)
    ensures
        r@ == (match pending@.staged_artifact {
            None => RecoveryView::ClearingJournal(pending@),
            Some(staged) => match path_fault(staged) {
                None => RecoveryView::Locating(pending@),
                Some(e) => RecoveryView::Done(Some(e)),
            },
        }),
{
    match &pending.staged_artifact {
        None => RecoveryPhase::ClearingJournal(pending),
        Some(staged) => {
            if let Err(m) = checked_transaction_path("", staged.original.as_str()) {
                return RecoveryPhase::Done(Err(m));
            }
            if let Err(m) = checked_transaction_path("", staged.staged.as_str()) {
                return RecoveryPhase::Done(Err(m));
            }
            RecoveryPhase::Locating(pending)
        },
    }
}

fn artifact_located(project: &str, pending: PendingTransaction, original: bool, staged: bool) -> (r:
    RecoveryPhase)
    ensures
        r@ == next_recovery(
            project@,
            RecoveryView::Locating(pending@),
            RecoveryEventView::Located(original, staged),
        ),
{
    let path = match &pending.staged_artifact {
        Some(s) => paths::join(project, s.original.as_str()),
        None => paths::join(project, ""),
    };
    match staged_recovery(path.as_str(), original, staged) {
        Err(m) => RecoveryPhase::Done(Err(m)),
        Ok(move_back) => if move_back {
            RecoveryPhase::MovingBack(pending)
        } else {
            RecoveryPhase::ClearingJournal(pending)
        },
    }
}

/// Takes the recovery of an interrupted transaction one step further.
pub fn recover_pending(project: &str, phase: RecoveryPhase, event: RecoveryEvent) -> (r:
    RecoveryPhase)
    ensures
        r@ == next_recovery(project@, phase@, event@),
{
    match (phase, event) {
        (RecoveryPhase::Reading, RecoveryEvent::Journal(Ok(None))) => RecoveryPhase::CleaningStaging,
        (RecoveryPhase::Reading, RecoveryEvent::Journal(Err(m))) => RecoveryPhase::Done(Err(m)),
        (RecoveryPhase::Reading, RecoveryEvent::Journal(Ok(Some(p)))) => {
            if p.version != TRANSACTION_VERSION {
                let number = text::decimal_of(p.version as u128);
                RecoveryPhase::Done(
                    Err(router::joined("unsupported asset transaction version ", number.as_str())),
                )
            } else if p.rollback_snapshot.is_some() {
                RecoveryPhase::RestoringSnapshot(p)
            } else {
                RecoveryPhase::RestoringQueue(p)
            }
        },
        (RecoveryPhase::CleaningStaging, RecoveryEvent::Finished(result)) => RecoveryPhase::Done(
            result,
        ),
        (RecoveryPhase::RestoringSnapshot(p), RecoveryEvent::Finished(result)) => match result {
            Ok(_) => RecoveryPhase::RestoringQueue(p),
            Err(e) => RecoveryPhase::Done(
                Err(router::joined("failed to restore asset transaction snapshot: ", e.as_str())),
            ),
        },
        (RecoveryPhase::RestoringQueue(p), RecoveryEvent::Finished(result)) => match result {
            Ok(_) => queue_restored(p),
            Err(e) => RecoveryPhase::Done(
                Err(router::joined("failed to restore asset transaction queue: ", e.as_str())),
            ),
        },
        (RecoveryPhase::Locating(p), RecoveryEvent::Located { original, staged }) =>
            artifact_located(project, p, original, staged),
        (RecoveryPhase::MovingBack(p), RecoveryEvent::Finished(result)) => match result {
            Ok(_) => RecoveryPhase::ClearingJournal(p),
            Err(e) => RecoveryPhase::Done(Err(e)),
        },
        (RecoveryPhase::ClearingJournal(p), RecoveryEvent::Finished(result)) => match result {
            Ok(_) => if p.staged_artifact.is_some() {
                RecoveryPhase::RemovingStaged(p)
            } else {
                finish_staging(p)
            },
            Err(e) => RecoveryPhase::Done(Err(e)),
        },
        (RecoveryPhase::RemovingStaged(p), RecoveryEvent::Finished(_)) => finish_staging(p),
        (RecoveryPhase::DeletingSnapshot(_), RecoveryEvent::Finished(_)) => RecoveryPhase::Done(
            Ok(()),
        ),
        (phase, _) => phase,
    }
}

// ---------------------------------------------------------------------------
// Committing a binding
// ---------------------------------------------------------------------------

/// How far the commit of a binding has come.
#[derive(Debug, PartialEq, Eq)]
pub enum BindingPhase {
    /// A snapshot of the project is to be taken.
    Snapshotting,
    /// The journal that names the snapshot is to be written.
    Journalling(String),
    /// The snapshot is to be deleted, as the journal could not be written.
    Discarding(String, String),
    /// The asset is to be bound.
    Binding(String),
    /// This queue, in which the task is bound, is to be saved.
    Saving(String, AssetQueue),
    /// The queue was not saved: the files of the binding are to be put back.
    RollingBack(String),
    /// And the queue as it was is to be saved.
    RestoringQueue(String, Result<(), String>),
    /// The transaction is to be recovered from.
    Recovering(BindingCommitError),
    /// This queue, in which the task has failed, is to be saved.
    SavingFailed(AssetQueue),
    /// The journal is to be removed.
    ClearingJournal(String, AssetQueue),
    /// The snapshot is to be deleted; whether that goes well does not matter.
    DeletingSnapshot(String, AssetQueue),
    /// It is over: the queue as it is now, or what went wrong.
    Done(Result<AssetQueue, String>),
}

pub enum BindingView {
    Snapshotting,
    Journalling(Seq<char>),
    Discarding(Seq<char>, Seq<char>),
    Binding(Seq<char>),
    Saving(Seq<char>, QueueView),
    RollingBack(Seq<char>),
    RestoringQueue(Seq<char>, Result<(), String>),
    Recovering(bool, Seq<char>),
    SavingFailed(QueueView),
    ClearingJournal(Seq<char>, QueueView),
    DeletingSnapshot(Seq<char>, QueueView),
    Done(Result<QueueView, Seq<char>>),
}

impl View for BindingPhase {
    type V = BindingView;

    open spec fn view(&self) -> BindingView {
        match *self {
            BindingPhase::Snapshotting => BindingView::Snapshotting,
            BindingPhase::Journalling(id) => BindingView::Journalling(id@),
            BindingPhase::Discarding(id, m) => BindingView::Discarding(id@, m@),
            BindingPhase::Binding(id) => BindingView::Binding(id@),
            BindingPhase::Saving(id, q) => BindingView::Saving(id@, q@),
            BindingPhase::RollingBack(m) => BindingView::RollingBack(m@),
            BindingPhase::RestoringQueue(m, r) => BindingView::RestoringQueue(m@, r),
            BindingPhase::Recovering(BindingCommitError::Binding(m)) => BindingView::Recovering(
                true,
                m@,
            ),
            BindingPhase::Recovering(BindingCommitError::Persistence(m)) => BindingView::Recovering(
                false,
                m@,
            ),
            BindingPhase::SavingFailed(q) => BindingView::SavingFailed(q@),
            BindingPhase::ClearingJournal(id, q) => BindingView::ClearingJournal(id@, q@),
            BindingPhase::DeletingSnapshot(id, q) => BindingView::DeletingSnapshot(id@, q@),
            BindingPhase::Done(r) => BindingView::Done(outcome(r)),
        }
    }
}

/// What a transaction has come to, as a value.
pub open spec fn outcome(r: Result<AssetQueue, String>) -> Result<QueueView, Seq<char>> {
    match r {
        Ok(q) => Ok(q@),
        Err(m) => Err(m@),
    }
}

/// What came of a step of a commit.
#[derive(Debug, PartialEq, Eq)]
pub enum BindingEvent {
    /// The id of the snapshot, or why there is none.
    Snapshot(Result<String, String>),
    /// The file that the task is bound to, or why it is not.
    Bound(Result<String, String>),
    Finished(Result<(), String>),
}

/// The queue in which the task is bound to a file.
pub open spec fn queue_bound(run: BindingRunView, filename: Seq<char>, now: u64) -> QueueView {
    scheduler::with_task(
        run.queue,
        run.index,
        bound(run.queue.tasks[run.index], filename, newest_is_local(run.task.attempts)),
        now,
    )
}

/// The queue in which the task has failed.
pub open spec fn queue_failed(run: BindingRunView, error: Seq<char>, now: u64) -> QueueView {
    scheduler::with_task(
        run.queue,
        run.index,
        AssetTaskView {
            status: AssetTaskStatus::Failed,
            error: Some("binding failed: "@ + error),
            ..run.queue.tasks[run.index]
        },
        now,
    )
}

/// The message of a binding whose queue was not saved, from that fault and from
/// what came of the two rollbacks.
pub open spec fn persistence_message(
    error: Seq<char>,
    files: Result<(), String>,
    queue: Result<(), String>,
) -> Seq<char> {
    let both = failures(seq![files, queue]);
    "failed to persist bound asset queue: "@ + error + (if both.len() == 0 {
        Seq::empty()
    } else {
        "; rollback failed: "@ + text::join_with(both, "; "@)
    })
}

/// The phase after an event. An event that answers no open question changes
/// nothing.
pub open spec fn next_binding(
    run: BindingRunView,
    phase: BindingView,
    event: BindingEvent,
    now: u64,
) -> BindingView {
    match (phase, event) {
        (BindingView::Snapshotting, BindingEvent::Snapshot(Ok(id))) => BindingView::Journalling(
            id@,
        ),
        (BindingView::Snapshotting, BindingEvent::Snapshot(Err(m))) => BindingView::Done(Err(m@)),
        (BindingView::Journalling(id), BindingEvent::Finished(result)) => match result {
            Ok(_) => BindingView::Binding(id),
            Err(m) => BindingView::Discarding(id, m@),
        },
        (BindingView::Discarding(_, m), BindingEvent::Finished(_)) => BindingView::Done(Err(m)),
        (BindingView::Binding(id), BindingEvent::Bound(result)) => match result {
            Ok(filename) => BindingView::Saving(id, queue_bound(run, filename@, now)),
            Err(m) => BindingView::Recovering(true, m@),
        },
        (BindingView::Saving(id, q), BindingEvent::Finished(result)) => match result {
            Ok(_) => BindingView::ClearingJournal(id, q),
            Err(m) => BindingView::RollingBack(m@),
        },
        (BindingView::RollingBack(m), BindingEvent::Finished(result)) => BindingView::RestoringQueue(
            m,
            result,
        ),
        (BindingView::RestoringQueue(m, files), BindingEvent::Finished(result)) =>
            BindingView::Recovering(false, persistence_message(m, files, result)),
        (BindingView::Recovering(unbound, m), BindingEvent::Finished(result)) => if unbound
            && !run.promoting && result is Ok {
            BindingView::SavingFailed(queue_failed(run, m, now))
        } else {
            BindingView::Done(Err(m + suffix_of(result)))
        },
        (BindingView::SavingFailed(q), BindingEvent::Finished(result)) => match result {
            Ok(_) => BindingView::Done(Ok(q)),
            Err(m) => BindingView::Done(Err(m@)),
        },
        (BindingView::ClearingJournal(id, q), BindingEvent::Finished(result)) => match result {
            Ok(_) => BindingView::DeletingSnapshot(id, q),
            Err(m) => BindingView::Done(Err(m@)),
        },
        (BindingView::DeletingSnapshot(_, q), BindingEvent::Finished(_)) => BindingView::Done(
            Ok(q),
        ),
        _ => phase,
    }
}

/// The journal that a commit writes before it binds.
pub fn binding_journal(run: &BindingRun, snapshot: &str) -> (r: PendingTransaction)
    ensures
        r@ == (PendingView {
            version: TRANSACTION_VERSION,
            previous_queue: run@.queue,
            rollback_snapshot: Some(snapshot@),
            staged_artifact: None,
        }),
{
    PendingTransaction {
        version: TRANSACTION_VERSION,
        previous_queue: run.queue.clone(),
        rollback_snapshot: Some(text::copy(snapshot)),
        staged_artifact: None,
    }
}

fn recovered_from(run: &BindingRun, error: BindingCommitError, result: Result<(), String>, now: u64) -> (r:
    BindingPhase)
    requires
        run@.wf(),
    ensures
        r@ == next_binding(
            run@,
            BindingPhase::Recovering(error)@,
            BindingEvent::Finished(result),
            now,
        ),
{
    match error {
        BindingCommitError::Persistence(m) => BindingPhase::Done(Err(with_rollback(m, result))),
        BindingCommitError::Binding(m) => {
            if !run.promoting && result.is_ok() {
                BindingPhase::SavingFailed(
                    failed_queue(&run.queue, run.task_index, m.as_str(), now),
                )
            } else {
                BindingPhase::Done(Err(with_rollback(m, result)))
            }
        },
    }
}

/// Takes the commit of a binding one step further. In `Recovering`, the event
/// reports what came of a whole recovery.
pub fn persist_binding(run: &BindingRun, phase: BindingPhase, event: BindingEvent, now: u64) -> (r:
    BindingPhase)
    requires
        run@.wf(),
    ensures
        r@ == next_binding(run@, phase@, event, now),
{
    match (phase, event) {
        (BindingPhase::Snapshotting, BindingEvent::Snapshot(result)) => match result {
            Ok(id) => BindingPhase::Journalling(id),
            Err(m) => BindingPhase::Done(Err(m)),
        },
        (BindingPhase::Journalling(id), BindingEvent::Finished(result)) => match result {
            Ok(_) => BindingPhase::Binding(id),
            Err(m) => BindingPhase::Discarding(id, m),
        },
        (BindingPhase::Discarding(_, m), BindingEvent::Finished(_)) => BindingPhase::Done(Err(m)),
        (BindingPhase::Binding(id), BindingEvent::Bound(result)) => match result {
            Ok(filename) => {
                let updated = bound_queue(
                    &run.queue,
                    run.task_index,
                    &run.task,
                    filename.as_str(),
                    now,
                );
                BindingPhase::Saving(id, updated)
            },
            Err(m) => BindingPhase::Recovering(BindingCommitError::Binding(m)),
        },
        (BindingPhase::Saving(id, q), BindingEvent::Finished(result)) => match result {
            Ok(_) => BindingPhase::ClearingJournal(id, q),
            Err(m) => BindingPhase::RollingBack(m),
        },
        (BindingPhase::RollingBack(m), BindingEvent::Finished(result)) => {
            BindingPhase::RestoringQueue(m, result)
        },
        (BindingPhase::RestoringQueue(m, files), BindingEvent::Finished(result)) => {
            let ghost both = seq![files, result];
            let mut results: Vec<Result<(), String>> = Vec::new();
            results.push(files);
            results.push(result);
            assert(results@ =~= both);
            let combined = combine_rollbacks(results);
            BindingPhase::Recovering(persistence_error(m.as_str(), combined))
        },
        (BindingPhase::Recovering(error), BindingEvent::Finished(result)) => {
            recovered_from(run, error, result, now)
        },
        (BindingPhase::SavingFailed(q), BindingEvent::Finished(result)) => match result {
            Ok(_) => BindingPhase::Done(Ok(q)),
            Err(m) => BindingPhase::Done(Err(m)),
        },
        (BindingPhase::ClearingJournal(id, q), BindingEvent::Finished(result)) => match result {
            Ok(_) => BindingPhase::DeletingSnapshot(id, q),
            Err(m) => BindingPhase::Done(Err(m)),
        },
        (BindingPhase::DeletingSnapshot(_, q), BindingEvent::Finished(_)) => BindingPhase::Done(
            Ok(q),
        ),
        (phase, _) => phase,
    }
}

// ---------------------------------------------------------------------------
// Deleting an artifact
// ---------------------------------------------------------------------------

/// How far the deletion of an artifact has come.
#[derive(Debug, PartialEq, Eq)]
pub enum DeletionPhase {
    /// The journal is to be written.
    Journalling,
    /// The artifact is to be moved to the staging place.
    Staging,
    /// This queue, which no longer records the artifact, is to be saved.
    Saving(AssetQueue),
    /// The transaction is to be recovered from.
    Recovering(String),
    /// The journal is to be removed.
    ClearingJournal(AssetQueue),
    /// The staging place is to be emptied; whether that goes well does not
    /// matter.
    RemovingStaged(AssetQueue),
    /// It is over: the queue as it is now, or what went wrong.
    Done(Result<AssetQueue, String>),
}

pub enum DeletionView {
    Journalling,
    Staging,
    Saving(QueueView),
    Recovering(Seq<char>),
    ClearingJournal(QueueView),
    RemovingStaged(QueueView),
    Done(Result<QueueView, Seq<char>>),
}

impl View for DeletionPhase {
    type V = DeletionView;

    open spec fn view(&self) -> DeletionView {
        match *self {
            DeletionPhase::Journalling => DeletionView::Journalling,
            DeletionPhase::Staging => DeletionView::Staging,
            DeletionPhase::Saving(q) => DeletionView::Saving(q@),
            DeletionPhase::Recovering(m) => DeletionView::Recovering(m@),
            DeletionPhase::ClearingJournal(q) => DeletionView::ClearingJournal(q@),
            DeletionPhase::RemovingStaged(q) => DeletionView::RemovingStaged(q@),
            DeletionPhase::Done(r) => DeletionView::Done(outcome(r)),
        }
    }
}

/// The queue without the record of an artifact, or why there is none.
pub open spec fn queue_without(queue: QueueView, task_id: Seq<char>, attempt: u32, now: u64) -> Result<
    QueueView,
    Seq<char>,
> {
    let i = task_index(queue.tasks, task_id);
    let k = attempt_index(queue.tasks[i].attempts, attempt);
    if i >= queue.tasks.len() || k >= queue.tasks[i].attempts.len() {
        Err("asset attempt not found: "@ + attempt_name(task_id, attempt))
    } else {
        Ok(scheduler::with_task(queue, i, without_artifact(queue.tasks[i], k), now))
    }
}

/// The phase after a step. `removed` is the queue without the record of the
/// artifact.
pub open spec fn next_deletion(
    removed: Result<QueueView, Seq<char>>,
    phase: DeletionView,
    result: Result<(), String>,
) -> DeletionView {
    match phase {
        DeletionView::Journalling => match result {
            Ok(_) => DeletionView::Staging,
            Err(m) => DeletionView::Done(Err(m@)),
        },
        DeletionView::Staging => match result {
            Ok(_) => match removed {
                Ok(q) => DeletionView::Saving(q),
                Err(m) => DeletionView::Done(Err(m)),
            },
            Err(m) => DeletionView::Done(Err(m@)),
        },
        DeletionView::Saving(q) => match result {
            Ok(_) => DeletionView::ClearingJournal(q),
            Err(m) => DeletionView::Recovering(m@),
        },
        DeletionView::Recovering(m) => DeletionView::Done(
            Err("failed to persist artifact deletion: "@ + m + suffix_of(result)),
        ),
        DeletionView::ClearingJournal(q) => match result {
            Ok(_) => DeletionView::RemovingStaged(q),
            Err(m) => DeletionView::Done(Err(m@)),
        },
        DeletionView::RemovingStaged(q) => DeletionView::Done(Ok(q)),
        DeletionView::Done(r) => DeletionView::Done(r),
    }
}

/// The journal that a deletion writes first. `original` is the artifact's path
/// below the project.
pub fn deletion_journal(queue: &AssetQueue, original: &str) -> (r: PendingTransaction)
    ensures
        r@ == (PendingView {
            version: TRANSACTION_VERSION,
            previous_queue: queue@,
            rollback_snapshot: None,
            staged_artifact: Some((original@, STAGED_ARTIFACT@)),
        }),
{
    PendingTransaction {
        version: TRANSACTION_VERSION,
        previous_queue: queue.clone(),
        rollback_snapshot: None,
        staged_artifact: Some(
            StagedArtifact { original: text::copy(original), staged: text::copy(STAGED_ARTIFACT) },
        ),
    }
}

/// A deletion to be carried out: the artifact's resolved path, and the journal that
/// is written first.
#[derive(Debug, PartialEq, Eq)]
pub struct Deletion {
    pub artifact: String,
    pub journal: PendingTransaction,
}

/// Why a deletion may not begin, if it may not: the artifact must resolve and lie in
/// the project, and nothing may be left in the staging place.
pub open spec fn deletion_fault(
    queue: QueueView,
    task_id: Seq<char>,
    attempt: u32,
    place: ArtifactPlace,
    project: Seq<char>,
    project_root: Result<String, String>,
    staged_exists: bool,
) -> Option<Seq<char>> {
    match resolution(queue, task_id, attempt, place) {
        Err(e) => Some(e),
        Ok(artifact) => match project_root {
            Err(e) => Some("failed to resolve project root: "@ + e@),
            Ok(root) => if !paths::within(artifact, root@) {
                Some("artifact is outside the project"@)
            } else if staged_exists {
                Some(
                    "stale asset transaction staging file: "@ + paths::joined(
                        project,
                        STAGED_ARTIFACT@,
                    ),
                )
            } else {
                None
            },
        },
    }
}

/// Begins the deletion of an artifact, from what looking it up gave, the project's
/// directory as it resolves, and whether the staging place is taken. The deletion
/// then starts in `Journalling`.
pub fn delete_artifact(
    queue: &AssetQueue,
    task_id: &str,
    attempt: u32,
    place: &ArtifactPlace,
    project: &str,
    project_root: &Result<String, String>,
    staged_exists: bool,
) -> (r: Result<Deletion, String>)
    ensures
        match deletion_fault(
            queue@,
            task_id@,
            attempt,
            *place,
            project@,
            *project_root,
            staged_exists,
        ) {
            Some(e) => r matches Err(m) && m@ == e,
            None => r matches Ok(d) && Ok::<Seq<char>, Seq<char>>(d.artifact@) == resolution(
                queue@,
                task_id@,
                attempt,
                *place,
            ) && d.journal@ == (PendingView {
                version: TRANSACTION_VERSION,
                previous_queue: queue@,
                rollback_snapshot: None,
                staged_artifact: Some(
                    (paths::below(d.artifact@, project_root->Ok_0@), STAGED_ARTIFACT@),
                ),
            }),
        },
{
    let artifact = match resolve_artifact(queue, task_id, attempt, place) {
        Err(m) => {
            return Err(m);
        },
        Ok(path) => path,
    };
    let root = match project_root {
        Err(e) => {
            return Err(router::joined("failed to resolve project root: ", e.as_str()));
        },
        Ok(root) => root,
    };
    match paths::strip_prefix(artifact.as_str(), root.as_str()) {
        None => Err(text::copy("artifact is outside the project")),
        Some(original) => {
            if staged_exists {
                let staged = paths::join(project, STAGED_ARTIFACT);
                return Err(
                    router::joined("stale asset transaction staging file: ", staged.as_str()),
                );
            }
            let journal = deletion_journal(queue, original.as_str());
            Ok(Deletion { artifact, journal })
        },
    }
}

/// Takes the deletion of an artifact one step further. In `Recovering`, the
/// result is that of a whole recovery.
pub fn advance_deletion(
    queue: &AssetQueue,
    task_id: &str,
    attempt: u32,
    phase: DeletionPhase,
    result: Result<(), String>,
    now: u64,
) -> (r: DeletionPhase)
    ensures
        r@ == next_deletion(queue_without(queue@, task_id@, attempt, now), phase@, result),
{
    match phase {
        DeletionPhase::Journalling => match result {
            Ok(_) => DeletionPhase::Staging,
            Err(m) => DeletionPhase::Done(Err(m)),
        },
        DeletionPhase::Staging => match result {
            Ok(_) => match forget_artifact(queue.clone(), task_id, attempt, now) {
                Ok(q) => DeletionPhase::Saving(q),
                Err(m) => DeletionPhase::Done(Err(m)),
            },
            Err(m) => DeletionPhase::Done(Err(m)),
        },
        DeletionPhase::Saving(q) => match result {
            Ok(_) => DeletionPhase::ClearingJournal(q),
            Err(m) => DeletionPhase::Recovering(m),
        },
        DeletionPhase::Recovering(m) => DeletionPhase::Done(
            Err(deletion_error(m.as_str(), result)),
        ),
        DeletionPhase::ClearingJournal(q) => match result {
            Ok(_) => DeletionPhase::RemovingStaged(q),
            Err(m) => DeletionPhase::Done(Err(m)),
        },
        DeletionPhase::RemovingStaged(q) => DeletionPhase::Done(Ok(q)),
        DeletionPhase::Done(r) => DeletionPhase::Done(r),
    }
}

// ---------------------------------------------------------------------------
// What an interrupted transaction leaves
// ---------------------------------------------------------------------------

/// A project on disk: the contents that its snapshots keep, the saved queue,
/// the journal, the snapshots, and where the artifact of a deletion stands.
pub struct QueueDisk {
    pub contents: Seq<u8>,
    pub queue: QueueView,
    pub journal: Option<PendingView>,
    pub snapshots: Map<Seq<char>, Seq<u8>>,
    pub original: bool,
    pub staged: bool,
}

/// What a whole recovery makes of the disk: what the journal names is put back,
/// and nothing is left of the transaction.
pub open spec fn brought_back(disk: QueueDisk) -> QueueDisk {
    match disk.journal {
        None => QueueDisk { staged: false, ..disk },
        Some(p) => QueueDisk {
            contents: match p.rollback_snapshot {
                Some(id) => disk.snapshots[id],
                None => disk.contents,
            },
            queue: p.previous_queue,
            journal: None,
            snapshots: match p.rollback_snapshot {
                Some(id) => disk.snapshots.remove(id),
                None => disk.snapshots,
            },
            original: disk.original || (p.staged_artifact is Some && disk.staged),
            staged: disk.staged && p.staged_artifact is None,
        },
    }
}

/// The disk after a step of a recovery that went well.
pub open spec fn after_recovery(disk: QueueDisk, phase: RecoveryView) -> QueueDisk {
    match phase {
        RecoveryView::CleaningStaging => QueueDisk { staged: false, ..disk },
        RecoveryView::RestoringSnapshot(p) => QueueDisk {
            contents: disk.snapshots[p.rollback_snapshot->0],
            ..disk
        },
        RecoveryView::RestoringQueue(p) => QueueDisk { queue: p.previous_queue, ..disk },
        RecoveryView::MovingBack(_) => QueueDisk { original: true, staged: false, ..disk },
        RecoveryView::ClearingJournal(_) => QueueDisk { journal: None, ..disk },
        RecoveryView::RemovingStaged(_) => QueueDisk { staged: false, ..disk },
        RecoveryView::DeletingSnapshot(p) => QueueDisk {
            snapshots: disk.snapshots.remove(p.rollback_snapshot->0),
            ..disk
        },
        _ => disk,
    }
}

/// What a caller reports of a step that went well.
pub open spec fn good_news(disk: QueueDisk, phase: RecoveryView) -> RecoveryEventView {
    match phase {
        RecoveryView::Reading => match disk.journal {
            None => RecoveryEventView::NoJournal,
            Some(p) => RecoveryEventView::Journal(p),
        },
        RecoveryView::Locating(_) => RecoveryEventView::Located(disk.original, disk.staged),
        _ => RecoveryEventView::Finished(None),
    }
}

/// The phase and the disk after a number of steps that all went well.
pub open spec fn recovery_course(project: Seq<char>, disk: QueueDisk, n: nat) -> (
    RecoveryView,
    QueueDisk,
)
    decreases n,
{
    if n == 0 {
        (RecoveryView::Reading, disk)
    } else {
        let (phase, before) = recovery_course(project, disk, (n - 1) as nat);
        let after = after_recovery(before, phase);
        (next_recovery(project, phase, good_news(after, phase)), after)
    }
}

/// Whether a journal can be recovered from: this version wrote it, what it
/// names is there, and the artifact it moved stands in one of its two places.
pub open spec fn sound_journal(disk: QueueDisk) -> bool {
    disk.journal matches Some(p) ==> {
        &&& p.version == TRANSACTION_VERSION
        &&& p.rollback_snapshot matches Some(id) ==> disk.snapshots.dom().contains(id)
        &&& p.staged_artifact matches Some(staged) ==> path_fault(staged) is None && disk.original
            != disk.staged
    }
}

/// A recovery whose steps go well is over after eight steps at most, without a
/// fault, and has put back what the journal names.
pub proof fn recoveries_bring_back(project: Seq<char>, disk: QueueDisk)
    requires
        sound_journal(disk),
    ensures
        recovery_course(project, disk, 8) == (RecoveryView::Done(None), brought_back(disk)),
{
    reveal_with_fuel(recovery_course, 9);
    let end = recovery_course(project, disk, 8).1;
    assert(end.snapshots =~= brought_back(disk).snapshots);
}

/// What a caller may find or be told at a step of a recovery.
pub open spec fn may_hear(disk: QueueDisk, phase: RecoveryView, event: RecoveryEventView) -> bool {
    match phase {
        RecoveryView::Reading => event is Unreadable || event == good_news(disk, phase),
        RecoveryView::Locating(_) => event == good_news(disk, phase),
        _ => event is Finished,
    }
}

/// What a step of a recovery may make of the disk. A step that went well has done its
/// work. A restore that failed may have left any contents, and a save or a move that
/// failed may have gone through all the same. The snapshot that is no longer needed
/// may be there, in part or not at all.
pub open spec fn recovery_leaves(
    disk: QueueDisk,
    phase: RecoveryView,
    event: RecoveryEventView,
    after: QueueDisk,
) -> bool {
    let done = after_recovery(disk, phase);
    match phase {
        RecoveryView::RestoringSnapshot(_) => if event == RecoveryEventView::Finished(None) {
            after == done
        } else {
            after == (QueueDisk { contents: after.contents, ..disk })
        },
        RecoveryView::DeletingSnapshot(p) => {
            &&& after == (QueueDisk { snapshots: after.snapshots, ..disk })
            &&& after.snapshots.remove(p.rollback_snapshot->0) == done.snapshots
        },
        RecoveryView::ClearingJournal(_) => if event == RecoveryEventView::Finished(None) {
            after == done
        } else {
            after == disk
        },
        _ => after == done || (after == disk && event != RecoveryEventView::Finished(None)),
    }
}

/// The disk still has the journal, and a recovery would put back the same.
spec fn still_pending(start: QueueDisk, disk: QueueDisk) -> bool {
    &&& disk.journal == start.journal
    &&& disk.snapshots == start.snapshots
    &&& sound_journal(disk)
    &&& brought_back(disk) == brought_back(start)
    &&& disk.staged ==> start.staged
}

/// What the journal named is put back and the journal is gone. Leftovers in the
/// staging place, and the snapshot, may be there still.
pub open spec fn put_back(start: QueueDisk, disk: QueueDisk) -> bool {
    let back = brought_back(start);
    &&& disk.journal is None
    &&& disk.contents == back.contents
    &&& disk.queue == back.queue
    &&& disk.original == back.original
    &&& disk.staged ==> start.staged && (start.journal is Some ==> back.staged)
    &&& match start.journal {
        Some(p) => match p.rollback_snapshot {
            Some(id) => disk.snapshots.remove(id) == back.snapshots,
            None => disk.snapshots == start.snapshots,
        },
        None => disk.snapshots == start.snapshots,
    }
}

/// What holds of the disk in each phase of recoveries that began with `start`.
spec fn recovery_stands(start: QueueDisk, phase: RecoveryView, disk: QueueDisk) -> bool {
    let back = brought_back(start);
    match phase {
        RecoveryView::Reading => still_pending(start, disk) || put_back(start, disk),
        RecoveryView::CleaningStaging => put_back(start, disk),
        RecoveryView::RestoringSnapshot(p) => still_pending(start, disk) && start.journal == Some(p)
            && p.rollback_snapshot is Some,
        RecoveryView::RestoringQueue(p) => still_pending(start, disk) && start.journal == Some(p)
            && disk.contents == back.contents,
        RecoveryView::Locating(p) => still_pending(start, disk) && start.journal == Some(p)
            && disk.contents == back.contents && disk.queue == back.queue
            && p.staged_artifact is Some,
        RecoveryView::MovingBack(p) => still_pending(start, disk) && start.journal == Some(p)
            && disk.contents == back.contents && disk.queue == back.queue
            && p.staged_artifact is Some && disk.staged,
        RecoveryView::ClearingJournal(p) => still_pending(start, disk) && start.journal == Some(p)
            && disk.contents == back.contents && disk.queue == back.queue && disk.original
            == back.original && disk.staged == back.staged,
        RecoveryView::RemovingStaged(p) => put_back(start, disk) && start.journal == Some(p),
        RecoveryView::DeletingSnapshot(p) => put_back(start, disk) && start.journal == Some(p)
            && p.rollback_snapshot is Some,
        RecoveryView::Done(None) => put_back(start, disk) && (disk.staged ==> back.staged),
        RecoveryView::Done(Some(_)) => still_pending(start, disk) || put_back(start, disk),
    }
}

/// What a disk goes through in recoveries: its states, and the phases and events
/// between them. At a step without an event a recovery is begun anew.
pub open spec fn recoveries_go(
    project: Seq<char>,
    disks: Seq<QueueDisk>,
    phases: Seq<RecoveryView>,
    events: Seq<Option<RecoveryEventView>>,
) -> bool {
    &&& disks.len() == phases.len() == events.len() + 1
    &&& phases[0] == RecoveryView::Reading
    &&& forall|k: int|
        #![trigger events[k]]
        0 <= k < events.len() ==> match events[k] {
            None => disks[k + 1] == disks[k] && phases[k + 1] == RecoveryView::Reading,
            Some(event) => may_hear(disks[k], phases[k], event) && recovery_leaves(
                disks[k],
                phases[k],
                event,
                disks[k + 1],
            ) && phases[k + 1] == next_recovery(project, phases[k], event),
        }
}

/// Recoveries may be cut short or fail at any step and be begun again: as long as the
/// journal is there it is the same, what it names is there, and a recovery would put
/// back the same as the first would have; once it is gone, that is put back.
pub proof fn recoveries_may_be_begun_again(
    project: Seq<char>,
    disks: Seq<QueueDisk>,
    phases: Seq<RecoveryView>,
    events: Seq<Option<RecoveryEventView>>,
    n: int,
)
    requires
        0 <= n < disks.len(),
        recoveries_go(project, disks, phases, events),
        sound_journal(disks[0]),
    ensures
        disks[n].journal is Some ==> disks[n].journal == disks[0].journal && disks[n].snapshots
            == disks[0].snapshots && sound_journal(disks[n]) && brought_back(disks[n])
            == brought_back(disks[0]),
        disks[n].journal is None && disks[0].journal is Some ==> put_back(disks[0], disks[n]),
        phases[n] == RecoveryView::Done(None) ==> put_back(disks[0], disks[n]) && (disks[n].staged
            ==> brought_back(disks[0]).staged),
{
    lemma_recovery_stands(project, disks, phases, events, n);
}

proof fn lemma_recovery_stands(
    project: Seq<char>,
    disks: Seq<QueueDisk>,
    phases: Seq<RecoveryView>,
    events: Seq<Option<RecoveryEventView>>,
    n: int,
)
    requires
        0 <= n < disks.len(),
        recoveries_go(project, disks, phases, events),
        sound_journal(disks[0]),
    ensures
        recovery_stands(disks[0], phases[n], disks[n]),
    decreases n,
{
    if n > 0 {
        lemma_recovery_stands(project, disks, phases, events, n - 1);
        let event = events[n - 1];
        if event is Some {
            assert(recovery_leaves(disks[n - 1], phases[n - 1], event->0, disks[n]));
        }
    }
}

/// The disk after a step of the commit of a binding. Binding and rolling back may
/// leave any contents, and a write of the journal, a save or a recovery that fails may
/// have gone through all the same.
pub open spec fn after_binding(
    run: BindingRunView,
    disk: QueueDisk,
    phase: BindingView,
    event: BindingEvent,
    contents: Seq<u8>,
    saved: bool,
) -> QueueDisk {
    match (phase, event) {
        (BindingView::Snapshotting, BindingEvent::Snapshot(Ok(id))) => QueueDisk {
            snapshots: disk.snapshots.insert(id@, disk.contents),
            ..disk
        },
        (BindingView::Journalling(id), BindingEvent::Finished(result)) => if result is Ok
            || saved {
            QueueDisk {
                journal: Some(
                    PendingView {
                        version: TRANSACTION_VERSION,
                        previous_queue: run.queue,
                        rollback_snapshot: Some(id),
                        staged_artifact: None,
                    },
                ),
                ..disk
            }
        } else {
            disk
        },
        (BindingView::Discarding(id, _), BindingEvent::Finished(Ok(_))) => QueueDisk {
            snapshots: disk.snapshots.remove(id),
            ..disk
        },
        (BindingView::Binding(_), BindingEvent::Bound(_)) => QueueDisk { contents, ..disk },
        (BindingView::Saving(_, q), BindingEvent::Finished(result)) => if result is Ok || saved {
            QueueDisk { queue: q, ..disk }
        } else {
            disk
        },
        (BindingView::RollingBack(_), BindingEvent::Finished(_)) => QueueDisk { contents, ..disk },
        (BindingView::RestoringQueue(_, _), BindingEvent::Finished(result)) => if result is Ok
            || saved {
            QueueDisk { queue: run.queue, ..disk }
        } else {
            disk
        },
        (BindingView::Recovering(_, _), BindingEvent::Finished(result)) => if result is Ok {
            brought_back(disk)
        } else {
            QueueDisk {
                contents,
                queue: if saved {
                    run.queue
                } else {
                    disk.queue
                },
                ..disk
            }
        },
        (BindingView::SavingFailed(q), BindingEvent::Finished(result)) => if result is Ok
            || saved {
            QueueDisk { queue: q, ..disk }
        } else {
            disk
        },
        (BindingView::ClearingJournal(_, _), BindingEvent::Finished(Ok(_))) => QueueDisk {
            journal: None,
            ..disk
        },
        (BindingView::DeletingSnapshot(id, _), BindingEvent::Finished(Ok(_))) => QueueDisk {
            snapshots: disk.snapshots.remove(id),
            ..disk
        },
        _ => disk,
    }
}

/// Nothing has happened yet, or all of it is undone.
pub open spec fn untouched(run: BindingRunView, disk: QueueDisk, original: Seq<u8>) -> bool {
    disk.journal is None && disk.contents == original && disk.queue == run.queue
}

/// Nothing but the journal has been written, if that, and its snapshot is deleted.
pub open spec fn not_begun(run: BindingRunView, disk: QueueDisk, original: Seq<u8>) -> bool {
    &&& disk.contents == original
    &&& disk.queue == run.queue
    &&& disk.journal matches Some(p) ==> p.rollback_snapshot is Some && !disk.snapshots.dom().contains(
        p.rollback_snapshot->0,
    )
}

/// The journal names the queue and a snapshot of the contents as they were.
pub open spec fn undoable(run: BindingRunView, disk: QueueDisk, original: Seq<u8>) -> bool {
    disk.journal matches Some(p) && p.version == TRANSACTION_VERSION && p.previous_queue
        == run.queue && p.staged_artifact is None && (p.rollback_snapshot matches Some(id)
        && disk.snapshots.dom().contains(id) && disk.snapshots[id] == original)
}

/// Whether this is the queue in which the task is bound to some file.
pub open spec fn is_bound_queue(run: BindingRunView, q: QueueView) -> bool {
    exists|filename: Seq<char>, now: u64| q == #[trigger] queue_bound(run, filename, now)
}

/// Whether this is the queue in which the task has failed.
pub open spec fn is_failed_queue(run: BindingRunView, q: QueueView) -> bool {
    exists|error: Seq<char>, now: u64| q == #[trigger] queue_failed(run, error, now)
}

/// What holds of the disk in each phase of the commit of a binding.
pub open spec fn binding_fits(
    run: BindingRunView,
    disk: QueueDisk,
    phase: BindingView,
    original: Seq<u8>,
) -> bool {
    match phase {
        BindingView::Snapshotting => untouched(run, disk, original),
        BindingView::Journalling(id) => untouched(run, disk, original)
            && disk.snapshots.dom().contains(id) && disk.snapshots[id] == original,
        BindingView::Discarding(id, _) => untouched(run, disk, original) || (undoable(
            run,
            disk,
            original,
        ) && disk.journal->0.rollback_snapshot == Some(id) && disk.contents == original
            && disk.queue == run.queue),
        BindingView::Binding(_) => undoable(run, disk, original),
        BindingView::Saving(_, q) => undoable(run, disk, original) && is_bound_queue(run, q),
        BindingView::RollingBack(_) => undoable(run, disk, original),
        BindingView::RestoringQueue(_, _) => undoable(run, disk, original),
        BindingView::Recovering(_, _) => undoable(run, disk, original),
        BindingView::SavingFailed(q) => untouched(run, disk, original) && is_failed_queue(run, q),
        BindingView::ClearingJournal(_, q) => undoable(run, disk, original) && disk.queue == q
            && is_bound_queue(run, q),
        BindingView::DeletingSnapshot(_, q) => disk.journal is None && disk.queue == q
            && is_bound_queue(run, q),
        BindingView::Done(Ok(q)) => disk.journal is None && disk.queue == q && (is_bound_queue(
            run,
            q,
        ) || (is_failed_queue(run, q) && disk.contents == original)),
        BindingView::Done(Err(_)) => undoable(run, disk, original) || not_begun(
            run,
            disk,
            original,
        ) || (disk.journal is None && disk.contents == original && is_failed_queue(
            run,
            disk.queue,
        )),
    }
}

/// Each step of the commit of a binding keeps what holds of the disk. So it can
/// be undone as a whole, until it is complete.
pub proof fn commits_stay_undoable(
    run: BindingRunView,
    disk: QueueDisk,
    phase: BindingView,
    event: BindingEvent,
    now: u64,
    contents: Seq<u8>,
    saved: bool,
    original: Seq<u8>,
)
    requires
        binding_fits(run, disk, phase, original),
    ensures
        binding_fits(
            run,
            after_binding(run, disk, phase, event, contents, saved),
            next_binding(run, phase, event, now),
            original,
        ),
{
    match (phase, event) {
        (BindingView::Binding(_), BindingEvent::Bound(Ok(filename))) => {
            assert(is_bound_queue(run, queue_bound(run, filename@, now)));
        },
        (BindingView::Recovering(_, m), BindingEvent::Finished(_)) => {
            assert(is_failed_queue(run, queue_failed(run, m, now)));
        },
        _ => {},
    }
}

/// At whatever point a commit is cut off, a recovery finds a sound journal or
/// none; and afterwards the task is bound in the queue, or the project is what
/// it was and the queue is what it was or says that the task has failed. The one
/// exception is a commit that gave up because it could not write the journal: there
/// project and queue are what they were, but the journal may stand all the same and
/// name a snapshot that is deleted.
pub proof fn bindings_are_all_or_nothing(
    run: BindingRunView,
    disk: QueueDisk,
    phase: BindingView,
    original: Seq<u8>,
)
    requires
        binding_fits(run, disk, phase, original),
    ensures
        sound_journal(disk) || (phase matches BindingView::Done(Err(_)) && not_begun(
            run,
            disk,
            original,
        )),
        sound_journal(disk) ==> ({
            let after = brought_back(disk);
            is_bound_queue(run, after.queue) || (after.contents == original && (after.queue
                == run.queue || is_failed_queue(run, after.queue)))
        }),
        phase matches BindingView::Done(Ok(q)) ==> disk.queue == q,
{
}

/// The disk after a step of a deletion. A write of the journal or a save that fails
/// may have gone through all the same, and a recovery that fails may have put the
/// queue or the artifact back before it did.
pub open spec fn after_deletion(
    queue: QueueView,
    path: Seq<char>,
    disk: QueueDisk,
    phase: DeletionView,
    result: Result<(), String>,
    saved: bool,
    moved: bool,
) -> QueueDisk {
    match phase {
        DeletionView::Journalling => if result is Ok || saved {
            QueueDisk {
                journal: Some(
                    PendingView {
                        version: TRANSACTION_VERSION,
                        previous_queue: queue,
                        rollback_snapshot: None,
                        staged_artifact: Some((path, STAGED_ARTIFACT@)),
                    },
                ),
                ..disk
            }
        } else {
            disk
        },
        DeletionView::Staging => if result is Ok {
            QueueDisk { original: false, staged: true, ..disk }
        } else {
            disk
        },
        DeletionView::Saving(q) => if result is Ok || saved {
            QueueDisk { queue: q, ..disk }
        } else {
            disk
        },
        DeletionView::Recovering(_) => if result is Ok {
            brought_back(disk)
        } else {
            QueueDisk {
                queue: if saved {
                    queue
                } else {
                    disk.queue
                },
                original: moved,
                staged: !moved,
                ..disk
            }
        },
        DeletionView::ClearingJournal(_) => if result is Ok {
            QueueDisk { journal: None, ..disk }
        } else {
            disk
        },
        DeletionView::RemovingStaged(_) => if result is Ok {
            QueueDisk { staged: false, ..disk }
        } else {
            disk
        },
        DeletionView::Done(_) => disk,
    }
}

/// The journal of a deletion names the queue as it was, and the artifact stands
/// in one of its two places.
pub open spec fn restorable(queue: QueueView, path: Seq<char>, disk: QueueDisk) -> bool {
    &&& disk.journal == Some(
        PendingView {
            version: TRANSACTION_VERSION,
            previous_queue: queue,
            rollback_snapshot: None,
            staged_artifact: Some((path, STAGED_ARTIFACT@)),
        },
    )
    &&& disk.original != disk.staged
}

/// Nothing of a deletion has happened yet, or all of it is undone.
pub open spec fn kept(queue: QueueView, disk: QueueDisk) -> bool {
    disk.journal is None && disk.queue == queue && disk.original && !disk.staged
}

/// What holds of the disk in each phase of a deletion.
pub open spec fn deletion_fits(
    queue: QueueView,
    path: Seq<char>,
    removed: QueueView,
    disk: QueueDisk,
    phase: DeletionView,
) -> bool {
    match phase {
        DeletionView::Journalling => kept(queue, disk),
        DeletionView::Staging => restorable(queue, path, disk) && disk.queue == queue,
        DeletionView::Saving(q) => restorable(queue, path, disk) && !disk.original && q == removed,
        DeletionView::Recovering(_) => restorable(queue, path, disk) && !disk.original,
        DeletionView::ClearingJournal(q) => restorable(queue, path, disk) && !disk.original && q
            == removed && disk.queue == removed,
        DeletionView::RemovingStaged(q) => disk.journal is None && !disk.original && q == removed
            && disk.queue == removed,
        DeletionView::Done(Ok(q)) => disk.journal is None && !disk.original && q == removed
            && disk.queue == removed,
        DeletionView::Done(Err(_)) => restorable(queue, path, disk) || kept(queue, disk),
    }
}

/// Each step of a deletion keeps what holds of the disk. So it can be undone as
/// a whole, until it is complete.
pub proof fn deletions_stay_undoable(
    queue: QueueView,
    path: Seq<char>,
    removed: QueueView,
    disk: QueueDisk,
    phase: DeletionView,
    result: Result<(), String>,
    saved: bool,
    moved: bool,
)
    requires
        deletion_fits(queue, path, removed, disk, phase),
    ensures
        deletion_fits(
            queue,
            path,
            removed,
            after_deletion(queue, path, disk, phase, result, saved, moved),
            next_deletion(Ok(removed), phase, result),
        ),
{
}

/// At whatever point a deletion is cut off and then recovered from, it is done
/// or undone as a whole: the artifact is gone and the queue does not record it,
/// or it stands in its place and the queue is what it was. Nothing is left in
/// the staging place.
pub proof fn deletions_are_all_or_nothing(
    queue: QueueView,
    path: Seq<char>,
    removed: QueueView,
    disk: QueueDisk,
    phase: DeletionView,
)
    requires
        deletion_fits(queue, path, removed, disk, phase),
        paths::descending(path),
    ensures
        sound_journal(disk),
        ({
            let after = brought_back(disk);
            &&& !after.staged
            &&& after.journal is None
            &&& (after.original && after.queue == queue) || (!after.original && after.queue
                == removed)
        }),
{
    lemma_staging_place();
}

proof fn lemma_recorded_is_promoted(attempts: Seq<AttemptView>, number: u32)
    requires
        attempt_index(attempts, number) < attempts.len(),
        attempts[attempt_index(attempts, number)].artifact is Some,
    ensures
        artifact_index(attempts, number) == attempt_index(attempts, number),
    decreases attempts.len(),
{
    if attempts.len() > 0 && attempts[0].attempt != number {
        let rest = attempts.drop_first();
        assert(rest[attempt_index(rest, number)] == attempts[attempt_index(attempts, number)]) by {
            lemma_attempt_index_range(rest, number);
        }
        lemma_recorded_is_promoted(rest, number);
    }
}

proof fn lemma_attempt_index_range(attempts: Seq<AttemptView>, number: u32)
    ensures
        0 <= attempt_index(attempts, number) <= attempts.len(),
    decreases attempts.len(),
{
    if attempts.len() > 0 && attempts[0].attempt != number {
        lemma_attempt_index_range(attempts.drop_first(), number);
    }
}

/// An artifact that is promoted or deleted lies in the directory of its own task,
/// right below that of all artifacts, and is the one that its task records; what is
/// promoted is that record.
pub proof fn artifacts_stay_in_their_task(
    queue: QueueView,
    task_id: Seq<char>,
    attempt: u32,
    place: ArtifactPlace,
)
    requires
        resolution(queue, task_id, attempt, place) is Ok,
    ensures
        place.root is Ok && place.artifact is Ok && place.is_file,
        ({
            let root = place.root->Ok_0@;
            let artifact = place.artifact->Ok_0@;
            &&& resolution(queue, task_id, attempt, place) == Ok::<Seq<char>, Seq<char>>(artifact)
            &&& paths::within(artifact, paths::joined(root, task_id))
            &&& paths::names(paths::joined(root, task_id)) == paths::names(root).push(task_id)
            &&& promotion(queue, task_id, attempt) matches Ok(run) && run.task.attempts.len() == 1
                && run.task.attempts[0].artifact == recorded_artifact(queue, task_id, attempt)
                && run.task.attempts[0].attempt == attempt
        }),
{
    let root = place.root->Ok_0@;
    assert(!task_id.contains('/')) by {
        assert forall|i: int| 0 <= i < task_id.len() implies task_id[i] != '/' by {
            assert(story_plan::flag_char(task_id[i]));
        }
    }
    assert(task_id != "."@) by {
        reveal_strlit(".");
        assert(story_plan::flag_char(task_id[0]));
    }
    paths::lemma_single_part(task_id);
    paths::lemma_names_joined(root, task_id);
    assert(paths::names(root) + seq![task_id] =~= paths::names(root).push(task_id));
    let i = task_index(queue.tasks, task_id);
    let attempts = queue.tasks[i].attempts;
    lemma_recorded_is_promoted(attempts, attempt);
    lemma_attempt_at(attempts, attempt);
}

proof fn lemma_attempt_at(attempts: Seq<AttemptView>, number: u32)
    requires
        attempt_index(attempts, number) < attempts.len(),
    ensures
        0 <= attempt_index(attempts, number),
        attempts[attempt_index(attempts, number)].attempt == number,
    decreases attempts.len(),
{
    if attempts.len() > 0 && attempts[0].attempt != number {
        lemma_attempt_at(attempts.drop_first(), number);
    }
}

/// The journal of a deletion leads back to the artifact, and from inside the project:
/// where the project and the artifact resolve to absolute paths without steps
/// upwards, the path it holds stays below the project and names the artifact there.
pub proof fn deletion_journals_lead_back(
    queue: QueueView,
    task_id: Seq<char>,
    attempt: u32,
    place: ArtifactPlace,
    project: Seq<char>,
    project_root: Result<String, String>,
    staged_exists: bool,
)
    requires
        deletion_fault(
            queue,
            task_id,
            attempt,
            place,
            project,
            project_root,
            staged_exists,
        ) is None,
        paths::absolute(project_root->Ok_0@),
        forall|i: int|
            0 <= i < paths::names(place.artifact->Ok_0@).len() ==> #[trigger] paths::names(
                place.artifact->Ok_0@,
            )[i] != ".."@,
    ensures
        ({
            let root = project_root->Ok_0@;
            let artifact = place.artifact->Ok_0@;
            let original = paths::below(artifact, root);
            &&& paths::descending(original)
            &&& paths::same_path(paths::joined(root, original), artifact)
        }),
{
    paths::stripped_paths_lead_back(place.artifact->Ok_0@, project_root->Ok_0@);
}

/// The staging place is inside the project.
proof fn lemma_staging_place()
    ensures
        paths::descending(STAGED_ARTIFACT@),
{
    reveal_strlit(".ollaic/assets/transaction-artifact");
    reveal_strlit(".");
    reveal_strlit("..");
    reveal_with_fuel(text::split_on, 3);
    reveal_with_fuel(paths::naming_parts, 4);
    let path = STAGED_ARTIFACT@;
    text::lemma_index_of_unique(path, '/', 7);
    let below = path.skip(8);
    text::lemma_index_of_unique(below, '/', 6);
    let last = below.skip(7);
    text::lemma_index_of_unique(last, '/', last.len() as int);
    let parts = text::split_on(path, '/');
    assert(parts =~= seq![path.take(7), below.take(6), last]);
    assert(parts[0].len() == 7 && parts[1].len() == 6 && parts[2].len() == 20);
}

// ---------------------------------------------------------------------------
// What is selected, kept and forgotten
// ---------------------------------------------------------------------------

/// A task is found by its id and an attempt by its number, each the first of that name;
/// what is promoted is the first attempt of the number that made something.
pub proof fn tasks_and_attempts_are_found_by_name(
    tasks: Seq<AssetTaskView>,
    id: Seq<char>,
    attempts: Seq<AttemptView>,
    number: u32,
)
    ensures
        ({
            let i = task_index(tasks, id);
            &&& 0 <= i <= tasks.len()
            &&& i < tasks.len() ==> tasks[i].id == id
            &&& forall|j: int| 0 <= j < i ==> (#[trigger] tasks[j]).id != id
        }),
        ({
            let k = attempt_index(attempts, number);
            &&& 0 <= k <= attempts.len()
            &&& k < attempts.len() ==> attempts[k].attempt == number
            &&& forall|j: int| 0 <= j < k ==> (#[trigger] attempts[j]).attempt != number
        }),
        ({
            let k = artifact_index(attempts, number);
            &&& 0 <= k <= attempts.len()
            &&& k < attempts.len() ==> attempts[k].attempt == number && attempts[k].artifact is Some
            &&& forall|j: int|
                0 <= j < k ==> !((#[trigger] attempts[j]).attempt == number
                    && attempts[j].artifact is Some)
        }),
    decreases tasks.len() + attempts.len(),
{
    if tasks.len() > 0 && tasks[0].id != id {
        let t = tasks.drop_first();
        tasks_and_attempts_are_found_by_name(t, id, Seq::empty(), number);
        assert forall|j: int| 0 <= j < task_index(tasks, id) implies (#[trigger] tasks[j]).id != id by {
            if j > 0 {
                assert(t[j - 1].id != id);
            }
        }
    }
    if attempts.len() > 0 {
        let t = attempts.drop_first();
        tasks_and_attempts_are_found_by_name(Seq::empty(), id, t, number);
        if attempts[0].attempt != number {
            assert forall|j: int| 0 <= j < attempt_index(attempts, number) implies (
            #[trigger] attempts[j]).attempt != number by {
                if j > 0 {
                    assert(t[j - 1].attempt != number);
                }
            }
        }
        if !(attempts[0].attempt == number && attempts[0].artifact is Some) {
            assert forall|j: int| 0 <= j < artifact_index(attempts, number) implies !((
            #[trigger] attempts[j]).attempt == number && attempts[j].artifact is Some) by {
                if j > 0 {
                    assert(!(t[j - 1].attempt == number && t[j - 1].artifact is Some));
                }
            }
        }
    }
}

/// The artifact of an attempt is the one that its task records for that attempt, and no
/// other.
pub proof fn artifacts_are_recorded_by_attempt(
    queue: QueueView,
    id: Seq<char>,
    number: u32,
    i: int,
    k: int,
)
    requires
        0 <= i < queue.tasks.len(),
        queue.tasks[i].id == id,
        forall|j: int| 0 <= j < i ==> (#[trigger] queue.tasks[j]).id != id,
        0 <= k < queue.tasks[i].attempts.len(),
        queue.tasks[i].attempts[k].attempt == number,
        forall|j: int| 0 <= j < k ==> (#[trigger] queue.tasks[i].attempts[j]).attempt != number,
    ensures
        recorded_artifact(queue, id, number) == queue.tasks[i].attempts[k].artifact,
        queue.tasks[i].attempts[k].artifact is Some ==> {
            &&& promotion(queue, id, number) matches Ok(run)
            &&& run.queue == queue && run.index == i && run.promoting
            &&& run.task.attempts == seq![queue.tasks[i].attempts[k]]
            &&& run.task.used_local_fallback == queue.tasks[i].attempts[k].used_local_fallback
            &&& run.task.id == id && run.task.kind == queue.tasks[i].kind
        },
{
    let attempts = queue.tasks[i].attempts;
    tasks_and_attempts_are_found_by_name(queue.tasks, id, attempts, number);
    let a = task_index(queue.tasks, id);
    if a < i {
        assert(queue.tasks[a].id != id);
    }
    if i < a {
        assert(queue.tasks[i].id != id);
    }
    let b = attempt_index(attempts, number);
    if b < k {
        assert(attempts[b].attempt != number);
    }
    if k < b {
        assert(attempts[k].attempt != number);
    }
    let c = artifact_index(attempts, number);
    if attempts[k].artifact is Some {
        if c < k {
            assert(attempts[c].attempt != number);
        }
        if k < c {
            assert(!(attempts[k].attempt == number && attempts[k].artifact is Some));
        }
    }
}

/// Forgetting an artifact takes it from its attempt and from nothing else: every other
/// attempt and every other task is as it was.
pub proof fn forgotten_artifacts_leave_the_rest(
    queue: QueueView,
    id: Seq<char>,
    number: u32,
    now: u64,
    t: int,
    a: int,
)
    requires
        queue_without(queue, id, number, now) is Ok,
        0 <= t < queue.tasks.len(),
        0 <= a < queue.tasks[t].attempts.len(),
    ensures
        ({
            let after = queue_without(queue, id, number, now)->Ok_0;
            let i = task_index(queue.tasks, id);
            let k = attempt_index(queue.tasks[i].attempts, number);
            &&& after.tasks.len() == queue.tasks.len()
            &&& after.tasks[t].attempts.len() == queue.tasks[t].attempts.len()
            &&& t != i ==> after.tasks[t] == queue.tasks[t]
            &&& t == i && a != k ==> after.tasks[t].attempts[a] == queue.tasks[t].attempts[a]
            &&& t == i && a == k ==> after.tasks[t].attempts[a] == (AttemptView {
                artifact: None,
                ..queue.tasks[t].attempts[a]
            })
            &&& after.tasks[t] == (AssetTaskView {
                attempts: after.tasks[t].attempts,
                ..queue.tasks[t]
            })
        }),
{
    let i = task_index(queue.tasks, id);
    tasks_and_attempts_are_found_by_name(queue.tasks, id, queue.tasks[i].attempts, number);
}

/// A bound task has succeeded with its file and without a fault, and says whether what
/// was bound was made locally: whether the last attempt that made something did.
pub proof fn bound_tasks_say_what_they_are_bound_to(
    task: AssetTaskView,
    filename: Seq<char>,
    attempts: Seq<AttemptView>,
    k: int,
)
    requires
        0 <= k < attempts.len(),
        attempts[k].artifact is Some,
        forall|j: int| k < j < attempts.len() ==> (#[trigger] attempts[j]).artifact is None,
    ensures
        newest_is_local(attempts) == attempts[k].used_local_fallback,
        ({
            let after = bound(task, filename, newest_is_local(attempts));
            &&& after.status == AssetTaskStatus::Succeeded
            &&& after.asset_file == Some(filename)
            &&& after.error is None
            &&& after.used_local_fallback == attempts[k].used_local_fallback
            &&& after.attempts == task.attempts && after.id == task.id
        }),
    decreases attempts.len(),
{
    if k < attempts.len() - 1 {
        assert(attempts[attempts.len() - 1].artifact is None);
        let d = attempts.drop_last();
        assert forall|j: int| k < j < d.len() implies (#[trigger] d[j]).artifact is None by {
            assert(attempts[j].artifact is None);
        }
        bound_tasks_say_what_they_are_bound_to(task, filename, d, k);
    }
}

/// Every rollback that failed is told of: a message is reported exactly where some
/// rollback failed with it, and what went well adds none.
pub proof fn failed_rollbacks_are_told_of(results: Seq<Result<(), String>>, m: Seq<char>)
    ensures
        failures(results).contains(m) <==> exists|i: int|
            0 <= i < results.len() && (#[trigger] results[i]) is Err && results[i]->Err_0@ == m,
        failures(results).len() == 0 <==> forall|i: int|
            0 <= i < results.len() ==> (#[trigger] results[i]) is Ok,
    decreases results.len(),
{
    if results.len() > 0 {
        let d = results.drop_last();
        let last = results.len() - 1;
        failed_rollbacks_are_told_of(d, m);
        let before = failures(d);
        let all = failures(results);
        assert forall|i: int| 0 <= i < d.len() implies d[i] == #[trigger] results[i] by {}
        if before.contains(m) {
            let i = choose|i: int| 0 <= i < before.len() && before[i] == m;
            assert(all[i] == m);
            let j = choose|j: int|
                0 <= j < d.len() && (#[trigger] d[j]) is Err && d[j]->Err_0@ == m;
            assert(results[j] is Err);
        }
        if all.contains(m) {
            let i = choose|i: int| 0 <= i < all.len() && all[i] == m;
            if i < before.len() {
                assert(before[i] == m);
            } else {
                assert(results[last] is Err);
            }
        }
        if exists|i: int|
            0 <= i < results.len() && (#[trigger] results[i]) is Err && results[i]->Err_0@ == m {
            let i = choose|i: int|
                0 <= i < results.len() && (#[trigger] results[i]) is Err && results[i]->Err_0@ == m;
            if i < last {
                assert(d[i] is Err);
            } else {
                assert(all[before.len() as int] == m);
            }
        }
        if all.len() == 0 {
            assert forall|i: int| 0 <= i < results.len() implies (#[trigger] results[i]) is Ok by {
                if i < last {
                    assert(d[i] is Ok);
                }
            }
        } else if before.len() > 0 {
            let i = choose|i: int| 0 <= i < d.len() && !((#[trigger] d[i]) is Ok);
            assert(!(results[i] is Ok));
        } else {
            assert(!(results[last] is Ok));
        }
    }
}

/// A task whose binding could not be carried out has failed and says why; the queue is
/// otherwise as it was.
pub proof fn bound_and_failed_queues_differ_in_one_task(
    run: BindingRunView,
    filename: Seq<char>,
    error: Seq<char>,
    now: u64,
    j: int,
)
    requires
        run.wf(),
        0 <= j < run.queue.tasks.len(),
        j != run.index,
    ensures
        queue_bound(run, filename, now).tasks[j] == run.queue.tasks[j],
        queue_failed(run, error, now).tasks[j] == run.queue.tasks[j],
        queue_bound(run, filename, now).tasks[run.index].status == AssetTaskStatus::Succeeded,
        queue_bound(run, filename, now).tasks[run.index].asset_file == Some(filename),
        queue_failed(run, error, now).tasks[run.index].status == AssetTaskStatus::Failed,
        queue_failed(run, error, now).tasks[run.index].error matches Some(m) && text::ends(m, error),
{
    text::parts_of_a_text_are_found("binding failed: "@, error, Seq::empty(), error);
}

/// A task that an artifact was promoted for has that attempt alone, was made locally where the
/// attempt was, and is otherwise as it was; an attempt is named by its task and its number.
pub proof fn promoted_tasks_keep_one_attempt(task: AssetTaskView, k: int, number: u32)
    requires
        0 <= k < task.attempts.len(),
    ensures
        promoted(task, k).attempts.len() == 1,
        promoted(task, k).attempts[0] == task.attempts[k],
        promoted(task, k).used_local_fallback == task.attempts[k].used_local_fallback,
        promoted(task, k).id == task.id && promoted(task, k).kind == task.kind && promoted(
            task,
            k,
        ).target_stem == task.target_stem && promoted(task, k).prompt == task.prompt && promoted(
            task,
            k,
        ).scene_ref == task.scene_ref && promoted(task, k).character_ref == task.character_ref
            && promoted(task, k).emotion == task.emotion && promoted(task, k).dialogue_index
            == task.dialogue_index && promoted(task, k).text == task.text && promoted(task, k).status
            == task.status && promoted(task, k).asset_file == task.asset_file && promoted(
            task,
            k,
        ).error == task.error,
        attempt_name(task.id, number) == task.id + "/"@ + text::decimal(number as nat),
{
}

/// An artifact is resolved where its task's id is one that tasks have, an attempt of the task
/// recorded it, and what stands at its place is a file in the task's own directory; else the first of
/// these that fails is told.
pub proof fn artifacts_are_resolved_within_their_task(
    queue: QueueView,
    id: Seq<char>,
    number: u32,
    place: ArtifactPlace,
)
    ensures
        resolution(queue, id, number, place) is Ok <==> story_plan::flag_value(id)
            && recorded_artifact(queue, id, number) is Some && place.root is Ok && place.artifact
            is Ok && place.is_file && paths::within(
            place.artifact->Ok_0@,
            paths::joined(place.root->Ok_0@, id),
        ),
        resolution(queue, id, number, place) is Ok ==> resolution(queue, id, number, place)->Ok_0
            == place.artifact->Ok_0@,
        !story_plan::flag_value(id) ==> resolution(queue, id, number, place)->Err_0
            == "invalid asset task id: "@ + id,
        story_plan::flag_value(id) && recorded_artifact(queue, id, number) is None ==> resolution(
            queue,
            id,
            number,
            place,
        )->Err_0 == "asset artifact not found: "@ + (id + "/"@ + text::decimal(number as nat)),
        story_plan::flag_value(id) && recorded_artifact(queue, id, number) is Some && place.root
            is Err ==> resolution(queue, id, number, place)->Err_0
            == "failed to resolve artifact root: "@ + place.root->Err_0@,
        story_plan::flag_value(id) && recorded_artifact(queue, id, number) is Some && place.root
            is Ok && place.artifact is Err ==> resolution(queue, id, number, place)->Err_0
            == "failed to resolve artifact: "@ + place.artifact->Err_0@,
{
}

/// An artifact is promoted in the first task of the id, from the first attempt of the number that has
/// one; where there is no such task or attempt, that is told.
pub proof fn artifacts_are_promoted_in_their_task(queue: QueueView, id: Seq<char>, number: u32)
    ensures
        ({
            let i = task_index(queue.tasks, id);
            let k = artifact_index(queue.tasks[i].attempts, number);
            let r = promotion(queue, id, number);
            &&& r is Ok <==> i < queue.tasks.len() && k < queue.tasks[i].attempts.len()
            &&& r is Ok ==> r->Ok_0.queue == queue && r->Ok_0.index == i && r->Ok_0.promoting
                && r->Ok_0.task == promoted(queue.tasks[i], k)
            &&& i >= queue.tasks.len() ==> r->Err_0 == "asset task not found: "@ + id
            &&& i < queue.tasks.len() && k >= queue.tasks[i].attempts.len() ==> r->Err_0
                == "asset artifact not found: "@ + (id + "/"@ + text::decimal(number as nat))
        }),
{
}

/// A deletion writes its journal, sets the artifact aside, saves the queue without it, clears the
/// journal and only then removes what was set aside. Where the queue cannot be saved it is recovered
/// and fails; every other step that fails ends it with its message.
pub proof fn deletions_remove_the_file_last(
    removed: Result<QueueView, Seq<char>>,
    q: QueueView,
    m: Seq<char>,
    e: String,
    result: Result<(), String>,
)
    ensures
        next_deletion(removed, DeletionView::Journalling, Ok(())) is Staging,
        removed is Ok ==> next_deletion(removed, DeletionView::Staging, Ok(()))
            == DeletionView::Saving(removed->Ok_0),
        removed is Err ==> next_deletion(removed, DeletionView::Staging, Ok(()))
            == DeletionView::Done(Err(removed->Err_0)),
        next_deletion(removed, DeletionView::Saving(q), Ok(())) == DeletionView::ClearingJournal(q),
        next_deletion(removed, DeletionView::ClearingJournal(q), Ok(()))
            == DeletionView::RemovingStaged(q),
        next_deletion(removed, DeletionView::RemovingStaged(q), result) == DeletionView::Done(Ok(q)),
        next_deletion(removed, DeletionView::Journalling, Err(e)) == DeletionView::Done(Err(e@)),
        next_deletion(removed, DeletionView::Staging, Err(e)) == DeletionView::Done(Err(e@)),
        next_deletion(removed, DeletionView::Saving(q), Err(e)) == DeletionView::Recovering(e@),
        next_deletion(removed, DeletionView::ClearingJournal(q), Err(e)) == DeletionView::Done(
            Err(e@),
        ),
        next_deletion(removed, DeletionView::Recovering(m), result) == DeletionView::Done(
            Err("failed to persist artifact deletion: "@ + m + suffix_of(result)),
        ),
{
}

/// An artifact is deleted where it can be resolved, lies in the project and nothing is left set aside
/// from before.
pub proof fn artifacts_are_deleted_within_the_project(
    queue: QueueView,
    id: Seq<char>,
    number: u32,
    place: ArtifactPlace,
    project: Seq<char>,
    project_root: Result<String, String>,
    staged_exists: bool,
)
    ensures
        ({
            let found = resolution(queue, id, number, place);
            let fault = deletion_fault(
                queue,
                id,
                number,
                place,
                project,
                project_root,
                staged_exists,
            );
            &&& fault is None <==> found is Ok && project_root is Ok && paths::within(
                found->Ok_0,
                project_root->Ok_0@,
            ) && !staged_exists
            &&& found is Err ==> fault == Some(found->Err_0)
            &&& found is Ok && project_root is Err ==> fault == Some(
                "failed to resolve project root: "@ + project_root->Err_0@,
            )
            &&& found is Ok && project_root is Ok && !paths::within(
                found->Ok_0,
                project_root->Ok_0@,
            ) ==> fault == Some("artifact is outside the project"@)
        }),
{
}

/// A binding takes a snapshot, writes its journal, binds, saves the queue with the task bound, clears
/// the journal and deletes the snapshot; it is done with the queue that it saved.
pub proof fn bindings_are_journalled_before_they_are_made(
    run: BindingRunView,
    id: String,
    filename: String,
    q: QueueView,
    now: u64,
    result: Result<(), String>,
)
    ensures
        next_binding(run, BindingView::Snapshotting, BindingEvent::Snapshot(Ok(id)), now)
            == BindingView::Journalling(id@),
        next_binding(run, BindingView::Journalling(id@), BindingEvent::Finished(Ok(())), now)
            == BindingView::Binding(id@),
        next_binding(run, BindingView::Binding(id@), BindingEvent::Bound(Ok(filename)), now)
            == BindingView::Saving(id@, queue_bound(run, filename@, now)),
        next_binding(run, BindingView::Saving(id@, q), BindingEvent::Finished(Ok(())), now)
            == BindingView::ClearingJournal(id@, q),
        next_binding(run, BindingView::ClearingJournal(id@, q), BindingEvent::Finished(Ok(())), now)
            == BindingView::DeletingSnapshot(id@, q),
        next_binding(run, BindingView::DeletingSnapshot(id@, q), BindingEvent::Finished(result), now)
            == BindingView::Done(Ok(q)),
{
}

/// A binding that cannot be made is recovered, and a task that was generated is then saved as failed,
/// while a promotion fails; one whose queue cannot be saved is rolled back, its queue put back and
/// recovered, and fails with what came of each.
pub proof fn failed_bindings_are_undone(
    run: BindingRunView,
    id: Seq<char>,
    q: QueueView,
    m: Seq<char>,
    e: String,
    now: u64,
    files: Result<(), String>,
    result: Result<(), String>,
)
    ensures
        next_binding(run, BindingView::Snapshotting, BindingEvent::Snapshot(Err(e)), now)
            == BindingView::Done(Err(e@)),
        next_binding(run, BindingView::Journalling(id), BindingEvent::Finished(Err(e)), now)
            == BindingView::Discarding(id, e@),
        next_binding(run, BindingView::Discarding(id, m), BindingEvent::Finished(result), now)
            == BindingView::Done(Err(m)),
        next_binding(run, BindingView::Binding(id), BindingEvent::Bound(Err(e)), now)
            == BindingView::Recovering(true, e@),
        next_binding(run, BindingView::Saving(id, q), BindingEvent::Finished(Err(e)), now)
            == BindingView::RollingBack(e@),
        next_binding(run, BindingView::RollingBack(m), BindingEvent::Finished(files), now)
            == BindingView::RestoringQueue(m, files),
        next_binding(
            run,
            BindingView::RestoringQueue(m, files),
            BindingEvent::Finished(result),
            now,
        ) == BindingView::Recovering(false, persistence_message(m, files, result)),
        !run.promoting ==> next_binding(
            run,
            BindingView::Recovering(true, m),
            BindingEvent::Finished(Ok(())),
            now,
        ) == BindingView::SavingFailed(queue_failed(run, m, now)),
        run.promoting || result is Err ==> next_binding(
            run,
            BindingView::Recovering(true, m),
            BindingEvent::Finished(result),
            now,
        ) == BindingView::Done(Err(m + suffix_of(result))),
        next_binding(
            run,
            BindingView::Recovering(false, m),
            BindingEvent::Finished(result),
            now,
        ) == BindingView::Done(Err(m + suffix_of(result))),
        next_binding(run, BindingView::SavingFailed(q), BindingEvent::Finished(Ok(())), now)
            == BindingView::Done(Ok(q)),
        next_binding(run, BindingView::SavingFailed(q), BindingEvent::Finished(Err(e)), now)
            == BindingView::Done(Err(e@)),
        next_binding(run, BindingView::ClearingJournal(id, q), BindingEvent::Finished(Err(e)), now)
            == BindingView::Done(Err(e@)),
        files is Ok && result is Ok ==> persistence_message(m, files, result)
            == "failed to persist bound asset queue: "@ + m,
        files is Err && result is Ok ==> persistence_message(m, files, result)
            == "failed to persist bound asset queue: "@ + m + ("; rollback failed: "@
            + files->Err_0@),
        files is Ok && result is Err ==> persistence_message(m, files, result)
            == "failed to persist bound asset queue: "@ + m + ("; rollback failed: "@
            + result->Err_0@),
{
    let both = seq![files, result];
    reveal_with_fuel(failures, 3);
    assert(both.drop_last() =~= seq![files]);
    assert(both.drop_first() =~= seq![result]);
    assert(seq![files].drop_last() =~= Seq::<Result<(), String>>::empty());
    assert(seq![result].drop_first() =~= Seq::<Result<(), String>>::empty());
    let head = "failed to persist bound asset queue: "@ + m;
    assert(head + Seq::<char>::empty() =~= head);
    reveal_with_fuel(text::join_with, 2);
    if files is Err && result is Ok {
        assert(failures(both) =~= seq![files->Err_0@]);
        assert(text::join_with(seq![files->Err_0@], "; "@) =~= files->Err_0@);
    }
    if files is Ok && result is Err {
        assert(failures(both) =~= seq![result->Err_0@]);
        assert(text::join_with(seq![result->Err_0@], "; "@) =~= result->Err_0@);
    }
    if files is Ok && result is Ok {
        assert(failures(both).len() == 0);
    }
}

/// A recovery without a journal clears what was set aside; with one of the version that is written it
/// restores the snapshot where there is one, then the queue, and then the artifact that was set
/// aside, whose paths must stay inside of the project.
pub proof fn recoveries_restore_in_order(
    project: Seq<char>,
    p: PendingView,
    e: Seq<char>,
    failure: Option<Seq<char>>,
)
    ensures
        next_recovery(project, RecoveryView::Reading, RecoveryEventView::NoJournal)
            is CleaningStaging,
        next_recovery(project, RecoveryView::Reading, RecoveryEventView::Unreadable(e))
            == RecoveryView::Done(Some(e)),
        p.version != 1 ==> next_recovery(project, RecoveryView::Reading, RecoveryEventView::Journal(p))
            == RecoveryView::Done(
            Some("unsupported asset transaction version "@ + text::decimal(p.version as nat)),
        ),
        p.version == 1 && p.rollback_snapshot is Some ==> next_recovery(
            project,
            RecoveryView::Reading,
            RecoveryEventView::Journal(p),
        ) == RecoveryView::RestoringSnapshot(p),
        p.version == 1 && p.rollback_snapshot is None ==> next_recovery(
            project,
            RecoveryView::Reading,
            RecoveryEventView::Journal(p),
        ) == RecoveryView::RestoringQueue(p),
        next_recovery(
            project,
            RecoveryView::RestoringSnapshot(p),
            RecoveryEventView::Finished(None),
        ) == RecoveryView::RestoringQueue(p),
        next_recovery(
            project,
            RecoveryView::RestoringSnapshot(p),
            RecoveryEventView::Finished(Some(e)),
        ) == RecoveryView::Done(Some("failed to restore asset transaction snapshot: "@ + e)),
        next_recovery(
            project,
            RecoveryView::RestoringQueue(p),
            RecoveryEventView::Finished(Some(e)),
        ) == RecoveryView::Done(Some("failed to restore asset transaction queue: "@ + e)),
        p.staged_artifact is None ==> next_recovery(
            project,
            RecoveryView::RestoringQueue(p),
            RecoveryEventView::Finished(None),
        ) == RecoveryView::ClearingJournal(p),
        p.staged_artifact is Some ==> (next_recovery(
            project,
            RecoveryView::RestoringQueue(p),
            RecoveryEventView::Finished(None),
        ) == RecoveryView::Locating(p) <==> paths::descending(p.staged_artifact.unwrap().0)
            && paths::descending(p.staged_artifact.unwrap().1)),
        next_recovery(project, RecoveryView::Locating(p), RecoveryEventView::Located(false, true))
            == RecoveryView::MovingBack(p),
        next_recovery(project, RecoveryView::Locating(p), RecoveryEventView::Located(true, true))
            is Done,
        next_recovery(project, RecoveryView::Locating(p), RecoveryEventView::Located(false, false))
            is Done,
        next_recovery(project, RecoveryView::CleaningStaging, RecoveryEventView::Finished(failure))
            == RecoveryView::Done(failure),
{
}

/// What a change of the queue gives is seen as the queue, or as its message.
pub proof fn outcomes_are_seen_as_they_are(r: Result<AssetQueue, String>)
    ensures
        r is Ok ==> outcome(r) == Ok::<QueueView, Seq<char>>(r->Ok_0@),
        r is Err ==> outcome(r) == Err::<QueueView, Seq<char>>(r->Err_0@),
{
}

/// A recovery that moved the artifact back, or found it in its place, clears the journal, and only
/// then removes what was set aside and the snapshot; whether those go does not matter any more.
pub proof fn recoveries_clear_up_last(
    project: Seq<char>,
    p: PendingView,
    e: Seq<char>,
    failure: Option<Seq<char>>,
)
    ensures
        next_recovery(project, RecoveryView::Locating(p), RecoveryEventView::Located(true, false))
            == RecoveryView::ClearingJournal(p),
        next_recovery(project, RecoveryView::MovingBack(p), RecoveryEventView::Finished(None))
            == RecoveryView::ClearingJournal(p),
        next_recovery(project, RecoveryView::MovingBack(p), RecoveryEventView::Finished(Some(e)))
            == RecoveryView::Done(Some(e)),
        next_recovery(project, RecoveryView::ClearingJournal(p), RecoveryEventView::Finished(Some(e)))
            == RecoveryView::Done(Some(e)),
        p.staged_artifact is Some ==> next_recovery(
            project,
            RecoveryView::ClearingJournal(p),
            RecoveryEventView::Finished(None),
        ) == RecoveryView::RemovingStaged(p),
        p.staged_artifact is None && p.rollback_snapshot is Some ==> next_recovery(
            project,
            RecoveryView::ClearingJournal(p),
            RecoveryEventView::Finished(None),
        ) == RecoveryView::DeletingSnapshot(p),
        p.staged_artifact is None && p.rollback_snapshot is None ==> next_recovery(
            project,
            RecoveryView::ClearingJournal(p),
            RecoveryEventView::Finished(None),
        ) == RecoveryView::Done(None),
        p.rollback_snapshot is Some ==> next_recovery(
            project,
            RecoveryView::RemovingStaged(p),
            RecoveryEventView::Finished(failure),
        ) == RecoveryView::DeletingSnapshot(p),
        p.rollback_snapshot is None ==> next_recovery(
            project,
            RecoveryView::RemovingStaged(p),
            RecoveryEventView::Finished(failure),
        ) == RecoveryView::Done(None),
        next_recovery(project, RecoveryView::DeletingSnapshot(p), RecoveryEventView::Finished(failure))
            == RecoveryView::Done(None),
{
}

} // verus!
