//! The decisions of a queue run: which tasks run, how often each is tried, and
//! what becomes of the queue on the way. Generating, binding and saving are
//! done by the caller, who reports what came of them.
use vstd::prelude::*;

use crate::agents::router;
use crate::asset_queue::types;
use crate::asset_queue::types::{
    AssetAttempt, AssetKind, AssetQueue, AssetTask, AssetTaskStatus, AssetTaskView, AttemptView,
    QueueLimits, QueueView,
};
use crate::story_plan;
use crate::text;

verus! {

broadcast use vstd::string::group_string_axioms;

pub const ASSET_QUEUE_CANCELLED: &'static str = "asset queue cancelled";

/// What a generator made for a task.
#[derive(Debug, PartialEq, Eq)]
pub struct GeneratedArtifact {
    pub extension: String,
    pub bytes: Vec<u8>,
    pub used_local_fallback: bool,
}

// ---------------------------------------------------------------------------
// Checks
// ---------------------------------------------------------------------------

pub open spec fn limits_positive(limits: QueueLimits) -> bool {
    limits.image > 0 && limits.tts > 0 && limits.music > 0
}

/// Refuses a queue that could run no task of some capability.
pub fn validate_limits(queue: &AssetQueue) -> (r: Result<(), String>)
    ensures
        match r {
            Ok(_) => limits_positive(queue.limits),
            Err(m) => !limits_positive(queue.limits) && m@
                == "asset queue concurrency limits must be greater than zero"@,
        },
{
    if queue.limits.image == 0 || queue.limits.tts == 0 || queue.limits.music == 0 {
        return Err(text::copy("asset queue concurrency limits must be greater than zero"));
    }
    Ok(())
}

/// Refuses a task id that could not be a directory's name.
pub fn validate_component(value: &str) -> (r: Result<(), String>)
    ensures
        match r {
            Ok(_) => story_plan::flag_value(value@),
            Err(m) => !story_plan::flag_value(value@) && m@ == "invalid asset task id: "@ + value@,
        },
{
    if !story_plan::is_webgal_flag_value(value) {
        return Err(router::joined("invalid asset task id: ", value));
    }
    Ok(())
}

/// A file extension: ASCII letters and digits, at least one.
pub open spec fn plain_extension(s: Seq<char>) -> bool {
    s.len() > 0 && forall|i: int| 0 <= i < s.len() ==> text::ascii_alphanumeric(#[trigger] s[i])
}

pub fn is_plain_extension(value: &str) -> (r: bool)
    ensures
        r == plain_extension(value@),
{
    let v = text::chars_of(value);
    let mut i: usize = 0;
    while i < v.len()
        invariant
            i <= v.len(),
            v@ == value@,
            forall|j: int| 0 <= j < i ==> text::ascii_alphanumeric(#[trigger] value@[j]),
        decreases v.len() - i,
    {
        if !text::is_ascii_alphanumeric(v[i]) {
            assert(!text::ascii_alphanumeric(value@[i as int]));
            return false;
        }
        i += 1;
    }
    v.len() > 0
}

/// Refuses an extension that could change the path of an artifact.
pub fn validate_extension(value: &str) -> (r: Result<(), String>)
    ensures
        match r {
            Ok(_) => plain_extension(value@),
            Err(m) => !plain_extension(value@) && m@ == "invalid generated artifact extension: "@
                + value@,
        },
{
    if !is_plain_extension(value) {
        return Err(router::joined("invalid generated artifact extension: ", value));
    }
    Ok(())
}

/// Where the artifact of an attempt is kept, below the project's root.
pub open spec fn artifact_path(task_id: Seq<char>, attempt: u32, extension: Seq<char>) -> Seq<char> {
    ".ollaic/artifacts/assets/"@ + task_id + "/"@ + text::decimal(attempt as nat) + "."@ + extension
}

/// Where to write what a generator made, if it may be written at all.
pub fn write_artifact(task: &AssetTask, attempt: u32, extension: &str) -> (r: Result<
    String,
    String,
>)
    ensures
        match r {
            Ok(path) => plain_extension(extension@) && story_plan::flag_value(task.id@) && path@
                == artifact_path(task.id@, attempt, extension@),
            Err(m) => if !plain_extension(extension@) {
                m@ == "invalid generated artifact extension: "@ + extension@
            } else {
                !story_plan::flag_value(task.id@) && m@ == "invalid asset task id: "@ + task.id@
            },
        },
{
    if let Err(m) = validate_extension(extension) {
        return Err(m);
    }
    if let Err(m) = validate_component(task.id.as_str()) {
        return Err(m);
    }
    let mut s = text::copy(".ollaic/artifacts/assets/");
    s.append(task.id.as_str());
    s.append("/");
    s.append(text::decimal_of(attempt as u128).as_str());
    s.append(".");
    s.append(extension);
    Ok(s)
}

// ---------------------------------------------------------------------------
// Lanes
// ---------------------------------------------------------------------------

/// The capability that a task takes up while it runs.
#[derive(Debug, Clone, Copy, PartialEq, Eq, Structural)]
pub enum Lane {
    Image,
    Tts,
    Music,
}

pub open spec fn lane_of(kind: AssetKind) -> Lane {
    match kind {
        AssetKind::Background => Lane::Image,
        AssetKind::Figure => Lane::Image,
        AssetKind::Tts => Lane::Tts,
        AssetKind::Bgm => Lane::Music,
        AssetKind::Sfx => Lane::Music,
    }
}

pub open spec fn lane_limit(limits: QueueLimits, lane: Lane) -> usize {
    match lane {
        Lane::Image => limits.image,
        Lane::Tts => limits.tts,
        Lane::Music => limits.music,
    }
}

/// The lane of a task, and how many tasks may run in it at once.
pub fn lane(kind: AssetKind, limits: &QueueLimits) -> (r: (Lane, usize))
    ensures
        r.0 == lane_of(kind),
        r.1 == lane_limit(*limits, lane_of(kind)),
{
    match kind {
        AssetKind::Background | AssetKind::Figure => (Lane::Image, limits.image),
        AssetKind::Tts => (Lane::Tts, limits.tts),
        AssetKind::Bgm | AssetKind::Sfx => (Lane::Music, limits.music),
    }
}

// ---------------------------------------------------------------------------
// Before the run
// ---------------------------------------------------------------------------

/// Notes that a finished task could not be bound again.
pub fn note_rebind(queue: &mut AssetQueue, index: usize, result: Result<(), String>)
    requires
        index < old(queue).tasks.len(),
    ensures
        match result {
            Ok(_) => final(queue)@ == old(queue)@,
            Err(m) => final(queue)@ == (QueueView {
                tasks: old(queue)@.tasks.update(
                    index as int,
                    AssetTaskView {
                        status: AssetTaskStatus::Failed,
                        error: Some("rebinding failed: "@ + m@),
                        ..old(queue)@.tasks[index as int]
                    },
                ),
                ..old(queue)@
            }),
        },
{
    if let Err(m) = result {
        let ghost before = queue@;
        let task = &mut queue.tasks[index];
        task.status = AssetTaskStatus::Failed;
        task.error = Some(router::joined("rebinding failed: ", m.as_str()));
        assert(queue@.tasks =~= before.tasks.update(index as int, queue.tasks@[index as int]@));
    }
}

/// The first finished task at or after `from`, or the number of tasks.
pub open spec fn next_finished(tasks: Seq<AssetTaskView>, from: int) -> int
    decreases tasks.len() - from,
{
    if from >= tasks.len() {
        tasks.len() as int
    } else if tasks[from].status == AssetTaskStatus::Succeeded {
        from
    } else {
        next_finished(tasks, from + 1)
    }
}

pub fn find_finished(queue: &AssetQueue, from: usize) -> (r: usize)
    requires
        from <= queue.tasks.len(),
    ensures
        from <= r <= queue.tasks.len(),
        r == next_finished(queue@.tasks, from as int),
        r < queue.tasks.len() ==> queue@.tasks[r as int].status == AssetTaskStatus::Succeeded,
{
    let mut i: usize = from;
    while i < queue.tasks.len()
        invariant
            from <= i <= queue.tasks.len(),
            next_finished(queue@.tasks, from as int) == next_finished(queue@.tasks, i as int),
        decreases queue.tasks.len() - i,
    {
        assert(queue@.tasks[i as int] == queue.tasks@[i as int]@);
        if queue.tasks[i].status == AssetTaskStatus::Succeeded {
            return i;
        }
        i += 1;
    }
    i
}

/// Whether the queue's tasks leave room to count attempts.
pub open spec fn countable(queue: QueueView) -> bool {
    queue.limits.max_retries < u32::MAX && forall|i: int|
        0 <= i < queue.tasks.len() ==> (#[trigger] queue.tasks[i]).attempts.len()
            + queue.limits.max_retries + 1 < u32::MAX
}

/// Whether a task was held back because its capability was not configured.
pub open spec fn was_blocked(task: AssetTaskView) -> bool {
    task.error is Some && text::begins(task.error->0, "pending configuration:"@)
}

/// How many attempts a task may have in all: a failed or held-back task of the
/// same run gets a full budget on top of what it has used.
pub open spec fn attempt_limit(task: AssetTaskView, same_run: bool, budget: int) -> int {
    if same_run && (task.status == AssetTaskStatus::Failed || was_blocked(task)) {
        task.attempts.len() + budget
    } else {
        budget
    }
}

/// A task as it enters the run.
pub open spec fn entering(task: AssetTaskView, blocked: Option<Seq<char>>) -> AssetTaskView {
    if task.status == AssetTaskStatus::Succeeded {
        task
    } else {
        AssetTaskView {
            status: AssetTaskStatus::Pending,
            error: match blocked {
                Some(m) => Some("pending configuration: "@ + m),
                None => None,
            },
            ..task
        }
    }
}

/// The message of a failed check, if it failed.
pub open spec fn refusal(check: Result<(), String>) -> Option<Seq<char>> {
    match check {
        Ok(_) => None,
        Err(m) => Some(m@),
    }
}

/// The tasks that run, each with its number of attempts: those below `n` that
/// are not finished and whose check passed.
pub open spec fn runnable_upto(
    n: int,
    tasks: Seq<AssetTaskView>,
    same_run: bool,
    budget: int,
    checks: Seq<Result<(), String>>,
) -> Seq<(int, int)>
    decreases n,
{
    if n <= 0 {
        Seq::empty()
    } else {
        let before = runnable_upto(n - 1, tasks, same_run, budget, checks);
        let task = tasks[n - 1];
        if task.status == AssetTaskStatus::Succeeded || checks[n - 1] is Err {
            before
        } else {
            before.push((n - 1, attempt_limit(task, same_run, budget)))
        }
    }
}

/// The models of a list of runnable tasks.
pub open spec fn runnable_views(v: Seq<(usize, u32)>) -> Seq<(int, int)> {
    v.map_values(|p: (usize, u32)| (p.0 as int, p.1 as int))
}

fn starts_blocked(error: &Option<String>) -> (r: bool)
    ensures
        r == (*error is Some && text::begins((*error)->0@, "pending configuration:"@)),
{
    match error {
        Some(m) => text::starts_with(m.as_str(), "pending configuration:"),
        None => false,
    }
}

/// Decides which tasks run. `checks[i]` is what the generator's own check said
/// of the task at `i`; that of a finished task is not read.
pub fn plan_runnable(
    queue: &mut AssetQueue,
    same_run: bool,
    checks: &Vec<Result<(), String>>,
    now: u64,
) -> (r: Vec<(usize, u32)>)
    requires
        checks@.len() == old(queue).tasks@.len(),
        countable(old(queue)@),
    ensures
        runnable_views(r@) == runnable_upto(
            old(queue)@.tasks.len() as int,
            old(queue)@.tasks,
            same_run,
            old(queue)@.limits.max_retries + 1,
            checks@,
        ),
        final(queue)@.tasks.len() == old(queue)@.tasks.len(),
        forall|i: int|
            0 <= i < old(queue)@.tasks.len() ==> #[trigger] final(queue)@.tasks[i] == entering(
                old(queue)@.tasks[i],
                refusal(checks@[i]),
            ),
        final(queue)@ == (QueueView { tasks: final(queue)@.tasks, updated_at: now, ..old(queue)@ }),
{
    let ghost start = queue@;
    let budget: u32 = queue.limits.max_retries + 1;
    let mut runnable: Vec<(usize, u32)> = Vec::new();
    let mut i: usize = 0;
    assert(runnable_views(runnable@) =~= Seq::<(int, int)>::empty());
    while i < queue.tasks.len()
        invariant
            i <= queue.tasks.len(),
            queue@.tasks.len() == start.tasks.len(),
            checks@.len() == start.tasks.len(),
            countable(start),
            budget == start.limits.max_retries + 1,
            queue@ == (QueueView { tasks: queue@.tasks, ..start }),
            forall|j: int|
                0 <= j < i ==> #[trigger] queue@.tasks[j] == entering(
                    start.tasks[j],
                    refusal(checks@[j]),
                ),
            forall|j: int| i <= j < queue@.tasks.len() ==> #[trigger] queue@.tasks[j]
                == start.tasks[j],
            runnable_views(runnable@) =~= runnable_upto(
                i as int,
                start.tasks,
                same_run,
                budget as int,
                checks@,
            ),
        decreases queue.tasks.len() - i,
    {
        let ghost before = queue@;
        let ghost listed = runnable_views(runnable@);
        assert(before.tasks[i as int] == start.tasks[i as int]);
        assert(queue.tasks@[i as int]@ == start.tasks[i as int]);
        if queue.tasks[i].status != AssetTaskStatus::Succeeded {
            match &checks[i] {
                Err(m) => {
                    let task = &mut queue.tasks[i];
                    task.status = AssetTaskStatus::Pending;
                    task.error = Some(router::joined("pending configuration: ", m.as_str()));
                },
                Ok(_) => {
                    let blocked = starts_blocked(&queue.tasks[i].error);
                    let limit: u32 = if same_run && (queue.tasks[i].status
                        == AssetTaskStatus::Failed || blocked) {
                        assert(start.tasks[i as int].attempts.len() == queue.tasks@[i as int].attempts@.len());
                        queue.tasks[i].attempts.len() as u32 + budget
                    } else {
                        budget
                    };
                    let task = &mut queue.tasks[i];
                    task.status = AssetTaskStatus::Pending;
                    task.error = None;
                    runnable.push((i, limit));
                    assert(runnable_views(runnable@) =~= listed.push((i as int, limit as int)));
                },
            }
            assert(queue@.tasks =~= before.tasks.update(i as int, queue.tasks@[i as int]@));
        }
        i += 1;
    }
    queue.updated_at = now;
    runnable
}

// ---------------------------------------------------------------------------
// One task
// ---------------------------------------------------------------------------

/// A task as its next attempt begins.
pub open spec fn attempting(task: AssetTaskView) -> AssetTaskView {
    AssetTaskView {
        status: if task.attempts.len() == 0 {
            AssetTaskStatus::Running
        } else {
            AssetTaskStatus::Retrying
        },
        error: None,
        ..task
    }
}

/// A task whose attempts are used up.
pub open spec fn exhausted(task: AssetTaskView) -> AssetTaskView {
    AssetTaskView {
        status: AssetTaskStatus::Failed,
        error: match task.error {
            Some(m) => Some(m),
            None => Some("retry limit reached"@),
        },
        ..task
    }
}

/// A queue with one task changed.
pub open spec fn with_task(queue: QueueView, index: int, task: AssetTaskView, now: u64) -> QueueView {
    QueueView { tasks: queue.tasks.update(index, task), updated_at: now, ..queue }
}

/// Begins the next attempt at a task and returns its number, or gives the task
/// up where its attempts are used up.
pub fn begin_attempt(queue: &mut AssetQueue, index: usize, limit: u32, now: u64) -> (r: Option<u32>)
    requires
        index < old(queue).tasks.len(),
        old(queue).tasks@[index as int].attempts@.len() < u32::MAX,
    ensures
        ({
            let task = old(queue)@.tasks[index as int];
            let number = task.attempts.len() + 1;
            if number > limit {
                r is None && final(queue)@ == with_task(
                    old(queue)@,
                    index as int,
                    exhausted(task),
                    now,
                )
            } else {
                r matches Some(n) && n == number && final(queue)@ == with_task(
                    old(queue)@,
                    index as int,
                    attempting(task),
                    now,
                )
            }
        }),
{
    let ghost before = queue@;
    let attempt: u32 = queue.tasks[index].attempts.len() as u32 + 1;
    assert(before.tasks[index as int].attempts.len() == queue.tasks@[index as int].attempts@.len());
    let r: Option<u32>;
    {
        let task = &mut queue.tasks[index];
        if attempt > limit {
            task.status = AssetTaskStatus::Failed;
            if task.error.is_none() {
                task.error = Some(text::copy("retry limit reached"));
            }
            r = None;
        } else {
            task.status = if attempt == 1 {
                AssetTaskStatus::Running
            } else {
                AssetTaskStatus::Retrying
            };
            task.error = None;
            r = Some(attempt);
        }
    }
    queue.updated_at = now;
    assert(queue@.tasks =~= before.tasks.update(index as int, queue.tasks@[index as int]@));
    r
}

/// What is to be done after an attempt.
#[derive(Debug, Clone, Copy, PartialEq, Eq, Structural)]
pub enum AttemptOutcome {
    /// An artifact is there to be bound.
    Generated,
    /// The attempt failed and another one is due.
    TryAgain,
    /// The attempt failed and was the last.
    GaveUp,
    /// The run was cancelled during the attempt.
    Cancelled,
}

/// The record of an attempt.
pub open spec fn attempt_record(
    attempt: u32,
    started_at: u64,
    finished_at: u64,
    result: Result<(Seq<char>, bool), Seq<char>>,
) -> AttemptView {
    AttemptView {
        attempt,
        started_at,
        finished_at,
        artifact: match result {
            Ok(made) => Some(made.0),
            Err(_) => None,
        },
        error: match result {
            Ok(_) => None,
            Err(m) => Some(m),
        },
        used_local_fallback: match result {
            Ok(made) => made.1,
            Err(_) => false,
        },
    }
}

/// The model of what came of an attempt.
pub open spec fn result_view(result: Result<(String, bool), String>) -> Result<
    (Seq<char>, bool),
    Seq<char>,
> {
    match result {
        Ok(made) => Ok((made.0@, made.1)),
        Err(m) => Err(m@),
    }
}

/// A task after an attempt that was not cancelled.
pub open spec fn attempted(
    task: AssetTaskView,
    attempt: u32,
    limit: u32,
    started_at: u64,
    finished_at: u64,
    result: Result<(Seq<char>, bool), Seq<char>>,
) -> AssetTaskView {
    let attempts = task.attempts.push(attempt_record(attempt, started_at, finished_at, result));
    match result {
        Ok(_) => AssetTaskView { attempts, ..task },
        Err(m) => AssetTaskView {
            attempts,
            error: Some(m),
            status: if attempt < limit {
                AssetTaskStatus::Retrying
            } else {
                AssetTaskStatus::Failed
            },
            ..task
        },
    }
}

/// Records what came of an attempt and decides what is next. The result is the
/// path of the artifact with whether it was made locally, or the error.
pub fn finish_attempt(
    queue: &mut AssetQueue,
    index: usize,
    attempt: u32,
    limit: u32,
    started_at: u64,
    finished_at: u64,
    result: Result<(String, bool), String>,
    now: u64,
) -> (r: AttemptOutcome)
    requires
        index < old(queue).tasks.len(),
    ensures
        match result_view(result) {
            Ok(_) => r == AttemptOutcome::Generated,
            Err(m) => if m == ASSET_QUEUE_CANCELLED@ {
                r == AttemptOutcome::Cancelled
            } else if attempt < limit {
                r == AttemptOutcome::TryAgain
            } else {
                r == AttemptOutcome::GaveUp
            },
        },
        final(queue)@ == (if r == AttemptOutcome::Cancelled {
            old(queue)@
        } else {
            with_task(
                old(queue)@,
                index as int,
                attempted(
                    old(queue)@.tasks[index as int],
                    attempt,
                    limit,
                    started_at,
                    finished_at,
                    result_view(result),
                ),
                now,
            )
        }),
{
    let ghost before = queue@;
    let ghost given = result_view(result);
    let outcome: AttemptOutcome;
    match result {
        Ok(made) => {
            let record = AssetAttempt {
                attempt,
                started_at,
                finished_at,
                artifact: Some(made.0),
                error: None,
                used_local_fallback: made.1,
            };
            let ghost attempts = types::attempt_views(queue.tasks@[index as int].attempts@);
            let task = &mut queue.tasks[index];
            task.attempts.push(record);
            assert(types::attempt_views(task.attempts@) =~= attempts.push(record@));
            outcome = AttemptOutcome::Generated;
        },
        Err(m) => {
            if text::same(m.as_str(), ASSET_QUEUE_CANCELLED) {
                return AttemptOutcome::Cancelled;
            }
            let record = AssetAttempt {
                attempt,
                started_at,
                finished_at,
                artifact: None,
                error: Some(m.clone()),
                used_local_fallback: false,
            };
            let ghost attempts = types::attempt_views(queue.tasks@[index as int].attempts@);
            let task = &mut queue.tasks[index];
            task.attempts.push(record);
            assert(types::attempt_views(task.attempts@) =~= attempts.push(record@));
            task.error = Some(m);
            task.status = if attempt < limit {
                AssetTaskStatus::Retrying
            } else {
                AssetTaskStatus::Failed
            };
            outcome = if attempt < limit {
                AttemptOutcome::TryAgain
            } else {
                AttemptOutcome::GaveUp
            };
        },
    }
    queue.updated_at = now;
    proof {
        let task = attempted(
            before.tasks[index as int],
            attempt,
            limit,
            started_at,
            finished_at,
            given,
        );
        assert(queue.tasks@[index as int]@ == task);
        assert(queue@.tasks =~= before.tasks.update(index as int, task));
    }
    outcome
}

// ---------------------------------------------------------------------------
// Binding
// ---------------------------------------------------------------------------

/// A task whose binding was cancelled before it was done.
pub open spec fn unbound(task: AssetTaskView) -> AssetTaskView {
    if task.status == AssetTaskStatus::Succeeded {
        task
    } else {
        AssetTaskView { status: AssetTaskStatus::Pending, ..task }
    }
}

/// Whether `index` stands in the list between two positions.
pub open spec fn listed(v: Seq<usize>, from: int, to: int, index: int) -> bool {
    exists|k: int| from <= k < to && #[trigger] v[k] == index
}

/// Cancels the binding of the generated tasks from `position` on: those that
/// are not bound yet wait again.
pub fn cancel_binding(queue: &mut AssetQueue, generated: &Vec<usize>, position: usize, now: u64)
    requires
        position <= generated.len(),
        forall|k: int|
            0 <= k < generated@.len() ==> #[trigger] generated@[k] < old(queue).tasks@.len(),
    ensures
        final(queue)@.tasks.len() == old(queue)@.tasks.len(),
        forall|i: int|
            0 <= i < old(queue)@.tasks.len() ==> #[trigger] final(queue)@.tasks[i] == (
            if listed(generated@, position as int, generated@.len() as int, i) {
                unbound(old(queue)@.tasks[i])
            } else {
                old(queue)@.tasks[i]
            }),
        final(queue)@ == (QueueView { tasks: final(queue)@.tasks, updated_at: now, ..old(queue)@ }),
{
    let ghost start = queue@;
    let mut k: usize = position;
    while k < generated.len()
        invariant
            position <= k <= generated.len(),
            queue@.tasks.len() == start.tasks.len(),
            forall|m: int|
                0 <= m < generated@.len() ==> #[trigger] generated@[m] < start.tasks.len(),
            queue@ == (QueueView { tasks: queue@.tasks, ..start }),
            forall|i: int|
                0 <= i < start.tasks.len() ==> #[trigger] queue@.tasks[i] == (if listed(
                    generated@,
                    position as int,
                    k as int,
                    i,
                ) {
                    unbound(start.tasks[i])
                } else {
                    start.tasks[i]
                }),
        decreases generated.len() - k,
    {
        let index = generated[k];
        let ghost before = queue@;
        assert(index < start.tasks.len());
        assert(queue.tasks@[index as int]@ == before.tasks[index as int]);
        if queue.tasks[index].status != AssetTaskStatus::Succeeded {
            let task = &mut queue.tasks[index];
            task.status = AssetTaskStatus::Pending;
        }
        proof {
            assert(queue@.tasks =~= before.tasks.update(
                index as int,
                unbound(before.tasks[index as int]),
            ));
            assert forall|i: int| 0 <= i < start.tasks.len() implies #[trigger] queue@.tasks[i] == (
            if listed(generated@, position as int, k + 1, i) {
                unbound(start.tasks[i])
            } else {
                start.tasks[i]
            }) by {
                if listed(generated@, position as int, k as int, i) {
                    let m = choose|m: int| position <= m < k && #[trigger] generated@[m] == i;
                    assert(position <= m < k + 1 && generated@[m] == i);
                }
                if i == index {
                    assert(generated@[k as int] == i);
                } else if listed(generated@, position as int, k + 1, i) {
                    let m = choose|m: int| position <= m < k + 1 && #[trigger] generated@[m] == i;
                    assert(position <= m < k && generated@[m] == i);
                }
            }
        }
        k += 1;
    }
    queue.updated_at = now;
}

// ---------------------------------------------------------------------------
// Laws
// ---------------------------------------------------------------------------

/// The attempts of a task never exceed its limit: an attempt that begins is
/// within it, and ends with one more record and still within it.
pub proof fn attempts_stay_within_the_limit(
    task: AssetTaskView,
    attempt: u32,
    limit: u32,
    started_at: u64,
    finished_at: u64,
    result: Result<(Seq<char>, bool), Seq<char>>,
)
    requires
        attempt == task.attempts.len() + 1,
        attempt <= limit,
    ensures
        ({
            let after = attempted(
                attempting(task),
                attempt,
                limit,
                started_at,
                finished_at,
                result,
            );
            &&& after.attempts.len() == task.attempts.len() + 1
            &&& after.attempts.len() <= limit
            &&& result is Err && after.status == AssetTaskStatus::Retrying ==> after.attempts.len()
                < limit
            &&& result is Err && after.status != AssetTaskStatus::Retrying
                ==> after.attempts.len() == limit && after.status == AssetTaskStatus::Failed
        }),
{
}

/// A task of the run always has at least one attempt left, whatever it has
/// used before, where it failed earlier in this run; a finished task never
/// runs, and no task runs twice.
pub proof fn runnable_tasks_are_unfinished_and_distinct(
    n: int,
    tasks: Seq<AssetTaskView>,
    same_run: bool,
    budget: int,
    checks: Seq<Result<(), String>>,
)
    requires
        0 <= n <= tasks.len(),
        checks.len() == tasks.len(),
        budget > 0,
    ensures
        ({
            let runnable = runnable_upto(n, tasks, same_run, budget, checks);
            &&& forall|k: int|
                0 <= k < runnable.len() ==> {
                    let index = (#[trigger] runnable[k]).0;
                    &&& 0 <= index < n
                    &&& tasks[index].status != AssetTaskStatus::Succeeded
                    &&& checks[index] is Ok
                    &&& same_run && tasks[index].status == AssetTaskStatus::Failed
                        ==> runnable[k].1 > tasks[index].attempts.len()
                }
            &&& forall|a: int, b: int|
                0 <= a < b < runnable.len() ==> (#[trigger] runnable[a]).0 < (
                #[trigger] runnable[b]).0
        }),
    decreases n,
{
    if n > 0 {
        runnable_tasks_are_unfinished_and_distinct(n - 1, tasks, same_run, budget, checks);
    }
}

/// Cancelling leaves no task that was to be bound in flight: each is finished
/// or waits.
pub proof fn cancelled_tasks_wait(task: AssetTaskView)
    ensures
        unbound(task).status == AssetTaskStatus::Succeeded || unbound(task).status
            == AssetTaskStatus::Pending,
        unbound(task).attempts == task.attempts,
{
}

// ---------------------------------------------------------------------------
// What is run, and how often
// ---------------------------------------------------------------------------

/// A task is run exactly where it is not finished and nothing it needs is missing. It is
/// tried once and then as often as retries are allowed; where the same run goes on, a
/// task that failed or that waited for its configuration is tried that often anew.
pub proof fn unfinished_tasks_are_run(
    n: int,
    tasks: Seq<AssetTaskView>,
    same_run: bool,
    retries: int,
    checks: Seq<Result<(), String>>,
    i: int,
    limit: int,
)
    requires
        0 <= n <= tasks.len(),
        checks.len() == tasks.len(),
        0 <= i < n,
    ensures
        runnable_upto(n, tasks, same_run, retries + 1, checks).contains((i, limit)) <==> {
            &&& tasks[i].status != AssetTaskStatus::Succeeded
            &&& checks[i] is Ok
            &&& limit == if same_run && (tasks[i].status == AssetTaskStatus::Failed || (
            tasks[i].error is Some && text::begins(
                tasks[i].error->0,
                "pending configuration:"@,
            ))) {
                tasks[i].attempts.len() + retries + 1
            } else {
                retries + 1
            }
        },
    decreases n,
{
    let all = runnable_upto(n, tasks, same_run, retries + 1, checks);
    let before = runnable_upto(n - 1, tasks, same_run, retries + 1, checks);
    lemma_runnable_below(n - 1, tasks, same_run, retries + 1, checks);
    if i < n - 1 {
        unfinished_tasks_are_run(n - 1, tasks, same_run, retries, checks, i, limit);
        if before.contains((i, limit)) {
            let k = choose|k: int| 0 <= k < before.len() && before[k] == (i, limit);
            assert(all[k] == (i, limit));
        }
        if all.contains((i, limit)) {
            let k = choose|k: int| 0 <= k < all.len() && all[k] == (i, limit);
            assert(k < before.len());
            assert(before[k] == (i, limit));
        }
    } else {
        let given = attempt_limit(tasks[i], same_run, retries + 1);
        if all.contains((i, limit)) {
            let k = choose|k: int| 0 <= k < all.len() && all[k] == (i, limit);
            if k < before.len() {
                assert(before[k].0 < n - 1);
            }
        }
        if tasks[i].status != AssetTaskStatus::Succeeded && checks[i] is Ok {
            assert(all[before.len() as int] == (i, given));
        }
    }
}

proof fn lemma_runnable_below(
    n: int,
    tasks: Seq<AssetTaskView>,
    same_run: bool,
    budget: int,
    checks: Seq<Result<(), String>>,
)
    ensures
        forall|k: int|
            0 <= k < runnable_upto(n, tasks, same_run, budget, checks).len() ==> (
            #[trigger] runnable_upto(n, tasks, same_run, budget, checks)[k]).0 < n,
    decreases n,
{
    if n > 0 {
        lemma_runnable_below(n - 1, tasks, same_run, budget, checks);
        let before = runnable_upto(n - 1, tasks, same_run, budget, checks);
        let all = runnable_upto(n, tasks, same_run, budget, checks);
        assert forall|k: int| 0 <= k < all.len() implies (#[trigger] all[k]).0 < n by {
            if k < before.len() {
                assert(before[k].0 < n - 1);
                assert(all[k] == before[k]);
            }
        }
    }
}

/// A task that enters a run waits, without its old fault; one that something is missing
/// for says what, and is tried anew once it is there. A finished task is left alone.
pub proof fn entering_tasks_wait_or_say_what_is_missing(
    task: AssetTaskView,
    message: Seq<char>,
    budget: int,
)
    ensures
        task.status == AssetTaskStatus::Succeeded ==> entering(task, None) == task && entering(
            task,
            Some(message),
        ) == task,
        task.status != AssetTaskStatus::Succeeded ==> {
            &&& entering(task, None).status == AssetTaskStatus::Pending
            &&& entering(task, None).error is None
            &&& entering(task, None).attempts == task.attempts
            &&& entering(task, Some(message)).status == AssetTaskStatus::Pending
            &&& entering(task, Some(message)).error matches Some(e) && text::ends(e, message)
            &&& attempt_limit(entering(task, Some(message)), true, budget) == task.attempts.len()
                + budget
        },
{
    reveal_strlit("pending configuration: ");
    reveal_strlit("pending configuration:");
    let e = "pending configuration: "@ + message;
    text::parts_of_a_text_are_found("pending configuration: "@, message, Seq::empty(), message);
    assert("pending configuration: "@ =~= "pending configuration:"@ + seq![' ']);
    assert(e =~= "pending configuration:"@ + (seq![' '] + message));
    text::parts_of_a_text_are_found(
        Seq::empty(),
        "pending configuration:"@,
        seq![' '] + message,
        e,
    );
}

/// An attempt is recorded behind the earlier ones, with its number, its times and what
/// came of it. One that made something leaves the task to be bound; one that failed
/// leaves its fault, and the task is tried again as long as attempts are left, and has
/// failed afterwards. Nothing else of the task changes.
pub proof fn attempts_are_recorded_with_what_came_of_them(
    task: AssetTaskView,
    attempt: u32,
    limit: u32,
    started_at: u64,
    finished_at: u64,
    result: Result<(Seq<char>, bool), Seq<char>>,
)
    ensures
        ({
            let after = attempted(task, attempt, limit, started_at, finished_at, result);
            let record = after.attempts.last();
            &&& after.attempts.drop_last() == task.attempts && after.attempts.len()
                == task.attempts.len() + 1
            &&& record.attempt == attempt && record.started_at == started_at && record.finished_at
                == finished_at
            &&& result matches Ok(made) ==> record.artifact == Some(made.0)
                && record.used_local_fallback == made.1 && record.error is None && after.status
                == task.status && after.error == task.error
            &&& result matches Err(m) ==> record.artifact is None && record.error == Some(m)
                && !record.used_local_fallback && after.error == Some(m)
            &&& result is Err && attempt < limit ==> after.status == AssetTaskStatus::Retrying
            &&& result is Err && attempt >= limit ==> after.status == AssetTaskStatus::Failed
            &&& after == (AssetTaskView {
                attempts: after.attempts,
                error: after.error,
                status: after.status,
                ..task
            })
        }),
{
    let after = attempted(task, attempt, limit, started_at, finished_at, result);
    assert(after.attempts.drop_last() =~= task.attempts);
}

/// A task that is tried for the first time runs, one that was tried before is tried
/// again; one without attempts left has failed, with the fault it had.
pub proof fn tried_tasks_say_so(task: AssetTaskView)
    ensures
        task.attempts.len() == 0 ==> attempting(task).status == AssetTaskStatus::Running,
        task.attempts.len() > 0 ==> attempting(task).status == AssetTaskStatus::Retrying,
        attempting(task).error is None && attempting(task).attempts == task.attempts,
        exhausted(task).status == AssetTaskStatus::Failed && exhausted(task).error is Some,
        task.error is Some ==> exhausted(task).error == task.error,
        exhausted(task).attempts == task.attempts,
{
}

/// Pictures share a lane, spoken lines have one of their own, and so have music and
/// sounds; each lane is as wide as its own limit says.
pub proof fn lanes_are_as_wide_as_their_limit(kind: AssetKind, limits: QueueLimits)
    ensures
        lane_limit(limits, lane_of(kind)) == if kind == AssetKind::Background || kind
            == AssetKind::Figure {
            limits.image
        } else if kind == AssetKind::Tts {
            limits.tts
        } else {
            limits.music
        },
        lane_of(AssetKind::Background) == lane_of(AssetKind::Figure),
        lane_of(AssetKind::Bgm) == lane_of(AssetKind::Sfx),
        lane_of(AssetKind::Background) != lane_of(AssetKind::Tts),
        lane_of(AssetKind::Background) != lane_of(AssetKind::Bgm),
        lane_of(AssetKind::Tts) != lane_of(AssetKind::Bgm),
        limits_positive(limits) <==> limits.image >= 1 && limits.tts >= 1 && limits.music >= 1,
{
}

/// The next finished task is the first one from there on that has succeeded.
pub proof fn finished_tasks_are_found_in_order(tasks: Seq<AssetTaskView>, from: int)
    requires
        0 <= from <= tasks.len(),
    ensures
        ({
            let i = next_finished(tasks, from);
            &&& from <= i <= tasks.len()
            &&& i < tasks.len() ==> tasks[i].status == AssetTaskStatus::Succeeded
            &&& forall|j: int| from <= j < i ==> (#[trigger] tasks[j]).status
                != AssetTaskStatus::Succeeded
        }),
    decreases tasks.len() - from,
{
    if from < tasks.len() && tasks[from].status != AssetTaskStatus::Succeeded {
        finished_tasks_are_found_in_order(tasks, from + 1);
    }
}

/// Each attempt has a file of its own, in the directory of its task.
pub proof fn attempts_have_files_of_their_own(
    id: Seq<char>,
    attempt: u32,
    other: u32,
    extension: Seq<char>,
)
    ensures
        text::begins(
            artifact_path(id, attempt, extension),
            ".ollaic/artifacts/assets/"@ + id + "/"@,
        ),
        text::ends(artifact_path(id, attempt, extension), "."@ + extension),
        attempt != other ==> artifact_path(id, attempt, extension) != artifact_path(
            id,
            other,
            extension,
        ),
{
    let head = ".ollaic/artifacts/assets/"@ + id + "/"@;
    let a = text::decimal(attempt as nat);
    let b = text::decimal(other as nat);
    let end = "."@ + extension;
    let path = artifact_path(id, attempt, extension);
    assert(path =~= head + (a + end));
    text::parts_of_a_text_are_found(Seq::empty(), head, a + end, path);
    assert(path =~= head + a + end);
    text::parts_of_a_text_are_found(head + a, end, Seq::empty(), path);
    if attempt != other && path == artifact_path(id, other, extension) {
        let twin = artifact_path(id, other, extension);
        assert(twin =~= head + b + end);
        assert(path.subrange(head.len() as int, path.len() - end.len()) =~= a);
        assert(twin.subrange(head.len() as int, twin.len() - end.len()) =~= b);
        text::decimals_can_be_read(attempt as nat);
        text::decimals_can_be_read(other as nat);
    }
}

/// An extension is plain where it is not empty and made of ASCII letters and digits.
pub proof fn plain_extensions_are_alphanumeric(s: Seq<char>)
    ensures
        plain_extension(s) <==> s.len() > 0 && forall|i: int|
            0 <= i < s.len() ==> ('a' <= #[trigger] s[i] <= 'z' || 'A' <= s[i] <= 'Z' || '0' <= s[i]
                <= '9'),
{
    if plain_extension(s) {
        assert forall|i: int| 0 <= i < s.len() implies ('a' <= #[trigger] s[i] <= 'z' || 'A' <= s[i]
            <= 'Z' || '0' <= s[i] <= '9') by {
            assert(text::ascii_alphanumeric(s[i]));
        }
    }
}

/// What an attempt gave is seen as its file and whether it was made locally, or as its error.
pub proof fn results_are_seen_as_they_are(result: Result<(String, bool), String>)
    ensures
        result is Ok ==> result_view(result) is Ok && result_view(result)->Ok_0.0
            == result->Ok_0.0@ && result_view(result)->Ok_0.1 == result->Ok_0.1,
        result is Err ==> result_view(result) is Err && result_view(result)->Err_0
            == result->Err_0@,
{
}

} // verus!
