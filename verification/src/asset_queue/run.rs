//! The course of a run over the asset queue: finished tasks are bound again, the
//! others are generated side by side, and what was generated is bound one after
//! the other.
//!
//! The steps are decided here; the caller carries each one out and reports what
//! came of it.
use vstd::prelude::*;

use crate::asset_queue::scheduler;
use crate::asset_queue::scheduler::{AttemptOutcome, Lane, ASSET_QUEUE_CANCELLED};
use crate::asset_queue::transaction;
use crate::asset_queue::types::{AssetKind, AssetQueue, AssetTaskStatus, AssetTaskView, QueueView};
use crate::json_store;
use crate::text;

verus! {

broadcast use vstd::string::group_string_axioms;

/// What has come of a task that is to be generated.
#[derive(Debug, Clone, Copy, PartialEq, Eq, Structural)]
pub enum Slot {
    /// It waits for room in its lane.
    Open,
    /// It is generated.
    Running,
    /// There is an artifact to bind.
    Made,
    /// It has failed.
    GaveUp,
}

/// How far a run has come.
#[derive(Debug, PartialEq, Eq)]
pub enum RunPhase {
    /// The finished task at this index is to be bound again.
    Rebinding(usize),
    /// The generator is to check every task that is not finished.
    Checking,
    /// The queue is to be saved, before these tasks are generated, each with its
    /// number of attempts.
    SavingPlan(Vec<(usize, u32)>),
    /// These tasks are generated.
    Generating(Vec<(usize, u32)>, Vec<Slot>),
    /// The task at this position of the list is to be bound.
    Binding(Vec<usize>, usize),
    /// The queue is to be saved, as the run was cancelled.
    SavingCancelled,
    /// It is over.
    Done(Result<(), String>),
}

pub enum RunPhaseView {
    Rebinding(int),
    Checking,
    SavingPlan(Seq<(usize, u32)>),
    Generating(Seq<(usize, u32)>, Seq<Slot>),
    Binding(Seq<usize>, int),
    SavingCancelled,
    Done(Option<Seq<char>>),
}

impl View for RunPhase {
    type V = RunPhaseView;

    open spec fn view(&self) -> RunPhaseView {
        match *self {
            RunPhase::Rebinding(i) => RunPhaseView::Rebinding(i as int),
            RunPhase::Checking => RunPhaseView::Checking,
            RunPhase::SavingPlan(plan) => RunPhaseView::SavingPlan(plan@),
            RunPhase::Generating(plan, slots) => RunPhaseView::Generating(plan@, slots@),
            RunPhase::Binding(list, at) => RunPhaseView::Binding(list@, at as int),
            RunPhase::SavingCancelled => RunPhaseView::SavingCancelled,
            RunPhase::Done(r) => RunPhaseView::Done(json_store::fault(r)),
        }
    }
}

/// A run: the queue as it is now, whether it goes on with an earlier run, and
/// how far it has come.
#[derive(Debug, PartialEq, Eq)]
pub struct QueueRun {
    pub queue: AssetQueue,
    pub same_run: bool,
    pub phase: RunPhase,
}

pub struct RunView {
    pub queue: QueueView,
    pub same_run: bool,
    pub phase: RunPhaseView,
}

impl View for QueueRun {
    type V = RunView;

    open spec fn view(&self) -> RunView {
        RunView { queue: self.queue@, same_run: self.same_run, phase: self.phase@ }
    }
}

/// Whether every task of a plan is one of the queue, each once and in order.
pub open spec fn plan_fits(queue: QueueView, plan: Seq<(usize, u32)>) -> bool {
    &&& forall|k: int| 0 <= k < plan.len() ==> (#[trigger] plan[k]).0 < queue.tasks.len()
    &&& forall|j: int, k: int|
        0 <= j < k < plan.len() ==> (#[trigger] plan[j]).0 < (#[trigger] plan[k]).0
}

impl RunView {
    /// The indices in the phase are those of tasks.
    pub open spec fn wf(self) -> bool {
        match self.phase {
            RunPhaseView::Rebinding(i) => 0 <= i < self.queue.tasks.len(),
            RunPhaseView::SavingPlan(plan) => plan_fits(self.queue, plan),
            RunPhaseView::Generating(plan, slots) => plan_fits(self.queue, plan) && slots.len()
                == plan.len(),
            RunPhaseView::Binding(list, at) => 0 <= at < list.len() && (forall|k: int|
                0 <= k < list.len() ==> #[trigger] list[k] < self.queue.tasks.len()) && (forall|
                j: int,
                k: int,
            |
                0 <= j < k < list.len() ==> #[trigger] list[j] < #[trigger] list[k]),
            _ => true,
        }
    }
}

/// What came of a step of a run.
#[derive(Debug, PartialEq, Eq)]
pub enum RunEvent {
    /// The run was cancelled before the step.
    Cancelled,
    /// The finished task is bound again, or is not.
    Rebound(Result<(), String>),
    /// What the generator's own check said of each task; that of a finished task
    /// is not read.
    Checked(Vec<Result<(), String>>),
    Saved(Result<(), String>),
    /// The task of this slot is over; whether there is an artifact.
    Ended(usize, bool),
    /// A task could not be carried on: the run is given up.
    Failed(String),
    /// The queue after the binding of a task was committed, or why it was not.
    Bound(Result<AssetQueue, String>),
}

/// Whether an event can be one of this run: the lists have the queue's length,
/// and attempts can be counted.
pub open spec fn event_fits(run: RunView, event: RunEvent) -> bool {
    match event {
        RunEvent::Checked(checks) => checks@.len() == run.queue.tasks.len() && scheduler::countable(
            run.queue,
        ),
        RunEvent::Ended(slot, _) => run.phase is Generating ==> running_slot(run, slot as int),
        RunEvent::Bound(Ok(q)) => q@.tasks.len() == run.queue.tasks.len(),
        _ => true,
    }
}

// ---------------------------------------------------------------------------
// The phases that follow
// ---------------------------------------------------------------------------

/// Where binding finished tasks again goes on, from an index on.
pub open spec fn rebinding_from(tasks: Seq<AssetTaskView>, from: int) -> RunPhaseView {
    let i = scheduler::next_finished(tasks, from);
    if i < tasks.len() {
        RunPhaseView::Rebinding(i)
    } else {
        RunPhaseView::Checking
    }
}

fn rebind_from(queue: &AssetQueue, from: usize) -> (r: RunPhase)
    requires
        from <= queue.tasks.len(),
    ensures
        r@ == rebinding_from(queue@.tasks, from as int),
{
    let i = scheduler::find_finished(queue, from);
    if i < queue.tasks.len() {
        RunPhase::Rebinding(i)
    } else {
        RunPhase::Checking
    }
}

/// The tasks with an artifact, in the order of the plan.
pub open spec fn made(plan: Seq<(usize, u32)>, slots: Seq<Slot>) -> Seq<usize>
    decreases slots.len(),
{
    if slots.len() == 0 {
        Seq::empty()
    } else {
        let before = made(plan, slots.drop_last());
        if slots.last() == Slot::Made {
            before.push(plan[slots.len() - 1].0)
        } else {
            before
        }
    }
}

/// Where binding goes on, at this position of the list.
pub open spec fn binding_at(list: Seq<usize>, at: int) -> RunPhaseView {
    if at < list.len() {
        RunPhaseView::Binding(list, at)
    } else {
        RunPhaseView::Done(None)
    }
}

/// Whether the task of a slot is over.
pub open spec fn over(slot: Slot) -> bool {
    slot == Slot::Made || slot == Slot::GaveUp
}

/// Whether a task is not over.
pub open spec fn some_open(slots: Seq<Slot>) -> bool {
    exists|k: int| 0 <= k < slots.len() && !over(#[trigger] slots[k])
}

/// Where generating goes on: what was made is bound once every task is over.
pub open spec fn generating(plan: Seq<(usize, u32)>, slots: Seq<Slot>) -> RunPhaseView {
    if some_open(slots) {
        RunPhaseView::Generating(plan, slots)
    } else {
        binding_at(made(plan, slots), 0)
    }
}

/// Whether the task of a slot was made, and is this one.
pub open spec fn made_in(plan: Seq<(usize, u32)>, slots: Seq<Slot>, k: int, index: usize) -> bool {
    0 <= k < slots.len() && slots[k] == Slot::Made && plan[k].0 == index
}

/// Whether a task was made in some slot.
pub open spec fn is_made(plan: Seq<(usize, u32)>, slots: Seq<Slot>, index: usize) -> bool {
    exists|k: int| #[trigger] made_in(plan, slots, k, index)
}

/// What is made comes from the plan: its tasks, in its order.
proof fn lemma_made(queue: QueueView, plan: Seq<(usize, u32)>, slots: Seq<Slot>)
    requires
        plan_fits(queue, plan),
        slots.len() <= plan.len(),
    ensures
        forall|m: int|
            0 <= m < made(plan, slots).len() ==> is_made(
                plan,
                slots,
                #[trigger] made(plan, slots)[m],
            ),
        forall|k: int|
            0 <= k < slots.len() && slots[k] == Slot::Made ==> made(plan, slots).contains(
                (#[trigger] plan[k]).0,
            ),
        forall|j: int, m: int|
            0 <= j < m < made(plan, slots).len() ==> #[trigger] made(plan, slots)[j]
                < #[trigger] made(plan, slots)[m],
    decreases slots.len(),
{
    if slots.len() > 0 {
        let n = slots.len() - 1;
        let fewer = slots.drop_last();
        lemma_made(queue, plan, fewer);
        let before = made(plan, fewer);
        let all = made(plan, slots);
        assert forall|m: int| 0 <= m < all.len() implies is_made(plan, slots, #[trigger] all[m]) by {
            if m < before.len() {
                assert(all[m] == before[m]);
                assert(is_made(plan, fewer, before[m]));
                let k = choose|k: int| #[trigger] made_in(plan, fewer, k, before[m]);
                assert(made_in(plan, slots, k, all[m]));
            } else {
                assert(made_in(plan, slots, n, all[m]));
            }
        }
        assert forall|k: int| 0 <= k < slots.len() && slots[k] == Slot::Made implies all.contains(
            (#[trigger] plan[k]).0,
        ) by {
            if k < n {
                assert(fewer[k] == Slot::Made);
                assert(before.contains(plan[k].0));
                let m = choose|m: int| 0 <= m < before.len() && before[m] == plan[k].0;
                assert(all[m] == plan[k].0);
            } else {
                assert(all[before.len() as int] == plan[k].0);
            }
        }
        assert forall|j: int, m: int| 0 <= j < m < all.len() implies #[trigger] all[j]
            < #[trigger] all[m] by {
            if m == before.len() {
                assert(all[j] == before[j]);
                assert(is_made(plan, fewer, before[j]));
                let k = choose|k: int| #[trigger] made_in(plan, fewer, k, before[j]);
                assert(plan[k].0 < plan[n].0);
            } else {
                assert(all[j] == before[j] && all[m] == before[m]);
            }
        }
    }
}

fn collect_made(plan: &Vec<(usize, u32)>, slots: &Vec<Slot>) -> (r: Vec<usize>)
    requires
        plan@.len() == slots@.len(),
    ensures
        r@ == made(plan@, slots@),
{
    let mut list: Vec<usize> = Vec::new();
    let mut i: usize = 0;
    assert(slots@.take(0) =~= Seq::<Slot>::empty());
    while i < slots.len()
        invariant
            i <= slots.len(),
            plan@.len() == slots@.len(),
            list@ == made(plan@, slots@.take(i as int)),
        decreases slots.len() - i,
    {
        proof {
            assert(slots@.take(i + 1).drop_last() =~= slots@.take(i as int));
            assert(slots@.take(i + 1).last() == slots@[i as int]);
        }
        if slots[i] == Slot::Made {
            list.push(plan[i].0);
        }
        i += 1;
    }
    assert(slots@.take(i as int) =~= slots@);
    list
}

fn is_some_open(slots: &Vec<Slot>) -> (r: bool)
    ensures
        r == some_open(slots@),
{
    let mut i: usize = 0;
    while i < slots.len()
        invariant
            i <= slots.len(),
            forall|k: int| 0 <= k < i ==> over(#[trigger] slots@[k]),
        decreases slots.len() - i,
    {
        if slots[i] != Slot::Made && slots[i] != Slot::GaveUp {
            assert(!over(slots@[i as int]));
            return true;
        }
        i += 1;
    }
    false
}

fn bind_at(list: Vec<usize>, at: usize) -> (r: RunPhase)
    ensures
        r@ == binding_at(list@, at as int),
{
    if at < list.len() {
        RunPhase::Binding(list, at)
    } else {
        RunPhase::Done(Ok(()))
    }
}

fn generate(plan: Vec<(usize, u32)>, slots: Vec<Slot>) -> (r: RunPhase)
    requires
        plan@.len() == slots@.len(),
    ensures
        r@ == generating(plan@, slots@),
{
    if is_some_open(&slots) {
        RunPhase::Generating(plan, slots)
    } else {
        bind_at(collect_made(&plan, &slots), 0)
    }
}

// ---------------------------------------------------------------------------
// The course
// ---------------------------------------------------------------------------

/// The queue after a finished task was bound again, or was not.
pub open spec fn queue_rebound(queue: QueueView, i: int, result: Result<(), String>) -> QueueView {
    match result {
        Ok(_) => queue,
        Err(m) => QueueView {
            tasks: queue.tasks.update(
                i,
                AssetTaskView {
                    status: AssetTaskStatus::Failed,
                    error: Some("rebinding failed: "@ + m@),
                    ..queue.tasks[i]
                },
            ),
            ..queue
        },
    }
}

/// The queue as its tasks enter the run.
pub open spec fn queue_entering(queue: QueueView, checks: Seq<Result<(), String>>, now: u64) -> QueueView {
    QueueView {
        tasks: Seq::new(
            queue.tasks.len(),
            |i: int| scheduler::entering(queue.tasks[i], scheduler::refusal(checks[i])),
        ),
        updated_at: now,
        ..queue
    }
}

/// The queue of a run that was cancelled at this position of the list.
pub open spec fn queue_cancelled(queue: QueueView, list: Seq<usize>, at: int, now: u64) -> QueueView {
    QueueView {
        tasks: Seq::new(
            queue.tasks.len(),
            |i: int|
                if scheduler::listed(list, at, list.len() as int, i) {
                    scheduler::unbound(queue.tasks[i])
                } else {
                    queue.tasks[i]
                },
        ),
        updated_at: now,
        ..queue
    }
}

/// Whether a run may go on so after an event. An event that answers no open
/// question changes nothing.
pub open spec fn run_step(run: RunView, event: RunEvent, now: u64, after: RunView) -> bool {
    &&& after.same_run == run.same_run
    &&& match (run.phase, event) {
        (RunPhaseView::Rebinding(_), RunEvent::Cancelled) => after.queue == run.queue && after.phase
            == RunPhaseView::Done(Some(ASSET_QUEUE_CANCELLED@)),
        (RunPhaseView::Rebinding(i), RunEvent::Rebound(result)) => after.queue == queue_rebound(
            run.queue,
            i,
            result,
        ) && after.phase == rebinding_from(after.queue.tasks, i + 1),
        (RunPhaseView::Checking, RunEvent::Checked(checks)) => after.queue == queue_entering(
            run.queue,
            checks@,
            now,
        ) && (after.phase matches RunPhaseView::SavingPlan(plan) && scheduler::runnable_views(plan)
            == scheduler::runnable_upto(
            run.queue.tasks.len() as int,
            run.queue.tasks,
            run.same_run,
            run.queue.limits.max_retries + 1,
            checks@,
        )),
        (RunPhaseView::SavingPlan(plan), RunEvent::Saved(result)) => after.queue == run.queue
            && after.phase == (match json_store::fault(result) {
            None => generating(plan, Seq::new(plan.len(), |k: int| Slot::Open)),
            Some(m) => RunPhaseView::Done(Some(m)),
        }),
        (RunPhaseView::Generating(plan, slots), RunEvent::Ended(slot, artifact)) => after.queue
            == run.queue && after.phase == generating(
            plan,
            slots.update(
                slot as int,
                if artifact {
                    Slot::Made
                } else {
                    Slot::GaveUp
                },
            ),
        ),
        (RunPhaseView::Generating(_, _), RunEvent::Failed(m)) => after.queue == run.queue
            && after.phase == RunPhaseView::Done(Some(m@)),
        (RunPhaseView::Binding(list, at), RunEvent::Cancelled) => after.queue == queue_cancelled(
            run.queue,
            list,
            at,
            now,
        ) && after.phase == RunPhaseView::SavingCancelled,
        (RunPhaseView::Binding(list, at), RunEvent::Bound(Ok(q))) => after.queue == q@
            && after.phase == binding_at(list, at + 1),
        (RunPhaseView::Binding(_, _), RunEvent::Bound(Err(m))) => after.queue == run.queue
            && after.phase == RunPhaseView::Done(Some(m@)),
        (RunPhaseView::SavingCancelled, RunEvent::Saved(result)) => after.queue == run.queue
            && after.phase == RunPhaseView::Done(
            match json_store::fault(result) {
                None => Some(ASSET_QUEUE_CANCELLED@),
                Some(m) => Some(m),
            },
        ),
        _ => after == run,
    }
}

/// Whether a queue that was kept is that of this run.
pub fn is_same_run(kept: &AssetQueue, run_id: &str) -> (r: bool)
    ensures
        r == (kept@.run_id == run_id@),
{
    text::same(kept.run_id.as_str(), run_id)
}

/// Begins a run over the queue that was made for it; it goes on with an earlier
/// run where the queue that was kept is that of this run.
pub fn begin_queue(kept: &AssetQueue, queue: AssetQueue, run_id: &str) -> (r: Result<
    QueueRun,
    String,
>)
    ensures
        begins_run(r, queue, kept@.run_id == run_id@),
{
    let same_run = is_same_run(kept, run_id);
    begin_run(queue, same_run)
}

/// Whether a run begins so: where its limits let anything run, with the finished
/// tasks of an earlier run, else with the check of every task.
pub open spec fn begins_run(r: Result<QueueRun, String>, queue: AssetQueue, same_run: bool) -> bool {
    match r {
        Ok(run) => scheduler::limits_positive(queue.limits) && run@.wf() && run@ == (RunView {
            queue: queue@,
            same_run,
            phase: if same_run {
                rebinding_from(queue@.tasks, 0)
            } else {
                RunPhaseView::Checking
            },
        }),
        Err(m) => !scheduler::limits_positive(queue.limits) && m@
            == "asset queue concurrency limits must be greater than zero"@,
    }
}

/// Begins a run over a queue, where its limits let anything run.
pub fn begin_run(queue: AssetQueue, same_run: bool) -> (r: Result<QueueRun, String>)
    ensures
        begins_run(r, queue, same_run),
{
    match scheduler::validate_limits(&queue) {
        Err(m) => {
            return Err(m);
        },
        Ok(_) => {},
    }
    let phase = if same_run {
        rebind_from(&queue, 0)
    } else {
        RunPhase::Checking
    };
    proof {
        lemma_next_finished(queue@.tasks, 0);
    }
    Ok(QueueRun { queue, same_run, phase })
}

proof fn lemma_next_finished(tasks: Seq<AssetTaskView>, from: int)
    requires
        0 <= from,
    ensures
        from <= tasks.len() ==> from <= scheduler::next_finished(tasks, from) <= tasks.len(),
    decreases tasks.len() - from,
{
    if from < tasks.len() && tasks[from].status != AssetTaskStatus::Succeeded {
        lemma_next_finished(tasks, from + 1);
    }
}

fn open_slots(n: usize) -> (r: Vec<Slot>)
    ensures
        r@ == Seq::new(n as nat, |k: int| Slot::Open),
{
    let mut slots: Vec<Slot> = Vec::new();
    let mut i: usize = 0;
    while i < n
        invariant
            i <= n,
            slots@.len() == i,
            forall|k: int| 0 <= k < i ==> slots@[k] == Slot::Open,
        decreases n - i,
    {
        slots.push(Slot::Open);
        i += 1;
    }
    assert(slots@ =~= Seq::new(n as nat, |k: int| Slot::Open));
    slots
}

/// Takes a run one step further.
pub fn run_queue_cancellable(run: QueueRun, event: RunEvent, now: u64) -> (r: QueueRun)
    requires
        run@.wf(),
        event_fits(run@, event),
    ensures
        r@.wf(),
        run_step(run@, event, now, r@),
{
    let ghost before = run@;
    let same_run = run.same_run;
    let mut queue = run.queue;
    match (run.phase, event) {
        (RunPhase::Rebinding(_), RunEvent::Cancelled) => QueueRun {
            queue,
            same_run,
            phase: RunPhase::Done(Err(text::copy(ASSET_QUEUE_CANCELLED))),
        },
        (RunPhase::Rebinding(i), RunEvent::Rebound(result)) => {
            scheduler::note_rebind(&mut queue, i, result);
            let n = queue.tasks.len();
            assert(n == queue@.tasks.len());
            assert(i < n);
            let phase = rebind_from(&queue, i + 1);
            proof {
                lemma_next_finished(queue@.tasks, i + 1);
            }
            QueueRun { queue, same_run, phase }
        },
        (RunPhase::Checking, RunEvent::Checked(checks)) => {
            let plan = scheduler::plan_runnable(&mut queue, same_run, &checks, now);
            proof {
                assert(queue@.tasks =~= queue_entering(before.queue, checks@, now).tasks);
                lemma_plan_fits(before, checks@, plan@);
                assert(plan_fits(queue@, plan@));
            }
            QueueRun { queue, same_run, phase: RunPhase::SavingPlan(plan) }
        },
        (RunPhase::SavingPlan(plan), RunEvent::Saved(result)) => {
            let phase = match result {
                Ok(_) => {
                    let slots = open_slots(plan.len());
                    proof {
                        lemma_made(queue@, plan@, slots@);
                    }
                    generate(plan, slots)
                },
                Err(m) => RunPhase::Done(Err(m)),
            };
            QueueRun { queue, same_run, phase }
        },
        (RunPhase::Generating(plan, slots), RunEvent::Ended(slot, artifact)) => {
            let mut slots = slots;
            slots.set(
                slot,
                if artifact {
                    Slot::Made
                } else {
                    Slot::GaveUp
                },
            );
            proof {
                lemma_made(queue@, plan@, slots@);
            }
            QueueRun { queue, same_run, phase: generate(plan, slots) }
        },
        (RunPhase::Generating(_, _), RunEvent::Failed(m)) => QueueRun {
            queue,
            same_run,
            phase: RunPhase::Done(Err(m)),
        },
        (RunPhase::Binding(list, at), RunEvent::Cancelled) => {
            scheduler::cancel_binding(&mut queue, &list, at, now);
            assert(queue@.tasks =~= queue_cancelled(before.queue, list@, at as int, now).tasks);
            QueueRun { queue, same_run, phase: RunPhase::SavingCancelled }
        },
        (RunPhase::Binding(list, at), RunEvent::Bound(Ok(q))) => {
            let n = list.len();
            assert(at < n);
            QueueRun { queue: q, same_run, phase: bind_at(list, at + 1) }
        },
        (RunPhase::Binding(_, _), RunEvent::Bound(Err(m))) => QueueRun {
            queue,
            same_run,
            phase: RunPhase::Done(Err(m)),
        },
        (RunPhase::SavingCancelled, RunEvent::Saved(result)) => QueueRun {
            queue,
            same_run,
            phase: match result {
                Ok(_) => RunPhase::Done(Err(text::copy(ASSET_QUEUE_CANCELLED))),
                Err(m) => RunPhase::Done(Err(m)),
            },
        },
        (phase, _) => QueueRun { queue, same_run, phase },
    }
}

/// What is planned are tasks of the queue, each once and in order.
proof fn lemma_plan_fits(
    run: RunView,
    checks: Seq<Result<(), String>>,
    plan: Seq<(usize, u32)>,
)
    requires
        checks.len() == run.queue.tasks.len(),
        scheduler::runnable_views(plan) == scheduler::runnable_upto(
            run.queue.tasks.len() as int,
            run.queue.tasks,
            run.same_run,
            run.queue.limits.max_retries + 1,
            checks,
        ),
    ensures
        plan_fits(run.queue, plan),
{
    let views = scheduler::runnable_views(plan);
    scheduler::runnable_tasks_are_unfinished_and_distinct(
        run.queue.tasks.len() as int,
        run.queue.tasks,
        run.same_run,
        run.queue.limits.max_retries + 1,
        checks,
    );
    assert forall|k: int| 0 <= k < plan.len() implies (#[trigger] plan[k]).0
        < run.queue.tasks.len() by {
        assert(views[k].0 == plan[k].0);
    }
    assert forall|j: int, k: int| 0 <= j < k < plan.len() implies (#[trigger] plan[j]).0 < (
    #[trigger] plan[k]).0 by {
        assert(views[j].0 == plan[j].0 && views[k].0 == plan[k].0);
    }
}

fn count_running(
    queue: &AssetQueue,
    plan: &Vec<(usize, u32)>,
    slots: &Vec<Slot>,
    lane: Lane,
) -> (r: usize)
    requires
        plan_fits(queue@, plan@),
        slots@.len() == plan@.len(),
    ensures
        r == running_in(queue@.tasks, plan@, slots@, lane, slots@.len() as int),
{
    let mut count: usize = 0;
    let mut i: usize = 0;
    while i < slots.len()
        invariant
            i <= slots.len(),
            count <= i,
            plan_fits(queue@, plan@),
            slots@.len() == plan@.len(),
            count == running_in(queue@.tasks, plan@, slots@, lane, i as int),
        decreases slots.len() - i,
    {
        if slots[i] == Slot::Running {
            let index = plan[i].0;
            assert(index < queue@.tasks.len());
            assert(queue@.tasks[index as int] == queue.tasks@[index as int]@);
            let (own, _) = scheduler::lane(queue.tasks[index].kind, &queue.limits);
            if own == lane {
                count += 1;
            }
        }
        i += 1;
    }
    count
}

impl QueueRun {
    /// Lets the task of an open slot be generated, where its lane has room for
    /// it; whether it has.
    pub fn let_in(&mut self, slot: usize) -> (r: bool)
        requires
            old(self)@.wf(),
            open_slot(old(self)@, slot as int),
        ensures
            final(self)@.wf(),
            r == has_room(old(self)@, slot as int),
            final(self)@ == (if r {
                admitted(old(self)@, slot as int)
            } else {
                old(self)@
            }),
    {
        let room = match &self.phase {
            RunPhase::Generating(plan, slots) => {
                let index = plan[slot].0;
                assert(index < self.queue@.tasks.len());
                assert(self.queue@.tasks[index as int] == self.queue.tasks@[index as int]@);
                let (lane, limit) = scheduler::lane(
                    self.queue.tasks[index].kind,
                    &self.queue.limits,
                );
                count_running(&self.queue, plan, slots, lane) < limit
            },
            _ => false,
        };
        if room {
            match &mut self.phase {
                RunPhase::Generating(_, slots) => {
                    slots.set(slot, Slot::Running);
                },
                _ => {},
            }
        }
        room
    }

    /// Begins the next attempt at the task of a running slot and returns its
    /// number, or gives the task up where its attempts are used up. The queue is
    /// then to be saved.
    pub fn begin_attempt(&mut self, slot: usize, now: u64) -> (r: Option<u32>)
        requires
            old(self)@.wf(),
            running_slot(old(self)@, slot as int),
            old(self)@.queue.tasks[slot_task(old(self)@, slot as int)].attempts.len() < u32::MAX,
        ensures
            final(self)@.wf(),
            final(self)@.phase == old(self)@.phase,
            final(self)@.same_run == old(self)@.same_run,
            ({
                let i = slot_task(old(self)@, slot as int);
                let task = old(self)@.queue.tasks[i];
                let number = task.attempts.len() + 1;
                if number > slot_limit(old(self)@, slot as int) {
                    r is None && final(self)@.queue == scheduler::with_task(
                        old(self)@.queue,
                        i,
                        scheduler::exhausted(task),
                        now,
                    )
                } else {
                    r matches Some(n) && n == number && final(self)@.queue == scheduler::with_task(
                        old(self)@.queue,
                        i,
                        scheduler::attempting(task),
                        now,
                    )
                }
            }),
    {
        match &self.phase {
            RunPhase::Generating(plan, _) => {
                let (index, limit) = plan[slot];
                assert(self.queue@.tasks[index as int] == self.queue.tasks@[index as int]@);
                scheduler::begin_attempt(&mut self.queue, index, limit, now)
            },
            _ => None,
        }
    }

    /// Records what came of an attempt at the task of a running slot. The queue is
    /// then to be saved, unless the run was cancelled.
    pub fn finish_attempt(
        &mut self,
        slot: usize,
        attempt: u32,
        started_at: u64,
        finished_at: u64,
        result: Result<(String, bool), String>,
        now: u64,
    ) -> (r: AttemptOutcome)
        requires
            old(self)@.wf(),
            running_slot(old(self)@, slot as int),
        ensures
            final(self)@.wf(),
            final(self)@.phase == old(self)@.phase,
            final(self)@.same_run == old(self)@.same_run,
            ({
                let i = slot_task(old(self)@, slot as int);
                let limit = slot_limit(old(self)@, slot as int);
                &&& match scheduler::result_view(result) {
                    Ok(_) => r == AttemptOutcome::Generated,
                    Err(m) => if m == ASSET_QUEUE_CANCELLED@ {
                        r == AttemptOutcome::Cancelled
                    } else if attempt < limit {
                        r == AttemptOutcome::TryAgain
                    } else {
                        r == AttemptOutcome::GaveUp
                    },
                }
                &&& final(self)@.queue == (if r == AttemptOutcome::Cancelled {
                    old(self)@.queue
                } else {
                    scheduler::with_task(
                        old(self)@.queue,
                        i,
                        scheduler::attempted(
                            old(self)@.queue.tasks[i],
                            attempt,
                            limit,
                            started_at,
                            finished_at,
                            scheduler::result_view(result),
                        ),
                        now,
                    )
                })
            }),
    {
        match &self.phase {
            RunPhase::Generating(plan, _) => {
                let (index, limit) = plan[slot];
                scheduler::finish_attempt(
                    &mut self.queue,
                    index,
                    attempt,
                    limit,
                    started_at,
                    finished_at,
                    result,
                    now,
                )
            },
            _ => AttemptOutcome::Cancelled,
        }
    }
}

/// Whether the task of a slot waits.
pub open spec fn open_slot(run: RunView, slot: int) -> bool {
    run.phase matches RunPhaseView::Generating(plan, slots) && 0 <= slot < slots.len()
        && slots[slot] == Slot::Open
}

/// Whether the task of a slot is generated.
pub open spec fn running_slot(run: RunView, slot: int) -> bool {
    run.phase matches RunPhaseView::Generating(plan, slots) && 0 <= slot < slots.len()
        && slots[slot] == Slot::Running
}

/// How many of the first `n` slots are generated in a lane.
pub open spec fn running_in(
    tasks: Seq<AssetTaskView>,
    plan: Seq<(usize, u32)>,
    slots: Seq<Slot>,
    lane: Lane,
    n: int,
) -> nat
    decreases n,
{
    if n <= 0 {
        0
    } else {
        running_in(tasks, plan, slots, lane, n - 1) + (if slots[n - 1] == Slot::Running
            && scheduler::lane_of(tasks[plan[n - 1].0 as int].kind) == lane {
            1nat
        } else {
            0
        })
    }
}

/// Whether the lane of a slot's task has room for it.
pub open spec fn has_room(run: RunView, slot: int) -> bool {
    match run.phase {
        RunPhaseView::Generating(plan, slots) => {
            let lane = scheduler::lane_of(run.queue.tasks[plan[slot].0 as int].kind);
            running_in(run.queue.tasks, plan, slots, lane, slots.len() as int)
                < scheduler::lane_limit(run.queue.limits, lane)
        },
        _ => false,
    }
}

/// A run with the task of a slot generated.
pub open spec fn admitted(run: RunView, slot: int) -> RunView {
    match run.phase {
        RunPhaseView::Generating(plan, slots) => RunView {
            phase: RunPhaseView::Generating(plan, slots.update(slot, Slot::Running)),
            ..run
        },
        _ => run,
    }
}

/// The task of a slot.
pub open spec fn slot_task(run: RunView, slot: int) -> int {
    match run.phase {
        RunPhaseView::Generating(plan, _) => plan[slot].0 as int,
        _ => 0,
    }
}

/// How many attempts the task of a slot may have.
pub open spec fn slot_limit(run: RunView, slot: int) -> u32 {
    match run.phase {
        RunPhaseView::Generating(plan, _) => plan[slot].1,
        _ => 0,
    }
}

// ---------------------------------------------------------------------------
// Laws
// ---------------------------------------------------------------------------

/// Whether a task is not in flight: it is finished, has failed, or waits.
pub open spec fn settled(task: AssetTaskView) -> bool {
    task.status == AssetTaskStatus::Succeeded || task.status == AssetTaskStatus::Failed
        || task.status == AssetTaskStatus::Pending
}

/// Whether the slot at `k` is that of a given task, which was not given up.
pub open spec fn playing(plan: Seq<(usize, u32)>, slots: Seq<Slot>, k: int, i: int) -> bool {
    0 <= k < slots.len() && plan[k].0 == i && slots[k] != Slot::GaveUp
}

/// Whether a task has a slot and was not given up.
pub open spec fn in_some_slot(plan: Seq<(usize, u32)>, slots: Seq<Slot>, i: int) -> bool {
    exists|k: int| #[trigger] playing(plan, slots, k, i)
}

/// Whether a task is still generated, or is yet to be bound.
pub open spec fn in_play(phase: RunPhaseView, i: int) -> bool {
    match phase {
        RunPhaseView::Generating(plan, slots) => in_some_slot(plan, slots, i),
        RunPhaseView::Binding(list, at) => scheduler::listed(list, at, list.len() as int, i),
        _ => false,
    }
}

/// Whether no task is in flight but those that the run is about. Before the
/// plan is made and after the run has failed, nothing is said.
pub open spec fn accounted(run: RunView) -> bool {
    match run.phase {
        RunPhaseView::Rebinding(_) => true,
        RunPhaseView::Checking => true,
        RunPhaseView::Done(Some(_)) => true,
        _ => forall|i: int|
            0 <= i < run.queue.tasks.len() ==> settled(#[trigger] run.queue.tasks[i]) || in_play(
                run.phase,
                i,
            ),
    }
}

/// Whether an event says of a task only what is so: a task without an artifact
/// has been given up, and a commit has settled the task that it bound.
pub open spec fn event_settles(run: RunView, event: RunEvent) -> bool {
    match (run.phase, event) {
        (RunPhaseView::Generating(plan, _), RunEvent::Ended(slot, false)) => settled(
            run.queue.tasks[plan[slot as int].0 as int],
        ),
        (RunPhaseView::Binding(list, at), RunEvent::Bound(Ok(q))) => exists|
            task: AssetTaskView,
            now: u64,
        |
            settled(task) && q@ == #[trigger] scheduler::with_task(
                run.queue,
                list[at] as int,
                task,
                now,
            ),
        _ => true,
    }
}

/// No step of a run loses a task: whatever is in flight is generated or is yet
/// to be bound. So once a run is over without a fault, or is cancelled while it
/// binds, every task is finished, has failed, or waits.
pub proof fn no_task_is_left_in_flight(run: RunView, event: RunEvent, now: u64, after: RunView)
    requires
        run.wf(),
        event_fits(run, event),
        event_settles(run, event),
        accounted(run),
        run_step(run, event, now, after),
    ensures
        accounted(after),
        after.phase == RunPhaseView::Done(None) || after.phase is SavingCancelled ==> forall|
            i: int,
        |
            0 <= i < after.queue.tasks.len() ==> settled(#[trigger] after.queue.tasks[i]),
{
    match (run.phase, event) {
        (RunPhaseView::SavingPlan(plan), RunEvent::Saved(_)) => {
            let slots = Seq::new(plan.len(), |k: int| Slot::Open);
            lemma_made(run.queue, plan, slots);
        },
        (RunPhaseView::Generating(plan, slots), RunEvent::Ended(slot, artifact)) => {
            let closed = slots.update(
                slot as int,
                if artifact {
                    Slot::Made
                } else {
                    Slot::GaveUp
                },
            );
            lemma_made(run.queue, plan, closed);
            let list = made(plan, closed);
            assert(after.phase == generating(plan, closed));
            assert forall|i: int| 0 <= i < after.queue.tasks.len() implies settled(
                #[trigger] after.queue.tasks[i],
            ) || in_play(after.phase, i) by {
                if !settled(run.queue.tasks[i]) {
                    assert(in_some_slot(plan, slots, i));
                    let k = choose|k: int| #[trigger] playing(plan, slots, k, i);
                    assert(playing(plan, closed, k, i));
                    assert(in_some_slot(plan, closed, i));
                    if !some_open(closed) {
                        assert(closed[k] == Slot::Made);
                        assert(list.contains(plan[k].0));
                        let m = choose|m: int| 0 <= m < list.len() && list[m] == plan[k].0;
                        assert(list[m] == i);
                        assert(scheduler::listed(list, 0, list.len() as int, i));
                    }
                }
            }
        },
        (RunPhaseView::Binding(list, at), RunEvent::Bound(Ok(q))) => {
            let (task, when) = choose|task: AssetTaskView, when: u64|
                settled(task) && q@ == #[trigger] scheduler::with_task(
                    run.queue,
                    list[at] as int,
                    task,
                    when,
                );
            assert forall|i: int| 0 <= i < after.queue.tasks.len() implies settled(
                #[trigger] after.queue.tasks[i],
            ) || in_play(after.phase, i) by {
                if i != list[at] && !settled(run.queue.tasks[i]) {
                    let k = choose|k: int| at <= k < list.len() && #[trigger] list[k] == i;
                    assert(at + 1 <= k);
                    assert(scheduler::listed(list, at + 1, list.len() as int, i));
                }
            }
        },
        (RunPhaseView::Binding(list, at), RunEvent::Cancelled) => {
            assert forall|i: int| 0 <= i < after.queue.tasks.len() implies settled(
                #[trigger] after.queue.tasks[i],
            ) by {
                assert(settled(run.queue.tasks[i]) || in_play(run.phase, i));
            }
        },
        _ => {},
    }
}

/// Beginning or finishing an attempt changes no task but that of its slot, which
/// stays accounted for as long as it is generated.
pub proof fn attempts_stay_accounted(run: RunView, slot: int, task: AssetTaskView, now: u64)
    requires
        run.wf(),
        accounted(run),
        running_slot(run, slot),
    ensures
        accounted(
            RunView {
                queue: scheduler::with_task(run.queue, slot_task(run, slot), task, now),
                ..run
            },
        ),
{
    match run.phase {
        RunPhaseView::Generating(plan, slots) => {
            assert(playing(plan, slots, slot, plan[slot].0 as int));
            assert(in_some_slot(plan, slots, plan[slot].0 as int));
        },
        _ => {},
    }
}

/// A commit of a binding that ends well settles the task that it was about.
pub proof fn commits_settle_their_task(
    binding: transaction::BindingRunView,
    disk: transaction::QueueDisk,
    queue: QueueView,
    original: Seq<u8>,
)
    requires
        transaction::binding_fits(
            binding,
            disk,
            transaction::BindingView::Done(Ok(queue)),
            original,
        ),
    ensures
        exists|task: AssetTaskView, now: u64|
            settled(task) && queue == #[trigger] scheduler::with_task(
                binding.queue,
                binding.index,
                task,
                now,
            ),
{
    let before = binding.queue.tasks[binding.index];
    if transaction::is_bound_queue(binding, queue) {
        let (filename, now) = choose|filename: Seq<char>, now: u64|
            queue == #[trigger] transaction::queue_bound(binding, filename, now);
        let task = transaction::bound(
            before,
            filename,
            transaction::newest_is_local(binding.task.attempts),
        );
        assert(settled(task));
        assert(queue == scheduler::with_task(binding.queue, binding.index, task, now));
    } else {
        let (error, now) = choose|error: Seq<char>, now: u64|
            queue == #[trigger] transaction::queue_failed(binding, error, now);
        let task = AssetTaskView {
            status: AssetTaskStatus::Failed,
            error: Some("binding failed: "@ + error),
            ..before
        };
        assert(settled(task));
        assert(queue == scheduler::with_task(binding.queue, binding.index, task, now));
    }
}

/// Whether no lane has more tasks in work than its limit.
pub open spec fn within_lanes(run: RunView) -> bool {
    match run.phase {
        RunPhaseView::Generating(plan, slots) => forall|lane: Lane| #[trigger]
            running_in(run.queue.tasks, plan, slots, lane, slots.len() as int)
                <= scheduler::lane_limit(run.queue.limits, lane),
        _ => true,
    }
}

/// Whether a run goes over into another: by a step, by letting a task be
/// generated, or by an attempt at a task that is.
pub open spec fn run_moves(run: RunView, after: RunView) -> bool {
    ||| exists|event: RunEvent, now: u64| #[trigger]
        run_step(run, event, now, after) && event_fits(run, event)
    ||| exists|slot: int| #[trigger]
        open_slot(run, slot) && has_room(run, slot) && after == admitted(run, slot)
    ||| exists|slot: int, task: AssetTaskView, now: u64|
        running_slot(run, slot) && task.kind == run.queue.tasks[slot_task(run, slot)].kind && after
            == (RunView {
            queue: #[trigger] scheduler::with_task(run.queue, slot_task(run, slot), task, now),
            ..run
        })
}

proof fn lemma_running_alike(
    tasks: Seq<AssetTaskView>,
    others: Seq<AssetTaskView>,
    plan: Seq<(usize, u32)>,
    slots: Seq<Slot>,
    lane: Lane,
    n: int,
)
    requires
        0 <= n <= slots.len(),
        slots.len() == plan.len(),
        tasks.len() == others.len(),
        forall|k: int| 0 <= k < plan.len() ==> (#[trigger] plan[k]).0 < tasks.len(),
        forall|i: int| 0 <= i < tasks.len() ==> (#[trigger] tasks[i]).kind == others[i].kind,
    ensures
        running_in(tasks, plan, slots, lane, n) == running_in(others, plan, slots, lane, n),
    decreases n,
{
    if n > 0 {
        lemma_running_alike(tasks, others, plan, slots, lane, n - 1);
        assert(tasks[plan[n - 1].0 as int].kind == others[plan[n - 1].0 as int].kind);
    }
}

proof fn lemma_running_changed(
    tasks: Seq<AssetTaskView>,
    plan: Seq<(usize, u32)>,
    slots: Seq<Slot>,
    slot: int,
    to: Slot,
    lane: Lane,
    n: int,
)
    requires
        0 <= n <= slots.len(),
        0 <= slot < slots.len(),
    ensures
        running_in(tasks, plan, slots.update(slot, to), lane, n) <= running_in(
            tasks,
            plan,
            slots,
            lane,
            n,
        ) + (if to == Slot::Running && scheduler::lane_of(tasks[plan[slot].0 as int].kind) == lane
            && slot < n {
            1nat
        } else {
            0
        }),
    decreases n,
{
    if n > 0 {
        lemma_running_changed(tasks, plan, slots, slot, to, lane, n - 1);
    }
}

proof fn lemma_none_running(
    tasks: Seq<AssetTaskView>,
    plan: Seq<(usize, u32)>,
    slots: Seq<Slot>,
    lane: Lane,
    n: int,
)
    requires
        0 <= n <= slots.len(),
        forall|k: int| 0 <= k < slots.len() ==> #[trigger] slots[k] == Slot::Open,
    ensures
        running_in(tasks, plan, slots, lane, n) == 0,
    decreases n,
{
    if n > 0 {
        lemma_none_running(tasks, plan, slots, lane, n - 1);
    }
}

proof fn lemma_within_lanes(run: RunView, after: RunView)
    requires
        run.wf(),
        within_lanes(run),
        run_moves(run, after),
    ensures
        within_lanes(after),
{
    if let RunPhaseView::Generating(after_plan, after_slots) = after.phase {
        assert forall|lane: Lane| #[trigger]
            running_in(
                after.queue.tasks,
                after_plan,
                after_slots,
                lane,
                after_slots.len() as int,
            ) <= scheduler::lane_limit(after.queue.limits, lane) by {
            match run.phase {
                RunPhaseView::Generating(plan, slots) => {
                    let n = slots.len() as int;
                    assert(running_in(run.queue.tasks, plan, slots, lane, n)
                        <= scheduler::lane_limit(run.queue.limits, lane));
                    if exists|event: RunEvent, now: u64| #[trigger]
                        run_step(run, event, now, after) && event_fits(run, event) {
                        let (event, now) = choose|event: RunEvent, now: u64| #[trigger]
                            run_step(run, event, now, after) && event_fits(run, event);
                        match event {
                            RunEvent::Ended(slot, artifact) => {
                                let to = if artifact {
                                    Slot::Made
                                } else {
                                    Slot::GaveUp
                                };
                                lemma_running_changed(
                                    run.queue.tasks,
                                    plan,
                                    slots,
                                    slot as int,
                                    to,
                                    lane,
                                    n,
                                );
                            },
                            _ => {},
                        }
                    } else if exists|slot: int| #[trigger]
                        open_slot(run, slot) && has_room(run, slot) && after == admitted(run, slot) {
                        let slot = choose|slot: int| #[trigger]
                            open_slot(run, slot) && has_room(run, slot) && after == admitted(
                                run,
                                slot,
                            );
                        lemma_running_changed(
                            run.queue.tasks,
                            plan,
                            slots,
                            slot,
                            Slot::Running,
                            lane,
                            n,
                        );
                    } else {
                        lemma_running_alike(
                            run.queue.tasks,
                            after.queue.tasks,
                            plan,
                            slots,
                            lane,
                            n,
                        );
                    }
                },
                RunPhaseView::SavingPlan(plan) => {
                    assert forall|k: int| 0 <= k < after_slots.len() implies #[trigger] after_slots[k]
                        == Slot::Open by {}
                    lemma_none_running(
                        after.queue.tasks,
                        after_plan,
                        after_slots,
                        lane,
                        after_slots.len() as int,
                    );
                },
                _ => {},
            }
        }
    }
}

/// At no time are more tasks of a lane generated than its limit, whatever steps,
/// admissions and attempts a run is made of.
pub proof fn lanes_are_never_overfull(runs: Seq<RunView>, k: int)
    requires
        runs.len() > 0,
        !(runs[0].phase is Generating),
        forall|j: int| 0 <= j < runs.len() ==> (#[trigger] runs[j]).wf(),
        forall|j: int| 0 <= j < runs.len() - 1 ==> run_moves(#[trigger] runs[j], runs[j + 1]),
        0 <= k < runs.len(),
    ensures
        within_lanes(runs[k]),
    decreases k,
{
    if k > 0 {
        lanes_are_never_overfull(runs, k - 1);
        assert(runs[k - 1].wf());
        assert(run_moves(runs[k - 1], runs[k]));
        lemma_within_lanes(runs[k - 1], runs[k]);
    }
}

/// Binding waits for the last task: a run that was generating comes to bind only
/// when every task is over, and binds what was made, one task at a time, in the
/// order of the queue.
pub proof fn binding_waits_for_generation(run: RunView, event: RunEvent, now: u64, after: RunView)
    requires
        run.wf(),
        event_fits(run, event),
        run_step(run, event, now, after),
        run.phase is Generating,
        after.phase is Binding,
    ensures
        ({
            let plan = run.phase->Generating_0;
            let slots = run.phase->Generating_1;
            let list = after.phase->Binding_0;
            &&& event matches RunEvent::Ended(slot, artifact) && forall|k: int|
                0 <= k < slots.len() && k != slot ==> over(#[trigger] slots[k])
            &&& after.phase->Binding_1 == 0
            &&& forall|i: int, j: int|
                0 <= i < j < list.len() ==> #[trigger] list[i] < #[trigger] list[j]
        }),
{
    let plan = run.phase->Generating_0;
    let slots = run.phase->Generating_1;
    match event {
        RunEvent::Ended(slot, artifact) => {
            let closed = slots.update(
                slot as int,
                if artifact {
                    Slot::Made
                } else {
                    Slot::GaveUp
                },
            );
            assert forall|k: int| 0 <= k < slots.len() && k != slot implies over(
                #[trigger] slots[k],
            ) by {
                assert(closed[k] == slots[k]);
                assert(!some_open(closed));
            }
            lemma_made(run.queue, plan, closed);
        },
        _ => {},
    }
}

// ---------------------------------------------------------------------------
// How a run goes on
// ---------------------------------------------------------------------------

/// What is bound is what was made: a task is on the list of those to be bound exactly
/// where its attempt made something, and the list is in the order of the tasks.
pub proof fn what_was_made_is_bound(plan: Seq<(usize, u32)>, slots: Seq<Slot>, index: usize)
    requires
        plan.len() == slots.len(),
        forall|j: int, k: int|
            0 <= j < k < plan.len() ==> (#[trigger] plan[j]).0 < (#[trigger] plan[k]).0,
    ensures
        made(plan, slots).contains(index) <==> exists|k: int|
            0 <= k < slots.len() && slots[k] == Slot::Made && (#[trigger] plan[k]).0 == index,
        forall|i: int, j: int|
            0 <= i < j < made(plan, slots).len() ==> #[trigger] made(plan, slots)[i]
                < #[trigger] made(plan, slots)[j],
{
    lemma_made_list(plan, slots, index);
}

proof fn lemma_made_list(plan: Seq<(usize, u32)>, slots: Seq<Slot>, index: usize)
    requires
        plan.len() >= slots.len(),
        forall|j: int, k: int|
            0 <= j < k < plan.len() ==> (#[trigger] plan[j]).0 < (#[trigger] plan[k]).0,
    ensures
        made(plan, slots).contains(index) <==> exists|k: int|
            0 <= k < slots.len() && slots[k] == Slot::Made && (#[trigger] plan[k]).0 == index,
        forall|i: int|
            0 <= i < made(plan, slots).len() ==> slots.len() > 0 && #[trigger] made(plan, slots)[i]
                <= plan[slots.len() - 1].0,
        forall|i: int, j: int|
            0 <= i < j < made(plan, slots).len() ==> #[trigger] made(plan, slots)[i]
                < #[trigger] made(plan, slots)[j],
    decreases slots.len(),
{
    if slots.len() > 0 {
        let d = slots.drop_last();
        let last = slots.len() - 1;
        lemma_made_list(plan, d, index);
        let before = made(plan, d);
        let all = made(plan, slots);
        if d.len() > 0 {
            assert(plan[last - 1].0 < plan[last].0);
        }
        if before.contains(index) {
            let i = choose|i: int| 0 <= i < before.len() && before[i] == index;
            assert(all[i] == index);
            let k = choose|k: int|
                0 <= k < d.len() && d[k] == Slot::Made && (#[trigger] plan[k]).0 == index;
            assert(slots[k] == Slot::Made);
        }
        if all.contains(index) {
            let i = choose|i: int| 0 <= i < all.len() && all[i] == index;
            if i < before.len() {
                assert(before[i] == index);
            } else {
                assert(slots[last] == Slot::Made && plan[last].0 == index);
            }
        }
        if exists|k: int|
            0 <= k < slots.len() && slots[k] == Slot::Made && (#[trigger] plan[k]).0 == index {
            let k = choose|k: int|
                0 <= k < slots.len() && slots[k] == Slot::Made && (#[trigger] plan[k]).0 == index;
            if k < last {
                assert(d[k] == Slot::Made);
            } else {
                assert(all[before.len() as int] == index);
            }
        }
    }
}

/// A run goes on to its end: each task is bound after the one before it, and the run is
/// over without a fault only once the last of them is bound, or where nothing was made.
/// A fault in binding, in saving the plan, or of an attempt that cannot be kept ends it
/// with that fault, and so does a cancellation, with its own word.
pub proof fn runs_bind_one_task_after_another(
    run: RunView,
    event: RunEvent,
    now: u64,
    after: RunView,
)
    requires
        run.wf(),
        event_fits(run, event),
        run_step(run, event, now, after),
    ensures
        run.phase matches RunPhaseView::Binding(list, at) ==> {
            &&& event matches RunEvent::Bound(Ok(q)) ==> after.queue == q@ && after.phase == if at
                + 1 < list.len() {
                RunPhaseView::Binding(list, at + 1)
            } else {
                RunPhaseView::Done(None)
            }
            &&& event matches RunEvent::Bound(Err(m)) ==> after.phase == RunPhaseView::Done(
                Some(m@),
            ) && after.queue == run.queue
            &&& event is Cancelled ==> after.phase is SavingCancelled
        },
        run.phase is SavingCancelled ==> (event matches RunEvent::Saved(result) ==> {
            &&& result is Ok ==> after.phase == RunPhaseView::Done(Some("asset queue cancelled"@))
            &&& result matches Err(m) ==> after.phase == RunPhaseView::Done(Some(m@))
        }),
        run.phase matches RunPhaseView::SavingPlan(plan) ==> (event matches RunEvent::Saved(Err(m))
            ==> after.phase == RunPhaseView::Done(Some(m@))),
        run.phase is Generating ==> (event matches RunEvent::Failed(m) ==> after.phase
            == RunPhaseView::Done(Some(m@))),
        run.phase is Rebinding && event is Cancelled ==> after.phase == RunPhaseView::Done(
            Some("asset queue cancelled"@),
        ) && after.queue == run.queue,
        after.phase == RunPhaseView::Done(None) && run.phase != after.phase ==> (run.phase
            matches RunPhaseView::Binding(list, at) && at + 1 == list.len()) || run.phase is Generating
            || run.phase is SavingPlan,
{
}

/// A run that is cancelled while it binds puts the tasks that are not bound yet back to
/// wait, with all their attempts, and touches no other.
pub proof fn cancelled_runs_put_unbound_tasks_back(
    run: RunView,
    now: u64,
    after: RunView,
    i: int,
)
    requires
        run.wf(),
        run.phase is Binding,
        run_step(run, RunEvent::Cancelled, now, after),
        0 <= i < run.queue.tasks.len(),
    ensures
        after.queue.tasks.len() == run.queue.tasks.len(),
        ({
            let list = run.phase->Binding_0;
            let at = run.phase->Binding_1;
            let left = exists|k: int| at <= k < list.len() && #[trigger] list[k] == i;
            let task = run.queue.tasks[i];
            if left && task.status != AssetTaskStatus::Succeeded {
                after.queue.tasks[i] == (AssetTaskView { status: AssetTaskStatus::Pending, ..task })
            } else {
                after.queue.tasks[i] == task
            }
        }),
{
}

/// A rebinding that fails fails its task and no other, and the run goes on with the next
/// finished one; once there is none left, what the tasks need is checked.
pub proof fn failed_rebindings_fail_their_task_only(
    run: RunView,
    result: Result<(), String>,
    now: u64,
    after: RunView,
    j: int,
)
    requires
        run.wf(),
        run.phase is Rebinding,
        run_step(run, RunEvent::Rebound(result), now, after),
        0 <= j < run.queue.tasks.len(),
    ensures
        ({
            let i = run.phase->Rebinding_0;
            &&& after.queue.tasks.len() == run.queue.tasks.len()
            &&& j != i || result is Ok ==> after.queue.tasks[j] == run.queue.tasks[j]
            &&& result matches Err(m) ==> after.queue.tasks[i].status == AssetTaskStatus::Failed
                && (after.queue.tasks[i].error matches Some(e) && text::ends(e, m@))
            &&& after.phase matches RunPhaseView::Rebinding(k) ==> i < k < run.queue.tasks.len()
                && run.queue.tasks[k].status == AssetTaskStatus::Succeeded && (i < j < k
                ==> run.queue.tasks[j].status != AssetTaskStatus::Succeeded)
            &&& after.phase is Rebinding || after.phase is Checking
            &&& after.phase is Checking && i < j ==> run.queue.tasks[j].status
                != AssetTaskStatus::Succeeded
        }),
{
    let i = run.phase->Rebinding_0;
    scheduler::finished_tasks_are_found_in_order(after.queue.tasks, i + 1);
    if let Err(m) = result {
        text::parts_of_a_text_are_found("rebinding failed: "@, m@, Seq::empty(), m@);
    }
    if i < j {
        assert(after.queue.tasks[j] == run.queue.tasks[j]);
    }
}

/// A task is let in exactly where fewer tasks of its lane are running than the lane is
/// wide; the others are not moved by it.
pub proof fn tasks_are_let_in_where_their_lane_has_room(run: RunView, slot: int)
    requires
        run.wf(),
        open_slot(run, slot),
    ensures
        ({
            let plan = run.phase->Generating_0;
            let slots = run.phase->Generating_1;
            let kind = run.queue.tasks[plan[slot].0 as int].kind;
            let width = if kind == AssetKind::Background || kind == AssetKind::Figure {
                run.queue.limits.image
            } else if kind == AssetKind::Tts {
                run.queue.limits.tts
            } else {
                run.queue.limits.music
            };
            &&& has_room(run, slot) <==> running_in(
                run.queue.tasks,
                plan,
                slots,
                scheduler::lane_of(kind),
                slots.len() as int,
            ) < width
            &&& admitted(run, slot).queue == run.queue
            &&& admitted(run, slot).phase == RunPhaseView::Generating(
                plan,
                slots.update(slot, Slot::Running),
            )
        }),
{
}

/// A run begins where every limit lets something run: over the queue as it is, with the finished
/// tasks of the same run to be bound again, and else with the check of what can be made.
pub proof fn runs_begin_over_their_queue(
    r: Result<QueueRun, String>,
    queue: AssetQueue,
    same_run: bool,
)
    requires
        begins_run(r, queue, same_run),
    ensures
        r is Ok <==> scheduler::limits_positive(queue.limits),
        r is Ok ==> r->Ok_0@.queue == queue@ && r->Ok_0@.same_run == same_run,
        r is Ok && !same_run ==> r->Ok_0@.phase is Checking,
        r is Ok && same_run ==> r->Ok_0@.phase is Checking || r->Ok_0@.phase is Rebinding,
        r is Ok && same_run && r->Ok_0@.phase is Rebinding ==> r->Ok_0@.phase->Rebinding_0
            == scheduler::next_finished(queue@.tasks, 0),
        r is Ok && same_run ==> (r->Ok_0@.phase is Checking <==> scheduler::next_finished(
            queue@.tasks,
            0,
        ) >= queue@.tasks.len()),
        r is Err ==> r->Err_0@ == "asset queue concurrency limits must be greater than zero"@,
{
}

/// The tasks that run in a lane are counted slot by slot: one for each slot that runs and whose task
/// is of the lane.
pub proof fn running_tasks_are_counted_by_lane(
    tasks: Seq<AssetTaskView>,
    plan: Seq<(usize, u32)>,
    slots: Seq<Slot>,
    lane: Lane,
    n: int,
)
    requires
        0 <= n < slots.len(),
    ensures
        running_in(tasks, plan, slots, lane, 0) == 0,
        running_in(tasks, plan, slots, lane, n + 1) == running_in(tasks, plan, slots, lane, n) + (
        if slots[n] == Slot::Running && scheduler::lane_of(tasks[plan[n].0 as int].kind) == lane {
            1nat
        } else {
            0
        }),
        (forall|i: int| 0 <= i <= n ==> #[trigger] slots[i] != Slot::Running) ==> running_in(
            tasks,
            plan,
            slots,
            lane,
            n + 1,
        ) == 0,
    decreases n,
{
    if n > 0 {
        running_tasks_are_counted_by_lane(tasks, plan, slots, lane, n - 1);
    }
}

} // verus!
