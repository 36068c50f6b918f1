//! Which of a project's resources a running flow holds against edits.
use vstd::prelude::*;

use crate::text;
use crate::text_map::TextMap;

verus! {

broadcast use vstd::string::group_string_axioms;

#[derive(Debug, Clone, Copy, PartialEq, Eq, Hash, Structural)]
pub enum FlowResource {
    Characters,
    StoryPlan,
}

/// The name of a resource in messages.
pub open spec fn label_of(r: FlowResource) -> Seq<char> {
    match r {
        FlowResource::Characters => "角色资料"@,
        FlowResource::StoryPlan => "故事计划"@,
    }
}

impl FlowResource {
    pub fn label(self) -> (r: &'static str)
        ensures
            r@ == label_of(self),
    {
        match self {
            FlowResource::Characters => "角色资料",
            FlowResource::StoryPlan => "故事计划",
        }
    }
}

/// How many flows hold each resource of each project.
pub struct FlowLocks {
    characters: TextMap<usize>,
    story_plans: TextMap<usize>,
}

/// The count of a project in a table; a project that is not in it has none.
pub open spec fn count_of(m: Map<Seq<char>, usize>, project: Seq<char>) -> nat {
    if m.dom().contains(project) {
        m[project] as nat
    } else {
        0
    }
}

/// The counts kept in a table are those of projects that are held.
pub open spec fn positive(m: Map<Seq<char>, usize>) -> bool {
    forall|p: Seq<char>| #[trigger] m.dom().contains(p) ==> m[p] > 0
}

/// How often a resource stands in a list.
pub open spec fn occurrences(resources: Seq<FlowResource>, r: FlowResource) -> nat
    decreases resources.len(),
{
    if resources.len() == 0 {
        0
    } else {
        occurrences(resources.drop_last(), r) + (if resources.last() == r {
            1nat
        } else {
            0
        })
    }
}

proof fn lemma_occurrences(resources: Seq<FlowResource>, r: FlowResource)
    ensures
        occurrences(resources, r) <= resources.len(),
    decreases resources.len(),
{
    if resources.len() > 0 {
        lemma_occurrences(resources.drop_last(), r);
    }
}

/// A flow's hold on resources of a project.
pub struct FlowEditGuard {
    pub project: String,
    pub resources: Vec<FlowResource>,
}

fn increment(table: &mut TextMap<usize>, project: &str)
    requires
        count_of(old(table)@, project@) < usize::MAX,
        positive(old(table)@),
    ensures
        positive(final(table)@),
        count_of(final(table)@, project@) == count_of(old(table)@, project@) + 1,
        forall|p: Seq<char>|
            p != project@ ==> #[trigger] count_of(final(table)@, p) == count_of(old(table)@, p),
{
    let count: usize = match table.get(project) {
        Some(n) => *n,
        None => 0,
    };
    table.insert(text::copy(project), count + 1);
}

fn decrement(table: &mut TextMap<usize>, project: &str)
    requires
        positive(old(table)@),
    ensures
        positive(final(table)@),
        count_of(final(table)@, project@) == (if count_of(old(table)@, project@) > 0 {
            (count_of(old(table)@, project@) - 1) as nat
        } else {
            0
        }),
        forall|p: Seq<char>|
            p != project@ ==> #[trigger] count_of(final(table)@, p) == count_of(old(table)@, p),
{
    let count: usize = match table.get(project) {
        Some(n) => *n,
        None => 0,
    };
    if count > 1 {
        table.insert(text::copy(project), count - 1);
    } else if count == 1 {
        table.remove(project);
    }
}

/// The message that refuses an edit.
pub open spec fn refusal(r: FlowResource) -> Seq<char> {
    "Agent Flow 正在使用"@ + label_of(r)
        + "，暂时无法保存修改。请等待当前步骤结束或先停止流程。"@
}

impl FlowLocks {
    /// How many flows hold a resource of a project.
    pub closed spec fn held(&self, project: Seq<char>, r: FlowResource) -> nat {
        match r {
            FlowResource::Characters => count_of(self.characters@, project),
            FlowResource::StoryPlan => count_of(self.story_plans@, project),
        }
    }

    /// The counts kept are those of projects that are held.
    pub closed spec fn wf(&self) -> bool {
        positive(self.characters@) && positive(self.story_plans@)
    }

    pub fn new() -> (r: FlowLocks)
        ensures
            r.wf(),
            forall|p: Seq<char>, x: FlowResource| #[trigger] r.held(p, x) == 0,
    {
        FlowLocks { characters: TextMap::new(), story_plans: TextMap::new() }
    }

    fn hold(&mut self, project: &str, r: FlowResource)
        requires
            old(self).wf(),
            old(self).held(project@, r) < usize::MAX,
        ensures
            final(self).wf(),
            forall|p: Seq<char>, x: FlowResource| #[trigger]
                final(self).held(p, x) == old(self).held(p, x) + (if p == project@ && x == r {
                    1nat
                } else {
                    0
                }),
    {
        let ghost before = *self;
        match r {
            FlowResource::Characters => increment(&mut self.characters, project),
            FlowResource::StoryPlan => increment(&mut self.story_plans, project),
        }
        assert forall|p: Seq<char>, x: FlowResource| #[trigger]
            self.held(p, x) == before.held(p, x) + (if p == project@ && x == r {
                1nat
            } else {
                0
            }) by {
            match x {
                FlowResource::Characters => {
                    assert(self.held(p, x) == count_of(self.characters@, p));
                },
                FlowResource::StoryPlan => {
                    assert(self.held(p, x) == count_of(self.story_plans@, p));
                },
            }
        }
    }

    fn give_up(&mut self, project: &str, r: FlowResource)
        requires
            old(self).wf(),
        ensures
            final(self).wf(),
            forall|p: Seq<char>, x: FlowResource| #[trigger]
                final(self).held(p, x) == (if p == project@ && x == r {
                    less(old(self).held(p, x), 1)
                } else {
                    old(self).held(p, x)
                }),
    {
        let ghost before = *self;
        match r {
            FlowResource::Characters => decrement(&mut self.characters, project),
            FlowResource::StoryPlan => decrement(&mut self.story_plans, project),
        }
        assert forall|p: Seq<char>, x: FlowResource| #[trigger]
            self.held(p, x) == (if p == project@ && x == r {
                less(before.held(p, x), 1)
            } else {
                before.held(p, x)
            }) by {
            match x {
                FlowResource::Characters => {
                    assert(self.held(p, x) == count_of(self.characters@, p));
                },
                FlowResource::StoryPlan => {
                    assert(self.held(p, x) == count_of(self.story_plans@, p));
                },
            }
        }
    }

    /// Whether a resource may be saved: only while no flow holds it.
    pub fn ensure_editable(&self, project: &str, resource: FlowResource) -> (r: Result<(), String>)
        requires
            self.wf(),
        ensures
            r is Ok <==> self.held(project@, resource) == 0,
            r matches Err(m) ==> m@ == refusal(resource),
    {
        let found = match resource {
            FlowResource::Characters => self.characters.contains_key(project),
            FlowResource::StoryPlan => self.story_plans.contains_key(project),
        };
        if found {
            let mut message = text::copy("Agent Flow 正在使用");
            message.append(resource.label());
            message.append("，暂时无法保存修改。请等待当前步骤结束或先停止流程。");
            Err(message)
        } else {
            Ok(())
        }
    }
}

impl FlowEditGuard {
    /// Takes a hold on resources of a project, as often as each is listed.
    pub fn acquire(locks: &mut FlowLocks, project: &str, resources: &Vec<FlowResource>) -> (r:
        FlowEditGuard)
        requires
            old(locks).wf(),
            forall|x: FlowResource|
                #[trigger] old(locks).held(project@, x) + resources@.len() <= usize::MAX,
        ensures
            r.project@ == project@,
            r.resources@ == resources@,
            final(locks).wf(),
            forall|x: FlowResource|
                #[trigger] final(locks).held(project@, x) == old(locks).held(project@, x)
                    + occurrences(resources@, x),
            forall|p: Seq<char>, x: FlowResource|
                p != project@ ==> #[trigger] final(locks).held(p, x) == old(locks).held(p, x),
    {
        let ghost start = *locks;
        let mut copied: Vec<FlowResource> = Vec::new();
        let mut i: usize = 0;
        while i < resources.len()
            invariant
                i <= resources.len(),
                copied@ =~= resources@.take(i as int),
                locks.wf(),
                forall|x: FlowResource|
                    #[trigger] start.held(project@, x) + resources@.len() <= usize::MAX,
                forall|x: FlowResource|
                    #[trigger] locks.held(project@, x) == start.held(project@, x) + occurrences(
                        resources@.take(i as int),
                        x,
                    ),
                forall|p: Seq<char>, x: FlowResource|
                    p != project@ ==> #[trigger] locks.held(p, x) == start.held(p, x),
            decreases resources.len() - i,
        {
            let ghost before = *locks;
            proof {
                assert(resources@.take(i + 1).drop_last() =~= resources@.take(i as int));
                assert(resources@.take(i + 1).last() == resources@[i as int]);
                lemma_occurrences(resources@.take(i as int), resources@[i as int]);
                assert(before.held(project@, resources@[i as int]) < usize::MAX);
            }
            locks.hold(project, resources[i]);
            copied.push(resources[i]);
            i += 1;
        }
        assert(resources@.take(resources@.len() as int) =~= resources@);
        FlowEditGuard { project: text::copy(project), resources: copied }
    }

    /// Gives a hold up.
    pub fn release(self, locks: &mut FlowLocks)
        requires
            old(locks).wf(),
        ensures
            final(locks).wf(),
            forall|x: FlowResource|
                #[trigger] final(locks).held(self.project@, x) == less(
                    old(locks).held(self.project@, x),
                    occurrences(self.resources@, x),
                ),
            forall|p: Seq<char>, x: FlowResource|
                p != self.project@ ==> #[trigger] final(locks).held(p, x) == old(locks).held(p, x),
    {
        let ghost start = *locks;
        let mut i: usize = 0;
        while i < self.resources.len()
            invariant
                i <= self.resources.len(),
                locks.wf(),
                forall|x: FlowResource|
                    #[trigger] locks.held(self.project@, x) == less(
                        start.held(self.project@, x),
                        occurrences(self.resources@.take(i as int), x),
                    ),
                forall|p: Seq<char>, x: FlowResource|
                    p != self.project@ ==> #[trigger] locks.held(p, x) == start.held(p, x),
            decreases self.resources.len() - i,
        {
            proof {
                assert(self.resources@.take(i + 1).drop_last() =~= self.resources@.take(i as int));
                assert(self.resources@.take(i + 1).last() == self.resources@[i as int]);
            }
            locks.give_up(self.project.as_str(), self.resources[i]);
            i += 1;
        }
        assert(self.resources@.take(self.resources@.len() as int) =~= self.resources@);
    }
}

/// What is left of a count, never less than nothing.
pub open spec fn less(count: nat, n: nat) -> nat {
    if count >= n {
        (count - n) as nat
    } else {
        0
    }
}

/// Giving a hold up undoes taking it, whatever other holds were taken on the
/// same resources meanwhile: what is left is what those others hold.
pub proof fn releasing_undoes_acquiring(
    count: nat,
    resources: Seq<FlowResource>,
    others: Seq<FlowResource>,
    r: FlowResource,
)
    ensures
        less(count + occurrences(resources, r), occurrences(resources, r)) == count,
        less(
            count + occurrences(resources, r) + occurrences(others, r),
            occurrences(resources, r),
        ) == count + occurrences(others, r),
{
}

/// A resource that a flow lists is held while the flow has it.
pub proof fn listed_resources_are_held(resources: Seq<FlowResource>, r: FlowResource)
    requires
        resources.contains(r),
    ensures
        occurrences(resources, r) > 0,
    decreases resources.len(),
{
    if resources.last() != r {
        let i = choose|i: int| 0 <= i < resources.len() && resources[i] == r;
        assert(resources.drop_last()[i] == r);
        listed_resources_are_held(resources.drop_last(), r);
    }
}

/// A list holds a resource as often as it names it: a list after another holds it as often as both
/// do, and one name counts once.
pub proof fn resources_are_held_as_often_as_named(
    a: Seq<FlowResource>,
    b: Seq<FlowResource>,
    r: FlowResource,
)
    ensures
        occurrences(Seq::empty(), r) == 0,
        occurrences(seq![r], r) == 1,
        forall|other: FlowResource|
            other != r ==> #[trigger] occurrences(seq![other], r) == 0,
        occurrences(a + b, r) == occurrences(a, r) + occurrences(b, r),
    decreases b.len(),
{
    reveal_with_fuel(occurrences, 2);
    assert(seq![r].drop_last() =~= Seq::<FlowResource>::empty());
    assert forall|other: FlowResource| other != r implies #[trigger] occurrences(seq![other], r)
        == 0 by {
        assert(seq![other].drop_last() =~= Seq::<FlowResource>::empty());
    }
    if b.len() == 0 {
        assert(a + b =~= a);
    } else {
        assert((a + b).drop_last() =~= a + b.drop_last());
        resources_are_held_as_often_as_named(a, b.drop_last(), r);
    }
}

/// Giving up takes away as many as are given up, and never more than are held.
pub proof fn no_more_is_given_up_than_is_held(count: nat, n: nat)
    ensures
        count >= n ==> less(count, n) + n == count,
        count < n ==> less(count, n) == 0,
{
}

/// A resource that a flow holds is named in the refusal.
pub proof fn refusals_name_what_is_held(r: FlowResource)
    ensures
        refusal(r) == "Agent Flow 正在使用"@ + (match r {
            FlowResource::Characters => "角色资料"@,
            FlowResource::StoryPlan => "故事计划"@,
        }) + "，暂时无法保存修改。请等待当前步骤结束或先停止流程。"@,
{
}

} // verus!
