//! Which chat runs are under way, and which were cancelled.
//!
//! A run that was cancelled leaves a marker, also where the cancellation came
//! before the run; a marker refuses the run and goes after a while. The caller
//! holds the registry's lock, drives the run's future, and wakes it where
//! `cancel` says that it is live.
use vstd::prelude::*;

use crate::paths;
use crate::text;
use crate::text_map;
use crate::text_map::TextMap;

verus! {

broadcast use vstd::string::group_string_axioms;

/// How long a marker stays, in nanoseconds.
pub const CANCELLED_MARKER_TTL: u64 = 300_000_000_000;

/// How many markers are kept.
pub const MAX_CANCELLED_MARKERS: usize = 1024;

#[derive(Debug, PartialEq, Eq)]
pub enum ChatRunState {
    /// The run is under way; `token` tells it from others of the same id.
    Live { project_path: String, token: u64, cancelled: bool },
    /// The run was cancelled at this time.
    Cancelled { project_path: String, inserted_at: u64, sequence: u64 },
}

pub enum RunView {
    Live { project: Seq<char>, token: u64, cancelled: bool },
    Cancelled { project: Seq<char>, at: u64, sequence: u64 },
}

impl View for ChatRunState {
    type V = RunView;

    open spec fn view(&self) -> RunView {
        match *self {
            ChatRunState::Live { project_path, token, cancelled } => RunView::Live {
                project: project_path@,
                token,
                cancelled,
            },
            ChatRunState::Cancelled { project_path, inserted_at, sequence } => RunView::Cancelled {
                project: project_path@,
                at: inserted_at,
                sequence,
            },
        }
    }
}

/// The project that a run belongs to.
pub open spec fn owner(s: RunView) -> Seq<char> {
    match s {
        RunView::Live { project, .. } => project,
        RunView::Cancelled { project, .. } => project,
    }
}

/// The runs of a table.
pub open spec fn runs_of(m: Map<Seq<char>, ChatRunState>) -> Map<Seq<char>, RunView> {
    m.map_values(|s: ChatRunState| s@)
}

/// Whether a run is still to be kept: a marker goes when its time is up.
pub open spec fn fresh(s: RunView, now: u64) -> bool {
    match s {
        RunView::Live { .. } => true,
        RunView::Cancelled { at, .. } => now - at < CANCELLED_MARKER_TTL,
    }
}

/// The runs without the markers whose time is up.
pub open spec fn pruned(m: Map<Seq<char>, RunView>, now: u64) -> Map<Seq<char>, RunView> {
    Map::new(|k: Seq<char>| m.dom().contains(k) && fresh(m[k], now), |k: Seq<char>| m[k])
}

/// The ids of the markers.
pub open spec fn markers(m: Map<Seq<char>, RunView>) -> Set<Seq<char>> {
    Set::new(|k: Seq<char>| m.dom().contains(k) && m[k] is Cancelled)
}

/// Whether a marker is among the oldest.
pub open spec fn oldest(m: Map<Seq<char>, RunView>, k: Seq<char>) -> bool {
    markers(m).contains(k) && forall|j: Seq<char>| #[trigger]
        markers(m).contains(j) ==> m[k]->sequence <= m[j]->sequence
}

/// The runs with no more markers than are kept: the oldest goes where there is
/// one too many.
pub open spec fn capped(m: Map<Seq<char>, RunView>, r: Map<Seq<char>, RunView>) -> bool {
    if markers(m).len() > MAX_CANCELLED_MARKERS {
        exists|k: Seq<char>| #[trigger] oldest(m, k) && r == m.remove(k)
    } else {
        r == m
    }
}

/// The message to a project that does not own a run.
pub open spec fn mismatch(run_id: Seq<char>, owner: Seq<char>, caller: Seq<char>) -> Seq<char> {
    "chat run "@ + run_id + " belongs to project "@ + owner + ", not "@ + caller
}

/// Why a run may not begin, if it may not.
pub open spec fn refusal(
    m: Map<Seq<char>, RunView>,
    project: Seq<char>,
    run_id: Seq<char>,
) -> Option<Seq<char>> {
    if !m.dom().contains(run_id) {
        None
    } else {
        let s = m[run_id];
        if !paths::same_path(owner(s), project) {
            Some(mismatch(run_id, owner(s), project))
        } else if s is Cancelled {
            Some("chat run has been cancelled: "@ + run_id)
        } else {
            Some("chat run already active: "@ + run_id)
        }
    }
}

/// The runs of a registry, and the sequence number of its next marker.
pub struct RegistryView {
    pub runs: Map<Seq<char>, RunView>,
    pub sequence: u64,
}

/// A call on a registry.
pub enum RegistryCall {
    Begin { project: Seq<char>, run_id: Seq<char>, now: u64, token: u64 },
    Finish { run_id: Seq<char>, token: u64, now: u64 },
    Cancel { project: Seq<char>, run_id: Seq<char>, now: u64 },
}

/// When a call is made.
pub open spec fn time_of(call: RegistryCall) -> u64 {
    match call {
        RegistryCall::Begin { now, .. } => now,
        RegistryCall::Finish { now, .. } => now,
        RegistryCall::Cancel { now, .. } => now,
    }
}

/// Whether a marker for a run is put into a registry, with the next number.
pub open spec fn marks(
    before: RegistryView,
    project: Seq<char>,
    run_id: Seq<char>,
    now: u64,
    after: RegistryView,
) -> bool {
    &&& capped(
        before.runs.insert(
            run_id,
            RunView::Cancelled { project, at: now, sequence: before.sequence },
        ),
        after.runs,
    )
    &&& after.sequence == before.sequence.wrapping_add(1)
}

/// Whether a call takes a registry from one state to another. A run that begins is
/// live; one that ends leaves a marker where it was cancelled; one that is
/// cancelled is told, or leaves a marker where it is not known.
pub open spec fn registry_moves(
    before: RegistryView,
    call: RegistryCall,
    after: RegistryView,
) -> bool {
    match call {
        RegistryCall::Begin { project, run_id, now, token } => {
            let kept = pruned(before.runs, now);
            &&& after.sequence == before.sequence
            &&& after.runs == (if refusal(kept, project, run_id) is Some {
                kept
            } else {
                kept.insert(run_id, RunView::Live { project, token, cancelled: false })
            })
        },
        RegistryCall::Finish { run_id, token, now } => match ended(before.runs, run_id, token) {
            Ended::Elsewhere => after == before,
            Ended::Completed => after == (RegistryView {
                runs: before.runs.remove(run_id),
                ..before
            }),
            Ended::WasCancelled(project) => marks(before, project, run_id, now, after),
        },
        RegistryCall::Cancel { project, run_id, now } => {
            let kept = RegistryView { runs: pruned(before.runs, now), ..before };
            if !kept.runs.dom().contains(run_id) {
                marks(kept, project, run_id, now, after)
            } else if !paths::same_path(owner(kept.runs[run_id]), project) {
                after == kept
            } else {
                after == (RegistryView { runs: after_cancel(kept.runs, run_id), ..kept })
            }
        },
    }
}

/// The registry of runs.
pub struct ChatRunRegistry {
    states: TextMap<ChatRunState>,
    next_cancelled_sequence: u64,
    next_token: u64,
}

fn project_mismatch(run_id: &str, owner: &str, caller: &str) -> (r: String)
    ensures
        r@ == mismatch(run_id@, owner@, caller@),
{
    let mut s = text::copy("chat run ");
    s.append(run_id);
    s.append(" belongs to project ");
    s.append(owner);
    s.append(", not ");
    s.append(caller);
    s
}

fn is_fresh(s: &ChatRunState, now: u64) -> (r: bool)
    ensures
        r == fresh(s@, now),
{
    match s {
        ChatRunState::Live { .. } => true,
        ChatRunState::Cancelled { inserted_at, .. } => now.saturating_sub(*inserted_at)
            < CANCELLED_MARKER_TTL,
    }
}

/// The markers among the first `n` entries.
spec fn markers_upto(entries: Seq<(String, ChatRunState)>, n: int) -> Set<Seq<char>>
    decreases n,
{
    if n <= 0 {
        Set::empty()
    } else if entries[n - 1].1 is Cancelled {
        markers_upto(entries, n - 1).insert(entries[n - 1].0@)
    } else {
        markers_upto(entries, n - 1)
    }
}

proof fn lemma_markers_upto(entries: Seq<(String, ChatRunState)>, n: int, k: Seq<char>)
    requires
        0 <= n <= entries.len(),
    ensures
        markers_upto(entries, n).finite(),
        markers_upto(entries, n).contains(k) <==> exists|i: int|
            0 <= i < n && text_map::key_at(entries, i, k) && entries[i].1 is Cancelled,
    decreases n,
{
    if n > 0 {
        lemma_markers_upto(entries, n - 1, k);
        if entries[n - 1].1 is Cancelled && entries[n - 1].0@ == k {
            assert(text_map::key_at(entries, n - 1, k));
        }
    }
}

proof fn lemma_markers(entries: Seq<(String, ChatRunState)>)
    requires
        text_map::distinct_keys(entries),
    ensures
        markers_upto(entries, entries.len() as int) == markers(
            runs_of(text_map::map_of(entries)),
        ),
        markers_upto(entries, entries.len() as int).finite(),
{
    let n = entries.len() as int;
    let m = text_map::map_of(entries);
    let all = runs_of(m);
    lemma_markers_upto(entries, n, Seq::empty());
    assert forall|k: Seq<char>| markers_upto(entries, n).contains(k) == markers(all).contains(
        k,
    ) by {
        lemma_markers_upto(entries, n, k);
        if markers(all).contains(k) {
            let i = choose|i: int| text_map::key_at(entries, i, k);
            text_map::lemma_map_at(entries, i);
            assert(all[k] == m[k]@);
        }
        if markers_upto(entries, n).contains(k) {
            let i = choose|i: int|
                0 <= i < n && text_map::key_at(entries, i, k) && entries[i].1 is Cancelled;
            text_map::lemma_map_at(entries, i);
            assert(all[k] == m[k]@);
        }
    }
    assert(markers_upto(entries, n) =~= markers(all));
}

impl ChatRunRegistry {
    /// The runs.
    pub closed spec fn runs(&self) -> Map<Seq<char>, RunView> {
        runs_of(self.states@)
    }

    /// The sequence number of the next marker.
    pub closed spec fn next_sequence(&self) -> u64 {
        self.next_cancelled_sequence
    }

    /// The token of the next run.
    pub closed spec fn fresh_token(&self) -> u64 {
        self.next_token
    }

    /// The runs, and the sequence number of the next marker.
    pub open spec fn state(&self) -> RegistryView {
        RegistryView { runs: self.runs(), sequence: self.next_sequence() }
    }

    /// No more markers than are kept.
    pub open spec fn wf(&self) -> bool {
        markers(self.runs()).finite() && markers(self.runs()).len() <= MAX_CANCELLED_MARKERS
    }

    pub fn new() -> (r: ChatRunRegistry)
        ensures
            r.wf(),
            r.runs() == Map::<Seq<char>, RunView>::empty(),
            r.next_sequence() == 0,
            r.fresh_token() == 0,
    {
        let r = ChatRunRegistry {
            states: TextMap::new(),
            next_cancelled_sequence: 0,
            next_token: 0,
        };
        assert(r.runs() =~= Map::<Seq<char>, RunView>::empty());
        assert(markers(r.runs()) =~= Set::<Seq<char>>::empty());
        r
    }

    /// How many markers there are.
    pub fn marker_count(&self) -> (r: usize)
        ensures
            r == markers(self.runs()).len(),
            markers(self.runs()).finite(),
    {
        let n = self.states.len();
        let ghost entries = self.states.entries();
        let mut count: usize = 0;
        let mut i: usize = 0;
        while i < n
            invariant
                n == self.states.entries().len(),
                entries == self.states.entries(),
                text_map::distinct_keys(entries),
                i <= n,
                count <= i,
                count == markers_upto(entries, i as int).len(),
            decreases n - i,
        {
            let (_, state) = self.states.entry(i);
            proof {
                lemma_markers_upto(entries, i as int, entries[i as int].0@);
            }
            match state {
                ChatRunState::Cancelled { .. } => {
                    count += 1;
                },
                ChatRunState::Live { .. } => {},
            }
            i += 1;
        }
        proof {
            lemma_markers(entries);
        }
        count
    }

    /// Drops the markers whose time is up.
    fn prune_cancelled_markers(&mut self, now: u64)
        requires
            old(self).wf(),
        ensures
            final(self).wf(),
            final(self).runs() == pruned(old(self).runs(), now),
            final(self).next_sequence() == old(self).next_sequence(),
            final(self).fresh_token() == old(self).fresh_token(),
    {
        let n = self.states.len();
        let ghost entries = self.states.entries();
        let ghost before = self.states@;
        let mut stale: Vec<String> = Vec::new();
        let mut i: usize = 0;
        while i < n
            invariant
                n == self.states.entries().len(),
                entries == self.states.entries(),
                text_map::distinct_keys(entries),
                before == self.states@,
                before == text_map::map_of(entries),
                i <= n,
                forall|k: Seq<char>| #[trigger]
                    text::texts(stale@).contains(k) <==> exists|j: int|
                        0 <= j < i && text_map::key_at(entries, j, k) && !fresh(
                            entries[j].1@,
                            now,
                        ),
            decreases n - i,
        {
            let (run_id, state) = self.states.entry(i);
            let ghost listed = text::texts(stale@);
            if !is_fresh(state, now) {
                stale.push(text::copy(run_id));
                assert(text::texts(stale@) =~= listed.push(run_id@));
                assert forall|k: Seq<char>| #[trigger]
                    text::texts(stale@).contains(k) == (listed.contains(k) || k == run_id@) by {
                    let all = listed.push(run_id@);
                    if listed.contains(k) {
                        let q = choose|q: int| 0 <= q < listed.len() && listed[q] == k;
                        assert(all[q] == k);
                    }
                    if k == run_id@ {
                        assert(all[listed.len() as int] == k);
                    }
                }
                assert(text_map::key_at(entries, i as int, run_id@));
            }
            i += 1;
        }
        let ghost gone = text::texts(stale@);
        let mut d: usize = 0;
        while d < stale.len()
            invariant
                d <= stale.len(),
                gone == text::texts(stale@),
                forall|k: Seq<char>| #[trigger]
                    self.states@.dom().contains(k) <==> before.dom().contains(k)
                        && !gone.take(d as int).contains(k),
                forall|k: Seq<char>|
                    self.states@.dom().contains(k) ==> #[trigger] self.states@[k] == before[k],
                self.next_cancelled_sequence == old(self).next_cancelled_sequence,
                self.next_token == old(self).next_token,
            decreases stale.len() - d,
        {
            proof {
                let t = gone.take(d + 1);
                let u = gone.take(d as int);
                assert(t =~= u.push(gone[d as int]));
                assert forall|k: Seq<char>| #[trigger]
                    t.contains(k) == (u.contains(k) || k == gone[d as int]) by {
                    if u.contains(k) {
                        let q = choose|q: int| 0 <= q < u.len() && u[q] == k;
                        assert(t[q] == k);
                    }
                    if k == gone[d as int] {
                        assert(t[d as int] == k);
                    }
                }
            }
            self.states.remove(stale[d].as_str());
            d += 1;
        }
        proof {
            assert(gone.take(gone.len() as int) =~= gone);
            let all = runs_of(before);
            assert forall|k: Seq<char>| before.dom().contains(k) implies gone.contains(k) != fresh(
                before[k]@,
                now,
            ) by {
                let j = choose|j: int| text_map::key_at(entries, j, k);
                text_map::lemma_map_at(entries, j);
                if gone.contains(k) {
                    let q = choose|q: int|
                        0 <= q < n && text_map::key_at(entries, q, k) && !fresh(entries[q].1@, now);
                    assert(entries[q].0@ == entries[j].0@);
                }
            }
            assert(self.runs() =~= pruned(all, now));
            assert(markers(self.runs()).subset_of(markers(all)));
            vstd::set_lib::lemma_len_subset(markers(self.runs()), markers(all));
        }
    }

    /// Puts a marker where a run was or will be.
    fn mark_cancelled(&mut self, project: &str, run_id: &str, now: u64)
        requires
            old(self).wf(),
        ensures
            final(self).wf(),
            capped(
                old(self).runs().insert(
                    run_id@,
                    RunView::Cancelled {
                        project: project@,
                        at: now,
                        sequence: old(self).next_sequence(),
                    },
                ),
                final(self).runs(),
            ),
            final(self).next_sequence() == old(self).next_sequence().wrapping_add(1),
            final(self).fresh_token() == old(self).fresh_token(),
    {
        let ghost before = self.runs();
        let sequence = self.next_cancelled_sequence;
        self.next_cancelled_sequence = sequence.wrapping_add(1);
        let state = ChatRunState::Cancelled {
            project_path: text::copy(project),
            inserted_at: now,
            sequence,
        };
        let ghost marker = state@;
        self.states.insert(text::copy(run_id), state);
        let ghost marked = before.insert(run_id@, marker);
        proof {
            assert(self.runs() =~= marked);
            assert(markers(marked) =~= markers(before).insert(run_id@));
        }
        if self.marker_count() > MAX_CANCELLED_MARKERS {
            let n = self.states.len();
            let ghost entries = self.states.entries();
            proof {
                lemma_markers(entries);
            }
            let mut found: Option<usize> = None;
            let mut least: u64 = 0;
            let mut i: usize = 0;
            while i < n
                invariant
                    n == self.states.entries().len(),
                    entries == self.states.entries(),
                    i <= n,
                    match found {
                        Some(at) => at < i && entries[at as int].1 is Cancelled
                            && entries[at as int].1->sequence == least && forall|j: int|
                            0 <= j < i && (#[trigger] entries[j]).1 is Cancelled ==> least
                                <= entries[j].1->sequence,
                        None => forall|j: int|
                            0 <= j < i ==> !((#[trigger] entries[j]).1 is Cancelled),
                    },
                decreases n - i,
            {
                let (_, state) = self.states.entry(i);
                match state {
                    ChatRunState::Cancelled { sequence, .. } => {
                        if found.is_none() || *sequence < least {
                            found = Some(i);
                            least = *sequence;
                        }
                    },
                    ChatRunState::Live { .. } => {},
                }
                i += 1;
            }
            proof {
                if found is None {
                    assert(markers(marked) =~= Set::<Seq<char>>::empty()) by {
                        assert forall|k: Seq<char>| !markers(marked).contains(k) by {
                            lemma_markers_upto(entries, n as int, k);
                        }
                    }
                }
            }
            match found {
                Some(at) => {
                    let (key, _) = self.states.entry(at);
                    let gone = text::copy(key);
                    proof {
                        text_map::lemma_map_at(entries, at as int);
                        lemma_markers_upto(entries, n as int, gone@);
                        assert(text_map::key_at(entries, at as int, gone@));
                        assert(markers(marked).contains(gone@));
                        assert(marked[gone@] == entries[at as int].1@);
                        assert forall|j: Seq<char>| #[trigger] markers(marked).contains(
                            j,
                        ) implies marked[gone@]->sequence <= marked[j]->sequence by {
                            lemma_markers_upto(entries, n as int, j);
                            let q = choose|q: int|
                                0 <= q < n && text_map::key_at(entries, q, j)
                                    && entries[q].1 is Cancelled;
                            text_map::lemma_map_at(entries, q);
                            assert(marked[j] == entries[q].1@);
                        }
                        assert(oldest(marked, gone@));
                    }
                    self.states.remove(gone.as_str());
                    proof {
                        assert(self.runs() =~= marked.remove(gone@));
                        assert(markers(self.runs()) =~= markers(marked).remove(gone@));
                    }
                },
                None => {},
            }
        }
    }

    /// Begins a run; it gets a token.
    pub fn begin(&mut self, project_path: &str, run_id: &str, now: u64) -> (r: Result<u64, String>)
        requires
            old(self).wf(),
        ensures
            final(self).wf(),
            registry_moves(
                old(self).state(),
                RegistryCall::Begin {
                    project: project_path@,
                    run_id: run_id@,
                    now,
                    token: old(self).fresh_token(),
                },
                final(self).state(),
            ),
            ({
                let kept = pruned(old(self).runs(), now);
                match refusal(kept, project_path@, run_id@) {
                    Some(m) => r matches Err(e) && e@ == m && final(self).runs() == kept
                        && final(self).fresh_token() == old(self).fresh_token(),
                    None => r == Ok::<u64, String>(old(self).fresh_token()) && final(self).runs()
                        == kept.insert(
                        run_id@,
                        RunView::Live {
                            project: project_path@,
                            token: old(self).fresh_token(),
                            cancelled: false,
                        },
                    ) && final(self).fresh_token() == old(self).fresh_token().wrapping_add(1),
                }
            }),
    {
        self.prune_cancelled_markers(now);
        let ghost kept = self.runs();
        match self.states.get(run_id) {
            Some(state) => {
                assert(kept[run_id@] == state@);
                match state {
                    ChatRunState::Cancelled { project_path: owner, .. } => {
                        if paths::is_same_path(owner.as_str(), project_path) {
                            let mut m = text::copy("chat run has been cancelled: ");
                            m.append(run_id);
                            return Err(m);
                        }
                        return Err(project_mismatch(run_id, owner.as_str(), project_path));
                    },
                    ChatRunState::Live { project_path: owner, .. } => {
                        if !paths::is_same_path(owner.as_str(), project_path) {
                            return Err(project_mismatch(run_id, owner.as_str(), project_path));
                        }
                        let mut m = text::copy("chat run already active: ");
                        m.append(run_id);
                        return Err(m);
                    },
                }
            },
            None => {},
        }
        let token = self.next_token;
        self.next_token = token.wrapping_add(1);
        let state = ChatRunState::Live {
            project_path: text::copy(project_path),
            token,
            cancelled: false,
        };
        let ghost live = state@;
        self.states.insert(text::copy(run_id), state);
        proof {
            assert(self.runs() =~= kept.insert(run_id@, live));
            assert(markers(self.runs()) =~= markers(kept));
        }
        Ok(token)
    }

    /// Ends a run: one that was cancelled leaves a marker. A run whose place
    /// another has taken ends without a trace.
    pub fn finish(&mut self, run_id: &str, token: u64, now: u64)
        requires
            old(self).wf(),
        ensures
            final(self).wf(),
            final(self).fresh_token() == old(self).fresh_token(),
            registry_moves(
                old(self).state(),
                RegistryCall::Finish { run_id: run_id@, token, now },
                final(self).state(),
            ),
    {
        let ghost before = self.runs();
        let mut owner: Option<String> = None;
        let mut completed = false;
        match self.states.get(run_id) {
            Some(state) => {
                assert(before[run_id@] == state@);
                match state {
                    ChatRunState::Live { project_path, token: current, cancelled } => {
                        if *current == token {
                            if *cancelled {
                                owner = Some(text::copy(project_path.as_str()));
                            } else {
                                completed = true;
                            }
                        }
                    },
                    ChatRunState::Cancelled { .. } => {},
                }
            },
            None => {},
        }
        if completed {
            self.states.remove(run_id);
            proof {
                assert(self.runs() =~= before.remove(run_id@));
                assert(markers(self.runs()) =~= markers(before));
            }
        } else {
            match owner {
                Some(project) => self.mark_cancelled(project.as_str(), run_id, now),
                None => {},
            }
        }
    }

    /// Cancels a run. Whether it is live is told, so that its future can be
    /// woken; a run that is not known gets a marker, which refuses it later.
    pub fn cancel(&mut self, project_path: &str, run_id: &str, now: u64) -> (r: Result<bool, String>)
        requires
            old(self).wf(),
        ensures
            final(self).wf(),
            final(self).fresh_token() == old(self).fresh_token(),
            registry_moves(
                old(self).state(),
                RegistryCall::Cancel { project: project_path@, run_id: run_id@, now },
                final(self).state(),
            ),
            ({
                let kept = pruned(old(self).runs(), now);
                if !kept.dom().contains(run_id@) {
                    r == Ok::<bool, String>(false)
                } else if !paths::same_path(owner(kept[run_id@]), project_path@) {
                    r matches Err(m) && m@ == mismatch(
                        run_id@,
                        owner(kept[run_id@]),
                        project_path@,
                    )
                } else {
                    r == Ok::<bool, String>(kept[run_id@] is Live)
                }
            }),
    {
        self.prune_cancelled_markers(now);
        let ghost kept = self.runs();
        let mut live: Option<ChatRunState> = None;
        match self.states.get(run_id) {
            None => {
                self.mark_cancelled(project_path, run_id, now);
                return Ok(false);
            },
            Some(state) => {
                assert(kept[run_id@] == state@);
                match state {
                    ChatRunState::Live { project_path: owner, token, cancelled: _ } => {
                        if !paths::is_same_path(owner.as_str(), project_path) {
                            return Err(project_mismatch(run_id, owner.as_str(), project_path));
                        }
                        live = Some(
                            ChatRunState::Live {
                                project_path: text::copy(owner.as_str()),
                                token: *token,
                                cancelled: true,
                            },
                        );
                    },
                    ChatRunState::Cancelled { project_path: owner, .. } => {
                        if !paths::is_same_path(owner.as_str(), project_path) {
                            return Err(project_mismatch(run_id, owner.as_str(), project_path));
                        }
                    },
                }
            },
        }
        match live {
            Some(state) => {
                let ghost told = state@;
                self.states.insert(text::copy(run_id), state);
                proof {
                    assert(self.runs() =~= kept.insert(run_id@, told));
                    assert(markers(self.runs()) =~= markers(kept));
                }
                Ok(true)
            },
            None => Ok(false),
        }
    }
}

/// The runs after a run of theirs was cancelled: a live one is told.
pub open spec fn after_cancel(m: Map<Seq<char>, RunView>, run_id: Seq<char>) -> Map<
    Seq<char>,
    RunView,
> {
    match m[run_id] {
        RunView::Live { project, token, .. } => m.insert(
            run_id,
            RunView::Live { project, token, cancelled: true },
        ),
        RunView::Cancelled { .. } => m,
    }
}

/// How far a run of a provider's future has come.
#[derive(Debug, PartialEq, Eq)]
pub enum RunPhase<T> {
    /// It is to be seen whether the run may begin.
    Beginning,
    /// The future is to be polled until it answers or the run is cancelled.
    Polling(u64),
    /// It is over; the future is not polled any more.
    Done(Result<T, String>),
}

/// What a run came to: the answer of its provider, or that it was cancelled before
/// there was one.
pub open spec fn answered<T>(answer: Option<Result<T, String>>, r: Result<T, String>) -> bool {
    match answer {
        Some(result) => r == result,
        None => r matches Err(m) && m@ == "chat run cancelled"@,
    }
}

impl ChatRunRegistry {
    /// Takes the run of a provider's future one step further: whether it may begin, or,
    /// once it is polled, what it answered, if it was not cancelled before. A run that
    /// may not begin is over, and its future is never polled.
    pub fn run_cancellable<T>(
        &mut self,
        project_path: &str,
        run_id: &str,
        phase: RunPhase<T>,
        answer: Option<Result<T, String>>,
        now: u64,
    ) -> (r: RunPhase<T>)
        requires
            old(self).wf(),
        ensures
            final(self).wf(),
            match phase {
                RunPhase::Beginning => {
                    &&& registry_moves(
                        old(self).state(),
                        RegistryCall::Begin {
                            project: project_path@,
                            run_id: run_id@,
                            now,
                            token: old(self).fresh_token(),
                        },
                        final(self).state(),
                    )
                    &&& match refusal(pruned(old(self).runs(), now), project_path@, run_id@) {
                        Some(m) => r matches RunPhase::Done(Err(e)) && e@ == m
                            && final(self).fresh_token() == old(self).fresh_token(),
                        None => r == RunPhase::<T>::Polling(old(self).fresh_token())
                            && final(self).fresh_token() == old(self).fresh_token().wrapping_add(1),
                    }
                },
                RunPhase::Polling(token) => {
                    &&& registry_moves(
                        old(self).state(),
                        RegistryCall::Finish { run_id: run_id@, token, now },
                        final(self).state(),
                    )
                    &&& final(self).fresh_token() == old(self).fresh_token()
                    &&& r matches RunPhase::Done(result) && answered(answer, result)
                },
                RunPhase::Done(_) => r == phase && *final(self) == *old(self),
            },
    {
        match phase {
            RunPhase::Beginning => match self.begin(project_path, run_id, now) {
                Ok(token) => RunPhase::Polling(token),
                Err(m) => RunPhase::Done(Err(m)),
            },
            RunPhase::Polling(token) => {
                self.finish(run_id, token, now);
                match answer {
                    Some(result) => RunPhase::Done(result),
                    None => RunPhase::Done(Err(text::copy("chat run cancelled"))),
                }
            },
            RunPhase::Done(result) => RunPhase::Done(result),
        }
    }
}

/// How a run ended.
pub enum Ended {
    /// Its place is taken by another, or gone.
    Elsewhere,
    Completed,
    WasCancelled(Seq<char>),
}

pub open spec fn ended(m: Map<Seq<char>, RunView>, run_id: Seq<char>, token: u64) -> Ended {
    if !m.dom().contains(run_id) {
        Ended::Elsewhere
    } else {
        match m[run_id] {
            RunView::Live { project, token: current, cancelled } => if current != token {
                Ended::Elsewhere
            } else if cancelled {
                Ended::WasCancelled(project)
            } else {
                Ended::Completed
            },
            RunView::Cancelled { .. } => Ended::Elsewhere,
        }
    }
}

/// A run that was cancelled before it began, or while it was under way, is
/// refused to its project for as long as its marker stays, and to every other
/// project too.
pub proof fn cancelled_runs_are_refused(
    m: Map<Seq<char>, RunView>,
    project: Seq<char>,
    caller: Seq<char>,
    run_id: Seq<char>,
    at: u64,
    sequence: u64,
    now: u64,
)
    requires
        now - at < CANCELLED_MARKER_TTL,
    ensures
        ({
            let marked = m.insert(run_id, RunView::Cancelled { project, at, sequence });
            refusal(pruned(marked, now), caller, run_id) == Some(
                if paths::same_path(project, caller) {
                    "chat run has been cancelled: "@ + run_id
                } else {
                    mismatch(run_id, project, caller)
                },
            )
        }),
{
    let marked = m.insert(run_id, RunView::Cancelled { project, at, sequence });
    assert(pruned(marked, now).dom().contains(run_id));
}

/// A marker refuses nothing once its time is up.
pub proof fn markers_expire(
    m: Map<Seq<char>, RunView>,
    project: Seq<char>,
    caller: Seq<char>,
    run_id: Seq<char>,
    at: u64,
    sequence: u64,
    now: u64,
)
    requires
        now - at >= CANCELLED_MARKER_TTL,
    ensures
        refusal(
            pruned(m.insert(run_id, RunView::Cancelled { project, at, sequence }), now),
            caller,
            run_id,
        ) is None,
{
}

/// What is kept of the runs does not touch a live one: neither time nor the
/// limit on markers takes a run from its project.
pub proof fn live_runs_are_kept(
    m: Map<Seq<char>, RunView>,
    r: Map<Seq<char>, RunView>,
    run_id: Seq<char>,
    now: u64,
)
    requires
        m.dom().contains(run_id),
        m[run_id] is Live,
        capped(m, r),
    ensures
        pruned(m, now).dom().contains(run_id),
        pruned(m, now)[run_id] == m[run_id],
        r.dom().contains(run_id),
        r[run_id] == m[run_id],
{
}

/// The newest marker is not the one that makes room, where sequence numbers have
/// not begun again from the start.
pub proof fn newest_markers_are_kept(
    m: Map<Seq<char>, RunView>,
    r: Map<Seq<char>, RunView>,
    run_id: Seq<char>,
)
    requires
        markers(m).finite(),
        markers(m).contains(run_id),
        forall|k: Seq<char>| #[trigger]
            markers(m).contains(k) && k != run_id ==> m[k]->sequence < m[run_id]->sequence,
        capped(m, r),
    ensures
        r.dom().contains(run_id),
        r[run_id] == m[run_id],
{
    if markers(m).len() > MAX_CANCELLED_MARKERS {
        let gone = choose|k: Seq<char>| #[trigger] oldest(m, k) && r == m.remove(k);
        if gone == run_id {
            let others = markers(m).remove(run_id);
            assert(others.len() >= 1);
            let k = others.choose();
            assert(others.contains(k));
            assert(markers(m).contains(k));
        }
    }
}

/// Whether the markers of a registry have numbers of their own, all below the next.
pub open spec fn numbered(state: RegistryView) -> bool {
    &&& markers(state.runs).finite()
    &&& forall|k: Seq<char>| #[trigger]
        markers(state.runs).contains(k) ==> state.runs[k]->sequence < state.sequence
    &&& forall|j: Seq<char>, k: Seq<char>|
        #![trigger markers(state.runs).contains(j), markers(state.runs).contains(k)]
        markers(state.runs).contains(j) && markers(state.runs).contains(k) && j != k
            ==> state.runs[j]->sequence != state.runs[k]->sequence
}

proof fn lemma_fewer_markers(
    before: RegistryView,
    runs: Map<Seq<char>, RunView>,
)
    requires
        numbered(before),
        forall|k: Seq<char>| #[trigger]
            markers(runs).contains(k) ==> markers(before.runs).contains(k) && runs[k]
                == before.runs[k],
    ensures
        numbered(RegistryView { runs, sequence: before.sequence }),
{
    assert(markers(runs).subset_of(markers(before.runs)));
    vstd::set_lib::lemma_len_subset(markers(runs), markers(before.runs));
}

proof fn lemma_marks_numbered(
    before: RegistryView,
    project: Seq<char>,
    run_id: Seq<char>,
    now: u64,
    after: RegistryView,
)
    requires
        numbered(before),
        before.sequence < u64::MAX,
        marks(before, project, run_id, now, after),
    ensures
        numbered(after),
{
    let marked = before.runs.insert(
        run_id,
        RunView::Cancelled { project, at: now, sequence: before.sequence },
    );
    assert(markers(marked) =~= markers(before.runs).insert(run_id));
    let all = RegistryView { runs: marked, sequence: after.sequence };
    assert forall|k: Seq<char>| #[trigger] markers(marked).contains(k) && k != run_id implies marked[k]
        == before.runs[k] && markers(before.runs).contains(k) by {}
    assert(numbered(all));
    lemma_fewer_markers(all, after.runs);
}

proof fn lemma_numbered(before: RegistryView, call: RegistryCall, after: RegistryView)
    requires
        numbered(before),
        before.sequence < u64::MAX,
        registry_moves(before, call, after),
    ensures
        numbered(after),
{
    match call {
        RegistryCall::Begin { .. } => {
            lemma_fewer_markers(before, after.runs);
        },
        RegistryCall::Finish { run_id, token, now } => {
            match ended(before.runs, run_id, token) {
                Ended::Elsewhere => {},
                Ended::Completed => {
                    lemma_fewer_markers(before, after.runs);
                },
                Ended::WasCancelled(project) => {
                    lemma_marks_numbered(before, project, run_id, now, after);
                },
            }
        },
        RegistryCall::Cancel { project, run_id, now } => {
            let kept = RegistryView { runs: pruned(before.runs, now), ..before };
            lemma_fewer_markers(before, kept.runs);
            if !kept.runs.dom().contains(run_id) {
                lemma_marks_numbered(kept, project, run_id, now, after);
            } else {
                lemma_fewer_markers(kept, after.runs);
            }
        },
    }
}

proof fn lemma_not_crowded_out(
    before: RegistryView,
    project: Seq<char>,
    run_id: Seq<char>,
    now: u64,
    after: RegistryView,
    marker: Seq<char>,
)
    requires
        numbered(before),
        before.sequence < u64::MAX,
        marks(before, project, run_id, now, after),
        markers(before.runs).contains(marker),
        marker != run_id,
        after.sequence - before.runs[marker]->sequence <= MAX_CANCELLED_MARKERS,
    ensures
        after.runs.dom().contains(marker),
        after.runs[marker] == before.runs[marker],
{
    let marked = before.runs.insert(
        run_id,
        RunView::Cancelled { project, at: now, sequence: before.sequence },
    );
    let s = before.runs[marker]->sequence as int;
    assert(markers(marked) =~= markers(before.runs).insert(run_id));
    assert(markers(marked).contains(marker));
    if markers(marked).len() > MAX_CANCELLED_MARKERS {
        let gone = choose|k: Seq<char>| #[trigger]
            oldest(marked, k) && after.runs == marked.remove(k);
        if gone == marker {
            // Every other marker has a number of its own between this one's and the next.
            let number = |k: Seq<char>| marked[k]->sequence as int;
            let numbers = markers(marked).map(number);
            let range = vstd::set_lib::set_int_range(s, after.sequence as int);
            assert(vstd::relations::injective_on(number, markers(marked))) by {
                assert forall|j: Seq<char>, k: Seq<char>|
                    markers(marked).contains(j) && markers(marked).contains(k) && #[trigger] number(j)
                        == #[trigger] number(k) implies j == k by {
                    if j != run_id {
                        assert(markers(before.runs).contains(j));
                    }
                    if k != run_id {
                        assert(markers(before.runs).contains(k));
                    }
                }
            }
            vstd::set_lib::lemma_map_size(markers(marked), numbers, number);
            assert forall|n: int| #[trigger] numbers.contains(n) implies range.contains(n) by {
                let k = choose|k: Seq<char>| markers(marked).contains(k) && number(k) == n;
                assert(markers(marked).contains(k));
                if k != run_id {
                    assert(markers(before.runs).contains(k));
                }
            }
            vstd::set_lib::lemma_int_range(s, after.sequence as int);
            vstd::set_lib::lemma_len_subset(numbers, range);
        }
    }
}

/// What a registry goes through, from when it is new: its states, and the calls between
/// them. There are fewer calls than a counter of 64 bits can count.
pub open spec fn registry_course(states: Seq<RegistryView>, calls: Seq<RegistryCall>) -> bool {
    &&& states.len() == calls.len() + 1
    &&& states[0].runs == Map::<Seq<char>, RunView>::empty()
    &&& states[0].sequence == 0
    &&& calls.len() < u64::MAX
    &&& forall|k: int|
        0 <= k < calls.len() ==> registry_moves(states[k], #[trigger] calls[k], states[k + 1])
}

/// A marker outlives any calls within its time, as long as fewer newer markers
/// follow it than are kept: it stays as it is, so every attempt to begin the run is
/// refused, to its project because it was cancelled, to another because it is not
/// its own, and no attempt uses the marker up.
pub proof fn markers_outlive_calls(
    states: Seq<RegistryView>,
    calls: Seq<RegistryCall>,
    marker: Seq<char>,
    from: int,
    to: int,
)
    requires
        registry_course(states, calls),
        0 <= from <= to < states.len(),
        states[from].runs.dom().contains(marker),
        states[from].runs[marker] is Cancelled,
        forall|k: int|
            from <= k < to ==> time_of(#[trigger] calls[k]) - states[from].runs[marker]->at
                < CANCELLED_MARKER_TTL,
        states[to].sequence - states[from].runs[marker]->sequence <= MAX_CANCELLED_MARKERS,
    ensures
        states[to].runs.dom().contains(marker),
        states[to].runs[marker] == states[from].runs[marker],
        forall|caller: Seq<char>, now: u64| #![trigger pruned(states[to].runs, now), paths::same_path(owner(states[from].runs[marker]), caller)]
            now - states[from].runs[marker]->at < CANCELLED_MARKER_TTL ==> refusal(
                pruned(states[to].runs, now),
                caller,
                marker,
            ) == Some(
                if paths::same_path(owner(states[from].runs[marker]), caller) {
                    "chat run has been cancelled: "@ + marker
                } else {
                    mismatch(marker, owner(states[from].runs[marker]), caller)
                },
            ),
    decreases to - from,
{
    if from < to {
        let before = states[to - 1];
        let after = states[to];
        let call = calls[to - 1];
        assert(registry_moves(before, call, after));
        lemma_always_numbered(states, calls, to - 1);
        assert(before.sequence < u64::MAX);
        assert(before.sequence <= after.sequence);
        markers_outlive_calls(states, calls, marker, from, to - 1);
        assert(markers(before.runs).contains(marker));
        assert(time_of(call) - before.runs[marker]->at < CANCELLED_MARKER_TTL);
        match call {
            RegistryCall::Begin { project, run_id, now, .. } => {
                assert(pruned(before.runs, now).dom().contains(marker));
            },
            RegistryCall::Finish { run_id, token, now } => {
                if let Ended::WasCancelled(project) = ended(before.runs, run_id, token) {
                    lemma_not_crowded_out(before, project, run_id, now, after, marker);
                }
            },
            RegistryCall::Cancel { project, run_id, now } => {
                let kept = RegistryView { runs: pruned(before.runs, now), ..before };
                assert(kept.runs.dom().contains(marker));
                lemma_fewer_markers(before, kept.runs);
                assert(markers(kept.runs).contains(marker));
                if !kept.runs.dom().contains(run_id) {
                    lemma_not_crowded_out(kept, project, run_id, now, after, marker);
                }
            },
        }
    }
}

proof fn lemma_always_numbered(states: Seq<RegistryView>, calls: Seq<RegistryCall>, k: int)
    requires
        registry_course(states, calls),
        0 <= k < states.len(),
    ensures
        numbered(states[k]),
        states[k].sequence <= k,
    decreases k,
{
    if k == 0 {
        assert(markers(states[0].runs) =~= Set::<Seq<char>>::empty());
    } else {
        lemma_always_numbered(states, calls, k - 1);
        assert(registry_moves(states[k - 1], calls[k - 1], states[k]));
        lemma_numbered(states[k - 1], calls[k - 1], states[k]);
    }
}

/// A run that is cancelled before it begins never does: where a run is not known when
/// it is cancelled, and since then its marker's time is not up and fewer newer markers
/// were made than are kept, every attempt to run it is refused, whatever calls were
/// made in between. Its project is told that it was cancelled, any other that it is not
/// its own; no attempt uses the marker up, and the future of none is polled.
pub proof fn runs_cancelled_before_they_begin_are_refused(
    states: Seq<RegistryView>,
    calls: Seq<RegistryCall>,
    project: Seq<char>,
    run_id: Seq<char>,
    at: u64,
    from: int,
    to: int,
    caller: Seq<char>,
    now: u64,
)
    requires
        registry_course(states, calls),
        0 <= from < to < states.len(),
        calls[from] == (RegistryCall::Cancel { project, run_id, now: at }),
        !pruned(states[from].runs, at).dom().contains(run_id),
        forall|k: int|
            from < k < to ==> time_of(#[trigger] calls[k]) - at < CANCELLED_MARKER_TTL,
        states[to].sequence - states[from].sequence <= MAX_CANCELLED_MARKERS,
        now - at < CANCELLED_MARKER_TTL,
    ensures
        states[to].runs.dom().contains(run_id),
        states[to].runs[run_id] == (RunView::Cancelled {
            project,
            at,
            sequence: states[from].sequence,
        }),
        refusal(pruned(states[to].runs, now), caller, run_id) == Some(
            if paths::same_path(project, caller) {
                "chat run has been cancelled: "@ + run_id
            } else {
                mismatch(run_id, project, caller)
            },
        ),
{
    let before = states[from];
    let after = states[from + 1];
    assert(registry_moves(before, calls[from], after));
    lemma_always_numbered(states, calls, from);
    let kept = RegistryView { runs: pruned(before.runs, at), ..before };
    lemma_fewer_markers(before, kept.runs);
    let marker = RunView::Cancelled { project, at, sequence: before.sequence };
    let marked = kept.runs.insert(run_id, marker);
    assert(markers(marked) =~= markers(kept.runs).insert(run_id));
    assert forall|k: Seq<char>| #[trigger] markers(marked).contains(k) && k != run_id implies marked[k]->sequence
        < marked[run_id]->sequence by {
        assert(markers(kept.runs).contains(k));
    }
    newest_markers_are_kept(marked, after.runs, run_id);
    markers_outlive_calls(states, calls, run_id, from + 1, to);
    assert(owner(states[from + 1].runs[run_id]) == project);
    assert(paths::same_path(owner(states[from + 1].runs[run_id]), caller) == paths::same_path(
        project,
        caller,
    ));
    assert(pruned(states[to].runs, now).dom().contains(run_id));
}

/// A run that is live is never forgotten; the marker of one that was cancelled is forgotten after
/// five minutes, and nothing is forgotten before.
pub proof fn markers_are_kept_five_minutes(m: Map<Seq<char>, RunView>, k: Seq<char>, now: u64)
    ensures
        pruned(m, now).dom().contains(k) <==> m.dom().contains(k) && (m[k] is Cancelled ==> now
            - m[k]->at < 5 * 60 * 1_000_000_000),
        pruned(m, now).dom().contains(k) ==> pruned(m, now)[k] == m[k],
        MAX_CANCELLED_MARKERS == 1024,
{
}

/// Where there are more than 1024 markers, the one with the lowest number goes, and it alone.
pub proof fn the_oldest_marker_gives_way(m: Map<Seq<char>, RunView>, r: Map<Seq<char>, RunView>)
    requires
        capped(m, r),
    ensures
        markers(m).len() <= 1024 ==> r == m,
        markers(m).len() > 1024 ==> exists|k: Seq<char>| #[trigger]
            m.dom().contains(k) && m[k] is Cancelled && r == m.remove(k) && forall|j: Seq<char>|
                #[trigger] m.dom().contains(j) && m[j] is Cancelled ==> m[k]->sequence
                    <= m[j]->sequence,
        forall|k: Seq<char>| #[trigger]
            markers(m).contains(k) <==> m.dom().contains(k) && m[k] is Cancelled,
{
    if markers(m).len() > 1024 {
        let k = choose|k: Seq<char>| #[trigger] oldest(m, k) && r == m.remove(k);
        assert(oldest(m, k));
        assert(m.dom().contains(k));
        assert forall|j: Seq<char>| #[trigger]
            m.dom().contains(j) && m[j] is Cancelled implies m[k]->sequence <= m[j]->sequence by {
            assert(markers(m).contains(j));
        }
    }
}

/// A run begins exactly where its id is not held: by no run that is live and by no marker of the
/// last five minutes. It is then live for its project, under its token and not cancelled; where the
/// id is held it stays as it was. Whose it is decides what the refusal says.
pub proof fn runs_begin_where_their_id_is_free(
    before: RegistryView,
    project: Seq<char>,
    run_id: Seq<char>,
    now: u64,
    token: u64,
    after: RegistryView,
)
    requires
        registry_moves(before, RegistryCall::Begin { project, run_id, now, token }, after),
    ensures
        ({
            let held = before.runs.dom().contains(run_id) && (before.runs[run_id] is Cancelled ==> now
                - before.runs[run_id]->at < 5 * 60 * 1_000_000_000);
            let whose = match before.runs[run_id] {
                RunView::Live { project, .. } => project,
                RunView::Cancelled { project, .. } => project,
            };
            let said = refusal(pruned(before.runs, now), project, run_id);
            &&& after.runs.dom().contains(run_id)
            &&& held ==> after.runs[run_id] == before.runs[run_id]
            &&& !held ==> after.runs[run_id] == (RunView::Live { project, token, cancelled: false })
            &&& !held ==> said is None
            &&& held && !paths::same_path(whose, project) ==> said == Some(
                "chat run "@ + run_id + " belongs to project "@ + whose + ", not "@ + project,
            )
            &&& held && paths::same_path(whose, project) && before.runs[run_id] is Cancelled
                ==> said == Some("chat run has been cancelled: "@ + run_id)
            &&& held && paths::same_path(whose, project) && before.runs[run_id] is Live ==> said
                == Some("chat run already active: "@ + run_id)
        }),
        forall|k: Seq<char>| #[trigger]
            before.runs.dom().contains(k) && before.runs[k] is Live && k != run_id
                ==> after.runs.dom().contains(k) && after.runs[k] == before.runs[k],
        after.sequence == before.sequence,
{
    assert forall|k: Seq<char>| #[trigger]
        before.runs.dom().contains(k) && before.runs[k] is Live && k
            != run_id implies after.runs.dom().contains(k) && after.runs[k] == before.runs[k] by {
        markers_are_kept_five_minutes(before.runs, k, now);
    }
    markers_are_kept_five_minutes(before.runs, run_id, now);
}

/// A run that ends under its own token is forgotten, or, where it was cancelled, leaves a marker of
/// its project with the time and the next number. Any other token, and a run that is not live,
/// change nothing; and other runs that are live stay as they are.
pub proof fn runs_end_under_their_own_token(
    before: RegistryView,
    run_id: Seq<char>,
    token: u64,
    now: u64,
    after: RegistryView,
)
    requires
        registry_moves(before, RegistryCall::Finish { run_id, token, now }, after),
    ensures
        !before.runs.dom().contains(run_id) || !(before.runs[run_id] is Live)
            || before.runs[run_id]->token != token ==> after == before,
        before.runs.dom().contains(run_id) && before.runs[run_id] is Live
            && before.runs[run_id]->token == token && !before.runs[run_id]->cancelled
            ==> after.runs == before.runs.remove(run_id) && after.sequence == before.sequence,
        before.runs.dom().contains(run_id) && before.runs[run_id] is Live
            && before.runs[run_id]->token == token && before.runs[run_id]->cancelled ==> capped(
            before.runs.insert(
                run_id,
                RunView::Cancelled {
                    project: before.runs[run_id]->Live_project,
                    at: now,
                    sequence: before.sequence,
                },
            ),
            after.runs,
        ) && after.sequence == (if before.sequence == u64::MAX { 0 } else { before.sequence + 1 }),
        forall|k: Seq<char>| #[trigger]
            before.runs.dom().contains(k) && before.runs[k] is Live && k != run_id
                ==> after.runs.dom().contains(k) && after.runs[k] == before.runs[k],
{
    assert forall|k: Seq<char>| #[trigger]
        before.runs.dom().contains(k) && before.runs[k] is Live && k
            != run_id implies after.runs.dom().contains(k) && after.runs[k] == before.runs[k] by {
        match ended(before.runs, run_id, token) {
            Ended::WasCancelled(project) => {
                live_runs_are_kept(
                    before.runs.insert(
                        run_id,
                        RunView::Cancelled { project, at: now, sequence: before.sequence },
                    ),
                    after.runs,
                    k,
                    now,
                );
            },
            _ => {},
        }
    }
}

/// A run that is live is cancelled under its project only, keeping its token; a cancellation that
/// comes before the run leaves a marker; one from another project changes neither.
pub proof fn runs_are_cancelled_by_their_project(
    before: RegistryView,
    project: Seq<char>,
    run_id: Seq<char>,
    now: u64,
    after: RegistryView,
)
    requires
        registry_moves(before, RegistryCall::Cancel { project, run_id, now }, after),
    ensures
        before.runs.dom().contains(run_id) && before.runs[run_id] is Live && paths::same_path(
            before.runs[run_id]->Live_project,
            project,
        ) ==> after.runs.dom().contains(run_id) && after.runs[run_id] == (RunView::Live {
            project: before.runs[run_id]->Live_project,
            token: before.runs[run_id]->token,
            cancelled: true,
        }) && after.sequence == before.sequence,
        before.runs.dom().contains(run_id) && before.runs[run_id] is Live && !paths::same_path(
            before.runs[run_id]->Live_project,
            project,
        ) ==> after.runs.dom().contains(run_id) && after.runs[run_id] == before.runs[run_id]
            && after.sequence == before.sequence,
        !before.runs.dom().contains(run_id) ==> capped(
            pruned(before.runs, now).insert(
                run_id,
                RunView::Cancelled { project, at: now, sequence: before.sequence },
            ),
            after.runs,
        ) && after.sequence == (if before.sequence == u64::MAX { 0 } else { before.sequence + 1 }),
        forall|k: Seq<char>| #[trigger]
            before.runs.dom().contains(k) && before.runs[k] is Live && k != run_id
                ==> after.runs.dom().contains(k) && after.runs[k] == before.runs[k],
{
    let kept = pruned(before.runs, now);
    markers_are_kept_five_minutes(before.runs, run_id, now);
    assert forall|k: Seq<char>| #[trigger]
        before.runs.dom().contains(k) && before.runs[k] is Live && k
            != run_id implies after.runs.dom().contains(k) && after.runs[k] == before.runs[k] by {
        markers_are_kept_five_minutes(before.runs, k, now);
        if !kept.dom().contains(run_id) {
            live_runs_are_kept(
                kept.insert(
                    run_id,
                    RunView::Cancelled { project, at: now, sequence: before.sequence },
                ),
                after.runs,
                k,
                now,
            );
        }
    }
}

/// A run is answered with what came of it, or with its cancellation.
pub proof fn runs_answer_or_say_they_were_cancelled<T>(
    answer: Option<Result<T, String>>,
    r: Result<T, String>,
)
    requires
        answered(answer, r),
    ensures
        answer is Some ==> r == answer->0,
        answer is None ==> r is Err && r->Err_0@ == "chat run cancelled"@,
{
}

} // verus!
