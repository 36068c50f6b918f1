//! The asset queue: the tasks that generate a production's media, with their
//! attempts and limits.
use vstd::prelude::*;

use crate::story_plan;
use crate::text;

verus! {

#[derive(Debug, Clone, Copy, PartialEq, Eq, Structural)]
pub enum AssetKind {
    Background,
    Figure,
    Bgm,
    Sfx,
    Tts,
}

/// The kind that a plan's word names.
pub open spec fn kind_of_word(word: Seq<char>) -> Option<AssetKind> {
    if word == "background"@ {
        Some(AssetKind::Background)
    } else if word == "figure"@ {
        Some(AssetKind::Figure)
    } else if word == "bgm"@ {
        Some(AssetKind::Bgm)
    } else if word == "sfx"@ {
        Some(AssetKind::Sfx)
    } else {
        None
    }
}

/// The directory under `game/` that holds the files of a kind.
pub open spec fn dir_of_kind(kind: AssetKind) -> Seq<char> {
    match kind {
        AssetKind::Background => "background"@,
        AssetKind::Figure => "figure"@,
        AssetKind::Bgm => "bgm"@,
        AssetKind::Sfx => "vocal"@,
        AssetKind::Tts => "vocal"@,
    }
}

impl AssetKind {
    pub fn from_plan(value: &str) -> (r: Option<AssetKind>)
        ensures
            r == kind_of_word(value@),
    {
        if text::same(value, "background") {
            Some(AssetKind::Background)
        } else if text::same(value, "figure") {
            Some(AssetKind::Figure)
        } else if text::same(value, "bgm") {
            Some(AssetKind::Bgm)
        } else if text::same(value, "sfx") {
            Some(AssetKind::Sfx)
        } else {
            None
        }
    }

    pub fn game_dir(self) -> (r: &'static str)
        ensures
            r@ == dir_of_kind(self),
    {
        match self {
            AssetKind::Background => "background",
            AssetKind::Figure => "figure",
            AssetKind::Bgm => "bgm",
            AssetKind::Sfx => "vocal",
            AssetKind::Tts => "vocal",
        }
    }
}

#[derive(Debug, Clone, Copy, PartialEq, Eq, Structural)]
pub enum AssetTaskStatus {
    Pending,
    Running,
    Retrying,
    Succeeded,
    Failed,
}

impl Default for AssetTaskStatus {
    fn default() -> (r: AssetTaskStatus)
        ensures
            r == AssetTaskStatus::Pending,
    {
        AssetTaskStatus::Pending
    }
}

/// One attempt at a task: the artifact that it left, or why it left none.
#[derive(Debug, PartialEq, Eq)]
pub struct AssetAttempt {
    pub attempt: u32,
    pub started_at: u64,
    pub finished_at: u64,
    pub artifact: Option<String>,
    pub error: Option<String>,
    pub used_local_fallback: bool,
}

impl Clone for AssetAttempt {
    fn clone(&self) -> (r: AssetAttempt)
        ensures
            r == *self,
    {
        AssetAttempt {
            attempt: self.attempt,
            started_at: self.started_at,
            finished_at: self.finished_at,
            artifact: story_plan::copy_opt(&self.artifact),
            error: story_plan::copy_opt(&self.error),
            used_local_fallback: self.used_local_fallback,
        }
    }
}

#[derive(Debug, PartialEq, Eq)]
pub struct AssetTask {
    pub id: String,
    pub kind: AssetKind,
    pub target_stem: String,
    pub prompt: String,
    pub scene_ref: Option<String>,
    pub character_ref: Option<String>,
    pub emotion: Option<String>,
    pub dialogue_index: Option<usize>,
    pub text: Option<String>,
    pub status: AssetTaskStatus,
    pub attempts: Vec<AssetAttempt>,
    pub asset_file: Option<String>,
    pub error: Option<String>,
    pub used_local_fallback: bool,
}

/// A copy of a list of attempts.
pub fn copy_attempts(v: &Vec<AssetAttempt>) -> (r: Vec<AssetAttempt>)
    ensures
        r@ == v@,
{
    let mut out: Vec<AssetAttempt> = Vec::new();
    let mut i: usize = 0;
    while i < v.len()
        invariant
            i <= v.len(),
            out@ =~= v@.take(i as int),
        decreases v.len() - i,
    {
        out.push(v[i].clone());
        i += 1;
    }
    assert(v@.take(v@.len() as int) =~= v@);
    out
}

impl Clone for AssetTask {
    fn clone(&self) -> (r: AssetTask)
        ensures
            r@ == self@,
    {
        AssetTask {
            id: self.id.clone(),
            kind: self.kind,
            target_stem: self.target_stem.clone(),
            prompt: self.prompt.clone(),
            scene_ref: story_plan::copy_opt(&self.scene_ref),
            character_ref: story_plan::copy_opt(&self.character_ref),
            emotion: story_plan::copy_opt(&self.emotion),
            dialogue_index: self.dialogue_index,
            text: story_plan::copy_opt(&self.text),
            status: self.status,
            attempts: copy_attempts(&self.attempts),
            asset_file: story_plan::copy_opt(&self.asset_file),
            error: story_plan::copy_opt(&self.error),
            used_local_fallback: self.used_local_fallback,
        }
    }
}

/// How many tasks of each capability run at once, and how often a task is
/// tried again.
#[derive(Debug, Clone, Copy, PartialEq, Eq, Structural)]
pub struct QueueLimits {
    pub image: usize,
    pub tts: usize,
    pub music: usize,
    pub max_retries: u32,
}

impl Default for QueueLimits {
    fn default() -> (r: QueueLimits)
        ensures
            r == (QueueLimits { image: 2, tts: 4, music: 1, max_retries: 3 }),
    {
        QueueLimits { image: 2, tts: 4, music: 1, max_retries: 3 }
    }
}

#[derive(Debug, PartialEq, Eq)]
pub struct AssetQueue {
    pub version: u32,
    pub run_id: String,
    pub updated_at: u64,
    pub limits: QueueLimits,
    pub tasks: Vec<AssetTask>,
}

/// A copy of a list of tasks.
pub fn copy_tasks(v: &Vec<AssetTask>) -> (r: Vec<AssetTask>)
    ensures
        asset_task_views(r@) == asset_task_views(v@),
{
    let mut out: Vec<AssetTask> = Vec::new();
    let mut i: usize = 0;
    while i < v.len()
        invariant
            i <= v.len(),
            asset_task_views(out@) =~= asset_task_views(v@).take(i as int),
        decreases v.len() - i,
    {
        let task = v[i].clone();
        let ghost before = asset_task_views(out@);
        out.push(task);
        assert(asset_task_views(out@) =~= before.push(task@));
        assert(asset_task_views(v@)[i as int] == task@);
        i += 1;
    }
    out
}

impl Clone for AssetQueue {
    fn clone(&self) -> (r: AssetQueue)
        ensures
            r@ == self@,
    {
        AssetQueue {
            version: self.version,
            run_id: self.run_id.clone(),
            updated_at: self.updated_at,
            limits: self.limits,
            tasks: copy_tasks(&self.tasks),
        }
    }
}

impl AssetQueue {
    pub fn new(run_id: String, tasks: Vec<AssetTask>, updated_at: u64) -> (r: AssetQueue)
        ensures
            r.version == 1,
            r.run_id == run_id,
            r.updated_at == updated_at,
            r.limits == (QueueLimits { image: 2, tts: 4, music: 1, max_retries: 3 }),
            r.tasks == tasks,
    {
        AssetQueue { version: 1, run_id, updated_at, limits: QueueLimits::default(), tasks }
    }
}

// ---------------------------------------------------------------------------
// Models
// ---------------------------------------------------------------------------

#[verifier::ext_equal]
pub struct AttemptView {
    pub attempt: u32,
    pub started_at: u64,
    pub finished_at: u64,
    pub artifact: Option<Seq<char>>,
    pub error: Option<Seq<char>>,
    pub used_local_fallback: bool,
}

#[verifier::ext_equal]
pub struct AssetTaskView {
    pub id: Seq<char>,
    pub kind: AssetKind,
    pub target_stem: Seq<char>,
    pub prompt: Seq<char>,
    pub scene_ref: Option<Seq<char>>,
    pub character_ref: Option<Seq<char>>,
    pub emotion: Option<Seq<char>>,
    pub dialogue_index: Option<usize>,
    pub text: Option<Seq<char>>,
    pub status: AssetTaskStatus,
    pub attempts: Seq<AttemptView>,
    pub asset_file: Option<Seq<char>>,
    pub error: Option<Seq<char>>,
    pub used_local_fallback: bool,
}

#[verifier::ext_equal]
pub struct QueueView {
    pub version: u32,
    pub run_id: Seq<char>,
    pub updated_at: u64,
    pub limits: QueueLimits,
    pub tasks: Seq<AssetTaskView>,
}

impl View for AssetAttempt {
    type V = AttemptView;

    open spec fn view(&self) -> AttemptView {
        AttemptView {
            attempt: self.attempt,
            started_at: self.started_at,
            finished_at: self.finished_at,
            artifact: story_plan::opt_text(self.artifact),
            error: story_plan::opt_text(self.error),
            used_local_fallback: self.used_local_fallback,
        }
    }
}

pub open spec fn attempt_views(v: Seq<AssetAttempt>) -> Seq<AttemptView> {
    v.map_values(|a: AssetAttempt| a@)
}

impl View for AssetTask {
    type V = AssetTaskView;

    open spec fn view(&self) -> AssetTaskView {
        AssetTaskView {
            id: self.id@,
            kind: self.kind,
            target_stem: self.target_stem@,
            prompt: self.prompt@,
            scene_ref: story_plan::opt_text(self.scene_ref),
            character_ref: story_plan::opt_text(self.character_ref),
            emotion: story_plan::opt_text(self.emotion),
            dialogue_index: self.dialogue_index,
            text: story_plan::opt_text(self.text),
            status: self.status,
            attempts: attempt_views(self.attempts@),
            asset_file: story_plan::opt_text(self.asset_file),
            error: story_plan::opt_text(self.error),
            used_local_fallback: self.used_local_fallback,
        }
    }
}

pub open spec fn asset_task_views(v: Seq<AssetTask>) -> Seq<AssetTaskView> {
    v.map_values(|t: AssetTask| t@)
}

impl View for AssetQueue {
    type V = QueueView;

    open spec fn view(&self) -> QueueView {
        QueueView {
            version: self.version,
            run_id: self.run_id@,
            updated_at: self.updated_at,
            limits: self.limits,
            tasks: asset_task_views(self.tasks@),
        }
    }
}

/// The words of a plan name the kinds that can be planned, and each kind is kept in a
/// directory of the game; pictures, figures and music have one of their own, and what is
/// heard besides shares one.
pub proof fn kinds_have_their_word_and_directory(kind: AssetKind)
    ensures
        kind_of_word("background"@) == Some(AssetKind::Background),
        kind_of_word("figure"@) == Some(AssetKind::Figure),
        kind_of_word("bgm"@) == Some(AssetKind::Bgm),
        kind_of_word("sfx"@) == Some(AssetKind::Sfx),
        dir_of_kind(AssetKind::Background) == "background"@,
        dir_of_kind(AssetKind::Figure) == "figure"@,
        dir_of_kind(AssetKind::Bgm) == "bgm"@,
        kind == AssetKind::Sfx || kind == AssetKind::Tts ==> dir_of_kind(kind) == "vocal"@,
        forall|word: Seq<char>|
            word != "background"@ && word != "figure"@ && word != "bgm"@ && word != "sfx"@
                ==> #[trigger] kind_of_word(word) is None,
{
    reveal_strlit("background");
    reveal_strlit("figure");
    reveal_strlit("bgm");
    reveal_strlit("sfx");
    assert("bgm"@[0] != "sfx"@[0]);
    assert("background"@.len() == 10 && "figure"@.len() == 6 && "bgm"@.len() == 3 && "sfx"@.len()
        == 3);
}

/// Tasks and attempts are seen alike only where every field of theirs is, attempt for attempt.
pub proof fn tasks_are_told_apart_by_their_fields(
    a: AssetAttempt,
    b: AssetAttempt,
    s: AssetTask,
    t: AssetTask,
)
    ensures
        a@ == b@ <==> a.attempt == b.attempt && a.started_at == b.started_at && a.finished_at
            == b.finished_at && story_plan::opt_text(a.artifact) == story_plan::opt_text(b.artifact)
            && story_plan::opt_text(a.error) == story_plan::opt_text(b.error)
            && a.used_local_fallback == b.used_local_fallback,
        s@ == t@ ==> s.id@ == t.id@ && s.kind == t.kind && s.target_stem@ == t.target_stem@
            && s.prompt@ == t.prompt@ && story_plan::opt_text(s.scene_ref) == story_plan::opt_text(
            t.scene_ref,
        ) && story_plan::opt_text(s.character_ref) == story_plan::opt_text(t.character_ref)
            && story_plan::opt_text(s.emotion) == story_plan::opt_text(t.emotion)
            && s.dialogue_index == t.dialogue_index && story_plan::opt_text(s.text)
            == story_plan::opt_text(t.text) && s.status == t.status && s.attempts@.len()
            == t.attempts@.len() && story_plan::opt_text(s.asset_file) == story_plan::opt_text(
            t.asset_file,
        ) && story_plan::opt_text(s.error) == story_plan::opt_text(t.error)
            && s.used_local_fallback == t.used_local_fallback && forall|i: int|
            0 <= i < s.attempts@.len() ==> (#[trigger] s.attempts@[i])@ == t.attempts@[i]@,
{
    if s@ == t@ {
        let x = attempt_views(s.attempts@);
        let y = attempt_views(t.attempts@);
        assert(x == y);
        assert(x.len() == s.attempts@.len() && y.len() == t.attempts@.len());
        assert forall|i: int| 0 <= i < s.attempts@.len() implies (#[trigger] s.attempts@[i])@
            == t.attempts@[i]@ by {
            assert(x[i] == s.attempts@[i]@ && y[i] == t.attempts@[i]@);
        }
    }
}

} // verus!
