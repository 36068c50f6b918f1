//! Committing a set of changes: all of them, or none.
//!
//! The checks, the order of the writes and the order of the rollback are
//! decided here; reading and writing files is done by the caller, who reports
//! what came of each step.
use vstd::prelude::*;

use crate::agents::router;
use crate::assets;
use crate::assets::AssetMetadata;
use crate::characters::CharactersDocument;
use crate::json;
use crate::json_store;
use crate::project;
use crate::project::ProjectMemory;
use crate::text;

verus! {

broadcast use vstd::string::group_string_axioms;

/// A request to change a project. JSON documents are given as their texts.
#[derive(Debug, PartialEq, Eq)]
pub struct ApplyChangeSetRequest {
    pub project_path: String,
    pub operations: Vec<ChangeSetOperation>,
}

#[derive(Debug, PartialEq, Eq)]
pub enum ChangeSetOperation {
    Scene { file: String, baseline: String, content: String },
    Characters { baseline: String, document: String },
    ProjectMemory { baseline: String, memory: String },
    AssetMetadata { baseline: String, metadata: String },
    CreateScene { file: String, content: String },
}

#[derive(Debug, PartialEq, Eq)]
pub enum ResourceId {
    Project,
    Scene { file: String },
    Characters,
    ProjectMemory,
    AssetMetadata,
}

impl Clone for ResourceId {
    fn clone(&self) -> (r: ResourceId)
        ensures
            r == *self,
    {
        match self {
            ResourceId::Project => ResourceId::Project,
            ResourceId::Scene { file } => ResourceId::Scene { file: file.clone() },
            ResourceId::Characters => ResourceId::Characters,
            ResourceId::ProjectMemory => ResourceId::ProjectMemory,
            ResourceId::AssetMetadata => ResourceId::AssetMetadata,
        }
    }
}

/// The outcome of a request.
#[derive(Debug, PartialEq, Eq)]
pub enum ApplyChangeSetResult {
    Committed { resources: Vec<ResourceId> },
    Conflict { resources: Vec<ResourceId> },
    FailedAndRolledBack { failed_resource: ResourceId, message: String },
    RollbackFailed {
        failed_resource: ResourceId,
        residual_resources: Vec<ResourceId>,
        message: String,
    },
}

/// What a resource must hold for its write to go ahead.
#[derive(Debug, PartialEq, Eq)]
pub enum Baseline {
    Text(String),
    Json(String),
    Missing,
}

/// A write, ready to be carried out. The path is below the project's root.
#[derive(Debug, PartialEq, Eq)]
pub struct PreparedWrite {
    pub resource: ResourceId,
    pub path: String,
    pub baseline: Baseline,
    pub content: Vec<u8>,
}

// ---------------------------------------------------------------------------
// Models
// ---------------------------------------------------------------------------

pub enum ResourceView {
    Project,
    Scene(Seq<char>),
    Characters,
    ProjectMemory,
    AssetMetadata,
}

impl View for ResourceId {
    type V = ResourceView;

    open spec fn view(&self) -> ResourceView {
        match *self {
            ResourceId::Project => ResourceView::Project,
            ResourceId::Scene { file } => ResourceView::Scene(file@),
            ResourceId::Characters => ResourceView::Characters,
            ResourceId::ProjectMemory => ResourceView::ProjectMemory,
            ResourceId::AssetMetadata => ResourceView::AssetMetadata,
        }
    }
}

pub open spec fn resource_views(v: Seq<ResourceId>) -> Seq<ResourceView> {
    v.map_values(|r: ResourceId| r@)
}

pub enum BaselineView {
    Text(Seq<char>),
    Json(Seq<char>),
    Missing,
}

impl View for Baseline {
    type V = BaselineView;

    open spec fn view(&self) -> BaselineView {
        match *self {
            Baseline::Text(s) => BaselineView::Text(s@),
            Baseline::Json(s) => BaselineView::Json(s@),
            Baseline::Missing => BaselineView::Missing,
        }
    }
}

pub struct WriteView {
    pub resource: ResourceView,
    pub path: Seq<char>,
    pub baseline: BaselineView,
    pub content: Seq<u8>,
}

impl View for PreparedWrite {
    type V = WriteView;

    open spec fn view(&self) -> WriteView {
        WriteView {
            resource: self.resource@,
            path: self.path@,
            baseline: self.baseline@,
            content: self.content@,
        }
    }
}

pub open spec fn write_views(v: Seq<PreparedWrite>) -> Seq<WriteView> {
    v.map_values(|w: PreparedWrite| w@)
}

pub enum OutcomeView {
    Committed(Seq<ResourceView>),
    Conflict(Seq<ResourceView>),
    FailedAndRolledBack(ResourceView, Seq<char>),
    RollbackFailed(ResourceView, Seq<ResourceView>, Seq<char>),
}

impl View for ApplyChangeSetResult {
    type V = OutcomeView;

    open spec fn view(&self) -> OutcomeView {
        match *self {
            ApplyChangeSetResult::Committed { resources } => OutcomeView::Committed(
                resource_views(resources@),
            ),
            ApplyChangeSetResult::Conflict { resources } => OutcomeView::Conflict(
                resource_views(resources@),
            ),
            ApplyChangeSetResult::FailedAndRolledBack { failed_resource, message } =>
                OutcomeView::FailedAndRolledBack(failed_resource@, message@),
            ApplyChangeSetResult::RollbackFailed {
                failed_resource,
                residual_resources,
                message,
            } => OutcomeView::RollbackFailed(
                failed_resource@,
                resource_views(residual_resources@),
                message@,
            ),
        }
    }
}

// ---------------------------------------------------------------------------
// Preparing
// ---------------------------------------------------------------------------

/// A scene file on its own: it ends in `.txt` and leads nowhere else.
pub open spec fn scene_name(s: Seq<char>) -> bool {
    text::ends(s, ".txt"@) && !s.contains('/') && !s.contains('\\')
}

pub fn is_scene_name(value: &str) -> (r: bool)
    ensures
        r == scene_name(value@),
{
    text::ends_with(value, ".txt") && !text::contains_char(value, '/') && !text::contains_char(
        value,
        '\\',
    )
}

/// A scene name is one plain file name.
pub proof fn scene_names_are_plain(s: Seq<char>)
    requires
        scene_name(s),
    ensures
        crate::paths::plain_name(s),
        crate::paths::component_count(s) == 1,
{
    reveal_strlit(".txt");
    reveal_strlit(".");
    reveal_strlit("..");
    crate::paths::plain_names_have_no_separator(s);
    crate::paths::lemma_single_part(s);
}

/// Where a resource stands, below the project's root.
pub open spec fn resource_path(r: ResourceView) -> Seq<char> {
    match r {
        ResourceView::Project => Seq::empty(),
        ResourceView::Scene(file) => "game/scene/"@ + file,
        ResourceView::Characters => "game/config/characters.json"@,
        ResourceView::ProjectMemory => "game/ai-memory.json"@,
        ResourceView::AssetMetadata => "game/config/asset-metadata.json"@,
    }
}

/// The resource of an operation.
pub open spec fn resource_of(op: ChangeSetOperation) -> ResourceView {
    match op {
        ChangeSetOperation::Scene { file, .. } => ResourceView::Scene(file@),
        ChangeSetOperation::Characters { .. } => ResourceView::Characters,
        ChangeSetOperation::ProjectMemory { .. } => ResourceView::ProjectMemory,
        ChangeSetOperation::AssetMetadata { .. } => ResourceView::AssetMetadata,
        ChangeSetOperation::CreateScene { file, .. } => ResourceView::Scene(file@),
    }
}

/// What an operation expects to find.
pub open spec fn baseline_of(op: ChangeSetOperation) -> BaselineView {
    match op {
        ChangeSetOperation::Scene { baseline, .. } => BaselineView::Text(baseline@),
        ChangeSetOperation::Characters { baseline, .. } => BaselineView::Json(baseline@),
        ChangeSetOperation::ProjectMemory { baseline, .. } => BaselineView::Json(baseline@),
        ChangeSetOperation::AssetMetadata { baseline, .. } => BaselineView::Json(baseline@),
        ChangeSetOperation::CreateScene { .. } => BaselineView::Missing,
    }
}

/// What an operation writes, or why it writes nothing.
pub open spec fn content_of(op: ChangeSetOperation) -> Result<Seq<u8>, Seq<char>> {
    match op {
        ChangeSetOperation::Scene { file, content, .. } => if scene_name(file@) {
            Ok(vstd::utf8::encode_utf8(content@))
        } else {
            Err("invalid scene name"@)
        },
        ChangeSetOperation::CreateScene { file, content } => if scene_name(file@) {
            Ok(vstd::utf8::encode_utf8(content@))
        } else {
            Err("invalid scene name"@)
        },
        ChangeSetOperation::Characters { document, .. } => serialized(document@),
        ChangeSetOperation::ProjectMemory { memory, .. } => serialized(memory@),
        ChangeSetOperation::AssetMetadata { metadata, .. } => serialized(metadata@),
    }
}

/// The bytes of a JSON document, or why it has none.
pub open spec fn serialized(document: Seq<char>) -> Result<Seq<u8>, Seq<char>> {
    match json::pretty_json_of(document) {
        Ok(bytes) => Ok(bytes),
        Err(m) => Err("failed to serialize resource: "@ + m),
    }
}

/// The write of an operation, or why it has none.
pub open spec fn prepared(op: ChangeSetOperation) -> Result<WriteView, (ResourceView, Seq<char>)> {
    match content_of(op) {
        Ok(content) => Ok(
            WriteView {
                resource: resource_of(op),
                path: resource_path(resource_of(op)),
                baseline: baseline_of(op),
                content,
            },
        ),
        Err(m) => Err((resource_of(op), m)),
    }
}

fn serialize_json(document: &str) -> (r: Result<Vec<u8>, String>)
    ensures
        match (r, serialized(document@)) {
            (Ok(bytes), Ok(expected)) => bytes@ == expected,
            (Err(m), Err(expected)) => m@ == expected,
            _ => false,
        },
{
    match json::pretty_json(document) {
        Ok(bytes) => Ok(bytes),
        Err(m) => Err(router::joined("failed to serialize resource: ", m.as_str())),
    }
}

fn prepare_scene(file: String, baseline: Baseline, content: &str) -> (r: Result<
    PreparedWrite,
    (ResourceId, String),
>)
    ensures
        match r {
            Ok(w) => scene_name(file@) && w@ == (WriteView {
                resource: ResourceView::Scene(file@),
                path: resource_path(ResourceView::Scene(file@)),
                baseline: baseline@,
                content: vstd::utf8::encode_utf8(content@),
            }),
            Err(e) => !scene_name(file@) && e.0@ == ResourceView::Scene(file@) && e.1@
                == "invalid scene name"@,
        },
{
    if !is_scene_name(file.as_str()) {
        return Err((ResourceId::Scene { file }, text::copy("invalid scene name")));
    }
    let path = router::joined("game/scene/", file.as_str());
    Ok(
        PreparedWrite {
            resource: ResourceId::Scene { file },
            path,
            baseline,
            content: text::bytes_of(content),
        },
    )
}

/// The write of a document, once it was serialised.
pub fn document_write(
    resource: ResourceId,
    path: &str,
    baseline: String,
    content: Result<Vec<u8>, String>,
) -> (r: Result<PreparedWrite, (ResourceId, String)>)
    ensures
        match (r, content) {
            (Ok(w), Ok(bytes)) => w@ == (WriteView {
                resource: resource@,
                path: path@,
                baseline: BaselineView::Json(baseline@),
                content: bytes@,
            }),
            (Err(e), Err(m)) => e.0@ == resource@ && e.1@ == m@,
            _ => false,
        },
{
    match content {
        Ok(content) => Ok(
            PreparedWrite {
                resource,
                path: text::copy(path),
                baseline: Baseline::Json(baseline),
                content,
            },
        ),
        Err(m) => Err((resource, m)),
    }
}

fn prepare_document(resource: ResourceId, path: &str, baseline: String, document: &str) -> (r: Result<
    PreparedWrite,
    (ResourceId, String),
>)
    ensures
        match (r, serialized(document@)) {
            (Ok(w), Ok(content)) => w@ == (WriteView {
                resource: resource@,
                path: path@,
                baseline: BaselineView::Json(baseline@),
                content,
            }),
            (Err(e), Err(m)) => e.0@ == resource@ && e.1@ == m,
            _ => false,
        },
{
    document_write(resource, path, baseline, serialize_json(document))
}

/// Makes the write of an operation.
pub fn prepare_write(operation: ChangeSetOperation) -> (r: Result<PreparedWrite, (ResourceId, String)>)
    ensures
        match (r, prepared(operation)) {
            (Ok(w), Ok(expected)) => w@ == expected,
            (Err(e), Err(expected)) => e.0@ == expected.0 && e.1@ == expected.1,
            _ => false,
        },
{
    match operation {
        ChangeSetOperation::Scene { file, baseline, content } => prepare_scene(
            file,
            Baseline::Text(baseline),
            content.as_str(),
        ),
        ChangeSetOperation::CreateScene { file, content } => prepare_scene(
            file,
            Baseline::Missing,
            content.as_str(),
        ),
        ChangeSetOperation::Characters { baseline, document } => prepare_document(
            ResourceId::Characters,
            "game/config/characters.json",
            baseline,
            document.as_str(),
        ),
        ChangeSetOperation::ProjectMemory { baseline, memory } => prepare_document(
            ResourceId::ProjectMemory,
            "game/ai-memory.json",
            baseline,
            memory.as_str(),
        ),
        ChangeSetOperation::AssetMetadata { baseline, metadata } => prepare_document(
            ResourceId::AssetMetadata,
            "game/config/asset-metadata.json",
            baseline,
            metadata.as_str(),
        ),
    }
}

/// Different resources stand at different paths, so that no write of a change
/// set touches what another one wrote.
pub proof fn distinct_resources_have_distinct_paths(a: ResourceView, b: ResourceView)
    requires
        a != b,
        a matches ResourceView::Scene(f) ==> scene_name(f),
        b matches ResourceView::Scene(f) ==> scene_name(f),
    ensures
        resource_path(a) != resource_path(b),
{
    reveal_strlit("game/scene/");
    reveal_strlit("game/config/characters.json");
    reveal_strlit("game/ai-memory.json");
    reveal_strlit("game/config/asset-metadata.json");
    let p = resource_path(a);
    let q = resource_path(b);
    if p == q {
        match (a, b) {
            (ResourceView::Scene(f), ResourceView::Scene(g)) => {
                assert(p.skip(11) =~= f);
                assert(q.skip(11) =~= g);
            },
            (ResourceView::Scene(f), _) => {
                assert(p.len() >= 11 && p[5] == 's');
            },
            (_, ResourceView::Scene(f)) => {
                assert(q.len() >= 11 && q[5] == 's');
            },
            _ => {
                assert(p.len() == q.len());
            },
        }
    }
}

// ---------------------------------------------------------------------------
// Baselines
// ---------------------------------------------------------------------------

/// What the caller found where a resource stands.
#[derive(Debug, PartialEq, Eq)]
pub enum DiskState {
    /// Nothing is there.
    Absent,
    /// A file with these bytes.
    Present(Vec<u8>),
    /// It could not be read; whether something is there.
    Unreadable(bool),
}

/// An expected JSON document, as far as it could be read as the kind of
/// document that its resource holds.
#[derive(Debug, PartialEq, Eq)]
pub enum ExpectedDocument {
    Characters(CharactersDocument),
    Memory(ProjectMemory),
    Metadata(AssetMetadata),
    Unknown,
}

/// Whether a resource that is not there may count as this document: only where
/// the document is what an empty project holds.
pub open spec fn absent_matches(resource: ResourceView, expected: ExpectedDocument) -> bool {
    match (resource, expected) {
        (ResourceView::Characters, ExpectedDocument::Characters(d)) => d.version == 1
            && d.characters@.len() == 0,
        (ResourceView::ProjectMemory, ExpectedDocument::Memory(m)) => project::memory_blank(m@),
        (ResourceView::AssetMetadata, ExpectedDocument::Metadata(m)) => assets::metadata_blank(m),
        _ => false,
    }
}

pub fn missing_json_matches(resource: &ResourceId, expected: &ExpectedDocument) -> (r: bool)
    ensures
        r == absent_matches(resource@, *expected),
{
    match (resource, expected) {
        (ResourceId::Characters, ExpectedDocument::Characters(d)) => d.version == 1
            && d.characters.len() == 0,
        (ResourceId::ProjectMemory, ExpectedDocument::Memory(m)) => m.is_blank(),
        (ResourceId::AssetMetadata, ExpectedDocument::Metadata(m)) => m.is_blank(),
        _ => false,
    }
}

/// Whether a resource holds what its write expects.
pub open spec fn baseline_holds(
    write: WriteView,
    disk: DiskState,
    expected: ExpectedDocument,
) -> bool {
    match write.baseline {
        BaselineView::Text(t) => disk matches DiskState::Present(bytes) && bytes@
            == vstd::utf8::encode_utf8(t),
        BaselineView::Json(t) => match disk {
            DiskState::Present(bytes) => json::same_json(bytes@, t),
            DiskState::Absent => absent_matches(write.resource, expected),
            DiskState::Unreadable(_) => false,
        },
        BaselineView::Missing => match disk {
            DiskState::Absent => true,
            DiskState::Present(_) => false,
            DiskState::Unreadable(present) => !present,
        },
    }
}

pub fn baseline_matches(write: &PreparedWrite, disk: &DiskState, expected: &ExpectedDocument) -> (r:
    bool)
    ensures
        r == baseline_holds(write@, *disk, *expected),
{
    match &write.baseline {
        Baseline::Text(t) => match disk {
            DiskState::Present(bytes) => {
                let wanted = text::bytes_of(t.as_str());
                text::same_bytes(bytes, &wanted)
            },
            _ => false,
        },
        Baseline::Json(t) => match disk {
            DiskState::Present(bytes) => json::is_same_json(bytes, t.as_str()),
            DiskState::Absent => missing_json_matches(&write.resource, expected),
            DiskState::Unreadable(_) => false,
        },
        Baseline::Missing => match disk {
            DiskState::Absent => true,
            DiskState::Present(_) => false,
            DiskState::Unreadable(present) => !*present,
        },
    }
}

// ---------------------------------------------------------------------------
// The commit
// ---------------------------------------------------------------------------

/// Whether two resources are the same.
pub fn same_resource(a: &ResourceId, b: &ResourceId) -> (r: bool)
    ensures
        r == (a@ == b@),
{
    match (a, b) {
        (ResourceId::Project, ResourceId::Project) => true,
        (ResourceId::Scene { file: x }, ResourceId::Scene { file: y }) => text::same(
            x.as_str(),
            y.as_str(),
        ),
        (ResourceId::Characters, ResourceId::Characters) => true,
        (ResourceId::ProjectMemory, ResourceId::ProjectMemory) => true,
        (ResourceId::AssetMetadata, ResourceId::AssetMetadata) => true,
        _ => false,
    }
}

/// Whether the resource of the write at `i` is written before it already.
pub open spec fn repeated(writes: Seq<WriteView>, i: int) -> bool {
    exists|j: int| 0 <= j < i && (#[trigger] writes[j]).resource == writes[i].resource
}

/// The first write from `i` on whose resource is written before it, or their
/// number.
pub open spec fn first_repeated(writes: Seq<WriteView>, i: int) -> int
    decreases writes.len() - i,
{
    if i >= writes.len() {
        writes.len() as int
    } else if repeated(writes, i) {
        i
    } else {
        first_repeated(writes, i + 1)
    }
}

fn find_repeated(writes: &Vec<PreparedWrite>) -> (r: usize)
    ensures
        r <= writes.len(),
        r == first_repeated(write_views(writes@), 0),
{
    let ghost all = write_views(writes@);
    let mut i: usize = 0;
    while i < writes.len()
        invariant
            i <= writes.len(),
            all == write_views(writes@),
            first_repeated(all, 0) == first_repeated(all, i as int),
        decreases writes.len() - i,
    {
        let mut j: usize = 0;
        while j < i
            invariant
                j <= i < writes.len(),
                all == write_views(writes@),
                first_repeated(all, 0) == first_repeated(all, i as int),
                forall|k: int| 0 <= k < j ==> (#[trigger] all[k]).resource
                    != all[i as int].resource,
            decreases i - j,
        {
            if same_resource(&writes[j].resource, &writes[i].resource) {
                assert(all[j as int].resource == all[i as int].resource);
                return i;
            }
            j += 1;
        }
        i += 1;
    }
    i
}

/// The resource that two operations of a change set would both write.
pub fn duplicate_resource(writes: &Vec<PreparedWrite>) -> (r: Option<ResourceId>)
    ensures
        ({
            let all = write_views(writes@);
            let i = first_repeated(all, 0);
            if i < all.len() {
                r matches Some(id) && id@ == all[i].resource
            } else {
                r is None
            }
        }),
{
    let i = find_repeated(writes);
    if i < writes.len() {
        Some(writes[i].resource.clone())
    } else {
        None
    }
}

/// How far a commit has come.
#[derive(Debug, PartialEq, Eq)]
pub enum CommitPhase {
    /// Whether the target of the write at this index is the project's own.
    Ownership(usize),
    /// Whether the baseline of the write at this index holds; the conflicts so
    /// far.
    Baselines(usize, Vec<ResourceId>),
    /// The resource of the write at this index is to be snapshotted.
    Snapshots(usize),
    /// The write at this index is to be carried out.
    Writing(usize),
    /// The write at `failed` did not go well; those before and at `next - 1`
    /// are still to be rolled back.
    RollingBack { failed: usize, message: String, next: usize, residual: Vec<ResourceId> },
    /// The commit is over.
    Done(ApplyChangeSetResult),
}

pub enum PhaseView {
    Ownership(int),
    Baselines(int, Seq<ResourceView>),
    Snapshots(int),
    Writing(int),
    RollingBack(int, Seq<char>, int, Seq<ResourceView>),
    Done(OutcomeView),
}

impl View for CommitPhase {
    type V = PhaseView;

    open spec fn view(&self) -> PhaseView {
        match *self {
            CommitPhase::Ownership(i) => PhaseView::Ownership(i as int),
            CommitPhase::Baselines(i, conflicts) => PhaseView::Baselines(
                i as int,
                resource_views(conflicts@),
            ),
            CommitPhase::Snapshots(i) => PhaseView::Snapshots(i as int),
            CommitPhase::Writing(i) => PhaseView::Writing(i as int),
            CommitPhase::RollingBack { failed, message, next, residual } => PhaseView::RollingBack(
                failed as int,
                message@,
                next as int,
                resource_views(residual@),
            ),
            CommitPhase::Done(result) => PhaseView::Done(result@),
        }
    }
}

/// What came of a step.
#[derive(Debug, PartialEq, Eq)]
pub enum CommitEvent {
    Owned(bool),
    BaselineMatches(bool),
    Snapshotted(Result<(), String>),
    Written(Result<(), String>),
    RolledBack(bool),
}

pub enum EventView {
    Owned(bool),
    BaselineMatches(bool),
    Snapshotted(Option<Seq<char>>),
    Written(Option<Seq<char>>),
    RolledBack(bool),
}

impl View for CommitEvent {
    type V = EventView;

    open spec fn view(&self) -> EventView {
        match *self {
            CommitEvent::Owned(b) => EventView::Owned(b),
            CommitEvent::BaselineMatches(b) => EventView::BaselineMatches(b),
            CommitEvent::Snapshotted(r) => EventView::Snapshotted(json_store::fault(r)),
            CommitEvent::Written(r) => EventView::Written(json_store::fault(r)),
            CommitEvent::RolledBack(b) => EventView::RolledBack(b),
        }
    }
}

/// The resources of the writes, in their order.
pub open spec fn resources_of(writes: Seq<WriteView>) -> Seq<ResourceView> {
    writes.map_values(|w: WriteView| w.resource)
}

/// The phase after every target was found to be the project's own.
pub open spec fn after_ownership(writes: Seq<WriteView>) -> PhaseView {
    let i = first_repeated(writes, 0);
    if i < writes.len() {
        PhaseView::Done(
            OutcomeView::FailedAndRolledBack(
                writes[i].resource,
                "duplicate resource operation"@,
            ),
        )
    } else if writes.len() == 0 {
        PhaseView::Done(OutcomeView::Committed(Seq::empty()))
    } else {
        PhaseView::Baselines(0, Seq::empty())
    }
}

/// The phase that a commit starts in.
pub open spec fn first_phase(writes: Seq<WriteView>) -> PhaseView {
    if writes.len() == 0 {
        after_ownership(writes)
    } else {
        PhaseView::Ownership(0)
    }
}

/// The phase after an event. An event that answers no open question changes
/// nothing.
pub open spec fn next_phase(writes: Seq<WriteView>, phase: PhaseView, event: EventView) -> PhaseView {
    match (phase, event) {
        (PhaseView::Ownership(i), EventView::Owned(owned)) => if !owned {
            PhaseView::Done(
                OutcomeView::FailedAndRolledBack(
                    writes[i].resource,
                    "resource path escapes project"@,
                ),
            )
        } else if i + 1 < writes.len() {
            PhaseView::Ownership(i + 1)
        } else {
            after_ownership(writes)
        },
        (PhaseView::Baselines(i, conflicts), EventView::BaselineMatches(matching)) => {
            let found = if matching {
                conflicts
            } else {
                conflicts.push(writes[i].resource)
            };
            if i + 1 < writes.len() {
                PhaseView::Baselines(i + 1, found)
            } else if found.len() > 0 {
                PhaseView::Done(OutcomeView::Conflict(found))
            } else {
                PhaseView::Snapshots(0)
            }
        },
        (PhaseView::Snapshots(i), EventView::Snapshotted(failure)) => match failure {
            Some(m) => PhaseView::Done(
                OutcomeView::FailedAndRolledBack(
                    writes[i].resource,
                    "failed to snapshot resource: "@ + m,
                ),
            ),
            None => if i + 1 < writes.len() {
                PhaseView::Snapshots(i + 1)
            } else {
                PhaseView::Writing(0)
            },
        },
        (PhaseView::Writing(i), EventView::Written(failure)) => match failure {
            Some(m) => PhaseView::RollingBack(i, m, i + 1, Seq::empty()),
            None => if i + 1 < writes.len() {
                PhaseView::Writing(i + 1)
            } else {
                PhaseView::Done(OutcomeView::Committed(resources_of(writes)))
            },
        },
        (PhaseView::RollingBack(failed, m, next, residual), EventView::RolledBack(restored)) => {
            let left = if restored {
                residual
            } else {
                residual.push(writes[next - 1].resource)
            };
            if next > 1 {
                PhaseView::RollingBack(failed, m, next - 1, left)
            } else if left.len() == 0 {
                PhaseView::Done(OutcomeView::FailedAndRolledBack(writes[failed].resource, m))
            } else {
                PhaseView::Done(OutcomeView::RollbackFailed(writes[failed].resource, left, m))
            }
        },
        _ => phase,
    }
}

/// Whether a phase speaks of writes that are there.
pub open spec fn phase_fits(n: int, phase: PhaseView) -> bool {
    match phase {
        PhaseView::Ownership(i) => 0 <= i < n,
        PhaseView::Baselines(i, _) => 0 <= i < n,
        PhaseView::Snapshots(i) => 0 <= i < n,
        PhaseView::Writing(i) => 0 <= i < n,
        PhaseView::RollingBack(failed, _, next, _) => 0 <= failed < n && 1 <= next <= failed + 1,
        PhaseView::Done(_) => true,
    }
}

/// A commit under way.
pub struct CommitRun {
    pub writes: Vec<PreparedWrite>,
    pub phase: CommitPhase,
}

impl CommitRun {
    /// Whether the phase speaks of writes that are there.
    pub open spec fn wf(self) -> bool {
        phase_fits(self.writes@.len() as int, self.phase@)
    }
}

fn failed_result(resource: &ResourceId, message: &str) -> (r: ApplyChangeSetResult)
    ensures
        r@ == OutcomeView::FailedAndRolledBack(resource@, message@),
{
    ApplyChangeSetResult::FailedAndRolledBack {
        failed_resource: resource.clone(),
        message: text::copy(message),
    }
}

/// The writes of the first `n` operations, or the outcome where one has none.
pub open spec fn prepared_upto(ops: Seq<ChangeSetOperation>, n: int) -> Result<
    Seq<WriteView>,
    (ResourceView, Seq<char>),
>
    decreases n,
{
    if n <= 0 {
        Ok(Seq::empty())
    } else {
        match prepared_upto(ops, n - 1) {
            Err(e) => Err(e),
            Ok(before) => match prepared(ops[n - 1]) {
                Err(e) => Err(e),
                Ok(w) => Ok(before.push(w)),
            },
        }
    }
}

proof fn lemma_prepared_error(ops: Seq<ChangeSetOperation>, k: int, n: int)
    requires
        0 <= k <= n,
        prepared_upto(ops, k) is Err,
    ensures
        prepared_upto(ops, n) == prepared_upto(ops, k),
    decreases n - k,
{
    if k < n {
        lemma_prepared_error(ops, k + 1, n);
    }
}

/// The resources of the writes, as a list.
fn list_resources(writes: &Vec<PreparedWrite>) -> (r: Vec<ResourceId>)
    ensures
        resource_views(r@) == resources_of(write_views(writes@)),
{
    let ghost all = resources_of(write_views(writes@));
    let mut out: Vec<ResourceId> = Vec::new();
    let mut i: usize = 0;
    while i < writes.len()
        invariant
            i <= writes.len(),
            all == resources_of(write_views(writes@)),
            resource_views(out@) =~= all.take(i as int),
        decreases writes.len() - i,
    {
        let ghost before = resource_views(out@);
        let resource = writes[i].resource.clone();
        out.push(resource);
        assert(resource_views(out@) =~= before.push(resource@));
        assert(all.take(i + 1) =~= all.take(i as int).push(all[i as int]));
        i += 1;
    }
    assert(all.take(all.len() as int) =~= all);
    out
}

fn enter_after_ownership(writes: &Vec<PreparedWrite>) -> (r: CommitPhase)
    ensures
        r@ == after_ownership(write_views(writes@)),
{
    let i = find_repeated(writes);
    if i < writes.len() {
        return CommitPhase::Done(
            failed_result(&writes[i].resource, "duplicate resource operation"),
        );
    }
    let none: Vec<ResourceId> = Vec::new();
    assert(resource_views(none@) =~= Seq::<ResourceView>::empty());
    if writes.len() == 0 {
        CommitPhase::Done(ApplyChangeSetResult::Committed { resources: none })
    } else {
        CommitPhase::Baselines(0, none)
    }
}

/// Starts a commit: the project must be valid, and every operation must have
/// its write.
pub fn apply_change_set(project_valid: bool, operations: Vec<ChangeSetOperation>) -> (r: CommitRun)
    ensures
        r.wf(),
        if !project_valid {
            r.phase@ == PhaseView::Done(
                OutcomeView::FailedAndRolledBack(ResourceView::Project, "invalid project"@),
            )
        } else {
            match prepared_upto(operations@, operations@.len() as int) {
                Err(e) => r.phase@ == PhaseView::Done(
                    OutcomeView::FailedAndRolledBack(e.0, e.1),
                ),
                Ok(writes) => write_views(r.writes@) == writes && r.phase@ == first_phase(writes),
            }
        },
{
    let mut writes: Vec<PreparedWrite> = Vec::new();
    if !project_valid {
        return CommitRun {
            writes,
            phase: CommitPhase::Done(failed_result(&ResourceId::Project, "invalid project")),
        };
    }
    let ghost ops = operations@;
    assert(write_views(writes@) =~= Seq::<WriteView>::empty());
    for operation in it: operations
        invariant
            ops == it.seq(),
            project_valid,
            prepared_upto(ops, it.index()) matches Ok(done) && write_views(writes@) == done,
    {
        match prepare_write(operation) {
            Ok(write) => {
                let ghost before = write_views(writes@);
                writes.push(write);
                assert(write_views(writes@) =~= before.push(write@));
            },
            Err((resource, message)) => {
                proof {
                    lemma_prepared_error(ops, it.index() + 1, ops.len() as int);
                }
                return CommitRun {
                    writes,
                    phase: CommitPhase::Done(
                        ApplyChangeSetResult::FailedAndRolledBack {
                            failed_resource: resource,
                            message,
                        },
                    ),
                };
            },
        }
    }
    let phase = if writes.len() == 0 {
        enter_after_ownership(&writes)
    } else {
        CommitPhase::Ownership(0)
    };
    CommitRun { writes, phase }
}

/// Takes a commit one step further.
pub fn advance(run: CommitRun, event: CommitEvent) -> (r: CommitRun)
    requires
        run.wf(),
    ensures
        r.wf(),
        r.writes == run.writes,
        r.phase@ == next_phase(write_views(run.writes@), run.phase@, event@),
{
    let writes = run.writes;
    let n = writes.len();
    let ghost all = write_views(writes@);
    assert(all.len() == n);
    let phase = match (run.phase, event) {
        (CommitPhase::Ownership(i), CommitEvent::Owned(owned)) => {
            assert(all[i as int] == writes@[i as int]@);
            if !owned {
                CommitPhase::Done(
                    failed_result(&writes[i].resource, "resource path escapes project"),
                )
            } else if i + 1 < n {
                CommitPhase::Ownership(i + 1)
            } else {
                enter_after_ownership(&writes)
            }
        },
        (CommitPhase::Baselines(i, conflicts), CommitEvent::BaselineMatches(matching)) => {
            assert(all[i as int] == writes@[i as int]@);
            let mut found = conflicts;
            let ghost before = resource_views(found@);
            if !matching {
                let resource = writes[i].resource.clone();
                found.push(resource);
                assert(resource_views(found@) =~= before.push(resource@));
            }
            assert(found@.len() == resource_views(found@).len());
            if i + 1 < n {
                CommitPhase::Baselines(i + 1, found)
            } else if found.len() > 0 {
                CommitPhase::Done(ApplyChangeSetResult::Conflict { resources: found })
            } else {
                CommitPhase::Snapshots(0)
            }
        },
        (CommitPhase::Snapshots(i), CommitEvent::Snapshotted(result)) => {
            assert(all[i as int] == writes@[i as int]@);
            match result {
                Err(m) => {
                    let message = router::joined("failed to snapshot resource: ", m.as_str());
                    CommitPhase::Done(failed_result(&writes[i].resource, message.as_str()))
                },
                Ok(_) => if i + 1 < n {
                    CommitPhase::Snapshots(i + 1)
                } else {
                    CommitPhase::Writing(0)
                },
            }
        },
        (CommitPhase::Writing(i), CommitEvent::Written(result)) => {
            match result {
                Err(m) => {
                    let none: Vec<ResourceId> = Vec::new();
                    assert(resource_views(none@) =~= Seq::<ResourceView>::empty());
                    CommitPhase::RollingBack { failed: i, message: m, next: i + 1, residual: none }
                },
                Ok(_) => if i + 1 < n {
                    CommitPhase::Writing(i + 1)
                } else {
                    CommitPhase::Done(
                        ApplyChangeSetResult::Committed { resources: list_resources(&writes) },
                    )
                },
            }
        },
        (
            CommitPhase::RollingBack { failed, message, next, residual },
            CommitEvent::RolledBack(restored),
        ) => {
            assert(all[next - 1] == writes@[next - 1]@);
            assert(all[failed as int] == writes@[failed as int]@);
            let mut left = residual;
            let ghost before = resource_views(left@);
            if !restored {
                let resource = writes[next - 1].resource.clone();
                left.push(resource);
                assert(resource_views(left@) =~= before.push(resource@));
            }
            assert(left@.len() == resource_views(left@).len());
            if next > 1 {
                CommitPhase::RollingBack { failed, message, next: next - 1, residual: left }
            } else if left.len() == 0 {
                CommitPhase::Done(
                    ApplyChangeSetResult::FailedAndRolledBack {
                        failed_resource: writes[failed].resource.clone(),
                        message,
                    },
                )
            } else {
                CommitPhase::Done(
                    ApplyChangeSetResult::RollbackFailed {
                        failed_resource: writes[failed].resource.clone(),
                        residual_resources: left,
                        message,
                    },
                )
            }
        },
        (phase, _) => phase,
    };
    CommitRun { writes, phase }
}

// ---------------------------------------------------------------------------
// All or nothing
// ---------------------------------------------------------------------------

/// What a disk holds at a path.
pub open spec fn held(disk: Map<Seq<char>, Seq<u8>>, path: Seq<char>) -> Option<Seq<u8>> {
    if disk.dom().contains(path) {
        Some(disk[path])
    } else {
        None
    }
}

/// The disk with something else, or nothing, at a path.
pub open spec fn put(
    disk: Map<Seq<char>, Seq<u8>>,
    path: Seq<char>,
    content: Option<Seq<u8>>,
) -> Map<Seq<char>, Seq<u8>> {
    match content {
        Some(bytes) => disk.insert(path, bytes),
        None => disk.remove(path),
    }
}

/// One step as the disk sees it: the event, and what a write or a rollback that
/// failed has left at its path.
pub struct DiskStep {
    pub event: EventView,
    pub left: Option<Seq<u8>>,
}

/// The disk after a step. A write puts its content; a rollback puts back what
/// the snapshot holds; either may leave anything at its own path where it fails.
pub open spec fn disk_after(
    original: Map<Seq<char>, Seq<u8>>,
    writes: Seq<WriteView>,
    phase: PhaseView,
    disk: Map<Seq<char>, Seq<u8>>,
    step: DiskStep,
) -> Map<Seq<char>, Seq<u8>> {
    match (phase, step.event) {
        (PhaseView::Writing(i), EventView::Written(failure)) => match failure {
            None => disk.insert(writes[i].path, writes[i].content),
            Some(_) => put(disk, writes[i].path, step.left),
        },
        (PhaseView::RollingBack(_, _, next, _), EventView::RolledBack(restored)) => if restored {
            put(disk, writes[next - 1].path, held(original, writes[next - 1].path))
        } else {
            put(disk, writes[next - 1].path, step.left)
        },
        _ => disk,
    }
}

/// The disk with the first `n` writes carried out.
pub open spec fn written(
    original: Map<Seq<char>, Seq<u8>>,
    writes: Seq<WriteView>,
    n: int,
) -> Map<Seq<char>, Seq<u8>>
    decreases n,
{
    if n <= 0 {
        original
    } else {
        written(original, writes, n - 1).insert(writes[n - 1].path, writes[n - 1].content)
    }
}

/// Whether a path is that of one of the resources.
pub open spec fn among(path: Seq<char>, resources: Seq<ResourceView>) -> bool {
    exists|k: int| 0 <= k < resources.len() && path == resource_path(#[trigger] resources[k])
}

/// Whether a path is that of one of the first `n` writes.
pub open spec fn among_first(path: Seq<char>, writes: Seq<WriteView>, n: int) -> bool {
    exists|k: int| 0 <= k < n && path == (#[trigger] writes[k]).path
}

/// What the disk holds in a phase of a commit.
pub open spec fn disk_fits(
    original: Map<Seq<char>, Seq<u8>>,
    writes: Seq<WriteView>,
    phase: PhaseView,
    disk: Map<Seq<char>, Seq<u8>>,
) -> bool {
    match phase {
        PhaseView::Ownership(_) => disk == original,
        PhaseView::Baselines(_, _) => disk == original,
        PhaseView::Snapshots(_) => disk == original,
        PhaseView::Writing(i) => disk == written(original, writes, i),
        PhaseView::RollingBack(_, _, next, residual) => forall|path: Seq<char>|
            !among(path, residual) && !among_first(path, writes, next) ==> #[trigger] held(
                disk,
                path,
            ) == held(original, path),
        PhaseView::Done(OutcomeView::Committed(_)) => disk == written(
            original,
            writes,
            writes.len() as int,
        ),
        PhaseView::Done(OutcomeView::Conflict(_)) => disk == original,
        PhaseView::Done(OutcomeView::FailedAndRolledBack(_, _)) => disk == original,
        PhaseView::Done(OutcomeView::RollbackFailed(_, residual, _)) => forall|path: Seq<char>|
            !among(path, residual) ==> #[trigger] held(disk, path) == held(original, path),
    }
}

/// Whether each write goes to the path of its resource.
pub open spec fn at_their_paths(writes: Seq<WriteView>) -> bool {
    forall|i: int| 0 <= i < writes.len() ==> (#[trigger] writes[i]).path == resource_path(
        writes[i].resource,
    )
}

/// Prepared writes go to the paths of their resources.
pub proof fn prepared_writes_are_at_their_paths(ops: Seq<ChangeSetOperation>, n: int)
    requires
        0 <= n <= ops.len(),
    ensures
        match prepared_upto(ops, n) {
            Ok(writes) => writes.len() == n && at_their_paths(writes),
            Err(_) => true,
        },
    decreases n,
{
    if n > 0 {
        prepared_writes_are_at_their_paths(ops, n - 1);
    }
}

proof fn lemma_written_elsewhere(
    original: Map<Seq<char>, Seq<u8>>,
    writes: Seq<WriteView>,
    n: int,
    path: Seq<char>,
)
    requires
        0 <= n <= writes.len(),
        !among_first(path, writes, n),
    ensures
        held(written(original, writes, n), path) == held(original, path),
    decreases n,
{
    if n > 0 {
        assert(writes[n - 1].path != path);
        assert(!among_first(path, writes, n - 1));
        lemma_written_elsewhere(original, writes, n - 1, path);
    }
}

proof fn lemma_same_disk(a: Map<Seq<char>, Seq<u8>>, b: Map<Seq<char>, Seq<u8>>)
    requires
        forall|path: Seq<char>| #[trigger] held(a, path) == held(b, path),
    ensures
        a == b,
{
    assert forall|path: Seq<char>| a.dom().contains(path) == b.dom().contains(path) by {
        assert(held(a, path) == held(b, path));
    }
    assert forall|path: Seq<char>| a.dom().contains(path) implies a[path] == b[path] by {
        assert(held(a, path) == held(b, path));
    }
    assert(a =~= b);
}

/// A step keeps what is said of the disk.
proof fn lemma_step_keeps_disk(
    original: Map<Seq<char>, Seq<u8>>,
    writes: Seq<WriteView>,
    phase: PhaseView,
    disk: Map<Seq<char>, Seq<u8>>,
    step: DiskStep,
)
    requires
        at_their_paths(writes),
        phase_fits(writes.len() as int, phase),
        disk_fits(original, writes, phase, disk),
    ensures
        phase_fits(writes.len() as int, next_phase(writes, phase, step.event)),
        disk_fits(
            original,
            writes,
            next_phase(writes, phase, step.event),
            disk_after(original, writes, phase, disk, step),
        ),
{
    let after = disk_after(original, writes, phase, disk, step);
    match (phase, step.event) {
        (PhaseView::Writing(i), EventView::Written(failure)) => {
            if failure is Some {
                assert forall|path: Seq<char>|
                    !among_first(path, writes, i + 1) implies #[trigger] held(after, path) == held(
                    original,
                    path,
                ) by {
                    assert(writes[i].path != path);
                    assert(!among_first(path, writes, i));
                    lemma_written_elsewhere(original, writes, i, path);
                }
            }
        },
        (PhaseView::RollingBack(failed, m, next, residual), EventView::RolledBack(restored)) => {
            let w = writes[next - 1];
            let left = if restored {
                residual
            } else {
                residual.push(w.resource)
            };
            assert forall|path: Seq<char>|
                !among(path, left) && !among_first(path, writes, next - 1) implies #[trigger] held(
                after,
                path,
            ) == held(original, path) by {
                if path == w.path {
                    if !restored {
                        assert(left[left.len() - 1] == w.resource);
                        assert(among(path, left));
                    }
                } else {
                    if among(path, residual) {
                        let k = choose|k: int|
                            0 <= k < residual.len() && path == resource_path(
                                #[trigger] residual[k],
                            );
                        assert(left[k] == residual[k]);
                        assert(among(path, left));
                    }
                    if among_first(path, writes, next) {
                        let k = choose|k: int| 0 <= k < next && path == (#[trigger] writes[k]).path;
                        assert(k < next - 1);
                        assert(among_first(path, writes, next - 1));
                    }
                    assert(held(disk, path) == held(original, path));
                }
            }
            if next == 1 {
                assert forall|path: Seq<char>| !among(path, left) implies #[trigger] held(
                    after,
                    path,
                ) == held(original, path) by {
                    assert(!among_first(path, writes, 0));
                }
                if left.len() == 0 {
                    assert forall|path: Seq<char>| #[trigger] held(after, path) == held(
                        original,
                        path,
                    ) by {
                        assert(!among(path, left));
                    }
                    lemma_same_disk(after, original);
                }
            }
        },
        (PhaseView::Ownership(i), EventView::Owned(owned)) => {
            assert(written(original, Seq::<WriteView>::empty(), 0) == original);
        },
        _ => {},
    }
}

/// The phase and the disk after a number of steps.
pub open spec fn course(
    original: Map<Seq<char>, Seq<u8>>,
    writes: Seq<WriteView>,
    steps: Seq<DiskStep>,
) -> (PhaseView, Map<Seq<char>, Seq<u8>>)
    decreases steps.len(),
{
    if steps.len() == 0 {
        (first_phase(writes), original)
    } else {
        let (phase, disk) = course(original, writes, steps.drop_last());
        (
            next_phase(writes, phase, steps.last().event),
            disk_after(original, writes, phase, disk, steps.last()),
        )
    }
}

/// A change set is all or nothing. Whatever comes of its steps: a committed one
/// has all its writes on the disk; one that met a conflict, or failed and was
/// rolled back, has left the disk as it was; and where the rollback failed,
/// only the resources that are reported may differ from what they were. Nothing
/// is written before every check has passed.
pub proof fn change_sets_are_all_or_nothing(
    original: Map<Seq<char>, Seq<u8>>,
    writes: Seq<WriteView>,
    steps: Seq<DiskStep>,
)
    requires
        at_their_paths(writes),
    ensures
        ({
            let (phase, disk) = course(original, writes, steps);
            phase_fits(writes.len() as int, phase) && disk_fits(original, writes, phase, disk)
        }),
    decreases steps.len(),
{
    if steps.len() == 0 {
        assert(written(original, writes, 0) == original);
    } else {
        change_sets_are_all_or_nothing(original, writes, steps.drop_last());
        let (phase, disk) = course(original, writes, steps.drop_last());
        lemma_step_keeps_disk(original, writes, phase, disk, steps.last());
    }
}

/// The resources among the first `n` whose baselines did not hold.
pub open spec fn unmatched(writes: Seq<WriteView>, answers: Seq<bool>, n: int) -> Seq<ResourceView>
    decreases n,
{
    if n <= 0 {
        Seq::empty()
    } else if answers[n - 1] {
        unmatched(writes, answers, n - 1)
    } else {
        unmatched(writes, answers, n - 1).push(writes[n - 1].resource)
    }
}

/// The phase after the first `n` baselines were compared.
pub open spec fn compared(writes: Seq<WriteView>, answers: Seq<bool>, n: int) -> PhaseView
    decreases n,
{
    if n <= 0 {
        PhaseView::Baselines(0, Seq::empty())
    } else {
        next_phase(
            writes,
            compared(writes, answers, n - 1),
            EventView::BaselineMatches(answers[n - 1]),
        )
    }
}

proof fn lemma_compared(writes: Seq<WriteView>, answers: Seq<bool>, n: int)
    requires
        0 <= n < writes.len(),
        answers.len() == writes.len(),
    ensures
        compared(writes, answers, n) == PhaseView::Baselines(n, unmatched(writes, answers, n)),
    decreases n,
{
    if n > 0 {
        lemma_compared(writes, answers, n - 1);
    }
}

/// Every baseline is compared before anything is decided: the conflict that is
/// reported names every resource that changed meanwhile, in the order of the
/// request, and the commit goes on only where there is none.
pub proof fn conflicts_are_reported_whole(writes: Seq<WriteView>, answers: Seq<bool>)
    requires
        writes.len() > 0,
        answers.len() == writes.len(),
    ensures
        ({
            let conflicts = unmatched(writes, answers, writes.len() as int);
            compared(writes, answers, writes.len() as int) == (if conflicts.len() > 0 {
                PhaseView::Done(OutcomeView::Conflict(conflicts))
            } else {
                PhaseView::Snapshots(0)
            })
        }),
{
    lemma_compared(writes, answers, writes.len() - 1);
}

/// What was found at a write's target.
#[derive(Debug, PartialEq, Eq)]
pub enum TargetState {
    Absent,
    Symlink,
    /// Something else, and where it really is, if that could be found out.
    Present(Option<String>),
    Unreadable,
}

/// Whether a target is the project's own: its nearest directory lies in the
/// project, and what is there already is no link and lies in it too.
pub open spec fn target_owned(
    project: Seq<char>,
    directory: Option<String>,
    target: TargetState,
) -> bool {
    &&& directory matches Some(d) && crate::paths::within(d@, project)
    &&& match target {
        TargetState::Absent => true,
        TargetState::Symlink => false,
        TargetState::Present(resolved) => resolved matches Some(path) && crate::paths::within(
            path@,
            project,
        ),
        TargetState::Unreadable => false,
    }
}

/// Decides whether a target is the project's own, from the real path of the
/// nearest directory above it and from what is there.
pub fn target_is_project_owned(
    project: &str,
    directory: &Option<String>,
    target: &TargetState,
) -> (r: bool)
    ensures
        r == target_owned(project@, *directory, *target),
{
    match directory {
        None => false,
        Some(d) => {
            if !crate::paths::is_within(d.as_str(), project) {
                return false;
            }
            match target {
                TargetState::Absent => true,
                TargetState::Symlink => false,
                TargetState::Present(Some(path)) => crate::paths::is_within(
                    path.as_str(),
                    project,
                ),
                TargetState::Present(None) => false,
                TargetState::Unreadable => false,
            }
        },
    }
}

/// What is to be done to roll a write back.
#[derive(Debug, Clone, Copy, PartialEq, Eq, Structural)]
pub enum RollbackAction {
    /// Write the snapshot again.
    Restore,
    /// Remove what the write created.
    Remove,
    /// Remove what the write created, then the directory made for it.
    RemoveWithParent,
    /// Remove the directory made for it only.
    RemoveParent,
    /// Leave everything as it is.
    Nothing,
}

/// How a write is rolled back: by its snapshot where it has one, else by removing
/// what is there now, and the directory where the commit made it.
pub open spec fn undoing(has_snapshot: bool, present: bool, parent_existed: bool) -> RollbackAction {
    if has_snapshot {
        RollbackAction::Restore
    } else if present {
        if parent_existed {
            RollbackAction::Remove
        } else {
            RollbackAction::RemoveWithParent
        }
    } else if parent_existed {
        RollbackAction::Nothing
    } else {
        RollbackAction::RemoveParent
    }
}

/// Decides how a write is rolled back.
pub fn rollback(has_snapshot: bool, present: bool, parent_existed: bool) -> (r: RollbackAction)
    ensures
        r == undoing(has_snapshot, present, parent_existed),
{
    if has_snapshot {
        RollbackAction::Restore
    } else if present {
        if parent_existed {
            RollbackAction::Remove
        } else {
            RollbackAction::RemoveWithParent
        }
    } else if parent_existed {
        RollbackAction::Nothing
    } else {
        RollbackAction::RemoveParent
    }
}

/// What came of removing a directory.
#[derive(Debug, Clone, Copy, PartialEq, Eq, Structural)]
pub enum DirectoryRemoval {
    Removed,
    /// It is not there.
    Missing,
    /// Something is in it.
    Occupied,
    Failed,
}

/// Whether a directory that a commit made is dealt with: one that something else is
/// in stays, and that is no failure.
pub fn parent_undone(removal: DirectoryRemoval) -> (r: bool)
    ensures
        r == (removal != DirectoryRemoval::Failed),
{
    match removal {
        DirectoryRemoval::Removed => true,
        DirectoryRemoval::Missing => true,
        DirectoryRemoval::Occupied => true,
        DirectoryRemoval::Failed => false,
    }
}

// ---------------------------------------------------------------------------
// Directories
// ---------------------------------------------------------------------------

/// Whether a file lies in a directory.
pub open spec fn occupied(
    disk: Map<Seq<char>, Seq<u8>>,
    parent: spec_fn(Seq<char>) -> Seq<char>,
    directory: Seq<char>,
) -> bool {
    exists|path: Seq<char>| #[trigger] disk.dom().contains(path) && parent(path) == directory
}

/// Whether a rolled-back write gives up the directory it stands in.
pub open spec fn gives_up_directory(action: RollbackAction) -> bool {
    action == RollbackAction::RemoveWithParent || action == RollbackAction::RemoveParent
}

/// What a step may do to the directories. A write makes the one it needs, or fails
/// to; a rollback that went well removes the one that the commit made, where no file
/// is in it any more; one that failed may have removed it.
pub open spec fn directories_step(
    original: Map<Seq<char>, Seq<u8>>,
    original_dirs: Set<Seq<char>>,
    parent: spec_fn(Seq<char>) -> Seq<char>,
    writes: Seq<WriteView>,
    phase: PhaseView,
    disk: Map<Seq<char>, Seq<u8>>,
    step: DiskStep,
    dirs: Set<Seq<char>>,
    then_dirs: Set<Seq<char>>,
) -> bool {
    match (phase, step.event) {
        (PhaseView::Writing(i), EventView::Written(failure)) => {
            ||| then_dirs == dirs.insert(parent(writes[i].path))
            ||| failure is Some && then_dirs == dirs
        },
        (PhaseView::RollingBack(_, _, next, _), EventView::RolledBack(restored)) => {
            let path = writes[next - 1].path;
            let directory = parent(path);
            let action = undoing(
                held(original, path) is Some,
                held(disk, path) is Some,
                original_dirs.contains(directory),
            );
            let left = disk_after(original, writes, phase, disk, step);
            if gives_up_directory(action) && restored {
                then_dirs == (if occupied(left, parent, directory) {
                    dirs
                } else {
                    dirs.remove(directory)
                })
            } else {
                then_dirs == dirs || (gives_up_directory(action) && then_dirs == dirs.remove(
                    directory,
                ))
            }
        },
        _ => then_dirs == dirs,
    }
}

/// Whether a directory is that of one of the first `n` writes.
pub open spec fn made_for(
    directory: Seq<char>,
    parent: spec_fn(Seq<char>) -> Seq<char>,
    writes: Seq<WriteView>,
    n: int,
) -> bool {
    exists|k: int| 0 <= k < n && directory == parent((#[trigger] writes[k]).path)
}

/// Whether a directory is that of one of the resources.
pub open spec fn left_with(
    directory: Seq<char>,
    parent: spec_fn(Seq<char>) -> Seq<char>,
    resources: Seq<ResourceView>,
) -> bool {
    exists|k: int|
        0 <= k < resources.len() && directory == parent(resource_path(#[trigger] resources[k]))
}

/// What the directories are in a phase of a commit.
pub open spec fn directories_fit(
    original_dirs: Set<Seq<char>>,
    parent: spec_fn(Seq<char>) -> Seq<char>,
    writes: Seq<WriteView>,
    phase: PhaseView,
    dirs: Set<Seq<char>>,
) -> bool {
    &&& original_dirs.subset_of(dirs)
    &&& match phase {
        PhaseView::Ownership(_) => dirs == original_dirs,
        PhaseView::Baselines(_, _) => dirs == original_dirs,
        PhaseView::Snapshots(_) => dirs == original_dirs,
        PhaseView::Writing(i) => forall|d: Seq<char>| #[trigger]
            dirs.contains(d) ==> original_dirs.contains(d) || made_for(d, parent, writes, i),
        PhaseView::RollingBack(_, _, next, residual) => forall|d: Seq<char>| #[trigger]
            dirs.contains(d) ==> original_dirs.contains(d) || made_for(d, parent, writes, next)
                || left_with(d, parent, residual),
        PhaseView::Done(OutcomeView::Committed(_)) => true,
        PhaseView::Done(OutcomeView::Conflict(_)) => dirs == original_dirs,
        PhaseView::Done(OutcomeView::FailedAndRolledBack(_, _)) => dirs == original_dirs,
        PhaseView::Done(OutcomeView::RollbackFailed(_, residual, _)) => forall|d: Seq<char>|
            #[trigger] dirs.contains(d) ==> original_dirs.contains(d) || left_with(
                d,
                parent,
                residual,
            ),
    }
}

proof fn lemma_directories_step(
    original: Map<Seq<char>, Seq<u8>>,
    original_dirs: Set<Seq<char>>,
    parent: spec_fn(Seq<char>) -> Seq<char>,
    writes: Seq<WriteView>,
    phase: PhaseView,
    disk: Map<Seq<char>, Seq<u8>>,
    step: DiskStep,
    dirs: Set<Seq<char>>,
    then_dirs: Set<Seq<char>>,
)
    requires
        at_their_paths(writes),
        forall|path: Seq<char>| #[trigger]
            original.dom().contains(path) ==> original_dirs.contains(parent(path)),
        phase_fits(writes.len() as int, phase),
        disk_fits(original, writes, phase, disk),
        disk_fits(
            original,
            writes,
            next_phase(writes, phase, step.event),
            disk_after(original, writes, phase, disk, step),
        ),
        directories_fit(original_dirs, parent, writes, phase, dirs),
        directories_step(
            original,
            original_dirs,
            parent,
            writes,
            phase,
            disk,
            step,
            dirs,
            then_dirs,
        ),
    ensures
        directories_fit(
            original_dirs,
            parent,
            writes,
            next_phase(writes, phase, step.event),
            then_dirs,
        ),
{
    let then_phase = next_phase(writes, phase, step.event);
    match (phase, step.event) {
        (PhaseView::Writing(i), EventView::Written(failure)) => {
            assert forall|d: Seq<char>| #[trigger] then_dirs.contains(d) implies original_dirs.contains(
                d,
            ) || made_for(d, parent, writes, i + 1) by {
                if dirs.contains(d) && !original_dirs.contains(d) {
                    let k = choose|k: int|
                        0 <= k < i && d == parent((#[trigger] writes[k]).path);
                    assert(made_for(d, parent, writes, i + 1));
                }
                if d == parent(writes[i].path) {
                    assert(made_for(d, parent, writes, i + 1));
                }
            }
        },
        (PhaseView::RollingBack(failed, m, next, residual), EventView::RolledBack(restored)) => {
            let path = writes[next - 1].path;
            let directory = parent(path);
            let left = disk_after(original, writes, phase, disk, step);
            let residue = if restored {
                residual
            } else {
                residual.push(writes[next - 1].resource)
            };
            assert(path == resource_path(writes[next - 1].resource));
            assert forall|d: Seq<char>| #[trigger] then_dirs.contains(d) implies original_dirs.contains(
                d,
            ) || made_for(d, parent, writes, next - 1) || left_with(d, parent, residue) by {
                assert(dirs.contains(d));
                if !original_dirs.contains(d) {
                    if made_for(d, parent, writes, next) {
                        let k = choose|k: int|
                            0 <= k < next && d == parent((#[trigger] writes[k]).path);
                        if k < next - 1 {
                            assert(made_for(d, parent, writes, next - 1));
                        } else if !restored {
                            assert(residue[residual.len() as int] == writes[next - 1].resource);
                            assert(left_with(d, parent, residue));
                        } else {
                            assert(d == directory);
                            assert(!original.dom().contains(path));
                            assert(occupied(left, parent, directory));
                            let other = choose|other: Seq<char>| #[trigger]
                                left.dom().contains(other) && parent(other) == directory;
                            assert(!original.dom().contains(other));
                            assert(held(left, other) != held(original, other));
                            lemma_who_differs(original, writes, then_phase, left, other, next - 1);
                            if among(other, residue) {
                                let q = choose|q: int|
                                    0 <= q < residue.len() && other == resource_path(
                                        #[trigger] residue[q],
                                    );
                                assert(left_with(d, parent, residue));
                            } else {
                                let q = choose|q: int|
                                    0 <= q < next - 1 && other == (#[trigger] writes[q]).path;
                                assert(made_for(d, parent, writes, next - 1));
                            }
                        }
                    } else {
                        let q = choose|q: int|
                            0 <= q < residual.len() && d == parent(
                                resource_path(#[trigger] residual[q]),
                            );
                        assert(residue[q] == residual[q]);
                        assert(left_with(d, parent, residue));
                    }
                }
            }
            if next == 1 {
                assert forall|d: Seq<char>| !made_for(d, parent, writes, 0) by {}
                if residue.len() == 0 {
                    assert forall|d: Seq<char>| !left_with(d, parent, residue) by {}
                    assert(then_dirs =~= original_dirs);
                }
            }
        },
        _ => {},
    }
}

/// What differs from what it was, while a commit is rolled back, is what is still to
/// be rolled back or is reported.
proof fn lemma_who_differs(
    original: Map<Seq<char>, Seq<u8>>,
    writes: Seq<WriteView>,
    phase: PhaseView,
    disk: Map<Seq<char>, Seq<u8>>,
    path: Seq<char>,
    n: int,
)
    requires
        disk_fits(original, writes, phase, disk),
        held(disk, path) != held(original, path),
        match phase {
            PhaseView::RollingBack(_, _, next, _) => next == n,
            PhaseView::Done(OutcomeView::FailedAndRolledBack(_, _)) => true,
            PhaseView::Done(OutcomeView::RollbackFailed(_, _, _)) => true,
            _ => false,
        },
    ensures
        match phase {
            PhaseView::RollingBack(_, _, _, residual) => among(path, residual) || among_first(
                path,
                writes,
                n,
            ),
            PhaseView::Done(OutcomeView::RollbackFailed(_, residual, _)) => among(path, residual),
            _ => false,
        },
{
}

/// A change set that fails and is rolled back leaves no directory behind that it
/// made, and takes none away: the directories are what they were. Where a rollback
/// failed, only those of the resources that are reported may have come to be.
pub proof fn rollbacks_leave_no_directories(
    original: Map<Seq<char>, Seq<u8>>,
    original_dirs: Set<Seq<char>>,
    parent: spec_fn(Seq<char>) -> Seq<char>,
    writes: Seq<WriteView>,
    steps: Seq<DiskStep>,
    dirs: Seq<Set<Seq<char>>>,
    n: int,
)
    requires
        at_their_paths(writes),
        forall|path: Seq<char>| #[trigger]
            original.dom().contains(path) ==> original_dirs.contains(parent(path)),
        dirs.len() == steps.len() + 1,
        dirs[0] == original_dirs,
        forall|k: int|
            0 <= k < steps.len() ==> directories_step(
                original,
                original_dirs,
                parent,
                writes,
                course(original, writes, steps.take(k)).0,
                course(original, writes, steps.take(k)).1,
                #[trigger] steps[k],
                dirs[k],
                dirs[k + 1],
            ),
        0 <= n <= steps.len(),
    ensures
        directories_fit(
            original_dirs,
            parent,
            writes,
            course(original, writes, steps.take(n)).0,
            dirs[n],
        ),
    decreases n,
{
    if n == 0 {
        assert(steps.take(0).len() == 0);
    } else {
        rollbacks_leave_no_directories(
            original,
            original_dirs,
            parent,
            writes,
            steps,
            dirs,
            n - 1,
        );
        change_sets_are_all_or_nothing(original, writes, steps.take(n - 1));
        change_sets_are_all_or_nothing(original, writes, steps.take(n));
        assert(steps.take(n).drop_last() =~= steps.take(n - 1));
        assert(steps.take(n).last() == steps[n - 1]);
        let (phase, disk) = course(original, writes, steps.take(n - 1));
        lemma_directories_step(
            original,
            original_dirs,
            parent,
            writes,
            phase,
            disk,
            steps[n - 1],
            dirs[n - 1],
            dirs[n],
        );
    }
}

/// The name of a scene is a text that ends in `.txt` and holds no separator.
pub proof fn scene_names_end_in_txt(s: Seq<char>)
    ensures
        scene_name(s) <==> s.len() >= 4 && s[s.len() - 4] == '.' && s[s.len() - 3] == 't' && s[s.len()
            - 2] == 'x' && s[s.len() - 1] == 't' && !s.contains('/') && !s.contains('\\'),
{
    reveal_strlit(".txt");
    if s.len() >= 4 {
        let tail = s.subrange(s.len() - 4, s.len() as int);
        if s[s.len() - 4] == '.' && s[s.len() - 3] == 't' && s[s.len() - 2] == 'x' && s[s.len() - 1]
            == 't' {
            assert(tail =~= ".txt"@);
        }
        if tail == ".txt"@ {
            assert(tail[0] == '.' && tail[1] == 't' && tail[2] == 'x' && tail[3] == 't');
        }
    }
}

/// A scene is written under `game/scene` as the bytes of its text, over the text that it was read
/// as; a created scene over nothing. A name that is no scene's refuses the operation. The three
/// documents go to their own files, over the document that they were read as.
pub proof fn operations_write_what_they_hold(op: ChangeSetOperation)
    ensures
        match op {
            ChangeSetOperation::Scene { file, baseline, content } => if scene_name(file@) {
                prepared(op) == Ok::<WriteView, (ResourceView, Seq<char>)>(
                    WriteView {
                        resource: ResourceView::Scene(file@),
                        path: "game/scene/"@ + file@,
                        baseline: BaselineView::Text(baseline@),
                        content: vstd::utf8::encode_utf8(content@),
                    },
                )
            } else {
                prepared(op) == Err::<WriteView, (ResourceView, Seq<char>)>(
                    (ResourceView::Scene(file@), "invalid scene name"@),
                )
            },
            ChangeSetOperation::CreateScene { file, content } => if scene_name(file@) {
                prepared(op) == Ok::<WriteView, (ResourceView, Seq<char>)>(
                    WriteView {
                        resource: ResourceView::Scene(file@),
                        path: "game/scene/"@ + file@,
                        baseline: BaselineView::Missing,
                        content: vstd::utf8::encode_utf8(content@),
                    },
                )
            } else {
                prepared(op) == Err::<WriteView, (ResourceView, Seq<char>)>(
                    (ResourceView::Scene(file@), "invalid scene name"@),
                )
            },
            ChangeSetOperation::Characters { baseline, document } => match json::pretty_json_of(
                document@,
            ) {
                Ok(bytes) => prepared(op) == Ok::<WriteView, (ResourceView, Seq<char>)>(
                    WriteView {
                        resource: ResourceView::Characters,
                        path: "game/config/characters.json"@,
                        baseline: BaselineView::Json(baseline@),
                        content: bytes,
                    },
                ),
                Err(m) => prepared(op) == Err::<WriteView, (ResourceView, Seq<char>)>(
                    (ResourceView::Characters, "failed to serialize resource: "@ + m),
                ),
            },
            ChangeSetOperation::ProjectMemory { baseline, memory } => match json::pretty_json_of(
                memory@,
            ) {
                Ok(bytes) => prepared(op) == Ok::<WriteView, (ResourceView, Seq<char>)>(
                    WriteView {
                        resource: ResourceView::ProjectMemory,
                        path: "game/ai-memory.json"@,
                        baseline: BaselineView::Json(baseline@),
                        content: bytes,
                    },
                ),
                Err(m) => prepared(op) == Err::<WriteView, (ResourceView, Seq<char>)>(
                    (ResourceView::ProjectMemory, "failed to serialize resource: "@ + m),
                ),
            },
            ChangeSetOperation::AssetMetadata { baseline, metadata } => match json::pretty_json_of(
                metadata@,
            ) {
                Ok(bytes) => prepared(op) == Ok::<WriteView, (ResourceView, Seq<char>)>(
                    WriteView {
                        resource: ResourceView::AssetMetadata,
                        path: "game/config/asset-metadata.json"@,
                        baseline: BaselineView::Json(baseline@),
                        content: bytes,
                    },
                ),
                Err(m) => prepared(op) == Err::<WriteView, (ResourceView, Seq<char>)>(
                    (ResourceView::AssetMetadata, "failed to serialize resource: "@ + m),
                ),
            },
        },
{
}

/// A batch is prepared write for write, in the order of its operations, unless one of them is
/// refused: the first that is gives the batch its resource and its message.
pub proof fn batches_are_prepared_in_order(ops: Seq<ChangeSetOperation>, n: int)
    requires
        0 <= n <= ops.len(),
    ensures
        (forall|i: int| 0 <= i < n ==> prepared(#[trigger] ops[i]) is Ok) ==> prepared_upto(ops, n)
            is Ok && prepared_upto(ops, n)->Ok_0.len() == n && forall|i: int|
            0 <= i < n ==> Ok::<WriteView, (ResourceView, Seq<char>)>(
                prepared_upto(ops, n)->Ok_0[i],
            ) == prepared(#[trigger] ops[i]),
        forall|k: int|
            0 <= k < n && prepared(#[trigger] ops[k]) is Err && (forall|i: int|
                0 <= i < k ==> prepared(#[trigger] ops[i]) is Ok) ==> prepared_upto(ops, n) is Err
                && prepared_upto(ops, n)->Err_0 == prepared(ops[k])->Err_0,
    decreases n,
{
    if n > 0 {
        batches_are_prepared_in_order(ops, n - 1);
        assert forall|k: int|
            0 <= k < n && prepared(#[trigger] ops[k]) is Err && (forall|i: int|
                0 <= i < k ==> prepared(#[trigger] ops[i]) is Ok) implies prepared_upto(ops, n)
            is Err && prepared_upto(ops, n)->Err_0 == prepared(ops[k])->Err_0 by {
            if k == n - 1 {
                assert(forall|i: int| 0 <= i < n - 1 ==> prepared(#[trigger] ops[i]) is Ok);
            }
        }
    }
}

/// A baseline holds where the file is still what it was when the change was made: the same bytes
/// for a text, the same document for JSON, no file for a new scene. A document that is not there
/// stands for the blank one, and what cannot be read never matches a text or a document.
pub proof fn changes_since_their_baseline_are_noticed(
    write: WriteView,
    disk: DiskState,
    expected: ExpectedDocument,
)
    ensures
        match write.baseline {
            BaselineView::Text(t) => baseline_holds(write, disk, expected) <==> disk is Present
                && disk->Present_0@ == vstd::utf8::encode_utf8(t),
            BaselineView::Json(t) => match disk {
                DiskState::Present(b) => baseline_holds(write, disk, expected) <==> json::same_json(
                    b@,
                    t,
                ),
                DiskState::Absent => baseline_holds(write, disk, expected) <==> match (
                    write.resource,
                    expected,
                ) {
                    (ResourceView::Characters, ExpectedDocument::Characters(d)) => d.version == 1
                        && d.characters@ == Seq::<crate::characters::Character>::empty(),
                    (ResourceView::ProjectMemory, ExpectedDocument::Memory(m)) =>
                        project::memory_blank(m@),
                    (ResourceView::AssetMetadata, ExpectedDocument::Metadata(m)) =>
                        assets::metadata_blank(m),
                    _ => false,
                },
                DiskState::Unreadable(_) => !baseline_holds(write, disk, expected),
            },
            BaselineView::Missing => baseline_holds(write, disk, expected) <==> disk
                == DiskState::Absent || disk == DiskState::Unreadable(false),
        },
{
    if let ExpectedDocument::Characters(d) = expected {
        if d.characters@.len() == 0 {
            assert(d.characters@ =~= Seq::<crate::characters::Character>::empty());
        }
    }
}

proof fn lemma_first_repeated(writes: Seq<WriteView>, k: int, i: int)
    requires
        0 <= k <= i <= writes.len(),
        forall|a: int, b: int|
            0 <= b < a < i ==> (#[trigger] writes[a]).resource != (#[trigger] writes[b]).resource,
        i < writes.len() ==> exists|j: int|
            0 <= j < i && (#[trigger] writes[j]).resource == writes[i].resource,
    ensures
        first_repeated(writes, k) == i,
    decreases i - k,
{
    if k < i {
        assert(!repeated(writes, k));
        lemma_first_repeated(writes, k + 1, i);
    }
}

/// A batch that names no resource twice goes on to its baselines, an empty one is done at once, and
/// any other fails with the first resource that was named before.
pub proof fn resources_named_twice_are_refused(writes: Seq<WriteView>)
    ensures
        (forall|a: int, b: int|
            0 <= b < a < writes.len() ==> (#[trigger] writes[a]).resource != (
            #[trigger] writes[b]).resource) ==> after_ownership(writes) == (if writes.len() == 0 {
            PhaseView::Done(OutcomeView::Committed(Seq::empty()))
        } else {
            PhaseView::Baselines(0, Seq::empty())
        }),
        forall|i: int, j: int|
            0 <= j < i < writes.len() && (#[trigger] writes[i]).resource == (
            #[trigger] writes[j]).resource && (forall|a: int, b: int|
                0 <= b < a < i ==> (#[trigger] writes[a]).resource != (
                #[trigger] writes[b]).resource) ==> after_ownership(writes) == PhaseView::Done(
                OutcomeView::FailedAndRolledBack(
                    writes[i].resource,
                    "duplicate resource operation"@,
                ),
            ),
{
    if forall|a: int, b: int|
        0 <= b < a < writes.len() ==> (#[trigger] writes[a]).resource != (
        #[trigger] writes[b]).resource {
        lemma_first_repeated(writes, 0, writes.len() as int);
    }
    assert forall|i: int, j: int|
        0 <= j < i < writes.len() && (#[trigger] writes[i]).resource == (
        #[trigger] writes[j]).resource && (forall|a: int, b: int|
            0 <= b < a < i ==> (#[trigger] writes[a]).resource != (
            #[trigger] writes[b]).resource) implies after_ownership(writes) == PhaseView::Done(
        OutcomeView::FailedAndRolledBack(writes[i].resource, "duplicate resource operation"@),
    ) by {
        lemma_first_repeated(writes, 0, i);
    }
}

/// A commit asks every write whether its path is the project's, then every write whether its
/// baseline holds, then snapshots every file, and writes only after that. The first path outside and
/// the first file that cannot be kept end it; a baseline that does not hold is noted and the others
/// are still asked.
pub proof fn commits_ask_before_they_write(writes: Seq<WriteView>, i: int, conflicts: Seq<ResourceView>)
    requires
        0 <= i < writes.len(),
    ensures
        next_phase(writes, PhaseView::Ownership(i), EventView::Owned(false)) == PhaseView::Done(
            OutcomeView::FailedAndRolledBack(
                writes[i].resource,
                "resource path escapes project"@,
            ),
        ),
        i + 1 < writes.len() ==> next_phase(
            writes,
            PhaseView::Ownership(i),
            EventView::Owned(true),
        ) == PhaseView::Ownership(i + 1),
        i + 1 < writes.len() ==> next_phase(
            writes,
            PhaseView::Baselines(i, conflicts),
            EventView::BaselineMatches(true),
        ) == PhaseView::Baselines(i + 1, conflicts),
        i + 1 < writes.len() ==> next_phase(
            writes,
            PhaseView::Baselines(i, conflicts),
            EventView::BaselineMatches(false),
        ) == PhaseView::Baselines(i + 1, conflicts.push(writes[i].resource)),
        i + 1 == writes.len() ==> next_phase(
            writes,
            PhaseView::Baselines(i, conflicts),
            EventView::BaselineMatches(false),
        ) == PhaseView::Done(OutcomeView::Conflict(conflicts.push(writes[i].resource))),
        i + 1 == writes.len() && conflicts != Seq::<ResourceView>::empty() ==> next_phase(
            writes,
            PhaseView::Baselines(i, conflicts),
            EventView::BaselineMatches(true),
        ) == PhaseView::Done(OutcomeView::Conflict(conflicts)),
        i + 1 == writes.len() ==> next_phase(
            writes,
            PhaseView::Baselines(i, Seq::empty()),
            EventView::BaselineMatches(true),
        ) == PhaseView::Snapshots(0),
        forall|m: Seq<char>|
            #[trigger] next_phase(
                writes,
                PhaseView::Snapshots(i),
                EventView::Snapshotted(Some(m)),
            ) == PhaseView::Done(
                OutcomeView::FailedAndRolledBack(
                    writes[i].resource,
                    "failed to snapshot resource: "@ + m,
                ),
            ),
        next_phase(writes, PhaseView::Snapshots(i), EventView::Snapshotted(None)) == (if i + 1
            < writes.len() {
            PhaseView::Snapshots(i + 1)
        } else {
            PhaseView::Writing(0)
        }),
{
    if conflicts.len() == 0 {
        assert(conflicts =~= Seq::<ResourceView>::empty());
    }
}

/// A write that fails is undone together with those before it, from the last to the first; what
/// could not be undone is reported, in that order.
pub proof fn failed_writes_are_undone(
    writes: Seq<WriteView>,
    failed: int,
    m: Seq<char>,
    next: int,
    residual: Seq<ResourceView>,
)
    requires
        0 <= failed < writes.len(),
        1 <= next <= failed + 1,
    ensures
        next_phase(writes, PhaseView::Writing(failed), EventView::Written(Some(m)))
            == PhaseView::RollingBack(failed, m, failed + 1, Seq::empty()),
        failed + 1 < writes.len() ==> next_phase(
            writes,
            PhaseView::Writing(failed),
            EventView::Written(None),
        ) == PhaseView::Writing(failed + 1),
        failed + 1 == writes.len() ==> next_phase(
            writes,
            PhaseView::Writing(failed),
            EventView::Written(None),
        ) == PhaseView::Done(
            OutcomeView::Committed(
                Seq::new(writes.len(), |k: int| writes[k].resource),
            ),
        ),
        next > 1 ==> next_phase(
            writes,
            PhaseView::RollingBack(failed, m, next, residual),
            EventView::RolledBack(true),
        ) == PhaseView::RollingBack(failed, m, next - 1, residual),
        next > 1 ==> next_phase(
            writes,
            PhaseView::RollingBack(failed, m, next, residual),
            EventView::RolledBack(false),
        ) == PhaseView::RollingBack(failed, m, next - 1, residual.push(writes[next - 1].resource)),
        next_phase(
            writes,
            PhaseView::RollingBack(failed, m, 1, residual),
            EventView::RolledBack(false),
        ) == PhaseView::Done(
            OutcomeView::RollbackFailed(
                writes[failed].resource,
                residual.push(writes[0].resource),
                m,
            ),
        ),
        next_phase(
            writes,
            PhaseView::RollingBack(failed, m, 1, residual),
            EventView::RolledBack(true),
        ) == (if residual == Seq::<ResourceView>::empty() {
            PhaseView::Done(OutcomeView::FailedAndRolledBack(writes[failed].resource, m))
        } else {
            PhaseView::Done(OutcomeView::RollbackFailed(writes[failed].resource, residual, m))
        }),
{
    assert(resources_of(writes) =~= Seq::new(writes.len(), |k: int| writes[k].resource));
    if residual.len() == 0 {
        assert(residual =~= Seq::<ResourceView>::empty());
    }
}

proof fn lemma_written_at(
    original: Map<Seq<char>, Seq<u8>>,
    writes: Seq<WriteView>,
    n: int,
    i: int,
)
    requires
        0 <= i < n <= writes.len(),
        forall|a: int, b: int|
            0 <= b < a < writes.len() ==> (#[trigger] writes[a]).path != (
            #[trigger] writes[b]).path,
    ensures
        written(original, writes, n).dom().contains(writes[i].path),
        written(original, writes, n)[writes[i].path] == writes[i].content,
    decreases n,
{
    if i < n - 1 {
        lemma_written_at(original, writes, n - 1, i);
        assert(writes[n - 1].path != writes[i].path);
    }
}

proof fn lemma_not_written(
    original: Map<Seq<char>, Seq<u8>>,
    writes: Seq<WriteView>,
    n: int,
    path: Seq<char>,
)
    requires
        0 <= n <= writes.len(),
        forall|k: int| 0 <= k < writes.len() ==> (#[trigger] writes[k]).path != path,
    ensures
        written(original, writes, n).dom().contains(path) == original.dom().contains(path),
        written(original, writes, n)[path] == original[path],
    decreases n,
{
    if n > 0 {
        lemma_not_written(original, writes, n - 1, path);
        assert(writes[n - 1].path != path);
    }
}

/// However a commit runs: once it is committed, every write's file holds that write's content and
/// every other file is as it was; after a conflict or a failure that was rolled back, the disk is as
/// it was; and where the rollback failed, every file but those it reports is as it was.
pub proof fn commits_leave_all_or_nothing(
    original: Map<Seq<char>, Seq<u8>>,
    writes: Seq<WriteView>,
    steps: Seq<DiskStep>,
)
    requires
        at_their_paths(writes),
        forall|a: int, b: int|
            0 <= b < a < writes.len() ==> (#[trigger] writes[a]).path != (
            #[trigger] writes[b]).path,
    ensures
        ({
            let (phase, disk) = course(original, writes, steps);
            match phase {
                PhaseView::Done(OutcomeView::Committed(_)) => {
                    &&& forall|i: int|
                        0 <= i < writes.len() ==> disk.dom().contains((#[trigger] writes[i]).path)
                            && disk[writes[i].path] == writes[i].content
                    &&& forall|path: Seq<char>|
                        (forall|k: int| 0 <= k < writes.len() ==> (#[trigger] writes[k]).path
                            != path) ==> #[trigger] disk.dom().contains(path)
                            == original.dom().contains(path) && disk[path] == original[path]
                },
                PhaseView::Done(OutcomeView::Conflict(_)) => disk == original,
                PhaseView::Done(OutcomeView::FailedAndRolledBack(_, _)) => disk == original,
                PhaseView::Done(OutcomeView::RollbackFailed(_, residual, _)) => forall|
                    path: Seq<char>,
                |
                    (forall|k: int|
                        0 <= k < residual.len() ==> path != resource_path(
                            #[trigger] residual[k],
                        )) ==> #[trigger] disk.dom().contains(path) == original.dom().contains(path)
                        && (disk.dom().contains(path) ==> disk[path] == original[path]),
                _ => true,
            }
        }),
{
    change_sets_are_all_or_nothing(original, writes, steps);
    let (phase, disk) = course(original, writes, steps);
    match phase {
        PhaseView::Done(OutcomeView::Committed(_)) => {
            assert forall|i: int| 0 <= i < writes.len() implies disk.dom().contains(
                (#[trigger] writes[i]).path,
            ) && disk[writes[i].path] == writes[i].content by {
                lemma_written_at(original, writes, writes.len() as int, i);
            }
            assert forall|path: Seq<char>|
                (forall|k: int| 0 <= k < writes.len() ==> (#[trigger] writes[k]).path
                    != path) implies #[trigger] disk.dom().contains(path)
                == original.dom().contains(path) && disk[path] == original[path] by {
                lemma_not_written(original, writes, writes.len() as int, path);
            }
        },
        PhaseView::Done(OutcomeView::RollbackFailed(_, residual, _)) => {
            assert forall|path: Seq<char>|
                (forall|k: int|
                    0 <= k < residual.len() ==> path != resource_path(
                        #[trigger] residual[k],
                    )) implies #[trigger] disk.dom().contains(path) == original.dom().contains(path)
                && (disk.dom().contains(path) ==> disk[path] == original[path]) by {
                assert(!among(path, residual));
                assert(held(disk, path) == held(original, path));
            }
        },
        _ => {},
    }
}

/// A target is the project's where its directory resolves inside of the project and it is either
/// not there or resolves inside of it too: no link, and nothing that cannot be looked at.
pub proof fn targets_outside_are_refused(
    project: Seq<char>,
    directory: Option<String>,
    target: TargetState,
)
    ensures
        directory is None ==> !target_owned(project, directory, target),
        target is Symlink || target is Unreadable ==> !target_owned(project, directory, target),
        directory is Some && target is Absent ==> (target_owned(project, directory, target)
            <==> crate::paths::within(directory->0@, project)),
        target == TargetState::Present(None) ==> !target_owned(project, directory, target),
        directory is Some && target is Present && target->Present_0 is Some ==> (target_owned(
            project,
            directory,
            target,
        ) <==> crate::paths::within(directory->0@, project) && crate::paths::within(
            target->Present_0->0@,
            project,
        )),
{
}

/// To undo a write, a file that was there is put back, one that was not is taken away, and the
/// directory is given up exactly where it was not there before and held no file to put back.
pub proof fn undoing_restores_what_was_there(
    has_snapshot: bool,
    present: bool,
    parent_existed: bool,
)
    ensures
        undoing(has_snapshot, present, parent_existed) is Restore <==> has_snapshot,
        (undoing(has_snapshot, present, parent_existed) is Remove || undoing(
            has_snapshot,
            present,
            parent_existed,
        ) is RemoveWithParent) <==> !has_snapshot && present,
        (undoing(has_snapshot, present, parent_existed) is RemoveParent || undoing(
            has_snapshot,
            present,
            parent_existed,
        ) is RemoveWithParent) <==> !has_snapshot && !parent_existed,
{
}

} // verus!
