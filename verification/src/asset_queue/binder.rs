//! Binding of generated media into scenes, character cards and metadata.
use vstd::prelude::*;

use crate::agents::router;
use crate::asset_queue::scheduler;
use crate::asset_queue::types;
use crate::asset_queue::types::{AssetAttempt, AssetKind, AssetTask, AssetTaskView, AttemptView};
use crate::assets::{AssetMetadata, SceneAssetCard, VoiceAssetCard};
use crate::characters;
use crate::characters::{
    Character, CharacterSprite, CharacterView, CharactersDocument, SpriteView,
};
use crate::order;
use crate::path_order::ByPath;
use crate::paths;
use crate::story_plan;
use crate::text;
use crate::webgal;
use crate::webgal::{CommandType, NodeView, WebGalNode};

verus! {

broadcast use vstd::string::group_string_axioms;

// ---------------------------------------------------------------------------
// Markers
// ---------------------------------------------------------------------------

/// The comment that marks the command of a task in a scene.
pub open spec fn marker(task_id: Seq<char>) -> Seq<char> {
    "ollaic-asset-task:"@ + task_id
}

pub fn task_marker(task_id: &str) -> (r: String)
    ensures
        r@ == marker(task_id@),
{
    router::joined("ollaic-asset-task:", task_id)
}

pub const FIGURE_STAGING_PREFIX: &'static str = "ollaic-figure-staging:";

/// The comment that holds a figure command until its figure is drawn.
pub open spec fn staged_command(command: Seq<char>) -> Seq<char> {
    FIGURE_STAGING_PREFIX@ + command
}

pub fn staged_figure_command(command: &str) -> (r: String)
    ensures
        r@ == staged_command(command@),
{
    router::joined(FIGURE_STAGING_PREFIX, command)
}

/// The figure command that a comment holds, if it holds one.
pub open spec fn held_command(content: Seq<char>) -> Option<Seq<char>> {
    if text::begins(content, FIGURE_STAGING_PREFIX@) {
        Some(content.skip(FIGURE_STAGING_PREFIX@.len() as int))
    } else {
        None
    }
}

/// The command to parse for a node that holds a staged figure.
pub fn held_figure_command(node: &WebGalNode) -> (r: Option<String>)
    ensures
        story_plan::opt_text(r) == held_command(node.content@),
{
    if text::starts_with(node.content.as_str(), FIGURE_STAGING_PREFIX) {
        let v = text::chars_of(node.content.as_str());
        let p = text::chars_of(FIGURE_STAGING_PREFIX);
        let r = text::string_of_range(&v, p.len(), v.len());
        assert(r@ =~= node.content@.skip(p@.len() as int));
        Some(r)
    } else {
        None
    }
}

/// What a staged command is a comment for is what it gives back.
pub proof fn staged_commands_are_held(command: Seq<char>)
    ensures
        held_command(staged_command(command)) == Some(command),
{
    let s = staged_command(command);
    let p = FIGURE_STAGING_PREFIX@;
    assert(s.subrange(0, p.len() as int) =~= p);
    assert(s.skip(p.len() as int) =~= command);
}

// ---------------------------------------------------------------------------
// Artifacts and files
// ---------------------------------------------------------------------------

/// The newest artifact of a task.
pub open spec fn newest_artifact_of(attempts: Seq<AttemptView>) -> Option<Seq<char>>
    decreases attempts.len(),
{
    if attempts.len() == 0 {
        None
    } else if attempts.last().artifact is Some {
        attempts.last().artifact
    } else {
        newest_artifact_of(attempts.drop_last())
    }
}

/// The newest artifact is that of the last attempt that has one: no attempt after it has
/// any. There is none only where no attempt has one.
pub proof fn newest_artifacts_are_of_the_last_attempt_with_one(attempts: Seq<AttemptView>)
    ensures
        match newest_artifact_of(attempts) {
            Some(path) => exists|k: int|
                0 <= k < attempts.len() && (#[trigger] attempts[k]).artifact == Some(path)
                    && forall|j: int|
                    k < j < attempts.len() ==> (#[trigger] attempts[j]).artifact is None,
            None => forall|j: int|
                0 <= j < attempts.len() ==> (#[trigger] attempts[j]).artifact is None,
        },
    decreases attempts.len(),
{
    if attempts.len() > 0 {
        let last = attempts.len() - 1;
        if attempts[last].artifact is None {
            let d = attempts.drop_last();
            newest_artifacts_are_of_the_last_attempt_with_one(d);
            assert forall|j: int| 0 <= j < d.len() implies d[j] == #[trigger] attempts[j] by {}
            if let Some(path) = newest_artifact_of(d) {
                let k = choose|k: int|
                    0 <= k < d.len() && (#[trigger] d[k]).artifact == Some(path) && forall|j: int|
                        k < j < d.len() ==> (#[trigger] d[j]).artifact is None;
                assert(attempts[k].artifact == Some(path));
                assert forall|j: int| k < j < attempts.len() implies (
                #[trigger] attempts[j]).artifact is None by {
                    if j < last {
                        assert(d[j].artifact is None);
                    }
                }
            } else {
                assert forall|j: int| 0 <= j < attempts.len() implies (
                #[trigger] attempts[j]).artifact is None by {
                    if j < last {
                        assert(d[j].artifact is None);
                    }
                }
            }
        } else {
            assert(attempts[last].artifact == newest_artifact_of(attempts));
        }
    }
}

#[verifier::loop_isolation(false)]
pub fn newest_artifact(task: &AssetTask) -> (r: Result<String, String>)
    ensures
        match r {
            Ok(path) => newest_artifact_of(task@.attempts) == Some(path@) && exists|k: int|
                0 <= k < task@.attempts.len() && (#[trigger] task@.attempts[k]).artifact == Some(
                    path@,
                ) && forall|j: int|
                    k < j < task@.attempts.len() ==> (#[trigger] task@.attempts[j]).artifact is None,
            Err(m) => newest_artifact_of(task@.attempts) is None && m@ == "task "@ + task.id@
                + " has no generated artifact"@,
        },
{
    let ghost all = task@.attempts;
    proof {
        newest_artifacts_are_of_the_last_attempt_with_one(all);
    }
    let mut i: usize = task.attempts.len();
    assert(all.take(i as int) =~= all);
    while i > 0
        invariant
            i <= task.attempts.len(),
            all == types::attempt_views(task.attempts@),
            all == task@.attempts,
            newest_artifact_of(all) == newest_artifact_of(all.take(i as int)),
        decreases i,
    {
        let k: usize = i - 1;
        proof {
            assert(all.take(i as int).drop_last() =~= all.take(k as int));
            assert(all.take(i as int).last() == task.attempts@[k as int]@);
        }
        if let Some(path) = &task.attempts[k].artifact {
            return Ok(path.clone());
        }
        i = k;
    }
    let mut s = text::copy("task ");
    s.append(task.id.as_str());
    s.append(" has no generated artifact");
    Err(s)
}

pub fn validate_stem(value: &str) -> (r: Result<(), String>)
    ensures
        match r {
            Ok(_) => story_plan::flag_value(value@),
            Err(m) => !story_plan::flag_value(value@) && m@ == "invalid asset target stem: "@
                + value@,
        },
{
    if !story_plan::is_webgal_flag_value(value) {
        return Err(router::joined("invalid asset target stem: ", value));
    }
    Ok(())
}

/// Whether all characters are ASCII letters or digits.
pub open spec fn all_alphanumeric(s: Seq<char>) -> bool {
    forall|i: int| 0 <= i < s.len() ==> text::ascii_alphanumeric(#[trigger] s[i])
}

/// The extension that an artifact's file keeps when it is promoted.
pub fn artifact_extension(path: &str) -> (r: Result<String, String>)
    ensures
        match r {
            Ok(ext) => paths::extension_of(path@) == Some(ext@) && all_alphanumeric(ext@),
            Err(m) => (paths::extension_of(path@) matches Some(ext) ==> !all_alphanumeric(ext))
                && m@ == "artifact has no safe extension: "@ + path@,
        },
{
    if let Some(ext) = paths::extension(path) {
        if ext.as_str().is_empty() || scheduler::is_plain_extension(ext.as_str()) {
            return Ok(ext);
        }
        proof {
            if all_alphanumeric(ext@) {
                assert(scheduler::plain_extension(ext@));
            }
        }
    }
    Err(router::joined("artifact has no safe extension: ", path))
}

/// What `image` makes of bytes that are to be a PNG: its pixels, as bytes of
/// red, green, blue and alpha in turn, or the decoder's message.
pub uninterp spec fn png_pixels(bytes: Seq<u8>) -> Result<Seq<u8>, Seq<char>>;

/// `image::load_from_memory_with_format` for PNG, then `to_rgba8`: the pixels
/// or the message are a function of the bytes alone.
#[verifier::external_body]
fn decode_png(bytes: &[u8]) -> (r: Result<Vec<u8>, String>)
    ensures
        match r {
            Ok(pixels) => png_pixels(bytes@) == Ok::<Seq<u8>, Seq<char>>(pixels@),
            Err(m) => png_pixels(bytes@) == Err::<Seq<u8>, Seq<char>>(m@),
        },
{
    image::load_from_memory_with_format(bytes, image::ImageFormat::Png).map(
        |decoded| decoded.to_rgba8().into_raw(),
    ).map_err(|error| error.to_string())
}

/// Whether some pixel is not opaque.
pub open spec fn see_through(pixels: Seq<u8>) -> bool {
    exists|k: int| 0 <= k && 4 * k + 3 < pixels.len() && #[trigger] pixels[4 * k + 3] < 255
}

/// Whether decoded pixels can be those of a figure.
pub fn check_pixels(pixels: &Vec<u8>) -> (r: Result<(), String>)
    ensures
        match r {
            Ok(_) => see_through(pixels@),
            Err(m) => !see_through(pixels@) && m@ == "figure artifact has no transparent pixels"@,
        },
{
    let mut i: usize = 0;
    let ghost mut n: int = 0;
    while i < pixels.len() && pixels.len() - i > 3
        invariant
            i == 4 * n,
            0 <= n,
            i <= pixels.len(),
            forall|k: int| 0 <= k < n ==> #[trigger] pixels@[4 * k + 3] == 255,
        decreases pixels.len() - i,
    {
        if pixels[i + 3] < 255 {
            assert(pixels@[4 * n + 3] < 255);
            return Ok(());
        }
        i += 4;
        proof {
            n = n + 1;
        }
    }
    assert(!see_through(pixels@)) by {
        if see_through(pixels@) {
            let k = choose|k: int|
                0 <= k && 4 * k + 3 < pixels@.len() && #[trigger] pixels@[4 * k + 3] < 255;
            assert(k < n);
        }
    }
    Err(text::copy("figure artifact has no transparent pixels"))
}

/// Whether bytes can be those of a figure: a PNG with a pixel that is not
/// opaque.
pub fn validate_transparent_figure(extension: &str, bytes: &[u8]) -> (r: Result<(), String>)
    ensures
        if text::ascii_lowercase(extension@) != text::ascii_lowercase("png"@) {
            r matches Err(m) && m@ == "figure artifact must be a transparent PNG"@
        } else {
            match png_pixels(bytes@) {
                Err(e) => r matches Err(m) && m@ == "invalid figure PNG: "@ + e,
                Ok(pixels) => if see_through(pixels) {
                    r is Ok
                } else {
                    r matches Err(m) && m@ == "figure artifact has no transparent pixels"@
                },
            }
        },
{
    if !text::eq_ignore_ascii_case(extension, "png") {
        return Err(text::copy("figure artifact must be a transparent PNG"));
    }
    match decode_png(bytes) {
        Ok(pixels) => check_pixels(&pixels),
        Err(e) => Err(router::joined("invalid figure PNG: ", e.as_str())),
    }
}

/// The file of a scene reference.
pub open spec fn scene_file_of(scene_ref: Seq<char>) -> Seq<char> {
    if text::ends(scene_ref, ".txt"@) {
        scene_ref
    } else {
        scene_ref + ".txt"@
    }
}

/// A file name of one component, without `\`.
pub open spec fn lone_name(name: Seq<char>) -> bool {
    paths::component_count(name) == 1 && !name.contains('\\')
}

/// The file that a scene reference names, before it is looked up on disk.
pub fn scene_file(scene_ref: &str) -> (r: Result<String, String>)
    ensures
        match r {
            Ok(file) => lone_name(scene_file_of(scene_ref@)) && file@ == scene_file_of(scene_ref@),
            Err(m) => !lone_name(scene_file_of(scene_ref@)) && m@ == "invalid scene reference: "@
                + scene_ref@,
        },
{
    let file = if text::ends_with(scene_ref, ".txt") {
        text::copy(scene_ref)
    } else {
        router::joined(scene_ref, ".txt")
    };
    if !paths::is_single_component(file.as_str()) || text::contains_char(file.as_str(), '\\') {
        return Err(router::joined("invalid scene reference: ", scene_ref));
    }
    Ok(file)
}

/// The scene that a task is bound into: the one that it refers to where that
/// is there, else the first of the project's scenes.
pub fn scene_path(referred: Option<String>, scenes: &Vec<String>) -> (r: Result<String, String>)
    ensures
        match referred {
            Some(path) => r == Ok::<String, String>(path),
            None => if scenes@.len() > 0 {
                r == Ok::<String, String>(scenes@[0])
            } else {
                r matches Err(m) && m@ == "project has no compiled scene"@
            },
        },
{
    match referred {
        Some(path) => Ok(path),
        None => if scenes.len() > 0 {
            Ok(scenes[0].clone())
        } else {
            Err(text::copy("project has no compiled scene"))
        },
    }
}

/// Refuses a scene whose resolved path leaves the scene directory.
pub fn checked_scene_path(scene_dir: &str, path: String) -> (r: Result<String, String>)
    ensures
        match r {
            Ok(p) => p == path && paths::within(path@, scene_dir@),
            Err(m) => !paths::within(path@, scene_dir@) && m@ == "scene path is outside project: "@
                + path@,
        },
{
    if !paths::is_within(path.as_str(), scene_dir) {
        return Err(router::joined("scene path is outside project: ", path.as_str()));
    }
    Ok(path)
}

/// The files that a binding may change, each once and in the order of their paths:
/// every scene, the promoted file, the character cards and the metadata. Of texts
/// that are the same path, the first one counts.
pub fn binding_files(
    scenes: Vec<String>,
    target: String,
    characters_file: String,
    metadata_file: String,
) -> (r: Vec<String>)
    ensures
        order::strictly_sorted::<ByPath>(text::texts(r@)),
        order::keeps_firsts::<ByPath>(
            text::texts(scenes@) + seq![target@, characters_file@, metadata_file@],
            text::texts(r@),
        ),
{
    let ghost given = text::texts(scenes@);
    let ghost more = seq![target@, characters_file@, metadata_file@];
    let mut all = scenes;
    all.push(target);
    all.push(characters_file);
    all.push(metadata_file);
    assert(text::texts(all@) =~= given + more);
    order::sort_unique::<ByPath>(all)
}

/// The `k`-th file name to try for a task, from zero on.
pub open spec fn target_candidate(task: AssetTaskView, extension: Seq<char>, k: nat) -> Seq<char> {
    if k == 0 {
        task.target_stem + "."@ + extension
    } else if k == 1 {
        task.target_stem + "-"@ + task.id + "."@ + extension
    } else {
        task.target_stem + "-"@ + task.id + "-"@ + text::decimal(k) + "."@ + extension
    }
}

/// How many file names are tried: the two without a number, and those numbered
/// from 2 to 10000.
pub const TARGET_CANDIDATES: usize = 10_001;

/// What becomes of one candidate.
#[derive(Debug, PartialEq, Eq)]
pub enum TargetStep {
    /// Look whether this file name is free.
    Try(String),
    /// No file name is left.
    Exhausted(String),
}

/// The candidate to look at next.
pub fn available_target(task: &AssetTask, extension: &str, k: usize) -> (r: TargetStep)
    ensures
        if k < TARGET_CANDIDATES {
            r matches TargetStep::Try(name) && name@ == target_candidate(
                task@,
                extension@,
                k as nat,
            )
        } else {
            r matches TargetStep::Exhausted(m) && m@ == "no available target filename for task "@
                + task.id@
        },
{
    if k >= TARGET_CANDIDATES {
        return TargetStep::Exhausted(
            router::joined("no available target filename for task ", task.id.as_str()),
        );
    }
    let mut s = text::copy(task.target_stem.as_str());
    if k > 0 {
        s.append("-");
        s.append(task.id.as_str());
        if k > 1 {
            s.append("-");
            s.append(text::decimal_of(k as u128).as_str());
        }
    }
    s.append(".");
    s.append(extension);
    TargetStep::Try(s)
}

/// Whether a candidate can be used: nothing has that name, or what has it
/// belongs to the same asset task.
pub fn accepts_target(task: &AssetTask, filename: &str, taken: bool, owned: bool) -> (r: bool)
    ensures
        r == (!taken || story_plan::opt_text(task.asset_file) == Some(filename@) || owned),
{
    !taken || story_plan::opt_is(&task.asset_file, filename) || owned
}

/// The promoted file of a finished task.
pub fn promoted_file(task: &AssetTask) -> (r: Result<String, String>)
    ensures
        match r {
            Ok(name) => story_plan::opt_text(task.asset_file) == Some(name@) && lone_name(name@),
            Err(m) => match story_plan::opt_text(task.asset_file) {
                None => m@ == "task "@ + task.id@ + " has no promoted asset"@,
                Some(name) => !lone_name(name) && m@ == "invalid promoted asset filename: "@ + name,
            },
        },
{
    match &task.asset_file {
        None => {
            let mut s = text::copy("task ");
            s.append(task.id.as_str());
            s.append(" has no promoted asset");
            Err(s)
        },
        Some(name) => {
            if !paths::is_single_component(name.as_str()) || text::contains_char(
                name.as_str(),
                '\\',
            ) {
                Err(router::joined("invalid promoted asset filename: ", name.as_str()))
            } else {
                Ok(name.clone())
            }
        },
    }
}

/// What a kind of asset is bound by.
#[derive(Debug, Clone, Copy, PartialEq, Eq, Structural)]
pub enum BindingWay {
    /// A command of this type in one scene.
    Command(CommandType),
    /// The character's card, and figure commands in scenes.
    Figure,
    /// The voice of one line.
    Voice,
}

pub open spec fn way_of(kind: AssetKind) -> BindingWay {
    match kind {
        AssetKind::Background => BindingWay::Command(CommandType::ChangeBg),
        AssetKind::Figure => BindingWay::Figure,
        AssetKind::Bgm => BindingWay::Command(CommandType::Bgm),
        AssetKind::Sfx => BindingWay::Command(CommandType::PlayEffect),
        AssetKind::Tts => BindingWay::Voice,
    }
}

pub fn apply_binding(kind: AssetKind) -> (r: BindingWay)
    ensures
        r == way_of(kind),
{
    match kind {
        AssetKind::Background => BindingWay::Command(CommandType::ChangeBg),
        AssetKind::Figure => BindingWay::Figure,
        AssetKind::Bgm => BindingWay::Command(CommandType::Bgm),
        AssetKind::Sfx => BindingWay::Command(CommandType::PlayEffect),
        AssetKind::Tts => BindingWay::Voice,
    }
}

// ---------------------------------------------------------------------------
// Finding nodes
// ---------------------------------------------------------------------------

/// The position of the first node that satisfies `p`, or the number of nodes.
pub open spec fn first_where(nodes: Seq<NodeView>, p: spec_fn(NodeView) -> bool) -> int
    decreases nodes.len(),
{
    if nodes.len() == 0 || p(nodes[0]) {
        0
    } else {
        1 + first_where(nodes.drop_first(), p)
    }
}

proof fn lemma_first_where(nodes: Seq<NodeView>, p: spec_fn(NodeView) -> bool, k: int)
    requires
        0 <= k <= nodes.len(),
        forall|j: int| 0 <= j < k ==> !p(#[trigger] nodes[j]),
        k < nodes.len() ==> p(nodes[k]),
    ensures
        first_where(nodes, p) == k,
    decreases nodes.len(),
{
    if nodes.len() > 0 && !p(nodes[0]) {
        let t = nodes.drop_first();
        assert forall|j: int| 0 <= j < k - 1 implies !p(#[trigger] t[j]) by {
            assert(!p(nodes[j + 1]));
        }
        lemma_first_where(t, p, k - 1);
    }
}

proof fn lemma_first_where_at(nodes: Seq<NodeView>, p: spec_fn(NodeView) -> bool)
    ensures
        0 <= first_where(nodes, p) <= nodes.len(),
        forall|j: int| 0 <= j < first_where(nodes, p) ==> !p(#[trigger] nodes[j]),
        first_where(nodes, p) < nodes.len() ==> p(nodes[first_where(nodes, p)]),
    decreases nodes.len(),
{
    if nodes.len() > 0 && !p(nodes[0]) {
        let t = nodes.drop_first();
        lemma_first_where_at(t, p);
        assert forall|j: int| 0 <= j < first_where(nodes, p) implies !p(#[trigger] nodes[j]) by {
            if j > 0 {
                assert(!p(t[j - 1]));
            }
        }
    }
}

/// Whether a node is the comment `content`.
pub open spec fn is_comment(n: NodeView, content: Seq<char>) -> bool {
    n.cmd_type == CommandType::Comment && n.content == content
}

/// Whether a node is a command of this type on this asset.
pub open spec fn uses_asset(n: NodeView, kind: CommandType, asset: Seq<char>) -> bool {
    n.cmd_type == kind && n.asset == Some(asset)
}

pub open spec fn spoken_by(n: NodeView, name: Seq<char>) -> bool {
    n.cmd_type == CommandType::Dialogue && n.character == Some(name)
}

fn node_is_comment(n: &WebGalNode, content: &str) -> (r: bool)
    ensures
        r == is_comment(n@, content@),
{
    n.cmd_type == CommandType::Comment && text::same(n.content.as_str(), content)
}

fn node_uses_asset(n: &WebGalNode, kind: CommandType, asset: &str) -> (r: bool)
    ensures
        r == uses_asset(n@, kind, asset@),
{
    n.cmd_type == kind && story_plan::opt_is(&n.asset, asset)
}

fn find_comment(nodes: &Vec<WebGalNode>, content: &str) -> (r: usize)
    ensures
        r <= nodes.len(),
        r == first_where(
            webgal::node_views(nodes@),
            |n: NodeView| is_comment(n, content@),
        ),
{
    let ghost all = webgal::node_views(nodes@);
    let ghost p = |n: NodeView| is_comment(n, content@);
    let mut i: usize = 0;
    while i < nodes.len()
        invariant
            i <= nodes.len(),
            all == webgal::node_views(nodes@),
            p == (|n: NodeView| is_comment(n, content@)),
            forall|j: int| 0 <= j < i ==> !p(#[trigger] all[j]),
        decreases nodes.len() - i,
    {
        assert(all[i as int] == nodes@[i as int]@);
        if node_is_comment(&nodes[i], content) {
            proof {
                lemma_first_where(all, p, i as int);
            }
            return i;
        }
        i += 1;
    }
    proof {
        lemma_first_where(all, p, i as int);
    }
    i
}

fn find_asset(nodes: &Vec<WebGalNode>, kind: CommandType, asset: &str) -> (r: usize)
    ensures
        r <= nodes.len(),
        r == first_where(
            webgal::node_views(nodes@),
            |n: NodeView| uses_asset(n, kind, asset@),
        ),
{
    let ghost all = webgal::node_views(nodes@);
    let ghost p = |n: NodeView| uses_asset(n, kind, asset@);
    let mut i: usize = 0;
    while i < nodes.len()
        invariant
            i <= nodes.len(),
            all == webgal::node_views(nodes@),
            p == (|n: NodeView| uses_asset(n, kind, asset@)),
            forall|j: int| 0 <= j < i ==> !p(#[trigger] all[j]),
        decreases nodes.len() - i,
    {
        assert(all[i as int] == nodes@[i as int]@);
        if node_uses_asset(&nodes[i], kind, asset) {
            proof {
                lemma_first_where(all, p, i as int);
            }
            return i;
        }
        i += 1;
    }
    proof {
        lemma_first_where(all, p, i as int);
    }
    i
}

fn find_spoken(nodes: &Vec<WebGalNode>, name: &str) -> (r: usize)
    ensures
        r <= nodes.len(),
        r == first_where(webgal::node_views(nodes@), |n: NodeView| spoken_by(n, name@)),
{
    let ghost all = webgal::node_views(nodes@);
    let ghost p = |n: NodeView| spoken_by(n, name@);
    let mut i: usize = 0;
    while i < nodes.len()
        invariant
            i <= nodes.len(),
            all == webgal::node_views(nodes@),
            p == (|n: NodeView| spoken_by(n, name@)),
            forall|j: int| 0 <= j < i ==> !p(#[trigger] all[j]),
        decreases nodes.len() - i,
    {
        assert(all[i as int] == nodes@[i as int]@);
        if nodes[i].cmd_type == CommandType::Dialogue && story_plan::opt_is(
            &nodes[i].character,
            name,
        ) {
            proof {
                lemma_first_where(all, p, i as int);
            }
            return i;
        }
        i += 1;
    }
    proof {
        lemma_first_where(all, p, i as int);
    }
    i
}

/// Whether a node is neither a comment nor, where `intro` says so, the intro.
pub open spec fn past_head(n: NodeView, intro: bool) -> bool {
    n.cmd_type != CommandType::Comment && !(intro && n.cmd_type == CommandType::Intro)
}

fn find_past_head(nodes: &Vec<WebGalNode>, intro: bool) -> (r: usize)
    ensures
        r <= nodes.len(),
        r == first_where(webgal::node_views(nodes@), |n: NodeView| past_head(n, intro)),
{
    let ghost all = webgal::node_views(nodes@);
    let ghost p = |n: NodeView| past_head(n, intro);
    let mut i: usize = 0;
    while i < nodes.len()
        invariant
            i <= nodes.len(),
            all == webgal::node_views(nodes@),
            p == (|n: NodeView| past_head(n, intro)),
            forall|j: int| 0 <= j < i ==> !p(#[trigger] all[j]),
        decreases nodes.len() - i,
    {
        assert(all[i as int] == nodes@[i as int]@);
        if nodes[i].cmd_type != CommandType::Comment && !(intro && nodes[i].cmd_type
            == CommandType::Intro) {
            proof {
                lemma_first_where(all, p, i as int);
            }
            return i;
        }
        i += 1;
    }
    proof {
        lemma_first_where(all, p, i as int);
    }
    i
}

// ---------------------------------------------------------------------------
// Scene commands
// ---------------------------------------------------------------------------

/// The comment node that marks a task's command.
pub open spec fn marker_view(task_id: Seq<char>) -> NodeView {
    webgal::bare_node("asset-marker-"@ + task_id, CommandType::Comment, marker(task_id))
}

/// The command node of a task.
pub open spec fn asset_view(task_id: Seq<char>, kind: CommandType, filename: Seq<char>) -> NodeView {
    NodeView {
        asset: Some(filename),
        ..webgal::bare_node("asset-"@ + task_id, kind, filename)
    }
}

/// A command turned to another file.
pub open spec fn retargeted(n: NodeView, filename: Seq<char>) -> NodeView {
    NodeView { content: filename, asset: Some(filename), ..n }
}

fn marker_node(task_id: &str) -> (r: WebGalNode)
    ensures
        r@ == marker_view(task_id@),
{
    WebGalNode::new(
        router::joined("asset-marker-", task_id),
        CommandType::Comment,
        task_marker(task_id),
    )
}

fn asset_node(task_id: &str, kind: CommandType, filename: &str) -> (r: WebGalNode)
    ensures
        r@ == asset_view(task_id@, kind, filename@),
{
    let mut node = WebGalNode::new(router::joined("asset-", task_id), kind, text::copy(filename));
    node.asset = Some(text::copy(filename));
    node
}

/// Whether a node marks the command of some task.
pub open spec fn marks_a_task(n: NodeView) -> bool {
    n.cmd_type == CommandType::Comment && text::begins(n.content, "ollaic-asset-task:"@)
}

/// `i`, moved back over the markers that stand right before it.
pub open spec fn before_markers(nodes: Seq<NodeView>, i: int) -> int
    decreases i,
{
    if i > 0 && marks_a_task(nodes[i - 1]) {
        before_markers(nodes, i - 1)
    } else {
        i
    }
}

/// Where a new command goes: after the leading comments, but not between a
/// marker and its command.
pub open spec fn insertion_point(nodes: Seq<NodeView>) -> int {
    before_markers(nodes, first_where(nodes, |n: NodeView| past_head(n, false)))
}

/// The scene with a task's command in it: the marked command is turned to the
/// file; else the command on the task's earlier file is, and gets its marker;
/// else a marked command is put in.
pub open spec fn with_command(
    nodes: Seq<NodeView>,
    task: AssetTaskView,
    filename: Seq<char>,
    kind: CommandType,
) -> Seq<NodeView> {
    let m = first_where(nodes, |n: NodeView| is_comment(n, marker(task.id)));
    if m + 1 < nodes.len() && nodes[m + 1].cmd_type == kind {
        nodes.update(m + 1, retargeted(nodes[m + 1], filename))
    } else {
        let p = match task.asset_file {
            Some(previous) => first_where(nodes, |n: NodeView| uses_asset(n, kind, previous)),
            None => nodes.len() as int,
        };
        if p < nodes.len() {
            nodes.update(p, retargeted(nodes[p], filename)).insert(p, marker_view(task.id))
        } else {
            let i = insertion_point(nodes);
            nodes.insert(i, marker_view(task.id)).insert(
                i + 1,
                asset_view(task.id, kind, filename),
            )
        }
    }
}

/// Whether a node marks a task, on the node itself.
fn node_marks_a_task(n: &WebGalNode) -> (r: bool)
    ensures
        r == marks_a_task(n@),
{
    n.cmd_type == CommandType::Comment && text::starts_with(
        n.content.as_str(),
        "ollaic-asset-task:",
    )
}

fn find_insertion_point(nodes: &Vec<WebGalNode>) -> (r: usize)
    ensures
        r <= nodes.len(),
        r == insertion_point(webgal::node_views(nodes@)),
{
    let ghost all = webgal::node_views(nodes@);
    let mut i: usize = find_past_head(nodes, false);
    let ghost start = i as int;
    while i > 0 && node_marks_a_task(&nodes[i - 1])
        invariant
            i <= nodes.len(),
            all == webgal::node_views(nodes@),
            before_markers(all, start) == before_markers(all, i as int),
        decreases i,
    {
        assert(all[i - 1] == nodes@[i - 1]@);
        i -= 1;
    }
    proof {
        if i > 0 {
            assert(all[i - 1] == nodes@[i - 1]@);
        }
    }
    i
}

fn retarget(nodes: &mut Vec<WebGalNode>, i: usize, filename: &str)
    requires
        i < old(nodes).len(),
    ensures
        webgal::node_views(final(nodes)@) == webgal::node_views(old(nodes)@).update(
            i as int,
            retargeted(webgal::node_views(old(nodes)@)[i as int], filename@),
        ),
        final(nodes).len() == old(nodes).len(),
{
    let ghost before = webgal::node_views(nodes@);
    {
        let node = &mut nodes[i];
        node.content = text::copy(filename);
        node.asset = Some(text::copy(filename));
    }
    assert(webgal::node_views(nodes@) =~= before.update(i as int, nodes@[i as int]@));
}

fn insert_node(nodes: &mut Vec<WebGalNode>, i: usize, node: WebGalNode)
    requires
        i <= old(nodes).len(),
    ensures
        webgal::node_views(final(nodes)@) == webgal::node_views(old(nodes)@).insert(
            i as int,
            node@,
        ),
        final(nodes).len() == old(nodes).len() + 1,
{
    let ghost before = webgal::node_views(nodes@);
    let ghost view = node@;
    nodes.insert(i, node);
    assert(webgal::node_views(nodes@) =~= before.insert(i as int, view));
}

/// Binds a background, a theme or an effect into a scene.
pub fn bind_scene_command(
    nodes: &mut Vec<WebGalNode>,
    task: &AssetTask,
    filename: &str,
    kind: CommandType,
)
    ensures
        webgal::node_views(final(nodes)@) == with_command(
            webgal::node_views(old(nodes)@),
            task@,
            filename@,
            kind,
        ),
{
    let ghost all = webgal::node_views(nodes@);
    let mark = task_marker(task.id.as_str());
    let m = find_comment(nodes, mark.as_str());
    if m < nodes.len() && nodes.len() - m > 1 {
        assert(all[m + 1] == nodes@[m + 1]@);
        if nodes[m + 1].cmd_type == kind {
            retarget(nodes, m + 1, filename);
            return;
        }
    }
    if let Some(previous) = &task.asset_file {
        let p = find_asset(nodes, kind, previous.as_str());
        if p < nodes.len() {
            retarget(nodes, p, filename);
            insert_node(nodes, p, marker_node(task.id.as_str()));
            return;
        }
    }
    let i = find_insertion_point(nodes);
    insert_node(nodes, i, marker_node(task.id.as_str()));
    insert_node(nodes, i + 1, asset_node(task.id.as_str(), kind, filename));
}

/// Whether the task's marker stands right before a command on this file.
pub open spec fn owns_file(nodes: Seq<NodeView>, task_id: Seq<char>, filename: Seq<char>) -> bool {
    exists|i: int|
        0 <= i && i + 1 < nodes.len() && #[trigger] is_comment(nodes[i], marker(task_id))
            && nodes[i + 1].asset == Some(filename)
}

/// Whether a scene already gives this file to the task. Only commands of a
/// scene are owned that way.
pub fn scene_task_owns_filename(nodes: &Vec<WebGalNode>, task: &AssetTask, filename: &str) -> (r:
    bool)
    ensures
        r == ((task.kind == AssetKind::Background || task.kind == AssetKind::Bgm || task.kind
            == AssetKind::Sfx) && owns_file(webgal::node_views(nodes@), task.id@, filename@)),
{
    if task.kind != AssetKind::Background && task.kind != AssetKind::Bgm && task.kind
        != AssetKind::Sfx {
        return false;
    }
    let ghost all = webgal::node_views(nodes@);
    let mark = task_marker(task.id.as_str());
    let mut i: usize = 0;
    while i < nodes.len() && nodes.len() - i > 1
        invariant
            i <= nodes.len(),
            all == webgal::node_views(nodes@),
            mark@ == marker(task.id@),
            task.kind == AssetKind::Background || task.kind == AssetKind::Bgm || task.kind
                == AssetKind::Sfx,
            forall|j: int|
                0 <= j < i && j + 1 < nodes.len() ==> !(#[trigger] is_comment(
                    all[j],
                    marker(task.id@),
                ) && all[j + 1].asset == Some(filename@)),
        decreases nodes.len() - i,
    {
        assert(all[i as int] == nodes@[i as int]@);
        assert(all[i + 1] == nodes@[i + 1]@);
        if node_is_comment(&nodes[i], mark.as_str()) && story_plan::opt_is(
            &nodes[i + 1].asset,
            filename,
        ) {
            assert(is_comment(all[i as int], marker(task.id@)));
            return true;
        }
        i += 1;
    }
    false
}

proof fn lemma_before_markers(nodes: Seq<NodeView>, i: int)
    requires
        0 <= i <= nodes.len(),
    ensures
        0 <= before_markers(nodes, i) <= i,
        before_markers(nodes, i) > 0 ==> !marks_a_task(nodes[before_markers(nodes, i) - 1]),
    decreases i,
{
    if i > 0 && marks_a_task(nodes[i - 1]) {
        lemma_before_markers(nodes, i - 1);
    }
}

/// A new command never comes between the marker of another task and its
/// command: it does not follow a marker.
pub proof fn insertion_keeps_markers_attached(nodes: Seq<NodeView>)
    ensures
        0 <= insertion_point(nodes) <= nodes.len(),
        insertion_point(nodes) > 0 ==> !marks_a_task(nodes[insertion_point(nodes) - 1]),
{
    lemma_first_where_at(nodes, |n: NodeView| past_head(n, false));
    lemma_before_markers(nodes, first_where(nodes, |n: NodeView| past_head(n, false)));
}

/// Binding a task a second time to the same file changes nothing, where its
/// marker was not in the scene before the first time.
pub proof fn binding_again_changes_nothing(
    nodes: Seq<NodeView>,
    task: AssetTaskView,
    filename: Seq<char>,
    kind: CommandType,
)
    requires
        kind != CommandType::Comment,
        forall|i: int|
            0 <= i < nodes.len() ==> !is_comment(#[trigger] nodes[i], marker(task.id)),
    ensures
        with_command(with_command(nodes, task, filename, kind), task, filename, kind)
            == with_command(nodes, task, filename, kind),
{
    let p = |n: NodeView| is_comment(n, marker(task.id));
    let q = |n: NodeView| past_head(n, false);
    lemma_first_where(nodes, p, nodes.len() as int);
    let once = with_command(nodes, task, filename, kind);
    let previous = match task.asset_file {
        Some(prev) => first_where(nodes, |n: NodeView| uses_asset(n, kind, prev)),
        None => nodes.len() as int,
    };
    if task.asset_file is Some {
        lemma_first_where_at(nodes, |n: NodeView| uses_asset(n, kind, task.asset_file->0));
    }
    insertion_keeps_markers_attached(nodes);
    let at = if previous < nodes.len() {
        previous
    } else {
        insertion_point(nodes)
    };
    assert(once[at] == marker_view(task.id));
    assert(p(once[at]));
    assert forall|j: int| 0 <= j < at implies !p(#[trigger] once[j]) by {
        assert(once[j] == nodes[j]);
    }
    lemma_first_where(once, p, at);
    assert(at + 1 < once.len());
    assert(once[at + 1].cmd_type == kind);
    assert(retargeted(once[at + 1], filename) == once[at + 1]);
    assert(once.update(at + 1, once[at + 1]) =~= once);
}

// ---------------------------------------------------------------------------
// Figures
// ---------------------------------------------------------------------------

/// The position of the first card with this id or name, or the number of
/// cards.
pub open spec fn card_index(cards: Seq<CharacterView>, reference: Seq<char>) -> int
    decreases cards.len(),
{
    if cards.len() == 0 || cards[0].id == reference || cards[0].name == reference {
        0
    } else {
        1 + card_index(cards.drop_first(), reference)
    }
}

proof fn lemma_card_index(cards: Seq<CharacterView>, reference: Seq<char>, k: int)
    requires
        0 <= k <= cards.len(),
        forall|j: int|
            0 <= j < k ==> (#[trigger] cards[j]).id != reference && cards[j].name != reference,
        k < cards.len() ==> cards[k].id == reference || cards[k].name == reference,
    ensures
        card_index(cards, reference) == k,
    decreases cards.len(),
{
    if cards.len() > 0 && cards[0].id != reference && cards[0].name != reference {
        let t = cards.drop_first();
        assert forall|j: int| 0 <= j < k - 1 implies (#[trigger] t[j]).id != reference && t[j].name
            != reference by {
            assert(cards[j + 1].id != reference);
        }
        lemma_card_index(t, reference, k - 1);
    }
}

/// The position of the first sprite of this emotion, or the number of sprites.
pub open spec fn sprite_index(sprites: Seq<SpriteView>, emotion: Seq<char>) -> int
    decreases sprites.len(),
{
    if sprites.len() == 0 || sprites[0].emotion == emotion {
        0
    } else {
        1 + sprite_index(sprites.drop_first(), emotion)
    }
}

proof fn lemma_sprite_index(sprites: Seq<SpriteView>, emotion: Seq<char>, k: int)
    requires
        0 <= k <= sprites.len(),
        forall|j: int| 0 <= j < k ==> (#[trigger] sprites[j]).emotion != emotion,
        k < sprites.len() ==> sprites[k].emotion == emotion,
    ensures
        sprite_index(sprites, emotion) == k,
    decreases sprites.len(),
{
    if sprites.len() > 0 && sprites[0].emotion != emotion {
        let t = sprites.drop_first();
        assert forall|j: int| 0 <= j < k - 1 implies (#[trigger] t[j]).emotion != emotion by {
            assert(sprites[j + 1].emotion != emotion);
        }
        lemma_sprite_index(t, emotion, k - 1);
    }
}

/// The sprites with the drawing of an emotion in them.
pub open spec fn with_sprite(
    sprites: Seq<SpriteView>,
    emotion: Seq<char>,
    file: Seq<char>,
    prompt: Seq<char>,
) -> Seq<SpriteView> {
    let k = sprite_index(sprites, emotion);
    if k < sprites.len() {
        sprites.update(k, SpriteView { file, prompt: Some(prompt), ..sprites[k] })
    } else {
        sprites.push(SpriteView { emotion, file, prompt: Some(prompt) })
    }
}

/// The emotion that a figure task draws.
pub open spec fn task_emotion(task: AssetTaskView) -> Seq<char> {
    match task.emotion {
        Some(e) => e,
        None => "default"@,
    }
}

fn put_sprite(sprites: &mut Vec<CharacterSprite>, emotion: &str, file: &str, prompt: &str)
    ensures
        characters::sprite_views(final(sprites)@) == with_sprite(
            characters::sprite_views(old(sprites)@),
            emotion@,
            file@,
            prompt@,
        ),
{
    let ghost all = characters::sprite_views(sprites@);
    let mut k: usize = 0;
    while k < sprites.len() && !text::same(sprites[k].emotion.as_str(), emotion)
        invariant
            k <= sprites.len(),
            all == characters::sprite_views(sprites@),
            forall|j: int| 0 <= j < k ==> (#[trigger] all[j]).emotion != emotion@,
        decreases sprites.len() - k,
    {
        assert(all[k as int] == sprites@[k as int]@);
        k += 1;
    }
    proof {
        if k < sprites@.len() {
            assert(all[k as int] == sprites@[k as int]@);
        }
        lemma_sprite_index(all, emotion@, k as int);
    }
    if k < sprites.len() {
        {
            let sprite = &mut sprites[k];
            sprite.file = text::copy(file);
            sprite.prompt = Some(text::copy(prompt));
        }
        assert(characters::sprite_views(sprites@) =~= all.update(k as int, sprites@[k as int]@));
    } else {
        let sprite = CharacterSprite {
            emotion: text::copy(emotion),
            file: text::copy(file),
            prompt: Some(text::copy(prompt)),
        };
        sprites.push(sprite);
        assert(characters::sprite_views(sprites@) =~= all.push(sprite@));
    }
}

/// Puts a drawn figure on its character's card and returns the character's
/// name.
pub fn bind_card(document: &mut CharactersDocument, task: &AssetTask, filename: &str) -> (r: Result<
    String,
    String,
>)
    ensures
        final(document).version == old(document).version,
        ({
            let cards = characters::character_views(old(document).characters@);
            let after = characters::character_views(final(document).characters@);
            match task@.character_ref {
                None => r matches Err(m) && m@ == "figure task "@ + task.id@ + " has no characterRef"@
                    && after == cards,
                Some(reference) => {
                    let k = card_index(cards, reference);
                    if k < cards.len() {
                        r matches Ok(name) && name@ == cards[k].name && after == cards.update(
                            k,
                            CharacterView {
                                sprites: with_sprite(
                                    cards[k].sprites,
                                    task_emotion(task@),
                                    filename@,
                                    task.prompt@,
                                ),
                                ..cards[k]
                            },
                        )
                    } else {
                        r matches Err(m) && m@ == "character not found: "@ + reference && after
                            == cards
                    }
                },
            }
        }),
{
    let ghost cards = characters::character_views(document.characters@);
    match &task.character_ref {
        None => {
            let mut s = text::copy("figure task ");
            s.append(task.id.as_str());
            s.append(" has no characterRef");
            Err(s)
        },
        Some(reference) => {
            let mut k: usize = 0;
            while k < document.characters.len() && !text::same(
                document.characters[k].id.as_str(),
                reference.as_str(),
            ) && !text::same(document.characters[k].name.as_str(), reference.as_str())
                invariant
                    k <= document.characters.len(),
                    cards == characters::character_views(document.characters@),
                    forall|j: int|
                        0 <= j < k ==> (#[trigger] cards[j]).id != reference@ && cards[j].name
                            != reference@,
                decreases document.characters.len() - k,
            {
                assert(cards[k as int] == document.characters@[k as int]@);
                k += 1;
            }
            proof {
                if k < cards.len() {
                    assert(cards[k as int] == document.characters@[k as int]@);
                }
                lemma_card_index(cards, reference@, k as int);
            }
            if k == document.characters.len() {
                return Err(router::joined("character not found: ", reference.as_str()));
            }
            let name = document.characters[k].name.clone();
            let emotion = match &task.emotion {
                Some(e) => e.clone(),
                None => text::copy("default"),
            };
            {
                let card = &mut document.characters[k];
                put_sprite(&mut card.sprites, emotion.as_str(), filename, task.prompt.as_str());
            }
            assert(characters::character_views(document.characters@) =~= cards.update(
                k as int,
                document.characters@[k as int]@,
            ));
            Ok(name)
        },
    }
}

/// Whether a scene's figures wait for their drawings.
pub open spec fn stage_managed(nodes: Seq<NodeView>) -> bool {
    first_where(nodes, |n: NodeView| is_comment(n, "Ollaic Scene Staging"@)) < nodes.len()
}

/// A node behind the task's marker, with the figure in it. `parsed` is what
/// the node's staged command parses to, where it holds one.
pub open spec fn figure_bound(
    n: NodeView,
    parsed: Option<NodeView>,
    filename: Seq<char>,
    character: Seq<char>,
    emotion: Seq<char>,
) -> NodeView {
    let command = if held_command(n.content) is Some && parsed is Some && parsed->0.cmd_type
        == CommandType::ChangeFigure {
        parsed->0
    } else {
        n
    };
    if command.cmd_type == CommandType::ChangeFigure {
        NodeView {
            content: filename,
            asset: Some(filename),
            figure_character: Some(character),
            figure_emotion: Some(emotion),
            ..command
        }
    } else {
        n
    }
}

/// Whether the node at `j` stands right behind the task's marker.
pub open spec fn behind_marker(nodes: Seq<NodeView>, j: int, task_id: Seq<char>) -> bool {
    0 < j < nodes.len() && is_comment(nodes[j - 1], marker(task_id))
}

/// The staged scene with the figure in every place that waits for it.
pub open spec fn with_figure(
    nodes: Seq<NodeView>,
    parsed: Seq<Option<NodeView>>,
    task_id: Seq<char>,
    filename: Seq<char>,
    character: Seq<char>,
    emotion: Seq<char>,
) -> Seq<NodeView> {
    Seq::new(
        nodes.len(),
        |j: int|
            if behind_marker(nodes, j, task_id) {
                figure_bound(nodes[j], parsed[j], filename, character, emotion)
            } else {
                nodes[j]
            },
    )
}

/// Whether the figure has a place in the staged scene.
pub open spec fn figure_has_place(
    nodes: Seq<NodeView>,
    parsed: Seq<Option<NodeView>>,
    task_id: Seq<char>,
    filename: Seq<char>,
    character: Seq<char>,
    emotion: Seq<char>,
) -> bool {
    exists|j: int|
        #[trigger] behind_marker(nodes, j, task_id) && figure_bound(
            nodes[j],
            parsed[j],
            filename,
            character,
            emotion,
        ).cmd_type == CommandType::ChangeFigure
}

/// The model of an optional node.
pub open spec fn opt_node(n: Option<WebGalNode>) -> Option<NodeView> {
    match n {
        Some(node) => Some(node@),
        None => None,
    }
}

pub open spec fn opt_nodes(v: Seq<Option<WebGalNode>>) -> Seq<Option<NodeView>> {
    v.map_values(|n: Option<WebGalNode>| opt_node(n))
}

/// A comment that marks a task holds no staged figure.
proof fn lemma_markers_hold_nothing(task_id: Seq<char>)
    ensures
        held_command(marker(task_id)) is None,
{
    reveal_strlit("ollaic-asset-task:");
    reveal_strlit("ollaic-figure-staging:");
    let m = marker(task_id);
    let p = FIGURE_STAGING_PREFIX@;
    if text::begins(m, p) {
        assert(m.subrange(0, p.len() as int)[7] == p[7]);
        assert(m[7] == 'a');
        assert(p[7] == 'f');
    }
}

/// Puts the figure into one node and says whether it has its place there.
fn bind_figure_node(
    node: &mut WebGalNode,
    parsed: &Option<WebGalNode>,
    filename: &str,
    character: &str,
    emotion: &str,
) -> (r: bool)
    ensures
        final(node)@ == figure_bound(
            old(node)@,
            opt_node(*parsed),
            filename@,
            character@,
            emotion@,
        ),
        r == (figure_bound(
            old(node)@,
            opt_node(*parsed),
            filename@,
            character@,
            emotion@,
        ).cmd_type == CommandType::ChangeFigure),
{
    if held_figure_command(node).is_some() {
        if let Some(p) = parsed {
            if p.cmd_type == CommandType::ChangeFigure {
                *node = p.clone();
            }
        }
    }
    if node.cmd_type != CommandType::ChangeFigure {
        return false;
    }
    node.content = text::copy(filename);
    node.asset = Some(text::copy(filename));
    node.figure_character = Some(text::copy(character));
    node.figure_emotion = Some(text::copy(emotion));
    true
}

/// Binds a figure in a staged scene and says whether it has a place there.
pub fn bind_staged_figure(
    nodes: &mut Vec<WebGalNode>,
    parsed: &Vec<Option<WebGalNode>>,
    task_id: &str,
    filename: &str,
    character: &str,
    emotion: &str,
) -> (r: bool)
    requires
        parsed@.len() == old(nodes)@.len(),
    ensures
        webgal::node_views(final(nodes)@) == with_figure(
            webgal::node_views(old(nodes)@),
            opt_nodes(parsed@),
            task_id@,
            filename@,
            character@,
            emotion@,
        ),
        r == figure_has_place(
            webgal::node_views(old(nodes)@),
            opt_nodes(parsed@),
            task_id@,
            filename@,
            character@,
            emotion@,
        ),
{
    let ghost all = webgal::node_views(nodes@);
    let ghost ps = opt_nodes(parsed@);
    let ghost goal = with_figure(all, ps, task_id@, filename@, character@, emotion@);
    let mark = task_marker(task_id);
    proof {
        lemma_markers_hold_nothing(task_id@);
    }
    let mut changed = false;
    let mut i: usize = 1;
    while i < nodes.len()
        invariant
            nodes@.len() == all.len(),
            parsed@.len() == all.len(),
            ps == opt_nodes(parsed@),
            goal == with_figure(all, ps, task_id@, filename@, character@, emotion@),
            mark@ == marker(task_id@),
            held_command(marker(task_id@)) is None,
            1 <= i,
            all.len() > 0 ==> i <= all.len(),
            forall|j: int|
                0 <= j < i && j < all.len() ==> #[trigger] webgal::node_views(nodes@)[j] == goal[j],
            forall|j: int|
                i <= j < all.len() ==> #[trigger] webgal::node_views(nodes@)[j] == all[j],
            changed ==> figure_has_place(all, ps, task_id@, filename@, character@, emotion@),
            !changed ==> forall|j: int|
                #[trigger] behind_marker(all, j, task_id@) && j < i ==> figure_bound(
                    all[j],
                    ps[j],
                    filename@,
                    character@,
                    emotion@,
                ).cmd_type != CommandType::ChangeFigure,
        decreases nodes.len() - i,
    {
        let ghost now = webgal::node_views(nodes@);
        assert(now[i as int] == all[i as int]);
        assert(now[i - 1] == goal[i - 1]);
        proof {
            // A node that is a marker is never changed itself.
            if is_comment(all[i - 1], marker(task_id@)) {
                assert(goal[i - 1] == all[i - 1]);
            }
            if is_comment(goal[i - 1], marker(task_id@)) {
                assert(goal[i - 1] == all[i - 1]);
            }
        }
        assert(nodes@[i - 1]@ == now[i - 1]);
        assert(nodes@[i as int]@ == now[i as int]);
        if node_is_comment(&nodes[i - 1], mark.as_str()) {
            assert(behind_marker(all, i as int, task_id@));
            assert(ps[i as int] == opt_node(parsed@[i as int]));
            let placed: bool;
            {
                let node = &mut nodes[i];
                placed = bind_figure_node(node, &parsed[i], filename, character, emotion);
            }
            if placed {
                changed = true;
            }
            assert(webgal::node_views(nodes@) =~= now.update(i as int, nodes@[i as int]@));
        } else {
            assert(!behind_marker(all, i as int, task_id@));
        }
        i += 1;
    }
    assert(webgal::node_views(nodes@) =~= goal);
    changed
}

/// What becomes of a scene when a figure is bound.
#[derive(Debug, Clone, Copy, PartialEq, Eq, Structural)]
pub enum FigureScene {
    /// The scene changed and is to be written.
    Changed,
    /// The scene stays as it is.
    Unchanged,
    /// The scene was named but has no place for the figure.
    NoPlace,
}

/// Where a figure enters a scene that is not staged: before its character's
/// first line, else behind the leading comments and the intro.
pub open spec fn entrance(nodes: Seq<NodeView>, name: Seq<char>) -> int {
    let line = first_where(nodes, |n: NodeView| spoken_by(n, name));
    if line < nodes.len() {
        line
    } else {
        first_where(nodes, |n: NodeView| past_head(n, true))
    }
}

/// Whether the scene has a figure command on this file.
pub open spec fn has_figure(nodes: Seq<NodeView>, filename: Seq<char>) -> bool {
    first_where(nodes, |n: NodeView| uses_asset(n, CommandType::ChangeFigure, filename))
        < nodes.len()
}

/// What becomes of a scene when a figure is bound, and its nodes then. A staged
/// scene has the figure where its markers are, another one where the figure
/// enters, once. `explicit` says that the task names the scene; `parsed[j]` is
/// what the staged command of the node at `j` parses to.
pub open spec fn figure_outcome(
    nodes: Seq<NodeView>,
    parsed: Seq<Option<NodeView>>,
    task: AssetTaskView,
    character: Seq<char>,
    name: Seq<char>,
    filename: Seq<char>,
    explicit: bool,
) -> (FigureScene, Seq<NodeView>) {
    let emotion = task_emotion(task);
    if stage_managed(nodes) {
        if figure_has_place(nodes, parsed, task.id, filename, character, emotion) {
            (
                FigureScene::Changed,
                with_figure(nodes, parsed, task.id, filename, character, emotion),
            )
        } else if explicit {
            (FigureScene::NoPlace, nodes)
        } else {
            (FigureScene::Unchanged, nodes)
        }
    } else {
        let spoken = first_where(nodes, |n: NodeView| spoken_by(n, name)) < nodes.len();
        if (!spoken && !explicit) || has_figure(nodes, filename) {
            (FigureScene::Unchanged, nodes)
        } else {
            (
                FigureScene::Changed,
                nodes.insert(
                    entrance(nodes, name),
                    asset_view(task.id, CommandType::ChangeFigure, filename),
                ),
            )
        }
    }
}

/// Binds a drawn figure into a scene.
pub fn place_figure(
    nodes: &mut Vec<WebGalNode>,
    parsed: &Vec<Option<WebGalNode>>,
    task: &AssetTask,
    character: &str,
    name: &str,
    filename: &str,
    explicit: bool,
) -> (r: FigureScene)
    requires
        parsed@.len() == old(nodes)@.len(),
    ensures
        (r, webgal::node_views(final(nodes)@)) == figure_outcome(
            webgal::node_views(old(nodes)@),
            opt_nodes(parsed@),
            task@,
            character@,
            name@,
            filename@,
            explicit,
        ),
{
    let ghost before = webgal::node_views(nodes@);
    let emotion = match &task.emotion {
        Some(e) => e.clone(),
        None => text::copy("default"),
    };
    if find_comment(nodes, "Ollaic Scene Staging") < nodes.len() {
        let changed = bind_staged_figure(
            nodes,
            parsed,
            task.id.as_str(),
            filename,
            character,
            emotion.as_str(),
        );
        proof {
            let ps = opt_nodes(parsed@);
            if !changed {
                assert forall|j: int| 0 <= j < before.len() implies with_figure(
                    before,
                    ps,
                    task.id@,
                    filename@,
                    character@,
                    emotion@,
                )[j] == before[j] by {
                    assert(behind_marker(before, j, task.id@) ==> figure_bound(
                        before[j],
                        ps[j],
                        filename@,
                        character@,
                        emotion@,
                    ).cmd_type != CommandType::ChangeFigure);
                }
                assert(webgal::node_views(nodes@) =~= before);
            }
        }
        return if changed {
            FigureScene::Changed
        } else if explicit {
            FigureScene::NoPlace
        } else {
            FigureScene::Unchanged
        };
    }
    let line = find_spoken(nodes, name);
    if line == nodes.len() && !explicit {
        return FigureScene::Unchanged;
    }
    let at = if line < nodes.len() {
        line
    } else {
        find_past_head(nodes, true)
    };
    if find_asset(nodes, CommandType::ChangeFigure, filename) < nodes.len() {
        return FigureScene::Unchanged;
    }
    insert_node(nodes, at, asset_node(task.id.as_str(), CommandType::ChangeFigure, filename));
    FigureScene::Changed
}

/// The error of a named scene that has no place for a figure.
pub open spec fn no_place(task_id: Seq<char>, path: Seq<char>) -> Seq<char> {
    "staged figure marker not found for task "@ + task_id + " in "@ + path
}

pub fn no_place_error(task_id: &str, path: &str) -> (r: String)
    ensures
        r@ == no_place(task_id@, path@),
{
    let mut s = text::copy("staged figure marker not found for task ");
    s.append(task_id);
    s.append(" in ");
    s.append(path);
    s
}

// ---------------------------------------------------------------------------
// Voices
// ---------------------------------------------------------------------------

pub open spec fn spoken(n: NodeView) -> bool {
    n.cmd_type == CommandType::Dialogue || n.cmd_type == CommandType::Narrator
}

/// The position of the spoken node number `k`, from zero on, or the number of
/// nodes.
pub open spec fn nth_spoken(nodes: Seq<NodeView>, k: int) -> int
    decreases nodes.len(),
{
    if nodes.len() == 0 {
        0
    } else if spoken(nodes[0]) {
        if k <= 0 {
            0
        } else {
            1 + nth_spoken(nodes.drop_first(), k - 1)
        }
    } else {
        1 + nth_spoken(nodes.drop_first(), k)
    }
}

fn find_nth_spoken(nodes: &Vec<WebGalNode>, wanted: usize) -> (r: usize)
    ensures
        r <= nodes.len(),
        r == nth_spoken(webgal::node_views(nodes@), wanted as int),
{
    let ghost all = webgal::node_views(nodes@);
    let mut left: usize = wanted;
    let mut i: usize = 0;
    assert(all.skip(0) =~= all);
    while i < nodes.len()
        invariant
            i <= nodes.len(),
            all == webgal::node_views(nodes@),
            nth_spoken(all, wanted as int) == i + nth_spoken(all.skip(i as int), left as int),
        decreases nodes.len() - i,
    {
        proof {
            assert(all.skip(i as int)[0] == nodes@[i as int]@);
            assert(all.skip(i as int).drop_first() =~= all.skip(i + 1));
        }
        if nodes[i].cmd_type == CommandType::Dialogue || nodes[i].cmd_type
            == CommandType::Narrator {
            if left == 0 {
                return i;
            }
            left -= 1;
        }
        i += 1;
    }
    assert(all.skip(i as int).len() == 0);
    i
}

fn dialogue_message(wanted: usize, middle: &str, path: &str) -> (r: String)
    ensures
        r@ == "dialogue "@ + text::decimal(wanted as nat) + middle@ + path@,
{
    let mut s = text::copy("dialogue ");
    s.append(text::decimal_of(wanted as u128).as_str());
    s.append(middle);
    s.append(path);
    s
}

/// Gives a line its voice, unless the line has changed since it was voiced.
pub fn bind_tts(nodes: &mut Vec<WebGalNode>, task: &AssetTask, filename: &str, path: &str) -> (r:
    Result<(), String>)
    ensures
        ({
            let before = webgal::node_views(old(nodes)@);
            let after = webgal::node_views(final(nodes)@);
            match task.dialogue_index {
                None => r matches Err(m) && m@ == "tts task "@ + task.id@ + " has no dialogueIndex"@
                    && after == before,
                Some(wanted) => {
                    let k = nth_spoken(before, wanted as int);
                    if k >= before.len() {
                        r matches Err(m) && m@ == "dialogue "@ + text::decimal(wanted as nat)
                            + " not found in "@ + path@ && after == before
                    } else if task@.text is None || text::trim_of(task@.text->0) != text::trim_of(
                        before[k].content,
                    ) {
                        r matches Err(m) && m@ == "dialogue "@ + text::decimal(wanted as nat)
                            + " changed in "@ + path@ && after == before
                    } else {
                        r is Ok && after == before.update(
                            k,
                            NodeView { voice: Some(filename@), ..before[k] },
                        )
                    }
                },
            }
        }),
{
    let ghost before = webgal::node_views(nodes@);
    match task.dialogue_index {
        None => {
            let mut s = text::copy("tts task ");
            s.append(task.id.as_str());
            s.append(" has no dialogueIndex");
            Err(s)
        },
        Some(wanted) => {
            let k = find_nth_spoken(nodes, wanted);
            if k == nodes.len() {
                return Err(dialogue_message(wanted, " not found in ", path));
            }
            assert(before[k as int] == nodes@[k as int]@);
            let same_line = match &task.text {
                Some(line) => {
                    let a = text::trim(line.as_str());
                    let b = text::trim(nodes[k].content.as_str());
                    text::same(a.as_str(), b.as_str())
                },
                None => false,
            };
            if !same_line {
                return Err(dialogue_message(wanted, " changed in ", path));
            }
            {
                let node = &mut nodes[k];
                node.voice = Some(text::copy(filename));
            }
            assert(webgal::node_views(nodes@) =~= before.update(k as int, nodes@[k as int]@));
            Ok(())
        },
    }
}

// ---------------------------------------------------------------------------
// Metadata
// ---------------------------------------------------------------------------

/// A text without the `.txt` at its end, however often it stands there.
pub open spec fn without_txt(s: Seq<char>) -> Seq<char>
    decreases s.len(),
{
    if text::ends(s, ".txt"@) && ".txt"@.len() > 0 {
        without_txt(s.take(s.len() - ".txt"@.len()))
    } else {
        s
    }
}

fn strip_txt(s: String) -> (r: String)
    ensures
        r@ == without_txt(s@),
    decreases s@.len(),
{
    proof {
        reveal_strlit(".txt");
    }
    if text::ends_with(s.as_str(), ".txt") {
        let v = text::chars_of(s.as_str());
        let shorter = text::string_of_range(&v, 0, v.len() - 4);
        assert(shorter@ =~= s@.take(s@.len() - 4));
        strip_txt(shorter)
    } else {
        s
    }
}

/// The id of the voice card of a task.
pub open spec fn voice_card_id(task: AssetTaskView) -> Seq<char> {
    "voice_"@ + without_txt(
        match task.scene_ref {
            Some(s) => s,
            None => "scene"@,
        },
    ) + "_"@ + text::decimal(
        match task.dialogue_index {
            Some(i) => i as nat,
            None => 0,
        },
    )
}

/// Whether a card is that of a background task's file.
pub open spec fn is_scene_card(card: SceneAssetCard, task: AssetTask, filename: Seq<char>) -> bool {
    &&& card.id == task.id
    &&& card.title == task.target_stem
    &&& card.scene_file == task.scene_ref
    &&& story_plan::opt_text(card.image_asset) == Some(filename)
    &&& card.target_stem == task.target_stem
    &&& card.prompt == task.prompt
    &&& card.style@.len() == 0
    &&& card.negative_prompt@.len() == 0
}

/// Whether a card is that of a voice task's file.
pub open spec fn is_voice_card(card: VoiceAssetCard, task: AssetTask, filename: Seq<char>) -> bool {
    &&& card.id@ == voice_card_id(task@)
    &&& card.character@ == (match task@.character_ref {
        Some(c) => c,
        None => "旁白"@,
    })
    &&& card.text@ == (match task@.text {
        Some(t) => t,
        None => Seq::empty(),
    })
    &&& card.emotion@ == "neutral"@
    &&& story_plan::opt_text(card.voice_asset) == Some(filename)
    &&& card.target_stem == task.target_stem
    &&& card.prompt == task.prompt
}

fn make_voice_card_id(task: &AssetTask) -> (r: String)
    ensures
        r@ == voice_card_id(task@),
{
    let scene = strip_txt(
        match &task.scene_ref {
            Some(s) => s.clone(),
            None => text::copy("scene"),
        },
    );
    let index: usize = match task.dialogue_index {
        Some(i) => i,
        None => 0,
    };
    let mut s = text::copy("voice_");
    s.append(scene.as_str());
    s.append("_");
    s.append(text::decimal_of(index as u128).as_str());
    s
}

/// The key of a media file in the metadata.
pub open spec fn file_key(kind: AssetKind, filename: Seq<char>) -> Seq<char> {
    types::dir_of_kind(kind) + "/"@ + filename
}

/// Records a bound file: its description, its tags, and the card of a
/// background or a voice.
pub fn update_asset_metadata(metadata: &mut AssetMetadata, task: &AssetTask, filename: &str)
    ensures
        ({
            let key = file_key(task.kind, filename@);
            let before = *old(metadata);
            let after = *final(metadata);
            &&& after.descriptions@ == before.descriptions@.insert(key, task.prompt)
            &&& after.tags@ == before.tags@.insert(key, after.tags@[key])
            &&& text::texts(after.tags@[key]@) == seq!["status:done"@, "source:ai"@]
            &&& if task.kind == AssetKind::Background {
                after.scene_cards@ == before.scene_cards@.insert(
                    task.id@,
                    after.scene_cards@[task.id@],
                ) && is_scene_card(after.scene_cards@[task.id@], *task, filename@)
            } else {
                after.scene_cards == before.scene_cards
            }
            &&& if task.kind == AssetKind::Tts {
                after.voice_cards@ == before.voice_cards@.insert(
                    voice_card_id(task@),
                    after.voice_cards@[voice_card_id(task@)],
                ) && is_voice_card(after.voice_cards@[voice_card_id(task@)], *task, filename@)
            } else {
                after.voice_cards == before.voice_cards
            }
            &&& after.aliases == before.aliases
            &&& after.references == before.references
            &&& after.cg_cards == before.cg_cards
            &&& after.deleted_scene_cards == before.deleted_scene_cards
            &&& after.deleted_cg_cards == before.deleted_cg_cards
            &&& after.deleted_voice_cards == before.deleted_voice_cards
        }),
{
    let mut key = text::copy(task.kind.game_dir());
    key.append("/");
    key.append(filename);
    let key_again = key.clone();
    metadata.descriptions.insert(key, task.prompt.clone());
    let mut tags: Vec<String> = Vec::new();
    tags.push(text::copy("status:done"));
    tags.push(text::copy("source:ai"));
    assert(text::texts(tags@) =~= seq!["status:done"@, "source:ai"@]);
    metadata.tags.insert(key_again, tags);
    if task.kind == AssetKind::Background {
        metadata.scene_cards.insert(
            task.id.clone(),
            SceneAssetCard {
                id: task.id.clone(),
                title: task.target_stem.clone(),
                scene_file: story_plan::copy_opt(&task.scene_ref),
                image_asset: Some(text::copy(filename)),
                target_stem: task.target_stem.clone(),
                prompt: task.prompt.clone(),
                style: String::new(),
                negative_prompt: String::new(),
            },
        );
    } else if task.kind == AssetKind::Tts {
        let card = VoiceAssetCard {
            id: make_voice_card_id(task),
            character: match &task.character_ref {
                Some(c) => c.clone(),
                None => text::copy("旁白"),
            },
            text: match &task.text {
                Some(t) => t.clone(),
                None => String::new(),
            },
            emotion: text::copy("neutral"),
            voice_asset: Some(text::copy(filename)),
            target_stem: task.target_stem.clone(),
            prompt: task.prompt.clone(),
        };
        assert(task.text is None ==> card.text@ =~= Seq::<char>::empty());
        metadata.voice_cards.insert(make_voice_card_id(task), card);
    }
}

// ---------------------------------------------------------------------------
// What a binding leaves
// ---------------------------------------------------------------------------

/// A bound task has its file in the scene. Right behind the comment that marks the task
/// stands the command of its kind on the file; nothing else of the scene is changed or
/// moved but to make room. A command that is marked already keeps its place, the
/// command on the earlier file is taken over where it is, and a new one comes behind
/// the comments at the head of the scene, before the markers that end them.
pub proof fn bound_commands_stand_behind_their_marker(
    nodes: Seq<NodeView>,
    task: AssetTaskView,
    filename: Seq<char>,
    kind: CommandType,
) -> (at: int)
    requires
        kind != CommandType::Comment,
    ensures
        ({
            let after = with_command(nodes, task, filename, kind);
            let more = after.len() - nodes.len();
            &&& 0 <= at && at + 1 < after.len() && 0 <= more <= 2
            &&& after[at].cmd_type == CommandType::Comment
            &&& after[at].content == "ollaic-asset-task:"@ + task.id
            &&& after[at + 1].cmd_type == kind
            &&& after[at + 1].content == filename
            &&& after[at + 1].asset == Some(filename)
            &&& forall|j: int| 0 <= j < at ==> #[trigger] after[j] == nodes[j]
            &&& forall|j: int| at + 1 < j < after.len() ==> #[trigger] after[j] == nodes[j - more]
            &&& more == 0 ==> after[at] == nodes[at] && nodes[at + 1].cmd_type == kind
            &&& more == 1 ==> nodes[at].cmd_type == kind && task.asset_file is Some
                && nodes[at].asset == task.asset_file
            &&& more == 2 ==> forall|j: int| 0 <= j < at ==> (#[trigger] nodes[j]).cmd_type
                == CommandType::Comment
            &&& more == 2 && at > 0 ==> !text::begins(
                nodes[at - 1].content,
                "ollaic-asset-task:"@,
            )
            &&& more == 2 ==> exists|f: int|
                at <= f <= nodes.len() && (forall|j: int|
                    at <= j < f ==> (#[trigger] nodes[j]).cmd_type == CommandType::Comment
                        && text::begins(nodes[j].content, "ollaic-asset-task:"@)) && (f
                    < nodes.len() ==> (#[trigger] nodes[f]).cmd_type != CommandType::Comment)
        }),
{
    let p = |n: NodeView| is_comment(n, marker(task.id));
    lemma_first_where_at(nodes, p);
    let m = first_where(nodes, p);
    let after = with_command(nodes, task, filename, kind);
    if m + 1 < nodes.len() && nodes[m + 1].cmd_type == kind {
        assert(p(nodes[m]));
        m
    } else {
        let previous = match task.asset_file {
            Some(prev) => first_where(nodes, |n: NodeView| uses_asset(n, kind, prev)),
            None => nodes.len() as int,
        };
        if task.asset_file is Some {
            let q = |n: NodeView| uses_asset(n, kind, task.asset_file->0);
            lemma_first_where_at(nodes, q);
            if previous < nodes.len() {
                assert(q(nodes[previous]));
            }
        }
        if previous < nodes.len() {
            previous
        } else {
            let head = |n: NodeView| past_head(n, false);
            lemma_first_where_at(nodes, head);
            let f = first_where(nodes, head);
            lemma_before_markers(nodes, f);
            lemma_markers_between(nodes, f);
            let at = insertion_point(nodes);
            assert forall|j: int| 0 <= j < at implies (#[trigger] nodes[j]).cmd_type
                == CommandType::Comment by {
                assert(!head(nodes[j]));
            }
            if f < nodes.len() {
                assert(head(nodes[f]));
                assert(nodes[f].cmd_type != CommandType::Comment);
            }
            assert forall|j: int| at <= j < f implies (#[trigger] nodes[j]).cmd_type
                == CommandType::Comment && text::begins(
                nodes[j].content,
                "ollaic-asset-task:"@,
            ) by {
                assert(marks_a_task(nodes[j]));
            }
            if at > 0 {
                assert(nodes[at - 1].cmd_type == CommandType::Comment);
            }
            at
        }
    }
}

proof fn lemma_markers_between(nodes: Seq<NodeView>, i: int)
    requires
        0 <= i <= nodes.len(),
    ensures
        forall|j: int| before_markers(nodes, i) <= j < i ==> marks_a_task(#[trigger] nodes[j]),
    decreases i,
{
    if i > 0 && marks_a_task(nodes[i - 1]) {
        lemma_markers_between(nodes, i - 1);
    }
}

/// A drawing is put on the card under its emotion: afterwards the first sprite of the
/// emotion has the file and the prompt, every other sprite is as it was, and one is
/// added, at the end, only where the emotion had none.
pub proof fn drawings_are_kept_under_their_emotion(
    sprites: Seq<SpriteView>,
    emotion: Seq<char>,
    file: Seq<char>,
    prompt: Seq<char>,
) -> (at: int)
    ensures
        ({
            let after = with_sprite(sprites, emotion, file, prompt);
            &&& 0 <= at < after.len()
            &&& after[at].emotion == emotion && after[at].file == file && after[at].prompt == Some(
                prompt,
            )
            &&& forall|j: int| 0 <= j < at ==> (#[trigger] sprites[j]).emotion != emotion
            &&& forall|j: int|
                0 <= j < sprites.len() && j != at ==> #[trigger] after[j] == sprites[j]
            &&& after.len() == if at < sprites.len() { sprites.len() } else { sprites.len() + 1 }
            &&& at < sprites.len() ==> sprites[at].emotion == emotion
        }),
    decreases sprites.len(),
{
    let k = sprite_index(sprites, emotion);
    lemma_sprite_index_at(sprites, emotion);
    k
}

proof fn lemma_sprite_index_at(sprites: Seq<SpriteView>, emotion: Seq<char>)
    ensures
        0 <= sprite_index(sprites, emotion) <= sprites.len(),
        forall|j: int|
            0 <= j < sprite_index(sprites, emotion) ==> (#[trigger] sprites[j]).emotion != emotion,
        sprite_index(sprites, emotion) < sprites.len() ==> sprites[sprite_index(
            sprites,
            emotion,
        )].emotion == emotion,
    decreases sprites.len(),
{
    if sprites.len() > 0 && sprites[0].emotion != emotion {
        let t = sprites.drop_first();
        lemma_sprite_index_at(t, emotion);
        assert forall|j: int| 0 <= j < sprite_index(sprites, emotion) implies (
        #[trigger] sprites[j]).emotion != emotion by {
            if j > 0 {
                assert(t[j - 1].emotion != emotion);
            }
        }
    }
}

/// A figure belongs to the first card that its reference is the id or the name of.
pub proof fn figures_belong_to_the_card_they_name(cards: Seq<CharacterView>, reference: Seq<char>)
    ensures
        ({
            let k = card_index(cards, reference);
            &&& 0 <= k <= cards.len()
            &&& forall|j: int|
                0 <= j < k ==> (#[trigger] cards[j]).id != reference && cards[j].name != reference
            &&& k < cards.len() ==> cards[k].id == reference || cards[k].name == reference
        }),
    decreases cards.len(),
{
    if cards.len() > 0 && cards[0].id != reference && cards[0].name != reference {
        let t = cards.drop_first();
        figures_belong_to_the_card_they_name(t, reference);
        assert forall|j: int| 0 <= j < card_index(cards, reference) implies (
        #[trigger] cards[j]).id != reference && cards[j].name != reference by {
            if j > 0 {
                assert(t[j - 1].id != reference);
            }
        }
    }
}

/// In a staged scene a figure is shown where its marker waits for it, and nowhere else:
/// each figure command right behind the marker of the task, written out or held in a
/// comment, shows the file for the character and the emotion, and every other node is
/// as it was.
pub proof fn staged_figures_are_shown_behind_their_marker(
    nodes: Seq<NodeView>,
    parsed: Seq<Option<NodeView>>,
    task_id: Seq<char>,
    filename: Seq<char>,
    character: Seq<char>,
    emotion: Seq<char>,
    j: int,
)
    requires
        0 <= j < nodes.len(),
    ensures
        with_figure(nodes, parsed, task_id, filename, character, emotion).len() == nodes.len(),
        ({
            let after = with_figure(nodes, parsed, task_id, filename, character, emotion)[j];
            let marked = j > 0 && nodes[j - 1].cmd_type == CommandType::Comment && nodes[j
                - 1].content == "ollaic-asset-task:"@ + task_id;
            let held = text::begins(nodes[j].content, "ollaic-figure-staging:"@) && (
            parsed[j] matches Some(n) && n.cmd_type == CommandType::ChangeFigure);
            let direct = nodes[j].cmd_type == CommandType::ChangeFigure;
            if marked && (held || direct) {
                &&& after.cmd_type == CommandType::ChangeFigure
                &&& after.content == filename && after.asset == Some(filename)
                &&& after.figure_character == Some(character)
                &&& after.figure_emotion == Some(emotion)
            } else {
                after == nodes[j]
            }
        }),
{
}

/// Whether a figure finds a place in a staged scene is whether some figure command
/// stands behind its marker.
pub proof fn figures_find_a_place_behind_their_marker(
    nodes: Seq<NodeView>,
    parsed: Seq<Option<NodeView>>,
    task_id: Seq<char>,
    filename: Seq<char>,
    character: Seq<char>,
    emotion: Seq<char>,
)
    ensures
        figure_has_place(nodes, parsed, task_id, filename, character, emotion) <==> exists|j: int|
            0 < j < nodes.len() && nodes[j - 1].cmd_type == CommandType::Comment && nodes[j
                - 1].content == "ollaic-asset-task:"@ + task_id && ((#[trigger] nodes[j]).cmd_type
                == CommandType::ChangeFigure || (text::begins(
                nodes[j].content,
                "ollaic-figure-staging:"@,
            ) && parsed[j] is Some && parsed[j]->0.cmd_type == CommandType::ChangeFigure)),
{
    if exists|j: int|
        0 < j < nodes.len() && nodes[j - 1].cmd_type == CommandType::Comment && nodes[j
            - 1].content == "ollaic-asset-task:"@ + task_id && ((#[trigger] nodes[j]).cmd_type
            == CommandType::ChangeFigure || (text::begins(
            nodes[j].content,
            "ollaic-figure-staging:"@,
        ) && parsed[j] is Some && parsed[j]->0.cmd_type == CommandType::ChangeFigure)) {
        let j = choose|j: int|
            0 < j < nodes.len() && nodes[j - 1].cmd_type == CommandType::Comment && nodes[j
                - 1].content == "ollaic-asset-task:"@ + task_id && ((#[trigger] nodes[j]).cmd_type
                == CommandType::ChangeFigure || (text::begins(
                nodes[j].content,
                "ollaic-figure-staging:"@,
            ) && parsed[j] is Some && parsed[j]->0.cmd_type == CommandType::ChangeFigure));
        assert(behind_marker(nodes, j, task_id));
    }
    if figure_has_place(nodes, parsed, task_id, filename, character, emotion) {
        let j = choose|j: int|
            #[trigger] behind_marker(nodes, j, task_id) && figure_bound(
                nodes[j],
                parsed[j],
                filename,
                character,
                emotion,
            ).cmd_type == CommandType::ChangeFigure;
        assert(0 < j < nodes.len());
        assert(nodes[j].cmd_type == CommandType::ChangeFigure || (text::begins(
            nodes[j].content,
            "ollaic-figure-staging:"@,
        ) && parsed[j] is Some && parsed[j]->0.cmd_type == CommandType::ChangeFigure));
    }
}

/// In a scene without staging a figure enters with its character: the one command on
/// the file is put right before the first line that the character speaks, or, where
/// the task names the scene and the character is silent in it, behind the head of the
/// scene. A scene that shows the file already, or neither is named nor lets the
/// character speak, is left as it is.
pub proof fn figures_enter_with_their_character(
    nodes: Seq<NodeView>,
    parsed: Seq<Option<NodeView>>,
    task: AssetTaskView,
    character: Seq<char>,
    name: Seq<char>,
    filename: Seq<char>,
    explicit: bool,
) -> (at: int)
    requires
        forall|j: int|
            0 <= j < nodes.len() ==> !((#[trigger] nodes[j]).cmd_type == CommandType::Comment
                && nodes[j].content == "Ollaic Scene Staging"@),
    ensures
        ({
            let (outcome, after) = figure_outcome(
                nodes,
                parsed,
                task,
                character,
                name,
                filename,
                explicit,
            );
            let shown = exists|j: int|
                0 <= j < nodes.len() && (#[trigger] nodes[j]).cmd_type == CommandType::ChangeFigure
                    && nodes[j].asset == Some(filename);
            let speaks = exists|j: int|
                0 <= j < nodes.len() && (#[trigger] nodes[j]).cmd_type == CommandType::Dialogue
                    && nodes[j].character == Some(name);
            if shown || !(speaks || explicit) {
                outcome == FigureScene::Unchanged && after == nodes
            } else {
                &&& outcome == FigureScene::Changed
                &&& 0 <= at <= nodes.len()
                &&& after == nodes.insert(at, after[at])
                &&& after[at].cmd_type == CommandType::ChangeFigure
                &&& after[at].asset == Some(filename)
                &&& speaks ==> at < nodes.len() && nodes[at].cmd_type == CommandType::Dialogue
                    && nodes[at].character == Some(name) && forall|j: int|
                    0 <= j < at ==> !((#[trigger] nodes[j]).cmd_type == CommandType::Dialogue
                        && nodes[j].character == Some(name))
                &&& !speaks ==> forall|j: int|
                    0 <= j < at ==> (#[trigger] nodes[j]).cmd_type == CommandType::Comment
                        || nodes[j].cmd_type == CommandType::Intro
                &&& !speaks && at < nodes.len() ==> nodes[at].cmd_type != CommandType::Comment
                    && nodes[at].cmd_type != CommandType::Intro
            }
        }),
{
    let staging = |n: NodeView| is_comment(n, "Ollaic Scene Staging"@);
    let speaking = |n: NodeView| spoken_by(n, name);
    let showing = |n: NodeView| uses_asset(n, CommandType::ChangeFigure, filename);
    let past = |n: NodeView| past_head(n, true);
    lemma_first_where_at(nodes, staging);
    lemma_first_where_at(nodes, speaking);
    lemma_first_where_at(nodes, showing);
    lemma_first_where_at(nodes, past);
    let s = first_where(nodes, staging);
    if s < nodes.len() {
        assert(staging(nodes[s]));
        assert(nodes[s].cmd_type == CommandType::Comment);
    }
    let line = first_where(nodes, speaking);
    let there = first_where(nodes, showing);
    if line < nodes.len() {
        assert(speaking(nodes[line]));
        assert(nodes[line].cmd_type == CommandType::Dialogue);
    }
    if there < nodes.len() {
        assert(showing(nodes[there]));
        assert(nodes[there].cmd_type == CommandType::ChangeFigure);
    }
    assert forall|j: int| 0 <= j < line implies !((#[trigger] nodes[j]).cmd_type
        == CommandType::Dialogue && nodes[j].character == Some(name)) by {
        assert(!speaking(nodes[j]));
    }
    assert forall|j: int| 0 <= j < there implies !((#[trigger] nodes[j]).cmd_type
        == CommandType::ChangeFigure && nodes[j].asset == Some(filename)) by {
        assert(!showing(nodes[j]));
    }
    let head = first_where(nodes, past);
    assert forall|j: int| 0 <= j < head implies (#[trigger] nodes[j]).cmd_type
        == CommandType::Comment || nodes[j].cmd_type == CommandType::Intro by {
        assert(!past(nodes[j]));
    }
    if head < nodes.len() {
        assert(past(nodes[head]));
    }
    let at = entrance(nodes, name);
    let after = figure_outcome(nodes, parsed, task, character, name, filename, explicit).1;
    if after != nodes {
        assert(after[at] == asset_view(task.id, CommandType::ChangeFigure, filename));
    }
    at
}

/// A voice is given to the line that was counted: the spoken lines of a scene are
/// numbered from zero in their order, and the number finds the line there.
pub proof fn lines_are_found_by_their_number(nodes: Seq<NodeView>, at: Seq<int>, k: int)
    requires
        forall|i: int|
            0 <= i < at.len() ==> 0 <= #[trigger] at[i] < nodes.len() && (nodes[at[i]].cmd_type
                == CommandType::Dialogue || nodes[at[i]].cmd_type == CommandType::Narrator),
        forall|i: int, j: int| 0 <= i < j < at.len() ==> #[trigger] at[i] < #[trigger] at[j],
        forall|j: int|
            0 <= j < nodes.len() && ((#[trigger] nodes[j]).cmd_type == CommandType::Dialogue
                || nodes[j].cmd_type == CommandType::Narrator) ==> at.contains(j),
        0 <= k,
    ensures
        k < at.len() ==> nth_spoken(nodes, k) == at[k],
        k >= at.len() ==> nth_spoken(nodes, k) == nodes.len(),
    decreases nodes.len(),
{
    if nodes.len() == 0 {
        if at.len() > 0 {
            assert(0 <= at[0] < nodes.len());
        }
    } else {
        let t = nodes.drop_first();
        let first = spoken(nodes[0]);
        let rest = if first {
            at.drop_first()
        } else {
            at
        };
        let down = rest.map_values(|i: int| i - 1);
        if first {
            let z = choose|z: int| 0 <= z < at.len() && at[z] == 0;
            if z > 0 {
                assert(at[0] < at[z]);
            }
            assert(at[0] == 0);
        }
        assert forall|i: int| 0 <= i < down.len() implies 0 <= #[trigger] down[i] < t.len() && (
        t[down[i]].cmd_type == CommandType::Dialogue || t[down[i]].cmd_type
            == CommandType::Narrator) by {
            if first {
                assert(at[0] < at[i + 1]);
                assert(down[i] == at[i + 1] - 1);
                assert(t[down[i]] == nodes[at[i + 1]]);
            } else {
                assert(down[i] == at[i] - 1);
                assert(at[i] != 0);
                assert(t[down[i]] == nodes[at[i]]);
            }
        }
        assert forall|i: int, j: int| 0 <= i < j < down.len() implies #[trigger] down[i]
            < #[trigger] down[j] by {
            if first {
                assert(at[i + 1] < at[j + 1]);
            } else {
                assert(at[i] < at[j]);
            }
        }
        assert forall|j: int|
            0 <= j < t.len() && ((#[trigger] t[j]).cmd_type == CommandType::Dialogue
                || t[j].cmd_type == CommandType::Narrator) implies down.contains(j) by {
            assert(nodes[j + 1] == t[j]);
            let z = choose|z: int| 0 <= z < at.len() && at[z] == j + 1;
            if first {
                assert(down[z - 1] == j);
            } else {
                assert(down[z] == j);
            }
        }
        if first {
            if k > 0 {
                lines_are_found_by_their_number(t, down, k - 1);
                if k < at.len() {
                    assert(down[k - 1] == at[k] - 1);
                }
            }
        } else {
            lines_are_found_by_their_number(t, down, k);
            if k < at.len() {
                assert(down[k] == at[k] - 1);
            }
        }
    }
}

/// No two of the file names that are tried for a task are the same, and each begins
/// with its stem and ends with its extension.
pub proof fn file_names_to_try_differ(task: AssetTaskView, extension: Seq<char>, k: nat, l: nat)
    ensures
        text::begins(target_candidate(task, extension, k), task.target_stem),
        text::ends(target_candidate(task, extension, k), "."@ + extension),
        k != l ==> target_candidate(task, extension, k) != target_candidate(task, extension, l),
        target_candidate(task, extension, 0) == task.target_stem + "."@ + extension,
{
    let name = target_candidate(task, extension, k);
    reveal_strlit(".");
    reveal_strlit("-");
    let end = "."@ + extension;
    assert(name.subrange(0, task.target_stem.len() as int) =~= task.target_stem);
    assert(name.subrange(name.len() - end.len(), name.len() as int) =~= end);
    if k != l {
        text::decimals_are_digits_without_leading_zeros(k);
        text::decimals_are_digits_without_leading_zeros(l);
        let other = target_candidate(task, extension, l);
        if name == other && k > 1 && l > 1 {
            let from = task.target_stem.len() + 1 + task.id.len() + 1;
            assert(text::decimal(k).len() == text::decimal(l).len());
            assert(name.subrange(from as int, (from + text::decimal(k).len()) as int) =~= text::decimal(k));
            assert(other.subrange(from as int, (from + text::decimal(l).len()) as int) =~= text::decimal(l));
            text::decimals_can_be_read(k);
            text::decimals_can_be_read(l);
        }
    }
}

/// A figure is see-through where one of its pixels is, by its fourth byte.
pub proof fn figures_are_judged_by_alpha(pixels: Seq<u8>, k: int)
    requires
        0 <= k,
        4 * k + 3 < pixels.len(),
    ensures
        pixels[4 * k + 3] < 255 ==> see_through(pixels),
        (forall|j: int| 0 <= j && 4 * j + 3 < pixels.len() ==> pixels[#[trigger] (4 * j) + 3] == 255)
            ==> !see_through(pixels),
{
    if forall|j: int| 0 <= j && 4 * j + 3 < pixels.len() ==> pixels[#[trigger] (4 * j) + 3] == 255 {
        assert forall|j: int| 0 <= j && 4 * j + 3 < pixels.len() implies #[trigger] pixels[4 * j
            + 3] >= 255 by {
            assert(pixels[(4 * j) + 3] == 255);
        }
    }
}

/// Each kind of media has its own command: a background changes the background, a theme
/// is played as music, an effect as an effect; figures and voices are bound by card.
pub proof fn kinds_have_their_own_command(kind: AssetKind)
    ensures
        way_of(kind) == BindingWay::Command(CommandType::ChangeBg) <==> kind
            == AssetKind::Background,
        way_of(kind) == BindingWay::Command(CommandType::Bgm) <==> kind == AssetKind::Bgm,
        way_of(kind) == BindingWay::Command(CommandType::PlayEffect) <==> kind == AssetKind::Sfx,
        way_of(kind) == BindingWay::Figure <==> kind == AssetKind::Figure,
        way_of(kind) == BindingWay::Voice <==> kind == AssetKind::Tts,
{
}

/// The card of a voice is named after its scene and the number of its line, whether the
/// scene is referred to by its id or by its file; so lines of a scene have different
/// cards.
pub proof fn voice_cards_are_named_after_their_line(
    task: AssetTaskView,
    other: AssetTaskView,
    scene: Seq<char>,
    line: usize,
    number: usize,
)
    requires
        !text::ends(scene, ".txt"@),
        task.scene_ref == Some(scene) || task.scene_ref == Some(scene + ".txt"@),
        task.dialogue_index == Some(line),
        other.scene_ref == task.scene_ref,
        other.dialogue_index == Some(number),
    ensures
        voice_card_id(task) == "voice_"@ + scene + "_"@ + text::decimal(line as nat),
        line != number ==> voice_card_id(task) != voice_card_id(other),
{
    lemma_without_txt(scene);
    let head = "voice_"@ + scene + "_"@;
    if line != number && voice_card_id(task) == voice_card_id(other) {
        let a = text::decimal(line as nat);
        let b = text::decimal(number as nat);
        assert((head + a).skip(head.len() as int) =~= a);
        assert((head + b).skip(head.len() as int) =~= b);
        text::decimals_can_be_read(line as nat);
        text::decimals_can_be_read(number as nat);
    }
}

proof fn lemma_without_txt(s: Seq<char>)
    requires
        !text::ends(s, ".txt"@),
    ensures
        without_txt(s) == s,
        without_txt(s + ".txt"@) == s,
{
    reveal_strlit(".txt");
    let long = s + ".txt"@;
    text::parts_of_a_text_are_found(s, ".txt"@, Seq::empty(), long);
    assert(long.take(long.len() - ".txt"@.len()) =~= s);
}

/// The cards that a binding records show the file that was bound, and name the task's
/// own prompt, stem and line.
pub proof fn recorded_cards_show_the_bound_file(
    scene: SceneAssetCard,
    voice: VoiceAssetCard,
    task: AssetTask,
    filename: Seq<char>,
)
    requires
        is_scene_card(scene, task, filename),
        is_voice_card(voice, task, filename),
    ensures
        scene.image_asset matches Some(file) && file@ == filename,
        scene.id@ == task.id@ && scene.target_stem@ == task.target_stem@ && scene.prompt@
            == task.prompt@ && scene.scene_file == task.scene_ref,
        voice.voice_asset matches Some(file) && file@ == filename,
        voice.target_stem@ == task.target_stem@ && voice.prompt@ == task.prompt@,
        task.text matches Some(line) ==> voice.text@ == line@,
        task.character_ref matches Some(who) ==> voice.character@ == who@,
        task.text is None ==> voice.text@ == Seq::<char>::empty(),
        task.character_ref is None ==> voice.character@ == "旁白"@,
        voice.id@ == voice_card_id(task@),
        voice.emotion@ == "neutral"@,
{
}

/// A bound file is recorded under the directory of its kind.
pub proof fn files_are_recorded_under_their_directory(kind: AssetKind, filename: Seq<char>)
    ensures
        file_key(kind, filename) == types::dir_of_kind(kind) + "/"@ + filename,
        text::ends(file_key(kind, filename), "/"@ + filename),
{
    let head = types::dir_of_kind(kind);
    assert(head + "/"@ + filename =~= head + ("/"@ + filename));
    text::parts_of_a_text_are_found(head, "/"@ + filename, Seq::empty(), filename);
}

/// A scene file is named once: with `.txt` at its end, whether the reference has it or
/// not.
pub proof fn scene_files_end_in_txt_once(name: Seq<char>)
    ensures
        text::ends(scene_file_of(name), ".txt"@),
        scene_file_of(scene_file_of(name)) == scene_file_of(name),
        text::begins(scene_file_of(name), name),
{
    text::parts_of_a_text_are_found(name, ".txt"@, Seq::empty(), name);
    text::parts_of_a_text_are_found(Seq::empty(), name, ".txt"@, name);
    assert(name.subrange(0, name.len() as int) =~= name);
}

/// A scene already gives a file to a task where the marker of the task stands right
/// before a command on it.
pub proof fn marked_files_are_owned(
    nodes: Seq<NodeView>,
    task_id: Seq<char>,
    filename: Seq<char>,
)
    ensures
        owns_file(nodes, task_id, filename) <==> exists|i: int|
            0 < i < nodes.len() && nodes[i - 1].cmd_type == CommandType::Comment && nodes[i
                - 1].content == "ollaic-asset-task:"@ + task_id && (#[trigger] nodes[i]).asset
                == Some(filename),
{
    if owns_file(nodes, task_id, filename) {
        let i = choose|i: int|
            0 <= i && i + 1 < nodes.len() && #[trigger] is_comment(nodes[i], marker(task_id))
                && nodes[i + 1].asset == Some(filename);
        assert(nodes[i + 1].asset == Some(filename));
    }
    if exists|i: int|
        0 < i < nodes.len() && nodes[i - 1].cmd_type == CommandType::Comment && nodes[i - 1].content
            == "ollaic-asset-task:"@ + task_id && (#[trigger] nodes[i]).asset == Some(filename) {
        let i = choose|i: int|
            0 < i < nodes.len() && nodes[i - 1].cmd_type == CommandType::Comment && nodes[i
                - 1].content == "ollaic-asset-task:"@ + task_id && (#[trigger] nodes[i]).asset
                == Some(filename);
        assert(is_comment(nodes[i - 1], marker(task_id)));
    }
}

/// A name stands alone where it is one part of a path and holds no backslash: without a slash, where
/// it is not empty; and two names with a slash between them do not.
pub proof fn lone_names_are_one_part(name: Seq<char>, other: Seq<char>)
    requires
        !name.contains('/'),
    ensures
        lone_name(name) <==> name.len() > 0 && !name.contains('\\'),
        paths::plain_name(name) && paths::plain_name(other) ==> !lone_name(
            name + seq!['/'] + other,
        ),
{
    paths::paths_are_read_by_their_names(name, other, name);
    if name.len() == 0 {
        assert(name =~= Seq::<char>::empty());
    }
    paths::plain_names_have_no_separator(name);
    paths::plain_names_have_no_separator(other);
    if paths::plain_name(name) && paths::plain_name(other) {
        paths::paths_are_read_by_their_names(name, other, other);
        reveal_strlit(".");
        assert("."@ =~= seq!['.']);
        assert(paths::names(name).len() == 1 && paths::names(other).len() == 1);
    }
}

/// An extension is safe where it is made of ASCII letters and digits.
pub proof fn safe_extensions_are_alphanumeric(s: Seq<char>)
    ensures
        all_alphanumeric(s) <==> forall|i: int|
            0 <= i < s.len() ==> ('a' <= #[trigger] s[i] <= 'z' || 'A' <= s[i] <= 'Z' || '0' <= s[i]
                <= '9'),
{
    if all_alphanumeric(s) {
        assert forall|i: int| 0 <= i < s.len() implies ('a' <= #[trigger] s[i] <= 'z' || 'A' <= s[i]
            <= 'Z' || '0' <= s[i] <= '9') by {
            assert(text::ascii_alphanumeric(s[i]));
        }
    }
}

} // verus!
