//! Publishing a batch of spoken lines: every file and the metadata, or nothing.
//!
//! The batch is checked before anything is written; the caller does each step in
//! a transaction, reports what came of it, and rolls back where a step failed.
use vstd::prelude::*;

use crate::agents::router;
use crate::asset_queue::transaction;
use crate::assets::{AssetMetadata, VoiceAssetCard};
use crate::json_store;
use crate::paths;
use crate::story_plan;
use crate::text;

verus! {

broadcast use vstd::string::group_string_axioms;

/// A spoken line, ready to be published.
#[derive(Debug, PartialEq, Eq)]
pub struct PreparedVoiceAsset {
    pub voice_card_id: String,
    pub filename: String,
    pub bytes: Vec<u8>,
}

impl PreparedVoiceAsset {
    pub fn new(voice_card_id: String, filename: String, bytes: Vec<u8>) -> (r: PreparedVoiceAsset)
        ensures
            r.voice_card_id == voice_card_id,
            r.filename == filename,
            r.bytes == bytes,
    {
        PreparedVoiceAsset { voice_card_id, filename, bytes }
    }
}

/// Whether a file name is one of a single file.
pub open spec fn publishable(filename: Seq<char>) -> bool {
    paths::plain_name(filename) && !filename.contains('\\')
}

/// The file names of a batch.
pub open spec fn filenames(assets: Seq<PreparedVoiceAsset>) -> Seq<Seq<char>> {
    assets.map_values(|a: PreparedVoiceAsset| a.filename@)
}

/// The names in lower case.
pub open spec fn lowered(names: Seq<Seq<char>>) -> Seq<Seq<char>> {
    names.map_values(|s: Seq<char>| text::lowercase(s))
}

/// Whether the name at `i` is that of an earlier one, in lower case.
pub open spec fn repeats(lower: Seq<Seq<char>>, i: int) -> bool {
    exists|j: int| 0 <= j < i && #[trigger] lower[j] == lower[i]
}

/// Why a batch may not be published, if it may not: the first name that is not
/// one file's, or that an earlier one has too.
pub open spec fn batch_fault(names: Seq<Seq<char>>, lower: Seq<Seq<char>>, n: int) -> Option<
    Seq<char>,
>
    decreases n,
{
    if n <= 0 {
        None
    } else {
        match batch_fault(names, lower, n - 1) {
            Some(m) => Some(m),
            None => if !publishable(names[n - 1]) {
                Some("invalid generated asset filename: "@ + names[n - 1])
            } else if repeats(lower, n - 1) {
                Some("duplicate batch TTS target: "@ + names[n - 1])
            } else {
                None
            },
        }
    }
}

proof fn lemma_batch_fault(names: Seq<Seq<char>>, lower: Seq<Seq<char>>, k: int, n: int)
    requires
        0 <= k <= n,
        batch_fault(names, lower, k) is Some,
    ensures
        batch_fault(names, lower, n) == batch_fault(names, lower, k),
    decreases n - k,
{
    if k < n {
        lemma_batch_fault(names, lower, k + 1, n);
    }
}

/// Checks a batch, given its names in lower case.
pub fn validate_lowered(assets: &[PreparedVoiceAsset], lower: &Vec<String>) -> (r: Result<(), String>)
    requires
        lower@.len() == assets@.len(),
    ensures
        match (r, batch_fault(filenames(assets@), text::texts(lower@), assets@.len() as int)) {
            (Ok(_), None) => true,
            (Err(m), Some(e)) => m@ == e,
            _ => false,
        },
{
    let ghost names = filenames(assets@);
    let ghost small = text::texts(lower@);
    let n = assets.len();
    let mut i: usize = 0;
    while i < n
        invariant
            i <= n,
            n == assets@.len(),
            lower@.len() == n,
            names == filenames(assets@),
            small == text::texts(lower@),
            batch_fault(names, small, i as int) is None,
        decreases n - i,
    {
        let filename = assets[i].filename.as_str();
        assert(names[i as int] == filename@);
        if !paths::is_plain_name(filename) || text::contains_char(filename, '\\') {
            proof {
                lemma_batch_fault(names, small, i + 1, n as int);
            }
            return Err(router::joined("invalid generated asset filename: ", filename));
        }
        let mut j: usize = 0;
        while j < i
            invariant
                j <= i < n,
                n == assets@.len(),
                lower@.len() == n,
                names == filenames(assets@),
                names[i as int] == filename@,
                publishable(filename@),
                small == text::texts(lower@),
                batch_fault(names, small, i as int) is None,
                forall|k: int| 0 <= k < j ==> #[trigger] small[k] != small[i as int],
            decreases i - j,
        {
            assert(small[j as int] == lower@[j as int]@);
            assert(small[i as int] == lower@[i as int]@);
            if text::same(lower[j].as_str(), lower[i].as_str()) {
                proof {
                    assert(repeats(small, i as int));
                    lemma_batch_fault(names, small, i + 1, n as int);
                }
                return Err(router::joined("duplicate batch TTS target: ", filename));
            }
            j += 1;
        }
        i += 1;
    }
    Ok(())
}

fn list_lowered(assets: &[PreparedVoiceAsset]) -> (r: Vec<String>)
    ensures
        text::texts(r@) == lowered(filenames(assets@)),
        r@.len() == assets@.len(),
{
    let ghost all = lowered(filenames(assets@));
    let mut out: Vec<String> = Vec::new();
    let mut i: usize = 0;
    assert(text::texts(out@) =~= all.take(0));
    while i < assets.len()
        invariant
            i <= assets.len(),
            all == lowered(filenames(assets@)),
            text::texts(out@) == all.take(i as int),
            out@.len() == i,
        decreases assets.len() - i,
    {
        let ghost before = text::texts(out@);
        let lower = text::to_lowercase(assets[i].filename.as_str());
        out.push(lower);
        assert(text::texts(out@) =~= before.push(lower@));
        assert(all.take(i + 1) =~= all.take(i as int).push(lower@));
        i += 1;
    }
    assert(all.take(all.len() as int) =~= all);
    out
}

/// Why a batch may not be published, if it may not.
pub open spec fn fault_of(assets: Seq<PreparedVoiceAsset>) -> Option<Seq<char>> {
    batch_fault(filenames(assets), lowered(filenames(assets)), assets.len() as int)
}

/// Checks a batch.
pub fn validate_batch(assets: &[PreparedVoiceAsset]) -> (r: Result<(), String>)
    ensures
        match (r, fault_of(assets@)) {
            (Ok(_), None) => true,
            (Err(m), Some(e)) => m@ == e,
            _ => false,
        },
{
    let lower = list_lowered(assets);
    validate_lowered(assets, &lower)
}

proof fn lemma_batch_sound(names: Seq<Seq<char>>, lower: Seq<Seq<char>>, n: int, i: int)
    requires
        0 <= i < n <= names.len(),
        batch_fault(names, lower, n) is None,
    ensures
        publishable(names[i]),
        !repeats(lower, i),
    decreases n,
{
    if i < n - 1 {
        lemma_batch_sound(names, lower, n - 1, i);
    }
}

/// A batch that passes holds names of single files, no two of which differ in
/// letter case alone.
pub proof fn checked_batches_are_distinct(names: Seq<Seq<char>>)
    requires
        batch_fault(names, lowered(names), names.len() as int) is None,
    ensures
        forall|i: int| 0 <= i < names.len() ==> publishable(#[trigger] names[i]),
        forall|i: int, j: int|
            0 <= i < names.len() && 0 <= j < names.len() && i != j ==> text::lowercase(
                #[trigger] names[i],
            ) != text::lowercase(#[trigger] names[j]),
{
    let n = names.len() as int;
    let lower = lowered(names);
    assert forall|i: int| 0 <= i < names.len() implies publishable(#[trigger] names[i]) by {
        lemma_batch_sound(names, lower, n, i);
    }
    assert forall|i: int, j: int|
        0 <= i < names.len() && 0 <= j < names.len() && i != j implies text::lowercase(
        #[trigger] names[i],
    ) != text::lowercase(#[trigger] names[j]) by {
        lemma_batch_sound(names, lower, n, i);
        lemma_batch_sound(names, lower, n, j);
        if lower[i] == lower[j] {
            if i < j {
                assert(repeats(lower, j));
            } else {
                assert(repeats(lower, i));
            }
        }
    }
}

/// Whether a file of this name, but for letter case, is there.
pub open spec fn collides(existing: Seq<Seq<char>>, filename: Seq<char>) -> bool {
    exists|j: int|
        0 <= j < existing.len() && text::lowercase(#[trigger] existing[j])
            == text::lowercase(filename)
}

/// Whether a batch may be published among files and cards that are there.
pub open spec fn publish_clear(
    assets: Seq<PreparedVoiceAsset>,
    existing: Seq<Seq<char>>,
    metadata: AssetMetadata,
) -> bool {
    &&& forall|i: int|
        0 <= i < assets.len() ==> !collides(existing, (#[trigger] assets[i]).filename@)
    &&& forall|i: int|
        0 <= i < assets.len() ==> metadata.voice_cards@.dom().contains(
            (#[trigger] assets[i]).voice_card_id@,
        )
}

fn has_collision(existing: &Vec<String>, filename: &str) -> (r: bool)
    ensures
        r == collides(text::texts(existing@), filename@),
{
    let lower = text::to_lowercase(filename);
    let mut i: usize = 0;
    while i < existing.len()
        invariant
            i <= existing.len(),
            lower@ == text::lowercase(filename@),
            forall|j: int|
                0 <= j < i ==> text::lowercase(#[trigger] text::texts(existing@)[j])
                    != lower@,
        decreases existing.len() - i,
    {
        let name = text::to_lowercase(existing[i].as_str());
        assert(text::texts(existing@)[i as int] == existing@[i as int]@);
        if text::same(name.as_str(), lower.as_str()) {
            return true;
        }
        i += 1;
    }
    false
}

/// The message of the first file from `i` on that would overwrite another.
pub open spec fn collision_from(
    assets: Seq<PreparedVoiceAsset>,
    existing: Seq<Seq<char>>,
    i: int,
) -> Option<Seq<char>>
    decreases assets.len() - i,
{
    if i >= assets.len() {
        None
    } else if collides(existing, assets[i].filename@) {
        Some("batch TTS target already exists: "@ + assets[i].filename@)
    } else {
        collision_from(assets, existing, i + 1)
    }
}

/// The message of the first card from `i` on that is not there.
pub open spec fn stray_from(
    assets: Seq<PreparedVoiceAsset>,
    cards: Map<Seq<char>, VoiceAssetCard>,
    i: int,
) -> Option<Seq<char>>
    decreases assets.len() - i,
{
    if i >= assets.len() {
        None
    } else if !cards.dom().contains(assets[i].voice_card_id@) {
        Some("voice card does not exist: "@ + assets[i].voice_card_id@)
    } else {
        stray_from(assets, cards, i + 1)
    }
}

/// Why a batch may not be published among what is there, if it may not.
pub open spec fn publish_fault(
    assets: Seq<PreparedVoiceAsset>,
    existing: Seq<Seq<char>>,
    metadata: AssetMetadata,
) -> Option<Seq<char>> {
    match collision_from(assets, existing, 0) {
        Some(m) => Some(m),
        None => stray_from(assets, metadata.voice_cards@, 0),
    }
}

proof fn lemma_publish_clear(
    assets: Seq<PreparedVoiceAsset>,
    existing: Seq<Seq<char>>,
    metadata: AssetMetadata,
    i: int,
)
    requires
        0 <= i <= assets.len(),
    ensures
        collision_from(assets, existing, i) is None <==> forall|k: int|
            i <= k < assets.len() ==> !collides(existing, (#[trigger] assets[k]).filename@),
        stray_from(assets, metadata.voice_cards@, i) is None <==> forall|k: int|
            i <= k < assets.len() ==> metadata.voice_cards@.dom().contains(
                (#[trigger] assets[k]).voice_card_id@,
            ),
    decreases assets.len() - i,
{
    if i < assets.len() {
        lemma_publish_clear(assets, existing, metadata, i + 1);
    }
}

/// Checks, before anything is published, that no file would be overwritten and
/// that every card is there.
pub fn check_publish(
    assets: &[PreparedVoiceAsset],
    existing: &Vec<String>,
    metadata: &AssetMetadata,
) -> (r: Result<(), String>)
    ensures
        json_store::fault(r) == publish_fault(assets@, text::texts(existing@), *metadata),
        r is Ok <==> publish_clear(assets@, text::texts(existing@), *metadata),
{
    let ghost names = text::texts(existing@);
    proof {
        lemma_publish_clear(assets@, names, *metadata, 0);
    }
    let mut i: usize = 0;
    while i < assets.len()
        invariant
            i <= assets.len(),
            names == text::texts(existing@),
            collision_from(assets@, names, 0) == collision_from(assets@, names, i as int),
            collision_from(assets@, names, 0) is None <==> forall|k: int|
                0 <= k < assets@.len() ==> !collides(names, (#[trigger] assets@[k]).filename@),
        decreases assets.len() - i,
    {
        if has_collision(existing, assets[i].filename.as_str()) {
            return Err(
                router::joined("batch TTS target already exists: ", assets[i].filename.as_str()),
            );
        }
        i += 1;
    }
    let mut k: usize = 0;
    while k < assets.len()
        invariant
            k <= assets.len(),
            names == text::texts(existing@),
            collision_from(assets@, names, 0) is None,
            stray_from(assets@, metadata.voice_cards@, 0) == stray_from(
                assets@,
                metadata.voice_cards@,
                k as int,
            ),
            stray_from(assets@, metadata.voice_cards@, 0) is None <==> forall|k: int|
                0 <= k < assets@.len() ==> metadata.voice_cards@.dom().contains(
                    (#[trigger] assets@[k]).voice_card_id@,
                ),
        decreases assets.len() - k,
    {
        if !metadata.voice_cards.contains_key(assets[k].voice_card_id.as_str()) {
            return Err(
                router::joined("voice card does not exist: ", assets[k].voice_card_id.as_str()),
            );
        }
        k += 1;
    }
    Ok(())
}

/// Whether a tag says how far an asset has come or where it is from.
pub open spec fn provenance(tag: Seq<char>) -> bool {
    text::begins(tag, "status:"@) || text::begins(tag, "source:"@)
}

/// The other tags.
pub open spec fn other_tags(tags: Seq<Seq<char>>) -> Seq<Seq<char>>
    decreases tags.len(),
{
    if tags.len() == 0 {
        Seq::empty()
    } else if provenance(tags.last()) {
        other_tags(tags.drop_last())
    } else {
        other_tags(tags.drop_last()).push(tags.last())
    }
}

/// The tags of an asset that was made here: the others stay.
pub open spec fn published_tags(tags: Seq<Seq<char>>) -> Seq<Seq<char>> {
    other_tags(tags).push("status:done"@).push("source:ai"@)
}

/// The tags of a key, none where it has none.
pub open spec fn tags_at(m: Map<Seq<char>, Vec<String>>, key: Seq<char>) -> Seq<Seq<char>> {
    if m.dom().contains(key) {
        text::texts(m[key]@)
    } else {
        Seq::empty()
    }
}

fn retag(tags: Option<&Vec<String>>) -> (r: Vec<String>)
    ensures
        text::texts(r@) == published_tags(
            match tags {
                Some(v) => text::texts(v@),
                None => Seq::empty(),
            },
        ),
{
    let mut out: Vec<String> = Vec::new();
    assert(text::texts(out@) =~= Seq::<Seq<char>>::empty());
    match tags {
        Some(v) => {
            let ghost all = text::texts(v@);
            let mut i: usize = 0;
            while i < v.len()
                invariant
                    i <= v.len(),
                    all == text::texts(v@),
                    text::texts(out@) == other_tags(all.take(i as int)),
                decreases v.len() - i,
            {
                let tag = v[i].as_str();
                proof {
                    assert(all.take(i + 1).drop_last() =~= all.take(i as int));
                    assert(all.take(i + 1).last() == tag@);
                }
                if !text::starts_with(tag, "status:") && !text::starts_with(tag, "source:") {
                    let ghost before = text::texts(out@);
                    out.push(text::copy(tag));
                    assert(text::texts(out@) =~= before.push(tag@));
                }
                i += 1;
            }
            assert(all.take(all.len() as int) =~= all);
        },
        None => {},
    }
    let ghost others = text::texts(out@);
    out.push(text::copy("status:done"));
    out.push(text::copy("source:ai"));
    assert(text::texts(out@) =~= others.push("status:done"@).push("source:ai"@));
    out
}

/// The key of a voice's tags.
pub open spec fn voice_tag_key(card: VoiceAssetCard) -> Seq<char> {
    "vocal/"@ + card.target_stem@
}

/// Whether a card is another with its file set.
pub open spec fn voiced(after: VoiceAssetCard, before: VoiceAssetCard, filename: Seq<char>) -> bool {
    &&& after.id == before.id
    &&& after.character == before.character
    &&& after.text == before.text
    &&& after.emotion == before.emotion
    &&& story_plan::opt_text(after.voice_asset) == Some(filename)
    &&& after.target_stem == before.target_stem
    &&& after.prompt == before.prompt
}

/// Whether `after` is `before` with a line recorded: its card has the file, its
/// tags say that it is done, and nothing else differs.
pub open spec fn records(
    after: AssetMetadata,
    before: AssetMetadata,
    asset: PreparedVoiceAsset,
) -> bool {
    let id = asset.voice_card_id@;
    let key = voice_tag_key(before.voice_cards@[id]);
    &&& after.voice_cards@ == before.voice_cards@.insert(id, after.voice_cards@[id])
    &&& voiced(after.voice_cards@[id], before.voice_cards@[id], asset.filename@)
    &&& after.tags@ == before.tags@.insert(key, after.tags@[key])
    &&& tags_at(after.tags@, key) == published_tags(tags_at(before.tags@, key))
    &&& after.aliases == before.aliases
    &&& after.descriptions == before.descriptions
    &&& after.references == before.references
    &&& after.scene_cards == before.scene_cards
    &&& after.cg_cards == before.cg_cards
    &&& after.deleted_scene_cards == before.deleted_scene_cards
    &&& after.deleted_cg_cards == before.deleted_cg_cards
    &&& after.deleted_voice_cards == before.deleted_voice_cards
}

/// Records a line whose file was published.
pub fn record_published(metadata: &mut AssetMetadata, asset: &PreparedVoiceAsset)
    requires
        old(metadata).voice_cards@.dom().contains(asset.voice_card_id@),
    ensures
        records(*final(metadata), *old(metadata), *asset),
{
    let mut card: Option<VoiceAssetCard> = None;
    match metadata.voice_cards.get(asset.voice_card_id.as_str()) {
        Some(found) => {
            let mut copy = found.clone();
            copy.voice_asset = Some(asset.filename.clone());
            card = Some(copy);
        },
        None => {},
    }
    match card {
        Some(card) => {
            let key = router::joined("vocal/", card.target_stem.as_str());
            let tags = retag(metadata.tags.get(key.as_str()));
            metadata.voice_cards.insert(asset.voice_card_id.clone(), card);
            metadata.tags.insert(key, tags);
        },
        None => {},
    }
}

/// The paths that publishing a batch may touch, below the project's root.
pub open spec fn target_list(names: Seq<Seq<char>>) -> Seq<Seq<char>> {
    names.map_values(|f: Seq<char>| paths::joined("game/vocal"@, f)).push(
        "game/config/asset-metadata.json"@,
    )
}

pub fn target_paths(assets: &[PreparedVoiceAsset]) -> (r: Vec<String>)
    ensures
        text::texts(r@) == target_list(filenames(assets@)),
{
    let ghost names = filenames(assets@);
    let ghost all = names.map_values(|f: Seq<char>| paths::joined("game/vocal"@, f));
    let mut out: Vec<String> = Vec::new();
    let mut i: usize = 0;
    assert(text::texts(out@) =~= all.take(0));
    while i < assets.len()
        invariant
            i <= assets.len(),
            names == filenames(assets@),
            all == names.map_values(|f: Seq<char>| paths::joined("game/vocal"@, f)),
            text::texts(out@) == all.take(i as int),
        decreases assets.len() - i,
    {
        let ghost before = text::texts(out@);
        let path = paths::join("game/vocal", assets[i].filename.as_str());
        out.push(path);
        assert(text::texts(out@) =~= before.push(path@));
        assert(all.take(i + 1) =~= all.take(i as int).push(path@));
        i += 1;
    }
    assert(all.take(all.len() as int) =~= all);
    out.push(text::copy("game/config/asset-metadata.json"));
    assert(text::texts(out@) =~= all.push("game/config/asset-metadata.json"@));
    out
}

// ---------------------------------------------------------------------------
// The transaction
// ---------------------------------------------------------------------------

/// How far the publishing of a batch has come.
#[derive(Debug, PartialEq, Eq)]
pub enum PublishPhase {
    /// The names in the directory and the metadata are to be read.
    Looking,
    /// The file of the line at this place is to be created.
    Writing(usize),
    /// The metadata are to be written.
    SavingMetadata,
    /// The transaction is to be made ready to commit.
    Preparing,
    /// The transaction is to be rolled back.
    RollingBack(String),
    /// It is over: the names of the files where the transaction is committed.
    Done(Result<Vec<String>, String>),
}

/// What the caller reports.
#[derive(Debug, PartialEq, Eq)]
pub enum PublishEvent {
    Looked(Result<(Vec<String>, AssetMetadata), String>),
    Finished(Result<(), String>),
}

/// A batch that is being published, and the metadata that will be written.
#[derive(Debug, PartialEq, Eq)]
pub struct PublishRun {
    pub metadata: AssetMetadata,
    pub phase: PublishPhase,
}

#[verifier::ext_equal]
pub enum PublishView {
    Looking,
    Writing(int),
    SavingMetadata,
    Preparing,
    RollingBack(Seq<char>),
    Done(Result<Seq<Seq<char>>, Seq<char>>),
}

impl View for PublishPhase {
    type V = PublishView;

    open spec fn view(&self) -> PublishView {
        match *self {
            PublishPhase::Looking => PublishView::Looking,
            PublishPhase::Writing(i) => PublishView::Writing(i as int),
            PublishPhase::SavingMetadata => PublishView::SavingMetadata,
            PublishPhase::Preparing => PublishView::Preparing,
            PublishPhase::RollingBack(m) => PublishView::RollingBack(m@),
            PublishPhase::Done(Ok(names)) => PublishView::Done(Ok(text::texts(names@))),
            PublishPhase::Done(Err(m)) => PublishView::Done(Err(m@)),
        }
    }
}

impl PublishRun {
    /// Whether the line to write is one of the batch, and every card is there.
    pub open spec fn wf(self, assets: Seq<PreparedVoiceAsset>) -> bool {
        self.phase matches PublishPhase::Writing(i) ==> i < assets.len() && forall|k: int|
            0 <= k < assets.len() ==> self.metadata.voice_cards@.dom().contains(
                (#[trigger] assets[k]).voice_card_id@,
            )
    }
}

/// The phase in which the line at `i` is written, or the one after the last.
pub open spec fn writing_from(assets: Seq<PreparedVoiceAsset>, i: int) -> PublishView {
    if i < assets.len() {
        PublishView::Writing(i)
    } else {
        PublishView::SavingMetadata
    }
}

/// Whether a run goes over into another on what the caller reports. Nothing is
/// written unless the batch may be published; then each file is created in turn
/// and recorded, and the metadata are written. Whatever fails, the transaction
/// is rolled back, and what failed is reported with what its rollback adds.
pub open spec fn publishes(
    assets: Seq<PreparedVoiceAsset>,
    before: PublishRun,
    event: PublishEvent,
    after: PublishRun,
) -> bool {
    match (before.phase@, event) {
        (PublishView::Looking, PublishEvent::Looked(Ok((existing, metadata)))) => {
            &&& after.metadata == metadata
            &&& after.phase@ == match publish_fault(assets, text::texts(existing@), metadata) {
                None => writing_from(assets, 0),
                Some(m) => PublishView::RollingBack(m),
            }
        },
        (PublishView::Looking, PublishEvent::Looked(Err(m))) => {
            &&& after.metadata == before.metadata
            &&& after.phase@ == PublishView::RollingBack(m@)
        },
        (PublishView::Writing(i), PublishEvent::Finished(Ok(_))) => {
            &&& records(after.metadata, before.metadata, assets[i])
            &&& after.phase@ == writing_from(assets, i + 1)
        },
        (PublishView::SavingMetadata, PublishEvent::Finished(Ok(_))) => {
            &&& after.metadata == before.metadata
            &&& after.phase@ == PublishView::Preparing
        },
        (PublishView::Preparing, PublishEvent::Finished(Ok(_))) => {
            &&& after.metadata == before.metadata
            &&& after.phase@ == PublishView::Done(Ok(filenames(assets)))
        },
        (
            PublishView::Writing(_) | PublishView::SavingMetadata | PublishView::Preparing,
            PublishEvent::Finished(Err(m)),
        ) => {
            &&& after.metadata == before.metadata
            &&& after.phase@ == PublishView::RollingBack(m@)
        },
        (PublishView::RollingBack(m), PublishEvent::Finished(result)) => {
            &&& after.metadata == before.metadata
            &&& after.phase@ == PublishView::Done(Err(m + transaction::suffix_of(result)))
        },
        _ => after.metadata == before.metadata && after.phase@ == before.phase@,
    }
}

fn list_filenames(assets: &[PreparedVoiceAsset]) -> (r: Vec<String>)
    ensures
        text::texts(r@) == filenames(assets@),
{
    let ghost all = filenames(assets@);
    let mut out: Vec<String> = Vec::new();
    let mut i: usize = 0;
    assert(text::texts(out@) =~= all.take(0));
    while i < assets.len()
        invariant
            i <= assets.len(),
            all == filenames(assets@),
            text::texts(out@) == all.take(i as int),
        decreases assets.len() - i,
    {
        let ghost before = text::texts(out@);
        let name = assets[i].filename.clone();
        out.push(name);
        assert(text::texts(out@) =~= before.push(name@));
        assert(all.take(i + 1) =~= all.take(i as int).push(name@));
        i += 1;
    }
    assert(all.take(all.len() as int) =~= all);
    out
}

/// Where the publishing of a batch begins: nothing is looked at for a batch that does
/// not pass.
pub open spec fn batch_begins(assets: Seq<PreparedVoiceAsset>) -> PublishView {
    match fault_of(assets) {
        None => PublishView::Looking,
        Some(m) => PublishView::Done(Err(m)),
    }
}

/// Begins the publishing of a batch, which is checked first.
pub fn begin_publish(assets: &[PreparedVoiceAsset]) -> (r: PublishRun)
    ensures
        r.phase@ == batch_begins(assets@),
        r.wf(assets@),
{
    let metadata = AssetMetadata::new();
    match validate_batch(assets) {
        Ok(_) => PublishRun { metadata, phase: PublishPhase::Looking },
        Err(m) => PublishRun { metadata, phase: PublishPhase::Done(Err(m)) },
    }
}

/// Takes the publishing of a batch one step further.
pub fn publish_batch(assets: &[PreparedVoiceAsset], run: PublishRun, event: PublishEvent) -> (r:
    PublishRun)
    requires
        run.wf(assets@),
    ensures
        publishes(assets@, run, event, r),
        r.wf(assets@),
{
    let metadata = run.metadata;
    let phase = run.phase;
    match event {
        PublishEvent::Looked(found) => match phase {
            PublishPhase::Looking => match found {
                Ok((existing, metadata)) => match check_publish(assets, &existing, &metadata) {
                    Ok(_) => PublishRun {
                        metadata,
                        phase: if assets.len() > 0 {
                            PublishPhase::Writing(0)
                        } else {
                            PublishPhase::SavingMetadata
                        },
                    },
                    Err(m) => PublishRun { metadata, phase: PublishPhase::RollingBack(m) },
                },
                Err(m) => PublishRun { metadata, phase: PublishPhase::RollingBack(m) },
            },
            phase => PublishRun { metadata, phase },
        },
        PublishEvent::Finished(result) => match phase {
            PublishPhase::Writing(i) => match result {
                Ok(_) => {
                    let mut metadata = metadata;
                    record_published(&mut metadata, &assets[i]);
                    let n = assets.len();
                    assert(i < n);
                    PublishRun {
                        metadata,
                        phase: if i + 1 < n {
                            PublishPhase::Writing(i + 1)
                        } else {
                            PublishPhase::SavingMetadata
                        },
                    }
                },
                Err(m) => PublishRun { metadata, phase: PublishPhase::RollingBack(m) },
            },
            PublishPhase::SavingMetadata => match result {
                Ok(_) => PublishRun { metadata, phase: PublishPhase::Preparing },
                Err(m) => PublishRun { metadata, phase: PublishPhase::RollingBack(m) },
            },
            PublishPhase::Preparing => match result {
                Ok(_) => PublishRun {
                    metadata,
                    phase: PublishPhase::Done(Ok(list_filenames(assets))),
                },
                Err(m) => PublishRun { metadata, phase: PublishPhase::RollingBack(m) },
            },
            PublishPhase::RollingBack(m) => PublishRun {
                metadata,
                phase: PublishPhase::Done(Err(transaction::with_rollback(m, result))),
            },
            phase => PublishRun { metadata, phase },
        },
    }
}

// ---------------------------------------------------------------------------
// Every file and the metadata, or nothing
// ---------------------------------------------------------------------------

/// What publishing touches: the files of the voice directory, and the metadata
/// as they are read, where they can be.
pub struct VoiceDisk {
    pub voices: Map<Seq<char>, Seq<u8>>,
    pub metadata: Option<AssetMetadata>,
}

/// The names of a batch's files.
pub open spec fn names_of(assets: Seq<PreparedVoiceAsset>) -> Set<Seq<char>> {
    Set::new(|name: Seq<char>| filenames(assets).contains(name))
}

/// What a step may do to the disk, given what the caller reports of it: what is
/// read is what is there, a file is created with its bytes or fails alone, the
/// metadata are written or left in any state, and a rollback that succeeds brings
/// back what it covers.
pub open spec fn publish_step(
    assets: Seq<PreparedVoiceAsset>,
    original: VoiceDisk,
    run: PublishRun,
    event: PublishEvent,
    before: VoiceDisk,
    after: VoiceDisk,
) -> bool {
    match (run.phase@, event) {
        (PublishView::Looking, PublishEvent::Looked(Ok((existing, metadata)))) => {
            &&& after == before
            &&& before.metadata == Some(metadata)
            &&& forall|name: Seq<char>| #[trigger]
                before.voices.dom().contains(name) ==> text::texts(existing@).contains(name)
        },
        (PublishView::Writing(i), PublishEvent::Finished(Ok(_))) => {
            &&& after.voices == before.voices.insert(assets[i].filename@, assets[i].bytes@)
            &&& after.metadata == before.metadata
        },
        (PublishView::Writing(i), PublishEvent::Finished(Err(_))) => {
            &&& after.voices.remove(assets[i].filename@) == before.voices.remove(
                assets[i].filename@,
            )
            &&& after.metadata == before.metadata
        },
        (PublishView::SavingMetadata, PublishEvent::Finished(result)) => {
            &&& after.voices == before.voices
            &&& result is Ok ==> after.metadata == Some(run.metadata)
        },
        (PublishView::RollingBack(_), PublishEvent::Finished(result)) => {
            &&& after.voices.remove_keys(names_of(assets)) == before.voices.remove_keys(
                names_of(assets),
            )
            &&& result is Ok ==> after.voices.restrict(names_of(assets))
                == original.voices.restrict(names_of(assets)) && after.metadata == original.metadata
        },
        _ => after == before,
    }
}

/// The file that the first `n` lines give a card: that of the last of them.
pub open spec fn voice_given(assets: Seq<PreparedVoiceAsset>, n: int, id: Seq<char>) -> Option<
    Seq<char>,
>
    decreases n,
{
    if n <= 0 {
        None
    } else if assets[n - 1].voice_card_id@ == id {
        Some(assets[n - 1].filename@)
    } else {
        voice_given(assets, n - 1, id)
    }
}

/// Whether metadata are others with the first `n` lines recorded: their cards
/// have their files, and every other card is as it was.
pub open spec fn lines_recorded(
    assets: Seq<PreparedVoiceAsset>,
    n: int,
    before: AssetMetadata,
    after: AssetMetadata,
) -> bool {
    &&& after.voice_cards@.dom() == before.voice_cards@.dom()
    &&& forall|id: Seq<char>| #[trigger]
        before.voice_cards@.dom().contains(id) ==> match voice_given(assets, n, id) {
            Some(name) => voiced(after.voice_cards@[id], before.voice_cards@[id], name),
            None => after.voice_cards@[id] == before.voice_cards@[id],
        }
}

/// Whether the first `n` files are there, with their bytes.
pub open spec fn files_written(
    assets: Seq<PreparedVoiceAsset>,
    n: int,
    voices: Map<Seq<char>, Seq<u8>>,
) -> bool {
    forall|i: int|
        0 <= i < n ==> voices.dom().contains((#[trigger] assets[i]).filename@)
            && voices[assets[i].filename@] == assets[i].bytes@
}

/// Whether the lines may be published: none of their files is there, and all of
/// their cards are.
pub open spec fn untaken(assets: Seq<PreparedVoiceAsset>, original: VoiceDisk) -> bool {
    &&& original.metadata is Some
    &&& forall|i: int|
        0 <= i < assets.len() ==> !original.voices.dom().contains(
            (#[trigger] assets[i]).filename@,
        ) && original.metadata->0.voice_cards@.dom().contains(assets[i].voice_card_id@)
}

/// What holds of the disk in every phase.
pub open spec fn publish_fits(
    assets: Seq<PreparedVoiceAsset>,
    original: VoiceDisk,
    run: PublishRun,
    disk: VoiceDisk,
) -> bool {
    &&& disk.voices.remove_keys(names_of(assets)) == original.voices.remove_keys(names_of(assets))
    &&& match run.phase@ {
        PublishView::Looking => disk == original,
        PublishView::Writing(i) => {
            &&& 0 <= i < assets.len()
            &&& untaken(assets, original)
            &&& files_written(assets, i, disk.voices)
            &&& disk.metadata == original.metadata
            &&& lines_recorded(assets, i, original.metadata->0, run.metadata)
        },
        PublishView::SavingMetadata => {
            &&& untaken(assets, original)
            &&& files_written(assets, assets.len() as int, disk.voices)
            &&& lines_recorded(assets, assets.len() as int, original.metadata->0, run.metadata)
        },
        PublishView::Preparing | PublishView::Done(Ok(_)) => {
            &&& untaken(assets, original)
            &&& files_written(assets, assets.len() as int, disk.voices)
            &&& disk.metadata == Some(run.metadata)
            &&& lines_recorded(assets, assets.len() as int, original.metadata->0, run.metadata)
        },
        _ => true,
    }
}

proof fn lemma_publish_fits(
    assets: Seq<PreparedVoiceAsset>,
    original: VoiceDisk,
    run: PublishRun,
    event: PublishEvent,
    next: PublishRun,
    before: VoiceDisk,
    after: VoiceDisk,
)
    requires
        fault_of(assets) is None,
        publishes(assets, run, event, next),
        publish_step(assets, original, run, event, before, after),
        publish_fits(assets, original, run, before),
    ensures
        publish_fits(assets, original, next, after),
{
    let names = names_of(assets);
    let all = filenames(assets);
    checked_batches_are_distinct(all);
    assert forall|i: int| 0 <= i < assets.len() implies names.contains(
        (#[trigger] assets[i]).filename@,
    ) by {
        assert(all[i] == assets[i].filename@);
    }
    assert forall|i: int, j: int| 0 <= i < j < assets.len() implies (#[trigger] assets[i]).filename@
        != (#[trigger] assets[j]).filename@ by {
        assert(all[i] == assets[i].filename@ && all[j] == assets[j].filename@);
    }
    match (run.phase@, event) {
        (PublishView::Looking, PublishEvent::Looked(Ok((existing, metadata)))) => {
            lemma_publish_clear(assets, text::texts(existing@), metadata, 0);
            if publish_fault(assets, text::texts(existing@), metadata) is None {
                assert forall|i: int| 0 <= i < assets.len() implies !original.voices.dom().contains(
                    (#[trigger] assets[i]).filename@,
                ) by {
                    let name = assets[i].filename@;
                    if original.voices.dom().contains(name) {
                        let list = text::texts(existing@);
                        let j = choose|j: int| 0 <= j < list.len() && list[j] == name;
                        assert(collides(list, name));
                    }
                }
                assert(untaken(assets, original));
            }
        },
        (PublishView::Writing(i), PublishEvent::Finished(Ok(_))) => {
            let name = assets[i].filename@;
            let id = assets[i].voice_card_id@;
            assert(after.voices.remove_keys(names) =~= before.voices.remove_keys(names));
            assert(files_written(assets, i + 1, after.voices));
            assert(original.metadata->0.voice_cards@.dom().contains(id));
            assert(next.metadata.voice_cards@.dom() =~= run.metadata.voice_cards@.dom());
            assert(lines_recorded(assets, i + 1, original.metadata->0, next.metadata));
        },
        (PublishView::Writing(i), PublishEvent::Finished(Err(_))) => {
            let name = assets[i].filename@;
            assert(after.voices.remove_keys(names) =~= after.voices.remove(name).remove_keys(names));
            assert(before.voices.remove_keys(names) =~= before.voices.remove(name).remove_keys(
                names,
            ));
        },
        _ => {},
    }
}

/// A course of publishing: the runs, what was reported between them, and the
/// disk at each.
pub open spec fn publish_course(
    assets: Seq<PreparedVoiceAsset>,
    original: VoiceDisk,
    runs: Seq<PublishRun>,
    events: Seq<PublishEvent>,
    disks: Seq<VoiceDisk>,
) -> bool {
    &&& runs.len() == events.len() + 1
    &&& disks.len() == runs.len()
    &&& runs[0].phase@ == batch_begins(assets)
    &&& disks[0] == original
    &&& forall|k: int|
        0 <= k < events.len() ==> {
            &&& publishes(assets, runs[k], #[trigger] events[k], runs[k + 1])
            &&& publish_step(assets, original, runs[k], events[k], disks[k], disks[k + 1])
        }
}

proof fn lemma_publish_course(
    assets: Seq<PreparedVoiceAsset>,
    original: VoiceDisk,
    runs: Seq<PublishRun>,
    events: Seq<PublishEvent>,
    disks: Seq<VoiceDisk>,
    k: int,
)
    requires
        publish_course(assets, original, runs, events, disks),
        0 <= k <= events.len(),
    ensures
        fault_of(assets) is None ==> publish_fits(assets, original, runs[k], disks[k]),
        fault_of(assets) matches Some(m) ==> runs[k].phase@ == PublishView::Done(Err(m))
            && disks[k] == original,
    decreases k,
{
    if k > 0 {
        lemma_publish_course(assets, original, runs, events, disks, k - 1);
        let event = events[k - 1];
        assert(publishes(assets, runs[k - 1], event, runs[k]));
        if fault_of(assets) is None {
            lemma_publish_fits(
                assets,
                original,
                runs[k - 1],
                event,
                runs[k],
                disks[k - 1],
                disks[k],
            );
        }
    }
}

/// Publishing a batch publishes all of it or nothing. One that does not pass is
/// refused with nothing touched. Where publishing ends well, every file is there with its bytes, the metadata on the disk give every card
/// its file, no other card changed, and no file that was there was touched. Where
/// it is rolled back, the disk is as it was.
pub proof fn batches_are_all_or_nothing(
    assets: Seq<PreparedVoiceAsset>,
    original: VoiceDisk,
    runs: Seq<PublishRun>,
    events: Seq<PublishEvent>,
    disks: Seq<VoiceDisk>,
    k: int,
)
    requires
        publish_course(assets, original, runs, events, disks),
        0 <= k < events.len(),
    ensures
        runs[k + 1].phase@ matches PublishView::Done(Ok(_)) ==> {
            &&& files_written(assets, assets.len() as int, disks[k + 1].voices)
            &&& original.metadata is Some && disks[k + 1].metadata is Some
            &&& lines_recorded(
                assets,
                assets.len() as int,
                original.metadata->0,
                disks[k + 1].metadata->0,
            )
            &&& original.voices.submap_of(disks[k + 1].voices)
        },
        runs[k].phase@ is RollingBack && events[k] == PublishEvent::Finished(Ok(())) ==> disks[k
            + 1] == original,
        fault_of(assets) matches Some(m) ==> runs[k + 1].phase@ == PublishView::Done(Err(m))
            && disks[k + 1] == original,
{
    lemma_publish_course(assets, original, runs, events, disks, k);
    lemma_publish_course(assets, original, runs, events, disks, k + 1);
    let names = names_of(assets);
    let disk = disks[k + 1];
    assert(publish_step(assets, original, runs[k], events[k], disks[k], disk));
    if runs[k + 1].phase@ matches PublishView::Done(Ok(_)) {
        assert forall|name: Seq<char>| #[trigger] original.voices.dom().contains(name) implies
            disk.voices.dom().contains(name) && disk.voices[name] == original.voices[name] by {
            if names.contains(name) {
                let i = choose|i: int| 0 <= i < filenames(assets).len() && filenames(assets)[i]
                    == name;
                assert(assets[i].filename@ == name);
            }
            assert(original.voices.remove_keys(names).dom().contains(name));
            assert(disk.voices.remove_keys(names)[name] == original.voices.remove_keys(names)[name]);
        }
    }
    if runs[k].phase@ is RollingBack && events[k] == PublishEvent::Finished(Ok(())) {
        lemma_split_equal(disk.voices, original.voices, names);
    }
}

proof fn lemma_split_equal(
    a: Map<Seq<char>, Seq<u8>>,
    b: Map<Seq<char>, Seq<u8>>,
    names: Set<Seq<char>>,
)
    requires
        a.remove_keys(names) == b.remove_keys(names),
        a.restrict(names) == b.restrict(names),
    ensures
        a == b,
{
    assert forall|name: Seq<char>| #![auto] a.dom().contains(name) == b.dom().contains(name) by {
        assert(a.remove_keys(names).dom().contains(name) == (a.dom().contains(name)
            && !names.contains(name)));
        assert(b.remove_keys(names).dom().contains(name) == (b.dom().contains(name)
            && !names.contains(name)));
        assert(a.restrict(names).dom().contains(name) == (a.dom().contains(name) && names.contains(
            name,
        )));
        assert(b.restrict(names).dom().contains(name) == (b.dom().contains(name) && names.contains(
            name,
        )));
    }
    assert forall|name: Seq<char>| #[trigger] a.dom().contains(name) implies a[name] == b[name] by {
        assert(b.dom().contains(name));
        if names.contains(name) {
            assert(a.restrict(names)[name] == b.restrict(names)[name]);
        } else {
            assert(a.remove_keys(names)[name] == b.remove_keys(names)[name]);
        }
    }
    assert(a =~= b);
}

/// A batch is let through exactly where every name is a plain file name without a backslash and no
/// two are the same but for case; else the first name that breaks this is reported, with how.
pub proof fn batches_are_refused_at_their_first_fault(names: Seq<Seq<char>>, n: int)
    requires
        0 <= n <= names.len(),
    ensures
        batch_fault(names, lowered(names), n) is None <==> (forall|i: int|
            0 <= i < n ==> paths::plain_name(#[trigger] names[i]) && !names[i].contains('\\'))
            && forall|i: int, j: int|
            0 <= j < i < n ==> text::lowercase(#[trigger] names[i]) != text::lowercase(
                #[trigger] names[j],
            ),
        forall|k: int|
            0 <= k < n && batch_fault(names, lowered(names), k) is None && !(paths::plain_name(
                #[trigger] names[k],
            ) && !names[k].contains('\\')) ==> batch_fault(names, lowered(names), n) == Some(
                "invalid generated asset filename: "@ + names[k],
            ),
        forall|k: int, j: int|
            0 <= j < k < n && batch_fault(names, lowered(names), k) is None && paths::plain_name(
                #[trigger] names[k],
            ) && !names[k].contains('\\') && text::lowercase(names[k]) == text::lowercase(
                #[trigger] names[j],
            ) ==> batch_fault(names, lowered(names), n) == Some(
                "duplicate batch TTS target: "@ + names[k],
            ),
    decreases n,
{
    let lower = lowered(names);
    assert(forall|i: int| 0 <= i < names.len() ==> #[trigger] lower[i] == text::lowercase(names[i]));
    if n > 0 {
        batches_are_refused_at_their_first_fault(names, n - 1);
        if repeats(lower, n - 1) {
            let j = choose|j: int| 0 <= j < n - 1 && #[trigger] lower[j] == lower[n - 1];
            assert(text::lowercase(names[n - 1]) == text::lowercase(names[j]));
        } else {
            assert forall|j: int| 0 <= j < n - 1 implies text::lowercase(names[n - 1])
                != text::lowercase(#[trigger] names[j]) by {
                assert(lower[j] != lower[n - 1]);
            }
        }
        assert forall|k: int, j: int|
            0 <= j < k < n && batch_fault(names, lower, k) is None && paths::plain_name(
                #[trigger] names[k],
            ) && !names[k].contains('\\') && text::lowercase(names[k]) == text::lowercase(
                #[trigger] names[j],
            ) implies batch_fault(names, lower, n) == Some(
            "duplicate batch TTS target: "@ + names[k],
        ) by {
            if k == n - 1 {
                assert(lower[j] == lower[k]);
                assert(repeats(lower, k));
            }
        }
    }
}

proof fn lemma_collision(assets: Seq<PreparedVoiceAsset>, existing: Seq<Seq<char>>, i: int)
    requires
        0 <= i <= assets.len(),
    ensures
        collision_from(assets, existing, i) is None <==> forall|k: int|
            i <= k < assets.len() ==> !collides(existing, (#[trigger] assets[k]).filename@),
        forall|k: int|
            i <= k < assets.len() && collides(existing, (#[trigger] assets[k]).filename@) && (forall|
                j: int,
            |
                i <= j < k ==> !collides(existing, (#[trigger] assets[j]).filename@))
                ==> collision_from(assets, existing, i) == Some(
                "batch TTS target already exists: "@ + assets[k].filename@,
            ),
    decreases assets.len() - i,
{
    if i < assets.len() {
        lemma_collision(assets, existing, i + 1);
    }
}

proof fn lemma_stray(assets: Seq<PreparedVoiceAsset>, cards: Map<Seq<char>, VoiceAssetCard>, i: int)
    requires
        0 <= i <= assets.len(),
    ensures
        stray_from(assets, cards, i) is None <==> forall|k: int|
            i <= k < assets.len() ==> cards.dom().contains((#[trigger] assets[k]).voice_card_id@),
        forall|k: int|
            i <= k < assets.len() && !cards.dom().contains((#[trigger] assets[k]).voice_card_id@)
                && (forall|j: int|
                i <= j < k ==> cards.dom().contains((#[trigger] assets[j]).voice_card_id@))
                ==> stray_from(assets, cards, i) == Some(
                "voice card does not exist: "@ + assets[k].voice_card_id@,
            ),
    decreases assets.len() - i,
{
    if i < assets.len() {
        lemma_stray(assets, cards, i + 1);
    }
}

/// A batch is published only where no file is there under one of its names, whatever the case, and
/// every line has its card. The first name that is taken is reported; where none is, the first line
/// without a card.
pub proof fn batches_overwrite_nothing(
    assets: Seq<PreparedVoiceAsset>,
    existing: Seq<Seq<char>>,
    metadata: AssetMetadata,
)
    ensures
        publish_fault(assets, existing, metadata) is None <==> (forall|i: int, j: int|
            0 <= i < assets.len() && 0 <= j < existing.len() ==> text::lowercase(
                #[trigger] existing[j],
            ) != text::lowercase((#[trigger] assets[i]).filename@)) && forall|i: int|
            0 <= i < assets.len() ==> metadata.voice_cards@.dom().contains(
                (#[trigger] assets[i]).voice_card_id@,
            ),
        forall|k: int|
            0 <= k < assets.len() && collides(existing, (#[trigger] assets[k]).filename@) && (forall|
                j: int,
            |
                0 <= j < k ==> !collides(existing, (#[trigger] assets[j]).filename@))
                ==> publish_fault(assets, existing, metadata) == Some(
                "batch TTS target already exists: "@ + assets[k].filename@,
            ),
        forall|k: int|
            0 <= k < assets.len() && !metadata.voice_cards@.dom().contains(
                (#[trigger] assets[k]).voice_card_id@,
            ) && (forall|j: int|
                0 <= j < k ==> metadata.voice_cards@.dom().contains(
                    (#[trigger] assets[j]).voice_card_id@,
                )) && (forall|j: int|
                0 <= j < assets.len() ==> !collides(existing, (#[trigger] assets[j]).filename@))
                ==> publish_fault(assets, existing, metadata) == Some(
                "voice card does not exist: "@ + assets[k].voice_card_id@,
            ),
{
    lemma_collision(assets, existing, 0);
    lemma_stray(assets, metadata.voice_cards@, 0);
    if collision_from(assets, existing, 0) is None {
        assert forall|i: int, j: int|
            0 <= i < assets.len() && 0 <= j < existing.len() implies text::lowercase(
            #[trigger] existing[j],
        ) != text::lowercase((#[trigger] assets[i]).filename@) by {
            assert(!collides(existing, assets[i].filename@));
        }
    } else {
        let i = choose|i: int|
            0 <= i < assets.len() && collides(existing, (#[trigger] assets[i]).filename@);
        let j = choose|j: int|
            0 <= j < existing.len() && text::lowercase(#[trigger] existing[j]) == text::lowercase(
                assets[i].filename@,
            );
        assert(text::lowercase(existing[j]) == text::lowercase(assets[i].filename@));
    }
}

proof fn lemma_other_tags(tags: Seq<Seq<char>>) -> (at: Seq<int>)
    ensures
        at.len() == other_tags(tags).len(),
        forall|i: int|
            0 <= i < at.len() ==> 0 <= #[trigger] at[i] < tags.len() && other_tags(tags)[i]
                == tags[at[i]] && !text::begins(tags[at[i]], "status:"@) && !text::begins(
                tags[at[i]],
                "source:"@,
            ),
        forall|i: int, j: int| 0 <= i < j < at.len() ==> #[trigger] at[i] < #[trigger] at[j],
        forall|k: int|
            0 <= k < tags.len() && !text::begins(#[trigger] tags[k], "status:"@) && !text::begins(
                tags[k],
                "source:"@,
            ) ==> at.contains(k),
    decreases tags.len(),
{
    if tags.len() == 0 {
        Seq::empty()
    } else {
        let t = tags.drop_last();
        let n = t.len() as int;
        let before = lemma_other_tags(t);
        assert forall|k: int|
            0 <= k < n && !text::begins(#[trigger] tags[k], "status:"@) && !text::begins(
                tags[k],
                "source:"@,
            ) implies before.contains(k) by {
            assert(t[k] == tags[k]);
        }
        if provenance(tags.last()) {
            before
        } else {
            let at = before.push(n);
            assert forall|k: int|
                0 <= k < tags.len() && !text::begins(#[trigger] tags[k], "status:"@)
                    && !text::begins(tags[k], "source:"@) implies at.contains(k) by {
                if k < n {
                    let i = choose|i: int| 0 <= i < before.len() && before[i] == k;
                    assert(at[i] == k);
                } else {
                    assert(at[before.len() as int] == k);
                }
            }
            at
        }
    }
}

/// The tags of a voice that was published are those that say nothing of its status or source, in
/// their order, and then `status:done` and `source:ai`.
pub proof fn published_voices_are_tagged_done(tags: Seq<Seq<char>>) -> (at: Seq<int>)
    ensures
        published_tags(tags).len() == at.len() + 2,
        forall|i: int|
            0 <= i < at.len() ==> 0 <= #[trigger] at[i] < tags.len() && published_tags(tags)[i]
                == tags[at[i]] && !text::begins(tags[at[i]], "status:"@) && !text::begins(
                tags[at[i]],
                "source:"@,
            ),
        forall|i: int, j: int| 0 <= i < j < at.len() ==> #[trigger] at[i] < #[trigger] at[j],
        forall|k: int|
            0 <= k < tags.len() && !text::begins(#[trigger] tags[k], "status:"@) && !text::begins(
                tags[k],
                "source:"@,
            ) ==> at.contains(k),
        published_tags(tags)[at.len() as int] == "status:done"@,
        published_tags(tags)[at.len() as int + 1] == "source:ai"@,
{
    lemma_other_tags(tags)
}

/// A voice that was published is named on its card, under which everything else stays; no other
/// card changes, and no tags but those of the card's target.
pub proof fn published_voices_are_on_their_card(
    after: AssetMetadata,
    before: AssetMetadata,
    asset: PreparedVoiceAsset,
)
    requires
        before.voice_cards@.dom().contains(asset.voice_card_id@),
        records(after, before, asset),
    ensures
        ({
            let id = asset.voice_card_id@;
            let key = "vocal/"@ + before.voice_cards@[id].target_stem@;
            &&& after.voice_cards@.dom() == before.voice_cards@.dom()
            &&& after.voice_cards@[id].voice_asset is Some
            &&& after.voice_cards@[id].voice_asset->0@ == asset.filename@
            &&& after.voice_cards@[id].id == before.voice_cards@[id].id
            &&& after.voice_cards@[id].character == before.voice_cards@[id].character
            &&& after.voice_cards@[id].text == before.voice_cards@[id].text
            &&& after.voice_cards@[id].emotion == before.voice_cards@[id].emotion
            &&& after.voice_cards@[id].target_stem == before.voice_cards@[id].target_stem
            &&& after.voice_cards@[id].prompt == before.voice_cards@[id].prompt
            &&& forall|other: Seq<char>| #[trigger]
                before.voice_cards@.dom().contains(other) && other != id
                    ==> after.voice_cards@[other] == before.voice_cards@[other]
            &&& after.tags@.dom() == before.tags@.dom().insert(key)
            &&& text::texts(after.tags@[key]@) == published_tags(
                if before.tags@.dom().contains(key) {
                    text::texts(before.tags@[key]@)
                } else {
                    Seq::empty()
                },
            )
            &&& forall|other: Seq<char>| #[trigger]
                before.tags@.dom().contains(other) && other != key ==> after.tags@[other]
                    == before.tags@[other]
        }),
{
    let id = asset.voice_card_id@;
    let key = "vocal/"@ + before.voice_cards@[id].target_stem@;
    assert(after.voice_cards@.dom() =~= before.voice_cards@.dom());
    assert(after.tags@.dom() =~= before.tags@.dom().insert(key));
}

/// A batch writes one file of `game/vocal` for each of its voices, in their order, and then the
/// metadata.
pub proof fn batches_write_voices_and_metadata(names: Seq<Seq<char>>)
    ensures
        target_list(names).len() == names.len() + 1,
        forall|i: int|
            0 <= i < names.len() ==> #[trigger] target_list(names)[i] == paths::joined(
                "game/vocal"@,
                names[i],
            ),
        target_list(names)[names.len() as int] == "game/config/asset-metadata.json"@,
{
}

/// A batch looks first, writes its voices one after another, then the metadata, prepares the
/// commit, and is done with the names of its files; where a step fails it is rolled back and fails
/// with that step's message.
pub proof fn batches_are_published_in_order(
    assets: Seq<PreparedVoiceAsset>,
    before: PublishRun,
    event: PublishEvent,
    after: PublishRun,
)
    requires
        before.wf(assets),
        publishes(assets, before, event, after),
    ensures
        before.phase@ is Looking && event is Looked && event->Looked_0 is Ok ==> ({
            let existing = text::texts(event->Looked_0->Ok_0.0@);
            let metadata = event->Looked_0->Ok_0.1;
            &&& after.metadata == metadata
            &&& publish_fault(assets, existing, metadata) is Some ==> after.phase@
                == PublishView::RollingBack(publish_fault(assets, existing, metadata)->0)
            &&& publish_fault(assets, existing, metadata) is None ==> after.phase@ == (if assets.len()
                == 0 {
                PublishView::SavingMetadata
            } else {
                PublishView::Writing(0)
            })
        }),
        before.phase@ is Writing && event == PublishEvent::Finished(Ok(())) ==> ({
            let i = before.phase@->Writing_0;
            &&& records(after.metadata, before.metadata, assets[i])
            &&& i + 1 < assets.len() ==> after.phase@ == PublishView::Writing(i + 1)
            &&& i + 1 == assets.len() ==> after.phase@ is SavingMetadata
        }),
        before.phase@ is SavingMetadata && event == PublishEvent::Finished(Ok(()))
            ==> after.phase@ is Preparing && after.metadata == before.metadata,
        before.phase@ is Preparing && event == PublishEvent::Finished(Ok(())) ==> after.phase@
            is Done && after.phase@->Done_0 is Ok && after.phase@->Done_0->Ok_0 == Seq::new(
            assets.len(),
            |i: int| assets[i].filename@,
        ),
        (before.phase@ is Writing || before.phase@ is SavingMetadata || before.phase@ is Preparing)
            && event is Finished && event->Finished_0 is Err ==> after.phase@
            == PublishView::RollingBack(event->Finished_0->Err_0@),
        before.phase@ is RollingBack && event is Finished ==> after.phase@ is Done
            && after.phase@->Done_0 is Err && text::begins(
            after.phase@->Done_0->Err_0,
            before.phase@->RollingBack_0,
        ) && (event->Finished_0 is Ok ==> after.phase@->Done_0->Err_0
            == before.phase@->RollingBack_0),
{
    if before.phase@ is Preparing && event == PublishEvent::Finished(Ok(())) {
        assert(filenames(assets) =~= Seq::new(assets.len(), |i: int| assets[i].filename@));
    }
    if before.phase@ is RollingBack && event is Finished {
        let m = before.phase@->RollingBack_0;
        let tail = transaction::suffix_of(event->Finished_0);
        text::parts_of_a_text_are_found(Seq::empty(), m, tail, m + tail);
        reveal_strlit("");
        if event->Finished_0 is Ok {
            assert(m + tail =~= m);
        }
    }
}

/// A batch with a fault ends with it before anything is looked at; one without looks first.
pub proof fn faulty_batches_begin_nothing(assets: Seq<PreparedVoiceAsset>)
    ensures
        fault_of(assets) is None ==> batch_begins(assets) is Looking,
        fault_of(assets) is Some ==> batch_begins(assets) == PublishView::Done(
            Err(fault_of(assets)->0),
        ),
        fault_of(assets) is None ==> forall|i: int, j: int|
            0 <= j < i < assets.len() ==> text::lowercase((#[trigger] assets[i]).filename@)
                != text::lowercase((#[trigger] assets[j]).filename@),
        fault_of(assets) is None ==> forall|i: int|
            0 <= i < assets.len() ==> paths::plain_name((#[trigger] assets[i]).filename@)
                && !assets[i].filename@.contains('\\'),
{
    let names = filenames(assets);
    batches_are_refused_at_their_first_fault(names, assets.len() as int);
    if fault_of(assets) is None {
        assert forall|i: int, j: int| 0 <= j < i < assets.len() implies text::lowercase(
            (#[trigger] assets[i]).filename@,
        ) != text::lowercase((#[trigger] assets[j]).filename@) by {
            assert(names[i] == assets[i].filename@ && names[j] == assets[j].filename@);
        }
        assert forall|i: int| 0 <= i < assets.len() implies paths::plain_name(
            (#[trigger] assets[i]).filename@,
        ) && !assets[i].filename@.contains('\\') by {
            assert(names[i] == assets[i].filename@);
        }
    }
}

} // verus!
