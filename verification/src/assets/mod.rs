//! Asset metadata: what the project knows of its media files.
use vstd::prelude::*;

use crate::story_plan;
use crate::text_map::TextMap;

pub mod transaction;

verus! {

/// A card of a background or a still.
#[derive(Debug, PartialEq, Eq)]
pub struct SceneAssetCard {
    pub id: String,
    pub title: String,
    pub scene_file: Option<String>,
    pub image_asset: Option<String>,
    pub target_stem: String,
    pub prompt: String,
    pub style: String,
    pub negative_prompt: String,
}

impl Clone for SceneAssetCard {
    fn clone(&self) -> (r: SceneAssetCard)
        ensures
            r == *self,
    {
        SceneAssetCard {
            id: self.id.clone(),
            title: self.title.clone(),
            scene_file: story_plan::copy_opt(&self.scene_file),
            image_asset: story_plan::copy_opt(&self.image_asset),
            target_stem: self.target_stem.clone(),
            prompt: self.prompt.clone(),
            style: self.style.clone(),
            negative_prompt: self.negative_prompt.clone(),
        }
    }
}

#[verifier::ext_equal]
pub struct CardView {
    pub id: Seq<char>,
    pub title: Seq<char>,
    pub scene_file: Option<Seq<char>>,
    pub image_asset: Option<Seq<char>>,
    pub target_stem: Seq<char>,
    pub prompt: Seq<char>,
    pub style: Seq<char>,
    pub negative_prompt: Seq<char>,
}

impl View for SceneAssetCard {
    type V = CardView;

    open spec fn view(&self) -> CardView {
        CardView {
            id: self.id@,
            title: self.title@,
            scene_file: story_plan::opt_text(self.scene_file),
            image_asset: story_plan::opt_text(self.image_asset),
            target_stem: self.target_stem@,
            prompt: self.prompt@,
            style: self.style@,
            negative_prompt: self.negative_prompt@,
        }
    }
}

/// The cards of a table.
pub open spec fn card_views(m: Map<Seq<char>, SceneAssetCard>) -> Map<Seq<char>, CardView> {
    m.map_values(|c: SceneAssetCard| c@)
}

/// A card of a spoken line.
#[derive(Debug, PartialEq, Eq)]
pub struct VoiceAssetCard {
    pub id: String,
    pub character: String,
    pub text: String,
    pub emotion: String,
    pub voice_asset: Option<String>,
    pub target_stem: String,
    pub prompt: String,
}

impl Clone for VoiceAssetCard {
    fn clone(&self) -> (r: VoiceAssetCard)
        ensures
            r == *self,
    {
        VoiceAssetCard {
            id: self.id.clone(),
            character: self.character.clone(),
            text: self.text.clone(),
            emotion: self.emotion.clone(),
            voice_asset: story_plan::copy_opt(&self.voice_asset),
            target_stem: self.target_stem.clone(),
            prompt: self.prompt.clone(),
        }
    }
}

/// The metadata document of a project.
#[derive(Debug, PartialEq, Eq)]
pub struct AssetMetadata {
    pub aliases: TextMap<String>,
    pub descriptions: TextMap<String>,
    pub tags: TextMap<Vec<String>>,
    pub references: TextMap<Vec<String>>,
    pub scene_cards: TextMap<SceneAssetCard>,
    pub cg_cards: TextMap<SceneAssetCard>,
    pub voice_cards: TextMap<VoiceAssetCard>,
    pub deleted_scene_cards: Vec<String>,
    pub deleted_cg_cards: Vec<String>,
    pub deleted_voice_cards: Vec<String>,
}

/// Whether nothing is recorded.
pub open spec fn metadata_blank(m: AssetMetadata) -> bool {
    &&& m.aliases@ == Map::<Seq<char>, String>::empty()
    &&& m.descriptions@ == Map::<Seq<char>, String>::empty()
    &&& m.tags@ == Map::<Seq<char>, Vec<String>>::empty()
    &&& m.references@ == Map::<Seq<char>, Vec<String>>::empty()
    &&& m.scene_cards@ == Map::<Seq<char>, SceneAssetCard>::empty()
    &&& m.cg_cards@ == Map::<Seq<char>, SceneAssetCard>::empty()
    &&& m.voice_cards@ == Map::<Seq<char>, VoiceAssetCard>::empty()
    &&& m.deleted_scene_cards@.len() == 0
    &&& m.deleted_cg_cards@.len() == 0
    &&& m.deleted_voice_cards@.len() == 0
}

impl AssetMetadata {
    pub fn new() -> (r: AssetMetadata)
        ensures
            metadata_blank(r),
    {
        AssetMetadata {
            aliases: TextMap::new(),
            descriptions: TextMap::new(),
            tags: TextMap::new(),
            references: TextMap::new(),
            scene_cards: TextMap::new(),
            cg_cards: TextMap::new(),
            voice_cards: TextMap::new(),
            deleted_scene_cards: Vec::new(),
            deleted_cg_cards: Vec::new(),
            deleted_voice_cards: Vec::new(),
        }
    }

    pub fn is_blank(&self) -> (r: bool)
        ensures
            r == metadata_blank(*self),
    {
        self.aliases.is_empty() && self.descriptions.is_empty() && self.tags.is_empty()
            && self.references.is_empty() && self.scene_cards.is_empty() && self.cg_cards.is_empty()
            && self.voice_cards.is_empty() && self.deleted_scene_cards.len() == 0
            && self.deleted_cg_cards.len() == 0 && self.deleted_voice_cards.len() == 0
    }
}

/// Metadata are blank where none of their maps and lists holds anything.
pub proof fn blank_metadata_hold_nothing(m: AssetMetadata)
    ensures
        metadata_blank(m) <==> (forall|k: Seq<char>|
            !(#[trigger] m.aliases@.dom().contains(k))) && (forall|k: Seq<char>|
            !(#[trigger] m.descriptions@.dom().contains(k))) && (forall|k: Seq<char>|
            !(#[trigger] m.tags@.dom().contains(k))) && (forall|k: Seq<char>|
            !(#[trigger] m.references@.dom().contains(k))) && (forall|k: Seq<char>|
            !(#[trigger] m.scene_cards@.dom().contains(k))) && (forall|k: Seq<char>|
            !(#[trigger] m.cg_cards@.dom().contains(k))) && (forall|k: Seq<char>|
            !(#[trigger] m.voice_cards@.dom().contains(k))) && m.deleted_scene_cards@.len() == 0
            && m.deleted_cg_cards@.len() == 0 && m.deleted_voice_cards@.len() == 0,
{
    if (forall|k: Seq<char>| !(#[trigger] m.aliases@.dom().contains(k))) {
        assert(m.aliases@ =~= Map::<Seq<char>, String>::empty());
    }
    if (forall|k: Seq<char>| !(#[trigger] m.descriptions@.dom().contains(k))) {
        assert(m.descriptions@ =~= Map::<Seq<char>, String>::empty());
    }
    if (forall|k: Seq<char>| !(#[trigger] m.tags@.dom().contains(k))) {
        assert(m.tags@ =~= Map::<Seq<char>, Vec<String>>::empty());
    }
    if (forall|k: Seq<char>| !(#[trigger] m.references@.dom().contains(k))) {
        assert(m.references@ =~= Map::<Seq<char>, Vec<String>>::empty());
    }
    if (forall|k: Seq<char>| !(#[trigger] m.scene_cards@.dom().contains(k))) {
        assert(m.scene_cards@ =~= Map::<Seq<char>, SceneAssetCard>::empty());
    }
    if (forall|k: Seq<char>| !(#[trigger] m.cg_cards@.dom().contains(k))) {
        assert(m.cg_cards@ =~= Map::<Seq<char>, SceneAssetCard>::empty());
    }
    if (forall|k: Seq<char>| !(#[trigger] m.voice_cards@.dom().contains(k))) {
        assert(m.voice_cards@ =~= Map::<Seq<char>, VoiceAssetCard>::empty());
    }
}

/// Two picture cards are seen alike only where every field of theirs is.
pub proof fn picture_cards_are_told_apart_by_their_fields(a: SceneAssetCard, b: SceneAssetCard)
    ensures
        a@ == b@ <==> a.id@ == b.id@ && a.title@ == b.title@ && story_plan::opt_text(a.scene_file)
            == story_plan::opt_text(b.scene_file) && story_plan::opt_text(a.image_asset)
            == story_plan::opt_text(b.image_asset) && a.target_stem@ == b.target_stem@ && a.prompt@
            == b.prompt@ && a.style@ == b.style@ && a.negative_prompt@ == b.negative_prompt@,
        a@.image_asset == story_plan::opt_text(a.image_asset) && a@.scene_file
            == story_plan::opt_text(a.scene_file) && a@.target_stem == a.target_stem@,
{
}

} // verus!
