//! Character cards.
use vstd::prelude::*;

use crate::story_plan;
use crate::text;

verus! {

/// A drawing of a character in one emotion.
#[derive(Debug, Clone, PartialEq, Eq)]
pub struct CharacterSprite {
    pub emotion: String,
    pub file: String,
    pub prompt: Option<String>,
}

/// How a character stands to another one.
#[derive(Debug, Clone, PartialEq, Eq)]
pub struct CharacterRelation {
    pub target_id: String,
    pub relation_type: String,
    pub description: String,
}

/// A character card.
#[derive(Debug, Clone, PartialEq, Eq)]
pub struct Character {
    pub id: String,
    pub name: String,
    pub aliases: Vec<String>,
    pub description: String,
    pub personality: String,
    pub reference_images: Vec<String>,
    pub stance: String,
    pub keywords: Vec<String>,
    pub dialogue_style: String,
    pub gender: String,
    pub age: String,
    pub sprites: Vec<CharacterSprite>,
    pub default_voice: Option<String>,
    pub voice_timbre: Option<String>,
    pub relations: Vec<CharacterRelation>,
    pub color_theme: Option<String>,
    pub notes: String,
}

/// The document that holds a project's character cards.
#[derive(Debug, Clone, PartialEq, Eq)]
pub struct CharactersDocument {
    pub version: u32,
    pub characters: Vec<Character>,
}

#[verifier::ext_equal]
pub struct SpriteView {
    pub emotion: Seq<char>,
    pub file: Seq<char>,
    pub prompt: Option<Seq<char>>,
}

#[verifier::ext_equal]
pub struct RelationView {
    pub target_id: Seq<char>,
    pub relation_type: Seq<char>,
    pub description: Seq<char>,
}

#[verifier::ext_equal]
pub struct CharacterView {
    pub id: Seq<char>,
    pub name: Seq<char>,
    pub aliases: Seq<Seq<char>>,
    pub description: Seq<char>,
    pub personality: Seq<char>,
    pub reference_images: Seq<Seq<char>>,
    pub stance: Seq<char>,
    pub keywords: Seq<Seq<char>>,
    pub dialogue_style: Seq<char>,
    pub gender: Seq<char>,
    pub age: Seq<char>,
    pub sprites: Seq<SpriteView>,
    pub default_voice: Option<Seq<char>>,
    pub voice_timbre: Option<Seq<char>>,
    pub relations: Seq<RelationView>,
    pub color_theme: Option<Seq<char>>,
    pub notes: Seq<char>,
}

impl View for CharacterSprite {
    type V = SpriteView;

    open spec fn view(&self) -> SpriteView {
        SpriteView {
            emotion: self.emotion@,
            file: self.file@,
            prompt: story_plan::opt_text(self.prompt),
        }
    }
}

impl View for CharacterRelation {
    type V = RelationView;

    open spec fn view(&self) -> RelationView {
        RelationView {
            target_id: self.target_id@,
            relation_type: self.relation_type@,
            description: self.description@,
        }
    }
}

pub open spec fn sprite_views(v: Seq<CharacterSprite>) -> Seq<SpriteView> {
    v.map_values(|s: CharacterSprite| s@)
}

pub open spec fn relation_views(v: Seq<CharacterRelation>) -> Seq<RelationView> {
    v.map_values(|s: CharacterRelation| s@)
}

impl View for Character {
    type V = CharacterView;

    open spec fn view(&self) -> CharacterView {
        CharacterView {
            id: self.id@,
            name: self.name@,
            aliases: text::texts(self.aliases@),
            description: self.description@,
            personality: self.personality@,
            reference_images: text::texts(self.reference_images@),
            stance: self.stance@,
            keywords: text::texts(self.keywords@),
            dialogue_style: self.dialogue_style@,
            gender: self.gender@,
            age: self.age@,
            sprites: sprite_views(self.sprites@),
            default_voice: story_plan::opt_text(self.default_voice),
            voice_timbre: story_plan::opt_text(self.voice_timbre),
            relations: relation_views(self.relations@),
            color_theme: story_plan::opt_text(self.color_theme),
            notes: self.notes@,
        }
    }
}

pub open spec fn character_views(v: Seq<Character>) -> Seq<CharacterView> {
    v.map_values(|c: Character| c@)
}

/// Whether some card has this id.
pub open spec fn character_known(cards: Seq<CharacterView>, id: Seq<char>) -> bool {
    exists|i: int| 0 <= i < cards.len() && #[trigger] cards[i].id == id
}

/// The position of the first card with this id, or the number of cards.
pub fn position_of(cards: &[Character], id: &str) -> (r: usize)
    ensures
        r <= cards.len(),
        r < cards.len() ==> cards@[r as int].id@ == id@,
        forall|j: int| 0 <= j < r ==> #[trigger] cards@[j].id@ != id@,
        r < cards.len() <==> character_known(character_views(cards@), id@),
{
    let ghost views = character_views(cards@);
    let mut i: usize = 0;
    while i < cards.len()
        invariant
            i <= cards.len(),
            views == character_views(cards@),
            forall|j: int| 0 <= j < i ==> #[trigger] cards@[j].id@ != id@,
        decreases cards.len() - i,
    {
        if text::same(cards[i].id.as_str(), id) {
            assert(views[i as int].id == id@);
            return i;
        }
        i += 1;
    }
    assert forall|j: int| 0 <= j < views.len() implies #[trigger] views[j].id != id@ by {
        assert(cards@[j].id@ != id@);
    }
    i
}

fn same_texts(a: &Vec<String>, b: &Vec<String>) -> (r: bool)
    ensures
        r == (text::texts(a@) == text::texts(b@)),
{
    if a.len() != b.len() {
        assert(text::texts(a@).len() != text::texts(b@).len());
        return false;
    }
    let mut i: usize = 0;
    while i < a.len()
        invariant
            i <= a.len(),
            a.len() == b.len(),
            forall|j: int| 0 <= j < i ==> (#[trigger] text::texts(a@)[j]) == text::texts(b@)[j],
        decreases a.len() - i,
    {
        if !text::same(a[i].as_str(), b[i].as_str()) {
            assert(text::texts(a@)[i as int] != text::texts(b@)[i as int]);
            return false;
        }
        i += 1;
    }
    assert(text::texts(a@) =~= text::texts(b@));
    true
}

fn same_sprites(a: &Vec<CharacterSprite>, b: &Vec<CharacterSprite>) -> (r: bool)
    ensures
        r == (sprite_views(a@) == sprite_views(b@)),
{
    if a.len() != b.len() {
        assert(sprite_views(a@).len() != sprite_views(b@).len());
        return false;
    }
    let mut i: usize = 0;
    while i < a.len()
        invariant
            i <= a.len(),
            a.len() == b.len(),
            forall|j: int| 0 <= j < i ==> (#[trigger] sprite_views(a@)[j]) == sprite_views(b@)[j],
        decreases a.len() - i,
    {
        let same = text::same(a[i].emotion.as_str(), b[i].emotion.as_str()) && text::same(
            a[i].file.as_str(),
            b[i].file.as_str(),
        ) && story_plan::same_opt(&a[i].prompt, &b[i].prompt);
        if !same {
            assert(sprite_views(a@)[i as int] != sprite_views(b@)[i as int]);
            return false;
        }
        assert(sprite_views(a@)[i as int] =~= sprite_views(b@)[i as int]);
        i += 1;
    }
    assert(sprite_views(a@) =~= sprite_views(b@));
    true
}

fn same_relations(a: &Vec<CharacterRelation>, b: &Vec<CharacterRelation>) -> (r: bool)
    ensures
        r == (relation_views(a@) == relation_views(b@)),
{
    if a.len() != b.len() {
        assert(relation_views(a@).len() != relation_views(b@).len());
        return false;
    }
    let mut i: usize = 0;
    while i < a.len()
        invariant
            i <= a.len(),
            a.len() == b.len(),
            forall|j: int|
                0 <= j < i ==> (#[trigger] relation_views(a@)[j]) == relation_views(b@)[j],
        decreases a.len() - i,
    {
        let same = text::same(a[i].target_id.as_str(), b[i].target_id.as_str()) && text::same(
            a[i].relation_type.as_str(),
            b[i].relation_type.as_str(),
        ) && text::same(a[i].description.as_str(), b[i].description.as_str());
        if !same {
            assert(relation_views(a@)[i as int] != relation_views(b@)[i as int]);
            return false;
        }
        assert(relation_views(a@)[i as int] =~= relation_views(b@)[i as int]);
        i += 1;
    }
    assert(relation_views(a@) =~= relation_views(b@));
    true
}

/// Whether two cards are the same in every field.
pub fn same_card(a: &Character, b: &Character) -> (r: bool)
    ensures
        r == (a@ == b@),
{
    let r = text::same(a.id.as_str(), b.id.as_str()) && text::same(
        a.name.as_str(),
        b.name.as_str(),
    ) && same_texts(&a.aliases, &b.aliases) && text::same(
        a.description.as_str(),
        b.description.as_str(),
    ) && text::same(a.personality.as_str(), b.personality.as_str()) && same_texts(
        &a.reference_images,
        &b.reference_images,
    ) && text::same(a.stance.as_str(), b.stance.as_str()) && same_texts(&a.keywords, &b.keywords)
        && text::same(a.dialogue_style.as_str(), b.dialogue_style.as_str()) && text::same(
        a.gender.as_str(),
        b.gender.as_str(),
    ) && text::same(a.age.as_str(), b.age.as_str()) && same_sprites(&a.sprites, &b.sprites)
        && story_plan::same_opt(&a.default_voice, &b.default_voice) && story_plan::same_opt(
        &a.voice_timbre,
        &b.voice_timbre,
    ) && same_relations(&a.relations, &b.relations) && story_plan::same_opt(
        &a.color_theme,
        &b.color_theme,
    ) && text::same(a.notes.as_str(), b.notes.as_str());
    assert(r ==> a@ =~= b@);
    r
}

/// Two cards are the same exactly where every field of theirs is: texts, optional texts, lists of
/// texts, and the pictures and relations one by one.
pub proof fn cards_are_compared_field_by_field(a: Character, b: Character)
    ensures
        a@ == b@ <==> a.id@ == b.id@ && a.name@ == b.name@ && text::texts(a.aliases@)
            == text::texts(b.aliases@) && a.description@ == b.description@ && a.personality@
            == b.personality@ && text::texts(a.reference_images@) == text::texts(
            b.reference_images@,
        ) && a.stance@ == b.stance@ && text::texts(a.keywords@) == text::texts(b.keywords@)
            && a.dialogue_style@ == b.dialogue_style@ && a.gender@ == b.gender@ && a.age@ == b.age@
            && sprite_views(a.sprites@) == sprite_views(b.sprites@) && story_plan::opt_text(
            a.default_voice,
        ) == story_plan::opt_text(b.default_voice) && story_plan::opt_text(a.voice_timbre)
            == story_plan::opt_text(b.voice_timbre) && relation_views(a.relations@)
            == relation_views(b.relations@) && story_plan::opt_text(a.color_theme)
            == story_plan::opt_text(b.color_theme) && a.notes@ == b.notes@,
{
}

/// Pictures and relations are the same where they are as many and each is the same in every field.
pub proof fn pictures_and_relations_are_compared_one_by_one(
    a: Seq<CharacterSprite>,
    b: Seq<CharacterSprite>,
    p: Seq<CharacterRelation>,
    q: Seq<CharacterRelation>,
)
    ensures
        sprite_views(a) == sprite_views(b) <==> a.len() == b.len() && forall|i: int|
            0 <= i < a.len() ==> (#[trigger] a[i]).emotion@ == b[i].emotion@ && a[i].file@
                == b[i].file@ && story_plan::opt_text(a[i].prompt) == story_plan::opt_text(
                b[i].prompt,
            ),
        relation_views(p) == relation_views(q) <==> p.len() == q.len() && forall|i: int|
            0 <= i < p.len() ==> (#[trigger] p[i]).target_id@ == q[i].target_id@
                && p[i].relation_type@ == q[i].relation_type@ && p[i].description@
                == q[i].description@,
{
    let (va, vb) = (sprite_views(a), sprite_views(b));
    if va == vb {
        assert(va.len() == a.len() && vb.len() == b.len());
        assert forall|i: int| 0 <= i < a.len() implies (#[trigger] a[i]).emotion@ == b[i].emotion@
            && a[i].file@ == b[i].file@ && story_plan::opt_text(a[i].prompt)
            == story_plan::opt_text(b[i].prompt) by {
            assert(va[i] == a[i]@ && vb[i] == b[i]@);
        }
    }
    if a.len() == b.len() && (forall|i: int|
        0 <= i < a.len() ==> (#[trigger] a[i]).emotion@ == b[i].emotion@ && a[i].file@ == b[i].file@
            && story_plan::opt_text(a[i].prompt) == story_plan::opt_text(b[i].prompt)) {
        assert forall|i: int| 0 <= i < a.len() implies va[i] == vb[i] by {
            assert(va[i] == a[i]@ && vb[i] == b[i]@);
        }
        assert(va =~= vb);
    }
    let (vp, vq) = (relation_views(p), relation_views(q));
    if vp == vq {
        assert(vp.len() == p.len() && vq.len() == q.len());
        assert forall|i: int| 0 <= i < p.len() implies (#[trigger] p[i]).target_id@
            == q[i].target_id@ && p[i].relation_type@ == q[i].relation_type@ && p[i].description@
            == q[i].description@ by {
            assert(vp[i] == p[i]@ && vq[i] == q[i]@);
        }
    }
    if p.len() == q.len() && (forall|i: int|
        0 <= i < p.len() ==> (#[trigger] p[i]).target_id@ == q[i].target_id@ && p[i].relation_type@
            == q[i].relation_type@ && p[i].description@ == q[i].description@) {
        assert forall|i: int| 0 <= i < p.len() implies vp[i] == vq[i] by {
            assert(vp[i] == p[i]@ && vq[i] == q[i]@);
        }
        assert(vp =~= vq);
    }
}

/// A character is known where one of the cards has the id.
pub proof fn characters_are_known_by_their_id(cards: Seq<Character>, id: Seq<char>)
    ensures
        character_known(character_views(cards), id) <==> exists|i: int|
            0 <= i < cards.len() && (#[trigger] cards[i]).id@ == id,
{
    let v = character_views(cards);
    if character_known(v, id) {
        let i = choose|i: int| 0 <= i < v.len() && #[trigger] v[i].id == id;
        assert(cards[i].id@ == id);
    }
    if exists|i: int| 0 <= i < cards.len() && (#[trigger] cards[i]).id@ == id {
        let i = choose|i: int| 0 <= i < cards.len() && (#[trigger] cards[i]).id@ == id;
        assert(v[i].id == id);
    }
}

} // verus!
