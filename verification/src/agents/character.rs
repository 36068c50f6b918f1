//! The character designer: the cards of the story's cast.
use vstd::prelude::*;

use crate::agents::outline;
use crate::agents::router;
use crate::agents::router::{ModelTask, Routed};
use crate::agents::{AgentContext, AgentError, AgentOutput, AgentOutputPayload};
use crate::characters;
use crate::characters::{Character, CharacterRelation, CharacterView, RelationView, SpriteView};
use crate::story_plan;
use crate::story_plan::{ChapterPlan, ScenePlan, SceneView};
use crate::text;

verus! {

broadcast use vstd::string::group_string_axioms;

pub struct CharacterAgent;

/// What the model is asked to return.
#[derive(Debug, PartialEq, Eq)]
pub struct CharacterResponse {
    pub characters: Vec<Character>,
}

pub const ROLE: &'static str = "Character / 角色设计";

pub const TASK: &'static str = "根据剧情结构创建一致、可演出的角色卡。严格使用 JSON：{\"characters\":[{\"id\":\"protagonist\",\"name\":\"...\",\"aliases\":[],\"description\":\"...\",\"personality\":\"...\",\"stance\":\"...\",\"keywords\":[\"...\"],\"dialogueStyle\":\"...\",\"gender\":\"...\",\"age\":\"...\",\"sprites\":[],\"relations\":[],\"notes\":\"\"}]}。id 和 name 必填，字段使用 camelCase。relations 可留空；若填写，每项必须同时包含 targetId、relationType、description。";

pub const REQUIREMENTS: &'static str = "生成 3-5 个可直接保存的角色卡。id 使用稳定英文小写标识，并覆盖 scenePlans.characterIds；若对 provisional characterId 做了小写化、翻译或改名，必须把原值逐字保存在该角色 aliases。name 是 WebGAL 对白中的显示名。description、personality、dialogueStyle、keywords 必须具体。sprites 留空，资产由 P2 生成。";

// ---------------------------------------------------------------------------
// Incomplete relations
// ---------------------------------------------------------------------------

/// Whether a relation says to whom and of what kind it is.
pub open spec fn complete_relation(r: RelationView) -> bool {
    !text::blank(r.target_id) && !text::blank(r.relation_type)
}

/// The complete relations, in their order.
pub open spec fn complete_relations(v: Seq<RelationView>) -> Seq<RelationView>
    decreases v.len(),
{
    if v.len() == 0 {
        Seq::empty()
    } else if complete_relation(v.last()) {
        complete_relations(v.drop_last()).push(v.last())
    } else {
        complete_relations(v.drop_last())
    }
}

/// A card with its complete relations only.
pub open spec fn with_complete_relations(c: CharacterView) -> CharacterView {
    CharacterView { relations: complete_relations(c.relations), ..c }
}

fn keep_complete(relations: Vec<CharacterRelation>) -> (r: Vec<CharacterRelation>)
    ensures
        characters::relation_views(r@) == complete_relations(characters::relation_views(relations@)),
{
    let ghost all = characters::relation_views(relations@);
    let mut out: Vec<CharacterRelation> = Vec::new();
    assert(all.take(0) =~= Seq::<RelationView>::empty());
    for relation in it: relations
        invariant
            all == characters::relation_views(it.seq()),
            characters::relation_views(out@) =~= complete_relations(all.take(it.index())),
    {
        let ghost before = characters::relation_views(out@);
        proof {
            assert(all.take(it.index() + 1).drop_last() =~= all.take(it.index()));
            assert(all.take(it.index() + 1).last() == relation@);
        }
        if !text::is_blank(relation.target_id.as_str()) && !text::is_blank(
            relation.relation_type.as_str(),
        ) {
            out.push(relation);
            assert(characters::relation_views(out@) =~= before.push(relation@));
        }
    }
    assert(all.take(all.len() as int) =~= all);
    out
}

/// Drops the relations that do not say to whom or of what kind they are.
pub fn discard_incomplete_relations(cards: &mut Vec<Character>)
    ensures
        characters::character_views(final(cards)@) == characters::character_views(
            old(cards)@,
        ).map_values(|c: CharacterView| with_complete_relations(c)),
{
    let ghost all = characters::character_views(cards@);
    let mut given: Vec<Character> = Vec::new();
    std::mem::swap(&mut given, cards);
    for card in it: given
        invariant
            all == characters::character_views(it.seq()),
            characters::character_views(cards@) =~= all.take(it.index()).map_values(
                |c: CharacterView| with_complete_relations(c),
            ),
    {
        let mut card = card;
        let ghost before = characters::character_views(cards@);
        let mut relations: Vec<CharacterRelation> = Vec::new();
        std::mem::swap(&mut relations, &mut card.relations);
        card.relations = keep_complete(relations);
        cards.push(card);
        assert(characters::character_views(cards@) =~= before.push(card@));
        assert(card@ == with_complete_relations(all[it.index()]));
    }
    assert(all.take(all.len() as int) =~= all);
}

// ---------------------------------------------------------------------------
// The contract of a cast
// ---------------------------------------------------------------------------

pub open spec fn card_id_taken(cards: Seq<CharacterView>, i: int) -> bool {
    exists|j: int| 0 <= j < i && (#[trigger] cards[j]).id == cards[i].id
}

/// The first rule that the card at `i` breaks.
pub open spec fn card_fault(cards: Seq<CharacterView>, i: int) -> Option<(Seq<char>, Seq<char>)> {
    let c = cards[i];
    if !story_plan::flag_value(c.id) {
        Some((".id"@, "must be a safe WebGAL id"@))
    } else if text::blank(c.name) {
        Some((".name"@, "must not be empty"@))
    } else if card_id_taken(cards, i) {
        Some((".id"@, "must be unique"@))
    } else if text::blank(c.description) {
        Some((".description"@, "must not be empty"@))
    } else if text::blank(c.personality) {
        Some((".personality"@, "must not be empty"@))
    } else if text::blank(c.dialogue_style) {
        Some((".dialogueStyle"@, "must not be empty"@))
    } else if c.keywords.len() == 0 {
        Some((".keywords"@, "must not be empty"@))
    } else {
        None
    }
}

/// Whether an alias is the reference, up to the case of ASCII letters.
pub open spec fn has_alias(aliases: Seq<Seq<char>>, reference: Seq<char>) -> bool {
    exists|i: int|
        0 <= i < aliases.len() && text::ascii_lowercase(reference) == text::ascii_lowercase(
            #[trigger] aliases[i],
        )
}

/// Whether a card is the one that a scene refers to: by its id or an alias, up
/// to the case of ASCII letters, or by its name.
pub open spec fn card_matches(c: CharacterView, reference: Seq<char>) -> bool {
    text::ascii_lowercase(reference) == text::ascii_lowercase(c.id) || reference == c.name
        || has_alias(c.aliases, reference)
}

pub open spec fn reference_known(cards: Seq<CharacterView>, reference: Seq<char>) -> bool {
    exists|i: int| 0 <= i < cards.len() && card_matches(#[trigger] cards[i], reference)
}

/// The position of the first reference that no card answers to, or their
/// number.
pub open spec fn first_unknown(refs: Seq<Seq<char>>, cards: Seq<CharacterView>) -> int
    decreases refs.len(),
{
    if refs.len() == 0 || !reference_known(cards, refs[0]) {
        0
    } else {
        1 + first_unknown(refs.drop_first(), cards)
    }
}

/// The position of the first relation to a character without a card, or their
/// number.
pub open spec fn first_stray(relations: Seq<RelationView>, cards: Seq<CharacterView>) -> int
    decreases relations.len(),
{
    if relations.len() == 0 || !characters::character_known(cards, relations[0].target_id) {
        0
    } else {
        1 + first_stray(relations.drop_first(), cards)
    }
}

pub open spec fn cards_fault_from(cards: Seq<CharacterView>, i: int) -> Option<Seq<char>>
    decreases cards.len() - i,
{
    if i >= cards.len() {
        None
    } else {
        match card_fault(cards, i) {
            Some(f) => Some(router::violation(router::item_path("$.characters"@, i) + f.0, f.1)),
            None => cards_fault_from(cards, i + 1),
        }
    }
}

pub open spec fn references_fault_from(
    scenes: Seq<SceneView>,
    i: int,
    cards: Seq<CharacterView>,
) -> Option<Seq<char>>
    decreases scenes.len() - i,
{
    if i >= scenes.len() {
        None
    } else {
        let refs = scenes[i].character_ids;
        let k = first_unknown(refs, cards);
        if k < refs.len() {
            Some(
                router::violation(
                    router::item_path(
                        router::item_path("$.scenePlans"@, i) + ".characterIds"@,
                        k,
                    ),
                    "has no matching character or alias: "@ + refs[k],
                ),
            )
        } else {
            references_fault_from(scenes, i + 1, cards)
        }
    }
}

pub open spec fn relations_fault_from(cards: Seq<CharacterView>, i: int) -> Option<Seq<char>>
    decreases cards.len() - i,
{
    if i >= cards.len() {
        None
    } else {
        let k = first_stray(cards[i].relations, cards);
        if k < cards[i].relations.len() {
            Some(
                router::violation(
                    router::item_path(router::item_path("$.characters"@, i) + ".relations"@, k)
                        + ".targetId"@,
                    "references unknown character id"@,
                ),
            )
        } else {
            relations_fault_from(cards, i + 1)
        }
    }
}

/// What is wrong with a cast, if anything is.
pub open spec fn cast_fault(cards: Seq<CharacterView>, scenes: Seq<SceneView>) -> Option<
    Seq<char>,
> {
    if cards.len() < 2 {
        Some(router::violation("$.characters"@, "must contain at least 2 characters"@))
    } else if cards_fault_from(cards, 0) is Some {
        cards_fault_from(cards, 0)
    } else if references_fault_from(scenes, 0, cards) is Some {
        references_fault_from(scenes, 0, cards)
    } else {
        relations_fault_from(cards, 0)
    }
}

/// Whether a cast keeps its contract: two cards or more, each complete and
/// with an id of its own, that answer to every reference of the scenes and
/// relate to one another only.
pub open spec fn cast_sound(cards: Seq<CharacterView>, scenes: Seq<SceneView>) -> bool {
    &&& cards.len() >= 2
    &&& forall|i: int|
        0 <= i < cards.len() ==> {
            let c = #[trigger] cards[i];
            &&& story_plan::flag_value(c.id)
            &&& !text::blank(c.name)
            &&& !text::blank(c.description)
            &&& !text::blank(c.personality)
            &&& !text::blank(c.dialogue_style)
            &&& c.keywords.len() > 0
            &&& forall|k: int|
                0 <= k < c.relations.len() ==> characters::character_known(
                    cards,
                    (#[trigger] c.relations[k]).target_id,
                )
        }
    &&& forall|i: int, j: int|
        0 <= i < j < cards.len() ==> (#[trigger] cards[i]).id != (#[trigger] cards[j]).id
    &&& forall|i: int, k: int|
        0 <= i < scenes.len() && 0 <= k < scenes[i].character_ids.len() ==> reference_known(
            cards,
            #[trigger] scenes[i].character_ids[k],
        )
}

proof fn lemma_first_unknown(refs: Seq<Seq<char>>, cards: Seq<CharacterView>)
    ensures
        0 <= first_unknown(refs, cards) <= refs.len(),
        first_unknown(refs, cards) < refs.len() ==> !reference_known(
            cards,
            refs[first_unknown(refs, cards)],
        ),
        forall|j: int|
            0 <= j < first_unknown(refs, cards) ==> reference_known(cards, #[trigger] refs[j]),
    decreases refs.len(),
{
    if refs.len() > 0 && reference_known(cards, refs[0]) {
        let t = refs.drop_first();
        lemma_first_unknown(t, cards);
        assert forall|j: int| 0 <= j < first_unknown(refs, cards) implies reference_known(
            cards,
            #[trigger] refs[j],
        ) by {
            if j > 0 {
                assert(reference_known(cards, t[j - 1]));
            }
        }
    }
}

proof fn lemma_first_stray(relations: Seq<RelationView>, cards: Seq<CharacterView>)
    ensures
        0 <= first_stray(relations, cards) <= relations.len(),
        first_stray(relations, cards) < relations.len() ==> !characters::character_known(
            cards,
            relations[first_stray(relations, cards)].target_id,
        ),
        forall|j: int|
            0 <= j < first_stray(relations, cards) ==> characters::character_known(
                cards,
                (#[trigger] relations[j]).target_id,
            ),
    decreases relations.len(),
{
    if relations.len() > 0 && characters::character_known(cards, relations[0].target_id) {
        let t = relations.drop_first();
        lemma_first_stray(t, cards);
        assert forall|j: int| 0 <= j < first_stray(relations, cards) implies characters::character_known(
            cards,
            (#[trigger] relations[j]).target_id,
        ) by {
            if j > 0 {
                assert(characters::character_known(cards, t[j - 1].target_id));
            }
        }
    }
}

proof fn lemma_cards_from(cards: Seq<CharacterView>, i: int)
    requires
        0 <= i <= cards.len(),
    ensures
        cards_fault_from(cards, i) is None <==> forall|k: int|
            i <= k < cards.len() ==> #[trigger] card_fault(cards, k) is None,
    decreases cards.len() - i,
{
    if i < cards.len() {
        lemma_cards_from(cards, i + 1);
        if card_fault(cards, i) is None && cards_fault_from(cards, i + 1) is None {
            assert forall|k: int| i <= k < cards.len() implies #[trigger] card_fault(cards, k) is None by {
                if k > i {
                    assert(i + 1 <= k);
                }
            }
        }
    }
}

proof fn lemma_references_from(scenes: Seq<SceneView>, i: int, cards: Seq<CharacterView>)
    requires
        0 <= i <= scenes.len(),
    ensures
        references_fault_from(scenes, i, cards) is None <==> forall|m: int, k: int|
            i <= m < scenes.len() && 0 <= k < scenes[m].character_ids.len() ==> reference_known(
                cards,
                #[trigger] scenes[m].character_ids[k],
            ),
    decreases scenes.len() - i,
{
    if i < scenes.len() {
        lemma_references_from(scenes, i + 1, cards);
        let refs = scenes[i].character_ids;
        lemma_first_unknown(refs, cards);
        let k = first_unknown(refs, cards);
        if k < refs.len() {
            assert(!reference_known(cards, scenes[i].character_ids[k]));
        } else if references_fault_from(scenes, i + 1, cards) is None {
            assert forall|m: int, k: int|
                i <= m < scenes.len() && 0 <= k < scenes[m].character_ids.len() implies reference_known(
                cards,
                #[trigger] scenes[m].character_ids[k],
            ) by {
                if m > i {
                    assert(i + 1 <= m);
                }
            }
        }
    }
}

proof fn lemma_relations_from(cards: Seq<CharacterView>, i: int)
    requires
        0 <= i <= cards.len(),
    ensures
        relations_fault_from(cards, i) is None <==> forall|m: int, k: int|
            i <= m < cards.len() && 0 <= k < cards[m].relations.len()
                ==> characters::character_known(
                cards,
                (#[trigger] cards[m].relations[k]).target_id,
            ),
    decreases cards.len() - i,
{
    if i < cards.len() {
        lemma_relations_from(cards, i + 1);
        let rels = cards[i].relations;
        lemma_first_stray(rels, cards);
        let k = first_stray(rels, cards);
        if k < rels.len() {
            assert(!characters::character_known(cards, cards[i].relations[k].target_id));
        } else if relations_fault_from(cards, i + 1) is None {
            assert forall|m: int, k: int|
                i <= m < cards.len() && 0 <= k < cards[m].relations.len() implies characters::character_known(
                cards,
                (#[trigger] cards[m].relations[k]).target_id,
            ) by {
                if m > i {
                    assert(i + 1 <= m);
                }
            }
        }
    }
}

/// A cast has no fault exactly when it keeps its contract.
pub proof fn faultless_casts_are_sound(cards: Seq<CharacterView>, scenes: Seq<SceneView>)
    ensures
        cast_fault(cards, scenes) is None <==> cast_sound(cards, scenes),
{
    lemma_cards_from(cards, 0);
    lemma_references_from(scenes, 0, cards);
    lemma_relations_from(cards, 0);
    if cast_fault(cards, scenes) is None {
        assert forall|i: int| 0 <= i < cards.len() implies {
            let c = #[trigger] cards[i];
            &&& story_plan::flag_value(c.id)
            &&& !text::blank(c.name)
            &&& !text::blank(c.description)
            &&& !text::blank(c.personality)
            &&& !text::blank(c.dialogue_style)
            &&& c.keywords.len() > 0
            &&& forall|k: int|
                0 <= k < c.relations.len() ==> characters::character_known(
                    cards,
                    (#[trigger] c.relations[k]).target_id,
                )
        } by {
            assert(card_fault(cards, i) is None);
            let c = cards[i];
            assert forall|k: int| 0 <= k < c.relations.len() implies characters::character_known(
                cards,
                (#[trigger] c.relations[k]).target_id,
            ) by {
                assert(characters::character_known(cards, cards[i].relations[k].target_id));
            }
        }
        assert forall|i: int, j: int| 0 <= i < j < cards.len() implies (#[trigger] cards[i]).id
            != (#[trigger] cards[j]).id by {
            assert(card_fault(cards, j) is None);
        }
    }
    if cast_sound(cards, scenes) {
        assert forall|k: int| 0 <= k < cards.len() implies #[trigger] card_fault(cards, k) is None by {
            let c = cards[k];
            if card_id_taken(cards, k) {
                let j = choose|j: int| 0 <= j < k && (#[trigger] cards[j]).id == cards[k].id;
                assert(cards[j].id != cards[k].id);
            }
        }
        assert forall|m: int, k: int|
            0 <= m < cards.len() && 0 <= k < cards[m].relations.len() implies characters::character_known(
            cards,
            (#[trigger] cards[m].relations[k]).target_id,
        ) by {
            let c = cards[m];
            assert(characters::character_known(cards, c.relations[k].target_id));
        }
    }
}

fn is_card_id_taken(cards: &[Character], i: usize) -> (r: bool)
    requires
        i < cards.len(),
    ensures
        r == card_id_taken(characters::character_views(cards@), i as int),
{
    let ghost all = characters::character_views(cards@);
    let mut j: usize = 0;
    while j < i
        invariant
            j <= i < cards.len(),
            all == characters::character_views(cards@),
            forall|k: int| 0 <= k < j ==> (#[trigger] all[k]).id != all[i as int].id,
        decreases i - j,
    {
        if text::same(cards[j].id.as_str(), cards[i].id.as_str()) {
            assert(all[j as int].id == all[i as int].id);
            return true;
        }
        j += 1;
    }
    false
}

fn find_card_fault(cards: &[Character], i: usize) -> (r: Option<(&'static str, &'static str)>)
    requires
        i < cards.len(),
    ensures
        match (r, card_fault(characters::character_views(cards@), i as int)) {
            (Some(a), Some(b)) => a.0@ == b.0 && a.1@ == b.1,
            (None, None) => true,
            _ => false,
        },
{
    let c = &cards[i];
    assert(characters::character_views(cards@)[i as int] == c@);
    if !story_plan::is_webgal_flag_value(c.id.as_str()) {
        Some((".id", "must be a safe WebGAL id"))
    } else if text::is_blank(c.name.as_str()) {
        Some((".name", "must not be empty"))
    } else if is_card_id_taken(cards, i) {
        Some((".id", "must be unique"))
    } else if text::is_blank(c.description.as_str()) {
        Some((".description", "must not be empty"))
    } else if text::is_blank(c.personality.as_str()) {
        Some((".personality", "must not be empty"))
    } else if text::is_blank(c.dialogue_style.as_str()) {
        Some((".dialogueStyle", "must not be empty"))
    } else if c.keywords.len() == 0 {
        Some((".keywords", "must not be empty"))
    } else {
        None
    }
}

fn answers_to(card: &Character, reference: &str) -> (r: bool)
    ensures
        r == card_matches(card@, reference@),
{
    if text::eq_ignore_ascii_case(reference, card.id.as_str()) || text::same(
        reference,
        card.name.as_str(),
    ) {
        return true;
    }
    let ghost all = text::texts(card.aliases@);
    let mut i: usize = 0;
    while i < card.aliases.len()
        invariant
            i <= card.aliases.len(),
            all == text::texts(card.aliases@),
            forall|j: int|
                0 <= j < i ==> text::ascii_lowercase(reference@) != text::ascii_lowercase(
                    #[trigger] all[j],
                ),
        decreases card.aliases.len() - i,
    {
        assert(all[i as int] == card.aliases@[i as int]@);
        if text::eq_ignore_ascii_case(reference, card.aliases[i].as_str()) {
            return true;
        }
        i += 1;
    }
    false
}

fn is_reference_known(cards: &[Character], reference: &str) -> (r: bool)
    ensures
        r == reference_known(characters::character_views(cards@), reference@),
{
    let ghost all = characters::character_views(cards@);
    let mut i: usize = 0;
    while i < cards.len()
        invariant
            i <= cards.len(),
            all == characters::character_views(cards@),
            forall|j: int| 0 <= j < i ==> !card_matches(#[trigger] all[j], reference@),
        decreases cards.len() - i,
    {
        assert(all[i as int] == cards@[i as int]@);
        if answers_to(&cards[i], reference) {
            return true;
        }
        i += 1;
    }
    false
}

proof fn lemma_first_unknown_is(refs: Seq<Seq<char>>, cards: Seq<CharacterView>, k: int)
    requires
        0 <= k <= refs.len(),
        forall|j: int| 0 <= j < k ==> reference_known(cards, #[trigger] refs[j]),
        k < refs.len() ==> !reference_known(cards, refs[k]),
    ensures
        first_unknown(refs, cards) == k,
{
    lemma_first_unknown(refs, cards);
    let m = first_unknown(refs, cards);
    if m < k {
        assert(reference_known(cards, refs[m]));
    } else if m > k {
        assert(reference_known(cards, refs[k]));
    }
}

proof fn lemma_first_stray_is(relations: Seq<RelationView>, cards: Seq<CharacterView>, k: int)
    requires
        0 <= k <= relations.len(),
        forall|j: int|
            0 <= j < k ==> characters::character_known(cards, (#[trigger] relations[j]).target_id),
        k < relations.len() ==> !characters::character_known(cards, relations[k].target_id),
    ensures
        first_stray(relations, cards) == k,
{
    lemma_first_stray(relations, cards);
    let m = first_stray(relations, cards);
    if m < k {
        assert(characters::character_known(cards, relations[m].target_id));
    } else if m > k {
        assert(characters::character_known(cards, relations[k].target_id));
    }
}

fn find_unknown(refs: &Vec<String>, cards: &[Character]) -> (r: usize)
    ensures
        r == first_unknown(text::texts(refs@), characters::character_views(cards@)),
{
    let ghost all = text::texts(refs@);
    let ghost cs = characters::character_views(cards@);
    let mut i: usize = 0;
    while i < refs.len() && is_reference_known(cards, refs[i].as_str())
        invariant
            i <= refs.len(),
            all == text::texts(refs@),
            cs == characters::character_views(cards@),
            forall|j: int| 0 <= j < i ==> reference_known(cs, #[trigger] all[j]),
        decreases refs.len() - i,
    {
        i += 1;
    }
    proof {
        lemma_first_unknown_is(all, cs, i as int);
    }
    i
}

fn find_stray(relations: &Vec<CharacterRelation>, cards: &[Character]) -> (r: usize)
    ensures
        r == first_stray(
            characters::relation_views(relations@),
            characters::character_views(cards@),
        ),
{
    let ghost all = characters::relation_views(relations@);
    let ghost cs = characters::character_views(cards@);
    let mut i: usize = 0;
    while i < relations.len() && characters::position_of(cards, relations[i].target_id.as_str())
        < cards.len()
        invariant
            i <= relations.len(),
            all == characters::relation_views(relations@),
            cs == characters::character_views(cards@),
            forall|j: int|
                0 <= j < i ==> characters::character_known(cs, (#[trigger] all[j]).target_id),
        decreases relations.len() - i,
    {
        i += 1;
    }
    proof {
        lemma_first_stray_is(all, cs, i as int);
    }
    i
}

fn check_references(scenes: &[ScenePlan], cards: &[Character]) -> (r: Result<(), AgentError>)
    ensures
        match (
            r,
            references_fault_from(
                story_plan::scene_views(scenes@),
                0,
                characters::character_views(cards@),
            ),
        ) {
            (Ok(_), None) => true,
            (Err(e), Some(message)) => e.0@ == message,
            _ => false,
        },
{
    let ghost ss = story_plan::scene_views(scenes@);
    let ghost cs = characters::character_views(cards@);
    let mut i: usize = 0;
    while i < scenes.len()
        invariant
            i <= scenes.len(),
            ss == story_plan::scene_views(scenes@),
            cs == characters::character_views(cards@),
            references_fault_from(ss, 0, cs) == references_fault_from(ss, i as int, cs),
        decreases scenes.len() - i,
    {
        assert(ss[i as int] == scenes@[i as int]@);
        let k = find_unknown(&scenes[i].character_ids, cards);
        if k < scenes[i].character_ids.len() {
            let base = router::item_path_of("$.scenePlans", i);
            let list = router::joined(base.as_str(), ".characterIds");
            let path = router::item_path_of(list.as_str(), k);
            let message = router::joined(
                "has no matching character or alias: ",
                scenes[i].character_ids[k].as_str(),
            );
            return Err(router::contract_error(path.as_str(), message.as_str()));
        }
        i += 1;
    }
    Ok(())
}

fn check_relations(cards: &[Character]) -> (r: Result<(), AgentError>)
    ensures
        match (r, relations_fault_from(characters::character_views(cards@), 0)) {
            (Ok(_), None) => true,
            (Err(e), Some(message)) => e.0@ == message,
            _ => false,
        },
{
    let ghost cs = characters::character_views(cards@);
    let mut i: usize = 0;
    while i < cards.len()
        invariant
            i <= cards.len(),
            cs == characters::character_views(cards@),
            relations_fault_from(cs, 0) == relations_fault_from(cs, i as int),
        decreases cards.len() - i,
    {
        assert(cs[i as int] == cards@[i as int]@);
        let k = find_stray(&cards[i].relations, cards);
        if k < cards[i].relations.len() {
            let base = router::item_path_of("$.characters", i);
            let list = router::joined(base.as_str(), ".relations");
            let item = router::item_path_of(list.as_str(), k);
            let path = router::joined(item.as_str(), ".targetId");
            return Err(router::contract_error(path.as_str(), "references unknown character id"));
        }
        i += 1;
    }
    Ok(())
}

/// Holds a cast to its contract.
pub fn validate_characters(cards: &[Character], scenes: &[ScenePlan]) -> (r: Result<(), AgentError>)
    ensures
        match (
            r,
            cast_fault(characters::character_views(cards@), story_plan::scene_views(scenes@)),
        ) {
            (Ok(_), None) => true,
            (Err(e), Some(message)) => e.0@ == message,
            _ => false,
        },
        r is Ok <==> cast_sound(
            characters::character_views(cards@),
            story_plan::scene_views(scenes@),
        ),
{
    let ghost cs = characters::character_views(cards@);
    let ghost ss = story_plan::scene_views(scenes@);
    proof {
        faultless_casts_are_sound(cs, ss);
    }
    if cards.len() < 2 {
        return Err(router::contract_error("$.characters", "must contain at least 2 characters"));
    }
    let mut i: usize = 0;
    while i < cards.len()
        invariant
            i <= cards.len(),
            cards.len() >= 2,
            cs == characters::character_views(cards@),
            ss == story_plan::scene_views(scenes@),
            cards_fault_from(cs, 0) == cards_fault_from(cs, i as int),
            cast_fault(cs, ss) is None <==> cast_sound(cs, ss),
        decreases cards.len() - i,
    {
        if let Some(f) = find_card_fault(cards, i) {
            let base = router::item_path_of("$.characters", i);
            let path = router::joined(base.as_str(), f.0);
            return Err(router::contract_error(path.as_str(), f.1));
        }
        i += 1;
    }
    if let Err(error) = check_references(scenes, cards) {
        return Err(error);
    }
    check_relations(cards)
}

// ---------------------------------------------------------------------------
// The cast of a run without a model
// ---------------------------------------------------------------------------

/// The fields by which one local card differs from another.
pub struct CharacterSeed<'a> {
    pub id: &'a str,
    pub name: &'a str,
    pub description: &'a str,
    pub personality: &'a str,
    pub dialogue_style: &'a str,
    pub gender: &'a str,
    pub age: &'a str,
    pub keywords: &'a [&'a str],
    pub stance: &'a str,
}

/// The models of a list of string slices.
pub open spec fn slice_texts(v: Seq<&str>) -> Seq<Seq<char>> {
    v.map_values(|s: &str| s@)
}

impl<'a> CharacterSeed<'a> {
    /// The card of the seed; what the seed does not name is empty.
    pub open spec fn card(self) -> CharacterView {
        CharacterView {
            id: self.id@,
            name: self.name@,
            aliases: Seq::empty(),
            description: self.description@,
            personality: self.personality@,
            reference_images: Seq::empty(),
            stance: self.stance@,
            keywords: slice_texts(self.keywords@),
            dialogue_style: self.dialogue_style@,
            gender: self.gender@,
            age: self.age@,
            sprites: Seq::empty(),
            default_voice: None,
            voice_timbre: None,
            relations: Seq::empty(),
            color_theme: None,
            notes: Seq::empty(),
        }
    }

    pub fn build(self) -> (r: Character)
        ensures
            r@ == self.card(),
    {
        let mut keywords: Vec<String> = Vec::new();
        let mut i: usize = 0;
        while i < self.keywords.len()
            invariant
                i <= self.keywords.len(),
                text::texts(keywords@) =~= slice_texts(self.keywords@).take(i as int),
            decreases self.keywords.len() - i,
        {
            let word = text::copy(self.keywords[i]);
            let ghost before = text::texts(keywords@);
            keywords.push(word);
            assert(text::texts(keywords@) =~= before.push(word@));
            i += 1;
        }
        let r = Character {
            id: text::copy(self.id),
            name: text::copy(self.name),
            aliases: Vec::new(),
            description: text::copy(self.description),
            personality: text::copy(self.personality),
            reference_images: Vec::new(),
            stance: text::copy(self.stance),
            keywords,
            dialogue_style: text::copy(self.dialogue_style),
            gender: text::copy(self.gender),
            age: text::copy(self.age),
            sprites: Vec::new(),
            default_voice: None,
            voice_timbre: None,
            relations: Vec::new(),
            color_theme: None,
            notes: String::new(),
        };
        assert(r@.aliases =~= Seq::<Seq<char>>::empty());
        assert(r@.reference_images =~= Seq::<Seq<char>>::empty());
        assert(r@.keywords =~= slice_texts(self.keywords@));
        assert(r@.sprites =~= Seq::<SpriteView>::empty());
        assert(r@.relations =~= Seq::<RelationView>::empty());
        assert(r@.notes =~= Seq::<char>::empty());
        r
    }
}

/// A card with these fields and nothing else.
pub open spec fn plain_card(
    id: Seq<char>,
    name: Seq<char>,
    description: Seq<char>,
    personality: Seq<char>,
    dialogue_style: Seq<char>,
    gender: Seq<char>,
    age: Seq<char>,
    keywords: Seq<Seq<char>>,
    stance: Seq<char>,
) -> CharacterView {
    CharacterView {
        id,
        name,
        aliases: Seq::empty(),
        description,
        personality,
        reference_images: Seq::empty(),
        stance,
        keywords,
        dialogue_style,
        gender,
        age,
        sprites: Seq::empty(),
        default_voice: None,
        voice_timbre: None,
        relations: Seq::empty(),
        color_theme: None,
        notes: Seq::empty(),
    }
}

pub open spec fn local_cast() -> Seq<CharacterView> {
    seq![
        plain_card(
            "protagonist"@,
            "陆川"@,
            "习惯先观察再行动的转学生，是异常回声的新感知者。"@,
            "克制、敏锐、害怕连累别人；越紧张越会用事实掩饰情绪。"@,
            "短句，先确认事实再表达感受；真正下定决心时会直接叫对方名字。"@,
            "男"@,
            "17"@,
            seq!["主人公"@, "转学生"@, "锚点"@],
            "中立"@,
        ),
        plain_card(
            "heroine"@,
            "林夏"@,
            "掌握静默协议真相的少女，独自追查被抹去的异常记录。"@,
            "冷静外表下有强烈的责任感，不轻易求助，却会记住他人的微小善意。"@,
            "语气简洁，常用反问试探；放下戒备后会把真正担忧藏在玩笑后面。"@,
            "女"@,
            "17"@,
            seq!["女主角"@, "知情者"@, "异常回声"@],
            "越界者"@,
        ),
        plain_card(
            "friend"@,
            "周遥"@,
            "主人公在新环境中的第一个朋友，也是维持日常秩序的现实提醒。"@,
            "热心、务实、对气氛变化很敏感；不理解秘密，却愿意保护朋友。"@,
            "自然口语，会用具体小事打断沉重气氛；认真时不绕弯子。"@,
            "女"@,
            "17"@,
            seq!["朋友"@, "日常"@, "见证者"@],
            "守序"@,
        ),
    ]
}

fn make_local_cast() -> (r: Vec<Character>)
    ensures
        characters::character_views(r@) == local_cast(),
{
    let first = CharacterSeed {
        id: "protagonist",
        name: "陆川",
        description: "习惯先观察再行动的转学生，是异常回声的新感知者。",
        personality: "克制、敏锐、害怕连累别人；越紧张越会用事实掩饰情绪。",
        dialogue_style: "短句，先确认事实再表达感受；真正下定决心时会直接叫对方名字。",
        gender: "男",
        age: "17",
        keywords: &["主人公", "转学生", "锚点"],
        stance: "中立",
    };
    let second = CharacterSeed {
        id: "heroine",
        name: "林夏",
        description: "掌握静默协议真相的少女，独自追查被抹去的异常记录。",
        personality: "冷静外表下有强烈的责任感，不轻易求助，却会记住他人的微小善意。",
        dialogue_style: "语气简洁，常用反问试探；放下戒备后会把真正担忧藏在玩笑后面。",
        gender: "女",
        age: "17",
        keywords: &["女主角", "知情者", "异常回声"],
        stance: "越界者",
    };
    let third = CharacterSeed {
        id: "friend",
        name: "周遥",
        description: "主人公在新环境中的第一个朋友，也是维持日常秩序的现实提醒。",
        personality: "热心、务实、对气氛变化很敏感；不理解秘密，却愿意保护朋友。",
        dialogue_style: "自然口语，会用具体小事打断沉重气氛；认真时不绕弯子。",
        gender: "女",
        age: "17",
        keywords: &["朋友", "日常", "见证者"],
        stance: "守序",
    };
    proof {
        assert(slice_texts(first.keywords@) =~= seq!["主人公"@, "转学生"@, "锚点"@]);
        assert(slice_texts(second.keywords@) =~= seq!["女主角"@, "知情者"@, "异常回声"@]);
        assert(slice_texts(third.keywords@) =~= seq!["朋友"@, "日常"@, "见证者"@]);
    }
    let r = vec![first.build(), second.build(), third.build()];
    assert(characters::character_views(r@) =~= local_cast());
    r
}

/// What the model is told, each field under its name in JSON.
pub struct CharacterInput<'a> {
    pub production_brief: &'a str,
    pub synopsis: &'a str,
    pub worldbook: &'a str,
    pub chapters: &'a [ChapterPlan],
    pub scene_plans: &'a [ScenePlan],
    pub step_instruction: &'a str,
    pub requirements: &'static str,
}

impl CharacterAgent {
    /// What the model is told of the flow.
    pub fn input<'a>(&self, ctx: &AgentContext<'a>) -> (r: Result<CharacterInput<'a>, AgentError>)
        ensures
            match r {
                Ok(input) => {
                    &&& ctx.scene_plans@.len() > 0
                    &&& input.production_brief@ == ctx.prompt@
                    &&& input.synopsis@ == ctx.synopsis@
                    &&& input.worldbook@ == ctx.worldbook@
                    &&& input.chapters@ == ctx.chapters@
                    &&& input.scene_plans@ == ctx.scene_plans@
                    &&& input.step_instruction@ == ctx.instruction@
                    &&& input.requirements@ == REQUIREMENTS@
                },
                Err(e) => ctx.scene_plans@.len() == 0 && e.0@
                    == "Character Agent requires scene plans"@,
            },
    {
        if ctx.scene_plans.len() == 0 {
            return Err(AgentError(text::copy("Character Agent requires scene plans")));
        }
        Ok(
            CharacterInput {
                production_brief: ctx.prompt,
                synopsis: ctx.synopsis,
                worldbook: ctx.worldbook,
                chapters: ctx.chapters,
                scene_plans: ctx.scene_plans,
                step_instruction: ctx.instruction,
                requirements: REQUIREMENTS,
            },
        )
    }
}

impl CharacterAgent {
    /// What is asked of the model, around the given context.
    pub fn request(&self, ctx: &AgentContext, context: String) -> (r: Result<ModelTask, AgentError>)
        ensures
            match r {
                Ok(task) => ctx.scene_plans@.len() > 0 && task.role@ == ROLE@ && task.task@ == TASK@
                    && task.context == context && task.allow_local_fallback
                    == ctx.allow_local_fallback,
                Err(e) => ctx.scene_plans@.len() == 0 && e.0@
                    == "Character Agent requires scene plans"@,
            },
    {
        if ctx.scene_plans.len() == 0 {
            return Err(AgentError(text::copy("Character Agent requires scene plans")));
        }
        Ok(
            ModelTask {
                role: text::copy(ROLE),
                task: text::copy(TASK),
                context,
                allow_local_fallback: ctx.allow_local_fallback,
            },
        )
    }

    /// Drops a model's incomplete relations and holds its cast to its contract.
    pub fn validate(&self, ctx: &AgentContext, response: &mut CharacterResponse) -> (r: Result<
        (),
        AgentError,
    >)
        ensures
            characters::character_views(final(response).characters@) == characters::character_views(
                old(response).characters@,
            ).map_values(|c: CharacterView| with_complete_relations(c)),
            match (
                r,
                cast_fault(
                    characters::character_views(final(response).characters@),
                    story_plan::scene_views(ctx.scene_plans@),
                ),
            ) {
                (Ok(_), None) => true,
                (Err(e), Some(message)) => e.0@ == message,
                _ => false,
            },
    {
        discard_incomplete_relations(&mut response.characters);
        validate_characters(response.characters.as_slice(), ctx.scene_plans)
    }

    /// The agent's output, given how the conversation with the model ended.
    pub fn run(
        &self,
        ctx: &AgentContext,
        reply: Result<Option<Routed<CharacterResponse>>, AgentError>,
    ) -> (r: Result<AgentOutput, AgentError>)
        ensures
            if ctx.scene_plans@.len() == 0 {
                r matches Err(e) && e.0@ == "Character Agent requires scene plans"@
            } else {
                match reply {
                    Err(error) => r == Err::<AgentOutput, AgentError>(error),
                    Ok(Some(routed)) => r matches Ok(out) && out.payload
                        == AgentOutputPayload::Characters(routed.value.characters)
                        && crate::agents::from_model(
                        out,
                        routed.model,
                        routed.prompt_tokens,
                        routed.completion_tokens,
                    ),
                    Ok(None) => r matches Ok(out) && crate::agents::from_template(out)
                        && (out.payload matches AgentOutputPayload::Characters(cards)
                        && characters::character_views(cards@) == local_cast()),
                }
            },
    {
        if ctx.scene_plans.len() == 0 {
            return Err(AgentError(text::copy("Character Agent requires scene plans")));
        }
        match reply {
            Err(error) => Err(error),
            Ok(Some(routed)) => Ok(
                AgentOutput::new(
                    AgentOutputPayload::Characters(routed.value.characters),
                ).with_model(routed.model, routed.prompt_tokens, routed.completion_tokens),
            ),
            Ok(None) => {
                let cards = make_local_cast();
                let out = AgentOutput::new(AgentOutputPayload::Characters(cards)).local_fallback();
                assert(text::texts(out.warnings@) =~= seq!["未配置可用的对话模型，已使用本地内容模板"@]);
                Ok(out)
            },
        }
    }
}

proof fn lemma_dark(s: Seq<char>)
    requires
        s.len() > 0,
        !text::whitespace(s[0]),
    ensures
        !text::blank(s),
{
    text::lemma_blank(s);
}

proof fn lemma_local_cards()
    ensures
        forall|i: int|
            0 <= i < 3 ==> {
                let c = #[trigger] local_cast()[i];
                &&& story_plan::flag_value(c.id)
                &&& !text::blank(c.name)
                &&& !text::blank(c.description)
                &&& !text::blank(c.personality)
                &&& !text::blank(c.dialogue_style)
            },
        local_cast()[0].id != local_cast()[1].id,
        local_cast()[0].id != local_cast()[2].id,
        local_cast()[1].id != local_cast()[2].id,
{
    reveal_strlit("protagonist");
    reveal_strlit("heroine");
    reveal_strlit("friend");
    reveal_strlit("陆川");
    reveal_strlit("林夏");
    reveal_strlit("周遥");
    reveal_strlit("习惯先观察再行动的转学生，是异常回声的新感知者。");
    reveal_strlit("掌握静默协议真相的少女，独自追查被抹去的异常记录。");
    reveal_strlit("主人公在新环境中的第一个朋友，也是维持日常秩序的现实提醒。");
    reveal_strlit("克制、敏锐、害怕连累别人；越紧张越会用事实掩饰情绪。");
    reveal_strlit("冷静外表下有强烈的责任感，不轻易求助，却会记住他人的微小善意。");
    reveal_strlit("热心、务实、对气氛变化很敏感；不理解秘密，却愿意保护朋友。");
    reveal_strlit("短句，先确认事实再表达感受；真正下定决心时会直接叫对方名字。");
    reveal_strlit("语气简洁，常用反问试探；放下戒备后会把真正担忧藏在玩笑后面。");
    reveal_strlit("自然口语，会用具体小事打断沉重气氛；认真时不绕弯子。");
    assert forall|i: int| 0 <= i < 3 implies {
        let c = #[trigger] local_cast()[i];
        &&& story_plan::flag_value(c.id)
        &&& !text::blank(c.name)
        &&& !text::blank(c.description)
        &&& !text::blank(c.personality)
        &&& !text::blank(c.dialogue_style)
    } by {
        let c = local_cast()[i];
        lemma_dark(c.name);
        lemma_dark(c.description);
        lemma_dark(c.personality);
        lemma_dark(c.dialogue_style);
    }
}

/// The cast of a run without a model keeps its contract, and answers to every
/// reference of the outline of such a run.
pub proof fn local_cast_is_sound()
    ensures
        cast_sound(local_cast(), outline::local_scenes()),
{
    lemma_local_cards();
    let cs = local_cast();
    let ss = outline::local_scenes();
    assert forall|i: int, k: int|
        0 <= i < ss.len() && 0 <= k < ss[i].character_ids.len() implies reference_known(
        cs,
        #[trigger] ss[i].character_ids[k],
    ) by {
        let reference = ss[i].character_ids[k];
        assert(reference == cs[0].id || reference == cs[1].id || reference == cs[2].id);
        if reference == cs[0].id {
            assert(card_matches(cs[0], reference));
        } else if reference == cs[1].id {
            assert(card_matches(cs[1], reference));
        } else {
            assert(card_matches(cs[2], reference));
        }
    }
}

// ---------------------------------------------------------------------------
// What a cast is refused for
// ---------------------------------------------------------------------------

/// A cast is accepted exactly where it can play the scenes: at least two cards, each
/// with a safe id of its own and with its name, description, personality, way of
/// speaking and keywords; every relation leads to a card; and every character of a scene
/// is a card by its id or an alias, in whatever case, or by its name.
pub proof fn casts_are_accepted_where_they_can_play(
    cards: Seq<CharacterView>,
    scenes: Seq<SceneView>,
)
    ensures
        cast_fault(cards, scenes) is None <==> {
            &&& cards.len() >= 2
            &&& forall|i: int|
                0 <= i < cards.len() ==> {
                    let c = #[trigger] cards[i];
                    &&& story_plan::flag_value(c.id)
                    &&& !text::blank(c.name) && !text::blank(c.description) && !text::blank(
                        c.personality,
                    ) && !text::blank(c.dialogue_style) && c.keywords.len() > 0
                    &&& forall|k: int|
                        0 <= k < c.relations.len() ==> exists|t: int|
                            0 <= t < cards.len() && (#[trigger] cards[t]).id == (
                            #[trigger] c.relations[k]).target_id
                }
            &&& forall|i: int, j: int|
                0 <= i < j < cards.len() ==> (#[trigger] cards[i]).id != (#[trigger] cards[j]).id
            &&& forall|i: int, k: int|
                0 <= i < scenes.len() && 0 <= k < scenes[i].character_ids.len() ==> exists|t: int|
                    {
                        let who = #[trigger] scenes[i].character_ids[k];
                        &&& 0 <= t < cards.len()
                        &&& text::ascii_lowercase((#[trigger] cards[t]).id) == text::ascii_lowercase(
                            who,
                        ) || cards[t].name == who || exists|a: int|
                            0 <= a < cards[t].aliases.len() && text::ascii_lowercase(
                                #[trigger] cards[t].aliases[a],
                            ) == text::ascii_lowercase(who)
                    }
        },
{
    faultless_casts_are_sound(cards, scenes);
    assert forall|t: int, who: Seq<char>| 0 <= t < cards.len() implies (#[trigger] card_matches(
        cards[t],
        who,
    ) <==> text::ascii_lowercase(cards[t].id) == text::ascii_lowercase(who) || cards[t].name == who
        || exists|a: int|
        0 <= a < cards[t].aliases.len() && text::ascii_lowercase(#[trigger] cards[t].aliases[a])
            == text::ascii_lowercase(who)) by {}
    assert forall|i: int, k: int|
        0 <= i < scenes.len() && 0 <= k < scenes[i].character_ids.len() implies (reference_known(
        cards,
        #[trigger] scenes[i].character_ids[k],
    ) <==> exists|t: int|
        {
            let who = scenes[i].character_ids[k];
            &&& 0 <= t < cards.len()
            &&& text::ascii_lowercase((#[trigger] cards[t]).id) == text::ascii_lowercase(who)
                || cards[t].name == who || exists|a: int|
                0 <= a < cards[t].aliases.len() && text::ascii_lowercase(
                    #[trigger] cards[t].aliases[a],
                ) == text::ascii_lowercase(who)
        }) by {
        let who = scenes[i].character_ids[k];
        if reference_known(cards, who) {
            let t = choose|t: int| 0 <= t < cards.len() && card_matches(#[trigger] cards[t], who);
            assert(card_matches(cards[t], who));
        }
        if exists|t: int|
            {
                &&& 0 <= t < cards.len()
                &&& text::ascii_lowercase((#[trigger] cards[t]).id) == text::ascii_lowercase(who)
                    || cards[t].name == who || exists|a: int|
                    0 <= a < cards[t].aliases.len() && text::ascii_lowercase(
                        #[trigger] cards[t].aliases[a],
                    ) == text::ascii_lowercase(who)
            } {
            let t = choose|t: int|
                {
                    &&& 0 <= t < cards.len()
                    &&& text::ascii_lowercase((#[trigger] cards[t]).id) == text::ascii_lowercase(
                        who,
                    ) || cards[t].name == who || exists|a: int|
                        0 <= a < cards[t].aliases.len() && text::ascii_lowercase(
                            #[trigger] cards[t].aliases[a],
                        ) == text::ascii_lowercase(who)
                };
            assert(card_matches(cards[t], who));
        }
    }
}

/// Relations that lack their target or their kind are dropped; the others are kept, in
/// their order, and so is the rest of the card.
pub proof fn complete_relations_are_kept(card: CharacterView) -> (at: Seq<int>)
    ensures
        with_complete_relations(card) == (CharacterView {
            relations: with_complete_relations(card).relations,
            ..card
        }),
        with_complete_relations(card).relations.len() == at.len(),
        forall|k: int|
            0 <= k < at.len() ==> 0 <= #[trigger] at[k] < card.relations.len()
                && with_complete_relations(card).relations[k] == card.relations[at[k]],
        forall|k: int, l: int| 0 <= k < l < at.len() ==> #[trigger] at[k] < #[trigger] at[l],
        forall|i: int|
            0 <= i < card.relations.len() ==> (at.contains(i) <==> !text::blank(
                (#[trigger] card.relations[i]).target_id,
            ) && !text::blank(card.relations[i].relation_type)),
{
    lemma_complete(card.relations)
}

proof fn lemma_complete(v: Seq<RelationView>) -> (at: Seq<int>)
    ensures
        complete_relations(v).len() == at.len(),
        forall|k: int|
            0 <= k < at.len() ==> 0 <= #[trigger] at[k] < v.len() && complete_relations(v)[k]
                == v[at[k]],
        forall|k: int, l: int| 0 <= k < l < at.len() ==> #[trigger] at[k] < #[trigger] at[l],
        forall|i: int|
            0 <= i < v.len() ==> (at.contains(i) <==> !text::blank((#[trigger] v[i]).target_id)
                && !text::blank(v[i].relation_type)),
    decreases v.len(),
{
    if v.len() == 0 {
        Seq::empty()
    } else {
        let d = v.drop_last();
        let before = lemma_complete(d);
        let last = v.len() - 1;
        let keeps = complete_relation(v[last]);
        let at = if keeps {
            before.push(last)
        } else {
            before
        };
        assert forall|i: int| 0 <= i < v.len() implies (at.contains(i) <==> !text::blank(
            (#[trigger] v[i]).target_id,
        ) && !text::blank(v[i].relation_type)) by {
            if i < last {
                assert(d[i] == v[i]);
                if before.contains(i) {
                    let k = choose|k: int| 0 <= k < before.len() && before[k] == i;
                    assert(at[k] == i);
                }
                if at.contains(i) {
                    let k = choose|k: int| 0 <= k < at.len() && at[k] == i;
                    assert(before[k] == i);
                }
            } else {
                if keeps {
                    assert(at[before.len() as int] == last);
                }
                if at.contains(last) && !keeps {
                    let k = choose|k: int| 0 <= k < at.len() && at[k] == last;
                    assert(before[k] < d.len());
                }
            }
        }
        at
    }
}

/// A refused card is named: the first one with a fault, by its place in the list and the
/// field that is wrong.
pub proof fn refused_cards_are_named(cards: Seq<CharacterView>, scenes: Seq<SceneView>, i: int)
    requires
        cards.len() >= 2,
        0 <= i < cards.len(),
        forall|j: int| 0 <= j < i ==> card_fault(cards, j) is None,
        forall|j: int| 0 <= j < i ==> (#[trigger] cards[j]).id != cards[i].id,
        ({
            let c = cards[i];
            !story_plan::flag_value(c.id) || text::blank(c.name) || text::blank(c.description)
                || text::blank(c.personality) || text::blank(c.dialogue_style) || c.keywords.len()
                == 0
        }),
    ensures
        ({
            let c = cards[i];
            let field = if !story_plan::flag_value(c.id) {
                ".id"@
            } else if text::blank(c.name) {
                ".name"@
            } else if text::blank(c.description) {
                ".description"@
            } else if text::blank(c.personality) {
                ".personality"@
            } else if text::blank(c.dialogue_style) {
                ".dialogueStyle"@
            } else {
                ".keywords"@
            };
            cast_fault(cards, scenes) matches Some(m) && text::begins(
                m,
                "contract violation at "@ + ("$.characters"@ + "["@ + text::decimal(i as nat) + "]"@
                    + field) + ": "@,
            )
        }),
{
    let fault = card_fault(cards, i).unwrap();
    lemma_first_card_fault(cards, 0, i);
    let head = "contract violation at "@ + (router::item_path("$.characters"@, i) + fault.0) + ": "@;
    text::parts_of_a_text_are_found(Seq::empty(), head, fault.1, head);
}

proof fn lemma_first_card_fault(cards: Seq<CharacterView>, from: int, i: int)
    requires
        0 <= from <= i < cards.len(),
        forall|j: int| from <= j < i ==> card_fault(cards, j) is None,
        card_fault(cards, i) is Some,
    ensures
        cards_fault_from(cards, from) == Some(
            router::violation(
                router::item_path("$.characters"@, i) + card_fault(cards, i).unwrap().0,
                card_fault(cards, i).unwrap().1,
            ),
        ),
    decreases i - from,
{
    if from < i {
        assert(card_fault(cards, from) is None);
        lemma_first_card_fault(cards, from + 1, i);
    }
}

} // verus!
