//! Typed game data: areas, quests with their reward offers, and gems.

use vstd::prelude::*;

use crate::map::{Dup, StrMap, dup_vec, lookup};

verus! {

#[derive(Debug, Clone)]
pub struct Area {
    pub id: String,
    pub name: String,
    pub act: u8,
    pub level: Option<u8>,
    pub has_waypoint: bool,
    pub is_town_area: bool,
    pub parent_town_area_id: Option<String>,
    pub connection_ids: Vec<String>,
    pub crafting_recipes: Vec<String>,
}

pub struct AreaView {
    pub id: Seq<char>,
    pub name: Seq<char>,
    pub act: u8,
    pub level: Option<u8>,
    pub has_waypoint: bool,
    pub is_town_area: bool,
    pub parent_town_area_id: Option<Seq<char>>,
    pub connection_ids: Seq<Seq<char>>,
    pub crafting_recipes: Seq<Seq<char>>,
}

impl DeepView for Area {
    type V = AreaView;

    open spec fn deep_view(&self) -> AreaView {
        AreaView {
            id: self.id@,
            name: self.name@,
            act: self.act,
            level: self.level,
            has_waypoint: self.has_waypoint,
            is_town_area: self.is_town_area,
            parent_town_area_id: self.parent_town_area_id.deep_view(),
            connection_ids: self.connection_ids.deep_view(),
            crafting_recipes: self.crafting_recipes.deep_view(),
        }
    }
}

impl Dup for Area {
    fn dup(&self) -> (r: Area) {
        Area {
            id: self.id.clone(),
            name: self.name.clone(),
            act: self.act,
            level: self.level,
            has_waypoint: self.has_waypoint,
            is_town_area: self.is_town_area,
            parent_town_area_id: self.parent_town_area_id.dup(),
            connection_ids: dup_vec(&self.connection_ids),
            crafting_recipes: dup_vec(&self.crafting_recipes),
        }
    }
}

/// A gem offered on a quest's reward screen, restricted to `classes`
/// (empty: every class).
#[derive(Debug, Clone)]
pub struct QuestGemReward {
    pub classes: Vec<String>,
}

impl DeepView for QuestGemReward {
    type V = Seq<Seq<char>>;

    open spec fn deep_view(&self) -> Seq<Seq<char>> {
        self.classes.deep_view()
    }
}

impl Dup for QuestGemReward {
    fn dup(&self) -> (r: QuestGemReward) {
        QuestGemReward { classes: dup_vec(&self.classes) }
    }
}

/// A gem a vendor sells once the quest is done, restricted to `classes`
/// (empty: every class), sold by `npc`.
#[derive(Debug, Clone)]
pub struct VendorGemReward {
    pub classes: Vec<String>,
    pub npc: Option<String>,
}

impl DeepView for VendorGemReward {
    type V = (Seq<Seq<char>>, Option<Seq<char>>);

    open spec fn deep_view(&self) -> (Seq<Seq<char>>, Option<Seq<char>>) {
        (self.classes.deep_view(), self.npc.deep_view())
    }
}

impl Dup for VendorGemReward {
    fn dup(&self) -> (r: VendorGemReward) {
        VendorGemReward { classes: dup_vec(&self.classes), npc: self.npc.dup() }
    }
}

/// One rewarding NPC's offer for a quest: gems on the reward screen and
/// gems for sale afterwards, each keyed by gem id.
#[derive(Debug)]
pub struct RewardOffer {
    pub quest_npc: Option<String>,
    pub quest: StrMap<QuestGemReward>,
    pub vendor: StrMap<VendorGemReward>,
}

pub struct RewardOfferView {
    pub quest_npc: Option<Seq<char>>,
    pub quest: Seq<(Seq<char>, Seq<Seq<char>>)>,
    pub vendor: Seq<(Seq<char>, (Seq<Seq<char>>, Option<Seq<char>>))>,
}

impl DeepView for RewardOffer {
    type V = RewardOfferView;

    open spec fn deep_view(&self) -> RewardOfferView {
        RewardOfferView {
            quest_npc: self.quest_npc.deep_view(),
            quest: self.quest@,
            vendor: self.vendor@,
        }
    }
}

impl Dup for RewardOffer {
    fn dup(&self) -> (r: RewardOffer) {
        RewardOffer { quest_npc: self.quest_npc.dup(), quest: self.quest.dup(), vendor: self.vendor.dup() }
    }
}

#[derive(Debug)]
pub struct Quest {
    pub id: String,
    pub name: String,
    pub act: u8,
    /// Reward offers keyed by offer id (one per rewarding NPC).
    pub reward_offers: StrMap<RewardOffer>,
}

pub struct QuestView {
    pub id: Seq<char>,
    pub name: Seq<char>,
    pub act: u8,
    pub reward_offers: Seq<(Seq<char>, RewardOfferView)>,
}

impl DeepView for Quest {
    type V = QuestView;

    open spec fn deep_view(&self) -> QuestView {
        QuestView { id: self.id@, name: self.name@, act: self.act, reward_offers: self.reward_offers@ }
    }
}

impl Dup for Quest {
    fn dup(&self) -> (r: Quest) {
        Quest {
            id: self.id.clone(),
            name: self.name.clone(),
            act: self.act,
            reward_offers: self.reward_offers.dup(),
        }
    }
}

#[derive(Debug, Clone)]
pub struct Gem {
    pub id: String,
    pub name: String,
    pub required_level: u8,
    pub is_support: bool,
}

pub struct GemView {
    pub id: Seq<char>,
    pub name: Seq<char>,
    pub required_level: u8,
    pub is_support: bool,
}

impl DeepView for Gem {
    type V = GemView;

    open spec fn deep_view(&self) -> GemView {
        GemView {
            id: self.id@,
            name: self.name@,
            required_level: self.required_level,
            is_support: self.is_support,
        }
    }
}

impl Dup for Gem {
    fn dup(&self) -> (r: Gem) {
        Gem {
            id: self.id.clone(),
            name: self.name.clone(),
            required_level: self.required_level,
            is_support: self.is_support,
        }
    }
}

pub type AreaMap = StrMap<Area>;

pub type QuestMap = StrMap<Quest>;

pub type GemMap = StrMap<Gem>;

/// Whether `id` names a known town area (unknown ids are not towns).
pub open spec fn is_town_in(areas: Seq<(Seq<char>, AreaView)>, id: Seq<char>) -> bool {
    match lookup(areas, id) {
        Some(a) => a.is_town_area,
        None => false,
    }
}

/// Whether `id` names a known town area.
pub fn is_town_area(areas: &AreaMap, id: &str) -> (b: bool)
    ensures
        b == is_town_in(areas@, id@),
{
    match areas.get(id) {
        Some(a) => a.is_town_area,
        None => false,
    }
}

/// `gems` indexed by gem name, the lowest `required_level` winning a
/// shared name (the first one in id order on a tie).
pub open spec fn gems_by_name_of(gems: Seq<(Seq<char>, GemView)>) -> Seq<(Seq<char>, GemView)>
    decreases gems.len(),
{
    if gems.len() == 0 {
        Seq::empty()
    } else {
        let acc = gems_by_name_of(gems.drop_last());
        let g = gems.last().1;
        match lookup(acc, g.name) {
            Some(existing) => if g.required_level < existing.required_level {
                crate::map::insert_entry(acc, g.name, g)
            } else {
                acc
            },
            None => crate::map::insert_entry(acc, g.name, g),
        }
    }
}

proof fn lemma_by_name_keeps(gems: Seq<(Seq<char>, GemView)>, k: int, name: Seq<char>, level: int)
    requires
        0 <= k <= gems.len(),
        lookup(gems_by_name_of(gems.take(k)), name) matches Some(e) && e.required_level <= level,
    ensures
        lookup(gems_by_name_of(gems), name) matches Some(e) && e.required_level <= level,
    decreases gems.len() - k,
{
    if k < gems.len() {
        let acc = gems_by_name_of(gems.take(k));
        let g = gems[k].1;
        assert(gems.take(k + 1).drop_last() =~= gems.take(k));
        assert(gems.take(k + 1).last() == gems[k]);
        if g.name == name {
            let e = lookup(acc, name)->0;
            if g.required_level < e.required_level {
                crate::map::lemma_lookup_insert_same(acc, g.name, g);
            }
        } else {
            match lookup(acc, g.name) {
                Some(existing) => if g.required_level < existing.required_level {
                    crate::map::lemma_lookup_insert_other(acc, g.name, g, name);
                },
                None => {
                    crate::map::lemma_lookup_insert_other(acc, g.name, g, name);
                },
            }
        }
        lemma_by_name_keeps(gems, k + 1, name, level);
    } else {
        assert(gems.take(k) =~= gems);
    }
}

/// The lowest required level wins a shared name: every gem's name is
/// indexed, to a gem whose required level is at most that gem's.
pub proof fn lemma_lowest_level_wins(gems: Seq<(Seq<char>, GemView)>, i: int)
    requires
        0 <= i < gems.len(),
    ensures
        lookup(gems_by_name_of(gems), gems[i].1.name) matches Some(e) && e.required_level
            <= gems[i].1.required_level,
{
    let g = gems[i].1;
    let acc = gems_by_name_of(gems.take(i));
    assert(gems.take(i + 1).drop_last() =~= gems.take(i));
    assert(gems.take(i + 1).last() == gems[i]);
    match lookup(acc, g.name) {
        Some(existing) => if g.required_level < existing.required_level {
            crate::map::lemma_lookup_insert_same(acc, g.name, g);
        },
        None => {
            crate::map::lemma_lookup_insert_same(acc, g.name, g);
        },
    }
    lemma_by_name_keeps(gems, i + 1, g.name, g.required_level as int);
}

/// Index of gems by name; on a shared name the lowest `required_level`
/// wins.
pub fn gems_by_name(gems: &GemMap) -> (result: StrMap<Gem>)
    ensures
        result@ == gems_by_name_of(gems@),
{
    let mut result: StrMap<Gem> = StrMap::new();
    let mut i: usize = 0;
    while i < gems.len()
        invariant
            i <= gems@.len(),
            result@ == gems_by_name_of(gems@.take(i as int)),
        decreases gems@.len() - i,
    {
        let gem = gems.value_at(i);
        proof {
            assert(gems@.take(i + 1).drop_last() =~= gems@.take(i as int));
        }
        let replace = match result.get(gem.name.as_str()) {
            Some(existing) => gem.required_level < existing.required_level,
            None => true,
        };
        if replace {
            result.insert(gem.name.clone(), gem.dup());
        }
        i += 1;
    }
    assert(gems@.take(gems@.len() as int) =~= gems@);
    result
}

} // verus!
