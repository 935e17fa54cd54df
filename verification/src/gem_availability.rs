//! When each class can first obtain each gem, from the quests' reward
//! offers, and the level at which each act is entered.

use vstd::prelude::*;

use std::collections::BTreeMap;

use crate::game_data::{AreaMap, Quest, QuestMap, QuestView, RewardOffer, RewardOfferView};
use crate::map::{insert_entry, key_lt, key_less, lookup, StrMap};
use crate::text::{chars_of, find, find_chars, str_eq};
use crate::walk::{AreasView, QuestsView};

verus! {

/// How a gem is obtained at its earliest point.
#[derive(Debug, Clone, Copy, PartialEq, Eq, PartialOrd, Ord, Structural)]
pub enum AvailabilitySource {
    /// Free pick from the quest's reward screen.
    QuestReward,
    /// Purchasable from an NPC once the quest is complete.
    Vendor,
}

/// The earliest point a class can obtain a gem.
#[derive(Debug, Clone, PartialEq)]
pub struct GemAvailability {
    pub act: u8,
    pub quest_id: String,
    pub quest_name: String,
    /// The vendor for vendor offers; the quest's rewarding NPC otherwise.
    pub npc: Option<String>,
    pub source: AvailabilitySource,
}

pub struct GemAvailabilityView {
    pub act: u8,
    pub quest_id: Seq<char>,
    pub quest_name: Seq<char>,
    pub npc: Option<Seq<char>>,
    pub source: AvailabilitySource,
}

impl DeepView for GemAvailability {
    type V = GemAvailabilityView;

    open spec fn deep_view(&self) -> GemAvailabilityView {
        GemAvailabilityView {
            act: self.act,
            quest_id: self.quest_id@,
            quest_name: self.quest_name@,
            npc: self.npc.deep_view(),
            source: self.source,
        }
    }
}

pub type Availability = Seq<(Seq<char>, GemAvailabilityView)>;

// ---------------------------------------------------------------------
// Specification
// ---------------------------------------------------------------------

pub open spec fn source_rank(s: AvailabilitySource) -> int {
    match s {
        AvailabilitySource::QuestReward => 0,
        AvailabilitySource::Vendor => 1,
    }
}

/// Earlier act first; in one act a quest reward before a vendor; then the
/// smaller quest id.
pub open spec fn beats(c: GemAvailabilityView, e: GemAvailabilityView) -> bool {
    c.act < e.act || (c.act == e.act && (source_rank(c.source) < source_rank(e.source) || (
    c.source == e.source && key_lt(c.quest_id, e.quest_id))))
}

/// Whether an offer restricted to `classes` (none: every class) applies
/// to `class`.
pub open spec fn applies(classes: Seq<Seq<char>>, class: Seq<char>) -> bool {
    classes.len() == 0 || classes.contains(class)
}

/// One offer of gem `gem_id` folded into `acc`.
pub open spec fn consider(
    acc: Availability,
    gem_id: Seq<char>,
    classes: Seq<Seq<char>>,
    npc: Option<Seq<char>>,
    source: AvailabilitySource,
    quest: QuestView,
    class: Seq<char>,
) -> Availability {
    if find(gem_id, "/Gems/"@) is None || !applies(classes, class) {
        acc
    } else {
        let cand = GemAvailabilityView {
            act: quest.act,
            quest_id: quest.id,
            quest_name: quest.name,
            npc,
            source,
        };
        match lookup(acc, gem_id) {
            Some(existing) => if beats(cand, existing) {
                insert_entry(acc, gem_id, cand)
            } else {
                acc
            },
            None => insert_entry(acc, gem_id, cand),
        }
    }
}

pub open spec fn fold_quest_rewards(
    acc: Availability,
    rewards: Seq<(Seq<char>, Seq<Seq<char>>)>,
    npc: Option<Seq<char>>,
    quest: QuestView,
    class: Seq<char>,
) -> Availability
    decreases rewards.len(),
{
    if rewards.len() == 0 {
        acc
    } else {
        let a = fold_quest_rewards(acc, rewards.drop_last(), npc, quest, class);
        consider(a, rewards.last().0, rewards.last().1, npc, AvailabilitySource::QuestReward, quest, class)
    }
}

pub open spec fn fold_vendor_rewards(
    acc: Availability,
    rewards: Seq<(Seq<char>, (Seq<Seq<char>>, Option<Seq<char>>))>,
    quest: QuestView,
    class: Seq<char>,
) -> Availability
    decreases rewards.len(),
{
    if rewards.len() == 0 {
        acc
    } else {
        let a = fold_vendor_rewards(acc, rewards.drop_last(), quest, class);
        consider(
            a,
            rewards.last().0,
            rewards.last().1.0,
            rewards.last().1.1,
            AvailabilitySource::Vendor,
            quest,
            class,
        )
    }
}

/// An offer's quest rewards, then its vendor rewards.
pub open spec fn fold_offer(acc: Availability, offer: RewardOfferView, quest: QuestView, class: Seq<char>) -> Availability {
    fold_vendor_rewards(fold_quest_rewards(acc, offer.quest, offer.quest_npc, quest, class), offer.vendor, quest, class)
}

pub open spec fn fold_offers(
    acc: Availability,
    offers: Seq<(Seq<char>, RewardOfferView)>,
    quest: QuestView,
    class: Seq<char>,
) -> Availability
    decreases offers.len(),
{
    if offers.len() == 0 {
        acc
    } else {
        fold_offer(fold_offers(acc, offers.drop_last(), quest, class), offers.last().1, quest, class)
    }
}

pub open spec fn fold_quests(acc: Availability, quests: QuestsView, class: Seq<char>) -> Availability
    decreases quests.len(),
{
    if quests.len() == 0 {
        acc
    } else {
        let q = quests.last().1;
        fold_offers(fold_quests(acc, quests.drop_last(), class), q.reward_offers, q, class)
    }
}

/// The earliest availability of every gem for `class`, by gem id.
pub open spec fn availability_spec(quests: QuestsView, class: Seq<char>) -> Availability {
    fold_quests(Seq::empty(), quests, class)
}

// ---------------------------------------------------------------------
// Laws: the earliest offer wins
// ---------------------------------------------------------------------

/// What an offer of a gem in `quest` would record.
pub open spec fn offer_cand(quest: QuestView, npc: Option<Seq<char>>, source: AvailabilitySource) -> GemAvailabilityView {
    GemAvailabilityView { act: quest.act, quest_id: quest.id, quest_name: quest.name, npc, source }
}

/// `acc` records gem `gid` no later than `c`.
pub open spec fn no_later(acc: Availability, gid: Seq<char>, c: GemAvailabilityView) -> bool {
    lookup(acc, gid) matches Some(e) && !beats(c, e)
}

/// Whether an offer of gem `gid` restricted to `classes` counts for `class`.
pub open spec fn counts(gid: Seq<char>, classes: Seq<Seq<char>>, class: Seq<char>) -> bool {
    find(gid, "/Gems/"@) is Some && applies(classes, class)
}

proof fn lemma_beats_transitive(a: GemAvailabilityView, b: GemAvailabilityView, c: GemAvailabilityView)
    requires
        beats(a, b),
        beats(b, c),
    ensures
        beats(a, c),
{
    if a.act == b.act && b.act == c.act && a.source == b.source && b.source == c.source {
        crate::map::lemma_key_lt_transitive(a.quest_id, b.quest_id, c.quest_id);
    }
}

proof fn lemma_consider_keeps(
    acc: Availability,
    gem_id: Seq<char>,
    classes: Seq<Seq<char>>,
    npc: Option<Seq<char>>,
    source: AvailabilitySource,
    quest: QuestView,
    class: Seq<char>,
    gid: Seq<char>,
    c: GemAvailabilityView,
)
    requires
        no_later(acc, gid, c),
    ensures
        no_later(consider(acc, gem_id, classes, npc, source, quest, class), gid, c),
{
    let cand = offer_cand(quest, npc, source);
    if counts(gem_id, classes, class) {
        if gid == gem_id {
            let e = lookup(acc, gid)->0;
            if beats(cand, e) {
                crate::map::lemma_lookup_insert_same(acc, gem_id, cand);
                if beats(c, cand) {
                    lemma_beats_transitive(c, cand, e);
                }
            }
        } else {
            match lookup(acc, gem_id) {
                Some(existing) => if beats(cand, existing) {
                    crate::map::lemma_lookup_insert_other(acc, gem_id, cand, gid);
                },
                None => {
                    crate::map::lemma_lookup_insert_other(acc, gem_id, cand, gid);
                },
            }
        }
    }
}

proof fn lemma_consider_records(
    acc: Availability,
    gem_id: Seq<char>,
    classes: Seq<Seq<char>>,
    npc: Option<Seq<char>>,
    source: AvailabilitySource,
    quest: QuestView,
    class: Seq<char>,
)
    requires
        counts(gem_id, classes, class),
    ensures
        no_later(consider(acc, gem_id, classes, npc, source, quest, class), gem_id, offer_cand(quest, npc, source)),
{
    let cand = offer_cand(quest, npc, source);
    crate::map::lemma_lookup_insert_same(acc, gem_id, cand);
    crate::map::lemma_key_lt_irreflexive(cand.quest_id);
}

proof fn lemma_quest_rewards_keep(
    acc: Availability,
    rewards: Seq<(Seq<char>, Seq<Seq<char>>)>,
    npc: Option<Seq<char>>,
    quest: QuestView,
    class: Seq<char>,
    gid: Seq<char>,
    c: GemAvailabilityView,
)
    requires
        no_later(acc, gid, c),
    ensures
        no_later(fold_quest_rewards(acc, rewards, npc, quest, class), gid, c),
    decreases rewards.len(),
{
    if rewards.len() > 0 {
        lemma_quest_rewards_keep(acc, rewards.drop_last(), npc, quest, class, gid, c);
        let a = fold_quest_rewards(acc, rewards.drop_last(), npc, quest, class);
        lemma_consider_keeps(a, rewards.last().0, rewards.last().1, npc, AvailabilitySource::QuestReward, quest, class, gid, c);
    }
}

proof fn lemma_quest_rewards_record(
    acc: Availability,
    rewards: Seq<(Seq<char>, Seq<Seq<char>>)>,
    npc: Option<Seq<char>>,
    quest: QuestView,
    class: Seq<char>,
    ri: int,
)
    requires
        0 <= ri < rewards.len(),
        counts(rewards[ri].0, rewards[ri].1, class),
    ensures
        no_later(
            fold_quest_rewards(acc, rewards, npc, quest, class),
            rewards[ri].0,
            offer_cand(quest, npc, AvailabilitySource::QuestReward),
        ),
    decreases rewards.len(),
{
    let a = fold_quest_rewards(acc, rewards.drop_last(), npc, quest, class);
    if ri == rewards.len() - 1 {
        lemma_consider_records(a, rewards.last().0, rewards.last().1, npc, AvailabilitySource::QuestReward, quest, class);
    } else {
        lemma_quest_rewards_record(acc, rewards.drop_last(), npc, quest, class, ri);
        assert(rewards.drop_last()[ri] == rewards[ri]);
        lemma_consider_keeps(
            a,
            rewards.last().0,
            rewards.last().1,
            npc,
            AvailabilitySource::QuestReward,
            quest,
            class,
            rewards[ri].0,
            offer_cand(quest, npc, AvailabilitySource::QuestReward),
        );
    }
}

proof fn lemma_vendor_rewards_keep(
    acc: Availability,
    rewards: Seq<(Seq<char>, (Seq<Seq<char>>, Option<Seq<char>>))>,
    quest: QuestView,
    class: Seq<char>,
    gid: Seq<char>,
    c: GemAvailabilityView,
)
    requires
        no_later(acc, gid, c),
    ensures
        no_later(fold_vendor_rewards(acc, rewards, quest, class), gid, c),
    decreases rewards.len(),
{
    if rewards.len() > 0 {
        lemma_vendor_rewards_keep(acc, rewards.drop_last(), quest, class, gid, c);
        let a = fold_vendor_rewards(acc, rewards.drop_last(), quest, class);
        lemma_consider_keeps(
            a,
            rewards.last().0,
            rewards.last().1.0,
            rewards.last().1.1,
            AvailabilitySource::Vendor,
            quest,
            class,
            gid,
            c,
        );
    }
}

proof fn lemma_vendor_rewards_record(
    acc: Availability,
    rewards: Seq<(Seq<char>, (Seq<Seq<char>>, Option<Seq<char>>))>,
    quest: QuestView,
    class: Seq<char>,
    ri: int,
)
    requires
        0 <= ri < rewards.len(),
        counts(rewards[ri].0, rewards[ri].1.0, class),
    ensures
        no_later(
            fold_vendor_rewards(acc, rewards, quest, class),
            rewards[ri].0,
            offer_cand(quest, rewards[ri].1.1, AvailabilitySource::Vendor),
        ),
    decreases rewards.len(),
{
    let a = fold_vendor_rewards(acc, rewards.drop_last(), quest, class);
    if ri == rewards.len() - 1 {
        lemma_consider_records(
            a,
            rewards.last().0,
            rewards.last().1.0,
            rewards.last().1.1,
            AvailabilitySource::Vendor,
            quest,
            class,
        );
    } else {
        lemma_vendor_rewards_record(acc, rewards.drop_last(), quest, class, ri);
        assert(rewards.drop_last()[ri] == rewards[ri]);
        lemma_consider_keeps(
            a,
            rewards.last().0,
            rewards.last().1.0,
            rewards.last().1.1,
            AvailabilitySource::Vendor,
            quest,
            class,
            rewards[ri].0,
            offer_cand(quest, rewards[ri].1.1, AvailabilitySource::Vendor),
        );
    }
}

proof fn lemma_offer_keeps(
    acc: Availability,
    offer: RewardOfferView,
    quest: QuestView,
    class: Seq<char>,
    gid: Seq<char>,
    c: GemAvailabilityView,
)
    requires
        no_later(acc, gid, c),
    ensures
        no_later(fold_offer(acc, offer, quest, class), gid, c),
{
    lemma_quest_rewards_keep(acc, offer.quest, offer.quest_npc, quest, class, gid, c);
    let a = fold_quest_rewards(acc, offer.quest, offer.quest_npc, quest, class);
    lemma_vendor_rewards_keep(a, offer.vendor, quest, class, gid, c);
}

proof fn lemma_offers_keep(
    acc: Availability,
    offers: Seq<(Seq<char>, RewardOfferView)>,
    quest: QuestView,
    class: Seq<char>,
    gid: Seq<char>,
    c: GemAvailabilityView,
)
    requires
        no_later(acc, gid, c),
    ensures
        no_later(fold_offers(acc, offers, quest, class), gid, c),
    decreases offers.len(),
{
    if offers.len() > 0 {
        lemma_offers_keep(acc, offers.drop_last(), quest, class, gid, c);
        lemma_offer_keeps(fold_offers(acc, offers.drop_last(), quest, class), offers.last().1, quest, class, gid, c);
    }
}

proof fn lemma_quests_keep(acc: Availability, quests: QuestsView, class: Seq<char>, gid: Seq<char>, c: GemAvailabilityView)
    requires
        no_later(acc, gid, c),
    ensures
        no_later(fold_quests(acc, quests, class), gid, c),
    decreases quests.len(),
{
    if quests.len() > 0 {
        lemma_quests_keep(acc, quests.drop_last(), class, gid, c);
        let q = quests.last().1;
        lemma_offers_keep(fold_quests(acc, quests.drop_last(), class), q.reward_offers, q, class, gid, c);
    }
}

/// The gem id and the candidate of the `ri`-th reward (of the quest
/// rewards, or of the vendor rewards when `vendor`) of the `oi`-th offer of
/// quest `q`.
pub open spec fn reward_at(q: QuestView, oi: int, vendor: bool, ri: int) -> (Seq<char>, Seq<Seq<char>>, GemAvailabilityView) {
    let offer = q.reward_offers[oi].1;
    if vendor {
        (offer.vendor[ri].0, offer.vendor[ri].1.0, offer_cand(q, offer.vendor[ri].1.1, AvailabilitySource::Vendor))
    } else {
        (offer.quest[ri].0, offer.quest[ri].1, offer_cand(q, offer.quest_npc, AvailabilitySource::QuestReward))
    }
}

/// Whether `ri` indexes a reward of that list.
pub open spec fn reward_in_range(q: QuestView, oi: int, vendor: bool, ri: int) -> bool {
    &&& 0 <= oi < q.reward_offers.len()
    &&& 0 <= ri
    &&& if vendor {
        ri < q.reward_offers[oi].1.vendor.len()
    } else {
        ri < q.reward_offers[oi].1.quest.len()
    }
}

proof fn lemma_offers_record(
    acc: Availability,
    offers: Seq<(Seq<char>, RewardOfferView)>,
    q: QuestView,
    class: Seq<char>,
    oi: int,
    vendor: bool,
    ri: int,
)
    requires
        q.reward_offers == offers,
        reward_in_range(q, oi, vendor, ri),
        counts(reward_at(q, oi, vendor, ri).0, reward_at(q, oi, vendor, ri).1, class),
    ensures
        no_later(fold_offers(acc, offers, q, class), reward_at(q, oi, vendor, ri).0, reward_at(q, oi, vendor, ri).2),
    decreases offers.len(),
{
    let (gid, classes, c) = reward_at(q, oi, vendor, ri);
    let before = fold_offers(acc, offers.drop_last(), q, class);
    if oi == offers.len() - 1 {
        let offer = offers.last().1;
        if vendor {
            lemma_vendor_rewards_record(
                fold_quest_rewards(before, offer.quest, offer.quest_npc, q, class),
                offer.vendor,
                q,
                class,
                ri,
            );
        } else {
            lemma_quest_rewards_record(before, offer.quest, offer.quest_npc, q, class, ri);
            lemma_vendor_rewards_keep(
                fold_quest_rewards(before, offer.quest, offer.quest_npc, q, class),
                offer.vendor,
                q,
                class,
                gid,
                c,
            );
        }
    } else {
        let q2 = QuestView { reward_offers: offers.drop_last(), ..q };
        assert(offers.drop_last()[oi] == offers[oi]);
        assert(reward_at(q2, oi, vendor, ri) == (gid, classes, c));
        lemma_offers_record(acc, offers.drop_last(), q2, class, oi, vendor, ri);
        assert(fold_offers(acc, offers.drop_last(), q2, class) == before) by {
            lemma_offers_quest_fields(acc, offers.drop_last(), q, q2, class);
        }
        lemma_offer_keeps(before, offers.last().1, q, class, gid, c);
    }
}

/// Folding offers reads only a quest's act, id and name.
proof fn lemma_offers_quest_fields(
    acc: Availability,
    offers: Seq<(Seq<char>, RewardOfferView)>,
    q: QuestView,
    q2: QuestView,
    class: Seq<char>,
)
    requires
        q.act == q2.act,
        q.id == q2.id,
        q.name == q2.name,
    ensures
        fold_offers(acc, offers, q, class) == fold_offers(acc, offers, q2, class),
    decreases offers.len(),
{
    if offers.len() > 0 {
        lemma_offers_quest_fields(acc, offers.drop_last(), q, q2, class);
        lemma_offer_quest_fields(fold_offers(acc, offers.drop_last(), q, class), offers.last().1, q, q2, class);
    }
}

proof fn lemma_offer_quest_fields(acc: Availability, offer: RewardOfferView, q: QuestView, q2: QuestView, class: Seq<char>)
    requires
        q.act == q2.act,
        q.id == q2.id,
        q.name == q2.name,
    ensures
        fold_offer(acc, offer, q, class) == fold_offer(acc, offer, q2, class),
{
    lemma_quest_rewards_fields(acc, offer.quest, offer.quest_npc, q, q2, class);
    lemma_vendor_rewards_fields(fold_quest_rewards(acc, offer.quest, offer.quest_npc, q, class), offer.vendor, q, q2, class);
}

proof fn lemma_quest_rewards_fields(
    acc: Availability,
    rewards: Seq<(Seq<char>, Seq<Seq<char>>)>,
    npc: Option<Seq<char>>,
    q: QuestView,
    q2: QuestView,
    class: Seq<char>,
)
    requires
        q.act == q2.act,
        q.id == q2.id,
        q.name == q2.name,
    ensures
        fold_quest_rewards(acc, rewards, npc, q, class) == fold_quest_rewards(acc, rewards, npc, q2, class),
    decreases rewards.len(),
{
    if rewards.len() > 0 {
        lemma_quest_rewards_fields(acc, rewards.drop_last(), npc, q, q2, class);
    }
}

proof fn lemma_vendor_rewards_fields(
    acc: Availability,
    rewards: Seq<(Seq<char>, (Seq<Seq<char>>, Option<Seq<char>>))>,
    q: QuestView,
    q2: QuestView,
    class: Seq<char>,
)
    requires
        q.act == q2.act,
        q.id == q2.id,
        q.name == q2.name,
    ensures
        fold_vendor_rewards(acc, rewards, q, class) == fold_vendor_rewards(acc, rewards, q2, class),
    decreases rewards.len(),
{
    if rewards.len() > 0 {
        lemma_vendor_rewards_fields(acc, rewards.drop_last(), q, q2, class);
    }
}

proof fn lemma_quests_record(
    acc: Availability,
    quests: QuestsView,
    class: Seq<char>,
    qi: int,
    oi: int,
    vendor: bool,
    ri: int,
)
    requires
        0 <= qi < quests.len(),
        reward_in_range(quests[qi].1, oi, vendor, ri),
        counts(reward_at(quests[qi].1, oi, vendor, ri).0, reward_at(quests[qi].1, oi, vendor, ri).1, class),
    ensures
        no_later(
            fold_quests(acc, quests, class),
            reward_at(quests[qi].1, oi, vendor, ri).0,
            reward_at(quests[qi].1, oi, vendor, ri).2,
        ),
    decreases quests.len(),
{
    let (gid, classes, c) = reward_at(quests[qi].1, oi, vendor, ri);
    let before = fold_quests(acc, quests.drop_last(), class);
    let q = quests.last().1;
    if qi == quests.len() - 1 {
        lemma_offers_record(before, q.reward_offers, q, class, oi, vendor, ri);
    } else {
        assert(quests.drop_last()[qi] == quests[qi]);
        lemma_quests_record(acc, quests.drop_last(), class, qi, oi, vendor, ri);
        lemma_offers_keep(before, q.reward_offers, q, class, gid, c);
    }
}

/// The earliest offer wins: for every reward of every offer that counts
/// for `class` (a gem, offered to every class or to `class`), the
/// availability records that gem, and at a point the offer does not beat
/// (an earlier act, a quest reward over a vendor, a smaller quest id).
pub proof fn lemma_availability_is_earliest(quests: QuestsView, class: Seq<char>, qi: int, oi: int, vendor: bool, ri: int)
    requires
        0 <= qi < quests.len(),
        reward_in_range(quests[qi].1, oi, vendor, ri),
        counts(reward_at(quests[qi].1, oi, vendor, ri).0, reward_at(quests[qi].1, oi, vendor, ri).1, class),
    ensures
        no_later(
            availability_spec(quests, class),
            reward_at(quests[qi].1, oi, vendor, ri).0,
            reward_at(quests[qi].1, oi, vendor, ri).2,
        ),
{
    lemma_quests_record(Seq::empty(), quests, class, qi, oi, vendor, ri);
}

/// Act entry levels from the first `k` areas: act 1 at level 1, and act
/// `n + 1` at the level of the first town of act `n`.
pub open spec fn entry_levels(areas: AreasView, k: int) -> Map<u8, u16>
    decreases k,
{
    if k <= 0 {
        map![1u8 => 1u16]
    } else {
        let m = entry_levels(areas, k - 1);
        let a = areas[k - 1].1;
        match a.level {
            Some(l) => if a.is_town_area && !m.contains_key((a.act + 1) as u8) {
                m.insert((a.act + 1) as u8, l as u16)
            } else {
                m
            },
            None => m,
        }
    }
}

/// No town with a level sits in the last act number a `u8` can name.
pub open spec fn town_acts_bounded(areas: AreasView) -> bool {
    forall|i: int|
        0 <= i < areas.len() && (#[trigger] areas[i]).1.is_town_area && areas[i].1.level is Some
            ==> areas[i].1.act < 255
}

// ---------------------------------------------------------------------
// Implementation
// ---------------------------------------------------------------------

fn beats_exec(c: &GemAvailability, e: &GemAvailability) -> (b: bool)
    ensures
        b == beats(c.deep_view(), e.deep_view()),
{
    if c.act != e.act {
        return c.act < e.act;
    }
    if c.source != e.source {
        return c.source == AvailabilitySource::QuestReward;
    }
    let cq = chars_of(c.quest_id.as_str());
    key_less(&cq, &e.quest_id)
}

fn applies_exec(classes: &Vec<String>, class: &str) -> (b: bool)
    ensures
        b == applies(classes.deep_view(), class@),
{
    if classes.len() == 0 {
        return true;
    }
    let mut i: usize = 0;
    while i < classes.len()
        invariant
            i <= classes.len(),
            forall|j: int| 0 <= j < i ==> classes.deep_view()[j] != class@,
        decreases classes.len() - i,
    {
        if str_eq(classes[i].as_str(), class) {
            assert(classes.deep_view()[i as int] == class@);
            return true;
        }
        i += 1;
    }
    false
}

fn consider_exec(
    acc: &mut StrMap<GemAvailability>,
    gem_id: &String,
    classes: &Vec<String>,
    npc: &Option<String>,
    source: AvailabilitySource,
    quest: &Quest,
    class: &str,
)
    ensures
        final(acc)@ == consider(
            old(acc)@,
            gem_id@,
            classes.deep_view(),
            npc.deep_view(),
            source,
            quest.deep_view(),
            class@,
        ),
{
    let g = chars_of(gem_id.as_str());
    let pat = chars_of("/Gems/");
    if find_chars(&g, &pat, 0).is_none() || !applies_exec(classes, class) {
        return;
    }
    let cand = GemAvailability {
        act: quest.act,
        quest_id: quest.id.clone(),
        quest_name: quest.name.clone(),
        npc: match npc {
            Some(n) => Some(n.clone()),
            None => None,
        },
        source,
    };
    let replace = match acc.get(gem_id.as_str()) {
        Some(existing) => beats_exec(&cand, existing),
        None => true,
    };
    if replace {
        acc.insert(gem_id.clone(), cand);
    }
}

fn fold_offer_exec(acc: &mut StrMap<GemAvailability>, offer: &RewardOffer, quest: &Quest, class: &str)
    ensures
        final(acc)@ == fold_offer(old(acc)@, offer.deep_view(), quest.deep_view(), class@),
{
    let ghost a0 = acc@;
    let ghost qr = offer.quest@;
    let mut i: usize = 0;
    while i < offer.quest.len()
        invariant
            i <= qr.len(),
            qr == offer.quest@,
            acc@ == fold_quest_rewards(a0, qr.take(i as int), offer.quest_npc.deep_view(), quest.deep_view(), class@),
        decreases qr.len() - i,
    {
        proof {
            assert(qr.take(i + 1).drop_last() =~= qr.take(i as int));
        }
        let gem_id = offer.quest.key_at(i);
        let reward = offer.quest.value_at(i);
        consider_exec(acc, gem_id, &reward.classes, &offer.quest_npc, AvailabilitySource::QuestReward, quest, class);
        i += 1;
    }
    assert(qr.take(qr.len() as int) =~= qr);
    let ghost a1 = acc@;
    let ghost vr = offer.vendor@;
    let mut j: usize = 0;
    while j < offer.vendor.len()
        invariant
            j <= vr.len(),
            vr == offer.vendor@,
            acc@ == fold_vendor_rewards(a1, vr.take(j as int), quest.deep_view(), class@),
        decreases vr.len() - j,
    {
        proof {
            assert(vr.take(j + 1).drop_last() =~= vr.take(j as int));
        }
        let gem_id = offer.vendor.key_at(j);
        let reward = offer.vendor.value_at(j);
        consider_exec(acc, gem_id, &reward.classes, &reward.npc, AvailabilitySource::Vendor, quest, class);
        j += 1;
    }
    assert(vr.take(vr.len() as int) =~= vr);
}

/// Earliest availability of every gem for `class_name`, keyed by gem id:
/// an offer applies when its class list is empty or names the class;
/// earlier acts win, then quest rewards over vendors, then the smaller
/// quest id.
pub fn availability_for_class(quests: &QuestMap, class_name: &str) -> (r: StrMap<GemAvailability>)
    ensures
        r@ == availability_spec(quests@, class_name@),
{
    let mut earliest: StrMap<GemAvailability> = StrMap::new();
    let ghost qs = quests@;
    let mut i: usize = 0;
    while i < quests.len()
        invariant
            i <= qs.len(),
            qs == quests@,
            earliest@ == fold_quests(Seq::empty(), qs.take(i as int), class_name@),
        decreases qs.len() - i,
    {
        proof {
            assert(qs.take(i + 1).drop_last() =~= qs.take(i as int));
        }
        let quest = quests.value_at(i);
        let ghost a0 = earliest@;
        let ghost offers = quest.reward_offers@;
        let mut j: usize = 0;
        while j < quest.reward_offers.len()
            invariant
                j <= offers.len(),
                offers == quest.reward_offers@,
                earliest@ == fold_offers(a0, offers.take(j as int), quest.deep_view(), class_name@),
            decreases offers.len() - j,
        {
            proof {
                assert(offers.take(j + 1).drop_last() =~= offers.take(j as int));
            }
            let offer = quest.reward_offers.value_at(j);
            fold_offer_exec(&mut earliest, offer, quest, class_name);
            j += 1;
        }
        assert(offers.take(offers.len() as int) =~= offers);
        i += 1;
    }
    assert(qs.take(qs.len() as int) =~= qs);
    earliest
}

/// `u8` keys order as integers do, as ordered maps need.
pub proof fn lemma_u8_keys_ordered()
    ensures
        vstd::laws_cmp::obeys_cmp::<u8>(),
{
    broadcast use vstd::laws_cmp::group_laws_cmp;

}

/// The approximate character level on first entering each act.
pub fn act_entry_levels(areas: &AreaMap) -> (r: BTreeMap<u8, u16>)
    requires
        town_acts_bounded(areas@),
    ensures
        r@ == entry_levels(areas@, areas@.len() as int),
{
    broadcast use vstd::std_specs::btree::group_btree_axioms;

    proof {
        lemma_u8_keys_ordered();
    }
    let mut levels: BTreeMap<u8, u16> = BTreeMap::new();
    levels.insert(1, 1);
    assert(levels@ =~= map![1u8 => 1u16]);
    let ghost av = areas@;
    let mut i: usize = 0;
    while i < areas.len()
        invariant
            i <= av.len(),
            av == areas@,
            town_acts_bounded(av),
            levels@ == entry_levels(av, i as int),
        decreases av.len() - i,
    {
        let area = areas.value_at(i);
        if area.is_town_area {
            match area.level {
                Some(l) => {
                    assert(av[i as int].1.act < 255);
                    let key: u8 = area.act + 1;
                    if !levels.contains_key(&key) {
                        levels.insert(key, l as u16);
                    }
                },
                None => {},
            }
        }
        i += 1;
    }
    levels
}

} // verus!
