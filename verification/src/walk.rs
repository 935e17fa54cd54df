//! Walking parsed route sections: each step learns the area the player is
//! standing in when it begins, and every area and quest it names is
//! checked against the game data.

use vstd::prelude::*;

use crate::fragment::{Fragment, FragmentView};
use crate::game_data::{AreaMap, AreaView, QuestMap, QuestView};
use crate::map::{dup_vec, lookup, Dup};
use crate::route_parser::{Section, SectionView, StepView};
use crate::text::{append_chars, append_str, chars_of, decimal, decimal_chars, owned, string_of};

verus! {

#[derive(Debug, Clone)]
pub struct WalkState {
    pub current_area_id: String,
    pub last_town_area_id: String,
    pub portal_area_id: Option<String>,
}

pub struct WalkStateView {
    pub current: Seq<char>,
    pub last_town: Seq<char>,
    pub portal: Option<Seq<char>>,
}

impl View for WalkState {
    type V = WalkStateView;

    open spec fn view(&self) -> WalkStateView {
        WalkStateView {
            current: self.current_area_id@,
            last_town: self.last_town_area_id@,
            portal: self.portal_area_id.deep_view(),
        }
    }
}

impl WalkState {
    /// Where every campaign begins: the Twilight Strand, with Lioneye's
    /// Watch as the last town and no portal open.
    pub fn campaign_start() -> (s: Self)
        ensures
            s@.current == "1_1_1"@,
            s@.last_town == "1_1_town"@,
            s@.portal is None,
    {
        WalkState {
            current_area_id: owned("1_1_1"),
            last_town_area_id: owned("1_1_town"),
            portal_area_id: None,
        }
    }
}

#[derive(Debug, Clone, PartialEq)]
pub struct CompiledStep {
    pub id: String,
    pub act: u8,
    pub section: String,
    pub area_context: String,
    pub fragments: Vec<Fragment>,
    pub sub_steps: Vec<Vec<Fragment>>,
}

pub struct CompiledStepView {
    pub id: Seq<char>,
    pub act: u8,
    pub section: Seq<char>,
    pub area_context: Seq<char>,
    pub fragments: Seq<FragmentView>,
    pub sub_steps: Seq<Seq<FragmentView>>,
}

impl DeepView for CompiledStep {
    type V = CompiledStepView;

    open spec fn deep_view(&self) -> CompiledStepView {
        CompiledStepView {
            id: self.id@,
            act: self.act,
            section: self.section@,
            area_context: self.area_context@,
            fragments: self.fragments.deep_view(),
            sub_steps: self.sub_steps.deep_view(),
        }
    }
}

impl Dup for CompiledStep {
    fn dup(&self) -> (r: CompiledStep) {
        CompiledStep {
            id: self.id.clone(),
            act: self.act,
            section: self.section.clone(),
            area_context: self.area_context.clone(),
            fragments: dup_vec(&self.fragments),
            sub_steps: dup_vec(&self.sub_steps),
        }
    }
}

#[derive(Debug, Clone, PartialEq)]
pub enum WalkError {
    UnknownArea { step_id: String, area_id: String },
    UnknownQuest { step_id: String, quest_id: String },
    PortalMisuse { step_id: String, detail: String },
}

pub enum WalkErrorView {
    UnknownArea { step_id: Seq<char>, area_id: Seq<char> },
    UnknownQuest { step_id: Seq<char>, quest_id: Seq<char> },
    PortalMisuse { step_id: Seq<char>, detail: Seq<char> },
}

impl DeepView for WalkError {
    type V = WalkErrorView;

    open spec fn deep_view(&self) -> WalkErrorView {
        match self {
            WalkError::UnknownArea { step_id, area_id } => WalkErrorView::UnknownArea {
                step_id: step_id@,
                area_id: area_id@,
            },
            WalkError::UnknownQuest { step_id, quest_id } => WalkErrorView::UnknownQuest {
                step_id: step_id@,
                quest_id: quest_id@,
            },
            WalkError::PortalMisuse { step_id, detail } => WalkErrorView::PortalMisuse {
                step_id: step_id@,
                detail: detail@,
            },
        }
    }
}

// ---------------------------------------------------------------------
// Specification
// ---------------------------------------------------------------------

pub type AreasView = Seq<(Seq<char>, AreaView)>;

pub type QuestsView = Seq<(Seq<char>, QuestView)>;

/// `d` left-padded with zeros to at least three characters.
pub open spec fn pad3(d: Seq<char>) -> Seq<char> {
    if d.len() >= 3 {
        d
    } else {
        Seq::new((3 - d.len()) as nat, |i: int| '0') + d
    }
}

/// The id of the `index`-th step (from 1) of act `act`: `a{act}-s{index:03}`.
pub open spec fn step_id_of(act: u8, index: nat) -> Seq<char> {
    "a"@ + decimal(act as nat) + "-s"@ + pad3(decimal(index))
}

/// Moving to `area_id`; entering a town makes it the last town.
pub open spec fn transition_spec(st: WalkStateView, areas: AreasView, area_id: Seq<char>) -> WalkStateView {
    WalkStateView {
        current: area_id,
        last_town: match lookup(areas, area_id) {
            Some(a) => if a.is_town_area {
                a.id
            } else {
                st.last_town
            },
            None => st.last_town,
        },
        portal: st.portal,
    }
}

pub open spec fn known(areas: AreasView, id: Seq<char>) -> bool {
    lookup(areas, id) is Some
}

pub open spec fn misuse(step_id: Seq<char>, detail: Seq<char>) -> Option<WalkErrorView> {
    Some(WalkErrorView::PortalMisuse { step_id, detail })
}

pub open spec fn no_parent_town(id: Seq<char>) -> Seq<char> {
    "area "@ + id + " has no parent town"@
}

/// Using a portal while standing in `cur_id`.
pub open spec fn portal_use_spec(st: WalkStateView, areas: AreasView, step_id: Seq<char>) -> (
    WalkStateView,
    Option<WalkErrorView>,
) {
    let cur_id = st.current;
    match lookup(areas, cur_id) {
        None => (st, Some(WalkErrorView::UnknownArea { step_id, area_id: cur_id })),
        Some(cur) => {
            // Using a portal away from town re-anchors it to the current area.
            let st1 = if st.portal != Some(cur_id) && !cur.is_town_area {
                WalkStateView { current: st.current, last_town: st.last_town, portal: Some(cur_id) }
            } else {
                st
            };
            match st1.portal {
                None => (st1, misuse(step_id, "portal not set"@)),
                Some(pid) => match lookup(areas, pid) {
                    None => (st1, Some(WalkErrorView::UnknownArea { step_id, area_id: pid })),
                    Some(pa) => if cur_id == pid {
                        match pa.parent_town_area_id {
                            None => (st1, misuse(step_id, no_parent_town(pid))),
                            Some(town) => (transition_spec(st1, areas, town), None),
                        }
                    } else if pa.parent_town_area_id == Some(cur_id) {
                        let s2 = transition_spec(st1, areas, pid);
                        (
                            WalkStateView { current: s2.current, last_town: s2.last_town, portal: None },
                            None,
                        )
                    } else {
                        (st1, misuse(step_id, "portal used from unrelated area"@))
                    },
                },
            }
        },
    }
}

/// The state after one fragment, and the error it raises if any (the state
/// keeps whatever changed before the error).
pub open spec fn apply_frag(
    st: WalkStateView,
    f: FragmentView,
    areas: AreasView,
    quests: QuestsView,
    step_id: Seq<char>,
) -> (WalkStateView, Option<WalkErrorView>) {
    match f {
        FragmentView::Enter { area_id } => if !known(areas, area_id) {
            (st, Some(WalkErrorView::UnknownArea { step_id, area_id }))
        } else {
            (transition_spec(st, areas, area_id), None)
        },
        FragmentView::WaypointUse { area_id } => if !known(areas, area_id) {
            (st, Some(WalkErrorView::UnknownArea { step_id, area_id }))
        } else {
            (transition_spec(st, areas, area_id), None)
        },
        FragmentView::Area { area_id } => if !known(areas, area_id) {
            (st, Some(WalkErrorView::UnknownArea { step_id, area_id }))
        } else {
            (st, None)
        },
        FragmentView::Crafting { area_id } => match area_id {
            Some(a) => if !known(areas, a) {
                (st, Some(WalkErrorView::UnknownArea { step_id, area_id: a }))
            } else {
                (st, None)
            },
            None => (st, None),
        },
        FragmentView::Logout => {
            let s1 = transition_spec(st, areas, st.last_town);
            (WalkStateView { current: s1.current, last_town: s1.last_town, portal: None }, None)
        },
        FragmentView::Ascend { .. } => (transition_spec(st, areas, st.last_town), None),
        FragmentView::PortalSet => match lookup(areas, st.current) {
            None => (st, Some(WalkErrorView::UnknownArea { step_id, area_id: st.current })),
            Some(cur) => if cur.is_town_area {
                (st, misuse(step_id, "portal cannot be set in town"@))
            } else {
                (
                    WalkStateView {
                        current: st.current,
                        last_town: st.last_town,
                        portal: Some(st.current),
                    },
                    None,
                )
            },
        },
        FragmentView::PortalUse => portal_use_spec(st, areas, step_id),
        FragmentView::Quest { quest_id, .. } => if lookup(quests, quest_id) is None {
            (st, Some(WalkErrorView::UnknownQuest { step_id, quest_id }))
        } else {
            (st, None)
        },
        _ => (st, None),
    }
}

/// Fragments applied in order, stopping at the first error.
pub open spec fn frags_apply(
    st: WalkStateView,
    frags: Seq<FragmentView>,
    areas: AreasView,
    quests: QuestsView,
    step_id: Seq<char>,
) -> (WalkStateView, Option<WalkErrorView>)
    decreases frags.len(),
{
    if frags.len() == 0 {
        (st, None)
    } else {
        let (s, e) = frags_apply(st, frags.drop_last(), areas, quests, step_id);
        if e is Some {
            (s, e)
        } else {
            apply_frag(s, frags.last(), areas, quests, step_id)
        }
    }
}

/// Sub-step fragment lists applied in order, stopping at the first error.
pub open spec fn subs_apply(
    st: WalkStateView,
    subs: Seq<Seq<FragmentView>>,
    areas: AreasView,
    quests: QuestsView,
    step_id: Seq<char>,
) -> (WalkStateView, Option<WalkErrorView>)
    decreases subs.len(),
{
    if subs.len() == 0 {
        (st, None)
    } else {
        let (s, e) = subs_apply(st, subs.drop_last(), areas, quests, step_id);
        if e is Some {
            (s, e)
        } else {
            frags_apply(s, subs.last(), areas, quests, step_id)
        }
    }
}

/// A step's own fragments, then its sub-steps'.
pub open spec fn step_apply(
    st: WalkStateView,
    step: StepView,
    areas: AreasView,
    quests: QuestsView,
    step_id: Seq<char>,
) -> (WalkStateView, Option<WalkErrorView>) {
    let (s, e) = frags_apply(st, step.fragments, areas, quests, step_id);
    if e is Some {
        (s, e)
    } else {
        subs_apply(s, step.sub_steps, areas, quests, step_id)
    }
}

/// The reward offer ids of `quest_id`, in key order (none for an unknown
/// quest).
pub open spec fn offer_ids(quests: QuestsView, quest_id: Seq<char>) -> Seq<Seq<char>> {
    match lookup(quests, quest_id) {
        Some(q) => q.reward_offers.map_values(|e: (Seq<char>, crate::game_data::RewardOfferView)| e.0),
        None => Seq::empty(),
    }
}

/// A quest hand-in naming no reward offers collects every offer of the
/// quest; anything else is kept as written.
pub open spec fn expand_spec(f: FragmentView, quests: QuestsView) -> FragmentView {
    match f {
        FragmentView::Quest { quest_id, reward_offer_ids } => if reward_offer_ids.len() == 0 {
            FragmentView::Quest { quest_id, reward_offer_ids: offer_ids(quests, quest_id) }
        } else {
            f
        },
        _ => f,
    }
}

pub open spec fn expand_all(frags: Seq<FragmentView>, quests: QuestsView) -> Seq<FragmentView> {
    frags.map_values(|f: FragmentView| expand_spec(f, quests))
}

pub open spec fn compile_step_spec(
    act: u8,
    name: Seq<char>,
    step: StepView,
    index: nat,
    context: Seq<char>,
    quests: QuestsView,
) -> CompiledStepView {
    CompiledStepView {
        id: step_id_of(act, index),
        act,
        section: name,
        area_context: context,
        fragments: expand_all(step.fragments, quests),
        sub_steps: step.sub_steps.map_values(|sub: Seq<FragmentView>| expand_all(sub, quests)),
    }
}

/// Walking the steps of one section, numbered on from `base`.
pub open spec fn walk_steps(
    act: u8,
    name: Seq<char>,
    steps: Seq<StepView>,
    base: nat,
    st: WalkStateView,
    areas: AreasView,
    quests: QuestsView,
) -> (Seq<CompiledStepView>, WalkStateView, Option<WalkErrorView>)
    decreases steps.len(),
{
    if steps.len() == 0 {
        (Seq::empty(), st, None)
    } else {
        let (o, s, e) = walk_steps(act, name, steps.drop_last(), base, st, areas, quests);
        if e is Some {
            (o, s, e)
        } else {
            let index = sat_index(base + o.len() + 1);
            let (s2, e2) = step_apply(s, steps.last(), areas, quests, step_id_of(act, index as nat));
            if e2 is Some {
                (o, s2, e2)
            } else {
                (o.push(compile_step_spec(act, name, steps.last(), index as nat, s.current, quests)), s2, None)
            }
        }
    }
}

/// Walking every section of an act in order.
pub open spec fn walk_sections(
    act: u8,
    secs: Seq<SectionView>,
    st: WalkStateView,
    areas: AreasView,
    quests: QuestsView,
) -> (Seq<CompiledStepView>, WalkStateView, Option<WalkErrorView>)
    decreases secs.len(),
{
    if secs.len() == 0 {
        (Seq::empty(), st, None)
    } else {
        let (o, s, e) = walk_sections(act, secs.drop_last(), st, areas, quests);
        if e is Some {
            (o, s, e)
        } else {
            let (o2, s2, e2) = walk_steps(
                act,
                secs.last().name,
                secs.last().steps,
                o.len(),
                s,
                areas,
                quests,
            );
            (o + o2, s2, e2)
        }
    }
}

/// A step number as a `u64`, held at the largest one beyond it.
pub open spec fn sat_index(n: nat) -> u64 {
    if n < u64::MAX {
        n as u64
    } else {
        u64::MAX
    }
}

// ---------------------------------------------------------------------
// Implementation
// ---------------------------------------------------------------------

/// The id of the `index`-th step of act `act`.
pub fn step_id(act: u8, index: u64) -> (s: String)
    ensures
        s@ == step_id_of(act, index as nat),
{
    let mut v: Vec<char> = chars_of("a");
    let a = decimal_chars(act as u64);
    append_chars(&mut v, &a);
    append_str(&mut v, "-s");
    let d = decimal_chars(index);
    let ghost before = v@;
    let mut k = d.len();
    while k < 3
        invariant
            d.len() <= k <= 3 || (d.len() >= 3 && k == d.len()),
            v@ == before + Seq::new((k - d.len()) as nat, |i: int| '0'),
        decreases 3 - k,
    {
        v.push('0');
        proof {
            assert(v@ =~= before + Seq::new((k + 1 - d.len()) as nat, |i: int| '0'));
        }
        k += 1;
    }
    append_chars(&mut v, &d);
    proof {
        if d@.len() >= 3 {
            assert(v@ =~= before + d@);
        } else {
            assert(v@ =~= before + pad3(d@));
        }
        assert(v@ =~= step_id_of(act, index as nat));
    }
    string_of(&v)
}

fn transition(state: &mut WalkState, areas: &AreaMap, area_id: &str)
    ensures
        final(state)@ == transition_spec(old(state)@, areas@, area_id@),
{
    match areas.get(area_id) {
        Some(area) => {
            if area.is_town_area {
                state.last_town_area_id = area.id.clone();
            }
        },
        None => {},
    }
    state.current_area_id = owned(area_id);
}

fn unknown_area(step_id: &str, area_id: &str) -> (e: WalkError)
    ensures
        e.deep_view() == (WalkErrorView::UnknownArea { step_id: step_id@, area_id: area_id@ }),
{
    WalkError::UnknownArea { step_id: owned(step_id), area_id: owned(area_id) }
}

fn portal_misuse(step_id: &str, detail: String) -> (e: WalkError)
    ensures
        e.deep_view() == (WalkErrorView::PortalMisuse { step_id: step_id@, detail: detail@ }),
{
    WalkError::PortalMisuse { step_id: owned(step_id), detail }
}

fn portal_use(areas: &AreaMap, state: &mut WalkState, step_id: &str) -> (r: Result<(), WalkError>)
    ensures
        final(state)@ == portal_use_spec(old(state)@, areas@, step_id@).0,
        match r {
            Ok(_) => portal_use_spec(old(state)@, areas@, step_id@).1 is None,
            Err(e) => portal_use_spec(old(state)@, areas@, step_id@).1 == Some(e.deep_view()),
        },
{
    let current_id = state.current_area_id.clone();
    let current = match areas.get(current_id.as_str()) {
        Some(a) => a,
        None => {
            return Err(unknown_area(step_id, current_id.as_str()));
        },
    };
    let same = match &state.portal_area_id {
        Some(p) => {
            let pc = chars_of(p.as_str());
            let cc = chars_of(current_id.as_str());
            crate::map::vec_eq(&pc, &cc)
        },
        None => false,
    };
    if !same && !current.is_town_area {
        state.portal_area_id = Some(current_id.clone());
    }
    let portal_id = match &state.portal_area_id {
        Some(p) => p.clone(),
        None => {
            return Err(portal_misuse(step_id, owned("portal not set")));
        },
    };
    let portal_area = match areas.get(portal_id.as_str()) {
        Some(a) => a,
        None => {
            return Err(unknown_area(step_id, portal_id.as_str()));
        },
    };
    let cur_chars = chars_of(current_id.as_str());
    let portal_chars = chars_of(portal_id.as_str());
    if crate::map::vec_eq(&cur_chars, &portal_chars) {
        match &portal_area.parent_town_area_id {
            None => {
                let mut msg = chars_of("area ");
                append_str(&mut msg, portal_id.as_str());
                append_str(&mut msg, " has no parent town");
                return Err(portal_misuse(step_id, string_of(&msg)));
            },
            Some(town) => {
                let town = town.clone();
                transition(state, areas, town.as_str());
            },
        }
    } else {
        let parent_is_current = match &portal_area.parent_town_area_id {
            Some(t) => {
                let tc = chars_of(t.as_str());
                crate::map::vec_eq(&tc, &cur_chars)
            },
            None => false,
        };
        if parent_is_current {
            transition(state, areas, portal_id.as_str());
            state.portal_area_id = None;
        } else {
            return Err(portal_misuse(step_id, owned("portal used from unrelated area")));
        }
    }
    Ok(())
}

/// Applies one fragment to the walk state.
pub fn apply_fragment(
    fragment: &Fragment,
    areas: &AreaMap,
    quests: &QuestMap,
    state: &mut WalkState,
    step_id: &str,
) -> (r: Result<(), WalkError>)
    ensures
        final(state)@ == apply_frag(old(state)@, fragment.deep_view(), areas@, quests@, step_id@).0,
        match r {
            Ok(_) => apply_frag(old(state)@, fragment.deep_view(), areas@, quests@, step_id@).1 is None,
            Err(e) => apply_frag(old(state)@, fragment.deep_view(), areas@, quests@, step_id@).1
                == Some(e.deep_view()),
        },
{
    match fragment {
        Fragment::Enter { area_id } | Fragment::WaypointUse { area_id } => {
            if !areas.contains_key(area_id.as_str()) {
                return Err(unknown_area(step_id, area_id.as_str()));
            }
            transition(state, areas, area_id.as_str());
        },
        Fragment::Area { area_id } => {
            if !areas.contains_key(area_id.as_str()) {
                return Err(unknown_area(step_id, area_id.as_str()));
            }
        },
        Fragment::Crafting { area_id: Some(area_id) } => {
            if !areas.contains_key(area_id.as_str()) {
                return Err(unknown_area(step_id, area_id.as_str()));
            }
        },
        Fragment::Logout => {
            let town = state.last_town_area_id.clone();
            transition(state, areas, town.as_str());
            state.portal_area_id = None;
        },
        Fragment::Ascend { .. } => {
            let town = state.last_town_area_id.clone();
            transition(state, areas, town.as_str());
        },
        Fragment::PortalSet => {
            let current_id = state.current_area_id.clone();
            match areas.get(current_id.as_str()) {
                None => {
                    return Err(unknown_area(step_id, current_id.as_str()));
                },
                Some(current) => {
                    if current.is_town_area {
                        return Err(portal_misuse(step_id, owned("portal cannot be set in town")));
                    }
                    state.portal_area_id = Some(current_id);
                },
            }
        },
        Fragment::PortalUse => {
            return portal_use(areas, state, step_id);
        },
        Fragment::Quest { quest_id, .. } => {
            if !quests.contains_key(quest_id.as_str()) {
                return Err(WalkError::UnknownQuest { step_id: owned(step_id), quest_id: quest_id.clone() });
            }
        },
        _ => {},
    }
    Ok(())
}

/// A quest hand-in naming no reward offers, expanded to every offer of the
/// quest; other fragments are copied as written.
pub fn expand_quest_offers(fragment: &Fragment, quests: &QuestMap) -> (r: Fragment)
    ensures
        r.deep_view() == expand_spec(fragment.deep_view(), quests@),
{
    match fragment {
        Fragment::Quest { quest_id, reward_offer_ids } => {
            if reward_offer_ids.len() == 0 {
                let mut ids: Vec<String> = Vec::new();
                match quests.get(quest_id.as_str()) {
                    Some(q) => {
                        let ghost offers = q.reward_offers@;
                        let mut i: usize = 0;
                        while i < q.reward_offers.len()
                            invariant
                                i <= offers.len(),
                                offers == q.reward_offers@,
                                ids.deep_view() == offers.take(i as int).map_values(
                                    |e: (Seq<char>, crate::game_data::RewardOfferView)| e.0,
                                ),
                            decreases offers.len() - i,
                        {
                            let k = q.reward_offers.key_at(i).clone();
                            let ghost before = ids.deep_view();
                            ids.push(k);
                            proof {
                                assert(ids.deep_view() =~= before.push(k@));
                                assert(ids.deep_view() =~= offers.take(i + 1).map_values(
                                    |e: (Seq<char>, crate::game_data::RewardOfferView)| e.0,
                                ));
                            }
                            i += 1;
                        }
                        assert(offers.take(offers.len() as int) =~= offers);
                    },
                    None => {
                        assert(ids.deep_view() =~= Seq::<Seq<char>>::empty());
                    },
                }
                Fragment::Quest { quest_id: quest_id.clone(), reward_offer_ids: ids }
            } else {
                fragment.dup()
            }
        },
        _ => fragment.dup(),
    }
}

fn expand_list(frags: &Vec<Fragment>, quests: &QuestMap) -> (r: Vec<Fragment>)
    ensures
        r.deep_view() == expand_all(frags.deep_view(), quests@),
{
    let mut out: Vec<Fragment> = Vec::new();
    let mut i: usize = 0;
    while i < frags.len()
        invariant
            i <= frags.len(),
            out.deep_view() == expand_all(frags.deep_view().take(i as int), quests@),
        decreases frags.len() - i,
    {
        let f = expand_quest_offers(&frags[i], quests);
        let ghost before = out.deep_view();
        let ghost fv = f.deep_view();
        out.push(f);
        proof {
            assert(out.deep_view() =~= before.push(fv));
            assert(out.deep_view() =~= expand_all(frags.deep_view().take(i + 1), quests@));
        }
        i += 1;
    }
    assert(frags.deep_view().take(frags.len() as int) =~= frags.deep_view());
    out
}

fn expand_subs(subs: &Vec<Vec<Fragment>>, quests: &QuestMap) -> (r: Vec<Vec<Fragment>>)
    ensures
        r.deep_view() == subs.deep_view().map_values(|sub: Seq<FragmentView>| expand_all(sub, quests@)),
{
    let mut out: Vec<Vec<Fragment>> = Vec::new();
    let mut i: usize = 0;
    while i < subs.len()
        invariant
            i <= subs.len(),
            out.deep_view() == subs.deep_view().take(i as int).map_values(
                |sub: Seq<FragmentView>| expand_all(sub, quests@),
            ),
        decreases subs.len() - i,
    {
        let e = expand_list(&subs[i], quests);
        let ghost before = out.deep_view();
        let ghost ev = e.deep_view();
        out.push(e);
        proof {
            assert(out.deep_view() =~= before.push(ev));
            assert(out.deep_view() =~= subs.deep_view().take(i + 1).map_values(
                |sub: Seq<FragmentView>| expand_all(sub, quests@),
            ));
        }
        i += 1;
    }
    assert(subs.deep_view().take(subs.len() as int) =~= subs.deep_view());
    out
}

fn apply_list(
    frags: &Vec<Fragment>,
    areas: &AreaMap,
    quests: &QuestMap,
    state: &mut WalkState,
    step_id: &str,
) -> (r: Result<(), WalkError>)
    ensures
        final(state)@ == frags_apply(old(state)@, frags.deep_view(), areas@, quests@, step_id@).0,
        match r {
            Ok(_) => frags_apply(old(state)@, frags.deep_view(), areas@, quests@, step_id@).1 is None,
            Err(e) => frags_apply(old(state)@, frags.deep_view(), areas@, quests@, step_id@).1
                == Some(e.deep_view()),
        },
{
    let ghost st0 = state@;
    let mut i: usize = 0;
    while i < frags.len()
        invariant
            i <= frags.len(),
            st0 == old(state)@,
            frags_apply(st0, frags.deep_view().take(i as int), areas@, quests@, step_id@) == (
                state@,
                None::<WalkErrorView>,
            ),
        decreases frags.len() - i,
    {
        proof {
            assert(frags.deep_view().take(i + 1).drop_last() =~= frags.deep_view().take(i as int));
        }
        let r = apply_fragment(&frags[i], areas, quests, state, step_id);
        match r {
            Err(e) => {
                proof {
                    lemma_frags_err_sticks(st0, frags.deep_view(), i + 1, areas@, quests@, step_id@);
                    assert(frags.deep_view().take(frags.len() as int) =~= frags.deep_view());
                }
                return Err(e);
            },
            Ok(_) => {},
        }
        i += 1;
    }
    assert(frags.deep_view().take(frags.len() as int) =~= frags.deep_view());
    Ok(())
}

pub proof fn lemma_frags_err_sticks(
    st: WalkStateView,
    frags: Seq<FragmentView>,
    k: int,
    areas: AreasView,
    quests: QuestsView,
    step_id: Seq<char>,
)
    requires
        0 <= k <= frags.len(),
        frags_apply(st, frags.take(k), areas, quests, step_id).1 is Some,
    ensures
        frags_apply(st, frags.take(frags.len() as int), areas, quests, step_id) == frags_apply(
            st,
            frags.take(k),
            areas,
            quests,
            step_id,
        ),
    decreases frags.len() - k,
{
    if k < frags.len() {
        assert(frags.take(k + 1).drop_last() =~= frags.take(k));
        lemma_frags_err_sticks(st, frags, k + 1, areas, quests, step_id);
    }
}

pub proof fn lemma_subs_err_sticks(
    st: WalkStateView,
    subs: Seq<Seq<FragmentView>>,
    k: int,
    areas: AreasView,
    quests: QuestsView,
    step_id: Seq<char>,
)
    requires
        0 <= k <= subs.len(),
        subs_apply(st, subs.take(k), areas, quests, step_id).1 is Some,
    ensures
        subs_apply(st, subs.take(subs.len() as int), areas, quests, step_id) == subs_apply(
            st,
            subs.take(k),
            areas,
            quests,
            step_id,
        ),
    decreases subs.len() - k,
{
    if k < subs.len() {
        assert(subs.take(k + 1).drop_last() =~= subs.take(k));
        lemma_subs_err_sticks(st, subs, k + 1, areas, quests, step_id);
    }
}

fn apply_subs(
    subs: &Vec<Vec<Fragment>>,
    areas: &AreaMap,
    quests: &QuestMap,
    state: &mut WalkState,
    step_id: &str,
) -> (r: Result<(), WalkError>)
    ensures
        final(state)@ == subs_apply(old(state)@, subs.deep_view(), areas@, quests@, step_id@).0,
        match r {
            Ok(_) => subs_apply(old(state)@, subs.deep_view(), areas@, quests@, step_id@).1 is None,
            Err(e) => subs_apply(old(state)@, subs.deep_view(), areas@, quests@, step_id@).1
                == Some(e.deep_view()),
        },
{
    let ghost st0 = state@;
    let mut i: usize = 0;
    while i < subs.len()
        invariant
            i <= subs.len(),
            st0 == old(state)@,
            subs_apply(st0, subs.deep_view().take(i as int), areas@, quests@, step_id@) == (
                state@,
                None::<WalkErrorView>,
            ),
        decreases subs.len() - i,
    {
        proof {
            assert(subs.deep_view().take(i + 1).drop_last() =~= subs.deep_view().take(i as int));
        }
        let r = apply_list(&subs[i], areas, quests, state, step_id);
        match r {
            Err(e) => {
                proof {
                    lemma_subs_err_sticks(st0, subs.deep_view(), i + 1, areas@, quests@, step_id@);
                    assert(subs.deep_view().take(subs.len() as int) =~= subs.deep_view());
                }
                return Err(e);
            },
            Ok(_) => {},
        }
        i += 1;
    }
    assert(subs.deep_view().take(subs.len() as int) =~= subs.deep_view());
    Ok(())
}

pub proof fn lemma_steps_err_sticks(
    act: u8,
    name: Seq<char>,
    steps: Seq<StepView>,
    k: int,
    base: nat,
    st: WalkStateView,
    areas: AreasView,
    quests: QuestsView,
)
    requires
        0 <= k <= steps.len(),
        walk_steps(act, name, steps.take(k), base, st, areas, quests).2 is Some,
    ensures
        walk_steps(act, name, steps.take(steps.len() as int), base, st, areas, quests) == walk_steps(
            act,
            name,
            steps.take(k),
            base,
            st,
            areas,
            quests,
        ),
    decreases steps.len() - k,
{
    if k < steps.len() {
        assert(steps.take(k + 1).drop_last() =~= steps.take(k));
        lemma_steps_err_sticks(act, name, steps, k + 1, base, st, areas, quests);
    }
}

pub proof fn lemma_sections_err_sticks(
    act: u8,
    secs: Seq<SectionView>,
    k: int,
    st: WalkStateView,
    areas: AreasView,
    quests: QuestsView,
)
    requires
        0 <= k <= secs.len(),
        walk_sections(act, secs.take(k), st, areas, quests).2 is Some,
    ensures
        walk_sections(act, secs.take(secs.len() as int), st, areas, quests) == walk_sections(
            act,
            secs.take(k),
            st,
            areas,
            quests,
        ),
    decreases secs.len() - k,
{
    if k < secs.len() {
        assert(secs.take(k + 1).drop_last() =~= secs.take(k));
        lemma_sections_err_sticks(act, secs, k + 1, st, areas, quests);
    }
}

/// Logging out puts the player in the last town visited, with no portal
/// held, and that town stays the last town; it never fails.
pub proof fn lemma_logout_returns_to_last_town(
    st: WalkStateView,
    areas: AreasView,
    quests: QuestsView,
    step_id: Seq<char>,
)
    ensures
        apply_frag(st, FragmentView::Logout, areas, quests, step_id).0.current == st.last_town,
        apply_frag(st, FragmentView::Logout, areas, quests, step_id).0.portal is None,
        apply_frag(st, FragmentView::Logout, areas, quests, step_id).1 is None,
        (lookup(areas, st.last_town) matches Some(a) ==> a.id == st.last_town) ==> apply_frag(
            st,
            FragmentView::Logout,
            areas,
            quests,
            step_id,
        ).0.last_town == st.last_town,
{
}

/// Ascending sends the player back to the last town visited, keeping any
/// portal; it never fails.
pub proof fn lemma_ascend_returns_to_last_town(
    st: WalkStateView,
    version: Seq<char>,
    areas: AreasView,
    quests: QuestsView,
    step_id: Seq<char>,
)
    ensures
        apply_frag(st, FragmentView::Ascend { version }, areas, quests, step_id).0.current == st.last_town,
        apply_frag(st, FragmentView::Ascend { version }, areas, quests, step_id).0.portal == st.portal,
        apply_frag(st, FragmentView::Ascend { version }, areas, quests, step_id).1 is None,
{
}

/// How many steps the sections hold.
pub open spec fn total_steps(secs: Seq<SectionView>) -> nat
    decreases secs.len(),
{
    if secs.len() == 0 {
        0
    } else {
        total_steps(secs.drop_last()) + secs.last().steps.len()
    }
}

proof fn lemma_walk_steps_numbered(
    act: u8,
    name: Seq<char>,
    steps: Seq<StepView>,
    base: nat,
    st: WalkStateView,
    areas: AreasView,
    quests: QuestsView,
)
    requires
        walk_steps(act, name, steps, base, st, areas, quests).2 is None,
    ensures
        ({
            let o = walk_steps(act, name, steps, base, st, areas, quests).0;
            &&& o.len() == steps.len()
            &&& forall|i: int|
                0 <= i < o.len() ==> (#[trigger] o[i]).id == step_id_of(act, sat_index((base + i + 1) as nat) as nat)
                    && o[i].act == act && o[i].section == name
        }),
    decreases steps.len(),
{
    if steps.len() > 0 {
        let (o, s, e) = walk_steps(act, name, steps.drop_last(), base, st, areas, quests);
        lemma_walk_steps_numbered(act, name, steps.drop_last(), base, st, areas, quests);
        let r = walk_steps(act, name, steps, base, st, areas, quests).0;
        assert forall|i: int| 0 <= i < r.len() implies (#[trigger] r[i]).id == step_id_of(
            act,
            sat_index((base + i + 1) as nat) as nat,
        ) && r[i].act == act && r[i].section == name by {
            if i < o.len() {
                assert(r[i] == o[i]);
            }
        }
    }
}

/// An act walked without error yields one compiled step per step of its
/// sections, in order: the `i`-th is numbered `i + 1` in the act (its id
/// `a{act}-s{nnn}`), carries the act, and names its section.
pub proof fn lemma_walk_numbers_steps(
    act: u8,
    secs: Seq<SectionView>,
    st: WalkStateView,
    areas: AreasView,
    quests: QuestsView,
)
    requires
        walk_sections(act, secs, st, areas, quests).2 is None,
    ensures
        ({
            let o = walk_sections(act, secs, st, areas, quests).0;
            &&& o.len() == total_steps(secs)
            &&& forall|i: int|
                0 <= i < o.len() ==> (#[trigger] o[i]).id == step_id_of(act, sat_index((i + 1) as nat) as nat)
                    && o[i].act == act
        }),
    decreases secs.len(),
{
    if secs.len() > 0 {
        let (o, s, e) = walk_sections(act, secs.drop_last(), st, areas, quests);
        lemma_walk_numbers_steps(act, secs.drop_last(), st, areas, quests);
        lemma_walk_steps_numbered(act, secs.last().name, secs.last().steps, o.len(), s, areas, quests);
        let o2 = walk_steps(act, secs.last().name, secs.last().steps, o.len(), s, areas, quests).0;
        let r = walk_sections(act, secs, st, areas, quests).0;
        assert(r == o + o2);
        assert forall|i: int| 0 <= i < r.len() implies (#[trigger] r[i]).id == step_id_of(
            act,
            sat_index((i + 1) as nat) as nat,
        ) && r[i].act == act by {
            if i < o.len() {
                assert(r[i] == o[i]);
            } else {
                assert(r[i] == o2[i - o.len()]);
            }
        }
    }
}

/// Walks the sections of act `act` from `state`, giving every step its id
/// and the area it starts in, and checking every area and quest it names.
pub fn walk_act(
    act: u8,
    sections: &Vec<Section>,
    areas: &AreaMap,
    quests: &QuestMap,
    state: &mut WalkState,
) -> (r: Result<Vec<CompiledStep>, WalkError>)
    ensures
        final(state)@ == walk_sections(act, sections.deep_view(), old(state)@, areas@, quests@).1,
        match r {
            Ok(v) => walk_sections(act, sections.deep_view(), old(state)@, areas@, quests@).2 is None
                && v.deep_view() == walk_sections(
                act,
                sections.deep_view(),
                old(state)@,
                areas@,
                quests@,
            ).0,
            Err(e) => walk_sections(act, sections.deep_view(), old(state)@, areas@, quests@).2 == Some(
                e.deep_view(),
            ),
        },
{
    let ghost st0 = state@;
    let ghost secs = sections.deep_view();
    let mut compiled: Vec<CompiledStep> = Vec::new();
    let mut i: usize = 0;
    assert(compiled.deep_view() =~= Seq::<CompiledStepView>::empty());
    while i < sections.len()
        invariant
            i <= sections.len(),
            st0 == old(state)@,
            secs == sections.deep_view(),
            walk_sections(act, secs.take(i as int), st0, areas@, quests@) == (
                compiled.deep_view(),
                state@,
                None::<WalkErrorView>,
            ),
        decreases sections.len() - i,
    {
        let section = &sections[i];
        let ghost sec = secs[i as int];
        let ghost base = compiled.deep_view().len();
        let ghost sst = state@;
        let ghost before = compiled.deep_view();
        proof {
            assert(secs.take(i + 1).drop_last() =~= secs.take(i as int));
            assert(sec == section.deep_view());
            assert(secs.take(i + 1).last() == sec);
        }
        let mut j: usize = 0;
        assert(compiled.deep_view().skip(base as int) =~= Seq::<CompiledStepView>::empty());
        while j < section.steps.len()
            invariant
                j <= section.steps.len(),
                i < sections.len(),
                secs == sections.deep_view(),
                sec == section.deep_view(),
                st0 == old(state)@,
                compiled.deep_view().len() >= base,
                compiled.deep_view().take(base as int) == before,
                before.len() == base,
                walk_sections(act, secs.take(i as int), st0, areas@, quests@) == (
                    before,
                    sst,
                    None::<WalkErrorView>,
                ),
                walk_steps(act, sec.name, sec.steps.take(j as int), base, sst, areas@, quests@) == (
                    compiled.deep_view().skip(base as int),
                    state@,
                    None::<WalkErrorView>,
                ),
                sec == secs[i as int],
            decreases section.steps.len() - j,
        {
            let step = &section.steps[j];
            proof {
                assert(sec.steps.take(j + 1).drop_last() =~= sec.steps.take(j as int));
                assert(sec.steps[j as int] == step.deep_view());
            }
            let count = compiled.len() as u64;
            let index: u64 = if count < u64::MAX {
                count + 1
            } else {
                u64::MAX
            };
            let id = step_id(act, index);
            let area_context = state.current_area_id.clone();
            let ghost sbefore = state@;
            match apply_list(&step.fragments, areas, quests, state, id.as_str()) {
                Err(e) => {
                    proof {
                        lemma_steps_err_sticks(act, sec.name, sec.steps, j + 1, base, sst, areas@, quests@);
                        assert(sec.steps.take(sec.steps.len() as int) =~= sec.steps);
                        assert(secs.take(i + 1).drop_last() =~= secs.take(i as int));
                        assert(secs.take(i + 1).last() == sec);
                        lemma_sections_err_sticks(act, secs, i + 1, st0, areas@, quests@);
                        assert(secs.take(secs.len() as int) =~= secs);
                    }
                    return Err(e);
                },
                Ok(_) => {},
            }
            match apply_subs(&step.sub_steps, areas, quests, state, id.as_str()) {
                Err(e) => {
                    proof {
                        lemma_steps_err_sticks(act, sec.name, sec.steps, j + 1, base, sst, areas@, quests@);
                        assert(sec.steps.take(sec.steps.len() as int) =~= sec.steps);
                        assert(secs.take(i + 1).drop_last() =~= secs.take(i as int));
                        assert(secs.take(i + 1).last() == sec);
                        lemma_sections_err_sticks(act, secs, i + 1, st0, areas@, quests@);
                        assert(secs.take(secs.len() as int) =~= secs);
                    }
                    return Err(e);
                },
                Ok(_) => {},
            }
            let c = CompiledStep {
                id,
                act,
                section: section.name.clone(),
                area_context,
                fragments: expand_list(&step.fragments, quests),
                sub_steps: expand_subs(&step.sub_steps, quests),
            };
            let ghost cv = c.deep_view();
            let ghost prev = compiled.deep_view();
            compiled.push(c);
            proof {
                assert(compiled.deep_view() =~= prev.push(cv));
                assert(compiled.deep_view().skip(base as int) =~= prev.skip(base as int).push(cv));
                assert(compiled.deep_view().take(base as int) =~= prev.take(base as int));
                assert(cv == compile_step_spec(act, sec.name, step.deep_view(), index as nat, sbefore.current, quests@));
            }
            j += 1;
        }
        proof {
            assert(sec.steps.take(sec.steps.len() as int) =~= sec.steps);
            assert(compiled.deep_view() =~= before + compiled.deep_view().skip(base as int));
        }
        i += 1;
    }
    assert(secs.take(secs.len() as int) =~= secs);
    Ok(compiled)
}

} // verus!
