//! Overlay composition: the display model assembled from route progress,
//! pending tasks, layouts, areas and an optional build plan.

use vstd::prelude::*;

use crate::game_data::{is_town_area, is_town_in, AreaMap};
use crate::layouts::{AuditStatus, LayoutEntry, LayoutEntryView, LayoutImageView, LayoutItem, LayoutItemView};
use crate::map::{insert_entry, lookup, StrMap};
use crate::pob::{LevelingBuildPlan, LevelingBuildPlanView, Milestone, MilestoneView, Reliability};
use crate::render::{area_name, display_name, render_fragments, render_spec};
use crate::route_engine::{focus_area_spec, group_end, next_transition_spec, RouteEngine, RouteEngineView};
use crate::task_engine::{reminders_of, PendingTaskView, TaskEngine};
use crate::text::{append_str, chars_of, owned, string_of};
use crate::walk::{AreasView, CompiledStepView};

verus! {

#[derive(Debug, Clone, PartialEq)]
pub struct NoteView {
    pub text: String,
    pub stale: bool,
}

/// A layout diagram by file name; `stale` when its audit says outdated.
#[derive(Debug, Clone, PartialEq)]
pub struct ImageView {
    pub file: String,
    pub stale: bool,
}

/// A build plan and the player's level, when known.
pub struct BuildContext<'a> {
    pub plan: &'a LevelingBuildPlan,
    pub player_level: Option<u16>,
}

#[derive(Debug, Clone, PartialEq)]
pub struct OverlayModel {
    pub zone_name: String,
    pub area_id: String,
    pub act: u8,
    pub off_route_zone: Option<String>,
    pub layout_images: Vec<ImageView>,
    pub layout_notes: Vec<NoteView>,
    pub steps_in_zone: Vec<String>,
    pub sub_hints: Vec<String>,
    pub primary: String,
    pub next_zone: Option<String>,
    pub pending_count: usize,
    pub town_reminders: Vec<String>,
    pub build_reminders: Vec<String>,
    pub is_town: bool,
    pub route_complete: bool,
}

pub struct OverlayModelView {
    pub zone_name: Seq<char>,
    pub area_id: Seq<char>,
    pub act: u8,
    pub off_route_zone: Option<Seq<char>>,
    pub layout_images: Seq<(Seq<char>, bool)>,
    pub layout_notes: Seq<(Seq<char>, bool)>,
    pub steps_in_zone: Seq<Seq<char>>,
    pub sub_hints: Seq<Seq<char>>,
    pub primary: Seq<char>,
    pub next_zone: Option<Seq<char>>,
    pub pending_count: usize,
    pub town_reminders: Seq<Seq<char>>,
    pub build_reminders: Seq<Seq<char>>,
    pub is_town: bool,
    pub route_complete: bool,
}

impl DeepView for OverlayModel {
    type V = OverlayModelView;

    open spec fn deep_view(&self) -> OverlayModelView {
        OverlayModelView {
            zone_name: self.zone_name@,
            area_id: self.area_id@,
            act: self.act,
            off_route_zone: self.off_route_zone.deep_view(),
            layout_images: image_pairs(self.layout_images@),
            layout_notes: note_pairs(self.layout_notes@),
            steps_in_zone: self.steps_in_zone.deep_view(),
            sub_hints: self.sub_hints.deep_view(),
            primary: self.primary@,
            next_zone: self.next_zone.deep_view(),
            pending_count: self.pending_count,
            town_reminders: self.town_reminders.deep_view(),
            build_reminders: self.build_reminders.deep_view(),
            is_town: self.is_town,
            route_complete: self.route_complete,
        }
    }
}

// ---------------------------------------------------------------------
// Specification
// ---------------------------------------------------------------------

pub type LayoutsView = Seq<(Seq<char>, LayoutEntryView)>;

/// Layout entries indexed by area id, a later entry replacing an earlier
/// one for the same area.
pub open spec fn layouts_index(entries: Seq<LayoutEntryView>) -> LayoutsView
    decreases entries.len(),
{
    if entries.len() == 0 {
        Seq::empty()
    } else {
        insert_entry(layouts_index(entries.drop_last()), entries.last().area_id, entries.last())
    }
}

/// The text shown for a description or note, and whether it is stale: a
/// corrected item shows its correction (or its text when none is
/// recorded), an outdated one its text marked stale.
pub open spec fn note_of(item: LayoutItemView) -> (Seq<char>, bool) {
    match item.audit.status {
        AuditStatus::Corrected => (
            match item.audit.correction {
                Some(c) => c,
                None => item.text,
            },
            false,
        ),
        AuditStatus::Outdated => (item.text, true),
        _ => (item.text, false),
    }
}

pub open spec fn note_pairs(ns: Seq<NoteView>) -> Seq<(Seq<char>, bool)>
    decreases ns.len(),
{
    if ns.len() == 0 {
        Seq::empty()
    } else {
        note_pairs(ns.drop_last()).push((ns.last().text@, ns.last().stale))
    }
}

pub open spec fn image_pairs(is: Seq<ImageView>) -> Seq<(Seq<char>, bool)>
    decreases is.len(),
{
    if is.len() == 0 {
        Seq::empty()
    } else {
        image_pairs(is.drop_last()).push((is.last().file@, is.last().stale))
    }
}

pub open spec fn items_notes(items: Seq<LayoutItemView>) -> Seq<(Seq<char>, bool)>
    decreases items.len(),
{
    if items.len() == 0 {
        Seq::empty()
    } else {
        items_notes(items.drop_last()).push(note_of(items.last()))
    }
}

pub open spec fn image_entries(images: Seq<LayoutImageView>) -> Seq<(Seq<char>, bool)>
    decreases images.len(),
{
    if images.len() == 0 {
        Seq::empty()
    } else {
        image_entries(images.drop_last()).push(
            (images.last().file, images.last().audit.status == AuditStatus::Outdated),
        )
    }
}

/// The display notes of an entry: its descriptions, then its notes.
pub open spec fn notes_of(entry: LayoutEntryView) -> Seq<(Seq<char>, bool)> {
    items_notes(entry.descriptions + entry.notes)
}

/// The display images of an entry.
pub open spec fn images_of(entry: LayoutEntryView) -> Seq<(Seq<char>, bool)> {
    image_entries(entry.images)
}

pub open spec fn focus_steps_of(v: RouteEngineView) -> Seq<CompiledStepView> {
    if v.focus >= v.steps.len() {
        Seq::empty()
    } else {
        v.steps.subrange(v.focus, group_end(v.steps, v.focus))
    }
}

/// The non-empty rendered step texts of `steps`.
pub open spec fn step_texts(steps: Seq<CompiledStepView>, areas: AreasView) -> Seq<Seq<char>>
    decreases steps.len(),
{
    if steps.len() == 0 {
        Seq::empty()
    } else {
        let rest = step_texts(steps.drop_last(), areas);
        let r = render_spec(steps.last().fragments, areas);
        if r.len() > 0 {
            rest.push(r)
        } else {
            rest
        }
    }
}

/// The non-empty rendered texts of sub-step lists.
pub open spec fn sub_texts(subs: Seq<Seq<crate::fragment::FragmentView>>, areas: AreasView) -> Seq<Seq<char>>
    decreases subs.len(),
{
    if subs.len() == 0 {
        Seq::empty()
    } else {
        let rest = sub_texts(subs.drop_last(), areas);
        let r = render_spec(subs.last(), areas);
        if r.len() > 0 {
            rest.push(r)
        } else {
            rest
        }
    }
}

/// The non-empty rendered sub-step hints of `steps`, step by step.
pub open spec fn hint_texts(steps: Seq<CompiledStepView>, areas: AreasView) -> Seq<Seq<char>>
    decreases steps.len(),
{
    if steps.len() == 0 {
        Seq::empty()
    } else {
        hint_texts(steps.drop_last(), areas) + sub_texts(steps.last().sub_steps, areas)
    }
}

pub open spec fn sat_add16(a: u16, b: u16) -> u16 {
    if a + b > u16::MAX {
        u16::MAX
    } else {
        (a + b) as u16
    }
}

/// Whether milestone level `m` is due for a player at level `p`: at most
/// two levels ahead, at most five behind.
pub open spec fn due(m: u16, p: u16) -> bool {
    m <= sat_add16(p, 2) && sat_add16(m, 5) >= p
}

pub open spec fn due_of(ms: Seq<MilestoneView>, p: u16) -> Seq<MilestoneView>
    decreases ms.len(),
{
    if ms.len() == 0 {
        ms
    } else {
        let rest = due_of(ms.drop_last(), p);
        if due(ms.last().level, p) {
            rest.push(ms.last())
        } else {
            rest
        }
    }
}

/// `x` inserted into `s` after every milestone of no greater level.
pub open spec fn insert_by_level(s: Seq<MilestoneView>, x: MilestoneView) -> Seq<MilestoneView>
    decreases s.len(),
{
    if s.len() == 0 {
        seq![x]
    } else if s.last().level <= x.level {
        s.push(x)
    } else {
        insert_by_level(s.drop_last(), x).push(s.last())
    }
}

/// `ms` stably sorted by level.
pub open spec fn sort_by_level(ms: Seq<MilestoneView>) -> Seq<MilestoneView>
    decreases ms.len(),
{
    if ms.len() == 0 {
        ms
    } else {
        insert_by_level(sort_by_level(ms.drop_last()), ms.last())
    }
}

/// The build reminders for a plan at a player level: none out of town,
/// without a level, or for an unsupported plan; otherwise the labels of
/// the due milestones by level, the last four when more are due.
pub open spec fn build_reminders_spec(is_town: bool, build: Option<(LevelingBuildPlanView, Option<u16>)>) -> Seq<
    Seq<char>,
> {
    match build {
        None => Seq::empty(),
        Some((plan, level)) => match level {
            None => Seq::empty(),
            Some(p) => if !is_town || plan.reliability == Reliability::Unsupported {
                Seq::empty()
            } else {
                let sorted = sort_by_level(due_of(plan.milestones, p));
                let keep_from = if sorted.len() > 4 {
                    sorted.len() - 4
                } else {
                    0
                };
                sorted.skip(keep_from).map_values(|m: MilestoneView| m.label)
            },
        },
    }
}

pub open spec fn build_view(build: Option<BuildContext>) -> Option<(LevelingBuildPlanView, Option<u16>)> {
    match build {
        Some(b) => Some((b.plan.deep_view(), b.player_level)),
        None => None,
    }
}

/// The overlay for the zone the player is in on the route (the focus,
/// which follows detours behind the furthest progress); "complete" is
/// about the furthest progress.
pub open spec fn compose_spec(
    v: RouteEngineView,
    tasks: Seq<PendingTaskView>,
    layouts: LayoutsView,
    areas: AreasView,
    build: Option<(LevelingBuildPlanView, Option<u16>)>,
) -> OverlayModelView {
    let complete = v.frontier >= v.steps.len();
    let area_id = match focus_area_spec(v) {
        Some(a) => a,
        None => Seq::empty(),
    };
    let entry = if complete {
        None
    } else {
        lookup(layouts, area_id)
    };
    let steps_in_zone = step_texts(focus_steps_of(v), areas);
    let next_zone = match next_transition_spec(v) {
        Some(id) => Some(area_name(areas, id)),
        None => None,
    };
    let is_town = !complete && is_town_in(areas, area_id);
    OverlayModelView {
        zone_name: if complete {
            "Campaign complete"@
        } else {
            area_name(areas, area_id)
        },
        area_id,
        act: if complete || !(0 <= v.focus < v.steps.len()) {
            0
        } else {
            v.steps[v.focus].act
        },
        off_route_zone: match v.off_route {
            Some(id) => Some(area_name(areas, id)),
            None => None,
        },
        layout_images: match entry {
            Some(e) => images_of(e),
            None => Seq::empty(),
        },
        layout_notes: match entry {
            Some(e) => notes_of(e),
            None => Seq::empty(),
        },
        steps_in_zone,
        sub_hints: hint_texts(focus_steps_of(v), areas),
        primary: if complete {
            Seq::empty()
        } else if steps_in_zone.len() > 0 {
            steps_in_zone[0]
        } else {
            match next_zone {
                Some(nz) => "Continue to "@ + nz,
                None => Seq::empty(),
            }
        },
        next_zone,
        pending_count: tasks.len() as usize,
        town_reminders: if is_town {
            reminders_of(tasks).map_values(|p: PendingTaskView| p.label)
        } else {
            Seq::empty()
        },
        build_reminders: build_reminders_spec(is_town, build),
        is_town,
        route_complete: complete,
    }
}

proof fn lemma_step_texts_first(steps: Seq<CompiledStepView>, areas: AreasView)
    ensures
        step_texts(steps, areas).len() == 0 ==> forall|j: int|
            0 <= j < steps.len() ==> render_spec((#[trigger] steps[j]).fragments, areas).len() == 0,
        step_texts(steps, areas).len() > 0 ==> exists|k: int|
            0 <= k < steps.len() && render_spec(steps[k].fragments, areas) == step_texts(steps, areas)[0]
                && forall|j: int| 0 <= j < k ==> render_spec((#[trigger] steps[j]).fragments, areas).len() == 0,
    decreases steps.len(),
{
    if steps.len() > 0 {
        let d = steps.drop_last();
        lemma_step_texts_first(d, areas);
        let rest = step_texts(d, areas);
        let r = render_spec(steps.last().fragments, areas);
        if rest.len() > 0 {
            let k = choose|k: int|
                0 <= k < d.len() && render_spec(d[k].fragments, areas) == rest[0] && forall|j: int|
                    0 <= j < k ==> render_spec((#[trigger] d[j]).fragments, areas).len() == 0;
            assert(steps[k] == d[k]);
            assert forall|j: int| 0 <= j < k implies render_spec((#[trigger] steps[j]).fragments, areas).len() == 0 by {
                assert(steps[j] == d[j]);
            }
            if r.len() > 0 {
                assert(rest.push(r)[0] == rest[0]);
            }
        } else {
            assert forall|j: int| 0 <= j < steps.len() - 1 implies render_spec((#[trigger] steps[j]).fragments, areas).len() == 0 by {
                assert(steps[j] == d[j]);
            }
            if r.len() > 0 {
                let k = steps.len() - 1;
                assert(rest.push(r)[0] == r);
                assert(render_spec(steps[k].fragments, areas) == r);
            }
        }
    }
}

/// The overlay's primary line is the first step of the zone in focus that
/// renders to any text: while the route is not complete and the zone has
/// step text, it is the first line of `steps_in_zone`, rendered from the
/// earliest focus step with text (every focus step before it renders to
/// nothing).
pub proof fn lemma_primary_is_the_first_step(
    v: RouteEngineView,
    tasks: Seq<PendingTaskView>,
    layouts: LayoutsView,
    areas: AreasView,
    build: Option<(LevelingBuildPlanView, Option<u16>)>,
)
    ensures
        ({
            let m = compose_spec(v, tasks, layouts, areas, build);
            let fs = focus_steps_of(v);
            (!m.route_complete && m.steps_in_zone.len() > 0) ==> {
                &&& m.primary == m.steps_in_zone[0]
                &&& exists|k: int|
                    0 <= k < fs.len() && render_spec(fs[k].fragments, areas) == m.primary && forall|j: int|
                        0 <= j < k ==> render_spec((#[trigger] fs[j]).fragments, areas).len() == 0
            }
        }),
{
    lemma_step_texts_first(focus_steps_of(v), areas);
}

/// Reminders are shown in town only: out of town (and once the route is
/// complete, which is never in town) the overlay carries no task and no
/// build reminders. A complete route shows no zone content at all.
pub proof fn lemma_reminders_only_in_town(
    v: RouteEngineView,
    tasks: Seq<PendingTaskView>,
    layouts: LayoutsView,
    areas: AreasView,
    build: Option<(LevelingBuildPlanView, Option<u16>)>,
)
    ensures
        ({
            let m = compose_spec(v, tasks, layouts, areas, build);
            &&& !m.is_town ==> m.town_reminders.len() == 0 && m.build_reminders.len() == 0
            &&& m.route_complete ==> !m.is_town && m.layout_images.len() == 0 && m.layout_notes.len() == 0
                && m.primary.len() == 0
        }),
{
}

/// At most four build reminders are shown at once.
pub proof fn lemma_build_reminders_at_most_four(is_town: bool, build: Option<(LevelingBuildPlanView, Option<u16>)>)
    ensures
        build_reminders_spec(is_town, build).len() <= 4,
{
}

// ---------------------------------------------------------------------
// Implementation
// ---------------------------------------------------------------------

/// Layout entries indexed by area id.
pub fn layouts_by_area(entries: Vec<LayoutEntry>) -> (r: StrMap<LayoutEntry>)
    ensures
        r@ == layouts_index(entries.deep_view()),
{
    let ghost ev = entries.deep_view();
    let mut m: StrMap<LayoutEntry> = StrMap::new();
    let mut rest = entries;
    while rest.len() > 0
        invariant
            rest.deep_view().len() <= ev.len(),
            rest.deep_view() == ev.skip(ev.len() - rest.deep_view().len()),
            m@ == layouts_index(ev.take(ev.len() - rest.deep_view().len())),
        decreases rest.len(),
    {
        let ghost k = ev.len() - rest.deep_view().len();
        let ghost before = rest.deep_view();
        let e = rest.remove(0);
        proof {
            assert(rest.deep_view() =~= before.skip(1));
            assert(e.deep_view() == before[0]);
            assert(before[0] == ev[k]);
            assert(before.skip(1) =~= ev.skip(k + 1));
            assert(ev.take(k + 1).drop_last() =~= ev.take(k));
            assert(ev.take(k + 1).last() == ev[k]);
        }
        let key = e.area_id.clone();
        m.insert(key, e);
    }
    assert(ev.take(ev.len() as int) =~= ev);
    m
}

fn note_view(item: &LayoutItem) -> (n: NoteView)
    ensures
        (n.text@, n.stale) == note_of(item.deep_view()),
{
    match item.audit.status {
        AuditStatus::Corrected => {
            let text = match &item.audit.correction {
                Some(c) => c.clone(),
                None => item.text.clone(),
            };
            NoteView { text, stale: false }
        },
        AuditStatus::Outdated => NoteView { text: item.text.clone(), stale: true },
        _ => NoteView { text: item.text.clone(), stale: false },
    }
}

/// The display notes of a layout entry: its descriptions, then its notes.
pub fn note_views(entry: &LayoutEntry) -> (r: Vec<NoteView>)
    ensures
        note_pairs(r@) == notes_of(entry.deep_view()),
{
    let ghost all = entry.descriptions.deep_view() + entry.notes.deep_view();
    let mut out: Vec<NoteView> = Vec::new();
    let mut i: usize = 0;
    while i < entry.descriptions.len()
        invariant
            i <= entry.descriptions.len(),
            all == entry.descriptions.deep_view() + entry.notes.deep_view(),
            note_pairs(out@) == items_notes(all.take(i as int)),
        decreases entry.descriptions.len() - i,
    {
        let n = note_view(&entry.descriptions[i]);
        let ghost prev = out@;
        out.push(n);
        proof {
            assert(out@.drop_last() =~= prev);
            assert(all[i as int] == entry.descriptions@[i as int].deep_view());
            assert(all.take(i + 1).drop_last() =~= all.take(i as int));
        }
        i += 1;
    }
    let d = entry.descriptions.len();
    let mut j: usize = 0;
    while j < entry.notes.len()
        invariant
            j <= entry.notes.len(),
            d == entry.descriptions.len(),
            all == entry.descriptions.deep_view() + entry.notes.deep_view(),
            note_pairs(out@) == items_notes(all.take(d + j)),
        decreases entry.notes.len() - j,
    {
        let n = note_view(&entry.notes[j]);
        let ghost prev = out@;
        out.push(n);
        proof {
            assert(out@.drop_last() =~= prev);
            assert(all[d + j] == entry.notes@[j as int].deep_view());
            assert(all.take(d + j + 1).drop_last() =~= all.take(d + j));
        }
        j += 1;
    }
    assert(all.take(all.len() as int) =~= all);
    out
}

fn image_views(entry: &LayoutEntry) -> (r: Vec<ImageView>)
    ensures
        image_pairs(r@) == images_of(entry.deep_view()),
{
    let ghost imgs = entry.images.deep_view();
    let mut out: Vec<ImageView> = Vec::new();
    let mut i: usize = 0;
    while i < entry.images.len()
        invariant
            i <= entry.images.len(),
            imgs == entry.images.deep_view(),
            image_pairs(out@) == image_entries(imgs.take(i as int)),
        decreases entry.images.len() - i,
    {
        let im = &entry.images[i];
        let v = ImageView { file: im.file.clone(), stale: im.audit.status == AuditStatus::Outdated };
        let ghost prev = out@;
        out.push(v);
        proof {
            assert(out@.drop_last() =~= prev);
            assert(imgs.take(i + 1).drop_last() =~= imgs.take(i as int));
        }
        i += 1;
    }
    assert(imgs.take(imgs.len() as int) =~= imgs);
    out
}

proof fn lemma_insert_by_level(s: Seq<MilestoneView>, x: MilestoneView, p: int)
    requires
        0 <= p <= s.len(),
        forall|k: int| p <= k < s.len() ==> s[k].level > x.level,
        p == 0 || s[p - 1].level <= x.level,
    ensures
        insert_by_level(s, x) == s.insert(p, x),
    decreases s.len(),
{
    if s.len() == 0 {
        assert(s.insert(p, x) =~= seq![x]);
    } else if p == s.len() {
        assert(s.insert(p, x) =~= s.push(x));
    } else {
        lemma_insert_by_level(s.drop_last(), x, p);
        assert(s.drop_last().insert(p, x).push(s.last()) =~= s.insert(p, x));
    }
}

pub open spec fn level_sorted(s: Seq<MilestoneView>) -> bool {
    forall|i: int, j: int| 0 <= i < j < s.len() ==> (#[trigger] s[i]).level <= (#[trigger] s[j]).level
}

proof fn lemma_insert_by_level_props(s: Seq<MilestoneView>, x: MilestoneView)
    requires
        level_sorted(s),
    ensures
        level_sorted(insert_by_level(s, x)),
        insert_by_level(s, x).to_multiset() == s.to_multiset().insert(x),
    decreases s.len(),
{
    let r = insert_by_level(s, x);
    if s.len() == 0 {
        assert(r =~= seq![x]);
        assert(s.to_multiset() =~= vstd::multiset::Multiset::<MilestoneView>::empty()) by {
            s.to_multiset_ensures();
        }
        r.to_multiset_ensures();
        Seq::<MilestoneView>::empty().to_multiset_ensures();
        assert(r == Seq::<MilestoneView>::empty().push(x));
    } else if s.last().level <= x.level {
        s.to_multiset_ensures();
    } else {
        let d = s.drop_last();
        assert(level_sorted(d)) by {
            assert forall|i: int, j: int| 0 <= i < j < d.len() implies (#[trigger] d[i]).level <= (#[trigger] d[j]).level by {
                assert(d[i] == s[i] && d[j] == s[j]);
            }
        }
        lemma_insert_by_level_props(d, x);
        let t = insert_by_level(d, x);
        assert(s =~= d.push(s.last()));
        d.to_multiset_ensures();
        t.to_multiset_ensures();
        s.to_multiset_ensures();
        assert(r.to_multiset() =~= s.to_multiset().insert(x)) by {
            assert(r.to_multiset() == t.to_multiset().insert(s.last()));
            assert(s.to_multiset() == d.to_multiset().insert(s.last()));
        }
        assert forall|i: int, j: int| 0 <= i < j < r.len() implies (#[trigger] r[i]).level <= (#[trigger] r[j]).level by {
            if j == r.len() - 1 {
                assert(r[j] == s.last());
                assert(t.to_multiset().count(r[i]) > 0) by {
                    assert(t.contains(r[i])) by {
                        assert(t[i] == r[i]);
                    }
                    t.to_multiset_ensures();
                }
                assert(t.to_multiset().count(r[i]) == d.to_multiset().insert(x).count(r[i]));
                if r[i] != x {
                    assert(d.to_multiset().count(r[i]) > 0);
                    d.to_multiset_ensures();
                    assert(d.contains(r[i]));
                    let k = choose|k: int| 0 <= k < d.len() && d[k] == r[i];
                    assert(s[k] == d[k]);
                    assert(s[k].level <= s[s.len() - 1].level);
                }
            } else {
                assert(r[i] == t[i] && r[j] == t[j]);
            }
        }
    }
}

/// Reminders come in level order: sorting keeps every milestone (as a
/// multiset) and orders them by level.
pub proof fn lemma_sort_by_level_sorts(ms: Seq<MilestoneView>)
    ensures
        level_sorted(sort_by_level(ms)),
        sort_by_level(ms).to_multiset() == ms.to_multiset(),
    decreases ms.len(),
{
    if ms.len() > 0 {
        let d = ms.drop_last();
        lemma_sort_by_level_sorts(d);
        lemma_insert_by_level_props(sort_by_level(d), ms.last());
        assert(ms =~= d.push(ms.last()));
        d.to_multiset_ensures();
        ms.to_multiset_ensures();
    } else {
        assert(sort_by_level(ms) == ms);
    }
}

/// Milestone reminders for a build (see `build_reminders_spec`).
pub fn build_reminders_for(is_town: bool, build: Option<&BuildContext>) -> (r: Vec<String>)
    ensures
        r.deep_view() == build_reminders_spec(
            is_town,
            match build {
                Some(b) => Some((b.plan.deep_view(), b.player_level)),
                None => None,
            },
        ),
{
    let build = match build {
        Some(b) => b,
        None => {
            let r: Vec<String> = Vec::new();
            assert(r.deep_view() =~= Seq::<Seq<char>>::empty());
            return r;
        },
    };
    let player_level = match build.player_level {
        Some(p) => p,
        None => {
            let r: Vec<String> = Vec::new();
            assert(r.deep_view() =~= Seq::<Seq<char>>::empty());
            return r;
        },
    };
    if !is_town || build.plan.reliability == Reliability::Unsupported {
        let r: Vec<String> = Vec::new();
        assert(r.deep_view() =~= Seq::<Seq<char>>::empty());
        return r;
    }
    let ms = &build.plan.milestones;
    let ghost mv = ms.deep_view();
    let hi: u16 = if player_level <= u16::MAX - 2 {
        player_level + 2
    } else {
        u16::MAX
    };
    // Due milestones, kept sorted by level as they are inserted.
    let mut sorted: Vec<&Milestone> = Vec::new();
    let mut i: usize = 0;
    while i < ms.len()
        invariant
            i <= ms.len(),
            mv == ms.deep_view(),
            hi == sat_add16(player_level, 2),
            sorted.deep_view() == sort_by_level(due_of(mv.take(i as int), player_level)),
        decreases ms.len() - i,
    {
        let m = &ms[i];
        proof {
            assert(mv.take(i + 1).drop_last() =~= mv.take(i as int));
            assert(mv[i as int] == m.deep_view());
        }
        let lo_ok = if m.level <= u16::MAX - 5 {
            m.level + 5 >= player_level
        } else {
            true
        };
        if m.level <= hi && lo_ok {
            let ghost s = sorted.deep_view();
            let mut p = sorted.len();
            while p > 0 && sorted[p - 1].level > m.level
                invariant
                    p <= sorted.len(),
                    s == sorted.deep_view(),
                    forall|k: int| p <= k < s.len() ==> s[k].level > m.level,
                decreases p,
            {
                p -= 1;
            }
            proof {
                lemma_insert_by_level(s, m.deep_view(), p as int);
                assert(due_of(mv.take(i as int), player_level).push(m.deep_view()).drop_last() =~= due_of(
                    mv.take(i as int),
                    player_level,
                ));
                assert(due_of(mv.take(i + 1), player_level) == due_of(mv.take(i as int), player_level).push(
                    m.deep_view(),
                ));
                assert(sort_by_level(due_of(mv.take(i + 1), player_level)) == insert_by_level(
                    s,
                    m.deep_view(),
                ));
            }
            sorted.insert(p, m);
            proof {
                assert(sorted.deep_view() =~= s.insert(p as int, m.deep_view()));
            }
        }
        i += 1;
    }
    assert(mv.take(mv.len() as int) =~= mv);
    let n = sorted.len();
    let keep_from = if n > 4 {
        n - 4
    } else {
        0
    };
    let ghost sv = sorted.deep_view();
    let mut out: Vec<String> = Vec::new();
    let mut k = keep_from;
    while k < n
        invariant
            keep_from <= k <= n == sorted.len(),
            sv == sorted.deep_view(),
            out.deep_view() == sv.subrange(keep_from as int, k as int).map_values(|m: MilestoneView| m.label),
        decreases n - k,
    {
        let l = sorted[k].label.clone();
        let ghost before = out.deep_view();
        out.push(l);
        proof {
            assert(out.deep_view() =~= before.push(l@));
            assert(out.deep_view() =~= sv.subrange(keep_from as int, k + 1).map_values(
                |m: MilestoneView| m.label,
            ));
        }
        k += 1;
    }
    assert(sv.subrange(keep_from as int, n as int) =~= sv.skip(keep_from as int));
    out
}


fn rendered_steps(steps: &[crate::walk::CompiledStep], areas: &AreaMap) -> (r: Vec<String>)
    ensures
        r.deep_view() == step_texts(steps.deep_view(), areas@),
{
    let ghost sv = steps.deep_view();
    let mut out: Vec<String> = Vec::new();
    let mut i: usize = 0;
    while i < steps.len()
        invariant
            i <= steps.len(),
            sv == steps.deep_view(),
            out.deep_view() == step_texts(sv.take(i as int), areas@),
        decreases steps.len() - i,
    {
        proof {
            assert(sv.take(i + 1).drop_last() =~= sv.take(i as int));
            assert(sv[i as int] == steps@[i as int].deep_view());
        }
        let r = render_fragments(steps[i].fragments.as_slice(), areas);
        if chars_of(r.as_str()).len() > 0 {
            let ghost before = out.deep_view();
            out.push(r);
            proof {
                assert(out.deep_view() =~= before.push(r@));
            }
        }
        i += 1;
    }
    assert(sv.take(sv.len() as int) =~= sv);
    out
}

fn rendered_hints(steps: &[crate::walk::CompiledStep], areas: &AreaMap) -> (r: Vec<String>)
    ensures
        r.deep_view() == hint_texts(steps.deep_view(), areas@),
{
    let ghost sv = steps.deep_view();
    let mut out: Vec<String> = Vec::new();
    let mut i: usize = 0;
    while i < steps.len()
        invariant
            i <= steps.len(),
            sv == steps.deep_view(),
            out.deep_view() == hint_texts(sv.take(i as int), areas@),
        decreases steps.len() - i,
    {
        proof {
            assert(sv.take(i + 1).drop_last() =~= sv.take(i as int));
            assert(sv[i as int] == steps@[i as int].deep_view());
        }
        let subs = &steps[i].sub_steps;
        let ghost subv = subs.deep_view();
        let ghost base = out.deep_view();
        let mut j: usize = 0;
        assert(base + sub_texts(subv.take(0), areas@) =~= base);
        while j < subs.len()
            invariant
                j <= subs.len(),
                subv == subs.deep_view(),
                out.deep_view() == base + sub_texts(subv.take(j as int), areas@),
            decreases subs.len() - j,
        {
            proof {
                assert(subv.take(j + 1).drop_last() =~= subv.take(j as int));
                assert(subv[j as int] == subs@[j as int].deep_view());
            }
            let r = render_fragments(subs[j].as_slice(), areas);
            if chars_of(r.as_str()).len() > 0 {
                let ghost before = out.deep_view();
                out.push(r);
                proof {
                    assert(out.deep_view() =~= before.push(r@));
                }
            }
            j += 1;
        }
        proof {
            assert(subv.take(subv.len() as int) =~= subv);
        }
        i += 1;
    }
    assert(sv.take(sv.len() as int) =~= sv);
    out
}

fn reminder_labels(tasks: &TaskEngine) -> (r: Vec<String>)
    ensures
        r.deep_view() == reminders_of(tasks@).map_values(|p: PendingTaskView| p.label),
{
    let rs = tasks.town_reminders();
    let ghost rv = rs.deep_view();
    let mut out: Vec<String> = Vec::new();
    let mut i: usize = 0;
    while i < rs.len()
        invariant
            i <= rs.len(),
            rv == rs.deep_view(),
            out.deep_view() == rv.take(i as int).map_values(|p: PendingTaskView| p.label),
        decreases rs.len() - i,
    {
        let l = rs[i].label.clone();
        let ghost before = out.deep_view();
        out.push(l);
        proof {
            assert(out.deep_view() =~= before.push(l@));
            assert(rv[i as int] == rs@[i as int].deep_view());
            assert(out.deep_view() =~= rv.take(i + 1).map_values(|p: PendingTaskView| p.label));
        }
        i += 1;
    }
    assert(rv.take(rv.len() as int) =~= rv);
    out
}

/// The overlay model for the engine's frontier zone.
pub fn compose(
    engine: &RouteEngine,
    tasks: &TaskEngine,
    layouts: &StrMap<LayoutEntry>,
    areas: &AreaMap,
    build: Option<BuildContext>,
) -> (m: OverlayModel)
    requires
        engine.wf(),
    ensures
        m.deep_view() == compose_spec(engine@, tasks@, layouts@, areas@, build_view(build)),
{
    proof {
        engine.lemma_wf();
    }
    let ghost v = engine@;
    let route_complete = engine.is_complete();
    let area_id: String = match engine.focus_area() {
        Some(a) => owned(a),
        None => string_of(&Vec::new()),
    };
    let act: u8 = if route_complete {
        0
    } else {
        match engine.focus_act() {
            Some(a) => a,
            None => 0,
        }
    };
    let zone_name = if route_complete {
        owned("Campaign complete")
    } else {
        display_name(areas, area_id.as_str())
    };
    let off_route_zone = match engine.off_route() {
        Some(id) => Some(display_name(areas, id)),
        None => None,
    };
    let layout_entry = if route_complete {
        None
    } else {
        layouts.get(area_id.as_str())
    };
    let (layout_images, layout_notes) = match layout_entry {
        Some(e) => (image_views(e), note_views(e)),
        None => {
            let a: Vec<ImageView> = Vec::new();
            let b: Vec<NoteView> = Vec::new();
            assert(image_pairs(a@) =~= Seq::<(Seq<char>, bool)>::empty());
            assert(note_pairs(b@) =~= Seq::<(Seq<char>, bool)>::empty());
            (a, b)
        },
    };
    let active = engine.focus_steps();
    proof {
        if v.focus >= v.steps.len() {
            assert(active.deep_view() =~= focus_steps_of(v));
        }
    }
    let steps_in_zone = rendered_steps(active, areas);
    let sub_hints = rendered_hints(active, areas);
    let next_zone = match engine.next_transition_area() {
        Some(id) => Some(display_name(areas, id)),
        None => None,
    };
    let primary = if route_complete {
        string_of(&Vec::new())
    } else if steps_in_zone.len() > 0 {
        steps_in_zone[0].clone()
    } else {
        match &next_zone {
            Some(nz) => {
                let mut t = chars_of("Continue to ");
                append_str(&mut t, nz.as_str());
                string_of(&t)
            },
            None => string_of(&Vec::new()),
        }
    };
    let is_town = !route_complete && is_town_area(areas, area_id.as_str());
    let town_reminders = if is_town {
        reminder_labels(tasks)
    } else {
        let r: Vec<String> = Vec::new();
        assert(r.deep_view() =~= Seq::<Seq<char>>::empty());
        r
    };
    let build_reminders = build_reminders_for(is_town, build.as_ref());
    let m = OverlayModel {
        zone_name,
        area_id,
        act,
        off_route_zone,
        layout_images,
        layout_notes,
        steps_in_zone,
        sub_hints,
        primary,
        next_zone,
        pending_count: tasks.pending_count(),
        town_reminders,
        build_reminders,
        is_town,
        route_complete,
    };
    proof {
        assert(m.deep_view() =~= compose_spec(v, tasks@, layouts@, areas@, build_view(build)));
    }
    m
}

} // verus!
