//! Route progress: where the player stands in a compiled campaign route as
//! area entries arrive.
//!
//! Steps sharing an area context in a row form a *group*. `frontier` is the
//! furthest group reached (progress, never moves back); `focus` is the
//! group the player is standing in (display), which walks back on a detour
//! into an earlier group and rejoins `frontier` on the next forward move.

use vstd::prelude::*;

use crate::compile::{ActRouteView, ContentPack};
use crate::game_data::{is_town_area, is_town_in, AreaMap};
use crate::map::Dup;
use crate::text::{owned, str_eq};
use crate::walk::{AreasView, CompiledStep, CompiledStepView};

verus! {

/// How many groups ahead of the frontier's group still count as on route
/// for any area.
pub const LOOKAHEAD_GROUPS: usize = 2;

#[derive(Debug, Clone, Copy, PartialEq, Eq, Structural)]
pub enum StepStatus {
    Pending,
    Done,
    Skipped,
}

/// Where `focus` sits relative to `frontier`.
#[derive(Debug, Clone, Copy, PartialEq, Eq, Structural)]
pub enum LocationStatus {
    /// `focus == frontier`: normal forward play.
    OnTrack,
    /// Behind the frontier, in a group the route skipped past and the player
    /// has not stood in before.
    CatchingUp,
    /// Behind the frontier, in a group the player has already stood in.
    Revisiting,
}

#[derive(Debug, Clone, PartialEq)]
pub enum AdvanceKind {
    InPlace,
    Advanced,
    Resumed,
    /// The player walked back into an earlier group; only `focus` moved.
    Detour { catching_up: bool },
    OffRoute { area_id: String },
    Ignored,
}

pub enum AdvanceKindView {
    InPlace,
    Advanced,
    Resumed,
    Detour { catching_up: bool },
    OffRoute { area_id: Seq<char> },
    Ignored,
}

impl DeepView for AdvanceKind {
    type V = AdvanceKindView;

    open spec fn deep_view(&self) -> AdvanceKindView {
        match self {
            AdvanceKind::InPlace => AdvanceKindView::InPlace,
            AdvanceKind::Advanced => AdvanceKindView::Advanced,
            AdvanceKind::Resumed => AdvanceKindView::Resumed,
            AdvanceKind::Detour { catching_up } => AdvanceKindView::Detour { catching_up: *catching_up },
            AdvanceKind::OffRoute { area_id } => AdvanceKindView::OffRoute { area_id: area_id@ },
            AdvanceKind::Ignored => AdvanceKindView::Ignored,
        }
    }
}

#[derive(Debug, Clone, PartialEq)]
pub struct Advance {
    pub kind: AdvanceKind,
    pub newly_done: Vec<usize>,
    pub newly_skipped: Vec<usize>,
}

pub struct AdvanceView {
    pub kind: AdvanceKindView,
    pub newly_done: Seq<usize>,
    pub newly_skipped: Seq<usize>,
}

impl DeepView for Advance {
    type V = AdvanceView;

    open spec fn deep_view(&self) -> AdvanceView {
        AdvanceView { kind: self.kind.deep_view(), newly_done: self.newly_done@, newly_skipped: self.newly_skipped@ }
    }
}

pub struct RouteEngine {
    steps: Vec<CompiledStep>,
    statuses: Vec<StepStatus>,
    areas: AreaMap,
    frontier: usize,
    focus: usize,
    focus_status: LocationStatus,
    off_route: Option<String>,
    /// Contexts of every step that fell behind the frontier, and of every
    /// behind detour: a same-instance entry into one of them never jumps
    /// far forward to a later occurrence.
    visited_contexts: Vec<String>,
    /// Contexts the player has detoured back into at least once.
    detoured_contexts: Vec<String>,
}

pub struct RouteEngineView {
    pub steps: Seq<CompiledStepView>,
    pub statuses: Seq<StepStatus>,
    pub areas: AreasView,
    pub frontier: int,
    pub focus: int,
    pub focus_status: LocationStatus,
    pub off_route: Option<Seq<char>>,
    pub visited: Seq<Seq<char>>,
    pub detoured: Seq<Seq<char>>,
}

impl View for RouteEngine {
    type V = RouteEngineView;

    closed spec fn view(&self) -> RouteEngineView {
        RouteEngineView {
            steps: self.steps.deep_view(),
            statuses: self.statuses@,
            areas: self.areas@,
            frontier: self.frontier as int,
            focus: self.focus as int,
            focus_status: self.focus_status,
            off_route: self.off_route.deep_view(),
            visited: self.visited_contexts.deep_view(),
            detoured: self.detoured_contexts.deep_view(),
        }
    }
}

// ---------------------------------------------------------------------
// Specification
// ---------------------------------------------------------------------

pub open spec fn ctx(steps: Seq<CompiledStepView>, i: int) -> Seq<char> {
    steps[i].area_context
}

/// The first index at or after `j` whose context differs from `c`.
pub open spec fn group_end_from(steps: Seq<CompiledStepView>, c: Seq<char>, j: int) -> int
    decreases steps.len() - j,
{
    if j < 0 || j >= steps.len() {
        steps.len() as int
    } else if ctx(steps, j) != c {
        j
    } else {
        group_end_from(steps, c, j + 1)
    }
}

/// One past the end of the group starting at `start`.
pub open spec fn group_end(steps: Seq<CompiledStepView>, start: int) -> int {
    group_end_from(steps, ctx(steps, start), start + 1)
}

pub proof fn lemma_group_end_from(steps: Seq<CompiledStepView>, c: Seq<char>, j: int)
    requires
        0 <= j <= steps.len(),
    ensures
        j <= group_end_from(steps, c, j) <= steps.len(),
        forall|k: int| j <= k < group_end_from(steps, c, j) ==> ctx(steps, k) == c,
        group_end_from(steps, c, j) < steps.len() ==> ctx(steps, group_end_from(steps, c, j)) != c,
    decreases steps.len() - j,
{
    if j < steps.len() && ctx(steps, j) == c {
        lemma_group_end_from(steps, c, j + 1);
    }
}

pub proof fn lemma_group_end(steps: Seq<CompiledStepView>, start: int)
    requires
        0 <= start < steps.len(),
    ensures
        start < group_end(steps, start) <= steps.len(),
        forall|k: int| start <= k < group_end(steps, start) ==> ctx(steps, k) == ctx(steps, start),
{
    lemma_group_end_from(steps, ctx(steps, start), start + 1);
}

/// The first group start reached from `i` (walking group by group) whose
/// context is `area`, with how many groups were passed on the way.
pub open spec fn forward_match(steps: Seq<CompiledStepView>, i: int, area: Seq<char>, offset: nat) -> Option<
    (nat, int),
>
    decreases steps.len() - i,
{
    if i < 0 || i >= steps.len() {
        None
    } else if ctx(steps, i) == area {
        Some((offset, i))
    } else {
        proof {
            lemma_group_end(steps, i);
        }
        forward_match(steps, group_end(steps, i), area, offset + 1)
    }
}

pub proof fn lemma_forward_match(steps: Seq<CompiledStepView>, i: int, area: Seq<char>, offset: nat)
    requires
        0 <= i,
    ensures
        forward_match(steps, i, area, offset) matches Some((o, t)) ==> i <= t < steps.len()
            && ctx(steps, t) == area && o >= offset,
    decreases steps.len() - i,
{
    if 0 <= i < steps.len() && ctx(steps, i) != area {
        lemma_group_end(steps, i);
        lemma_forward_match(steps, group_end(steps, i), area, offset + 1);
    }
}

/// The last group start before `frontier` (walking group by group from
/// `i`) whose context is `area`; `best` if there is none.
pub open spec fn behind_scan(
    steps: Seq<CompiledStepView>,
    i: int,
    frontier: int,
    area: Seq<char>,
    best: Option<int>,
) -> Option<int>
    decreases steps.len() - i,
{
    if i < 0 || i >= frontier || i >= steps.len() {
        best
    } else {
        proof {
            lemma_group_end(steps, i);
        }
        behind_scan(
            steps,
            group_end(steps, i),
            frontier,
            area,
            if ctx(steps, i) == area {
                Some(i)
            } else {
                best
            },
        )
    }
}

pub proof fn lemma_behind_scan(
    steps: Seq<CompiledStepView>,
    i: int,
    frontier: int,
    area: Seq<char>,
    best: Option<int>,
)
    requires
        0 <= i,
        best matches Some(b) ==> 0 <= b < frontier && b < steps.len() && ctx(steps, b) == area,
    ensures
        behind_scan(steps, i, frontier, area, best) matches Some(b) ==> 0 <= b < frontier && b
            < steps.len() && ctx(steps, b) == area,
    decreases steps.len() - i,
{
    if i < frontier && i < steps.len() {
        lemma_group_end(steps, i);
        lemma_behind_scan(
            steps,
            group_end(steps, i),
            frontier,
            area,
            if ctx(steps, i) == area {
                Some(i)
            } else {
                best
            },
        );
    }
}

pub open spec fn behind_match(v: RouteEngineView, area: Seq<char>) -> Option<int> {
    behind_scan(v.steps, 0, v.frontier, area, None)
}

pub open spec fn focus_area_spec(v: RouteEngineView) -> Option<Seq<char>> {
    if 0 <= v.focus < v.steps.len() {
        Some(ctx(v.steps, v.focus))
    } else {
        None
    }
}

pub open spec fn active_area_spec(v: RouteEngineView) -> Option<Seq<char>> {
    if 0 <= v.frontier < v.steps.len() {
        Some(ctx(v.steps, v.frontier))
    } else {
        None
    }
}

/// `s` with `x` added unless already present.
pub open spec fn set_insert(s: Seq<Seq<char>>, x: Seq<char>) -> Seq<Seq<char>> {
    if s.contains(x) {
        s
    } else {
        s.push(x)
    }
}

/// `vis` with the contexts of steps `lo..hi` added in order.
pub open spec fn insert_ctxs(vis: Seq<Seq<char>>, steps: Seq<CompiledStepView>, lo: int, hi: int) -> Seq<
    Seq<char>,
>
    decreases hi - lo,
{
    if hi <= lo {
        vis
    } else {
        set_insert(insert_ctxs(vis, steps, lo, hi - 1), ctx(steps, hi - 1))
    }
}

/// Pending steps in `lo..hi` become `Done` before `active_end` and
/// `Skipped` from it on.
pub open spec fn mark(statuses: Seq<StepStatus>, lo: int, hi: int, active_end: int) -> Seq<StepStatus> {
    Seq::new(
        statuses.len(),
        |i: int|
            if lo <= i < hi && statuses[i] == StepStatus::Pending {
                if i < active_end {
                    StepStatus::Done
                } else {
                    StepStatus::Skipped
                }
            } else {
                statuses[i]
            },
    )
}

/// Indices in `lo..hi` that `mark` turns `Done` (`want_done`) or `Skipped`.
pub open spec fn marked_list(
    statuses: Seq<StepStatus>,
    lo: int,
    hi: int,
    active_end: int,
    want_done: bool,
) -> Seq<usize>
    decreases hi - lo,
{
    if hi <= lo {
        Seq::empty()
    } else {
        let rest = marked_list(statuses, lo, hi - 1, active_end, want_done);
        if statuses[hi - 1] == StepStatus::Pending && ((hi - 1 < active_end) == want_done) {
            rest.push((hi - 1) as usize)
        } else {
            rest
        }
    }
}

pub open spec fn no_op(v: RouteEngineView, kind: AdvanceKindView) -> (RouteEngineView, AdvanceView) {
    (v, AdvanceView { kind, newly_done: Seq::empty(), newly_skipped: Seq::empty() })
}

pub open spec fn with_off_route(v: RouteEngineView, o: Option<Seq<char>>) -> RouteEngineView {
    RouteEngineView { off_route: o, ..v }
}

/// Advancing the frontier to the group starting at `target`: pending steps
/// of the frontier's own group become `Done`, those of the groups passed
/// over `Skipped`; entering the last group completes the route at once.
pub open spec fn forward_spec(v: RouteEngineView, target: int) -> (RouteEngineView, AdvanceView) {
    let len = v.steps.len() as int;
    let ae = group_end(v.steps, v.frontier);
    let st1 = mark(v.statuses, v.frontier, target, ae);
    let done1 = marked_list(v.statuses, v.frontier, target, ae, true);
    let skipped = marked_list(v.statuses, v.frontier, target, ae, false);
    let vis1 = insert_ctxs(v.visited, v.steps, v.frontier, target);
    let last = group_end(v.steps, target) == len;
    let statuses = if last {
        mark(st1, target, len, len)
    } else {
        st1
    };
    let done = if last {
        done1 + marked_list(st1, target, len, len, true)
    } else {
        done1
    };
    let visited = if last {
        insert_ctxs(vis1, v.steps, target, len)
    } else {
        vis1
    };
    let frontier = if last {
        len
    } else {
        target
    };
    (
        RouteEngineView {
            steps: v.steps,
            statuses,
            areas: v.areas,
            frontier,
            focus: frontier,
            focus_status: LocationStatus::OnTrack,
            off_route: None,
            visited,
            detoured: v.detoured,
        },
        AdvanceView { kind: AdvanceKindView::Advanced, newly_done: done, newly_skipped: skipped },
    )
}

/// Walking back into the earlier group at `target`: only `focus` moves.
pub open spec fn detour_spec(v: RouteEngineView, area: Seq<char>, target: int) -> (
    RouteEngineView,
    AdvanceView,
) {
    let catching_up = !v.detoured.contains(area) && v.statuses[target] == StepStatus::Skipped;
    (
        RouteEngineView {
            focus: target,
            focus_status: if catching_up {
                LocationStatus::CatchingUp
            } else {
                LocationStatus::Revisiting
            },
            off_route: None,
            detoured: set_insert(v.detoured, area),
            visited: set_insert(v.visited, area),
            ..v
        },
        AdvanceView {
            kind: AdvanceKindView::Detour { catching_up },
            newly_done: Seq::empty(),
            newly_skipped: Seq::empty(),
        },
    )
}

/// Whether a forward match `offset` groups ahead may be taken: within the
/// lookahead always; further only for a never-visited non-town area or a
/// brand-new instance.
pub open spec fn forward_allowed(v: RouteEngineView, area: Seq<char>, offset: nat, new_instance: bool) -> bool {
    offset <= LOOKAHEAD_GROUPS || (!is_town_in(v.areas, area) && !v.visited.contains(area))
        || new_instance
}

/// The engine after the player enters `area` (`new_instance`: a freshly
/// generated instance of it), and what that entry meant.
pub open spec fn entered(v: RouteEngineView, area: Seq<char>, new_instance: bool) -> (
    RouteEngineView,
    AdvanceView,
) {
    if focus_area_spec(v) == Some(area) {
        if v.off_route is Some {
            no_op(with_off_route(v, None), AdvanceKindView::Resumed)
        } else {
            no_op(v, AdvanceKindView::InPlace)
        }
    } else if v.frontier >= v.steps.len() {
        match behind_match(v, area) {
            Some(t) => detour_spec(v, area, t),
            None => no_op(v, AdvanceKindView::Ignored),
        }
    } else {
        let fallback = match behind_match(v, area) {
            Some(t) => detour_spec(v, area, t),
            None => if v.off_route == Some(area) {
                no_op(v, AdvanceKindView::Ignored)
            } else {
                no_op(with_off_route(v, Some(area)), AdvanceKindView::OffRoute { area_id: area })
            },
        };
        match forward_match(v.steps, v.frontier, area, 0) {
            Some((offset, target)) => if forward_allowed(v, area, offset, new_instance) {
                forward_spec(v, target)
            } else {
                fallback
            },
            None => fallback,
        }
    }
}

/// The steps of a pack's acts, one act after the other.
pub open spec fn pack_steps(acts: Seq<ActRouteView>) -> Seq<CompiledStepView>
    decreases acts.len(),
{
    if acts.len() == 0 {
        Seq::empty()
    } else {
        pack_steps(acts.drop_last()) + acts.last().steps
    }
}

/// A fresh engine over `steps`.
pub open spec fn fresh(steps: Seq<CompiledStepView>, areas: AreasView) -> RouteEngineView {
    RouteEngineView {
        steps,
        statuses: Seq::new(steps.len(), |i: int| StepStatus::Pending),
        areas,
        frontier: 0,
        focus: 0,
        focus_status: LocationStatus::OnTrack,
        off_route: None,
        visited: Seq::empty(),
        detoured: Seq::empty(),
    }
}

/// The engine's standing invariant: exactly the steps behind the frontier
/// are settled, `focus` is at or behind the frontier, and it is on track
/// exactly when it is at the frontier.
pub open spec fn route_inv(v: RouteEngineView) -> bool {
    &&& v.statuses.len() == v.steps.len()
    &&& 0 <= v.focus <= v.frontier <= v.steps.len()
    &&& forall|i: int| 0 <= i < v.steps.len() ==> (#[trigger] v.statuses[i] == StepStatus::Pending
        <==> i >= v.frontier)
    &&& (v.focus_status == LocationStatus::OnTrack <==> v.focus == v.frontier)
}

/// Number of group starts from `i` on before `frontier`.
pub open spec fn count_groups(steps: Seq<CompiledStepView>, i: int, frontier: int) -> nat
    decreases steps.len() - i,
{
    if i < 0 || i >= frontier || i >= steps.len() {
        0
    } else {
        proof {
            lemma_group_end(steps, i);
        }
        1 + count_groups(steps, group_end(steps, i), frontier)
    }
}

pub open spec fn groups_behind_spec(v: RouteEngineView) -> nat {
    if v.focus >= v.frontier || v.focus >= v.steps.len() {
        0
    } else {
        count_groups(v.steps, group_end(v.steps, v.focus), v.frontier)
    }
}

pub open spec fn next_transition_spec(v: RouteEngineView) -> Option<Seq<char>> {
    if v.focus < 0 || v.focus >= v.steps.len() {
        None
    } else {
        let n = group_end(v.steps, v.focus);
        if n < v.steps.len() {
            Some(ctx(v.steps, n))
        } else {
            None
        }
    }
}



// ---------------------------------------------------------------------
// Laws
// ---------------------------------------------------------------------

proof fn lemma_forward_inv(v: RouteEngineView, target: int)
    requires
        route_inv(v),
        v.frontier <= target < v.steps.len(),
    ensures
        route_inv(forward_spec(v, target).0),
        forward_spec(v, target).0.frontier >= v.frontier,
        forall|i: int| 0 <= i < v.frontier ==> forward_spec(v, target).0.statuses[i] == v.statuses[i],
{
    let len = v.steps.len() as int;
    let ae = group_end(v.steps, v.frontier);
    let st1 = mark(v.statuses, v.frontier, target, ae);
    lemma_group_end(v.steps, target);
    let w = forward_spec(v, target).0;
    assert forall|i: int| 0 <= i < len implies (#[trigger] w.statuses[i] == StepStatus::Pending <==> i
        >= w.frontier) by {
        if group_end(v.steps, target) == len {
            assert(w.statuses[i] == mark(st1, target, len, len)[i]);
        }
    }
}

/// Entering an area keeps the engine's invariant.
pub proof fn lemma_entered_inv(v: RouteEngineView, area: Seq<char>, new_instance: bool)
    requires
        route_inv(v),
    ensures
        route_inv(entered(v, area, new_instance).0),
{
    lemma_behind_scan(v.steps, 0, v.frontier, area, None);
    lemma_forward_match(v.steps, v.frontier, area, 0);
    match forward_match(v.steps, v.frontier, area, 0) {
        Some((o, t)) => {
            if v.frontier < v.steps.len() {
                lemma_forward_inv(v, t);
            }
        },
        None => {},
    }
}

/// Progress never goes back: the frontier only moves forward, and the
/// status of every step behind it stays as it was.
pub proof fn lemma_entered_progress_monotone(v: RouteEngineView, area: Seq<char>, new_instance: bool)
    requires
        route_inv(v),
    ensures
        entered(v, area, new_instance).0.frontier >= v.frontier,
        forall|i: int|
            0 <= i < v.frontier ==> #[trigger] entered(v, area, new_instance).0.statuses[i]
                == v.statuses[i],
        entered(v, area, new_instance).0.steps == v.steps,
        entered(v, area, new_instance).0.areas == v.areas,
{
    lemma_forward_match(v.steps, v.frontier, area, 0);
    match forward_match(v.steps, v.frontier, area, 0) {
        Some((o, t)) => {
            if v.frontier < v.steps.len() {
                lemma_forward_inv(v, t);
            }
        },
        None => {},
    }
}

/// Only an advance touches progress: every other outcome (staying put,
/// resuming, a detour, going off route, an ignored entry) leaves the
/// frontier and every step's status unchanged.
pub proof fn lemma_only_advance_moves_progress(v: RouteEngineView, area: Seq<char>, new_instance: bool)
    requires
        route_inv(v),
        !(entered(v, area, new_instance).1.kind is Advanced),
    ensures
        entered(v, area, new_instance).0.frontier == v.frontier,
        entered(v, area, new_instance).0.statuses == v.statuses,
{
}

/// A detour leaves the focus strictly behind the frontier, on a group of
/// the entered area.
pub proof fn lemma_detour_lands_behind(v: RouteEngineView, area: Seq<char>, new_instance: bool)
    requires
        route_inv(v),
        entered(v, area, new_instance).1.kind is Detour,
    ensures
        entered(v, area, new_instance).0.focus < v.frontier,
        focus_area_spec(entered(v, area, new_instance).0) == Some(area),
        entered(v, area, new_instance).0.focus_status != LocationStatus::OnTrack,
{
    lemma_behind_scan(v.steps, 0, v.frontier, area, None);
}

/// After an advance the focus is back on the frontier and on track.
pub proof fn lemma_advance_rejoins_focus(v: RouteEngineView, area: Seq<char>, new_instance: bool)
    requires
        route_inv(v),
        entered(v, area, new_instance).1.kind is Advanced,
    ensures
        entered(v, area, new_instance).0.focus == entered(v, area, new_instance).0.frontier,
        entered(v, area, new_instance).0.focus_status == LocationStatus::OnTrack,
        entered(v, area, new_instance).0.off_route is None,
{
}

proof fn lemma_marked_list(st: Seq<StepStatus>, lo: int, hi: int, ae: int, want: bool)
    requires
        0 <= lo,
        hi <= st.len() <= usize::MAX + 1,
    ensures
        forall|k: int|
            0 <= k < marked_list(st, lo, hi, ae, want).len() ==> {
                let x = #[trigger] marked_list(st, lo, hi, ae, want)[k] as int;
                lo <= x < hi && st[x] == StepStatus::Pending && ((x < ae) == want)
            },
        forall|i: int|
            lo <= i < hi && st[i] == StepStatus::Pending && ((i < ae) == want) ==> marked_list(
                st,
                lo,
                hi,
                ae,
                want,
            ).contains(i as usize),
    decreases hi - lo,
{
    if hi > lo {
        lemma_marked_list(st, lo, hi - 1, ae, want);
        let rest = marked_list(st, lo, hi - 1, ae, want);
        let r = marked_list(st, lo, hi, ae, want);
        if st[hi - 1] == StepStatus::Pending && ((hi - 1 < ae) == want) {
            assert(r == rest.push((hi - 1) as usize));
            assert forall|k: int| 0 <= k < r.len() implies {
                let x = #[trigger] r[k] as int;
                lo <= x < hi && st[x] == StepStatus::Pending && ((x < ae) == want)
            } by {
                if k < rest.len() {
                    assert(r[k] == rest[k]);
                }
            }
            assert forall|i: int|
                lo <= i < hi && st[i] == StepStatus::Pending && ((i < ae) == want) implies r.contains(
                i as usize,
            ) by {
                if i < hi - 1 {
                    let k = choose|k: int| 0 <= k < rest.len() && rest[k] == i as usize;
                    assert(r[k] == rest[k]);
                } else {
                    assert(r[rest.len() as int] == (hi - 1) as usize);
                }
            }
        } else {
            assert(r == rest);
        }
    }
}

proof fn lemma_contains_concat(a: Seq<usize>, b: Seq<usize>, x: usize)
    ensures
        (a + b).contains(x) <==> a.contains(x) || b.contains(x),
{
    if a.contains(x) {
        let k = choose|k: int| 0 <= k < a.len() && a[k] == x;
        assert((a + b)[k] == x);
    }
    if b.contains(x) {
        let k = choose|k: int| 0 <= k < b.len() && b[k] == x;
        assert((a + b)[a.len() + k] == x);
    }
    if (a + b).contains(x) {
        let k = choose|k: int| 0 <= k < (a + b).len() && (a + b)[k] == x;
        if k < a.len() {
            assert(a[k] == x);
        } else {
            assert(b[k - a.len()] == x);
        }
    }
}

/// What an entry reports as newly done or newly skipped is exactly the
/// steps whose status it changed from pending to done or to skipped, and
/// every one of them lies behind the new frontier.
pub proof fn lemma_newly_marked_are_the_changed_steps(v: RouteEngineView, area: Seq<char>, new_instance: bool)
    requires
        route_inv(v),
        v.steps.len() <= usize::MAX,
    ensures
        ({
            let (w, a) = entered(v, area, new_instance);
            &&& forall|i: int|
                0 <= i < v.steps.len() ==> (a.newly_done.contains(i as usize) <==> (v.statuses[i]
                    == StepStatus::Pending && w.statuses[i] == StepStatus::Done))
            &&& forall|i: int|
                0 <= i < v.steps.len() ==> (a.newly_skipped.contains(i as usize) <==> (v.statuses[i]
                    == StepStatus::Pending && w.statuses[i] == StepStatus::Skipped))
            &&& forall|k: int| 0 <= k < a.newly_done.len() ==> (#[trigger] a.newly_done[k]) < w.frontier
            &&& forall|k: int| 0 <= k < a.newly_skipped.len() ==> (#[trigger] a.newly_skipped[k]) < w.frontier
        }),
{
    let (w, a) = entered(v, area, new_instance);
    lemma_forward_match(v.steps, v.frontier, area, 0);
    if a.kind is Advanced {
        let (o, target) = forward_match(v.steps, v.frontier, area, 0)->0;
        let len = v.steps.len() as int;
        let f = v.frontier;
        let ae = group_end(v.steps, f);
        let st1 = mark(v.statuses, f, target, ae);
        lemma_marked_list(v.statuses, f, target, ae, true);
        lemma_marked_list(v.statuses, f, target, ae, false);
        lemma_marked_list(st1, target, len, len, true);
        let done1 = marked_list(v.statuses, f, target, ae, true);
        let m2 = marked_list(st1, target, len, len, true);
        let last = group_end(v.steps, target) == len;
        assert forall|i: int| 0 <= i < v.steps.len() implies (a.newly_done.contains(i as usize) <==> (
        v.statuses[i] == StepStatus::Pending && w.statuses[i] == StepStatus::Done)) by {
            if last {
                lemma_contains_concat(done1, m2, i as usize);
                assert(w.statuses[i] == mark(st1, target, len, len)[i]);
                if done1.contains(i as usize) {
                    let k = choose|k: int| 0 <= k < done1.len() && done1[k] == i as usize;
                    assert(done1[k] as int == i);
                }
                if m2.contains(i as usize) {
                    let k = choose|k: int| 0 <= k < m2.len() && m2[k] == i as usize;
                    assert(m2[k] as int == i);
                }
            } else {
                if done1.contains(i as usize) {
                    let k = choose|k: int| 0 <= k < done1.len() && done1[k] == i as usize;
                    assert(done1[k] as int == i);
                }
            }
        }
        let sk = marked_list(v.statuses, f, target, ae, false);
        assert forall|i: int| 0 <= i < v.steps.len() implies (a.newly_skipped.contains(i as usize) <==> (
        v.statuses[i] == StepStatus::Pending && w.statuses[i] == StepStatus::Skipped)) by {
            if last {
                assert(w.statuses[i] == mark(st1, target, len, len)[i]);
            }
            if sk.contains(i as usize) {
                let k = choose|k: int| 0 <= k < sk.len() && sk[k] == i as usize;
                assert(sk[k] as int == i);
            }
        }
        assert forall|k: int| 0 <= k < a.newly_done.len() implies (#[trigger] a.newly_done[k]) < w.frontier by {
            if last {
                if k < done1.len() {
                    assert(a.newly_done[k] == done1[k]);
                } else {
                    assert(a.newly_done[k] == m2[k - done1.len()]);
                }
            }
        }
    } else {
        lemma_only_advance_moves_progress(v, area, new_instance);
        lemma_behind_scan(v.steps, 0, v.frontier, area, None);
    }
}

/// Entering the same area twice in a row: the second entry changes
/// nothing (it is in place, or ignored), unless the first one completed
/// the route, or the first left the player off route short of a forward
/// group of that area which the second, as a brand-new instance, may now
/// reach.
pub proof fn lemma_repeat_entry_changes_nothing(
    v: RouteEngineView,
    area: Seq<char>,
    first_new: bool,
    second_new: bool,
)
    requires
        route_inv(v),
        !(entered(v, area, first_new).0.frontier >= v.steps.len() && v.frontier < v.steps.len()),
        !(second_new && entered(v, area, first_new).0.off_route == Some(area) && forward_match(
            v.steps,
            v.frontier,
            area,
            0,
        ) is Some),
    ensures
        entered(entered(v, area, first_new).0, area, second_new).0 == entered(v, area, first_new).0,
        entered(entered(v, area, first_new).0, area, second_new).1.kind is InPlace
            || entered(entered(v, area, first_new).0, area, second_new).1.kind is Ignored,
{
    let v1 = entered(v, area, first_new).0;
    lemma_behind_scan(v.steps, 0, v.frontier, area, None);
    lemma_forward_match(v.steps, v.frontier, area, 0);
    if focus_area_spec(v) == Some(area) {
        assert(focus_area_spec(v1) == Some(area));
        assert(v1.off_route is None);
    } else {
        match behind_match(v, area) {
            Some(t) => {
                if v.frontier >= v.steps.len() {
                    assert(v1 == detour_spec(v, area, t).0);
                    assert(focus_area_spec(v1) == Some(area));
                } else {
                    match forward_match(v.steps, v.frontier, area, 0) {
                        Some((o, ft)) => {
                            if forward_allowed(v, area, o, first_new) {
                                assert(v1.focus == ft);
                                assert(focus_area_spec(v1) == Some(area));
                            } else {
                                assert(v1 == detour_spec(v, area, t).0);
                                assert(focus_area_spec(v1) == Some(area));
                            }
                        },
                        None => {
                            assert(v1 == detour_spec(v, area, t).0);
                            assert(focus_area_spec(v1) == Some(area));
                        },
                    }
                }
            },
            None => {
                if v.frontier >= v.steps.len() {
                    assert(v1 == v);
                } else {
                    match forward_match(v.steps, v.frontier, area, 0) {
                        Some((o, ft)) => {
                            if forward_allowed(v, area, o, first_new) {
                                assert(v1.focus == ft);
                                assert(focus_area_spec(v1) == Some(area));
                            } else {
                                assert(v1.visited == v.visited);
                                assert(v1.frontier == v.frontier && v1.steps == v.steps && v1.focus == v.focus);
                                assert(behind_match(v1, area) is None);
                                assert(v1.off_route == Some(area));
                                assert(forward_match(v1.steps, v1.frontier, area, 0) == Some((o, ft)));
                                assert(!forward_allowed(v1, area, o, second_new));
                            }
                        },
                        None => {
                            assert(behind_match(v1, area) is None);
                            assert(v1.off_route == Some(area));
                        },
                    }
                }
            },
        }
    }
}

/// A fresh engine satisfies the invariant and stands at the start.
pub proof fn lemma_fresh_at_start(steps: Seq<CompiledStepView>, areas: AreasView)
    ensures
        route_inv(fresh(steps, areas)),
        fresh(steps, areas).frontier == 0,
        steps.len() > 0 ==> focus_area_spec(fresh(steps, areas)) == Some(ctx(steps, 0)),
{
}

// ---------------------------------------------------------------------
// Implementation
// ---------------------------------------------------------------------

fn names_contain(v: &Vec<String>, x: &str) -> (b: bool)
    ensures
        b == v.deep_view().contains(x@),
{
    let mut i: usize = 0;
    while i < v.len()
        invariant
            i <= v.len(),
            forall|j: int| 0 <= j < i ==> v.deep_view()[j] != x@,
        decreases v.len() - i,
    {
        if str_eq(v[i].as_str(), x) {
            assert(v.deep_view()[i as int] == x@);
            return true;
        }
        i += 1;
    }
    false
}

fn names_insert(v: &mut Vec<String>, x: &str)
    ensures
        final(v).deep_view() == set_insert(old(v).deep_view(), x@),
{
    if !names_contain(v, x) {
        let ghost before = v.deep_view();
        let s = owned(x);
        v.push(s);
        proof {
            assert(v.deep_view() =~= before.push(x@));
        }
    }
}

fn pending_vec(n: usize) -> (r: Vec<StepStatus>)
    ensures
        r@ == Seq::new(n as nat, |i: int| StepStatus::Pending),
{
    let mut r: Vec<StepStatus> = Vec::new();
    let mut i: usize = 0;
    while i < n
        invariant
            i <= n,
            r@ == Seq::new(i as nat, |k: int| StepStatus::Pending),
        decreases n - i,
    {
        r.push(StepStatus::Pending);
        i += 1;
        proof {
            assert(r@ =~= Seq::new(i as nat, |k: int| StepStatus::Pending));
        }
    }
    r
}

pub proof fn lemma_fresh_inv(steps: Seq<CompiledStepView>, areas: AreasView)
    ensures
        route_inv(fresh(steps, areas)),
{
}

impl RouteEngine {
    /// The engine's invariant.
    pub closed spec fn wf(&self) -> bool {
        route_inv(self@)
    }

    pub proof fn lemma_wf(&self)
        requires
            self.wf(),
        ensures
            route_inv(self@),
    {
    }

    /// An engine at the start of `steps`.
    pub fn new(steps: Vec<CompiledStep>, areas: AreaMap) -> (e: Self)
        ensures
            e@ == fresh(steps.deep_view(), areas@),
            e.wf(),
    {
        let statuses = pending_vec(steps.len());
        let e = RouteEngine {
            steps,
            statuses,
            areas,
            frontier: 0,
            focus: 0,
            focus_status: LocationStatus::OnTrack,
            off_route: None,
            visited_contexts: Vec::new(),
            detoured_contexts: Vec::new(),
        };
        proof {
            assert(e.visited_contexts.deep_view() =~= Seq::<Seq<char>>::empty());
            assert(e.detoured_contexts.deep_view() =~= Seq::<Seq<char>>::empty());
            assert(e@ =~= fresh(e@.steps, e@.areas));
        }
        e
    }

    /// An engine at the start of a pack's acts, in order.
    pub fn from_pack(pack: &ContentPack, areas: AreaMap) -> (e: Self)
        ensures
            e@ == fresh(pack_steps(pack.acts.deep_view()), areas@),
            e.wf(),
    {
        let ghost av = pack.acts.deep_view();
        let mut steps: Vec<CompiledStep> = Vec::new();
        let mut i: usize = 0;
        assert(steps.deep_view() =~= pack_steps(av.take(0)));
        while i < pack.acts.len()
            invariant
                i <= pack.acts.len(),
                av == pack.acts.deep_view(),
                steps.deep_view() == pack_steps(av.take(i as int)),
            decreases pack.acts.len() - i,
        {
            let act = &pack.acts[i];
            let ghost base = steps.deep_view();
            proof {
                assert(av[i as int] == act.deep_view());
                assert(av.take(i + 1).drop_last() =~= av.take(i as int));
            }
            let mut j: usize = 0;
            while j < act.steps.len()
                invariant
                    j <= act.steps.len(),
                    steps.deep_view() == base + act.steps.deep_view().take(j as int),
                decreases act.steps.len() - j,
            {
                let s = act.steps[j].dup();
                let ghost before = steps.deep_view();
                let ghost sv = s.deep_view();
                steps.push(s);
                proof {
                    assert(steps.deep_view() =~= before.push(sv));
                    assert(steps.deep_view() =~= base + act.steps.deep_view().take(j + 1));
                }
                j += 1;
            }
            proof {
                assert(act.steps.deep_view().take(act.steps.len() as int) =~= act.steps.deep_view());
            }
            i += 1;
        }
        assert(av.take(av.len() as int) =~= av);
        Self::new(steps, areas)
    }

    /// The furthest group reached (the frontier).
    pub fn cursor(&self) -> (r: usize)
        ensures
            r == self@.frontier,
    {
        self.frontier
    }

    pub fn steps(&self) -> (r: &[CompiledStep])
        ensures
            r.deep_view() == self@.steps,
    {
        self.steps.as_slice()
    }

    pub fn statuses(&self) -> (r: &[StepStatus])
        ensures
            r@ == self@.statuses,
    {
        self.statuses.as_slice()
    }

    /// Whether the frontier has reached the end of the route.
    pub fn is_complete(&self) -> (b: bool)
        ensures
            b == (self@.frontier >= self@.steps.len()),
    {
        self.frontier >= self.steps.len()
    }

    /// Back to the start of the route: every step pending, nothing visited
    /// or detoured, nothing off route; the route itself is kept.
    pub fn restart(&mut self)
        ensures
            final(self)@ == fresh(old(self)@.steps, old(self)@.areas),
            final(self).wf(),
    {
        self.statuses = pending_vec(self.steps.len());
        self.frontier = 0;
        self.focus = 0;
        self.focus_status = LocationStatus::OnTrack;
        self.off_route = None;
        self.visited_contexts = Vec::new();
        self.detoured_contexts = Vec::new();
        proof {
            assert(self.visited_contexts.deep_view() =~= Seq::<Seq<char>>::empty());
            assert(self.detoured_contexts.deep_view() =~= Seq::<Seq<char>>::empty());
            assert(self@ =~= fresh(old(self)@.steps, old(self)@.areas));
        }
    }

    fn ctx_eq(&self, i: usize, area_id: &str) -> (b: bool)
        requires
            i < self@.steps.len(),
        ensures
            b == (ctx(self@.steps, i as int) == area_id@),
    {
        str_eq(self.steps[i].area_context.as_str(), area_id)
    }

    fn ctx_eq_at(&self, i: usize, j: usize) -> (b: bool)
        requires
            i < self@.steps.len(),
            j < self@.steps.len(),
        ensures
            b == (ctx(self@.steps, i as int) == ctx(self@.steps, j as int)),
    {
        str_eq(self.steps[i].area_context.as_str(), self.steps[j].area_context.as_str())
    }

    /// One past the end of the group starting at `start`.
    fn group_end(&self, start: usize) -> (r: usize)
        requires
            start < self@.steps.len(),
        ensures
            r == group_end(self@.steps, start as int),
            start < r <= self@.steps.len(),
    {
        proof {
            lemma_group_end(self@.steps, start as int);
        }
        let n = self.steps.len();
        assert(n == self@.steps.len());
        let mut i = start + 1;
        while i < self.steps.len() && self.ctx_eq_at(i, start)
            invariant
                start < i <= self@.steps.len(),
                self@.steps.len() == self.steps.len(),
                group_end(self@.steps, start as int) == group_end_from(
                    self@.steps,
                    ctx(self@.steps, start as int),
                    i as int,
                ),
            decreases self.steps.len() - i,
        {
            i += 1;
        }
        i
    }

    /// The steps of the frontier's group (none once complete).
    pub fn active_steps(&self) -> (r: &[CompiledStep])
        requires
            self.wf(),
        ensures
            self@.frontier >= self@.steps.len() ==> r.deep_view().len() == 0,
            self@.frontier < self@.steps.len() ==> r.deep_view() == self@.steps.subrange(
                self@.frontier,
                group_end(self@.steps, self@.frontier),
            ),
    {
        if self.is_complete() {
            let e: &[CompiledStep] = &[];
            return e;
        }
        let end = self.group_end(self.frontier);
        let r = vstd::slice::slice_subrange(self.steps.as_slice(), self.frontier, end);
        proof {
            assert(r.deep_view() =~= self@.steps.subrange(self@.frontier, end as int));
        }
        r
    }

    /// The frontier's area context.
    pub fn active_area(&self) -> (r: Option<&str>)
        ensures
            r matches Some(a) ==> active_area_spec(self@) == Some(a@),
            r is None ==> active_area_spec(self@) is None,
    {
        if self.frontier < self.steps.len() {
            Some(self.steps[self.frontier].area_context.as_str())
        } else {
            None
        }
    }

    /// The area the player was last seen in while off route.
    pub fn off_route(&self) -> (r: Option<&str>)
        ensures
            r matches Some(a) ==> self@.off_route == Some(a@),
            r is None ==> self@.off_route is None,
    {
        match &self.off_route {
            Some(s) => Some(s.as_str()),
            None => None,
        }
    }

    /// The frontier's act.
    pub fn act(&self) -> (r: Option<u8>)
        ensures
            r == (if 0 <= self@.frontier < self@.steps.len() {
                Some(self@.steps[self@.frontier].act)
            } else {
                None
            }),
    {
        if self.frontier < self.steps.len() {
            Some(self.steps[self.frontier].act)
        } else {
            None
        }
    }

    /// The area context at `focus`: what the overlay shows.
    pub fn focus_area(&self) -> (r: Option<&str>)
        ensures
            r matches Some(a) ==> focus_area_spec(self@) == Some(a@),
            r is None ==> focus_area_spec(self@) is None,
    {
        if self.focus < self.steps.len() {
            Some(self.steps[self.focus].area_context.as_str())
        } else {
            None
        }
    }

    /// The steps of the focus group.
    pub fn focus_steps(&self) -> (r: &[CompiledStep])
        ensures
            self@.focus >= self@.steps.len() ==> r.deep_view().len() == 0,
            self@.focus < self@.steps.len() ==> r.deep_view() == self@.steps.subrange(
                self@.focus,
                group_end(self@.steps, self@.focus),
            ),
    {
        if self.focus >= self.steps.len() {
            let e: &[CompiledStep] = &[];
            return e;
        }
        let end = self.group_end(self.focus);
        let r = vstd::slice::slice_subrange(self.steps.as_slice(), self.focus, end);
        proof {
            assert(r.deep_view() =~= self@.steps.subrange(self@.focus, end as int));
        }
        r
    }

    /// The act at `focus`.
    pub fn focus_act(&self) -> (r: Option<u8>)
        ensures
            r == (if 0 <= self@.focus < self@.steps.len() {
                Some(self@.steps[self@.focus].act)
            } else {
                None
            }),
    {
        if self.focus < self.steps.len() {
            Some(self.steps[self.focus].act)
        } else {
            None
        }
    }

    pub fn location_status(&self) -> (r: LocationStatus)
        ensures
            r == self@.focus_status,
    {
        self.focus_status
    }

    /// Number of whole groups between the focus group and the frontier.
    pub fn groups_behind(&self) -> (r: usize)
        requires
            self.wf(),
        ensures
            r == groups_behind_spec(self@),
    {
        if self.focus >= self.frontier || self.focus >= self.steps.len() {
            return 0;
        }
        let mut count: usize = 0;
        let mut i = self.group_end(self.focus);
        while i < self.frontier
            invariant
                self.wf(),
                self@.frontier <= self@.steps.len(),
                i <= self@.steps.len(),
                count + count_groups(self@.steps, i as int, self@.frontier) == groups_behind_spec(self@),
                count <= i,
            decreases self.steps.len() - i,
        {
            proof {
                lemma_group_end(self@.steps, i as int);
            }
            count += 1;
            i = self.group_end(i);
        }
        count
    }

    /// The area context of the group after the focus group.
    pub fn next_transition_area(&self) -> (r: Option<&str>)
        ensures
            r matches Some(a) ==> next_transition_spec(self@) == Some(a@),
            r is None ==> next_transition_spec(self@) is None,
    {
        if self.focus >= self.steps.len() {
            return None;
        }
        let next = self.group_end(self.focus);
        if next < self.steps.len() {
            Some(self.steps[next].area_context.as_str())
        } else {
            None
        }
    }

    /// The last group start behind the frontier whose context is `area_id`.
    fn behind_group_start(&self, area_id: &str) -> (r: Option<usize>)
        requires
            self.wf(),
        ensures
            r matches Some(t) ==> behind_match(self@, area_id@) == Some(t as int),
            r is None ==> behind_match(self@, area_id@) is None,
    {
        let mut best: Option<usize> = None;
        let mut i: usize = 0;
        while i < self.frontier
            invariant
                self.wf(),
                self@.frontier <= self@.steps.len(),
                i <= self@.steps.len(),
                best matches Some(b) ==> b < self@.steps.len(),
                behind_match(self@, area_id@) == behind_scan(
                    self@.steps,
                    i as int,
                    self@.frontier,
                    area_id@,
                    match best {
                        Some(b) => Some(b as int),
                        None => None,
                    },
                ),
            decreases self.steps.len() - i,
        {
            if self.ctx_eq(i, area_id) {
                best = Some(i);
            }
            i = self.group_end(i);
        }
        best
    }

    /// The first group start from the frontier on whose context is
    /// `area_id`, with how many groups lie before it.
    fn forward_group_match(&self, area_id: &str) -> (r: Option<(usize, usize)>)
        requires
            self.wf(),
        ensures
            r matches Some((o, t)) ==> forward_match(self@.steps, self@.frontier, area_id@, 0)
                == Some((o as nat, t as int)),
            r is None ==> forward_match(self@.steps, self@.frontier, area_id@, 0) is None,
    {
        let mut i = self.frontier;
        let mut offset: usize = 0;
        while i < self.steps.len()
            invariant
                self.wf(),
                self@.frontier <= i <= self@.steps.len(),
                offset <= i - self@.frontier,
                forward_match(self@.steps, self@.frontier, area_id@, 0) == forward_match(
                    self@.steps,
                    i as int,
                    area_id@,
                    offset as nat,
                ),
            decreases self.steps.len() - i,
        {
            if self.ctx_eq(i, area_id) {
                return Some((offset, i));
            }
            proof {
                lemma_group_end(self@.steps, i as int);
            }
            i = self.group_end(i);
            offset += 1;
        }
        None
    }

    /// Advances the frontier to the group starting at `target`.
    fn apply_forward_advance(&mut self, target: usize) -> (r: Advance)
        requires
            old(self).wf(),
            old(self)@.frontier <= target < old(self)@.steps.len(),
        ensures
            final(self)@ == forward_spec(old(self)@, target as int).0,
            r.deep_view() == forward_spec(old(self)@, target as int).1,
    {
        let ghost v = self@;
        let mut newly_done: Vec<usize> = Vec::new();
        let mut newly_skipped: Vec<usize> = Vec::new();
        let active_end = self.group_end(self.frontier);
        let mut i = self.frontier;
        proof {
            assert(self.statuses@ =~= mark(v.statuses, v.frontier, i as int, active_end as int));
        }
        while i < target
            invariant
                v.frontier <= i <= target < v.steps.len(),
                self@.steps == v.steps,
                self@.areas == v.areas,
                self@.frontier == v.frontier,
                self@.focus == v.focus,
                self@.focus_status == v.focus_status,
                self@.off_route == v.off_route,
                self@.detoured == v.detoured,
                self.steps.len() == v.steps.len(),
                v.statuses.len() == v.steps.len(),
                active_end == group_end(v.steps, v.frontier),
                self@.statuses == mark(v.statuses, v.frontier, i as int, active_end as int),
                newly_done@ == marked_list(v.statuses, v.frontier, i as int, active_end as int, true),
                newly_skipped@ == marked_list(v.statuses, v.frontier, i as int, active_end as int, false),
                self@.visited == insert_ctxs(v.visited, v.steps, v.frontier, i as int),
            decreases target - i,
        {
            names_insert(&mut self.visited_contexts, self.steps[i].area_context.as_str());
            if self.statuses[i] == StepStatus::Pending {
                if i < active_end {
                    self.statuses.set(i, StepStatus::Done);
                    newly_done.push(i);
                } else {
                    self.statuses.set(i, StepStatus::Skipped);
                    newly_skipped.push(i);
                }
            }
            proof {
                assert(self@.statuses =~= mark(v.statuses, v.frontier, i + 1, active_end as int));
            }
            i += 1;
        }
        self.frontier = target;
        let ghost st1 = self@.statuses;
        let ghost done1 = newly_done@;
        let ghost vis1 = self@.visited;
        let len = self.steps.len();
        if self.group_end(target) == len {
            let mut k = target;
            proof {
                assert(self@.statuses =~= mark(st1, target as int, k as int, len as int));
                assert(newly_done@ =~= done1 + marked_list(st1, target as int, k as int, len as int, true));
            }
            while k < len
                invariant
                    target <= k <= len,
                    len == v.steps.len(),
                    self@.steps == v.steps,
                    self@.areas == v.areas,
                    self@.frontier == target,
                    self@.focus == v.focus,
                    self@.focus_status == v.focus_status,
                    self@.off_route == v.off_route,
                    self@.detoured == v.detoured,
                    self.steps.len() == v.steps.len(),
                    st1.len() == v.steps.len(),
                    self@.statuses == mark(st1, target as int, k as int, len as int),
                    newly_done@ == done1 + marked_list(st1, target as int, k as int, len as int, true),
                    newly_skipped@ == marked_list(v.statuses, v.frontier, target as int, active_end as int, false),
                    self@.visited == insert_ctxs(vis1, v.steps, target as int, k as int),
                decreases len - k,
            {
                names_insert(&mut self.visited_contexts, self.steps[k].area_context.as_str());
                if self.statuses[k] == StepStatus::Pending {
                    self.statuses.set(k, StepStatus::Done);
                    newly_done.push(k);
                }
                proof {
                    assert(self@.statuses =~= mark(st1, target as int, k + 1, len as int));
                    assert(newly_done@ =~= done1 + marked_list(st1, target as int, k + 1, len as int, true));
                }
                k += 1;
            }
            self.frontier = len;
        }
        self.focus = self.frontier;
        self.focus_status = LocationStatus::OnTrack;
        self.off_route = None;
        proof {
            assert(self@ =~= forward_spec(v, target as int).0);
        }
        Advance { kind: AdvanceKind::Advanced, newly_done, newly_skipped }
    }

    /// Moves `focus` back to the earlier group at `target`.
    fn apply_behind_detour(&mut self, area_id: &str, target: usize) -> (r: Advance)
        requires
            target < old(self)@.steps.len(),
            old(self).wf(),
        ensures
            final(self)@ == detour_spec(old(self)@, area_id@, target as int).0,
            r.deep_view() == detour_spec(old(self)@, area_id@, target as int).1,
    {
        let ghost v = self@;
        let catching_up = !names_contain(&self.detoured_contexts, area_id)
            && self.statuses[target] == StepStatus::Skipped;
        self.focus = target;
        self.focus_status = if catching_up {
            LocationStatus::CatchingUp
        } else {
            LocationStatus::Revisiting
        };
        self.off_route = None;
        names_insert(&mut self.detoured_contexts, area_id);
        names_insert(&mut self.visited_contexts, area_id);
        proof {
            assert(self@ =~= detour_spec(v, area_id@, target as int).0);
        }
        let r = Advance { kind: AdvanceKind::Detour { catching_up }, newly_done: Vec::new(), newly_skipped: Vec::new() };
        proof {
            assert(r.newly_done@ =~= Seq::<usize>::empty());
            assert(r.newly_skipped@ =~= Seq::<usize>::empty());
        }
        r
    }

    fn no_op_advance(kind: AdvanceKind) -> (r: Advance)
        ensures
            r.deep_view() == (AdvanceView {
                kind: kind.deep_view(),
                newly_done: Seq::empty(),
                newly_skipped: Seq::empty(),
            }),
    {
        let r = Advance { kind, newly_done: Vec::new(), newly_skipped: Vec::new() };
        proof {
            assert(r.newly_done@ =~= Seq::<usize>::empty());
            assert(r.newly_skipped@ =~= Seq::<usize>::empty());
        }
        r
    }

    /// The player entered `area_id` (`new_instance`: a freshly generated
    /// instance of it). Staying in the focus group changes nothing; a
    /// forward match within the lookahead, or further ahead for a
    /// never-visited non-town area or a new instance, advances the
    /// frontier; otherwise an earlier group becomes a detour; otherwise the
    /// player is off route.
    pub fn on_area_entered(&mut self, area_id: &str, new_instance: bool) -> (r: Advance)
        requires
            old(self).wf(),
        ensures
            final(self).wf(),
            final(self)@ == entered(old(self)@, area_id@, new_instance).0,
            r.deep_view() == entered(old(self)@, area_id@, new_instance).1,
    {
        let ghost v = self@;
        proof {
            lemma_entered_inv(v, area_id@, new_instance);
        }
        if self.focus < self.steps.len() && self.ctx_eq(self.focus, area_id) {
            if self.off_route.is_some() {
                self.off_route = None;
                proof {
                    assert(self@ =~= with_off_route(v, None));
                }
                return Self::no_op_advance(AdvanceKind::Resumed);
            }
            return Self::no_op_advance(AdvanceKind::InPlace);
        }
        let behind = self.behind_group_start(area_id);
        proof {
            lemma_behind_scan(v.steps, 0, v.frontier, area_id@, None);
        }
        if self.is_complete() {
            return match behind {
                Some(target) => self.apply_behind_detour(area_id, target),
                None => Self::no_op_advance(AdvanceKind::Ignored),
            };
        }
        let forward = self.forward_group_match(area_id);
        proof {
            lemma_forward_match(v.steps, v.frontier, area_id@, 0);
        }
        let is_town = self.is_town(area_id);
        let already_visited = names_contain(&self.visited_contexts, area_id);
        match forward {
            Some((offset, target)) => {
                if offset <= LOOKAHEAD_GROUPS || (!is_town && !already_visited) || new_instance {
                    return self.apply_forward_advance(target);
                }
            },
            None => {},
        }
        match behind {
            Some(target) => {
                return self.apply_behind_detour(area_id, target);
            },
            None => {},
        }
        let same = match &self.off_route {
            Some(o) => str_eq(o.as_str(), area_id),
            None => false,
        };
        if same {
            return Self::no_op_advance(AdvanceKind::Ignored);
        }
        self.off_route = Some(owned(area_id));
        proof {
            assert(self@ =~= with_off_route(v, Some(area_id@)));
        }
        Self::no_op_advance(AdvanceKind::OffRoute { area_id: owned(area_id) })
    }

    fn is_town(&self, area_id: &str) -> (b: bool)
        ensures
            b == is_town_in(self@.areas, area_id@),
    {
        is_town_area(&self.areas, area_id)
    }
}

} // verus!
