//! Deferred tasks: portals left open, trials passed by, and rewards or
//! recipes skipped on the way, collected as route steps are passed.

use vstd::prelude::*;

use crate::fragment::{Fragment, FragmentView};
use crate::route_engine::StepStatus;
use crate::text::{append_chars, append_str, chars_of, decimal, decimal_chars, string_of};
use crate::walk::{CompiledStep, CompiledStepView};

verus! {

#[derive(Debug, Clone, Copy, PartialEq, Eq, Structural)]
pub enum PendingKind {
    Portal,
    Trial,
    QuestReward,
    VendorReward,
    Crafting,
}

#[derive(Debug, Clone, PartialEq)]
pub struct PendingTask {
    pub id: String,
    pub kind: PendingKind,
    pub label: String,
    pub zone_area_id: String,
    pub step_id: String,
}

pub struct PendingTaskView {
    pub id: Seq<char>,
    pub kind: PendingKind,
    pub label: Seq<char>,
    pub zone_area_id: Seq<char>,
    pub step_id: Seq<char>,
}

impl DeepView for PendingTask {
    type V = PendingTaskView;

    open spec fn deep_view(&self) -> PendingTaskView {
        PendingTaskView {
            id: self.id@,
            kind: self.kind,
            label: self.label@,
            zone_area_id: self.zone_area_id@,
            step_id: self.step_id@,
        }
    }
}

pub struct TaskEngine {
    pending: Vec<PendingTask>,
}

impl View for TaskEngine {
    type V = Seq<PendingTaskView>;

    closed spec fn view(&self) -> Seq<PendingTaskView> {
        self.pending.deep_view()
    }
}

// ---------------------------------------------------------------------
// Specification
// ---------------------------------------------------------------------

pub open spec fn slug(k: PendingKind) -> Seq<char> {
    match k {
        PendingKind::Portal => "portal"@,
        PendingKind::Trial => "trial"@,
        PendingKind::QuestReward => "questreward"@,
        PendingKind::VendorReward => "vendorreward"@,
        PendingKind::Crafting => "crafting"@,
    }
}

/// The task a fragment creates when its step is passed with `status`.
pub open spec fn created_by(f: FragmentView, zone: Seq<char>, status: StepStatus) -> Option<
    (PendingKind, Seq<char>),
> {
    match f {
        FragmentView::PortalSet => Some((PendingKind::Portal, "Portal placed in "@ + zone)),
        FragmentView::Trial => Some((PendingKind::Trial, "Trial of Ascendancy in "@ + zone)),
        FragmentView::Crafting { .. } => if status == StepStatus::Skipped {
            Some((PendingKind::Crafting, "Crafting recipe in "@ + zone))
        } else {
            None
        },
        FragmentView::RewardQuest { item } => if status == StepStatus::Skipped {
            Some((PendingKind::QuestReward, "Claim quest reward: "@ + item))
        } else {
            None
        },
        FragmentView::RewardVendor { item, .. } => if status == StepStatus::Skipped {
            Some((PendingKind::VendorReward, "Buy from vendor: "@ + item))
        } else {
            None
        },
        _ => None,
    }
}

/// `pending` without its portal tasks.
pub open spec fn drop_portals(pending: Seq<PendingTaskView>) -> Seq<PendingTaskView>
    decreases pending.len(),
{
    if pending.len() == 0 {
        pending
    } else {
        let rest = drop_portals(pending.drop_last());
        if pending.last().kind == PendingKind::Portal {
            rest
        } else {
            rest.push(pending.last())
        }
    }
}

pub open spec fn sat_inc(n: u64) -> u64 {
    if n < u64::MAX {
        (n + 1) as u64
    } else {
        n
    }
}

pub open spec fn task_id(step_id: Seq<char>, k: PendingKind, ordinal: u64) -> Seq<char> {
    step_id + ":"@ + slug(k) + ":"@ + decimal(ordinal as nat)
}

/// One fragment of a passed step: a portal use closes every open portal;
/// a created task is appended, numbered by `ordinal`.
pub open spec fn task_step(
    pending: Seq<PendingTaskView>,
    ordinal: u64,
    f: FragmentView,
    step: CompiledStepView,
    status: StepStatus,
) -> (Seq<PendingTaskView>, u64) {
    let p1 = if f is PortalUse {
        drop_portals(pending)
    } else {
        pending
    };
    match created_by(f, step.area_context, status) {
        Some((k, label)) => (
            p1.push(
                PendingTaskView {
                    id: task_id(step.id, k, ordinal),
                    kind: k,
                    label,
                    zone_area_id: step.area_context,
                    step_id: step.id,
                },
            ),
            sat_inc(ordinal),
        ),
        None => (p1, ordinal),
    }
}

pub open spec fn tasks_over(
    pending: Seq<PendingTaskView>,
    ordinal: u64,
    frags: Seq<FragmentView>,
    step: CompiledStepView,
    status: StepStatus,
) -> (Seq<PendingTaskView>, u64)
    decreases frags.len(),
{
    if frags.len() == 0 {
        (pending, ordinal)
    } else {
        let (p, o) = tasks_over(pending, ordinal, frags.drop_last(), step, status);
        task_step(p, o, frags.last(), step, status)
    }
}

/// All fragments of a step, its own first, then each sub-step's.
pub open spec fn all_fragments(step: CompiledStepView) -> Seq<FragmentView> {
    step.fragments + crate::fragment::concat_frags(step.sub_steps)
}

pub open spec fn is_town_reminder(k: PendingKind) -> bool {
    k == PendingKind::QuestReward || k == PendingKind::VendorReward || k == PendingKind::Crafting
}

pub open spec fn reminders_of(pending: Seq<PendingTaskView>) -> Seq<PendingTaskView>
    decreases pending.len(),
{
    if pending.len() == 0 {
        pending
    } else {
        let rest = reminders_of(pending.drop_last());
        if is_town_reminder(pending.last().kind) {
            rest.push(pending.last())
        } else {
            rest
        }
    }
}

/// Closing portals closes exactly the portal tasks: none is left, and
/// every other task stays.
pub proof fn lemma_drop_portals(pending: Seq<PendingTaskView>)
    ensures
        forall|i: int| 0 <= i < drop_portals(pending).len() ==> (#[trigger] drop_portals(pending)[i]).kind != PendingKind::Portal,
        forall|t: PendingTaskView| pending.contains(t) && t.kind != PendingKind::Portal ==> #[trigger] drop_portals(pending).contains(t),
    decreases pending.len(),
{
    if pending.len() > 0 {
        let d = pending.drop_last();
        lemma_drop_portals(d);
        let r = drop_portals(pending);
        assert forall|t: PendingTaskView| pending.contains(t) && t.kind != PendingKind::Portal implies #[trigger] r.contains(t) by {
            let k = choose|k: int| 0 <= k < pending.len() && pending[k] == t;
            if k < d.len() {
                assert(d[k] == t);
                assert(d.contains(t));
                assert(drop_portals(d).contains(t));
                let m = choose|m: int| 0 <= m < drop_portals(d).len() && drop_portals(d)[m] == t;
                assert(r[m] == t);
            } else {
                assert(r[r.len() - 1] == t);
            }
        }
    }
}

/// Passing a step closes no task but portals: every pending task that is
/// not a portal is still pending afterwards.
pub proof fn lemma_only_portals_close(
    pending: Seq<PendingTaskView>,
    ordinal: u64,
    frags: Seq<FragmentView>,
    step: CompiledStepView,
    status: StepStatus,
)
    ensures
        forall|t: PendingTaskView|
            pending.contains(t) && t.kind != PendingKind::Portal ==> #[trigger] tasks_over(pending, ordinal, frags, step, status).0.contains(t),
    decreases frags.len(),
{
    if frags.len() > 0 {
        lemma_only_portals_close(pending, ordinal, frags.drop_last(), step, status);
        let (p, o) = tasks_over(pending, ordinal, frags.drop_last(), step, status);
        lemma_drop_portals(p);
        let r = tasks_over(pending, ordinal, frags, step, status).0;
        assert forall|t: PendingTaskView| pending.contains(t) && t.kind != PendingKind::Portal implies #[trigger] r.contains(t) by {
            assert(p.contains(t));
            let p1 = if frags.last() is PortalUse {
                drop_portals(p)
            } else {
                p
            };
            assert(p1.contains(t));
            let m = choose|m: int| 0 <= m < p1.len() && p1[m] == t;
            match created_by(frags.last(), step.area_context, status) {
                Some((k, label)) => {
                    let q = p1.push(
                        PendingTaskView {
                            id: task_id(step.id, k, o),
                            kind: k,
                            label,
                            zone_area_id: step.area_context,
                            step_id: step.id,
                        },
                    );
                    assert(q[m] == t);
                },
                None => {},
            }
        }
    }
}

// ---------------------------------------------------------------------
// Implementation
// ---------------------------------------------------------------------

fn slug_text(k: PendingKind) -> (s: &'static str)
    ensures
        s@ == slug(k),
{
    match k {
        PendingKind::Portal => "portal",
        PendingKind::Trial => "trial",
        PendingKind::QuestReward => "questreward",
        PendingKind::VendorReward => "vendorreward",
        PendingKind::Crafting => "crafting",
    }
}

fn labelled(prefix: &str, rest: &str) -> (s: String)
    ensures
        s@ == prefix@ + rest@,
{
    let mut v = chars_of(prefix);
    append_str(&mut v, rest);
    string_of(&v)
}

fn created(f: &Fragment, zone: &str, status: StepStatus) -> (r: Option<(PendingKind, String)>)
    ensures
        r matches Some((k, l)) ==> created_by(f.deep_view(), zone@, status) == Some((k, l@)),
        r is None ==> created_by(f.deep_view(), zone@, status) is None,
{
    match f {
        Fragment::PortalSet => Some((PendingKind::Portal, labelled("Portal placed in ", zone))),
        Fragment::Trial => Some((PendingKind::Trial, labelled("Trial of Ascendancy in ", zone))),
        Fragment::Crafting { .. } => if status == StepStatus::Skipped {
            Some((PendingKind::Crafting, labelled("Crafting recipe in ", zone)))
        } else {
            None
        },
        Fragment::RewardQuest { item } => if status == StepStatus::Skipped {
            Some((PendingKind::QuestReward, labelled("Claim quest reward: ", item.as_str())))
        } else {
            None
        },
        Fragment::RewardVendor { item, .. } => if status == StepStatus::Skipped {
            Some((PendingKind::VendorReward, labelled("Buy from vendor: ", item.as_str())))
        } else {
            None
        },
        _ => None,
    }
}

fn make_id(step_id: &str, k: PendingKind, ordinal: u64) -> (s: String)
    ensures
        s@ == task_id(step_id@, k, ordinal),
{
    let mut v = chars_of(step_id);
    append_str(&mut v, ":");
    append_str(&mut v, slug_text(k));
    append_str(&mut v, ":");
    let d = decimal_chars(ordinal);
    append_chars(&mut v, &d);
    string_of(&v)
}

impl TaskEngine {
    /// No pending tasks.
    pub fn new() -> (t: Self)
        ensures
            t@ == Seq::<PendingTaskView>::empty(),
    {
        let t = TaskEngine { pending: Vec::new() };
        assert(t@ =~= Seq::<PendingTaskView>::empty());
        t
    }

    pub fn pending(&self) -> (r: &[PendingTask])
        ensures
            r.deep_view() == self@,
    {
        self.pending.as_slice()
    }

    pub fn pending_count(&self) -> (n: usize)
        ensures
            n == self@.len(),
    {
        self.pending.len()
    }

    /// The tasks to remind of in town: unclaimed rewards and recipes.
    pub fn town_reminders(&self) -> (r: Vec<&PendingTask>)
        ensures
            r.deep_view() == reminders_of(self@),
    {
        let mut out: Vec<&PendingTask> = Vec::new();
        let mut i: usize = 0;
        while i < self.pending.len()
            invariant
                i <= self.pending.len(),
                out.deep_view() == reminders_of(self@.take(i as int)),
            decreases self.pending.len() - i,
        {
            proof {
                assert(self@.take(i + 1).drop_last() =~= self@.take(i as int));
            }
            let p = &self.pending[i];
            if p.kind == PendingKind::QuestReward || p.kind == PendingKind::VendorReward || p.kind
                == PendingKind::Crafting {
                let ghost before = out.deep_view();
                out.push(p);
                proof {
                    assert(out.deep_view() =~= before.push(p.deep_view()));
                }
            }
            i += 1;
        }
        assert(self@.take(self@.len() as int) =~= self@);
        out
    }

    fn drop_portal_tasks(&mut self)
        ensures
            final(self)@ == drop_portals(old(self)@),
    {
        let ghost old_v = self@;
        let mut kept: Vec<PendingTask> = Vec::new();
        let mut i: usize = 0;
        while i < self.pending.len()
            invariant
                i <= self.pending.len(),
                self@ == old_v,
                kept.deep_view() == drop_portals(old_v.take(i as int)),
            decreases self.pending.len() - i,
        {
            proof {
                assert(old_v.take(i + 1).drop_last() =~= old_v.take(i as int));
            }
            if self.pending[i].kind != PendingKind::Portal {
                let src = &self.pending[i];
                let t = PendingTask {
                    id: src.id.clone(),
                    kind: src.kind,
                    label: src.label.clone(),
                    zone_area_id: src.zone_area_id.clone(),
                    step_id: src.step_id.clone(),
                };
                let ghost before = kept.deep_view();
                kept.push(t);
                proof {
                    assert(kept.deep_view() =~= before.push(old_v[i as int]));
                }
            }
            i += 1;
        }
        assert(old_v.take(old_v.len() as int) =~= old_v);
        self.pending = kept;
    }

    fn pass_fragment(&mut self, f: &Fragment, step: &CompiledStep, status: StepStatus, ordinal: u64) -> (o: u64)
        ensures
            (final(self)@, o) == task_step(old(self)@, ordinal, f.deep_view(), step.deep_view(), status),
    {
        if let Fragment::PortalUse = f {
            self.drop_portal_tasks();
        }
        match created(f, step.area_context.as_str(), status) {
            Some((kind, label)) => {
                let task = PendingTask {
                    id: make_id(step.id.as_str(), kind, ordinal),
                    kind,
                    label,
                    zone_area_id: step.area_context.clone(),
                    step_id: step.id.clone(),
                };
                let ghost before = self@;
                let ghost tv = task.deep_view();
                self.pending.push(task);
                proof {
                    assert(self@ =~= before.push(tv));
                }
                if ordinal < u64::MAX {
                    ordinal + 1
                } else {
                    ordinal
                }
            },
            None => ordinal,
        }
    }

    /// A step was passed with `status`: its fragments, then its sub-steps'
    /// fragments, open or close tasks in order.
    pub fn on_step_passed(&mut self, step: &CompiledStep, status: StepStatus)
        ensures
            final(self)@ == tasks_over(old(self)@, 0, all_fragments(step.deep_view()), step.deep_view(), status).0,
    {
        let ghost sv = step.deep_view();
        let ghost all = all_fragments(sv);
        let ghost p0 = self@;
        let mut ordinal: u64 = 0;
        let mut i: usize = 0;
        while i < step.fragments.len()
            invariant
                i <= step.fragments.len(),
                sv == step.deep_view(),
                (self@, ordinal) == tasks_over(p0, 0, sv.fragments.take(i as int), sv, status),
            decreases step.fragments.len() - i,
        {
            proof {
                assert(sv.fragments.take(i + 1).drop_last() =~= sv.fragments.take(i as int));
            }
            ordinal = self.pass_fragment(&step.fragments[i], step, status, ordinal);
            i += 1;
        }
        assert(sv.fragments.take(sv.fragments.len() as int) =~= sv.fragments);
        let mut j: usize = 0;
        while j < step.sub_steps.len()
            invariant
                j <= step.sub_steps.len(),
                sv == step.deep_view(),
                (self@, ordinal) == tasks_over(
                    p0,
                    0,
                    sv.fragments + crate::fragment::concat_frags(sv.sub_steps.take(j as int)),
                    sv,
                    status,
                ),
            decreases step.sub_steps.len() - j,
        {
            let sub = &step.sub_steps[j];
            let ghost base = sv.fragments + crate::fragment::concat_frags(sv.sub_steps.take(j as int));
            proof {
                assert(sv.sub_steps.take(j + 1).drop_last() =~= sv.sub_steps.take(j as int));
                assert(sv.sub_steps[j as int] == sub.deep_view());
            }
            let mut k: usize = 0;
            assert(base + sub.deep_view().take(0) =~= base);
            while k < sub.len()
                invariant
                    k <= sub.len(),
                    sv == step.deep_view(),
                    (self@, ordinal) == tasks_over(p0, 0, base + sub.deep_view().take(k as int), sv, status),
                decreases sub.len() - k,
            {
                proof {
                    assert((base + sub.deep_view().take(k + 1)).drop_last() =~= base + sub.deep_view().take(
                        k as int,
                    ));
                    assert((base + sub.deep_view().take(k + 1)).last() == sub.deep_view()[k as int]);
                }
                ordinal = self.pass_fragment(&sub[k], step, status, ordinal);
                k += 1;
            }
            proof {
                assert(sub.deep_view().take(sub.len() as int) =~= sub.deep_view());
                assert(base + sub.deep_view() =~= sv.fragments + crate::fragment::concat_frags(
                    sv.sub_steps.take(j + 1),
                ));
            }
            j += 1;
        }
        assert(sv.sub_steps.take(sv.sub_steps.len() as int) =~= sv.sub_steps);
    }
}

} // verus!
