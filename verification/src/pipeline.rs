//! The live pipeline: log lines through session tracking into route
//! progress and pending tasks, and the overlay they compose into.

use vstd::prelude::*;

use crate::compile::{campaign_start_view, compile_acts, compile_route_pack, defines_of, CompileError, ContentPack, Variant};
use crate::composer::{compose, compose_spec, layouts_by_area, layouts_index, BuildContext, OverlayModel, OverlayModelView};
use crate::event::{line_event, parse_line};
use crate::fragment::split_chars;
use crate::game_data::{AreaMap, QuestMap};
use crate::layouts::{LayoutEntry, LayoutEntryView};
use crate::map::{lookup, StrMap};
use crate::pob::{LevelingBuildPlan, LevelingBuildPlanView};
use crate::route_engine::{entered, fresh, pack_steps, route_inv, RouteEngine, RouteEngineView};
use crate::session::{ids_are_keys, fresh_session, on_raw_spec, session_inv, SessionEvent, SessionEventView, SessionTracker, SessionView};
use crate::task_engine::{all_fragments, tasks_over, PendingTaskView, TaskEngine};
use crate::text::{append_chars, append_str, chars_of, decimal, decimal_chars, owned, string_of};
use crate::walk::AreasView;

verus! {

/// A layout image with its data URL (empty when it could not be loaded).
#[derive(Debug, Clone, PartialEq)]
pub struct UiImage {
    pub file: String,
    pub stale: bool,
    pub data_url: String,
}

/// What the overlay window shows.
#[derive(Debug, Clone, PartialEq)]
pub struct UiModel {
    pub overlay: OverlayModel,
    pub images: Vec<UiImage>,
    pub waiting_for_log: bool,
    pub build_summary: Option<String>,
}

/// Why a pipeline could not be built: game data or layouts that could not
/// be loaded (with the loader's message), or a route that does not compile.
#[derive(Debug)]
pub enum PipelineError {
    GameData(String),
    Compile(CompileError),
    Layouts(String),
}

pub struct Pipeline {
    tracker: SessionTracker,
    engine: RouteEngine,
    tasks: TaskEngine,
    layouts: StrMap<LayoutEntry>,
    areas: AreaMap,
    seen_area_event: bool,
    encoded: StrMap<String>,
    build: Option<LevelingBuildPlan>,
}

pub struct PipelineView {
    pub session: SessionView,
    pub engine: RouteEngineView,
    pub tasks: Seq<PendingTaskView>,
    pub layouts: Seq<(Seq<char>, LayoutEntryView)>,
    pub areas: AreasView,
    pub seen_area_event: bool,
    pub encoded: Seq<(Seq<char>, Seq<char>)>,
    pub build: Option<LevelingBuildPlanView>,
}

impl View for Pipeline {
    type V = PipelineView;

    closed spec fn view(&self) -> PipelineView {
        PipelineView {
            session: self.tracker@,
            engine: self.engine@,
            tasks: self.tasks@,
            layouts: self.layouts@,
            areas: self.areas@,
            seen_area_event: self.seen_area_event,
            encoded: self.encoded@,
            build: self.build.deep_view(),
        }
    }
}

// ---------------------------------------------------------------------
// Specification
// ---------------------------------------------------------------------

/// A pipeline that has read no line: the route `steps` all pending, no
/// tasks, the session waiting for its first zone, over `areas`, with the
/// given layouts, image cache and build.
pub open spec fn fresh_pipeline(
    steps: Seq<crate::walk::CompiledStepView>,
    engine_areas: AreasView,
    areas: AreasView,
    layouts: Seq<(Seq<char>, LayoutEntryView)>,
    encoded: Seq<(Seq<char>, Seq<char>)>,
    build: Option<LevelingBuildPlanView>,
) -> PipelineView {
    PipelineView {
        session: fresh_session(areas),
        engine: fresh(steps, engine_areas),
        tasks: Seq::empty(),
        layouts,
        areas,
        seen_area_event: false,
        encoded,
        build,
    }
}

/// Passing the steps at `idxs` of the engine `e` on to the tasks.
pub open spec fn pass_steps(tasks: Seq<PendingTaskView>, e: RouteEngineView, idxs: Seq<usize>) -> Seq<
    PendingTaskView,
>
    decreases idxs.len(),
{
    if idxs.len() == 0 {
        tasks
    } else {
        let t = pass_steps(tasks, e, idxs.drop_last());
        let i = idxs.last() as int;
        if i < e.steps.len() && i < e.statuses.len() {
            tasks_over(t, 0, all_fragments(e.steps[i]), e.steps[i], e.statuses[i]).0
        } else {
            t
        }
    }
}

/// Session events applied to route progress and tasks: each area entry
/// moves the engine, and the steps it settles are passed to the tasks.
pub open spec fn apply_events(
    e: RouteEngineView,
    tasks: Seq<PendingTaskView>,
    evs: Seq<SessionEventView>,
) -> (RouteEngineView, Seq<PendingTaskView>, bool)
    decreases evs.len(),
{
    if evs.len() == 0 {
        (e, tasks, false)
    } else {
        let (e1, t1, changed) = apply_events(e, tasks, evs.drop_last());
        match evs.last() {
            SessionEventView::AreaEntered { area_id, new_instance, .. } => {
                let (e2, adv) = entered(e1, area_id, new_instance);
                (e2, pass_steps(t1, e2, adv.newly_done + adv.newly_skipped), true)
            },
            _ => (e1, t1, changed),
        }
    }
}

/// The pipeline after one log line, and whether it entered an area.
pub open spec fn on_line_spec(p: PipelineView, line: Seq<char>) -> (PipelineView, bool) {
    let (s2, evs) = on_raw_spec(p.session, line_event(line));
    let (e2, t2, changed) = apply_events(p.engine, p.tasks, evs);
    (
        PipelineView {
            session: s2,
            engine: e2,
            tasks: t2,
            seen_area_event: p.seen_area_event || changed,
            ..p
        },
        changed,
    )
}

pub open spec fn overlay_spec(p: PipelineView) -> OverlayModelView {
    compose_spec(
        p.engine,
        p.tasks,
        p.layouts,
        p.areas,
        match p.build {
            Some(b) => Some((b, p.session.player_level)),
            None => None,
        },
    )
}

/// "Class (Ascendancy) — N milestones", or without the parenthesis when no
/// ascendancy is recorded.
pub open spec fn summary_spec(plan: LevelingBuildPlanView) -> Seq<char> {
    plan.class_name + match plan.ascend_name {
        Some(a) => " ("@ + a + ")"@,
        None => Seq::empty(),
    } + " — "@ + decimal(plan.milestones.len()) + " milestones"@
}

/// Whether a content-supplied file name is one plain path component: no
/// backslash, no root, not `.` or `..`, and nothing after it but empty or
/// `.` parts.
pub open spec fn safe_asset_name(file: Seq<char>) -> bool {
    let parts = crate::fragment::split_on(file, '/');
    &&& !file.contains('\\')
    &&& parts[0].len() > 0
    &&& parts[0] != "."@
    &&& parts[0] != ".."@
    &&& forall|i: int| 1 <= i < parts.len() ==> (#[trigger] parts[i]).len() == 0 || parts[i] == "."@
}

/// The character of a 6-bit value in the standard base64 alphabet
/// (`A`-`Z`, `a`-`z`, `0`-`9`, `+`, `/`).
pub open spec fn b64_char(v: int) -> char {
    if v < 26 {
        ((v + 65) as u8) as char
    } else if v < 52 {
        ((v - 26 + 97) as u8) as char
    } else if v < 62 {
        ((v - 52 + 48) as u8) as char
    } else if v == 62 {
        '+'
    } else {
        '/'
    }
}

/// Standard padded base64 (RFC 4648): every three bytes become four
/// characters of six bits each; a last one or two bytes become two or
/// three characters and `=` padding up to four.
pub open spec fn base64_standard_of(bytes: Seq<u8>) -> Seq<char>
    decreases bytes.len(),
{
    if bytes.len() == 0 {
        Seq::empty()
    } else if bytes.len() == 1 {
        let b0 = bytes[0] as int;
        seq![b64_char(b0 / 4), b64_char((b0 % 4) * 16), '=', '=']
    } else if bytes.len() == 2 {
        let b0 = bytes[0] as int;
        let b1 = bytes[1] as int;
        seq![b64_char(b0 / 4), b64_char((b0 % 4) * 16 + b1 / 16), b64_char((b1 % 16) * 4), '=']
    } else {
        let b0 = bytes[0] as int;
        let b1 = bytes[1] as int;
        let b2 = bytes[2] as int;
        seq![
            b64_char(b0 / 4),
            b64_char((b0 % 4) * 16 + b1 / 16),
            b64_char((b1 % 16) * 4 + b2 / 64),
            b64_char(b2 % 64),
        ] + base64_standard_of(bytes.skip(3))
    }
}

/// `bytes` in standard padded base64 (`base64::engine::general_purpose::
/// STANDARD.encode`), as RFC 4648 defines it.
#[verifier::external_body]
fn base64_standard(bytes: &[u8]) -> (s: String)
    ensures
        s@ == base64_standard_of(bytes@),
{
    base64::Engine::encode(&base64::engine::general_purpose::STANDARD, bytes)
}

pub open spec fn data_url_spec(file: Seq<char>, bytes: Option<Seq<u8>>) -> Seq<char> {
    if !safe_asset_name(file) {
        Seq::empty()
    } else {
        match bytes {
            Some(b) => "data:image/png;base64,"@ + base64_standard_of(b),
            None => Seq::empty(),
        }
    }
}

/// What a fetched-bytes list holds for each file: its first entry.
pub open spec fn fetched_view(f: Seq<(String, Option<Vec<u8>>)>) -> Seq<(Seq<char>, Option<Seq<u8>>)> {
    f.map_values(|e: (String, Option<Vec<u8>>)| (e.0@, match e.1 {
        Some(b) => Some(b@),
        None => None,
    }))
}

pub open spec fn fetched_bytes(fv: Seq<(Seq<char>, Option<Seq<u8>>)>, file: Seq<char>) -> Option<Seq<u8>> {
    match lookup(fv, file) {
        Some(Some(b)) => Some(b),
        _ => None,
    }
}

/// The cached URL of `file`, else the one built from `bytes`, which is
/// then cached.
pub open spec fn cached_url(enc: Seq<(Seq<char>, Seq<char>)>, file: Seq<char>, bytes: Option<Seq<u8>>) -> (Seq<char>, Seq<(Seq<char>, Seq<char>)>) {
    match lookup(enc, file) {
        Some(hit) => (hit, enc),
        None => {
            let u = data_url_spec(file, bytes);
            (u, crate::map::insert_entry(enc, file, u))
        },
    }
}

/// The URLs of overlay images in order, with the cache they leave.
pub open spec fn image_urls(
    enc: Seq<(Seq<char>, Seq<char>)>,
    imgs: Seq<(Seq<char>, bool)>,
    fv: Seq<(Seq<char>, Option<Seq<u8>>)>,
) -> (Seq<Seq<char>>, Seq<(Seq<char>, Seq<char>)>)
    decreases imgs.len(),
{
    if imgs.len() == 0 {
        (Seq::empty(), enc)
    } else {
        let (urls, e1) = image_urls(enc, imgs.drop_last(), fv);
        let (u, e2) = cached_url(e1, imgs.last().0, fetched_bytes(fv, imgs.last().0));
        (urls.push(u), e2)
    }
}

/// Memoized image URLs: once `file` has a URL, asking again yields the
/// same URL and leaves the cache as it is, whatever bytes come with the
/// second request.
pub proof fn lemma_cached_url_stable(
    enc: Seq<(Seq<char>, Seq<char>)>,
    file: Seq<char>,
    first: Option<Seq<u8>>,
    second: Option<Seq<u8>>,
)
    ensures
        ({
            let (u1, e1) = cached_url(enc, file, first);
            cached_url(e1, file, second) == (u1, e1)
        }),
{
    let (u1, e1) = cached_url(enc, file, first);
    if lookup(enc, file) is None {
        crate::map::lemma_lookup_insert_same(enc, file, u1);
    }
}

/// The pipeline after the lines `lines`, in order.
pub open spec fn run_lines(p: PipelineView, lines: Seq<Seq<char>>) -> PipelineView
    decreases lines.len(),
{
    if lines.len() == 0 {
        p
    } else {
        on_line_spec(run_lines(p, lines.drop_last()), lines.last()).0
    }
}

/// The lines a session journal keeps: those carrying a session event.
pub open spec fn significant_lines(lines: Seq<Seq<char>>) -> Seq<Seq<char>>
    decreases lines.len(),
{
    if lines.len() == 0 {
        lines
    } else if line_event(lines.last()) is Unknown {
        significant_lines(lines.drop_last())
    } else {
        significant_lines(lines.drop_last()).push(lines.last())
    }
}

/// A line without a session event changes nothing but marking the
/// session started, and enters no area.
pub proof fn lemma_insignificant_line_only_starts(p: PipelineView, line: Seq<char>)
    requires
        line_event(line) is Unknown,
    ensures
        on_line_spec(p, line).0 == (PipelineView { session: SessionView { started: true, ..p.session }, ..p }),
        !on_line_spec(p, line).1,
{
    let (s2, evs) = on_raw_spec(p.session, line_event(line));
    assert(s2 == SessionView { started: true, ..p.session });
    if !p.session.started {
        assert(evs.len() == 1);
        assert(evs.drop_last() =~= Seq::<SessionEventView>::empty());
        assert(apply_events(p.engine, p.tasks, evs.drop_last()) == (p.engine, p.tasks, false));
        assert(evs.last() is SessionStarted);
        assert(apply_events(p.engine, p.tasks, evs) == (p.engine, p.tasks, false));
    } else {
        assert(evs =~= Seq::<SessionEventView>::empty());
        assert(apply_events(p.engine, p.tasks, evs) == (p.engine, p.tasks, false));
    }
}

/// Replaying a journal restores the state the whole log led to: once a
/// session has started, the lines the journal leaves out change nothing.
pub proof fn lemma_journal_replay_restores(p: PipelineView, lines: Seq<Seq<char>>)
    requires
        p.session.started,
    ensures
        run_lines(p, significant_lines(lines)) == run_lines(p, lines),
        run_lines(p, lines).session.started,
    decreases lines.len(),
{
    if lines.len() > 0 {
        let d = lines.drop_last();
        lemma_journal_replay_restores(p, d);
        let q = run_lines(p, d);
        if line_event(lines.last()) is Unknown {
            lemma_insignificant_line_only_starts(q, lines.last());
            assert(q.session == SessionView { started: true, ..q.session });
        } else {
            let sl = significant_lines(d).push(lines.last());
            assert(sl.drop_last() =~= significant_lines(d));
        }
    }
}

proof fn lemma_image_pairs_index(is: Seq<crate::composer::ImageView>, i: int)
    requires
        0 <= i < is.len(),
    ensures
        crate::composer::image_pairs(is).len() == is.len(),
        crate::composer::image_pairs(is)[i] == (is[i].file@, is[i].stale),
    decreases is.len(),
{
    if i < is.len() - 1 {
        lemma_image_pairs_index(is.drop_last(), i);
    } else {
        lemma_image_pairs_len(is.drop_last());
    }
}

proof fn lemma_image_urls_len(
    enc: Seq<(Seq<char>, Seq<char>)>,
    imgs: Seq<(Seq<char>, bool)>,
    fv: Seq<(Seq<char>, Option<Seq<u8>>)>,
)
    ensures
        image_urls(enc, imgs, fv).0.len() == imgs.len(),
    decreases imgs.len(),
{
    if imgs.len() > 0 {
        lemma_image_urls_len(enc, imgs.drop_last(), fv);
    }
}

proof fn lemma_image_pairs_len(is: Seq<crate::composer::ImageView>)
    ensures
        crate::composer::image_pairs(is).len() == is.len(),
    decreases is.len(),
{
    if is.len() > 0 {
        lemma_image_pairs_len(is.drop_last());
    }
}

/// The bytes `fetched` holds for `file`: those of its first entry.
fn fetched_for<'a>(fetched: &'a Vec<(String, Option<Vec<u8>>)>, file: &str) -> (r: Option<&'a Vec<u8>>)
    ensures
        (match r {
            Some(b) => fetched_bytes(fetched_view(fetched@), file@) == Some(b@),
            None => fetched_bytes(fetched_view(fetched@), file@) is None,
        }),
{
    let ghost fv = fetched_view(fetched@);
    let ghost r0 = crate::map::lemma_index_of_key(fv, file@);
    assert(fv.len() == fetched@.len());
    let mut k: usize = 0;
    while k < fetched.len()
        invariant
            k <= fetched.len(),
            fv == fetched_view(fetched@),
            fv.len() == fetched@.len(),
            r0 == crate::map::index_of_key(fv, file@),
            r0 matches Some(i) ==> k <= i && i < fv.len() && fv[i].0 == file@,
            forall|j: int| 0 <= j < k ==> fv[j].0 != file@,
        decreases fetched.len() - k,
    {
        proof {
            assert(fv[k as int] == (fetched@[k as int].0@, match fetched@[k as int].1 {
                Some(b) => Some(b@),
                None => None,
            }));
        }
        if crate::text::str_eq(fetched[k].0.as_str(), file) {
            proof {
                let r1 = crate::map::lemma_index_of_key(fv, file@);
            }
            return match &fetched[k].1 {
                Some(b) => Some(b),
                None => None,
            };
        }
        k += 1;
    }
    None
}

pub open spec fn pipeline_inv(p: PipelineView) -> bool {
    &&& route_inv(p.engine)
    &&& session_inv(p.session)
}

// ---------------------------------------------------------------------
// Implementation
// ---------------------------------------------------------------------

/// Whether `file` names one plain file inside the assets directory.
pub fn is_safe_asset_name(file: &str) -> (b: bool)
    ensures
        b == safe_asset_name(file@),
{
    let v = chars_of(file);
    let mut i: usize = 0;
    while i < v.len()
        invariant
            i <= v.len(),
            v@ == file@,
            forall|k: int| 0 <= k < i ==> v@[k] != '\\',
        decreases v.len() - i,
    {
        if v[i] == '\\' {
            assert(file@.contains('\\')) by {
                assert(file@[i as int] == '\\');
            }
            return false;
        }
        i += 1;
    }
    assert(!file@.contains('\\'));
    let parts = split_chars(&v, '/');
    proof {
        crate::fragment::lemma_parts_view(&parts);
    }
    let first = &parts[0];
    let dot = chars_of(".");
    let dotdot = chars_of("..");
    if first.len() == 0 || crate::map::vec_eq(first, &dot) || crate::map::vec_eq(first, &dotdot) {
        return false;
    }
    let mut j: usize = 1;
    while j < parts.len()
        invariant
            1 <= j <= parts.len(),
            dot@ == "."@,
            v@ == file@,
            parts.deep_view() == crate::fragment::split_on(v@, '/'),
            !file@.contains('\\'),
            parts@[0]@.len() > 0,
            parts@[0]@ != "."@,
            parts@[0]@ != ".."@,
            forall|k: int| 0 <= k < parts.len() ==> #[trigger] parts.deep_view()[k] == parts@[k]@,
            forall|k: int| 1 <= k < j ==> (#[trigger] parts.deep_view()[k]).len() == 0 || parts.deep_view()[k] == "."@,
        decreases parts.len() - j,
    {
        if !(parts[j].len() == 0 || crate::map::vec_eq(&parts[j], &dot)) {
            assert(!((parts.deep_view()[j as int]).len() == 0 || parts.deep_view()[j as int] == "."@));
            return false;
        }
        j += 1;
    }
    true
}

/// The one-line summary of a build plan.
pub fn build_summary(plan: &LevelingBuildPlan) -> (s: String)
    ensures
        s@ == summary_spec(plan.deep_view()),
{
    let mut v = chars_of(plan.class_name.as_str());
    let ghost head = v@;
    match &plan.ascend_name {
        Some(a) => {
            append_str(&mut v, " (");
            append_str(&mut v, a.as_str());
            append_str(&mut v, ")");
            assert(v@ =~= head + (" ("@ + a@ + ")"@));
        },
        None => {
            assert(v@ =~= head + Seq::<char>::empty());
        },
    }
    append_str(&mut v, " — ");
    let n = decimal_chars(plan.milestones.len() as u64);
    append_chars(&mut v, &n);
    append_str(&mut v, " milestones");
    string_of(&v)
}

impl Pipeline {
    pub closed spec fn wf(&self) -> bool {
        &&& self.engine.wf()
        &&& self.tracker.wf()
        &&& ids_are_keys(self.areas@)
    }

    /// A pipeline over a compiled route, its areas (every area's id one of
    /// the table's keys), the layout content, and an optional build plan.
    pub fn from_pack(areas: AreaMap, pack: &ContentPack, layouts: Vec<LayoutEntry>, build: Option<LevelingBuildPlan>) -> (p: Self)
        requires
            ids_are_keys(areas@),
        ensures
            p.wf(),
            p@ == fresh_pipeline(
                pack_steps(pack.acts.deep_view()),
                areas@,
                areas@,
                layouts_index(layouts.deep_view()),
                Seq::empty(),
                build.deep_view(),
            ),
    {
        let engine = RouteEngine::from_pack(pack, crate::map::Dup::dup(&areas));
        let tracker = SessionTracker::new(crate::map::Dup::dup(&areas));
        Pipeline {
            tracker,
            engine,
            tasks: TaskEngine::new(),
            layouts: layouts_by_area(layouts),
            areas,
            seen_area_event: false,
            encoded: StrMap::new(),
            build,
        }
    }

    /// A pipeline over the route pack compiled for `variant` from the
    /// texts of acts 1 to 10; a route that does not compile is refused.
    pub fn new(
        variant: Variant,
        act_sources: &Vec<String>,
        areas: AreaMap,
        quests: &QuestMap,
        layouts: Vec<LayoutEntry>,
        build: Option<LevelingBuildPlan>,
    ) -> (r: Result<Self, PipelineError>)
        requires
            act_sources.len() == 10,
            ids_are_keys(areas@),
        ensures
            (match compile_acts(defines_of(variant), act_sources.deep_view(), 10, campaign_start_view(), areas@, quests@) {
                Ok((acts, _)) => r matches Ok(p) && p.wf() && p@ == fresh_pipeline(
                    pack_steps(acts),
                    areas@,
                    areas@,
                    layouts_index(layouts.deep_view()),
                    Seq::empty(),
                    build.deep_view(),
                ),
                Err(e) => r matches Err(PipelineError::Compile(x)) && x.deep_view() == e,
            }),
    {
        match compile_route_pack(variant, act_sources, &areas, quests) {
            Ok(pack) => Ok(Pipeline::from_pack(areas, &pack, layouts, build)),
            Err(e) => Err(PipelineError::Compile(e)),
        }
    }

    /// Back to a fresh run: the route restarts, tasks and session state
    /// are dropped, the overlay waits for the first zone again; the route,
    /// layouts, build and image cache are kept.
    pub fn reset(&mut self)
        requires
            old(self).wf(),
        ensures
            final(self).wf(),
            final(self)@ == fresh_pipeline(
                old(self)@.engine.steps,
                old(self)@.engine.areas,
                old(self)@.areas,
                old(self)@.layouts,
                old(self)@.encoded,
                old(self)@.build,
            ),
    {
        self.engine.restart();
        self.tasks = TaskEngine::new();
        self.tracker = SessionTracker::new(crate::map::Dup::dup(&self.areas));
        self.seen_area_event = false;
    }

    fn pass_indices(&mut self, idxs: &Vec<usize>)
        ensures
            final(self)@ == (PipelineView { tasks: pass_steps(old(self)@.tasks, old(self)@.engine, idxs@), ..old(self)@ }),
            final(self).wf() == old(self).wf(),
    {
        let ghost t0 = self@.tasks;
        let mut k: usize = 0;
        while k < idxs.len()
            invariant
                k <= idxs.len(),
                self@ == (PipelineView { tasks: pass_steps(t0, old(self)@.engine, idxs@.take(k as int)), ..old(self)@ }),
                self.wf() == old(self).wf(),
                t0 == old(self)@.tasks,
            decreases idxs.len() - k,
        {
            proof {
                assert(idxs@.take(k + 1).drop_last() =~= idxs@.take(k as int));
            }
            let i = idxs[k];
            let steps = self.engine.steps();
            let statuses = self.engine.statuses();
            if i < steps.len() && i < statuses.len() {
                let status = statuses[i];
                proof {
                    assert(self@.engine.steps[i as int] == steps@[i as int].deep_view());
                }
                self.tasks.on_step_passed(&steps[i], status);
            }
            k += 1;
        }
        assert(idxs@.take(idxs@.len() as int) =~= idxs@);
    }

    /// Feeds one log line; returns the overlay when it entered an area.
    pub fn on_line(&mut self, line: &str) -> (r: Option<OverlayModel>)
        requires
            old(self).wf(),
        ensures
            final(self).wf(),
            final(self)@ == on_line_spec(old(self)@, line@).0,
            r is Some <==> on_line_spec(old(self)@, line@).1,
            r matches Some(m) ==> m.deep_view() == overlay_spec(final(self)@),
    {
        let ghost p0 = self@;
        let raw = parse_line(line);
        let evs = self.tracker.on_raw(&raw);
        let ghost ev = evs.deep_view();
        let ghost e0 = self@.engine;
        let ghost t0 = self@.tasks;
        let mut changed = false;
        let mut k: usize = 0;
        while k < evs.len()
            invariant
                k <= evs.len(),
                ev == evs.deep_view(),
                self.wf(),
                (self@.engine, self@.tasks, changed) == apply_events(e0, t0, ev.take(k as int)),
                self@.seen_area_event == (p0.seen_area_event || changed),
                self@.session == on_raw_spec(p0.session, line_event(line@)).0,
                self@.layouts == p0.layouts,
                self@.areas == p0.areas,
                self@.encoded == p0.encoded,
                self@.build == p0.build,
            decreases evs.len() - k,
        {
            proof {
                assert(ev.take(k + 1).drop_last() =~= ev.take(k as int));
                assert(ev[k as int] == evs@[k as int].deep_view());
            }
            match &evs[k] {
                SessionEvent::AreaEntered { area_id, new_instance, .. } => {
                    let advance = self.engine.on_area_entered(area_id.as_str(), *new_instance);
                    let mut idxs: Vec<usize> = Vec::new();
                    let mut a: usize = 0;
                    while a < advance.newly_done.len()
                        invariant
                            a <= advance.newly_done.len(),
                            idxs@ == advance.newly_done@.take(a as int),
                        decreases advance.newly_done.len() - a,
                    {
                        idxs.push(advance.newly_done[a]);
                        a += 1;
                        assert(idxs@ =~= advance.newly_done@.take(a as int));
                    }
                    let mut b: usize = 0;
                    assert(advance.newly_done@.take(advance.newly_done@.len() as int) =~= advance.newly_done@);
                    while b < advance.newly_skipped.len()
                        invariant
                            b <= advance.newly_skipped.len(),
                            idxs@ == advance.newly_done@ + advance.newly_skipped@.take(b as int),
                        decreases advance.newly_skipped.len() - b,
                    {
                        idxs.push(advance.newly_skipped[b]);
                        b += 1;
                        assert(idxs@ =~= advance.newly_done@ + advance.newly_skipped@.take(b as int));
                    }
                    assert(advance.newly_skipped@.take(advance.newly_skipped@.len() as int) =~= advance.newly_skipped@);
                    self.pass_indices(&idxs);
                    changed = true;
                    self.seen_area_event = true;
                },
                _ => {},
            }
            k += 1;
        }
        assert(ev.take(ev.len() as int) =~= ev);
        proof {
            assert(self@ =~= on_line_spec(p0, line@).0);
        }
        if changed {
            Some(self.current_overlay())
        } else {
            None
        }
    }

    /// The overlay for the current state.
    pub fn current_overlay(&self) -> (m: OverlayModel)
        requires
            self.wf(),
        ensures
            m.deep_view() == overlay_spec(self@),
    {
        let ctx = match &self.build {
            Some(plan) => Some(BuildContext { plan, player_level: self.tracker.player_level() }),
            None => None,
        };
        compose(&self.engine, &self.tasks, &self.layouts, &self.areas, ctx)
    }

    /// Whether no area has been entered yet.
    pub fn waiting_for_log(&self) -> (b: bool)
        ensures
            b == !self@.seen_area_event,
    {
        !self.seen_area_event
    }

    /// The summary of the imported build, if any.
    pub fn build_summary(&self) -> (s: Option<String>)
        ensures
            s matches Some(t) ==> self@.build matches Some(b) && t@ == summary_spec(b),
            s is None ==> self@.build is None,
    {
        match &self.build {
            Some(plan) => Some(build_summary(plan)),
            None => None,
        }
    }

    /// Whether the image `file` must still be read (not cached, and a safe
    /// name).
    pub fn needs_image(&self, file: &str) -> (b: bool)
        ensures
            b == (lookup(self@.encoded, file@) is None && safe_asset_name(file@)),
    {
        !self.encoded.contains_key(file) && is_safe_asset_name(file)
    }

    /// The data URL of image `file`: the cached one, else built from the
    /// `bytes` read (empty for an unsafe name or a failed read) and cached.
    pub fn data_url_for(&mut self, file: &str, bytes: Option<Vec<u8>>) -> (url: String)
        ensures
            lookup(old(self)@.encoded, file@) matches Some(hit) ==> url@ == hit && final(self)@ == old(self)@,
            lookup(old(self)@.encoded, file@) is None ==> url@ == data_url_spec(
                file@,
                match bytes {
                    Some(b) => Some(b@),
                    None => None,
                },
            ) && final(self)@ == (PipelineView {
                encoded: crate::map::insert_entry(old(self)@.encoded, file@, url@),
                ..old(self)@
            }),
            final(self).wf() == old(self).wf(),
    {
        let b = match &bytes {
            Some(b) => Some(b),
            None => None,
        };
        self.url_for(file, b)
    }

    fn url_for(&mut self, file: &str, bytes: Option<&Vec<u8>>) -> (url: String)
        ensures
            url@ == cached_url(old(self)@.encoded, file@, match bytes {
                Some(b) => Some(b@),
                None => None,
            }).0,
            final(self)@ == (PipelineView {
                encoded: cached_url(old(self)@.encoded, file@, match bytes {
                    Some(b) => Some(b@),
                    None => None,
                }).1,
                ..old(self)@
            }),
            final(self).wf() == old(self).wf(),
    {
        match self.encoded.get(file) {
            Some(hit) => {
                return hit.clone();
            },
            None => {},
        }
        let url = if !is_safe_asset_name(file) {
            string_of(&Vec::new())
        } else {
            match bytes {
                Some(b) => {
                    let enc = base64_standard(b.as_slice());
                    let mut v = chars_of("data:image/png;base64,");
                    append_str(&mut v, enc.as_str());
                    string_of(&v)
                },
                None => string_of(&Vec::new()),
            }
        };
        self.encoded.insert(owned(file), url.clone());
        url
    }

    /// The overlay with its images as data URLs, and the waiting flag and
    /// build summary. Image bytes come from `fetched` (read for the files
    /// `needs_image` asked for: `None` where the read failed); a file with
    /// no entry there counts as a failed read.
    pub fn current_model(&mut self, fetched: &Vec<(String, Option<Vec<u8>>)>) -> (m: UiModel)
        requires
            old(self).wf(),
        ensures
            final(self).wf(),
            m.overlay.deep_view() == overlay_spec(old(self)@),
            m.waiting_for_log == !old(self)@.seen_area_event,
            m.build_summary matches Some(t) ==> old(self)@.build matches Some(b) && t@ == summary_spec(b),
            m.build_summary is None ==> old(self)@.build is None,
            ({
                let (urls, enc) = image_urls(old(self)@.encoded, overlay_spec(old(self)@).layout_images, fetched_view(fetched@));
                &&& m.images@.len() == urls.len()
                &&& forall|i: int| 0 <= i < urls.len() ==> {
                    &&& (#[trigger] m.images@[i]).file@ == overlay_spec(old(self)@).layout_images[i].0
                    &&& m.images@[i].stale == overlay_spec(old(self)@).layout_images[i].1
                    &&& m.images@[i].data_url@ == urls[i]
                }
                &&& final(self)@ == (PipelineView { encoded: enc, ..old(self)@ })
            }),
    {
        let overlay = self.current_overlay();
        let ghost imgs = overlay.deep_view().layout_images;
        let ghost fv = fetched_view(fetched@);
        let ghost s0 = self@;
        let mut images: Vec<UiImage> = Vec::new();
        let mut i: usize = 0;
        proof {
            lemma_image_pairs_len(overlay.layout_images@);
        }
        while i < overlay.layout_images.len()
            invariant
                i <= overlay.layout_images.len(),
                imgs.len() == overlay.layout_images.len(),
                imgs == overlay.deep_view().layout_images,
                imgs == crate::composer::image_pairs(overlay.layout_images@),
                fv == fetched_view(fetched@),
                self.wf(),
                ({
                    let (urls, enc) = image_urls(s0.encoded, imgs.take(i as int), fv);
                    &&& images@.len() == i
                    &&& forall|k: int| 0 <= k < i ==> {
                        &&& (#[trigger] images@[k]).file@ == imgs[k].0
                        &&& images@[k].stale == imgs[k].1
                        &&& images@[k].data_url@ == urls[k]
                    }
                    &&& self@ == (PipelineView { encoded: enc, ..s0 })
                }),
            decreases overlay.layout_images.len() - i,
        {
            let img = &overlay.layout_images[i];
            proof {
                lemma_image_pairs_index(overlay.layout_images@, i as int);
                assert(imgs.take(i + 1).drop_last() =~= imgs.take(i as int));
            }
            let found = fetched_for(fetched, img.file.as_str());
            let url = self.url_for(img.file.as_str(), found);
            proof {
                let t1 = imgs.take(i + 1);
                assert(t1.drop_last() =~= imgs.take(i as int));
                assert(t1.last() == imgs[i as int]);
                lemma_image_urls_len(s0.encoded, imgs.take(i as int), fv);
                let (u0, e0) = image_urls(s0.encoded, imgs.take(i as int), fv);
                assert(image_urls(s0.encoded, t1, fv).0 == u0.push(url@));
                assert(image_urls(s0.encoded, t1, fv).1 == self@.encoded);
            }
            let ghost before = images@;
            let ui = UiImage { file: img.file.clone(), stale: img.stale, data_url: url };
            images.push(ui);
            proof {
                assert(images@ == before.push(ui));
            }
            i += 1;
        }
        proof {
            assert(imgs.take(imgs.len() as int) =~= imgs);
            lemma_image_urls_len(s0.encoded, imgs, fv);
        }
        let waiting = !self.seen_area_event;
        let summary = self.build_summary();
        UiModel { overlay, images, waiting_for_log: waiting, build_summary: summary }
    }
}

} // verus!
