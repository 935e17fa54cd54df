//! Session tracking: pairs raw log events into area transitions, resolving
//! display names to area ids with the game's area table.

use vstd::prelude::*;

use crate::event::{RawEvent, RawEventView};
use crate::game_data::{AreaMap, AreaView};
use crate::map::{insert_entry, lookup, StrMap};
use crate::text::str_eq;
use crate::walk::AreasView;

verus! {

#[derive(Debug, Clone, PartialEq)]
pub enum SessionEvent {
    SessionStarted { at: String },
    AreaEntered {
        area_id: String,
        display_name: String,
        act: u8,
        area_level: u8,
        is_town: bool,
        new_instance: bool,
        at: String,
    },
    LevelUp { character: String, class: String, level: u16, at: String },
    Slain { character: String, at: String },
    UnresolvedArea { display_name: String, at: String },
}

pub enum SessionEventView {
    SessionStarted { at: Seq<char> },
    AreaEntered {
        area_id: Seq<char>,
        display_name: Seq<char>,
        act: u8,
        area_level: u8,
        is_town: bool,
        new_instance: bool,
        at: Seq<char>,
    },
    LevelUp { character: Seq<char>, class: Seq<char>, level: u16, at: Seq<char> },
    Slain { character: Seq<char>, at: Seq<char> },
    UnresolvedArea { display_name: Seq<char>, at: Seq<char> },
}

impl DeepView for SessionEvent {
    type V = SessionEventView;

    open spec fn deep_view(&self) -> SessionEventView {
        match self {
            SessionEvent::SessionStarted { at } => SessionEventView::SessionStarted { at: at@ },
            SessionEvent::AreaEntered {
                area_id,
                display_name,
                act,
                area_level,
                is_town,
                new_instance,
                at,
            } => SessionEventView::AreaEntered {
                area_id: area_id@,
                display_name: display_name@,
                act: *act,
                area_level: *area_level,
                is_town: *is_town,
                new_instance: *new_instance,
                at: at@,
            },
            SessionEvent::LevelUp { character, class, level, at } => SessionEventView::LevelUp {
                character: character@,
                class: class@,
                level: *level,
                at: at@,
            },
            SessionEvent::Slain { character, at } => SessionEventView::Slain {
                character: character@,
                at: at@,
            },
            SessionEvent::UnresolvedArea { display_name, at } => SessionEventView::UnresolvedArea {
                display_name: display_name@,
                at: at@,
            },
        }
    }
}

struct PendingGenerated {
    area_id: String,
    area_level: u8,
    seed: u64,
}

pub struct SessionTracker {
    areas: AreaMap,
    started: bool,
    current_area_id: Option<String>,
    current_act: Option<u8>,
    pending: Option<PendingGenerated>,
    last_seed_by_area: StrMap<u64>,
    player_level: Option<u16>,
}

pub struct SessionView {
    pub areas: AreasView,
    pub started: bool,
    pub current_area_id: Option<Seq<char>>,
    pub current_act: Option<u8>,
    /// The last `Generating` line not yet paired: area id, level, seed.
    pub pending: Option<(Seq<char>, u8, u64)>,
    pub last_seed: Seq<(Seq<char>, u64)>,
    /// The character level from the last level-up line.
    pub player_level: Option<u16>,
}

/// A tracker over `areas` that has read nothing: not started, no zone, no
/// act, no pending line, no seeds, no level.
pub open spec fn fresh_session(areas: AreasView) -> SessionView {
    SessionView {
        areas,
        started: false,
        current_area_id: None,
        current_act: None,
        pending: None,
        last_seed: Seq::empty(),
        player_level: None,
    }
}

impl View for SessionTracker {
    type V = SessionView;

    closed spec fn view(&self) -> SessionView {
        SessionView {
            areas: self.areas@,
            started: self.started,
            current_area_id: self.current_area_id.deep_view(),
            current_act: self.current_act,
            pending: match self.pending {
                Some(p) => Some((p.area_id@, p.area_level, p.seed)),
                None => None,
            },
            last_seed: self.last_seed_by_area@,
            player_level: self.player_level,
        }
    }
}

// ---------------------------------------------------------------------
// Specification
// ---------------------------------------------------------------------

/// Every area's own id is a key of the table (so an area found by its
/// display name can be looked up by its id).
pub open spec fn ids_are_keys(areas: AreasView) -> bool {
    forall|i: int| 0 <= i < areas.len() ==> lookup(areas, (#[trigger] areas[i]).1.id) is Some
}

pub open spec fn act_distance(act: u8, current: u8) -> int {
    if act >= current {
        act - current
    } else {
        current - act
    }
}

/// Whether area `a` ranks strictly before area `b` for a name lookup from
/// act `current`: closer act first, then lower act.
pub open spec fn ranks_before(a: AreaView, b: AreaView, current: u8) -> bool {
    act_distance(a.act, current) < act_distance(b.act, current) || (act_distance(a.act, current)
        == act_distance(b.act, current) && a.act < b.act)
}

/// Among the first `k` areas, the index of the first best-ranked one named
/// `name`.
pub open spec fn best_named(areas: AreasView, name: Seq<char>, current: u8, k: int) -> Option<int>
    decreases k,
{
    if k <= 0 {
        None
    } else {
        let best = best_named(areas, name, current, k - 1);
        let a = areas[k - 1].1;
        if a.name != name {
            best
        } else {
            match best {
                None => Some(k - 1),
                Some(b) => if ranks_before(a, areas[b].1, current) {
                    Some(k - 1)
                } else {
                    best
                },
            }
        }
    }
}

pub open spec fn seed_of(last_seed: Seq<(Seq<char>, u64)>, id: Seq<char>) -> u64 {
    match lookup(last_seed, id) {
        Some(s) => s,
        None => 0,
    }
}

/// Name-only resolution: the best-ranked area of that name, with its
/// table level (0 when absent) and the last seed seen there (0 when none).
pub open spec fn resolve_by_name_spec(s: SessionView, name: Seq<char>) -> Option<(Seq<char>, u8, u64)> {
    let current = match s.current_act {
        Some(a) => a,
        None => 1,
    };
    match best_named(s.areas, name, current, s.areas.len() as int) {
        Some(i) => {
            let a = s.areas[i].1;
            Some(
                (
                    a.id,
                    match a.level {
                        Some(l) => l,
                        None => 0,
                    },
                    seed_of(s.last_seed, a.id),
                ),
            )
        },
        None => None,
    }
}

/// Pairing an area entry by display name: the pending `Generating` line
/// when it names this area, else the name-only fallback.
pub open spec fn resolve_entry_spec(s: SessionView, name: Seq<char>, at: Seq<char>) -> (
    SessionView,
    SessionEventView,
) {
    let authoritative = match s.pending {
        Some(p) => match lookup(s.areas, p.0) {
            Some(a) => a.name == name,
            None => false,
        },
        None => false,
    };
    let s1 = if authoritative {
        SessionView { pending: None, ..s }
    } else {
        s
    };
    let resolved = if authoritative {
        s.pending
    } else {
        resolve_by_name_spec(s, name)
    };
    match resolved {
        None => (s1, SessionEventView::UnresolvedArea { display_name: name, at }),
        Some((id, level, seed)) => {
            let area = lookup(s.areas, id)->0;
            (
                SessionView {
                    last_seed: insert_entry(s1.last_seed, id, seed),
                    current_area_id: Some(id),
                    current_act: Some(area.act),
                    ..s1
                },
                SessionEventView::AreaEntered {
                    area_id: id,
                    display_name: name,
                    act: area.act,
                    area_level: level,
                    is_town: area.is_town_area,
                    new_instance: lookup(s.last_seed, id) != Some(seed),
                    at,
                },
            )
        },
    }
}

pub open spec fn event_at(e: RawEventView) -> Seq<char> {
    match e {
        RawEventView::AreaGenerated { at, .. } => at,
        RawEventView::AreaEnteredName { at, .. } => at,
        RawEventView::LevelUp { at, .. } => at,
        RawEventView::Slain { at, .. } => at,
        RawEventView::Unknown { at, .. } => at,
    }
}

/// The tracker after one raw event, and the session events it yields: the
/// first event of all starts the session.
pub open spec fn on_raw_spec(s: SessionView, e: RawEventView) -> (SessionView, Seq<SessionEventView>) {
    let start = if s.started {
        Seq::<SessionEventView>::empty()
    } else {
        seq![SessionEventView::SessionStarted { at: event_at(e) }]
    };
    let s0 = SessionView { started: true, ..s };
    match e {
        RawEventView::AreaGenerated { area_id, area_level, seed, .. } => (
            SessionView { pending: Some((area_id, area_level, seed)), ..s0 },
            start,
        ),
        RawEventView::AreaEnteredName { display_name, at } => {
            let (s2, ev) = resolve_entry_spec(s0, display_name, at);
            (s2, start.push(ev))
        },
        RawEventView::LevelUp { character, class, level, at } => (
            SessionView { player_level: Some(level), ..s0 },
            start.push(SessionEventView::LevelUp { character, class, level, at }),
        ),
        RawEventView::Slain { character, at } => (
            s0,
            start.push(SessionEventView::Slain { character, at }),
        ),
        RawEventView::Unknown { .. } => (s0, start),
    }
}

/// The tracker after the raw events `es`, fed one after the other, and
/// every session event they yield, in order.
pub open spec fn on_raw_all(s: SessionView, es: Seq<RawEventView>) -> (SessionView, Seq<SessionEventView>)
    decreases es.len(),
{
    if es.len() == 0 {
        (s, Seq::empty())
    } else {
        let (s1, o1) = on_raw_spec(s, es[0]);
        let (s2, o2) = on_raw_all(s1, es.drop_first());
        (s2, o1 + o2)
    }
}

proof fn lemma_on_raw_step(s: SessionView, e: RawEventView)
    ensures
        on_raw_spec(s, e).0.started,
        s.started ==> (forall|i: int|
            0 <= i < on_raw_spec(s, e).1.len() ==> !((#[trigger] on_raw_spec(s, e).1[i]) is SessionStarted)),
        !s.started ==> (on_raw_spec(s, e).1.len() >= 1 && on_raw_spec(s, e).1[0]
            == (SessionEventView::SessionStarted { at: event_at(e) }) && (forall|i: int|
            1 <= i < on_raw_spec(s, e).1.len() ==> !((#[trigger] on_raw_spec(s, e).1[i]) is SessionStarted))),
{
    let s0 = SessionView { started: true, ..s };
    if let RawEventView::AreaEnteredName { display_name, at } = e {
        let (s2, ev) = resolve_entry_spec(s0, display_name, at);
        assert(!(ev is SessionStarted));
        assert(s2.started);
    }
}

proof fn lemma_no_start_once_started(s: SessionView, es: Seq<RawEventView>)
    requires
        s.started,
    ensures
        (forall|i: int|
            0 <= i < on_raw_all(s, es).1.len() ==> !((#[trigger] on_raw_all(s, es).1[i]) is SessionStarted)),
    decreases es.len(),
{
    if es.len() > 0 {
        lemma_on_raw_step(s, es[0]);
        let (s1, o1) = on_raw_spec(s, es[0]);
        lemma_no_start_once_started(s1, es.drop_first());
        let o2 = on_raw_all(s1, es.drop_first()).1;
        assert forall|i: int| 0 <= i < (o1 + o2).len() implies !((#[trigger] (o1 + o2)[i]) is SessionStarted) by {
            if i < o1.len() {
                assert((o1 + o2)[i] == o1[i]);
            } else {
                assert((o1 + o2)[i] == o2[i - o1.len()]);
            }
        }
    }
}

/// A session starts exactly once: over any non-empty run of raw events fed
/// to a fresh tracker, the first session event is `SessionStarted` at the
/// first raw event's time, and no later one is.
pub proof fn lemma_session_starts_once(areas: AreasView, es: Seq<RawEventView>)
    requires
        es.len() >= 1,
    ensures
        ({
            let out = on_raw_all(fresh_session(areas), es).1;
            &&& out.len() >= 1
            &&& out[0] == (SessionEventView::SessionStarted { at: event_at(es[0]) })
            &&& forall|i: int| 1 <= i < out.len() ==> !((#[trigger] out[i]) is SessionStarted)
        }),
{
    let s = fresh_session(areas);
    lemma_on_raw_step(s, es[0]);
    let (s1, o1) = on_raw_spec(s, es[0]);
    lemma_no_start_once_started(s1, es.drop_first());
    let o2 = on_raw_all(s1, es.drop_first()).1;
    let out = o1 + o2;
    assert(out[0] == o1[0]);
    assert forall|i: int| 1 <= i < out.len() implies !((#[trigger] out[i]) is SessionStarted) by {
        if i < o1.len() {
            assert(out[i] == o1[i]);
        } else {
            assert(out[i] == o2[i - o1.len()]);
        }
    }
}

/// Whether every area's own id is a key of `areas` (what a tracker over
/// them needs).
pub fn area_ids_are_keys(areas: &AreaMap) -> (b: bool)
    ensures
        b == ids_are_keys(areas@),
{
    let mut i: usize = 0;
    while i < areas.len()
        invariant
            i <= areas@.len(),
            forall|j: int| 0 <= j < i ==> lookup(areas@, (#[trigger] areas@[j]).1.id) is Some,
        decreases areas@.len() - i,
    {
        let a = areas.value_at(i);
        if areas.get(a.id.as_str()).is_none() {
            return false;
        }
        i += 1;
    }
    true
}

/// The tracker's invariant: every area's id is a key of the table, and the
/// current area, when known, is one of them.
pub open spec fn session_inv(s: SessionView) -> bool {
    &&& ids_are_keys(s.areas)
    &&& (s.current_area_id matches Some(id) ==> lookup(s.areas, id) is Some)
}

proof fn lemma_best_named(areas: AreasView, name: Seq<char>, current: u8, k: int)
    requires
        0 <= k <= areas.len(),
    ensures
        best_named(areas, name, current, k) matches Some(i) ==> 0 <= i < k && areas[i].1.name == name,
    decreases k,
{
    if k > 0 {
        lemma_best_named(areas, name, current, k - 1);
    }
}

proof fn lemma_lookup_own_id(areas: AreasView, i: int)
    requires
        ids_are_keys(areas),
        0 <= i < areas.len(),
    ensures
        lookup(areas, areas[i].1.id) is Some,
{
    assert(lookup(areas, areas[i].1.id) is Some);
}

/// Every event keeps the tracker's invariant: the current area is always
/// a known one.
pub proof fn lemma_on_raw_inv(s: SessionView, e: RawEventView)
    requires
        session_inv(s),
    ensures
        session_inv(on_raw_spec(s, e).0),
        on_raw_spec(s, e).0.areas == s.areas,
        on_raw_spec(s, e).0.started,
{
    match e {
        RawEventView::AreaEnteredName { display_name, at } => {
            let s0 = SessionView { started: true, ..s };
            let current = match s0.current_act {
                Some(a) => a,
                None => 1,
            };
            lemma_best_named(s0.areas, display_name, current, s0.areas.len() as int);
            match best_named(s0.areas, display_name, current, s0.areas.len() as int) {
                Some(i) => lemma_lookup_own_id(s0.areas, i),
                None => {},
            }
        },
        _ => {},
    }
}

// ---------------------------------------------------------------------
// Implementation
// ---------------------------------------------------------------------

impl SessionTracker {
    pub closed spec fn wf(&self) -> bool {
        session_inv(self@)
    }

    pub proof fn lemma_wf(&self)
        requires
            self.wf(),
        ensures
            session_inv(self@),
    {
    }

    /// A tracker over `areas`. A table holding an area whose own id is not
    /// one of its keys is left out by `requires`: a zone entry resolved to
    /// that area by name would look up an id the table does not hold.
    pub fn new(areas: AreaMap) -> (t: Self)
        requires
            ids_are_keys(areas@),
        ensures
            t.wf(),
            t@ == fresh_session(areas@),
    {
        SessionTracker {
            areas,
            started: false,
            current_area_id: None,
            current_act: None,
            pending: None,
            last_seed_by_area: StrMap::new(),
            player_level: None,
        }
    }

    pub fn current_area_id(&self) -> (r: Option<&str>)
        ensures
            r matches Some(a) ==> self@.current_area_id == Some(a@),
            r is None ==> self@.current_area_id is None,
    {
        match &self.current_area_id {
            Some(s) => Some(s.as_str()),
            None => None,
        }
    }

    /// The character level from the last level-up line seen.
    pub fn player_level(&self) -> (r: Option<u16>)
        ensures
            r == self@.player_level,
    {
        self.player_level
    }

    pub fn current_act(&self) -> (r: Option<u8>)
        ensures
            r == self@.current_act,
    {
        self.current_act
    }

    fn resolve_by_name(&self, display_name: &str) -> (r: Option<(String, u8, u64)>)
        ensures
            r matches Some((id, level, seed)) ==> resolve_by_name_spec(self@, display_name@) == Some(
                (id@, level, seed),
            ),
            r is None ==> resolve_by_name_spec(self@, display_name@) is None,
    {
        let current: u8 = match self.current_act {
            Some(a) => a,
            None => 1,
        };
        let ghost areas = self.areas@;
        let mut best: Option<usize> = None;
        let mut i: usize = 0;
        while i < self.areas.len()
            invariant
                i <= areas.len(),
                areas == self.areas@,
                best matches Some(b) ==> b < i,
                best_named(areas, display_name@, current, i as int) == match best {
                    Some(b) => Some(b as int),
                    None => None::<int>,
                },
            decreases areas.len() - i,
        {
            let a = self.areas.value_at(i);
            if str_eq(a.name.as_str(), display_name) {
                match best {
                    None => {
                        best = Some(i);
                    },
                    Some(b) => {
                        let cur = self.areas.value_at(b);
                        let da: u8 = if a.act >= current {
                            a.act - current
                        } else {
                            current - a.act
                        };
                        let db: u8 = if cur.act >= current {
                            cur.act - current
                        } else {
                            current - cur.act
                        };
                        if da < db || (da == db && a.act < cur.act) {
                            best = Some(i);
                        }
                    },
                }
            }
            i += 1;
        }
        match best {
            None => None,
            Some(b) => {
                let a = self.areas.value_at(b);
                let seed: u64 = match self.last_seed_by_area.get(a.id.as_str()) {
                    Some(s) => *s,
                    None => 0,
                };
                let level: u8 = match a.level {
                    Some(l) => l,
                    None => 0,
                };
                Some((a.id.clone(), level, seed))
            },
        }
    }

    fn resolve_entry(&mut self, display_name: &str, at: &str) -> (r: SessionEvent)
        requires
            old(self).wf(),
        ensures
            final(self)@ == resolve_entry_spec(old(self)@, display_name@, at@).0,
            r.deep_view() == resolve_entry_spec(old(self)@, display_name@, at@).1,
    {
        let ghost s = self@;
        let authoritative = match &self.pending {
            Some(p) => match self.areas.get(p.area_id.as_str()) {
                Some(a) => str_eq(a.name.as_str(), display_name),
                None => false,
            },
            None => false,
        };
        let resolved: Option<(String, u8, u64)> = if authoritative {
            match self.pending.take() {
                Some(p) => Some((p.area_id, p.area_level, p.seed)),
                None => None,
            }
        } else {
            self.resolve_by_name(display_name)
        };
        proof {
            if !authoritative {
                let current = match s.current_act {
                    Some(a) => a,
                    None => 1,
                };
                lemma_best_named(s.areas, display_name@, current, s.areas.len() as int);
                match best_named(s.areas, display_name@, current, s.areas.len() as int) {
                    Some(i) => lemma_lookup_own_id(s.areas, i),
                    None => {},
                }
            }
        }
        match resolved {
            None => SessionEvent::UnresolvedArea {
                display_name: crate::text::owned(display_name),
                at: crate::text::owned(at),
            },
            Some((area_id, area_level, seed)) => {
                let (act, is_town) = match self.areas.get(area_id.as_str()) {
                    Some(a) => (a.act, a.is_town_area),
                    None => (0, false),
                };
                let new_instance = match self.last_seed_by_area.get(area_id.as_str()) {
                    Some(prev) => *prev != seed,
                    None => true,
                };
                self.last_seed_by_area.insert(area_id.clone(), seed);
                self.current_area_id = Some(area_id.clone());
                self.current_act = Some(act);
                proof {
                    assert(self@ =~= resolve_entry_spec(s, display_name@, at@).0);
                }
                SessionEvent::AreaEntered {
                    area_id,
                    display_name: crate::text::owned(display_name),
                    act,
                    area_level,
                    is_town,
                    new_instance,
                    at: crate::text::owned(at),
                }
            },
        }
    }

    /// Feeds one raw log event; yields the session events it completes.
    pub fn on_raw(&mut self, event: &RawEvent) -> (out: Vec<SessionEvent>)
        requires
            old(self).wf(),
        ensures
            final(self).wf(),
            final(self)@ == on_raw_spec(old(self)@, event@).0,
            out.deep_view() == on_raw_spec(old(self)@, event@).1,
    {
        let ghost s = self@;
        proof {
            lemma_on_raw_inv(s, event@);
        }
        let mut out: Vec<SessionEvent> = Vec::new();
        if !self.started {
            let at = match event {
                RawEvent::AreaGenerated { at, .. } => at,
                RawEvent::AreaEnteredName { at, .. } => at,
                RawEvent::LevelUp { at, .. } => at,
                RawEvent::Slain { at, .. } => at,
                RawEvent::Unknown { at, .. } => at,
            };
            out.push(SessionEvent::SessionStarted { at: at.clone() });
        }
        self.started = true;
        let ghost start = out.deep_view();
        proof {
            if s.started {
                assert(start =~= Seq::<SessionEventView>::empty());
            } else {
                assert(start =~= seq![SessionEventView::SessionStarted { at: event_at(event@) }]);
            }
        }
        match event {
            RawEvent::AreaGenerated { area_id, area_level, seed, .. } => {
                self.pending = Some(
                    PendingGenerated { area_id: area_id.clone(), area_level: *area_level, seed: *seed },
                );
            },
            RawEvent::AreaEnteredName { display_name, at } => {
                let e = self.resolve_entry(display_name.as_str(), at.as_str());
                let ghost ev = e.deep_view();
                out.push(e);
                proof {
                    assert(out.deep_view() =~= start.push(ev));
                }
            },
            RawEvent::LevelUp { character, class, level, at } => {
                self.player_level = Some(*level);
                let e = SessionEvent::LevelUp {
                    character: character.clone(),
                    class: class.clone(),
                    level: *level,
                    at: at.clone(),
                };
                let ghost ev = e.deep_view();
                out.push(e);
                proof {
                    assert(out.deep_view() =~= start.push(ev));
                }
            },
            RawEvent::Slain { character, at } => {
                let e = SessionEvent::Slain { character: character.clone(), at: at.clone() };
                let ghost ev = e.deep_view();
                out.push(e);
                proof {
                    assert(out.deep_view() =~= start.push(ev));
                }
            },
            RawEvent::Unknown { .. } => {},
        }
        proof {
            assert(self@ =~= on_raw_spec(s, event@).0);
        }
        out
    }
}

} // verus!
