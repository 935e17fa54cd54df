//! Replaying log lines through the session tracker, and where its
//! fixtures live.

use vstd::prelude::*;

use crate::event::{line_event, parse_line};
use crate::game_data::AreaMap;
use crate::layouts::{join, join_path};
use crate::session::{ids_are_keys, on_raw_spec, SessionEvent, SessionEventView, SessionTracker, SessionView};

verus! {

/// The session events of `lines` fed in order to a fresh tracker.
pub open spec fn replay_spec(s: SessionView, lines: Seq<Seq<char>>) -> (SessionView, Seq<SessionEventView>)
    decreases lines.len(),
{
    if lines.len() == 0 {
        (s, Seq::empty())
    } else {
        let (s1, out) = replay_spec(s, lines.drop_last());
        let (s2, evs) = on_raw_spec(s1, line_event(lines.last()));
        (s2, out + evs)
    }
}

pub open spec fn fresh_session(areas: crate::walk::AreasView) -> SessionView {
    SessionView {
        areas,
        started: false,
        current_area_id: None,
        current_act: None,
        pending: None,
        last_seed: Seq::empty(),
        player_level: None,
    }
}

/// Every session event the log `lines` yield, in order.
pub fn replay_lines(lines: &[&str], areas: AreaMap) -> (out: Vec<SessionEvent>)
    requires
        ids_are_keys(areas@),
    ensures
        out.deep_view() == replay_spec(fresh_session(areas@), lines@.map_values(|l: &str| l@)).1,
{
    let ghost lv = lines@.map_values(|l: &str| l@);
    let ghost s0 = fresh_session(areas@);
    let mut tracker = SessionTracker::new(areas);
    let mut out: Vec<SessionEvent> = Vec::new();
    let mut i: usize = 0;
    assert(out.deep_view() =~= Seq::<SessionEventView>::empty());
    while i < lines.len()
        invariant
            i <= lines@.len(),
            lv == lines@.map_values(|l: &str| l@),
            tracker.wf(),
            (tracker@, out.deep_view()) == replay_spec(s0, lv.take(i as int)),
        decreases lines@.len() - i,
    {
        proof {
            assert(lv.take(i + 1).drop_last() =~= lv.take(i as int));
            assert(lv.take(i + 1).last() == lines@[i as int]@);
        }
        let raw = parse_line(lines[i]);
        let mut evs = tracker.on_raw(&raw);
        let ghost before = out@;
        let ghost added = evs@;
        out.append(&mut evs);
        proof {
            assert(out@ =~= before + added);
            assert(out.deep_view() =~= replay_spec(s0, lv.take(i as int)).1 + added.map_values(|e: SessionEvent| e.deep_view()));
        }
        i += 1;
    }
    assert(lv.take(lv.len() as int) =~= lv);
    out
}

/// Where the replay fixtures live under the crate directory.
pub fn fixtures_dir(crate_dir: &str) -> (r: String)
    ensures
        r@ == join_path(crate_dir@, "fixtures"@),
{
    join(crate_dir, "fixtures")
}

} // verus!
