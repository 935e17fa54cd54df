//! Campaign leveling copilot: log parsing, route tracking and overlay
//! composition, verified with Verus.

use vstd::prelude::*;

pub mod text;
pub mod event;
pub mod map;
pub mod game_data;
pub mod fragment;
pub mod route_parser;
pub mod walk;
pub mod route_engine;
pub mod session;
pub mod task_engine;
pub mod layouts;
pub mod pob;
pub mod render;
pub mod composer;
pub mod gem_availability;
pub mod compile;
pub mod bug_report;
pub mod run_timer;
pub mod config;
pub mod diagnostics;
pub mod hotkeys;
pub mod input_log;
pub mod journal;
pub mod pipeline;
pub mod data_root;
pub mod replay;
pub mod share_code;
pub mod xml_events;
pub mod build_xml;

verus! {

/// Whether the library is linked and usable.
pub fn crate_ready() -> (b: bool)
    ensures
        b,
{
    true
}

} // verus!
