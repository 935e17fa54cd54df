//! Global hotkeys: the default bindings and the actions they trigger.

use vstd::prelude::*;

use crate::text::owned;

verus! {

pub fn default_zoom_hotkey() -> (s: String)
    ensures
        s@ == "alt+shift+z"@,
{
    owned("alt+shift+z")
}

pub fn default_compact_hotkey() -> (s: String)
    ensures
        s@ == "alt+shift+c"@,
{
    owned("alt+shift+c")
}

pub fn default_hide_hotkey() -> (s: String)
    ensures
        s@ == "alt+shift+h"@,
{
    owned("alt+shift+h")
}

pub fn default_setup_hotkey() -> (s: String)
    ensures
        s@ == "alt+shift+s"@,
{
    owned("alt+shift+s")
}

pub fn default_settings_hotkey() -> (s: String)
    ensures
        s@ == "alt+shift+o"@,
{
    owned("alt+shift+o")
}

pub fn default_timer_hotkey() -> (s: String)
    ensures
        s@ == "alt+shift+t"@,
{
    owned("alt+shift+t")
}

#[derive(Debug, Clone, PartialEq, Eq)]
pub struct HotkeyConfig {
    pub zoom: String,
    pub compact: String,
    pub hide: String,
    pub setup: String,
    pub settings: String,
    pub timer: String,
}

impl Default for HotkeyConfig {
    fn default() -> (c: Self)
        ensures
            c.zoom@ == "alt+shift+z"@,
            c.compact@ == "alt+shift+c"@,
            c.hide@ == "alt+shift+h"@,
            c.setup@ == "alt+shift+s"@,
            c.settings@ == "alt+shift+o"@,
            c.timer@ == "alt+shift+t"@,
    {
        HotkeyConfig {
            zoom: default_zoom_hotkey(),
            compact: default_compact_hotkey(),
            hide: default_hide_hotkey(),
            setup: default_setup_hotkey(),
            settings: default_settings_hotkey(),
            timer: default_timer_hotkey(),
        }
    }
}

/// What a hotkey does.
#[derive(Debug, Clone, Copy, PartialEq, Eq, Structural)]
pub enum HotkeyAction {
    Zoom,
    Compact,
    Hide,
    Setup,
    Settings,
    Timer,
}

pub open spec fn label_of(a: HotkeyAction) -> Seq<char> {
    match a {
        HotkeyAction::Zoom => "toggle zoom"@,
        HotkeyAction::Compact => "toggle compact mode"@,
        HotkeyAction::Hide => "hide/show overlay"@,
        HotkeyAction::Setup => "toggle setup mode"@,
        HotkeyAction::Settings => "open settings"@,
        HotkeyAction::Timer => "start/stop run timer"@,
    }
}

impl HotkeyAction {
    /// How the action is named to the user.
    pub fn label(self) -> (s: &'static str)
        ensures
            s@ == label_of(self),
    {
        match self {
            HotkeyAction::Zoom => "toggle zoom",
            HotkeyAction::Compact => "toggle compact mode",
            HotkeyAction::Hide => "hide/show overlay",
            HotkeyAction::Setup => "toggle setup mode",
            HotkeyAction::Settings => "open settings",
            HotkeyAction::Timer => "start/stop run timer",
        }
    }
}

/// Every action with its combo, in a fixed order.
pub fn bindings(cfg: &HotkeyConfig) -> (r: [(HotkeyAction, &str); 6])
    ensures
        r@[0].0 == HotkeyAction::Zoom && r@[0].1@ == cfg.zoom@,
        r@[1].0 == HotkeyAction::Compact && r@[1].1@ == cfg.compact@,
        r@[2].0 == HotkeyAction::Hide && r@[2].1@ == cfg.hide@,
        r@[3].0 == HotkeyAction::Setup && r@[3].1@ == cfg.setup@,
        r@[4].0 == HotkeyAction::Settings && r@[4].1@ == cfg.settings@,
        r@[5].0 == HotkeyAction::Timer && r@[5].1@ == cfg.timer@,
{
    [
        (HotkeyAction::Zoom, cfg.zoom.as_str()),
        (HotkeyAction::Compact, cfg.compact.as_str()),
        (HotkeyAction::Hide, cfg.hide.as_str()),
        (HotkeyAction::Setup, cfg.setup.as_str()),
        (HotkeyAction::Settings, cfg.settings.as_str()),
        (HotkeyAction::Timer, cfg.timer.as_str()),
    ]
}

} // verus!
