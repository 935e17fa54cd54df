//! Application settings: the log path, the route variant and an optional
//! build code.

use vstd::prelude::*;

use crate::compile::Variant;
use crate::text::{append_str, chars_of, owned, str_eq, string_of};

verus! {

/// The route variant used when none (or an unknown one) is configured.
pub fn default_variant() -> (s: String)
    ensures
        s@ == "league-start"@,
{
    owned("league-start")
}

/// Whether `v` names a route variant.
pub open spec fn known_variant(v: Seq<char>) -> bool {
    v == "league-start"@ || v == "standard"@
}

pub fn is_known_variant(v: &str) -> (b: bool)
    ensures
        b == known_variant(v@),
{
    str_eq(v, "league-start") || str_eq(v, "standard")
}

/// The route pack selector a configured variant names; anything else is
/// refused with a message naming it.
pub fn map_variant(s: &str) -> (r: Result<Variant, String>)
    ensures
        s@ == "league-start"@ ==> r == Ok::<Variant, String>(Variant::LeagueStart),
        s@ == "standard"@ ==> r == Ok::<Variant, String>(Variant::Standard),
        !known_variant(s@) ==> (r matches Err(m) && m@ == "unknown route variant: "@ + s@),
{
    proof {
        reveal_strlit("league-start");
        reveal_strlit("standard");
        assert("league-start"@.len() != "standard"@.len());
    }
    if str_eq(s, "league-start") {
        Ok(Variant::LeagueStart)
    } else if str_eq(s, "standard") {
        Ok(Variant::Standard)
    } else {
        let mut v = chars_of("unknown route variant: ");
        append_str(&mut v, s);
        Err(string_of(&v))
    }
}

#[derive(Debug, Clone, PartialEq)]
pub struct AppConfig {
    pub client_log_path: Option<String>,
    pub variant: String,
    pub pob_code: Option<String>,
}

impl Default for AppConfig {
    fn default() -> (c: Self)
        ensures
            c.client_log_path is None,
            c.variant@ == "league-start"@,
            c.pob_code is None,
    {
        AppConfig { client_log_path: None, variant: default_variant(), pob_code: None }
    }
}

/// `cfg` with an unknown variant replaced by the default one; the other
/// fields are kept.
pub fn normalize_variant(cfg: AppConfig) -> (r: AppConfig)
    ensures
        r.client_log_path == cfg.client_log_path,
        r.pob_code == cfg.pob_code,
        r.variant@ == (if known_variant(cfg.variant@) {
            cfg.variant@
        } else {
            "league-start"@
        }),
{
    if is_known_variant(cfg.variant.as_str()) {
        cfg
    } else {
        AppConfig { client_log_path: cfg.client_log_path, variant: default_variant(), pob_code: cfg.pob_code }
    }
}

fn opt_eq(a: &Option<String>, b: &Option<String>) -> (r: bool)
    ensures
        r == (a.deep_view() == b.deep_view()),
{
    match (a, b) {
        (Some(x), Some(y)) => str_eq(x.as_str(), y.as_str()),
        (None, None) => true,
        _ => false,
    }
}

/// Whether every persisted field of `a` and `b` is the same.
pub fn configs_equal(a: &AppConfig, b: &AppConfig) -> (r: bool)
    ensures
        r == (a.client_log_path.deep_view() == b.client_log_path.deep_view() && a.variant@ == b.variant@
            && a.pob_code.deep_view() == b.pob_code.deep_view()),
{
    opt_eq(&a.client_log_path, &b.client_log_path) && str_eq(a.variant.as_str(), b.variant.as_str())
        && opt_eq(&a.pob_code, &b.pob_code)
}

} // verus!
