//! Where the program's data lives: the data root, chosen by precedence,
//! and the vendored route data under it.

use vstd::prelude::*;

use crate::layouts::{join, join_path};

verus! {

/// The data root: the override from the environment, else the one set at
/// startup, else the built-in default.
pub fn resolve(env_override: Option<String>, once: Option<&String>, default_root: String) -> (r: String)
    ensures
        r@ == (match env_override {
            Some(e) => e@,
            None => match once {
                Some(o) => o@,
                None => default_root@,
            },
        }),
{
    match env_override {
        Some(e) => e,
        None => match once {
            Some(o) => o.clone(),
            None => default_root,
        },
    }
}

/// Where the vendored route data lives under the data root.
pub fn vendor_dir(root: &str) -> (r: String)
    ensures
        r@ == join_path(join_path(root@, "vendor"@), "exile-leveling"@),
{
    let v = join(root, "vendor");
    join(v.as_str(), "exile-leveling")
}

} // verus!
