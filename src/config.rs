use vstd::prelude::*;
use crate::store::{join_path, joined};

verus! {

/// The configuration file inside the configuration directory.
pub fn get_config_path(config_dir: &str) -> (r: String)
    ensures
        r@ == joined(config_dir@, "config.json"@),
{
    join_path(config_dir, "config.json")
}

} // verus!
