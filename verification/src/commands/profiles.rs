//! `profiles`: the browser profiles Local State knows.
use vstd::prelude::*;

use crate::error::CliError;
use crate::json::JsonValue;
use crate::profile::{info_cache, list_profiles, profiles_model, profiles_of, ProfileInfo};

verus! {

/// List available browser profiles: (directory, display name) in info cache order.
pub fn run(local_state: &JsonValue) -> (r: Result<Vec<ProfileInfo>, CliError>)
    ensures
        match r {
            Ok(v) => info_cache(local_state@) matches Some(m) && profiles_model(v@) == profiles_of(m),
            Err(e) => info_cache(local_state@) is None && (e matches CliError::LocalStateMissing {
                field,
            } && field@ == "profile.info_cache"@),
        },
{
    list_profiles(local_state)
}

} // verus!
