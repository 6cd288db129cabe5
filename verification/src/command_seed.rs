//! `/seed`.

use vstd::prelude::*;
use crate::text::{decimal, i64_to_string};

verus! {

#[derive(Debug, Clone, Copy, PartialEq, Eq, Structural)]
pub enum SeedPermissionRequirement {
    All,
    Gamemasters,
}

#[derive(Debug, Clone, PartialEq, Eq)]
pub struct SeedCommandOutput {
    pub success_count: i32,
    pub feedback_key: &'static str,
    pub copy_text: String,
    pub broadcast_to_admins: bool,
}

/// Game masters only when permissions are checked (dedicated servers), else everyone.
pub fn seed_permission_requirement(check_permissions: bool) -> (r: SeedPermissionRequirement)
    ensures
        r == (if check_permissions { SeedPermissionRequirement::Gamemasters } else { SeedPermissionRequirement::All }),
{
    if check_permissions {
        SeedPermissionRequirement::Gamemasters
    } else {
        SeedPermissionRequirement::All
    }
}

/// Reports the seed: the result is the seed truncated to 32 bits, and the
/// copyable text is the full decimal seed.
pub fn execute_seed_command(seed: i64) -> (r: SeedCommandOutput)
    ensures
        r.success_count == seed as i32,
        r.feedback_key@ == "commands.seed.success"@,
        r.copy_text@ == decimal(seed as int),
        !r.broadcast_to_admins,
{
    SeedCommandOutput {
        success_count: seed as i32,
        feedback_key: "commands.seed.success",
        copy_text: i64_to_string(seed),
        broadcast_to_admins: false,
    }
}

} // verus!
