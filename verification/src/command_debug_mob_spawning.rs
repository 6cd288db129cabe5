//! `/debugmobspawning`.

use vstd::prelude::*;
use crate::command::NO_COMMAND_FEEDBACK;

verus! {

#[derive(Debug, PartialEq, Eq)]
pub struct DebugMobSpawningOutput {
    pub success_count: i32,
    pub feedback_key: &'static str,
    pub category: &'static str,
    pub position: (i32, i32, i32),
    pub broadcast_to_admins: bool,
}

/// Spawns one round of `category` at `position`; sends no feedback.
pub fn execute_debug_mob_spawning_command(category: &'static str, position: (i32, i32, i32)) -> (r: DebugMobSpawningOutput)
    ensures
        r == (DebugMobSpawningOutput {
            success_count: 1,
            feedback_key: NO_COMMAND_FEEDBACK,
            category,
            position,
            broadcast_to_admins: false,
        }),
{
    DebugMobSpawningOutput {
        success_count: 1,
        feedback_key: NO_COMMAND_FEEDBACK,
        category,
        position,
        broadcast_to_admins: false,
    }
}

} // verus!
