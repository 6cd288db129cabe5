//! `/spawnpoint`: the feedback depends on how many players had their spawn
//! point set.

use vstd::prelude::*;
use crate::command::CommandResult;

verus! {

/// What `/spawnpoint` reports for the number of players it set: the count,
/// the single or multiple success message, told to operators.
pub fn spawnpoint_result(target_count: i32) -> (r: CommandResult)
    ensures
        r.success_count == target_count,
        r.feedback_key@ == (if target_count == 1 {
            "commands.spawnpoint.success.single"@
        } else {
            "commands.spawnpoint.success.multiple"@
        }),
        r.broadcast_to_admins,
{
    CommandResult {
        success_count: target_count,
        feedback_key: if target_count == 1 {
            "commands.spawnpoint.success.single"
        } else {
            "commands.spawnpoint.success.multiple"
        },
        broadcast_to_admins: true,
    }
}

} // verus!
