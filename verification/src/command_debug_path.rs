//! `/debugpath`.

use vstd::prelude::*;
use crate::command::DEBUG_PATH_SUCCESS_FEEDBACK;

verus! {

#[derive(Debug, Clone, Copy, PartialEq, Eq, Structural)]
pub enum DebugPathSourceKind {
    Mob,
    Player,
    NonLiving,
    Missing,
}

#[derive(Debug, Clone, PartialEq, Eq)]
pub enum DebugPathError {
    NotMob,
    NoPath,
    NotComplete,
}

#[derive(Debug, PartialEq, Eq)]
pub struct DebugPathOutput {
    pub success_count: i32,
    pub feedback_marker: &'static str,
    pub target: (i32, i32, i32),
    pub broadcast_to_admins: bool,
}

/// Paths a mob to `target`: the source must be a mob, a path must exist and reach the target.
pub fn execute_debug_path_command(
    source_kind: DebugPathSourceKind,
    target: (i32, i32, i32),
    path_exists: bool,
    path_can_reach: bool,
) -> (r: Result<DebugPathOutput, DebugPathError>)
    ensures
        source_kind != DebugPathSourceKind::Mob ==> r == Err::<DebugPathOutput, DebugPathError>(DebugPathError::NotMob),
        source_kind == DebugPathSourceKind::Mob && !path_exists ==> r == Err::<DebugPathOutput, DebugPathError>(DebugPathError::NoPath),
        source_kind == DebugPathSourceKind::Mob && path_exists && !path_can_reach ==> r == Err::<DebugPathOutput, DebugPathError>(DebugPathError::NotComplete),
        source_kind == DebugPathSourceKind::Mob && path_exists && path_can_reach ==> r == Ok::<DebugPathOutput, DebugPathError>(DebugPathOutput {
            success_count: 1,
            feedback_marker: DEBUG_PATH_SUCCESS_FEEDBACK,
            target,
            broadcast_to_admins: true,
        }),
{
    if !matches!(source_kind, DebugPathSourceKind::Mob) {
        return Err(DebugPathError::NotMob);
    }
    if !path_exists {
        return Err(DebugPathError::NoPath);
    }
    if !path_can_reach {
        return Err(DebugPathError::NotComplete);
    }
    Ok(DebugPathOutput {
        success_count: 1,
        feedback_marker: DEBUG_PATH_SUCCESS_FEEDBACK,
        target,
        broadcast_to_admins: true,
    })
}

} // verus!
