//! Feedback markers shared by commands.

use vstd::prelude::*;

verus! {

/// The feedback key of a command that sends no feedback.
pub const NO_COMMAND_FEEDBACK: &'static str = "";

/// The literal feedback of a successful `/debugpath`.
pub const DEBUG_PATH_SUCCESS_FEEDBACK: &'static str = "Made path";

/// What a command reports: how often it succeeded, the key of its feedback
/// message, and whether operators are told of it.
#[derive(Debug, Clone, Copy, PartialEq, Eq)]
pub struct CommandResult {
    pub success_count: i32,
    pub feedback_key: &'static str,
    pub broadcast_to_admins: bool,
}

/// A block position.
#[derive(Debug, Clone, Copy, PartialEq, Eq)]
pub struct BlockPos {
    pub x: i32,
    pub y: i32,
    pub z: i32,
}

} // verus!
