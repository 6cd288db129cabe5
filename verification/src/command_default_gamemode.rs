//! `/defaultgamemode`.

use vstd::prelude::*;

verus! {

#[derive(Debug, Clone, Copy, PartialEq, Eq, Structural)]
pub enum DefaultGameMode {
    Survival,
    Creative,
    Adventure,
    Spectator,
}

#[derive(Debug, Clone, PartialEq, Eq)]
pub struct DefaultGameModeOutput {
    pub success_count: i32,
    pub feedback_key: &'static str,
    pub default_game_mode: DefaultGameMode,
    pub enforced_player_count: i32,
    pub broadcast_to_admins: bool,
}

/// Sets the default game mode; when the server forces the game mode, every
/// online player is switched and counted.
pub fn execute_default_gamemode_command(
    requested_mode: DefaultGameMode,
    forced_mode_after_default_update: Option<DefaultGameMode>,
    online_player_count: i32,
) -> (r: DefaultGameModeOutput)
    ensures
        r.enforced_player_count == (if forced_mode_after_default_update is Some { online_player_count } else { 0 }),
        r.success_count == r.enforced_player_count,
        r.feedback_key@ == "commands.defaultgamemode.success"@,
        r.default_game_mode == requested_mode,
        r.broadcast_to_admins,
{
    let enforced_player_count = if forced_mode_after_default_update.is_some() {
        online_player_count
    } else {
        0
    };
    DefaultGameModeOutput {
        success_count: enforced_player_count,
        feedback_key: "commands.defaultgamemode.success",
        default_game_mode: requested_mode,
        enforced_player_count,
        broadcast_to_admins: true,
    }
}

} // verus!
