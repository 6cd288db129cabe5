use lib::command_default_gamemode::{DefaultGameMode, DefaultGameModeOutput, execute_default_gamemode_command};
#[test]
fn default_gamemode_sets_world_default_and_returns_enforced_player_count() {
    assert_eq!(
        execute_default_gamemode_command(DefaultGameMode::Creative, None, 3),
        DefaultGameModeOutput {
            success_count: 0,
            feedback_key: "commands.defaultgamemode.success",
            default_game_mode: DefaultGameMode::Creative,
            enforced_player_count: 0,
            broadcast_to_admins: true,
        }
    );
    assert_eq!(
        execute_default_gamemode_command(
            DefaultGameMode::Creative,
            Some(DefaultGameMode::Creative),
            3
        ),
        DefaultGameModeOutput {
            success_count: 3,
            feedback_key: "commands.defaultgamemode.success",
            default_game_mode: DefaultGameMode::Creative,
            enforced_player_count: 3,
            broadcast_to_admins: true,
        }
    );
}
