use lib::command_debug_mob_spawning::{DebugMobSpawningOutput, execute_debug_mob_spawning_command};
#[test]
fn debug_mob_spawning_records_category_position_and_no_feedback() {
    assert_eq!(
        execute_debug_mob_spawning_command("monster", (0, 64, 0)),
        DebugMobSpawningOutput {
            success_count: 1,
            feedback_key: lib::command::NO_COMMAND_FEEDBACK,
            category: "monster",
            position: (0, 64, 0),
            broadcast_to_admins: false,
        }
    );
}
