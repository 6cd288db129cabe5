use lib::command_debug_path::{DebugPathSourceKind, DebugPathError, DebugPathOutput, execute_debug_path_command};
#[test]
fn debug_path_requires_mob_path_and_complete_reachability() {
    assert_eq!(
        execute_debug_path_command(DebugPathSourceKind::Missing, (1, 64, 1), true, true),
        Err(DebugPathError::NotMob)
    );
    assert_eq!(
        execute_debug_path_command(DebugPathSourceKind::Player, (1, 64, 1), true, true),
        Err(DebugPathError::NotMob)
    );
    assert_eq!(
        execute_debug_path_command(DebugPathSourceKind::Mob, (1, 64, 1), false, true),
        Err(DebugPathError::NoPath)
    );
    assert_eq!(
        execute_debug_path_command(DebugPathSourceKind::Mob, (1, 64, 1), true, false),
        Err(DebugPathError::NotComplete)
    );
    assert_eq!(
        execute_debug_path_command(DebugPathSourceKind::Mob, (1, 64, 1), true, true),
        Ok(DebugPathOutput {
            success_count: 1,
            feedback_marker: lib::command::DEBUG_PATH_SUCCESS_FEEDBACK,
            target: (1, 64, 1),
            broadcast_to_admins: true,
        })
    );
}
