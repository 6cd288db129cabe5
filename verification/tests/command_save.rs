use lib::command_save::{SaveToggleCommand, SaveToggleError, SaveToggleOutput, execute_save_toggle};
#[test]
fn save_off_matches_java_state_error_and_feedback() {
    assert_eq!(
        execute_save_toggle(SaveToggleCommand::Off, false),
        Err(SaveToggleError::AlreadyOff)
    );
    assert_eq!(
        execute_save_toggle(SaveToggleCommand::Off, true),
        Ok(SaveToggleOutput {
            success_count: 1,
            feedback_key: "commands.save.disabled",
            autosave_enabled: false,
            broadcast_to_admins: true,
        })
    );
}

#[test]
fn save_on_matches_java_state_error_and_feedback() {
    assert_eq!(
        execute_save_toggle(SaveToggleCommand::On, true),
        Err(SaveToggleError::AlreadyOn)
    );
    assert_eq!(
        execute_save_toggle(SaveToggleCommand::On, false),
        Ok(SaveToggleOutput {
            success_count: 1,
            feedback_key: "commands.save.enabled",
            autosave_enabled: true,
            broadcast_to_admins: true,
        })
    );
}
