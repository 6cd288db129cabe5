use lib::command_set_idle_timeout::{SetIdleTimeoutError, SetIdleTimeoutOutput, execute_set_idle_timeout};
#[test]
fn idle_timeout_rejects_negative_values_like_integer_argument_min_zero() {
    assert_eq!(
        execute_set_idle_timeout(-1),
        Err(SetIdleTimeoutError::InvalidMinutes)
    );
}

#[test]
fn idle_timeout_zero_disables_timeout_with_java_feedback() {
    assert_eq!(
        execute_set_idle_timeout(0),
        Ok(SetIdleTimeoutOutput {
            success_count: 0,
            feedback_key: "commands.setidletimeout.success.disabled",
            idle_timeout_minutes: 0,
            broadcast_to_admins: true,
        })
    );
}

#[test]
fn idle_timeout_positive_sets_minutes_and_returns_time() {
    assert_eq!(
        execute_set_idle_timeout(5),
        Ok(SetIdleTimeoutOutput {
            success_count: 5,
            feedback_key: "commands.setidletimeout.success",
            idle_timeout_minutes: 5,
            broadcast_to_admins: true,
        })
    );
}
