use lib::command_seed::{SeedPermissionRequirement, SeedCommandOutput, seed_permission_requirement, execute_seed_command};
#[test]
fn seed_permission_requirement_matches_java_check_permissions_parameter() {
    assert_eq!(
        seed_permission_requirement(true),
        SeedPermissionRequirement::Gamemasters
    );
    assert_eq!(
        seed_permission_requirement(false),
        SeedPermissionRequirement::All
    );
}

#[test]
fn seed_command_returns_truncated_int_and_copyable_long_text_like_java() {
    assert_eq!(
        execute_seed_command(8_675_309),
        SeedCommandOutput {
            success_count: 8_675_309,
            feedback_key: "commands.seed.success",
            copy_text: "8675309".to_string(),
            broadcast_to_admins: false,
        }
    );
    assert_eq!(
        execute_seed_command(i32::MAX as i64 + 1),
        SeedCommandOutput {
            success_count: i32::MIN,
            feedback_key: "commands.seed.success",
            copy_text: "2147483648".to_string(),
            broadcast_to_admins: false,
        }
    );
}
