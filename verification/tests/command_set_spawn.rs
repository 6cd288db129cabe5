use lib::command_set_spawn::spawnpoint_result;

#[test]
fn spawnpoint_feedback_depends_on_the_target_count() {
    let one = spawnpoint_result(1);
    assert_eq!(one.success_count, 1);
    assert_eq!(one.feedback_key, "commands.spawnpoint.success.single");
    assert!(one.broadcast_to_admins);
    let two = spawnpoint_result(2);
    assert_eq!(two.success_count, 2);
    assert_eq!(two.feedback_key, "commands.spawnpoint.success.multiple");
}
