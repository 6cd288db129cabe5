use lib::command_publish::{PublishGameMode, PublishError, PublishCommandOutput, execute_publish_command};
#[test]
fn publish_success_records_port_options_and_copyable_port_text() {
    assert_eq!(
        execute_publish_command(None, false, 24454, false, None),
        Ok(PublishCommandOutput {
            success_count: 24454,
            feedback_key: "commands.publish.started",
            copy_text: "24454".to_string(),
            port: 24454,
            allow_commands: false,
            gamemode: None,
            broadcast_to_admins: true,
        })
    );
    assert_eq!(
        execute_publish_command(
            None,
            false,
            0,
            true,
            Some(PublishGameMode::Creative)
        ),
        Ok(PublishCommandOutput {
            success_count: 0,
            feedback_key: "commands.publish.started",
            copy_text: "0".to_string(),
            port: 0,
            allow_commands: true,
            gamemode: Some(PublishGameMode::Creative),
            broadcast_to_admins: true,
        })
    );
}

#[test]
fn publish_errors_match_java_order() {
    assert_eq!(
        execute_publish_command(Some(25565), true, 24454, false, None),
        Err(PublishError::AlreadyPublished { port: 25565 })
    );
    assert_eq!(
        execute_publish_command(None, true, 24454, false, None),
        Err(PublishError::Failed)
    );
}
