//! `/publish`.

use vstd::prelude::*;
use crate::text::{decimal, u64_to_string};

verus! {

#[derive(Debug, Clone, Copy, PartialEq, Eq, Structural)]
pub enum PublishGameMode {
    Survival,
    Creative,
    Adventure,
    Spectator,
}

#[derive(Debug, Clone, PartialEq, Eq)]
pub enum PublishError {
    AlreadyPublished { port: u16 },
    Failed,
}

#[derive(Debug, Clone, PartialEq, Eq)]
pub struct PublishCommandOutput {
    pub success_count: i32,
    pub feedback_key: &'static str,
    pub copy_text: String,
    pub port: u16,
    pub allow_commands: bool,
    pub gamemode: Option<PublishGameMode>,
    pub broadcast_to_admins: bool,
}

/// Opens the world to the LAN on `port`; fails when it is already open or
/// when opening fails.
pub fn execute_publish_command(
    current_server_port: Option<u16>,
    publish_should_fail: bool,
    port: u16,
    allow_commands: bool,
    gamemode: Option<PublishGameMode>,
) -> (r: Result<PublishCommandOutput, PublishError>)
    ensures
        current_server_port matches Some(p) ==> r == Err::<PublishCommandOutput, PublishError>(PublishError::AlreadyPublished { port: p }),
        current_server_port is None && publish_should_fail ==> r == Err::<PublishCommandOutput, PublishError>(PublishError::Failed),
        current_server_port is None && !publish_should_fail ==> (r matches Ok(o) && {
            &&& o.success_count == port as i32
            &&& o.feedback_key@ == "commands.publish.started"@
            &&& o.copy_text@ == decimal(port as int)
            &&& o.port == port
            &&& o.allow_commands == allow_commands
            &&& o.gamemode == gamemode
            &&& o.broadcast_to_admins
        }),
{
    if let Some(p) = current_server_port {
        return Err(PublishError::AlreadyPublished { port: p });
    }
    if publish_should_fail {
        return Err(PublishError::Failed);
    }
    Ok(PublishCommandOutput {
        success_count: port as i32,
        feedback_key: "commands.publish.started",
        copy_text: u64_to_string(port as u64),
        port,
        allow_commands,
        gamemode,
        broadcast_to_admins: true,
    })
}

} // verus!
