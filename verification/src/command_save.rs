//! `/save-off` and `/save-on`.

use vstd::prelude::*;

verus! {

#[derive(Debug, Clone, Copy, PartialEq, Eq, Structural)]
pub enum SaveToggleCommand {
    Off,
    On,
}

#[derive(Debug, Clone, PartialEq, Eq)]
pub enum SaveToggleError {
    AlreadyOff,
    AlreadyOn,
}

#[derive(Debug, Clone, PartialEq, Eq)]
pub struct SaveToggleOutput {
    pub success_count: i32,
    pub feedback_key: &'static str,
    pub autosave_enabled: bool,
    pub broadcast_to_admins: bool,
}

/// Turns autosaving off or on; fails when it already is.
pub fn execute_save_toggle(command: SaveToggleCommand, autosave_enabled: bool) -> (r: Result<SaveToggleOutput, SaveToggleError>)
    ensures
        command == SaveToggleCommand::Off && !autosave_enabled ==> r == Err::<SaveToggleOutput, SaveToggleError>(SaveToggleError::AlreadyOff),
        command == SaveToggleCommand::On && autosave_enabled ==> r == Err::<SaveToggleOutput, SaveToggleError>(SaveToggleError::AlreadyOn),
        r matches Ok(o) ==> {
            &&& command == SaveToggleCommand::Off ==> autosave_enabled
            &&& command == SaveToggleCommand::On ==> !autosave_enabled
            &&& o.success_count == 1
            &&& o.autosave_enabled == (command == SaveToggleCommand::On)
            &&& o.feedback_key@ == (if command == SaveToggleCommand::On { "commands.save.enabled"@ } else { "commands.save.disabled"@ })
            &&& o.broadcast_to_admins
        },
        (command == SaveToggleCommand::Off && autosave_enabled) || (command == SaveToggleCommand::On && !autosave_enabled) ==> r is Ok,
{
    match command {
        SaveToggleCommand::Off => {
            if !autosave_enabled {
                Err(SaveToggleError::AlreadyOff)
            } else {
                Ok(SaveToggleOutput {
                    success_count: 1,
                    feedback_key: "commands.save.disabled",
                    autosave_enabled: false,
                    broadcast_to_admins: true,
                })
            }
        },
        SaveToggleCommand::On => {
            if autosave_enabled {
                Err(SaveToggleError::AlreadyOn)
            } else {
                Ok(SaveToggleOutput {
                    success_count: 1,
                    feedback_key: "commands.save.enabled",
                    autosave_enabled: true,
                    broadcast_to_admins: true,
                })
            }
        },
    }
}

} // verus!
