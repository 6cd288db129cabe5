//! `/setidletimeout`.

use vstd::prelude::*;

verus! {

#[derive(Debug, Clone, PartialEq, Eq)]
pub enum SetIdleTimeoutError {
    InvalidMinutes,
}

#[derive(Debug, Clone, PartialEq, Eq)]
pub struct SetIdleTimeoutOutput {
    pub success_count: i32,
    pub feedback_key: &'static str,
    pub idle_timeout_minutes: u32,
    pub broadcast_to_admins: bool,
}

/// Sets the idle timeout in minutes; zero disables it, negative values are rejected.
pub fn execute_set_idle_timeout(minutes: i32) -> (r: Result<SetIdleTimeoutOutput, SetIdleTimeoutError>)
    ensures
        minutes < 0 <==> r == Err::<SetIdleTimeoutOutput, SetIdleTimeoutError>(SetIdleTimeoutError::InvalidMinutes),
        r matches Ok(o) ==> {
            &&& o.success_count == minutes
            &&& o.idle_timeout_minutes == minutes
            &&& o.feedback_key@ == (if minutes > 0 { "commands.setidletimeout.success"@ } else { "commands.setidletimeout.success.disabled"@ })
            &&& o.broadcast_to_admins
        },
{
    if minutes < 0 {
        return Err(SetIdleTimeoutError::InvalidMinutes);
    }
    Ok(SetIdleTimeoutOutput {
        success_count: minutes,
        feedback_key: if minutes > 0 {
            "commands.setidletimeout.success"
        } else {
            "commands.setidletimeout.success.disabled"
        },
        idle_timeout_minutes: minutes as u32,
        broadcast_to_admins: true,
    })
}

} // verus!
