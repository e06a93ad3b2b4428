//! `/api/system`.

use crate::httpd::json_error::{JsonError, ServerFault};
use vstd::prelude::*;
use vstd::string::StringExecFns;

verus! {

/// The init script that supervises the service.
pub open spec fn init_script() -> Seq<char> {
    "/etc/init.d/S60maia-httpd"@
}

/// The shell command that restarts the service. It waits for a second, so that
/// the answer to the request is sent before the service is replaced.
pub fn restart_command() -> (command: String)
    ensures
        command@ == "sleep 1; "@ + init_script() + " restart"@,
        command@ == "sleep 1; /etc/init.d/S60maia-httpd restart"@,
{
    proof {
        reveal_strlit("sleep 1; ");
        reveal_strlit("/etc/init.d/S60maia-httpd");
        reveal_strlit(" restart");
        reveal_strlit("sleep 1; /etc/init.d/S60maia-httpd restart");
    }
    let mut command: String = "sleep 1; ".to_owned();
    command.append("/etc/init.d/S60maia-httpd");
    command.append(" restart");
    assert(command@ =~= "sleep 1; /etc/init.d/S60maia-httpd restart"@);
    command
}

/// The answer to `POST /api/system/restart`.
#[derive(Clone, Copy, Debug, PartialEq, Eq, Structural)]
pub struct Restarting {
    /// Whether the service is about to restart.
    pub restarting: bool,
}

/// The answer to `POST /api/system/restart`, from whether the shell command
/// could be spawned.
pub fn post_restart(spawned: Result<(), String>) -> (r: Result<Restarting, JsonError>)
    ensures
        match spawned {
            Ok(()) => r == Ok::<Restarting, JsonError>(Restarting { restarting: true }),
            Err(e) => r == Err::<Restarting, JsonError>(
                JsonError::ServerError(ServerFault::Spawn(e)),
            ),
        },
{
    match spawned {
        Ok(()) => Ok(Restarting { restarting: true }),
        Err(e) => Err(JsonError::ServerError(ServerFault::Spawn(e))),
    }
}

} // verus!
