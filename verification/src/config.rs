//! Configuration data consumed at startup: the socket paths, the hook
//! seed list, the ignore-set for port-status events, and the web-traffic
//! policy flag. Loading the file itself is I/O and lives outside the
//! library; these are the plain values it produces.

use vstd::prelude::*;
use crate::text::concat_str;

verus! {

/// Name of the named pipe over which the connection tracer reports.
pub const PORT_PIPE: &'static str = "auto-desk.ports";

/// A user-registered association between an event kind and a shell
/// command to run when that event fires.
pub struct Hook {
    pub event: String,
    pub exec_cmd: String,
}

impl Hook {
    /// A value-equal copy.
    pub fn duplicate(&self) -> (r: Hook)
        ensures
            r == *self,
    {
        Hook { event: self.event.clone(), exec_cmd: self.exec_cmd.clone() }
    }
}

/// Socket paths the command server uses.
pub struct Server {
    pub listen_socket: String,
    pub wm_socket: String,
}

/// Hook-related configuration.
pub struct Hooks {
    pub exec_ignore: Vec<String>,
    pub ignore_web: bool,
    pub listen: Option<bool>,
    pub hooks: Vec<Hook>,
}

/// The whole configuration file.
pub struct Config {
    pub server: Server,
    pub hooks: Hooks,
}

/// The runtime directory used for named pipes.
pub fn get_pipe_d() -> (r: String)
    ensures
        r@ == "/tmp"@,
{
    "/tmp".to_owned()
}

/// The path of the named pipe over which the connection tracer reports.
pub fn get_pipe_f() -> (r: String)
    ensures
        r@ == "/tmp/"@ + "auto-desk.ports"@,
{
    let d = get_pipe_d();
    let r = concat_str(d.as_str(), "/");
    proof {
        reveal_strlit("/tmp");
        reveal_strlit("/");
        reveal_strlit("/tmp/");
        assert(r@ =~= "/tmp/"@);
    }
    concat_str(r.as_str(), PORT_PIPE)
}

} // verus!
