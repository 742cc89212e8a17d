//! Builders for the one-shot external commands the server runs: volume,
//! media, backlight, monitor and power control, and program launching.
//! Each builder states exactly which program and arguments the command
//! carries; spawning the process is I/O and lives outside the library.

use vstd::prelude::*;
use crate::text::{concat_str, ends_with, ends_with_spec};

verus! {

/// One external command, ready to spawn: a program and its arguments.
pub struct ShellCmd {
    pub program: String,
    pub args: Vec<String>,
}

/// Changes the master volume by `amount` percent, up or down.
pub fn change_volume(amount: &str, raise: bool) -> (r: ShellCmd)
    ensures
        r.program@ == "amixer"@,
        r.args.deep_view() == seq![
            "set"@,
            "Master"@,
            amount@ + if raise {
                "%+"@
            } else {
                "%-"@
            },
        ],
{
    let level = if raise {
        concat_str(amount, "%+")
    } else {
        concat_str(amount, "%-")
    };
    let mut args: Vec<String> = Vec::new();
    args.push("set".to_owned());
    args.push("Master".to_owned());
    args.push(level);
    let r = ShellCmd { program: "amixer".to_owned(), args };
    proof {
        assert(r.args.deep_view() =~= seq![
            "set"@,
            "Master"@,
            amount@ + if raise { "%+"@ } else { "%-"@ },
        ]);
    }
    r
}

/// Raises the volume by `amount` percent.
pub fn volume_up(amount: &str) -> (r: ShellCmd)
    ensures
        r.program@ == "amixer"@,
        r.args.deep_view() == seq!["set"@, "Master"@, amount@ + "%+"@],
{
    change_volume(amount, true)
}

/// Lowers the volume by `amount` percent.
pub fn volume_down(amount: &str) -> (r: ShellCmd)
    ensures
        r.program@ == "amixer"@,
        r.args.deep_view() == seq!["set"@, "Master"@, amount@ + "%-"@],
{
    change_volume(amount, false)
}

/// Toggles the master mute state.
pub fn mute() -> (r: ShellCmd)
    ensures
        r.program@ == "amixer"@,
        r.args.deep_view() == seq!["-D"@, "pulse"@, "set"@, "Master"@, "1+"@, "toggle"@],
{
    let mut args: Vec<String> = Vec::new();
    args.push("-D".to_owned());
    args.push("pulse".to_owned());
    args.push("set".to_owned());
    args.push("Master".to_owned());
    args.push("1+".to_owned());
    args.push("toggle".to_owned());
    let r = ShellCmd { program: "amixer".to_owned(), args };
    proof {
        assert(r.args.deep_view() =~= seq![
            "-D"@,
            "pulse"@,
            "set"@,
            "Master"@,
            "1+"@,
            "toggle"@,
        ]);
    }
    r
}

/// One media-player control action.
pub fn playerctl(arg: &str) -> (r: ShellCmd)
    ensures
        r.program@ == "playerctl"@,
        r.args.deep_view() == seq![arg@],
{
    let mut args: Vec<String> = Vec::new();
    args.push(arg.to_owned());
    let r = ShellCmd { program: "playerctl".to_owned(), args };
    proof {
        assert(r.args.deep_view() =~= seq![arg@]);
    }
    r
}

/// Toggles between playing and paused.
pub fn play_pause() -> (r: ShellCmd)
    ensures
        r.program@ == "playerctl"@,
        r.args.deep_view() == seq!["play-pause"@],
{
    playerctl("play-pause")
}

/// Starts playback.
pub fn play() -> (r: ShellCmd)
    ensures
        r.program@ == "playerctl"@,
        r.args.deep_view() == seq!["play"@],
{
    playerctl("play")
}

/// Pauses playback.
pub fn pause() -> (r: ShellCmd)
    ensures
        r.program@ == "playerctl"@,
        r.args.deep_view() == seq!["pause"@],
{
    playerctl("pause")
}

/// Stops playback.
pub fn stop() -> (r: ShellCmd)
    ensures
        r.program@ == "playerctl"@,
        r.args.deep_view() == seq!["stop"@],
{
    playerctl("stop")
}

/// Skips to the next track.
pub fn next_track() -> (r: ShellCmd)
    ensures
        r.program@ == "playerctl"@,
        r.args.deep_view() == seq!["next"@],
{
    playerctl("next")
}

/// Returns to the previous track.
pub fn last_track() -> (r: ShellCmd)
    ensures
        r.program@ == "playerctl"@,
        r.args.deep_view() == seq!["previous"@],
{
    playerctl("previous")
}

/// One backlight adjustment step.
pub fn xbacklight(dir: &str, amount: &str) -> (r: ShellCmd)
    ensures
        r.program@ == "xbacklight"@,
        r.args.deep_view() == seq![dir@, amount@],
{
    let mut args: Vec<String> = Vec::new();
    args.push(dir.to_owned());
    args.push(amount.to_owned());
    let r = ShellCmd { program: "xbacklight".to_owned(), args };
    proof {
        assert(r.args.deep_view() =~= seq![dir@, amount@]);
    }
    r
}

/// Raises the backlight by `amount` percent.
pub fn inc_bright(amount: &str) -> (r: ShellCmd)
    ensures
        r.program@ == "xbacklight"@,
        r.args.deep_view() == seq!["-inc"@, amount@],
{
    xbacklight("-inc", amount)
}

/// Lowers the backlight by `amount` percent.
pub fn dec_bright(amount: &str) -> (r: ShellCmd)
    ensures
        r.program@ == "xbacklight"@,
        r.args.deep_view() == seq!["-dec"@, amount@],
{
    xbacklight("-dec", amount)
}

/// Enables an output at its preferred mode.
pub fn add_monitor(monitor: &str) -> (r: ShellCmd)
    ensures
        r.program@ == "xrandr"@,
        r.args.deep_view() == seq!["--output"@, monitor@, "--auto"@],
{
    let mut args: Vec<String> = Vec::new();
    args.push("--output".to_owned());
    args.push(monitor.to_owned());
    args.push("--auto".to_owned());
    let r = ShellCmd { program: "xrandr".to_owned(), args };
    proof {
        assert(r.args.deep_view() =~= seq!["--output"@, monitor@, "--auto"@]);
    }
    r
}

fn sysctl_cmd(program: &str, arg: &str) -> (r: ShellCmd)
    ensures
        r.program@ == program@,
        r.args.deep_view() == seq![arg@],
{
    let mut args: Vec<String> = Vec::new();
    args.push(arg.to_owned());
    let r = ShellCmd { program: program.to_owned(), args };
    proof {
        assert(r.args.deep_view() =~= seq![arg@]);
    }
    r
}

/// Powers the machine off.
pub fn power_off() -> (r: ShellCmd)
    ensures
        r.program@ == "systemctl"@,
        r.args.deep_view() == seq!["poweroff"@],
{
    sysctl_cmd("systemctl", "poweroff")
}

/// Hibernates the machine.
pub fn hibernate() -> (r: ShellCmd)
    ensures
        r.program@ == "systemctl"@,
        r.args.deep_view() == seq!["hibernate"@],
{
    sysctl_cmd("systemctl", "hibernate")
}

/// Reboots the machine.
pub fn reboot() -> (r: ShellCmd)
    ensures
        r.program@ == "systemctl"@,
        r.args.deep_view() == seq!["reboot"@],
{
    sysctl_cmd("systemctl", "reboot")
}

/// Suspends, then hibernates.
pub fn sleep() -> (r: ShellCmd)
    ensures
        r.program@ == "systemctl"@,
        r.args.deep_view() == seq!["suspend-then-hibernate"@],
{
    sysctl_cmd("systemctl", "suspend-then-hibernate")
}

/// Locks the session.
pub fn lock() -> (r: ShellCmd)
    ensures
        r.program@ == "loginctl"@,
        r.args.deep_view() == seq!["lock-session"@],
{
    sysctl_cmd("loginctl", "lock-session")
}

/// Ends the window-manager session.
pub fn logout() -> (r: ShellCmd)
    ensures
        r.program@ == "pkill"@,
        r.args.deep_view() == seq!["bspwm"@],
{
    sysctl_cmd("pkill", "bspwm")
}

/// Launches a program: a desktop entry goes through `gtk-launch`,
/// anything else runs detached through a shell.
pub fn open_program(program: &str) -> (r: ShellCmd)
    ensures
        if ends_with_spec(program@, ".desktop"@) {
            r.program@ == "gtk-launch"@ && r.args.deep_view() == seq![program@]
        } else {
            r.program@ == "sh"@ && r.args.deep_view() == seq![
                "-c"@,
                "coproc "@ + program@ + "; disown; exit"@,
            ]
        },
{
    proof {
        reveal_strlit(".desktop");
    }
    if ends_with(program, ".desktop") {
        let mut args: Vec<String> = Vec::new();
        args.push(program.to_owned());
        let r = ShellCmd { program: "gtk-launch".to_owned(), args };
        proof {
            assert(r.args.deep_view() =~= seq![program@]);
        }
        r
    } else {
        let line = concat_str(concat_str("coproc ", program).as_str(), "; disown; exit");
        let mut args: Vec<String> = Vec::new();
        args.push("-c".to_owned());
        args.push(line);
        let r = ShellCmd { program: "sh".to_owned(), args };
        proof {
            assert(r.args.deep_view() =~= seq![
                "-c"@,
                "coproc "@ + program@ + "; disown; exit"@,
            ]);
        }
        r
    }
}

} // verus!
