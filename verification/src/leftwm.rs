//! The leftwm protocol translation: one-line text commands written to
//! the window manager's command pipe. Builders here produce the exact
//! command text; writing it to the pipe and launching programs are I/O
//! and live outside the library.

use vstd::prelude::*;
use crate::text::{concat_str, dec_int, parse_i32, parse_i32_spec, split_first, split_once_char};
use crate::wm_lib::Program;

verus! {

/// The command that sends the focused window to a tag.
pub fn move_to(args: &str) -> (r: String)
    ensures
        r@ == "SendWindowToTag "@ + args@,
{
    concat_str("SendWindowToTag ", args)
}

/// The command that closes the focused window.
pub fn close_focused() -> (r: String)
    ensures
        r@ == "CloseWindow"@,
{
    "CloseWindow".to_owned()
}

/// The command that sends the first workspace to a tag.
pub fn focus_on(args: &str) -> (r: String)
    ensures
        r@ == "SendWorkspaceToTag 0 "@ + args@,
{
    concat_str("SendWorkspaceToTag 0 ", args)
}

/// What `open-at` decides for leftwm: the argument string splits at its
/// first space into a decimal desktop number and a program; the command
/// focuses the zero-based tag and the program is launched after it.
/// Code 7 is a malformed argument string, code 2 a desktop that is not
/// a usable number.
pub fn open_on_desktop(args: &str) -> (r: Result<(String, String), u8>)
    ensures
        match split_first(args@, ' ') {
            None => r matches Err(e) && e == 7,
            Some(p) => match parse_i32_spec(p.0) {
                Some(i) => if i > i32::MIN {
                    r matches Ok(q) && q.0@ == "SendWorkspaceToTag 0 "@ + dec_int(i - 1) && q.1@
                        == p.1
                } else {
                    r matches Err(e) && e == 2
                },
                None => r matches Err(e) && e == 2,
            },
        },
{
    let (desktop, cmd) = match split_once_char(args, ' ') {
        Some(parts) => parts,
        None => {
            return Err(7);
        },
    };
    let i = match parse_i32(desktop.as_str()) {
        Some(i) => i,
        None => {
            return Err(2);
        },
    };
    if i == i32::MIN {
        // one step below the smallest tag number that can be represented
        return Err(2);
    }
    let tag = crate::text::i32_string(i - 1);
    let focus_cmd = focus_on(tag.as_str());
    Ok((focus_cmd, cmd))
}

/// The launch names and settle delays of a desktop's programs, in order.
pub fn get_progs(programs: &Vec<Program>) -> (r: Vec<(String, Option<u8>)>)
    ensures
        r@.len() == programs@.len(),
        forall|i: int| 0 <= i < r@.len() ==> (#[trigger] r@[i]).0@ == programs@[i].name@ && r@[i].1
            == programs@[i].delay,
{
    let n = programs.len();
    let mut progs: Vec<(String, Option<u8>)> = Vec::new();
    let mut i: usize = 0;
    while i < n
        invariant
            n == programs@.len(),
            i <= n,
            progs@.len() == i,
            forall|j: int| 0 <= j < i ==> (#[trigger] progs@[j]).0@ == programs@[j].name@
                && progs@[j].1 == programs@[j].delay,
        decreases n - i,
    {
        progs.push((programs[i].name.clone(), programs[i].delay));
        i = i + 1;
    }
    progs
}

} // verus!
