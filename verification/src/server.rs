//! The command server's response framing and command splitting, and the
//! window-manager modes the server can run under. Reading commands from
//! the socket and writing responses back are I/O and live outside the
//! library.

use vstd::prelude::*;
use crate::text::{split_first, split_once_char};
use vstd::utf8::encode_utf8;

verus! {

/// The window manager the server found running, which decides how
/// commands are translated.
#[derive(PartialEq, Eq, Structural, Debug)]
pub enum WindowManager {
    Qtile,
    Bspwm,
    LeftWM,
    NoWM,
    Headless,
}

/// The wire form of a response: the error code, then one status byte
/// (7 for an error, 0 for success), then the message bytes, if any.
pub open spec fn payload_view(ec: u8, message: Option<Seq<char>>) -> Seq<u8> {
    let head = seq![ec, if ec > 0 { 7u8 } else { 0u8 }];
    match message {
        Some(m) => head + encode_utf8(m),
        None => head,
    }
}

/// Frames a response for the client.
pub fn make_payload(ec: u8, message: Option<String>) -> (r: Vec<u8>)
    ensures
        match message {
            Some(m) => r@ == payload_view(ec, Some(m@)),
            None => r@ == payload_view(ec, None),
        },
{
    let mut payload: Vec<u8> = Vec::new();
    payload.push(ec);
    payload.push(if ec > 0 { 7 } else { 0 });
    match message {
        Some(mesg) => {
            let mut bytes = mesg.as_str().as_bytes_vec();
            payload.append(&mut bytes);
            proof {
                assert(payload@ =~= payload_view(ec, Some(mesg@)));
            }
        },
        None => {
            proof {
                assert(payload@ =~= payload_view(ec, None));
            }
        },
    }
    payload
}

/// Splits a received command line at its first space into the command
/// name and the argument string; without a space the whole line is the
/// command and the arguments are empty.
pub fn split_cmd(command: &str) -> (r: (String, String))
    ensures
        match split_first(command@, ' ') {
            Some(p) => r.0@ == p.0 && r.1@ == p.1,
            None => r.0@ == command@ && r.1@ == Seq::<char>::empty(),
        },
{
    match split_once_char(command, ' ') {
        Some((cmd, args)) => (cmd, args),
        None => (command.to_owned(), String::new()),
    }
}

} // verus!
