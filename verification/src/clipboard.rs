//! Bytes as typed hexadecimal text, and bytes framed for the clipboard of
//! a terminal.

use vstd::prelude::*;

pub mod hex;
pub mod osc52;
pub mod round_trip;

pub use hex::{bytes_to_hex, hex_to_bytes, HexFormat};
pub use osc52::{build_osc52_sequence, terminal_sequence, wrap_for_screen, wrap_for_tmux};

verus! {

/// What can go wrong in a clipboard operation. A failure of the clipboard
/// backend or of the output stream is carried as its message.
#[derive(Debug)]
pub enum ClipboardError {
    /// The system clipboard failed.
    Arboard(String),
    /// Text that was to be read as hexadecimal is not valid.
    InvalidHex(String),
    /// Writing to the terminal failed.
    Io(String),
}

impl ClipboardError {
    /// The text of the error, as mathematical characters.
    pub open spec fn spec_message(self) -> Seq<char> {
        match self {
            ClipboardError::Arboard(detail) => "Clipboard error: "@ + detail@,
            ClipboardError::InvalidHex(detail) => "Invalid hex string: "@ + detail@,
            ClipboardError::Io(detail) => "IO error: "@ + detail@,
        }
    }

    /// The text of the error.
    pub fn message(&self) -> (text: String)
        ensures
            text@ == self.spec_message(),
    {
        match self {
            ClipboardError::Arboard(detail) => "Clipboard error: ".to_owned().concat(
                detail.as_str(),
            ),
            ClipboardError::InvalidHex(detail) => "Invalid hex string: ".to_owned().concat(
                detail.as_str(),
            ),
            ClipboardError::Io(detail) => "IO error: ".to_owned().concat(detail.as_str()),
        }
    }
}

/// What a copy to both clipboards reports. The system clipboard is the
/// one that counts: its result is reported as it is. The terminal is tried
/// as well, and a failure there changes nothing.
pub fn dual_copy_result<E>(system: Result<(), E>, terminal: Result<(), E>) -> (reported: Result<
    (),
    E,
>)
    ensures
        reported == system,
{
    let _ = terminal;
    system
}

} // verus!
