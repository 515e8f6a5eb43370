//! Errors of the byte source that the view reads from.

use crate::radix::{push_radix, radix_digits};
use vstd::prelude::*;

verus! {

/// What can go wrong in reading from the byte source. A failure of the
/// underlying storage is carried as its message.
#[derive(Debug)]
pub enum BufferError {
    /// The storage failed.
    Io(String),
    /// A position at or past the end of the buffer was asked for.
    OutOfBounds(usize),
}

impl BufferError {
    /// The text of the error, as mathematical characters.
    pub open spec fn spec_message(self) -> Seq<char> {
        match self {
            BufferError::Io(detail) => "IO error: "@ + detail@,
            BufferError::OutOfBounds(position) => "Position out of bounds: "@ + radix_digits(
                position as nat,
                10,
            ),
        }
    }

    /// The text of the error.
    pub fn message(&self) -> (text: String)
        ensures
            text@ == self.spec_message(),
    {
        match self {
            BufferError::Io(detail) => "IO error: ".to_owned().concat(detail.as_str()),
            BufferError::OutOfBounds(position) => {
                let mut text = "Position out of bounds: ".to_owned();
                push_radix(&mut text, *position, 10);
                text
            },
        }
    }
}

} // verus!
