//! Display and transcoding core of a terminal hex viewer.
//!
//! The crate segments raw bytes into displayable units under a chosen
//! character encoding, renders a byte window as a hexadecimal/textual
//! dual-pane grid of styled cells and draws that grid into a terminal
//! buffer, and converts bytes to and from typed hexadecimal text and
//! terminal clipboard escape sequences. Every function carries a contract
//! that Verus proves; what rests on an outside library says so.

pub mod buffer;
pub mod clipboard;
pub mod encoding;
pub mod radix;
pub mod ui;
