//! What the keyboard and the mouse that a server plays tell the board of themselves.

use vstd::prelude::*;

use crate::providers::provided;
use crate::registry::{Properties, NAME, PROVIDER, PROVIDER_NAME};

verus! {

/// Describes a keyboard to a board: eight modifiers, a byte that is always zero and six keys go
/// to the board, five lights come from it.
pub const KEYBOARD_DESC: [u8; 63] = [
    0x05, 0x01, 0x09, 0x06, 0xa1, 0x01, 0x05, 0x07, 0x19, 0xe0, 0x29, 0xe7, 0x15, 0x00,
    0x25, 0x01, 0x75, 0x01, 0x95, 0x08, 0x81, 0x02, 0x95, 0x01, 0x75, 0x08, 0x81, 0x03,
    0x95, 0x05, 0x75, 0x01, 0x05, 0x08, 0x19, 0x01, 0x29, 0x05, 0x91, 0x02, 0x95, 0x01,
    0x75, 0x03, 0x91, 0x03, 0x95, 0x06, 0x75, 0x08, 0x15, 0x00, 0x25, 0x65, 0x05, 0x07,
    0x19, 0x00, 0x29, 0x65, 0x81, 0x00, 0xc0,
];

/// Describes a mouse to a board: eight buttons, two absolute positions of two bytes each and two
/// wheels go to the board.
pub const MOUSE_DESC: [u8; 73] = [
    0x05, 0x01, 0x09, 0x02, 0xa1, 0x01, 0x09, 0x01, 0xa1, 0x00, 0x05, 0x09, 0x19, 0x01,
    0x29, 0x08, 0x15, 0x00, 0x25, 0x01, 0x95, 0x08, 0x75, 0x01, 0x81, 0x02, 0x05, 0x01,
    0x09, 0x30, 0x09, 0x31, 0x16, 0x00, 0x00, 0x26, 0xff, 0x7f, 0x75, 0x10, 0x95, 0x02,
    0x81, 0x02, 0x09, 0x38, 0x15, 0x81, 0x25, 0x7f, 0x75, 0x08, 0x95, 0x01, 0x81, 0x06,
    0x05, 0x0c, 0x0a, 0x38, 0x02, 0x15, 0x81, 0x25, 0x7f, 0x75, 0x08, 0x95, 0x01, 0x81,
    0x06, 0xc0, 0xc0,
];

/// Size of one input report of the mouse.
pub const MOUSE_DESC_INPUT_SIZE: usize = 7;

/// The properties of the keyboard that a server plays.
pub fn keyboard_properties(provider_name: &str) -> (r: Properties)
    ensures
        r.wf(),
        r@ == provided(
            Map::<Seq<char>, Seq<char>>::empty().insert(NAME@, "HID Keyboard"@),
            provider_name@,
            "hid_gadget"@,
        ),
{
    let mut properties = Properties::new("HID Keyboard");
    properties.insert(PROVIDER_NAME, provider_name);
    properties.insert(PROVIDER, "hid_gadget");
    properties
}

} // verus!
