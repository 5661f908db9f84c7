//! Keyboard, video and mouse of a device in a window: what keys and the pointer do, and what is
//! told to the other end.

use vstd::prelude::*;

use crate::bits::bit;
use crate::keyboard::{key_usage, KeyboardEvent};
use crate::media::{is_element, new_element, Element};
use crate::server::MouseInput;
use crate::sessions::{viewer_takes, MediaSignalMsg, ViewerStep};
use crate::status::Status;
use crate::text::{chars_of, occurs_at, starts_with, str_eq};

verus! {

/// The usage of a key that has a name.
pub open spec fn named_key(key: Seq<char>) -> Option<u8> {
    if key == "Return"@ || key == "KP_Enter"@ {
        Some(0x28)
    } else if key == "Escape"@ {
        Some(0x29)
    } else if key == "BackSpace"@ {
        Some(0x2A)
    } else if key == "Tab"@ || key == "ISO_Left_Tab"@ {
        Some(0x2B)
    } else if key == "space"@ {
        Some(0x2C)
    } else if key == "minus"@ || key == "underscore"@ {
        Some(0x2D)
    } else if key == "equal"@ || key == "plus"@ {
        Some(0x2E)
    } else if key == "bracketleft"@ || key == "braceleft"@ {
        Some(0x2F)
    } else if key == "bracketright"@ || key == "braceright"@ {
        Some(0x30)
    } else if key == "backslash"@ || key == "bar"@ {
        Some(0x31)
    } else if key == "numbersign"@ || key == "asciitilde"@ || key == "semicolon"@ || key == "colon"@ {
        Some(0x33)
    } else if key == "apostrophe"@ || key == "quotedbl"@ {
        Some(0x34)
    } else if key == "grave"@ {
        Some(0x35)
    } else if key == "comma"@ || key == "less"@ {
        Some(0x36)
    } else if key == "period"@ || key == "greater"@ {
        Some(0x37)
    } else if key == "slash"@ || key == "question"@ {
        Some(0x38)
    } else if key == "Caps_Lock"@ {
        Some(0x39)
    } else if key == "F1"@ {
        Some(0x3A)
    } else if key == "F2"@ {
        Some(0x3B)
    } else if key == "F3"@ {
        Some(0x3C)
    } else if key == "F4"@ {
        Some(0x3D)
    } else if key == "F5"@ {
        Some(0x3E)
    } else if key == "F6"@ {
        Some(0x3F)
    } else if key == "F7"@ {
        Some(0x40)
    } else if key == "F8"@ {
        Some(0x41)
    } else if key == "F9"@ {
        Some(0x42)
    } else if key == "F10"@ {
        Some(0x43)
    } else if key == "F11"@ {
        Some(0x44)
    } else if key == "F12"@ {
        Some(0x45)
    } else if key == "Print"@ || key == "Sys_Req"@ {
        Some(0x46)
    } else if key == "Scroll_Lock"@ {
        Some(0x47)
    } else if key == "Pause"@ || key == "Break"@ {
        Some(0x48)
    } else if key == "Insert"@ {
        Some(0x49)
    } else if key == "Home"@ {
        Some(0x4A)
    } else if key == "Prior"@ || key == "Page_Up"@ {
        Some(0x4B)
    } else if key == "Delete"@ {
        Some(0x4C)
    } else if key == "End"@ {
        Some(0x4D)
    } else if key == "Next"@ || key == "Page_Down"@ {
        Some(0x4E)
    } else if key == "Right"@ {
        Some(0x4F)
    } else if key == "Left"@ {
        Some(0x50)
    } else if key == "Down"@ {
        Some(0x51)
    } else if key == "Up"@ {
        Some(0x52)
    } else if key == "Num_Lock"@ {
        Some(0x53)
    } else if key == "KP_Divide"@ {
        Some(0x54)
    } else if key == "KP_Multiply"@ {
        Some(0x55)
    } else if key == "KP_Subtract"@ {
        Some(0x56)
    } else if key == "KP_Add"@ {
        Some(0x57)
    } else if key == "KP_0"@ {
        Some(0x62)
    } else if key == "KP_1"@ {
        Some(0x59)
    } else if key == "KP_2"@ {
        Some(0x5A)
    } else if key == "KP_3"@ {
        Some(0x5B)
    } else if key == "KP_4"@ {
        Some(0x5C)
    } else if key == "KP_5"@ {
        Some(0x5D)
    } else if key == "KP_6"@ {
        Some(0x5E)
    } else if key == "KP_7"@ {
        Some(0x5F)
    } else if key == "KP_8"@ {
        Some(0x60)
    } else if key == "KP_9"@ {
        Some(0x61)
    } else if key == "KP_Decimal"@ || key == "KP_Separator"@ {
        Some(0x63)
    } else if key == "Control_L"@ {
        Some(0xE0)
    } else if key == "Shift_L"@ {
        Some(0xE1)
    } else if key == "Alt_L"@ {
        Some(0xE2)
    } else if key == "Super_L"@ || key == "Meta_L"@ {
        Some(0xE3)
    } else if key == "Control_R"@ {
        Some(0xE4)
    } else if key == "Shift_R"@ {
        Some(0xE5)
    } else if key == "Alt_R"@ {
        Some(0xE6)
    } else if key == "Super_R"@ || key == "Meta_R"@ {
        Some(0xE7)
    } else {
        None
    }
}

/// The usage of a key that is named by what it writes.
pub open spec fn written_key(c: char) -> Option<u8> {
    if 'a' <= c && c <= 'z' {
        Some((0x04 + (c as u32 - 'a' as u32)) as u8)
    } else if 'A' <= c && c <= 'Z' {
        Some((0x04 + (c as u32 - 'A' as u32)) as u8)
    } else if '1' <= c && c <= '9' {
        Some((0x1e + (c as u32 - '1' as u32)) as u8)
    } else if c == '0' {
        Some(0x27)
    } else if c == ' ' {
        Some(0x2c)
    } else {
        None
    }
}

/// The usage on the keyboard page of a key by its name.
pub open spec fn key_usage_of(key: Seq<char>) -> Option<u8> {
    if key.len() == 1 && written_key(key[0]) is Some {
        written_key(key[0])
    } else {
        named_key(key)
    }
}

/// The usage on the keyboard page of a key by the name that the window system gives it, if it
/// is known.
pub fn key_name_to_hid(key: &str) -> (r: Option<u8>)
    ensures
        r == key_usage_of(key@),
{
    let chars = chars_of(key);
    if chars.len() == 1 {
        let c = chars[0];
        if 'a' <= c && c <= 'z' {
            return Some((0x04 + (c as u32 - 'a' as u32)) as u8);
        }
        if 'A' <= c && c <= 'Z' {
            return Some((0x04 + (c as u32 - 'A' as u32)) as u8);
        }
        if '1' <= c && c <= '9' {
            return Some((0x1e + (c as u32 - '1' as u32)) as u8);
        }
        if c == '0' {
            return Some(0x27);
        }
        if c == ' ' {
            return Some(0x2c);
        }
    }
    if str_eq(key, "Return") || str_eq(key, "KP_Enter") {
        Some(0x28)
    } else if str_eq(key, "Escape") {
        Some(0x29)
    } else if str_eq(key, "BackSpace") {
        Some(0x2A)
    } else if str_eq(key, "Tab") || str_eq(key, "ISO_Left_Tab") {
        Some(0x2B)
    } else if str_eq(key, "space") {
        Some(0x2C)
    } else if str_eq(key, "minus") || str_eq(key, "underscore") {
        Some(0x2D)
    } else if str_eq(key, "equal") || str_eq(key, "plus") {
        Some(0x2E)
    } else if str_eq(key, "bracketleft") || str_eq(key, "braceleft") {
        Some(0x2F)
    } else if str_eq(key, "bracketright") || str_eq(key, "braceright") {
        Some(0x30)
    } else if str_eq(key, "backslash") || str_eq(key, "bar") {
        Some(0x31)
    } else if str_eq(key, "numbersign") || str_eq(key, "asciitilde") || str_eq(key, "semicolon") || str_eq(key, "colon") {
        Some(0x33)
    } else if str_eq(key, "apostrophe") || str_eq(key, "quotedbl") {
        Some(0x34)
    } else if str_eq(key, "grave") {
        Some(0x35)
    } else if str_eq(key, "comma") || str_eq(key, "less") {
        Some(0x36)
    } else if str_eq(key, "period") || str_eq(key, "greater") {
        Some(0x37)
    } else if str_eq(key, "slash") || str_eq(key, "question") {
        Some(0x38)
    } else if str_eq(key, "Caps_Lock") {
        Some(0x39)
    } else if str_eq(key, "F1") {
        Some(0x3A)
    } else if str_eq(key, "F2") {
        Some(0x3B)
    } else if str_eq(key, "F3") {
        Some(0x3C)
    } else if str_eq(key, "F4") {
        Some(0x3D)
    } else if str_eq(key, "F5") {
        Some(0x3E)
    } else if str_eq(key, "F6") {
        Some(0x3F)
    } else if str_eq(key, "F7") {
        Some(0x40)
    } else if str_eq(key, "F8") {
        Some(0x41)
    } else if str_eq(key, "F9") {
        Some(0x42)
    } else if str_eq(key, "F10") {
        Some(0x43)
    } else if str_eq(key, "F11") {
        Some(0x44)
    } else if str_eq(key, "F12") {
        Some(0x45)
    } else if str_eq(key, "Print") || str_eq(key, "Sys_Req") {
        Some(0x46)
    } else if str_eq(key, "Scroll_Lock") {
        Some(0x47)
    } else if str_eq(key, "Pause") || str_eq(key, "Break") {
        Some(0x48)
    } else if str_eq(key, "Insert") {
        Some(0x49)
    } else if str_eq(key, "Home") {
        Some(0x4A)
    } else if str_eq(key, "Prior") || str_eq(key, "Page_Up") {
        Some(0x4B)
    } else if str_eq(key, "Delete") {
        Some(0x4C)
    } else if str_eq(key, "End") {
        Some(0x4D)
    } else if str_eq(key, "Next") || str_eq(key, "Page_Down") {
        Some(0x4E)
    } else if str_eq(key, "Right") {
        Some(0x4F)
    } else if str_eq(key, "Left") {
        Some(0x50)
    } else if str_eq(key, "Down") {
        Some(0x51)
    } else if str_eq(key, "Up") {
        Some(0x52)
    } else if str_eq(key, "Num_Lock") {
        Some(0x53)
    } else if str_eq(key, "KP_Divide") {
        Some(0x54)
    } else if str_eq(key, "KP_Multiply") {
        Some(0x55)
    } else if str_eq(key, "KP_Subtract") {
        Some(0x56)
    } else if str_eq(key, "KP_Add") {
        Some(0x57)
    } else if str_eq(key, "KP_0") {
        Some(0x62)
    } else if str_eq(key, "KP_1") {
        Some(0x59)
    } else if str_eq(key, "KP_2") {
        Some(0x5A)
    } else if str_eq(key, "KP_3") {
        Some(0x5B)
    } else if str_eq(key, "KP_4") {
        Some(0x5C)
    } else if str_eq(key, "KP_5") {
        Some(0x5D)
    } else if str_eq(key, "KP_6") {
        Some(0x5E)
    } else if str_eq(key, "KP_7") {
        Some(0x5F)
    } else if str_eq(key, "KP_8") {
        Some(0x60)
    } else if str_eq(key, "KP_9") {
        Some(0x61)
    } else if str_eq(key, "KP_Decimal") || str_eq(key, "KP_Separator") {
        Some(0x63)
    } else if str_eq(key, "Control_L") {
        Some(0xE0)
    } else if str_eq(key, "Shift_L") {
        Some(0xE1)
    } else if str_eq(key, "Alt_L") {
        Some(0xE2)
    } else if str_eq(key, "Super_L") || str_eq(key, "Meta_L") {
        Some(0xE3)
    } else if str_eq(key, "Control_R") {
        Some(0xE4)
    } else if str_eq(key, "Shift_R") {
        Some(0xE5)
    } else if str_eq(key, "Alt_R") {
        Some(0xE6)
    } else if str_eq(key, "Super_R") || str_eq(key, "Meta_R") {
        Some(0xE7)
    } else {
        None
    }
}

/// Every known name is that of an ordinary key or of a modifier.
pub proof fn law_known_keys_are_keys(key: Seq<char>)
    ensures
        key_usage_of(key) matches Some(usage) ==> key_usage(usage) || 0xe0 <= usage <= 0xe7,
{
}

/// A letter is on one key, whatever its case.
pub proof fn law_letters_share_keys(lower: char, upper: char)
    requires
        'a' <= lower,
        lower <= 'z',
        upper as u32 + 32 == lower as u32,
    ensures
        key_usage_of(seq![lower]) == key_usage_of(seq![upper]),
        key_usage_of(seq![lower]) is Some,
{
    assert(seq![lower][0] == lower);
    assert(seq![upper][0] == upper);
}

/// What the window tells, with positions that are scaled to the range of the pointer.
#[derive(Debug)]
pub struct NavStructure {
    /// What happened.
    pub event: Option<String>,
    /// The key.
    pub key: Option<String>,
    /// The button.
    pub button: Option<i32>,
    /// Where the pointer is.
    pub position: Option<(i16, i16)>,
    /// How far was scrolled across.
    pub delta_x: i8,
    /// How far was scrolled down.
    pub delta_y: i8,
}

/// What happened in the window.
#[derive(Debug)]
pub enum NavEvent {
    /// A key was pressed.
    KeyPress(String),
    /// A key was released.
    KeyRelease(String),
    /// The pointer was moved.
    MouseMove { x: i16, y: i16 },
    /// A button was pressed.
    MouseButtonPress { button: u8, x: i16, y: i16 },
    /// A button was released.
    MouseButtonRelease { button: u8, x: i16, y: i16 },
    /// The wheel was turned.
    MouseScroll { x: i16, y: i16, delta_x: i8, delta_y: i8 },
}

/// The bit of the report for a button of the window system, whose number counts up to 255.
pub open spec fn button_bit(button: u8) -> Option<u8> {
    if button == 1 {
        Some(0)
    } else if button == 3 {
        Some(1)
    } else if button == 2 {
        Some(2)
    } else if button == 8 {
        Some(3)
    } else if button == 9 {
        Some(4)
    } else {
        None
    }
}

/// How far a button that stands for the wheel scrolls, across and down.
pub open spec fn button_scroll(button: u8) -> Option<(i8, i8)> {
    if button == 4 {
        Some((0, 1))
    } else if button == 5 {
        Some((0, -1i8))
    } else if button == 6 {
        Some((1, 0))
    } else if button == 7 {
        Some((-1i8, 0))
    } else {
        None
    }
}

/// The low byte of a button's number.
pub open spec fn low_byte(n: i32) -> u8 {
    (n % 256) as u8
}

/// What happened in the window, as far as it is of interest.
pub open spec fn navigation(s: NavStructure) -> Option<NavEvent> {
    match s.event {
        None => None,
        Some(event) => if event@ == "key-press"@ {
            match s.key {
                Some(key) => Some(NavEvent::KeyPress(key)),
                None => None,
            }
        } else if event@ == "key-release"@ {
            match s.key {
                Some(key) => Some(NavEvent::KeyRelease(key)),
                None => None,
            }
        } else if event@ == "mouse-move"@ {
            match s.position {
                Some((x, y)) => Some(NavEvent::MouseMove { x, y }),
                None => None,
            }
        } else if event@ == "mouse-button-press"@ {
            match (s.button, s.position) {
                (Some(button), Some((x, y))) => match (
                    button_bit(low_byte(button)),
                    button_scroll(low_byte(button)),
                ) {
                    (Some(button), _) => Some(NavEvent::MouseButtonPress { button, x, y }),
                    (_, Some((delta_x, delta_y))) => Some(
                        NavEvent::MouseScroll { x, y, delta_x, delta_y },
                    ),
                    _ => None,
                },
                _ => None,
            }
        } else if event@ == "mouse-button-release"@ {
            match (s.button, s.position) {
                (Some(button), Some((x, y))) => match button_bit(low_byte(button)) {
                    Some(button) => Some(NavEvent::MouseButtonRelease { button, x, y }),
                    None => None,
                },
                _ => None,
            }
        } else if event@ == "mouse-scroll"@ {
            match s.position {
                Some((x, y)) => Some(
                    NavEvent::MouseScroll { x, y, delta_x: s.delta_x, delta_y: s.delta_y },
                ),
                None => None,
            }
        } else {
            None
        },
    }
}

/// What happened in the window, as far as it is of interest.
pub fn parse_navigation_structure(s: NavStructure) -> (r: Option<NavEvent>)
    ensures
        r == navigation(s),
{
    let event = match s.event {
        Some(event) => event,
        None => {
            return None;
        },
    };
    if str_eq(event.as_str(), "key-press") {
        match s.key {
            Some(key) => Some(NavEvent::KeyPress(key)),
            None => None,
        }
    } else if str_eq(event.as_str(), "key-release") {
        match s.key {
            Some(key) => Some(NavEvent::KeyRelease(key)),
            None => None,
        }
    } else if str_eq(event.as_str(), "mouse-move") {
        match s.position {
            Some((x, y)) => Some(NavEvent::MouseMove { x, y }),
            None => None,
        }
    } else if str_eq(event.as_str(), "mouse-button-press") {
        match (s.button, s.position) {
            (Some(button), Some((x, y))) => press_of(low(button), x, y),
            _ => None,
        }
    } else if str_eq(event.as_str(), "mouse-button-release") {
        match (s.button, s.position) {
            (Some(button), Some((x, y))) => match bit_of(low(button)) {
                Some(button) => Some(NavEvent::MouseButtonRelease { button, x, y }),
                None => None,
            },
            _ => None,
        }
    } else if str_eq(event.as_str(), "mouse-scroll") {
        match s.position {
            Some((x, y)) => Some(
                NavEvent::MouseScroll { x, y, delta_x: s.delta_x, delta_y: s.delta_y },
            ),
            None => None,
        }
    } else {
        None
    }
}

fn low(n: i32) -> (r: u8)
    ensures
        r == low_byte(n),
{
    #[verifier::truncate]
    let r: u8 = n as u8;
    assert(n as u8 == (n % 256) as u8) by (bit_vector);
    r
}

fn bit_of(button: u8) -> (r: Option<u8>)
    ensures
        r == button_bit(button),
{
    match button {
        1 => Some(0),
        3 => Some(1),
        2 => Some(2),
        8 => Some(3),
        9 => Some(4),
        _ => None,
    }
}

fn press_of(button: u8, x: i16, y: i16) -> (r: Option<NavEvent>)
    ensures
        r == match (button_bit(button), button_scroll(button)) {
            (Some(button), _) => Some(NavEvent::MouseButtonPress { button, x, y }),
            (_, Some((delta_x, delta_y))) => Some(
                NavEvent::MouseScroll { x, y, delta_x, delta_y },
            ),
            _ => None,
        },
{
    match bit_of(button) {
        Some(button) => Some(NavEvent::MouseButtonPress { button, x, y }),
        None => match button {
            4 => Some(NavEvent::MouseScroll { x, y, delta_x: 0, delta_y: 1 }),
            5 => Some(NavEvent::MouseScroll { x, y, delta_x: 0, delta_y: -1 }),
            6 => Some(NavEvent::MouseScroll { x, y, delta_x: 1, delta_y: 0 }),
            7 => Some(NavEvent::MouseScroll { x, y, delta_x: -1, delta_y: 0 }),
            _ => None,
        },
    }
}

/// Whether these are the buttons after one was pressed or released.
pub open spec fn is_button_set(before: u8, after: u8, button: u8, pressed: bool) -> bool {
    forall|i: int|
        0 <= i < 8 ==> #[trigger] bit(after, i) == if i == button {
            if pressed {
                1u8
            } else {
                0u8
            }
        } else {
            bit(before, i)
        }
}

/// Notes a button that was pressed or released, one bit each.
pub fn set_mouse_button(buttons: &mut u8, button: u8, pressed: bool)
    requires
        button < 8,
    ensures
        is_button_set(*old(buttons), *final(buttons), button, pressed),
{
    let before: u8 = *buttons;
    if pressed {
        *buttons = before | (1u8 << button);
    } else {
        *buttons = before & !(1u8 << button);
    }
    let after: u8 = *buttons;
    assert forall|i: int| 0 <= i < 8 implies #[trigger] bit(after, i) == if i == button {
        if pressed {
            1u8
        } else {
            0u8
        }
    } else {
        bit(before, i)
    } by {
        let k = i as u8;
        if pressed {
            assert(((before | (1u8 << button)) >> k) & 1 == if k == button {
                1u8
            } else {
                (before >> k) & 1
            }) by (bit_vector)
                requires
                    button < 8,
                    k < 8,
            ;
        } else {
            assert(((before & !(1u8 << button)) >> k) & 1 == if k == button {
                0u8
            } else {
                (before >> k) & 1
            }) by (bit_vector)
                requires
                    button < 8,
                    k < 8,
            ;
        }
    }
}

/// What is sent to the device.
#[derive(Copy, Clone, Debug, PartialEq, Eq, Structural)]
pub enum HidEvent {
    /// To its keyboard.
    Key(KeyboardEvent),
    /// To its mouse.
    Mouse(MouseInput),
}

/// The report of a pointer.
pub open spec fn report(buttons: u8, x: i16, y: i16, wheel: i8, hwheel: i8) -> HidEvent {
    HidEvent::Mouse(MouseInput { buttons, x, y, wheel, hwheel })
}

/// What an event in the window sends to the device, with the buttons as they are then.
pub open spec fn sent_on(event: NavEvent, buttons: u8) -> Option<HidEvent> {
    match event {
        NavEvent::KeyPress(key) => match key_usage_of(key@) {
            Some(id) => Some(HidEvent::Key(KeyboardEvent::Down(id))),
            None => None,
        },
        NavEvent::KeyRelease(key) => match key_usage_of(key@) {
            Some(id) => Some(HidEvent::Key(KeyboardEvent::Up(id))),
            None => None,
        },
        NavEvent::MouseMove { x, y } => Some(report(buttons, x, y, 0, 0)),
        NavEvent::MouseButtonPress { button, x, y } => Some(report(buttons, x, y, 0, 0)),
        NavEvent::MouseButtonRelease { button, x, y } => Some(report(buttons, x, y, 0, 0)),
        NavEvent::MouseScroll { x, y, delta_x, delta_y } => Some(
            report(buttons, x, y, delta_y, delta_x),
        ),
    }
}

/// What an event in the window does.
pub fn handle_nav_event(event: NavEvent, buttons: &mut u8) -> (r: Option<HidEvent>)
    requires
        event matches NavEvent::MouseButtonPress { button, x, y } ==> button < 8,
        event matches NavEvent::MouseButtonRelease { button, x, y } ==> button < 8,
    ensures
        r == sent_on(event, *final(buttons)),
        match event {
            NavEvent::MouseButtonPress { button, x, y } => is_button_set(
                *old(buttons),
                *final(buttons),
                button,
                true,
            ),
            NavEvent::MouseButtonRelease { button, x, y } => is_button_set(
                *old(buttons),
                *final(buttons),
                button,
                false,
            ),
            _ => *final(buttons) == *old(buttons),
        },
{
    match event {
        NavEvent::KeyPress(key) => match key_name_to_hid(key.as_str()) {
            Some(id) => Some(HidEvent::Key(KeyboardEvent::Down(id))),
            None => None,
        },
        NavEvent::KeyRelease(key) => match key_name_to_hid(key.as_str()) {
            Some(id) => Some(HidEvent::Key(KeyboardEvent::Up(id))),
            None => None,
        },
        NavEvent::MouseMove { x, y } => Some(
            HidEvent::Mouse(MouseInput { buttons: *buttons, x, y, wheel: 0, hwheel: 0 }),
        ),
        NavEvent::MouseButtonPress { button, x, y } => {
            set_mouse_button(buttons, button, true);
            Some(HidEvent::Mouse(MouseInput { buttons: *buttons, x, y, wheel: 0, hwheel: 0 }))
        },
        NavEvent::MouseButtonRelease { button, x, y } => {
            set_mouse_button(buttons, button, false);
            Some(HidEvent::Mouse(MouseInput { buttons: *buttons, x, y, wheel: 0, hwheel: 0 }))
        },
        NavEvent::MouseScroll { x, y, delta_x, delta_y } => Some(
            HidEvent::Mouse(
                MouseInput { buttons: *buttons, x, y, wheel: delta_y, hwheel: delta_x },
            ),
        ),
    }
}

/// A button that is pressed and released leaves all buttons as they were, if it was up before.
pub proof fn law_click_is_undone(before: u8, between: u8, after: u8, button: u8)
    requires
        button < 8,
        bit(before, button as int) == 0,
        is_button_set(before, between, button, true),
        is_button_set(between, after, button, false),
    ensures
        after == before,
        bit(between, button as int) == 1,
{
    assert forall|i: int| 0 <= i < 8 implies #[trigger] bit(after, i) == bit(before, i) by {
        assert(bit(after, i) == bit(after, i));
        assert(bit(between, i) == bit(between, i));
    }
    crate::bits::law_bits_make_value(after);
    crate::bits::law_bits_make_value(before);
}

/// What comes from the pipeline that shows the video.
#[derive(Debug)]
pub enum BusMessage {
    /// The video is over, or failed.
    Ended,
    /// Something happened in the window.
    Navigation(NavStructure),
    /// Anything else.
    Other,
}

/// What a message of the pipeline leads to.
#[derive(Debug)]
pub enum BusStep {
    /// Stop the pipeline.
    Stop,
    /// Send this to the device.
    Send(HidEvent),
    /// Nothing.
    Ignore,
}

/// The keyboard and the mouse of a device that is shown.
#[derive(Debug)]
pub struct KvmInput {
    /// The buttons that are down, one bit each.
    pub buttons: u8,
    /// Whether there is a keyboard.
    pub keyboard: bool,
    /// Whether there is a mouse.
    pub mouse: bool,
}

impl KvmInput {
    /// Whether there is something to send the event to.
    pub open spec fn takes(self, event: HidEvent) -> bool {
        match event {
            HidEvent::Key(_) => self.keyboard,
            HidEvent::Mouse(_) => self.mouse,
        }
    }

    /// What there is to send to, with no button down.
    pub fn new(keyboard: bool, mouse: bool) -> (r: Self)
        ensures
            r == (KvmInput { buttons: 0, keyboard, mouse }),
    {
        KvmInput { buttons: 0, keyboard, mouse }
    }

    /// Gives up what an event could not be sent to.
    pub fn not_sent(&mut self, event: HidEvent)
        ensures
            *final(self) == match event {
                HidEvent::Key(_) => KvmInput { keyboard: false, ..*old(self) },
                HidEvent::Mouse(_) => KvmInput { mouse: false, ..*old(self) },
            },
    {
        match event {
            HidEvent::Key(_) => {
                self.keyboard = false;
            },
            HidEvent::Mouse(_) => {
                self.mouse = false;
            },
        }
    }

    /// What a message of the pipeline leads to.
    pub fn on_message(&mut self, message: BusMessage) -> (r: BusStep)
        ensures
            final(self).keyboard == old(self).keyboard,
            final(self).mouse == old(self).mouse,
            match message {
                BusMessage::Ended => r is Stop && *final(self) == *old(self),
                BusMessage::Other => r is Ignore && *final(self) == *old(self),
                BusMessage::Navigation(s) => {
                    &&& match navigation(s) {
                        Some(NavEvent::MouseButtonPress { button, x, y }) => is_button_set(
                            old(self).buttons,
                            final(self).buttons,
                            button,
                            true,
                        ),
                        Some(NavEvent::MouseButtonRelease { button, x, y }) => is_button_set(
                            old(self).buttons,
                            final(self).buttons,
                            button,
                            false,
                        ),
                        _ => final(self).buttons == old(self).buttons,
                    }
                    &&& match navigation(s) {
                        Some(event) => match sent_on(event, final(self).buttons) {
                            Some(sent) => if old(self).takes(sent) {
                                r == BusStep::Send(sent)
                            } else {
                                r is Ignore
                            },
                            None => r is Ignore,
                        },
                        None => r is Ignore,
                    }
                },
            },
    {
        match message {
            BusMessage::Ended => BusStep::Stop,
            BusMessage::Other => BusStep::Ignore,
            BusMessage::Navigation(s) => match parse_navigation_structure(s) {
                Some(event) => match handle_nav_event(event, &mut self.buttons) {
                    Some(sent) => {
                        let wanted = match sent {
                            HidEvent::Key(_) => self.keyboard,
                            HidEvent::Mouse(_) => self.mouse,
                        };
                        if wanted {
                            BusStep::Send(sent)
                        } else {
                            BusStep::Ignore
                        }
                    },
                    None => BusStep::Ignore,
                },
                None => BusStep::Ignore,
            },
        }
    }
}

/// What happens while a video is shown.
#[derive(Debug)]
pub enum KvmEvent {
    /// The answer to an offer was made.
    AnswerMade(String),
    /// A way to be reached was found.
    CandidateFound(String, u32),
    /// The server sent a signal.
    Signal(MediaSignalMsg),
    /// What was sent last did not reach the server.
    NotSent(Status),
    /// The server reported an error.
    Failed(Status),
    /// The server ended the session.
    Ended,
}

/// What to do then.
#[derive(Debug)]
pub enum KvmAction {
    /// Send the answer.
    SendAnswer(String),
    /// Send the way to be reached.
    SendIce(String, u32),
    /// As a viewer does.
    View(ViewerStep),
    /// Give up with the error.
    Fail(Status),
    /// Stop the pipeline and be done.
    Stop,
}

/// What to do while a video is shown.
pub fn run_kvm(event: KvmEvent) -> (r: KvmAction)
    ensures
        r == match event {
            KvmEvent::AnswerMade(sdp) => KvmAction::SendAnswer(sdp),
            KvmEvent::CandidateFound(candidate, index) => KvmAction::SendIce(candidate, index),
            KvmEvent::Signal(MediaSignalMsg::Offer(sdp)) => KvmAction::View(
                ViewerStep::MakeAnswer(sdp),
            ),
            KvmEvent::Signal(MediaSignalMsg::Ice(candidate, index)) => KvmAction::View(
                ViewerStep::AddCandidate(candidate, index),
            ),
            KvmEvent::Signal(MediaSignalMsg::Answer(_)) => KvmAction::View(ViewerStep::Ignore),
            KvmEvent::NotSent(status) => KvmAction::Fail(status),
            KvmEvent::Failed(status) => KvmAction::Fail(status),
            KvmEvent::Ended => KvmAction::Stop,
        },
{
    match event {
        KvmEvent::AnswerMade(sdp) => KvmAction::SendAnswer(sdp),
        KvmEvent::CandidateFound(candidate, index) => KvmAction::SendIce(candidate, index),
        KvmEvent::Signal(signal) => KvmAction::View(viewer_takes(signal)),
        KvmEvent::NotSent(status) => KvmAction::Fail(status),
        KvmEvent::Failed(status) => KvmAction::Fail(status),
        KvmEvent::Ended => KvmAction::Stop,
    }
}

/// What the receiving end of a video is set to.
pub open spec fn receiver_properties(stun_server: Seq<char>) -> Seq<(Seq<char>, Seq<char>)> {
    let fixed = seq![
        ("name"@, "recvbin"@),
        ("bundle-policy"@, "max-bundle"@),
        ("latency"@, "16"@),
    ];
    if stun_server.len() == 0 {
        fixed
    } else {
        fixed.push(("stun-server"@, stun_server))
    }
}

/// The receiving end of a video.
pub fn build_receive_pipeline(stun_server: &str) -> (r: Element)
    ensures
        is_element(r, "webrtcbin"@, receiver_properties(stun_server@)),
{
    let mut r = new_element("webrtcbin");
    r.properties.push(("name", "recvbin".to_owned()));
    r.properties.push(("bundle-policy", "max-bundle".to_owned()));
    r.properties.push(("latency", "16".to_owned()));
    if chars_of(stun_server).len() > 0 {
        r.properties.push(("stun-server", stun_server.to_owned()));
    }
    r
}

/// The elements that decode a stream, each feeding the next.
pub open spec fn decoding_chain() -> Seq<Seq<char>> {
    seq!["queue"@, "rtph264depay"@, "h264parse"@, "decodebin"@]
}

/// The elements that show what was decoded, each feeding the next.
pub open spec fn showing_chain() -> Seq<Seq<char>> {
    seq!["videoconvert"@, "autovideosink"@]
}

/// What is put behind a pad of the receiving end.
#[derive(Debug)]
pub struct StreamElements {
    /// What decodes the stream, started at once.
    pub decode: Vec<Element>,
    /// What shows it, started once there is something to show.
    pub show: Vec<Element>,
}

/// Whether these are the elements of the chain, the last of them set to these values.
pub open spec fn is_chain(
    elements: Seq<Element>,
    chain: Seq<Seq<char>>,
    last: Seq<(Seq<char>, Seq<char>)>,
) -> bool {
    &&& elements.len() == chain.len()
    &&& forall|i: int|
        0 <= i < chain.len() ==> is_element(
            #[trigger] elements[i],
            chain[i],
            if i == chain.len() - 1 {
                last
            } else {
                Seq::empty()
            },
        )
}

/// What to put behind a new pad of the receiving end: nothing, unless a stream comes out of it.
/// Pictures are shown as they come.
pub fn on_pad(is_source: bool) -> (r: Option<StreamElements>)
    ensures
        match r {
            Some(elements) => {
                &&& is_source
                &&& is_chain(elements.decode@, decoding_chain(), Seq::empty())
                &&& is_chain(elements.show@, showing_chain(), seq![("sync"@, "false"@)])
            },
            None => !is_source,
        },
{
    if !is_source {
        return None;
    }
    let mut decode: Vec<Element> = Vec::new();
    decode.push(new_element("queue"));
    decode.push(new_element("rtph264depay"));
    decode.push(new_element("h264parse"));
    decode.push(new_element("decodebin"));
    let mut show: Vec<Element> = Vec::new();
    show.push(new_element("videoconvert"));
    let mut sink = new_element("autovideosink");
    sink.properties.push(("sync", "false".to_owned()));
    show.push(sink);
    Some(StreamElements { decode, show })
}

/// The size of the pictures in a window, as far as it is known.
pub fn picture_size(known: Option<(u32, u32)>) -> (r: (u32, u32))
    ensures
        r == match known {
            Some(size) => size,
            None => (1920u32, 1080u32),
        },
{
    match known {
        Some(size) => size,
        None => (1920, 1080),
    }
}

/// Whether a message of the window tells of a key or of the pointer.
pub fn is_navigation(name: &str) -> (r: bool)
    ensures
        r == (name@ == "GstNavigationMessage"@),
{
    str_eq(name, "GstNavigationMessage")
}

/// Whether what was decoded is to be shown: it is raw video, and nothing is shown yet.
pub fn shows_pad(caps: &Vec<String>, linked: bool) -> (r: bool)
    ensures
        r == (!linked && exists|i: int|
            0 <= i < caps@.len() && occurs_at(#[trigger] caps@[i]@, "video/x-raw"@, 0)),
{
    if linked {
        return false;
    }
    for i in 0..caps.len()
        invariant
            !linked,
            forall|j: int| 0 <= j < i ==> !occurs_at(#[trigger] caps@[j]@, "video/x-raw"@, 0),
    {
        if starts_with(caps[i].as_str(), "video/x-raw") {
            assert(occurs_at(caps@[i as int]@, "video/x-raw"@, 0));
            return true;
        }
    }
    false
}

/// No two keys with different places share a name: whatever is at a place has one of its names.
pub proof fn law_places_of_keys(key: Seq<char>, usage: u8)
    requires
        key_usage_of(key) == Some(usage),
    ensures
        usage == 40 ==> key == "Return"@ || key == "KP_Enter"@,
        usage == 41 ==> key == "Escape"@,
        usage == 42 ==> key == "BackSpace"@,
        usage == 43 ==> key == "Tab"@ || key == "ISO_Left_Tab"@,
        usage == 45 ==> key == "minus"@ || key == "underscore"@,
        usage == 46 ==> key == "equal"@ || key == "plus"@,
        usage == 47 ==> key == "bracketleft"@ || key == "braceleft"@,
        usage == 48 ==> key == "bracketright"@ || key == "braceright"@,
        usage == 49 ==> key == "backslash"@ || key == "bar"@,
        usage == 51 ==> key == "numbersign"@ || key == "asciitilde"@ || key == "semicolon"@ || key
            == "colon"@,
        usage == 52 ==> key == "apostrophe"@ || key == "quotedbl"@,
        usage == 53 ==> key == "grave"@,
        usage == 54 ==> key == "comma"@ || key == "less"@,
        usage == 55 ==> key == "period"@ || key == "greater"@,
        usage == 56 ==> key == "slash"@ || key == "question"@,
        usage == 57 ==> key == "Caps_Lock"@,
        usage == 58 ==> key == "F1"@,
        usage == 59 ==> key == "F2"@,
        usage == 60 ==> key == "F3"@,
        usage == 61 ==> key == "F4"@,
        usage == 62 ==> key == "F5"@,
        usage == 63 ==> key == "F6"@,
        usage == 64 ==> key == "F7"@,
        usage == 65 ==> key == "F8"@,
        usage == 66 ==> key == "F9"@,
        usage == 67 ==> key == "F10"@,
        usage == 68 ==> key == "F11"@,
        usage == 69 ==> key == "F12"@,
        usage == 70 ==> key == "Print"@ || key == "Sys_Req"@,
        usage == 71 ==> key == "Scroll_Lock"@,
        usage == 72 ==> key == "Pause"@ || key == "Break"@,
        usage == 73 ==> key == "Insert"@,
        usage == 74 ==> key == "Home"@,
        usage == 75 ==> key == "Prior"@ || key == "Page_Up"@,
        usage == 76 ==> key == "Delete"@,
        usage == 77 ==> key == "End"@,
        usage == 78 ==> key == "Next"@ || key == "Page_Down"@,
        usage == 79 ==> key == "Right"@,
        usage == 80 ==> key == "Left"@,
        usage == 81 ==> key == "Down"@,
        usage == 82 ==> key == "Up"@,
        usage == 83 ==> key == "Num_Lock"@,
        usage == 84 ==> key == "KP_Divide"@,
        usage == 85 ==> key == "KP_Multiply"@,
        usage == 86 ==> key == "KP_Subtract"@,
        usage == 87 ==> key == "KP_Add"@,
        usage == 89 ==> key == "KP_1"@,
        usage == 90 ==> key == "KP_2"@,
        usage == 91 ==> key == "KP_3"@,
        usage == 92 ==> key == "KP_4"@,
        usage == 93 ==> key == "KP_5"@,
        usage == 94 ==> key == "KP_6"@,
        usage == 95 ==> key == "KP_7"@,
        usage == 96 ==> key == "KP_8"@,
        usage == 97 ==> key == "KP_9"@,
        usage == 98 ==> key == "KP_0"@,
        usage == 99 ==> key == "KP_Decimal"@ || key == "KP_Separator"@,
        usage == 224 ==> key == "Control_L"@,
        usage == 225 ==> key == "Shift_L"@,
        usage == 226 ==> key == "Alt_L"@,
        usage == 227 ==> key == "Super_L"@ || key == "Meta_L"@,
        usage == 228 ==> key == "Control_R"@,
        usage == 229 ==> key == "Shift_R"@,
        usage == 230 ==> key == "Alt_R"@,
        usage == 231 ==> key == "Super_R"@ || key == "Meta_R"@,
        usage == 44 ==> key == "space"@ || key == seq![' '],
        usage < 40 ==> key.len() == 1,
{
}

/// Every key that has a name of its own has its place.
#[verifier::spinoff_prover]
#[verifier::rlimit(50)]
pub proof fn law_named_keys_have_places(key: Seq<char>)
    ensures
        key == "Return"@ || key == "KP_Enter"@ ==> key_usage_of(key) == Some(40u8),
        key == "Escape"@ ==> key_usage_of(key) == Some(41u8),
        key == "BackSpace"@ ==> key_usage_of(key) == Some(42u8),
        key == "Tab"@ || key == "ISO_Left_Tab"@ ==> key_usage_of(key) == Some(43u8),
        key == "minus"@ || key == "underscore"@ ==> key_usage_of(key) == Some(45u8),
        key == "equal"@ || key == "plus"@ ==> key_usage_of(key) == Some(46u8),
        key == "bracketleft"@ || key == "braceleft"@ ==> key_usage_of(key) == Some(47u8),
        key == "bracketright"@ || key == "braceright"@ ==> key_usage_of(key) == Some(48u8),
        key == "backslash"@ || key == "bar"@ ==> key_usage_of(key) == Some(49u8),
        key == "numbersign"@ || key == "asciitilde"@ || key == "semicolon"@ || key == "colon"@
            ==> key_usage_of(key) == Some(51u8),
        key == "apostrophe"@ || key == "quotedbl"@ ==> key_usage_of(key) == Some(52u8),
        key == "grave"@ ==> key_usage_of(key) == Some(53u8),
        key == "comma"@ || key == "less"@ ==> key_usage_of(key) == Some(54u8),
        key == "period"@ || key == "greater"@ ==> key_usage_of(key) == Some(55u8),
        key == "slash"@ || key == "question"@ ==> key_usage_of(key) == Some(56u8),
        key == "Caps_Lock"@ ==> key_usage_of(key) == Some(57u8),
        key == "F1"@ ==> key_usage_of(key) == Some(58u8),
        key == "F2"@ ==> key_usage_of(key) == Some(59u8),
        key == "F3"@ ==> key_usage_of(key) == Some(60u8),
        key == "F4"@ ==> key_usage_of(key) == Some(61u8),
        key == "F5"@ ==> key_usage_of(key) == Some(62u8),
        key == "F6"@ ==> key_usage_of(key) == Some(63u8),
        key == "F7"@ ==> key_usage_of(key) == Some(64u8),
        key == "F8"@ ==> key_usage_of(key) == Some(65u8),
        key == "F9"@ ==> key_usage_of(key) == Some(66u8),
        key == "F10"@ ==> key_usage_of(key) == Some(67u8),
        key == "F11"@ ==> key_usage_of(key) == Some(68u8),
        key == "F12"@ ==> key_usage_of(key) == Some(69u8),
        key == "Print"@ || key == "Sys_Req"@ ==> key_usage_of(key) == Some(70u8),
        key == "Scroll_Lock"@ ==> key_usage_of(key) == Some(71u8),
        key == "Pause"@ || key == "Break"@ ==> key_usage_of(key) == Some(72u8),
        key == "Insert"@ ==> key_usage_of(key) == Some(73u8),
        key == "Home"@ ==> key_usage_of(key) == Some(74u8),
        key == "Prior"@ || key == "Page_Up"@ ==> key_usage_of(key) == Some(75u8),
        key == "Delete"@ ==> key_usage_of(key) == Some(76u8),
        key == "End"@ ==> key_usage_of(key) == Some(77u8),
        key == "Next"@ || key == "Page_Down"@ ==> key_usage_of(key) == Some(78u8),
        key == "Right"@ ==> key_usage_of(key) == Some(79u8),
        key == "Left"@ ==> key_usage_of(key) == Some(80u8),
        key == "Down"@ ==> key_usage_of(key) == Some(81u8),
        key == "Up"@ ==> key_usage_of(key) == Some(82u8),
        key == "Num_Lock"@ ==> key_usage_of(key) == Some(83u8),
        key == "KP_Divide"@ ==> key_usage_of(key) == Some(84u8),
        key == "KP_Multiply"@ ==> key_usage_of(key) == Some(85u8),
        key == "KP_Subtract"@ ==> key_usage_of(key) == Some(86u8),
        key == "KP_Add"@ ==> key_usage_of(key) == Some(87u8),
        key == "KP_1"@ ==> key_usage_of(key) == Some(89u8),
        key == "KP_2"@ ==> key_usage_of(key) == Some(90u8),
        key == "KP_3"@ ==> key_usage_of(key) == Some(91u8),
        key == "KP_4"@ ==> key_usage_of(key) == Some(92u8),
        key == "KP_5"@ ==> key_usage_of(key) == Some(93u8),
        key == "KP_6"@ ==> key_usage_of(key) == Some(94u8),
        key == "KP_7"@ ==> key_usage_of(key) == Some(95u8),
        key == "KP_8"@ ==> key_usage_of(key) == Some(96u8),
        key == "KP_9"@ ==> key_usage_of(key) == Some(97u8),
        key == "KP_0"@ ==> key_usage_of(key) == Some(98u8),
        key == "KP_Decimal"@ || key == "KP_Separator"@ ==> key_usage_of(key) == Some(99u8),
        key == "Control_L"@ ==> key_usage_of(key) == Some(224u8),
        key == "Shift_L"@ ==> key_usage_of(key) == Some(225u8),
        key == "Alt_L"@ ==> key_usage_of(key) == Some(226u8),
        key == "Super_L"@ || key == "Meta_L"@ ==> key_usage_of(key) == Some(227u8),
        key == "Control_R"@ ==> key_usage_of(key) == Some(228u8),
        key == "Shift_R"@ ==> key_usage_of(key) == Some(229u8),
        key == "Alt_R"@ ==> key_usage_of(key) == Some(230u8),
        key == "Super_R"@ || key == "Meta_R"@ ==> key_usage_of(key) == Some(231u8),
        key == "space"@ || key == seq![' '] ==> key_usage_of(key) == Some(44u8),
{
    lemma_keys_have_places();
}

#[verifier::spinoff_prover]
#[verifier::rlimit(50)]
proof fn lemma_keys_have_places()
    ensures
        key_usage_of("Return"@) == Some(40u8),
        key_usage_of("KP_Enter"@) == Some(40u8),
        key_usage_of("Escape"@) == Some(41u8),
        key_usage_of("BackSpace"@) == Some(42u8),
        key_usage_of("Tab"@) == Some(43u8),
        key_usage_of("ISO_Left_Tab"@) == Some(43u8),
        key_usage_of("space"@) == Some(44u8),
        key_usage_of("minus"@) == Some(45u8),
        key_usage_of("underscore"@) == Some(45u8),
        key_usage_of("equal"@) == Some(46u8),
        key_usage_of("plus"@) == Some(46u8),
        key_usage_of("bracketleft"@) == Some(47u8),
        key_usage_of("braceleft"@) == Some(47u8),
        key_usage_of("bracketright"@) == Some(48u8),
        key_usage_of("braceright"@) == Some(48u8),
        key_usage_of("backslash"@) == Some(49u8),
        key_usage_of("bar"@) == Some(49u8),
        key_usage_of("numbersign"@) == Some(51u8),
        key_usage_of("asciitilde"@) == Some(51u8),
        key_usage_of("semicolon"@) == Some(51u8),
        key_usage_of("colon"@) == Some(51u8),
        key_usage_of("apostrophe"@) == Some(52u8),
        key_usage_of("quotedbl"@) == Some(52u8),
        key_usage_of("grave"@) == Some(53u8),
        key_usage_of("comma"@) == Some(54u8),
        key_usage_of("less"@) == Some(54u8),
        key_usage_of("period"@) == Some(55u8),
        key_usage_of("greater"@) == Some(55u8),
        key_usage_of("slash"@) == Some(56u8),
        key_usage_of("question"@) == Some(56u8),
        key_usage_of("Caps_Lock"@) == Some(57u8),
        key_usage_of("F1"@) == Some(58u8),
        key_usage_of("F2"@) == Some(59u8),
        key_usage_of("F3"@) == Some(60u8),
        key_usage_of("F4"@) == Some(61u8),
        key_usage_of("F5"@) == Some(62u8),
        key_usage_of("F6"@) == Some(63u8),
        key_usage_of("F7"@) == Some(64u8),
        key_usage_of("F8"@) == Some(65u8),
        key_usage_of("F9"@) == Some(66u8),
        key_usage_of("F10"@) == Some(67u8),
        key_usage_of("F11"@) == Some(68u8),
        key_usage_of("F12"@) == Some(69u8),
        key_usage_of("Print"@) == Some(70u8),
        key_usage_of("Sys_Req"@) == Some(70u8),
        key_usage_of("Scroll_Lock"@) == Some(71u8),
        key_usage_of("Pause"@) == Some(72u8),
        key_usage_of("Break"@) == Some(72u8),
        key_usage_of("Insert"@) == Some(73u8),
        key_usage_of("Home"@) == Some(74u8),
        key_usage_of("Prior"@) == Some(75u8),
        key_usage_of("Page_Up"@) == Some(75u8),
        key_usage_of("Delete"@) == Some(76u8),
        key_usage_of("End"@) == Some(77u8),
        key_usage_of("Next"@) == Some(78u8),
        key_usage_of("Page_Down"@) == Some(78u8),
        key_usage_of("Right"@) == Some(79u8),
        key_usage_of("Left"@) == Some(80u8),
        key_usage_of("Down"@) == Some(81u8),
        key_usage_of("Up"@) == Some(82u8),
        key_usage_of("Num_Lock"@) == Some(83u8),
        key_usage_of("KP_Divide"@) == Some(84u8),
        key_usage_of("KP_Multiply"@) == Some(85u8),
        key_usage_of("KP_Subtract"@) == Some(86u8),
        key_usage_of("KP_Add"@) == Some(87u8),
        key_usage_of("KP_1"@) == Some(89u8),
        key_usage_of("KP_2"@) == Some(90u8),
        key_usage_of("KP_3"@) == Some(91u8),
        key_usage_of("KP_4"@) == Some(92u8),
        key_usage_of("KP_5"@) == Some(93u8),
        key_usage_of("KP_6"@) == Some(94u8),
        key_usage_of("KP_7"@) == Some(95u8),
        key_usage_of("KP_8"@) == Some(96u8),
        key_usage_of("KP_9"@) == Some(97u8),
        key_usage_of("KP_0"@) == Some(98u8),
        key_usage_of("KP_Decimal"@) == Some(99u8),
        key_usage_of("KP_Separator"@) == Some(99u8),
        key_usage_of("Control_L"@) == Some(224u8),
        key_usage_of("Shift_L"@) == Some(225u8),
        key_usage_of("Alt_L"@) == Some(226u8),
        key_usage_of("Super_L"@) == Some(227u8),
        key_usage_of("Meta_L"@) == Some(227u8),
        key_usage_of("Control_R"@) == Some(228u8),
        key_usage_of("Shift_R"@) == Some(229u8),
        key_usage_of("Alt_R"@) == Some(230u8),
        key_usage_of("Super_R"@) == Some(231u8),
        key_usage_of("Meta_R"@) == Some(231u8),
{
    reveal_strlit("Return");
    reveal_strlit("KP_Enter");
    reveal_strlit("Escape");
    reveal_strlit("BackSpace");
    reveal_strlit("Tab");
    reveal_strlit("ISO_Left_Tab");
    reveal_strlit("space");
    reveal_strlit("minus");
    reveal_strlit("underscore");
    reveal_strlit("equal");
    reveal_strlit("plus");
    reveal_strlit("bracketleft");
    reveal_strlit("braceleft");
    reveal_strlit("bracketright");
    reveal_strlit("braceright");
    reveal_strlit("backslash");
    reveal_strlit("bar");
    reveal_strlit("numbersign");
    reveal_strlit("asciitilde");
    reveal_strlit("semicolon");
    reveal_strlit("colon");
    reveal_strlit("apostrophe");
    reveal_strlit("quotedbl");
    reveal_strlit("grave");
    reveal_strlit("comma");
    reveal_strlit("less");
    reveal_strlit("period");
    reveal_strlit("greater");
    reveal_strlit("slash");
    reveal_strlit("question");
    reveal_strlit("Caps_Lock");
    reveal_strlit("F1");
    reveal_strlit("F2");
    reveal_strlit("F3");
    reveal_strlit("F4");
    reveal_strlit("F5");
    reveal_strlit("F6");
    reveal_strlit("F7");
    reveal_strlit("F8");
    reveal_strlit("F9");
    reveal_strlit("F10");
    reveal_strlit("F11");
    reveal_strlit("F12");
    reveal_strlit("Print");
    reveal_strlit("Sys_Req");
    reveal_strlit("Scroll_Lock");
    reveal_strlit("Pause");
    reveal_strlit("Break");
    reveal_strlit("Insert");
    reveal_strlit("Home");
    reveal_strlit("Prior");
    reveal_strlit("Page_Up");
    reveal_strlit("Delete");
    reveal_strlit("End");
    reveal_strlit("Next");
    reveal_strlit("Page_Down");
    reveal_strlit("Right");
    reveal_strlit("Left");
    reveal_strlit("Down");
    reveal_strlit("Up");
    reveal_strlit("Num_Lock");
    reveal_strlit("KP_Divide");
    reveal_strlit("KP_Multiply");
    reveal_strlit("KP_Subtract");
    reveal_strlit("KP_Add");
    reveal_strlit("KP_0");
    reveal_strlit("KP_1");
    reveal_strlit("KP_2");
    reveal_strlit("KP_3");
    reveal_strlit("KP_4");
    reveal_strlit("KP_5");
    reveal_strlit("KP_6");
    reveal_strlit("KP_7");
    reveal_strlit("KP_8");
    reveal_strlit("KP_9");
    reveal_strlit("KP_Decimal");
    reveal_strlit("KP_Separator");
    reveal_strlit("Control_L");
    reveal_strlit("Shift_L");
    reveal_strlit("Alt_L");
    reveal_strlit("Super_L");
    reveal_strlit("Meta_L");
    reveal_strlit("Control_R");
    reveal_strlit("Shift_R");
    reveal_strlit("Alt_R");
    reveal_strlit("Super_R");
    reveal_strlit("Meta_R");
    assert("F1"@[1] == '1');
    assert("F2"@[1] == '2');
    assert("F3"@[1] == '3');
    assert("F4"@[1] == '4');
    assert("F5"@[1] == '5');
    assert("F6"@[1] == '6');
    assert("F7"@[1] == '7');
    assert("F8"@[1] == '8');
    assert("F9"@[1] == '9');
    assert("Up"@[1] == 'p');
    assert("Tab"@[2] == 'b');
    assert("bar"@[2] == 'r');
    assert("F10"@[2] == '0');
    assert("F11"@[2] == '1');
    assert("F12"@[2] == '2');
    assert("End"@[2] == 'd');
    assert("plus"@[0] == 'p' && "plus"@[3] == 's');
    assert("less"@[0] == 'l' && "less"@[3] == 's');
    assert("Home"@[0] == 'H' && "Home"@[3] == 'e');
    assert("Next"@[0] == 'N' && "Next"@[3] == 't');
    assert("Left"@[0] == 'L' && "Left"@[3] == 't');
    assert("Down"@[0] == 'D' && "Down"@[3] == 'n');
    assert("KP_0"@[0] == 'K' && "KP_0"@[3] == '0');
    assert("KP_1"@[0] == 'K' && "KP_1"@[3] == '1');
    assert("KP_2"@[0] == 'K' && "KP_2"@[3] == '2');
    assert("KP_3"@[0] == 'K' && "KP_3"@[3] == '3');
    assert("KP_4"@[0] == 'K' && "KP_4"@[3] == '4');
    assert("KP_5"@[0] == 'K' && "KP_5"@[3] == '5');
    assert("KP_6"@[0] == 'K' && "KP_6"@[3] == '6');
    assert("KP_7"@[0] == 'K' && "KP_7"@[3] == '7');
    assert("KP_8"@[0] == 'K' && "KP_8"@[3] == '8');
    assert("KP_9"@[0] == 'K' && "KP_9"@[3] == '9');
    assert("space"@[0] == 's' && "space"@[4] == 'e');
    assert("minus"@[0] == 'm' && "minus"@[4] == 's');
    assert("equal"@[0] == 'e' && "equal"@[4] == 'l');
    assert("colon"@[0] == 'c' && "colon"@[4] == 'n');
    assert("grave"@[0] == 'g' && "grave"@[4] == 'e');
    assert("comma"@[0] == 'c' && "comma"@[4] == 'a');
    assert("slash"@[0] == 's' && "slash"@[4] == 'h');
    assert("Print"@[0] == 'P' && "Print"@[4] == 't');
    assert("Pause"@[0] == 'P' && "Pause"@[4] == 'e');
    assert("Break"@[0] == 'B' && "Break"@[4] == 'k');
    assert("Prior"@[0] == 'P' && "Prior"@[4] == 'r');
    assert("Right"@[0] == 'R' && "Right"@[4] == 't');
    assert("Alt_L"@[0] == 'A' && "Alt_L"@[4] == 'L');
    assert("Alt_R"@[0] == 'A' && "Alt_R"@[4] == 'R');
    assert("Return"@[0] == 'R' && "Return"@[5] == 'n');
    assert("Escape"@[0] == 'E' && "Escape"@[5] == 'e');
    assert("period"@[0] == 'p' && "period"@[5] == 'd');
    assert("Insert"@[0] == 'I' && "Insert"@[5] == 't');
    assert("Delete"@[0] == 'D' && "Delete"@[5] == 'e');
    assert("KP_Add"@[0] == 'K' && "KP_Add"@[5] == 'd');
    assert("Meta_L"@[0] == 'M' && "Meta_L"@[5] == 'L');
    assert("Meta_R"@[0] == 'M' && "Meta_R"@[5] == 'R');
    assert("greater"@[1] == 'r' && "greater"@[6] == 'r');
    assert("Sys_Req"@[1] == 'y' && "Sys_Req"@[6] == 'q');
    assert("Page_Up"@[1] == 'a' && "Page_Up"@[6] == 'p');
    assert("Shift_L"@[1] == 'h' && "Shift_L"@[6] == 'L');
    assert("Super_L"@[1] == 'u' && "Super_L"@[6] == 'L');
    assert("Shift_R"@[1] == 'h' && "Shift_R"@[6] == 'R');
    assert("Super_R"@[1] == 'u' && "Super_R"@[6] == 'R');
    assert("KP_Enter"@[2] == '_');
    assert("quotedbl"@[2] == 'o');
    assert("question"@[2] == 'e');
    assert("Num_Lock"@[2] == 'm');
    assert("BackSpace"@[0] == 'B' && "BackSpace"@[8] == 'e');
    assert("braceleft"@[0] == 'b' && "braceleft"@[8] == 't');
    assert("backslash"@[0] == 'b' && "backslash"@[8] == 'h');
    assert("semicolon"@[0] == 's' && "semicolon"@[8] == 'n');
    assert("Caps_Lock"@[0] == 'C' && "Caps_Lock"@[8] == 'k');
    assert("Page_Down"@[0] == 'P' && "Page_Down"@[8] == 'n');
    assert("KP_Divide"@[0] == 'K' && "KP_Divide"@[8] == 'e');
    assert("Control_L"@[0] == 'C' && "Control_L"@[8] == 'L');
    assert("Control_R"@[0] == 'C' && "Control_R"@[8] == 'R');
    assert("underscore"@[1] == 'n');
    assert("braceright"@[1] == 'r');
    assert("numbersign"@[1] == 'u');
    assert("asciitilde"@[1] == 's');
    assert("apostrophe"@[1] == 'p');
    assert("KP_Decimal"@[1] == 'P');
    assert("bracketleft"@[3] == 'c');
    assert("Scroll_Lock"@[3] == 'o');
    assert("KP_Multiply"@[3] == 'M');
    assert("KP_Subtract"@[3] == 'S');
    assert("ISO_Left_Tab"@[0] == 'I');
    assert("bracketright"@[0] == 'b');
    assert("KP_Separator"@[0] == 'K');
}

/// Letters and digits are counted from the first of them on, the zero as a tenth digit.
pub proof fn law_written_keys(c: char)
    ensures
        'a' <= c && c <= 'z' ==> key_usage_of(seq![c]) == Some((c as u32 - 93) as u8),
        'A' <= c && c <= 'Z' ==> key_usage_of(seq![c]) == Some((c as u32 - 61) as u8),
        '1' <= c && c <= '9' ==> key_usage_of(seq![c]) == Some((c as u32 - 19) as u8),
        c == '0' ==> key_usage_of(seq![c]) == Some(39u8),
        c == ' ' ==> key_usage_of(seq![c]) == Some(44u8),
{
    assert(seq![c][0] == c);
}

/// A button of the window is one of the mouse or one of the wheel: the buttons have bits of their
/// own, and the buttons of the wheel go in opposite ways in pairs.
pub proof fn law_buttons(a: u8, b: u8)
    ensures
        button_bit(a) is Some && button_bit(a) == button_bit(b) ==> a == b,
        button_bit(a) matches Some(at) ==> at < 5,
        button_bit(a) is Some || button_scroll(a) is Some <==> 1 <= a <= 9,
        button_bit(a) is None || button_scroll(a) is None,
        a == 1 ==> button_bit(a) == Some(0u8),
        a == 3 ==> button_bit(a) == Some(1u8),
        a == 2 ==> button_bit(a) == Some(2u8),
        a == 8 || a == 9 ==> button_bit(a) == Some((a - 5) as u8),
        button_scroll(a) matches Some(by) ==> {
            &&& a <= 5 ==> by.0 == 0
            &&& a >= 6 ==> by.1 == 0
            &&& by.0 + by.1 == if a % 2 == 0 {
                1int
            } else {
                -1
            }
        },
        button_scroll(a) is Some <==> 4 <= a <= 7,
{
}

/// What a message of the window tells of has what the message says: the key, the place and how far
/// was scrolled, and the word says what happened.
pub proof fn law_navigation_tells(s: NavStructure)
    ensures
        navigation(s) is Some ==> s.event is Some,
        navigation(s) matches Some(event) ==> match event {
            NavEvent::KeyPress(key) => s.event->0@ == "key-press"@ && s.key == Some(key),
            NavEvent::KeyRelease(key) => s.event->0@ == "key-release"@ && s.key == Some(key),
            NavEvent::MouseMove { x, y } => s.event->0@ == "mouse-move"@ && s.position == Some(
                (x, y),
            ),
            NavEvent::MouseButtonPress { button, x, y } => s.event->0@ == "mouse-button-press"@
                && s.position == Some((x, y)) && s.button is Some && button_bit(
                (s.button->0 % 256) as u8,
            ) == Some(button),
            NavEvent::MouseButtonRelease { button, x, y } => s.event->0@ == "mouse-button-release"@
                && s.position == Some((x, y)) && s.button is Some && button_bit(
                (s.button->0 % 256) as u8,
            ) == Some(button),
            NavEvent::MouseScroll { x, y, delta_x, delta_y } => s.position == Some((x, y)) && (
            s.event->0@ == "mouse-scroll"@ && delta_x == s.delta_x && delta_y == s.delta_y
                || s.event->0@ == "mouse-button-press"@ && s.button is Some && button_scroll(
                (s.button->0 % 256) as u8,
            ) == Some((delta_x, delta_y))),
        },
{
}

/// A message that says all that its word needs is not passed over.
pub proof fn law_navigation_is_heard(s: NavStructure)
    requires
        s.event is Some,
    ensures
        (s.event->0@ == "key-press"@ || s.event->0@ == "key-release"@) && s.key is Some
            ==> navigation(s) is Some,
        (s.event->0@ == "mouse-move"@ || s.event->0@ == "mouse-scroll"@) && s.position is Some
            ==> navigation(s) is Some,
        s.event->0@ == "mouse-button-press"@ && s.position is Some && s.button is Some && 1
            <= s.button->0 <= 9 ==> navigation(s) is Some,
        s.event->0@ == "mouse-button-release"@ && s.position is Some && s.button is Some && (1
            <= s.button->0 <= 3 || 8 <= s.button->0 <= 9) ==> navigation(s) is Some,
{
    reveal_strlit("key-press");
    reveal_strlit("key-release");
    reveal_strlit("mouse-move");
    reveal_strlit("mouse-button-press");
    reveal_strlit("mouse-button-release");
    reveal_strlit("mouse-scroll");
    assert("key-press"@.len() == 9);
    assert("key-release"@.len() == 11);
    assert("mouse-move"@.len() == 10);
    assert("mouse-button-press"@.len() == 18);
    assert("mouse-button-release"@.len() == 20);
    assert("mouse-scroll"@.len() == 12);
}

/// What is sent on has the place of the pointer and the buttons that are down; a wheel that turns
/// goes into the wheel of the same direction, and a key goes down or up.
pub proof fn law_events_are_sent_on(event: NavEvent, buttons: u8)
    ensures
        match event {
            NavEvent::KeyPress(key) => key_usage_of(key@) is Some ==> sent_on(event, buttons)
                == Some(HidEvent::Key(KeyboardEvent::Down(key_usage_of(key@)->0))),
            NavEvent::KeyRelease(key) => key_usage_of(key@) is Some ==> sent_on(event, buttons)
                == Some(HidEvent::Key(KeyboardEvent::Up(key_usage_of(key@)->0))),
            _ => sent_on(event, buttons) is Some && sent_on(event, buttons)->0 is Mouse,
        },
        sent_on(event, buttons) matches Some(HidEvent::Mouse(input)) ==> {
            &&& input.buttons == buttons
            &&& match event {
                NavEvent::MouseMove { x, y } => input.x == x && input.y == y,
                NavEvent::MouseButtonPress { button, x, y } => input.x == x && input.y == y,
                NavEvent::MouseButtonRelease { button, x, y } => input.x == x && input.y == y,
                NavEvent::MouseScroll { x, y, delta_x, delta_y } => input.x == x && input.y == y,
                _ => false,
            }
            &&& match event {
                NavEvent::MouseScroll { x, y, delta_x, delta_y } => input.wheel == delta_y
                    && input.hwheel == delta_x,
                _ => input.wheel == 0 && input.hwheel == 0,
            }
        },
        sent_on(event, buttons) is None ==> match event {
            NavEvent::KeyPress(key) => key_usage_of(key@) is None,
            NavEvent::KeyRelease(key) => key_usage_of(key@) is None,
            _ => false,
        },
{
}

/// A button that is pressed or released changes its own bit alone.
pub proof fn law_buttons_have_own_bits(before: u8, after: u8, button: u8, pressed: bool, i: int)
    requires
        is_button_set(before, after, button, pressed),
        button < 8,
        0 <= i < 8,
    ensures
        i != button ==> bit(after, i) == bit(before, i),
        bit(after, button as int) == 1 <==> pressed,
{
    assert(bit(after, i) == bit(after, i));
    assert(bit(after, button as int) == bit(after, button as int));
}

/// What shows a video is set up the same way whatever the server, and asks a server for its address
/// exactly if one is named.
pub proof fn law_receiver(stun_server: Seq<char>)
    ensures
        receiver_properties(stun_server).contains(("stun-server"@, stun_server))
            <==> stun_server.len() > 0,
        receiver_properties(stun_server).contains(("bundle-policy"@, "max-bundle"@)),
        receiver_properties(stun_server).contains(("latency"@, "16"@)),
        receiver_properties(stun_server).contains(("name"@, "recvbin"@)),
        receiver_properties(stun_server).len() <= 4,
{
    reveal_strlit("stun-server");
    reveal_strlit("name");
    reveal_strlit("bundle-policy");
    reveal_strlit("latency");
    let all = receiver_properties(stun_server);
    assert(all[0] == ("name"@, "recvbin"@));
    assert(all[1] == ("bundle-policy"@, "max-bundle"@));
    assert(all[2] == ("latency"@, "16"@));
    if stun_server.len() > 0 {
        assert(all[3] == ("stun-server"@, stun_server));
    }
    assert("name"@.len() == 4 && "bundle-policy"@.len() == 13 && "latency"@.len() == 7);
    assert("stun-server"@.len() == 11);
    assert forall|i: int| 0 <= i < 3 implies (#[trigger] all[i]).0 != "stun-server"@ by {
        if i == 0 {
            assert(all[i].0 == "name"@);
        } else if i == 1 {
            assert(all[i].0 == "bundle-policy"@);
        } else {
            assert(all[i].0 == "latency"@);
        }
    }
}

} // verus!
