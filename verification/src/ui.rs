//! The terminal user interface: choosing a device, and typing at its console.

use vstd::prelude::*;

use crate::cli::{choose_console, is_console_choice};
use crate::client::{Device, DevicePartHandle};
use crate::server::ListedItem;
use crate::text::{
    chars_of, decimal, find, first_occurrence, law_decimal_has_digits, law_decimal_parses_back,
    law_first_occurrence_is_first, occurs_at, parse_number, parsed_number, str_eq, string_of, texts,
};
use crate::ui_term::Area;

verus! {

/// The size of a terminal.
#[derive(Copy, Clone, Debug, PartialEq, Eq, Structural)]
pub struct Size {
    /// Columns.
    pub width: u16,
    /// Rows.
    pub height: u16,
}

/// How large the terminal of a console is.
#[derive(Copy, Clone, Debug, PartialEq, Eq, Structural)]
pub enum TerminalSizeSetting {
    /// As large as this.
    Fixed(Size),
    /// As large as the window.
    Auto,
}

/// Why a text is no size.
#[derive(Copy, Clone, Debug, PartialEq, Eq, Structural)]
pub enum TerminalSizeSettingError {
    /// It is not in the form of one.
    ParseError,
    /// A terminal cannot be empty.
    InvalidSizeError,
}

impl TerminalSizeSettingError {
    /// The text of the error.
    pub fn message(&self) -> (r: &'static str)
        ensures
            r@ == match *self {
                TerminalSizeSettingError::ParseError => "unable to parse terminal setting format"@,
                TerminalSizeSettingError::InvalidSizeError => "invalid size, width and height should greater than 0"@,
            },
    {
        match self {
            TerminalSizeSettingError::ParseError => "unable to parse terminal setting format",
            TerminalSizeSettingError::InvalidSizeError => "invalid size, width and height should greater than 0",
        }
    }
}

/// The size that a text stands for: `auto`, or columns and rows around an `x`.
pub open spec fn size_setting(fmt: Seq<char>) -> Result<
    TerminalSizeSetting,
    TerminalSizeSettingError,
> {
    if fmt == "auto"@ {
        Ok(TerminalSizeSetting::Auto)
    } else {
        match first_occurrence(fmt, "x"@) {
            None => Err(TerminalSizeSettingError::ParseError),
            Some(at) => match (
                parsed_number(fmt.take(at), 10, u16::MAX as nat),
                parsed_number(fmt.skip(at + 1), 10, u16::MAX as nat),
            ) {
                (Some(width), Some(height)) => if width == 0 || height == 0 {
                    Err(TerminalSizeSettingError::InvalidSizeError)
                } else {
                    Ok(
                        TerminalSizeSetting::Fixed(
                            Size { width: width as u16, height: height as u16 },
                        ),
                    )
                },
                _ => Err(TerminalSizeSettingError::ParseError),
            },
        }
    }
}

impl TerminalSizeSetting {
    /// The size that a text stands for.
    pub fn from_str(fmt: &str) -> (r: Result<TerminalSizeSetting, TerminalSizeSettingError>)
        ensures
            r == size_setting(fmt@),
    {
        if str_eq(fmt, "auto") {
            return Ok(TerminalSizeSetting::Auto);
        }
        let chars = chars_of(fmt);
        let n: usize = chars.len();
        match find(&chars, &chars_of("x")) {
            None => Err(TerminalSizeSettingError::ParseError),
            Some(at) => {
                proof {
                    reveal_strlit("x");
                    assert(fmt@.subrange(0, at as int) =~= fmt@.take(at as int));
                    assert(fmt@.subrange(at + 1, n as int) =~= fmt@.skip(at + 1));
                }
                let width = parse_number(string_of(&chars, 0, at).as_str(), 10, 65535);
                let height = parse_number(string_of(&chars, at + 1, n).as_str(), 10, 65535);
                match (width, height) {
                    (Some(width), Some(height)) => if width == 0 || height == 0 {
                        Err(TerminalSizeSettingError::InvalidSizeError)
                    } else {
                        Ok(
                            TerminalSizeSetting::Fixed(
                                Size { width: width as u16, height: height as u16 },
                            ),
                        )
                    },
                    _ => Err(TerminalSizeSettingError::ParseError),
                }
            },
        }
    }

    /// The size of the terminal in a window of a size.
    pub fn size_in(&self, window: Size) -> (r: Size)
        ensures
            r == match *self {
                TerminalSizeSetting::Fixed(size) => size,
                TerminalSizeSetting::Auto => window,
            },
    {
        match self {
            TerminalSizeSetting::Fixed(size) => *size,
            TerminalSizeSetting::Auto => window,
        }
    }

    /// The part of a window that shows the terminal: its top left corner, as far as the terminal
    /// or the window go.
    pub fn area_in(&self, window: Size) -> (r: Area)
        ensures
            ({
                let size = match *self {
                    TerminalSizeSetting::Fixed(size) => size,
                    TerminalSizeSetting::Auto => window,
                };
                &&& r.x == 0
                &&& r.y == 0
                &&& r.width == if size.width <= window.width {
                    size.width
                } else {
                    window.width
                }
                &&& r.height == if size.height <= window.height {
                    size.height
                } else {
                    window.height
                }
            }),
    {
        let size = self.size_in(window);
        let width: u16 = if size.width <= window.width {
            size.width
        } else {
            window.width
        };
        let height: u16 = if size.height <= window.height {
            size.height
        } else {
            window.height
        };
        Area { x: 0, y: 0, width, height }
    }
}

/// Where the cursor is shown, column first: nowhere while it is hidden or the terminal is
/// scrolled back.
pub fn cursor_at(row: u16, col: u16, hidden: bool, scrollback: usize) -> (r: Option<(u16, u16)>)
    ensures
        r == if !hidden && scrollback == 0 {
            Some((col, row))
        } else {
            None
        },
{
    if !hidden && scrollback == 0 {
        Some((col, row))
    } else {
        None
    }
}

/// A key.
#[derive(Copy, Clone, Debug, PartialEq, Eq, Structural)]
pub enum KeyCode {
    /// A character.
    Char(char),
    /// Enter.
    Enter,
    /// Backspace.
    Backspace,
    /// Tab.
    Tab,
    /// Tab, with the other direction.
    BackTab,
    /// Escape.
    Esc,
    /// Up.
    Up,
    /// Down.
    Down,
    /// Right.
    Right,
    /// Left.
    Left,
    /// Home.
    Home,
    /// End.
    End,
    /// Insert.
    Insert,
    /// Delete.
    Delete,
    /// A page up.
    PageUp,
    /// A page down.
    PageDown,
    /// A function key.
    F(u8),
    /// Any other key.
    Other,
}

/// What happened to a key.
#[derive(Copy, Clone, Debug, PartialEq, Eq, Structural)]
pub struct KeyEvent {
    /// The key.
    pub code: KeyCode,
    /// Whether control was held.
    pub control: bool,
    /// Whether the key was pressed, rather than released or repeated.
    pub press: bool,
}

/// What the choice of a device came to.
#[derive(Copy, Clone, Debug, PartialEq, Eq, Structural)]
pub enum SelectAction {
    /// The device with this id.
    Select(u64),
    /// None.
    Quit,
}

/// The choice of a device.
#[derive(Debug)]
pub struct DeviceSelector {
    items: Vec<ListedItem>,
    selected: usize,
}

/// The place that is marked after a key.
pub open spec fn moved(selected: nat, count: nat, code: KeyCode) -> nat {
    if code == KeyCode::Down || code == KeyCode::Char('j') {
        if selected + 1 < count {
            selected + 1
        } else {
            (count - 1) as nat
        }
    } else if code == KeyCode::Up || code == KeyCode::Char('k') {
        if selected > 0 {
            (selected - 1) as nat
        } else {
            0
        }
    } else {
        selected
    }
}

impl DeviceSelector {
    /// The devices.
    pub closed spec fn devices(self) -> Seq<ListedItem> {
        self.items@
    }

    /// The place that is marked.
    pub closed spec fn marked(self) -> nat {
        self.selected as nat
    }

    /// There is a device, and one is marked.
    pub open spec fn wf(self) -> bool {
        self.marked() < self.devices().len()
    }

    /// With the first device marked.
    pub fn new(items: Vec<ListedItem>) -> (r: Self)
        requires
            items@.len() > 0,
        ensures
            r.wf(),
            r.devices() == items@,
            r.marked() == 0,
    {
        DeviceSelector { items, selected: 0 }
    }

    /// The names of the devices, and the place that is marked.
    pub fn list(&self) -> (r: (Vec<String>, usize))
        ensures
            r.0@.len() == self.devices().len(),
            forall|i: int|
                0 <= i < r.0@.len() ==> (#[trigger] r.0@[i])@ == self.devices()[i].name@,
            r.1 == self.marked(),
    {
        let mut names: Vec<String> = Vec::new();
        for i in 0..self.items.len()
            invariant
                names@.len() == i,
                forall|j: int| 0 <= j < i ==> (#[trigger] names@[j])@ == self.items@[j].name@,
        {
            names.push(self.items[i].name.clone());
        }
        (names, self.selected)
    }

    /// What a key does.
    pub fn handle_key(&mut self, key: KeyEvent) -> (r: Option<SelectAction>)
        requires
            old(self).wf(),
        ensures
            final(self).wf(),
            final(self).devices() == old(self).devices(),
            if !key.press {
                r is None && final(self).marked() == old(self).marked()
            } else {
                &&& final(self).marked() == moved(
                    old(self).marked(),
                    old(self).devices().len(),
                    key.code,
                )
                &&& r == if key.code == KeyCode::Enter {
                    Some(SelectAction::Select(old(self).devices()[old(self).marked() as int].id))
                } else if key.code == KeyCode::Char('q') || key.code == KeyCode::Esc {
                    Some(SelectAction::Quit)
                } else {
                    None
                }
            },
    {
        if !key.press {
            return None;
        }
        match key.code {
            KeyCode::Down => {
                self.down();
                None
            },
            KeyCode::Up => {
                self.up();
                None
            },
            KeyCode::Enter => Some(SelectAction::Select(self.items[self.selected].id)),
            KeyCode::Esc => Some(SelectAction::Quit),
            KeyCode::Char(c) => {
                if c == 'j' {
                    self.down();
                    None
                } else if c == 'k' {
                    self.up();
                    None
                } else if c == 'q' {
                    Some(SelectAction::Quit)
                } else {
                    None
                }
            },
            _ => None,
        }
    }

    fn down(&mut self)
        requires
            old(self).wf(),
        ensures
            final(self).devices() == old(self).devices(),
            final(self).marked() == moved(
                old(self).marked(),
                old(self).devices().len(),
                KeyCode::Down,
            ),
    {
        let n: usize = self.items.len();
        if self.selected + 1 < n {
            self.selected = self.selected + 1;
        }
    }

    fn up(&mut self)
        ensures
            final(self).devices() == old(self).devices(),
            final(self).marked() == moved(
                old(self).marked(),
                old(self).devices().len(),
                KeyCode::Up,
            ),
    {
        if self.selected > 0 {
            self.selected = self.selected - 1;
        }
    }
}

/// The low byte of a character.
pub open spec fn char_byte(c: char) -> u8 {
    (c as u32 % 256) as u8
}

/// The byte for a character that is typed with control.
pub open spec fn control_byte(c: char) -> u8 {
    let byte = char_byte(c);
    let lower = if 65 <= byte <= 90 {
        byte + 32
    } else {
        byte as int
    };
    ((lower - 97 + 1) % 256) as u8
}

fn control_of(c: char) -> (r: u8)
    ensures
        r == control_byte(c),
{
    let byte: u8 = (c as u32 % 256) as u8;
    let lower: u8 = if 65 <= byte && byte <= 90 {
        byte + 32
    } else {
        byte
    };
    lower.wrapping_sub(97).wrapping_add(1)
}

/// The bytes for a function key, behind the first that is common to all.
pub open spec fn function_bytes(n: u8) -> Option<Seq<u8>> {
    if n == 1 {
        Some(seq![0x1b, 0x4f, 0x50])
    } else if n == 2 {
        Some(seq![0x1b, 0x4f, 0x51])
    } else if n == 3 {
        Some(seq![0x1b, 0x4f, 0x52])
    } else if n == 4 {
        Some(seq![0x1b, 0x4f, 0x53])
    } else if n == 5 {
        Some(seq![0x1b, 0x5b, 0x31, 0x35, 0x7e])
    } else if n == 6 {
        Some(seq![0x1b, 0x5b, 0x31, 0x37, 0x7e])
    } else if n == 7 {
        Some(seq![0x1b, 0x5b, 0x31, 0x38, 0x7e])
    } else if n == 8 {
        Some(seq![0x1b, 0x5b, 0x31, 0x39, 0x7e])
    } else if n == 9 {
        Some(seq![0x1b, 0x5b, 0x32, 0x30, 0x7e])
    } else if n == 10 {
        Some(seq![0x1b, 0x5b, 0x32, 0x31, 0x7e])
    } else if n == 11 {
        Some(seq![0x1b, 0x5b, 0x32, 0x33, 0x7e])
    } else if n == 12 {
        Some(seq![0x1b, 0x5b, 0x32, 0x34, 0x7e])
    } else {
        None
    }
}

/// The bytes that a key sends to a console.
pub open spec fn bytes_of_key(key: KeyEvent) -> Option<Seq<u8>> {
    match key.code {
        KeyCode::Char(c) => if key.control {
            Some(seq![control_byte(c)])
        } else {
            Some(vstd::utf8::encode_utf8(seq![c]))
        },
        KeyCode::Enter => Some(seq![0x0d]),
        KeyCode::Backspace => Some(seq![0x7f]),
        KeyCode::Tab => Some(seq![0x09]),
        KeyCode::BackTab => Some(seq![0x1b, 0x5b, 0x5a]),
        KeyCode::Esc => Some(seq![0x1b]),
        KeyCode::Up => Some(seq![0x1b, 0x5b, 0x41]),
        KeyCode::Down => Some(seq![0x1b, 0x5b, 0x42]),
        KeyCode::Right => Some(seq![0x1b, 0x5b, 0x43]),
        KeyCode::Left => Some(seq![0x1b, 0x5b, 0x44]),
        KeyCode::Home => Some(seq![0x1b, 0x5b, 0x48]),
        KeyCode::End => Some(seq![0x1b, 0x5b, 0x46]),
        KeyCode::Insert => Some(seq![0x1b, 0x5b, 0x32, 0x7e]),
        KeyCode::Delete => Some(seq![0x1b, 0x5b, 0x33, 0x7e]),
        KeyCode::PageUp => Some(seq![0x1b, 0x5b, 0x35, 0x7e]),
        KeyCode::PageDown => Some(seq![0x1b, 0x5b, 0x36, 0x7e]),
        KeyCode::F(n) => function_bytes(n),
        KeyCode::Other => None,
    }
}

/// Whether these are the bytes.
pub open spec fn are_bytes(r: Option<Vec<u8>>, bytes: Option<Seq<u8>>) -> bool {
    match bytes {
        Some(bytes) => r is Some && r->0@ == bytes,
        None => r is None,
    }
}

fn function_key(n: u8) -> (r: Option<Vec<u8>>)
    ensures
        are_bytes(r, function_bytes(n)),
{
    match n {
        1 => Some(vec![0x1b, 0x4f, 0x50]),
        2 => Some(vec![0x1b, 0x4f, 0x51]),
        3 => Some(vec![0x1b, 0x4f, 0x52]),
        4 => Some(vec![0x1b, 0x4f, 0x53]),
        5 => Some(vec![0x1b, 0x5b, 0x31, 0x35, 0x7e]),
        6 => Some(vec![0x1b, 0x5b, 0x31, 0x37, 0x7e]),
        7 => Some(vec![0x1b, 0x5b, 0x31, 0x38, 0x7e]),
        8 => Some(vec![0x1b, 0x5b, 0x31, 0x39, 0x7e]),
        9 => Some(vec![0x1b, 0x5b, 0x32, 0x30, 0x7e]),
        10 => Some(vec![0x1b, 0x5b, 0x32, 0x31, 0x7e]),
        11 => Some(vec![0x1b, 0x5b, 0x32, 0x33, 0x7e]),
        12 => Some(vec![0x1b, 0x5b, 0x32, 0x34, 0x7e]),
        _ => None,
    }
}

/// The bytes that a key sends to a console.
pub fn key_to_bytes(key: KeyEvent) -> (r: Option<Vec<u8>>)
    ensures
        are_bytes(r, bytes_of_key(key)),
{
    let r = match key.code {
        KeyCode::Char(c) => {
            if key.control {
                let r: Vec<u8> = vec![control_of(c)];
                assert(r@ =~= seq![control_byte(c)]);
                return Some(r);
            }
            let mut s = "".to_owned();
            s.push(c);
            proof {
                reveal_strlit("");
                assert(s@ =~= seq![c]);
            }
            let r: Vec<u8> = vstd::slice::slice_to_vec(s.as_str().as_bytes());
            assert(r@ =~= vstd::utf8::encode_utf8(seq![c]));
            Some(r)
        },
        KeyCode::Enter => Some(vec![0x0d]),
        KeyCode::Backspace => Some(vec![0x7f]),
        KeyCode::Tab => Some(vec![0x09]),
        KeyCode::BackTab => Some(vec![0x1b, 0x5b, 0x5a]),
        KeyCode::Esc => Some(vec![0x1b]),
        KeyCode::Up => Some(vec![0x1b, 0x5b, 0x41]),
        KeyCode::Down => Some(vec![0x1b, 0x5b, 0x42]),
        KeyCode::Right => Some(vec![0x1b, 0x5b, 0x43]),
        KeyCode::Left => Some(vec![0x1b, 0x5b, 0x44]),
        KeyCode::Home => Some(vec![0x1b, 0x5b, 0x48]),
        KeyCode::End => Some(vec![0x1b, 0x5b, 0x46]),
        KeyCode::Insert => Some(vec![0x1b, 0x5b, 0x32, 0x7e]),
        KeyCode::Delete => Some(vec![0x1b, 0x5b, 0x33, 0x7e]),
        KeyCode::PageUp => Some(vec![0x1b, 0x5b, 0x35, 0x7e]),
        KeyCode::PageDown => Some(vec![0x1b, 0x5b, 0x36, 0x7e]),
        KeyCode::F(n) => function_key(n),
        KeyCode::Other => None,
    };
    proof {
        if let Some(bytes) = bytes_of_key(key) {
            assert(r->0@ =~= bytes);
        }
    }
    r
}

/// A letter that is typed with control sends its place in the alphabet, whatever its case.
pub proof fn law_control_letters(lower: char, upper: char)
    requires
        'a' <= lower,
        lower <= 'z',
        upper as u32 + 32 == lower as u32,
    ensures
        control_byte(lower) == lower as u32 - 'a' as u32 + 1,
        control_byte(upper) == control_byte(lower),
{
}

/// What is done on a key while a console is shown.
#[derive(Debug)]
pub enum RunAction {
    /// Nothing.
    Nothing,
    /// Leave.
    Exit,
    /// Change the mode of the device to these, one after the other.
    ChangeModes(Vec<String>),
    /// Scroll the terminal back to so many lines.
    SetScrollback(usize),
    /// Send this to the console.
    Send(Vec<u8>),
}

/// A console that is shown.
#[derive(Copy, Clone, Debug)]
pub struct RunningState {
    /// How large its terminal is.
    pub size_setting: TerminalSizeSetting,
    /// Whether the next key is a command.
    pub saw_escape: bool,
}

/// The console of a device to show.
pub fn shown_console(device: &Device, name: Option<String>) -> (r: Result<
    DevicePartHandle,
    &'static str,
>)
    ensures
        is_console_choice(r, device.latest(), name, "Console not available"@),
{
    match choose_console(device, name) {
        Ok(console) => Ok(console),
        Err(_) => Err("Console not available"),
    }
}

/// Whether this is what a command does.
pub open spec fn is_command(r: RunAction, code: KeyCode, scrollback: usize) -> bool {
    if code == KeyCode::Char('q') {
        r is Exit
    } else if code == KeyCode::Char('o') {
        r is ChangeModes && texts(r->ChangeModes_0@) == seq!["on"@]
    } else if code == KeyCode::Char('f') {
        r is ChangeModes && texts(r->ChangeModes_0@) == seq!["off"@]
    } else if code == KeyCode::Char('r') {
        r is ChangeModes && texts(r->ChangeModes_0@) == seq!["off"@, "on"@]
    } else if code == KeyCode::Char('k') {
        r is SetScrollback && r->SetScrollback_0 == scrollback + 1
    } else if code == KeyCode::Char('j') {
        if scrollback > 0 {
            r is SetScrollback && r->SetScrollback_0 == scrollback - 1
        } else {
            r is Nothing
        }
    } else if code == KeyCode::Enter || code == KeyCode::Char('0') {
        r is SetScrollback && r->SetScrollback_0 == 0
    } else {
        r is Nothing
    }
}

impl RunningState {
    /// A console whose terminal is of a size.
    pub fn new(size_setting: TerminalSizeSetting) -> (r: Self)
        ensures
            r.size_setting == size_setting,
            !r.saw_escape,
    {
        RunningState { size_setting, saw_escape: false }
    }

    /// The size that the terminal gets when the window is resized, if it follows the window.
    pub fn handle_resize(&self, width: u16, height: u16) -> (r: Option<Size>)
        ensures
            r == if self.size_setting is Auto {
                Some(Size { width, height })
            } else {
                None
            },
    {
        match self.size_setting {
            TerminalSizeSetting::Auto => Some(Size { width, height }),
            TerminalSizeSetting::Fixed(_) => None,
        }
    }

    fn command(code: KeyCode, scrollback: usize) -> (r: RunAction)
        requires
            scrollback < usize::MAX,
        ensures
            is_command(r, code, scrollback),
    {
        match code {
            KeyCode::Enter => RunAction::SetScrollback(0),
            KeyCode::Char(c) => {
                if c == 'q' {
                    RunAction::Exit
                } else if c == 'o' {
                    let mut modes: Vec<String> = Vec::new();
                    modes.push("on".to_owned());
                    assert(texts(modes@) =~= seq!["on"@]);
                    RunAction::ChangeModes(modes)
                } else if c == 'f' {
                    let mut modes: Vec<String> = Vec::new();
                    modes.push("off".to_owned());
                    assert(texts(modes@) =~= seq!["off"@]);
                    RunAction::ChangeModes(modes)
                } else if c == 'r' {
                    let mut modes: Vec<String> = Vec::new();
                    modes.push("off".to_owned());
                    modes.push("on".to_owned());
                    assert(texts(modes@) =~= seq!["off"@, "on"@]);
                    RunAction::ChangeModes(modes)
                } else if c == 'k' {
                    RunAction::SetScrollback(scrollback + 1)
                } else if c == 'j' {
                    if scrollback > 0 {
                        RunAction::SetScrollback(scrollback - 1)
                    } else {
                        RunAction::Nothing
                    }
                } else if c == '0' {
                    RunAction::SetScrollback(0)
                } else {
                    RunAction::Nothing
                }
            },
            _ => RunAction::Nothing,
        }
    }

    /// What a key does, in a terminal that is scrolled back so many lines. Behind control and `a`
    /// comes a command; all other keys go to the console.
    pub fn handle_key(&mut self, key: KeyEvent, scrollback: usize) -> (r: RunAction)
        requires
            scrollback < usize::MAX,
        ensures
            final(self).size_setting == old(self).size_setting,
            if !key.press {
                r is Nothing && final(self).saw_escape == old(self).saw_escape
            } else if old(self).saw_escape {
                !final(self).saw_escape && is_command(r, key.code, scrollback)
            } else if key.code == KeyCode::Char('a') && key.control {
                final(self).saw_escape && r is Nothing
            } else {
                &&& !final(self).saw_escape
                &&& match bytes_of_key(key) {
                    Some(bytes) => r is Send && r->Send_0@ == bytes,
                    None => r is Nothing,
                }
            },
    {
        if !key.press {
            return RunAction::Nothing;
        }
        if self.saw_escape {
            self.saw_escape = false;
            return Self::command(key.code, scrollback);
        }
        let is_a = match key.code {
            KeyCode::Char(c) => c == 'a',
            _ => false,
        };
        if is_a && key.control {
            self.saw_escape = true;
            return RunAction::Nothing;
        }
        match key_to_bytes(key) {
            Some(bytes) => RunAction::Send(bytes),
            None => RunAction::Nothing,
        }
    }
}

/// What the user interface shows.
#[derive(Debug)]
pub enum AppState {
    /// The choice of a device.
    SelectingDevice(DeviceSelector),
    /// A console.
    Running(RunningState),
}

/// What happens while the user interface is shown.
#[derive(Debug)]
pub enum AppEvent {
    /// A key.
    Key(KeyEvent),
    /// The window got another size.
    Resize(u16, u16),
    /// Anything else that the window tells.
    Other,
    /// The window tells nothing any more.
    EventsEnded,
    /// The console wrote.
    Output(Vec<u8>),
    /// The console was closed.
    OutputEnded,
}

/// What to do then, before the window is drawn again.
#[derive(Debug)]
pub enum AppAction {
    /// Nothing.
    Draw,
    /// Leave.
    Exit,
    /// Open the console of the device with this id.
    Open(u64),
    /// As a key at the console says.
    Run(RunAction),
    /// Give the terminal this size.
    Resize(Size),
    /// Show what the console wrote.
    Process(Vec<u8>),
}

impl AppState {
    /// What the user interface starts with: the console of the device that was named, else the
    /// choice of one.
    pub fn start(named: bool, setting: TerminalSizeSetting, items: Vec<ListedItem>) -> (r: Result<
        AppState,
        &'static str,
    >)
        ensures
            if named {
                r is Ok && r->Ok_0 is Running && r->Ok_0->Running_0.size_setting == setting
                    && !r->Ok_0->Running_0.saw_escape
            } else if items@.len() == 0 {
                r is Err && r->Err_0@ == "No devices available on the server"@
            } else {
                &&& r is Ok
                &&& r->Ok_0 is SelectingDevice
                &&& r->Ok_0->SelectingDevice_0.wf()
                &&& r->Ok_0->SelectingDevice_0.devices() == items@
                &&& r->Ok_0->SelectingDevice_0.marked() == 0
            },
    {
        if named {
            Ok(AppState::Running(RunningState::new(setting)))
        } else if items.len() == 0 {
            Err("No devices available on the server")
        } else {
            Ok(AppState::SelectingDevice(DeviceSelector::new(items)))
        }
    }

    /// The choice is well formed.
    pub open spec fn wf(self) -> bool {
        match self {
            AppState::SelectingDevice(selector) => selector.wf(),
            AppState::Running(_) => true,
        }
    }

    /// What an event does.
    pub fn on_event(&mut self, event: AppEvent, scrollback: usize) -> (r: AppAction)
        requires
            old(self).wf(),
            scrollback < usize::MAX,
        ensures
            final(self).wf(),
            (*old(self)) is SelectingDevice <==> (*final(self)) is SelectingDevice,
            match (*old(self), event) {
                (_, AppEvent::EventsEnded) => r is Exit && *final(self) == *old(self),
                (AppState::SelectingDevice(selector), AppEvent::Key(key)) => {
                    let after = (*final(self))->SelectingDevice_0;
                    &&& after.devices() == selector.devices()
                    &&& if !key.press {
                        after.marked() == selector.marked() && r is Draw
                    } else {
                        &&& after.marked() == moved(
                            selector.marked(),
                            selector.devices().len(),
                            key.code,
                        )
                        &&& r == if key.code == KeyCode::Enter {
                            AppAction::Open(selector.devices()[selector.marked() as int].id)
                        } else if key.code == KeyCode::Char('q') || key.code == KeyCode::Esc {
                            AppAction::Exit
                        } else {
                            AppAction::Draw
                        }
                    }
                },
                (AppState::SelectingDevice(_), _) => r is Draw && *final(self) == *old(self),
                (AppState::Running(running), AppEvent::Key(key)) => {
                    let after = (*final(self))->Running_0;
                    &&& after.size_setting == running.size_setting
                    &&& r is Exit || r is Run
                    &&& if !key.press {
                        after.saw_escape == running.saw_escape && r == AppAction::Run(
                            RunAction::Nothing,
                        )
                    } else if running.saw_escape {
                        &&& !after.saw_escape
                        &&& if r is Exit {
                            key.code == KeyCode::Char('q')
                        } else {
                            key.code != KeyCode::Char('q') && is_command(
                                r->Run_0,
                                key.code,
                                scrollback,
                            )
                        }
                    } else if key.code == KeyCode::Char('a') && key.control {
                        after.saw_escape && r == AppAction::Run(RunAction::Nothing)
                    } else {
                        &&& !after.saw_escape
                        &&& r is Run
                        &&& match bytes_of_key(key) {
                            Some(bytes) => r->Run_0 is Send && r->Run_0->Send_0@ == bytes,
                            None => r->Run_0 is Nothing,
                        }
                    }
                },
                (AppState::Running(running), AppEvent::Resize(width, height)) => {
                    &&& *final(self) == *old(self)
                    &&& r == if running.size_setting is Auto {
                        AppAction::Resize(Size { width, height })
                    } else {
                        AppAction::Draw
                    }
                },
                (AppState::Running(_), AppEvent::Output(data)) => r == AppAction::Process(data)
                    && *final(self) == *old(self),
                (AppState::Running(_), AppEvent::OutputEnded) => r is Exit && *final(self)
                    == *old(self),
                (AppState::Running(_), AppEvent::Other) => r is Draw && *final(self) == *old(self),
            },
    {
        if let AppEvent::EventsEnded = event {
            return AppAction::Exit;
        }
        match self {
            AppState::SelectingDevice(selector) => match event {
                AppEvent::Key(key) => match selector.handle_key(key) {
                    Some(SelectAction::Select(id)) => AppAction::Open(id),
                    Some(SelectAction::Quit) => AppAction::Exit,
                    None => AppAction::Draw,
                },
                _ => AppAction::Draw,
            },
            AppState::Running(running) => match event {
                AppEvent::Key(key) => match running.handle_key(key, scrollback) {
                    RunAction::Exit => AppAction::Exit,
                    action => AppAction::Run(action),
                },
                AppEvent::Resize(width, height) => match running.handle_resize(width, height) {
                    Some(size) => AppAction::Resize(size),
                    None => AppAction::Draw,
                },
                AppEvent::Output(data) => AppAction::Process(data),
                AppEvent::OutputEnded => AppAction::Exit,
                _ => AppAction::Draw,
            },
        }
    }
}

/// How things are.
#[derive(Debug)]
pub enum UiStatusMode {
    /// Fine.
    Normal,
    /// Something went wrong.
    Error(String),
}

/// The colours that the status line uses.
#[derive(Copy, Clone, Debug, PartialEq, Eq, Structural)]
pub enum StatusColor {
    /// Black.
    Black,
    /// Gray.
    Gray,
    /// Light red.
    LightRed,
}

/// The status line.
#[derive(Debug)]
pub struct UiStatus {
    mode: UiStatusMode,
}

impl UiStatus {
    /// How things are.
    pub closed spec fn mode_spec(self) -> UiStatusMode {
        self.mode
    }

    /// The status line for how things are.
    pub fn new(mode: UiStatusMode) -> (r: Self)
        ensures
            r.mode_spec() == mode,
    {
        UiStatus { mode }
    }

    /// The colours of the text and behind it.
    pub fn status_style(&self) -> (r: (StatusColor, StatusColor))
        ensures
            r == match self.mode_spec() {
                UiStatusMode::Normal => (StatusColor::Black, StatusColor::Gray),
                UiStatusMode::Error(_) => (StatusColor::Black, StatusColor::LightRed),
            },
    {
        match &self.mode {
            UiStatusMode::Normal => (StatusColor::Black, StatusColor::Gray),
            UiStatusMode::Error(_) => (StatusColor::Black, StatusColor::LightRed),
        }
    }

    /// The text of the status line.
    pub fn status_text(&self) -> (r: String)
        ensures
            r@ == match self.mode_spec() {
                UiStatusMode::Normal => "Normal"@,
                UiStatusMode::Error(text) => "Error: "@ + text@,
            },
    {
        match &self.mode {
            UiStatusMode::Normal => "Normal".to_owned(),
            UiStatusMode::Error(text) => {
                let mut r = "Error: ".to_owned();
                r.append(text.as_str());
                r
            },
        }
    }
}

/// A size is written as its width, an `x` and its height, neither of them zero.
pub proof fn law_sizes_are_read(width: u16, height: u16)
    ensures
        ({
            let text = decimal(width as nat) + "x"@ + decimal(height as nat);
            if width > 0 && height > 0 {
                size_setting(text) == Ok::<_, TerminalSizeSettingError>(
                    TerminalSizeSetting::Fixed(Size { width, height }),
                )
            } else {
                size_setting(text) == Err::<TerminalSizeSetting, _>(
                    TerminalSizeSettingError::InvalidSizeError,
                )
            }
        }),
{
    let first = decimal(width as nat);
    let second = decimal(height as nat);
    let text = first + "x"@ + second;
    let at = first.len() as int;
    reveal_strlit("x");
    reveal_strlit("auto");
    law_decimal_parses_back(width as nat, u16::MAX as nat);
    law_decimal_parses_back(height as nat, u16::MAX as nat);
    assert(first.len() > 0);
    law_decimal_has_digits(width as nat, 0);
    assert(text[0] == first[0]);
    assert("auto"@[0] == 'a');
    assert(text.subrange(at, at + 1) =~= "x"@);
    assert(occurs_at(text, "x"@, at));
    assert forall|j: int| 0 <= j < at implies !occurs_at(text, "x"@, j) by {
        law_decimal_has_digits(width as nat, j);
        assert(text[j] == first[j]);
        assert(text.subrange(j, j + 1)[0] == text[j]);
        assert("x"@[0] == 'x');
    }
    law_first_occurrence_is_first(text, "x"@, at);
    assert(text.take(at) =~= first);
    assert(text.skip(at + 1) =~= second);
}

/// A setting without an `x` is the size of the window or nothing, and one whose numbers are none is
/// nothing.
pub proof fn law_other_settings(fmt: Seq<char>, rest: Seq<char>)
    requires
        !fmt.contains('x'),
    ensures
        fmt == "auto"@ ==> size_setting(fmt) == Ok::<_, TerminalSizeSettingError>(
            TerminalSizeSetting::Auto,
        ),
        fmt != "auto"@ ==> size_setting(fmt) == Err::<TerminalSizeSetting, _>(
            TerminalSizeSettingError::ParseError,
        ),
        size_setting(fmt + "x"@) == Err::<TerminalSizeSetting, _>(
            TerminalSizeSettingError::ParseError,
        ),
        size_setting("x"@ + rest) == Err::<TerminalSizeSetting, _>(
            TerminalSizeSettingError::ParseError,
        ),
{
    reveal_strlit("x");
    reveal_strlit("auto");
    assert forall|j: int| 0 <= j < fmt.len() implies !occurs_at(fmt, "x"@, j) by {
        assert(fmt.contains(fmt[j]));
        assert(fmt.subrange(j, j + 1)[0] == fmt[j]);
        assert("x"@[0] == 'x');
    }
    law_first_occurrence_is_first(fmt, "x"@, 0);
    if let Some(at) = first_occurrence(fmt, "x"@) {
        law_first_occurrence_is_first(fmt, "x"@, at);
    }
    let open = fmt + "x"@;
    let n = fmt.len() as int;
    assert(open.subrange(n, n + 1) =~= "x"@);
    assert forall|j: int| 0 <= j < n implies !occurs_at(open, "x"@, j) by {
        assert(fmt.contains(fmt[j]));
        assert(open.subrange(j, j + 1)[0] == fmt[j]);
        assert("x"@[0] == 'x');
    }
    law_first_occurrence_is_first(open, "x"@, n);
    assert(open.skip(n + 1) =~= Seq::<char>::empty());
    assert(open.last() == 'x');
    assert("auto"@.last() == 'o');
    let headless = "x"@ + rest;
    assert(headless.subrange(0, 1) =~= "x"@);
    law_first_occurrence_is_first(headless, "x"@, 0);
    assert(headless.take(0) =~= Seq::<char>::empty());
    assert(headless[0] == 'x');
    assert("auto"@[0] == 'a');
}

/// The mark stays in the list and goes one entry at a time; the letters do what the arrows do, and
/// other keys leave it where it is.
pub proof fn law_mark_goes_by_one(selected: nat, count: nat, code: KeyCode)
    requires
        selected < count,
    ensures
        moved(selected, count, code) < count,
        selected + 1 < count ==> moved(selected, count, KeyCode::Down) == selected + 1,
        selected + 1 == count ==> moved(selected, count, KeyCode::Down) == selected,
        selected > 0 ==> moved(selected, count, KeyCode::Up) == selected - 1,
        selected == 0 ==> moved(selected, count, KeyCode::Up) == 0,
        moved(selected, count, KeyCode::Char('j')) == moved(selected, count, KeyCode::Down),
        moved(selected, count, KeyCode::Char('k')) == moved(selected, count, KeyCode::Up),
        moved(selected, count, code) != selected ==> code == KeyCode::Down || code
            == KeyCode::Char('j') || code == KeyCode::Up || code == KeyCode::Char('k'),
{
}

/// The keys that move or edit are told apart by what is sent for them, and so are the function
/// keys.
pub proof fn law_keys_are_told_apart(a: KeyEvent, b: KeyEvent)
    requires
        !(a.code is Char),
        !(b.code is Char),
        bytes_of_key(a) is Some,
        bytes_of_key(a) == bytes_of_key(b),
    ensures
        a.code == b.code,
{
    let x = bytes_of_key(a)->0;
    let y = bytes_of_key(b)->0;
    assert(x.len() == y.len());
    assert(x[0] == y[0]);
    if x.len() > 1 {
        assert(x[1] == y[1]);
        assert(x[2] == y[2]);
    }
    if x.len() > 3 {
        assert(x[3] == y[3]);
    }
}

/// Arrows and the keys around them are sent as escape sequences that end in the key's own letter
/// or number.
pub proof fn law_escape_sequences(key: KeyEvent)
    ensures
        match key.code {
            KeyCode::Up => bytes_of_key(key) == Some(seq![27u8, 91u8, 65u8]),
            KeyCode::Down => bytes_of_key(key) == Some(seq![27u8, 91u8, 66u8]),
            KeyCode::Right => bytes_of_key(key) == Some(seq![27u8, 91u8, 67u8]),
            KeyCode::Left => bytes_of_key(key) == Some(seq![27u8, 91u8, 68u8]),
            KeyCode::Home => bytes_of_key(key) == Some(seq![27u8, 91u8, 72u8]),
            KeyCode::End => bytes_of_key(key) == Some(seq![27u8, 91u8, 70u8]),
            KeyCode::Insert => bytes_of_key(key) == Some(seq![27u8, 91u8, 50u8, 126u8]),
            KeyCode::Delete => bytes_of_key(key) == Some(seq![27u8, 91u8, 51u8, 126u8]),
            KeyCode::PageUp => bytes_of_key(key) == Some(seq![27u8, 91u8, 53u8, 126u8]),
            KeyCode::PageDown => bytes_of_key(key) == Some(seq![27u8, 91u8, 54u8, 126u8]),
            KeyCode::BackTab => bytes_of_key(key) == Some(seq![27u8, 91u8, 90u8]),
            KeyCode::Enter => bytes_of_key(key) == Some(seq![13u8]),
            KeyCode::Backspace => bytes_of_key(key) == Some(seq![127u8]),
            KeyCode::Tab => bytes_of_key(key) == Some(seq![9u8]),
            KeyCode::Esc => bytes_of_key(key) == Some(seq![27u8]),
            KeyCode::Char(c) => bytes_of_key(key) is Some && (!key.control ==> bytes_of_key(key)
                == Some(vstd::utf8::encode_utf8(seq![c]))),
            KeyCode::F(n) => {
                &&& bytes_of_key(key) is Some <==> 1 <= n <= 12
                &&& 1 <= n <= 4 ==> bytes_of_key(key) == Some(seq![27u8, 79u8, (79 + n) as u8])
                &&& 5 <= n <= 12 ==> bytes_of_key(key) == Some(
                    seq![27u8, 91u8] + decimal(function_number(n)).map_values(|c: char| c as u8)
                        + seq![126u8],
                )
            },
            KeyCode::Other => bytes_of_key(key) is None,
        },
{
    if let KeyCode::F(n) = key.code {
        if 5 <= n <= 12 {
            reveal_with_fuel(decimal, 2);
            let digits = decimal(function_number(n)).map_values(|c: char| c as u8);
            let sent = function_bytes(n)->0;
            assert(digits.len() == 2);
            assert(sent =~= seq![27u8, 91u8] + digits + seq![126u8]);
        }
    }
}

/// The number by which a terminal tells a function key above the fourth: they are counted from
/// eleven on, and one number is left out after every fifth key.
pub open spec fn function_number(n: u8) -> nat {
    if n <= 5 {
        (10 + n) as nat
    } else if n <= 10 {
        (11 + n) as nat
    } else {
        (12 + n) as nat
    }
}

/// After the escape, scrolling up and then down ends where it began; a key that is no command does
/// nothing.
pub proof fn law_commands(r: RunAction, code: KeyCode, scrollback: usize)
    requires
        scrollback < usize::MAX,
        is_command(r, code, scrollback),
    ensures
        r is Exit <==> code == KeyCode::Char('q'),
        r is ChangeModes <==> code == KeyCode::Char('o') || code == KeyCode::Char('f') || code
            == KeyCode::Char('r'),
        r matches RunAction::ChangeModes(modes) ==> {
            &&& modes@.last()@ == if code == KeyCode::Char('f') {
                "off"@
            } else {
                "on"@
            }
            &&& modes@.len() == if code == KeyCode::Char('r') {
                2int
            } else {
                1
            }
            &&& modes@.len() == 2 ==> modes@[0]@ == "off"@
        },
        r matches RunAction::SetScrollback(to) ==> {
            &&& to > scrollback ==> code == KeyCode::Char('k') && to == scrollback + 1
            &&& code == KeyCode::Char('j') ==> to == scrollback - 1
            &&& code == KeyCode::Enter || code == KeyCode::Char('0') ==> to == 0
        },
        r is SetScrollback <==> code == KeyCode::Char('k') || code == KeyCode::Enter || code
            == KeyCode::Char('0') || (code == KeyCode::Char('j') && scrollback > 0),
        !(r is Send),
{
    if let RunAction::ChangeModes(modes) = r {
        let names = texts(modes@);
        assert(names.len() == modes@.len());
        assert(names[0] == modes@[0]@);
        assert(names[names.len() - 1] == modes@.last()@);
    }
}

} // verus!
