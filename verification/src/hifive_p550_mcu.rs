//! The management controller of HiFive P550 boards: a dialog over a serial line that switches
//! the power of the module and selects what it boots from.

use vstd::prelude::*;

use crate::bits::{bit, get_bit};
use crate::providers::named_properties;
use crate::registry::{properties_match, Properties, NAME};
use crate::serial::{find_port_name, port_name};
use crate::text::{
    chars_of, contains, decimal, eq_ignore_case, last_occurrence, law_last_occurrence_is_last,
    law_patterns_stand_by_characters, occurs, occurs_at, rfind, same_but_case, str_eq, string_of,
    strip_prefix,
};
use crate::udev::{item_properties, property_number, Device};

verus! {

/// Name of the provider.
pub const PROVIDER: &'static str = "hifive-p550-mcu";

/// What can be controlled.
#[derive(Copy, Clone, Debug, PartialEq, Eq, Structural)]
pub enum McuCommand {
    /// The power of the module.
    HifiveP550McuSomPower,
    /// What the module boots from.
    HifiveP550McuBootSel,
}

impl McuCommand {
    /// Name of the actuator.
    pub open spec fn name_text(self) -> Seq<char> {
        match self {
            McuCommand::HifiveP550McuSomPower => "hifive-p550-mcu-som-power"@,
            McuCommand::HifiveP550McuBootSel => "hifive-p550-mcu-boot-sel"@,
        }
    }

    /// Name of the actuator.
    pub fn name(&self) -> (r: &'static str)
        ensures
            r@ == self.name_text(),
    {
        match self {
            McuCommand::HifiveP550McuSomPower => "hifive-p550-mcu-som-power",
            McuCommand::HifiveP550McuBootSel => "hifive-p550-mcu-boot-sel",
        }
    }
}

/// Whether the module has power.
#[derive(Copy, Clone, Debug, PartialEq, Eq, Structural)]
pub enum SomPowerMode {
    /// No power.
    Off,
    /// Power.
    On,
}

impl SomPowerMode {
    /// The name of the mode.
    pub open spec fn name(self) -> Seq<char> {
        match self {
            SomPowerMode::Off => "off"@,
            SomPowerMode::On => "on"@,
        }
    }

    /// The value to set.
    pub open spec fn value(self) -> u8 {
        match self {
            SomPowerMode::Off => 0,
            SomPowerMode::On => 1,
        }
    }

    /// What the controller says once it is set.
    pub open spec fn confirmation(self) -> Seq<char> {
        match self {
            SomPowerMode::Off => "STOP_POWER"@,
            SomPowerMode::On => "POWERON"@,
        }
    }

    /// The value to set, and what the controller says once it is set.
    pub fn to_status(&self) -> (r: (u8, String))
        ensures
            r.0 == self.value(),
            r.1@ == self.confirmation(),
    {
        match self {
            SomPowerMode::Off => (0, "STOP_POWER".to_owned()),
            SomPowerMode::On => (1, "POWERON".to_owned()),
        }
    }

    /// The name of the mode.
    pub fn as_str(&self) -> (r: &'static str)
        ensures
            r@ == self.name(),
    {
        match self {
            SomPowerMode::Off => "off",
            SomPowerMode::On => "on",
        }
    }
}

/// What the module boots from.
#[derive(Copy, Clone, Debug, PartialEq, Eq, Structural)]
pub enum BootSelMode {
    /// What the switches on the board say.
    Hardware,
    /// USB.
    Usb,
}

/// The digit of a bit.
pub open spec fn bit_char(b: u8) -> char {
    if b == 0 {
        '0'
    } else {
        '1'
    }
}

/// The four lowest bits as text, highest first.
pub open spec fn bits_text(value: u8) -> Seq<char> {
    seq![
        bit_char(bit(value, 3)),
        ' ',
        bit_char(bit(value, 2)),
        ' ',
        bit_char(bit(value, 1)),
        ' ',
        bit_char(bit(value, 0)),
    ]
}

impl BootSelMode {
    /// Who controls the selection.
    pub open spec fn controller(self) -> Seq<char> {
        match self {
            BootSelMode::Hardware => "HW"@,
            BootSelMode::Usb => "SW"@,
        }
    }

    /// The value to set.
    pub open spec fn value(self) -> u8 {
        match self {
            BootSelMode::Hardware => 0,
            BootSelMode::Usb => 3,
        }
    }

    /// The bits that the controller shows, where they matter.
    pub open spec fn bits(self) -> Option<Seq<char>> {
        match self {
            BootSelMode::Hardware => None,
            BootSelMode::Usb => Some(bits_text(3)),
        }
    }

    /// Who controls the selection, the value to set, and the bits that the controller shows.
    pub fn to_status(&self) -> (r: (String, u8, Option<String>))
        ensures
            r.0@ == self.controller(),
            r.1 == self.value(),
            match r.2 {
                Some(bits) => self.bits() == Some(bits@),
                None => self.bits() is None,
            },
    {
        match self {
            BootSelMode::Hardware => ("HW".to_owned(), 0, None),
            BootSelMode::Usb => {
                let value: u8 = 0x3;
                ("SW".to_owned(), value, Some(BootSelMode::format_bits(&value)))
            },
        }
    }

    /// The four lowest bits as text, highest first.
    pub fn format_bits(value: &u8) -> (r: String)
        ensures
            r@ == bits_text(*value),
    {
        let mut r = String::new();
        push_bit(&mut r, get_bit(*value, 3));
        r.push(' ');
        push_bit(&mut r, get_bit(*value, 2));
        r.push(' ');
        push_bit(&mut r, get_bit(*value, 1));
        r.push(' ');
        push_bit(&mut r, get_bit(*value, 0));
        assert(r@ =~= bits_text(*value));
        r
    }
}

fn push_bit(s: &mut String, b: u8)
    ensures
        final(s)@ == old(s)@.push(bit_char(b)),
{
    if b == 0 {
        s.push('0');
    } else {
        s.push('1');
    }
}

/// What the controller is asked for.
#[derive(Copy, Clone, Debug, PartialEq, Eq, Structural)]
pub enum ChannelMessage {
    /// Switch the power.
    SomPower(SomPowerMode),
    /// Select what to boot from.
    BootSel(BootSelMode),
}

/// Where the dialog with the controller is.
#[derive(Copy, Clone, Debug, PartialEq, Eq, Structural)]
pub enum DialogState {
    /// Waiting for the prompt.
    Prompt,
    /// Waiting for how things are set.
    Status,
    /// Waiting for the setting to be confirmed.
    Confirmation,
    /// Over.
    Over,
}

/// What came from the controller.
#[derive(Debug)]
pub enum McuEvent {
    /// Nothing yet.
    Begin,
    /// The four bytes behind the first `#`.
    Prompt([u8; 4]),
    /// A line.
    Line(String),
}

/// What to do next.
#[derive(Debug)]
pub enum McuAction {
    /// Send the text, then read up to the first `#` and four bytes more.
    SendForPrompt(String),
    /// Send the text, then read a line.
    SendForLine(String),
    /// Read another line.
    ReadLine,
    /// The controller is in the state that was asked for.
    Done,
    /// The controller said something else than expected.
    ResponseParse,
}

/// What to do next, with texts as sequences.
pub enum McuActionView {
    /// Send the text, then read up to the first `#` and four bytes more.
    SendForPrompt(Seq<char>),
    /// Send the text, then read a line.
    SendForLine(Seq<char>),
    /// Read another line.
    ReadLine,
    /// The controller is in the state that was asked for.
    Done,
    /// The controller said something else than expected.
    ResponseParse,
}

impl View for McuAction {
    type V = McuActionView;

    open spec fn view(&self) -> McuActionView {
        match *self {
            McuAction::SendForPrompt(s) => McuActionView::SendForPrompt(s@),
            McuAction::SendForLine(s) => McuActionView::SendForLine(s@),
            McuAction::ReadLine => McuActionView::ReadLine,
            McuAction::Done => McuActionView::Done,
            McuAction::ResponseParse => McuActionView::ResponseParse,
        }
    }
}

/// The power mode that a line tells of.
pub open spec fn power_status(line: Seq<char>) -> Option<Seq<char>> {
    if "Som Power Status: "@.is_prefix_of(line) {
        Some(line.skip("Som Power Status: "@.len() as int))
    } else {
        None
    }
}

/// Who controls the boot selection and with which bits, as a line with this start tells.
pub open spec fn bootsel_status(line: Seq<char>, start: Seq<char>) -> Option<
    (Seq<char>, Seq<char>),
> {
    if start.is_prefix_of(line) {
        let rest = line.skip(start.len() as int);
        let separator = ", bootsel[3 2 1 0]:"@;
        match last_occurrence(rest, separator) {
            Some(at) => Some((rest.take(at), rest.skip(at + separator.len()))),
            None => None,
        }
    } else {
        None
    }
}

/// Whether the boot selection is what was asked for.
pub open spec fn bootsel_is(mode: BootSelMode, status: (Seq<char>, Seq<char>)) -> bool {
    &&& status.0 == mode.controller()
    &&& mode.bits() is None || mode.bits()->0 == status.1
}

/// The start of lines that tell how the boot selection is.
pub const BOOTSEL_GET: &'static str = "Get: Bootsel Controlled by: ";

/// The start of lines that tell what the boot selection was set to.
pub const BOOTSEL_SET: &'static str = "Set: Bootsel Controlled by: ";

/// The request for the current setting.
pub open spec fn get_request(message: ChannelMessage) -> Seq<char> {
    match message {
        ChannelMessage::SomPower(_) => "sompower-g\n"@,
        ChannelMessage::BootSel(_) => "bootsel-g\n"@,
    }
}

/// The request for another setting.
pub open spec fn set_request(message: ChannelMessage) -> Seq<char> {
    match message {
        ChannelMessage::SomPower(mode) => "sompower-s "@ + seq![bit_char(mode.value()), '\n'],
        ChannelMessage::BootSel(mode) => match mode {
            BootSelMode::Hardware => "bootsel-s HW 0x0\n"@,
            BootSelMode::Usb => "bootsel-s SW 0x3\n"@,
        },
    }
}

/// The state of the dialog and what to do after an event.
pub open spec fn dialog_next(message: ChannelMessage, state: DialogState, event: McuEvent) -> (
    DialogState,
    McuActionView,
) {
    match event {
        McuEvent::Begin => (DialogState::Prompt, McuActionView::SendForPrompt("\n"@)),
        McuEvent::Prompt(bytes) => if bytes@ == seq![0x63u8, 0x6du8, 0x64u8, 0x3au8] {
            (DialogState::Status, McuActionView::SendForLine(get_request(message)))
        } else {
            (DialogState::Over, McuActionView::ResponseParse)
        },
        McuEvent::Line(line) => match message {
            ChannelMessage::SomPower(mode) => if state == DialogState::Status {
                match power_status(line@) {
                    None => (state, McuActionView::ReadLine),
                    Some(current) => if same_but_case(current, mode.name()) {
                        (DialogState::Over, McuActionView::Done)
                    } else {
                        (
                            DialogState::Confirmation,
                            McuActionView::SendForLine(set_request(message)),
                        )
                    },
                }
            } else if occurs(line@, mode.confirmation()) {
                (DialogState::Over, McuActionView::Done)
            } else {
                (state, McuActionView::ReadLine)
            },
            ChannelMessage::BootSel(mode) => if state == DialogState::Status {
                match bootsel_status(line@, BOOTSEL_GET@) {
                    None => (state, McuActionView::ReadLine),
                    Some(status) => if bootsel_is(mode, status) {
                        (DialogState::Over, McuActionView::Done)
                    } else {
                        (
                            DialogState::Confirmation,
                            McuActionView::SendForLine(set_request(message)),
                        )
                    },
                }
            } else {
                match bootsel_status(line@, BOOTSEL_SET@) {
                    None => (state, McuActionView::ReadLine),
                    Some(status) => (
                        DialogState::Over,
                        if bootsel_is(mode, status) {
                            McuActionView::Done
                        } else {
                            McuActionView::ResponseParse
                        },
                    ),
                }
            },
        },
    }
}

/// A dialog with the controller.
#[derive(Debug)]
pub struct McuDialog {
    message: ChannelMessage,
    state: DialogState,
}

fn parse_bootsel(line: &str, start: &str) -> (r: Option<(String, String)>)
    ensures
        match r {
            Some((mode, bits)) => bootsel_status(line@, start@) == Some((mode@, bits@)),
            None => bootsel_status(line@, start@) is None,
        },
{
    match strip_prefix(line, start) {
        None => None,
        Some(rest) => {
            let chars = chars_of(rest.as_str());
            let separator = chars_of(", bootsel[3 2 1 0]:");
            match rfind(&chars, &separator) {
                None => None,
                Some(at) => {
                    let end: usize = chars.len();
                    let mode = string_of(&chars, 0, at);
                    let bits = string_of(&chars, at + separator.len(), end);
                    proof {
                        assert(mode@ =~= rest@.take(at as int));
                        assert(bits@ =~= rest@.skip(at + separator@.len()));
                    }
                    Some((mode, bits))
                },
            }
        },
    }
}

fn is_selected(mode: &BootSelMode, controller: &str, bits: &str) -> (r: bool)
    ensures
        r == bootsel_is(*mode, (controller@, bits@)),
{
    let (wanted, _, wanted_bits) = mode.to_status();
    str_eq(controller, wanted.as_str()) && match wanted_bits {
        Some(b) => str_eq(b.as_str(), bits),
        None => true,
    }
}

impl McuDialog {
    /// What the controller is asked for.
    pub closed spec fn asked(self) -> ChannelMessage {
        self.message
    }

    /// Where the dialog is.
    pub closed spec fn at(self) -> DialogState {
        self.state
    }

    /// A dialog that did not begin.
    pub fn new(message: ChannelMessage) -> (r: Self)
        ensures
            r.asked() == message,
            r.at() == DialogState::Prompt,
    {
        McuDialog { message, state: DialogState::Prompt }
    }

    fn request_set(&mut self) -> (r: McuAction)
        ensures
            final(self).asked() == old(self).asked(),
            final(self).at() == DialogState::Confirmation,
            r@ == McuActionView::SendForLine(set_request(old(self).asked())),
    {
        self.state = DialogState::Confirmation;
        match self.message {
            ChannelMessage::SomPower(mode) => {
                let (value, _) = mode.to_status();
                let mut request = "sompower-s ".to_owned();
                push_bit(&mut request, value);
                request.push('\n');
                assert(request@ =~= set_request(self.message));
                McuAction::SendForLine(request)
            },
            ChannelMessage::BootSel(mode) => match mode {
                BootSelMode::Hardware => McuAction::SendForLine("bootsel-s HW 0x0\n".to_owned()),
                BootSelMode::Usb => McuAction::SendForLine("bootsel-s SW 0x3\n".to_owned()),
            },
        }
    }

    fn line(&mut self, line: &str) -> (r: McuAction)
        ensures
            final(self).asked() == old(self).asked(),
            forall|s: String|
                s@ == line@ ==> (final(self).at(), r@) == #[trigger] dialog_next(
                    old(self).asked(),
                    old(self).at(),
                    McuEvent::Line(s),
                ),
    {
        match self.message {
            ChannelMessage::SomPower(mode) => {
                if self.state == DialogState::Status {
                    match strip_prefix(line, "Som Power Status: ") {
                        None => McuAction::ReadLine,
                        Some(current) => {
                            if eq_ignore_case(current.as_str(), mode.as_str()) {
                                self.state = DialogState::Over;
                                McuAction::Done
                            } else {
                                self.request_set()
                            }
                        },
                    }
                } else {
                    let (_, confirmation) = mode.to_status();
                    if contains(line, confirmation.as_str()) {
                        self.state = DialogState::Over;
                        McuAction::Done
                    } else {
                        McuAction::ReadLine
                    }
                }
            },
            ChannelMessage::BootSel(mode) => {
                if self.state == DialogState::Status {
                    match parse_bootsel(line, BOOTSEL_GET) {
                        None => McuAction::ReadLine,
                        Some((controller, bits)) => {
                            if is_selected(&mode, controller.as_str(), bits.as_str()) {
                                self.state = DialogState::Over;
                                McuAction::Done
                            } else {
                                self.request_set()
                            }
                        },
                    }
                } else {
                    match parse_bootsel(line, BOOTSEL_SET) {
                        None => McuAction::ReadLine,
                        Some((controller, bits)) => {
                            self.state = DialogState::Over;
                            if is_selected(&mode, controller.as_str(), bits.as_str()) {
                                McuAction::Done
                            } else {
                                McuAction::ResponseParse
                            }
                        },
                    }
                }
            },
        }
    }

    /// Takes in what came from the controller and tells what to do next.
    pub fn step(&mut self, event: McuEvent) -> (r: McuAction)
        ensures
            final(self).asked() == old(self).asked(),
            (final(self).at(), r@) == dialog_next(old(self).asked(), old(self).at(), event),
    {
        match event {
            McuEvent::Begin => {
                self.state = DialogState::Prompt;
                McuAction::SendForPrompt("\n".to_owned())
            },
            McuEvent::Prompt(bytes) => {
                let right = bytes[0] == 0x63 && bytes[1] == 0x6d && bytes[2] == 0x64 && bytes[3]
                    == 0x3a;
                proof {
                    if right {
                        assert(bytes@ =~= seq![0x63u8, 0x6du8, 0x64u8, 0x3au8]);
                    }
                }
                if right {
                    self.state = DialogState::Status;
                    match self.message {
                        ChannelMessage::SomPower(_) => McuAction::SendForLine(
                            "sompower-g\n".to_owned(),
                        ),
                        ChannelMessage::BootSel(_) => McuAction::SendForLine(
                            "bootsel-g\n".to_owned(),
                        ),
                    }
                } else {
                    self.state = DialogState::Over;
                    McuAction::ResponseParse
                }
            },
            McuEvent::Line(line) => self.line(line.as_str()),
        }
    }
}

/// Whether a serial port is one of a controller.
pub open spec fn is_controller(device: Device) -> bool {
    &&& property_number(device.properties@, "ID_VENDOR_ID"@, 16) == Some(0x0403nat)
    &&& property_number(device.properties@, "ID_MODEL_ID"@, 16) == Some(0x6011nat)
}

/// Finds the controllers among the serial ports.
#[derive(Debug)]
pub struct HifiveP550MCUProvider {
    match_: Vec<(String, String)>,
}

impl HifiveP550MCUProvider {
    /// The properties that a controller has to have.
    pub closed spec fn wanted(self) -> Seq<(String, String)> {
        self.match_@
    }

    /// A provider for controllers with these properties.
    pub fn new(match_: Vec<(String, String)>) -> (r: Self)
        ensures
            r.wanted() == match_@,
    {
        HifiveP550MCUProvider { match_ }
    }

    /// The properties of a controller, where the serial port is one of a controller that is
    /// wanted and has a node with a name. The port comes first, its parents behind it.
    pub fn handle(&self, chain: &Vec<Device>, node: Option<&str>) -> (r: Option<Properties>)
        requires
            chain@.len() > 0,
        ensures
            match r {
                Some(properties) => {
                    &&& is_controller(chain@[0])
                    &&& port_name(node) is Some
                    &&& properties.wf()
                    &&& properties@ == named_properties(port_name(node)->0, chain@)
                    &&& properties_match(properties@, self.wanted())
                },
                None => {
                    ||| !is_controller(chain@[0])
                    ||| port_name(node) is None
                    ||| !properties_match(
                        named_properties(port_name(node)->0, chain@),
                        self.wanted(),
                    )
                },
            },
    {
        let device = &chain[0];
        match device.property_u64("ID_VENDOR_ID", 16) {
            Some(0x0403) => {},
            _ => {
                return None;
            },
        }
        match device.property_u64("ID_MODEL_ID", 16) {
            Some(0x6011) => {},
            _ => {
                return None;
            },
        }
        match find_port_name(node) {
            Some(name) => {
                let properties = item_properties(name.as_str(), chain);
                if properties.matches(&self.match_) {
                    Some(properties)
                } else {
                    None
                }
            },
            None => None,
        }
    }
}

/// Whether this is an actuator of a controller with these properties.
pub open spec fn is_actuator(
    actuator: (McuCommand, Properties),
    command: McuCommand,
    properties: Map<Seq<char>, Seq<char>>,
) -> bool {
    &&& actuator.0 == command
    &&& actuator.1.wf()
    &&& actuator.1@ == properties.insert(NAME@, command.name_text())
}

fn actuator(command: McuCommand, properties: Properties) -> (r: (McuCommand, Properties))
    requires
        properties.wf(),
    ensures
        is_actuator(r, command, properties@),
{
    let mut properties = properties;
    properties.insert(NAME, command.name());
    (command, properties)
}

/// The actuators of a controller with these properties, each under the name of what it controls.
pub fn actuators(properties: &Properties) -> (r: [(McuCommand, Properties); 2])
    requires
        properties.wf(),
    ensures
        is_actuator(r@[0], McuCommand::HifiveP550McuSomPower, properties@),
        is_actuator(r@[1], McuCommand::HifiveP550McuBootSel, properties@),
{
    [
        actuator(McuCommand::HifiveP550McuSomPower, properties.copy()),
        actuator(McuCommand::HifiveP550McuBootSel, properties.copy()),
    ]
}

/// A dialog never sets anything that is set already: a status line that shows the wanted power
/// ends it.
pub proof fn law_power_left_alone(mode: SomPowerMode, line: String, rest: Seq<char>)
    requires
        line@ == "Som Power Status: "@ + rest,
        same_but_case(rest, mode.name()),
    ensures
        dialog_next(
            ChannelMessage::SomPower(mode),
            DialogState::Status,
            McuEvent::Line(line),
        ) == (DialogState::Over, McuActionView::Done),
{
    let start = "Som Power Status: "@;
    assert(line@.take(start.len() as int) =~= start);
    assert(line@.skip(start.len() as int) =~= rest);
}

/// The bits of a boot selection are shown from the fourth to the first, apart by blanks.
pub proof fn law_bits_are_shown(value: u8, k: int)
    requires
        0 <= k < 4,
    ensures
        bits_text(value).len() == 7,
        bits_text(value)[2 * k] == '1' <==> bit(value, 3 - k) != 0,
        bits_text(value)[2 * k] == '0' <==> bit(value, 3 - k) == 0,
        k < 3 ==> bits_text(value)[2 * k + 1] == ' ',
{
}

/// A request that sets something says what to set it to, and a request that asks says nothing else.
pub proof fn law_requests(power: SomPowerMode, boot: BootSelMode)
    ensures
        set_request(ChannelMessage::SomPower(power)) == "sompower-s "@ + decimal(
            power.value() as nat,
        ) + "\n"@,
        set_request(ChannelMessage::BootSel(boot)) == "bootsel-s "@ + boot.controller() + " 0x"@
            + decimal(boot.value() as nat) + "\n"@,
        get_request(ChannelMessage::SomPower(power)) == "sompower-g\n"@,
        get_request(ChannelMessage::BootSel(boot)) == "bootsel-g\n"@,
        power.value() == 1 <==> power.name() == "on"@,
        power.value() == 0 <==> power.name() == "off"@,
        boot.value() == 3 <==> boot.controller() == "SW"@,
        boot.value() == 0 <==> boot.controller() == "HW"@,
        boot.bits() is Some ==> boot.bits() == Some(bits_text(boot.value())),
        boot.bits() is Some <==> boot.controller() == "SW"@,
        power is On ==> power.confirmation() == "POWERON"@,
        power is Off ==> power.confirmation() == "STOP_POWER"@,
{
    reveal_strlit("on");
    reveal_strlit("off");
    reveal_strlit("HW");
    reveal_strlit("SW");
    reveal_strlit("\n");
    reveal_strlit(" 0x");
    reveal_strlit("bootsel-s ");
    reveal_strlit("sompower-s ");
    reveal_strlit("bootsel-s HW 0x0\n");
    reveal_strlit("bootsel-s SW 0x3\n");
    assert("on"@.len() == 2 && "off"@.len() == 3);
    assert("HW"@[0] == 'H' && "SW"@[0] == 'S');
    assert(decimal(0)[0] == '0' && decimal(1)[0] == '1' && decimal(3)[0] == '3');
    assert(set_request(ChannelMessage::SomPower(power)) =~= "sompower-s "@ + decimal(
        power.value() as nat,
    ) + "\n"@);
    assert(set_request(ChannelMessage::BootSel(boot)) =~= "bootsel-s "@ + boot.controller()
        + " 0x"@ + decimal(boot.value() as nat) + "\n"@);
}

/// A line of the power tells what stands behind its start, and no other line tells of it.
pub proof fn law_power_lines(line: Seq<char>, rest: Seq<char>)
    ensures
        power_status("Som Power Status: "@ + rest) == Some(rest),
        power_status(line) == Some(rest) ==> line == "Som Power Status: "@ + rest,
{
    let start = "Som Power Status: "@;
    let whole = start + rest;
    assert(whole.take(start.len() as int) =~= start);
    assert(whole.skip(start.len() as int) =~= rest);
    if power_status(line) == Some(rest) {
        assert(line =~= start + rest);
    }
}

/// A line of the boot selection tells who controls it and the bits, apart at the last separator.
pub proof fn law_bootsel_lines(start: Seq<char>, who: Seq<char>, bits: Seq<char>, line: Seq<char>)
    ensures
        (forall|j: int|
            who.len() < j <= (who + ", bootsel[3 2 1 0]:"@ + bits).len() ==> !occurs_at(
                who + ", bootsel[3 2 1 0]:"@ + bits,
                ", bootsel[3 2 1 0]:"@,
                j,
            )) ==> bootsel_status(start + (who + ", bootsel[3 2 1 0]:"@ + bits), start) == Some(
            (who, bits),
        ),
        bootsel_status(line, start) == Some((who, bits)) ==> line == start + (who
            + ", bootsel[3 2 1 0]:"@ + bits),
{
    let separator = ", bootsel[3 2 1 0]:"@;
    let rest = who + separator + bits;
    let whole = start + rest;
    let n = start.len() as int;
    assert(whole.take(n) =~= start);
    assert(whole.skip(n) =~= rest);
    law_patterns_stand_by_characters(who, separator, bits, 0);
    law_last_occurrence_is_last(rest, separator, who.len() as int);
    assert(rest.take(who.len() as int) =~= who);
    assert(rest.skip((who.len() + separator.len()) as int) =~= bits);
    if bootsel_status(line, start) == Some((who, bits)) {
        let behind = line.skip(n);
        let at = last_occurrence(behind, separator)->0;
        law_last_occurrence_is_last(behind, separator, at);
        assert(behind.subrange(at, at + separator.len()) == separator);
        assert(behind =~= who + separator + bits);
        assert(line =~= start + behind);
    }
}

/// A dialog is done only once a line showed the wanted power: as the status, or as the answer to
/// the request to set it. It asks for the power to be set only if the status is another.
pub proof fn law_power_dialog(mode: SomPowerMode, state: DialogState, line: String)
    ensures
        ({
            let (next, action) = dialog_next(
                ChannelMessage::SomPower(mode),
                state,
                McuEvent::Line(line),
            );
            let told = power_status(line@);
            &&& state is Status ==> {
                &&& action is Done <==> told is Some && same_but_case(told->0, mode.name())
                &&& action is ReadLine <==> told is None
                &&& action is SendForLine ==> action->SendForLine_0 == set_request(
                    ChannelMessage::SomPower(mode),
                ) && next is Confirmation
                &&& action is Done || action is ReadLine || action is SendForLine
            }
            &&& !(state is Status) ==> {
                &&& action is Done <==> occurs(line@, mode.confirmation())
                &&& action is Done || action is ReadLine
            }
            &&& action is Done ==> next is Over
            &&& action is ReadLine ==> next == state
        }),
{
}

/// The same of the boot selection, whose answer to the request to set it may also show that it was
/// not done.
pub proof fn law_bootsel_dialog(mode: BootSelMode, state: DialogState, line: String)
    ensures
        ({
            let (next, action) = dialog_next(
                ChannelMessage::BootSel(mode),
                state,
                McuEvent::Line(line),
            );
            let told = if state is Status {
                bootsel_status(line@, "Get: Bootsel Controlled by: "@)
            } else {
                bootsel_status(line@, "Set: Bootsel Controlled by: "@)
            };
            let wanted = match told {
                Some((who, bits)) => who == mode.controller() && (mode is Usb ==> bits
                    == bits_text(3)),
                None => false,
            };
            &&& action is Done <==> wanted
            &&& action is ReadLine <==> told is None
            &&& told is Some && !wanted && state is Status ==> next is Confirmation && action
                == McuActionView::SendForLine(set_request(ChannelMessage::BootSel(mode)))
            &&& told is Some && !wanted && !(state is Status) ==> action is ResponseParse && next
                is Over
            &&& action is Done ==> next is Over
            &&& action is ReadLine ==> next == state
        }),
{
}

/// A dialog begins with an empty line and goes on to ask only after the prompt.
pub proof fn law_dialog_waits_for_prompt(
    message: ChannelMessage,
    state: DialogState,
    bytes: [u8; 4],
)
    ensures
        dialog_next(message, state, McuEvent::Begin) == (
            DialogState::Prompt,
            McuActionView::SendForPrompt(seq!['\n']),
        ),
        bytes@ == "cmd:"@.map_values(|c: char| c as u8) ==> dialog_next(
            message,
            state,
            McuEvent::Prompt(bytes),
        ) == (DialogState::Status, McuActionView::SendForLine(get_request(message))),
        bytes@ != "cmd:"@.map_values(|c: char| c as u8) ==> dialog_next(
            message,
            state,
            McuEvent::Prompt(bytes),
        ) == (DialogState::Over, McuActionView::ResponseParse),
{
    reveal_strlit("\n");
    reveal_strlit("cmd:");
    assert("\n"@ =~= seq!['\n']);
    assert("cmd:"@.map_values(|c: char| c as u8) =~= seq![0x63u8, 0x6du8, 0x64u8, 0x3au8]);
}

} // verus!
