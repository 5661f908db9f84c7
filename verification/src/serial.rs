//! Serial ports: which of them are consoles, and which belong to a board that is driven over them.

use vstd::prelude::*;

use crate::path::{file_name_of, last_part};
use crate::providers::{
    brom_device, debug_board_name, debug_board_serial, is_debug_board, named_properties,
    offered_properties, QCOMLTActuatorType,
};
use crate::registry::{properties_match, Properties, NAME, PROVIDER, PROVIDER_NAME};
use crate::text::{append_decimal, decimal};
use crate::udev::{first_value, item_properties, property_number, Device};

verus! {

/// The name of a port out of its node, where it has one.
pub open spec fn port_name(node: Option<&str>) -> Option<Seq<char>> {
    match node {
        Some(node) => last_part(node@),
        None => None,
    }
}

pub(crate) fn find_port_name(node: Option<&str>) -> (r: Option<String>)
    ensures
        match port_name(node) {
            Some(name) => r is Some && r->0@ == name,
            None => r is None,
        },
{
    match node {
        Some(node) => file_name_of(node),
        None => None,
    }
}

fn port_properties(
    name: &str,
    chain: &Vec<Device>,
    provider_name: &str,
    provider: &str,
) -> (r: Properties)
    ensures
        r.wf(),
        r@ == offered_properties(name@, chain@, provider_name@, provider@),
{
    let mut properties = item_properties(name, chain);
    properties.insert(PROVIDER_NAME, provider_name);
    properties.insert(PROVIDER, provider);
    properties
}

/// Whether these are the properties of a port, or there are none because it has no name.
pub open spec fn is_port(
    properties: Option<Properties>,
    node: Option<&str>,
    chain: Seq<Device>,
    provider_name: Seq<char>,
    provider: Seq<char>,
) -> bool {
    match port_name(node) {
        Some(name) => {
            &&& properties is Some
            &&& properties->0.wf()
            &&& properties->0@ == offered_properties(name, chain, provider_name, provider)
        },
        None => properties is None,
    }
}

/// The properties of the console on a serial port, which comes first, its parents behind it. A
/// port without a parent is no real one, and one that is `handled` otherwise is left alone.
pub fn serial_console(
    chain: &Vec<Device>,
    node: Option<&str>,
    handled: bool,
    provider_name: &str,
) -> (r: Option<Properties>)
    ensures
        if chain@.len() < 2 || handled {
            r is None
        } else {
            is_port(r, node, chain@, provider_name@, "serial"@)
        },
{
    if chain.len() < 2 || handled {
        return None;
    }
    match find_port_name(node) {
        Some(name) => Some(port_properties(name.as_str(), chain, provider_name, "serial")),
        None => None,
    }
}

/// A serial port that is used as a console.
#[derive(Debug)]
pub struct SerialPort {
    /// Its node.
    pub path: String,
    /// How many bits a second it carries.
    pub rate: u32,
}

impl SerialPort {
    /// A port at the usual speed.
    pub fn new(path: String) -> (r: Self)
        ensures
            r == (SerialPort { path, rate: 115200 }),
    {
        SerialPort { path, rate: 115_200 }
    }

    /// Sets the speed that the port is opened with next.
    pub fn configure(&mut self, rate: u32)
        ensures
            *final(self) == (SerialPort { rate, ..*old(self) }),
    {
        self.rate = rate;
    }
}

/// What is sent over a serial port under a name.
#[derive(Debug)]
pub struct Command {
    /// The name.
    pub name: String,
    /// What is sent.
    pub message: String,
}

/// The properties of the actuators for the commands that are sent over a serial port, where the
/// properties of the port are those that are wanted. The port comes first, its parents behind
/// it.
pub fn serial_commands(
    chain: &Vec<Device>,
    node: Option<&str>,
    wanted: &Vec<(String, String)>,
    commands: &Vec<Command>,
    provider_name: &str,
) -> (r: Option<Vec<Properties>>)
    ensures
        match port_name(node) {
            Some(name) => if properties_match(named_properties(name, chain@), wanted@) {
                &&& r is Some
                &&& r->0@.len() == commands@.len()
                &&& forall|i: int|
                    0 <= i < commands@.len() ==> (#[trigger] r->0@[i]).wf() && r->0@[i]@
                        == offered_properties(
                        name,
                        chain@,
                        provider_name@,
                        "serial-command"@,
                    ).insert(NAME@, commands@[i].name@)
            } else {
                r is None
            },
            None => r is None,
        },
{
    let name = match find_port_name(node) {
        Some(name) => name,
        None => {
            return None;
        },
    };
    if !item_properties(name.as_str(), chain).matches(wanted) {
        return None;
    }
    let mut r: Vec<Properties> = Vec::new();
    for i in 0..commands.len()
        invariant
            r@.len() == i,
            forall|j: int|
                0 <= j < i ==> (#[trigger] r@[j]).wf() && r@[j]@ == offered_properties(
                    name@,
                    chain@,
                    provider_name@,
                    "serial-command"@,
                ).insert(NAME@, commands@[j].name@),
    {
        let mut properties = port_properties(
            name.as_str(),
            chain,
            provider_name,
            "serial-command",
        );
        properties.insert(NAME, commands[i].name.as_str());
        r.push(properties);
    }
    Some(r)
}

/// Whether a device is a board in its MediaTek boot rom.
pub open spec fn is_brom(device: Device) -> bool {
    &&& property_number(device.properties@, "ID_VENDOR_ID"@, 16) == Some(0x0e8dnat)
    &&& property_number(device.properties@, "ID_MODEL_ID"@, 16) == Some(0x0003nat)
}

/// The properties of the volume of a board in its MediaTek boot rom. Its serial port comes first,
/// the parents of that behind it.
pub fn brom_volume(chain: &Vec<Device>, node: Option<&str>, provider_name: &str) -> (r: Option<
    Properties,
>)
    requires
        chain@.len() > 0,
    ensures
        if is_brom(chain@[0]) {
            is_port(r, node, chain@, provider_name@, "mediatek-brom"@)
        } else {
            r is None
        },
{
    if !brom_device(&chain[0]) {
        return None;
    }
    match find_port_name(node) {
        Some(name) => Some(port_properties(name.as_str(), chain, provider_name, "mediatek-brom")),
        None => None,
    }
}

/// A digit of a hexadecimal number.
pub open spec fn hex_char(n: int) -> char {
    "0123456789abcdef"@[n]
}

/// The four hexadecimal digits of a number of 16 bits.
pub open spec fn four_digits(n: u16) -> Seq<char> {
    seq![
        hex_char(n as int / 4096),
        hex_char(n as int / 256 % 16),
        hex_char(n as int / 16 % 16),
        hex_char(n as int % 16),
    ]
}

fn push_hex(s: &mut String, n: u16)
    requires
        n < 16,
    ensures
        final(s)@ == old(s)@.push(hex_char(n as int)),
{
    let digits = [
        '0',
        '1',
        '2',
        '3',
        '4',
        '5',
        '6',
        '7',
        '8',
        '9',
        'a',
        'b',
        'c',
        'd',
        'e',
        'f',
    ];
    proof {
        reveal_strlit("0123456789abcdef");
    }
    s.push(digits[n as usize]);
}

/// Adds what a board in its MediaTek boot rom says of its hardware.
pub fn add_hardware(properties: &mut Properties, code: u16, version: u16)
    requires
        old(properties).wf(),
    ensures
        final(properties).wf(),
        final(properties)@ == old(properties)@.insert(
            "mediatek-brom.hw_code"@,
            four_digits(code),
        ).insert("mediatek-brom.hw_version"@, decimal(version as nat)),
{
    let mut text = "".to_owned();
    proof {
        reveal_strlit("");
    }
    push_hex(&mut text, code / 4096);
    push_hex(&mut text, code / 256 % 16);
    push_hex(&mut text, code / 16 % 16);
    push_hex(&mut text, code % 16);
    assert(text@ =~= four_digits(code));
    properties.insert("mediatek-brom.hw_code", text.as_str());
    let mut text = "".to_owned();
    append_decimal(&mut text, version as u64);
    assert(text@ =~= decimal(version as nat));
    properties.insert("mediatek-brom.hw_version", text.as_str());
}

/// What a debug board can switch, in the order in which it is offered.
pub open spec fn switches() -> Seq<QCOMLTActuatorType> {
    seq![
        QCOMLTActuatorType::Power,
        QCOMLTActuatorType::UsbVbus,
        QCOMLTActuatorType::PowerButton,
        QCOMLTActuatorType::ResetButton,
    ]
}

/// The properties of a switch of a debug board.
pub open spec fn switch_properties(
    port: Map<Seq<char>, Seq<char>>,
    provider_name: Seq<char>,
    serial: Seq<char>,
    switch: QCOMLTActuatorType,
) -> Map<Seq<char>, Seq<char>> {
    port.insert("qcomlt_debug_board.serial"@, serial).insert(
        NAME@,
        provider_name + "."@ + serial + "."@ + switch.name_text(),
    )
}

/// The switches of a Qualcomm landing team debug board, with their properties. Its management
/// port comes first, the parents of that behind it.
pub fn debug_board_actuators(
    chain: &Vec<Device>,
    node: Option<&str>,
    provider_name: &str,
) -> (r: Option<Vec<(QCOMLTActuatorType, Properties)>>)
    requires
        chain@.len() > 0,
    ensures
        ({
            let device = chain@[0].properties@;
            match (port_name(node), first_value(device, "ID_USB_SERIAL_SHORT"@)) {
                (Some(name), Some(serial)) => if is_debug_board(device) {
                    &&& r is Some
                    &&& r->0@.len() == 4
                    &&& forall|i: int|
                        0 <= i < 4 ==> (#[trigger] r->0@[i]).0 == switches()[i]
                            && r->0@[i].1.wf() && r->0@[i].1@ == switch_properties(
                            offered_properties(
                                name,
                                chain@,
                                provider_name@,
                                "qcomlt-debug-board"@,
                            ),
                            provider_name@,
                            serial,
                            switches()[i],
                        )
                } else {
                    r is None
                },
                _ => r is None,
            }
        }),
{
    let serial = match debug_board_serial(&chain[0]) {
        Some(serial) => serial,
        None => {
            return None;
        },
    };
    let name = match find_port_name(node) {
        Some(name) => name,
        None => {
            return None;
        },
    };
    let all = [
        QCOMLTActuatorType::Power,
        QCOMLTActuatorType::UsbVbus,
        QCOMLTActuatorType::PowerButton,
        QCOMLTActuatorType::ResetButton,
    ];
    assert(all@ =~= switches());
    let mut r: Vec<(QCOMLTActuatorType, Properties)> = Vec::new();
    for i in 0..4
        invariant
            all@ == switches(),
            r@.len() == i,
            forall|j: int|
                0 <= j < i ==> (#[trigger] r@[j]).0 == switches()[j] && r@[j].1.wf()
                    && r@[j].1@ == switch_properties(
                    offered_properties(name@, chain@, provider_name@, "qcomlt-debug-board"@),
                    provider_name@,
                    serial@,
                    switches()[j],
                ),
    {
        let mut properties = port_properties(
            name.as_str(),
            chain,
            provider_name,
            "qcomlt-debug-board",
        );
        properties.insert("qcomlt_debug_board.serial", serial);
        let label = debug_board_name(provider_name, serial, &all[i]);
        properties.insert(NAME, label.as_str());
        r.push((all[i], properties));
    }
    Some(r)
}

/// Reading the four digits of a number gives the number back.
pub proof fn law_four_digits_parse_back(n: u16)
    ensures
        four_digits(n).len() == 4,
        crate::text::parsed_number(four_digits(n), 16, 0xffff) == Some(n as nat),
{
    let s = four_digits(n);
    reveal_strlit("0123456789abcdef");
    reveal_with_fuel(crate::text::digits_value, 5);
    lemma_hex_char(n as int / 4096);
    lemma_hex_char(n as int / 256 % 16);
    lemma_hex_char(n as int / 16 % 16);
    lemma_hex_char(n as int % 16);
    assert(s.drop_last().drop_last().drop_last().drop_last() =~= Seq::<char>::empty());
    assert(s.drop_last().drop_last().drop_last().last() == s[0]);
    assert(s.drop_last().drop_last().last() == s[1]);
    assert(s.drop_last().last() == s[2]);
}

proof fn lemma_hex_char(n: int)
    requires
        0 <= n < 16,
    ensures
        crate::text::digit_value(hex_char(n), 16) == Some(n as nat),
        hex_char(n) != '+',
{
    reveal_strlit("0123456789abcdef");
}

} // verus!
