//! Devices as udev describes them.

use vstd::prelude::*;

use crate::registry::{Properties, NAME};
use crate::text::{parse_number, parsed_number, str_eq};

verus! {

/// A device with what udev says of it.
#[derive(Debug)]
pub struct Device {
    /// The subsystem that the device belongs to.
    pub subsystem: Option<String>,
    /// The type of the device within its subsystem.
    pub devtype: Option<String>,
    /// Its properties.
    pub properties: Vec<(String, String)>,
}

/// Whether the text is there and is this one.
pub open spec fn is_text(text: Option<String>, s: Seq<char>) -> bool {
    text is Some && text->0@ == s
}

fn text_is(text: &Option<String>, s: &str) -> (r: bool)
    ensures
        r == is_text(*text, s@),
{
    match text {
        Some(text) => str_eq(text.as_str(), s),
        None => false,
    }
}

/// Whether a property is left out of the properties of items.
pub open spec fn blacklisted(name: Seq<char>) -> bool {
    ||| name == "ACTION"@
    ||| name == "DRIVER"@
    ||| name == "MAJOR"@
    ||| name == "MODALIAS"@
    ||| name == "MINOR"@
    ||| name == "USEC_INITIALIZED"@
}

fn is_blacklisted(name: &str) -> (r: bool)
    ensures
        r == blacklisted(name@),
{
    str_eq(name, "ACTION") || str_eq(name, "DRIVER") || str_eq(name, "MAJOR") || str_eq(
        name,
        "MODALIAS",
    ) || str_eq(name, "MINOR") || str_eq(name, "USEC_INITIALIZED")
}

/// Properties with those of a device set on top, as far as they are not left out.
pub open spec fn with_device(
    properties: Map<Seq<char>, Seq<char>>,
    of_device: Seq<(String, String)>,
) -> Map<Seq<char>, Seq<char>>
    decreases of_device.len(),
{
    if of_device.len() == 0 {
        properties
    } else {
        let before = with_device(properties, of_device.drop_last());
        let (name, value) = of_device.last();
        if blacklisted(name@) {
            before
        } else {
            before.insert("udev."@ + name@, value@)
        }
    }
}

/// The first value of a property in the list.
pub open spec fn first_value(properties: Seq<(String, String)>, name: Seq<char>) -> Option<
    Seq<char>,
>
    decreases properties.len(),
{
    if properties.len() == 0 {
        None
    } else if properties[0].0@ == name {
        Some(properties[0].1@)
    } else {
        first_value(properties.skip(1), name)
    }
}

/// Whether the text is the view of the other.
pub open spec fn same_view(text: Option<&str>, view: Option<Seq<char>>) -> bool {
    match text {
        Some(s) => view == Some(s@),
        None => view is None,
    }
}

impl Device {
    /// Whether the search for properties of parents ends here.
    pub open spec fn reasonable(self) -> bool {
        ||| is_text(self.subsystem, "pci"@)
        ||| is_text(self.subsystem, "platform"@)
        ||| is_text(self.subsystem, "usb"@) && is_text(self.devtype, "usb_device"@)
    }

    fn is_reasonable(&self) -> (r: bool)
        ensures
            r == self.reasonable(),
    {
        text_is(&self.subsystem, "pci") || text_is(&self.subsystem, "platform") || (text_is(
            &self.subsystem,
            "usb",
        ) && text_is(&self.devtype, "usb_device"))
    }

    /// A property of the device.
    pub fn property(&self, property: &str) -> (r: Option<&str>)
        ensures
            same_view(r, first_value(self.properties@, property@)),
    {
        let ghost all = self.properties@;
        assert(all.skip(0) =~= all);
        for i in 0..self.properties.len()
            invariant
                all == self.properties@,
                first_value(all, property@) == first_value(all.skip(i as int), property@),
        {
            assert(all.skip(i as int)[0] == all[i as int]);
            assert(all.skip(i as int).skip(1) =~= all.skip(i + 1));
            if str_eq(self.properties[i].0.as_str(), property) {
                return Some(self.properties[i].1.as_str());
            }
        }
        None
    }

    /// A property of the device that is a number.
    pub fn property_u64(&self, property: &str, radix: u32) -> (r: Option<u64>)
        requires
            2 <= radix <= 36,
        ensures
            match r {
                Some(n) => property_number(self.properties@, property@, radix as nat) == Some(
                    n as nat,
                ),
                None => property_number(self.properties@, property@, radix as nat) is None,
            },
    {
        match self.property(property) {
            Some(value) => parse_number(value, radix, u64::MAX),
            None => None,
        }
    }

    /// A property of the device that is a number of one byte.
    pub fn property_u8(&self, property: &str) -> (r: Option<u8>)
        ensures
            match r {
                Some(n) => property_number(self.properties@, property@, 10) == Some(n as nat),
                None => match property_number(self.properties@, property@, 10) {
                    Some(n) => n > 255,
                    None => true,
                },
            },
    {
        match self.property_u64(property, 10) {
            Some(n) => if n <= 255 {
                Some(n as u8)
            } else {
                None
            },
            None => None,
        }
    }

    /// Whether this is a USB device.
    pub fn is_usb_device(&self) -> (r: bool)
        ensures
            r == is_text(self.subsystem, "usb_device"@),
    {
        text_is(&self.subsystem, "usb_device")
    }

    /// The interfaces of a USB device.
    pub fn usb_interfaces(&self) -> (r: Option<Vec<UsbInterface>>)
        ensures
            match r {
                Some(list) => {
                    let value = first_value(self.properties@, "ID_USB_INTERFACES"@);
                    &&& is_text(self.subsystem, "usb_device"@)
                    &&& value is Some
                    &&& list@ == interfaces(split_colons(vstd::utf8::encode_utf8(value->0)))
                },
                None => !is_text(self.subsystem, "usb_device"@) || first_value(
                    self.properties@,
                    "ID_USB_INTERFACES"@,
                ) is None,
            },
    {
        if self.is_usb_device() {
            match self.property("ID_USB_INTERFACES") {
                Some(property) => Some(UsbInterface::from_udev(property)),
                None => None,
            }
        } else {
            None
        }
    }
}

/// A property that is a number in the radix.
pub open spec fn property_number(
    properties: Seq<(String, String)>,
    name: Seq<char>,
    radix: nat,
) -> Option<nat> {
    match first_value(properties, name) {
        Some(value) => parsed_number(value, radix, u64::MAX as nat),
        None => None,
    }
}

/// How many of a device and its parents, from the device up, the properties come from: up to
/// the first reasonable one, or all.
pub open spec fn chain_len(chain: Seq<Device>) -> nat
    decreases chain.len(),
{
    if chain.len() == 0 {
        0
    } else if chain[0].reasonable() {
        1
    } else {
        1 + chain_len(chain.skip(1))
    }
}

/// Properties with those of a row of devices set on top, the last device first.
pub open spec fn with_chain(
    properties: Map<Seq<char>, Seq<char>>,
    chain: Seq<Device>,
) -> Map<Seq<char>, Seq<char>>
    decreases chain.len(),
{
    if chain.len() == 0 {
        properties
    } else {
        with_device(with_chain(properties, chain.skip(1)), chain[0].properties@)
    }
}

/// The properties of the item for a device, out of what udev says of the device and its
/// parents. `chain` holds the device and its parents from the device up.
pub fn item_properties(name: &str, chain: &Vec<Device>) -> (r: Properties)
    ensures
        r.wf(),
        r@ == with_chain(
            Map::<Seq<char>, Seq<char>>::empty().insert(NAME@, name@),
            chain@.take(chain_len(chain@) as int),
        ),
{
    let ghost all = chain@;
    let mut n: usize = 0;
    assert(all.skip(0) =~= all);
    let mut done = false;
    while n < chain.len() && !done
        invariant
            all == chain@,
            n <= all.len(),
            done ==> chain_len(all) == n,
            !done ==> chain_len(all) == n + chain_len(all.skip(n as int)),
        decreases all.len() - n,
    {
        assert(all.skip(n as int)[0] == all[n as int]);
        assert(all.skip(n as int).skip(1) =~= all.skip(n + 1));
        if chain[n].is_reasonable() {
            done = true;
        }
        n = n + 1;
    }
    assert(chain_len(all) == n);
    let ghost used = all.take(n as int);
    let mut properties = Properties::new(name);
    let ghost start = properties@;
    assert(used.skip(n as int) =~= seq![]);
    let mut i: usize = n;
    while i > 0
        invariant
            i <= n <= all.len(),
            all == chain@,
            used == all.take(n as int),
            properties.wf(),
            properties@ == with_chain(start, used.skip(i as int)),
        decreases i,
    {
        i = i - 1;
        proof {
            assert(used.skip(i as int)[0] == chain@[i as int]);
            assert(used.skip(i as int).skip(1) =~= used.skip(i + 1));
        }
        add_device(&mut properties, &chain[i]);
    }
    assert(used.skip(0) =~= used);
    properties
}

fn add_device(properties: &mut Properties, device: &Device)
    requires
        old(properties).wf(),
    ensures
        final(properties).wf(),
        final(properties)@ == with_device(old(properties)@, device.properties@),
{
    let ghost all = device.properties@;
    for i in 0..device.properties.len()
        invariant
            all == device.properties@,
            properties.wf(),
            properties@ == with_device(old(properties)@, all.take(i as int)),
    {
        proof {
            assert(all.take(i + 1).drop_last() =~= all.take(i as int));
            assert(all.take(i + 1).last() == all[i as int]);
        }
        let name = device.properties[i].0.as_str();
        if !is_blacklisted(name) {
            let mut key = "udev.".to_owned();
            key.append(name);
            properties.insert(key.as_str(), device.properties[i].1.as_str());
        }
    }
    assert(all.take(all.len() as int) =~= all);
}

/// The class of an interface of a USB device.
#[derive(Copy, Clone, Debug, PartialEq, Eq, Structural)]
pub struct UsbInterface {
    /// The class.
    pub class: u8,
    /// The class within the class.
    pub subclass: u8,
    /// The protocol.
    pub protocol: u8,
}

/// The pieces between colons.
pub open spec fn split_colons(bytes: Seq<u8>) -> Seq<Seq<u8>>
    decreases bytes.len(),
{
    if bytes.len() == 0 {
        seq![Seq::empty()]
    } else {
        let before = split_colons(bytes.drop_last());
        if bytes.last() == 0x3a {
            before.push(Seq::empty())
        } else {
            before.drop_last().push(before.last().push(bytes.last()))
        }
    }
}

/// The value of a hexadecimal digit.
pub open spec fn hex_digit(b: u8) -> Option<int> {
    if 0x30 <= b <= 0x39 {
        Some(b - 0x30)
    } else if 0x61 <= b <= 0x66 {
        Some(b - 0x61 + 10)
    } else if 0x41 <= b <= 0x46 {
        Some(b - 0x41 + 10)
    } else {
        None
    }
}

/// The number that two hexadecimal digits, or a plus sign and one digit, stand for.
pub open spec fn hex_pair(a: u8, b: u8) -> Option<u8> {
    match (hex_digit(a), hex_digit(b)) {
        (Some(high), Some(low)) => Some((high * 16 + low) as u8),
        (None, Some(low)) => if a == 0x2b {
            Some(low as u8)
        } else {
            None
        },
        _ => None,
    }
}

/// The interface that a piece of six digits stands for.
pub open spec fn interface_of(piece: Seq<u8>) -> Option<UsbInterface> {
    if piece.len() != 6 {
        None
    } else {
        match (
            hex_pair(piece[0], piece[1]),
            hex_pair(piece[2], piece[3]),
            hex_pair(piece[4], piece[5]),
        ) {
            (Some(class), Some(subclass), Some(protocol)) => Some(
                UsbInterface { class, subclass, protocol },
            ),
            _ => None,
        }
    }
}

/// The interfaces that the pieces stand for.
pub open spec fn interfaces(pieces: Seq<Seq<u8>>) -> Seq<UsbInterface>
    decreases pieces.len(),
{
    if pieces.len() == 0 {
        Seq::empty()
    } else {
        let before = interfaces(pieces.drop_last());
        match interface_of(pieces.last()) {
            Some(interface) => before.push(interface),
            None => before,
        }
    }
}

fn parse_hex_digit(b: u8) -> (r: Option<u8>)
    ensures
        match r {
            Some(v) => hex_digit(b) == Some(v as int) && v < 16,
            None => hex_digit(b) is None,
        },
{
    if 0x30 <= b && b <= 0x39 {
        Some(b - 0x30)
    } else if 0x61 <= b && b <= 0x66 {
        Some(b - 0x61 + 10)
    } else if 0x41 <= b && b <= 0x46 {
        Some(b - 0x41 + 10)
    } else {
        None
    }
}

fn parse_hex_pair(a: u8, b: u8) -> (r: Option<u8>)
    ensures
        r == hex_pair(a, b),
{
    match (parse_hex_digit(a), parse_hex_digit(b)) {
        (Some(high), Some(low)) => Some(high * 16 + low),
        (None, Some(low)) => if a == 0x2b {
            Some(low)
        } else {
            None
        },
        _ => None,
    }
}

impl UsbInterface {
    fn from_piece(piece: &Vec<u8>) -> (r: Option<UsbInterface>)
        ensures
            r == interface_of(piece@),
    {
        if piece.len() != 6 {
            return None;
        }
        match (
            parse_hex_pair(piece[0], piece[1]),
            parse_hex_pair(piece[2], piece[3]),
            parse_hex_pair(piece[4], piece[5]),
        ) {
            (Some(class), Some(subclass), Some(protocol)) => Some(
                UsbInterface { class, subclass, protocol },
            ),
            _ => None,
        }
    }

    /// The interfaces out of the `ID_USB_INTERFACES` property of udev.
    pub fn from_udev(property: &str) -> (r: Vec<UsbInterface>)
        ensures
            r@ == interfaces(split_colons(vstd::utf8::encode_utf8(property@))),
    {
        let bytes = property.as_bytes();
        let mut list: Vec<UsbInterface> = Vec::new();
        let mut piece: Vec<u8> = Vec::new();
        let ghost all = bytes@;
        let n: usize = bytes.len();
        proof {
            assert(all.take(0) =~= Seq::<u8>::empty());
            assert(split_colons(all.take(0)).drop_last() =~= Seq::<Seq<u8>>::empty());
        }
        for i in 0..n
            invariant
                n == all.len(),
                all == bytes@,
                split_colons(all.take(i as int)).len() > 0,
                piece@ == split_colons(all.take(i as int)).last(),
                list@ == interfaces(split_colons(all.take(i as int)).drop_last()),
        {
            let ghost before = split_colons(all.take(i as int));
            proof {
                assert(all.take(i + 1).drop_last() =~= all.take(i as int));
                assert(all.take(i + 1).last() == all[i as int]);
                assert(before.drop_last().push(before.last()) =~= before);
            }
            let b: u8 = bytes[i];
            if b == 0x3a {
                if let Some(interface) = UsbInterface::from_piece(&piece) {
                    list.push(interface);
                }
                piece = Vec::new();
                proof {
                    let after = split_colons(all.take(i + 1));
                    assert(after.drop_last() =~= before);
                    assert(before.len() > 0);
                }
            } else {
                piece.push(b);
                proof {
                    let after = split_colons(all.take(i + 1));
                    assert(after.drop_last() =~= before.drop_last());
                }
            }
        }
        if let Some(interface) = UsbInterface::from_piece(&piece) {
            list.push(interface);
        }
        proof {
            assert(all.take(n as int) =~= all);
        }
        list
    }
}

/// Pieces of another length than six bytes stand for no interface, so neither an empty text nor
/// colons alone do.
pub proof fn law_no_digits_no_interfaces(n: nat)
    ensures
        interfaces(split_colons(Seq::new(n, |i: int| 0x3au8))) == Seq::<UsbInterface>::empty(),
    decreases n,
{
    let all = Seq::new(n, |i: int| 0x3au8);
    lemma_colons(n);
    if n > 0 {
        law_no_digits_no_interfaces((n - 1) as nat);
        let less = Seq::new((n - 1) as nat, |i: int| 0x3au8);
        assert(all.drop_last() =~= less);
        assert(split_colons(all).drop_last() =~= split_colons(less));
    } else {
        assert(all =~= Seq::<u8>::empty());
        assert(split_colons(all).drop_last() =~= Seq::<Seq<u8>>::empty());
        reveal_with_fuel(interfaces, 2);
    }
}

proof fn lemma_colons(n: nat)
    ensures
        split_colons(Seq::new(n, |i: int| 0x3au8)).len() == n + 1,
        split_colons(Seq::new(n, |i: int| 0x3au8)).last() == Seq::<u8>::empty(),
    decreases n,
{
    let all = Seq::new(n, |i: int| 0x3au8);
    if n > 0 {
        lemma_colons((n - 1) as nat);
        assert(all.drop_last() =~= Seq::new((n - 1) as nat, |i: int| 0x3au8));
    } else {
        assert(all =~= Seq::<u8>::empty());
    }
}

/// A property of a device is told under its name behind `udev.`, where it is not one of those that
/// are left out; of several values the last counts. All other properties are as before.
pub proof fn law_device_properties_are_told(
    properties: Map<Seq<char>, Seq<char>>,
    of_device: Seq<(String, String)>,
    i: int,
    key: Seq<char>,
)
    ensures
        0 <= i < of_device.len() && !blacklisted(of_device[i].0@) && (forall|j: int|
            i < j < of_device.len() ==> (#[trigger] of_device[j]).0@ != of_device[i].0@)
            ==> with_device(properties, of_device).contains_pair(
            "udev."@ + of_device[i].0@,
            of_device[i].1@,
        ),
        (forall|j: int|
            0 <= j < of_device.len() && !blacklisted((#[trigger] of_device[j]).0@) ==> "udev."@
                + of_device[j].0@ != key) ==> {
            &&& with_device(properties, of_device).contains_key(key) == properties.contains_key(key)
            &&& properties.contains_key(key) ==> with_device(properties, of_device)[key]
                == properties[key]
        },
    decreases of_device.len(),
{
    if of_device.len() > 0 {
        let rest = of_device.drop_last();
        law_device_properties_are_told(properties, rest, i, key);
        let last = of_device[of_device.len() - 1];
        assert(last == of_device.last());
        if forall|j: int|
            0 <= j < of_device.len() && !blacklisted((#[trigger] of_device[j]).0@) ==> "udev."@
                + of_device[j].0@ != key {
            assert forall|j: int|
                0 <= j < rest.len() && !blacklisted((#[trigger] rest[j]).0@) implies "udev."@
                + rest[j].0@ != key by {
                assert(rest[j] == of_device[j]);
            }
            assert(!blacklisted(last.0@) ==> "udev."@ + last.0@ != key);
        }
        if 0 <= i < rest.len() && (forall|j: int|
            i < j < of_device.len() ==> (#[trigger] of_device[j]).0@ != of_device[i].0@) {
            assert forall|j: int| i < j < rest.len() implies (#[trigger] rest[j]).0@
                != rest[i].0@ by {
                assert(rest[j] == of_device[j]);
            }
            assert(last.0@ != of_device[i].0@);
            lemma_same_tail("udev."@, last.0@, of_device[i].0@);
        }
    }
}

proof fn lemma_same_tail(head: Seq<char>, a: Seq<char>, b: Seq<char>)
    ensures
        head + a == head + b ==> a == b,
{
    assert((head + a).skip(head.len() as int) =~= a);
    assert((head + b).skip(head.len() as int) =~= b);
}

/// What changes with every event, and what only says where a device is in the kernel, is left out.
pub proof fn law_left_out_names()
    ensures
        blacklisted("ACTION"@),
        blacklisted("DRIVER"@),
        blacklisted("MAJOR"@),
        blacklisted("MODALIAS"@),
        blacklisted("MINOR"@),
        blacklisted("USEC_INITIALIZED"@),
        !blacklisted("DEVNAME"@),
        !blacklisted("ID_PATH"@),
{
    reveal_strlit("ACTION");
    reveal_strlit("DRIVER");
    reveal_strlit("MAJOR");
    reveal_strlit("MODALIAS");
    reveal_strlit("MINOR");
    reveal_strlit("USEC_INITIALIZED");
    reveal_strlit("DEVNAME");
    reveal_strlit("ID_PATH");
    assert("DEVNAME"@.len() == 7 && "ID_PATH"@.len() == 7);
    assert("ACTION"@.len() == 6 && "DRIVER"@.len() == 6 && "MAJOR"@.len() == 5 && "MINOR"@.len()
        == 5 && "MODALIAS"@.len() == 8 && "USEC_INITIALIZED"@.len() == 16);
}

/// What a device says of itself is told before what its parents say.
pub proof fn law_devices_win_over_parents(
    properties: Map<Seq<char>, Seq<char>>,
    device: Device,
    parents: Seq<Device>,
    i: int,
    key: Seq<char>,
)
    ensures
        ({
            let all = with_chain(properties, seq![device] + parents);
            let of_parents = with_chain(properties, parents);
            let own = device.properties@;
            &&& 0 <= i < own.len() && !blacklisted(own[i].0@) && (forall|j: int|
                i < j < own.len() ==> (#[trigger] own[j]).0@ != own[i].0@) ==> all.contains_pair(
                "udev."@ + own[i].0@,
                own[i].1@,
            )
            &&& (forall|j: int|
                0 <= j < own.len() && !blacklisted((#[trigger] own[j]).0@) ==> "udev."@ + own[j].0@
                    != key) && of_parents.contains_key(key) ==> all.contains_pair(
                key,
                of_parents[key],
            )
        }),
        with_chain(properties, Seq::empty()) == properties,
{
    let chain = seq![device] + parents;
    assert(chain[0] == device);
    assert(chain.skip(1) =~= parents);
    law_device_properties_are_told(with_chain(properties, parents), device.properties@, i, key);
}

/// Parents are looked at up to the first that says where the device is: on a bus of the machine, or
/// a USB device.
pub proof fn law_parents_up_to_first_place(chain: Seq<Device>, i: int)
    ensures
        chain_len(chain) <= chain.len(),
        0 <= i < chain_len(chain) - 1 ==> !chain[i].reasonable(),
        chain_len(chain) < chain.len() ==> chain[chain_len(chain) - 1].reasonable(),
        chain.len() > 0 ==> chain_len(chain) > 0,
    decreases chain.len(),
{
    if chain.len() > 0 && !chain[0].reasonable() {
        law_parents_up_to_first_place(chain.skip(1), i - 1);
    }
}

/// Of several values of one name the first counts.
pub proof fn law_first_value_counts(properties: Seq<(String, String)>, name: Seq<char>, i: int)
    ensures
        0 <= i < properties.len() && properties[i].0@ == name && (forall|j: int|
            0 <= j < i ==> (#[trigger] properties[j]).0@ != name) ==> first_value(properties, name)
            == Some(properties[i].1@),
        (forall|j: int| 0 <= j < properties.len() ==> (#[trigger] properties[j]).0@ != name)
            ==> first_value(properties, name) is None,
    decreases properties.len(),
{
    if properties.len() > 0 && properties[0].0@ != name {
        let rest = properties.skip(1);
        law_first_value_counts(rest, name, i - 1);
        if forall|j: int| 0 <= j < properties.len() ==> (#[trigger] properties[j]).0@ != name {
            assert forall|j: int| 0 <= j < rest.len() implies (#[trigger] rest[j]).0@ != name by {
                assert(properties[j + 1].0@ != name);
            }
        }
        if 0 < i < properties.len() && (forall|j: int|
            0 <= j < i ==> (#[trigger] properties[j]).0@ != name) {
            assert forall|j: int| 0 <= j < i - 1 implies (#[trigger] rest[j]).0@ != name by {
                assert(properties[j + 1].0@ != name);
            }
        }
    }
}

/// The bytes of pieces with colons between them.
pub open spec fn with_colons(pieces: Seq<Seq<u8>>) -> Seq<u8>
    decreases pieces.len(),
{
    if pieces.len() <= 1 {
        pieces.flatten()
    } else {
        with_colons(pieces.drop_last()).push(0x3a) + pieces.last()
    }
}

/// Splitting at colons loses nothing but the colons, and leaves none in the pieces.
pub proof fn law_split_at_colons(bytes: Seq<u8>)
    ensures
        with_colons(split_colons(bytes)) == bytes,
        split_colons(bytes).len() > 0,
        forall|i: int|
            0 <= i < split_colons(bytes).len() ==> !(#[trigger] split_colons(bytes)[i]).contains(
                0x3a,
            ),
    decreases bytes.len(),
{
    if bytes.len() == 0 {
        seq![Seq::<u8>::empty()].lemma_flatten_one_element();
        assert(with_colons(split_colons(bytes)) =~= bytes);
    } else {
        let rest = bytes.drop_last();
        law_split_at_colons(rest);
        let before = split_colons(rest);
        let all = split_colons(bytes);
        assert(rest.push(bytes.last()) =~= bytes);
        if bytes.last() == 0x3a {
            assert(all.drop_last() =~= before);
            assert(with_colons(all) =~= bytes);
        } else {
            let last = before.last().push(bytes.last());
            assert(all.last() == last);
            assert(all.drop_last() =~= before.drop_last());
            if before.len() == 1 {
                assert(all =~= seq![last]);
                assert(before =~= seq![before.last()]);
                seq![last].lemma_flatten_one_element();
                seq![before.last()].lemma_flatten_one_element();
                assert(with_colons(all) =~= bytes);
            } else {
                assert(with_colons(all) =~= with_colons(before).push(bytes.last()));
            }
            assert forall|i: int| 0 <= i < all.len() implies !(#[trigger] all[i]).contains(0x3a) by {
                if i < before.len() - 1 {
                    assert(all[i] == before[i]);
                } else {
                    let old = before[before.len() - 1];
                    assert(!old.contains(0x3a));
                    if all[i].contains(0x3a) {
                        let x = choose|x: int| 0 <= x < all[i].len() && all[i][x] == 0x3a;
                        assert(old[x] == 0x3a);
                    }
                }
            }
        }
    }
}

/// Two hexadecimal digits of either case stand for a byte, the higher one first.
pub proof fn law_hex_pairs(n: u8, upper: bool)
    ensures
        hex_pair(hex_byte((n / 16) as u8, upper), hex_byte((n % 16) as u8, upper)) == Some(n),
{
}

/// A hexadecimal digit.
pub open spec fn hex_byte(n: u8, upper: bool) -> u8 {
    if n < 10 {
        (0x30 + n) as u8
    } else if upper {
        (0x41 + n - 10) as u8
    } else {
        (0x61 + n - 10) as u8
    }
}

/// Each piece of six digits stands for an interface: class, class within that, and protocol, in
/// this order. All other pieces are passed over, and the others keep their order.
pub proof fn law_interfaces_of_pieces(
    before: Seq<Seq<u8>>,
    piece: Seq<u8>,
    class: u8,
    subclass: u8,
    protocol: u8,
)
    ensures
        piece.len() != 6 ==> interfaces(before.push(piece)) == interfaces(before),
        ({
            let six = seq![
                hex_byte((class / 16) as u8, false),
                hex_byte((class % 16) as u8, false),
                hex_byte((subclass / 16) as u8, false),
                hex_byte((subclass % 16) as u8, false),
                hex_byte((protocol / 16) as u8, false),
                hex_byte((protocol % 16) as u8, false),
            ];
            interfaces(before.push(six)) == interfaces(before).push(
                (UsbInterface { class, subclass, protocol }),
            )
        }),
        interfaces(Seq::empty()) == Seq::<UsbInterface>::empty(),
{
    assert(before.push(piece).drop_last() =~= before);
    law_hex_pairs(class, false);
    law_hex_pairs(subclass, false);
    law_hex_pairs(protocol, false);
    let six = seq![
        hex_byte((class / 16) as u8, false),
        hex_byte((class % 16) as u8, false),
        hex_byte((subclass / 16) as u8, false),
        hex_byte((subclass % 16) as u8, false),
        hex_byte((protocol / 16) as u8, false),
        hex_byte((protocol % 16) as u8, false),
    ];
    assert(before.push(six).drop_last() =~= before);
    assert(before.push(six).last() == six);
}

} // verus!
