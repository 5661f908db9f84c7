//! Providers: which devices they take, what their items are called and which properties the
//! items get, and what switching an item comes to.

use vstd::prelude::*;

use crate::registry::{
    properties_match, Properties, NAME, PROVIDER, PROVIDER_NAME,
};
use crate::text::{append_decimal, copy_strings, decimal, decimal_string, str_eq, texts};
use crate::udev::{
    chain_len, first_value, interfaces, is_text, item_properties, property_number, same_view,
    split_colons, with_chain, Device, UsbInterface,
};

verus! {

/// Roles that may see the items of a provider with certain properties.
#[derive(Debug)]
pub struct ProviderAcl {
    /// Properties of the items.
    pub match_: Vec<(String, String)>,
    /// Roles that may see them.
    pub roles: Vec<String>,
}

/// A provider of items, as it is configured.
#[derive(Debug)]
pub struct Provider {
    /// Name of this provider.
    pub name: String,
    /// Kind of provider.
    pub provider: String,
    /// Who may see its items.
    pub acls: Vec<ProviderAcl>,
}

/// The roles of the first entry that matches, and none where no entry does.
pub open spec fn matched_roles(
    acls: Seq<ProviderAcl>,
    properties: Map<Seq<char>, Seq<char>>,
) -> Seq<Seq<char>>
    decreases acls.len(),
{
    if acls.len() == 0 {
        Seq::empty()
    } else if properties_match(properties, acls[0].match_@) {
        texts(acls[0].roles@)
    } else {
        matched_roles(acls.skip(1), properties)
    }
}

/// Properties with those that tell the provider.
pub open spec fn provided(
    properties: Map<Seq<char>, Seq<char>>,
    name: Seq<char>,
    provider: Seq<char>,
) -> Map<Seq<char>, Seq<char>> {
    properties.insert(PROVIDER_NAME@, name).insert(PROVIDER@, provider)
}

impl Provider {
    /// Adds the properties that tell where an item comes from.
    pub fn extend_properties(&self, properties: &mut Properties)
        requires
            old(properties).wf(),
        ensures
            final(properties).wf(),
            final(properties)@ == provided(old(properties)@, self.name@, self.provider@),
    {
        properties.insert(PROVIDER_NAME, self.name.as_str());
        properties.insert(PROVIDER, self.provider.as_str());
    }

    /// The roles that may see an item with these properties.
    pub fn match_acl(&self, properties: &Properties) -> (r: Vec<String>)
        requires
            properties.wf(),
        ensures
            texts(r@) == matched_roles(self.acls@, properties@),
    {
        let ghost all = self.acls@;
        assert(all.skip(0) =~= all);
        for i in 0..self.acls.len()
            invariant
                properties.wf(),
                all == self.acls@,
                matched_roles(all, properties@) == matched_roles(
                    all.skip(i as int),
                    properties@,
                ),
        {
            assert(all.skip(i as int)[0] == all[i as int]);
            assert(all.skip(i as int).skip(1) =~= all.skip(i + 1));
            if properties.matches(&self.acls[i].match_) {
                return copy_strings(&self.acls[i].roles);
            }
        }
        let r: Vec<String> = Vec::new();
        assert(texts(r@) =~= Seq::<Seq<char>>::empty());
        r
    }
}

/// What was registered for devices, by their path.
#[derive(Debug)]
pub struct Registrations {
    entries: Vec<(String, Vec<u64>)>,
}

/// What was registered for devices, by their path: of several entries the last counts.
pub open spec fn entries_map(entries: Seq<(String, Vec<u64>)>) -> Map<Seq<char>, Seq<u64>>
    decreases entries.len(),
{
    if entries.len() == 0 {
        Map::empty()
    } else {
        entries_map(entries.drop_last()).insert(entries.last().0@, entries.last().1@)
    }
}

impl View for Registrations {
    type V = Map<Seq<char>, Seq<u64>>;

    closed spec fn view(&self) -> Map<Seq<char>, Seq<u64>> {
        entries_map(self.entries@)
    }
}

/// No path occurs twice.
spec fn distinct_paths(entries: Seq<(String, Vec<u64>)>) -> bool {
    forall|i: int, j: int|
        #![trigger entries[i], entries[j]]
        0 <= i < j < entries.len() ==> entries[i].0@ != entries[j].0@
}

proof fn lemma_entries_absent(entries: Seq<(String, Vec<u64>)>, path: Seq<char>)
    requires
        forall|i: int| 0 <= i < entries.len() ==> (#[trigger] entries[i]).0@ != path,
    ensures
        !entries_map(entries).contains_key(path),
    decreases entries.len(),
{
    if entries.len() > 0 {
        let rest = entries.drop_last();
        assert forall|i: int| 0 <= i < rest.len() implies (#[trigger] rest[i]).0@ != path by {
            assert(rest[i] == entries[i]);
        }
        lemma_entries_absent(rest, path);
        assert(entries[entries.len() - 1].0@ != path);
    }
}

proof fn lemma_entries_remove(entries: Seq<(String, Vec<u64>)>, at: int)
    requires
        distinct_paths(entries),
        0 <= at < entries.len(),
    ensures
        distinct_paths(entries.remove(at)),
        entries_map(entries).contains_key(entries[at].0@),
        entries_map(entries)[entries[at].0@] == entries[at].1@,
        entries_map(entries.remove(at)) == entries_map(entries).remove(entries[at].0@),
    decreases entries.len(),
{
    let path = entries[at].0@;
    let after = entries.remove(at);
    let rest = entries.drop_last();
    assert forall|i: int, j: int| #![trigger after[i], after[j]]
        0 <= i < j < after.len() implies after[i].0@ != after[j].0@ by {
        let x = if i < at { i } else { i + 1 };
        let y = if j < at { j } else { j + 1 };
        assert(entries[x].0@ != entries[y].0@);
    }
    assert forall|i: int, j: int| #![trigger rest[i], rest[j]]
        0 <= i < j < rest.len() implies rest[i].0@ != rest[j].0@ by {
        assert(entries[i].0@ != entries[j].0@);
    }
    if at == rest.len() {
        assert(after =~= rest);
        assert forall|i: int| 0 <= i < rest.len() implies (#[trigger] rest[i]).0@ != path by {
            assert(entries[i].0@ != entries[at].0@);
        }
        lemma_entries_absent(rest, path);
        assert(entries_map(after) =~= entries_map(entries).remove(path));
    } else {
        assert(rest[at] == entries[at]);
        lemma_entries_remove(rest, at);
        assert(after.drop_last() =~= rest.remove(at));
        assert(after.last() == entries.last());
        assert(entries[at].0@ != entries[entries.len() - 1].0@);
        assert(entries_map(after) =~= entries_map(entries).remove(path));
    }
}

impl Registrations {
    /// Each path is held once.
    pub closed spec fn wf(self) -> bool {
        distinct_paths(self.entries@)
    }

    /// Nothing was registered.
    pub fn new() -> (r: Self)
        ensures
            r.wf(),
            r@ == Map::<Seq<char>, Seq<u64>>::empty(),
    {
        Registrations { entries: Vec::new() }
    }

    /// Takes out what was registered for a device that is gone.
    pub fn remove(&mut self, path: &str) -> (r: Option<Vec<u64>>)
        requires
            old(self).wf(),
        ensures
            final(self).wf(),
            final(self)@ == old(self)@.remove(path@),
            r is Some <==> old(self)@.contains_key(path@),
            r is Some ==> r->0@ == old(self)@[path@],
    {
        let ghost before = self.entries@;
        let n: usize = self.entries.len();
        for i in 0..n
            invariant
                n == before.len(),
                before == self.entries@,
                before == old(self).entries@,
                distinct_paths(before),
                forall|j: int| 0 <= j < i ==> (#[trigger] before[j]).0@ != path@,
        {
            if str_eq(self.entries[i].0.as_str(), path) {
                proof {
                    lemma_entries_remove(before, i as int);
                }
                let (_, ids) = self.entries.remove(i);
                return Some(ids);
            }
        }
        proof {
            lemma_entries_absent(before, path@);
            assert(self@.remove(path@) =~= self@);
        }
        None
    }

    /// Notes what was registered for a device.
    pub fn insert(&mut self, path: &str, ids: Vec<u64>)
        requires
            old(self).wf(),
        ensures
            final(self).wf(),
            final(self)@ == old(self)@.insert(path@, ids@),
    {
        self.remove(path);
        let ghost before = self.entries@;
        proof {
            assert forall|i: int| 0 <= i < before.len() implies (#[trigger] before[i]).0@
                != path@ by {
                if before[i].0@ == path@ {
                    lemma_entries_remove(before, i);
                }
            }
        }
        self.entries.push((path.to_owned(), ids));
        proof {
            let after = self.entries@;
            assert(after.drop_last() =~= before);
            assert forall|i: int, j: int| #![trigger after[i], after[j]]
                0 <= i < j < after.len() implies after[i].0@ != after[j].0@ by {
                if j < before.len() {
                    assert(before[i].0@ != before[j].0@);
                } else {
                    assert(before[i].0@ != path@);
                }
            }
            assert(self@ =~= old(self)@.insert(path@, ids@));
        }
    }
}

/// The name of the actuator for a port of a unit of a provider.
pub open spec fn port_name(provider: Seq<char>, unit: Seq<char>, port: Seq<char>) -> Seq<char> {
    provider + "."@ + unit + ".port-"@ + port
}

fn make_port_name(provider: &str, unit: &str, port: &str) -> (r: String)
    ensures
        r@ == port_name(provider@, unit@, port@),
{
    let mut r = provider.to_owned();
    r.append(".");
    r.append(unit);
    r.append(".port-");
    r.append(port);
    r
}

/// Whether an actuator is to be switched on or off, out of the name of the mode.
pub fn power_mode(mode: &str) -> (r: Option<bool>)
    ensures
        r == if mode@ == "on"@ {
            Some(true)
        } else if mode@ == "off"@ {
            Some(false)
        } else {
            None
        },
{
    proof {
        reveal_strlit("on");
        reveal_strlit("off");
    }
    if str_eq(mode, "on") {
        Some(true)
    } else if str_eq(mode, "off") {
        Some(false)
    } else {
        None
    }
}

/// The properties of the actuator for a port of a USB hub.
pub fn uhubctl_properties(provider: &str, location: &str, name: &str, port: u32) -> (r: Properties)
    ensures
        r.wf(),
        r@ == provided(
            Map::<Seq<char>, Seq<char>>::empty().insert(
                NAME@,
                port_name(provider@, location@, decimal(port as nat)),
            ),
            provider@,
            "uhubctl"@,
        ).insert("uhubctl.location"@, location@).insert("uhubctl.name"@, name@).insert(
            "uhubctl.port"@,
            decimal(port as nat),
        ),
{
    let number = decimal_string(port as u64);
    let full = make_port_name(provider, location, number.as_str());
    let mut properties = Properties::new(full.as_str());
    properties.insert(PROVIDER_NAME, provider);
    properties.insert(PROVIDER, "uhubctl");
    properties.insert("uhubctl.location", location);
    properties.insert("uhubctl.name", name);
    properties.insert("uhubctl.port", number.as_str());
    properties
}

/// The program that switches the ports of USB hubs, where no other is given.
pub const UHUBCTL: &'static str = "/usr/sbin/uhubctl";

/// The program that switches the ports of USB hubs.
pub fn uhubctl_program(path: Option<String>) -> (r: String)
    ensures
        r@ == match path {
            Some(path) => path@,
            None => UHUBCTL@,
        },
{
    match path {
        Some(path) => path,
        None => UHUBCTL.to_owned(),
    }
}

/// The arguments of the program that switches a port of a USB hub.
pub fn uhubctl_args(location: &str, port: u32, on: bool) -> (r: Vec<String>)
    ensures
        texts(r@) == seq![
            "-l"@,
            location@,
            "-p"@,
            decimal(port as nat),
            "-a"@,
            if on {
                "on"@
            } else {
                "off"@
            },
        ],
{
    let mut r: Vec<String> = Vec::new();
    r.push("-l".to_owned());
    r.push(location.to_owned());
    r.push("-p".to_owned());
    r.push(decimal_string(port as u64));
    r.push("-a".to_owned());
    if on {
        r.push("on".to_owned());
    } else {
        r.push("off".to_owned());
    }
    assert(texts(r@) =~= seq![
        "-l"@,
        location@,
        "-p"@,
        decimal(port as nat),
        "-a"@,
        if on {
            "on"@
        } else {
            "off"@
        },
    ]);
    r
}

/// The ports of a power distribution unit.
#[derive(Debug)]
pub enum Ports {
    /// So many ports, counted from one.
    Num(u16),
    /// Ports of these names.
    Ports(Vec<String>),
}

/// The names of the ports.
pub open spec fn port_list(ports: Ports) -> Seq<Seq<char>> {
    match ports {
        Ports::Num(n) => Seq::new(n as nat, |i: int| decimal((i + 1) as nat)),
        Ports::Ports(names) => texts(names@),
    }
}

/// The names of the ports of a power distribution unit.
pub fn pdu_ports(ports: &Ports) -> (r: Vec<String>)
    ensures
        texts(r@) == port_list(*ports),
{
    match ports {
        Ports::Num(n) => {
            let mut r: Vec<String> = Vec::new();
            for i in 0..*n
                invariant
                    r@.len() == i,
                    forall|j: int| 0 <= j < i ==> (#[trigger] r@[j])@ == decimal((j + 1) as nat),
            {
                r.push(decimal_string(i as u64 + 1));
            }
            assert(texts(r@) =~= port_list(*ports));
            r
        },
        Ports::Ports(names) => copy_strings(names),
    }
}

/// The properties of the actuator for a port of a power distribution unit.
pub fn pdu_properties(provider: &str, pdu: &str, port: &str) -> (r: Properties)
    ensures
        r.wf(),
        r@ == Map::<Seq<char>, Seq<char>>::empty().insert(
            NAME@,
            port_name(provider@, pdu@, port@),
        ).insert("pdudaemon.pdu"@, pdu@).insert("pdudaemon.port"@, port@),
{
    let full = make_port_name(provider, pdu, port);
    let mut properties = Properties::new(full.as_str());
    properties.insert("pdudaemon.pdu", pdu);
    properties.insert("pdudaemon.port", port);
    properties
}

/// The bytes that a serial command sends.
pub fn serial_message(message: &str) -> (r: String)
    ensures
        r@ == message@ + "\n"@,
{
    let mut r = message.to_owned();
    r.append("\n");
    r
}

/// The name of the volume of a USB device, out of its place on the bus and its model.
pub open spec fn usb_volume_name_text(bus: u8, dev: u8, model: Option<Seq<char>>) -> Seq<char> {
    match model {
        Some(model) => decimal(bus as nat) + "/"@ + decimal(dev as nat) + " "@ + model,
        None => decimal(dev as nat) + "/"@ + decimal(dev as nat),
    }
}

/// The name of the volume of a USB device, out of its place on the bus and its model.
pub fn usb_volume_name(bus: u8, dev: u8, model: Option<&str>) -> (r: String)
    ensures
        r@ == usb_volume_name_text(bus, dev, match model {
            Some(s) => Some(s@),
            None => None,
        }),
{
    match model {
        Some(model) => {
            let mut r = decimal_string(bus as u64);
            r.append("/");
            append_decimal(&mut r, dev as u64);
            r.append(" ");
            r.append(model);
            r
        },
        None => {
            let mut r = decimal_string(dev as u64);
            r.append("/");
            append_decimal(&mut r, dev as u64);
            r
        },
    }
}

/// The name of the volume of a device in fastboot mode.
pub fn fastboot_volume_name(bus: u8, dev: u8) -> (r: String)
    ensures
        r@ == "fastboot "@ + decimal(bus as nat) + "/"@ + decimal(dev as nat),
{
    let mut r = "fastboot ".to_owned();
    append_decimal(&mut r, bus as u64);
    r.append("/");
    append_decimal(&mut r, dev as u64);
    r
}

/// Whether the number in a property is a byte, and which.
pub open spec fn property_byte(properties: Seq<(String, String)>, name: Seq<char>) -> Option<nat> {
    match property_number(properties, name, 10) {
        Some(n) => if n <= 255 {
            Some(n)
        } else {
            None
        },
        None => None,
    }
}

/// The place of a USB device on the bus.
pub open spec fn bus_place(properties: Seq<(String, String)>) -> Option<(nat, nat)> {
    match (property_byte(properties, "BUSNUM"@), property_byte(properties, "DEVNUM"@)) {
        (Some(bus), Some(dev)) => Some((bus, dev)),
        _ => None,
    }
}

fn find_place(device: &Device) -> (r: Option<(u8, u8)>)
    ensures
        match r {
            Some((bus, dev)) => bus_place(device.properties@) == Some((bus as nat, dev as nat)),
            None => bus_place(device.properties@) is None,
        },
{
    match (device.property_u8("BUSNUM"), device.property_u8("DEVNUM")) {
        (Some(bus), Some(dev)) => Some((bus, dev)),
        _ => None,
    }
}

/// The place on the bus of a device that is in device firmware upgrade mode and has a node.
pub fn dfu_device(device: &Device, has_node: bool) -> (r: Option<(u8, u8)>)
    ensures
        ({
            let wanted = has_node && first_value(device.properties@, "ID_USB_INTERFACES"@) == Some(
                ":fe0102:"@,
            );
            match r {
                Some((bus, dev)) => wanted && bus_place(device.properties@) == Some(
                    (bus as nat, dev as nat),
                ),
                None => !wanted || bus_place(device.properties@) is None,
            }
        }),
{
    match device.property("ID_USB_INTERFACES") {
        Some(interfaces) => {
            if !str_eq(interfaces, ":fe0102:") || !has_node {
                return None;
            }
        },
        None => {
            return None;
        },
    }
    find_place(device)
}

/// The place on the bus of a Rockchip device that has a node.
pub fn rockusb_device(device: &Device, has_node: bool) -> (r: Option<(u8, u8)>)
    ensures
        ({
            let wanted = has_node && property_number(
                device.properties@,
                "ID_VENDOR_ID"@,
                16,
            ) == Some(0x2207nat);
            match r {
                Some((bus, dev)) => wanted && bus_place(device.properties@) == Some(
                    (bus as nat, dev as nat),
                ),
                None => !wanted || bus_place(device.properties@) is None,
            }
        }),
{
    match device.property_u64("ID_VENDOR_ID", 16) {
        Some(vendor) => {
            if vendor != 0x2207 || !has_node {
                return None;
            }
        },
        None => {
            return None;
        },
    }
    find_place(device)
}

/// The place on the bus of a device with an interface for fastboot.
pub fn fastboot_device(device: &Device, interfaces: &Vec<UsbInterface>) -> (r: Option<(u8, u8)>)
    ensures
        ({
            let wanted = interfaces@.contains(
                (UsbInterface { class: 0xff, subclass: 0x42, protocol: 0x3 }),
            );
            match r {
                Some((bus, dev)) => wanted && bus_place(device.properties@) == Some(
                    (bus as nat, dev as nat),
                ),
                None => !wanted || bus_place(device.properties@) is None,
            }
        }),
{
    let wanted = UsbInterface { class: 0xff, subclass: 0x42, protocol: 0x3 };
    for i in 0..interfaces.len()
        invariant
            wanted == (UsbInterface { class: 0xff, subclass: 0x42, protocol: 0x3 }),
            forall|j: int| 0 <= j < i ==> interfaces@[j] != wanted,
    {
        if interfaces[i] == wanted {
            assert(interfaces@[i as int] == wanted);
            return find_place(device);
        }
    }
    None
}

/// A volume on a USB device, with its place on the bus.
#[derive(Debug)]
pub struct UsbVolume {
    /// Number of the bus.
    pub bus: u8,
    /// Number of the device.
    pub dev: u8,
    /// Properties of the volume.
    pub properties: Properties,
}

/// The properties that a provider gives an item with this name, on a device that comes with its
/// parents.
pub open spec fn offered_properties(
    name: Seq<char>,
    chain: Seq<Device>,
    provider_name: Seq<char>,
    provider: Seq<char>,
) -> Map<Seq<char>, Seq<char>> {
    provided(named_properties(name, chain), provider_name, provider)
}

/// The properties of an item with this name, on a device that comes with its parents.
pub open spec fn named_properties(name: Seq<char>, chain: Seq<Device>) -> Map<
    Seq<char>,
    Seq<char>,
> {
    with_chain(
        Map::<Seq<char>, Seq<char>>::empty().insert(NAME@, name),
        chain.take(chain_len(chain) as int),
    )
}

/// Whether this is the volume of the first device, which comes with its parents, with the name
/// out of its place and model.
pub open spec fn is_usb_volume(
    volume: UsbVolume,
    chain: Seq<Device>,
    provider_name: Seq<char>,
    provider: Seq<char>,
) -> bool {
    let properties = chain[0].properties@;
    &&& bus_place(properties) == Some((volume.bus as nat, volume.dev as nat))
    &&& volume.properties.wf()
    &&& volume.properties@ == offered_properties(
        usb_volume_name_text(volume.bus, volume.dev, first_value(properties, "ID_MODEL"@)),
        chain,
        provider_name,
        provider,
    )
}

fn usb_volume(
    chain: &Vec<Device>,
    place: (u8, u8),
    provider_name: &str,
    provider: &str,
) -> (r: UsbVolume)
    requires
        chain@.len() > 0,
        bus_place(chain@[0].properties@) == Some((place.0 as nat, place.1 as nat)),
    ensures
        is_usb_volume(r, chain@, provider_name@, provider@),
{
    let (bus, dev) = place;
    let name = usb_volume_name(bus, dev, chain[0].property("ID_MODEL"));
    let mut properties = item_properties(name.as_str(), chain);
    properties.insert(PROVIDER_NAME, provider_name);
    properties.insert(PROVIDER, provider);
    UsbVolume { bus, dev, properties }
}

/// The volume on a device that is in device firmware upgrade mode and has a node. The device
/// comes first, its parents behind it.
pub fn dfu_volume(chain: &Vec<Device>, has_node: bool, provider_name: &str) -> (r: Option<
    UsbVolume,
>)
    requires
        chain@.len() > 0,
    ensures
        ({
            let properties = chain@[0].properties@;
            let wanted = has_node && first_value(properties, "ID_USB_INTERFACES"@) == Some(
                ":fe0102:"@,
            );
            if wanted && bus_place(properties) is Some {
                r is Some && is_usb_volume(r->0, chain@, provider_name@, "dfu"@)
            } else {
                r is None
            }
        }),
{
    match dfu_device(&chain[0], has_node) {
        Some(place) => Some(usb_volume(chain, place, provider_name, "dfu")),
        None => None,
    }
}

/// The volume on a Rockchip device that has a node. The device comes first, its parents behind
/// it.
pub fn rockusb_volume(chain: &Vec<Device>, has_node: bool, provider_name: &str) -> (r: Option<
    UsbVolume,
>)
    requires
        chain@.len() > 0,
    ensures
        ({
            let properties = chain@[0].properties@;
            let wanted = has_node && property_number(properties, "ID_VENDOR_ID"@, 16) == Some(
                0x2207nat,
            );
            if wanted && bus_place(properties) is Some {
                r is Some && is_usb_volume(r->0, chain@, provider_name@, "rockusb"@)
            } else {
                r is None
            }
        }),
{
    match rockusb_device(&chain[0], has_node) {
        Some(place) => Some(usb_volume(chain, place, provider_name, "rockusb")),
        None => None,
    }
}

/// The name of the volume of a device in fastboot mode.
pub open spec fn fastboot_name(bus: nat, dev: nat) -> Seq<char> {
    "fastboot "@ + decimal(bus) + "/"@ + decimal(dev)
}

/// Whether a device has an interface for fastboot.
pub open spec fn has_fastboot(device: Device) -> bool {
    &&& is_text(device.subsystem, "usb_device"@)
    &&& match first_value(device.properties@, "ID_USB_INTERFACES"@) {
        Some(value) => interfaces(split_colons(vstd::utf8::encode_utf8(value))).contains(
            (UsbInterface { class: 0xff, subclass: 0x42, protocol: 0x3 }),
        ),
        None => false,
    }
}

/// The volume on a device in fastboot mode, where its properties are those that are wanted. The
/// device comes first, its parents behind it.
pub fn fastboot_volume(
    chain: &Vec<Device>,
    wanted: &Vec<(String, String)>,
    provider_name: &str,
) -> (r: Option<UsbVolume>)
    requires
        chain@.len() > 0,
    ensures
        ({
            let device = chain@[0];
            match bus_place(device.properties@) {
                Some((bus, dev)) => {
                    let name = fastboot_name(bus, dev);
                    if has_fastboot(device) && properties_match(
                        named_properties(name, chain@),
                        wanted@,
                    ) {
                        &&& r is Some
                        &&& r->0.bus == bus
                        &&& r->0.dev == dev
                        &&& r->0.properties.wf()
                        &&& r->0.properties@ == offered_properties(
                            name,
                            chain@,
                            provider_name@,
                            "fastboot"@,
                        )
                    } else {
                        r is None
                    }
                },
                None => r is None,
            }
        }),
{
    let device = &chain[0];
    match device.usb_interfaces() {
        None => None,
        Some(list) => match fastboot_device(device, &list) {
            None => None,
            Some((bus, dev)) => {
                let name = fastboot_volume_name(bus, dev);
                let mut properties = item_properties(name.as_str(), chain);
                if !properties.matches(wanted) {
                    return None;
                }
                properties.insert(PROVIDER_NAME, provider_name);
                properties.insert(PROVIDER, "fastboot");
                Some(UsbVolume { bus, dev, properties })
            },
        },
    }
}

/// Whether a serial port is one of a board in its MediaTek boot rom.
pub fn brom_device(device: &Device) -> (r: bool)
    ensures
        r == (property_number(device.properties@, "ID_VENDOR_ID"@, 16) == Some(0x0e8dnat)
            && property_number(device.properties@, "ID_MODEL_ID"@, 16) == Some(0x0003nat)),
{
    match device.property_u64("ID_VENDOR_ID", 16) {
        Some(0x0e8d) => {},
        _ => {
            return false;
        },
    }
    match device.property_u64("ID_MODEL_ID", 16) {
        Some(0x0003) => true,
        _ => false,
    }
}

/// Whether a serial port is the management port of a Qualcomm landing team debug board.
pub open spec fn is_debug_board(properties: Seq<(String, String)>) -> bool {
    &&& property_number(properties, "ID_VENDOR_ID"@, 16) == Some(0x03ebnat)
    &&& property_number(properties, "ID_MODEL_ID"@, 16) == Some(0x2404nat)
    &&& first_value(properties, "ID_VENDOR"@) == Some("Linaro"@)
    &&& first_value(properties, "ID_MODEL"@) == Some("DebugBoard"@)
    &&& first_value(properties, "ID_USB_INTERFACE_NUM"@) == Some("00"@)
}

fn property_is(device: &Device, name: &str, value: &str) -> (r: bool)
    ensures
        r == (first_value(device.properties@, name@) == Some(value@)),
{
    match device.property(name) {
        Some(s) => str_eq(s, value),
        None => false,
    }
}

/// The serial number of a debug board, where the serial port is its management port.
pub fn debug_board_serial(device: &Device) -> (r: Option<&str>)
    ensures
        if is_debug_board(device.properties@) {
            same_view(r, first_value(device.properties@, "ID_USB_SERIAL_SHORT"@))
        } else {
            r is None
        },
{
    match device.property_u64("ID_VENDOR_ID", 16) {
        Some(0x03eb) => {},
        _ => {
            return None;
        },
    }
    match device.property_u64("ID_MODEL_ID", 16) {
        Some(0x2404) => {},
        _ => {
            return None;
        },
    }
    if !property_is(device, "ID_VENDOR", "Linaro") {
        return None;
    }
    if !property_is(device, "ID_MODEL", "DebugBoard") {
        return None;
    }
    if !property_is(device, "ID_USB_INTERFACE_NUM", "00") {
        return None;
    }
    device.property("ID_USB_SERIAL_SHORT")
}

/// What a debug board can switch.
#[derive(Copy, Clone, Debug, PartialEq, Eq, Structural)]
pub enum QCOMLTActuatorType {
    /// The power of the board.
    Power,
    /// The power of its USB port.
    UsbVbus,
    /// Its power button.
    PowerButton,
    /// Its reset button.
    ResetButton,
}

impl QCOMLTActuatorType {
    /// The name of the switch.
    pub open spec fn name_text(self) -> Seq<char> {
        match self {
            QCOMLTActuatorType::Power => "power"@,
            QCOMLTActuatorType::UsbVbus => "usb-vbus"@,
            QCOMLTActuatorType::PowerButton => "power-button"@,
            QCOMLTActuatorType::ResetButton => "reset-button"@,
        }
    }

    /// The name of the switch.
    pub fn name(&self) -> (r: &'static str)
        ensures
            r@ == self.name_text(),
    {
        match self {
            QCOMLTActuatorType::Power => "power",
            QCOMLTActuatorType::UsbVbus => "usb-vbus",
            QCOMLTActuatorType::PowerButton => "power-button",
            QCOMLTActuatorType::ResetButton => "reset-button",
        }
    }

    /// The byte that switches on: a capital letter.
    pub open spec fn letter(self) -> u8 {
        match self {
            QCOMLTActuatorType::Power => 0x50,
            QCOMLTActuatorType::UsbVbus => 0x55,
            QCOMLTActuatorType::PowerButton => 0x42,
            QCOMLTActuatorType::ResetButton => 0x52,
        }
    }

    /// The byte that brings the switch into a mode, where there is such a mode.
    pub fn command(&self, mode: &str) -> (r: Option<u8>)
        ensures
            r == if mode@ == "on"@ {
                Some(self.letter())
            } else if mode@ == "off"@ {
                Some((self.letter() + 0x20) as u8)
            } else {
                None
            },
    {
        let letter: u8 = match self {
            QCOMLTActuatorType::Power => 0x50,
            QCOMLTActuatorType::UsbVbus => 0x55,
            QCOMLTActuatorType::PowerButton => 0x42,
            QCOMLTActuatorType::ResetButton => 0x52,
        };
        match power_mode(mode) {
            Some(true) => Some(letter),
            Some(false) => Some(letter + 0x20),
            None => None,
        }
    }
}

/// The name of an actuator of a debug board.
pub fn debug_board_name(provider: &str, serial: &str, actuator: &QCOMLTActuatorType) -> (r: String)
    ensures
        r@ == provider@ + "."@ + serial@ + "."@ + actuator.name_text(),
{
    let mut r = provider.to_owned();
    r.append(".");
    r.append(serial);
    r.append(".");
    r.append(actuator.name());
    r
}

/// Switching off takes the lower case letter of what switches on, and no two actuators share a
/// byte.
pub proof fn law_debug_board_bytes(a: QCOMLTActuatorType, b: QCOMLTActuatorType)
    ensures
        0x41 <= a.letter() <= 0x5a,
        a.letter() == b.letter() ==> a == b,
        a.letter() + 0x20 != b.letter(),
{
}

/// The first access list whose properties an item matches says who may see it, and nobody is said
/// to where there is none.
pub proof fn law_first_list_counts(
    acls: Seq<ProviderAcl>,
    properties: Map<Seq<char>, Seq<char>>,
    i: int,
)
    ensures
        0 <= i < acls.len() && properties_match(properties, acls[i].match_@) && (forall|j: int|
            0 <= j < i ==> !properties_match(properties, (#[trigger] acls[j]).match_@))
            ==> matched_roles(acls, properties) == texts(acls[i].roles@),
        (forall|j: int|
            0 <= j < acls.len() ==> !properties_match(properties, (#[trigger] acls[j]).match_@))
            ==> matched_roles(acls, properties) == Seq::<Seq<char>>::empty(),
    decreases acls.len(),
{
    if acls.len() > 0 && !properties_match(properties, acls[0].match_@) {
        let rest = acls.skip(1);
        law_first_list_counts(rest, properties, i - 1);
        if forall|j: int|
            0 <= j < acls.len() ==> !properties_match(properties, (#[trigger] acls[j]).match_@) {
            assert forall|j: int| 0 <= j < rest.len() implies !properties_match(
                properties,
                (#[trigger] rest[j]).match_@,
            ) by {
                assert(!properties_match(properties, acls[j + 1].match_@));
            }
        }
        if 0 < i < acls.len() && (forall|j: int|
            0 <= j < i ==> !properties_match(properties, (#[trigger] acls[j]).match_@)) {
            assert forall|j: int| 0 <= j < i - 1 implies !properties_match(
                properties,
                (#[trigger] rest[j]).match_@,
            ) by {
                assert(!properties_match(properties, acls[j + 1].match_@));
            }
        }
    }
}

/// An item tells the name and the kind of its provider, and all else as before.
pub proof fn law_items_tell_their_provider(
    properties: Map<Seq<char>, Seq<char>>,
    name: Seq<char>,
    provider: Seq<char>,
    key: Seq<char>,
)
    ensures
        provided(properties, name, provider).contains_pair("boardswarm.provider.name"@, name),
        provided(properties, name, provider).contains_pair("boardswarm.provider"@, provider),
        key != "boardswarm.provider.name"@ && key != "boardswarm.provider"@ ==> (provided(
            properties,
            name,
            provider,
        ).contains_key(key) <==> properties.contains_key(key)) && (properties.contains_key(key)
            ==> provided(properties, name, provider)[key] == properties[key]),
{
    reveal_strlit("boardswarm.provider.name");
    reveal_strlit("boardswarm.provider");
    assert(PROVIDER_NAME@.len() != PROVIDER@.len());
}

/// The ports of a unit count from one up to their number, or have the names that are given.
pub proof fn law_ports_are_counted_from_one(n: u16, names: Vec<String>, i: int)
    ensures
        port_list(Ports::Num(n)).len() == n,
        0 <= i < n ==> port_list(Ports::Num(n))[i] == decimal((i + 1) as nat),
        port_list(Ports::Ports(names)).len() == names@.len(),
        0 <= i < names@.len() ==> port_list(Ports::Ports(names))[i] == names@[i]@,
{
}

/// The place of a device on the bus is known exactly if both numbers are and fit into a byte.
pub proof fn law_places_are_bytes(properties: Seq<(String, String)>)
    ensures
        bus_place(properties) matches Some((bus, dev)) ==> {
            &&& bus <= 255 && dev <= 255
            &&& property_number(properties, "BUSNUM"@, 10) == Some(bus)
            &&& property_number(properties, "DEVNUM"@, 10) == Some(dev)
        },
        bus_place(properties) is None ==> {
            ||| property_number(properties, "BUSNUM"@, 10) is None
            ||| property_number(properties, "DEVNUM"@, 10) is None
            ||| property_number(properties, "BUSNUM"@, 10)->0 > 255
            ||| property_number(properties, "DEVNUM"@, 10)->0 > 255
        },
{
}

/// Registrations hold for each path what was registered for it last.
pub proof fn law_last_registration_counts(
    entries: Seq<(String, Vec<u64>)>,
    path: String,
    ids: Vec<u64>,
    other: Seq<char>,
)
    ensures
        entries_map(entries.push((path, ids))).contains_pair(path@, ids@),
        other != path@ ==> entries_map(entries.push((path, ids))).contains_key(other)
            == entries_map(entries).contains_key(other),
        other != path@ && entries_map(entries).contains_key(other) ==> entries_map(
            entries.push((path, ids)),
        )[other] == entries_map(entries)[other],
        !entries_map(Seq::empty()).contains_key(other),
{
    assert(entries.push((path, ids)).drop_last() =~= entries);
}

} // verus!
