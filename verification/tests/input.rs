use boardswarm::keyboard::{
    HidKeyboardData, KeyboardChange, KeyboardData, KeyboardEvent, KEYS,
};
use boardswarm::udev::{item_properties, Device, UsbInterface};

#[test]
fn keyboard_keys() {
    let mut client = KeyboardData::new();
    let mut expected = [0u8; KEYS];

    assert_eq!(client.down(), [0, 0, 0, 0, 0, 0]);
    assert_eq!(client.modifiers(), 0x0);

    // Fill all slots
    for k in 0x1..=0x6 {
        client.event(KeyboardEvent::Down(k));
        expected[k as usize - 1] = k;
        assert_eq!(client.down(), expected);
        assert_eq!(client.modifiers(), 0x0);
    }

    // Overflow should cause the oldest to drop
    client.event(KeyboardEvent::Down(0x7));
    assert_eq!(client.down(), [0x2, 0x3, 0x4, 0x5, 0x6, 0x7]);
    assert_eq!(client.modifiers(), 0x0);

    client.event(KeyboardEvent::Up(0x5));
    assert_eq!(client.down(), [0x2, 0x3, 0x4, 0x6, 0x7, 0x0]);
    assert_eq!(client.modifiers(), 0x0);

    client.event(KeyboardEvent::Down(0x8));
    assert_eq!(client.down(), [0x2, 0x3, 0x4, 0x6, 0x7, 0x8]);
    assert_eq!(client.modifiers(), 0x0);

    client.event(KeyboardEvent::Down(0x9));
    assert_eq!(client.down(), [0x3, 0x4, 0x6, 0x7, 0x8, 0x9]);
    assert_eq!(client.modifiers(), 0x0);

    client.event(KeyboardEvent::Up(0x4));
    assert_eq!(client.down(), [0x3, 0x6, 0x7, 0x8, 0x9, 0x0]);

    client.event(KeyboardEvent::Up(0x3));
    client.event(KeyboardEvent::Up(0x6));
    client.event(KeyboardEvent::Up(0x7));
    client.event(KeyboardEvent::Up(0x8));
    client.event(KeyboardEvent::Up(0x9));
    assert_eq!(client.down(), [0; KEYS]);
}

#[test]
fn keyboard_modifiers() {
    let mut client = KeyboardData::new();

    client.event(KeyboardEvent::Down(0xe1));
    assert_eq!(client.modifiers(), 0x2);

    client.event(KeyboardEvent::Down(0xe3));
    assert_eq!(client.modifiers(), 0xa);

    client.event(KeyboardEvent::Up(0xe1));
    assert_eq!(client.modifiers(), 0x8);

    client.event(KeyboardEvent::Up(0xe2));
    assert_eq!(client.modifiers(), 0x8);

    client.event(KeyboardEvent::Up(0xe3));
    assert_eq!(client.modifiers(), 0);
}

#[test]
fn other_usages_change_nothing() {
    let mut client = KeyboardData::new();
    client.event(KeyboardEvent::Down(0));
    client.event(KeyboardEvent::Down(0xde));
    client.event(KeyboardEvent::Down(0xe8));
    assert_eq!(client.down(), [0; KEYS]);
    assert_eq!(client.modifiers(), 0);
}

#[test]
fn clients_share_a_keyboard() {
    let mut hid = HidKeyboardData::new();
    assert_eq!(hid.client_count(), 0);
    assert_eq!(hid.process(KeyboardChange::NewClient), [0; 8]);
    assert_eq!(hid.process(KeyboardChange::NewClient), [0; 8]);
    assert_eq!(hid.client_count(), 2);
    let report = hid.process(KeyboardChange::Event(0, KeyboardEvent::Down(4)));
    assert_eq!(report, [0, 0, 4, 0, 0, 0, 0, 0]);
    let report = hid.process(KeyboardChange::Event(1, KeyboardEvent::Down(0xe0)));
    assert_eq!(report, [1, 0, 4, 0, 0, 0, 0, 0]);
    assert_eq!(hid.process(KeyboardChange::NoMoreClients), [1, 0, 4, 0, 0, 0, 0, 0]);
    let report = hid.process(KeyboardChange::Gone(0));
    assert_eq!(report, [1, 0, 0, 0, 0, 0, 0, 0]);
    assert_eq!(hid.client_count(), 1);
}

#[test]
fn all_keys_show_while_they_fit() {
    let mut merged = KeyboardData::new();
    let mut clients = vec![KeyboardData::new(), KeyboardData::new()];
    for k in 1..=6 {
        clients[0].event(KeyboardEvent::Down(k));
    }
    merged.merge(&mut clients);
    assert_eq!(merged.down(), [1, 2, 3, 4, 5, 6]);
    assert_eq!(clients[0].down(), [1, 2, 3, 4, 5, 6]);
    assert_eq!(clients[1].down(), [0; KEYS]);
    // The empty client may come first as well.
    clients.swap(0, 1);
    merged.merge(&mut clients);
    assert_eq!(merged.down(), [1, 2, 3, 4, 5, 6]);
    assert_eq!(clients[0].down(), [0; KEYS]);
}

#[test]
fn a_seventh_key_drops_the_oldest() {
    let mut merged = KeyboardData::new();
    let mut clients = vec![KeyboardData::new(), KeyboardData::new()];
    for k in 1..=6 {
        clients[0].event(KeyboardEvent::Down(k));
    }
    clients[1].event(KeyboardEvent::Down(7));
    merged.merge(&mut clients);
    assert_eq!(merged.down(), [2, 3, 4, 5, 6, 7]);
    assert_eq!(clients[0].down(), [1, 2, 3, 4, 5, 6]);
    assert_eq!(clients[1].down(), [7, 1, 0, 0, 0, 0]);
}

#[test]
fn udev_interface_string() {
    let tests: &[(_, &[_])] = &[
        (
            ":123456:",
            &[UsbInterface {
                class: 0x12,
                subclass: 0x34,
                protocol: 0x56,
            }],
        ),
        (
            ":123456:673489:",
            &[
                UsbInterface {
                    class: 0x12,
                    subclass: 0x34,
                    protocol: 0x56,
                },
                UsbInterface {
                    class: 0x67,
                    subclass: 0x34,
                    protocol: 0x89,
                },
            ],
        ),
        ("::", &[]),
        (":", &[]),
        ("", &[]),
    ];
    for (prop, expected) in tests {
        let v = UsbInterface::from_udev(prop);
        assert_eq!(&v, expected, "Unexpected result for {prop}");
    }
}

#[test]
fn get_bit() {
    assert_eq!(boardswarm::bits::get_bit(0xa5, 0), 1);
    assert_eq!(boardswarm::bits::get_bit(0xa5, 1), 0);
    assert_eq!(boardswarm::bits::get_bit(0xa5, 2), 1);
    assert_eq!(boardswarm::bits::get_bit(0xa5, 3), 0);
    assert_eq!(boardswarm::bits::get_bit(0xa5, 4), 0);
    assert_eq!(boardswarm::bits::get_bit(0xa5, 5), 1);
    assert_eq!(boardswarm::bits::get_bit(0xa5, 6), 0);
    assert_eq!(boardswarm::bits::get_bit(0xa5, 7), 1);
}

fn device(properties: &[(&str, &str)]) -> Device {
    Device {
        subsystem: Some("usb".to_string()),
        devtype: Some("usb_device".to_string()),
        properties: properties
            .iter()
            .map(|(k, v)| (k.to_string(), v.to_string()))
            .collect(),
    }
}

#[test]
fn udev_numbers() {
    let d = device(&[("BUSNUM", "003"), ("ID", "ff"), ("BAD", "x")]);
    assert_eq!(d.property("BUSNUM"), Some("003"));
    assert_eq!(d.property_u64("BUSNUM", 10), Some(3));
    assert_eq!(d.property_u64("ID", 16), Some(255));
    assert_eq!(d.property_u64("BAD", 10), None);
    assert_eq!(d.property_u64("NONE", 10), None);
}

#[test]
fn udev_properties_of_an_item() {
    let chain = vec![device(&[("ID_MODEL", "probe"), ("SERIAL", "1")])];
    let props = item_properties("ttyUSB0", &chain);
    assert_eq!(props.name(), "ttyUSB0");
    assert_eq!(props.get("udev.ID_MODEL"), Some("probe"));
    assert_eq!(props.get("udev.SERIAL"), Some("1"));
}
