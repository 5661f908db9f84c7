use boardswarm::gpio::{add_chip_label, gpio_line_properties, gpio_lines, GpioLine, GpioProvider};
use boardswarm::hifive_p550_mcu::{
    actuators, BootSelMode, ChannelMessage, HifiveP550MCUProvider, McuAction, McuCommand, McuDialog,
    McuEvent, SomPowerMode,
};
use boardswarm::hid::{keyboard_properties, KEYBOARD_DESC, MOUSE_DESC, MOUSE_DESC_INPUT_SIZE};
use boardswarm::keyboard::KEYBOARD_DESC_INPUT_SIZE;
use boardswarm::providers::{
    brom_device, debug_board_name, debug_board_serial, dfu_device, dfu_volume,
    fastboot_device, fastboot_volume, fastboot_volume_name, pdu_ports, pdu_properties, power_mode,
    rockusb_device, rockusb_volume, serial_message, uhubctl_args, uhubctl_program,
    uhubctl_properties, usb_volume_name, Ports, Provider, ProviderAcl, QCOMLTActuatorType, Registrations,
};
use boardswarm::registry::Properties;
use boardswarm::ti_xds::{
    boot_modes, mode_plan, setup_command, setup_goes_on, ExpectStep, LineRead, SetupStage,
    TiXdsBuffer, TiXdsProvider, EXPECT_SECONDS,
};
use boardswarm::udev::{Device, UsbInterface};
use boardswarm::volumes::{eswin_device, eswin_mount, RockUsbMode};

fn pairs(list: &[(&str, &str)]) -> Vec<(String, String)> {
    list.iter().map(|(k, v)| (k.to_string(), v.to_string())).collect()
}

fn device(list: &[(&str, &str)]) -> Device {
    Device { subsystem: None, devtype: None, properties: pairs(list) }
}

#[test]
fn providers_say_who_may_see_items() {
    let provider = Provider {
        name: "lab".to_string(),
        provider: "gpio".to_string(),
        acls: vec![
            ProviderAcl {
                match_: pairs(&[("kind", "power")]),
                roles: vec!["admin".to_string()],
            },
            ProviderAcl { match_: vec![], roles: vec!["guest".to_string()] },
        ],
    };
    let mut props = Properties::new("p");
    provider.extend_properties(&mut props);
    assert_eq!(props.get("boardswarm.provider"), Some("gpio"));
    assert_eq!(props.get("boardswarm.provider.name"), Some("lab"));
    assert_eq!(provider.match_acl(&props), ["guest"]);
    props.insert("kind", "power");
    assert_eq!(provider.match_acl(&props), ["admin"]);
    let none = Provider { acls: vec![], ..provider };
    assert!(none.match_acl(&props).is_empty());
}

#[test]
fn registrations_follow_devices() {
    let mut registrations = Registrations::new();
    registrations.insert("/sys/a", vec![1, 2]);
    registrations.insert("/sys/b", vec![3]);
    registrations.insert("/sys/a", vec![4]);
    assert_eq!(registrations.remove("/sys/a"), Some(vec![4]));
    assert_eq!(registrations.remove("/sys/a"), None);
    assert_eq!(registrations.remove("/sys/b"), Some(vec![3]));
}

#[test]
fn gpio_lines_become_actuators() {
    let line = |line_name: Option<&str>, line_number, name: &str| GpioLine {
        line_name: line_name.map(str::to_string),
        line_number,
        name: name.to_string(),
    };
    let lines = vec![
        line(Some("RELAY"), None, "relay"),
        line(None, Some(7), "reset"),
        line(Some("FIRST"), None, "first"),
    ];
    let chip: Vec<String> = ["FIRST", "X", "RELAY"].iter().map(|s| s.to_string()).collect();
    assert_eq!(
        gpio_lines(&lines, &chip),
        [(7, "reset".to_string()), (2, "relay".to_string())]
    );
    let mut props = Properties::new("chip");
    gpio_line_properties(&mut props, "relay", 2, "RELAY");
    assert_eq!(props.name(), "relay");
    assert_eq!(props.get("gpio.line_name"), Some("RELAY"));
    assert_eq!(props.get("gpio.line_number"), Some("2"));
    assert_eq!(power_mode("on"), Some(true));
    assert_eq!(power_mode("off"), Some(false));
    assert_eq!(power_mode("On"), None);
}

#[test]
fn ports_become_actuators() {
    assert_eq!(pdu_ports(&Ports::Num(3)), ["1", "2", "3"]);
    assert_eq!(pdu_ports(&Ports::Ports(vec!["a".to_string()])), ["a"]);
    let props = pdu_properties("pdu", "rack", "4");
    assert_eq!(props.name(), "pdu.rack.port-4");
    assert_eq!(props.get("pdudaemon.port"), Some("4"));
    let props = uhubctl_properties("hubs", "1-2", "left", 3);
    assert_eq!(props.name(), "hubs.1-2.port-3");
    assert_eq!(props.get("uhubctl.name"), Some("left"));
    let args = uhubctl_args("1-2", 3, true);
    assert_eq!(args.last().unwrap(), "on");
    assert!(args.contains(&"1-2".to_string()) && args.contains(&"3".to_string()));
    assert_eq!(serial_message("go"), "go\n");
}

#[test]
fn usb_devices_are_recognised() {
    let place = [("BUSNUM", "001"), ("DEVNUM", "042")];
    let dfu = device(&[("ID_USB_INTERFACES", ":fe0102:"), place[0], place[1]]);
    assert_eq!(dfu_device(&dfu, true), Some((1, 42)));
    assert_eq!(dfu_device(&dfu, false), None);
    assert_eq!(dfu_device(&device(&[("ID_USB_INTERFACES", ":fe0101:"), place[0], place[1]]), true), None);
    let rock = device(&[("ID_VENDOR_ID", "2207"), place[0], place[1]]);
    assert_eq!(rockusb_device(&rock, true), Some((1, 42)));
    assert_eq!(rockusb_device(&device(&[("ID_VENDOR_ID", "2207")]), true), None);
    let fastboot = UsbInterface { class: 0xff, subclass: 0x42, protocol: 3 };
    assert_eq!(fastboot_device(&rock, &vec![fastboot]), Some((1, 42)));
    assert_eq!(fastboot_device(&rock, &vec![]), None);
    assert!(brom_device(&device(&[("ID_VENDOR_ID", "0e8d"), ("ID_MODEL_ID", "0003")])));
    assert!(!brom_device(&device(&[("ID_VENDOR_ID", "0e8d"), ("ID_MODEL_ID", "0004")])));
    assert_eq!(usb_volume_name(1, 42, Some("Board")), "1/42 Board");
    assert_eq!(usb_volume_name(1, 42, None), "42/42");
    assert!(fastboot_volume_name(1, 42).contains("42"));
}

#[test]
fn debug_boards_switch_power() {
    let board = device(&[
        ("ID_VENDOR_ID", "03eb"),
        ("ID_MODEL_ID", "2404"),
        ("ID_VENDOR", "Linaro"),
        ("ID_MODEL", "DebugBoard"),
        ("ID_USB_INTERFACE_NUM", "00"),
        ("ID_USB_SERIAL_SHORT", "abc"),
    ]);
    assert_eq!(debug_board_serial(&board), Some("abc"));
    assert_eq!(debug_board_serial(&device(&[])), None);
    assert_eq!(QCOMLTActuatorType::Power.command("on"), Some(b'P'));
    assert_eq!(QCOMLTActuatorType::Power.command("off"), Some(b'p'));
    assert_eq!(QCOMLTActuatorType::ResetButton.command("off"), Some(b'r'));
    assert_eq!(QCOMLTActuatorType::UsbVbus.command("maybe"), None);
    assert_eq!(
        debug_board_name("lab", "abc", &QCOMLTActuatorType::PowerButton),
        "lab.abc.power-button"
    );
}

#[test]
fn the_power_of_a_module_is_switched() {
    let mut dialog = McuDialog::new(ChannelMessage::SomPower(SomPowerMode::On));
    assert!(matches!(dialog.step(McuEvent::Begin), McuAction::SendForPrompt(s) if s == "\n"));
    assert!(matches!(dialog.step(McuEvent::Prompt(*b"cmd:")),
        McuAction::SendForLine(s) if s == "sompower-g\n"));
    assert!(matches!(dialog.step(McuEvent::Line("noise".to_string())), McuAction::ReadLine));
    assert!(matches!(dialog.step(McuEvent::Line("Som Power Status: OFF".to_string())),
        McuAction::SendForLine(s) if s == "sompower-s 1\n"));
    assert!(matches!(dialog.step(McuEvent::Line("wait".to_string())), McuAction::ReadLine));
    assert!(matches!(dialog.step(McuEvent::Line("ATX_PS_ON POWERON ok".to_string())), McuAction::Done));
    let mut dialog = McuDialog::new(ChannelMessage::SomPower(SomPowerMode::On));
    dialog.step(McuEvent::Begin);
    dialog.step(McuEvent::Prompt(*b"cmd:"));
    assert!(matches!(dialog.step(McuEvent::Line("Som Power Status: ON".to_string())), McuAction::Done));
    let mut dialog = McuDialog::new(ChannelMessage::SomPower(SomPowerMode::Off));
    dialog.step(McuEvent::Begin);
    assert!(matches!(dialog.step(McuEvent::Prompt(*b"xxxx")), McuAction::ResponseParse));
}

#[test]
fn the_boot_selection_is_set() {
    let mut dialog = McuDialog::new(ChannelMessage::BootSel(BootSelMode::Usb));
    dialog.step(McuEvent::Begin);
    assert!(matches!(dialog.step(McuEvent::Prompt(*b"cmd:")),
        McuAction::SendForLine(s) if s == "bootsel-g\n"));
    let line = "Get: Bootsel Controlled by: HW, bootsel[3 2 1 0]:0 0 0 1";
    assert!(matches!(dialog.step(McuEvent::Line(line.to_string())),
        McuAction::SendForLine(s) if s == "bootsel-s SW 0x3\n"));
    let line = "Set: Bootsel Controlled by: SW, bootsel[3 2 1 0]:0 0 1 1";
    assert!(matches!(dialog.step(McuEvent::Line(line.to_string())), McuAction::Done));
    assert_eq!(BootSelMode::format_bits(&0b0101), "0 1 0 1");
    let (controller, value, bits) = BootSelMode::Usb.to_status();
    assert_eq!((controller.as_str(), value, bits.as_deref()), ("SW", 3, Some("0 0 1 1")));
    assert_eq!(SomPowerMode::Off.to_status(), (0, "STOP_POWER".to_string()));
    assert_eq!(SomPowerMode::On.as_str(), "on");
    assert_eq!(McuCommand::HifiveP550McuBootSel.name(), "hifive-p550-mcu-boot-sel");
}

#[test]
fn boards_of_known_models_are_taken() {
    let provider = TiXdsProvider::new("lab".to_string(), vec![], None);
    assert_eq!(provider.item_name(), "ti-xds-tai.lab");
    let node = Some("/dev/ttyACM0");
    assert!(provider.handle(&vec![device(&[])], node).is_none());
    let board = vec![device(&[("ID_SERIAL_SHORT", "S62A123")])];
    let props = provider.handle(&board, node).unwrap();
    assert_eq!((props.name(), props.get("model")), ("ti-xds-tai.lab", Some("am62xx-evm")));
    assert!(provider.handle(&board, None).is_none());
    let board = vec![device(&[("ID_SERIAL_SHORT", "S62G123")])];
    assert_eq!(provider.handle(&board, node).unwrap().get("model"), Some("am62pxx-sk"));
    let wanted = pairs(&[("udev.A", "b")]);
    let fixed = TiXdsProvider::new("lab".to_string(), wanted, Some("m".to_string()));
    assert!(fixed.handle(&board, node).is_none());
    let board = vec![device(&[("A", "b")])];
    assert_eq!(fixed.handle(&board, node).unwrap().get("model"), Some("m"));
    assert!(fixed.handle(&board, None).is_none());
}

#[test]
fn waiting_for_a_board_ends() {
    let mut buffer = TiXdsBuffer::new();
    let step = buffer.expect_step(LineRead::Text("hel"), "=>", 1);
    assert!(matches!(step, ExpectStep::GoOn));
    assert!(matches!(buffer.expect_step(LineRead::Nothing, "=>", 9), ExpectStep::GoOn));
    assert!(matches!(buffer.expect_step(LineRead::Text(""), "=>", 2), ExpectStep::GiveUp));
    assert!(matches!(buffer.expect_step(LineRead::Failed, "=>", 0), ExpectStep::GiveUp));
    let step = buffer.expect_step(LineRead::Text("lo=>x"), "=>", 9);
    assert!(matches!(step, ExpectStep::Match(text) if text == "hello=>"));
    assert_eq!(EXPECT_SECONDS, 1);
}

#[test]
fn controllers_have_named_nodes() {
    let provider = HifiveP550MCUProvider::new(pairs(&[("udev.ID_MODEL", "P550")]));
    let ids = [("ID_VENDOR_ID", "0403"), ("ID_MODEL_ID", "6011"), ("ID_MODEL", "P550")];
    let node = Some("/dev/ttyUSB2");
    assert_eq!(provider.handle(&vec![device(&ids)], node).unwrap().name(), "ttyUSB2");
    assert!(provider.handle(&vec![device(&ids)], None).is_none());
    assert!(provider.handle(&vec![device(&ids)], Some("/")).is_none());
    assert!(provider.handle(&vec![device(&ids[..2])], node).is_none());
    assert!(provider.handle(&vec![device(&ids[1..])], node).is_none());
    let base = provider.handle(&vec![device(&ids)], node).unwrap();
    let [power, boot] = actuators(&base);
    assert_eq!((power.0, power.1.name()), (
        McuCommand::HifiveP550McuSomPower,
        "hifive-p550-mcu-som-power",
    ));
    assert_eq!((boot.0, boot.1.name()), (
        McuCommand::HifiveP550McuBootSel,
        "hifive-p550-mcu-boot-sel",
    ));
    assert_eq!(boot.1.get("udev.ID_MODEL"), Some("P550"));
    assert_eq!(base.name(), "ttyUSB2");
}

#[test]
fn one_gpio_chip_at_a_time() {
    let mut provider = GpioProvider::new("lines".to_string(), pairs(&[("udev.A", "b")]));
    let chip = vec![device(&[("A", "b")])];
    let node = Some("/dev/gpiochip0");
    let mut props = provider.handle(&chip, node).unwrap();
    assert_eq!((props.name(), props.get("boardswarm.provider")), ("gpiochip0", Some("gpio")));
    assert_eq!(props.get("boardswarm.provider.name"), Some("lines"));
    add_chip_label(&mut props, "pinctrl");
    assert_eq!(props.get("gpio.chip_label"), Some("pinctrl"));
    assert!(provider.handle(&chip, None).is_none());
    assert!(provider.handle(&vec![device(&[])], node).is_none());
    provider.registered("/sys/a", vec![4, 5]);
    assert!(provider.handle(&chip, node).is_none());
    assert!(provider.remove("/sys/b").is_empty());
    assert!(provider.handle(&chip, node).is_none());
    assert_eq!(provider.remove("/sys/a"), [4, 5]);
    assert!(provider.handle(&chip, node).is_some());
    assert!(provider.remove("/sys/a").is_empty());
}

#[test]
fn wanted_disks_are_boards() {
    let disk = vec![device(&[("ID_MODEL", "ESWIN")])];
    let props = eswin_device(&disk, &pairs(&[("udev.ID_MODEL", "ESWIN")]), "p550").unwrap();
    assert_eq!((props.name(), props.get("boardswarm.provider")), (
        "p550",
        Some("eswin-eic7700-storage"),
    ));
    assert!(eswin_device(&disk, &pairs(&[("udev.ID_MODEL", "x")]), "p550").is_none());
}

#[test]
fn defaults_are_given() {
    assert_eq!(uhubctl_program(None), "/usr/sbin/uhubctl");
    assert_eq!(uhubctl_program(Some("/bin/u".to_string())), "/bin/u");
    let keyboard = keyboard_properties("input");
    assert_eq!((keyboard.name(), keyboard.get("boardswarm.provider")), (
        "HID Keyboard",
        Some("hid_gadget"),
    ));
}

#[test]
fn boards_are_talked_to() {
    let mut buffer = TiXdsBuffer::new();
    assert_eq!(buffer.expect("hel", "=> "), None);
    assert_eq!(buffer.expect("lo=> rest", "=> "), Some("hello=> ".to_string()));
    assert_eq!(buffer.expect("", "rest"), Some("rest".to_string()));
    assert_eq!(setup_command(SetupStage::Version, "m"), "version\n");
    assert_eq!(setup_command(SetupStage::Model, "m"), "auto set dut m\n");
    assert_eq!(setup_command(SetupStage::Modes, "m"), "auto boot list\n");
    assert!(setup_goes_on(SetupStage::Version, Some("the Test Automation Interface v1")));
    assert!(!setup_goes_on(SetupStage::Version, None));
    assert!(!setup_goes_on(SetupStage::Model, Some("Error setting dut")));
    let modes = boot_modes("Boot modes:\n emmc - B3A\n uart - 0x\nnone -\n");
    assert_eq!(modes, pairs(&[("emmc", "B3A"), ("uart", "0x")]));
    let plan = mode_plan(&modes, true, "emmc").unwrap();
    assert_eq!(plan.boot.unwrap().send, "auto sysboot B3A\n");
    assert_eq!(plan.power.send, "auto power on\n");
    assert_eq!(plan.power.expect, "Powering On DUT");
    let plan = mode_plan(&modes, false, "").unwrap();
    assert!(plan.boot.is_none());
    assert_eq!(plan.power.send, "auto power off\n");
    assert!(mode_plan(&modes, true, "sd").is_none());
}

#[test]
fn usb_devices_have_volumes() {
    let place = [("BUSNUM", "001"), ("DEVNUM", "042")];
    let dfu = vec![device(&[
        ("ID_USB_INTERFACES", ":fe0102:"),
        ("ID_MODEL", "Board"),
        place[0],
        place[1],
    ])];
    let volume = dfu_volume(&dfu, true, "lab").unwrap();
    assert_eq!((volume.bus, volume.dev), (1, 42));
    assert_eq!(volume.properties.name(), "1/42 Board");
    assert_eq!(volume.properties.get("boardswarm.provider"), Some("dfu"));
    assert_eq!(volume.properties.get("boardswarm.provider.name"), Some("lab"));
    assert_eq!(volume.properties.get("udev.ID_MODEL"), Some("Board"));
    assert!(dfu_volume(&dfu, false, "lab").is_none());
    assert!(rockusb_volume(&dfu, true, "lab").is_none());
    let rock = vec![device(&[("ID_VENDOR_ID", "2207"), place[0], place[1]])];
    assert_eq!(rockusb_volume(&rock, true, "lab").unwrap().properties.name(), "42/42");
    let mut fastboot = vec![device(&[("ID_USB_INTERFACES", ":ff4203:"), place[0], place[1]])];
    assert!(fastboot_volume(&fastboot, &vec![], "lab").is_none());
    fastboot[0].subsystem = Some("usb_device".to_string());
    let volume = fastboot_volume(&fastboot, &vec![], "lab").unwrap();
    assert_eq!(volume.properties.name(), "fastboot 1/42");
    assert!(fastboot_volume(&fastboot, &pairs(&[("a", "b")]), "lab").is_none());
}

#[test]
fn disks_are_mounted() {
    let mut props = Properties::new("disk");
    assert_eq!(eswin_mount(&props, "/mnt").unwrap_err(), "Failed to read udev property DEVNAME");
    props.insert("udev.DEVNAME", "/dev/sda");
    assert_eq!(eswin_mount(&props, "/mnt").unwrap_err(), "Failed to read udev property ID_PATH");
    props.insert("udev.ID_PATH", "pci-1");
    assert_eq!(
        eswin_mount(&props, "/mnt").unwrap(),
        ("/dev/sda".to_string(), "/mnt/pci-1".to_string())
    );
}

#[test]
fn loaders_tell_their_flash() {
    assert!(matches!(RockUsbMode::determine(None, Some("x")), RockUsbMode::MaskRom));
    assert!(matches!(RockUsbMode::determine(Some(9), Some("EMMC ")),
        RockUsbMode::Loader(n, 9) if n == "EMMC"));
    assert!(matches!(RockUsbMode::determine(Some(9), None),
        RockUsbMode::Loader(n, 9) if n == "unknown"));
}

/// The size of the input report that a descriptor tells of, in bits.
fn input_bits(desc: &[u8]) -> u32 {
    let (mut at, mut size, mut count, mut bits) = (0, 0, 0, 0);
    while at < desc.len() {
        let prefix = desc[at];
        let n = [0, 1, 2, 4][(prefix & 3) as usize];
        let value = u32::from(*desc.get(at + 1).unwrap_or(&0));
        match prefix & 0xfc {
            0x74 => size = value,
            0x94 => count = value,
            0x80 => bits += size * count,
            _ => {}
        }
        at += 1 + n;
    }
    bits
}

#[test]
fn descriptors_fit_the_reports() {
    assert_eq!(input_bits(&KEYBOARD_DESC), 8 * KEYBOARD_DESC_INPUT_SIZE as u32);
    assert_eq!(input_bits(&MOUSE_DESC), 8 * MOUSE_DESC_INPUT_SIZE as u32);
}
