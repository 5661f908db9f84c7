use boardswarm::fastboot::setup_volume;
use boardswarm::keyboard::KeyboardEvent;
use boardswarm::kvm::{
    build_receive_pipeline, is_navigation, on_pad, picture_size, HidEvent, KvmInput,
};
use boardswarm::media::{
    camera, live_encoder, source_elements, viewer_elements, Element, EncoderSettings, STUN_SERVER,
};
use boardswarm::path::file_name_of;
use boardswarm::providers::QCOMLTActuatorType;
use boardswarm::registry::Properties;
use boardswarm::remote::{
    bridge, known_leds, target_gone, BridgeEvent, BridgeStep, BsProvider, DeviceEvent, DeviceInfo,
    DeviceModeInfo, DevicePart, DeviceStep, ItemType, RemoteDevice,
};
use boardswarm::serial::{
    add_hardware, brom_volume, debug_board_actuators, serial_commands, serial_console, Command,
    SerialPort,
};
use boardswarm::status::{Code, Status};
use boardswarm::udev::Device;
use boardswarm::volume_io::VolumeIoNoMoreRequests;
use boardswarm::volumes::{eswin_open, eswin_targets, Told, VolumeError};

fn pairs(list: &[(&str, &str)]) -> Vec<(String, String)> {
    list.iter().map(|(k, v)| (k.to_string(), v.to_string())).collect()
}

fn device(list: &[(&str, &str)]) -> Device {
    Device { subsystem: None, devtype: None, properties: pairs(list) }
}

#[test]
fn ports_are_named_by_their_nodes() {
    assert_eq!(file_name_of("/dev/ttyUSB0").unwrap(), "ttyUSB0");
    assert_eq!(file_name_of("/dev/ttyUSB0/.").unwrap(), "ttyUSB0");
    assert!(file_name_of("/dev/..").is_none());
    assert!(file_name_of("/").is_none());
}

#[test]
fn serial_ports_are_consoles() {
    let chain = vec![device(&[("ID_MODEL", "Uart")]), device(&[])];
    let console = serial_console(&chain, Some("/dev/ttyUSB0"), false, "ports").unwrap();
    assert_eq!(console.name(), "ttyUSB0");
    assert_eq!(console.get("udev.ID_MODEL"), Some("Uart"));
    assert_eq!(console.get("boardswarm.provider"), Some("serial"));
    assert_eq!(console.get("boardswarm.provider.name"), Some("ports"));
    assert!(serial_console(&chain, Some("/dev/ttyUSB0"), true, "ports").is_none());
    assert!(serial_console(&chain, None, false, "ports").is_none());
    let alone = vec![device(&[])];
    assert!(serial_console(&alone, Some("/dev/tty0"), false, "ports").is_none());
    let mut port = SerialPort::new("/dev/ttyUSB0".to_string());
    assert_eq!(port.rate, 115200);
    port.configure(9600);
    assert_eq!((port.path.as_str(), port.rate), ("/dev/ttyUSB0", 9600));
}

#[test]
fn serial_ports_take_commands() {
    let chain = vec![device(&[("ID_MODEL", "Relay")])];
    let commands = vec![
        Command { name: "on".to_string(), message: "1".to_string() },
        Command { name: "off".to_string(), message: "0".to_string() },
    ];
    let wanted = pairs(&[("udev.ID_MODEL", "Relay")]);
    let node = Some("/dev/ttyACM0");
    let offered = serial_commands(&chain, node, &wanted, &commands, "relays").unwrap();
    assert_eq!(offered.iter().map(|p| p.name()).collect::<Vec<_>>(), ["on", "off"]);
    assert_eq!(offered[1].get("boardswarm.provider"), Some("serial-command"));
    let wanted = pairs(&[("udev.ID_MODEL", "Other")]);
    assert!(serial_commands(&chain, node, &wanted, &commands, "relays").is_none());
    assert!(serial_commands(&chain, None, &vec![], &commands, "relays").is_none());
}

#[test]
fn boot_roms_tell_of_their_hardware() {
    let chain = vec![device(&[("ID_VENDOR_ID", "0e8d"), ("ID_MODEL_ID", "0003")])];
    let mut properties = brom_volume(&chain, Some("/dev/ttyACM0"), "mtk").unwrap();
    assert_eq!(properties.name(), "ttyACM0");
    assert_eq!(properties.get("boardswarm.provider"), Some("mediatek-brom"));
    add_hardware(&mut properties, 0x0a9f, 51712);
    assert_eq!(properties.get("mediatek-brom.hw_code"), Some("0a9f"));
    assert_eq!(properties.get("mediatek-brom.hw_version"), Some("51712"));
    assert!(brom_volume(&chain, None, "mtk").is_none());
    assert!(brom_volume(&vec![device(&[])], Some("/dev/ttyACM0"), "mtk").is_none());
}

#[test]
fn debug_boards_have_four_switches() {
    let mut list = vec![
        ("ID_VENDOR_ID", "03eb"),
        ("ID_MODEL_ID", "2404"),
        ("ID_VENDOR", "Linaro"),
        ("ID_MODEL", "DebugBoard"),
        ("ID_USB_INTERFACE_NUM", "00"),
    ];
    let node = Some("/dev/ttyACM1");
    assert!(debug_board_actuators(&vec![device(&list)], node, "lt").is_none());
    list.push(("ID_USB_SERIAL_SHORT", "77"));
    let switches = debug_board_actuators(&vec![device(&list)], node, "lt").unwrap();
    assert_eq!(switches.len(), 4);
    assert_eq!(switches[1].0, QCOMLTActuatorType::UsbVbus);
    assert_eq!(switches[3].1.name(), "lt.77.reset-button");
    assert_eq!(switches[0].1.get("qcomlt_debug_board.serial"), Some("77"));
    assert_eq!(switches[0].1.get("boardswarm.provider"), Some("qcomlt-debug-board"));
    assert!(debug_board_actuators(&vec![device(&list)], None, "lt").is_none());
}

#[test]
fn boards_answer_what_they_are_told() {
    assert!(Told::Done.into_reply().is_ok());
    let reply = Told::Refused("x".to_string()).into_reply().unwrap_err();
    assert_eq!((reply.code, reply.message.as_str()), (Code::FailedPrecondition, "x"));
    assert_eq!(Told::Gone("x".to_string()).into_reply().unwrap_err().code, Code::Internal);
    assert!(Told::Done.into_commit().is_ok());
    let refused = Told::Refused("x".to_string()).into_commit();
    assert!(matches!(refused, Err(VolumeError::Failure(_))));
    let gone = Told::Gone("x".to_string()).into_commit();
    assert!(matches!(gone, Err(VolumeError::Internal(_))));
}

#[test]
fn boot_loaders_are_files() {
    let targets = eswin_targets();
    let (at, file) = eswin_open(&targets, "bootloader", "/mnt/pci-1").unwrap();
    assert_eq!((at, file.as_str()), (0, "/mnt/pci-1/bootloader_ddr5_secboot.bin"));
    assert!(eswin_open(&targets, "flash", "/mnt/pci-1").is_err());
}

#[test]
fn fastboot_devices_have_to_tell_their_limits() {
    let vars = || Some(pairs(&[("partition-size:boot", "0x1000"), ("other", "1")]));
    let known = vec!["boot".to_string(), "super".to_string()];
    let max = || Some("0x10000000".to_string());
    let version = || Some("0.4".to_string());
    let props = || Properties::new("fastboot 1/2");
    let setup = setup_volume(vars(), &known, max(), version(), props()).unwrap();
    assert_eq!(setup.max_download, 0x10000000);
    assert_eq!(setup.targets[0].size, Some(4096));
    assert_eq!(setup.targets[1].name, "super");
    assert_eq!(setup.properties.get("fastboot.version"), Some("0.4"));
    assert_eq!(setup_volume(None, &known, max(), version(), props()).unwrap().targets.len(), 2);
    let error = |max, version| setup_volume(None, &known, max, version, props()).unwrap_err();
    assert_eq!(error(None, None), "Missing max download size");
    assert_eq!(error(Some("12".to_string()), None), "Failed to parse max-download-size");
    assert_eq!(error(max(), None), "Missing version");
}

#[test]
fn bridges_keep_both_ways() {
    type Event = BridgeEvent<u8, i8>;
    let step = |event: Event| bridge(event, false);
    assert!(matches!(step(Event::Client(Some(7))), BridgeStep::ToItem(7)));
    assert!(matches!(step(Event::Item(Some(Ok(-7)))), BridgeStep::ToClient(-7)));
    assert!(matches!(step(Event::Client(None)), BridgeStep::Stop));
    assert!(matches!(bridge(Event::Client(None), true), BridgeStep::ItemOnly));
    assert!(matches!(step(Event::Item(None)), BridgeStep::Stop));
    let lost = || Status::new(Code::Unavailable, "gone");
    assert!(matches!(step(Event::Item(Some(Err(lost())))), BridgeStep::Stop));
    assert!(matches!(step(Event::Refused(lost())), BridgeStep::Stop));
    assert!(matches!(step(Event::NotSent), BridgeStep::Stop));
    assert_eq!(known_leds(&vec![2, 9, 0, 2], &vec![0, 1, 2]), [2, 0, 2]);
    let gone = target_gone(&VolumeIoNoMoreRequests);
    assert_eq!(gone.code, Code::Unavailable);
    assert_eq!(gone.message, "Target no longer available: No more requests can be send");
}

fn info(console: u64) -> DeviceInfo {
    DeviceInfo {
        consoles: vec![DevicePart { name: "main".to_string(), id: Some(console) }],
        volumes: vec![],
        media: vec![],
        keyboards: vec![],
        mice: vec![],
        modes: vec![],
        current_mode: None,
    }
}

#[test]
fn watchers_are_told_of_changes_alone() {
    let mut provider = BsProvider::new();
    let mut device = RemoteDevice::new(info(30), &provider);
    assert_eq!(device.on_event(DeviceEvent::ItemsChanged, &provider), DeviceStep::Wait);
    provider.add_item(ItemType::Console, 30, 3);
    assert_eq!(device.on_event(DeviceEvent::ItemsChanged, &provider), DeviceStep::Notify);
    assert_eq!(device.consoles()[0].id, Some(3));
    assert_eq!(device.on_event(DeviceEvent::Update(info(31)), &provider), DeviceStep::Notify);
    assert_eq!(device.consoles()[0].id, None);
    assert_eq!(device.on_event(DeviceEvent::Ended, &provider), DeviceStep::Stop);
}

#[test]
fn remote_devices_are_told_of_with_local_ids() {
    let mut provider = BsProvider::new();
    provider.add_item(ItemType::Console, 30, 3);
    let gone = RemoteDevice::watch(None, &provider).unwrap_err();
    assert_eq!((gone.code, gone.message.as_str()), (Code::Unavailable, "Device not available"));
    let refused = RemoteDevice::watch(Some(Err(Status::new(Code::NotFound, "x"))), &provider);
    assert_eq!(refused.unwrap_err().code, Code::NotFound);
    let mut told = info(30);
    told.modes.push(DeviceModeInfo {
        name: "on".to_string(),
        depends: Some("off".to_string()),
        available: true,
    });
    told.current_mode = Some("off".to_string());
    let device = RemoteDevice::watch(Some(Ok(told)), &provider).unwrap();
    let here = device.device_info();
    assert_eq!((here.consoles[0].name.as_str(), here.consoles[0].id), ("main", Some(3)));
    assert_eq!((here.modes[0].name.as_str(), here.modes[0].available), ("on", true));
    assert_eq!(here.modes[0].depends.as_deref(), Some("off"));
    assert_eq!(here.current_mode.as_deref(), Some("off"));
}

#[test]
fn videos_are_received() {
    let end = build_receive_pipeline(STUN_SERVER);
    assert_eq!(end.factory, "webrtcbin");
    assert_eq!(end.properties[0], ("name", "recvbin".to_string()));
    assert_eq!(end.properties[3], ("stun-server", "stun://stun.l.google.com:19302".to_string()));
    assert_eq!(build_receive_pipeline("").properties.len(), 3);
    assert!(on_pad(false).is_none());
    let parts = on_pad(true).unwrap();
    let names: Vec<_> = parts.decode.iter().chain(&parts.show).map(|e| e.factory.as_str()).collect();
    assert_eq!(
        names,
        ["queue", "rtph264depay", "h264parse", "decodebin", "videoconvert", "autovideosink"]
    );
    assert_eq!(parts.show[1].properties, [("sync", "false".to_string())]);
    assert_eq!(picture_size(None), (1920, 1080));
    assert_eq!(picture_size(Some((640, 480))), (640, 480));
    assert!(is_navigation("GstNavigationMessage"));
    assert!(!is_navigation("GstMessage"));
}

#[test]
fn lost_input_is_given_up() {
    let mut input = KvmInput::new(true, true);
    assert_eq!(input.buttons, 0);
    input.not_sent(HidEvent::Key(KeyboardEvent::Down(4)));
    assert_eq!((input.keyboard, input.mouse), (false, true));
}

fn factories(elements: &[Element]) -> Vec<&str> {
    elements.iter().map(|e| e.factory.as_str()).collect()
}

#[test]
fn cameras_are_found() {
    let chain = vec![device(&[("ID_V4L_CAPABILITIES", ":capture:")])];
    let (found, properties) = camera(&chain, Some("/dev/video0"), "cams").unwrap();
    assert_eq!(found.device_path(), "/dev/video0");
    assert_eq!(properties.name(), "video0");
    assert_eq!(properties.get("boardswarm.provider"), Some("v4l2"));
    assert!(camera(&chain, None, "cams").is_none());
    assert!(camera(&vec![device(&[])], Some("/dev/video0"), "cams").is_none());
}

#[test]
fn pictures_go_from_camera_to_viewer() {
    let raw = source_elements("/dev/video0", None);
    assert_eq!(factories(&raw), ["v4l2src", "videoconvert", "tee"]);
    assert_eq!(raw[0].properties, [("device", "/dev/video0".to_string())]);
    let jpeg = source_elements("/dev/video0", Some("vajpegdec"));
    assert_eq!(
        factories(&jpeg),
        ["v4l2src", "capsfilter", "jpegparse", "vajpegdec", "videoconvert", "tee"]
    );
    let (before, behind) = viewer_elements();
    assert_eq!(factories(&before), ["queue", "videoconvert"]);
    assert_eq!(factories(&behind), ["h264parse", "rtph264pay", "capsfilter", "webrtcbin"]);
    let settings =
        EncoderSettings { bitrate: true, tune: false, speed_preset: true, key_int_max: false };
    let encoder = live_encoder("x264enc", settings);
    assert_eq!(encoder.factory, "x264enc");
    assert_eq!(
        encoder.properties,
        [("bitrate", "2000".to_string()), ("speed-preset", "ultrafast".to_string())]
    );
}
