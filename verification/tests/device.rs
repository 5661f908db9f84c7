use boardswarm::device::{
    Console, Device, DeviceSetModeError, ItemChange, ModeAction, ModeEvent, ModeStep, Volume,
};
use boardswarm::ids::{ConsoleId, MediaId};
use boardswarm::registry::{Properties, NAME};
use boardswarm::remote::{
    commit_error, remote_properties, set_mode_error, BsProvider, DeviceInfo, DevicePart, ItemType,
    RemoteDevice,
};
use boardswarm::server::{
    check_start, device_info, has_serial, keyboard_event, listen_address, login_info, mouse_input,
    provider_kind, query_token, resolve_logins, set_mode_status, token_of, Authentication,
    Certificate, ConsoleError, KeyboardError, KeyboardEventType, MediaError, MouseError,
    ProviderKind, DEFAULT_PORT,
};
use boardswarm::status::Code;
use boardswarm::text::{
    contains, decimal_string, eq_ignore_case, is_before, parse_number, replace, starts_with,
    strip_prefix, trim, trim_end,
};
use boardswarm::volumes::VolumeError;
use std::time::Duration;

fn pairs(list: &[(&str, &str)]) -> Vec<(String, String)> {
    list.iter().map(|(k, v)| (k.to_string(), v.to_string())).collect()
}

fn step(name: &str, stabilisation: Option<Duration>) -> ModeStep<&'static str> {
    ModeStep { match_: pairs(&[(NAME, name)]), parameters: "p", stabilisation }
}

fn device() -> Device<u64, &'static str> {
    let console = Console {
        name: "main".to_string(),
        parameters: "115200",
        match_: pairs(&[(NAME, "uart")]),
    };
    let volume = Volume { name: "emmc".to_string(), match_: pairs(&[(NAME, "disk")]) };
    let pause = Some(Duration::from_millis(5));
    Device::new(
        "board".to_string(),
        vec![console],
        vec![volume],
        vec![
            ("off".to_string(), None, vec![step("relay", pause)]),
            ("on".to_string(), Some("off".to_string()), vec![step("relay", None)]),
        ],
    )
}

#[test]
fn devices_follow_their_items() {
    let mut d = device();
    let uart = Properties::new("uart");
    assert_eq!(d.console_change(&ItemChange::Added(4, &uart)), [0]);
    assert_eq!(d.volume_change(&ItemChange::Added(4, &uart)), [] as [usize; 0]);
    let info = device_info(&d);
    assert_eq!((info.consoles[0].name.as_str(), info.consoles[0].id), ("main", Some(4)));
    assert_eq!(info.volumes[0].id, None);
    assert_eq!(d.console_change(&ItemChange::Removed(5)), [] as [usize; 0]);
    assert_eq!(d.console_change(&ItemChange::Removed(4)), [0]);
    assert_eq!(device_info(&d).consoles[0].id, None);
}

#[test]
fn modes_need_their_actuators() {
    let mut d = device();
    assert!(device_info(&d).modes.iter().all(|m| !m.available));
    let relay = Properties::new("relay");
    assert!(d.actuator_change(&ItemChange::Added(9, &relay)));
    assert!(device_info(&d).modes.iter().all(|m| m.available));
    assert!(d.actuator_change(&ItemChange::Removed(9)));
    assert!(!device_info(&d).modes[0].available);
}

#[test]
fn modes_are_reached_step_by_step() {
    let mut d = device();
    assert!(matches!(d.start_mode("x"), Err(DeviceSetModeError::ModeNotFound)));
    assert!(matches!(d.start_mode("on"), Err(DeviceSetModeError::WrongCurrentMode)));
    let mut run = d.start_mode("off").unwrap();
    assert!(matches!(d.mode_step(&mut run, ModeEvent::Begin), ModeAction::UseActuator(0)));
    assert!(matches!(d.mode_step(&mut run, ModeEvent::ActuatorDone),
        ModeAction::Sleep(p) if p == Duration::from_millis(5)));
    assert_eq!(d.current_mode(), None);
    assert!(matches!(d.mode_step(&mut run, ModeEvent::Slept), ModeAction::Finished));
    assert_eq!(d.current_mode(), Some("off"));
    let mut run = d.start_mode("on").unwrap();
    assert_eq!(d.current_mode(), None);
    d.mode_step(&mut run, ModeEvent::Begin);
    assert!(matches!(d.mode_step(&mut run, ModeEvent::ActuatorFailed),
        ModeAction::Failed(DeviceSetModeError::ActuatorFailed)));
    assert_eq!(d.current_mode(), None);
}

#[test]
fn refusals_are_passed_on() {
    for (error, code, text) in [
        (DeviceSetModeError::ModeNotFound, Code::NotFound, "No mode by that name"),
        (
            DeviceSetModeError::WrongCurrentMode,
            Code::FailedPrecondition,
            "Not in the right mode to switch",
        ),
        (DeviceSetModeError::ActuatorFailed, Code::Aborted, "Actuator failed"),
    ] {
        let status = set_mode_status(error);
        assert_eq!((status.code, status.message.as_str()), (code, text));
        let again = set_mode_status(set_mode_error(status.code));
        assert_eq!(again.code, code);
    }
    assert!(matches!(commit_error(Code::Internal, "x".to_string()),
        VolumeError::Internal(_) | VolumeError::Failure(_)));
}

fn part(name: &str, id: Option<u64>) -> DevicePart {
    DevicePart { name: name.to_string(), id }
}

fn remote_info(console: Option<u64>) -> DeviceInfo {
    DeviceInfo {
        consoles: vec![part("main", console)],
        volumes: vec![],
        media: vec![],
        keyboards: vec![],
        mice: vec![],
        modes: vec![],
        current_mode: None,
    }
}

#[test]
fn remote_devices_have_local_parts() {
    let mut provider = BsProvider::new();
    provider.add_item(ItemType::Console, 30, 3);
    assert_eq!(provider.local_id(ItemType::Console, 30), Some(3));
    assert_eq!(provider.local_id(ItemType::Volume, 30), None);
    let mut device = RemoteDevice::new(remote_info(Some(30)), &provider);
    assert_eq!(device.consoles()[0].id, Some(3));
    assert!(!device.provider_sync(&provider));
    assert_eq!(provider.remove_item(ItemType::Console, 30), Some(3));
    assert!(device.provider_sync(&provider));
    assert_eq!(device.consoles()[0].id, None);
    provider.add_item(ItemType::Console, 31, 4);
    device.update(remote_info(Some(31)), &provider);
    assert_eq!(device.consoles()[0].id, Some(4));
    assert_eq!(provider.drop_items(ItemType::Console), [4]);
    assert!(provider.drop_items(ItemType::Console).is_empty());
    let props = remote_properties(&pairs(&[(NAME, "uart")]), "lab");
    assert_eq!((props.name(), props.instance()), ("uart", Some("lab")));
}

#[test]
fn input_is_checked() {
    assert!(keyboard_event(KeyboardEventType::KeyUp, 255).is_ok());
    let refused = keyboard_event(KeyboardEventType::KeyUp, 256).unwrap_err();
    assert_eq!(refused.message, "Key value out of range");
    let input = mouse_input(255, 32767, 0, -128, 127).unwrap();
    assert_eq!((input.buttons, input.x, input.wheel, input.hwheel), (255, 32767, -128, 127));
    for (b, x, y, w, h, text) in [
        (256, 0, 0, 0, 0, "Mouse buttons value out of range"),
        (0, 32768, 0, 0, 0, "Mouse x value out of range"),
        (0, 0, 32768, 0, 0, "Mouse y value out of range"),
        (0, 0, 0, 128, 0, "Mouse wheel value out of range"),
        (0, 0, 0, 0, -129, "Mouse hwheel value out of range"),
    ] {
        assert_eq!(mouse_input(b, x, y, w, h).unwrap_err().message, text);
    }
}

#[test]
fn errors_have_codes() {
    assert_eq!(ConsoleError::Closed.message(), "Console was closed");
    assert_eq!(ConsoleError::Unavailable("x".to_string()).message(), "Unavailable: x");
    assert_eq!(MediaError::NotSupported.into_status().code, Code::Unimplemented);
    assert_eq!(MediaError::Internal("x".to_string()).into_status().message, "x");
    assert_eq!(KeyboardError::NotSupported.into_status().code, Code::Unimplemented);
    assert_eq!(MouseError::Internal("x".to_string()).into_status().code, Code::Internal);
    let remote = MediaError::from_remote(Code::Unimplemented, "m".to_string(), "t".to_string());
    assert!(matches!(remote, MediaError::NotSupported));
}

fn oidc() -> Authentication {
    Authentication::Oidc {
        description: "Lab".to_string(),
        uri: "https://l".to_string(),
        client: "id".to_string(),
        audience: vec![],
    }
}

fn jwks(path: &str) -> Authentication {
    Authentication::Jwks { path: path.to_string(), identifier: None }
}

#[test]
fn logins_are_told() {
    let told = login_info(&vec![jwks("k"), oidc()]);
    assert_eq!(told.len(), 1);
    assert_eq!(told[0].description, "Lab");
    let resolved = resolve_logins(vec![jwks("keys.json"), oidc()], "/etc/bs/server.yaml").unwrap();
    assert!(matches!(&resolved[0], Authentication::Jwks { path, .. } if path == "/etc/bs/keys.json"));
    assert!(matches!(&resolved[1], Authentication::Oidc { .. }));
    assert_eq!(
        resolve_logins(vec![], "c").unwrap_err(),
        "No authentication methods found in configuration"
    );
    let certificate = Certificate { chain: "c".to_string(), key: "k".to_string() };
    assert_eq!(certificate.chain, "c");
}

#[test]
fn tokens_are_taken_from_addresses() {
    assert_eq!(query_token(Some("a=1&token=x%20y+z")), Some("x y z".to_string()));
    assert_eq!(query_token(Some("tokens=1")), None);
    assert_eq!(query_token(None), None);
    assert_eq!(token_of(&pairs(&[("token", "a"), ("token", "b")])), Some("a".to_string()));
}

#[test]
fn servers_are_started() {
    assert_eq!(DEFAULT_PORT, 6653);
    assert_eq!(listen_address(Some(1), Some(2), 3), 1);
    assert_eq!(listen_address(None, Some(2), 3), 2);
    assert_eq!(listen_address(None, None, 3), 3);
    assert_eq!(provider_kind("gpio"), Some(ProviderKind::Gpio));
    assert_eq!(provider_kind("nothing"), None);
    assert_eq!(
        check_start(ProviderKind::Gpio, true, false).unwrap_err(),
        "Missing gpio provider parameters"
    );
    assert_eq!(
        check_start(ProviderKind::MediatekBrom, false, true).unwrap_err(),
        "Mediatek brom provider requires the serial provider to be enabled"
    );
    assert!(check_start(ProviderKind::Dfu, false, false).is_ok());
    assert!(has_serial(&vec!["lab".to_string(), "serial".to_string()]));
    assert!(!has_serial(&vec!["serials".to_string()]));
    assert!(!has_serial(&vec![]));
    assert_eq!(ConsoleId(7).display(), "Console 7");
    assert!(MediaId(7).display().ends_with(" 7"));
}

#[test]
fn texts_are_handled() {
    assert_eq!(decimal_string(0), "0");
    assert_eq!(decimal_string(u64::MAX), "18446744073709551615");
    assert_eq!(parse_number("+12", 10, 100), Some(12));
    assert_eq!(parse_number("101", 10, 100), None);
    assert_eq!(parse_number("fF", 16, 1000), Some(255));
    assert_eq!(parse_number("", 10, 100), None);
    assert_eq!(parse_number("+", 10, 100), None);
    assert_eq!(parse_number("-1", 10, 100), None);
    assert_eq!(strip_prefix("abc", "ab"), Some("c".to_string()));
    assert_eq!(strip_prefix("abc", "b"), None);
    assert!(starts_with("abc", "ab") && !starts_with("a", "ab"));
    assert!(contains("abc", "bc") && contains("abc", "") && !contains("abc", "ca"));
    assert_eq!(trim("\u{3000} a b\t\n"), "a b");
    assert_eq!(trim_end(" a \n"), " a");
    assert_eq!(replace("aXbXX", "X", "yy"), "ayybyyyy");
    assert_eq!(replace("aaa", "aa", "b"), "ba");
    assert!(eq_ignore_case("AbÉ", "aBÉ") && !eq_ignore_case("é", "É"));
    for (a, b) in [("", "a"), ("a", "aa"), ("A", "a"), ("a", "é"), ("z", "😀")] {
        assert!(is_before(a, b) && !is_before(b, a));
        assert!(a < b);
    }
    assert!(!is_before("a", "a"));
}
