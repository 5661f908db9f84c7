use boardswarm::auth_cli::{
    check_instance, connect_for_login, connect_to, init_oidc, init_source, login_connection,
    run_auth_info, run_auth_init, run_auth_list, run_auth_modify, run_auth_remove,
    run_auth_set_default, token_of_line, AuthCommand, AuthSource, Connection, OidcInitError,
};
use boardswarm::cli::{
    boot_volume, choose_console, item_lookup, open_volume, parse_actuator, parse_console,
    parse_device, parse_item, parse_volume, print_device, print_item, print_target,
    property_lines, reset_modes, targets_heading, ItemArg, ItemTypes, VolumeChoice, VolumeInfo,
};
use boardswarm::client::{
    authorization, device_by_name, heard_event, login_info, Auth, Authenticator, Config, Device,
    DevicePartHandle, PartKind, Server, UploadProgress, UploadProgressState,
};
use boardswarm::directory::ItemEvent;
use boardswarm::oidc::{
    discovery_of, kept_expiry, LoginError, LoginRequest, NoAuth, OidcClient, OidcDiscovery,
    OidcStep, StdoutAuth, Token, TokenResponse,
};
use boardswarm::path::{extension_of, strip_extension, with_file_name};
use boardswarm::registry::Properties;
use boardswarm::remote::{DeviceInfo, DeviceModeInfo, DevicePart};
use boardswarm::server::{AuthMethod, ListedItem, LoginInfo};
use boardswarm::status::{Code, Status};
use boardswarm::ui::shown_console;
use boardswarm::urls::{parse_uri, parse_url};
use boardswarm::volume_io::VolumeTarget;

fn auth_of(value: &serde_yaml::Value) -> Auth {
    match value {
        serde_yaml::Value::Tagged(tagged) if tagged.tag == "Token" => {
            Auth::token(tagged.value.as_str().unwrap())
        }
        _ => panic!("no token"),
    }
}

fn from_slice(slice: &[u8], path: &str) -> Config {
    let value: serde_yaml::Value = serde_yaml::from_slice(slice).unwrap();
    let servers = value["servers"]
        .as_sequence()
        .unwrap()
        .iter()
        .map(|s| Server {
            name: s["name"].as_str().unwrap().to_string(),
            uri: s["uri"].as_str().unwrap().to_string(),
            auth: auth_of(&s["auth"]),
        })
        .collect();
    Config::from_servers(servers, path.to_string())
}

fn shown(config: &Config) -> String {
    format!("{config:?}")
}

#[test]
fn token_parsing() {
    let p = "config.yaml";
    let expected = Config::from_servers(
        vec![Server {
            name: String::from("server1"),
            uri: "https://example.com:6683".to_string(),
            auth: Auth::Token(String::from("tokentokentoken")),
        }],
        p.to_string(),
    );

    let t = b"
servers:
- name: server1
  uri: https://example.com:6683
  auth: !Token tokentokentoken
";
    let config = from_slice(t, p);
    assert_eq!(shown(&config), shown(&expected), "normal");

    let t = b"
servers:
- name: server1
  uri: https://example.com:6683
  auth: !Token
    tokentokentoken

";
    let config = from_slice(t, p);
    assert_eq!(shown(&config), shown(&expected), "trailing whitespace");

    let t = b"
servers:
- name: server1
  uri: https://example.com:6683
  auth: !Token |

    tokentokentoken
";
    let config = from_slice(t, p);
    assert_eq!(shown(&config), shown(&expected), "leading whitespace");
}

fn server(name: &str) -> Server {
    Server {
        name: name.to_string(),
        uri: format!("https://{name}"),
        auth: Auth::Token("t".to_string()),
    }
}

fn config(names: &[&str]) -> Config {
    let servers = names.iter().map(|n| server(n)).collect();
    Config::from_servers(servers, "/etc/boardswarm/config.yaml".to_string())
}

fn names(config: &Config) -> Vec<&str> {
    config.servers().iter().map(|s| s.name.as_str()).collect()
}

#[test]
fn servers_are_configured() {
    let mut c = Config::new("c".to_string());
    assert!(c.default_server().is_none());
    assert!(c.default_server_mut().is_none());
    assert_eq!(c.path(), "c");
    c.add_server(server("a"));
    c.add_server(server("b"));
    c.add_server(server("c"));
    assert_eq!(c.default_server().unwrap().name, "a");
    c.set_default("c");
    assert_eq!(names(&c), ["c", "b", "a"]);
    c.set_default("none");
    assert_eq!(names(&c), ["c", "b", "a"]);
    c.default_server_mut().unwrap().uri = "x".to_string();
    assert_eq!(c.find_server("c").unwrap().uri, "x");
    c.find_server_mut("b").unwrap().uri = "y".to_string();
    assert_eq!(c.find_server("b").unwrap().uri, "y");
    c.add_server(server("b"));
    c.remove_server("b");
    assert_eq!(names(&c), ["c", "a"]);
    assert!(c.find_server("b").is_none());
}

#[test]
fn requests_carry_trimmed_tokens() {
    assert_eq!(authorization(" abc\n"), "Bearer abc");
    assert!(matches!(Authenticator::new(&None), Authenticator::NoAuth));
    let token = Authenticator::new(&Some(Auth::Token("t".to_string())));
    assert_eq!(token.token(None), Some("t".to_string()));
    let oidc = Auth::Oidc {
        uri: "u".to_string(),
        client_id: "c".to_string(),
        token_cache: "f".to_string(),
    };
    let oidc = Authenticator::new(&Some(oidc));
    assert_eq!(oidc.token(Some("given".to_string())), Some("given".to_string()));
    assert_eq!(oidc.token(None), None);
    assert_eq!(Authenticator::NoAuth.token(Some("x".to_string())), None);
}

fn oidc_method(url: &str) -> AuthMethod {
    AuthMethod::Oidc { url: url.to_string(), client_id: "id".to_string() }
}

#[test]
fn unknown_logins_and_events_are_left_out() {
    let told = vec![
        ("a".to_string(), None),
        ("b".to_string(), Some(oidc_method("https://b"))),
    ];
    let known = login_info(told);
    assert_eq!(known.len(), 1);
    assert_eq!(known[0].description, "b");
    assert!(heard_event(Ok(None)).is_none());
    assert!(matches!(heard_event(Ok(Some(ItemEvent::Removed(3)))), Some(Ok(ItemEvent::Removed(3)))));
    let failed = heard_event(Err(Status::new(Code::Internal, "x")));
    assert!(matches!(failed, Some(Err(_))));
}

#[test]
fn uploads_are_followed() {
    let mut upload = UploadProgress::new();
    assert!(upload.finished().is_none());
    upload.on_progress(Some(Ok(12)));
    assert!(matches!(upload.state, UploadProgressState::Writing(12)));
    upload.on_progress(Some(Err(Status::new(Code::Aborted, "gone"))));
    assert_eq!(upload.finished().unwrap().unwrap_err().message, "gone");
    upload.on_progress(None);
    assert!(upload.finished().unwrap().is_err());
    let mut upload = UploadProgress::new();
    upload.on_progress(None);
    assert!(upload.finished().unwrap().is_ok());
}

fn part(name: &str, id: Option<u64>) -> DevicePart {
    DevicePart { name: name.to_string(), id }
}

fn info() -> DeviceInfo {
    DeviceInfo {
        consoles: vec![part("main", Some(3)), part("aux", None)],
        volumes: vec![part("emmc", Some(8)), part("sd", None)],
        media: vec![],
        keyboards: vec![],
        mice: vec![part("mouse", Some(1))],
        modes: vec![
            DeviceModeInfo { name: "off".to_string(), depends: None, available: true },
            DeviceModeInfo {
                name: "on".to_string(),
                depends: Some("off".to_string()),
                available: false,
            },
        ],
        current_mode: None,
    }
}

fn device() -> Device {
    Device::new(5, Some(Ok(info()))).unwrap()
}

#[test]
fn devices_are_followed() {
    let mut d = device();
    assert_eq!(d.id(), 5);
    let console = d.console().unwrap();
    assert_eq!(console.name, "main");
    assert_eq!(console.get_id(&d), Some(3));
    let aux = d.by_name(PartKind::Console, "aux").unwrap();
    assert!(!aux.available(&d));
    let refused = aux.id_for_request(&d).unwrap_err();
    assert_eq!(refused.code, Code::Unavailable);
    assert_eq!(refused.message, "Console currently not available");
    assert!(d.by_name(PartKind::Console, "none").is_none());
    assert_eq!(d.all(PartKind::Volume).len(), 2);
    let mut later = info();
    later.consoles[1].id = Some(9);
    assert!(d.on_update(Some(Ok(later))));
    assert_eq!(aux.id_for_request(&d).unwrap(), 9);
    assert!(!d.on_update(None));
    assert!(!d.on_update(Some(Err(Status::new(Code::Internal, "x")))));
    assert_eq!(Device::new(1, None).unwrap_err().code, Code::NotFound);
    for (kind, text) in [
        (PartKind::Volume, "Volume currently not available"),
        (PartKind::Media, "Media item currently not available"),
        (PartKind::Keyboard, "Keyboard item currently not available"),
        (PartKind::Mouse, "Mouse item currently not available"),
    ] {
        let handle = DevicePartHandle { kind, name: "none".to_string() };
        assert_eq!(handle.id_for_request(&d).unwrap_err().message, text);
    }
}

fn item(id: u64, name: &str, instance: Option<&str>) -> ListedItem {
    ListedItem { id, name: name.to_string(), instance: instance.map(str::to_string) }
}

#[test]
fn items_are_looked_up() {
    let items = vec![
        item(1, "a", None),
        item(2, "a", Some("lab")),
        item(3, "b", None),
        item(4, "b", None),
    ];
    assert_eq!(item_lookup("a", ItemTypes::Console, &items), Ok(1));
    assert_eq!(item_lookup("a@lab", ItemTypes::Console, &items), Ok(2));
    assert_eq!(
        item_lookup("b", ItemTypes::Volume, &items),
        Err("Duplicate volume name b".to_string())
    );
    assert_eq!(
        item_lookup("c@x@y", ItemTypes::Device, &items),
        Err("Device not found".to_string())
    );
    assert_eq!(device_by_name(&items, "b"), Some(3));
    assert_eq!(device_by_name(&items, "z"), None);
}

#[test]
fn arguments_are_ids_or_names() {
    assert!(matches!(parse_device("12"), ItemArg::Id(12)));
    assert!(matches!(parse_actuator("+7"), ItemArg::Id(7)));
    assert!(matches!(parse_console("uart"), ItemArg::Name(n) if n == "uart"));
    assert!(matches!(parse_volume("18446744073709551616"), ItemArg::Name(_)));
    assert_eq!(parse_item("volumes"), Ok(ItemTypes::Volume));
    assert_eq!(parse_item("actuators"), Ok(ItemTypes::Actuator));
    assert_eq!(parse_item("consoles"), Ok(ItemTypes::Console));
    assert_eq!(parse_item("devices"), Ok(ItemTypes::Device));
    assert_eq!(
        parse_item("mice").unwrap_err(),
        "Unknown item type; known types: [\"actuators\", \"consoles\", \"devices\", \"volumes\"]"
    );
    assert_eq!(reset_modes(), ["off", "on"]);
}

#[test]
fn things_are_shown() {
    assert_eq!(print_item(&item(7, "a", None)), "7 a");
    assert_eq!(print_item(&item(7, "a", Some("lab"))), "7 a on lab");
    let mut props = Properties::new("x");
    props.insert("b", "2");
    props.insert("a", "1");
    assert_eq!(
        property_lines(&props),
        ["\"a\" => \"1\"", "\"b\" => \"2\"", "\"boardswarm.name\" => \"x\""]
    );
    let target = VolumeTarget {
        name: "boot".to_string(),
        readable: true,
        writable: false,
        seekable: true,
        size: Some(4096),
        blocksize: None,
    };
    assert_eq!(
        print_target(&target),
        "* boot: size: 4096, blocksize: unknown, readable: true, writable: false, seekable: true"
    );
    let told = VolumeInfo { targets: vec![target], exhaustive: false };
    assert_eq!(targets_heading(&told), "Volume targets (non-exhaustive):");
    assert_eq!(
        print_device(&info(), &vec![Some(told), None]),
        [
            "Current mode: Unknown",
            "Modes:",
            "- off",
            "- on (depends on off) (Not available)",
            "Consoles:",
            "- main - id: 3",
            "- aux - not available",
            "Volumes:",
            "- emmc - id: 8, targets (non-exhaustive):",
            "  + boot (readable, seekable) size: 4096",
            " * sd - not available",
        ]
    );
}

#[test]
fn volumes_are_waited_for() {
    let d = device();
    assert!(matches!(open_volume(&d, "emmc", false), VolumeChoice::Use(v) if v.name == "emmc"));
    assert!(matches!(open_volume(&d, "sd", true), VolumeChoice::Wait(v) if v.name == "sd"));
    assert!(matches!(open_volume(&d, "sd", false), VolumeChoice::Fail("volume not available")));
    assert!(matches!(open_volume(&d, "x", true),
        VolumeChoice::Fail("Volume not available for device")));
    assert!(matches!(boot_volume(&d, None, true),
        VolumeChoice::Fail("More then one volume, please specify one")));
    assert!(matches!(boot_volume(&d, Some("x".to_string()), true),
        VolumeChoice::Fail("Volume not found")));
    let mut one = info();
    one.volumes.pop();
    let d = Device::new(5, Some(Ok(one))).unwrap();
    assert!(matches!(boot_volume(&d, None, false), VolumeChoice::Use(v) if v.name == "emmc"));
    let mut none = info();
    none.volumes.clear();
    none.consoles.clear();
    let d = Device::new(5, Some(Ok(none))).unwrap();
    assert!(matches!(boot_volume(&d, None, false),
        VolumeChoice::Fail("No volumes for this device")));
    assert_eq!(choose_console(&d, None).unwrap_err(), "Console not found");
    assert_eq!(shown_console(&d, None).unwrap_err(), "Console not available");
    assert_eq!(shown_console(&device(), None).unwrap().name, "main");
    assert_eq!(choose_console(&device(), None).unwrap().name, "main");
    assert_eq!(choose_console(&device(), Some("aux".to_string())).unwrap().name, "aux");
}

#[test]
fn servers_are_added_and_changed() {
    let mut c = config(&["a"]);
    assert_eq!(
        init_source(&c, "a", None, None).unwrap_err(),
        "Authentication for a already exists, use modify instead."
    );
    assert!(matches!(init_source(&c, "b", None, None), Ok(AuthSource::Oidc)));
    assert!(matches!(init_source(&c, "b", None, Some("f".to_string())), Ok(AuthSource::TokenFile(_))));
    assert!(matches!(init_source(&c, "b", Some("t".to_string()), Some("f".to_string())),
        Ok(AuthSource::Token(_))));
    run_auth_init(&mut c, "b", "https://b".to_string(), Auth::Token("t".to_string()));
    assert_eq!(run_auth_list(&c), ["a: https://a", "b: https://b"]);
    assert!(run_auth_set_default(&mut c, "b").is_ok());
    assert_eq!(run_auth_info(&c, &None), Some("b: https://b".to_string()));
    assert_eq!(run_auth_info(&c, &Some("a".to_string())), Some("a: https://a".to_string()));
    assert_eq!(run_auth_info(&c, &Some("x".to_string())), None);
    assert_eq!(
        run_auth_set_default(&mut c, "x").unwrap_err(),
        "Authentication for x does not exist"
    );
    let changed = run_auth_modify(&mut c, "a", Some("u".to_string()), Some("n".to_string()), None);
    assert!(changed.is_ok());
    assert_eq!(c.find_server("a").unwrap().uri, "u");
    assert!(matches!(&c.find_server("a").unwrap().auth, Auth::Token(t) if t == "n"));
    assert_eq!(
        run_auth_modify(&mut c, "x", None, None, None).unwrap_err(),
        "Authentication for {} does not exist"
    );
    assert!(run_auth_remove(&mut c, "a").is_ok());
    assert_eq!(
        run_auth_remove(&mut c, "a").unwrap_err(),
        "Authentication for a does not exist"
    );
    assert_eq!(
        check_instance(AuthCommand::Remove, false).unwrap_err(),
        "-i/--instance required for this command."
    );
    assert!(check_instance(AuthCommand::List, false).is_ok());
    assert!(check_instance(AuthCommand::Init, true).is_ok());
}

#[test]
fn token_files_have_to_be_long_enough() {
    assert!(matches!(token_of_line("0123456789abcde \n"), Ok(Auth::Token(t)) if t == "0123456789abcde"));
    assert_eq!(
        token_of_line("0123456789abcd\n").unwrap_err(),
        "Token file doesn't look like a JWT token (too small)"
    );
}

#[test]
fn tokens_are_kept_beside_the_configuration() {
    let info = |url: &str| {
        vec![LoginInfo { description: "d".to_string(), method: oidc_method(url) }]
    };
    match init_oidc(&info("https://Login.example"), "lab.one/x", "/etc/bs/config.yaml") {
        Ok(Auth::Oidc { uri, client_id, token_cache }) => {
            assert_eq!(uri, "https://login.example/");
            assert_eq!(client_id, "id");
            assert_eq!(token_cache, "/etc/bs/lab_one_x.token");
        }
        _ => panic!("an identity provider was expected"),
    }
    assert_eq!(
        init_oidc(&info("no url"), "lab", "c").unwrap_err(),
        OidcInitError::InvalidUrl
    );
    let none = init_oidc(&vec![], "lab", "c").unwrap_err();
    assert_eq!(none.message(), "No OIDC authentication to choose from");
}

#[test]
fn the_right_server_is_connected_to() {
    let some = Some(config(&["a", "b"]));
    let named = |n: &str| Some(n.to_string());
    assert_eq!(connect_to(&some, &None).unwrap().name, "a");
    assert_eq!(connect_to(&some, &named("b")).unwrap().name, "b");
    assert_eq!(connect_to(&some, &named("c")).unwrap_err(), "c not found in configuration");
    assert_eq!(connect_to(&Some(config(&[])), &None).unwrap_err(), "No default instance configured");
    assert_eq!(
        connect_to(&None, &named("c")).unwrap_err(),
        "Configuration file not found; Run configure first?"
    );
    assert!(matches!(connect_for_login(&some, &named("b")), Ok(Connection::Server(s)) if s.name == "b"));
    assert!(matches!(connect_for_login(&None, &named("http://x")), Ok(Connection::Uri(u)) if u == "http://x"));
    assert_eq!(
        connect_for_login(&None, &named("not a uri")).unwrap_err(),
        "not a uri not a uri and not in configuration"
    );
    assert_eq!(
        login_connection(&None, &None, true).unwrap_err(),
        "default Server should be configured or instance passed"
    );
}

#[test]
fn paths_are_taken_apart() {
    assert_eq!(strip_extension("a/b.tar.gz"), Some("a/b.tar".to_string()));
    assert_eq!(strip_extension("a.d/b"), None);
    assert_eq!(strip_extension(".hidden"), None);
    assert_eq!(strip_extension(".."), None);
    assert_eq!(extension_of("b.img.gz"), Some("gz".to_string()));
    assert_eq!(extension_of("b."), Some("".to_string()));
    assert_eq!(extension_of("b.x/"), Some("x".to_string()));
    assert_eq!(with_file_name("/a/b.c", "d"), "/a/d");
    assert_eq!(with_file_name("/b", "d"), "/d");
    assert_eq!(with_file_name("b", "d"), "d");
    assert_eq!(with_file_name("a//b", "d"), "a/d");
    assert_eq!(with_file_name("/", "d"), "/d");
    assert_eq!(with_file_name("a/b", "/d"), "/d");
    for path in ["a/b.c", "a/b.c/", "a/./b.c/.", ".", "./", "..", "a/..", "/", "", "a//b.c", "./x.y"] {
        let std_path = std::path::Path::new(path);
        let std_ext = std_path.extension().map(|e| e.to_str().unwrap().to_string());
        assert_eq!(extension_of(path), std_ext, "extension of {path}");
        let std_named = std_path.with_file_name("n.x");
        assert_eq!(with_file_name(path, "n.x"), std_named.to_str().unwrap(), "renaming {path}");
    }
}

#[test]
fn discovery_is_at_a_known_place() {
    assert_eq!(
        OidcDiscovery::uri("https://login.example/realms/x/").unwrap(),
        "https://login.example/realms/x/.well-known/openid-configuration"
    );
    assert_eq!(
        OidcDiscovery::uri("https://login.example").unwrap(),
        "https://login.example/.well-known/openid-configuration"
    );
    assert_eq!(
        OidcDiscovery::uri("https://login.example/realms/x?a=b").unwrap(),
        "https://login.example/realms/x/.well-known/openid-configuration?a=b"
    );
    assert_eq!(
        OidcDiscovery::uri_of_short("https://login.example/x//").unwrap().unwrap(),
        "https://login.example/x//.well-known/openid-configuration"
    );
    assert_eq!(OidcDiscovery::uri("mailto:x@example").unwrap_err(), "Invalid url");
    assert_eq!(OidcDiscovery::uri_of_short("no url").unwrap(), Err("Invalid url"));
    assert_eq!(parse_url("HTTPS://Login.example").unwrap(), "https://login.example/");
    assert!(parse_url("login").is_none());
    assert_eq!(parse_uri("http://farm.example:6653").unwrap(), "http://farm.example:6653/");
    assert!(parse_uri("http://").is_none());
    assert_eq!(discovery_of(Some("u".to_string())), Ok("u".to_string()));
    assert_eq!(discovery_of(None), Err("Invalid url"));
}

fn response(access: &str, refresh: Option<&str>, expires_in: Option<u64>) -> TokenResponse {
    TokenResponse {
        access: access.to_string(),
        refresh: refresh.map(str::to_string),
        expires_in,
    }
}

const SECOND: u128 = 1_000_000_000;

#[test]
fn tokens_are_used_until_they_expire() {
    let mut client = OidcClient::new("u".to_string(), "c".to_string(), Some("f".to_string()));
    assert!(matches!(client.access_token(0), OidcStep::ReadCache(f) if f == "f"));
    assert!(matches!(client.on_cache(None, 0), OidcStep::Login));
    let first = response("one", Some("again"), Some(60));
    assert!(matches!(client.on_login(Ok(first), SECOND), OidcStep::Use(t) if t == "one"));
    assert!(matches!(client.access_token(61 * SECOND), OidcStep::Use(t) if t == "one"));
    assert!(matches!(client.access_token(61 * SECOND + 1), OidcStep::Refresh(r) if r == "again"));
    let second = response("two", None, None);
    assert!(matches!(client.on_refreshed(Some(second), 62 * SECOND), OidcStep::Use(t) if t == "two"));
    let token = client.token.as_ref().unwrap();
    assert_eq!(token.refresh.as_deref(), Some("again"));
    assert!(token.expires.is_none());
    assert!(matches!(client.access_token(u128::MAX), OidcStep::Use(t) if t == "two"));
    assert!(matches!(client.on_refreshed(None, 0), OidcStep::Login));
    let failed = client.on_login(Err(LoginError::Aborted), 0);
    assert!(matches!(failed, OidcStep::Fail(e) if e.message() == "Login aborted"));
    assert_eq!(LoginError::Response("x".to_string()).message(), "Response error: x");
}

#[test]
fn tokens_of_a_file_are_checked() {
    let mut client = OidcClient::new("u".to_string(), "c".to_string(), None);
    assert!(matches!(client.access_token(0), OidcStep::Login));
    let token = Token { refresh: None, expires: Some(5), access: "old".to_string() };
    assert!(matches!(client.on_cache(Some(token), 6), OidcStep::Login));
    assert_eq!(kept_expiry(61 * SECOND + 5), 61);
}

#[test]
fn users_are_told_how_to_log_in() {
    let request = LoginRequest {
        verification_uri: "https://l".to_string(),
        user_code: "AB".to_string(),
        verification_uri_complete: Some("https://l?AB".to_string()),
    };
    assert_eq!(
        StdoutAuth().lines(&request),
        [
            "New oidc login required",
            "Open this URL in your browser https://l and enter the code AB",
            "or go directly to https://l?AB",
        ]
    );
    assert!(matches!(NoAuth().login(request), Err(LoginError::Aborted)));
}
