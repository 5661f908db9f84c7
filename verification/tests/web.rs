use boardswarm::keyboard::KeyboardEvent;
use boardswarm::kvm::{
    handle_nav_event, key_name_to_hid, parse_navigation_structure, run_kvm, set_mouse_button,
    shows_pad, BusMessage, BusStep, HidEvent, KvmAction, KvmEvent, KvmInput, NavEvent,
    NavStructure,
};
use boardswarm::media::{
    is_camera, selected, trial_order, viewer_parts, Departure, ElementFactory, V4l2Device,
};
use boardswarm::remote::{DeviceInfo, DeviceModeInfo, DevicePart};
use boardswarm::server::{AuthMethod, KeyboardEventType, ListedItem, LoginInfo, MouseInput};
use boardswarm::sessions::{
    console_first, console_next, default_outcome, keyboard_first, keyboard_next, media_first, media_next,
    missing_for, missing_item, mouse_first, mouse_next, offerer_takes, viewer_takes, volume_first,
    volume_next, ws_first, ws_missing_console, ws_next, ConsoleInput, FirstStep, ItemRequest,
    KeyboardMessage, MediaMessage, MediaSignalMsg, MouseMessage, NextReply, StreamKind,
    ViewerStep, VolumeIoReplies, VolumeMessage, VolumeOperation, VolumeSelection, VolumeStep,
    WsFrame, WsStep,
};
use boardswarm::status::{Code, Status};
use boardswarm::udev::Device;
use boardswarm::web::{
    authorize_url, bearer, build_buttons, check_auth, current_mode_text, device_row, element_id,
    first_available, generate_random_string, given_token, is_callback, key_message, login_label,
    login_url, media_offers, mode_buttons, mouse_message, origin_or_default, parse_token_response,
    part_label, redirect_uri, token_request, viewer_setup, wheel_steps, ws_url, AuthEvent,
    AuthNext, AuthState, DeviceList, MediaOffer, MediaViewer, Page, PageEvent, ViewerEvent,
    ViewerSetup,
};

#[test]
fn key_names_are_known() {
    for (name, usage) in [
        ("a", 0x04), ("Z", 0x1d), ("1", 0x1e), ("9", 0x26), ("0", 0x27), (" ", 0x2c),
        ("Return", 0x28), ("KP_Enter", 0x28), ("colon", 0x33), ("F12", 0x45), ("KP_0", 0x62),
        ("KP_1", 0x59), ("Page_Up", 0x4b), ("Control_L", 0xe0), ("Meta_R", 0xe7), ("Break", 0x48),
    ] {
        assert_eq!(key_name_to_hid(name), Some(usage), "usage of {name}");
    }
    for name in ["", "é", "$", "F13", "return"] {
        assert_eq!(key_name_to_hid(name), None, "usage of {name}");
    }
}

fn nav(event: &str) -> NavStructure {
    NavStructure {
        event: Some(event.to_string()),
        key: Some("a".to_string()),
        button: Some(1),
        position: Some((10, 20)),
        delta_x: 3,
        delta_y: 4,
    }
}

#[test]
fn navigation_is_understood() {
    assert!(matches!(parse_navigation_structure(nav("key-press")),
        Some(NavEvent::KeyPress(k)) if k == "a"));
    assert!(matches!(parse_navigation_structure(nav("key-release")), Some(NavEvent::KeyRelease(_))));
    assert!(matches!(parse_navigation_structure(nav("mouse-move")),
        Some(NavEvent::MouseMove { x: 10, y: 20 })));
    assert!(matches!(parse_navigation_structure(nav("mouse-scroll")),
        Some(NavEvent::MouseScroll { x: 10, y: 20, delta_x: 3, delta_y: 4 })));
    assert!(parse_navigation_structure(nav("touch")).is_none());
    for (button, bit) in [(1, 0), (3, 1), (2, 2), (8, 3), (9, 4), (257, 0)] {
        let mut s = nav("mouse-button-press");
        s.button = Some(button);
        match parse_navigation_structure(s) {
            Some(NavEvent::MouseButtonPress { button, .. }) => assert_eq!(button, bit),
            _ => panic!("a button was expected"),
        }
        let mut s = nav("mouse-button-release");
        s.button = Some(button);
        assert!(matches!(parse_navigation_structure(s), Some(NavEvent::MouseButtonRelease { .. })));
    }
    for (button, across, down) in [(4, 0, 1), (5, 0, -1), (6, 1, 0), (7, -1, 0)] {
        let mut s = nav("mouse-button-press");
        s.button = Some(button);
        match parse_navigation_structure(s) {
            Some(NavEvent::MouseScroll { delta_x, delta_y, .. }) => {
                assert_eq!((delta_x, delta_y), (across, down))
            }
            _ => panic!("scrolling was expected"),
        }
        let mut s = nav("mouse-button-release");
        s.button = Some(button);
        assert!(parse_navigation_structure(s).is_none());
    }
    let mut s = nav("mouse-move");
    s.position = None;
    assert!(parse_navigation_structure(s).is_none());
}

#[test]
fn navigation_reaches_the_device() {
    let mut buttons = 0;
    let press = NavEvent::MouseButtonPress { button: 1, x: 1, y: 2 };
    let report = |buttons| MouseInput { buttons, x: 1, y: 2, wheel: 0, hwheel: 0 };
    assert_eq!(handle_nav_event(press, &mut buttons), Some(HidEvent::Mouse(report(2))));
    let moved = NavEvent::MouseMove { x: 1, y: 2 };
    assert_eq!(handle_nav_event(moved, &mut buttons), Some(HidEvent::Mouse(report(2))));
    let scroll = NavEvent::MouseScroll { x: 1, y: 2, delta_x: 5, delta_y: 6 };
    let scrolled = MouseInput { buttons: 2, x: 1, y: 2, wheel: 6, hwheel: 5 };
    assert_eq!(handle_nav_event(scroll, &mut buttons), Some(HidEvent::Mouse(scrolled)));
    let release = NavEvent::MouseButtonRelease { button: 1, x: 1, y: 2 };
    assert_eq!(handle_nav_event(release, &mut buttons), Some(HidEvent::Mouse(report(0))));
    let key = NavEvent::KeyPress("Tab".to_string());
    assert_eq!(handle_nav_event(key, &mut buttons), Some(HidEvent::Key(KeyboardEvent::Down(0x2b))));
    let key = NavEvent::KeyRelease("nothing".to_string());
    assert_eq!(handle_nav_event(key, &mut buttons), None);
    let mut buttons = 0b101;
    set_mouse_button(&mut buttons, 2, false);
    assert_eq!(buttons, 1);
}

#[test]
fn input_needs_something_to_go_to() {
    let mut input = KvmInput { buttons: 0, keyboard: false, mouse: true };
    assert!(matches!(input.on_message(BusMessage::Navigation(nav("key-press"))), BusStep::Ignore));
    assert!(matches!(input.on_message(BusMessage::Navigation(nav("mouse-button-press"))),
        BusStep::Send(HidEvent::Mouse(m)) if m.buttons == 1));
    assert_eq!(input.buttons, 1);
    assert!(matches!(input.on_message(BusMessage::Other), BusStep::Ignore));
    assert!(matches!(input.on_message(BusMessage::Ended), BusStep::Stop));
}

#[test]
fn signals_are_exchanged() {
    let offer = || MediaSignalMsg::Offer("o".to_string());
    let ice = || MediaSignalMsg::Ice("c".to_string(), 2);
    let answer = || MediaSignalMsg::Answer("a".to_string());
    assert!(matches!(viewer_takes(offer()), ViewerStep::MakeAnswer(s) if s == "o"));
    assert!(matches!(viewer_takes(ice()), ViewerStep::AddCandidate(s, 2) if s == "c"));
    assert!(matches!(viewer_takes(answer()), ViewerStep::Ignore));
    assert!(offerer_takes(offer()).is_none());
    assert!(offerer_takes(answer()).is_some());
    assert!(offerer_takes(ice()).is_some());
    assert!(matches!(run_kvm(KvmEvent::AnswerMade("a".to_string())), KvmAction::SendAnswer(_)));
    assert!(matches!(run_kvm(KvmEvent::CandidateFound("c".to_string(), 1)), KvmAction::SendIce(_, 1)));
    assert!(matches!(run_kvm(KvmEvent::Signal(offer())), KvmAction::View(ViewerStep::MakeAnswer(_))));
    let failed = KvmEvent::Failed(Status::new(Code::Internal, "x"));
    assert!(matches!(run_kvm(failed), KvmAction::Fail(s) if s.message == "x"));
    assert!(matches!(run_kvm(KvmEvent::Ended), KvmAction::Stop));
    let raw = vec!["image/jpeg".to_string(), "video/x-raw(memory)".to_string()];
    assert!(shows_pad(&raw, false));
    assert!(!shows_pad(&raw, true));
    assert!(!shows_pad(&vec!["audio/x-raw".to_string()], false));
}

fn factory(name: &str, klass: &str, rank: i32) -> ElementFactory {
    ElementFactory { name: name.to_string(), klass: klass.to_string(), fits: true, rank }
}

#[test]
fn hardware_is_tried_first() {
    let factories = vec![
        factory("x264enc", "Codec/Encoder/Video", 256),
        factory("openh264enc", "Codec/Encoder/Video", 300),
        factory("jpegenc", "Codec/Encoder/Image", 999),
        factory("vaapi", "Codec/Encoder/Video/Hardware", 10),
        factory("same", "Codec/Encoder/Video", 300),
    ];
    let order = trial_order(&factories, &vec!["Encoder", "Video"]);
    assert_eq!(order, [3, 1, 4, 0]);
    assert_eq!(selected(&factories, Some(1), "x264enc"), "openh264enc");
    assert_eq!(selected(&factories, None, "x264enc"), "x264enc");
}

#[test]
fn cameras_run_while_someone_watches() {
    let mut camera = V4l2Device::new("/dev/video0".to_string());
    assert_eq!(camera.device_path(), "/dev/video0");
    let first = camera.add_viewer();
    assert!(first.start && first.id == 0);
    let second = camera.add_viewer();
    assert!(!second.start && second.id == 1);
    assert_eq!(camera.remove_viewer(0), Departure::Remove);
    assert_eq!(camera.remove_viewer(0), Departure::Unknown);
    assert_eq!(camera.remove_viewer(1), Departure::RemoveAndStop);
    assert_eq!(camera.remove_viewer(1), Departure::Unknown);
    let again = camera.add_viewer();
    assert!(again.start && again.id == 0);
    assert_eq!(viewer_parts(7)[6], "webrtc-7");
    assert_eq!(viewer_parts(7).len(), 7);
}

#[test]
fn only_capture_devices_are_cameras() {
    let with = |v: &str| Device {
        subsystem: None,
        devtype: None,
        properties: vec![("ID_V4L_CAPABILITIES".to_string(), v.to_string())],
    };
    assert!(is_camera(&with(":capture:")));
    assert!(!is_camera(&with(":")));
    assert!(!is_camera(&Device { subsystem: None, devtype: None, properties: vec![] }));
}

#[test]
fn streams_select_their_item_first() {
    assert!(matches!(console_first(None), FirstStep::Finish));
    assert!(matches!(console_first(Some(ConsoleInput::Console(4))), FirstStep::Select(4)));
    assert!(matches!(console_first(Some(ConsoleInput::Empty)),
        FirstStep::Refuse(s) if s.message == "Target should be set first"));
    assert_eq!(console_next(ConsoleInput::Data(vec![1])).unwrap(), [1]);
    let changed = console_next(ConsoleInput::Console(1)).unwrap_err();
    assert_eq!((changed.code, changed.message.as_str()),
        (Code::InvalidArgument, "Target cannot be changed"));
    assert!(matches!(media_first(None), FirstStep::Refuse(s) if s.message == "No media id selection"));
    assert!(matches!(media_first(Some(MediaMessage::Empty)),
        FirstStep::Refuse(s) if s.message == "First message should be an item"));
    assert!(matches!(media_first(Some(MediaMessage::Item(2))), FirstStep::Select(2)));
    assert!(media_next(MediaMessage::Item(2)).is_none());
    assert!(media_next(MediaMessage::Signal(None)).is_none());
    let signal = MediaMessage::Signal(Some(MediaSignalMsg::Answer("a".to_string())));
    assert!(media_next(signal).is_some());
    assert!(matches!(keyboard_first(None),
        FirstStep::Refuse(s) if s.message == "No keyboard id selection"));
    assert!(matches!(keyboard_first(Some(KeyboardMessage::Empty)),
        FirstStep::Refuse(s) if s.message == "First message should be a keyboard item id"));
    assert!(matches!(keyboard_first(Some(KeyboardMessage::Item(2))), FirstStep::Select(2)));
    let down = KeyboardMessage::Event(KeyboardEventType::KeyDown, 4);
    assert_eq!(keyboard_next(down), Some(KeyboardEvent::Down(4)));
    let high = KeyboardMessage::Event(KeyboardEventType::KeyUp, 256);
    assert_eq!(keyboard_next(high), None);
    assert!(matches!(mouse_first(None),
        FirstStep::Refuse(s) if s.message == "No mouse id selection"));
    assert!(matches!(mouse_first(Some(MouseMessage::Empty)),
        FirstStep::Refuse(s) if s.message == "First message should be a mouse item id"));
    assert!(matches!(mouse_first(Some(MouseMessage::Item(2))), FirstStep::Select(2)));
    let input = MouseInput { buttons: 1, x: 2, y: 3, wheel: -4, hwheel: 5 };
    assert_eq!(mouse_next(MouseMessage::Input(1, 2, 3, -4, 5)), Some(input));
    assert_eq!(mouse_next(MouseMessage::Input(1, 40000, 3, -4, 5)), None);
    assert_eq!(mouse_next(MouseMessage::Item(1)), None);
}

#[test]
fn missing_items_are_told() {
    for (kind, text) in [
        (StreamKind::Console, "No console by that name"),
        (StreamKind::Volume, "No volume by that name"),
        (StreamKind::Media, "Media not found"),
        (StreamKind::Keyboard, "Keyboard not found"),
        (StreamKind::Mouse, "Mouse not found"),
    ] {
        assert_eq!(missing_item(kind).message, text);
        assert_eq!(missing_item(kind).code, Code::NotFound);
    }
    for (request, code, text) in [
        (ItemRequest::ConsoleConfigure, Code::InvalidArgument, "Can't find console"),
        (ItemRequest::ConsoleOutput, Code::InvalidArgument, "Can't find output console"),
        (ItemRequest::DeviceInfo, Code::NotFound, "No such device"),
        (ItemRequest::DeviceMode, Code::NotFound, "No device by that id"),
        (ItemRequest::ActuatorMode, Code::InvalidArgument, "Can't find actuator"),
        (ItemRequest::VolumeErase, Code::NotFound, "Volume not found"),
    ] {
        let status = missing_for(request);
        assert_eq!((status.code, status.message.as_str()), (code, text));
    }
}

#[test]
fn volumes_are_operated_in_order() {
    assert!(matches!(volume_first(None),
        FirstStep::Refuse(s) if s.message == "No uploader/target selection"));
    assert!(matches!(volume_first(Some(VolumeMessage::Flush)),
        FirstStep::Refuse(s) if s.message == "Target should be set first"));
    let selection = || VolumeSelection { volume: 1, target: "t".to_string(), length: None };
    assert!(matches!(volume_first(Some(VolumeMessage::Target(selection()))),
        FirstStep::Select(s) if s.volume == 1));
    assert!(matches!(volume_next(Ok(VolumeMessage::Read(1, 2))),
        VolumeStep::Perform(VolumeOperation::Read(1, 2))));
    assert!(matches!(volume_next(Ok(VolumeMessage::Write(vec![1], 2))),
        VolumeStep::Perform(VolumeOperation::Write(_, 2))));
    assert!(matches!(volume_next(Ok(VolumeMessage::Shutdown)),
        VolumeStep::Perform(VolumeOperation::Shutdown)));
    assert!(matches!(volume_next(Ok(VolumeMessage::Target(selection()))),
        VolumeStep::Fatal(s) if s.message == "Target request sent out of order"));
    assert!(matches!(volume_next(Ok(VolumeMessage::Empty)), VolumeStep::Stop));
    let refused = default_outcome(&VolumeOperation::Read(1, 2)).unwrap_err();
    assert_eq!((refused.code, refused.message.as_str()),
        (Code::Unimplemented, "Target is not readable"));
    let refused = default_outcome(&VolumeOperation::Write(vec![], 2)).unwrap_err();
    assert_eq!(refused.message, "Target is not writable");
    assert!(default_outcome(&VolumeOperation::Flush).is_ok());
    assert!(default_outcome(&VolumeOperation::Shutdown).is_ok());
    assert!(matches!(volume_next(Err(Status::new(Code::Internal, "x"))), VolumeStep::Stop));
}

#[test]
fn replies_keep_the_order_of_requests() {
    let mut replies = VolumeIoReplies::new();
    replies.enqueue_reply("target");
    let a = replies.enqueue();
    let b = replies.enqueue();
    assert!(matches!(replies.next_reply(), NextReply::Send("target")));
    replies.complete(b, "b");
    assert!(matches!(replies.next_reply(), NextReply::Wait));
    replies.complete(a, "a");
    assert!(matches!(replies.next_reply(), NextReply::Send("a")));
    assert!(matches!(replies.next_reply(), NextReply::Send("b")));
    assert!(matches!(replies.next_reply(), NextReply::Wait));
    let c = replies.enqueue();
    replies.enqueue_reply("later");
    replies.give_up(c);
    assert!(matches!(replies.next_reply(), NextReply::End));
    assert!(matches!(replies.next_reply(), NextReply::End));
}

#[test]
fn websockets_carry_consoles() {
    assert!(matches!(ws_first(None), WsStep::Finish));
    assert!(matches!(ws_first(Some(WsFrame::Close)), WsStep::Finish));
    assert!(matches!(ws_first(Some(WsFrame::Binary(ConsoleInput::Console(3)))), WsStep::Open(3)));
    assert!(matches!(ws_first(Some(WsFrame::Binary(ConsoleInput::Empty))),
        WsStep::Fail("first websocket frame must select a console target")));
    assert!(matches!(ws_first(Some(WsFrame::Undecodable)),
        WsStep::Fail("failed to decode initial ConsoleInputRequest")));
    assert!(matches!(ws_first(Some(WsFrame::PingPong)),
        WsStep::Fail("first websocket frame must be a binary ConsoleInputRequest")));
    assert!(matches!(ws_next(WsFrame::Binary(ConsoleInput::Data(vec![1]))), WsStep::Send(_)));
    assert!(matches!(ws_next(WsFrame::Binary(ConsoleInput::Console(3))),
        WsStep::Fail("target cannot be changed after session start")));
    assert!(matches!(ws_next(WsFrame::Binary(ConsoleInput::Empty)),
        WsStep::Fail("console input frame was empty")));
    assert!(matches!(ws_next(WsFrame::Undecodable),
        WsStep::Fail("failed to decode ConsoleInputRequest")));
    assert!(matches!(ws_next(WsFrame::Text),
        WsStep::Fail("console websocket expects binary protobuf frames")));
    assert!(matches!(ws_next(WsFrame::PingPong), WsStep::Ignore));
    assert!(matches!(ws_next(WsFrame::Close), WsStep::Finish));
    assert_eq!(ws_missing_console(12), "can't find console 12");
}

#[test]
fn users_are_let_in() {
    assert!(matches!(check_auth(AuthEvent::Stored(Some("t".to_string()))),
        AuthNext::Known(AuthState::Authenticated { token }) if token == "t"));
    assert!(matches!(check_auth(AuthEvent::Stored(None)), AuthNext::HandleCallback));
    assert!(matches!(check_auth(AuthEvent::Callback(Some("t".to_string()))),
        AuthNext::StoreToken { .. }));
    assert!(matches!(check_auth(AuthEvent::Callback(None)), AuthNext::FetchLoginInfo));
    assert!(matches!(check_auth(AuthEvent::LoginInfo(None)),
        AuthNext::Known(AuthState::Unauthenticated { login_info }) if login_info.is_empty()));
    assert_eq!(redirect_uri("http://h"), "http://h/");
    assert_eq!(
        authorize_url("https://l", "id", "http://h", "v"),
        "https://l/authorize?response_type=code&client_id=id&redirect_uri=http://h/\
         &scope=openid&code_challenge=v&code_challenge_method=plain&state=boardswarm"
    );
    let method = AuthMethod::Oidc { url: "https://l".to_string(), client_id: "id".to_string() };
    let info = LoginInfo { description: "Lab".to_string(), method };
    assert_eq!(login_label(&info), "Login with Lab");
    assert_eq!(login_url(&info, "http://h", "v"), authorize_url("https://l", "id", "http://h", "v"));
    assert!(is_callback("?state=x&code=1"));
    assert!(!is_callback("?state=x"));
    let s = |t: &str| Some(t.to_string());
    let request = token_request(s("c"), s("v"), s("id"), s("https://l"), "http://h").unwrap();
    assert_eq!(request.url, "https://l/token");
    assert_eq!(
        request.body,
        "grant_type=authorization_code&code=c&redirect_uri=http://h/&client_id=id&code_verifier=v"
    );
    assert!(token_request(s("c"), None, s("id"), s("https://l"), "http://h").is_none());
    assert_eq!(generate_random_string(&vec![0, 9, 10, 35]), "09az");
    assert_eq!(given_token("  t \n"), Some("t".to_string()));
    assert_eq!(given_token(" \n"), None);
    assert_eq!(bearer("t"), "Bearer t");
}

#[test]
fn tokens_are_found_in_answers() {
    let found = parse_token_response("{\"access_token\":\"abc\",\"x\":1}");
    assert_eq!(found, Some("abc".to_string()));
    let found = parse_token_response("{\"x\": 1, \"access_token\" : \"\"}");
    assert_eq!(found, Some("".to_string()));
    assert_eq!(parse_token_response("{\"error\":\"no\"}"), None);
    assert_eq!(parse_token_response("{\"access_token\":1}"), None);
    assert_eq!(parse_token_response("{\"access_token\":\"abc"), None);
}

#[test]
fn sockets_have_addresses() {
    assert_eq!(ws_url("https://h:1", "/api/ws/mouse", "t"), "wss://h:1/api/ws/mouse?token=t");
    assert_eq!(ws_url("http://h", "/p", "t"), "ws://h/p?token=t");
    assert_eq!(ws_url("file:", "/p", "t"), "file:/p?token=t");
    assert_eq!(origin_or_default(None), "http://localhost:6683");
    assert_eq!(origin_or_default(Some("http://h".to_string())), "http://h");
    assert_eq!(element_id("kvm-video-", 3), "kvm-video-3");
}

#[test]
fn pages_lead_to_pages() {
    assert!(Page::after(PageEvent::Back).marks_devices());
    let detail = Page::after(PageEvent::DeviceSelected(1, "board".to_string()));
    assert!(!detail.marks_devices());
    assert_eq!(detail.heading(), "board");
    assert_eq!(Page::Devices.heading(), "Devices");
    let console = Page::after(PageEvent::ConsoleOpened(1, "main".to_string()));
    assert_eq!(console.heading(), "Console: main");
    let media = Page::after(PageEvent::MediaOpened(1, "cam".to_string()));
    assert_eq!(media.heading(), "Media: cam");
    let kvm = Page::after(PageEvent::KvmOpened(1, Some(2), None, "cam".to_string()));
    assert_eq!(kvm.heading(), "KVM: cam");
}

#[test]
fn devices_are_listed() {
    let list = DeviceList::answered(Ok(vec![ListedItem {
        id: 4,
        name: "board".to_string(),
        instance: None,
    }]));
    assert!(list.shows_table());
    match list {
        DeviceList::Loaded(devices) => {
            let row = device_row(&devices[0]);
            assert_eq!((row.id.as_str(), row.name.as_str(), row.instance.as_str()), ("4", "board", "-"));
        }
        _ => panic!("devices were expected"),
    }
    let failed = DeviceList::answered(Err("down".to_string()));
    assert!(!failed.shows_table());
    assert!(matches!(failed, DeviceList::Failed(t) if t == "Failed to list devices: down"));
    assert!(!DeviceList::Loading.shows_table());
}

fn part(name: &str, id: Option<u64>) -> DevicePart {
    DevicePart { name: name.to_string(), id }
}

#[test]
fn devices_are_shown_in_detail() {
    let mode = |name: &str, available| DeviceModeInfo {
        name: name.to_string(),
        depends: None,
        available,
    };
    let mut info = DeviceInfo {
        consoles: vec![],
        volumes: vec![],
        media: vec![part("cam", Some(7)), part("old", None)],
        keyboards: vec![part("k", None), part("l", Some(2))],
        mice: vec![part("m", None)],
        modes: vec![mode("on", true), mode("off", true), mode("boot", false)],
        current_mode: Some("on".to_string()),
    };
    let buttons = mode_buttons(&info);
    let shown: Vec<_> = buttons.iter().map(|b| (b.label.as_str(), b.enabled, b.current)).collect();
    assert_eq!(
        shown,
        [("on", false, true), ("off", true, false), ("boot (unavailable)", false, false)]
    );
    assert_eq!(current_mode_text(&info), "on");
    assert_eq!(first_available(&info.keyboards), Some(2));
    assert_eq!(first_available(&info.mice), None);
    assert_eq!(
        media_offers(&info),
        [
            MediaOffer::Kvm { media_id: 7, keyboard_id: Some(2), mouse_id: None },
            MediaOffer::Offline,
        ]
    );
    info.keyboards.clear();
    assert_eq!(media_offers(&info)[0], MediaOffer::View { media_id: 7 });
    assert_eq!(part_label(&part("sd", None)), "sd (offline)");
    assert_eq!(part_label(&part("sd", Some(1))), "sd");
}

#[test]
fn viewers_are_set_up() {
    assert_eq!(
        viewer_setup(7, Some(2), Some(3)),
        [
            ViewerSetup::OpenKeyboard(2),
            ViewerSetup::OpenMouse(3),
            ViewerSetup::CreatePeer,
            ViewerSetup::OpenMedia(7),
        ]
    );
    assert_eq!(viewer_setup(7, None, None), [ViewerSetup::CreatePeer, ViewerSetup::OpenMedia(7)]);
    let mut viewer = MediaViewer::new();
    assert_eq!(viewer.status, "Connecting...");
    assert!(!viewer.on_event(ViewerEvent::Connected));
    assert!(viewer.connected);
    assert!(!viewer.on_event(ViewerEvent::FillToggled));
    assert!(viewer.fill_window);
    assert!(!viewer.on_event(ViewerEvent::Restored));
    assert!(!viewer.fill_window);
    assert!(!viewer.on_event(ViewerEvent::Leds(vec!["NumLock".to_string()])));
    assert_eq!(viewer.led_names, ["NumLock"]);
    assert!(viewer.on_event(ViewerEvent::Closed));
    assert_eq!(viewer.status, "Disconnected");
    assert!(viewer.on_event(ViewerEvent::Failed("x".to_string())));
    assert_eq!(viewer.status, "Connection failed: x");
}

#[test]
fn browser_input_is_sent() {
    let down = KeyboardEventType::KeyDown;
    let up = KeyboardEventType::KeyUp;
    assert_eq!(key_message(down, false, Some(4), true), Some(KeyboardMessage::Event(down, 4)));
    assert_eq!(key_message(down, true, Some(4), true), None);
    assert_eq!(key_message(up, true, Some(4), true), Some(KeyboardMessage::Event(up, 4)));
    assert_eq!(key_message(down, false, None, true), None);
    assert_eq!(key_message(down, false, Some(4), false), None);
    assert_eq!(build_buttons(true, false, true), 5);
    assert_eq!(build_buttons(false, true, false), 2);
    assert_eq!(wheel_steps(1, 1), (-1, 1));
    assert_eq!(wheel_steps(-500, 500), (-127, -127));
    let message = mouse_message(true, Some((3, 4)), 1, (0, 2));
    assert_eq!(message, Some(MouseMessage::Input(1, 3, 4, 0, 2)));
    assert!(mouse_next(message.unwrap()).is_some());
    assert_eq!(mouse_message(false, Some((3, 4)), 1, (0, 2)), None);
    assert_eq!(mouse_message(true, None, 1, (0, 2)), None);
}
