//! The server: what it answers, and the rules of its streams of messages.

use vstd::prelude::*;

use crate::device::{Device, DeviceMode, DeviceSetModeError};
use crate::ids::ItemId;
use crate::keyboard::KeyboardEvent;
use crate::path::{renamed, with_file_name};
use crate::registry::{name_in, visible, Item, Registry, Verifier, INSTANCE};
use crate::remote::{remote_refusal, DeviceInfo, DeviceModeInfo, DevicePart};
use crate::status::{is_status, Code, Status};
use crate::text::{pair_texts, str_eq};

verus! {

/// The port that a server listens on where no other is given.
pub const DEFAULT_PORT: u16 = 6653;

/// Why a console failed.
#[derive(Debug)]
pub enum ConsoleError {
    /// It is not there now.
    Unavailable(String),
    /// It was closed.
    Closed,
}

impl ConsoleError {
    /// The text of the error.
    pub fn message(&self) -> (r: String)
        ensures
            r@ == match *self {
                ConsoleError::Unavailable(m) => "Unavailable: "@ + m@,
                ConsoleError::Closed => "Console was closed"@,
            },
    {
        match self {
            ConsoleError::Unavailable(m) => {
                let mut r = "Unavailable: ".to_owned();
                r.append(m.as_str());
                r
            },
            ConsoleError::Closed => "Console was closed".to_owned(),
        }
    }

    /// What a request is answered with.
    pub fn into_status(self) -> (r: Status)
        ensures
            match self {
                ConsoleError::Unavailable(m) => is_status(r, Code::Unavailable, m@),
                ConsoleError::Closed => is_status(r, Code::Aborted, "Console was closed"@),
            },
    {
        match self {
            ConsoleError::Unavailable(message) => Status { code: Code::Unavailable, message },
            ConsoleError::Closed => Status::new(Code::Aborted, "Console was closed"),
        }
    }
}

/// Why a stream of pictures failed.
#[derive(Debug)]
pub enum MediaError {
    /// Not supported here.
    NotSupported,
    /// Something is broken.
    Internal(String),
}

impl MediaError {
    /// What a request is answered with.
    pub fn into_status(self) -> (r: Status)
        ensures
            match self {
                MediaError::NotSupported => is_status(
                    r,
                    Code::Unimplemented,
                    "Media streaming not supported"@,
                ),
                MediaError::Internal(m) => is_status(r, Code::Internal, m@),
            },
    {
        match self {
            MediaError::NotSupported => Status::new(
                Code::Unimplemented,
                "Media streaming not supported",
            ),
            MediaError::Internal(message) => Status { code: Code::Internal, message },
        }
    }

    /// What another server's refusal of a screenshot means. `message` is the message of its
    /// status, `text` the status as text.
    pub fn from_remote(code: Code, message: String, text: String) -> (r: MediaError)
        ensures
            r == match code {
                Code::Unimplemented => MediaError::NotSupported,
                Code::Internal => MediaError::Internal(message),
                _ => MediaError::Internal(text),
            },
    {
        match code {
            Code::Unimplemented => MediaError::NotSupported,
            Code::Internal => MediaError::Internal(message),
            _ => MediaError::Internal(text),
        }
    }
}

/// Why a keyboard failed.
#[derive(Debug)]
pub enum KeyboardError {
    /// Not supported here.
    NotSupported,
    /// Something is broken.
    Internal(String),
}

impl KeyboardError {
    /// What a request is answered with.
    pub fn into_status(self) -> (r: Status)
        ensures
            match self {
                KeyboardError::NotSupported => is_status(
                    r,
                    Code::Unimplemented,
                    "Keyboard not supported"@,
                ),
                KeyboardError::Internal(m) => is_status(r, Code::Internal, m@),
            },
    {
        match self {
            KeyboardError::NotSupported => Status::new(
                Code::Unimplemented,
                "Keyboard not supported",
            ),
            KeyboardError::Internal(message) => Status { code: Code::Internal, message },
        }
    }
}

/// Why a mouse failed.
#[derive(Debug)]
pub enum MouseError {
    /// Not supported here.
    NotSupported,
    /// Something is broken.
    Internal(String),
}

impl MouseError {
    /// What a request is answered with.
    pub fn into_status(self) -> (r: Status)
        ensures
            match self {
                MouseError::NotSupported => is_status(
                    r,
                    Code::Unimplemented,
                    "Mouse not supported"@,
                ),
                MouseError::Internal(m) => is_status(r, Code::Internal, m@),
            },
    {
        match self {
            MouseError::NotSupported => Status::new(Code::Unimplemented, "Mouse not supported"),
            MouseError::Internal(message) => Status { code: Code::Internal, message },
        }
    }
}

/// What a request to change the mode of a device is answered with when it fails.
pub open spec fn set_mode_refusal(e: DeviceSetModeError) -> (Code, Seq<char>) {
    match e {
        DeviceSetModeError::ModeNotFound => (Code::NotFound, "No mode by that name"@),
        DeviceSetModeError::WrongCurrentMode => (
            Code::FailedPrecondition,
            "Not in the right mode to switch"@,
        ),
        DeviceSetModeError::ActuatorFailed => (Code::Aborted, "Actuator failed"@),
    }
}

/// What a request to change the mode of a device is answered with when it fails.
pub fn set_mode_status(e: DeviceSetModeError) -> (r: Status)
    ensures
        is_status(r, set_mode_refusal(e).0, set_mode_refusal(e).1),
{
    match e {
        DeviceSetModeError::ModeNotFound => Status::new(Code::NotFound, "No mode by that name"),
        DeviceSetModeError::WrongCurrentMode => Status::new(
            Code::FailedPrecondition,
            "Not in the right mode to switch",
        ),
        DeviceSetModeError::ActuatorFailed => Status::new(Code::Aborted, "Actuator failed"),
    }
}

/// A server that passes a device of another server on answers a refused change of mode as that
/// server does.
pub proof fn law_set_mode_refusal_is_passed_on(e: DeviceSetModeError)
    ensures
        remote_refusal(set_mode_refusal(e).0) == e,
{
}

/// Whether a key was pressed or released.
#[derive(Copy, Clone, Debug, PartialEq, Eq, Structural)]
pub enum KeyboardEventType {
    /// Pressed.
    KeyDown,
    /// Released.
    KeyUp,
}

/// The event that a client tells of.
pub fn keyboard_event(type_: KeyboardEventType, key: u32) -> (r: Result<KeyboardEvent, Status>)
    ensures
        match r {
            Ok(event) => key <= 255 && event == match type_ {
                KeyboardEventType::KeyDown => KeyboardEvent::Down(key as u8),
                KeyboardEventType::KeyUp => KeyboardEvent::Up(key as u8),
            },
            Err(status) => key > 255 && is_status(
                status,
                Code::InvalidArgument,
                "Key value out of range"@,
            ),
        },
{
    if key > 255 {
        return Err(Status::new(Code::InvalidArgument, "Key value out of range"));
    }
    Ok(
        match type_ {
            KeyboardEventType::KeyDown => KeyboardEvent::Down(key as u8),
            KeyboardEventType::KeyUp => KeyboardEvent::Up(key as u8),
        },
    )
}

/// What a mouse reports.
#[derive(Copy, Clone, Debug, PartialEq, Eq, Structural)]
pub struct MouseInput {
    /// The buttons, one bit each.
    pub buttons: u8,
    /// Position across.
    pub x: i16,
    /// Position down.
    pub y: i16,
    /// Turn of the wheel.
    pub wheel: i8,
    /// Turn of the wheel across.
    pub hwheel: i8,
}

/// Which of the values is the first that is out of range.
pub open spec fn mouse_refusal(buttons: u32, x: u32, y: u32, wheel: i32, hwheel: i32) -> Option<
    Seq<char>,
> {
    if buttons > u8::MAX {
        Some("Mouse buttons value out of range"@)
    } else if x > i16::MAX {
        Some("Mouse x value out of range"@)
    } else if y > i16::MAX {
        Some("Mouse y value out of range"@)
    } else if !(i8::MIN <= wheel <= i8::MAX) {
        Some("Mouse wheel value out of range"@)
    } else if !(i8::MIN <= hwheel <= i8::MAX) {
        Some("Mouse hwheel value out of range"@)
    } else {
        None
    }
}

/// The report that a client tells of.
pub fn mouse_input(buttons: u32, x: u32, y: u32, wheel: i32, hwheel: i32) -> (r: Result<
    MouseInput,
    Status,
>)
    ensures
        match mouse_refusal(buttons, x, y, wheel, hwheel) {
            Some(text) => r is Err && is_status(r->Err_0, Code::InvalidArgument, text),
            None => {
                &&& r is Ok
                &&& r->Ok_0.buttons == buttons
                &&& r->Ok_0.x == x
                &&& r->Ok_0.y == y
                &&& r->Ok_0.wheel == wheel
                &&& r->Ok_0.hwheel == hwheel
            },
        },
{
    if buttons > 255 {
        return Err(Status::new(Code::InvalidArgument, "Mouse buttons value out of range"));
    }
    if x > 32767 {
        return Err(Status::new(Code::InvalidArgument, "Mouse x value out of range"));
    }
    if y > 32767 {
        return Err(Status::new(Code::InvalidArgument, "Mouse y value out of range"));
    }
    if wheel < -128 || wheel > 127 {
        return Err(Status::new(Code::InvalidArgument, "Mouse wheel value out of range"));
    }
    if hwheel < -128 || hwheel > 127 {
        return Err(Status::new(Code::InvalidArgument, "Mouse hwheel value out of range"));
    }
    Ok(
        MouseInput {
            buttons: buttons as u8,
            x: x as i16,
            y: y as i16,
            wheel: wheel as i8,
            hwheel: hwheel as i8,
        },
    )
}

/// An item as clients see it.
#[derive(Debug)]
pub struct ListedItem {
    /// Id of the item.
    pub id: u64,
    /// Name of the item.
    pub name: String,
    /// The instance that the item comes from.
    pub instance: Option<String>,
}

/// Whether this is how an item with these properties is listed.
pub open spec fn is_listed(
    listed: ListedItem,
    id: nat,
    properties: Map<Seq<char>, Seq<char>>,
) -> bool {
    &&& listed.id == id
    &&& listed.name@ == name_in(properties)
    &&& match listed.instance {
        Some(instance) => properties.contains_key(INSTANCE@) && instance@
            == properties[INSTANCE@],
        None => !properties.contains_key(INSTANCE@),
    }
}

/// How an item is listed.
pub fn list_item<A, T>(id: u64, item: &Item<A, T>) -> (r: ListedItem)
    requires
        item.wf(),
    ensures
        is_listed(r, id as nat, item.properties_spec()@),
{
    let instance = match item.instance() {
        Some(instance) => Some(instance.to_owned()),
        None => None,
    };
    ListedItem { id, name: item.name().to_owned(), instance }
}

/// Whether this is how these items are listed.
pub open spec fn all_listed<I: ItemId, A, T>(
    list: Seq<ListedItem>,
    entries: Seq<(I, Item<A, T>)>,
) -> bool {
    &&& list.len() == entries.len()
    &&& forall|i: int|
        0 <= i < entries.len() ==> is_listed(
            #[trigger] list[i],
            entries[i].0.position(),
            entries[i].1.properties_spec()@,
        )
}

/// How the items that may be seen are listed, in the order of their ids.
pub fn to_item_list<V: Verifier, I: ItemId, T: Clone>(
    registry: &Registry<V, I, T>,
    cred: &V::Credential,
) -> (r: Vec<ListedItem>)
    requires
        registry.wf(),
    ensures
        all_listed(r@, visible(registry.verifier_spec(), registry.entries(), *cred)),
{
    let contents = registry.contents(cred);
    let mut r: Vec<ListedItem> = Vec::new();
    let ghost seen = visible(registry.verifier_spec(), registry.entries(), *cred);
    for i in 0..contents.len()
        invariant
            registry.wf(),
            seen == visible(registry.verifier_spec(), registry.entries(), *cred),
            contents@ == seen.map_values(|e: (I, Item<V::Acl, T>)| (e.0, &e.1)),
            r@.len() == i,
            forall|j: int|
                0 <= j < i ==> is_listed(
                    #[trigger] r@[j],
                    seen[j].0.position(),
                    seen[j].1.properties_spec()@,
                ),
    {
        let (id, item) = contents[i];
        proof {
            assert(contents@[i as int] == (seen[i as int].0, &seen[i as int].1));
            assert(seen.contains(seen[i as int]));
            crate::registry::lemma_visible(
                registry.verifier_spec(),
                registry.entries(),
                *cred,
                seen[i as int],
            );
            let x = choose|x: int|
                0 <= x < registry.entries().len() && registry.entries()[x] == seen[i as int];
            assert(registry.entries()[x].1.wf());
        }
        r.push(list_item(id.value(), item));
    }
    r
}

/// How clients may log in.
#[derive(Debug)]
pub enum Authentication {
    /// With an identity provider.
    Oidc {
        /// What it is called.
        description: String,
        /// Where it is.
        uri: String,
        /// The id of the client there.
        client: String,
        /// For whom tokens have to be meant.
        audience: Vec<String>,
    },
    /// With tokens that keys of a file have signed.
    Jwks {
        /// The file.
        path: String,
        /// Who has to have issued the tokens.
        identifier: Option<String>,
    },
}

/// The certificate of a server.
#[derive(Debug)]
pub struct Certificate {
    /// File of the certificates.
    pub chain: String,
    /// File of the key.
    pub key: String,
}

/// A way to log in as clients see it.
#[derive(Debug)]
pub enum AuthMethod {
    /// With an identity provider.
    Oidc {
        /// Where it is.
        url: String,
        /// The id of the client there.
        client_id: String,
    },
}

/// A way to log in, with what it is called.
#[derive(Debug)]
pub struct LoginInfo {
    /// What it is called.
    pub description: String,
    /// The way to log in.
    pub method: AuthMethod,
}

/// The ways to log in that clients are told of: those with an identity provider.
pub open spec fn told_logins(list: Seq<Authentication>) -> Seq<(Seq<char>, Seq<char>, Seq<char>)>
    decreases list.len(),
{
    if list.len() == 0 {
        Seq::empty()
    } else {
        let before = told_logins(list.drop_last());
        match list.last() {
            Authentication::Oidc { description, uri, client, audience } => before.push(
                (description@, uri@, client@),
            ),
            Authentication::Jwks { path, identifier } => before,
        }
    }
}

/// The texts of a list of ways to log in.
pub open spec fn login_views(list: Seq<LoginInfo>) -> Seq<(Seq<char>, Seq<char>, Seq<char>)> {
    list.map_values(
        |l: LoginInfo|
            match l.method {
                AuthMethod::Oidc { url, client_id } => (l.description@, url@, client_id@),
            },
    )
}

/// The ways to log in that clients are told of.
pub fn login_info(list: &Vec<Authentication>) -> (r: Vec<LoginInfo>)
    ensures
        login_views(r@) == told_logins(list@),
{
    let mut r: Vec<LoginInfo> = Vec::new();
    assert(login_views(r@) =~= told_logins(list@.take(0)));
    for i in 0..list.len()
        invariant
            login_views(r@) == told_logins(list@.take(i as int)),
    {
        proof {
            assert(list@.take(i + 1).drop_last() =~= list@.take(i as int));
            assert(list@.take(i + 1).last() == list@[i as int]);
        }
        match &list[i] {
            Authentication::Oidc { description, uri, client, audience } => {
                let ghost before = r@;
                r.push(
                    LoginInfo {
                        description: description.clone(),
                        method: AuthMethod::Oidc { url: uri.clone(), client_id: client.clone() },
                    },
                );
                assert(login_views(r@) =~= login_views(before).push(
                    (description@, uri@, client@),
                ));
            },
            Authentication::Jwks { path, identifier } => {},
        }
    }
    assert(list@.take(list@.len() as int) =~= list@);
    r
}

/// What a server tells of a device.
pub fn device_info<P>(device: &Device<u64, P>) -> (r: DeviceInfo)
    ensures
        r.consoles@.len() == device.consoles@.len(),
        forall|i: int|
            0 <= i < device.consoles@.len() ==> (#[trigger] r.consoles@[i]).name@
                == device.consoles@[i].config_spec().name@ && r.consoles@[i].id
                == device.consoles@[i].id_spec(),
        r.volumes@.len() == device.volumes@.len(),
        forall|i: int|
            0 <= i < device.volumes@.len() ==> (#[trigger] r.volumes@[i]).name@
                == device.volumes@[i].config_spec().name@ && r.volumes@[i].id
                == device.volumes@[i].id_spec(),
        r.media@.len() == 0,
        r.keyboards@.len() == 0,
        r.mice@.len() == 0,
        r.modes@.len() == device.modes@.len(),
        forall|i: int|
            0 <= i < device.modes@.len() ==> is_mode_info(
                #[trigger] r.modes@[i],
                device.modes@[i],
            ),
        crate::device::same_text(r.current_mode, match device.mode() {
            Some(mode) => Some(mode@),
            None => None,
        }),
{
    let mut consoles: Vec<DevicePart> = Vec::new();
    for i in 0..device.consoles.len()
        invariant
            consoles@.len() == i,
            forall|j: int|
                0 <= j < i ==> (#[trigger] consoles@[j]).name@
                    == device.consoles@[j].config_spec().name@ && consoles@[j].id
                    == device.consoles@[j].id_spec(),
    {
        let c = &device.consoles[i];
        consoles.push(DevicePart { name: c.config().name.clone(), id: c.get() });
    }
    let mut volumes: Vec<DevicePart> = Vec::new();
    for i in 0..device.volumes.len()
        invariant
            volumes@.len() == i,
            forall|j: int|
                0 <= j < i ==> (#[trigger] volumes@[j]).name@
                    == device.volumes@[j].config_spec().name@ && volumes@[j].id
                    == device.volumes@[j].id_spec(),
    {
        let v = &device.volumes[i];
        volumes.push(DevicePart { name: v.config().name.clone(), id: v.get() });
    }
    let mut modes: Vec<DeviceModeInfo> = Vec::new();
    for i in 0..device.modes.len()
        invariant
            modes@.len() == i,
            forall|j: int|
                0 <= j < i ==> is_mode_info(#[trigger] modes@[j], device.modes@[j]),
    {
        let m = &device.modes[i];
        let depends = match &m.depends {
            Some(d) => Some(d.clone()),
            None => None,
        };
        modes.push(DeviceModeInfo { name: m.name.clone(), depends, available: m.is_available() });
    }
    let current_mode = match device.current_mode() {
        Some(mode) => Some(mode.to_owned()),
        None => None,
    };
    DeviceInfo {
        consoles,
        volumes,
        media: Vec::new(),
        keyboards: Vec::new(),
        mice: Vec::new(),
        modes,
        current_mode,
    }
}

/// Whether this is what is told of the mode.
pub open spec fn is_mode_info<P>(info: DeviceModeInfo, mode: DeviceMode<u64, P>) -> bool {
    &&& info.name@ == mode.name@
    &&& crate::device::same_text(info.depends, match mode.depends {
        Some(d) => Some(d@),
        None => None,
    })
    &&& info.available == mode.available()
}

/// The pairs of keys and values in a query.
pub uninterp spec fn form_pairs(query: Seq<char>) -> Seq<(Seq<char>, Seq<char>)>;

/// `url::form_urlencoded::parse` takes a query apart into its pairs, decoded. Which they are
/// depends on the bytes of the query alone.
#[verifier::external_body]
fn parse_form(query: &str) -> (r: Vec<(String, String)>)
    ensures
        pair_texts(r@) == form_pairs(query@),
{
    url::form_urlencoded::parse(query.as_bytes()).into_owned().collect()
}

/// The value of the first pair with the key.
pub open spec fn first_of(pairs: Seq<(Seq<char>, Seq<char>)>, key: Seq<char>) -> Option<Seq<char>>
    decreases pairs.len(),
{
    if pairs.len() == 0 {
        None
    } else if pairs[0].0 == key {
        Some(pairs[0].1)
    } else {
        first_of(pairs.skip(1), key)
    }
}

/// The token among the pairs of a query.
pub fn token_of(pairs: &Vec<(String, String)>) -> (r: Option<String>)
    ensures
        match r {
            Some(token) => first_of(pair_texts(pairs@), "token"@) == Some(token@),
            None => first_of(pair_texts(pairs@), "token"@) is None,
        },
{
    let ghost all = pair_texts(pairs@);
    assert(all.skip(0) =~= all);
    for i in 0..pairs.len()
        invariant
            all == pair_texts(pairs@),
            first_of(all, "token"@) == first_of(all.skip(i as int), "token"@),
    {
        assert(all.skip(i as int)[0] == (pairs@[i as int].0@, pairs@[i as int].1@));
        assert(all.skip(i as int).skip(1) =~= all.skip(i + 1));
        if str_eq(pairs[i].0.as_str(), "token") {
            return Some(pairs[i].1.clone());
        }
    }
    None
}

/// The token that the query of a request holds.
pub fn query_token(query: Option<&str>) -> (r: Option<String>)
    ensures
        match query {
            Some(query) => match r {
                Some(token) => first_of(form_pairs(query@), "token"@) == Some(token@),
                None => first_of(form_pairs(query@), "token"@) is None,
            },
            None => r is None,
        },
{
    match query {
        Some(query) => {
            let pairs = parse_form(query);
            token_of(&pairs)
        },
        None => None,
    }
}

/// Where to listen: where the command line says, else where the configuration says, else the
/// default.
pub fn listen_address<A>(command_line: Option<A>, configured: Option<A>, default: A) -> (r: A)
    ensures
        r == match (command_line, configured) {
            (Some(a), _) => a,
            (None, Some(a)) => a,
            (None, None) => default,
        },
{
    match (command_line, configured) {
        (Some(a), _) => a,
        (None, Some(a)) => a,
        (None, None) => default,
    }
}

/// The kinds of provider.
#[derive(Copy, Clone, Debug, PartialEq, Eq, Structural)]
pub enum ProviderKind {
    /// Device firmware upgrade.
    Dfu,
    /// The controller of HiFive P550 boards.
    HifiveP550Mcu,
    /// The boot rom of MediaTek boards.
    MediatekBrom,
    /// Rockchip boards.
    Rockusb,
    /// Serial ports.
    Serial,
    /// Fastboot.
    Fastboot,
    /// ESWIN boards that show up as disks.
    EswinEic7700Storage,
    /// GPIO lines.
    Gpio,
    /// Keyboards and mice that this machine pretends to be.
    HidGadget,
    /// Power distribution units.
    Pdudaemon,
    /// Another server.
    Boardswarm,
    /// Cameras.
    V4l2,
}

/// The kind of provider with this name.
pub open spec fn kind_named(name: Seq<char>) -> Option<ProviderKind> {
    if name == "dfu"@ {
        Some(ProviderKind::Dfu)
    } else if name == "hifive-p550-mcu"@ {
        Some(ProviderKind::HifiveP550Mcu)
    } else if name == "mediatek-brom"@ {
        Some(ProviderKind::MediatekBrom)
    } else if name == "rockusb"@ {
        Some(ProviderKind::Rockusb)
    } else if name == "serial"@ {
        Some(ProviderKind::Serial)
    } else if name == "fastboot"@ {
        Some(ProviderKind::Fastboot)
    } else if name == "eswin-eic7700-storage"@ {
        Some(ProviderKind::EswinEic7700Storage)
    } else if name == "gpio"@ {
        Some(ProviderKind::Gpio)
    } else if name == "hid_gadget"@ {
        Some(ProviderKind::HidGadget)
    } else if name == "pdudaemon"@ {
        Some(ProviderKind::Pdudaemon)
    } else if name == "boardswarm"@ {
        Some(ProviderKind::Boardswarm)
    } else if name == "v4l2"@ {
        Some(ProviderKind::V4l2)
    } else {
        None
    }
}

/// The kind of provider with this name.
pub fn provider_kind(name: &str) -> (r: Option<ProviderKind>)
    ensures
        r == kind_named(name@),
{
    if str_eq(name, "dfu") {
        Some(ProviderKind::Dfu)
    } else if str_eq(name, "hifive-p550-mcu") {
        Some(ProviderKind::HifiveP550Mcu)
    } else if str_eq(name, "mediatek-brom") {
        Some(ProviderKind::MediatekBrom)
    } else if str_eq(name, "rockusb") {
        Some(ProviderKind::Rockusb)
    } else if str_eq(name, "serial") {
        Some(ProviderKind::Serial)
    } else if str_eq(name, "fastboot") {
        Some(ProviderKind::Fastboot)
    } else if str_eq(name, "eswin-eic7700-storage") {
        Some(ProviderKind::EswinEic7700Storage)
    } else if str_eq(name, "gpio") {
        Some(ProviderKind::Gpio)
    } else if str_eq(name, "hid_gadget") {
        Some(ProviderKind::HidGadget)
    } else if str_eq(name, "pdudaemon") {
        Some(ProviderKind::Pdudaemon)
    } else if str_eq(name, "boardswarm") {
        Some(ProviderKind::Boardswarm)
    } else if str_eq(name, "v4l2") {
        Some(ProviderKind::V4l2)
    } else {
        None
    }
}

/// Whether the serial provider is enabled: one of the providers has its name.
pub fn has_serial(names: &Vec<String>) -> (r: bool)
    ensures
        r == exists|i: int| 0 <= i < names@.len() && (#[trigger] names@[i])@ == "serial"@,
{
    for i in 0..names.len()
        invariant
            forall|j: int| 0 <= j < i ==> (#[trigger] names@[j])@ != "serial"@,
    {
        if str_eq(names[i].as_str(), "serial") {
            return true;
        }
    }
    false
}

/// Why a provider cannot be started, where it cannot.
pub open spec fn start_refusal(kind: ProviderKind, serial: bool, parameters: bool) -> Option<
    Seq<char>,
> {
    match kind {
        ProviderKind::HifiveP550Mcu => if serial {
            None
        } else {
            Some("Hifive P550 MCU provider requires the serial provider to be enabled"@)
        },
        ProviderKind::MediatekBrom => if serial {
            None
        } else {
            Some("Mediatek brom provider requires the serial provider to be enabled"@)
        },
        ProviderKind::Gpio => if parameters {
            None
        } else {
            Some("Missing gpio provider parameters"@)
        },
        ProviderKind::Pdudaemon => if parameters {
            None
        } else {
            Some("Missing pdudaemon provider parameters"@)
        },
        ProviderKind::Boardswarm => if parameters {
            None
        } else {
            Some("Missing boardswarm provider parameters"@)
        },
        _ => None,
    }
}

/// Whether a provider can be started: some need the serial provider, some need parameters.
pub fn check_start(kind: ProviderKind, serial: bool, parameters: bool) -> (r: Result<
    (),
    &'static str,
>)
    ensures
        match r {
            Ok(_) => start_refusal(kind, serial, parameters) is None,
            Err(text) => start_refusal(kind, serial, parameters) == Some(text@),
        },
{
    match kind {
        ProviderKind::HifiveP550Mcu => if serial {
            Ok(())
        } else {
            Err("Hifive P550 MCU provider requires the serial provider to be enabled")
        },
        ProviderKind::MediatekBrom => if serial {
            Ok(())
        } else {
            Err("Mediatek brom provider requires the serial provider to be enabled")
        },
        ProviderKind::Gpio => if parameters {
            Ok(())
        } else {
            Err("Missing gpio provider parameters")
        },
        ProviderKind::Pdudaemon => if parameters {
            Ok(())
        } else {
            Err("Missing pdudaemon provider parameters")
        },
        ProviderKind::Boardswarm => if parameters {
            Ok(())
        } else {
            Err("Missing boardswarm provider parameters")
        },
        _ => Ok(()),
    }
}

/// Whether this is a way to log in with the file of its keys found beside the configuration.
pub open spec fn is_resolved(
    given: Authentication,
    resolved: Authentication,
    config_path: Seq<char>,
) -> bool {
    match (given, resolved) {
        (Authentication::Jwks { path, identifier }, Authentication::Jwks { path: p, identifier: i })
            => {
            &&& p@ == renamed(config_path, path@)
            &&& i == identifier
        },
        (Authentication::Oidc { .. }, _) => resolved == given,
        _ => false,
    }
}

/// The ways to log in at a server, with files found beside the configuration. There has to be
/// one.
pub fn resolve_logins(list: Vec<Authentication>, config_path: &str) -> (r: Result<
    Vec<Authentication>,
    &'static str,
>)
    ensures
        if list@.len() == 0 {
            r is Err && r->Err_0@ == "No authentication methods found in configuration"@
        } else {
            &&& r is Ok
            &&& r->Ok_0@.len() == list@.len()
            &&& forall|i: int|
                0 <= i < list@.len() ==> is_resolved(
                    list@[i],
                    #[trigger] r->Ok_0@[i],
                    config_path@,
                )
        },
{
    if list.len() == 0 {
        return Err("No authentication methods found in configuration");
    }
    let ghost all = list@;
    let mut r: Vec<Authentication> = Vec::new();
    for login in it: list
        invariant
            it.seq() == all,
            r@.len() == it.index(),
            forall|i: int|
                0 <= i < it.index() ==> is_resolved(all[i], #[trigger] r@[i], config_path@),
    {
        assert(login == all[it.index() as int]);
        let resolved = match login {
            Authentication::Jwks { path, identifier } => Authentication::Jwks {
                path: with_file_name(config_path, path.as_str()),
                identifier,
            },
            oidc => oidc,
        };
        r.push(resolved);
    }
    Ok(r)
}

/// The input of a mouse is taken exactly if the buttons fit into a byte, both positions into the
/// range of the mouse and both wheels into a byte with a sign.
pub proof fn law_mouse_ranges(buttons: u32, x: u32, y: u32, wheel: i32, hwheel: i32)
    ensures
        mouse_refusal(buttons, x, y, wheel, hwheel) is None <==> buttons <= 255 && x <= 32767 && y
            <= 32767 && -128 <= wheel && wheel <= 127 && -128 <= hwheel && hwheel <= 127,
        buttons <= 255 && x <= 32767 && y <= 32767 && -128 <= wheel && wheel <= 127 && !(-128
            <= hwheel && hwheel <= 127) ==> mouse_refusal(buttons, x, y, wheel, hwheel) == Some(
            "Mouse hwheel value out of range"@,
        ),
        buttons <= 255 && x <= 32767 && y > 32767 ==> mouse_refusal(buttons, x, y, wheel, hwheel)
            == Some("Mouse y value out of range"@),
        buttons <= 255 && x > 32767 ==> mouse_refusal(buttons, x, y, wheel, hwheel) == Some(
            "Mouse x value out of range"@,
        ),
        buttons > 255 ==> mouse_refusal(buttons, x, y, wheel, hwheel) == Some(
            "Mouse buttons value out of range"@,
        ),
{
}

/// Of several pairs with one key the first counts.
pub proof fn law_first_pair_counts(
    pairs: Seq<(Seq<char>, Seq<char>)>,
    key: Seq<char>,
    i: int,
)
    ensures
        0 <= i < pairs.len() && pairs[i].0 == key && (forall|j: int|
            0 <= j < i ==> (#[trigger] pairs[j]).0 != key) ==> first_of(pairs, key) == Some(
            pairs[i].1,
        ),
        (forall|j: int| 0 <= j < pairs.len() ==> (#[trigger] pairs[j]).0 != key) ==> first_of(
            pairs,
            key,
        ) is None,
    decreases pairs.len(),
{
    if pairs.len() > 0 && pairs[0].0 != key {
        let rest = pairs.skip(1);
        law_first_pair_counts(rest, key, i - 1);
        if forall|j: int| 0 <= j < pairs.len() ==> (#[trigger] pairs[j]).0 != key {
            assert forall|j: int| 0 <= j < rest.len() implies (#[trigger] rest[j]).0 != key by {
                assert(pairs[j + 1].0 != key);
            }
        }
        if 0 < i < pairs.len() && (forall|j: int| 0 <= j < i ==> (#[trigger] pairs[j]).0 != key) {
            assert forall|j: int| 0 <= j < i - 1 implies (#[trigger] rest[j]).0 != key by {
                assert(pairs[j + 1].0 != key);
            }
        }
    }
}

/// Clients are told of every way to log in at an identity provider, with its description, url and
/// client, and of no other.
pub proof fn law_logins_are_told(
    list: Seq<Authentication>,
    told: (Seq<char>, Seq<char>, Seq<char>),
)
    ensures
        told_logins(list).contains(told) <==> exists|i: int|
            0 <= i < list.len() && (#[trigger] list[i] matches Authentication::Oidc {
                description,
                uri,
                client,
                audience,
            } && description@ == told.0 && uri@ == told.1 && client@ == told.2),
        told_logins(list).len() <= list.len(),
    decreases list.len(),
{
    if list.len() > 0 {
        let rest = list.drop_last();
        law_logins_are_told(rest, told);
        let before = told_logins(rest);
        let all = told_logins(list);
        if before.contains(told) {
            let i = choose|i: int|
                0 <= i < rest.len() && (#[trigger] rest[i] matches Authentication::Oidc {
                    description,
                    uri,
                    client,
                    audience,
                } && description@ == told.0 && uri@ == told.1 && client@ == told.2);
            assert(list[i] == rest[i]);
            let x = choose|x: int| 0 <= x < before.len() && before[x] == told;
            assert(all[x] == told);
        }
        if list.last() is Oidc {
            assert(all.last() == all[before.len() as int]);
            assert(list[list.len() - 1] == list.last());
        }
        if all.contains(told) && !before.contains(told) {
            let x = choose|x: int| 0 <= x < all.len() && all[x] == told;
            if x < before.len() {
                assert(before[x] == told);
            }
        }
        if exists|i: int|
            0 <= i < list.len() && (#[trigger] list[i] matches Authentication::Oidc {
                description,
                uri,
                client,
                audience,
            } && description@ == told.0 && uri@ == told.1 && client@ == told.2) {
            let i = choose|i: int|
                0 <= i < list.len() && (#[trigger] list[i] matches Authentication::Oidc {
                    description,
                    uri,
                    client,
                    audience,
                } && description@ == told.0 && uri@ == told.1 && client@ == told.2);
            if i < rest.len() {
                assert(rest[i] == list[i]);
            }
        }
    }
}

/// Boards that are driven over serial ports need the serial provider, and the providers that have
/// to be told where to look need parameters. All others can always be started.
pub proof fn law_what_providers_need(kind: ProviderKind, serial: bool, parameters: bool)
    ensures
        start_refusal(kind, true, true) is None,
        start_refusal(kind, false, true) is Some <==> kind == ProviderKind::HifiveP550Mcu || kind
            == ProviderKind::MediatekBrom,
        start_refusal(kind, true, false) is Some <==> kind == ProviderKind::Gpio || kind
            == ProviderKind::Pdudaemon || kind == ProviderKind::Boardswarm,
        start_refusal(kind, false, false) is Some <==> start_refusal(kind, false, true) is Some
            || start_refusal(kind, true, false) is Some,
{
}

/// What a server tells of an item is its id, its name and, where it comes from another instance,
/// that one.
pub proof fn law_listed_items(
    listed: ListedItem,
    id: nat,
    properties: Map<Seq<char>, Seq<char>>,
    name: Seq<char>,
)
    requires
        is_listed(listed, id, properties.insert(crate::registry::NAME@, name)),
    ensures
        listed.id == id,
        listed.name@ == name,
        !properties.contains_key(INSTANCE@) ==> listed.instance is None,
        properties.contains_key(INSTANCE@) ==> listed.instance is Some && listed.instance->0@
            == properties[INSTANCE@],
{
    reveal_strlit("boardswarm.name");
    reveal_strlit("boardswarm.instance");
    assert(crate::registry::NAME@.len() != INSTANCE@.len());
}

/// Each name of a provider stands for the provider of that name.
pub proof fn law_provider_names()
    ensures
        kind_named("dfu"@) == Some(ProviderKind::Dfu),
        kind_named("hifive-p550-mcu"@) == Some(ProviderKind::HifiveP550Mcu),
        kind_named("mediatek-brom"@) == Some(ProviderKind::MediatekBrom),
        kind_named("rockusb"@) == Some(ProviderKind::Rockusb),
        kind_named("serial"@) == Some(ProviderKind::Serial),
        kind_named("fastboot"@) == Some(ProviderKind::Fastboot),
        kind_named("eswin-eic7700-storage"@) == Some(ProviderKind::EswinEic7700Storage),
        kind_named("gpio"@) == Some(ProviderKind::Gpio),
        kind_named("hid_gadget"@) == Some(ProviderKind::HidGadget),
        kind_named("pdudaemon"@) == Some(ProviderKind::Pdudaemon),
        kind_named("boardswarm"@) == Some(ProviderKind::Boardswarm),
        kind_named("v4l2"@) == Some(ProviderKind::V4l2),
{
    reveal_strlit("dfu");
    reveal_strlit("hifive-p550-mcu");
    reveal_strlit("mediatek-brom");
    reveal_strlit("rockusb");
    reveal_strlit("serial");
    reveal_strlit("fastboot");
    reveal_strlit("eswin-eic7700-storage");
    reveal_strlit("gpio");
    reveal_strlit("hid_gadget");
    reveal_strlit("pdudaemon");
    reveal_strlit("boardswarm");
    reveal_strlit("v4l2");
    assert("dfu"@.len() == 3 && "hifive-p550-mcu"@.len() == 15 && "mediatek-brom"@.len() == 13);
    assert("rockusb"@.len() == 7 && "serial"@.len() == 6 && "fastboot"@.len() == 8);
    assert("eswin-eic7700-storage"@.len() == 21 && "hid_gadget"@.len() == 10);
    assert("pdudaemon"@[0] == 'p' && "boardswarm"@[0] == 'b' && "hid_gadget"@[0] == 'h');
    assert("gpio"@[0] == 'g' && "v4l2"@[0] == 'v');
}

} // verus!
