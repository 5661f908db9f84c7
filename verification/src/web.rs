//! The pages of a browser: how a user is let in, what the pages show and where they lead, and
//! what is sent to a server.

use vstd::prelude::*;

use crate::remote::{DeviceInfo, DeviceModeInfo, DevicePart};
use crate::server::{mouse_refusal, AuthMethod, KeyboardEventType, ListedItem, LoginInfo};
use crate::sessions::{KeyboardMessage, MouseMessage};
use crate::text::{
    append_decimal, chars_of, contains, decimal, digit_value, find, first_from, first_occurrence,
    law_first_occurrence_is_first, lemma_first_occurrence, occurs, occurs_at, replace, replaced,
    str_eq, string_of, trim, trimmed,
};

verus! {

/// How far letting the user in has come.
#[derive(Debug)]
pub enum AuthState {
    /// It is not known yet whether there is a token.
    Unknown,
    /// There is no token: the user has to log in.
    Unauthenticated { login_info: Vec<LoginInfo> },
    /// There is a token.
    Authenticated { token: String },
}

/// What was found out about the user.
#[derive(Debug)]
pub enum AuthEvent {
    /// What the browser has stored.
    Stored(Option<String>),
    /// What the identity provider gave, if the user comes from there.
    Callback(Option<String>),
    /// The ways to log in; missing where the server could not be asked.
    LoginInfo(Option<Vec<LoginInfo>>),
}

/// What to do then.
#[derive(Debug)]
pub enum AuthNext {
    /// See whether the user comes from the identity provider.
    HandleCallback,
    /// Store the token: the user is let in.
    StoreToken { token: String },
    /// Ask the server for the ways to log in.
    FetchLoginInfo,
    /// It is known how far letting the user in has come.
    Known(AuthState),
}

/// What to do after something was found out about the user: a stored token comes first, then one
/// of the identity provider, and without any the user has to log in.
pub fn check_auth(event: AuthEvent) -> (r: AuthNext)
    ensures
        match event {
            AuthEvent::Stored(Some(token)) => r == AuthNext::Known(
                AuthState::Authenticated { token },
            ),
            AuthEvent::Stored(None) => r is HandleCallback,
            AuthEvent::Callback(Some(token)) => r == (AuthNext::StoreToken { token }),
            AuthEvent::Callback(None) => r is FetchLoginInfo,
            AuthEvent::LoginInfo(Some(login_info)) => r == AuthNext::Known(
                AuthState::Unauthenticated { login_info },
            ),
            AuthEvent::LoginInfo(None) => r matches AuthNext::Known(
                AuthState::Unauthenticated { login_info },
            ) && login_info@ == Seq::<LoginInfo>::empty(),
        },
{
    match event {
        AuthEvent::Stored(Some(token)) => AuthNext::Known(AuthState::Authenticated { token }),
        AuthEvent::Stored(None) => AuthNext::HandleCallback,
        AuthEvent::Callback(Some(token)) => AuthNext::StoreToken { token },
        AuthEvent::Callback(None) => AuthNext::FetchLoginInfo,
        AuthEvent::LoginInfo(Some(login_info)) => AuthNext::Known(
            AuthState::Unauthenticated { login_info },
        ),
        AuthEvent::LoginInfo(None) => AuthNext::Known(
            AuthState::Unauthenticated { login_info: Vec::new() },
        ),
    }
}

/// The page that the identity provider leads back to.
pub fn redirect_uri(origin: &str) -> (r: String)
    ensures
        r@ == origin@ + "/"@,
{
    let mut r = origin.to_owned();
    r.append("/");
    r
}

/// The page of the identity provider where the user logs in.
pub fn authorize_url(oidc_url: &str, client_id: &str, origin: &str, code_verifier: &str) -> (r:
    String)
    ensures
        r@ == oidc_url@ + "/authorize?response_type=code&client_id="@ + client_id@
            + "&redirect_uri="@ + (origin@ + "/"@) + "&scope=openid&code_challenge="@
            + code_verifier@ + "&code_challenge_method=plain&state=boardswarm"@,
{
    let mut r = oidc_url.to_owned();
    r.append("/authorize?response_type=code&client_id=");
    r.append(client_id);
    r.append("&redirect_uri=");
    r.append(redirect_uri(origin).as_str());
    r.append("&scope=openid&code_challenge=");
    r.append(code_verifier);
    r.append("&code_challenge_method=plain&state=boardswarm");
    r
}

/// Whether the address of the page says that the user comes from the identity provider.
pub fn is_callback(search: &str) -> (r: bool)
    ensures
        r == occurs(search@, "code="@),
{
    contains(search, "code=")
}

/// A request for a token.
#[derive(Debug)]
pub struct TokenRequest {
    /// Where it goes.
    pub url: String,
    /// What it says.
    pub body: String,
}

/// The request for a token, once all that it needs is known.
pub fn token_request(
    code: Option<String>,
    verifier: Option<String>,
    client_id: Option<String>,
    oidc_url: Option<String>,
    origin: &str,
) -> (r: Option<TokenRequest>)
    ensures
        r is Some <==> code is Some && verifier is Some && client_id is Some && oidc_url is Some,
        r is Some ==> {
            &&& r->0.url@ == oidc_url->0@ + "/token"@
            &&& r->0.body@ == "grant_type=authorization_code&code="@ + code->0@ + "&redirect_uri="@
                + (origin@ + "/"@) + "&client_id="@ + client_id->0@ + "&code_verifier="@
                + verifier->0@
        },
{
    match (code, verifier, client_id, oidc_url) {
        (Some(code), Some(verifier), Some(client_id), Some(oidc_url)) => {
            let mut url = oidc_url;
            url.append("/token");
            let mut body = "grant_type=authorization_code&code=".to_owned();
            body.append(code.as_str());
            body.append("&redirect_uri=");
            body.append(redirect_uri(origin).as_str());
            body.append("&client_id=");
            body.append(client_id.as_str());
            body.append("&code_verifier=");
            body.append(verifier.as_str());
            Some(TokenRequest { url, body })
        },
        _ => None,
    }
}

/// The character of a secret for a number.
pub open spec fn secret_char(n: u8) -> char {
    if n < 10 {
        (n + '0' as u32) as char
    } else {
        (n - 10 + 'a' as u32) as char
    }
}

/// A secret out of numbers below 36.
pub fn generate_random_string(numbers: &Vec<u8>) -> (r: String)
    requires
        forall|i: int| 0 <= i < numbers@.len() ==> (#[trigger] numbers@[i]) < 36,
    ensures
        r@ == numbers@.map_values(|n: u8| secret_char(n)),
{
    let mut r = "".to_owned();
    proof {
        reveal_strlit("");
    }
    for i in 0..numbers.len()
        invariant
            r@ =~= numbers@.take(i as int).map_values(|n: u8| secret_char(n)),
            forall|i: int| 0 <= i < numbers@.len() ==> (#[trigger] numbers@[i]) < 36,
    {
        let n: u8 = numbers[i];
        let c = if n < 10 {
            (n + 48) as char
        } else {
            (n - 10 + 97) as char
        };
        assert(c == secret_char(n));
        r.push(c);
        assert(numbers@.take(i + 1) =~= numbers@.take(i as int).push(n));
    }
    assert(numbers@.take(numbers@.len() as int) =~= numbers@);
    r
}

/// The token in what the identity provider answers: the text between the next two quotes behind
/// the name of the field and the character after it.
pub open spec fn token_in(json: Seq<char>) -> Option<Seq<char>> {
    match first_occurrence(json, "\"access_token\""@) {
        None => None,
        Some(at) => {
            let rest = json.skip(at + 15);
            match first_occurrence(rest, "\""@) {
                None => None,
                Some(open) => match first_occurrence(rest.skip(open + 1), "\""@) {
                    None => None,
                    Some(end) => Some(rest.subrange(open + 1, open + 1 + end)),
                },
            }
        },
    }
}

/// The token in what the identity provider answers. Behind the name of the field there has to be
/// a character, and it has to be an ASCII one.
pub fn parse_token_response(json_str: &str) -> (r: Option<String>)
    requires
        first_occurrence(json_str@, "\"access_token\""@) matches Some(at) ==> at + 14
            < json_str@.len() && json_str@[at + 14] as u32 <= 127,
    ensures
        match token_in(json_str@) {
            Some(token) => r is Some && r->0@ == token,
            None => r is None,
        },
{
    let json = chars_of(json_str);
    let at: usize = match find(&json, &chars_of("\"access_token\"")) {
        Some(at) => at,
        None => {
            return None;
        },
    };
    let n: usize = json.len();
    let quote = chars_of("\"");
    proof {
        reveal_strlit("\"access_token\"");
        reveal_strlit("\"");
    }
    let rest: Vec<char> = vstd::slice::slice_to_vec(
        vstd::slice::slice_subrange(json.as_slice(), at + 15, n),
    );
    proof {
        assert(rest@ =~= json_str@.skip(at + 15));
    }
    let open: usize = match find(&rest, &quote) {
        Some(open) => open,
        None => {
            return None;
        },
    };
    let m: usize = rest.len();
    let tail: Vec<char> = vstd::slice::slice_to_vec(
        vstd::slice::slice_subrange(rest.as_slice(), open + 1, m),
    );
    proof {
        assert(tail@ =~= rest@.skip(open + 1));
    }
    let end: usize = match find(&tail, &quote) {
        Some(end) => end,
        None => {
            return None;
        },
    };
    Some(string_of(&rest, open + 1, open + 1 + end))
}

/// The token that a user gave, without the space around it, if there is one.
pub fn given_token(input: &str) -> (r: Option<String>)
    ensures
        if trimmed(input@).len() == 0 {
            r is None
        } else {
            r is Some && r->0@ == trimmed(input@)
        },
{
    let token = trim(input);
    if chars_of(token.as_str()).len() == 0 {
        None
    } else {
        Some(token)
    }
}

/// The label of the way to log in, which leads to the identity provider.
pub fn login_label(info: &LoginInfo) -> (r: String)
    ensures
        r@ == "Login with "@ + info.description@,
{
    let mut r = "Login with ".to_owned();
    r.append(info.description.as_str());
    r
}

/// Where the server is, if the page does not say.
pub fn origin_or_default(origin: Option<String>) -> (r: String)
    ensures
        r@ == match origin {
            Some(origin) => origin@,
            None => "http://localhost:6683"@,
        },
{
    match origin {
        Some(origin) => origin,
        None => "http://localhost:6683".to_owned(),
    }
}

/// The address of a stream of messages, for the holder of a token.
pub fn ws_url(origin: &str, path: &str, token: &str) -> (r: String)
    ensures
        r@ == replaced(
            replaced(origin@, "https://"@, "wss://"@),
            "http://"@,
            "ws://"@,
        ) + path@ + "?token="@ + token@,
{
    proof {
        reveal_strlit("https://");
        reveal_strlit("http://");
    }
    let secure = replace(origin, "https://", "wss://");
    let mut r = replace(secure.as_str(), "http://", "ws://");
    r.append(path);
    r.append("?token=");
    r.append(token);
    r
}

/// What a request carries for the holder of a token.
pub fn bearer(token: &str) -> (r: String)
    ensures
        r@ == "Bearer "@ + token@,
{
    let mut r = "Bearer ".to_owned();
    r.append(token);
    r
}

/// The pages.
#[derive(Debug)]
pub enum Page {
    /// All devices.
    Devices,
    /// One device.
    DeviceDetail { id: u64, name: String },
    /// A console.
    Console { id: u64, name: String },
    /// A medium.
    Media { id: u64, name: String },
    /// A medium with keyboard and mouse.
    Kvm { media_id: u64, keyboard_id: Option<u64>, mouse_id: Option<u64>, name: String },
}

/// What the user does on a page.
#[derive(Debug)]
pub enum PageEvent {
    /// Goes back to all devices.
    Back,
    /// Selects a device.
    DeviceSelected(u64, String),
    /// Opens a console.
    ConsoleOpened(u64, String),
    /// Opens a medium.
    MediaOpened(u64, String),
    /// Opens a medium with keyboard and mouse.
    KvmOpened(u64, Option<u64>, Option<u64>, String),
}

impl Page {
    /// Where the user gets to.
    pub fn after(event: PageEvent) -> (r: Page)
        ensures
            r == match event {
                PageEvent::Back => Page::Devices,
                PageEvent::DeviceSelected(id, name) => Page::DeviceDetail { id, name },
                PageEvent::ConsoleOpened(id, name) => Page::Console { id, name },
                PageEvent::MediaOpened(id, name) => Page::Media { id, name },
                PageEvent::KvmOpened(media_id, keyboard_id, mouse_id, name) => Page::Kvm {
                    media_id,
                    keyboard_id,
                    mouse_id,
                    name,
                },
            },
    {
        match event {
            PageEvent::Back => Page::Devices,
            PageEvent::DeviceSelected(id, name) => Page::DeviceDetail { id, name },
            PageEvent::ConsoleOpened(id, name) => Page::Console { id, name },
            PageEvent::MediaOpened(id, name) => Page::Media { id, name },
            PageEvent::KvmOpened(media_id, keyboard_id, mouse_id, name) => Page::Kvm {
                media_id,
                keyboard_id,
                mouse_id,
                name,
            },
        }
    }

    /// Whether the list of devices is marked as shown.
    pub fn marks_devices(&self) -> (r: bool)
        ensures
            r == (self is Devices),
    {
        match self {
            Page::Devices => true,
            _ => false,
        }
    }

    /// The heading of the page.
    pub fn heading(&self) -> (r: String)
        ensures
            r@ == match *self {
                Page::Devices => "Devices"@,
                Page::DeviceDetail { id, name } => name@,
                Page::Console { id, name } => "Console: "@ + name@,
                Page::Media { id, name } => "Media: "@ + name@,
                Page::Kvm { media_id, keyboard_id, mouse_id, name } => "KVM: "@ + name@,
            },
    {
        match self {
            Page::Devices => "Devices".to_owned(),
            Page::DeviceDetail { id, name } => name.clone(),
            Page::Console { id, name } => {
                let mut r = "Console: ".to_owned();
                r.append(name.as_str());
                r
            },
            Page::Media { id, name } => {
                let mut r = "Media: ".to_owned();
                r.append(name.as_str());
                r
            },
            Page::Kvm { media_id, keyboard_id, mouse_id, name } => {
                let mut r = "KVM: ".to_owned();
                r.append(name.as_str());
                r
            },
        }
    }
}

/// The list of devices: asked for, there, or not to be had.
#[derive(Debug)]
pub enum DeviceList {
    /// It was asked for.
    Loading,
    /// These are the devices.
    Loaded(Vec<ListedItem>),
    /// It could not be had.
    Failed(String),
}

impl DeviceList {
    /// The list after the server answered.
    pub fn answered(answer: Result<Vec<ListedItem>, String>) -> (r: DeviceList)
        ensures
            match answer {
                Ok(devices) => r == DeviceList::Loaded(devices),
                Err(error) => r is Failed && r->Failed_0@ == "Failed to list devices: "@ + error@,
            },
    {
        match answer {
            Ok(devices) => DeviceList::Loaded(devices),
            Err(error) => {
                let mut text = "Failed to list devices: ".to_owned();
                text.append(error.as_str());
                DeviceList::Failed(text)
            },
        }
    }

    /// Whether there is a table to show.
    pub fn shows_table(&self) -> (r: bool)
        ensures
            r == match *self {
                DeviceList::Loaded(devices) => devices@.len() > 0,
                _ => false,
            },
    {
        match self {
            DeviceList::Loaded(devices) => devices.len() > 0,
            _ => false,
        }
    }
}

/// A row of the list of devices.
#[derive(Debug)]
pub struct DeviceRow {
    /// Id of the device.
    pub id: String,
    /// Its name.
    pub name: String,
    /// The instance that it comes from.
    pub instance: String,
}

/// The row of a device.
pub fn device_row(device: &ListedItem) -> (r: DeviceRow)
    ensures
        r.id@ == decimal(device.id as nat),
        r.name@ == device.name@,
        r.instance@ == match device.instance {
            Some(instance) => instance@,
            None => "-"@,
        },
{
    let instance = match &device.instance {
        Some(instance) => instance.clone(),
        None => "-".to_owned(),
    };
    DeviceRow { id: crate::text::decimal_string(device.id), name: device.name.clone(), instance }
}

/// The button that changes the mode of a device.
#[derive(Debug)]
pub struct ModeButton {
    /// What it says.
    pub label: String,
    /// Whether it can be used.
    pub enabled: bool,
    /// Whether the device is in the mode.
    pub current: bool,
}

/// Whether the device is in a mode of that name.
pub open spec fn in_mode(info: DeviceInfo, name: Seq<char>) -> bool {
    match info.current_mode {
        Some(current) => current@ == name,
        None => false,
    }
}

/// Whether this is the button for a mode.
pub open spec fn is_mode_button(button: ModeButton, info: DeviceInfo, mode: DeviceModeInfo) -> bool {
    &&& button.current == in_mode(info, mode.name@)
    &&& button.enabled == (!in_mode(info, mode.name@) && mode.available)
    &&& button.label@ == if mode.available {
        mode.name@
    } else {
        mode.name@ + " (unavailable)"@
    }
}

/// The buttons that change the mode of a device, one for each mode.
pub fn mode_buttons(info: &DeviceInfo) -> (r: Vec<ModeButton>)
    ensures
        r@.len() == info.modes@.len(),
        forall|i: int|
            0 <= i < info.modes@.len() ==> is_mode_button(
                #[trigger] r@[i],
                *info,
                info.modes@[i],
            ),
{
    let mut r: Vec<ModeButton> = Vec::new();
    for i in 0..info.modes.len()
        invariant
            r@.len() == i,
            forall|j: int| 0 <= j < i ==> is_mode_button(#[trigger] r@[j], *info, info.modes@[j]),
    {
        let mode = &info.modes[i];
        let current = match &info.current_mode {
            Some(name) => str_eq(name.as_str(), mode.name.as_str()),
            None => false,
        };
        let mut label = mode.name.clone();
        if !mode.available {
            label.append(" (unavailable)");
        }
        r.push(ModeButton { label, enabled: !current && mode.available, current });
    }
    r
}

/// The mode that is shown for a device.
pub fn current_mode_text(info: &DeviceInfo) -> (r: String)
    ensures
        r@ == match info.current_mode {
            Some(mode) => mode@,
            None => "none"@,
        },
{
    match &info.current_mode {
        Some(mode) => mode.clone(),
        None => "none".to_owned(),
    }
}

/// The id of the first part whose item is there.
pub open spec fn first_id(parts: Seq<DevicePart>) -> Option<u64>
    decreases parts.len(),
{
    if parts.len() == 0 {
        None
    } else if parts[0].id is Some {
        parts[0].id
    } else {
        first_id(parts.skip(1))
    }
}

/// The id of the first part whose item is there.
pub fn first_available(parts: &Vec<DevicePart>) -> (r: Option<u64>)
    ensures
        r == first_id(parts@),
{
    assert(parts@.skip(0) =~= parts@);
    for i in 0..parts.len()
        invariant
            first_id(parts@) == first_id(parts@.skip(i as int)),
    {
        proof {
            assert(parts@.skip(i as int)[0] == parts@[i as int]);
            assert(parts@.skip(i as int).skip(1) =~= parts@.skip(i + 1));
        }
        if parts[i].id.is_some() {
            return parts[i].id;
        }
    }
    None
}

/// What can be opened for a medium.
#[derive(Copy, Clone, Debug, PartialEq, Eq, Structural)]
pub enum MediaOffer {
    /// Nothing: it is not there.
    Offline,
    /// The video.
    View { media_id: u64 },
    /// The video, also with keyboard or mouse.
    Kvm { media_id: u64, keyboard_id: Option<u64>, mouse_id: Option<u64> },
}

/// What can be opened for a medium of a device: with a keyboard or a mouse where one is there.
pub open spec fn offered(info: DeviceInfo, medium: DevicePart) -> MediaOffer {
    let keyboard_id = first_id(info.keyboards@);
    let mouse_id = first_id(info.mice@);
    match medium.id {
        None => MediaOffer::Offline,
        Some(media_id) => if keyboard_id is Some || mouse_id is Some {
            MediaOffer::Kvm { media_id, keyboard_id, mouse_id }
        } else {
            MediaOffer::View { media_id }
        },
    }
}

/// What can be opened for each medium of a device.
pub fn media_offers(info: &DeviceInfo) -> (r: Vec<MediaOffer>)
    ensures
        r@ == info.media@.map_values(|medium: DevicePart| offered(*info, medium)),
{
    let keyboard_id = first_available(&info.keyboards);
    let mouse_id = first_available(&info.mice);
    let mut r: Vec<MediaOffer> = Vec::new();
    for i in 0..info.media.len()
        invariant
            keyboard_id == first_id(info.keyboards@),
            mouse_id == first_id(info.mice@),
            r@.len() == i,
            forall|j: int| 0 <= j < i ==> #[trigger] r@[j] == offered(*info, info.media@[j]),
    {
        let offer = match info.media[i].id {
            None => MediaOffer::Offline,
            Some(media_id) => if keyboard_id.is_some() || mouse_id.is_some() {
                MediaOffer::Kvm { media_id, keyboard_id, mouse_id }
            } else {
                MediaOffer::View { media_id }
            },
        };
        r.push(offer);
    }
    assert(r@ =~= info.media@.map_values(|medium: DevicePart| offered(*info, medium)));
    r
}

/// What is said of a part whose item is not there.
pub fn part_label(part: &DevicePart) -> (r: String)
    ensures
        r@ == if part.id is Some {
            part.name@
        } else {
            part.name@ + " (offline)"@
        },
{
    let mut r = part.name.clone();
    if part.id.is_none() {
        r.append(" (offline)");
    }
    r
}

/// What has to be done to show a medium.
#[derive(Copy, Clone, Debug, PartialEq, Eq, Structural)]
pub enum ViewerSetup {
    /// Open the keyboard.
    OpenKeyboard(u64),
    /// Open the mouse.
    OpenMouse(u64),
    /// Make this end of the stream of pictures.
    CreatePeer,
    /// Open the medium.
    OpenMedia(u64),
}

/// What has to be done to show a medium, in this order.
pub open spec fn setup_of(media_id: u64, keyboard_id: Option<u64>, mouse_id: Option<u64>) -> Seq<
    ViewerSetup,
> {
    let keyboard = match keyboard_id {
        Some(id) => seq![ViewerSetup::OpenKeyboard(id)],
        None => Seq::empty(),
    };
    let mouse = match mouse_id {
        Some(id) => seq![ViewerSetup::OpenMouse(id)],
        None => Seq::empty(),
    };
    keyboard + mouse + seq![ViewerSetup::CreatePeer, ViewerSetup::OpenMedia(media_id)]
}

/// What has to be done to show a medium, in this order.
pub fn viewer_setup(media_id: u64, keyboard_id: Option<u64>, mouse_id: Option<u64>) -> (r: Vec<
    ViewerSetup,
>)
    ensures
        r@ == setup_of(media_id, keyboard_id, mouse_id),
{
    let mut r: Vec<ViewerSetup> = Vec::new();
    if let Some(id) = keyboard_id {
        r.push(ViewerSetup::OpenKeyboard(id));
    }
    if let Some(id) = mouse_id {
        r.push(ViewerSetup::OpenMouse(id));
    }
    r.push(ViewerSetup::CreatePeer);
    r.push(ViewerSetup::OpenMedia(media_id));
    assert(r@ =~= setup_of(media_id, keyboard_id, mouse_id));
    r
}

/// What happens while a medium is shown.
#[derive(Debug)]
pub enum ViewerEvent {
    /// The pictures come.
    Connected,
    /// The server closed the connection.
    Closed,
    /// The connection could not be made.
    Failed(String),
    /// The lights of the keyboard.
    Leds(Vec<String>),
    /// The user changes whether the video fills the window.
    FillToggled,
    /// The user restores the size of the video.
    Restored,
}

/// What a page that shows a medium shows.
#[derive(Debug)]
pub struct MediaViewer {
    /// How things are.
    pub status: String,
    /// Whether pictures come.
    pub connected: bool,
    /// The lights of the keyboard.
    pub led_names: Vec<String>,
    /// Whether the video fills the window.
    pub fill_window: bool,
}

impl MediaViewer {
    /// Before anything happened.
    pub fn new() -> (r: Self)
        ensures
            r.status@ == "Connecting..."@,
            !r.connected,
            r.led_names@ == Seq::<String>::empty(),
            !r.fill_window,
    {
        MediaViewer {
            status: "Connecting...".to_owned(),
            connected: false,
            led_names: Vec::new(),
            fill_window: false,
        }
    }

    /// Takes an event in. Returned is whether this end of the stream of pictures is given up.
    pub fn on_event(&mut self, event: ViewerEvent) -> (dispose: bool)
        ensures
            dispose == (event is Closed || event is Failed),
            final(self).status@ == match event {
                ViewerEvent::Connected => "Connected"@,
                ViewerEvent::Closed => "Disconnected"@,
                ViewerEvent::Failed(error) => "Connection failed: "@ + error@,
                _ => old(self).status@,
            },
            final(self).connected == match event {
                ViewerEvent::Connected => true,
                ViewerEvent::Closed => false,
                _ => old(self).connected,
            },
            final(self).led_names == match event {
                ViewerEvent::Leds(names) => names,
                _ => old(self).led_names,
            },
            final(self).fill_window == match event {
                ViewerEvent::FillToggled => !old(self).fill_window,
                ViewerEvent::Restored => false,
                _ => old(self).fill_window,
            },
    {
        match event {
            ViewerEvent::Connected => {
                self.connected = true;
                self.status = "Connected".to_owned();
                false
            },
            ViewerEvent::Closed => {
                self.connected = false;
                self.status = "Disconnected".to_owned();
                true
            },
            ViewerEvent::Failed(error) => {
                let mut status = "Connection failed: ".to_owned();
                status.append(error.as_str());
                self.status = status;
                true
            },
            ViewerEvent::Leds(names) => {
                self.led_names = names;
                false
            },
            ViewerEvent::FillToggled => {
                self.fill_window = !self.fill_window;
                false
            },
            ViewerEvent::Restored => {
                self.fill_window = false;
                false
            },
        }
    }
}

/// The id of an element of a page for an item.
pub fn element_id(prefix: &str, id: u64) -> (r: String)
    ensures
        r@ == prefix@ + decimal(id as nat),
{
    let mut r = prefix.to_owned();
    append_decimal(&mut r, id);
    r
}

/// What a key sends to the keyboard of a device: nothing while there is no keyboard, for a key
/// that is not known, or where the key just repeats.
pub fn key_message(type_: KeyboardEventType, repeats: bool, usage: Option<u8>, keyboard: bool) -> (r:
    Option<KeyboardMessage>)
    ensures
        r == if type_ == KeyboardEventType::KeyDown && repeats {
            None
        } else {
            match usage {
                Some(usage) => if keyboard {
                    Some(KeyboardMessage::Event(type_, usage as u32))
                } else {
                    None
                },
                None => None,
            }
        },
{
    let down = match type_ {
        KeyboardEventType::KeyDown => true,
        KeyboardEventType::KeyUp => false,
    };
    if down && repeats {
        return None;
    }
    match usage {
        Some(usage) => if keyboard {
            Some(KeyboardMessage::Event(type_, usage as u32))
        } else {
            None
        },
        None => None,
    }
}

/// The buttons of the pointer, one bit each.
pub open spec fn buttons_of(primary: bool, secondary: bool, auxiliary: bool) -> u32 {
    ((if primary {
        1int
    } else {
        0
    }) + (if secondary {
        2int
    } else {
        0
    }) + (if auxiliary {
        4int
    } else {
        0
    })) as u32
}

/// The buttons of the pointer that are held, one bit each.
pub fn build_buttons(primary: bool, secondary: bool, auxiliary: bool) -> (r: u32)
    ensures
        r == buttons_of(primary, secondary, auxiliary),
{
    let mut buttons: u32 = 0;
    if primary {
        buttons = buttons + 1;
    }
    if secondary {
        buttons = buttons + 2;
    }
    if auxiliary {
        buttons = buttons + 4;
    }
    buttons
}

/// A number between the two limits.
pub open spec fn clamped(n: int) -> int {
    if n < -127 {
        -127
    } else if n > 127 {
        127
    } else {
        n
    }
}

fn clamp(n: i32) -> (r: i32)
    ensures
        r == clamped(n as int),
{
    if n < -127 {
        -127
    } else if n > 127 {
        127
    } else {
        n
    }
}

/// How the wheel turns, down and across, for the directions in which the page was scrolled.
pub fn wheel_steps(across: i32, down: i32) -> (r: (i32, i32))
    requires
        down > i32::MIN,
    ensures
        r.0 == clamped(-down),
        r.1 == clamped(across as int),
{
    (clamp(-down), clamp(across))
}

/// What the pointer sends to the mouse of a device: nothing while there is no mouse, or where
/// the position is not known.
pub fn mouse_message(
    mouse: bool,
    position: Option<(u32, u32)>,
    buttons: u32,
    wheel: (i32, i32),
) -> (r: Option<MouseMessage>)
    ensures
        r == match position {
            Some((x, y)) => if mouse {
                Some(MouseMessage::Input(buttons, x, y, wheel.0, wheel.1))
            } else {
                None
            },
            None => None,
        },
{
    match position {
        Some((x, y)) => if mouse {
            Some(MouseMessage::Input(buttons, x, y, wheel.0, wheel.1))
        } else {
            None
        },
        None => None,
    }
}

/// Where a way to log in leads to.
pub fn login_url(info: &LoginInfo, origin: &str, code_verifier: &str) -> (r: String)
    ensures
        match info.method {
            AuthMethod::Oidc { url, client_id } => r@ == url@
                + "/authorize?response_type=code&client_id="@ + client_id@ + "&redirect_uri="@ + (
            origin@ + "/"@) + "&scope=openid&code_challenge="@ + code_verifier@
                + "&code_challenge_method=plain&state=boardswarm"@,
        },
{
    match &info.method {
        AuthMethod::Oidc { url, client_id } => authorize_url(
            url.as_str(),
            client_id.as_str(),
            origin,
            code_verifier,
        ),
    }
}

/// The token of an answer that starts with it is found, whatever comes behind.
pub proof fn law_token_is_found(token: Seq<char>, tail: Seq<char>)
    requires
        !token.contains('"'),
    ensures
        token_in("{\"access_token\":\""@ + token + "\""@ + tail) == Some(token),
{
    let field = "\"access_token\""@;
    let quote = "\""@;
    let head = "{\"access_token\":\""@;
    let json = head + token + quote + tail;
    reveal_strlit("\"access_token\"");
    reveal_strlit("\"");
    reveal_strlit("{\"access_token\":\"");
    assert(!occurs_at(json, field, 0)) by {
        assert(json.subrange(0, 14)[0] == '{');
        assert(field[0] == '"');
    }
    assert(json.subrange(1, 15) =~= field);
    reveal_with_fuel(first_from, 3);
    assert(first_occurrence(json, field) == Some(1int));
    let rest = json.skip(16);
    assert(rest.subrange(0, 1) =~= quote);
    assert(first_occurrence(rest, quote) == Some(0int));
    let inner = rest.skip(1);
    assert(inner =~= token + quote + tail);
    assert forall|j: int| 0 <= j < token.len() implies inner[j] != '"' by {
        if inner[j] == '"' {
            assert(token[j] == '"');
            assert(token.contains('"'));
        }
    }
    assert(inner[token.len() as int] == '"');
    lemma_first_quote(inner, token.len() as int, 0);
    assert(rest.subrange(1, 1 + token.len() as int) =~= token);
}

proof fn lemma_first_quote(s: Seq<char>, at: int, from: int)
    requires
        0 <= from <= at < s.len(),
        s[at] == '"',
        forall|j: int| from <= j < at ==> s[j] != '"',
    ensures
        first_from(s, "\""@, from) == Some(at),
    decreases at - from,
{
    reveal_strlit("\"");
    if from == at {
        assert(s.subrange(at, at + 1) =~= "\""@);
    } else {
        assert(!occurs_at(s, "\""@, from)) by {
            assert(s.subrange(from, from + 1)[0] == s[from]);
        }
        lemma_first_quote(s, at, from + 1);
    }
}

/// What the pointer sends from within the range of the mouse, the server takes.
pub proof fn law_server_takes_pointer(
    primary: bool,
    secondary: bool,
    auxiliary: bool,
    x: u32,
    y: u32,
    across: int,
    down: int,
)
    requires
        x <= 32767,
        y <= 32767,
    ensures
        mouse_refusal(
            buttons_of(primary, secondary, auxiliary),
            x,
            y,
            clamped(-down) as i32,
            clamped(across) as i32,
        ) is None,
{
}

/// A secret is made of digits and small letters, and no two numbers stand for the same one.
pub proof fn law_secret_chars(a: u8, b: u8)
    requires
        a < 36,
        b < 36,
    ensures
        ('0' <= secret_char(a) && secret_char(a) <= '9') || ('a' <= secret_char(a) && secret_char(a)
            <= 'z'),
        secret_char(a) == secret_char(b) ==> a == b,
        a < b ==> secret_char(a) < secret_char(b),
        digit_value(secret_char(a), 36) == Some(a as nat),
{
}

/// A token is found only in an answer that names it, and has no quotes in it.
pub proof fn law_tokens_are_quoted(json: Seq<char>)
    requires
        first_occurrence(json, "\"access_token\""@) matches Some(at) ==> at + 14 < json.len(),
    ensures
        !occurs(json, "\"access_token\""@) ==> token_in(json) is None,
        token_in(json) matches Some(token) ==> !token.contains('"') && occurs(
            json,
            "\""@ + token + "\""@,
        ),
{
    let field = "\"access_token\""@;
    let quote = "\""@;
    reveal_strlit("\"");
    reveal_strlit("\"access_token\"");
    lemma_first_occurrence(json, field);
    if let Some(at) = first_occurrence(json, field) {
        assert(occurs(json, field));
        let rest = json.skip(at + 15);
        lemma_first_occurrence(rest, quote);
        if let Some(open) = first_occurrence(rest, quote) {
            let inner = rest.skip(open + 1);
            law_first_occurrence_is_first(inner, quote, 0);
            if let Some(end) = first_occurrence(inner, quote) {
                law_first_occurrence_is_first(inner, quote, end);
                lemma_first_occurrence(inner, quote);
                let token = rest.subrange(open + 1, open + 1 + end);
                assert forall|j: int| 0 <= j < token.len() implies token[j] != '"' by {
                    assert(token[j] == inner[j]);
                    if inner[j] == '"' {
                        assert(inner.subrange(j, j + 1) =~= quote);
                        assert(occurs_at(inner, quote, j));
                    }
                }
                assert(rest.subrange(open, open + 1)[0] == '"');
                assert(inner.subrange(end, end + 1)[0] == '"');
                let from = at + 15 + open;
                let quoted = quote + token + quote;
                assert(json.subrange(from, from + quoted.len()) =~= quoted);
                assert(occurs_at(json, quoted, from));
            }
        }
    }
}

/// The mode that a device is in is marked and cannot be chosen; another one can be chosen exactly
/// if it is available.
pub proof fn law_mode_buttons(button: ModeButton, info: DeviceInfo, mode: DeviceModeInfo)
    requires
        is_mode_button(button, info, mode),
    ensures
        button.current <==> info.current_mode is Some && info.current_mode->0@ == mode.name@,
        !(button.current && button.enabled),
        !button.current ==> button.enabled == mode.available,
        mode.name@.is_prefix_of(button.label@),
        button.label@.len() == mode.name@.len() <==> mode.available,
{
    reveal_strlit(" (unavailable)");
    assert(button.label@.take(mode.name@.len() as int) =~= mode.name@);
}

/// Of several parts that are there the first is meant.
pub proof fn law_first_id_is_meant(parts: Seq<DevicePart>, i: int)
    ensures
        0 <= i < parts.len() && parts[i].id is Some && (forall|j: int|
            0 <= j < i ==> (#[trigger] parts[j]).id is None) ==> first_id(parts) == parts[i].id,
        (forall|j: int| 0 <= j < parts.len() ==> (#[trigger] parts[j]).id is None) ==> first_id(
            parts,
        ) is None,
    decreases parts.len(),
{
    if parts.len() > 0 && parts[0].id is None {
        let rest = parts.skip(1);
        law_first_id_is_meant(rest, i - 1);
        if forall|j: int| 0 <= j < parts.len() ==> (#[trigger] parts[j]).id is None {
            assert forall|j: int| 0 <= j < rest.len() implies (#[trigger] rest[j]).id is None by {
                assert(parts[j + 1].id is None);
            }
        }
        if 0 < i < parts.len() && (forall|j: int|
            0 <= j < i ==> (#[trigger] parts[j]).id is None) {
            assert forall|j: int| 0 <= j < i - 1 implies (#[trigger] rest[j]).id is None by {
                assert(parts[j + 1].id is None);
            }
        }
    }
}

/// A medium that is there can be seen, together with a keyboard or a mouse where there is one.
pub proof fn law_offers(info: DeviceInfo, medium: DevicePart)
    ensures
        offered(info, medium) is Offline <==> medium.id is None,
        offered(info, medium) matches MediaOffer::View { media_id } ==> {
            &&& medium.id == Some(media_id)
            &&& first_id(info.keyboards@) is None
            &&& first_id(info.mice@) is None
        },
        offered(info, medium) matches MediaOffer::Kvm { media_id, keyboard_id, mouse_id } ==> {
            &&& medium.id == Some(media_id)
            &&& keyboard_id == first_id(info.keyboards@)
            &&& mouse_id == first_id(info.mice@)
            &&& keyboard_id is Some || mouse_id is Some
        },
{
}

/// What a viewer needs is set up in turn: what it types and points with as far as there is any, its
/// end of the connection, and the medium as the last.
pub proof fn law_viewer_is_set_up(media_id: u64, keyboard_id: Option<u64>, mouse_id: Option<u64>)
    ensures
        ({
            let steps = setup_of(media_id, keyboard_id, mouse_id);
            &&& steps.last() == ViewerSetup::OpenMedia(media_id)
            &&& steps[steps.len() - 2] is CreatePeer
            &&& keyboard_id matches Some(id) ==> steps[0] == ViewerSetup::OpenKeyboard(id)
            &&& mouse_id matches Some(id) ==> steps[steps.len() - 3] == ViewerSetup::OpenMouse(id)
            &&& steps.len() == 2 + (if keyboard_id is Some {
                1int
            } else {
                0
            }) + (if mouse_id is Some {
                1int
            } else {
                0
            })
        }),
{
}

/// Each button has a bit of its own: the first, the second and the third of the number.
pub proof fn law_buttons_are_bits(primary: bool, secondary: bool, auxiliary: bool)
    ensures
        buttons_of(primary, secondary, auxiliary) % 2 == 1 <==> primary,
        (buttons_of(primary, secondary, auxiliary) / 2) % 2 == 1 <==> secondary,
        (buttons_of(primary, secondary, auxiliary) / 4) % 2 == 1 <==> auxiliary,
        buttons_of(primary, secondary, auxiliary) < 8,
{
}

/// Steps of the wheel are kept as far as they fit, and are otherwise as many as fit.
pub proof fn law_wheel_steps_fit(n: int, m: int)
    ensures
        -127 <= clamped(n) <= 127,
        -127 <= n <= 127 ==> clamped(n) == n,
        n <= m ==> clamped(n) <= clamped(m),
        clamped(-n) == -clamped(n),
        n > 127 ==> clamped(n) == 127,
{
}

} // verus!
