//! The client side: the servers that are configured and how to log in there, and the devices of
//! a server with their parts.

use vstd::prelude::*;

use crate::directory::ItemEvent;
use crate::remote::{DeviceInfo, DevicePart};
use crate::server::{AuthMethod, ListedItem, LoginInfo};
use crate::status::{is_status, Code, Status};
use crate::text::{str_eq, trim, trimmed};

verus! {

/// How to log in at a server.
#[derive(Debug)]
pub enum Auth {
    /// With a token.
    Token(String),
    /// With an identity provider.
    Oidc {
        /// Where it is.
        uri: String,
        /// The id of the client there.
        client_id: String,
        /// File that tokens are kept in.
        token_cache: String,
    },
}

impl Auth {
    /// A token as it is found in a configuration, where space around it does not count.
    pub fn token(text: &str) -> (r: Auth)
        ensures
            r is Token,
            r->Token_0@ == trimmed(text@),
    {
        Auth::Token(trim(text))
    }
}

/// A server that is configured.
#[derive(Debug)]
pub struct Server {
    /// What it is called.
    pub name: String,
    /// Where it is.
    pub uri: String,
    /// How to log in there.
    pub auth: Auth,
}

/// The place of the first server with the name.
pub open spec fn place_of(servers: Seq<Server>, name: Seq<char>) -> Option<int>
    decreases servers.len(),
{
    if servers.len() == 0 {
        None
    } else if servers[0].name@ == name {
        Some(0)
    } else {
        match place_of(servers.skip(1), name) {
            Some(i) => Some(i + 1),
            None => None,
        }
    }
}

/// Where the first server with a name stands, and that it is the first.
pub proof fn lemma_place_of(servers: Seq<Server>, name: Seq<char>)
    ensures
        match place_of(servers, name) {
            Some(i) => 0 <= i < servers.len() && servers[i].name@ == name && forall|j: int|
                0 <= j < i ==> (#[trigger] servers[j]).name@ != name,
            None => forall|j: int|
                0 <= j < servers.len() ==> (#[trigger] servers[j]).name@ != name,
        },
    decreases servers.len(),
{
    if servers.len() > 0 && servers[0].name@ != name {
        lemma_place_of(servers.skip(1), name);
        match place_of(servers.skip(1), name) {
            Some(i) => {
                assert forall|j: int| 0 <= j < i + 1 implies (#[trigger] servers[j]).name@
                    != name by {
                    if j > 0 {
                        assert(servers.skip(1)[j - 1] == servers[j]);
                    }
                }
            },
            None => {
                assert forall|j: int| 0 <= j < servers.len() implies (#[trigger] servers[j]).name@
                    != name by {
                    if j > 0 {
                        assert(servers.skip(1)[j - 1] == servers[j]);
                    }
                }
            },
        }
    }
}

proof fn lemma_place_is(servers: Seq<Server>, name: Seq<char>, at: int)
    requires
        0 <= at < servers.len(),
        servers[at].name@ == name,
        forall|j: int| 0 <= j < at ==> (#[trigger] servers[j]).name@ != name,
    ensures
        place_of(servers, name) == Some(at),
{
    lemma_place_of(servers, name);
    let found = place_of(servers, name)->0;
    assert(servers[at].name@ == name);
    if found < at {
        assert(servers[found].name@ != name);
    }
}

/// The servers without those of a name.
pub open spec fn without(servers: Seq<Server>, name: Seq<char>) -> Seq<Server>
    decreases servers.len(),
{
    if servers.len() == 0 {
        Seq::empty()
    } else if servers.last().name@ == name {
        without(servers.drop_last(), name)
    } else {
        without(servers.drop_last(), name).push(servers.last())
    }
}

/// The servers with the first one of a name in front, in exchange for the one that was there.
pub open spec fn fronted(servers: Seq<Server>, name: Seq<char>) -> Seq<Server> {
    match place_of(servers, name) {
        Some(i) => servers.update(0, servers[i]).update(i, servers[0]),
        None => servers,
    }
}

/// The servers that are configured. The first one is the default.
#[derive(Debug)]
pub struct Config {
    path: String,
    servers: Vec<Server>,
}

impl Config {
    /// The servers.
    pub closed spec fn list(self) -> Seq<Server> {
        self.servers@
    }

    /// File of the configuration.
    pub closed spec fn file(self) -> Seq<char> {
        self.path@
    }

    /// Without any servers.
    pub fn new(path: String) -> (r: Self)
        ensures
            r.file() == path@,
            r.list() == Seq::<Server>::empty(),
    {
        Config { path, servers: Vec::new() }
    }

    /// With the servers that were found in a file.
    pub fn from_servers(servers: Vec<Server>, path: String) -> (r: Self)
        ensures
            r.file() == path@,
            r.list() == servers@,
    {
        Config { path, servers }
    }

    /// The server that is used where none is named.
    pub fn default_server(&self) -> (r: Option<&Server>)
        ensures
            match r {
                Some(server) => self.list().len() > 0 && *server == self.list()[0],
                None => self.list().len() == 0,
            },
    {
        if self.servers.len() > 0 {
            Some(&self.servers[0])
        } else {
            None
        }
    }

    fn position(&self, name: &str) -> (r: Option<usize>)
        ensures
            match r {
                Some(i) => place_of(self.list(), name@) == Some(i as int) && i < self.list().len(),
                None => place_of(self.list(), name@) is None,
            },
    {
        for i in 0..self.servers.len()
            invariant
                forall|j: int| 0 <= j < i ==> (#[trigger] self.servers@[j]).name@ != name@,
        {
            if str_eq(self.servers[i].name.as_str(), name) {
                proof {
                    lemma_place_is(self.servers@, name@, i as int);
                }
                return Some(i);
            }
        }
        proof {
            lemma_place_of(self.servers@, name@);
        }
        None
    }

    /// The first server with the name.
    pub fn find_server(&self, name: &str) -> (r: Option<&Server>)
        ensures
            match place_of(self.list(), name@) {
                Some(i) => r is Some && *r->0 == self.list()[i],
                None => r is None,
            },
    {
        match self.position(name) {
            Some(i) => Some(&self.servers[i]),
            None => None,
        }
    }

    /// The server that is used where none is named, to be changed.
    pub fn default_server_mut(&mut self) -> (r: Option<&mut Server>)
        ensures
            final(self).file() == old(self).file(),
            match r {
                Some(server) => old(self).list().len() > 0 && *server == old(self).list()[0]
                    && final(self).list() == old(self).list().update(0, *final(server)),
                None => old(self).list().len() == 0 && *final(self) == *old(self),
            },
    {
        if self.servers.len() > 0 {
            Some(&mut self.servers[0])
        } else {
            None
        }
    }

    /// The first server with the name, to be changed.
    pub fn find_server_mut(&mut self, name: &str) -> (r: Option<&mut Server>)
        ensures
            final(self).file() == old(self).file(),
            match r {
                Some(server) => place_of(old(self).list(), name@) is Some && *server == old(self).list()[place_of(old(self).list(), name@)->0] && final(self).list() == old(self).list().update(place_of(old(self).list(), name@)->0, *final(server)),
                None => place_of(old(self).list(), name@) is None && *final(self) == *old(self),
            },
    {
        match self.position(name) {
            Some(i) => Some(&mut self.servers[i]),
            None => None,
        }
    }

    /// Adds a server behind all others.
    pub fn add_server(&mut self, server: Server)
        ensures
            final(self).file() == old(self).file(),
            final(self).list() == old(self).list().push(server),
    {
        self.servers.push(server);
    }

    /// Removes the servers with the name.
    pub fn remove_server(&mut self, name: &str)
        ensures
            final(self).file() == old(self).file(),
            final(self).list() == without(old(self).list(), name@),
    {
        let mut all: Vec<Server> = Vec::new();
        std::mem::swap(&mut self.servers, &mut all);
        let ghost before = all@;
        assert(before.take(0) =~= Seq::empty());
        for server in it: all
            invariant
                it.seq() == before,
                self.file() == old(self).file(),
                self.servers@ == without(before.take(it.index() as int), name@),
        {
            let ghost i = it.index() as int;
            proof {
                assert(before.take(i + 1).drop_last() =~= before.take(i));
                assert(before.take(i + 1).last() == server);
            }
            if !str_eq(server.name.as_str(), name) {
                self.servers.push(server);
            }
        }
        assert(before.take(before.len() as int) =~= before);
    }

    /// Makes the first server with the name the default. Without one nothing changes.
    pub fn set_default(&mut self, name: &str)
        ensures
            final(self).file() == old(self).file(),
            final(self).list() == fronted(old(self).list(), name@),
    {
        match self.position(name) {
            Some(i) => {
                if i > 0 {
                    let ghost before = self.servers@;
                    let named = self.servers.remove(i);
                    let first = self.servers.remove(0);
                    self.servers.insert(0, named);
                    self.servers.insert(i, first);
                    assert(self.servers@ =~= before.update(0, before[i as int]).update(
                        i as int,
                        before[0],
                    ));
                } else {
                    assert(self.servers@.update(0, self.servers@[0]).update(0, self.servers@[0])
                        =~= self.servers@);
                }
            },
            None => {},
        }
    }

    /// All servers, the default first.
    pub fn servers(&self) -> (r: &Vec<Server>)
        ensures
            r@ == self.list(),
    {
        &self.servers
    }

    /// File of the configuration.
    pub fn path(&self) -> (r: &str)
        ensures
            r@ == self.file(),
    {
        self.path.as_str()
    }
}

/// A server that is made the default is the one that is used where none is named.
pub proof fn law_set_default(servers: Seq<Server>, name: Seq<char>)
    requires
        place_of(servers, name) is Some,
    ensures
        fronted(servers, name).len() == servers.len(),
        fronted(servers, name)[0].name@ == name,
        fronted(servers, name).to_multiset() == servers.to_multiset(),
{
    lemma_place_of(servers, name);
    let i = place_of(servers, name)->0;
    let after = fronted(servers, name);
    assert(after[0] == servers[i]);
    let once = servers.update(0, servers[i]);
    vstd::seq_lib::to_multiset_update(servers, 0, servers[i]);
    vstd::seq_lib::to_multiset_update(once, i, servers[0]);
    vstd::seq_lib::to_multiset_contains(servers, servers[0]);
    assert(after.to_multiset() =~= servers.to_multiset());
}

/// A name that was removed is found no more, and all other names are found as before.
pub proof fn law_removed_is_not_found(servers: Seq<Server>, name: Seq<char>, other: Seq<char>)
    ensures
        place_of(without(servers, name), name) is None,
        other != name ==> (place_of(without(servers, name), other) is Some <==> place_of(
            servers,
            other,
        ) is Some),
{
    lemma_without(servers, name);
    lemma_place_of(without(servers, name), name);
    lemma_place_of(without(servers, name), other);
    lemma_place_of(servers, other);
    let left = without(servers, name);
    if other != name {
        if place_of(servers, other) is Some {
            let i = place_of(servers, other)->0;
            assert(servers.contains(servers[i]));
            assert(left.contains(servers[i]));
            let j = choose|j: int| 0 <= j < left.len() && left[j] == servers[i];
            assert(left[j].name@ == other);
        }
        if place_of(left, other) is Some {
            let j = place_of(left, other)->0;
            assert(left.contains(left[j]));
            let i = choose|i: int| 0 <= i < servers.len() && servers[i] == left[j];
            assert(servers[i].name@ == other);
        }
    }
    if place_of(left, name) is Some {
        let j = place_of(left, name)->0;
        assert(left.contains(left[j]));
    }
}

proof fn lemma_without(servers: Seq<Server>, name: Seq<char>)
    ensures
        forall|s: Server|
            #![trigger without(servers, name).contains(s)]
            without(servers, name).contains(s) <==> servers.contains(s) && s.name@ != name,
    decreases servers.len(),
{
    if servers.len() > 0 {
        let rest = servers.drop_last();
        let last = servers.last();
        lemma_without(rest, name);
        assert forall|s: Server|
            #![trigger without(servers, name).contains(s)]
            without(servers, name).contains(s) <==> servers.contains(s) && s.name@ != name by {
            assert(servers =~= rest.push(last));
            lemma_push_has(rest, last, s);
            lemma_push_has(without(rest, name), last, s);
            assert(without(rest, name).contains(s) <==> rest.contains(s) && s.name@ != name);
        }
    }
}

proof fn lemma_push_has(s: Seq<Server>, x: Server, e: Server)
    ensures
        s.push(x).contains(e) <==> s.contains(e) || e == x,
{
    if s.contains(e) {
        let i = choose|i: int| 0 <= i < s.len() && s[i] == e;
        assert(s.push(x)[i] == e);
    }
    assert(s.push(x)[s.len() as int] == x);
}

/// A server that was added is found, unless one of the same name came before.
pub proof fn law_added_is_found(servers: Seq<Server>, server: Server)
    requires
        place_of(servers, server.name@) is None,
    ensures
        place_of(servers.push(server), server.name@) == Some(servers.len() as int),
{
    lemma_place_of(servers, server.name@);
    assert forall|j: int| 0 <= j < servers.len() implies (#[trigger] servers.push(server)[j]).name@
        != server.name@ by {
        assert(servers[j].name@ != server.name@);
    }
    lemma_place_is(servers.push(server), server.name@, servers.len() as int);
}

/// Who a client is to a server.
#[derive(Debug)]
pub enum Authenticator {
    /// Nobody.
    NoAuth,
    /// The holder of a token.
    Token(String),
    /// Someone whom an identity provider knows.
    Oidc,
}

impl Authenticator {
    /// For the way to log in at a server, if there is any.
    pub fn new(auth: &Option<Auth>) -> (r: Self)
        ensures
            match *auth {
                None => r is NoAuth,
                Some(Auth::Token(token)) => r is Token && r->Token_0@ == token@,
                Some(Auth::Oidc { uri, client_id, token_cache }) => r is Oidc,
            },
    {
        match auth {
            None => Authenticator::NoAuth,
            Some(Auth::Token(token)) => Authenticator::Token(token.clone()),
            Some(Auth::Oidc { uri, client_id, token_cache }) => Authenticator::Oidc,
        }
    }

    /// The token for requests, if there is one. The identity provider may not have given any.
    pub fn token(&self, provided: Option<String>) -> (r: Option<String>)
        ensures
            match *self {
                Authenticator::NoAuth => r is None,
                Authenticator::Token(token) => r is Some && r->0@ == token@,
                Authenticator::Oidc => r == provided,
            },
    {
        match self {
            Authenticator::NoAuth => None,
            Authenticator::Token(token) => Some(token.clone()),
            Authenticator::Oidc => provided,
        }
    }
}

/// What a request carries for the holder of a token, without the space around it.
pub fn authorization(token: &str) -> (r: String)
    ensures
        r@ == "Bearer "@ + trimmed(token@),
{
    let mut r = "Bearer ".to_owned();
    r.append(trim(token).as_str());
    r
}

/// The ways to log in that a server tells of; those that are not known are left out.
pub open spec fn known_logins(told: Seq<(String, Option<AuthMethod>)>) -> Seq<LoginInfo>
    decreases told.len(),
{
    if told.len() == 0 {
        Seq::empty()
    } else {
        let rest = known_logins(told.drop_last());
        match told.last().1 {
            Some(method) => rest.push(LoginInfo { description: told.last().0, method }),
            None => rest,
        }
    }
}

/// The ways to log in that a server tells of; those that are not known are left out.
pub fn login_info(told: Vec<(String, Option<AuthMethod>)>) -> (r: Vec<LoginInfo>)
    ensures
        r@ == known_logins(told@),
{
    let mut r: Vec<LoginInfo> = Vec::new();
    let ghost all = told@;
    assert(all.take(0) =~= Seq::empty());
    for entry in it: told
        invariant
            it.seq() == all,
            r@ == known_logins(all.take(it.index() as int)),
    {
        let ghost i = it.index() as int;
        proof {
            assert(all.take(i + 1).drop_last() =~= all.take(i));
            assert(all.take(i + 1).last() == entry);
        }
        let (description, method) = entry;
        if let Some(method) = method {
            r.push(LoginInfo { description, method });
        }
    }
    assert(all.take(all.len() as int) =~= all);
    r
}

/// What a client hears of a message about changes: nothing of an empty one.
pub fn heard_event(message: Result<Option<ItemEvent>, Status>) -> (r: Option<
    Result<ItemEvent, Status>,
>)
    ensures
        r == match message {
            Ok(Some(event)) => Some(Ok::<ItemEvent, Status>(event)),
            Ok(None) => None,
            Err(status) => Some(Err::<ItemEvent, Status>(status)),
        },
{
    match message {
        Ok(Some(event)) => Some(Ok(event)),
        Ok(None) => None,
        Err(status) => Some(Err(status)),
    }
}

/// The id of the first item with the name.
pub open spec fn id_by_name(items: Seq<ListedItem>, name: Seq<char>) -> Option<u64>
    decreases items.len(),
{
    if items.len() == 0 {
        None
    } else if items[0].name@ == name {
        Some(items[0].id)
    } else {
        id_by_name(items.skip(1), name)
    }
}

/// The id of the first device with the name.
pub fn device_by_name(devices: &Vec<ListedItem>, name: &str) -> (r: Option<u64>)
    ensures
        r == id_by_name(devices@, name@),
{
    assert(devices@.skip(0) =~= devices@);
    for i in 0..devices.len()
        invariant
            id_by_name(devices@, name@) == id_by_name(devices@.skip(i as int), name@),
    {
        proof {
            assert(devices@.skip(i as int)[0] == devices@[i as int]);
            assert(devices@.skip(i as int).skip(1) =~= devices@.skip(i + 1));
        }
        if str_eq(devices[i].name.as_str(), name) {
            return Some(devices[i].id);
        }
    }
    None
}

/// The first part with the name.
pub open spec fn part_by_name(parts: Seq<DevicePart>, name: Seq<char>) -> Option<DevicePart>
    decreases parts.len(),
{
    if parts.len() == 0 {
        None
    } else if parts[0].name@ == name {
        Some(parts[0])
    } else {
        part_by_name(parts.skip(1), name)
    }
}

/// The first part with the name.
fn find_part<'a>(parts: &'a Vec<DevicePart>, name: &str) -> (r: Option<&'a DevicePart>)
    ensures
        match part_by_name(parts@, name@) {
            Some(part) => r is Some && *r->0 == part,
            None => r is None,
        },
{
    assert(parts@.skip(0) =~= parts@);
    for i in 0..parts.len()
        invariant
            part_by_name(parts@, name@) == part_by_name(parts@.skip(i as int), name@),
    {
        proof {
            assert(parts@.skip(i as int)[0] == parts@[i as int]);
            assert(parts@.skip(i as int).skip(1) =~= parts@.skip(i + 1));
        }
        if str_eq(parts[i].name.as_str(), name) {
            return Some(&parts[i]);
        }
    }
    None
}

/// The kinds of parts that a device has.
#[derive(Copy, Clone, Debug, PartialEq, Eq, Structural)]
pub enum PartKind {
    /// Consoles.
    Console,
    /// Volumes.
    Volume,
    /// Media.
    Media,
    /// Keyboards.
    Keyboard,
    /// Mice.
    Mouse,
}

/// The parts of a kind that a device has.
pub open spec fn parts_of(info: DeviceInfo, kind: PartKind) -> Seq<DevicePart> {
    match kind {
        PartKind::Console => info.consoles@,
        PartKind::Volume => info.volumes@,
        PartKind::Media => info.media@,
        PartKind::Keyboard => info.keyboards@,
        PartKind::Mouse => info.mice@,
    }
}

/// A device of a server, as it was told of last.
#[derive(Debug)]
pub struct Device {
    id: u64,
    info: DeviceInfo,
}

/// A part of a device, by its name: its item comes and goes.
#[derive(Debug)]
pub struct DevicePartHandle {
    /// What kind of part it is.
    pub kind: PartKind,
    /// Its name.
    pub name: String,
}

/// What is said of a part whose item is not there.
pub open spec fn unavailable_text(kind: PartKind) -> Seq<char> {
    match kind {
        PartKind::Console => "Console currently not available"@,
        PartKind::Volume => "Volume currently not available"@,
        PartKind::Media => "Media item currently not available"@,
        PartKind::Keyboard => "Keyboard item currently not available"@,
        PartKind::Mouse => "Mouse item currently not available"@,
    }
}

impl DevicePartHandle {
    /// The id of the part's item while that is there.
    pub open spec fn id_in(self, info: DeviceInfo) -> Option<u64> {
        match part_by_name(parts_of(info, self.kind), self.name@) {
            Some(part) => part.id,
            None => None,
        }
    }

    /// The id of the part's item while that is there.
    pub fn get_id(&self, device: &Device) -> (r: Option<u64>)
        ensures
            r == self.id_in(device.latest()),
    {
        let parts = device.parts(self.kind);
        match find_part(parts, self.name.as_str()) {
            Some(part) => part.id,
            None => None,
        }
    }

    /// Whether the part's item is there.
    pub fn available(&self, device: &Device) -> (r: bool)
        ensures
            r == (self.id_in(device.latest()) is Some),
    {
        self.get_id(device).is_some()
    }

    /// The id of the part's item, for a request.
    pub fn id_for_request(&self, device: &Device) -> (r: Result<u64, Status>)
        ensures
            match self.id_in(device.latest()) {
                Some(id) => r == Ok::<u64, Status>(id),
                None => r is Err && is_status(
                    r->Err_0,
                    Code::Unavailable,
                    unavailable_text(self.kind),
                ),
            },
    {
        match self.get_id(device) {
            Some(id) => Ok(id),
            None => Err(
                match self.kind {
                    PartKind::Console => Status::new(
                        Code::Unavailable,
                        "Console currently not available",
                    ),
                    PartKind::Volume => Status::new(
                        Code::Unavailable,
                        "Volume currently not available",
                    ),
                    PartKind::Media => Status::new(
                        Code::Unavailable,
                        "Media item currently not available",
                    ),
                    PartKind::Keyboard => Status::new(
                        Code::Unavailable,
                        "Keyboard item currently not available",
                    ),
                    PartKind::Mouse => Status::new(
                        Code::Unavailable,
                        "Mouse item currently not available",
                    ),
                },
            ),
        }
    }
}

impl Device {
    /// What the server told last.
    pub closed spec fn latest(self) -> DeviceInfo {
        self.info
    }

    /// Id of the device.
    pub closed spec fn id_spec(self) -> u64 {
        self.id
    }

    /// Once the server told of the device for the first time, or ended before it did.
    pub fn new(id: u64, first: Option<Result<DeviceInfo, Status>>) -> (r: Result<Device, Status>)
        ensures
            match first {
                Some(Ok(info)) => r is Ok && r->Ok_0.latest() == info && r->Ok_0.id_spec() == id,
                Some(Err(status)) => r == Err::<Device, Status>(status),
                None => r is Err && is_status(r->Err_0, Code::NotFound, "bla"@),
            },
    {
        match first {
            Some(Ok(info)) => Ok(Device { id, info }),
            Some(Err(status)) => Err(status),
            None => Err(Status::new(Code::NotFound, "bla")),
        }
    }

    /// Takes in what the server tells. Returned is whether to go on listening: an error or the
    /// end is the last that is heard.
    pub fn on_update(&mut self, update: Option<Result<DeviceInfo, Status>>) -> (r: bool)
        ensures
            final(self).id_spec() == old(self).id_spec(),
            match update {
                Some(Ok(info)) => r && final(self).latest() == info,
                _ => !r && final(self).latest() == old(self).latest(),
            },
    {
        match update {
            Some(Ok(info)) => {
                self.info = info;
                true
            },
            _ => false,
        }
    }

    /// Id of the device.
    pub fn id(&self) -> (r: u64)
        ensures
            r == self.id_spec(),
    {
        self.id
    }

    fn parts(&self, kind: PartKind) -> (r: &Vec<DevicePart>)
        ensures
            r@ == parts_of(self.latest(), kind),
    {
        match kind {
            PartKind::Console => &self.info.consoles,
            PartKind::Volume => &self.info.volumes,
            PartKind::Media => &self.info.media,
            PartKind::Keyboard => &self.info.keyboards,
            PartKind::Mouse => &self.info.mice,
        }
    }

    /// The default console: the first.
    pub fn console(&self) -> (r: Option<DevicePartHandle>)
        ensures
            match r {
                Some(part) => self.latest().consoles@.len() > 0 && part.kind == PartKind::Console
                    && part.name@ == self.latest().consoles@[0].name@,
                None => self.latest().consoles@.len() == 0,
            },
    {
        if self.info.consoles.len() > 0 {
            Some(
                DevicePartHandle {
                    kind: PartKind::Console,
                    name: self.info.consoles[0].name.clone(),
                },
            )
        } else {
            None
        }
    }

    /// All parts of a kind.
    pub fn all(&self, kind: PartKind) -> (r: Vec<DevicePartHandle>)
        ensures
            r@.len() == parts_of(self.latest(), kind).len(),
            forall|i: int|
                0 <= i < r@.len() ==> (#[trigger] r@[i]).kind == kind && r@[i].name@ == parts_of(
                    self.latest(),
                    kind,
                )[i].name@,
    {
        let parts = self.parts(kind);
        let mut r: Vec<DevicePartHandle> = Vec::new();
        for i in 0..parts.len()
            invariant
                parts@ == parts_of(self.latest(), kind),
                r@.len() == i,
                forall|j: int|
                    0 <= j < i ==> (#[trigger] r@[j]).kind == kind && r@[j].name@
                        == parts@[j].name@,
        {
            r.push(DevicePartHandle { kind, name: parts[i].name.clone() });
        }
        r
    }

    /// The part of a kind with the name.
    pub fn by_name(&self, kind: PartKind, name: &str) -> (r: Option<DevicePartHandle>)
        ensures
            r is Some <==> part_by_name(parts_of(self.latest(), kind), name@) is Some,
            r is Some ==> r->0.kind == kind && r->0.name@ == name@,
    {
        proof {
            lemma_part_by_name(parts_of(self.latest(), kind), name@);
        }
        match find_part(self.parts(kind), name) {
            Some(part) => Some(DevicePartHandle { kind, name: part.name.clone() }),
            None => None,
        }
    }
}

proof fn lemma_part_by_name(parts: Seq<DevicePart>, name: Seq<char>)
    ensures
        part_by_name(parts, name) matches Some(part) ==> part.name@ == name,
    decreases parts.len(),
{
    if parts.len() > 0 && parts[0].name@ != name {
        lemma_part_by_name(parts.skip(1), name);
    }
}

/// How far an upload has come.
#[derive(Debug)]
pub enum UploadProgressState {
    /// So much was written.
    Writing(u64),
    /// All was written.
    Succeeded,
    /// The server gave up.
    Failed(Status),
}

/// Follows an upload.
#[derive(Debug)]
pub struct UploadProgress {
    /// How far it has come.
    pub state: UploadProgressState,
}

impl UploadProgress {
    /// Nothing was written.
    pub fn new() -> (r: Self)
        ensures
            r.state == UploadProgressState::Writing(0),
    {
        UploadProgress { state: UploadProgressState::Writing(0) }
    }

    /// Takes in what the server tells, or that it has ended. Nothing is taken in once the upload
    /// is finished.
    pub fn on_progress(&mut self, progress: Option<Result<u64, Status>>)
        ensures
            final(self).state == if old(self).state is Writing {
                match progress {
                    Some(Ok(written)) => UploadProgressState::Writing(written),
                    Some(Err(status)) => UploadProgressState::Failed(status),
                    None => UploadProgressState::Succeeded,
                }
            } else {
                old(self).state
            },
    {
        match self.state {
            UploadProgressState::Writing(_) => {
                self.state = match progress {
                    Some(Ok(written)) => UploadProgressState::Writing(written),
                    Some(Err(status)) => UploadProgressState::Failed(status),
                    None => UploadProgressState::Succeeded,
                };
            },
            _ => {},
        }
    }

    /// How the upload ended, if it has.
    pub fn finished(&self) -> (r: Option<Result<(), Status>>)
        ensures
            match self.state {
                UploadProgressState::Writing(_) => r is None,
                UploadProgressState::Succeeded => r == Some(Ok::<(), Status>(())),
                UploadProgressState::Failed(status) => r is Some && r->0 is Err && is_status(
                    r->0->Err_0,
                    status.code,
                    status.message@,
                ),
            },
    {
        match &self.state {
            UploadProgressState::Writing(_) => None,
            UploadProgressState::Succeeded => Some(Ok(())),
            UploadProgressState::Failed(status) => Some(Err(status.copy())),
        }
    }
}

/// Of several servers of one name the first is meant.
pub proof fn law_first_server_is_meant(list: Seq<Server>, name: Seq<char>, i: int)
    ensures
        0 <= i < list.len() && list[i].name@ == name && (forall|j: int|
            0 <= j < i ==> (#[trigger] list[j]).name@ != name) ==> place_of(list, name) == Some(
            i,
        ),
        (forall|j: int| 0 <= j < list.len() ==> (#[trigger] list[j]).name@ != name) ==> place_of(
            list,
            name,
        ) is None,
    decreases list.len(),
{
    if list.len() > 0 && list[0].name@ != name {
        let rest = list.skip(1);
        law_first_server_is_meant(rest, name, i - 1);
        if forall|j: int| 0 <= j < list.len() ==> (#[trigger] list[j]).name@ != name {
            assert forall|j: int| 0 <= j < rest.len() implies (#[trigger] rest[j]).name@ != name by {
                assert(list[j + 1].name@ != name);
            }
        }
        if 0 < i < list.len() && (forall|j: int|
            0 <= j < i ==> (#[trigger] list[j]).name@ != name) {
            assert forall|j: int| 0 <= j < i - 1 implies (#[trigger] rest[j]).name@ != name by {
                assert(list[j + 1].name@ != name);
            }
        }
    }
}


/// Of several items of one name the first is meant.
pub proof fn law_first_item_is_meant(list: Seq<ListedItem>, name: Seq<char>, i: int)
    ensures
        0 <= i < list.len() && list[i].name@ == name && (forall|j: int|
            0 <= j < i ==> (#[trigger] list[j]).name@ != name) ==> id_by_name(list, name) == Some(
            list[i].id,
        ),
        (forall|j: int| 0 <= j < list.len() ==> (#[trigger] list[j]).name@ != name) ==> id_by_name(
            list,
            name,
        ) is None,
    decreases list.len(),
{
    if list.len() > 0 && list[0].name@ != name {
        let rest = list.skip(1);
        law_first_item_is_meant(rest, name, i - 1);
        if forall|j: int| 0 <= j < list.len() ==> (#[trigger] list[j]).name@ != name {
            assert forall|j: int| 0 <= j < rest.len() implies (#[trigger] rest[j]).name@ != name by {
                assert(list[j + 1].name@ != name);
            }
        }
        if 0 < i < list.len() && (forall|j: int|
            0 <= j < i ==> (#[trigger] list[j]).name@ != name) {
            assert forall|j: int| 0 <= j < i - 1 implies (#[trigger] rest[j]).name@ != name by {
                assert(list[j + 1].name@ != name);
            }
        }
    }
}


/// Of several parts of one name the first is meant.
pub proof fn law_first_part_is_meant(list: Seq<DevicePart>, name: Seq<char>, i: int)
    ensures
        0 <= i < list.len() && list[i].name@ == name && (forall|j: int|
            0 <= j < i ==> (#[trigger] list[j]).name@ != name) ==> part_by_name(list, name) == Some(
            list[i],
        ),
        (forall|j: int| 0 <= j < list.len() ==> (#[trigger] list[j]).name@ != name) ==> part_by_name(
            list,
            name,
        ) is None,
    decreases list.len(),
{
    if list.len() > 0 && list[0].name@ != name {
        let rest = list.skip(1);
        law_first_part_is_meant(rest, name, i - 1);
        if forall|j: int| 0 <= j < list.len() ==> (#[trigger] list[j]).name@ != name {
            assert forall|j: int| 0 <= j < rest.len() implies (#[trigger] rest[j]).name@ != name by {
                assert(list[j + 1].name@ != name);
            }
        }
        if 0 < i < list.len() && (forall|j: int|
            0 <= j < i ==> (#[trigger] list[j]).name@ != name) {
            assert forall|j: int| 0 <= j < i - 1 implies (#[trigger] rest[j]).name@ != name by {
                assert(list[j + 1].name@ != name);
            }
        }
    }
}


/// Removing a name takes all servers of that name out and leaves the others in their order.
pub proof fn law_removing_leaves_others(servers: Seq<Server>, name: Seq<char>)
    ensures
        without(servers, name) == servers.filter(|s: Server| s.name@ != name),
    decreases servers.len(),
{
    reveal(Seq::filter);
    if servers.len() > 0 {
        law_removing_leaves_others(servers.drop_last(), name);
    }
}

/// Making a server the default lets it change places with the one that was it; all others stay.
pub proof fn law_default_changes_places(servers: Seq<Server>, name: Seq<char>, i: int, j: int)
    requires
        0 <= i < servers.len(),
        servers[i].name@ == name,
        forall|k: int| 0 <= k < i ==> (#[trigger] servers[k]).name@ != name,
        0 <= j < servers.len(),
    ensures
        fronted(servers, name)[0] == servers[i],
        fronted(servers, name)[i] == servers[0],
        j != 0 && j != i ==> fronted(servers, name)[j] == servers[j],
        fronted(servers, name).len() == servers.len(),
{
    law_first_server_is_meant(servers, name, i);
}

/// The ways to log in that are known are all those that are told of with their method.
pub proof fn law_known_logins(told: Seq<(String, Option<AuthMethod>)>, login: LoginInfo)
    ensures
        known_logins(told).contains(login) <==> exists|i: int|
            0 <= i < told.len() && (#[trigger] told[i]).0 == login.description && told[i].1 == Some(
                login.method,
            ),
        known_logins(told).len() <= told.len(),
    decreases told.len(),
{
    if told.len() > 0 {
        let rest = told.drop_last();
        law_known_logins(rest, login);
        let before = known_logins(rest);
        let all = known_logins(told);
        assert(told[told.len() - 1] == told.last());
        if before.contains(login) {
            let i = choose|i: int|
                0 <= i < rest.len() && (#[trigger] rest[i]).0 == login.description && rest[i].1
                    == Some(login.method);
            assert(told[i] == rest[i]);
            let x = choose|x: int| 0 <= x < before.len() && before[x] == login;
            assert(all[x] == login);
        }
        if let Some(method) = told.last().1 {
            assert(all[before.len() as int] == (LoginInfo { description: told.last().0, method }));
        }
        if all.contains(login) && !before.contains(login) {
            let x = choose|x: int| 0 <= x < all.len() && all[x] == login;
            if x < before.len() {
                assert(before[x] == login);
            }
        }
        if exists|i: int|
            0 <= i < told.len() && (#[trigger] told[i]).0 == login.description && told[i].1 == Some(
                login.method,
            ) {
            let i = choose|i: int|
                0 <= i < told.len() && (#[trigger] told[i]).0 == login.description && told[i].1
                    == Some(login.method);
            if i < rest.len() {
                assert(rest[i] == told[i]);
            }
        }
    }
}

/// A part is looked for among the parts of its kind, and its item is there while it has an id.
pub proof fn law_parts_by_kind(part: DevicePartHandle, info: DeviceInfo)
    ensures
        part.kind == PartKind::Console ==> parts_of(info, part.kind) == info.consoles@,
        part.kind == PartKind::Volume ==> parts_of(info, part.kind) == info.volumes@,
        part.kind == PartKind::Media ==> parts_of(info, part.kind) == info.media@,
        part.kind == PartKind::Keyboard ==> parts_of(info, part.kind) == info.keyboards@,
        part.kind == PartKind::Mouse ==> parts_of(info, part.kind) == info.mice@,
        part.id_in(info) matches Some(id) ==> exists|i: int|
            0 <= i < parts_of(info, part.kind).len() && (#[trigger] parts_of(
                info,
                part.kind,
            )[i]).name@ == part.name@ && parts_of(info, part.kind)[i].id == Some(id),
{
    lemma_found_part(parts_of(info, part.kind), part.name@);
}

proof fn lemma_found_part(parts: Seq<DevicePart>, name: Seq<char>)
    ensures
        part_by_name(parts, name) matches Some(part) ==> exists|i: int|
            0 <= i < parts.len() && (#[trigger] parts[i]) == part && part.name@ == name,
    decreases parts.len(),
{
    if parts.len() > 0 {
        if parts[0].name@ != name {
            lemma_found_part(parts.skip(1), name);
            if let Some(part) = part_by_name(parts.skip(1), name) {
                let i = choose|i: int|
                    0 <= i < parts.skip(1).len() && (#[trigger] parts.skip(1)[i]) == part
                        && part.name@ == name;
                assert(parts[i + 1] == part);
            }
        } else {
            assert(parts[0].name@ == name);
        }
    }
}

} // verus!
