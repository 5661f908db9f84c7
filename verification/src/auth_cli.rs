//! The commands that configure servers, and the choice of the server to connect to.

use vstd::prelude::*;

use crate::client::{
    fronted, law_added_is_found, place_of, without, Auth, Config, Server,
};
use crate::path::{renamed, with_file_name};
use crate::server::{AuthMethod, LoginInfo};
use crate::text::{chars_of, texts, trim_end, trimmed_end};
use crate::urls::{parse_uri, parse_url, parsed_uri, parsed_url};

verus! {

/// The commands that configure servers.
#[derive(Copy, Clone, Debug, PartialEq, Eq, Structural)]
pub enum AuthCommand {
    /// Add a server.
    Init,
    /// Show a server.
    Info,
    /// Show all servers.
    List,
    /// Make a server the default.
    SetDefault,
    /// Remove a server.
    Remove,
    /// Change a server.
    Modify,
}

/// The commands that are about one server need its name.
pub fn check_instance(command: AuthCommand, instance: bool) -> (r: Result<(), &'static str>)
    ensures
        if !instance && command != AuthCommand::Info && command != AuthCommand::List {
            r is Err && r->Err_0@ == "-i/--instance required for this command."@
        } else {
            r is Ok
        },
{
    let needed = match command {
        AuthCommand::Info => false,
        AuthCommand::List => false,
        _ => true,
    };
    if needed && !instance {
        Err("-i/--instance required for this command.")
    } else {
        Ok(())
    }
}

/// What is said where a server is there already.
pub open spec fn exists_text(name: Seq<char>) -> Seq<char> {
    "Authentication for "@ + name + " already exists, use modify instead."@
}

/// What is said where a server is not there.
pub open spec fn missing_text(name: Seq<char>) -> Seq<char> {
    "Authentication for "@ + name + " does not exist"@
}

fn missing(name: &str) -> (r: String)
    ensures
        r@ == missing_text(name@),
{
    let mut r = "Authentication for ".to_owned();
    r.append(name);
    r.append(" does not exist");
    r
}

/// Where the way to log in at a new server comes from.
#[derive(Debug)]
pub enum AuthSource {
    /// This token was given.
    Token(String),
    /// A token is to be read from this file.
    TokenFile(String),
    /// The server has to be asked.
    Oidc,
}

/// Where the way to log in at a new server comes from. There must not be a server of that name.
pub fn init_source(
    config: &Config,
    instance: &str,
    token: Option<String>,
    token_file: Option<String>,
) -> (r: Result<AuthSource, String>)
    ensures
        if place_of(config.list(), instance@) is Some {
            r is Err && r->Err_0@ == exists_text(instance@)
        } else {
            r == match (token, token_file) {
                (Some(token), _) => Ok::<AuthSource, String>(AuthSource::Token(token)),
                (None, Some(file)) => Ok::<AuthSource, String>(AuthSource::TokenFile(file)),
                (None, None) => Ok::<AuthSource, String>(AuthSource::Oidc),
            }
        },
{
    if config.find_server(instance).is_some() {
        let mut text = "Authentication for ".to_owned();
        text.append(instance);
        text.append(" already exists, use modify instead.");
        return Err(text);
    }
    match (token, token_file) {
        (Some(token), _) => Ok(AuthSource::Token(token)),
        (None, Some(file)) => Ok(AuthSource::TokenFile(file)),
        (None, None) => Ok(AuthSource::Oidc),
    }
}

/// The number of bytes below which a line is taken for no token.
pub const MIN_TOKEN_LINE: usize = 16;

/// The token in the first line of a file, which has to be long enough to hold one.
pub fn token_of_line(line: &str) -> (r: Result<Auth, &'static str>)
    ensures
        if vstd::utf8::encode_utf8(line@).len() < MIN_TOKEN_LINE {
            r is Err && r->Err_0@ == "Token file doesn't look like a JWT token (too small)"@
        } else {
            r is Ok && r->Ok_0 is Token && r->Ok_0->Token_0@ == trimmed_end(line@)
        },
{
    if line.as_bytes().len() < 16 {
        Err("Token file doesn't look like a JWT token (too small)")
    } else {
        Ok(Auth::Token(trim_end(line)))
    }
}

/// A character of a file name for a server.
pub open spec fn file_char(c: char) -> char {
    if c == '/' || c == '.' {
        '_'
    } else {
        c
    }
}

/// The name of the file that the tokens for a server are kept in.
pub open spec fn token_file_name(instance: Seq<char>) -> Seq<char> {
    instance.map_values(|c: char| file_char(c)) + ".token"@
}

fn token_file(instance: &str) -> (r: String)
    ensures
        r@ == token_file_name(instance@),
{
    let chars = chars_of(instance);
    let mut r = "".to_owned();
    proof {
        reveal_strlit("");
    }
    for i in 0..chars.len()
        invariant
            r@ =~= chars@.take(i as int).map_values(|c: char| file_char(c)),
    {
        let c = chars[i];
        if c == '/' || c == '.' {
            r.push('_');
        } else {
            r.push(c);
        }
        assert(chars@.take(i + 1) =~= chars@.take(i as int).push(c));
    }
    assert(chars@.take(chars@.len() as int) =~= chars@);
    r.append(".token");
    r
}

/// Why the ways to log in that a server tells of cannot be used.
#[derive(Copy, Clone, Debug, PartialEq, Eq, Structural)]
pub enum OidcInitError {
    /// There are none.
    NoMethod,
    /// The identity provider is at no url.
    InvalidUrl,
}

impl OidcInitError {
    /// The text of the error.
    pub fn message(&self) -> (r: &'static str)
        ensures
            r@ == match *self {
                OidcInitError::NoMethod => "No OIDC authentication to choose from"@,
                OidcInitError::InvalidUrl => "Invalid url"@,
            },
    {
        match self {
            OidcInitError::NoMethod => "No OIDC authentication to choose from",
            OidcInitError::InvalidUrl => "Invalid url",
        }
    }
}

/// Whether this is the way to log in with an identity provider, for the text of its url.
pub open spec fn is_oidc_auth(
    r: Result<Auth, OidcInitError>,
    client_id: Seq<char>,
    url: Option<Seq<char>>,
    token_cache: Seq<char>,
) -> bool {
    match url {
        None => r == Err::<Auth, OidcInitError>(OidcInitError::InvalidUrl),
        Some(url) => match r {
            Ok(Auth::Oidc { uri, client_id: id, token_cache: cache }) => {
                &&& uri@ == url
                &&& id@ == client_id
                &&& cache@ == token_cache
            },
            _ => false,
        },
    }
}

/// The way to log in with an identity provider, for the text of its url.
pub fn oidc_auth(url: Option<String>, client_id: String, token_cache: String) -> (r: Result<
    Auth,
    OidcInitError,
>)
    ensures
        is_oidc_auth(
            r,
            client_id@,
            match url {
                Some(url) => Some(url@),
                None => None,
            },
            token_cache@,
        ),
{
    match url {
        Some(uri) => Ok(Auth::Oidc { uri, client_id, token_cache }),
        None => Err(OidcInitError::InvalidUrl),
    }
}

/// The way to log in at a new server: the first that it tells of. Tokens are kept beside the
/// configuration.
pub fn init_oidc(info: &Vec<LoginInfo>, instance: &str, config_path: &str) -> (r: Result<
    Auth,
    OidcInitError,
>)
    ensures
        if info@.len() == 0 {
            r == Err::<Auth, OidcInitError>(OidcInitError::NoMethod)
        } else {
            match info@[0].method {
                AuthMethod::Oidc { url, client_id } => is_oidc_auth(
                    r,
                    client_id@,
                    parsed_url(url@),
                    renamed(config_path@, token_file_name(instance@)),
                ),
            }
        },
{
    if info.len() == 0 {
        return Err(OidcInitError::NoMethod);
    }
    match &info[0].method {
        AuthMethod::Oidc { url, client_id } => {
            let name = token_file(instance);
            let token_cache = with_file_name(config_path, name.as_str());
            oidc_auth(parse_url(url.as_str()), client_id.clone(), token_cache)
        },
    }
}

/// Adds a server.
pub fn run_auth_init(config: &mut Config, instance: &str, uri: String, auth: Auth)
    ensures
        final(config).file() == old(config).file(),
        final(config).list().len() == old(config).list().len() + 1,
        final(config).list().drop_last() == old(config).list(),
        final(config).list().last().name@ == instance@,
        final(config).list().last().uri == uri,
        final(config).list().last().auth == auth,
        place_of(old(config).list(), instance@) is None ==> place_of(
            final(config).list(),
            instance@,
        ) == Some(old(config).list().len() as int),
{
    let server = Server { name: instance.to_owned(), uri, auth };
    proof {
        if place_of(config.list(), instance@) is None {
            law_added_is_found(config.list(), server);
        }
    }
    config.add_server(server);
    assert(config.list().drop_last() =~= old(config).list());
}

/// Makes a server the default.
pub fn run_auth_set_default(config: &mut Config, instance: &str) -> (r: Result<(), String>)
    ensures
        final(config).file() == old(config).file(),
        final(config).list() == fronted(old(config).list(), instance@),
        if place_of(old(config).list(), instance@) is Some {
            r is Ok
        } else {
            r is Err && r->Err_0@ == missing_text(instance@)
        },
{
    if config.find_server(instance).is_none() {
        return Err(missing(instance));
    }
    config.set_default(instance);
    Ok(())
}

/// Removes a server.
pub fn run_auth_remove(config: &mut Config, instance: &str) -> (r: Result<(), String>)
    ensures
        final(config).file() == old(config).file(),
        if place_of(old(config).list(), instance@) is Some {
            r is Ok && final(config).list() == without(old(config).list(), instance@)
        } else {
            r is Err && r->Err_0@ == missing_text(instance@) && final(config).list() == old(config).list()
        },
{
    if config.find_server(instance).is_none() {
        return Err(missing(instance));
    }
    config.remove_server(instance);
    Ok(())
}

/// Changes where a server is, or how to log in there. A token of a file counts more than one
/// that was given.
pub fn run_auth_modify(
    config: &mut Config,
    instance: &str,
    uri: Option<String>,
    token: Option<String>,
    file_auth: Option<Auth>,
) -> (r: Result<(), &'static str>)
    ensures
        final(config).file() == old(config).file(),
        match place_of(old(config).list(), instance@) {
            None => {
                &&& r is Err
                &&& r->Err_0@ == "Authentication for {} does not exist"@
                &&& final(config).list() == old(config).list()
            },
            Some(i) => {
                let before = old(config).list()[i];
                let after = Server {
                    name: before.name,
                    uri: match uri {
                        Some(uri) => uri,
                        None => before.uri,
                    },
                    auth: match (file_auth, token) {
                        (Some(auth), _) => auth,
                        (None, Some(token)) => Auth::Token(token),
                        (None, None) => before.auth,
                    },
                };
                &&& r is Ok
                &&& final(config).list() == old(config).list().update(i, after)
            },
        },
{
    match config.find_server_mut(instance) {
        None => Err("Authentication for {} does not exist"),
        Some(server) => {
            if let Some(uri) = uri {
                server.uri = uri;
            }
            if let Some(token) = token {
                server.auth = Auth::Token(token);
            }
            if let Some(auth) = file_auth {
                server.auth = auth;
            }
            Ok(())
        },
    }
}

/// The line that shows a server.
pub open spec fn server_line(server: Server) -> Seq<char> {
    server.name@ + ": "@ + server.uri@
}

fn show_server(server: &Server) -> (r: String)
    ensures
        r@ == server_line(*server),
{
    let mut r = server.name.clone();
    r.append(": ");
    r.append(server.uri.as_str());
    r
}

/// The lines that show all servers, the default first.
pub fn run_auth_list(config: &Config) -> (r: Vec<String>)
    ensures
        texts(r@) == config.list().map_values(|s: Server| server_line(s)),
{
    let servers = config.servers();
    let mut r: Vec<String> = Vec::new();
    for i in 0..servers.len()
        invariant
            servers@ == config.list(),
            r@.len() == i,
            forall|j: int| 0 <= j < i ==> (#[trigger] r@[j])@ == server_line(servers@[j]),
    {
        r.push(show_server(&servers[i]));
    }
    assert(texts(r@) =~= config.list().map_values(|s: Server| server_line(s)));
    r
}

/// The server that is meant: the one with the name, or the default one.
pub open spec fn meant(config: Config, instance: Option<String>) -> Option<Server> {
    match instance {
        Some(name) => match place_of(config.list(), name@) {
            Some(i) => Some(config.list()[i]),
            None => None,
        },
        None => if config.list().len() > 0 {
            Some(config.list()[0])
        } else {
            None
        },
    }
}

fn find_meant<'a>(config: &'a Config, instance: &Option<String>) -> (r: Option<&'a Server>)
    ensures
        match meant(*config, *instance) {
            Some(server) => r is Some && *r->0 == server,
            None => r is None,
        },
{
    match instance {
        Some(name) => config.find_server(name.as_str()),
        None => config.default_server(),
    }
}

/// The line that shows the server that is meant, if there is one.
pub fn run_auth_info(config: &Config, instance: &Option<String>) -> (r: Option<String>)
    ensures
        match meant(*config, *instance) {
            Some(server) => r is Some && r->0@ == server_line(server),
            None => r is None,
        },
{
    match find_meant(config, instance) {
        Some(server) => Some(show_server(server)),
        None => None,
    }
}

/// What to connect to.
#[derive(Debug)]
pub enum Connection<'a> {
    /// A server that is configured, logging in as that says.
    Server(&'a Server),
    /// Whatever is at a uri, without logging in.
    Uri(String),
}

/// Whether this is what to connect to in order to ask how to log in: a server that is configured,
/// or one at the uri that stands in place of a name.
pub open spec fn is_login_connection(
    r: Result<Connection<'_>, String>,
    config: Option<Config>,
    instance: Option<String>,
    valid: bool,
) -> bool {
    let server = match config {
        Some(config) => meant(config, instance),
        None => None,
    };
    match (server, instance) {
        (Some(server), _) => r is Ok && r->Ok_0 is Server && *r->Ok_0->Server_0 == server,
        (None, Some(name)) => if valid {
            r is Ok && r->Ok_0 is Uri && r->Ok_0->Uri_0@ == name@
        } else {
            r is Err && r->Err_0@ == name@ + " not a uri and not in configuration"@
        },
        (None, None) => r is Err && r->Err_0@
            == "default Server should be configured or instance passed"@,
    }
}

/// What to connect to in order to ask how to log in, given whether the name is a uri.
pub fn login_connection<'a>(
    config: &'a Option<Config>,
    instance: &Option<String>,
    valid: bool,
) -> (r: Result<Connection<'a>, String>)
    ensures
        is_login_connection(r, *config, *instance, valid),
{
    let server = match config {
        Some(config) => find_meant(config, instance),
        None => None,
    };
    match server {
        Some(server) => Ok(Connection::Server(server)),
        None => match instance {
            Some(name) => if valid {
                Ok(Connection::Uri(name.clone()))
            } else {
                let mut text = name.clone();
                text.append(" not a uri and not in configuration");
                Err(text)
            },
            None => Err("default Server should be configured or instance passed".to_owned()),
        },
    }
}

/// What to connect to in order to ask how to log in.
pub fn connect_for_login<'a>(config: &'a Option<Config>, instance: &Option<String>) -> (r: Result<
    Connection<'a>,
    String,
>)
    ensures
        is_login_connection(
            r,
            *config,
            *instance,
            match *instance {
                Some(name) => parsed_uri(name@) is Some,
                None => false,
            },
        ),
{
    let valid = match instance {
        Some(name) => parse_uri(name.as_str()).is_some(),
        None => false,
    };
    login_connection(config, instance, valid)
}

/// The server to connect to for all else.
pub fn connect_to<'a>(config: &'a Option<Config>, instance: &Option<String>) -> (r: Result<
    &'a Server,
    String,
>)
    ensures
        match *config {
            None => r is Err && r->Err_0@ == "Configuration file not found; Run configure first?"@,
            Some(config) => match (meant(config, *instance), *instance) {
                (Some(server), _) => r is Ok && *r->Ok_0 == server,
                (None, Some(name)) => r is Err && r->Err_0@ == name@
                    + " not found in configuration"@,
                (None, None) => r is Err && r->Err_0@ == "No default instance configured"@,
            },
        },
{
    match config {
        None => Err("Configuration file not found; Run configure first?".to_owned()),
        Some(config) => match find_meant(config, instance) {
            Some(server) => Ok(server),
            None => match instance {
                Some(name) => {
                    let mut text = name.clone();
                    text.append(" not found in configuration");
                    Err(text)
                },
                None => Err("No default instance configured".to_owned()),
            },
        },
    }
}

/// A token is kept in a file beside the configuration, whatever the instance is called: the name of
/// the file has no separator and only the dot of its extension.
pub proof fn law_token_files(instance: Seq<char>, i: int)
    requires
        0 <= i < instance.len(),
    ensures
        token_file_name(instance).len() == instance.len() + 6,
        token_file_name(instance).skip(instance.len() as int) == ".token"@,
        token_file_name(instance)[i] != '/' && token_file_name(instance)[i] != '.',
        instance[i] != '/' && instance[i] != '.' ==> token_file_name(instance)[i] == instance[i],
{
    reveal_strlit(".token");
    assert(token_file_name(instance).skip(instance.len() as int) =~= ".token"@);
}

/// A server that is named is the first of that name, and the first of all is meant where none is
/// named.
pub proof fn law_meant_servers(config: Config, instance: Option<String>, i: int)
    ensures
        instance is None && config.list().len() > 0 ==> meant(config, instance) == Some(
            config.list()[0],
        ),
        config.list().len() == 0 ==> meant(config, instance) is None,
        instance is Some && 0 <= i < config.list().len() && config.list()[i].name@ == instance->0@
            && (forall|j: int|
            0 <= j < i ==> (#[trigger] config.list()[j]).name@ != instance->0@) ==> meant(
            config,
            instance,
        ) == Some(config.list()[i]),
{
    if let Some(name) = instance {
        crate::client::law_first_server_is_meant(config.list(), name@, i);
        crate::client::law_first_server_is_meant(config.list(), name@, 0);
    }
}

} // verus!
