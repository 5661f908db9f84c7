//! Tokens of an identity provider: where to ask for them, how long they are good for, and when
//! the user has to log in.

use vstd::prelude::*;

use crate::text::texts;
use crate::urls::{
    below, check_short_url, is_plain, is_short_url, parsed_parts, url_below, with_segments,
    without_empty_segment,
};

verus! {

/// Where an identity provider tells of itself.
pub open spec fn discovery_segments() -> Seq<Seq<char>> {
    seq![".well-known"@, "openid-configuration"@]
}

/// What an identity provider tells of itself.
#[derive(Debug)]
pub struct OidcDiscovery {
    /// Where users log in.
    pub authorization_endpoint: String,
    /// Where devices are let in.
    pub device_authorization_endpoint: String,
    /// Where tokens are had.
    pub token_endpoint: String,
    /// Where keys are.
    pub jwks_uri: String,
}

impl OidcDiscovery {
    /// Where the identity provider at the url tells of itself: below it, whether or not its path
    /// ends in a slash.
    pub fn uri(url: &str) -> (r: Result<String, &'static str>)
        requires
            is_short_url(url@),
        ensures
            is_discovery(url@, r),
    {
        let mut segments: Vec<String> = Vec::new();
        segments.push(".well-known".to_owned());
        segments.push("openid-configuration".to_owned());
        proof {
            reveal_strlit(".well-known");
            reveal_strlit("openid-configuration");
            reveal_strlit(".");
            reveal_strlit("..");
            assert(texts(segments@) =~= discovery_segments());
            assert(is_plain(".well-known"@));
            assert(is_plain("openid-configuration"@));
        }
        discovery_of(url_below(url, &segments))
    }

    /// Where the identity provider at the url tells of itself, unless the url is longer than one
    /// may be whose path is changed.
    pub fn uri_of_short(url: &str) -> (r: Option<Result<String, &'static str>>)
        ensures
            match r {
                Some(r) => is_short_url(url@) && is_discovery(url@, r),
                None => !is_short_url(url@),
            },
    {
        if check_short_url(url) {
            Some(Self::uri(url))
        } else {
            None
        }
    }
}

/// Whether this is where the identity provider at the url tells of itself. Unless the url is one
/// of a file, it is the url with the slash at the end of its path dropped and the two segments
/// added.
pub open spec fn is_discovery(url: Seq<char>, answer: Result<String, &'static str>) -> bool {
    &&& discovered(below(parsed_parts(url), discovery_segments()), answer)
    &&& answer matches Ok(text) ==> ({
        let parts = parsed_parts(url)->0;
        parts.is_file() || text@ == parts.before + with_segments(
            without_empty_segment(parts.path),
            discovery_segments(),
        ) + parts.after
    })
}

/// Whether the answer goes with the url that was put together, or with there being none.
pub open spec fn discovered(
    extended: Option<Seq<char>>,
    answer: Result<String, &'static str>,
) -> bool {
    match extended {
        Some(text) => answer is Ok && answer->Ok_0@ == text,
        None => answer is Err && answer->Err_0@ == "Invalid url"@,
    }
}

/// The answer for the url that was put together, or for there being none.
pub fn discovery_of(extended: Option<String>) -> (r: Result<String, &'static str>)
    ensures
        discovered(
            match extended {
                Some(text) => Some(text@),
                None => None,
            },
            r,
        ),
{
    match extended {
        Some(text) => Ok(text),
        None => Err("Invalid url"),
    }
}

/// Why a login failed.
#[derive(Debug)]
pub enum LoginError {
    /// Nobody logged in.
    Aborted,
    /// The identity provider refused.
    Response(String),
}

impl LoginError {
    /// The text of the error.
    pub fn message(&self) -> (r: String)
        ensures
            r@ == match *self {
                LoginError::Aborted => "Login aborted"@,
                LoginError::Response(text) => "Response error: "@ + text@,
            },
    {
        match self {
            LoginError::Aborted => "Login aborted".to_owned(),
            LoginError::Response(text) => {
                let mut r = "Response error: ".to_owned();
                r.append(text.as_str());
                r
            },
        }
    }
}

/// What a user needs to log in.
#[derive(Debug)]
pub struct LoginRequest {
    /// Where to go.
    pub verification_uri: String,
    /// What to enter there.
    pub user_code: String,
    /// Where to go to enter nothing.
    pub verification_uri_complete: Option<String>,
}

/// Lets nobody log in.
#[derive(Copy, Clone, Debug)]
pub struct NoAuth();

impl NoAuth {
    /// Gives up.
    pub fn login(&self, request: LoginRequest) -> (r: Result<TokenResponse, LoginError>)
        ensures
            r == Err::<TokenResponse, LoginError>(LoginError::Aborted),
    {
        Err(LoginError::Aborted)
    }
}

/// Tells the user on the terminal how to log in.
#[derive(Copy, Clone, Debug)]
pub struct StdoutAuth();

/// What is told on how to log in.
pub open spec fn login_lines(request: LoginRequest) -> Seq<Seq<char>> {
    let told = seq![
        "New oidc login required"@,
        "Open this URL in your browser "@ + request.verification_uri@ + " and enter the code "@
            + request.user_code@,
    ];
    match request.verification_uri_complete {
        Some(uri) => told.push("or go directly to "@ + uri@),
        None => told,
    }
}

impl StdoutAuth {
    /// What is told, line by line.
    pub fn lines(&self, request: &LoginRequest) -> (r: Vec<String>)
        ensures
            texts(r@) == login_lines(*request),
    {
        let mut r: Vec<String> = Vec::new();
        r.push("New oidc login required".to_owned());
        let mut line = "Open this URL in your browser ".to_owned();
        line.append(request.verification_uri.as_str());
        line.append(" and enter the code ");
        line.append(request.user_code.as_str());
        r.push(line);
        if let Some(uri) = &request.verification_uri_complete {
            let mut direct = "or go directly to ".to_owned();
            direct.append(uri.as_str());
            r.push(direct);
        }
        assert(texts(r@) =~= login_lines(*request));
        r
    }
}

/// How many nanoseconds a second has.
pub const NANOS: u128 = 1_000_000_000;

/// The first second since the epoch that a clock cannot show.
pub const CLOCK_END: u128 = 0x8000_0000_0000_0000;

/// A token, with when it expires in nanoseconds since the epoch.
#[derive(Debug)]
pub struct Token {
    /// What a new token can be had with.
    pub refresh: Option<String>,
    /// When it expires.
    pub expires: Option<u128>,
    /// The token itself.
    pub access: String,
}

/// What an identity provider gives.
#[derive(Debug)]
pub struct TokenResponse {
    /// The token itself.
    pub access: String,
    /// What the next token can be had with.
    pub refresh: Option<String>,
    /// In how many seconds it expires.
    pub expires_in: Option<u64>,
}

/// When a token is kept in a file, only the seconds of its expiry are.
pub fn kept_expiry(expires: u128) -> (r: u128)
    ensures
        r == expires / NANOS,
{
    expires / 1_000_000_000
}

/// What to do to have a token.
#[derive(Debug)]
pub enum OidcStep {
    /// Read the file that tokens are kept in.
    ReadCache(String),
    /// Ask for a new token with this.
    Refresh(String),
    /// Have the user log in.
    Login,
    /// Use this token.
    Use(String),
    /// Give up.
    Fail(LoginError),
}

/// Has tokens of an identity provider.
#[derive(Debug)]
pub struct OidcClient {
    /// Where the identity provider is.
    pub url: String,
    /// The id of the client there.
    pub client_id: String,
    /// The token, if there is one.
    pub token: Option<Token>,
    /// File that tokens are kept in.
    pub token_cache: Option<String>,
}

/// Whether this is the step for a token that is there.
pub open spec fn is_step_for(step: OidcStep, token: Token, now: u128) -> bool {
    let expired = match token.expires {
        Some(expires) => expires < now,
        None => false,
    };
    if !expired {
        step is Use && step->Use_0@ == token.access@
    } else {
        match token.refresh {
            Some(refresh) => step is Refresh && step->Refresh_0@ == refresh@,
            None => step is Login,
        }
    }
}

/// Whether these are the refresh of a token: what can be used for the next one stays where the
/// identity provider gives nothing new.
pub open spec fn is_updated(
    before: Option<Token>,
    after: Option<Token>,
    response: TokenResponse,
    now: u128,
) -> bool {
    match after {
        None => false,
        Some(token) => {
            &&& token.access@ == response.access@
            &&& match response.expires_in {
                Some(seconds) => token.expires == Some((now + seconds * NANOS) as u128),
                None => token.expires is None,
            }
            &&& match (response.refresh, before) {
                (Some(refresh), _) => token.refresh is Some && token.refresh->0@ == refresh@,
                (None, Some(before)) => match before.refresh {
                    Some(refresh) => token.refresh is Some && token.refresh->0@ == refresh@,
                    None => token.refresh is None,
                },
                (None, None) => token.refresh is None,
            }
        },
    }
}

/// Whether the clock can show when the token expires.
pub open spec fn has_expiry(response: TokenResponse, now: u128) -> bool {
    &&& now < CLOCK_END * NANOS
    &&& match response.expires_in {
        Some(seconds) => now + seconds * NANOS < CLOCK_END * NANOS,
        None => true,
    }
}

impl OidcClient {
    /// Without a token.
    pub fn new(url: String, client_id: String, token_cache: Option<String>) -> (r: Self)
        ensures
            r.url == url,
            r.client_id == client_id,
            r.token is None,
            r.token_cache == token_cache,
    {
        OidcClient { url, client_id, token: None, token_cache }
    }

    fn step_for(token: &Token, now: u128) -> (r: OidcStep)
        ensures
            is_step_for(r, *token, now),
    {
        let expired = match token.expires {
            Some(expires) => expires < now,
            None => false,
        };
        if !expired {
            OidcStep::Use(token.access.clone())
        } else {
            match &token.refresh {
                Some(refresh) => OidcStep::Refresh(refresh.clone()),
                None => OidcStep::Login,
            }
        }
    }

    /// What to do first to have a token.
    pub fn access_token(&self, now: u128) -> (r: OidcStep)
        ensures
            match self.token {
                Some(token) => is_step_for(r, token, now),
                None => match self.token_cache {
                    Some(file) => r is ReadCache && r->ReadCache_0@ == file@,
                    None => r is Login,
                },
            },
    {
        match &self.token {
            Some(token) => Self::step_for(token, now),
            None => match &self.token_cache {
                Some(file) => OidcStep::ReadCache(file.clone()),
                None => OidcStep::Login,
            },
        }
    }

    /// What to do after the file that tokens are kept in was read, with what was found there.
    pub fn on_cache(&mut self, token: Option<Token>, now: u128) -> (r: OidcStep)
        ensures
            final(self).token == token,
            *final(self) == (OidcClient { token: final(self).token, ..*old(self) }),
            match token {
                Some(token) => is_step_for(r, token, now),
                None => r is Login,
            },
    {
        let step = match &token {
            Some(token) => Self::step_for(token, now),
            None => OidcStep::Login,
        };
        self.token = token;
        step
    }

    /// Takes a token in.
    fn update_token(&mut self, response: TokenResponse, now: u128)
        requires
            has_expiry(response, now),
        ensures
            is_updated(old(self).token, final(self).token, response, now),
            *final(self) == (OidcClient { token: final(self).token, ..*old(self) }),
    {
        let expires = match response.expires_in {
            Some(seconds) => {
                assert(seconds * NANOS <= 0xffff_ffff_ffff_ffff * 1_000_000_000)
                    by (nonlinear_arith)
                    requires
                        seconds <= 0xffff_ffff_ffff_ffff,
                        NANOS == 1_000_000_000,
                ;
                Some(now + seconds as u128 * 1_000_000_000)
            },
            None => None,
        };
        let mut before: Option<Token> = None;
        std::mem::swap(&mut self.token, &mut before);
        let refresh = match response.refresh {
            Some(refresh) => Some(refresh),
            None => match before {
                Some(token) => token.refresh,
                None => None,
            },
        };
        self.token = Some(Token { refresh, expires, access: response.access });
    }

    /// What to do after a new token was asked for: where none was given the user has to log in.
    pub fn on_refreshed(&mut self, response: Option<TokenResponse>, now: u128) -> (r: OidcStep)
        requires
            response matches Some(response) ==> has_expiry(response, now),
        ensures
            *final(self) == (OidcClient { token: final(self).token, ..*old(self) }),
            match response {
                Some(response) => is_updated(old(self).token, final(self).token, response, now)
                    && r is Use && r->Use_0@ == response.access@,
                None => r is Login && *final(self) == *old(self),
            },
    {
        match response {
            Some(response) => {
                let access = response.access.clone();
                self.update_token(response, now);
                OidcStep::Use(access)
            },
            None => OidcStep::Login,
        }
    }

    /// What to do after the user was asked to log in.
    pub fn on_login(&mut self, response: Result<TokenResponse, LoginError>, now: u128) -> (r:
        OidcStep)
        requires
            response matches Ok(response) ==> has_expiry(response, now),
        ensures
            *final(self) == (OidcClient { token: final(self).token, ..*old(self) }),
            match response {
                Ok(response) => is_updated(old(self).token, final(self).token, response, now)
                    && r is Use && r->Use_0@ == response.access@,
                Err(error) => r == OidcStep::Fail(error) && *final(self) == *old(self),
            },
    {
        match response {
            Ok(response) => {
                let access = response.access.clone();
                self.update_token(response, now);
                OidcStep::Use(access)
            },
            Err(error) => OidcStep::Fail(error),
        }
    }
}

/// A token that was just given is used until it expires, without asking anyone.
pub proof fn law_token_is_reused(
    before: Option<Token>,
    after: Option<Token>,
    response: TokenResponse,
    now: u128,
    later: u128,
    step: OidcStep,
)
    requires
        has_expiry(response, now),
        is_updated(before, after, response, now),
        response.expires_in matches Some(seconds) ==> later <= now + seconds * NANOS,
        is_step_for(step, after->0, later),
    ensures
        step is Use,
        step->Use_0@ == response.access@,
{
    if let Some(seconds) = response.expires_in {
        assert(now + seconds * NANOS <= u128::MAX);
    }
}

/// What a new token can be had with is never lost: an answer without one keeps the last.
pub proof fn law_refresh_is_kept(
    before: Token,
    after: Option<Token>,
    response: TokenResponse,
    now: u128,
)
    requires
        is_updated(Some(before), after, response, now),
        before.refresh is Some,
    ensures
        after is Some,
        after->0.refresh is Some,
        response.refresh is None ==> after->0.refresh->0@ == before.refresh->0@,
{
}

/// A token is used exactly until it expires. After that a new one is asked for with what the last
/// one came with, and the user has to log in where it came with nothing.
pub proof fn law_expired_tokens_are_not_used(step: OidcStep, token: Token, now: u128)
    requires
        is_step_for(step, token, now),
    ensures
        token.expires is None ==> step is Use,
        token.expires matches Some(expires) ==> (step is Use <==> now <= expires),
        step is Use ==> step->Use_0@ == token.access@,
        step is Refresh ==> token.refresh is Some && step->Refresh_0@ == token.refresh->0@,
        step is Login ==> token.refresh is None && token.expires is Some,
        !(step is ReadCache) && !(step is Fail),
{
}

/// A token expires as many seconds after it was given as the identity provider says.
pub proof fn law_tokens_expire_in_time(
    before: Option<Token>,
    after: Option<Token>,
    response: TokenResponse,
    now: u128,
)
    requires
        has_expiry(response, now),
        is_updated(before, after, response, now),
    ensures
        after is Some,
        after->0.access@ == response.access@,
        response.expires_in is None ==> after->0.expires is None,
        response.expires_in matches Some(seconds) ==> after->0.expires == Some(
            (now + seconds * 1_000_000_000) as u128,
        ),
        response.refresh is Some ==> after->0.refresh is Some && after->0.refresh->0@
            == response.refresh->0@,
        response.refresh is None && before is None ==> after->0.refresh is None,
{
}

} // verus!
