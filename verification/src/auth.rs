//! The bearer credential of the translation service: when the one at hand
//! still serves, and what to claim when a new one must be minted. Signing the
//! claims and exchanging them for a token is the caller's part.

use crate::text::{join, joined};
use vstd::prelude::*;
use vstd::string::*;

verus! {

/// For how many seconds a freshly minted token is used: 45 minutes.
pub const TOKEN_LIFETIME: i64 = 2700;

/// The credentials of a service account, as its key file gives them.
#[derive(Debug)]
pub struct ApplicationCredentials {
    pub cred_type: String,
    pub project_id: String,
    pub private_key_id: String,
    pub private_key: String,
    pub client_email: String,
    pub client_id: String,
    pub auth_uri: String,
    pub token_uri: String,
    pub auth_provider_x509_cert_url: String,
    pub client_x509_cert_url: String,
}

/// A point in time: seconds since the epoch, and nanoseconds into the
/// second.
#[derive(Debug, Clone, Copy, PartialEq, Eq, Structural)]
pub struct Instant {
    pub seconds: i64,
    pub nanos: u32,
}

impl Instant {
    /// Whether `self` is no earlier than `other`.
    pub open spec fn spec_not_before(self, other: Instant) -> bool {
        self.seconds > other.seconds || (self.seconds == other.seconds && self.nanos
            >= other.nanos)
    }

    /// Whether `self` is no earlier than `other`.
    pub fn not_before(&self, other: &Instant) -> (later: bool)
        ensures
            later == self.spec_not_before(*other),
    {
        self.seconds > other.seconds || (self.seconds == other.seconds && self.nanos
            >= other.nanos)
    }
}

/// The address that tokens are minted at, and that claims are made out to.
pub open spec fn spec_auth_endpoint() -> Seq<char> {
    "https://oauth2.googleapis.com/token"@
}

/// The address that tokens are minted at.
pub fn auth_endpoint() -> (endpoint: String)
    ensures
        endpoint@ == spec_auth_endpoint(),
{
    String::from_str("https://oauth2.googleapis.com/token")
}

/// The value of a token.
#[derive(Debug)]
pub enum TokenValue {
    Bearer(String),
}

impl TokenValue {
    /// The value as an `Authorization` header carries it.
    pub open spec fn spec_header(&self) -> Seq<char> {
        match self {
            TokenValue::Bearer(token) => "Bearer "@ + token@,
        }
    }

    /// The value as an `Authorization` header carries it.
    pub fn header(&self) -> (header: String)
        ensures
            header@ == self.spec_header(),
    {
        match self {
            TokenValue::Bearer(token) => {
                let mut header = String::from_str("Bearer ");
                header.append(token.as_str());
                header
            },
        }
    }
}

/// A token and the time until which it is used.
#[derive(Debug)]
pub struct Token {
    pub value: TokenValue,
    pub expiry: Instant,
}

/// What is claimed to have a token minted.
#[derive(Debug, PartialEq, Eq)]
pub struct Claims {
    pub iss: String,
    pub scope: String,
    pub aud: String,
    pub exp: i64,
    pub iat: i64,
}

/// The mathematical content of `Claims`.
pub struct ClaimsView {
    pub iss: Seq<char>,
    pub scope: Seq<char>,
    pub aud: Seq<char>,
    pub exp: i64,
    pub iat: i64,
}

impl View for Claims {
    type V = ClaimsView;

    open spec fn view(&self) -> ClaimsView {
        ClaimsView {
            iss: self.iss@,
            scope: self.scope@,
            aud: self.aud@,
            exp: self.exp,
            iat: self.iat,
        }
    }
}

/// What to do to have a token.
#[derive(Debug, PartialEq, Eq)]
pub enum TokenStep {
    /// The token at hand still serves: this is its header value.
    Use(String),
    /// A token must be minted with these claims, to be used until the
    /// given time.
    Mint(Claims, Instant),
}

/// The mathematical content of a `TokenStep`.
pub enum TokenStepView {
    Use(Seq<char>),
    Mint(ClaimsView, Instant),
}

impl View for TokenStep {
    type V = TokenStepView;

    open spec fn view(&self) -> TokenStepView {
        match self {
            TokenStep::Use(header) => TokenStepView::Use(header@),
            TokenStep::Mint(claims, expiry) => TokenStepView::Mint(claims@, *expiry),
        }
    }
}

/// The token of one service account for one set of scopes, minted when it
/// is first asked for and again whenever it has run out.
#[derive(Debug)]
pub struct TokenManager {
    pub client_email: String,
    pub scopes: String,
    pub current_token: Option<Token>,
}

impl TokenManager {
    /// A manager that has no token yet.
    pub fn new(creds: &ApplicationCredentials, scopes: &Vec<String>) -> (manager: TokenManager)
        ensures
            manager.client_email@ == creds.client_email@,
            manager.scopes@ == joined(scopes.deep_view(), " "@),
            manager.current_token is None,
    {
        TokenManager {
            client_email: creds.client_email.clone(),
            scopes: join(scopes, " "),
            current_token: None,
        }
    }

    /// The claims for a token minted at `now`.
    pub open spec fn claims_at(&self, now: Instant) -> ClaimsView {
        ClaimsView {
            iss: self.client_email@,
            scope: self.scopes@,
            aud: spec_auth_endpoint(),
            exp: (now.seconds + TOKEN_LIFETIME) as i64,
            iat: now.seconds,
        }
    }

    /// What to do at `now` to have a token.
    pub open spec fn spec_token(&self, now: Instant) -> TokenStepView {
        match self.current_token {
            Some(token) if token.expiry.spec_not_before(now) => TokenStepView::Use(
                token.value.spec_header(),
            ),
            _ => TokenStepView::Mint(
                self.claims_at(now),
                Instant { seconds: (now.seconds + TOKEN_LIFETIME) as i64, nanos: now.nanos },
            ),
        }
    }

    /// Decides, at the time `now`, between the token at hand and a new one.
    /// A token serves up to and including the moment it runs out.
    pub fn token(&self, now: Instant) -> (step: TokenStep)
        requires
            now.seconds + TOKEN_LIFETIME <= i64::MAX,
        ensures
            step@ == self.spec_token(now),
    {
        match &self.current_token {
            Some(token) if token.expiry.not_before(&now) => TokenStep::Use(token.value.header()),
            _ => {
                let until: i64 = now.seconds + TOKEN_LIFETIME;
                TokenStep::Mint(
                    Claims {
                        iss: self.client_email.clone(),
                        scope: self.scopes.clone(),
                        aud: auth_endpoint(),
                        exp: until,
                        iat: now.seconds,
                    },
                    Instant { seconds: until, nanos: now.nanos },
                )
            },
        }
    }

    /// Keeps the token that was minted, and gives its header value.
    pub fn store(&mut self, access_token: String, expiry: Instant) -> (header: String)
        ensures
            header@ == "Bearer "@ + access_token@,
            final(self).current_token matches Some(token) && token.expiry == expiry
                && token.value.spec_header() == header@,
            final(self).client_email == old(self).client_email,
            final(self).scopes == old(self).scopes,
    {
        let value = TokenValue::Bearer(access_token);
        let header = value.header();
        self.current_token = Some(Token { value, expiry });
        header
    }
}

/// The body of the request that exchanges a signed assertion for a token.
pub fn grant_form(assertion: &str) -> (form: String)
    ensures
        form@ == "grant_type=urn:ietf:params:oauth:grant-type:jwt-bearer&assertion="@
            + assertion@,
{
    let mut form = String::from_str(
        "grant_type=urn:ietf:params:oauth:grant-type:jwt-bearer&assertion=",
    );
    form.append(assertion);
    form
}

} // verus!
