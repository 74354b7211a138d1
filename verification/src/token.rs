//! Access tokens: where a tenant's token is kept, when a kept token can be
//! used, how a new one is asked for, and the order of these steps.

use vstd::prelude::*;
use base64::Engine;
use crate::configuration::ClientConfiguration;
use crate::model::duplicate_text;
use crate::text::{decimal_text, u64_to_string};

verus! {

#[verifier::external_type_specification]
#[verifier::external_body]
pub struct ExJwtHeader(jsonwebtoken::Header);

#[verifier::external_type_specification]
#[verifier::external_body]
pub struct ExJwtError(jsonwebtoken::errors::Error);

/// Whether the header of a JSON web token decodes, as
/// `jsonwebtoken::decode_header` decides it.
pub uninterp spec fn jwt_header_decodes(token: Seq<char>) -> bool;

/// `jsonwebtoken::decode_header`: reads the header part of a token. Its
/// outcome depends on the token alone.
#[verifier::external_body]
fn decode_jwt_header(token: &str) -> (r: Result<jsonwebtoken::Header, jsonwebtoken::errors::Error>)
    ensures
        r is Ok <==> jwt_header_decodes(token@),
{
    jsonwebtoken::decode_header(token)
}

/// The text of a `jsonwebtoken` error, as its `Display` renders it; nothing
/// is stated of it, the error being opaque here.
#[verifier::external_body]
fn jwt_error_text(e: &jsonwebtoken::errors::Error) -> String {
    e.to_string()
}

/// The standard Base64 encoding (with padding) of the UTF-8 bytes of a text.
pub uninterp spec fn base64_standard(text: Seq<char>) -> Seq<char>;

/// `base64::engine::general_purpose::STANDARD.encode`: the padded standard
/// Base64 encoding of the text's bytes, a function of the text alone. Its
/// only panic, on a length overflow, needs more bytes than a text can hold.
#[verifier::external_body]
fn base64_encode(text: &str) -> (r: String)
    ensures
        r@ == base64_standard(text@),
{
    base64::engine::general_purpose::STANDARD.encode(text)
}

/// Why no token could be had.
#[derive(Debug)]
pub enum TokenError {
    /// The configuration names no such tenant.
    UnknownTenant(String),
    /// The tenant's client id is empty.
    EmptyClientId,
    /// The identity provider answered with this status and no token.
    ProviderRefused(u16),
    /// The identity provider could not be reached.
    ProviderUnreachable,
    /// A token whose header does not decode, with the decoder's reason.
    InvalidToken(String),
    /// A new token could not be kept.
    WriteFailed,
}

/// The message of each error.
pub open spec fn token_error_text(e: TokenError) -> Seq<char> {
    match e {
        TokenError::UnknownTenant(t) => "Unknown tenant "@ + t@,
        TokenError::EmptyClientId => "Empty cliend ID provided!"@,
        TokenError::ProviderRefused(s) => "Failed to obtain security token from the provider! Status: "@
            + decimal_text(s as nat),
        TokenError::ProviderUnreachable => "Failed to obtain security token from the provider!"@,
        TokenError::InvalidToken(reason) => "Failed to decode token: "@ + reason@,
        TokenError::WriteFailed => "Failed to write token to file"@,
    }
}

impl TokenError {
    /// The message of the error.
    pub fn message(&self) -> (m: String)
        ensures
            m@ == token_error_text(*self),
    {
        match self {
            TokenError::UnknownTenant(t) => {
                let mut m = String::from_str("Unknown tenant ");
                m.append(t.as_str());
                m
            },
            TokenError::EmptyClientId => String::from_str("Empty cliend ID provided!"),
            TokenError::ProviderRefused(s) => {
                let mut m = String::from_str(
                    "Failed to obtain security token from the provider! Status: ",
                );
                let code = u64_to_string(*s as u64);
                m.append(code.as_str());
                m
            },
            TokenError::ProviderUnreachable => String::from_str(
                "Failed to obtain security token from the provider!",
            ),
            TokenError::InvalidToken(reason) => {
                let mut m = String::from_str("Failed to decode token: ");
                m.append(reason.as_str());
                m
            },
            TokenError::WriteFailed => String::from_str("Failed to write token to file"),
        }
    }
}

/// A token can be used when its header decodes; the error carries the
/// decoder's reason.
pub fn validate_token(token: String) -> (r: Result<String, TokenError>)
    ensures
        match r {
            Ok(t) => jwt_header_decodes(token@) && t@ == token@,
            Err(e) => !jwt_header_decodes(token@) && e is InvalidToken,
        },
{
    match decode_jwt_header(token.as_str()) {
        Ok(_) => Ok(token),
        Err(e) => Err(TokenError::InvalidToken(jwt_error_text(&e))),
    }
}

/// The file that keeps the token of a tenant, in the given home directory.
pub fn resolve_file_name(home_directory: &str, tenant: &str) -> (name: String)
    ensures
        name@ == home_directory@ + "/.pcli."@ + tenant@ + ".token"@,
{
    let mut name = String::from_str(home_directory);
    name.append("/.pcli.");
    name.append(tenant);
    name.append(".token");
    name
}

/// What happened at the last step of obtaining a token.
pub enum TokenEvent {
    /// Reading the kept token gave it, or nothing when it could not be read.
    StoredToken(Option<String>),
    /// What the identity provider answered.
    ProviderAnswer(Result<String, TokenError>),
    /// Whether keeping the new token succeeded.
    TokenWritten { token: String, written: bool },
}

/// What to do next while obtaining a token.
pub enum TokenAction {
    /// The token is ready.
    Use(String),
    /// Ask the identity provider for a new token.
    RequestNew,
    /// Keep this new token, then use it.
    Store(String),
    /// No token can be had.
    Fail(TokenError),
}

/// The steps of obtaining a token for a tenant. A kept token is used when
/// it is valid; otherwise (or when none is kept) a new one is asked for,
/// kept, and used. The provider's error ends the attempt, and so does a new
/// token that cannot be kept.
pub fn get_token_for_tenant(event: TokenEvent) -> (action: TokenAction)
    ensures
        match event {
            TokenEvent::StoredToken(Some(t)) => if jwt_header_decodes(t@) {
                action matches TokenAction::Use(u) && u@ == t@
            } else {
                action is RequestNew
            },
            TokenEvent::StoredToken(None) => action is RequestNew,
            TokenEvent::ProviderAnswer(Ok(t)) => action == TokenAction::Store(t),
            TokenEvent::ProviderAnswer(Err(e)) => action == TokenAction::Fail(e),
            TokenEvent::TokenWritten { token, written } => if written {
                action == TokenAction::Use(token)
            } else {
                action == TokenAction::Fail(TokenError::WriteFailed)
            },
        },
{
    match event {
        TokenEvent::StoredToken(Some(t)) => match validate_token(t) {
            Ok(t) => TokenAction::Use(t),
            Err(_) => TokenAction::RequestNew,
        },
        TokenEvent::StoredToken(None) => TokenAction::RequestNew,
        TokenEvent::ProviderAnswer(Ok(t)) => TokenAction::Store(t),
        TokenEvent::ProviderAnswer(Err(e)) => TokenAction::Fail(e),
        TokenEvent::TokenWritten { token, written } => if written {
            TokenAction::Use(token)
        } else {
            TokenAction::Fail(TokenError::WriteFailed)
        },
    }
}

/// The client id and secret of a tenant; an unknown tenant is an error.
pub fn tenant_credentials(configuration: &ClientConfiguration, tenant: &str) -> (r: Result<
    (String, Option<String>),
    TokenError,
>)
    ensures
        match r {
            Ok((id, secret)) => configuration.tenants.spec_map().contains_key(tenant@) && id@
                == configuration.tenants.spec_map()[tenant@].client_id@ && secret.deep_view()
                == configuration.tenants.spec_map()[tenant@].client_secret.deep_view(),
            Err(e) => !configuration.tenants.spec_map().contains_key(tenant@) && (e matches TokenError::UnknownTenant(t)
                && t@ == tenant@),
        },
{
    match configuration.tenants.get(tenant) {
        Some(t) => Ok((t.client_id.clone(), duplicate_text(&t.client_secret))),
        None => Err(TokenError::UnknownTenant(String::from_str(tenant))),
    }
}

/// The authorization header of a token request: `Basic ` and the standard
/// Base64 encoding of the client id and secret joined by a colon. An empty
/// client id is refused.
pub fn authorization_header(client_id: &str, client_secret: &str) -> (r: Result<String, TokenError>)
    ensures
        match r {
            Ok(h) => client_id@.len() > 0 && h@ == "Basic "@ + base64_standard(
                client_id@ + ":"@ + client_secret@,
            ),
            Err(e) => client_id@.len() == 0 && e == TokenError::EmptyClientId,
        },
{
    if client_id.is_empty() {
        return Err(TokenError::EmptyClientId);
    }
    let mut credentials = String::from_str(client_id);
    credentials.append(":");
    credentials.append(client_secret);
    let encoded = base64_encode(credentials.as_str());
    let mut header = String::from_str("Basic ");
    header.append(encoded.as_str());
    Ok(header)
}

/// The identity provider's reply to a token request.
pub enum ProviderReply {
    /// No reply came.
    Unreachable,
    /// A reply with its status and, when its body could be read, the token
    /// it holds.
    Answered { status: u16, access_token: Option<String> },
}

/// The token of a reply: only a reply with status 200 and a readable body
/// gives one; any other reply is refused with its status.
pub fn token_from_reply(reply: ProviderReply) -> (r: Result<String, TokenError>)
    ensures
        match reply {
            ProviderReply::Unreachable => r == Err::<String, TokenError>(
                TokenError::ProviderUnreachable,
            ),
            ProviderReply::Answered { status, access_token } => if status == 200
                && access_token is Some {
                r == Ok::<String, TokenError>(access_token->0)
            } else {
                r == Err::<String, TokenError>(TokenError::ProviderRefused(status))
            },
        },
{
    match reply {
        ProviderReply::Unreachable => Err(TokenError::ProviderUnreachable),
        ProviderReply::Answered { status, access_token } => {
            if status == 200 {
                match access_token {
                    Some(t) => Ok(t),
                    None => Err(TokenError::ProviderRefused(status)),
                }
            } else {
                Err(TokenError::ProviderRefused(status))
            }
        },
    }
}

} // verus!
