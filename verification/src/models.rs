//! Data models of the enrollment flows and node queries around the
//! authenticator: access tokens, enrollment-token requests, identity
//! responses, and the well-known service addresses.

use vstd::prelude::*;
use crate::types::{Attr, attrs_of};

verus! {

/// An opaque access token in textual form.
pub struct Token(pub String);

impl Token {
    pub fn new(token: String) -> (r: Token)
        ensures
            r.0@ == token@,
    {
        Token(token)
    }
}

/// What kind of token an authorization flow produced.
#[derive(Clone, Copy, PartialEq, Eq, Structural, Debug)]
pub enum TokenType {
    Bearer,
}

/// A device authorization grant in progress.
pub struct DeviceCode {
    pub device_code: String,
    pub user_code: String,
    pub verification_uri: String,
    pub verification_uri_complete: String,
    pub expires_in: usize,
    pub interval: usize,
}

/// An error reported by the token endpoint.
pub struct TokensError {
    pub error: String,
    pub error_description: String,
}

/// A token obtained from the device authorization flow.
pub struct Auth0Token {
    pub token_type: TokenType,
    pub access_token: Token,
}

/// The body that authenticates with such a token.
pub struct AuthenticateAuth0Token {
    pub token_type: TokenType,
    pub access_token: Token,
}

impl AuthenticateAuth0Token {
    pub fn new(token: Auth0Token) -> (r: Self)
        ensures
            r.token_type == token.token_type,
            r.access_token.0@ == token.access_token.0@,
    {
        AuthenticateAuth0Token {
            token_type: token.token_type,
            access_token: token.access_token,
        }
    }
}

/// The body that asks for an enrollment token over the given attributes.
pub struct RequestEnrollmentToken {
    pub attributes: Vec<Attr>,
}

impl RequestEnrollmentToken {
    pub fn new(attributes: Vec<Attr>) -> (r: Self)
        ensures
            attrs_of(r.attributes@) == attrs_of(attributes@),
    {
        RequestEnrollmentToken { attributes }
    }
}

/// An enrollment token handed back by the authority.
pub struct EnrollmentToken {
    pub token: Token,
}

impl EnrollmentToken {
    pub fn new(token: Token) -> (r: Self)
        ensures
            r.token.0@ == token.0@,
    {
        EnrollmentToken { token }
    }
}

/// The body that authenticates with an enrollment token.
pub struct AuthenticateEnrollmentToken {
    pub token: Token,
}

impl AuthenticateEnrollmentToken {
    pub fn new(token: EnrollmentToken) -> (r: Self)
        ensures
            r.token.0@ == token.token.0@,
    {
        AuthenticateEnrollmentToken { token: token.token }
    }
}

/// The full exported identity of a node.
pub struct LongIdentityResponse {
    pub identity: Vec<u8>,
}

impl LongIdentityResponse {
    pub fn new(identity: Vec<u8>) -> (r: Self)
        ensures
            r.identity@ == identity@,
    {
        LongIdentityResponse { identity }
    }
}

/// The short identifier of a node's identity.
pub struct ShortIdentityResponse {
    pub identity_id: String,
}

impl ShortIdentityResponse {
    pub fn new(identity_id: String) -> (r: Self)
        ensures
            r.identity_id@ == identity_id@,
    {
        ShortIdentityResponse { identity_id }
    }
}

/// The well-known addresses the node's standard services listen on.
pub struct DefaultAddress;

impl DefaultAddress {
    pub const VAULT_SERVICE: &'static str = "vault_service";

    pub const IDENTITY_SERVICE: &'static str = "identity_service";

    pub const AUTHENTICATED_SERVICE: &'static str = "authenticated";

    pub const FORWARDING_SERVICE: &'static str = "forwarding_service";

    pub const UPPERCASE_SERVICE: &'static str = "uppercase";

    pub const ECHO_SERVICE: &'static str = "echo";

    pub const HOP_SERVICE: &'static str = "hop";

    pub const CREDENTIALS_SERVICE: &'static str = "credentials";

    pub const SECURE_CHANNEL_LISTENER: &'static str = "api";

    pub const AUTHENTICATOR: &'static str = "authenticator";

    pub const VERIFIER: &'static str = "verifier";

    pub const OKTA_IDENTITY_PROVIDER: &'static str = "okta";

    pub const KAFKA_CONSUMER: &'static str = "kafka_consumer";

    pub const KAFKA_PRODUCER: &'static str = "kafka_producer";
}

} // verus!
