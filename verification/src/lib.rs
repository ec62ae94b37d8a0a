//! A project-scoped direct authenticator: it admits "enrollers" from an
//! allow-list, lets them mint short-lived one-time enrollment codes and add
//! members directly, keeps attribute claims per identity, and issues
//! attribute credentials to members over a mutually-authenticated channel.
//!
//! The wire frames, the attribute store, the enroller directory, the bounded
//! token cache and the request state machine are all specified and verified
//! here; transports, file reading, randomness, and signing are supplied by
//! the host through plain values, trusted wrappers, or a signer trait.

pub mod address;
pub mod cache;
pub mod cbor;
pub mod client;
pub mod codec;
pub mod directory;
pub mod issuer;
pub mod laws;
pub mod models;
pub mod server;
pub mod store;
pub mod types;
pub mod x3dh;
