//! DER codec for the OCSP request structures of RFC 6960 section 4.1.1.
//!
//! The crate gives each entity of the OCSPRequest object graph a typed
//! representation, a canonical DER encoder, and a strict decoder that
//! accepts exactly the canonical byte form. On top of the generic
//! extension list it offers the well-known nonce-extension lookup.

pub mod codec;
pub mod model;
pub mod types;
pub mod encode;
pub mod decode;
pub mod nonce;
pub mod laws;
