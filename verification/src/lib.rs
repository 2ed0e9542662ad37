//! Transport-layer handshake core of an SSH-2 client/server: the byte-exact
//! exchange that happens before any encrypted channel exists.
//!
//! The crate covers the plaintext version banner, the binary packet framing,
//! the primitive wire types (strings, name-lists, booleans, multi-precision
//! integers), the algorithm negotiation by ordered-set intersection, and the
//! client half of a Diffie-Hellman key exchange.

pub mod be;
pub mod config;
pub mod diffie_hellman;
pub mod dummy_config;
pub mod errors;
pub mod io_helpers;
pub mod mpint;
pub mod msgs;
pub mod numbers;
pub mod order;
pub mod packet;
mod rng;
pub mod stream;
pub mod version;
