//! Pure-Rust Kerberos v5 library core: credential caches, keytabs,
//! Kerberos cryptographic profiles, and principal names, with their
//! behaviour stated and proved in Verus.

pub mod der;
pub mod wire;
pub mod asn1;
pub mod text;
pub mod file_name;
pub mod ccache;
pub mod keytab;
mod bits;
mod primitives;
pub mod crypto;
pub mod key_usage;
pub mod registry;
pub mod client;
pub mod config;
pub mod kadmin;
pub mod evaluation;
mod cipher_modes;
