//! An organizational certificate authority for public-key certificates.
//!
//! The library issues certifications over user identities, manages
//! cross-organization trust relationships ("bridges"), and produces and
//! applies revocations.  Its signing operations are served either by an
//! online database holding the CA private key (the softkey backend), or by
//! a two-instance split design: an online "front" instance that holds no
//! private key material and queues signing tasks, and an offline "back"
//! instance that holds the key and answers the queue through exchanged
//! files.

pub mod armor;
pub mod ca;
pub mod clock;
pub mod codec;
pub mod digest;
pub mod domain;
pub mod errors;
pub mod export;
pub mod laws;
pub mod model;
pub mod pgp;
pub mod queue;
pub mod secret;
pub mod split;
pub mod storage;
pub mod strings;

pub use clock::now_timestamp;
pub use digest::hex_of;
pub use digest::sha256_of;
pub use digest::to_hex;
pub use domain::check_domain;
pub use domain::valid_domain;
pub use errors::CaError;
