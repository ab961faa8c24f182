//! Error taxonomy of the CA.
//!
//! Every failure surfaces as a distinguishable variant; none is retried
//! automatically.  Protocol mismatches name the expected and the actual
//! value.

use vstd::prelude::*;

verus! {

/// The error kinds of the library.
#[derive(Debug, Clone, PartialEq, Eq)]
pub enum CaError {
    /// A CA record already exists; initialization is one-time.
    AlreadyInitialized,
    /// The CA has not been initialized yet.
    NotInitialized,
    /// The domain name failed the syntax check.
    InvalidDomain,
    /// The remote certificate does not carry exactly one identity.
    WrongIdentityCount,
    /// The CA has no certification-capable key (or not exactly one where
    /// one is required).
    NoCertificationKey,
    /// The CA has no signing-capable key with secret material.
    NoSigningKey,
    /// The CA certificate carries no user id.
    NoCaUserId,
    /// The operation needs local private key material and was invoked on
    /// the split-front instance; it must be performed on the back instance.
    UnsupportedOnFrontInstance,
    /// A write (or a read without an overlay database) was attempted on the
    /// read-only back-instance storage view.
    UnsupportedOnBackDb,
    /// A container carried an unexpected format version.
    VersionMismatch { expected: u64, actual: u64 },
    /// A container carried the fingerprint of a different CA.
    FingerprintMismatch { expected_fp: String, actual_fp: String },
    /// A response referenced a queue id the front never issued.
    UnknownQueueId { id: u64 },
    /// A response referenced a certificate fingerprint not present in
    /// storage.
    UnknownFingerprint { fingerprint: String },
    /// Malformed base64 or signature bytes in a response entry.
    DecodeFailure,
    /// A looked-up record (bridge, revocation, certificate, user) does not
    /// exist.
    NotFound,
    /// A revocation could not be validated against any stored certificate.
    InvalidRevocation,
    /// An input value was rejected (unexpected email shape, inconsistent
    /// update, suspicious file name).
    BadInput,
    /// An internal identifier space was exhausted.
    StorageFull,
}

} // verus!
