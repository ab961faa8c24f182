//! The CA instance: backends behind one interface.
//!
//! `DbCa` is the softkey backend: the private key sits in storage and
//! signing happens in place.  `SplitCa` is the split-front backend: no
//! private key is available, so every operation that needs one either
//! queues a task or fails towards the back instance.  `SplitBackDb` is
//! the back instance's read-only view; writing through it is a
//! programming error and fails loudly.  `OpenpgpCa` dispatches between
//! the backends.

use vstd::prelude::*;

use crate::armor;
use crate::clock::now_timestamp;
use crate::domain::check_domain;
use crate::domain::valid_domain;
use crate::errors::CaError;
use crate::model::PgpCert;
use crate::model::PgpCertV;
use crate::model::RevocationSig;
use crate::model::Subkey;
use crate::model::copy_pgp_cert;
use crate::model::copy_string_vec;
use crate::model::merge_seq;
use crate::pgp;
use crate::pgp::make_ca_cert_spec;
use crate::pgp::opt_str_view;
use crate::queue::QueueRecord;
use crate::secret;
use crate::split;
use crate::split::ImportStats;
use crate::split::SplitOcaRequests;
use crate::split::SplitOcaResponse;
use crate::storage::BridgeRecord;
use crate::storage::CaRecord;
use crate::storage::CaRecordV;
use crate::storage::CertEmail;
use crate::storage::CertRecord;
use crate::storage::RevocationRecord;
use crate::storage::Storage;
use crate::storage::copy_cert_record;

verus! {

/// A certificate with every secret stripped: the public representation.
pub open spec fn strip_secrets(c: PgpCertV) -> PgpCertV {
    PgpCertV {
        has_private: false,
        keys: c.keys.map_values(|k: Subkey| Subkey { has_secret: false, ..k }),
        ..c
    }
}

/// Strips private key material from a certificate.
#[verifier::loop_isolation(false)]
pub fn strip_secret_key_material(c: &PgpCert) -> (r: PgpCert)
    ensures
        r@ == strip_secrets(c@),
{
    let mut keys: Vec<Subkey> = Vec::new();
    let n = c.keys.len();
    for i in 0..n
        invariant
            keys@ =~= c.keys@.take(i as int).map_values(
                |k: Subkey| Subkey { has_secret: false, ..k },
            ),
    {
        let k = c.keys[i];
        keys.push(Subkey { has_secret: false, ..k });
        proof {
            assert(keys@ =~= c.keys@.take(i + 1).map_values(
                |k: Subkey| Subkey { has_secret: false, ..k },
            ));
        }
    }
    let r = PgpCert {
        fingerprint: c.fingerprint.clone(),
        keys,
        userids: copy_string_vec(&c.userids),
        key_expiry: c.key_expiry,
        notations: copy_string_vec(&c.notations),
        certifications: crate::model::copy_certifications(&c.certifications),
        tsigs: crate::model::copy_tsigs(&c.tsigs),
        revocations: crate::model::copy_revocation_sigs(&c.revocations),
        has_private: false,
    };
    proof {
        assert(c.keys@.take(n as int) =~= c.keys@);
        assert(r@ =~= strip_secrets(c@));
    }
    r
}

/// Storage access of a CA instance that has not been initialized yet.
pub struct UninitDb {
    pub storage: Storage,
}

impl UninitDb {
    /// Wraps a storage handle.
    pub fn new(storage: Storage) -> (r: UninitDb)
        ensures
            r.storage == storage,
    {
        UninitDb { storage }
    }

    /// Hands the storage handle back.
    pub fn db(self) -> (r: Storage)
        ensures
            r == self.storage,
    {
        self.storage
    }

    /// Whether the one-time CA record exists.
    pub fn is_ca_initialized(&self) -> (r: bool)
        ensures
            r == self.storage.ca is Some,
    {
        self.storage.is_ca_initialized()
    }

    /// The stored CA certificate.
    pub fn cacert(&self) -> (r: Result<&PgpCert, CaError>)
        ensures
            match r {
                Ok(c) => self.storage.ca_v() is Some && c@ == self.storage.ca_v()->Some_0.1,
                Err(e) => self.storage.ca is None && e == CaError::NotInitialized,
            },
    {
        match self.storage.get_ca() {
            Ok(p) => Ok(&p.1),
            Err(e) => Err(e),
        }
    }

    /// Initializes a softkey CA: stores the domain and the certificate
    /// with its private key material.  One-time: fails if a CA record
    /// exists, leaving storage unchanged.
    pub fn ca_init_softkey(&mut self, domainname: &str, cert: &PgpCert) -> (r: Result<
        (),
        CaError,
    >)
        ensures
            old(self).storage.ca is Some ==> r == Err::<(), CaError>(CaError::AlreadyInitialized)
                && *final(self) == *old(self),
            old(self).storage.ca is None ==> r == Ok::<(), CaError>(())
                && final(self).storage.ca_v() == Some(
                (CaRecordV { domainname: domainname@, split_front: false }, cert@),
            ) && final(self).storage.certs == old(self).storage.certs
                && final(self).storage.users == old(self).storage.users
                && final(self).storage.emails == old(self).storage.emails
                && final(self).storage.revocations == old(self).storage.revocations
                && final(self).storage.bridges == old(self).storage.bridges
                && final(self).storage.queue == old(self).storage.queue
                && final(self).storage.next_id == old(self).storage.next_id,
            old(self).storage.wf() ==> final(self).storage.wf(),
    {
        let rec = CaRecord { domainname: domainname.to_owned(), split_front: false };
        let r = self.storage.ca_insert(rec, copy_pgp_cert(cert));
        proof {
            if old(self).storage.ca is None {
                assert(final(self).storage.ca_v()->Some_0.0 =~= (CaRecordV {
                    domainname: domainname@,
                    split_front: false,
                }));
            }
        }
        r
    }

    /// Initializes a split-front CA: stores the domain, the split-front
    /// marker, and the certificate's public material only.
    pub fn ca_init_split(&mut self, domainname: &str, cert: &PgpCert) -> (r: Result<(), CaError>)
        ensures
            old(self).storage.ca is Some ==> r == Err::<(), CaError>(CaError::AlreadyInitialized)
                && *final(self) == *old(self),
            old(self).storage.ca is None ==> r == Ok::<(), CaError>(())
                && final(self).storage.ca_v() == Some(
                (
                    CaRecordV { domainname: domainname@, split_front: true },
                    strip_secrets(cert@),
                ),
            ) && final(self).storage.certs == old(self).storage.certs
                && final(self).storage.users == old(self).storage.users
                && final(self).storage.emails == old(self).storage.emails
                && final(self).storage.revocations == old(self).storage.revocations
                && final(self).storage.bridges == old(self).storage.bridges
                && final(self).storage.queue == old(self).storage.queue
                && final(self).storage.next_id == old(self).storage.next_id,
            old(self).storage.wf() ==> final(self).storage.wf(),
    {
        let rec = CaRecord { domainname: domainname.to_owned(), split_front: true };
        let r = self.storage.ca_insert(rec, strip_secret_key_material(cert));
        proof {
            if old(self).storage.ca is None {
                assert(final(self).storage.ca_v()->Some_0.0 =~= (CaRecordV {
                    domainname: domainname@,
                    split_front: true,
                }));
            }
        }
        r
    }

    /// The CA certificate without private key material.
    pub fn ca_get_cert_pub(&self) -> (r: Result<PgpCert, CaError>)
        ensures
            match r {
                Ok(c) => self.storage.ca_v() is Some && c@ == strip_secrets(
                    self.storage.ca_v()->Some_0.1,
                ),
                Err(e) => self.storage.ca is None && e == CaError::NotInitialized,
            },
    {
        match self.storage.get_ca() {
            Ok(p) => Ok(strip_secret_key_material(&p.1)),
            Err(e) => Err(e),
        }
    }

    /// The CA certificate as stored (with private key material when the
    /// backend keeps it there).
    pub fn ca_get_cert_private(&self) -> (r: Result<PgpCert, CaError>)
        ensures
            match r {
                Ok(c) => self.storage.ca_v() is Some && c@ == self.storage.ca_v()->Some_0.1,
                Err(e) => self.storage.ca is None && e == CaError::NotInitialized,
            },
    {
        match self.storage.get_ca() {
            Ok(p) => Ok(copy_pgp_cert(&p.1)),
            Err(e) => Err(e),
        }
    }
}

/// Storage access of the split-front backend's queue.
pub struct QueueDb {
    pub storage: Storage,
}

impl QueueDb {
    /// Wraps a storage handle.
    pub fn new(storage: Storage) -> (r: QueueDb)
        ensures
            r.storage == storage,
    {
        QueueDb { storage }
    }

    /// Appends a task to the queue.
    pub fn queue_insert(&mut self, created: u64, task: crate::queue::QueueEntry) -> (r: Result<
        u64,
        CaError,
    >)
        requires
            old(self).storage.wf(),
        ensures
            final(self).storage.wf(),
            old(self).storage.next_id < u64::MAX ==> r is Ok
                && final(self).storage.queue.deep_view()
                == old(self).storage.queue.deep_view().push(
                crate::queue::QueueRecordV {
                    id: old(self).storage.next_id,
                    created,
                    task: task@,
                    done: false,
                },
            ),
            r is Err ==> *final(self) == *old(self),
    {
        self.storage.queue_insert(created, task)
    }
}

/// The softkey backend: storage holds the CA private key and signing
/// happens in place.
pub struct DbCa {
    pub storage: Storage,
}

impl DbCa {
    /// Wraps a storage handle.
    pub fn new(storage: Storage) -> (r: DbCa)
        ensures
            r.storage == storage,
    {
        DbCa { storage }
    }

    /// Hands the storage handle back.
    pub fn db(self) -> (r: Storage)
        ensures
            r == self.storage,
    {
        self.storage
    }

    /// Initializes the CA: one-time, and only for a syntactically valid
    /// domain name.  Generates the CA key and stores it with the domain.
    pub fn ca_init(&mut self, domainname: &str, name: Option<&str>) -> (r: Result<(), CaError>)
        requires
            old(self).storage.wf(),
        ensures
            final(self).storage.wf(),
            old(self).storage.ca is Some ==> r == Err::<(), CaError>(
                CaError::AlreadyInitialized,
            ) && *final(self) == *old(self),
            old(self).storage.ca is None && !valid_domain(domainname@) ==> r == Err::<
                (),
                CaError,
            >(CaError::InvalidDomain) && *final(self) == *old(self),
            old(self).storage.ca is None && valid_domain(domainname@) ==> r == Ok::<
                (),
                CaError,
            >(()) && (exists|now: u64|
                final(self).storage.ca_v() == Some(
                    (
                        CaRecordV { domainname: domainname@, split_front: false },
                        make_ca_cert_spec(domainname@, opt_str_view(name), now),
                    ),
                )) && final(self).storage.certs == old(self).storage.certs
                && final(self).storage.users == old(self).storage.users
                && final(self).storage.emails == old(self).storage.emails
                && final(self).storage.revocations == old(self).storage.revocations
                && final(self).storage.bridges == old(self).storage.bridges
                && final(self).storage.queue == old(self).storage.queue
                && final(self).storage.next_id == old(self).storage.next_id,
    {
        if self.storage.is_ca_initialized() {
            return Err(CaError::AlreadyInitialized);
        }
        if !check_domain(domainname) {
            return Err(CaError::InvalidDomain);
        }
        let now = now_timestamp();
        let (cert, _revocation) = pgp::make_ca_cert(domainname, name, now);
        let rec = CaRecord { domainname: domainname.to_owned(), split_front: false };
        let r = self.storage.ca_insert(rec, cert);
        proof {
            assert(r is Ok);
            assert(final(self).storage.ca_v()->Some_0.0 =~= (CaRecordV {
                domainname: domainname@,
                split_front: false,
            }));
            assert(final(self).storage.ca_v() == Some(
                (
                    CaRecordV { domainname: domainname@, split_front: false },
                    make_ca_cert_spec(domainname@, opt_str_view(name), now),
                ),
            ));
        }
        Ok(())
    }

    /// The CA certificate with private key material.
    pub fn ca_get_priv_key(&self) -> (r: Result<PgpCert, CaError>)
        ensures
            match r {
                Ok(c) => self.storage.ca_v() is Some && c@ == self.storage.ca_v()->Some_0.1,
                Err(e) => self.storage.ca is None && e == CaError::NotInitialized,
            },
    {
        match self.storage.get_ca() {
            Ok(p) => Ok(copy_pgp_cert(&p.1)),
            Err(e) => Err(e),
        }
    }

    /// The CA certificate without private key material.
    pub fn ca_get_cert_pub(&self) -> (r: Result<PgpCert, CaError>)
        ensures
            match r {
                Ok(c) => self.storage.ca_v() is Some && c@ == strip_secrets(
                    self.storage.ca_v()->Some_0.1,
                ),
                Err(e) => self.storage.ca is None && e == CaError::NotInitialized,
            },
    {
        match self.storage.get_ca() {
            Ok(p) => Ok(strip_secret_key_material(&p.1)),
            Err(e) => Err(e),
        }
    }

    /// The CA's single user id.  Fails unless the CA certificate carries
    /// exactly one.
    pub fn ca_userid(&self) -> (r: Result<String, CaError>)
        ensures
            r is Ok ==> self.storage.ca_v() is Some
                && self.storage.ca_v()->Some_0.1.userids.len() == 1
                && r->Ok_0@ == self.storage.ca_v()->Some_0.1.userids[0],
            self.storage.ca_v() is Some && self.storage.ca_v()->Some_0.1.userids.len() == 1
                ==> r is Ok,
    {
        let ca = match self.storage.get_ca() {
            Ok(p) => &p.1,
            Err(e) => {
                return Err(e);
            },
        };
        if ca.userids.len() != 1 {
            return Err(CaError::NoCaUserId);
        }
        Ok(ca.userids[0].clone())
    }

    /// The CA's email, from its single user id.
    pub fn ca_email(&self) -> (r: Result<String, CaError>)
        ensures
            r is Ok ==> self.storage.ca_v() is Some
                && self.storage.ca_v()->Some_0.1.userids.len() == 1
                && Some(r->Ok_0@) == pgp::email_of_uid(
                self.storage.ca_v()->Some_0.1.userids[0],
            ),
            (self.storage.ca_v() is Some && self.storage.ca_v()->Some_0.1.userids.len() == 1
                && pgp::email_of_uid(self.storage.ca_v()->Some_0.1.userids[0]) is Some)
                ==> r is Ok,
    {
        let uid = match self.ca_userid() {
            Ok(u) => u,
            Err(e) => {
                return Err(e);
            },
        };
        match pgp::uid_email(uid.as_str()) {
            Some(e) => Ok(e),
            None => Err(CaError::BadInput),
        }
    }

    /// The CA's domain, from its email.
    pub fn get_ca_domain(&self) -> (r: Result<String, CaError>)
        ensures
            r is Ok ==> self.storage.ca_v() is Some
                && self.storage.ca_v()->Some_0.1.userids.len() == 1
                && pgp::email_of_uid(self.storage.ca_v()->Some_0.1.userids[0]) is Some
                && Some(r->Ok_0@) == pgp::domain_of_email(
                pgp::email_of_uid(self.storage.ca_v()->Some_0.1.userids[0])->Some_0,
            ),
            (self.storage.ca_v() is Some && self.storage.ca_v()->Some_0.1.userids.len() == 1
                && pgp::email_of_uid(self.storage.ca_v()->Some_0.1.userids[0]) is Some
                && pgp::domain_of_email(
                pgp::email_of_uid(self.storage.ca_v()->Some_0.1.userids[0])->Some_0,
            ) is Some) ==> r is Ok,
    {
        let email = match self.ca_email() {
            Ok(e) => e,
            Err(e) => {
                return Err(e);
            },
        };
        match pgp::email_domain(email.as_str()) {
            Some(d) => Ok(d),
            None => Err(CaError::BadInput),
        }
    }

    /// The CA's public certificate, armored.
    pub fn ca_get_pubkey_armored(&self) -> (r: Result<String, CaError>)
        ensures
            match r {
                Ok(t) => self.storage.ca_v() is Some && t@ == armor::armor_cert_pub(
                    strip_secrets(self.storage.ca_v()->Some_0.1),
                ),
                Err(e) => self.storage.ca is None && e == CaError::NotInitialized,
            },
    {
        match self.ca_get_cert_pub() {
            Ok(c) => Ok(armor::cert_to_armored(&c)),
            Err(e) => Err(e),
        }
    }

    /// Certifies the requested user ids of `cert` with the CA key.
    pub fn sign_user_ids(&self, cert: &PgpCert, uids: &Vec<String>, days: Option<u64>) -> (r:
        Result<PgpCert, CaError>)
        ensures
            r is Ok ==> self.storage.ca_v() is Some && r->Ok_0@ == secret::signed_cert(
                self.storage.ca_v()->Some_0.1,
                cert@,
                uids.deep_view(),
                days,
            ),
            self.storage.ca_v() is Some && self.storage.ca_v()->Some_0.1.userids.len() > 0
                ==> r is Ok,
            self.storage.ca_v() is Some && self.storage.ca_v()->Some_0.1.userids.len() == 0
                ==> r == Err::<PgpCert, CaError>(CaError::NoCaUserId),
    {
        let ca = match self.storage.get_ca() {
            Ok(p) => &p.1,
            Err(e) => {
                return Err(e);
            },
        };
        secret::sign_user_ids(ca, cert, uids, days)
    }

    /// Extends trust to a remote CA with the CA key.
    pub fn bridge_to_remote_ca(&self, remote_ca: &PgpCert, scope_regexes: &Vec<String>) -> (r:
        Result<PgpCert, CaError>)
        ensures
            r is Ok ==> self.storage.ca_v() is Some && remote_ca@.userids.len() == 1
                && r->Ok_0@ == secret::bridged_cert(
                self.storage.ca_v()->Some_0.1,
                remote_ca@,
                scope_regexes.deep_view(),
            ),
            self.storage.ca_v() is Some && remote_ca@.userids.len() == 1 ==> r is Ok,
    {
        let ca = match self.storage.get_ca() {
            Ok(p) => &p.1,
            Err(e) => {
                return Err(e);
            },
        };
        secret::bridge_to_remote_ca(ca, remote_ca, scope_regexes)
    }

    /// Revokes a bridge with the CA key.
    pub fn bridge_revoke(&self, remote_ca: &PgpCert, now: u64) -> (r: Result<
        (RevocationSig, PgpCert),
        CaError,
    >)
        ensures
            r is Ok ==> self.storage.ca_v() is Some && remote_ca@.userids.len() == 1 && {
                let sig = secret::bridge_revocation_of(
                    self.storage.ca_v()->Some_0.1,
                    remote_ca@,
                    now,
                );
                r->Ok_0.0@ == sig && r->Ok_0.1@ == (PgpCertV {
                    revocations: merge_seq(remote_ca@.revocations, seq![sig]),
                    ..remote_ca@
                })
            },
            (self.storage.ca_v() is Some && remote_ca@.userids.len() == 1
                && secret::cert_key_indices(self.storage.ca_v()->Some_0.1).len() == 1)
                ==> r is Ok,
            self.storage.ca_v() is Some && remote_ca@.userids.len() != 1
                ==> r == Err::<(RevocationSig, PgpCert), CaError>(CaError::WrongIdentityCount),
            (self.storage.ca_v() is Some && remote_ca@.userids.len() == 1
                && secret::cert_key_indices(self.storage.ca_v()->Some_0.1).len() != 1)
                ==> r == Err::<(RevocationSig, PgpCert), CaError>(CaError::NoCertificationKey),
    {
        let ca = match self.storage.get_ca() {
            Ok(p) => &p.1,
            Err(e) => {
                return Err(e);
            },
        };
        secret::bridge_revoke(ca, remote_ca, now)
    }

    /// Produces a detached signature over `text`.
    pub fn sign_detached(&self, text: &str) -> (r: Result<String, CaError>)
        ensures
            r is Ok ==> self.storage.ca_v() is Some && r->Ok_0@ == armor::detached_signature(
                self.storage.ca_v()->Some_0.1,
                text@,
            ),
            self.storage.ca_v() is Some && armor::has_signing_key(
                self.storage.ca_v()->Some_0.1,
            ) ==> r is Ok,
    {
        let ca = match self.storage.get_ca() {
            Ok(p) => &p.1,
            Err(e) => {
                return Err(e);
            },
        };
        armor::sign_detached(ca, text)
    }

    /// Generates the pre-dated revocation series artifact.
    pub fn ca_generate_revocations(&self, now: u64) -> (r: Result<String, CaError>)
        requires
            now <= i64::MAX as u64,
        ensures
            r is Ok ==> self.storage.ca_v() is Some && r->Ok_0@ == armor::revocations_artifact(
                self.storage.ca_v()->Some_0.1,
                pgp::email_of_uid(self.storage.ca_v()->Some_0.1.userids[0])->Some_0,
                now,
            ),
            (self.storage.ca_v() is Some && self.storage.ca_v()->Some_0.1.userids.len() == 1
                && pgp::email_of_uid(self.storage.ca_v()->Some_0.1.userids[0]) is Some
                && self.storage.ca_v()->Some_0.1.has_private) ==> r is Ok,
    {
        let email = match self.ca_email() {
            Ok(e) => e,
            Err(e) => {
                return Err(e);
            },
        };
        let ca = match self.storage.get_ca() {
            Ok(p) => &p.1,
            Err(e) => {
                return Err(e);
            },
        };
        armor::ca_generate_revocations(ca, email.as_str(), now)
    }

    /// Merges third-party trust signatures on a copy of the CA
    /// certificate into the stored CA certificate.  The import must carry
    /// the CA's own fingerprint.
    pub fn ca_import_tsig(&mut self, import: &PgpCert) -> (r: Result<(), CaError>)
        requires
            old(self).storage.wf(),
        ensures
            final(self).storage.wf(),
            r is Err ==> *final(self) == *old(self),
            r is Ok ==> old(self).storage.ca_v() is Some
                && import@.fingerprint == old(self).storage.ca_v()->Some_0.1.fingerprint
                && final(self).storage.ca_v() == Some(
                (
                    old(self).storage.ca_v()->Some_0.0,
                    PgpCertV {
                        tsigs: merge_seq(
                            old(self).storage.ca_v()->Some_0.1.tsigs,
                            import@.tsigs,
                        ),
                        ..old(self).storage.ca_v()->Some_0.1
                    },
                ),
            ) && final(self).storage.certs == old(self).storage.certs
                && final(self).storage.queue == old(self).storage.queue,
            (old(self).storage.ca_v() is Some && import@.fingerprint
                == old(self).storage.ca_v()->Some_0.1.fingerprint) ==> r is Ok,
    {
        let merged = {
            let ca = match self.storage.get_ca() {
                Ok(p) => &p.1,
                Err(e) => {
                    return Err(e);
                },
            };
            match pgp::merge_in_tsigs(ca, import) {
                Ok(m) => m,
                Err(e) => {
                    return Err(e);
                },
            }
        };
        let r = self.storage.cacert_update(merged);
        proof {
            assert(r is Ok);
        }
        Ok(())
    }
}

/// The split-front backend: secret operations queue tasks instead of
/// signing; the private key is not present.
pub struct SplitCa {
    pub db: QueueDb,
}

impl SplitCa {
    /// Wraps a storage handle.
    pub fn new(storage: Storage) -> (r: SplitCa)
        ensures
            r.db.storage == storage,
    {
        SplitCa { db: QueueDb { storage } }
    }

    /// The CA certificate (public material only on this backend).
    pub fn cert(&self) -> (r: Result<PgpCert, CaError>)
        ensures
            match r {
                Ok(c) => self.db.storage.ca_v() is Some
                    && c@ == self.db.storage.ca_v()->Some_0.1,
                Err(e) => self.db.storage.ca is None && e == CaError::NotInitialized,
            },
    {
        match self.db.storage.get_ca() {
            Ok(p) => Ok(copy_pgp_cert(&p.1)),
            Err(e) => Err(e),
        }
    }

    /// Queues a certification request; returns the input unchanged.
    pub fn sign_user_ids(
        &mut self,
        cert: &PgpCert,
        uids: &Vec<String>,
        days: Option<u64>,
        now: u64,
    ) -> (r: Result<PgpCert, CaError>)
        requires
            old(self).db.storage.wf(),
        ensures
            final(self).db.storage.wf(),
            r is Err ==> *final(self) == *old(self),
            uids@.len() == 0 ==> r is Ok && *final(self) == *old(self) && r->Ok_0@ == cert@,
            uids@.len() > 0 && old(self).db.storage.next_id < u64::MAX ==> r is Ok
                && r->Ok_0@ == cert@ && final(self).db.storage.queue.deep_view()
                == old(self).db.storage.queue.deep_view().push(
                crate::queue::QueueRecordV {
                    id: old(self).db.storage.next_id,
                    created: now,
                    task: crate::queue::QueueEntryV::CertificationReq(
                        crate::queue::CertificationReqV {
                            cert: cert@,
                            user_ids: uids.deep_view(),
                            days,
                        },
                    ),
                    done: false,
                },
            ) && final(self).db.storage.certs == old(self).db.storage.certs
                && final(self).db.storage.ca == old(self).db.storage.ca,
    {
        split::split_sign_user_ids(&mut self.db.storage, cert, uids, days, now)
    }

    /// Queues a bridge request; returns the remote certificate unchanged
    /// and unsigned.
    pub fn bridge_to_remote_ca(
        &mut self,
        remote_ca: &PgpCert,
        scope_regexes: &Vec<String>,
        now: u64,
    ) -> (r: Result<PgpCert, CaError>)
        requires
            old(self).db.storage.wf(),
        ensures
            final(self).db.storage.wf(),
            r is Err ==> *final(self) == *old(self),
            old(self).db.storage.next_id < u64::MAX ==> r is Ok && r->Ok_0@ == remote_ca@
                && final(self).db.storage.queue.deep_view()
                == old(self).db.storage.queue.deep_view().push(
                crate::queue::QueueRecordV {
                    id: old(self).db.storage.next_id,
                    created: now,
                    task: crate::queue::QueueEntryV::BridgeReq(
                        crate::queue::BridgeReqV {
                            cert: remote_ca@,
                            scope_regexes: scope_regexes.deep_view(),
                        },
                    ),
                    done: false,
                },
            ) && final(self).db.storage.certs == old(self).db.storage.certs
                && final(self).db.storage.ca == old(self).db.storage.ca,
    {
        split::split_bridge_to_remote_ca(&mut self.db.storage, remote_ca, scope_regexes, now)
    }

    /// Exports the pending queue for the back instance.  With nothing
    /// pending there is nothing to export.
    pub fn export_csr_queue(&self, now: u64) -> (r: Result<Option<SplitOcaRequests>, CaError>)
        ensures
            self.db.storage.ca is None ==> r == Err::<Option<SplitOcaRequests>, CaError>(
                CaError::NotInitialized,
            ),
            self.db.storage.ca is Some && split::export_entries(
                self.db.storage.queue.deep_view(),
            ).len() == 0 ==> r == Ok::<Option<SplitOcaRequests>, CaError>(None),
            self.db.storage.ca is Some && split::export_entries(
                self.db.storage.queue.deep_view(),
            ).len() > 0 ==> r is Ok && r->Ok_0 is Some
                && r->Ok_0->Some_0@ == (crate::split::SplitOcaRequestsV {
                version: split::SPLIT_OCA_REQUEST_VERSION,
                ca_fingerprint: self.db.storage.ca_v()->Some_0.1.fingerprint,
                created: now,
                queue: split::export_entries(self.db.storage.queue.deep_view()),
            }),
    {
        split::export_csr_queue(&self.db.storage, now)
    }

    /// Generating CA self-revocations needs the private key: not possible
    /// on the front instance.
    pub fn ca_generate_revocations(&self) -> (r: Result<String, CaError>)
        ensures
            r == Err::<String, CaError>(CaError::UnsupportedOnFrontInstance),
    {
        Err(CaError::UnsupportedOnFrontInstance)
    }

    /// Detached signing needs the private key: not possible on the front
    /// instance.
    pub fn sign_detached(&self, _text: &str) -> (r: Result<String, CaError>)
        ensures
            r == Err::<String, CaError>(CaError::UnsupportedOnFrontInstance),
    {
        Err(CaError::UnsupportedOnFrontInstance)
    }

    /// Revoking a bridge needs the private key: not possible on the front
    /// instance.
    pub fn bridge_revoke(&self, _remote_ca: &PgpCert) -> (r: Result<
        (RevocationSig, PgpCert),
        CaError,
    >)
        ensures
            r == Err::<(RevocationSig, PgpCert), CaError>(CaError::UnsupportedOnFrontInstance),
    {
        Err(CaError::UnsupportedOnFrontInstance)
    }
}

/// The back instance's storage view: reads delegate to an optional
/// mirrored database; every write fails.  Code that tries to mutate the
/// front's authoritative state through the back instance is a programming
/// error and fails loudly instead of corrupting anything.
pub struct SplitBackDb {
    pub readonly: Option<Storage>,
}

impl SplitBackDb {
    /// Wraps an optional mirror of the front's storage.
    pub fn new(readonly: Option<Storage>) -> (r: SplitBackDb)
        ensures
            r.readonly == readonly,
    {
        SplitBackDb { readonly }
    }

    /// The CA record, from the mirror.
    pub fn ca(&self) -> (r: Result<&CaRecord, CaError>)
        ensures
            self.readonly is None ==> r == Err::<&CaRecord, CaError>(
                CaError::UnsupportedOnBackDb,
            ),
            self.readonly is Some ==> match r {
                Ok(c) => self.readonly->Some_0.ca is Some
                    && c@ == self.readonly->Some_0.ca_v()->Some_0.0,
                Err(e) => self.readonly->Some_0.ca is None && e == CaError::NotInitialized,
            },
    {
        match &self.readonly {
            None => Err(CaError::UnsupportedOnBackDb),
            Some(s) => match s.get_ca() {
                Ok(p) => Ok(&p.0),
                Err(e) => Err(e),
            },
        }
    }

    /// The CA certificate record, from the mirror.
    pub fn cacert(&self) -> (r: Result<&PgpCert, CaError>)
        ensures
            self.readonly is None ==> r == Err::<&PgpCert, CaError>(
                CaError::UnsupportedOnBackDb,
            ),
            self.readonly is Some ==> match r {
                Ok(c) => self.readonly->Some_0.ca is Some
                    && c@ == self.readonly->Some_0.ca_v()->Some_0.1,
                Err(e) => self.readonly->Some_0.ca is None && e == CaError::NotInitialized,
            },
    {
        match &self.readonly {
            None => Err(CaError::UnsupportedOnBackDb),
            Some(s) => match s.get_ca() {
                Ok(p) => Ok(&p.1),
                Err(e) => Err(e),
            },
        }
    }

    /// The CA certificate without private key material, from the mirror.
    pub fn ca_get_cert_pub(&self) -> (r: Result<PgpCert, CaError>)
        ensures
            self.readonly is None ==> r == Err::<PgpCert, CaError>(CaError::UnsupportedOnBackDb),
            self.readonly is Some && self.readonly->Some_0.ca is Some ==> r is Ok
                && r->Ok_0@ == strip_secrets(self.readonly->Some_0.ca_v()->Some_0.1),
    {
        match &self.readonly {
            None => Err(CaError::UnsupportedOnBackDb),
            Some(s) => match s.get_ca() {
                Ok(p) => Ok(strip_secret_key_material(&p.1)),
                Err(e) => Err(e),
            },
        }
    }

    /// All stored certificates, from the mirror.
    pub fn certs(&self) -> (r: Result<&Vec<CertRecord>, CaError>)
        ensures
            self.readonly is None ==> r == Err::<&Vec<CertRecord>, CaError>(
                CaError::UnsupportedOnBackDb,
            ),
            self.readonly is Some ==> r is Ok && r->Ok_0 == &self.readonly->Some_0.certs,
    {
        match &self.readonly {
            None => Err(CaError::UnsupportedOnBackDb),
            Some(s) => Ok(s.certs()),
        }
    }

    /// A certificate by identity, from the mirror.
    pub fn cert_by_id(&self, id: u64) -> (r: Result<Option<&CertRecord>, CaError>)
        ensures
            self.readonly is None ==> r is Err,
            self.readonly is Some ==> r is Ok,
    {
        match &self.readonly {
            None => Err(CaError::UnsupportedOnBackDb),
            Some(s) => Ok(s.cert_by_id(id)),
        }
    }

    /// A certificate by fingerprint, from the mirror.
    pub fn cert_by_fp(&self, fp: &str) -> (r: Result<Option<&CertRecord>, CaError>)
        ensures
            self.readonly is None ==> r is Err,
            self.readonly is Some ==> r is Ok && match r->Ok_0 {
                Some(c) => c@.fingerprint == fp@,
                None => !crate::storage::certs_have_fp(
                    self.readonly->Some_0.certs.deep_view(),
                    fp@,
                ),
            },
    {
        match &self.readonly {
            None => Err(CaError::UnsupportedOnBackDb),
            Some(s) => Ok(s.cert_by_fp(fp)),
        }
    }

    /// The certificates linked to an email, from the mirror.
    pub fn certs_by_email(&self, email: &str) -> (r: Result<Vec<CertRecord>, CaError>)
        ensures
            self.readonly is None ==> r is Err,
            self.readonly is Some ==> r is Ok,
    {
        match &self.readonly {
            None => Err(CaError::UnsupportedOnBackDb),
            Some(s) => Ok(s.certs_by_email(email)),
        }
    }

    /// The emails of a certificate, from the mirror.
    pub fn emails_by_cert(&self, cert_id: u64) -> (r: Result<Vec<CertEmail>, CaError>)
        ensures
            self.readonly is None ==> r is Err,
            self.readonly is Some ==> r is Ok,
    {
        match &self.readonly {
            None => Err(CaError::UnsupportedOnBackDb),
            Some(s) => Ok(s.emails_by_cert(cert_id)),
        }
    }

    /// The bridges, from the mirror.
    pub fn list_bridges(&self) -> (r: Result<&Vec<BridgeRecord>, CaError>)
        ensures
            self.readonly is None ==> r is Err,
            self.readonly is Some ==> r is Ok && r->Ok_0 == &self.readonly->Some_0.bridges,
    {
        match &self.readonly {
            None => Err(CaError::UnsupportedOnBackDb),
            Some(s) => Ok(s.list_bridges()),
        }
    }

    /// A bridge by email, from the mirror.
    pub fn bridge_by_email(&self, email: &str) -> (r: Result<Option<&BridgeRecord>, CaError>)
        ensures
            self.readonly is None ==> r is Err,
            self.readonly is Some ==> r is Ok,
    {
        match &self.readonly {
            None => Err(CaError::UnsupportedOnBackDb),
            Some(s) => Ok(s.bridge_by_email(email)),
        }
    }

    /// A queue entry by identity, from the mirror.
    pub fn queue(&self, id: u64) -> (r: Result<Option<&QueueRecord>, CaError>)
        ensures
            self.readonly is None ==> r is Err,
            self.readonly is Some ==> r is Ok,
    {
        match &self.readonly {
            None => Err(CaError::UnsupportedOnBackDb),
            Some(s) => Ok(s.queue_by_id(id)),
        }
    }

    /// The pending queue entries, from the mirror.
    pub fn queue_not_done(&self) -> (r: Result<Vec<QueueRecord>, CaError>)
        ensures
            self.readonly is None ==> r is Err,
            self.readonly is Some ==> r is Ok && r->Ok_0.deep_view()
                == self.readonly->Some_0.queue.deep_view().filter(
                |e: crate::queue::QueueRecordV| !e.done,
            ),
    {
        match &self.readonly {
            None => Err(CaError::UnsupportedOnBackDb),
            Some(s) => Ok(s.queue_not_done()),
        }
    }

    /// The back instance's view is never written: this fails.
    pub fn cacert_update(&self, _cert: &PgpCert) -> (r: Result<(), CaError>)
        ensures
            r == Err::<(), CaError>(CaError::UnsupportedOnBackDb),
    {
        Err(CaError::UnsupportedOnBackDb)
    }

    /// The back instance's view is never written: this fails.
    pub fn ca_import_tsig(&self, _cert: &PgpCert) -> (r: Result<(), CaError>)
        ensures
            r == Err::<(), CaError>(CaError::UnsupportedOnBackDb),
    {
        Err(CaError::UnsupportedOnBackDb)
    }

    /// The back instance's view is never written: this fails.
    pub fn cert_add(&self, _fingerprint: &str, _cert: &PgpCert, _user_id: Option<u64>) -> (r:
        Result<u64, CaError>)
        ensures
            r == Err::<u64, CaError>(CaError::UnsupportedOnBackDb),
    {
        Err(CaError::UnsupportedOnBackDb)
    }

    /// The back instance's view is never written: this fails.
    pub fn cert_update(&self, _cert: &PgpCert) -> (r: Result<(), CaError>)
        ensures
            r == Err::<(), CaError>(CaError::UnsupportedOnBackDb),
    {
        Err(CaError::UnsupportedOnBackDb)
    }

    /// The back instance's view is never written: this fails.
    pub fn cert_delist(&self, _fp: &str) -> (r: Result<(), CaError>)
        ensures
            r == Err::<(), CaError>(CaError::UnsupportedOnBackDb),
    {
        Err(CaError::UnsupportedOnBackDb)
    }

    /// The back instance's view is never written: this fails.
    pub fn cert_deactivate(&self, _fp: &str) -> (r: Result<(), CaError>)
        ensures
            r == Err::<(), CaError>(CaError::UnsupportedOnBackDb),
    {
        Err(CaError::UnsupportedOnBackDb)
    }

    /// The back instance's view is never written: this fails.
    pub fn user_add(&self, _name: Option<String>, _fingerprint: &str, _cert: &PgpCert) -> (r:
        Result<u64, CaError>)
        ensures
            r == Err::<u64, CaError>(CaError::UnsupportedOnBackDb),
    {
        Err(CaError::UnsupportedOnBackDb)
    }

    /// The back instance's view is never written: this fails.
    pub fn revocation_add(&self, _revocation: &RevocationSig) -> (r: Result<u64, CaError>)
        ensures
            r == Err::<u64, CaError>(CaError::UnsupportedOnBackDb),
    {
        Err(CaError::UnsupportedOnBackDb)
    }

    /// The back instance's view is never written: this fails.
    pub fn revocation_apply(&self, _rev_id: u64) -> (r: Result<(), CaError>)
        ensures
            r == Err::<(), CaError>(CaError::UnsupportedOnBackDb),
    {
        Err(CaError::UnsupportedOnBackDb)
    }

    /// The back instance's view is never written: this fails.
    pub fn bridge_add(&self, _email: &str, _scope: &str, _cert_id: u64) -> (r: Result<
        u64,
        CaError,
    >)
        ensures
            r == Err::<u64, CaError>(CaError::UnsupportedOnBackDb),
    {
        Err(CaError::UnsupportedOnBackDb)
    }

    /// The back instance's view is never written: this fails.
    pub fn queue_mark_done(&self, _id: u64) -> (r: Result<(), CaError>)
        ensures
            r == Err::<(), CaError>(CaError::UnsupportedOnBackDb),
    {
        Err(CaError::UnsupportedOnBackDb)
    }
}

/// The backend behind a CA instance.
pub enum Backend {
    Softkey(DbCa),
    SplitFront(SplitCa),
}

/// A CA instance: every CA-level operation is written once against the
/// backend interface and behaves identically regardless of backend; the
/// split-front backend silently defers signing by queuing.
pub struct OpenpgpCa {
    pub backend: Backend,
}

impl OpenpgpCa {
    /// The instance's storage.
    pub open spec fn st(&self) -> Storage {
        match self.backend {
            Backend::Softkey(d) => d.storage,
            Backend::SplitFront(s) => s.db.storage,
        }
    }

    /// Whether this is a split-front instance.
    pub open spec fn is_split(&self) -> bool {
        self.backend is SplitFront
    }

    /// The instance's storage, by reference.
    pub fn storage(&self) -> (r: &Storage)
        ensures
            *r == self.st(),
    {
        match &self.backend {
            Backend::Softkey(d) => &d.storage,
            Backend::SplitFront(s) => &s.db.storage,
        }
    }

    /// A fresh, uninitialized softkey instance.
    pub fn new() -> (r: OpenpgpCa)
        ensures
            r.st().ca is None,
            r.st().certs@.len() == 0,
            r.st().queue@.len() == 0,
            r.st().wf(),
            !r.is_split(),
    {
        OpenpgpCa { backend: Backend::Softkey(DbCa::new(Storage::new())) }
    }

    /// Initializes the CA: one-time, and only for a syntactically valid
    /// domain name.  On the split-front instance this is not possible;
    /// split instances come from `split_into`.
    pub fn ca_init(&mut self, domainname: &str, name: Option<&str>) -> (r: Result<(), CaError>)
        requires
            old(self).st().wf(),
        ensures
            final(self).st().wf(),
            final(self).is_split() == old(self).is_split(),
            old(self).is_split() ==> r == Err::<(), CaError>(CaError::UnsupportedOnFrontInstance)
                && *final(self) == *old(self),
            !old(self).is_split() && old(self).st().ca is Some ==> r == Err::<(), CaError>(
                CaError::AlreadyInitialized,
            ) && *final(self) == *old(self),
            !old(self).is_split() && old(self).st().ca is None && !valid_domain(domainname@)
                ==> r == Err::<(), CaError>(CaError::InvalidDomain) && *final(self) == *old(self),
            !old(self).is_split() && old(self).st().ca is None && valid_domain(domainname@)
                ==> r == Ok::<(), CaError>(()) && (exists|now: u64|
                final(self).st().ca_v() == Some(
                    (
                        CaRecordV { domainname: domainname@, split_front: false },
                        make_ca_cert_spec(domainname@, opt_str_view(name), now),
                    ),
                )) && final(self).st().certs == old(self).st().certs
                && final(self).st().queue == old(self).st().queue
                && final(self).st().users == old(self).st().users,
    {
        match &mut self.backend {
            Backend::Softkey(d) => d.ca_init(domainname, name),
            Backend::SplitFront(_) => Err(CaError::UnsupportedOnFrontInstance),
        }
    }

    /// The CA record and certificate, when initialized.
    pub fn ca_get(&self) -> (r: Result<Option<(&CaRecord, &PgpCert)>, CaError>)
        ensures
            r is Ok,
            self.st().ca is Some <==> r->Ok_0 is Some,
            r->Ok_0 is Some ==> r->Ok_0->Some_0.0@ == self.st().ca_v()->Some_0.0
                && r->Ok_0->Some_0.1@ == self.st().ca_v()->Some_0.1,
    {
        match self.storage().get_ca() {
            Ok(p) => Ok(Some((&p.0, &p.1))),
            Err(_) => Ok(None),
        }
    }

    /// The CA certificate as stored (private key material included on the
    /// softkey backend).
    pub fn ca_get_cert(&self) -> (r: Result<PgpCert, CaError>)
        ensures
            match r {
                Ok(c) => self.st().ca_v() is Some && c@ == self.st().ca_v()->Some_0.1,
                Err(e) => self.st().ca is None && e == CaError::NotInitialized,
            },
    {
        match self.storage().get_ca() {
            Ok(p) => Ok(copy_pgp_cert(&p.1)),
            Err(e) => Err(e),
        }
    }

    /// The CA's public key, armored.
    pub fn ca_get_pubkey_armored(&self) -> (r: Result<String, CaError>)
        ensures
            match r {
                Ok(t) => self.st().ca_v() is Some && t@ == armor::armor_cert_pub(
                    strip_secrets(self.st().ca_v()->Some_0.1),
                ),
                Err(e) => self.st().ca is None && e == CaError::NotInitialized,
            },
    {
        match self.storage().get_ca() {
            Ok(p) => Ok(armor::cert_to_armored(&strip_secret_key_material(&p.1))),
            Err(e) => Err(e),
        }
    }

    /// Merges third-party trust signatures from a copy of the CA
    /// certificate into the stored one.
    pub fn ca_import_tsig(&mut self, import: &PgpCert) -> (r: Result<(), CaError>)
        requires
            old(self).st().wf(),
        ensures
            final(self).st().wf(),
            r is Err ==> *final(self) == *old(self),
            r is Ok ==> old(self).st().ca_v() is Some
                && import@.fingerprint == old(self).st().ca_v()->Some_0.1.fingerprint
                && final(self).st().ca_v() == Some(
                (
                    old(self).st().ca_v()->Some_0.0,
                    PgpCertV {
                        tsigs: merge_seq(old(self).st().ca_v()->Some_0.1.tsigs, import@.tsigs),
                        ..old(self).st().ca_v()->Some_0.1
                    },
                ),
            ) && final(self).st().certs == old(self).st().certs
                && final(self).st().queue == old(self).st().queue,
            (old(self).st().ca_v() is Some && import@.fingerprint
                == old(self).st().ca_v()->Some_0.1.fingerprint) ==> r is Ok,
    {
        let storage = match &mut self.backend {
            Backend::Softkey(d) => &mut d.storage,
            Backend::SplitFront(s) => &mut s.db.storage,
        };
        let merged = {
            let ca = match storage.get_ca() {
                Ok(p) => &p.1,
                Err(e) => {
                    return Err(e);
                },
            };
            match pgp::merge_in_tsigs(ca, import) {
                Ok(m) => m,
                Err(e) => {
                    return Err(e);
                },
            }
        };
        let r = storage.cacert_update(merged);
        proof {
            assert(r is Ok);
        }
        Ok(())
    }

    /// All user certificates (stored certificates owned by a user).
    pub fn usercerts_get_all(&self) -> (r: Vec<CertRecord>)
        ensures
            r.deep_view() == self.st().certs.deep_view().filter(
                |c: crate::storage::CertRecordV| c.user_id is Some,
            ),
    {
        let storage = self.storage();
        let mut r: Vec<CertRecord> = Vec::new();
        let n = storage.certs.len();
        proof {
            assert(storage.certs.deep_view().take(0).filter(
                |c: crate::storage::CertRecordV| c.user_id is Some,
            ) =~= Seq::<crate::storage::CertRecordV>::empty());
        }
        for i in 0..n
            invariant
                n == storage.certs@.len(),
                storage.certs.deep_view() == self.st().certs.deep_view(),
                r.deep_view() =~= storage.certs.deep_view().take(i as int).filter(
                    |c: crate::storage::CertRecordV| c.user_id is Some,
                ),
        {
            proof {
                reveal_with_fuel(Seq::filter, 2);
            }
            if storage.certs[i].user_id.is_some() {
                r.push(copy_cert_record(&storage.certs[i]));
            }
            proof {
                assert(storage.certs.deep_view().take(i + 1).drop_last()
                    =~= storage.certs.deep_view().take(i as int));
                assert(storage.certs.deep_view().take(i + 1).last()
                    == storage.certs.deep_view()[i as int]);
                assert(r.deep_view() =~= storage.certs.deep_view().take(i + 1).filter(
                    |c: crate::storage::CertRecordV| c.user_id is Some,
                ));
            }
        }
        proof {
            assert(storage.certs.deep_view().take(n as int) =~= storage.certs.deep_view());
        }
        r
    }

    /// The user certificates linked to `email`.
    pub fn usercerts_get(&self, email: &str) -> (r: Vec<CertRecord>)
        ensures
            r.deep_view() == self.st().certs.deep_view().filter(
                |c: crate::storage::CertRecordV| self.st().cert_has_email(c, email@),
            ),
    {
        self.storage().certs_by_email(email)
    }

    /// The certificate model of a stored user certificate.
    pub fn usercert_to_cert(usercert: &CertRecord) -> (r: PgpCert)
        ensures
            r@ == usercert@.cert,
    {
        copy_pgp_cert(&usercert.cert)
    }

    /// The armored public representation of a certificate.
    pub fn cert_to_armored(cert: &PgpCert) -> (r: String)
        ensures
            r@ == armor::armor_cert_pub(cert@),
    {
        armor::cert_to_armored(cert)
    }

    /// The expiration time of a user certificate's key.
    pub fn usercert_expiration(usercert: &CertRecord) -> (r: Option<u64>)
        ensures
            r == usercert@.cert.key_expiry,
    {
        usercert.cert.key_expiry
    }

    /// Whether a user certificate carries a key revocation.
    pub fn usercert_possibly_revoked(usercert: &CertRecord) -> (r: bool)
        ensures
            r == exists|i: int|
                0 <= i < usercert@.cert.revocations.len()
                    && (#[trigger] usercert@.cert.revocations[i]).userid is None,
    {
        pgp::is_possibly_revoked(&usercert.cert)
    }

    /// Whether the CA has certified any user id of this certificate.
    pub fn usercert_check_ca_sig(&self, usercert: &CertRecord) -> (r: Result<bool, CaError>)
        ensures
            self.st().ca_v() is Some <==> r is Ok,
            r is Ok ==> self.st().ca_v() is Some && r->Ok_0 == exists|i: int|
                0 <= i < usercert@.cert.certifications.len()
                    && (#[trigger] usercert@.cert.certifications[i]).issuer_fp
                    == self.st().ca_v()->Some_0.1.fingerprint,
    {
        let storage = self.storage();
        let ca_fp = match storage.get_ca() {
            Ok(p) => &p.1.fingerprint,
            Err(e) => {
                return Err(e);
            },
        };
        let n = usercert.cert.certifications.len();
        let mut found = false;
        for i in 0..n
            invariant
                n == usercert.cert.certifications@.len(),
                found ==> exists|j: int|
                    0 <= j < usercert@.cert.certifications.len()
                        && (#[trigger] usercert@.cert.certifications[j]).issuer_fp == ca_fp@,
                !found ==> forall|j: int|
                    0 <= j < i ==> (#[trigger] usercert@.cert.certifications[j]).issuer_fp
                        != ca_fp@,
        {
            if usercert.cert.certifications[i].issuer_fp == *ca_fp {
                proof {
                    assert(usercert@.cert.certifications[i as int].issuer_fp == ca_fp@);
                }
                found = true;
            }
        }
        Ok(found)
    }

    /// The user ids of this certificate that the CA has certified, and
    /// those it has not.
    #[verifier::loop_isolation(false)]
    pub fn cert_check_ca_sig(&self, usercert: &CertRecord) -> (r: Result<
        (Vec<String>, Vec<String>),
        CaError,
    >)
        ensures
            self.st().ca_v() is Some <==> r is Ok,
            r is Ok ==> self.st().ca_v() is Some && {
                let ca_fp = self.st().ca_v()->Some_0.1.fingerprint;
                let c = usercert@.cert;
                &&& r->Ok_0.0.deep_view() == c.userids.filter(
                    |u: Seq<char>| crate::laws::uid_certified_by(c, ca_fp, u),
                )
                &&& r->Ok_0.1.deep_view() == c.userids.filter(
                    |u: Seq<char>| !crate::laws::uid_certified_by(c, ca_fp, u),
                )
            },
    {
        let storage = self.storage();
        let ca_fp = match storage.get_ca() {
            Ok(p) => &p.1.fingerprint,
            Err(e) => {
                return Err(e);
            },
        };
        let ghost c = usercert@.cert;
        let ghost fpv = ca_fp@;
        let mut certified: Vec<String> = Vec::new();
        let mut uncertified: Vec<String> = Vec::new();
        let n = usercert.cert.userids.len();
        proof {
            assert(c.userids.take(0).filter(
                |u: Seq<char>| crate::laws::uid_certified_by(c, fpv, u),
            ) =~= Seq::<Seq<char>>::empty());
            assert(c.userids.take(0).filter(
                |u: Seq<char>| !crate::laws::uid_certified_by(c, fpv, u),
            ) =~= Seq::<Seq<char>>::empty());
        }
        for i in 0..n
            invariant
                n == usercert.cert.userids@.len(),
                c == usercert@.cert,
                fpv == self.st().ca_v()->Some_0.1.fingerprint,
                self.st().ca_v() is Some,
                certified.deep_view() =~= c.userids.take(i as int).filter(
                    |u: Seq<char>| crate::laws::uid_certified_by(c, fpv, u),
                ),
                uncertified.deep_view() =~= c.userids.take(i as int).filter(
                    |u: Seq<char>| !crate::laws::uid_certified_by(c, fpv, u),
                ),
        {
            proof {
                reveal_with_fuel(Seq::filter, 2);
            }
            let uid = &usercert.cert.userids[i];
            let m = usercert.cert.certifications.len();
            let mut hit = false;
            for j in 0..m
                invariant
                    n == usercert.cert.userids@.len(),
                    m == usercert.cert.certifications@.len(),
                    c == usercert@.cert,
                    0 <= i < n,
                    hit == exists|k: int|
                        0 <= k < j && (#[trigger] c.certifications[k]).issuer_fp == fpv
                            && c.certifications[k].userid == c.userids[i as int],
            {
                if usercert.cert.certifications[j].issuer_fp == *ca_fp
                    && usercert.cert.certifications[j].userid == *uid {
                    proof {
                        assert(c.certifications[j as int].issuer_fp == fpv
                            && c.certifications[j as int].userid == c.userids[i as int]);
                    }
                    hit = true;
                }
            }
            proof {
                assert(hit == crate::laws::uid_certified_by(c, fpv, c.userids[i as int]));
            }
            if hit {
                certified.push(uid.clone());
            } else {
                uncertified.push(uid.clone());
            }
            proof {
                assert(c.userids.take(i + 1).drop_last() =~= c.userids.take(i as int));
                assert(c.userids.take(i + 1).last() == c.userids[i as int]);
                assert(certified.deep_view() =~= c.userids.take(i + 1).filter(
                    |u: Seq<char>| crate::laws::uid_certified_by(c, fpv, u),
                ));
                assert(uncertified.deep_view() =~= c.userids.take(i + 1).filter(
                    |u: Seq<char>| !crate::laws::uid_certified_by(c, fpv, u),
                ));
            }
        }
        proof {
            assert(c.userids.take(n as int) =~= c.userids);
        }
        Ok((certified, uncertified))
    }

    /// Whether this certificate has placed a trust signature on the CA
    /// certificate.
    pub fn usercert_check_tsig_on_ca(&self, usercert: &CertRecord) -> (r: Result<bool, CaError>)
        ensures
            self.st().ca_v() is Some <==> r is Ok,
            r is Ok ==> self.st().ca_v() is Some && r->Ok_0 == exists|i: int|
                0 <= i < self.st().ca_v()->Some_0.1.tsigs.len()
                    && (#[trigger] self.st().ca_v()->Some_0.1.tsigs[i]).issuer_fp
                    == usercert@.fingerprint,
    {
        let storage = self.storage();
        let ca = match storage.get_ca() {
            Ok(p) => &p.1,
            Err(e) => {
                return Err(e);
            },
        };
        let n = ca.tsigs.len();
        let mut found = false;
        let ghost cav = self.st().ca_v()->Some_0.1;
        for i in 0..n
            invariant
                n == ca.tsigs@.len(),
                ca@ == cav,
                found ==> exists|j: int|
                    0 <= j < cav.tsigs.len() && (#[trigger] cav.tsigs[j]).issuer_fp
                        == usercert@.fingerprint,
                !found ==> forall|j: int|
                    0 <= j < i ==> (#[trigger] cav.tsigs[j]).issuer_fp != usercert@.fingerprint,
        {
            if ca.tsigs[i].issuer_fp == usercert.fingerprint {
                proof {
                    assert(cav.tsigs[i as int].issuer_fp == usercert@.fingerprint);
                }
                found = true;
            }
        }
        Ok(found)
    }

    /// For each user certificate, in storage order: has the CA signed any
    /// of its user ids, and has it trust-signed the CA certificate.
    #[verifier::loop_isolation(false)]
    pub fn usercerts_check_certifications(&self) -> (r: Result<
        Vec<(CertRecord, bool, bool)>,
        CaError,
    >)
        ensures
            self.st().ca_v() is Some <==> r is Ok,
            r is Ok ==> {
                let usercerts = self.st().certs.deep_view().filter(
                    |c: crate::storage::CertRecordV| c.user_id is Some,
                );
                let ca = self.st().ca_v()->Some_0.1;
                &&& r->Ok_0@.len() == usercerts.len()
                &&& forall|i: int| 0 <= i < usercerts.len() ==> {
                    &&& (#[trigger] r->Ok_0@[i]).0@ == usercerts[i]
                    &&& r->Ok_0@[i].1 == (exists|j: int|
                        0 <= j < usercerts[i].cert.certifications.len()
                            && (#[trigger] usercerts[i].cert.certifications[j]).issuer_fp
                            == ca.fingerprint)
                    &&& r->Ok_0@[i].2 == (exists|j: int|
                        0 <= j < ca.tsigs.len() && (#[trigger] ca.tsigs[j]).issuer_fp
                            == usercerts[i].fingerprint)
                }
            },
    {
        if self.storage().get_ca().is_err() {
            return Err(CaError::NotInitialized);
        }
        let all = self.usercerts_get_all();
        let ghost usercerts = self.st().certs.deep_view().filter(
            |c: crate::storage::CertRecordV| c.user_id is Some,
        );
        let mut r: Vec<(CertRecord, bool, bool)> = Vec::new();
        let n = all.len();
        for i in 0..n
            invariant
                self.st().ca_v() is Some,
                all.deep_view() == usercerts,
                n == all.len(),
                r@.len() == i,
                forall|l: int| 0 <= l < i ==> {
                    &&& (#[trigger] r@[l]).0@ == usercerts[l]
                    &&& r@[l].1 == (exists|j: int|
                        0 <= j < usercerts[l].cert.certifications.len()
                            && (#[trigger] usercerts[l].cert.certifications[j]).issuer_fp
                            == self.st().ca_v()->Some_0.1.fingerprint)
                    &&& r@[l].2 == (exists|j: int|
                        0 <= j < self.st().ca_v()->Some_0.1.tsigs.len()
                            && (#[trigger] self.st().ca_v()->Some_0.1.tsigs[j]).issuer_fp
                            == usercerts[l].fingerprint)
                },
        {
            let sig_from_ca = match self.usercert_check_ca_sig(&all[i]) {
                Ok(b) => b,
                Err(e) => {
                    return Err(e);
                },
            };
            let tsig_on_ca = match self.usercert_check_tsig_on_ca(&all[i]) {
                Ok(b) => b,
                Err(e) => {
                    return Err(e);
                },
            };
            proof {
                assert(all[i as int]@ == usercerts[i as int]);
            }
            r.push((copy_cert_record(&all[i]), sig_from_ca, tsig_on_ca));
        }
        Ok(r)
    }

    /// What creating a user at time `now` does: the generated certificate
    /// is certified per backend (the split front queues instead of
    /// signing), the user, the stripped certificate, its emails and its
    /// fresh revocation are stored, and the new key trust-signs the CA
    /// certificate.
    pub open spec fn user_created_at(
        pre: Storage,
        post: Storage,
        split: bool,
        name: Option<Seq<char>>,
        emails: Seq<Seq<char>>,
        returned: PgpCertV,
        now: u64,
    ) -> bool {
        let user = pgp::make_user_cert_spec(emails, name, now, true, true, false);
        let certified = if split {
            user
        } else {
            secret::signed_cert(
                pre.ca_v()->Some_0.1,
                user,
                pgp::uids_with_email_in(user.userids, emails),
                None,
            )
        };
        let uid = if split && emails.len() > 0 {
            (pre.next_id + 1) as u64
        } else {
            pre.next_id
        };
        let cid = (uid + 1) as u64;
        let rv = pgp::fresh_key_revocation(user.fingerprint, now);
        &&& returned == certified
        &&& post.users.deep_view() == pre.users.deep_view().push(
            crate::storage::UserRecordV { id: uid, name },
        )
        &&& post.certs.deep_view() == pre.certs.deep_view().push(
            crate::storage::CertRecordV {
                id: cid,
                fingerprint: user.fingerprint,
                cert: strip_secrets(certified),
                user_id: Some(uid),
                delisted: false,
                deactivated: false,
            },
        )
        &&& post.emails.deep_view() == pre.emails.deep_view() + emails.map_values(
            |a: Seq<char>| crate::storage::CertEmailV { addr: a, cert_id: cid },
        )
        &&& post.revocations.deep_view() == pre.revocations.deep_view().push(
            crate::storage::RevocationRecordV {
                id: (uid + 2) as u64,
                hash: pgp::revocation_hash_of(rv),
                revocation: rv,
                published: false,
                cert_id: cid,
            },
        )
        &&& post.ca_v() == Some(
            (pre.ca_v()->Some_0.0, pgp::tsigned_cert(pre.ca_v()->Some_0.1, user)),
        )
        &&& post.bridges == pre.bridges
        &&& (split && emails.len() > 0 ==> post.queue.deep_view() == pre.queue.deep_view().push(
            crate::queue::QueueRecordV {
                id: pre.next_id,
                created: now,
                task: crate::queue::QueueEntryV::CertificationReq(
                    crate::queue::CertificationReqV {
                        cert: user,
                        user_ids: user.userids,
                        days: None,
                    },
                ),
                done: false,
            },
        ))
        &&& (!(split && emails.len() > 0) ==> post.queue == pre.queue)
    }

    /// What creating a user does, at some creation time.
    pub open spec fn user_created(
        pre: Storage,
        post: Storage,
        split: bool,
        name: Option<Seq<char>>,
        emails: Seq<Seq<char>>,
        returned: PgpCertV,
    ) -> bool {
        exists|now: u64| Self::user_created_at(pre, post, split, name, emails, returned, now)
    }

    /// Creates a new user: generates a key with one user id per email,
    /// has the CA certify those user ids (the split-front backend queues
    /// the certification instead), lets the new key trust-sign the CA
    /// certificate, and stores the user.  Returns the generated
    /// certificate with its private key material, to be handed to the
    /// user, and the key password if one was requested.
    pub fn usercert_new(
        &mut self,
        name: Option<&str>,
        emails: &Vec<String>,
        password: bool,
    ) -> (r: Result<(PgpCert, Option<String>), CaError>)
        requires
            old(self).st().wf(),
        ensures
            final(self).st().wf(),
            final(self).is_split() == old(self).is_split(),
            r is Ok ==> (r->Ok_0.1 is Some <==> password),
            r is Ok ==> final(self).st().users.deep_view().len() == old(self).st().users.deep_view().len() + 1,
            r is Ok && !old(self).is_split() ==> final(self).st().queue
                == old(self).st().queue,
            r is Ok && old(self).is_split() && emails.deep_view().len() > 0
                ==> final(self).st().queue.deep_view().len()
                == old(self).st().queue.deep_view().len() + 1,
            r is Ok ==> old(self).st().ca_v() is Some && Self::user_created(
                old(self).st(),
                final(self).st(),
                old(self).is_split(),
                opt_str_view(name),
                emails.deep_view(),
                r->Ok_0.0@,
            ),
            (old(self).st().ca_v() is Some
                && old(self).st().ca_v()->Some_0.1.userids.len() > 0
                && old(self).st().next_id < u64::MAX - 4) ==> (r is Ok || exists|now: u64|
                crate::storage::certs_have_fp(
                    old(self).st().certs.deep_view(),
                    pgp::make_user_cert_spec(
                        emails.deep_view(),
                        opt_str_view(name),
                        now,
                        true,
                        true,
                        false,
                    ).fingerprint,
                )),
    {
        let now = now_timestamp();
        let (user, revoc, pass) = pgp::make_user_cert(emails, name, password, true, true, false, now);
        let certified: PgpCert;
        match &mut self.backend {
            Backend::Softkey(d) => {
                let ca = match d.storage.get_ca() {
                    Ok(p) => &p.1,
                    Err(e) => {
                        return Err(e);
                    },
                };
                certified = match pgp::sign_user_emails(ca, &user, emails) {
                    Ok(c) => c,
                    Err(e) => {
                        return Err(e);
                    },
                };
            },
            Backend::SplitFront(s) => {
                let uids = copy_string_vec(&user.userids);
                proof {
                    assert(uids.deep_view().len() == user.userids.deep_view().len());
                    assert(user@.userids == crate::pgp::user_ids_of(
                        emails.deep_view(),
                        crate::pgp::opt_str_view(name),
                    ));
                    assert(uids@.len() == uids.deep_view().len());
                    assert(uids@.len() == emails.deep_view().len());
                }
                certified = match split::split_sign_user_ids(
                    &mut s.db.storage,
                    &user,
                    &uids,
                    None,
                    now,
                ) {
                    Ok(c) => c,
                    Err(e) => {
                        return Err(e);
                    },
                };
                proof {
                    if emails.deep_view().len() > 0 {
                        assert(s.db.storage.queue.deep_view().len()
                            == old(self).st().queue.deep_view().len() + 1);
                    }
                }
            },
        }
        proof {
            assert(self.st().users == old(self).st().users);
            assert(self.is_split() == old(self).is_split());
            assert(self.st().certs == old(self).st().certs);
            assert(self.st().emails == old(self).st().emails);
            assert(self.st().revocations == old(self).st().revocations);
            assert(self.st().bridges == old(self).st().bridges);
            assert(self.st().ca == old(self).st().ca);
            if old(self).is_split() && emails.deep_view().len() > 0 {
                assert(self.st().queue.deep_view().len()
                    == old(self).st().queue.deep_view().len() + 1);
                assert(self.st().next_id == old(self).st().next_id + 1);
                assert(self.st().queue.deep_view() == old(self).st().queue.deep_view().push(
                    crate::queue::QueueRecordV {
                        id: old(self).st().next_id,
                        created: now,
                        task: crate::queue::QueueEntryV::CertificationReq(
                            crate::queue::CertificationReqV {
                                cert: user@,
                                user_ids: user@.userids,
                                days: None,
                            },
                        ),
                        done: false,
                    },
                ));
            }
            if !(old(self).is_split() && emails.deep_view().len() > 0) {
                assert(self.st().queue == old(self).st().queue);
                assert(self.st().next_id == old(self).st().next_id);
            }
        }
        let ghost st1 = self.st();
        // the user's key trust-signs the CA certificate
        {
            let storage = match &mut self.backend {
                Backend::Softkey(d) => &mut d.storage,
                Backend::SplitFront(s) => &mut s.db.storage,
            };
            proof {
                assert(user@.keys[0].can_certify && user@.keys[0].has_secret);
                assert(secret::cert_key_indices_from(user@.keys, 0) == seq![0int]
                    + secret::cert_key_indices_from(user@.keys, 1));
                assert(secret::cert_key_indices(user@).len() >= 1);
            }
            let tsigned = {
                let ca = match storage.get_ca() {
                    Ok(p) => &p.1,
                    Err(e) => {
                        return Err(e);
                    },
                };
                match pgp::tsign(ca, &user) {
                    Ok(t) => t,
                    Err(e) => {
                        return Err(e);
                    },
                }
            };
            let res = storage.cacert_update(tsigned);
            proof {
                assert(res is Ok);
            }
        }
        proof {
            assert(self.st().users == st1.users);
            assert(self.st().certs == st1.certs);
            assert(self.st().emails == st1.emails);
            assert(self.st().revocations == st1.revocations);
            assert(self.st().bridges == st1.bridges);
            assert(self.st().queue == st1.queue);
            assert(self.st().next_id == st1.next_id);
            assert(self.st().ca_v() == Some(
                (
                    old(self).st().ca_v()->Some_0.0,
                    pgp::tsigned_cert(old(self).st().ca_v()->Some_0.1, user@),
                ),
            ));
        }
        // store the user with the (possibly still uncertified) certificate
        let hash = pgp::revocation_to_hash(&revoc);
        let mut revocs: Vec<(String, RevocationSig)> = Vec::new();
        revocs.push((hash, revoc));
        let stored = strip_secret_key_material(&certified);
        let storage = match &mut self.backend {
            Backend::Softkey(d) => &mut d.storage,
            Backend::SplitFront(s) => &mut s.db.storage,
        };
        let fp = stored.fingerprint.clone();
        let owned_name: Option<String> = match name {
            Some(n) => Some(n.to_owned()),
            None => None,
        };
        proof {
            assert(crate::model::opt_view(owned_name) == opt_str_view(name));
        }
        match storage.user_add(owned_name, fp.as_str(), stored, emails, revocs) {
            Ok(_) => {
                proof {
                    assert(self.st().users.deep_view().len()
                        == old(self).st().users.deep_view().len() + 1);
                    let pre = old(self).st();
                    let split = old(self).is_split();
                    let uid = if split && emails.deep_view().len() > 0 {
                        (pre.next_id + 1) as u64
                    } else {
                        pre.next_id
                    };
                    let cid = (uid + 1) as u64;
                    let rv = pgp::fresh_key_revocation(user@.fingerprint, now);
                    assert(stored@.fingerprint == user@.fingerprint);
                    assert(fp@ == user@.fingerprint);
                    assert(self.st().users.deep_view() =~= pre.users.deep_view().push(
                        crate::storage::UserRecordV { id: uid, name: opt_str_view(name) },
                    ));
                    assert(self.st().certs.deep_view() =~= pre.certs.deep_view().push(
                        crate::storage::CertRecordV {
                            id: cid,
                            fingerprint: user@.fingerprint,
                            cert: strip_secrets(certified@),
                            user_id: Some(uid),
                            delisted: false,
                            deactivated: false,
                        },
                    ));
                    assert(self.st().emails.deep_view() =~= pre.emails.deep_view()
                        + emails.deep_view().map_values(
                        |a: Seq<char>| crate::storage::CertEmailV { addr: a, cert_id: cid },
                    ));
                    assert(revocs.deep_view()[0] == (hash@, revoc@));
                    assert(self.st().revocations.deep_view() =~= pre.revocations.deep_view()
                        .push(
                        crate::storage::RevocationRecordV {
                            id: (uid + 2) as u64,
                            hash: pgp::revocation_hash_of(rv),
                            revocation: rv,
                            published: false,
                            cert_id: cid,
                        },
                    ));
                    assert(Self::user_created_at(
                        pre,
                        self.st(),
                        split,
                        opt_str_view(name),
                        emails.deep_view(),
                        certified@,
                        now,
                    ));
                    assert(old(self).st().ca_v() is Some);
                    assert(Self::user_created(
                        pre,
                        self.st(),
                        split,
                        opt_str_view(name),
                        emails.deep_view(),
                        certified@,
                    )) by {
                        assert(Self::user_created_at(
                            pre,
                            self.st(),
                            split,
                            opt_str_view(name),
                            emails.deep_view(),
                            certified@,
                            now,
                        ));
                    }
                    assert(Self::user_created(
                        old(self).st(),
                        self.st(),
                        old(self).is_split(),
                        opt_str_view(name),
                        emails.deep_view(),
                        certified@,
                    ));
                }
                Ok((certified, pass))
            },
            Err(e) => Err(e),
        }
    }

    /// Imports an existing public certificate as a new user, or merges it
    /// into the stored copy when the fingerprint is already known.
    pub fn usercert_import_new(
        &mut self,
        key: &PgpCert,
        revoc_certs: Vec<RevocationSig>,
        name: Option<&str>,
        emails: &Vec<String>,
    ) -> (r: Result<(), CaError>)
        requires
            old(self).st().wf(),
        ensures
            final(self).st().wf(),
            final(self).is_split() == old(self).is_split(),
            r is Ok && !crate::storage::certs_have_fp(
                old(self).st().certs.deep_view(),
                key@.fingerprint,
            ) ==> final(self).st().users.deep_view().len()
                == old(self).st().users.deep_view().len() + 1,
            (r is Ok && crate::storage::certs_have_fp(
                old(self).st().certs.deep_view(),
                key@.fingerprint,
            )) ==> {
                let cv = old(self).st().certs.deep_view();
                let idx = crate::storage::cert_index_of(cv, key@.fingerprint);
                &&& final(self).st().certs.deep_view() == cv.update(
                    idx,
                    crate::storage::CertRecordV {
                        cert: PgpCertV {
                            certifications: merge_seq(
                                cv[idx].cert.certifications,
                                key@.certifications,
                            ),
                            tsigs: merge_seq(cv[idx].cert.tsigs, key@.tsigs),
                            ..cv[idx].cert
                        },
                        ..cv[idx]
                    },
                )
                &&& final(self).st().users == old(self).st().users
                &&& final(self).st().queue == old(self).st().queue
            },
            (crate::storage::certs_have_fp(old(self).st().certs.deep_view(), key@.fingerprint)
                && revoc_certs@.len() == 0) ==> r is Ok,
            (r is Ok && !crate::storage::certs_have_fp(
                old(self).st().certs.deep_view(),
                key@.fingerprint,
            )) ==> (!old(self).is_split() ==> old(self).st().ca_v() is Some)
                && Self::cert_imported(
                old(self).st(),
                final(self).st(),
                old(self).is_split(),
                opt_str_view(name),
                emails.deep_view(),
                key@,
                revoc_certs.deep_view(),
            ),
            (!crate::storage::certs_have_fp(
                old(self).st().certs.deep_view(),
                key@.fingerprint,
            ) && old(self).st().ca_v() is Some
                && old(self).st().ca_v()->Some_0.1.userids.len() > 0
                && old(self).st().next_id < u64::MAX - 4
                && revoc_certs@.len() < u64::MAX - 4 - old(self).st().next_id) ==> r is Ok,
    {
        self.usercert_import_update_or_create(key, revoc_certs, name, emails, None)
    }

    /// Imports an updated copy of an existing user certificate: the
    /// stored copy gains the import's certifications and trust signatures.
    pub fn usercert_import_update(&mut self, key: &PgpCert, usercert: &CertRecord) -> (r: Result<
        (),
        CaError,
    >)
        requires
            old(self).st().wf(),
        ensures
            final(self).st().wf(),
            final(self).is_split() == old(self).is_split(),
            (r is Ok && crate::storage::certs_have_fp(
                old(self).st().certs.deep_view(),
                key@.fingerprint,
            )) ==> {
                let cv = old(self).st().certs.deep_view();
                let idx = crate::storage::cert_index_of(cv, key@.fingerprint);
                &&& final(self).st().certs.deep_view() == cv.update(
                    idx,
                    crate::storage::CertRecordV {
                        cert: PgpCertV {
                            certifications: merge_seq(
                                cv[idx].cert.certifications,
                                key@.certifications,
                            ),
                            tsigs: merge_seq(cv[idx].cert.tsigs, key@.tsigs),
                            ..cv[idx].cert
                        },
                        ..cv[idx]
                    },
                )
                &&& final(self).st().users == old(self).st().users
                &&& final(self).st().queue == old(self).st().queue
            },
            ({
                let cv = old(self).st().certs.deep_view();
                &&& crate::storage::certs_have_fp(cv, key@.fingerprint)
                &&& usercert@.id == cv[crate::storage::cert_index_of(
                    cv,
                    key@.fingerprint,
                )].id
            }) ==> r is Ok,
    {
        let emails = {
            let found = self.storage().emails_by_cert(usercert.id);
            let mut es: Vec<String> = Vec::new();
            let n = found.len();
            let mut i: usize = 0;
            while i < n
                invariant
                    i <= n,
                    n == found.len(),
                decreases n - i,
            {
                es.push(found[i].addr.clone());
                i = i + 1;
            }
            es
        };
        self.usercert_import_update_or_create(
            key,
            Vec::new(),
            match &usercert.user_id {
                _ => None,
            },
            &emails,
            Some(usercert.id),
        )
    }

    /// Updates an existing user certificate (matched by fingerprint) by
    /// merging the imported copy in, or creates a new user for it.
    /// What importing a fresh certificate at time `now` does: it is
    /// certified per backend (the split front queues instead), then stored
    /// stripped, with its emails and its revocations.
    pub open spec fn cert_imported_at(
        pre: Storage,
        post: Storage,
        split: bool,
        name: Option<Seq<char>>,
        emails: Seq<Seq<char>>,
        key: PgpCertV,
        revocs: Seq<crate::model::RevocationSigV>,
        now: u64,
    ) -> bool {
        let certified = if split {
            key
        } else {
            secret::signed_cert(
                pre.ca_v()->Some_0.1,
                key,
                pgp::uids_with_email_in(key.userids, emails),
                None,
            )
        };
        let queued = split && key.userids.len() > 0;
        let uid = if queued {
            (pre.next_id + 1) as u64
        } else {
            pre.next_id
        };
        let cid = (uid + 1) as u64;
        &&& post.users.deep_view() == pre.users.deep_view().push(
            crate::storage::UserRecordV { id: uid, name },
        )
        &&& post.certs.deep_view() == pre.certs.deep_view().push(
            crate::storage::CertRecordV {
                id: cid,
                fingerprint: key.fingerprint,
                cert: strip_secrets(certified),
                user_id: Some(uid),
                delisted: false,
                deactivated: false,
            },
        )
        &&& post.emails.deep_view() == pre.emails.deep_view() + emails.map_values(
            |a: Seq<char>| crate::storage::CertEmailV { addr: a, cert_id: cid },
        )
        &&& post.revocations.deep_view() == pre.revocations.deep_view()
            + Storage::user_revocation_records(
            uid,
            cid,
            revocs.map_values(
                |rv: crate::model::RevocationSigV| (pgp::revocation_hash_of(rv), rv),
            ),
            revocs.len(),
        )
        &&& post.ca == pre.ca
        &&& post.bridges == pre.bridges
        &&& (queued ==> post.queue.deep_view() == pre.queue.deep_view().push(
            crate::queue::QueueRecordV {
                id: pre.next_id,
                created: now,
                task: crate::queue::QueueEntryV::CertificationReq(
                    crate::queue::CertificationReqV {
                        cert: key,
                        user_ids: key.userids,
                        days: None,
                    },
                ),
                done: false,
            },
        ))
        &&& (!queued ==> post.queue == pre.queue)
    }

    /// What importing a fresh certificate does, at some creation time.
    pub open spec fn cert_imported(
        pre: Storage,
        post: Storage,
        split: bool,
        name: Option<Seq<char>>,
        emails: Seq<Seq<char>>,
        key: PgpCertV,
        revocs: Seq<crate::model::RevocationSigV>,
    ) -> bool {
        exists|now: u64| Self::cert_imported_at(pre, post, split, name, emails, key, revocs, now)
    }

    fn usercert_import_update_or_create(
        &mut self,
        key: &PgpCert,
        revoc_certs: Vec<RevocationSig>,
        name: Option<&str>,
        emails: &Vec<String>,
        updates_id: Option<u64>,
    ) -> (r: Result<(), CaError>)
        requires
            old(self).st().wf(),
        ensures
            final(self).st().wf(),
            final(self).is_split() == old(self).is_split(),
            updates_id is None && r is Ok && !crate::storage::certs_have_fp(
                old(self).st().certs.deep_view(),
                key@.fingerprint,
            ) ==> final(self).st().users.deep_view().len()
                == old(self).st().users.deep_view().len() + 1,
            (r is Ok && crate::storage::certs_have_fp(
                old(self).st().certs.deep_view(),
                key@.fingerprint,
            )) ==> {
                let cv = old(self).st().certs.deep_view();
                let idx = crate::storage::cert_index_of(cv, key@.fingerprint);
                &&& final(self).st().certs.deep_view() == cv.update(
                    idx,
                    crate::storage::CertRecordV {
                        cert: PgpCertV {
                            certifications: merge_seq(
                                cv[idx].cert.certifications,
                                key@.certifications,
                            ),
                            tsigs: merge_seq(cv[idx].cert.tsigs, key@.tsigs),
                            ..cv[idx].cert
                        },
                        ..cv[idx]
                    },
                )
                &&& final(self).st().users == old(self).st().users
                &&& final(self).st().queue == old(self).st().queue
                &&& final(self).st().emails == old(self).st().emails
                &&& final(self).st().revocations == old(self).st().revocations
                &&& final(self).st().ca == old(self).st().ca
            },
            ({
                let cv = old(self).st().certs.deep_view();
                &&& crate::storage::certs_have_fp(cv, key@.fingerprint)
                &&& revoc_certs@.len() == 0
                &&& (match updates_id {
                    Some(uid) => uid == cv[crate::storage::cert_index_of(
                        cv,
                        key@.fingerprint,
                    )].id,
                    None => true,
                })
            }) ==> r is Ok,
            (r is Ok && !crate::storage::certs_have_fp(
                old(self).st().certs.deep_view(),
                key@.fingerprint,
            )) ==> (!old(self).is_split() ==> old(self).st().ca_v() is Some)
                && Self::cert_imported(
                old(self).st(),
                final(self).st(),
                old(self).is_split(),
                opt_str_view(name),
                emails.deep_view(),
                key@,
                revoc_certs.deep_view(),
            ),
            (!crate::storage::certs_have_fp(
                old(self).st().certs.deep_view(),
                key@.fingerprint,
            ) && updates_id is None && old(self).st().ca_v() is Some
                && old(self).st().ca_v()->Some_0.1.userids.len() > 0
                && old(self).st().next_id < u64::MAX - 4
                && revoc_certs@.len() < u64::MAX - 4 - old(self).st().next_id) ==> r is Ok,
    {
        let existing_id: Option<u64> = {
            let storage = self.storage();
            match storage.cert_by_fp(key.fingerprint.as_str()) {
                Some(c) => Some(c.id),
                None => None,
            }
        };
        match existing_id {
            Some(cid) => {
                // an update of a known certificate
                if let Some(uid) = updates_id {
                    if uid != cid {
                        return Err(CaError::BadInput);
                    }
                }
                if revoc_certs.len() != 0 {
                    return Err(CaError::BadInput);
                }
                // merge the imported signatures into the stored copy
                let merged = {
                    let storage = self.storage();
                    let rec = match storage.cert_by_fp(key.fingerprint.as_str()) {
                        Some(c) => c,
                        None => {
                            return Err(CaError::NotFound);
                        },
                    };
                    let mut m = copy_pgp_cert(&rec.cert);
                    crate::model::merge_certifications(&mut m, &key.certifications);
                    crate::model::merge_tsigs(&mut m, &key.tsigs);
                    m
                };
                let storage = match &mut self.backend {
                    Backend::Softkey(d) => &mut d.storage,
                    Backend::SplitFront(s) => &mut s.db.storage,
                };
                match storage.cert_update(key.fingerprint.as_str(), &merged) {
                    Ok(_) => {
                        proof {
                            let cv = old(self).st().certs.deep_view();
                            let idx = crate::storage::cert_index_of(cv, key@.fingerprint);
                            assert(merged@ =~= (PgpCertV {
                                certifications: merge_seq(
                                    cv[idx].cert.certifications,
                                    key@.certifications,
                                ),
                                tsigs: merge_seq(cv[idx].cert.tsigs, key@.tsigs),
                                ..cv[idx].cert
                            }));
                        }
                        Ok(())
                    },
                    Err(e) => Err(e),
                }
            },
            None => {
                if updates_id.is_some() {
                    return Err(CaError::NotFound);
                }
                // a new certificate: certify the named user ids and store
                let certified: PgpCert;
                let now = now_timestamp();
                match &mut self.backend {
                    Backend::Softkey(d) => {
                        let ca = match d.storage.get_ca() {
                            Ok(p) => &p.1,
                            Err(e) => {
                                return Err(e);
                            },
                        };
                        certified = match pgp::sign_user_emails(ca, key, emails) {
                            Ok(c) => c,
                            Err(e) => {
                                return Err(e);
                            },
                        };
                    },
                    Backend::SplitFront(s) => {
                        let uids = copy_string_vec(&key.userids);
                        proof {
                            assert(uids.deep_view() == key@.userids);
                            assert(uids@.len() == uids.deep_view().len());
                        }
                        certified = match split::split_sign_user_ids(
                            &mut s.db.storage,
                            key,
                            &uids,
                            None,
                            now,
                        ) {
                            Ok(c) => c,
                            Err(e) => {
                                return Err(e);
                            },
                        };
                    },
                }
                proof {
                    assert(self.st().users == old(self).st().users);
                    assert(self.st().certs == old(self).st().certs);
                    assert(self.st().emails == old(self).st().emails);
                    assert(self.st().revocations == old(self).st().revocations);
                    assert(self.st().bridges == old(self).st().bridges);
                    assert(self.st().ca == old(self).st().ca);
                    if old(self).is_split() && key@.userids.len() > 0 {
                        assert(self.st().queue.deep_view()
                            == old(self).st().queue.deep_view().push(
                            crate::queue::QueueRecordV {
                                id: old(self).st().next_id,
                                created: now,
                                task: crate::queue::QueueEntryV::CertificationReq(
                                    crate::queue::CertificationReqV {
                                        cert: key@,
                                        user_ids: key@.userids,
                                        days: None,
                                    },
                                ),
                                done: false,
                            },
                        ));
                        assert(self.st().next_id == old(self).st().next_id + 1);
                    }
                    if !(old(self).is_split() && key@.userids.len() > 0) {
                        assert(self.st().queue == old(self).st().queue);
                        assert(self.st().next_id == old(self).st().next_id);
                    }
                }
                let mut revocs: Vec<(String, RevocationSig)> = Vec::new();
                let nr = revoc_certs.len();
                let mut k: usize = 0;
                let revoc_certs = revoc_certs;
                while k < nr
                    invariant
                        k <= nr,
                        nr == revoc_certs.len(),
                        revocs@.len() == k,
                        forall|l: int| 0 <= l < k ==> #[trigger] revocs.deep_view()[l] == (
                            pgp::revocation_hash_of(revoc_certs.deep_view()[l]),
                            revoc_certs.deep_view()[l],
                        ),
                    decreases nr - k,
                {
                    let h = pgp::revocation_to_hash(&revoc_certs[k]);
                    let ghost pre = revocs;
                    revocs.push((h, crate::model::copy_revocation_sig(&revoc_certs[k])));
                    proof {
                        assert forall|l: int| 0 <= l < pre@.len()
                            implies #[trigger] revocs.deep_view()[l] == pre.deep_view()[l] by {
                            assert(revocs@[l] == pre@[l]);
                        }
                        assert(revocs.deep_view()[pre@.len() as int] == (
                            pgp::revocation_hash_of(revoc_certs.deep_view()[k as int]),
                            revoc_certs.deep_view()[k as int],
                        ));
                    }
                    k = k + 1;
                }
                proof {
                    assert(revocs.deep_view() =~= revoc_certs.deep_view().map_values(
                        |rv: crate::model::RevocationSigV| (pgp::revocation_hash_of(rv), rv),
                    ));
                }
                let stored = strip_secret_key_material(&certified);
                let fp = stored.fingerprint.clone();
                let owned_name: Option<String> = match name {
                    Some(n) => Some(n.to_owned()),
                    None => None,
                };
                proof {
                    assert(crate::model::opt_view(owned_name) == opt_str_view(name));
                    assert(fp@ == key@.fingerprint);
                }
                let storage = match &mut self.backend {
                    Backend::Softkey(d) => &mut d.storage,
                    Backend::SplitFront(s) => &mut s.db.storage,
                };
                match storage.user_add(owned_name, fp.as_str(), stored, emails, revocs) {
                    Ok(_) => {
                        proof {
                            let pre = old(self).st();
                            let split = old(self).is_split();
                            let queued = split && key@.userids.len() > 0;
                            let uid = if queued {
                                (pre.next_id + 1) as u64
                            } else {
                                pre.next_id
                            };
                            let cid = (uid + 1) as u64;
                            assert(self.st().users.deep_view() =~= pre.users.deep_view().push(
                                crate::storage::UserRecordV {
                                    id: uid,
                                    name: opt_str_view(name),
                                },
                            ));
                            assert(self.st().certs.deep_view() =~= pre.certs.deep_view().push(
                                crate::storage::CertRecordV {
                                    id: cid,
                                    fingerprint: key@.fingerprint,
                                    cert: strip_secrets(certified@),
                                    user_id: Some(uid),
                                    delisted: false,
                                    deactivated: false,
                                },
                            ));
                            assert(self.st().emails.deep_view() =~= pre.emails.deep_view()
                                + emails.deep_view().map_values(
                                |a: Seq<char>| crate::storage::CertEmailV {
                                    addr: a,
                                    cert_id: cid,
                                },
                            ));
                            assert(self.st().revocations.deep_view()
                                =~= pre.revocations.deep_view()
                                + Storage::user_revocation_records(
                                uid,
                                cid,
                                revoc_certs.deep_view().map_values(
                                    |rv: crate::model::RevocationSigV| (
                                        pgp::revocation_hash_of(rv),
                                        rv,
                                    ),
                                ),
                                revoc_certs.deep_view().len(),
                            ));
                            assert(Self::cert_imported_at(
                                pre,
                                self.st(),
                                split,
                                opt_str_view(name),
                                emails.deep_view(),
                                key@,
                                revoc_certs.deep_view(),
                                now,
                            ));
                            assert(Self::cert_imported(
                                pre,
                                self.st(),
                                split,
                                opt_str_view(name),
                                emails.deep_view(),
                                key@,
                                revoc_certs.deep_view(),
                            ));
                        }
                        Ok(())
                    },
                    Err(e) => Err(e),
                }
            },
        }
    }

    /// Stores a revocation after matching it to the certificate it
    /// revokes: by issuer fingerprint when the signature names one, by
    /// key id search otherwise.
    #[verifier::loop_isolation(false)]
    pub fn revocation_add(&mut self, sig: &RevocationSig) -> (r: Result<(), CaError>)
        requires
            old(self).st().wf(),
        ensures
            final(self).st().wf(),
            final(self).is_split() == old(self).is_split(),
            r is Err ==> *final(self) == *old(self),
            r is Ok ==> final(self).st().revocations.deep_view().len()
                == old(self).st().revocations.deep_view().len() + 1
                && final(self).st().revocations.deep_view().last().revocation == sig@
                && final(self).st().revocations.deep_view().last().hash
                == pgp::revocation_hash_of(sig@)
                && !final(self).st().revocations.deep_view().last().published,
            (sig@.issuer_fp is Some && !crate::storage::certs_have_fp(
                old(self).st().certs.deep_view(),
                sig@.issuer_fp->Some_0,
            )) ==> r == Err::<(), CaError>(CaError::NotFound) && *final(self) == *old(self),
            (sig@.issuer_fp is Some && crate::storage::certs_have_fp(
                old(self).st().certs.deep_view(),
                sig@.issuer_fp->Some_0,
            ) && old(self).st().next_id < u64::MAX) ==> r is Ok,
            (r is Ok && sig@.issuer_fp is Some)
                ==> final(self).st().revocations.deep_view().last().cert_id
                == old(self).st().certs.deep_view()[crate::storage::cert_index_of(
                old(self).st().certs.deep_view(),
                sig@.issuer_fp->Some_0,
            )].id,
            (sig@.issuer_fp is None && !(exists|i: int|
                0 <= i < old(self).st().certs.deep_view().len() && pgp::keyid_of(
                    (#[trigger] old(self).st().certs.deep_view()[i]).fingerprint,
                ) == sig@.issuer_keyid)) ==> r == Err::<(), CaError>(CaError::InvalidRevocation)
                && *final(self) == *old(self),
            (sig@.issuer_fp is None && (exists|i: int|
                0 <= i < old(self).st().certs.deep_view().len() && pgp::keyid_of(
                    (#[trigger] old(self).st().certs.deep_view()[i]).fingerprint,
                ) == sig@.issuer_keyid) && old(self).st().next_id < u64::MAX) ==> r is Ok,
            (r is Ok && sig@.issuer_fp is None) ==> exists|i: int|
                0 <= i < old(self).st().certs.deep_view().len() && pgp::keyid_of(
                    (#[trigger] old(self).st().certs.deep_view()[i]).fingerprint,
                ) == sig@.issuer_keyid && (forall|j: int|
                    0 <= j < i ==> pgp::keyid_of(
                        (#[trigger] old(self).st().certs.deep_view()[j]).fingerprint,
                    ) != sig@.issuer_keyid)
                && final(self).st().revocations.deep_view().last().cert_id
                == old(self).st().certs.deep_view()[i].id,
    {
        let cert_id: u64;
        let ghost cv = self.st().certs.deep_view();
        let ghost fidx: int;
        match &sig.issuer_fp {
            Some(fp) => {
                let storage = self.storage();
                match storage.cert_by_fp(fp.as_str()) {
                    Some(c) => {
                        cert_id = c.id;
                        proof {
                            fidx = crate::storage::cert_index_of(cv, fp@);
                        }
                    },
                    None => {
                        return Err(CaError::NotFound);
                    },
                }
            },
            None => {
                // no issuer fingerprint: search by key id
                let storage = self.storage();
                let mut found: Option<u64> = None;
                let ghost mut fi: int = 0;
                let n = storage.certs.len();
                for i in 0..n
                    invariant
                        n == storage.certs@.len(),
                        storage.certs.deep_view() == cv,
                        found is None ==> forall|j: int|
                            0 <= j < i ==> pgp::keyid_of((#[trigger] cv[j]).fingerprint)
                                != sig@.issuer_keyid,
                        found is Some ==> 0 <= fi < cv.len() && pgp::keyid_of(
                            cv[fi].fingerprint,
                        ) == sig@.issuer_keyid && (forall|j: int|
                            0 <= j < fi ==> pgp::keyid_of((#[trigger] cv[j]).fingerprint)
                                != sig@.issuer_keyid) && found->Some_0 == cv[fi].id,
                {
                    let kid = pgp::keyid(&storage.certs[i].fingerprint);
                    if kid == sig.issuer_keyid && found.is_none() {
                        proof {
                            assert(pgp::keyid_of(cv[i as int].fingerprint)
                                == sig@.issuer_keyid);
                            fi = i as int;
                        }
                        found = Some(storage.certs[i].id);
                    }
                }
                match found {
                    Some(id) => {
                        cert_id = id;
                        proof {
                            fidx = fi;
                        }
                    },
                    None => {
                        return Err(CaError::InvalidRevocation);
                    },
                }
            },
        }
        let hash = pgp::revocation_to_hash(sig);
        let storage = match &mut self.backend {
            Backend::Softkey(d) => &mut d.storage,
            Backend::SplitFront(s) => &mut s.db.storage,
        };
        match storage.revocation_add(hash.as_str(), crate::model::copy_revocation_sig(sig), cert_id)
        {
            Ok(_) => {
                proof {
                    let rv = self.st().revocations.deep_view();
                    assert(rv == old(self).st().revocations.deep_view().push(
                        crate::storage::RevocationRecordV {
                            id: old(self).st().next_id,
                            hash: hash@,
                            revocation: sig@,
                            published: false,
                            cert_id,
                        },
                    ));
                    assert(rv.last() == rv[rv.len() - 1]);
                    if sig@.issuer_fp is Some {
                        assert(cert_id == cv[crate::storage::cert_index_of(
                            cv,
                            sig@.issuer_fp->Some_0,
                        )].id);
                    } else {
                        assert(0 <= fidx < cv.len() && pgp::keyid_of(cv[fidx].fingerprint)
                            == sig@.issuer_keyid && cert_id == cv[fidx].id);
                    }
                }
                Ok(())
            },
            Err(e) => Err(e),
        }
    }

    /// The stored revocations of a certificate.
    pub fn revocations_get(&self, usercert: &CertRecord) -> (r: Vec<RevocationRecord>)
        ensures
            r.deep_view() == self.st().revocations.deep_view().filter(
                |v: crate::storage::RevocationRecordV| v.cert_id == usercert@.id,
            ),
    {
        self.storage().revocations_by_cert(usercert.id)
    }

    /// Reason and creation time of a stored revocation.
    pub fn revocation_details(revocation: &RevocationRecord) -> (r: (String, Option<u64>))
        ensures
            r.0@ == revocation@.revocation.reason,
            r.1 == Some(revocation@.revocation.created),
    {
        (revocation.revocation.reason.clone(), Some(revocation.revocation.created))
    }

    /// The stored revocation with the given content hash.
    pub fn revocation_get_by_hash(&self, hash: &str) -> (r: Result<RevocationRecord, CaError>)
        ensures
            match r {
                Ok(v) => v@.hash == hash@ && self.st().revocations.deep_view().contains(v@),
                Err(e) => e == CaError::NotFound && forall|i: int|
                    0 <= i < self.st().revocations.deep_view().len()
                        ==> (#[trigger] self.st().revocations.deep_view()[i]).hash != hash@,
            },
    {
        match self.storage().revocation_by_hash(hash) {
            Some(v) => Ok(crate::storage::copy_revocation_record(v)),
            None => Err(CaError::NotFound),
        }
    }

    /// Applies a stored revocation: merges it into the certificate it
    /// references and marks it published, in one step.
    pub fn revocation_apply(&mut self, revocation: &RevocationRecord) -> (r: Result<(), CaError>)
        requires
            old(self).st().wf(),
        ensures
            final(self).st().wf(),
            final(self).is_split() == old(self).is_split(),
            r is Err ==> *final(self) == *old(self),
            r is Ok ==> exists|ri: int, ci: int|
                #![trigger old(self).st().revocations.deep_view()[ri],
                    old(self).st().certs.deep_view()[ci]]
            {
                let rv = old(self).st().revocations.deep_view();
                let cv = old(self).st().certs.deep_view();
                &&& 0 <= ri < rv.len()
                &&& rv[ri].id == revocation@.id
                &&& 0 <= ci < cv.len()
                &&& cv[ci].id == rv[ri].cert_id
                &&& final(self).st().revocations.deep_view() == rv.update(
                    ri,
                    crate::storage::RevocationRecordV { published: true, ..rv[ri] },
                )
                &&& final(self).st().certs.deep_view() == cv.update(
                    ci,
                    crate::storage::CertRecordV {
                        cert: PgpCertV {
                            revocations: merge_seq(
                                cv[ci].cert.revocations,
                                seq![rv[ri].revocation],
                            ),
                            ..cv[ci].cert
                        },
                        ..cv[ci]
                    },
                )
                &&& final(self).st().queue == old(self).st().queue
            },
            ((exists|ri: int|
                0 <= ri < old(self).st().revocations.deep_view().len()
                    && (#[trigger] old(self).st().revocations.deep_view()[ri]).id
                    == revocation@.id && exists|ci: int|
                    0 <= ci < old(self).st().certs.deep_view().len()
                        && (#[trigger] old(self).st().certs.deep_view()[ci]).id
                        == old(self).st().revocations.deep_view()[ri].cert_id))
                ==> r is Ok,
    {
        let storage = match &mut self.backend {
            Backend::Softkey(d) => &mut d.storage,
            Backend::SplitFront(s) => &mut s.db.storage,
        };
        storage.revocation_apply(revocation.id)
    }

    /// The armored representation of a revocation signature.
    pub fn sig_to_armored(sig: &RevocationSig) -> (r: String)
        ensures
            r@ == armor::armor_revocation(sig@),
    {
        armor::revoc_to_armored(sig)
    }

    /// The emails of a user certificate.
    pub fn emails_get(&self, usercert: &CertRecord) -> (r: Vec<CertEmail>)
        ensures
            r.deep_view() == self.st().emails.deep_view().filter(
                |e: crate::storage::CertEmailV| e.cert_id == usercert@.id,
            ),
    {
        self.storage().emails_by_cert(usercert.id)
    }

    /// All bridges.
    pub fn bridges_get(&self) -> (r: &Vec<BridgeRecord>)
        ensures
            r == &self.st().bridges,
    {
        self.storage().list_bridges()
    }

    /// The bridge whose remote email is `email`.
    pub fn bridges_search(&self, email: &str) -> (r: Result<&BridgeRecord, CaError>)
        ensures
            match r {
                Ok(b) => b@.email == email@ && self.st().bridges.deep_view().contains(b@),
                Err(e) => e == CaError::NotFound && forall|i: int|
                    0 <= i < self.st().bridges.deep_view().len()
                        ==> (#[trigger] self.st().bridges.deep_view()[i]).email != email@,
            },
    {
        match self.storage().bridge_by_email(email) {
            Some(b) => Ok(b),
            None => Err(CaError::NotFound),
        }
    }

    /// The trust-signature scope pattern for a domain: dots escaped, the
    /// email anchored to the domain.
    pub fn domain_to_regex(domain: &str) -> (r: Result<String, CaError>)
        ensures
            !valid_domain(domain@) ==> r == Err::<String, CaError>(CaError::InvalidDomain),
            valid_domain(domain@) ==> r is Ok && r->Ok_0@ == "<[^>]+[@.]"@
                + crate::domain::escape_dots(domain@, 0) + ">$"@,
    {
        if !check_domain(domain) {
            return Err(CaError::InvalidDomain);
        }
        let mut out = String::new();
        out.append("<[^>]+[@.]");
        crate::domain::append_escaped_dots(&mut out, domain);
        out.append(">$");
        proof {
            assert(out@ =~= "<[^>]+[@.]"@ + crate::domain::escape_dots(domain@, 0) + ">$"@);
        }
        Ok(out)
    }

    /// Creates a bridge to a remote CA.  The remote certificate must
    /// carry exactly one user id with the localpart `openpgp-ca`; the
    /// scope defaults to the remote domain and must equal it when given.
    /// The softkey backend signs at once; the split-front backend queues
    /// the trust signature and stores the still-unsigned certificate.
    /// What creating a bridge at time `now` does: the (possibly still
    /// unsigned) remote certificate is stored stripped of secrets, the
    /// bridge record points at it, and the split front queues the bridge
    /// request instead of signing.
    pub open spec fn bridge_added_at(
        pre: Storage,
        post: Storage,
        split: bool,
        email_arg: Option<Seq<char>>,
        remote: PgpCertV,
        scope_arg: Option<Seq<char>>,
        rec: crate::storage::BridgeRecordV,
        fp: Seq<char>,
        now: u64,
    ) -> bool {
        let uid_email = pgp::email_of_uid(remote.userids[0])->Some_0;
        let scope = match scope_arg {
            Some(sc) => sc,
            None => pgp::domain_of_email(uid_email)->Some_0,
        };
        let email = match email_arg {
            Some(e) => e,
            None => uid_email,
        };
        let regex = "<[^>]+[@.]"@ + crate::domain::escape_dots(scope, 0) + ">$"@;
        let bridged = if split {
            remote
        } else {
            secret::bridged_cert(pre.ca_v()->Some_0.1, remote, seq![regex])
        };
        let cid = if split {
            (pre.next_id + 1) as u64
        } else {
            pre.next_id
        };
        &&& fp == remote.fingerprint
        &&& post.certs.deep_view() == pre.certs.deep_view().push(
            crate::storage::CertRecordV {
                id: cid,
                fingerprint: remote.fingerprint,
                cert: strip_secrets(bridged),
                user_id: None,
                delisted: false,
                deactivated: false,
            },
        )
        &&& rec == (crate::storage::BridgeRecordV {
            id: (cid + 1) as u64,
            email,
            scope,
            cert_id: cid,
        })
        &&& post.bridges.deep_view() == pre.bridges.deep_view().push(rec)
        &&& post.users == pre.users
        &&& post.emails == pre.emails
        &&& post.revocations == pre.revocations
        &&& post.ca == pre.ca
        &&& (split ==> post.queue.deep_view() == pre.queue.deep_view().push(
            crate::queue::QueueRecordV {
                id: pre.next_id,
                created: now,
                task: crate::queue::QueueEntryV::BridgeReq(
                    crate::queue::BridgeReqV { cert: remote, scope_regexes: seq![regex] },
                ),
                done: false,
            },
        ))
        &&& (!split ==> post.queue == pre.queue)
    }

    /// What creating a bridge does, at some creation time.
    pub open spec fn bridge_added(
        pre: Storage,
        post: Storage,
        split: bool,
        email_arg: Option<Seq<char>>,
        remote: PgpCertV,
        scope_arg: Option<Seq<char>>,
        rec: crate::storage::BridgeRecordV,
        fp: Seq<char>,
    ) -> bool {
        exists|now: u64| Self::bridge_added_at(
            pre,
            post,
            split,
            email_arg,
            remote,
            scope_arg,
            rec,
            fp,
            now,
        )
    }

    pub fn add_bridge(
        &mut self,
        remote_email: Option<&str>,
        remote_cert: &PgpCert,
        remote_scope: Option<&str>,
    ) -> (r: Result<(BridgeRecord, String), CaError>)
        requires
            old(self).st().wf(),
        ensures
            final(self).st().wf(),
            final(self).is_split() == old(self).is_split(),
            remote_cert@.userids.len() != 1 ==> r == Err::<(BridgeRecord, String), CaError>(
                CaError::WrongIdentityCount,
            ) && *final(self) == *old(self),
            r is Ok ==> final(self).st().bridges.deep_view().len()
                == old(self).st().bridges.deep_view().len() + 1,
            r is Ok && old(self).is_split() ==> final(self).st().queue.deep_view().len()
                == old(self).st().queue.deep_view().len() + 1,
            r is Ok && !old(self).is_split() ==> final(self).st().queue
                == old(self).st().queue,
            r is Ok ==> (!old(self).is_split() ==> old(self).st().ca_v() is Some)
                && remote_cert@.userids.len() == 1
                && pgp::email_of_uid(remote_cert@.userids[0]) is Some && Self::bridge_added(
                old(self).st(),
                final(self).st(),
                old(self).is_split(),
                pgp::opt_str_view(remote_email),
                remote_cert@,
                pgp::opt_str_view(remote_scope),
                r->Ok_0.0@,
                r->Ok_0.1@,
            ),
            ({
                let u0 = remote_cert@.userids[0];
                let e = pgp::email_of_uid(u0);
                &&& old(self).st().ca_v() is Some
                &&& remote_cert@.userids.len() == 1
                &&& e is Some
                &&& pgp::localpart_of_email(e->Some_0) == Some("openpgp-ca"@)
                &&& pgp::domain_of_email(e->Some_0) is Some
                &&& valid_domain(pgp::domain_of_email(e->Some_0)->Some_0)
                &&& (match pgp::opt_str_view(remote_scope) {
                    Some(sc) => sc == pgp::domain_of_email(e->Some_0)->Some_0,
                    None => true,
                })
                &&& !crate::storage::certs_have_fp(
                    old(self).st().certs.deep_view(),
                    remote_cert@.fingerprint,
                )
                &&& old(self).st().next_id < u64::MAX - 3
            }) ==> r is Ok,
    {
        if remote_cert.userids.len() != 1 {
            return Err(CaError::WrongIdentityCount);
        }
        let uid_email = match pgp::uid_email(remote_cert.userids[0].as_str()) {
            Some(e) => e,
            None => {
                return Err(CaError::BadInput);
            },
        };
        match pgp::email_localpart(uid_email.as_str()) {
            Some(lp) => {
                if !crate::strings::str_eq(lp.as_str(), "openpgp-ca") {
                    return Err(CaError::BadInput);
                }
            },
            None => {
                return Err(CaError::BadInput);
            },
        }
        let cert_domain = match pgp::email_domain(uid_email.as_str()) {
            Some(d) => d,
            None => {
                return Err(CaError::BadInput);
            },
        };
        let scope: String = match remote_scope {
            Some(s) => {
                if !crate::strings::str_eq(s, cert_domain.as_str()) {
                    return Err(CaError::BadInput);
                }
                s.to_owned()
            },
            None => cert_domain,
        };
        let email: String = match remote_email {
            Some(e) => e.to_owned(),
            None => uid_email,
        };
        let regex = match Self::domain_to_regex(scope.as_str()) {
            Ok(x) => x,
            Err(e) => {
                return Err(e);
            },
        };
        let mut regexes: Vec<String> = Vec::new();
        regexes.push(regex);
        let ghost uid_email_v = pgp::email_of_uid(remote_cert@.userids[0])->Some_0;
        let ghost scope_v = match pgp::opt_str_view(remote_scope) {
            Some(sc) => sc,
            None => pgp::domain_of_email(uid_email_v)->Some_0,
        };
        let ghost regex_v = "<[^>]+[@.]"@ + crate::domain::escape_dots(scope_v, 0) + ">$"@;
        proof {
            assert(remote_cert.userids[0]@ == remote_cert@.userids[0]);
            assert(uid_email@ == uid_email_v);
            assert(scope@ == scope_v);
            assert(regexes.deep_view() =~= seq![regex_v]);
            assert(email@ == (match pgp::opt_str_view(remote_email) {
                Some(e) => e,
                None => uid_email_v,
            }));
        }
        let now = now_timestamp();
        let bridged: PgpCert;
        match &mut self.backend {
            Backend::Softkey(d) => {
                let ca = match d.storage.get_ca() {
                    Ok(p) => &p.1,
                    Err(e) => {
                        return Err(e);
                    },
                };
                bridged = match secret::bridge_to_remote_ca(ca, remote_cert, &regexes) {
                    Ok(b) => b,
                    Err(e) => {
                        return Err(e);
                    },
                };
                proof {
                    assert(bridged@ == secret::bridged_cert(
                        old(self).st().ca_v()->Some_0.1,
                        remote_cert@,
                        seq![regex_v],
                    ));
                }
            },
            Backend::SplitFront(s) => {
                bridged = match split::split_bridge_to_remote_ca(
                    &mut s.db.storage,
                    remote_cert,
                    &regexes,
                    now,
                ) {
                    Ok(b) => b,
                    Err(e) => {
                        return Err(e);
                    },
                };
                proof {
                    assert(bridged@ == remote_cert@);
                    assert(s.db.storage.queue.deep_view()
                        == old(self).st().queue.deep_view().push(
                        crate::queue::QueueRecordV {
                            id: old(self).st().next_id,
                            created: now,
                            task: crate::queue::QueueEntryV::BridgeReq(
                                crate::queue::BridgeReqV {
                                    cert: remote_cert@,
                                    scope_regexes: seq![regex_v],
                                },
                            ),
                            done: false,
                        },
                    ));
                    assert(s.db.storage.next_id == old(self).st().next_id + 1);
                }
            },
        }
        proof {
            assert(self.st().users == old(self).st().users);
            assert(self.st().certs == old(self).st().certs);
            assert(self.st().emails == old(self).st().emails);
            assert(self.st().revocations == old(self).st().revocations);
            assert(self.st().bridges == old(self).st().bridges);
            assert(self.st().ca == old(self).st().ca);
            if !old(self).is_split() {
                assert(self.st().queue == old(self).st().queue);
                assert(self.st().next_id == old(self).st().next_id);
            }
        }
        let stored = strip_secret_key_material(&bridged);
        let fp = stored.fingerprint.clone();
        let storage = match &mut self.backend {
            Backend::Softkey(d) => &mut d.storage,
            Backend::SplitFront(s) => &mut s.db.storage,
        };
        let cert_id = match storage.cert_add(fp.as_str(), stored, None) {
            Ok(id) => id,
            Err(e) => {
                return Err(e);
            },
        };
        match storage.bridge_insert(email.as_str(), scope.as_str(), cert_id) {
            Ok(bid) => {
                let rec = BridgeRecord {
                    id: bid,
                    email: email.clone(),
                    scope: scope.clone(),
                    cert_id,
                };
                proof {
                    let bv = self.st().bridges.deep_view();
                    assert(bv.last() == bv[bv.len() - 1]);
                    assert(Self::bridge_added_at(
                        old(self).st(),
                        self.st(),
                        old(self).is_split(),
                        pgp::opt_str_view(remote_email),
                        remote_cert@,
                        pgp::opt_str_view(remote_scope),
                        rec@,
                        fp@,
                        now,
                    ));
                    assert(Self::bridge_added(
                        old(self).st(),
                        self.st(),
                        old(self).is_split(),
                        pgp::opt_str_view(remote_email),
                        remote_cert@,
                        pgp::opt_str_view(remote_scope),
                        rec@,
                        fp@,
                    ));
                }
                Ok((rec, fp))
            },
            Err(e) => Err(e),
        }
    }

    /// Revokes a bridge: builds the revocation with the CA key (back
    /// instance only), merges it into the stored remote certificate, and
    /// returns both.
    /// What revoking the bridge at `email` does: the revocation is built
    /// over the stored remote certificate (index `ci`) at time `now` and
    /// merged into it in place.
    pub open spec fn bridge_revoked_at(
        pre: Storage,
        post: Storage,
        email: Seq<char>,
        sig: crate::model::RevocationSigV,
        revoked: PgpCertV,
        ci: int,
        now: u64,
    ) -> bool {
        let cv = pre.certs.deep_view();
        let ca = pre.ca_v()->Some_0.1;
        &&& 0 <= ci < cv.len()
        &&& (exists|bi: int|
            0 <= bi < pre.bridges.deep_view().len()
                && (#[trigger] pre.bridges.deep_view()[bi]).email == email
                && pre.bridges.deep_view()[bi].cert_id == cv[ci].id)
        &&& cv[ci].cert.userids.len() == 1
        &&& sig == secret::bridge_revocation_of(ca, cv[ci].cert, now)
        &&& revoked == (PgpCertV {
            revocations: merge_seq(cv[ci].cert.revocations, seq![sig]),
            ..cv[ci].cert
        })
        &&& post.certs.deep_view() == cv.update(
            ci,
            crate::storage::CertRecordV { cert: revoked, ..cv[ci] },
        )
        &&& post.bridges == pre.bridges
        &&& post.queue == pre.queue
        &&& post.users == pre.users
        &&& post.revocations == pre.revocations
        &&& post.ca == pre.ca
    }

    /// What revoking a bridge does, for some stored certificate and time.
    pub open spec fn bridge_revoked(
        pre: Storage,
        post: Storage,
        email: Seq<char>,
        sig: crate::model::RevocationSigV,
        revoked: PgpCertV,
    ) -> bool {
        exists|ci: int, now: u64| Self::bridge_revoked_at(pre, post, email, sig, revoked, ci, now)
    }

    pub fn bridge_revoke(&mut self, email: &str) -> (r: Result<
        (RevocationSig, PgpCert),
        CaError,
    >)
        requires
            old(self).st().wf(),
        ensures
            final(self).st().wf(),
            final(self).is_split() == old(self).is_split(),
            old(self).is_split() ==> r == Err::<(RevocationSig, PgpCert), CaError>(
                CaError::UnsupportedOnFrontInstance,
            ) && *final(self) == *old(self),
            r is Err ==> *final(self) == *old(self),
            r is Ok ==> old(self).st().ca_v() is Some && Self::bridge_revoked(
                old(self).st(),
                final(self).st(),
                email@,
                r->Ok_0.0@,
                r->Ok_0.1@,
            ),
            ({
                let cv = old(self).st().certs.deep_view();
                let bv = old(self).st().bridges.deep_view();
                &&& !old(self).is_split()
                &&& old(self).st().ca_v() is Some
                &&& secret::cert_key_indices(old(self).st().ca_v()->Some_0.1).len() == 1
                &&& (exists|bi: int|
                    0 <= bi < bv.len() && (#[trigger] bv[bi]).email == email@ && (forall|j: int|
                        0 <= j < bv.len() && j != bi
                            ==> (#[trigger] bv[j]).email != email@) && (exists|ci: int|
                        0 <= ci < cv.len() && (#[trigger] cv[ci]).id == bv[bi].cert_id
                            && cv[ci].cert.userids.len() == 1))
            }) ==> r is Ok,
    {
        let d = match &mut self.backend {
            Backend::Softkey(d) => d,
            Backend::SplitFront(_) => {
                return Err(CaError::UnsupportedOnFrontInstance);
            },
        };
        let now = now_timestamp();
        let ghost cv = d.storage.certs.deep_view();
        let ghost ci: int;
        let (cert_fp, remote) = {
            let bridge = match d.storage.bridge_by_email(email) {
                Some(b) => b,
                None => {
                    return Err(CaError::NotFound);
                },
            };
            let cert = match d.storage.cert_by_id(bridge.cert_id) {
                Some(c) => c,
                None => {
                    return Err(CaError::NotFound);
                },
            };
            proof {
                ci = choose|i: int|
                    0 <= i < cv.len() && cv[i] == cert@ && cert@.id == bridge@.cert_id;
                assert(old(self).st().bridges.deep_view().contains(bridge@));
                let bi = choose|j: int|
                    0 <= j < old(self).st().bridges.deep_view().len()
                        && old(self).st().bridges.deep_view()[j] == bridge@;
                assert(old(self).st().bridges.deep_view()[bi].email == email@
                    && old(self).st().bridges.deep_view()[bi].cert_id == cv[ci].id);
            }
            (cert.fingerprint.clone(), copy_pgp_cert(&cert.cert))
        };
        let (sig, revoked) = {
            let ca = match d.storage.get_ca() {
                Ok(p) => &p.1,
                Err(e) => {
                    return Err(e);
                },
            };
            match secret::bridge_revoke(ca, &remote, now) {
                Ok(p) => p,
                Err(e) => {
                    return Err(e);
                },
            }
        };
        match d.storage.cert_update(cert_fp.as_str(), &revoked) {
            Ok(_) => {
                proof {
                    let k = crate::storage::cert_index_of(cv, cert_fp@);
                    assert(cv[k].fingerprint == cert_fp@ && cv[ci].fingerprint == cert_fp@);
                    assert(k == ci);
                    assert(self.st().certs.deep_view() == cv.update(
                        ci,
                        crate::storage::CertRecordV { cert: revoked@, ..cv[ci] },
                    ));
                    assert(Self::bridge_revoked_at(
                        old(self).st(),
                        self.st(),
                        email@,
                        sig@,
                        revoked@,
                        ci,
                        now,
                    ));
                    assert(Self::bridge_revoked(
                        old(self).st(),
                        self.st(),
                        email@,
                        sig@,
                        revoked@,
                    ));
                }
                Ok((sig, revoked))
            },
            Err(e) => Err(e),
        }
    }

    /// Whether the stored bridged certificate carries a trust signature
    /// issued by the CA.
    #[verifier::loop_isolation(false)]
    pub fn check_tsig_on_bridge(&self, bridge: &BridgeRecord) -> (r: Result<bool, CaError>)
        ensures
            (self.st().ca_v() is Some && exists|i: int|
                0 <= i < self.st().certs.deep_view().len()
                    && (#[trigger] self.st().certs.deep_view()[i]).id == bridge@.cert_id)
                <==> r is Ok,
            r is Ok ==> exists|i: int|
                0 <= i < self.st().certs.deep_view().len()
                    && (#[trigger] self.st().certs.deep_view()[i]).id == bridge@.cert_id
                    && r->Ok_0 == (exists|j: int|
                    0 <= j < self.st().certs.deep_view()[i].cert.tsigs.len()
                        && (#[trigger] self.st().certs.deep_view()[i].cert.tsigs[j]).issuer_fp
                        == self.st().ca_v()->Some_0.1.fingerprint),
    {
        let storage = self.storage();
        let ca_fp = match storage.get_ca() {
            Ok(p) => p.1.fingerprint.clone(),
            Err(e) => {
                return Err(e);
            },
        };
        let cert = match storage.cert_by_id(bridge.cert_id) {
            Some(c) => c,
            None => {
                return Err(CaError::NotFound);
            },
        };
        let ghost cv = cert@;
        let n = cert.cert.tsigs.len();
        let mut found = false;
        for i in 0..n
            invariant
                found ==> exists|j: int|
                    0 <= j < cv.cert.tsigs.len() && (#[trigger] cv.cert.tsigs[j]).issuer_fp
                        == ca_fp@,
                !found ==> forall|j: int|
                    0 <= j < i ==> (#[trigger] cv.cert.tsigs[j]).issuer_fp != ca_fp@,
        {
            if cert.cert.tsigs[i].issuer_fp == ca_fp {
                proof {
                    assert(cv.cert.tsigs[i as int].issuer_fp == ca_fp@);
                }
                found = true;
            }
        }
        proof {
            let k = choose|k: int|
                0 <= k < self.st().certs.deep_view().len()
                    && self.st().certs.deep_view()[k] == cv && cv.id == bridge@.cert_id;
        }
        Ok(found)
    }

    /// Splits this (softkey) instance into an online front instance
    /// without private key material and an offline back instance holding
    /// the key.
    pub fn split_into(self) -> (r: Result<(OpenpgpCa, OpenpgpCa), CaError>)
        requires
            self.st().wf(),
        ensures
            self.is_split() ==> r is Err,
            r is Ok ==> {
                let front = r->Ok_0.0;
                let back = r->Ok_0.1;
                &&& front.is_split()
                &&& !back.is_split()
                &&& front.st().wf()
                &&& back.st().wf()
                &&& self.st().ca_v() is Some
                &&& front.st().ca_v() == Some(
                    (
                        CaRecordV {
                            domainname: self.st().ca_v()->Some_0.0.domainname,
                            split_front: true,
                        },
                        strip_secrets(self.st().ca_v()->Some_0.1),
                    ),
                )
                &&& back.st().ca_v() == Some(
                    (
                        CaRecordV {
                            domainname: self.st().ca_v()->Some_0.0.domainname,
                            split_front: false,
                        },
                        self.st().ca_v()->Some_0.1,
                    ),
                )
                &&& front.st().certs == self.st().certs
                &&& front.st().users == self.st().users
                &&& front.st().emails == self.st().emails
                &&& front.st().queue == self.st().queue
                &&& back.st().certs@.len() == 0
                &&& back.st().queue@.len() == 0
            },
    {
        let d = match self.backend {
            Backend::Softkey(d) => d,
            Backend::SplitFront(_) => {
                return Err(CaError::UnsupportedOnFrontInstance);
            },
        };
        let mut storage = d.db();
        let (domain, cacert) = {
            let p = match storage.get_ca() {
                Ok(p) => p,
                Err(e) => {
                    return Err(e);
                },
            };
            (p.0.domainname.clone(), copy_pgp_cert(&p.1))
        };
        // the back instance: a fresh softkey store with the private key
        let mut back_store = Storage::new();
        let res = back_store.ca_insert(
            CaRecord { domainname: domain.clone(), split_front: false },
            copy_pgp_cert(&cacert),
        );
        proof {
            assert(res is Ok);
        }
        // the front instance: the existing store, key material stripped
        storage.ca = Some(
            (
                CaRecord { domainname: domain, split_front: true },
                strip_secret_key_material(&cacert),
            ),
        );
        let front = OpenpgpCa { backend: Backend::SplitFront(SplitCa::new(storage)) };
        let back = OpenpgpCa { backend: Backend::Softkey(DbCa::new(back_store)) };
        proof {
            assert(front.st().ca_v()->Some_0.0 =~= (CaRecordV {
                domainname: self.st().ca_v()->Some_0.0.domainname,
                split_front: true,
            }));
            assert(back.st().ca_v()->Some_0.0 =~= (CaRecordV {
                domainname: self.st().ca_v()->Some_0.0.domainname,
                split_front: false,
            }));
        }
        Ok((front, back))
    }

    /// Exports the pending queue as a request container for the back
    /// instance.  With nothing pending there is nothing to export.
    pub fn ca_split_export(&self) -> (r: Result<Option<SplitOcaRequests>, CaError>)
        ensures
            self.st().ca is None ==> r is Err,
            self.st().ca is Some && split::export_entries(self.st().queue.deep_view()).len()
                == 0 ==> r == Ok::<Option<SplitOcaRequests>, CaError>(None),
            self.st().ca is Some && split::export_entries(self.st().queue.deep_view()).len()
                > 0 ==> r is Ok && r->Ok_0 is Some && {
                let c = r->Ok_0->Some_0;
                &&& c@.version == split::SPLIT_OCA_REQUEST_VERSION
                &&& c@.ca_fingerprint == self.st().ca_v()->Some_0.1.fingerprint
                &&& c@.queue == split::export_entries(self.st().queue.deep_view())
            },
    {
        let now = now_timestamp();
        split::export_csr_queue(self.storage(), now)
    }

    /// Processes a request container against the CA key (back instance
    /// only).  In batch mode every entry is approved; otherwise entry `i`
    /// is processed only when `approvals[i]` is true.
    pub fn ca_split_certify(
        &self,
        reqs: &SplitOcaRequests,
        batch: bool,
        approvals: &Vec<bool>,
    ) -> (r: Result<SplitOcaResponse, CaError>)
        ensures
            self.is_split() ==> r == Err::<SplitOcaResponse, CaError>(
                CaError::UnsupportedOnFrontInstance,
            ),
            !self.is_split() && self.st().ca_v() is Some && reqs@.version
                == split::SPLIT_OCA_REQUEST_VERSION && reqs@.ca_fingerprint
                == self.st().ca_v()->Some_0.1.fingerprint
                && self.st().ca_v()->Some_0.1.userids.len() > 0 && split::tasks_answerable(
                reqs@.queue,
                if batch {
                    Seq::new(reqs@.queue.len(), |i: int| true)
                } else {
                    approvals@
                },
            ) ==> r is Ok && {
                let c = r->Ok_0;
                &&& c@.version == split::SPLIT_OCA_RESPONSE_VERSION
                &&& c@.ca_fingerprint == self.st().ca_v()->Some_0.1.fingerprint
                &&& c@.queue == split::response_entries(
                    self.st().ca_v()->Some_0.1,
                    reqs@.queue,
                    if batch {
                        Seq::new(reqs@.queue.len(), |i: int| true)
                    } else {
                        approvals@
                    },
                    0,
                )
            },
            !self.is_split() && self.st().ca_v() is Some && reqs@.version
                != split::SPLIT_OCA_REQUEST_VERSION ==> r is Err
                && r->Err_0 is VersionMismatch,
            !self.is_split() && self.st().ca_v() is Some && reqs@.version
                == split::SPLIT_OCA_REQUEST_VERSION && reqs@.ca_fingerprint
                != self.st().ca_v()->Some_0.1.fingerprint ==> r is Err
                && r->Err_0 is FingerprintMismatch,
    {
        let d = match &self.backend {
            Backend::Softkey(d) => d,
            Backend::SplitFront(_) => {
                return Err(CaError::UnsupportedOnFrontInstance);
            },
        };
        let ca = match d.storage.get_ca() {
            Ok(p) => &p.1,
            Err(e) => {
                return Err(e);
            },
        };
        let now = now_timestamp();
        if batch {
            let mut all: Vec<bool> = Vec::new();
            let n = reqs.queue.len();
            for i in 0..n
                invariant
                    n == reqs.queue@.len(),
                    all@.len() == i,
                    forall|j: int| 0 <= j < i ==> all@[j] == true,
            {
                all.push(true);
            }
            proof {
                assert(all@ =~= Seq::new(reqs@.queue.len(), |i: int| true));
            }
            split::certify(ca, reqs, &all, now)
        } else {
            split::certify(ca, reqs, approvals, now)
        }
    }

    /// Imports a response container from the back instance.
    pub fn ca_split_import(&mut self, sor: &SplitOcaResponse) -> (r: Result<ImportStats, CaError>)
        requires
            old(self).st().wf(),
        ensures
            final(self).st().wf(),
            final(self).is_split() == old(self).is_split(),
            final(self).st().ca == old(self).st().ca,
            final(self).st().users == old(self).st().users,
            sor@.version != split::SPLIT_OCA_RESPONSE_VERSION ==> r == Err::<
                ImportStats,
                CaError,
            >(
                CaError::VersionMismatch {
                    expected: split::SPLIT_OCA_RESPONSE_VERSION,
                    actual: sor.version,
                },
            ) && *final(self) == *old(self),
            sor@.version == split::SPLIT_OCA_RESPONSE_VERSION && old(self).st().ca is None
                ==> r == Err::<ImportStats, CaError>(CaError::NotInitialized)
                && *final(self) == *old(self),
            (sor@.version == split::SPLIT_OCA_RESPONSE_VERSION && old(self).st().ca is Some
                && sor@.ca_fingerprint != old(self).st().ca_v()->Some_0.1.fingerprint)
                ==> r is Err && r->Err_0 is FingerprintMismatch
                && *final(self) == *old(self),
            r is Ok ==> r->Ok_0.total == sor.queue@.len()
                && r->Ok_0.applied + r->Ok_0.skipped == r->Ok_0.total
                && forall|i: int| 0 <= i < sor@.queue.len() ==> split::queue_id_done(
                    final(self).st().queue.deep_view(),
                    (#[trigger] sor@.queue[i]).0,
                ),
            (sor@.version == split::SPLIT_OCA_RESPONSE_VERSION && old(self).st().ca is Some
                && sor@.ca_fingerprint == old(self).st().ca_v()->Some_0.1.fingerprint
                && forall|i: int| 0 <= i < sor@.queue.len() ==> split::queue_id_done(
                    old(self).st().queue.deep_view(),
                    (#[trigger] sor@.queue[i]).0,
                )) ==> r == Ok::<ImportStats, CaError>(ImportStats {
                total: sor.queue.len(),
                applied: 0,
                skipped: sor.queue.len(),
            }) && *final(self) == *old(self),
            (sor@.version == split::SPLIT_OCA_RESPONSE_VERSION && old(self).st().ca is Some
                && sor@.ca_fingerprint == old(self).st().ca_v()->Some_0.1.fingerprint)
                ==> forall|des: Seq<(u64, split::DecodedResponseV)>|
                #[trigger] split::entries_decode_to(sor@.queue, des) ==> {
                let o = split::import_trans(
                    old(self).st().certs.deep_view(),
                    old(self).st().queue.deep_view(),
                    des,
                    0,
                    0,
                    0,
                );
                &&& final(self).st().certs.deep_view() == o.0
                &&& final(self).st().queue.deep_view() == o.1
                &&& o.4 ==> r == Ok::<ImportStats, CaError>(ImportStats {
                    total: sor.queue.len(),
                    applied: o.2 as usize,
                    skipped: o.3 as usize,
                })
                &&& !o.4 ==> r is Err
            },
    {
        let storage = match &mut self.backend {
            Backend::Softkey(d) => &mut d.storage,
            Backend::SplitFront(s) => &mut s.db.storage,
        };
        split::ca_split_import(storage, sor)
    }

    /// Generates the pre-dated CA self-revocation artifact (softkey
    /// backend only: the split-front instance has no key).
    pub fn ca_generate_revocations(&self) -> (r: Result<String, CaError>)
        ensures
            self.is_split() ==> r == Err::<String, CaError>(CaError::UnsupportedOnFrontInstance),
            r is Ok ==> self.st().ca_v() is Some && exists|now: u64|
                r->Ok_0@ == armor::revocations_artifact(
                    self.st().ca_v()->Some_0.1,
                    pgp::email_of_uid(self.st().ca_v()->Some_0.1.userids[0])->Some_0,
                    now,
                ),
            (!self.is_split() && self.st().ca_v() is Some
                && self.st().ca_v()->Some_0.1.userids.len() == 1 && pgp::email_of_uid(
                self.st().ca_v()->Some_0.1.userids[0],
            ) is Some && self.st().ca_v()->Some_0.1.has_private) ==> r is Ok,
    {
        let d = match &self.backend {
            Backend::Softkey(d) => d,
            Backend::SplitFront(_) => {
                return Err(CaError::UnsupportedOnFrontInstance);
            },
        };
        let now = now_timestamp();
        let r = d.ca_generate_revocations(now);
        proof {
            if r is Ok {
                assert(r->Ok_0@ == armor::revocations_artifact(
                    self.st().ca_v()->Some_0.1,
                    pgp::email_of_uid(self.st().ca_v()->Some_0.1.userids[0])->Some_0,
                    now,
                ));
            }
        }
        r
    }

    /// Produces a detached signature over `text` (softkey backend only).
    pub fn sign_detached(&self, text: &str) -> (r: Result<String, CaError>)
        ensures
            self.is_split() ==> r == Err::<String, CaError>(CaError::UnsupportedOnFrontInstance),
            r is Ok ==> self.st().ca_v() is Some && r->Ok_0@ == armor::detached_signature(
                self.st().ca_v()->Some_0.1,
                text@,
            ),
            (!self.is_split() && self.st().ca_v() is Some && armor::has_signing_key(
                self.st().ca_v()->Some_0.1,
            )) ==> r is Ok,
    {
        match &self.backend {
            Backend::Softkey(d) => d.sign_detached(text),
            Backend::SplitFront(_) => Err(CaError::UnsupportedOnFrontInstance),
        }
    }
}

} // verus!
