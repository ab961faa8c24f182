//! Persisted state and its operations.
//!
//! The storage handle owns every table of a CA instance: the one-time CA
//! record, certificates, users, emails, revocations, bridges and the
//! queue.  Multi-step mutations are single methods, so a caller can never
//! observe a half-applied change.

use vstd::prelude::*;

use crate::errors::CaError;
use crate::model::PgpCert;
use crate::model::PgpCertV;
use crate::model::RevocationSig;
use crate::model::RevocationSigV;
use crate::model::copy_pgp_cert;
use crate::model::copy_revocation_sig;
use crate::model::opt_view;
use crate::queue::QueueEntry;
use crate::queue::QueueRecord;
use crate::queue::QueueRecordV;
use crate::queue::copy_queue_record;
use crate::strings::str_eq;

verus! {

/// The permanent CA record: the domain the CA is in charge of, and the
/// backend discriminator.
pub struct CaRecord {
    pub domainname: String,
    /// `true` for a split-front instance (no private key in storage).
    pub split_front: bool,
}

#[verifier::ext_equal]
pub ghost struct CaRecordV {
    pub domainname: Seq<char>,
    pub split_front: bool,
}

impl View for CaRecord {
    type V = CaRecordV;

    open spec fn view(&self) -> CaRecordV {
        CaRecordV { domainname: self.domainname@, split_front: self.split_front }
    }
}

/// A stored certificate with its bookkeeping.
pub struct CertRecord {
    pub id: u64,
    pub fingerprint: String,
    pub cert: PgpCert,
    /// The owning user, if any.
    pub user_id: Option<u64>,
    pub delisted: bool,
    pub deactivated: bool,
}

#[verifier::ext_equal]
pub ghost struct CertRecordV {
    pub id: u64,
    pub fingerprint: Seq<char>,
    pub cert: PgpCertV,
    pub user_id: Option<u64>,
    pub delisted: bool,
    pub deactivated: bool,
}

impl View for CertRecord {
    type V = CertRecordV;

    open spec fn view(&self) -> CertRecordV {
        CertRecordV {
            id: self.id,
            fingerprint: self.fingerprint@,
            cert: self.cert@,
            user_id: self.user_id,
            delisted: self.delisted,
            deactivated: self.deactivated,
        }
    }
}

impl DeepView for CertRecord {
    type V = CertRecordV;

    open spec fn deep_view(&self) -> CertRecordV {
        self.view()
    }
}

/// Copies a stored certificate record.
pub fn copy_cert_record(c: &CertRecord) -> (r: CertRecord)
    ensures
        r@ == c@,
{
    let r = CertRecord {
        id: c.id,
        fingerprint: c.fingerprint.clone(),
        cert: copy_pgp_cert(&c.cert),
        user_id: c.user_id,
        delisted: c.delisted,
        deactivated: c.deactivated,
    };
    proof {
        assert(r@ =~= c@);
    }
    r
}

/// A user of the CA.
pub struct UserRecord {
    pub id: u64,
    pub name: Option<String>,
}

#[verifier::ext_equal]
pub ghost struct UserRecordV {
    pub id: u64,
    pub name: Option<Seq<char>>,
}

impl View for UserRecord {
    type V = UserRecordV;

    open spec fn view(&self) -> UserRecordV {
        UserRecordV { id: self.id, name: opt_view(self.name) }
    }
}

impl DeepView for UserRecord {
    type V = UserRecordV;

    open spec fn deep_view(&self) -> UserRecordV {
        self.view()
    }
}

/// An email address, belonging to exactly one certificate.
pub struct CertEmail {
    pub addr: String,
    pub cert_id: u64,
}

#[verifier::ext_equal]
pub ghost struct CertEmailV {
    pub addr: Seq<char>,
    pub cert_id: u64,
}

impl View for CertEmail {
    type V = CertEmailV;

    open spec fn view(&self) -> CertEmailV {
        CertEmailV { addr: self.addr@, cert_id: self.cert_id }
    }
}

impl DeepView for CertEmail {
    type V = CertEmailV;

    open spec fn deep_view(&self) -> CertEmailV {
        self.view()
    }
}

/// A stored revocation: the signature, a stable content hash used for
/// lookup, and whether it has been applied.
pub struct RevocationRecord {
    pub id: u64,
    pub hash: String,
    pub revocation: RevocationSig,
    pub published: bool,
    pub cert_id: u64,
}

#[verifier::ext_equal]
pub ghost struct RevocationRecordV {
    pub id: u64,
    pub hash: Seq<char>,
    pub revocation: RevocationSigV,
    pub published: bool,
    pub cert_id: u64,
}

impl View for RevocationRecord {
    type V = RevocationRecordV;

    open spec fn view(&self) -> RevocationRecordV {
        RevocationRecordV {
            id: self.id,
            hash: self.hash@,
            revocation: self.revocation@,
            published: self.published,
            cert_id: self.cert_id,
        }
    }
}

impl DeepView for RevocationRecord {
    type V = RevocationRecordV;

    open spec fn deep_view(&self) -> RevocationRecordV {
        self.view()
    }
}

/// Copies a stored revocation record.
pub fn copy_revocation_record(r0: &RevocationRecord) -> (r: RevocationRecord)
    ensures
        r@ == r0@,
{
    let r = RevocationRecord {
        id: r0.id,
        hash: r0.hash.clone(),
        revocation: copy_revocation_sig(&r0.revocation),
        published: r0.published,
        cert_id: r0.cert_id,
    };
    proof {
        assert(r@ =~= r0@);
    }
    r
}

/// A bridge: trust extended to a remote CA's certificate.
pub struct BridgeRecord {
    pub id: u64,
    pub email: String,
    pub scope: String,
    /// The stored certificate holding the (possibly still unsigned) remote
    /// certificate.
    pub cert_id: u64,
}

#[verifier::ext_equal]
pub ghost struct BridgeRecordV {
    pub id: u64,
    pub email: Seq<char>,
    pub scope: Seq<char>,
    pub cert_id: u64,
}

impl View for BridgeRecord {
    type V = BridgeRecordV;

    open spec fn view(&self) -> BridgeRecordV {
        BridgeRecordV {
            id: self.id,
            email: self.email@,
            scope: self.scope@,
            cert_id: self.cert_id,
        }
    }
}

impl DeepView for BridgeRecord {
    type V = BridgeRecordV;

    open spec fn deep_view(&self) -> BridgeRecordV {
        self.view()
    }
}

/// Copies a bridge record.
pub fn copy_bridge_record(b: &BridgeRecord) -> (r: BridgeRecord)
    ensures
        r@ == b@,
{
    let r = BridgeRecord {
        id: b.id,
        email: b.email.clone(),
        scope: b.scope.clone(),
        cert_id: b.cert_id,
    };
    proof {
        assert(r@ =~= b@);
    }
    r
}

/// The storage handle of one CA instance.
pub struct Storage {
    /// The one-time CA record with the CA's own certificate material.
    pub ca: Option<(CaRecord, PgpCert)>,
    pub certs: Vec<CertRecord>,
    pub users: Vec<UserRecord>,
    pub emails: Vec<CertEmail>,
    pub revocations: Vec<RevocationRecord>,
    pub bridges: Vec<BridgeRecord>,
    pub queue: Vec<QueueRecord>,
    /// The next free record identifier.
    pub next_id: u64,
}

/// Whether `v` holds a revocation signature whose view equals `x`'s.
#[verifier::loop_isolation(false)]
pub fn revs_contain(v: &Vec<RevocationSig>, x: &RevocationSig) -> (r: bool)
    ensures
        r == v.deep_view().contains(x@),
{
    let m = v.len();
    for j in 0..m
        invariant
            forall|k: int| 0 <= k < j ==> v.deep_view()[k] != x@,
    {
        if crate::model::revocation_sig_eq(&v[j], x) {
            assert(v.deep_view()[j as int] == x@);
            return true;
        }
    }
    assert(!v.deep_view().contains(x@));
    false
}

/// Marks the queue entry with identity `id` done.
pub open spec fn mark_done(q: Seq<QueueRecordV>, id: u64) -> Seq<QueueRecordV> {
    q.map_values(|e: QueueRecordV|
        if e.id == id {
            QueueRecordV { done: true, ..e }
        } else {
            e
        })
}

/// Whether a sequence of queue entry views holds an entry with identity
/// `id`.
pub open spec fn queue_has_id(q: Seq<QueueRecordV>, id: u64) -> bool {
    exists|i: int| 0 <= i < q.len() && q[i].id == id
}

/// Whether a sequence of certificate record views holds a record with
/// fingerprint `fp`.
pub open spec fn certs_have_fp(certs: Seq<CertRecordV>, fp: Seq<char>) -> bool {
    exists|i: int| 0 <= i < certs.len() && certs[i].fingerprint == fp
}

/// Index of the certificate record with fingerprint `fp`.
pub open spec fn cert_index_of(certs: Seq<CertRecordV>, fp: Seq<char>) -> int {
    choose|i: int| 0 <= i < certs.len() && certs[i].fingerprint == fp
}

impl Storage {
    /// Identifiers are unique and below `next_id`, and certificate
    /// fingerprints are unique.
    pub open spec fn wf(&self) -> bool {
        let q = self.queue.deep_view();
        let c = self.certs.deep_view();
        let u = self.users.deep_view();
        let rv = self.revocations.deep_view();
        let b = self.bridges.deep_view();
        &&& forall|i: int, j: int| 0 <= i < j < q.len() ==> q[i].id != q[j].id
        &&& forall|i: int| 0 <= i < q.len() ==> q[i].id < self.next_id
        &&& forall|i: int, j: int| 0 <= i < j < c.len() ==> c[i].id != c[j].id
        &&& forall|i: int| 0 <= i < c.len() ==> c[i].id < self.next_id
        &&& forall|i: int, j: int|
            0 <= i < j < c.len() ==> c[i].fingerprint != c[j].fingerprint
        &&& forall|i: int, j: int| 0 <= i < j < u.len() ==> u[i].id != u[j].id
        &&& forall|i: int| 0 <= i < u.len() ==> u[i].id < self.next_id
        &&& forall|i: int, j: int| 0 <= i < j < rv.len() ==> rv[i].id != rv[j].id
        &&& forall|i: int| 0 <= i < rv.len() ==> rv[i].id < self.next_id
        &&& forall|i: int, j: int| 0 <= i < j < b.len() ==> b[i].id != b[j].id
        &&& forall|i: int| 0 <= i < b.len() ==> b[i].id < self.next_id
    }

    /// A fresh, empty storage.
    pub fn new() -> (r: Storage)
        ensures
            r.ca is None,
            r.certs@.len() == 0,
            r.users@.len() == 0,
            r.emails@.len() == 0,
            r.revocations@.len() == 0,
            r.bridges@.len() == 0,
            r.queue@.len() == 0,
            r.wf(),
    {
        Storage {
            ca: None,
            certs: Vec::new(),
            users: Vec::new(),
            emails: Vec::new(),
            revocations: Vec::new(),
            bridges: Vec::new(),
            queue: Vec::new(),
            next_id: 0,
        }
    }

    /// Whether the CA record exists.
    pub fn is_ca_initialized(&self) -> (r: bool)
        ensures
            r == self.ca is Some,
    {
        self.ca.is_some()
    }

    /// Creates the one-time CA record.  Fails if it already exists, leaving
    /// storage unchanged.
    pub fn ca_insert(&mut self, ca: CaRecord, cacert: PgpCert) -> (r: Result<(), CaError>)
        ensures
            old(self).ca is Some ==> r == Err::<(), CaError>(CaError::AlreadyInitialized)
                && *final(self) == *old(self),
            old(self).ca is None ==> r == Ok::<(), CaError>(())
                && final(self).ca == Some((ca, cacert))
                && final(self).certs == old(self).certs
                && final(self).users == old(self).users
                && final(self).emails == old(self).emails
                && final(self).revocations == old(self).revocations
                && final(self).bridges == old(self).bridges
                && final(self).queue == old(self).queue
                && final(self).next_id == old(self).next_id,
            old(self).wf() ==> final(self).wf(),
    {
        if self.ca.is_some() {
            return Err(CaError::AlreadyInitialized);
        }
        self.ca = Some((ca, cacert));
        Ok(())
    }

    /// The CA record and certificate, by reference.
    pub fn get_ca(&self) -> (r: Result<&(CaRecord, PgpCert), CaError>)
        ensures
            match r {
                Ok(p) => self.ca == Some(*p),
                Err(e) => self.ca is None && e == CaError::NotInitialized,
            },
    {
        match &self.ca {
            Some(p) => Ok(p),
            None => Err(CaError::NotInitialized),
        }
    }

    /// The CA record and certificate at the view level.
    pub open spec fn ca_v(&self) -> Option<(CaRecordV, PgpCertV)> {
        match self.ca {
            Some(p) => Some((p.0@, p.1@)),
            None => None,
        }
    }

    /// Replaces the CA certificate material.  Fails if the CA record does
    /// not exist, leaving storage unchanged.
    pub fn cacert_update(&mut self, cert: PgpCert) -> (r: Result<(), CaError>)
        ensures
            old(self).ca is None ==> r == Err::<(), CaError>(CaError::NotInitialized)
                && *final(self) == *old(self),
            old(self).ca is Some ==> r == Ok::<(), CaError>(())
                && final(self).ca_v() == Some((old(self).ca_v()->Some_0.0, cert@))
                && final(self).certs == old(self).certs
                && final(self).users == old(self).users
                && final(self).emails == old(self).emails
                && final(self).revocations == old(self).revocations
                && final(self).bridges == old(self).bridges
                && final(self).queue == old(self).queue
                && final(self).next_id == old(self).next_id,
            old(self).wf() ==> final(self).wf(),
    {
        let rec = match &self.ca {
            None => {
                return Err(CaError::NotInitialized);
            },
            Some(p) => CaRecord {
                domainname: p.0.domainname.clone(),
                split_front: p.0.split_front,
            },
        };
        proof {
            assert(rec@ =~= old(self).ca_v()->Some_0.0);
        }
        self.ca = Some((rec, cert));
        Ok(())
    }

    /// Adds a certificate under a fingerprint not yet present.  Fails if
    /// the fingerprint is already stored, leaving storage unchanged.
    pub fn cert_add(&mut self, fingerprint: &str, cert: PgpCert, user_id: Option<u64>) -> (r:
        Result<u64, CaError>)
        requires
            old(self).wf(),
        ensures
            final(self).wf(),
            certs_have_fp(old(self).certs.deep_view(), fingerprint@)
                ==> r == Err::<u64, CaError>(CaError::BadInput) && *final(self) == *old(self),
            (!certs_have_fp(old(self).certs.deep_view(), fingerprint@)
                && old(self).next_id == u64::MAX)
                ==> r == Err::<u64, CaError>(CaError::StorageFull)
                && *final(self) == *old(self),
            (!certs_have_fp(old(self).certs.deep_view(), fingerprint@)
                && old(self).next_id < u64::MAX) ==> {
                &&& r == Ok::<u64, CaError>(old(self).next_id)
                &&& final(self).certs.deep_view() == old(self).certs.deep_view().push(
                    CertRecordV {
                        id: old(self).next_id,
                        fingerprint: fingerprint@,
                        cert: cert@,
                        user_id,
                        delisted: false,
                        deactivated: false,
                    },
                )
                &&& final(self).ca == old(self).ca
                &&& final(self).users == old(self).users
                &&& final(self).emails == old(self).emails
                &&& final(self).revocations == old(self).revocations
                &&& final(self).bridges == old(self).bridges
                &&& final(self).queue == old(self).queue
                &&& final(self).next_id == old(self).next_id + 1
            },
    {
        if self.cert_by_fp(fingerprint).is_some() {
            return Err(CaError::BadInput);
        }
        if self.next_id == u64::MAX {
            return Err(CaError::StorageFull);
        }
        let id = self.next_id;
        let rec = CertRecord {
            id,
            fingerprint: fingerprint.to_owned(),
            cert,
            user_id,
            delisted: false,
            deactivated: false,
        };
        self.certs.push(rec);
        self.next_id = id + 1;
        proof {
            assert(self.certs.deep_view() =~= old(self).certs.deep_view().push(
                CertRecordV {
                    id,
                    fingerprint: fingerprint@,
                    cert: cert@,
                    user_id,
                    delisted: false,
                    deactivated: false,
                },
            ));
        }
        Ok(id)
    }

    /// The stored certificate with fingerprint `fp`, if any.
    #[verifier::loop_isolation(false)]
    pub fn cert_by_fp(&self, fp: &str) -> (r: Option<&CertRecord>)
        ensures
            match r {
                Some(c) => c@.fingerprint == fp@ && self.certs.deep_view().contains(c@),
                None => !certs_have_fp(self.certs.deep_view(), fp@),
            },
            self.wf() && certs_have_fp(self.certs.deep_view(), fp@) ==> r is Some
                && r->Some_0@ == self.certs.deep_view()[cert_index_of(
                    self.certs.deep_view(),
                    fp@,
                )],
    {
        let n = self.certs.len();
        for i in 0..n
            invariant
                forall|j: int| 0 <= j < i ==> self.certs.deep_view()[j].fingerprint != fp@,
        {
            if str_eq(self.certs[i].fingerprint.as_str(), fp) {
                assert(self.certs.deep_view()[i as int].fingerprint == fp@);
                assert(self.certs.deep_view().contains(self.certs.deep_view()[i as int]));
                proof {
                    if self.wf() {
                        let k = cert_index_of(self.certs.deep_view(), fp@);
                        assert(certs_have_fp(self.certs.deep_view(), fp@));
                        assert(0 <= k < self.certs.deep_view().len()
                            && self.certs.deep_view()[k].fingerprint == fp@);
                        assert(k == i as int);
                    }
                }
                return Some(&self.certs[i]);
            }
        }
        assert(!certs_have_fp(self.certs.deep_view(), fp@));
        None
    }

    /// The stored certificate with identity `id`, if any.
    #[verifier::loop_isolation(false)]
    pub fn cert_by_id(&self, id: u64) -> (r: Option<&CertRecord>)
        ensures
            match r {
                Some(c) => exists|i: int|
                    0 <= i < self.certs.deep_view().len()
                        && self.certs.deep_view()[i] == c@ && c@.id == id,
                None => forall|i: int|
                    0 <= i < self.certs.deep_view().len()
                        ==> self.certs.deep_view()[i].id != id,
            },
    {
        let n = self.certs.len();
        for i in 0..n
            invariant
                forall|j: int| 0 <= j < i ==> self.certs.deep_view()[j].id != id,
        {
            if self.certs[i].id == id {
                assert(self.certs.deep_view()[i as int].id == id);
                return Some(&self.certs[i]);
            }
        }
        None
    }

    /// Replaces the stored certificate whose fingerprint is `fp` with
    /// `cert`.  Fails if no record has that fingerprint, leaving storage
    /// unchanged.
    #[verifier::loop_isolation(false)]
    pub fn cert_update(&mut self, fp: &str, cert: &PgpCert) -> (r: Result<(), CaError>)
        requires
            old(self).wf(),
        ensures
            final(self).wf(),
            !certs_have_fp(old(self).certs.deep_view(), fp@)
                ==> r is Err && *final(self) == *old(self),
            certs_have_fp(old(self).certs.deep_view(), fp@) ==> {
                &&& r == Ok::<(), CaError>(())
                &&& final(self).certs.deep_view() == old(self).certs.deep_view().update(
                    cert_index_of(old(self).certs.deep_view(), fp@),
                    CertRecordV {
                        cert: cert@,
                        ..old(self).certs.deep_view()[cert_index_of(
                            old(self).certs.deep_view(),
                            fp@,
                        )]
                    },
                )
                &&& final(self).ca == old(self).ca
                &&& final(self).users == old(self).users
                &&& final(self).emails == old(self).emails
                &&& final(self).revocations == old(self).revocations
                &&& final(self).bridges == old(self).bridges
                &&& final(self).queue == old(self).queue
                &&& final(self).next_id == old(self).next_id
            },
    {
        let n = self.certs.len();
        for i in 0..n
            invariant
                *self == *old(self),
                forall|j: int| 0 <= j < i ==> self.certs.deep_view()[j].fingerprint != fp@,
        {
            if str_eq(self.certs[i].fingerprint.as_str(), fp) {
                let ghost pre = self.certs.deep_view();
                let mut rec = self.certs.remove(i);
                rec.cert = copy_pgp_cert(cert);
                self.certs.insert(i, rec);
                proof {
                    let k = cert_index_of(pre, fp@);
                    assert(pre[i as int].fingerprint == fp@);
                    assert(forall|a: int, b: int| 0 <= a < b < pre.len()
                        ==> pre[a].fingerprint != pre[b].fingerprint);
                    assert(k == i as int);
                    assert(self.certs.deep_view() =~= pre.update(
                        i as int,
                        CertRecordV { cert: cert@, ..pre[i as int] },
                    ));
                }
                return Ok(());
            }
        }
        assert(!certs_have_fp(self.certs.deep_view(), fp@));
        Err(CaError::UnknownFingerprint { fingerprint: fp.to_owned() })
    }

    /// Sets the delist flag of the certificate with fingerprint `fp`:
    /// the certificate stays stored but is left out of exports.
    #[verifier::loop_isolation(false)]
    pub fn cert_delist(&mut self, fp: &str) -> (r: Result<(), CaError>)
        requires
            old(self).wf(),
        ensures
            final(self).wf(),
            !certs_have_fp(old(self).certs.deep_view(), fp@)
                ==> r is Err && *final(self) == *old(self),
            certs_have_fp(old(self).certs.deep_view(), fp@) ==> {
                &&& r == Ok::<(), CaError>(())
                &&& final(self).certs.deep_view() == old(self).certs.deep_view().update(
                    cert_index_of(old(self).certs.deep_view(), fp@),
                    CertRecordV {
                        delisted: true,
                        ..old(self).certs.deep_view()[cert_index_of(
                            old(self).certs.deep_view(),
                            fp@,
                        )]
                    },
                )
                &&& final(self).ca == old(self).ca
                &&& final(self).users == old(self).users
                &&& final(self).emails == old(self).emails
                &&& final(self).revocations == old(self).revocations
                &&& final(self).bridges == old(self).bridges
                &&& final(self).queue == old(self).queue
                &&& final(self).next_id == old(self).next_id
            },
    {
        let n = self.certs.len();
        for i in 0..n
            invariant
                *self == *old(self),
                forall|j: int| 0 <= j < i ==> self.certs.deep_view()[j].fingerprint != fp@,
        {
            if str_eq(self.certs[i].fingerprint.as_str(), fp) {
                let ghost pre = self.certs.deep_view();
                let mut rec = self.certs.remove(i);
                rec.delisted = true;
                self.certs.insert(i, rec);
                proof {
                    let k = cert_index_of(pre, fp@);
                    assert(pre[i as int].fingerprint == fp@);
                    assert(k == i as int);
                    assert(self.certs.deep_view() =~= pre.update(
                        i as int,
                        CertRecordV { delisted: true, ..pre[i as int] },
                    ));
                }
                return Ok(());
            }
        }
        assert(!certs_have_fp(self.certs.deep_view(), fp@));
        Err(CaError::UnknownFingerprint { fingerprint: fp.to_owned() })
    }

    /// Sets the deactivate flag of the certificate with fingerprint `fp`.
    #[verifier::loop_isolation(false)]
    pub fn cert_deactivate(&mut self, fp: &str) -> (r: Result<(), CaError>)
        requires
            old(self).wf(),
        ensures
            final(self).wf(),
            !certs_have_fp(old(self).certs.deep_view(), fp@)
                ==> r is Err && *final(self) == *old(self),
            certs_have_fp(old(self).certs.deep_view(), fp@) ==> {
                &&& r == Ok::<(), CaError>(())
                &&& final(self).certs.deep_view() == old(self).certs.deep_view().update(
                    cert_index_of(old(self).certs.deep_view(), fp@),
                    CertRecordV {
                        deactivated: true,
                        ..old(self).certs.deep_view()[cert_index_of(
                            old(self).certs.deep_view(),
                            fp@,
                        )]
                    },
                )
                &&& final(self).ca == old(self).ca
                &&& final(self).users == old(self).users
                &&& final(self).emails == old(self).emails
                &&& final(self).revocations == old(self).revocations
                &&& final(self).bridges == old(self).bridges
                &&& final(self).queue == old(self).queue
                &&& final(self).next_id == old(self).next_id
            },
    {
        let n = self.certs.len();
        for i in 0..n
            invariant
                *self == *old(self),
                forall|j: int| 0 <= j < i ==> self.certs.deep_view()[j].fingerprint != fp@,
        {
            if str_eq(self.certs[i].fingerprint.as_str(), fp) {
                let ghost pre = self.certs.deep_view();
                let mut rec = self.certs.remove(i);
                rec.deactivated = true;
                self.certs.insert(i, rec);
                proof {
                    let k = cert_index_of(pre, fp@);
                    assert(pre[i as int].fingerprint == fp@);
                    assert(k == i as int);
                    assert(self.certs.deep_view() =~= pre.update(
                        i as int,
                        CertRecordV { deactivated: true, ..pre[i as int] },
                    ));
                }
                return Ok(());
            }
        }
        assert(!certs_have_fp(self.certs.deep_view(), fp@));
        Err(CaError::UnknownFingerprint { fingerprint: fp.to_owned() })
    }

    /// All stored certificates.
    pub fn certs(&self) -> (r: &Vec<CertRecord>)
        ensures
            r == &self.certs,
    {
        &self.certs
    }

    /// Whether a certificate record view is linked to `email` through the
    /// email table.
    pub open spec fn cert_has_email(&self, c: CertRecordV, email: Seq<char>) -> bool {
        exists|i: int|
            0 <= i < self.emails.deep_view().len()
                && self.emails.deep_view()[i].addr == email
                && self.emails.deep_view()[i].cert_id == c.id
    }

    /// All email addresses.
    pub fn emails(&self) -> (r: &Vec<CertEmail>)
        ensures
            r == &self.emails,
    {
        &self.emails
    }

    /// The email addresses linked to the certificate with identity
    /// `cert_id`, in table order.
    #[verifier::loop_isolation(false)]
    pub fn emails_by_cert(&self, cert_id: u64) -> (r: Vec<CertEmail>)
        ensures
            r.deep_view() == self.emails.deep_view().filter(
                |e: CertEmailV| e.cert_id == cert_id,
            ),
    {
        let mut r: Vec<CertEmail> = Vec::new();
        let n = self.emails.len();
        proof {
            assert(self.emails.deep_view().take(0).filter(|e: CertEmailV| e.cert_id == cert_id)
                =~= Seq::<CertEmailV>::empty());
        }
        for i in 0..n
            invariant
                r.deep_view() =~= self.emails.deep_view().take(i as int).filter(
                    |e: CertEmailV| e.cert_id == cert_id,
                ),
        {
            proof {
                reveal_with_fuel(Seq::filter, 2);
                assert(self.emails.deep_view().take(i + 1).drop_last()
                    =~= self.emails.deep_view().take(i as int));
                assert(self.emails.deep_view().take(i + 1).last()
                    == self.emails.deep_view()[i as int]);
            }
            if self.emails[i].cert_id == cert_id {
                let e = CertEmail { addr: self.emails[i].addr.clone(), cert_id };
                assert(e@ =~= self.emails.deep_view()[i as int]);
                r.push(e);
            }
        }
        proof {
            assert(self.emails.deep_view().take(n as int) =~= self.emails.deep_view());
        }
        r
    }

    /// The stored certificates linked to `email`, in table order.
    #[verifier::loop_isolation(false)]
    pub fn certs_by_email(&self, email: &str) -> (r: Vec<CertRecord>)
        ensures
            r.deep_view() == self.certs.deep_view().filter(
                |c: CertRecordV| self.cert_has_email(c, email@),
            ),
    {
        let mut r: Vec<CertRecord> = Vec::new();
        let n = self.certs.len();
        proof {
            assert(self.certs.deep_view().take(0).filter(
                |c: CertRecordV| self.cert_has_email(c, email@),
            ) =~= Seq::<CertRecordV>::empty());
        }
        for i in 0..n
            invariant
                r.deep_view() =~= self.certs.deep_view().take(i as int).filter(
                    |c: CertRecordV| self.cert_has_email(c, email@),
                ),
        {
            proof {
                reveal_with_fuel(Seq::filter, 2);
                assert(self.certs.deep_view().take(i + 1).drop_last()
                    =~= self.certs.deep_view().take(i as int));
                assert(self.certs.deep_view().take(i + 1).last()
                    == self.certs.deep_view()[i as int]);
            }
            let mut linked = false;
            let m = self.emails.len();
            for j in 0..m
                invariant
                    linked == exists|k: int|
                        0 <= k < j && self.emails.deep_view()[k].addr == email@
                            && self.emails.deep_view()[k].cert_id
                            == self.certs.deep_view()[i as int].id,
            {
                if str_eq(self.emails[j].addr.as_str(), email) && self.emails[j].cert_id
                    == self.certs[i].id {
                    assert(self.emails.deep_view()[j as int].addr == email@);
                    linked = true;
                }
            }
            assert(linked == self.cert_has_email(self.certs.deep_view()[i as int], email@));
            if linked {
                r.push(copy_cert_record(&self.certs[i]));
            }
        }
        proof {
            assert(self.certs.deep_view().take(n as int) =~= self.certs.deep_view());
        }
        r
    }

    /// The stored certificates owned by user `user_id`, in table order.
    #[verifier::loop_isolation(false)]
    pub fn certs_by_user(&self, user_id: u64) -> (r: Vec<CertRecord>)
        ensures
            r.deep_view() == self.certs.deep_view().filter(
                |c: CertRecordV| c.user_id == Some(user_id),
            ),
    {
        let mut r: Vec<CertRecord> = Vec::new();
        let n = self.certs.len();
        proof {
            assert(self.certs.deep_view().take(0).filter(
                |c: CertRecordV| c.user_id == Some(user_id),
            ) =~= Seq::<CertRecordV>::empty());
        }
        for i in 0..n
            invariant
                r.deep_view() =~= self.certs.deep_view().take(i as int).filter(
                    |c: CertRecordV| c.user_id == Some(user_id),
                ),
        {
            proof {
                reveal_with_fuel(Seq::filter, 2);
                assert(self.certs.deep_view().take(i + 1).drop_last()
                    =~= self.certs.deep_view().take(i as int));
                assert(self.certs.deep_view().take(i + 1).last()
                    == self.certs.deep_view()[i as int]);
            }
            let hit = match self.certs[i].user_id {
                Some(u) => u == user_id,
                None => false,
            };
            if hit {
                r.push(copy_cert_record(&self.certs[i]));
            }
        }
        proof {
            assert(self.certs.deep_view().take(n as int) =~= self.certs.deep_view());
        }
        r
    }

    /// All users, in creation order.
    pub fn users(&self) -> (r: &Vec<UserRecord>)
        ensures
            r == &self.users,
    {
        &self.users
    }

    /// The user owning the given certificate record, if any.
    #[verifier::loop_isolation(false)]
    pub fn user_by_cert(&self, cert: &CertRecord) -> (r: Option<&UserRecord>)
        ensures
            match r {
                Some(u) => cert@.user_id == Some(u@.id)
                    && self.users.deep_view().contains(u@),
                None => cert@.user_id is None || forall|i: int|
                    0 <= i < self.users.deep_view().len()
                        ==> Some(self.users.deep_view()[i].id) != cert@.user_id,
            },
    {
        let uid = match cert.user_id {
            None => {
                return None;
            },
            Some(u) => u,
        };
        let n = self.users.len();
        for i in 0..n
            invariant
                forall|j: int| 0 <= j < i ==> self.users.deep_view()[j].id != uid,
        {
            if self.users[i].id == uid {
                assert(self.users.deep_view()[i as int].id == uid);
                assert(self.users.deep_view().contains(self.users.deep_view()[i as int]));
                return Some(&self.users[i]);
            }
        }
        None
    }

    /// The revocation records that `user_add` creates: one per supplied
    /// `(hash, signature)` pair, with identities following the user's and
    /// the certificate's.
    pub open spec fn user_revocation_records(
        uid: u64,
        cid: u64,
        revocs: Seq<(Seq<char>, RevocationSigV)>,
        k: nat,
    ) -> Seq<RevocationRecordV> {
        Seq::new(k, |i: int|
            RevocationRecordV {
                id: (uid + 2 + i) as u64,
                hash: revocs[i].0,
                revocation: revocs[i].1,
                published: false,
                cert_id: cid,
            })
    }

    /// Creates a user with an initial certificate, its emails and its
    /// revocations, in one step.  Nothing is changed on failure.
    #[verifier::loop_isolation(false)]
    pub fn user_add(
        &mut self,
        name: Option<String>,
        fingerprint: &str,
        cert: PgpCert,
        addrs: &Vec<String>,
        revocs: Vec<(String, RevocationSig)>,
    ) -> (r: Result<u64, CaError>)
        requires
            old(self).wf(),
        ensures
            final(self).wf(),
            r is Err ==> *final(self) == *old(self),
            certs_have_fp(old(self).certs.deep_view(), fingerprint@) ==> r is Err,
            (!certs_have_fp(old(self).certs.deep_view(), fingerprint@)
                && old(self).next_id < u64::MAX - 2
                && revocs.deep_view().len() < u64::MAX - 2 - old(self).next_id) ==> r is Ok,
            r is Ok ==> {
                let uid = old(self).next_id;
                let cid = (uid + 1) as u64;
                &&& !certs_have_fp(old(self).certs.deep_view(), fingerprint@)
                &&& r == Ok::<u64, CaError>(uid)
                &&& final(self).users.deep_view() == old(self).users.deep_view().push(
                    UserRecordV { id: uid, name: opt_view(name) },
                )
                &&& final(self).certs.deep_view() == old(self).certs.deep_view().push(
                    CertRecordV {
                        id: cid,
                        fingerprint: fingerprint@,
                        cert: cert@,
                        user_id: Some(uid),
                        delisted: false,
                        deactivated: false,
                    },
                )
                &&& final(self).emails.deep_view() == old(self).emails.deep_view()
                    + addrs.deep_view().map_values(
                    |a: Seq<char>| CertEmailV { addr: a, cert_id: cid },
                )
                &&& final(self).revocations.deep_view() == old(self).revocations.deep_view()
                    + Self::user_revocation_records(
                    uid,
                    cid,
                    revocs.deep_view(),
                    revocs.deep_view().len(),
                )
                &&& final(self).ca == old(self).ca
                &&& final(self).bridges == old(self).bridges
                &&& final(self).queue == old(self).queue
            },
    {
        if self.cert_by_fp(fingerprint).is_some() {
            return Err(CaError::BadInput);
        }
        if self.next_id >= u64::MAX - 2 || revocs.len() as u64 >= u64::MAX - 2 - self.next_id {
            return Err(CaError::StorageFull);
        }
        let uid = self.next_id;
        let cid = uid + 1;
        self.users.push(UserRecord { id: uid, name });
        self.certs.push(
            CertRecord {
                id: cid,
                fingerprint: fingerprint.to_owned(),
                cert,
                user_id: Some(uid),
                delisted: false,
                deactivated: false,
            },
        );
        proof {
            assert(self.users.deep_view() =~= old(self).users.deep_view().push(
                UserRecordV { id: uid, name: opt_view(name) },
            ));
            assert(self.certs.deep_view() =~= old(self).certs.deep_view().push(
                CertRecordV {
                    id: cid,
                    fingerprint: fingerprint@,
                    cert: cert@,
                    user_id: Some(uid),
                    delisted: false,
                    deactivated: false,
                },
            ));
        }
        let ghost users1 = self.users;
        let ghost certs1 = self.certs;
        let ghost emails0 = self.emails.deep_view();
        let ghost ne = self.emails.len() as int;
        let na = addrs.len();
        for i in 0..na
            invariant
                self.users == users1,
                self.certs == certs1,
                self.revocations == old(self).revocations,
                self.ca == old(self).ca,
                self.bridges == old(self).bridges,
                self.queue == old(self).queue,
                self.next_id == old(self).next_id,
                self.emails@.len() == ne + i,
                forall|j: int| 0 <= j < ne ==> self.emails.deep_view()[j] == emails0[j],
                forall|j: int| 0 <= j < i
                    ==> self.emails.deep_view()[ne + j] == (CertEmailV {
                        addr: addrs.deep_view()[j],
                        cert_id: cid,
                    }),
        {
            self.emails.push(CertEmail { addr: addrs[i].clone(), cert_id: cid });
        }
        proof {
            assert(self.emails.deep_view() =~= emails0 + addrs.deep_view().map_values(
                |a: Seq<char>| CertEmailV { addr: a, cert_id: cid },
            ));
        }
        let ghost emails1 = self.emails;
        let ghost revs0 = self.revocations.deep_view();
        let revocs = revocs;
        let nr = revocs.len();
        let ghost revocs_v = revocs.deep_view();
        let mut k: usize = 0;
        while k < nr
            invariant
                k <= nr,
                nr == revocs.len(),
                revocs.deep_view() == revocs_v,
                self.users == users1,
                self.certs == certs1,
                self.emails == emails1,
                self.ca == old(self).ca,
                self.bridges == old(self).bridges,
                self.queue == old(self).queue,
                self.next_id == old(self).next_id,
                self.revocations.deep_view() =~= revs0 + Self::user_revocation_records(
                    uid,
                    cid,
                    revocs_v,
                    k as nat,
                ),
            decreases nr - k,
        {
            let pair = &revocs[k];
            let rec = RevocationRecord {
                id: uid + 2 + (k as u64),
                hash: pair.0.clone(),
                revocation: copy_revocation_sig(&pair.1),
                published: false,
                cert_id: cid,
            };
            proof {
                assert(revocs_v[k as int] == revocs@[k as int].deep_view());
                assert(rec@ =~= Self::user_revocation_records(
                    uid,
                    cid,
                    revocs_v,
                    (k + 1) as nat,
                )[k as int]);
            }
            let ghost pre = self.revocations;
            self.revocations.push(rec);
            proof {
                let ghost target = revs0 + Self::user_revocation_records(
                    uid,
                    cid,
                    revocs_v,
                    (k + 1) as nat,
                );
                assert(pre.deep_view() == revs0 + Self::user_revocation_records(
                    uid,
                    cid,
                    revocs_v,
                    k as nat,
                ));
                assert(self.revocations@ == pre@.push(rec));
                assert(self.revocations.deep_view().len() == revs0.len() + k + 1);
                assert(target.len() == revs0.len() + k + 1);
                assert forall|i: int| 0 <= i < revs0.len() + k + 1
                    implies #[trigger] self.revocations.deep_view()[i] == target[i] by {
                    if i < pre@.len() {
                        assert(self.revocations@[i] == pre@[i]);
                        assert(self.revocations.deep_view()[i] == pre.deep_view()[i]);
                        assert(pre.deep_view()[i] == (revs0 + Self::user_revocation_records(
                            uid,
                            cid,
                            revocs_v,
                            k as nat,
                        ))[i]);
                        if i >= revs0.len() {
                            assert((revs0 + Self::user_revocation_records(
                                uid,
                                cid,
                                revocs_v,
                                k as nat,
                            ))[i] == Self::user_revocation_records(
                                uid,
                                cid,
                                revocs_v,
                                k as nat,
                            )[i - revs0.len()]);
                            assert(Self::user_revocation_records(
                                uid,
                                cid,
                                revocs_v,
                                k as nat,
                            )[i - revs0.len()] == Self::user_revocation_records(
                                uid,
                                cid,
                                revocs_v,
                                (k + 1) as nat,
                            )[i - revs0.len()]);
                        }
                    } else {
                        assert(self.revocations.deep_view()[i] == rec@);
                        assert(target[i] == Self::user_revocation_records(
                            uid,
                            cid,
                            revocs_v,
                            (k + 1) as nat,
                        )[k as int]);
                    }
                }
                assert(self.revocations.deep_view() =~= target);
            }
            k = k + 1;
        }
        self.next_id = uid + 2 + (nr as u64);
        proof {
            let rvf = self.revocations.deep_view();
            assert forall|i: int, j: int| 0 <= i < j < rvf.len() implies rvf[i].id
                != rvf[j].id by {
                if i < revs0.len() {
                    assert(rvf[i] == revs0[i]);
                    assert(rvf[i].id < uid);
                }
                if j < revs0.len() {
                    assert(rvf[j] == revs0[j]);
                    assert(rvf[j].id < uid);
                }
            }
            assert forall|i: int| 0 <= i < rvf.len() implies rvf[i].id < self.next_id by {
                if i < revs0.len() {
                    assert(rvf[i] == revs0[i]);
                }
            }
        }
        Ok(uid)
    }

    /// Whether a revocation with this signature is already stored.
    #[verifier::loop_isolation(false)]
    pub fn revocation_exists(&self, sig: &RevocationSig) -> (r: bool)
        ensures
            r == exists|i: int|
                0 <= i < self.revocations.deep_view().len()
                    && self.revocations.deep_view()[i].revocation == sig@,
    {
        let n = self.revocations.len();
        for i in 0..n
            invariant
                forall|j: int| 0 <= j < i
                    ==> self.revocations.deep_view()[j].revocation != sig@,
        {
            if crate::model::revocation_sig_eq(&self.revocations[i].revocation, sig) {
                assert(self.revocations.deep_view()[i as int].revocation == sig@);
                return true;
            }
        }
        false
    }

    /// Stores a revocation under its content hash, not yet published.
    pub fn revocation_add(&mut self, hash: &str, sig: RevocationSig, cert_id: u64) -> (r:
        Result<u64, CaError>)
        requires
            old(self).wf(),
        ensures
            final(self).wf(),
            r is Err ==> *final(self) == *old(self),
            old(self).next_id == u64::MAX ==> r is Err,
            old(self).next_id < u64::MAX ==> {
                &&& r == Ok::<u64, CaError>(old(self).next_id)
                &&& final(self).revocations.deep_view()
                    == old(self).revocations.deep_view().push(
                    RevocationRecordV {
                        id: old(self).next_id,
                        hash: hash@,
                        revocation: sig@,
                        published: false,
                        cert_id,
                    },
                )
                &&& final(self).ca == old(self).ca
                &&& final(self).certs == old(self).certs
                &&& final(self).users == old(self).users
                &&& final(self).emails == old(self).emails
                &&& final(self).bridges == old(self).bridges
                &&& final(self).queue == old(self).queue
                &&& final(self).next_id == old(self).next_id + 1
            },
    {
        if self.next_id == u64::MAX {
            return Err(CaError::StorageFull);
        }
        let id = self.next_id;
        self.revocations.push(
            RevocationRecord { id, hash: hash.to_owned(), revocation: sig, published: false,
                cert_id },
        );
        self.next_id = id + 1;
        proof {
            assert(self.revocations.deep_view() =~= old(self).revocations.deep_view().push(
                RevocationRecordV {
                    id,
                    hash: hash@,
                    revocation: sig@,
                    published: false,
                    cert_id,
                },
            ));
        }
        Ok(id)
    }

    /// The stored revocations for the certificate with identity `cert_id`,
    /// in table order.
    #[verifier::loop_isolation(false)]
    pub fn revocations_by_cert(&self, cert_id: u64) -> (r: Vec<RevocationRecord>)
        ensures
            r.deep_view() == self.revocations.deep_view().filter(
                |v: RevocationRecordV| v.cert_id == cert_id,
            ),
    {
        let mut r: Vec<RevocationRecord> = Vec::new();
        let n = self.revocations.len();
        proof {
            assert(self.revocations.deep_view().take(0).filter(
                |v: RevocationRecordV| v.cert_id == cert_id,
            ) =~= Seq::<RevocationRecordV>::empty());
        }
        for i in 0..n
            invariant
                r.deep_view() =~= self.revocations.deep_view().take(i as int).filter(
                    |v: RevocationRecordV| v.cert_id == cert_id,
                ),
        {
            proof {
                reveal_with_fuel(Seq::filter, 2);
                assert(self.revocations.deep_view().take(i + 1).drop_last()
                    =~= self.revocations.deep_view().take(i as int));
                assert(self.revocations.deep_view().take(i + 1).last()
                    == self.revocations.deep_view()[i as int]);
            }
            if self.revocations[i].cert_id == cert_id {
                r.push(copy_revocation_record(&self.revocations[i]));
            }
        }
        proof {
            assert(self.revocations.deep_view().take(n as int) =~= self.revocations.deep_view());
        }
        r
    }

    /// The stored revocation with content hash `hash`, if any.
    #[verifier::loop_isolation(false)]
    pub fn revocation_by_hash(&self, hash: &str) -> (r: Option<&RevocationRecord>)
        ensures
            match r {
                Some(v) => v@.hash == hash@ && self.revocations.deep_view().contains(v@),
                None => forall|i: int|
                    0 <= i < self.revocations.deep_view().len()
                        ==> self.revocations.deep_view()[i].hash != hash@,
            },
    {
        let n = self.revocations.len();
        for i in 0..n
            invariant
                forall|j: int| 0 <= j < i ==> self.revocations.deep_view()[j].hash != hash@,
        {
            if str_eq(self.revocations[i].hash.as_str(), hash) {
                assert(self.revocations.deep_view()[i as int].hash == hash@);
                assert(self.revocations.deep_view().contains(
                    self.revocations.deep_view()[i as int],
                ));
                return Some(&self.revocations[i]);
            }
        }
        None
    }

    /// Applies the stored revocation with identity `rev_id`: merges its
    /// signature into the certificate it references and marks it
    /// published, in one step.  Nothing is changed on failure.
    #[verifier::loop_isolation(false)]
    pub fn revocation_apply(&mut self, rev_id: u64) -> (r: Result<(), CaError>)
        requires
            old(self).wf(),
        ensures
            final(self).wf(),
            r is Err ==> *final(self) == *old(self),
            (exists|ri: int|
                0 <= ri < old(self).revocations.deep_view().len()
                    && (#[trigger] old(self).revocations.deep_view()[ri]).id == rev_id
                    && exists|ci: int|
                    0 <= ci < old(self).certs.deep_view().len()
                        && (#[trigger] old(self).certs.deep_view()[ci]).id
                        == old(self).revocations.deep_view()[ri].cert_id) ==> r is Ok,
            r is Ok ==> exists|ri: int, ci: int|
                #![trigger old(self).revocations.deep_view()[ri], old(self).certs.deep_view()[ci]]
            {
                let rv = old(self).revocations.deep_view();
                let cv = old(self).certs.deep_view();
                &&& 0 <= ri < rv.len()
                &&& rv[ri].id == rev_id
                &&& 0 <= ci < cv.len()
                &&& cv[ci].id == rv[ri].cert_id
                &&& final(self).revocations.deep_view() == rv.update(
                    ri,
                    RevocationRecordV { published: true, ..rv[ri] },
                )
                &&& final(self).certs.deep_view() == cv.update(
                    ci,
                    CertRecordV {
                        cert: PgpCertV {
                            revocations: crate::model::merge_seq(
                                cv[ci].cert.revocations,
                                seq![rv[ri].revocation],
                            ),
                            ..cv[ci].cert
                        },
                        ..cv[ci]
                    },
                )
                &&& final(self).ca == old(self).ca
                &&& final(self).users == old(self).users
                &&& final(self).emails == old(self).emails
                &&& final(self).bridges == old(self).bridges
                &&& final(self).queue == old(self).queue
                &&& final(self).next_id == old(self).next_id
            },
    {
        let n = self.revocations.len();
        let mut ri: usize = 0;
        while ri < n
            invariant
                ri <= n,
                *self == *old(self),
                forall|j: int| 0 <= j < ri ==> self.revocations.deep_view()[j].id != rev_id,
            decreases n - ri,
        {
            if self.revocations[ri].id == rev_id {
                let cert_id = self.revocations[ri].cert_id;
                let m = self.certs.len();
                let mut ci: usize = 0;
                while ci < m
                    invariant
                        ci <= m,
                        *self == *old(self),
                        0 <= ri < self.revocations.deep_view().len(),
                        self.revocations.deep_view()[ri as int].id == rev_id,
                        cert_id == self.revocations.deep_view()[ri as int].cert_id,
                        forall|j: int| 0 <= j < ci ==> self.certs.deep_view()[j].id != cert_id,
                    decreases m - ci,
                {
                    if self.certs[ci].id == cert_id {
                        let ghost rv = self.revocations.deep_view();
                        let ghost cv = self.certs.deep_view();
                        let sig = copy_revocation_sig(&self.revocations[ri].revocation);
                        let ghost have = cv[ci as int].cert.revocations;
                        let ghost s1 = seq![rv[ri as int].revocation];
                        proof {
                            assert(s1.skip(1) =~= Seq::<RevocationSigV>::empty());
                            assert(crate::model::merge_seq(have, s1.skip(1)) == have);
                            assert(crate::model::merge_seq(have.push(s1[0]), s1.skip(1))
                                == have.push(s1[0]));
                            assert(crate::model::merge_seq(have, s1)
                                == if have.contains(s1[0]) { have } else { have.push(s1[0]) });
                        }
                        let mut crec = self.certs.remove(ci);
                        assert(crec.cert.revocations.deep_view() == have);
                        let already = crate::storage::revs_contain(&crec.cert.revocations, &sig);
                        if !already {
                            crec.cert.revocations.push(sig);
                            assert(crec.cert.revocations.deep_view() =~= have.push(s1[0]));
                        }
                        assert(crec.cert.revocations.deep_view() == crate::model::merge_seq(
                            have,
                            s1,
                        ));
                        assert(crec@ =~= (CertRecordV {
                            cert: PgpCertV {
                                revocations: crate::model::merge_seq(have, s1),
                                ..cv[ci as int].cert
                            },
                            ..cv[ci as int]
                        }));
                        self.certs.insert(ci, crec);
                        let mut rrec = self.revocations.remove(ri);
                        rrec.published = true;
                        self.revocations.insert(ri, rrec);
                        proof {
                            assert(self.revocations.deep_view() =~= rv.update(
                                ri as int,
                                RevocationRecordV { published: true, ..rv[ri as int] },
                            ));
                            assert(self.certs.deep_view() =~= cv.update(
                                ci as int,
                                CertRecordV {
                                    cert: PgpCertV {
                                        revocations: crate::model::merge_seq(have, s1),
                                        ..cv[ci as int].cert
                                    },
                                    ..cv[ci as int]
                                },
                            ));
                        }
                        return Ok(());
                    }
                    ci = ci + 1;
                }
                proof {
                    let rv = self.revocations.deep_view();
                    let cv = self.certs.deep_view();
                    assert forall|rj: int|
                        0 <= rj < rv.len() && (#[trigger] rv[rj]).id == rev_id
                        implies !(exists|cj: int|
                        0 <= cj < cv.len() && (#[trigger] cv[cj]).id == rv[rj].cert_id) by {
                        assert(rj == ri as int);
                        if exists|cj: int|
                            0 <= cj < cv.len() && (#[trigger] cv[cj]).id == rv[rj].cert_id {
                            let cj = choose|cj: int|
                                0 <= cj < cv.len() && (#[trigger] cv[cj]).id == rv[rj].cert_id;
                        }
                    }
                }
                return Err(CaError::NotFound);
            }
            ri = ri + 1;
        }
        proof {
            assert(forall|rj: int|
                0 <= rj < self.revocations.deep_view().len()
                    ==> (#[trigger] self.revocations.deep_view()[rj]).id != rev_id);
        }
        Err(CaError::NotFound)
    }

    /// Records a bridge to a remote CA.
    pub fn bridge_insert(&mut self, email: &str, scope: &str, cert_id: u64) -> (r:
        Result<u64, CaError>)
        requires
            old(self).wf(),
        ensures
            final(self).wf(),
            r is Err ==> *final(self) == *old(self),
            old(self).next_id == u64::MAX ==> r is Err,
            old(self).next_id < u64::MAX ==> {
                &&& r == Ok::<u64, CaError>(old(self).next_id)
                &&& final(self).bridges.deep_view() == old(self).bridges.deep_view().push(
                    BridgeRecordV {
                        id: old(self).next_id,
                        email: email@,
                        scope: scope@,
                        cert_id,
                    },
                )
                &&& final(self).ca == old(self).ca
                &&& final(self).certs == old(self).certs
                &&& final(self).users == old(self).users
                &&& final(self).emails == old(self).emails
                &&& final(self).revocations == old(self).revocations
                &&& final(self).queue == old(self).queue
                &&& final(self).next_id == old(self).next_id + 1
            },
    {
        if self.next_id == u64::MAX {
            return Err(CaError::StorageFull);
        }
        let id = self.next_id;
        self.bridges.push(
            BridgeRecord { id, email: email.to_owned(), scope: scope.to_owned(), cert_id },
        );
        self.next_id = id + 1;
        proof {
            assert(self.bridges.deep_view() =~= old(self).bridges.deep_view().push(
                BridgeRecordV { id, email: email@, scope: scope@, cert_id },
            ));
        }
        Ok(id)
    }

    /// All bridges, in creation order.
    pub fn list_bridges(&self) -> (r: &Vec<BridgeRecord>)
        ensures
            r == &self.bridges,
    {
        &self.bridges
    }

    /// The bridge whose remote email is `email`, if any.
    #[verifier::loop_isolation(false)]
    pub fn bridge_by_email(&self, email: &str) -> (r: Option<&BridgeRecord>)
        ensures
            match r {
                Some(b) => b@.email == email@ && self.bridges.deep_view().contains(b@),
                None => forall|i: int|
                    0 <= i < self.bridges.deep_view().len()
                        ==> self.bridges.deep_view()[i].email != email@,
            },
    {
        let n = self.bridges.len();
        for i in 0..n
            invariant
                forall|j: int| 0 <= j < i ==> self.bridges.deep_view()[j].email != email@,
        {
            if str_eq(self.bridges[i].email.as_str(), email) {
                assert(self.bridges.deep_view()[i as int].email == email@);
                assert(self.bridges.deep_view().contains(self.bridges.deep_view()[i as int]));
                return Some(&self.bridges[i]);
            }
        }
        None
    }

    /// Appends a task to the queue, not done, with a fresh identity.
    pub fn queue_insert(&mut self, created: u64, task: QueueEntry) -> (r: Result<u64, CaError>)
        requires
            old(self).wf(),
        ensures
            final(self).wf(),
            old(self).next_id == u64::MAX ==> r == Err::<u64, CaError>(CaError::StorageFull)
                && *final(self) == *old(self),
            old(self).next_id < u64::MAX ==> {
                &&& r == Ok::<u64, CaError>(old(self).next_id)
                &&& final(self).queue.deep_view() == old(self).queue.deep_view().push(
                    QueueRecordV { id: old(self).next_id, created, task: task@, done: false },
                )
                &&& final(self).ca == old(self).ca
                &&& final(self).certs == old(self).certs
                &&& final(self).users == old(self).users
                &&& final(self).emails == old(self).emails
                &&& final(self).revocations == old(self).revocations
                &&& final(self).bridges == old(self).bridges
                &&& final(self).next_id == old(self).next_id + 1
            },
    {
        if self.next_id == u64::MAX {
            return Err(CaError::StorageFull);
        }
        let id = self.next_id;
        self.queue.push(QueueRecord { id, created, task, done: false });
        self.next_id = id + 1;
        proof {
            assert(self.queue.deep_view() =~= old(self).queue.deep_view().push(
                QueueRecordV { id, created, task: task@, done: false },
            ));
        }
        Ok(id)
    }

    /// The queue entries not yet done, in queue order.
    #[verifier::loop_isolation(false)]
    pub fn queue_not_done(&self) -> (r: Vec<QueueRecord>)
        ensures
            r.deep_view() == self.queue.deep_view().filter(|e: QueueRecordV| !e.done),
    {
        let mut r: Vec<QueueRecord> = Vec::new();
        let n = self.queue.len();
        proof {
            assert(self.queue.deep_view().take(0).filter(|e: QueueRecordV| !e.done)
                =~= Seq::<QueueRecordV>::empty());
        }
        for i in 0..n
            invariant
                r.deep_view() =~= self.queue.deep_view().take(i as int).filter(
                    |e: QueueRecordV| !e.done,
                ),
        {
            proof {
                reveal_with_fuel(Seq::filter, 2);
                assert(self.queue.deep_view().take(i + 1).drop_last()
                    =~= self.queue.deep_view().take(i as int));
                assert(self.queue.deep_view().take(i + 1).last()
                    == self.queue.deep_view()[i as int]);
            }
            if !self.queue[i].done {
                r.push(copy_queue_record(&self.queue[i]));
            }
        }
        proof {
            assert(self.queue.deep_view().take(n as int) =~= self.queue.deep_view());
        }
        r
    }

    /// The queue entry with identity `id`, if any.
    #[verifier::loop_isolation(false)]
    pub fn queue_by_id(&self, id: u64) -> (r: Option<&QueueRecord>)
        ensures
            match r {
                Some(q) => queue_has_id(self.queue.deep_view(), id) && q@.id == id
                    && self.queue.deep_view().contains(q@),
                None => !queue_has_id(self.queue.deep_view(), id),
            },
            self.wf() && r is Some ==> forall|i: int|
                0 <= i < self.queue.deep_view().len() && self.queue.deep_view()[i].id == id
                    ==> r->Some_0@ == self.queue.deep_view()[i],
    {
        let n = self.queue.len();
        for i in 0..n
            invariant
                forall|j: int| 0 <= j < i ==> self.queue.deep_view()[j].id != id,
        {
            if self.queue[i].id == id {
                assert(self.queue.deep_view()[i as int].id == id);
                assert(self.queue.deep_view().contains(self.queue.deep_view()[i as int]));
                return Some(&self.queue[i]);
            }
        }
        None
    }

    /// Marks the queue entry with identity `id` done.  Fails if no entry
    /// has that identity, leaving storage unchanged.
    #[verifier::loop_isolation(false)]
    pub fn queue_mark_done(&mut self, id: u64) -> (r: Result<(), CaError>)
        requires
            old(self).wf(),
        ensures
            final(self).wf(),
            !queue_has_id(old(self).queue.deep_view(), id)
                ==> r == Err::<(), CaError>(CaError::UnknownQueueId { id })
                && *final(self) == *old(self),
            queue_has_id(old(self).queue.deep_view(), id) ==> {
                &&& r == Ok::<(), CaError>(())
                &&& final(self).queue.deep_view() == mark_done(old(self).queue.deep_view(), id)
                &&& final(self).ca == old(self).ca
                &&& final(self).certs == old(self).certs
                &&& final(self).users == old(self).users
                &&& final(self).emails == old(self).emails
                &&& final(self).revocations == old(self).revocations
                &&& final(self).bridges == old(self).bridges
                &&& final(self).next_id == old(self).next_id
            },
    {
        let n = self.queue.len();
        for i in 0..n
            invariant
                *self == *old(self),
                forall|j: int| 0 <= j < i ==> self.queue.deep_view()[j].id != id,
        {
            if self.queue[i].id == id {
                let ghost pre = self.queue.deep_view();
                let mut rec = self.queue.remove(i);
                rec.done = true;
                self.queue.insert(i, rec);
                proof {
                    assert(self.queue.deep_view() =~= mark_done(pre, id)) by {
                        assert(forall|a: int, b: int| 0 <= a < b < pre.len()
                            ==> pre[a].id != pre[b].id);
                        assert(pre[i as int].id == id);
                        assert forall|j: int| 0 <= j < pre.len() implies
                            self.queue.deep_view()[j] == mark_done(pre, id)[j] by {
                            if j != i as int {
                                assert(pre[j].id != id);
                            }
                        }
                    }
                }
                return Ok(());
            }
        }
        assert(!queue_has_id(self.queue.deep_view(), id));
        Err(CaError::UnknownQueueId { id })
    }
}

} // verus!
