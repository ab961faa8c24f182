//! The split protocol: export, certify, import.
//!
//! A split CA keeps its private key on an offline back instance.  The
//! online front instance queues signing tasks; the queue is exported to a
//! request file, the back instance answers it with a response file, and
//! the front imports the responses.  Containers are versioned and carry
//! the CA fingerprint, so a response can neither be applied by the wrong
//! CA nor replayed: an already-done queue entry is counted and skipped.

use vstd::prelude::*;

use crate::codec::certification_v_bounded;
use crate::codec::sig_b64_of;
use crate::codec::sig_from_b64;
use crate::codec::sig_to_b64;
use crate::errors::CaError;
use crate::model::Certification;
use crate::model::CertificationV;
use crate::model::PgpCert;
use crate::model::PgpCertV;
use crate::model::copy_pgp_cert;
use crate::model::copy_string_vec;
use crate::model::merge_certifications;
use crate::model::merge_seq;
use crate::queue::BridgeReq;
use crate::queue::CertificationReq;
use crate::queue::QueueEntry;
use crate::queue::QueueEntryV;
use crate::queue::QueueRecordV;
use crate::secret::new_certifications;
use crate::secret::bridged_cert;
use crate::secret::make_certifications;
use crate::storage::CertRecordV;
use crate::storage::Storage;
use crate::storage::cert_index_of;
use crate::storage::certs_have_fp;
use crate::storage::mark_done;
use crate::storage::queue_has_id;

verus! {

/// Version of the request container format, to be incremented on any
/// incompatible change.
pub const SPLIT_OCA_REQUEST_VERSION: u64 = 1;

/// Version of the response container format, to be incremented on any
/// incompatible change.
pub const SPLIT_OCA_RESPONSE_VERSION: u64 = 1;

/// The request container: exported queue entries for the back instance.
pub struct SplitOcaRequests {
    pub version: u64,
    /// The front CA's fingerprint: a back instance never signs for a
    /// different CA.
    pub ca_fingerprint: String,
    /// Informational export timestamp.
    pub created: u64,
    /// The pending entries: identity, creation time, task.
    pub queue: Vec<(u64, u64, QueueEntry)>,
}

#[verifier::ext_equal]
pub ghost struct SplitOcaRequestsV {
    pub version: u64,
    pub ca_fingerprint: Seq<char>,
    pub created: u64,
    pub queue: Seq<(u64, u64, QueueEntryV)>,
}

impl View for SplitOcaRequests {
    type V = SplitOcaRequestsV;

    open spec fn view(&self) -> SplitOcaRequestsV {
        SplitOcaRequestsV {
            version: self.version,
            ca_fingerprint: self.ca_fingerprint@,
            created: self.created,
            queue: self.queue.deep_view(),
        }
    }
}

/// A certification response: the target fingerprint and the signatures,
/// base64-encoded.
pub struct CertificationResp {
    pub fingerprint: String,
    pub sigs: Vec<String>,
}

#[verifier::ext_equal]
pub ghost struct CertificationRespV {
    pub fingerprint: Seq<char>,
    pub sigs: Seq<Seq<char>>,
}

impl View for CertificationResp {
    type V = CertificationRespV;

    open spec fn view(&self) -> CertificationRespV {
        CertificationRespV { fingerprint: self.fingerprint@, sigs: self.sigs.deep_view() }
    }
}

/// A bridge response: the remote certificate with the trust signatures
/// merged in.
pub struct BridgeResp {
    pub cert: PgpCert,
}

#[verifier::ext_equal]
pub ghost struct BridgeRespV {
    pub cert: PgpCertV,
}

impl View for BridgeResp {
    type V = BridgeRespV;

    open spec fn view(&self) -> BridgeRespV {
        BridgeRespV { cert: self.cert@ }
    }
}

/// One answer of the back instance.
pub enum QueueResponse {
    CertificationResp(CertificationResp),
    BridgeResp(BridgeResp),
}

#[verifier::ext_equal]
pub ghost enum QueueResponseV {
    CertificationResp(CertificationRespV),
    BridgeResp(BridgeRespV),
}

impl View for QueueResponse {
    type V = QueueResponseV;

    open spec fn view(&self) -> QueueResponseV {
        match self {
            QueueResponse::CertificationResp(cr) => QueueResponseV::CertificationResp(cr@),
            QueueResponse::BridgeResp(br) => QueueResponseV::BridgeResp(br@),
        }
    }
}

impl DeepView for QueueResponse {
    type V = QueueResponseV;

    open spec fn deep_view(&self) -> QueueResponseV {
        self.view()
    }
}

/// The response container: answers for the front instance.
pub struct SplitOcaResponse {
    pub version: u64,
    pub ca_fingerprint: String,
    /// Informational timestamp.
    pub created: u64,
    /// The answered entries: identity and response.
    pub queue: Vec<(u64, QueueResponse)>,
}

#[verifier::ext_equal]
pub ghost struct SplitOcaResponseV {
    pub version: u64,
    pub ca_fingerprint: Seq<char>,
    pub created: u64,
    pub queue: Seq<(u64, QueueResponseV)>,
}

impl View for SplitOcaResponse {
    type V = SplitOcaResponseV;

    open spec fn view(&self) -> SplitOcaResponseV {
        SplitOcaResponseV {
            version: self.version,
            ca_fingerprint: self.ca_fingerprint@,
            created: self.created,
            queue: self.queue.deep_view(),
        }
    }
}

/// What an import reported: responses in the file, newly applied, skipped
/// as already done.
#[derive(PartialEq, Eq, Structural, Clone, Copy, Debug)]
pub struct ImportStats {
    pub total: usize,
    pub applied: usize,
    pub skipped: usize,
}

// ---------- export ----------

/// The exported entries: every not-done queue entry, as (id, created,
/// task), in queue order.
pub open spec fn export_entries(queue: Seq<QueueRecordV>) -> Seq<(u64, u64, QueueEntryV)> {
    queue.filter(|e: QueueRecordV| !e.done).map_values(|e: QueueRecordV| (e.id, e.created, e.task))
}

/// Collects the not-done queue entries into a request container for the
/// back instance.  An empty queue yields nothing to export.
#[verifier::loop_isolation(false)]
pub fn export_csr_queue(storage: &Storage, now: u64) -> (r: Result<
    Option<SplitOcaRequests>,
    CaError,
>)
    ensures
        storage.ca is None ==> r == Err::<Option<SplitOcaRequests>, CaError>(
            CaError::NotInitialized,
        ),
        storage.ca is Some && export_entries(storage.queue.deep_view()).len() == 0
            ==> r == Ok::<Option<SplitOcaRequests>, CaError>(None),
        storage.ca is Some && export_entries(storage.queue.deep_view()).len() > 0 ==> r is Ok
            && r->Ok_0 is Some && r->Ok_0->Some_0@ == (SplitOcaRequestsV {
            version: SPLIT_OCA_REQUEST_VERSION,
            ca_fingerprint: storage.ca_v()->Some_0.1.fingerprint,
            created: now,
            queue: export_entries(storage.queue.deep_view()),
        }),
{
    let ca_fp = match storage.get_ca() {
        Ok(p) => p.1.fingerprint.clone(),
        Err(e) => {
            return Err(e);
        },
    };
    let pending = storage.queue_not_done();
    if pending.len() == 0 {
        proof {
            assert(export_entries(storage.queue.deep_view()).len() == pending.deep_view().map_values(
                |e: QueueRecordV| (e.id, e.created, e.task),
            ).len());
        }
        return Ok(None);
    }
    let mut entries: Vec<(u64, u64, QueueEntry)> = Vec::new();
    let n = pending.len();
    for i in 0..n
        invariant
            n == pending.len(),
            entries@.len() == i,
            forall|j: int| 0 <= j < i ==> #[trigger] entries.deep_view()[j] == (
                pending.deep_view()[j].id,
                pending.deep_view()[j].created,
                pending.deep_view()[j].task,
            ),
    {
        let e = &pending[i];
        let ghost pre = entries;
        entries.push((e.id, e.created, crate::queue::copy_queue_entry(&e.task)));
        proof {
            assert(entries@ == pre@.push((e.id, e.created, entries@.last().2)));
            assert forall|l: int| 0 <= l < pre@.len()
                implies #[trigger] entries.deep_view()[l] == pre.deep_view()[l] by {
                assert(entries@[l] == pre@[l]);
            }
            assert(entries.deep_view()[pre@.len() as int] == (
                pending.deep_view()[i as int].id,
                pending.deep_view()[i as int].created,
                pending.deep_view()[i as int].task,
            ));
        }
    }
    let out = SplitOcaRequests {
        version: SPLIT_OCA_REQUEST_VERSION,
        ca_fingerprint: ca_fp,
        created: now,
        queue: entries,
    };
    proof {
        assert(out@.queue =~= export_entries(storage.queue.deep_view()));
        assert(out@ =~= (SplitOcaRequestsV {
            version: SPLIT_OCA_REQUEST_VERSION,
            ca_fingerprint: storage.ca_v()->Some_0.1.fingerprint,
            created: now,
            queue: export_entries(storage.queue.deep_view()),
        }));
    }
    Ok(Some(out))
}

// ---------- front backend: deferred signing ----------

/// Queues a certification request instead of signing: the split-front
/// backend holds no private key.  With no user ids to certify, nothing is
/// queued.  The input certificate always comes back unchanged.
pub fn split_sign_user_ids(
    storage: &mut Storage,
    cert: &PgpCert,
    uids: &Vec<String>,
    days: Option<u64>,
    now: u64,
) -> (r: Result<PgpCert, CaError>)
    requires
        old(storage).wf(),
    ensures
        final(storage).wf(),
        r is Err ==> *final(storage) == *old(storage),
        uids@.len() > 0 && old(storage).next_id == u64::MAX ==> r is Err,
        uids@.len() == 0 ==> r is Ok && *final(storage) == *old(storage)
            && r->Ok_0@ == cert@,
        uids@.len() > 0 && old(storage).next_id < u64::MAX ==> r is Ok && r->Ok_0@ == cert@
            && final(storage).queue.deep_view() == old(storage).queue.deep_view().push(
            QueueRecordV {
                id: old(storage).next_id,
                created: now,
                task: QueueEntryV::CertificationReq(
                    crate::queue::CertificationReqV {
                        cert: cert@,
                        user_ids: uids.deep_view(),
                        days,
                    },
                ),
                done: false,
            },
        ) && final(storage).ca == old(storage).ca
            && final(storage).certs == old(storage).certs
            && final(storage).users == old(storage).users
            && final(storage).emails == old(storage).emails
            && final(storage).revocations == old(storage).revocations
            && final(storage).bridges == old(storage).bridges
            && final(storage).next_id == old(storage).next_id + 1,
{
    if uids.len() == 0 {
        return Ok(copy_pgp_cert(cert));
    }
    let task = QueueEntry::CertificationReq(
        CertificationReq {
            cert: copy_pgp_cert(cert),
            user_ids: copy_string_vec(uids),
            days,
        },
    );
    proof {
        assert(task@ =~= QueueEntryV::CertificationReq(
            crate::queue::CertificationReqV { cert: cert@, user_ids: uids.deep_view(), days },
        ));
    }
    match storage.queue_insert(now, task) {
        Ok(_) => Ok(copy_pgp_cert(cert)),
        Err(e) => Err(e),
    }
}

/// Queues a bridge request instead of signing it.  The remote certificate
/// comes back unchanged, still unsigned.
pub fn split_bridge_to_remote_ca(
    storage: &mut Storage,
    remote_ca: &PgpCert,
    scope_regexes: &Vec<String>,
    now: u64,
) -> (r: Result<PgpCert, CaError>)
    requires
        old(storage).wf(),
    ensures
        final(storage).wf(),
        r is Err ==> *final(storage) == *old(storage),
        old(storage).next_id == u64::MAX ==> r is Err,
        old(storage).next_id < u64::MAX ==> r is Ok && r->Ok_0@ == remote_ca@
            && final(storage).queue.deep_view() == old(storage).queue.deep_view().push(
            QueueRecordV {
                id: old(storage).next_id,
                created: now,
                task: QueueEntryV::BridgeReq(
                    crate::queue::BridgeReqV {
                        cert: remote_ca@,
                        scope_regexes: scope_regexes.deep_view(),
                    },
                ),
                done: false,
            },
        ) && final(storage).ca == old(storage).ca
            && final(storage).certs == old(storage).certs
            && final(storage).users == old(storage).users
            && final(storage).emails == old(storage).emails
            && final(storage).revocations == old(storage).revocations
            && final(storage).bridges == old(storage).bridges
            && final(storage).next_id == old(storage).next_id + 1,
{
    let task = QueueEntry::BridgeReq(
        BridgeReq {
            cert: copy_pgp_cert(remote_ca),
            scope_regexes: copy_string_vec(scope_regexes),
        },
    );
    proof {
        assert(task@ =~= QueueEntryV::BridgeReq(
            crate::queue::BridgeReqV {
                cert: remote_ca@,
                scope_regexes: scope_regexes.deep_view(),
            },
        ));
    }
    match storage.queue_insert(now, task) {
        Ok(_) => Ok(copy_pgp_cert(remote_ca)),
        Err(e) => Err(e),
    }
}

// ---------- certify (back instance) ----------

/// Whether the operator approved entry `i`.
pub open spec fn approved(approvals: Seq<bool>, i: int) -> bool {
    0 <= i < approvals.len() && approvals[i]
}

/// The response to one task.
pub open spec fn response_for(ca: PgpCertV, task: QueueEntryV) -> QueueResponseV {
    match task {
        QueueEntryV::CertificationReq(cr) => QueueResponseV::CertificationResp(
            CertificationRespV {
                fingerprint: cr.cert.fingerprint,
                sigs: new_certifications(ca, cr.cert, cr.user_ids, cr.days).map_values(
                    |c: CertificationV| sig_b64_of(c),
                ),
            },
        ),
        QueueEntryV::BridgeReq(br) => QueueResponseV::BridgeResp(
            BridgeRespV { cert: bridged_cert(ca, br.cert, br.scope_regexes) },
        ),
    }
}

/// The responses for the approved entries, in order, from position `p`.
pub open spec fn response_entries(
    ca: PgpCertV,
    q: Seq<(u64, u64, QueueEntryV)>,
    approvals: Seq<bool>,
    p: int,
) -> Seq<(u64, QueueResponseV)>
    decreases q.len() - p when 0 <= p <= q.len()
{
    if p >= q.len() {
        Seq::empty()
    } else if approved(approvals, p) {
        seq![(q[p].0, response_for(ca, q[p].2))] + response_entries(ca, q, approvals, p + 1)
    } else {
        response_entries(ca, q, approvals, p + 1)
    }
}

/// Whether every approved task can be answered: a bridge request needs a
/// remote certificate with exactly one identity.
pub open spec fn tasks_answerable(q: Seq<(u64, u64, QueueEntryV)>, approvals: Seq<bool>) -> bool {
    forall|i: int| 0 <= i < q.len() && approved(approvals, i) ==> match (#[trigger] q[i]).2 {
        QueueEntryV::BridgeReq(br) => br.cert.userids.len() == 1,
        QueueEntryV::CertificationReq(_) => true,
    }
}

/// Processes a request container against the CA private key.  The
/// container is rejected before any signature is produced if its format
/// version or its CA fingerprint does not match.  Entries the operator
/// declined (`approvals[i]` false) are omitted from the response and stay
/// pending on the front.  In batch mode every entry is approved.
#[verifier::loop_isolation(false)]
pub fn certify(
    ca_cert: &PgpCert,
    reqs: &SplitOcaRequests,
    approvals: &Vec<bool>,
    now: u64,
) -> (r: Result<SplitOcaResponse, CaError>)
    ensures
        reqs@.version != SPLIT_OCA_REQUEST_VERSION ==> r == Err::<SplitOcaResponse, CaError>(
            CaError::VersionMismatch {
                expected: SPLIT_OCA_REQUEST_VERSION,
                actual: reqs.version,
            },
        ),
        reqs@.version == SPLIT_OCA_REQUEST_VERSION && reqs@.ca_fingerprint
            != ca_cert@.fingerprint ==> r is Err && r->Err_0 is FingerprintMismatch,
        reqs@.version == SPLIT_OCA_REQUEST_VERSION && reqs@.ca_fingerprint == ca_cert@.fingerprint
            && ca_cert@.userids.len() == 0 ==> r == Err::<SplitOcaResponse, CaError>(
            CaError::NoCaUserId,
        ),
        (reqs@.version == SPLIT_OCA_REQUEST_VERSION && reqs@.ca_fingerprint
            == ca_cert@.fingerprint && ca_cert@.userids.len() > 0 && tasks_answerable(
            reqs@.queue,
            approvals@,
        )) ==> r is Ok && r->Ok_0@ == (SplitOcaResponseV {
            version: SPLIT_OCA_RESPONSE_VERSION,
            ca_fingerprint: ca_cert@.fingerprint,
            created: now,
            queue: response_entries(ca_cert@, reqs@.queue, approvals@, 0),
        }),
        (reqs@.version == SPLIT_OCA_REQUEST_VERSION && reqs@.ca_fingerprint
            == ca_cert@.fingerprint && ca_cert@.userids.len() > 0 && !tasks_answerable(
            reqs@.queue,
            approvals@,
        )) ==> r == Err::<SplitOcaResponse, CaError>(CaError::WrongIdentityCount),
{
    if reqs.version != SPLIT_OCA_REQUEST_VERSION {
        return Err(
            CaError::VersionMismatch { expected: SPLIT_OCA_REQUEST_VERSION, actual: reqs.version },
        );
    }
    if !(reqs.ca_fingerprint == ca_cert.fingerprint) {
        return Err(
            CaError::FingerprintMismatch {
                expected_fp: ca_cert.fingerprint.clone(),
                actual_fp: reqs.ca_fingerprint.clone(),
            },
        );
    }
    if ca_cert.userids.len() == 0 {
        return Err(CaError::NoCaUserId);
    }
    let mut out: Vec<(u64, QueueResponse)> = Vec::new();
    let n = reqs.queue.len();
    let mut i: usize = 0;
    while i < n
        invariant
            i <= n,
            n == reqs.queue@.len(),
            tasks_answerable(reqs@.queue.take(i as int), approvals@),
            response_entries(ca_cert@, reqs@.queue, approvals@, 0) =~= out.deep_view()
                + response_entries(ca_cert@, reqs@.queue, approvals@, i as int),
        decreases n - i,
    {
        let approve = i < approvals.len() && approvals[i];
        proof {
            assert(approve == approved(approvals@, i as int));
        }
        if approve {
            let entry = &reqs.queue[i];
            let id = entry.0;
            proof {
                assert(reqs@.queue[i as int] == (entry.0, entry.1, entry.2.deep_view()));
            }
            let resp: QueueResponse;
            match &entry.2 {
                QueueEntry::CertificationReq(cr) => {
                    let certs = match make_certifications(ca_cert, &cr.cert, &cr.user_ids, cr.days) {
                        Ok(cs) => cs,
                        Err(e) => {
                            return Err(e);
                        },
                    };
                    let mut sigs: Vec<String> = Vec::new();
                    let m = certs.len();
                    for j in 0..m
                        invariant
                            m == certs@.len(),
                            certs.deep_view() == new_certifications(
                                ca_cert@,
                                cr.cert@,
                                cr.user_ids.deep_view(),
                                cr.days,
                            ),
                            sigs@.len() == j,
                            forall|l: int| 0 <= l < j ==> #[trigger] sigs.deep_view()[l]
                                == sig_b64_of(certs.deep_view()[l]),
                    {
                        let ghost pre = sigs;
                        sigs.push(sig_to_b64(&certs[j]));
                        proof {
                            assert forall|l: int| 0 <= l < pre@.len()
                                implies #[trigger] sigs.deep_view()[l] == pre.deep_view()[l] by {
                                assert(sigs@[l] == pre@[l]);
                            }
                            assert(sigs.deep_view()[pre@.len() as int] == sig_b64_of(
                                certs.deep_view()[j as int],
                            ));
                        }
                    }
                    proof {
                        assert(sigs.deep_view() =~= new_certifications(
                            ca_cert@,
                            cr.cert@,
                            cr.user_ids.deep_view(),
                            cr.days,
                        ).map_values(|c: CertificationV| sig_b64_of(c)));
                    }
                    resp = QueueResponse::CertificationResp(
                        CertificationResp { fingerprint: cr.cert.fingerprint.clone(), sigs },
                    );
                    proof {
                        assert(resp@ =~= response_for(ca_cert@, entry.2@));
                    }
                },
                QueueEntry::BridgeReq(br) => {
                    if br.cert.userids.len() != 1 {
                        proof {
                            assert(reqs@.queue[i as int].2 == entry.2@);
                            assert(!tasks_answerable(reqs@.queue, approvals@));
                        }
                        return Err(CaError::WrongIdentityCount);
                    }
                    let bridged = match crate::secret::bridge_to_remote_ca(
                        ca_cert,
                        &br.cert,
                        &br.scope_regexes,
                    ) {
                        Ok(b) => b,
                        Err(e) => {
                            return Err(e);
                        },
                    };
                    resp = QueueResponse::BridgeResp(BridgeResp { cert: bridged });
                    proof {
                        assert(resp@ =~= response_for(ca_cert@, entry.2@));
                    }
                },
            }
            let ghost pre = out;
            out.push((id, resp));
            proof {
                assert forall|l: int| 0 <= l < pre@.len()
                    implies #[trigger] out.deep_view()[l] == pre.deep_view()[l] by {
                    assert(out@[l] == pre@[l]);
                }
                assert(out.deep_view()[pre@.len() as int] == (
                    reqs@.queue[i as int].0,
                    response_for(ca_cert@, reqs@.queue[i as int].2),
                ));
                assert(response_entries(ca_cert@, reqs@.queue, approvals@, i as int)
                    == seq![(reqs@.queue[i as int].0, response_for(ca_cert@, reqs@.queue[i as int].2))]
                    + response_entries(ca_cert@, reqs@.queue, approvals@, i + 1));
                assert(response_entries(ca_cert@, reqs@.queue, approvals@, 0) =~= out.deep_view()
                    + response_entries(ca_cert@, reqs@.queue, approvals@, i + 1));
                assert(reqs@.queue.take(i + 1).drop_last() =~= reqs@.queue.take(i as int));
                assert(tasks_answerable(reqs@.queue.take(i + 1), approvals@)) by {
                    assert forall|l: int| 0 <= l < i + 1 && approved(approvals@, l)
                        implies match (#[trigger] reqs@.queue.take(i + 1)[l]).2 {
                        QueueEntryV::BridgeReq(br) => br.cert.userids.len() == 1,
                        QueueEntryV::CertificationReq(_) => true,
                    } by {
                        assert(reqs@.queue.take(i + 1)[l] == reqs@.queue[l]);
                        if l < i {
                            assert(reqs@.queue.take(i as int)[l] == reqs@.queue[l]);
                        }
                    }
                }
            }
        } else {
            proof {
                assert(response_entries(ca_cert@, reqs@.queue, approvals@, i as int)
                    == response_entries(ca_cert@, reqs@.queue, approvals@, i + 1));
                assert(tasks_answerable(reqs@.queue.take(i + 1), approvals@)) by {
                    assert forall|l: int| 0 <= l < i + 1 && approved(approvals@, l)
                        implies match (#[trigger] reqs@.queue.take(i + 1)[l]).2 {
                        QueueEntryV::BridgeReq(br) => br.cert.userids.len() == 1,
                        QueueEntryV::CertificationReq(_) => true,
                    } by {
                        assert(reqs@.queue.take(i + 1)[l] == reqs@.queue[l]);
                        if l < i {
                            assert(reqs@.queue.take(i as int)[l] == reqs@.queue[l]);
                        }
                    }
                }
            }
        }
        i = i + 1;
    }
    proof {
        assert(reqs@.queue.take(n as int) =~= reqs@.queue);
        assert(response_entries(ca_cert@, reqs@.queue, approvals@, n as int)
            =~= Seq::<(u64, QueueResponseV)>::empty());
        assert(out.deep_view() =~= response_entries(ca_cert@, reqs@.queue, approvals@, 0));
    }
    let res = SplitOcaResponse {
        version: SPLIT_OCA_RESPONSE_VERSION,
        ca_fingerprint: ca_cert.fingerprint.clone(),
        created: now,
        queue: out,
    };
    proof {
        assert(res@ =~= (SplitOcaResponseV {
            version: SPLIT_OCA_RESPONSE_VERSION,
            ca_fingerprint: ca_cert@.fingerprint,
            created: now,
            queue: response_entries(ca_cert@, reqs@.queue, approvals@, 0),
        }));
    }
    Ok(res)
}

// ---------- import (front instance) ----------

/// A response entry after its signatures have been decoded.
pub ghost enum DecodedResponseV {
    Certification { fingerprint: Seq<char>, certs: Seq<CertificationV> },
    Bridge { cert: PgpCertV },
}

/// Whether a response entry decodes to `d`: a certification response's
/// base64 signatures spell exactly the records of `d`, a bridge response
/// carries its certificate as is.
pub open spec fn resp_decodes_to(q: QueueResponseV, d: DecodedResponseV) -> bool {
    match (q, d) {
        (
            QueueResponseV::CertificationResp(cr),
            DecodedResponseV::Certification { fingerprint, certs },
        ) => {
            &&& fingerprint == cr.fingerprint
            &&& certs.len() == cr.sigs.len()
            &&& forall|k: int| 0 <= k < certs.len() ==> certification_v_bounded(#[trigger] certs[k])
                && cr.sigs[k] == sig_b64_of(certs[k])
        },
        (QueueResponseV::BridgeResp(br), DecodedResponseV::Bridge { cert }) => cert == br.cert,
        _ => false,
    }
}

/// Whether the whole response queue decodes to `des`.
pub open spec fn entries_decode_to(
    q: Seq<(u64, QueueResponseV)>,
    des: Seq<(u64, DecodedResponseV)>,
) -> bool {
    &&& des.len() == q.len()
    &&& forall|i: int| 0 <= i < q.len() ==> (#[trigger] des[i]).0 == q[i].0 && resp_decodes_to(
        q[i].1,
        des[i].1,
    )
}

/// Whether the queue entry with identity `id` is marked done.
pub open spec fn queue_id_done(q: Seq<QueueRecordV>, id: u64) -> bool {
    exists|k: int| 0 <= k < q.len() && (#[trigger] q[k]).id == id && q[k].done
}

/// What importing decoded responses does: entries already done are
/// skipped; an unknown queue id or fingerprint stops the import, leaving
/// earlier entries committed; otherwise the certificate named by the
/// response is updated and the entry marked done, in one step.
pub open spec fn import_trans(
    certs: Seq<CertRecordV>,
    queue: Seq<QueueRecordV>,
    entries: Seq<(u64, DecodedResponseV)>,
    p: int,
    applied: int,
    skipped: int,
) -> (Seq<CertRecordV>, Seq<QueueRecordV>, int, int, bool)
    decreases entries.len() - p when 0 <= p <= entries.len()
{
    if p >= entries.len() {
        (certs, queue, applied, skipped, true)
    } else {
        let id = entries[p].0;
        if !queue_has_id(queue, id) {
            (certs, queue, applied, skipped, false)
        } else if queue_id_done(queue, id) {
            import_trans(certs, queue, entries, p + 1, applied, skipped + 1)
        } else {
            match entries[p].1 {
                DecodedResponseV::Certification { fingerprint, certs: recs } => {
                    if !certs_have_fp(certs, fingerprint) {
                        (certs, queue, applied, skipped, false)
                    } else {
                        let k = cert_index_of(certs, fingerprint);
                        import_trans(
                            certs.update(
                                k,
                                CertRecordV {
                                    cert: PgpCertV {
                                        certifications: merge_seq(
                                            certs[k].cert.certifications,
                                            recs,
                                        ),
                                        ..certs[k].cert
                                    },
                                    ..certs[k]
                                },
                            ),
                            mark_done(queue, id),
                            entries,
                            p + 1,
                            applied + 1,
                            skipped,
                        )
                    }
                },
                DecodedResponseV::Bridge { cert } => {
                    if !certs_have_fp(certs, cert.fingerprint) {
                        (certs, queue, applied, skipped, false)
                    } else {
                        let k = cert_index_of(certs, cert.fingerprint);
                        import_trans(
                            certs.update(k, CertRecordV { cert, ..certs[k] }),
                            mark_done(queue, id),
                            entries,
                            p + 1,
                            applied + 1,
                            skipped,
                        )
                    }
                },
            }
        }
    }
}

/// Applies a response container to the front instance's storage.  The
/// container is rejected on a version or fingerprint mismatch.  Responses
/// whose queue entry is already done are counted and skipped, never
/// reapplied; an unknown queue id, an unknown fingerprint or malformed
/// signature data stops the import at that entry, leaving the entries
/// before it committed.
#[verifier::loop_isolation(false)]
pub fn ca_split_import(storage: &mut Storage, sor: &SplitOcaResponse) -> (r: Result<
    ImportStats,
    CaError,
>)
    requires
        old(storage).wf(),
    ensures
        final(storage).wf(),
        sor@.version != SPLIT_OCA_RESPONSE_VERSION ==> r == Err::<ImportStats, CaError>(
            CaError::VersionMismatch {
                expected: SPLIT_OCA_RESPONSE_VERSION,
                actual: sor.version,
            },
        ) && *final(storage) == *old(storage),
        sor@.version == SPLIT_OCA_RESPONSE_VERSION && old(storage).ca is None
            ==> r == Err::<ImportStats, CaError>(CaError::NotInitialized)
            && *final(storage) == *old(storage),
        sor@.version == SPLIT_OCA_RESPONSE_VERSION && old(storage).ca is Some
            && sor@.ca_fingerprint != old(storage).ca_v()->Some_0.1.fingerprint
            ==> r is Err && r->Err_0 is FingerprintMismatch && *final(storage) == *old(storage),
        final(storage).ca == old(storage).ca,
        final(storage).users == old(storage).users,
        final(storage).emails == old(storage).emails,
        final(storage).revocations == old(storage).revocations,
        final(storage).bridges == old(storage).bridges,
        final(storage).next_id == old(storage).next_id,
        r is Ok ==> r->Ok_0.total == sor.queue@.len()
            && r->Ok_0.applied + r->Ok_0.skipped == r->Ok_0.total
            && forall|i: int| 0 <= i < sor@.queue.len() ==> queue_id_done(
                final(storage).queue.deep_view(),
                (#[trigger] sor@.queue[i]).0,
            ),
        (sor@.version == SPLIT_OCA_RESPONSE_VERSION && old(storage).ca is Some
            && sor@.ca_fingerprint == old(storage).ca_v()->Some_0.1.fingerprint && forall|i: int|
            0 <= i < sor@.queue.len() ==> queue_id_done(
                old(storage).queue.deep_view(),
                (#[trigger] sor@.queue[i]).0,
            )) ==> r == Ok::<ImportStats, CaError>(ImportStats {
            total: sor.queue.len(),
            applied: 0,
            skipped: sor.queue.len(),
        }) && *final(storage) == *old(storage),
        (sor@.version == SPLIT_OCA_RESPONSE_VERSION && old(storage).ca is Some
            && sor@.ca_fingerprint == old(storage).ca_v()->Some_0.1.fingerprint)
            ==> forall|des: Seq<(u64, DecodedResponseV)>| #[trigger] entries_decode_to(
            sor@.queue,
            des,
        ) ==> {
            let o = import_trans(
                old(storage).certs.deep_view(),
                old(storage).queue.deep_view(),
                des,
                0,
                0,
                0,
            );
            &&& final(storage).certs.deep_view() == o.0
            &&& final(storage).queue.deep_view() == o.1
            &&& o.4 ==> r == Ok::<ImportStats, CaError>(ImportStats {
                total: sor.queue.len(),
                applied: o.2 as usize,
                skipped: o.3 as usize,
            })
            &&& !o.4 ==> r is Err
        },
{
    if sor.version != SPLIT_OCA_RESPONSE_VERSION {
        return Err(
            CaError::VersionMismatch {
                expected: SPLIT_OCA_RESPONSE_VERSION,
                actual: sor.version,
            },
        );
    }
    let ca_fp = match storage.get_ca() {
        Ok(p) => p.1.fingerprint.clone(),
        Err(e) => {
            return Err(e);
        },
    };
    if !(sor.ca_fingerprint == ca_fp) {
        return Err(
            CaError::FingerprintMismatch {
                expected_fp: ca_fp,
                actual_fp: sor.ca_fingerprint.clone(),
            },
        );
    }
    let ghost certs0 = storage.certs.deep_view();
    let ghost queue0 = storage.queue.deep_view();
    let total = sor.queue.len();
    let mut applied: usize = 0;
    let mut skipped: usize = 0;
    let n = sor.queue.len();
    let mut i: usize = 0;
    while i < n
        invariant
            i <= n,
            n == sor.queue@.len(),
            applied + skipped == i,
            storage.wf(),
            storage.ca == old(storage).ca,
            storage.users == old(storage).users,
            storage.emails == old(storage).emails,
            storage.revocations == old(storage).revocations,
            storage.bridges == old(storage).bridges,
            storage.next_id == old(storage).next_id,
            forall|j: int| 0 <= j < i ==> queue_id_done(
                storage.queue.deep_view(),
                (#[trigger] sor@.queue[j]).0,
            ),
            (forall|j: int| 0 <= j < sor@.queue.len() ==> queue_id_done(
                queue0,
                (#[trigger] sor@.queue[j]).0,
            )) ==> applied == 0 && skipped == i && storage.certs == old(storage).certs
                && storage.queue == old(storage).queue,
            forall|des: Seq<(u64, DecodedResponseV)>| #[trigger] entries_decode_to(
                sor@.queue,
                des,
            ) ==> import_trans(certs0, queue0, des, 0, 0, 0) == import_trans(
                storage.certs.deep_view(),
                storage.queue.deep_view(),
                des,
                i as int,
                applied as int,
                skipped as int,
            ),
        decreases n - i,
    {
        let entry = &sor.queue[i];
        let id = entry.0;
        proof {
            assert(sor@.queue[i as int] == (entry.0, entry.1.deep_view()));
        }
        let is_done = match storage.queue_by_id(id) {
            Some(q) => q.done,
            None => {
                proof {
                    assert forall|des: Seq<(u64, DecodedResponseV)>| #[trigger] entries_decode_to(
                        sor@.queue,
                        des,
                    ) implies {
                        let o = import_trans(certs0, queue0, des, 0, 0, 0);
                        o.0 == storage.certs.deep_view() && o.1 == storage.queue.deep_view()
                            && !o.4
                    } by {
                        assert(des[i as int].0 == id);
                    }
                    assert(!queue_has_id(storage.queue.deep_view(), id));
                    assert(!(forall|j: int| 0 <= j < sor@.queue.len() ==> queue_id_done(
                        queue0,
                        (#[trigger] sor@.queue[j]).0,
                    ))) by {
                        if forall|j: int| 0 <= j < sor@.queue.len() ==> queue_id_done(
                            queue0,
                            (#[trigger] sor@.queue[j]).0,
                        ) {
                            assert(queue_id_done(queue0, sor@.queue[i as int].0));
                            assert(storage.queue.deep_view() == queue0);
                            let k = choose|k: int|
                                0 <= k < queue0.len() && (#[trigger] queue0[k]).id == id
                                    && queue0[k].done;
                            assert(queue_has_id(queue0, id));
                            assert(false);
                        }
                    }
                }
                return Err(CaError::UnknownQueueId { id });
            },
        };
        proof {
            assert(queue_has_id(storage.queue.deep_view(), id));
            assert(queue_id_done(storage.queue.deep_view(), id) == is_done) by {
                let q = storage.queue.deep_view();
                if is_done {
                    let k = choose|k: int| 0 <= k < q.len() && q[k].id == id;
                    assert(q[k].id == id);
                } else {
                    if queue_id_done(q, id) {
                        let k = choose|k: int| 0 <= k < q.len() && q[k].id == id && q[k].done;
                    }
                }
            }
        }
        if is_done {
            skipped = skipped + 1;
            proof {
                assert forall|des: Seq<(u64, DecodedResponseV)>| #[trigger] entries_decode_to(
                    sor@.queue,
                    des,
                ) implies import_trans(certs0, queue0, des, 0, 0, 0) == import_trans(
                    storage.certs.deep_view(),
                    storage.queue.deep_view(),
                    des,
                    i + 1,
                    applied as int,
                    skipped as int,
                ) by {
                    assert(des[i as int].0 == id);
                }
            }
            i = i + 1;
            continue;
        }
        // the entry is known and not yet done: decode and apply
        let ghost pre_certs = storage.certs.deep_view();
        let ghost pre_queue = storage.queue.deep_view();
        match &entry.1 {
            QueueResponse::CertificationResp(cr) => {
                let mut recs: Vec<Certification> = Vec::new();
                let m = cr.sigs.len();
                let mut j: usize = 0;
                while j < m
                    invariant
                        j <= m,
                        m == cr.sigs@.len(),
                        recs@.len() == j,
                        sor@.queue[i as int].1 == QueueResponseV::CertificationResp(cr@),
                        0 <= i < sor@.queue.len(),
                        forall|des: Seq<(u64, DecodedResponseV)>| #[trigger] entries_decode_to(
                            sor@.queue,
                            des,
                        ) ==> forall|l: int| 0 <= l < j ==> #[trigger] recs.deep_view()[l]
                            == des[i as int].1->Certification_certs[l],
                    decreases m - j,
                {
                    let c = match sig_from_b64(cr.sigs[j].as_str()) {
                        Some(c) => c,
                        None => {
                            proof {
                                assert forall|des: Seq<(u64, DecodedResponseV)>|
                                    #[trigger] entries_decode_to(sor@.queue, des)
                                    implies false by {
                                    assert(resp_decodes_to(sor@.queue[i as int].1, des[i as int].1));
                                    let dcerts = des[i as int].1->Certification_certs;
                                    assert(certification_v_bounded(dcerts[j as int]));
                                    assert(cr.sigs.deep_view()[j as int] == sig_b64_of(
                                        dcerts[j as int],
                                    ));
                                    assert(cr.sigs@[j as int]@ == sig_b64_of(dcerts[j as int]));
                                }
                            }
                            return Err(CaError::DecodeFailure);
                        },
                    };
                    let ghost pre = recs;
                    recs.push(c);
                    proof {
                        assert forall|des: Seq<(u64, DecodedResponseV)>|
                            #[trigger] entries_decode_to(sor@.queue, des)
                            implies forall|l: int| 0 <= l < j + 1 ==> #[trigger] recs.deep_view()[l]
                                == des[i as int].1->Certification_certs[l] by {
                            assert(resp_decodes_to(sor@.queue[i as int].1, des[i as int].1));
                            let dcerts = des[i as int].1->Certification_certs;
                            assert(certification_v_bounded(dcerts[j as int]));
                            assert(cr.sigs.deep_view()[j as int] == sig_b64_of(dcerts[j as int]));
                            assert(cr.sigs@[j as int]@ == sig_b64_of(dcerts[j as int]));
                            assert(c@ == dcerts[j as int]);
                            assert forall|l: int| 0 <= l < j + 1
                                implies #[trigger] recs.deep_view()[l] == dcerts[l] by {
                                if l < j {
                                    assert(recs@[l] == pre@[l]);
                                    assert(pre.deep_view()[l] == dcerts[l]);
                                } else {
                                    assert(recs.deep_view()[pre@.len() as int] == c@);
                                }
                            }
                        }
                    }
                    j = j + 1;
                }
                let found = match storage.cert_by_fp(cr.fingerprint.as_str()) {
                    Some(c) => copy_pgp_cert(&c.cert),
                    None => {
                        proof {
                            assert forall|des: Seq<(u64, DecodedResponseV)>|
                                #[trigger] entries_decode_to(sor@.queue, des) implies {
                                let o = import_trans(certs0, queue0, des, 0, 0, 0);
                                o.0 == storage.certs.deep_view() && o.1
                                    == storage.queue.deep_view() && !o.4
                            } by {
                                assert(des[i as int].0 == id);
                                assert(resp_decodes_to(sor@.queue[i as int].1, des[i as int].1));
                            }
                            assert(!(forall|j: int| 0 <= j < sor@.queue.len() ==> queue_id_done(
                                queue0,
                                (#[trigger] sor@.queue[j]).0,
                            ))) by {
                                if forall|j: int| 0 <= j < sor@.queue.len() ==> queue_id_done(
                                    queue0,
                                    (#[trigger] sor@.queue[j]).0,
                                ) {
                                    assert(queue_id_done(queue0, sor@.queue[i as int].0));
                                    assert(storage.queue.deep_view() == queue0);
                                    assert(false);
                                }
                            }
                        }
                        return Err(
                            CaError::UnknownFingerprint { fingerprint: cr.fingerprint.clone() },
                        );
                    },
                };
                let mut merged = found;
                merge_certifications(&mut merged, &recs);
                let res = storage.cert_update(cr.fingerprint.as_str(), &merged);
                proof {
                    assert(res is Ok);
                }
                let res2 = storage.queue_mark_done(id);
                proof {
                    assert(queue_has_id(pre_queue, id));
                    assert(res2 is Ok);
                    assert forall|des: Seq<(u64, DecodedResponseV)>|
                        #[trigger] entries_decode_to(sor@.queue, des)
                        implies import_trans(certs0, queue0, des, 0, 0, 0) == import_trans(
                        storage.certs.deep_view(),
                        storage.queue.deep_view(),
                        des,
                        i + 1,
                        applied as int + 1,
                        skipped as int,
                    ) by {
                        assert(des[i as int].0 == id);
                        assert(resp_decodes_to(sor@.queue[i as int].1, des[i as int].1));
                        let dcerts = des[i as int].1->Certification_certs;
                        let dfp = des[i as int].1->Certification_fingerprint;
                        assert(dfp == cr.fingerprint@);
                        assert(dcerts =~= recs.deep_view());
                        assert(storage.certs.deep_view() == pre_certs.update(
                            cert_index_of(pre_certs, dfp),
                            CertRecordV {
                                cert: PgpCertV {
                                    certifications: merge_seq(
                                        pre_certs[cert_index_of(pre_certs, dfp)].cert
                                            .certifications,
                                        dcerts,
                                    ),
                                    ..pre_certs[cert_index_of(pre_certs, dfp)].cert
                                },
                                ..pre_certs[cert_index_of(pre_certs, dfp)]
                            },
                        ));
                        assert(storage.queue.deep_view() == mark_done(pre_queue, id));
                    }
                }
                applied = applied + 1;
            },
            QueueResponse::BridgeResp(br) => {
                let res = storage.cert_update(br.cert.fingerprint.as_str(), &br.cert);
                match res {
                    Ok(_) => {},
                    Err(_) => {
                        proof {
                            assert(!certs_have_fp(pre_certs, br.cert@.fingerprint));
                            assert forall|des: Seq<(u64, DecodedResponseV)>|
                                #[trigger] entries_decode_to(sor@.queue, des) implies {
                                let o = import_trans(certs0, queue0, des, 0, 0, 0);
                                o.0 == storage.certs.deep_view() && o.1
                                    == storage.queue.deep_view() && !o.4
                            } by {
                                assert(des[i as int].0 == id);
                                assert(resp_decodes_to(sor@.queue[i as int].1, des[i as int].1));
                            }
                            assert(!(forall|j: int| 0 <= j < sor@.queue.len() ==> queue_id_done(
                                queue0,
                                (#[trigger] sor@.queue[j]).0,
                            ))) by {
                                if forall|j: int| 0 <= j < sor@.queue.len() ==> queue_id_done(
                                    queue0,
                                    (#[trigger] sor@.queue[j]).0,
                                ) {
                                    assert(queue_id_done(queue0, sor@.queue[i as int].0));
                                    assert(storage.queue.deep_view() == queue0);
                                    assert(false);
                                }
                            }
                        }
                        return Err(
                            CaError::UnknownFingerprint {
                                fingerprint: br.cert.fingerprint.clone(),
                            },
                        );
                    },
                }
                let res2 = storage.queue_mark_done(id);
                proof {
                    assert(queue_has_id(pre_queue, id));
                    assert(res2 is Ok);
                    assert forall|des: Seq<(u64, DecodedResponseV)>|
                        #[trigger] entries_decode_to(sor@.queue, des)
                        implies import_trans(certs0, queue0, des, 0, 0, 0) == import_trans(
                        storage.certs.deep_view(),
                        storage.queue.deep_view(),
                        des,
                        i + 1,
                        applied as int + 1,
                        skipped as int,
                    ) by {
                        assert(des[i as int].0 == id);
                        assert(resp_decodes_to(sor@.queue[i as int].1, des[i as int].1));
                        let dc = des[i as int].1->Bridge_cert;
                        assert(dc == br.cert@);
                        let k = cert_index_of(pre_certs, dc.fingerprint);
                        assert(storage.certs.deep_view() == pre_certs.update(
                            k,
                            CertRecordV { cert: dc, ..pre_certs[k] },
                        ));
                        assert(storage.queue.deep_view() == mark_done(pre_queue, id));
                    }
                }
                applied = applied + 1;
            },
        }
        proof {
            assert(queue_id_done(storage.queue.deep_view(), id)) by {
                let k = choose|k: int|
                    0 <= k < pre_queue.len() && (#[trigger] pre_queue[k]).id == id;
                assert(mark_done(pre_queue, id)[k].id == id && mark_done(pre_queue, id)[k].done);
            }
            assert forall|j: int| 0 <= j < i + 1 implies queue_id_done(
                storage.queue.deep_view(),
                (#[trigger] sor@.queue[j]).0,
            ) by {
                if j < i {
                    let jid = sor@.queue[j].0;
                    let k = choose|k: int|
                        0 <= k < pre_queue.len() && (#[trigger] pre_queue[k]).id == jid
                            && pre_queue[k].done;
                    assert(mark_done(pre_queue, id)[k].id == jid
                        && mark_done(pre_queue, id)[k].done);
                }
            }
            assert(!(forall|j: int| 0 <= j < sor@.queue.len() ==> queue_id_done(
                queue0,
                (#[trigger] sor@.queue[j]).0,
            ))) by {
                assert(!queue_id_done(pre_queue, id));
                if forall|j: int| 0 <= j < sor@.queue.len() ==> queue_id_done(
                    queue0,
                    (#[trigger] sor@.queue[j]).0,
                ) {
                    assert(queue_id_done(queue0, sor@.queue[i as int].0));
                    assert(pre_queue == queue0);
                    assert(false);
                }
            }
        }
        i = i + 1;
    }
    proof {
        assert forall|des: Seq<(u64, DecodedResponseV)>| #[trigger] entries_decode_to(
            sor@.queue,
            des,
        ) implies {
            let o = import_trans(certs0, queue0, des, 0, 0, 0);
            o.0 == storage.certs.deep_view() && o.1 == storage.queue.deep_view()
                && o.4 && o.2 == applied as int && o.3 == skipped as int
        } by {
            assert(des.len() == n);
        }
    }
    Ok(ImportStats { total, applied, skipped })
}

} // verus!
