//! Properties of the CA, stated and proved.
//!
//! These public lemmas state, over the same specification functions that
//! the executable functions' contracts use, what the CA guarantees: a
//! softkey certification covers exactly the requested user ids, importing
//! a response twice applies nothing twice, and a full
//! export-certify-import cycle marks the queue done and certifies exactly
//! what was asked.

use vstd::prelude::*;

use crate::model::CertificationV;
use crate::model::PgpCertV;
use crate::model::merge_seq;
use crate::model::lemma_merge_seq_contains;
use crate::queue::QueueRecordV;
use crate::secret::cert_key_indices;
use crate::secret::certification_of;
use crate::secret::certs_for_uid;
use crate::secret::new_certs_from;
use crate::secret::new_certifications;
use crate::secret::signed_cert;
use crate::split::DecodedResponseV;
use crate::split::import_trans;
use crate::split::queue_id_done;
use crate::storage::CertRecordV;
use crate::storage::cert_index_of;
use crate::storage::certs_have_fp;
use crate::storage::mark_done;
use crate::storage::queue_has_id;

verus! {

/// Whether `c` carries a certification on `uid` issued by `ca_fp`.
pub open spec fn uid_certified_by(c: PgpCertV, ca_fp: Seq<char>, uid: Seq<char>) -> bool {
    exists|i: int|
        0 <= i < c.certifications.len() && (#[trigger] c.certifications[i]).issuer_fp == ca_fp
            && c.certifications[i].userid == uid
}

/// Membership in the certifications created for a request: exactly the
/// requested user ids that the target certificate carries, one record per
/// CA key, every record issued by the CA with the requested validity.
pub proof fn lemma_new_certs_membership(
    ca: PgpCertV,
    target_uids: Seq<Seq<char>>,
    requested: Seq<Seq<char>>,
    days: Option<u64>,
    p: int,
    x: CertificationV,
)
    requires
        0 <= p <= target_uids.len(),
    ensures
        new_certs_from(ca, target_uids, requested, days, p).contains(x) <==> exists|j: int, k: int|
            p <= j < target_uids.len() && requested.contains(target_uids[j])
                && 0 <= k < cert_key_indices(ca).len()
                && x == certification_of(
                ca,
                #[trigger] cert_key_indices(ca)[k],
                #[trigger] target_uids[j],
                days,
            ),
    decreases target_uids.len() - p,
{
    let keys = cert_key_indices(ca);
    if p < target_uids.len() {
        lemma_new_certs_membership(ca, target_uids, requested, days, p + 1, x);
        if requested.contains(target_uids[p]) {
            let chunk = certs_for_uid(ca, keys, target_uids[p], days);
            let rest = new_certs_from(ca, target_uids, requested, days, p + 1);
            assert(new_certs_from(ca, target_uids, requested, days, p) == chunk + rest);
            assert((chunk + rest).contains(x) <==> chunk.contains(x) || rest.contains(x)) by {
                if chunk.contains(x) {
                    let i = choose|i: int| 0 <= i < chunk.len() && chunk[i] == x;
                    assert((chunk + rest)[i] == x);
                }
                if rest.contains(x) {
                    let i = choose|i: int| 0 <= i < rest.len() && rest[i] == x;
                    assert((chunk + rest)[chunk.len() + i] == x);
                }
                if (chunk + rest).contains(x) {
                    let i = choose|i: int| 0 <= i < chunk.len() + rest.len() && (chunk + rest)[i]
                        == x;
                    if i < chunk.len() {
                        assert(chunk[i] == x);
                    } else {
                        assert(rest[i - chunk.len()] == x);
                    }
                }
            }
            assert(chunk.contains(x) <==> exists|k: int|
                0 <= k < keys.len() && x == certification_of(
                    ca,
                    #[trigger] keys[k],
                    target_uids[p],
                    days,
                )) by {
                if chunk.contains(x) {
                    let i = choose|i: int| 0 <= i < chunk.len() && chunk[i] == x;
                    assert(chunk[i] == certification_of(ca, keys[i], target_uids[p], days));
                }
                if exists|k: int|
                    0 <= k < keys.len() && x == certification_of(
                        ca,
                        #[trigger] keys[k],
                        target_uids[p],
                        days,
                    ) {
                    let k = choose|k: int|
                        0 <= k < keys.len() && x == certification_of(
                            ca,
                            #[trigger] keys[k],
                            target_uids[p],
                            days,
                        );
                    assert(chunk[k] == x);
                }
            }
        }
    }
}

/// A softkey certification covers exactly the requested user ids: after
/// `sign_user_ids`, the CA has certified a user id of the certificate if
/// and only if it had certified it before, or it was requested and the
/// certificate carries it.  Every certification added carries the
/// requested validity.
pub proof fn lemma_sign_covers_requested(
    ca: PgpCertV,
    c: PgpCertV,
    requested: Seq<Seq<char>>,
    days: Option<u64>,
)
    requires
        cert_key_indices(ca).len() > 0,
    ensures
        forall|u: Seq<char>|
            #[trigger] uid_certified_by(signed_cert(ca, c, requested, days), ca.fingerprint, u)
                <==> uid_certified_by(c, ca.fingerprint, u) || (requested.contains(u)
                && c.userids.contains(u)),
        forall|i: int|
            0 <= i < signed_cert(ca, c, requested, days).certifications.len()
                && !c.certifications.contains(
                #[trigger] signed_cert(ca, c, requested, days).certifications[i],
            ) ==> signed_cert(ca, c, requested, days).certifications[i].expiry_days == days
                && signed_cert(ca, c, requested, days).certifications[i].issuer_fp
                == ca.fingerprint,
{
    let fresh = new_certifications(ca, c, requested, days);
    let merged = signed_cert(ca, c, requested, days).certifications;
    assert forall|u: Seq<char>|
        #[trigger] uid_certified_by(signed_cert(ca, c, requested, days), ca.fingerprint, u)
            <==> uid_certified_by(c, ca.fingerprint, u) || (requested.contains(u)
            && c.userids.contains(u)) by {
        if uid_certified_by(signed_cert(ca, c, requested, days), ca.fingerprint, u) {
            let i = choose|i: int|
                0 <= i < merged.len() && (#[trigger] merged[i]).issuer_fp == ca.fingerprint
                    && merged[i].userid == u;
            let x = merged[i];
            assert(merged.contains(x));
            lemma_merge_seq_contains(c.certifications, fresh, x);
            if c.certifications.contains(x) {
                let j = choose|j: int| 0 <= j < c.certifications.len() && c.certifications[j]
                    == x;
                assert(uid_certified_by(c, ca.fingerprint, u));
            } else {
                lemma_new_certs_membership(ca, c.userids, requested, days, 0, x);
                let (j, k): (int, int) = choose|j: int, k: int|
                    0 <= j < c.userids.len() && requested.contains(c.userids[j])
                        && 0 <= k < cert_key_indices(ca).len()
                        && x == certification_of(
                        ca,
                        #[trigger] cert_key_indices(ca)[k],
                        #[trigger] c.userids[j],
                        days,
                    );
                assert(c.userids[j] == u);
                assert(c.userids.contains(u));
            }
        }
        if uid_certified_by(c, ca.fingerprint, u) {
            let i = choose|i: int|
                0 <= i < c.certifications.len() && (#[trigger] c.certifications[i]).issuer_fp
                    == ca.fingerprint && c.certifications[i].userid == u;
            let x = c.certifications[i];
            assert(c.certifications.contains(x));
            lemma_merge_seq_contains(c.certifications, fresh, x);
            let j = choose|j: int| 0 <= j < merged.len() && merged[j] == x;
            assert(uid_certified_by(signed_cert(ca, c, requested, days), ca.fingerprint, u));
        }
        if requested.contains(u) && c.userids.contains(u) {
            let j = choose|j: int| 0 <= j < c.userids.len() && c.userids[j] == u;
            let k0 = cert_key_indices(ca)[0];
            let x = certification_of(ca, k0, u, days);
            lemma_new_certs_membership(ca, c.userids, requested, days, 0, x);
            assert(cert_key_indices(ca)[0] == k0 && c.userids[j] == u);
            assert(fresh.contains(x));
            lemma_merge_seq_contains(c.certifications, fresh, x);
            let l = choose|l: int| 0 <= l < merged.len() && merged[l] == x;
            assert(uid_certified_by(signed_cert(ca, c, requested, days), ca.fingerprint, u));
        }
    }
    assert forall|i: int|
        0 <= i < merged.len() && !c.certifications.contains(#[trigger] merged[i])
            implies merged[i].expiry_days == days && merged[i].issuer_fp == ca.fingerprint by {
        let x = merged[i];
        assert(merged.contains(x));
        lemma_merge_seq_contains(c.certifications, fresh, x);
        lemma_new_certs_membership(ca, c.userids, requested, days, 0, x);
    }
}

/// Once an import has succeeded, every answered queue entry is done, and
/// running the same import again applies nothing: every entry is counted
/// as skipped and the state is unchanged.
pub proof fn lemma_import_idempotent(
    certs: Seq<CertRecordV>,
    queue: Seq<QueueRecordV>,
    des: Seq<(u64, DecodedResponseV)>,
)
    requires
        import_trans(certs, queue, des, 0, 0, 0).4,
    ensures
        forall|i: int| 0 <= i < des.len() ==> queue_id_done(
            import_trans(certs, queue, des, 0, 0, 0).1,
            (#[trigger] des[i]).0,
        ),
        import_trans(
            import_trans(certs, queue, des, 0, 0, 0).0,
            import_trans(certs, queue, des, 0, 0, 0).1,
            des,
            0,
            0,
            0,
        ) == (
            import_trans(certs, queue, des, 0, 0, 0).0,
            import_trans(certs, queue, des, 0, 0, 0).1,
            0int,
            des.len() as int,
            true,
        ),
{
    lemma_import_marks_done(certs, queue, des, 0, 0, 0);
    let o = import_trans(certs, queue, des, 0, 0, 0);
    lemma_import_all_done_skips(o.0, o.1, des, 0, 0, 0);
}

/// After a successful run of the import transition, every processed entry
/// is marked done.
pub proof fn lemma_import_marks_done(
    certs: Seq<CertRecordV>,
    queue: Seq<QueueRecordV>,
    des: Seq<(u64, DecodedResponseV)>,
    p: int,
    applied: int,
    skipped: int,
)
    requires
        0 <= p <= des.len(),
        import_trans(certs, queue, des, p, applied, skipped).4,
    ensures
        forall|i: int| p <= i < des.len() ==> queue_id_done(
            import_trans(certs, queue, des, p, applied, skipped).1,
            (#[trigger] des[i]).0,
        ),
        forall|id: u64| queue_id_done(queue, id) ==> queue_id_done(
            import_trans(certs, queue, des, p, applied, skipped).1,
            id,
        ),
    decreases des.len() - p,
{
    if p < des.len() {
        let id = des[p].0;
        let o = import_trans(certs, queue, des, p, applied, skipped);
        if queue_id_done(queue, id) {
            lemma_import_marks_done(certs, queue, des, p + 1, applied, skipped + 1);
        } else {
            match des[p].1 {
                DecodedResponseV::Certification { fingerprint, certs: recs } => {
                    let k = cert_index_of(certs, fingerprint);
                    lemma_import_marks_done(
                        certs.update(
                            k,
                            CertRecordV {
                                cert: PgpCertV {
                                    certifications: merge_seq(
                                        certs[k].cert.certifications,
                                        recs,
                                    ),
                                    ..certs[k].cert
                                },
                                ..certs[k]
                            },
                        ),
                        mark_done(queue, id),
                        des,
                        p + 1,
                        applied + 1,
                        skipped,
                    );
                    lemma_mark_done_preserves(queue, id);
                },
                DecodedResponseV::Bridge { cert } => {
                    let k = cert_index_of(certs, cert.fingerprint);
                    lemma_import_marks_done(
                        certs.update(k, CertRecordV { cert, ..certs[k] }),
                        mark_done(queue, id),
                        des,
                        p + 1,
                        applied + 1,
                        skipped,
                    );
                    lemma_mark_done_preserves(queue, id);
                },
            }
        }
    }
}

/// Marking an entry done keeps every done entry done and makes the named
/// one done.
pub proof fn lemma_mark_done_preserves(queue: Seq<QueueRecordV>, id: u64)
    ensures
        forall|x: u64| queue_id_done(queue, x) ==> queue_id_done(mark_done(queue, id), x),
        queue_has_id(queue, id) ==> queue_id_done(mark_done(queue, id), id),
{
    assert forall|x: u64| queue_id_done(queue, x) implies queue_id_done(
        mark_done(queue, id),
        x,
    ) by {
        let k = choose|k: int|
            0 <= k < queue.len() && (#[trigger] queue[k]).id == x && queue[k].done;
        assert(mark_done(queue, id)[k].id == x && mark_done(queue, id)[k].done);
    }
    if queue_has_id(queue, id) {
        let k = choose|k: int| 0 <= k < queue.len() && (#[trigger] queue[k]).id == id;
        assert(mark_done(queue, id)[k].id == id && mark_done(queue, id)[k].done);
    }
}

/// On a state where every answered entry is already done, the import
/// transition changes nothing and counts every entry as skipped.
pub proof fn lemma_import_all_done_skips(
    certs: Seq<CertRecordV>,
    queue: Seq<QueueRecordV>,
    des: Seq<(u64, DecodedResponseV)>,
    p: int,
    applied: int,
    skipped: int,
)
    requires
        0 <= p <= des.len(),
        forall|i: int| 0 <= i < des.len() ==> queue_id_done(queue, (#[trigger] des[i]).0),
    ensures
        import_trans(certs, queue, des, p, applied, skipped) == (
            certs,
            queue,
            applied,
            skipped + (des.len() - p),
            true,
        ),
    decreases des.len() - p,
{
    if p < des.len() {
        let id = des[p].0;
        assert(queue_id_done(queue, id));
        assert(queue_has_id(queue, id)) by {
            let k = choose|k: int|
                0 <= k < queue.len() && (#[trigger] queue[k]).id == id && queue[k].done;
        }
        lemma_import_all_done_skips(certs, queue, des, p + 1, applied, skipped + 1);
    }
}

/// The split round trip on one pending certification request: exporting
/// the single entry, certifying it in batch mode and importing the
/// response marks the entry done and leaves the stored certificate
/// carrying exactly the certifications that were requested.
pub proof fn lemma_split_roundtrip_single(
    ca: PgpCertV,
    certs: Seq<CertRecordV>,
    queue: Seq<QueueRecordV>,
    entry: QueueRecordV,
    target: PgpCertV,
    requested: Seq<Seq<char>>,
    days: Option<u64>,
    recs: Seq<CertificationV>,
)
    requires
        queue.len() == 1,
        queue[0] == entry,
        !entry.done,
        entry.task == crate::queue::QueueEntryV::CertificationReq(
            crate::queue::CertificationReqV { cert: target, user_ids: requested, days },
        ),
        certs_have_fp(certs, target.fingerprint),
        recs == new_certifications(ca, target, requested, days),
        cert_key_indices(ca).len() > 0,
    ensures
        ({
            let des = seq![
                (
                    entry.id,
                    DecodedResponseV::Certification {
                        fingerprint: target.fingerprint,
                        certs: recs,
                    },
                ),
            ];
            let o = import_trans(certs, queue, des, 0, 0, 0);
            let k = cert_index_of(certs, target.fingerprint);
            &&& o.4
            &&& o.2 == 1
            &&& o.3 == 0
            &&& forall|i: int| 0 <= i < o.1.len() ==> (#[trigger] o.1[i]).done
            &&& o.0[k].cert.certifications == merge_seq(certs[k].cert.certifications, recs)
            &&& forall|u: Seq<char>|
                (requested.contains(u) && target.userids.contains(u)) ==> uid_certified_by(
                    PgpCertV { certifications: #[trigger] o.0[k].cert.certifications, ..target },
                    ca.fingerprint,
                    u,
                )
        }),
{
    let des = seq![
        (
            entry.id,
            DecodedResponseV::Certification { fingerprint: target.fingerprint, certs: recs },
        ),
    ];
    let k = cert_index_of(certs, target.fingerprint);
    assert(queue_has_id(queue, entry.id)) by {
        assert(queue[0].id == entry.id);
    }
    assert(!queue_id_done(queue, entry.id)) by {
        if queue_id_done(queue, entry.id) {
            let j = choose|j: int|
                0 <= j < queue.len() && (#[trigger] queue[j]).id == entry.id && queue[j].done;
            assert(j == 0);
        }
    }
    let certs1 = certs.update(
        k,
        CertRecordV {
            cert: PgpCertV {
                certifications: merge_seq(certs[k].cert.certifications, recs),
                ..certs[k].cert
            },
            ..certs[k]
        },
    );
    let queue1 = mark_done(queue, entry.id);
    assert(des.len() == 1);
    assert(import_trans(certs1, queue1, des, 1, 1, 0) == (certs1, queue1, 1int, 0int, true));
    let o = import_trans(certs, queue, des, 0, 0, 0);
    assert(o == (certs1, queue1, 1int, 0int, true));
    assert(forall|i: int| 0 <= i < queue1.len() ==> (#[trigger] queue1[i]).done) by {
        assert(queue1[0].done);
    }
    assert(certs1[k].cert.certifications == merge_seq(certs[k].cert.certifications, recs));
    assert forall|u: Seq<char>|
        (requested.contains(u) && target.userids.contains(u)) implies uid_certified_by(
        PgpCertV { certifications: certs1[k].cert.certifications, ..target },
        ca.fingerprint,
        u,
    ) by {
        let j = choose|j: int| 0 <= j < target.userids.len() && target.userids[j] == u;
        let k0 = cert_key_indices(ca)[0];
        let x = certification_of(ca, k0, u, days);
        lemma_new_certs_membership(ca, target.userids, requested, days, 0, x);
        assert(cert_key_indices(ca)[0] == k0 && target.userids[j] == u);
        assert(recs.contains(x));
        lemma_merge_seq_contains(certs[k].cert.certifications, recs, x);
        let merged = merge_seq(certs[k].cert.certifications, recs);
        let l = choose|l: int| 0 <= l < merged.len() && merged[l] == x;
        assert(uid_certified_by(
            PgpCertV { certifications: merged, ..target },
            ca.fingerprint,
            u,
        ));
    }
}

} // verus!
