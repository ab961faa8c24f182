//! Secret-key operations of the softkey backend.
//!
//! These run where the CA private key is present: they certify user ids,
//! extend trust to remote CAs, and revoke bridges.  Each operation is a
//! pure function from certificates to certificates; storage is updated by
//! the callers.

use vstd::prelude::*;

use crate::errors::CaError;
use crate::model::Certification;
use crate::model::CertificationV;
use crate::model::PgpCert;
use crate::model::PgpCertV;
use crate::model::RevocationSig;
use crate::model::RevocationSigV;
use crate::model::TrustSignature;
use crate::model::TrustSignatureV;
use crate::model::Subkey;
use crate::model::copy_pgp_cert;
use crate::model::copy_string_vec;
use crate::model::merge_certifications;
use crate::model::merge_seq;
use crate::strings::contains_string;

verus! {

/// The trust depth of a bridge signature.
pub const BRIDGE_TRUST_DEPTH: u8 = 255;

/// The trust amount of a bridge signature.
pub const BRIDGE_TRUST_AMOUNT: u8 = 120;

/// The indices of the certification-capable keys with secret material,
/// from position `p` on.
pub open spec fn cert_key_indices_from(keys: Seq<Subkey>, p: int) -> Seq<int>
    decreases keys.len() - p when 0 <= p <= keys.len()
{
    if p >= keys.len() {
        Seq::empty()
    } else if keys[p].can_certify && keys[p].has_secret {
        seq![p] + cert_key_indices_from(keys, p + 1)
    } else {
        cert_key_indices_from(keys, p + 1)
    }
}

/// The indices of the certification-capable keys of `c` that carry secret
/// material.
pub open spec fn cert_key_indices(c: PgpCertV) -> Seq<int> {
    cert_key_indices_from(c.keys, 0)
}

/// The certification that key `key` of `ca` makes on `uid`.
pub open spec fn certification_of(
    ca: PgpCertV,
    key: int,
    uid: Seq<char>,
    days: Option<u64>,
) -> CertificationV {
    CertificationV {
        issuer_fp: ca.fingerprint,
        issuer_key: key,
        userid: uid,
        expiry_days: days,
        signer_userid: ca.userids[0],
    }
}

/// One certification per signing key, on one user id.
pub open spec fn certs_for_uid(
    ca: PgpCertV,
    keys: Seq<int>,
    uid: Seq<char>,
    days: Option<u64>,
) -> Seq<CertificationV> {
    keys.map_values(|k: int| certification_of(ca, k, uid, days))
}

/// The certifications created for the user ids of `target_uids` from
/// position `p` on that are in `requested`.
pub open spec fn new_certs_from(
    ca: PgpCertV,
    target_uids: Seq<Seq<char>>,
    requested: Seq<Seq<char>>,
    days: Option<u64>,
    p: int,
) -> Seq<CertificationV>
    decreases target_uids.len() - p when 0 <= p <= target_uids.len()
{
    if p >= target_uids.len() {
        Seq::empty()
    } else if requested.contains(target_uids[p]) {
        certs_for_uid(ca, cert_key_indices(ca), target_uids[p], days) + new_certs_from(
            ca,
            target_uids,
            requested,
            days,
            p + 1,
        )
    } else {
        new_certs_from(ca, target_uids, requested, days, p + 1)
    }
}

/// Every certification the CA makes when asked to certify the `requested`
/// user ids of `c`.
pub open spec fn new_certifications(
    ca: PgpCertV,
    c: PgpCertV,
    requested: Seq<Seq<char>>,
    days: Option<u64>,
) -> Seq<CertificationV> {
    new_certs_from(ca, c.userids, requested, days, 0)
}

/// `c` with the requested certifications merged in: the result of a
/// softkey `sign_user_ids` call.
pub open spec fn signed_cert(
    ca: PgpCertV,
    c: PgpCertV,
    requested: Seq<Seq<char>>,
    days: Option<u64>,
) -> PgpCertV {
    PgpCertV {
        certifications: merge_seq(c.certifications, new_certifications(ca, c, requested, days)),
        ..c
    }
}

/// The indices of the valid certification-capable keys of `cert` that
/// carry secret material.
#[verifier::loop_isolation(false)]
pub fn get_cert_keys(cert: &PgpCert) -> (r: Vec<usize>)
    ensures
        r@.map_values(|k: usize| k as int) == cert_key_indices(cert@),
        forall|j: int| 0 <= j < r@.len() ==> r@[j] < cert.keys@.len(),
{
    let mut r: Vec<usize> = Vec::new();
    let n = cert.keys.len();
    for i in 0..n
        invariant
            cert_key_indices(cert@) =~= r@.map_values(|k: usize| k as int)
                + cert_key_indices_from(cert@.keys, i as int),
            forall|j: int| 0 <= j < r@.len() ==> r@[j] < n,
    {
        let k = cert.keys[i];
        if k.can_certify && k.has_secret {
            let ghost pre = r@;
            r.push(i);
            proof {
                assert(r@.map_values(|k: usize| k as int) =~= pre.map_values(
                    |k: usize| k as int,
                ).push(i as int));
                assert(cert_key_indices_from(cert@.keys, i as int) == seq![i as int]
                    + cert_key_indices_from(cert@.keys, i + 1));
                assert(cert_key_indices(cert@) =~= r@.map_values(|k: usize| k as int)
                    + cert_key_indices_from(cert@.keys, i + 1));
            }
        }
    }
    r
}

/// The certification signatures for the requested user ids of `cert`:
/// one per certification-capable CA key and requested user id that `cert`
/// carries, with the validity limit and the CA's own user id as a hint.
#[verifier::loop_isolation(false)]
pub fn make_certifications(
    ca_cert: &PgpCert,
    cert: &PgpCert,
    uids: &Vec<String>,
    days: Option<u64>,
) -> (r: Result<Vec<Certification>, CaError>)
    ensures
        ca_cert@.userids.len() == 0 ==> r == Err::<Vec<Certification>, CaError>(
            CaError::NoCaUserId,
        ),
        ca_cert@.userids.len() > 0 ==> r is Ok && r->Ok_0.deep_view() == new_certifications(
            ca_cert@,
            cert@,
            uids.deep_view(),
            days,
        ),
{
    if ca_cert.userids.len() == 0 {
        return Err(CaError::NoCaUserId);
    }
    let keys = get_cert_keys(ca_cert);
    let ghost keyseq = cert_key_indices(ca_cert@);
    let mut new_certs: Vec<Certification> = Vec::new();
    let n = cert.userids.len();
    for i in 0..n
        invariant
            new_certifications(ca_cert@, cert@, uids.deep_view(), days)
                =~= new_certs.deep_view() + new_certs_from(
                ca_cert@,
                cert@.userids,
                uids.deep_view(),
                days,
                i as int,
            ),
    {
        proof {
            assert(cert@.userids[i as int] == cert.userids@[i as int]@);
        }
        if contains_string(uids, cert.userids[i].as_str()) {
            let ghost base = new_certs.deep_view();
            let m = keys.len();
            for j in 0..m
                invariant
                    new_certs@.len() == base.len() + j,
                    forall|l: int| 0 <= l < base.len()
                        ==> #[trigger] new_certs.deep_view()[l] == base[l],
                    forall|l: int| base.len() <= l < base.len() + j
                        ==> #[trigger] new_certs.deep_view()[l]
                        == certification_of(
                        ca_cert@,
                        keyseq[l - base.len()],
                        cert@.userids[i as int],
                        days,
                    ),
            {
                let c = Certification {
                    issuer_fp: ca_cert.fingerprint.clone(),
                    issuer_key: keys[j],
                    userid: cert.userids[i].clone(),
                    expiry_days: days,
                    signer_userid: ca_cert.userids[0].clone(),
                };
                proof {
                    assert(keys@.map_values(|k: usize| k as int)[j as int] == keyseq[j as int]);
                    assert(c@ =~= certification_of(
                        ca_cert@,
                        keyseq[j as int],
                        cert@.userids[i as int],
                        days,
                    ));
                }
                let ghost pre = new_certs;
                new_certs.push(c);
                proof {
                    assert(new_certs@ == pre@.push(c));
                    assert forall|l: int| 0 <= l < pre@.len()
                        implies #[trigger] new_certs.deep_view()[l] == pre.deep_view()[l] by {
                        assert(new_certs@[l] == pre@[l]);
                    }
                    assert(new_certs.deep_view()[pre@.len() as int] == c@);
                }
            }
            proof {
                assert(new_certs.deep_view() =~= base + certs_for_uid(
                    ca_cert@,
                    keyseq,
                    cert@.userids[i as int],
                    days,
                ));
                assert(new_certs_from(ca_cert@, cert@.userids, uids.deep_view(), days, i as int)
                    == certs_for_uid(ca_cert@, keyseq, cert@.userids[i as int], days)
                    + new_certs_from(ca_cert@, cert@.userids, uids.deep_view(), days, i + 1));
                assert(new_certifications(ca_cert@, cert@, uids.deep_view(), days)
                    =~= new_certs.deep_view() + new_certs_from(
                    ca_cert@,
                    cert@.userids,
                    uids.deep_view(),
                    days,
                    i + 1,
                ));
            }
        } else {
            proof {
                assert(new_certs_from(ca_cert@, cert@.userids, uids.deep_view(), days, i as int)
                    == new_certs_from(ca_cert@, cert@.userids, uids.deep_view(), days, i + 1));
            }
        }
    }
    proof {
        assert(new_certs_from(ca_cert@, cert@.userids, uids.deep_view(), days, n as int)
            =~= Seq::<CertificationV>::empty());
        assert(new_certs.deep_view() =~= new_certifications(
            ca_cert@,
            cert@,
            uids.deep_view(),
            days,
        ));
    }
    Ok(new_certs)
}

/// Certifies the `uids` of `cert` with every certification-capable CA
/// key and merges the new signatures in: the softkey answer to a
/// certification request.  The split-front backend never calls this; it
/// queues instead.
pub fn sign_user_ids(
    ca_cert: &PgpCert,
    cert: &PgpCert,
    uids: &Vec<String>,
    days: Option<u64>,
) -> (r: Result<PgpCert, CaError>)
    ensures
        ca_cert@.userids.len() == 0 ==> r == Err::<PgpCert, CaError>(CaError::NoCaUserId),
        ca_cert@.userids.len() > 0 ==> r is Ok && r->Ok_0@ == signed_cert(
            ca_cert@,
            cert@,
            uids.deep_view(),
            days,
        ),
{
    let new_certs = match make_certifications(ca_cert, cert, uids, days) {
        Ok(cs) => cs,
        Err(e) => {
            return Err(e);
        },
    };
    let mut out = copy_pgp_cert(cert);
    merge_certifications(&mut out, &new_certs);
    proof {
        assert(out@ =~= signed_cert(ca_cert@, cert@, uids.deep_view(), days));
    }
    Ok(out)
}

/// The trust signature that key `key` of `ca` places on `uid`, scoped by
/// `scopes`.
pub open spec fn tsig_of(
    ca: PgpCertV,
    key: int,
    uid: Seq<char>,
    scopes: Seq<Seq<char>>,
) -> TrustSignatureV {
    TrustSignatureV {
        issuer_fp: ca.fingerprint,
        userid: uid,
        depth: BRIDGE_TRUST_DEPTH,
        amount: BRIDGE_TRUST_AMOUNT,
        scope_regexes: scopes,
    }
}

/// One trust signature per certification-capable CA key.
pub open spec fn tsigs_for(
    ca: PgpCertV,
    keys: Seq<int>,
    uid: Seq<char>,
    scopes: Seq<Seq<char>>,
) -> Seq<TrustSignatureV> {
    keys.map_values(|k: int| tsig_of(ca, k, uid, scopes))
}

/// The remote certificate with the bridge trust signatures merged in.
pub open spec fn bridged_cert(ca: PgpCertV, remote: PgpCertV, scopes: Seq<Seq<char>>) -> PgpCertV {
    PgpCertV {
        tsigs: merge_seq(
            remote.tsigs,
            tsigs_for(ca, cert_key_indices(ca), remote.userids[0], scopes),
        ),
        ..remote
    }
}

/// Extends trust to a remote CA: one trust signature (depth 255, amount
/// 120) per certification-capable CA key, scoped by `scope_regexes`
/// (empty means unscoped), bound on the remote certificate's single user
/// id.  A remote certificate without exactly one identity is rejected.
#[verifier::loop_isolation(false)]
pub fn bridge_to_remote_ca(
    ca_cert: &PgpCert,
    remote_ca: &PgpCert,
    scope_regexes: &Vec<String>,
) -> (r: Result<PgpCert, CaError>)
    ensures
        remote_ca@.userids.len() != 1 ==> r == Err::<PgpCert, CaError>(
            CaError::WrongIdentityCount,
        ),
        remote_ca@.userids.len() == 1 ==> r is Ok && r->Ok_0@ == bridged_cert(
            ca_cert@,
            remote_ca@,
            scope_regexes.deep_view(),
        ),
{
    if remote_ca.userids.len() != 1 {
        return Err(CaError::WrongIdentityCount);
    }
    let keys = get_cert_keys(ca_cert);
    let ghost keyseq = cert_key_indices(ca_cert@);
    let mut new_tsigs: Vec<TrustSignature> = Vec::new();
    let m = keys.len();
    for j in 0..m
        invariant
            new_tsigs@.len() == j,
            forall|l: int| 0 <= l < j ==> #[trigger] new_tsigs.deep_view()[l] == tsig_of(
                ca_cert@,
                keyseq[l],
                remote_ca@.userids[0],
                scope_regexes.deep_view(),
            ),
    {
        let t = TrustSignature {
            issuer_fp: ca_cert.fingerprint.clone(),
            userid: remote_ca.userids[0].clone(),
            depth: BRIDGE_TRUST_DEPTH,
            amount: BRIDGE_TRUST_AMOUNT,
            scope_regexes: copy_string_vec(scope_regexes),
        };
        proof {
            assert(keys@.map_values(|k: usize| k as int)[j as int] == keyseq[j as int]);
            assert(t@ =~= tsig_of(
                ca_cert@,
                keyseq[j as int],
                remote_ca@.userids[0],
                scope_regexes.deep_view(),
            ));
        }
        let ghost pre = new_tsigs;
        new_tsigs.push(t);
        proof {
            assert(new_tsigs@ == pre@.push(t));
            assert forall|l: int| 0 <= l < pre@.len()
                implies #[trigger] new_tsigs.deep_view()[l] == pre.deep_view()[l] by {
                assert(new_tsigs@[l] == pre@[l]);
            }
            assert(new_tsigs.deep_view()[pre@.len() as int] == t@);
        }
    }
    proof {
        assert(new_tsigs.deep_view() =~= tsigs_for(
            ca_cert@,
            keyseq,
            remote_ca@.userids[0],
            scope_regexes.deep_view(),
        ));
    }
    let mut out = copy_pgp_cert(remote_ca);
    crate::model::merge_tsigs(&mut out, &new_tsigs);
    proof {
        assert(out@ =~= bridged_cert(ca_cert@, remote_ca@, scope_regexes.deep_view()));
    }
    Ok(out)
}

/// The user-id revocation that revokes a bridge: reason "unspecified",
/// with a note that the bridge is being removed.
pub open spec fn bridge_revocation_of(
    ca: PgpCertV,
    remote: PgpCertV,
    now: u64,
) -> RevocationSigV {
    RevocationSigV {
        issuer_fp: Some(ca.fingerprint),
        issuer_keyid: crate::pgp::keyid_of(ca.fingerprint),
        hard: false,
        reason: "removing bridge"@,
        created: now,
        userid: Some(remote.userids[0]),
    }
}

/// Revokes a bridge: builds a user-id revocation over the remote
/// certificate's single user id and returns both the signature and the
/// remote certificate with the revocation merged in.  Requires the remote
/// certificate to carry exactly one identity and the CA exactly one
/// certification-capable key.
pub fn bridge_revoke(ca_cert: &PgpCert, remote_ca: &PgpCert, now: u64) -> (r: Result<
    (RevocationSig, PgpCert),
    CaError,
>)
    ensures
        remote_ca@.userids.len() != 1 ==> r == Err::<(RevocationSig, PgpCert), CaError>(
            CaError::WrongIdentityCount,
        ),
        remote_ca@.userids.len() == 1 && cert_key_indices(ca_cert@).len() != 1
            ==> r == Err::<(RevocationSig, PgpCert), CaError>(CaError::NoCertificationKey),
        remote_ca@.userids.len() == 1 && cert_key_indices(ca_cert@).len() == 1 ==> r is Ok && {
            let sig = bridge_revocation_of(ca_cert@, remote_ca@, now);
            &&& r->Ok_0.0@ == sig
            &&& r->Ok_0.1@ == (PgpCertV {
                revocations: merge_seq(remote_ca@.revocations, seq![sig]),
                ..remote_ca@
            })
        },
{
    if remote_ca.userids.len() != 1 {
        return Err(CaError::WrongIdentityCount);
    }
    let keys = get_cert_keys(ca_cert);
    if keys.len() != 1 {
        proof {
            assert(keys@.map_values(|k: usize| k as int).len() == keys@.len());
        }
        return Err(CaError::NoCertificationKey);
    }
    proof {
        assert(keys@.map_values(|k: usize| k as int).len() == keys@.len());
        reveal_strlit("removing bridge");
    }
    let sig = RevocationSig {
        issuer_fp: Some(ca_cert.fingerprint.clone()),
        issuer_keyid: crate::pgp::keyid(&ca_cert.fingerprint),
        hard: false,
        reason: "removing bridge".to_owned(),
        created: now,
        userid: Some(remote_ca.userids[0].clone()),
    };
    proof {
        assert(sig@ =~= bridge_revocation_of(ca_cert@, remote_ca@, now));
    }
    let mut out = copy_pgp_cert(remote_ca);
    let sig2 = crate::model::copy_revocation_sig(&sig);
    let already = crate::storage::revs_contain(&out.revocations, &sig2);
    let ghost have = remote_ca@.revocations;
    let ghost s1 = seq![sig@];
    proof {
        assert(s1.skip(1) =~= Seq::<RevocationSigV>::empty());
        assert(merge_seq(have, s1.skip(1)) == have);
        assert(merge_seq(have.push(s1[0]), s1.skip(1)) == have.push(s1[0]));
        assert(merge_seq(have, s1) == if have.contains(s1[0]) {
            have
        } else {
            have.push(s1[0])
        });
    }
    if !already {
        out.revocations.push(sig2);
        proof {
            assert(out.revocations.deep_view() =~= have.push(s1[0]));
        }
    }
    proof {
        assert(out@ =~= (PgpCertV {
            revocations: merge_seq(remote_ca@.revocations, s1),
            ..remote_ca@
        }));
    }
    Ok((sig, out))
}

} // verus!
