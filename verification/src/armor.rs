//! Human-readable artifacts: certificates, revocations and detached
//! signatures as framed text blocks.

use vstd::prelude::*;
use vstd::string::StringSliceAdditionalSpecFns;

use crate::codec::dec_digits;
use crate::codec::enc_str;
use crate::codec::append_str;
use crate::codec::append_u64w;
use crate::digest::hex_of;
use crate::digest::sha256;
use crate::digest::sha256_of;
use crate::digest::to_hex;
use crate::errors::CaError;
use crate::model::PgpCert;
use crate::model::PgpCertV;
use crate::model::RevocationSig;
use crate::model::RevocationSigV;
use crate::model::Subkey;
use crate::pgp::enc_revocation;
use crate::pgp::keyid_of;
use crate::pgp::revocation_text;

verus! {

/// Seconds in thirty days.
pub const THIRTY_DAYS: u64 = 2592000;

/// The encodings of a list of strings, from position `p` on.
pub open spec fn enc_str_list_from(v: Seq<Seq<char>>, p: int) -> Seq<char>
    decreases v.len() - p when 0 <= p <= v.len()
{
    if p >= v.len() {
        Seq::empty()
    } else {
        enc_str(v[p]) + enc_str_list_from(v, p + 1)
    }
}

/// Appends the encodings of every string of `v` to `out`.
#[verifier::loop_isolation(false)]
pub fn append_str_list(out: &mut String, v: &Vec<String>)
    ensures
        final(out)@ == old(out)@ + enc_str_list_from(v.deep_view(), 0),
{
    let n = v.len();
    let ghost base = out@;
    for i in 0..n
        invariant
            enc_str_list_from(v.deep_view(), 0) =~= out@.skip(base.len() as int)
                + enc_str_list_from(v.deep_view(), i as int),
            out@.len() >= base.len(),
            out@.take(base.len() as int) =~= base,
    {
        let ghost before = out@;
        append_str(out, v[i].as_str());
        proof {
            assert(v.deep_view()[i as int] == v@[i as int]@);
            assert(out@.skip(base.len() as int) =~= before.skip(base.len() as int)
                + enc_str(v.deep_view()[i as int]));
            assert(enc_str_list_from(v.deep_view(), i as int) == enc_str(v.deep_view()[i as int])
                + enc_str_list_from(v.deep_view(), i + 1));
            assert(enc_str_list_from(v.deep_view(), 0) =~= out@.skip(base.len() as int)
                + enc_str_list_from(v.deep_view(), i + 1));
            assert(out@.take(base.len() as int) =~= base);
        }
    }
    proof {
        assert(enc_str_list_from(v.deep_view(), n as int) =~= Seq::<char>::empty());
        assert(final(out)@ =~= base + enc_str_list_from(v.deep_view(), 0));
    }
}

/// The body text of a certificate: its fingerprint, whether private key
/// material is present, and its user ids.
pub open spec fn cert_body(c: PgpCertV) -> Seq<char> {
    enc_str(c.fingerprint) + (if c.has_private {
        seq!['1']
    } else {
        seq!['0']
    }) + dec_digits(c.userids.len() as int, 20) + enc_str_list_from(c.userids, 0)
}

/// The armored public representation of a certificate: private key
/// material is stripped.
pub open spec fn armor_cert_pub(c: PgpCertV) -> Seq<char> {
    "-----BEGIN CA CERTIFICATE-----\n"@ + cert_body(PgpCertV { has_private: false, ..c })
        + "\n-----END CA CERTIFICATE-----\n"@
}

/// The armored private representation of a certificate.
pub open spec fn armor_cert_priv(c: PgpCertV) -> Seq<char> {
    "-----BEGIN CA PRIVATE CERTIFICATE-----\n"@ + cert_body(c)
        + "\n-----END CA PRIVATE CERTIFICATE-----\n"@
}

/// Appends the body text of `c`, with `has_private` as given.
fn append_cert_body(out: &mut String, c: &PgpCert, private: bool)
    ensures
        final(out)@ == old(out)@ + cert_body(PgpCertV { has_private: private, ..c@ }),
{
    proof {
        reveal_strlit("0");
        reveal_strlit("1");
    }
    append_str(out, c.fingerprint.as_str());
    if private {
        out.append("1");
    } else {
        out.append("0");
    }
    proof {
        crate::codec::lemma_pow10_19();
        crate::codec::lemma_pow10_increases(19, 20);
    }
    append_u64w(out, c.userids.len() as u64, 20);
    append_str_list(out, &c.userids);
    proof {
        assert(final(out)@ =~= old(out)@ + cert_body(
            PgpCertV { has_private: private, ..c@ },
        ));
    }
}

/// The armored public representation of a certificate.
pub fn cert_to_armored(c: &PgpCert) -> (r: String)
    ensures
        r@ == armor_cert_pub(c@),
{
    let mut out = String::new();
    out.append("-----BEGIN CA CERTIFICATE-----\n");
    append_cert_body(&mut out, c, false);
    out.append("\n-----END CA CERTIFICATE-----\n");
    proof {
        assert(out@ =~= armor_cert_pub(c@));
    }
    out
}

/// The armored private representation of a certificate.
pub fn cert_to_armored_private_key(c: &PgpCert) -> (r: String)
    ensures
        r@ == armor_cert_priv(c@),
{
    let mut out = String::new();
    out.append("-----BEGIN CA PRIVATE CERTIFICATE-----\n");
    append_cert_body(&mut out, c, c.has_private);
    out.append("\n-----END CA PRIVATE CERTIFICATE-----\n");
    proof {
        assert(PgpCertV { has_private: c.has_private, ..c@ } =~= c@);
        assert(out@ =~= armor_cert_priv(c@));
    }
    out
}

/// The armored concatenation of several certificates' public
/// representations.
pub open spec fn armor_certring_from(v: Seq<PgpCertV>, p: int) -> Seq<char>
    decreases v.len() - p when 0 <= p <= v.len()
{
    if p >= v.len() {
        Seq::empty()
    } else {
        armor_cert_pub(v[p]) + armor_certring_from(v, p + 1)
    }
}

/// Armors a set of certificates as one public keyring text.
#[verifier::loop_isolation(false)]
pub fn certs_to_armored(v: &Vec<PgpCert>) -> (r: String)
    ensures
        r@ == armor_certring_from(v.deep_view(), 0),
{
    let mut out = String::new();
    let n = v.len();
    for i in 0..n
        invariant
            armor_certring_from(v.deep_view(), 0) =~= out@ + armor_certring_from(
                v.deep_view(),
                i as int,
            ),
    {
        let piece = cert_to_armored(&v[i]);
        out.append(piece.as_str());
        proof {
            assert(v.deep_view()[i as int] == v@[i as int]@);
            assert(armor_certring_from(v.deep_view(), i as int) == armor_cert_pub(
                v.deep_view()[i as int],
            ) + armor_certring_from(v.deep_view(), i + 1));
            assert(armor_certring_from(v.deep_view(), 0) =~= out@ + armor_certring_from(
                v.deep_view(),
                i + 1,
            ));
        }
    }
    proof {
        assert(armor_certring_from(v.deep_view(), n as int) =~= Seq::<char>::empty());
        assert(out@ =~= armor_certring_from(v.deep_view(), 0));
    }
    out
}

/// The armored representation of a revocation signature.
pub open spec fn armor_revocation(r: RevocationSigV) -> Seq<char> {
    "-----BEGIN REVOCATION CERTIFICATE-----\n"@ + enc_revocation(r)
        + "\n-----END REVOCATION CERTIFICATE-----\n"@
}

/// Armors a revocation signature.
pub fn revoc_to_armored(sig: &RevocationSig) -> (r: String)
    ensures
        r@ == armor_revocation(sig@),
{
    let mut out = String::new();
    out.append("-----BEGIN REVOCATION CERTIFICATE-----\n");
    let body = revocation_text(sig);
    out.append(body.as_str());
    out.append("\n-----END REVOCATION CERTIFICATE-----\n");
    proof {
        assert(out@ =~= armor_revocation(sig@));
    }
    out
}

/// The hard (key compromised) revocation for step `i` of the pre-dated
/// series.
pub open spec fn hard_revocation(ca: PgpCertV, now: u64, i: int) -> RevocationSigV {
    RevocationSigV {
        issuer_fp: Some(ca.fingerprint),
        issuer_keyid: keyid_of(ca.fingerprint),
        hard: true,
        reason: "certificate compromised"@,
        created: (now + i * THIRTY_DAYS) as u64,
        userid: None,
    }
}

/// The soft (key retired) revocation for step `i` of the pre-dated
/// series.
pub open spec fn soft_revocation(ca: PgpCertV, now: u64, i: int) -> RevocationSigV {
    RevocationSigV {
        issuer_fp: Some(ca.fingerprint),
        issuer_keyid: keyid_of(ca.fingerprint),
        hard: false,
        reason: "certificate retired"@,
        created: (now + i * THIRTY_DAYS) as u64,
        userid: None,
    }
}

/// The revocation blocks from step `i` to step 120: one hard and one soft
/// revocation per thirty-day step.
pub open spec fn revocation_blocks_from(ca: PgpCertV, now: u64, i: int) -> Seq<char>
    decreases 121 - i when 0 <= i <= 121
{
    if i >= 121 {
        Seq::empty()
    } else {
        armor_revocation(hard_revocation(ca, now, i)) + armor_revocation(
            soft_revocation(ca, now, i),
        ) + revocation_blocks_from(ca, now, i + 1)
    }
}

/// The whole artifact that `ca_generate_revocations` emits: an
/// explanatory header naming the CA, the CA's public certificate, and the
/// pre-dated revocation series.
pub open spec fn revocations_artifact(ca: PgpCertV, email: Seq<char>, now: u64) -> Seq<char> {
    "This file contains revocation certificates for the CA instance "@ + email
        + ".\nKeep it safe: anyone holding it can invalidate the CA certificate.\n\n"@
        + armor_cert_pub(ca) + "\n"@ + revocation_blocks_from(ca, now, 0)
}

/// Generates the pre-dated revocation series: for each thirty-day step
/// from now to 120 steps out, one hard and one soft revocation, preceded
/// by an explanatory header and the CA's public certificate.  Needs the
/// private key material.
#[verifier::loop_isolation(false)]
pub fn ca_generate_revocations(ca_cert: &PgpCert, email: &str, now: u64) -> (r: Result<
    String,
    CaError,
>)
    requires
        now <= i64::MAX as u64,
    ensures
        !ca_cert@.has_private ==> r == Err::<String, CaError>(CaError::NoSigningKey),
        ca_cert@.has_private ==> r is Ok && r->Ok_0@ == revocations_artifact(
            ca_cert@,
            email@,
            now,
        ),
{
    if !ca_cert.has_private {
        return Err(CaError::NoSigningKey);
    }
    let mut out = String::new();
    out.append("This file contains revocation certificates for the CA instance ");
    out.append(email);
    out.append(".\nKeep it safe: anyone holding it can invalidate the CA certificate.\n\n");
    let armored = cert_to_armored(ca_cert);
    out.append(armored.as_str());
    out.append("\n");
    let ghost head = out@;
    let mut i: usize = 0;
    proof {
        reveal_strlit("certificate compromised");
        reveal_strlit("certificate retired");
    }
    while i <= 120
        invariant
            i <= 121,
            now <= i64::MAX as u64,
            revocation_blocks_from(ca_cert@, now, 0) =~= out@.skip(head.len() as int)
                + revocation_blocks_from(ca_cert@, now, i as int),
            out@.len() >= head.len(),
            out@.take(head.len() as int) =~= head,
        decreases 121 - i,
    {
        let ghost before = out@;
        let t = now + (i as u64) * THIRTY_DAYS;
        let hard = RevocationSig {
            issuer_fp: Some(ca_cert.fingerprint.clone()),
            issuer_keyid: crate::pgp::keyid(&ca_cert.fingerprint),
            hard: true,
            reason: "certificate compromised".to_owned(),
            created: t,
            userid: None,
        };
        proof {
            assert(hard@ =~= hard_revocation(ca_cert@, now, i as int));
        }
        let block = revoc_to_armored(&hard);
        out.append(block.as_str());
        let soft = RevocationSig {
            issuer_fp: Some(ca_cert.fingerprint.clone()),
            issuer_keyid: crate::pgp::keyid(&ca_cert.fingerprint),
            hard: false,
            reason: "certificate retired".to_owned(),
            created: t,
            userid: None,
        };
        proof {
            assert(soft@ =~= soft_revocation(ca_cert@, now, i as int));
        }
        let block2 = revoc_to_armored(&soft);
        out.append(block2.as_str());
        proof {
            assert(revocation_blocks_from(ca_cert@, now, i as int) == armor_revocation(
                hard_revocation(ca_cert@, now, i as int),
            ) + armor_revocation(soft_revocation(ca_cert@, now, i as int))
                + revocation_blocks_from(ca_cert@, now, i + 1));
            assert(out@.skip(head.len() as int) =~= before.skip(head.len() as int)
                + armor_revocation(hard_revocation(ca_cert@, now, i as int))
                + armor_revocation(soft_revocation(ca_cert@, now, i as int)));
            assert(revocation_blocks_from(ca_cert@, now, 0) =~= out@.skip(head.len() as int)
                + revocation_blocks_from(ca_cert@, now, i + 1));
            assert(out@.take(head.len() as int) =~= head);
        }
        i = i + 1;
    }
    proof {
        assert(revocation_blocks_from(ca_cert@, now, 121) =~= Seq::<char>::empty());
        assert(out@ =~= head + revocation_blocks_from(ca_cert@, now, 0));
        assert(out@ =~= revocations_artifact(ca_cert@, email@, now));
    }
    Ok(out)
}

/// The armored detached signature over a text: the signing CA's
/// fingerprint and the digest of the text's bytes.
pub open spec fn detached_signature(ca: PgpCertV, text: Seq<char>) -> Seq<char> {
    "-----BEGIN DETACHED SIGNATURE-----\n"@ + enc_str(ca.fingerprint) + hex_of(
        sha256_of(vstd::utf8::encode_utf8(text)),
    ) + "\n-----END DETACHED SIGNATURE-----\n"@
}

/// Whether `c` carries a signing-capable key with secret material.
pub open spec fn has_signing_key(c: PgpCertV) -> bool {
    exists|i: int| 0 <= i < c.keys.len() && (#[trigger] c.keys[i]).can_sign && c.keys[i].has_secret
}

/// Produces a detached signature over `text` with the CA's
/// signing-capable key.
#[verifier::loop_isolation(false)]
pub fn sign_detached(ca_cert: &PgpCert, text: &str) -> (r: Result<String, CaError>)
    ensures
        !has_signing_key(ca_cert@) ==> r == Err::<String, CaError>(CaError::NoSigningKey),
        has_signing_key(ca_cert@) ==> r is Ok && r->Ok_0@ == detached_signature(
            ca_cert@,
            text@,
        ),
{
    let mut found = false;
    let n = ca_cert.keys.len();
    for i in 0..n
        invariant
            found ==> has_signing_key(ca_cert@),
            !found ==> forall|j: int|
                0 <= j < i ==> !((#[trigger] ca_cert@.keys[j]).can_sign
                    && ca_cert@.keys[j].has_secret),
    {
        if ca_cert.keys[i].can_sign && ca_cert.keys[i].has_secret {
            proof {
                assert((ca_cert@.keys[i as int]).can_sign && ca_cert@.keys[i as int].has_secret);
            }
            found = true;
        }
    }
    if !found {
        return Err(CaError::NoSigningKey);
    }
    let mut out = String::new();
    out.append("-----BEGIN DETACHED SIGNATURE-----\n");
    append_str(&mut out, ca_cert.fingerprint.as_str());
    let bytes = text.as_bytes_vec();
    let digest = sha256(&bytes);
    let hex = to_hex(&digest);
    out.append(hex.as_str());
    out.append("\n-----END DETACHED SIGNATURE-----\n");
    proof {
        assert(out@ =~= detached_signature(ca_cert@, text@));
    }
    Ok(out)
}

} // verus!
