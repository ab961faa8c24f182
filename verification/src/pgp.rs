//! Certificate helpers: identities, key ids, hashes and trust signatures.

use vstd::prelude::*;
use vstd::string::StringSliceAdditionalSpecFns;

use crate::codec::dec_digits;
use crate::codec::enc_str;
use crate::digest::hex_of;
use crate::digest::sha256;
use crate::digest::sha256_of;
use crate::digest::to_hex;
use crate::errors::CaError;
use crate::model::PgpCert;
use crate::model::PgpCertV;
use crate::model::RevocationSig;
use crate::model::RevocationSigV;
use crate::model::Subkey;
use crate::model::TrustSignature;
use crate::model::TrustSignatureV;
use crate::model::copy_pgp_cert;
use crate::model::copy_tsigs;
use crate::model::merge_seq;
use crate::model::merge_tsigs;
use crate::model::opt_view;
use crate::secret::cert_key_indices;
use crate::secret::tsig_of;

verus! {

/// The key id belonging to a fingerprint: its low sixteen characters (the
/// whole fingerprint when it is shorter).
pub open spec fn keyid_of(fp: Seq<char>) -> Seq<char> {
    if fp.len() <= 16 {
        fp
    } else {
        fp.skip(fp.len() - 16)
    }
}

/// The key id belonging to a fingerprint.
pub fn keyid(fp: &String) -> (r: String)
    ensures
        r@ == keyid_of(fp@),
{
    let n = fp.as_str().unicode_len();
    if n <= 16 {
        let r = fp.clone();
        proof {
            assert(r@ =~= keyid_of(fp@));
        }
        r
    } else {
        let r = fp.as_str().substring_char(n - 16, n).to_owned();
        proof {
            assert(r@ =~= keyid_of(fp@));
        }
        r
    }
}

/// A user id built from an email and an optional display name:
/// `name <email>`, or `<email>` without a name.
pub open spec fn user_id_of(email: Seq<char>, name: Option<Seq<char>>) -> Seq<char> {
    match name {
        Some(n) => n + " <"@ + email + ">"@,
        None => "<"@ + email + ">"@,
    }
}

/// Builds a user id from an email and an optional display name.
pub fn user_id(email: &str, name: Option<&str>) -> (r: String)
    ensures
        r@ == user_id_of(email@, match name {
            Some(n) => Some(n@),
            None => None,
        }),
{
    let mut r = String::new();
    match name {
        Some(n) => {
            r.append(n);
            r.append(" <");
            r.append(email);
            r.append(">");
            proof {
                assert(r@ =~= user_id_of(email@, Some(n@)));
            }
        },
        None => {
            r.append("<");
            r.append(email);
            r.append(">");
            proof {
                assert(r@ =~= user_id_of(email@, None));
            }
        },
    }
    r
}

/// A CA user id: the display name defaults to "OpenPGP CA".
pub fn ca_user_id(email: &str, name: Option<&str>) -> (r: String)
    ensures
        r@ == user_id_of(email@, match name {
            Some(n) => Some(n@),
            None => Some("OpenPGP CA"@),
        }),
{
    match name {
        Some(n) => user_id(email, Some(n)),
        None => user_id(email, Some("OpenPGP CA")),
    }
}

/// The first position of `c` in `s` at or after `from`; `-1` if there is
/// none.
pub open spec fn find_char(s: Seq<char>, c: char, from: int) -> int
    decreases s.len() - from when 0 <= from <= s.len()
{
    if from >= s.len() {
        -1
    } else if s[from] == c {
        from
    } else {
        find_char(s, c, from + 1)
    }
}

/// Finds the first position of `c` in `s` at or after `from`.
pub fn find_char_at(s: &str, c: char, from: usize) -> (r: Option<usize>)
    requires
        from <= s@.len(),
    ensures
        match r {
            Some(i) => from <= i < s@.len() && find_char(s@, c, from as int) == i as int,
            None => find_char(s@, c, from as int) == -1,
        },
{
    let n = s.unicode_len();
    let mut i: usize = from;
    while i < n
        invariant
            from <= i <= n,
            n == s@.len(),
            find_char(s@, c, from as int) == find_char(s@, c, i as int),
        decreases n - i,
    {
        if s.get_char(i) == c {
            return Some(i);
        }
        i = i + 1;
    }
    None
}

/// The email inside a user id: the characters between the first `<` and
/// the first following `>`, if both exist.
pub open spec fn email_of_uid(uid: Seq<char>) -> Option<Seq<char>> {
    let a = find_char(uid, '<', 0);
    if a < 0 {
        None
    } else {
        let b = find_char(uid, '>', a + 1);
        if b < 0 {
            None
        } else {
            Some(uid.subrange(a + 1, b))
        }
    }
}

/// Extracts the email from a user id.
pub fn uid_email(uid: &str) -> (r: Option<String>)
    ensures
        opt_view(r) == email_of_uid(uid@),
{
    let n = uid.unicode_len();
    let a = match find_char_at(uid, '<', 0) {
        Some(a) => a,
        None => {
            return None;
        },
    };
    let b = match find_char_at(uid, '>', a + 1) {
        Some(b) => b,
        None => {
            return None;
        },
    };
    Some(uid.substring_char(a + 1, b).to_owned())
}

/// The domain of an email address holding exactly one `@`.
pub open spec fn domain_of_email(e: Seq<char>) -> Option<Seq<char>> {
    let a = find_char(e, '@', 0);
    if a < 0 {
        None
    } else if find_char(e, '@', a + 1) >= 0 {
        None
    } else {
        Some(e.skip(a + 1))
    }
}

/// Extracts the domain from an email address; rejects addresses without
/// exactly one `@`.
pub fn email_domain(e: &str) -> (r: Option<String>)
    ensures
        opt_view(r) == domain_of_email(e@),
{
    let n0 = e.unicode_len();
    let a = match find_char_at(e, '@', 0) {
        Some(a) => a,
        None => {
            return None;
        },
    };
    match find_char_at(e, '@', a + 1) {
        Some(_) => None,
        None => {
            let n = e.unicode_len();
            let r = e.substring_char(a + 1, n).to_owned();
            proof {
                assert(r@ =~= e@.skip(a as int + 1));
            }
            Some(r)
        },
    }
}

/// The local part of an email address holding at least one `@`.
pub open spec fn localpart_of_email(e: Seq<char>) -> Option<Seq<char>> {
    let a = find_char(e, '@', 0);
    if a < 0 {
        None
    } else {
        Some(e.take(a))
    }
}

/// Extracts the local part from an email address.
pub fn email_localpart(e: &str) -> (r: Option<String>)
    ensures
        opt_view(r) == localpart_of_email(e@),
{
    match find_char_at(e, '@', 0) {
        Some(a) => {
            let r = e.substring_char(0, a).to_owned();
            proof {
                assert(r@ =~= e@.take(a as int));
            }
            Some(r)
        },
        None => None,
    }
}

/// Whether any user id of `c` carries an email in `domain`.
pub open spec fn has_uid_in_domain(c: PgpCertV, domain: Seq<char>) -> bool {
    exists|i: int|
        0 <= i < c.userids.len() && match email_of_uid(#[trigger] c.userids[i]) {
            Some(e) => domain_of_email(e) == Some(domain),
            None => false,
        }
}

/// Decides whether any user id of `c` uses an email address in `domain`.
#[verifier::loop_isolation(false)]
pub fn cert_has_uid_in_domain(c: &PgpCert, domain: &str) -> (r: bool)
    ensures
        r == has_uid_in_domain(c@, domain@),
{
    let n = c.userids.len();
    for i in 0..n
        invariant
            forall|j: int| 0 <= j < i ==> match email_of_uid(#[trigger] c@.userids[j]) {
                Some(e) => domain_of_email(e) != Some(domain@),
                None => true,
            },
    {
        if let Some(e) = uid_email(c.userids[i].as_str()) {
            if let Some(d) = email_domain(e.as_str()) {
                if crate::strings::str_eq(d.as_str(), domain) {
                    proof {
                        assert(email_of_uid(c@.userids[i as int]) == Some(e@));
                        assert(domain_of_email(e@) == Some(domain@));
                    }
                    return true;
                }
            }
        }
    }
    false
}

/// The encoding of an optional string: `N`, or `S` and the string.
pub open spec fn enc_opt_str(o: Option<Seq<char>>) -> Seq<char> {
    match o {
        None => seq!['N'],
        Some(t) => seq!['S'] + enc_str(t),
    }
}

/// The canonical text of a revocation signature, hashed for its stable
/// identifier.
pub open spec fn enc_revocation(r: RevocationSigV) -> Seq<char> {
    enc_opt_str(r.issuer_fp) + enc_str(r.issuer_keyid) + (if r.hard {
        seq!['1']
    } else {
        seq!['0']
    }) + enc_str(r.reason) + dec_digits(r.created as int, 20) + enc_opt_str(r.userid)
}

/// Writes the canonical text of a revocation signature.
pub fn revocation_text(r: &RevocationSig) -> (t: String)
    ensures
        t@ == enc_revocation(r@),
{
    let mut out = String::new();
    proof {
        reveal_strlit("N");
        reveal_strlit("S");
        reveal_strlit("0");
        reveal_strlit("1");
    }
    match &r.issuer_fp {
        None => out.append("N"),
        Some(fp) => {
            out.append("S");
            crate::codec::append_str(&mut out, fp.as_str());
        },
    }
    crate::codec::append_str(&mut out, r.issuer_keyid.as_str());
    if r.hard {
        out.append("1");
    } else {
        out.append("0");
    }
    crate::codec::append_str(&mut out, r.reason.as_str());
    proof {
        crate::codec::lemma_pow10_19();
        crate::codec::lemma_pow10_increases(19, 20);
    }
    crate::codec::append_u64w(&mut out, r.created, 20);
    match &r.userid {
        None => out.append("N"),
        Some(u) => {
            out.append("S");
            crate::codec::append_str(&mut out, u.as_str());
        },
    }
    proof {
        assert(out@ =~= enc_revocation(r@));
    }
    out
}

/// The stable identifier of a revocation: sixteen hex characters of the
/// digest of its canonical text.
pub open spec fn revocation_hash_of(r: RevocationSigV) -> Seq<char> {
    hex_of(sha256_of(vstd::utf8::encode_utf8(enc_revocation(r))).take(8))
}

/// Computes the stable identifier of a revocation signature.
pub fn revocation_to_hash(r: &RevocationSig) -> (h: String)
    ensures
        h@ == revocation_hash_of(r@),
{
    let text = revocation_text(r);
    let bytes = text.as_str().as_bytes_vec();
    let digest = sha256(&bytes);
    let mut short: Vec<u8> = Vec::new();
    for i in 0..8
        invariant
            digest@.len() == 32,
            short@ =~= digest@.take(i as int),
    {
        short.push(digest[i]);
        assert(short@ =~= digest@.take(i + 1));
    }
    to_hex(&short)
}

/// The expiration time of the certificate's primary key.
pub fn get_expiry(cert: &PgpCert) -> (r: Option<u64>)
    ensures
        r == cert@.key_expiry,
{
    cert.key_expiry
}

/// Whether the certificate carries any key revocation.
#[verifier::loop_isolation(false)]
pub fn is_possibly_revoked(cert: &PgpCert) -> (r: bool)
    ensures
        r == exists|i: int|
            0 <= i < cert@.revocations.len() && cert@.revocations[i].userid is None,
{
    let n = cert.revocations.len();
    for i in 0..n
        invariant
            forall|j: int| 0 <= j < i ==> !(cert@.revocations[j].userid is None),
    {
        if cert.revocations[i].userid.is_none() {
            assert(cert@.revocations[i as int].userid is None);
            return true;
        }
    }
    false
}

/// The issuer fingerprint named by a revocation signature, if any.
pub fn get_revoc_issuer_fp(sig: &RevocationSig) -> (r: Option<String>)
    ensures
        opt_view(r) == sig@.issuer_fp,
{
    crate::model::copy_opt_string(&sig.issuer_fp)
}

/// All trust signatures on user ids of `c`.
pub fn get_trust_sigs(c: &PgpCert) -> (r: Vec<TrustSignature>)
    ensures
        r.deep_view() == c@.tsigs,
{
    copy_tsigs(&c.tsigs)
}

/// The trust signatures placed on each user id of `signee` by the
/// certification-capable keys of `signer`, unscoped.
pub open spec fn tsign_sigs_from(signee: PgpCertV, signer: PgpCertV, p: int) -> Seq<
    TrustSignatureV,
>
    decreases signee.userids.len() - p when 0 <= p <= signee.userids.len()
{
    if p >= signee.userids.len() {
        Seq::empty()
    } else {
        crate::secret::tsigs_for(
            signer,
            cert_key_indices(signer),
            signee.userids[p],
            Seq::empty(),
        ) + tsign_sigs_from(signee, signer, p + 1)
    }
}

/// `signee` with a trust signature from every certification-capable key
/// of `signer` on every user id.
pub open spec fn tsigned_cert(signee: PgpCertV, signer: PgpCertV) -> PgpCertV {
    PgpCertV { tsigs: merge_seq(signee.tsigs, tsign_sigs_from(signee, signer, 0)), ..signee }
}

/// `signer` places a trust signature on every user id of `signee`.  Fails
/// if the signer has no certification-capable key with secret material.
#[verifier::loop_isolation(false)]
pub fn tsign(signee: &PgpCert, signer: &PgpCert) -> (r: Result<PgpCert, CaError>)
    ensures
        cert_key_indices(signer@).len() == 0 ==> r == Err::<PgpCert, CaError>(
            CaError::NoCertificationKey,
        ),
        cert_key_indices(signer@).len() > 0 ==> r is Ok && r->Ok_0@ == tsigned_cert(
            signee@,
            signer@,
        ),
{
    let keys = crate::secret::get_cert_keys(signer);
    proof {
        assert(keys@.map_values(|k: usize| k as int).len() == keys@.len());
    }
    if keys.len() == 0 {
        return Err(CaError::NoCertificationKey);
    }
    let ghost keyseq = cert_key_indices(signer@);
    let mut sigs: Vec<TrustSignature> = Vec::new();
    let n = signee.userids.len();
    for i in 0..n
        invariant
            tsign_sigs_from(signee@, signer@, 0) =~= sigs.deep_view() + tsign_sigs_from(
                signee@,
                signer@,
                i as int,
            ),
    {
        let ghost base = sigs.deep_view();
        let m = keys.len();
        for j in 0..m
            invariant
                sigs@.len() == base.len() + j,
                forall|l: int| 0 <= l < base.len() ==> #[trigger] sigs.deep_view()[l] == base[l],
                forall|l: int| base.len() <= l < base.len() + j
                    ==> #[trigger] sigs.deep_view()[l]
                    == tsig_of(
                    signer@,
                    keyseq[l - base.len()],
                    signee@.userids[i as int],
                    Seq::empty(),
                ),
        {
            let t = TrustSignature {
                issuer_fp: signer.fingerprint.clone(),
                userid: signee.userids[i].clone(),
                depth: crate::secret::BRIDGE_TRUST_DEPTH,
                amount: crate::secret::BRIDGE_TRUST_AMOUNT,
                scope_regexes: Vec::new(),
            };
            proof {
                assert(keys@.map_values(|k: usize| k as int)[j as int] == keyseq[j as int]);
                assert(t@ =~= tsig_of(
                    signer@,
                    keyseq[j as int],
                    signee@.userids[i as int],
                    Seq::empty(),
                ));
            }
            let ghost pre = sigs;
            sigs.push(t);
            proof {
                assert(sigs@ == pre@.push(t));
                assert forall|l: int| 0 <= l < pre@.len()
                    implies #[trigger] sigs.deep_view()[l] == pre.deep_view()[l] by {
                    assert(sigs@[l] == pre@[l]);
                }
                assert(sigs.deep_view()[pre@.len() as int] == t@);
            }
        }
        proof {
            assert(sigs.deep_view() =~= base + crate::secret::tsigs_for(
                signer@,
                keyseq,
                signee@.userids[i as int],
                Seq::empty(),
            ));
            assert(tsign_sigs_from(signee@, signer@, i as int) == crate::secret::tsigs_for(
                signer@,
                keyseq,
                signee@.userids[i as int],
                Seq::empty(),
            ) + tsign_sigs_from(signee@, signer@, i + 1));
            assert(tsign_sigs_from(signee@, signer@, 0) =~= sigs.deep_view() + tsign_sigs_from(
                signee@,
                signer@,
                i + 1,
            ));
        }
    }
    proof {
        assert(tsign_sigs_from(signee@, signer@, n as int) =~= Seq::<TrustSignatureV>::empty());
        assert(sigs.deep_view() =~= tsign_sigs_from(signee@, signer@, 0));
    }
    let mut out = copy_pgp_cert(signee);
    merge_tsigs(&mut out, &sigs);
    proof {
        assert(out@ =~= tsigned_cert(signee@, signer@));
    }
    Ok(out)
}

/// The view of an optional borrowed string.
pub open spec fn opt_str_view(o: Option<&str>) -> Option<Seq<char>> {
    match o {
        Some(s) => Some(s@),
        None => None,
    }
}

/// The fingerprint derived for a newly generated key: forty hex
/// characters of the digest of the generation seed and time.
pub open spec fn fingerprint_of(seed: Seq<char>, now: u64) -> Seq<char> {
    hex_of(sha256_of(vstd::utf8::encode_utf8(seed + dec_digits(now as int, 20))).take(20))
}

/// Derives the fingerprint for a newly generated key.
pub fn make_fingerprint(seed: &str, now: u64) -> (r: String)
    ensures
        r@ == fingerprint_of(seed@, now),
{
    let mut text = seed.to_owned();
    proof {
        crate::codec::lemma_pow10_19();
        crate::codec::lemma_pow10_increases(19, 20);
    }
    crate::codec::append_u64w(&mut text, now, 20);
    let bytes = text.as_str().as_bytes_vec();
    let digest = sha256(&bytes);
    let mut short: Vec<u8> = Vec::new();
    for i in 0..20
        invariant
            digest@.len() == 32,
            short@ =~= digest@.take(i as int),
    {
        short.push(digest[i]);
        assert(short@ =~= digest@.take(i + 1));
    }
    to_hex(&short)
}

/// Relies on chbs's passphrase generation: a random diceware phrase.
/// Nothing can be promised of the value.
#[verifier::external_body]
fn diceware() -> String {
    let config = chbs::config::BasicConfig {
        capitalize_first: chbs::probability::Probability::Never,
        capitalize_words: chbs::probability::Probability::Never,
        ..Default::default()
    };
    chbs::scheme::ToScheme::to_scheme(&config).generate()
}

/// The CA certificate that initialization generates: one
/// certification-capable primary key and one signing subkey, both with
/// secret material, a single CA user id, and a domain notation.
pub open spec fn make_ca_cert_spec(
    domain: Seq<char>,
    name: Option<Seq<char>>,
    now: u64,
) -> PgpCertV {
    PgpCertV {
        fingerprint: fingerprint_of(domain, now),
        keys: seq![
            Subkey {
                can_certify: true,
                can_sign: false,
                can_encrypt: false,
                can_authenticate: false,
                has_secret: true,
            },
            Subkey {
                can_certify: false,
                can_sign: true,
                can_encrypt: false,
                can_authenticate: false,
                has_secret: true,
            },
        ],
        userids: seq![
            user_id_of("openpgp-ca@"@ + domain, match name {
                Some(n) => Some(n),
                None => Some("OpenPGP CA"@),
            }),
        ],
        key_expiry: None,
        notations: seq!["domain="@ + domain],
        certifications: Seq::empty(),
        tsigs: Seq::empty(),
        revocations: Seq::empty(),
        has_private: true,
    }
}

/// The standard revocation generated alongside a fresh key.
pub open spec fn fresh_key_revocation(fp: Seq<char>, now: u64) -> RevocationSigV {
    RevocationSigV {
        issuer_fp: Some(fp),
        issuer_keyid: keyid_of(fp),
        hard: false,
        reason: "unspecified"@,
        created: now,
        userid: None,
    }
}

/// Generates a new CA key for `domain` (and a revocation for it).  The
/// CA's user id uses the localpart `openpgp-ca`; `name` defaults to
/// "OpenPGP CA".
pub fn make_ca_cert(domain: &str, name: Option<&str>, now: u64) -> (r: (PgpCert, RevocationSig))
    ensures
        r.0@ == make_ca_cert_spec(domain@, opt_str_view(name), now),
        r.1@ == fresh_key_revocation(
            make_ca_cert_spec(domain@, opt_str_view(name), now).fingerprint,
            now,
        ),
{
    let fp = make_fingerprint(domain, now);
    let mut email = String::new();
    email.append("openpgp-ca@");
    email.append(domain);
    let uid = ca_user_id(email.as_str(), name);
    let mut notation = String::new();
    notation.append("domain=");
    notation.append(domain);
    let mut keys: Vec<Subkey> = Vec::new();
    keys.push(
        Subkey {
            can_certify: true,
            can_sign: false,
            can_encrypt: false,
            can_authenticate: false,
            has_secret: true,
        },
    );
    keys.push(
        Subkey {
            can_certify: false,
            can_sign: true,
            can_encrypt: false,
            can_authenticate: false,
            has_secret: true,
        },
    );
    let mut userids: Vec<String> = Vec::new();
    userids.push(uid);
    let mut notations: Vec<String> = Vec::new();
    notations.push(notation);
    let revocation = RevocationSig {
        issuer_fp: Some(fp.clone()),
        issuer_keyid: keyid(&fp),
        hard: false,
        reason: "unspecified".to_owned(),
        created: now,
        userid: None,
    };
    let cert = PgpCert {
        fingerprint: fp,
        keys,
        userids,
        key_expiry: None,
        notations,
        certifications: Vec::new(),
        tsigs: Vec::new(),
        revocations: Vec::new(),
        has_private: true,
    };
    proof {
        reveal_strlit("unspecified");
        let namev = opt_str_view(name);
        assert(cert@ =~= make_ca_cert_spec(domain@, namev, now));
        assert(revocation@ =~= fresh_key_revocation(cert@.fingerprint, now));
    }
    (cert, revocation)
}

/// The user ids generated for a set of emails.
pub open spec fn user_ids_of(emails: Seq<Seq<char>>, name: Option<Seq<char>>) -> Seq<Seq<char>> {
    emails.map_values(|e: Seq<char>| user_id_of(e, name))
}

/// The user certificate that the centralized workflow generates: one user
/// id per email, a certification-capable primary key with secret
/// material, and the requested subkeys.
pub open spec fn make_user_cert_spec(
    emails: Seq<Seq<char>>,
    name: Option<Seq<char>>,
    now: u64,
    enable_encryption: bool,
    enable_signing: bool,
    enable_authentication: bool,
) -> PgpCertV {
    PgpCertV {
        fingerprint: fingerprint_of(crate::armor::enc_str_list_from(emails, 0), now),
        keys: seq![
            Subkey {
                can_certify: true,
                can_sign: false,
                can_encrypt: false,
                can_authenticate: false,
                has_secret: true,
            },
        ] + (if enable_encryption {
            seq![
                Subkey {
                    can_certify: false,
                    can_sign: false,
                    can_encrypt: true,
                    can_authenticate: false,
                    has_secret: true,
                },
            ]
        } else {
            Seq::empty()
        }) + (if enable_signing {
            seq![
                Subkey {
                    can_certify: false,
                    can_sign: true,
                    can_encrypt: false,
                    can_authenticate: false,
                    has_secret: true,
                },
            ]
        } else {
            Seq::empty()
        }) + (if enable_authentication {
            seq![
                Subkey {
                    can_certify: false,
                    can_sign: false,
                    can_encrypt: false,
                    can_authenticate: true,
                    has_secret: true,
                },
            ]
        } else {
            Seq::empty()
        }),
        userids: user_ids_of(emails, name),
        key_expiry: None,
        notations: Seq::empty(),
        certifications: Seq::empty(),
        tsigs: Seq::empty(),
        revocations: Seq::empty(),
        has_private: true,
    }
}

/// Generates a user certificate with a user id for each email, plus a
/// revocation for it.  With `password` set, a generated diceware
/// passphrase protects the key and is returned.
#[verifier::loop_isolation(false)]
pub fn make_user_cert(
    emails: &Vec<String>,
    name: Option<&str>,
    password: bool,
    enable_encryption: bool,
    enable_signing: bool,
    enable_authentication: bool,
    now: u64,
) -> (r: (PgpCert, RevocationSig, Option<String>))
    ensures
        r.0@ == make_user_cert_spec(
            emails.deep_view(),
            opt_str_view(name),
            now,
            enable_encryption,
            enable_signing,
            enable_authentication,
        ),
        r.1@ == fresh_key_revocation(r.0@.fingerprint, now),
        r.2 is Some <==> password,
{
    let mut seed = String::new();
    crate::armor::append_str_list(&mut seed, emails);
    let fp = make_fingerprint(seed.as_str(), now);
    let mut keys: Vec<Subkey> = Vec::new();
    keys.push(
        Subkey {
            can_certify: true,
            can_sign: false,
            can_encrypt: false,
            can_authenticate: false,
            has_secret: true,
        },
    );
    if enable_encryption {
        keys.push(
            Subkey {
                can_certify: false,
                can_sign: false,
                can_encrypt: true,
                can_authenticate: false,
                has_secret: true,
            },
        );
    }
    if enable_signing {
        keys.push(
            Subkey {
                can_certify: false,
                can_sign: true,
                can_encrypt: false,
                can_authenticate: false,
                has_secret: true,
            },
        );
    }
    if enable_authentication {
        keys.push(
            Subkey {
                can_certify: false,
                can_sign: false,
                can_encrypt: false,
                can_authenticate: true,
                has_secret: true,
            },
        );
    }
    let mut userids: Vec<String> = Vec::new();
    let n = emails.len();
    let ghost namev = opt_str_view(name);
    for i in 0..n
        invariant
            userids@.len() == i,
            forall|j: int| 0 <= j < i ==> #[trigger] userids.deep_view()[j] == user_id_of(
                emails.deep_view()[j],
                namev,
            ),
    {
        let u = user_id(emails[i].as_str(), name);
        let ghost pre = userids;
        userids.push(u);
        proof {
            assert forall|l: int| 0 <= l < pre@.len()
                implies #[trigger] userids.deep_view()[l] == pre.deep_view()[l] by {
                assert(userids@[l] == pre@[l]);
            }
            assert(userids.deep_view()[pre@.len() as int] == user_id_of(
                emails.deep_view()[i as int],
                namev,
            ));
        }
    }
    let pass = if password {
        Some(diceware())
    } else {
        None
    };
    let revocation = RevocationSig {
        issuer_fp: Some(fp.clone()),
        issuer_keyid: keyid(&fp),
        hard: false,
        reason: "unspecified".to_owned(),
        created: now,
        userid: None,
    };
    let cert = PgpCert {
        fingerprint: fp,
        keys,
        userids,
        key_expiry: None,
        notations: Vec::new(),
        certifications: Vec::new(),
        tsigs: Vec::new(),
        revocations: Vec::new(),
        has_private: true,
    };
    proof {
        reveal_strlit("unspecified");
        assert(cert@.userids =~= user_ids_of(emails.deep_view(), namev));
        assert(cert@ =~= make_user_cert_spec(
            emails.deep_view(),
            namev,
            now,
            enable_encryption,
            enable_signing,
            enable_authentication,
        ));
        assert(revocation@ =~= fresh_key_revocation(cert@.fingerprint, now));
    }
    (cert, revocation, pass)
}

/// The user ids of `uids` whose email is one of `emails`.
pub open spec fn uids_with_email_in(
    uids: Seq<Seq<char>>,
    emails: Seq<Seq<char>>,
) -> Seq<Seq<char>> {
    uids.filter(|u: Seq<char>| match email_of_uid(u) {
        Some(e) => emails.contains(e),
        None => false,
    })
}

/// Certifies the user ids of `user_cert` whose email is in `emails`.
#[verifier::loop_isolation(false)]
pub fn sign_user_emails(
    ca_cert: &PgpCert,
    user_cert: &PgpCert,
    emails: &Vec<String>,
) -> (r: Result<PgpCert, CaError>)
    ensures
        ca_cert@.userids.len() == 0 ==> r == Err::<PgpCert, CaError>(CaError::NoCaUserId),
        ca_cert@.userids.len() > 0 ==> r is Ok && r->Ok_0@ == crate::secret::signed_cert(
            ca_cert@,
            user_cert@,
            uids_with_email_in(user_cert@.userids, emails.deep_view()),
            None,
        ),
{
    let ghost uv = user_cert@.userids;
    let ghost ev = emails.deep_view();
    let mut uids: Vec<String> = Vec::new();
    let n = user_cert.userids.len();
    proof {
        assert(uv.take(0).filter(|u: Seq<char>| match email_of_uid(u) {
            Some(e) => ev.contains(e),
            None => false,
        }) =~= Seq::<Seq<char>>::empty());
    }
    for i in 0..n
        invariant
            uids.deep_view() =~= uv.take(i as int).filter(
                |u: Seq<char>| match email_of_uid(u) {
                    Some(e) => ev.contains(e),
                    None => false,
                },
            ),
    {
        proof {
            reveal_with_fuel(Seq::filter, 2);
            assert(uv.take(i + 1).drop_last() =~= uv.take(i as int));
            assert(uv.take(i + 1).last() == uv[i as int]);
        }
        let keep = match uid_email(user_cert.userids[i].as_str()) {
            Some(e) => crate::strings::contains_string(emails, e.as_str()),
            None => false,
        };
        if keep {
            let ghost pre = uids;
            uids.push(user_cert.userids[i].clone());
            proof {
                assert forall|l: int| 0 <= l < pre@.len()
                    implies #[trigger] uids.deep_view()[l] == pre.deep_view()[l] by {
                    assert(uids@[l] == pre@[l]);
                }
                assert(uids.deep_view()[pre@.len() as int] == uv[i as int]);
                assert(uids.deep_view() =~= pre.deep_view().push(uv[i as int]));
            }
        }
    }
    proof {
        assert(uv.take(n as int) =~= uv);
        assert(uids.deep_view() =~= uids_with_email_in(user_cert@.userids, emails.deep_view()));
    }
    crate::secret::sign_user_ids(ca_cert, user_cert, &uids, None)
}

/// The supported key generation cipher suites.
#[derive(Clone, Copy, PartialEq, Eq, Structural, Debug)]
pub enum CipherSuite {
    Cv25519,
    RSA3k,
    P256,
    P384,
    P521,
    RSA2k,
    RSA4k,
}

/// Whether two strings are equal up to ASCII case.
#[verifier::loop_isolation(false)]
fn ascii_eq_ignore_case(a: &str, b: &str) -> (r: bool)
{
    let n = a.unicode_len();
    let m = b.unicode_len();
    if n != m {
        return false;
    }
    for i in 0..n
    {
        let x = a.get_char(i) as u32;
        let y = b.get_char(i) as u32;
        let xl = if 65 <= x && x <= 90 { x + 32 } else { x };
        let yl = if 65 <= y && y <= 90 { y + 32 } else { y };
        if xl != yl {
            return false;
        }
    }
    true
}

impl core::str::FromStr for CipherSuite {
    type Err = CaError;

    fn from_str(s: &str) -> Result<CipherSuite, CaError> {
        if ascii_eq_ignore_case(s, "cv25519") {
            Ok(CipherSuite::Cv25519)
        } else if ascii_eq_ignore_case(s, "rsa3k") {
            Ok(CipherSuite::RSA3k)
        } else if ascii_eq_ignore_case(s, "p256") {
            Ok(CipherSuite::P256)
        } else if ascii_eq_ignore_case(s, "p384") {
            Ok(CipherSuite::P384)
        } else if ascii_eq_ignore_case(s, "p521") {
            Ok(CipherSuite::P521)
        } else if ascii_eq_ignore_case(s, "rsa2k") {
            Ok(CipherSuite::RSA2k)
        } else if ascii_eq_ignore_case(s, "rsa4k") {
            Ok(CipherSuite::RSA4k)
        } else {
            Err(CaError::BadInput)
        }
    }
}

/// Certificate helpers, grouped.
pub struct Pgp {}

impl Pgp {
    /// Seconds in one day.
    pub fn seconds_in_day() -> (r: u64)
        ensures
            r == 86400,
    {
        86400
    }
}

/// Merges the trust signatures of `import` into `ca_cert`.  The imported
/// certificate must carry the CA's own fingerprint.
pub fn merge_in_tsigs(ca_cert: &PgpCert, import: &PgpCert) -> (r: Result<PgpCert, CaError>)
    ensures
        ca_cert@.fingerprint != import@.fingerprint ==> r == Err::<PgpCert, CaError>(
            CaError::FingerprintMismatch {
                expected_fp: ca_cert.fingerprint,
                actual_fp: import.fingerprint,
            },
        ),
        ca_cert@.fingerprint == import@.fingerprint ==> r is Ok && r->Ok_0@ == (PgpCertV {
            tsigs: merge_seq(ca_cert@.tsigs, import@.tsigs),
            ..ca_cert@
        }),
{
    if !(ca_cert.fingerprint == import.fingerprint) {
        return Err(
            CaError::FingerprintMismatch {
                expected_fp: ca_cert.fingerprint.clone(),
                actual_fp: import.fingerprint.clone(),
            },
        );
    }
    let mut out = copy_pgp_cert(ca_cert);
    merge_tsigs(&mut out, &import.tsigs);
    proof {
        assert(import.tsigs.deep_view() == import@.tsigs);
    }
    Ok(out)
}

} // verus!
