//! The certificate model.
//!
//! The CA's logic reads a certificate's fingerprint, its user ids, the
//! certifications, trust signatures and revocations bound to it, and the
//! capabilities of its keys.  Those are held here as plain values; the
//! cryptographic key material itself is opaque to the CA and is not
//! represented beyond its presence.

use vstd::prelude::*;

verus! {

/// One key of a certificate, by its capabilities.
#[derive(Clone, Copy, PartialEq, Eq, Structural, Debug)]
pub struct Subkey {
    pub can_certify: bool,
    pub can_sign: bool,
    pub can_encrypt: bool,
    pub can_authenticate: bool,
    pub has_secret: bool,
}

/// A certification signature binding a user id to a certificate: the CA
/// (issuer) vouches for the identity.
#[derive(Clone, Debug)]
pub struct Certification {
    /// Fingerprint of the issuing certificate.
    pub issuer_fp: String,
    /// Index of the issuing certificate's key that made the signature.
    pub issuer_key: usize,
    /// The certified user id.
    pub userid: String,
    /// Validity in days; `None` means no expiration.
    pub expiry_days: Option<u64>,
    /// The issuer's own user id, embedded as a lookup hint.
    pub signer_userid: String,
}

#[verifier::ext_equal]
pub ghost struct CertificationV {
    pub issuer_fp: Seq<char>,
    pub issuer_key: int,
    pub userid: Seq<char>,
    pub expiry_days: Option<u64>,
    pub signer_userid: Seq<char>,
}

impl View for Certification {
    type V = CertificationV;

    open spec fn view(&self) -> CertificationV {
        CertificationV {
            issuer_fp: self.issuer_fp@,
            issuer_key: self.issuer_key as int,
            userid: self.userid@,
            expiry_days: self.expiry_days,
            signer_userid: self.signer_userid@,
        }
    }
}

impl DeepView for Certification {
    type V = CertificationV;

    open spec fn deep_view(&self) -> CertificationV {
        self.view()
    }
}

/// A trust signature: a certification carrying trust-delegation parameters
/// and optional scoping patterns.
#[derive(Clone, Debug)]
pub struct TrustSignature {
    pub issuer_fp: String,
    /// The user id of the signee on which the trust signature is bound.
    pub userid: String,
    pub depth: u8,
    pub amount: u8,
    /// Scope patterns; empty means unscoped trust.
    pub scope_regexes: Vec<String>,
}

#[verifier::ext_equal]
pub ghost struct TrustSignatureV {
    pub issuer_fp: Seq<char>,
    pub userid: Seq<char>,
    pub depth: u8,
    pub amount: u8,
    pub scope_regexes: Seq<Seq<char>>,
}

impl View for TrustSignature {
    type V = TrustSignatureV;

    open spec fn view(&self) -> TrustSignatureV {
        TrustSignatureV {
            issuer_fp: self.issuer_fp@,
            userid: self.userid@,
            depth: self.depth,
            amount: self.amount,
            scope_regexes: self.scope_regexes.deep_view(),
        }
    }
}

impl DeepView for TrustSignature {
    type V = TrustSignatureV;

    open spec fn deep_view(&self) -> TrustSignatureV {
        self.view()
    }
}

/// A revocation signature.
#[derive(Clone, Debug)]
pub struct RevocationSig {
    /// Fingerprint of the issuer, when the signature names one.
    pub issuer_fp: Option<String>,
    /// Key id of the issuer (the low 16 hex characters of its fingerprint).
    pub issuer_keyid: String,
    /// Hard (key compromised) or soft (key retired / unspecified).
    pub hard: bool,
    /// Human-readable reason.
    pub reason: String,
    /// Signature creation time, seconds since the Unix epoch.
    pub created: u64,
    /// `Some`: revokes this user-id binding; `None`: revokes the key.
    pub userid: Option<String>,
}

#[verifier::ext_equal]
pub ghost struct RevocationSigV {
    pub issuer_fp: Option<Seq<char>>,
    pub issuer_keyid: Seq<char>,
    pub hard: bool,
    pub reason: Seq<char>,
    pub created: u64,
    pub userid: Option<Seq<char>>,
}

/// The view of an optional string.
pub open spec fn opt_view(o: Option<String>) -> Option<Seq<char>> {
    match o {
        Some(s) => Some(s@),
        None => None,
    }
}

impl View for RevocationSig {
    type V = RevocationSigV;

    open spec fn view(&self) -> RevocationSigV {
        RevocationSigV {
            issuer_fp: opt_view(self.issuer_fp),
            issuer_keyid: self.issuer_keyid@,
            hard: self.hard,
            reason: self.reason@,
            created: self.created,
            userid: opt_view(self.userid),
        }
    }
}

impl DeepView for RevocationSig {
    type V = RevocationSigV;

    open spec fn deep_view(&self) -> RevocationSigV {
        self.view()
    }
}

/// A certificate: identity material and the signatures bound to it.
#[derive(Clone, Debug)]
pub struct PgpCert {
    /// The unique key of the certificate, as upper-case hex.
    pub fingerprint: String,
    /// The keys, primary first.
    pub keys: Vec<Subkey>,
    /// The user ids.
    pub userids: Vec<String>,
    /// Expiration time of the primary key, if any.
    pub key_expiry: Option<u64>,
    /// Notation data on the certificate.
    pub notations: Vec<String>,
    /// Third-party certifications on the user ids.
    pub certifications: Vec<Certification>,
    /// Trust signatures on the user ids.
    pub tsigs: Vec<TrustSignature>,
    /// Revocation signatures.
    pub revocations: Vec<RevocationSig>,
    /// Whether private key material is present.
    pub has_private: bool,
}

#[verifier::ext_equal]
pub ghost struct PgpCertV {
    pub fingerprint: Seq<char>,
    pub keys: Seq<Subkey>,
    pub userids: Seq<Seq<char>>,
    pub key_expiry: Option<u64>,
    pub notations: Seq<Seq<char>>,
    pub certifications: Seq<CertificationV>,
    pub tsigs: Seq<TrustSignatureV>,
    pub revocations: Seq<RevocationSigV>,
    pub has_private: bool,
}

impl View for PgpCert {
    type V = PgpCertV;

    open spec fn view(&self) -> PgpCertV {
        PgpCertV {
            fingerprint: self.fingerprint@,
            keys: self.keys@,
            userids: self.userids.deep_view(),
            key_expiry: self.key_expiry,
            notations: self.notations.deep_view(),
            certifications: self.certifications.deep_view(),
            tsigs: self.tsigs.deep_view(),
            revocations: self.revocations.deep_view(),
            has_private: self.has_private,
        }
    }
}

impl DeepView for PgpCert {
    type V = PgpCertV;

    open spec fn deep_view(&self) -> PgpCertV {
        self.view()
    }
}

// ---------- equality at the view level ----------

/// Decides view equality of two certifications.
pub fn certification_eq(a: &Certification, b: &Certification) -> (r: bool)
    ensures
        r == (a@ == b@),
{
    let fields = a.issuer_fp == b.issuer_fp && a.issuer_key == b.issuer_key
        && a.userid == b.userid && a.signer_userid == b.signer_userid
        && match (a.expiry_days, b.expiry_days) {
            (None, None) => true,
            (Some(x), Some(y)) => x == y,
            _ => false,
        };
    proof {
        if fields {
            assert(a@ =~= b@);
        }
    }
    fields
}

/// Decides view equality of two optional strings.
pub fn opt_string_eq(a: &Option<String>, b: &Option<String>) -> (r: bool)
    ensures
        r == (opt_view(*a) == opt_view(*b)),
{
    if let Some(x) = a {
        if let Some(y) = b {
            *x == *y
        } else {
            false
        }
    } else {
        b.is_none()
    }
}

/// Decides view equality of two string vectors.
pub fn string_vec_eq(a: &Vec<String>, b: &Vec<String>) -> (r: bool)
    ensures
        r == (a.deep_view() == b.deep_view()),
{
    if a.len() != b.len() {
        assert(a.deep_view().len() != b.deep_view().len());
        return false;
    }
    let n = a.len();
    for i in 0..n
        invariant
            n == a.len() == b.len(),
            a.deep_view().len() == n,
            b.deep_view().len() == n,
            forall|j: int| 0 <= j < i ==> a.deep_view()[j] == b.deep_view()[j],
    {
        if !(a[i] == b[i]) {
            assert(a.deep_view()[i as int] != b.deep_view()[i as int]);
            return false;
        }
    }
    proof {
        assert(a.deep_view() =~= b.deep_view());
    }
    true
}

/// Decides view equality of two trust signatures.
pub fn tsig_eq(a: &TrustSignature, b: &TrustSignature) -> (r: bool)
    ensures
        r == (a@ == b@),
{
    let fields = a.issuer_fp == b.issuer_fp && a.userid == b.userid
        && a.depth == b.depth && a.amount == b.amount
        && string_vec_eq(&a.scope_regexes, &b.scope_regexes);
    proof {
        if fields {
            assert(a@ =~= b@);
        }
    }
    fields
}

/// Decides view equality of two revocation signatures.
pub fn revocation_sig_eq(a: &RevocationSig, b: &RevocationSig) -> (r: bool)
    ensures
        r == (a@ == b@),
{
    let fields = opt_string_eq(&a.issuer_fp, &b.issuer_fp)
        && a.issuer_keyid == b.issuer_keyid && a.hard == b.hard
        && a.reason == b.reason && a.created == b.created
        && opt_string_eq(&a.userid, &b.userid);
    proof {
        if fields {
            assert(a@ =~= b@);
        }
    }
    fields
}

// ---------- merging signature packets ----------

/// Appends to `have` each element of `new` that is not already present:
/// the effect of merging signature packets into a certificate, where a
/// duplicate of an existing packet changes nothing.
pub open spec fn merge_seq<T>(have: Seq<T>, new: Seq<T>) -> Seq<T>
    decreases new.len(),
{
    if new.len() == 0 {
        have
    } else if have.contains(new[0]) {
        merge_seq(have, new.skip(1))
    } else {
        merge_seq(have.push(new[0]), new.skip(1))
    }
}

/// Splits membership in a sequence into its head and its tail.
pub proof fn lemma_contains_head_tail<T>(s: Seq<T>, x: T)
    requires
        s.len() > 0,
    ensures
        s.contains(x) <==> x == s[0] || s.skip(1).contains(x),
{
    if s.contains(x) {
        let i = choose|i: int| 0 <= i < s.len() && s[i] == x;
        if i > 0 {
            assert(s.skip(1)[i - 1] == x);
        }
    }
    if s.skip(1).contains(x) {
        let i = choose|i: int| 0 <= i < s.skip(1).len() && s.skip(1)[i] == x;
        assert(s[i + 1] == x);
    }
}

/// Everything merged in is contained afterwards, and nothing else appears.
pub proof fn lemma_merge_seq_contains<T>(have: Seq<T>, new: Seq<T>, x: T)
    ensures
        merge_seq(have, new).contains(x) <==> have.contains(x) || new.contains(x),
    decreases new.len(),
{
    if new.len() > 0 {
        lemma_contains_head_tail(new, x);
        if have.contains(new[0]) {
            lemma_merge_seq_contains(have, new.skip(1), x);
        } else {
            lemma_merge_seq_contains(have.push(new[0]), new.skip(1), x);
            assert(have.push(new[0]).contains(x) <==> have.contains(x) || x == new[0]) by {
                if have.contains(x) {
                    let i = choose|i: int| 0 <= i < have.len() && have[i] == x;
                    assert(have.push(new[0])[i] == x);
                }
                if x == new[0] {
                    assert(have.push(new[0])[have.len() as int] == x);
                }
                if have.push(new[0]).contains(x) {
                    let i = choose|i: int| 0 <= i < have.push(new[0]).len()
                        && have.push(new[0])[i] == x;
                    if i < have.len() {
                        assert(have[i] == x);
                    }
                }
            }
        }
    }
}

/// Whether `v` holds an element whose view equals `x`.
pub open spec fn contains_view<T: DeepView>(v: Vec<T>, x: T::V) -> bool {
    v.deep_view().contains(x)
}

/// Copies a certification, field by field.
pub fn copy_certification(c: &Certification) -> (r: Certification)
    ensures
        r@ == c@,
{
    let r = Certification {
        issuer_fp: c.issuer_fp.clone(),
        issuer_key: c.issuer_key,
        userid: c.userid.clone(),
        expiry_days: c.expiry_days,
        signer_userid: c.signer_userid.clone(),
    };
    proof {
        assert(r@ =~= c@);
    }
    r
}

/// Copies a string vector, element by element.
#[verifier::loop_isolation(false)]
pub fn copy_string_vec(v: &Vec<String>) -> (r: Vec<String>)
    ensures
        r.deep_view() == v.deep_view(),
{
    let mut r: Vec<String> = Vec::new();
    let n = v.len();
    for i in 0..n
        invariant
            r@.len() == i,
            forall|j: int| 0 <= j < i ==> r@[j]@ == v@[j]@,
    {
        r.push(v[i].clone());
    }
    proof {
        assert(r.deep_view() =~= v.deep_view());
    }
    r
}

/// Copies a trust signature, field by field.
pub fn copy_tsig(t: &TrustSignature) -> (r: TrustSignature)
    ensures
        r@ == t@,
{
    let r = TrustSignature {
        issuer_fp: t.issuer_fp.clone(),
        userid: t.userid.clone(),
        depth: t.depth,
        amount: t.amount,
        scope_regexes: copy_string_vec(&t.scope_regexes),
    };
    proof {
        assert(r@ =~= t@);
    }
    r
}

/// Copies an optional string.
pub fn copy_opt_string(o: &Option<String>) -> (r: Option<String>)
    ensures
        opt_view(r) == opt_view(*o),
{
    match o {
        None => None,
        Some(s) => Some(s.clone()),
    }
}

/// Copies a revocation signature, field by field.
pub fn copy_revocation_sig(s: &RevocationSig) -> (r: RevocationSig)
    ensures
        r@ == s@,
{
    let r = RevocationSig {
        issuer_fp: copy_opt_string(&s.issuer_fp),
        issuer_keyid: s.issuer_keyid.clone(),
        hard: s.hard,
        reason: s.reason.clone(),
        created: s.created,
        userid: copy_opt_string(&s.userid),
    };
    proof {
        assert(r@ =~= s@);
    }
    r
}

/// Copies a vector of subkeys.
#[verifier::loop_isolation(false)]
pub fn copy_subkeys(v: &Vec<Subkey>) -> (r: Vec<Subkey>)
    ensures
        r@ == v@,
{
    let mut r: Vec<Subkey> = Vec::new();
    let n = v.len();
    for i in 0..n
        invariant
            r@ =~= v@.take(i as int),
    {
        r.push(v[i]);
        assert(r@ =~= v@.take(i + 1));
    }
    proof {
        assert(v@.take(n as int) =~= v@);
    }
    r
}

/// Copies a vector of certifications.
#[verifier::loop_isolation(false)]
pub fn copy_certifications(v: &Vec<Certification>) -> (r: Vec<Certification>)
    ensures
        r.deep_view() == v.deep_view(),
{
    let mut r: Vec<Certification> = Vec::new();
    let n = v.len();
    for i in 0..n
        invariant
            r@.len() == i,
            forall|j: int| 0 <= j < i ==> r@[j]@ == v@[j]@,
    {
        r.push(copy_certification(&v[i]));
    }
    proof {
        assert(r.deep_view() =~= v.deep_view());
    }
    r
}

/// Copies a vector of trust signatures.
#[verifier::loop_isolation(false)]
pub fn copy_tsigs(v: &Vec<TrustSignature>) -> (r: Vec<TrustSignature>)
    ensures
        r.deep_view() == v.deep_view(),
{
    let mut r: Vec<TrustSignature> = Vec::new();
    let n = v.len();
    for i in 0..n
        invariant
            r@.len() == i,
            forall|j: int| 0 <= j < i ==> r@[j]@ == v@[j]@,
    {
        r.push(copy_tsig(&v[i]));
    }
    proof {
        assert(r.deep_view() =~= v.deep_view());
    }
    r
}

/// Copies a vector of revocation signatures.
#[verifier::loop_isolation(false)]
pub fn copy_revocation_sigs(v: &Vec<RevocationSig>) -> (r: Vec<RevocationSig>)
    ensures
        r.deep_view() == v.deep_view(),
{
    let mut r: Vec<RevocationSig> = Vec::new();
    let n = v.len();
    for i in 0..n
        invariant
            r@.len() == i,
            forall|j: int| 0 <= j < i ==> r@[j]@ == v@[j]@,
    {
        r.push(copy_revocation_sig(&v[i]));
    }
    proof {
        assert(r.deep_view() =~= v.deep_view());
    }
    r
}

/// Copies a certificate, field by field.
pub fn copy_pgp_cert(c: &PgpCert) -> (r: PgpCert)
    ensures
        r@ == c@,
{
    let r = PgpCert {
        fingerprint: c.fingerprint.clone(),
        keys: copy_subkeys(&c.keys),
        userids: copy_string_vec(&c.userids),
        key_expiry: c.key_expiry,
        notations: copy_string_vec(&c.notations),
        certifications: copy_certifications(&c.certifications),
        tsigs: copy_tsigs(&c.tsigs),
        revocations: copy_revocation_sigs(&c.revocations),
        has_private: c.has_private,
    };
    proof {
        assert(r@ =~= c@);
    }
    r
}

/// Whether `v` holds a certification whose view equals `x`'s.
pub fn contains_certification(v: &Vec<Certification>, x: &Certification) -> (r: bool)
    ensures
        r == v.deep_view().contains(x@),
{
    let m = v.len();
    for j in 0..m
        invariant
            m == v.len(),
            forall|k: int| 0 <= k < j ==> v.deep_view()[k] != x@,
    {
        if certification_eq(&v[j], x) {
            assert(v.deep_view()[j as int] == x@);
            return true;
        }
    }
    assert(!v.deep_view().contains(x@));
    false
}

/// Pushes each certification of `new` not already present onto `c`.
#[verifier::loop_isolation(false)]
pub fn merge_certifications(c: &mut PgpCert, new: &Vec<Certification>)
    ensures
        final(c)@ == (PgpCertV {
            certifications: merge_seq(old(c)@.certifications, new.deep_view()),
            ..old(c)@
        }),
{
    let ghost orig = c@;
    let n = new.len();
    for i in 0..n
        invariant
            c@ =~= (PgpCertV {
                certifications: merge_seq(orig.certifications, new.deep_view().take(i as int)),
                ..orig
            }),
    {
        let found = contains_certification(&c.certifications, &new[i]);
        assert(c.certifications.deep_view() == c@.certifications);
        if !found {
            let item = copy_certification(&new[i]);
            c.certifications.push(item);
        }
        proof {
            assert(new.deep_view().take(i + 1).drop_last() =~= new.deep_view().take(i as int));
            assert(new.deep_view().take(i + 1).last() == new.deep_view()[i as int]);
            lemma_merge_seq_snoc(orig.certifications, new.deep_view().take(i + 1));
            assert(c@.certifications =~= merge_seq(orig.certifications, new.deep_view().take(i + 1)));
        }
    }
    proof {
        assert(new.deep_view().take(n as int) =~= new.deep_view());
    }
}

/// Whether `v` holds a trust signature whose view equals `x`'s.
#[verifier::loop_isolation(false)]
pub fn contains_tsig(v: &Vec<TrustSignature>, x: &TrustSignature) -> (r: bool)
    ensures
        r == v.deep_view().contains(x@),
{
    let m = v.len();
    for j in 0..m
        invariant
            forall|k: int| 0 <= k < j ==> v.deep_view()[k] != x@,
    {
        if tsig_eq(&v[j], x) {
            assert(v.deep_view()[j as int] == x@);
            return true;
        }
    }
    assert(!v.deep_view().contains(x@));
    false
}

/// Pushes each trust signature of `new` not already present onto `c`.
#[verifier::loop_isolation(false)]
pub fn merge_tsigs(c: &mut PgpCert, new: &Vec<TrustSignature>)
    ensures
        final(c)@ == (PgpCertV {
            tsigs: merge_seq(old(c)@.tsigs, new.deep_view()),
            ..old(c)@
        }),
{
    let ghost orig = c@;
    let n = new.len();
    for i in 0..n
        invariant
            c@ =~= (PgpCertV {
                tsigs: merge_seq(orig.tsigs, new.deep_view().take(i as int)),
                ..orig
            }),
    {
        let found = contains_tsig(&c.tsigs, &new[i]);
        assert(c.tsigs.deep_view() == c@.tsigs);
        if !found {
            let item = copy_tsig(&new[i]);
            c.tsigs.push(item);
        }
        proof {
            assert(new.deep_view().take(i + 1).drop_last() =~= new.deep_view().take(i as int));
            assert(new.deep_view().take(i + 1).last() == new.deep_view()[i as int]);
            lemma_merge_seq_snoc(orig.tsigs, new.deep_view().take(i + 1));
            assert(c@.tsigs =~= merge_seq(orig.tsigs, new.deep_view().take(i + 1)));
        }
    }
    proof {
        assert(new.deep_view().take(n as int) =~= new.deep_view());
    }
}

/// Unfolds one step of `merge_seq` from the right.
pub proof fn lemma_merge_seq_snoc<T>(have: Seq<T>, new: Seq<T>)
    requires
        new.len() > 0,
    ensures
        merge_seq(have, new) == if merge_seq(have, new.drop_last()).contains(new.last()) {
            merge_seq(have, new.drop_last())
        } else {
            merge_seq(have, new.drop_last()).push(new.last())
        },
    decreases new.len(),
{
    if new.len() == 1 {
        assert(new.drop_last() =~= Seq::<T>::empty());
        assert(new.skip(1) =~= Seq::<T>::empty());
        assert(merge_seq(have, Seq::<T>::empty()) == have);
        assert(merge_seq(have.push(new[0]), Seq::<T>::empty()) == have.push(new[0]));
        assert(new.last() == new[0]);
    } else {
        assert(new.drop_last()[0] == new[0]);
        assert(new.drop_last().len() > 0);
        if have.contains(new[0]) {
            lemma_merge_seq_snoc(have, new.skip(1));
            assert(new.skip(1).drop_last() =~= new.drop_last().skip(1));
            assert(new.skip(1).last() == new.last());
            assert(merge_seq(have, new.drop_last()) == merge_seq(have, new.drop_last().skip(1)));
        } else {
            lemma_merge_seq_snoc(have.push(new[0]), new.skip(1));
            assert(new.skip(1).drop_last() =~= new.drop_last().skip(1));
            assert(new.skip(1).last() == new.last());
            assert(merge_seq(have, new.drop_last()) == merge_seq(
                have.push(new[0]),
                new.drop_last().skip(1),
            ));
        }
    }
}

} // verus!
