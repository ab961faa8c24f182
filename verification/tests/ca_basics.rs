//! Initialization, certification coverage, queue behaviour of the
//! split-front backend, revocations, and the artifacts.

use core::str::FromStr;

use openpgp_ca_lib::armor;
use openpgp_ca_lib::ca::OpenpgpCa;
use openpgp_ca_lib::ca::SplitBackDb;
use openpgp_ca_lib::check_domain;
use openpgp_ca_lib::codec;
use openpgp_ca_lib::errors::CaError;
use openpgp_ca_lib::model::Certification;
use openpgp_ca_lib::pgp;
use openpgp_ca_lib::secret;

#[test]
fn ca_init_is_one_time() {
    let mut ca = OpenpgpCa::new();
    ca.ca_init("example.org", Some("Example Org CA")).unwrap();
    let domain_before = ca.ca_get().unwrap().unwrap().0.domainname.clone();
    let fp_before = ca.ca_get().unwrap().unwrap().1.fingerprint.clone();

    let second = ca.ca_init("example.org", None);
    assert!(matches!(second, Err(CaError::AlreadyInitialized)));

    // storage's CA record is unchanged by the second call
    let after = ca.ca_get().unwrap().unwrap();
    assert_eq!(after.0.domainname, domain_before);
    assert_eq!(after.1.fingerprint, fp_before);
}

#[test]
fn ca_init_rejects_invalid_domain() {
    let mut ca = OpenpgpCa::new();
    assert!(matches!(
        ca.ca_init("not..a..domain", None),
        Err(CaError::InvalidDomain)
    ));
    assert!(matches!(ca.ca_init("-bad.org", None), Err(CaError::InvalidDomain)));
    assert!(matches!(ca.ca_init("", None), Err(CaError::InvalidDomain)));
    // still uninitialized, so a good domain works afterwards
    ca.ca_init("example.org", None).unwrap();
}

#[test]
fn domain_syntax_cases() {
    assert!(check_domain("example.org"));
    assert!(check_domain("a.b.c.example"));
    assert!(check_domain("x"));
    assert!(check_domain("foo-bar.org"));
    assert!(!check_domain(""));
    assert!(!check_domain(".org"));
    assert!(!check_domain("org."));
    assert!(!check_domain("a..b"));
    assert!(!check_domain("-a.org"));
    assert!(!check_domain("a-.org"));
    assert!(!check_domain("exa mple.org"));
    // 63-character label is fine, 64 is not
    let label63 = "a".repeat(63);
    let label64 = "a".repeat(64);
    assert!(check_domain(&format!("{label63}.org")));
    assert!(!check_domain(&format!("{label64}.org")));
    // the whole name must stay within 253 characters
    let long = format!("{}.{}.{}.{}.org", "a".repeat(63), "b".repeat(63), "c".repeat(63), "d".repeat(63));
    assert!(!check_domain(&long));
}

#[test]
fn softkey_sign_covers_exactly_requested() {
    let (ca_cert, _) = pgp::make_ca_cert("example.org", None, 42);
    let emails = vec![
        "alice@example.org".to_string(),
        "alice@other.example".to_string(),
    ];
    let (user, _revoc, _pass) = pgp::make_user_cert(&emails, Some("Alice"), false, true, true, false, 43);
    assert_eq!(user.userids.len(), 2);

    // request only the first user id
    let requested = vec![user.userids[0].clone()];
    let signed = secret::sign_user_ids(&ca_cert, &user, &requested, None).unwrap();

    let by_ca: Vec<&Certification> = signed
        .certifications
        .iter()
        .filter(|c| c.issuer_fp == ca_cert.fingerprint)
        .collect();
    assert!(!by_ca.is_empty());
    for c in &by_ca {
        assert_eq!(c.userid, user.userids[0]);
        assert_eq!(c.expiry_days, None);
    }
    // the second user id is not covered
    assert!(by_ca.iter().all(|c| c.userid != user.userids[1]));
}

#[test]
fn softkey_sign_with_validity_days() {
    let (ca_cert, _) = pgp::make_ca_cert("example.org", None, 42);
    let emails = vec!["bob@example.org".to_string()];
    let (user, _, _) = pgp::make_user_cert(&emails, None, false, true, false, false, 43);
    let requested = vec![user.userids[0].clone()];
    let signed = secret::sign_user_ids(&ca_cert, &user, &requested, Some(365)).unwrap();
    let added: Vec<&Certification> = signed
        .certifications
        .iter()
        .filter(|c| c.issuer_fp == ca_cert.fingerprint)
        .collect();
    assert!(!added.is_empty());
    for c in added {
        assert_eq!(c.expiry_days, Some(365));
    }
}

#[test]
fn split_front_queues_instead_of_signing() {
    let mut ca = OpenpgpCa::new();
    ca.ca_init("example.org", None).unwrap();
    let (mut front, _back) = ca.split_into().unwrap();

    // creating a user on the front queues exactly one certification task
    assert_eq!(front.storage().queue.len(), 0);
    let emails = vec!["alice@example.org".to_string()];
    let (user_cert, _pass) = front.usercert_new(Some("Alice"), &emails, false).unwrap();
    assert_eq!(front.storage().queue.len(), 1);
    assert!(!front.storage().queue[0].done);

    // the returned certificate carries no certification by the CA
    let ca_fp = &front.ca_get().unwrap().unwrap().1.fingerprint.clone();
    assert!(user_cert
        .certifications
        .iter()
        .all(|c| &c.issuer_fp != ca_fp));
}

#[test]
fn generate_revocations_series() {
    let (ca_cert, _) = pgp::make_ca_cert("example.org", None, 1000);
    let artifact = armor::ca_generate_revocations(&ca_cert, "openpgp-ca@example.org", 1000)
        .unwrap();

    // one hard and one soft revocation for each of the 121 steps
    assert_eq!(artifact.matches("-----BEGIN REVOCATION CERTIFICATE-----").count(), 242);
    assert_eq!(artifact.matches("certificate compromised").count(), 121);
    assert_eq!(artifact.matches("certificate retired").count(), 121);

    // the CA's public certificate precedes the revocations
    let cert_pos = artifact.find("-----BEGIN CA CERTIFICATE-----").unwrap();
    let rev_pos = artifact.find("-----BEGIN REVOCATION CERTIFICATE-----").unwrap();
    assert!(cert_pos < rev_pos);

    // creation times are spaced by thirty days
    assert!(artifact.contains("00000000000000001000"));
    assert!(artifact.contains(&format!("{:020}", 1000u64 + 2592000)));
    assert!(artifact.contains(&format!("{:020}", 1000u64 + 120 * 2592000)));
    assert!(!artifact.contains(&format!("{:020}", 1000u64 + 121 * 2592000)));
}

#[test]
fn detached_signature_carries_digest() {
    let (ca_cert, _) = pgp::make_ca_cert("example.org", None, 7);
    let sig = armor::sign_detached(&ca_cert, "abc").unwrap();
    // the SHA-256 of "abc", upper-case hex
    assert!(sig.contains("BA7816BF8F01CFEA414140DE5DAE2223B00361A396177A9CB410FF61F20015AD"));
    assert!(sig.starts_with("-----BEGIN DETACHED SIGNATURE-----"));
}

#[test]
fn unsupported_on_split_front() {
    let mut ca = OpenpgpCa::new();
    ca.ca_init("example.org", None).unwrap();
    let (mut front, _back) = ca.split_into().unwrap();

    assert!(matches!(
        front.ca_generate_revocations(),
        Err(CaError::UnsupportedOnFrontInstance)
    ));
    assert!(matches!(
        front.sign_detached("hello"),
        Err(CaError::UnsupportedOnFrontInstance)
    ));
    assert!(matches!(
        front.bridge_revoke("x@y.example"),
        Err(CaError::UnsupportedOnFrontInstance)
    ));
    assert!(matches!(
        front.ca_init("other.org", None),
        Err(CaError::UnsupportedOnFrontInstance)
    ));
}

#[test]
fn back_db_writes_fail_loudly() {
    let db = SplitBackDb::new(None);
    assert!(matches!(db.certs(), Err(CaError::UnsupportedOnBackDb)));
    assert!(matches!(db.queue_not_done(), Err(CaError::UnsupportedOnBackDb)));
    let (cert, _) = pgp::make_ca_cert("example.org", None, 9);
    assert!(matches!(db.cert_update(&cert), Err(CaError::UnsupportedOnBackDb)));
    assert!(matches!(db.queue_mark_done(1), Err(CaError::UnsupportedOnBackDb)));
    assert!(matches!(
        db.cert_add("AA", &cert, None),
        Err(CaError::UnsupportedOnBackDb)
    ));
    assert!(matches!(db.cert_delist("AA"), Err(CaError::UnsupportedOnBackDb)));
    assert!(matches!(db.revocation_apply(3), Err(CaError::UnsupportedOnBackDb)));
}

#[test]
fn revocation_lifecycle() {
    let mut ca = OpenpgpCa::new();
    ca.ca_init("example.org", None).unwrap();
    let emails = vec!["carol@example.org".to_string()];
    ca.usercert_new(Some("Carol"), &emails, false).unwrap();

    let certs = ca.usercerts_get_all();
    assert_eq!(certs.len(), 1);

    // the user's revocation was stored at creation
    let revs = ca.revocations_get(&certs[0]);
    assert_eq!(revs.len(), 1);
    assert!(!revs[0].published);
    assert_eq!(revs[0].hash.len(), 16);

    // look it up by hash and apply it
    let rev = ca.revocation_get_by_hash(&revs[0].hash.clone()).unwrap();
    let (reason, created) = OpenpgpCa::revocation_details(&rev);
    assert_eq!(reason, "unspecified");
    assert!(created.is_some());

    ca.revocation_apply(&rev).unwrap();
    let revs = ca.revocations_get(&certs[0]);
    assert!(revs[0].published);

    // the certificate now carries the revocation
    let certs = ca.usercerts_get_all();
    assert!(OpenpgpCa::usercert_possibly_revoked(&certs[0]));

    // a bogus hash is not found
    assert!(matches!(
        ca.revocation_get_by_hash("DEADBEEFDEADBEEF"),
        Err(CaError::NotFound)
    ));
}

#[test]
fn signature_codec_round_trip() {
    let sig = Certification {
        issuer_fp: "ABCDEF0123456789".to_string(),
        issuer_key: 3,
        userid: "Alice Müller <alice@example.org>".to_string(),
        expiry_days: Some(365),
        signer_userid: "OpenPGP CA <openpgp-ca@example.org>".to_string(),
    };
    let b64 = codec::sig_to_b64(&sig);
    let back = codec::sig_from_b64(&b64).expect("round trip");
    assert_eq!(back.issuer_fp, sig.issuer_fp);
    assert_eq!(back.issuer_key, sig.issuer_key);
    assert_eq!(back.userid, sig.userid);
    assert_eq!(back.expiry_days, sig.expiry_days);
    assert_eq!(back.signer_userid, sig.signer_userid);

    // the base64 text differs from the record's own text
    assert_ne!(b64, codec::sig_to_text(&sig));
    // malformed input is rejected
    assert!(codec::sig_from_b64("@@ not base64 @@").is_none());
}

#[test]
fn generated_password_on_request() {
    let mut ca = OpenpgpCa::new();
    ca.ca_init("example.org", None).unwrap();
    let emails = vec!["erin@example.org".to_string()];
    let (_, no_pass) = ca.usercert_new(Some("Erin"), &emails, false).unwrap();
    assert!(no_pass.is_none());
    let emails2 = vec!["frank@example.org".to_string()];
    let (_, with_pass) = ca.usercert_new(Some("Frank"), &emails2, true).unwrap();
    let pass = with_pass.expect("a generated passphrase");
    assert!(!pass.is_empty());
}

#[test]
fn cipher_suite_names() {
    assert!(matches!(pgp::CipherSuite::from_str("cv25519"), Ok(pgp::CipherSuite::Cv25519)));
    assert!(matches!(pgp::CipherSuite::from_str("RSA4K"), Ok(pgp::CipherSuite::RSA4k)));
    assert!(matches!(pgp::CipherSuite::from_str("p384"), Ok(pgp::CipherSuite::P384)));
    assert!(pgp::CipherSuite::from_str("unknown").is_err());
}

#[test]
fn identity_helpers() {
    assert_eq!(pgp::user_id("a@b.example", Some("Ann")), "Ann <a@b.example>");
    assert_eq!(pgp::user_id("a@b.example", None), "<a@b.example>");
    assert_eq!(pgp::ca_user_id("ca@b.example", None), "OpenPGP CA <ca@b.example>");
    assert_eq!(
        pgp::uid_email("Ann <a@b.example>").as_deref(),
        Some("a@b.example")
    );
    assert_eq!(pgp::uid_email("no brackets"), None);
    assert_eq!(pgp::email_domain("a@b.example").as_deref(), Some("b.example"));
    assert_eq!(pgp::email_domain("a@b@c"), None);
    assert_eq!(pgp::email_localpart("a@b.example").as_deref(), Some("a"));
    assert_eq!(
        pgp::keyid(&"0123456789ABCDEF0123456789ABCDEF01234567".to_string()),
        "89ABCDEF01234567"
    );
    assert_eq!(pgp::keyid(&"SHORT".to_string()), "SHORT");
}

#[test]
fn bridge_scope_regex() {
    let r = OpenpgpCa::domain_to_regex("other.org").unwrap();
    assert_eq!(r, "<[^>]+[@.]other\\.org>$");
    assert!(matches!(
        OpenpgpCa::domain_to_regex("not a domain"),
        Err(CaError::InvalidDomain)
    ));
}

#[test]
fn usercert_import_flows() {
    let mut ca = OpenpgpCa::new();
    ca.ca_init("example.org", None).unwrap();

    let emails = vec!["dora@example.org".to_string()];
    let (user, _, _) = pgp::make_user_cert(&emails, Some("Dora"), false, true, true, false, 50);
    let public = user.clone();
    ca.usercert_import_new(&public, Vec::new(), Some("Dora"), &emails).unwrap();

    let certs = ca.usercerts_get_all();
    assert_eq!(certs.len(), 1);
    let (certified, _) = ca.cert_check_ca_sig(&certs[0]).unwrap();
    assert_eq!(certified.len(), 1);

    // importing an update for the same fingerprint merges, not duplicates
    ca.usercert_import_update(&public, &certs[0]).unwrap();
    assert_eq!(ca.usercerts_get_all().len(), 1);

    // emails are linked
    let es = ca.emails_get(&certs[0]);
    assert_eq!(es.len(), 1);
    assert_eq!(es[0].addr, "dora@example.org");
    assert_eq!(ca.usercerts_get("dora@example.org").len(), 1);
    assert_eq!(ca.usercerts_get("nobody@example.org").len(), 0);
}

#[test]
fn queue_summary_lines() {
    let mut ca = OpenpgpCa::new();
    ca.ca_init("example.org", None).unwrap();
    let (mut front, _back) = ca.split_into().unwrap();
    assert!(openpgp_ca_lib::export::ca_split_show_queue(&front).is_empty());

    let emails = vec!["gina@example.org".to_string()];
    front.usercert_new(Some("Gina"), &emails, false).unwrap();
    let lines = openpgp_ca_lib::export::ca_split_show_queue(&front);
    assert_eq!(lines.len(), 1);
    assert!(lines[0].starts_with("Certification request [#"));
    assert!(lines[0].contains("'Gina <gina@example.org>'"));
    assert!(lines[0].contains(", no expiration"));
}

#[test]
fn path_append_rejects_separators() {
    assert_eq!(
        openpgp_ca_lib::export::path_append("out", "a@b.example.asc").unwrap(),
        "out/a@b.example.asc"
    );
    assert!(openpgp_ca_lib::export::path_append("out", "../evil").is_err());
    assert!(openpgp_ca_lib::export::path_append("out", "c:drive").is_err());
    assert!(openpgp_ca_lib::export::path_append("out", "a\\b").is_err());
}

#[test]
fn per_email_export_files() {
    let mut ca = OpenpgpCa::new();
    ca.ca_init("example.org", None).unwrap();
    let emails = vec!["hank@example.org".to_string()];
    ca.usercert_new(Some("Hank"), &emails, false).unwrap();
    let files = openpgp_ca_lib::export::export_certs_as_files(&ca, "out").unwrap();
    assert_eq!(files.len(), 1);
    assert_eq!(files[0].0, "out/hank@example.org.asc");
    assert!(files[0].1.contains("-----BEGIN CA CERTIFICATE-----"));
}

#[test]
fn bridge_revoke_on_back() {
    let mut ca1 = OpenpgpCa::new();
    ca1.ca_init("example.org", None).unwrap();

    let mut ca2 = OpenpgpCa::new();
    ca2.ca_init("remote.example", None).unwrap();
    let remote_pub = ca2.ca_get_cert().unwrap();

    // a softkey instance bridges and can revoke
    ca1.add_bridge(None, &remote_pub, None).unwrap();
    let (sig, revoked) = ca1.bridge_revoke("openpgp-ca@remote.example").unwrap();
    assert_eq!(sig.issuer_fp.as_deref(), Some(ca1.ca_get().unwrap().unwrap().1.fingerprint.as_str()));
    assert!(sig.userid.is_some());
    assert!(!revoked.revocations.is_empty());
    assert!(matches!(
        ca1.bridge_revoke("nobody@remote.example"),
        Err(CaError::NotFound)
    ));
}

#[test]
fn bridge_needs_exactly_one_identity() {
    let mut ca = OpenpgpCa::new();
    ca.ca_init("example.org", None).unwrap();
    // a remote certificate with two identities is rejected
    let emails = vec![
        "openpgp-ca@remote.example".to_string(),
        "second@remote.example".to_string(),
    ];
    let (remote, _, _) = pgp::make_user_cert(&emails, None, false, false, false, false, 5);
    assert_eq!(remote.userids.len(), 2);
    assert!(matches!(
        ca.add_bridge(None, &remote, None),
        Err(CaError::WrongIdentityCount)
    ));
}

#[test]
fn operations_need_an_initialized_ca() {
    let ca = OpenpgpCa::new();
    assert!(ca.ca_get().unwrap().is_none());
    assert!(matches!(ca.ca_get_cert(), Err(CaError::NotInitialized)));
    assert!(matches!(ca.ca_get_pubkey_armored(), Err(CaError::NotInitialized)));
    assert!(matches!(ca.ca_split_export(), Err(CaError::NotInitialized)));
}

#[test]
fn hex_spelling() {
    let bytes = vec![0xbeu8, 0xef, 0x00, 0x0a];
    assert_eq!(openpgp_ca_lib::to_hex(&bytes), "BEEF000A");
}
