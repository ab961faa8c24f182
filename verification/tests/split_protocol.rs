//! The split protocol end to end: user certification and bridges across
//! the front/back cycle, idempotent import, and the protocol safeguards.

use openpgp_ca_lib::ca::OpenpgpCa;
use openpgp_ca_lib::errors::CaError;
use openpgp_ca_lib::split::SplitOcaResponse;

fn certified_counts(ca: &OpenpgpCa) -> (usize, usize) {
    let certs = ca.usercerts_get_all();
    assert_eq!(certs.len(), 1);
    let (certified, uncertified) = ca.cert_check_ca_sig(&certs[0]).unwrap();
    (certified.len(), uncertified.len())
}

#[test]
fn split_certify_soft() {
    let mut ca = OpenpgpCa::new();
    ca.ca_init("example.org", None).unwrap();
    let (mut front, back) = ca.split_into().unwrap();

    let emails = vec!["alice@example.org".to_string()];
    front.usercert_new(Some("Alice"), &emails, false).unwrap();

    let certs = front.usercerts_get_all();
    assert_eq!(certs.len(), 1);
    let (c, u) = certified_counts(&front);
    assert_eq!(c, 0);
    assert_eq!(u, 1);

    let reqs = front.ca_split_export().unwrap().expect("entries pending");
    let resp = back.ca_split_certify(&reqs, true, &Vec::new()).unwrap();
    let stats = front.ca_split_import(&resp).unwrap();
    assert_eq!(stats.total, 1);
    assert_eq!(stats.applied, 1);
    assert_eq!(stats.skipped, 0);

    let certs = front.usercerts_get_all();
    assert_eq!(certs.len(), 1);
    let (c, u) = certified_counts(&front);
    assert_eq!(c, 1);
    assert_eq!(u, 0);

    // nothing left to export
    assert!(front.ca_split_export().unwrap().is_none());
}

#[test]
fn split_add_bridge_soft() {
    let mut ca1 = OpenpgpCa::new();
    ca1.ca_init("example.org", None).unwrap();
    let (mut front, back) = ca1.split_into().unwrap();

    let mut ca2 = OpenpgpCa::new();
    ca2.ca_init("remote.example", None).unwrap();
    let remote_pub = ca2.ca_get_cert().unwrap();

    front.add_bridge(None, &remote_pub, None).unwrap();

    let bridges = front.bridges_get().clone();
    assert_eq!(bridges.len(), 1);
    assert_eq!(bridges[0].email, "openpgp-ca@remote.example");
    assert_eq!(bridges[0].scope, "remote.example");
    assert!(!front.check_tsig_on_bridge(&bridges[0]).unwrap());

    let reqs = front.ca_split_export().unwrap().expect("entries pending");
    let resp = back.ca_split_certify(&reqs, true, &Vec::new()).unwrap();
    front.ca_split_import(&resp).unwrap();

    let bridges = front.bridges_get().clone();
    assert_eq!(bridges.len(), 1);
    assert!(front.check_tsig_on_bridge(&bridges[0]).unwrap());
}

#[test]
fn import_twice_is_idempotent() {
    let mut ca = OpenpgpCa::new();
    ca.ca_init("example.org", None).unwrap();
    let (mut front, back) = ca.split_into().unwrap();
    let emails = vec!["alice@example.org".to_string()];
    front.usercert_new(Some("Alice"), &emails, false).unwrap();

    let reqs = front.ca_split_export().unwrap().unwrap();
    let resp = back.ca_split_certify(&reqs, true, &Vec::new()).unwrap();

    let first = front.ca_split_import(&resp).unwrap();
    assert_eq!(first.applied, 1);
    assert_eq!(first.skipped, 0);

    let certs_after_first = front.usercerts_get_all();
    let sigs_after_first = certs_after_first[0].cert.certifications.len();

    let second = front.ca_split_import(&resp).unwrap();
    assert_eq!(second.total, 1);
    assert_eq!(second.applied, 0);
    assert_eq!(second.skipped, 1);

    let certs_after_second = front.usercerts_get_all();
    assert_eq!(certs_after_second[0].cert.certifications.len(), sigs_after_first);
}

#[test]
fn certify_rejects_wrong_fingerprint() {
    let mut ca = OpenpgpCa::new();
    ca.ca_init("example.org", None).unwrap();
    let (mut front, back) = ca.split_into().unwrap();
    let emails = vec!["alice@example.org".to_string()];
    front.usercert_new(Some("Alice"), &emails, false).unwrap();

    let mut reqs = front.ca_split_export().unwrap().unwrap();
    reqs.ca_fingerprint = "0000000000000000000000000000000000000000".to_string();
    let r = back.ca_split_certify(&reqs, true, &Vec::new());
    assert!(matches!(r, Err(CaError::FingerprintMismatch { .. })));
}

#[test]
fn certify_rejects_wrong_version() {
    let mut ca = OpenpgpCa::new();
    ca.ca_init("example.org", None).unwrap();
    let (mut front, back) = ca.split_into().unwrap();
    let emails = vec!["alice@example.org".to_string()];
    front.usercert_new(Some("Alice"), &emails, false).unwrap();

    let mut reqs = front.ca_split_export().unwrap().unwrap();
    reqs.version = 99;
    let r = back.ca_split_certify(&reqs, true, &Vec::new());
    assert!(matches!(r, Err(CaError::VersionMismatch { expected: 1, actual: 99 })));
}

#[test]
fn import_rejects_wrong_version_and_fingerprint() {
    let mut ca = OpenpgpCa::new();
    ca.ca_init("example.org", None).unwrap();
    let (mut front, back) = ca.split_into().unwrap();
    let emails = vec!["alice@example.org".to_string()];
    front.usercert_new(Some("Alice"), &emails, false).unwrap();
    let reqs = front.ca_split_export().unwrap().unwrap();
    let resp = back.ca_split_certify(&reqs, true, &Vec::new()).unwrap();

    let bad_version = SplitOcaResponse {
        version: 7,
        ca_fingerprint: resp.ca_fingerprint.clone(),
        created: resp.created,
        queue: Vec::new(),
    };
    assert!(matches!(
        front.ca_split_import(&bad_version),
        Err(CaError::VersionMismatch { expected: 1, actual: 7 })
    ));

    let bad_fp = SplitOcaResponse {
        version: 1,
        ca_fingerprint: "AAAA".to_string(),
        created: resp.created,
        queue: Vec::new(),
    };
    assert!(matches!(
        front.ca_split_import(&bad_fp),
        Err(CaError::FingerprintMismatch { .. })
    ));
}

#[test]
fn import_rejects_unknown_queue_id() {
    let mut ca = OpenpgpCa::new();
    ca.ca_init("example.org", None).unwrap();
    let (mut front, back) = ca.split_into().unwrap();
    let emails = vec!["alice@example.org".to_string()];
    front.usercert_new(Some("Alice"), &emails, false).unwrap();
    let reqs = front.ca_split_export().unwrap().unwrap();
    let mut resp = back.ca_split_certify(&reqs, true, &Vec::new()).unwrap();

    // answer an id the front never issued
    resp.queue[0].0 = 424242;
    let r = front.ca_split_import(&resp);
    assert!(matches!(r, Err(CaError::UnknownQueueId { id: 424242 })));
}

#[test]
fn import_rejects_malformed_base64() {
    let mut ca = OpenpgpCa::new();
    ca.ca_init("example.org", None).unwrap();
    let (mut front, back) = ca.split_into().unwrap();
    let emails = vec!["alice@example.org".to_string()];
    front.usercert_new(Some("Alice"), &emails, false).unwrap();
    let reqs = front.ca_split_export().unwrap().unwrap();
    let mut resp = back.ca_split_certify(&reqs, true, &Vec::new()).unwrap();

    match &mut resp.queue[0].1 {
        openpgp_ca_lib::split::QueueResponse::CertificationResp(cr) => {
            cr.sigs = vec!["!!! not base64 !!!".to_string()];
        }
        _ => panic!("expected a certification response"),
    }
    let r = front.ca_split_import(&resp);
    assert!(matches!(r, Err(CaError::DecodeFailure)));
}

#[test]
fn declined_entries_stay_pending() {
    let mut ca = OpenpgpCa::new();
    ca.ca_init("example.org", None).unwrap();
    let (mut front, back) = ca.split_into().unwrap();
    let emails = vec!["alice@example.org".to_string()];
    front.usercert_new(Some("Alice"), &emails, false).unwrap();

    let reqs = front.ca_split_export().unwrap().unwrap();
    // the operator declines the single entry
    let approvals = vec![false];
    let resp = back.ca_split_certify(&reqs, false, &approvals).unwrap();
    assert_eq!(resp.queue.len(), 0);

    let stats = front.ca_split_import(&resp).unwrap();
    assert_eq!(stats.total, 0);

    // the entry is still pending and can be re-exported
    assert!(front.ca_split_export().unwrap().is_some());
}
