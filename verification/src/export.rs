//! Computed exports: per-email certificate files and the queue summary.
//!
//! Everything here produces plain values; writing files and printing is
//! left to the caller.

use vstd::prelude::*;

use crate::armor;
use crate::ca::OpenpgpCa;
use crate::codec::dec_digits;
use crate::errors::CaError;
use crate::model::PgpCertV;
use crate::queue::QueueEntryV;
use crate::queue::QueueRecord;
use crate::queue::QueueRecordV;
use crate::strings::append_char_of;

verus! {

/// Whether `c` is a character that has no place in a file name derived
/// from an email: a path separator or a drive separator.
pub open spec fn suspicious_path_char(c: char) -> bool {
    c == '/' || c == '\\' || c == ':'
}

/// Whether `name` is free of path separators.
pub open spec fn safe_filename(name: Seq<char>) -> bool {
    forall|i: int| 0 <= i < name.len() ==> !suspicious_path_char(#[trigger] name[i])
}

/// Appends a possibly adversarial `filename` to a trusted `path`.  A
/// filename carrying a separator could escape the directory, so it is
/// rejected.
#[verifier::loop_isolation(false)]
pub fn path_append(path: &str, filename: &str) -> (r: Result<String, CaError>)
    ensures
        !safe_filename(filename@) ==> r == Err::<String, CaError>(CaError::BadInput),
        safe_filename(filename@) ==> r is Ok && r->Ok_0@ == path@ + "/"@ + filename@,
{
    let n = filename.unicode_len();
    for i in 0..n
        invariant
            forall|j: int| 0 <= j < i ==> !suspicious_path_char(#[trigger] filename@[j]),
    {
        let c = filename.get_char(i);
        if c == '/' || c == '\\' || c == ':' {
            assert(suspicious_path_char(filename@[i as int]));
            return Err(CaError::BadInput);
        }
    }
    let mut out = path.to_owned();
    out.append("/");
    out.append(filename);
    proof {
        reveal_strlit("/");
    }
    Ok(out)
}

/// The armored keyring text of every certificate linked to `addr`.
pub open spec fn email_ring(st: crate::storage::Storage, addr: Seq<char>) -> Seq<char> {
    armor::armor_certring_from(
        st.certs.deep_view().filter(|c: crate::storage::CertRecordV| st.cert_has_email(c, addr))
            .map_values(|c: crate::storage::CertRecordV| c.cert),
        0,
    )
}

/// The per-email export: for every address, the file name `<email>.asc`
/// under `path`, and the armored certificates linked to that address.
/// Addresses that would escape the output directory are rejected.
#[verifier::loop_isolation(false)]
pub fn export_certs_as_files(ca: &OpenpgpCa, path: &str) -> (r: Result<
    Vec<(String, String)>,
    CaError,
>)
    ensures
        r is Ok ==> r->Ok_0@.len() == ca.st().emails@.len() && forall|i: int|
            0 <= i < ca.st().emails@.len() ==> {
                &&& (#[trigger] r->Ok_0@[i]).0@ == path@ + "/"@
                    + ca.st().emails.deep_view()[i].addr + ".asc"@
                &&& r->Ok_0@[i].1@ == email_ring(ca.st(), ca.st().emails.deep_view()[i].addr)
            },
        (forall|i: int| 0 <= i < ca.st().emails@.len() ==> safe_filename(
            (#[trigger] ca.st().emails.deep_view()[i]).addr + ".asc"@,
        )) ==> r is Ok,
{
    let storage = ca.storage();
    let mut out: Vec<(String, String)> = Vec::new();
    let n = storage.emails.len();
    for i in 0..n
        invariant
            n == storage.emails@.len(),
            out@.len() == i,
            forall|l: int| 0 <= l < i ==> {
                &&& (#[trigger] out@[l]).0@ == path@ + "/"@
                    + storage.emails.deep_view()[l].addr + ".asc"@
                &&& out@[l].1@ == email_ring(*storage, storage.emails.deep_view()[l].addr)
            },
    {
        let addr = storage.emails[i].addr.clone();
        let mut filename = addr.clone();
        filename.append(".asc");
        let full = match path_append(path, filename.as_str()) {
            Ok(p) => p,
            Err(e) => {
                proof {
                    assert(filename@ == storage.emails.deep_view()[i as int].addr + ".asc"@);
                }
                return Err(e);
            },
        };
        let records = storage.certs_by_email(addr.as_str());
        let ghost rv = records.deep_view();
        let mut certs: Vec<crate::model::PgpCert> = Vec::new();
        let m = records.len();
        for j in 0..m
            invariant
                m == records.len(),
                rv == records.deep_view(),
                certs@.len() == j,
                forall|l: int| 0 <= l < j ==> #[trigger] certs.deep_view()[l] == rv[l].cert,
        {
            let ghost pre = certs;
            certs.push(crate::model::copy_pgp_cert(&records[j].cert));
            proof {
                assert forall|l: int| 0 <= l < pre@.len()
                    implies #[trigger] certs.deep_view()[l] == pre.deep_view()[l] by {
                    assert(certs@[l] == pre@[l]);
                }
                assert(certs.deep_view()[pre@.len() as int] == rv[j as int].cert);
            }
        }
        proof {
            assert(certs.deep_view() =~= rv.map_values(
                |c: crate::storage::CertRecordV| c.cert,
            ));
        }
        let armored = armor::certs_to_armored(&certs);
        proof {
            assert(armored@ == email_ring(*storage, storage.emails.deep_view()[i as int].addr));
            assert(full@ == path@ + "/"@ + storage.emails.deep_view()[i as int].addr
                + ".asc"@);
        }
        out.push((full, armored));
    }
    Ok(out)
}

/// A quoted, space-separated spelling of the strings of `v`, from
/// position `p` on.
pub open spec fn quoted_list_from(v: Seq<Seq<char>>, p: int) -> Seq<char>
    decreases v.len() - p when 0 <= p <= v.len()
{
    if p >= v.len() {
        Seq::empty()
    } else {
        " '"@ + v[p] + "'"@ + quoted_list_from(v, p + 1)
    }
}

/// Appends the quoted list of `v` to `out`.
#[verifier::loop_isolation(false)]
fn append_quoted_list(out: &mut String, v: &Vec<String>)
    ensures
        final(out)@ == old(out)@ + quoted_list_from(v.deep_view(), 0),
{
    let n = v.len();
    let ghost base = out@;
    for i in 0..n
        invariant
            quoted_list_from(v.deep_view(), 0) =~= out@.skip(base.len() as int)
                + quoted_list_from(v.deep_view(), i as int),
            out@.len() >= base.len(),
            out@.take(base.len() as int) =~= base,
    {
        let ghost before = out@;
        out.append(" '");
        out.append(v[i].as_str());
        out.append("'");
        proof {
            assert(v.deep_view()[i as int] == v@[i as int]@);
            assert(out@.skip(base.len() as int) =~= before.skip(base.len() as int) + " '"@
                + v.deep_view()[i as int] + "'"@);
            assert(quoted_list_from(v.deep_view(), i as int) == " '"@ + v.deep_view()[i as int]
                + "'"@ + quoted_list_from(v.deep_view(), i + 1));
            assert(quoted_list_from(v.deep_view(), 0) =~= out@.skip(base.len() as int)
                + quoted_list_from(v.deep_view(), i + 1));
            assert(out@.take(base.len() as int) =~= base);
        }
    }
    proof {
        assert(quoted_list_from(v.deep_view(), n as int) =~= Seq::<char>::empty());
        assert(final(out)@ =~= base + quoted_list_from(v.deep_view(), 0));
    }
}

/// The display line of one pending queue entry.
pub open spec fn queue_entry_line(e: QueueRecordV) -> Seq<char> {
    match e.task {
        QueueEntryV::CertificationReq(cr) => "Certification request [#"@ + dec_digits(
            e.id as int,
            20,
        ) + "] on "@ + cr.cert.fingerprint + " for"@ + quoted_list_from(cr.user_ids, 0) + (
        match cr.days {
            Some(d) => ", limited to "@ + dec_digits(d as int, 20) + " days"@,
            None => ", no expiration"@,
        }) + ", queued at "@ + dec_digits(e.created as int, 20),
        QueueEntryV::BridgeReq(br) => "Bridge request [#"@ + dec_digits(e.id as int, 20)
            + "] for "@ + br.cert.fingerprint + (if br.scope_regexes.len() == 0 {
            ", unscoped"@
        } else {
            ", scoped to"@ + quoted_list_from(br.scope_regexes, 0)
        }) + ", queued at "@ + dec_digits(e.created as int, 20),
    }
}

/// One display line per pending queue entry, in queue order.
#[verifier::loop_isolation(false)]
pub fn ca_split_show_queue(ca: &OpenpgpCa) -> (r: Vec<String>)
    ensures
        r.deep_view() == ca.st().queue.deep_view().filter(|e: QueueRecordV| !e.done)
            .map_values(|e: QueueRecordV| queue_entry_line(e)),
{
    let pending = ca.storage().queue_not_done();
    let ghost pv = pending.deep_view();
    let mut out: Vec<String> = Vec::new();
    let n = pending.len();
    for i in 0..n
        invariant
            n == pending.len(),
            pv == pending.deep_view(),
            out@.len() == i,
            forall|j: int| 0 <= j < i ==> #[trigger] out.deep_view()[j] == queue_entry_line(
                pv[j],
            ),
    {
        let e = &pending[i];
        let mut line = String::new();
        proof {
            crate::codec::lemma_pow10_19();
            crate::codec::lemma_pow10_increases(19, 20);
        }
        match &e.task {
            crate::queue::QueueEntry::CertificationReq(cr) => {
                line.append("Certification request [#");
                crate::codec::append_u64w(&mut line, e.id, 20);
                line.append("] on ");
                line.append(cr.cert.fingerprint.as_str());
                line.append(" for");
                append_quoted_list(&mut line, &cr.user_ids);
                match cr.days {
                    Some(d) => {
                        line.append(", limited to ");
                        crate::codec::append_u64w(&mut line, d, 20);
                        line.append(" days");
                    },
                    None => {
                        line.append(", no expiration");
                    },
                }
                line.append(", queued at ");
                crate::codec::append_u64w(&mut line, e.created, 20);
                proof {
                    assert(line@ =~= queue_entry_line(pv[i as int]));
                }
            },
            crate::queue::QueueEntry::BridgeReq(br) => {
                line.append("Bridge request [#");
                crate::codec::append_u64w(&mut line, e.id, 20);
                line.append("] for ");
                line.append(br.cert.fingerprint.as_str());
                if br.scope_regexes.len() == 0 {
                    line.append(", unscoped");
                } else {
                    line.append(", scoped to");
                    append_quoted_list(&mut line, &br.scope_regexes);
                }
                line.append(", queued at ");
                crate::codec::append_u64w(&mut line, e.created, 20);
                proof {
                    assert(line@ =~= queue_entry_line(pv[i as int]));
                }
            },
        }
        let ghost pre = out;
        out.push(line);
        proof {
            assert forall|l: int| 0 <= l < pre@.len()
                implies #[trigger] out.deep_view()[l] == pre.deep_view()[l] by {
                assert(out@[l] == pre@[l]);
            }
            assert(out.deep_view()[pre@.len() as int] == queue_entry_line(pv[i as int]));
        }
    }
    proof {
        assert(out.deep_view() =~= pv.map_values(|e: QueueRecordV| queue_entry_line(e)));
    }
    out
}

} // verus!
