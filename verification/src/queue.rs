//! Queue tasks.
//!
//! A queue entry is a durable record of a signing operation requested by
//! the split-front instance but not yet performed: a certification request
//! or a bridge request, together with a stable identity, a creation time
//! and a done flag.  The front and the back agree on an entry's identity
//! through that id.

use vstd::prelude::*;

use crate::model::PgpCert;
use crate::model::PgpCertV;
use crate::model::copy_pgp_cert;
use crate::model::copy_string_vec;

verus! {

/// A deferred request to certify `user_ids` of `cert`, optionally limited
/// to `days` days of validity.
pub struct CertificationReq {
    pub cert: PgpCert,
    pub user_ids: Vec<String>,
    pub days: Option<u64>,
}

#[verifier::ext_equal]
pub ghost struct CertificationReqV {
    pub cert: PgpCertV,
    pub user_ids: Seq<Seq<char>>,
    pub days: Option<u64>,
}

impl View for CertificationReq {
    type V = CertificationReqV;

    open spec fn view(&self) -> CertificationReqV {
        CertificationReqV {
            cert: self.cert@,
            user_ids: self.user_ids.deep_view(),
            days: self.days,
        }
    }
}

impl CertificationReq {
    /// The certificate whose user ids are to be certified.
    pub fn cert(&self) -> (r: &PgpCert)
        ensures
            r@ == self@.cert,
    {
        &self.cert
    }

    /// The requested validity in days, `None` for no expiration.
    pub fn days(&self) -> (r: Option<u64>)
        ensures
            r == self@.days,
    {
        self.days
    }

    /// The user ids to certify.
    pub fn user_ids(&self) -> (r: &Vec<String>)
        ensures
            r.deep_view() == self@.user_ids,
    {
        &self.user_ids
    }
}

/// A deferred request to extend trust to a remote CA's certificate,
/// scoped by `scope_regexes` (empty means unscoped).
pub struct BridgeReq {
    pub cert: PgpCert,
    pub scope_regexes: Vec<String>,
}

#[verifier::ext_equal]
pub ghost struct BridgeReqV {
    pub cert: PgpCertV,
    pub scope_regexes: Seq<Seq<char>>,
}

impl View for BridgeReq {
    type V = BridgeReqV;

    open spec fn view(&self) -> BridgeReqV {
        BridgeReqV {
            cert: self.cert@,
            scope_regexes: self.scope_regexes.deep_view(),
        }
    }
}

/// A queued task: the tagged variants of the deferred operations.
pub enum QueueEntry {
    CertificationReq(CertificationReq),
    BridgeReq(BridgeReq),
}

#[verifier::ext_equal]
pub ghost enum QueueEntryV {
    CertificationReq(CertificationReqV),
    BridgeReq(BridgeReqV),
}

impl View for QueueEntry {
    type V = QueueEntryV;

    open spec fn view(&self) -> QueueEntryV {
        match self {
            QueueEntry::CertificationReq(cr) => QueueEntryV::CertificationReq(cr@),
            QueueEntry::BridgeReq(br) => QueueEntryV::BridgeReq(br@),
        }
    }
}

impl DeepView for QueueEntry {
    type V = QueueEntryV;

    open spec fn deep_view(&self) -> QueueEntryV {
        self.view()
    }
}

/// Copies a queue entry.
pub fn copy_queue_entry(e: &QueueEntry) -> (r: QueueEntry)
    ensures
        r@ == e@,
{
    match e {
        QueueEntry::CertificationReq(cr) => {
            let c = CertificationReq {
                cert: copy_pgp_cert(&cr.cert),
                user_ids: copy_string_vec(&cr.user_ids),
                days: cr.days,
            };
            proof {
                assert(c@ =~= cr@);
            }
            QueueEntry::CertificationReq(c)
        },
        QueueEntry::BridgeReq(br) => {
            let b = BridgeReq {
                cert: copy_pgp_cert(&br.cert),
                scope_regexes: copy_string_vec(&br.scope_regexes),
            };
            proof {
                assert(b@ =~= br@);
            }
            QueueEntry::BridgeReq(b)
        },
    }
}

/// A durable queue entry: stable id, creation time, the task, and whether
/// a matching response has been imported.
pub struct QueueRecord {
    pub id: u64,
    pub created: u64,
    pub task: QueueEntry,
    pub done: bool,
}

#[verifier::ext_equal]
pub ghost struct QueueRecordV {
    pub id: u64,
    pub created: u64,
    pub task: QueueEntryV,
    pub done: bool,
}

impl View for QueueRecord {
    type V = QueueRecordV;

    open spec fn view(&self) -> QueueRecordV {
        QueueRecordV {
            id: self.id,
            created: self.created,
            task: self.task@,
            done: self.done,
        }
    }
}

impl DeepView for QueueRecord {
    type V = QueueRecordV;

    open spec fn deep_view(&self) -> QueueRecordV {
        self.view()
    }
}

/// Copies a queue record.
pub fn copy_queue_record(q: &QueueRecord) -> (r: QueueRecord)
    ensures
        r@ == q@,
{
    let r = QueueRecord {
        id: q.id,
        created: q.created,
        task: copy_queue_entry(&q.task),
        done: q.done,
    };
    proof {
        assert(r@ =~= q@);
    }
    r
}

} // verus!
