//! The laws the registry obeys, stated over the ledger's mathematical model
//! and proved once for all inputs.

use vstd::prelude::*;
use crate::addressing::spec_agent_address;
use crate::errors::ErrorCode;
use crate::ledger::{
    lemma_ledger_records_canonical, spec_accept_receipt, spec_close_agent, spec_create_receipt,
    spec_rate_and_close, spec_register, spec_update_agent_data, Ledger,
};
use crate::records::{next_rating, AgentView, RecordView, MAX_AGENT_DATA_BYTES};

verus! {

/// Law: registering an owner and then looking that owner up finds a record
/// with rating 0, total_receipts 0, and exactly the supplied payload.
pub proof fn lemma_register_then_lookup(
    m: Map<Seq<u8>, RecordView>,
    signer: u64,
    agent_data: Seq<u8>,
)
    requires
        spec_register(m, signer, spec_agent_address(signer), agent_data).0 == Ok::<
            (),
            ErrorCode,
        >(()),
    ensures
        ({
            let m1 = spec_register(m, signer, spec_agent_address(signer), agent_data).1;
            let k = spec_agent_address(signer);
            &&& m1.contains_key(k)
            &&& m1[k] == RecordView::AgentRecord(AgentView::fresh(signer, agent_data))
            &&& m1[k]->AgentRecord_0.rating == 0
            &&& m1[k]->AgentRecord_0.total_receipts == 0
            &&& m1[k]->AgentRecord_0.agent_data == agent_data
            &&& m1[k]->AgentRecord_0.owner == signer
        }),
{
}

/// Law: a second registration for the same owner fails with `AlreadyExists`
/// and leaves the first record, and the whole ledger, unchanged.
pub proof fn lemma_register_twice(
    m: Map<Seq<u8>, RecordView>,
    signer: u64,
    first_data: Seq<u8>,
    second_data: Seq<u8>,
)
    requires
        spec_register(m, signer, spec_agent_address(signer), first_data).0 == Ok::<
            (),
            ErrorCode,
        >(()),
        second_data.len() <= MAX_AGENT_DATA_BYTES,
    ensures
        ({
            let m1 = spec_register(m, signer, spec_agent_address(signer), first_data).1;
            let k = spec_agent_address(signer);
            let second = spec_register(m1, signer, k, second_data);
            &&& second.0 == Err::<(), ErrorCode>(ErrorCode::AlreadyExists)
            &&& second.1 == m1
            &&& m1[k] == RecordView::AgentRecord(AgentView::fresh(signer, first_data))
        }),
{
}

/// Law: accepting the same receipt twice succeeds exactly once. The second
/// attempt fails with `InvalidReceiptStatus`, changes nothing, and the
/// acceptance timestamp of the first attempt stays in place.
pub proof fn lemma_accept_twice(
    m: Map<Seq<u8>, RecordView>,
    signer: u64,
    agent_supplied: Seq<u8>,
    receipt_supplied: Seq<u8>,
    first_time: i64,
    second_time: i64,
)
    requires
        spec_accept_receipt(m, signer, agent_supplied, receipt_supplied, first_time).0 == Ok::<
            (),
            ErrorCode,
        >(()),
    ensures
        ({
            let m1 = spec_accept_receipt(m, signer, agent_supplied, receipt_supplied, first_time).1;
            let second = spec_accept_receipt(m1, signer, agent_supplied, receipt_supplied, second_time);
            &&& second.0 == Err::<(), ErrorCode>(ErrorCode::InvalidReceiptStatus)
            &&& second.1 == m1
            &&& m1[receipt_supplied]->ReceiptRecord_0.accepted_at == Some(first_time)
        }),
{
    let rc = m[receipt_supplied]->ReceiptRecord_0;
    let m1 = spec_accept_receipt(m, signer, agent_supplied, receipt_supplied, first_time).1;
    assert(m1[receipt_supplied] == RecordView::ReceiptRecord(rc.accepted(first_time)));
    assert(rc.accepted(first_time).addr() == rc.addr());
    assert(m1[rc.agent] == m[rc.agent]);
}

/// Law: `rate_and_close` on a receipt that is still `Pending` fails with
/// `ReceiptNotAccepted` and leaves the ledger, the receipt included,
/// unchanged.
pub proof fn lemma_rate_pending_unchanged(
    m: Map<Seq<u8>, RecordView>,
    signer: u64,
    agent_supplied: Seq<u8>,
    receipt_supplied: Seq<u8>,
    is_positive: bool,
)
    requires
        m.contains_key(receipt_supplied),
        ({
            &&& m[receipt_supplied] matches RecordView::ReceiptRecord(rc)
            &&& receipt_supplied == rc.addr()
            &&& signer == rc.caller
            &&& rc.agent == agent_supplied
            &&& rc.status is Pending
            &&& m.contains_key(agent_supplied)
            &&& m[agent_supplied] matches RecordView::AgentRecord(a)
            &&& agent_supplied == a.addr()
        }),
    ensures
        spec_rate_and_close(m, signer, agent_supplied, receipt_supplied, is_positive).0 == Err::<
            (),
            ErrorCode,
        >(ErrorCode::ReceiptNotAccepted),
        spec_rate_and_close(m, signer, agent_supplied, receipt_supplied, is_positive).1 == m,
{
}

/// A run of rated closures against one agent record, oldest outcome first.
pub open spec fn fold_rated(a: AgentView, outcomes: Seq<bool>) -> AgentView
    decreases outcomes.len(),
{
    if outcomes.len() == 0 {
        a
    } else {
        fold_rated(a, outcomes.drop_last()).rated(outcomes.last())
    }
}

/// Law: starting from rating 0, any run of negative closures leaves the
/// rating at 0 — the floor holds over whole sequences, not only one step —
/// while `total_receipts` still counts every closure.
pub proof fn lemma_rating_floor(a: AgentView, outcomes: Seq<bool>)
    requires
        a.rating == 0,
        forall|i: int| 0 <= i < outcomes.len() ==> !outcomes[i],
    ensures
        fold_rated(a, outcomes).rating == 0,
        fold_rated(a, outcomes).total_receipts == a.total_receipts + outcomes.len(),
    decreases outcomes.len(),
{
    if outcomes.len() > 0 {
        lemma_rating_floor(a, outcomes.drop_last());
    }
}

/// Law: `total_receipts` grows by exactly one per closure, whatever the
/// outcomes' signs, and never by any other operation.
pub proof fn lemma_total_receipts_counts_closures(a: AgentView, outcomes: Seq<bool>)
    ensures
        fold_rated(a, outcomes).total_receipts == a.total_receipts + outcomes.len(),
    decreases outcomes.len(),
{
    if outcomes.len() > 0 {
        lemma_total_receipts_counts_closures(a, outcomes.drop_last());
    }
}

/// Law: one rated closure never lowers the rating below zero, and lowers or
/// raises it by at most one.
pub proof fn lemma_next_rating_bounds(rating: int, is_positive: bool)
    requires
        rating >= 0,
    ensures
        next_rating(rating, is_positive) >= 0,
        rating - 1 <= next_rating(rating, is_positive) <= rating + 1,
{
}

/// Law: every error is detected before any record changes — an operation
/// that fails leaves the ledger exactly as it found it, whichever of the six
/// operations it was.
pub proof fn lemma_failure_leaves_ledger_unchanged(
    m: Map<Seq<u8>, RecordView>,
    signer: u64,
    agent_supplied: Seq<u8>,
    receipt_supplied: Seq<u8>,
    data: Seq<u8>,
    receipt_id: u64,
    now: i64,
    is_positive: bool,
)
    ensures
        spec_register(m, signer, agent_supplied, data).0 is Err ==> spec_register(
            m,
            signer,
            agent_supplied,
            data,
        ).1 == m,
        spec_update_agent_data(m, signer, agent_supplied, data).0 is Err
            ==> spec_update_agent_data(m, signer, agent_supplied, data).1 == m,
        spec_create_receipt(m, signer, agent_supplied, receipt_supplied, receipt_id, data, now).0
            is Err ==> spec_create_receipt(
            m,
            signer,
            agent_supplied,
            receipt_supplied,
            receipt_id,
            data,
            now,
        ).1 == m,
        spec_accept_receipt(m, signer, agent_supplied, receipt_supplied, now).0 is Err
            ==> spec_accept_receipt(m, signer, agent_supplied, receipt_supplied, now).1 == m,
        spec_rate_and_close(m, signer, agent_supplied, receipt_supplied, is_positive).0 is Err
            ==> spec_rate_and_close(m, signer, agent_supplied, receipt_supplied, is_positive).1
            == m,
        spec_close_agent(m, signer, agent_supplied).0 is Err ==> spec_close_agent(
            m,
            signer,
            agent_supplied,
        ).1 == m,
{
}

/// Law: a receipt never returns from `Accepted` to `Pending`. Whatever
/// operation runs next, an accepted receipt either still stands accepted,
/// with its acceptance timestamp untouched, or has been destroyed by a
/// rated closure — no operation rewrites it.
pub proof fn lemma_accepted_is_terminal(
    m: Map<Seq<u8>, RecordView>,
    m_after: Map<Seq<u8>, RecordView>,
    k: Seq<u8>,
    signer: u64,
    agent_supplied: Seq<u8>,
    receipt_supplied: Seq<u8>,
    data: Seq<u8>,
    receipt_id: u64,
    now: i64,
    is_positive: bool,
)
    requires
        m.contains_key(k),
        m[k] matches RecordView::ReceiptRecord(rc) && rc.status is Accepted,
        m_after == spec_register(m, signer, agent_supplied, data).1 || m_after
            == spec_update_agent_data(m, signer, agent_supplied, data).1 || m_after
            == spec_create_receipt(
            m,
            signer,
            agent_supplied,
            receipt_supplied,
            receipt_id,
            data,
            now,
        ).1 || m_after == spec_accept_receipt(m, signer, agent_supplied, receipt_supplied, now).1
            || m_after == spec_rate_and_close(
            m,
            signer,
            agent_supplied,
            receipt_supplied,
            is_positive,
        ).1 || m_after == spec_close_agent(m, signer, agent_supplied).1,
    ensures
        m_after.contains_key(k) ==> m_after[k] == m[k],
{
}

/// Law: a well-formed ledger holds at most one Agent record per owner key —
/// two agent records with the same owner are the same record at the same
/// address.
pub proof fn lemma_one_agent_per_owner(l: &Ledger, k1: Seq<u8>, k2: Seq<u8>)
    requires
        l.wf(),
        l@.contains_key(k1),
        l@.contains_key(k2),
        ({
            &&& l@[k1] matches RecordView::AgentRecord(a1)
            &&& l@[k2] matches RecordView::AgentRecord(a2)
            &&& a1.owner == a2.owner
        }),
    ensures
        k1 == k2,
{
    lemma_ledger_records_canonical(l);
}

/// Law: a well-formed ledger holds at most one live Receipt record per
/// `(agent, caller, receipt_id)` triple — two receipts with the same triple
/// are the same record at the same address.
pub proof fn lemma_one_receipt_per_triple(l: &Ledger, k1: Seq<u8>, k2: Seq<u8>)
    requires
        l.wf(),
        l@.contains_key(k1),
        l@.contains_key(k2),
        ({
            &&& l@[k1] matches RecordView::ReceiptRecord(r1)
            &&& l@[k2] matches RecordView::ReceiptRecord(r2)
            &&& r1.agent == r2.agent
            &&& r1.caller == r2.caller
            &&& r1.receipt_id == r2.receipt_id
        }),
    ensures
        k1 == k2,
{
    lemma_ledger_records_canonical(l);
}

} // verus!
