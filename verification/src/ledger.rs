//! The ledger: the host's account space, modeled as a content-addressed map
//! from derived address to record, together with the six operations the host
//! may dispatch against it.
//!
//! Every operation takes the authenticated signer and the caller-supplied
//! record addresses as plain values. Before any mutation it re-derives the
//! expected address of each record it touches from the record's logical key
//! and compares, and checks that the signer is the party the operation
//! requires; every failure leaves the ledger exactly as it was, so each
//! operation is a single atomic transition of the map.

use vstd::prelude::*;
use crate::addressing::{
    address_eq, derive_agent_address, derive_receipt_address, lemma_address_kinds_distinct,
    lemma_agent_address_injective, lemma_agent_address_shape, lemma_receipt_address_injective,
    spec_agent_address, spec_receipt_address, Address, AGENT_ADDRESS_LEN,
};
use crate::errors::ErrorCode;
use crate::records::{
    rating_overflows, Agent, AgentView, Receipt, ReceiptStatus, ReceiptView, Record, RecordView,
    MAX_AGENT_DATA_BYTES, MAX_TASK_DESCRIPTION_BYTES,
};

verus! {

/// One allocated slot of the host's account space: a record at its derived
/// address.
pub struct LedgerEntry {
    pub address: Address,
    pub record: Record,
}

/// The contents of a run of slots, as a map from address to record view.
pub open spec fn entries_map(s: Seq<LedgerEntry>) -> Map<Seq<u8>, RecordView>
    decreases s.len(),
{
    if s.len() == 0 {
        Map::empty()
    } else {
        entries_map(s.drop_last()).insert(s.last().address@, s.last().record@)
    }
}

/// Whether some slot holds the address `k`.
pub open spec fn has_address(s: Seq<LedgerEntry>, k: Seq<u8>) -> bool {
    exists|i: int| 0 <= i < s.len() && (#[trigger] s[i]).address@ == k
}

/// No two slots share an address.
pub open spec fn unique_addresses(s: Seq<LedgerEntry>) -> bool {
    forall|i: int, j: int|
        0 <= i < j < s.len() ==> (#[trigger] s[i]).address@ != (#[trigger] s[j]).address@
}

/// A slot is well formed when its record is and when the slot's address is
/// the one derived from the record's own logical key.
pub open spec fn entry_wf(e: LedgerEntry) -> bool {
    &&& e.record@.wf()
    &&& e.address@ == e.record@.addr()
}

/// Every slot is well formed.
pub open spec fn all_wf(s: Seq<LedgerEntry>) -> bool {
    forall|i: int| 0 <= i < s.len() ==> entry_wf(#[trigger] s[i])
}

proof fn lemma_entries_map_domain(s: Seq<LedgerEntry>)
    ensures
        forall|k: Seq<u8>| #[trigger] entries_map(s).contains_key(k) <==> has_address(s, k),
    decreases s.len(),
{
    if s.len() > 0 {
        let s0 = s.drop_last();
        lemma_entries_map_domain(s0);
        assert forall|k: Seq<u8>| #[trigger]
            entries_map(s).contains_key(k) implies has_address(s, k) by {
            if k == s.last().address@ {
                assert(0 <= s.len() - 1 < s.len() && s[s.len() - 1].address@ == k);
            } else {
                assert(entries_map(s0).contains_key(k));
                assert(has_address(s0, k));
                let i = choose|i: int| 0 <= i < s0.len() && (#[trigger] s0[i]).address@ == k;
                assert(s[i].address@ == k);
            }
        }
        assert forall|k: Seq<u8>| has_address(s, k) implies #[trigger]
            entries_map(s).contains_key(k) by {
            let i = choose|i: int| 0 <= i < s.len() && (#[trigger] s[i]).address@ == k;
            if i < s.len() - 1 {
                assert(s0[i].address@ == k);
                assert(has_address(s0, k));
            }
        }
    }
}

proof fn lemma_entries_map_index(s: Seq<LedgerEntry>, i: int)
    requires
        unique_addresses(s),
        0 <= i < s.len(),
    ensures
        entries_map(s).contains_key(s[i].address@),
        entries_map(s)[s[i].address@] == s[i].record@,
    decreases s.len(),
{
    if i < s.len() - 1 {
        let s0 = s.drop_last();
        lemma_entries_map_index(s0, i);
        assert(s0[i] == s[i]);
        assert(s[i].address@ != s.last().address@);
    }
}

proof fn lemma_push_entry(s: Seq<LedgerEntry>, e: LedgerEntry)
    requires
        unique_addresses(s),
        all_wf(s),
        !has_address(s, e.address@),
        entry_wf(e),
    ensures
        unique_addresses(s.push(e)),
        all_wf(s.push(e)),
        entries_map(s.push(e)) == entries_map(s).insert(e.address@, e.record@),
{
    let t = s.push(e);
    assert(t.drop_last() =~= s);
    assert forall|i: int, j: int|
        0 <= i < j < t.len() implies (#[trigger] t[i]).address@ != (#[trigger] t[j]).address@ by {
        if j < s.len() {
            assert(s[i].address@ != s[j].address@);
        } else {
            assert(t[j] == e);
            assert(s[i].address@ != e.address@);
        }
    }
    assert forall|i: int| 0 <= i < t.len() implies entry_wf(#[trigger] t[i]) by {
        if i < s.len() {
            assert(entry_wf(s[i]));
        }
    }
}

proof fn lemma_remove_entry(s: Seq<LedgerEntry>, i: int)
    requires
        unique_addresses(s),
        all_wf(s),
        0 <= i < s.len(),
    ensures
        unique_addresses(s.remove(i)),
        all_wf(s.remove(i)),
        entries_map(s.remove(i)) == entries_map(s).remove(s[i].address@),
        !has_address(s.remove(i), s[i].address@),
    decreases s.len(),
{
    let k = s[i].address@;
    let t = s.remove(i);
    s.remove_ensures(i);
    assert forall|p: int, q: int|
        0 <= p < q < t.len() implies (#[trigger] t[p]).address@ != (#[trigger] t[q]).address@ by {
        let p0: int = if p < i { p } else { p + 1 };
        let q0: int = if q < i { q } else { q + 1 };
        assert(t[p] == s[p0] && t[q] == s[q0]);
        assert(s[p0].address@ != s[q0].address@);
    }
    assert forall|p: int| 0 <= p < t.len() implies entry_wf(#[trigger] t[p]) by {
        let p0: int = if p < i { p } else { p + 1 };
        assert(t[p] == s[p0]);
        assert(entry_wf(s[p0]));
    }
    assert forall|p: int| 0 <= p < t.len() implies (#[trigger] t[p]).address@ != k by {
        let p0: int = if p < i { p } else { p + 1 };
        assert(t[p] == s[p0]);
        if p0 < i {
            assert(s[p0].address@ != s[i].address@);
        } else {
            assert(s[i].address@ != s[p0].address@);
        }
    }
    if i == s.len() - 1 {
        let s0 = s.drop_last();
        assert(t =~= s0);
        lemma_entries_map_domain(s0);
        assert(!entries_map(s0).contains_key(k));
        assert(entries_map(t) =~= entries_map(s).remove(k));
    } else {
        let s0 = s.drop_last();
        lemma_remove_entry(s0, i);
        assert(t.drop_last() =~= s0.remove(i));
        assert(t.last() == s.last());
        assert(entries_map(t) == entries_map(s0.remove(i)).insert(s.last().address@, s.last().record@));
        assert(s.last().address@ != k);
        assert(entries_map(t) =~= entries_map(s).remove(k));
    }
}

/// The ledger: every live record, each at its derived address.
pub struct Ledger {
    pub entries: Vec<LedgerEntry>,
}

impl View for Ledger {
    type V = Map<Seq<u8>, RecordView>;

    open spec fn view(&self) -> Map<Seq<u8>, RecordView> {
        entries_map(self.entries@)
    }
}

impl Ledger {
    /// Well-formedness: no two records share an address, every record is
    /// well formed, and each sits at the address derived from its own
    /// logical key.
    pub open spec fn wf(&self) -> bool {
        &&& unique_addresses(self.entries@)
        &&& all_wf(self.entries@)
    }

    /// An empty account space.
    pub fn new() -> (r: Ledger)
        ensures
            r.wf(),
            r@ == Map::<Seq<u8>, RecordView>::empty(),
    {
        Ledger { entries: Vec::new() }
    }

    /// The slot holding `address`, if one does.
    fn find_index(&self, address: &Address) -> (r: Option<usize>)
        ensures
            (match r {
                Some(i) => i < self.entries@.len() && self.entries@[i as int].address@ == address@,
                None => !has_address(self.entries@, address@),
            }),
    {
        let n = self.entries.len();
        let mut i: usize = 0;
        while i < n
            invariant
                i <= n,
                n == self.entries@.len(),
                forall|j: int| 0 <= j < i ==> (#[trigger] self.entries@[j]).address@ != address@,
            decreases n - i,
        {
            if address_eq(&self.entries[i].address, address) {
                return Some(i);
            }
            i = i + 1;
        }
        None
    }

    /// Creates a new Agent record for the signer at the derived address.
    /// Registration is self-registration: the record's owner is the
    /// authenticated signer. The record starts with rating 0 and
    /// total_receipts 0 and carries the discovered salt.
    pub fn register_agent(
        &mut self,
        signer: u64,
        agent_address: &Address,
        agent_data: Vec<u8>,
    ) -> (r: Result<(), ErrorCode>)
        requires
            old(self).wf(),
        ensures
            final(self).wf(),
            r == spec_register(old(self)@, signer, agent_address@, agent_data@).0,
            final(self)@ == spec_register(old(self)@, signer, agent_address@, agent_data@).1,
    {
        let (expected, salt) = derive_agent_address(signer);
        if !address_eq(agent_address, &expected) {
            return Err(ErrorCode::AddressMismatch);
        }
        if agent_data.len() > MAX_AGENT_DATA_BYTES {
            return Err(ErrorCode::DataTooLong);
        }
        match self.find_index(agent_address) {
            Some(i) => {
                proof {
                    lemma_entries_map_index(self.entries@, i as int);
                }
                return Err(ErrorCode::AlreadyExists);
            },
            None => {
                proof {
                    lemma_entries_map_domain(self.entries@);
                }
            },
        }
        let agent = Agent {
            owner: signer,
            agent_data,
            rating: 0,
            total_receipts: 0,
            address_salt: salt,
        };
        let entry = LedgerEntry { address: expected, record: Record::AgentRecord(agent) };
        proof {
            assert(entry.record@ == RecordView::AgentRecord(AgentView::fresh(signer, agent_data@)));
            lemma_push_entry(self.entries@, entry);
        }
        self.entries.push(entry);
        Ok(())
    }

    /// The Agent record registered for `owner`, if one is.
    pub fn get_agent(&self, owner: u64) -> (r: Option<&Agent>)
        requires
            self.wf(),
        ensures
            (match r {
                Some(a) => self@.contains_key(spec_agent_address(owner)) && self@[spec_agent_address(
                    owner,
                )] == RecordView::AgentRecord(a@) && a@.owner == owner && a@.wf(),
                None => !self@.contains_key(spec_agent_address(owner)),
            }),
    {
        let (expected, _salt) = derive_agent_address(owner);
        match self.find_index(&expected) {
            None => {
                proof {
                    lemma_entries_map_domain(self.entries@);
                }
                None
            },
            Some(i) => {
                proof {
                    lemma_entries_map_index(self.entries@, i as int);
                }
                match &self.entries[i].record {
                    Record::AgentRecord(a) => {
                        proof {
                            lemma_agent_address_injective(a.owner, owner);
                        }
                        Some(a)
                    },
                    Record::ReceiptRecord(rc) => {
                        proof {
                            lemma_address_kinds_distinct(owner, rc@.agent, rc@.caller, rc@.receipt_id);
                            assert(false);
                        }
                        None
                    },
                }
            },
        }
    }

    /// Replaces the descriptive payload of the signer's Agent record. Only
    /// the stored owner may do so; no other field changes.
    pub fn update_agent_data(
        &mut self,
        signer: u64,
        agent_address: &Address,
        new_agent_data: Vec<u8>,
    ) -> (r: Result<(), ErrorCode>)
        requires
            old(self).wf(),
        ensures
            final(self).wf(),
            r == spec_update_agent_data(old(self)@, signer, agent_address@, new_agent_data@).0,
            final(self)@ == spec_update_agent_data(
                old(self)@,
                signer,
                agent_address@,
                new_agent_data@,
            ).1,
    {
        let i = match self.find_index(agent_address) {
            None => {
                proof {
                    lemma_entries_map_domain(self.entries@);
                }
                return Err(ErrorCode::RecordNotFound);
            },
            Some(i) => i,
        };
        proof {
            lemma_entries_map_index(self.entries@, i as int);
        }
        match &self.entries[i].record {
            Record::ReceiptRecord(_) => {
                return Err(ErrorCode::RecordNotFound);
            },
            Record::AgentRecord(a) => {
                let (expected, _salt) = derive_agent_address(a.owner);
                if !address_eq(agent_address, &expected) {
                    return Err(ErrorCode::AddressMismatch);
                }
                if signer != a.owner {
                    return Err(ErrorCode::Unauthorized);
                }
                if new_agent_data.len() > MAX_AGENT_DATA_BYTES {
                    return Err(ErrorCode::DataTooLong);
                }
            },
        }
        proof {
            lemma_remove_entry(self.entries@, i as int);
        }
        let entry = self.entries.remove(i);
        match entry.record {
            Record::AgentRecord(a) => {
                let updated = Agent { agent_data: new_agent_data, ..a };
                let e2 = LedgerEntry {
                    address: entry.address,
                    record: Record::AgentRecord(updated),
                };
                proof {
                    assert(e2.record@ == RecordView::AgentRecord(a@.with_agent_data(new_agent_data@)));
                    lemma_push_entry(self.entries@, e2);
                }
                self.entries.push(e2);
                proof {
                    assert(self@ =~= spec_update_agent_data(
                        old(self)@,
                        signer,
                        agent_address@,
                        new_agent_data@,
                    ).1);
                }
                Ok(())
            },
            Record::ReceiptRecord(_) => {
                proof {
                    assert(false);
                }
                Err(ErrorCode::RecordNotFound)
            },
        }
    }

    /// Destroys the signer's Agent record; its storage deposit goes back to
    /// the owner at the host layer. The core does not check whether live
    /// Receipts still reference the record.
    pub fn close_agent(&mut self, signer: u64, agent_address: &Address) -> (r: Result<
        (),
        ErrorCode,
    >)
        requires
            old(self).wf(),
        ensures
            final(self).wf(),
            r == spec_close_agent(old(self)@, signer, agent_address@).0,
            final(self)@ == spec_close_agent(old(self)@, signer, agent_address@).1,
    {
        let i = match self.find_index(agent_address) {
            None => {
                proof {
                    lemma_entries_map_domain(self.entries@);
                }
                return Err(ErrorCode::RecordNotFound);
            },
            Some(i) => i,
        };
        proof {
            lemma_entries_map_index(self.entries@, i as int);
        }
        match &self.entries[i].record {
            Record::ReceiptRecord(_) => {
                return Err(ErrorCode::RecordNotFound);
            },
            Record::AgentRecord(a) => {
                let (expected, _salt) = derive_agent_address(a.owner);
                if !address_eq(agent_address, &expected) {
                    return Err(ErrorCode::AddressMismatch);
                }
                if signer != a.owner {
                    return Err(ErrorCode::Unauthorized);
                }
            },
        }
        proof {
            lemma_remove_entry(self.entries@, i as int);
        }
        let _closed = self.entries.remove(i);
        Ok(())
    }

    /// The Receipt record with the given logical key, if one lives.
    pub fn get_receipt(&self, agent_address: &Address, caller: u64, receipt_id: u64) -> (r:
        Option<&Receipt>)
        requires
            self.wf(),
            agent_address@.len() == AGENT_ADDRESS_LEN,
        ensures
            (match r {
                Some(rc) => {
                    let k = spec_receipt_address(agent_address@, caller, receipt_id);
                    self@.contains_key(k) && self@[k] == RecordView::ReceiptRecord(rc@)
                        && rc@.agent == agent_address@ && rc@.caller == caller && rc@.receipt_id
                        == receipt_id && rc@.wf()
                },
                None => !self@.contains_key(
                    spec_receipt_address(agent_address@, caller, receipt_id),
                ),
            }),
    {
        let (expected, _salt) = derive_receipt_address(agent_address, caller, receipt_id);
        match self.find_index(&expected) {
            None => {
                proof {
                    lemma_entries_map_domain(self.entries@);
                }
                None
            },
            Some(i) => {
                proof {
                    lemma_entries_map_index(self.entries@, i as int);
                }
                match &self.entries[i].record {
                    Record::ReceiptRecord(rc) => {
                        proof {
                            lemma_receipt_address_injective(
                                rc@.agent,
                                rc@.caller,
                                rc@.receipt_id,
                                agent_address@,
                                caller,
                                receipt_id,
                            );
                        }
                        Some(rc)
                    },
                    Record::AgentRecord(a) => {
                        proof {
                            lemma_address_kinds_distinct(
                                a@.owner,
                                agent_address@,
                                caller,
                                receipt_id,
                            );
                            assert(false);
                        }
                        None
                    },
                }
            },
        }
    }

    /// Creates a `Pending` receipt for one unit of work the signer requests
    /// from the referenced agent, at the address derived from the receipt's
    /// logical key. The signer is recorded as the receipt's caller; the host
    /// supplies `now` as the creation time.
    pub fn create_receipt(
        &mut self,
        signer: u64,
        agent_address: &Address,
        receipt_address: &Address,
        receipt_id: u64,
        task_description: Vec<u8>,
        now: i64,
    ) -> (r: Result<(), ErrorCode>)
        requires
            old(self).wf(),
        ensures
            final(self).wf(),
            r == spec_create_receipt(
                old(self)@,
                signer,
                agent_address@,
                receipt_address@,
                receipt_id,
                task_description@,
                now,
            ).0,
            final(self)@ == spec_create_receipt(
                old(self)@,
                signer,
                agent_address@,
                receipt_address@,
                receipt_id,
                task_description@,
                now,
            ).1,
    {
        let a_idx = match self.find_index(agent_address) {
            None => {
                proof {
                    lemma_entries_map_domain(self.entries@);
                }
                return Err(ErrorCode::RecordNotFound);
            },
            Some(i) => i,
        };
        proof {
            lemma_entries_map_index(self.entries@, a_idx as int);
        }
        let owner = match &self.entries[a_idx].record {
            Record::ReceiptRecord(_) => {
                return Err(ErrorCode::RecordNotFound);
            },
            Record::AgentRecord(a) => a.owner,
        };
        let (expected_a, _asalt) = derive_agent_address(owner);
        if !address_eq(agent_address, &expected_a) {
            return Err(ErrorCode::AddressMismatch);
        }
        proof {
            lemma_agent_address_shape(owner);
        }
        let (expected_r, salt) = derive_receipt_address(agent_address, signer, receipt_id);
        if !address_eq(receipt_address, &expected_r) {
            return Err(ErrorCode::AddressMismatch);
        }
        if task_description.len() > MAX_TASK_DESCRIPTION_BYTES {
            return Err(ErrorCode::DataTooLong);
        }
        match self.find_index(receipt_address) {
            Some(j) => {
                proof {
                    lemma_entries_map_index(self.entries@, j as int);
                }
                return Err(ErrorCode::AlreadyExists);
            },
            None => {
                proof {
                    lemma_entries_map_domain(self.entries@);
                }
            },
        }
        let receipt = Receipt {
            agent: agent_address.clone(),
            caller: signer,
            task_description,
            status: ReceiptStatus::Pending,
            rating: None,
            receipt_id,
            created_at: now,
            accepted_at: None,
            address_salt: salt,
        };
        let entry = LedgerEntry { address: expected_r, record: Record::ReceiptRecord(receipt) };
        proof {
            assert(entry.record@ == RecordView::ReceiptRecord(
                ReceiptView::fresh(agent_address@, signer, receipt_id, task_description@, now),
            ));
            lemma_push_entry(self.entries@, entry);
        }
        self.entries.push(entry);
        Ok(())
    }

    /// Moves a `Pending` receipt to `Accepted`. Only the owner of the
    /// referenced agent may accept; the host supplies `now` as the
    /// acceptance time.
    pub fn accept_receipt(
        &mut self,
        signer: u64,
        agent_address: &Address,
        receipt_address: &Address,
        now: i64,
    ) -> (r: Result<(), ErrorCode>)
        requires
            old(self).wf(),
        ensures
            final(self).wf(),
            r == spec_accept_receipt(old(self)@, signer, agent_address@, receipt_address@, now).0,
            final(self)@ == spec_accept_receipt(
                old(self)@,
                signer,
                agent_address@,
                receipt_address@,
                now,
            ).1,
    {
        let r_idx = match self.find_index(receipt_address) {
            None => {
                proof {
                    lemma_entries_map_domain(self.entries@);
                }
                return Err(ErrorCode::RecordNotFound);
            },
            Some(i) => i,
        };
        proof {
            lemma_entries_map_index(self.entries@, r_idx as int);
        }
        let status = match &self.entries[r_idx].record {
            Record::AgentRecord(_) => {
                return Err(ErrorCode::RecordNotFound);
            },
            Record::ReceiptRecord(rc) => {
                let (expected_r, _rsalt) = derive_receipt_address(
                    &rc.agent,
                    rc.caller,
                    rc.receipt_id,
                );
                if !address_eq(receipt_address, &expected_r) {
                    return Err(ErrorCode::AddressMismatch);
                }
                if !address_eq(&rc.agent, agent_address) {
                    return Err(ErrorCode::AddressMismatch);
                }
                rc.status
            },
        };
        let a_idx = match self.find_index(agent_address) {
            None => {
                proof {
                    lemma_entries_map_domain(self.entries@);
                }
                return Err(ErrorCode::RecordNotFound);
            },
            Some(i) => i,
        };
        proof {
            lemma_entries_map_index(self.entries@, a_idx as int);
        }
        match &self.entries[a_idx].record {
            Record::ReceiptRecord(_) => {
                return Err(ErrorCode::RecordNotFound);
            },
            Record::AgentRecord(a) => {
                let (expected_a, _asalt) = derive_agent_address(a.owner);
                if !address_eq(&expected_a, agent_address) {
                    return Err(ErrorCode::AddressMismatch);
                }
                if signer != a.owner {
                    return Err(ErrorCode::Unauthorized);
                }
            },
        }
        if status != ReceiptStatus::Pending {
            return Err(ErrorCode::InvalidReceiptStatus);
        }
        proof {
            lemma_remove_entry(self.entries@, r_idx as int);
        }
        let entry = self.entries.remove(r_idx);
        match entry.record {
            Record::ReceiptRecord(rc) => {
                let updated = Receipt {
                    status: ReceiptStatus::Accepted,
                    accepted_at: Some(now),
                    ..rc
                };
                let e2 = LedgerEntry {
                    address: entry.address,
                    record: Record::ReceiptRecord(updated),
                };
                proof {
                    assert(e2.record@ == RecordView::ReceiptRecord(rc@.accepted(now)));
                    lemma_push_entry(self.entries@, e2);
                }
                self.entries.push(e2);
                proof {
                    assert(self@ =~= spec_accept_receipt(
                        old(self)@,
                        signer,
                        agent_address@,
                        receipt_address@,
                        now,
                    ).1);
                }
                Ok(())
            },
            Record::AgentRecord(_) => {
                proof {
                    assert(false);
                }
                Err(ErrorCode::RecordNotFound)
            },
        }
    }

    /// Rates an `Accepted` receipt and closes it, in one atomic step: the
    /// outcome is counted against the referenced agent's reputation by the
    /// floor rule, `total_receipts` grows by one, and the receipt record is
    /// destroyed, its storage deposit going back to the signer (the
    /// original caller) at the host layer.
    pub fn rate_and_close_receipt(
        &mut self,
        signer: u64,
        agent_address: &Address,
        receipt_address: &Address,
        is_positive: bool,
    ) -> (r: Result<(), ErrorCode>)
        requires
            old(self).wf(),
        ensures
            final(self).wf(),
            r == spec_rate_and_close(
                old(self)@,
                signer,
                agent_address@,
                receipt_address@,
                is_positive,
            ).0,
            final(self)@ == spec_rate_and_close(
                old(self)@,
                signer,
                agent_address@,
                receipt_address@,
                is_positive,
            ).1,
    {
        let r_idx = match self.find_index(receipt_address) {
            None => {
                proof {
                    lemma_entries_map_domain(self.entries@);
                }
                return Err(ErrorCode::RecordNotFound);
            },
            Some(i) => i,
        };
        proof {
            lemma_entries_map_index(self.entries@, r_idx as int);
        }
        let status = match &self.entries[r_idx].record {
            Record::AgentRecord(_) => {
                return Err(ErrorCode::RecordNotFound);
            },
            Record::ReceiptRecord(rc) => {
                let (expected_r, _rsalt) = derive_receipt_address(
                    &rc.agent,
                    rc.caller,
                    rc.receipt_id,
                );
                if !address_eq(receipt_address, &expected_r) {
                    return Err(ErrorCode::AddressMismatch);
                }
                if signer != rc.caller {
                    return Err(ErrorCode::Unauthorized);
                }
                if !address_eq(&rc.agent, agent_address) {
                    return Err(ErrorCode::AddressMismatch);
                }
                rc.status
            },
        };
        let a_idx = match self.find_index(agent_address) {
            None => {
                proof {
                    lemma_entries_map_domain(self.entries@);
                }
                return Err(ErrorCode::RecordNotFound);
            },
            Some(i) => i,
        };
        proof {
            lemma_entries_map_index(self.entries@, a_idx as int);
        }
        match &self.entries[a_idx].record {
            Record::ReceiptRecord(_) => {
                return Err(ErrorCode::RecordNotFound);
            },
            Record::AgentRecord(a) => {
                let (expected_a, _asalt) = derive_agent_address(a.owner);
                if !address_eq(&expected_a, agent_address) {
                    return Err(ErrorCode::AddressMismatch);
                }
                if status != ReceiptStatus::Accepted {
                    return Err(ErrorCode::ReceiptNotAccepted);
                }
                if is_positive && a.rating == i64::MAX {
                    return Err(ErrorCode::CounterOverflow);
                }
                if a.total_receipts == u64::MAX {
                    return Err(ErrorCode::CounterOverflow);
                }
            },
        }
        proof {
            assert(self.entries@[r_idx as int].address@ != self.entries@[a_idx as int].address@);
            lemma_remove_entry(self.entries@, r_idx as int);
        }
        let ghost pre = self.entries@;
        let _closed = self.entries.remove(r_idx);
        let a_idx2 = if a_idx > r_idx {
            a_idx - 1
        } else {
            a_idx
        };
        proof {
            pre.remove_ensures(r_idx as int);
            assert(self.entries@[a_idx2 as int] == pre[a_idx as int]);
            lemma_remove_entry(self.entries@, a_idx2 as int);
        }
        let entry = self.entries.remove(a_idx2);
        match entry.record {
            Record::AgentRecord(mut a) => {
                let applied = a.apply_rating(is_positive);
                match applied {
                    Err(e) => {
                        proof {
                            assert(false);
                        }
                        Err(e)
                    },
                    Ok(_counters) => {
                        let e2 = LedgerEntry {
                            address: entry.address,
                            record: Record::AgentRecord(a),
                        };
                        proof {
                            lemma_push_entry(self.entries@, e2);
                        }
                        self.entries.push(e2);
                        proof {
                            assert(self@ =~= spec_rate_and_close(
                                old(self)@,
                                signer,
                                agent_address@,
                                receipt_address@,
                                is_positive,
                            ).1);
                        }
                        Ok(())
                    },
                }
            },
            Record::ReceiptRecord(_) => {
                proof {
                    assert(false);
                }
                Err(ErrorCode::RecordNotFound)
            },
        }
    }
}

/// What `register_agent` returns and how it moves the map: the supplied
/// address must be the one derived from the signer's own key (registration
/// is self-registration, so the signer is the owner), the payload must be
/// within its byte bound, and the derived address must be free.
pub open spec fn spec_register(
    m: Map<Seq<u8>, RecordView>,
    signer: u64,
    supplied: Seq<u8>,
    agent_data: Seq<u8>,
) -> (Result<(), ErrorCode>, Map<Seq<u8>, RecordView>) {
    let k = spec_agent_address(signer);
    if supplied != k {
        (Err(ErrorCode::AddressMismatch), m)
    } else if agent_data.len() > MAX_AGENT_DATA_BYTES {
        (Err(ErrorCode::DataTooLong), m)
    } else if m.contains_key(k) {
        (Err(ErrorCode::AlreadyExists), m)
    } else {
        (Ok(()), m.insert(k, RecordView::AgentRecord(AgentView::fresh(signer, agent_data))))
    }
}

/// What `update_agent_data` returns and how it moves the map: an Agent
/// record must live at the supplied address and verify against its own key,
/// the signer must be the stored owner, and the new payload must be within
/// its byte bound. Only the payload changes.
pub open spec fn spec_update_agent_data(
    m: Map<Seq<u8>, RecordView>,
    signer: u64,
    supplied: Seq<u8>,
    new_agent_data: Seq<u8>,
) -> (Result<(), ErrorCode>, Map<Seq<u8>, RecordView>) {
    if !m.contains_key(supplied) {
        (Err(ErrorCode::RecordNotFound), m)
    } else {
        match m[supplied] {
            RecordView::ReceiptRecord(_) => (Err(ErrorCode::RecordNotFound), m),
            RecordView::AgentRecord(a) => {
                if supplied != a.addr() {
                    (Err(ErrorCode::AddressMismatch), m)
                } else if signer != a.owner {
                    (Err(ErrorCode::Unauthorized), m)
                } else if new_agent_data.len() > MAX_AGENT_DATA_BYTES {
                    (Err(ErrorCode::DataTooLong), m)
                } else {
                    (
                        Ok(()),
                        m.insert(supplied, RecordView::AgentRecord(a.with_agent_data(new_agent_data))),
                    )
                }
            },
        }
    }
}

/// What `create_receipt` returns and how it moves the map: the referenced
/// Agent record must exist and verify against its own key, the supplied
/// receipt address must be the one derived from the receipt's logical key
/// (the signer is the caller), the description must be within its byte
/// bound, and the derived address must be free.
pub open spec fn spec_create_receipt(
    m: Map<Seq<u8>, RecordView>,
    signer: u64,
    agent_supplied: Seq<u8>,
    receipt_supplied: Seq<u8>,
    receipt_id: u64,
    task_description: Seq<u8>,
    now: i64,
) -> (Result<(), ErrorCode>, Map<Seq<u8>, RecordView>) {
    if !m.contains_key(agent_supplied) {
        (Err(ErrorCode::RecordNotFound), m)
    } else {
        match m[agent_supplied] {
            RecordView::ReceiptRecord(_) => (Err(ErrorCode::RecordNotFound), m),
            RecordView::AgentRecord(a) => {
                if agent_supplied != a.addr() {
                    (Err(ErrorCode::AddressMismatch), m)
                } else {
                    let kr = spec_receipt_address(agent_supplied, signer, receipt_id);
                    if receipt_supplied != kr {
                        (Err(ErrorCode::AddressMismatch), m)
                    } else if task_description.len() > MAX_TASK_DESCRIPTION_BYTES {
                        (Err(ErrorCode::DataTooLong), m)
                    } else if m.contains_key(kr) {
                        (Err(ErrorCode::AlreadyExists), m)
                    } else {
                        (
                            Ok(()),
                            m.insert(
                                kr,
                                RecordView::ReceiptRecord(
                                    ReceiptView::fresh(
                                        agent_supplied,
                                        signer,
                                        receipt_id,
                                        task_description,
                                        now,
                                    ),
                                ),
                            ),
                        )
                    }
                }
            },
        }
    }
}

/// What `accept_receipt` returns and how it moves the map: the receipt must
/// exist, verify against its own key, and reference the supplied agent
/// address; the referenced Agent record must exist and verify; the signer
/// must be the agent's owner; and the receipt must still be `Pending`. The
/// transition records the acceptance time.
pub open spec fn spec_accept_receipt(
    m: Map<Seq<u8>, RecordView>,
    signer: u64,
    agent_supplied: Seq<u8>,
    receipt_supplied: Seq<u8>,
    now: i64,
) -> (Result<(), ErrorCode>, Map<Seq<u8>, RecordView>) {
    if !m.contains_key(receipt_supplied) {
        (Err(ErrorCode::RecordNotFound), m)
    } else {
        match m[receipt_supplied] {
            RecordView::AgentRecord(_) => (Err(ErrorCode::RecordNotFound), m),
            RecordView::ReceiptRecord(rc) => {
                if receipt_supplied != rc.addr() {
                    (Err(ErrorCode::AddressMismatch), m)
                } else if rc.agent != agent_supplied {
                    (Err(ErrorCode::AddressMismatch), m)
                } else if !m.contains_key(rc.agent) {
                    (Err(ErrorCode::RecordNotFound), m)
                } else {
                    match m[rc.agent] {
                        RecordView::ReceiptRecord(_) => (Err(ErrorCode::RecordNotFound), m),
                        RecordView::AgentRecord(a) => {
                            if rc.agent != a.addr() {
                                (Err(ErrorCode::AddressMismatch), m)
                            } else if signer != a.owner {
                                (Err(ErrorCode::Unauthorized), m)
                            } else if !(rc.status is Pending) {
                                (Err(ErrorCode::InvalidReceiptStatus), m)
                            } else {
                                (
                                    Ok(()),
                                    m.insert(
                                        receipt_supplied,
                                        RecordView::ReceiptRecord(rc.accepted(now)),
                                    ),
                                )
                            }
                        },
                    }
                }
            },
        }
    }
}

/// What `rate_and_close_receipt` returns and how it moves the map: the
/// receipt must exist, verify against its own key, belong to the signer (the
/// original caller), and reference the supplied agent address; the
/// referenced Agent record must exist and verify; the receipt must be
/// `Accepted`; and the agent's counters must have room. The transition
/// counts the outcome against the agent and destroys the receipt, in one
/// step.
pub open spec fn spec_rate_and_close(
    m: Map<Seq<u8>, RecordView>,
    signer: u64,
    agent_supplied: Seq<u8>,
    receipt_supplied: Seq<u8>,
    is_positive: bool,
) -> (Result<(), ErrorCode>, Map<Seq<u8>, RecordView>) {
    if !m.contains_key(receipt_supplied) {
        (Err(ErrorCode::RecordNotFound), m)
    } else {
        match m[receipt_supplied] {
            RecordView::AgentRecord(_) => (Err(ErrorCode::RecordNotFound), m),
            RecordView::ReceiptRecord(rc) => {
                if receipt_supplied != rc.addr() {
                    (Err(ErrorCode::AddressMismatch), m)
                } else if signer != rc.caller {
                    (Err(ErrorCode::Unauthorized), m)
                } else if rc.agent != agent_supplied {
                    (Err(ErrorCode::AddressMismatch), m)
                } else if !m.contains_key(rc.agent) {
                    (Err(ErrorCode::RecordNotFound), m)
                } else {
                    match m[rc.agent] {
                        RecordView::ReceiptRecord(_) => (Err(ErrorCode::RecordNotFound), m),
                        RecordView::AgentRecord(a) => {
                            if rc.agent != a.addr() {
                                (Err(ErrorCode::AddressMismatch), m)
                            } else if !(rc.status is Accepted) {
                                (Err(ErrorCode::ReceiptNotAccepted), m)
                            } else if rating_overflows(a, is_positive) {
                                (Err(ErrorCode::CounterOverflow), m)
                            } else {
                                (
                                    Ok(()),
                                    m.remove(receipt_supplied).insert(
                                        rc.agent,
                                        RecordView::AgentRecord(a.rated(is_positive)),
                                    ),
                                )
                            }
                        },
                    }
                }
            },
        }
    }
}

/// What `close_agent` returns and how it moves the map: an Agent record must
/// live at the supplied address and verify against its own key, and the
/// signer must be the stored owner. The record is destroyed.
pub open spec fn spec_close_agent(
    m: Map<Seq<u8>, RecordView>,
    signer: u64,
    supplied: Seq<u8>,
) -> (Result<(), ErrorCode>, Map<Seq<u8>, RecordView>) {
    if !m.contains_key(supplied) {
        (Err(ErrorCode::RecordNotFound), m)
    } else {
        match m[supplied] {
            RecordView::ReceiptRecord(_) => (Err(ErrorCode::RecordNotFound), m),
            RecordView::AgentRecord(a) => {
                if supplied != a.addr() {
                    (Err(ErrorCode::AddressMismatch), m)
                } else if signer != a.owner {
                    (Err(ErrorCode::Unauthorized), m)
                } else {
                    (Ok(()), m.remove(supplied))
                }
            },
        }
    }
}

/// Every record of a well-formed ledger is well formed and lives at exactly
/// the address derived from its own logical key.
pub proof fn lemma_ledger_records_canonical(l: &Ledger)
    requires
        l.wf(),
    ensures
        forall|k: Seq<u8>| #[trigger] l@.contains_key(k) ==> l@[k].wf() && l@[k].addr() == k,
{
    lemma_entries_map_domain(l.entries@);
    assert forall|k: Seq<u8>| #[trigger] l@.contains_key(k) implies l@[k].wf() && l@[k].addr()
        == k by {
        let i = choose|i: int|
            0 <= i < l.entries@.len() && (#[trigger] l.entries@[i]).address@ == k;
        lemma_entries_map_index(l.entries@, i);
        assert(entry_wf(l.entries@[i]));
    }
}

} // verus!
