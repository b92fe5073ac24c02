//! The two record kinds the ledger holds, their mathematical views, and
//! their well-formedness.

use vstd::prelude::*;
use crate::addressing::{
    is_agent_shaped, spec_agent_address, spec_agent_salt, spec_receipt_address, spec_receipt_salt,
    Address,
};
use crate::errors::ErrorCode;

verus! {

/// Largest byte length of an agent's descriptive payload.
pub const MAX_AGENT_DATA_BYTES: usize = 2048;

/// Largest byte length of a receipt's task description.
pub const MAX_TASK_DESCRIPTION_BYTES: usize = 256;

/// An agent profile: identity, opaque descriptive payload, and a bounded
/// reputation counter pair.
pub struct Agent {
    /// Public identity key of the sole party authorized to mutate or delete
    /// this record.
    pub owner: u64,
    /// Free-form descriptive payload; the core never interprets it.
    pub agent_data: Vec<u8>,
    /// Reputation counter, floored at zero by the update rule.
    pub rating: i64,
    /// How many receipts have been rated against this agent.
    pub total_receipts: u64,
    /// Derivation salt recorded at creation so later operations can verify
    /// the record's address without repeating the salt search.
    pub address_salt: u8,
}

/// The mathematical view of an [`Agent`].
#[verifier::ext_equal]
pub struct AgentView {
    pub owner: u64,
    pub agent_data: Seq<u8>,
    pub rating: int,
    pub total_receipts: int,
    pub address_salt: u8,
}

impl View for Agent {
    type V = AgentView;

    open spec fn view(&self) -> AgentView {
        AgentView {
            owner: self.owner,
            agent_data: self.agent_data@,
            rating: self.rating as int,
            total_receipts: self.total_receipts as int,
            address_salt: self.address_salt,
        }
    }
}

impl AgentView {
    /// The record as it stands right after registration.
    pub open spec fn fresh(owner: u64, agent_data: Seq<u8>) -> AgentView {
        AgentView {
            owner,
            agent_data,
            rating: 0,
            total_receipts: 0,
            address_salt: spec_agent_salt(owner),
        }
    }

    /// The record with its payload replaced and every other field kept.
    pub open spec fn with_agent_data(self, agent_data: Seq<u8>) -> AgentView {
        AgentView { agent_data, ..self }
    }

    /// The record after one rated closure: the reputation counter moves by
    /// the update rule and the receipt counter grows by one.
    pub open spec fn rated(self, is_positive: bool) -> AgentView {
        AgentView {
            rating: next_rating(self.rating, is_positive),
            total_receipts: self.total_receipts + 1,
            ..self
        }
    }

    /// The one address this record can live at.
    pub open spec fn addr(self) -> Seq<u8> {
        spec_agent_address(self.owner)
    }

    /// Well-formedness: counters in range and never ahead of one another,
    /// payload within its byte bound, and the recorded salt canonical.
    pub open spec fn wf(self) -> bool {
        &&& 0 <= self.rating <= self.total_receipts <= u64::MAX
        &&& self.rating <= i64::MAX
        &&& self.agent_data.len() <= MAX_AGENT_DATA_BYTES
        &&& self.address_salt == spec_agent_salt(self.owner)
    }
}

/// The reputation update rule: a positive outcome raises the counter by one,
/// a negative outcome lowers it by one but never below zero.
pub open spec fn next_rating(rating: int, is_positive: bool) -> int {
    if is_positive {
        rating + 1
    } else if rating >= 1 {
        rating - 1
    } else {
        0
    }
}

/// When one rated closure cannot be counted: the moving counter would leave
/// its machine range.
pub open spec fn rating_overflows(a: AgentView, is_positive: bool) -> bool {
    ||| is_positive && a.rating == i64::MAX
    ||| a.total_receipts == u64::MAX
}

/// Where a receipt stands in its lifecycle. The terminal state is the
/// record's destruction, not a stored value.
#[derive(Clone, Copy, Debug, PartialEq, Eq, Structural)]
pub enum ReceiptStatus {
    /// Created, not yet accepted by the agent's owner.
    Pending,
    /// Accepted by the agent's owner; the only state a rated closure leaves.
    Accepted,
}

/// One unit of requested work between a caller and an agent.
pub struct Receipt {
    /// Address of the referenced Agent record; immutable after creation.
    pub agent: Address,
    /// Public identity key of the party that requested the work; immutable
    /// after creation.
    pub caller: u64,
    /// Free-form description of the requested work.
    pub task_description: Vec<u8>,
    /// Where the receipt stands in its lifecycle.
    pub status: ReceiptStatus,
    /// The outcome rating; set only at closure, which destroys the record,
    /// so a live receipt always holds `None`.
    pub rating: Option<bool>,
    /// Caller-chosen id, part of the address derivation key, so one caller
    /// may hold many concurrent receipts against the same agent.
    pub receipt_id: u64,
    /// Timestamp the host supplied at creation.
    pub created_at: i64,
    /// Timestamp the host supplied at acceptance; `None` while `Pending`.
    pub accepted_at: Option<i64>,
    /// Derivation salt recorded at creation.
    pub address_salt: u8,
}

/// The mathematical view of a [`Receipt`].
#[verifier::ext_equal]
pub struct ReceiptView {
    pub agent: Seq<u8>,
    pub caller: u64,
    pub task_description: Seq<u8>,
    pub status: ReceiptStatus,
    pub rating: Option<bool>,
    pub receipt_id: u64,
    pub created_at: i64,
    pub accepted_at: Option<i64>,
    pub address_salt: u8,
}

impl View for Receipt {
    type V = ReceiptView;

    open spec fn view(&self) -> ReceiptView {
        ReceiptView {
            agent: self.agent@,
            caller: self.caller,
            task_description: self.task_description@,
            status: self.status,
            rating: self.rating,
            receipt_id: self.receipt_id,
            created_at: self.created_at,
            accepted_at: self.accepted_at,
            address_salt: self.address_salt,
        }
    }
}

impl ReceiptView {
    /// The record as it stands right after creation.
    pub open spec fn fresh(
        agent: Seq<u8>,
        caller: u64,
        receipt_id: u64,
        task_description: Seq<u8>,
        created_at: i64,
    ) -> ReceiptView {
        ReceiptView {
            agent,
            caller,
            task_description,
            status: ReceiptStatus::Pending,
            rating: None,
            receipt_id,
            created_at,
            accepted_at: None,
            address_salt: spec_receipt_salt(agent, caller, receipt_id),
        }
    }

    /// The record after the `Pending -> Accepted` transition at time `at`.
    pub open spec fn accepted(self, at: i64) -> ReceiptView {
        ReceiptView { status: ReceiptStatus::Accepted, accepted_at: Some(at), ..self }
    }

    /// The one address this record can live at.
    pub open spec fn addr(self) -> Seq<u8> {
        spec_receipt_address(self.agent, self.caller, self.receipt_id)
    }

    /// Well-formedness: the referenced agent address has the Agent shape,
    /// the description is within its byte bound, the outcome slot is empty
    /// while the record lives, the acceptance timestamp exists exactly from
    /// the `Accepted` state on, and the recorded salt is canonical.
    pub open spec fn wf(self) -> bool {
        &&& is_agent_shaped(self.agent)
        &&& self.task_description.len() <= MAX_TASK_DESCRIPTION_BYTES
        &&& self.rating is None
        &&& (self.status is Pending <==> self.accepted_at is None)
        &&& self.address_salt == spec_receipt_salt(self.agent, self.caller, self.receipt_id)
    }
}

/// One persisted record: either kind.
pub enum Record {
    AgentRecord(Agent),
    ReceiptRecord(Receipt),
}

/// The mathematical view of a [`Record`].
#[verifier::ext_equal]
pub enum RecordView {
    AgentRecord(AgentView),
    ReceiptRecord(ReceiptView),
}

impl View for Record {
    type V = RecordView;

    open spec fn view(&self) -> RecordView {
        match self {
            Record::AgentRecord(a) => RecordView::AgentRecord(a@),
            Record::ReceiptRecord(r) => RecordView::ReceiptRecord(r@),
        }
    }
}

impl RecordView {
    /// The one address this record can live at.
    pub open spec fn addr(self) -> Seq<u8> {
        match self {
            RecordView::AgentRecord(a) => a.addr(),
            RecordView::ReceiptRecord(r) => r.addr(),
        }
    }

    /// Well-formedness of either kind.
    pub open spec fn wf(self) -> bool {
        match self {
            RecordView::AgentRecord(a) => a.wf(),
            RecordView::ReceiptRecord(r) => r.wf(),
        }
    }
}

impl Agent {
    /// Counts one rated closure against this record: a positive outcome
    /// raises `rating` by one, a negative outcome lowers it by one but never
    /// below zero, and `total_receipts` always grows by one. Returns the new
    /// counter pair, or refuses with `CounterOverflow` — before any change —
    /// when a counter would leave its machine range.
    pub fn apply_rating(&mut self, is_positive: bool) -> (r: Result<(i64, u64), ErrorCode>)
        requires
            old(self)@.wf(),
        ensures
            final(self)@.wf(),
            (match r {
                Ok(pair) => !rating_overflows(old(self)@, is_positive) && final(self)@ == old(
                    self,
                )@.rated(is_positive) && pair.0 == next_rating(old(self)@.rating, is_positive)
                    && pair.1 == old(self)@.total_receipts + 1,
                Err(e) => e == ErrorCode::CounterOverflow && rating_overflows(old(self)@, is_positive)
                    && final(self)@ == old(self)@,
            }),
    {
        if is_positive && self.rating == i64::MAX {
            return Err(ErrorCode::CounterOverflow);
        }
        if self.total_receipts == u64::MAX {
            return Err(ErrorCode::CounterOverflow);
        }
        if is_positive {
            self.rating = self.rating + 1;
        } else if self.rating >= 1 {
            self.rating = self.rating - 1;
        } else {
            self.rating = 0;
        }
        self.total_receipts = self.total_receipts + 1;
        Ok((self.rating, self.total_receipts))
    }
}

} // verus!
