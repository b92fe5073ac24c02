use agent_registry::addressing::{
    derive_agent_address, derive_receipt_address, Address, AGENT_ADDRESS_LEN, RECEIPT_ADDRESS_LEN,
};
use agent_registry::errors::ErrorCode;
use agent_registry::ledger::Ledger;
use agent_registry::records::{Agent, ReceiptStatus};

const OWNER_A: u64 = 101;
const CALLER_B: u64 = 202;
const STRANGER: u64 = 303;

fn agent_addr(owner: u64) -> Address {
    derive_agent_address(owner).0
}

/// A ledger with one agent registered for OWNER_A.
fn with_agent() -> (Ledger, Address) {
    let mut l = Ledger::new();
    let addr = agent_addr(OWNER_A);
    let r = l.register_agent(OWNER_A, &addr, b"profile".to_vec());
    assert_eq!(r, Ok(()));
    (l, addr)
}

/// A ledger with one agent and one pending receipt id=7 from CALLER_B.
fn with_pending_receipt() -> (Ledger, Address, Address) {
    let (mut l, a_addr) = with_agent();
    let r_addr = derive_receipt_address(&a_addr, CALLER_B, 7).0;
    let r = l.create_receipt(CALLER_B, &a_addr, &r_addr, 7, b"translate doc".to_vec(), 1_000);
    assert_eq!(r, Ok(()));
    (l, a_addr, r_addr)
}

#[test]
fn register_then_lookup_returns_fresh_record() {
    let (l, _a_addr) = with_agent();
    let a = l.get_agent(OWNER_A).unwrap();
    assert_eq!(a.owner, OWNER_A);
    assert_eq!(a.rating, 0);
    assert_eq!(a.total_receipts, 0);
    assert_eq!(a.agent_data, b"profile".to_vec());
}

#[test]
fn register_twice_fails_already_exists() {
    let (mut l, a_addr) = with_agent();
    let r = l.register_agent(OWNER_A, &a_addr, b"other".to_vec());
    assert_eq!(r, Err(ErrorCode::AlreadyExists));
    let a = l.get_agent(OWNER_A).unwrap();
    assert_eq!(a.agent_data, b"profile".to_vec());
}

#[test]
fn register_rejects_mismatched_address() {
    let mut l = Ledger::new();
    let wrong = agent_addr(STRANGER);
    let r = l.register_agent(OWNER_A, &wrong, b"profile".to_vec());
    assert_eq!(r, Err(ErrorCode::AddressMismatch));
    assert!(l.get_agent(OWNER_A).is_none());
}

#[test]
fn register_enforces_agent_data_byte_bound() {
    let mut l = Ledger::new();
    let addr = agent_addr(OWNER_A);
    let too_long = vec![0u8; 2049];
    assert_eq!(l.register_agent(OWNER_A, &addr, too_long), Err(ErrorCode::DataTooLong));
    assert!(l.get_agent(OWNER_A).is_none());
    let at_bound = vec![0u8; 2048];
    assert_eq!(l.register_agent(OWNER_A, &addr, at_bound), Ok(()));
    assert_eq!(l.get_agent(OWNER_A).unwrap().agent_data.len(), 2048);
}

#[test]
fn update_agent_data_by_owner_replaces_payload() {
    let (mut l, a_addr) = with_agent();
    let r = l.update_agent_data(OWNER_A, &a_addr, b"new profile".to_vec());
    assert_eq!(r, Ok(()));
    let a = l.get_agent(OWNER_A).unwrap();
    assert_eq!(a.agent_data, b"new profile".to_vec());
    assert_eq!(a.rating, 0);
    assert_eq!(a.total_receipts, 0);
}

#[test]
fn update_agent_data_by_stranger_unauthorized() {
    let (mut l, a_addr) = with_agent();
    let r = l.update_agent_data(STRANGER, &a_addr, b"defaced".to_vec());
    assert_eq!(r, Err(ErrorCode::Unauthorized));
    assert_eq!(l.get_agent(OWNER_A).unwrap().agent_data, b"profile".to_vec());
}

#[test]
fn update_agent_data_without_record_not_found() {
    let mut l = Ledger::new();
    let a_addr = agent_addr(OWNER_A);
    let r = l.update_agent_data(OWNER_A, &a_addr, b"x".to_vec());
    assert_eq!(r, Err(ErrorCode::RecordNotFound));
}

#[test]
fn update_agent_data_at_receipt_address_not_found() {
    let (mut l, _a_addr, r_addr) = with_pending_receipt();
    let r = l.update_agent_data(OWNER_A, &r_addr, b"x".to_vec());
    assert_eq!(r, Err(ErrorCode::RecordNotFound));
}

#[test]
fn rate_and_close_without_receipt_not_found() {
    let (mut l, a_addr) = with_agent();
    let r_addr = derive_receipt_address(&a_addr, CALLER_B, 7).0;
    let r = l.rate_and_close_receipt(CALLER_B, &a_addr, &r_addr, true);
    assert_eq!(r, Err(ErrorCode::RecordNotFound));
}

#[test]
fn create_receipt_requires_existing_agent() {
    let mut l = Ledger::new();
    let a_addr = agent_addr(OWNER_A);
    let r_addr = derive_receipt_address(&a_addr, CALLER_B, 1).0;
    let r = l.create_receipt(CALLER_B, &a_addr, &r_addr, 1, b"task".to_vec(), 500);
    assert_eq!(r, Err(ErrorCode::RecordNotFound));
}

#[test]
fn create_receipt_rejects_wrong_receipt_address() {
    let (mut l, a_addr) = with_agent();
    let wrong = derive_receipt_address(&a_addr, CALLER_B, 8).0;
    let r = l.create_receipt(CALLER_B, &a_addr, &wrong, 7, b"task".to_vec(), 500);
    assert_eq!(r, Err(ErrorCode::AddressMismatch));
    assert!(l.get_receipt(&a_addr, CALLER_B, 7).is_none());
}

#[test]
fn create_receipt_enforces_task_byte_bound() {
    let (mut l, a_addr) = with_agent();
    let r_addr = derive_receipt_address(&a_addr, CALLER_B, 1).0;
    let too_long = vec![0u8; 257];
    assert_eq!(
        l.create_receipt(CALLER_B, &a_addr, &r_addr, 1, too_long, 500),
        Err(ErrorCode::DataTooLong)
    );
    let at_bound = vec![0u8; 256];
    assert_eq!(l.create_receipt(CALLER_B, &a_addr, &r_addr, 1, at_bound, 500), Ok(()));
}

#[test]
fn create_receipt_duplicate_triple_already_exists() {
    let (mut l, a_addr, r_addr) = with_pending_receipt();
    let r = l.create_receipt(CALLER_B, &a_addr, &r_addr, 7, b"again".to_vec(), 2_000);
    assert_eq!(r, Err(ErrorCode::AlreadyExists));
    let rc = l.get_receipt(&a_addr, CALLER_B, 7).unwrap();
    assert_eq!(rc.task_description, b"translate doc".to_vec());
    assert_eq!(rc.created_at, 1_000);
}

#[test]
fn receipts_with_distinct_ids_coexist() {
    let (mut l, a_addr, _r_addr) = with_pending_receipt();
    let r_addr2 = derive_receipt_address(&a_addr, CALLER_B, 8).0;
    assert_eq!(l.create_receipt(CALLER_B, &a_addr, &r_addr2, 8, b"more".to_vec(), 1_500), Ok(()));
    assert!(l.get_receipt(&a_addr, CALLER_B, 7).is_some());
    assert!(l.get_receipt(&a_addr, CALLER_B, 8).is_some());
}

#[test]
fn fresh_receipt_is_pending_and_unrated() {
    let (l, a_addr, _r_addr) = with_pending_receipt();
    let rc = l.get_receipt(&a_addr, CALLER_B, 7).unwrap();
    assert_eq!(rc.status, ReceiptStatus::Pending);
    assert_eq!(rc.rating, None);
    assert_eq!(rc.accepted_at, None);
    assert_eq!(rc.created_at, 1_000);
    assert_eq!(rc.caller, CALLER_B);
    assert_eq!(rc.receipt_id, 7);
}

#[test]
fn accept_receipt_records_acceptance() {
    let (mut l, a_addr, r_addr) = with_pending_receipt();
    assert_eq!(l.accept_receipt(OWNER_A, &a_addr, &r_addr, 1_200), Ok(()));
    let rc = l.get_receipt(&a_addr, CALLER_B, 7).unwrap();
    assert_eq!(rc.status, ReceiptStatus::Accepted);
    assert_eq!(rc.accepted_at, Some(1_200));
}

#[test]
fn accept_receipt_twice_fails_and_keeps_first_timestamp() {
    let (mut l, a_addr, r_addr) = with_pending_receipt();
    assert_eq!(l.accept_receipt(OWNER_A, &a_addr, &r_addr, 1_200), Ok(()));
    assert_eq!(
        l.accept_receipt(OWNER_A, &a_addr, &r_addr, 1_300),
        Err(ErrorCode::InvalidReceiptStatus)
    );
    let rc = l.get_receipt(&a_addr, CALLER_B, 7).unwrap();
    assert_eq!(rc.accepted_at, Some(1_200));
}

#[test]
fn accept_receipt_by_stranger_unauthorized() {
    let (mut l, a_addr, r_addr) = with_pending_receipt();
    assert_eq!(l.accept_receipt(STRANGER, &a_addr, &r_addr, 1_200), Err(ErrorCode::Unauthorized));
    let rc = l.get_receipt(&a_addr, CALLER_B, 7).unwrap();
    assert_eq!(rc.status, ReceiptStatus::Pending);
}

#[test]
fn rate_pending_receipt_fails_not_accepted() {
    let (mut l, a_addr, r_addr) = with_pending_receipt();
    let r = l.rate_and_close_receipt(CALLER_B, &a_addr, &r_addr, false);
    assert_eq!(r, Err(ErrorCode::ReceiptNotAccepted));
    let rc = l.get_receipt(&a_addr, CALLER_B, 7).unwrap();
    assert_eq!(rc.status, ReceiptStatus::Pending);
    assert_eq!(l.get_agent(OWNER_A).unwrap().rating, 0);
    assert_eq!(l.get_agent(OWNER_A).unwrap().total_receipts, 0);
}

#[test]
fn rate_and_close_positive_end_to_end() {
    let (mut l, a_addr, r_addr) = with_pending_receipt();
    assert_eq!(l.accept_receipt(OWNER_A, &a_addr, &r_addr, 1_200), Ok(()));
    assert_eq!(l.rate_and_close_receipt(CALLER_B, &a_addr, &r_addr, true), Ok(()));
    let a = l.get_agent(OWNER_A).unwrap();
    assert_eq!(a.rating, 1);
    assert_eq!(a.total_receipts, 1);
    assert!(l.get_receipt(&a_addr, CALLER_B, 7).is_none());
}

#[test]
fn rate_and_close_by_stranger_unauthorized() {
    let (mut l, a_addr, r_addr) = with_pending_receipt();
    assert_eq!(l.accept_receipt(OWNER_A, &a_addr, &r_addr, 1_200), Ok(()));
    assert_eq!(
        l.rate_and_close_receipt(STRANGER, &a_addr, &r_addr, true),
        Err(ErrorCode::Unauthorized)
    );
    assert!(l.get_receipt(&a_addr, CALLER_B, 7).is_some());
}

#[test]
fn negative_closures_keep_rating_at_floor() {
    let (mut l, a_addr) = with_agent();
    for id in 0..3u64 {
        let r_addr = derive_receipt_address(&a_addr, CALLER_B, id).0;
        assert_eq!(l.create_receipt(CALLER_B, &a_addr, &r_addr, id, b"task".to_vec(), 100), Ok(()));
        assert_eq!(l.accept_receipt(OWNER_A, &a_addr, &r_addr, 200), Ok(()));
        assert_eq!(l.rate_and_close_receipt(CALLER_B, &a_addr, &r_addr, false), Ok(()));
        let a = l.get_agent(OWNER_A).unwrap();
        assert_eq!(a.rating, 0);
        assert_eq!(a.total_receipts, id + 1);
    }
    let r_addr = derive_receipt_address(&a_addr, CALLER_B, 9).0;
    assert_eq!(l.create_receipt(CALLER_B, &a_addr, &r_addr, 9, b"task".to_vec(), 100), Ok(()));
    assert_eq!(l.accept_receipt(OWNER_A, &a_addr, &r_addr, 200), Ok(()));
    assert_eq!(l.rate_and_close_receipt(CALLER_B, &a_addr, &r_addr, true), Ok(()));
    assert_eq!(l.get_agent(OWNER_A).unwrap().rating, 1);
    assert_eq!(l.get_agent(OWNER_A).unwrap().total_receipts, 4);
}

#[test]
fn address_derivation_deterministic() {
    let (a1, s1) = derive_agent_address(OWNER_A);
    let (a2, s2) = derive_agent_address(OWNER_A);
    assert_eq!(a1.bytes, a2.bytes);
    assert_eq!(s1, s2);
    let (r1, t1) = derive_receipt_address(&a1, CALLER_B, 7);
    let (r2, t2) = derive_receipt_address(&a2, CALLER_B, 7);
    assert_eq!(r1.bytes, r2.bytes);
    assert_eq!(t1, t2);
    assert_eq!(a1.bytes.len(), AGENT_ADDRESS_LEN);
    assert_eq!(r1.bytes.len(), RECEIPT_ADDRESS_LEN);
}

#[test]
fn distinct_keys_get_distinct_addresses() {
    let a1 = agent_addr(OWNER_A);
    let a2 = agent_addr(CALLER_B);
    assert_ne!(a1.bytes, a2.bytes);
    let r1 = derive_receipt_address(&a1, CALLER_B, 7).0;
    let r2 = derive_receipt_address(&a1, CALLER_B, 8).0;
    let r3 = derive_receipt_address(&a1, STRANGER, 7).0;
    assert_ne!(r1.bytes, r2.bytes);
    assert_ne!(r1.bytes, r3.bytes);
    assert_ne!(a1.bytes, r1.bytes);
}

#[test]
fn derived_addresses_have_even_byte_sum() {
    let a = agent_addr(OWNER_A);
    let sum: u32 = a.bytes.iter().map(|b| *b as u32).sum();
    assert_eq!(sum % 2, 0);
    let r = derive_receipt_address(&a, CALLER_B, 7).0;
    let rsum: u32 = r.bytes.iter().map(|b| *b as u32).sum();
    assert_eq!(rsum % 2, 0);
}

#[test]
fn apply_rating_reports_counter_overflow() {
    let salt = derive_agent_address(OWNER_A).1;
    let mut maxed = Agent {
        owner: OWNER_A,
        agent_data: Vec::new(),
        rating: i64::MAX,
        total_receipts: u64::MAX - 1,
        address_salt: salt,
    };
    assert_eq!(maxed.apply_rating(true), Err(ErrorCode::CounterOverflow));
    assert_eq!(maxed.rating, i64::MAX);
    assert_eq!(maxed.total_receipts, u64::MAX - 1);
    assert_eq!(maxed.apply_rating(false), Ok((i64::MAX - 1, u64::MAX)));
    let mut saturated = Agent {
        owner: OWNER_A,
        agent_data: Vec::new(),
        rating: 0,
        total_receipts: u64::MAX,
        address_salt: salt,
    };
    assert_eq!(saturated.apply_rating(false), Err(ErrorCode::CounterOverflow));
    assert_eq!(saturated.total_receipts, u64::MAX);
}

#[test]
fn close_agent_by_owner_removes_record() {
    let (mut l, a_addr) = with_agent();
    assert_eq!(l.close_agent(STRANGER, &a_addr), Err(ErrorCode::Unauthorized));
    assert_eq!(l.close_agent(OWNER_A, &a_addr), Ok(()));
    assert!(l.get_agent(OWNER_A).is_none());
    assert_eq!(l.close_agent(OWNER_A, &a_addr), Err(ErrorCode::RecordNotFound));
}

#[test]
fn accept_after_agent_closed_not_found() {
    let (mut l, a_addr, r_addr) = with_pending_receipt();
    assert_eq!(l.close_agent(OWNER_A, &a_addr), Ok(()));
    assert_eq!(
        l.accept_receipt(OWNER_A, &a_addr, &r_addr, 1_200),
        Err(ErrorCode::RecordNotFound)
    );
    let rc = l.get_receipt(&a_addr, CALLER_B, 7).unwrap();
    assert_eq!(rc.status, ReceiptStatus::Pending);
}
