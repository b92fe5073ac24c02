//! Deterministic derivation of storage addresses from logical record keys.
//!
//! A record's address is the byte string `[kind tag] ++ key fields ++ [salt]`.
//! The one-byte salt is chosen by a canonical search so that the finished
//! address falls in the space the host reserves for derived (non-randomly
//! generated) addresses: the addresses whose byte sum is even. The search
//! starts at the largest salt value and walks downward, taking the first salt
//! that lands the address in that space; because adjacent salt values differ
//! in byte-sum parity, it always stops within the first two candidates.
//!
//! Both key layouts are fixed-width, so distinct logical keys of one kind can
//! never collide, and the two kinds are told apart by their leading tag byte;
//! the lemmas at the end of this module prove both guarantees.

use vstd::prelude::*;
use vstd::arithmetic::div_mod::lemma_add_mod_noop;

verus! {

/// Leading byte of every Agent address.
pub const AGENT_TAG: u8 = 1;

/// Leading byte of every Receipt address.
pub const RECEIPT_TAG: u8 = 2;

/// Length in bytes of an Agent address: tag, owner key, salt.
pub const AGENT_ADDRESS_LEN: usize = 10;

/// Length in bytes of a Receipt address: tag, agent address, caller key,
/// receipt id, salt.
pub const RECEIPT_ADDRESS_LEN: usize = 28;

/// A derived storage address: the location of one record in the host's
/// content-addressed account space.
pub struct Address {
    pub bytes: Vec<u8>,
}

impl View for Address {
    type V = Seq<u8>;

    open spec fn view(&self) -> Seq<u8> {
        self.bytes@
    }
}

impl Clone for Address {
    fn clone(&self) -> (r: Self)
        ensures
            r@ == self@,
    {
        let bytes = self.bytes.clone();
        proof {
            assert(bytes@ =~= self.bytes@);
        }
        Address { bytes }
    }
}

/// Compares two addresses byte for byte.
pub fn address_eq(a: &Address, b: &Address) -> (r: bool)
    ensures
        r == (a@ == b@),
{
    let n = a.bytes.len();
    if n != b.bytes.len() {
        return false;
    }
    let mut i: usize = 0;
    while i < n
        invariant
            i <= n,
            n == a@.len(),
            n == b@.len(),
            forall|j: int| 0 <= j < i ==> a@[j] == b@[j],
        decreases n - i,
    {
        if a.bytes[i] != b.bytes[i] {
            return false;
        }
        i = i + 1;
    }
    proof {
        assert(a@ =~= b@);
    }
    true
}

/// The little-endian bytes of a 64-bit key field.
pub open spec fn u64_le_bytes(x: u64) -> Seq<u8> {
    seq![
        (x & 0xff) as u8,
        ((x >> 8) & 0xff) as u8,
        ((x >> 16) & 0xff) as u8,
        ((x >> 24) & 0xff) as u8,
        ((x >> 32) & 0xff) as u8,
        ((x >> 40) & 0xff) as u8,
        ((x >> 48) & 0xff) as u8,
        ((x >> 56) & 0xff) as u8,
    ]
}

/// Sum of all bytes of an address.
pub open spec fn spec_byte_sum(s: Seq<u8>) -> int
    decreases s.len(),
{
    if s.len() == 0 {
        0
    } else {
        spec_byte_sum(s.drop_last()) + s.last()
    }
}

/// The host reserves for derived records exactly the addresses whose byte
/// sum is even; randomly generated addresses live in the odd half.
pub open spec fn in_derived_space(s: Seq<u8>) -> bool {
    spec_byte_sum(s) % 2 == 0
}

/// The canonical salt search: walk downward from `salt`, taking the first
/// value that lands the finished address in the derived space.
pub open spec fn spec_salt_search(base: Seq<u8>, salt: u8) -> u8
    decreases salt,
{
    if in_derived_space(base.push(salt)) || salt == 0 {
        salt
    } else {
        spec_salt_search(base, (salt - 1) as u8)
    }
}

/// The salt recorded for an address whose bytes before the salt are `base`:
/// the canonical search started at the largest salt value.
pub open spec fn spec_select_salt(base: Seq<u8>) -> u8 {
    spec_salt_search(base, 255)
}

/// Agent address bytes before the salt: the kind tag and the owner key.
pub open spec fn spec_agent_base(owner: u64) -> Seq<u8> {
    seq![AGENT_TAG] + u64_le_bytes(owner)
}

/// The salt an Agent record for `owner` carries.
pub open spec fn spec_agent_salt(owner: u64) -> u8 {
    spec_select_salt(spec_agent_base(owner))
}

/// The one address an Agent record for `owner` can live at.
pub open spec fn spec_agent_address(owner: u64) -> Seq<u8> {
    spec_agent_base(owner).push(spec_agent_salt(owner))
}

/// Receipt address bytes before the salt: the kind tag, the referenced
/// agent's address, the caller key, and the caller-chosen receipt id.
pub open spec fn spec_receipt_base(agent: Seq<u8>, caller: u64, receipt_id: u64) -> Seq<u8> {
    seq![RECEIPT_TAG] + agent + u64_le_bytes(caller) + u64_le_bytes(receipt_id)
}

/// The salt a Receipt record with the given logical key carries.
pub open spec fn spec_receipt_salt(agent: Seq<u8>, caller: u64, receipt_id: u64) -> u8 {
    spec_select_salt(spec_receipt_base(agent, caller, receipt_id))
}

/// The one address a Receipt record with the given logical key can live at.
pub open spec fn spec_receipt_address(agent: Seq<u8>, caller: u64, receipt_id: u64) -> Seq<u8> {
    spec_receipt_base(agent, caller, receipt_id).push(
        spec_receipt_salt(agent, caller, receipt_id),
    )
}

/// The shape every Agent address has: its length and its leading tag.
pub open spec fn is_agent_shaped(s: Seq<u8>) -> bool {
    s.len() == AGENT_ADDRESS_LEN && s[0] == AGENT_TAG
}

proof fn lemma_byte_sum_push(s: Seq<u8>, b: u8)
    ensures
        spec_byte_sum(s.push(b)) == spec_byte_sum(s) + b,
{
    assert(s.push(b).drop_last() =~= s);
}

/// Appends the little-endian bytes of `x`.
fn push_u64_le(out: &mut Vec<u8>, x: u64)
    ensures
        final(out)@ == old(out)@ + u64_le_bytes(x),
{
    out.push((x & 0xff) as u8);
    out.push(((x >> 8) & 0xff) as u8);
    out.push(((x >> 16) & 0xff) as u8);
    out.push(((x >> 24) & 0xff) as u8);
    out.push(((x >> 32) & 0xff) as u8);
    out.push(((x >> 40) & 0xff) as u8);
    out.push(((x >> 48) & 0xff) as u8);
    out.push(((x >> 56) & 0xff) as u8);
    proof {
        assert(out@ =~= old(out)@ + u64_le_bytes(x));
    }
}

/// Chooses the canonical salt for an address whose bytes so far are `base`.
fn select_salt(base: &Vec<u8>) -> (salt: u8)
    requires
        base@.len() <= 4096,
    ensures
        salt == spec_select_salt(base@),
        in_derived_space(base@.push(salt)),
{
    let n = base.len();
    let mut sum: u32 = 0;
    let mut i: usize = 0;
    while i < n
        invariant
            i <= n,
            n == base@.len(),
            n <= 4096,
            sum == spec_byte_sum(base@.take(i as int)),
            sum <= 255 * i,
        decreases n - i,
    {
        proof {
            assert(base@.take(i + 1 as int).drop_last() =~= base@.take(i as int));
            assert(base@.take(i + 1 as int).last() == base@[i as int]);
        }
        sum = sum + base[i] as u32;
        i = i + 1;
    }
    proof {
        assert(base@.take(n as int) =~= base@);
        lemma_byte_sum_push(base@, 255);
        lemma_byte_sum_push(base@, 254);
        lemma_byte_sum_nonneg(base@);
    }
    let salt: u8 = if (sum + 255) % 2 == 0 {
        255
    } else {
        254
    };
    proof {
        let s = sum as int;
        lemma_add_mod_noop(s, 255, 2);
        lemma_add_mod_noop(s, 254, 2);
        if (sum + 255) % 2 == 0 {
            assert(in_derived_space(base@.push(255)));
            assert(spec_salt_search(base@, 255) == 255);
        } else {
            assert(!in_derived_space(base@.push(255)));
            assert(in_derived_space(base@.push(254)));
            assert(spec_salt_search(base@, 255) == spec_salt_search(base@, 254));
            assert(spec_salt_search(base@, 254) == 254);
        }
    }
    salt
}

proof fn lemma_byte_sum_nonneg(s: Seq<u8>)
    ensures
        spec_byte_sum(s) >= 0,
    decreases s.len(),
{
    if s.len() > 0 {
        lemma_byte_sum_nonneg(s.drop_last());
    }
}

/// Computes the one address an Agent record for `owner` can live at, and the
/// salt the record stores so later operations can verify the address without
/// repeating the search. The result depends on `owner` alone.
pub fn derive_agent_address(owner: u64) -> (r: (Address, u8))
    ensures
        r.0@ == spec_agent_address(owner),
        r.1 == spec_agent_salt(owner),
{
    let mut bytes: Vec<u8> = Vec::new();
    bytes.push(AGENT_TAG);
    push_u64_le(&mut bytes, owner);
    proof {
        assert(bytes@ =~= spec_agent_base(owner));
    }
    let salt = select_salt(&bytes);
    bytes.push(salt);
    (Address { bytes }, salt)
}

/// Computes the one address a Receipt record with the given logical key can
/// live at, and the salt the record stores. The result depends on the key
/// fields alone.
pub fn derive_receipt_address(agent_address: &Address, caller: u64, receipt_id: u64) -> (r: (
    Address,
    u8,
))
    requires
        agent_address@.len() == AGENT_ADDRESS_LEN,
    ensures
        r.0@ == spec_receipt_address(agent_address@, caller, receipt_id),
        r.1 == spec_receipt_salt(agent_address@, caller, receipt_id),
{
    let mut bytes: Vec<u8> = Vec::new();
    bytes.push(RECEIPT_TAG);
    let mut i: usize = 0;
    let n = agent_address.bytes.len();
    while i < n
        invariant
            i <= n,
            n == agent_address@.len(),
            bytes@ == seq![RECEIPT_TAG] + agent_address@.take(i as int),
        decreases n - i,
    {
        bytes.push(agent_address.bytes[i]);
        proof {
            assert(bytes@ =~= seq![RECEIPT_TAG] + agent_address@.take(i + 1 as int));
        }
        i = i + 1;
    }
    proof {
        assert(agent_address@.take(n as int) =~= agent_address@);
    }
    push_u64_le(&mut bytes, caller);
    push_u64_le(&mut bytes, receipt_id);
    proof {
        assert(bytes@ =~= spec_receipt_base(agent_address@, caller, receipt_id));
    }
    let salt = select_salt(&bytes);
    bytes.push(salt);
    (Address { bytes }, salt)
}

proof fn lemma_u64_le_bytes_injective(x: u64, y: u64)
    requires
        u64_le_bytes(x) == u64_le_bytes(y),
    ensures
        x == y,
{
    assert((x & 0xff) as u8 == (y & 0xff) as u8 && ((x >> 8) & 0xff) as u8 == ((y >> 8)
        & 0xff) as u8 && ((x >> 16) & 0xff) as u8 == ((y >> 16) & 0xff) as u8 && ((x >> 24)
        & 0xff) as u8 == ((y >> 24) & 0xff) as u8 && ((x >> 32) & 0xff) as u8 == ((y >> 32)
        & 0xff) as u8 && ((x >> 40) & 0xff) as u8 == ((y >> 40) & 0xff) as u8 && ((x >> 48)
        & 0xff) as u8 == ((y >> 48) & 0xff) as u8 && ((x >> 56) & 0xff) as u8 == ((y >> 56)
        & 0xff) as u8 ==> x == y) by (bit_vector);
}

/// Every Agent address has the Agent shape, and its last byte is its salt.
pub proof fn lemma_agent_address_shape(owner: u64)
    ensures
        is_agent_shaped(spec_agent_address(owner)),
        spec_agent_address(owner).last() == spec_agent_salt(owner),
{
}

/// No two distinct owner keys share an Agent address: the address determines
/// the owner.
pub proof fn lemma_agent_address_injective(o1: u64, o2: u64)
    requires
        spec_agent_address(o1) == spec_agent_address(o2),
    ensures
        o1 == o2,
{
    assert forall|i: int| 0 <= i < 8 implies u64_le_bytes(o1)[i] == u64_le_bytes(o2)[i] by {
        assert(spec_agent_address(o1)[i + 1] == u64_le_bytes(o1)[i]);
        assert(spec_agent_address(o2)[i + 1] == u64_le_bytes(o2)[i]);
    }
    assert(u64_le_bytes(o1) =~= u64_le_bytes(o2));
    lemma_u64_le_bytes_injective(o1, o2);
}

/// No two distinct Receipt keys share a Receipt address: the address
/// determines the referenced agent, the caller, and the receipt id.
pub proof fn lemma_receipt_address_injective(
    a1: Seq<u8>,
    c1: u64,
    i1: u64,
    a2: Seq<u8>,
    c2: u64,
    i2: u64,
)
    requires
        a1.len() == AGENT_ADDRESS_LEN,
        a2.len() == AGENT_ADDRESS_LEN,
        spec_receipt_address(a1, c1, i1) == spec_receipt_address(a2, c2, i2),
    ensures
        a1 == a2,
        c1 == c2,
        i1 == i2,
{
    let r1 = spec_receipt_address(a1, c1, i1);
    let r2 = spec_receipt_address(a2, c2, i2);
    assert forall|i: int| 0 <= i < 10 implies a1[i] == a2[i] by {
        assert(r1[i + 1] == a1[i]);
        assert(r2[i + 1] == a2[i]);
    }
    assert(a1 =~= a2);
    assert forall|i: int| 0 <= i < 8 implies u64_le_bytes(c1)[i] == u64_le_bytes(c2)[i] by {
        assert(r1[i + 11] == u64_le_bytes(c1)[i]);
        assert(r2[i + 11] == u64_le_bytes(c2)[i]);
    }
    assert(u64_le_bytes(c1) =~= u64_le_bytes(c2));
    lemma_u64_le_bytes_injective(c1, c2);
    assert forall|i: int| 0 <= i < 8 implies u64_le_bytes(i1)[i] == u64_le_bytes(i2)[i] by {
        assert(r1[i + 19] == u64_le_bytes(i1)[i]);
        assert(r2[i + 19] == u64_le_bytes(i2)[i]);
    }
    assert(u64_le_bytes(i1) =~= u64_le_bytes(i2));
    lemma_u64_le_bytes_injective(i1, i2);
}

/// An Agent address is never a Receipt address: the kinds cannot collide.
pub proof fn lemma_address_kinds_distinct(owner: u64, agent: Seq<u8>, caller: u64, receipt_id: u64)
    ensures
        spec_agent_address(owner) != spec_receipt_address(agent, caller, receipt_id),
{
    assert(spec_agent_address(owner)[0] == AGENT_TAG);
    assert(spec_receipt_address(agent, caller, receipt_id)[0] == RECEIPT_TAG);
}

} // verus!
