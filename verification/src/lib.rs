//! A ledger-resident reputation and task-receipt registry for autonomous
//! service-providing agents.
//!
//! Two kinds of record live in the ledger: an [`records::Agent`] profile
//! (identity, descriptive metadata, accumulated reputation) and a
//! [`records::Receipt`] (one unit of requested work between a caller and an
//! agent, with a lifecycle and an outcome rating applied at closure).
//!
//! The engineering content is the addressing, authorization, and lifecycle
//! layer: records are located by deterministically derived addresses
//! ([`addressing`]), every operation re-derives and checks the addresses it
//! is handed and the identity that invokes it, and a `Receipt` walks a fixed
//! `Pending -> Accepted -> destroyed` state machine ([`ledger`]).
//!
//! The execution host that dispatches instructions, verifies signatures over
//! them, allocates and reclaims backing storage, and supplies timestamps is
//! an external collaborator: it hands every operation the authenticated
//! signer, the record addresses, and the current time as plain values, and
//! the [`ledger::Ledger`] models its account space as a content-addressed map
//! from derived address to record.

pub mod addressing;
pub mod errors;
pub mod laws;
pub mod ledger;
pub mod records;
