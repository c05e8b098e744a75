//! Addresses: the accounts and contracts that take part in a call.

use vstd::prelude::*;

verus! {

/// An account or a contract, by the 32 bytes that identify it: the first 16 and the last 16, each
/// read as a big-endian number.
#[derive(Clone, Copy, Debug, PartialEq, Eq, Structural)]
pub enum Address {
    /// An account, by its Ed25519 public key.
    Account(u128, u128),
    /// A contract, by its hash.
    Contract(u128, u128),
}

} // verus!
