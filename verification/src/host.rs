//! What a contract has of its host while a call runs.

use vstd::prelude::*;

use crate::address::Address;
use crate::fee_collector::FeeCollected;

verus! {

/// A thing that a contract asks its host to do. The host may refuse to do it, and then the whole
/// call is undone.
#[derive(Clone, Copy, Debug, PartialEq, Eq)]
pub enum HostCall {
    /// Go on only if `0` has authorized the call.
    RequireAuth(Address),
    /// Move `amount` of `token` from `from` to `to`.
    Transfer { token: Address, from: Address, to: Address, amount: i128 },
    /// Publish an event.
    Publish(FeeCollected),
}

/// A call of a contract: who runs, when, on which storage, and what the host was asked so far.
pub struct Invocation<S> {
    /// The contract that runs.
    pub contract: Address,
    /// The close time of the ledger.
    pub timestamp: u64,
    /// The storage of the contract.
    pub storage: S,
    /// What the host was asked to do, in order.
    pub calls: Vec<HostCall>,
}

/// Whether two moments of one call differ in their storage and host calls at most.
pub open spec fn same_call<S>(a: Invocation<S>, b: Invocation<S>) -> bool {
    a.contract == b.contract && a.timestamp == b.timestamp
}

/// Whether the host grants everything that it is asked.
pub open spec fn all_granted(asked: Seq<HostCall>, granted: Set<HostCall>) -> bool {
    forall|i: int| 0 <= i < asked.len() ==> granted.contains(#[trigger] asked[i])
}

/// What stands after a call: the state that the contract left if the host grants everything that
/// it is asked, else the state before.
pub open spec fn outcome<T>(
    before: T,
    left: T,
    asked: Seq<HostCall>,
    granted: Set<HostCall>,
) -> T {
    if all_granted(asked, granted) {
        left
    } else {
        before
    }
}

/// Two moments of one call have the same contract and the same time.
pub proof fn law_call_stays_itself<S>(a: Invocation<S>, b: Invocation<S>)
    requires
        same_call(a, b),
    ensures
        a.contract == b.contract,
        a.timestamp == b.timestamp,
{
}

/// A call of which the host grants every part leaves what the contract left.
pub proof fn law_grant_lets_call_stand<T>(
    before: T,
    left: T,
    asked: Seq<HostCall>,
    granted: Set<HostCall>,
)
    requires
        forall|call: HostCall| #[trigger] asked.contains(call) ==> granted.contains(call),
    ensures
        outcome(before, left, asked, granted) == left,
{
    assert forall|i: int| 0 <= i < asked.len() implies granted.contains(#[trigger] asked[i]) by {
        assert(asked.contains(asked[i]));
    }
}

/// A call of which the host refuses a part changes nothing.
pub proof fn law_refusal_undoes_call<T>(
    before: T,
    left: T,
    asked: Seq<HostCall>,
    granted: Set<HostCall>,
    refused: HostCall,
)
    requires
        asked.contains(refused),
        !granted.contains(refused),
    ensures
        outcome(before, left, asked, granted) == before,
{
}

impl<S> Invocation<S> {
    /// A call that has not asked its host for anything yet.
    pub fn new(contract: Address, timestamp: u64, storage: S) -> (env: Invocation<S>)
        ensures
            env.contract == contract,
            env.timestamp == timestamp,
            env.storage == storage,
            env.calls@ == Seq::<HostCall>::empty(),
    {
        Invocation { contract, timestamp, storage, calls: Vec::new() }
    }

    /// Asks the host to do `call`.
    pub fn ask(&mut self, call: HostCall)
        ensures
            same_call(*final(self), *old(self)),
            final(self).storage == old(self).storage,
            final(self).calls@ == old(self).calls@.push(call),
    {
        self.calls.push(call);
    }
}

} // verus!
