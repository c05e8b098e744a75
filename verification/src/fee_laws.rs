//! What holds of the fee collector as a whole.

use vstd::prelude::*;

use crate::address::Address;
use crate::fee_collector;
use crate::fee_collector::{
    Error, FeeCollected, FeeState, FeeStorage, StorageKey, BPS_DENOM, FEE_RATE_BPS,
};
use crate::host;
use crate::host::HostCall;

verus! {

// What each call does.

/// The storage is seen as it is: each table by its own entries.
pub proof fn law_storage_is_seen_whole(storage: FeeStorage)
    ensures
        storage@.instance == storage.instance@,
        storage@.exemptions == storage.exemptions@,
        storage@.totals == storage.totals@,
{
}

/// What is read of the entries: the admin, an exemption, and a total, which is 0 without an entry.
pub proof fn law_entries_are_read(state: FeeState, account: Address, token: Address)
    ensures
        state.admin() == (if state.instance.contains_key(StorageKey::Admin) {
            Some(state.instance[StorageKey::Admin])
        } else {
            None
        }),
        state.is_exempt(account) <==> state.exemptions.contains_key(
            StorageKey::FeeExempt(account),
        ) && state.exemptions[StorageKey::FeeExempt(account)],
        state.totals.contains_key(StorageKey::AccumulatedFees(token)) ==> state.collected(token)
            == state.totals[StorageKey::AccumulatedFees(token)],
        !state.totals.contains_key(StorageKey::AccumulatedFees(token)) ==> state.collected(token)
            == 0,
{
}

/// Whether `fee` is ten basis points of a trade, rounded down, or one stroop where that comes to
/// less.
pub open spec fn is_ten_basis_points(trade_amount: int, fee: int) -> bool {
    if trade_amount * 10 >= 10_000 {
        fee * 10_000 <= trade_amount * 10 < (fee + 1) * 10_000
    } else {
        fee == 1
    }
}

/// A fee is owed on every positive trade: none by an exempt account, else ten basis points rounded
/// down, and at least one stroop. Only a trade whose tenfold is no `i128` overflows.
pub proof fn law_fee_owed(exempt: bool, trade_amount: i128, fee: i128)
    requires
        is_ten_basis_points(trade_amount as int, fee as int),
    ensures
        fee_collector::fee_owed(exempt, trade_amount) == (if trade_amount <= 0 {
            Err(Error::NonPositiveTrade)
        } else if exempt {
            Ok(0)
        } else if trade_amount * 10 > i128::MAX {
            Err(Error::Overflow)
        } else {
            Ok(fee)
        }),
{
}

/// A fee that `collect_fee` returns is 0 for an exempt account. For another it is ten basis points
/// of the trade, rounded down, where they come to a stroop or more, and one stroop otherwise.
pub proof fn law_collected_fee_is_ten_basis_points(
    state: FeeState,
    payer: Address,
    trade_amount: i128,
    token: Address,
    fee: i128,
)
    requires
        fee_collector::collect_result(state, payer, trade_amount, token) == Ok::<i128, Error>(fee),
    ensures
        ({
            let key = StorageKey::FeeExempt(payer);
            let exempt = state.exemptions.contains_key(key) && state.exemptions[key];
            &&& trade_amount > 0
            &&& exempt ==> fee == 0
            &&& !exempt && trade_amount * 10 >= 10_000 ==> fee * 10_000 <= trade_amount * 10 < (fee
                + 1) * 10_000
            &&& !exempt && trade_amount * 10 < 10_000 ==> fee == 1
        }),
{
}

/// `collect_fee` returns the fee on every positive trade: it is refused only where the trade is not
/// positive, where its tenfold is no `i128`, or where the total would be none.
pub proof fn law_collect_fee_returns_the_fee(
    state: FeeState,
    payer: Address,
    trade_amount: i128,
    token: Address,
    fee: i128,
)
    requires
        is_ten_basis_points(trade_amount as int, fee as int),
    ensures
        ({
            let result = fee_collector::collect_result(state, payer, trade_amount, token);
            let exemption = StorageKey::FeeExempt(payer);
            let exempt = state.exemptions.contains_key(exemption) && state.exemptions[exemption];
            let total = StorageKey::AccumulatedFees(token);
            let before = if state.totals.contains_key(total) {
                state.totals[total] as int
            } else {
                0
            };
            result == (if trade_amount <= 0 {
                Err(Error::NonPositiveTrade)
            } else if exempt {
                Ok(0)
            } else if trade_amount * 10 > i128::MAX || before + fee > i128::MAX {
                Err(Error::Overflow)
            } else {
                Ok(fee)
            })
        }),
{
}

/// `collect_fee` adds the fee that it returns to the total of the token, and changes nothing else:
/// not a thing where it returns 0 or fails.
pub proof fn law_collect_fee_credits_the_fee(
    state: FeeState,
    payer: Address,
    trade_amount: i128,
    token: Address,
)
    ensures
        ({
            let after = fee_collector::collect_state(state, payer, trade_amount, token);
            let key = StorageKey::AccumulatedFees(token);
            let before = if state.totals.contains_key(key) {
                state.totals[key] as int
            } else {
                0
            };
            &&& after.instance == state.instance
            &&& after.exemptions == state.exemptions
            &&& after.totals.remove(key) == state.totals.remove(key)
            &&& match fee_collector::collect_result(state, payer, trade_amount, token) {
                Ok(fee) => if fee == 0 {
                    after.totals == state.totals
                } else {
                    after.totals.contains_key(key) && after.totals[key] == before + fee
                },
                Err(_) => after.totals == state.totals,
            }
        }),
{
    let after = fee_collector::collect_state(state, payer, trade_amount, token);
    let key = StorageKey::AccumulatedFees(token);
    assert(after.totals.remove(key) =~= state.totals.remove(key));
}

/// `collect_fee` asks for the payer's authorization, then for the transfer of the fee to the
/// contract, if there is a fee, and at last for the event that tells of it.
pub proof fn law_collect_fee_asks(
    state: FeeState,
    contract: Address,
    payer: Address,
    trade_amount: i128,
    token: Address,
)
    ensures
        ({
            let asked = fee_collector::collect_calls(state, contract, payer, trade_amount, token);
            let exemption = StorageKey::FeeExempt(payer);
            let exempt = state.exemptions.contains_key(exemption) && state.exemptions[exemption];
            &&& asked.len() >= 1
            &&& asked[0] == HostCall::RequireAuth(payer)
            &&& match fee_collector::collect_result(state, payer, trade_amount, token) {
                Ok(fee) => {
                    let event = HostCall::Publish(
                        FeeCollected { payer, token, amount: fee, trade_amount },
                    );
                    if fee == 0 {
                        asked.len() == 2 && asked[1] == event
                    } else {
                        &&& asked.len() == 3
                        &&& asked[1] == (HostCall::Transfer {
                            token,
                            from: payer,
                            to: contract,
                            amount: fee,
                        })
                        &&& asked[2] == event
                    }
                },
                Err(_) => if trade_amount <= 0 || exempt || trade_amount * 10 > i128::MAX {
                    asked.len() == 1
                } else {
                    &&& asked.len() == 2
                    &&& asked[1] matches HostCall::Transfer { token: in_token, from, to, amount }
                        && in_token == token && from == payer && to == contract
                        && is_ten_basis_points(trade_amount as int, amount as int)
                },
            }
        }),
{
}

/// `initialize` makes the first who is named the admin, and refuses every other.
pub proof fn law_initialize_names_admin(state: FeeState, admin: Address)
    ensures
        ({
            let key = StorageKey::Admin;
            let after = fee_collector::initialize_state(state, admin);
            if state.instance.contains_key(key) {
                &&& fee_collector::initialize_result(state) == Err::<(), Error>(
                    Error::AlreadyInitialized,
                )
                &&& after == state
            } else {
                &&& fee_collector::initialize_result(state) == Ok::<(), Error>(())
                &&& after.instance == state.instance.insert(key, admin)
                &&& after.exemptions == state.exemptions
                &&& after.totals == state.totals
            }
        }),
{
}

/// `set_fee_exempt` is refused until there is an admin, whose authorization it asks for. It writes
/// the exemption or takes it away, and changes nothing else.
pub proof fn law_set_fee_exempt_writes_exemption(state: FeeState, account: Address, exempt: bool)
    ensures
        ({
            let asked = fee_collector::exempt_calls(state);
            let after = fee_collector::exempt_state(state, account, exempt);
            let key = StorageKey::FeeExempt(account);
            if state.instance.contains_key(StorageKey::Admin) {
                &&& fee_collector::exempt_result(state) == Ok::<(), Error>(())
                &&& asked.len() == 1
                &&& asked[0] == HostCall::RequireAuth(state.instance[StorageKey::Admin])
                &&& after.instance == state.instance
                &&& after.totals == state.totals
                &&& after.exemptions.remove(key) == state.exemptions.remove(key)
                &&& after.exemptions.contains_key(key) == exempt
                &&& exempt ==> after.exemptions[key]
            } else {
                &&& fee_collector::exempt_result(state) == Err::<(), Error>(Error::NotInitialized)
                &&& asked.len() == 0
                &&& after == state
            }
        }),
{
    let after = fee_collector::exempt_state(state, account, exempt);
    let key = StorageKey::FeeExempt(account);
    assert(after.exemptions.remove(key) =~= state.exemptions.remove(key));
}

/// An account pays nothing between a `set_fee_exempt` that exempts it and one that takes that back,
/// and ten basis points after it.
pub proof fn law_exemption_decides_fee(
    state: FeeState,
    payer: Address,
    trade_amount: i128,
    token: Address,
    fee: i128,
)
    requires
        state.instance.contains_key(StorageKey::Admin),
        trade_amount > 0,
        trade_amount * 10 <= i128::MAX,
        is_ten_basis_points(trade_amount as int, fee as int),
        !state.totals.contains_key(StorageKey::AccumulatedFees(token)),
    ensures
        ({
            let exempt = fee_collector::exempt_state(state, payer, true);
            let paying = fee_collector::exempt_state(exempt, payer, false);
            &&& fee_collector::collect_result(exempt, payer, trade_amount, token) == Ok::<
                i128,
                Error,
            >(0)
            &&& fee_collector::collect_result(paying, payer, trade_amount, token) == Ok::<
                i128,
                Error,
            >(fee)
        }),
{
}

// What follows.

/// The fee on a trade is at least one stroop and never more than the trade.
pub proof fn law_fee_within_trade(trade_amount: i128)
    requires
        trade_amount > 0,
    ensures
        1 <= fee_collector::fee_on(trade_amount as int) <= trade_amount,
{
}

/// Where 10 basis points come to a stroop or more, the fee is 10 basis points rounded down.
pub proof fn law_fee_is_ten_basis_points(trade_amount: i128)
    requires
        trade_amount * FEE_RATE_BPS >= BPS_DENOM,
    ensures
        fee_collector::fee_on(trade_amount as int) * BPS_DENOM <= trade_amount * FEE_RATE_BPS,
        trade_amount * FEE_RATE_BPS < (fee_collector::fee_on(trade_amount as int) + 1) * BPS_DENOM,
{
}

/// A larger trade never owes a smaller fee.
pub proof fn law_fee_grows_with_trade(smaller: i128, larger: i128)
    requires
        smaller <= larger,
    ensures
        fee_collector::fee_on(smaller as int) <= fee_collector::fee_on(larger as int),
{
}

/// An exempt account pays no fee: its trades go through, nothing is transferred, and no total
/// changes.
pub proof fn law_exempt_account_pays_nothing(
    state: FeeState,
    contract: Address,
    payer: Address,
    trade_amount: i128,
    token: Address,
)
    requires
        state.is_exempt(payer),
        trade_amount > 0,
    ensures
        fee_collector::collect_result(state, payer, trade_amount, token) == Ok::<i128, Error>(0),
        state.with_fee(token, 0) == state,
        forall|call: HostCall|
            fee_collector::collect_calls(
                state,
                contract,
                payer,
                trade_amount,
                token,
            ).contains(call) ==> !(call is Transfer),
{
    let calls = fee_collector::collect_calls(state, contract, payer, trade_amount, token);
    assert forall|call: HostCall| calls.contains(call) implies !(call is Transfer) by {
        let i = choose|i: int| 0 <= i < calls.len() && calls[i] == call;
        assert(calls[i] == call);
    }
}

/// An exemption can be taken back: the account then pays again, and no other account is touched.
pub proof fn law_exemption_can_be_undone(state: FeeState, account: Address)
    ensures
        state.with_exempt(account, true).is_exempt(account),
        !state.with_exempt(account, true).with_exempt(account, false).is_exempt(account),
        !state.exemptions.contains_key(StorageKey::FeeExempt(account)) ==> state.with_exempt(
            account,
            true,
        ).with_exempt(account, false) == state,
        forall|other: Address, exempt: bool|
            other != account ==> #[trigger] state.with_exempt(account, exempt).is_exempt(other)
                == state.is_exempt(other),
{
    if !state.exemptions.contains_key(StorageKey::FeeExempt(account)) {
        assert(state.with_exempt(account, true).with_exempt(account, false) =~= state);
    }
}

/// What is credited is what is transferred: a call that goes through raises the total of its token
/// by the fee that it returns and no other total, and it moves that fee, if there is one, from the
/// payer to the contract.
pub proof fn law_credit_is_transfer(
    state: FeeState,
    contract: Address,
    payer: Address,
    trade_amount: i128,
    token: Address,
    fee: i128,
)
    requires
        fee_collector::collect_result(state, payer, trade_amount, token) == Ok::<i128, Error>(fee),
    ensures
        fee >= 0,
        state.with_fee(token, fee).collected(token) == state.collected(token) + fee,
        forall|other: Address|
            other != token ==> #[trigger] state.with_fee(token, fee).collected(other)
                == state.collected(other),
        forall|call: HostCall|
            (call is Transfer && #[trigger] fee_collector::collect_calls(
                state,
                contract,
                payer,
                trade_amount,
                token,
            ).contains(call)) <==> fee > 0 && call == (HostCall::Transfer {
                token,
                from: payer,
                to: contract,
                amount: fee,
            }),
{
    let calls = fee_collector::collect_calls(state, contract, payer, trade_amount, token);
    let transfer = HostCall::Transfer { token, from: payer, to: contract, amount: fee };
    if !state.is_exempt(payer) {
        law_fee_within_trade(trade_amount);
    }
    if fee > 0 {
        assert(calls[1] == transfer);
    }
    assert forall|call: HostCall| (call is Transfer && #[trigger] calls.contains(call)) implies fee
        > 0 && call == transfer by {
        let i = choose|i: int| 0 <= i < calls.len() && calls[i] == call;
        assert(calls[i] == call);
    }
}

/// Without the admin's authorization no exemption changes.
pub proof fn law_exemption_needs_admin(
    state: FeeState,
    account: Address,
    exempt: bool,
    granted: Set<HostCall>,
)
    requires
        state.admin() matches Some(admin) ==> !granted.contains(HostCall::RequireAuth(admin)),
    ensures
        host::outcome(
            state,
            fee_collector::exempt_state(state, account, exempt),
            fee_collector::exempt_calls(state),
            granted,
        ) == state,
{
    if let Some(admin) = state.admin() {
        assert(fee_collector::exempt_calls(state)[0] == HostCall::RequireAuth(admin));
    }
}

/// Without the payer's authorization no fee is collected.
pub proof fn law_fee_needs_payer(
    state: FeeState,
    contract: Address,
    payer: Address,
    trade_amount: i128,
    token: Address,
    granted: Set<HostCall>,
)
    requires
        !granted.contains(HostCall::RequireAuth(payer)),
    ensures
        host::outcome(
            state,
            fee_collector::collect_state(state, payer, trade_amount, token),
            fee_collector::collect_calls(state, contract, payer, trade_amount, token),
            granted,
        ) == state,
{
    let asked = fee_collector::collect_calls(state, contract, payer, trade_amount, token);
    assert(asked[0] == HostCall::RequireAuth(payer));
}

/// A fee is credited only if its transfer goes through.
pub proof fn law_credit_needs_transfer(
    state: FeeState,
    contract: Address,
    payer: Address,
    trade_amount: i128,
    token: Address,
    fee: i128,
    granted: Set<HostCall>,
)
    requires
        fee_collector::collect_result(state, payer, trade_amount, token) == Ok::<i128, Error>(fee),
        fee > 0,
        !granted.contains(
            HostCall::Transfer { token, from: payer, to: contract, amount: fee },
        ),
    ensures
        host::outcome(
            state,
            fee_collector::collect_state(state, payer, trade_amount, token),
            fee_collector::collect_calls(state, contract, payer, trade_amount, token),
            granted,
        ) == state,
{
    let asked = fee_collector::collect_calls(state, contract, payer, trade_amount, token);
    assert(asked[1] == HostCall::Transfer { token, from: payer, to: contract, amount: fee });
}

// Histories.

/// What the contract is called for.
pub enum FeeRequest {
    Initialize { admin: Address },
    SetFeeExempt { account: Address, exempt: bool },
    CollectFee { payer: Address, trade_amount: i128, token: Address },
}

/// A call of the contract, and what its host grants in it.
pub struct FeeCall {
    pub request: FeeRequest,
    pub granted: Set<HostCall>,
}

/// The state that the contract leaves.
pub open spec fn left_by(state: FeeState, request: FeeRequest) -> FeeState {
    match request {
        FeeRequest::Initialize { admin } => fee_collector::initialize_state(state, admin),
        FeeRequest::SetFeeExempt { account, exempt } => fee_collector::exempt_state(
            state,
            account,
            exempt,
        ),
        FeeRequest::CollectFee { payer, trade_amount, token } => fee_collector::collect_state(
            state,
            payer,
            trade_amount,
            token,
        ),
    }
}

/// What the contract asks of its host.
pub open spec fn asked_by(state: FeeState, contract: Address, request: FeeRequest) -> Seq<
    HostCall,
> {
    match request {
        FeeRequest::Initialize { .. } => Seq::<HostCall>::empty(),
        FeeRequest::SetFeeExempt { .. } => fee_collector::exempt_calls(state),
        FeeRequest::CollectFee { payer, trade_amount, token } => fee_collector::collect_calls(
            state,
            contract,
            payer,
            trade_amount,
            token,
        ),
    }
}

/// The state after a call, whether or not it goes through.
pub open spec fn after_call(state: FeeState, contract: Address, call: FeeCall) -> FeeState {
    host::outcome(
        state,
        left_by(state, call.request),
        asked_by(state, contract, call.request),
        call.granted,
    )
}

/// The state after some calls.
pub open spec fn after_calls(state: FeeState, contract: Address, calls: Seq<FeeCall>) -> FeeState
    decreases calls.len(),
{
    if calls.len() == 0 {
        state
    } else {
        after_call(after_calls(state, contract, calls.drop_last()), contract, calls.last())
    }
}

/// The fee in `token` that a call returns; 0 if it returns none.
pub open spec fn fee_returned(
    state: FeeState,
    contract: Address,
    call: FeeCall,
    token: Address,
) -> int {
    match call.request {
        FeeRequest::CollectFee { payer, trade_amount, token: paid_in } => if paid_in == token
            && host::all_granted(asked_by(state, contract, call.request), call.granted) {
            match fee_collector::collect_result(state, payer, trade_amount, token) {
                Ok(fee) => fee as int,
                Err(_) => 0,
            }
        } else {
            0
        },
        _ => 0,
    }
}

/// The sum of the fees in `token` that some calls return.
pub open spec fn fees_returned(
    state: FeeState,
    contract: Address,
    calls: Seq<FeeCall>,
    token: Address,
) -> int
    decreases calls.len(),
{
    if calls.len() == 0 {
        0
    } else {
        fees_returned(state, contract, calls.drop_last(), token) + fee_returned(
            after_calls(state, contract, calls.drop_last()),
            contract,
            calls.last(),
            token,
        )
    }
}

/// After any calls, whether or not they go through, the total of a token has grown by the sum of
/// the fees returned in it. From storage without totals on, it is that sum, and never negative.
pub proof fn law_total_is_sum_of_fees(
    state: FeeState,
    contract: Address,
    calls: Seq<FeeCall>,
    token: Address,
)
    ensures
        ({
            let total = after_calls(state, contract, calls).collected(token);
            let sum = fees_returned(state, contract, calls, token);
            &&& sum >= 0
            &&& total == state.collected(token) + sum
            &&& state.totals == Map::<StorageKey, i128>::empty() ==> total == sum && total >= 0
        }),
    decreases calls.len(),
{
    if calls.len() > 0 {
        let before = after_calls(state, contract, calls.drop_last());
        law_total_is_sum_of_fees(state, contract, calls.drop_last(), token);
        match calls.last().request {
            FeeRequest::CollectFee { payer, trade_amount, token: paid_in } => {
                match fee_collector::collect_result(before, payer, trade_amount, paid_in) {
                    Ok(fee) => {
                        law_credit_is_transfer(
                            before,
                            contract,
                            payer,
                            trade_amount,
                            paid_in,
                            fee,
                        );
                    },
                    Err(_) => {},
                }
            },
            _ => {},
        }
    }
}

/// Who is named when there is no admin becomes the admin, and once there is an admin, no calls
/// change who it is.
pub proof fn law_admin_stays(
    state: FeeState,
    contract: Address,
    calls: Seq<FeeCall>,
    admin: Address,
)
    ensures
        state.admin() is None ==> fee_collector::initialize_state(state, admin).admin() == Some(
            admin,
        ),
        state.admin() is Some ==> after_calls(state, contract, calls).admin() == state.admin(),
    decreases calls.len(),
{
    if calls.len() > 0 {
        law_admin_stays(state, contract, calls.drop_last(), admin);
    }
}

/// Whether two states hold the same under `key`.
pub open spec fn agree(a: FeeState, b: FeeState, key: StorageKey) -> bool {
    match key {
        StorageKey::Admin => a.instance.get(key) == b.instance.get(key),
        StorageKey::FeeExempt(_) => a.exemptions.get(key) == b.exemptions.get(key),
        StorageKey::AccumulatedFees(_) => a.totals.get(key) == b.totals.get(key),
    }
}

/// `collect_fee` reads two entries and writes one of them: on states that agree under
/// `FeeExempt(payer)` and `AccumulatedFees(token)` it returns the same, asks the same of the host
/// and leaves the same there, and every other entry stays as it was.
pub proof fn law_collect_fee_is_local(
    a: FeeState,
    b: FeeState,
    contract: Address,
    payer: Address,
    trade_amount: i128,
    token: Address,
    fee: i128,
)
    requires
        agree(a, b, StorageKey::FeeExempt(payer)),
        agree(a, b, StorageKey::AccumulatedFees(token)),
    ensures
        fee_collector::collect_result(a, payer, trade_amount, token)
            == fee_collector::collect_result(b, payer, trade_amount, token),
        fee_collector::collect_calls(a, contract, payer, trade_amount, token)
            == fee_collector::collect_calls(b, contract, payer, trade_amount, token),
        agree(
            a.with_fee(token, fee),
            b.with_fee(token, fee),
            StorageKey::AccumulatedFees(token),
        ),
        forall|key: StorageKey|
            key != StorageKey::AccumulatedFees(token) ==> #[trigger] agree(
                a.with_fee(token, fee),
                a,
                key,
            ),
{
}

} // verus!
