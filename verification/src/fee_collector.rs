//! The fee collector: a protocol fee on each trade, with accounts that are exempt from it.

use vstd::prelude::*;

use crate::address::Address;
use crate::host::{HostCall, Invocation};
use crate::table::{Key, Table};

verus! {

/// Protocol fee rate: 0.1% = 10 basis points.
pub const FEE_RATE_BPS: i128 = 10;

/// Basis points in the whole.
pub const BPS_DENOM: i128 = 10_000;

/// When `trade_amount * FEE_RATE_BPS < BPS_DENOM`, charge at least one stroop.
pub const MIN_FEE_STROOPS: i128 = 1;

/// The contract.
pub struct FeeCollector;

/// The keys of the contract's storage.
#[derive(Clone, Copy, Debug, PartialEq, Eq, Structural)]
pub enum StorageKey {
    /// The fees collected in a token.
    AccumulatedFees(Address),
    /// Whether an account is exempt from the fee.
    FeeExempt(Address),
    /// Who may exempt accounts.
    Admin,
}

impl Key for StorageKey {
    fn same(&self, other: &Self) -> (same: bool) {
        *self == *other
    }
}

/// Why a call is refused.
#[derive(Clone, Copy, Debug, PartialEq, Eq, PartialOrd, Ord, Structural)]
pub enum Error {
    NotInitialized,
    AlreadyInitialized,
    NonPositiveTrade,
    Overflow,
}

impl Error {
    /// The number of the error, as clients of the contract see it.
    pub fn code(self) -> (code: u32)
        ensures
            code == (match self {
                Error::NotInitialized => 1u32,
                Error::AlreadyInitialized => 2u32,
                Error::NonPositiveTrade => 3u32,
                Error::Overflow => 4u32,
            }),
    {
        match self {
            Error::NotInitialized => 1,
            Error::AlreadyInitialized => 2,
            Error::NonPositiveTrade => 3,
            Error::Overflow => 4,
        }
    }
}

/// The event of a collected fee.
#[derive(Clone, Copy, Debug, PartialEq, Eq)]
pub struct FeeCollected {
    pub payer: Address,
    pub token: Address,
    pub amount: i128,
    pub trade_amount: i128,
}

/// The storage of the contract, by the type of the values.
pub struct FeeStorage {
    /// The instance storage: `StorageKey::Admin`.
    pub instance: Table<StorageKey, Address>,
    /// The persistent entries of `StorageKey::FeeExempt`.
    pub exemptions: Table<StorageKey, bool>,
    /// The persistent entries of `StorageKey::AccumulatedFees`.
    pub totals: Table<StorageKey, i128>,
}

/// The storage as maps.
#[verifier::ext_equal]
pub struct FeeState {
    pub instance: Map<StorageKey, Address>,
    pub exemptions: Map<StorageKey, bool>,
    pub totals: Map<StorageKey, i128>,
}

impl View for FeeStorage {
    type V = FeeState;

    open spec fn view(&self) -> FeeState {
        FeeState {
            instance: self.instance@,
            exemptions: self.exemptions@,
            totals: self.totals@,
        }
    }
}

impl FeeState {
    /// The admin, once there is one.
    pub open spec fn admin(self) -> Option<Address> {
        self.instance.get(StorageKey::Admin)
    }

    /// Whether `account` pays no fee.
    pub open spec fn is_exempt(self, account: Address) -> bool {
        self.exemptions.get(StorageKey::FeeExempt(account)) == Some(true)
    }

    /// The fees collected in `token`.
    pub open spec fn collected(self, token: Address) -> i128 {
        match self.totals.get(StorageKey::AccumulatedFees(token)) {
            Some(total) => total,
            None => 0,
        }
    }

    /// The state with `admin` as the admin.
    pub open spec fn with_admin(self, admin: Address) -> FeeState {
        FeeState { instance: self.instance.insert(StorageKey::Admin, admin), ..self }
    }

    /// The state in which `account` is exempt or not.
    pub open spec fn with_exempt(self, account: Address, exempt: bool) -> FeeState {
        let key = StorageKey::FeeExempt(account);
        FeeState {
            exemptions: if exempt {
                self.exemptions.insert(key, true)
            } else {
                self.exemptions.remove(key)
            },
            ..self
        }
    }

    /// The state after a fee of `fee` in `token`.
    pub open spec fn with_fee(self, token: Address, fee: i128) -> FeeState {
        if fee > 0 {
            FeeState {
                totals: self.totals.insert(
                    StorageKey::AccumulatedFees(token),
                    (self.collected(token) + fee) as i128,
                ),
                ..self
            }
        } else {
            self
        }
    }
}

/// The fee on a trade by an account that is not exempt: 10 basis points, rounded down, and at
/// least one stroop.
pub open spec fn fee_on(trade_amount: int) -> int {
    if trade_amount * FEE_RATE_BPS < BPS_DENOM {
        MIN_FEE_STROOPS as int
    } else {
        trade_amount * FEE_RATE_BPS / BPS_DENOM as int
    }
}

/// The fee that an account owes, or why the trade is refused.
pub open spec fn fee_owed(exempt: bool, trade_amount: i128) -> Result<i128, Error> {
    if trade_amount <= 0 {
        Err(Error::NonPositiveTrade)
    } else if exempt {
        Ok(0)
    } else if trade_amount * FEE_RATE_BPS > i128::MAX {
        Err(Error::Overflow)
    } else {
        Ok(fee_on(trade_amount as int) as i128)
    }
}

/// What `initialize` returns.
pub open spec fn initialize_result(state: FeeState) -> Result<(), Error> {
    match state.admin() {
        Some(_) => Err(Error::AlreadyInitialized),
        None => Ok(()),
    }
}

/// The state that `initialize` leaves.
pub open spec fn initialize_state(state: FeeState, admin: Address) -> FeeState {
    match initialize_result(state) {
        Ok(_) => state.with_admin(admin),
        Err(_) => state,
    }
}

/// What `set_fee_exempt` returns.
pub open spec fn exempt_result(state: FeeState) -> Result<(), Error> {
    match state.admin() {
        None => Err(Error::NotInitialized),
        Some(_) => Ok(()),
    }
}

/// The state that `set_fee_exempt` leaves.
pub open spec fn exempt_state(state: FeeState, account: Address, exempt: bool) -> FeeState {
    match exempt_result(state) {
        Ok(_) => state.with_exempt(account, exempt),
        Err(_) => state,
    }
}

/// What `set_fee_exempt` asks of the host: that the admin agrees.
pub open spec fn exempt_calls(state: FeeState) -> Seq<HostCall> {
    match state.admin() {
        None => Seq::<HostCall>::empty(),
        Some(admin) => seq![HostCall::RequireAuth(admin)],
    }
}

/// What `collect_fee` returns.
pub open spec fn collect_result(
    state: FeeState,
    payer: Address,
    trade_amount: i128,
    token: Address,
) -> Result<i128, Error> {
    match fee_owed(state.is_exempt(payer), trade_amount) {
        Err(error) => Err(error),
        Ok(fee) => if fee > 0 && state.collected(token) + fee > i128::MAX {
            Err(Error::Overflow)
        } else {
            Ok(fee)
        },
    }
}

/// The state that `collect_fee` leaves.
pub open spec fn collect_state(
    state: FeeState,
    payer: Address,
    trade_amount: i128,
    token: Address,
) -> FeeState {
    match collect_result(state, payer, trade_amount, token) {
        Ok(fee) => state.with_fee(token, fee),
        Err(_) => state,
    }
}

/// What `collect_fee` asks of the host, in order: that the payer agrees; then, if a fee is due,
/// its transfer to the contract; then, if nothing stands against the fee, its event.
pub open spec fn collect_calls(
    state: FeeState,
    contract: Address,
    payer: Address,
    trade_amount: i128,
    token: Address,
) -> Seq<HostCall> {
    let auth = seq![HostCall::RequireAuth(payer)];
    let transfer = match fee_owed(state.is_exempt(payer), trade_amount) {
        Ok(fee) if fee > 0 => seq![
            HostCall::Transfer { token, from: payer, to: contract, amount: fee },
        ],
        _ => Seq::<HostCall>::empty(),
    };
    let event = match collect_result(state, payer, trade_amount, token) {
        Ok(fee) => seq![
            HostCall::Publish(FeeCollected { payer, token, amount: fee, trade_amount }),
        ],
        Err(_) => Seq::<HostCall>::empty(),
    };
    auth + transfer + event
}

impl FeeStorage {
    /// Storage without entries.
    pub fn new() -> (storage: FeeStorage)
        ensures
            storage@.instance == Map::<StorageKey, Address>::empty(),
            storage@.exemptions == Map::<StorageKey, bool>::empty(),
            storage@.totals == Map::<StorageKey, i128>::empty(),
    {
        FeeStorage { instance: Table::new(), exemptions: Table::new(), totals: Table::new() }
    }
}

/// The fee that an account owes on a trade.
pub fn fee_due(exempt: bool, trade_amount: i128) -> (fee: Result<i128, Error>)
    ensures
        fee == fee_owed(exempt, trade_amount),
{
    if trade_amount <= 0 {
        return Err(Error::NonPositiveTrade);
    }
    if exempt {
        return Ok(0);
    }
    match trade_amount.checked_mul(FEE_RATE_BPS) {
        None => Err(Error::Overflow),
        Some(product) => if product < BPS_DENOM {
            Ok(MIN_FEE_STROOPS)
        } else {
            Ok(product / BPS_DENOM)
        },
    }
}

impl FeeCollector {
    /// Names the admin, once.
    pub fn initialize(env: &mut Invocation<FeeStorage>, admin: Address) -> (result: Result<(), Error>)
        ensures
            crate::host::same_call(*final(env), *old(env)),
            final(env).calls@ == old(env).calls@,
            result == initialize_result(old(env).storage@),
            final(env).storage@ == initialize_state(old(env).storage@, admin),
    {
        if env.storage.instance.get(StorageKey::Admin).is_some() {
            return Err(Error::AlreadyInitialized);
        }
        env.storage.instance.set(StorageKey::Admin, admin);
        Ok(())
    }

    /// Exempts `account` from the fee, or takes the exemption back. The admin must authorize it.
    pub fn set_fee_exempt(
        env: &mut Invocation<FeeStorage>,
        account: Address,
        exempt: bool,
    ) -> (result: Result<(), Error>)
        ensures
            crate::host::same_call(*final(env), *old(env)),
            result == exempt_result(old(env).storage@),
            final(env).storage@ == exempt_state(old(env).storage@, account, exempt),
            final(env).calls@ == old(env).calls@ + exempt_calls(old(env).storage@),
    {
        let admin: Address = match env.storage.instance.get(StorageKey::Admin) {
            None => return Err(Error::NotInitialized),
            Some(admin) => *admin,
        };
        env.ask(HostCall::RequireAuth(admin));
        if exempt {
            env.storage.exemptions.set(StorageKey::FeeExempt(account), true);
        } else {
            env.storage.exemptions.remove(StorageKey::FeeExempt(account));
        }
        Ok(())
    }

    /// Deducts the protocol fee from `payer` and credits this contract.
    /// Returns the fee charged in token stroops (0 if `payer` is fee-exempt).
    pub fn collect_fee(
        env: &mut Invocation<FeeStorage>,
        payer: Address,
        trade_amount: i128,
        token: Address,
    ) -> (result: Result<i128, Error>)
        ensures
            crate::host::same_call(*final(env), *old(env)),
            result == collect_result(old(env).storage@, payer, trade_amount, token),
            final(env).storage@ == collect_state(old(env).storage@, payer, trade_amount, token),
            final(env).calls@ == old(env).calls@ + collect_calls(
                old(env).storage@,
                old(env).contract,
                payer,
                trade_amount,
                token,
            ),
    {
        env.ask(HostCall::RequireAuth(payer));
        let exempt: bool = match env.storage.exemptions.get(StorageKey::FeeExempt(payer)) {
            Some(exempt) => *exempt,
            None => false,
        };
        let fee: i128 = match fee_due(exempt, trade_amount) {
            Ok(fee) => fee,
            Err(error) => return Err(error),
        };
        if fee > 0 {
            let contract: Address = env.contract;
            env.ask(HostCall::Transfer { token, from: payer, to: contract, amount: fee });
            let total: i128 = Self::get_accumulated_fees(env, token);
            match total.checked_add(fee) {
                None => return Err(Error::Overflow),
                Some(next) => {
                    env.storage.totals.set(StorageKey::AccumulatedFees(token), next);
                },
            }
        }
        env.ask(HostCall::Publish(FeeCollected { payer, token, amount: fee, trade_amount }));
        Ok(fee)
    }

    /// The fees collected in `token` so far.
    pub fn get_accumulated_fees(env: &Invocation<FeeStorage>, token: Address) -> (total: i128)
        ensures
            total == env.storage@.collected(token),
    {
        match env.storage.totals.get(StorageKey::AccumulatedFees(token)) {
            Some(total) => *total,
            None => 0,
        }
    }
}

} // verus!
