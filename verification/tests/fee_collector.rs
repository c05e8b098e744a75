use stellar_swipe::address::Address;
use stellar_swipe::fee_collector::{
    fee_due, Error, FeeCollected, FeeCollector, FeeStorage, StorageKey, BPS_DENOM, FEE_RATE_BPS,
};
use stellar_swipe::host::{HostCall, Invocation};

const ADMIN: Address = Address::Account(0, 1);
const PAYER: Address = Address::Account(0, 2);
const OTHER: Address = Address::Account(0, 3);
const TOKEN: Address = Address::Contract(0, 4);
const OTHER_TOKEN: Address = Address::Contract(0, 5);
const COLLECTOR: Address = Address::Contract(0, 6);

fn setup_fee_collector() -> Invocation<FeeStorage> {
    let mut env = Invocation::new(COLLECTOR, 0, FeeStorage::new());
    assert_eq!(FeeCollector::initialize(&mut env, ADMIN), Ok(()));
    env
}

/// What an account that starts with `balance` of `token` has after the transfers of `env`.
fn balance_after(env: &Invocation<FeeStorage>, account: Address, balance: i128) -> i128 {
    let mut balance = balance;
    for call in env.calls.iter() {
        if let HostCall::Transfer { token, from, to, amount } = call {
            assert_eq!(*token, TOKEN);
            if *from == account {
                balance -= amount;
            }
            if *to == account {
                balance += amount;
            }
        }
    }
    balance
}

#[test]
fn normal_trade_charges_exactly_10_bps() {
    let mut env = setup_fee_collector();
    let trade_amount = 1_000_000i128;
    let fee = FeeCollector::collect_fee(&mut env, PAYER, trade_amount, TOKEN);
    assert_eq!(fee, Ok(1_000)); // 1_000_000 * 10 / 10_000 = 0.1%
    assert_eq!(balance_after(&env, COLLECTOR, 0), 1_000);
    assert_eq!(balance_after(&env, PAYER, 100_000_000), 99_999_000);
    assert_eq!(FeeCollector::get_accumulated_fees(&env, TOKEN), 1_000);
}

#[test]
fn dust_trade_charges_minimum_one_stroop() {
    let mut env = setup_fee_collector();
    let trade_amount = 999i128;
    assert!(trade_amount * FEE_RATE_BPS < BPS_DENOM);
    let fee = FeeCollector::collect_fee(&mut env, PAYER, trade_amount, TOKEN);
    assert_eq!(fee, Ok(1));
    assert_eq!(balance_after(&env, COLLECTOR, 0), 1);
    assert_eq!(FeeCollector::get_accumulated_fees(&env, TOKEN), 1);
}

#[test]
fn fee_exempt_address_pays_no_fee() {
    let mut env = setup_fee_collector();
    assert_eq!(FeeCollector::set_fee_exempt(&mut env, PAYER, true), Ok(()));
    let trade_amount = 1_000_000i128;
    let fee = FeeCollector::collect_fee(&mut env, PAYER, trade_amount, TOKEN);
    assert_eq!(fee, Ok(0));
    assert_eq!(balance_after(&env, COLLECTOR, 0), 0);
    assert_eq!(FeeCollector::get_accumulated_fees(&env, TOKEN), 0);
}

#[test]
fn host_is_asked_in_order() {
    let mut env = setup_fee_collector();
    assert!(env.calls.is_empty());
    assert_eq!(FeeCollector::collect_fee(&mut env, PAYER, 25_000, TOKEN), Ok(25));
    assert_eq!(
        env.calls,
        vec![
            HostCall::RequireAuth(PAYER),
            HostCall::Transfer { token: TOKEN, from: PAYER, to: COLLECTOR, amount: 25 },
            HostCall::Publish(FeeCollected {
                payer: PAYER,
                token: TOKEN,
                amount: 25,
                trade_amount: 25_000,
            }),
        ]
    );
}

#[test]
fn exempt_trade_still_publishes() {
    let mut env = setup_fee_collector();
    assert_eq!(FeeCollector::set_fee_exempt(&mut env, PAYER, true), Ok(()));
    assert_eq!(FeeCollector::collect_fee(&mut env, PAYER, 7, TOKEN), Ok(0));
    assert_eq!(
        env.calls,
        vec![
            HostCall::RequireAuth(ADMIN),
            HostCall::RequireAuth(PAYER),
            HostCall::Publish(FeeCollected {
                payer: PAYER,
                token: TOKEN,
                amount: 0,
                trade_amount: 7,
            }),
        ]
    );
}

#[test]
fn second_initialize_is_refused() {
    let mut env = setup_fee_collector();
    assert_eq!(FeeCollector::initialize(&mut env, OTHER), Err(Error::AlreadyInitialized));
    assert_eq!(env.storage.instance.get(StorageKey::Admin), Some(&ADMIN));
}

#[test]
fn exemption_needs_an_admin() {
    let mut env = Invocation::new(COLLECTOR, 0, FeeStorage::new());
    assert_eq!(
        FeeCollector::set_fee_exempt(&mut env, PAYER, true),
        Err(Error::NotInitialized)
    );
    assert!(env.calls.is_empty());
}

#[test]
fn exemption_can_be_taken_back() {
    let mut env = setup_fee_collector();
    assert_eq!(FeeCollector::set_fee_exempt(&mut env, PAYER, true), Ok(()));
    assert_eq!(FeeCollector::collect_fee(&mut env, PAYER, 10_000, TOKEN), Ok(0));
    assert_eq!(FeeCollector::collect_fee(&mut env, OTHER, 10_000, TOKEN), Ok(10));
    assert_eq!(FeeCollector::set_fee_exempt(&mut env, PAYER, false), Ok(()));
    assert_eq!(env.storage.exemptions.get(StorageKey::FeeExempt(PAYER)), None);
    assert_eq!(FeeCollector::collect_fee(&mut env, PAYER, 10_000, TOKEN), Ok(10));
    assert_eq!(FeeCollector::get_accumulated_fees(&env, TOKEN), 20);
}

#[test]
fn trade_must_be_positive() {
    let mut env = setup_fee_collector();
    for trade_amount in [0i128, -1, i128::MIN] {
        assert_eq!(
            FeeCollector::collect_fee(&mut env, PAYER, trade_amount, TOKEN),
            Err(Error::NonPositiveTrade)
        );
    }
    assert_eq!(env.calls, vec![HostCall::RequireAuth(PAYER); 3]);
    assert_eq!(FeeCollector::set_fee_exempt(&mut env, PAYER, true), Ok(()));
    assert_eq!(
        FeeCollector::collect_fee(&mut env, PAYER, 0, TOKEN),
        Err(Error::NonPositiveTrade)
    );
}

#[test]
fn huge_trade_overflows() {
    let largest = i128::MAX / FEE_RATE_BPS;
    assert_eq!(fee_due(false, largest), Ok(largest * 10 / 10_000));
    assert_eq!(fee_due(false, largest + 1), Err(Error::Overflow));
    assert_eq!(fee_due(true, i128::MAX), Ok(0));
    let mut env = setup_fee_collector();
    assert_eq!(
        FeeCollector::collect_fee(&mut env, PAYER, largest + 1, TOKEN),
        Err(Error::Overflow)
    );
    assert_eq!(env.calls, vec![HostCall::RequireAuth(PAYER)]);
}

#[test]
fn full_total_overflows() {
    let mut env = setup_fee_collector();
    env.storage.totals.set(StorageKey::AccumulatedFees(TOKEN), i128::MAX - 1);
    assert_eq!(FeeCollector::collect_fee(&mut env, PAYER, 2_000, TOKEN), Err(Error::Overflow));
    assert_eq!(FeeCollector::get_accumulated_fees(&env, TOKEN), i128::MAX - 1);
    assert_eq!(FeeCollector::collect_fee(&mut env, PAYER, 1_999, TOKEN), Ok(1));
    assert_eq!(FeeCollector::get_accumulated_fees(&env, TOKEN), i128::MAX);
}

#[test]
fn fee_rounds_down() {
    assert_eq!(fee_due(false, 1), Ok(1));
    assert_eq!(fee_due(false, 1_000), Ok(1));
    assert_eq!(fee_due(false, 1_999), Ok(1));
    assert_eq!(fee_due(false, 2_000), Ok(2));
    assert_eq!(fee_due(false, 123_456), Ok(123));
}

#[test]
fn totals_are_kept_by_token() {
    let mut env = setup_fee_collector();
    assert_eq!(FeeCollector::collect_fee(&mut env, PAYER, 5_000, TOKEN), Ok(5));
    assert_eq!(FeeCollector::collect_fee(&mut env, OTHER, 3_000, OTHER_TOKEN), Ok(3));
    assert_eq!(FeeCollector::collect_fee(&mut env, OTHER, 2_000, TOKEN), Ok(2));
    assert_eq!(FeeCollector::get_accumulated_fees(&env, TOKEN), 7);
    assert_eq!(FeeCollector::get_accumulated_fees(&env, OTHER_TOKEN), 3);
    assert_eq!(FeeCollector::get_accumulated_fees(&env, COLLECTOR), 0);
}

#[test]
fn error_codes() {
    assert_eq!(Error::NotInitialized.code(), 1);
    assert_eq!(Error::AlreadyInitialized.code(), 2);
    assert_eq!(Error::NonPositiveTrade.code(), 3);
    assert_eq!(Error::Overflow.code(), 4);
}

#[test]
fn collect_fee_needs_two_entries_only() {
    let mut full = setup_fee_collector();
    full.storage.totals.set(StorageKey::AccumulatedFees(TOKEN), 40);
    full.storage.totals.set(StorageKey::AccumulatedFees(OTHER_TOKEN), 50);
    let mut part = Invocation::new(COLLECTOR, 0, FeeStorage::new());
    part.storage.totals.set(StorageKey::AccumulatedFees(TOKEN), 40);
    assert_eq!(FeeCollector::collect_fee(&mut full, PAYER, 8_000, TOKEN), Ok(8));
    assert_eq!(FeeCollector::collect_fee(&mut part, PAYER, 8_000, TOKEN), Ok(8));
    assert_eq!(full.calls, part.calls);
    assert_eq!(FeeCollector::get_accumulated_fees(&full, TOKEN), 48);
    assert_eq!(FeeCollector::get_accumulated_fees(&part, TOKEN), 48);
    assert_eq!(FeeCollector::get_accumulated_fees(&full, OTHER_TOKEN), 50);
}

#[test]
fn total_is_the_sum_of_fees_whatever_happens_between() {
    let mut env = Invocation::new(COLLECTOR, 0, FeeStorage::new());
    let mut sum = 0i128;
    for trade_amount in [5_000i128, 0, 999, i128::MAX, 20_000] {
        sum += FeeCollector::collect_fee(&mut env, PAYER, trade_amount, TOKEN).unwrap_or(0);
        assert_eq!(
            FeeCollector::set_fee_exempt(&mut env, PAYER, true).is_ok(),
            env.storage.instance.get(StorageKey::Admin).is_some()
        );
        let _ = FeeCollector::initialize(&mut env, ADMIN);
        assert_eq!(FeeCollector::get_accumulated_fees(&env, TOKEN), sum);
        assert_eq!(FeeCollector::collect_fee(&mut env, OTHER, 1_000, OTHER_TOKEN), Ok(1));
        assert_eq!(FeeCollector::set_fee_exempt(&mut env, PAYER, false), Ok(()));
    }
    assert_eq!(sum, 5 + 1 + 20);
    assert_eq!(FeeCollector::get_accumulated_fees(&env, TOKEN), 26);
    assert_eq!(FeeCollector::get_accumulated_fees(&env, OTHER_TOKEN), 5);
    assert_eq!(env.storage.instance.get(StorageKey::Admin), Some(&ADMIN));
}

#[test]
fn authorization_is_asked_first() {
    let mut env = setup_fee_collector();
    assert_eq!(FeeCollector::set_fee_exempt(&mut env, OTHER, true), Ok(()));
    assert_eq!(env.calls, vec![HostCall::RequireAuth(ADMIN)]);
    let mut env = setup_fee_collector();
    assert_eq!(FeeCollector::collect_fee(&mut env, PAYER, 1, TOKEN), Ok(1));
    assert_eq!(env.calls[0], HostCall::RequireAuth(PAYER));
}

#[test]
fn errors_are_ordered_by_code() {
    assert!(Error::NotInitialized < Error::AlreadyInitialized);
    assert!(Error::AlreadyInitialized < Error::NonPositiveTrade);
    assert!(Error::NonPositiveTrade < Error::Overflow);
}
