use stellar_swipe::address::Address;
use stellar_swipe::badges::{Badge, BadgeType};
use stellar_swipe::host::{HostCall, Invocation};
use stellar_swipe::id_list::IdList;
use stellar_swipe::queries::{page_of_ids, pnl_summary};
use stellar_swipe::user_portfolio::{
    PnlSummary, PortfolioError, PortfolioStorage, Position, PositionStatus, Settings,
    TradeHistoryEntry, UserPortfolio,
};

const ADMIN: Address = Address::Account(0, 1);
const USER: Address = Address::Account(0, 2);
const OTHER: Address = Address::Account(0, 3);
const ORACLE: Address = Address::Contract(0, 4);
const PORTFOLIO: Address = Address::Contract(0, 5);

const EARLY: Badge = Badge { badge_type: BadgeType::EarlyAdopter };
const TOP: Badge = Badge { badge_type: BadgeType::Top10Leaderboard };

fn setup_portfolio(early_adopter_cap: u32) -> Invocation<PortfolioStorage> {
    let storage = PortfolioStorage::new(soroban_sdk::Env::default());
    let mut env = Invocation::new(PORTFOLIO, 0, storage);
    assert_eq!(UserPortfolio::initialize(&mut env, ADMIN, ORACLE, early_adopter_cap), Ok(()));
    env
}

fn open(env: &mut Invocation<PortfolioStorage>, user: Address, price: i128, amount: i128) -> u64 {
    UserPortfolio::open_position(env, user, price, amount).unwrap()
}

fn close(env: &mut Invocation<PortfolioStorage>, user: Address, id: u64, pnl: i128) {
    UserPortfolio::close_position(env, user, id, pnl).unwrap()
}

/// All positions closed: unrealized is 0, total = realized, ROI uses invested sums.
#[test]
fn get_pnl_all_closed() {
    let mut env = setup_portfolio(1000);
    let price = Some(100);

    open(&mut env, USER, 100, 1_000);
    open(&mut env, USER, 100, 500);
    close(&mut env, USER, 1, 200);
    close(&mut env, USER, 2, -50);

    let pnl = UserPortfolio::get_pnl(&env, USER, price).unwrap();
    assert_eq!(pnl.realized_pnl, 150);
    assert_eq!(pnl.unrealized_pnl, Some(0));
    assert_eq!(pnl.total_pnl, 150);
    // invested 1500, roi = 150 * 10000 / 1500 = 1000 bps = 10%
    assert_eq!(pnl.roi_bps, 1000);
    assert_eq!(UserPortfolio::get_pnl(&env, USER, None), Ok(pnl));
}

/// Only open positions: realized 0, unrealized from oracle.
#[test]
fn get_pnl_all_open() {
    let mut env = setup_portfolio(1000);

    // entry 100, amount 1000, current 120 -> (120-100)*1000/100 = 200
    open(&mut env, USER, 100, 1_000);
    let price = Some(120);

    let pnl = UserPortfolio::get_pnl(&env, USER, price).unwrap();
    assert_eq!(pnl.realized_pnl, 0);
    assert_eq!(pnl.unrealized_pnl, Some(200));
    assert_eq!(pnl.total_pnl, 200);
    assert_eq!(pnl.roi_bps, 2000); // 200/1000 * 10000
}

/// Mixed open + closed.
#[test]
fn get_pnl_mixed() {
    let mut env = setup_portfolio(1000);

    open(&mut env, USER, 50, 2_000);
    open(&mut env, USER, 50, 1_000);
    close(&mut env, USER, 1, 300);

    let price = Some(60);
    // open pos 2: (60-50)*1000/50 = 200
    let pnl = UserPortfolio::get_pnl(&env, USER, price).unwrap();
    assert_eq!(pnl.realized_pnl, 300);
    assert_eq!(pnl.unrealized_pnl, Some(200));
    assert_eq!(pnl.total_pnl, 500);
    // invested: closed 2000 + open 1000 = 3000
    assert_eq!(pnl.roi_bps, 1666);
}

/// Oracle fails: partial result, unrealized None, total = realized only.
#[test]
fn get_pnl_oracle_unavailable() {
    let mut env = setup_portfolio(1000);
    let price = None;

    open(&mut env, USER, 100, 1_000);
    close(&mut env, USER, 1, 50);

    open(&mut env, USER, 100, 500);
    let pnl = UserPortfolio::get_pnl(&env, USER, price).unwrap();
    assert_eq!(pnl.realized_pnl, 50);
    assert_eq!(pnl.unrealized_pnl, None);
    assert_eq!(pnl.total_pnl, 50);
    // invested: 1000 closed + 500 open = 1500
    assert_eq!(pnl.roi_bps, 333);
}

/// 100 closes, pages of 20: full coverage in reverse chronological order.
#[test]
fn get_trade_history_paginate_100_by_20() {
    let mut env = setup_portfolio(1000);

    for i in 0..100 {
        let id = open(&mut env, USER, 100, i as i128 + 1);
        close(&mut env, USER, id, i as i128);
    }

    let mut cursor = Option::<u64>::None;
    let mut flat: Vec<u64> = Vec::new();
    loop {
        let page = UserPortfolio::get_trade_history(&env, USER, cursor, 20).unwrap();
        if page.is_empty() {
            break;
        }
        for e in page.iter() {
            flat.push(e.trade_id);
        }
        if page.len() < 20 {
            break;
        }
        let last = page.last().expect("last entry");
        cursor = Some(last.trade_id);
    }

    assert_eq!(flat.len(), 100);
    for i in 0u32..100 {
        let expected = 100_u64 - i as u64;
        assert_eq!(flat.get(i as usize), Some(&expected));
    }
}

#[test]
fn get_trade_history_limit_capped_at_50() {
    let mut env = setup_portfolio(1000);
    for i in 0..60 {
        let id = open(&mut env, USER, 100, 100 + i as i128);
        close(&mut env, USER, id, 0);
    }
    let page = UserPortfolio::get_trade_history(&env, USER, Option::None, 200).unwrap();
    assert_eq!(page.len(), 50);
}

#[test]
fn history_tells_the_trade() {
    let mut env = setup_portfolio(1000);
    open(&mut env, USER, 10, 20);
    open(&mut env, USER, 30, 40);
    env.timestamp = 7;
    close(&mut env, USER, 2, -5);
    env.timestamp = 9;
    close(&mut env, USER, 1, 6);
    let first = TradeHistoryEntry {
        trade_id: 1,
        entry_price: 10,
        amount: 20,
        realized_pnl: 6,
        closed_at: 9,
    };
    let second = TradeHistoryEntry {
        trade_id: 2,
        entry_price: 30,
        amount: 40,
        realized_pnl: -5,
        closed_at: 7,
    };
    let page = |cursor, limit| UserPortfolio::get_trade_history(&env, USER, cursor, limit);
    assert_eq!(page(None, 50), Ok(vec![first, second]));
    assert_eq!(page(None, 1), Ok(vec![first]));
    assert_eq!(page(Some(1), 1), Ok(vec![second]));
    assert_eq!(page(Some(2), 1), Ok(vec![]));
    assert_eq!(page(Some(99), 10), Ok(vec![]));
    assert_eq!(page(None, 0), Ok(vec![]));
    assert_eq!(UserPortfolio::get_trade_history(&env, OTHER, None, 10), Ok(vec![]));
}

#[test]
fn setup_happens_once() {
    let mut env = setup_portfolio(3);
    assert_eq!(env.calls, vec![HostCall::RequireAuth(ADMIN)]);
    let settings = Settings {
        admin: ADMIN,
        oracle: ORACLE,
        next_position_id: 1,
        early_adopter_cap: 3,
        total_users_first_open: 0,
    };
    assert_eq!(env.storage.settings, Some(settings));
    assert_eq!(
        UserPortfolio::initialize(&mut env, OTHER, OTHER, 9),
        Err(PortfolioError::AlreadyInitialized)
    );
    assert_eq!(env.storage.settings, Some(settings));
}

#[test]
fn nothing_works_before_setup() {
    let storage = PortfolioStorage::new(soroban_sdk::Env::default());
    let mut env = Invocation::new(PORTFOLIO, 0, storage);
    let refused = Err(PortfolioError::NotInitialized);
    assert_eq!(UserPortfolio::set_oracle(&mut env, ORACLE), refused);
    assert_eq!(UserPortfolio::set_leaderboard_rank(&mut env, USER, 1), refused);
    assert_eq!(
        UserPortfolio::open_position(&mut env, USER, 1, 1),
        Err(PortfolioError::NotInitialized)
    );
    assert_eq!(UserPortfolio::price_source(&env), None);
    assert_eq!(env.calls, vec![HostCall::RequireAuth(USER)]);
}

#[test]
fn oracle_can_be_replaced() {
    let mut env = setup_portfolio(3);
    assert_eq!(UserPortfolio::price_source(&env), Some(ORACLE));
    assert_eq!(UserPortfolio::set_oracle(&mut env, OTHER), Ok(()));
    assert_eq!(UserPortfolio::price_source(&env), Some(OTHER));
    assert_eq!(env.calls, vec![HostCall::RequireAuth(ADMIN); 2]);
}

#[test]
fn position_is_recorded() {
    let mut env = setup_portfolio(3);
    assert_eq!(UserPortfolio::open_position(&mut env, USER, 100, 1_000), Ok(1));
    assert_eq!(UserPortfolio::open_position(&mut env, OTHER, 50, 10), Ok(2));
    assert_eq!(
        env.storage.positions.get(2),
        Some(&Position {
            entry_price: 50,
            amount: 10,
            status: PositionStatus::Open,
            realized_pnl: 0,
            closed_at: 0,
        })
    );
    env.timestamp = 12;
    assert_eq!(UserPortfolio::close_position(&mut env, OTHER, 2, 4), Ok(()));
    assert_eq!(
        env.storage.positions.get(2),
        Some(&Position {
            entry_price: 50,
            amount: 10,
            status: PositionStatus::Closed,
            realized_pnl: 4,
            closed_at: 12,
        })
    );
    assert_eq!(
        env.calls,
        vec![
            HostCall::RequireAuth(ADMIN),
            HostCall::RequireAuth(USER),
            HostCall::RequireAuth(OTHER),
            HostCall::RequireAuth(OTHER),
        ]
    );
}

#[test]
fn position_must_be_positive() {
    let mut env = setup_portfolio(3);
    for (price, amount) in [(0, 1), (1, 0), (-1, 1), (1, -1)] {
        assert_eq!(
            UserPortfolio::open_position(&mut env, USER, price, amount),
            Err(PortfolioError::InvalidPosition)
        );
    }
    assert_eq!(UserPortfolio::open_position(&mut env, USER, 1, 1), Ok(1));
}

#[test]
fn ids_run_out() {
    let mut env = setup_portfolio(3);
    let settings = env.storage.settings.unwrap();
    env.storage.settings = Some(Settings { next_position_id: u64::MAX - 1, ..settings });
    assert_eq!(UserPortfolio::open_position(&mut env, USER, 1, 1), Ok(u64::MAX - 1));
    assert_eq!(
        UserPortfolio::open_position(&mut env, USER, 1, 1),
        Err(PortfolioError::PositionIdOverflow)
    );
}

#[test]
fn only_own_open_positions_can_be_closed() {
    let mut env = setup_portfolio(3);
    open(&mut env, USER, 100, 1_000);
    open(&mut env, OTHER, 100, 1_000);
    assert_eq!(
        UserPortfolio::close_position(&mut env, USER, 2, 0),
        Err(PortfolioError::PositionNotFound)
    );
    assert_eq!(
        UserPortfolio::close_position(&mut env, PORTFOLIO, 1, 0),
        Err(PortfolioError::PositionNotFound)
    );
    close(&mut env, USER, 1, 5);
    assert_eq!(
        UserPortfolio::close_position(&mut env, USER, 1, 6),
        Err(PortfolioError::PositionNotOpen)
    );
    assert_eq!(env.storage.positions.get(1).unwrap().realized_pnl, 5);
    assert_eq!(UserPortfolio::get_trade_history(&env, USER, None, 9).unwrap().len(), 1);
}

#[test]
fn missing_records_are_reported() {
    let mut env = setup_portfolio(3);
    open(&mut env, USER, 100, 1_000);
    close(&mut env, USER, 1, 5);
    open(&mut env, USER, 100, 1_000);
    env.storage.positions.remove(1);
    env.storage.positions.remove(2);
    assert_eq!(
        UserPortfolio::close_position(&mut env, USER, 2, 0),
        Err(PortfolioError::PositionMissing)
    );
    assert_eq!(
        UserPortfolio::get_pnl(&env, USER, None),
        Err(PortfolioError::PositionMissing)
    );
    assert_eq!(
        UserPortfolio::get_trade_history(&env, USER, None, 9),
        Err(PortfolioError::PositionMissing)
    );
}

#[test]
fn empty_portfolio() {
    let env = setup_portfolio(3);
    assert_eq!(
        UserPortfolio::get_pnl(&env, USER, None),
        Ok(PnlSummary { realized_pnl: 0, unrealized_pnl: Some(0), total_pnl: 0, roi_bps: 0 })
    );
    assert_eq!(UserPortfolio::get_badges(&env, USER), vec![]);
}

#[test]
fn losses_round_towards_zero() {
    let mut env = setup_portfolio(3);
    open(&mut env, USER, 3, 10);
    // (2 - 3) * 10 / 3 = -3.33.., -3 * 10000 / 10 = -3000
    let pnl = UserPortfolio::get_pnl(&env, USER, Some(2)).unwrap();
    assert_eq!(pnl.unrealized_pnl, Some(-3));
    assert_eq!(pnl.roi_bps, -3_000);
    open(&mut env, USER, 7, 4);
    // (2 - 7) * 4 / 7 = -2.86.., -5 * 10000 / 14 = -3571.4..
    let pnl = UserPortfolio::get_pnl(&env, USER, Some(2)).unwrap();
    assert_eq!(pnl.unrealized_pnl, Some(-5));
    assert_eq!(pnl.roi_bps, -3_571);
}

#[test]
fn profit_must_fit() {
    let mut env = setup_portfolio(3);
    open(&mut env, USER, 1, 2);
    let overflow = Err(PortfolioError::Overflow);
    assert_eq!(UserPortfolio::get_pnl(&env, USER, Some(i128::MIN)), overflow);
    assert_eq!(UserPortfolio::get_pnl(&env, USER, Some(i128::MAX)), overflow);
    assert_eq!(UserPortfolio::get_pnl(&env, USER, Some(i128::MAX / 4)), overflow);
    assert_eq!(UserPortfolio::get_pnl(&env, USER, Some(1_000_000)), overflow);
    assert!(UserPortfolio::get_pnl(&env, USER, Some(200_000)).is_ok());
    assert!(UserPortfolio::get_pnl(&env, USER, None).is_ok());
    let record = Position {
        entry_price: 0,
        amount: 1,
        status: PositionStatus::Open,
        realized_pnl: 0,
        closed_at: 0,
    };
    assert_eq!(pnl_summary(&vec![record], Some(1)), None);
    assert!(pnl_summary(&vec![record], None).is_some());
}

#[test]
fn closing_moves_profit() {
    let mut env = setup_portfolio(3);
    open(&mut env, USER, 100, 1_000);
    open(&mut env, USER, 200, 600);
    let before = UserPortfolio::get_pnl(&env, USER, Some(150)).unwrap();
    assert_eq!(before.realized_pnl, 0);
    assert_eq!(before.unrealized_pnl, Some(500 - 150));
    assert_eq!(before.roi_bps, 2_187); // 350 * 10000 / 1600
    close(&mut env, USER, 1, 480);
    let after = UserPortfolio::get_pnl(&env, USER, Some(150)).unwrap();
    assert_eq!(after.realized_pnl, 480);
    assert_eq!(after.unrealized_pnl, Some(-150));
    assert_eq!(after.total_pnl, 330);
    assert_eq!(after.roi_bps, 2_062); // 330 * 10000 / 1600
    assert_eq!(UserPortfolio::get_pnl(&env, OTHER, Some(150)).unwrap().total_pnl, 0);
}

#[test]
fn first_users_are_early_adopters() {
    let mut env = setup_portfolio(2);
    let users: Vec<Address> = (10..14).map(|n| Address::Account(0, n)).collect();
    for user in users.iter() {
        open(&mut env, *user, 1, 1);
        open(&mut env, *user, 1, 1);
    }
    assert_eq!(UserPortfolio::get_badges(&env, users[0]), vec![EARLY]);
    assert_eq!(UserPortfolio::get_badges(&env, users[1]), vec![EARLY]);
    assert_eq!(UserPortfolio::get_badges(&env, users[2]), vec![]);
    assert_eq!(UserPortfolio::get_badges(&env, users[3]), vec![]);
    assert_eq!(env.storage.settings.unwrap().total_users_first_open, 4);
}

#[test]
fn best_ten_earn_a_badge() {
    let mut env = setup_portfolio(0);
    for (rank, badges) in [(0, vec![]), (11, vec![]), (10, vec![TOP]), (1, vec![TOP])] {
        assert_eq!(UserPortfolio::set_leaderboard_rank(&mut env, USER, rank), Ok(()));
        open(&mut env, USER, 1, 1);
        assert_eq!(UserPortfolio::get_badges(&env, USER), badges);
    }
    assert_eq!(env.calls[1], HostCall::RequireAuth(ADMIN));
    assert_eq!(env.calls[2], HostCall::RequireAuth(USER));
}

#[test]
fn badges_come_in_award_order() {
    let mut env = setup_portfolio(1);
    open(&mut env, USER, 1, 1);
    assert_eq!(UserPortfolio::set_leaderboard_rank(&mut env, USER, 3), Ok(()));
    assert_eq!(UserPortfolio::get_badges(&env, USER), vec![EARLY]);
    close(&mut env, USER, 1, 0);
    assert_eq!(UserPortfolio::get_badges(&env, USER), vec![EARLY, TOP]);
    open(&mut env, USER, 1, 1);
    close(&mut env, USER, 2, 0);
    assert_eq!(UserPortfolio::get_badges(&env, USER), vec![EARLY, TOP]);
}

#[test]
fn newcomers_are_counted_as_far_as_it_goes() {
    let mut env = setup_portfolio(u32::MAX);
    let settings = env.storage.settings.unwrap();
    env.storage.settings = Some(Settings { total_users_first_open: u32::MAX - 1, ..settings });
    open(&mut env, USER, 1, 1);
    open(&mut env, OTHER, 1, 1);
    assert_eq!(UserPortfolio::get_badges(&env, USER), vec![EARLY]);
    assert_eq!(UserPortfolio::get_badges(&env, OTHER), vec![]);
    assert_eq!(env.storage.settings.unwrap().total_users_first_open, u32::MAX);
}

#[test]
fn calls_need_the_entries_of_the_user_only() {
    let mut full = setup_portfolio(5);
    open(&mut full, OTHER, 1, 1);
    open(&mut full, USER, 40, 80);
    let mut part = Invocation::new(
        PORTFOLIO,
        0,
        PortfolioStorage::new(full.storage.host.clone()),
    );
    part.storage.settings = full.storage.settings;
    let ids = full.storage.opened.get(USER).unwrap().to_host();
    part.storage.opened.set(USER, IdList::from_host(ids).unwrap());
    part.storage.badges.set(USER, UserPortfolio::get_badges(&full, USER));
    part.storage.positions.set(2, *full.storage.positions.get(2).unwrap());
    assert_eq!(open(&mut full, USER, 5, 6), 3);
    assert_eq!(open(&mut part, USER, 5, 6), 3);
    close(&mut full, USER, 2, 9);
    close(&mut part, USER, 2, 9);
    assert_eq!(full.storage.settings, part.storage.settings);
    assert_eq!(
        UserPortfolio::get_pnl(&full, USER, Some(6)),
        UserPortfolio::get_pnl(&part, USER, Some(6))
    );
    assert_eq!(
        UserPortfolio::get_trade_history(&full, USER, None, 5),
        UserPortfolio::get_trade_history(&part, USER, None, 5)
    );
    assert_eq!(
        UserPortfolio::get_badges(&full, USER),
        UserPortfolio::get_badges(&part, USER)
    );
}

#[test]
fn ids_count_up_whatever_happens_between() {
    let storage = PortfolioStorage::new(soroban_sdk::Env::default());
    let mut env = Invocation::new(PORTFOLIO, 0, storage);
    assert!(UserPortfolio::open_position(&mut env, USER, 1, 1).is_err());
    assert_eq!(UserPortfolio::initialize(&mut env, ADMIN, ORACLE, 1), Ok(()));
    assert_eq!(open(&mut env, USER, 1, 1), 1);
    assert!(UserPortfolio::open_position(&mut env, USER, 0, 1).is_err());
    assert!(UserPortfolio::initialize(&mut env, OTHER, ORACLE, 9).is_err());
    assert_eq!(open(&mut env, OTHER, 1, 1), 2);
    assert_eq!(UserPortfolio::set_oracle(&mut env, OTHER), Ok(()));
    close(&mut env, USER, 1, 3);
    assert_eq!(open(&mut env, USER, 1, 1), 3);
    let settings = env.storage.settings.unwrap();
    assert_eq!(settings.admin, ADMIN);
    assert_eq!(settings.early_adopter_cap, 1);
    assert_eq!(settings.next_position_id, 4);
    assert_eq!(settings.total_users_first_open, 2);
}

#[test]
fn closed_records_stay() {
    let mut env = setup_portfolio(3);
    open(&mut env, USER, 10, 20);
    env.timestamp = 4;
    close(&mut env, USER, 1, 7);
    let closed = *env.storage.positions.get(1).unwrap();
    env.timestamp = 5;
    assert!(UserPortfolio::close_position(&mut env, USER, 1, 8).is_err());
    assert!(UserPortfolio::close_position(&mut env, OTHER, 1, 8).is_err());
    assert_eq!(open(&mut env, OTHER, 30, 40), 2);
    close(&mut env, OTHER, 2, 9);
    assert_eq!(UserPortfolio::set_leaderboard_rank(&mut env, USER, 1), Ok(()));
    assert_eq!(env.storage.positions.get(1), Some(&closed));
}

#[test]
fn close_times_do_not_fall() {
    let mut env = setup_portfolio(3);
    for _ in 0..4 {
        open(&mut env, USER, 1, 1);
    }
    for (now, id) in [(3, 4), (3, 2), (8, 1), (9, 3)] {
        env.timestamp = now;
        close(&mut env, USER, id, 0);
    }
    let page = UserPortfolio::get_trade_history(&env, USER, None, 9).unwrap();
    let times: Vec<u64> = page.iter().rev().map(|trade| trade.closed_at).collect();
    assert_eq!(times, vec![3, 3, 8, 9]);
}

#[test]
fn authorization_is_asked_once_and_of_whom_it_takes() {
    let mut env = setup_portfolio(3);
    open(&mut env, USER, 1, 1);
    close(&mut env, USER, 1, 0);
    assert_eq!(UserPortfolio::set_oracle(&mut env, OTHER), Ok(()));
    assert_eq!(UserPortfolio::set_leaderboard_rank(&mut env, OTHER, 2), Ok(()));
    assert_eq!(
        env.calls,
        vec![
            HostCall::RequireAuth(ADMIN),
            HostCall::RequireAuth(USER),
            HostCall::RequireAuth(USER),
            HostCall::RequireAuth(ADMIN),
            HostCall::RequireAuth(ADMIN),
        ]
    );
}

#[test]
fn every_opened_position_can_be_closed() {
    let mut env = setup_portfolio(3);
    for id in 1..=30u64 {
        assert_eq!(open(&mut env, USER, 1, 1), id);
    }
    for id in (1..=30u64).rev() {
        close(&mut env, USER, id, 0);
    }
    let closed = env.storage.closed.get(USER).unwrap();
    let opened = env.storage.opened.get(USER).unwrap();
    assert_eq!(closed.len(), opened.len());
}

#[test]
fn page_needs_its_own_records_only() {
    let mut env = setup_portfolio(3);
    for _ in 0..6 {
        let id = open(&mut env, USER, 5, 5);
        close(&mut env, USER, id, id as i128);
    }
    let ids = page_of_ids(env.storage.closed.get(USER).unwrap(), Some(5), 2);
    assert_eq!(ids, vec![4, 3]);
    let whole = UserPortfolio::get_trade_history(&env, USER, Some(5), 2);
    for id in [1, 2, 5, 6] {
        env.storage.positions.remove(id);
    }
    assert_eq!(UserPortfolio::get_trade_history(&env, USER, Some(5), 2), whole);
    assert_eq!(
        UserPortfolio::get_trade_history(&env, USER, Some(5), 3),
        Err(PortfolioError::PositionMissing)
    );
    let list = env.storage.closed.get(USER).unwrap();
    assert_eq!(page_of_ids(list, None, 200), vec![6, 5, 4, 3, 2, 1]);
    assert_eq!(page_of_ids(list, None, 0), vec![]);
    assert_eq!(page_of_ids(list, Some(99), 9), vec![]);
}

#[test]
fn counter_counts_users_not_positions() {
    let mut env = setup_portfolio(1);
    for (user, count) in [(USER, 1), (USER, 1), (OTHER, 2), (USER, 2), (ADMIN, 3)] {
        let id = open(&mut env, user, 1, 1);
        close(&mut env, user, id, 0);
        assert!(UserPortfolio::open_position(&mut env, PORTFOLIO, 0, 0).is_err());
        assert_eq!(env.storage.settings.unwrap().total_users_first_open, count);
    }
}
