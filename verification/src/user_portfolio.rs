//! The user portfolio: positions, their profit and loss, and badges.

use vstd::prelude::*;

use crate::address::Address;
use crate::badges;
use crate::badges::Badge;
use crate::host::{HostCall, Invocation};
use crate::id_list::IdList;
use crate::queries;
use crate::table::Table;

verus! {

/// The contract.
pub struct UserPortfolio;

/// Aggregated P&L for display. When the oracle cannot supply a price and there are open
/// positions, `unrealized_pnl` is `None` and `total_pnl` equals `realized_pnl` only.
#[derive(Clone, Copy, Debug, PartialEq, Eq)]
pub struct PnlSummary {
    pub realized_pnl: i128,
    pub unrealized_pnl: Option<i128>,
    pub total_pnl: i128,
    pub roi_bps: i32,
}

/// Whether a position is open or closed.
#[derive(Clone, Copy, Debug, PartialEq, Eq, Structural)]
pub enum PositionStatus {
    Open,
    Closed,
}

/// A position.
#[derive(Clone, Copy, Debug, PartialEq, Eq)]
pub struct Position {
    pub entry_price: i128,
    pub amount: i128,
    pub status: PositionStatus,
    /// Set when `status == Closed`; ignored while open.
    pub realized_pnl: i128,
    /// Ledger close time when `status == Closed`; `0` while open.
    pub closed_at: u64,
}

/// One closed leg in `get_trade_history` (newest-first pages).
#[derive(Clone, Copy, Debug, PartialEq, Eq)]
pub struct TradeHistoryEntry {
    pub trade_id: u64,
    pub entry_price: i128,
    pub amount: i128,
    pub realized_pnl: i128,
    pub closed_at: u64,
}

/// Why a call is refused.
#[derive(Clone, Copy, Debug, PartialEq, Eq, Structural)]
pub enum PortfolioError {
    /// The contract has its settings already.
    AlreadyInitialized,
    /// The contract has no settings yet.
    NotInitialized,
    /// The entry price or the amount of a new position is not positive.
    InvalidPosition,
    /// There is no id for another position.
    PositionIdOverflow,
    /// The host has no room for another id in the user's list.
    ListFull,
    /// The position is not one of the user's.
    PositionNotFound,
    /// The storage has no record of the position.
    PositionMissing,
    /// The position is closed already.
    PositionNotOpen,
    /// A number does not fit its type.
    Overflow,
}

/// What the contract is set up with, and its counters: the instance storage.
#[derive(Clone, Copy, Debug, PartialEq, Eq)]
pub struct Settings {
    pub admin: Address,
    pub oracle: Address,
    /// The id of the next position.
    pub next_position_id: u64,
    /// How many users receive `EarlyAdopter` at most.
    pub early_adopter_cap: u32,
    /// How many users have opened a position.
    pub total_users_first_open: u32,
}

/// The storage of the contract.
pub struct PortfolioStorage {
    /// The host in which the lists live.
    pub host: soroban_sdk::Env,
    /// The instance storage, once the contract is initialized.
    pub settings: Option<Settings>,
    /// The positions, by id.
    pub positions: Table<u64, Position>,
    /// The ids of the positions that each user opened, in order.
    pub opened: Table<Address, IdList>,
    /// The ids of the positions that each user closed, in order.
    pub closed: Table<Address, IdList>,
    /// The leaderboard ranks.
    pub ranks: Table<Address, u32>,
    /// The badges that each user earned, in order.
    pub badges: Table<Address, Vec<Badge>>,
}

/// The storage as maps.
#[verifier::ext_equal]
pub struct PortfolioState {
    pub settings: Option<Settings>,
    pub positions: Map<u64, Position>,
    pub opened: Map<Address, Seq<u64>>,
    pub closed: Map<Address, Seq<u64>>,
    pub ranks: Map<Address, u32>,
    pub badges: Map<Address, Seq<Badge>>,
}

impl View for PortfolioStorage {
    type V = PortfolioState;

    open spec fn view(&self) -> PortfolioState {
        PortfolioState {
            settings: self.settings,
            positions: self.positions@,
            opened: self.opened@.map_values(|list: IdList| list@),
            closed: self.closed@.map_values(|list: IdList| list@),
            ranks: self.ranks@,
            badges: self.badges@.map_values(|badges: Vec<Badge>| badges@),
        }
    }
}

/// What a map holds for `key`, or nothing.
pub open spec fn listed<K, T>(lists: Map<K, Seq<T>>, key: K) -> Seq<T> {
    match lists.get(key) {
        Some(list) => list,
        None => Seq::<T>::empty(),
    }
}

impl PortfolioState {
    /// The ids of the positions that `user` opened, in order.
    pub open spec fn opened_by(self, user: Address) -> Seq<u64> {
        listed(self.opened, user)
    }

    /// The ids of the positions that `user` closed, in order.
    pub open spec fn closed_by(self, user: Address) -> Seq<u64> {
        listed(self.closed, user)
    }

    /// The badges of `user`, in award order.
    pub open spec fn badges_of(self, user: Address) -> Seq<Badge> {
        listed(self.badges, user)
    }

    /// The state with `settings`.
    pub open spec fn with_settings(self, settings: Settings) -> PortfolioState {
        PortfolioState { settings: Some(settings), ..self }
    }

    /// The state with an open position `id` of `user`.
    pub open spec fn with_opened(
        self,
        user: Address,
        id: u64,
        entry_price: i128,
        amount: i128,
    ) -> PortfolioState {
        PortfolioState {
            positions: self.positions.insert(
                id,
                Position {
                    entry_price,
                    amount,
                    status: PositionStatus::Open,
                    realized_pnl: 0,
                    closed_at: 0,
                },
            ),
            opened: self.opened.insert(user, self.opened_by(user).push(id)),
            ..self
        }
    }

    /// The state with the next id used up for an open position of `user`.
    pub open spec fn with_booked(
        self,
        user: Address,
        entry_price: i128,
        amount: i128,
    ) -> PortfolioState {
        let settings = self.settings->0;
        let id = settings.next_position_id;
        self.with_settings(
            Settings { next_position_id: (id + 1) as u64, ..settings },
        ).with_opened(user, id, entry_price, amount)
    }

    /// The state with position `id` of `user` closed.
    pub open spec fn with_closed(
        self,
        user: Address,
        id: u64,
        realized_pnl: i128,
        now: u64,
    ) -> PortfolioState {
        PortfolioState {
            positions: self.positions.insert(
                id,
                Position {
                    status: PositionStatus::Closed,
                    realized_pnl,
                    closed_at: now,
                    ..self.positions[id]
                },
            ),
            closed: self.closed.insert(user, self.closed_by(user).push(id)),
            ..self
        }
    }
}

/// What `initialize` returns.
pub open spec fn initialize_result(state: PortfolioState) -> Result<(), PortfolioError> {
    match state.settings {
        Some(_) => Err(PortfolioError::AlreadyInitialized),
        None => Ok(()),
    }
}

/// The state that `initialize` leaves.
pub open spec fn initialize_state(
    state: PortfolioState,
    admin: Address,
    oracle: Address,
    early_adopter_cap: u32,
) -> PortfolioState {
    match initialize_result(state) {
        Ok(_) => state.with_settings(
            Settings {
                admin,
                oracle,
                next_position_id: 1,
                early_adopter_cap,
                total_users_first_open: 0,
            },
        ),
        Err(_) => state,
    }
}

/// What `initialize` asks of the host: that the admin-to-be agrees.
pub open spec fn initialize_calls(state: PortfolioState, admin: Address) -> Seq<HostCall> {
    match initialize_result(state) {
        Ok(_) => seq![HostCall::RequireAuth(admin)],
        Err(_) => Seq::<HostCall>::empty(),
    }
}

/// What `set_oracle` and `set_leaderboard_rank` return.
pub open spec fn admin_result(state: PortfolioState) -> Result<(), PortfolioError> {
    match state.settings {
        None => Err(PortfolioError::NotInitialized),
        Some(_) => Ok(()),
    }
}

/// What `set_oracle` and `set_leaderboard_rank` ask of the host: that the admin agrees.
pub open spec fn admin_calls(state: PortfolioState) -> Seq<HostCall> {
    match state.settings {
        None => Seq::<HostCall>::empty(),
        Some(settings) => seq![HostCall::RequireAuth(settings.admin)],
    }
}

/// The state that `set_oracle` leaves.
pub open spec fn oracle_state(state: PortfolioState, oracle: Address) -> PortfolioState {
    match state.settings {
        None => state,
        Some(settings) => state.with_settings(Settings { oracle, ..settings }),
    }
}

/// The state that `set_leaderboard_rank` leaves.
pub open spec fn rank_state(state: PortfolioState, user: Address, rank: u32) -> PortfolioState {
    match admin_result(state) {
        Ok(_) => PortfolioState { ranks: state.ranks.insert(user, rank), ..state },
        Err(_) => state,
    }
}

/// What `open_position` returns: the next id, or why there is none.
pub open spec fn open_result(
    state: PortfolioState,
    user: Address,
    entry_price: i128,
    amount: i128,
) -> Result<u64, PortfolioError> {
    if entry_price <= 0 || amount <= 0 {
        Err(PortfolioError::InvalidPosition)
    } else {
        match state.settings {
            None => Err(PortfolioError::NotInitialized),
            Some(settings) => if settings.next_position_id == u64::MAX {
                Err(PortfolioError::PositionIdOverflow)
            } else if state.opened_by(user).len() >= u32::MAX {
                Err(PortfolioError::ListFull)
            } else {
                Ok(settings.next_position_id)
            },
        }
    }
}

/// The state after `open_position` returned an id: the id is used up, the position is recorded and
/// listed, and its badges are awarded.
pub open spec fn open_state(
    state: PortfolioState,
    user: Address,
    entry_price: i128,
    amount: i128,
) -> PortfolioState {
    state.with_booked(user, entry_price, amount).after_open_position(
        user,
        state.opened_by(user).len() == 0,
    )
}

/// What `close_position` returns.
pub open spec fn close_result(
    state: PortfolioState,
    user: Address,
    position_id: u64,
) -> Result<(), PortfolioError> {
    if !state.opened_by(user).contains(position_id) {
        Err(PortfolioError::PositionNotFound)
    } else {
        match state.positions.get(position_id) {
            None => Err(PortfolioError::PositionMissing),
            Some(position) => if position.status != PositionStatus::Open {
                Err(PortfolioError::PositionNotOpen)
            } else if state.closed_by(user).len() >= u32::MAX {
                Err(PortfolioError::ListFull)
            } else {
                Ok(())
            },
        }
    }
}

/// The state after `close_position` went through: the position is closed and listed as such, and
/// its badges are awarded.
pub open spec fn close_state(
    state: PortfolioState,
    user: Address,
    position_id: u64,
    realized_pnl: i128,
    now: u64,
) -> PortfolioState {
    state.with_closed(user, position_id, realized_pnl, now).after_close_position(user, realized_pnl)
}

impl PortfolioStorage {
    /// Storage without entries, whose lists live in `host`.
    pub fn new(host: soroban_sdk::Env) -> (storage: PortfolioStorage)
        ensures
            storage.host == host,
            storage@ == (PortfolioState {
                settings: None,
                positions: Map::<u64, Position>::empty(),
                opened: Map::<Address, Seq<u64>>::empty(),
                closed: Map::<Address, Seq<u64>>::empty(),
                ranks: Map::<Address, u32>::empty(),
                badges: Map::<Address, Seq<Badge>>::empty(),
            }),
    {
        PortfolioStorage {
            host,
            settings: None,
            positions: Table::new(),
            opened: Table::new(),
            closed: Table::new(),
            ranks: Table::new(),
            badges: Table::new(),
        }
    }
}

impl UserPortfolio {
    /// One-time setup: admin, oracle, and max users who receive `EarlyAdopter`.
    pub fn initialize(
        env: &mut Invocation<PortfolioStorage>,
        admin: Address,
        oracle: Address,
        early_adopter_user_cap: u32,
    ) -> (result: Result<(), PortfolioError>)
        ensures
            crate::host::same_call(*final(env), *old(env)),
            final(env).storage.host == old(env).storage.host,
            result == initialize_result(old(env).storage@),
            final(env).storage@ == initialize_state(
                old(env).storage@,
                admin,
                oracle,
                early_adopter_user_cap,
            ),
            final(env).calls@ == old(env).calls@ + initialize_calls(old(env).storage@, admin),
    {
        if env.storage.settings.is_some() {
            return Err(PortfolioError::AlreadyInitialized);
        }
        env.ask(HostCall::RequireAuth(admin));
        env.storage.settings = Some(
            Settings {
                admin,
                oracle,
                next_position_id: 1,
                early_adopter_cap: early_adopter_user_cap,
                total_users_first_open: 0,
            },
        );
        Ok(())
    }

    /// Names another oracle. The admin must authorize it.
    pub fn set_oracle(env: &mut Invocation<PortfolioStorage>, oracle: Address) -> (result: Result<
        (),
        PortfolioError,
    >)
        ensures
            crate::host::same_call(*final(env), *old(env)),
            final(env).storage.host == old(env).storage.host,
            result == admin_result(old(env).storage@),
            final(env).storage@ == oracle_state(old(env).storage@, oracle),
            final(env).calls@ == old(env).calls@ + admin_calls(old(env).storage@),
    {
        match Self::require_admin(env) {
            Err(error) => Err(error),
            Ok(settings) => {
                env.storage.settings = Some(Settings { oracle, ..settings });
                Ok(())
            },
        }
    }

    /// Backend / admin sets current leaderboard rank (1 = best). Checked on open/close for
    /// `Top10Leaderboard`.
    pub fn set_leaderboard_rank(
        env: &mut Invocation<PortfolioStorage>,
        user: Address,
        rank: u32,
    ) -> (result: Result<(), PortfolioError>)
        ensures
            crate::host::same_call(*final(env), *old(env)),
            final(env).storage.host == old(env).storage.host,
            result == admin_result(old(env).storage@),
            final(env).storage@ == rank_state(old(env).storage@, user, rank),
            final(env).calls@ == old(env).calls@ + admin_calls(old(env).storage@),
    {
        match Self::require_admin(env) {
            Err(error) => Err(error),
            Ok(_) => {
                env.storage.ranks.set(user, rank);
                Ok(())
            },
        }
    }

    /// Opens a position for `user`, who must authorize it. `amount` is invested notional at entry.
    pub fn open_position(
        env: &mut Invocation<PortfolioStorage>,
        user: Address,
        entry_price: i128,
        amount: i128,
    ) -> (result: Result<u64, PortfolioError>)
        ensures
            crate::host::same_call(*final(env), *old(env)),
            final(env).storage.host == old(env).storage.host,
            result == open_result(old(env).storage@, user, entry_price, amount),
            final(env).storage@ == (match result {
                Ok(_) => open_state(old(env).storage@, user, entry_price, amount),
                Err(_) => old(env).storage@,
            }),
            final(env).calls@ == old(env).calls@.push(HostCall::RequireAuth(user)),
    {
        env.ask(HostCall::RequireAuth(user));
        if entry_price <= 0 || amount <= 0 {
            return Err(PortfolioError::InvalidPosition);
        }
        let settings: Settings = match env.storage.settings {
            None => return Err(PortfolioError::NotInitialized),
            Some(settings) => settings,
        };
        let id: u64 = settings.next_position_id;
        let next: u64 = match id.checked_add(1) {
            None => return Err(PortfolioError::PositionIdOverflow),
            Some(next) => next,
        };
        let ghost state = env.storage@;
        let list: IdList = match env.storage.opened.get(user) {
            None => IdList::new(&env.storage.host).with(id),
            Some(list) => {
                if list.len() == u32::MAX {
                    return Err(PortfolioError::ListFull);
                }
                list.with(id)
            },
        };
        let is_first_ever_open: bool = list.len() == 1;

        env.storage.settings = Some(Settings { next_position_id: next, ..settings });
        env.storage.positions.set(
            id,
            Position {
                entry_price,
                amount,
                status: PositionStatus::Open,
                realized_pnl: 0,
                closed_at: 0,
            },
        );
        env.storage.opened.set(user, list);
        assert(env.storage@ =~= state.with_booked(user, entry_price, amount));

        badges::after_open_position(&mut env.storage, user, is_first_ever_open);
        Ok(id)
    }

    /// Closes an open position and records realized P&L for that leg. `user` must authorize it.
    pub fn close_position(
        env: &mut Invocation<PortfolioStorage>,
        user: Address,
        position_id: u64,
        realized_pnl: i128,
    ) -> (result: Result<(), PortfolioError>)
        ensures
            crate::host::same_call(*final(env), *old(env)),
            final(env).storage.host == old(env).storage.host,
            result == close_result(old(env).storage@, user, position_id),
            final(env).storage@ == (match result {
                Ok(_) => close_state(
                    old(env).storage@,
                    user,
                    position_id,
                    realized_pnl,
                    old(env).timestamp,
                ),
                Err(_) => old(env).storage@,
            }),
            final(env).calls@ == old(env).calls@.push(HostCall::RequireAuth(user)),
    {
        env.ask(HostCall::RequireAuth(user));
        let ghost state = env.storage@;
        let found: bool = match env.storage.opened.get(user) {
            None => false,
            Some(list) => list.contains(position_id),
        };
        if !found {
            return Err(PortfolioError::PositionNotFound);
        }
        let position: Position = match env.storage.positions.get(position_id) {
            None => return Err(PortfolioError::PositionMissing),
            Some(position) => *position,
        };
        if position.status != PositionStatus::Open {
            return Err(PortfolioError::PositionNotOpen);
        }
        let list: IdList = match env.storage.closed.get(user) {
            None => IdList::new(&env.storage.host).with(position_id),
            Some(list) => {
                if list.len() == u32::MAX {
                    return Err(PortfolioError::ListFull);
                }
                list.with(position_id)
            },
        };

        let now: u64 = env.timestamp;
        env.storage.positions.set(
            position_id,
            Position {
                status: PositionStatus::Closed,
                realized_pnl,
                closed_at: now,
                ..position
            },
        );
        env.storage.closed.set(user, list);
        assert(env.storage@ =~= state.with_closed(user, position_id, realized_pnl, now));

        badges::after_close_position(&mut env.storage, user, realized_pnl);
        Ok(())
    }

    /// All badges earned by `user`, in award order.
    pub fn get_badges(env: &Invocation<PortfolioStorage>, user: Address) -> (badges: Vec<Badge>)
        ensures
            badges@ == env.storage@.badges_of(user),
    {
        badges::get_badges(&env.storage, user)
    }

    /// Who is asked for the current price.
    pub fn price_source(env: &Invocation<PortfolioStorage>) -> (oracle: Option<Address>)
        ensures
            oracle == (match env.storage@.settings {
                Some(settings) => Some(settings.oracle),
                None => None,
            }),
    {
        match env.storage.settings {
            Some(settings) => Some(settings.oracle),
            None => None,
        }
    }

    /// Portfolio P&L including open positions when oracle price is available: `price` is the reply
    /// of the price source, or `None` if it failed.
    pub fn get_pnl(
        env: &Invocation<PortfolioStorage>,
        user: Address,
        price: Option<i128>,
    ) -> (result: Result<PnlSummary, PortfolioError>)
        ensures
            result == queries::pnl_result(env.storage@, user, price),
    {
        queries::compute_get_pnl(&env.storage, user, price)
    }

    /// Paginated closed trades, newest first. `cursor` is `trade_id` of the last item from the
    /// prior page; `limit` at most 50.
    pub fn get_trade_history(
        env: &Invocation<PortfolioStorage>,
        user: Address,
        cursor: Option<u64>,
        limit: u32,
    ) -> (result: Result<Vec<TradeHistoryEntry>, PortfolioError>)
        ensures
            ({
                let ids = queries::page_ids(env.storage@.closed_by(user), cursor, limit);
                match result {
                    Ok(page) => env.storage@.has_records(ids) && page@ == env.storage@.trades(ids),
                    Err(error) => !env.storage@.has_records(ids) && error
                        == PortfolioError::PositionMissing,
                }
            }),
    {
        queries::get_trade_history(&env.storage, user, cursor, limit)
    }

    /// Asks for the authorization of the admin. Returns the settings.
    fn require_admin(env: &mut Invocation<PortfolioStorage>) -> (result: Result<
        Settings,
        PortfolioError,
    >)
        ensures
            crate::host::same_call(*final(env), *old(env)),
            final(env).storage == old(env).storage,
            match old(env).storage.settings {
                None => {
                    &&& result == Err::<Settings, PortfolioError>(PortfolioError::NotInitialized)
                    &&& final(env).calls@ == old(env).calls@
                },
                Some(settings) => {
                    &&& result == Ok::<Settings, PortfolioError>(settings)
                    &&& final(env).calls@ == old(env).calls@.push(
                        HostCall::RequireAuth(settings.admin),
                    )
                },
            },
    {
        match env.storage.settings {
            None => Err(PortfolioError::NotInitialized),
            Some(settings) => {
                env.ask(HostCall::RequireAuth(settings.admin));
                Ok(settings)
            },
        }
    }
}

} // verus!
