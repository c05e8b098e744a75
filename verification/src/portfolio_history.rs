//! What holds of the user portfolio over any calls.

use vstd::prelude::*;

use crate::address::Address;
use crate::badges::BadgeType;
use crate::host;
use crate::host::HostCall;
use crate::portfolio_laws;
use crate::user_portfolio;
use crate::user_portfolio::{PortfolioError, PortfolioState, Position, Settings};

verus! {

/// What the contract is called for.
pub enum PortfolioRequest {
    Initialize { admin: Address, oracle: Address, early_adopter_user_cap: u32 },
    SetOracle { oracle: Address },
    SetLeaderboardRank { user: Address, rank: u32 },
    OpenPosition { user: Address, entry_price: i128, amount: i128 },
    ClosePosition { user: Address, position_id: u64, realized_pnl: i128 },
}

/// A call of the contract: what for, when, and what its host grants in it.
pub struct PortfolioCall {
    pub request: PortfolioRequest,
    pub now: u64,
    pub granted: Set<HostCall>,
}

/// The state that the contract leaves.
pub open spec fn left_by(state: PortfolioState, request: PortfolioRequest, now: u64) -> PortfolioState {
    match request {
        PortfolioRequest::Initialize { admin, oracle, early_adopter_user_cap } =>
            user_portfolio::initialize_state(state, admin, oracle, early_adopter_user_cap),
        PortfolioRequest::SetOracle { oracle } => user_portfolio::oracle_state(state, oracle),
        PortfolioRequest::SetLeaderboardRank { user, rank } => user_portfolio::rank_state(
            state,
            user,
            rank,
        ),
        PortfolioRequest::OpenPosition { user, entry_price, amount } =>
            match user_portfolio::open_result(state, user, entry_price, amount) {
                Ok(_) => user_portfolio::open_state(state, user, entry_price, amount),
                Err(_) => state,
            },
        PortfolioRequest::ClosePosition { user, position_id, realized_pnl } =>
            match user_portfolio::close_result(state, user, position_id) {
                Ok(_) => user_portfolio::close_state(state, user, position_id, realized_pnl, now),
                Err(_) => state,
            },
    }
}

/// What the contract asks of its host.
pub open spec fn asked_by(state: PortfolioState, request: PortfolioRequest) -> Seq<HostCall> {
    match request {
        PortfolioRequest::Initialize { admin, .. } => user_portfolio::initialize_calls(
            state,
            admin,
        ),
        PortfolioRequest::SetOracle { .. } => user_portfolio::admin_calls(state),
        PortfolioRequest::SetLeaderboardRank { .. } => user_portfolio::admin_calls(state),
        PortfolioRequest::OpenPosition { user, .. } => seq![HostCall::RequireAuth(user)],
        PortfolioRequest::ClosePosition { user, .. } => seq![HostCall::RequireAuth(user)],
    }
}

/// The state after a call, whether or not it goes through.
pub open spec fn after_call(state: PortfolioState, call: PortfolioCall) -> PortfolioState {
    host::outcome(
        state,
        left_by(state, call.request, call.now),
        asked_by(state, call.request),
        call.granted,
    )
}

/// The state after some calls.
pub open spec fn after_calls(state: PortfolioState, calls: Seq<PortfolioCall>) -> PortfolioState
    decreases calls.len(),
{
    if calls.len() == 0 {
        state
    } else {
        after_call(after_calls(state, calls.drop_last()), calls.last())
    }
}

// Authorization.

/// Without the authorization of the admin-to-be, nothing is set up.
pub proof fn law_initialize_needs_admin(
    state: PortfolioState,
    admin: Address,
    oracle: Address,
    cap: u32,
    granted: Set<HostCall>,
)
    requires
        !granted.contains(HostCall::RequireAuth(admin)),
    ensures
        host::outcome(
            state,
            user_portfolio::initialize_state(state, admin, oracle, cap),
            user_portfolio::initialize_calls(state, admin),
            granted,
        ) == state,
{
    if state.settings is None {
        assert(user_portfolio::initialize_calls(state, admin)[0] == HostCall::RequireAuth(admin));
    }
}

/// Without the admin's authorization, `set_oracle` changes nothing.
pub proof fn law_set_oracle_needs_admin(
    state: PortfolioState,
    oracle: Address,
    granted: Set<HostCall>,
)
    requires
        state.settings matches Some(settings) ==> !granted.contains(
            HostCall::RequireAuth(settings.admin),
        ),
    ensures
        host::outcome(
            state,
            user_portfolio::oracle_state(state, oracle),
            user_portfolio::admin_calls(state),
            granted,
        ) == state,
{
    if let Some(settings) = state.settings {
        assert(user_portfolio::admin_calls(state)[0] == HostCall::RequireAuth(settings.admin));
    }
}

/// Without the admin's authorization, `set_leaderboard_rank` changes nothing.
pub proof fn law_set_leaderboard_rank_needs_admin(
    state: PortfolioState,
    user: Address,
    rank: u32,
    granted: Set<HostCall>,
)
    requires
        state.settings matches Some(settings) ==> !granted.contains(
            HostCall::RequireAuth(settings.admin),
        ),
    ensures
        host::outcome(
            state,
            user_portfolio::rank_state(state, user, rank),
            user_portfolio::admin_calls(state),
            granted,
        ) == state,
{
    if let Some(settings) = state.settings {
        assert(user_portfolio::admin_calls(state)[0] == HostCall::RequireAuth(settings.admin));
    }
}

/// Without the user's authorization no position is opened.
pub proof fn law_open_needs_user(
    state: PortfolioState,
    user: Address,
    entry_price: i128,
    amount: i128,
    now: u64,
    granted: Set<HostCall>,
)
    requires
        !granted.contains(HostCall::RequireAuth(user)),
    ensures
        ({
            let request = PortfolioRequest::OpenPosition { user, entry_price, amount };
            after_call(state, PortfolioCall { request, now, granted }) == state
        }),
{
    let request = PortfolioRequest::OpenPosition { user, entry_price, amount };
    assert(asked_by(state, request)[0] == HostCall::RequireAuth(user));
}

/// Without the user's authorization no position is closed.
pub proof fn law_close_needs_user(
    state: PortfolioState,
    user: Address,
    position_id: u64,
    realized_pnl: i128,
    now: u64,
    granted: Set<HostCall>,
)
    requires
        !granted.contains(HostCall::RequireAuth(user)),
    ensures
        ({
            let request = PortfolioRequest::ClosePosition { user, position_id, realized_pnl };
            after_call(state, PortfolioCall { request, now, granted }) == state
        }),
{
    let request = PortfolioRequest::ClosePosition { user, position_id, realized_pnl };
    assert(asked_by(state, request)[0] == HostCall::RequireAuth(user));
}

// Histories.

/// Calls, whether or not they go through, lead from a valid state to a valid one.
pub proof fn law_calls_keep_valid(state: PortfolioState, calls: Seq<PortfolioCall>)
    requires
        portfolio_laws::valid(state),
    ensures
        portfolio_laws::valid(after_calls(state, calls)),
    decreases calls.len(),
{
    if calls.len() > 0 {
        let before = after_calls(state, calls.drop_last());
        let call = calls.last();
        law_calls_keep_valid(state, calls.drop_last());
        match call.request {
            PortfolioRequest::Initialize { admin, oracle, early_adopter_user_cap } => {
                portfolio_laws::law_initialize_keeps_valid(
                    before,
                    admin,
                    oracle,
                    early_adopter_user_cap,
                );
            },
            PortfolioRequest::SetOracle { oracle } => {
                portfolio_laws::law_admin_calls_keep_valid(before, oracle, oracle, 0);
            },
            PortfolioRequest::SetLeaderboardRank { user, rank } => {
                portfolio_laws::law_admin_calls_keep_valid(before, user, user, rank);
            },
            PortfolioRequest::OpenPosition { user, entry_price, amount } => {
                if user_portfolio::open_result(before, user, entry_price, amount) is Ok {
                    portfolio_laws::law_open_keeps_valid(before, user, entry_price, amount);
                }
            },
            PortfolioRequest::ClosePosition { user, position_id, realized_pnl } => {
                if user_portfolio::close_result(before, user, position_id) is Ok {
                    portfolio_laws::law_close_keeps_valid(
                        before,
                        user,
                        position_id,
                        realized_pnl,
                        call.now,
                    );
                }
            },
        }
    }
}

/// What an opened position leaves alone and what it adds.
proof fn lemma_open(state: PortfolioState, user: Address, entry_price: i128, amount: i128)
    requires
        user_portfolio::open_result(state, user, entry_price, amount) is Ok,
    ensures
        ({
            let after = user_portfolio::open_state(state, user, entry_price, amount);
            let settings = state.settings->0;
            let id = settings.next_position_id;
            &&& after.closed == state.closed
            &&& after.positions.remove(id) == state.positions.remove(id)
            &&& after.settings == Some(
                Settings {
                    next_position_id: (id + 1) as u64,
                    total_users_first_open: after.settings->0.total_users_first_open,
                    ..settings
                },
            )
            &&& forall|other: Address|
                state.badges_of(other).is_prefix_of(#[trigger] after.badges_of(other))
        }),
{
    let id = state.settings->0.next_position_id;
    let booked = state.with_booked(user, entry_price, amount);
    let after = user_portfolio::open_state(state, user, entry_price, amount);
    portfolio_laws::lemma_badges_leave_book(booked, user, state.opened_by(user).len() == 0);
    assert(after.positions.remove(id) =~= state.positions.remove(id));
    assert forall|other: Address|
        state.badges_of(other).is_prefix_of(#[trigger] after.badges_of(other)) by {
        assert(booked.badges_of(other) == state.badges_of(other));
        if other != user {
            assert(after.badges_of(other) == booked.badges_of(other));
        }
    }
}

/// What a closed position leaves alone and what it adds.
proof fn lemma_close(
    state: PortfolioState,
    user: Address,
    id: u64,
    realized_pnl: i128,
    now: u64,
)
    requires
        user_portfolio::close_result(state, user, id) is Ok,
    ensures
        ({
            let after = user_portfolio::close_state(state, user, id, realized_pnl, now);
            &&& after.settings == state.settings
            &&& after.positions.remove(id) == state.positions.remove(id)
            &&& after.positions.contains_key(id)
            &&& after.positions[id].closed_at == now
            &&& after.closed_by(user) == state.closed_by(user).push(id)
            &&& forall|other: Address|
                other != user ==> #[trigger] after.closed_by(other) == state.closed_by(other)
            &&& forall|other: Address|
                state.badges_of(other).is_prefix_of(#[trigger] after.badges_of(other))
        }),
{
    let booked = state.with_closed(user, id, realized_pnl, now);
    let after = user_portfolio::close_state(state, user, id, realized_pnl, now);
    portfolio_laws::lemma_with_badge(booked, user, BadgeType::Top10Leaderboard);
    assert(after.positions.remove(id) =~= state.positions.remove(id));
    assert forall|other: Address|
        state.badges_of(other).is_prefix_of(#[trigger] after.badges_of(other)) by {
        assert(booked.badges_of(other) == state.badges_of(other));
        if other != user {
            assert(booked.with_badge(user, BadgeType::Top10Leaderboard).badges_of(other)
                == booked.badges_of(other));
        }
    }
}

/// The id that a call returns, if it opens a position.
pub open spec fn id_returned(state: PortfolioState, call: PortfolioCall) -> Option<u64> {
    match call.request {
        PortfolioRequest::OpenPosition { user, entry_price, amount } => if host::all_granted(
            asked_by(state, call.request),
            call.granted,
        ) {
            match user_portfolio::open_result(state, user, entry_price, amount) {
                Ok(id) => Some(id),
                Err(_) => None,
            }
        } else {
            None
        },
        _ => None,
    }
}

/// The ids that some calls return, in order.
pub open spec fn ids_returned(state: PortfolioState, calls: Seq<PortfolioCall>) -> Seq<u64>
    decreases calls.len(),
{
    if calls.len() == 0 {
        Seq::<u64>::empty()
    } else {
        let before = ids_returned(state, calls.drop_last());
        match id_returned(after_calls(state, calls.drop_last()), calls.last()) {
            Some(id) => before.push(id),
            None => before,
        }
    }
}

/// The id of the next position: 1 until there are settings.
pub open spec fn next_id(state: PortfolioState) -> int {
    match state.settings {
        None => 1,
        Some(settings) => settings.next_position_id as int,
    }
}

/// Ids count up without a gap, whatever is called in between: the positions opened from a state on
/// get its next id, then the one after it, and so on. In a contract that is not set up yet the
/// k-th position to be opened gets the id k.
pub proof fn law_ids_count_up(state: PortfolioState, calls: Seq<PortfolioCall>)
    ensures
        ({
            let ids = ids_returned(state, calls);
            &&& forall|k: int| 0 <= k < ids.len() ==> (#[trigger] ids[k]) == next_id(state) + k
            &&& state.settings is None ==> forall|k: int|
                0 <= k < ids.len() ==> (#[trigger] ids[k]) == k + 1
            &&& next_id(after_calls(state, calls)) == next_id(state) + ids.len()
        }),
    decreases calls.len(),
{
    if calls.len() > 0 {
        let before = after_calls(state, calls.drop_last());
        let call = calls.last();
        law_ids_count_up(state, calls.drop_last());
        match call.request {
            PortfolioRequest::OpenPosition { user, entry_price, amount } => {
                if user_portfolio::open_result(before, user, entry_price, amount) is Ok {
                    lemma_open(before, user, entry_price, amount);
                }
            },
            PortfolioRequest::ClosePosition { user, position_id, realized_pnl } => {
                if user_portfolio::close_result(before, user, position_id) is Ok {
                    lemma_close(before, user, position_id, realized_pnl, call.now);
                }
            },
            _ => {},
        }
    }
}

/// The record of a closed position never changes again.
pub proof fn law_closed_record_stays(state: PortfolioState, calls: Seq<PortfolioCall>, id: u64)
    requires
        portfolio_laws::valid(state),
        state.positions.contains_key(id),
        state.positions[id].status is Closed,
    ensures
        after_calls(state, calls).positions.contains_key(id),
        after_calls(state, calls).positions[id] == state.positions[id],
    decreases calls.len(),
{
    if calls.len() > 0 {
        let before = after_calls(state, calls.drop_last());
        let call = calls.last();
        law_closed_record_stays(state, calls.drop_last(), id);
        law_calls_keep_valid(state, calls.drop_last());
        lemma_step_keeps_closed(before, call, id);
    }
}

/// A call leaves the record of a closed position alone.
proof fn lemma_step_keeps_closed(state: PortfolioState, call: PortfolioCall, id: u64)
    requires
        portfolio_laws::valid(state),
        state.positions.contains_key(id),
        state.positions[id].status is Closed,
    ensures
        after_call(state, call).positions.contains_key(id),
        after_call(state, call).positions[id] == state.positions[id],
{
    match call.request {
        PortfolioRequest::OpenPosition { user, entry_price, amount } => {
            if user_portfolio::open_result(state, user, entry_price, amount) is Ok {
                lemma_open(state, user, entry_price, amount);
                let next = state.settings->0.next_position_id;
                let left = user_portfolio::open_state(state, user, entry_price, amount);
                assert(state.positions.remove(next).contains_key(id));
                assert(left.positions.remove(next)[id] == state.positions.remove(next)[id]);
            }
        },
        PortfolioRequest::ClosePosition { user, position_id, realized_pnl } => {
            if user_portfolio::close_result(state, user, position_id) is Ok {
                lemma_close(state, user, position_id, realized_pnl, call.now);
                let left = user_portfolio::close_state(
                    state,
                    user,
                    position_id,
                    realized_pnl,
                    call.now,
                );
                assert(state.positions.remove(position_id).contains_key(id));
                assert(left.positions.remove(position_id)[id] == state.positions.remove(
                    position_id,
                )[id]);
            }
        },
        _ => {},
    }
}

/// What a close wrote, every later page tells: after any calls, the entry of the trade, wherever it
/// stands in a page, has the price and amount that the position was opened with, the profit that it
/// was closed with and the time of that.
pub proof fn law_pages_tell_what_was_closed(
    state: PortfolioState,
    user: Address,
    id: u64,
    realized_pnl: i128,
    now: u64,
    calls: Seq<PortfolioCall>,
    ids: Seq<u64>,
    i: int,
)
    requires
        portfolio_laws::valid(state),
        user_portfolio::close_result(state, user, id) is Ok,
        0 <= i < ids.len(),
        ids[i] == id,
    ensures
        ({
            let closed = user_portfolio::close_state(state, user, id, realized_pnl, now);
            let page = after_calls(closed, calls).trades(ids);
            &&& page.len() == ids.len()
            &&& page[i].trade_id == id
            &&& page[i].entry_price == state.positions[id].entry_price
            &&& page[i].amount == state.positions[id].amount
            &&& page[i].realized_pnl == realized_pnl
            &&& page[i].closed_at == now
        }),
{
    let closed = user_portfolio::close_state(state, user, id, realized_pnl, now);
    portfolio_laws::law_close_keeps_valid(state, user, id, realized_pnl, now);
    portfolio_laws::law_close_records_profit(state, user, id, realized_pnl, now);
    law_closed_record_stays(closed, calls, id);
}

/// A position that was opened stays among the user's, after any calls, and can be closed until it is
/// closed.
pub proof fn law_position_stays_closable(
    state: PortfolioState,
    calls: Seq<PortfolioCall>,
    user: Address,
    id: u64,
)
    requires
        portfolio_laws::valid(state),
        state.opened.contains_key(user),
        state.opened[user].len() <= u32::MAX,
        state.opened[user].contains(id),
    ensures
        ({
            let after = after_calls(state, calls);
            &&& after.opened.contains_key(user)
            &&& after.opened[user].contains(id)
            &&& after.positions.contains_key(id)
            &&& after.positions[id].status is Open ==> user_portfolio::close_result(after, user, id)
                == Ok::<(), PortfolioError>(())
            &&& after.positions[id].status is Closed ==> user_portfolio::close_result(
                after,
                user,
                id,
            ) == Err::<(), PortfolioError>(PortfolioError::PositionNotOpen)
        }),
{
    let after = after_calls(state, calls);
    law_calls_keep_valid(state, calls);
    lemma_opened_ids_stay(state, calls, user);
    let i = choose|i: int| 0 <= i < state.opened[user].len() && state.opened[user][i] == id;
    assert(after.opened[user][i] == id);
    assert(user_portfolio::listed(after.opened, user).contains(id));
    if after.positions[id].status is Open {
        portfolio_laws::law_open_positions_can_be_closed(after, user, id);
    }
}

/// The ids that a user opened stay, in their order, and fit the host.
proof fn lemma_opened_ids_stay(
    state: PortfolioState,
    calls: Seq<PortfolioCall>,
    user: Address,
)
    requires
        state.opened.contains_key(user),
        state.opened[user].len() <= u32::MAX,
    ensures
        ({
            let after = after_calls(state, calls);
            &&& after.opened.contains_key(user)
            &&& after.opened[user].len() <= u32::MAX
            &&& state.opened[user].len() <= after.opened[user].len()
            &&& forall|i: int|
                0 <= i < state.opened[user].len() ==> (#[trigger] after.opened[user][i])
                    == state.opened[user][i]
        }),
    decreases calls.len(),
{
    if calls.len() > 0 {
        let before = after_calls(state, calls.drop_last());
        let call = calls.last();
        lemma_opened_ids_stay(state, calls.drop_last(), user);
        match call.request {
            PortfolioRequest::OpenPosition { user: opener, entry_price, amount } => {
                if user_portfolio::open_result(before, opener, entry_price, amount) is Ok {
                    portfolio_laws::law_open_records_position(
                        before,
                        opener,
                        entry_price,
                        amount,
                        before.settings->0.next_position_id,
                    );
                }
            },
            PortfolioRequest::ClosePosition { user: closer, position_id, realized_pnl } => {
                if user_portfolio::close_result(before, closer, position_id) is Ok {
                    portfolio_laws::law_close_records_profit(
                        before,
                        closer,
                        position_id,
                        realized_pnl,
                        call.now,
                    );
                }
            },
            _ => {},
        }
    }
}

/// A user's badges only grow, and at the end: after any calls, those of before stand first, in
/// their order.
pub proof fn law_badges_only_grow(
    state: PortfolioState,
    calls: Seq<PortfolioCall>,
    user: Address,
)
    ensures
        state.badges_of(user).is_prefix_of(after_calls(state, calls).badges_of(user)),
    decreases calls.len(),
{
    if calls.len() > 0 {
        let before = after_calls(state, calls.drop_last());
        let call = calls.last();
        law_badges_only_grow(state, calls.drop_last(), user);
        match call.request {
            PortfolioRequest::OpenPosition { user: opener, entry_price, amount } => {
                if user_portfolio::open_result(before, opener, entry_price, amount) is Ok {
                    lemma_open(before, opener, entry_price, amount);
                }
            },
            PortfolioRequest::ClosePosition { user: closer, position_id, realized_pnl } => {
                if user_portfolio::close_result(before, closer, position_id) is Ok {
                    lemma_close(before, closer, position_id, realized_pnl, call.now);
                }
            },
            _ => {},
        }
        let middle = before.badges_of(user);
        let after = after_call(before, call).badges_of(user);
        assert(middle.is_prefix_of(after));
        assert forall|i: int| 0 <= i < state.badges_of(user).len() implies state.badges_of(user)[i]
            == after[i] by {
            assert(state.badges_of(user)[i] == middle[i]);
            assert(middle[i] == after[i]);
        }
    }
}

/// Once there are settings, no calls change the admin or the cap on early adopters, and the count
/// of users who opened a position does not fall.
pub proof fn law_settings_stay(
    state: PortfolioState,
    calls: Seq<PortfolioCall>,
    settings: Settings,
)
    requires
        state.settings == Some(settings),
    ensures
        after_calls(state, calls).settings matches Some(later) && later.admin == settings.admin
            && later.early_adopter_cap == settings.early_adopter_cap
            && later.total_users_first_open >= settings.total_users_first_open,
    decreases calls.len(),
{
    if calls.len() > 0 {
        let before = after_calls(state, calls.drop_last());
        let call = calls.last();
        law_settings_stay(state, calls.drop_last(), settings);
        match call.request {
            PortfolioRequest::OpenPosition { user, entry_price, amount } => {
                if user_portfolio::open_result(before, user, entry_price, amount) is Ok {
                    lemma_open(before, user, entry_price, amount);
                }
            },
            PortfolioRequest::ClosePosition { user, position_id, realized_pnl } => {
                if user_portfolio::close_result(before, user, position_id) is Ok {
                    lemma_close(before, user, position_id, realized_pnl, call.now);
                }
            },
            _ => {},
        }
    }
}

// Close times.

/// Whether the close times do not fall along a list of closed ids, and none is later than `now`.
pub open spec fn times_ascend(
    positions: Map<u64, Position>,
    ids: Seq<u64>,
    now: u64,
) -> bool {
    &&& forall|i: int, j: int|
        0 <= i < j < ids.len() ==> positions[#[trigger] ids[i]].closed_at
            <= positions[#[trigger] ids[j]].closed_at
    &&& forall|i: int| 0 <= i < ids.len() ==> positions[#[trigger] ids[i]].closed_at <= now
}

/// Whether the close times do not fall along any user's closed positions, and none is later than
/// `now`.
pub open spec fn close_times_ascend(state: PortfolioState, now: u64) -> bool {
    forall|user: Address| times_ascend(state.positions, #[trigger] state.closed_by(user), now)
}

/// Where nothing is closed, the close times do not fall.
pub proof fn law_close_times_begin(state: PortfolioState, now: u64)
    requires
        state.closed == Map::<Address, Seq<u64>>::empty(),
    ensures
        close_times_ascend(state, now),
{
}

/// A call keeps the close times from falling, if it is not made before the last of them.
pub proof fn law_call_keeps_close_times(state: PortfolioState, call: PortfolioCall, now: u64)
    requires
        portfolio_laws::valid(state),
        close_times_ascend(state, now),
        now <= call.now,
    ensures
        close_times_ascend(after_call(state, call), call.now),
{
    let after = after_call(state, call);
    assert forall|other: Address| times_ascend(
        after.positions,
        #[trigger] after.closed_by(other),
        call.now,
    ) by {
        let ids = state.closed_by(other);
        assert(times_ascend(state.positions, ids, now));
        assert forall|i: int| 0 <= i < ids.len() implies after.positions[#[trigger] ids[i]]
            == state.positions[ids[i]] by {
            assert(user_portfolio::listed(state.closed, other).contains(ids[i]));
            assert(user_portfolio::listed(state.opened, other).contains(ids[i]));
            lemma_step_keeps_closed(state, call, ids[i]);
        }
        match call.request {
            PortfolioRequest::OpenPosition { user, entry_price, amount } => {
                if user_portfolio::open_result(state, user, entry_price, amount) is Ok {
                    lemma_open(state, user, entry_price, amount);
                }
            },
            PortfolioRequest::ClosePosition { user, position_id, realized_pnl } => {
                if user_portfolio::close_result(state, user, position_id) is Ok {
                    lemma_close(state, user, position_id, realized_pnl, call.now);
                    let left = left_by(state, call.request, call.now);
                    if other != user {
                        assert(left.closed_by(other) == ids);
                    }
                }
            },
            _ => {},
        }
        let later = after.closed_by(other);
        assert(forall|i: int| 0 <= i < ids.len() ==> ids[i] == #[trigger] later[i]);
    }
}

/// While ledger time does not fall, neither do the close times along a user's closed positions.
pub proof fn law_close_times_ascend(
    state: PortfolioState,
    calls: Seq<PortfolioCall>,
    now: u64,
)
    requires
        portfolio_laws::valid(state),
        close_times_ascend(state, now),
        forall|i: int| 0 <= i < calls.len() ==> now <= (#[trigger] calls[i]).now,
        forall|i: int, j: int|
            0 <= i < j < calls.len() ==> (#[trigger] calls[i]).now <= (#[trigger] calls[j]).now,
    ensures
        close_times_ascend(
            after_calls(state, calls),
            if calls.len() == 0 {
                now
            } else {
                calls.last().now
            },
        ),
    decreases calls.len(),
{
    if calls.len() > 0 {
        let earlier = calls.drop_last();
        law_close_times_ascend(state, earlier, now);
        law_calls_keep_valid(state, earlier);
        law_call_keeps_close_times(
            after_calls(state, earlier),
            calls.last(),
            if earlier.len() == 0 {
                now
            } else {
                earlier.last().now
            },
        );
    }
}

} // verus!
