//! What holds of the user portfolio as a whole.

use vstd::prelude::*;

use crate::address::Address;
use crate::badges;
use crate::badges::{Badge, BadgeType};
use crate::host::HostCall;
use crate::queries;
use crate::user_portfolio;
use crate::user_portfolio::{
    PortfolioError, PortfolioState, PortfolioStorage, Position, PositionStatus, Settings,
};

verus! {

// The states that the contract can be in.

/// Whether a record is one that the contract writes.
pub open spec fn record_valid(position: Position) -> bool {
    &&& position.entry_price > 0
    &&& position.amount > 0
    &&& position.status is Open ==> position.realized_pnl == 0 && position.closed_at == 0
}

/// Whether records and lists belong together: exactly one user has opened each recorded position;
/// each user's ids are in the order in which they were given out; and the closed ids of a user are
/// those of the user's closed positions, each once.
pub open spec fn lists_valid(
    positions: Map<u64, Position>,
    opened: Map<Address, Seq<u64>>,
    closed: Map<Address, Seq<u64>>,
) -> bool {
    &&& forall|id: u64| #[trigger]
        positions.contains_key(id) ==> exists|user: Address| #[trigger]
            user_portfolio::listed(opened, user).contains(id)
    &&& forall|user: Address, id: u64| #[trigger]
        user_portfolio::listed(opened, user).contains(id) ==> positions.contains_key(id)
    &&& forall|user: Address, other: Address, id: u64|
        #![trigger user_portfolio::listed(opened, user).contains(id), user_portfolio::listed(opened, other).contains(id)]
        user_portfolio::listed(opened, user).contains(id) && user_portfolio::listed(
            opened,
            other,
        ).contains(id) ==> user == other
    &&& forall|user: Address, i: int, j: int|
        0 <= i < j < user_portfolio::listed(opened, user).len() ==> (
        #[trigger] user_portfolio::listed(opened, user)[i]) < (
        #[trigger] user_portfolio::listed(opened, user)[j])
    &&& forall|user: Address| (#[trigger] user_portfolio::listed(closed, user)).no_duplicates()
    &&& forall|user: Address, id: u64| #[trigger]
        user_portfolio::listed(closed, user).contains(id) <==> user_portfolio::listed(
            opened,
            user,
        ).contains(id) && positions[id].status is Closed
}

/// Whether every record is one that the contract writes, under an id that was given out.
pub open spec fn records_valid(positions: Map<u64, Position>, settings: Option<Settings>) -> bool {
    &&& forall|id: u64| #[trigger]
        positions.contains_key(id) ==> record_valid(positions[id]) && settings is Some && 1 <= id
            < settings->0.next_position_id
    &&& settings is Some ==> settings->0.next_position_id >= 1
}

/// Whether the records and lists of a state are in order.
pub open spec fn book_valid(state: PortfolioState) -> bool {
    &&& records_valid(state.positions, state.settings)
    &&& lists_valid(state.positions, state.opened, state.closed)
}

/// The users with an `EarlyAdopter` badge.
pub open spec fn early_adopters(state: PortfolioState) -> Set<Address> {
    Set::new(|user: Address| badges::holds(state.badges_of(user), BadgeType::EarlyAdopter))
}

/// Whether the badges are in order: no user has one twice, and the early adopters are neither more
/// than the users who opened a position nor more than the cap.
pub open spec fn badges_valid(state: PortfolioState) -> bool {
    &&& forall|user: Address| (#[trigger] state.badges_of(user)).no_duplicates()
    &&& early_adopters(state).finite()
    &&& match state.settings {
        None => early_adopters(state).len() == 0,
        Some(settings) => early_adopters(state).len() <= settings.total_users_first_open
            && early_adopters(state).len() <= settings.early_adopter_cap,
    }
}

/// The users who have opened a position.
pub open spec fn openers(state: PortfolioState) -> Set<Address> {
    Set::new(|user: Address| user_portfolio::listed(state.opened, user).len() > 0)
}

/// Whether the counter tells how many users have opened a position, as far as it goes.
pub open spec fn count_valid(state: PortfolioState) -> bool {
    &&& openers(state).finite()
    &&& match state.settings {
        None => openers(state).len() == 0,
        Some(settings) => settings.total_users_first_open == (if openers(state).len() <= u32::MAX {
            openers(state).len()
        } else {
            u32::MAX as nat
        }),
    }
}

/// Whether the contract can be in `state`.
pub open spec fn valid(state: PortfolioState) -> bool {
    book_valid(state) && badges_valid(state) && count_valid(state)
}

/// A contract without entries is in a valid state.
pub proof fn law_empty_state_is_valid(state: PortfolioState)
    requires
        state.settings is None,
        state.positions == Map::<u64, Position>::empty(),
        state.opened == Map::<Address, Seq<u64>>::empty(),
        state.closed == Map::<Address, Seq<u64>>::empty(),
        state.badges == Map::<Address, Seq<Badge>>::empty(),
    ensures
        valid(state),
{
    assert(early_adopters(state) =~= Set::<Address>::empty());
    assert(openers(state) =~= Set::<Address>::empty());
}

/// `initialize` leads from a valid state to a valid one.
pub proof fn law_initialize_keeps_valid(
    state: PortfolioState,
    admin: Address,
    oracle: Address,
    cap: u32,
)
    requires
        valid(state),
    ensures
        valid(user_portfolio::initialize_state(state, admin, oracle, cap)),
{
    if state.settings is None {
        lemma_same_badges(
            state,
            user_portfolio::initialize_state(state, admin, oracle, cap),
        );
    }
}

/// `set_oracle` and `set_leaderboard_rank` lead from a valid state to a valid one.
pub proof fn law_admin_calls_keep_valid(
    state: PortfolioState,
    oracle: Address,
    user: Address,
    rank: u32,
)
    requires
        valid(state),
    ensures
        valid(user_portfolio::oracle_state(state, oracle)),
        valid(user_portfolio::rank_state(state, user, rank)),
{
    if state.settings is Some {
        lemma_same_badges(state, user_portfolio::oracle_state(state, oracle));
        lemma_same_badges(state, user_portfolio::rank_state(state, user, rank));
    }
}

/// The order of the badges depends on the badges, the cap and the counter alone.
proof fn lemma_same_badges(a: PortfolioState, b: PortfolioState)
    requires
        badges_valid(a),
        a.badges == b.badges,
        a.settings is None && b.settings is Some || a.settings is Some && b.settings is Some
            && a.settings->0.early_adopter_cap == b.settings->0.early_adopter_cap
            && a.settings->0.total_users_first_open == b.settings->0.total_users_first_open,
    ensures
        badges_valid(b),
{
    assert(early_adopters(b) =~= early_adopters(a));
    assert forall|user: Address| (#[trigger] b.badges_of(user)).no_duplicates() by {
        assert(a.badges_of(user).no_duplicates());
    }
}

/// What `with_badge` changes.
pub proof fn lemma_with_badge(state: PortfolioState, user: Address, badge_type: BadgeType)
    ensures
        ({
            let after = state.with_badge(user, badge_type);
            &&& after.settings == state.settings
            &&& after.positions == state.positions
            &&& after.opened == state.opened
            &&& after.closed == state.closed
            &&& after.ranks == state.ranks
            &&& badges::holds(after.badges_of(user), badge_type)
            &&& state.badges_of(user).is_prefix_of(after.badges_of(user))
            &&& forall|other: BadgeType|
                other != badge_type ==> badges::holds(after.badges_of(user), other)
                    == badges::holds(state.badges_of(user), other)
            &&& state.badges_of(user).no_duplicates() ==> after.badges_of(user).no_duplicates()
            &&& forall|other: Address|
                other != user ==> #[trigger] after.badges_of(other) == state.badges_of(other)
        }),
{
    let before = state.badges_of(user);
    let after = state.with_badge(user, badge_type).badges_of(user);
    if !badges::holds(before, badge_type) {
        let badge = Badge { badge_type };
        assert(after == before.push(badge));
        assert(after[before.len() as int] == badge);
        assert forall|other: BadgeType| other != badge_type implies badges::holds(after, other)
            == badges::holds(before, other) by {
            let sought = Badge { badge_type: other };
            if before.contains(sought) {
                let i = choose|i: int| 0 <= i < before.len() && before[i] == sought;
                assert(after[i] == sought);
            }
            if after.contains(sought) {
                let i = choose|i: int| 0 <= i < after.len() && after[i] == sought;
                assert(before[i] == sought);
            }
        }
        if before.no_duplicates() {
            assert forall|i: int, j: int| 0 <= i < after.len() && 0 <= j < after.len() && i
                != j implies after[i] != after[j] by {
                if i == before.len() {
                    assert(before[j] == after[j]);
                } else if j == before.len() {
                    assert(before[i] == after[i]);
                }
            }
        }
    }
}

/// A badge that is not `EarlyAdopter` keeps the badges in order.
proof fn lemma_rank_badge_keeps_valid(state: PortfolioState, user: Address)
    requires
        badges_valid(state),
    ensures
        badges_valid(state.with_rank_badge(user)),
{
    let after = state.with_rank_badge(user);
    lemma_with_badge(state, user, BadgeType::Top10Leaderboard);
    assert(early_adopters(after) =~= early_adopters(state)) by {
        assert forall|other: Address| early_adopters(after).contains(other) == early_adopters(
            state,
        ).contains(other) by {
            if other != user {
                assert(after.badges_of(other) == state.badges_of(other));
            }
        }
    }
    assert forall|other: Address| (#[trigger] after.badges_of(other)).no_duplicates() by {
        assert(state.badges_of(other).no_duplicates());
    }
}

/// A newcomer keeps the badges in order.
proof fn lemma_newcomer_keeps_valid(state: PortfolioState, user: Address)
    requires
        badges_valid(state),
    ensures
        badges_valid(state.with_newcomer(user)),
{
    if let Some(settings) = state.settings {
        let counted = PortfolioState {
            settings: Some(settings.with_one_more_user()),
            ..state
        };
        let after = state.with_newcomer(user);
        assert(early_adopters(counted) =~= early_adopters(state));
        assert forall|other: Address| (#[trigger] counted.badges_of(other)).no_duplicates() by {
            assert(state.badges_of(other).no_duplicates());
        }
        if settings.total_users_first_open < settings.early_adopter_cap {
            lemma_with_badge(counted, user, BadgeType::EarlyAdopter);
            assert(early_adopters(after) =~= early_adopters(state).insert(user)) by {
                assert forall|other: Address| early_adopters(after).contains(other)
                    == early_adopters(state).insert(user).contains(other) by {
                    if other != user {
                        assert(after.badges_of(other) == counted.badges_of(other));
                    }
                }
            }
            assert forall|other: Address| (#[trigger] after.badges_of(other)).no_duplicates() by {
                assert(counted.badges_of(other).no_duplicates());
            }
        }
    }
}

/// What the badges of an opened position leave alone.
pub proof fn lemma_badges_leave_book(state: PortfolioState, user: Address, first: bool)
    ensures
        ({
            let after = state.after_open_position(user, first);
            &&& after.positions == state.positions
            &&& after.opened == state.opened
            &&& after.closed == state.closed
            &&& after.ranks == state.ranks
            &&& after.settings is Some == state.settings is Some
            &&& state.settings matches Some(settings) ==> after.settings->0 == (Settings {
                total_users_first_open: after.settings->0.total_users_first_open,
                ..settings
            })
            &&& !first ==> after.settings == state.settings
            &&& state.badges_of(user).is_prefix_of(after.badges_of(user))
            &&& forall|other: Address|
                other != user ==> #[trigger] after.badges_of(other) == state.badges_of(other)
        }),
{
    let counted = PortfolioState {
        settings: Some(state.settings->0.with_one_more_user()),
        ..state
    };
    lemma_with_badge(state, user, BadgeType::Top10Leaderboard);
    lemma_with_badge(counted, user, BadgeType::EarlyAdopter);
    let newcomer = state.with_newcomer(user);
    lemma_with_badge(newcomer, user, BadgeType::Top10Leaderboard);
    assert(forall|other: Address| #[trigger] counted.badges_of(other) == state.badges_of(other));
    assert forall|other: Address| other != user implies #[trigger] state.after_open_position(
        user,
        first,
    ).badges_of(other) == state.badges_of(other) by {
        assert(counted.with_badge(user, BadgeType::EarlyAdopter).badges_of(other)
            == counted.badges_of(other));
        assert(newcomer.with_badge(user, BadgeType::Top10Leaderboard).badges_of(other)
            == newcomer.badges_of(other));
        assert(state.with_badge(user, BadgeType::Top10Leaderboard).badges_of(other)
            == state.badges_of(other));
    }
}

/// `open_position` leads from a valid state to a valid one.
pub proof fn law_open_keeps_valid(
    state: PortfolioState,
    user: Address,
    entry_price: i128,
    amount: i128,
)
    requires
        valid(state),
        user_portfolio::open_result(state, user, entry_price, amount) is Ok,
    ensures
        valid(user_portfolio::open_state(state, user, entry_price, amount)),
{
    let id = state.settings->0.next_position_id;
    let booked = state.with_booked(user, entry_price, amount);
    let first = user_portfolio::listed(state.opened, user).len() == 0;

    assert(!state.positions.contains_key(id));
    lemma_push(user_portfolio::listed(state.opened, user), id);
    assert(user_portfolio::listed(booked.opened, user) == user_portfolio::listed(state.opened, user).push(id));
    assert(forall|other: Address|
        other != user ==> #[trigger] user_portfolio::listed(booked.opened, other) == user_portfolio::listed(state.opened, other));
    assert(forall|other: Address| #[trigger] user_portfolio::listed(booked.closed, other) == user_portfolio::listed(state.closed, other));
    assert forall|known: u64| #[trigger] booked.positions.contains_key(known) implies record_valid(
        booked.positions[known],
    ) && exists|owner: Address| #[trigger] user_portfolio::listed(booked.opened, owner).contains(known) by {
        if known == id {
            assert(user_portfolio::listed(booked.opened, user).contains(id));
        } else {
            assert(state.positions.contains_key(known));
            let owner = choose|owner: Address| #[trigger] user_portfolio::listed(state.opened, owner).contains(known);
            assert(user_portfolio::listed(booked.opened, owner).contains(known));
        }
    }
    assert forall|owner: Address, known: u64| #[trigger]
        user_portfolio::listed(booked.opened, owner).contains(known) implies booked.positions.contains_key(known) by {
        if known != id {
            assert(user_portfolio::listed(state.opened, owner).contains(known));
        }
    }
    assert forall|owner: Address, other: Address, known: u64|
        #![trigger user_portfolio::listed(booked.opened, owner).contains(known), user_portfolio::listed(booked.opened, other).contains(known)]
        user_portfolio::listed(booked.opened, owner).contains(known) && user_portfolio::listed(booked.opened, other).contains(
            known,
        ) implies owner == other by {
        if known == id {
            assert(!user_portfolio::listed(state.opened, owner).contains(id));
            assert(!user_portfolio::listed(state.opened, other).contains(id));
        } else {
            assert(user_portfolio::listed(state.opened, owner).contains(known));
            assert(user_portfolio::listed(state.opened, other).contains(known));
        }
    }
    assert forall|owner: Address, i: int, j: int|
        0 <= i < j < user_portfolio::listed(booked.opened, owner).len() implies (#[trigger] user_portfolio::listed(booked.opened, owner)[i])
        < (#[trigger] user_portfolio::listed(booked.opened, owner)[j]) by {
        let ids = user_portfolio::listed(state.opened, owner);
        if owner == user && j == ids.len() {
            assert(ids.contains(ids[i]));
            assert(state.positions.contains_key(ids[i]));
        } else {
            assert(ids[i] < ids[j]);
        }
    }
    assert forall|owner: Address| (#[trigger] user_portfolio::listed(booked.closed, owner)).no_duplicates() by {
        assert(user_portfolio::listed(state.closed, owner).no_duplicates());
    }
    assert forall|owner: Address, known: u64| #[trigger]
        user_portfolio::listed(booked.closed, owner).contains(known) <==> user_portfolio::listed(booked.opened, owner).contains(known)
            && booked.positions[known].status is Closed by {
        assert(user_portfolio::listed(state.closed, owner).contains(known) <==> user_portfolio::listed(state.opened, owner).contains(known)
            && state.positions[known].status is Closed);
        assert(!user_portfolio::listed(state.opened, owner).contains(id));
    }
    assert(book_valid(booked));
    lemma_open_keeps_count(state, user, entry_price, amount);
    lemma_badges_leave_book(booked, user, first);
    lemma_same_badges(state, booked);
    if first {
        lemma_newcomer_keeps_valid(booked, user);
        lemma_rank_badge_keeps_valid(booked.with_newcomer(user), user);
    } else {
        lemma_rank_badge_keeps_valid(booked, user);
    }
}

/// An opened position keeps the count of users.
proof fn lemma_open_keeps_count(
    state: PortfolioState,
    user: Address,
    entry_price: i128,
    amount: i128,
)
    requires
        count_valid(state),
        user_portfolio::open_result(state, user, entry_price, amount) is Ok,
    ensures
        count_valid(user_portfolio::open_state(state, user, entry_price, amount)),
{
    let booked = state.with_booked(user, entry_price, amount);
    let after = user_portfolio::open_state(state, user, entry_price, amount);
    lemma_badges_leave_book(booked, user, state.opened_by(user).len() == 0);
    assert(openers(after) =~= openers(state).insert(user));
}

/// What a list holds after a push.
proof fn lemma_push(ids: Seq<u64>, id: u64)
    ensures
        forall|other: u64| #[trigger]
            ids.push(id).contains(other) <==> ids.contains(other) || other == id,
{
    let after = ids.push(id);
    assert(after[ids.len() as int] == id);
    assert forall|other: u64| #[trigger]
        after.contains(other) <==> ids.contains(other) || other == id by {
        if ids.contains(other) {
            let i = choose|i: int| 0 <= i < ids.len() && ids[i] == other;
            assert(after[i] == other);
        }
        if after.contains(other) && other != id {
            let i = choose|i: int| 0 <= i < after.len() && after[i] == other;
            assert(ids[i] == other);
        }
    }
}

/// `close_position` leads from a valid state to a valid one.
pub proof fn law_close_keeps_valid(
    state: PortfolioState,
    user: Address,
    id: u64,
    realized_pnl: i128,
    now: u64,
)
    requires
        valid(state),
        user_portfolio::close_result(state, user, id) is Ok,
    ensures
        valid(user_portfolio::close_state(state, user, id, realized_pnl, now)),
{
    let booked = state.with_closed(user, id, realized_pnl, now);

    lemma_push(user_portfolio::listed(state.closed, user), id);
    assert(user_portfolio::listed(booked.closed, user) == user_portfolio::listed(state.closed, user).push(id));
    assert(forall|other: Address|
        other != user ==> #[trigger] user_portfolio::listed(booked.closed, other) == user_portfolio::listed(state.closed, other));
    assert(forall|other: Address| #[trigger] user_portfolio::listed(booked.opened, other) == user_portfolio::listed(state.opened, other));
    assert(booked.positions.dom() =~= state.positions.dom());
    assert(!user_portfolio::listed(state.closed, user).contains(id));
    assert forall|known: u64| #[trigger] booked.positions.contains_key(known) implies record_valid(
        booked.positions[known],
    ) && exists|owner: Address| #[trigger] user_portfolio::listed(booked.opened, owner).contains(known) by {
        assert(state.positions.contains_key(known));
        let owner = choose|owner: Address| #[trigger] user_portfolio::listed(state.opened, owner).contains(known);
        assert(user_portfolio::listed(booked.opened, owner).contains(known));
    }
    assert forall|owner: Address, known: u64| #[trigger]
        user_portfolio::listed(booked.opened, owner).contains(known) implies booked.positions.contains_key(known) by {
        assert(user_portfolio::listed(state.opened, owner).contains(known));
    }
    assert forall|owner: Address, other: Address, known: u64|
        #![trigger user_portfolio::listed(booked.opened, owner).contains(known), user_portfolio::listed(booked.opened, other).contains(known)]
        user_portfolio::listed(booked.opened, owner).contains(known) && user_portfolio::listed(booked.opened, other).contains(
            known,
        ) implies owner == other by {
        assert(user_portfolio::listed(state.opened, owner).contains(known));
        assert(user_portfolio::listed(state.opened, other).contains(known));
    }
    assert forall|owner: Address, i: int, j: int|
        0 <= i < j < user_portfolio::listed(booked.opened, owner).len() implies (#[trigger] user_portfolio::listed(booked.opened, owner)[i])
        < (#[trigger] user_portfolio::listed(booked.opened, owner)[j]) by {
        assert(user_portfolio::listed(state.opened, owner)[i] < user_portfolio::listed(state.opened, owner)[j]);
    }
    assert forall|owner: Address| (#[trigger] user_portfolio::listed(booked.closed, owner)).no_duplicates() by {
        let ids = user_portfolio::listed(state.closed, owner);
        assert(ids.no_duplicates());
        if owner == user {
            assert forall|i: int, j: int| 0 <= i < ids.len() + 1 && 0 <= j < ids.len() + 1 && i
                != j implies ids.push(id)[i] != ids.push(id)[j] by {
                if i == ids.len() {
                    assert(ids.contains(ids[j]));
                } else if j == ids.len() {
                    assert(ids.contains(ids[i]));
                }
            }
        }
    }
    assert forall|owner: Address, known: u64| #[trigger]
        user_portfolio::listed(booked.closed, owner).contains(known) <==> user_portfolio::listed(booked.opened, owner).contains(known)
            && booked.positions[known].status is Closed by {
        assert(user_portfolio::listed(state.closed, owner).contains(known) <==> user_portfolio::listed(state.opened, owner).contains(known)
            && state.positions[known].status is Closed);
        if known == id && owner != user {
            assert(user_portfolio::listed(state.opened, user).contains(id));
            assert(!user_portfolio::listed(state.opened, owner).contains(id));
        }
    }
    assert(book_valid(booked));
    lemma_with_badge(booked, user, BadgeType::Top10Leaderboard);
    lemma_same_badges(state, booked);
    lemma_rank_badge_keeps_valid(booked, user);
}

// What each call does.

/// The storage is seen as it is: each table by its own entries.
pub proof fn law_storage_is_seen_whole(storage: PortfolioStorage, user: Address)
    ensures
        storage@.settings == storage.settings,
        storage@.positions == storage.positions@,
        storage@.ranks == storage.ranks@,
        storage@.opened.contains_key(user) == storage.opened@.contains_key(user),
        storage.opened@.contains_key(user) ==> storage@.opened[user] == storage.opened@[user]@,
        storage@.closed.contains_key(user) == storage.closed@.contains_key(user),
        storage.closed@.contains_key(user) ==> storage@.closed[user] == storage.closed@[user]@,
        storage@.badges.contains_key(user) == storage.badges@.contains_key(user),
        storage.badges@.contains_key(user) ==> storage@.badges[user] == storage.badges@[user]@,
{
}

/// What is read of a user's entries: the lists as they are, and empty lists where there are none.
pub proof fn law_lists_are_read(state: PortfolioState, user: Address)
    ensures
        state.opened_by(user) == (if state.opened.contains_key(user) {
            state.opened[user]
        } else {
            Seq::<u64>::empty()
        }),
        state.closed_by(user) == (if state.closed.contains_key(user) {
            state.closed[user]
        } else {
            Seq::<u64>::empty()
        }),
        state.badges_of(user) == (if state.badges.contains_key(user) {
            state.badges[user]
        } else {
            Seq::<Badge>::empty()
        }),
{
}

/// `initialize` sets the contract up once, with the first id 1 and no users counted. It asks for the
/// authorization of the admin-to-be and changes nothing but the settings.
pub proof fn law_initialize_sets_up(
    state: PortfolioState,
    admin: Address,
    oracle: Address,
    cap: u32,
)
    ensures
        ({
            let result = user_portfolio::initialize_result(state);
            let after = user_portfolio::initialize_state(state, admin, oracle, cap);
            let asked = user_portfolio::initialize_calls(state, admin);
            match state.settings {
                Some(_) => {
                    &&& result == Err::<(), PortfolioError>(PortfolioError::AlreadyInitialized)
                    &&& after == state
                    &&& asked.len() == 0
                },
                None => {
                    &&& result == Ok::<(), PortfolioError>(())
                    &&& asked.len() == 1
                    &&& asked[0] == HostCall::RequireAuth(admin)
                    &&& after.settings matches Some(settings) && settings.admin == admin
                        && settings.oracle == oracle && settings.next_position_id == 1
                        && settings.early_adopter_cap == cap && settings.total_users_first_open == 0
                    &&& after.positions == state.positions
                    &&& after.opened == state.opened
                    &&& after.closed == state.closed
                    &&& after.ranks == state.ranks
                    &&& after.badges == state.badges
                },
            }
        }),
{
}

/// `set_oracle` and `set_leaderboard_rank` are refused until there are settings, and ask for the
/// authorization of the admin. One changes the oracle alone, the other the rank of one user.
pub proof fn law_admin_calls_write(
    state: PortfolioState,
    oracle: Address,
    user: Address,
    rank: u32,
)
    ensures
        ({
            let result = user_portfolio::admin_result(state);
            let asked = user_portfolio::admin_calls(state);
            let moved = user_portfolio::oracle_state(state, oracle);
            let ranked = user_portfolio::rank_state(state, user, rank);
            match state.settings {
                None => {
                    &&& result == Err::<(), PortfolioError>(PortfolioError::NotInitialized)
                    &&& asked.len() == 0
                    &&& moved == state
                    &&& ranked == state
                },
                Some(settings) => {
                    &&& result == Ok::<(), PortfolioError>(())
                    &&& asked.len() == 1
                    &&& asked[0] == HostCall::RequireAuth(settings.admin)
                    &&& moved.settings == Some(Settings { oracle, ..settings })
                    &&& moved == (PortfolioState { settings: moved.settings, ..state })
                    &&& ranked.ranks == state.ranks.insert(user, rank)
                    &&& ranked == (PortfolioState { ranks: ranked.ranks, ..state })
                },
            }
        }),
{
}

/// `open_position` refuses a price or an amount that is not positive as invalid, and no other. Every
/// other position gets the next id, once there are settings, while ids and room in the user's list
/// are left.
pub proof fn law_open_succeeds_on_positive(
    state: PortfolioState,
    user: Address,
    entry_price: i128,
    amount: i128,
)
    ensures
        ({
            let result = user_portfolio::open_result(state, user, entry_price, amount);
            let opened = if state.opened.contains_key(user) {
                state.opened[user].len()
            } else {
                0
            };
            &&& result == Err::<u64, PortfolioError>(PortfolioError::InvalidPosition)
                <==> entry_price <= 0 || amount <= 0
            &&& entry_price > 0 && amount > 0 ==> match state.settings {
                None => result == Err::<u64, PortfolioError>(PortfolioError::NotInitialized),
                Some(settings) => if settings.next_position_id == u64::MAX {
                    result == Err::<u64, PortfolioError>(PortfolioError::PositionIdOverflow)
                } else if opened >= u32::MAX {
                    result == Err::<u64, PortfolioError>(PortfolioError::ListFull)
                } else {
                    result == Ok::<u64, PortfolioError>(settings.next_position_id)
                },
            }
        }),
{
}

/// `open_position` records the position as it was asked for, open and without profit, appends its id
/// to the user's list, uses the id up, and counts the user at the first position. Of the rest only
/// the user's badges can change.
pub proof fn law_open_records_position(
    state: PortfolioState,
    user: Address,
    entry_price: i128,
    amount: i128,
    id: u64,
)
    requires
        user_portfolio::open_result(state, user, entry_price, amount) == Ok::<u64, PortfolioError>(
            id,
        ),
    ensures
        ({
            let after = user_portfolio::open_state(state, user, entry_price, amount);
            let ids = if state.opened.contains_key(user) {
                state.opened[user]
            } else {
                Seq::<u64>::empty()
            };
            let before = state.settings->0;
            let settings = after.settings->0;
            &&& after.positions.contains_key(id)
            &&& after.positions[id].entry_price == entry_price
            &&& after.positions[id].amount == amount
            &&& after.positions[id].status is Open
            &&& after.positions[id].realized_pnl == 0
            &&& after.positions[id].closed_at == 0
            &&& after.positions.remove(id) == state.positions.remove(id)
            &&& after.opened == state.opened.insert(user, ids.push(id))
            &&& after.closed == state.closed
            &&& after.ranks == state.ranks
            &&& after.badges.remove(user) == state.badges.remove(user)
            &&& after.settings is Some
            &&& settings.next_position_id == id + 1
            &&& settings.admin == before.admin
            &&& settings.oracle == before.oracle
            &&& settings.early_adopter_cap == before.early_adopter_cap
            &&& ids.len() > 0 ==> settings.total_users_first_open == before.total_users_first_open
            &&& ids.len() == 0 && before.total_users_first_open < u32::MAX
                ==> settings.total_users_first_open == before.total_users_first_open + 1
            &&& ids.len() == 0 && before.total_users_first_open == u32::MAX
                ==> settings.total_users_first_open == u32::MAX
        }),
{
    let after = user_portfolio::open_state(state, user, entry_price, amount);
    let booked = state.with_booked(user, entry_price, amount);
    let first = state.opened_by(user).len() == 0;
    law_open_awards_badges(booked, user, first);
    lemma_badges_leave_book(booked, user, first);
    assert(after.positions.remove(id) =~= state.positions.remove(id));
}

/// The badges of an opened position, in award order: `EarlyAdopter` at the first position, while
/// fewer users than the cap were counted; then `Top10Leaderboard`, with a rank from 1 to 10; each
/// unless the user has it already. They come after those the user has. No other user's change.
pub proof fn law_open_awards_badges(state: PortfolioState, user: Address, first: bool)
    ensures
        ({
            let after = state.after_open_position(user, first);
            let held = if state.badges.contains_key(user) {
                state.badges[user]
            } else {
                Seq::<Badge>::empty()
            };
            let now_held = if after.badges.contains_key(user) {
                after.badges[user]
            } else {
                Seq::<Badge>::empty()
            };
            let early = Badge { badge_type: BadgeType::EarlyAdopter };
            let top = Badge { badge_type: BadgeType::Top10Leaderboard };
            let earns_early = first && (state.settings matches Some(settings)
                && settings.total_users_first_open < settings.early_adopter_cap)
                && !held.contains(early);
            let earns_top = state.ranks.contains_key(user) && 1 <= state.ranks[user] <= 10
                && !held.contains(top);
            &&& now_held == (if earns_early && earns_top {
                held.push(early).push(top)
            } else if earns_early {
                held.push(early)
            } else if earns_top {
                held.push(top)
            } else {
                held
            })
            &&& after.badges.remove(user) == state.badges.remove(user)
            &&& after.positions == state.positions
            &&& after.opened == state.opened
            &&& after.closed == state.closed
            &&& after.ranks == state.ranks
            &&& match state.settings {
                None => after.settings is None,
                Some(settings) => after.settings == Some(
                    Settings {
                        total_users_first_open: if first && settings.total_users_first_open
                            < u32::MAX {
                            (settings.total_users_first_open + 1) as u32
                        } else {
                            settings.total_users_first_open
                        },
                        ..settings
                    },
                ),
            }
        }),
{
    let after = state.after_open_position(user, first);
    let held = state.badges_of(user);
    let early = Badge { badge_type: BadgeType::EarlyAdopter };
    let top = Badge { badge_type: BadgeType::Top10Leaderboard };
    assert(held.push(early).contains(top) == held.contains(top)) by {
        if held.contains(top) {
            let i = choose|i: int| 0 <= i < held.len() && held[i] == top;
            assert(held.push(early)[i] == top);
        }
        if held.push(early).contains(top) {
            let i = choose|i: int| 0 <= i < held.len() + 1 && held.push(early)[i] == top;
            assert(held[i] == top);
        }
    }
    assert(after.badges.remove(user) =~= state.badges.remove(user));
}

/// The badge of a closed position: `Top10Leaderboard`, with a rank from 1 to 10, unless the user has
/// it already, after those the user has. Nothing else changes.
pub proof fn law_close_awards_badges(state: PortfolioState, user: Address, realized_pnl: i128)
    ensures
        ({
            let after = state.after_close_position(user, realized_pnl);
            let held = if state.badges.contains_key(user) {
                state.badges[user]
            } else {
                Seq::<Badge>::empty()
            };
            let top = Badge { badge_type: BadgeType::Top10Leaderboard };
            &&& after == (PortfolioState { badges: after.badges, ..state })
            &&& if state.ranks.contains_key(user) && 1 <= state.ranks[user] <= 10
                && !held.contains(top) {
                after.badges == state.badges.insert(user, held.push(top))
            } else {
                after.badges == state.badges
            }
        }),
{
}

/// `close_position` closes every open position of the user's: it is refused only where the id is not
/// in the user's list, where its record is missing or not open, or where the list of closed ids is
/// full.
pub proof fn law_close_succeeds_on_open(state: PortfolioState, user: Address, id: u64)
    ensures
        ({
            let result = user_portfolio::close_result(state, user, id);
            let listed = state.opened.contains_key(user) && state.opened[user].contains(id);
            let closed = if state.closed.contains_key(user) {
                state.closed[user].len()
            } else {
                0
            };
            if !listed {
                result == Err::<(), PortfolioError>(PortfolioError::PositionNotFound)
            } else if !state.positions.contains_key(id) {
                result == Err::<(), PortfolioError>(PortfolioError::PositionMissing)
            } else if state.positions[id].status is Closed {
                result == Err::<(), PortfolioError>(PortfolioError::PositionNotOpen)
            } else if closed >= u32::MAX {
                result == Err::<(), PortfolioError>(PortfolioError::ListFull)
            } else {
                result == Ok::<(), PortfolioError>(())
            }
        }),
{
}

/// In a valid state, `close_position` goes through for every id of the user's whose position is
/// open.
pub proof fn law_open_positions_can_be_closed(state: PortfolioState, user: Address, id: u64)
    requires
        valid(state),
        state.opened.contains_key(user),
        state.opened[user].len() <= u32::MAX,
        state.opened[user].contains(id),
        state.positions[id].status is Open,
    ensures
        user_portfolio::close_result(state, user, id) == Ok::<(), PortfolioError>(()),
{
    law_closed_list_has_room(state, user, id);
    assert(user_portfolio::listed(state.opened, user).contains(id));
}

/// `close_position` marks the position closed, with the profit it was closed with and the time, and
/// appends its id to the user's closed ids. Price and amount stay, and of the rest only the user's
/// badges can change.
pub proof fn law_close_records_profit(
    state: PortfolioState,
    user: Address,
    id: u64,
    realized_pnl: i128,
    now: u64,
)
    requires
        user_portfolio::close_result(state, user, id) is Ok,
    ensures
        ({
            let after = user_portfolio::close_state(state, user, id, realized_pnl, now);
            let ids = if state.closed.contains_key(user) {
                state.closed[user]
            } else {
                Seq::<u64>::empty()
            };
            let held = if state.badges.contains_key(user) {
                state.badges[user]
            } else {
                Seq::<Badge>::empty()
            };
            let top = Badge { badge_type: BadgeType::Top10Leaderboard };
            &&& after.positions.contains_key(id)
            &&& after.positions[id].entry_price == state.positions[id].entry_price
            &&& after.positions[id].amount == state.positions[id].amount
            &&& after.positions[id].status is Closed
            &&& after.positions[id].realized_pnl == realized_pnl
            &&& after.positions[id].closed_at == now
            &&& after.positions.remove(id) == state.positions.remove(id)
            &&& after.closed == state.closed.insert(user, ids.push(id))
            &&& after.opened == state.opened
            &&& after.settings == state.settings
            &&& after.ranks == state.ranks
            &&& if state.ranks.contains_key(user) && 1 <= state.ranks[user] <= 10
                && !held.contains(top) {
                after.badges == state.badges.insert(user, held.push(top))
            } else {
                after.badges == state.badges
            }
        }),
{
    let after = user_portfolio::close_state(state, user, id, realized_pnl, now);
    law_close_awards_badges(
        state.with_closed(user, id, realized_pnl, now),
        user,
        realized_pnl,
    );
    assert(after.positions.remove(id) =~= state.positions.remove(id));
}

/// The badges after `open_position`, from what the storage held before: `EarlyAdopter` at the user's
/// first position, while fewer users than the cap were counted; then `Top10Leaderboard`, with a rank
/// from 1 to 10; each unless the user has it already.
pub proof fn law_open_earns_badges(
    state: PortfolioState,
    user: Address,
    entry_price: i128,
    amount: i128,
)
    requires
        user_portfolio::open_result(state, user, entry_price, amount) is Ok,
    ensures
        ({
            let after = user_portfolio::open_state(state, user, entry_price, amount);
            let settings = state.settings->0;
            let held = if state.badges.contains_key(user) {
                state.badges[user]
            } else {
                Seq::<Badge>::empty()
            };
            let now_held = if after.badges.contains_key(user) {
                after.badges[user]
            } else {
                Seq::<Badge>::empty()
            };
            let early = Badge { badge_type: BadgeType::EarlyAdopter };
            let top = Badge { badge_type: BadgeType::Top10Leaderboard };
            let first = !state.opened.contains_key(user) || state.opened[user].len() == 0;
            let earns_early = first && settings.total_users_first_open < settings.early_adopter_cap
                && !held.contains(early);
            let earns_top = state.ranks.contains_key(user) && 1 <= state.ranks[user] <= 10
                && !held.contains(top);
            now_held == (if earns_early && earns_top {
                held.push(early).push(top)
            } else if earns_early {
                held.push(early)
            } else if earns_top {
                held.push(top)
            } else {
                held
            })
        }),
{
    law_open_awards_badges(
        state.with_booked(user, entry_price, amount),
        user,
        state.opened_by(user).len() == 0,
    );
}

// What follows for its users.

/// The id that `open_position` returns was never given out before, and the next one is its
/// successor.
pub proof fn law_ids_are_fresh(
    state: PortfolioState,
    user: Address,
    entry_price: i128,
    amount: i128,
    id: u64,
)
    requires
        valid(state),
        user_portfolio::open_result(state, user, entry_price, amount) == Ok::<u64, PortfolioError>(
            id,
        ),
    ensures
        !state.positions.contains_key(id),
        forall|other: Address| !(#[trigger] state.opened_by(other).contains(id)),
        user_portfolio::open_state(state, user, entry_price, amount).settings->0.next_position_id
            == id + 1,
{
    let booked = state.with_booked(user, entry_price, amount);
    lemma_badges_leave_book(booked, user, state.opened_by(user).len() == 0);
    assert forall|other: Address| !(#[trigger] state.opened_by(other).contains(id)) by {
        assert(user_portfolio::listed(state.opened, other).contains(id)
            ==> state.positions.contains_key(id));
    }
}

/// There is always room to close a position: in a valid state, the ids that a user closed are
/// distinct and all among those that the user opened, so that a list of opened ids that fits the
/// host leaves a place for each of them.
pub proof fn law_closed_list_has_room(state: PortfolioState, user: Address, id: u64)
    requires
        valid(state),
        state.opened_by(user).len() <= u32::MAX,
    ensures
        user_portfolio::close_result(state, user, id) != Err::<(), PortfolioError>(
            PortfolioError::ListFull,
        ),
{
    let opened = user_portfolio::listed(state.opened, user);
    let closed = user_portfolio::listed(state.closed, user);
    if opened.contains(id) && !(state.positions[id].status is Closed) {
        assert(closed.no_duplicates());
        assert(closed.to_set().subset_of(opened.to_set().remove(id))) by {
            assert forall|other: u64| closed.to_set().contains(other) implies opened.to_set().remove(
                id,
            ).contains(other) by {
                assert(user_portfolio::listed(state.closed, user).contains(other));
            }
        }
        assert(opened.to_set().contains(id));
        vstd::seq_lib::seq_to_set_is_finite(opened);
        vstd::set_lib::lemma_len_subset(closed.to_set(), opened.to_set().remove(id));
        closed.unique_seq_to_set();
        opened.lemma_cardinality_of_set();
    }
}

/// An opened position is recorded as it was asked for, stands last among the user's, and can be
/// closed.
pub proof fn law_opened_position_can_be_closed(
    state: PortfolioState,
    user: Address,
    entry_price: i128,
    amount: i128,
    id: u64,
)
    requires
        valid(state),
        user_portfolio::open_result(state, user, entry_price, amount) == Ok::<u64, PortfolioError>(
            id,
        ),
    ensures
        ({
            let after = user_portfolio::open_state(state, user, entry_price, amount);
            &&& after.positions == state.positions.insert(
                id,
                Position {
                    entry_price,
                    amount,
                    status: PositionStatus::Open,
                    realized_pnl: 0,
                    closed_at: 0,
                },
            )
            &&& after.opened_by(user) == state.opened_by(user).push(id)
            &&& user_portfolio::close_result(after, user, id) == Ok::<(), PortfolioError>(())
        }),
{
    let booked = state.with_booked(user, entry_price, amount);
    lemma_badges_leave_book(booked, user, state.opened_by(user).len() == 0);
    lemma_push(state.opened_by(user), id);
    law_open_keeps_valid(state, user, entry_price, amount);
    law_closed_list_has_room(
        user_portfolio::open_state(state, user, entry_price, amount),
        user,
        id,
    );
}

/// A position is closed once: to close it again is refused.
pub proof fn law_close_only_once(
    state: PortfolioState,
    user: Address,
    id: u64,
    realized_pnl: i128,
    now: u64,
)
    requires
        user_portfolio::close_result(state, user, id) is Ok,
    ensures
        user_portfolio::close_result(
            user_portfolio::close_state(state, user, id, realized_pnl, now),
            user,
            id,
        ) == Err::<(), PortfolioError>(PortfolioError::PositionNotOpen),
{
    lemma_with_badge(
        state.with_closed(user, id, realized_pnl, now),
        user,
        BadgeType::Top10Leaderboard,
    );
}

/// Nobody closes another user's position: it is not found.
pub proof fn law_only_owner_closes(state: PortfolioState, owner: Address, user: Address, id: u64)
    requires
        valid(state),
        state.opened_by(owner).contains(id),
        user != owner,
    ensures
        user_portfolio::close_result(state, user, id) == Err::<(), PortfolioError>(
            PortfolioError::PositionNotFound,
        ),
{
    assert(user_portfolio::listed(state.opened, owner).contains(id));
    assert(!user_portfolio::listed(state.opened, user).contains(id));
}

/// Whether `user` has the same lists, positions and badges in two states.
pub open spec fn same_for(a: PortfolioState, b: PortfolioState, user: Address) -> bool {
    &&& a.opened_by(user) == b.opened_by(user)
    &&& a.closed_by(user) == b.closed_by(user)
    &&& a.positions_of(user) == b.positions_of(user)
    &&& a.badges_of(user) == b.badges_of(user)
    &&& a.ranks.get(user) == b.ranks.get(user)
}

/// A user who opens a position changes nothing of another user's.
pub proof fn law_open_leaves_others_alone(
    state: PortfolioState,
    user: Address,
    entry_price: i128,
    amount: i128,
    other: Address,
)
    requires
        valid(state),
        user_portfolio::open_result(state, user, entry_price, amount) is Ok,
        other != user,
    ensures
        same_for(user_portfolio::open_state(state, user, entry_price, amount), state, other),
{
    let booked = state.with_booked(user, entry_price, amount);
    let after = user_portfolio::open_state(state, user, entry_price, amount);
    lemma_badges_leave_book(booked, user, state.opened_by(user).len() == 0);
    assert(after.badges_of(other) == booked.badges_of(other));
    let ids = state.opened_by(other);
    assert forall|i: int| 0 <= i < ids.len() implies after.positions_of(other)[i]
        == state.positions_of(other)[i] by {
        assert(user_portfolio::listed(state.opened, other).contains(ids[i]));
        assert(state.positions.contains_key(ids[i]));
    }
    assert(after.positions_of(other) =~= state.positions_of(other));
}

/// A user who closes a position changes nothing of another user's.
pub proof fn law_close_leaves_others_alone(
    state: PortfolioState,
    user: Address,
    id: u64,
    realized_pnl: i128,
    now: u64,
    other: Address,
)
    requires
        valid(state),
        user_portfolio::close_result(state, user, id) is Ok,
        other != user,
    ensures
        same_for(user_portfolio::close_state(state, user, id, realized_pnl, now), state, other),
{
    let booked = state.with_closed(user, id, realized_pnl, now);
    let after = user_portfolio::close_state(state, user, id, realized_pnl, now);
    lemma_with_badge(booked, user, BadgeType::Top10Leaderboard);
    assert(after.badges_of(other) == booked.badges_of(other));
    let ids = state.opened_by(other);
    assert(user_portfolio::listed(state.opened, user).contains(id));
    assert forall|i: int| 0 <= i < ids.len() implies after.positions_of(other)[i]
        == state.positions_of(other)[i] by {
        assert(user_portfolio::listed(state.opened, other).contains(ids[i]));
    }
    assert(after.positions_of(other) =~= state.positions_of(other));
}

/// In a valid state no record is missing: neither the profit and loss nor any page of the trade
/// history is refused for that, nor the closing of a position.
pub proof fn law_no_record_is_missing(
    state: PortfolioState,
    user: Address,
    id: u64,
    cursor: Option<u64>,
    limit: u32,
)
    requires
        valid(state),
    ensures
        state.has_records(state.opened_by(user)),
        state.has_records(queries::page_ids(state.closed_by(user), cursor, limit)),
        user_portfolio::close_result(state, user, id) != Err::<(), PortfolioError>(
            PortfolioError::PositionMissing,
        ),
{
    let opened = state.opened_by(user);
    let closed = state.closed_by(user);
    assert forall|i: int| 0 <= i < opened.len() implies state.positions.contains_key(
        #[trigger] opened[i],
    ) by {
        assert(user_portfolio::listed(state.opened, user).contains(opened[i]));
    }
    let rest = queries::before(closed, cursor);
    if let Some(last) = cursor {
        if closed.contains(last) {
            lemma_last_place(closed, last);
        }
    }
    assert(rest.len() <= closed.len());
    assert(forall|i: int| 0 <= i < rest.len() ==> rest[i] == closed[i]);
    let page = queries::page_ids(closed, cursor, limit);
    assert forall|i: int| 0 <= i < page.len() implies state.positions.contains_key(
        #[trigger] page[i],
    ) by {
        assert(page[i] == closed[rest.len() - 1 - i]);
        assert(user_portfolio::listed(state.closed, user).contains(page[i]));
        assert(user_portfolio::listed(state.opened, user).contains(page[i]));
    }
    assert(user_portfolio::listed(state.opened, user).contains(id)
        ==> state.positions.contains_key(id));
}

/// An id that occurs has a last place.
pub proof fn lemma_last_place(ids: Seq<u64>, id: u64)
    requires
        ids.contains(id),
    ensures
        0 <= queries::last_place(ids, id) < ids.len(),
        ids[queries::last_place(ids, id)] == id,
        forall|j: int|
            queries::last_place(ids, id) < j < ids.len() ==> (#[trigger] ids[j]) != id,
    decreases ids.len(),
{
    let n = ids.len() - 1;
    if ids[n] == id {
        assert(0 <= n < ids.len() && ids[n] == id);
    } else {
        let front = ids.drop_last();
        let i = choose|i: int| 0 <= i < ids.len() && ids[i] == id;
        assert(front[i] == id);
        lemma_last_place(front, id);
        let p = queries::last_place(front, id);
        assert(ids[p] == id);
        assert forall|j: int| p < j < ids.len() implies (#[trigger] ids[j]) != id by {
            if j < n {
                assert(front[j] == ids[j]);
            }
        }
    }
}

// Badges.

/// No more users than the cap receive `EarlyAdopter`.
pub proof fn law_early_adopters_within_cap(state: PortfolioState, settings: Settings)
    requires
        valid(state),
        state.settings == Some(settings),
    ensures
        early_adopters(state).finite(),
        early_adopters(state).len() <= settings.early_adopter_cap,
{
}

/// The counter is the number of users who have opened a position, or `u32::MAX` once there are more.
pub proof fn law_counter_counts_users(state: PortfolioState, settings: Settings)
    requires
        valid(state),
        state.settings == Some(settings),
    ensures
        openers(state).finite(),
        openers(state).len() <= u32::MAX ==> settings.total_users_first_open == openers(
            state,
        ).len(),
        openers(state).len() > u32::MAX ==> settings.total_users_first_open == u32::MAX,
{
}

/// A user whose first position is opened while fewer users than the cap have opened one receives
/// `EarlyAdopter`; a user whose first comes later does not.
pub proof fn law_first_users_are_early_adopters(
    state: PortfolioState,
    user: Address,
    entry_price: i128,
    amount: i128,
    settings: Settings,
)
    requires
        valid(state),
        user_portfolio::open_result(state, user, entry_price, amount) is Ok,
        state.settings == Some(settings),
    ensures
        ({
            let after = user_portfolio::open_state(state, user, entry_price, amount);
            let first = state.opened_by(user).len() == 0;
            let early = openers(state).len() < settings.early_adopter_cap;
            badges::holds(after.badges_of(user), BadgeType::EarlyAdopter) == (badges::holds(
                state.badges_of(user),
                BadgeType::EarlyAdopter,
            ) || first && early)
        }),
{
    let booked = state.with_booked(user, entry_price, amount);
    let counted = PortfolioState {
        settings: Some(booked.settings->0.with_one_more_user()),
        ..booked
    };
    lemma_with_badge(booked, user, BadgeType::Top10Leaderboard);
    lemma_with_badge(counted, user, BadgeType::EarlyAdopter);
    lemma_with_badge(booked.with_newcomer(user), user, BadgeType::Top10Leaderboard);
    assert(booked.badges_of(user) == state.badges_of(user));
    assert(counted.badges_of(user) == state.badges_of(user));
}

/// A user who stands among the best ten when opening or closing a position has `Top10Leaderboard`
/// afterwards; another user earns it by neither.
pub proof fn law_top_rank_earns_badge(
    state: PortfolioState,
    user: Address,
    entry_price: i128,
    amount: i128,
    id: u64,
    realized_pnl: i128,
    now: u64,
)
    ensures
        user_portfolio::open_result(state, user, entry_price, amount) is Ok ==> badges::holds(
            user_portfolio::open_state(state, user, entry_price, amount).badges_of(user),
            BadgeType::Top10Leaderboard,
        ) == (badges::holds(state.badges_of(user), BadgeType::Top10Leaderboard)
            || badges::is_top_rank(state.ranks.get(user))),
        badges::holds(
            user_portfolio::close_state(state, user, id, realized_pnl, now).badges_of(user),
            BadgeType::Top10Leaderboard,
        ) == (badges::holds(state.badges_of(user), BadgeType::Top10Leaderboard)
            || badges::is_top_rank(state.ranks.get(user))),
{
    let booked = state.with_booked(user, entry_price, amount);
    let counted = PortfolioState {
        settings: Some(booked.settings->0.with_one_more_user()),
        ..booked
    };
    let closed = state.with_closed(user, id, realized_pnl, now);
    lemma_with_badge(booked, user, BadgeType::Top10Leaderboard);
    lemma_with_badge(counted, user, BadgeType::EarlyAdopter);
    lemma_with_badge(booked.with_newcomer(user), user, BadgeType::Top10Leaderboard);
    lemma_with_badge(closed, user, BadgeType::Top10Leaderboard);
    assert(booked.badges_of(user) == state.badges_of(user));
    assert(counted.badges_of(user) == state.badges_of(user));
    assert(closed.badges_of(user) == state.badges_of(user));
}

/// Badges are never lost: those a user has stay, in their order, before any new one.
pub proof fn law_badges_stay(
    state: PortfolioState,
    user: Address,
    entry_price: i128,
    amount: i128,
    id: u64,
    realized_pnl: i128,
    now: u64,
)
    ensures
        state.badges_of(user).is_prefix_of(
            user_portfolio::open_state(state, user, entry_price, amount).badges_of(user),
        ),
        state.badges_of(user).is_prefix_of(
            user_portfolio::close_state(state, user, id, realized_pnl, now).badges_of(user),
        ),
{
    let booked = state.with_booked(user, entry_price, amount);
    let closed = state.with_closed(user, id, realized_pnl, now);
    lemma_badges_leave_book(booked, user, state.opened_by(user).len() == 0);
    lemma_with_badge(closed, user, BadgeType::Top10Leaderboard);
    assert(booked.badges_of(user) == state.badges_of(user));
    assert(closed.badges_of(user) == state.badges_of(user));
}

// What a call depends on.

/// Whether two states agree on the settings and on what they hold for `user`, apart from records
/// and closed ids.
pub open spec fn agree(a: PortfolioState, b: PortfolioState, user: Address) -> bool {
    &&& a.settings == b.settings
    &&& a.opened_by(user) == b.opened_by(user)
    &&& a.ranks.get(user) == b.ranks.get(user)
    &&& a.badges_of(user) == b.badges_of(user)
}

/// Badges depend on what the states hold for the user.
proof fn lemma_badges_are_local(a: PortfolioState, b: PortfolioState, user: Address)
    requires
        agree(a, b, user),
    ensures
        forall|badge_type: BadgeType|
            agree(a.with_badge(user, badge_type), b.with_badge(user, badge_type), user),
        agree(a.with_rank_badge(user), b.with_rank_badge(user), user),
        agree(a.with_newcomer(user), b.with_newcomer(user), user),
        a.with_newcomer(user).positions == a.positions,
        b.with_newcomer(user).positions == b.positions,
        a.with_rank_badge(user).positions == a.positions,
        b.with_rank_badge(user).positions == b.positions,
        a.with_newcomer(user).closed == a.closed,
        b.with_newcomer(user).closed == b.closed,
        a.with_rank_badge(user).closed == a.closed,
        b.with_rank_badge(user).closed == b.closed,
{
}

/// `open_position` depends on the settings and on the ids, rank and badges that the storage holds
/// for the user: on states that agree there it returns the same and leaves the same, the new record
/// with it. Every other record and all closed ids stay as they were.
pub proof fn law_open_is_local(
    a: PortfolioState,
    b: PortfolioState,
    user: Address,
    entry_price: i128,
    amount: i128,
)
    requires
        agree(a, b, user),
    ensures
        user_portfolio::open_result(a, user, entry_price, amount) == user_portfolio::open_result(
            b,
            user,
            entry_price,
            amount,
        ),
        user_portfolio::open_result(a, user, entry_price, amount) matches Ok(id) ==> ({
            let next_a = user_portfolio::open_state(a, user, entry_price, amount);
            let next_b = user_portfolio::open_state(b, user, entry_price, amount);
            &&& agree(next_a, next_b, user)
            &&& next_a.positions.get(id) == next_b.positions.get(id)
            &&& next_a.positions.remove(id) == a.positions.remove(id)
            &&& next_a.closed == a.closed
        }),
{
    let id = a.settings->0.next_position_id;
    let booked_a = a.with_booked(user, entry_price, amount);
    let booked_b = b.with_booked(user, entry_price, amount);
    lemma_badges_are_local(booked_a, booked_b, user);
    lemma_badges_are_local(booked_a.with_newcomer(user), booked_b.with_newcomer(user), user);
    if user_portfolio::open_result(a, user, entry_price, amount) is Ok {
        let next_a = user_portfolio::open_state(a, user, entry_price, amount);
        assert(next_a.positions.remove(id) =~= a.positions.remove(id));
    }
}

/// `close_position` depends on the settings, on what the storage holds for the user and on the
/// record of the position: on states that agree there it returns the same and leaves the same. Every
/// other record, all opened ids and the settings stay as they were.
pub proof fn law_close_is_local(
    a: PortfolioState,
    b: PortfolioState,
    user: Address,
    id: u64,
    realized_pnl: i128,
    now: u64,
)
    requires
        agree(a, b, user),
        a.closed_by(user) == b.closed_by(user),
        a.positions.get(id) == b.positions.get(id),
    ensures
        user_portfolio::close_result(a, user, id) == user_portfolio::close_result(b, user, id),
        user_portfolio::close_result(a, user, id) is Ok ==> ({
            let next_a = user_portfolio::close_state(a, user, id, realized_pnl, now);
            let next_b = user_portfolio::close_state(b, user, id, realized_pnl, now);
            &&& agree(next_a, next_b, user)
            &&& next_a.closed_by(user) == next_b.closed_by(user)
            &&& next_a.opened == a.opened
            &&& next_a.settings == a.settings
            &&& next_a.positions.get(id) == next_b.positions.get(id)
            &&& next_a.positions.remove(id) == a.positions.remove(id)
        }),
{
    if user_portfolio::close_result(a, user, id) is Ok {
        let booked_a = a.with_closed(user, id, realized_pnl, now);
        let booked_b = b.with_closed(user, id, realized_pnl, now);
        assert(a.positions.get(id) == Some(a.positions[id]));
        assert(b.positions.get(id) == Some(b.positions[id]));
        lemma_badges_are_local(booked_a, booked_b, user);
        let next_a = user_portfolio::close_state(a, user, id, realized_pnl, now);
        assert(next_a.positions.remove(id) =~= a.positions.remove(id));
    }
}

/// The profit and loss of a user depends on the user's opened ids and their records alone.
pub proof fn law_pnl_is_local(
    a: PortfolioState,
    b: PortfolioState,
    user: Address,
    price: Option<i128>,
)
    requires
        a.opened_by(user) == b.opened_by(user),
        forall|id: u64| #[trigger]
            a.opened_by(user).contains(id) ==> a.positions.get(id) == b.positions.get(id),
    ensures
        queries::pnl_result(a, user, price) == queries::pnl_result(b, user, price),
{
    let ids = a.opened_by(user);
    lemma_same_records(a, b, ids);
    if a.has_records(ids) {
        assert(a.positions_of(user) =~= b.positions_of(user));
    }
}

/// A page of a user's history depends on the user's closed ids and the records of the page alone.
pub proof fn law_page_is_local(
    a: PortfolioState,
    b: PortfolioState,
    user: Address,
    cursor: Option<u64>,
    limit: u32,
)
    requires
        a.closed_by(user) == b.closed_by(user),
        forall|id: u64| #[trigger]
            queries::page_ids(a.closed_by(user), cursor, limit).contains(id) ==> a.positions.get(id)
                == b.positions.get(id),
    ensures
        ({
            let ids = queries::page_ids(a.closed_by(user), cursor, limit);
            &&& ids == queries::page_ids(b.closed_by(user), cursor, limit)
            &&& a.has_records(ids) == b.has_records(ids)
            &&& a.has_records(ids) ==> a.trades(ids) == b.trades(ids)
        }),
{
    let ids = queries::page_ids(a.closed_by(user), cursor, limit);
    lemma_same_records(a, b, ids);
    if a.has_records(ids) {
        assert(a.trades(ids) =~= b.trades(ids));
    }
}

/// Two states that agree on each of `ids` hold the same records of them.
proof fn lemma_same_records(a: PortfolioState, b: PortfolioState, ids: Seq<u64>)
    requires
        forall|id: u64| #[trigger]
            ids.contains(id) ==> a.positions.get(id) == b.positions.get(id),
    ensures
        a.has_records(ids) == b.has_records(ids),
        a.has_records(ids) ==> forall|i: int|
            0 <= i < ids.len() ==> a.positions[#[trigger] ids[i]] == b.positions[ids[i]],
{
    assert forall|i: int| 0 <= i < ids.len() implies a.positions.get(#[trigger] ids[i])
        == b.positions.get(ids[i]) by {
        assert(ids.contains(ids[i]));
    }
    if a.has_records(ids) {
        assert forall|i: int| 0 <= i < ids.len() implies a.positions[#[trigger] ids[i]]
            == b.positions[ids[i]] by {
            assert(a.positions.get(ids[i]) == b.positions.get(ids[i]));
        }
    }
}

} // verus!
