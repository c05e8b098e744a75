//! What can be asked of a portfolio: its profit and loss, and its closed trades.

use vstd::prelude::*;

use crate::address::Address;
use crate::id_list::IdList;
use crate::user_portfolio::{
    PnlSummary, PortfolioError, PortfolioState, PortfolioStorage, Position, PositionStatus,
    TradeHistoryEntry,
};

verus! {

/// Basis points in the whole.
pub const ROI_DENOM: i128 = 10_000;

/// The most trades that a page holds.
pub const MAX_PAGE: u32 = 50;

// Profit and loss.

/// Whether `x` is an `i128`.
pub open spec fn fits(x: int) -> bool {
    i128::MIN <= x <= i128::MAX
}

/// The quotient of `x` and `d`, rounded towards zero.
pub open spec fn quotient(x: int, d: int) -> int {
    let magnitude = (if x < 0 {
        -x
    } else {
        x
    }) / (if d < 0 {
        -d
    } else {
        d
    });
    if (x < 0) == (d < 0) {
        magnitude
    } else {
        -magnitude
    }
}

/// The profit that the closed positions realized.
pub open spec fn realized(positions: Seq<Position>) -> int
    decreases positions.len(),
{
    if positions.len() == 0 {
        0
    } else {
        realized(positions.drop_last()) + (match positions.last().status {
            PositionStatus::Open => 0,
            PositionStatus::Closed => positions.last().realized_pnl as int,
        })
    }
}

/// What was put into the positions, open or closed.
pub open spec fn invested(positions: Seq<Position>) -> int
    decreases positions.len(),
{
    if positions.len() == 0 {
        0
    } else {
        invested(positions.drop_last()) + positions.last().amount
    }
}

/// What an open position would bring at `price`: its amount times the growth of the price.
pub open spec fn gain(position: Position, price: i128) -> int {
    quotient((price - position.entry_price) * position.amount, position.entry_price as int)
}

/// What the open positions would bring at `price`.
pub open spec fn unrealized(positions: Seq<Position>, price: i128) -> int
    decreases positions.len(),
{
    if positions.len() == 0 {
        0
    } else {
        unrealized(positions.drop_last(), price) + (match positions.last().status {
            PositionStatus::Open => gain(positions.last(), price),
            PositionStatus::Closed => 0,
        })
    }
}

/// Whether there is an open position.
pub open spec fn any_open(positions: Seq<Position>) -> bool {
    exists|i: int| 0 <= i < positions.len() && (#[trigger] positions[i]).status is Open
}

/// The unrealized part of the summary: unknown only if there are open positions and no price.
pub open spec fn unrealized_part(positions: Seq<Position>, price: Option<i128>) -> Option<int> {
    if any_open(positions) {
        match price {
            None => None,
            Some(price) => Some(unrealized(positions, price)),
        }
    } else {
        Some(0)
    }
}

/// The realized and, where it is known, the unrealized profit.
pub open spec fn total(positions: Seq<Position>, price: Option<i128>) -> int {
    realized(positions) + (match unrealized_part(positions, price) {
        None => 0,
        Some(part) => part,
    })
}

/// The total as a share of what was invested, in basis points rounded towards zero; 0 if nothing
/// was invested.
pub open spec fn roi(positions: Seq<Position>, price: Option<i128>) -> int {
    if invested(positions) == 0 {
        0
    } else {
        quotient(total(positions, price) * ROI_DENOM, invested(positions))
    }
}

/// Whether the sums over `positions` are numbers of their type.
pub open spec fn sums_fit(positions: Seq<Position>, price: Option<i128>) -> bool {
    &&& fits(realized(positions))
    &&& fits(invested(positions))
    &&& price matches Some(price) ==> fits(unrealized(positions, price))
}

/// Whether the gain of `position` at `price` can be computed.
pub open spec fn gain_fits(position: Position, price: i128) -> bool {
    &&& position.entry_price != 0
    &&& fits(price - position.entry_price)
    &&& fits((price - position.entry_price) * position.amount)
    &&& fits(gain(position, price))
}

/// Whether the summary can be computed: every number on the way is one of its type.
pub open spec fn computable(positions: Seq<Position>, price: Option<i128>) -> bool {
    &&& forall|n: int| 0 <= n <= positions.len() ==> sums_fit(#[trigger] positions.take(n), price)
    &&& price matches Some(price) ==> forall|i: int|
        0 <= i < positions.len() && (#[trigger] positions[i]).status is Open ==> gain_fits(
            positions[i],
            price,
        )
    &&& fits(total(positions, price))
    &&& invested(positions) != 0 ==> fits(total(positions, price) * ROI_DENOM)
    &&& i32::MIN <= roi(positions, price) <= i32::MAX
}

/// The summary of `positions` at `price`.
pub open spec fn summary(positions: Seq<Position>, price: Option<i128>) -> PnlSummary {
    PnlSummary {
        realized_pnl: realized(positions) as i128,
        unrealized_pnl: match unrealized_part(positions, price) {
            None => None,
            Some(part) => Some(part as i128),
        },
        total_pnl: total(positions, price) as i128,
        roi_bps: roi(positions, price) as i32,
    }
}

impl PortfolioState {
    /// Whether each of `ids` has a record.
    pub open spec fn has_records(self, ids: Seq<u64>) -> bool {
        forall|i: int| 0 <= i < ids.len() ==> self.positions.contains_key(#[trigger] ids[i])
    }

    /// The records of `ids`.
    pub open spec fn records(self, ids: Seq<u64>) -> Seq<Position> {
        ids.map_values(|id: u64| self.positions[id])
    }

    /// The positions of `user`, in the order in which they were opened.
    pub open spec fn positions_of(self, user: Address) -> Seq<Position> {
        self.records(self.opened_by(user))
    }
}

/// What `get_pnl` returns.
pub open spec fn pnl_result(state: PortfolioState, user: Address, price: Option<i128>) -> Result<
    PnlSummary,
    PortfolioError,
> {
    if !state.has_records(state.opened_by(user)) {
        Err(PortfolioError::PositionMissing)
    } else if !computable(state.positions_of(user), price) {
        Err(PortfolioError::Overflow)
    } else {
        Ok(summary(state.positions_of(user), price))
    }
}

/// The quotient that `checked_div` computes.
fn divide(x: i128, d: i128) -> (result: Option<i128>)
    ensures
        match result {
            Some(q) => d != 0 && q == quotient(x as int, d as int),
            None => d == 0 || !fits(quotient(x as int, d as int)),
        },
{
    x.checked_div(d)
}

/// The gain of a position at `price`, if it can be computed.
fn position_gain(position: &Position, price: i128) -> (result: Option<i128>)
    ensures
        match result {
            Some(g) => gain_fits(*position, price) && g == gain(*position, price),
            None => !gain_fits(*position, price),
        },
{
    match price.checked_sub(position.entry_price) {
        None => None,
        Some(growth) => match growth.checked_mul(position.amount) {
            None => None,
            Some(product) => divide(product, position.entry_price),
        },
    }
}

/// Without open positions the price does not matter.
pub proof fn lemma_none_open(positions: Seq<Position>, price: i128)
    requires
        !any_open(positions),
    ensures
        unrealized(positions, price) == 0,
    decreases positions.len(),
{
    if positions.len() > 0 {
        let rest = positions.drop_last();
        assert(!any_open(rest)) by {
            assert(forall|i: int| 0 <= i < rest.len() ==> rest[i] == #[trigger] positions[i]);
        }
        lemma_none_open(rest, price);
        assert(!(positions[positions.len() - 1].status is Open));
    }
}

/// The summary of `positions` at `price`, or `None` if a number does not fit its type.
pub fn pnl_summary(positions: &Vec<Position>, price: Option<i128>) -> (result: Option<PnlSummary>)
    ensures
        match result {
            Some(s) => computable(positions@, price) && s == summary(positions@, price),
            None => !computable(positions@, price),
        },
{
    let ghost all = positions@;
    let mut realized_sum: i128 = 0;
    let mut unrealized_sum: i128 = 0;
    let mut invested_sum: i128 = 0;
    let mut has_open: bool = false;
    let mut i: usize = 0;
    assert(all.take(0) =~= Seq::<Position>::empty());
    while i < positions.len()
        invariant
            all == positions@,
            i <= all.len(),
            realized_sum == realized(all.take(i as int)),
            invested_sum == invested(all.take(i as int)),
            price matches Some(p) ==> unrealized_sum == unrealized(all.take(i as int), p),
            price is None ==> unrealized_sum == 0,
            has_open == (exists|j: int| 0 <= j < i && (#[trigger] all[j]).status is Open),
            forall|n: int| 0 <= n <= i ==> sums_fit(#[trigger] all.take(n), price),
            price matches Some(p) ==> forall|j: int|
                0 <= j < i && (#[trigger] all[j]).status is Open ==> gain_fits(all[j], p),
        decreases all.len() - i,
    {
        let position: Position = positions[i];
        let ghost next = all.take(i + 1);
        proof {
            assert(next.drop_last() =~= all.take(i as int));
            assert(next.last() == position);
            assert(computable(all, price) ==> sums_fit(next, price));
        }
        invested_sum = match invested_sum.checked_add(position.amount) {
            None => return None,
            Some(sum) => sum,
        };
        match position.status {
            PositionStatus::Closed => {
                realized_sum = match realized_sum.checked_add(position.realized_pnl) {
                    None => return None,
                    Some(sum) => sum,
                };
            },
            PositionStatus::Open => {
                has_open = true;
                assert(all[i as int].status is Open);
                if let Some(p) = price {
                    let g: i128 = match position_gain(&position, p) {
                        None => return None,
                        Some(g) => g,
                    };
                    unrealized_sum = match unrealized_sum.checked_add(g) {
                        None => return None,
                        Some(sum) => sum,
                    };
                }
            },
        }
        i = i + 1;
    }
    proof {
        assert(all.take(i as int) =~= all);
        assert(has_open == any_open(all));
        if let Some(p) = price {
            if !has_open {
                lemma_none_open(all, p);
            }
        }
    }
    let unrealized_pnl: Option<i128> = if has_open && price.is_none() {
        None
    } else {
        Some(unrealized_sum)
    };
    let total_pnl: i128 = match realized_sum.checked_add(unrealized_sum) {
        None => return None,
        Some(sum) => sum,
    };
    assert(total_pnl == total(all, price));
    let roi_wide: i128 = if invested_sum == 0 {
        0
    } else {
        match total_pnl.checked_mul(ROI_DENOM) {
            None => return None,
            Some(scaled) => match divide(scaled, invested_sum) {
                None => return None,
                Some(q) => q,
            },
        }
    };
    if roi_wide < i32::MIN as i128 || roi_wide > i32::MAX as i128 {
        return None;
    }
    Some(
        PnlSummary {
            realized_pnl: realized_sum,
            unrealized_pnl,
            total_pnl,
            roi_bps: roi_wide as i32,
        },
    )
}

/// The records of `ids`, if each of them has one.
fn collect_records(storage: &PortfolioStorage, ids: &IdList) -> (result: Option<Vec<Position>>)
    ensures
        match result {
            Some(positions) => storage@.has_records(ids@) && positions@ == storage@.records(ids@),
            None => !storage@.has_records(ids@),
        },
{
    let mut positions: Vec<Position> = Vec::new();
    let len: u32 = ids.len();
    let mut i: u32 = 0;
    while i < len
        invariant
            len == ids@.len(),
            i <= len,
            positions@.len() == i,
            forall|j: int|
                0 <= j < i ==> storage@.positions.contains_key(#[trigger] ids@[j])
                    && positions@[j] == storage@.positions[ids@[j]],
        decreases len - i,
    {
        if let Some(id) = ids.get(i) {
            match storage.positions.get(id) {
                None => {
                    assert(!storage@.positions.contains_key(ids@[i as int]));
                    return None;
                },
                Some(position) => positions.push(*position),
            }
        }
        i = i + 1;
    }
    assert(positions@ =~= storage@.records(ids@));
    Some(positions)
}

/// The profit and loss of `user`, where `price` is what the oracle says, or `None` if it says
/// nothing.
pub fn compute_get_pnl(storage: &PortfolioStorage, user: Address, price: Option<i128>) -> (result:
    Result<PnlSummary, PortfolioError>)
    ensures
        result == pnl_result(storage@, user, price),
{
    let positions: Vec<Position> = match storage.opened.get(user) {
        None => {
            let none: Vec<Position> = Vec::new();
            assert(none@ =~= storage@.positions_of(user));
            none
        },
        Some(ids) => match collect_records(storage, ids) {
            None => return Err(PortfolioError::PositionMissing),
            Some(positions) => positions,
        },
    };
    match pnl_summary(&positions, price) {
        None => Err(PortfolioError::Overflow),
        Some(s) => Ok(s),
    }
}

// Closed trades.

/// Where `id` stands last in `ids`.
pub open spec fn last_place(ids: Seq<u64>, id: u64) -> int {
    choose|i: int|
        0 <= i < ids.len() && (#[trigger] ids[i]) == id && forall|j: int|
            i < j < ids.len() ==> (#[trigger] ids[j]) != id
}

/// Those of `ids` that come before `cursor`: all of them without a cursor, none if the cursor is
/// not among them.
pub open spec fn before(ids: Seq<u64>, cursor: Option<u64>) -> Seq<u64> {
    match cursor {
        None => ids,
        Some(id) => if ids.contains(id) {
            ids.take(last_place(ids, id))
        } else {
            Seq::<u64>::empty()
        },
    }
}

/// How many trades a page holds if `rest` trades are left.
pub open spec fn page_len(rest: nat, limit: u32) -> nat {
    let most = if limit < MAX_PAGE {
        limit
    } else {
        MAX_PAGE
    };
    if rest < most {
        rest
    } else {
        most as nat
    }
}

/// The ids of a page: of those before the cursor the newest, newest first.
pub open spec fn page_ids(ids: Seq<u64>, cursor: Option<u64>, limit: u32) -> Seq<u64> {
    let rest = before(ids, cursor);
    Seq::new(page_len(rest.len(), limit), |i: int| rest[rest.len() - 1 - i])
}

/// A closed trade, as its record tells it.
pub open spec fn trade(id: u64, position: Position) -> TradeHistoryEntry {
    TradeHistoryEntry {
        trade_id: id,
        entry_price: position.entry_price,
        amount: position.amount,
        realized_pnl: position.realized_pnl,
        closed_at: position.closed_at,
    }
}

impl PortfolioState {
    /// The trades of `ids`.
    pub open spec fn trades(self, ids: Seq<u64>) -> Seq<TradeHistoryEntry> {
        ids.map_values(|id: u64| trade(id, self.positions[id]))
    }
}

/// How many of `ids` come before `cursor`.
fn count_before(ids: &IdList, cursor: Option<u64>) -> (rest: u32)
    ensures
        rest <= ids@.len(),
        before(ids@, cursor) == ids@.take(rest as int),
{
    let len: u32 = ids.len();
    let last: u64 = match cursor {
        None => {
            assert(ids@.take(len as int) =~= ids@);
            return len;
        },
        Some(id) => id,
    };
    let mut i: u32 = len;
    while i > 0
        invariant
            len == ids@.len(),
            i <= len,
            cursor == Some(last),
            forall|j: int| i <= j < len ==> (#[trigger] ids@[j]) != last,
        decreases i,
    {
        i = i - 1;
        if let Some(id) = ids.get(i) {
            if id == last {
                proof {
                    assert(ids@[i as int] == last);
                    assert(last_place(ids@, last) == i);
                }
                return i;
            }
        }
    }
    assert(ids@.take(0) =~= Seq::<u64>::empty());
    0
}

/// The ids of a page: of those before the cursor the newest, newest first; `limit` of them at most,
/// and never more than 50.
pub fn page_of_ids(ids: &IdList, cursor: Option<u64>, limit: u32) -> (page: Vec<u64>)
    ensures
        page@ == page_ids(ids@, cursor, limit),
{
    let rest: u32 = count_before(ids, cursor);
    let most: u32 = if limit < MAX_PAGE {
        limit
    } else {
        MAX_PAGE
    };
    let count: u32 = if rest < most {
        rest
    } else {
        most
    };
    let mut page: Vec<u64> = Vec::new();
    let mut i: u32 = 0;
    while i < count
        invariant
            count <= rest <= ids@.len(),
            i <= count,
            page@.len() == i,
            forall|j: int| 0 <= j < i ==> (#[trigger] page@[j]) == ids@[rest - 1 - j],
        decreases count - i,
    {
        if let Some(id) = ids.get(rest - 1 - i) {
            page.push(id);
        }
        i = i + 1;
    }
    assert(page@ =~= page_ids(ids@, cursor, limit));
    page
}

/// A page of the closed trades of `user`, newest first. `cursor` is the `trade_id` of the last
/// item from the prior page; a page holds `limit` trades at most, and never more than 50.
pub fn get_trade_history(
    storage: &PortfolioStorage,
    user: Address,
    cursor: Option<u64>,
    limit: u32,
) -> (result: Result<Vec<TradeHistoryEntry>, PortfolioError>)
    ensures
        ({
            let ids = page_ids(storage@.closed_by(user), cursor, limit);
            match result {
                Ok(page) => storage@.has_records(ids) && page@ == storage@.trades(ids),
                Err(error) => !storage@.has_records(ids) && error
                    == PortfolioError::PositionMissing,
            }
        }),
{
    let ids: Vec<u64> = match storage.closed.get(user) {
        None => Vec::new(),
        Some(list) => page_of_ids(list, cursor, limit),
    };
    assert(ids@ =~= page_ids(storage@.closed_by(user), cursor, limit));
    let mut page: Vec<TradeHistoryEntry> = Vec::new();
    let mut i: usize = 0;
    while i < ids.len()
        invariant
            i <= ids@.len(),
            ids@ == page_ids(storage@.closed_by(user), cursor, limit),
            page@.len() == i,
            forall|j: int|
                0 <= j < i ==> storage@.positions.contains_key(#[trigger] ids@[j]) && page@[j]
                    == trade(ids@[j], storage@.positions[ids@[j]]),
        decreases ids@.len() - i,
    {
        let id: u64 = ids[i];
        match storage.positions.get(id) {
            None => {
                assert(!storage@.positions.contains_key(ids@[i as int]));
                return Err(PortfolioError::PositionMissing);
            },
            Some(position) => page.push(
                TradeHistoryEntry {
                    trade_id: id,
                    entry_price: position.entry_price,
                    amount: position.amount,
                    realized_pnl: position.realized_pnl,
                    closed_at: position.closed_at,
                },
            ),
        }
        i = i + 1;
    }
    assert(page@ =~= storage@.trades(ids@));
    Ok(page)
}

} // verus!
