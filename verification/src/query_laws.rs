//! What holds of the answers of the user portfolio.

use vstd::prelude::*;

use crate::address::Address;
use crate::badges::BadgeType;
use crate::portfolio_laws;
use crate::queries;
use crate::queries::MAX_PAGE;
use crate::user_portfolio;
use crate::user_portfolio::{
    PnlSummary, PortfolioError, PortfolioState, Position, PositionStatus,
};

verus! {

// Closed trades.

/// A page never holds more trades than asked for, nor more than 50.
pub proof fn law_page_is_bounded(ids: Seq<u64>, cursor: Option<u64>, limit: u32)
    ensures
        queries::page_ids(ids, cursor, limit).len() <= limit,
        queries::page_ids(ids, cursor, limit).len() <= MAX_PAGE,
{
}

/// A page without a cursor begins at the newest id and goes back: it holds `limit` ids, or 50, or all
/// that there are, whichever is least.
pub proof fn law_first_page(ids: Seq<u64>, limit: u32)
    ensures
        ({
            let page = queries::page_ids(ids, None, limit);
            &&& page.len() <= limit
            &&& page.len() <= 50
            &&& page.len() <= ids.len()
            &&& page.len() == limit || page.len() == 50 || page.len() == ids.len()
            &&& forall|i: int|
                0 <= i < page.len() ==> (#[trigger] page[i]) == ids[ids.len() - 1 - i]
        }),
{
}

/// A page after the id at `at` begins at the id before it and goes back: it holds `limit` ids, or 50,
/// or all that stand before it, whichever is least.
pub proof fn law_page_after(ids: Seq<u64>, at: int, limit: u32)
    requires
        0 <= at < ids.len(),
        forall|j: int| at < j < ids.len() ==> (#[trigger] ids[j]) != ids[at],
    ensures
        ({
            let page = queries::page_ids(ids, Some(ids[at]), limit);
            &&& page.len() <= limit
            &&& page.len() <= 50
            &&& page.len() <= at
            &&& page.len() == limit || page.len() == 50 || page.len() == at
            &&& forall|i: int| 0 <= i < page.len() ==> (#[trigger] page[i]) == ids[at - 1 - i]
        }),
{
    assert(ids.contains(ids[at]));
    portfolio_laws::lemma_last_place(ids, ids[at]);
    assert(queries::last_place(ids, ids[at]) == at);
}

/// A page after an id that is not in the list is empty.
pub proof fn law_unknown_cursor_ends_history(ids: Seq<u64>, cursor: u64, limit: u32)
    requires
        forall|i: int| 0 <= i < ids.len() ==> (#[trigger] ids[i]) != cursor,
    ensures
        queries::page_ids(ids, Some(cursor), limit).len() == 0,
{
}

/// Every entry of a page, at any place, tells the trade of its id: with the price, the amount, the
/// profit and the close time of the record stored for it.
pub proof fn law_entries_tell_records(state: PortfolioState, ids: Seq<u64>, i: int)
    requires
        0 <= i < ids.len(),
    ensures
        ({
            let page = state.trades(ids);
            let record = state.positions[ids[i]];
            &&& page.len() == ids.len()
            &&& page[i].trade_id == ids[i]
            &&& page[i].entry_price == record.entry_price
            &&& page[i].amount == record.amount
            &&& page[i].realized_pnl == record.realized_pnl
            &&& page[i].closed_at == record.closed_at
        }),
{
}

/// Records are there if the storage has one for each id, and only then.
pub proof fn law_records_are_there(state: PortfolioState, ids: Seq<u64>)
    ensures
        state.has_records(ids) <==> forall|i: int|
            0 <= i < ids.len() ==> state.positions.dom().contains(#[trigger] ids[i]),
        state.trades(ids).len() == ids.len(),
{
}

/// The ids of `n` pages, one after another, each from where the page before it ended.
pub open spec fn pages(ids: Seq<u64>, cursor: Option<u64>, limit: u32, n: nat) -> Seq<u64>
    decreases n,
{
    let page = queries::page_ids(ids, cursor, limit);
    if n == 0 || page.len() == 0 {
        Seq::<u64>::empty()
    } else {
        page + pages(ids, Some(page.last()), limit, (n - 1) as nat)
    }
}

/// A page ends where the next one begins: what is left after the last trade of a page is what was
/// left before the page, without the page.
pub proof fn law_next_page_goes_on(ids: Seq<u64>, cursor: Option<u64>, limit: u32)
    requires
        ids.no_duplicates(),
        queries::page_ids(ids, cursor, limit).len() > 0,
    ensures
        ({
            let page = queries::page_ids(ids, cursor, limit);
            let rest = queries::before(ids, cursor);
            queries::before(ids, Some(page.last())) == rest.take(rest.len() - page.len())
        }),
{
    let page = queries::page_ids(ids, cursor, limit);
    let rest = queries::before(ids, cursor);
    let last = page.last();
    lemma_before(ids, cursor);
    let k = rest.len() - page.len();
    assert(last == rest[k]);
    assert(ids[k] == last);
    assert(ids.contains(last));
    portfolio_laws::lemma_last_place(ids, last);
    assert(queries::last_place(ids, last) == k);
    assert(ids.take(k) =~= rest.take(k));
}

/// What comes before a cursor is a beginning.
proof fn lemma_before(ids: Seq<u64>, cursor: Option<u64>)
    ensures
        queries::before(ids, cursor).len() <= ids.len(),
        queries::before(ids, cursor) == ids.take(queries::before(ids, cursor).len() as int),
{
    match cursor {
        None => {
            assert(ids.take(ids.len() as int) =~= ids);
        },
        Some(last) => {
            if ids.contains(last) {
                portfolio_laws::lemma_last_place(ids, last);
            } else {
                assert(ids.take(0) =~= Seq::<u64>::empty());
            }
        },
    }
}

/// Page after page, of any size, lists every trade before the cursor once, newest first.
pub proof fn law_pages_cover_history(ids: Seq<u64>, cursor: Option<u64>, limit: u32, n: nat)
    requires
        ids.no_duplicates(),
        limit > 0,
        n >= queries::before(ids, cursor).len(),
    ensures
        pages(ids, cursor, limit, n) == queries::before(ids, cursor).reverse(),
        cursor is None ==> pages(ids, cursor, limit, n) == ids.reverse(),
    decreases n,
{
    let page = queries::page_ids(ids, cursor, limit);
    let rest = queries::before(ids, cursor);
    if page.len() == 0 {
        assert(rest.len() == 0);
        assert(pages(ids, cursor, limit, n) =~= rest.reverse());
    } else {
        law_next_page_goes_on(ids, cursor, limit);
        law_pages_cover_history(ids, Some(page.last()), limit, (n - 1) as nat);
        let left = rest.take(rest.len() - page.len());
        assert(page + left.reverse() =~= rest.reverse());
    }
}

/// In a valid state the history of a user lists exactly the user's closed positions, each once.
pub proof fn law_history_is_closed_positions(state: PortfolioState, user: Address, limit: u32)
    requires
        portfolio_laws::valid(state),
        limit > 0,
    ensures
        ({
            let ids = state.closed_by(user);
            let history = pages(ids, None, limit, ids.len());
            &&& history == ids.reverse()
            &&& history.no_duplicates()
            &&& forall|id: u64| #[trigger]
                history.contains(id) <==> state.opened_by(user).contains(id)
                    && state.positions[id].status is Closed
        }),
{
    let ids = state.closed_by(user);
    let history = pages(ids, None, limit, ids.len());
    assert(user_portfolio::listed(state.closed, user).no_duplicates());
    law_pages_cover_history(ids, None, limit, ids.len());
    assert forall|id: u64| #[trigger] history.contains(id) <==> state.opened_by(user).contains(id)
        && state.positions[id].status is Closed by {
        if history.contains(id) {
            let i = choose|i: int| 0 <= i < history.len() && history[i] == id;
            assert(ids[ids.len() - 1 - i] == id);
        }
        if ids.contains(id) {
            let i = choose|i: int| 0 <= i < ids.len() && ids[i] == id;
            assert(history[ids.len() - 1 - i] == id);
        }
        assert(user_portfolio::listed(state.closed, user).contains(id) <==> ids.contains(id));
    }
}

/// A trade that was just closed heads the history, with the realized profit and the close time.
pub proof fn law_closed_trade_heads_history(
    state: PortfolioState,
    user: Address,
    id: u64,
    realized_pnl: i128,
    now: u64,
    limit: u32,
)
    requires
        user_portfolio::close_result(state, user, id) is Ok,
        limit > 0,
    ensures
        ({
            let after = user_portfolio::close_state(state, user, id, realized_pnl, now);
            let page = after.trades(queries::page_ids(after.closed_by(user), None, limit));
            &&& page.len() > 0
            &&& page[0].trade_id == id
            &&& page[0].entry_price == state.positions[id].entry_price
            &&& page[0].amount == state.positions[id].amount
            &&& page[0].realized_pnl == realized_pnl
            &&& page[0].closed_at == now
        }),
{
    portfolio_laws::lemma_with_badge(
        state.with_closed(user, id, realized_pnl, now),
        user,
        BadgeType::Top10Leaderboard,
    );
    let after = user_portfolio::close_state(state, user, id, realized_pnl, now);
    assert(after.closed_by(user) == state.closed_by(user).push(id));
}

// Profit and loss.

/// Whether `q` is `x / d` rounded towards zero.
pub open spec fn rounds_to(x: int, d: int, q: int) -> bool {
    &&& vstd::math::abs(q) * vstd::math::abs(d) <= vstd::math::abs(x) < (vstd::math::abs(q) + 1) * vstd::math::abs(d)
    &&& q > 0 ==> (x > 0 && d > 0) || (x < 0 && d < 0)
    &&& q < 0 ==> (x > 0 && d < 0) || (x < 0 && d > 0)
}

/// The quotient is the one number that rounds towards zero.
proof fn lemma_quotient(x: int, d: int, q: int)
    requires
        d != 0,
    ensures
        rounds_to(x, d, queries::quotient(x, d)),
        rounds_to(x, d, q) ==> q == queries::quotient(x, d),
{
    let size = vstd::math::abs(x) as int;
    let by = vstd::math::abs(d) as int;
    let magnitude = size / by;
    vstd::arithmetic::div_mod::lemma_fundamental_div_mod(size, by);
    vstd::arithmetic::div_mod::lemma_mod_bound(size, by);
    vstd::arithmetic::div_mod::lemma_div_pos_is_pos(size, by);
    assert(magnitude * by <= size < (magnitude + 1) * by) by (nonlinear_arith)
        requires
            size == by * magnitude + size % by,
            0 <= size % by < by,
    ;
    assert(vstd::math::abs(queries::quotient(x, d)) == magnitude);
    if magnitude > 0 {
        assert(size > 0) by (nonlinear_arith)
            requires
                magnitude > 0,
                by > 0,
                magnitude * by <= size,
        ;
    }
    if rounds_to(x, d, q) {
        let m = vstd::math::abs(q) as int;
        assert(m * by <= size < (m + 1) * by);
        assert(0 <= size - m * by < by) by (nonlinear_arith)
            requires
                m * by <= size < (m + 1) * by,
        ;
        vstd::arithmetic::div_mod::lemma_fundamental_div_mod_converse(size, by, m, size - m * by);
        assert(m == magnitude);
    }
}

/// The gain of a position is its amount times the growth of the price over the entry price, rounded
/// towards zero: it is a gain where the price has risen and a loss where it has fallen.
pub proof fn law_gain_follows_price(position: Position, price: i128)
    requires
        position.entry_price > 0,
        position.amount >= 0,
    ensures
        ({
            let g = queries::gain(position, price);
            let growth = price - position.entry_price;
            &&& vstd::math::abs(g) * position.entry_price <= vstd::math::abs(growth) * position.amount
            &&& vstd::math::abs(growth) * position.amount < (vstd::math::abs(g) + 1) * position.entry_price
            &&& g > 0 ==> price > position.entry_price
            &&& g < 0 ==> price < position.entry_price
        }),
{
    let growth = price - position.entry_price;
    let amount = position.amount as int;
    lemma_quotient(growth * amount, position.entry_price as int, 0);
    assert(vstd::math::abs(growth * amount) == vstd::math::abs(growth) * amount) by (nonlinear_arith)
        requires
            amount >= 0,
    ;
    assert(growth * amount > 0 ==> growth > 0) by (nonlinear_arith)
        requires
            amount >= 0,
    ;
    assert(growth * amount < 0 ==> growth < 0) by (nonlinear_arith)
        requires
            amount >= 0,
    ;
}

/// The sum of some numbers.
pub open spec fn sum(numbers: Seq<int>) -> int
    decreases numbers.len(),
{
    if numbers.len() == 0 {
        0
    } else {
        sum(numbers.drop_last()) + numbers.last()
    }
}

/// A bill of positions, line by line: the profit of each closed one, the amount of each, and at a
/// price the gain of each open one.
pub struct Bill {
    pub profits: Seq<int>,
    pub amounts: Seq<int>,
    pub gains: Seq<int>,
}

/// Whether `gain` is what a position would bring: its amount times the growth of the price over the
/// entry price, rounded towards zero; nothing without a price or once it is closed.
pub open spec fn is_gain(position: Position, price: Option<i128>, gain: int) -> bool {
    if position.status is Open && price is Some {
        &&& position.entry_price != 0
        &&& rounds_to(
            (price->0 - position.entry_price) * position.amount,
            position.entry_price as int,
            gain,
        )
    } else {
        gain == 0
    }
}

/// Whether `bill` is the bill of `positions`.
pub open spec fn bills(bill: Bill, positions: Seq<Position>, price: Option<i128>) -> bool {
    &&& bill.profits.len() == positions.len()
    &&& bill.amounts.len() == positions.len()
    &&& bill.gains.len() == positions.len()
    &&& forall|i: int|
        0 <= i < positions.len() ==> (#[trigger] bill.profits[i]) == (
        if positions[i].status is Closed {
            positions[i].realized_pnl as int
        } else {
            0
        })
    &&& forall|i: int|
        0 <= i < positions.len() ==> (#[trigger] bill.amounts[i]) == positions[i].amount
    &&& forall|i: int|
        0 <= i < positions.len() ==> is_gain(positions[i], price, #[trigger] bill.gains[i])
}

/// Positions have a bill, at every price, if each open one has an entry price; and a bill has a
/// return on what was invested.
pub proof fn law_bill_is_there(positions: Seq<Position>, price: Option<i128>) -> (bill: (Bill, int))
    requires
        forall|i: int|
            0 <= i < positions.len() && (#[trigger] positions[i]).status is Open
                ==> positions[i].entry_price != 0,
    ensures
        bills(bill.0, positions, price),
        if sum(bill.0.amounts) == 0 {
            bill.1 == 0
        } else {
            rounds_to(
                (sum(bill.0.profits) + sum(bill.0.gains)) * 10_000,
                sum(bill.0.amounts),
                bill.1,
            )
        },
{
    let lines = Bill {
        profits: Seq::new(
            positions.len(),
            |i: int|
                if positions[i].status is Closed {
                    positions[i].realized_pnl as int
                } else {
                    0
                },
        ),
        amounts: Seq::new(positions.len(), |i: int| positions[i].amount as int),
        gains: Seq::new(
            positions.len(),
            |i: int|
                if positions[i].status is Open && price is Some {
                    queries::quotient(
                        (price->0 - positions[i].entry_price) * positions[i].amount,
                        positions[i].entry_price as int,
                    )
                } else {
                    0
                },
        ),
    };
    assert forall|i: int| 0 <= i < positions.len() implies is_gain(
        positions[i],
        price,
        #[trigger] lines.gains[i],
    ) by {
        if positions[i].status is Open && price is Some {
            lemma_quotient(
                (price->0 - positions[i].entry_price) * positions[i].amount,
                positions[i].entry_price as int,
                0,
            );
        }
    }
    let scaled = (sum(lines.profits) + sum(lines.gains)) * 10_000;
    if sum(lines.amounts) == 0 {
        (lines, 0)
    } else {
        lemma_quotient(scaled, sum(lines.amounts), 0);
        (lines, queries::quotient(scaled, sum(lines.amounts)))
    }
}

/// Whether the numbers on the way to a summary are `i128`s, and the return `roi` an `i32`.
pub open spec fn bill_fits(
    bill: Bill,
    positions: Seq<Position>,
    price: Option<i128>,
    roi: int,
) -> bool {
    let total = sum(bill.profits) + sum(bill.gains);
    &&& forall|n: int|
        0 <= n <= positions.len() ==> i128::MIN <= sum(#[trigger] bill.profits.take(n)) <= i128::MAX
    &&& forall|n: int|
        0 <= n <= positions.len() ==> i128::MIN <= sum(#[trigger] bill.amounts.take(n)) <= i128::MAX
    &&& forall|n: int|
        0 <= n <= positions.len() ==> i128::MIN <= sum(#[trigger] bill.gains.take(n)) <= i128::MAX
    &&& price matches Some(p) ==> forall|i: int|
        0 <= i < positions.len() && (#[trigger] positions[i]).status is Open ==> {
            let growth = p - positions[i].entry_price;
            &&& i128::MIN <= growth <= i128::MAX
            &&& i128::MIN <= growth * positions[i].amount <= i128::MAX
            &&& i128::MIN <= bill.gains[i] <= i128::MAX
        }
    &&& i128::MIN <= total <= i128::MAX
    &&& sum(bill.amounts) != 0 ==> i128::MIN <= total * 10_000 <= i128::MAX
    &&& i32::MIN <= roi <= i32::MAX
}

/// The sums over positions are those over the lines of their bill.
proof fn lemma_sums(bill: Bill, positions: Seq<Position>, price: Option<i128>)
    requires
        bills(bill, positions, price),
    ensures
        queries::realized(positions) == sum(bill.profits),
        queries::invested(positions) == sum(bill.amounts),
        price matches Some(p) ==> queries::unrealized(positions, p) == sum(bill.gains),
        price is None ==> sum(bill.gains) == 0,
        !queries::any_open(positions) ==> sum(bill.gains) == 0,
    decreases positions.len(),
{
    if positions.len() > 0 {
        let n = positions.len() - 1;
        let front = positions.drop_last();
        let shorter = Bill {
            profits: bill.profits.drop_last(),
            amounts: bill.amounts.drop_last(),
            gains: bill.gains.drop_last(),
        };
        assert(bills(shorter, front, price)) by {
            assert forall|i: int| 0 <= i < front.len() implies is_gain(
                front[i],
                price,
                #[trigger] shorter.gains[i],
            ) by {
                assert(shorter.gains[i] == bill.gains[i]);
            }
            assert forall|i: int| 0 <= i < front.len() implies (#[trigger] shorter.profits[i]) == (
            if front[i].status is Closed {
                front[i].realized_pnl as int
            } else {
                0
            }) by {
                assert(shorter.profits[i] == bill.profits[i]);
            }
            assert forall|i: int| 0 <= i < front.len() implies (#[trigger] shorter.amounts[i])
                == front[i].amount by {
                assert(shorter.amounts[i] == bill.amounts[i]);
            }
        }
        lemma_sums(shorter, front, price);
        assert(bill.profits[n] == bill.profits.last());
        assert(bill.amounts[n] == bill.amounts.last());
        assert(bill.gains[n] == bill.gains.last());
        let last = positions.last();
        if let Some(p) = price {
            if last.status is Open {
                lemma_quotient(
                    (p - last.entry_price) * last.amount,
                    last.entry_price as int,
                    bill.gains[n],
                );
            }
        }
        if !queries::any_open(positions) {
            assert(!(positions[n].status is Open));
            assert(!queries::any_open(front)) by {
                assert(forall|i: int| 0 <= i < front.len() ==> front[i] == #[trigger] positions[i]);
            }
        }
    }
}

/// A part of a bill is the bill of a part.
proof fn lemma_part(bill: Bill, positions: Seq<Position>, price: Option<i128>, n: int)
    requires
        bills(bill, positions, price),
        0 <= n <= positions.len(),
    ensures
        bills(
            Bill {
                profits: bill.profits.take(n),
                amounts: bill.amounts.take(n),
                gains: bill.gains.take(n),
            },
            positions.take(n),
            price,
        ),
{
    let part = Bill {
        profits: bill.profits.take(n),
        amounts: bill.amounts.take(n),
        gains: bill.gains.take(n),
    };
    let front = positions.take(n);
    assert forall|i: int| 0 <= i < front.len() implies is_gain(
        front[i],
        price,
        #[trigger] part.gains[i],
    ) by {
        assert(part.gains[i] == bill.gains[i]);
    }
    assert forall|i: int| 0 <= i < front.len() implies (#[trigger] part.profits[i]) == (
    if front[i].status is Closed {
        front[i].realized_pnl as int
    } else {
        0
    }) by {
        assert(part.profits[i] == bill.profits[i]);
    }
    assert forall|i: int| 0 <= i < front.len() implies (#[trigger] part.amounts[i])
        == front[i].amount by {
        assert(part.amounts[i] == bill.amounts[i]);
    }
}

/// The summary of positions is the sum of their bill: the profits of the closed ones, the gains of
/// the open ones, which are unknown only if there are open ones and no price, both together, and
/// that as a share of all amounts, in basis points rounded towards zero. It can be computed if and
/// only if the numbers on the way fit their types.
pub proof fn law_summary_adds_up(
    bill: Bill,
    positions: Seq<Position>,
    price: Option<i128>,
    roi: int,
)
    requires
        bills(bill, positions, price),
        if sum(bill.amounts) == 0 {
            roi == 0
        } else {
            rounds_to((sum(bill.profits) + sum(bill.gains)) * 10_000, sum(bill.amounts), roi)
        },
    ensures
        queries::computable(positions, price) <==> bill_fits(bill, positions, price, roi),
        bill_fits(bill, positions, price, roi) ==> ({
            let summary = queries::summary(positions, price);
            let open = exists|i: int|
                0 <= i < positions.len() && (#[trigger] positions[i]).status is Open;
            &&& summary.realized_pnl == sum(bill.profits)
            &&& summary.unrealized_pnl is None <==> open && price is None
            &&& summary.unrealized_pnl matches Some(part) ==> part == sum(bill.gains)
            &&& summary.total_pnl == sum(bill.profits) + sum(bill.gains)
            &&& summary.roi_bps == roi
        }),
{
    let total = sum(bill.profits) + sum(bill.gains);
    lemma_sums(bill, positions, price);
    assert(positions.take(positions.len() as int) =~= positions);
    if let Some(p) = price {
        if !queries::any_open(positions) {
            queries::lemma_none_open(positions, p);
        }
    }
    assert(queries::total(positions, price) == total);
    if sum(bill.amounts) != 0 {
        lemma_quotient(total * 10_000, sum(bill.amounts), roi);
    }
    assert(queries::roi(positions, price) == roi);
    assert forall|n: int| 0 <= n <= positions.len() implies queries::sums_fit(
        #[trigger] positions.take(n),
        price,
    ) == (queries::fits(sum(bill.profits.take(n))) && queries::fits(sum(bill.amounts.take(n)))
        && queries::fits(sum(bill.gains.take(n)))) by {
        lemma_part(bill, positions, price, n);
        lemma_sums(
            Bill {
                profits: bill.profits.take(n),
                amounts: bill.amounts.take(n),
                gains: bill.gains.take(n),
            },
            positions.take(n),
            price,
        );
    }
    if let Some(p) = price {
        assert forall|i: int| 0 <= i < positions.len() && (#[trigger] positions[i]).status is Open implies
            queries::gain(positions[i], p) == bill.gains[i] && positions[i].entry_price != 0 by {
            assert(is_gain(positions[i], price, bill.gains[i]));
            lemma_quotient(
                (p - positions[i].entry_price) * positions[i].amount,
                positions[i].entry_price as int,
                bill.gains[i],
            );
        }
    }
    if queries::computable(positions, price) {
        assert forall|n: int| 0 <= n <= positions.len() implies {
            &&& i128::MIN <= sum(#[trigger] bill.profits.take(n)) <= i128::MAX
        } by {
            assert(queries::sums_fit(positions.take(n), price));
        }
        assert forall|n: int| 0 <= n <= positions.len() implies {
            &&& i128::MIN <= sum(#[trigger] bill.amounts.take(n)) <= i128::MAX
        } by {
            assert(queries::sums_fit(positions.take(n), price));
        }
        assert forall|n: int| 0 <= n <= positions.len() implies {
            &&& i128::MIN <= sum(#[trigger] bill.gains.take(n)) <= i128::MAX
        } by {
            assert(queries::sums_fit(positions.take(n), price));
        }
    }
}

/// At a price, an open position without an entry price has no gain, and the summary none either.
pub proof fn law_gain_needs_entry_price(positions: Seq<Position>, price: i128, i: int)
    requires
        0 <= i < positions.len(),
        positions[i].status is Open,
        positions[i].entry_price == 0,
    ensures
        !queries::computable(positions, Some(price)),
{
}

/// `get_pnl` sums up the bill of the positions that the user opened, in order. It fails if a record
/// of them is missing, or if a number on the way does not fit its type, and only then.
pub proof fn law_pnl_adds_up(
    state: PortfolioState,
    user: Address,
    ids: Seq<u64>,
    positions: Seq<Position>,
    bill: Bill,
    price: Option<i128>,
    roi: int,
)
    requires
        bills(bill, positions, price),
        if sum(bill.amounts) == 0 {
            roi == 0
        } else {
            rounds_to((sum(bill.profits) + sum(bill.gains)) * 10_000, sum(bill.amounts), roi)
        },
        ids == (if state.opened.contains_key(user) {
            state.opened[user]
        } else {
            Seq::<u64>::empty()
        }),
        positions.len() == ids.len(),
        forall|i: int|
            0 <= i < ids.len() ==> state.positions.contains_key(#[trigger] ids[i]) && positions[i]
                == state.positions[ids[i]],
    ensures
        bill_fits(bill, positions, price, roi) ==> ({
            let open = exists|i: int|
                0 <= i < positions.len() && (#[trigger] positions[i]).status is Open;
            queries::pnl_result(state, user, price) matches Ok(summary) && {
                &&& summary.realized_pnl == sum(bill.profits)
                &&& summary.unrealized_pnl is None <==> open && price is None
                &&& summary.unrealized_pnl matches Some(part) ==> part == sum(bill.gains)
                &&& summary.total_pnl == sum(bill.profits) + sum(bill.gains)
                &&& summary.roi_bps == roi
            }
        }),
        !bill_fits(bill, positions, price, roi) ==> queries::pnl_result(state, user, price) == Err::<
            PnlSummary,
            PortfolioError,
        >(PortfolioError::Overflow),
{
    assert(state.opened_by(user) == ids);
    assert(state.has_records(ids));
    assert(state.positions_of(user) =~= positions);
    law_summary_adds_up(bill, positions, price, roi);
}

/// `get_pnl` reports a missing record as such, and reports none where each id has one.
pub proof fn law_pnl_needs_records(state: PortfolioState, user: Address, price: Option<i128>)
    ensures
        queries::pnl_result(state, user, price) == Err::<PnlSummary, PortfolioError>(
            PortfolioError::PositionMissing,
        ) <==> (state.opened.contains_key(user) && exists|i: int|
            0 <= i < state.opened[user].len() && !state.positions.contains_key(
                #[trigger] state.opened[user][i],
            )),
{
}

/// Without open positions the price does not matter: the unrealized part is 0, and the total is
/// what was realized.
pub proof fn law_all_closed(positions: Seq<Position>, price: Option<i128>)
    requires
        !queries::any_open(positions),
    ensures
        queries::unrealized_part(positions, price) == Some(0int),
        queries::total(positions, price) == queries::realized(positions),
        queries::roi(positions, price) == queries::roi(positions, None),
        queries::summary(positions, price).unrealized_pnl == Some(0i128),
        queries::summary(positions, price).total_pnl == queries::summary(
            positions,
            price,
        ).realized_pnl,
{
}

/// Without a price and with open positions the unrealized part is unknown, and the total is what
/// was realized.
pub proof fn law_no_price(positions: Seq<Position>)
    requires
        queries::any_open(positions),
    ensures
        queries::unrealized_part(positions, None) is None,
        queries::total(positions, None) == queries::realized(positions),
        queries::summary(positions, None).unrealized_pnl is None,
        queries::summary(positions, None).total_pnl == queries::summary(
            positions,
            None,
        ).realized_pnl,
{
}

/// With a price the total is the sum of both parts.
pub proof fn law_total_is_sum(positions: Seq<Position>, price: i128)
    ensures
        queries::unrealized_part(positions, Some(price)) == Some(
            queries::unrealized(positions, price),
        ),
        queries::total(positions, Some(price)) == queries::realized(positions)
            + queries::unrealized(positions, price),
{
    if !queries::any_open(positions) {
        queries::lemma_none_open(positions, price);
    }
}

/// A new position adds its amount to what was invested and its gain to the unrealized profit, and
/// leaves the realized profit alone.
pub proof fn law_open_adds_position(
    state: PortfolioState,
    user: Address,
    entry_price: i128,
    amount: i128,
    price: i128,
)
    requires
        portfolio_laws::valid(state),
        user_portfolio::open_result(state, user, entry_price, amount) is Ok,
    ensures
        ({
            let before = state.positions_of(user);
            let after = user_portfolio::open_state(
                state,
                user,
                entry_price,
                amount,
            ).positions_of(user);
            let position = Position {
                entry_price,
                amount,
                status: PositionStatus::Open,
                realized_pnl: 0,
                closed_at: 0,
            };
            &&& after == before.push(position)
            &&& queries::realized(after) == queries::realized(before)
            &&& queries::invested(after) == queries::invested(before) + amount
            &&& queries::unrealized(after, price) == queries::unrealized(before, price)
                + queries::gain(position, price)
        }),
{
    let id = state.settings->0.next_position_id;
    portfolio_laws::law_ids_are_fresh(state, user, entry_price, amount, id);
    let booked = state.with_booked(user, entry_price, amount);
    portfolio_laws::lemma_badges_leave_book(booked, user, state.opened_by(user).len() == 0);
    let next = user_portfolio::open_state(state, user, entry_price, amount);
    let before = state.positions_of(user);
    let after = next.positions_of(user);
    let position = next.positions[id];
    let ids = state.opened_by(user);
    assert(next.opened_by(user) == ids.push(id));
    assert forall|i: int| 0 <= i < ids.len() implies after[i] == before[i] by {
        assert(ids.contains(ids[i]));
    }
    assert(after =~= before.push(position));
    assert(after.drop_last() =~= before);
}

/// What the sums become when the position at `i` is closed.
proof fn lemma_close_sums(
    positions: Seq<Position>,
    i: int,
    realized_pnl: i128,
    now: u64,
    price: i128,
)
    requires
        0 <= i < positions.len(),
        positions[i].status is Open,
    ensures
        ({
            let closed = Position {
                status: PositionStatus::Closed,
                realized_pnl,
                closed_at: now,
                ..positions[i]
            };
            let after = positions.update(i, closed);
            &&& queries::realized(after) == queries::realized(positions) + realized_pnl
            &&& queries::invested(after) == queries::invested(positions)
            &&& queries::unrealized(after, price) == queries::unrealized(positions, price)
                - queries::gain(positions[i], price)
        }),
    decreases positions.len(),
{
    let closed = Position {
        status: PositionStatus::Closed,
        realized_pnl,
        closed_at: now,
        ..positions[i]
    };
    let after = positions.update(i, closed);
    let front = positions.drop_last();
    if i == positions.len() - 1 {
        assert(after.drop_last() =~= front);
    } else {
        lemma_close_sums(front, i, realized_pnl, now, price);
        assert(after.drop_last() =~= front.update(i, closed));
        assert(after.last() == positions.last());
    }
}

/// A closed position moves from the unrealized to the realized profit: the gain it had is gone, the
/// profit it was closed with is there, and what was invested stays the same.
pub proof fn law_close_realizes_position(
    state: PortfolioState,
    user: Address,
    id: u64,
    realized_pnl: i128,
    now: u64,
    price: i128,
)
    requires
        portfolio_laws::valid(state),
        user_portfolio::close_result(state, user, id) is Ok,
    ensures
        ({
            let before = state.positions_of(user);
            let after = user_portfolio::close_state(
                state,
                user,
                id,
                realized_pnl,
                now,
            ).positions_of(user);
            &&& after.len() == before.len()
            &&& queries::realized(after) == queries::realized(before) + realized_pnl
            &&& queries::invested(after) == queries::invested(before)
            &&& queries::unrealized(after, price) == queries::unrealized(before, price)
                - queries::gain(state.positions[id], price)
        }),
{
    portfolio_laws::lemma_with_badge(
        state.with_closed(user, id, realized_pnl, now),
        user,
        BadgeType::Top10Leaderboard,
    );
    let next = user_portfolio::close_state(state, user, id, realized_pnl, now);
    let before = state.positions_of(user);
    let after = next.positions_of(user);
    let ids = state.opened_by(user);
    let i = choose|i: int| 0 <= i < ids.len() && ids[i] == id;
    assert(next.opened_by(user) == ids);
    assert forall|j: int| 0 <= j < ids.len() && j != i implies after[j] == before[j] by {
        let lists = state.opened;
        if j < i {
            assert(user_portfolio::listed(lists, user)[j] < user_portfolio::listed(lists, user)[i]);
        } else {
            assert(user_portfolio::listed(lists, user)[i] < user_portfolio::listed(lists, user)[j]);
        }
    }
    assert(after =~= before.update(i, next.positions[id]));
    lemma_close_sums(before, i, realized_pnl, now, price);
}

} // verus!
