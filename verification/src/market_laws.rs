//! What the market in memory is for, said of stakes, prices and balances.

use crate::clock::has_date;
use crate::clock::DateTime;
use crate::decimal::exact_difference;
use crate::decimal::exact_sum;
use crate::decimal::fits;
use crate::decimal::is_decimal;
use crate::decimal::Decimal;
use crate::error::PocketError;
use crate::error::PocketResult;
use crate::types::Action;
use crate::types::Deal;
use crate::types::RequestId;
use crate::virtual_market::answers;
use crate::virtual_market::nothing;
use crate::virtual_market::opens;
use crate::virtual_market::payout_of;
use crate::virtual_market::MarketView;
use crate::virtual_market::TradeView;
use vstd::prelude::*;

verus! {

/// A trade is opened exactly if its stake is positive and covered by the balance, its asset has a
/// price, and the second at which it closes has a date.
pub proof fn law_trades_open_if_they_can(
    before: MarketView,
    after: MarketView,
    r: PocketResult<(u128, Deal)>,
    asset: Seq<char>,
    action: Action,
    amount: Decimal,
    time: u32,
    id: u128,
    now: DateTime,
)
    requires
        opens(before, after, r, asset, action, amount, time, id, now),
    ensures
        r is Ok <==> amount.units() > 0 && amount.units() <= before.balance.units()
            && before.prices.dom().contains(asset) && has_date(now.secs + time),
        r is Err ==> after == before,
{
}

/// Why a trade is not opened: the stake is looked at before the balance, the balance before the
/// price, the price before the date.
pub proof fn law_refusals_say_why(
    before: MarketView,
    after: MarketView,
    r: PocketResult<(u128, Deal)>,
    asset: Seq<char>,
    action: Action,
    amount: Decimal,
    time: u32,
    id: u128,
    now: DateTime,
)
    requires
        opens(before, after, r, asset, action, amount, time, id, now),
        r is Err,
    ensures
        r matches Err(PocketError::General(e)) && if amount.units() <= 0 {
            e@ == "Amount must be a positive number"@
        } else if before.balance.units() < amount.units() {
            e@ == "Insufficient virtual balance"@
        } else if !before.prices.dom().contains(asset) {
            e@ == "Price not found for asset: "@ + asset
        } else {
            e@ == "`DateTime + TimeDelta` overflowed"@
        },
{
}

/// A trade that is opened takes its stake from the balance, and is kept with what it was opened
/// with: the price of its asset, the second, and the payout of its asset. Every other trade, every
/// price and every payout stays.
pub proof fn law_opened_trades_are_kept(
    before: MarketView,
    after: MarketView,
    r: PocketResult<(u128, Deal)>,
    asset: Seq<char>,
    action: Action,
    amount: Decimal,
    time: u32,
    id: u128,
    now: DateTime,
    other: u128,
)
    requires
        opens(before, after, r, asset, action, amount, time, id, now),
        r is Ok,
        other != id,
    ensures
        (r->Ok_0).0 == id,
        exact_difference(before.balance, amount) ==> after.balance.units() + amount.units()
            == before.balance.units(),
        after.prices == before.prices,
        after.payouts == before.payouts,
        after.open_trades.dom().contains(id),
        ({
            let trade = after.open_trades[id];
            &&& trade.id == id
            &&& trade.asset == asset
            &&& trade.action == action
            &&& trade.amount == amount
            &&& trade.entry_price == before.prices[asset]
            &&& trade.entry_time == now.secs
            &&& trade.duration == time
            &&& before.payouts.dom().contains(asset) ==> trade.payout_percent
                == before.payouts[asset]
            &&& !before.payouts.dom().contains(asset) ==> trade.payout_percent == 80
        }),
        after.open_trades.dom().contains(other) <==> before.open_trades.dom().contains(other),
        before.open_trades.dom().contains(other) ==> after.open_trades[other]
            == before.open_trades[other],
{
}

/// What is reported of a trade that is opened: the trade under its identifier, at its price and its
/// instants, with nothing gained yet.
pub proof fn law_opened_trades_are_reported(
    before: MarketView,
    after: MarketView,
    r: PocketResult<(u128, Deal)>,
    asset: Seq<char>,
    action: Action,
    amount: Decimal,
    time: u32,
    id: u128,
    now: DateTime,
)
    requires
        opens(before, after, r, asset, action, amount, time, id, now),
        r is Ok,
        has_date(now.secs as int),
    ensures
        ({
            let deal = (r->Ok_0).1@;
            &&& deal.id == id
            &&& deal.request_id == Some(RequestId::Uuid(id))
            &&& deal.asset == asset
            &&& deal.amount == amount
            &&& deal.amount_usd == Some(amount)
            &&& deal.amount_usd2 == Some(amount)
            &&& deal.open_price == before.prices[asset]
            &&& deal.close_price.units() == 0
            &&& deal.profit.units() == 0
            &&& deal.open_timestamp == now
            &&& deal.close_timestamp.since_epoch() == now.since_epoch() + time * 1_000_000_000
            &&& deal.percent_profit == payout_of(before, asset)
            &&& deal.percent_loss == 100
            &&& deal.command == if action == Action::Call {
                0i32
            } else {
                1i32
            }
            &&& deal.is_demo == 1
            &&& deal.option_type == 100
            &&& deal.currency == "USD"@
        }),
{
    crate::decimal::lemma_new(0, 1);
    assert(0 * crate::decimal::pow10(27) == 0) by (nonlinear_arith);
    assert((now.secs + time) * 1_000_000_000 == now.secs * 1_000_000_000 + time * 1_000_000_000)
        by (nonlinear_arith);
}

/// A trade that is over and whose asset has a price is settled at this price and leaves the
/// market. If the price moved the way the trade bets on, the gain is the payout in percent of the
/// stake, and the balance grows by stake and gain; if it moved the other way, the stake is lost and
/// the balance stays; if it did not move, nothing is gained and the stake is given back.
pub proof fn law_settlement_pays(
    before: MarketView,
    after: MarketView,
    r: PocketResult<Deal>,
    trade_id: u128,
    current_time: i64,
    trade: TradeView,
    price: Decimal,
)
    requires
        answers(before, after, r, trade_id, current_time),
        before.open_trades.dom().contains(trade_id),
        before.open_trades[trade_id] == trade,
        current_time >= trade.entry_time + trade.duration,
        before.prices.dom().contains(trade.asset),
        before.prices[trade.asset] == price,
    ensures
        ({
            let moved = price.units() - trade.entry_price.units();
            let wins = (trade.action == Action::Call && moved > 0) || (trade.action == Action::Put
                && moved < 0);
            let loses = (trade.action == Action::Call && moved < 0) || (trade.action == Action::Put
                && moved > 0);
            &&& r matches Ok(deal) && {
                let paid = trade.amount.units() + deal.profit.units();
                &&& deal.close_price == price
                &&& deal.open_price == trade.entry_price
                &&& deal.amount == trade.amount
                &&& deal.asset@ == trade.asset
                &&& deal.percent_profit == trade.payout_percent
                &&& moved == 0 ==> deal.profit.units() == 0
                &&& loses ==> deal.profit.units() + trade.amount.units() == 0
                &&& wins && fits(trade.amount.spec_mantissa() * trade.payout_percent)
                    && trade.amount.spec_scale() <= 26 ==> 100 * deal.profit.units()
                    == trade.amount.units() * trade.payout_percent
                &&& loses ==> after.balance == before.balance
                &&& moved == 0 && trade.amount.units() > 0 && exact_sum(
                    before.balance,
                    trade.amount,
                ) ==> after.balance.units() == before.balance.units() + trade.amount.units()
                &&& wins && paid > 0 && is_decimal(paid) && is_decimal(
                    before.balance.units() + paid,
                ) ==> after.balance.units() == before.balance.units() + paid
            }
            &&& !after.open_trades.dom().contains(trade_id)
        }),
{
}

/// A trade that is not over is reported with nothing gained, and nothing changes.
pub proof fn law_running_trades_are_left_alone(
    before: MarketView,
    after: MarketView,
    r: PocketResult<Deal>,
    trade_id: u128,
    current_time: i64,
    trade: TradeView,
)
    requires
        answers(before, after, r, trade_id, current_time),
        before.open_trades.dom().contains(trade_id),
        before.open_trades[trade_id] == trade,
        current_time < trade.entry_time + trade.duration,
    ensures
        after == before,
        r matches Ok(deal) && deal.profit.units() == 0 && deal.close_price.units() == 0 && deal.amount
            == trade.amount && deal.open_price == trade.entry_price && deal.asset@ == trade.asset,
{
    crate::decimal::lemma_new(0, 1);
    assert(0 * crate::decimal::pow10(27) == 0) by (nonlinear_arith);
}

/// A trade that is over but whose asset has no price leaves the market with an error; its stake is
/// not given back. A trade that is not there is answered by an error, and nothing changes.
pub proof fn law_unsettled_trades(
    before: MarketView,
    after: MarketView,
    r: PocketResult<Deal>,
    trade_id: u128,
    current_time: i64,
)
    requires
        answers(before, after, r, trade_id, current_time),
    ensures
        !before.open_trades.dom().contains(trade_id) ==> r is Err && after == before,
        before.open_trades.dom().contains(trade_id) && current_time
            >= before.open_trades[trade_id].entry_time + before.open_trades[trade_id].duration
            && !before.prices.dom().contains(before.open_trades[trade_id].asset) ==> {
            &&& r matches Err(PocketError::General(e)) && e@ == "Price not found for asset: "@
                + before.open_trades[trade_id].asset
            &&& after == MarketView {
                open_trades: before.open_trades.remove(trade_id),
                ..before
            }
        },
{
}

/// The payout of an asset is what was last set for it, eighty in a hundred where nothing was.
pub proof fn law_payouts_are_as_set(
    market: MarketView,
    asset: Seq<char>,
    payout: i32,
    other: Seq<char>,
)
    ensures
        ({
            let set = MarketView { payouts: market.payouts.insert(asset, payout), ..market };
            &&& payout_of(set, asset) == payout
            &&& other != asset ==> payout_of(set, other) == payout_of(market, other)
            &&& !market.payouts.dom().contains(asset) ==> payout_of(market, asset) == 80
            &&& nothing().units() == 0
        }),
{
    crate::decimal::lemma_new(0, 1);
    assert(0 * crate::decimal::pow10(27) == 0) by (nonlinear_arith);
}

} // verus!
