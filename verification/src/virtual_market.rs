//! A market without an exchange: trades are opened, kept and settled in memory.

use crate::clock::has_date;
use crate::clock::rfc3339;
use crate::clock::second;
use crate::clock::second_or;
use crate::clock::DateTime;
use crate::clock::MAX_SECOND;
use crate::decimal::decimal_difference;
use crate::decimal::decimal_product;
use crate::decimal::decimal_quotient;
use crate::decimal::decimal_sum;
use crate::decimal::exact_difference;
use crate::decimal::exact_quotient;
use crate::decimal::exact_sum;
use crate::decimal::fits;
use crate::decimal::is_decimal;
use crate::decimal::is_quotient;
use crate::decimal::lemma_hundredth;
use crate::decimal::lemma_pow10_positive;
use crate::decimal::one_units;
use crate::decimal::pow10;
use crate::decimal::Decimal;
use crate::error::is_general;
use crate::error::PocketError;
use crate::error::PocketResult;
use crate::string_map::StringMap;
use crate::types::Action;
use crate::types::Deal;
use crate::types::DealView;
use crate::types::RequestId;
use crate::wire::new_uuid;
use crate::wire::uuid_string;
use crate::wire::uuid_text;
use std::collections::HashMap;
use vstd::prelude::*;
use vstd::string::StringExecFns;

verus! {

broadcast use vstd::std_specs::hash::group_hash_axioms;

/// The payout in percent of an asset for which none is set.
pub const DEFAULT_PAYOUT: i32 = 80;

#[derive(Debug)]
struct VirtualTrade {
    id: u128,
    asset: String,
    action: Action,
    amount: Decimal,
    entry_price: Decimal,
    entry_time: i64,
    duration: u32,
    payout_percent: i32,
}

/// A trade that is open.
pub struct TradeView {
    pub id: u128,
    pub asset: Seq<char>,
    pub action: Action,
    pub amount: Decimal,
    pub entry_price: Decimal,
    pub entry_time: i64,
    pub duration: u32,
    pub payout_percent: i32,
}

impl VirtualTrade {
    spec fn view(&self) -> TradeView {
        TradeView {
            id: self.id,
            asset: self.asset@,
            action: self.action,
            amount: self.amount,
            entry_price: self.entry_price,
            entry_time: self.entry_time,
            duration: self.duration,
            payout_percent: self.payout_percent,
        }
    }
}

/// A market in memory.
pub struct VirtualMarket {
    balance: Decimal,
    open_trades: HashMap<u128, VirtualTrade>,
    current_prices: StringMap<Decimal>,
    payouts: StringMap<i32>,
}

pub struct MarketView {
    pub balance: Decimal,
    pub open_trades: Map<u128, TradeView>,
    pub prices: Map<Seq<char>, Decimal>,
    pub payouts: Map<Seq<char>, i32>,
}

/// Zero, written with one decimal place.
pub open spec fn nothing() -> Decimal {
    Decimal::spec_new(0, 1)
}

/// A hundred, written with one decimal place.
pub open spec fn hundred() -> Decimal {
    Decimal::spec_new(1000, 1)
}

/// The payout of an asset in percent.
pub open spec fn payout_of(market: MarketView, asset: Seq<char>) -> i32 {
    if market.payouts.dom().contains(asset) {
        market.payouts[asset]
    } else {
        DEFAULT_PAYOUT
    }
}

/// The number by which a deal names the way it bets.
pub open spec fn command_of(action: Action) -> i32 {
    match action {
        Action::Call => 0,
        Action::Put => 1,
    }
}

/// What is reported of a trade.
pub open spec fn deal_of(
    trade: TradeView,
    close_price: Decimal,
    profit: Decimal,
    opened: DateTime,
    closes: DateTime,
) -> DealView {
    DealView {
        id: trade.id,
        asset: trade.asset,
        amount: trade.amount,
        open_price: trade.entry_price,
        close_price,
        open_timestamp: opened,
        close_timestamp: closes,
        profit,
        percent_profit: trade.payout_percent,
        percent_loss: 100,
        command: command_of(trade.action),
        uid: 0,
        request_id: Some(RequestId::Uuid(trade.id)),
        open_time: rfc3339(opened.secs, opened.nanos),
        close_time: rfc3339(closes.secs, closes.nanos),
        refund_time: None,
        refund_timestamp: None,
        is_demo: 1,
        copy_ticket: ""@,
        open_ms: 0,
        close_ms: None,
        option_type: 100,
        is_rollover: None,
        is_copy_signal: None,
        is_ai: None,
        currency: "USD"@,
        amount_usd: Some(trade.amount),
        amount_usd2: Some(trade.amount),
    }
}

/// Why a trade is not opened at an instant.
pub open spec fn refusal(
    market: MarketView,
    asset: Seq<char>,
    amount: Decimal,
    time: u32,
    now: DateTime,
) -> Option<Seq<char>> {
    if amount.units() <= 0 {
        Some("Amount must be a positive number"@)
    } else if market.balance.units() < amount.units() {
        Some("Insufficient virtual balance"@)
    } else if !market.prices.dom().contains(asset) {
        Some("Price not found for asset: "@ + asset)
    } else if !has_date(now.secs + time) {
        Some("`DateTime + TimeDelta` overflowed"@)
    } else {
        None
    }
}

/// Whether a trade is opened as it should be: the stake leaves the balance, the trade is open
/// and is reported, or it is refused and nothing changes.
pub open spec fn opens(
    before: MarketView,
    after: MarketView,
    r: PocketResult<(u128, Deal)>,
    asset: Seq<char>,
    action: Action,
    amount: Decimal,
    time: u32,
    id: u128,
    now: DateTime,
) -> bool {
    match r {
        Ok((deal_id, deal)) => {
            let trade = trade_opened(before, asset, action, amount, time, id, now);
            &&& refusal(before, asset, amount, time, now) is None
            &&& deal_id == id
            &&& deal@ == deal_of(
                trade,
                nothing(),
                nothing(),
                now,
                DateTime { secs: (now.secs + time) as i64, nanos: now.nanos },
            )
            &&& decimal_difference(before.balance, amount) is Some
            &&& after == MarketView {
                balance: decimal_difference(before.balance, amount)->0,
                open_trades: before.open_trades.insert(id, trade),
                ..before
            }
            &&& exact_difference(before.balance, amount) ==> after.balance.units()
                == before.balance.units() - amount.units()
        },
        Err(e) => refusal(before, asset, amount, time, now) is Some && is_general(
            e,
            refusal(before, asset, amount, time, now)->0,
        ) && after == before,
    }
}

/// Whether the answer to a question for a result is as it should be: the market is settled, and
/// a trade that is over gains what it won or lost and moves the balance by it.
pub open spec fn answers(
    before: MarketView,
    after: MarketView,
    r: PocketResult<Deal>,
    trade_id: u128,
    current_time: i64,
) -> bool {
    &&& after == settled(before, trade_id, current_time).0
    &&& match (r, settled(before, trade_id, current_time).1) {
        (Ok(deal), Ok(v)) => deal@ == v,
        (Err(e), Err(text)) => is_general(e, text),
        _ => false,
    }
    &&& is_over(before, trade_id, current_time) ==> {
        let trade = before.open_trades[trade_id];
        let close_price = before.prices[trade.asset];
        &&& r matches Ok(deal)
        &&& gains(trade, close_price, deal.profit)
        &&& balance_moves(before.balance, after.balance, trade, close_price, deal.profit)
    }
}

/// The trade that is opened.
pub open spec fn trade_opened(
    market: MarketView,
    asset: Seq<char>,
    action: Action,
    amount: Decimal,
    time: u32,
    id: u128,
    now: DateTime,
) -> TradeView {
    TradeView {
        id,
        asset,
        action,
        amount,
        entry_price: market.prices[asset],
        entry_time: now.secs,
        duration: time,
        payout_percent: payout_of(market, asset),
    }
}

/// The second at which a trade closes.
pub open spec fn expiry(trade: TradeView) -> int {
    trade.entry_time + trade.duration
}

/// How a trade ends at a price.
pub enum Ending {
    Draw,
    Win,
    Loss,
}

pub open spec fn ending(trade: TradeView, close_price: Decimal) -> Ending {
    if close_price.units() == trade.entry_price.units() {
        Ending::Draw
    } else if (trade.action == Action::Call) == (close_price.units()
        > trade.entry_price.units()) {
        Ending::Win
    } else {
        Ending::Loss
    }
}

/// What a trade gains at a price, none where that is no decimal: the stake is lost, won in part,
/// or given back.
pub open spec fn profit_of(trade: TradeView, close_price: Decimal) -> Option<Decimal> {
    match ending(trade, close_price) {
        Ending::Win => match decimal_product(
            trade.amount,
            Decimal::spec_new(trade.payout_percent as int, 0),
        ) {
            Some(p) => decimal_quotient(p, hundred()),
            None => None,
        },
        Ending::Draw => Some(nothing()),
        Ending::Loss => Some(trade.amount.negated()),
    }
}

/// Whether a trade's share of its stake can be written down without rounding.
pub open spec fn exact_share(trade: TradeView) -> bool {
    &&& fits(trade.amount.spec_mantissa() * trade.payout_percent)
    &&& trade.amount.spec_scale() + 2 <= 28
}

/// Whether a profit is what a trade gains at a price: the stake is lost, nothing is gained on a
/// draw, and a win gains the payout in percent of the stake, as far as that is exact.
pub open spec fn gains(trade: TradeView, close_price: Decimal, profit: Decimal) -> bool {
    match ending(trade, close_price) {
        Ending::Loss => profit.units() == -trade.amount.units(),
        Ending::Draw => profit.units() == 0,
        Ending::Win => exact_share(trade) ==> 100 * profit.units() == trade.amount.units()
            * trade.payout_percent,
    }
}

/// The balance once a trade is paid out, none where it is no decimal.
pub open spec fn paid_out(balance: Decimal, amount: Decimal, profit: Decimal) -> Option<Decimal> {
    match decimal_sum(amount, profit) {
        Some(total) => if total.units() > 0 {
            decimal_sum(balance, total)
        } else {
            Some(balance)
        },
        None => None,
    }
}

/// Whether the settlement of a trade can be computed.
pub open spec fn settles(market: MarketView, trade_id: u128, current_time: i64) -> bool {
    market.open_trades.dom().contains(trade_id) ==> {
        let trade = market.open_trades[trade_id];
        current_time >= expiry(trade) && market.prices.dom().contains(trade.asset) ==> profit_of(
            trade,
            market.prices[trade.asset],
        ) is Some && paid_out(
            market.balance,
            trade.amount,
            profit_of(trade, market.prices[trade.asset])->0,
        ) is Some
    }
}

/// What a question for the result of a trade is answered, and what becomes of the market. A
/// trade that is over leaves the market, also where there is no price to settle it at.
pub open spec fn settled(market: MarketView, trade_id: u128, current_time: i64) -> (
    MarketView,
    Result<DealView, Seq<char>>,
) {
    if !market.open_trades.dom().contains(trade_id) {
        (market, Err("Trade "@ + uuid_text(trade_id) + " not found"@))
    } else {
        let trade = market.open_trades[trade_id];
        let opened = second_or(trade.entry_time, second(0));
        let closes = second_or(expiry(trade) as i64, second(0));
        if current_time < expiry(trade) {
            (market, Ok(deal_of(trade, nothing(), nothing(), opened, closes)))
        } else if !market.prices.dom().contains(trade.asset) {
            (
                MarketView { open_trades: market.open_trades.remove(trade_id), ..market },
                Err("Price not found for asset: "@ + trade.asset),
            )
        } else {
            let close_price = market.prices[trade.asset];
            let profit = profit_of(trade, close_price)->0;
            (
                MarketView {
                    open_trades: market.open_trades.remove(trade_id),
                    balance: paid_out(market.balance, trade.amount, profit)->0,
                    ..market
                },
                Ok(deal_of(trade, close_price, profit, opened, closes)),
            )
        }
    }
}

/// Whether a trade is over and has a price to settle it at.
pub open spec fn is_over(market: MarketView, trade_id: u128, current_time: i64) -> bool {
    &&& market.open_trades.dom().contains(trade_id)
    &&& current_time >= expiry(market.open_trades[trade_id])
    &&& market.prices.dom().contains(market.open_trades[trade_id].asset)
}

/// Whether the balance moves by what a trade with a profit pays at a price: by nothing on a loss, by the stake
/// on a draw, by the stake and the profit on a win. The last two as far as the sums are decimals.
pub open spec fn balance_moves(
    before: Decimal,
    after: Decimal,
    trade: TradeView,
    close_price: Decimal,
    profit: Decimal,
) -> bool {
    match ending(trade, close_price) {
        Ending::Loss => after == before,
        Ending::Draw => trade.amount.units() > 0 && exact_sum(before, trade.amount)
            ==> after.units() == before.units() + trade.amount.units(),
        Ending::Win => {
            let paid = trade.amount.units() + profit.units();
            paid > 0 && is_decimal(paid) && is_decimal(before.units() + paid) ==> after.units()
                == before.units() + paid
        },
    }
}

impl VirtualMarket {
    pub closed spec fn view(&self) -> MarketView {
        MarketView {
            balance: self.balance,
            open_trades: self.open_trades@.map_values(|t: VirtualTrade| t.view()),
            prices: self.current_prices.view(),
            payouts: self.payouts.view(),
        }
    }

    /// Every open trade was opened at a second that has a date.
    pub open spec fn wf(&self) -> bool {
        forall|id: u128| #[trigger]
            self.view().open_trades.dom().contains(id) ==> has_date(
                self.view().open_trades[id].entry_time as int,
            )
    }

    pub fn new(initial_balance: Decimal) -> (r: VirtualMarket)
        ensures
            r.view() == (MarketView {
                balance: initial_balance,
                open_trades: Map::empty(),
                prices: Map::empty(),
                payouts: Map::empty(),
            }),
            r.wf(),
    {
        let r = VirtualMarket {
            balance: initial_balance,
            open_trades: HashMap::new(),
            current_prices: StringMap::new(),
            payouts: StringMap::new(),
        };
        assert(r.view().open_trades =~= Map::<u128, TradeView>::empty());
        r
    }

    pub fn update_price(&mut self, asset: &str, price: Decimal)
        ensures
            final(self).view() == (MarketView {
                prices: old(self).view().prices.insert(asset@, price),
                ..old(self).view()
            }),
    {
        self.current_prices.insert(asset, price);
    }

    pub fn set_payout(&mut self, asset: &str, payout: i32)
        ensures
            final(self).view() == (MarketView {
                payouts: old(self).view().payouts.insert(asset@, payout),
                ..old(self).view()
            }),
    {
        self.payouts.insert(asset, payout);
    }

    pub fn balance(&self) -> (r: Decimal)
        ensures
            r == self.view().balance,
    {
        self.balance
    }
}

fn command_number(action: Action) -> (r: i32)
    ensures
        r == command_of(action),
{
    match action {
        Action::Call => 0,
        Action::Put => 1,
    }
}

fn zero() -> (r: Decimal)
    ensures
        r == nothing(),
        r.units() == 0,
{
    match Decimal::new(0, 1) {
        Some(d) => d,
        None => Decimal::zero(),
    }
}

fn price_not_found(asset: &str) -> (r: PocketError)
    ensures
        is_general(r, "Price not found for asset: "@ + asset@),
{
    let mut text = "Price not found for asset: ".to_owned();
    text.append(asset);
    PocketError::General(text)
}

impl VirtualTrade {
    fn copied(&self) -> (r: VirtualTrade)
        ensures
            r.view() == self.view(),
    {
        VirtualTrade {
            id: self.id,
            asset: self.asset.clone(),
            action: self.action,
            amount: self.amount,
            entry_price: self.entry_price,
            entry_time: self.entry_time,
            duration: self.duration,
            payout_percent: self.payout_percent,
        }
    }

    fn deal(&self, close_price: Decimal, profit: Decimal, opened: DateTime, closes: DateTime) -> (r:
        Deal)
        requires
            opened.valid(),
            closes.valid(),
        ensures
            r@ == deal_of(self.view(), close_price, profit, opened, closes),
    {
        Deal {
            id: self.id,
            asset: self.asset.clone(),
            amount: self.amount,
            open_price: self.entry_price,
            close_price,
            open_timestamp: opened,
            close_timestamp: closes,
            profit,
            percent_profit: self.payout_percent,
            percent_loss: 100,
            command: command_number(self.action),
            uid: 0,
            request_id: Some(RequestId::Uuid(self.id)),
            open_time: opened.to_rfc3339(),
            close_time: closes.to_rfc3339(),
            refund_time: None,
            refund_timestamp: None,
            is_demo: 1,
            copy_ticket: "".to_owned(),
            open_ms: 0,
            close_ms: None,
            option_type: 100,
            is_rollover: None,
            is_copy_signal: None,
            is_ai: None,
            currency: "USD".to_owned(),
            amount_usd: Some(self.amount),
            amount_usd2: Some(self.amount),
        }
    }

    /// What the trade gains at a price.
    fn profit(&self, close_price: Decimal) -> (r: Option<Decimal>)
        ensures
            r == profit_of(self.view(), close_price),
            r matches Some(profit) ==> gains(self.view(), close_price, profit),
            ending(self.view(), close_price) is Win && exact_share(self.view()) ==> r is Some,
    {
        let above = Decimal::less(self.entry_price, close_price);
        let below = Decimal::less(close_price, self.entry_price);
        if !above && !below {
            return Some(zero());
        }
        let win = match self.action {
            Action::Call => above,
            Action::Put => below,
        };
        if win {
            let percent = Decimal::from_integer(self.payout_percent as i64);
            match self.amount.checked_mul(percent) {
                Some(p) => match Decimal::new(1000, 1) {
                    Some(d) => {
                        proof {
                            if exact_share(self.view()) {
                                lemma_share(self.view(), p, percent, d);
                            }
                        }
                        p.checked_div(d)
                    },
                    None => None,
                },
                None => None,
            }
        } else {
            Some(self.amount.negate())
        }
    }
}

/// Where a trade's share of its stake can be written down, the product that leads to it has an
/// exact quotient by a hundred, which is that share.
proof fn lemma_share(trade: TradeView, product: Decimal, percent: Decimal, divisor: Decimal)
    requires
        exact_share(trade),
        percent.units() == trade.payout_percent * one_units(),
        product.units() * one_units() == trade.amount.units() * percent.units(),
        divisor.spec_mantissa() == 1000,
        divisor.spec_scale() == 1,
    ensures
        exact_quotient(product, divisor),
        forall|q: Decimal| #[trigger]
            is_quotient(product, divisor, q) ==> 100 * q.units() == trade.amount.units()
                * trade.payout_percent,
{
    let one = one_units();
    let a = trade.amount.units();
    let n = trade.payout_percent as int;
    lemma_pow10_positive(28);
    assert(one == 10 * pow10(27)) by {
        reveal_with_fuel(vstd::arithmetic::power::pow, 2);
    }
    assert(divisor.units() == 100 * one);
    assert(product.units() == a * n) by (nonlinear_arith)
        requires
            product.units() * one == a * (n * one),
            one > 0,
    ;
    lemma_hundredth(trade.amount, n, product, divisor);
    assert forall|q: Decimal| #[trigger] is_quotient(product, divisor, q) implies 100 * q.units()
        == a * n by {
        assert(100 * q.units() == a * n) by (nonlinear_arith)
            requires
                q.units() * (100 * one) == (a * n) * one,
                one > 0,
        ;
    }
}

fn pay_out(balance: Decimal, amount: Decimal, profit: Decimal) -> (r: Option<Decimal>)
    ensures
        r == paid_out(balance, amount, profit),
        profit == amount.negated() ==> r == Some(balance),
        amount.units() > 0 && profit.units() == 0 ==> r == decimal_sum(balance, amount) && (
        exact_sum(balance, amount) ==> r is Some && r->0.units() == balance.units()
            + amount.units()),
        amount.units() + profit.units() > 0 && exact_sum(amount, profit) && is_decimal(
            balance.units() + amount.units() + profit.units(),
        ) ==> r is Some && r->0.units() == balance.units() + amount.units() + profit.units(),
{
    amount.show_exact_with_negated();
    match amount.checked_add(profit) {
        Some(total) => if total.is_positive() {
            balance.checked_add(total)
        } else {
            Some(balance)
        },
        None => None,
    }
}

impl VirtualMarket {
    /// Opens a trade under an identifier at an instant.
    pub fn open_trade(
        &mut self,
        asset: &str,
        action: Action,
        amount: Decimal,
        time: u32,
        id: u128,
        now: DateTime,
    ) -> (r: PocketResult<(u128, Deal)>)
        requires
            old(self).wf(),
            now.valid(),
        ensures
            final(self).wf(),
            opens(
                old(self).view(),
                final(self).view(),
                r,
                asset@,
                action,
                amount,
                time,
                id,
                now,
            ),
    {
        if !amount.is_positive() {
            return Err(PocketError::General("Amount must be a positive number".to_owned()));
        }
        if Decimal::less(self.balance, amount) {
            return Err(PocketError::General("Insufficient virtual balance".to_owned()));
        }
        let entry_price = match self.current_prices.get(asset) {
            Some(p) => *p,
            None => return Err(price_not_found(asset)),
        };
        let payout: i32 = match self.payouts.get(asset) {
            Some(p) => *p,
            None => DEFAULT_PAYOUT,
        };
        if now.secs > MAX_SECOND - time as i64 {
            return Err(PocketError::General("`DateTime + TimeDelta` overflowed".to_owned()));
        }
        self.balance.show_in_range();
        amount.show_in_range();
        let rest = match self.balance.checked_sub(amount) {
            Some(d) => d,
            None => self.balance,
        };
        self.balance = rest;
        let trade = VirtualTrade {
            id,
            asset: asset.to_owned(),
            action,
            amount,
            entry_price,
            entry_time: now.secs,
            duration: time,
            payout_percent: payout,
        };
        let deal = trade.deal(zero(), zero(), now, now.plus_seconds(time));
        let ghost before = self.open_trades@;
        self.open_trades.insert(id, trade);
        assert(self.open_trades@.map_values(|t: VirtualTrade| t.view()) =~= before.map_values(
            |t: VirtualTrade| t.view(),
        ).insert(id, trade.view()));
        Ok((id, deal))
    }

    /// Whether the settlement of a trade can be computed.
    pub fn can_settle(&self, trade_id: u128, current_time: i64) -> (r: bool)
        requires
            self.wf(),
        ensures
            r == settles(self.view(), trade_id, current_time),
    {
        match self.open_trades.get(&trade_id) {
            Some(trade) => {
                assert(self.view().open_trades.dom().contains(trade_id));
                assert(self.view().open_trades[trade_id] == trade.view());
                if current_time < trade.entry_time + trade.duration as i64 {
                    return true;
                }
                match self.current_prices.get(trade.asset.as_str()) {
                    Some(price) => match trade.profit(*price) {
                        Some(profit) => pay_out(self.balance, trade.amount, profit).is_some(),
                        None => false,
                    },
                    None => true,
                }
            },
            None => true,
        }
    }

    /// The result of a trade at a time in seconds. A trade that is over is settled and leaves
    /// the market.
    pub fn settle(&mut self, trade_id: u128, current_time: i64) -> (r: PocketResult<Deal>)
        requires
            old(self).wf(),
            settles(old(self).view(), trade_id, current_time),
        ensures
            final(self).wf(),
            answers(old(self).view(), final(self).view(), r, trade_id, current_time),
    {
        let ghost before = self.open_trades@;
        let trade = match self.open_trades.get(&trade_id) {
            Some(t) => {
                assert(self.view().open_trades[trade_id] == t.view());
                t.copied()
            },
            None => {
                let mut text = "Trade ".to_owned();
                text.append(uuid_string(trade_id).as_str());
                text.append(" not found");
                return Err(PocketError::General(text));
            },
        };
        let expiry_time: i64 = trade.entry_time + trade.duration as i64;
        if current_time >= expiry_time {
            self.open_trades.remove(&trade_id);
            assert(self.open_trades@.map_values(|t: VirtualTrade| t.view()) =~= before.map_values(
                |t: VirtualTrade| t.view(),
            ).remove(trade_id));
        }
        let opened = DateTime::from_timestamp_or_epoch(trade.entry_time);
        let closes = DateTime::from_timestamp_or_epoch(expiry_time);
        if current_time < expiry_time {
            return Ok(trade.deal(zero(), zero(), opened, closes));
        }
        let close_price = match self.current_prices.get(trade.asset.as_str()) {
            Some(p) => *p,
            None => return Err(price_not_found(trade.asset.as_str())),
        };
        let none = zero();
        let profit = match trade.profit(close_price) {
            Some(p) => p,
            None => none,
        };
        match pay_out(self.balance, trade.amount, profit) {
            Some(b) => {
                self.balance = b;
            },
            None => {},
        }
        Ok(trade.deal(close_price, profit, opened, closes))
    }
}

impl VirtualMarket {
    /// Bets now that the price of an asset rises.
    pub fn buy(&mut self, asset: &str, amount: Decimal, time: u32) -> (r: PocketResult<(u128, Deal)>)
        requires
            old(self).wf(),
        ensures
            final(self).wf(),
            exists|id: u128, now: DateTime| #[trigger]
                opens(
                    old(self).view(),
                    final(self).view(),
                    r,
                    asset@,
                    Action::Call,
                    amount,
                    time,
                    id,
                    now,
                ) && now.valid() && now.secs >= 0,
    {
        self.open_trade(asset, Action::Call, amount, time, new_uuid(), DateTime::now())
    }

    /// Bets now that the price of an asset falls.
    pub fn sell(&mut self, asset: &str, amount: Decimal, time: u32) -> (r: PocketResult<
        (u128, Deal),
    >)
        requires
            old(self).wf(),
        ensures
            final(self).wf(),
            exists|id: u128, now: DateTime| #[trigger]
                opens(
                    old(self).view(),
                    final(self).view(),
                    r,
                    asset@,
                    Action::Put,
                    amount,
                    time,
                    id,
                    now,
                ) && now.valid() && now.secs >= 0,
    {
        self.open_trade(asset, Action::Put, amount, time, new_uuid(), DateTime::now())
    }

    /// The result of a trade by now. There is none, and nothing changes, where its settlement
    /// cannot be computed.
    pub fn result(&mut self, trade_id: u128) -> (r: Option<PocketResult<Deal>>)
        requires
            old(self).wf(),
        ensures
            final(self).wf(),
            exists|now: DateTime| #[trigger]
                now.valid() && now.secs >= 0 && settles(old(self).view(), trade_id, now.secs) == (
                r is Some) && match r {
                    Some(answer) => answers(
                        old(self).view(),
                        final(self).view(),
                        answer,
                        trade_id,
                        now.secs,
                    ),
                    None => final(self).view() == old(self).view(),
                },
    {
        let now = DateTime::now();
        if self.can_settle(trade_id, now.secs) {
            Some(self.settle(trade_id, now.secs))
        } else {
            None
        }
    }
}

/// A trade that is opened and asked for before it is over is reported as it was when it was
/// opened, at the whole second, and stays open.
pub proof fn law_open_trade_stays_open(
    market: MarketView,
    asset: Seq<char>,
    action: Action,
    amount: Decimal,
    time: u32,
    id: u128,
    now: DateTime,
    later: i64,
)
    requires
        now.valid(),
        has_date(now.secs + time),
        later < now.secs + time,
    ensures
        ({
            let trade = trade_opened(market, asset, action, amount, time, id, now);
            let open = MarketView { open_trades: market.open_trades.insert(id, trade), ..market };
            settled(open, id, later) == (
                open,
                Ok::<DealView, Seq<char>>(
                    deal_of(
                        trade,
                        nothing(),
                        nothing(),
                        second(now.secs),
                        second((now.secs + time) as i64),
                    ),
                ),
            )
        }),
{
}

/// A trade is settled once: whoever asks again is told that there is no such trade.
pub proof fn law_trade_settles_once(market: MarketView, trade_id: u128, first: i64, again: i64)
    requires
        market.open_trades.dom().contains(trade_id),
        first >= expiry(market.open_trades[trade_id]),
    ensures
        settled(settled(market, trade_id, first).0, trade_id, again) == (
            settled(market, trade_id, first).0,
            Err::<DealView, Seq<char>>("Trade "@ + uuid_text(trade_id) + " not found"@),
        ),
{
}

/// The settlement of one trade leaves every other trade, every price and every payout alone.
pub proof fn law_settlement_is_local(market: MarketView, trade_id: u128, time: i64, other: u128)
    requires
        other != trade_id,
    ensures
        ({
            let after = settled(market, trade_id, time).0;
            &&& after.open_trades.dom().contains(other) == market.open_trades.dom().contains(other)
            &&& market.open_trades.dom().contains(other) ==> after.open_trades[other]
                == market.open_trades[other]
            &&& after.prices == market.prices
            &&& after.payouts == market.payouts
        }),
{
}

/// Of two trades on the same asset at the same price, one bets that it rises and one that it
/// falls: at a price that moved exactly one of them wins, at a price that did not both are
/// drawn.
pub proof fn law_one_side_wins(rising: TradeView, falling: TradeView, close_price: Decimal)
    requires
        rising.action == Action::Call,
        falling.action == Action::Put,
        rising.entry_price == falling.entry_price,
    ensures
        close_price.units() == rising.entry_price.units() ==> ending(rising, close_price) is Draw
            && ending(falling, close_price) is Draw,
        close_price.units() > rising.entry_price.units() ==> ending(rising, close_price) is Win
            && ending(falling, close_price) is Loss,
        close_price.units() < rising.entry_price.units() ==> ending(rising, close_price) is Loss
            && ending(falling, close_price) is Win,
{
}

} // verus!
