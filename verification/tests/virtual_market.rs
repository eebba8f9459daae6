use binary_options_tools::clock::DateTime;
use binary_options_tools::decimal::Decimal;
use binary_options_tools::error::PocketError;
use binary_options_tools::types::Action;
use binary_options_tools::types::RequestId;
use binary_options_tools::virtual_market::VirtualMarket;

fn dec(mantissa: i128, scale: u32) -> Decimal {
    Decimal::new(mantissa, scale).expect("a decimal")
}

fn start() -> DateTime {
    DateTime {
        secs: 1_700_000_000,
        nanos: 250_000_000,
    }
}

fn market() -> VirtualMarket {
    let mut market = VirtualMarket::new(dec(100, 0));
    market.update_price("EURUSD", dec(10, 1));
    market
}

fn refused<T: std::fmt::Debug>(r: Result<T, PocketError>) -> String {
    match r {
        Err(PocketError::General(e)) => e,
        other => panic!("unexpected {other:?}"),
    }
}

#[test]
fn opening_a_trade_takes_the_amount() {
    let mut market = market();
    let (id, deal) = market
        .open_trade("EURUSD", Action::Call, dec(10, 0), 60, 7, start())
        .unwrap();
    assert_eq!(id, 7);
    assert_eq!(market.balance().to_string(), "90");
    assert_eq!(deal.id, 7);
    assert_eq!(deal.asset, "EURUSD");
    assert_eq!(deal.open_price.to_string(), "1.0");
    assert_eq!(deal.close_price.to_string(), "0.0");
    assert_eq!(deal.profit.to_string(), "0.0");
    assert_eq!(deal.percent_profit, 80);
    assert_eq!(deal.percent_loss, 100);
    assert_eq!(deal.command, 0);
    assert_eq!(deal.request_id, Some(RequestId::Uuid(7)));
    assert_eq!(deal.open_timestamp, start());
    assert_eq!(deal.close_timestamp.secs, 1_700_000_060);
    assert_eq!(deal.open_time, "2023-11-14T22:13:20.250+00:00");
    assert_eq!(deal.close_time, "2023-11-14T22:14:20.250+00:00");
    assert_eq!(deal.is_demo, 1);
    assert_eq!(deal.option_type, 100);
    assert_eq!(deal.currency, "USD");
    assert_eq!(deal.amount_usd.unwrap().to_string(), "10");
}

#[test]
fn trades_are_refused() {
    let mut market = market();
    for amount in [dec(0, 0), dec(-1, 0)] {
        assert_eq!(
            refused(market.open_trade("EURUSD", Action::Put, amount, 60, 1, start())),
            "Amount must be a positive number"
        );
    }
    assert_eq!(
        refused(market.open_trade("EURUSD", Action::Put, dec(101, 0), 60, 1, start())),
        "Insufficient virtual balance"
    );
    assert_eq!(
        refused(market.open_trade("GBPUSD", Action::Put, dec(1, 0), 60, 1, start())),
        "Price not found for asset: GBPUSD"
    );
    assert_eq!(market.balance().to_string(), "100");
    assert_eq!(
        refused(market.settle(1, 0)),
        "Trade 00000000-0000-0000-0000-000000000001 not found"
    );
}

#[test]
fn a_trade_stays_open_until_it_is_over() {
    let mut market = market();
    market
        .open_trade("EURUSD", Action::Call, dec(10, 0), 60, 7, start())
        .unwrap();
    for now in [1_700_000_000, 1_700_000_059] {
        let deal = market.settle(7, now).unwrap();
        assert_eq!(deal.close_price.to_string(), "0.0");
        assert_eq!(deal.open_time, "2023-11-14T22:13:20+00:00");
    }
    assert_eq!(market.balance().to_string(), "90");
}

#[test]
fn a_won_trade_pays_out_once() {
    let mut market = market();
    market.set_payout("EURUSD", 92);
    market
        .open_trade("EURUSD", Action::Call, dec(10, 0), 60, 7, start())
        .unwrap();
    market.update_price("EURUSD", dec(11, 1));
    assert!(market.can_settle(7, 1_700_000_060));
    let deal = market.settle(7, 1_700_000_060).unwrap();
    assert_eq!(deal.close_price.to_string(), "1.1");
    assert!(deal.profit == dec(92, 1));
    assert_eq!(deal.percent_profit, 92);
    assert!(market.balance() == dec(1092, 1));
    assert_eq!(
        refused(market.settle(7, 1_700_000_060)),
        "Trade 00000000-0000-0000-0000-000000000007 not found"
    );
    assert!(market.balance() == dec(1092, 1));
}

#[test]
fn of_a_call_and_a_put_one_wins() {
    let mut market = market();
    market
        .open_trade("EURUSD", Action::Call, dec(10, 0), 60, 1, start())
        .unwrap();
    market
        .open_trade("EURUSD", Action::Put, dec(10, 0), 60, 2, start())
        .unwrap();
    market.update_price("EURUSD", dec(9, 1));
    let lost = market.settle(1, 1_700_000_060).unwrap();
    assert!(lost.profit == dec(-10, 0));
    assert!(market.balance() == dec(80, 0));
    let won = market.settle(2, 1_700_000_060).unwrap();
    assert!(won.profit == dec(8, 0));
    assert_eq!(won.command, 1);
    assert!(market.balance() == dec(98, 0));
}

#[test]
fn a_win_gains_its_percentage_exactly() {
    for (amount, payout, profit) in [
        (dec(12345678, 6), 87, dec(1074073986, 8)),
        (dec(3333, 2), 92, dec(306636, 4)),
        (dec(9999999999999999999999999, 24), 73, dec(729999999999999999999999927, 26)),
    ] {
        let mut market = market();
        market.set_payout("EURUSD", payout);
        market
            .open_trade("EURUSD", Action::Call, amount, 60, 1, start())
            .unwrap();
        market.update_price("EURUSD", dec(11, 1));
        let deal = market.settle(1, 1_700_000_060).unwrap();
        assert!(deal.profit == profit);
    }
}

#[test]
fn a_draw_gives_the_amount_back() {
    let mut market = market();
    market
        .open_trade("EURUSD", Action::Put, dec(10, 0), 60, 1, start())
        .unwrap();
    market.update_price("EURUSD", dec(100, 2));
    let deal = market.settle(1, 1_700_000_060).unwrap();
    assert_eq!(deal.profit.to_string(), "0.0");
    assert!(market.balance() == dec(100, 0));
}

#[test]
fn trades_are_opened_and_asked_for_at_the_present() {
    let mut market = market();
    let (bought, deal) = market.buy("EURUSD", dec(1, 0), 3600).unwrap();
    assert_eq!(deal.command, 0);
    let (sold, deal) = market.sell("EURUSD", dec(1, 0), 3600).unwrap();
    assert_eq!(deal.command, 1);
    assert_ne!(bought, sold);
    let open = market.result(bought).unwrap().unwrap();
    assert_eq!(open.id, bought);
    assert_eq!(open.close_price.to_string(), "0.0");
    let (over, _) = market.buy("EURUSD", dec(1, 0), 0).unwrap();
    assert!(market.balance() == dec(97, 0));
    let settled = market.result(over).unwrap().unwrap();
    assert_eq!(settled.close_price.to_string(), "1.0");
    assert!(market.balance() == dec(98, 0));
}

#[test]
fn opening_beyond_the_last_date_is_refused() {
    let mut market = market();
    let late = DateTime {
        secs: 8210266876799,
        nanos: 0,
    };
    assert_eq!(
        refused(market.open_trade("EURUSD", Action::Call, dec(1, 0), 1, 1, late)),
        "`DateTime + TimeDelta` overflowed"
    );
    assert_eq!(market.balance().to_string(), "100");
}

#[test]
fn trades_are_named_by_their_identifier() {
    let mut market = market();
    let id = 0x0123_4567_89ab_cdef_fedc_ba98_7654_3210;
    assert_eq!(
        refused(market.settle(id, 0)),
        "Trade 01234567-89ab-cdef-fedc-ba9876543210 not found"
    );
}

#[test]
fn sums_that_fit_are_exact() {
    let mut market = VirtualMarket::new(dec(90, 0));
    market.update_price("EURUSD", dec(10, 1));
    market
        .open_trade("EURUSD", Action::Call, dec(10_000_000_000_000_000_000_000_000_000, 27), 60, 1, start())
        .unwrap();
    assert!(market.balance() == dec(80, 0));
    market.update_price("EURUSD", dec(11, 1));
    let deal = market.settle(1, 1_700_000_060).unwrap();
    assert!(deal.profit == dec(8, 0));
    assert!(market.balance() == dec(98, 0));
}
