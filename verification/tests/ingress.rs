use loom::handler_match::handler_match;
use loom::handler_match::MatchOrderParam;
use loom::handler_match::Violation;
use loom::handler_match::ACCEPTED;
use loom::http_server::handler_ping;
use loom::http_server::AppError;
use loom::http_server::MATCH_PATH;
use loom::http_server::PING_PATH;
use loom::order::OrderAction;
use loom::order::OrderState;
use loom::order::OrderTimeInForce;
use loom::order::OrderType;
use loom::order::TradeSide;
use loom::price::Price;

fn param() -> MatchOrderParam {
    MatchOrderParam {
        id: 1,
        symbol: String::from("LOOM-USDT-SPOT"),
        side: TradeSide::SELL,
        qty: 3,
        price: Some(Price::from(100)),
        ord_type: OrderType::LIMIT,
        tif: None,
        action: OrderAction::PLACE,
        ts: None,
    }
}

#[test]
fn a_well_formed_request_is_valid() {
    assert_eq!(param().validate(), Ok(()));
    let mut market = param();
    market.ord_type = OrderType::MARKET;
    market.price = None;
    assert_eq!(market.validate(), Ok(()));
    let mut zero = param();
    zero.price = Some(Price::zero());
    assert_eq!(zero.validate(), Ok(()));
}

#[test]
fn field_rules_are_reported_together() {
    let mut p = param();
    p.id = 0;
    assert_eq!(p.validate(), Err(vec![Violation::IdRange]));
    p.qty = 0;
    p.symbol = String::from("A");
    assert_eq!(
        p.validate(),
        Err(vec![Violation::IdRange, Violation::SymbolLength, Violation::QtyRange])
    );
    p.price = Some(Price::from(-1));
    assert_eq!(
        p.validate(),
        Err(vec![Violation::IdRange, Violation::SymbolLength, Violation::QtyRange])
    );
}

#[test]
fn symbol_length_counts_characters() {
    let mut p = param();
    p.symbol = String::from("AB");
    assert_eq!(p.validate(), Ok(()));
    p.symbol = "x".repeat(50);
    assert_eq!(p.validate(), Ok(()));
    p.symbol = "x".repeat(51);
    assert_eq!(p.validate(), Err(vec![Violation::SymbolLength]));
    p.symbol = String::new();
    assert_eq!(p.validate(), Err(vec![Violation::SymbolLength]));
    p.symbol = "é".repeat(50);
    assert_eq!(p.validate(), Ok(()));
    p.symbol = String::from("é");
    assert_eq!(p.validate(), Err(vec![Violation::SymbolLength]));
}

#[test]
fn a_negative_price_is_rejected() {
    let mut p = param();
    p.price = Some(Price::new(-1, 2));
    assert_eq!(p.validate(), Err(vec![Violation::NegativePrice]));
    p.ord_type = OrderType::MARKET;
    p.tif = Some(OrderTimeInForce::GTC);
    assert_eq!(p.validate(), Err(vec![Violation::NegativePrice]));
}

#[test]
fn a_market_order_may_not_rest() {
    let mut p = param();
    p.ord_type = OrderType::MARKET;
    p.tif = Some(OrderTimeInForce::GTC);
    assert_eq!(p.validate(), Err(vec![Violation::MarketGtc]));
    p.tif = Some(OrderTimeInForce::IOC);
    assert_eq!(p.validate(), Ok(()));
    p.tif = Some(OrderTimeInForce::FOK);
    assert_eq!(p.validate(), Ok(()));
}

#[test]
fn to_order_fills_in_the_defaults() {
    let o = param().to_order_at(77);
    assert_eq!(o.id, 1);
    assert_eq!(o.symbol, "LOOM-USDT-SPOT");
    assert_eq!(o.side, TradeSide::SELL);
    assert_eq!(o.qty, 3);
    assert_eq!(o.price, Price::from(100));
    assert_eq!(o.acc_fill_qty, 0);
    assert_eq!(o.ord_type, OrderType::LIMIT);
    assert_eq!(o.ts, 77);
    assert_eq!(o.update_ts, 77);
    assert_eq!(o.state, OrderState::LIVE);
    assert_eq!(o.tif, OrderTimeInForce::GTC);
    assert_eq!(o.action, OrderAction::PLACE);
}

#[test]
fn to_order_keeps_what_the_request_names() {
    let mut p = param();
    p.ord_type = OrderType::MARKET;
    p.price = None;
    p.ts = Some(5);
    p.action = OrderAction::CANCEL;
    let o = p.to_order_at(77);
    assert_eq!(o.price, Price::zero());
    assert_eq!((o.price.digits, o.price.scale), (0, 0));
    assert_eq!(o.tif, OrderTimeInForce::IOC);
    assert_eq!(o.ts, 5);
    assert_eq!(o.update_ts, 5);
    assert_eq!(o.action, OrderAction::CANCEL);
    p.tif = Some(OrderTimeInForce::FOK);
    assert_eq!(p.to_order_at(77).tif, OrderTimeInForce::FOK);
}

#[test]
fn to_order_reads_the_clock_where_no_time_is_named() {
    let o = param().to_order();
    assert!(o.ts > 1_600_000_000_000);
    assert_eq!(o.ts, o.update_ts);
    let mut p = param();
    p.ts = Some(9);
    assert_eq!(p.to_order().ts, 9);
}

#[test]
fn handler_accepts_or_answers_with_the_broken_rules() {
    let o = handler_match(&param(), 77).unwrap();
    assert_eq!(o.ts, 77);
    let mut p = param();
    p.id = 0;
    p.qty = 0;
    let e = handler_match(&p, 77).unwrap_err();
    assert_eq!(e.status, 400);
    assert_eq!(e.message, "id: range;qty: range;");
    p = param();
    p.price = Some(Price::from(-5));
    assert_eq!(handler_match(&p, 77).unwrap_err().message, "price < 0;");
    p = param();
    p.ord_type = OrderType::MARKET;
    p.tif = Some(OrderTimeInForce::GTC);
    assert_eq!(
        handler_match(&p, 77).unwrap_err().message,
        "market price type order's tif can not be GTC;"
    );
    assert_eq!(ACCEPTED, "ACCEPTED");
}

#[test]
fn app_error_carries_status_and_message() {
    let e = AppError::internal(String::from("order existed"));
    assert_eq!(e.status, 500);
    assert_eq!(e.into_response(), (500, String::from("order existed")));
    let v = AppError::validation(&vec![Violation::SymbolLength]);
    assert_eq!(v.into_response(), (400, String::from("symbol: length;")));
}

#[test]
fn ping_answers_pong() {
    assert_eq!(handler_ping(), "pong");
    assert_eq!(PING_PATH, "/ping");
    assert_eq!(MATCH_PATH, "/api/v1/match");
}
