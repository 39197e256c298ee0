use loom::order::same_text;
use loom::order::NoMatch;
use loom::order::Order;
use loom::order::OrderAction;
use loom::order::OrderKey;
use loom::order::OrderState;
use loom::order::OrderTimeInForce;
use loom::order::OrderType;
use loom::order::TextKind;
use loom::order::TradeSide;
use loom::price::Price;

fn sample(side: TradeSide, ord_type: OrderType, px: i64) -> Order {
    Order {
        id: 7,
        symbol: String::from("LOOM-USDT-SPOT"),
        side,
        qty: 10,
        price: Price::from(px),
        acc_fill_qty: 4,
        ord_type,
        ts: 1,
        update_ts: 2,
        state: OrderState::LIVE,
        tif: OrderTimeInForce::GTC,
        action: OrderAction::PLACE,
    }
}

#[test]
fn del_flag_marks_the_terminal_states() {
    assert!(!OrderState::INIT.del_flag());
    assert!(!OrderState::LIVE.del_flag());
    assert!(!OrderState::PARTIAL_FILLED.del_flag());
    assert!(OrderState::PARTIAL_CANCELLED.del_flag());
    assert!(OrderState::FULL_FILLED.del_flag());
    assert!(OrderState::CANCELED.del_flag());
}

#[test]
fn names_are_written_as_they_are_read() {
    assert_eq!(TradeSide::SELL.to_string(), "SELL");
    assert_eq!(TradeSide::BUY.to_string(), "BUY");
    assert_eq!(OrderType::MARKET.to_string(), "MARKET");
    assert_eq!(OrderType::LIMIT.to_string(), "LIMIT");
    assert_eq!(OrderState::INIT.to_string(), "INIT");
    assert_eq!(OrderState::LIVE.to_string(), "LIVE");
    assert_eq!(OrderState::PARTIAL_FILLED.to_string(), "PARTIAL_FILLED");
    assert_eq!(OrderState::PARTIAL_CANCELLED.to_string(), "PARTIAL_CANCELLED");
    assert_eq!(OrderState::FULL_FILLED.to_string(), "FULL_FILLED");
    assert_eq!(OrderState::CANCELED.to_string(), "CANCELED");
    assert_eq!(OrderTimeInForce::GTC.to_string(), "GTC");
    assert_eq!(OrderTimeInForce::IOC.to_string(), "IOC");
    assert_eq!(OrderTimeInForce::FOK.to_string(), "FOK");
    assert_eq!(OrderAction::PLACE.to_string(), "PLACE");
    assert_eq!(OrderAction::CANCEL.to_string(), "CANCEL");
}

#[test]
fn names_read_back_to_their_variants() {
    assert_eq!(TradeSide::from_str("SELL").unwrap(), TradeSide::SELL);
    assert_eq!(TradeSide::from_str("BUY").unwrap(), TradeSide::BUY);
    assert_eq!(OrderType::from_str("MARKET").unwrap(), OrderType::MARKET);
    assert_eq!(OrderType::from_str("LIMIT").unwrap(), OrderType::LIMIT);
    for s in [
        OrderState::INIT,
        OrderState::LIVE,
        OrderState::PARTIAL_FILLED,
        OrderState::PARTIAL_CANCELLED,
        OrderState::FULL_FILLED,
        OrderState::CANCELED,
    ] {
        assert_eq!(OrderState::from_str(&s.to_string()).unwrap(), s);
    }
    for t in [OrderTimeInForce::GTC, OrderTimeInForce::IOC, OrderTimeInForce::FOK] {
        assert_eq!(OrderTimeInForce::from_str(&t.to_string()).unwrap(), t);
    }
    assert_eq!(OrderAction::from_str("PLACE").unwrap(), OrderAction::PLACE);
    assert_eq!(OrderAction::from_str("CANCEL").unwrap(), OrderAction::CANCEL);
}

#[test]
fn unknown_names_are_rejected_with_their_text() {
    let e: NoMatch = TradeSide::from_str("buy").unwrap_err();
    assert_eq!(e.kind, TextKind::TradeSide);
    assert_eq!(e.value, "buy");
    assert_eq!(e.to_string(), "no match TradeSide value=buy");
    assert_eq!(
        OrderType::from_str("STOP").unwrap_err().to_string(),
        "no match OrderType value=STOP"
    );
    assert_eq!(
        OrderState::from_str("").unwrap_err().to_string(),
        "no match OrderState value="
    );
    assert_eq!(
        OrderTimeInForce::from_str("DAY").unwrap_err().to_string(),
        "no match OrderTimeInForce value=DAY"
    );
    assert_eq!(
        OrderAction::from_str("AMEND").unwrap_err().to_string(),
        "no match OrderTimeInForce value=AMEND"
    );
    assert_eq!(OrderAction::from_str("AMEND").unwrap_err().kind, TextKind::OrderAction);
}

#[test]
fn same_text_compares_characters() {
    assert!(same_text("abc", "abc"));
    assert!(!same_text("abc", "abd"));
    assert!(!same_text("abc", "ab"));
    assert!(same_text("", ""));
}

#[test]
fn remain_is_quantity_less_fills() {
    let o = sample(TradeSide::BUY, OrderType::LIMIT, 100);
    assert_eq!(o.remain(), 6);
}

#[test]
fn fill_adds_quantity_and_sets_state() {
    let mut o = sample(TradeSide::BUY, OrderType::LIMIT, 100);
    o.fill(5, OrderState::PARTIAL_FILLED);
    assert_eq!(o.acc_fill_qty, 9);
    assert_eq!(o.state, OrderState::PARTIAL_FILLED);
    assert_eq!(o.remain(), 1);
    o.fill(1, OrderState::FULL_FILLED);
    assert_eq!(o.acc_fill_qty, 10);
    assert_eq!(o.state, OrderState::FULL_FILLED);
    assert_eq!(o.remain(), 0);
    o.fill(0, OrderState::CANCELED);
    assert_eq!(o.acc_fill_qty, 10);
    assert_eq!(o.state, OrderState::CANCELED);
}

#[test]
fn can_trade_needs_the_other_side() {
    let buy = sample(TradeSide::BUY, OrderType::LIMIT, 100);
    let other_buy = sample(TradeSide::BUY, OrderType::LIMIT, 1);
    assert!(!buy.can_trade(&other_buy));
    let market_buy = sample(TradeSide::BUY, OrderType::MARKET, 0);
    assert!(!market_buy.can_trade(&other_buy));
}

#[test]
fn limit_buy_crosses_at_or_above_the_maker() {
    let buy = sample(TradeSide::BUY, OrderType::LIMIT, 100);
    assert!(buy.can_trade(&sample(TradeSide::SELL, OrderType::LIMIT, 99)));
    assert!(buy.can_trade(&sample(TradeSide::SELL, OrderType::LIMIT, 100)));
    assert!(!buy.can_trade(&sample(TradeSide::SELL, OrderType::LIMIT, 101)));
}

#[test]
fn limit_sell_crosses_at_or_below_the_maker() {
    let sell = sample(TradeSide::SELL, OrderType::LIMIT, 100);
    assert!(sell.can_trade(&sample(TradeSide::BUY, OrderType::LIMIT, 101)));
    assert!(sell.can_trade(&sample(TradeSide::BUY, OrderType::LIMIT, 100)));
    assert!(!sell.can_trade(&sample(TradeSide::BUY, OrderType::LIMIT, 99)));
}

#[test]
fn market_order_crosses_any_price() {
    let buy = sample(TradeSide::BUY, OrderType::MARKET, 0);
    assert!(buy.can_trade(&sample(TradeSide::SELL, OrderType::LIMIT, 1_000_000)));
    let sell = sample(TradeSide::SELL, OrderType::MARKET, 0);
    assert!(sell.can_trade(&sample(TradeSide::BUY, OrderType::LIMIT, 1)));
}

#[test]
fn crossing_compares_numbers_not_digits() {
    let mut buy = sample(TradeSide::BUY, OrderType::LIMIT, 0);
    buy.price = Price::new(1005, 1);
    let mut sell = sample(TradeSide::SELL, OrderType::LIMIT, 0);
    sell.price = Price::new(10050, 2);
    assert!(buy.can_trade(&sell));
    sell.price = Price::new(10051, 2);
    assert!(!buy.can_trade(&sell));
}

#[test]
fn key_is_made_of_id_price_and_side() {
    let o = sample(TradeSide::SELL, OrderType::LIMIT, 100);
    let k = OrderKey::new(&o);
    assert_eq!(k.sequence_id, 7);
    assert_eq!(k.price, Price::from(100));
    assert_eq!(k.side, TradeSide::SELL);
}

#[test]
fn duplicate_copies_every_field() {
    let o = sample(TradeSide::SELL, OrderType::LIMIT, 100);
    assert_eq!(o.duplicate(), o);
}
