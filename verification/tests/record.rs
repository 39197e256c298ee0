use loom::order::Order;
use loom::order::OrderAction;
use loom::order::OrderState;
use loom::order::OrderTimeInForce;
use loom::order::OrderType;
use loom::order::TradeSide;
use loom::price::Price;
use loom::record::Field;
use loom::record::RecordError;

fn sample() -> Order {
    Order {
        id: 1,
        symbol: String::from("LOOM-USDT-SPOT"),
        side: TradeSide::SELL,
        qty: 3,
        price: Price::new(10050, 2),
        acc_fill_qty: 1,
        ord_type: OrderType::LIMIT,
        ts: 1700000000000,
        update_ts: 1700000000001,
        state: OrderState::PARTIAL_FILLED,
        tif: OrderTimeInForce::GTC,
        action: OrderAction::PLACE,
    }
}

fn pair(k: &str, v: &str) -> (String, String) {
    (String::from(k), String::from(v))
}

fn stored() -> Vec<(String, String)> {
    vec![
        pair("id", "1"),
        pair("symbol", "LOOM-USDT-SPOT"),
        pair("side", "SELL"),
        pair("qty", "3"),
        pair("price", "100.50"),
        pair("acc_fill_qty", "1"),
        pair("ord_type", "LIMIT"),
        pair("ts", "1700000000000"),
        pair("update_ts", "1700000000001"),
        pair("state", "PARTIAL_FILLED"),
        pair("tif", "GTC"),
        pair("action", "PLACE"),
    ]
}

fn without(name: &str) -> Vec<(String, String)> {
    stored().into_iter().filter(|(k, _)| k != name).collect()
}

fn with(name: &str, value: &str) -> Vec<(String, String)> {
    stored().into_iter().map(|(k, v)| if k == name { (k, String::from(value)) } else { (k, v) }).collect()
}

#[test]
fn to_fields_writes_twelve_fields_in_order() {
    assert_eq!(sample().to_fields(), stored());
}

#[test]
fn from_map_reads_the_order_back() {
    assert_eq!(Order::from_map(&stored()).unwrap(), sample());
    assert_eq!(Order::from_map(&sample().to_fields()).unwrap(), sample());
}

#[test]
fn from_map_does_not_depend_on_the_order_of_the_fields() {
    let mut fields = stored();
    fields.reverse();
    assert_eq!(Order::from_map(&fields).unwrap(), sample());
}

#[test]
fn from_map_reports_the_first_missing_field() {
    assert_eq!(Order::from_map(&Vec::new()), Err(RecordError::Missing(Field::Id)));
    assert_eq!(Order::from_map(&without("id")), Err(RecordError::Missing(Field::Id)));
    assert_eq!(Order::from_map(&without("symbol")), Err(RecordError::Missing(Field::Symbol)));
    assert_eq!(Order::from_map(&without("side")), Err(RecordError::Missing(Field::Side)));
    assert_eq!(Order::from_map(&without("qty")), Err(RecordError::Missing(Field::Qty)));
    assert_eq!(Order::from_map(&without("price")), Err(RecordError::Missing(Field::Price)));
    assert_eq!(Order::from_map(&without("acc_fill_qty")), Err(RecordError::Missing(Field::AccFillQty)));
    assert_eq!(Order::from_map(&without("ord_type")), Err(RecordError::Missing(Field::OrdType)));
    assert_eq!(Order::from_map(&without("ts")), Err(RecordError::Missing(Field::Ts)));
    assert_eq!(Order::from_map(&without("update_ts")), Err(RecordError::Missing(Field::UpdateTs)));
    assert_eq!(Order::from_map(&without("state")), Err(RecordError::Missing(Field::State)));
    assert_eq!(Order::from_map(&without("tif")), Err(RecordError::Missing(Field::Tif)));
    assert_eq!(Order::from_map(&without("action")), Err(RecordError::Missing(Field::Action)));
}

#[test]
fn from_map_reports_the_first_malformed_field() {
    assert_eq!(Order::from_map(&with("id", "x")), Err(RecordError::Malformed(Field::Id)));
    assert_eq!(Order::from_map(&with("id", "18446744073709551616")), Err(RecordError::Malformed(Field::Id)));
    assert_eq!(Order::from_map(&with("side", "sell")), Err(RecordError::Malformed(Field::Side)));
    assert_eq!(Order::from_map(&with("qty", "-3")), Err(RecordError::Malformed(Field::Qty)));
    assert_eq!(Order::from_map(&with("price", "dear")), Err(RecordError::Malformed(Field::Price)));
    assert_eq!(Order::from_map(&with("acc_fill_qty", "")), Err(RecordError::Malformed(Field::AccFillQty)));
    assert_eq!(Order::from_map(&with("ord_type", "STOP")), Err(RecordError::Malformed(Field::OrdType)));
    assert_eq!(Order::from_map(&with("ts", "1.5")), Err(RecordError::Malformed(Field::Ts)));
    assert_eq!(Order::from_map(&with("update_ts", "z")), Err(RecordError::Malformed(Field::UpdateTs)));
    assert_eq!(Order::from_map(&with("state", "DONE")), Err(RecordError::Malformed(Field::State)));
    assert_eq!(Order::from_map(&with("tif", "DAY")), Err(RecordError::Malformed(Field::Tif)));
    assert_eq!(Order::from_map(&with("action", "AMEND")), Err(RecordError::Malformed(Field::Action)));
    let mut two = with("qty", "x");
    two.retain(|(k, _)| k != "tif");
    assert_eq!(Order::from_map(&two), Err(RecordError::Malformed(Field::Qty)));
}

#[test]
fn field_names_are_the_stored_names() {
    assert_eq!(Field::Id.as_str(), "id");
    assert_eq!(Field::AccFillQty.as_str(), "acc_fill_qty");
    assert_eq!(Field::UpdateTs.as_str(), "update_ts");
    assert_eq!(Field::OrdType.as_str(), "ord_type");
}

#[test]
fn from_map_priced_takes_the_price_as_read() {
    let o = Order::from_map_priced(&stored(), Some(Price::from(7))).unwrap();
    assert_eq!(o.price, Price::from(7));
    assert_eq!(o.id, 1);
    assert_eq!(
        Order::from_map_priced(&stored(), None),
        Err(RecordError::Malformed(Field::Price))
    );
    assert_eq!(
        Order::from_map_priced(&without("price"), Some(Price::from(7))),
        Err(RecordError::Missing(Field::Price))
    );
    assert_eq!(
        Order::from_map_priced(&with("side", "x"), None),
        Err(RecordError::Malformed(Field::Side))
    );
}

#[test]
fn to_fields_with_writes_the_price_text_it_is_given() {
    let fields = sample().to_fields_with(String::from("1E+2"));
    assert_eq!(fields[4], pair("price", "1E+2"));
    assert_eq!(fields.len(), 12);
    assert_eq!(fields[0], pair("id", "1"));
}
