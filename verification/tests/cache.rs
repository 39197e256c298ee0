use loom::cache::CacheManager;
use loom::cache::OrderUpdate;
use loom::cache::CACHE_PREFIX;
use loom::market::MatchTrade;
use loom::order::Order;
use loom::order::OrderAction;
use loom::order::OrderState;
use loom::order::OrderTimeInForce;
use loom::order::OrderType;
use loom::order::TradeSide;
use loom::price::Price;

fn sample() -> Order {
    Order {
        id: 1,
        symbol: String::from("LOOM-USDT-SPOT"),
        side: TradeSide::SELL,
        qty: 3,
        price: Price::from(100),
        acc_fill_qty: 0,
        ord_type: OrderType::LIMIT,
        ts: 1700000000000,
        update_ts: 1700000000000,
        state: OrderState::INIT,
        tif: OrderTimeInForce::GTC,
        action: OrderAction::PLACE,
    }
}

fn words(ws: &[&str]) -> Vec<String> {
    ws.iter().map(|w| String::from(*w)).collect()
}

fn trade(taker_state: OrderState, maker_state: OrderState) -> MatchTrade {
    MatchTrade {
        symbol: String::from("LOOM-USDT-SPOT"),
        qty: 3,
        px: Price::from(100),
        taker_oid: 2,
        maker_oid: 1,
        taker_state,
        maker_state,
        ts: 42,
    }
}

#[test]
fn keys_follow_the_persisted_layout() {
    assert_eq!(CACHE_PREFIX, "Loom");
    assert_eq!(CacheManager::cache_key_id("LOOM-USDT-SPOT"), "Loom:ID:LOOM-USDT-SPOT");
    assert_eq!(CacheManager::cache_key_order("LOOM-USDT-SPOT", 17), "Loom:ORDER:LOOM-USDT-SPOT:17");
    assert_eq!(CacheManager::cache_key_trades("LOOM-USDT-SPOT"), "Loom:TRADES:LOOM-USDT-SPOT");
    let (id_key, order_key) = CacheManager::cache_key(&sample());
    assert_eq!(id_key, "Loom:ID:LOOM-USDT-SPOT");
    assert_eq!(order_key, "Loom:ORDER:LOOM-USDT-SPOT:1");
}

#[test]
fn admission_sets_the_index_and_every_field_if_absent() {
    let cmds = CacheManager::admission_commands(&sample());
    let key = "Loom:ORDER:LOOM-USDT-SPOT:1";
    assert_eq!(
        cmds,
        vec![
            words(&["ZADD", "Loom:ID:LOOM-USDT-SPOT", "NX", "1700000000000", "1"]),
            words(&["HSETNX", key, "id", "1"]),
            words(&["HSETNX", key, "symbol", "LOOM-USDT-SPOT"]),
            words(&["HSETNX", key, "side", "SELL"]),
            words(&["HSETNX", key, "qty", "3"]),
            words(&["HSETNX", key, "price", "100"]),
            words(&["HSETNX", key, "acc_fill_qty", "0"]),
            words(&["HSETNX", key, "ord_type", "LIMIT"]),
            words(&["HSETNX", key, "ts", "1700000000000"]),
            words(&["HSETNX", key, "update_ts", "1700000000000"]),
            words(&["HSETNX", key, "state", "INIT"]),
            words(&["HSETNX", key, "tif", "GTC"]),
            words(&["HSETNX", key, "action", "PLACE"]),
        ]
    );
}

#[test]
fn admitted_needs_every_reply_to_say_written() {
    assert!(CacheManager::admitted(&vec![1; 13]));
    assert!(!CacheManager::admitted(&vec![0; 13]));
    let mut index_existed = vec![1; 13];
    index_existed[0] = 0;
    assert!(!CacheManager::admitted(&index_existed));
    let mut field_existed = vec![1; 13];
    field_existed[12] = 0;
    assert!(!CacheManager::admitted(&field_existed));
    assert!(!CacheManager::admitted(&vec![1; 12]));
    assert!(!CacheManager::admitted(&vec![1; 14]));
    assert!(!CacheManager::admitted(&Vec::new()));
}

#[test]
fn deletion_removes_the_id_and_the_record() {
    assert_eq!(
        CacheManager::deletion_commands(&sample()),
        vec![
            words(&["ZREM", "Loom:ID:LOOM-USDT-SPOT", "1"]),
            words(&["DEL", "Loom:ORDER:LOOM-USDT-SPOT:1"]),
        ]
    );
}

#[test]
fn scan_lists_from_zero_to_now() {
    assert_eq!(
        CacheManager::scan_command("AB", 1700000000123),
        words(&["ZRANGEBYSCORE", "Loom:ID:AB", "0", "1700000000123"])
    );
}

#[test]
fn read_ids_reads_all_or_reports_the_first_bad_item() {
    assert_eq!(CacheManager::read_ids(&words(&["1", "22", "333"])), Ok(vec![1, 22, 333]));
    assert_eq!(CacheManager::read_ids(&Vec::new()), Ok(Vec::new()));
    assert_eq!(CacheManager::read_ids(&words(&["1", "x", "y"])), Err(1));
    assert_eq!(CacheManager::read_ids(&words(&["", "2"])), Err(0));
}

#[test]
fn load_fetches_one_record_for_each_id() {
    assert_eq!(
        CacheManager::load_commands("AB", &vec![3, 1, 2]),
        vec![
            words(&["HGETALL", "Loom:ORDER:AB:3"]),
            words(&["HGETALL", "Loom:ORDER:AB:1"]),
            words(&["HGETALL", "Loom:ORDER:AB:2"]),
        ]
    );
    assert!(CacheManager::load_commands("AB", &Vec::new()).is_empty());
}

#[test]
fn read_orders_skips_empty_and_malformed_records() {
    let mut second = sample();
    second.id = 2;
    let mut broken = sample().to_fields();
    broken[3].1 = String::from("many");
    let records = vec![
        Vec::new(),
        second.to_fields(),
        broken,
        sample().to_fields(),
        Vec::new(),
    ];
    assert_eq!(CacheManager::read_orders(&records), vec![second, sample()]);
    assert!(CacheManager::read_orders(&Vec::new()).is_empty());
}

#[test]
fn order_update_addresses_both_orders() {
    let u = OrderUpdate::new(&trade(OrderState::FULL_FILLED, OrderState::PARTIAL_FILLED));
    assert_eq!(u.qty, 3);
    assert_eq!(u.oid_key, "Loom:ID:LOOM-USDT-SPOT");
    assert_eq!(u.taker_oid, "2");
    assert_eq!(u.maker_oid, "1");
    assert_eq!(u.taker_order_key, "Loom:ORDER:LOOM-USDT-SPOT:2");
    assert_eq!(u.maker_order_key, "Loom:ORDER:LOOM-USDT-SPOT:1");
    assert_eq!(u.taker_state, OrderState::FULL_FILLED);
    assert_eq!(u.maker_state, OrderState::PARTIAL_FILLED);
    assert!(u.del_taker_flag);
    assert!(!u.del_maker_flag);
    assert_eq!(u.ts, 42);
}

#[test]
fn trade_offer_is_nothing_for_an_empty_batch() {
    assert!(CacheManager::trade_offer(&Vec::new()).is_none());
}

#[test]
fn trade_offer_has_one_update_for_each_trade() {
    let batch = vec![
        trade(OrderState::PARTIAL_FILLED, OrderState::FULL_FILLED),
        trade(OrderState::PARTIAL_CANCELLED, OrderState::INIT),
    ];
    let offer = CacheManager::trade_offer(&batch).unwrap();
    assert_eq!(offer.trades_key, "Loom:TRADES:LOOM-USDT-SPOT");
    assert_eq!(offer.updates.len(), 2);
    assert!(!offer.updates[0].del_taker_flag);
    assert!(offer.updates[0].del_maker_flag);
    assert!(offer.updates[1].del_taker_flag);
    assert!(!offer.updates[1].del_maker_flag);
}

#[test]
fn full_batches_hand_out_full_batches_only() {
    assert_eq!(
        CacheManager::full_batches(&vec![1, 2, 3, 4, 5], 2),
        vec![vec![1, 2], vec![3, 4]]
    );
    assert_eq!(
        CacheManager::full_batches(&vec![1, 2, 3, 4], 2),
        vec![vec![1, 2], vec![3, 4]]
    );
    assert_eq!(CacheManager::full_batches(&vec![1, 2, 3], 1), vec![vec![1], vec![2], vec![3]]);
    assert_eq!(CacheManager::full_batches(&vec![1, 2, 3], 0), vec![vec![1], vec![2], vec![3]]);
    assert!(CacheManager::full_batches(&vec![1, 2, 3], 4).is_empty());
    assert!(CacheManager::full_batches(&Vec::new(), 3).is_empty());
}
