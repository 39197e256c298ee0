use loom::config::ConsumerKind;
use loom::consumer::consume;
use loom::consumer::ConsoleConsumer;
use loom::consumer::SinkStep;
use loom::market::MarketBook;
use loom::order::Order;
use loom::order::OrderAction;
use loom::order::OrderState;
use loom::order::OrderTimeInForce;
use loom::order::OrderType;
use loom::order::TradeSide;
use loom::price::Price;
use loom::trader::handle_request;
use loom::trader::handle_request_at;
use loom::trader::Trader;
use loom::trader::TraderEvent;
use loom::trader::TraderStep;
use loom::trader::QUEUE_CAPACITY;

fn order(id: u64, side: TradeSide, qty: u64, px: i64, action: OrderAction) -> Order {
    Order {
        id,
        symbol: String::from("AB"),
        side,
        qty,
        price: Price::from(px),
        acc_fill_qty: 0,
        ord_type: OrderType::LIMIT,
        ts: id as u128,
        update_ts: id as u128,
        state: OrderState::LIVE,
        tif: OrderTimeInForce::GTC,
        action,
    }
}

#[test]
fn requests_are_dispatched_by_action() {
    let mut book = MarketBook::new("AB");
    assert!(handle_request_at(&mut book, order(1, TradeSide::SELL, 5, 100, OrderAction::PLACE), 1).is_empty());
    let fills = handle_request_at(&mut book, order(2, TradeSide::BUY, 2, 100, OrderAction::PLACE), 2);
    assert_eq!(fills.len(), 1);
    assert_eq!(fills[0].qty, 2);
    let gone = handle_request_at(&mut book, order(1, TradeSide::SELL, 5, 100, OrderAction::CANCEL), 3);
    assert_eq!(gone.len(), 1);
    assert_eq!(gone[0].taker_state, OrderState::PARTIAL_CANCELLED);
    assert_eq!(gone[0].ts, 3);
    assert_eq!(book.sell_size(), 0);
    assert_eq!(book.ts(), 2);
}

#[test]
fn a_placement_for_another_symbol_is_dropped() {
    let mut book = MarketBook::new("AB");
    let mut foreign = order(1, TradeSide::SELL, 5, 100, OrderAction::PLACE);
    foreign.symbol = String::from("CD");
    let ts = book.ts();
    assert!(handle_request_at(&mut book, foreign, ts + 9).is_empty());
    assert_eq!(book.sell_size(), 0);
    assert_eq!(book.ts(), ts);
}

#[test]
fn a_placement_filled_beyond_its_quantity_is_dropped() {
    let mut book = MarketBook::new("AB");
    let mut odd = order(1, TradeSide::SELL, 5, 100, OrderAction::PLACE);
    odd.acc_fill_qty = 6;
    assert!(handle_request_at(&mut book, odd, 9).is_empty());
    assert_eq!(book.sell_size(), 0);
}

#[test]
fn a_placement_with_nothing_left_does_nothing() {
    let mut book = MarketBook::new("AB");
    let mut done = order(1, TradeSide::SELL, 5, 100, OrderAction::PLACE);
    done.acc_fill_qty = 5;
    assert!(handle_request_at(&mut book, done, 9).is_empty());
    assert_eq!(book.sell_size(), 0);
    assert_eq!(book.ts(), 9);
}

#[test]
fn handle_request_stamps_with_the_clock() {
    let mut book = MarketBook::new("AB");
    handle_request(&mut book, order(1, TradeSide::SELL, 5, 100, OrderAction::PLACE));
    let fills = handle_request(&mut book, order(2, TradeSide::BUY, 5, 100, OrderAction::PLACE));
    assert_eq!(fills.len(), 1);
    assert!(fills[0].ts > 1_600_000_000_000);
}

#[test]
fn the_worker_leaves_on_a_set_shutdown_flag_only() {
    let mut trader = Trader::new("AB");
    assert!(trader.serves("AB"));
    assert!(!trader.serves("CD"));
    assert!(matches!(trader.on_event(TraderEvent::Terminal(false), 1), TraderStep::Continue));
    assert!(matches!(trader.on_event(TraderEvent::Terminal(true), 1), TraderStep::Exit));
    assert_eq!(QUEUE_CAPACITY, 16);
}

#[test]
fn the_worker_hands_each_batch_to_the_sink() {
    let mut trader = Trader::new("AB");
    let first = trader.on_event(TraderEvent::Request(order(1, TradeSide::SELL, 5, 100, OrderAction::PLACE)), 1);
    match first {
        TraderStep::Consume(batch) => assert!(batch.is_empty()),
        _ => panic!("a request is always consumed"),
    }
    let second = trader.on_event(TraderEvent::Request(order(2, TradeSide::BUY, 5, 100, OrderAction::PLACE)), 2);
    match second {
        TraderStep::Consume(batch) => {
            assert_eq!(batch.len(), 1);
            assert_eq!(batch[0].maker_oid, 1);
            assert_eq!(batch[0].taker_oid, 2);
        }
        _ => panic!("a request is always consumed"),
    }
    assert_eq!(trader.market().sell_size(), 0);
    assert_eq!(trader.market().buy_size(), 0);
}

#[test]
fn requests_are_handled_in_the_order_of_the_queue() {
    let mut trader = Trader::new("AB");
    let batches = trader.drain(
        vec![
            order(1, TradeSide::SELL, 2, 100, OrderAction::PLACE),
            order(2, TradeSide::SELL, 2, 101, OrderAction::PLACE),
            order(3, TradeSide::BUY, 3, 101, OrderAction::PLACE),
            order(2, TradeSide::SELL, 2, 101, OrderAction::CANCEL),
        ],
        9,
    );
    assert_eq!(batches.len(), 4);
    assert!(batches[0].is_empty());
    assert!(batches[1].is_empty());
    assert_eq!(batches[2].len(), 2);
    assert_eq!((batches[2][0].maker_oid, batches[2][0].qty), (1, 2));
    assert_eq!((batches[2][1].maker_oid, batches[2][1].qty), (2, 1));
    assert_eq!(batches[3].len(), 1);
    assert_eq!(batches[3][0].taker_state, OrderState::PARTIAL_CANCELLED);
    assert_eq!(trader.market().sell_size(), 0);
}

#[test]
fn replaying_resting_orders_restores_the_book() {
    let live = vec![
        order(4, TradeSide::BUY, 1, 98, OrderAction::PLACE),
        order(1, TradeSide::SELL, 2, 100, OrderAction::PLACE),
        order(3, TradeSide::BUY, 5, 99, OrderAction::PLACE),
        order(2, TradeSide::SELL, 2, 101, OrderAction::PLACE),
    ];
    let mut trader = Trader::new("AB");
    let batches = trader.drain(live, 9);
    assert!(batches.iter().all(|b| b.is_empty()));
    assert_eq!(trader.market().buy_size(), 2);
    assert_eq!(trader.market().sell_size(), 2);
    assert_eq!(trader.market().buy_head().unwrap().id, 3);
    assert_eq!(trader.market().sell_head().unwrap().id, 1);
}

#[test]
fn the_console_sink_logs_what_is_not_empty() {
    let sink = ConsoleConsumer {};
    assert!(matches!(sink.consume(Vec::new()), SinkStep::Nothing));
    let mut book = MarketBook::new("AB");
    let batch = handle_request_at(&mut book, order(1, TradeSide::SELL, 5, 100, OrderAction::CANCEL), 1);
    assert!(matches!(consume(ConsumerKind::Console, batch), SinkStep::Nothing));
    let cancelled = book_with_one_cancel();
    match consume(ConsumerKind::Console, cancelled.clone()) {
        SinkStep::Log(batch) => assert_eq!(batch, cancelled),
        _ => panic!("the console sink logs"),
    }
}

#[test]
fn the_store_sink_offers_updates_with_the_batch() {
    assert!(matches!(consume(ConsumerKind::Redis, Vec::new()), SinkStep::Nothing));
    let cancelled = book_with_one_cancel();
    match consume(ConsumerKind::Redis, cancelled.clone()) {
        SinkStep::Store(offer, batch) => {
            assert_eq!(batch, cancelled);
            assert_eq!(offer.trades_key, "Loom:TRADES:AB");
            assert_eq!(offer.updates.len(), 1);
            assert_eq!(offer.updates[0].taker_order_key, "Loom:ORDER:AB:1");
            assert!(offer.updates[0].del_taker_flag);
        }
        _ => panic!("the store sink stores"),
    }
}

fn book_with_one_cancel() -> Vec<loom::market::MatchTrade> {
    let mut book = MarketBook::new("AB");
    handle_request_at(&mut book, order(1, TradeSide::SELL, 5, 100, OrderAction::PLACE), 1);
    handle_request_at(&mut book, order(1, TradeSide::SELL, 5, 100, OrderAction::CANCEL), 2)
}

#[test]
fn a_new_trader_matches_placements_for_its_symbol() {
    let mut trader = Trader::new("AB");
    assert!(trader.market().is_for("AB"));
    assert!(!trader.market().is_for("CD"));
    let rested = trader.on_event(TraderEvent::Request(order(1, TradeSide::SELL, 5, 100, OrderAction::PLACE)), 3);
    assert!(matches!(rested, TraderStep::Consume(_)));
    assert_eq!(trader.market().sell_size(), 1);
    assert_eq!(trader.market().ts(), 3);
}
