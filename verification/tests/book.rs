use loom::book::BookError;
use loom::book::OrderBook;
use loom::order::Order;
use loom::order::OrderAction;
use loom::order::OrderKey;
use loom::order::OrderState;
use loom::order::OrderTimeInForce;
use loom::order::OrderType;
use loom::order::TradeSide;
use loom::price::Price;

fn resting(id: u64, side: TradeSide, qty: u64, px: i64) -> Order {
    Order {
        id,
        symbol: String::from("AB"),
        side,
        qty,
        price: Price::from(px),
        acc_fill_qty: 0,
        ord_type: OrderType::LIMIT,
        ts: 1,
        update_ts: 1,
        state: OrderState::LIVE,
        tif: OrderTimeInForce::GTC,
        action: OrderAction::PLACE,
    }
}

fn ids(book: &OrderBook) -> Vec<u64> {
    let mut out = Vec::new();
    let mut i = 0;
    while let Some(o) = book.get(i) {
        out.push(o.id);
        i += 1;
    }
    out
}

#[test]
fn new_book_is_empty() {
    let book = OrderBook::new("AB", TradeSide::BUY);
    assert_eq!(book.size(), 0);
    assert!(book.head().is_none());
    assert!(book.get(0).is_none());
}

#[test]
fn sell_book_sorts_by_rising_price_then_id() {
    let mut book = OrderBook::new("AB", TradeSide::SELL);
    for (id, px) in [(5, 101), (2, 100), (9, 99), (1, 100), (4, 101)] {
        assert_eq!(book.add(resting(id, TradeSide::SELL, 1, px)), Ok(()));
    }
    assert_eq!(ids(&book), vec![9, 1, 2, 4, 5]);
    assert_eq!(book.head().unwrap().id, 9);
    assert_eq!(book.size(), 5);
}

#[test]
fn buy_book_sorts_by_falling_price_then_id() {
    let mut book = OrderBook::new("AB", TradeSide::BUY);
    for (id, px) in [(5, 101), (2, 100), (9, 99), (1, 100), (4, 101)] {
        assert_eq!(book.add(resting(id, TradeSide::BUY, 1, px)), Ok(()));
    }
    assert_eq!(ids(&book), vec![4, 5, 1, 2, 9]);
    assert_eq!(book.head().unwrap().id, 4);
}

#[test]
fn add_is_idempotent_by_key() {
    let mut book = OrderBook::new("AB", TradeSide::BUY);
    assert_eq!(book.add(resting(1, TradeSide::BUY, 5, 100)), Ok(()));
    let mut again = resting(1, TradeSide::BUY, 9, 100);
    again.price = Price::new(10000, 2);
    assert_eq!(book.add(again), Ok(()));
    assert_eq!(book.size(), 1);
    assert_eq!(book.head().unwrap().qty, 5);
}

#[test]
fn add_refuses_what_cannot_rest() {
    let mut book = OrderBook::new("AB", TradeSide::BUY);
    assert_eq!(book.add(resting(1, TradeSide::SELL, 5, 100)), Err(BookError::SideMismatch));
    let mut foreign = resting(1, TradeSide::BUY, 5, 100);
    foreign.symbol = String::from("CD");
    assert_eq!(book.add(foreign), Err(BookError::SymbolMismatch));
    let mut done = resting(1, TradeSide::BUY, 5, 100);
    done.state = OrderState::CANCELED;
    assert_eq!(book.add(done), Err(BookError::Terminal));
    let mut filled = resting(1, TradeSide::BUY, 5, 100);
    filled.acc_fill_qty = 5;
    assert_eq!(book.add(filled), Err(BookError::NothingLeft));
    assert_eq!(book.size(), 0);
    assert_eq!(BookError::SideMismatch.to_string(), "order trade side mismatch");
}

#[test]
fn del_by_key_takes_the_order_out() {
    let mut book = OrderBook::new("AB", TradeSide::SELL);
    for (id, px) in [(1, 100), (2, 101), (3, 102)] {
        book.add(resting(id, TradeSide::SELL, 1, px)).unwrap();
    }
    let key = OrderKey { sequence_id: 2, price: Price::from(101), side: TradeSide::SELL };
    assert!(book.exist_by_key(&key));
    assert_eq!(book.del_by_key(&key).unwrap().id, 2);
    assert!(!book.exist_by_key(&key));
    assert!(book.del_by_key(&key).is_none());
    assert_eq!(ids(&book), vec![1, 3]);
    let wrong_price = OrderKey { sequence_id: 1, price: Price::from(101), side: TradeSide::SELL };
    assert!(!book.exist_by_key(&wrong_price));
    assert!(book.del_by_key(&wrong_price).is_none());
    assert_eq!(book.del(&resting(3, TradeSide::SELL, 1, 102)).unwrap().id, 3);
    assert_eq!(ids(&book), vec![1]);
}

#[test]
fn fill_head_in_part_keeps_the_order() {
    let mut book = OrderBook::new("AB", TradeSide::SELL);
    book.add(resting(1, TradeSide::SELL, 5, 100)).unwrap();
    book.add(resting(2, TradeSide::SELL, 5, 101)).unwrap();
    let maker = book.fill_head(3);
    assert_eq!(maker.id, 1);
    assert_eq!(maker.acc_fill_qty, 3);
    assert_eq!(maker.state, OrderState::PARTIAL_FILLED);
    assert_eq!(ids(&book), vec![1, 2]);
    assert_eq!(book.head().unwrap().remain(), 2);
}

#[test]
fn fill_head_in_full_removes_the_order() {
    let mut book = OrderBook::new("AB", TradeSide::SELL);
    book.add(resting(1, TradeSide::SELL, 5, 100)).unwrap();
    book.add(resting(2, TradeSide::SELL, 5, 101)).unwrap();
    let maker = book.fill_head(5);
    assert_eq!(maker.id, 1);
    assert_eq!(maker.acc_fill_qty, 5);
    assert_eq!(maker.state, OrderState::FULL_FILLED);
    assert_eq!(ids(&book), vec![2]);
}

#[test]
fn add_under_a_resting_key_succeeds_and_keeps_the_resting_order() {
    let mut book = OrderBook::new("AB", TradeSide::BUY);
    let mut first = resting(1, TradeSide::BUY, 5, 100);
    first.acc_fill_qty = 2;
    first.state = OrderState::PARTIAL_FILLED;
    book.add(first.clone()).unwrap();
    book.add(resting(2, TradeSide::BUY, 7, 99)).unwrap();

    let mut terminal = resting(1, TradeSide::BUY, 9, 100);
    terminal.state = OrderState::CANCELED;
    assert_eq!(book.add(terminal), Ok(()));

    let mut foreign = resting(1, TradeSide::BUY, 9, 100);
    foreign.symbol = String::from("CD");
    assert_eq!(book.add(foreign), Ok(()));

    let mut filled = resting(1, TradeSide::BUY, 9, 100);
    filled.acc_fill_qty = 9;
    assert_eq!(book.add(filled), Ok(()));

    assert_eq!(book.size(), 2);
    assert_eq!(ids(&book), vec![1, 2]);
    assert_eq!(book.head().unwrap(), &first);
    assert_eq!(book.head().unwrap().qty, 5);
    assert_eq!(book.head().unwrap().acc_fill_qty, 2);
    assert_eq!(book.head().unwrap().state, OrderState::PARTIAL_FILLED);
    assert_eq!(book.get(1).unwrap().qty, 7);
}

#[test]
fn add_of_the_other_side_is_refused_even_under_a_resting_key() {
    let mut book = OrderBook::new("AB", TradeSide::BUY);
    book.add(resting(1, TradeSide::BUY, 5, 100)).unwrap();
    assert_eq!(book.add(resting(1, TradeSide::SELL, 5, 100)), Err(BookError::SideMismatch));
    assert_eq!(book.size(), 1);
}

#[test]
fn add_refuses_what_cannot_rest_where_the_key_is_new() {
    let mut book = OrderBook::new("AB", TradeSide::BUY);
    book.add(resting(1, TradeSide::BUY, 5, 100)).unwrap();
    let mut done = resting(2, TradeSide::BUY, 5, 100);
    done.state = OrderState::FULL_FILLED;
    assert_eq!(book.add(done), Err(BookError::Terminal));
    let mut foreign = resting(1, TradeSide::BUY, 5, 101);
    foreign.symbol = String::from("CD");
    assert_eq!(book.add(foreign), Err(BookError::SymbolMismatch));
    let mut filled = resting(3, TradeSide::BUY, 5, 100);
    filled.acc_fill_qty = 5;
    assert_eq!(book.add(filled), Err(BookError::NothingLeft));
    assert_eq!(ids(&book), vec![1]);
}
