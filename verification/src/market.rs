use crate::book::head_after_fill;
use crate::book::holds_key;
use crate::book::resting;
use crate::book::sorted;
use crate::book::OrderBook;
use crate::guarantees::lemma_cancel_keeps_book;
use crate::guarantees::lemma_match_keeps_book;
use crate::order::Order;
use crate::order::OrderKey;
use crate::order::OrderState;
use crate::order::OrderTimeInForce;
use crate::order::OrderType;
use crate::order::TradeSide;
use crate::price::Price;
use crate::utils::now_ts;
use vstd::prelude::*;
use vstd::string::StringExecFns;

verus! {

/// One event of a batch: a fill between the incoming order (the taker) and a
/// resting order (the maker), or the cancellation of the taker, which has
/// quantity and price zero, maker 0 and maker state `INIT`.
#[derive(Clone, Debug, PartialEq, Eq)]
pub struct MatchTrade {
    pub symbol: String,
    pub qty: u64,
    pub px: Price,
    pub taker_oid: u64,
    pub maker_oid: u64,
    pub taker_state: OrderState,
    pub maker_state: OrderState,
    pub ts: u128,
}

/// The event that ends an order of `symbol` in `state` without a fill.
pub open spec fn cancel_event(symbol: String, oid: u64, state: OrderState, ts: u128) -> MatchTrade {
    MatchTrade {
        symbol: symbol,
        qty: 0,
        px: Price { digits: 0, scale: 0 },
        taker_oid: oid,
        maker_oid: 0,
        taker_state: state,
        maker_state: OrderState::INIT,
        ts: ts,
    }
}

/// What is left to fill in the first `n` orders of `makers`, together.
pub open spec fn depth(makers: Seq<Order>, n: nat) -> nat
    decreases n,
{
    if n == 0 {
        0
    } else {
        depth(makers, (n - 1) as nat) + if n <= makers.len() {
            makers[n - 1].left()
        } else {
            0
        }
    }
}

/// The sweep for `need` units goes on past place `i`: the taker crosses the
/// maker there, and the makers before it do not yet cover the need.
pub open spec fn passes(taker: Order, makers: Seq<Order>, need: nat, i: int) -> bool {
    taker.crosses(makers[i]) && depth(makers, i as nat) < need
}

/// The first place at or behind `k` where a sweep for `need` units stops:
/// where the book ends, the taker does not cross, or the orders before it
/// already cover the need.
pub open spec fn sweep_from(taker: Order, makers: Seq<Order>, need: nat, k: nat) -> nat
    decreases makers.len() - k,
{
    if k >= makers.len() || !taker.crosses(makers[k as int]) || depth(makers, k) >= need {
        k
    } else {
        sweep_from(taker, makers, need, k + 1)
    }
}

/// How many makers, from the best on, a sweep for `need` units reaches.
pub open spec fn sweep_end(taker: Order, makers: Seq<Order>, need: nat) -> nat {
    sweep_from(taker, makers, need, 0)
}

/// Whether the makers that the taker crosses cover `need` units.
pub open spec fn fillable(taker: Order, makers: Seq<Order>, need: nat) -> bool {
    depth(makers, sweep_end(taker, makers, need)) >= need
}

/// How many makers the taker trades with: none for a fill-or-kill order that
/// cannot be filled in full, else as far as the sweep for what it has left.
pub open spec fn taken(taker: Order, makers: Seq<Order>) -> nat {
    if taker.tif == OrderTimeInForce::FOK && !fillable(taker, makers, taker.left()) {
        0
    } else {
        sweep_end(taker, makers, taker.left())
    }
}

/// The quantity of the trade with the `i`-th maker: all that the maker has
/// left, or what the taker still needs after the makers before it.
pub open spec fn fill_qty(makers: Seq<Order>, need: nat, i: int) -> nat {
    let before = depth(makers, i as nat);
    if before >= need {
        0
    } else if makers[i].left() <= need - before {
        makers[i].left()
    } else {
        (need - before) as nat
    }
}

/// The trade of the taker with the `i`-th maker, at the maker's price.
pub open spec fn fill_event(taker: Order, makers: Seq<Order>, i: int, now: u128) -> MatchTrade {
    let need = taker.left();
    let after = depth(makers, (i + 1) as nat);
    MatchTrade {
        symbol: taker.symbol,
        qty: fill_qty(makers, need, i) as u64,
        px: makers[i].price,
        taker_oid: taker.id,
        maker_oid: makers[i].id,
        taker_state: if after >= need {
            OrderState::FULL_FILLED
        } else {
            OrderState::PARTIAL_FILLED
        },
        maker_state: if after <= need {
            OrderState::FULL_FILLED
        } else {
            OrderState::PARTIAL_FILLED
        },
        ts: now,
    }
}

/// The first `n` trades of the taker, in the order of the book.
pub open spec fn fill_events(taker: Order, makers: Seq<Order>, n: nat, now: u128) -> Seq<
    MatchTrade,
> {
    Seq::new(n, |i: int| fill_event(taker, makers, i, now))
}

/// The maker side once `k` makers were reached for `need` units: those
/// filled in full are gone, and one filled in part stays at the head.
pub open spec fn makers_left(makers: Seq<Order>, need: nat, k: nat) -> Seq<Order> {
    if k > 0 && depth(makers, k) > need {
        makers.skip(k - 1).update(
            0,
            head_after_fill(makers[k - 1], fill_qty(makers, need, k - 1)),
        )
    } else {
        makers.skip(k as int)
    }
}

/// The maker side after the match.
pub open spec fn makers_after(taker: Order, makers: Seq<Order>) -> Seq<Order> {
    makers_left(makers, taker.left(), taken(taker, makers))
}

/// How much of the taker the match fills.
pub open spec fn filled_qty(taker: Order, makers: Seq<Order>) -> nat {
    let reached = depth(makers, taken(taker, makers));
    if reached >= taker.left() {
        taker.left()
    } else {
        reached
    }
}

/// The taker after its fills: untouched where it traded with nobody.
pub open spec fn taker_after(taker: Order, makers: Seq<Order>) -> Order {
    let got = filled_qty(taker, makers);
    if taken(taker, makers) == 0 {
        taker
    } else {
        taker.filled(
            got,
            if got == taker.left() {
                OrderState::FULL_FILLED
            } else {
                OrderState::PARTIAL_FILLED
            },
        )
    }
}

/// The event that closes the batch where something of the taker is left and
/// the taker may not rest: a cancellation for an order that never filled, a
/// partial cancellation otherwise; a fill-or-kill order is always cancelled.
pub open spec fn closing_event(taker: Order, makers: Seq<Order>, now: u128) -> Option<MatchTrade> {
    let end = taker_after(taker, makers);
    if end.left() == 0 {
        None
    } else {
        match taker.tif {
            OrderTimeInForce::GTC => None,
            OrderTimeInForce::IOC => Some(
                cancel_event(
                    taker.symbol,
                    taker.id,
                    if end.acc_fill_qty == 0 {
                        OrderState::CANCELED
                    } else {
                        OrderState::PARTIAL_CANCELLED
                    },
                    now,
                ),
            ),
            OrderTimeInForce::FOK => Some(
                cancel_event(taker.symbol, taker.id, OrderState::CANCELED, now),
            ),
        }
    }
}

/// The order that comes to rest on the taker's side: what is left of a
/// good-till-cancelled limit order, unless it came in a terminal state.
pub open spec fn rests(taker: Order, makers: Seq<Order>) -> Option<Order> {
    let end = taker_after(taker, makers);
    if end.left() > 0 && taker.tif == OrderTimeInForce::GTC && taker.ord_type == OrderType::LIMIT
        && !end.state.deletable() {
        Some(end)
    } else {
        None
    }
}

/// The batch that a match emits: the fills in the order of the book, then
/// the closing event if there is one.
pub open spec fn match_events(taker: Order, makers: Seq<Order>, now: u128) -> Seq<MatchTrade> {
    let fills = fill_events(taker, makers, taken(taker, makers), now);
    match closing_event(taker, makers, now) {
        Some(e) => fills.push(e),
        None => fills,
    }
}

/// A sweep stops at or behind the place where it starts, within the book.
pub proof fn lemma_sweep_bounds(taker: Order, makers: Seq<Order>, need: nat, k: nat)
    requires
        k <= makers.len(),
    ensures
        k <= sweep_from(taker, makers, need, k) <= makers.len(),
    decreases makers.len() - k,
{
    if !(k >= makers.len() || !taker.crosses(makers[k as int]) || depth(makers, k) >= need) {
        lemma_sweep_bounds(taker, makers, need, k + 1);
    }
}

/// The sweep stops at `k` where all makers before `k` are crossed without
/// covering the need, and at `k` one of the three reasons to stop holds.
pub proof fn lemma_sweep_stops(taker: Order, makers: Seq<Order>, need: nat, k: nat, j: nat)
    requires
        j <= k <= makers.len(),
        forall|i: int| 0 <= i < k ==> #[trigger] passes(taker, makers, need, i),
        k == makers.len() || !taker.crosses(makers[k as int]) || depth(makers, k) >= need,
    ensures
        sweep_from(taker, makers, need, j) == k,
    decreases k - j,
{
    if j < k {
        assert(passes(taker, makers, need, j as int));
        lemma_sweep_stops(taker, makers, need, k, j + 1);
    }
}

/// Every maker before the end of the sweep is crossed, and the makers before
/// it do not yet cover the need.
pub proof fn lemma_sweep_inside(taker: Order, makers: Seq<Order>, need: nat, k: nat, i: int)
    requires
        k <= i < sweep_from(taker, makers, need, k),
        k <= makers.len(),
    ensures
        i < makers.len(),
        passes(taker, makers, need, i),
    decreases makers.len() - k,
{
    lemma_sweep_bounds(taker, makers, need, k);
    if !(k >= makers.len() || !taker.crosses(makers[k as int]) || depth(makers, k) >= need) {
        if i > k {
            lemma_sweep_inside(taker, makers, need, k + 1, i);
        }
    }
}

/// At the end of the sweep one of the three reasons to stop holds.
pub proof fn lemma_sweep_reason(taker: Order, makers: Seq<Order>, need: nat, k: nat)
    requires
        k <= makers.len(),
    ensures
        ({
            let e = sweep_from(taker, makers, need, k);
            e == makers.len() || !taker.crosses(makers[e as int]) || depth(makers, e) >= need
        }),
    decreases makers.len() - k,
{
    if !(k >= makers.len() || !taker.crosses(makers[k as int]) || depth(makers, k) >= need) {
        lemma_sweep_bounds(taker, makers, need, k + 1);
        lemma_sweep_reason(taker, makers, need, k + 1);
    }
}

impl MatchTrade {
    /// The event that cancels an order that never filled.
    fn new_taker_cancel(symbol: String, oid: u64, ts: u128) -> (t: MatchTrade)
        ensures
            t == cancel_event(symbol, oid, OrderState::CANCELED, ts),
    {
        MatchTrade {
            symbol: symbol,
            qty: 0,
            px: Price::zero(),
            taker_oid: oid,
            maker_oid: 0,
            taker_state: OrderState::CANCELED,
            maker_state: OrderState::INIT,
            ts: ts,
        }
    }

    /// The event that cancels what is left of an order that filled in part.
    fn new_taker_partial_cancel(symbol: String, oid: u64, ts: u128) -> (t: MatchTrade)
        ensures
            t == cancel_event(symbol, oid, OrderState::PARTIAL_CANCELLED, ts),
    {
        MatchTrade {
            symbol: symbol,
            qty: 0,
            px: Price::zero(),
            taker_oid: oid,
            maker_oid: 0,
            taker_state: OrderState::PARTIAL_CANCELLED,
            maker_state: OrderState::INIT,
            ts: ts,
        }
    }
}

/// Whether the makers that `taker` crosses, from the best on, have `need`
/// units left between them. Looks at the book and changes nothing.
fn covers(taker: &Order, maker_book: &OrderBook, need: u64) -> (r: bool)
    requires
        maker_book.wf(),
    ensures
        r == fillable(*taker, maker_book@, need as nat),
{
    let ghost makers = maker_book@;
    let n = maker_book.size();
    let mut k: usize = 0;
    let mut short: u64 = need;
    loop
        invariant
            maker_book.wf(),
            makers == maker_book@,
            n == makers.len(),
            k <= makers.len(),
            short <= need,
            depth(makers, k as nat) + short == need,
            forall|i: int| 0 <= i < k ==> #[trigger] passes(*taker, makers, need as nat, i),
        decreases makers.len() - k,
    {
        if short == 0 {
            proof {
                lemma_sweep_stops(*taker, makers, need as nat, k as nat, 0);
            }
            return true;
        }
        match maker_book.get(k) {
            None => {
                proof {
                    lemma_sweep_stops(*taker, makers, need as nat, k as nat, 0);
                }
                return false;
            },
            Some(maker) => {
                assert(resting(makers[k as int], maker_book.symbol(), maker_book.side()));
                if !taker.can_trade(maker) {
                    proof {
                        lemma_sweep_stops(*taker, makers, need as nat, k as nat, 0);
                    }
                    return false;
                }
                let left = maker.remain();
                if left >= short {
                    proof {
                        assert(passes(*taker, makers, need as nat, k as int));
                        lemma_sweep_stops(*taker, makers, need as nat, (k + 1) as nat, 0);
                    }
                    return true;
                }
                assert(passes(*taker, makers, need as nat, k as int));
                short -= left;
                k += 1;
            },
        }
    }
}

/// Matches `taker` against `maker_book`, the book of the other side, and
/// lets what is left of it rest in `taker_book` where its policy allows.
fn match_book(
    taker_order: Order,
    maker_book: &mut OrderBook,
    taker_book: &mut OrderBook,
    now: u128,
) -> (trades: Vec<MatchTrade>)
    requires
        old(maker_book).wf(),
        old(taker_book).wf(),
        taker_order.wf(),
        old(taker_book).side() == taker_order.side,
        old(taker_book).symbol() == taker_order.symbol@,
    ensures
        final(maker_book).wf(),
        final(taker_book).wf(),
        final(maker_book).side() == old(maker_book).side(),
        final(taker_book).side() == old(taker_book).side(),
        final(maker_book).symbol() == old(maker_book).symbol(),
        final(taker_book).symbol() == old(taker_book).symbol(),
        matched(
            taker_order,
            old(maker_book)@,
            old(taker_book)@,
            now,
            final(maker_book)@,
            final(taker_book)@,
            trades@,
        ),
{
    let ghost makers = maker_book@;
    let ghost taker0 = taker_order;
    let mut taker = taker_order;
    let mut trades: Vec<MatchTrade> = Vec::new();
    if taker_book.exist_by_key(&OrderKey::new(&taker)) {
        return trades;
    }
    let need = taker.remain();
    let mut remain = need;
    let feasible = match taker.tif {
        OrderTimeInForce::FOK => covers(&taker, maker_book, need),
        _ => true,
    };
    if feasible {
        loop
            invariant
                maker_book.wf(),
                maker_book.side() == old(maker_book).side(),
                maker_book.symbol() == old(maker_book).symbol(),
                makers == old(maker_book)@,
                taker0 == taker_order,
                taker0.wf(),
                need == taker0.left(),
                remain <= need,
                trades@.len() <= makers.len(),
                forall|i: int|
                    0 <= i < trades@.len() ==> #[trigger] passes(taker0, makers, need as nat, i),
                trades@ == fill_events(taker0, makers, trades@.len(), now),
                depth(makers, trades@.len()) >= need ==> remain == 0,
                depth(makers, trades@.len()) < need ==> remain == need - depth(
                    makers,
                    trades@.len(),
                ),
                maker_book@ == makers_left(makers, need as nat, trades@.len()),
                taker == if trades@.len() == 0 {
                    taker0
                } else {
                    taker0.filled(
                        (need - remain) as nat,
                        if remain == 0 {
                            OrderState::FULL_FILLED
                        } else {
                            OrderState::PARTIAL_FILLED
                        },
                    )
                },
            ensures
                remain == 0 || trades@.len() == makers.len() || !taker0.crosses(
                    makers[trades@.len() as int],
                ),
            decreases makers.len() - trades@.len(),
        {
            if remain == 0 {
                break ;
            }
            let ghost j = trades@.len();
            assert(maker_book@ == makers.skip(j as int));
            let (left, crossing) = match maker_book.head() {
                None => { break ; },
                Some(maker) => {
                    assert(*maker == makers[j as int]);
                    assert(resting(maker_book@[0], maker_book.symbol(), maker_book.side()));
                    (maker.remain(), taker.can_trade(maker))
                },
            };
            if !crossing {
                break ;
            }
            let qty = if remain < left {
                remain
            } else {
                left
            };
            let maker = maker_book.fill_head(qty);
            remain -= qty;
            if remain > 0 {
                taker.fill(qty, OrderState::PARTIAL_FILLED);
            } else {
                taker.fill(qty, OrderState::FULL_FILLED);
            }
            let trade = MatchTrade {
                symbol: taker.symbol.clone(),
                qty: qty,
                px: maker.price,
                taker_oid: taker.id,
                maker_oid: maker.id,
                taker_state: taker.state,
                maker_state: maker.state,
                ts: now,
            };
            proof {
                assert(depth(makers, (j + 1) as nat) == depth(makers, j) + makers[j as int].left());
                assert(passes(taker0, makers, need as nat, j as int));
                assert(trade == fill_event(taker0, makers, j as int, now));
                assert(trades@.push(trade) =~= fill_events(taker0, makers, (j + 1) as nat, now));
                if qty == left {
                    assert(makers.skip(j as int).drop_first() =~= makers.skip(j as int + 1));
                }
            }
            trades.push(trade);
        }
        proof {
            lemma_sweep_stops(taker0, makers, need as nat, trades@.len(), 0);
        }
    } else {
        assert(makers.skip(0) =~= makers);
    }
    assert(trades@.len() == taken(taker0, makers));
    assert(taker == taker_after(taker0, makers));
    let ghost fills = trades@;
    assert(fills == fill_events(taker0, makers, taken(taker0, makers), now));
    if remain > 0 {
        match taker.tif {
            OrderTimeInForce::GTC => {
                match taker.ord_type {
                    OrderType::LIMIT => {
                        let _ = taker_book.add(taker);
                    },
                    _ => {},
                }
            },
            OrderTimeInForce::IOC => {
                if remain == taker.qty {
                    trades.push(MatchTrade::new_taker_cancel(taker.symbol.clone(), taker.id, now));
                } else {
                    trades.push(
                        MatchTrade::new_taker_partial_cancel(taker.symbol.clone(), taker.id, now),
                    );
                }
            },
            OrderTimeInForce::FOK => {
                trades.push(MatchTrade::new_taker_cancel(taker.symbol.clone(), taker.id, now));
            },
        }
    }
    proof {
        match closing_event(taker0, makers, now) {
            Some(e) => {
                assert(trades@ == fills.push(e));
            },
            None => {
                assert(trades@ == fills);
            },
        }
    }
    trades
}

/// A maker side as a well-formed book holds it: sorted by key, each order of
/// `symbol` and `side`, unfinished and with something left to fill.
pub open spec fn side_wf(makers: Seq<Order>, symbol: Seq<char>, side: TradeSide) -> bool {
    &&& sorted(makers)
    &&& forall|i: int| 0 <= i < makers.len() ==> resting(#[trigger] makers[i], symbol, side)
}

/// Every order of the side is a good-till-cancelled limit order.
pub open spec fn all_limit_gtc(side: Seq<Order>) -> bool {
    forall|i: int|
        0 <= i < side.len() ==> (#[trigger] side[i]).ord_type == OrderType::LIMIT && side[i].tif
            == OrderTimeInForce::GTC
}

/// No bid reaches an ask: every buy order bids less than every sell order
/// asks.
pub open spec fn uncrossed(bids: Seq<Order>, asks: Seq<Order>) -> bool {
    forall|i: int, j: int|
        #![trigger bids[i], asks[j]]
        0 <= i < bids.len() && 0 <= j < asks.len() ==> bids[i].price.below(asks[j].price)
}

/// The two sides, seen from an order of `side`, do not reach each other.
pub open spec fn apart(side: TradeSide, own: Seq<Order>, makers: Seq<Order>) -> bool {
    match side {
        TradeSide::BUY => uncrossed(own, makers),
        TradeSide::SELL => uncrossed(makers, own),
    }
}

/// The side that trades against `side`.
pub open spec fn other(side: TradeSide) -> TradeSide {
    match side {
        TradeSide::BUY => TradeSide::SELL,
        TradeSide::SELL => TradeSide::BUY,
    }
}

/// What a match of `taker` makes of the two sides and which batch it emits.
/// A taker whose key already rests on its own side changes nothing and emits
/// nothing. Otherwise the fills come in the order of the maker side, the
/// makers filled in full leave it, and what rests is put at its place in the
/// order of its own side.
pub open spec fn matched(
    taker: Order,
    makers: Seq<Order>,
    own: Seq<Order>,
    now: u128,
    makers_then: Seq<Order>,
    own_then: Seq<Order>,
    trades: Seq<MatchTrade>,
) -> bool {
    if holds_key(own, taker.key()) {
        &&& trades.len() == 0
        &&& makers_then == makers
        &&& own_then == own
    } else {
        &&& trades == match_events(taker, makers, now)
        &&& makers_then == makers_after(taker, makers)
        &&& match rests(taker, makers) {
            Some(o) => sorted(own_then) && exists|i: int|
                0 <= i <= own.len() && own_then == #[trigger] own.insert(i, o),
            None => own_then == own,
        }
    }
}

/// What a cancellation makes of the side it looks at and which batch it
/// emits: the order that rests under the key of `cancel` leaves the side with
/// one event, a partial cancellation if it had filled in part; where no
/// order rests under the key, nothing changes and nothing is emitted.
pub open spec fn cancelled(
    cancel: Order,
    own: Seq<Order>,
    now: u128,
    own_then: Seq<Order>,
    trades: Seq<MatchTrade>,
) -> bool {
    if holds_key(own, cancel.key()) {
        exists|i: int|
            0 <= i < own.len() && (#[trigger] own[i]).key().same(cancel.key()) && own_then
                == own.remove(i) && trades == seq![
                cancel_event(
                    own[i].symbol,
                    own[i].id,
                    if own[i].acc_fill_qty != 0 {
                        OrderState::PARTIAL_CANCELLED
                    } else {
                        OrderState::CANCELED
                    },
                    now,
                ),
            ]
    } else {
        own_then == own && trades.len() == 0
    }
}

/// Takes the order under the key of `cancel` out of `book` and reports it.
fn cancel_book(book: &mut OrderBook, cancel: Order, now: u128) -> (trades: Vec<MatchTrade>)
    requires
        old(book).wf(),
        old(book).side() == cancel.side,
    ensures
        final(book).wf(),
        final(book).side() == old(book).side(),
        final(book).symbol() == old(book).symbol(),
        cancelled(cancel, old(book)@, now, final(book)@, trades@),
{
    let mut trades: Vec<MatchTrade> = Vec::new();
    let order_key = OrderKey::new(&cancel);
    match book.del_by_key(&order_key) {
        Some(order) => {
            assert(resting(order, old(book).symbol(), old(book).side()));
            let trade = if order.remain() != order.qty {
                MatchTrade::new_taker_partial_cancel(order.symbol.clone(), order.id, now)
            } else {
                MatchTrade::new_taker_cancel(order.symbol.clone(), order.id, now)
            };
            trades.push(trade);
            assert(trades@ =~= seq![trade]);
        },
        None => {},
    }
    trades
}

/// The two sides of one symbol, with the price and time of the last match.
#[derive(Debug)]
pub struct MarketBook {
    pub symbol: String,
    buy: OrderBook,
    sell: OrderBook,
    px: Price,
    ts: u128,
}

impl MarketBook {
    /// The symbol whose orders the book holds.
    pub closed spec fn name(&self) -> Seq<char> {
        self.symbol@
    }

    /// The resting buy orders, best (highest price) first.
    pub closed spec fn bids(&self) -> Seq<Order> {
        self.buy@
    }

    /// The resting sell orders, best (lowest price) first.
    pub closed spec fn asks(&self) -> Seq<Order> {
        self.sell@
    }

    /// The price of the last event emitted by a match; zero before the first.
    pub closed spec fn last_px(&self) -> Price {
        self.px
    }

    /// The time of the last match attempt.
    pub closed spec fn last_ts(&self) -> u128 {
        self.ts
    }

    /// Both sides are well-formed books of this symbol, each of its side;
    /// every resting order is a good-till-cancelled limit order; and no bid
    /// reaches an ask.
    pub closed spec fn wf(&self) -> bool {
        &&& self.buy.wf()
        &&& self.sell.wf()
        &&& self.buy.side() == TradeSide::BUY
        &&& self.sell.side() == TradeSide::SELL
        &&& self.buy.symbol() == self.symbol@
        &&& self.sell.symbol() == self.symbol@
        &&& all_limit_gtc(self.buy@)
        &&& all_limit_gtc(self.sell@)
        &&& uncrossed(self.buy@, self.sell@)
    }

    /// The side that an order of `side` trades against.
    pub open spec fn makers_for(&self, side: TradeSide) -> Seq<Order> {
        match side {
            TradeSide::BUY => self.asks(),
            TradeSide::SELL => self.bids(),
        }
    }

    /// The side on which an order of `side` rests.
    pub open spec fn own_for(&self, side: TradeSide) -> Seq<Order> {
        match side {
            TradeSide::BUY => self.bids(),
            TradeSide::SELL => self.asks(),
        }
    }

    /// What `try_match_at` makes of the book `pre` for `taker` at time `now`.
    pub open spec fn match_result(
        pre: MarketBook,
        taker: Order,
        now: u128,
        post: MarketBook,
        trades: Seq<MatchTrade>,
    ) -> bool {
        &&& post.name() == pre.name()
        &&& post.last_ts() == now
        &&& post.last_px() == if trades.len() > 0 {
            trades.last().px
        } else {
            pre.last_px()
        }
        &&& matched(
            taker,
            pre.makers_for(taker.side),
            pre.own_for(taker.side),
            now,
            post.makers_for(taker.side),
            post.own_for(taker.side),
            trades,
        )
    }

    /// What `try_cancel_at` makes of the book `pre` for `cancel` at `now`.
    pub open spec fn cancel_result(
        pre: MarketBook,
        cancel: Order,
        now: u128,
        post: MarketBook,
        trades: Seq<MatchTrade>,
    ) -> bool {
        &&& post.name() == pre.name()
        &&& post.last_ts() == pre.last_ts()
        &&& post.last_px() == pre.last_px()
        &&& post.makers_for(cancel.side) == pre.makers_for(cancel.side)
        &&& cancelled(
            cancel,
            pre.own_for(cancel.side),
            now,
            post.own_for(cancel.side),
            trades,
        )
    }

    /// In a well-formed book each side is sorted by key, and every order on it
    /// is of the book's symbol and of that side, unfinished, with something
    /// left to fill, and a good-till-cancelled limit order; no bid reaches
    /// an ask.
    pub proof fn lemma_sides(&self)
        requires
            self.wf(),
        ensures
            sorted(self.bids()),
            sorted(self.asks()),
            side_wf(self.bids(), self.name(), TradeSide::BUY),
            side_wf(self.asks(), self.name(), TradeSide::SELL),
            all_limit_gtc(self.bids()),
            all_limit_gtc(self.asks()),
            uncrossed(self.bids(), self.asks()),
            forall|i: int|
                0 <= i < self.bids().len() ==> resting(
                    #[trigger] self.bids()[i],
                    self.name(),
                    TradeSide::BUY,
                ),
            forall|i: int|
                0 <= i < self.asks().len() ==> resting(
                    #[trigger] self.asks()[i],
                    self.name(),
                    TradeSide::SELL,
                ),
    {
    }

    /// An empty book for `symbol`; no price yet, and the time of its making.
    pub fn new(symbol: &str) -> (book: MarketBook)
        ensures
            book.wf(),
            book.name() == symbol@,
            book.bids() == Seq::<Order>::empty(),
            book.asks() == Seq::<Order>::empty(),
            book.last_px() == (Price { digits: 0, scale: 0 }),
    {
        MarketBook {
            symbol: String::from_str(symbol),
            buy: OrderBook::new(symbol, TradeSide::BUY),
            sell: OrderBook::new(symbol, TradeSide::SELL),
            px: Price::zero(),
            ts: now_ts(),
        }
    }

    /// Cancels the order that rests under the key of `cancel`, at the time
    /// that the clock shows.
    pub fn try_cancel(&mut self, cancel: Order) -> (trades: Vec<MatchTrade>)
        requires
            old(self).wf(),
        ensures
            final(self).wf(),
            exists|now: u128|
                Self::cancel_result(*old(self), cancel, now, *final(self), trades@),
    {
        let now = now_ts();
        let trades = self.try_cancel_at(cancel, now);
        assert(Self::cancel_result(*old(self), cancel, now, *self, trades@));
        trades
    }

    /// Cancels the order that rests under the key of `cancel`; the event, if
    /// there is one, carries the time `now`.
    pub fn try_cancel_at(&mut self, cancel: Order, now: u128) -> (trades: Vec<MatchTrade>)
        requires
            old(self).wf(),
        ensures
            final(self).wf(),
            Self::cancel_result(*old(self), cancel, now, *final(self), trades@),
    {
        let ghost pre = *self;
        let ghost asked = cancel;
        let trades = match cancel.side {
            TradeSide::BUY => cancel_book(&mut self.buy, cancel, now),
            TradeSide::SELL => cancel_book(&mut self.sell, cancel, now),
        };
        proof {
            match asked.side {
                TradeSide::BUY => {
                    lemma_cancel_keeps_book(
                        asked,
                        pre.buy@,
                        pre.sell@,
                        pre.symbol@,
                        now,
                        self.buy@,
                        trades@,
                    );
                },
                TradeSide::SELL => {
                    lemma_cancel_keeps_book(
                        asked,
                        pre.sell@,
                        pre.buy@,
                        pre.symbol@,
                        now,
                        self.sell@,
                        trades@,
                    );
                },
            }
        }
        trades
    }

    /// Matches `taker_order` against the other side, at the time that the
    /// clock shows.
    pub fn try_match(&mut self, taker_order: Order) -> (trades: Vec<MatchTrade>)
        requires
            old(self).wf(),
            taker_order.wf(),
            taker_order.symbol@ == old(self).name(),
        ensures
            final(self).wf(),
            exists|now: u128|
                Self::match_result(*old(self), taker_order, now, *final(self), trades@),
    {
        let now = now_ts();
        let trades = self.try_match_at(taker_order, now);
        assert(Self::match_result(*old(self), taker_order, now, *self, trades@));
        trades
    }

    /// Matches `taker_order` against the other side under price-time
    /// priority; every event of the batch carries the time `now`.
    pub fn try_match_at(&mut self, taker_order: Order, now: u128) -> (trades: Vec<MatchTrade>)
        requires
            old(self).wf(),
            taker_order.wf(),
            taker_order.symbol@ == old(self).name(),
        ensures
            final(self).wf(),
            Self::match_result(*old(self), taker_order, now, *final(self), trades@),
    {
        let ghost pre = *self;
        let ghost taker = taker_order;
        let trades = match taker_order.side {
            TradeSide::BUY => match_book(taker_order, &mut self.sell, &mut self.buy, now),
            TradeSide::SELL => match_book(taker_order, &mut self.buy, &mut self.sell, now),
        };
        proof {
            match taker.side {
                TradeSide::BUY => {
                    lemma_match_keeps_book(
                        taker,
                        pre.sell@,
                        pre.buy@,
                        pre.symbol@,
                        now,
                        self.sell@,
                        self.buy@,
                        trades@,
                    );
                },
                TradeSide::SELL => {
                    lemma_match_keeps_book(
                        taker,
                        pre.buy@,
                        pre.sell@,
                        pre.symbol@,
                        now,
                        self.buy@,
                        self.sell@,
                        trades@,
                    );
                },
            }
        }
        self.ts = now;
        let n = trades.len();
        if n > 0 {
            self.px = trades[n - 1].px;
        }
        trades
    }

    /// Whether the book holds the orders of `symbol`.
    pub fn is_for(&self, symbol: &str) -> (r: bool)
        ensures
            r == (symbol@ == self.name()),
    {
        crate::order::same_text(self.symbol.as_str(), symbol)
    }

    /// How many buy orders rest.
    pub fn buy_size(&self) -> (n: usize)
        ensures
            n == self.bids().len(),
    {
        self.buy.size()
    }

    /// How many sell orders rest.
    pub fn sell_size(&self) -> (n: usize)
        ensures
            n == self.asks().len(),
    {
        self.sell.size()
    }

    /// The best resting buy order, if any.
    pub fn buy_head(&self) -> (r: Option<&Order>)
        ensures
            match r {
                Some(o) => self.bids().len() > 0 && *o == self.bids()[0],
                None => self.bids().len() == 0,
            },
    {
        self.buy.head()
    }

    /// The best resting sell order, if any.
    pub fn sell_head(&self) -> (r: Option<&Order>)
        ensures
            match r {
                Some(o) => self.asks().len() > 0 && *o == self.asks()[0],
                None => self.asks().len() == 0,
            },
    {
        self.sell.head()
    }

    /// The price of the last event emitted by a match; zero before the first.
    pub fn px(&self) -> (p: Price)
        ensures
            p == self.last_px(),
    {
        self.px
    }

    /// The time of the last match attempt.
    pub fn ts(&self) -> (t: u128)
        ensures
            t == self.last_ts(),
    {
        self.ts
    }
}

} // verus!
