use crate::book::head_after_fill;
use crate::book::holds_key;
use crate::book::resting;
use crate::book::sorted;
use crate::market::all_limit_gtc;
use crate::market::apart;
use crate::market::cancel_event;
use crate::market::cancelled;
use crate::market::closing_event;
use crate::market::depth;
use crate::market::fill_event;
use crate::market::fill_events;
use crate::market::fill_qty;
use crate::market::fillable;
use crate::market::lemma_sweep_bounds;
use crate::market::lemma_sweep_inside;
use crate::market::lemma_sweep_reason;
use crate::market::makers_after;
use crate::market::match_events;
use crate::market::matched;
use crate::market::other;
use crate::market::rests;
use crate::market::side_wf;
use crate::market::taken;
use crate::market::taker_after;
use crate::market::MatchTrade;
use crate::order::lemma_key_trichotomy;
use crate::price::lemma_diff_flips;
use crate::price::lemma_order_transitive;
use crate::order::Order;
use crate::order::OrderState;
use crate::order::OrderTimeInForce;
use crate::order::OrderType;
use crate::order::TradeSide;
use vstd::prelude::*;

verus! {

/// The quantities of a batch, added up.
pub open spec fn total_qty(trades: Seq<MatchTrade>) -> nat
    decreases trades.len(),
{
    if trades.len() == 0 {
        0
    } else {
        total_qty(trades.drop_last()) + trades.last().qty as nat
    }
}

/// The taker trades with no more makers than the book holds, crosses each of
/// them, and needs each of them: the makers before any of them do not cover
/// what the taker has left.
pub proof fn lemma_taken_makers(taker: Order, makers: Seq<Order>, i: int)
    requires
        0 <= i < taken(taker, makers),
    ensures
        i < makers.len(),
        taker.crosses(makers[i]),
        depth(makers, i as nat) < taker.left(),
{
    lemma_sweep_inside(taker, makers, taker.left(), 0, i);
}

/// Every fill has a positive quantity, no larger than what its maker had left
/// and no larger than what the taker had left.
pub proof fn lemma_fill_is_positive(
    taker: Order,
    makers: Seq<Order>,
    symbol: Seq<char>,
    side: TradeSide,
    i: int,
)
    requires
        side_wf(makers, symbol, side),
        0 <= i < taken(taker, makers),
    ensures
        0 < fill_qty(makers, taker.left(), i) <= makers[i].left(),
        fill_qty(makers, taker.left(), i) <= taker.left(),
{
    lemma_taken_makers(taker, makers, i);
    assert(resting(makers[i], symbol, side));
}

/// The first `n` fills add up to what the first `n` makers have left, capped
/// by what the taker has left.
pub proof fn lemma_fills_add_up(taker: Order, makers: Seq<Order>, n: nat, now: u128)
    requires
        n <= makers.len(),
        taker.wf(),
        forall|i: int| 0 <= i < makers.len() ==> (#[trigger] makers[i]).wf(),
    ensures
        total_qty(fill_events(taker, makers, n, now)) == if depth(makers, n) >= taker.left() {
            taker.left()
        } else {
            depth(makers, n)
        },
    decreases n,
{
    let all = fill_events(taker, makers, n, now);
    if n > 0 {
        let m = (n - 1) as nat;
        lemma_fills_add_up(taker, makers, m, now);
        assert(all.drop_last() =~= fill_events(taker, makers, m, now));
        assert(all.last() == fill_event(taker, makers, m as int, now));
        assert(makers[m as int].wf());
        assert(depth(makers, n) == depth(makers, m) + makers[m as int].left());
    }
}

/// Quantity conservation for the taker: the quantities of the batch add up
/// to what the taker's filled quantity grows by, and the taker is never
/// filled beyond its quantity.
pub proof fn lemma_taker_conserves(
    taker: Order,
    makers: Seq<Order>,
    symbol: Seq<char>,
    side: TradeSide,
    now: u128,
)
    requires
        taker.wf(),
        side_wf(makers, symbol, side),
    ensures
        total_qty(match_events(taker, makers, now)) == taker_after(taker, makers).acc_fill_qty
            - taker.acc_fill_qty,
        taker_after(taker, makers).acc_fill_qty <= taker.qty,
        taker_after(taker, makers).wf(),
{
    let k = taken(taker, makers);
    lemma_sweep_bounds(taker, makers, taker.left(), 0);
    assert forall|i: int| 0 <= i < makers.len() implies (#[trigger] makers[i]).wf() by {
        assert(resting(makers[i], symbol, side));
    }
    lemma_fills_add_up(taker, makers, k, now);
    let fills = fill_events(taker, makers, k, now);
    match closing_event(taker, makers, now) {
        Some(e) => {
            assert(fills.push(e).drop_last() =~= fills);
            assert(fills.push(e).last().qty == 0);
        },
        None => {},
    }
    if k == 0 {
        assert(depth(makers, 0) == 0);
    }
}

/// Quantity conservation for the makers: the `i`-th fill raises the filled
/// quantity of the `i`-th maker by exactly its quantity, never beyond the
/// maker's quantity; the maker is filled in full exactly where the trade
/// says so.
pub proof fn lemma_maker_conserves(
    taker: Order,
    makers: Seq<Order>,
    symbol: Seq<char>,
    side: TradeSide,
    i: int,
    now: u128,
)
    requires
        taker.wf(),
        side_wf(makers, symbol, side),
        0 <= i < taken(taker, makers),
    ensures
        ({
            let trade = match_events(taker, makers, now)[i];
            let then = head_after_fill(makers[i], trade.qty as nat);
            &&& trade.maker_oid == makers[i].id
            &&& trade.qty > 0
            &&& then.acc_fill_qty == makers[i].acc_fill_qty + trade.qty
            &&& then.acc_fill_qty <= makers[i].qty
            &&& then.state == trade.maker_state
            &&& (trade.maker_state == OrderState::FULL_FILLED <==> then.acc_fill_qty
                == makers[i].qty)
        }),
{
    lemma_fill_is_positive(taker, makers, symbol, side, i);
    lemma_taken_makers(taker, makers, i);
    assert(resting(makers[i], symbol, side));
    assert(depth(makers, (i + 1) as nat) == depth(makers, i as nat) + makers[i].left());
}

/// What is left of the maker side: the makers filled in full are gone, a
/// maker filled in part stays at the head with its filled quantity raised by
/// its trade, and every other maker is untouched.
pub proof fn lemma_makers_remaining(
    taker: Order,
    makers: Seq<Order>,
    symbol: Seq<char>,
    side: TradeSide,
)
    requires
        taker.wf(),
        side_wf(makers, symbol, side),
    ensures
        ({
            let k = taken(taker, makers);
            let then = makers_after(taker, makers);
            if k > 0 && depth(makers, k) > taker.left() {
                &&& then.len() == makers.len() - k + 1
                &&& then[0] == head_after_fill(makers[k - 1], fill_qty(makers, taker.left(), k - 1))
                &&& then[0].left() > 0
                &&& forall|j: int| 1 <= j < then.len() ==> then[j] == makers[k - 1 + j]
            } else {
                &&& then.len() == makers.len() - k
                &&& forall|j: int| 0 <= j < then.len() ==> then[j] == makers[k + j]
            }
        }),
        side_wf(makers_after(taker, makers), symbol, side),
{
    let k = taken(taker, makers);
    let need = taker.left();
    let then = makers_after(taker, makers);
    lemma_sweep_bounds(taker, makers, need, 0);
    if k > 0 && depth(makers, k) > need {
        let at = k - 1;
        lemma_taken_makers(taker, makers, at);
        assert(resting(makers[at], symbol, side));
        assert(depth(makers, k) == depth(makers, at as nat) + makers[at].left());
        assert forall|a: int, b: int| 0 <= a < b < then.len() implies then[a].key().before(
            then[b].key(),
        ) by {
            assert(then[b] == makers[at + b]);
            assert(then[a].key() == makers[at + a].key());
        }
        assert forall|j: int| 0 <= j < then.len() implies resting(
            #[trigger] then[j],
            symbol,
            side,
        ) by {
            assert(resting(makers[at + j], symbol, side));
        }
    } else {
        assert forall|a: int, b: int| 0 <= a < b < then.len() implies then[a].key().before(
            then[b].key(),
        ) by {
            assert(then[a] == makers[k + a] && then[b] == makers[k + b]);
        }
        assert forall|j: int| 0 <= j < then.len() implies resting(
            #[trigger] then[j],
            symbol,
            side,
        ) by {
            assert(resting(makers[k + j], symbol, side));
        }
    }
}

/// Price-time priority: the makers are consumed in the order of the book.
/// The maker of each fill has a better price than every maker behind it, or
/// the same price and a lower id; so has every consumed maker against every
/// maker that stays.
pub proof fn lemma_price_time_priority(
    taker: Order,
    makers: Seq<Order>,
    symbol: Seq<char>,
    side: TradeSide,
    i: int,
    j: int,
    now: u128,
)
    requires
        side_wf(makers, symbol, side),
        0 <= i < taken(taker, makers),
        i < j < makers.len(),
    ensures
        match_events(taker, makers, now)[i].maker_oid == makers[i].id,
        j < taken(taker, makers) ==> match_events(taker, makers, now)[j].maker_oid == makers[j].id,
        match side {
            TradeSide::BUY => makers[j].price.below(makers[i].price),
            TradeSide::SELL => makers[i].price.below(makers[j].price),
        } || (makers[i].price.same(makers[j].price) && makers[i].id < makers[j].id),
{
    assert(makers[i].key().before(makers[j].key()));
    assert(resting(makers[i], symbol, side));
    assert(resting(makers[j], symbol, side));
}

/// Crossing correctness and trade price: every fill is with a maker of the
/// other side at exactly the maker's price; a limit buy never pays more than
/// its price and a limit sell never takes less.
pub proof fn lemma_fills_cross_at_maker_price(taker: Order, makers: Seq<Order>, i: int, now: u128)
    requires
        0 <= i < taken(taker, makers),
    ensures
        ({
            let trade = match_events(taker, makers, now)[i];
            &&& trade.px == makers[i].price
            &&& trade.taker_oid == taker.id
            &&& trade.maker_oid == makers[i].id
            &&& makers[i].side != taker.side
            &&& taker.ord_type == OrderType::LIMIT && taker.side == TradeSide::BUY
                ==> !taker.price.below(trade.px)
            &&& taker.ord_type == OrderType::LIMIT && taker.side == TradeSide::SELL
                ==> !trade.px.below(taker.price)
        }),
{
    lemma_taken_makers(taker, makers, i);
    crate::price::lemma_diff_flips(taker.price, makers[i].price);
}

/// Where the match stops with something of the taker left, it is because no
/// maker is left that the taker crosses: the book is empty or its best order
/// does not cross. (A fill-or-kill order that cannot be filled in full is
/// the one exception: it leaves the book as it was.)
pub proof fn lemma_stops_at_uncrossed(
    taker: Order,
    makers: Seq<Order>,
    symbol: Seq<char>,
    side: TradeSide,
)
    requires
        taker.wf(),
        side_wf(makers, symbol, side),
        taker_after(taker, makers).left() > 0,
        taker.tif != OrderTimeInForce::FOK,
    ensures
        makers_after(taker, makers).len() == 0 || !taker.crosses(makers_after(taker, makers)[0]),
{
    let k = taken(taker, makers);
    let need = taker.left();
    lemma_sweep_bounds(taker, makers, need, 0);
    lemma_sweep_reason(taker, makers, need, 0);
    if k == 0 {
        assert(depth(makers, 0) == 0);
    }
}

/// Residual semantics of a fill-or-kill order: it is filled in full, or the
/// batch is one `CANCELED` event and the maker side is untouched. It never
/// rests.
pub proof fn lemma_fok_all_or_nothing(
    taker: Order,
    makers: Seq<Order>,
    symbol: Seq<char>,
    side: TradeSide,
    now: u128,
)
    requires
        taker.wf(),
        side_wf(makers, symbol, side),
        taker.tif == OrderTimeInForce::FOK,
    ensures
        rests(taker, makers).is_none(),
        taker_after(taker, makers).left() == 0 || {
            &&& match_events(taker, makers, now) == seq![
                cancel_event(taker.symbol, taker.id, OrderState::CANCELED, now),
            ]
            &&& makers_after(taker, makers) == makers
            &&& taker_after(taker, makers) == taker
        },
{
    let need = taker.left();
    if !fillable(taker, makers, need) {
        assert(taken(taker, makers) == 0);
        assert(depth(makers, 0) == 0);
        assert(makers.skip(0) =~= makers);
        assert(fill_events(taker, makers, 0, now) =~= Seq::<MatchTrade>::empty());
        assert(match_events(taker, makers, now) =~= seq![
            cancel_event(taker.symbol, taker.id, OrderState::CANCELED, now),
        ]);
    } else if taken(taker, makers) == 0 {
        assert(depth(makers, 0) == 0);
    }
}

/// Residual semantics of an immediate-or-cancel order: it never rests, and
/// where something of it is left the batch ends with its cancellation.
pub proof fn lemma_ioc_never_rests(taker: Order, makers: Seq<Order>, now: u128)
    requires
        taker.tif == OrderTimeInForce::IOC,
    ensures
        rests(taker, makers).is_none(),
        taker_after(taker, makers).left() > 0 ==> {
            let batch = match_events(taker, makers, now);
            &&& batch.len() == taken(taker, makers) + 1
            &&& batch.last().qty == 0
            &&& batch.last().taker_oid == taker.id
            &&& batch.last().taker_state == if taker_after(taker, makers).acc_fill_qty == 0 {
                OrderState::CANCELED
            } else {
                OrderState::PARTIAL_CANCELLED
            }
        },
{
}

/// Residual semantics of a good-till-cancelled limit order that comes in an
/// unfinished state: what is left of it rests, with its fills recorded, and
/// no closing event is emitted.
pub proof fn lemma_gtc_limit_rests(taker: Order, makers: Seq<Order>, now: u128)
    requires
        taker.wf(),
        taker.tif == OrderTimeInForce::GTC,
        taker.ord_type == OrderType::LIMIT,
        !taker.state.deletable(),
        taker_after(taker, makers).left() > 0,
    ensures
        rests(taker, makers) == Some(taker_after(taker, makers)),
        closing_event(taker, makers, now).is_none(),
        match_events(taker, makers, now).len() == taken(taker, makers),
{
}

/// A good-till-cancelled market order never rests and is never cancelled.
pub proof fn lemma_gtc_market_is_dropped(taker: Order, makers: Seq<Order>, now: u128)
    requires
        taker.tif == OrderTimeInForce::GTC,
        taker.ord_type == OrderType::MARKET,
    ensures
        rests(taker, makers).is_none(),
        closing_event(taker, makers, now).is_none(),
{
}

/// In a sorted side at most one order rests under a key.
pub proof fn lemma_key_rests_once(own: Seq<Order>, symbol: Seq<char>, side: TradeSide, i: int, j: int)
    requires
        side_wf(own, symbol, side),
        0 <= i < own.len(),
        0 <= j < own.len(),
        own[i].key().same(own[j].key()),
    ensures
        i == j,
{
    assert(resting(own[i], symbol, side));
    assert(resting(own[j], symbol, side));
    lemma_key_trichotomy(own[i].key(), own[j].key());
    if i < j {
        assert(own[i].key().before(own[j].key()));
    } else if j < i {
        assert(own[j].key().before(own[i].key()));
    }
}

/// Idempotent admission: once a placement has come to rest, placing the same
/// order again emits nothing and changes neither side, so the order rests
/// exactly once.
pub proof fn lemma_second_placement_is_suppressed(
    taker: Order,
    makers: Seq<Order>,
    own: Seq<Order>,
    now: u128,
    makers_then: Seq<Order>,
    own_then: Seq<Order>,
    trades: Seq<MatchTrade>,
    again_at: u128,
    makers_last: Seq<Order>,
    own_last: Seq<Order>,
    trades_again: Seq<MatchTrade>,
)
    requires
        matched(taker, makers, own, now, makers_then, own_then, trades),
        rests(taker, makers).is_some() || holds_key(own, taker.key()),
        matched(taker, makers_then, own_then, again_at, makers_last, own_last, trades_again),
    ensures
        holds_key(own_then, taker.key()),
        trades_again.len() == 0,
        makers_last == makers_then,
        own_last == own_then,
{
    if !holds_key(own, taker.key()) {
        let o = rests(taker, makers).unwrap();
        let i = choose|i: int| 0 <= i <= own.len() && own_then == #[trigger] own.insert(i, o);
        assert(own_then[i] == o);
        assert(o.key() == taker.key());
        crate::price::lemma_diff_flips(taker.price, taker.price);
        assert(own_then[i].key().same(taker.key()));
    }
}

/// Cancel symmetry: cancelling an order that rests emits exactly one event,
/// `PARTIAL_CANCELLED` if the order had filled in part and `CANCELED`
/// otherwise, and afterwards no order rests under its key.
pub proof fn lemma_cancel_removes(
    cancel: Order,
    own: Seq<Order>,
    symbol: Seq<char>,
    side: TradeSide,
    now: u128,
    own_then: Seq<Order>,
    trades: Seq<MatchTrade>,
)
    requires
        side_wf(own, symbol, side),
        cancel.side == side,
        holds_key(own, cancel.key()),
        cancelled(cancel, own, now, own_then, trades),
    ensures
        trades.len() == 1,
        trades[0].qty == 0,
        trades[0].maker_oid == 0,
        trades[0].maker_state == OrderState::INIT,
        trades[0].taker_oid == cancel.id,
        trades[0].taker_state == OrderState::CANCELED || trades[0].taker_state
            == OrderState::PARTIAL_CANCELLED,
        own_then.len() == own.len() - 1,
        !holds_key(own_then, cancel.key()),
        side_wf(own_then, symbol, side),
{
    let i = choose|i: int|
        0 <= i < own.len() && (#[trigger] own[i]).key().same(cancel.key()) && own_then
            == own.remove(i) && trades == seq![
            cancel_event(
                own[i].symbol,
                own[i].id,
                if own[i].acc_fill_qty != 0 {
                    OrderState::PARTIAL_CANCELLED
                } else {
                    OrderState::CANCELED
                },
                now,
            ),
        ];
    crate::book::lemma_remove_keeps(own, i, symbol, side);
    assert(resting(own[i], symbol, side));
    if holds_key(own_then, cancel.key()) {
        let j = choose|j: int| 0 <= j < own_then.len() && (#[trigger] own_then[j]).key().same(
            cancel.key(),
        );
        let j0 = if j < i {
            j
        } else {
            j + 1
        };
        assert(own_then[j] == own[j0]);
        assert(resting(own[j0], symbol, side));
        lemma_key_trichotomy(own[i].key(), cancel.key());
        lemma_key_trichotomy(own[j0].key(), cancel.key());
        crate::order::lemma_key_transitive(own[i].key(), cancel.key(), own[j0].key());
        crate::order::lemma_key_transitive(own[j0].key(), cancel.key(), own[i].key());
        lemma_key_trichotomy(own[i].key(), own[j0].key());
        lemma_key_rests_once(own, symbol, side, i, j0);
    }
}

/// Cancelling an order that does not rest changes nothing and emits nothing.
pub proof fn lemma_cancel_of_absent(
    cancel: Order,
    own: Seq<Order>,
    now: u128,
    own_then: Seq<Order>,
    trades: Seq<MatchTrade>,
)
    requires
        !holds_key(own, cancel.key()),
        cancelled(cancel, own, now, own_then, trades),
    ensures
        trades.len() == 0,
        own_then == own,
{
}

/// The best order of a side has the best price of the side: no sell order
/// asks less than the first, no buy order bids more.
pub proof fn lemma_head_has_best_price(makers: Seq<Order>, symbol: Seq<char>, side: TradeSide, j: int)
    requires
        side_wf(makers, symbol, side),
        0 <= j < makers.len(),
    ensures
        match side {
            TradeSide::SELL => makers[0].price.at_most(makers[j].price),
            TradeSide::BUY => makers[j].price.at_most(makers[0].price),
        },
{
    assert(resting(makers[0], symbol, side));
    assert(resting(makers[j], symbol, side));
    lemma_diff_flips(makers[0].price, makers[j].price);
    if j > 0 {
        assert(makers[0].key().before(makers[j].key()));
    }
}

/// A limit order that does not cross the best order of the other side
/// crosses none of its orders: its price stays on its own side of them all.
pub proof fn lemma_uncrossed_head_means_all(
    taker: Order,
    makers: Seq<Order>,
    symbol: Seq<char>,
    j: int,
)
    requires
        side_wf(makers, symbol, other(taker.side)),
        taker.ord_type == OrderType::LIMIT,
        0 <= j < makers.len(),
        !taker.crosses(makers[0]),
    ensures
        match taker.side {
            TradeSide::BUY => taker.price.below(makers[j].price),
            TradeSide::SELL => makers[j].price.below(taker.price),
        },
        !taker.crosses(makers[j]),
{
    lemma_head_has_best_price(makers, symbol, other(taker.side), j);
    assert(resting(makers[0], symbol, other(taker.side)));
    assert(resting(makers[j], symbol, other(taker.side)));
    lemma_diff_flips(taker.price, makers[0].price);
    lemma_diff_flips(taker.price, makers[j].price);
    match taker.side {
        TradeSide::BUY => {
            lemma_order_transitive(taker.price, makers[0].price, makers[j].price);
        },
        TradeSide::SELL => {
            lemma_order_transitive(makers[j].price, makers[0].price, taker.price);
        },
    }
}

/// A match keeps the book in order: afterwards both sides are sorted sides
/// of the symbol, every resting order is a good-till-cancelled limit order,
/// and no bid reaches an ask.
pub proof fn lemma_match_keeps_book(
    taker: Order,
    makers: Seq<Order>,
    own: Seq<Order>,
    symbol: Seq<char>,
    now: u128,
    makers_then: Seq<Order>,
    own_then: Seq<Order>,
    trades: Seq<MatchTrade>,
)
    requires
        taker.wf(),
        taker.symbol@ == symbol,
        side_wf(makers, symbol, other(taker.side)),
        side_wf(own, symbol, taker.side),
        all_limit_gtc(makers),
        all_limit_gtc(own),
        apart(taker.side, own, makers),
        matched(taker, makers, own, now, makers_then, own_then, trades),
    ensures
        side_wf(makers_then, symbol, other(taker.side)),
        side_wf(own_then, symbol, taker.side),
        all_limit_gtc(makers_then),
        all_limit_gtc(own_then),
        apart(taker.side, own_then, makers_then),
{
    if !holds_key(own, taker.key()) {
        lemma_fresh_match_keeps_book(taker, makers, own, symbol, now, makers_then, own_then, trades);
    }
}

/// As `lemma_match_keeps_book`, for a taker whose key does not rest yet.
proof fn lemma_fresh_match_keeps_book(
    taker: Order,
    makers: Seq<Order>,
    own: Seq<Order>,
    symbol: Seq<char>,
    now: u128,
    makers_then: Seq<Order>,
    own_then: Seq<Order>,
    trades: Seq<MatchTrade>,
)
    requires
        taker.wf(),
        taker.symbol@ == symbol,
        side_wf(makers, symbol, other(taker.side)),
        side_wf(own, symbol, taker.side),
        all_limit_gtc(makers),
        all_limit_gtc(own),
        apart(taker.side, own, makers),
        !holds_key(own, taker.key()),
        matched(taker, makers, own, now, makers_then, own_then, trades),
    ensures
        side_wf(makers_then, symbol, other(taker.side)),
        side_wf(own_then, symbol, taker.side),
        all_limit_gtc(makers_then),
        all_limit_gtc(own_then),
        apart(taker.side, own_then, makers_then),
{
    let k = taken(taker, makers) as int;
    lemma_makers_remaining(taker, makers, symbol, other(taker.side));
    lemma_sweep_bounds(taker, makers, taker.left(), 0);
    let partial = k > 0 && depth(makers, k as nat) > taker.left();
    let shift = if partial {
        k - 1
    } else {
        k
    };
    assert forall|j: int| 0 <= j < makers_then.len() implies {
        &&& 0 <= shift + j < makers.len()
        &&& (#[trigger] makers_then[j]).price == makers[shift + j].price
        &&& makers_then[j].ord_type == makers[shift + j].ord_type
        &&& makers_then[j].tif == makers[shift + j].tif
    } by {}
    assert(all_limit_gtc(makers_then)) by {
        assert forall|j: int| 0 <= j < makers_then.len() implies (#[trigger] makers_then[j]).ord_type
            == OrderType::LIMIT && makers_then[j].tif == OrderTimeInForce::GTC by {
            assert(makers[shift + j].ord_type == OrderType::LIMIT);
        }
    }
    match rests(taker, makers) {
        None => {
            assert(own_then == own);
            match taker.side {
                TradeSide::BUY => {
                    assert forall|i: int, j: int|
                        0 <= i < own_then.len() && 0 <= j < makers_then.len() implies (
                    #[trigger] own_then[i]).price.below((#[trigger] makers_then[j]).price) by {
                        assert(own[i].price.below(makers[shift + j].price));
                    }
                },
                TradeSide::SELL => {
                    assert forall|i: int, j: int|
                        0 <= i < makers_then.len() && 0 <= j < own_then.len() implies (
                    #[trigger] makers_then[i]).price.below((#[trigger] own_then[j]).price) by {
                        assert(makers[shift + i].price.below(own[j].price));
                    }
                },
            }
        },
        Some(o) => {
            let at = choose|at: int| 0 <= at <= own.len() && own_then == #[trigger] own.insert(at, o);
            assert(o.price == taker.price && o.ord_type == taker.ord_type && o.tif == taker.tif);
            lemma_stops_at_uncrossed(taker, makers, symbol, other(taker.side));
            assert forall|i: int| 0 <= i < own_then.len() implies (#[trigger] own_then[i]).ord_type
                == OrderType::LIMIT && own_then[i].tif == OrderTimeInForce::GTC && resting(
                own_then[i],
                symbol,
                taker.side,
            ) by {
                if i < at {
                    assert(own_then[i] == own[i]);
                    assert(resting(own[i], symbol, taker.side));
                } else if i > at {
                    assert(own_then[i] == own[i - 1]);
                    assert(resting(own[i - 1], symbol, taker.side));
                }
            }
            match taker.side {
                TradeSide::BUY => {
                    assert forall|i: int, j: int|
                        0 <= i < own_then.len() && 0 <= j < makers_then.len() implies (
                    #[trigger] own_then[i]).price.below((#[trigger] makers_then[j]).price) by {
                        if i < at {
                            assert(own_then[i] == own[i]);
                            assert(own[i].price.below(makers[shift + j].price));
                        } else if i > at {
                            assert(own_then[i] == own[i - 1]);
                            assert(own[i - 1].price.below(makers[shift + j].price));
                        } else {
                            lemma_uncrossed_head_means_all(taker, makers_then, symbol, j);
                        }
                    }
                },
                TradeSide::SELL => {
                    assert forall|i: int, j: int|
                        0 <= i < makers_then.len() && 0 <= j < own_then.len() implies (
                    #[trigger] makers_then[i]).price.below((#[trigger] own_then[j]).price) by {
                        if j < at {
                            assert(own_then[j] == own[j]);
                            assert(makers[shift + i].price.below(own[j].price));
                        } else if j > at {
                            assert(own_then[j] == own[j - 1]);
                            assert(makers[shift + i].price.below(own[j - 1].price));
                        } else {
                            lemma_uncrossed_head_means_all(taker, makers_then, symbol, i);
                        }
                    }
                },
            }
        },
    }
}

/// A cancellation keeps the book in order: the side it looks at stays a
/// sorted side of good-till-cancelled limit orders that reaches no order of
/// the other side.
pub proof fn lemma_cancel_keeps_book(
    cancel: Order,
    own: Seq<Order>,
    makers: Seq<Order>,
    symbol: Seq<char>,
    now: u128,
    own_then: Seq<Order>,
    trades: Seq<MatchTrade>,
)
    requires
        side_wf(own, symbol, cancel.side),
        all_limit_gtc(own),
        apart(cancel.side, own, makers),
        cancelled(cancel, own, now, own_then, trades),
    ensures
        side_wf(own_then, symbol, cancel.side),
        all_limit_gtc(own_then),
        apart(cancel.side, own_then, makers),
{
    if holds_key(own, cancel.key()) {
        let i = choose|i: int|
            0 <= i < own.len() && (#[trigger] own[i]).key().same(cancel.key()) && own_then
                == own.remove(i);
        crate::book::lemma_remove_keeps(own, i, symbol, cancel.side);
        assert forall|j: int| 0 <= j < own_then.len() implies #[trigger] own_then[j] == own[if j
            < i {
            j
        } else {
            j + 1
        }] by {}
        assert forall|j: int| 0 <= j < own_then.len() implies (#[trigger] own_then[j]).ord_type
            == OrderType::LIMIT && own_then[j].tif == OrderTimeInForce::GTC by {
            let j0 = if j < i {
                j
            } else {
                j + 1
            };
            assert(own_then[j] == own[j0]);
        }
        match cancel.side {
            TradeSide::BUY => {
                assert forall|a: int, b: int|
                    0 <= a < own_then.len() && 0 <= b < makers.len() implies (
                #[trigger] own_then[a]).price.below((#[trigger] makers[b]).price) by {
                    let a0 = if a < i {
                        a
                    } else {
                        a + 1
                    };
                    assert(own_then[a] == own[a0]);
                    assert(own[a0].price.below(makers[b].price));
                }
            },
            TradeSide::SELL => {
                assert forall|a: int, b: int|
                    0 <= a < makers.len() && 0 <= b < own_then.len() implies (
                #[trigger] makers[a]).price.below((#[trigger] own_then[b]).price) by {
                    let b0 = if b < i {
                        b
                    } else {
                        b + 1
                    };
                    assert(own_then[b] == own[b0]);
                    assert(makers[a].price.below(own[b0].price));
                }
            },
        }
    }
}

} // verus!
