use crate::book::holds_key;
use crate::book::resting;
use crate::book::sorted;
use crate::guarantees::lemma_key_rests_once;
use crate::market::closing_event;
use crate::market::depth;
use crate::market::fill_events;
use crate::market::match_events;
use crate::market::matched;
use crate::market::other;
use crate::market::rests;
use crate::market::side_wf;
use crate::market::taken;
use crate::market::taker_after;
use crate::market::MarketBook;
use crate::market::MatchTrade;
use crate::order::lemma_key_trichotomy;
use crate::order::Order;
use crate::order::OrderAction;
use crate::order::OrderTimeInForce;
use crate::order::OrderType;
use crate::order::TradeSide;
use crate::price::lemma_diff_flips;
use crate::trader::handled;
use crate::trader::run;
use vstd::prelude::*;

verus! {

/// A good-till-cancelled limit order that crosses no order of the other
/// side just comes to rest: no event is emitted, the other side is
/// untouched, and the order is put at its place on its own side as it came.
pub proof fn lemma_uncrossed_placement_rests(
    taker: Order,
    makers: Seq<Order>,
    own: Seq<Order>,
    now: u128,
    makers_then: Seq<Order>,
    own_then: Seq<Order>,
    trades: Seq<MatchTrade>,
)
    requires
        taker.wf(),
        taker.left() > 0,
        taker.tif == OrderTimeInForce::GTC,
        taker.ord_type == OrderType::LIMIT,
        !taker.state.deletable(),
        !holds_key(own, taker.key()),
        makers.len() == 0 || !taker.crosses(makers[0]),
        matched(taker, makers, own, now, makers_then, own_then, trades),
    ensures
        trades.len() == 0,
        makers_then == makers,
        sorted(own_then),
        exists|at: int| 0 <= at <= own.len() && own_then == #[trigger] own.insert(at, taker),
{
    assert(taken(taker, makers) == 0);
    assert(depth(makers, 0) == 0);
    assert(taker_after(taker, makers) == taker);
    assert(rests(taker, makers) == Some(taker));
    assert(closing_event(taker, makers, now).is_none());
    assert(fill_events(taker, makers, 0, now).len() == 0);
    assert(match_events(taker, makers, now).len() == 0);
    assert(makers.skip(0) =~= makers);
}

/// Two sorted sides that hold the same orders are the same side.
pub proof fn lemma_sorted_sides_equal(a: Seq<Order>, b: Seq<Order>, symbol: Seq<char>, side: TradeSide)
    requires
        side_wf(a, symbol, side),
        side_wf(b, symbol, side),
        forall|o: Order| a.contains(o) <==> b.contains(o),
    ensures
        a == b,
    decreases a.len(),
{
    if a.len() == 0 {
        if b.len() > 0 {
            assert(b.contains(b[0]));
        }
        assert(a =~= b);
    } else {
        assert(a.contains(a[0]));
        let p = choose|p: int| 0 <= p < b.len() && b[p] == a[0];
        assert(b.contains(b[0]));
        let q = choose|q: int| 0 <= q < a.len() && a[q] == b[0];
        assert(resting(a[0], symbol, side));
        assert(resting(b[0], symbol, side));
        lemma_key_trichotomy(a[0].key(), b[0].key());
        if p > 0 {
            assert(b[0].key().before(b[p].key()));
            if q > 0 {
                assert(a[0].key().before(a[q].key()));
            }
        }
        assert(a[0] == b[0]);
        let ta = a.drop_first();
        let tb = b.drop_first();
        assert forall|i: int, j: int| 0 <= i < j < ta.len() implies ta[i].key().before(
            ta[j].key(),
        ) by {
            assert(ta[i] == a[i + 1] && ta[j] == a[j + 1]);
        }
        assert forall|i: int, j: int| 0 <= i < j < tb.len() implies tb[i].key().before(
            tb[j].key(),
        ) by {
            assert(tb[i] == b[i + 1] && tb[j] == b[j + 1]);
        }
        assert forall|i: int| 0 <= i < ta.len() implies resting(#[trigger] ta[i], symbol, side) by {
            assert(ta[i] == a[i + 1]);
        }
        assert forall|i: int| 0 <= i < tb.len() implies resting(#[trigger] tb[i], symbol, side) by {
            assert(tb[i] == b[i + 1]);
        }
        assert forall|o: Order| ta.contains(o) <==> tb.contains(o) by {
            if ta.contains(o) {
                let i = choose|i: int| 0 <= i < ta.len() && ta[i] == o;
                assert(a[i + 1] == o);
                assert(a.contains(o));
                let j = choose|j: int| 0 <= j < b.len() && b[j] == o;
                if j == 0 {
                    assert(a[0].key().before(a[i + 1].key()));
                    lemma_key_trichotomy(a[0].key(), a[0].key());
                }
                assert(tb[j - 1] == o);
            }
            if tb.contains(o) {
                let i = choose|i: int| 0 <= i < tb.len() && tb[i] == o;
                assert(b[i + 1] == o);
                assert(b.contains(o));
                let j = choose|j: int| 0 <= j < a.len() && a[j] == o;
                if j == 0 {
                    assert(b[0].key().before(b[i + 1].key()));
                    lemma_key_trichotomy(b[0].key(), b[0].key());
                }
                assert(ta[j - 1] == o);
            }
        }
        lemma_sorted_sides_equal(ta, tb, symbol, side);
        assert(a =~= seq![a[0]] + ta);
        assert(b =~= seq![b[0]] + tb);
    }
}

/// The side holds exactly the orders of `side` among the first `k` requests.
pub open spec fn replayed(held: Seq<Order>, requests: Seq<Order>, k: int, side: TradeSide) -> bool {
    forall|o: Order|
        held.contains(o) <==> exists|j: int| 0 <= j < k && #[trigger] requests[j] == o && o.side == side
}

/// The requests are the orders that rest in `live`, each once, as
/// placements.
pub open spec fn replays(requests: Seq<Order>, live: MarketBook) -> bool {
    &&& requests.no_duplicates()
    &&& forall|j: int|
        0 <= j < requests.len() ==> (#[trigger] requests[j]).action == OrderAction::PLACE && (
        live.bids().contains(requests[j]) || live.asks().contains(requests[j]))
    &&& forall|o: Order| live.bids().contains(o) || live.asks().contains(o) ==> requests.contains(o)
}

/// What holds after the first `k` requests of a replay: nothing was
/// emitted, and the book holds exactly the orders replayed so far, in order.
pub open spec fn replay_so_far(
    live: MarketBook,
    requests: Seq<Order>,
    states: Seq<MarketBook>,
    batches: Seq<Vec<MatchTrade>>,
    k: int,
) -> bool {
    &&& states[k].name() == live.name()
    &&& side_wf(states[k].bids(), live.name(), TradeSide::BUY)
    &&& side_wf(states[k].asks(), live.name(), TradeSide::SELL)
    &&& replayed(states[k].bids(), requests, k, TradeSide::BUY)
    &&& replayed(states[k].asks(), requests, k, TradeSide::SELL)
    &&& forall|i: int| 0 <= i < k ==> (#[trigger] batches[i])@.len() == 0
}

/// One step of a replay: the next live order crosses nothing that was put
/// back before it, so it comes to rest and nothing is emitted.
proof fn lemma_replay_step(
    live: MarketBook,
    requests: Seq<Order>,
    now: u128,
    states: Seq<MarketBook>,
    batches: Seq<Vec<MatchTrade>>,
    k: int,
)
    requires
        live.wf(),
        replays(requests, live),
        0 <= k < requests.len(),
        states.len() == requests.len() + 1,
        batches.len() == requests.len(),
        handled(states[k], requests[k], now, states[k + 1], batches[k]@),
        replay_so_far(live, requests, states, batches, k),
    ensures
        replay_so_far(live, requests, states, batches, k + 1),
{
    live.lemma_sides();
    let name = live.name();
    let taker = requests[k];
    let side = taker.side;
    let pre = states[k];
    let post = states[k + 1];
    let home = live.own_for(side);
    let away = live.makers_for(side);
    let own = pre.own_for(side);
    let makers = pre.makers_for(side);
    assert(home.contains(taker)) by {
        if live.bids().contains(taker) {
            let i = choose|i: int| 0 <= i < live.bids().len() && live.bids()[i] == taker;
            assert(resting(live.bids()[i], name, TradeSide::BUY));
        } else {
            let i = choose|i: int| 0 <= i < live.asks().len() && live.asks()[i] == taker;
            assert(resting(live.asks()[i], name, TradeSide::SELL));
        }
    }
    let h = choose|h: int| 0 <= h < home.len() && home[h] == taker;
    assert(resting(home[h], name, side));
    assert(taker.ord_type == OrderType::LIMIT && taker.tif == OrderTimeInForce::GTC);
    assert(side_wf(home, name, side));
    assert(side_wf(away, name, other(side)));
    assert(side_wf(own, name, side));
    assert(side_wf(makers, name, other(side)));
    assert(replayed(own, requests, k, side));
    assert(replayed(makers, requests, k, other(side)));
    assert(!holds_key(own, taker.key())) by {
        if holds_key(own, taker.key()) {
            let i = choose|i: int| 0 <= i < own.len() && (#[trigger] own[i]).key().same(taker.key());
            assert(own.contains(own[i]));
            let j = choose|j: int| 0 <= j < k && #[trigger] requests[j] == own[i] && own[i].side == side;
            assert(requests[j] != requests[k]);
            assert(home.contains(own[i])) by {
                if live.bids().contains(own[i]) {
                    let x = choose|x: int| 0 <= x < live.bids().len() && live.bids()[x] == own[i];
                    assert(resting(live.bids()[x], name, TradeSide::BUY));
                } else {
                    let x = choose|x: int| 0 <= x < live.asks().len() && live.asks()[x] == own[i];
                    assert(resting(live.asks()[x], name, TradeSide::SELL));
                }
            }
            let g = choose|g: int| 0 <= g < home.len() && home[g] == own[i];
            lemma_key_rests_once(home, name, side, g, h);
        }
    }
    assert(makers.len() == 0 || !taker.crosses(makers[0])) by {
        if makers.len() > 0 {
            let m = makers[0];
            assert(makers.contains(m));
            let j = choose|j: int| 0 <= j < k && #[trigger] requests[j] == m && m.side == other(side);
            assert(away.contains(m)) by {
                if live.bids().contains(m) {
                    let x = choose|x: int| 0 <= x < live.bids().len() && live.bids()[x] == m;
                    assert(resting(live.bids()[x], name, TradeSide::BUY));
                } else {
                    let x = choose|x: int| 0 <= x < live.asks().len() && live.asks()[x] == m;
                    assert(resting(live.asks()[x], name, TradeSide::SELL));
                }
            }
            let g = choose|g: int| 0 <= g < away.len() && away[g] == m;
            lemma_diff_flips(taker.price, m.price);
            match side {
                TradeSide::BUY => {
                    assert(live.bids()[h].price.below(live.asks()[g].price));
                },
                TradeSide::SELL => {
                    assert(live.bids()[g].price.below(live.asks()[h].price));
                },
            }
        }
    }
    let makers_then = post.makers_for(side);
    let own_then = post.own_for(side);
    lemma_uncrossed_placement_rests(taker, makers, own, now, makers_then, own_then, batches[k]@);
    let at = choose|at: int| 0 <= at <= own.len() && own_then == #[trigger] own.insert(at, taker);
    assert forall|i: int| 0 <= i < own_then.len() implies resting(
        #[trigger] own_then[i],
        name,
        side,
    ) by {
        if i < at {
            assert(own_then[i] == own[i]);
        } else if i > at {
            assert(own_then[i] == own[i - 1]);
        }
    }
    assert(replayed(own_then, requests, k + 1, side)) by {
        assert forall|o: Order| own_then.contains(o) <==> exists|j: int|
            0 <= j < k + 1 && #[trigger] requests[j] == o && o.side == side by {
            if own_then.contains(o) {
                let i = choose|i: int| 0 <= i < own_then.len() && own_then[i] == o;
                if i == at {
                    assert(requests[k] == o);
                } else {
                    let i0 = if i < at {
                        i
                    } else {
                        i - 1
                    };
                    assert(own[i0] == o);
                    assert(own.contains(o));
                    let j = choose|j: int| 0 <= j < k && #[trigger] requests[j] == o && o.side == side;
                    assert(0 <= j < k + 1 && requests[j] == o);
                }
            }
            if exists|j: int| 0 <= j < k + 1 && #[trigger] requests[j] == o && o.side == side {
                let j = choose|j: int| 0 <= j < k + 1 && #[trigger] requests[j] == o && o.side == side;
                if j == k {
                    assert(own_then[at] == o);
                } else {
                    assert(own.contains(o));
                    let i = choose|i: int| 0 <= i < own.len() && own[i] == o;
                    let i1 = if i < at {
                        i
                    } else {
                        i + 1
                    };
                    assert(own_then[i1] == o);
                }
            }
        }
    }
    assert(replayed(makers_then, requests, k + 1, other(side))) by {
        assert forall|o: Order| makers_then.contains(o) <==> exists|j: int|
            0 <= j < k + 1 && #[trigger] requests[j] == o && o.side == other(side) by {
            if makers_then.contains(o) {
                let j = choose|j: int|
                    0 <= j < k && #[trigger] requests[j] == o && o.side == other(side);
                assert(0 <= j < k + 1 && requests[j] == o);
            }
            if exists|j: int| 0 <= j < k + 1 && #[trigger] requests[j] == o && o.side == other(side) {
                let j = choose|j: int|
                    0 <= j < k + 1 && #[trigger] requests[j] == o && o.side == other(side);
                assert(j < k);
            }
        }
    }
    assert forall|i: int| 0 <= i < k + 1 implies (#[trigger] batches[i])@.len() == 0 by {}
}

/// Replay convergence: handling, in any order, the orders that rest in a
/// well-formed book as placements on an empty book of the same symbol
/// emits nothing and leads to a book with the same two sides.
pub proof fn lemma_replay_restores(
    live: MarketBook,
    fresh: MarketBook,
    requests: Seq<Order>,
    now: u128,
    states: Seq<MarketBook>,
    batches: Seq<Vec<MatchTrade>>,
)
    requires
        live.wf(),
        fresh.name() == live.name(),
        fresh.bids().len() == 0,
        fresh.asks().len() == 0,
        replays(requests, live),
        run(fresh, requests, now, states, batches),
    ensures
        states.last().bids() == live.bids(),
        states.last().asks() == live.asks(),
        forall|i: int| 0 <= i < batches.len() ==> (#[trigger] batches[i])@.len() == 0,
{
    lemma_replay_prefix(live, fresh, requests, now, states, batches, requests.len() as int);
    live.lemma_sides();
    let n = requests.len() as int;
    let end = states.last();
    assert(end == states[n]);
    assert forall|o: Order| end.bids().contains(o) <==> live.bids().contains(o) by {
        if end.bids().contains(o) {
            let j = choose|j: int| 0 <= j < n && #[trigger] requests[j] == o && o.side == TradeSide::BUY;
            if live.asks().contains(o) {
                let x = choose|x: int| 0 <= x < live.asks().len() && live.asks()[x] == o;
                assert(resting(live.asks()[x], live.name(), TradeSide::SELL));
            }
        }
        if live.bids().contains(o) {
            let x = choose|x: int| 0 <= x < live.bids().len() && live.bids()[x] == o;
            assert(resting(live.bids()[x], live.name(), TradeSide::BUY));
            assert(requests.contains(o));
            let j = choose|j: int| 0 <= j < requests.len() && requests[j] == o;
            assert(0 <= j < n && requests[j] == o && o.side == TradeSide::BUY);
        }
    }
    assert forall|o: Order| end.asks().contains(o) <==> live.asks().contains(o) by {
        if end.asks().contains(o) {
            let j = choose|j: int| 0 <= j < n && #[trigger] requests[j] == o && o.side == TradeSide::SELL;
            if live.bids().contains(o) {
                let x = choose|x: int| 0 <= x < live.bids().len() && live.bids()[x] == o;
                assert(resting(live.bids()[x], live.name(), TradeSide::BUY));
            }
        }
        if live.asks().contains(o) {
            let x = choose|x: int| 0 <= x < live.asks().len() && live.asks()[x] == o;
            assert(resting(live.asks()[x], live.name(), TradeSide::SELL));
            assert(requests.contains(o));
            let j = choose|j: int| 0 <= j < requests.len() && requests[j] == o;
            assert(0 <= j < n && requests[j] == o && o.side == TradeSide::SELL);
        }
    }
    lemma_sorted_sides_equal(end.bids(), live.bids(), live.name(), TradeSide::BUY);
    lemma_sorted_sides_equal(end.asks(), live.asks(), live.name(), TradeSide::SELL);
}

/// The replay up to its first `k` requests.
proof fn lemma_replay_prefix(
    live: MarketBook,
    fresh: MarketBook,
    requests: Seq<Order>,
    now: u128,
    states: Seq<MarketBook>,
    batches: Seq<Vec<MatchTrade>>,
    k: int,
)
    requires
        live.wf(),
        fresh.name() == live.name(),
        fresh.bids().len() == 0,
        fresh.asks().len() == 0,
        replays(requests, live),
        run(fresh, requests, now, states, batches),
        0 <= k <= requests.len(),
    ensures
        replay_so_far(live, requests, states, batches, k),
    decreases k,
{
    if k == 0 {
        assert(states[0] == fresh);
    } else {
        lemma_replay_prefix(live, fresh, requests, now, states, batches, k - 1);
        let i = k - 1;
        assert(handled(states[i], requests[i], now, states[i + 1], batches[i]@));
        lemma_replay_step(live, requests, now, states, batches, i);
    }
}

} // verus!
