use crate::market::MarketBook;
use crate::market::MatchTrade;
use crate::order::Order;
use crate::order::OrderAction;
use crate::utils::now_ts;
use vstd::prelude::*;
use vstd::string::StringExecFns;

verus! {

/// How many requests may wait for one trader before a producer has to wait.
pub const QUEUE_CAPACITY: usize = 16;

/// What the worker of a trader wakes up for.
#[derive(Debug)]
pub enum TraderEvent {
    /// The shutdown broadcast, with its flag.
    Terminal(bool),
    /// The next request from the queue.
    Request(Order),
}

/// What the worker of a trader does after an event.
#[derive(Debug)]
pub enum TraderStep {
    /// Wait for the next event.
    Continue,
    /// Hand the batch to the sink, then wait for the next event.
    Consume(Vec<MatchTrade>),
    /// Close the queue and leave.
    Exit,
}

/// What handling `order` at `now` makes of the book `pre`: a placement is
/// matched, a cancellation cancels. A placement for another symbol, or one
/// filled beyond its quantity, is dropped: nothing changes and the batch is
/// empty.
pub open spec fn handled(
    pre: MarketBook,
    order: Order,
    now: u128,
    post: MarketBook,
    trades: Seq<MatchTrade>,
) -> bool {
    match order.action {
        OrderAction::PLACE => if order.wf() && order.symbol@ == pre.name() {
            MarketBook::match_result(pre, order, now, post, trades)
        } else {
            post == pre && trades.len() == 0
        },
        OrderAction::CANCEL => MarketBook::cancel_result(pre, order, now, post, trades),
    }
}

/// Handles one request at the time that the clock shows.
pub fn handle_request(book: &mut MarketBook, order: Order) -> (trades: Vec<MatchTrade>)
    requires
        old(book).wf(),
    ensures
        final(book).wf(),
        exists|now: u128| handled(*old(book), order, now, *final(book), trades@),
{
    let now = now_ts();
    let trades = handle_request_at(book, order, now);
    assert(handled(*old(book), order, now, *book, trades@));
    trades
}

/// Handles one request: matches a placement, cancels for a cancellation.
pub fn handle_request_at(book: &mut MarketBook, order: Order, now: u128) -> (trades: Vec<
    MatchTrade,
>)
    requires
        old(book).wf(),
    ensures
        final(book).wf(),
        handled(*old(book), order, now, *final(book), trades@),
{
    match order.action {
        OrderAction::PLACE => {
            if order.acc_fill_qty <= order.qty && book.is_for(order.symbol.as_str()) {
                book.try_match_at(order, now)
            } else {
                Vec::new()
            }
        },
        OrderAction::CANCEL => book.try_cancel_at(order, now),
    }
}

/// The state that a run of requests leads through: it starts at `first`,
/// and each request takes the book from one state to the next.
pub open spec fn run(
    first: MarketBook,
    requests: Seq<Order>,
    now: u128,
    states: Seq<MarketBook>,
    batches: Seq<Vec<MatchTrade>>,
) -> bool {
    &&& states.len() == requests.len() + 1
    &&& batches.len() == requests.len()
    &&& states[0] == first
    &&& forall|i: int|
        0 <= i < requests.len() ==> #[trigger] handled(
            states[i],
            requests[i],
            now,
            states[i + 1],
            batches[i]@,
        )
}

/// The worker of one symbol: it owns the symbol's book and handles the
/// requests for it one after the other.
#[derive(Debug)]
pub struct Trader {
    symbol: String,
    book: MarketBook,
}

impl Trader {
    /// The book as it stands.
    pub closed spec fn book(&self) -> MarketBook {
        self.book
    }

    /// The symbol that the trader serves.
    pub closed spec fn symbol(&self) -> Seq<char> {
        self.symbol@
    }

    /// The book is well-formed and is the book of the trader's symbol.
    pub closed spec fn wf(&self) -> bool {
        self.book.wf() && self.book.name() == self.symbol@
    }

    /// A well-formed trader holds a well-formed book of its own symbol.
    pub proof fn lemma_wf(&self)
        requires
            self.wf(),
        ensures
            self.book().wf(),
            self.book().name() == self.symbol(),
    {
    }

    /// A trader for `symbol` with an empty book of that symbol.
    pub fn new(symbol: &str) -> (t: Trader)
        ensures
            t.wf(),
            t.symbol() == symbol@,
            t.book().wf(),
            t.book().name() == symbol@,
            t.book().bids() == Seq::<Order>::empty(),
            t.book().asks() == Seq::<Order>::empty(),
    {
        Trader { symbol: String::from_str(symbol), book: MarketBook::new(symbol) }
    }

    /// Whether the trader serves `symbol`.
    pub fn serves(&self, symbol: &str) -> (r: bool)
        ensures
            r == (symbol@ == self.symbol()),
    {
        crate::order::same_text(self.symbol.as_str(), symbol)
    }

    /// The book, to look at.
    pub fn market(&self) -> (b: &MarketBook)
        ensures
            *b == self.book(),
    {
        &self.book
    }

    /// Decides what the worker does after `event`, at time `now`: it leaves
    /// on a shutdown with the flag set, goes on waiting on one without, and
    /// handles a request and hands its batch to the sink.
    pub fn on_event(&mut self, event: TraderEvent, now: u128) -> (step: TraderStep)
        requires
            old(self).wf(),
        ensures
            final(self).wf(),
            final(self).symbol() == old(self).symbol(),
            match event {
                TraderEvent::Terminal(stop) => final(self).book() == old(self).book() && if stop {
                    step is Exit
                } else {
                    step is Continue
                },
                TraderEvent::Request(order) => step matches TraderStep::Consume(trades) && handled(
                    old(self).book(),
                    order,
                    now,
                    final(self).book(),
                    trades@,
                ),
            },
    {
        match event {
            TraderEvent::Terminal(stop) => {
                if stop {
                    TraderStep::Exit
                } else {
                    TraderStep::Continue
                }
            },
            TraderEvent::Request(order) => {
                let ghost before = self.book;
                let trades = handle_request_at(&mut self.book, order, now);
                proof {
                    lemma_handled_keeps_name(before, order, now, self.book, trades@);
                }
                TraderStep::Consume(trades)
            },
        }
    }

    /// Handles `requests` in the order in which they were queued, each on
    /// the book that the one before it left, and hands out one batch for
    /// each.
    pub fn drain(&mut self, requests: Vec<Order>, now: u128) -> (batches: Vec<Vec<MatchTrade>>)
        requires
            old(self).wf(),
        ensures
            final(self).wf(),
            final(self).symbol() == old(self).symbol(),
            exists|states: Seq<MarketBook>|
                #[trigger] run(old(self).book(), requests@, now, states, batches@) && states.last()
                    == final(self).book(),
    {
        let mut batches: Vec<Vec<MatchTrade>> = Vec::new();
        let mut requests = requests;
        let ghost all = requests@;
        let ghost mut states: Seq<MarketBook> = seq![self.book];
        let n = requests.len();
        let mut i: usize = 0;
        while i < n
            invariant
                self.wf(),
                self.symbol() == old(self).symbol(),
                n == all.len(),
                i <= n,
                requests@.len() == n - i,
                forall|j: int| 0 <= j < n - i ==> requests@[j] == all[i + j],
                run(old(self).book(), all.take(i as int), now, states, batches@),
                states.last() == self.book(),
            decreases n - i,
        {
            let order = requests.remove(0);
            assert(order == all[i as int]);
            let ghost before = self.book;
            let ghost done = batches@;
            let ghost seen = states;
            let trades = handle_request_at(&mut self.book, order, now);
            proof {
                lemma_handled_keeps_name(before, order, now, self.book, trades@);
                states = states.push(self.book);
            }
            batches.push(trades);
            proof {
                let upto = all.take(i + 1);
                assert forall|j: int| 0 <= j < upto.len() implies #[trigger] handled(
                    states[j],
                    upto[j],
                    now,
                    states[j + 1],
                    batches@[j]@,
                ) by {
                    if j < i {
                        assert(handled(seen[j], all.take(i as int)[j], now, seen[j + 1], done[j]@));
                    }
                }
            }
            i += 1;
        }
        assert(all.take(n as int) =~= all);
        batches
    }
}

/// Handling a request never changes the symbol of the book.
pub proof fn lemma_handled_keeps_name(
    pre: MarketBook,
    order: Order,
    now: u128,
    post: MarketBook,
    trades: Seq<MatchTrade>,
)
    requires
        handled(pre, order, now, post, trades),
    ensures
        post.name() == pre.name(),
{
}

} // verus!
