use crate::order::lemma_key_transitive;
use crate::order::lemma_key_trichotomy;
use crate::order::Order;
use crate::order::OrderKey;
use crate::order::OrderState;
use crate::order::TradeSide;
use vstd::prelude::*;
use vstd::string::StringExecFns;

verus! {

/// Why a book does not take an order.
#[derive(Clone, Copy, Debug, PartialEq, Eq, Structural)]
pub enum BookError {
    /// The order is of the other side.
    SideMismatch,
    /// The order is for another symbol.
    SymbolMismatch,
    /// The order is in a terminal state.
    Terminal,
    /// Nothing of the order is left to fill.
    NothingLeft,
}

impl BookError {
    pub open spec fn text(self) -> Seq<char> {
        match self {
            BookError::SideMismatch => "order trade side mismatch"@,
            BookError::SymbolMismatch => "order symbol mismatch"@,
            BookError::Terminal => "order already terminal"@,
            BookError::NothingLeft => "order has nothing left to fill"@,
        }
    }

    pub fn to_string(&self) -> (s: String)
        ensures
            s@ == self.text(),
    {
        match self {
            BookError::SideMismatch => String::from_str("order trade side mismatch"),
            BookError::SymbolMismatch => String::from_str("order symbol mismatch"),
            BookError::Terminal => String::from_str("order already terminal"),
            BookError::NothingLeft => String::from_str("order has nothing left to fill"),
        }
    }
}

/// Each order sorts strictly before all that follow it, so no two take the
/// same place.
pub open spec fn sorted(s: Seq<Order>) -> bool {
    forall|i: int, j: int|
        #![trigger s[i], s[j]]
        0 <= i < j < s.len() ==> s[i].key().before(s[j].key())
}

/// What holds of an order that rests in the book of `symbol` and `side`.
pub open spec fn resting(o: Order, symbol: Seq<char>, side: TradeSide) -> bool {
    &&& o.symbol@ == symbol
    &&& o.side == side
    &&& o.acc_fill_qty < o.qty
    &&& !o.state.deletable()
}

/// Whether some order of `s` takes the place of `key`.
pub open spec fn holds_key(s: Seq<Order>, key: OrderKey) -> bool {
    exists|i: int| 0 <= i < s.len() && (#[trigger] s[i]).key().same(key)
}

/// The resting orders of one side of one symbol, best first.
#[derive(Debug)]
pub struct OrderBook {
    symbol: String,
    side: TradeSide,
    orders: Vec<Order>,
}

impl View for OrderBook {
    type V = Seq<Order>;

    /// The resting orders, best first.
    closed spec fn view(&self) -> Seq<Order> {
        self.orders@
    }
}

impl OrderBook {
    /// The side whose orders the book holds.
    pub closed spec fn side(&self) -> TradeSide {
        self.side
    }

    /// The symbol whose orders the book holds.
    pub closed spec fn symbol(&self) -> Seq<char> {
        self.symbol@
    }

    /// The book is sorted by key without repetition, and each of its orders
    /// is of its symbol and side, unfinished and with something left to fill.
    pub open spec fn wf(&self) -> bool {
        &&& sorted(self@)
        &&& forall|i: int| 0 <= i < self@.len() ==> resting(#[trigger] self@[i], self.symbol(), self.side())
    }

    /// Why the book refuses `order`, if it does. An order of the other side
    /// is always refused. An order whose key already rests is never refused:
    /// adding it changes nothing. Any other order is refused where it is for
    /// another symbol, in a terminal state, or has nothing left to fill.
    pub open spec fn refusal(&self, order: Order) -> Option<BookError> {
        if order.side != self.side() {
            Some(BookError::SideMismatch)
        } else if holds_key(self@, order.key()) {
            None
        } else if order.symbol@ != self.symbol() {
            Some(BookError::SymbolMismatch)
        } else if order.state.deletable() {
            Some(BookError::Terminal)
        } else if order.acc_fill_qty >= order.qty {
            Some(BookError::NothingLeft)
        } else {
            None
        }
    }

    /// An empty book for `symbol` and `side`.
    pub fn new(symbol: &str, side: TradeSide) -> (book: OrderBook)
        ensures
            book.wf(),
            book@ == Seq::<Order>::empty(),
            book.side() == side,
            book.symbol() == symbol@,
    {
        OrderBook { symbol: String::from_str(symbol), side, orders: Vec::new() }
    }

    /// How many leading orders sort strictly before `key`.
    fn position(&self, key: &OrderKey) -> (i: usize)
        requires
            self.wf(),
            key.side == self.side(),
        ensures
            i <= self@.len(),
            forall|j: int| 0 <= j < i ==> (#[trigger] self@[j]).key().before(*key),
            i < self@.len() ==> !self@[i as int].key().before(*key),
    {
        let mut i: usize = 0;
        while i < self.orders.len()
            invariant
                self.wf(),
                key.side == self.side(),
                i <= self@.len(),
                forall|j: int| 0 <= j < i ==> (#[trigger] self@[j]).key().before(*key),
            decreases self@.len() - i,
        {
            assert(resting(self@[i as int], self.symbol(), self.side()));
            let here = OrderKey::new(&self.orders[i]);
            if !here.precedes(key) {
                return i;
            }
            i += 1;
        }
        i
    }

    /// Puts `order` to rest at its place in the order of keys. An order of
    /// the other side is refused. Where an order with the same key already
    /// rests, nothing changes and the call succeeds, whatever else the new
    /// order holds: the resting order is not replaced. An order whose key
    /// does not rest yet is refused where it cannot rest in this book.
    pub fn add(&mut self, order: Order) -> (r: Result<(), BookError>)
        requires
            old(self).wf(),
        ensures
            final(self).wf(),
            final(self).side() == old(self).side(),
            final(self).symbol() == old(self).symbol(),
            order.side == old(self).side() && holds_key(old(self)@, order.key()) ==> r is Ok
                && final(self)@ == old(self)@,
            match r {
                Err(e) => old(self).refusal(order) == Some(e) && final(self)@ == old(self)@,
                Ok(_) => old(self).refusal(order).is_none() && if holds_key(
                    old(self)@,
                    order.key(),
                ) {
                    final(self)@ == old(self)@
                } else {
                    exists|i: int|
                        0 <= i <= old(self)@.len() && final(self)@ == #[trigger] old(self)@.insert(
                            i,
                            order,
                        )
                },
            },
    {
        if order.side != self.side {
            return Err(BookError::SideMismatch);
        }
        let key = OrderKey::new(&order);
        let i = self.position(&key);
        proof {
            self.lemma_place(key, i as int);
        }
        if i < self.orders.len() {
            assert(resting(self@[i as int], self.symbol(), self.side()));
            if OrderKey::new(&self.orders[i]).matches(&key) {
                return Ok(());
            }
        }
        if order.symbol != self.symbol {
            return Err(BookError::SymbolMismatch);
        }
        if order.state.del_flag() {
            return Err(BookError::Terminal);
        }
        if order.acc_fill_qty >= order.qty {
            return Err(BookError::NothingLeft);
        }
        let ghost before = self@;
        self.orders.insert(i, order);
        proof {
            let after = self@;
            assert(after == before.insert(i as int, order));
            assert forall|a: int, b: int| 0 <= a < b < after.len() implies after[a].key().before(
                after[b].key(),
            ) by {
                if b < i {
                    assert(after[a] == before[a] && after[b] == before[b]);
                } else if b == i {
                    assert(after[a] == before[a]);
                } else if a < i {
                    assert(after[a] == before[a] && after[b] == before[b - 1]);
                } else if a == i {
                    assert(after[b] == before[b - 1]);
                } else {
                    assert(after[a] == before[a - 1] && after[b] == before[b - 1]);
                }
            }
            assert forall|a: int| 0 <= a < after.len() implies resting(
                #[trigger] after[a],
                self.symbol(),
                self.side(),
            ) by {
                if a < i {
                    assert(after[a] == before[a]);
                } else if a > i {
                    assert(after[a] == before[a - 1]);
                }
            }
        }
        Ok(())
    }

    /// Where `position` stops for `key`, the key is either there or nowhere:
    /// all before sort before it, all behind sort after it.
    proof fn lemma_place(&self, key: OrderKey, i: int)
        requires
            self.wf(),
            key.side == self.side(),
            0 <= i <= self@.len(),
            forall|j: int| 0 <= j < i ==> (#[trigger] self@[j]).key().before(key),
            i < self@.len() ==> !self@[i].key().before(key),
        ensures
            forall|j: int| 0 <= j < i ==> !(#[trigger] self@[j]).key().same(key),
            forall|j: int| i < j < self@.len() ==> key.before((#[trigger] self@[j]).key()),
            forall|j: int| i < j < self@.len() ==> !(#[trigger] self@[j]).key().same(key),
            i < self@.len() && !self@[i].key().same(key) ==> key.before(self@[i].key()),
            holds_key(self@, key) <==> i < self@.len() && self@[i].key().same(key),
    {
        let s = self@;
        assert forall|j: int| 0 <= j < s.len() implies (#[trigger] s[j]).key().side == key.side by {
            assert(resting(s[j], self.symbol(), self.side()));
        }
        assert forall|j: int| 0 <= j < i implies !(#[trigger] s[j]).key().same(key) by {
            lemma_key_trichotomy(s[j].key(), key);
        }
        if i < s.len() {
            lemma_key_trichotomy(s[i].key(), key);
            assert forall|j: int| i < j < s.len() implies key.before((#[trigger] s[j]).key()) && !s[j].key().same(
                key,
            ) by {
                assert(s[i].key().before(s[j].key()));
                lemma_key_trichotomy(key, s[i].key());
                lemma_key_transitive(key, s[i].key(), s[j].key());
                lemma_key_trichotomy(s[j].key(), key);
            }
        }
        if holds_key(s, key) {
            let j = choose|j: int| 0 <= j < s.len() && (#[trigger] s[j]).key().same(key);
            assert(j == i);
        }
    }

    /// Takes out the order that rests under the key of `order`, if any.
    pub fn del(&mut self, order: &Order) -> (r: Option<Order>)
        requires
            old(self).wf(),
            order.side == old(self).side(),
        ensures
            final(self).wf(),
            final(self).side() == old(self).side(),
            final(self).symbol() == old(self).symbol(),
            match r {
                Some(o) => exists|i: int|
                    0 <= i < old(self)@.len() && o == #[trigger] old(self)@[i] && o.key().same(
                        order.key(),
                    ) && final(self)@ == old(self)@.remove(i),
                None => !holds_key(old(self)@, order.key()) && final(self)@ == old(self)@,
            },
    {
        let key = OrderKey::new(order);
        self.del_by_key(&key)
    }

    /// Takes out the order that rests under `order_key`, if any.
    pub fn del_by_key(&mut self, order_key: &OrderKey) -> (r: Option<Order>)
        requires
            old(self).wf(),
            order_key.side == old(self).side(),
        ensures
            final(self).wf(),
            final(self).side() == old(self).side(),
            final(self).symbol() == old(self).symbol(),
            match r {
                Some(o) => exists|i: int|
                    0 <= i < old(self)@.len() && o == #[trigger] old(self)@[i] && o.key().same(
                        *order_key,
                    ) && final(self)@ == old(self)@.remove(i),
                None => !holds_key(old(self)@, *order_key) && final(self)@ == old(self)@,
            },
    {
        let i = self.position(order_key);
        proof {
            self.lemma_place(*order_key, i as int);
        }
        if i < self.orders.len() {
            assert(resting(self@[i as int], self.symbol(), self.side()));
            if OrderKey::new(&self.orders[i]).matches(order_key) {
                let ghost before = self@;
                let o = self.orders.remove(i);
                proof {
                    lemma_remove_keeps(before, i as int, self.symbol(), self.side());
                }
                return Some(o);
            }
        }
        None
    }

    /// The best order of the book, if it holds any.
    pub fn head(&self) -> (r: Option<&Order>)
        ensures
            match r {
                Some(o) => self@.len() > 0 && *o == self@[0],
                None => self@.len() == 0,
            },
    {
        if self.orders.len() > 0 {
            Some(&self.orders[0])
        } else {
            None
        }
    }

    /// The order at place `i`, counted from the best.
    pub fn get(&self, i: usize) -> (r: Option<&Order>)
        ensures
            match r {
                Some(o) => i < self@.len() && *o == self@[i as int],
                None => i >= self@.len(),
            },
    {
        if i < self.orders.len() {
            Some(&self.orders[i])
        } else {
            None
        }
    }

    /// How many orders rest in the book.
    pub fn size(&self) -> (n: usize)
        ensures
            n == self@.len(),
    {
        self.orders.len()
    }

    /// Whether an order rests under `key`.
    pub fn exist_by_key(&self, key: &OrderKey) -> (r: bool)
        requires
            self.wf(),
            key.side == self.side(),
        ensures
            r == holds_key(self@, *key),
    {
        let i = self.position(key);
        proof {
            self.lemma_place(*key, i as int);
        }
        if i < self.orders.len() {
            OrderKey::new(&self.orders[i]).matches(key)
        } else {
            false
        }
    }

    /// Fills `qty` units of the best order and hands back the order as it is
    /// after the fill. An order filled in full leaves the book; one filled in
    /// part stays at the head.
    pub fn fill_head(&mut self, qty: u64) -> (maker: Order)
        requires
            old(self).wf(),
            old(self)@.len() > 0,
            0 < qty <= old(self)@[0].left(),
        ensures
            final(self).wf(),
            final(self).side() == old(self).side(),
            final(self).symbol() == old(self).symbol(),
            maker == head_after_fill(old(self)@[0], qty as nat),
            final(self)@ == if qty == old(self)@[0].left() {
                old(self)@.drop_first()
            } else {
                old(self)@.update(0, maker)
            },
    {
        let ghost before = self@;
        assert(resting(before[0], self.symbol(), self.side()));
        let mut maker = self.orders.remove(0);
        proof {
            lemma_remove_keeps(before, 0, self.symbol(), self.side());
            assert(before.remove(0) == before.drop_first());
        }
        if qty == maker.remain() {
            maker.fill(qty, OrderState::FULL_FILLED);
            maker
        } else {
            maker.fill(qty, OrderState::PARTIAL_FILLED);
            let ghost rest = self@;
            self.orders.insert(0, maker.duplicate());
            proof {
                let after = self@;
                assert(after == before.update(0, maker));
                assert forall|a: int, b: int| 0 <= a < b < after.len() implies after[a].key().before(
                    after[b].key(),
                ) by {
                    assert(after[b] == before[b]);
                    assert(after[a].key() == before[a].key());
                }
                assert forall|a: int| 0 <= a < after.len() implies resting(
                    #[trigger] after[a],
                    self.symbol(),
                    self.side(),
                ) by {
                    if a > 0 {
                        assert(after[a] == before[a]);
                    }
                }
            }
            maker
        }
    }
}

/// The best order after `qty` of it traded: filled in full where nothing is
/// left, filled in part otherwise.
pub open spec fn head_after_fill(maker: Order, qty: nat) -> Order {
    maker.filled(
        qty,
        if qty == maker.left() {
            OrderState::FULL_FILLED
        } else {
            OrderState::PARTIAL_FILLED
        },
    )
}

/// Taking one order out of a sorted run of resting orders leaves such a run.
pub proof fn lemma_remove_keeps(s: Seq<Order>, i: int, symbol: Seq<char>, side: TradeSide)
    requires
        sorted(s),
        forall|j: int| 0 <= j < s.len() ==> resting(#[trigger] s[j], symbol, side),
        0 <= i < s.len(),
    ensures
        sorted(s.remove(i)),
        forall|j: int| 0 <= j < s.remove(i).len() ==> resting(#[trigger] s.remove(i)[j], symbol, side),
{
    let t = s.remove(i);
    assert forall|a: int, b: int| 0 <= a < b < t.len() implies t[a].key().before(t[b].key()) by {
        let a0 = if a < i {
            a
        } else {
            a + 1
        };
        let b0 = if b < i {
            b
        } else {
            b + 1
        };
        assert(t[a] == s[a0] && t[b] == s[b0]);
    }
    assert forall|j: int| 0 <= j < t.len() implies resting(#[trigger] t[j], symbol, side) by {
        let j0 = if j < i {
            j
        } else {
            j + 1
        };
        assert(t[j] == s[j0]);
    }
}

} // verus!
