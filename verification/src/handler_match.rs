use crate::http_server::AppError;
use crate::order::Order;
use crate::order::OrderAction;
use crate::order::OrderState;
use crate::order::OrderTimeInForce;
use crate::order::OrderType;
use crate::order::TradeSide;
use crate::price::Price;
use crate::utils::now_ts;
use vstd::prelude::*;
use vstd::string::StringExecFns;

verus! {

/// The smallest id and the smallest quantity that a request may carry.
pub const MIN_ID: u64 = 1;

pub const MIN_QTY: u64 = 1;

/// The bounds on the number of characters of a symbol.
pub const MIN_SYMBOL_CHARS: usize = 2;

pub const MAX_SYMBOL_CHARS: usize = 50;

/// The body that answers an accepted request.
pub const ACCEPTED: &'static str = "ACCEPTED";

/// A rule that a request breaks.
#[derive(Clone, Copy, Debug, PartialEq, Eq, Structural)]
pub enum Violation {
    /// The id is below `MIN_ID`.
    IdRange,
    /// The symbol has fewer than `MIN_SYMBOL_CHARS` or more than
    /// `MAX_SYMBOL_CHARS` characters.
    SymbolLength,
    /// The quantity is below `MIN_QTY`.
    QtyRange,
    /// The price is below zero.
    NegativePrice,
    /// A market order asks to rest until cancelled.
    MarketGtc,
}

impl Violation {
    pub open spec fn text(self) -> Seq<char> {
        match self {
            Violation::IdRange => "id: range"@,
            Violation::SymbolLength => "symbol: length"@,
            Violation::QtyRange => "qty: range"@,
            Violation::NegativePrice => "price < 0"@,
            Violation::MarketGtc => "market price type order's tif can not be GTC"@,
        }
    }

    pub fn to_string(&self) -> (s: String)
        ensures
            s@ == self.text(),
    {
        match self {
            Violation::IdRange => String::from_str("id: range"),
            Violation::SymbolLength => String::from_str("symbol: length"),
            Violation::QtyRange => String::from_str("qty: range"),
            Violation::NegativePrice => String::from_str("price < 0"),
            Violation::MarketGtc => String::from_str(
                "market price type order's tif can not be GTC",
            ),
        }
    }
}

/// A request to place or cancel an order, as the ingress takes it.
#[derive(Debug, PartialEq, Eq)]
pub struct MatchOrderParam {
    pub id: u64,
    pub symbol: String,
    pub side: TradeSide,
    pub qty: u64,
    /// Required for a limit order; a market order needs none.
    pub price: Option<Price>,
    pub ord_type: OrderType,
    /// Where absent: immediate-or-cancel for a market order,
    /// good-till-cancelled for a limit order.
    pub tif: Option<OrderTimeInForce>,
    pub action: OrderAction,
    /// Creation time; where absent, the time at which the request is taken.
    pub ts: Option<u128>,
}

impl MatchOrderParam {
    /// The field rules that the request breaks, in the order of the fields.
    pub open spec fn field_violations(self) -> Seq<Violation> {
        (if self.id < MIN_ID {
            seq![Violation::IdRange]
        } else {
            Seq::<Violation>::empty()
        }) + (if self.symbol@.len() < MIN_SYMBOL_CHARS || self.symbol@.len() > MAX_SYMBOL_CHARS {
            seq![Violation::SymbolLength]
        } else {
            Seq::<Violation>::empty()
        }) + (if self.qty < MIN_QTY {
            seq![Violation::QtyRange]
        } else {
            Seq::<Violation>::empty()
        })
    }

    /// Whether the request carries a price below zero.
    pub open spec fn negative_price(self) -> bool {
        self.price matches Some(p) && p.below(Price { digits: 0, scale: 0 })
    }

    /// Whether the request is a market order that asks to rest.
    pub open spec fn market_gtc(self) -> bool {
        self.ord_type == OrderType::MARKET && self.tif == Some(OrderTimeInForce::GTC)
    }

    /// What is wrong with the request: all the field rules that it breaks;
    /// where it breaks none, a negative price; where the price is in order,
    /// a market order that asks to rest.
    pub open spec fn violations(self) -> Seq<Violation> {
        if self.field_violations().len() > 0 {
            self.field_violations()
        } else if self.negative_price() {
            seq![Violation::NegativePrice]
        } else if self.market_gtc() {
            seq![Violation::MarketGtc]
        } else {
            Seq::<Violation>::empty()
        }
    }

    /// The time in force of the order: as asked for, else by the order type.
    pub open spec fn tif_or_default(self) -> OrderTimeInForce {
        match self.tif {
            Some(t) => t,
            None => if self.ord_type == OrderType::MARKET {
                OrderTimeInForce::IOC
            } else {
                OrderTimeInForce::GTC
            },
        }
    }

    /// Whether `o` is the order that the request asks for when it is taken
    /// at `now`: nothing filled yet, state `LIVE`, price zero and creation
    /// time `now` where the request names none.
    pub open spec fn asks_for(self, o: Order, now: u128) -> bool {
        let created = match self.ts {
            Some(t) => t,
            None => now,
        };
        &&& o.id == self.id
        &&& o.symbol == self.symbol
        &&& o.side == self.side
        &&& o.qty == self.qty
        &&& o.price == match self.price {
            Some(p) => p,
            None => Price { digits: 0, scale: 0 },
        }
        &&& o.acc_fill_qty == 0
        &&& o.ord_type == self.ord_type
        &&& o.ts == created
        &&& o.update_ts == created
        &&& o.state == OrderState::LIVE
        &&& o.tif == self.tif_or_default()
        &&& o.action == self.action
    }

    /// Holds the request against the rules of the ingress.
    pub fn validate(&self) -> (r: Result<(), Vec<Violation>>)
        ensures
            match r {
                Ok(_) => self.violations().len() == 0,
                Err(found) => found@ == self.violations() && found@.len() > 0,
            },
    {
        let mut found: Vec<Violation> = Vec::new();
        if self.id < MIN_ID {
            found.push(Violation::IdRange);
        }
        let chars = self.symbol.as_str().unicode_len();
        if chars < MIN_SYMBOL_CHARS || chars > MAX_SYMBOL_CHARS {
            found.push(Violation::SymbolLength);
        }
        if self.qty < MIN_QTY {
            found.push(Violation::QtyRange);
        }
        assert(found@ =~= self.field_violations());
        if found.len() > 0 {
            return Err(found);
        }
        match &self.price {
            Some(price) => {
                if *price < Price::zero() {
                    found.push(Violation::NegativePrice);
                    assert(found@ =~= seq![Violation::NegativePrice]);
                    return Err(found);
                }
            },
            None => {},
        }
        match self.tif {
            Some(tif) => {
                if self.ord_type == OrderType::MARKET && tif == OrderTimeInForce::GTC {
                    found.push(Violation::MarketGtc);
                    assert(found@ =~= seq![Violation::MarketGtc]);
                    return Err(found);
                }
            },
            None => {},
        }
        Ok(())
    }

    /// The order that the request asks for, taken at the time that the clock
    /// shows.
    pub fn to_order(&self) -> (o: Order)
        ensures
            exists|now: u128| self.asks_for(o, now),
    {
        let now = now_ts();
        let o = self.to_order_at(now);
        assert(self.asks_for(o, now));
        o
    }

    /// The order that the request asks for, taken at `now`.
    pub fn to_order_at(&self, now: u128) -> (o: Order)
        ensures
            self.asks_for(o, now),
    {
        let created = match self.ts {
            Some(t) => t,
            None => now,
        };
        Order {
            id: self.id,
            symbol: self.symbol.clone(),
            side: self.side,
            qty: self.qty,
            price: match self.price {
                Some(p) => p,
                None => Price::zero(),
            },
            acc_fill_qty: 0,
            ord_type: self.ord_type,
            ts: created,
            update_ts: created,
            state: OrderState::LIVE,
            tif: match self.tif {
                Some(t) => t,
                None => if self.ord_type == OrderType::MARKET {
                    OrderTimeInForce::IOC
                } else {
                    OrderTimeInForce::GTC
                },
            },
            action: self.action,
        }
    }
}

/// Takes a request at `now`: the order that it asks for where it keeps all
/// rules, else the error that names what it breaks.
pub fn handler_match(param: &MatchOrderParam, now: u128) -> (r: Result<Order, AppError>)
    ensures
        match r {
            Ok(o) => param.violations().len() == 0 && param.asks_for(o, now),
            Err(e) => param.violations().len() > 0 && e.rejects(param.violations()),
        },
{
    match param.validate() {
        Ok(_) => Ok(param.to_order_at(now)),
        Err(found) => Err(AppError::validation(&found)),
    }
}

} // verus!
