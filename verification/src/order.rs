use crate::price::Price;
use std::cmp::Ordering;
use vstd::prelude::*;
use vstd::string::StringExecFns;

verus! {

/// Which enumeration a rejected text was meant for.
#[derive(Clone, Copy, Debug, PartialEq, Eq, Structural)]
pub enum TextKind {
    TradeSide,
    OrderType,
    OrderState,
    OrderTimeInForce,
    OrderAction,
}

/// A text that names no variant of the enumeration it was read for.
#[derive(Debug)]
pub struct NoMatch {
    pub kind: TextKind,
    pub value: String,
}

impl NoMatch {
    /// The words that open the message for each enumeration.
    pub open spec fn opening(kind: TextKind) -> Seq<char> {
        match kind {
            TextKind::TradeSide => "no match TradeSide value="@,
            TextKind::OrderType => "no match OrderType value="@,
            TextKind::OrderState => "no match OrderState value="@,
            TextKind::OrderTimeInForce => "no match OrderTimeInForce value="@,
            TextKind::OrderAction => "no match OrderTimeInForce value="@,
        }
    }

    /// The message: the opening words, then the rejected text.
    pub fn to_string(&self) -> (s: String)
        ensures
            s@ == Self::opening(self.kind) + self.value@,
    {
        let head = match self.kind {
            TextKind::TradeSide => String::from_str("no match TradeSide value="),
            TextKind::OrderType => String::from_str("no match OrderType value="),
            TextKind::OrderState => String::from_str("no match OrderState value="),
            TextKind::OrderTimeInForce => String::from_str("no match OrderTimeInForce value="),
            TextKind::OrderAction => String::from_str("no match OrderTimeInForce value="),
        };
        head.concat(self.value.as_str())
    }
}

/// Whether two texts hold the same characters.
pub fn same_text(a: &str, b: &str) -> (r: bool)
    ensures
        r == (a@ == b@),
{
    String::from_str(a) == String::from_str(b)
}

#[allow(non_camel_case_types)]
#[derive(Clone, Copy, Debug, PartialEq, Eq, Hash, Structural)]
pub enum TradeSide {
    SELL,
    BUY,
}

impl TradeSide {
    /// The name under which the side is written and read.
    pub open spec fn text(self) -> Seq<char> {
        match self {
            TradeSide::SELL => "SELL"@,
            TradeSide::BUY => "BUY"@,
        }
    }

    /// The variant that the text `t` names, if it names one.
    pub open spec fn named(t: Seq<char>) -> Option<TradeSide> {
        if t == "SELL"@ {
            Some(TradeSide::SELL)
        } else if t == "BUY"@ {
            Some(TradeSide::BUY)
        } else {
            None
        }
    }

    /// Each variant is the one that its own name names, so no two variants
    /// share a name.
    pub proof fn lemma_named_text(v: TradeSide)
        ensures
            Self::named(v.text()) == Some(v),
    {
        reveal_strlit("SELL");
        reveal_strlit("BUY");
        assert("SELL"@.len() == 4);
        assert("BUY"@.len() == 3);
    }

    pub fn to_string(&self) -> (s: String)
        ensures
            s@ == self.text(),
    {
        match self {
            TradeSide::SELL => String::from_str("SELL"),
            TradeSide::BUY => String::from_str("BUY"),
        }
    }

    /// Reads a side from its name; any other text is rejected and handed back.
    pub fn from_str(s: &str) -> (r: Result<TradeSide, NoMatch>)
        ensures
            Self::named(s@) == match r {
                Ok(v) => Some(v),
                Err(_) => None,
            },
            match r {
                Ok(v) => s@ == v.text(),
                Err(e) => e.kind == TextKind::TradeSide && e.value@ == s@ && forall|v: TradeSide|
                    s@ != #[trigger] v.text(),
            },
    {
        if same_text(s, "SELL") {
            Ok(TradeSide::SELL)
        } else if same_text(s, "BUY") {
            Ok(TradeSide::BUY)
        } else {
            Err(NoMatch { kind: TextKind::TradeSide, value: String::from_str(s) })
        }
    }
}

#[allow(non_camel_case_types)]
#[derive(Clone, Copy, Debug, PartialEq, Eq, Hash, Structural)]
pub enum OrderType {
    MARKET,
    LIMIT,
}

impl OrderType {
    /// The name under which the type is written and read.
    pub open spec fn text(self) -> Seq<char> {
        match self {
            OrderType::MARKET => "MARKET"@,
            OrderType::LIMIT => "LIMIT"@,
        }
    }

    /// The variant that the text `t` names, if it names one.
    pub open spec fn named(t: Seq<char>) -> Option<OrderType> {
        if t == "MARKET"@ {
            Some(OrderType::MARKET)
        } else if t == "LIMIT"@ {
            Some(OrderType::LIMIT)
        } else {
            None
        }
    }

    /// Each variant is the one that its own name names, so no two variants
    /// share a name.
    pub proof fn lemma_named_text(v: OrderType)
        ensures
            Self::named(v.text()) == Some(v),
    {
        reveal_strlit("MARKET");
        reveal_strlit("LIMIT");
        assert("MARKET"@.len() == 6);
        assert("LIMIT"@.len() == 5);
    }

    pub fn to_string(&self) -> (s: String)
        ensures
            s@ == self.text(),
    {
        match self {
            OrderType::MARKET => String::from_str("MARKET"),
            OrderType::LIMIT => String::from_str("LIMIT"),
        }
    }

    /// Reads an order type from its name; any other text is rejected.
    pub fn from_str(s: &str) -> (r: Result<OrderType, NoMatch>)
        ensures
            Self::named(s@) == match r {
                Ok(v) => Some(v),
                Err(_) => None,
            },
            match r {
                Ok(v) => s@ == v.text(),
                Err(e) => e.kind == TextKind::OrderType && e.value@ == s@ && forall|v: OrderType|
                    s@ != #[trigger] v.text(),
            },
    {
        if same_text(s, "MARKET") {
            Ok(OrderType::MARKET)
        } else if same_text(s, "LIMIT") {
            Ok(OrderType::LIMIT)
        } else {
            Err(NoMatch { kind: TextKind::OrderType, value: String::from_str(s) })
        }
    }
}

#[allow(non_camel_case_types)]
#[derive(Clone, Copy, Debug, PartialEq, Eq, Hash, Structural)]
pub enum OrderState {
    INIT,
    LIVE,
    PARTIAL_FILLED,
    PARTIAL_CANCELLED,
    FULL_FILLED,
    CANCELED,
}

impl OrderState {
    /// A terminal state: an order that reaches it leaves the book and the
    /// persisted store.
    pub open spec fn deletable(self) -> bool {
        self == OrderState::PARTIAL_CANCELLED || self == OrderState::FULL_FILLED || self
            == OrderState::CANCELED
    }

    pub fn del_flag(&self) -> (r: bool)
        ensures
            r == self.deletable(),
    {
        match self {
            OrderState::INIT => false,
            OrderState::LIVE => false,
            OrderState::PARTIAL_FILLED => false,
            OrderState::PARTIAL_CANCELLED => true,
            OrderState::FULL_FILLED => true,
            OrderState::CANCELED => true,
        }
    }

    /// The name under which the state is written and read.
    pub open spec fn text(self) -> Seq<char> {
        match self {
            OrderState::INIT => "INIT"@,
            OrderState::LIVE => "LIVE"@,
            OrderState::PARTIAL_FILLED => "PARTIAL_FILLED"@,
            OrderState::PARTIAL_CANCELLED => "PARTIAL_CANCELLED"@,
            OrderState::FULL_FILLED => "FULL_FILLED"@,
            OrderState::CANCELED => "CANCELED"@,
        }
    }

    /// The variant that the text `t` names, if it names one.
    pub open spec fn named(t: Seq<char>) -> Option<OrderState> {
        if t == "INIT"@ {
            Some(OrderState::INIT)
        } else if t == "LIVE"@ {
            Some(OrderState::LIVE)
        } else if t == "PARTIAL_FILLED"@ {
            Some(OrderState::PARTIAL_FILLED)
        } else if t == "PARTIAL_CANCELLED"@ {
            Some(OrderState::PARTIAL_CANCELLED)
        } else if t == "FULL_FILLED"@ {
            Some(OrderState::FULL_FILLED)
        } else if t == "CANCELED"@ {
            Some(OrderState::CANCELED)
        } else {
            None
        }
    }

    /// Each variant is the one that its own name names, so no two variants
    /// share a name.
    pub proof fn lemma_named_text(v: OrderState)
        ensures
            Self::named(v.text()) == Some(v),
    {
        reveal_strlit("INIT");
        reveal_strlit("LIVE");
        reveal_strlit("PARTIAL_FILLED");
        reveal_strlit("PARTIAL_CANCELLED");
        reveal_strlit("FULL_FILLED");
        reveal_strlit("CANCELED");
        assert("INIT"@.len() == 4);
        assert("LIVE"@.len() == 4);
        assert("PARTIAL_FILLED"@.len() == 14);
        assert("PARTIAL_CANCELLED"@.len() == 17);
        assert("FULL_FILLED"@.len() == 11);
        assert("CANCELED"@.len() == 8);
        assert("INIT"@[0] != "LIVE"@[0]);
    }

    pub fn to_string(&self) -> (s: String)
        ensures
            s@ == self.text(),
    {
        match self {
            OrderState::INIT => String::from_str("INIT"),
            OrderState::LIVE => String::from_str("LIVE"),
            OrderState::PARTIAL_FILLED => String::from_str("PARTIAL_FILLED"),
            OrderState::PARTIAL_CANCELLED => String::from_str("PARTIAL_CANCELLED"),
            OrderState::FULL_FILLED => String::from_str("FULL_FILLED"),
            OrderState::CANCELED => String::from_str("CANCELED"),
        }
    }

    /// Reads a state from its name; any other text is rejected.
    pub fn from_str(s: &str) -> (r: Result<OrderState, NoMatch>)
        ensures
            Self::named(s@) == match r {
                Ok(v) => Some(v),
                Err(_) => None,
            },
            match r {
                Ok(v) => s@ == v.text(),
                Err(e) => e.kind == TextKind::OrderState && e.value@ == s@ && forall|v: OrderState|
                    s@ != #[trigger] v.text(),
            },
    {
        if same_text(s, "INIT") {
            Ok(OrderState::INIT)
        } else if same_text(s, "LIVE") {
            Ok(OrderState::LIVE)
        } else if same_text(s, "PARTIAL_FILLED") {
            Ok(OrderState::PARTIAL_FILLED)
        } else if same_text(s, "PARTIAL_CANCELLED") {
            Ok(OrderState::PARTIAL_CANCELLED)
        } else if same_text(s, "FULL_FILLED") {
            Ok(OrderState::FULL_FILLED)
        } else if same_text(s, "CANCELED") {
            Ok(OrderState::CANCELED)
        } else {
            Err(NoMatch { kind: TextKind::OrderState, value: String::from_str(s) })
        }
    }
}

#[allow(non_camel_case_types)]
#[derive(Clone, Copy, Debug, PartialEq, Eq, Hash, Structural)]
pub enum OrderTimeInForce {
    GTC,
    IOC,
    FOK,
}

impl OrderTimeInForce {
    /// The name under which the policy is written and read.
    pub open spec fn text(self) -> Seq<char> {
        match self {
            OrderTimeInForce::GTC => "GTC"@,
            OrderTimeInForce::IOC => "IOC"@,
            OrderTimeInForce::FOK => "FOK"@,
        }
    }

    /// The variant that the text `t` names, if it names one.
    pub open spec fn named(t: Seq<char>) -> Option<OrderTimeInForce> {
        if t == "GTC"@ {
            Some(OrderTimeInForce::GTC)
        } else if t == "IOC"@ {
            Some(OrderTimeInForce::IOC)
        } else if t == "FOK"@ {
            Some(OrderTimeInForce::FOK)
        } else {
            None
        }
    }

    /// Each variant is the one that its own name names, so no two variants
    /// share a name.
    pub proof fn lemma_named_text(v: OrderTimeInForce)
        ensures
            Self::named(v.text()) == Some(v),
    {
        reveal_strlit("GTC");
        reveal_strlit("IOC");
        reveal_strlit("FOK");
        assert("GTC"@.len() == 3);
        assert("IOC"@.len() == 3);
        assert("FOK"@.len() == 3);
        assert("GTC"@[0] != "IOC"@[0]);
        assert("GTC"@[0] != "FOK"@[0]);
        assert("IOC"@[0] != "FOK"@[0]);
    }

    pub fn to_string(&self) -> (s: String)
        ensures
            s@ == self.text(),
    {
        match self {
            OrderTimeInForce::GTC => String::from_str("GTC"),
            OrderTimeInForce::IOC => String::from_str("IOC"),
            OrderTimeInForce::FOK => String::from_str("FOK"),
        }
    }

    /// Reads a time-in-force policy from its name; any other text is rejected.
    pub fn from_str(s: &str) -> (r: Result<OrderTimeInForce, NoMatch>)
        ensures
            Self::named(s@) == match r {
                Ok(v) => Some(v),
                Err(_) => None,
            },
            match r {
                Ok(v) => s@ == v.text(),
                Err(e) => e.kind == TextKind::OrderTimeInForce && e.value@ == s@ && forall|v: OrderTimeInForce|
                    s@ != #[trigger] v.text(),
            },
    {
        if same_text(s, "GTC") {
            Ok(OrderTimeInForce::GTC)
        } else if same_text(s, "IOC") {
            Ok(OrderTimeInForce::IOC)
        } else if same_text(s, "FOK") {
            Ok(OrderTimeInForce::FOK)
        } else {
            Err(NoMatch { kind: TextKind::OrderTimeInForce, value: String::from_str(s) })
        }
    }
}

#[allow(non_camel_case_types)]
#[derive(Clone, Copy, Debug, PartialEq, Eq, Hash, Structural)]
pub enum OrderAction {
    PLACE,
    CANCEL,
}

impl OrderAction {
    /// The name under which the action is written and read.
    pub open spec fn text(self) -> Seq<char> {
        match self {
            OrderAction::PLACE => "PLACE"@,
            OrderAction::CANCEL => "CANCEL"@,
        }
    }

    /// The variant that the text `t` names, if it names one.
    pub open spec fn named(t: Seq<char>) -> Option<OrderAction> {
        if t == "PLACE"@ {
            Some(OrderAction::PLACE)
        } else if t == "CANCEL"@ {
            Some(OrderAction::CANCEL)
        } else {
            None
        }
    }

    /// Each variant is the one that its own name names, so no two variants
    /// share a name.
    pub proof fn lemma_named_text(v: OrderAction)
        ensures
            Self::named(v.text()) == Some(v),
    {
        reveal_strlit("PLACE");
        reveal_strlit("CANCEL");
        assert("PLACE"@.len() == 5);
        assert("CANCEL"@.len() == 6);
    }

    pub fn to_string(&self) -> (s: String)
        ensures
            s@ == self.text(),
    {
        match self {
            OrderAction::PLACE => String::from_str("PLACE"),
            OrderAction::CANCEL => String::from_str("CANCEL"),
        }
    }

    /// Reads an action from its name; any other text is rejected.
    pub fn from_str(s: &str) -> (r: Result<OrderAction, NoMatch>)
        ensures
            Self::named(s@) == match r {
                Ok(v) => Some(v),
                Err(_) => None,
            },
            match r {
                Ok(v) => s@ == v.text(),
                Err(e) => e.kind == TextKind::OrderAction && e.value@ == s@ && forall|v: OrderAction|
                    s@ != #[trigger] v.text(),
            },
    {
        if same_text(s, "PLACE") {
            Ok(OrderAction::PLACE)
        } else if same_text(s, "CANCEL") {
            Ok(OrderAction::CANCEL)
        } else {
            Err(NoMatch { kind: TextKind::OrderAction, value: String::from_str(s) })
        }
    }
}

/// An order as it is placed, rests and fills.
#[derive(Clone, Debug, PartialEq, Eq)]
pub struct Order {
    /// Caller-supplied identifier, unique per symbol.
    pub id: u64,
    pub symbol: String,
    pub side: TradeSide,
    /// The quantity the order was placed for.
    pub qty: u64,
    pub price: Price,
    /// How much of `qty` has been filled so far.
    pub acc_fill_qty: u64,
    pub ord_type: OrderType,
    /// Creation time, milliseconds since the Unix epoch.
    pub ts: u128,
    /// Time of the last change, milliseconds since the Unix epoch.
    pub update_ts: u128,
    pub state: OrderState,
    pub tif: OrderTimeInForce,
    pub action: OrderAction,
}

impl Order {
    /// No more has been filled than was ordered.
    pub open spec fn wf(self) -> bool {
        self.acc_fill_qty <= self.qty
    }

    /// The quantity still to be filled.
    pub open spec fn left(self) -> nat {
        (self.qty - self.acc_fill_qty) as nat
    }

    /// Whether `self`, as the incoming order, may trade against `maker`: the
    /// sides differ, and a limit price is at least as good as the maker's.
    pub open spec fn crosses(self, maker: Order) -> bool {
        self.side != maker.side && (self.ord_type == OrderType::MARKET || match self.side {
            TradeSide::BUY => maker.price.at_most(self.price),
            TradeSide::SELL => self.price.at_most(maker.price),
        })
    }

    /// The order after `filled` more units traded and its state became `state`.
    pub open spec fn filled(self, filled: nat, state: OrderState) -> Order {
        Order { state: state, acc_fill_qty: (self.acc_fill_qty + filled) as u64, ..self }
    }

    /// The sort key under which the order rests.
    pub open spec fn key(self) -> OrderKey {
        OrderKey { sequence_id: self.id, price: self.price, side: self.side }
    }

    /// A copy of the order, field by field.
    pub fn duplicate(&self) -> (o: Order)
        ensures
            o == *self,
    {
        Order {
            id: self.id,
            symbol: self.symbol.clone(),
            side: self.side,
            qty: self.qty,
            price: self.price,
            acc_fill_qty: self.acc_fill_qty,
            ord_type: self.ord_type,
            ts: self.ts,
            update_ts: self.update_ts,
            state: self.state,
            tif: self.tif,
            action: self.action,
        }
    }

    /// The quantity still to be filled.
    pub fn remain(&self) -> (r: u64)
        requires
            self.wf(),
        ensures
            r == self.left(),
    {
        self.qty - self.acc_fill_qty
    }

    /// Whether this order, as the incoming one, can trade against `order`.
    pub fn can_trade(&self, order: &Order) -> (r: bool)
        ensures
            r == self.crosses(*order),
    {
        proof {
            crate::price::lemma_diff_flips(self.price, order.price);
        }
        if self.side == order.side {
            return false;
        }
        if self.ord_type == OrderType::MARKET {
            return true;
        }
        match self.side {
            TradeSide::BUY => self.price >= order.price,
            TradeSide::SELL => self.price <= order.price,
        }
    }

    /// Records a fill of `filled_qty` units and the state that it leaves.
    pub fn fill(&mut self, filled_qty: u64, state: OrderState)
        requires
            old(self).acc_fill_qty + filled_qty <= old(self).qty,
        ensures
            *final(self) == old(self).filled(filled_qty as nat, state),
    {
        self.state = state;
        self.acc_fill_qty += filled_qty;
    }
}

/// The key by which resting orders of one side are sorted: best price first,
/// and among equal prices the lower sequence number first.
#[derive(Clone, Copy, Debug, PartialEq, Eq)]
pub struct OrderKey {
    pub sequence_id: u64,
    pub price: Price,
    pub side: TradeSide,
}

impl OrderKey {
    /// `self` sorts strictly before `other`, both of the side of `self`.
    pub open spec fn before(self, other: OrderKey) -> bool {
        let better = match self.side {
            TradeSide::BUY => other.price.below(self.price),
            TradeSide::SELL => self.price.below(other.price),
        };
        better || (self.price.same(other.price) && self.sequence_id < other.sequence_id)
    }

    /// `self` and `other` take the same place in the order.
    pub open spec fn same(self, other: OrderKey) -> bool {
        self.price.same(other.price) && self.sequence_id == other.sequence_id
    }

    pub fn new(order: &Order) -> (k: OrderKey)
        ensures
            k == order.key(),
    {
        OrderKey { sequence_id: order.id, price: order.price, side: order.side }
    }

    /// The place of `self` relative to `other`: `Less` where it sorts before.
    pub open spec fn ordering(self, other: OrderKey) -> Ordering {
        if self.before(other) {
            Ordering::Less
        } else if self.same(other) {
            Ordering::Equal
        } else {
            Ordering::Greater
        }
    }

    /// Compares two keys of one side: by price, the better one first (the
    /// higher for BUY, the lower for SELL), then by sequence number.
    pub fn cmp(&self, other: &OrderKey) -> (o: Ordering)
        requires
            self.side == other.side,
        ensures
            o == self.ordering(*other),
    {
        proof {
            crate::price::lemma_diff_flips(self.price, other.price);
        }
        let by_price = match other.side {
            TradeSide::BUY => other.price.compare(&self.price),
            TradeSide::SELL => self.price.compare(&other.price),
        };
        match by_price {
            Ordering::Equal => {
                if self.sequence_id < other.sequence_id {
                    Ordering::Less
                } else if self.sequence_id == other.sequence_id {
                    Ordering::Equal
                } else {
                    Ordering::Greater
                }
            },
            decided => decided,
        }
    }

    /// As `cmp`; keys of one side are always comparable.
    pub fn partial_cmp(&self, other: &OrderKey) -> (o: Option<Ordering>)
        requires
            self.side == other.side,
        ensures
            o == Some(self.ordering(*other)),
    {
        Some(self.cmp(other))
    }

    /// Whether `self` sorts strictly before `other`.
    pub fn precedes(&self, other: &OrderKey) -> (r: bool)
        requires
            self.side == other.side,
        ensures
            r == self.before(*other),
    {
        let better = match self.side {
            TradeSide::BUY => other.price < self.price,
            TradeSide::SELL => self.price < other.price,
        };
        better || (self.price == other.price && self.sequence_id < other.sequence_id)
    }

    /// Whether `self` and `other` take the same place in the order.
    pub fn matches(&self, other: &OrderKey) -> (r: bool)
        ensures
            r == self.same(*other),
    {
        self.price == other.price && self.sequence_id == other.sequence_id
    }
}

/// Of two keys of one side exactly one holds: the first sorts before the
/// second, they take the same place, or the second sorts before the first.
pub proof fn lemma_key_trichotomy(a: OrderKey, b: OrderKey)
    requires
        a.side == b.side,
    ensures
        a.before(b) || a.same(b) || b.before(a),
        !(a.before(b) && a.same(b)),
        !(a.before(b) && b.before(a)),
        !(a.same(b) && b.before(a)),
        a.same(b) <==> b.same(a),
        a.same(a),
{
    crate::price::lemma_diff_flips(a.price, b.price);
    crate::price::lemma_diff_flips(b.price, a.price);
    crate::price::lemma_diff_flips(a.price, a.price);
}

/// The order of keys of one side is transitive, also through keys that take
/// the same place.
pub proof fn lemma_key_transitive(a: OrderKey, b: OrderKey, c: OrderKey)
    requires
        a.side == b.side,
        b.side == c.side,
        a.before(b) || a.same(b),
        b.before(c) || b.same(c),
    ensures
        a.before(c) || a.same(c),
        a.before(b) || b.before(c) ==> a.before(c),
{
    crate::price::lemma_diff_flips(a.price, b.price);
    crate::price::lemma_diff_flips(b.price, c.price);
    crate::price::lemma_diff_flips(a.price, c.price);
    match a.side {
        TradeSide::BUY => {
            crate::price::lemma_order_transitive(c.price, b.price, a.price);
        },
        TradeSide::SELL => {
            crate::price::lemma_order_transitive(a.price, b.price, c.price);
        },
    }
}

} // verus!
