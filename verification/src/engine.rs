use crate::order::same_text;
use crate::order::Order;
use crate::order::OrderAction;
use vstd::prelude::*;
use vstd::string::StringExecFns;

verus! {

/// Why the engine does not take a request.
#[derive(Clone, Copy, Debug, PartialEq, Eq, Structural)]
pub enum EngineError {
    /// A trader for the symbol is registered already.
    TraderExists,
    /// The engine is shutting down or has shut down.
    Stopped,
    /// The order was admitted before.
    OrderExisted,
}

impl EngineError {
    /// The message of the error; the one about a trader names the symbol.
    pub open spec fn text(self, symbol: Seq<char>) -> Seq<char> {
        match self {
            EngineError::TraderExists => "engine already exist, symbol="@ + symbol,
            EngineError::Stopped => "engine stopping or stopped"@,
            EngineError::OrderExisted => "order existed"@,
        }
    }

    pub fn to_string(&self, symbol: &str) -> (s: String)
        ensures
            s@ == self.text(symbol@),
    {
        match self {
            EngineError::TraderExists => String::from_str("engine already exist, symbol=").concat(
                symbol,
            ),
            EngineError::Stopped => String::from_str("engine stopping or stopped"),
            EngineError::OrderExisted => String::from_str("order existed"),
        }
    }
}

/// What is to be done with a request that the engine takes.
#[derive(Clone, Copy, Debug, PartialEq, Eq, Structural)]
pub enum FeedStep {
    /// A placement: admit the order to the store first, then report the
    /// outcome with `admitted`.
    Admit,
    /// A cancellation: hand the order to the trader at this place of the
    /// registry; where there is none, the order is dropped.
    Route(Option<usize>),
}

/// The place of the first of `symbols`, at or behind `k`, that is `symbol`.
pub open spec fn slot_from(symbols: Seq<String>, symbol: Seq<char>, k: nat) -> Option<nat>
    decreases symbols.len() - k,
{
    if k >= symbols.len() {
        None
    } else if symbols[k as int]@ == symbol {
        Some(k)
    } else {
        slot_from(symbols, symbol, k + 1)
    }
}

/// The registry of the traders, by symbol, and the shutdown flag.
#[derive(Debug)]
pub struct MatchEngine {
    traders: Vec<String>,
    is_shutdown: bool,
}

impl MatchEngine {
    /// The symbols that have a trader, in the order of their registration.
    pub closed spec fn symbols(&self) -> Seq<String> {
        self.traders@
    }

    /// Whether the engine is shutting down or has shut down.
    pub closed spec fn stopped(&self) -> bool {
        self.is_shutdown
    }

    /// The place of the trader of `symbol`, if it has one.
    pub open spec fn slot(&self, symbol: Seq<char>) -> Option<nat> {
        slot_from(self.symbols(), symbol, 0)
    }

    /// No symbol is registered twice.
    pub open spec fn wf(&self) -> bool {
        forall|i: int, j: int|
            #![trigger self.symbols()[i], self.symbols()[j]]
            0 <= i < j < self.symbols().len() ==> self.symbols()[i]@ != self.symbols()[j]@
    }

    /// An engine without traders, running.
    pub fn new() -> (e: MatchEngine)
        ensures
            e.wf(),
            e.symbols().len() == 0,
            !e.stopped(),
    {
        MatchEngine { traders: Vec::new(), is_shutdown: false }
    }

    /// Looks up the place of the trader of `symbol`.
    pub fn find(&self, symbol: &str) -> (r: Option<usize>)
        ensures
            match r {
                Some(at) => self.slot(symbol@) == Some(at as nat) && at < self.symbols().len()
                    && self.symbols()[at as int]@ == symbol@,
                None => self.slot(symbol@).is_none() && forall|i: int|
                    0 <= i < self.symbols().len() ==> (#[trigger] self.symbols()[i])@ != symbol@,
            },
    {
        let mut i: usize = 0;
        while i < self.traders.len()
            invariant
                i <= self.symbols().len(),
                self.slot(symbol@) == slot_from(self.symbols(), symbol@, i as nat),
                forall|j: int| 0 <= j < i ==> (#[trigger] self.symbols()[j])@ != symbol@,
            decreases self.symbols().len() - i,
        {
            if same_text(self.traders[i].as_str(), symbol) {
                return Some(i);
            }
            i += 1;
        }
        None
    }

    /// Registers a trader for `symbol` and hands out its place. A symbol
    /// that has a trader is refused, and nothing changes.
    pub fn new_trader(&mut self, symbol: &str) -> (r: Result<usize, EngineError>)
        requires
            old(self).wf(),
        ensures
            final(self).wf(),
            final(self).stopped() == old(self).stopped(),
            match r {
                Ok(at) => {
                    &&& old(self).slot(symbol@).is_none()
                    &&& at == old(self).symbols().len()
                    &&& final(self).symbols().len() == at + 1
                    &&& final(self).symbols().take(at as int) == old(self).symbols()
                    &&& final(self).symbols()[at as int]@ == symbol@
                    &&& final(self).slot(symbol@) == Some(at as nat)
                },
                Err(e) => e == EngineError::TraderExists && old(self).slot(symbol@).is_some()
                    && *final(self) == *old(self),
            },
    {
        match self.find(symbol) {
            Some(_) => Err(EngineError::TraderExists),
            None => {
                let at = self.traders.len();
                let ghost before = self.traders@;
                self.traders.push(String::from_str(symbol));
                proof {
                    assert(self.traders@.take(at as int) =~= before);
                    lemma_slot_found(self.traders@, symbol@, at as nat, 0);
                }
                Ok(at)
            },
        }
    }

    /// Decides what is to be done with `order`: a stopped engine takes
    /// nothing; a placement has to be admitted to the store first; a
    /// cancellation goes straight to the trader of its symbol.
    pub fn feed(&self, order: &Order) -> (r: Result<FeedStep, EngineError>)
        ensures
            r == if self.stopped() {
                Err::<FeedStep, EngineError>(EngineError::Stopped)
            } else {
                match order.action {
                    OrderAction::PLACE => Ok(FeedStep::Admit),
                    OrderAction::CANCEL => Ok(
                        FeedStep::Route(
                            match self.slot(order.symbol@) {
                                Some(at) => Some(at as usize),
                                None => None,
                            },
                        ),
                    ),
                }
            },
    {
        if self.is_shutdown {
            return Err(EngineError::Stopped);
        }
        match order.action {
            OrderAction::PLACE => Ok(FeedStep::Admit),
            OrderAction::CANCEL => Ok(FeedStep::Route(self.find(order.symbol.as_str()))),
        }
    }

    /// Decides what follows the admission of a placement: an order that the
    /// store held already is refused as a duplicate; a new one goes to the
    /// trader of its symbol, or is dropped where the symbol has none.
    pub fn admitted(&self, order: &Order, admitted: bool) -> (r: Result<Option<usize>, EngineError>)
        ensures
            r == if admitted {
                Ok::<Option<usize>, EngineError>(
                    match self.slot(order.symbol@) {
                        Some(at) => Some(at as usize),
                        None => None,
                    },
                )
            } else {
                Err(EngineError::OrderExisted)
            },
    {
        if !admitted {
            return Err(EngineError::OrderExisted);
        }
        Ok(self.find(order.symbol.as_str()))
    }

    /// Marks the engine as stopped. Tells whether the stop signal is to be
    /// sent and the workers are to be awaited: on the first call only.
    pub fn shutdown(&mut self) -> (first: bool)
        ensures
            final(self).stopped(),
            final(self).symbols() == old(self).symbols(),
            first == !old(self).stopped(),
    {
        let first = !self.is_shutdown;
        self.is_shutdown = true;
        first
    }

    /// Whether the engine is shutting down or has shut down.
    pub fn is_stopped(&self) -> (r: bool)
        ensures
            r == self.stopped(),
    {
        self.is_shutdown
    }
}

/// Where none of the symbols from `j` up to `at` is `symbol` and the one at
/// `at` is, the search from `j` finds `at`.
pub proof fn lemma_slot_found(symbols: Seq<String>, symbol: Seq<char>, at: nat, j: nat)
    requires
        j <= at < symbols.len(),
        symbols[at as int]@ == symbol,
        forall|i: int| j <= i < at ==> (#[trigger] symbols[i])@ != symbol,
    ensures
        slot_from(symbols, symbol, j) == Some(at),
    decreases at - j,
{
    if j < at {
        assert(symbols[j as int]@ != symbol);
        lemma_slot_found(symbols, symbol, at, j + 1);
    }
}

} // verus!
