use crate::cache::key_trades;
use crate::cache::CacheManager;
use crate::cache::TradeOffer;
use crate::config::ConsumerKind;
use crate::market::MatchTrade;
use vstd::prelude::*;

verus! {

/// What a sink does with a batch.
#[derive(Debug)]
pub enum SinkStep {
    /// The batch is empty: nothing is done.
    Nothing,
    /// The batch is written to the log.
    Log(Vec<MatchTrade>),
    /// The order updates and the batch are applied to the store, as one
    /// atomic unit.
    Store(TradeOffer, Vec<MatchTrade>),
}

/// The sink that only logs.
#[derive(Debug, Clone, Copy)]
pub struct ConsoleConsumer {}

impl ConsoleConsumer {
    /// Logs a batch that holds something.
    pub fn consume(&self, trades: Vec<MatchTrade>) -> (step: SinkStep)
        ensures
            match step {
                SinkStep::Nothing => trades@.len() == 0,
                SinkStep::Log(batch) => trades@.len() > 0 && batch == trades,
                SinkStep::Store(_, _) => false,
            },
    {
        if trades.len() == 0 {
            SinkStep::Nothing
        } else {
            SinkStep::Log(trades)
        }
    }
}

/// Decides what the sink of `kind` does with a batch: nothing with an empty
/// one; the console sink logs it; the store sink applies the updates of its
/// trades and appends it to the stream of its symbol.
pub fn consume(kind: ConsumerKind, trades: Vec<MatchTrade>) -> (step: SinkStep)
    ensures
        match step {
            SinkStep::Nothing => trades@.len() == 0,
            SinkStep::Log(batch) => trades@.len() > 0 && kind == ConsumerKind::Console && batch
                == trades,
            SinkStep::Store(offer, batch) => {
                &&& trades@.len() > 0
                &&& kind == ConsumerKind::Redis
                &&& batch == trades
                &&& offer.trades_key@ == key_trades(trades@[0].symbol@)
                &&& offer.updates@.len() == trades@.len()
                &&& forall|i: int|
                    0 <= i < trades@.len() ==> (#[trigger] offer.updates@[i]).describes(trades@[i])
            },
        },
{
    match kind {
        ConsumerKind::Console => (ConsoleConsumer {}).consume(trades),
        ConsumerKind::Redis => match CacheManager::trade_offer(&trades) {
            Some(offer) => SinkStep::Store(offer, trades),
            None => SinkStep::Nothing,
        },
    }
}

} // verus!
