use crate::market::MatchTrade;
use crate::order::Order;
use crate::order::OrderState;
use crate::record::fault;
use crate::record::pairs;
use crate::text::decimal;
use crate::text::decimal_string;
use crate::text::lemma_decimal_injective;
use crate::text::parse_u64;
use crate::text::parsed_number;
use vstd::prelude::*;
use vstd::string::StringExecFns;

verus! {

/// The word that opens every key of the persisted store.
pub const CACHE_PREFIX: &'static str = "Loom";

/// How many replies an admission brings: one for the index, twelve for the
/// fields of the record.
pub const ADMISSION_REPLIES: usize = 13;

/// The key of the index of a symbol's order ids, sorted by creation time.
pub open spec fn key_id(symbol: Seq<char>) -> Seq<char> {
    CACHE_PREFIX@ + ":ID:"@ + symbol
}

/// The key of the record of one order.
pub open spec fn key_order(symbol: Seq<char>, id: u64) -> Seq<char> {
    CACHE_PREFIX@ + ":ORDER:"@ + symbol + ":"@ + decimal(id as nat)
}

/// The key of the stream of a symbol's trade batches.
pub open spec fn key_trades(symbol: Seq<char>) -> Seq<char> {
    CACHE_PREFIX@ + ":TRADES:"@ + symbol
}

/// The commands that admit an order, to be run as one atomic block: the id
/// joins the index at the order's creation time unless it is there already,
/// and each field of the record is set unless it is set already.
pub open spec fn admission(o: Order) -> Seq<Seq<Seq<char>>> {
    seq![seq!["ZADD"@, key_id(o.symbol@), "NX"@, decimal(o.ts as nat), decimal(o.id as nat)]]
        + Seq::new(
        12,
        |i: int| seq!["HSETNX"@, key_order(o.symbol@, o.id), o.record()[i].0, o.record()[i].1],
    )
}

/// The commands that delete an order, to be run as one atomic block.
pub open spec fn deletion(o: Order) -> Seq<Seq<Seq<char>>> {
    seq![
        seq!["ZREM"@, key_id(o.symbol@), decimal(o.id as nat)],
        seq!["DEL"@, key_order(o.symbol@, o.id)],
    ]
}

/// The command that lists the ids of a symbol created up to `now`, oldest
/// first.
pub open spec fn scan(symbol: Seq<char>, now: u128) -> Seq<Seq<char>> {
    seq!["ZRANGEBYSCORE"@, key_id(symbol), "0"@, decimal(now as nat)]
}

/// The commands that fetch the records of `ids`, one for each id in turn.
pub open spec fn loading(symbol: Seq<char>, ids: Seq<u64>) -> Seq<Seq<Seq<char>>> {
    Seq::new(ids.len(), |i: int| seq!["HGETALL"@, key_order(symbol, ids[i])])
}

/// How many ids make a batch: as asked for, and one where none is asked for.
pub open spec fn batch_size(batch: usize) -> nat {
    if batch == 0 {
        1
    } else {
        batch as nat
    }
}

/// The ids cut into batches of `batch` ids each, in order. Ids at the end
/// that do not fill a batch are in none.
pub open spec fn batches(ids: Seq<u64>, batch: usize) -> Seq<Seq<u64>> {
    let b = batch_size(batch) as int;
    Seq::new((ids.len() / b as nat) as nat, |i: int| ids.subrange(i * b, i * b + b))
}

/// Whether a record reads as an order: no field is missing or malformed.
pub open spec fn readable(record: Seq<(String, String)>) -> bool {
    fault(pairs(record)).is_none()
}

/// How many of the first `k` records read as orders.
pub open spec fn kept(records: Seq<Vec<(String, String)>>, k: nat) -> nat
    decreases k,
{
    if k == 0 {
        0
    } else {
        kept(records, (k - 1) as nat) + if k <= records.len() && readable(records[k - 1]@) {
            1nat
        } else {
            0nat
        }
    }
}

/// Where the `i`-th record reads as an order, that order stands in `orders`
/// behind the orders of the readable records before it.
pub open spec fn read_into(records: Seq<Vec<(String, String)>>, orders: Seq<Order>, i: int) -> bool {
    readable(records[i]@) ==> kept(records, i as nat) < orders.len() && orders[kept(
        records,
        i as nat,
    ) as int].written_by(pairs(records[i]@))
}

/// What a trade asks of the persisted orders of its taker and its maker.
#[derive(Debug, Clone)]
pub struct OrderUpdate {
    /// The quantity of the trade.
    pub qty: u64,
    /// The key of the symbol's id index.
    pub oid_key: String,
    pub taker_oid: String,
    pub maker_oid: String,
    pub taker_order_key: String,
    pub maker_order_key: String,
    pub taker_state: OrderState,
    pub maker_state: OrderState,
    /// Whether the taker's record is to be deleted.
    pub del_taker_flag: bool,
    /// Whether the maker's record is to be deleted.
    pub del_maker_flag: bool,
    pub ts: u128,
}

impl OrderUpdate {
    /// Whether `self` is the update that `trade` asks for.
    pub open spec fn describes(self, trade: MatchTrade) -> bool {
        &&& self.qty == trade.qty
        &&& self.oid_key@ == key_id(trade.symbol@)
        &&& self.taker_oid@ == decimal(trade.taker_oid as nat)
        &&& self.maker_oid@ == decimal(trade.maker_oid as nat)
        &&& self.taker_order_key@ == key_order(trade.symbol@, trade.taker_oid)
        &&& self.maker_order_key@ == key_order(trade.symbol@, trade.maker_oid)
        &&& self.taker_state == trade.taker_state
        &&& self.maker_state == trade.maker_state
        &&& self.del_taker_flag == trade.taker_state.deletable()
        &&& self.del_maker_flag == trade.maker_state.deletable()
        &&& self.ts == trade.ts
    }

    /// The update that `trade` asks for: both orders are addressed by their
    /// keys, and an order in a terminal state is marked for deletion.
    pub fn new(trade: &MatchTrade) -> (u: OrderUpdate)
        ensures
            u.describes(*trade),
    {
        OrderUpdate {
            qty: trade.qty,
            oid_key: CacheManager::cache_key_id(trade.symbol.as_str()),
            taker_oid: decimal_string(trade.taker_oid as u128),
            maker_oid: decimal_string(trade.maker_oid as u128),
            taker_order_key: CacheManager::cache_key_order(trade.symbol.as_str(), trade.taker_oid),
            maker_order_key: CacheManager::cache_key_order(trade.symbol.as_str(), trade.maker_oid),
            taker_state: trade.taker_state,
            maker_state: trade.maker_state,
            del_taker_flag: trade.taker_state.del_flag(),
            del_maker_flag: trade.maker_state.del_flag(),
            ts: trade.ts,
        }
    }
}

/// A batch of trades as it is handed to the store: the stream it is
/// appended to, and the order updates that go with it.
#[derive(Debug, Clone)]
pub struct TradeOffer {
    pub trades_key: String,
    pub updates: Vec<OrderUpdate>,
}

/// The layout of the persisted store: the keys under which orders, ids and
/// trades are kept, the commands that read and write them, and the reading
/// of what the store replies.
#[derive(Debug, Clone, Copy)]
pub struct CacheManager {}

impl CacheManager {
    pub fn cache_key_id(symbol: &str) -> (k: String)
        ensures
            k@ == key_id(symbol@),
    {
        let mut k = String::from_str(CACHE_PREFIX);
        k.append(":ID:");
        k.append(symbol);
        k
    }

    pub fn cache_key_order(symbol: &str, id: u64) -> (k: String)
        ensures
            k@ == key_order(symbol@, id),
    {
        let mut k = String::from_str(CACHE_PREFIX);
        k.append(":ORDER:");
        k.append(symbol);
        k.append(":");
        k.append(decimal_string(id as u128).as_str());
        k
    }

    pub fn cache_key_trades(symbol: &str) -> (k: String)
        ensures
            k@ == key_trades(symbol@),
    {
        let mut k = String::from_str(CACHE_PREFIX);
        k.append(":TRADES:");
        k.append(symbol);
        k
    }

    /// The key of the id index of the order's symbol, and the key of the
    /// order's record.
    pub fn cache_key(order_ref: &Order) -> (keys: (String, String))
        ensures
            keys.0@ == key_id(order_ref.symbol@),
            keys.1@ == key_order(order_ref.symbol@, order_ref.id),
    {
        (
            Self::cache_key_id(order_ref.symbol.as_str()),
            Self::cache_key_order(order_ref.symbol.as_str(), order_ref.id),
        )
    }

    /// The commands that admit `order_ref` unless it is stored already.
    pub fn admission_commands(order_ref: &Order) -> (cmds: Vec<Vec<String>>)
        ensures
            cmds.deep_view() == admission(*order_ref),
    {
        let (id_key, order_key) = Self::cache_key(order_ref);
        let fields = order_ref.to_fields();
        assert(pairs(fields@).len() == fields@.len());
        assert(order_ref.record().len() == 12);
        let mut first: Vec<String> = Vec::new();
        first.push(String::from_str("ZADD"));
        first.push(id_key);
        first.push(String::from_str("NX"));
        first.push(decimal_string(order_ref.ts));
        first.push(decimal_string(order_ref.id as u128));
        let mut cmds: Vec<Vec<String>> = Vec::new();
        cmds.push(first);
        assert(cmds.deep_view() =~~= admission(*order_ref).take(1));
        let mut i: usize = 0;
        while i < fields.len()
            invariant
                i <= fields@.len(),
                fields@.len() == 12,
                pairs(fields@) == order_ref.record(),
                order_key@ == key_order(order_ref.symbol@, order_ref.id),
                cmds.deep_view() == admission(*order_ref).take(1 + i),
            decreases fields@.len() - i,
        {
            let mut cmd: Vec<String> = Vec::new();
            cmd.push(String::from_str("HSETNX"));
            cmd.push(order_key.clone());
            cmd.push(fields[i].0.clone());
            cmd.push(fields[i].1.clone());
            assert(pairs(fields@)[i as int] == (fields@[i as int].0@, fields@[i as int].1@));
            let ghost before = cmds.deep_view();
            cmds.push(cmd);
            assert(cmds.deep_view() =~~= before.push(cmd.deep_view()));
            assert(cmds.deep_view() =~~= admission(*order_ref).take(2 + i));
            i += 1;
        }
        assert(admission(*order_ref).take(13) =~~= admission(*order_ref));
        cmds
    }

    /// Whether the replies to an admission say that the order was admitted:
    /// there is one reply for each command and each says that it wrote.
    pub fn admitted(replies: &Vec<i32>) -> (r: bool)
        ensures
            r == (replies@.len() == ADMISSION_REPLIES && forall|i: int|
                0 <= i < replies@.len() ==> replies@[i] == 1),
    {
        if replies.len() != ADMISSION_REPLIES {
            return false;
        }
        let mut i: usize = 0;
        while i < replies.len()
            invariant
                i <= replies@.len(),
                forall|j: int| 0 <= j < i ==> replies@[j] == 1,
            decreases replies@.len() - i,
        {
            if replies[i] != 1 {
                return false;
            }
            i += 1;
        }
        true
    }

    /// The commands that delete `order_ref` from the index and the records.
    pub fn deletion_commands(order_ref: &Order) -> (cmds: Vec<Vec<String>>)
        ensures
            cmds.deep_view() == deletion(*order_ref),
    {
        let (id_key, order_key) = Self::cache_key(order_ref);
        let mut zrem: Vec<String> = Vec::new();
        zrem.push(String::from_str("ZREM"));
        zrem.push(id_key);
        zrem.push(decimal_string(order_ref.id as u128));
        let mut del: Vec<String> = Vec::new();
        del.push(String::from_str("DEL"));
        del.push(order_key);
        let mut cmds: Vec<Vec<String>> = Vec::new();
        cmds.push(zrem);
        cmds.push(del);
        assert(cmds.deep_view() =~~= deletion(*order_ref));
        cmds
    }

    /// The command that lists the ids of `symbol` created up to `now`.
    pub fn scan_command(symbol: &str, now: u128) -> (cmd: Vec<String>)
        ensures
            cmd.deep_view() == scan(symbol@, now),
    {
        let mut cmd: Vec<String> = Vec::new();
        cmd.push(String::from_str("ZRANGEBYSCORE"));
        cmd.push(Self::cache_key_id(symbol));
        cmd.push(String::from_str("0"));
        cmd.push(decimal_string(now));
        assert(cmd.deep_view() =~~= scan(symbol@, now));
        cmd
    }

    /// Reads the ids that a scan lists. The first item that is no id is
    /// reported by its place, and no id is handed out then.
    pub fn read_ids(items: &Vec<String>) -> (r: Result<Vec<u64>, usize>)
        ensures
            match r {
                Ok(ids) => ids@.len() == items@.len() && forall|i: int|
                    0 <= i < items@.len() ==> parsed_number(
                        (#[trigger] items@[i])@,
                        u64::MAX as nat,
                    ) == Some(ids@[i] as nat),
                Err(at) => at < items@.len() && parsed_number(
                    items@[at as int]@,
                    u64::MAX as nat,
                ).is_none() && forall|i: int|
                    0 <= i < at ==> parsed_number((#[trigger] items@[i])@, u64::MAX as nat).is_some(),
            },
    {
        let mut ids: Vec<u64> = Vec::new();
        let mut i: usize = 0;
        while i < items.len()
            invariant
                i <= items@.len(),
                ids@.len() == i,
                forall|j: int|
                    0 <= j < i ==> parsed_number((#[trigger] items@[j])@, u64::MAX as nat) == Some(
                        ids@[j] as nat,
                    ),
            decreases items@.len() - i,
        {
            match parse_u64(items[i].as_str()) {
                Some(id) => {
                    ids.push(id);
                },
                None => {
                    return Err(i);
                },
            }
            i += 1;
        }
        Ok(ids)
    }

    /// Cuts the scanned ids into the batches in which their records are
    /// fetched: a batch is handed out as soon as it is full.
    pub fn full_batches(ids: &Vec<u64>, batch: usize) -> (out: Vec<Vec<u64>>)
        ensures
            out.deep_view() == batches(ids@, batch),
    {
        let size: usize = if batch == 0 {
            1
        } else {
            batch
        };
        let mut out: Vec<Vec<u64>> = Vec::new();
        let mut buffer: Vec<u64> = Vec::new();
        let mut i: usize = 0;
        let ghost b = size as int;
        assert(0 * b == 0) by (nonlinear_arith);
        assert(buffer@ =~= ids@.subrange(0, 0));
        while i < ids.len()
            invariant
                i <= ids@.len(),
                size == batch_size(batch),
                b == size,
                b > 0,
                buffer@.len() < b,
                out@.len() * b + buffer@.len() == i,
                buffer@ == ids@.subrange(out@.len() * b, i as int),
                forall|j: int|
                    0 <= j < out@.len() ==> (#[trigger] out@[j])@ == ids@.subrange(j * b, j * b + b),
            decreases ids@.len() - i,
        {
            let ghost before = buffer@;
            let ghost k = out@.len() as int;
            buffer.push(ids[i]);
            assert(buffer@ =~= ids@.subrange(k * b, i + 1));
            if buffer.len() >= size {
                assert((k + 1) * b == k * b + b) by (nonlinear_arith);
                out.push(buffer);
                buffer = Vec::new();
                assert(buffer@ =~= ids@.subrange((k + 1) * b, i + 1));
            }
            i += 1;
        }
        proof {
            let n = ids@.len() as int;
            let k = out@.len() as int;
            let r = buffer@.len() as int;
            assert(k * b + r == n && 0 <= r < b && b > 0 ==> n / b == k) by (nonlinear_arith);
            assert(out.deep_view() =~~= batches(ids@, batch));
        }
        out
    }

    /// The commands that fetch the records of `ids` of `symbol`.
    pub fn load_commands(symbol: &str, ids: &Vec<u64>) -> (cmds: Vec<Vec<String>>)
        ensures
            cmds.deep_view() == loading(symbol@, ids@),
    {
        let mut cmds: Vec<Vec<String>> = Vec::new();
        let mut i: usize = 0;
        assert(cmds.deep_view() =~~= loading(symbol@, ids@).take(0));
        while i < ids.len()
            invariant
                i <= ids@.len(),
                cmds.deep_view() == loading(symbol@, ids@).take(i as int),
            decreases ids@.len() - i,
        {
            let mut cmd: Vec<String> = Vec::new();
            cmd.push(String::from_str("HGETALL"));
            cmd.push(Self::cache_key_order(symbol, ids[i]));
            let ghost before = cmds.deep_view();
            cmds.push(cmd);
            assert(cmds.deep_view() =~~= before.push(cmd.deep_view()));
            assert(cmds.deep_view() =~~= loading(symbol@, ids@).take(i + 1));
            i += 1;
        }
        assert(loading(symbol@, ids@).take(ids@.len() as int) =~~= loading(symbol@, ids@));
        cmds
    }

    /// Reads the orders out of fetched records. A record that is empty (its
    /// order was deleted meanwhile) or malformed is passed over; the others
    /// come out in the order in which they were fetched.
    pub fn read_orders(records: &Vec<Vec<(String, String)>>) -> (orders: Vec<Order>)
        ensures
            orders@.len() == kept(records@, records@.len()),
            forall|i: int| 0 <= i < records@.len() ==> #[trigger] read_into(records@, orders@, i),
    {
        let mut orders: Vec<Order> = Vec::new();
        let mut i: usize = 0;
        while i < records.len()
            invariant
                i <= records@.len(),
                orders@.len() == kept(records@, i as nat),
                forall|j: int| 0 <= j < i ==> #[trigger] read_into(records@, orders@, j),
            decreases records@.len() - i,
        {
            let ghost before = orders@;
            match Order::from_map(&records[i]) {
                Ok(o) => {
                    orders.push(o);
                },
                Err(_) => {},
            }
            proof {
                assert forall|j: int| 0 <= j < i implies #[trigger] read_into(
                    records@,
                    orders@,
                    j,
                ) by {
                    assert(read_into(records@, before, j));
                }
                assert(read_into(records@, orders@, i as int));
            }
            i += 1;
        }
        orders
    }

    /// What is offered to the store for a batch of trades: nothing for an
    /// empty batch; else the stream of the first trade's symbol and one
    /// update for each trade, in the order of the batch.
    pub fn trade_offer(trades: &Vec<MatchTrade>) -> (r: Option<TradeOffer>)
        ensures
            match r {
                None => trades@.len() == 0,
                Some(offer) => {
                    &&& trades@.len() > 0
                    &&& offer.trades_key@ == key_trades(trades@[0].symbol@)
                    &&& offer.updates@.len() == trades@.len()
                    &&& forall|i: int|
                        0 <= i < trades@.len() ==> (#[trigger] offer.updates@[i]).describes(
                            trades@[i],
                        )
                },
            },
    {
        if trades.len() == 0 {
            return None;
        }
        let mut updates: Vec<OrderUpdate> = Vec::new();
        let mut i: usize = 0;
        while i < trades.len()
            invariant
                i <= trades@.len(),
                updates@.len() == i,
                forall|j: int| 0 <= j < i ==> (#[trigger] updates@[j]).describes(trades@[j]),
            decreases trades@.len() - i,
        {
            updates.push(OrderUpdate::new(&trades[i]));
            i += 1;
        }
        Some(
            TradeOffer {
                trades_key: Self::cache_key_trades(trades[0].symbol.as_str()),
                updates: updates,
            },
        )
    }
}

/// Texts that begin alike and are equal end alike.
pub proof fn lemma_same_front(front: Seq<char>, a: Seq<char>, b: Seq<char>)
    requires
        front + a == front + b,
    ensures
        a == b,
{
    assert((front + a).len() == front.len() + a.len());
    assert((front + b).len() == front.len() + b.len());
    assert(a.len() == b.len());
    assert forall|i: int| 0 <= i < a.len() implies a[i] == b[i] by {
        assert(a[i] == (front + a)[front.len() + i]);
        assert(b[i] == (front + b)[front.len() + i]);
    }
    assert(a =~= b);
}

/// The records of two orders of one symbol are stored under different keys.
pub proof fn lemma_order_keys_differ(symbol: Seq<char>, a: u64, b: u64)
    requires
        a != b,
    ensures
        key_order(symbol, a) != key_order(symbol, b),
{
    let front = CACHE_PREFIX@ + ":ORDER:"@ + symbol + ":"@;
    if key_order(symbol, a) == key_order(symbol, b) {
        lemma_same_front(front, decimal(a as nat), decimal(b as nat));
        lemma_decimal_injective(a as nat, b as nat);
    }
}

} // verus!
