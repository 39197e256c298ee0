use crate::order::same_text;
use crate::order::Order;
use crate::order::OrderAction;
use crate::order::OrderState;
use crate::order::OrderTimeInForce;
use crate::order::OrderType;
use crate::order::TradeSide;
use crate::price::Price;
use crate::text::decimal;
use crate::text::decimal_string;
use crate::text::lemma_parse_inverts_decimal;
use crate::text::parse_number;
use crate::text::parsed_number;
use vstd::prelude::*;
use vstd::string::StringExecFns;

verus! {

/// The fields of a persisted order, in the order in which they are written.
#[derive(Clone, Copy, Debug, PartialEq, Eq, Structural)]
pub enum Field {
    Id,
    Symbol,
    Side,
    Qty,
    Price,
    AccFillQty,
    OrdType,
    Ts,
    UpdateTs,
    State,
    Tif,
    Action,
}

impl Field {
    /// The name under which the field is stored.
    pub open spec fn name(self) -> Seq<char> {
        match self {
            Field::Id => "id"@,
            Field::Symbol => "symbol"@,
            Field::Side => "side"@,
            Field::Qty => "qty"@,
            Field::Price => "price"@,
            Field::AccFillQty => "acc_fill_qty"@,
            Field::OrdType => "ord_type"@,
            Field::Ts => "ts"@,
            Field::UpdateTs => "update_ts"@,
            Field::State => "state"@,
            Field::Tif => "tif"@,
            Field::Action => "action"@,
        }
    }

    pub fn as_str(&self) -> (s: &'static str)
        ensures
            s@ == self.name(),
    {
        match self {
            Field::Id => "id",
            Field::Symbol => "symbol",
            Field::Side => "side",
            Field::Qty => "qty",
            Field::Price => "price",
            Field::AccFillQty => "acc_fill_qty",
            Field::OrdType => "ord_type",
            Field::Ts => "ts",
            Field::UpdateTs => "update_ts",
            Field::State => "state",
            Field::Tif => "tif",
            Field::Action => "action",
        }
    }
}

/// Why a stored record gives no order.
#[derive(Clone, Copy, Debug, PartialEq, Eq, Structural)]
pub enum RecordError {
    /// The record has no such field.
    Missing(Field),
    /// The field holds a text that its type does not read.
    Malformed(Field),
}

/// A record as plain texts: each field's name with its value.
pub open spec fn pairs(fields: Seq<(String, String)>) -> Seq<(Seq<char>, Seq<char>)> {
    Seq::new(fields.len(), |i: int| (fields[i].0@, fields[i].1@))
}

/// The value of the first field called `name` at or behind place `k`.
pub open spec fn value_from(fields: Seq<(Seq<char>, Seq<char>)>, name: Seq<char>, k: nat) -> Option<
    Seq<char>,
>
    decreases fields.len() - k,
{
    if k >= fields.len() {
        None
    } else if fields[k as int].0 == name {
        Some(fields[k as int].1)
    } else {
        value_from(fields, name, k + 1)
    }
}

/// The value that the record holds for `field`, if it has the field.
pub open spec fn value_of(fields: Seq<(Seq<char>, Seq<char>)>, field: Field) -> Option<Seq<char>> {
    value_from(fields, field.name(), 0)
}

/// The number that the record holds for `field`, no larger than `max`.
pub open spec fn number_at(fields: Seq<(Seq<char>, Seq<char>)>, field: Field, max: nat) -> Result<
    nat,
    RecordError,
> {
    match value_of(fields, field) {
        None => Err(RecordError::Missing(field)),
        Some(t) => match parsed_number(t, max) {
            Some(n) => Ok(n),
            None => Err(RecordError::Malformed(field)),
        },
    }
}

/// What reading `field` as a variant name, a price or a text gives, where
/// `read` tells whether the value is one that the field's type reads.
pub open spec fn named_at(
    fields: Seq<(Seq<char>, Seq<char>)>,
    field: Field,
    read: spec_fn(Seq<char>) -> bool,
) -> Option<RecordError> {
    match value_of(fields, field) {
        None => Some(RecordError::Missing(field)),
        Some(t) => if read(t) {
            None
        } else {
            Some(RecordError::Malformed(field))
        },
    }
}

/// What is wrong with `field` of the record, if anything, where `price` is
/// the price that the text of the price field reads as.
pub open spec fn fault_at(
    fields: Seq<(Seq<char>, Seq<char>)>,
    field: Field,
    price: Option<Price>,
) -> Option<RecordError> {
    match field {
        Field::Id | Field::Qty | Field::AccFillQty => match number_at(fields, field, u64::MAX as nat) {
            Ok(_) => None,
            Err(e) => Some(e),
        },
        Field::Ts | Field::UpdateTs => match number_at(fields, field, u128::MAX as nat) {
            Ok(_) => None,
            Err(e) => Some(e),
        },
        Field::Symbol => named_at(fields, field, |t: Seq<char>| true),
        Field::Side => named_at(fields, field, |t: Seq<char>| TradeSide::named(t).is_some()),
        Field::Price => named_at(fields, field, |t: Seq<char>| price.is_some()),
        Field::OrdType => named_at(fields, field, |t: Seq<char>| OrderType::named(t).is_some()),
        Field::State => named_at(fields, field, |t: Seq<char>| OrderState::named(t).is_some()),
        Field::Tif => named_at(fields, field, |t: Seq<char>| OrderTimeInForce::named(t).is_some()),
        Field::Action => named_at(fields, field, |t: Seq<char>| OrderAction::named(t).is_some()),
    }
}

/// The price that the price field of the record reads as; none where the
/// record has no such field or its text is no decimal.
pub open spec fn price_of(fields: Seq<(Seq<char>, Seq<char>)>) -> Option<Price> {
    match value_of(fields, Field::Price) {
        Some(t) => Price::read(t),
        None => None,
    }
}

/// The fields in the order in which a record is read.
pub open spec fn reading_order() -> Seq<Field> {
    seq![
        Field::Id,
        Field::Symbol,
        Field::Side,
        Field::Qty,
        Field::Price,
        Field::AccFillQty,
        Field::OrdType,
        Field::Ts,
        Field::UpdateTs,
        Field::State,
        Field::Tif,
        Field::Action,
    ]
}

/// The first fault of the record at or behind place `k` of the reading
/// order, where `price` is what the price field reads as.
pub open spec fn fault_from(
    fields: Seq<(Seq<char>, Seq<char>)>,
    price: Option<Price>,
    k: nat,
) -> Option<RecordError>
    decreases reading_order().len() - k,
{
    if k >= reading_order().len() {
        None
    } else {
        match fault_at(fields, reading_order()[k as int], price) {
            Some(e) => Some(e),
            None => fault_from(fields, price, k + 1),
        }
    }
}

/// The first field, in reading order, that is missing or malformed, where
/// `price` is what the price field reads as.
pub open spec fn fault_with(fields: Seq<(Seq<char>, Seq<char>)>, price: Option<Price>) -> Option<
    RecordError,
> {
    fault_from(fields, price, 0)
}

/// The first field, in reading order, that is missing or malformed.
pub open spec fn fault(fields: Seq<(Seq<char>, Seq<char>)>) -> Option<RecordError> {
    fault_with(fields, price_of(fields))
}

impl Order {
    /// Whether the order is the one that the record writes, field by field.
    pub open spec fn written_by(self, fields: Seq<(Seq<char>, Seq<char>)>) -> bool {
        self.written_with(fields, price_of(fields))
    }

    /// Whether the order is the one that the record writes, field by field,
    /// where `price` is what the price field reads as.
    pub open spec fn written_with(self, fields: Seq<(Seq<char>, Seq<char>)>, price: Option<
        Price,
    >) -> bool {
        &&& number_at(fields, Field::Id, u64::MAX as nat) == Ok::<nat, RecordError>(self.id as nat)
        &&& value_of(fields, Field::Symbol) == Some(self.symbol@)
        &&& value_of(fields, Field::Side).is_some() && TradeSide::named(
            value_of(fields, Field::Side).unwrap(),
        ) == Some(self.side)
        &&& number_at(fields, Field::Qty, u64::MAX as nat) == Ok::<nat, RecordError>(self.qty as nat)
        &&& value_of(fields, Field::Price).is_some() && price == Some(self.price)
        &&& number_at(fields, Field::AccFillQty, u64::MAX as nat) == Ok::<nat, RecordError>(
            self.acc_fill_qty as nat,
        )
        &&& value_of(fields, Field::OrdType).is_some() && OrderType::named(
            value_of(fields, Field::OrdType).unwrap(),
        ) == Some(self.ord_type)
        &&& number_at(fields, Field::Ts, u128::MAX as nat) == Ok::<nat, RecordError>(self.ts as nat)
        &&& number_at(fields, Field::UpdateTs, u128::MAX as nat) == Ok::<nat, RecordError>(
            self.update_ts as nat,
        )
        &&& value_of(fields, Field::State).is_some() && OrderState::named(
            value_of(fields, Field::State).unwrap(),
        ) == Some(self.state)
        &&& value_of(fields, Field::Tif).is_some() && OrderTimeInForce::named(
            value_of(fields, Field::Tif).unwrap(),
        ) == Some(self.tif)
        &&& value_of(fields, Field::Action).is_some() && OrderAction::named(
            value_of(fields, Field::Action).unwrap(),
        ) == Some(self.action)
    }

    /// The record that stores the order: its twelve fields in writing order,
    /// numbers as decimal numerals, the others by their names.
    pub open spec fn record(self) -> Seq<(Seq<char>, Seq<char>)> {
        self.record_with(self.price.text())
    }

    /// The record that stores the order, with `price` as the text of its
    /// price.
    pub open spec fn record_with(self, price: Seq<char>) -> Seq<(Seq<char>, Seq<char>)> {
        seq![
            (Field::Id.name(), decimal(self.id as nat)),
            (Field::Symbol.name(), self.symbol@),
            (Field::Side.name(), self.side.text()),
            (Field::Qty.name(), decimal(self.qty as nat)),
            (Field::Price.name(), price),
            (Field::AccFillQty.name(), decimal(self.acc_fill_qty as nat)),
            (Field::OrdType.name(), self.ord_type.text()),
            (Field::Ts.name(), decimal(self.ts as nat)),
            (Field::UpdateTs.name(), decimal(self.update_ts as nat)),
            (Field::State.name(), self.state.text()),
            (Field::Tif.name(), self.tif.text()),
            (Field::Action.name(), self.action.text()),
        ]
    }
}

/// Looks `field` up in the record.
fn find<'a>(map: &'a Vec<(String, String)>, field: Field) -> (r: Result<&'a String, RecordError>)
    ensures
        match r {
            Ok(v) => value_of(pairs(map@), field) == Some(v@),
            Err(e) => value_of(pairs(map@), field).is_none() && e == RecordError::Missing(field),
        },
{
    let name = field.as_str();
    let mut i: usize = 0;
    while i < map.len()
        invariant
            i <= map@.len(),
            name@ == field.name(),
            value_of(pairs(map@), field) == value_from(pairs(map@), field.name(), i as nat),
        decreases map@.len() - i,
    {
        assert(pairs(map@)[i as int] == (map@[i as int].0@, map@[i as int].1@));
        if same_text(map[i].0.as_str(), name) {
            return Ok(&map[i].1);
        }
        i += 1;
    }
    Err(RecordError::Missing(field))
}

/// Reads the number that the record holds for `field`.
fn number(map: &Vec<(String, String)>, field: Field, max: u128) -> (r: Result<u128, RecordError>)
    ensures
        match r {
            Ok(n) => number_at(pairs(map@), field, max as nat) == Ok::<nat, RecordError>(n as nat),
            Err(e) => number_at(pairs(map@), field, max as nat) == Err::<nat, RecordError>(e),
        },
{
    match find(map, field) {
        Ok(t) => match parse_number(t.as_str(), max) {
            Some(n) => Ok(n),
            None => Err(RecordError::Malformed(field)),
        },
        Err(e) => Err(e),
    }
}

impl Order {
    /// Reads an order from a stored record. The fields are read in writing
    /// order, and the first one that is missing or malformed is reported.
    pub fn from_map(map: &Vec<(String, String)>) -> (r: Result<Order, RecordError>)
        ensures
            match r {
                Ok(o) => fault(pairs(map@)).is_none() && o.written_by(pairs(map@)),
                Err(e) => fault(pairs(map@)) == Some(e),
            },
    {
        let price = match find(map, Field::Price) {
            Ok(t) => Price::from_str(t.as_str()),
            Err(_) => None,
        };
        Self::from_map_priced(map, price)
    }

    /// Reads an order from a stored record whose price field reads as
    /// `price`. The fields are read in writing order, and the first one that
    /// is missing or malformed is reported.
    pub fn from_map_priced(map: &Vec<(String, String)>, price: Option<Price>) -> (r: Result<
        Order,
        RecordError,
    >)
        ensures
            match r {
                Ok(o) => fault_with(pairs(map@), price).is_none() && o.written_with(
                    pairs(map@),
                    price,
                ),
                Err(e) => fault_with(pairs(map@), price) == Some(e),
            },
    {
        proof {
            reveal_with_fuel(fault_from, 13);
        }
        let id = match number(map, Field::Id, u64::MAX as u128) {
            Ok(n) => n as u64,
            Err(e) => {
                return Err(e);
            },
        };
        let symbol = match find(map, Field::Symbol) {
            Ok(t) => t.clone(),
            Err(e) => {
                return Err(e);
            },
        };
        let side = match find(map, Field::Side) {
            Ok(t) => match TradeSide::from_str(t.as_str()) {
                Ok(v) => v,
                Err(_) => {
                    return Err(RecordError::Malformed(Field::Side));
                },
            },
            Err(e) => {
                return Err(e);
            },
        };
        let qty = match number(map, Field::Qty, u64::MAX as u128) {
            Ok(n) => n as u64,
            Err(e) => {
                return Err(e);
            },
        };
        let price = match find(map, Field::Price) {
            Ok(_) => match price {
                Some(v) => v,
                None => {
                    return Err(RecordError::Malformed(Field::Price));
                },
            },
            Err(e) => {
                return Err(e);
            },
        };
        let acc_fill_qty = match number(map, Field::AccFillQty, u64::MAX as u128) {
            Ok(n) => n as u64,
            Err(e) => {
                return Err(e);
            },
        };
        let ord_type = match find(map, Field::OrdType) {
            Ok(t) => match OrderType::from_str(t.as_str()) {
                Ok(v) => v,
                Err(_) => {
                    return Err(RecordError::Malformed(Field::OrdType));
                },
            },
            Err(e) => {
                return Err(e);
            },
        };
        let ts = match number(map, Field::Ts, u128::MAX) {
            Ok(n) => n,
            Err(e) => {
                return Err(e);
            },
        };
        let update_ts = match number(map, Field::UpdateTs, u128::MAX) {
            Ok(n) => n,
            Err(e) => {
                return Err(e);
            },
        };
        let state = match find(map, Field::State) {
            Ok(t) => match OrderState::from_str(t.as_str()) {
                Ok(v) => v,
                Err(_) => {
                    return Err(RecordError::Malformed(Field::State));
                },
            },
            Err(e) => {
                return Err(e);
            },
        };
        let tif = match find(map, Field::Tif) {
            Ok(t) => match OrderTimeInForce::from_str(t.as_str()) {
                Ok(v) => v,
                Err(_) => {
                    return Err(RecordError::Malformed(Field::Tif));
                },
            },
            Err(e) => {
                return Err(e);
            },
        };
        let action = match find(map, Field::Action) {
            Ok(t) => match OrderAction::from_str(t.as_str()) {
                Ok(v) => v,
                Err(_) => {
                    return Err(RecordError::Malformed(Field::Action));
                },
            },
            Err(e) => {
                return Err(e);
            },
        };
        Ok(
            Order {
                id,
                symbol,
                side,
                qty,
                price,
                acc_fill_qty,
                ord_type,
                ts,
                update_ts,
                state,
                tif,
                action,
            },
        )
    }

    /// Writes the order as a record of twelve fields.
    pub fn to_fields(&self) -> (fields: Vec<(String, String)>)
        ensures
            pairs(fields@) == self.record(),
    {
        self.to_fields_with(self.price.to_string())
    }

    /// Writes the order as a record of twelve fields, with `price` as the
    /// text of its price.
    pub fn to_fields_with(&self, price: String) -> (fields: Vec<(String, String)>)
        ensures
            pairs(fields@) == self.record_with(price@),
    {
        let mut fields: Vec<(String, String)> = Vec::new();
        fields.push((String::from_str(Field::Id.as_str()), decimal_string(self.id as u128)));
        fields.push((String::from_str(Field::Symbol.as_str()), self.symbol.clone()));
        fields.push((String::from_str(Field::Side.as_str()), self.side.to_string()));
        fields.push((String::from_str(Field::Qty.as_str()), decimal_string(self.qty as u128)));
        fields.push((String::from_str(Field::Price.as_str()), price));
        fields.push(
            (
                String::from_str(Field::AccFillQty.as_str()),
                decimal_string(self.acc_fill_qty as u128),
            ),
        );
        fields.push((String::from_str(Field::OrdType.as_str()), self.ord_type.to_string()));
        fields.push((String::from_str(Field::Ts.as_str()), decimal_string(self.ts)));
        fields.push((String::from_str(Field::UpdateTs.as_str()), decimal_string(self.update_ts)));
        fields.push((String::from_str(Field::State.as_str()), self.state.to_string()));
        fields.push((String::from_str(Field::Tif.as_str()), self.tif.to_string()));
        fields.push((String::from_str(Field::Action.as_str()), self.action.to_string()));
        assert(pairs(fields@) =~= self.record_with(price@));
        fields
    }
}

/// No two fields are stored under the same name.
pub proof fn lemma_field_names_differ(a: Field, b: Field)
    requires
        a != b,
    ensures
        a.name() != b.name(),
{
    reveal_strlit("id");
    reveal_strlit("symbol");
    reveal_strlit("side");
    reveal_strlit("qty");
    reveal_strlit("price");
    reveal_strlit("acc_fill_qty");
    reveal_strlit("ord_type");
    reveal_strlit("ts");
    reveal_strlit("update_ts");
    reveal_strlit("state");
    reveal_strlit("tif");
    reveal_strlit("action");
    assert("id"@.len() == 2);
    assert("symbol"@.len() == 6);
    assert("side"@.len() == 4);
    assert("qty"@.len() == 3);
    assert("price"@.len() == 5);
    assert("acc_fill_qty"@.len() == 12);
    assert("ord_type"@.len() == 8);
    assert("ts"@.len() == 2);
    assert("update_ts"@.len() == 9);
    assert("state"@.len() == 5);
    assert("tif"@.len() == 3);
    assert("action"@.len() == 6);
    assert("id"@[0] != "ts"@[0]);
    assert("symbol"@[0] != "action"@[0]);
    assert("qty"@[0] != "tif"@[0]);
    assert("price"@[0] != "state"@[0]);
}

/// The text that a written record holds for `field`.
pub open spec fn written_value(o: Order, field: Field) -> Seq<char> {
    match field {
        Field::Id => decimal(o.id as nat),
        Field::Symbol => o.symbol@,
        Field::Side => o.side.text(),
        Field::Qty => decimal(o.qty as nat),
        Field::Price => o.price.text(),
        Field::AccFillQty => decimal(o.acc_fill_qty as nat),
        Field::OrdType => o.ord_type.text(),
        Field::Ts => decimal(o.ts as nat),
        Field::UpdateTs => decimal(o.update_ts as nat),
        Field::State => o.state.text(),
        Field::Tif => o.tif.text(),
        Field::Action => o.action.text(),
    }
}

/// A written record holds every field, each with the text of its value.
pub proof fn lemma_record_holds(o: Order, field: Field)
    ensures
        value_of(o.record(), field) == Some(written_value(o, field)),
{
    reveal_with_fuel(value_from, 13);
    assert forall|a: Field, b: Field| a != b implies #[trigger] a.name() != #[trigger] b.name() by {
        lemma_field_names_differ(a, b);
    }
}

/// Reading back what was written: a record written for an order has no
/// fault as soon as the price's own text reads as a price, and an order read
/// from it has the same id, symbol, side, quantities, times, type, state,
/// policy and action, and the price that the text of the written price
/// reads as.
pub proof fn lemma_record_reads_back(o: Order, back: Order)
    requires
        back.written_by(o.record()),
    ensures
        Price::read(o.price.text()).is_some() ==> fault(o.record()).is_none(),
        back.id == o.id,
        back.symbol@ == o.symbol@,
        back.side == o.side,
        back.qty == o.qty,
        Price::read(o.price.text()) == Some(back.price),
        back.acc_fill_qty == o.acc_fill_qty,
        back.ord_type == o.ord_type,
        back.ts == o.ts,
        back.update_ts == o.update_ts,
        back.state == o.state,
        back.tif == o.tif,
        back.action == o.action,
{
    lemma_record_holds(o, Field::Id);
    lemma_record_holds(o, Field::Symbol);
    lemma_record_holds(o, Field::Side);
    lemma_record_holds(o, Field::Qty);
    lemma_record_holds(o, Field::Price);
    lemma_record_holds(o, Field::AccFillQty);
    lemma_record_holds(o, Field::OrdType);
    lemma_record_holds(o, Field::Ts);
    lemma_record_holds(o, Field::UpdateTs);
    lemma_record_holds(o, Field::State);
    lemma_record_holds(o, Field::Tif);
    lemma_record_holds(o, Field::Action);
    lemma_parse_inverts_decimal(o.id as nat, u64::MAX as nat);
    lemma_parse_inverts_decimal(o.qty as nat, u64::MAX as nat);
    lemma_parse_inverts_decimal(o.acc_fill_qty as nat, u64::MAX as nat);
    lemma_parse_inverts_decimal(o.ts as nat, u128::MAX as nat);
    lemma_parse_inverts_decimal(o.update_ts as nat, u128::MAX as nat);
    TradeSide::lemma_named_text(o.side);
    OrderType::lemma_named_text(o.ord_type);
    OrderState::lemma_named_text(o.state);
    OrderTimeInForce::lemma_named_text(o.tif);
    OrderAction::lemma_named_text(o.action);
    reveal_with_fuel(fault_from, 13);
}

} // verus!
