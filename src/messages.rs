use vstd::prelude::*;

use crate::side::{FinancialProduct, PutOrCall, Side};
use crate::timestamp::Timestamp;

verus! {

/// A new order rests on the book (tag `A`). An amended order is reported as a deletion
/// followed by a new order.
#[derive(Debug, Clone, Copy, PartialEq, Eq, Structural, Hash, PartialOrd, Ord)]
pub struct AddOrder {
    pub timestamp: Timestamp,
    pub order_book_id: i64,
    pub order_book_position: i64,
    pub order_id: i64,
    pub price: i64,
    pub quantity: i64,
    pub side: Side,
}

/// An execution that carries its price (tag `C`): combination trades and trades at a cross.
#[derive(Debug, Clone, Copy, PartialEq, Eq, Structural, Hash, PartialOrd, Ord)]
pub struct ExecutionWithPriceInfo {
    pub timestamp: Timestamp,
    pub combo_group_id: i64,
    pub executed_quantity: i64,
    pub match_id: i64,
    /// `Y` in the feed: the trade happened at a cross (an auction) rather than in
    /// continuous trading.
    pub occurred_at_cross: bool,
    pub order_book_id: i64,
    pub order_id: i64,
    pub side: Side,
    pub trade_price: i64,
}

/// A resting order left the book (tag `D`).
#[derive(Debug, Clone, Copy, PartialEq, Eq, Structural, Hash, PartialOrd, Ord)]
pub struct DeleteOrder {
    pub timestamp: Timestamp,
    pub order_book_id: i64,
    pub order_id: i64,
    pub side: Side,
}

/// A resting order was executed in part or in full (tag `E`).
#[derive(Debug, Clone, PartialEq, Eq, Hash, PartialOrd, Ord)]
pub struct Executed {
    pub timestamp: Timestamp,
    pub combo_group_id: i64,
    pub executed_quantity: i64,
    pub match_id: String,
    pub order_book_id: i64,
    pub order_id: i64,
    pub side: Side,
}

/// `a` and `b` hold the same execution.
pub open spec fn same_executed(a: Executed, b: Executed) -> bool {
    &&& a.timestamp == b.timestamp
    &&& a.combo_group_id == b.combo_group_id
    &&& a.executed_quantity == b.executed_quantity
    &&& a.match_id@ == b.match_id@
    &&& a.order_book_id == b.order_book_id
    &&& a.order_id == b.order_id
    &&& a.side == b.side
}

impl Executed {
    /// A copy of the execution.
    pub fn duplicate(&self) -> (r: Executed)
        ensures
            same_executed(r, *self),
    {
        Executed {
            timestamp: self.timestamp,
            combo_group_id: self.combo_group_id,
            executed_quantity: self.executed_quantity,
            match_id: self.match_id.clone(),
            order_book_id: self.order_book_id,
            order_id: self.order_id,
            side: self.side,
        }
    }
}

/// One band of the tick table of an instrument (tag `L`): prices in
/// `price_from..price_to` move in steps of `tick_size`.
#[derive(Debug, Clone, Copy, PartialEq, Eq, Structural, Hash, PartialOrd, Ord)]
pub struct TickSize {
    pub timestamp: Timestamp,
    pub order_book_id: i64,
    pub price_from: i64,
    pub price_to: i64,
    pub tick_size: i64,
}

/// One leg of a combination product (tag `M`).
#[derive(Debug, Clone, Copy, PartialEq, Eq, Structural, Hash, PartialOrd, Ord)]
pub struct CombinationProduct {
    pub timestamp: Timestamp,
    pub combination_order_book_id: i64,
    pub leg_order_book_id: i64,
    pub leg_ratio: i64,
    pub leg_side: Side,
}

/// A change of the trading state of an instrument (tag `O`).
#[derive(Debug, Clone, PartialEq, Eq, Hash, PartialOrd, Ord)]
pub struct TradingStatusInfo {
    pub timestamp: Timestamp,
    pub order_book_id: i64,
    pub state_name: String,
}

/// `a` and `b` hold the same change of trading state.
pub open spec fn same_status(a: TradingStatusInfo, b: TradingStatusInfo) -> bool {
    &&& a.timestamp == b.timestamp
    &&& a.order_book_id == b.order_book_id
    &&& a.state_name@ == b.state_name@
}

impl TradingStatusInfo {
    /// A copy of the change of trading state.
    pub fn duplicate(&self) -> (r: TradingStatusInfo)
        ensures
            same_status(r, *self),
    {
        TradingStatusInfo {
            timestamp: self.timestamp,
            order_book_id: self.order_book_id,
            state_name: self.state_name.clone(),
        }
    }
}

/// The price of one leg of a combination trade (tag `P`).
#[derive(Debug, Clone, Copy, PartialEq, Eq, Structural, Hash, PartialOrd, Ord)]
pub struct LegPrice {
    pub timestamp: Timestamp,
    pub combo_group_id: i64,
    pub match_id: i64,
    pub occurred_at_cross: bool,
    pub order_book_id: i64,
    pub quantity: i64,
    pub trade_price: i64,
}

/// The description of an instrument (tag `R`); its first appearance creates the book.
#[derive(Debug, Clone, PartialEq, Eq, Hash, PartialOrd, Ord)]
pub struct ProductInfo {
    pub timestamp: Timestamp,
    pub expiration_date: i64,
    pub financial_product: FinancialProduct,
    pub long_name: String,
    pub number_of_decimal_in_price: i64,
    pub number_of_decimals_in_strike_price: i64,
    pub number_of_legs: i64,
    pub order_book_id: i64,
    pub put_or_call: PutOrCall,
    pub strike_price: i64,
    pub symbol: String,
    pub underlying_order_book_id: i64,
}

/// Two descriptions name the same instrument: every field but the timestamp agrees.
pub open spec fn same_product(a: ProductInfo, b: ProductInfo) -> bool {
    &&& a.expiration_date == b.expiration_date
    &&& a.financial_product == b.financial_product
    &&& a.long_name@ == b.long_name@
    &&& a.number_of_decimal_in_price == b.number_of_decimal_in_price
    &&& a.number_of_decimals_in_strike_price == b.number_of_decimals_in_strike_price
    &&& a.number_of_legs == b.number_of_legs
    &&& a.order_book_id == b.order_book_id
    &&& a.put_or_call == b.put_or_call
    &&& a.strike_price == b.strike_price
    &&& a.symbol@ == b.symbol@
    &&& a.underlying_order_book_id == b.underlying_order_book_id
}

impl ProductInfo {
    /// Whether `self` and `other` describe the same instrument, timestamps aside.
    pub fn same_product(&self, other: &ProductInfo) -> (r: bool)
        ensures
            r == same_product(*self, *other),
    {
        self.expiration_date == other.expiration_date && self.financial_product
            == other.financial_product && self.long_name == other.long_name
            && self.number_of_decimal_in_price == other.number_of_decimal_in_price
            && self.number_of_decimals_in_strike_price == other.number_of_decimals_in_strike_price
            && self.number_of_legs == other.number_of_legs && self.order_book_id
            == other.order_book_id && self.put_or_call == other.put_or_call && self.strike_price
            == other.strike_price && self.symbol == other.symbol && self.underlying_order_book_id
            == other.underlying_order_book_id
    }
}

/// A system event (tag `S`): `O` opens the day's messages, `C` closes them.
#[derive(Debug, Clone, PartialEq, Eq, Hash, PartialOrd, Ord)]
pub struct SystemEventInfo {
    pub timestamp: Timestamp,
    pub event_code: String,
}

/// The second in which the following messages were sent (tag `T`).
#[derive(Debug, Clone, Copy, PartialEq, Eq, Structural, Hash, PartialOrd, Ord)]
pub struct SecondTag {
    pub timestamp: Timestamp,
    pub second: i64,
}

/// The equilibrium price while orders are being collected (tag `Z`).
#[derive(Debug, Clone, Copy, PartialEq, Eq, Structural, Hash, PartialOrd, Ord)]
pub struct EquilibriumPrice {
    pub timestamp: Timestamp,
    pub ask_qty_at_ep: i64,
    pub bid_qty_at_ep: i64,
    pub ep: i64,
    pub order_book_id: i64,
}

/// One decoded feed record.
#[derive(Debug, Clone, PartialEq, Eq, Hash, PartialOrd, Ord)]
pub enum MessageEnum {
    CombinationProduct(CombinationProduct),
    DeleteOrder(DeleteOrder),
    EquilibriumPrice(EquilibriumPrice),
    Executed(Executed),
    ExecutionWithPriceInfo(ExecutionWithPriceInfo),
    LegPrice(LegPrice),
    ProductInfo(ProductInfo),
    AddOrder(AddOrder),
    SecondTag(SecondTag),
    SystemEventInfo(SystemEventInfo),
    TickSize(TickSize),
    TradingStatusInfo(TradingStatusInfo),
}

impl MessageEnum {
    pub open spec fn spec_timestamp(&self) -> Timestamp {
        match self {
            MessageEnum::CombinationProduct(m) => m.timestamp,
            MessageEnum::DeleteOrder(m) => m.timestamp,
            MessageEnum::EquilibriumPrice(m) => m.timestamp,
            MessageEnum::Executed(m) => m.timestamp,
            MessageEnum::ExecutionWithPriceInfo(m) => m.timestamp,
            MessageEnum::LegPrice(m) => m.timestamp,
            MessageEnum::ProductInfo(m) => m.timestamp,
            MessageEnum::AddOrder(m) => m.timestamp,
            MessageEnum::SecondTag(m) => m.timestamp,
            MessageEnum::SystemEventInfo(m) => m.timestamp,
            MessageEnum::TickSize(m) => m.timestamp,
            MessageEnum::TradingStatusInfo(m) => m.timestamp,
        }
    }

    /// When the record was sent.
    pub fn timestamp(&self) -> (r: Timestamp)
        ensures
            r == self.spec_timestamp(),
    {
        match self {
            MessageEnum::CombinationProduct(m) => m.timestamp,
            MessageEnum::DeleteOrder(m) => m.timestamp,
            MessageEnum::EquilibriumPrice(m) => m.timestamp,
            MessageEnum::Executed(m) => m.timestamp,
            MessageEnum::ExecutionWithPriceInfo(m) => m.timestamp,
            MessageEnum::LegPrice(m) => m.timestamp,
            MessageEnum::ProductInfo(m) => m.timestamp,
            MessageEnum::AddOrder(m) => m.timestamp,
            MessageEnum::SecondTag(m) => m.timestamp,
            MessageEnum::SystemEventInfo(m) => m.timestamp,
            MessageEnum::TickSize(m) => m.timestamp,
            MessageEnum::TradingStatusInfo(m) => m.timestamp,
        }
    }

    pub open spec fn spec_tag(&self) -> char {
        match self {
            MessageEnum::CombinationProduct(_) => 'M',
            MessageEnum::DeleteOrder(_) => 'D',
            MessageEnum::EquilibriumPrice(_) => 'Z',
            MessageEnum::Executed(_) => 'E',
            MessageEnum::ExecutionWithPriceInfo(_) => 'C',
            MessageEnum::LegPrice(_) => 'P',
            MessageEnum::ProductInfo(_) => 'R',
            MessageEnum::AddOrder(_) => 'A',
            MessageEnum::SecondTag(_) => 'T',
            MessageEnum::SystemEventInfo(_) => 'S',
            MessageEnum::TickSize(_) => 'L',
            MessageEnum::TradingStatusInfo(_) => 'O',
        }
    }

    /// The feed's tag letter for this kind of record.
    pub fn tag(&self) -> (r: char)
        ensures
            r == self.spec_tag(),
    {
        match self {
            MessageEnum::CombinationProduct(_) => 'M',
            MessageEnum::DeleteOrder(_) => 'D',
            MessageEnum::EquilibriumPrice(_) => 'Z',
            MessageEnum::Executed(_) => 'E',
            MessageEnum::ExecutionWithPriceInfo(_) => 'C',
            MessageEnum::LegPrice(_) => 'P',
            MessageEnum::ProductInfo(_) => 'R',
            MessageEnum::AddOrder(_) => 'A',
            MessageEnum::SecondTag(_) => 'T',
            MessageEnum::SystemEventInfo(_) => 'S',
            MessageEnum::TickSize(_) => 'L',
            MessageEnum::TradingStatusInfo(_) => 'O',
        }
    }
}

/// Identifies a resting order: an order id may be used on both sides of one book.
#[derive(Debug, Clone, Copy, PartialEq, Eq, Structural, Hash, PartialOrd, Ord)]
pub struct UniqueId {
    pub order_book_id: i64,
    pub order_id: i64,
    pub side: Side,
}

impl UniqueId {
    pub fn from_add_order(put: &AddOrder) -> (r: UniqueId)
        ensures
            r == (UniqueId {
                order_book_id: put.order_book_id,
                order_id: put.order_id,
                side: put.side,
            }),
    {
        UniqueId { order_book_id: put.order_book_id, order_id: put.order_id, side: put.side }
    }

    pub fn from_delete_order(del: &DeleteOrder) -> (r: UniqueId)
        ensures
            r == (UniqueId {
                order_book_id: del.order_book_id,
                order_id: del.order_id,
                side: del.side,
            }),
    {
        UniqueId { order_book_id: del.order_book_id, order_id: del.order_id, side: del.side }
    }
}

} // verus!
