//! Rebuilds the limit order books of a market-by-order feed, batch by batch, and reports
//! what each batch changed: new orders, executions, combination trades, deletions and
//! amendments.

pub mod callback_datatype;
pub mod decode;
pub mod levels;
pub mod messages;
pub mod orderbook;
pub mod parser;
pub mod runtime;
pub mod side;
pub mod text;
pub mod timestamp;
pub mod util;

pub use callback_datatype::{
    CTagWithCorrespondingPTag, Created, ModifiedOrder, ModifyType, OrderDeletion, OrderExecution,
};
pub use messages::{
    AddOrder, CombinationProduct, DeleteOrder, EquilibriumPrice, Executed,
    ExecutionWithPriceInfo, LegPrice, MessageEnum, ProductInfo, SecondTag, SystemEventInfo,
    TickSize, TradingStatusInfo, UniqueId,
};
pub use orderbook::{BookError, BookSide, OrderBook, PriceLevel, PriceLevelView};
pub use parser::{from_raw_file, JPXMBOParseResult, JPXMBOParser};
pub use runtime::{
    batch_notices, order_book_runtime, process_batch, BatchOutput, Notices, BookMap, Fault, OrderBookRunTimeCallback,
    RuntimeStats, TestSpread,
};
pub use side::{FinancialProduct, LegSide, PutOrCall, Side};
pub use timestamp::Timestamp;
pub use util::{
    extract_datetime, extract_datetime_string, extract_value, extract_value_and_parse,
    is_out_of_tick_range, ticks_between_price,
};
