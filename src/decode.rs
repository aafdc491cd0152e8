use vstd::prelude::*;

use crate::messages::{
    AddOrder, CombinationProduct, DeleteOrder, EquilibriumPrice, Executed, ExecutionWithPriceInfo,
    LegPrice, MessageEnum, ProductInfo, SecondTag, SystemEventInfo, TickSize, TradingStatusInfo,
};
use crate::side::{
    financial_product_of_code, put_or_call_of_code, side_of_code, FinancialProduct, PutOrCall,
    Side,
};
use crate::text::{bounds_field, chars_of, decimal_in, decimal_of, split_ranges, split_spec};
use crate::timestamp::{second_in_range, Timestamp};
use crate::util::{
    datetime_field, extract_datetime, extract_value_and_parse, int_or_paren,
};

verus! {

/// Field `k` of a comma-separated record; field 0 holds the tag.
pub open spec fn field_of(s: Seq<char>, k: int) -> Option<Seq<char>> {
    let f = split_spec(s, ',');
    if 0 <= k < f.len() {
        Some(f[k])
    } else {
        None
    }
}

/// Field `k` read as a plain integer.
pub open spec fn int_field(s: Seq<char>, k: int) -> Option<int> {
    match field_of(s, k) {
        Some(f) => decimal_of(f),
        None => None,
    }
}

/// Field `k` read as an integer, plainly or between parentheses (`NAME(42)`).
pub open spec fn id_field(s: Seq<char>, k: int) -> Option<int> {
    match field_of(s, k) {
        Some(f) => int_or_paren(f),
        None => None,
    }
}

/// Field `k` read as a feed date-time.
pub open spec fn time_field(s: Seq<char>, k: int) -> Option<Timestamp> {
    match field_of(s, k) {
        Some(f) => datetime_field(f),
        None => None,
    }
}

/// Field `k` read as a side code.
pub open spec fn side_field(s: Seq<char>, k: int) -> Option<Side> {
    match field_of(s, k) {
        Some(f) => side_of_code(f),
        None => None,
    }
}

/// Field `k` is `Y`.
pub open spec fn yes_field(s: Seq<char>, k: int) -> bool {
    field_of(s, k) == Some("Y"@)
}

/// The record starts with tag `c`.
pub open spec fn tagged(s: Seq<char>, c: char) -> bool {
    s.len() > 0 && s[0] == c
}

/// A record split into its fields.
struct Fields<'a> {
    line: &'a str,
    chars: Vec<char>,
    ranges: Vec<(usize, usize)>,
}

impl<'a> Fields<'a> {
    spec fn wf(&self) -> bool {
        &&& self.chars@ == self.line@
        &&& self.ranges@.len() == split_spec(self.line@, ',').len()
        &&& forall|k: int|
            0 <= k < self.ranges@.len() ==> bounds_field(
                self.line@,
                #[trigger] self.ranges@[k],
                split_spec(self.line@, ',')[k],
                self.line@.len() as int,
            )
    }

    fn new(line: &'a str) -> (r: Fields<'a>)
        ensures
            r.wf(),
            r.line == line,
    {
        let chars = chars_of(line);
        let ranges = split_ranges(&chars, ',');
        Fields { line, chars, ranges }
    }

    fn text(&self, k: usize) -> (r: Option<&'a str>)
        requires
            self.wf(),
        ensures
            match field_of(self.line@, k as int) {
                Some(f) => r matches Some(t) && t@ == f,
                None => r is None,
            },
    {
        if k < self.ranges.len() {
            let (a, b) = self.ranges[k];
            Some(self.line.substring_char(a, b))
        } else {
            None
        }
    }

    fn integer(&self, k: usize) -> (r: Option<i64>)
        requires
            self.wf(),
        ensures
            match int_field(self.line@, k as int) {
                Some(v) => r == Some(v as i64),
                None => r is None,
            },
    {
        if k < self.ranges.len() {
            let (a, b) = self.ranges[k];
            decimal_in(&self.chars, a, b)
        } else {
            None
        }
    }

    fn id(&self, k: usize) -> (r: Option<i64>)
        requires
            self.wf(),
        ensures
            match id_field(self.line@, k as int) {
                Some(v) => r == Some(v as i64),
                None => r is None,
            },
    {
        match self.text(k) {
            Some(t) => extract_value_and_parse(t),
            None => None,
        }
    }

    fn time(&self, k: usize) -> (r: Option<Timestamp>)
        requires
            self.wf(),
        ensures
            r == time_field(self.line@, k as int),
    {
        match self.text(k) {
            Some(t) => extract_datetime(t),
            None => None,
        }
    }

    fn side(&self, k: usize) -> (r: Option<Side>)
        requires
            self.wf(),
        ensures
            r == side_field(self.line@, k as int),
    {
        match self.text(k) {
            Some(t) => match Side::parse(t) {
                Ok(v) => Some(v),
                Err(_) => None,
            },
            None => None,
        }
    }

    fn paren(&self, k: usize) -> (r: Option<i64>)
        requires
            self.wf(),
        ensures
            match paren_field(self.line@, k as int) {
                Some(v) => r == Some(v as i64),
                None => r is None,
            },
    {
        match self.text(k) {
            Some(t) => match crate::util::extract_value(t) {
                Some(inner) => {
                    let c = chars_of(inner);
                    assert(c@.subrange(0, c@.len() as int) =~= c@);
                    decimal_in(&c, 0, c.len())
                },
                None => None,
            },
            None => None,
        }
    }

    fn product(&self, k: usize) -> (r: Option<FinancialProduct>)
        requires
            self.wf(),
        ensures
            r == fp_field(self.line@, k as int),
    {
        match self.text(k) {
            Some(t) => match FinancialProduct::parse(t) {
                Ok(v) => Some(v),
                Err(_) => None,
            },
            None => None,
        }
    }

    fn put_or_call(&self, k: usize) -> (r: Option<PutOrCall>)
        requires
            self.wf(),
        ensures
            r == poc_field(self.line@, k as int),
    {
        match self.text(k) {
            Some(t) => match PutOrCall::parse(t) {
                Ok(v) => Some(v),
                Err(_) => None,
            },
            None => None,
        }
    }

    fn yes(&self, k: usize) -> (r: Option<bool>)
        requires
            self.wf(),
        ensures
            match field_of(self.line@, k as int) {
                Some(f) => r == Some(f == "Y"@),
                None => r is None,
            },
    {
        match self.text(k) {
            Some(t) => Some(crate::text::same_text(t, "Y")),
            None => None,
        }
    }
}

/// Whether `s` starts with `c`.
fn starts_with(s: &str, c: char) -> (r: bool)
    ensures
        r == tagged(s@, c),
{
    if s.unicode_len() == 0 {
        false
    } else {
        s.get_char(0) == c
    }
}

/// Field `k` read as an integer between parentheses.
pub open spec fn paren_field(s: Seq<char>, k: int) -> Option<int> {
    match field_of(s, k) {
        Some(f) => match crate::util::paren_value(f) {
            Some(v) => decimal_of(v),
            None => None,
        },
        None => None,
    }
}

/// Field `k` read as a product-kind code.
pub open spec fn fp_field(s: Seq<char>, k: int) -> Option<FinancialProduct> {
    match field_of(s, k) {
        Some(f) => financial_product_of_code(f),
        None => None,
    }
}

/// Field `k` read as a put-or-call code.
pub open spec fn poc_field(s: Seq<char>, k: int) -> Option<PutOrCall> {
    match field_of(s, k) {
        Some(f) => put_or_call_of_code(f),
        None => None,
    }
}

/// `s` is a well-formed record of tag `A`.
pub open spec fn add_order_ok(s: Seq<char>) -> bool {
    &&& tagged(s, 'A')
    &&& time_field(s, 1) is Some
    &&& int_field(s, 2) is Some
    &&& paren_field(s, 3) is Some
    &&& side_field(s, 4) is Some
    &&& int_field(s, 5) is Some
    &&& int_field(s, 6) is Some
    &&& int_field(s, 7) is Some
}

/// `m` holds the fields of record `s`.
pub open spec fn add_order_from(m: AddOrder, s: Seq<char>) -> bool {
    &&& m.timestamp == time_field(s, 1)->0
    &&& m.order_id as int == int_field(s, 2)->0
    &&& m.order_book_id as int == paren_field(s, 3)->0
    &&& m.side == side_field(s, 4)->0
    &&& m.order_book_position as int == int_field(s, 5)->0
    &&& m.quantity as int == int_field(s, 6)->0
    &&& m.price as int == int_field(s, 7)->0
}

impl AddOrder {
    /// Decodes a record of tag `A`.
    pub fn parse(s: &str) -> (r: Result<AddOrder, ()>)
        ensures
            r is Ok <==> add_order_ok(s@),
            r matches Ok(m) ==> add_order_from(m, s@),
    {
        if !starts_with(s, 'A') {
            return Err(());
        }
        let f = Fields::new(s);
        let timestamp = match f.time(1) {
            Some(v) => v,
            None => {
                return Err(());
            },
        };
        let order_id = match f.integer(2) {
            Some(v) => v,
            None => {
                return Err(());
            },
        };
        let order_book_id = match f.paren(3) {
            Some(v) => v,
            None => {
                return Err(());
            },
        };
        let side = match f.side(4) {
            Some(v) => v,
            None => {
                return Err(());
            },
        };
        let order_book_position = match f.integer(5) {
            Some(v) => v,
            None => {
                return Err(());
            },
        };
        let quantity = match f.integer(6) {
            Some(v) => v,
            None => {
                return Err(());
            },
        };
        let price = match f.integer(7) {
            Some(v) => v,
            None => {
                return Err(());
            },
        };
        Ok(
            AddOrder {
                timestamp,
                order_id,
                order_book_id,
                side,
                order_book_position,
                quantity,
                price,
            },
        )
    }
}

/// `s` is a well-formed record of tag `C`.
pub open spec fn execution_with_price_info_ok(s: Seq<char>) -> bool {
    &&& tagged(s, 'C')
    &&& time_field(s, 1) is Some
    &&& int_field(s, 2) is Some
    &&& id_field(s, 3) is Some
    &&& side_field(s, 4) is Some
    &&& int_field(s, 5) is Some
    &&& int_field(s, 6) is Some
    &&& int_field(s, 7) is Some
    &&& int_field(s, 10) is Some
    &&& field_of(s, 11) is Some
}

/// `m` holds the fields of record `s`.
pub open spec fn execution_with_price_info_from(m: ExecutionWithPriceInfo, s: Seq<char>) -> bool {
    &&& m.timestamp == time_field(s, 1)->0
    &&& m.order_id as int == int_field(s, 2)->0
    &&& m.order_book_id as int == id_field(s, 3)->0
    &&& m.side == side_field(s, 4)->0
    &&& m.executed_quantity as int == int_field(s, 5)->0
    &&& m.match_id as int == int_field(s, 6)->0
    &&& m.combo_group_id as int == int_field(s, 7)->0
    &&& m.trade_price as int == int_field(s, 10)->0
    &&& m.occurred_at_cross == yes_field(s, 11)
}

impl ExecutionWithPriceInfo {
    /// Decodes a record of tag `C`.
    pub fn parse(s: &str) -> (r: Result<ExecutionWithPriceInfo, ()>)
        ensures
            r is Ok <==> execution_with_price_info_ok(s@),
            r matches Ok(m) ==> execution_with_price_info_from(m, s@),
    {
        if !starts_with(s, 'C') {
            return Err(());
        }
        let f = Fields::new(s);
        let timestamp = match f.time(1) {
            Some(v) => v,
            None => {
                return Err(());
            },
        };
        let order_id = match f.integer(2) {
            Some(v) => v,
            None => {
                return Err(());
            },
        };
        let order_book_id = match f.id(3) {
            Some(v) => v,
            None => {
                return Err(());
            },
        };
        let side = match f.side(4) {
            Some(v) => v,
            None => {
                return Err(());
            },
        };
        let executed_quantity = match f.integer(5) {
            Some(v) => v,
            None => {
                return Err(());
            },
        };
        let match_id = match f.integer(6) {
            Some(v) => v,
            None => {
                return Err(());
            },
        };
        let combo_group_id = match f.integer(7) {
            Some(v) => v,
            None => {
                return Err(());
            },
        };
        let trade_price = match f.integer(10) {
            Some(v) => v,
            None => {
                return Err(());
            },
        };
        let occurred_at_cross = match f.yes(11) {
            Some(v) => v,
            None => {
                return Err(());
            },
        };
        Ok(
            ExecutionWithPriceInfo {
                timestamp,
                order_id,
                order_book_id,
                side,
                executed_quantity,
                match_id,
                combo_group_id,
                trade_price,
                occurred_at_cross,
            },
        )
    }
}

/// `s` is a well-formed record of tag `D`.
pub open spec fn delete_order_ok(s: Seq<char>) -> bool {
    &&& tagged(s, 'D')
    &&& time_field(s, 1) is Some
    &&& int_field(s, 2) is Some
    &&& id_field(s, 3) is Some
    &&& side_field(s, 4) is Some
}

/// `m` holds the fields of record `s`.
pub open spec fn delete_order_from(m: DeleteOrder, s: Seq<char>) -> bool {
    &&& m.timestamp == time_field(s, 1)->0
    &&& m.order_id as int == int_field(s, 2)->0
    &&& m.order_book_id as int == id_field(s, 3)->0
    &&& m.side == side_field(s, 4)->0
}

impl DeleteOrder {
    /// Decodes a record of tag `D`.
    pub fn parse(s: &str) -> (r: Result<DeleteOrder, ()>)
        ensures
            r is Ok <==> delete_order_ok(s@),
            r matches Ok(m) ==> delete_order_from(m, s@),
    {
        if !starts_with(s, 'D') {
            return Err(());
        }
        let f = Fields::new(s);
        let timestamp = match f.time(1) {
            Some(v) => v,
            None => {
                return Err(());
            },
        };
        let order_id = match f.integer(2) {
            Some(v) => v,
            None => {
                return Err(());
            },
        };
        let order_book_id = match f.id(3) {
            Some(v) => v,
            None => {
                return Err(());
            },
        };
        let side = match f.side(4) {
            Some(v) => v,
            None => {
                return Err(());
            },
        };
        Ok(DeleteOrder { timestamp, order_id, order_book_id, side })
    }
}

/// `s` is a well-formed record of tag `E`.
pub open spec fn executed_ok(s: Seq<char>) -> bool {
    &&& tagged(s, 'E')
    &&& time_field(s, 1) is Some
    &&& int_field(s, 2) is Some
    &&& id_field(s, 3) is Some
    &&& side_field(s, 4) is Some
    &&& int_field(s, 5) is Some
    &&& field_of(s, 6) is Some
    &&& id_field(s, 7) is Some
}

/// `m` holds the fields of record `s`.
pub open spec fn executed_from(m: Executed, s: Seq<char>) -> bool {
    &&& m.timestamp == time_field(s, 1)->0
    &&& m.order_id as int == int_field(s, 2)->0
    &&& m.order_book_id as int == id_field(s, 3)->0
    &&& m.side == side_field(s, 4)->0
    &&& m.executed_quantity as int == int_field(s, 5)->0
    &&& m.match_id@ == field_of(s, 6)->0
    &&& m.combo_group_id as int == id_field(s, 7)->0
}

impl Executed {
    /// Decodes a record of tag `E`.
    pub fn parse(s: &str) -> (r: Result<Executed, ()>)
        ensures
            r is Ok <==> executed_ok(s@),
            r matches Ok(m) ==> executed_from(m, s@),
    {
        if !starts_with(s, 'E') {
            return Err(());
        }
        let f = Fields::new(s);
        let timestamp = match f.time(1) {
            Some(v) => v,
            None => {
                return Err(());
            },
        };
        let order_id = match f.integer(2) {
            Some(v) => v,
            None => {
                return Err(());
            },
        };
        let order_book_id = match f.id(3) {
            Some(v) => v,
            None => {
                return Err(());
            },
        };
        let side = match f.side(4) {
            Some(v) => v,
            None => {
                return Err(());
            },
        };
        let executed_quantity = match f.integer(5) {
            Some(v) => v,
            None => {
                return Err(());
            },
        };
        let match_id = match f.text(6) {
            Some(v) => v.to_owned(),
            None => {
                return Err(());
            },
        };
        let combo_group_id = match f.id(7) {
            Some(v) => v,
            None => {
                return Err(());
            },
        };
        Ok(
            Executed {
                timestamp,
                order_id,
                order_book_id,
                side,
                executed_quantity,
                match_id,
                combo_group_id,
            },
        )
    }
}

/// `s` is a well-formed record of tag `L`.
pub open spec fn tick_size_ok(s: Seq<char>) -> bool {
    &&& tagged(s, 'L')
    &&& time_field(s, 1) is Some
    &&& id_field(s, 2) is Some
    &&& int_field(s, 3) is Some
    &&& int_field(s, 4) is Some
    &&& int_field(s, 5) is Some
}

/// `m` holds the fields of record `s`.
pub open spec fn tick_size_from(m: TickSize, s: Seq<char>) -> bool {
    &&& m.timestamp == time_field(s, 1)->0
    &&& m.order_book_id as int == id_field(s, 2)->0
    &&& m.tick_size as int == int_field(s, 3)->0
    &&& m.price_from as int == int_field(s, 4)->0
    &&& m.price_to as int == int_field(s, 5)->0
}

impl TickSize {
    /// Decodes a record of tag `L`.
    pub fn parse(s: &str) -> (r: Result<TickSize, ()>)
        ensures
            r is Ok <==> tick_size_ok(s@),
            r matches Ok(m) ==> tick_size_from(m, s@),
    {
        if !starts_with(s, 'L') {
            return Err(());
        }
        let f = Fields::new(s);
        let timestamp = match f.time(1) {
            Some(v) => v,
            None => {
                return Err(());
            },
        };
        let order_book_id = match f.id(2) {
            Some(v) => v,
            None => {
                return Err(());
            },
        };
        let tick_size = match f.integer(3) {
            Some(v) => v,
            None => {
                return Err(());
            },
        };
        let price_from = match f.integer(4) {
            Some(v) => v,
            None => {
                return Err(());
            },
        };
        let price_to = match f.integer(5) {
            Some(v) => v,
            None => {
                return Err(());
            },
        };
        Ok(TickSize { timestamp, order_book_id, tick_size, price_from, price_to })
    }
}

/// `s` is a well-formed record of tag `M`.
pub open spec fn combination_product_ok(s: Seq<char>) -> bool {
    &&& tagged(s, 'M')
    &&& time_field(s, 1) is Some
    &&& int_field(s, 2) is Some
    &&& int_field(s, 3) is Some
    &&& side_field(s, 4) is Some
    &&& int_field(s, 5) is Some
}

/// `m` holds the fields of record `s`.
pub open spec fn combination_product_from(m: CombinationProduct, s: Seq<char>) -> bool {
    &&& m.timestamp == time_field(s, 1)->0
    &&& m.combination_order_book_id as int == int_field(s, 2)->0
    &&& m.leg_order_book_id as int == int_field(s, 3)->0
    &&& m.leg_side == side_field(s, 4)->0
    &&& m.leg_ratio as int == int_field(s, 5)->0
}

impl CombinationProduct {
    /// Decodes a record of tag `M`.
    pub fn parse(s: &str) -> (r: Result<CombinationProduct, ()>)
        ensures
            r is Ok <==> combination_product_ok(s@),
            r matches Ok(m) ==> combination_product_from(m, s@),
    {
        if !starts_with(s, 'M') {
            return Err(());
        }
        let f = Fields::new(s);
        let timestamp = match f.time(1) {
            Some(v) => v,
            None => {
                return Err(());
            },
        };
        let combination_order_book_id = match f.integer(2) {
            Some(v) => v,
            None => {
                return Err(());
            },
        };
        let leg_order_book_id = match f.integer(3) {
            Some(v) => v,
            None => {
                return Err(());
            },
        };
        let leg_side = match f.side(4) {
            Some(v) => v,
            None => {
                return Err(());
            },
        };
        let leg_ratio = match f.integer(5) {
            Some(v) => v,
            None => {
                return Err(());
            },
        };
        Ok(
            CombinationProduct {
                timestamp,
                combination_order_book_id,
                leg_order_book_id,
                leg_side,
                leg_ratio,
            },
        )
    }
}

/// `s` is a well-formed record of tag `O`.
pub open spec fn trading_status_info_ok(s: Seq<char>) -> bool {
    &&& tagged(s, 'O')
    &&& time_field(s, 1) is Some
    &&& id_field(s, 2) is Some
    &&& field_of(s, 3) is Some
}

/// `m` holds the fields of record `s`.
pub open spec fn trading_status_info_from(m: TradingStatusInfo, s: Seq<char>) -> bool {
    &&& m.timestamp == time_field(s, 1)->0
    &&& m.order_book_id as int == id_field(s, 2)->0
    &&& m.state_name@ == field_of(s, 3)->0
}

impl TradingStatusInfo {
    /// Decodes a record of tag `O`.
    pub fn parse(s: &str) -> (r: Result<TradingStatusInfo, ()>)
        ensures
            r is Ok <==> trading_status_info_ok(s@),
            r matches Ok(m) ==> trading_status_info_from(m, s@),
    {
        if !starts_with(s, 'O') {
            return Err(());
        }
        let f = Fields::new(s);
        let timestamp = match f.time(1) {
            Some(v) => v,
            None => {
                return Err(());
            },
        };
        let order_book_id = match f.id(2) {
            Some(v) => v,
            None => {
                return Err(());
            },
        };
        let state_name = match f.text(3) {
            Some(v) => v.to_owned(),
            None => {
                return Err(());
            },
        };
        Ok(TradingStatusInfo { timestamp, order_book_id, state_name })
    }
}

/// `s` is a well-formed record of tag `P`.
pub open spec fn leg_price_ok(s: Seq<char>) -> bool {
    &&& tagged(s, 'P')
    &&& time_field(s, 1) is Some
    &&& int_field(s, 2) is Some
    &&& int_field(s, 3) is Some
    &&& int_field(s, 5) is Some
    &&& id_field(s, 6) is Some
    &&& int_field(s, 7) is Some
    &&& field_of(s, 11) is Some
}

/// `m` holds the fields of record `s`.
pub open spec fn leg_price_from(m: LegPrice, s: Seq<char>) -> bool {
    &&& m.timestamp == time_field(s, 1)->0
    &&& m.match_id as int == int_field(s, 2)->0
    &&& m.combo_group_id as int == int_field(s, 3)->0
    &&& m.quantity as int == int_field(s, 5)->0
    &&& m.order_book_id as int == id_field(s, 6)->0
    &&& m.trade_price as int == int_field(s, 7)->0
    &&& m.occurred_at_cross == yes_field(s, 11)
}

impl LegPrice {
    /// Decodes a record of tag `P`.
    pub fn parse(s: &str) -> (r: Result<LegPrice, ()>)
        ensures
            r is Ok <==> leg_price_ok(s@),
            r matches Ok(m) ==> leg_price_from(m, s@),
    {
        if !starts_with(s, 'P') {
            return Err(());
        }
        let f = Fields::new(s);
        let timestamp = match f.time(1) {
            Some(v) => v,
            None => {
                return Err(());
            },
        };
        let match_id = match f.integer(2) {
            Some(v) => v,
            None => {
                return Err(());
            },
        };
        let combo_group_id = match f.integer(3) {
            Some(v) => v,
            None => {
                return Err(());
            },
        };
        let quantity = match f.integer(5) {
            Some(v) => v,
            None => {
                return Err(());
            },
        };
        let order_book_id = match f.id(6) {
            Some(v) => v,
            None => {
                return Err(());
            },
        };
        let trade_price = match f.integer(7) {
            Some(v) => v,
            None => {
                return Err(());
            },
        };
        let occurred_at_cross = match f.yes(11) {
            Some(v) => v,
            None => {
                return Err(());
            },
        };
        Ok(
            LegPrice {
                timestamp,
                match_id,
                combo_group_id,
                quantity,
                order_book_id,
                trade_price,
                occurred_at_cross,
            },
        )
    }
}

/// `s` is a well-formed record of tag `R`.
pub open spec fn product_info_ok(s: Seq<char>) -> bool {
    &&& tagged(s, 'R')
    &&& time_field(s, 1) is Some
    &&& int_field(s, 2) is Some
    &&& field_of(s, 3) is Some
    &&& field_of(s, 4) is Some
    &&& fp_field(s, 6) is Some
    &&& int_field(s, 8) is Some
    &&& int_field(s, 14) is Some
    &&& int_field(s, 15) is Some
    &&& int_field(s, 16) is Some
    &&& int_field(s, 17) is Some
    &&& int_field(s, 18) is Some
    &&& poc_field(s, 19) is Some
}

/// `m` holds the fields of record `s`.
pub open spec fn product_info_from(m: ProductInfo, s: Seq<char>) -> bool {
    &&& m.timestamp == time_field(s, 1)->0
    &&& m.order_book_id as int == int_field(s, 2)->0
    &&& m.symbol@ == field_of(s, 3)->0
    &&& m.long_name@ == field_of(s, 4)->0
    &&& m.financial_product == fp_field(s, 6)->0
    &&& m.number_of_decimal_in_price as int == int_field(s, 8)->0
    &&& m.number_of_legs as int == int_field(s, 14)->0
    &&& m.underlying_order_book_id as int == int_field(s, 15)->0
    &&& m.strike_price as int == int_field(s, 16)->0
    &&& m.expiration_date as int == int_field(s, 17)->0
    &&& m.number_of_decimals_in_strike_price as int == int_field(s, 18)->0
    &&& m.put_or_call == poc_field(s, 19)->0
}

impl ProductInfo {
    /// Decodes a record of tag `R`.
    pub fn parse(s: &str) -> (r: Result<ProductInfo, ()>)
        ensures
            r is Ok <==> product_info_ok(s@),
            r matches Ok(m) ==> product_info_from(m, s@),
    {
        if !starts_with(s, 'R') {
            return Err(());
        }
        let f = Fields::new(s);
        let timestamp = match f.time(1) {
            Some(v) => v,
            None => {
                return Err(());
            },
        };
        let order_book_id = match f.integer(2) {
            Some(v) => v,
            None => {
                return Err(());
            },
        };
        let symbol = match f.text(3) {
            Some(v) => v.to_owned(),
            None => {
                return Err(());
            },
        };
        let long_name = match f.text(4) {
            Some(v) => v.to_owned(),
            None => {
                return Err(());
            },
        };
        let financial_product = match f.product(6) {
            Some(v) => v,
            None => {
                return Err(());
            },
        };
        let number_of_decimal_in_price = match f.integer(8) {
            Some(v) => v,
            None => {
                return Err(());
            },
        };
        let number_of_legs = match f.integer(14) {
            Some(v) => v,
            None => {
                return Err(());
            },
        };
        let underlying_order_book_id = match f.integer(15) {
            Some(v) => v,
            None => {
                return Err(());
            },
        };
        let strike_price = match f.integer(16) {
            Some(v) => v,
            None => {
                return Err(());
            },
        };
        let expiration_date = match f.integer(17) {
            Some(v) => v,
            None => {
                return Err(());
            },
        };
        let number_of_decimals_in_strike_price = match f.integer(18) {
            Some(v) => v,
            None => {
                return Err(());
            },
        };
        let put_or_call = match f.put_or_call(19) {
            Some(v) => v,
            None => {
                return Err(());
            },
        };
        Ok(
            ProductInfo {
                timestamp,
                order_book_id,
                symbol,
                long_name,
                financial_product,
                number_of_decimal_in_price,
                number_of_legs,
                underlying_order_book_id,
                strike_price,
                expiration_date,
                number_of_decimals_in_strike_price,
                put_or_call,
            },
        )
    }
}

/// `s` is a well-formed record of tag `S`.
pub open spec fn system_event_info_ok(s: Seq<char>) -> bool {
    &&& tagged(s, 'S')
    &&& time_field(s, 1) is Some
    &&& field_of(s, 2) is Some
}

/// `m` holds the fields of record `s`.
pub open spec fn system_event_info_from(m: SystemEventInfo, s: Seq<char>) -> bool {
    &&& m.timestamp == time_field(s, 1)->0
    &&& m.event_code@ == field_of(s, 2)->0
}

impl SystemEventInfo {
    /// Decodes a record of tag `S`.
    pub fn parse(s: &str) -> (r: Result<SystemEventInfo, ()>)
        ensures
            r is Ok <==> system_event_info_ok(s@),
            r matches Ok(m) ==> system_event_info_from(m, s@),
    {
        if !starts_with(s, 'S') {
            return Err(());
        }
        let f = Fields::new(s);
        let timestamp = match f.time(1) {
            Some(v) => v,
            None => {
                return Err(());
            },
        };
        let event_code = match f.text(2) {
            Some(v) => v.to_owned(),
            None => {
                return Err(());
            },
        };
        Ok(SystemEventInfo { timestamp, event_code })
    }
}

/// `s` is a well-formed record of tag `Z`.
pub open spec fn equilibrium_price_ok(s: Seq<char>) -> bool {
    &&& tagged(s, 'Z')
    &&& time_field(s, 1) is Some
    &&& id_field(s, 2) is Some
    &&& int_field(s, 3) is Some
    &&& int_field(s, 4) is Some
    &&& int_field(s, 5) is Some
}

/// `m` holds the fields of record `s`.
pub open spec fn equilibrium_price_from(m: EquilibriumPrice, s: Seq<char>) -> bool {
    &&& m.timestamp == time_field(s, 1)->0
    &&& m.order_book_id as int == id_field(s, 2)->0
    &&& m.bid_qty_at_ep as int == int_field(s, 3)->0
    &&& m.ask_qty_at_ep as int == int_field(s, 4)->0
    &&& m.ep as int == int_field(s, 5)->0
}

impl EquilibriumPrice {
    /// Decodes a record of tag `Z`.
    pub fn parse(s: &str) -> (r: Result<EquilibriumPrice, ()>)
        ensures
            r is Ok <==> equilibrium_price_ok(s@),
            r matches Ok(m) ==> equilibrium_price_from(m, s@),
    {
        if !starts_with(s, 'Z') {
            return Err(());
        }
        let f = Fields::new(s);
        let timestamp = match f.time(1) {
            Some(v) => v,
            None => {
                return Err(());
            },
        };
        let order_book_id = match f.id(2) {
            Some(v) => v,
            None => {
                return Err(());
            },
        };
        let bid_qty_at_ep = match f.integer(3) {
            Some(v) => v,
            None => {
                return Err(());
            },
        };
        let ask_qty_at_ep = match f.integer(4) {
            Some(v) => v,
            None => {
                return Err(());
            },
        };
        let ep = match f.integer(5) {
            Some(v) => v,
            None => {
                return Err(());
            },
        };
        Ok(EquilibriumPrice { timestamp, order_book_id, bid_qty_at_ep, ask_qty_at_ep, ep })
    }
}

/// `s` is a well-formed second marker: `T,<second>`, a second that chrono can represent.
pub open spec fn second_tag_ok(s: Seq<char>) -> bool {
    &&& tagged(s, 'T')
    &&& int_field(s, 1) is Some
    &&& second_in_range(int_field(s, 1)->0)
}

/// `m` holds the second of marker `s`, and the start of that second as its timestamp.
pub open spec fn second_tag_from(m: SecondTag, s: Seq<char>) -> bool {
    &&& m.second as int == int_field(s, 1)->0
    &&& m.timestamp == (Timestamp { secs: m.second, nanos: 0 })
}

impl SecondTag {
    /// Decodes a second marker (tag `T`).
    pub fn parse(s: &str) -> (r: Result<SecondTag, ()>)
        ensures
            r is Ok <==> second_tag_ok(s@),
            r matches Ok(m) ==> second_tag_from(m, s@),
    {
        if !starts_with(s, 'T') {
            return Err(());
        }
        let f = Fields::new(s);
        let second = match f.integer(1) {
            Some(v) => v,
            None => {
                return Err(());
            },
        };
        let timestamp = match Timestamp::from_second(second) {
            Some(t) => t,
            None => {
                return Err(());
            },
        };
        Ok(SecondTag { timestamp, second })
    }
}

/// The tag letter of each record kind, by name; new orders go by `PutOrder`.
pub open spec fn tag_of_name(n: Seq<char>) -> Option<char> {
    if n == "CombinationProduct"@ {
        Some('M')
    } else if n == "DeleteOrder"@ {
        Some('D')
    } else if n == "EquilibriumPrice"@ {
        Some('Z')
    } else if n == "Executed"@ {
        Some('E')
    } else if n == "ExecutionWithPriceInfo"@ {
        Some('C')
    } else if n == "LegPrice"@ {
        Some('P')
    } else if n == "ProductInfo"@ {
        Some('R')
    } else if n == "PutOrder"@ {
        Some('A')
    } else if n == "SecondTag"@ {
        Some('T')
    } else if n == "SystemEventInfo"@ {
        Some('S')
    } else if n == "TickSize"@ {
        Some('L')
    } else if n == "TradingStatusInfo"@ {
        Some('O')
    } else {
        None
    }
}

/// The name of the record kind with tag letter `tag`; new orders go by `PutOrder`.
pub open spec fn name_of_tag(tag: char) -> Option<Seq<char>> {
    if tag == 'M' {
        Some("CombinationProduct"@)
    } else if tag == 'D' {
        Some("DeleteOrder"@)
    } else if tag == 'Z' {
        Some("EquilibriumPrice"@)
    } else if tag == 'E' {
        Some("Executed"@)
    } else if tag == 'C' {
        Some("ExecutionWithPriceInfo"@)
    } else if tag == 'P' {
        Some("LegPrice"@)
    } else if tag == 'R' {
        Some("ProductInfo"@)
    } else if tag == 'A' {
        Some("PutOrder"@)
    } else if tag == 'T' {
        Some("SecondTag"@)
    } else if tag == 'S' {
        Some("SystemEventInfo"@)
    } else if tag == 'L' {
        Some("TickSize"@)
    } else if tag == 'O' {
        Some("TradingStatusInfo"@)
    } else {
        None
    }
}

/// `s` decodes as a record of one of the tags.
pub open spec fn message_ok(s: Seq<char>) -> bool {
    ||| add_order_ok(s)
    ||| execution_with_price_info_ok(s)
    ||| delete_order_ok(s)
    ||| executed_ok(s)
    ||| tick_size_ok(s)
    ||| combination_product_ok(s)
    ||| trading_status_info_ok(s)
    ||| leg_price_ok(s)
    ||| product_info_ok(s)
    ||| system_event_info_ok(s)
    ||| equilibrium_price_ok(s)
    ||| second_tag_ok(s)
}

/// `m` is what record `s` decodes to.
pub open spec fn decoded_as(m: MessageEnum, s: Seq<char>) -> bool {
    match m {
        MessageEnum::AddOrder(x) => add_order_ok(s) && add_order_from(x, s),
        MessageEnum::ExecutionWithPriceInfo(x) => execution_with_price_info_ok(s) && execution_with_price_info_from(x, s),
        MessageEnum::DeleteOrder(x) => delete_order_ok(s) && delete_order_from(x, s),
        MessageEnum::Executed(x) => executed_ok(s) && executed_from(x, s),
        MessageEnum::TickSize(x) => tick_size_ok(s) && tick_size_from(x, s),
        MessageEnum::CombinationProduct(x) => combination_product_ok(s) && combination_product_from(x, s),
        MessageEnum::TradingStatusInfo(x) => trading_status_info_ok(s) && trading_status_info_from(x, s),
        MessageEnum::LegPrice(x) => leg_price_ok(s) && leg_price_from(x, s),
        MessageEnum::ProductInfo(x) => product_info_ok(s) && product_info_from(x, s),
        MessageEnum::SystemEventInfo(x) => system_event_info_ok(s) && system_event_info_from(x, s),
        MessageEnum::EquilibriumPrice(x) => equilibrium_price_ok(s) && equilibrium_price_from(x, s),
        MessageEnum::SecondTag(x) => second_tag_ok(s) && second_tag_from(x, s),
    }
}

impl MessageEnum {
    /// Decodes one feed record; the text comes back as the error when no tag's layout fits.
    pub fn decode(s: &str) -> (r: Result<MessageEnum, String>)
        ensures
            r is Ok <==> message_ok(s@),
            r matches Ok(m) ==> decoded_as(m, s@),
            r matches Err(e) ==> e@ == s@,
    {
        if let Ok(m) = CombinationProduct::parse(s) {
            return Ok(MessageEnum::CombinationProduct(m));
        }
        if let Ok(m) = DeleteOrder::parse(s) {
            return Ok(MessageEnum::DeleteOrder(m));
        }
        if let Ok(m) = EquilibriumPrice::parse(s) {
            return Ok(MessageEnum::EquilibriumPrice(m));
        }
        if let Ok(m) = Executed::parse(s) {
            return Ok(MessageEnum::Executed(m));
        }
        if let Ok(m) = ExecutionWithPriceInfo::parse(s) {
            return Ok(MessageEnum::ExecutionWithPriceInfo(m));
        }
        if let Ok(m) = LegPrice::parse(s) {
            return Ok(MessageEnum::LegPrice(m));
        }
        if let Ok(m) = ProductInfo::parse(s) {
            return Ok(MessageEnum::ProductInfo(m));
        }
        if let Ok(m) = AddOrder::parse(s) {
            return Ok(MessageEnum::AddOrder(m));
        }
        if let Ok(m) = SecondTag::parse(s) {
            return Ok(MessageEnum::SecondTag(m));
        }
        if let Ok(m) = SystemEventInfo::parse(s) {
            return Ok(MessageEnum::SystemEventInfo(m));
        }
        if let Ok(m) = TickSize::parse(s) {
            return Ok(MessageEnum::TickSize(m));
        }
        if let Ok(m) = TradingStatusInfo::parse(s) {
            return Ok(MessageEnum::TradingStatusInfo(m));
        }
        Err(s.to_owned())
    }

    /// The tag letter of the record kind named `struct_name`.
    pub fn struct_name_to_tag(struct_name: &str) -> (r: Option<char>)
        ensures
            r == tag_of_name(struct_name@),
    {
        if crate::text::same_text(struct_name, "CombinationProduct") {
            Some('M')
        } else if crate::text::same_text(struct_name, "DeleteOrder") {
            Some('D')
        } else if crate::text::same_text(struct_name, "EquilibriumPrice") {
            Some('Z')
        } else if crate::text::same_text(struct_name, "Executed") {
            Some('E')
        } else if crate::text::same_text(struct_name, "ExecutionWithPriceInfo") {
            Some('C')
        } else if crate::text::same_text(struct_name, "LegPrice") {
            Some('P')
        } else if crate::text::same_text(struct_name, "ProductInfo") {
            Some('R')
        } else if crate::text::same_text(struct_name, "PutOrder") {
            Some('A')
        } else if crate::text::same_text(struct_name, "SecondTag") {
            Some('T')
        } else if crate::text::same_text(struct_name, "SystemEventInfo") {
            Some('S')
        } else if crate::text::same_text(struct_name, "TickSize") {
            Some('L')
        } else if crate::text::same_text(struct_name, "TradingStatusInfo") {
            Some('O')
        } else {
            None
        }
    }

    /// The name of the record kind with tag letter `tag`.
    pub fn tag_to_struct_name(tag: char) -> (r: Option<&'static str>)
        ensures
            match r {
                Some(n) => name_of_tag(tag) == Some(n@),
                None => name_of_tag(tag) is None,
            },
    {
        let r = if tag == 'M' {
            Some("CombinationProduct")
        } else if tag == 'D' {
            Some("DeleteOrder")
        } else if tag == 'Z' {
            Some("EquilibriumPrice")
        } else if tag == 'E' {
            Some("Executed")
        } else if tag == 'C' {
            Some("ExecutionWithPriceInfo")
        } else if tag == 'P' {
            Some("LegPrice")
        } else if tag == 'R' {
            Some("ProductInfo")
        } else if tag == 'A' {
            Some("PutOrder")
        } else if tag == 'T' {
            Some("SecondTag")
        } else if tag == 'S' {
            Some("SystemEventInfo")
        } else if tag == 'L' {
            Some("TickSize")
        } else if tag == 'O' {
            Some("TradingStatusInfo")
        } else {
            None
        };
        r
    }
}

} // verus!
