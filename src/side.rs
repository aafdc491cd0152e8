use vstd::prelude::*;

use crate::text::same_text;

verus! {

/// Which half of the book an order rests on.
#[derive(Debug, Clone, Copy, PartialEq, Eq, Structural, Hash, PartialOrd, Ord)]
pub enum Side {
    Buy,
    Sell,
}

/// The side that a feed code names: `B` or `66` for buy, `S` or `67` for sell.
pub open spec fn side_of_code(s: Seq<char>) -> Option<Side> {
    if s == "B"@ || s == "66"@ {
        Some(Side::Buy)
    } else if s == "S"@ || s == "67"@ {
        Some(Side::Sell)
    } else {
        None
    }
}

impl Default for Side {
    fn default() -> (r: Self)
        ensures
            r == Side::Buy,
    {
        Side::Buy
    }
}

impl Side {
    pub fn parse(s: &str) -> (r: Result<Side, ()>)
        ensures
            match side_of_code(s@) {
                Some(v) => r == Ok::<Side, ()>(v),
                None => r == Err::<Side, ()>(()),
            },
    {
        if same_text(s, "B") || same_text(s, "66") {
            Ok(Side::Buy)
        } else if same_text(s, "S") || same_text(s, "67") {
            Ok(Side::Sell)
        } else {
            Err(())
        }
    }

    /// `B` is buy and `S` is sell.
    pub fn from_char(c: char) -> (r: Result<Side, ()>)
        ensures
            c == 'B' ==> r == Ok::<Side, ()>(Side::Buy),
            c == 'S' ==> r == Ok::<Side, ()>(Side::Sell),
            c != 'B' && c != 'S' ==> r is Err,
    {
        if c == 'B' {
            Ok(Side::Buy)
        } else if c == 'S' {
            Ok(Side::Sell)
        } else {
            Err(())
        }
    }

    /// `true` is buy and `false` is sell.
    pub fn from_bool(b: bool) -> (r: Side)
        ensures
            r == (if b {
                Side::Buy
            } else {
                Side::Sell
            }),
    {
        if b {
            Side::Buy
        } else {
            Side::Sell
        }
    }

    #[inline]
    pub fn is_buy(&self) -> (r: bool)
        ensures
            r == (*self == Side::Buy),
    {
        *self == Side::Buy
    }

    #[inline]
    pub fn is_sell(&self) -> (r: bool)
        ensures
            r == (*self == Side::Sell),
    {
        !self.is_buy()
    }
}

impl<'a> TryFrom<&'a str> for Side {
    type Error = ();

    fn try_from(s: &'a str) -> (r: Result<Side, ()>) {
        Side::parse(s)
    }
}

impl<'a> vstd::std_specs::convert::TryFromSpecImpl<&'a str> for Side {
    open spec fn obeys_try_from_spec() -> bool {
        true
    }

    open spec fn try_from_spec(s: &'a str) -> Result<Side, ()> {
        match side_of_code(s@) {
            Some(v) => Ok(v),
            None => Err(()),
        }
    }
}

/// The side of one leg of a combination product, as the feed writes it: `66` or `67`.
#[derive(Debug, Clone, Copy, PartialEq, Eq, Structural, Hash, PartialOrd, Ord)]
pub struct LegSide(pub Side);

/// `66` is a bought leg and `67` a sold one.
pub open spec fn leg_side_of_code(s: Seq<char>) -> Option<LegSide> {
    if s == "66"@ {
        Some(LegSide(Side::Buy))
    } else if s == "67"@ {
        Some(LegSide(Side::Sell))
    } else {
        None
    }
}

impl LegSide {
    pub fn buy() -> (r: LegSide)
        ensures
            r == LegSide(Side::Buy),
    {
        LegSide(Side::Buy)
    }

    pub fn sell() -> (r: LegSide)
        ensures
            r == LegSide(Side::Sell),
    {
        LegSide(Side::Sell)
    }

    /// Reads `66` as buy and `67` as sell; any other text comes back as the error.
    pub fn parse(value: &str) -> (r: Result<LegSide, String>)
        ensures
            match leg_side_of_code(value@) {
                Some(v) => r == Ok::<LegSide, String>(v),
                None => r matches Err(e) && e@ == value@,
            },
    {
        if same_text(value, "66") {
            Ok(LegSide(Side::Buy))
        } else if same_text(value, "67") {
            Ok(LegSide(Side::Sell))
        } else {
            Err(value.to_owned())
        }
    }

    #[inline]
    pub fn inner(&self) -> (r: Side)
        ensures
            r == self.0,
    {
        self.0
    }
}

/// Whether an option is a put or a call; a product that is neither is a combination.
#[derive(Debug, Clone, Copy, PartialEq, Eq, Structural, Hash, PartialOrd, Ord)]
pub enum PutOrCall {
    Put,
    Call,
    Combo,
}

/// `1` or `CAL` is a call, `2` or `PUT` a put, `0` a combination.
pub open spec fn put_or_call_of_code(s: Seq<char>) -> Option<PutOrCall> {
    if s == "1"@ || s == "CAL"@ {
        Some(PutOrCall::Call)
    } else if s == "2"@ || s == "PUT"@ {
        Some(PutOrCall::Put)
    } else if s == "0"@ {
        Some(PutOrCall::Combo)
    } else {
        None
    }
}

impl PutOrCall {
    pub fn parse(s: &str) -> (r: Result<PutOrCall, ()>)
        ensures
            match put_or_call_of_code(s@) {
                Some(v) => r == Ok::<PutOrCall, ()>(v),
                None => r == Err::<PutOrCall, ()>(()),
            },
    {
        if same_text(s, "1") || same_text(s, "CAL") {
            Ok(PutOrCall::Call)
        } else if same_text(s, "2") || same_text(s, "PUT") {
            Ok(PutOrCall::Put)
        } else if same_text(s, "0") {
            Ok(PutOrCall::Combo)
        } else {
            Err(())
        }
    }

    /// The numeric code: 1 is a call, 2 a put, 0 a combination.
    pub fn from_code(code: i8) -> (r: Result<PutOrCall, ()>)
        ensures
            code == 1 ==> r == Ok::<PutOrCall, ()>(PutOrCall::Call),
            code == 2 ==> r == Ok::<PutOrCall, ()>(PutOrCall::Put),
            code == 0 ==> r == Ok::<PutOrCall, ()>(PutOrCall::Combo),
            !(code == 0 || code == 1 || code == 2) ==> r is Err,
    {
        if code == 1 {
            Ok(PutOrCall::Call)
        } else if code == 2 {
            Ok(PutOrCall::Put)
        } else if code == 0 {
            Ok(PutOrCall::Combo)
        } else {
            Err(())
        }
    }

    pub fn is_call(&self) -> (r: bool)
        ensures
            r == (*self == PutOrCall::Call),
    {
        *self == PutOrCall::Call
    }

    pub fn is_put(&self) -> (r: bool)
        ensures
            r == (*self == PutOrCall::Put),
    {
        *self == PutOrCall::Put
    }

    pub fn is_combo(&self) -> (r: bool)
        ensures
            r == (*self == PutOrCall::Combo),
    {
        *self == PutOrCall::Combo
    }
}

/// The kind of a listed product.
#[derive(Debug, Clone, Copy, PartialEq, Eq, Structural, Hash, PartialOrd, Ord)]
pub enum FinancialProduct {
    Option,
    Future,
    Combo,
}

/// `1` is an option, `3` a future, `11` a combination.
pub open spec fn financial_product_of_code(s: Seq<char>) -> Option<FinancialProduct> {
    if s == "1"@ {
        Some(FinancialProduct::Option)
    } else if s == "3"@ {
        Some(FinancialProduct::Future)
    } else if s == "11"@ {
        Some(FinancialProduct::Combo)
    } else {
        None
    }
}

impl FinancialProduct {
    pub fn parse(s: &str) -> (r: Result<FinancialProduct, ()>)
        ensures
            match financial_product_of_code(s@) {
                Some(v) => r == Ok::<FinancialProduct, ()>(v),
                None => r == Err::<FinancialProduct, ()>(()),
            },
    {
        if same_text(s, "1") {
            Ok(FinancialProduct::Option)
        } else if same_text(s, "3") {
            Ok(FinancialProduct::Future)
        } else if same_text(s, "11") {
            Ok(FinancialProduct::Combo)
        } else {
            Err(())
        }
    }

    /// The numeric code: 1 is an option, 3 a future, 11 a combination.
    pub fn from_code(code: i8) -> (r: Result<FinancialProduct, ()>)
        ensures
            code == 1 ==> r == Ok::<FinancialProduct, ()>(FinancialProduct::Option),
            code == 3 ==> r == Ok::<FinancialProduct, ()>(FinancialProduct::Future),
            code == 11 ==> r == Ok::<FinancialProduct, ()>(FinancialProduct::Combo),
            !(code == 1 || code == 3 || code == 11) ==> r is Err,
    {
        if code == 1 {
            Ok(FinancialProduct::Option)
        } else if code == 3 {
            Ok(FinancialProduct::Future)
        } else if code == 11 {
            Ok(FinancialProduct::Combo)
        } else {
            Err(())
        }
    }
}

} // verus!
