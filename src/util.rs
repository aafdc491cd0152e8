use vstd::prelude::*;

use crate::messages::TickSize;
use crate::orderbook::OrderBook;
use crate::text::{chars_of, decimal_in, decimal_of, find_char, first_index};
use crate::timestamp::{feed_datetime, Timestamp};

verus! {

/// The text between the first `(` and the first `)` of `s`, when both are there in that
/// order.
pub open spec fn paren_value(s: Seq<char>) -> Option<Seq<char>> {
    match (first_index(s, '('), first_index(s, ')')) {
        (Some(a), Some(b)) => if a + 1 <= b {
            Some(s.subrange(a + 1, b))
        } else {
            None
        },
        _ => None,
    }
}

/// An integer written plainly, or else between parentheses: `42` or `NAME(42)`.
pub open spec fn int_or_paren(s: Seq<char>) -> Option<int> {
    match decimal_of(s) {
        Some(v) => Some(v),
        None => match paren_value(s) {
            Some(v) => decimal_of(v),
            None => None,
        },
    }
}

/// The text before the first `(` of `s`.
pub open spec fn before_paren(s: Seq<char>) -> Option<Seq<char>> {
    match first_index(s, '(') {
        Some(a) => Some(s.subrange(0, a)),
        None => None,
    }
}

/// The timestamp of a feed date-time field: `2021-02-28T21:07:50.931282000(1614546470931282000)`
/// is read from the text before the parenthesis.
pub open spec fn datetime_field(s: Seq<char>) -> Option<Timestamp> {
    match before_paren(s) {
        Some(d) => feed_datetime(d),
        None => None,
    }
}

/// The text between the first `(` and the first `)` of `s`.
pub fn extract_value<'a>(s: &'a str) -> (r: Option<&'a str>)
    ensures
        match paren_value(s@) {
            Some(v) => r matches Some(t) && t@ == v,
            None => r is None,
        },
{
    let chars = chars_of(s);
    let n = chars.len();
    assert(chars@.subrange(0, n as int) =~= s@);
    let open = find_char(&chars, '(', 0, n);
    let close = find_char(&chars, ')', 0, n);
    assert(open matches Some(a) ==> first_index(s@, '(') == Some(a as int));
    assert(open is None ==> first_index(s@, '(') is None);
    assert(close matches Some(b) ==> first_index(s@, ')') == Some(b as int));
    assert(close is None ==> first_index(s@, ')') is None);
    match open {
        Some(a) => match close {
            Some(b) => {
                if a + 1 <= b {
                    Some(s.substring_char(a + 1, b))
                } else {
                    None
                }
            },
            None => None,
        },
        None => None,
    }
}

/// Reads an integer written plainly or, failing that, between parentheses.
pub fn extract_value_and_parse(s: &str) -> (r: Option<i64>)
    ensures
        match int_or_paren(s@) {
            Some(v) => r == Some(v as i64),
            None => r is None,
        },
{
    let chars = chars_of(s);
    match decimal_in(&chars, 0, chars.len()) {
        Some(v) => {
            assert(chars@.subrange(0, chars@.len() as int) =~= s@);
            return Some(v);
        },
        None => {
            assert(chars@.subrange(0, chars@.len() as int) =~= s@);
        },
    }
    match extract_value(s) {
        Some(inner) => {
            let c = chars_of(inner);
            assert(c@.subrange(0, c@.len() as int) =~= c@);
            decimal_in(&c, 0, c.len())
        },
        None => None,
    }
}

/// The text before the first `(`.
pub fn extract_datetime_string<'a>(s: &'a str) -> (r: Option<&'a str>)
    ensures
        match before_paren(s@) {
            Some(v) => r matches Some(t) && t@ == v,
            None => r is None,
        },
{
    let chars = chars_of(s);
    let n = chars.len();
    assert(chars@.subrange(0, n as int) =~= s@);
    let open = find_char(&chars, '(', 0, n);
    assert(open matches Some(a) ==> first_index(s@, '(') == Some(a as int));
    assert(open is None ==> first_index(s@, '(') is None);
    match open {
        Some(a) => Some(s.substring_char(0, a)),
        None => None,
    }
}

/// Reads the date-time before the first `(`.
pub fn extract_datetime(s: &str) -> (r: Option<Timestamp>)
    ensures
        r == datetime_field(s@),
{
    match extract_datetime_string(s) {
        Some(d) => Timestamp::parse_feed(d),
        None => None,
    }
}

/// The last band of `ticks` whose prices `price_from..price_to` hold `p`.
pub open spec fn band_of(ticks: Seq<TickSize>, p: i64) -> Option<TickSize>
    decreases ticks.len(),
{
    if ticks.len() == 0 {
        None
    } else if ticks.last().price_from <= p < ticks.last().price_to {
        Some(ticks.last())
    } else {
        band_of(ticks.drop_last(), p)
    }
}

/// `a` over `d` for `a >= 0` and `d != 0`, rounded toward zero.
pub open spec fn div_toward_zero(a: int, d: int) -> int {
    if d > 0 {
        a / d
    } else {
        -(a / (-d))
    }
}

/// The number of ticks between two prices, counted with the tick table `ticks`: within one
/// band, the distance over its tick size; across two bands, the steps from the lower price
/// up to the end of its band and from the start of the upper price's band, both over the
/// lower band's tick size. Quotients round toward zero. `None` when a price lies in no band
/// or the band's tick size is zero.
pub open spec fn ticks_between(ticks: Seq<TickSize>, p1: i64, p2: i64) -> Option<int> {
    let lo = if p1 <= p2 {
        p1
    } else {
        p2
    };
    let hi = if p1 <= p2 {
        p2
    } else {
        p1
    };
    if p1 == p2 {
        Some(0)
    } else {
        match (band_of(ticks, lo), band_of(ticks, hi)) {
            (Some(a), Some(b)) => if a.tick_size == 0 {
                None
            } else if a.price_from == b.price_from && a.price_to == b.price_to {
                Some(div_toward_zero(hi - lo, a.tick_size as int))
            } else {
                Some(div_toward_zero(a.price_to - lo, a.tick_size as int) + div_toward_zero(
                    hi - b.price_from,
                    a.tick_size as int,
                ))
            },
            _ => None,
        }
    }
}

/// The smallest `price_from` of `ticks`, `i64::MAX` when there is no band.
pub open spec fn lowest_from(ticks: Seq<TickSize>) -> int
    decreases ticks.len(),
{
    if ticks.len() == 0 {
        i64::MAX as int
    } else {
        let m = lowest_from(ticks.drop_last());
        if m > ticks.last().price_from {
            ticks.last().price_from as int
        } else {
            m
        }
    }
}

/// The largest `price_to` of `ticks`, `i64::MIN` when there is no band.
pub open spec fn highest_to(ticks: Seq<TickSize>) -> int
    decreases ticks.len(),
{
    if ticks.len() == 0 {
        i64::MIN as int
    } else {
        let m = highest_to(ticks.drop_last());
        if m < ticks.last().price_to {
            ticks.last().price_to as int
        } else {
            m
        }
    }
}

proof fn lemma_band_of(ticks: Seq<TickSize>, p: i64)
    ensures
        band_of(ticks, p) matches Some(b) ==> b.price_from <= p < b.price_to,
    decreases ticks.len(),
{
    if ticks.len() > 0 {
        lemma_band_of(ticks.drop_last(), p);
    }
}

/// The last band of the book's tick table that holds `p`.
fn find_band(book: &OrderBook, p: i64) -> (r: Option<TickSize>)
    ensures
        r == band_of(book.tick_info@, p),
{
    let ghost t = book.tick_info@;
    let mut found: Option<TickSize> = None;
    let mut i: usize = 0;
    while i < book.tick_info.len()
        invariant
            t == book.tick_info@,
            i <= t.len(),
            found == band_of(t.subrange(0, i as int), p),
        decreases t.len() - i,
    {
        assert(t.subrange(0, i + 1).drop_last() =~= t.subrange(0, i as int));
        let band = book.tick_info[i];
        if band.price_from <= p && p < band.price_to {
            found = Some(band);
        }
        i = i + 1;
    }
    assert(t.subrange(0, i as int) =~= t);
    found
}

/// `a` over `d`, rounded toward zero, for a distance `a` between two prices.
fn quotient(a: i128, d: i128) -> (r: i128)
    requires
        0 <= a <= 0x1_0000_0000_0000_0000,
        d != 0,
        -0x8000_0000_0000_0000 <= d <= 0x7fff_ffff_ffff_ffff,
    ensures
        r == div_toward_zero(a as int, d as int),
        -0x1_0000_0000_0000_0000 <= r <= 0x1_0000_0000_0000_0000,
{
    if d > 0 {
        assert(a / d <= a) by (nonlinear_arith)
            requires
                a >= 0,
                d >= 1,
        ;
        a / d
    } else {
        let e = -d;
        assert(a / e <= a) by (nonlinear_arith)
            requires
                a >= 0,
                e >= 1,
        ;
        -(a / e)
    }
}

/// The number of ticks between two prices in the book's tick table.
pub fn ticks_between_price(book: &OrderBook, price_1: i64, price_2: i64) -> (r: Option<i128>)
    ensures
        match ticks_between(book.tick_info@, price_1, price_2) {
            Some(v) => r == Some(v as i128),
            None => r is None,
        },
{
    if price_1 == price_2 {
        return Some(0);
    }
    let (lo, hi) = if price_1 <= price_2 {
        (price_1, price_2)
    } else {
        (price_2, price_1)
    };
    proof {
        lemma_band_of(book.tick_info@, lo);
        lemma_band_of(book.tick_info@, hi);
    }
    match (find_band(book, lo), find_band(book, hi)) {
        (Some(a), Some(b)) => {
            if a.tick_size == 0 {
                return None;
            }
            let step = a.tick_size as i128;
            if a.price_from == b.price_from && a.price_to == b.price_to {
                Some(quotient(hi as i128 - lo as i128, step))
            } else {
                let lower = a.price_to as i128 - lo as i128;
                let upper = hi as i128 - b.price_from as i128;
                assert(lower > 0);
                assert(upper >= 0);
                Some(quotient(lower, step) + quotient(upper, step))
            }
        },
        _ => None,
    }
}

/// Whether `price` lies between the lowest start and the highest end of the book's tick
/// bands, ends included.
pub fn is_out_of_tick_range(book: &OrderBook, price: i64) -> (r: bool)
    ensures
        r == (lowest_from(book.tick_info@) <= price <= highest_to(book.tick_info@)),
{
    let ghost t = book.tick_info@;
    let mut min: i64 = i64::MAX;
    let mut max: i64 = i64::MIN;
    let mut i: usize = 0;
    while i < book.tick_info.len()
        invariant
            t == book.tick_info@,
            i <= t.len(),
            min == lowest_from(t.subrange(0, i as int)),
            max == highest_to(t.subrange(0, i as int)),
        decreases t.len() - i,
    {
        assert(t.subrange(0, i + 1).drop_last() =~= t.subrange(0, i as int));
        let band = book.tick_info[i];
        min = if min > band.price_from {
            band.price_from
        } else {
            min
        };
        max = if max < band.price_to {
            band.price_to
        } else {
            max
        };
        i = i + 1;
    }
    assert(t.subrange(0, i as int) =~= t);
    min <= price && price <= max
}

} // verus!
