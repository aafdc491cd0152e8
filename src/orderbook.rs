use std::collections::HashMap;

use vstd::prelude::*;

use crate::levels::{
    add_spec, lemma_add_wf, lemma_lower_bound, lemma_lower_bound_unique, lemma_order_index,
    lemma_order_index_unique, lemma_remove_wf, lemma_set_quantity_wf, level_at, lower_bound,
    order_index, order_spec, remove_spec, set_quantity_spec, side_wf, sorted, total_quantity,
    Levels,
};
use crate::messages::{
    AddOrder, CombinationProduct, DeleteOrder, EquilibriumPrice, Executed, ExecutionWithPriceInfo,
    ProductInfo, TickSize, TradingStatusInfo,
};
use crate::side::Side;

verus! {

broadcast use vstd::std_specs::hash::group_hash_axioms;

/// The resting orders at one price, in arrival order.
pub struct PriceLevel {
    pub price: i64,
    pub orders: Vec<AddOrder>,
}

/// A price and the total quantity resting there.
#[derive(Debug, Clone, Copy, PartialEq, Eq, Structural, PartialOrd, Ord, Hash)]
pub struct PriceLevelView {
    pub price: i64,
    pub qty: i128,
}

pub open spec fn levels_of(v: Seq<PriceLevel>) -> Levels {
    Seq::new(v.len(), |i: int| (v[i].price, v[i].orders@))
}

pub open spec fn level_view(level: (i64, Seq<AddOrder>)) -> PriceLevelView {
    PriceLevelView { price: level.0, qty: total_quantity(level.1) as i128 }
}

/// The levels of `l` whose price lies in `low..=high`, in price order.
pub open spec fn levels_in_range(l: Levels, low: i64, high: i64) -> Seq<PriceLevelView>
    decreases l.len(),
{
    if l.len() == 0 {
        Seq::empty()
    } else {
        let r = levels_in_range(l.drop_last(), low, high);
        if low <= l.last().0 <= high {
            r.push(level_view(l.last()))
        } else {
            r
        }
    }
}

/// Why an order operation could not be carried out.
#[derive(Debug, Clone, Copy, PartialEq, Eq, Structural)]
pub enum BookError {
    /// No order with this id rests on that side.
    MissingOrder,
    /// An order with this id already rests on that side.
    DuplicateOrder,
    /// The execution is larger than the quantity resting.
    NegativeQuantity,
    /// The quantity after the execution would not fit in an `i64`.
    QuantityOverflow,
}

proof fn lemma_total_bound(s: Seq<AddOrder>)
    ensures
        -(s.len() as int) * 0x8000_0000_0000_0000 <= total_quantity(s) <= (s.len() as int)
            * 0x8000_0000_0000_0000,
    decreases s.len(),
{
    if s.len() > 0 {
        lemma_total_bound(s.drop_last());
    }
}

/// The sum of the quantities of `orders`.
fn sum_quantity(orders: &Vec<AddOrder>) -> (r: i128)
    ensures
        r == total_quantity(orders@),
{
    let mut acc: i128 = 0;
    let mut i: usize = 0;
    while i < orders.len()
        invariant
            i <= orders@.len(),
            acc == total_quantity(orders@.subrange(0, i as int)),
        decreases orders@.len() - i,
    {
        proof {
            let t = orders@.subrange(0, i + 1);
            assert(t.drop_last() =~= orders@.subrange(0, i as int));
            lemma_total_bound(t);
            assert((i + 1) * 0x8000_0000_0000_0000 <= 0x1_0000_0000_0000_0000int
                * 0x8000_0000_0000_0000) by (nonlinear_arith)
                requires
                    i + 1 <= 0x1_0000_0000_0000_0000int,
            ;
            assert(-((i + 1) * 0x8000_0000_0000_0000) >= -(0x1_0000_0000_0000_0000int
                * 0x8000_0000_0000_0000)) by (nonlinear_arith)
                requires
                    i + 1 <= 0x1_0000_0000_0000_0000int,
            ;
        }
        acc = acc + orders[i].quantity as i128;
        i = i + 1;
    }
    assert(orders@.subrange(0, i as int) =~= orders@);
    acc
}

/// One half of a book: price levels in increasing price, and a locator from order id to
/// the price the order rests at.
pub struct BookSide {
    side: Side,
    index: HashMap<i64, i64>,
    levels: Vec<PriceLevel>,
}

impl BookSide {
    /// The price levels, lowest price first.
    pub closed spec fn spec_levels(&self) -> Levels {
        levels_of(self.levels@)
    }

    /// The locator: the price of each resting order, by order id.
    pub closed spec fn locator(&self) -> Map<i64, i64> {
        self.index@
    }

    pub closed spec fn spec_side(&self) -> Side {
        self.side
    }

    pub open spec fn wf(&self) -> bool {
        side_wf(self.spec_levels(), self.locator(), self.spec_side())
    }

    /// The resting order `id`, if there is one.
    pub open spec fn spec_order(&self, id: i64) -> Option<AddOrder> {
        if self.locator().contains_key(id) {
            Some(order_spec(self.spec_levels(), self.locator()[id], id))
        } else {
            None
        }
    }

    pub fn new(side: Side) -> (r: BookSide)
        ensures
            r.wf(),
            r.spec_side() == side,
            r.spec_levels() == Seq::<(i64, Seq<AddOrder>)>::empty(),
            r.locator() == Map::<i64, i64>::empty(),
    {
        let r = BookSide { side, index: HashMap::new(), levels: Vec::new() };
        assert(r.spec_levels() =~= Seq::<(i64, Seq<AddOrder>)>::empty());
        r
    }

    /// Where the level of `price` is or would go.
    fn position(&self, price: i64) -> (k: usize)
        requires
            sorted(self.spec_levels()),
        ensures
            k == lower_bound(self.spec_levels(), price),
    {
        let ghost l = self.spec_levels();
        let mut lo: usize = 0;
        let mut hi: usize = self.levels.len();
        while lo < hi
            invariant
                l == self.spec_levels(),
                sorted(l),
                0 <= lo <= hi <= l.len(),
                forall|i: int| 0 <= i < lo ==> #[trigger] l[i].0 < price,
                forall|i: int| hi <= i < l.len() ==> #[trigger] l[i].0 >= price,
            decreases hi - lo,
        {
            let mid = lo + (hi - lo) / 2;
            if self.levels[mid].price < price {
                assert forall|i: int| 0 <= i < mid + 1 implies #[trigger] l[i].0 < price by {
                    if i < mid {
                        assert(l[i].0 < l[mid as int].0);
                    }
                }
                lo = mid + 1;
            } else {
                assert forall|i: int| mid <= i < l.len() implies #[trigger] l[i].0 >= price by {
                    if i > mid {
                        assert(l[mid as int].0 < l[i].0);
                    }
                }
                hi = mid;
            }
        }
        proof {
            lemma_lower_bound_unique(l, price, lo as int);
        }
        lo
    }

    /// Position of order `id` in `orders`.
    fn order_position(orders: &Vec<AddOrder>, id: i64) -> (j: usize)
        ensures
            j == order_index(orders@, id),
    {
        let mut j: usize = 0;
        while j < orders.len() && orders[j].order_id != id
            invariant
                j <= orders@.len(),
                forall|i: int| 0 <= i < j ==> (#[trigger] orders@[i]).order_id != id,
            decreases orders@.len() - j,
        {
            j = j + 1;
        }
        proof {
            lemma_order_index_unique(orders@, id, j as int);
        }
        j
    }

    /// Whether an order with id `id` rests here.
    pub fn contains(&self, id: i64) -> (r: bool)
        ensures
            r == self.locator().contains_key(id),
    {
        self.index.contains_key(&id)
    }

    /// Puts `a` at the back of the level of its price. Refused when its id already rests.
    pub fn insert(&mut self, a: AddOrder) -> (r: Result<(), BookError>)
        requires
            old(self).wf(),
            a.side == old(self).spec_side(),
        ensures
            final(self).wf(),
            final(self).spec_side() == old(self).spec_side(),
            match r {
                Ok(()) => {
                    &&& !old(self).locator().contains_key(a.order_id)
                    &&& final(self).spec_levels() == add_spec(old(self).spec_levels(), a)
                    &&& final(self).locator() == old(self).locator().insert(a.order_id, a.price)
                },
                Err(e) => {
                    &&& e == BookError::DuplicateOrder
                    &&& old(self).locator().contains_key(a.order_id)
                    &&& final(self).spec_levels() == old(self).spec_levels()
                    &&& final(self).locator() == old(self).locator()
                },
            },
    {
        if self.index.contains_key(&a.order_id) {
            return Err(BookError::DuplicateOrder);
        }
        let ghost l = self.spec_levels();
        proof {
            lemma_add_wf(l, self.index@, self.side, a);
            lemma_lower_bound(l, a.price);
        }
        self.index.insert(a.order_id, a.price);
        let k = self.position(a.price);
        if k < self.levels.len() && self.levels[k].price == a.price {
            let mut level = self.levels.remove(k);
            level.orders.push(a);
            self.levels.insert(k, level);
        } else {
            let mut orders: Vec<AddOrder> = Vec::new();
            orders.push(a);
            self.levels.insert(k, PriceLevel { price: a.price, orders });
        }
        assert(self.spec_levels() =~= add_spec(l, a));
        Ok(())
    }

    /// Takes out the level at `k` and order `id` from it, putting the level back unless it
    /// is left empty.
    fn take_order(&mut self, k: usize, id: i64) -> (r: AddOrder)
        requires
            0 <= k < old(self).spec_levels().len(),
            order_index(old(self).spec_levels()[k as int].1, id) < old(self).spec_levels()[k as int].1.len(),
        ensures
            final(self).side == old(self).side,
            final(self).index == old(self).index,
            r == old(self).spec_levels()[k as int].1[order_index(old(self).spec_levels()[k as int].1, id)],
            final(self).spec_levels() == (if old(self).spec_levels()[k as int].1.len() == 1 {
                old(self).spec_levels().remove(k as int)
            } else {
                old(self).spec_levels().update(
                    k as int,
                    (
                        old(self).spec_levels()[k as int].0,
                        old(self).spec_levels()[k as int].1.remove(
                            order_index(old(self).spec_levels()[k as int].1, id),
                        ),
                    ),
                )
            }),
    {
        let ghost l = self.spec_levels();
        let mut level = self.levels.remove(k);
        let j = BookSide::order_position(&level.orders, id);
        let o = level.orders.remove(j);
        if level.orders.len() > 0 {
            self.levels.insert(k, level);
            assert(self.spec_levels() =~= l.update(k as int, (l[k as int].0, l[k as int].1.remove(j as int))));
        } else {
            assert(self.spec_levels() =~= l.remove(k as int));
        }
        o
    }

    /// Takes out the resting order `id`; `None` when no such order rests here.
    pub fn remove(&mut self, id: i64) -> (r: Option<AddOrder>)
        requires
            old(self).wf(),
        ensures
            final(self).wf(),
            final(self).spec_side() == old(self).spec_side(),
            r == old(self).spec_order(id),
            match r {
                Some(o) => {
                    &&& final(self).spec_levels() == remove_spec(
                        old(self).spec_levels(),
                        old(self).locator()[id],
                        id,
                    )
                    &&& final(self).locator() == old(self).locator().remove(id)
                },
                None => {
                    &&& final(self).spec_levels() == old(self).spec_levels()
                    &&& final(self).locator() == old(self).locator()
                },
            },
    {
        let ghost l = self.spec_levels();
        let ghost loc = self.index@;
        let price = match self.index.remove(&id) {
            Some(p) => p,
            None => return None,
        };
        proof {
            lemma_remove_wf(l, loc, self.side, id);
        }
        let k = self.position(price);
        let o = self.take_order(k, id);
        Some(o)
    }

    /// Executes `qty` against the resting order `id` and returns the order as it stands
    /// after the execution. An order left with nothing goes, with its level if that is left
    /// empty. Refused, with nothing changed, when the order does not rest here or would be
    /// left below zero.
    pub fn execute(&mut self, id: i64, qty: i64) -> (r: Result<AddOrder, BookError>)
        requires
            old(self).wf(),
        ensures
            final(self).wf(),
            final(self).spec_side() == old(self).spec_side(),
            match old(self).spec_order(id) {
                None => r == Err::<AddOrder, BookError>(BookError::MissingOrder),
                Some(o) => {
                    let left = o.quantity - qty;
                    let l = old(self).spec_levels();
                    let p = old(self).locator()[id];
                    if left < 0 {
                        r == Err::<AddOrder, BookError>(BookError::NegativeQuantity)
                    } else if left > i64::MAX {
                        r == Err::<AddOrder, BookError>(BookError::QuantityOverflow)
                    } else {
                        &&& r == Ok::<AddOrder, BookError>(AddOrder { quantity: left as i64, ..o })
                        &&& left == 0 ==> final(self).spec_levels() == remove_spec(l, p, id)
                            && final(self).locator() == old(self).locator().remove(id)
                        &&& left > 0 ==> final(self).spec_levels() == set_quantity_spec(
                            l,
                            p,
                            id,
                            left as i64,
                        ) && final(self).locator() == old(self).locator()
                    }
                },
            },
            r is Err ==> final(self).spec_levels() == old(self).spec_levels()
                && final(self).locator() == old(self).locator(),
    {
        let ghost l = self.spec_levels();
        let ghost loc = self.index@;
        let price = match self.index.get(&id) {
            Some(p) => *p,
            None => return Err(BookError::MissingOrder),
        };
        proof {
            lemma_lower_bound(l, price);
            lemma_order_index(l[lower_bound(l, price)].1, id);
        }
        let k = self.position(price);
        let j = BookSide::order_position(&self.levels[k].orders, id);
        let o = self.levels[k].orders[j];
        let left = o.quantity as i128 - qty as i128;
        if left < 0 {
            return Err(BookError::NegativeQuantity);
        }
        if left > i64::MAX as i128 {
            return Err(BookError::QuantityOverflow);
        }
        let after = AddOrder { quantity: left as i64, ..o };
        if left == 0 {
            proof {
                lemma_remove_wf(l, loc, self.side, id);
            }
            self.index.remove(&id);
            let _ = self.take_order(k, id);
        } else {
            proof {
                lemma_set_quantity_wf(l, loc, self.side, id, left as i64);
            }
            let mut level = self.levels.remove(k);
            level.orders.set(j, after);
            self.levels.insert(k, level);
            assert(self.spec_levels() =~= set_quantity_spec(l, price, id, left as i64));
        }
        Ok(after)
    }

    /// The resting order `id`.
    pub fn order(&self, id: i64) -> (r: Option<AddOrder>)
        requires
            self.wf(),
        ensures
            r == self.spec_order(id),
    {
        let ghost l = self.spec_levels();
        let price = match self.index.get(&id) {
            Some(p) => *p,
            None => return None,
        };
        proof {
            lemma_lower_bound(l, price);
        }
        let k = self.position(price);
        let j = BookSide::order_position(&self.levels[k].orders, id);
        Some(self.levels[k].orders[j])
    }

    /// The level at `price` with its total quantity.
    pub fn level(&self, price: i64) -> (r: Option<PriceLevelView>)
        requires
            self.wf(),
        ensures
            r == (match level_at(self.spec_levels(), price) {
                Some(s) => Some(level_view((price, s))),
                None => None::<PriceLevelView>,
            }),
    {
        let ghost l = self.spec_levels();
        proof {
            lemma_lower_bound(l, price);
        }
        let k = self.position(price);
        if k < self.levels.len() && self.levels[k].price == price {
            let qty = sum_quantity(&self.levels[k].orders);
            Some(PriceLevelView { price, qty })
        } else {
            None
        }
    }

    /// The lowest-priced level.
    pub fn lowest(&self) -> (r: Option<PriceLevelView>)
        ensures
            r == (if self.spec_levels().len() == 0 {
                None::<PriceLevelView>
            } else {
                Some(level_view(self.spec_levels()[0]))
            }),
    {
        if self.levels.len() == 0 {
            None
        } else {
            let qty = sum_quantity(&self.levels[0].orders);
            Some(PriceLevelView { price: self.levels[0].price, qty })
        }
    }

    /// The highest-priced level.
    pub fn highest(&self) -> (r: Option<PriceLevelView>)
        ensures
            r == (if self.spec_levels().len() == 0 {
                None::<PriceLevelView>
            } else {
                Some(level_view(self.spec_levels().last()))
            }),
    {
        let n = self.levels.len();
        if n == 0 {
            None
        } else {
            let qty = sum_quantity(&self.levels[n - 1].orders);
            Some(PriceLevelView { price: self.levels[n - 1].price, qty })
        }
    }

    /// The levels priced in `low..=high`, lowest first.
    pub fn range(&self, low: i64, high: i64) -> (r: Vec<PriceLevelView>)
        ensures
            r@ == levels_in_range(self.spec_levels(), low, high),
    {
        let ghost l = self.spec_levels();
        let mut r: Vec<PriceLevelView> = Vec::new();
        let mut i: usize = 0;
        assert(l.subrange(0, 0) =~= Seq::<(i64, Seq<AddOrder>)>::empty());
        while i < self.levels.len()
            invariant
                l == self.spec_levels(),
                i <= l.len(),
                r@ == levels_in_range(l.subrange(0, i as int), low, high),
            decreases l.len() - i,
        {
            assert(l.subrange(0, i + 1).drop_last() =~= l.subrange(0, i as int));
            let price = self.levels[i].price;
            if low <= price && price <= high {
                let qty = sum_quantity(&self.levels[i].orders);
                r.push(PriceLevelView { price, qty });
            }
            i = i + 1;
        }
        assert(l.subrange(0, i as int) =~= l);
        r
    }
}

/// The order book of one instrument: its description and reference data, and the
/// resting orders of both sides.
pub struct OrderBook {
    pub product_info: ProductInfo,
    pub combination_product_info: Vec<CombinationProduct>,
    pub tick_info: Vec<TickSize>,
    pub equibrium_price: Vec<EquilibriumPrice>,
    pub trading_status: Vec<TradingStatusInfo>,
    /// Resting buy orders.
    pub bid: BookSide,
    /// Resting sell orders.
    pub ask: BookSide,
}

/// Everything but the resting orders is the same in `a` and `b`.
pub open spec fn same_reference_data(a: &OrderBook, b: &OrderBook) -> bool {
    &&& a.product_info == b.product_info
    &&& a.combination_product_info@ == b.combination_product_info@
    &&& a.tick_info@ == b.tick_info@
    &&& a.equibrium_price@ == b.equibrium_price@
    &&& a.trading_status@ == b.trading_status@
}

/// The resting orders of `a` and `b` are the same.
pub open spec fn same_orders(a: &OrderBook, b: &OrderBook) -> bool {
    &&& a.levels(Side::Buy) == b.levels(Side::Buy)
    &&& a.levels(Side::Sell) == b.levels(Side::Sell)
    &&& a.locator(Side::Buy) == b.locator(Side::Buy)
    &&& a.locator(Side::Sell) == b.locator(Side::Sell)
}

/// The other side.
pub open spec fn opposite(side: Side) -> Side {
    match side {
        Side::Buy => Side::Sell,
        Side::Sell => Side::Buy,
    }
}

impl OrderBook {
    pub open spec fn half(&self, side: Side) -> BookSide {
        match side {
            Side::Buy => self.bid,
            Side::Sell => self.ask,
        }
    }

    /// The price levels of one side, lowest price first. Buy orders make the bids, sell
    /// orders the asks.
    pub open spec fn levels(&self, side: Side) -> Levels {
        self.half(side).spec_levels()
    }

    /// The locator of one side: the price of each resting order, by order id.
    pub open spec fn locator(&self, side: Side) -> Map<i64, i64> {
        self.half(side).locator()
    }

    /// The resting order `id` on `side`.
    pub open spec fn spec_order(&self, side: Side, id: i64) -> Option<AddOrder> {
        self.half(side).spec_order(id)
    }

    /// Both sides are consistent with their locators.
    pub open spec fn wf(&self) -> bool {
        &&& self.half(Side::Buy).wf()
        &&& self.half(Side::Sell).wf()
        &&& self.half(Side::Buy).spec_side() == Side::Buy
        &&& self.half(Side::Sell).spec_side() == Side::Sell
    }

    /// Half `side` changed as `changed` says and the other half did not change.
    pub open spec fn only_side_changed(&self, old: &OrderBook, side: Side) -> bool {
        &&& self.levels(opposite(side)) == old.levels(opposite(side))
        &&& self.locator(opposite(side)) == old.locator(opposite(side))
        &&& same_reference_data(self, old)
    }

    /// A new book for the instrument that `r` describes, with no orders.
    pub fn new(r: ProductInfo) -> (b: Self)
        ensures
            b.wf(),
            b.product_info == r,
            b.combination_product_info@.len() == 0,
            b.tick_info@.len() == 0,
            b.equibrium_price@.len() == 0,
            b.trading_status@.len() == 0,
            b.levels(Side::Buy).len() == 0,
            b.levels(Side::Sell).len() == 0,
            b.locator(Side::Buy) == Map::<i64, i64>::empty(),
            b.locator(Side::Sell) == Map::<i64, i64>::empty(),
    {
        OrderBook {
            product_info: r,
            combination_product_info: Vec::new(),
            tick_info: Vec::new(),
            equibrium_price: Vec::new(),
            trading_status: Vec::new(),
            bid: BookSide::new(Side::Buy),
            ask: BookSide::new(Side::Sell),
        }
    }

    /// Records one leg of this combination product.
    pub fn push_combination_orderbook(&mut self, m: CombinationProduct)
        ensures
            final(self).combination_product_info@ == old(self).combination_product_info@.push(m),
            final(self).product_info == old(self).product_info,
            final(self).tick_info@ == old(self).tick_info@,
            final(self).equibrium_price@ == old(self).equibrium_price@,
            final(self).trading_status@ == old(self).trading_status@,
            final(self).half(Side::Buy) == old(self).half(Side::Buy),
            final(self).half(Side::Sell) == old(self).half(Side::Sell),
    {
        self.combination_product_info.push(m);
    }

    /// Records one band of the tick table.
    pub fn append_l(&mut self, l: TickSize)
        ensures
            final(self).tick_info@ == old(self).tick_info@.push(l),
            final(self).product_info == old(self).product_info,
            final(self).combination_product_info@ == old(self).combination_product_info@,
            final(self).equibrium_price@ == old(self).equibrium_price@,
            final(self).trading_status@ == old(self).trading_status@,
            final(self).half(Side::Buy) == old(self).half(Side::Buy),
            final(self).half(Side::Sell) == old(self).half(Side::Sell),
    {
        self.tick_info.push(l);
    }

    /// Records the latest equilibrium price.
    pub fn push_last_equilibrium_price(&mut self, z: EquilibriumPrice)
        ensures
            final(self).equibrium_price@ == old(self).equibrium_price@.push(z),
            final(self).product_info == old(self).product_info,
            final(self).combination_product_info@ == old(self).combination_product_info@,
            final(self).tick_info@ == old(self).tick_info@,
            final(self).trading_status@ == old(self).trading_status@,
            final(self).half(Side::Buy) == old(self).half(Side::Buy),
            final(self).half(Side::Sell) == old(self).half(Side::Sell),
    {
        self.equibrium_price.push(z);
    }

    /// Records a change of trading state.
    pub fn push_trading_status(&mut self, s: TradingStatusInfo)
        ensures
            final(self).trading_status@ == old(self).trading_status@.push(s),
            final(self).product_info == old(self).product_info,
            final(self).combination_product_info@ == old(self).combination_product_info@,
            final(self).tick_info@ == old(self).tick_info@,
            final(self).equibrium_price@ == old(self).equibrium_price@,
            final(self).half(Side::Buy) == old(self).half(Side::Buy),
            final(self).half(Side::Sell) == old(self).half(Side::Sell),
    {
        self.trading_status.push(s);
    }

    /// The instrument's id.
    pub fn order_book_id(&self) -> (r: i64)
        ensures
            r == self.product_info.order_book_id,
    {
        self.product_info.order_book_id
    }

    /// The resting order `order_id` on `side`.
    pub fn order(&self, order_id: &i64, side: &Side) -> (r: Option<AddOrder>)
        requires
            self.wf(),
        ensures
            r == self.spec_order(*side, *order_id),
    {
        match side {
            Side::Buy => self.bid.order(*order_id),
            Side::Sell => self.ask.order(*order_id),
        }
    }

    /// The level at `price` on `side`, with its total quantity.
    pub fn qty_at_price(&self, price: i64, side: Side) -> (r: Option<PriceLevelView>)
        requires
            self.wf(),
        ensures
            r == (match level_at(self.levels(side), price) {
                Some(s) => Some(level_view((price, s))),
                None => None::<PriceLevelView>,
            }),
    {
        match side {
            Side::Buy => self.bid.level(price),
            Side::Sell => self.ask.level(price),
        }
    }

    /// The total quantity at `price` on `side`.
    pub fn qty(&self, price: i64, side: Side) -> (r: Option<i128>)
        requires
            self.wf(),
        ensures
            r == (match level_at(self.levels(side), price) {
                Some(s) => Some(total_quantity(s) as i128),
                None => None::<i128>,
            }),
    {
        match self.qty_at_price(price, side) {
            Some(v) => Some(v.qty),
            None => None,
        }
    }

    /// The levels of `side` priced in `low..=high`, lowest first.
    pub fn qty_at_price_range(&self, low: i64, high: i64, side: Side) -> (r: Vec<PriceLevelView>)
        ensures
            r@ == levels_in_range(self.levels(side), low, high),
    {
        match side {
            Side::Buy => self.bid.range(low, high),
            Side::Sell => self.ask.range(low, high),
        }
    }

    /// The highest bid with the total quantity there.
    pub fn best_bid(&self) -> (r: Option<PriceLevelView>)
        ensures
            r == (if self.levels(Side::Buy).len() == 0 {
                None::<PriceLevelView>
            } else {
                Some(level_view(self.levels(Side::Buy).last()))
            }),
    {
        self.bid.highest()
    }

    /// The lowest ask with the total quantity there.
    pub fn best_ask(&self) -> (r: Option<PriceLevelView>)
        ensures
            r == (if self.levels(Side::Sell).len() == 0 {
                None::<PriceLevelView>
            } else {
                Some(level_view(self.levels(Side::Sell)[0]))
            }),
    {
        self.ask.lowest()
    }

    /// Puts a new order on its side of the book. Refused when an order with the same id
    /// already rests on that side.
    pub fn add(&mut self, a: AddOrder) -> (r: Result<(), BookError>)
        requires
            old(self).wf(),
        ensures
            final(self).wf(),
            final(self).only_side_changed(old(self), a.side),
            match r {
                Ok(()) => {
                    &&& !old(self).locator(a.side).contains_key(a.order_id)
                    &&& final(self).levels(a.side) == add_spec(old(self).levels(a.side), a)
                    &&& final(self).locator(a.side) == old(self).locator(a.side).insert(
                        a.order_id,
                        a.price,
                    )
                },
                Err(e) => {
                    &&& e == BookError::DuplicateOrder
                    &&& old(self).locator(a.side).contains_key(a.order_id)
                    &&& same_orders(final(self), old(self))
                },
            },
    {
        match a.side {
            Side::Buy => self.bid.insert(a),
            Side::Sell => self.ask.insert(a),
        }
    }

    /// Takes the order that `d` names off the book and returns it.
    pub fn delete(&mut self, d: &DeleteOrder) -> (r: Result<AddOrder, BookError>)
        requires
            old(self).wf(),
        ensures
            final(self).wf(),
            final(self).only_side_changed(old(self), d.side),
            match old(self).spec_order(d.side, d.order_id) {
                Some(o) => {
                    &&& r == Ok::<AddOrder, BookError>(o)
                    &&& final(self).levels(d.side) == remove_spec(
                        old(self).levels(d.side),
                        old(self).locator(d.side)[d.order_id],
                        d.order_id,
                    )
                    &&& final(self).locator(d.side) == old(self).locator(d.side).remove(d.order_id)
                },
                None => {
                    &&& r == Err::<AddOrder, BookError>(BookError::MissingOrder)
                    &&& same_orders(final(self), old(self))
                },
            },
    {
        let r = match d.side {
            Side::Buy => self.bid.remove(d.order_id),
            Side::Sell => self.ask.remove(d.order_id),
        };
        match r {
            Some(o) => Ok(o),
            None => Err(BookError::MissingOrder),
        }
    }

    /// Executes `qty` against the resting order `order_id` on `side`.
    fn execute(&mut self, order_id: i64, side: Side, qty: i64) -> (r: Result<AddOrder, BookError>)
        requires
            old(self).wf(),
        ensures
            final(self).wf(),
            final(self).only_side_changed(old(self), side),
            execution_outcome(old(self), final(self), side, order_id, qty, r),
    {
        match side {
            Side::Buy => self.bid.execute(order_id, qty),
            Side::Sell => self.ask.execute(order_id, qty),
        }
    }

    /// Handles an execution (tag `E`): reduces the resting order by the executed quantity
    /// and returns a copy of it as it stands afterwards. An order reduced to nothing leaves
    /// the book, and so does its level if no other order rests there.
    pub fn executed(&mut self, e: &Executed) -> (r: Result<AddOrder, BookError>)
        requires
            old(self).wf(),
        ensures
            final(self).wf(),
            final(self).only_side_changed(old(self), e.side),
            execution_outcome(old(self), final(self), e.side, e.order_id, e.executed_quantity, r),
    {
        self.execute(e.order_id, e.side, e.executed_quantity)
    }

    /// Handles an execution with price information (tag `C`) as `executed` does.
    pub fn c_executed(&mut self, c: &ExecutionWithPriceInfo) -> (r: Result<AddOrder, BookError>)
        requires
            old(self).wf(),
        ensures
            final(self).wf(),
            final(self).only_side_changed(old(self), c.side),
            execution_outcome(old(self), final(self), c.side, c.order_id, c.executed_quantity, r),
    {
        self.execute(c.order_id, c.side, c.executed_quantity)
    }
}

/// What executing `qty` against order `id` on `side` of `old` returns and leaves in `new`:
/// the order with its reduced quantity, removed when that reaches zero; an error, with
/// the orders unchanged, when the order is missing or the quantity would go below zero.
pub open spec fn execution_outcome(
    old: &OrderBook,
    new: &OrderBook,
    side: Side,
    id: i64,
    qty: i64,
    r: Result<AddOrder, BookError>,
) -> bool {
    &&& match old.spec_order(side, id) {
        None => r == Err::<AddOrder, BookError>(BookError::MissingOrder),
        Some(o) => {
            let left = o.quantity - qty;
            let l = old.levels(side);
            let p = old.locator(side)[id];
            if left < 0 {
                r == Err::<AddOrder, BookError>(BookError::NegativeQuantity)
            } else if left > i64::MAX {
                r == Err::<AddOrder, BookError>(BookError::QuantityOverflow)
            } else {
                &&& r == Ok::<AddOrder, BookError>(AddOrder { quantity: left as i64, ..o })
                &&& left == 0 ==> new.levels(side) == remove_spec(l, p, id) && new.locator(side)
                    == old.locator(side).remove(id)
                &&& left > 0 ==> new.levels(side) == set_quantity_spec(l, p, id, left as i64)
                    && new.locator(side) == old.locator(side)
            }
        },
    }
    &&& r is Err ==> same_orders(new, old)
}

} // verus!
