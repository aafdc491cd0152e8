use std::collections::HashMap;

use vstd::prelude::*;

use crate::messages::{AddOrder, DeleteOrder, Executed, ExecutionWithPriceInfo, LegPrice, UniqueId};
use crate::side::Side;

verus! {

broadcast use vstd::std_specs::hash::group_hash_axioms;

/// The new orders of one batch.
#[derive(Clone)]
pub struct Created {
    pub msgs: Vec<AddOrder>,
    /// Whether the batch also held executions.
    pub is_fas: bool,
    /// The quantity that the batch's executions and combination executions traded.
    pub executed_qty: i128,
}

/// An execution against a resting order, with the order as it stood afterwards.
#[derive(Clone)]
pub struct OrderExecution {
    pub matched_order_after_execution: AddOrder,
    pub msg: Executed,
}

/// The executions with price information of one batch that share a combination group,
/// with the orders they matched and the leg prices reported for them.
#[derive(Debug, Clone)]
pub struct CTagWithCorrespondingPTag {
    pub combo_group_id: i64,
    pub c_tag: Vec<ExecutionWithPriceInfo>,
    pub matched_add_order: Vec<AddOrder>,
    pub p_tags: Vec<LegPrice>,
}

/// The total executed quantity of the buy-side records of `s`.
pub open spec fn buy_quantity(s: Seq<ExecutionWithPriceInfo>) -> int
    decreases s.len(),
{
    if s.len() == 0 {
        0
    } else {
        buy_quantity(s.drop_last()) + if s.last().side == Side::Buy {
            s.last().executed_quantity as int
        } else {
            0
        }
    }
}

/// The total executed quantity of the sell-side records of `s`.
pub open spec fn sell_quantity(s: Seq<ExecutionWithPriceInfo>) -> int
    decreases s.len(),
{
    if s.len() == 0 {
        0
    } else {
        sell_quantity(s.drop_last()) + if s.last().side == Side::Sell {
            s.last().executed_quantity as int
        } else {
            0
        }
    }
}

/// The quantity that a group of records traded: a lone record's own quantity; for several,
/// the quantity of the buy-side records (the sell side mirrors it).
pub open spec fn group_quantity(s: Seq<ExecutionWithPriceInfo>) -> int {
    if s.len() > 1 {
        buy_quantity(s)
    } else {
        s[0].executed_quantity as int
    }
}

/// The executed quantity of `s`, summed by instrument.
pub open spec fn quantity_by_book(s: Seq<ExecutionWithPriceInfo>) -> Map<i64, int>
    decreases s.len(),
{
    if s.len() == 0 {
        Map::empty()
    } else {
        let m = quantity_by_book(s.drop_last());
        let id = s.last().order_book_id;
        let before = if m.contains_key(id) {
            m[id]
        } else {
            0
        };
        m.insert(id, before + s.last().executed_quantity)
    }
}

proof fn lemma_side_bounds(s: Seq<ExecutionWithPriceInfo>)
    ensures
        -(s.len() as int) * 0x8000_0000_0000_0000 <= buy_quantity(s) <= (s.len() as int)
            * 0x8000_0000_0000_0000,
        -(s.len() as int) * 0x8000_0000_0000_0000 <= sell_quantity(s) <= (s.len() as int)
            * 0x8000_0000_0000_0000,
    decreases s.len(),
{
    if s.len() > 0 {
        lemma_side_bounds(s.drop_last());
    }
}

proof fn lemma_by_book_bound(s: Seq<ExecutionWithPriceInfo>)
    ensures
        forall|k: i64| #[trigger]
            quantity_by_book(s).contains_key(k) ==> -(s.len() as int) * 0x8000_0000_0000_0000
                <= quantity_by_book(s)[k] <= (s.len() as int) * 0x8000_0000_0000_0000,
    decreases s.len(),
{
    if s.len() > 0 {
        let t = s.drop_last();
        lemma_by_book_bound(t);
        let m = quantity_by_book(t);
        let id = s.last().order_book_id;
        assert forall|k: i64| #[trigger] quantity_by_book(s).contains_key(k) implies -(
        s.len() as int) * 0x8000_0000_0000_0000 <= quantity_by_book(s)[k] <= (s.len() as int)
            * 0x8000_0000_0000_0000 by {
            if k != id {
                assert(m.contains_key(k));
            } else if m.contains_key(k) {
                assert(-(t.len() as int) * 0x8000_0000_0000_0000 <= m[k] <= (t.len() as int)
                    * 0x8000_0000_0000_0000);
            }
        }
    }
}

proof fn lemma_len_bound(n: int)
    requires
        0 <= n <= usize::MAX,
    ensures
        n * 0x8000_0000_0000_0000 < i128::MAX,
        -(n * 0x8000_0000_0000_0000) > i128::MIN,
{
    assert(n * 0x8000_0000_0000_0000 <= usize::MAX * 0x8000_0000_0000_0000) by (nonlinear_arith)
        requires
            n <= usize::MAX,
    ;
}

impl CTagWithCorrespondingPTag {
    /// The instrument of the group's first record.
    pub fn order_book_id(&self) -> (r: i64)
        requires
            self.c_tag@.len() > 0,
        ensures
            r == self.c_tag@[0].order_book_id,
    {
        self.c_tag[0].order_book_id
    }

    /// The executed quantity of the group's records, summed by instrument.
    pub fn qty_by_order_book_id(&self) -> (r: HashMap<i64, i128>)
        ensures
            r@.dom() == quantity_by_book(self.c_tag@).dom(),
            forall|k: i64| #[trigger]
                r@.contains_key(k) ==> r@[k] as int == quantity_by_book(self.c_tag@)[k],
    {
        let mut map: HashMap<i64, i128> = HashMap::new();
        let mut i: usize = 0;
        let ghost s = self.c_tag@;
        while i < self.c_tag.len()
            invariant
                s == self.c_tag@,
                i <= s.len(),
                map@.dom() == quantity_by_book(s.subrange(0, i as int)).dom(),
                forall|k: i64| #[trigger]
                    map@.contains_key(k) ==> map@[k] as int == quantity_by_book(
                        s.subrange(0, i as int),
                    )[k],
            decreases s.len() - i,
        {
            let ghost t = s.subrange(0, i + 1);
            assert(t.drop_last() =~= s.subrange(0, i as int));
            let c = &self.c_tag[i];
            proof {
                lemma_by_book_bound(t);
                lemma_len_bound(i + 1);
            }
            let before: i128 = match map.get(&c.order_book_id) {
                Some(q) => *q,
                None => 0,
            };
            proof {
                lemma_by_book_bound(s.subrange(0, i as int));
                lemma_len_bound(i as int);
            }
            map.insert(c.order_book_id, before + c.executed_quantity as i128);
            i = i + 1;
            assert(map@.dom() =~= quantity_by_book(s.subrange(0, i as int)).dom());
        }
        assert(s.subrange(0, i as int) =~= s);
        map
    }

    /// The quantity that the group traded: the lone record's quantity, or for several
    /// records the quantity of the buy-side ones.
    pub fn executed_quantity(&self) -> (r: i128)
        requires
            self.c_tag@.len() > 0,
        ensures
            r == group_quantity(self.c_tag@),
    {
        if self.c_tag.len() > 1 {
            let (buy, _sell) = self.side_totals();
            buy
        } else {
            self.c_tag[0].executed_quantity as i128
        }
    }

    /// The total executed quantity of the buy-side and of the sell-side records.
    pub fn side_totals(&self) -> (r: (i128, i128))
        ensures
            r.0 == buy_quantity(self.c_tag@),
            r.1 == sell_quantity(self.c_tag@),
    {
        let ghost s = self.c_tag@;
        let mut buy: i128 = 0;
        let mut sell: i128 = 0;
        let mut i: usize = 0;
        while i < self.c_tag.len()
            invariant
                s == self.c_tag@,
                i <= s.len(),
                buy == buy_quantity(s.subrange(0, i as int)),
                sell == sell_quantity(s.subrange(0, i as int)),
            decreases s.len() - i,
        {
            let ghost t = s.subrange(0, i + 1);
            assert(t.drop_last() =~= s.subrange(0, i as int));
            proof {
                lemma_side_bounds(t);
                lemma_len_bound(i + 1);
            }
            let c = &self.c_tag[i];
            if c.side == Side::Buy {
                buy = buy + c.executed_quantity as i128;
            } else {
                sell = sell + c.executed_quantity as i128;
            }
            i = i + 1;
        }
        assert(s.subrange(0, i as int) =~= s);
        (buy, sell)
    }

    /// Whether the records of a group of several balance: as much bought as sold. A lone
    /// record is balanced.
    pub fn is_balanced(&self) -> (r: bool)
        ensures
            r == (self.c_tag@.len() <= 1 || buy_quantity(self.c_tag@) == sell_quantity(
                self.c_tag@,
            )),
    {
        let (buy, sell) = self.side_totals();
        self.c_tag.len() <= 1 || buy == sell
    }

    /// Whether the group's first record traded at a cross.
    pub fn occured_at_cross(&self) -> (r: bool)
        requires
            self.c_tag@.len() > 0,
        ensures
            r == self.c_tag@[0].occurred_at_cross,
    {
        self.c_tag[0].occurred_at_cross
    }
}

/// Two buy-side records that share a combination group make one group that traded the sum
/// of their quantities.
pub proof fn law_combo_fusion(a: ExecutionWithPriceInfo, b: ExecutionWithPriceInfo)
    requires
        a.side == Side::Buy,
        b.side == Side::Buy,
    ensures
        group_quantity(seq![a, b]) == a.executed_quantity + b.executed_quantity,
{
    let s = seq![a, b];
    assert(s.drop_last() =~= seq![a]);
    assert(seq![a].drop_last() =~= Seq::<ExecutionWithPriceInfo>::empty());
    assert(buy_quantity(Seq::<ExecutionWithPriceInfo>::empty()) == 0);
    assert(buy_quantity(seq![a]) == a.executed_quantity);
    assert(buy_quantity(s) == a.executed_quantity + b.executed_quantity);
}

/// A deleted order, as it rested, with the deletion that removed it.
#[derive(Debug, Clone)]
pub struct OrderDeletion {
    pub deleted_order: AddOrder,
    pub msg: DeleteOrder,
}

/// A deletion and a new order for the same order in one batch: an amendment.
#[derive(Clone, Debug)]
pub struct ModifiedOrder {
    pub id: UniqueId,
    /// The deletion.
    pub delete_msg: DeleteOrder,
    /// The new order.
    pub modify_msg: AddOrder,
    /// The order that the deletion took off the book.
    pub previous_add_order: AddOrder,
    pub modify_type: ModifyType,
}

/// How an amendment changed an order.
#[derive(Debug, Clone, Copy, PartialEq, Eq, Structural, PartialOrd, Ord)]
pub enum ModifyType {
    ReduceQty,
    PriceChange,
    /// Both the quantity and the price changed.
    Both,
    /// Neither the quantity nor the price changed.
    Neither,
}

/// How the new order `new` differs from the order `previous` that it replaces.
pub open spec fn modify_type_of(new: AddOrder, previous: AddOrder) -> ModifyType {
    if new.quantity == previous.quantity && new.price == previous.price {
        ModifyType::Neither
    } else if new.price == previous.price {
        ModifyType::ReduceQty
    } else if new.quantity == previous.quantity {
        ModifyType::PriceChange
    } else {
        ModifyType::Both
    }
}

impl ModifyType {
    /// Classifies the amendment of `previous` into `new`.
    pub fn classify(new: &AddOrder, previous: &AddOrder) -> (r: ModifyType)
        ensures
            r == modify_type_of(*new, *previous),
    {
        if new.quantity == previous.quantity && new.price == previous.price {
            ModifyType::Neither
        } else if new.price == previous.price {
            ModifyType::ReduceQty
        } else if new.quantity == previous.quantity {
            ModifyType::PriceChange
        } else {
            ModifyType::Both
        }
    }
}

} // verus!
