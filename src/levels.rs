use vstd::prelude::*;

use crate::messages::AddOrder;
use crate::side::Side;

verus! {

/// The price levels of one half of a book, as values: each level is its price and its
/// resting orders in arrival order.
pub type Levels = Seq<(i64, Seq<AddOrder>)>;

/// Levels strictly increase in price.
pub open spec fn sorted(l: Levels) -> bool {
    forall|i: int, j: int| 0 <= i < j < l.len() ==> #[trigger] l[i].0 < #[trigger] l[j].0
}

/// The number of leading levels priced below `p`: in sorted levels, where `p` belongs.
pub open spec fn lower_bound(l: Levels, p: i64) -> int
    decreases l.len(),
{
    if l.len() == 0 {
        0
    } else if l[0].0 < p {
        1 + lower_bound(l.drop_first(), p)
    } else {
        0
    }
}

/// The position of the first order with id `id` in `s`, or `s.len()` when none has it.
pub open spec fn order_index(s: Seq<AddOrder>, id: i64) -> int
    decreases s.len(),
{
    if s.len() == 0 {
        0
    } else if s[0].order_id == id {
        0
    } else {
        1 + order_index(s.drop_first(), id)
    }
}

/// The orders resting at price `p`, if a level has that price.
pub open spec fn level_at(l: Levels, p: i64) -> Option<Seq<AddOrder>> {
    let k = lower_bound(l, p);
    if 0 <= k < l.len() && l[k].0 == p {
        Some(l[k].1)
    } else {
        None
    }
}

/// The levels after `a` joins them: at the back of the level of its price, or as a new
/// level in price order.
pub open spec fn add_spec(l: Levels, a: AddOrder) -> Levels {
    let k = lower_bound(l, a.price);
    if 0 <= k < l.len() && l[k].0 == a.price {
        l.update(k, (a.price, l[k].1.push(a)))
    } else {
        l.insert(k, (a.price, seq![a]))
    }
}

/// The levels after the order `id` resting at price `p` leaves them; a level left without
/// orders goes too.
pub open spec fn remove_spec(l: Levels, p: i64, id: i64) -> Levels {
    let k = lower_bound(l, p);
    let j = order_index(l[k].1, id);
    if l[k].1.len() == 1 {
        l.remove(k)
    } else {
        l.update(k, (l[k].0, l[k].1.remove(j)))
    }
}

/// The order `id` resting at price `p`.
pub open spec fn order_spec(l: Levels, p: i64, id: i64) -> AddOrder {
    let k = lower_bound(l, p);
    l[k].1[order_index(l[k].1, id)]
}

/// The levels after the order `id` resting at price `p` is left with quantity `q`.
pub open spec fn set_quantity_spec(l: Levels, p: i64, id: i64, q: i64) -> Levels {
    let k = lower_bound(l, p);
    let j = order_index(l[k].1, id);
    l.update(k, (l[k].0, l[k].1.update(j, AddOrder { quantity: q, ..l[k].1[j] })))
}

/// The sum of the quantities of `s`.
pub open spec fn total_quantity(s: Seq<AddOrder>) -> int
    decreases s.len(),
{
    if s.len() == 0 {
        0
    } else {
        total_quantity(s.drop_last()) + s.last().quantity
    }
}

/// One half of a book is consistent with its locator `loc` (order id to price): levels
/// are sorted and never empty, each order sits at its level's price on side `side`, the
/// locator knows exactly the resting orders and their prices, and no order id appears
/// twice in a level.
pub open spec fn side_wf(l: Levels, loc: Map<i64, i64>, side: Side) -> bool {
    &&& sorted(l)
    &&& forall|k: int| 0 <= k < l.len() ==> #[trigger] l[k].1.len() > 0
    &&& forall|k: int, j: int|
        0 <= k < l.len() && 0 <= j < l[k].1.len() ==> {
            &&& (#[trigger] l[k].1[j]).price == l[k].0
            &&& l[k].1[j].side == side
            &&& loc.contains_key(l[k].1[j].order_id)
            &&& loc[l[k].1[j].order_id] == l[k].0
        }
    &&& forall|id: i64| #[trigger]
        loc.contains_key(id) ==> {
            let k = lower_bound(l, loc[id]);
            &&& 0 <= k < l.len()
            &&& l[k].0 == loc[id]
            &&& order_index(l[k].1, id) < l[k].1.len()
        }
    &&& forall|k: int, i: int, j: int|
        0 <= k < l.len() && 0 <= i < j < l[k].1.len() ==> (#[trigger] l[k].1[i]).order_id
            != (#[trigger] l[k].1[j]).order_id
}

pub proof fn lemma_lower_bound(l: Levels, p: i64)
    requires
        sorted(l),
    ensures
        0 <= lower_bound(l, p) <= l.len(),
        forall|i: int| 0 <= i < lower_bound(l, p) ==> #[trigger] l[i].0 < p,
        forall|i: int| lower_bound(l, p) <= i < l.len() ==> #[trigger] l[i].0 >= p,
    decreases l.len(),
{
    if l.len() > 0 {
        let t = l.drop_first();
        assert(sorted(t)) by {
            assert forall|i: int, j: int| 0 <= i < j < t.len() implies #[trigger] t[i].0
                < #[trigger] t[j].0 by {
                assert(t[i] == l[i + 1] && t[j] == l[j + 1]);
            }
        }
        lemma_lower_bound(t, p);
        if l[0].0 < p {
            assert forall|i: int| 0 <= i < lower_bound(l, p) implies #[trigger] l[i].0 < p by {
                if i > 0 {
                    assert(l[i] == t[i - 1]);
                }
            }
            assert forall|i: int| lower_bound(l, p) <= i < l.len() implies #[trigger] l[i].0
                >= p by {
                assert(l[i] == t[i - 1]);
            }
        } else {
            assert forall|i: int| 0 <= i < l.len() implies #[trigger] l[i].0 >= p by {
                if i > 0 {
                    assert(l[0].0 < l[i].0);
                }
            }
        }
    }
}

/// `lower_bound` is the one position with lower prices before it and the rest after.
pub proof fn lemma_lower_bound_unique(l: Levels, p: i64, k: int)
    requires
        0 <= k <= l.len(),
        forall|i: int| 0 <= i < k ==> #[trigger] l[i].0 < p,
        forall|i: int| k <= i < l.len() ==> #[trigger] l[i].0 >= p,
    ensures
        lower_bound(l, p) == k,
    decreases l.len(),
{
    if l.len() > 0 {
        if k > 0 {
            let t = l.drop_first();
            assert forall|i: int| 0 <= i < k - 1 implies #[trigger] t[i].0 < p by {
                assert(t[i] == l[i + 1]);
            }
            assert forall|i: int| k - 1 <= i < t.len() implies #[trigger] t[i].0 >= p by {
                assert(t[i] == l[i + 1]);
            }
            lemma_lower_bound_unique(t, p, k - 1);
        } else {
            assert(l[0].0 >= p);
        }
    }
}

pub proof fn lemma_order_index(s: Seq<AddOrder>, id: i64)
    ensures
        0 <= order_index(s, id) <= s.len(),
        forall|i: int| 0 <= i < order_index(s, id) ==> (#[trigger] s[i]).order_id != id,
        order_index(s, id) < s.len() ==> s[order_index(s, id)].order_id == id,
    decreases s.len(),
{
    if s.len() > 0 && s[0].order_id != id {
        let t = s.drop_first();
        lemma_order_index(t, id);
        assert forall|i: int| 0 <= i < order_index(s, id) implies (#[trigger] s[i]).order_id
            != id by {
            if i > 0 {
                assert(s[i] == t[i - 1]);
            }
        }
    }
}

/// The first order with id `id` is at `j`, when nothing before it has that id.
pub proof fn lemma_order_index_unique(s: Seq<AddOrder>, id: i64, j: int)
    requires
        0 <= j <= s.len(),
        forall|i: int| 0 <= i < j ==> (#[trigger] s[i]).order_id != id,
        j < s.len() ==> s[j].order_id == id,
    ensures
        order_index(s, id) == j,
    decreases s.len(),
{
    if s.len() > 0 && j > 0 {
        let t = s.drop_first();
        assert forall|i: int| 0 <= i < j - 1 implies (#[trigger] t[i]).order_id != id by {
            assert(t[i] == s[i + 1]);
        }
        assert(s[0].order_id != id);
        lemma_order_index_unique(t, id, j - 1);
    }
}

/// Prices of two level sequences agree at every position.
pub open spec fn same_prices(a: Levels, b: Levels) -> bool {
    a.len() == b.len() && forall|i: int| 0 <= i < a.len() ==> #[trigger] a[i].0 == b[i].0
}

proof fn lemma_same_prices_lower_bound(a: Levels, b: Levels, p: i64)
    requires
        sorted(a),
        same_prices(a, b),
    ensures
        lower_bound(a, p) == lower_bound(b, p),
{
    lemma_lower_bound(a, p);
    let k = lower_bound(a, p);
    assert forall|i: int| 0 <= i < k implies #[trigger] b[i].0 < p by {
        assert(a[i].0 == b[i].0);
    }
    assert forall|i: int| k <= i < b.len() implies #[trigger] b[i].0 >= p by {
        assert(a[i].0 == b[i].0);
    }
    lemma_lower_bound_unique(b, p, k);
}

/// An id that sits somewhere in `s` is found by `order_index`.
proof fn lemma_order_present(s: Seq<AddOrder>, id: i64, j: int)
    requires
        0 <= j < s.len(),
        s[j].order_id == id,
    ensures
        order_index(s, id) < s.len(),
{
    lemma_order_index(s, id);
    if order_index(s, id) >= s.len() {
        assert(s[j].order_id != id);
    }
}

/// Adding an order whose id is not resting keeps the half consistent.
#[verifier::spinoff_prover]
#[verifier::rlimit(60)]
pub proof fn lemma_add_wf(l: Levels, loc: Map<i64, i64>, side: Side, a: AddOrder)
    requires
        side_wf(l, loc, side),
        !loc.contains_key(a.order_id),
        a.side == side,
    ensures
        side_wf(add_spec(l, a), loc.insert(a.order_id, a.price), side),
{
    let p = a.price;
    let k = lower_bound(l, p);
    let l2 = add_spec(l, a);
    let loc2 = loc.insert(a.order_id, a.price);
    lemma_lower_bound(l, p);
    if 0 <= k < l.len() && l[k].0 == p {
        let s = l[k].1;
        assert(same_prices(l, l2));
        assert forall|k2: int, j: int| 0 <= k2 < l2.len() && 0 <= j < l2[k2].1.len() implies {
            &&& (#[trigger] l2[k2].1[j]).price == l2[k2].0
            &&& l2[k2].1[j].side == side
            &&& loc2.contains_key(l2[k2].1[j].order_id)
            &&& loc2[l2[k2].1[j].order_id] == l2[k2].0
        } by {
            if k2 != k || j < s.len() {
                assert(l2[k2].1[j] == l[k2].1[j]);
                assert(loc.contains_key(l[k2].1[j].order_id));
            }
        }
        assert forall|id: i64| #[trigger] loc2.contains_key(id) implies {
            let kk = lower_bound(l2, loc2[id]);
            &&& 0 <= kk < l2.len()
            &&& l2[kk].0 == loc2[id]
            &&& order_index(l2[kk].1, id) < l2[kk].1.len()
        } by {
            lemma_same_prices_lower_bound(l, l2, loc2[id]);
            if id == a.order_id {
                lemma_order_present(l2[k].1, id, s.len() as int);
            } else {
                let kq = lower_bound(l, loc[id]);
                if kq == k {
                    let j = order_index(s, id);
                    lemma_order_index(s, id);
                    assert(l2[k].1[j] == s[j]);
                    lemma_order_present(l2[k].1, id, j);
                }
            }
        }
        assert forall|k2: int, i: int, j: int|
            0 <= k2 < l2.len() && 0 <= i < j < l2[k2].1.len() implies (#[trigger] l2[k2].1[i]).order_id
            != (#[trigger] l2[k2].1[j]).order_id by {
            if k2 == k && j == s.len() {
                assert(l2[k2].1[i] == s[i]);
                assert(loc.contains_key(s[i].order_id));
            } else {
                assert(l2[k2].1[i] == l[k2].1[i]);
                assert(l2[k2].1[j] == l[k2].1[j]);
            }
        }
    } else {
        assert(forall|i: int| k <= i < l.len() ==> #[trigger] l[i].0 > p) by {
            assert forall|i: int| k <= i < l.len() implies #[trigger] l[i].0 > p by {
                if i > k {
                    assert(l[k].0 < l[i].0);
                }
            }
        }
        assert(sorted(l2)) by {
            assert forall|i: int, j: int| 0 <= i < j < l2.len() implies #[trigger] l2[i].0
                < #[trigger] l2[j].0 by {
                if j < k {
                    assert(l2[i] == l[i] && l2[j] == l[j]);
                } else if j == k {
                    assert(l2[i] == l[i]);
                } else if i < k {
                    assert(l2[i] == l[i] && l2[j] == l[j - 1]);
                } else if i == k {
                    assert(l2[j] == l[j - 1]);
                } else {
                    assert(l2[i] == l[i - 1] && l2[j] == l[j - 1]);
                }
            }
        }
        assert forall|k2: int| 0 <= k2 < l2.len() implies #[trigger] l2[k2].1.len() > 0 by {
            if k2 < k {
                assert(l2[k2] == l[k2]);
            } else if k2 > k {
                assert(l2[k2] == l[k2 - 1]);
            }
        }
        assert forall|k2: int, j: int| 0 <= k2 < l2.len() && 0 <= j < l2[k2].1.len() implies {
            &&& (#[trigger] l2[k2].1[j]).price == l2[k2].0
            &&& l2[k2].1[j].side == side
            &&& loc2.contains_key(l2[k2].1[j].order_id)
            &&& loc2[l2[k2].1[j].order_id] == l2[k2].0
        } by {
            if k2 < k {
                assert(l2[k2] == l[k2]);
                assert(loc.contains_key(l[k2].1[j].order_id));
            } else if k2 > k {
                assert(l2[k2] == l[k2 - 1]);
                assert(loc.contains_key(l[k2 - 1].1[j].order_id));
            }
        }
        assert forall|id: i64| #[trigger] loc2.contains_key(id) implies {
            let kk = lower_bound(l2, loc2[id]);
            &&& 0 <= kk < l2.len()
            &&& l2[kk].0 == loc2[id]
            &&& order_index(l2[kk].1, id) < l2[kk].1.len()
        } by {
            if id == a.order_id {
                assert forall|i: int| 0 <= i < k implies #[trigger] l2[i].0 < p by {
                    assert(l2[i] == l[i]);
                }
                assert forall|i: int| k <= i < l2.len() implies #[trigger] l2[i].0 >= p by {
                    if i > k {
                        assert(l2[i] == l[i - 1]);
                    }
                }
                lemma_lower_bound_unique(l2, p, k);
                lemma_order_present(l2[k].1, id, 0);
            } else {
                let q = loc[id];
                let kq = lower_bound(l, q);
                lemma_lower_bound(l, q);
                if q < p {
                    assert(kq < k);
                    assert forall|i: int| 0 <= i < kq implies #[trigger] l2[i].0 < q by {
                        assert(l2[i] == l[i]);
                    }
                    assert forall|i: int| kq <= i < l2.len() implies #[trigger] l2[i].0 >= q by {
                        if i < k {
                            assert(l2[i] == l[i]);
                        } else if i > k {
                            assert(l2[i] == l[i - 1]);
                        }
                    }
                    lemma_lower_bound_unique(l2, q, kq);
                    assert(l2[kq] == l[kq]);
                } else {
                    assert(q != p);
                    assert(kq >= k);
                    assert forall|i: int| 0 <= i < kq + 1 implies #[trigger] l2[i].0 < q by {
                        if i < k {
                            assert(l2[i] == l[i]);
                        } else if i > k {
                            assert(l2[i] == l[i - 1]);
                        }
                    }
                    assert forall|i: int| kq + 1 <= i < l2.len() implies #[trigger] l2[i].0
                        >= q by {
                        assert(l2[i] == l[i - 1]);
                    }
                    lemma_lower_bound_unique(l2, q, kq + 1);
                    assert(l2[kq + 1] == l[kq]);
                }
            }
        }
        assert forall|k2: int, i: int, j: int|
            0 <= k2 < l2.len() && 0 <= i < j < l2[k2].1.len() implies (#[trigger] l2[k2].1[i]).order_id
            != (#[trigger] l2[k2].1[j]).order_id by {
            if k2 < k {
                assert(l2[k2] == l[k2]);
            } else if k2 > k {
                assert(l2[k2] == l[k2 - 1]);
            }
        }
    }
}

/// Removing a resting order keeps the half consistent.
#[verifier::spinoff_prover]
#[verifier::rlimit(60)]
pub proof fn lemma_remove_wf(l: Levels, loc: Map<i64, i64>, side: Side, id: i64)
    requires
        side_wf(l, loc, side),
        loc.contains_key(id),
    ensures
        side_wf(remove_spec(l, loc[id], id), loc.remove(id), side),
{
    let p = loc[id];
    let k = lower_bound(l, p);
    let s = l[k].1;
    let j = order_index(s, id);
    let l2 = remove_spec(l, p, id);
    let loc2 = loc.remove(id);
    lemma_lower_bound(l, p);
    lemma_order_index(s, id);
    if s.len() == 1 {
        assert(j == 0);
        assert(sorted(l2)) by {
            assert forall|a: int, b: int| 0 <= a < b < l2.len() implies #[trigger] l2[a].0
                < #[trigger] l2[b].0 by {
                let a0 = if a < k {
                    a
                } else {
                    a + 1
                };
                let b0 = if b < k {
                    b
                } else {
                    b + 1
                };
                assert(l2[a] == l[a0] && l2[b] == l[b0]);
            }
        }
        assert forall|k2: int| 0 <= k2 < l2.len() implies #[trigger] l2[k2].1.len() > 0 by {
            let k0 = if k2 < k {
                k2
            } else {
                k2 + 1
            };
            assert(l2[k2] == l[k0]);
        }
        assert forall|k2: int, j2: int| 0 <= k2 < l2.len() && 0 <= j2 < l2[k2].1.len() implies {
            &&& (#[trigger] l2[k2].1[j2]).price == l2[k2].0
            &&& l2[k2].1[j2].side == side
            &&& loc2.contains_key(l2[k2].1[j2].order_id)
            &&& loc2[l2[k2].1[j2].order_id] == l2[k2].0
        } by {
            let k0 = if k2 < k {
                k2
            } else {
                k2 + 1
            };
            assert(l2[k2] == l[k0]);
            assert(loc.contains_key(l[k0].1[j2].order_id));
            assert(l[k0].0 != l[k].0);
        }
        assert forall|id2: i64| #[trigger] loc2.contains_key(id2) implies {
            let kk = lower_bound(l2, loc2[id2]);
            &&& 0 <= kk < l2.len()
            &&& l2[kk].0 == loc2[id2]
            &&& order_index(l2[kk].1, id2) < l2[kk].1.len()
        } by {
            let q = loc[id2];
            assert(loc.contains_key(id2));
            let kq = lower_bound(l, q);
            lemma_lower_bound(l, q);
            lemma_order_index(l[kq].1, id2);
            if kq == k {
                assert(l[k].1[0].order_id == id2);
                assert(false);
            }
            if kq < k {
                assert forall|i: int| 0 <= i < kq implies #[trigger] l2[i].0 < q by {
                    assert(l2[i] == l[i]);
                }
                assert forall|i: int| kq <= i < l2.len() implies #[trigger] l2[i].0 >= q by {
                    let i0 = if i < k {
                        i
                    } else {
                        i + 1
                    };
                    assert(l2[i] == l[i0]);
                }
                lemma_lower_bound_unique(l2, q, kq);
                assert(l2[kq] == l[kq]);
            } else {
                assert forall|i: int| 0 <= i < kq - 1 implies #[trigger] l2[i].0 < q by {
                    let i0 = if i < k {
                        i
                    } else {
                        i + 1
                    };
                    assert(l2[i] == l[i0]);
                }
                assert forall|i: int| kq - 1 <= i < l2.len() implies #[trigger] l2[i].0 >= q by {
                    assert(l2[i] == l[i + 1]);
                }
                lemma_lower_bound_unique(l2, q, kq - 1);
                assert(l2[kq - 1] == l[kq]);
            }
        }
        assert forall|k2: int, a: int, b: int|
            0 <= k2 < l2.len() && 0 <= a < b < l2[k2].1.len() implies (#[trigger] l2[k2].1[a]).order_id
            != (#[trigger] l2[k2].1[b]).order_id by {
            let k0 = if k2 < k {
                k2
            } else {
                k2 + 1
            };
            assert(l2[k2] == l[k0]);
        }
    } else {
        let s2 = s.remove(j);
        assert(l2[k].1 == s2);
        assert(same_prices(l, l2));
        assert forall|k2: int| 0 <= k2 < l2.len() implies #[trigger] l2[k2].1.len() > 0 by {
            if k2 != k {
                assert(l2[k2] == l[k2]);
            }
        }
        assert forall|k2: int, j2: int| 0 <= k2 < l2.len() && 0 <= j2 < l2[k2].1.len() implies {
            &&& (#[trigger] l2[k2].1[j2]).price == l2[k2].0
            &&& l2[k2].1[j2].side == side
            &&& loc2.contains_key(l2[k2].1[j2].order_id)
            &&& loc2[l2[k2].1[j2].order_id] == l2[k2].0
        } by {
            if k2 != k {
                assert(l2[k2] == l[k2]);
                assert(loc.contains_key(l[k2].1[j2].order_id));
                assert(l[k2].0 != l[k].0);
            } else {
                let j0 = if j2 < j {
                    j2
                } else {
                    j2 + 1
                };
                assert(s2[j2] == s[j0]);
                assert(loc.contains_key(s[j0].order_id));
                assert(s[j0].order_id != s[j].order_id);
            }
        }
        assert forall|id2: i64| #[trigger] loc2.contains_key(id2) implies {
            let kk = lower_bound(l2, loc2[id2]);
            &&& 0 <= kk < l2.len()
            &&& l2[kk].0 == loc2[id2]
            &&& order_index(l2[kk].1, id2) < l2[kk].1.len()
        } by {
            let q = loc[id2];
            assert(loc.contains_key(id2));
            lemma_same_prices_lower_bound(l, l2, q);
            let kq = lower_bound(l, q);
            if kq == k {
                let j2 = order_index(s, id2);
                lemma_order_index(s, id2);
                assert(j2 != j);
                let j3 = if j2 < j {
                    j2
                } else {
                    j2 - 1
                };
                assert(s2[j3] == s[j2]);
                lemma_order_present(s2, id2, j3);
            } else {
                assert(l2[kq] == l[kq]);
            }
        }
        assert forall|k2: int, a: int, b: int|
            0 <= k2 < l2.len() && 0 <= a < b < l2[k2].1.len() implies (#[trigger] l2[k2].1[a]).order_id
            != (#[trigger] l2[k2].1[b]).order_id by {
            if k2 != k {
                assert(l2[k2] == l[k2]);
            } else {
                let a0 = if a < j {
                    a
                } else {
                    a + 1
                };
                let b0 = if b < j {
                    b
                } else {
                    b + 1
                };
                assert(s2[a] == s[a0] && s2[b] == s[b0]);
            }
        }
    }
}

/// Changing the quantity of a resting order keeps the half consistent.
#[verifier::spinoff_prover]
#[verifier::rlimit(60)]
pub proof fn lemma_set_quantity_wf(l: Levels, loc: Map<i64, i64>, side: Side, id: i64, q: i64)
    requires
        side_wf(l, loc, side),
        loc.contains_key(id),
    ensures
        side_wf(set_quantity_spec(l, loc[id], id, q), loc, side),
{
    let p = loc[id];
    let k = lower_bound(l, p);
    let s = l[k].1;
    let j = order_index(s, id);
    let l2 = set_quantity_spec(l, p, id, q);
    lemma_lower_bound(l, p);
    lemma_order_index(s, id);
    let s2 = l2[k].1;
    assert(same_prices(l, l2));
    assert forall|k2: int| 0 <= k2 < l2.len() implies #[trigger] l2[k2].1.len() > 0 by {
        if k2 != k {
            assert(l2[k2] == l[k2]);
        }
    }
    assert forall|k2: int, j2: int| 0 <= k2 < l2.len() && 0 <= j2 < l2[k2].1.len() implies {
        &&& (#[trigger] l2[k2].1[j2]).price == l2[k2].0
        &&& l2[k2].1[j2].side == side
        &&& loc.contains_key(l2[k2].1[j2].order_id)
        &&& loc[l2[k2].1[j2].order_id] == l2[k2].0
    } by {
        if k2 != k {
            assert(l2[k2] == l[k2]);
        } else {
            assert(s2[j2].order_id == s[j2].order_id);
            assert(s2[j2].price == s[j2].price);
        }
    }
    assert forall|id2: i64| #[trigger] loc.contains_key(id2) implies {
        let kk = lower_bound(l2, loc[id2]);
        &&& 0 <= kk < l2.len()
        &&& l2[kk].0 == loc[id2]
        &&& order_index(l2[kk].1, id2) < l2[kk].1.len()
    } by {
        lemma_same_prices_lower_bound(l, l2, loc[id2]);
        let kq = lower_bound(l, loc[id2]);
        if kq == k {
            let j2 = order_index(s, id2);
            lemma_order_index(s, id2);
            assert(s2[j2].order_id == id2);
            lemma_order_present(s2, id2, j2);
        } else {
            assert(l2[kq] == l[kq]);
        }
    }
    assert forall|k2: int, a: int, b: int|
        0 <= k2 < l2.len() && 0 <= a < b < l2[k2].1.len() implies (#[trigger] l2[k2].1[a]).order_id
        != (#[trigger] l2[k2].1[b]).order_id by {
        if k2 != k {
            assert(l2[k2] == l[k2]);
        } else {
            assert(s2[a].order_id == s[a].order_id && s2[b].order_id == s[b].order_id);
        }
    }
}

/// Adding an order whose id is not resting and then deleting it leaves the half of the
/// book exactly as it was: the locator no longer holds the id, and a price level that the
/// order opened is gone again.
pub proof fn law_add_then_delete(l: Levels, loc: Map<i64, i64>, side: Side, a: AddOrder)
    requires
        side_wf(l, loc, side),
        !loc.contains_key(a.order_id),
        a.side == side,
    ensures
        remove_spec(add_spec(l, a), a.price, a.order_id) == l,
        loc.insert(a.order_id, a.price).remove(a.order_id) == loc,
        !loc.insert(a.order_id, a.price).remove(a.order_id).contains_key(a.order_id),
{
    let p = a.price;
    let k = lower_bound(l, p);
    let l2 = add_spec(l, a);
    lemma_lower_bound(l, p);
    if 0 <= k < l.len() && l[k].0 == p {
        let s = l[k].1;
        assert(same_prices(l, l2));
        lemma_same_prices_lower_bound(l, l2, p);
        assert forall|i: int| 0 <= i < s.len() implies (#[trigger] s[i]).order_id
            != a.order_id by {
            assert(loc.contains_key(s[i].order_id));
        }
        assert forall|i: int| 0 <= i < s.len() implies (#[trigger] s.push(a)[i]).order_id
            != a.order_id by {
            assert(s.push(a)[i] == s[i]);
        }
        lemma_order_index_unique(s.push(a), a.order_id, s.len() as int);
        assert(s.push(a).remove(s.len() as int) =~= s);
        assert(remove_spec(l2, p, a.order_id) =~= l);
    } else {
        assert forall|i: int| 0 <= i < k implies #[trigger] l2[i].0 < p by {
            assert(l2[i] == l[i]);
        }
        assert forall|i: int| k <= i < l2.len() implies #[trigger] l2[i].0 >= p by {
            if i > k {
                assert(l2[i] == l[i - 1]);
            }
        }
        lemma_lower_bound_unique(l2, p, k);
        assert(l2.remove(k) =~= l);
    }
    assert(loc.insert(a.order_id, a.price).remove(a.order_id) =~= loc);
}

/// In a consistent half no price level is empty.
pub proof fn law_no_empty_level(l: Levels, loc: Map<i64, i64>, side: Side, k: int)
    requires
        side_wf(l, loc, side),
        0 <= k < l.len(),
    ensures
        l[k].1.len() > 0,
{
}

/// Deleting a resting order, whatever happened since it was added, leaves the locator
/// without its id; its price level is gone when the order was the last one there and
/// stays, one order shorter, otherwise.
pub proof fn law_delete_clears(l: Levels, loc: Map<i64, i64>, side: Side, id: i64)
    requires
        side_wf(l, loc, side),
        loc.contains_key(id),
    ensures
        !loc.remove(id).contains_key(id),
        ({
            let p = loc[id];
            let before = level_at(l, p);
            let after = level_at(remove_spec(l, p, id), p);
            &&& before is Some
            &&& before->0.len() == 1 ==> after is None
            &&& before->0.len() > 1 ==> after is Some && after->0.len() == before->0.len() - 1
        }),
{
    let p = loc[id];
    let k = lower_bound(l, p);
    let l2 = remove_spec(l, p, id);
    lemma_lower_bound(l, p);
    lemma_remove_wf(l, loc, side, id);
    if l[k].1.len() == 1 {
        let k2 = lower_bound(l2, p);
        lemma_lower_bound(l2, p);
        if 0 <= k2 < l2.len() && l2[k2].0 == p {
            let k0 = if k2 < k {
                k2
            } else {
                k2 + 1
            };
            assert(l2[k2] == l[k0]);
            assert(k0 != k);
            if k0 < k {
                assert(l[k0].0 < l[k].0);
            } else {
                assert(l[k].0 < l[k0].0);
            }
        }
    } else {
        assert(same_prices(l, l2));
        lemma_same_prices_lower_bound(l, l2, p);
        let j = order_index(l[k].1, id);
        assert(loc.contains_key(id));
        lemma_order_index(l[k].1, id);
        assert(0 <= j < l[k].1.len());
        assert(l2[k].1 == l[k].1.remove(j));
        assert(l2[k].1.len() == l[k].1.len() - 1);
    }
}

} // verus!
