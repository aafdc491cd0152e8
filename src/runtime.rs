use std::collections::HashMap;
use std::time::{Duration, SystemTime};

use vstd::prelude::*;

use crate::callback_datatype::{
    buy_quantity, sell_quantity,
    CTagWithCorrespondingPTag, Created, ModifiedOrder, ModifyType, OrderDeletion, OrderExecution,
    group_quantity, modify_type_of,
};
use crate::levels::{add_spec, remove_spec};
use crate::messages::{
    same_executed, same_product, same_status, AddOrder, DeleteOrder, Executed, ExecutionWithPriceInfo,
    LegPrice, MessageEnum, ProductInfo, SecondTag, UniqueId,
};
use crate::orderbook::{execution_outcome, level_view, BookError, OrderBook};
use crate::side::Side;
use crate::timestamp::Timestamp;

verus! {

broadcast use vstd::std_specs::hash::group_hash_axioms;

#[verifier::external_type_specification]
#[verifier::external_body]
pub struct ExSystemTime(SystemTime);

/// Relies on `SystemTime::now`: the time now, of which nothing is promised.
#[verifier::external_body]
fn clock_now() -> SystemTime {
    SystemTime::now()
}

/// Relies on `SystemTime::elapsed`: the time since `t`, of which nothing is promised;
/// `None` when the clock went back.
#[verifier::external_body]
fn time_since(t: &SystemTime) -> Option<Duration> {
    t.elapsed().ok()
}

/// The books of all instruments, by instrument id.
pub type BookMap = HashMap<i64, OrderBook>;

/// Every book in `m` is consistent.
pub open spec fn books_wf(m: Map<i64, OrderBook>) -> bool {
    forall|k: i64| #[trigger] m.contains_key(k) ==> m[k].wf()
}

/// What stops a run: the feed broke an invariant that the books cannot be kept through.
#[derive(Debug, Clone)]
pub enum Fault {
    /// An order message names an instrument that no description created a book for.
    MissingBook(MessageEnum),
    /// The book refused an order message: a duplicate id, a missing order, or an execution
    /// larger than the order.
    Rejected(BookError, MessageEnum),
    /// A later description of an instrument differs from the first: the first, then the
    /// later one.
    DivergentProduct(ProductInfo, ProductInfo),
    /// A leg price came before any execution of its combination group in the batch.
    UnmatchedLegPrice(LegPrice),
    /// The quantity traded in one batch does not fit in an `i128`.
    QuantityOverflow,
}

/// The id of the order that `m` adds, if it adds one.
pub open spec fn add_id_of(m: MessageEnum) -> Option<UniqueId> {
    match m {
        MessageEnum::AddOrder(a) => Some(
            UniqueId { order_book_id: a.order_book_id, order_id: a.order_id, side: a.side },
        ),
        _ => None,
    }
}

/// The id of the order that `m` deletes, if it deletes one.
pub open spec fn delete_id_of(m: MessageEnum) -> Option<UniqueId> {
    match m {
        MessageEnum::DeleteOrder(d) => Some(
            UniqueId { order_book_id: d.order_book_id, order_id: d.order_id, side: d.side },
        ),
        _ => None,
    }
}

/// A batch both adds and deletes order `x`: an amendment.
pub open spec fn is_amended(s: Seq<MessageEnum>, x: UniqueId) -> bool {
    &&& exists|i: int| 0 <= i < s.len() && #[trigger] add_id_of(s[i]) == Some(x)
    &&& exists|i: int| 0 <= i < s.len() && #[trigger] delete_id_of(s[i]) == Some(x)
}

/// The executions with price information of `s` in combination group `g`, in order.
pub open spec fn c_with_key(s: Seq<MessageEnum>, g: i64) -> Seq<ExecutionWithPriceInfo>
    decreases s.len(),
{
    if s.len() == 0 {
        Seq::empty()
    } else {
        let r = c_with_key(s.drop_last(), g);
        match s.last() {
            MessageEnum::ExecutionWithPriceInfo(c) => if c.combo_group_id == g {
                r.push(c)
            } else {
                r
            },
            _ => r,
        }
    }
}

/// The id of the order behind an amendment, and the halves seen so far.
#[derive(Clone, Copy)]
pub struct ModifySlot {
    pub id: UniqueId,
    pub modify_msg: Option<AddOrder>,
    pub delete_msg: Option<DeleteOrder>,
    pub previous_add_order: Option<AddOrder>,
}

/// What a batch has produced so far.
pub struct PerTimeframe {
    /// Instruments whose orders changed, each once, in the order first touched.
    pub changes: Vec<i64>,
    pub created: Vec<AddOrder>,
    pub executions: Vec<OrderExecution>,
    pub ctag_with_ptag: Vec<CTagWithCorrespondingPTag>,
    pub deletion: Vec<OrderDeletion>,
    pub modified_order_id_map: Vec<ModifySlot>,
    pub second_messages: Vec<SecondTag>,
    /// Reference data for instruments without a book, set aside.
    pub dropped: Vec<MessageEnum>,
}

/// The notifications of one batch.
pub struct BatchOutput {
    pub second_messages: Vec<SecondTag>,
    pub created: Vec<AddOrder>,
    pub executions: Vec<OrderExecution>,
    pub ctag_with_ptag: Vec<CTagWithCorrespondingPTag>,
    pub deletion: Vec<OrderDeletion>,
    pub modified_orders: Vec<ModifiedOrder>,
    pub changes: Vec<i64>,
    pub dropped: Vec<MessageEnum>,
    /// The combination groups whose bought and sold quantities differ.
    pub unbalanced: Vec<i64>,
}

/// The ids of the amendment slots.
pub open spec fn slot_ids(slots: Seq<ModifySlot>) -> Seq<UniqueId> {
    Seq::new(slots.len(), |j: int| slots[j].id)
}

/// The slots are exactly the amendments of `s`, each once.
pub open spec fn slots_match(ids: Seq<UniqueId>, s: Seq<MessageEnum>) -> bool {
    &&& ids.no_duplicates()
    &&& forall|x: UniqueId| #[trigger] ids.contains(x) <==> is_amended(s, x)
}

/// The new orders among the messages `p` of batch `s` that are no amendment in `s`, in
/// order.
pub open spec fn fresh_adds(p: Seq<MessageEnum>, s: Seq<MessageEnum>) -> Seq<AddOrder>
    decreases p.len(),
{
    if p.len() == 0 {
        Seq::empty()
    } else {
        let r = fresh_adds(p.drop_last(), s);
        match p.last() {
            MessageEnum::AddOrder(a) => if is_amended(s, add_id_of(p.last())->0) {
                r
            } else {
                r.push(a)
            },
            _ => r,
        }
    }
}

/// The deletions among the messages `p` of batch `s` that are no amendment in `s`, in
/// order.
pub open spec fn standalone_deletes(p: Seq<MessageEnum>, s: Seq<MessageEnum>) -> Seq<DeleteOrder>
    decreases p.len(),
{
    if p.len() == 0 {
        Seq::empty()
    } else {
        let r = standalone_deletes(p.drop_last(), s);
        match p.last() {
            MessageEnum::DeleteOrder(d) => if is_amended(s, delete_id_of(p.last())->0) {
                r
            } else {
                r.push(d)
            },
            _ => r,
        }
    }
}

/// The executions among the messages `p`, in order.
pub open spec fn executions_of(p: Seq<MessageEnum>) -> Seq<Executed>
    decreases p.len(),
{
    if p.len() == 0 {
        Seq::empty()
    } else {
        let r = executions_of(p.drop_last());
        match p.last() {
            MessageEnum::Executed(e) => r.push(e),
            _ => r,
        }
    }
}

/// The execution records `x` report the executions `e`, one for one and in order.
pub open spec fn reports_executions(x: Seq<OrderExecution>, e: Seq<Executed>) -> bool {
    &&& x.len() == e.len()
    &&& forall|k: int| 0 <= k < x.len() ==> same_executed(#[trigger] x[k].msg, e[k])
}

/// The second markers among the messages `p`, in order.
pub open spec fn seconds_of(p: Seq<MessageEnum>) -> Seq<SecondTag>
    decreases p.len(),
{
    if p.len() == 0 {
        Seq::empty()
    } else {
        let r = seconds_of(p.drop_last());
        match p.last() {
            MessageEnum::SecondTag(t) => r.push(t),
            _ => r,
        }
    }
}

/// The instrument whose orders message `m` changes, for new orders, deletions and
/// executions.
pub open spec fn order_book_of(m: MessageEnum) -> Option<i64> {
    match m {
        MessageEnum::AddOrder(a) => Some(a.order_book_id),
        MessageEnum::DeleteOrder(d) => Some(d.order_book_id),
        MessageEnum::Executed(e) => Some(e.order_book_id),
        MessageEnum::ExecutionWithPriceInfo(c) => Some(c.order_book_id),
        _ => None,
    }
}

/// The instruments whose orders the messages `p` change.
pub open spec fn touched(p: Seq<MessageEnum>) -> Set<i64>
    decreases p.len(),
{
    if p.len() == 0 {
        Set::empty()
    } else {
        let r = touched(p.drop_last());
        match order_book_of(p.last()) {
            Some(id) => r.insert(id),
            None => r,
        }
    }
}

/// The deletion messages of deletion records.
pub open spec fn deletion_msgs(d: Seq<OrderDeletion>) -> Seq<DeleteOrder> {
    Seq::new(d.len(), |j: int| d[j].msg)
}

/// The last new order for order `x` among the messages `p`.
pub open spec fn last_add(p: Seq<MessageEnum>, x: UniqueId) -> Option<AddOrder>
    decreases p.len(),
{
    if p.len() == 0 {
        None
    } else {
        match p.last() {
            MessageEnum::AddOrder(a) => if add_id_of(p.last()) == Some(x) {
                Some(a)
            } else {
                last_add(p.drop_last(), x)
            },
            _ => last_add(p.drop_last(), x),
        }
    }
}

/// The last deletion of order `x` among the messages `p`.
pub open spec fn last_delete(p: Seq<MessageEnum>, x: UniqueId) -> Option<DeleteOrder>
    decreases p.len(),
{
    if p.len() == 0 {
        None
    } else {
        match p.last() {
            MessageEnum::DeleteOrder(d) => if delete_id_of(p.last()) == Some(x) {
                Some(d)
            } else {
                last_delete(p.drop_last(), x)
            },
            _ => last_delete(p.drop_last(), x),
        }
    }
}

/// Each amendment slot holds the last new order and the last deletion of its order among
/// the messages `p`, and a removed order exactly when it holds a deletion.
pub open spec fn slots_track(slots: Seq<ModifySlot>, p: Seq<MessageEnum>) -> bool {
    forall|j: int|
        0 <= j < slots.len() ==> {
            &&& (#[trigger] slots[j]).modify_msg == last_add(p, slots[j].id)
            &&& slots[j].delete_msg == last_delete(p, slots[j].id)
            &&& (slots[j].delete_msg is Some <==> slots[j].previous_add_order is Some)
        }
}

/// A message that neither adds nor deletes `x`, or no order at all, leaves its last add and
/// deletion as they were.
proof fn lemma_track_step(slots: Seq<ModifySlot>, s: Seq<MessageEnum>, i: int)
    requires
        0 <= i < s.len(),
        slots_track(slots, s.subrange(0, i)),
        forall|j: int|
            0 <= j < slots.len() ==> add_id_of(s[i]) != Some((#[trigger] slots[j]).id)
                && delete_id_of(s[i]) != Some(slots[j].id),
    ensures
        slots_track(slots, s.subrange(0, i + 1)),
{
    assert(s.subrange(0, i + 1).drop_last() =~= s.subrange(0, i));
    assert(s.subrange(0, i + 1).last() == s[i]);
}

/// An order that is both added and deleted in `p` has a last add and a last deletion.
proof fn lemma_last_some(p: Seq<MessageEnum>, x: UniqueId)
    requires
        is_amended(p, x),
    ensures
        last_add(p, x) is Some,
        last_delete(p, x) is Some,
    decreases p.len(),
{
    let d = p.drop_last();
    let ka = choose|k: int| 0 <= k < p.len() && #[trigger] add_id_of(p[k]) == Some(x);
    let kd = choose|k: int| 0 <= k < p.len() && #[trigger] delete_id_of(p[k]) == Some(x);
    if ka < p.len() - 1 && kd < p.len() - 1 {
        assert(d[ka] == p[ka] && d[kd] == p[kd]);
        lemma_last_some(d, x);
    } else if ka < p.len() - 1 {
        assert(d[ka] == p[ka]);
        lemma_last_add_some(d, x, ka);
    } else if kd < p.len() - 1 {
        assert(d[kd] == p[kd]);
        lemma_last_delete_some(d, x, kd);
    }
}

proof fn lemma_last_add_some(p: Seq<MessageEnum>, x: UniqueId, k: int)
    requires
        0 <= k < p.len(),
        add_id_of(p[k]) == Some(x),
    ensures
        last_add(p, x) is Some,
    decreases p.len(),
{
    if k < p.len() - 1 {
        assert(p.drop_last()[k] == p[k]);
        lemma_last_add_some(p.drop_last(), x, k);
    }
}

proof fn lemma_last_delete_some(p: Seq<MessageEnum>, x: UniqueId, k: int)
    requires
        0 <= k < p.len(),
        delete_id_of(p[k]) == Some(x),
    ensures
        last_delete(p, x) is Some,
    decreases p.len(),
{
    if k < p.len() - 1 {
        assert(p.drop_last()[k] == p[k]);
        lemma_last_delete_some(p.drop_last(), x, k);
    }
}

/// The combination groups of `g` whose several records do not balance, bought against sold.
pub open spec fn unbalanced_keys(g: Seq<CTagWithCorrespondingPTag>) -> Seq<i64>
    decreases g.len(),
{
    if g.len() == 0 {
        Seq::empty()
    } else {
        let r = unbalanced_keys(g.drop_last());
        let c = g.last().c_tag@;
        if c.len() > 1 && buy_quantity(c) != sell_quantity(c) {
            r.push(g.last().combo_group_id)
        } else {
            r
        }
    }
}

/// The order that deletion `d` takes off books `m`.
pub open spec fn removed_order(m: Map<i64, OrderBook>, d: DeleteOrder) -> AddOrder {
    m[d.order_book_id].spec_order(d.side, d.order_id)->0
}

/// The order `id` on `side` of book `book` in `m` as it stands after `qty` is executed
/// against it.
pub open spec fn executed_order(
    m: Map<i64, OrderBook>,
    book: i64,
    side: Side,
    id: i64,
    qty: i64,
) -> AddOrder {
    let o = m[book].spec_order(side, id)->0;
    AddOrder { quantity: (o.quantity - qty) as i64, ..o }
}

/// The deletion records of the first `n` messages of batch `s`, when `t[k]` are the books
/// before message `k`: each standalone deletion with the order it took off.
pub open spec fn deletion_records(t: Seq<Map<i64, OrderBook>>, s: Seq<MessageEnum>, n: int) -> Seq<
    OrderDeletion,
>
    decreases n,
{
    if n <= 0 {
        Seq::empty()
    } else {
        let r = deletion_records(t, s, n - 1);
        match s[n - 1] {
            MessageEnum::DeleteOrder(d) => if is_amended(s, delete_id_of(s[n - 1])->0) {
                r
            } else {
                r.push(OrderDeletion { deleted_order: removed_order(t[n - 1], d), msg: d })
            },
            _ => r,
        }
    }
}

/// The orders as they stood after each execution among the first `n` messages of `s`, when
/// `t[k]` are the books before message `k`.
pub open spec fn execution_orders(t: Seq<Map<i64, OrderBook>>, s: Seq<MessageEnum>, n: int) -> Seq<
    AddOrder,
>
    decreases n,
{
    if n <= 0 {
        Seq::empty()
    } else {
        let r = execution_orders(t, s, n - 1);
        match s[n - 1] {
            MessageEnum::Executed(e) => r.push(
                executed_order(t[n - 1], e.order_book_id, e.side, e.order_id, e.executed_quantity),
            ),
            _ => r,
        }
    }
}

/// The order that the last deletion of `x` among the first `n` messages of `s` took off,
/// when `t[k]` are the books before message `k`.
pub open spec fn removed_before(t: Seq<Map<i64, OrderBook>>, s: Seq<MessageEnum>, n: int, x: UniqueId) -> Option<
    AddOrder,
>
    decreases n,
{
    if n <= 0 {
        None
    } else {
        match s[n - 1] {
            MessageEnum::DeleteOrder(d) => if delete_id_of(s[n - 1]) == Some(x) {
                Some(removed_order(t[n - 1], d))
            } else {
                removed_before(t, s, n - 1, x)
            },
            _ => removed_before(t, s, n - 1, x),
        }
    }
}

/// The orders that the executions with price information of group `g` among the first `n`
/// messages of `s` left, when `t[k]` are the books before message `k`.
pub open spec fn group_orders(t: Seq<Map<i64, OrderBook>>, s: Seq<MessageEnum>, n: int, g: i64) -> Seq<
    AddOrder,
>
    decreases n,
{
    if n <= 0 {
        Seq::empty()
    } else {
        let r = group_orders(t, s, n - 1, g);
        match s[n - 1] {
            MessageEnum::ExecutionWithPriceInfo(c) => if c.combo_group_id == g {
                r.push(
                    executed_order(t[n - 1], c.order_book_id, c.side, c.order_id, c.executed_quantity),
                )
            } else {
                r
            },
            _ => r,
        }
    }
}

/// The leg prices of group `g` among the messages `p`, in order.
pub open spec fn legs_of(p: Seq<MessageEnum>, g: i64) -> Seq<LegPrice>
    decreases p.len(),
{
    if p.len() == 0 {
        Seq::empty()
    } else {
        let r = legs_of(p.drop_last(), g);
        match p.last() {
            MessageEnum::LegPrice(l) => if l.combo_group_id == g {
                r.push(l)
            } else {
                r
            },
            _ => r,
        }
    }
}

/// The records of a batch agree with the books `t[k]` before each of its first `i` messages:
/// deletion snapshots, orders after executions, orders behind amendments, and each
/// combination group's matched orders and leg prices.
pub open spec fn records_inv(
    tf: PerTimeframe,
    t: Seq<Map<i64, OrderBook>>,
    s: Seq<MessageEnum>,
    i: int,
) -> bool {
    &&& tf.deletion@ == deletion_records(t, s, i)
    &&& Seq::new(tf.executions@.len(), |j: int| tf.executions@[j].matched_order_after_execution)
        == execution_orders(t, s, i)
    &&& forall|j: int|
        0 <= j < tf.modified_order_id_map@.len() ==> (#[trigger] tf.modified_order_id_map@[j]).previous_add_order
            == removed_before(t, s, i, tf.modified_order_id_map@[j].id)
    &&& forall|a: int|
        0 <= a < tf.ctag_with_ptag@.len() ==> {
            &&& (#[trigger] tf.ctag_with_ptag@[a]).matched_add_order@ == group_orders(
                t,
                s,
                i,
                tf.ctag_with_ptag@[a].combo_group_id,
            )
            &&& tf.ctag_with_ptag@[a].p_tags@ == legs_of(
                s.subrange(0, i),
                tf.ctag_with_ptag@[a].combo_group_id,
            )
        }
    &&& forall|g: i64| #[trigger]
        group_orders(t, s, i, g).len() == c_with_key(s.subrange(0, i), g).len()
    &&& forall|g: i64|
        #![trigger legs_of(s.subrange(0, i), g)]
        legs_of(s.subrange(0, i), g).len() > 0 ==> c_with_key(s.subrange(0, i), g).len() > 0
}

/// The deletion record that message `msg` adds, on books `m`, in batch `s`.
pub open spec fn step_deletion(m: Map<i64, OrderBook>, msg: MessageEnum, s: Seq<MessageEnum>) -> Seq<
    OrderDeletion,
> {
    match msg {
        MessageEnum::DeleteOrder(d) => if is_amended(s, delete_id_of(msg)->0) {
            Seq::empty()
        } else {
            seq![OrderDeletion { deleted_order: removed_order(m, d), msg: d }]
        },
        _ => Seq::empty(),
    }
}

/// The order after execution that message `msg` adds, on books `m`.
pub open spec fn step_execution(m: Map<i64, OrderBook>, msg: MessageEnum) -> Seq<AddOrder> {
    match msg {
        MessageEnum::Executed(e) => seq![
            executed_order(m, e.order_book_id, e.side, e.order_id, e.executed_quantity),
        ],
        _ => Seq::empty(),
    }
}

/// How message `msg` on books `m` changed the records from `tf0` to `tf1`.
pub open spec fn records_step(
    tf0: PerTimeframe,
    tf1: PerTimeframe,
    m: Map<i64, OrderBook>,
    msg: MessageEnum,
    s: Seq<MessageEnum>,
) -> bool {
    let g0 = tf0.ctag_with_ptag@;
    let g1 = tf1.ctag_with_ptag@;
    &&& tf1.deletion@ == tf0.deletion@ + step_deletion(m, msg, s)
    &&& Seq::new(tf1.executions@.len(), |j: int| tf1.executions@[j].matched_order_after_execution)
        == Seq::new(tf0.executions@.len(), |j: int| tf0.executions@[j].matched_order_after_execution)
        + step_execution(m, msg)
    &&& tf1.modified_order_id_map@.len() == tf0.modified_order_id_map@.len()
    &&& forall|j: int|
        0 <= j < tf1.modified_order_id_map@.len() ==> {
            let x = tf0.modified_order_id_map@[j].id;
            &&& (#[trigger] tf1.modified_order_id_map@[j]).id == x
            &&& tf1.modified_order_id_map@[j].previous_add_order == match msg {
                MessageEnum::DeleteOrder(d) => if delete_id_of(msg) == Some(x) {
                    Some(removed_order(m, d))
                } else {
                    tf0.modified_order_id_map@[j].previous_add_order
                },
                _ => tf0.modified_order_id_map@[j].previous_add_order,
            }
        }
    &&& g0.len() <= g1.len()
    &&& forall|a: int|
        0 <= a < g1.len() ==> {
            let k = (#[trigger] g1[a]).combo_group_id;
            let before = if a < g0.len() {
                g0[a].matched_add_order@
            } else {
                Seq::empty()
            };
            let legs = if a < g0.len() {
                g0[a].p_tags@
            } else {
                Seq::empty()
            };
            &&& a < g0.len() ==> k == g0[a].combo_group_id
            &&& a >= g0.len() ==> msg is ExecutionWithPriceInfo && forall|b: int|
                0 <= b < g0.len() ==> g0[b].combo_group_id != k
            &&& g1[a].matched_add_order@ == match msg {
                MessageEnum::ExecutionWithPriceInfo(c) => if c.combo_group_id == k {
                    before.push(
                        executed_order(m, c.order_book_id, c.side, c.order_id, c.executed_quantity),
                    )
                } else {
                    before
                },
                _ => before,
            }
            &&& g1[a].p_tags@ == match msg {
                MessageEnum::LegPrice(l) => if l.combo_group_id == k {
                    legs.push(l)
                } else {
                    legs
                },
                _ => legs,
            }
        }
}

/// A message that neither deletes nor executes nor reports a leg price, and leaves the
/// records alone, moves them along as `records_step` says.
proof fn lemma_records_still(tf0: PerTimeframe, tf1: PerTimeframe, m: Map<i64, OrderBook>, msg: MessageEnum, s: Seq<MessageEnum>)
    requires
        !(msg is DeleteOrder),
        !(msg is Executed),
        !(msg is ExecutionWithPriceInfo),
        !(msg is LegPrice),
        tf1.deletion@ == tf0.deletion@,
        tf1.executions@ == tf0.executions@,
        tf1.ctag_with_ptag@ == tf0.ctag_with_ptag@,
        tf1.modified_order_id_map@.len() == tf0.modified_order_id_map@.len(),
        forall|j: int|
            0 <= j < tf1.modified_order_id_map@.len() ==> (#[trigger] tf1.modified_order_id_map@[j]).id
                == tf0.modified_order_id_map@[j].id && tf1.modified_order_id_map@[j].previous_add_order
                == tf0.modified_order_id_map@[j].previous_add_order,
    ensures
        records_step(tf0, tf1, m, msg, s),
{
    assert(tf1.deletion@ =~= tf0.deletion@ + step_deletion(m, msg, s));
    assert(Seq::new(tf1.executions@.len(), |j: int| tf1.executions@[j].matched_order_after_execution)
        =~= Seq::new(tf0.executions@.len(), |j: int| tf0.executions@[j].matched_order_after_execution)
        + step_execution(m, msg));
}

/// One message moves the records along as `records_step` says.
proof fn lemma_records_step(
    tf0: PerTimeframe,
    tf1: PerTimeframe,
    t: Seq<Map<i64, OrderBook>>,
    t1: Seq<Map<i64, OrderBook>>,
    s: Seq<MessageEnum>,
    i: int,
)
    requires
        0 <= i < s.len(),
        t.len() == i + 1,
        t1.len() == i + 2,
        forall|k: int| 0 <= k <= i ==> t1[k] == t[k],
        deletion_records(t1, s, i) == deletion_records(t, s, i),
        execution_orders(t1, s, i) == execution_orders(t, s, i),
        forall|x: UniqueId| #[trigger] removed_before(t1, s, i, x) == removed_before(t, s, i, x),
        forall|g: i64| #[trigger] group_orders(t1, s, i, g) == group_orders(t, s, i, g),
        records_inv(tf0, t, s, i),
        groups_inv(tf0.ctag_with_ptag@, s.subrange(0, i)),
        records_step(tf0, tf1, t[i], s[i], s),
        s[i] matches MessageEnum::LegPrice(l) ==> c_with_key(s.subrange(0, i), l.combo_group_id).len()
            > 0,
    ensures
        records_inv(tf1, t1, s, i + 1),
{
    let p0 = s.subrange(0, i);
    let p1 = s.subrange(0, i + 1);
    assert(p1.drop_last() =~= p0);
    assert(p1.last() == s[i]);
    let m = t[i];
    let g0 = tf0.ctag_with_ptag@;
    let g1 = tf1.ctag_with_ptag@;
    assert(t1[i] == m);
    if let MessageEnum::ExecutionWithPriceInfo(c) = s[i] {
        lemma_c_with_key_exec(s, i, c);
    } else {
        lemma_c_with_key_other(s, i);
    }
    assert(tf1.deletion@ =~= deletion_records(t1, s, i + 1));
    assert(Seq::new(tf1.executions@.len(), |j: int| tf1.executions@[j].matched_order_after_execution)
        =~= execution_orders(t1, s, i + 1));
    assert forall|g: i64| #[trigger]
        group_orders(t1, s, i + 1, g).len() == c_with_key(p1, g).len() by {
        assert(group_orders(t, s, i, g).len() == c_with_key(p0, g).len());
        assert(group_orders(t1, s, i, g) == group_orders(t, s, i, g));
        if let MessageEnum::ExecutionWithPriceInfo(c) = s[i] {
            if c.combo_group_id == g {
                assert(c_with_key(p1, g) == c_with_key(p0, g).push(c));
            } else {
                assert(c_with_key(p1, g) == c_with_key(p0, g));
            }
        } else {
            assert(c_with_key(p1, g) == c_with_key(p0, g));
        }
    }
    assert forall|j: int| 0 <= j < tf1.modified_order_id_map@.len() implies (
    #[trigger] tf1.modified_order_id_map@[j]).previous_add_order == removed_before(
        t1,
        s,
        i + 1,
        tf1.modified_order_id_map@[j].id,
    ) by {
        let x = tf0.modified_order_id_map@[j].id;
        assert(tf1.modified_order_id_map@[j].id == x);
        assert(tf0.modified_order_id_map@[j].previous_add_order == removed_before(t, s, i, x));
        assert(removed_before(t1, s, i, x) == removed_before(t, s, i, x));
    }
    assert forall|g: i64| #![trigger legs_of(p1, g)]
        legs_of(p1, g).len() > 0 implies c_with_key(p1, g).len() > 0 by {
        if legs_of(p0, g).len() > 0 {
            assert(c_with_key(p0, g).len() > 0);
        }
    }
    assert forall|a: int| 0 <= a < g1.len() implies {
        &&& (#[trigger] g1[a]).matched_add_order@ == group_orders(t1, s, i + 1, g1[a].combo_group_id)
        &&& g1[a].p_tags@ == legs_of(p1, g1[a].combo_group_id)
    } by {
        let k = g1[a].combo_group_id;
        assert(group_orders(t1, s, i, k) == group_orders(t, s, i, k));
        if a < g0.len() {
            assert(g0[a].matched_add_order@ == group_orders(t, s, i, k));
            assert(g0[a].p_tags@ == legs_of(p0, k));
        } else {
            assert(group_orders(t, s, i, k).len() == c_with_key(p0, k).len());
            if c_with_key(p0, k).len() > 0 {
                let b = choose|b: int| 0 <= b < g0.len() && (#[trigger] g0[b]).combo_group_id == k;
                assert(g0[b].combo_group_id != k);
            }
            assert(legs_of(p0, k).len() > 0 ==> c_with_key(p0, k).len() > 0);
            assert(group_orders(t, s, i, k) =~= Seq::<AddOrder>::empty());
            assert(legs_of(p0, k) =~= Seq::<LegPrice>::empty());
        }
    }
}

/// The records of a finished batch `s` agree with the books `t[k]` before each message:
/// each standalone deletion carries the order it took off, each execution the order as it
/// stood after it, each amendment the order its deletion took off, and each combination
/// group the orders its executions left and its leg prices.
pub open spec fn records_ok(out: BatchOutput, t: Seq<Map<i64, OrderBook>>, s: Seq<MessageEnum>) -> bool {
    &&& out.deletion@ == deletion_records(t, s, s.len() as int)
    &&& Seq::new(out.executions@.len(), |j: int| out.executions@[j].matched_order_after_execution)
        == execution_orders(t, s, s.len() as int)
    &&& forall|j: int|
        0 <= j < out.modified_orders@.len() ==> Some(
            (#[trigger] out.modified_orders@[j]).previous_add_order,
        ) == removed_before(t, s, s.len() as int, out.modified_orders@[j].id)
    &&& forall|a: int|
        0 <= a < out.ctag_with_ptag@.len() ==> {
            &&& (#[trigger] out.ctag_with_ptag@[a]).matched_add_order@ == group_orders(
                t,
                s,
                s.len() as int,
                out.ctag_with_ptag@[a].combo_group_id,
            )
            &&& out.ctag_with_ptag@[a].p_tags@ == legs_of(s, out.ctag_with_ptag@[a].combo_group_id)
        }
}

/// Longer traces describe the earlier messages as before.
proof fn lemma_records_extend(
    t: Seq<Map<i64, OrderBook>>,
    m: Map<i64, OrderBook>,
    s: Seq<MessageEnum>,
    n: int,
)
    requires
        0 <= n < t.len(),
    ensures
        deletion_records(t.push(m), s, n) == deletion_records(t, s, n),
        execution_orders(t.push(m), s, n) == execution_orders(t, s, n),
        forall|x: UniqueId| #[trigger]
            removed_before(t.push(m), s, n, x) == removed_before(t, s, n, x),
        forall|g: i64| #[trigger] group_orders(t.push(m), s, n, g) == group_orders(t, s, n, g),
    decreases n,
{
    if n > 0 {
        lemma_records_extend(t, m, s, n - 1);
        assert(t.push(m)[n - 1] == t[n - 1]);
        assert forall|x: UniqueId| #[trigger]
            removed_before(t.push(m), s, n, x) == removed_before(t, s, n, x) by {
            assert(removed_before(t.push(m), s, n - 1, x) == removed_before(t, s, n - 1, x));
        }
        assert forall|g: i64| #[trigger]
            group_orders(t.push(m), s, n, g) == group_orders(t, s, n, g) by {
            assert(group_orders(t.push(m), s, n - 1, g) == group_orders(t, s, n - 1, g));
        }
    }
}

/// What holds of a batch's output once the first `i` messages of `s` are processed.
pub open spec fn timeframe_inv(tf: PerTimeframe, s: Seq<MessageEnum>, i: int) -> bool {
    &&& 0 <= i <= s.len()
    &&& slots_match(slot_ids(tf.modified_order_id_map@), s)
    &&& forall|j: int|
        0 <= j < tf.created@.len() ==> !is_amended(
            s,
            #[trigger] add_id_of(MessageEnum::AddOrder(tf.created@[j]))->0,
        )
    &&& forall|j: int|
        0 <= j < tf.deletion@.len() ==> !is_amended(
            s,
            #[trigger] delete_id_of(MessageEnum::DeleteOrder(tf.deletion@[j].msg))->0,
        )
    &&& groups_inv(tf.ctag_with_ptag@, s.subrange(0, i))
    &&& tf.changes@.no_duplicates()
    &&& tf.created@ == fresh_adds(s.subrange(0, i), s)
    &&& deletion_msgs(tf.deletion@) == standalone_deletes(s.subrange(0, i), s)
    &&& tf.second_messages@ == seconds_of(s.subrange(0, i))
    &&& tf.changes@.to_set() == touched(s.subrange(0, i))
    &&& reports_executions(tf.executions@, executions_of(s.subrange(0, i)))
    &&& slots_track(tf.modified_order_id_map@, s.subrange(0, i))
}

/// Each combination group of the batch so far holds exactly the executions with price
/// information of its group, in order; no group appears twice, and none is empty.
pub open spec fn groups_inv(g: Seq<CTagWithCorrespondingPTag>, s: Seq<MessageEnum>) -> bool {
    &&& forall|a: int, b: int|
        0 <= a < b < g.len() ==> (#[trigger] g[a]).combo_group_id != (#[trigger] g[b]).combo_group_id
    &&& forall|a: int|
        0 <= a < g.len() ==> (#[trigger] g[a]).c_tag@ == c_with_key(s, g[a].combo_group_id)
    &&& forall|a: int| 0 <= a < g.len() ==> (#[trigger] g[a]).c_tag@.len() > 0
    &&& forall|k: i64|
        #![trigger c_with_key(s, k)]
        c_with_key(s, k).len() > 0 ==> exists|a: int|
            0 <= a < g.len() && (#[trigger] g[a]).combo_group_id == k
}

/// What a finished batch reports about amendments and combination groups.
pub open spec fn batch_output_ok(out: BatchOutput, s: Seq<MessageEnum>) -> bool {
    // every amended order gives exactly one amendment record
    &&& forall|x: UniqueId|
        is_amended(s, x) ==> exists|j: int|
            0 <= j < out.modified_orders@.len() && (#[trigger] out.modified_orders@[j]).id == x
    &&& forall|a: int, b: int|
        0 <= a < b < out.modified_orders@.len() ==> (#[trigger] out.modified_orders@[a]).id
            != (#[trigger] out.modified_orders@[b]).id
    &&& forall|j: int|
        0 <= j < out.modified_orders@.len() ==> is_amended(
            s,
            (#[trigger] out.modified_orders@[j]).id,
        )
    // and is reported neither as created nor as deleted
    &&& forall|j: int|
        0 <= j < out.created@.len() ==> !is_amended(
            s,
            #[trigger] add_id_of(MessageEnum::AddOrder(out.created@[j]))->0,
        )
    &&& forall|j: int|
        0 <= j < out.deletion@.len() ==> !is_amended(
            s,
            #[trigger] delete_id_of(MessageEnum::DeleteOrder(out.deletion@[j].msg))->0,
        )
    &&& forall|j: int|
        0 <= j < out.modified_orders@.len() ==> (#[trigger] out.modified_orders@[j]).modify_type
            == modify_type_of(out.modified_orders@[j].modify_msg, out.modified_orders@[j].previous_add_order)
    // an amendment record holds the batch's new order and deletion of its order
    &&& forall|j: int|
        0 <= j < out.modified_orders@.len() ==> {
            &&& Some((#[trigger] out.modified_orders@[j]).modify_msg) == last_add(
                s,
                out.modified_orders@[j].id,
            )
            &&& Some(out.modified_orders@[j].delete_msg) == last_delete(s, out.modified_orders@[j].id)
        }
    // the groups whose records do not balance
    &&& out.unbalanced@ == unbalanced_keys(out.ctag_with_ptag@)
    // every combination group of the batch gives one record holding all its executions
    &&& groups_inv(out.ctag_with_ptag@, s)
    // new orders, deletions and second markers outside amendments, in order
    &&& out.created@ == fresh_adds(s, s)
    &&& deletion_msgs(out.deletion@) == standalone_deletes(s, s)
    &&& out.second_messages@ == seconds_of(s)
    &&& reports_executions(out.executions@, executions_of(s))
    // the instruments whose orders changed, each once
    &&& out.changes@.no_duplicates()
    &&& out.changes@.to_set() == touched(s)
}

fn contains_id(v: &Vec<UniqueId>, x: UniqueId) -> (r: bool)
    ensures
        r == v@.contains(x),
{
    let mut j: usize = 0;
    while j < v.len()
        invariant
            j <= v@.len(),
            forall|k: int| 0 <= k < j ==> v@[k] != x,
        decreases v@.len() - j,
    {
        if v[j] == x {
            return true;
        }
        j = j + 1;
    }
    false
}

fn deletes_id(stack: &Vec<MessageEnum>, x: UniqueId) -> (r: bool)
    ensures
        r == exists|t: int| 0 <= t < stack@.len() && #[trigger] delete_id_of(stack@[t]) == Some(x),
{
    let mut k: usize = 0;
    while k < stack.len()
        invariant
            k <= stack@.len(),
            forall|t: int| 0 <= t < k ==> #[trigger] delete_id_of(stack@[t]) != Some(x),
        decreases stack@.len() - k,
    {
        if let MessageEnum::DeleteOrder(d) = &stack[k] {
            if UniqueId::from_delete_order(d) == x {
                assert(delete_id_of(stack@[k as int]) == Some(x));
                return true;
            }
        }
        k = k + 1;
    }
    false
}

/// The amendments of `stack`: ids that the batch both adds and deletes, each once.
pub fn modify_candidates(stack: &Vec<MessageEnum>) -> (r: Vec<UniqueId>)
    ensures
        slots_match(r@, stack@),
{
    let ghost s = stack@;
    let mut r: Vec<UniqueId> = Vec::new();
    let mut i: usize = 0;
    while i < stack.len()
        invariant
            s == stack@,
            i <= s.len(),
            r@.no_duplicates(),
            forall|x: UniqueId|
                #[trigger] r@.contains(x) <==> (is_amended(s, x) && exists|k: int|
                    0 <= k < i && #[trigger] add_id_of(s[k]) == Some(x)),
        decreases s.len() - i,
    {
        if let MessageEnum::AddOrder(a) = &stack[i] {
            let x = UniqueId::from_add_order(a);
            assert(add_id_of(s[i as int]) == Some(x));
            let ghost r0 = r@;
            let pushed = !contains_id(&r, x) && deletes_id(stack, x);
            if pushed {
                r.push(x);
            }
            proof {
                assert(r@ == r0 || r@ == r0.push(x));
                assert forall|y: UniqueId| #[trigger] r@.contains(y) <==> (is_amended(s, y)
                    && exists|k: int| 0 <= k < i + 1 && #[trigger] add_id_of(s[k]) == Some(y)) by {
                    if r@.contains(y) {
                        let idx = choose|idx: int| 0 <= idx < r@.len() && r@[idx] == y;
                        if idx < r0.len() {
                            assert(r0[idx] == y);
                            assert(r0.contains(y));
                        } else {
                            assert(y == x);
                        }
                    }
                    if y == x {
                        if r0.contains(x) {
                            let idx = choose|idx: int| 0 <= idx < r0.len() && r0[idx] == x;
                            assert(r@[idx] == x);
                        } else if pushed {
                            assert(r@[r0.len() as int] == x);
                        }
                    } else if r0.contains(y) {
                        let idx = choose|idx: int| 0 <= idx < r0.len() && r0[idx] == y;
                        assert(r@[idx] == y);
                    }
                    if y != x && exists|k: int|
                        0 <= k < i + 1 && #[trigger] add_id_of(s[k]) == Some(y) {
                        let k = choose|k: int| 0 <= k < i + 1 && #[trigger] add_id_of(s[k]) == Some(y);
                        assert(k != i);
                        assert(exists|k: int| 0 <= k < i && #[trigger] add_id_of(s[k]) == Some(y));
                    }
                }
            }
        } else {
            assert forall|y: UniqueId| #[trigger] r@.contains(y) <==> (is_amended(s, y) && exists|
                k: int,
            | 0 <= k < i + 1 && #[trigger] add_id_of(s[k]) == Some(y)) by {
                if r@.contains(y) {
                    let k = choose|k: int| 0 <= k < i && #[trigger] add_id_of(s[k]) == Some(y);
                    assert(0 <= k < i + 1);
                }
                if is_amended(s, y) && exists|k: int|
                    0 <= k < i + 1 && #[trigger] add_id_of(s[k]) == Some(y) {
                    let k = choose|k: int| 0 <= k < i + 1 && #[trigger] add_id_of(s[k]) == Some(y);
                    assert(k != i);
                    assert(exists|k: int| 0 <= k < i && #[trigger] add_id_of(s[k]) == Some(y));
                }
            }
        }
        i = i + 1;
    }
    assert forall|x: UniqueId| #[trigger] r@.contains(x) <==> is_amended(s, x) by {
        if is_amended(s, x) {
            let k = choose|k: int| 0 <= k < s.len() && #[trigger] add_id_of(s[k]) == Some(x);
            assert(exists|k: int| 0 <= k < i && #[trigger] add_id_of(s[k]) == Some(x));
        }
    }
    r
}

/// Only book `id` may differ between `m0` and `m1`; both hold the same instruments.
pub open spec fn only_book_changed(m0: Map<i64, OrderBook>, m1: Map<i64, OrderBook>, id: i64) -> bool {
    &&& m1.dom() == m0.dom()
    &&& forall|k: i64| #[trigger] m1.contains_key(k) && k != id ==> m1[k] == m0[k]
}

/// Book `b1` is `b0` with its orders as they were and one reference list changed.
pub open spec fn same_orders_of(b0: OrderBook, b1: OrderBook) -> bool {
    &&& b1.half(Side::Buy) == b0.half(Side::Buy)
    &&& b1.half(Side::Sell) == b0.half(Side::Sell)
    &&& b1.product_info == b0.product_info
}

/// Executing `qty` against order `id` on `side` of `b0` succeeds and leaves `b1`.
pub open spec fn executes(b0: OrderBook, b1: OrderBook, side: Side, id: i64, qty: i64) -> bool {
    match b0.spec_order(side, id) {
        None => false,
        Some(o) => {
            let left = o.quantity - qty;
            &&& 0 <= left <= i64::MAX
            &&& execution_outcome(&b0, &b1, side, id, qty, Ok(AddOrder { quantity: left as i64, ..o }))
            &&& b1.only_side_changed(&b0, side)
        },
    }
}

/// Whether message `msg` can be applied to books `m` after the messages `p` of its batch:
/// order messages need their book and, but for new orders, their order; a new order's id
/// must be free; an execution may not exceed the order; a description of a known
/// instrument must match it; a leg price needs an execution of its group earlier in `p`.
pub open spec fn msg_succeeds(m: Map<i64, OrderBook>, msg: MessageEnum, p: Seq<MessageEnum>) -> bool {
    match msg {
        MessageEnum::AddOrder(a) => m.contains_key(a.order_book_id) && !m[a.order_book_id].locator(
            a.side,
        ).contains_key(a.order_id),
        MessageEnum::DeleteOrder(d) => m.contains_key(d.order_book_id) && m[d.order_book_id].spec_order(
            d.side,
            d.order_id,
        ) is Some,
        MessageEnum::Executed(e) => m.contains_key(e.order_book_id) && match m[e.order_book_id].spec_order(
            e.side,
            e.order_id,
        ) {
            Some(o) => 0 <= o.quantity - e.executed_quantity <= i64::MAX,
            None => false,
        },
        MessageEnum::ExecutionWithPriceInfo(c) => m.contains_key(c.order_book_id) && match m[c.order_book_id].spec_order(
            c.side,
            c.order_id,
        ) {
            Some(o) => 0 <= o.quantity - c.executed_quantity <= i64::MAX,
            None => false,
        },
        MessageEnum::ProductInfo(pi) => m.contains_key(pi.order_book_id) ==> same_product(
            m[pi.order_book_id].product_info,
            pi,
        ),
        MessageEnum::LegPrice(l) => c_with_key(p, l.combo_group_id).len() > 0,
        _ => true,
    }
}

/// Why executing `qty` against order `id` on `side` of `b` fails.
pub open spec fn execution_error(b: OrderBook, side: Side, id: i64, qty: i64) -> BookError {
    match b.spec_order(side, id) {
        None => BookError::MissingOrder,
        Some(o) => if o.quantity - qty < 0 {
            BookError::NegativeQuantity
        } else {
            BookError::QuantityOverflow
        },
    }
}

/// `f` is the fault that message `msg` raises on books `m`: it names the message, and for
/// an order message says whether the book or the order was missing, the id taken, or the
/// execution too large.
pub open spec fn raises(f: Fault, msg: MessageEnum, m: Map<i64, OrderBook>) -> bool {
    match msg {
        MessageEnum::AddOrder(a) => f == if !m.contains_key(a.order_book_id) {
            Fault::MissingBook(msg)
        } else {
            Fault::Rejected(BookError::DuplicateOrder, msg)
        },
        MessageEnum::DeleteOrder(d) => f == if !m.contains_key(d.order_book_id) {
            Fault::MissingBook(msg)
        } else {
            Fault::Rejected(BookError::MissingOrder, msg)
        },
        MessageEnum::ExecutionWithPriceInfo(c) => f == if !m.contains_key(c.order_book_id) {
            Fault::MissingBook(msg)
        } else {
            Fault::Rejected(
                execution_error(m[c.order_book_id], c.side, c.order_id, c.executed_quantity),
                msg,
            )
        },
        MessageEnum::Executed(e) => match f {
            Fault::MissingBook(MessageEnum::Executed(x)) => !m.contains_key(e.order_book_id)
                && same_executed(x, e),
            Fault::Rejected(err, MessageEnum::Executed(x)) => m.contains_key(e.order_book_id)
                && same_executed(x, e) && err == execution_error(
                m[e.order_book_id],
                e.side,
                e.order_id,
                e.executed_quantity,
            ),
            _ => false,
        },
        MessageEnum::ProductInfo(_) => f is DivergentProduct,
        MessageEnum::LegPrice(l) => f == Fault::UnmatchedLegPrice(l),
        _ => false,
    }
}

/// What applying message `msg` did to the books, `m0` before and `m1` after, when it
/// succeeded.
pub open spec fn msg_effect(m0: Map<i64, OrderBook>, m1: Map<i64, OrderBook>, msg: MessageEnum) -> bool {
    match msg {
        MessageEnum::AddOrder(a) => {
            let id = a.order_book_id;
            &&& only_book_changed(m0, m1, id)
            &&& m1[id].levels(a.side) == add_spec(m0[id].levels(a.side), a)
            &&& m1[id].locator(a.side) == m0[id].locator(a.side).insert(a.order_id, a.price)
            &&& m1[id].only_side_changed(&m0[id], a.side)
        },
        MessageEnum::DeleteOrder(d) => {
            let id = d.order_book_id;
            &&& only_book_changed(m0, m1, id)
            &&& m1[id].levels(d.side) == remove_spec(
                m0[id].levels(d.side),
                m0[id].locator(d.side)[d.order_id],
                d.order_id,
            )
            &&& m1[id].locator(d.side) == m0[id].locator(d.side).remove(d.order_id)
            &&& m1[id].only_side_changed(&m0[id], d.side)
        },
        MessageEnum::Executed(e) => {
            &&& only_book_changed(m0, m1, e.order_book_id)
            &&& executes(m0[e.order_book_id], m1[e.order_book_id], e.side, e.order_id, e.executed_quantity)
        },
        MessageEnum::ExecutionWithPriceInfo(c) => {
            &&& only_book_changed(m0, m1, c.order_book_id)
            &&& executes(m0[c.order_book_id], m1[c.order_book_id], c.side, c.order_id, c.executed_quantity)
        },
        MessageEnum::ProductInfo(p) => if m0.contains_key(p.order_book_id) {
            m1 == m0
        } else {
            &&& m1.dom() == m0.dom().insert(p.order_book_id)
            &&& forall|k: i64| #[trigger] m0.contains_key(k) ==> m1[k] == m0[k]
            &&& m1[p.order_book_id].levels(Side::Buy).len() == 0
            &&& m1[p.order_book_id].levels(Side::Sell).len() == 0
        },
        MessageEnum::TradingStatusInfo(t) => if m0.contains_key(t.order_book_id) {
            let (b0, b1) = (m0[t.order_book_id], m1[t.order_book_id]);
            &&& only_book_changed(m0, m1, t.order_book_id)
            &&& same_orders_of(b0, b1)
            &&& b1.trading_status@.len() == b0.trading_status@.len() + 1
            &&& b1.trading_status@.drop_last() == b0.trading_status@
            &&& same_status(b1.trading_status@.last(), t)
            &&& b1.tick_info@ == b0.tick_info@
            &&& b1.equibrium_price@ == b0.equibrium_price@
            &&& b1.combination_product_info@ == b0.combination_product_info@
        } else {
            m1 == m0
        },
        MessageEnum::TickSize(l) => if m0.contains_key(l.order_book_id) {
            let (b0, b1) = (m0[l.order_book_id], m1[l.order_book_id]);
            &&& only_book_changed(m0, m1, l.order_book_id)
            &&& same_orders_of(b0, b1)
            &&& b1.tick_info@ == b0.tick_info@.push(l)
            &&& b1.trading_status@ == b0.trading_status@
            &&& b1.equibrium_price@ == b0.equibrium_price@
            &&& b1.combination_product_info@ == b0.combination_product_info@
        } else {
            m1 == m0
        },
        MessageEnum::EquilibriumPrice(z) => if m0.contains_key(z.order_book_id) {
            let (b0, b1) = (m0[z.order_book_id], m1[z.order_book_id]);
            &&& only_book_changed(m0, m1, z.order_book_id)
            &&& same_orders_of(b0, b1)
            &&& b1.equibrium_price@ == b0.equibrium_price@.push(z)
            &&& b1.tick_info@ == b0.tick_info@
            &&& b1.trading_status@ == b0.trading_status@
            &&& b1.combination_product_info@ == b0.combination_product_info@
        } else {
            m1 == m0
        },
        MessageEnum::CombinationProduct(c) => if m0.contains_key(c.combination_order_book_id) {
            let (b0, b1) = (m0[c.combination_order_book_id], m1[c.combination_order_book_id]);
            &&& only_book_changed(m0, m1, c.combination_order_book_id)
            &&& same_orders_of(b0, b1)
            &&& b1.combination_product_info@ == b0.combination_product_info@.push(c)
            &&& b1.tick_info@ == b0.tick_info@
            &&& b1.trading_status@ == b0.trading_status@
            &&& b1.equibrium_price@ == b0.equibrium_price@
        } else {
            m1 == m0
        },
        _ => m1 == m0,
    }
}

/// `trace` runs from `m0` to `m1` through the messages of `s`, each applied successfully.
pub open spec fn is_trace(
    trace: Seq<Map<i64, OrderBook>>,
    m0: Map<i64, OrderBook>,
    m1: Map<i64, OrderBook>,
    s: Seq<MessageEnum>,
) -> bool {
    &&& trace.len() == s.len() + 1
    &&& trace[0] == m0
    &&& trace[s.len() as int] == m1
    &&& forall|k: int| 0 <= k < s.len() ==> msg_effect(trace[k], trace[k + 1], #[trigger] s[k])
}

/// Every message of batch `s` could be applied to the books `t[k]` before it.
pub open spec fn all_succeed(t: Seq<Map<i64, OrderBook>>, s: Seq<MessageEnum>) -> bool {
    forall|k: int| 0 <= k < s.len() ==> msg_succeeds(t[k], #[trigger] s[k], s.subrange(0, k))
}

/// Records that instrument `id` changed.
fn touch(changes: &mut Vec<i64>, id: i64)
    requires
        old(changes)@.no_duplicates(),
    ensures
        final(changes)@.no_duplicates(),
        final(changes)@.to_set() == old(changes)@.to_set().insert(id),
{
    let mut j: usize = 0;
    while j < changes.len()
        invariant
            changes@ == old(changes)@,
            changes@.no_duplicates(),
            j <= changes@.len(),
            forall|k: int| 0 <= k < j ==> changes@[k] != id,
        decreases changes@.len() - j,
    {
        if changes[j] == id {
            assert(changes@[j as int] == id);
            assert(changes@.to_set() =~= old(changes)@.to_set().insert(id));
            return;
        }
        j = j + 1;
    }
    let ghost c0 = changes@;
    changes.push(id);
    assert(changes@.to_set() =~= c0.to_set().insert(id)) by {
        assert forall|x: i64| changes@.to_set().contains(x) <==> c0.to_set().insert(id).contains(x) by {
            if changes@.contains(x) {
                let k = choose|k: int| 0 <= k < changes@.len() && changes@[k] == x;
                if k < c0.len() {
                    assert(c0[k] == x);
                }
            }
            if c0.contains(x) {
                let k = choose|k: int| 0 <= k < c0.len() && c0[k] == x;
                assert(changes@[k] == x);
            }
            if x == id {
                assert(changes@[c0.len() as int] == id);
            }
        }
    }
}

/// The slot of amendment `x`.
fn find_slot(slots: &Vec<ModifySlot>, x: UniqueId) -> (r: Option<usize>)
    ensures
        match r {
            Some(j) => j < slots@.len() && slots@[j as int].id == x,
            None => !slot_ids(slots@).contains(x),
        },
{
    let mut j: usize = 0;
    while j < slots.len()
        invariant
            j <= slots@.len(),
            forall|k: int| 0 <= k < j ==> slots@[k].id != x,
        decreases slots@.len() - j,
    {
        if slots[j].id == x {
            return Some(j);
        }
        j = j + 1;
    }
    assert forall|k: int| 0 <= k < slots@.len() implies slot_ids(slots@)[k] != x by {}
    None
}

/// The position of combination group `g`.
fn find_group(groups: &Vec<CTagWithCorrespondingPTag>, g: i64) -> (r: Option<usize>)
    ensures
        match r {
            Some(a) => a < groups@.len() && groups@[a as int].combo_group_id == g,
            None => forall|a: int| 0 <= a < groups@.len() ==> groups@[a].combo_group_id != g,
        },
{
    let mut a: usize = 0;
    while a < groups.len()
        invariant
            a <= groups@.len(),
            forall|k: int| 0 <= k < a ==> groups@[k].combo_group_id != g,
        decreases groups@.len() - a,
    {
        if groups[a].combo_group_id == g {
            return Some(a);
        }
        a = a + 1;
    }
    None
}

/// A message that is no execution with price information leaves every combination
/// group as it was.
proof fn lemma_c_with_key_other(s: Seq<MessageEnum>, i: int)
    requires
        0 <= i < s.len(),
        !(s[i] is ExecutionWithPriceInfo),
    ensures
        forall|k: i64| #[trigger] c_with_key(s.subrange(0, i + 1), k) == c_with_key(s.subrange(0, i), k),
{
    assert(s.subrange(0, i + 1).drop_last() =~= s.subrange(0, i));
}

/// An execution with price information joins its own combination group only.
proof fn lemma_c_with_key_exec(s: Seq<MessageEnum>, i: int, c: ExecutionWithPriceInfo)
    requires
        0 <= i < s.len(),
        s[i] == MessageEnum::ExecutionWithPriceInfo(c),
    ensures
        forall|k: i64| #[trigger]
            c_with_key(s.subrange(0, i + 1), k) == if k == c.combo_group_id {
                c_with_key(s.subrange(0, i), k).push(c)
            } else {
                c_with_key(s.subrange(0, i), k)
            },
{
    assert(s.subrange(0, i + 1).drop_last() =~= s.subrange(0, i));
}

/// Groups stay as they were while messages of other kinds go by.
proof fn lemma_groups_other(g: Seq<CTagWithCorrespondingPTag>, s: Seq<MessageEnum>, i: int)
    requires
        0 <= i < s.len(),
        !(s[i] is ExecutionWithPriceInfo),
        groups_inv(g, s.subrange(0, i)),
    ensures
        groups_inv(g, s.subrange(0, i + 1)),
{
    lemma_c_with_key_other(s, i);
    assert forall|k: i64| #![trigger c_with_key(s.subrange(0, i + 1), k)]
        c_with_key(s.subrange(0, i + 1), k).len() > 0 implies exists|a: int|
        0 <= a < g.len() && (#[trigger] g[a]).combo_group_id == k by {
        assert(c_with_key(s.subrange(0, i), k).len() > 0);
    }
}

/// The resting order `id` on `side` of book `book_id`; otherwise whether the book exists.
fn lookup(order_book_map: &BookMap, book_id: i64, id: i64, side: Side) -> (r: Result<
    AddOrder,
    bool,
>)
    requires
        books_wf(order_book_map@),
    ensures
        match r {
            Ok(o) => order_book_map@.contains_key(book_id) && order_book_map@[book_id].spec_order(
                side,
                id,
            ) == Some(o),
            Err(has_book) => has_book == order_book_map@.contains_key(book_id) && (has_book
                ==> order_book_map@[book_id].spec_order(side, id) is None),
        },
{
    match order_book_map.get(&book_id) {
        Some(book) => match book.order(&id, &side) {
            Some(o) => Ok(o),
            None => Err(true),
        },
        None => Err(false),
    }
}

/// Applies message `msg`, the `i`-th of batch `s`, to the books and records what it
/// produced in `tf`.
#[verifier::spinoff_prover]
#[verifier::rlimit(100)]
fn process_msg(
    order_book_map: &mut BookMap,
    msg: &MessageEnum,
    tf: &mut PerTimeframe,
    Ghost(s): Ghost<Seq<MessageEnum>>,
    Ghost(i): Ghost<int>,
    Ghost(t): Ghost<Seq<Map<i64, OrderBook>>>,
) -> (r: Result<(), Fault>)
    requires
        books_wf(old(order_book_map)@),
        timeframe_inv(*old(tf), s, i),
        i < s.len(),
        s[i] == *msg,
        t.len() == i + 1,
        t[i] == old(order_book_map)@,
        records_inv(*old(tf), t, s, i),
    ensures
        r is Ok ==> records_inv(*final(tf), t.push(final(order_book_map)@), s, i + 1),
        books_wf(final(order_book_map)@),
        r is Ok <==> msg_succeeds(old(order_book_map)@, *msg, s.subrange(0, i)),
        r is Ok ==> timeframe_inv(*final(tf), s, i + 1),
        r is Ok ==> msg_effect(old(order_book_map)@, final(order_book_map)@, *msg),
        r matches Err(f) ==> final(order_book_map)@ == old(order_book_map)@ && raises(
            f,
            *msg,
            old(order_book_map)@,
        ),
{
    let ghost g0 = tf.ctag_with_ptag@;
    let ghost m0 = order_book_map@;
    let ghost d0 = tf.deletion@;
    let ghost sl0 = tf.modified_order_id_map@;
    let ghost e0 = tf.executions@;
    proof {
        assert(s.subrange(0, i + 1).drop_last() =~= s.subrange(0, i));
        assert(s.subrange(0, i + 1).last() == s[i]);
    }
    match msg {
        MessageEnum::SecondTag(m) => {
            tf.second_messages.push(*m);
            proof {
                lemma_groups_other(g0, s, i);
            }
        },
        MessageEnum::ProductInfo(info) => {
            let id = info.order_book_id;
            match order_book_map.get(&id) {
                Some(existing) => {
                    if !existing.product_info.same_product(info) {
                        return Err(
                            Fault::DivergentProduct(existing.product_info.clone(), info.clone()),
                        );
                    }
                },
                None => {
                    order_book_map.insert(id, OrderBook::new(info.clone()));
                    assert(order_book_map@.dom() =~= m0.dom().insert(id));
                },
            }
            proof {
                lemma_groups_other(g0, s, i);
            }
        },
        MessageEnum::TradingStatusInfo(m) => {
            match order_book_map.remove(&m.order_book_id) {
                Some(mut book) => {
                    let ghost log0 = book.trading_status@;
                    let status = m.duplicate();
                    book.push_trading_status(status);
                    assert(book.trading_status@.drop_last() =~= log0);
                    assert(book.trading_status@.last() == status);
                    order_book_map.insert(m.order_book_id, book);
                    assert(order_book_map@ =~= m0.insert(m.order_book_id, book));
                    assert(order_book_map@.dom() =~= m0.dom());
                },
                None => {
                    assert(order_book_map@ =~= m0);
                    tf.dropped.push(msg.clone());
                },
            }
            proof {
                lemma_groups_other(g0, s, i);
            }
        },
        MessageEnum::TickSize(m) => {
            match order_book_map.remove(&m.order_book_id) {
                Some(mut book) => {
                    book.append_l(*m);
                    order_book_map.insert(m.order_book_id, book);
                    assert(order_book_map@ =~= m0.insert(m.order_book_id, book));
                    assert(order_book_map@.dom() =~= m0.dom());
                },
                None => {
                    assert(order_book_map@ =~= m0);
                    tf.dropped.push(msg.clone());
                },
            }
            proof {
                lemma_groups_other(g0, s, i);
            }
        },
        MessageEnum::EquilibriumPrice(m) => {
            match order_book_map.remove(&m.order_book_id) {
                Some(mut book) => {
                    book.push_last_equilibrium_price(*m);
                    order_book_map.insert(m.order_book_id, book);
                    assert(order_book_map@ =~= m0.insert(m.order_book_id, book));
                    assert(order_book_map@.dom() =~= m0.dom());
                },
                None => {
                    assert(order_book_map@ =~= m0);
                    tf.dropped.push(msg.clone());
                },
            }
            proof {
                lemma_groups_other(g0, s, i);
            }
        },
        MessageEnum::CombinationProduct(m) => {
            match order_book_map.remove(&m.combination_order_book_id) {
                Some(mut book) => {
                    book.push_combination_orderbook(*m);
                    order_book_map.insert(m.combination_order_book_id, book);
                    assert(order_book_map@ =~= m0.insert(m.combination_order_book_id, book));
                    assert(order_book_map@.dom() =~= m0.dom());
                },
                None => {
                    assert(order_book_map@ =~= m0);
                    tf.dropped.push(msg.clone());
                },
            }
            proof {
                lemma_groups_other(g0, s, i);
            }
        },
        MessageEnum::SystemEventInfo(_) => {
            proof {
                lemma_groups_other(g0, s, i);
            }
        },
        MessageEnum::AddOrder(a) => {
            touch(&mut tf.changes, a.order_book_id);
            let x = UniqueId::from_add_order(a);
            assert(add_id_of(s[i]) == Some(x));
            match find_slot(&tf.modified_order_id_map, x) {
                Some(j) => {
                    assert(slot_ids(tf.modified_order_id_map@)[j as int] == x);
                    assert(slot_ids(tf.modified_order_id_map@).contains(x));
                    let mut slot = tf.modified_order_id_map[j];
                    slot.modify_msg = Some(*a);
                    tf.modified_order_id_map.set(j, slot);
                    assert(slot_ids(tf.modified_order_id_map@) =~= slot_ids(
                        old(tf).modified_order_id_map@,
                    ));
                    proof {
                        let sl1 = tf.modified_order_id_map@;
                        assert forall|k: int| 0 <= k < sl1.len() implies {
                            &&& (#[trigger] sl1[k]).modify_msg == last_add(
                                s.subrange(0, i + 1),
                                sl1[k].id,
                            )
                            &&& sl1[k].delete_msg == last_delete(s.subrange(0, i + 1), sl1[k].id)
                            &&& (sl1[k].delete_msg is Some <==> sl1[k].previous_add_order is Some)
                        } by {
                            if k != j {
                                assert(sl1[k] == sl0[k]);
                                assert(slot_ids(sl0)[k] != slot_ids(sl0)[j as int]);
                            }
                        }
                    }
                },
                None => {
                    tf.created.push(*a);
                    proof {
                        assert forall|k: int| 0 <= k < sl0.len() implies add_id_of(s[i]) != Some(
                            (#[trigger] sl0[k]).id,
                        ) && delete_id_of(s[i]) != Some(sl0[k].id) by {
                            assert(slot_ids(sl0)[k] == sl0[k].id);
                        }
                        lemma_track_step(sl0, s, i);
                    }
                },
            }
            match lookup(order_book_map, a.order_book_id, a.order_id, a.side) {
                Ok(_) => {
                    return Err(Fault::Rejected(BookError::DuplicateOrder, MessageEnum::AddOrder(*a)));
                },
                Err(false) => {
                    return Err(Fault::MissingBook(MessageEnum::AddOrder(*a)));
                },
                Err(true) => {},
            }
            let mut book = match order_book_map.remove(&a.order_book_id) {
                Some(b) => b,
                None => {
                    return Err(Fault::MissingBook(MessageEnum::AddOrder(*a)));
                },
            };
            let added = book.add(*a);
            order_book_map.insert(a.order_book_id, book);
            assert(order_book_map@ =~= m0.insert(a.order_book_id, book));
            assert(order_book_map@.dom() =~= m0.dom());
            if let Err(e) = added {
                return Err(Fault::Rejected(e, MessageEnum::AddOrder(*a)));
            }
            proof {
                lemma_groups_other(g0, s, i);
            }
        },
        MessageEnum::DeleteOrder(d) => {
            match lookup(order_book_map, d.order_book_id, d.order_id, d.side) {
                Ok(_) => {},
                Err(false) => {
                    return Err(Fault::MissingBook(MessageEnum::DeleteOrder(*d)));
                },
                Err(true) => {
                    return Err(Fault::Rejected(BookError::MissingOrder, MessageEnum::DeleteOrder(*d)));
                },
            }
            touch(&mut tf.changes, d.order_book_id);
            let mut book = match order_book_map.remove(&d.order_book_id) {
                Some(b) => b,
                None => {
                    return Err(Fault::MissingBook(MessageEnum::DeleteOrder(*d)));
                },
            };
            let removed = book.delete(d);
            order_book_map.insert(d.order_book_id, book);
            assert(order_book_map@ =~= m0.insert(d.order_book_id, book));
            assert(order_book_map@.dom() =~= m0.dom());
            let o = match removed {
                Ok(o) => o,
                Err(e) => {
                    return Err(Fault::Rejected(e, MessageEnum::DeleteOrder(*d)));
                },
            };
            let x = UniqueId::from_delete_order(d);
            assert(delete_id_of(s[i]) == Some(x));
            match find_slot(&tf.modified_order_id_map, x) {
                Some(j) => {
                    assert(slot_ids(tf.modified_order_id_map@)[j as int] == x);
                    assert(slot_ids(tf.modified_order_id_map@).contains(x));
                    let mut slot = tf.modified_order_id_map[j];
                    slot.delete_msg = Some(*d);
                    slot.previous_add_order = Some(o);
                    tf.modified_order_id_map.set(j, slot);
                    assert(slot_ids(tf.modified_order_id_map@) =~= slot_ids(
                        old(tf).modified_order_id_map@,
                    ));
                    proof {
                        let sl1 = tf.modified_order_id_map@;
                        assert(o == removed_order(m0, *d));
                        assert(tf.deletion@ =~= d0 + step_deletion(m0, s[i], s));
                        assert forall|k: int| 0 <= k < sl1.len() implies (#[trigger] sl1[k]).id
                            == sl0[k].id && sl1[k].previous_add_order == (if delete_id_of(s[i])
                            == Some(sl0[k].id) {
                            Some(removed_order(m0, *d))
                        } else {
                            sl0[k].previous_add_order
                        }) by {
                            if k != j {
                                assert(sl1[k] == sl0[k]);
                                assert(slot_ids(sl0)[k] != slot_ids(sl0)[j as int]);
                            }
                        }
                        assert forall|k: int| 0 <= k < sl1.len() implies {
                            &&& (#[trigger] sl1[k]).modify_msg == last_add(
                                s.subrange(0, i + 1),
                                sl1[k].id,
                            )
                            &&& sl1[k].delete_msg == last_delete(s.subrange(0, i + 1), sl1[k].id)
                            &&& (sl1[k].delete_msg is Some <==> sl1[k].previous_add_order is Some)
                        } by {
                            if k != j {
                                assert(sl1[k] == sl0[k]);
                                assert(slot_ids(sl0)[k] != slot_ids(sl0)[j as int]);
                            }
                        }
                    }
                },
                None => {
                    tf.deletion.push(OrderDeletion { deleted_order: o, msg: *d });
                    assert(deletion_msgs(tf.deletion@) =~= deletion_msgs(d0).push(*d));
                    proof {
                        assert(o == removed_order(m0, *d));
                        assert(!is_amended(s, x));
                        assert(tf.deletion@ =~= d0 + step_deletion(m0, s[i], s));
                        assert forall|k: int| 0 <= k < sl0.len() implies add_id_of(s[i]) != Some(
                            (#[trigger] sl0[k]).id,
                        ) && delete_id_of(s[i]) != Some(sl0[k].id) by {
                            assert(slot_ids(sl0)[k] == sl0[k].id);
                        }
                        lemma_track_step(sl0, s, i);
                    }
                },
            }
            proof {
                lemma_groups_other(g0, s, i);
            }
        },
        MessageEnum::Executed(e) => {
            match lookup(order_book_map, e.order_book_id, e.order_id, e.side) {
                Ok(resting) => {
                    let left = resting.quantity as i128 - e.executed_quantity as i128;
                    if left < 0 {
                        return Err(
                            Fault::Rejected(BookError::NegativeQuantity, MessageEnum::Executed(e.duplicate())),
                        );
                    }
                    if left > i64::MAX as i128 {
                        return Err(
                            Fault::Rejected(BookError::QuantityOverflow, MessageEnum::Executed(e.duplicate())),
                        );
                    }
                },
                Err(false) => {
                    return Err(Fault::MissingBook(MessageEnum::Executed(e.duplicate())));
                },
                Err(true) => {
                    return Err(Fault::Rejected(BookError::MissingOrder, MessageEnum::Executed(e.duplicate())));
                },
            }
            touch(&mut tf.changes, e.order_book_id);
            let mut book = match order_book_map.remove(&e.order_book_id) {
                Some(b) => b,
                None => {
                    return Err(Fault::MissingBook(MessageEnum::Executed(e.duplicate())));
                },
            };
            let done = book.executed(e);
            order_book_map.insert(e.order_book_id, book);
            assert(order_book_map@ =~= m0.insert(e.order_book_id, book));
            assert(order_book_map@.dom() =~= m0.dom());
            let o = match done {
                Ok(o) => o,
                Err(err) => {
                    return Err(Fault::Rejected(err, MessageEnum::Executed(e.duplicate())));
                },
            };
            let ghost x0 = tf.executions@;
            tf.executions.push(OrderExecution { matched_order_after_execution: o, msg: e.duplicate() });
            assert(o == executed_order(
                m0,
                e.order_book_id,
                e.side,
                e.order_id,
                e.executed_quantity,
            ));
            assert(Seq::new(
                tf.executions@.len(),
                |j: int| tf.executions@[j].matched_order_after_execution,
            ) =~= Seq::new(e0.len(), |j: int| e0[j].matched_order_after_execution) + step_execution(
                m0,
                s[i],
            ));
            assert forall|k: int| 0 <= k < tf.executions@.len() implies same_executed(
                #[trigger] tf.executions@[k].msg,
                executions_of(s.subrange(0, i + 1))[k],
            ) by {
                if k < x0.len() {
                    assert(tf.executions@[k] == x0[k]);
                }
            }
            proof {
                lemma_groups_other(g0, s, i);
            }
        },
        MessageEnum::ExecutionWithPriceInfo(c) => {
            match lookup(order_book_map, c.order_book_id, c.order_id, c.side) {
                Ok(resting) => {
                    let left = resting.quantity as i128 - c.executed_quantity as i128;
                    if left < 0 {
                        return Err(
                            Fault::Rejected(BookError::NegativeQuantity, MessageEnum::ExecutionWithPriceInfo(*c)),
                        );
                    }
                    if left > i64::MAX as i128 {
                        return Err(
                            Fault::Rejected(BookError::QuantityOverflow, MessageEnum::ExecutionWithPriceInfo(*c)),
                        );
                    }
                },
                Err(false) => {
                    return Err(Fault::MissingBook(MessageEnum::ExecutionWithPriceInfo(*c)));
                },
                Err(true) => {
                    return Err(Fault::Rejected(BookError::MissingOrder, MessageEnum::ExecutionWithPriceInfo(*c)));
                },
            }
            touch(&mut tf.changes, c.order_book_id);
            let mut book = match order_book_map.remove(&c.order_book_id) {
                Some(b) => b,
                None => {
                    return Err(Fault::MissingBook(MessageEnum::ExecutionWithPriceInfo(*c)));
                },
            };
            let done = book.c_executed(c);
            order_book_map.insert(c.order_book_id, book);
            assert(order_book_map@ =~= m0.insert(c.order_book_id, book));
            assert(order_book_map@.dom() =~= m0.dom());
            let o = match done {
                Ok(o) => o,
                Err(err) => {
                    return Err(Fault::Rejected(err, MessageEnum::ExecutionWithPriceInfo(*c)));
                },
            };
            proof {
                lemma_c_with_key_exec(s, i, *c);
            }
            let ghost s0 = s.subrange(0, i);
            let ghost s1 = s.subrange(0, i + 1);
            match find_group(&tf.ctag_with_ptag, c.combo_group_id) {
                Some(a) => {
                    let mut group = tf.ctag_with_ptag.remove(a);
                    group.c_tag.push(*c);
                    group.matched_add_order.push(o);
                    tf.ctag_with_ptag.insert(a, group);
                    let ghost g1 = tf.ctag_with_ptag@;
                    assert forall|b: int| 0 <= b < g1.len() implies (#[trigger] g1[b]).c_tag@
                        == c_with_key(s1, g1[b].combo_group_id) by {
                        if b != a {
                            assert(g1[b] == g0[b]);
                        }
                    }
                    assert forall|b: int| 0 <= b < g1.len() implies (#[trigger] g1[b]).c_tag@.len()
                        > 0 by {
                        if b != a {
                            assert(g1[b] == g0[b]);
                        }
                    }
                    assert forall|b1: int, b2: int|
                        0 <= b1 < b2 < g1.len() implies (#[trigger] g1[b1]).combo_group_id
                        != (#[trigger] g1[b2]).combo_group_id by {
                        assert(g1[b1].combo_group_id == g0[b1].combo_group_id);
                        assert(g1[b2].combo_group_id == g0[b2].combo_group_id);
                    }
                    assert forall|k: i64| #![trigger c_with_key(s1, k)]
                        c_with_key(s1, k).len() > 0 implies exists|b: int|
                        0 <= b < g1.len() && (#[trigger] g1[b]).combo_group_id == k by {
                        if k == c.combo_group_id {
                            assert(g1[a as int].combo_group_id == k);
                        } else {
                            assert(c_with_key(s0, k).len() > 0);
                            let b = choose|b: int|
                                0 <= b < g0.len() && (#[trigger] g0[b]).combo_group_id == k;
                            assert(g1[b].combo_group_id == k);
                        }
                    }
                },
                None => {
                    let mut c_tag: Vec<ExecutionWithPriceInfo> = Vec::new();
                    c_tag.push(*c);
                    let mut matched: Vec<AddOrder> = Vec::new();
                    matched.push(o);
                    tf.ctag_with_ptag.push(
                        CTagWithCorrespondingPTag {
                            combo_group_id: c.combo_group_id,
                            c_tag,
                            matched_add_order: matched,
                            p_tags: Vec::new(),
                        },
                    );
                    let ghost g1 = tf.ctag_with_ptag@;
                    assert(c_with_key(s0, c.combo_group_id).len() == 0);
                    assert(c_with_key(s1, c.combo_group_id) =~= seq![*c]);
                    assert forall|b: int| 0 <= b < g1.len() implies (#[trigger] g1[b]).c_tag@
                        == c_with_key(s1, g1[b].combo_group_id) by {
                        if b < g0.len() {
                            assert(g1[b] == g0[b]);
                        }
                    }
                    assert forall|b: int| 0 <= b < g1.len() implies (#[trigger] g1[b]).c_tag@.len()
                        > 0 by {
                        if b < g0.len() {
                            assert(g1[b] == g0[b]);
                        }
                    }
                    assert forall|b1: int, b2: int|
                        0 <= b1 < b2 < g1.len() implies (#[trigger] g1[b1]).combo_group_id
                        != (#[trigger] g1[b2]).combo_group_id by {
                        assert(g1[b1] == g0[b1]);
                        if b2 < g0.len() {
                            assert(g1[b2] == g0[b2]);
                        }
                    }
                    assert forall|k: i64| #![trigger c_with_key(s1, k)]
                        c_with_key(s1, k).len() > 0 implies exists|b: int|
                        0 <= b < g1.len() && (#[trigger] g1[b]).combo_group_id == k by {
                        if k == c.combo_group_id {
                            assert(g1[g0.len() as int].combo_group_id == k);
                        } else {
                            assert(c_with_key(s0, k).len() > 0);
                            let b = choose|b: int|
                                0 <= b < g0.len() && (#[trigger] g0[b]).combo_group_id == k;
                            assert(g1[b] == g0[b]);
                        }
                    }
                },
            }
        },
        MessageEnum::LegPrice(p) => {
            match find_group(&tf.ctag_with_ptag, p.combo_group_id) {
                Some(a) => {
                    let mut group = tf.ctag_with_ptag.remove(a);
                    group.p_tags.push(*p);
                    tf.ctag_with_ptag.insert(a, group);
                    let ghost g1 = tf.ctag_with_ptag@;
                    assert forall|b: int| 0 <= b < g1.len() implies #[trigger] g1[b].c_tag@
                        == g0[b].c_tag@ && g1[b].combo_group_id == g0[b].combo_group_id by {
                        if b != a {
                            assert(g1[b] == g0[b]);
                        }
                    }
                    proof {
                        lemma_groups_other(g0, s, i);
                        let s1 = s.subrange(0, i + 1);
                        assert forall|k: i64| #![trigger c_with_key(s1, k)]
                            c_with_key(s1, k).len() > 0 implies exists|b: int|
                            0 <= b < g1.len() && (#[trigger] g1[b]).combo_group_id == k by {
                            let b = choose|b: int|
                                0 <= b < g0.len() && (#[trigger] g0[b]).combo_group_id == k;
                            assert(g1[b].combo_group_id == k);
                        }
                    }
                },
                None => {
                    return Err(Fault::UnmatchedLegPrice(*p));
                },
            }
        },
    }
    proof {
        if !(s[i] is AddOrder) && !(s[i] is DeleteOrder) {
            lemma_track_step(sl0, s, i);
        }
        if !(s[i] is DeleteOrder) && !(s[i] is Executed) && !(s[i] is ExecutionWithPriceInfo)
            && !(s[i] is LegPrice) {
            lemma_records_still(*old(tf), *tf, m0, s[i], s);
        }
        assert(records_step(*old(tf), *tf, m0, s[i], s));
        lemma_records_extend(t, order_book_map@, s, i);
        let t1 = t.push(order_book_map@);
        assert(t1[i] == m0);
        lemma_records_step(*old(tf), *tf, t, t1, s, i);
    }
    assert(tf.created@ == fresh_adds(s.subrange(0, i + 1), s));
    assert(deletion_msgs(tf.deletion@) == standalone_deletes(s.subrange(0, i + 1), s));
    assert(tf.second_messages@ == seconds_of(s.subrange(0, i + 1)));
    assert(tf.changes@.to_set() == touched(s.subrange(0, i + 1)));
    Ok(())
}

/// Turns the amendment slots of a finished batch into amendment records, checks that the
/// records of each combination group balance, and hands over what the batch produced.
fn finish_batch(
    tf: PerTimeframe,
    Ghost(s): Ghost<Seq<MessageEnum>>,
    Ghost(t): Ghost<Seq<Map<i64, OrderBook>>>,
) -> (out: BatchOutput)
    requires
        timeframe_inv(tf, s, s.len() as int),
        records_inv(tf, t, s, s.len() as int),
    ensures
        batch_output_ok(out, s),
        records_ok(out, t, s),
{
    let ghost ids = slot_ids(tf.modified_order_id_map@);
    assert(s.subrange(0, s.len() as int) =~= s);
    let mut modified: Vec<ModifiedOrder> = Vec::new();
    let mut j: usize = 0;
    while j < tf.modified_order_id_map.len()
        invariant
            ids == slot_ids(tf.modified_order_id_map@),
            slots_match(ids, s),
            slots_track(tf.modified_order_id_map@, s),
            j <= ids.len(),
            modified@.len() == j,
            forall|t: int| 0 <= t < j ==> (#[trigger] modified@[t]).id == ids[t],
            forall|t: int|
                0 <= t < j ==> (#[trigger] modified@[t]).modify_type == modify_type_of(
                    modified@[t].modify_msg,
                    modified@[t].previous_add_order,
                ),
            forall|k: int|
                0 <= k < j ==> {
                    &&& Some((#[trigger] modified@[k]).modify_msg) == last_add(s, modified@[k].id)
                    &&& Some(modified@[k].delete_msg) == last_delete(s, modified@[k].id)
                    &&& Some(modified@[k].previous_add_order) == removed_before(
                        t,
                        s,
                        s.len() as int,
                        modified@[k].id,
                    )
                },
            records_inv(tf, t, s, s.len() as int),
        decreases ids.len() - j,
    {
        let slot = tf.modified_order_id_map[j];
        proof {
            assert(ids[j as int] == slot.id);
            assert(ids.contains(slot.id));
            lemma_last_some(s, slot.id);
        }
        if let (Some(m), Some(d), Some(p)) = (
            slot.modify_msg,
            slot.delete_msg,
            slot.previous_add_order,
        ) {
            let modify_type = ModifyType::classify(&m, &p);
            modified.push(
                ModifiedOrder {
                    id: slot.id,
                    delete_msg: d,
                    modify_msg: m,
                    previous_add_order: p,
                    modify_type,
                },
            );
        } else {
            proof {
                assert(false);
            }
        }
        j = j + 1;
    }
    let mut unbalanced: Vec<i64> = Vec::new();
    let mut a: usize = 0;
    let ghost g = tf.ctag_with_ptag@;
    assert(g.subrange(0, 0) =~= Seq::<CTagWithCorrespondingPTag>::empty());
    while a < tf.ctag_with_ptag.len()
        invariant
            g == tf.ctag_with_ptag@,
            a <= g.len(),
            unbalanced@ == unbalanced_keys(g.subrange(0, a as int)),
        decreases g.len() - a,
    {
        assert(g.subrange(0, a + 1).drop_last() =~= g.subrange(0, a as int));
        assert(g.subrange(0, a + 1).last() == g[a as int]);
        if !tf.ctag_with_ptag[a].is_balanced() {
            unbalanced.push(tf.ctag_with_ptag[a].combo_group_id);
        }
        a = a + 1;
    }
    assert(g.subrange(0, a as int) =~= g);
    let out = BatchOutput {
        second_messages: tf.second_messages,
        created: tf.created,
        executions: tf.executions,
        ctag_with_ptag: tf.ctag_with_ptag,
        deletion: tf.deletion,
        modified_orders: modified,
        changes: tf.changes,
        dropped: tf.dropped,
        unbalanced,
    };
    assert forall|x: UniqueId| is_amended(s, x) implies exists|t: int|
        0 <= t < out.modified_orders@.len() && (#[trigger] out.modified_orders@[t]).id == x by {
        assert(ids.contains(x));
        let t = choose|t: int| 0 <= t < ids.len() && ids[t] == x;
        assert(out.modified_orders@[t].id == x);
    }
    assert forall|t: int| 0 <= t < out.modified_orders@.len() implies is_amended(
        s,
        (#[trigger] out.modified_orders@[t]).id,
    ) by {
        assert(ids.contains(ids[t]));
    }
    out
}

/// Receives what the run derives, batch by batch. Every method does nothing unless an
/// implementation says otherwise.
pub trait OrderBookRunTimeCallback {
    /// Polled before each batch and before each message: `true` ends the run there, and
    /// the batch in hand is not reported.
    fn stop(&mut self) -> bool {
        false
    }

    /// Called before a batch is processed.
    #[allow(unused_variables)]
    fn event_start(
        &mut self,
        order_book_map: &BookMap,
        timestamp: &Timestamp,
        stack: &[MessageEnum],
    ) {
    }

    /// Called after a batch is processed and reported.
    #[allow(unused_variables)]
    fn event_end(&mut self, order_book_map: &BookMap, timestamp: &Timestamp, stack: &[MessageEnum]) {
    }

    /// Called when a batch held second markers.
    #[allow(unused_variables)]
    fn second_message(
        &mut self,
        order_book_map: &BookMap,
        timestamp: &Timestamp,
        second_messages: &[SecondTag],
    ) {
    }

    /// Called when a batch created orders.
    #[allow(unused_variables)]
    fn created(&mut self, order_book_map: &BookMap, timestamp: &Timestamp, created: Created) {
    }

    /// Called with the instruments whose orders a batch changed.
    #[allow(unused_variables)]
    fn order_book_id_with_changes(
        &mut self,
        order_book_map: &BookMap,
        timestamp: &Timestamp,
        changes: &[i64],
    ) {
    }

    /// Called when a batch held executions.
    #[allow(unused_variables)]
    fn executions(
        &mut self,
        order_book_map: &BookMap,
        timestamp: &Timestamp,
        executions: Vec<OrderExecution>,
    ) {
    }

    /// Called when a batch held executions with price information.
    #[allow(unused_variables)]
    fn ctag_execution(
        &mut self,
        order_book_map: &BookMap,
        timestamp: &Timestamp,
        executed_with_price_info: Vec<CTagWithCorrespondingPTag>,
    ) {
    }

    /// Called when a batch deleted orders outside amendments.
    #[allow(unused_variables)]
    fn deletions(
        &mut self,
        order_book_map: &BookMap,
        timestamp: &Timestamp,
        deletion: Vec<OrderDeletion>,
    ) {
    }

    /// Called when a batch amended orders: a deletion and a new order for the same order.
    #[allow(unused_variables)]
    fn modified_orders(
        &mut self,
        order_book_map: &BookMap,
        timestamp: &Timestamp,
        modified_orders: Vec<ModifiedOrder>,
    ) {
    }

    /// Called once at the end, with the timestamp of the last batch begun.
    #[allow(unused_variables)]
    fn all_done(&mut self, order_book_map: &BookMap, timestamp: Option<Timestamp>) {
    }
}

/// Applies one batch to the books and works out what it produced. `Ok(None)` when the
/// callback asked to stop before the batch was done.
pub fn process_batch<A: OrderBookRunTimeCallback>(
    order_book_map: &mut BookMap,
    stack: &Vec<MessageEnum>,
    callback: &mut A,
) -> (r: Result<Option<BatchOutput>, Fault>)
    requires
        books_wf(old(order_book_map)@),
    ensures
        books_wf(final(order_book_map)@),
        r matches Ok(Some(out)) ==> batch_output_ok(out, stack@),
        r matches Ok(Some(out)) ==> exists|trace: Seq<Map<i64, OrderBook>>|
            #[trigger] is_trace(trace, old(order_book_map)@, final(order_book_map)@, stack@)
                && records_ok(out, trace, stack@) && all_succeed(trace, stack@),
        r matches Ok(None) ==> exists|k: int, trace: Seq<Map<i64, OrderBook>>|
            0 <= k <= stack@.len() && #[trigger] is_trace(
                trace,
                old(order_book_map)@,
                final(order_book_map)@,
                stack@.subrange(0, k),
            ),
        r matches Err(f) ==> exists|k: int, trace: Seq<Map<i64, OrderBook>>|
            0 <= k < stack@.len() && #[trigger] is_trace(
                trace,
                old(order_book_map)@,
                final(order_book_map)@,
                stack@.subrange(0, k),
            ) && !msg_succeeds(final(order_book_map)@, stack@[k], stack@.subrange(0, k)) && raises(
                f,
                stack@[k],
                final(order_book_map)@,
            ),
{
    let ghost s = stack@;
    let ghost m_start = order_book_map@;
    let ghost mut trace: Seq<Map<i64, OrderBook>> = seq![m_start];
    let candidates = modify_candidates(stack);
    let mut slots: Vec<ModifySlot> = Vec::new();
    let mut j: usize = 0;
    while j < candidates.len()
        invariant
            j <= candidates@.len(),
            slots@.len() == j,
            forall|k: int| 0 <= k < j ==> (#[trigger] slots@[k]).id == candidates@[k],
            forall|k: int|
                0 <= k < j ==> (#[trigger] slots@[k]).modify_msg is None && slots@[k].delete_msg
                    is None && slots@[k].previous_add_order is None,
        decreases candidates@.len() - j,
    {
        slots.push(
            ModifySlot {
                id: candidates[j],
                modify_msg: None,
                delete_msg: None,
                previous_add_order: None,
            },
        );
        j = j + 1;
    }
    assert(slot_ids(slots@) =~= candidates@);
    let mut tf = PerTimeframe {
        changes: Vec::new(),
        created: Vec::new(),
        executions: Vec::new(),
        ctag_with_ptag: Vec::new(),
        deletion: Vec::new(),
        modified_order_id_map: slots,
        second_messages: Vec::new(),
        dropped: Vec::new(),
    };
    assert forall|k: i64| #[trigger] c_with_key(s.subrange(0, 0), k).len() == 0 by {
        assert(s.subrange(0, 0).len() == 0);
    }
    assert(s.subrange(0, 0) =~= Seq::<MessageEnum>::empty());
    assert(tf.created@ =~= fresh_adds(s.subrange(0, 0), s));
    assert(deletion_msgs(tf.deletion@) =~= standalone_deletes(s.subrange(0, 0), s));
    assert(tf.second_messages@ =~= seconds_of(s.subrange(0, 0)));
    assert(tf.changes@.to_set() =~= touched(s.subrange(0, 0)));
    assert(executions_of(s.subrange(0, 0)) =~= Seq::<Executed>::empty());
    assert(slots_track(tf.modified_order_id_map@, s.subrange(0, 0)));
    assert(tf.deletion@ =~= deletion_records(trace, s, 0));
    assert(Seq::new(tf.executions@.len(), |j: int| tf.executions@[j].matched_order_after_execution)
        =~= execution_orders(trace, s, 0));
    assert forall|g: i64| #![trigger legs_of(s.subrange(0, 0), g)]
        legs_of(s.subrange(0, 0), g).len() == 0 by {}
    assert(records_inv(tf, trace, s, 0));
    let mut i: usize = 0;
    while i < stack.len()
        invariant
            s == stack@,
            i <= s.len(),
            books_wf(order_book_map@),
            timeframe_inv(tf, s, i as int),
            records_inv(tf, trace, s, i as int),
            forall|k: int| 0 <= k < i ==> msg_succeeds(trace[k], #[trigger] s[k], s.subrange(0, k)),
            m_start == old(order_book_map)@,
            trace.len() == i + 1,
            trace[0] == m_start,
            trace[i as int] == order_book_map@,
            forall|k: int| 0 <= k < i ==> msg_effect(trace[k], trace[k + 1], #[trigger] s[k]),
        decreases s.len() - i,
    {
        if callback.stop() {
            proof {
                let p = s.subrange(0, i as int);
                assert forall|k: int| 0 <= k < p.len() implies msg_effect(
                    trace[k],
                    trace[k + 1],
                    #[trigger] p[k],
                ) by {
                    assert(p[k] == s[k]);
                }
                assert(is_trace(trace, m_start, order_book_map@, p));
            }
            return Ok(None);
        }
        match process_msg(
            order_book_map,
            &stack[i],
            &mut tf,
            Ghost(s),
            Ghost(i as int),
            Ghost(trace),
        ) {
            Ok(()) => {},
            Err(f) => {
                proof {
                    let p = s.subrange(0, i as int);
                    assert forall|k: int| 0 <= k < p.len() implies msg_effect(
                        trace[k],
                        trace[k + 1],
                        #[trigger] p[k],
                    ) by {
                        assert(p[k] == s[k]);
                    }
                    assert(is_trace(trace, m_start, order_book_map@, p));
                }
                return Err(f);
            },
        }
        let ghost t0 = trace;
        proof {
            trace = t0.push(order_book_map@);
            assert forall|k: int| 0 <= k < i + 1 implies msg_succeeds(
                trace[k],
                #[trigger] s[k],
                s.subrange(0, k),
            ) by {
                assert(trace[k] == t0[k]);
            }
            assert forall|k: int| 0 <= k < i + 1 implies msg_effect(
                trace[k],
                trace[k + 1],
                #[trigger] s[k],
            ) by {
                if k < i {
                    assert(trace[k] == t0[k] && trace[k + 1] == t0[k + 1]);
                }
            }
        }
        i = i + 1;
    }
    assert(is_trace(trace, m_start, order_book_map@, s));
    Ok(Some(finish_batch(tf, Ghost(s), Ghost(trace))))
}

/// The executed quantities of `e`, summed.
pub open spec fn executions_total(e: Seq<OrderExecution>) -> int
    decreases e.len(),
{
    if e.len() == 0 {
        0
    } else {
        executions_total(e.drop_last()) + e.last().msg.executed_quantity
    }
}

/// The traded quantities of the combination groups `g`, summed.
pub open spec fn groups_total(g: Seq<CTagWithCorrespondingPTag>) -> int
    decreases g.len(),
{
    if g.len() == 0 {
        0
    } else {
        groups_total(g.drop_last()) + group_quantity(g.last().c_tag@)
    }
}

/// The quantity that a batch traded: its executions and its combination groups, summed in
/// that order. `None` when a running sum leaves the range of an `i128`.
pub fn traded_quantity(executions: &Vec<OrderExecution>, groups: &Vec<CTagWithCorrespondingPTag>) -> (r:
    Option<i128>)
    requires
        forall|a: int| 0 <= a < groups@.len() ==> (#[trigger] groups@[a]).c_tag@.len() > 0,
    ensures
        match r {
            Some(q) => q == executions_total(executions@) + groups_total(groups@),
            None => exists|a: int|
                0 <= a <= groups@.len() && !(i128::MIN <= executions_total(executions@)
                    + groups_total(#[trigger] groups@.subrange(0, a)) <= i128::MAX),
        },
{
    let mut acc: i128 = 0;
    let mut i: usize = 0;
    let ghost e = executions@;
    let ghost g = groups@;
    // every partial sum of executions fits: each term is an i64
    while i < executions.len()
        invariant
            e == executions@,
            i <= e.len(),
            acc == executions_total(e.subrange(0, i as int)),
            -(i as int) * 0x8000_0000_0000_0000 <= acc <= (i as int) * 0x8000_0000_0000_0000,
        decreases e.len() - i,
    {
        assert(e.subrange(0, i + 1).drop_last() =~= e.subrange(0, i as int));
        assert((i + 1) * 0x8000_0000_0000_0000 <= 0x1_0000_0000_0000_0000int
            * 0x8000_0000_0000_0000) by (nonlinear_arith)
            requires
                i + 1 <= 0x1_0000_0000_0000_0000int,
        ;
        acc = acc + executions[i].msg.executed_quantity as i128;
        i = i + 1;
    }
    assert(e.subrange(0, i as int) =~= e);
    let ghost base = acc as int;
    let mut a: usize = 0;
    while a < groups.len()
        invariant
            g == groups@,
            e == executions@,
            a <= g.len(),
            forall|b: int| 0 <= b < g.len() ==> (#[trigger] g[b]).c_tag@.len() > 0,
            base == executions_total(e),
            acc == base + groups_total(g.subrange(0, a as int)),
        decreases g.len() - a,
    {
        assert(g.subrange(0, a + 1).drop_last() =~= g.subrange(0, a as int));
        assert(g.subrange(0, a + 1).last() == g[a as int]);
        let q = groups[a].executed_quantity();
        assert(groups_total(g.subrange(0, a + 1)) == groups_total(g.subrange(0, a as int)) + q);
        match acc.checked_add(q) {
            Some(v) => {
                acc = v;
            },
            None => {
                let ghost w = a + 1;
                assert(!(i128::MIN <= executions_total(executions@) + groups_total(
                    groups@.subrange(0, w),
                ) <= i128::MAX));
                assert(exists|t: int|
                    0 <= t <= groups@.len() && !(i128::MIN <= executions_total(executions@)
                        + groups_total(#[trigger] groups@.subrange(0, t)) <= i128::MAX));
                return None;
            },
        }
        a = a + 1;
    }
    assert(g.subrange(0, a as int) =~= g);
    Some(acc)
}

/// What a run did: how many messages and batches it began, how long it took, the
/// reference data it set aside for want of a book, and the fault that ended it, if any.
pub struct RuntimeStats {
    pub message_count: usize,
    pub key_count: usize,
    /// For each batch reported in full, in order: the books before and after it, and the
    /// notifications handed to the observer.
    pub reports: Ghost<Seq<(Map<i64, OrderBook>, Map<i64, OrderBook>, Notices)>>,
    /// The timestamp of the last batch begun, as `all_done` receives it.
    pub last_timestamp: Option<Timestamp>,
    /// The time the run took; `None` when the clock went back meanwhile.
    pub time_taken: Option<Duration>,
    pub dropped: Vec<MessageEnum>,
    /// The batches, by timestamp, whose combination groups did not balance, with those
    /// groups.
    pub unbalanced: Vec<(Timestamp, Vec<i64>)>,
    pub fault: Option<Fault>,
}

/// The messages of the batches `b`, one batch after the other.
pub open spec fn flat(b: Seq<(Timestamp, Vec<MessageEnum>)>) -> Seq<MessageEnum>
    decreases b.len(),
{
    if b.len() == 0 {
        Seq::empty()
    } else {
        flat(b.drop_last()) + b.last().1@
    }
}

proof fn lemma_flat_step(b: Seq<(Timestamp, Vec<MessageEnum>)>, i: int)
    requires
        0 <= i < b.len(),
    ensures
        flat(b.subrange(0, i + 1)) == flat(b.subrange(0, i)) + b[i].1@,
{
    assert(b.subrange(0, i + 1).drop_last() =~= b.subrange(0, i));
}

/// The messages of the first `i` batches lead the messages of all of them.
proof fn lemma_flat_prefix(b: Seq<(Timestamp, Vec<MessageEnum>)>, i: int)
    requires
        0 <= i <= b.len(),
    ensures
        flat(b.subrange(0, i)).len() <= flat(b).len(),
        flat(b).subrange(0, flat(b.subrange(0, i)).len() as int) == flat(b.subrange(0, i)),
    decreases b.len() - i,
{
    if i == b.len() {
        assert(b.subrange(0, i) =~= b);
        assert(flat(b).subrange(0, flat(b).len() as int) =~= flat(b));
    } else {
        lemma_flat_prefix(b, i + 1);
        lemma_flat_step(b, i);
        let x = flat(b.subrange(0, i));
        let y = flat(b.subrange(0, i + 1));
        assert(y.subrange(0, x.len() as int) =~= x);
        assert(flat(b).subrange(0, x.len() as int) =~= y.subrange(0, x.len() as int));
    }
}

/// Two traces in a row make one.
proof fn lemma_trace_concat(
    t1: Seq<Map<i64, OrderBook>>,
    t2: Seq<Map<i64, OrderBook>>,
    a: Map<i64, OrderBook>,
    m: Map<i64, OrderBook>,
    c: Map<i64, OrderBook>,
    s1: Seq<MessageEnum>,
    s2: Seq<MessageEnum>,
)
    requires
        is_trace(t1, a, m, s1),
        is_trace(t2, m, c, s2),
    ensures
        is_trace(t1 + t2.subrange(1, t2.len() as int), a, c, s1 + s2),
{
    let t = t1 + t2.subrange(1, t2.len() as int);
    let s = s1 + s2;
    assert forall|k: int| 0 <= k < s.len() implies msg_effect(t[k], t[k + 1], #[trigger] s[k]) by {
        if k < s1.len() {
            assert(s[k] == s1[k]);
            assert(t[k] == t1[k]);
            assert(t[k + 1] == t1[k + 1]);
        } else {
            let k2 = k - s1.len();
            assert(s[k] == s2[k2]);
            assert(t[k + 1] == t2[k2 + 1]);
            if k2 == 0 {
                assert(t[k] == t1[s1.len() as int]);
            } else {
                assert(t[k] == t2[k2]);
            }
        }
    }
}

/// The books went from `m0` to `m1` through some leading part of the messages `msgs`.
pub open spec fn prefix_trace(m0: Map<i64, OrderBook>, m1: Map<i64, OrderBook>, msgs: Seq<MessageEnum>) -> bool {
    exists|n: int, t: Seq<Map<i64, OrderBook>>|
        0 <= n <= msgs.len() && #[trigger] is_trace(t, m0, m1, msgs.subrange(0, n))
}

/// Run fault `f` came from message `k` of batch `q`: the books went from `m0` to `m1`
/// through every earlier message of the run, and message `k` cannot be applied to `m1`.
pub open spec fn fault_at(
    m0: Map<i64, OrderBook>,
    m1: Map<i64, OrderBook>,
    b: Seq<(Timestamp, Vec<MessageEnum>)>,
    q: int,
    k: int,
    f: Fault,
) -> bool {
    &&& 0 <= q < b.len()
    &&& 0 <= k < b[q].1@.len()
    &&& exists|t: Seq<Map<i64, OrderBook>>| #[trigger]
        is_trace(t, m0, m1, flat(b.subrange(0, q)) + b[q].1@.subrange(0, k))
    &&& !msg_succeeds(m1, b[q].1@[k], b[q].1@.subrange(0, k))
    &&& raises(f, b[q].1@[k], m1)
}

/// What a run that ended in fault `f` after beginning `n` batches did: a message of batch
/// `n - 1` could not be applied, or that whole batch was applied and the quantity it traded
/// does not fit.
pub open spec fn run_fault(
    m0: Map<i64, OrderBook>,
    m1: Map<i64, OrderBook>,
    b: Seq<(Timestamp, Vec<MessageEnum>)>,
    n: int,
    f: Fault,
) -> bool {
    ||| exists|k: int| #[trigger] fault_at(m0, m1, b, n - 1, k, f)
    ||| f == Fault::QuantityOverflow && 1 <= n <= b.len() && exists|t: Seq<Map<i64, OrderBook>>|
        #[trigger] is_trace(t, m0, m1, flat(b.subrange(0, n)))
}

/// `reports` are, in order, the first batches of `b` reported in full, from books `m0`: each
/// starts from the books the previous one left, and the run began `n` batches, of which
/// all but the last were reported in full.
pub open spec fn runs_reported(
    reports: Seq<(Map<i64, OrderBook>, Map<i64, OrderBook>, Notices)>,
    m0: Map<i64, OrderBook>,
    b: Seq<(Timestamp, Vec<MessageEnum>)>,
    n: int,
) -> bool {
    &&& reports.len() <= n
    &&& n - 1 <= reports.len()
    &&& reports.len() > 0 ==> reports[0].0 == m0
    &&& forall|k: int|
        0 <= k < reports.len() ==> #[trigger] reported(
            reports[k].0,
            reports[k].1,
            b[k].1@,
            reports[k].2,
        )
    &&& forall|k: int| 0 < k < reports.len() ==> #[trigger] reports[k].0 == reports[k - 1].1
}

/// The number of messages in the first `n` batches of `b`.
pub open spec fn messages_in(b: Seq<(Timestamp, Vec<MessageEnum>)>, n: int) -> int
    decreases n,
{
    if n <= 0 {
        0
    } else {
        messages_in(b, n - 1) + b[n - 1].1@.len()
    }
}

/// `Some(v)` when `v` holds anything: a notification is given only when it has content.
pub open spec fn some_if<T>(v: Vec<T>) -> Option<Vec<T>> {
    if v@.len() > 0 {
        Some(v)
    } else {
        None
    }
}

/// What the observer is told about one batch: the argument of each call that is due,
/// `None` for a call that is not; and what the run keeps aside.
pub struct Notices {
    pub second_messages: Option<Vec<SecondTag>>,
    pub created: Option<Created>,
    pub executions: Option<Vec<OrderExecution>>,
    pub ctag_execution: Option<Vec<CTagWithCorrespondingPTag>>,
    pub deletions: Option<Vec<OrderDeletion>>,
    pub modified_orders: Option<Vec<ModifiedOrder>>,
    pub changes: Option<Vec<i64>>,
    pub dropped: Vec<MessageEnum>,
    pub unbalanced: Vec<i64>,
}

/// `n` are the notifications of batch output `out`.
pub open spec fn notices_of(n: Notices, out: BatchOutput) -> bool {
    &&& n.second_messages == some_if(out.second_messages)
    &&& n.executions == some_if(out.executions)
    &&& n.ctag_execution == some_if(out.ctag_with_ptag)
    &&& n.deletions == some_if(out.deletion)
    &&& n.modified_orders == some_if(out.modified_orders)
    &&& n.changes == some_if(out.changes)
    &&& n.dropped == out.dropped
    &&& n.unbalanced == out.unbalanced
    &&& out.created@.len() == 0 ==> n.created is None
    &&& out.created@.len() > 0 ==> (n.created matches Some(c) && c.msgs == out.created && c.is_fas
        == !(out.executions@.len() == 0 && out.ctag_with_ptag@.len() == 0) && c.executed_qty
        == executions_total(out.executions@) + groups_total(out.ctag_with_ptag@))
}

/// Batch `stack` took the books from `m0` to `m1`, and `n` are the notifications it gave:
/// those of its output, message by message.
pub open spec fn reported(
    m0: Map<i64, OrderBook>,
    m1: Map<i64, OrderBook>,
    stack: Seq<MessageEnum>,
    n: Notices,
) -> bool {
    exists|out: BatchOutput, t: Seq<Map<i64, OrderBook>>|
        is_trace(t, m0, m1, stack) && batch_output_ok(out, stack) && #[trigger] records_ok(
            out,
            t,
            stack,
        ) && all_succeed(t, stack) && notices_of(n, out)
}

/// The notifications of a processed batch. The new orders come with whether the batch also
/// executed and with the quantity its executions and combination groups traded; `Err` when
/// that quantity's running sum leaves the range of an `i128`.
pub fn batch_notices(out: BatchOutput) -> (r: Result<Notices, Fault>)
    requires
        forall|a: int|
            0 <= a < out.ctag_with_ptag@.len() ==> (#[trigger] out.ctag_with_ptag@[a]).c_tag@.len()
                > 0,
    ensures
        match r {
            Ok(n) => notices_of(n, out),
            Err(f) => {
                &&& f == Fault::QuantityOverflow
                &&& out.created@.len() > 0
                &&& exists|a: int|
                    0 <= a <= out.ctag_with_ptag@.len() && !(i128::MIN <= executions_total(
                        out.executions@,
                    ) + groups_total(#[trigger] out.ctag_with_ptag@.subrange(0, a)) <= i128::MAX)
            },
        },
{
    let BatchOutput {
        second_messages,
        created,
        executions,
        ctag_with_ptag,
        deletion,
        modified_orders,
        changes,
        dropped,
        unbalanced,
    } = out;
    let created = if created.len() > 0 {
        let executed_qty = match traded_quantity(&executions, &ctag_with_ptag) {
            Some(q) => q,
            None => {
                return Err(Fault::QuantityOverflow);
            },
        };
        let is_fas = !(executions.len() == 0 && ctag_with_ptag.len() == 0);
        Some(Created { msgs: created, is_fas, executed_qty })
    } else {
        None
    };
    Ok(
        Notices {
            second_messages: if second_messages.len() > 0 {
                Some(second_messages)
            } else {
                None
            },
            created,
            executions: if executions.len() > 0 {
                Some(executions)
            } else {
                None
            },
            ctag_execution: if ctag_with_ptag.len() > 0 {
                Some(ctag_with_ptag)
            } else {
                None
            },
            deletions: if deletion.len() > 0 {
                Some(deletion)
            } else {
                None
            },
            modified_orders: if modified_orders.len() > 0 {
                Some(modified_orders)
            } else {
                None
            },
            changes: if changes.len() > 0 {
                Some(changes)
            } else {
                None
            },
            dropped,
            unbalanced,
        },
    )
}

/// Gives `callback` the notifications of one batch, in a fixed order.
fn report_batch<A: OrderBookRunTimeCallback>(
    order_book_map: &BookMap,
    timestamp: &Timestamp,
    notices: Notices,
    callback: &mut A,
) -> (r: (Vec<MessageEnum>, Vec<i64>))
    ensures
        r == (notices.dropped, notices.unbalanced),
{
    let Notices {
        second_messages,
        created,
        executions,
        ctag_execution,
        deletions,
        modified_orders,
        changes,
        dropped,
        unbalanced,
    } = notices;
    if let Some(v) = second_messages {
        callback.second_message(order_book_map, timestamp, v.as_slice());
    }
    if let Some(c) = created {
        callback.created(order_book_map, timestamp, c);
    }
    if let Some(v) = executions {
        callback.executions(order_book_map, timestamp, v);
    }
    if let Some(v) = ctag_execution {
        callback.ctag_execution(order_book_map, timestamp, v);
    }
    if let Some(v) = deletions {
        callback.deletions(order_book_map, timestamp, v);
    }
    if let Some(v) = modified_orders {
        callback.modified_orders(order_book_map, timestamp, v);
    }
    if let Some(v) = changes {
        callback.order_book_id_with_changes(order_book_map, timestamp, v.as_slice());
    }
    (dropped, unbalanced)
}

/// Runs the batches, in the order given, against the books and reports each batch to
/// `callback` once all of its messages are applied. The run ends at the last batch, when
/// `callback` asks to stop, or at a fault; `all_done` is called in every case.
pub fn order_book_runtime<A: OrderBookRunTimeCallback>(
    order_book_map: &mut BookMap,
    key_as_timestamp: Vec<(Timestamp, Vec<MessageEnum>)>,
    callback: &mut A,
) -> (r: RuntimeStats)
    requires
        books_wf(old(order_book_map)@),
    ensures
        books_wf(final(order_book_map)@),
        r.key_count <= key_as_timestamp@.len(),
        runs_reported(r.reports@, old(order_book_map)@, key_as_timestamp@, r.key_count as int),
        r.last_timestamp == if r.key_count == 0 {
            None
        } else {
            Some(key_as_timestamp@[r.key_count - 1].0)
        },
        messages_in(key_as_timestamp@, r.key_count as int) <= usize::MAX ==> r.message_count
            == messages_in(key_as_timestamp@, r.key_count as int),
        r.fault is None ==> prefix_trace(
            old(order_book_map)@,
            final(order_book_map)@,
            flat(key_as_timestamp@),
        ),
        r.fault matches Some(f) ==> run_fault(
            old(order_book_map)@,
            final(order_book_map)@,
            key_as_timestamp@,
            r.key_count as int,
            f,
        ),
{
    let now = clock_now();
    let ghost b = key_as_timestamp@;
    let mut ts: Option<Timestamp> = None;
    let mut message_count: usize = 0;
    let mut key_count: usize = 0;
    let mut dropped: Vec<MessageEnum> = Vec::new();
    let mut unbalanced: Vec<(Timestamp, Vec<i64>)> = Vec::new();
    let mut fault: Option<Fault> = None;
    let ghost mut reports: Seq<(Map<i64, OrderBook>, Map<i64, OrderBook>, Notices)> = Seq::empty();
    let mut i: usize = 0;
    let ghost m_start = order_book_map@;
    let ghost mut gtrace: Seq<Map<i64, OrderBook>> = seq![m_start];
    proof {
        assert(b.subrange(0, 0) =~= Seq::<(Timestamp, Vec<MessageEnum>)>::empty());
        assert(flat(b).subrange(0, 0) =~= flat(b.subrange(0, 0)));
        assert(is_trace(gtrace, m_start, m_start, flat(b).subrange(0, 0)));
    }
    while i < key_as_timestamp.len()
        invariant_except_break
            fault is None,
            reports.len() == i,
            reports.len() > 0 ==> reports.last().1 == order_book_map@,
            reports.len() == 0 ==> order_book_map@ == m_start,
            is_trace(gtrace, m_start, order_book_map@, flat(b.subrange(0, i as int))),
        invariant
            b == key_as_timestamp@,
            i <= b.len(),
            key_count == i,
            runs_reported(reports, m_start, b, i as int),
            ts == if i == 0 {
                None
            } else {
                Some(b[i - 1].0)
            },
            books_wf(order_book_map@),
            messages_in(b, i as int) <= usize::MAX ==> message_count == messages_in(b, i as int),
            messages_in(b, i as int) > usize::MAX ==> message_count == usize::MAX,
            m_start == old(order_book_map)@,
            fault is None ==> prefix_trace(m_start, order_book_map@, flat(b)),
            fault matches Some(f) ==> run_fault(m_start, order_book_map@, b, key_count as int, f),
        decreases b.len() - i,
    {
        if callback.stop() {
            break;
        }
        let (timestamp, stack) = &key_as_timestamp[i];
        let ghost m_before = order_book_map@;
        proof {
            lemma_flat_step(b, i as int);
            lemma_flat_prefix(b, i + 1);
        }
        let n = stack.len();
        proof {
            assert(messages_in(b, i + 1) == messages_in(b, i as int) + n);
        }
        if message_count <= usize::MAX - n {
            message_count = message_count + n;
        } else {
            message_count = usize::MAX;
        }
        key_count = key_count + 1;
        ts = Some(*timestamp);
        callback.event_start(order_book_map, timestamp, stack.as_slice());
        match process_batch(order_book_map, stack, callback) {
            Ok(Some(out)) => {
                let ghost out_v = out;
                proof {
                    let t2 = choose|t2: Seq<Map<i64, OrderBook>>|
                        #[trigger] is_trace(t2, m_before, order_book_map@, stack@) && records_ok(
                            out,
                            t2,
                            stack@,
                        );
                    lemma_trace_concat(
                        gtrace,
                        t2,
                        m_start,
                        m_before,
                        order_book_map@,
                        flat(b.subrange(0, i as int)),
                        stack@,
                    );
                    gtrace = gtrace + t2.subrange(1, t2.len() as int);
                    let n = flat(b.subrange(0, i + 1)).len() as int;
                    assert(is_trace(gtrace, m_start, order_book_map@, flat(b).subrange(0, n)));
                }
                match batch_notices(out) {
                    Ok(notices) => {
                        proof {
                            let t2 = choose|t2: Seq<Map<i64, OrderBook>>|
                                #[trigger] is_trace(t2, m_before, order_book_map@, stack@)
                                    && records_ok(out_v, t2, stack@) && all_succeed(t2, stack@);
                            assert(records_ok(out_v, t2, stack@));
                            assert(reported(m_before, order_book_map@, stack@, notices));
                            let r0 = reports;
                            reports = r0.push((m_before, order_book_map@, notices));
                            assert forall|k: int| 0 <= k < reports.len() implies #[trigger] reported(
                                reports[k].0,
                                reports[k].1,
                                b[k].1@,
                                reports[k].2,
                            ) by {
                                if k < r0.len() {
                                    assert(reports[k] == r0[k]);
                                }
                            }
                            assert forall|k: int| 0 < k < reports.len() implies #[trigger] reports[k].0
                                == reports[k - 1].1 by {
                                if k < r0.len() {
                                    assert(reports[k] == r0[k] && reports[k - 1] == r0[k - 1]);
                                } else {
                                    assert(reports[k - 1] == r0[k - 1]);
                                }
                            }
                        }
                        let (mut set_aside, groups) = report_batch(
                            order_book_map,
                            timestamp,
                            notices,
                            callback,
                        );
                        dropped.append(&mut set_aside);
                        if groups.len() > 0 {
                            unbalanced.push((*timestamp, groups));
                        }
                    },
                    Err(f) => {
                        fault = Some(f);
                        proof {
                            let n = flat(b.subrange(0, i + 1)).len() as int;
                            assert(flat(b).subrange(0, n) == flat(b.subrange(0, i + 1)));
                            assert(is_trace(
                                gtrace,
                                m_start,
                                order_book_map@,
                                flat(b.subrange(0, i + 1)),
                            ));
                        }
                        i = i + 1;
                        break;
                    },
                }
            },
            Ok(None) => {
                proof {
                    let (k, t2) = choose|k: int, t2: Seq<Map<i64, OrderBook>>|
                        0 <= k <= stack@.len() && #[trigger] is_trace(
                            t2,
                            m_before,
                            order_book_map@,
                            stack@.subrange(0, k),
                        );
                    let x = flat(b.subrange(0, i as int));
                    lemma_trace_concat(
                        gtrace,
                        t2,
                        m_start,
                        m_before,
                        order_book_map@,
                        x,
                        stack@.subrange(0, k),
                    );
                    let n = x.len() + k;
                    assert(flat(b).subrange(0, n) =~= x + stack@.subrange(0, k));
                    assert(is_trace(
                        gtrace + t2.subrange(1, t2.len() as int),
                        m_start,
                        order_book_map@,
                        flat(b).subrange(0, n),
                    ));
                }
                i = i + 1;
                break;
            },
            Err(f) => {
                proof {
                    let (k, t2) = choose|k: int, t2: Seq<Map<i64, OrderBook>>|
                        0 <= k < stack@.len() && #[trigger] is_trace(
                            t2,
                            m_before,
                            order_book_map@,
                            stack@.subrange(0, k),
                        ) && !msg_succeeds(order_book_map@, stack@[k], stack@.subrange(0, k))
                            && raises(f, stack@[k], order_book_map@);
                    lemma_trace_concat(
                        gtrace,
                        t2,
                        m_start,
                        m_before,
                        order_book_map@,
                        flat(b.subrange(0, i as int)),
                        stack@.subrange(0, k),
                    );
                    assert(is_trace(
                        gtrace + t2.subrange(1, t2.len() as int),
                        m_start,
                        order_book_map@,
                        flat(b.subrange(0, i as int)) + b[i as int].1@.subrange(0, k),
                    ));
                    assert(fault_at(m_start, order_book_map@, b, i as int, k, f));
                }
                fault = Some(f);
                i = i + 1;
                break;
            },
        }
        callback.event_end(order_book_map, timestamp, stack.as_slice());
        i = i + 1;
    }
    callback.all_done(order_book_map, ts);
    let time_taken = time_since(&now);
    RuntimeStats {
        message_count,
        key_count,
        reports: Ghost(reports),
        last_timestamp: ts,
        time_taken,
        dropped,
        unbalanced,
        fault,
    }
}

/// The best levels of `b` hold quantity, and its best ask lies above its best bid.
pub open spec fn spread_ok(b: OrderBook) -> bool {
    let asks = b.levels(Side::Sell);
    let bids = b.levels(Side::Buy);
    &&& asks.len() > 0 ==> level_view(asks[0]).qty > 0
    &&& bids.len() > 0 ==> level_view(bids.last()).qty > 0
    &&& asks.len() > 0 && bids.len() > 0 ==> asks[0].0 > bids.last().0
}

/// An observer that, after each batch, notes every book whose best levels are empty of
/// quantity or crossed.
pub struct TestSpread {
    /// The batches and instruments where a book was found so.
    pub crossed: Vec<(Timestamp, i64)>,
}

impl TestSpread {
    pub fn new() -> (r: TestSpread)
        ensures
            r.crossed@.len() == 0,
    {
        TestSpread { crossed: Vec::new() }
    }

    /// Whether the best levels of `book` hold quantity and do not cross.
    pub fn spread_ok(book: &OrderBook) -> (r: bool)
        ensures
            r == spread_ok(*book),
    {
        let ask = book.best_ask();
        let bid = book.best_bid();
        let ask_ok = match ask {
            Some(a) => a.qty > 0,
            None => true,
        };
        let bid_ok = match bid {
            Some(b) => b.qty > 0,
            None => true,
        };
        let apart = match (ask, bid) {
            (Some(a), Some(b)) => a.price > b.price,
            _ => true,
        };
        ask_ok && bid_ok && apart
    }
}

impl OrderBookRunTimeCallback for TestSpread {
    fn event_end(&mut self, order_book_map: &BookMap, timestamp: &Timestamp, stack: &[MessageEnum]) {
        for (id, book) in order_book_map.iter() {
            if !TestSpread::spread_ok(book) {
                self.crossed.push((*timestamp, *id));
            }
        }
    }
}

} // verus!
