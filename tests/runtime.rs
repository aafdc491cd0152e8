use std::collections::HashMap;

use jpx_mbo_orderbook::{
    from_raw_file, order_book_runtime, BookError, BookMap, CTagWithCorrespondingPTag, Created,
    Fault, JPXMBOParser, MessageEnum, ModifiedOrder, ModifyType, OrderBookRunTimeCallback,
    OrderDeletion, OrderExecution, SecondTag, Side, TestSpread, Timestamp,
};

#[derive(Default)]
struct Collector {
    events: Vec<(Timestamp, &'static str)>,
    created: Vec<Created>,
    executions: Vec<OrderExecution>,
    groups: Vec<CTagWithCorrespondingPTag>,
    deletions: Vec<OrderDeletion>,
    modified: Vec<ModifiedOrder>,
    seconds: Vec<SecondTag>,
    changes: Vec<Vec<i64>>,
    done: Option<Option<Timestamp>>,
    stop_after: Option<usize>,
    polls: usize,
}

impl OrderBookRunTimeCallback for Collector {
    fn stop(&mut self) -> bool {
        self.polls += 1;
        match self.stop_after {
            Some(n) => self.polls > n,
            None => false,
        }
    }
    fn event_start(&mut self, _: &BookMap, t: &Timestamp, _: &[MessageEnum]) {
        self.events.push((*t, "start"));
    }
    fn event_end(&mut self, _: &BookMap, t: &Timestamp, _: &[MessageEnum]) {
        self.events.push((*t, "end"));
    }
    fn second_message(&mut self, _: &BookMap, t: &Timestamp, s: &[SecondTag]) {
        self.events.push((*t, "second"));
        self.seconds.extend_from_slice(s);
    }
    fn created(&mut self, _: &BookMap, t: &Timestamp, c: Created) {
        self.events.push((*t, "created"));
        self.created.push(c);
    }
    fn order_book_id_with_changes(&mut self, _: &BookMap, t: &Timestamp, c: &[i64]) {
        self.events.push((*t, "changes"));
        self.changes.push(c.to_vec());
    }
    fn executions(&mut self, _: &BookMap, t: &Timestamp, e: Vec<OrderExecution>) {
        self.events.push((*t, "executions"));
        self.executions.extend(e);
    }
    fn ctag_execution(&mut self, _: &BookMap, t: &Timestamp, g: Vec<CTagWithCorrespondingPTag>) {
        self.events.push((*t, "ctag"));
        self.groups.extend(g);
    }
    fn deletions(&mut self, _: &BookMap, t: &Timestamp, d: Vec<OrderDeletion>) {
        self.events.push((*t, "deletions"));
        self.deletions.extend(d);
    }
    fn modified_orders(&mut self, _: &BookMap, t: &Timestamp, m: Vec<ModifiedOrder>) {
        self.events.push((*t, "modified"));
        self.modified.extend(m);
    }
    fn all_done(&mut self, _: &BookMap, t: Option<Timestamp>) {
        self.done = Some(t);
    }
}

const R: &str = "R,2021-02-28T21:07:50.931282000(1614546470931282000),231080436,PUT_NK225_210312_29500,186098018,186098018,1,JPY,4,0,0,1,0,0,0,500,29500,20210312,0,2";

fn run(lines: &[&str]) -> (BookMap, Collector, jpx_mbo_orderbook::RuntimeStats) {
    let parsed = from_raw_file(lines.join("\n"));
    assert!(parsed.unknown.is_empty(), "{:?}", parsed.unknown);
    let mut books: BookMap = HashMap::new();
    let mut c = Collector::default();
    let stats = order_book_runtime(&mut books, parsed.itch, &mut c);
    (books, c, stats)
}

#[test]
fn standalone_deletion() {
    let (books, c, stats) = run(&[
        R,
        "A,2021-02-28T21:08:00.000000000(1614546480000000000),7396717914678617986,PUT_NK225_210312_29500(231080436),B,15,15,10000,0,2",
        "D,2021-02-28T23:19:33.728095287(1614554373728095287),7396717914678617986,PUT_NK225_210312_29500(231080436),B",
    ]);
    assert!(stats.fault.is_none());
    assert_eq!(stats.key_count, 3);
    assert_eq!(stats.message_count, 3);
    assert_eq!(c.deletions.len(), 1);
    let d = &c.deletions[0];
    assert_eq!(d.msg.order_id, 7396717914678617986);
    assert_eq!(d.msg.order_book_id, 231080436);
    assert_eq!(d.msg.side, Side::Buy);
    assert_eq!(d.deleted_order.quantity, 15);
    let book = &books[&231080436];
    assert_eq!(book.order(&7396717914678617986, &Side::Buy), None);
    assert_eq!(book.best_bid(), None);
    assert_eq!(
        c.done,
        Some(Some(Timestamp { secs: 1614554373, nanos: 728095287 }))
    );
}

#[test]
fn second_marker_only_notifies() {
    let (books, c, stats) = run(&["T,1614557640"]);
    assert!(stats.fault.is_none());
    assert!(books.is_empty());
    assert_eq!(c.seconds.len(), 1);
    assert_eq!(c.seconds[0].second, 1614557640);
    assert!(c.created.is_empty() && c.deletions.is_empty() && c.changes.is_empty());
}

#[test]
fn aggregate_after_partial_execution() {
    let (books, c, stats) = run(&[
        R,
        "A,2021-02-28T21:08:00.000000000(1614546480000000000),11,PUT_NK225_210312_29500(231080436),S,1,5,20000,0,2",
        "A,2021-02-28T21:08:00.000000000(1614546480000000000),12,PUT_NK225_210312_29500(231080436),S,2,7,20000,0,2",
        "E,2021-02-28T21:09:00.000000000(1614546540000000000),11,PUT_NK225_210312_29500(231080436),S,2,1,0,,",
    ]);
    assert!(stats.fault.is_none());
    let book = &books[&231080436];
    let best = book.best_ask().unwrap();
    assert_eq!(best.price, 20000);
    assert_eq!(best.qty, 10);
    assert_eq!(c.executions.len(), 1);
    assert_eq!(c.executions[0].matched_order_after_execution.quantity, 3);
    assert_eq!(c.created.len(), 1);
    assert_eq!(c.created[0].msgs.len(), 2);
    assert!(!c.created[0].is_fas);
}

#[test]
fn combo_group_fuses_records() {
    let (_books, c, stats) = run(&[
        R,
        "A,2021-02-28T21:08:00.000000000(1614546480000000000),21,PUT_NK225_210312_29500(231080436),B,1,3,20000,0,2",
        "A,2021-02-28T21:08:00.000000000(1614546480000000000),22,PUT_NK225_210312_29500(231080436),S,2,3,20000,0,2",
        "C,2021-03-01T00:09:42.006417851(1614557382006417851),21,PUT_NK225_210312_29500(231080436),B,1,900,77,,,20000,Y,Y",
        "C,2021-03-01T00:09:42.006417851(1614557382006417851),22,PUT_NK225_210312_29500(231080436),S,1,900,77,,,20000,Y,N",
        "P,2021-03-01T00:09:42.006417851(1614557382006417851),900,77,B,1,PUT_NK225_210312_29500(231080436),20000,,,,Y",
        "P,2021-03-01T00:09:42.006417851(1614557382006417851),900,77,S,1,PUT_NK225_210312_29500(231080436),20000,,,,Y",
    ]);
    assert!(stats.fault.is_none(), "{:?}", stats.fault);
    assert_eq!(c.groups.len(), 1);
    let g = &c.groups[0];
    assert_eq!(g.combo_group_id, 77);
    assert_eq!(g.c_tag.len(), 2);
    assert_eq!(g.p_tags.len(), 2);
    assert_eq!(g.matched_add_order.len(), 2);
    assert_eq!(g.executed_quantity(), 1);
    assert!(g.is_balanced());
    assert_eq!(g.order_book_id(), 231080436);
    assert!(g.occured_at_cross());
    assert_eq!(g.qty_by_order_book_id().get(&231080436), Some(&2));
}

#[test]
fn two_buy_records_sum() {
    let (_books, c, stats) = run(&[
        R,
        "A,2021-02-28T21:08:00.000000000(1614546480000000000),31,PUT_NK225_210312_29500(231080436),B,1,3,20000,0,2",
        "A,2021-02-28T21:08:00.000000000(1614546480000000000),32,PUT_NK225_210312_29500(231080436),B,2,3,20000,0,2",
        "C,2021-03-01T00:09:42.006417851(1614557382006417851),31,PUT_NK225_210312_29500(231080436),B,2,900,5,,,20000,Y,Y",
        "C,2021-03-01T00:09:42.006417851(1614557382006417851),32,PUT_NK225_210312_29500(231080436),B,3,900,5,,,20000,Y,Y",
    ]);
    assert!(stats.fault.is_none());
    assert_eq!(c.groups.len(), 1);
    assert_eq!(c.groups[0].executed_quantity(), 5);
}

#[test]
fn missing_order_is_fatal() {
    let (_books, c, stats) = run(&[
        "R,2021-02-28T21:07:50.931282000(1614546470931282000),40632820,PUT_NK225_210910_28000,186098018,186098018,1,JPY,4,0,0,1,0,0,0,500,28000,20210910,0,2",
        "E,2021-02-28T21:07:50.931282000(1614546470931282000),555,PUT_NK225_210910_28000(40632820),B,1,1,0,,",
    ]);
    match stats.fault {
        Some(Fault::Rejected(BookError::MissingOrder, MessageEnum::Executed(e))) => {
            assert_eq!(e.order_id, 555);
            assert_eq!(e.order_book_id, 40632820);
        },
        other => panic!("unexpected {:?}", other),
    }
    assert!(c.executions.is_empty());
    assert!(c.done.is_some());
}

#[test]
fn order_without_book_is_fatal() {
    let (_books, _c, stats) = run(&[
        "A,2021-02-28T21:08:00.000000000(1614546480000000000),1,X(99),B,1,1,1,0,2",
    ]);
    assert!(matches!(stats.fault, Some(Fault::MissingBook(MessageEnum::AddOrder(_)))));
}

#[test]
fn leg_price_without_group_is_fatal() {
    let (_books, _c, stats) = run(&[
        "P,2021-03-01T00:09:42.006417851(1614557382006417851),900,77,B,1,X(5),20000,,,,Y",
    ]);
    assert!(matches!(stats.fault, Some(Fault::UnmatchedLegPrice(_))));
}

#[test]
fn divergent_product_is_fatal() {
    let (_books, _c, stats) = run(&[
        R,
        "R,2021-02-28T21:08:50.931282000(1614546530931282000),231080436,PUT_NK225_210312_29500,186098018,186098018,1,JPY,4,0,0,1,0,0,0,500,29999,20210312,0,2",
    ]);
    assert!(matches!(stats.fault, Some(Fault::DivergentProduct(_, _))));
    // the same description again is accepted
    let (books, _c, stats) = run(&[
        R,
        "R,2021-02-28T21:08:50.931282000(1614546530931282000),231080436,PUT_NK225_210312_29500,186098018,186098018,1,JPY,4,0,0,1,0,0,0,500,29500,20210312,0,2",
    ]);
    assert!(stats.fault.is_none());
    assert_eq!(books.len(), 1);
}

#[test]
fn reference_data_without_book_is_set_aside() {
    let (books, _c, stats) = run(&[
        "O,2021-02-28T23:00:01.019577797(1614553201019577797),X(28246516),M_PRE_OPEN",
        "Z,2021-03-01T00:01:46.776038698(1614556906776038698),X(28246516),0,0,-2147483648,3850000,3950000,3,2",
    ]);
    assert!(stats.fault.is_none());
    assert!(books.is_empty());
    assert_eq!(stats.dropped.len(), 2);
}

#[test]
fn amendment_fuses_delete_and_add() {
    let (books, c, stats) = run(&[
        R,
        "A,2021-02-28T21:08:00.000000000(1614546480000000000),41,PUT_NK225_210312_29500(231080436),B,1,10,20000,0,2",
        "D,2021-02-28T21:09:00.000000000(1614546540000000000),41,PUT_NK225_210312_29500(231080436),B",
        "A,2021-02-28T21:09:00.000000000(1614546540000000000),41,PUT_NK225_210312_29500(231080436),B,1,6,20000,0,2",
    ]);
    assert!(stats.fault.is_none());
    assert_eq!(c.modified.len(), 1);
    let m = &c.modified[0];
    assert_eq!(m.id.order_id, 41);
    assert_eq!(m.previous_add_order.quantity, 10);
    assert_eq!(m.modify_msg.quantity, 6);
    assert_eq!(m.modify_type, ModifyType::ReduceQty);
    assert!(c.deletions.is_empty());
    // the only creation is the one of the earlier batch
    assert_eq!(c.created.len(), 1);
    assert_eq!(c.created[0].msgs[0].timestamp.secs, 1614546480);
    assert_eq!(books[&231080436].best_bid().unwrap().qty, 6);
}

#[test]
fn batches_report_in_time_order() {
    let (_books, c, stats) = run(&[
        R,
        "A,2021-02-28T21:09:00.000000000(1614546540000000000),2,PUT_NK225_210312_29500(231080436),B,1,1,20000,0,2",
        "A,2021-02-28T21:08:00.000000000(1614546480000000000),1,PUT_NK225_210312_29500(231080436),B,1,1,20000,0,2",
    ]);
    assert!(stats.fault.is_none());
    let mut last = Timestamp { secs: i64::MIN, nanos: 0 };
    for (t, _) in c.events.iter() {
        assert!(!t.is_before(&last));
        last = *t;
    }
    assert_eq!(c.created.len(), 2);
    assert_eq!(c.created[0].msgs[0].order_id, 1);
}

#[test]
fn late_records_join_their_batch() {
    let mut p = JPXMBOParser::new();
    p.parse_line("T,100".to_string());
    p.parse_line("T,101".to_string());
    p.parse_line("T,100".to_string());
    p.parse_line("nonsense".to_string());
    let r = p.complete_parsing();
    assert_eq!(r.itch.len(), 2);
    assert_eq!(r.itch[0].0, Timestamp { secs: 100, nanos: 0 });
    assert_eq!(r.itch[0].1.len(), 2);
    assert_eq!(r.itch[1].1.len(), 1);
    assert_eq!(r.unknown, vec!["nonsense".to_string()]);
}

#[test]
fn stop_ends_the_run_early() {
    let parsed = from_raw_file(["T,100", "T,101", "T,102"].join("\n"));
    let mut books: BookMap = HashMap::new();
    let mut c = Collector { stop_after: Some(2), ..Collector::default() };
    let stats = order_book_runtime(&mut books, parsed.itch, &mut c);
    assert_eq!(stats.key_count, 1);
    assert_eq!(c.seconds.len(), 1);
    assert!(c.done.is_some());
}

#[test]
fn spread_watch_flags_crossed_books() {
    let parsed = from_raw_file(
        [
            R,
            "A,2021-02-28T21:08:00.000000000(1614546480000000000),1,X(231080436),B,1,1,20000,0,2",
            "A,2021-02-28T21:09:00.000000000(1614546540000000000),2,X(231080436),S,1,1,30000,0,2",
            "A,2021-02-28T21:10:00.000000000(1614546600000000000),3,X(231080436),S,1,1,10000,0,2",
        ]
        .join("\n"),
    );
    let mut books: BookMap = HashMap::new();
    let mut watch = TestSpread::new();
    let stats = order_book_runtime(&mut books, parsed.itch, &mut watch);
    assert!(stats.fault.is_none());
    assert_eq!(watch.crossed, vec![(Timestamp { secs: 1614546600, nanos: 0 }, 231080436)]);
    assert!(TestSpread::spread_ok(&books[&231080436]) == false);
}

#[test]
fn unbalanced_groups_are_reported() {
    let (_books, _c, stats) = run(&[
        R,
        "A,2021-02-28T21:08:00.000000000(1614546480000000000),31,PUT_NK225_210312_29500(231080436),B,1,3,20000,0,2",
        "A,2021-02-28T21:08:00.000000000(1614546480000000000),32,PUT_NK225_210312_29500(231080436),B,2,3,20000,0,2",
        "C,2021-03-01T00:09:42.006417851(1614557382006417851),31,PUT_NK225_210312_29500(231080436),B,2,900,5,,,20000,Y,Y",
        "C,2021-03-01T00:09:42.006417851(1614557382006417851),32,PUT_NK225_210312_29500(231080436),B,3,900,5,,,20000,Y,Y",
    ]);
    assert!(stats.fault.is_none());
    assert_eq!(
        stats.unbalanced,
        vec![(Timestamp { secs: 1614557382, nanos: 6417851 }, vec![5])]
    );
}

#[test]
fn balanced_groups_are_not_reported() {
    let (_books, c, stats) = run(&[
        R,
        "A,2021-02-28T21:08:00.000000000(1614546480000000000),21,PUT_NK225_210312_29500(231080436),B,1,3,20000,0,2",
        "A,2021-02-28T21:08:00.000000000(1614546480000000000),22,PUT_NK225_210312_29500(231080436),S,2,3,20000,0,2",
        "C,2021-03-01T00:09:42.006417851(1614557382006417851),21,PUT_NK225_210312_29500(231080436),B,1,900,77,,,20000,Y,Y",
        "C,2021-03-01T00:09:42.006417851(1614557382006417851),22,PUT_NK225_210312_29500(231080436),S,1,900,77,,,20000,Y,N",
        "P,2021-03-01T00:09:42.006417851(1614557382006417851),900,77,B,1,PUT_NK225_210312_29500(231080436),20000,,,,Y",
    ]);
    assert!(stats.fault.is_none());
    assert!(stats.unbalanced.is_empty());
    let g = &c.groups[0];
    assert_eq!(g.matched_add_order[0].order_id, 21);
    assert_eq!(g.matched_add_order[0].quantity, 2);
    assert_eq!(g.matched_add_order[1].order_id, 22);
    assert_eq!(g.matched_add_order[1].quantity, 2);
    assert_eq!(g.p_tags[0].combo_group_id, 77);
}

#[test]
fn amendment_records_both_halves() {
    let (_books, c, _stats) = run(&[
        R,
        "A,2021-02-28T21:08:00.000000000(1614546480000000000),41,PUT_NK225_210312_29500(231080436),B,1,10,20000,0,2",
        "D,2021-02-28T21:09:00.000000000(1614546540000000000),41,PUT_NK225_210312_29500(231080436),B",
        "A,2021-02-28T21:09:00.000000000(1614546540000000000),41,PUT_NK225_210312_29500(231080436),B,1,10,21000,0,2",
    ]);
    let m = &c.modified[0];
    assert_eq!(m.delete_msg.order_id, 41);
    assert_eq!(m.delete_msg.timestamp.secs, 1614546540);
    assert_eq!(m.modify_msg.price, 21000);
    assert_eq!(m.previous_add_order.price, 20000);
    assert_eq!(m.previous_add_order.timestamp.secs, 1614546480);
    assert_eq!(m.modify_type, ModifyType::PriceChange);
}

#[test]
fn missing_deletion_is_fatal_with_its_fields() {
    let (books, _c, stats) = run(&[
        R,
        "D,2021-02-28T23:19:33.728095287(1614554373728095287),7396717914678617986,PUT_NK225_210312_29500(231080436),B",
    ]);
    match stats.fault {
        Some(Fault::Rejected(BookError::MissingOrder, MessageEnum::DeleteOrder(d))) => {
            assert_eq!(d.order_id, 7396717914678617986);
            assert_eq!(d.order_book_id, 231080436);
            assert_eq!(d.side, Side::Buy);
        },
        other => panic!("unexpected {:?}", other),
    }
    assert_eq!(books.len(), 1);
    assert_eq!(stats.key_count, 2);
    assert_eq!(
        stats.last_timestamp,
        Some(Timestamp { secs: 1614554373, nanos: 728095287 })
    );
}
