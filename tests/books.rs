use jpx_mbo_orderbook::{
    extract_datetime_string, extract_value, extract_value_and_parse, is_out_of_tick_range,
    ticks_between_price, AddOrder, BookError, DeleteOrder, Executed, ExecutionWithPriceInfo,
    FinancialProduct, MessageEnum, OrderBook, PriceLevelView, ProductInfo, PutOrCall, SecondTag,
    Side, TickSize, Timestamp,
};

const PRODUCT: &str = "R,2021-02-28T21:07:50.931282000(1614546470931282000),231080436,PUT_NK225_210312_29500,186098018,186098018,1,JPY,4,0,0,1,0,0,0,500,29500,20210312,0,2";

fn book() -> OrderBook {
    OrderBook::new(ProductInfo::parse(PRODUCT).unwrap())
}

fn order(id: i64, side: Side, price: i64, quantity: i64) -> AddOrder {
    AddOrder {
        timestamp: Timestamp { secs: 1614546470, nanos: 931282000 },
        order_book_id: 231080436,
        order_book_position: 1,
        order_id: id,
        price,
        quantity,
        side,
    }
}

fn delete(id: i64, side: Side) -> DeleteOrder {
    DeleteOrder {
        timestamp: Timestamp { secs: 1614546471, nanos: 0 },
        order_book_id: 231080436,
        order_id: id,
        side,
    }
}

fn executed(id: i64, side: Side, qty: i64) -> Executed {
    Executed {
        timestamp: Timestamp { secs: 1614546472, nanos: 0 },
        combo_group_id: 0,
        executed_quantity: qty,
        match_id: "1".to_string(),
        order_book_id: 231080436,
        order_id: id,
        side,
    }
}

#[test]
fn decode_add_order_fields() {
    let a = AddOrder::parse("A,2021-02-28T21:07:50.931282000(1614546470931282000),7395532366336496435,PUT_NK225_210312_19250(126484980),B,15,15,10000,0,2").unwrap();
    assert_eq!(a.timestamp, Timestamp { secs: 1614546470, nanos: 931282000 });
    assert_eq!(a.order_id, 7395532366336496435);
    assert_eq!(a.order_book_id, 126484980);
    assert_eq!(a.side, Side::Buy);
    assert_eq!(a.order_book_position, 15);
    assert_eq!(a.quantity, 15);
    assert_eq!(a.price, 10000);
}

#[test]
fn decode_product_info_fields() {
    let r = ProductInfo::parse(PRODUCT).unwrap();
    assert_eq!(r.order_book_id, 231080436);
    assert_eq!(r.symbol, "PUT_NK225_210312_29500");
    assert_eq!(r.long_name, "186098018");
    assert_eq!(r.financial_product, FinancialProduct::Option);
    assert_eq!(r.number_of_decimal_in_price, 4);
    assert_eq!(r.number_of_legs, 0);
    assert_eq!(r.underlying_order_book_id, 500);
    assert_eq!(r.strike_price, 29500);
    assert_eq!(r.expiration_date, 20210312);
    assert_eq!(r.put_or_call, PutOrCall::Put);
}

#[test]
fn decode_rejects_bad_records() {
    assert!(AddOrder::parse("D,2021-02-28T21:07:50.931282000(1),1,X(2),B").is_err());
    assert!(AddOrder::parse("A,2021-02-28T21:07:50.931282000(1),1,X(2),Q,1,1,1").is_err());
    assert!(AddOrder::parse("A,2021-02-28T21:07:50.931282000(1),1,X(2),B,1,1").is_err());
    assert!(AddOrder::parse("A,not a date(1),1,X(2),B,1,1,1").is_err());
    assert!(SecondTag::parse("T,abc").is_err());
    assert!(SecondTag::parse("T,99999999999999999").is_err());
    assert_eq!(MessageEnum::decode("garbage"), Err("garbage".to_string()));
}

#[test]
fn second_marker_value() {
    let t = SecondTag::parse("T,1614557640").unwrap();
    assert_eq!(t.second, 1614557640);
    assert_eq!(t.timestamp, Timestamp { secs: 1614557640, nanos: 0 });
    let m = MessageEnum::decode("T,1614557640").unwrap();
    assert_eq!(m.tag(), 'T');
}

#[test]
fn tag_names() {
    assert_eq!(MessageEnum::struct_name_to_tag("PutOrder"), Some('A'));
    assert_eq!(MessageEnum::struct_name_to_tag("LegPrice"), Some('P'));
    assert_eq!(MessageEnum::struct_name_to_tag("Nothing"), None);
    assert_eq!(MessageEnum::tag_to_struct_name('Z'), Some("EquilibriumPrice"));
    assert_eq!(MessageEnum::tag_to_struct_name('x'), None);
}

#[test]
fn extract_helpers() {
    assert_eq!(extract_value("PUT_NK225_210312_29500(231080436)"), Some("231080436"));
    assert_eq!(extract_value("no parens"), None);
    assert_eq!(extract_value(")("), None);
    assert_eq!(extract_value_and_parse("42"), Some(42));
    assert_eq!(extract_value_and_parse("NAME(-7)"), Some(-7));
    assert_eq!(extract_value_and_parse("NAME(x)"), None);
    assert_eq!(
        extract_datetime_string("2021-02-28T21:07:50.931282000(1614546470931282000)"),
        Some("2021-02-28T21:07:50.931282000")
    );
}

#[test]
fn add_then_delete_restores_book() {
    let mut b = book();
    b.add(order(7396717914678617986, Side::Buy, 10000, 15)).unwrap();
    assert_eq!(b.best_bid(), Some(PriceLevelView { price: 10000, qty: 15 }));
    let removed = b.delete(&delete(7396717914678617986, Side::Buy)).unwrap();
    assert_eq!(removed.quantity, 15);
    assert_eq!(b.order(&7396717914678617986, &Side::Buy), None);
    assert_eq!(b.best_bid(), None);
    assert_eq!(b.qty_at_price(10000, Side::Buy), None);
}

#[test]
fn duplicate_add_is_refused() {
    let mut b = book();
    b.add(order(1, Side::Sell, 500, 2)).unwrap();
    assert_eq!(b.add(order(1, Side::Sell, 600, 3)), Err(BookError::DuplicateOrder));
    // the same id may rest on the other side
    assert_eq!(b.add(order(1, Side::Buy, 400, 3)), Ok(()));
    assert_eq!(b.best_ask(), Some(PriceLevelView { price: 500, qty: 2 }));
}

#[test]
fn delete_missing_is_refused() {
    let mut b = book();
    assert_eq!(b.delete(&delete(9, Side::Sell)), Err(BookError::MissingOrder));
}

#[test]
fn execution_reduces_and_removes() {
    let mut b = book();
    b.add(order(1, Side::Sell, 500, 5)).unwrap();
    let after = b.executed(&executed(1, Side::Sell, 2)).unwrap();
    assert_eq!(after.quantity, 3);
    assert_eq!(b.qty(500, Side::Sell), Some(3));
    assert_eq!(b.executed(&executed(1, Side::Sell, 4)), Err(BookError::NegativeQuantity));
    assert_eq!(b.qty(500, Side::Sell), Some(3));
    let last = b.executed(&executed(1, Side::Sell, 3)).unwrap();
    assert_eq!(last.quantity, 0);
    assert_eq!(b.order(&1, &Side::Sell), None);
    assert_eq!(b.qty(500, Side::Sell), None);
    assert_eq!(b.executed(&executed(1, Side::Sell, 1)), Err(BookError::MissingOrder));
}

#[test]
fn c_execution_reduces_order() {
    let mut b = book();
    b.add(order(3, Side::Buy, 700, 4)).unwrap();
    let c = ExecutionWithPriceInfo {
        timestamp: Timestamp { secs: 1, nanos: 0 },
        combo_group_id: 9,
        executed_quantity: 1,
        match_id: 1,
        occurred_at_cross: true,
        order_book_id: 231080436,
        order_id: 3,
        side: Side::Buy,
        trade_price: 700,
    };
    assert_eq!(b.c_executed(&c).unwrap().quantity, 3);
}

#[test]
fn aggregate_quantity_at_price() {
    let mut b = book();
    b.add(order(1, Side::Buy, 1000, 5)).unwrap();
    b.add(order(2, Side::Buy, 1000, 7)).unwrap();
    b.executed(&executed(1, Side::Buy, 2)).unwrap();
    assert_eq!(b.best_bid(), Some(PriceLevelView { price: 1000, qty: 10 }));
    assert_eq!(b.qty_at_price(1000, Side::Buy), Some(PriceLevelView { price: 1000, qty: 10 }));
}

#[test]
fn best_prices_and_ranges() {
    let mut b = book();
    b.add(order(1, Side::Buy, 100, 1)).unwrap();
    b.add(order(2, Side::Buy, 300, 2)).unwrap();
    b.add(order(3, Side::Buy, 200, 3)).unwrap();
    b.add(order(4, Side::Sell, 500, 4)).unwrap();
    b.add(order(5, Side::Sell, 400, 5)).unwrap();
    assert_eq!(b.best_bid(), Some(PriceLevelView { price: 300, qty: 2 }));
    assert_eq!(b.best_ask(), Some(PriceLevelView { price: 400, qty: 5 }));
    assert_eq!(
        b.qty_at_price_range(150, 300, Side::Buy),
        vec![PriceLevelView { price: 200, qty: 3 }, PriceLevelView { price: 300, qty: 2 }]
    );
    assert_eq!(b.qty_at_price_range(600, 700, Side::Sell), vec![]);
    assert_eq!(b.order_book_id(), 231080436);
}

fn band(from: i64, to: i64, tick: i64) -> TickSize {
    TickSize {
        timestamp: Timestamp { secs: 0, nanos: 0 },
        order_book_id: 231080436,
        price_from: from,
        price_to: to,
        tick_size: tick,
    }
}

#[test]
fn tick_counting() {
    let mut b = book();
    b.append_l(band(0, 1000, 10));
    b.append_l(band(1000, 10000, 100));
    assert_eq!(ticks_between_price(&b, 500, 500), Some(0));
    assert_eq!(ticks_between_price(&b, 100, 500), Some(40));
    assert_eq!(ticks_between_price(&b, 500, 100), Some(40));
    // 900 -> 1000 in steps of 10, then 1000 -> 1200 counted with the lower band's 10
    assert_eq!(ticks_between_price(&b, 900, 1200), Some(30));
    assert_eq!(ticks_between_price(&b, 900, 20000), None);
    assert!(is_out_of_tick_range(&b, 10000));
    assert!(is_out_of_tick_range(&b, 0));
    assert!(!is_out_of_tick_range(&b, 10001));
    assert!(!is_out_of_tick_range(&book(), 5));
}

#[test]
fn negative_tick_size_counts_toward_zero() {
    let mut b = book();
    b.append_l(band(0, 1000, -10));
    b.append_l(band(2000, 3000, 0));
    assert_eq!(ticks_between_price(&b, 100, 555), Some(-45));
    assert_eq!(ticks_between_price(&b, 2100, 2200), None);
}

#[test]
fn second_marker_range() {
    assert!(SecondTag::parse("T,-8334601228800").is_ok());
    assert!(SecondTag::parse("T,-8334601228801").is_err());
    assert!(SecondTag::parse("T,8210266876799").is_ok());
    assert!(SecondTag::parse("T,8210266876800").is_err());
}

#[test]
fn second_range_matches_chrono() {
    for secs in [-8334601228801i64, -8334601228800, 0, 8210266876799, 8210266876800] {
        assert_eq!(
            chrono::DateTime::from_timestamp(secs, 0).is_some(),
            Timestamp::from_second(secs).is_some(),
            "{}",
            secs
        );
    }
}
