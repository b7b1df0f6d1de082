use protohackers::ledger::PriceLedger;
use protohackers::wire::Frame;

fn ledger_of(writes: &[(i32, i32)]) -> PriceLedger {
    let mut ledger = PriceLedger::new();
    for &(timestamp, price) in writes {
        ledger.insert(timestamp, price);
    }
    ledger
}

#[test]
fn new_ledger_is_empty() {
    let ledger = PriceLedger::new();
    assert_eq!(ledger.len(), 0);
    assert_eq!(ledger.get(0), None);
    assert_eq!(ledger.mean(i32::MIN, i32::MAX), 0);
}

#[test]
fn mean_of_three_prices() {
    let ledger = ledger_of(&[(1000, 100), (1010, 200), (1020, 300)]);
    assert_eq!(ledger.mean(1000, 1020), 200);
}

#[test]
fn mean_of_the_one_price_in_range() {
    let ledger = ledger_of(&[(1000, 100), (1010, 200), (1020, 300)]);
    assert_eq!(ledger.mean(1005, 1015), 200);
}

#[test]
fn inverted_range_is_zero() {
    let ledger = ledger_of(&[(1000, 100), (1010, 200), (1020, 300)]);
    assert_eq!(ledger.mean(2000, 1000), 0);
    assert_eq!(ledger.mean(1020, 1000), 0);
    assert_eq!(ledger.mean(1011, 1010), 0);
    assert_eq!(ledger.mean(i32::MAX, i32::MIN), 0);
}

#[test]
fn range_without_prices_is_zero() {
    let ledger = ledger_of(&[(1000, 100), (1010, 200), (1020, 300)]);
    assert_eq!(ledger.mean(5000, 6000), 0);
    assert_eq!(ledger.mean(1001, 1009), 0);
    assert_eq!(ledger.mean(i32::MIN, 999), 0);
}

#[test]
fn bounds_are_inclusive() {
    let ledger = ledger_of(&[(10, 1), (20, 5), (30, 9)]);
    assert_eq!(ledger.mean(10, 10), 1);
    assert_eq!(ledger.mean(10, 20), 3);
    assert_eq!(ledger.mean(20, 30), 7);
    assert_eq!(ledger.mean(11, 29), 5);
    assert_eq!(ledger.mean(11, 30), 7);
    assert_eq!(ledger.mean(10, 29), 3);
    assert_eq!(ledger.mean(10, 30), 5);
}

#[test]
fn order_of_inserts_does_not_matter() {
    let a = ledger_of(&[(3, 30), (1, 10), (2, 20)]);
    let b = ledger_of(&[(1, 10), (2, 20), (3, 30)]);
    for lo in 0..5 {
        for hi in 0..5 {
            assert_eq!(a.mean(lo, hi), b.mean(lo, hi));
        }
    }
    assert_eq!(a.mean(1, 3), 20);
    assert_eq!(a.mean(2, 3), 25);
}

#[test]
fn second_insert_at_a_timestamp_overwrites_the_first() {
    let mut ledger = PriceLedger::new();
    ledger.insert(7, 100);
    assert_eq!(ledger.mean(7, 7), 100);
    ledger.insert(7, 40);
    assert_eq!(ledger.len(), 1);
    assert_eq!(ledger.get(7), Some(40));
    assert_eq!(ledger.mean(7, 7), 40);
    assert_eq!(ledger.mean(0, 10), 40);
}

#[test]
fn overwrite_among_other_prices() {
    let mut ledger = ledger_of(&[(1, 10), (2, 20), (3, 30)]);
    ledger.insert(2, 50);
    assert_eq!(ledger.len(), 3);
    assert_eq!(ledger.mean(1, 3), 30);
    assert_eq!(ledger.mean(2, 2), 50);
}

#[test]
fn same_query_twice_gives_the_same_answer() {
    let ledger = ledger_of(&[(1, 10), (2, 21), (3, 30)]);
    let first = ledger.mean(1, 2);
    let second = ledger.mean(1, 2);
    assert_eq!(first, 15);
    assert_eq!(second, 15);
    assert_eq!(ledger.len(), 3);
}

#[test]
fn extreme_prices_do_not_overflow() {
    let ledger = ledger_of(&[(1, i32::MIN), (2, i32::MAX)]);
    assert_eq!(ledger.mean(1, 2), 0);
    assert_eq!(ledger.mean(1, 1), i32::MIN);
    assert_eq!(ledger.mean(2, 2), i32::MAX);
}

#[test]
fn many_extreme_prices_do_not_overflow() {
    let mut high = PriceLedger::new();
    let mut low = PriceLedger::new();
    for t in 0..1000 {
        high.insert(t, i32::MAX);
        low.insert(t, i32::MIN);
    }
    assert_eq!(high.mean(0, 999), i32::MAX);
    assert_eq!(low.mean(0, 999), i32::MIN);
    assert_eq!(high.mean(i32::MIN, i32::MAX), i32::MAX);
    assert_eq!(low.mean(i32::MIN, i32::MAX), i32::MIN);
}

#[test]
fn extreme_timestamps() {
    let ledger = ledger_of(&[(i32::MIN, 4), (i32::MAX, 8), (0, 3)]);
    assert_eq!(ledger.mean(i32::MIN, i32::MAX), 5);
    assert_eq!(ledger.mean(i32::MIN, i32::MIN), 4);
    assert_eq!(ledger.mean(i32::MAX, i32::MAX), 8);
    assert_eq!(ledger.mean(i32::MIN, 0), 3);
    assert_eq!(ledger.mean(1, i32::MAX), 8);
}

#[test]
fn mean_rounds_toward_zero() {
    let ledger = ledger_of(&[(1, 1), (2, 2)]);
    assert_eq!(ledger.mean(1, 2), 1);
    let ledger = ledger_of(&[(1, -1), (2, -2)]);
    assert_eq!(ledger.mean(1, 2), -1);
    let ledger = ledger_of(&[(1, -7), (2, 0), (3, 0)]);
    assert_eq!(ledger.mean(1, 3), -2);
    let ledger = ledger_of(&[(1, 7), (2, 0), (3, 0)]);
    assert_eq!(ledger.mean(1, 3), 2);
    let ledger = ledger_of(&[(1, -1), (2, 0)]);
    assert_eq!(ledger.mean(1, 2), 0);
}

#[test]
fn negative_timestamps_are_ordered_by_value() {
    let ledger = ledger_of(&[(-5, 50), (-1, 10), (3, 30)]);
    assert_eq!(ledger.mean(-5, -1), 30);
    assert_eq!(ledger.mean(-4, 3), 20);
    assert_eq!(ledger.mean(-1, -5), 0);
}

#[test]
fn get_and_len_follow_the_inserts() {
    let mut ledger = PriceLedger::new();
    ledger.insert(5, 1);
    ledger.insert(6, 2);
    ledger.insert(5, 3);
    assert_eq!(ledger.len(), 2);
    assert_eq!(ledger.get(5), Some(3));
    assert_eq!(ledger.get(6), Some(2));
    assert_eq!(ledger.get(7), None);
}

#[test]
fn apply_insert_has_no_answer() {
    let mut ledger = PriceLedger::new();
    assert_eq!(ledger.apply(Frame::Insert { timestamp: 1, price: 9 }), None);
    assert_eq!(ledger.get(1), Some(9));
    assert_eq!(ledger.len(), 1);
}

#[test]
fn apply_query_answers_and_changes_nothing() {
    let mut ledger = ledger_of(&[(1, 9), (2, 11)]);
    assert_eq!(ledger.apply(Frame::Query { min_time: 1, max_time: 2 }), Some(10));
    assert_eq!(ledger.apply(Frame::Query { min_time: 2, max_time: 1 }), Some(0));
    assert_eq!(ledger.apply(Frame::Query { min_time: 3, max_time: 4 }), Some(0));
    assert_eq!(ledger.len(), 2);
    assert_eq!(ledger.get(1), Some(9));
    assert_eq!(ledger.get(2), Some(11));
}
