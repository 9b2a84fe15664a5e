use dico_pallets::oracle::{retain_fresh, sort_values, DefaultCombineData, TimestampedValue};

fn tv(value: u128, timestamp: u64) -> TimestampedValue {
    TimestampedValue { value, timestamp }
}

#[test]
fn median_of_fresh_values() {
    let c = DefaultCombineData { minimum_count: 3, expires_in: 600 };
    let values = vec![tv(30, 1000), tv(10, 1000), tv(20, 1000), tv(40, 1000)];
    // Sorted: 10 20 30 40; the median index is 4 / 2 = 2.
    assert_eq!(c.combine_data(&1, values, None, 1200), Some(tv(30, 1000)));
}

#[test]
fn odd_count_takes_the_middle() {
    let c = DefaultCombineData { minimum_count: 1, expires_in: 600 };
    let values = vec![tv(5, 100), tv(1, 100), tv(3, 100)];
    assert_eq!(c.combine_data(&1, values, None, 100), Some(tv(3, 100)));
}

#[test]
fn expired_values_are_dropped() {
    let c = DefaultCombineData { minimum_count: 2, expires_in: 600 };
    // The value of 1000 expired at 100 + 600 = 700 <= now.
    let values = vec![tv(1000, 100), tv(10, 500), tv(20, 500)];
    assert_eq!(c.combine_data(&7, values, None, 700), Some(tv(20, 500)));
}

#[test]
fn too_few_fresh_values_gives_previous() {
    let c = DefaultCombineData { minimum_count: 3, expires_in: 600 };
    let prev = Some(tv(99, 1));
    let values = vec![tv(1000, 100), tv(10, 500), tv(20, 500)];
    assert_eq!(c.combine_data(&7, values, prev, 700), prev);
    assert_eq!(c.combine_data(&7, vec![], None, 700), None);
}

#[test]
fn equal_values_keep_their_order() {
    let c = DefaultCombineData { minimum_count: 1, expires_in: 600 };
    let values = vec![tv(7, 3), tv(7, 1), tv(7, 2)];
    assert_eq!(c.combine_data(&1, values, None, 3), Some(tv(7, 1)));
}

#[test]
fn sort_values_is_stable() {
    let values = vec![tv(2, 1), tv(1, 2), tv(2, 3), tv(0, 4)];
    assert_eq!(sort_values(&values), vec![tv(0, 4), tv(1, 2), tv(2, 1), tv(2, 3)]);
}

#[test]
fn retain_fresh_keeps_order() {
    let values = vec![tv(1, 10), tv(2, 0), tv(3, 11)];
    assert_eq!(retain_fresh(&values, 5, 15), vec![tv(3, 11)]);
    assert_eq!(retain_fresh(&values, 6, 15), vec![tv(1, 10), tv(3, 11)]);
}

#[test]
fn reported_order_does_not_change_the_median_value() {
    let c = DefaultCombineData { minimum_count: 1, expires_in: 600 };
    let a = vec![tv(5, 100), tv(9, 101), tv(5, 102), tv(1, 103)];
    let b = vec![tv(1, 103), tv(5, 102), tv(9, 101), tv(5, 100)];
    let ra = c.combine_data(&1, a, None, 200).map(|x| x.value);
    let rb = c.combine_data(&1, b, None, 200).map(|x| x.value);
    assert_eq!(ra, Some(5));
    assert_eq!(ra, rb);
}
