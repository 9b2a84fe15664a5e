//! Combining the values that oracle feeders report for one key: the median of
//! the values that have not expired yet.

use vstd::prelude::*;
use vstd::relations::{sorted_by, total_ordering};

verus! {

/// Identifier of the value that feeders report on (a currency id).
pub type OracleKey = u32;

/// A point in time, in milliseconds.
pub type Moment = u64;

/// A price, as the inner value of a fixed-point number.
pub type Price = u128;

/// A value reported by one feeder, with the time it was reported at.
#[derive(Clone, Copy, Debug, PartialEq, Eq)]
pub struct TimestampedValue {
    pub value: Price,
    pub timestamp: Moment,
}

/// Whether a value reported at `x.timestamp` is still valid at `now`.
pub open spec fn is_fresh(x: TimestampedValue, expires_in: Moment, now: Moment) -> bool {
    x.timestamp + expires_in > now
}

/// Whether the end of validity of each value fits in a `Moment`.
pub open spec fn no_expiry_overflow(values: Seq<TimestampedValue>, expires_in: Moment) -> bool {
    forall|i: int| 0 <= i < values.len() ==> #[trigger] values[i].timestamp + expires_in <= u64::MAX
}

/// The test of validity at `now`, as a predicate.
pub open spec fn fresh_at(expires_in: Moment, now: Moment) -> spec_fn(TimestampedValue) -> bool {
    |x: TimestampedValue| is_fresh(x, expires_in, now)
}

/// The values, in their order, that are still valid at `now`.
pub open spec fn fresh_values(values: Seq<TimestampedValue>, expires_in: Moment, now: Moment) -> Seq<TimestampedValue> {
    values.filter(fresh_at(expires_in, now))
}

/// `x` inserted into `s` after every element whose value is not greater than `x.value`.
pub open spec fn insert_by_value(s: Seq<TimestampedValue>, x: TimestampedValue) -> Seq<TimestampedValue>
    decreases s.len(),
{
    if s.len() == 0 {
        seq![x]
    } else if s[0].value > x.value {
        seq![x] + s
    } else {
        seq![s[0]] + insert_by_value(s.drop_first(), x)
    }
}

/// `s` sorted by value, stably: elements of equal value keep their order.
pub open spec fn sort_by_value(s: Seq<TimestampedValue>) -> Seq<TimestampedValue>
    decreases s.len(),
{
    if s.len() == 0 {
        s
    } else {
        insert_by_value(sort_by_value(s.drop_last()), s.last())
    }
}

/// What the combiner gives: `prev_value` when fewer than `minimum_count` values are
/// still valid, else the valid value at position `count / 2` in value order.
pub open spec fn combined_value(
    values: Seq<TimestampedValue>,
    prev_value: Option<TimestampedValue>,
    minimum_count: u32,
    expires_in: Moment,
    now: Moment,
) -> Option<TimestampedValue> {
    let fresh = fresh_values(values, expires_in, now);
    if fresh.len() < minimum_count {
        prev_value
    } else {
        Some(sort_by_value(fresh)[(fresh.len() / 2) as int])
    }
}

/// Inserting by value is inserting at the first position whose value is greater.
proof fn lemma_insert_by_value_at(s: Seq<TimestampedValue>, x: TimestampedValue, p: int)
    requires
        0 <= p <= s.len(),
        forall|i: int| 0 <= i < p ==> s[i].value <= x.value,
        p < s.len() ==> s[p].value > x.value,
    ensures
        insert_by_value(s, x) == s.insert(p, x),
    decreases p,
{
    if s.len() == 0 {
        assert(s.insert(p, x) =~= seq![x]);
    } else if p == 0 {
        assert(s.insert(p, x) =~= seq![x] + s);
    } else {
        let t = s.drop_first();
        lemma_insert_by_value_at(t, x, p - 1);
        assert(s.insert(p, x) =~= seq![s[0]] + t.insert(p - 1, x));
    }
}

/// Sorting by value keeps the length.
pub proof fn lemma_sort_by_value_len(s: Seq<TimestampedValue>)
    ensures
        sort_by_value(s).len() == s.len(),
    decreases s.len(),
{
    if s.len() > 0 {
        lemma_sort_by_value_len(s.drop_last());
        lemma_insert_by_value_len(sort_by_value(s.drop_last()), s.last());
    }
}

proof fn lemma_insert_by_value_len(s: Seq<TimestampedValue>, x: TimestampedValue)
    ensures
        insert_by_value(s, x).len() == s.len() + 1,
    decreases s.len(),
{
    if s.len() > 0 && s[0].value <= x.value {
        lemma_insert_by_value_len(s.drop_first(), x);
    }
}

/// Whether the values are in increasing order.
pub open spec fn sorted_by_value(s: Seq<TimestampedValue>) -> bool {
    forall|i: int, j: int| 0 <= i < j < s.len() ==> (#[trigger] s[i]).value <= (#[trigger] s[j]).value
}

proof fn lemma_insert_by_value_props(s: Seq<TimestampedValue>, x: TimestampedValue, lb: Price)
    requires
        sorted_by_value(s),
    ensures
        sorted_by_value(insert_by_value(s, x)),
        insert_by_value(s, x).to_multiset() == s.to_multiset().insert(x),
        (forall|i: int| 0 <= i < s.len() ==> lb <= (#[trigger] s[i]).value) && lb <= x.value ==>
            forall|k: int| 0 <= k < insert_by_value(s, x).len() ==> lb <= (#[trigger] insert_by_value(s, x)[k]).value,
    decreases s.len(),
{
    broadcast use vstd::seq_lib::group_to_multiset_ensures;
    lemma_insert_by_value_len(s, x);
    if s.len() == 0 {
        assert(seq![x] =~= Seq::<TimestampedValue>::empty().push(x));
    } else if s[0].value > x.value {
        assert(seq![x] + s =~= s.insert(0, x));
    } else {
        let rest = s.drop_first();
        lemma_insert_by_value_props(rest, x, s[0].value);
        lemma_insert_by_value_props(rest, x, lb);
        let t = insert_by_value(rest, x);
        assert(seq![s[0]] + t =~= t.insert(0, s[0]));
        assert(s =~= rest.insert(0, s[0]));
        assert(t.to_multiset().insert(s[0]) =~= rest.to_multiset().insert(s[0]).insert(x));
        let u = insert_by_value(s, x);
        assert forall|i: int, j: int| 0 <= i < j < u.len() implies (#[trigger] u[i]).value <= (#[trigger] u[j]).value by {
            if i > 0 {
                assert(u[i] == t[i - 1] && u[j] == t[j - 1]);
            } else {
                assert(u[j] == t[j - 1]);
            }
        }
        if (forall|i: int| 0 <= i < s.len() ==> lb <= (#[trigger] s[i]).value) && lb <= x.value {
            assert forall|k: int| 0 <= k < u.len() implies lb <= (#[trigger] u[k]).value by {
                if k > 0 {
                    assert(u[k] == t[k - 1]);
                    assert(forall|i: int| 0 <= i < rest.len() ==> #[trigger] rest[i] == s[i + 1]);
                }
            }
        }
    }
}

/// Sorting by value gives the same values, in increasing order of value.
pub proof fn law_sort_by_value(s: Seq<TimestampedValue>)
    ensures
        sorted_by_value(sort_by_value(s)),
        sort_by_value(s).to_multiset() == s.to_multiset(),
    decreases s.len(),
{
    broadcast use vstd::seq_lib::group_to_multiset_ensures;
    if s.len() > 0 {
        law_sort_by_value(s.drop_last());
        lemma_insert_by_value_props(sort_by_value(s.drop_last()), s.last(), 0);
        assert(s =~= s.drop_last().push(s.last()));
    } else {
        assert(s.to_multiset() =~= sort_by_value(s).to_multiset());
    }
}

/// When enough values are still valid, the combined value is one of them, the
/// one at the middle position of the valid values in increasing order of value.
pub proof fn law_combined_value_is_fresh_median(
    values: Seq<TimestampedValue>,
    prev_value: Option<TimestampedValue>,
    minimum_count: u32,
    expires_in: Moment,
    now: Moment,
)
    requires
        fresh_values(values, expires_in, now).len() >= minimum_count,
        fresh_values(values, expires_in, now).len() > 0,
    ensures
        ({
            let fresh = fresh_values(values, expires_in, now);
            let sorted = sort_by_value(fresh);
            &&& combined_value(values, prev_value, minimum_count, expires_in, now) == Some(sorted[(fresh.len() / 2) as int])
            &&& sorted_by_value(sorted)
            &&& sorted.to_multiset() == fresh.to_multiset()
            &&& fresh.contains(sorted[(fresh.len() / 2) as int])
            &&& is_fresh(sorted[(fresh.len() / 2) as int], expires_in, now)
        }),
{
    broadcast use vstd::seq_lib::group_to_multiset_ensures;
    let fresh = fresh_values(values, expires_in, now);
    let sorted = sort_by_value(fresh);
    law_sort_by_value(fresh);
    lemma_sort_by_value_len(fresh);
    let x = sorted[(fresh.len() / 2) as int];
    assert(sorted.contains(x));
    assert(sorted.to_multiset().count(x) > 0);
    assert(fresh.to_multiset().count(x) > 0);
    assert(fresh.contains(x));
    let k = choose|k: int| 0 <= k < fresh.len() && fresh[k] == x;
    values.lemma_filter_pred(fresh_at(expires_in, now), k);
}

/// A filtered sequence holds each element that passes the test as often as the
/// sequence does, and no other.
pub proof fn lemma_filter_count(s: Seq<TimestampedValue>, p: spec_fn(TimestampedValue) -> bool, x: TimestampedValue)
    ensures
        s.filter(p).to_multiset().count(x) == if p(x) { s.to_multiset().count(x) } else { 0 },
    decreases s.len(),
{
    broadcast use vstd::seq_lib::group_to_multiset_ensures;
    broadcast use vstd::multiset::group_multiset_axioms;
    reveal_with_fuel(Seq::filter, 1);
    if s.len() == 0 {
        assert(s.filter(p).len() == 0);
        assert(s.filter(p).to_multiset().len() == 0);
        assert(s.to_multiset().len() == 0);
    } else {
        let t = s.drop_last();
        lemma_filter_count(t, p, x);
        assert(s =~= t.push(s.last()));
    }
}

/// Sequences that are permutations of each other stay so once filtered.
pub proof fn lemma_filter_permutation(s1: Seq<TimestampedValue>, s2: Seq<TimestampedValue>, p: spec_fn(TimestampedValue) -> bool)
    requires
        s1.to_multiset() == s2.to_multiset(),
    ensures
        s1.filter(p).to_multiset() == s2.filter(p).to_multiset(),
{
    assert forall|x: TimestampedValue| #[trigger] s1.filter(p).to_multiset().count(x) == s2.filter(p).to_multiset().count(x) by {
        lemma_filter_count(s1, p, x);
        lemma_filter_count(s2, p, x);
    }
    assert(s1.filter(p).to_multiset() =~= s2.filter(p).to_multiset());
}

/// The values of the elements of `s`, in order.
pub open spec fn values_of(s: Seq<TimestampedValue>) -> Seq<Price> {
    s.map_values(|x: TimestampedValue| x.value)
}

/// Sequences that are permutations of each other have values that are
/// permutations of each other.
pub proof fn lemma_values_permutation(s1: Seq<TimestampedValue>, s2: Seq<TimestampedValue>)
    requires
        s1.to_multiset() == s2.to_multiset(),
    ensures
        values_of(s1).to_multiset() == values_of(s2).to_multiset(),
    decreases s1.len(),
{
    broadcast use vstd::seq_lib::group_to_multiset_ensures;
    broadcast use vstd::multiset::group_multiset_axioms;
    if s1.len() == 0 {
        assert(s1.to_multiset().len() == 0);
        assert(s2.to_multiset().len() == s2.len());
        assert(values_of(s1) =~= values_of(s2));
    } else {
        let a = s1.last();
        let t1 = s1.drop_last();
        assert(s1 =~= t1.push(a));
        assert(s1.to_multiset().count(a) > 0);
        assert(s2.to_multiset().contains(a));
        let i = choose|i: int| 0 <= i < s2.len() && s2[i] == a;
        let t2 = s2.remove(i);
        assert(t1.to_multiset() =~= s1.to_multiset().remove(a));
        assert(t2.to_multiset() == s2.to_multiset().remove(a));
        lemma_values_permutation(t1, t2);
        assert(values_of(s1) =~= values_of(t1).push(a.value));
        assert(values_of(t2) =~= values_of(s2).remove(i));
        assert(values_of(s2)[i] == a.value);
        assert(values_of(t2).to_multiset() == values_of(s2).to_multiset().remove(a.value));
        assert(values_of(s2).to_multiset().count(a.value) > 0);
        assert(values_of(s1).to_multiset() =~= values_of(s2).to_multiset());
    }
}

/// The value of a combined value, if any.
pub open spec fn value_of(x: Option<TimestampedValue>) -> Option<Price> {
    match x {
        Some(v) => Some(v.value),
        None => None,
    }
}

/// The order in which the values are reported does not change the combined
/// value's value: permuting the reported values gives a value of the same size
/// (only which of equal values is taken, and so its timestamp, may differ).
pub proof fn law_combined_value_ignores_order(
    values1: Seq<TimestampedValue>,
    values2: Seq<TimestampedValue>,
    prev_value: Option<TimestampedValue>,
    minimum_count: u32,
    expires_in: Moment,
    now: Moment,
)
    requires
        values1.to_multiset() == values2.to_multiset(),
    ensures
        value_of(combined_value(values1, prev_value, minimum_count, expires_in, now))
            == value_of(combined_value(values2, prev_value, minimum_count, expires_in, now)),
{
    broadcast use vstd::seq_lib::group_to_multiset_ensures;
    let p = fresh_at(expires_in, now);
    let f1 = fresh_values(values1, expires_in, now);
    let f2 = fresh_values(values2, expires_in, now);
    lemma_filter_permutation(values1, values2, p);
    assert(f1.len() == f2.len()) by {
        assert(f1.to_multiset().len() == f2.to_multiset().len());
    }
    if f1.len() >= minimum_count {
        let o1 = sort_by_value(f1);
        let o2 = sort_by_value(f2);
        law_sort_by_value(f1);
        law_sort_by_value(f2);
        lemma_sort_by_value_len(f1);
        lemma_sort_by_value_len(f2);
        lemma_values_permutation(o1, o2);
        let leq = |a: Price, b: Price| a <= b;
        assert(sorted_by(values_of(o1), leq)) by {
            assert forall|i: int, j: int| 0 <= i < j < values_of(o1).len() implies #[trigger] leq(values_of(o1)[i], values_of(o1)[j]) by {
                assert(o1[i].value <= o1[j].value);
            }
        }
        assert(sorted_by(values_of(o2), leq)) by {
            assert forall|i: int, j: int| 0 <= i < j < values_of(o2).len() implies #[trigger] leq(values_of(o2)[i], values_of(o2)[j]) by {
                assert(o2[i].value <= o2[j].value);
            }
        }
        assert(total_ordering(leq));
        vstd::seq_lib::lemma_sorted_unique(values_of(o1), values_of(o2), leq);
        let k = (f1.len() / 2) as int;
        if f1.len() > 0 {
            assert(values_of(o1)[k] == values_of(o2)[k]);
            assert(values_of(o1)[k] == o1[k].value);
            assert(values_of(o2)[k] == o2[k].value);
        } else {
            assert(f1 =~= f2);
        }
    }
}

/// The values of `values` that are still valid at `now`, in their order.
pub fn retain_fresh(values: &Vec<TimestampedValue>, expires_in: Moment, now: Moment) -> (res: Vec<TimestampedValue>)
    requires
        no_expiry_overflow(values@, expires_in),
    ensures
        res@ == fresh_values(values@, expires_in, now),
{
    let mut res: Vec<TimestampedValue> = Vec::new();
    let ghost pred = fresh_at(expires_in, now);
    let n = values.len();
    let mut i: usize = 0;
    while i < n
        invariant
            n == values.len(),
            i <= n,
            no_expiry_overflow(values@, expires_in),
            pred == fresh_at(expires_in, now),
            res@ == values@.take(i as int).filter(pred),
        decreases n - i,
    {
        let x = values[i];
        let keep = x.timestamp + expires_in > now;
        proof {
            reveal_with_fuel(Seq::filter, 1);
            assert(values@.take(i + 1).drop_last() =~= values@.take(i as int));
            assert(values@.take(i + 1).last() == x);
            assert(pred(x) == keep);
        }
        if keep {
            res.push(x);
        }
        i = i + 1;
    }
    assert(values@.take(n as int) =~= values@);
    res
}

/// `values` sorted by value, stably.
pub fn sort_values(values: &Vec<TimestampedValue>) -> (res: Vec<TimestampedValue>)
    ensures
        res@ == sort_by_value(values@),
        res.len() == values.len(),
{
    let mut sorted: Vec<TimestampedValue> = Vec::new();
    let n = values.len();
    let mut i: usize = 0;
    while i < n
        invariant
            n == values.len(),
            i <= n,
            sorted@ == sort_by_value(values@.take(i as int)),
            sorted.len() == i,
        decreases n - i,
    {
        let x = values[i];
        let mut p: usize = 0;
        while p < sorted.len() && sorted[p].value <= x.value
            invariant
                p <= sorted.len(),
                forall|j: int| 0 <= j < p ==> sorted@[j].value <= x.value,
            decreases sorted.len() - p,
        {
            p = p + 1;
        }
        proof {
            lemma_insert_by_value_at(sorted@, x, p as int);
            assert(values@.take(i + 1).drop_last() =~= values@.take(i as int));
            assert(values@.take(i + 1).last() == x);
        }
        sorted.insert(p, x);
        i = i + 1;
    }
    assert(values@.take(n as int) =~= values@);
    sorted
}

/// Combines the reported values: sorts them by value and gives the median
/// timestamped value; gives `prev_value` if not enough valid values are left.
#[derive(Clone, Copy, Debug, PartialEq, Eq)]
pub struct DefaultCombineData {
    /// Least number of valid values that a median is taken of.
    pub minimum_count: u32,
    /// How long a reported value stays valid.
    pub expires_in: Moment,
}

impl DefaultCombineData {
    /// The median of the values that are still valid at `now`, or `prev_value`
    /// when fewer than `minimum_count` of them are.
    pub fn combine_data(
        &self,
        _key: &OracleKey,
        values: Vec<TimestampedValue>,
        prev_value: Option<TimestampedValue>,
        now: Moment,
    ) -> (res: Option<TimestampedValue>)
        requires
            no_expiry_overflow(values@, self.expires_in),
            self.minimum_count > 0 || fresh_values(values@, self.expires_in, now).len() > 0,
        ensures
            res == combined_value(values@, prev_value, self.minimum_count, self.expires_in, now),
    {
        let fresh = retain_fresh(&values, self.expires_in, now);
        let count = fresh.len();
        if count < self.minimum_count as usize {
            return prev_value;
        }
        let sorted = sort_values(&fresh);
        let median_index = count / 2;
        Some(sorted[median_index])
    }
}

} // verus!
