//! The mathematical model of the price store and of its query.
//!
//! A store is a `Map<i32, i32>` from timestamp to price. What a query returns is
//! defined over that map by [`range_mean`]: the sum and the count run over every
//! timestamp of the range, one by one, so the definition does not depend on how
//! a store lays its entries out. The proof functions of this module state what
//! follows from the definitions.

use crate::wire::Frame;
use vstd::prelude::*;

verus! {
/// Whether the store `m` has a price at the timestamp `t`.
pub open spec fn has_price(m: Map<i32, i32>, t: int) -> bool {
    i32::MIN <= t <= i32::MAX && m.contains_key(t as i32)
}

/// The price that `m` has at `t`, counted as 0 where it has none.
pub open spec fn price_at(m: Map<i32, i32>, t: int) -> int {
    if has_price(m, t) {
        m[t as i32] as int
    } else {
        0
    }
}

/// The store that a sequence of inserts, each a timestamp and a price, builds
/// from nothing.
pub open spec fn store_of(writes: Seq<(i32, i32)>) -> Map<i32, i32>
    decreases writes.len(),
{
    if writes.len() == 0 {
        Map::empty()
    } else {
        store_of(writes.drop_last()).insert(writes.last().0, writes.last().1)
    }
}

/// The store after `frame` has been applied: an insert writes its price at its
/// timestamp, replacing what was there; a query changes nothing.
pub open spec fn store_after(m: Map<i32, i32>, frame: Frame) -> Map<i32, i32> {
    match frame {
        Frame::Insert { timestamp, price } => m.insert(timestamp, price),
        Frame::Query { .. } => m,
    }
}

/// What the store `m` answers to `frame`: nothing to an insert, the range mean to
/// a query.
pub open spec fn answer_to(m: Map<i32, i32>, frame: Frame) -> Option<i32> {
    match frame {
        Frame::Insert { .. } => None,
        Frame::Query { min_time, max_time } => Some(
            range_mean(m, min_time as int, max_time as int) as i32,
        ),
    }
}

/// The sum of the prices that `m` has at the timestamps `lo..=hi`.
pub open spec fn range_sum(m: Map<i32, i32>, lo: int, hi: int) -> int
    decreases hi - lo + 1,
{
    if hi < lo {
        0
    } else {
        range_sum(m, lo, hi - 1) + price_at(m, hi)
    }
}

/// The number of timestamps in `lo..=hi` at which `m` has a price.
pub open spec fn range_count(m: Map<i32, i32>, lo: int, hi: int) -> nat
    decreases hi - lo + 1,
{
    if hi < lo {
        0
    } else if has_price(m, hi) {
        range_count(m, lo, hi - 1) + 1
    } else {
        range_count(m, lo, hi - 1)
    }
}

/// The quotient of `a` by a positive `b`, rounded toward zero.
pub open spec fn quotient_toward_zero(a: int, b: int) -> int
    recommends
        b > 0,
{
    if a >= 0 {
        a / b
    } else {
        -((-a) / b)
    }
}

/// The answer to a query over `lo..=hi`: the mean of the prices found there,
/// rounded toward zero, and 0 where no price is found. An inverted range
/// (`lo > hi`) holds no timestamp, so its answer is 0.
pub open spec fn range_mean(m: Map<i32, i32>, lo: int, hi: int) -> int {
    if range_count(m, lo, hi) == 0 {
        0
    } else {
        quotient_toward_zero(range_sum(m, lo, hi), range_count(m, lo, hi) as int)
    }
}

/// The entries of `m` with a timestamp in `lo..=hi`, by ascending timestamp.
pub open spec fn entries_between(m: Map<i32, i32>, lo: int, hi: int) -> Seq<(i32, i32)>
    decreases hi - lo + 1,
{
    if hi < lo {
        Seq::empty()
    } else if has_price(m, hi) {
        entries_between(m, lo, hi - 1).push((hi as i32, m[hi as i32]))
    } else {
        entries_between(m, lo, hi - 1)
    }
}

/// The sum of the prices of a sequence of entries.
pub open spec fn price_total(entries: Seq<(i32, i32)>) -> int
    decreases entries.len(),
{
    if entries.len() == 0 {
        0
    } else {
        price_total(entries.drop_last()) + entries.last().1
    }
}

/// A range that holds no timestamp has sum 0 and count 0.
pub proof fn lemma_inverted_range(m: Map<i32, i32>, lo: int, hi: int)
    requires
        lo > hi,
    ensures
        range_sum(m, lo, hi) == 0,
        range_count(m, lo, hi) == 0,
        range_mean(m, lo, hi) == 0,
        entries_between(m, lo, hi) == Seq::<(i32, i32)>::empty(),
{
}

/// A range can be cut in two at any timestamp: the sums and the counts of the
/// two parts add up.
pub proof fn lemma_range_split(m: Map<i32, i32>, lo: int, mid: int, hi: int)
    requires
        lo - 1 <= mid <= hi,
    ensures
        range_sum(m, lo, hi) == range_sum(m, lo, mid) + range_sum(m, mid + 1, hi),
        range_count(m, lo, hi) == range_count(m, lo, mid) + range_count(m, mid + 1, hi),
    decreases hi - mid,
{
    if mid < hi {
        lemma_range_split(m, lo, mid, hi - 1);
    }
}

/// Two stores that agree at every timestamp of a range give it the same sum,
/// count and mean: what lies outside the range has no part in the answer.
pub proof fn lemma_range_agrees(m1: Map<i32, i32>, m2: Map<i32, i32>, lo: int, hi: int)
    requires
        forall|t: int|
            lo <= t <= hi ==> has_price(m1, t) == has_price(m2, t) && price_at(m1, t) == price_at(
                m2,
                t,
            ),
    ensures
        range_sum(m1, lo, hi) == range_sum(m2, lo, hi),
        range_count(m1, lo, hi) == range_count(m2, lo, hi),
        range_mean(m1, lo, hi) == range_mean(m2, lo, hi),
    decreases hi - lo + 1,
{
    if hi >= lo {
        lemma_range_agrees(m1, m2, lo, hi - 1);
    }
}

/// A range in which the store has no price has sum, count and mean 0.
pub proof fn lemma_range_without_prices(m: Map<i32, i32>, lo: int, hi: int)
    requires
        forall|t: int| lo <= t <= hi ==> !has_price(m, t),
    ensures
        range_sum(m, lo, hi) == 0,
        range_count(m, lo, hi) == 0,
        range_mean(m, lo, hi) == 0,
    decreases hi - lo + 1,
{
    if hi >= lo {
        lemma_range_without_prices(m, lo, hi - 1);
    }
}

/// The count of a range is 0 exactly when the store has no price in it.
pub proof fn lemma_range_count_zero(m: Map<i32, i32>, lo: int, hi: int)
    ensures
        range_count(m, lo, hi) == 0 <==> forall|t: int| lo <= t <= hi ==> !has_price(m, t),
    decreases hi - lo + 1,
{
    if hi >= lo {
        lemma_range_count_zero(m, lo, hi - 1);
        if range_count(m, lo, hi) == 0 {
            assert forall|t: int| lo <= t <= hi implies !has_price(m, t) by {
                if t < hi {
                    assert(lo <= t <= hi - 1);
                }
            }
        }
    }
}

/// Where a range holds a price at one timestamp only, the mean is that price.
pub proof fn lemma_lone_price(m: Map<i32, i32>, t: int, lo: int, hi: int)
    requires
        lo <= t <= hi,
        has_price(m, t),
        forall|u: int| lo <= u <= hi && u != t ==> !has_price(m, u),
    ensures
        range_count(m, lo, hi) == 1,
        range_sum(m, lo, hi) == price_at(m, t),
        range_mean(m, lo, hi) == price_at(m, t),
{
    lemma_range_split(m, lo, t, hi);
    lemma_range_without_prices(m, lo, t - 1);
    lemma_range_without_prices(m, t + 1, hi);
    assert(range_count(m, lo, hi) == 1);
    assert(quotient_toward_zero(price_at(m, t), 1) == price_at(m, t));
}

/// A range holds at most as many prices as timestamps, and its sum lies between
/// the count times the least price and the count times the greatest.
pub proof fn lemma_range_bounds(m: Map<i32, i32>, lo: int, hi: int)
    ensures
        lo <= hi ==> range_count(m, lo, hi) <= hi - lo + 1,
        range_count(m, lo, hi) * i32::MIN <= range_sum(m, lo, hi) <= range_count(m, lo, hi)
            * i32::MAX,
    decreases hi - lo + 1,
{
    if hi >= lo {
        lemma_range_bounds(m, lo, hi - 1);
    }
}

/// Where `a` lies between `b` times `low` and `b` times `high`, with `low <= 0 <=
/// high`, the quotient of `a` by `b` rounded toward zero lies between `low` and
/// `high`.
pub proof fn lemma_quotient_bounds(a: int, b: int, low: int, high: int)
    requires
        b > 0,
        low <= 0 <= high,
        b * low <= a <= b * high,
    ensures
        low <= quotient_toward_zero(a, b) <= high,
{
    if a >= 0 {
        assert(a / b <= high) by (nonlinear_arith)
            requires
                b > 0,
                0 <= a <= b * high,
        ;
        assert(a / b >= 0) by (nonlinear_arith)
            requires
                b > 0,
                0 <= a,
        ;
    } else {
        let c = -a;
        let top = -low;
        assert(b * top == -(b * low)) by (nonlinear_arith)
            requires
                top == -low,
        ;
        assert(c / b <= top) by (nonlinear_arith)
            requires
                b > 0,
                0 <= c <= b * top,
        ;
        assert(c / b >= 0) by (nonlinear_arith)
            requires
                b > 0,
                0 <= c,
        ;
    }
}

/// The mean of 32-bit prices is a 32-bit number: no answer is ever cut to fit.
pub proof fn lemma_range_mean_fits(m: Map<i32, i32>, lo: int, hi: int)
    ensures
        i32::MIN <= range_mean(m, lo, hi) <= i32::MAX,
{
    let n = range_count(m, lo, hi) as int;
    let s = range_sum(m, lo, hi);
    lemma_range_bounds(m, lo, hi);
    if n > 0 {
        lemma_quotient_bounds(s, n, i32::MIN as int, i32::MAX as int);
    }
}

/// Adding one entry at the end of a sequence adds its price to the total.
pub proof fn lemma_price_total_push(entries: Seq<(i32, i32)>, entry: (i32, i32))
    ensures
        price_total(entries.push(entry)) == price_total(entries) + entry.1,
{
    assert(entries.push(entry).drop_last() =~= entries);
}

/// The entries of a range carry its count and its sum.
pub proof fn lemma_entries_between(m: Map<i32, i32>, lo: int, hi: int)
    ensures
        entries_between(m, lo, hi).len() == range_count(m, lo, hi),
        price_total(entries_between(m, lo, hi)) == range_sum(m, lo, hi),
    decreases hi - lo + 1,
{
    if hi >= lo {
        lemma_entries_between(m, lo, hi - 1);
        if has_price(m, hi) {
            lemma_price_total_push(entries_between(m, lo, hi - 1), (hi as i32, m[hi as i32]));
        }
    }
}

/// The entries of a range, described item by item: their timestamps ascend
/// strictly, each is an entry of the store within the range, and no entry of
/// the store within the range is missing.
pub proof fn lemma_entries_between_exact(m: Map<i32, i32>, lo: int, hi: int)
    ensures
        forall|i: int, j: int|
            0 <= i < j < entries_between(m, lo, hi).len() ==> (#[trigger] entries_between(
                m,
                lo,
                hi,
            )[i]).0 < (#[trigger] entries_between(m, lo, hi)[j]).0,
        forall|i: int|
            0 <= i < entries_between(m, lo, hi).len() ==> {
                let entry = #[trigger] entries_between(m, lo, hi)[i];
                lo <= entry.0 <= hi && m.contains_key(entry.0) && m[entry.0] == entry.1
            },
        forall|t: i32|
            lo <= t <= hi && #[trigger] m.contains_key(t) ==> entries_between(m, lo, hi).contains(
                (t, m[t]),
            ),
    decreases hi - lo + 1,
{
    if hi >= lo {
        lemma_entries_between_exact(m, lo, hi - 1);
        let before = entries_between(m, lo, hi - 1);
        let all = entries_between(m, lo, hi);
        assert forall|t: i32| lo <= t <= hi && #[trigger] m.contains_key(t) implies all.contains(
            (t, m[t]),
        ) by {
            if t < hi {
                assert(before.contains((t, m[t])));
                let i = choose|i: int| 0 <= i < before.len() && before[i] == (t, m[t]);
                assert(all[i] == (t, m[t]));
            } else {
                assert(has_price(m, hi));
                assert(all[all.len() - 1] == (t, m[t]));
            }
        }
    }
}

/// Last write wins: after two inserts at one timestamp the store is as if only
/// the second had been made, and a query over a range that holds no other
/// timestamp of the store answers the second price.
pub proof fn lemma_overwrite(
    m: Map<i32, i32>,
    timestamp: i32,
    first: i32,
    second: i32,
    lo: int,
    hi: int,
)
    requires
        lo <= timestamp <= hi,
        forall|u: int| lo <= u <= hi && u != timestamp ==> !has_price(m, u),
    ensures
        m.insert(timestamp, first).insert(timestamp, second) == m.insert(timestamp, second),
        range_mean(m.insert(timestamp, first).insert(timestamp, second), lo, hi) == second,
{
    let twice = m.insert(timestamp, first).insert(timestamp, second);
    assert(twice =~= m.insert(timestamp, second));
    assert(has_price(twice, timestamp as int));
    assert forall|u: int| lo <= u <= hi && u != timestamp implies !has_price(twice, u) by {
        assert(!has_price(m, u));
    }
    lemma_lone_price(twice, timestamp as int, lo, hi);
}

/// A query changes nothing, so the same query asked again at once gets the same
/// answer.
pub proof fn lemma_query_repeats(m: Map<i32, i32>, min_time: i32, max_time: i32)
    ensures
        store_after(m, Frame::Query { min_time, max_time }) == m,
        answer_to(store_after(m, Frame::Query { min_time, max_time }), Frame::Query {
            min_time,
            max_time,
        }) == answer_to(m, Frame::Query { min_time, max_time }),
{
}

/// What a sequence of inserts leaves in the store: a price at exactly the
/// timestamps that were inserted, so never more entries than inserts; and at
/// each of them the price of the last insert there.
pub proof fn lemma_store_of(writes: Seq<(i32, i32)>)
    ensures
        store_of(writes).dom().finite(),
        store_of(writes).len() <= writes.len(),
        forall|t: i32|
            store_of(writes).contains_key(t) <==> exists|i: int|
                0 <= i < writes.len() && (#[trigger] writes[i]).0 == t,
        forall|i: int|
            0 <= i < writes.len() && (forall|j: int|
                i < j < writes.len() ==> (#[trigger] writes[j]).0 != writes[i].0)
                ==> store_of(writes).contains_key((#[trigger] writes[i]).0) && store_of(
                writes,
            )[writes[i].0] == writes[i].1,
    decreases writes.len(),
{
    if writes.len() > 0 {
        let before = writes.drop_last();
        let last = writes.last();
        lemma_store_of(before);
        let m = store_of(writes);
        assert(m == store_of(before).insert(last.0, last.1));
        assert forall|t: i32| m.contains_key(t) implies exists|i: int|
            0 <= i < writes.len() && (#[trigger] writes[i]).0 == t by {
            if t == last.0 {
                assert(writes[writes.len() - 1].0 == t);
            } else {
                assert(store_of(before).contains_key(t));
                let i = choose|i: int| 0 <= i < before.len() && (#[trigger] before[i]).0 == t;
                assert(writes[i].0 == t);
            }
        }
        assert forall|t: i32|
            (exists|i: int|
                0 <= i < writes.len() && (#[trigger] writes[i]).0 == t) implies m.contains_key(
            t,
        ) by {
            let i = choose|i: int| 0 <= i < writes.len() && (#[trigger] writes[i]).0 == t;
            if i < before.len() {
                assert(before[i].0 == t);
            }
        }
        assert forall|i: int|
            0 <= i < writes.len() && (forall|j: int|
                i < j < writes.len() ==> (#[trigger] writes[j]).0 != writes[i].0) implies m.contains_key(
            (#[trigger] writes[i]).0,
        ) && m[writes[i].0] == writes[i].1 by {
            if i < before.len() {
                assert(writes[writes.len() - 1].0 != writes[i].0);
                assert(before[i] == writes[i]);
                assert forall|j: int| i < j < before.len() implies (#[trigger] before[j]).0
                    != before[i].0 by {
                    assert(writes[j].0 != writes[i].0);
                }
            }
        }
        if store_of(before).contains_key(last.0) {
            assert(m.dom() =~= store_of(before).dom());
        } else {
            assert(m.dom() =~= store_of(before).dom().insert(last.0));
        }
    }
}

/// After any sequence of inserts, a query over `min_time..=max_time` is answered
/// with 0 where no insert fell in the range, and otherwise with the sum of the
/// prices that the store has in the range divided by their number, rounded
/// toward zero. The answer fits in 32 bits.
pub proof fn lemma_query_after_inserts(writes: Seq<(i32, i32)>, min_time: i32, max_time: i32)
    ensures
        ({
            let m = store_of(writes);
            let sum = range_sum(m, min_time as int, max_time as int);
            let count = range_count(m, min_time as int, max_time as int);
            let hit = exists|i: int|
                0 <= i < writes.len() && min_time <= (#[trigger] writes[i]).0 <= max_time;
            &&& hit <==> count > 0
            &&& answer_to(m, Frame::Query { min_time, max_time }) == Some(
                if hit {
                    quotient_toward_zero(sum, count as int) as i32
                } else {
                    0i32
                },
            )
            &&& hit ==> i32::MIN <= quotient_toward_zero(sum, count as int) <= i32::MAX
        }),
{
    let m = store_of(writes);
    let lo = min_time as int;
    let hi = max_time as int;
    lemma_store_of(writes);
    lemma_range_count_zero(m, lo, hi);
    lemma_range_mean_fits(m, lo, hi);
    let hit = exists|i: int|
        0 <= i < writes.len() && min_time <= (#[trigger] writes[i]).0 <= max_time;
    if hit {
        let i = choose|i: int|
            0 <= i < writes.len() && min_time <= (#[trigger] writes[i]).0 <= max_time;
        assert(m.contains_key(writes[i].0));
        assert(has_price(m, writes[i].0 as int));
    }
    if range_count(m, lo, hi) > 0 {
        let t = choose|t: int| lo <= t <= hi && has_price(m, t);
        assert(m.contains_key(t as i32));
        let i = choose|i: int| 0 <= i < writes.len() && (#[trigger] writes[i]).0 == t as i32;
        assert(min_time <= writes[i].0 <= max_time);
    }
}

} // verus!
