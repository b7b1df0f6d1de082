//! The price ledger: an ordered store from timestamp to price, with the
//! range-mean query.
//!
//! The ledger keeps its entries in a `BTreeMap`, so a query visits only the
//! entries of its range. Its contracts are stated over the model of
//! [`crate::model`].

use crate::model::{
    answer_to, entries_between, lemma_entries_between, lemma_price_total_push,
    lemma_range_bounds, lemma_range_mean_fits, price_total, range_mean, store_after,
};
use crate::wire::Frame;
use std::collections::btree_map::Range;
use std::collections::BTreeMap;
use vstd::prelude::*;

verus! {

/// The iterator that `BTreeMap::range` returns, declared so that it can be held
/// and passed on. Nothing inside it is visible here.
#[verifier::external_type_specification]
#[verifier::external_body]
#[verifier::reject_recursive_types(K)]
#[verifier::reject_recursive_types(V)]
pub struct ExRange<'a, K, V>(Range<'a, K, V>);

/// The entries that a range iterator has yet to yield, in the order in which it
/// will yield them.
pub uninterp spec fn entries_left(range: Range<i32, i32>) -> Seq<(i32, i32)>;

/// `BTreeMap::range` over the inclusive bounds `lo..=hi`.
///
/// Believed of the standard library without proof: the iterator returned will
/// yield the entries of the map whose key lies within the bounds, each once, by
/// ascending key. `range` panics where the start is greater than the end, so
/// the bounds must be in order.
#[verifier::external_body]
fn range_of<'a>(map: &'a BTreeMap<i32, i32>, lo: i32, hi: i32) -> (range: Range<'a, i32, i32>)
    requires
        lo <= hi,
    ensures
        entries_left(range) == entries_between(map@, lo as int, hi as int),
{
    map.range(lo..=hi)
}

/// `Iterator::next` on a range iterator, with the entry copied out of the map.
///
/// Believed of the standard library without proof: the iterator yields the
/// first of the entries it has left and keeps the others, in their order; with
/// none left it yields `None`.
#[verifier::external_body]
fn next_entry(range: &mut Range<i32, i32>) -> (entry: Option<(i32, i32)>)
    ensures
        entries_left(*old(range)).len() == 0 ==> entry is None && entries_left(*final(range))
            == entries_left(*old(range)),
        entries_left(*old(range)).len() > 0 ==> entry == Some(entries_left(*old(range)).first())
            && entries_left(*final(range)) == entries_left(*old(range)).drop_first(),
{
    match range.next() {
        Some((timestamp, price)) => Some((*timestamp, *price)),
        None => None,
    }
}

/// A store of prices by timestamp. Each timestamp has at most one price; a
/// later insert at the same timestamp replaces the earlier one.
pub struct PriceLedger {
    entries: BTreeMap<i32, i32>,
}

impl View for PriceLedger {
    type V = Map<i32, i32>;

    closed spec fn view(&self) -> Map<i32, i32> {
        self.entries@
    }
}

impl PriceLedger {
    /// An empty ledger.
    pub fn new() -> (ledger: Self)
        ensures
            ledger@ == Map::<i32, i32>::empty(),
    {
        PriceLedger { entries: BTreeMap::new() }
    }

    /// The number of timestamps that have a price.
    pub fn len(&self) -> (n: usize)
        ensures
            self@.dom().finite(),
            n == self@.len(),
    {
        self.entries.len()
    }

    /// The price at `timestamp`, if there is one.
    pub fn get(&self, timestamp: i32) -> (price: Option<i32>)
        ensures
            price == (if self@.contains_key(timestamp) {
                Some(self@[timestamp])
            } else {
                None
            }),
    {
        match self.entries.get(&timestamp) {
            Some(price) => Some(*price),
            None => None,
        }
    }

    /// Records `price` at `timestamp`. Any two numbers are accepted; a price
    /// already at that timestamp is replaced.
    pub fn insert(&mut self, timestamp: i32, price: i32)
        ensures
            final(self)@ == old(self)@.insert(timestamp, price),
    {
        self.entries.insert(timestamp, price);
    }

    /// The mean of the prices at the timestamps `min_time..=max_time`, rounded
    /// toward zero; 0 where the range is inverted or holds no price.
    ///
    /// The sum is kept in 64 bits, which no range of 32-bit prices at distinct
    /// 32-bit timestamps can overflow.
    pub fn mean(&self, min_time: i32, max_time: i32) -> (mean: i32)
        ensures
            mean == range_mean(self@, min_time as int, max_time as int),
            min_time > max_time ==> mean == 0,
    {
        if min_time > max_time {
            return 0;
        }
        let mut range = range_of(&self.entries, min_time, max_time);
        let ghost found = entries_left(range);
        proof {
            lemma_entries_between(self@, min_time as int, max_time as int);
            lemma_range_bounds(self@, min_time as int, max_time as int);
            lemma_range_mean_fits(self@, min_time as int, max_time as int);
        }
        let mut sum: i64 = 0;
        let mut count: i64 = 0;
        loop
            invariant
                found.len() <= 0x1_0000_0000,
                0 <= count <= found.len(),
                entries_left(range) == found.skip(count as int),
                sum == price_total(found.take(count as int)),
                count * i32::MIN <= sum <= count * i32::MAX,
            ensures
                count == found.len(),
                sum == price_total(found),
            decreases found.len() - count,
        {
            match next_entry(&mut range) {
                Some(entry) => {
                    proof {
                        assert(entry == found[count as int]);
                        assert(found.skip(count as int).drop_first() =~= found.skip(count + 1));
                        assert(found.take(count + 1) =~= found.take(count as int).push(entry));
                        lemma_price_total_push(found.take(count as int), entry);
                    }
                    sum = sum + entry.1 as i64;
                    count = count + 1;
                },
                None => {
                    assert(found.take(count as int) =~= found);
                    break ;
                },
            }
        }
        if count == 0 {
            return 0;
        }
        let quotient: i64 = sum / count;
        quotient as i32
    }

    /// Applies one request: an insert changes the store and has no answer, a
    /// query leaves the store as it is and is answered with the range mean.
    pub fn apply(&mut self, frame: Frame) -> (answer: Option<i32>)
        ensures
            final(self)@ == store_after(old(self)@, frame),
            answer == answer_to(old(self)@, frame),
    {
        match frame {
            Frame::Insert { timestamp, price } => {
                self.insert(timestamp, price);
                None
            },
            Frame::Query { min_time, max_time } => {
                proof {
                    lemma_range_mean_fits(self@, min_time as int, max_time as int);
                }
                Some(self.mean(min_time, max_time))
            },
        }
    }
}

} // verus!
