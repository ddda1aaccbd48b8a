use crate::decimal::Decimal;
use vstd::prelude::*;

verus! {

/// A calendar entry: from `start_time` until the next entry's start, the item
/// is available or not, at the given price per minimum reservation period.
#[derive(Clone, Copy, Debug)]
pub struct AvailabilityInterval {
    pub start_time: i64,
    pub available: bool,
    pub price_per_minimum_reservation_period: Option<Decimal>,
}

/// Entries are ordered by strictly increasing start time.
pub open spec fn sorted(cal: Seq<AvailabilityInterval>) -> bool {
    forall|i: int, j: int| 0 <= i < j < cal.len() ==> cal[i].start_time < cal[j].start_time
}

/// An available entry carries a positive price.
pub open spec fn priced(cal: Seq<AvailabilityInterval>) -> bool {
    forall|i: int|
        0 <= i < cal.len() && #[trigger] cal[i].available ==> match cal[i].price_per_minimum_reservation_period {
            Some(p) => p@ > 0,
            None => false,
        }
}

/// How many entries start before `t`.
pub open spec fn count_before(cal: Seq<AvailabilityInterval>, t: int) -> int
    decreases cal.len(),
{
    if cal.len() == 0 {
        0
    } else {
        count_before(cal.drop_last(), t) + if cal.last().start_time < t {
            1int
        } else {
            0int
        }
    }
}

/// In a sorted calendar the entries that start before `t` are a prefix.
pub proof fn lemma_count_before(cal: Seq<AvailabilityInterval>, t: int)
    requires
        sorted(cal),
    ensures
        0 <= count_before(cal, t) <= cal.len(),
        forall|i: int|
            0 <= i < cal.len() ==> (i < count_before(cal, t) <==> #[trigger] cal[i].start_time < t),
    decreases cal.len(),
{
    if cal.len() > 0 {
        let d = cal.drop_last();
        assert(sorted(d));
        lemma_count_before(d, t);
        assert(forall|i: int| 0 <= i < d.len() ==> d[i] == cal[i]);
        assert(cal.last() == cal[cal.len() - 1]);
    }
}

/// The index of the entry from which a calendar is kept at time `now`: the
/// last entry that starts at or before `now`, or the first entry if none does.
pub open spec fn prune_from(cal: Seq<AvailabilityInterval>, now: int) -> int {
    let c = count_before(cal, now + 1);
    if c >= 1 {
        c - 1
    } else {
        0
    }
}

/// The calendar without the entries that ended before `now`.
pub open spec fn pruned(cal: Seq<AvailabilityInterval>, now: int) -> Seq<AvailabilityInterval> {
    cal.subrange(prune_from(cal, now), cal.len() as int)
}

/// `cal` with `e` put in its place: replacing the entry with the same start
/// time, or inserted so that the order is kept.
pub open spec fn with_entry(cal: Seq<AvailabilityInterval>, e: AvailabilityInterval) -> Seq<
    AvailabilityInterval,
> {
    let j = count_before(cal, e.start_time as int);
    if j < cal.len() && cal[j].start_time == e.start_time {
        cal.update(j, e)
    } else {
        cal.insert(j, e)
    }
}

/// Some entry of `cal` starts at `t`.
pub open spec fn starts_at(cal: Seq<AvailabilityInterval>, t: int) -> bool {
    exists|i: int| 0 <= i < cal.len() && #[trigger] cal[i].start_time == t
}

/// The price of an entry, zero where it has none.
pub open spec fn unit_price(e: AvailabilityInterval) -> int {
    match e.price_per_minimum_reservation_period {
        Some(p) => p@,
        None => 0,
    }
}

/// Where the slice of a reservation ending at `end` that lies in entry `i` ends.
pub open spec fn slice_end(cal: Seq<AvailabilityInterval>, i: int, end: int) -> int {
    if i + 1 < cal.len() && cal[i + 1].start_time < end {
        cal[i + 1].start_time as int
    } else {
        end
    }
}

/// Every entry that `[from, end)` crosses, starting with entry `i`, is available.
pub open spec fn walk_available(cal: Seq<AvailabilityInterval>, i: int, from: int, end: int) -> bool
    decreases cal.len() - i,
{
    if from >= end || i < 0 || i >= cal.len() {
        true
    } else {
        cal[i].available && walk_available(cal, i + 1, slice_end(cal, i, end), end)
    }
}

/// The price of `[from, end)` starting in entry `i`: for each entry crossed,
/// its price times the number of whole periods of the slice within it.
pub open spec fn walk_price(cal: Seq<AvailabilityInterval>, i: int, from: int, end: int, period: int) -> int
    decreases cal.len() - i,
{
    if from >= end || i < 0 || i >= cal.len() {
        0
    } else {
        unit_price(cal[i]) * ((slice_end(cal, i, end) - from) / period) + walk_price(
            cal,
            i + 1,
            slice_end(cal, i, end),
            end,
            period,
        )
    }
}

/// `from` lies in entry `i`.
pub open spec fn within(cal: Seq<AvailabilityInterval>, i: int, from: int) -> bool {
    &&& 0 <= i < cal.len()
    &&& cal[i].start_time <= from
    &&& i + 1 < cal.len() ==> from < cal[i + 1].start_time
}

pub proof fn lemma_walk_price_nonneg(
    cal: Seq<AvailabilityInterval>,
    i: int,
    from: int,
    end: int,
    period: int,
)
    requires
        sorted(cal),
        priced(cal),
        period > 0,
        within(cal, i, from),
        walk_available(cal, i, from, end),
    ensures
        walk_price(cal, i, from, end, period) >= 0,
    decreases cal.len() - i,
{
    if from < end {
        let to = slice_end(cal, i, end);
        assert(to >= from);
        assert(unit_price(cal[i]) > 0);
        assert((to - from) / period >= 0) by (nonlinear_arith)
            requires to >= from, period > 0;
        assert(unit_price(cal[i]) * ((to - from) / period) >= 0) by (nonlinear_arith)
            requires unit_price(cal[i]) > 0, (to - from) / period >= 0;
        if to < end {
            lemma_walk_price_nonneg(cal, i + 1, to, end, period);
        } else {
            assert(walk_price(cal, i + 1, to, end, period) == 0);
        }
    }
}

} // verus!
