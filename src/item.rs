use crate::calendar::{
    count_before, lemma_count_before, lemma_walk_price_nonneg, priced, pruned, prune_from,
    slice_end, sorted, starts_at, walk_available, walk_price, with_entry, within, unit_price,
    AvailabilityInterval,
};
use crate::decimal::Decimal;
use crate::error::BookingError;
use crate::reservation::{is_cancelled, Reservation, ReservationNFT, ReservationStatus};
use crate::vault::Bucket;
use vstd::prelude::*;

verus! {

/// A reservation holds its slot unless it was cancelled or has ended before `now`.
pub open spec fn live(r: Reservation, now: int) -> bool {
    !is_cancelled(r.status) && r.end_time >= now
}

pub open spec fn overlaps(r: Reservation, start: int, end: int) -> bool {
    r.start_time < end && start < r.end_time
}

/// The last moment at which a customer may cancel a booking that starts at
/// `start`: `forewarning` seconds before it, or the earliest representable time.
pub open spec fn max_cancellation(start: int, forewarning: int) -> int {
    if start - forewarning < i64::MIN {
        i64::MIN as int
    } else {
        start - forewarning
    }
}

/// No two reservations that were not cancelled share a moment.
pub open spec fn exclusive(res: Seq<Reservation>) -> bool {
    forall|i: int, j: int|
        0 <= i < res.len() && 0 <= j < res.len() && i != j && !is_cancelled(
            #[trigger] res[i].status,
        ) && !is_cancelled(#[trigger] res[j].status) ==> res[i].end_time <= res[j].start_time
            || res[j].end_time <= res[i].start_time
}

#[derive(Clone, Copy, Debug, PartialEq, Eq, Structural)]
pub struct NewItemEvent {
    pub item_id: u64,
    pub owner_id: u64,
    pub minimum_reservation_period: i64,
    pub coin: u64,
    pub min_cancellation_forewarning: i64,
}

/// A calendar entry was inserted.
#[derive(Clone, Copy, Debug, PartialEq, Eq)]
pub struct NewAvailabilityIntervalEvent {
    pub item_id: u64,
    pub start_time: i64,
    pub available: bool,
    pub price_per_minimum_reservation_period: Option<Decimal>,
}

/// An existing calendar entry was modified.
#[derive(Clone, Copy, Debug, PartialEq, Eq)]
pub struct UpdateAvailabilityIntervalEvent {
    pub item_id: u64,
    pub start_time: i64,
    pub available: bool,
    pub price_per_minimum_reservation_period: Option<Decimal>,
}

/// A rentable resource: its calendar and every reservation ever made of it.
pub struct Item {
    pub id: u64,
    pub owner_id: u64,
    pub minimum_reservation_period: i64,
    pub coin: u64,
    pub availability_intervals: Vec<AvailabilityInterval>,
    pub reservations: Vec<Reservation>,
    pub min_cancellation_forewarning: i64,
}

/// The number of entries of a sorted calendar that start before `t`, by binary search.
pub fn entries_before(cal: &Vec<AvailabilityInterval>, t: i128) -> (r: usize)
    requires
        sorted(cal@),
    ensures
        r == count_before(cal@, t as int),
{
    proof {
        lemma_count_before(cal@, t as int);
    }
    let mut lo: usize = 0;
    let mut hi: usize = cal.len();
    while lo < hi
        invariant
            sorted(cal@),
            0 <= lo <= hi <= cal@.len(),
            forall|i: int| 0 <= i < lo ==> (cal@[i].start_time as int) < t,
            forall|i: int| hi <= i < cal@.len() ==> (cal@[i].start_time as int) >= t,
        decreases hi - lo,
    {
        let mid = lo + (hi - lo) / 2;
        if (cal[mid].start_time as i128) < t {
            proof {
                assert forall|i: int| 0 <= i <= mid implies (cal@[i].start_time as int) < t by {
                    if i < mid {
                        assert(cal@[i].start_time < cal@[mid as int].start_time);
                    }
                }
            }
            lo = mid + 1;
        } else {
            proof {
                assert forall|i: int| mid <= i < cal@.len() implies (cal@[i].start_time as int)
                    >= t by {
                    if i > mid {
                        assert(cal@[mid as int].start_time < cal@[i].start_time);
                    }
                }
            }
            hi = mid;
        }
    }
    let ghost c = count_before(cal@, t as int);
    proof {
        if (lo as int) < c {
            assert((cal@[lo as int].start_time as int) < t);
        }
        if (lo as int) > c {
            assert((cal@[c].start_time as int) < t);
        }
    }
    lo
}

/// Putting an entry in place of the one with the same start keeps the order.
pub proof fn lemma_set_entry_sorted(p: Seq<AvailabilityInterval>, j: int, e: AvailabilityInterval)
    requires
        sorted(p),
        priced(p),
        0 <= j < p.len(),
        p[j].start_time == e.start_time,
        e.available ==> match e.price_per_minimum_reservation_period {
            Some(x) => x@ > 0,
            None => false,
        },
    ensures
        sorted(p.update(j, e)),
        priced(p.update(j, e)),
{
    let q = p.update(j, e);
    assert forall|a: int, b: int| 0 <= a < b < q.len() implies q[a].start_time < q[b].start_time by {
        assert(p[a].start_time < p[b].start_time);
    }
}

/// Inserting an entry where its start belongs keeps the order.
pub proof fn lemma_insert_entry_sorted(p: Seq<AvailabilityInterval>, j: int, e: AvailabilityInterval)
    requires
        sorted(p),
        priced(p),
        j == count_before(p, e.start_time as int),
        !(j < p.len() && p[j].start_time == e.start_time),
        e.available ==> match e.price_per_minimum_reservation_period {
            Some(x) => x@ > 0,
            None => false,
        },
    ensures
        sorted(p.insert(j, e)),
        priced(p.insert(j, e)),
{
    lemma_count_before(p, e.start_time as int);
    let q = p.insert(j, e);
    let t = e.start_time;
    assert forall|a: int, b: int| 0 <= a < b < q.len() implies q[a].start_time < q[b].start_time by {
        if a < j && b < j {
            assert(p[a].start_time < p[b].start_time);
        } else if a < j && b == j {
            assert(p[a].start_time < t);
        } else if a < j {
            assert(p[a].start_time < t);
            assert(p[b - 1].start_time >= t);
        } else if a == j {
            assert(p[b - 1].start_time >= t);
            assert(p[j].start_time != t);
            assert(p[j].start_time == p[b - 1].start_time || p[j].start_time < p[b - 1].start_time);
        } else {
            assert(p[a - 1].start_time < p[b - 1].start_time);
        }
    }
    assert forall|a: int| 0 <= a < q.len() && #[trigger] q[a].available implies match q[a].price_per_minimum_reservation_period {
        Some(x) => x@ > 0,
        None => false,
    } by {
        if a < j {
            assert(q[a] == p[a]);
        } else if a > j {
            assert(q[a] == p[a - 1]);
        }
    }
}

impl Item {
    pub open spec fn wf(&self) -> bool {
        &&& self.minimum_reservation_period > 0
        &&& self.min_cancellation_forewarning >= 0
        &&& sorted(self.availability_intervals@)
        &&& priced(self.availability_intervals@)
        &&& forall|i: int|
            0 <= i < self.reservations@.len() ==> {
                let r = #[trigger] self.reservations@[i];
                &&& r.wf()
                &&& r.item_id == self.id
                &&& r.vault.currency == self.coin
                &&& (r.end_time - r.start_time) % (self.minimum_reservation_period as int) == 0
            }
        &&& exclusive(self.reservations@)
    }

    /// A new item with an empty calendar; the period must be positive and the
    /// forewarning non-negative.
    pub fn new(
        id: u64,
        owner_id: u64,
        minimum_reservation_period: i64,
        coin: u64,
        min_cancellation_forewarning: i64,
    ) -> (r: Result<Item, BookingError>)
        ensures
            r.is_ok() <==> minimum_reservation_period > 0 && min_cancellation_forewarning >= 0,
            r.is_err() ==> r == Err::<Item, BookingError>(BookingError::BadArgument),
            r matches Ok(item) ==> {
                &&& item.wf()
                &&& item.id == id
                &&& item.owner_id == owner_id
                &&& item.minimum_reservation_period == minimum_reservation_period
                &&& item.coin == coin
                &&& item.min_cancellation_forewarning == min_cancellation_forewarning
                &&& item.availability_intervals@.len() == 0
                &&& item.reservations@.len() == 0
            },
    {
        if minimum_reservation_period <= 0 || min_cancellation_forewarning < 0 {
            return Err(BookingError::BadArgument);
        }
        Ok(
            Item {
                id,
                owner_id,
                minimum_reservation_period,
                coin,
                availability_intervals: Vec::new(),
                reservations: Vec::new(),
                min_cancellation_forewarning,
            },
        )
    }

    /// Drops the calendar entries that ended before `now`, then sets the entry
    /// at `start_time`. An available entry needs a positive price. The result
    /// tells whether the entry is new rather than a modified one.
    pub fn add_or_modify_availability_interval(
        &mut self,
        start_time: i64,
        available: bool,
        price_per_minimum_reservation_period: Option<Decimal>,
        now: i64,
    ) -> (r: Result<bool, BookingError>)
        requires
            old(self).wf(),
        ensures
            final(self).wf(),
            r.is_err() <==> available && match price_per_minimum_reservation_period {
                Some(p) => p@ <= 0,
                None => true,
            },
            r.is_err() ==> r == Err::<bool, BookingError>(BookingError::BadArgument) && *final(self)
                == *old(self),
            r matches Ok(inserted) ==> inserted == !starts_at(
                pruned(old(self).availability_intervals@, now as int),
                start_time as int,
            ),
            r.is_ok() ==> {
                &&& *final(self) == (Item {
                    availability_intervals: final(self).availability_intervals,
                    ..*old(self)
                })
                &&& final(self).availability_intervals@ == with_entry(
                    pruned(old(self).availability_intervals@, now as int),
                    AvailabilityInterval { start_time, available, price_per_minimum_reservation_period },
                )
            },
    {
        if available {
            match price_per_minimum_reservation_period {
                Some(p) => {
                    if !p.is_positive() {
                        return Err(BookingError::BadArgument);
                    }
                },
                None => {
                    return Err(BookingError::BadArgument);
                },
            }
        }
        let ghost cal = self.availability_intervals@;
        let c = entries_before(&self.availability_intervals, now as i128 + 1);
        let from: usize = if c >= 1 {
            c - 1
        } else {
            0
        };
        proof {
            lemma_count_before(cal, now as int + 1);
        }
        let mut kept: Vec<AvailabilityInterval> = Vec::new();
        let mut i: usize = from;
        let n = self.availability_intervals.len();
        while i < n
            invariant
                self.availability_intervals@ == cal,
                n == cal.len(),
                from <= i <= n,
                kept@ == cal.subrange(from as int, i as int),
            decreases n - i,
        {
            kept.push(self.availability_intervals[i]);
            i = i + 1;
            proof {
                assert(kept@ =~= cal.subrange(from as int, i as int));
            }
        }
        let ghost p = kept@;
        assert(p == pruned(cal, now as int));
        assert(sorted(p) && priced(p));
        let entry = AvailabilityInterval { start_time, available, price_per_minimum_reservation_period };
        let j = entries_before(&kept, start_time as i128);
        proof {
            lemma_count_before(p, start_time as int);
        }
        let inserted = if j < kept.len() && kept[j].start_time == start_time {
            kept.set(j, entry);
            proof {
                lemma_set_entry_sorted(p, j as int, entry);
            }
            false
        } else {
            kept.insert(j, entry);
            proof {
                lemma_insert_entry_sorted(p, j as int, entry);
                if starts_at(p, start_time as int) {
                    let w = choose|w: int| 0 <= w < p.len() && #[trigger] p[w].start_time == start_time;
                    if w < j {
                        assert(p[w].start_time < start_time);
                    }
                    if w > j {
                        assert(p[j as int].start_time < p[w].start_time);
                    }
                }
            }
            true
        };
        self.availability_intervals = kept;
        Ok(inserted)
    }
    /// The calendar entry in which `start` lies, or `-1` if it lies before
    /// every entry.
    pub open spec fn containing_entry(&self, start: int) -> int {
        count_before(self.availability_intervals@, start + 1) - 1
    }

    /// Some reservation still holding its slot at `now` overlaps `[start, end)`.
    pub open spec fn conflicts(&self, start: int, end: int, now: int) -> bool {
        exists|i: int|
            0 <= i < self.reservations@.len() && live(#[trigger] self.reservations@[i], now)
                && overlaps(self.reservations@[i], start, end)
    }

    /// What booking `[start, end)` at `now`, paying from `bucket`, comes to:
    /// the total price, or the first reason for refusal.
    pub open spec fn admission(&self, start: int, end: int, now: int, bucket: Bucket) -> Result<
        int,
        BookingError,
    > {
        let cal = self.availability_intervals@;
        let period = self.minimum_reservation_period as int;
        let k = self.containing_entry(start);
        let total = walk_price(cal, k, start, end, period);
        if start <= now {
            Err(BookingError::BadArgument)
        } else if end < start + period || (end - start) % period != 0 {
            Err(BookingError::BadArgument)
        } else if bucket.currency != self.coin {
            Err(BookingError::WrongCurrency)
        } else if k < 0 {
            Err(BookingError::NoAvailability)
        } else if (start - cal[k].start_time) % period != 0 {
            Err(BookingError::Misaligned)
        } else if !walk_available(cal, k, start, end) {
            Err(BookingError::Unavailable)
        } else if total > i128::MAX {
            Err(BookingError::Overflow)
        } else if self.conflicts(start, end, now) {
            Err(BookingError::Conflict)
        } else if bucket.amount@ < total {
            Err(BookingError::InsufficientFunds)
        } else {
            Ok(total)
        }
    }

    /// Books `[start_time, end_time)` under reservation `id`, taking the price
    /// from `bucket`, and returns the customer's credential. The price is the
    /// sum over the calendar entries crossed of each one's price times the
    /// whole periods of the booking within it.
    pub fn new_reservation(
        &mut self,
        id: u64,
        customer_id: u64,
        start_time: i64,
        end_time: i64,
        bucket: &mut Bucket,
        now: i64,
    ) -> (r: Result<ReservationNFT, BookingError>)
        requires
            old(self).wf(),
            forall|i: int| 0 <= i < old(self).reservations@.len() ==> #[trigger] old(self).reservations@[i].id < id,
        ensures
            final(self).wf(),
            match old(self).admission(start_time as int, end_time as int, now as int, *old(bucket)) {
                Err(e) => r == Err::<ReservationNFT, BookingError>(e) && *final(self) == *old(self)
                    && *final(bucket) == *old(bucket),
                Ok(total) => r is Ok && final(bucket).currency == old(bucket).currency
                    && final(bucket).amount@ == old(bucket).amount@ - total
                    && final(self).reservations@.len() == old(self).reservations@.len() + 1
                    && final(self).reservations@.drop_last() == old(self).reservations@
                    && *final(self) == (Item { reservations: final(self).reservations, ..*old(self) })
                    && {
                        let nr = final(self).reservations@.last();
                        &&& nr.id == id
                        &&& nr.customer_id == customer_id
                        &&& nr.start_time == start_time
                        &&& nr.end_time == end_time
                        &&& nr.status == ReservationStatus::Booked
                        &&& nr.vault.amount@ == total
                        &&& nr.deposited@ == total
                        &&& nr.withdrawn@ == 0
                        &&& nr.max_cancellation_time == max_cancellation(
                            start_time as int,
                            old(self).min_cancellation_forewarning as int,
                        )
                        &&& r == Ok::<ReservationNFT, BookingError>(
                            ReservationNFT {
                                id,
                                item_id: old(self).id,
                                start_time,
                                end_time,
                                status: ReservationStatus::Booked,
                                max_cancellation_time: nr.max_cancellation_time,
                            },
                        )
                    },
            },
    {
        let ghost cal = self.availability_intervals@;
        let ghost pre = *self;
        let ghost pre_bucket = *bucket;
        let period = self.minimum_reservation_period;
        if start_time <= now {
            return Err(BookingError::BadArgument);
        }
        let length = end_time as i128 - start_time as i128;
        if length < period as i128 || length % (period as i128) != 0 {
            return Err(BookingError::BadArgument);
        }
        if bucket.currency != self.coin {
            return Err(BookingError::WrongCurrency);
        }
        let c = entries_before(&self.availability_intervals, start_time as i128 + 1);
        proof {
            lemma_count_before(cal, start_time as int + 1);
        }
        if c == 0 {
            return Err(BookingError::NoAvailability);
        }
        let k = c - 1;
        if (start_time as i128 - self.availability_intervals[k].start_time as i128) % (period as i128)
            != 0 {
            return Err(BookingError::Misaligned);
        }
        let n = self.availability_intervals.len();
        // every entry crossed must be available
        let mut i: usize = k;
        let mut from: i64 = start_time;
        while from < end_time
            invariant
                *self == pre,
                *bucket == pre_bucket,
                pre == *old(self),
                pre_bucket == *old(bucket),
                pre.wf(),
                period == pre.minimum_reservation_period,
                start_time > now,
                end_time as int >= start_time + period,
                (end_time - start_time) % (period as int) == 0,
                pre_bucket.currency == pre.coin,
                k as int == pre.containing_entry(start_time as int),
                k < cal.len(),
                (start_time - cal[k as int].start_time) % (period as int) == 0,
                self.availability_intervals@ == cal,
                sorted(cal),
                n == cal.len(),
                from < end_time ==> within(cal, i as int, from as int),
                start_time <= from <= end_time,
                walk_available(cal, k as int, start_time as int, end_time as int)
                    == walk_available(cal, i as int, from as int, end_time as int),
            decreases cal.len() - i, end_time - from,
        {
            if !self.availability_intervals[i].available {
                assert(!walk_available(cal, i as int, from as int, end_time as int));
                return Err(BookingError::Unavailable);
            }
            let to = if i + 1 < n && self.availability_intervals[i + 1].start_time < end_time {
                self.availability_intervals[i + 1].start_time
            } else {
                end_time
            };
            assert(to == slice_end(cal, i as int, end_time as int));
            from = to;
            i = i + 1;
        }
        proof {
            assert(walk_available(cal, k as int, start_time as int, end_time as int));
            lemma_walk_price_nonneg(cal, k as int, start_time as int, end_time as int, period as int);
        }
        let ghost total_spec = walk_price(cal, k as int, start_time as int, end_time as int, period as int);
        // the price, entry by entry
        let mut total: i128 = 0;
        let mut i: usize = k;
        let mut from: i64 = start_time;
        while from < end_time
            invariant
                *self == pre,
                *bucket == pre_bucket,
                pre == *old(self),
                pre_bucket == *old(bucket),
                pre.wf(),
                period == pre.minimum_reservation_period,
                start_time > now,
                end_time as int >= start_time + period,
                (end_time - start_time) % (period as int) == 0,
                pre_bucket.currency == pre.coin,
                k as int == pre.containing_entry(start_time as int),
                k < cal.len(),
                (start_time - cal[k as int].start_time) % (period as int) == 0,
                self.availability_intervals@ == cal,
                sorted(cal),
                priced(cal),
                period > 0,
                period == pre.minimum_reservation_period,
                n == cal.len(),
                from < end_time ==> within(cal, i as int, from as int),
                start_time <= from <= end_time,
                walk_available(cal, i as int, from as int, end_time as int),
                0 <= total,
                walk_available(cal, k as int, start_time as int, end_time as int),
                total_spec == walk_price(cal, k as int, start_time as int, end_time as int, period as int),
                total + walk_price(cal, i as int, from as int, end_time as int, period as int)
                    == total_spec,
            decreases cal.len() - i, end_time - from,
        {
            let to = if i + 1 < n && self.availability_intervals[i + 1].start_time < end_time {
                self.availability_intervals[i + 1].start_time
            } else {
                end_time
            };
            assert(to == slice_end(cal, i as int, end_time as int));
            let price = match self.availability_intervals[i].price_per_minimum_reservation_period {
                Some(p) => p.attos,
                None => 0,
            };
            assert(price == unit_price(cal[i as int]));
            let slots = (to as i128 - from as i128) / (period as i128);
            proof {
                if to < end_time {
                    lemma_walk_price_nonneg(cal, i as int + 1, to as int, end_time as int, period as int);
                } else {
                    assert(walk_price(cal, i as int + 1, to as int, end_time as int, period as int) == 0);
                }
                assert(slots >= 0) by (nonlinear_arith)
                    requires slots == (to - from) / (period as int), to >= from, period > 0;
                assert(price * slots >= 0) by (nonlinear_arith)
                    requires price > 0, slots >= 0;
            }
            let term = match price.checked_mul(slots) {
                Some(t) => t,
                None => {
                    return Err(BookingError::Overflow);
                },
            };
            total = match total.checked_add(term) {
                Some(t) => t,
                None => {
                    return Err(BookingError::Overflow);
                },
            };
            from = to;
            i = i + 1;
        }
        assert(total == total_spec);
        // no live reservation may overlap
        let m = self.reservations.len();
        let mut j: usize = 0;
        while j < m
            invariant
                m == self.reservations@.len(),
                pre.availability_intervals@ == cal,
                *self == pre,
                *bucket == pre_bucket,
                pre == *old(self),
                pre_bucket == *old(bucket),
                pre.wf(),
                period == pre.minimum_reservation_period,
                start_time > now,
                end_time as int >= start_time + period,
                (end_time - start_time) % (period as int) == 0,
                pre_bucket.currency == pre.coin,
                k as int == pre.containing_entry(start_time as int),
                k < cal.len(),
                (start_time - cal[k as int].start_time) % (period as int) == 0,
                0 <= j <= m,
                walk_available(cal, k as int, start_time as int, end_time as int),
                total == walk_price(cal, k as int, start_time as int, end_time as int, period as int),
                total <= i128::MAX,
                forall|a: int| 0 <= a < j ==> !(live(#[trigger] self.reservations@[a], now as int)
                    && overlaps(self.reservations@[a], start_time as int, end_time as int)),
            decreases m - j,
        {
            let existing = &self.reservations[j];
            let cancelled = existing.status == ReservationStatus::CustomerCancelled
                || existing.status == ReservationStatus::OwnerCancelled;
            if !cancelled && existing.end_time >= now && existing.start_time < end_time
                && start_time < existing.end_time {
                assert(live(pre.reservations@[j as int], now as int) && overlaps(
                    pre.reservations@[j as int],
                    start_time as int,
                    end_time as int,
                ));
                return Err(BookingError::Conflict);
            }
            j = j + 1;
        }
        let payment = match bucket.take(Decimal::from_attos(total)) {
            Ok(b) => b,
            Err(e) => {
                return Err(e);
            },
        };
        let forewarning = self.min_cancellation_forewarning;
        let max_cancellation_time = if (start_time as i128) - (forewarning as i128) < i64::MIN as i128 {
            i64::MIN
        } else {
            start_time - forewarning
        };
        let (reservation, nft) = Reservation::new(
            id,
            self.id,
            customer_id,
            start_time,
            end_time,
            payment,
            max_cancellation_time,
        );
        self.reservations.push(reservation);
        proof {
            let res = self.reservations@;
            assert(res.drop_last() =~= pre.reservations@);
            assert forall|a: int| 0 <= a < res.len() implies {
                let r = #[trigger] res[a];
                &&& r.wf()
                &&& r.item_id == self.id
                &&& r.vault.currency == self.coin
                &&& (r.end_time - r.start_time) % (self.minimum_reservation_period as int) == 0
            } by {
                if a < res.len() - 1 {
                    assert(res[a] == pre.reservations@[a]);
                }
            }
            assert(exclusive(res)) by {
                assert forall|a: int, b: int|
                    0 <= a < res.len() && 0 <= b < res.len() && a != b && !is_cancelled(
                        #[trigger] res[a].status,
                    ) && !is_cancelled(#[trigger] res[b].status) implies res[a].end_time
                    <= res[b].start_time || res[b].end_time <= res[a].start_time by {
                    let last = res.len() - 1;
                    if a < last && b < last {
                        assert(res[a] == pre.reservations@[a]);
                        assert(res[b] == pre.reservations@[b]);
                    } else if a == last {
                        assert(res[b] == pre.reservations@[b]);
                        assert(!(live(pre.reservations@[b], now as int) && overlaps(
                            pre.reservations@[b],
                            start_time as int,
                            end_time as int,
                        )));
                    } else {
                        assert(res[a] == pre.reservations@[a]);
                        assert(!(live(pre.reservations@[a], now as int) && overlaps(
                            pre.reservations@[a],
                            start_time as int,
                            end_time as int,
                        )));
                    }
                }
            }
        }
        Ok(nft)
    }
}

} // verus!

verus! {

impl Item {
    /// The position of reservation `id` in this item, if it has one.
    pub fn get_reservation(&self, id: u64) -> (r: Option<usize>)
        ensures
            r matches Some(i) ==> i < self.reservations@.len() && self.reservations@[i as int].id
                == id,
            r is None ==> forall|i: int|
                0 <= i < self.reservations@.len() ==> #[trigger] self.reservations@[i].id != id,
    {
        let n = self.reservations.len();
        let mut i: usize = 0;
        while i < n
            invariant
                n == self.reservations@.len(),
                0 <= i <= n,
                forall|j: int| 0 <= j < i ==> #[trigger] self.reservations@[j].id != id,
            decreases n - i,
        {
            if self.reservations[i].id == id {
                return Some(i);
            }
            i = i + 1;
        }
        None
    }
}

/// Replacing one reservation of a well-formed item by a well-formed one for the
/// same booking keeps the item well formed, as long as a cancelled reservation
/// stays cancelled.
pub proof fn lemma_replace_reservation(before: Item, after: Item, i: int)
    requires
        before.wf(),
        0 <= i < before.reservations@.len(),
        after == (Item { reservations: after.reservations, ..before }),
        after.reservations@ == before.reservations@.update(i, after.reservations@[i]),
        after.reservations@[i].wf(),
        after.reservations@[i].same_booking(&before.reservations@[i]),
        is_cancelled(before.reservations@[i].status) ==> is_cancelled(
            after.reservations@[i].status,
        ),
    ensures
        after.wf(),
{
    let a = after.reservations@;
    let b = before.reservations@;
    assert forall|j: int| 0 <= j < a.len() implies {
        let r = #[trigger] a[j];
        &&& r.wf()
        &&& r.item_id == after.id
        &&& r.vault.currency == after.coin
        &&& (r.end_time - r.start_time) % (after.minimum_reservation_period as int) == 0
    } by {
        assert(b[j].wf());
    }
    assert forall|x: int, y: int|
        0 <= x < a.len() && 0 <= y < a.len() && x != y && !is_cancelled(#[trigger] a[x].status)
            && !is_cancelled(#[trigger] a[y].status) implies a[x].end_time <= a[y].start_time
        || a[y].end_time <= a[x].start_time by {
        assert(!is_cancelled(b[x].status) && !is_cancelled(b[y].status));
    }
}

} // verus!

verus! {

/// Exclusivity: two different reservations of a well-formed item that both
/// still hold their slot at `now` do not overlap.
pub proof fn lemma_exclusivity(item: Item, i: int, j: int, now: int)
    requires
        item.wf(),
        0 <= i < item.reservations@.len(),
        0 <= j < item.reservations@.len(),
        i != j,
        live(item.reservations@[i], now),
        live(item.reservations@[j], now),
    ensures
        item.reservations@[i].end_time <= item.reservations@[j].start_time
            || item.reservations@[j].end_time <= item.reservations@[i].start_time,
{
}

/// Alignment: an admitted booking lasts a whole number of periods and starts
/// a whole number of periods after the start of the calendar entry it lies in;
/// every reservation of a well-formed item lasts a whole number of periods.
pub proof fn lemma_alignment(item: Item, start: int, end: int, now: int, bucket: Bucket)
    requires
        item.wf(),
        item.admission(start, end, now, bucket) is Ok,
    ensures
        end - start >= item.minimum_reservation_period,
        (end - start) % (item.minimum_reservation_period as int) == 0,
        0 <= item.containing_entry(start) < item.availability_intervals@.len(),
        item.availability_intervals@[item.containing_entry(start)].start_time <= start,
        (start - item.availability_intervals@[item.containing_entry(start)].start_time) % (
        item.minimum_reservation_period as int) == 0,
        forall|i: int|
            0 <= i < item.reservations@.len() ==> (#[trigger] item.reservations@[i].end_time
                - item.reservations@[i].start_time) % (item.minimum_reservation_period as int)
                == 0,
{
    lemma_count_before(item.availability_intervals@, start + 1);
}

} // verus!
