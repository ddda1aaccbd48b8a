use crate::decimal::{quorum_refund, refund_share, Decimal, SCALE};
use crate::error::BookingError;
use crate::vault::{Bucket, Vault};
use vstd::prelude::*;

verus! {

#[derive(Clone, Copy, Debug, PartialEq, Eq, Structural)]
pub enum ReservationStatus {
    Booked,
    CustomerCancelled,
    OwnerCancelled,
    Disputing,
    DisputeTerminated,
    Completed,
}

#[derive(Clone, Copy, Debug, PartialEq, Eq, Structural)]
pub struct NewReservationEvent {
    pub reservation_id: u64,
    pub item_id: u64,
    pub customer_id: u64,
    pub start_time: i64,
    pub end_time: i64,
}

#[derive(Clone, Copy, Debug, PartialEq, Eq, Structural)]
pub struct ReservationCustomerCancellationEvent {
    pub reservation_id: u64,
}

#[derive(Clone, Copy, Debug, PartialEq, Eq, Structural)]
pub struct ReservationOwnerCancellationEvent {
    pub reservation_id: u64,
}

#[derive(Clone, Copy, Debug, PartialEq, Eq, Structural)]
pub struct ReservationRefundEvent {
    pub reservation_id: u64,
    pub old_status: ReservationStatus,
    pub new_status: ReservationStatus,
    pub refund_amount: Decimal,
}

#[derive(Clone, Copy, Debug, PartialEq, Eq, Structural)]
pub struct ReservationDisputeEvent {
    pub reservation_id: u64,
}

#[derive(Clone, Copy, Debug, PartialEq, Eq, Structural)]
pub struct ReservationRefundOfferEvent {
    pub reservation_id: u64,
    pub refund_amount: Decimal,
}

#[derive(Clone, Copy, Debug, PartialEq, Eq, Structural)]
pub struct ReservationGetPaymentEvent {
    pub reservation_id: u64,
    pub old_status: ReservationStatus,
    pub new_status: ReservationStatus,
    pub payment_amount: Decimal,
}

#[derive(Clone, Copy, Debug, PartialEq, Eq, Structural)]
pub struct DisputeVoteEvent {
    pub reservation_id: u64,
    pub arbitrator_id: u64,
    pub number_of_voters: usize,
    pub min_arbitrators: u16,
    pub dispute_votes_sum: Decimal,
}

#[derive(Clone, Copy, Debug, PartialEq, Eq, Structural)]
pub struct DisputeVoteTerminatedEvent {
    pub reservation_id: u64,
    pub refund_amount: Decimal,
    pub to_owner: Decimal,
}

/// The most votes a dispute can hold: a quorum never exceeds `u16::MAX`.
pub const MAX_VOTES: usize = 65536;

/// Sum of the percentages in a list of `(arbitrator id, percentage)` votes.
pub open spec fn votes_total(votes: Seq<(u64, Decimal)>) -> int
    decreases votes.len(),
{
    if votes.len() == 0 {
        0
    } else {
        votes_total(votes.drop_last()) + votes.last().1@
    }
}

/// No arbitrator appears twice in `votes`.
pub open spec fn votes_distinct(votes: Seq<(u64, Decimal)>) -> bool {
    forall|i: int, j: int|
        0 <= i < votes.len() && 0 <= j < votes.len() && i != j ==> votes[i].0 != votes[j].0
}

/// Every vote is a percentage between 0 and 100.
pub open spec fn votes_in_range(votes: Seq<(u64, Decimal)>) -> bool {
    forall|i: int| 0 <= i < votes.len() ==> 0 <= #[trigger] votes[i].1@ <= 100 * SCALE
}

pub proof fn lemma_votes_total_update(votes: Seq<(u64, Decimal)>, k: int, v: (u64, Decimal))
    requires
        0 <= k < votes.len(),
    ensures
        votes_total(votes.update(k, v)) == votes_total(votes) - votes[k].1@ + v.1@,
    decreases votes.len(),
{
    let u = votes.update(k, v);
    if k == votes.len() - 1 {
        assert(u.drop_last() =~= votes.drop_last());
    } else {
        assert(u.drop_last() =~= votes.drop_last().update(k, v));
        lemma_votes_total_update(votes.drop_last(), k, v);
    }
}

pub proof fn lemma_votes_total_bounds(votes: Seq<(u64, Decimal)>)
    requires
        votes_in_range(votes),
    ensures
        0 <= votes_total(votes) <= votes.len() * (100 * SCALE),
    decreases votes.len(),
{
    if votes.len() > 0 {
        let d = votes.drop_last();
        assert(votes_in_range(d)) by {
            assert forall|i: int| 0 <= i < d.len() implies 0 <= #[trigger] d[i].1@ <= 100 * SCALE by {
                assert(d[i] == votes[i]);
            }
        }
        lemma_votes_total_bounds(d);
        let x = votes[votes.len() - 1].1@;
        assert(votes.last() == votes[votes.len() - 1]);
        let n = votes.len();
        assert((n - 1) * (100 * SCALE) + x <= n * (100 * SCALE)) by (nonlinear_arith)
            requires x <= 100 * SCALE, n >= 1;
    }
}

/// One booking of `[start_time, end_time)` with its payment in escrow.
pub struct Reservation {
    pub id: u64,
    pub item_id: u64,
    pub customer_id: u64,
    pub start_time: i64,
    pub end_time: i64,
    pub max_cancellation_time: i64,
    pub vault: Vault,
    pub status: ReservationStatus,
    pub refund_amount: Decimal,
    pub to_owner: Decimal,
    pub dispute_votes: Vec<(u64, Decimal)>,
    pub dispute_votes_sum: Decimal,
    /// What was escrowed when the reservation was made.
    pub deposited: Ghost<int>,
    /// Everything handed out of the vault since.
    pub withdrawn: Ghost<int>,
}

/// The credential a customer holds for a reservation.
#[derive(Clone, Copy, Debug, PartialEq, Eq, Structural)]
pub struct ReservationNFT {
    pub id: u64,
    pub item_id: u64,
    pub start_time: i64,
    pub end_time: i64,
    pub status: ReservationStatus,
    pub max_cancellation_time: i64,
}

/// States in which the vault is split between a refund and a payment.
pub open spec fn is_split_state(s: ReservationStatus) -> bool {
    s == ReservationStatus::Booked || s == ReservationStatus::Disputing || s
        == ReservationStatus::DisputeTerminated
}

/// Customer-cancelled and owner-cancelled reservations no longer hold their slot.
pub open spec fn is_cancelled(s: ReservationStatus) -> bool {
    s == ReservationStatus::CustomerCancelled || s == ReservationStatus::OwnerCancelled
}

/// What `Reservation::cancellation_by_customer` does: `pre` and `post` are the reservation
/// before and after the call, `r` its result.
pub open spec fn cancellation_by_customer_post(
    pre: Reservation,
    post: Reservation,
    r: Result<Bucket,
    BookingError>,
) -> bool {
    &&& post.same_booking(&pre)
    &&& pre.status == ReservationStatus::Booked <==> r.is_ok()
    &&& r.is_err() ==> r == Err::<Bucket, BookingError>(BookingError::WrongState)
        && post == pre
    &&& r matches Ok(b) ==> {
        &&& b.amount == pre.vault.amount
        &&& b.currency == pre.vault.currency
        &&& post.status == ReservationStatus::CustomerCancelled
        &&& post.vault.amount@ == 0
        &&& post.withdrawn@ == pre.withdrawn@ + b.amount@
    }
}

/// What `Reservation::cancellation_by_owner` does: `pre` and `post` are the reservation
/// before and after the call, `r` its result.
pub open spec fn cancellation_by_owner_post(
    pre: Reservation,
    post: Reservation,
    r: Result<(),
    BookingError>,
) -> bool {
    &&& r.is_ok() <==> (pre.status == ReservationStatus::Booked || pre.status
        == ReservationStatus::Disputing)
    &&& r.is_err() ==> r == Err::<(), BookingError>(BookingError::WrongState) && post
        == pre
    &&& r.is_ok() ==> post == (Reservation {
        status: ReservationStatus::OwnerCancelled,
        ..pre
    })
}

/// What `Reservation::get_refund` does: `pre` and `post` are the reservation
/// before and after the call, `r` its result.
pub open spec fn get_refund_post(
    pre: Reservation,
    post: Reservation,
    r: Result<Bucket,
    BookingError>,
) -> bool {
    &&& post.same_booking(&pre)
    &&& r.is_ok() <==> (pre.status == ReservationStatus::OwnerCancelled
        || pre.status == ReservationStatus::Disputing
        || pre.status == ReservationStatus::DisputeTerminated)
    &&& r.is_err() ==> r == Err::<Bucket, BookingError>(BookingError::WrongState)
        && post == pre
    &&& r matches Ok(b) ==> {
        &&& b.currency == pre.vault.currency
        &&& post.withdrawn@ == pre.withdrawn@ + b.amount@
        &&& post.vault.amount@ == pre.vault.amount@ - b.amount@
        &&& post.dispute_votes == pre.dispute_votes
        &&& post.to_owner == pre.to_owner
        &&& pre.status == ReservationStatus::OwnerCancelled ==> {
            &&& b.amount == pre.vault.amount
            &&& post.status == ReservationStatus::OwnerCancelled
        }
        &&& pre.status != ReservationStatus::OwnerCancelled ==> {
            &&& b.amount == pre.refund_amount
            &&& post.refund_amount@ == 0
            &&& post.status == ReservationStatus::DisputeTerminated
        }
    }
}

/// What `Reservation::start_dispute` does: `pre` and `post` are the reservation
/// before and after the call, `r` its result.
pub open spec fn start_dispute_post(
    pre: Reservation,
    post: Reservation,
    r: Result<(),
    BookingError>,
) -> bool {
    &&& r.is_ok() <==> pre.status == ReservationStatus::Booked
    &&& r.is_err() ==> r == Err::<(), BookingError>(BookingError::WrongState) && post
        == pre
    &&& r.is_ok() ==> post == (Reservation {
        status: ReservationStatus::Disputing,
        ..pre
    })
}

/// What `Reservation::offer_partial_refund` does: `pre` and `post` are the reservation
/// before and after the call, `r` its result.
pub open spec fn offer_partial_refund_post(
    pre: Reservation,
    post: Reservation,
    refund_amount: Decimal,
    r: Result<(),
    BookingError>,
) -> bool {
    &&& pre.status != ReservationStatus::Disputing ==> r == Err::<(), BookingError>(
        BookingError::WrongState,
    )
    &&& pre.status == ReservationStatus::Disputing ==> (r.is_ok() <==> 0
        < refund_amount@ <= pre.vault.amount@)
    &&& pre.status == ReservationStatus::Disputing && r.is_err() ==> r == Err::<
        (),
        BookingError,
    >(BookingError::BadArgument)
    &&& r.is_err() ==> post == pre
    &&& r.is_ok() ==> post == (Reservation {
        refund_amount,
        to_owner: post.to_owner,
        ..pre
    }) && post.to_owner@ == pre.vault.amount@ - refund_amount@
}

/// What `Reservation::get_payment` does: `pre` and `post` are the reservation
/// before and after the call, `r` its result.
pub open spec fn get_payment_post(
    pre: Reservation,
    post: Reservation,
    payment_delay: i64,
    now: i64,
    r: Result<Bucket,
    BookingError>,
) -> bool {
    &&& post.same_booking(&pre)
    &&& r.is_ok() <==> ((pre.status == ReservationStatus::Booked && now
        >= pre.end_time + payment_delay) || pre.status
        == ReservationStatus::DisputeTerminated)
    &&& r.is_err() ==> post == pre
    &&& r.is_err() && pre.status == ReservationStatus::Booked ==> r == Err::<
        Bucket,
        BookingError,
    >(BookingError::TooEarly)
    &&& r.is_err() && pre.status != ReservationStatus::Booked ==> r == Err::<
        Bucket,
        BookingError,
    >(BookingError::WrongState)
    &&& r matches Ok(b) ==> {
        &&& b.currency == pre.vault.currency
        &&& post.withdrawn@ == pre.withdrawn@ + b.amount@
        &&& post.vault.amount@ == pre.vault.amount@ - b.amount@
        &&& post.dispute_votes == pre.dispute_votes
        &&& post.refund_amount == pre.refund_amount
        &&& pre.status == ReservationStatus::Booked ==> {
            &&& b.amount == pre.vault.amount
            &&& post.status == ReservationStatus::Completed
        }
        &&& pre.status == ReservationStatus::DisputeTerminated ==> {
            &&& b.amount == pre.to_owner
            &&& post.to_owner@ == 0
            &&& post.status == ReservationStatus::DisputeTerminated
        }
    }
}

/// What `Reservation::dispute_vote` does: `pre` and `post` are the reservation
/// before and after the call, `r` its result.
pub open spec fn dispute_vote_post(
    pre: Reservation,
    post: Reservation,
    arbitrator_id: u64,
    refund_percentage: Decimal,
    min_arbitrators: u16,
    r: Result<bool,
    BookingError>,
) -> bool {
    &&& post.same_booking(&pre)
    &&& pre.status != ReservationStatus::Disputing ==> r == Err::<bool, BookingError>(
        BookingError::WrongState,
    )
    &&& pre.status == ReservationStatus::Disputing ==> (r.is_ok() <==> 0
        <= refund_percentage@ <= 100 * SCALE)
    &&& pre.status == ReservationStatus::Disputing && r.is_err() ==> r == Err::<
        bool,
        BookingError,
    >(BookingError::BadArgument)
    &&& r.is_err() ==> post == pre
    &&& r is Ok ==> {
        ||| (exists|k: int|
            0 <= k < pre.dispute_votes@.len() && pre.dispute_votes@[k].0
                == arbitrator_id && post.dispute_votes@ == pre.dispute_votes@.update(k, (arbitrator_id, refund_percentage)))
        ||| ((forall|k: int|
            0 <= k < pre.dispute_votes@.len() ==> pre.dispute_votes@[k].0
                != arbitrator_id) && post.dispute_votes@ == pre.dispute_votes@.push((arbitrator_id, refund_percentage)))
    }
    &&& r matches Ok(done) ==> {
        &&& done == (post.dispute_votes@.len() >= min_arbitrators)
        &&& post.vault == pre.vault
        &&& post.withdrawn == pre.withdrawn
        &&& !done ==> post.status == ReservationStatus::Disputing
            && post.refund_amount == pre.refund_amount
            && post.to_owner == pre.to_owner
        &&& done ==> {
            &&& post.status == ReservationStatus::DisputeTerminated
            &&& post.refund_amount@ == refund_share(
                pre.vault.amount@,
                post.dispute_votes_sum@,
                post.dispute_votes@.len() as int,
            )
            &&& post.to_owner@ == pre.vault.amount@
                - post.refund_amount@
        }
    }
}

impl Reservation {
    pub open spec fn wf(&self) -> bool {
        &&& self.start_time < self.end_time
        &&& self.vault.amount@ >= 0
        &&& self.withdrawn@ >= 0
        &&& self.vault.amount@ + self.withdrawn@ == self.deposited@
        &&& is_split_state(self.status) ==> {
            &&& self.refund_amount@ >= 0
            &&& self.to_owner@ >= 0
            &&& self.refund_amount@ + self.to_owner@ == self.vault.amount@
        }
        &&& votes_distinct(self.dispute_votes@)
        &&& votes_in_range(self.dispute_votes@)
        &&& self.dispute_votes_sum@ == votes_total(self.dispute_votes@)
        &&& self.dispute_votes@.len() <= MAX_VOTES
        &&& self.status == ReservationStatus::Disputing ==> self.dispute_votes@.len() < MAX_VOTES
        &&& self.status == ReservationStatus::Booked ==> self.dispute_votes@.len() == 0
    }

    /// Everything but the status, the escrow and the dispute fields is kept.
    pub open spec fn same_booking(&self, other: &Reservation) -> bool {
        &&& self.id == other.id
        &&& self.item_id == other.item_id
        &&& self.customer_id == other.customer_id
        &&& self.start_time == other.start_time
        &&& self.end_time == other.end_time
        &&& self.max_cancellation_time == other.max_cancellation_time
        &&& self.deposited == other.deposited
        &&& self.vault.currency == other.vault.currency
    }

    /// A reservation in state `Booked` escrowing `bucket`, and its credential.
    pub fn new(
        id: u64,
        item_id: u64,
        customer_id: u64,
        start_time: i64,
        end_time: i64,
        bucket: Bucket,
        max_cancellation_time: i64,
    ) -> (r: (Reservation, ReservationNFT))
        requires
            start_time < end_time,
            bucket.amount@ >= 0,
        ensures
            r.0.wf(),
            r.0.id == id && r.0.item_id == item_id && r.0.customer_id == customer_id,
            r.0.start_time == start_time && r.0.end_time == end_time,
            r.0.max_cancellation_time == max_cancellation_time,
            r.0.status == ReservationStatus::Booked,
            r.0.vault.currency == bucket.currency,
            r.0.vault.amount == bucket.amount,
            r.0.to_owner == bucket.amount,
            r.0.refund_amount@ == 0,
            r.0.dispute_votes@.len() == 0,
            r.0.deposited@ == bucket.amount@,
            r.0.withdrawn@ == 0,
            r.1 == (ReservationNFT {
                id,
                item_id,
                start_time,
                end_time,
                status: ReservationStatus::Booked,
                max_cancellation_time,
            }),
    {
        let reservation = Reservation {
            id,
            item_id,
            customer_id,
            start_time,
            end_time,
            max_cancellation_time,
            to_owner: bucket.amount,
            vault: Vault::with_bucket(bucket),
            status: ReservationStatus::Booked,
            refund_amount: Decimal::zero(),
            dispute_votes: Vec::new(),
            dispute_votes_sum: Decimal::zero(),
            deposited: Ghost(bucket.amount@),
            withdrawn: Ghost(0),
        };
        let nft = ReservationNFT {
            id,
            item_id,
            start_time,
            end_time,
            status: ReservationStatus::Booked,
            max_cancellation_time,
        };
        (reservation, nft)
    }

    /// The customer withdraws a `Booked` reservation and gets the whole escrow back.
    pub fn cancellation_by_customer(&mut self) -> (r: Result<Bucket, BookingError>)
        requires
            old(self).wf(),
        ensures
            final(self).wf(),
            cancellation_by_customer_post(*old(self), *final(self), r),
    {
        if self.status != ReservationStatus::Booked {
            return Err(BookingError::WrongState);
        }
        self.status = ReservationStatus::CustomerCancelled;
        let b = self.vault.take_all();
        self.withdrawn = Ghost(self.withdrawn@ + b.amount@);
        Ok(b)
    }

    /// The owner cancels a `Booked` or `Disputing` reservation; the escrow
    /// stays until the customer asks for it.
    pub fn cancellation_by_owner(&mut self) -> (r: Result<(), BookingError>)
        requires
            old(self).wf(),
        ensures
            final(self).wf(),
            cancellation_by_owner_post(*old(self), *final(self), r),
    {
        if self.status != ReservationStatus::Booked && self.status != ReservationStatus::Disputing {
            return Err(BookingError::WrongState);
        }
        self.status = ReservationStatus::OwnerCancelled;
        Ok(())
    }
    /// The customer takes what is owed to them: the whole escrow after an owner
    /// cancellation, or the offered or decided refund during and after a dispute
    /// (taking it during a dispute accepts the offer and ends the dispute).
    pub fn get_refund(&mut self) -> (r: Result<Bucket, BookingError>)
        requires
            old(self).wf(),
        ensures
            final(self).wf(),
            get_refund_post(*old(self), *final(self), r),
    {
        match self.status {
            ReservationStatus::OwnerCancelled => {
                let b = self.vault.take_all();
                self.withdrawn = Ghost(self.withdrawn@ + b.amount@);
                Ok(b)
            },
            ReservationStatus::Disputing | ReservationStatus::DisputeTerminated => {
                let refund_amount = self.refund_amount;
                let b = match self.vault.take(refund_amount) {
                    Ok(b) => b,
                    Err(e) => {
                        return Err(e);
                    },
                };
                self.status = ReservationStatus::DisputeTerminated;
                self.refund_amount = Decimal::zero();
                self.withdrawn = Ghost(self.withdrawn@ + b.amount@);
                Ok(b)
            },
            _ => Err(BookingError::WrongState),
        }
    }

    /// The customer contests a `Booked` reservation.
    pub fn start_dispute(&mut self) -> (r: Result<(), BookingError>)
        requires
            old(self).wf(),
        ensures
            final(self).wf(),
            start_dispute_post(*old(self), *final(self), r),
    {
        if self.status != ReservationStatus::Booked {
            return Err(BookingError::WrongState);
        }
        self.status = ReservationStatus::Disputing;
        Ok(())
    }

    /// During a dispute the owner offers to give back `refund_amount`, which
    /// must be positive and at most the escrow; the owner keeps the rest.
    pub fn offer_partial_refund(&mut self, refund_amount: Decimal) -> (r: Result<(), BookingError>)
        requires
            old(self).wf(),
        ensures
            final(self).wf(),
            offer_partial_refund_post(*old(self), *final(self), refund_amount, r),
    {
        if self.status != ReservationStatus::Disputing {
            return Err(BookingError::WrongState);
        }
        if !refund_amount.is_positive() || !refund_amount.le(self.vault.amount()) {
            return Err(BookingError::BadArgument);
        }
        self.refund_amount = refund_amount;
        self.to_owner = Decimal::from_attos(self.vault.amount.attos - refund_amount.attos);
        Ok(())
    }

    /// The owner takes the payment: the whole escrow of a `Booked` reservation
    /// once `end_time + payment_delay` has come, or what a dispute left them.
    pub fn get_payment(&mut self, payment_delay: i64, now: i64) -> (r: Result<Bucket, BookingError>)
        requires
            old(self).wf(),
        ensures
            final(self).wf(),
            get_payment_post(*old(self), *final(self), payment_delay, now, r),
    {
        match self.status {
            ReservationStatus::Booked => {
                if (now as i128) < self.end_time as i128 + payment_delay as i128 {
                    return Err(BookingError::TooEarly);
                }
                self.status = ReservationStatus::Completed;
                let b = self.vault.take_all();
                self.withdrawn = Ghost(self.withdrawn@ + b.amount@);
                Ok(b)
            },
            ReservationStatus::DisputeTerminated => {
                let payment_amount = self.to_owner;
                let b = match self.vault.take(payment_amount) {
                    Ok(b) => b,
                    Err(e) => {
                        return Err(e);
                    },
                };
                self.to_owner = Decimal::zero();
                self.withdrawn = Ghost(self.withdrawn@ + b.amount@);
                Ok(b)
            },
            _ => Err(BookingError::WrongState),
        }
    }

    /// An arbitrator casts or replaces their vote. Once at least
    /// `min_arbitrators` arbitrators have voted, the dispute ends: the customer
    /// is owed `refund_share` of the escrow and the owner the rest, and the
    /// result is `true`.
    pub fn dispute_vote(
        &mut self,
        arbitrator_id: u64,
        refund_percentage: Decimal,
        min_arbitrators: u16,
    ) -> (r: Result<bool, BookingError>)
        requires
            old(self).wf(),
        ensures
            final(self).wf(),
            dispute_vote_post(*old(self), *final(self), arbitrator_id, refund_percentage, min_arbitrators, r),
    {
        if self.status != ReservationStatus::Disputing {
            return Err(BookingError::WrongState);
        }
        if refund_percentage.is_negative() || !refund_percentage.le(Decimal::from_units(100)) {
            return Err(BookingError::BadArgument);
        }
        let ghost old_votes = self.dispute_votes@;
        proof {
            lemma_votes_total_bounds(old_votes);
            assert(old_votes.len() * (100 * SCALE) <= 65535 * (100 * SCALE)) by (nonlinear_arith)
                requires old_votes.len() <= 65535;
        }
        let mut k: usize = 0;
        let n = self.dispute_votes.len();
        while k < n
            invariant
                n == self.dispute_votes@.len(),
                self.dispute_votes@ == old_votes,
                0 <= k <= n,
                forall|j: int| 0 <= j < k ==> old_votes[j].0 != arbitrator_id,
            ensures
                0 <= k <= n,
                forall|j: int| 0 <= j < k ==> old_votes[j].0 != arbitrator_id,
                k < n ==> old_votes[k as int].0 == arbitrator_id,
            decreases n - k,
        {
            if self.dispute_votes[k].0 == arbitrator_id {
                break;
            }
            k = k + 1;
        }
        let new_vote = (arbitrator_id, refund_percentage);
        if k < n {
            let previous = self.dispute_votes[k].1;
            proof {
                lemma_votes_total_update(old_votes, k as int, new_vote);
                assert(0 <= old_votes[k as int].1@ <= 100 * SCALE);
            }
            self.dispute_votes.set(k, new_vote);
            self.dispute_votes_sum = Decimal::from_attos(
                self.dispute_votes_sum.attos - previous.attos + refund_percentage.attos,
            );
            proof {
                let v = self.dispute_votes@;
                assert(v == old_votes.update(k as int, new_vote));
                assert(forall|i: int| 0 <= i < v.len() ==> #[trigger] v[i].0 == old_votes[i].0);
                assert(votes_distinct(v));
                assert(old_votes[k as int].0 == arbitrator_id);
            }
        } else {
            self.dispute_votes.push(new_vote);
            self.dispute_votes_sum = Decimal::from_attos(
                self.dispute_votes_sum.attos + refund_percentage.attos,
            );
            proof {
                let v = self.dispute_votes@;
                assert(v.drop_last() =~= old_votes);
                assert(votes_distinct(v)) by {
                    assert forall|i: int, j: int|
                        0 <= i < v.len() && 0 <= j < v.len() && i != j implies v[i].0
                            != v[j].0 by {
                        if i < n {
                            assert(v[i] == old_votes[i]);
                        }
                        if j < n {
                            assert(v[j] == old_votes[j]);
                        }
                    }
                }
            }
        }
        proof {
            let v = self.dispute_votes@;
            assert(votes_in_range(v)) by {
                assert forall|i: int| 0 <= i < v.len() implies 0 <= #[trigger] v[i].1@ <= 100
                    * SCALE by {
                    if i < old_votes.len() && i != k {
                        assert(v[i] == old_votes[i]);
                    }
                }
            }
            lemma_votes_total_bounds(v);
        }
        let number_of_voters = self.dispute_votes.len();
        if number_of_voters >= min_arbitrators as usize {
            let amount = self.vault.amount();
            let refund = quorum_refund(amount, self.dispute_votes_sum, number_of_voters as u64);
            self.status = ReservationStatus::DisputeTerminated;
            self.refund_amount = refund;
            self.to_owner = Decimal::from_attos(amount.attos - refund.attos);
            Ok(true)
        } else {
            Ok(false)
        }
    }
}

} // verus!

verus! {

/// Conservation: what a reservation holds in escrow plus everything it has
/// handed out equals what was escrowed when it was made. Every transition
/// that hands out a bucket adds exactly its amount to what was handed out.
pub proof fn lemma_conservation(r: Reservation)
    requires
        r.wf(),
    ensures
        r.vault.amount@ + r.withdrawn@ == r.deposited@,
        0 <= r.vault.amount@ <= r.deposited@,
{
}

/// Vote accounting: the running sum of a reservation's votes is the sum of
/// the votes held, no arbitrator holds two votes, and every vote is a
/// percentage.
pub proof fn lemma_vote_accounting(r: Reservation)
    requires
        r.wf(),
    ensures
        r.dispute_votes_sum@ == votes_total(r.dispute_votes@),
        votes_distinct(r.dispute_votes@),
        votes_in_range(r.dispute_votes@),
{
}

/// A vote adds no voter but the arbitrator who cast it, so a reservation
/// never holds more votes than there are arbitrators who voted on it.
pub proof fn lemma_vote_adds_only_its_caster(
    pre: Reservation,
    post: Reservation,
    arbitrator_id: u64,
    refund_percentage: Decimal,
    min_arbitrators: u16,
    r: Result<bool, BookingError>,
)
    requires
        dispute_vote_post(pre, post, arbitrator_id, refund_percentage, min_arbitrators, r),
    ensures
        forall|i: int|
            0 <= i < post.dispute_votes@.len() ==> #[trigger] post.dispute_votes@[i].0
                == arbitrator_id || exists|j: int|
                0 <= j < pre.dispute_votes@.len() && pre.dispute_votes@[j].0
                    == post.dispute_votes@[i].0,
        post.dispute_votes@.len() <= pre.dispute_votes@.len() + 1,
{
    if r is Ok {
        assert forall|i: int| 0 <= i < post.dispute_votes@.len() implies #[trigger] post.dispute_votes@[i].0
            == arbitrator_id || exists|j: int|
            0 <= j < pre.dispute_votes@.len() && pre.dispute_votes@[j].0
                == post.dispute_votes@[i].0 by {
            if i < pre.dispute_votes@.len() && post.dispute_votes@[i].0 != arbitrator_id {
                assert(pre.dispute_votes@[i].0 == post.dispute_votes@[i].0);
            }
        }
    }
}

/// Quorum finality: a vote that reaches the quorum ends the dispute, and any
/// later vote is refused and changes nothing.
pub proof fn lemma_quorum_final(
    pre: Reservation,
    mid: Reservation,
    post: Reservation,
    first_arbitrator: u64,
    first_percentage: Decimal,
    first_min: u16,
    second_arbitrator: u64,
    second_percentage: Decimal,
    second_min: u16,
    second: Result<bool, BookingError>,
)
    requires
        dispute_vote_post(
            pre,
            mid,
            first_arbitrator,
            first_percentage,
            first_min,
            Ok::<bool, BookingError>(true),
        ),
        dispute_vote_post(mid, post, second_arbitrator, second_percentage, second_min, second),
    ensures
        mid.dispute_votes@.len() >= first_min,
        mid.status == ReservationStatus::DisputeTerminated,
        second == Err::<bool, BookingError>(BookingError::WrongState),
        post == mid,
{
}

} // verus!
