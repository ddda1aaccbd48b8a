use crate::arbitrator::{Arbitrator, NewArbitratorEvent};
use crate::decimal::{Decimal, SCALE};
use crate::error::BookingError;
use crate::item::{
    lemma_replace_reservation, Item, NewAvailabilityIntervalEvent, NewItemEvent,
    UpdateAvailabilityIntervalEvent,
};
use crate::reservation::{
    cancellation_by_customer_post, cancellation_by_owner_post, dispute_vote_post, get_payment_post,
    get_refund_post, is_cancelled, offer_partial_refund_post, start_dispute_post, DisputeVoteEvent,
    DisputeVoteTerminatedEvent, NewReservationEvent, Reservation, ReservationCustomerCancellationEvent,
    ReservationDisputeEvent, ReservationGetPaymentEvent, ReservationNFT,
    ReservationOwnerCancellationEvent, ReservationRefundEvent, ReservationRefundOfferEvent,
    ReservationStatus,
};
use crate::user::{NewUserEvent, User};
use crate::vault::Bucket;
use vstd::prelude::*;

verus! {

/// What a caller presents to prove who they are: a capability that this
/// system issued. The system checks its kind and that it issued it.
#[derive(Clone, Copy, Debug, PartialEq, Eq, Structural)]
pub enum Credential {
    /// The operator of the system.
    Admin,
    /// A registered user.
    User { id: u64 },
    /// The holder of reservation `id` of item `item_id`.
    Reservation { id: u64, item_id: u64 },
    /// An arbitrator.
    Arbitrator { id: u64 },
}

/// What the engine reports of each change of its state, in order.
#[derive(Clone, Copy, Debug, PartialEq, Eq)]
pub enum Event {
    NewUser(NewUserEvent),
    NewItem(NewItemEvent),
    NewAvailabilityInterval(NewAvailabilityIntervalEvent),
    UpdateAvailabilityInterval(UpdateAvailabilityIntervalEvent),
    NewReservation(NewReservationEvent),
    ReservationCustomerCancellation(ReservationCustomerCancellationEvent),
    ReservationOwnerCancellation(ReservationOwnerCancellationEvent),
    ReservationRefund(ReservationRefundEvent),
    ReservationDispute(ReservationDisputeEvent),
    ReservationRefundOffer(ReservationRefundOfferEvent),
    ReservationGetPayment(ReservationGetPaymentEvent),
    DisputeVote(DisputeVoteEvent),
    DisputeVoteTerminated(DisputeVoteTerminatedEvent),
    NewArbitrator(NewArbitratorEvent),
}

/// The engine: users, items with their reservations, and the configuration
/// that disputes and payments follow.
pub struct BookingSystem {
    pub last_user_id: u64,
    pub users: Vec<User>,
    pub last_item_id: u64,
    pub items: Vec<Item>,
    pub last_reservation_id: u64,
    pub last_arbitrator_id: u64,
    pub min_arbitrators: u16,
    pub payment_delay: i64,
    /// Every event emitted so far, oldest first.
    pub events: Vec<Event>,
}

/// Reservation ids of an item grow with their position.
pub open spec fn ids_increasing(res: Seq<Reservation>) -> bool {
    forall|a: int, b: int| 0 <= a < b < res.len() ==> res[a].id < res[b].id
}

impl BookingSystem {
    pub open spec fn item_ok(&self, it: Item, k: int) -> bool {
        &&& it.id == k + 1
        &&& it.wf()
        &&& ids_increasing(it.reservations@)
        &&& forall|a: int|
            0 <= a < it.reservations@.len() ==> #[trigger] it.reservations@[a].id
                <= self.last_reservation_id
    }

    pub open spec fn wf(&self) -> bool {
        &&& self.users@.len() == self.last_user_id
        &&& forall|k: int| 0 <= k < self.users@.len() ==> #[trigger] self.users@[k].id == k + 1
        &&& self.items@.len() == self.last_item_id
        &&& forall|k: int| 0 <= k < self.items@.len() ==> self.item_ok(#[trigger] self.items@[k], k)
        &&& self.min_arbitrators >= 1
        &&& self.payment_delay >= 0
    }

    /// The user that `c` proves, if it is a user credential this system issued.
    pub open spec fn user_of(&self, c: Credential) -> Option<u64> {
        match c {
            Credential::User { id } => if 1 <= id <= self.last_user_id {
                Some(id)
            } else {
                None
            },
            _ => None,
        }
    }

    pub open spec fn has_item(&self, item_id: u64) -> bool {
        1 <= item_id <= self.items@.len()
    }

    pub open spec fn item(&self, item_id: u64) -> Item {
        self.items@[item_id - 1]
    }

    pub open spec fn has_reservation(&self, item_id: u64, id: u64) -> bool {
        &&& self.has_item(item_id)
        &&& exists|i: int|
            0 <= i < self.item(item_id).reservations@.len() && #[trigger] self.item(
                item_id,
            ).reservations@[i].id == id
    }

    pub open spec fn position(&self, item_id: u64, id: u64) -> int {
        choose|i: int|
            0 <= i < self.item(item_id).reservations@.len() && #[trigger] self.item(
                item_id,
            ).reservations@[i].id == id
    }

    pub open spec fn reservation(&self, item_id: u64, id: u64) -> Reservation {
        self.item(item_id).reservations@[self.position(item_id, id)]
    }

    /// Why an owner's call with `c` on item `item_id` is refused, if it is.
    pub open spec fn owner_check(&self, c: Credential, item_id: u64) -> Option<BookingError> {
        match self.user_of(c) {
            None => Some(BookingError::InvalidCredential),
            Some(u) => if !self.has_item(item_id) {
                Some(BookingError::ItemNotFound)
            } else if self.item(item_id).owner_id != u {
                Some(BookingError::NotAuthorized)
            } else {
                None
            },
        }
    }

    /// Why an owner's call with `c` on reservation `id` of item `item_id` is
    /// refused before the reservation is asked, if it is.
    pub open spec fn owner_lookup(&self, c: Credential, item_id: u64, id: u64) -> Option<
        BookingError,
    > {
        match self.owner_check(c, item_id) {
            Some(e) => Some(e),
            None => if !self.has_reservation(item_id, id) {
                Some(BookingError::ReservationNotFound)
            } else {
                None
            },
        }
    }

    /// The reservation that a customer's credential `c` designates, or why it
    /// is refused.
    pub open spec fn customer_lookup(&self, c: Credential) -> Result<(u64, u64), BookingError> {
        match c {
            Credential::Reservation { id, item_id } => if !(1 <= id <= self.last_reservation_id) {
                Err(BookingError::InvalidCredential)
            } else if !self.has_item(item_id) {
                Err(BookingError::ItemNotFound)
            } else if !self.has_reservation(item_id, id) {
                Err(BookingError::ReservationNotFound)
            } else {
                Ok((item_id, id))
            },
            _ => Err(BookingError::InvalidCredential),
        }
    }

    /// `post` holds what `self` holds.
    pub open spec fn unchanged(&self, pre: &BookingSystem) -> bool {
        &&& self.last_user_id == pre.last_user_id
        &&& self.users@ == pre.users@
        &&& self.last_item_id == pre.last_item_id
        &&& self.items@ == pre.items@
        &&& self.last_reservation_id == pre.last_reservation_id
        &&& self.last_arbitrator_id == pre.last_arbitrator_id
        &&& self.min_arbitrators == pre.min_arbitrators
        &&& self.payment_delay == pre.payment_delay
        &&& self.events@ == pre.events@
    }

    /// `self` holds the events of `pre` and then `e`.
    pub open spec fn logged(&self, pre: &BookingSystem, e: Event) -> bool {
        self.events@ == pre.events@.push(e)
    }

    /// `self` holds the events of `pre` and then `e` and `f`.
    pub open spec fn logged_two(&self, pre: &BookingSystem, e: Event, f: Event) -> bool {
        self.events@ == pre.events@.push(e).push(f)
    }

    /// `post` differs from `self` in reservation `id` of item `item_id` alone.
    pub open spec fn changed_only(&self, post: &BookingSystem, item_id: u64, id: u64) -> bool {
        let k = item_id - 1;
        let i = self.position(item_id, id);
        &&& post.last_user_id == self.last_user_id
        &&& post.users@ == self.users@
        &&& post.last_item_id == self.last_item_id
        &&& post.last_reservation_id == self.last_reservation_id
        &&& post.last_arbitrator_id == self.last_arbitrator_id
        &&& post.min_arbitrators == self.min_arbitrators
        &&& post.payment_delay == self.payment_delay
        &&& post.items@.len() == self.items@.len()
        &&& forall|j: int| 0 <= j < self.items@.len() && j != k ==> post.items@[j] == self.items@[j]
        &&& post.item(item_id) == (Item {
            reservations: post.item(item_id).reservations,
            ..self.item(item_id)
        })
        &&& post.item(item_id).reservations@ == self.item(item_id).reservations@.update(
            i,
            post.reservation(item_id, id),
        )
        &&& post.position(item_id, id) == i
    }

    /// Finds reservation `id` of item `item_id`.
    fn locate(&self, item_id: u64, id: u64) -> (r: Result<(usize, usize), BookingError>)
        requires
            self.wf(),
            self.has_item(item_id),
        ensures
            r is Ok <==> self.has_reservation(item_id, id),
            r is Err ==> r == Err::<(usize, usize), BookingError>(BookingError::ReservationNotFound),
            r matches Ok((k, i)) ==> k == item_id - 1 && i == self.position(item_id, id) && i
                < self.item(item_id).reservations@.len(),
    {
        let n = self.items.len();
        let k = (item_id - 1) as usize;
        match self.items[k].get_reservation(id) {
            Some(i) => {
                proof {
                    let res = self.item(item_id).reservations@;
                    assert(self.item_ok(self.items@[k as int], k as int));
                    assert(res[i as int].id == id);
                    let p = self.position(item_id, id);
                    assert(res[p].id == id);
                    if p < i {
                        assert(res[p].id < res[i as int].id);
                    }
                    if p > i {
                        assert(res[i as int].id < res[p].id);
                    }
                }
                Ok((k, i))
            },
            None => Err(BookingError::ReservationNotFound),
        }
    }

    /// The reservation designated by a customer's credential.
    fn locate_for_customer(&self, c: &Credential) -> (r: Result<(usize, usize), BookingError>)
        requires
            self.wf(),
        ensures
            match self.customer_lookup(*c) {
                Err(e) => r == Err::<(usize, usize), BookingError>(e),
                Ok((item_id, id)) => r matches Ok((k, i)) && k == item_id - 1 && i
                    == self.position(item_id, id) && i < self.item(item_id).reservations@.len(),
            },
    {
        match *c {
            Credential::Reservation { id, item_id } => {
                if id < 1 || id > self.last_reservation_id {
                    return Err(BookingError::InvalidCredential);
                }
                if item_id < 1 || item_id > self.items.len() as u64 {
                    return Err(BookingError::ItemNotFound);
                }
                self.locate(item_id, id)
            },
            _ => Err(BookingError::InvalidCredential),
        }
    }

    /// The customer takes what is owed to them (see `Reservation::get_refund`).
    pub fn get_refund(&mut self, credential: &Credential) -> (r: Result<Bucket, BookingError>)
        requires
            old(self).wf(),
        ensures
            final(self).wf(),
            match old(self).customer_lookup(*credential) {
                Err(e) => r == Err::<Bucket, BookingError>(e) && *final(self) == *old(self),
                Ok((item_id, id)) => old(self).changed_only(final(self), item_id, id)
                    && get_refund_post(
                    old(self).reservation(item_id, id),
                    final(self).reservation(item_id, id),
                    r,
                ) && (r matches Ok(b) ==> final(self).logged(
                    old(self),
                    Event::ReservationRefund(
                        ReservationRefundEvent {
                            reservation_id: id,
                            old_status: old(self).reservation(item_id, id).status,
                            new_status: final(self).reservation(item_id, id).status,
                            refund_amount: b.amount,
                        },
                    ),
                )) && (r is Err ==> final(self).events@ == old(self).events@),
            },
    {
        let (k, i) = match self.locate_for_customer(credential) {
            Ok(x) => x,
            Err(e) => {
                return Err(e);
            },
        };
        let ghost pre = *self;
        let old_status = self.items[k].reservations[i].status;
        let r = self.items[k].reservations[i].get_refund();
        proof {
            lemma_changed_one(pre, *self, k as int, i as int);
        }
        if let Ok(b) = &r {
            let reservation_id = self.items[k].reservations[i].id;
            let new_status = self.items[k].reservations[i].status;
            self.events.push(
                Event::ReservationRefund(
                    ReservationRefundEvent {
                        reservation_id,
                        old_status,
                        new_status,
                        refund_amount: b.amount,
                    },
                ),
            );
        }
        r
    }
    /// An empty system: one arbitrator settles a dispute, payment is due when
    /// a reservation ends.
    pub fn new() -> (r: BookingSystem)
        ensures
            r.wf(),
            r.last_user_id == 0 && r.last_item_id == 0 && r.last_reservation_id == 0,
            r.last_arbitrator_id == 0,
            r.min_arbitrators == 1,
            r.payment_delay == 0,
            r.events@.len() == 0,
    {
        BookingSystem {
            last_user_id: 0,
            users: Vec::new(),
            last_item_id: 0,
            items: Vec::new(),
            last_reservation_id: 0,
            last_arbitrator_id: 0,
            min_arbitrators: 1,
            payment_delay: 0,
            events: Vec::new(),
        }
    }

    /// Registers a user and returns their credential.
    pub fn new_user(&mut self) -> (r: Result<Credential, BookingError>)
        requires
            old(self).wf(),
        ensures
            final(self).wf(),
            r.is_err() <==> old(self).last_user_id == u64::MAX,
            r.is_err() ==> r == Err::<Credential, BookingError>(BookingError::Overflow) && *final(self) == *old(self),
            r.is_ok() ==> {
                &&& r == Ok::<Credential, BookingError>(
                    Credential::User { id: final(self).last_user_id },
                )
                &&& final(self).last_user_id == old(self).last_user_id + 1
                &&& final(self).users@.drop_last() == old(self).users@
                &&& final(self).users@.last().owned_items@.len() == 0
                &&& final(self).logged(
                    old(self),
                    Event::NewUser(NewUserEvent { user_id: final(self).last_user_id }),
                )
                &&& *final(self) == (BookingSystem {
                    last_user_id: final(self).last_user_id,
                    users: final(self).users,
                    events: final(self).events,
                    ..*old(self)
                })
            },
    {
        if self.last_user_id == u64::MAX {
            return Err(BookingError::Overflow);
        }
        let id = self.last_user_id + 1;
        self.users.push(User::new(id));
        self.last_user_id = id;
        self.events.push(Event::NewUser(NewUserEvent { user_id: id }));
        proof {
            assert(self.users@.drop_last() =~= old(self).users@);
            assert forall|k: int| 0 <= k < self.users@.len() implies #[trigger] self.users@[k].id == k + 1 by {
                if k < self.users@.len() - 1 {
                    assert(self.users@[k] == old(self).users@[k]);
                }
            }
        }
        Ok(Credential::User { id })
    }

    /// A user puts up a new item; its id is returned and added to the user's
    /// items.
    pub fn new_item(
        &mut self,
        user_proof: &Credential,
        minimum_reservation_period: i64,
        coin: u64,
        min_cancellation_forewarning: i64,
    ) -> (r: Result<u64, BookingError>)
        requires
            old(self).wf(),
        ensures
            final(self).wf(),
            old(self).user_of(*user_proof) is None ==> r == Err::<u64, BookingError>(
                BookingError::InvalidCredential,
            ),
            old(self).user_of(*user_proof) is Some && !(minimum_reservation_period > 0
                && min_cancellation_forewarning >= 0) ==> r == Err::<u64, BookingError>(
                BookingError::BadArgument,
            ),
            old(self).user_of(*user_proof) is Some && minimum_reservation_period > 0
                && min_cancellation_forewarning >= 0 ==> (r is Ok <==> old(self).last_item_id
                < u64::MAX),
            r is Err ==> *final(self) == *old(self),
            r matches Ok(id) ==> {
                let u = old(self).user_of(*user_proof)->0;
                &&& id == old(self).last_item_id + 1
                &&& final(self).last_item_id == id
                &&& final(self).items@.drop_last() == old(self).items@
                &&& final(self).item(id).owner_id == u
                &&& final(self).item(id).minimum_reservation_period == minimum_reservation_period
                &&& final(self).item(id).coin == coin
                &&& final(self).item(id).min_cancellation_forewarning
                    == min_cancellation_forewarning
                &&& final(self).item(id).availability_intervals@.len() == 0
                &&& final(self).item(id).reservations@.len() == 0
                &&& final(self).users@.len() == old(self).users@.len()
                &&& forall|k: int|
                    0 <= k < old(self).users@.len() && k != u - 1 ==> final(self).users@[k]
                        == old(self).users@[k]
                &&& final(self).users@[u - 1].id == u
                &&& final(self).users@[u - 1].owned_items@ == old(self).users@[u
                    - 1].owned_items@.push(id)
                &&& final(self).logged(
                    old(self),
                    Event::NewItem(
                        NewItemEvent {
                            item_id: id,
                            owner_id: u,
                            minimum_reservation_period,
                            coin,
                            min_cancellation_forewarning,
                        },
                    ),
                )
                &&& *final(self) == (BookingSystem {
                    last_item_id: final(self).last_item_id,
                    items: final(self).items,
                    users: final(self).users,
                    events: final(self).events,
                    ..*old(self)
                })
            },
    {
        let user_id = match self.get_user_data(user_proof) {
            Ok(u) => u,
            Err(e) => {
                return Err(e);
            },
        };
        if minimum_reservation_period <= 0 || min_cancellation_forewarning < 0 {
            return Err(BookingError::BadArgument);
        }
        if self.last_item_id == u64::MAX {
            return Err(BookingError::Overflow);
        }
        let id = self.last_item_id + 1;
        let item = match Item::new(
            id,
            user_id,
            minimum_reservation_period,
            coin,
            min_cancellation_forewarning,
        ) {
            Ok(item) => item,
            Err(e) => {
                return Err(e);
            },
        };
        let ghost pre = *self;
        self.items.push(item);
        self.last_item_id = id;
        let nu = self.users.len();
        let uk = (user_id - 1) as usize;
        self.users[uk].owned_items.push(id);
        self.events.push(
            Event::NewItem(
                NewItemEvent {
                    item_id: id,
                    owner_id: user_id,
                    minimum_reservation_period,
                    coin,
                    min_cancellation_forewarning,
                },
            ),
        );
        proof {
            assert(self.items@.drop_last() =~= pre.items@);
            assert forall|k: int| 0 <= k < self.items@.len() implies self.item_ok(
                #[trigger] self.items@[k],
                k,
            ) by {
                if k < self.items@.len() - 1 {
                    assert(self.items@[k] == pre.items@[k]);
                    assert(pre.item_ok(pre.items@[k], k));
                }
            }
            assert forall|k: int| 0 <= k < self.users@.len() implies #[trigger] self.users@[k].id
                == k + 1 by {
                assert(pre.users@[k].id == k + 1);
            }
        }
        Ok(id)
    }

    /// The item's owner sets the calendar entry at `start_time`, after
    /// dropping the entries that ended before `now`.
    pub fn add_or_modify_availability_interval(
        &mut self,
        user_proof: &Credential,
        item_id: u64,
        start_time: i64,
        available: bool,
        price_per_minimum_reservation_period: Option<Decimal>,
        now: i64,
    ) -> (r: Result<(), BookingError>)
        requires
            old(self).wf(),
        ensures
            final(self).wf(),
            match old(self).owner_check(*user_proof, item_id) {
                Some(e) => r == Err::<(), BookingError>(e) && *final(self) == *old(self),
                None => {
                    &&& r.is_err() <==> available && match price_per_minimum_reservation_period {
                        Some(p) => p@ <= 0,
                        None => true,
                    }
                    &&& r.is_err() ==> r == Err::<(), BookingError>(BookingError::BadArgument)
                        && final(self).unchanged(old(self))
                    &&& r.is_ok() ==> {
                        &&& final(self).items@.len() == old(self).items@.len()
                        &&& forall|k: int|
                            0 <= k < old(self).items@.len() && k != item_id - 1 ==> final(self).items@[k] == old(self).items@[k]
                        &&& final(self).item(item_id) == (Item {
                            availability_intervals: final(self).item(item_id).availability_intervals,
                            ..old(self).item(item_id)
                        })
                        &&& final(self).item(item_id).availability_intervals@ == crate::calendar::with_entry(
                            crate::calendar::pruned(old(self).item(item_id).availability_intervals@, now as int),
                            crate::calendar::AvailabilityInterval {
                                start_time,
                                available,
                                price_per_minimum_reservation_period,
                            },
                        )
                        &&& *final(self) == (BookingSystem {
                            items: final(self).items,
                            events: final(self).events,
                            ..*old(self)
                        })
                        &&& final(self).logged(
                            old(self),
                            if crate::calendar::starts_at(
                                crate::calendar::pruned(
                                    old(self).item(item_id).availability_intervals@,
                                    now as int,
                                ),
                                start_time as int,
                            ) {
                                Event::UpdateAvailabilityInterval(
                                    UpdateAvailabilityIntervalEvent {
                                        item_id,
                                        start_time,
                                        available,
                                        price_per_minimum_reservation_period,
                                    },
                                )
                            } else {
                                Event::NewAvailabilityInterval(
                                    NewAvailabilityIntervalEvent {
                                        item_id,
                                        start_time,
                                        available,
                                        price_per_minimum_reservation_period,
                                    },
                                )
                            },
                        )
                    }
                },
            },
    {
        let k = match self.owned_item(user_proof, item_id) {
            Ok(k) => k,
            Err(e) => {
                return Err(e);
            },
        };
        let ghost pre = *self;
        let r = self.items[k].add_or_modify_availability_interval(
            start_time,
            available,
            price_per_minimum_reservation_period,
            now,
        );
        proof {
            if r.is_err() {
                assert(self.items@ =~= pre.items@);
            }
            assert forall|j: int| 0 <= j < self.items@.len() implies self.item_ok(
                #[trigger] self.items@[j],
                j,
            ) by {
                assert(pre.item_ok(pre.items@[j], j));
            }
        }
        match r {
            Ok(inserted) => {
                if inserted {
                    self.events.push(
                        Event::NewAvailabilityInterval(
                            NewAvailabilityIntervalEvent {
                                item_id,
                                start_time,
                                available,
                                price_per_minimum_reservation_period,
                            },
                        ),
                    );
                } else {
                    self.events.push(
                        Event::UpdateAvailabilityInterval(
                            UpdateAvailabilityIntervalEvent {
                                item_id,
                                start_time,
                                available,
                                price_per_minimum_reservation_period,
                            },
                        ),
                    );
                }
                Ok(())
            },
            Err(e) => Err(e),
        }
    }

    /// A user books `[start_time, end_time)` of item `item_id`, paying from
    /// `bucket`; the credential of the new reservation is returned.
    pub fn new_reservation(
        &mut self,
        user_proof: &Credential,
        item_id: u64,
        start_time: i64,
        end_time: i64,
        bucket: &mut Bucket,
        now: i64,
    ) -> (r: Result<ReservationNFT, BookingError>)
        requires
            old(self).wf(),
        ensures
            final(self).wf(),
            old(self).user_of(*user_proof) is None ==> r == Err::<ReservationNFT, BookingError>(
                BookingError::InvalidCredential,
            ),
            old(self).user_of(*user_proof) is Some && !old(self).has_item(item_id) ==> r == Err::<
                ReservationNFT,
                BookingError,
            >(BookingError::ItemNotFound),
            old(self).user_of(*user_proof) is Some && old(self).has_item(item_id)
                && old(self).last_reservation_id == u64::MAX ==> r == Err::<
                ReservationNFT,
                BookingError,
            >(BookingError::Overflow),
            r is Err ==> final(self).unchanged(old(self)) && *final(bucket) == *old(bucket),
            old(self).user_of(*user_proof) is Some && old(self).has_item(item_id)
                && old(self).last_reservation_id < u64::MAX ==> match old(self).item(
                item_id,
            ).admission(start_time as int, end_time as int, now as int, *old(bucket)) {
                Err(e) => r == Err::<ReservationNFT, BookingError>(e),
                Ok(total) => r is Ok && {
                    let id = (old(self).last_reservation_id + 1) as u64;
                    let nr = final(self).item(item_id).reservations@.last();
                    &&& final(self).last_reservation_id == id
                    &&& final(bucket).currency == old(bucket).currency
                    &&& final(bucket).amount@ == old(bucket).amount@ - total
                    &&& final(self).items@.len() == old(self).items@.len()
                    &&& forall|k: int|
                        0 <= k < old(self).items@.len() && k != item_id - 1 ==> final(self).items@[k] == old(self).items@[k]
                    &&& final(self).item(item_id).reservations@.drop_last() == old(self).item(
                        item_id,
                    ).reservations@
                    &&& final(self).item(item_id) == (Item {
                        reservations: final(self).item(item_id).reservations,
                        ..old(self).item(item_id)
                    })
                    &&& nr.id == id
                    &&& nr.customer_id == old(self).user_of(*user_proof)->0
                    &&& nr.start_time == start_time && nr.end_time == end_time
                    &&& nr.status == crate::reservation::ReservationStatus::Booked
                    &&& nr.vault.amount@ == total
                    &&& r matches Ok(nft) && nft.id == id && nft.item_id == item_id
                    &&& final(self).logged(
                        old(self),
                        Event::NewReservation(
                            NewReservationEvent {
                                reservation_id: id,
                                item_id,
                                customer_id: nr.customer_id,
                                start_time,
                                end_time,
                            },
                        ),
                    )
                    &&& *final(self) == (BookingSystem {
                        items: final(self).items,
                        last_reservation_id: id,
                        events: final(self).events,
                        ..*old(self)
                    })
                },
            },
    {
        let user_id = match self.get_user_data(user_proof) {
            Ok(u) => u,
            Err(e) => {
                return Err(e);
            },
        };
        let n = self.items.len();
        if item_id < 1 || item_id > n as u64 {
            return Err(BookingError::ItemNotFound);
        }
        if self.last_reservation_id == u64::MAX {
            return Err(BookingError::Overflow);
        }
        let k = (item_id - 1) as usize;
        let id = self.last_reservation_id + 1;
        let ghost pre = *self;
        proof {
            assert(pre.item_ok(pre.items@[k as int], k as int));
        }
        let r = self.items[k].new_reservation(id, user_id, start_time, end_time, bucket, now);
        if r.is_ok() {
            self.last_reservation_id = id;
            self.events.push(
                Event::NewReservation(
                    NewReservationEvent {
                        reservation_id: id,
                        item_id,
                        customer_id: user_id,
                        start_time,
                        end_time,
                    },
                ),
            );
        }
        proof {
            if r.is_err() {
                assert(self.items@ =~= pre.items@);
            }
            assert forall|j: int| 0 <= j < self.items@.len() implies self.item_ok(
                #[trigger] self.items@[j],
                j,
            ) by {
                assert(pre.item_ok(pre.items@[j], j));
                if j == k && r.is_ok() {
                    let res = self.items@[j].reservations@;
                    assert(res.drop_last() == pre.items@[j].reservations@);
                    assert forall|a: int, b: int| 0 <= a < b < res.len() implies res[a].id
                        < res[b].id by {
                        if b < res.len() - 1 {
                            assert(res[a] == pre.items@[j].reservations@[a]);
                            assert(res[b] == pre.items@[j].reservations@[b]);
                        } else {
                            assert(res[a] == pre.items@[j].reservations@[a]);
                        }
                    }
                    assert forall|a: int| 0 <= a < res.len() implies #[trigger] res[a].id
                        <= self.last_reservation_id by {
                        if a < res.len() - 1 {
                            assert(res[a] == pre.items@[j].reservations@[a]);
                        }
                    }
                }
            }
        }
        r
    }

    /// Sets how long after a reservation ends its owner may take the payment.
    pub fn set_payment_delay(&mut self, admin: &Credential, payment_delay: i64) -> (r: Result<
        (),
        BookingError,
    >)
        requires
            old(self).wf(),
        ensures
            final(self).wf(),
            *admin != Credential::Admin ==> r == Err::<(), BookingError>(
                BookingError::NotAuthorized,
            ),
            *admin == Credential::Admin && payment_delay < 0 ==> r == Err::<(), BookingError>(
                BookingError::BadArgument,
            ),
            r is Err ==> *final(self) == *old(self),
            *admin == Credential::Admin && payment_delay >= 0 ==> r is Ok && *final(self) == (
            BookingSystem { payment_delay, ..*old(self) }),
    {
        if *admin != Credential::Admin {
            return Err(BookingError::NotAuthorized);
        }
        if payment_delay < 0 {
            return Err(BookingError::BadArgument);
        }
        self.payment_delay = payment_delay;
        Ok(())
    }

    /// Sets how many arbitrators settle a dispute.
    pub fn set_min_arbitrators(&mut self, admin: &Credential, min_arbitrators: u16) -> (r: Result<
        (),
        BookingError,
    >)
        requires
            old(self).wf(),
        ensures
            final(self).wf(),
            *admin != Credential::Admin ==> r == Err::<(), BookingError>(
                BookingError::NotAuthorized,
            ),
            *admin == Credential::Admin && min_arbitrators == 0 ==> r == Err::<(), BookingError>(
                BookingError::BadArgument,
            ),
            r is Err ==> *final(self) == *old(self),
            *admin == Credential::Admin && min_arbitrators > 0 ==> r is Ok && *final(self) == (
            BookingSystem { min_arbitrators, ..*old(self) }),
    {
        if *admin != Credential::Admin {
            return Err(BookingError::NotAuthorized);
        }
        if min_arbitrators == 0 {
            return Err(BookingError::BadArgument);
        }
        self.min_arbitrators = min_arbitrators;
        Ok(())
    }

    /// Issues a new arbitrator credential.
    pub fn get_arbitrator_badge(&mut self, admin: &Credential) -> (r: Result<
        Credential,
        BookingError,
    >)
        requires
            old(self).wf(),
        ensures
            final(self).wf(),
            *admin != Credential::Admin ==> r == Err::<Credential, BookingError>(
                BookingError::NotAuthorized,
            ),
            *admin == Credential::Admin && old(self).last_arbitrator_id == u64::MAX ==> r == Err::<
                Credential,
                BookingError,
            >(BookingError::Overflow),
            r is Err ==> *final(self) == *old(self),
            *admin == Credential::Admin && old(self).last_arbitrator_id < u64::MAX ==> {
                let id = (old(self).last_arbitrator_id + 1) as u64;
                &&& r == Ok::<Credential, BookingError>(Credential::Arbitrator { id })
                &&& final(self).logged(
                    old(self),
                    Event::NewArbitrator(NewArbitratorEvent { arbitrator_id: id }),
                )
                &&& *final(self) == (BookingSystem {
                    last_arbitrator_id: id,
                    events: final(self).events,
                    ..*old(self)
                })
            },
    {
        if *admin != Credential::Admin {
            return Err(BookingError::NotAuthorized);
        }
        if self.last_arbitrator_id == u64::MAX {
            return Err(BookingError::Overflow);
        }
        let arbitrator = Arbitrator::new(self.last_arbitrator_id + 1);
        self.last_arbitrator_id = arbitrator.id;
        self.events.push(Event::NewArbitrator(NewArbitratorEvent { arbitrator_id: arbitrator.id }));
        Ok(Credential::Arbitrator { id: arbitrator.id })
    }

    /// What the credential of reservation `id` of item `item_id` shows now,
    /// its status included.
    pub fn reservation_nft(&self, item_id: u64, id: u64) -> (r: Option<ReservationNFT>)
        requires
            self.wf(),
        ensures
            r is Some <==> self.has_reservation(item_id, id),
            r matches Some(n) ==> {
                let res = self.reservation(item_id, id);
                n == ReservationNFT {
                    id,
                    item_id,
                    start_time: res.start_time,
                    end_time: res.end_time,
                    status: res.status,
                    max_cancellation_time: res.max_cancellation_time,
                }
            },
    {
        let n = self.items.len();
        if item_id < 1 || item_id > n as u64 {
            return None;
        }
        match self.locate(item_id, id) {
            Ok((k, i)) => {
                let res = &self.items[k].reservations[i];
                Some(
                    ReservationNFT {
                        id,
                        item_id,
                        start_time: res.start_time,
                        end_time: res.end_time,
                        status: res.status,
                        max_cancellation_time: res.max_cancellation_time,
                    },
                )
            },
            Err(_) => None,
        }
    }

    /// The user that a credential proves.
    fn get_user_data(&self, c: &Credential) -> (r: Result<u64, BookingError>)
        requires
            self.wf(),
        ensures
            match self.user_of(*c) {
                Some(u) => r == Ok::<u64, BookingError>(u),
                None => r == Err::<u64, BookingError>(BookingError::InvalidCredential),
            },
    {
        match *c {
            Credential::User { id } => {
                if id < 1 || id > self.last_user_id {
                    Err(BookingError::InvalidCredential)
                } else {
                    Ok(id)
                }
            },
            _ => Err(BookingError::InvalidCredential),
        }
    }

    /// The position of item `item_id`, if `c` proves its owner.
    fn owned_item(&self, c: &Credential, item_id: u64) -> (r: Result<usize, BookingError>)
        requires
            self.wf(),
        ensures
            match self.owner_check(*c, item_id) {
                Some(e) => r == Err::<usize, BookingError>(e),
                None => r matches Ok(k) && k == item_id - 1 && self.has_item(item_id),
            },
    {
        let user_id = match self.get_user_data(c) {
            Ok(u) => u,
            Err(e) => {
                return Err(e);
            },
        };
        let n = self.items.len();
        if item_id < 1 || item_id > n as u64 {
            return Err(BookingError::ItemNotFound);
        }
        let k = (item_id - 1) as usize;
        if self.items[k].owner_id != user_id {
            return Err(BookingError::NotAuthorized);
        }
        Ok(k)
    }

    /// Reservation `id` of item `item_id`, if `c` proves the item's owner.
    fn owner_locate(&self, c: &Credential, item_id: u64, id: u64) -> (r: Result<
        (usize, usize),
        BookingError,
    >)
        requires
            self.wf(),
        ensures
            match self.owner_lookup(*c, item_id, id) {
                Some(e) => r == Err::<(usize, usize), BookingError>(e),
                None => r matches Ok((k, i)) && k == item_id - 1 && i == self.position(item_id, id)
                    && i < self.item(item_id).reservations@.len() && self.has_item(item_id),
            },
    {
        match self.owned_item(c, item_id) {
            Ok(_) => {},
            Err(e) => {
                return Err(e);
            },
        }
        self.locate(item_id, id)
    }

    /// The customer cancels before the reservation's cancellation deadline and
    /// gets the whole escrow back.
    pub fn reservation_cancellation_by_customer(&mut self, credential: &Credential, now: i64) -> (r:
        Result<Bucket, BookingError>)
        requires
            old(self).wf(),
        ensures
            final(self).wf(),
            match old(self).customer_lookup(*credential) {
                Err(e) => r == Err::<Bucket, BookingError>(e) && *final(self) == *old(self),
                Ok((item_id, id)) => if now > old(self).reservation(item_id, id).max_cancellation_time {
                    r == Err::<Bucket, BookingError>(BookingError::TooEarly) && *final(self) == *old(self)
                } else {
                    old(self).changed_only(final(self), item_id, id)
                        && cancellation_by_customer_post(
                        old(self).reservation(item_id, id),
                        final(self).reservation(item_id, id),
                        r,
                    ) && (r is Ok ==> final(self).logged(
                        old(self),
                        Event::ReservationCustomerCancellation(
                            ReservationCustomerCancellationEvent { reservation_id: id },
                        ),
                    )) && (r is Err ==> final(self).events@ == old(self).events@)
                },
            },
    {
        let (k, i) = match self.locate_for_customer(credential) {
            Ok(x) => x,
            Err(e) => {
                return Err(e);
            },
        };
        if now > self.items[k].reservations[i].max_cancellation_time {
            return Err(BookingError::TooEarly);
        }
        let ghost pre = *self;
        let r = self.items[k].reservations[i].cancellation_by_customer();
        proof {
            lemma_changed_one(pre, *self, k as int, i as int);
        }
        if r.is_ok() {
            let reservation_id = self.items[k].reservations[i].id;
            self.events.push(
                Event::ReservationCustomerCancellation(
                    ReservationCustomerCancellationEvent { reservation_id },
                ),
            );
        }
        r
    }

    /// The item's owner cancels a reservation.
    pub fn reservation_cancellation_by_owner(
        &mut self,
        user_proof: &Credential,
        item_id: u64,
        reservation_id: u64,
    ) -> (r: Result<(), BookingError>)
        requires
            old(self).wf(),
        ensures
            final(self).wf(),
            match old(self).owner_lookup(*user_proof, item_id, reservation_id) {
                Some(e) => r == Err::<(), BookingError>(e) && *final(self) == *old(self),
                None => old(self).changed_only(final(self), item_id, reservation_id)
                    && cancellation_by_owner_post(
                    old(self).reservation(item_id, reservation_id),
                    final(self).reservation(item_id, reservation_id),
                    r,
                ) && (r is Ok ==> final(self).logged(
                    old(self),
                    Event::ReservationOwnerCancellation(
                        ReservationOwnerCancellationEvent { reservation_id },
                    ),
                )) && (r is Err ==> final(self).events@ == old(self).events@),
            },
    {
        let (k, i) = match self.owner_locate(user_proof, item_id, reservation_id) {
            Ok(x) => x,
            Err(e) => {
                return Err(e);
            },
        };
        let ghost pre = *self;
        let r = self.items[k].reservations[i].cancellation_by_owner();
        proof {
            lemma_changed_one(pre, *self, k as int, i as int);
        }
        if r.is_ok() {
            self.events.push(
                Event::ReservationOwnerCancellation(
                    ReservationOwnerCancellationEvent { reservation_id },
                ),
            );
        }
        r
    }

    /// The customer contests a `Booked` reservation.
    pub fn start_dispute(&mut self, reservation_proof: &Credential) -> (r: Result<(), BookingError>)
        requires
            old(self).wf(),
        ensures
            final(self).wf(),
            match old(self).customer_lookup(*reservation_proof) {
                Err(e) => r == Err::<(), BookingError>(e) && *final(self) == *old(self),
                Ok((item_id, id)) => old(self).changed_only(final(self), item_id, id)
                    && start_dispute_post(
                    old(self).reservation(item_id, id),
                    final(self).reservation(item_id, id),
                    r,
                ) && (r is Ok ==> final(self).logged(
                    old(self),
                    Event::ReservationDispute(ReservationDisputeEvent { reservation_id: id }),
                )) && (r is Err ==> final(self).events@ == old(self).events@),
            },
    {
        let (k, i) = match self.locate_for_customer(reservation_proof) {
            Ok(x) => x,
            Err(e) => {
                return Err(e);
            },
        };
        let ghost pre = *self;
        let r = self.items[k].reservations[i].start_dispute();
        proof {
            lemma_changed_one(pre, *self, k as int, i as int);
        }
        if r.is_ok() {
            let reservation_id = self.items[k].reservations[i].id;
            self.events.push(Event::ReservationDispute(ReservationDisputeEvent { reservation_id }));
        }
        r
    }

    /// The item's owner offers a partial refund during a dispute.
    pub fn offer_partial_refund(
        &mut self,
        user_proof: &Credential,
        item_id: u64,
        reservation_id: u64,
        refund_amount: Decimal,
    ) -> (r: Result<(), BookingError>)
        requires
            old(self).wf(),
        ensures
            final(self).wf(),
            match old(self).owner_lookup(*user_proof, item_id, reservation_id) {
                Some(e) => r == Err::<(), BookingError>(e) && *final(self) == *old(self),
                None => old(self).changed_only(final(self), item_id, reservation_id)
                    && offer_partial_refund_post(
                    old(self).reservation(item_id, reservation_id),
                    final(self).reservation(item_id, reservation_id),
                    refund_amount,
                    r,
                ) && (r is Ok ==> final(self).logged(
                    old(self),
                    Event::ReservationRefundOffer(
                        ReservationRefundOfferEvent { reservation_id, refund_amount },
                    ),
                )) && (r is Err ==> final(self).events@ == old(self).events@),
            },
    {
        let (k, i) = match self.owner_locate(user_proof, item_id, reservation_id) {
            Ok(x) => x,
            Err(e) => {
                return Err(e);
            },
        };
        let ghost pre = *self;
        let r = self.items[k].reservations[i].offer_partial_refund(refund_amount);
        proof {
            lemma_changed_one(pre, *self, k as int, i as int);
        }
        if r.is_ok() {
            self.events.push(
                Event::ReservationRefundOffer(
                    ReservationRefundOfferEvent { reservation_id, refund_amount },
                ),
            );
        }
        r
    }

    /// The item's owner takes the payment of a reservation.
    pub fn get_payment(&mut self, user_proof: &Credential, item_id: u64, reservation_id: u64, now: i64) -> (r:
        Result<Bucket, BookingError>)
        requires
            old(self).wf(),
        ensures
            final(self).wf(),
            match old(self).owner_lookup(*user_proof, item_id, reservation_id) {
                Some(e) => r == Err::<Bucket, BookingError>(e) && *final(self) == *old(self),
                None => old(self).changed_only(final(self), item_id, reservation_id)
                    && get_payment_post(
                    old(self).reservation(item_id, reservation_id),
                    final(self).reservation(item_id, reservation_id),
                    old(self).payment_delay,
                    now,
                    r,
                ) && (r matches Ok(b) ==> final(self).logged(
                    old(self),
                    Event::ReservationGetPayment(
                        ReservationGetPaymentEvent {
                            reservation_id,
                            old_status: old(self).reservation(item_id, reservation_id).status,
                            new_status: final(self).reservation(item_id, reservation_id).status,
                            payment_amount: b.amount,
                        },
                    ),
                )) && (r is Err ==> final(self).events@ == old(self).events@),
            },
    {
        let (k, i) = match self.owner_locate(user_proof, item_id, reservation_id) {
            Ok(x) => x,
            Err(e) => {
                return Err(e);
            },
        };
        let ghost pre = *self;
        let delay = self.payment_delay;
        let old_status = self.items[k].reservations[i].status;
        let r = self.items[k].reservations[i].get_payment(delay, now);
        proof {
            lemma_changed_one(pre, *self, k as int, i as int);
        }
        if let Ok(b) = &r {
            let new_status = self.items[k].reservations[i].status;
            self.events.push(
                Event::ReservationGetPayment(
                    ReservationGetPaymentEvent {
                        reservation_id,
                        old_status,
                        new_status,
                        payment_amount: b.amount,
                    },
                ),
            );
        }
        r
    }

    /// Why an arbitrator's vote with `c` is refused before the reservation is
    /// asked, if it is.
    pub open spec fn vote_check(
        &self,
        c: Credential,
        item_id: u64,
        reservation_id: u64,
        refund_percentage: Decimal,
    ) -> Option<BookingError> {
        match c {
            Credential::Arbitrator { id } => if !(1 <= id <= self.last_arbitrator_id) {
                Some(BookingError::InvalidCredential)
            } else if !(0 <= refund_percentage@ <= 100 * SCALE) {
                Some(BookingError::BadArgument)
            } else if !self.has_item(item_id) {
                Some(BookingError::ItemNotFound)
            } else if !self.has_reservation(item_id, reservation_id) {
                Some(BookingError::ReservationNotFound)
            } else {
                None
            },
            _ => Some(BookingError::InvalidCredential),
        }
    }

    /// An arbitrator votes on a dispute; `true` when the vote ended it.
    pub fn dispute_vote(
        &mut self,
        arbitrator_proof: &Credential,
        item_id: u64,
        reservation_id: u64,
        refund_percentage: Decimal,
    ) -> (r: Result<bool, BookingError>)
        requires
            old(self).wf(),
        ensures
            final(self).wf(),
            match old(self).vote_check(*arbitrator_proof, item_id, reservation_id, refund_percentage) {
                Some(e) => r == Err::<bool, BookingError>(e) && *final(self) == *old(self),
                None => (*arbitrator_proof) matches Credential::Arbitrator { id } && old(self).changed_only(
                    final(self),
                    item_id,
                    reservation_id,
                ) && dispute_vote_post(
                    old(self).reservation(item_id, reservation_id),
                    final(self).reservation(item_id, reservation_id),
                    id,
                    refund_percentage,
                    old(self).min_arbitrators,
                    r,
                ) && ({
                    let post = final(self).reservation(item_id, reservation_id);
                    let vote = Event::DisputeVote(
                        DisputeVoteEvent {
                            reservation_id,
                            arbitrator_id: id,
                            number_of_voters: post.dispute_votes@.len() as usize,
                            min_arbitrators: old(self).min_arbitrators,
                            dispute_votes_sum: post.dispute_votes_sum,
                        },
                    );
                    &&& r == Ok::<bool, BookingError>(false) ==> final(self).logged(old(self), vote)
                    &&& r == Ok::<bool, BookingError>(true) ==> final(self).logged_two(
                        old(self),
                        vote,
                        Event::DisputeVoteTerminated(
                            DisputeVoteTerminatedEvent {
                                reservation_id,
                                refund_amount: post.refund_amount,
                                to_owner: post.to_owner,
                            },
                        ),
                    )
                    &&& r is Err ==> final(self).events@ == old(self).events@
                }),
            },
    {
        let arbitrator_id = match *arbitrator_proof {
            Credential::Arbitrator { id } => {
                if id < 1 || id > self.last_arbitrator_id {
                    return Err(BookingError::InvalidCredential);
                }
                id
            },
            _ => {
                return Err(BookingError::InvalidCredential);
            },
        };
        if refund_percentage.is_negative() || !refund_percentage.le(Decimal::from_units(100)) {
            return Err(BookingError::BadArgument);
        }
        let n = self.items.len();
        if item_id < 1 || item_id > n as u64 {
            return Err(BookingError::ItemNotFound);
        }
        let (k, i) = match self.locate(item_id, reservation_id) {
            Ok(x) => x,
            Err(e) => {
                return Err(e);
            },
        };
        let ghost pre = *self;
        let min_arbitrators = self.min_arbitrators;
        let r = self.items[k].reservations[i].dispute_vote(
            arbitrator_id,
            refund_percentage,
            min_arbitrators,
        );
        proof {
            lemma_changed_one(pre, *self, k as int, i as int);
        }
        if let Ok(done) = r {
            let number_of_voters = self.items[k].reservations[i].dispute_votes.len();
            let dispute_votes_sum = self.items[k].reservations[i].dispute_votes_sum;
            self.events.push(
                Event::DisputeVote(
                    DisputeVoteEvent {
                        reservation_id,
                        arbitrator_id,
                        number_of_voters,
                        min_arbitrators,
                        dispute_votes_sum,
                    },
                ),
            );
            if done {
                let refund_amount = self.items[k].reservations[i].refund_amount;
                let to_owner = self.items[k].reservations[i].to_owner;
                self.events.push(
                    Event::DisputeVoteTerminated(
                        DisputeVoteTerminatedEvent { reservation_id, refund_amount, to_owner },
                    ),
                );
            }
        }
        r
    }
}

/// Authorization: an owner's call refuses a credential that is not a user
/// credential this system issued, and a user who does not own the item; a
/// customer's call refuses any credential but a reservation credential; an
/// arbitrator's vote refuses any credential but an issued arbitrator
/// credential. Each such call then leaves the system as it was.
pub proof fn lemma_authorization(sys: BookingSystem, c: Credential, item_id: u64, id: u64, p: Decimal)
    requires
        sys.wf(),
    ensures
        sys.user_of(c) is None ==> sys.owner_check(c, item_id) == Some(
            BookingError::InvalidCredential,
        ) && sys.owner_lookup(c, item_id, id) == Some(BookingError::InvalidCredential),
        sys.has_item(item_id) && sys.user_of(c) is Some && sys.user_of(c)->0 != sys.item(
            item_id,
        ).owner_id ==> sys.owner_check(c, item_id) == Some(BookingError::NotAuthorized)
            && sys.owner_lookup(c, item_id, id) == Some(BookingError::NotAuthorized),
        !(c is Reservation) ==> sys.customer_lookup(c) == Err::<(u64, u64), BookingError>(
            BookingError::InvalidCredential,
        ),
        !(c is Arbitrator) ==> sys.vote_check(c, item_id, id, p) == Some(
            BookingError::InvalidCredential,
        ),
{
}

/// After one reservation of a well-formed system was replaced by a
/// well-formed one for the same booking, with a cancelled reservation staying
/// cancelled, the system is still well formed and nothing else changed.
pub proof fn lemma_changed_one(pre: BookingSystem, post: BookingSystem, k: int, i: int)
    requires
        pre.wf(),
        0 <= k < pre.items@.len(),
        0 <= i < pre.items@[k].reservations@.len(),
        post == (BookingSystem { items: post.items, ..pre }),
        post.items@.len() == pre.items@.len(),
        forall|j: int| 0 <= j < pre.items@.len() && j != k ==> post.items@[j] == pre.items@[j],
        post.items@[k] == (Item { reservations: post.items@[k].reservations, ..pre.items@[k] }),
        post.items@[k].reservations@ == pre.items@[k].reservations@.update(
            i,
            post.items@[k].reservations@[i],
        ),
        post.items@[k].reservations@[i].wf(),
        post.items@[k].reservations@[i].same_booking(&pre.items@[k].reservations@[i]),
        is_cancelled(pre.items@[k].reservations@[i].status) ==> is_cancelled(
            post.items@[k].reservations@[i].status,
        ),
    ensures
        post.wf(),
        ({
            let item_id = (k + 1) as u64;
            let id = pre.items@[k].reservations@[i].id;
            &&& pre.position(item_id, id) == i
            &&& pre.changed_only(&post, item_id, id)
        }),
{
    let item_id = (k + 1) as u64;
    let id = pre.items@[k].reservations@[i].id;
    assert(pre.item_ok(pre.items@[k], k));
    lemma_replace_reservation(pre.items@[k], post.items@[k], i);
    let res = pre.items@[k].reservations@;
    let pres = post.items@[k].reservations@;
    assert forall|j: int| 0 <= j < post.items@.len() implies post.item_ok(
        #[trigger] post.items@[j],
        j,
    ) by {
        assert(pre.item_ok(pre.items@[j], j));
        if j == k {
            assert forall|a: int, b: int| 0 <= a < b < pres.len() implies pres[a].id
                < pres[b].id by {
                assert(res[a].id < res[b].id);
            }
            assert forall|a: int| 0 <= a < pres.len() implies #[trigger] pres[a].id
                <= post.last_reservation_id by {
                assert(res[a].id <= pre.last_reservation_id);
            }
        }
    }
    assert(res[i].id == id);
    let p = pre.position(item_id, id);
    assert(res[p].id == id);
    if p < i {
        assert(res[p].id < res[i].id);
    }
    if p > i {
        assert(res[i].id < res[p].id);
    }
    assert(pres[i].id == id);
    let q = post.position(item_id, id);
    assert(pres[q].id == id);
    if q < i {
        assert(res[q].id < res[i].id);
    }
    if q > i {
        assert(res[i].id < res[q].id);
    }
}

} // verus!
