use booking_system::booking_system::{BookingSystem, Credential, Event};
use booking_system::decimal::{div_round_half_even, quorum_refund, Decimal};
use booking_system::error::BookingError;
use booking_system::item::{NewAvailabilityIntervalEvent, UpdateAvailabilityIntervalEvent};
use booking_system::reservation::{
    DisputeVoteEvent, DisputeVoteTerminatedEvent, NewReservationEvent, ReservationRefundEvent,
    ReservationStatus,
};
use booking_system::user::NewUserEvent;
use booking_system::vault::Bucket;

const COIN: u64 = 7;
const HOUR: i64 = 3600;
const DAY: i64 = 86400;

fn units(n: i64) -> Decimal {
    Decimal::from_units(n)
}

fn wallet(n: i64) -> Bucket {
    Bucket::new(COIN, units(n))
}

/// A system with three arbitrators per dispute, an owner, and one item that is
/// available from `t = 1_000_000` at 10 per hour.
fn setup() -> (BookingSystem, Credential, u64) {
    let mut sys = BookingSystem::new();
    sys.set_min_arbitrators(&Credential::Admin, 3).unwrap();
    sys.set_payment_delay(&Credential::Admin, 0).unwrap();
    let owner = sys.new_user().unwrap();
    let item = sys.new_item(&owner, HOUR, COIN, DAY).unwrap();
    sys.add_or_modify_availability_interval(&owner, item, 1_000_000, true, Some(units(10)), 0)
        .unwrap();
    (sys, owner, item)
}

fn status(sys: &BookingSystem, item: u64, id: u64) -> ReservationStatus {
    let it = &sys.items[(item - 1) as usize];
    it.reservations.iter().find(|r| r.id == id).unwrap().status
}

fn vault_of(sys: &BookingSystem, item: u64, id: u64) -> Decimal {
    let it = &sys.items[(item - 1) as usize];
    it.reservations.iter().find(|r| r.id == id).unwrap().vault.amount
}

fn customer_credential(id: u64, item: u64) -> Credential {
    Credential::Reservation { id, item_id: item }
}

#[test]
fn test_booking_system() {
    let mut sys = BookingSystem::new();
    let user = sys.new_user().unwrap();
    assert_eq!(user, Credential::User { id: 1 });
    assert_eq!(sys.min_arbitrators, 1);
    assert_eq!(sys.payment_delay, 0);
}

#[test]
fn happy_path_booking_and_payout() {
    let (mut sys, owner, item) = setup();
    let customer = sys.new_user().unwrap();
    let mut money = wallet(50);
    let nft = sys
        .new_reservation(&customer, item, 1_003_600, 1_010_800, &mut money, 0)
        .unwrap();
    assert_eq!(money.amount, units(30));
    assert_eq!(vault_of(&sys, item, nft.id), units(20));
    assert_eq!(nft.max_cancellation_time, 1_003_600 - DAY);
    let paid = sys.get_payment(&owner, item, nft.id, 1_010_800).unwrap();
    assert_eq!(paid.amount, units(20));
    assert_eq!(paid.currency, COIN);
    assert_eq!(status(&sys, item, nft.id), ReservationStatus::Completed);
    assert_eq!(vault_of(&sys, item, nft.id), units(0));
}

#[test]
fn payment_before_end_is_too_early() {
    let (mut sys, owner, item) = setup();
    let customer = sys.new_user().unwrap();
    let mut money = wallet(20);
    let nft = sys
        .new_reservation(&customer, item, 1_003_600, 1_010_800, &mut money, 0)
        .unwrap();
    assert_eq!(sys.get_payment(&owner, item, nft.id, 1_010_799), Err(BookingError::TooEarly));
    sys.set_payment_delay(&Credential::Admin, 100).unwrap();
    assert_eq!(sys.get_payment(&owner, item, nft.id, 1_010_899), Err(BookingError::TooEarly));
    assert_eq!(sys.get_payment(&owner, item, nft.id, 1_010_900).unwrap().amount, units(20));
}

#[test]
fn customer_cancels_in_time() {
    let (mut sys, _owner, item) = setup();
    let customer = sys.new_user().unwrap();
    let mut money = wallet(20);
    let nft = sys
        .new_reservation(&customer, item, 1_003_600, 1_010_800, &mut money, 0)
        .unwrap();
    let cred = customer_credential(nft.id, item);
    let back = sys.reservation_cancellation_by_customer(&cred, 1000).unwrap();
    assert_eq!(back.amount, units(20));
    assert_eq!(status(&sys, item, nft.id), ReservationStatus::CustomerCancelled);
    assert_eq!(
        sys.reservation_cancellation_by_customer(&cred, 1000).map(|b| b.amount),
        Err(BookingError::WrongState)
    );
}

#[test]
fn customer_cancels_too_late() {
    let (mut sys, _owner, item) = setup();
    let customer = sys.new_user().unwrap();
    let mut money = wallet(20);
    let nft = sys
        .new_reservation(&customer, item, 1_003_600, 1_010_800, &mut money, 0)
        .unwrap();
    let cred = customer_credential(nft.id, item);
    let deadline = 1_003_600 - DAY;
    assert!(sys.reservation_cancellation_by_customer(&cred, deadline + 1).is_err());
    assert_eq!(status(&sys, item, nft.id), ReservationStatus::Booked);
    assert_eq!(
        sys.reservation_cancellation_by_customer(&cred, deadline).unwrap().amount,
        units(20)
    );
}

#[test]
fn calendar_walk_across_price_change() {
    let mut sys = BookingSystem::new();
    let owner = sys.new_user().unwrap();
    let item = sys.new_item(&owner, HOUR, COIN, DAY).unwrap();
    sys.add_or_modify_availability_interval(&owner, item, 0, true, Some(units(10)), -10).unwrap();
    sys.add_or_modify_availability_interval(&owner, item, 7200, true, Some(units(20)), -10)
        .unwrap();
    let customer = sys.new_user().unwrap();
    let mut money = wallet(100);
    let nft = sys.new_reservation(&customer, item, 0, 10_800, &mut money, -10).unwrap();
    assert_eq!(vault_of(&sys, item, nft.id), units(40));
    assert_eq!(money.amount, units(60));
}

#[test]
fn conflict_rejection() {
    let (mut sys, _owner, item) = setup();
    let first = sys.new_user().unwrap();
    let second = sys.new_user().unwrap();
    let mut a = wallet(10);
    let mut b = wallet(10);
    let nft = sys.new_reservation(&first, item, 1_003_600, 1_007_200, &mut a, 0).unwrap();
    assert_eq!(
        sys.new_reservation(&second, item, 1_003_600, 1_007_200, &mut b, 0),
        Err(BookingError::Conflict)
    );
    assert_eq!(b.amount, units(10));
    sys.reservation_cancellation_by_customer(&customer_credential(nft.id, item), 0).unwrap();
    let retry = sys.new_reservation(&second, item, 1_003_600, 1_007_200, &mut b, 0).unwrap();
    assert_eq!(b.amount, units(0));
    assert_eq!(status(&sys, item, retry.id), ReservationStatus::Booked);
}

#[test]
fn adjacent_bookings_do_not_conflict() {
    let (mut sys, _owner, item) = setup();
    let customer = sys.new_user().unwrap();
    let mut money = wallet(100);
    sys.new_reservation(&customer, item, 1_003_600, 1_007_200, &mut money, 0).unwrap();
    sys.new_reservation(&customer, item, 1_007_200, 1_010_800, &mut money, 0).unwrap();
    assert_eq!(money.amount, units(80));
    assert_eq!(
        sys.new_reservation(&customer, item, 1_000_000, 1_007_200, &mut money, 0),
        Err(BookingError::Conflict)
    );
}

/// Books one hour at 100 and opens a dispute on it.
fn disputed() -> (BookingSystem, Credential, u64, u64) {
    let mut sys = BookingSystem::new();
    sys.set_min_arbitrators(&Credential::Admin, 3).unwrap();
    let owner = sys.new_user().unwrap();
    let item = sys.new_item(&owner, HOUR, COIN, DAY).unwrap();
    sys.add_or_modify_availability_interval(&owner, item, 1_000_000, true, Some(units(100)), 0)
        .unwrap();
    let customer = sys.new_user().unwrap();
    let mut money = wallet(100);
    let nft = sys.new_reservation(&customer, item, 1_003_600, 1_007_200, &mut money, 0).unwrap();
    sys.start_dispute(&customer_credential(nft.id, item)).unwrap();
    assert_eq!(status(&sys, item, nft.id), ReservationStatus::Disputing);
    (sys, owner, item, nft.id)
}

#[test]
fn dispute_quorum_split() {
    let (mut sys, owner, item, id) = disputed();
    let a1 = sys.get_arbitrator_badge(&Credential::Admin).unwrap();
    let a2 = sys.get_arbitrator_badge(&Credential::Admin).unwrap();
    let a3 = sys.get_arbitrator_badge(&Credential::Admin).unwrap();
    assert_eq!(sys.dispute_vote(&a1, item, id, units(30)), Ok(false));
    assert_eq!(sys.dispute_vote(&a2, item, id, units(60)), Ok(false));
    assert_eq!(sys.dispute_vote(&a3, item, id, units(90)), Ok(true));
    assert_eq!(status(&sys, item, id), ReservationStatus::DisputeTerminated);
    let refund = sys.get_refund(&customer_credential(id, item)).unwrap();
    assert_eq!(refund.amount, units(60));
    let payment = sys.get_payment(&owner, item, id, 0).unwrap();
    assert_eq!(payment.amount, units(40));
    assert_eq!(vault_of(&sys, item, id), units(0));
}

#[test]
fn votes_after_quorum_are_refused() {
    let (mut sys, _owner, item, id) = disputed();
    sys.set_min_arbitrators(&Credential::Admin, 1).unwrap();
    let a1 = sys.get_arbitrator_badge(&Credential::Admin).unwrap();
    let a2 = sys.get_arbitrator_badge(&Credential::Admin).unwrap();
    assert_eq!(sys.dispute_vote(&a1, item, id, units(50)), Ok(true));
    assert_eq!(sys.dispute_vote(&a2, item, id, units(10)), Err(BookingError::WrongState));
    let refund = sys.get_refund(&customer_credential(id, item)).unwrap();
    assert_eq!(refund.amount, units(50));
}

#[test]
fn revote_replaces_the_earlier_vote() {
    let (mut sys, _owner, item, id) = disputed();
    let a1 = sys.get_arbitrator_badge(&Credential::Admin).unwrap();
    assert_eq!(sys.dispute_vote(&a1, item, id, units(30)), Ok(false));
    assert_eq!(sys.dispute_vote(&a1, item, id, units(70)), Ok(false));
    let r = sys.items[(item - 1) as usize].reservations.iter().find(|r| r.id == id).unwrap();
    assert_eq!(r.dispute_votes.len(), 1);
    assert_eq!(r.dispute_votes_sum, units(70));
}

#[test]
fn vote_out_of_range_is_refused() {
    let (mut sys, _owner, item, id) = disputed();
    let a1 = sys.get_arbitrator_badge(&Credential::Admin).unwrap();
    assert_eq!(sys.dispute_vote(&a1, item, id, units(101)), Err(BookingError::BadArgument));
    assert_eq!(sys.dispute_vote(&a1, item, id, units(-1)), Err(BookingError::BadArgument));
    assert_eq!(
        sys.dispute_vote(&Credential::Arbitrator { id: 9 }, item, id, units(10)),
        Err(BookingError::InvalidCredential)
    );
}

#[test]
fn owner_partial_offer_accepted() {
    let (mut sys, owner, item, id) = disputed();
    sys.offer_partial_refund(&owner, item, id, units(25)).unwrap();
    let refund = sys.get_refund(&customer_credential(id, item)).unwrap();
    assert_eq!(refund.amount, units(25));
    assert_eq!(status(&sys, item, id), ReservationStatus::DisputeTerminated);
    let payment = sys.get_payment(&owner, item, id, 0).unwrap();
    assert_eq!(payment.amount, units(75));
    assert_eq!(vault_of(&sys, item, id), units(0));
}

#[test]
fn partial_offer_bounds() {
    let (mut sys, owner, item, id) = disputed();
    assert_eq!(sys.offer_partial_refund(&owner, item, id, units(0)), Err(BookingError::BadArgument));
    assert_eq!(
        sys.offer_partial_refund(&owner, item, id, units(101)),
        Err(BookingError::BadArgument)
    );
    assert_eq!(sys.offer_partial_refund(&owner, item, id, units(100)), Ok(()));
}

#[test]
fn owner_cancellation_then_refund() {
    let (mut sys, owner, item) = setup();
    let customer = sys.new_user().unwrap();
    let mut money = wallet(20);
    let nft = sys.new_reservation(&customer, item, 1_003_600, 1_010_800, &mut money, 0).unwrap();
    sys.reservation_cancellation_by_owner(&owner, item, nft.id).unwrap();
    assert_eq!(status(&sys, item, nft.id), ReservationStatus::OwnerCancelled);
    let shown = sys.reservation_nft(item, nft.id).unwrap();
    assert_eq!(shown.status, ReservationStatus::OwnerCancelled);
    assert_eq!(shown.start_time, 1_003_600);
    assert!(sys.reservation_nft(item, nft.id + 1).is_none());
    let cred = customer_credential(nft.id, item);
    assert_eq!(sys.start_dispute(&cred), Err(BookingError::WrongState));
    assert_eq!(sys.get_refund(&cred).unwrap().amount, units(20));
    assert_eq!(sys.get_refund(&cred).unwrap().amount, units(0));
    assert_eq!(
        sys.get_payment(&owner, item, nft.id, 2_000_000).map(|b| b.amount),
        Err(BookingError::WrongState)
    );
}

#[test]
fn authorization_is_enforced() {
    let (mut sys, owner, item) = setup();
    let stranger = sys.new_user().unwrap();
    let mut money = wallet(20);
    let nft = sys.new_reservation(&stranger, item, 1_003_600, 1_010_800, &mut money, 0).unwrap();
    assert_eq!(
        sys.reservation_cancellation_by_owner(&stranger, item, nft.id),
        Err(BookingError::NotAuthorized)
    );
    assert_eq!(
        sys.add_or_modify_availability_interval(&stranger, item, 0, false, None, 0),
        Err(BookingError::NotAuthorized)
    );
    assert_eq!(
        sys.reservation_cancellation_by_owner(&Credential::Admin, item, nft.id),
        Err(BookingError::InvalidCredential)
    );
    assert_eq!(
        sys.reservation_cancellation_by_owner(&Credential::User { id: 99 }, item, nft.id),
        Err(BookingError::InvalidCredential)
    );
    assert_eq!(sys.start_dispute(&owner), Err(BookingError::InvalidCredential));
    assert_eq!(
        sys.start_dispute(&customer_credential(99, item)),
        Err(BookingError::InvalidCredential)
    );
    assert_eq!(sys.set_payment_delay(&owner, 5), Err(BookingError::NotAuthorized));
    assert_eq!(sys.set_min_arbitrators(&owner, 5), Err(BookingError::NotAuthorized));
    assert_eq!(
        sys.get_arbitrator_badge(&owner),
        Err(BookingError::NotAuthorized)
    );
    assert_eq!(status(&sys, item, nft.id), ReservationStatus::Booked);
    assert_eq!(sys.min_arbitrators, 3);
}

#[test]
fn lookups_fail_cleanly() {
    let (mut sys, owner, item) = setup();
    assert_eq!(
        sys.reservation_cancellation_by_owner(&owner, 42, 1),
        Err(BookingError::ItemNotFound)
    );
    assert_eq!(
        sys.reservation_cancellation_by_owner(&owner, item, 1),
        Err(BookingError::ReservationNotFound)
    );
    let customer = sys.new_user().unwrap();
    let mut money = wallet(20);
    let nft = sys.new_reservation(&customer, item, 1_003_600, 1_010_800, &mut money, 0).unwrap();
    assert_eq!(
        sys.get_refund(&customer_credential(nft.id, 42)).map(|b| b.amount),
        Err(BookingError::ItemNotFound)
    );
    let mut other = wallet(20);
    assert_eq!(
        sys.new_reservation(&customer, 42, 1_003_600, 1_010_800, &mut other, 0),
        Err(BookingError::ItemNotFound)
    );
}

#[test]
fn admission_failures() {
    let (mut sys, owner, item) = setup();
    sys.add_or_modify_availability_interval(&owner, item, 1_036_000, false, None, 0).unwrap();
    let customer = sys.new_user().unwrap();
    let mut money = wallet(1000);
    let mut book = |s: &mut BookingSystem, start: i64, end: i64, now: i64, m: &mut Bucket| {
        s.new_reservation(&customer, item, start, end, m, now).map(|n| n.id)
    };
    assert_eq!(book(&mut sys, 1_003_600, 1_007_200, 1_003_600, &mut money), Err(BookingError::BadArgument));
    assert_eq!(book(&mut sys, 1_003_600, 1_005_400, 0, &mut money), Err(BookingError::BadArgument));
    assert_eq!(book(&mut sys, 1_003_600, 1_009_000, 0, &mut money), Err(BookingError::BadArgument));
    assert_eq!(book(&mut sys, 900_000, 903_600, 0, &mut money), Err(BookingError::NoAvailability));
    assert_eq!(book(&mut sys, 1_001_800, 1_005_400, 0, &mut money), Err(BookingError::Misaligned));
    assert_eq!(book(&mut sys, 1_032_400, 1_039_600, 0, &mut money), Err(BookingError::Unavailable));
    let mut poor = wallet(5);
    assert_eq!(book(&mut sys, 1_003_600, 1_007_200, 0, &mut poor), Err(BookingError::InsufficientFunds));
    assert_eq!(poor.amount, units(5));
    let mut foreign = Bucket::new(COIN + 1, units(100));
    assert_eq!(book(&mut sys, 1_003_600, 1_007_200, 0, &mut foreign), Err(BookingError::WrongCurrency));
    assert_eq!(money.amount, units(1000));
    assert_eq!(sys.items[0].reservations.len(), 0);
}

#[test]
fn bad_item_and_interval_arguments() {
    let mut sys = BookingSystem::new();
    let owner = sys.new_user().unwrap();
    assert_eq!(sys.new_item(&owner, 0, COIN, DAY), Err(BookingError::BadArgument));
    assert_eq!(sys.new_item(&owner, HOUR, COIN, -1), Err(BookingError::BadArgument));
    assert_eq!(sys.new_item(&Credential::Admin, HOUR, COIN, DAY), Err(BookingError::InvalidCredential));
    let item = sys.new_item(&owner, HOUR, COIN, DAY).unwrap();
    assert_eq!(sys.users[0].owned_items, vec![item]);
    assert_eq!(
        sys.add_or_modify_availability_interval(&owner, item, 0, true, None, 0),
        Err(BookingError::BadArgument)
    );
    assert_eq!(
        sys.add_or_modify_availability_interval(&owner, item, 0, true, Some(units(0)), 0),
        Err(BookingError::BadArgument)
    );
    assert_eq!(sys.set_payment_delay(&Credential::Admin, -1), Err(BookingError::BadArgument));
    assert_eq!(sys.set_min_arbitrators(&Credential::Admin, 0), Err(BookingError::BadArgument));
}

#[test]
fn calendar_is_pruned_and_kept_sorted() {
    let mut sys = BookingSystem::new();
    let owner = sys.new_user().unwrap();
    let item = sys.new_item(&owner, HOUR, COIN, DAY).unwrap();
    for t in [300, 100, 200, 400] {
        sys.add_or_modify_availability_interval(&owner, item, t, true, Some(units(1)), 0).unwrap();
    }
    let starts: Vec<i64> = sys.items[0].availability_intervals.iter().map(|e| e.start_time).collect();
    assert_eq!(starts, vec![100, 200, 300, 400]);
    // at now = 250 the entries before 200 are dropped; 300 is updated in place
    sys.add_or_modify_availability_interval(&owner, item, 300, false, None, 250).unwrap();
    let cal = &sys.items[0].availability_intervals;
    let starts: Vec<i64> = cal.iter().map(|e| e.start_time).collect();
    assert_eq!(starts, vec![200, 300, 400]);
    assert!(!cal[1].available);
    // at now = 50 nothing is dropped
    sys.add_or_modify_availability_interval(&owner, item, 250, true, Some(units(2)), 50).unwrap();
    let starts: Vec<i64> = sys.items[0].availability_intervals.iter().map(|e| e.start_time).collect();
    assert_eq!(starts, vec![200, 250, 300, 400]);
}

#[test]
fn quorum_refund_rounds_half_to_even() {
    assert_eq!(div_round_half_even(5, 2), 2);
    assert_eq!(div_round_half_even(7, 2), 4);
    assert_eq!(div_round_half_even(7, 3), 2);
    assert_eq!(div_round_half_even(8, 3), 3);
    assert_eq!(quorum_refund(units(100), units(180), 3), units(60));
    assert_eq!(quorum_refund(units(100), units(0), 2), units(0));
    assert_eq!(quorum_refund(units(100), units(200), 2), units(100));
    // a third of 1 unit: 333333333333333333.33.. attos
    assert_eq!(quorum_refund(units(1), units(100), 3), Decimal::from_attos(333_333_333_333_333_333));
}

#[test]
fn decimal_arithmetic() {
    assert_eq!(units(2).checked_add(units(3)), Some(units(5)));
    assert_eq!(units(2).checked_sub(units(3)), Some(units(-1)));
    assert_eq!(Decimal::from_attos(i128::MAX).checked_add(Decimal::from_attos(1)), None);
    assert_eq!(units(1).attos, 1_000_000_000_000_000_000);
}

#[test]
fn calendar_events_tell_insert_from_update() {
    let mut sys = BookingSystem::new();
    let owner = sys.new_user().unwrap();
    assert_eq!(sys.events[0], Event::NewUser(NewUserEvent { user_id: 1 }));
    let item = sys.new_item(&owner, HOUR, COIN, DAY).unwrap();
    sys.add_or_modify_availability_interval(&owner, item, 100, true, Some(units(3)), 0).unwrap();
    sys.add_or_modify_availability_interval(&owner, item, 100, false, None, 0).unwrap();
    assert_eq!(sys.events.len(), 4);
    assert_eq!(
        sys.events[2],
        Event::NewAvailabilityInterval(NewAvailabilityIntervalEvent {
            item_id: item,
            start_time: 100,
            available: true,
            price_per_minimum_reservation_period: Some(units(3)),
        })
    );
    assert_eq!(
        sys.events[3],
        Event::UpdateAvailabilityInterval(UpdateAvailabilityIntervalEvent {
            item_id: item,
            start_time: 100,
            available: false,
            price_per_minimum_reservation_period: None,
        })
    );
}

#[test]
fn dispute_events_follow_the_votes() {
    let (mut sys, _owner, item, id) = disputed();
    let before = sys.events.len();
    let a1 = sys.get_arbitrator_badge(&Credential::Admin).unwrap();
    assert_eq!(sys.dispute_vote(&a1, item, id, units(101)), Err(BookingError::BadArgument));
    assert_eq!(sys.events.len(), before + 1);
    sys.set_min_arbitrators(&Credential::Admin, 1).unwrap();
    assert_eq!(sys.dispute_vote(&a1, item, id, units(40)), Ok(true));
    assert_eq!(
        sys.events[before + 1],
        Event::DisputeVote(DisputeVoteEvent {
            reservation_id: id,
            arbitrator_id: 1,
            number_of_voters: 1,
            min_arbitrators: 1,
            dispute_votes_sum: units(40),
        })
    );
    assert_eq!(
        sys.events[before + 2],
        Event::DisputeVoteTerminated(DisputeVoteTerminatedEvent {
            reservation_id: id,
            refund_amount: units(40),
            to_owner: units(60),
        })
    );
    sys.get_refund(&customer_credential(id, item)).unwrap();
    assert_eq!(
        sys.events[before + 3],
        Event::ReservationRefund(ReservationRefundEvent {
            reservation_id: id,
            old_status: ReservationStatus::DisputeTerminated,
            new_status: ReservationStatus::DisputeTerminated,
            refund_amount: units(40),
        })
    );
}

#[test]
fn booking_event_names_the_customer() {
    let (mut sys, _owner, item) = setup();
    let customer = sys.new_user().unwrap();
    let mut money = wallet(20);
    let nft = sys.new_reservation(&customer, item, 1_003_600, 1_010_800, &mut money, 0).unwrap();
    assert_eq!(
        *sys.events.last().unwrap(),
        Event::NewReservation(NewReservationEvent {
            reservation_id: nft.id,
            item_id: item,
            customer_id: 2,
            start_time: 1_003_600,
            end_time: 1_010_800,
        })
    );
}
