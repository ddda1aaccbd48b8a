use vstd::prelude::*;

verus! {

/// Why a call was refused. A refused call changes nothing.
#[derive(Clone, Copy, Debug, PartialEq, Eq, Structural)]
pub enum BookingError {
    InvalidCredential,
    NotAuthorized,
    ItemNotFound,
    ReservationNotFound,
    BadArgument,
    WrongState,
    NoAvailability,
    Misaligned,
    Unavailable,
    Conflict,
    TooEarly,
    WrongCurrency,
    InsufficientFunds,
    Overflow,
}

} // verus!
