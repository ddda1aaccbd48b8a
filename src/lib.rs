//! A booking and escrow engine: items with a sparse availability calendar,
//! reservations whose payment is held in escrow, and a dispute protocol
//! settled by a quorum of arbitrators.

pub mod arbitrator;
pub mod booking_system;
pub mod calendar;
pub mod decimal;
pub mod error;
pub mod item;
pub mod reservation;
pub mod user;
pub mod vault;
