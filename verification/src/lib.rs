//! The verified cores of two small TCP services.
//!
//! * [`wire`], [`model`], [`ledger`] and [`session`] make up the price service:
//!   a per-connection store of timestamped prices that is fed and queried
//!   through fixed-size binary frames.
//! * [`prime`] answers primality requests.
//!
//! The crate performs no I/O. A connection driver reads frames or lines, hands
//! them to the functions here as plain values, and writes back what they return.

pub mod ledger;
pub mod model;
pub mod prime;
pub mod session;
pub mod wire;
