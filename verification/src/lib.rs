//! A retail fulfillment network: shops that sell from a local stock and serve
//! online reservations, and order routers that send each online order to the
//! nearest shop that can still take it.
//!
//! The crate holds the rules of both sides as plain state transitions, each
//! with a contract over a mathematical model of the state. Sockets, timers and
//! the actor runtime live outside of it.

pub mod chance;
pub mod constants;
pub mod ecom;
pub mod error;
pub mod messages;
pub mod numeral;
pub mod seek;
pub mod shop;
pub mod states;
pub mod text;
