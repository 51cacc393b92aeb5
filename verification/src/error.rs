//! Error kinds of the network.

use vstd::prelude::*;

verus! {

/// How a purchase can fail as a whole.
#[derive(Debug, Clone, Copy, PartialEq, Eq, Structural)]
pub enum PurchaseError {
    OutOfStock,
    NotDelivered,
}

/// Why a descriptor could not be loaded.
#[derive(Debug, Clone, Copy, PartialEq, Eq, Structural)]
pub enum FileError {
    NotFound,
    WrongFormat,
}

/// What went wrong on a link between a router and a shop.
#[derive(Debug, Clone, Copy, PartialEq, Eq, Structural)]
pub enum StreamError {
    CannotCall,
    WrongFormat,
    CannotRead,
    CannotWrite,
}

} // verus!
