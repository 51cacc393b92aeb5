//! What a router tells of a purchase.

pub mod ecom_purchase;
