//! The shop: a stock that in-store sales and online reservations share.

pub mod deliver_purchase;
pub mod ledger;
pub mod local_purchase;
pub mod online_purchase;
pub mod process_local_orders;
pub mod shop_actor;
pub mod shop_server_side;
