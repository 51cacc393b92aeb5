//! The order router: it keeps the orders that are not settled yet and sends
//! each of them to the nearest shop that has not had it.

pub mod connect_shops;
pub mod connected_shops;
pub mod connection_handling;
pub mod ecom_actor;
pub mod foward_order;
pub mod process_ecom_orders;
pub mod process_order;
pub mod routing;
