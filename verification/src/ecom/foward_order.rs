//! Sending an order to a shop, and the wait for its answer.

use vstd::prelude::*;
use crate::ecom::connected_shops::{ConnectedShop, ConnectedShopView};
use crate::ecom::ecom_actor::{Ecom, EcomOrder, EcomOrderView, EcomView};
use crate::ecom::process_order::ProcessOrder;

verus! {

/// Asks for an order to be written on the link of a shop. Whoever writes it
/// then waits `ECOM_MAX_WAITING_MILLIS` and reports the timeout.
#[derive(Debug)]
pub struct FowardOrder {
    pub order: EcomOrder,
    pub shop: ConnectedShop,
}

/// A forward as the contracts see it.
pub struct FowardOrderView {
    pub order: EcomOrderView,
    pub shop: ConnectedShopView,
}

impl View for FowardOrder {
    type V = FowardOrderView;

    open spec fn view(&self) -> FowardOrderView {
        FowardOrderView { order: self.order@, shop: self.shop@ }
    }
}

/// The order to route again when the wait for zone `zone_id` to answer for
/// order `id` runs out: the pending order of that id, if that zone is still
/// the last one it was sent to. If the order is settled, or was sent on to
/// another shop since, the timeout asks for nothing.
pub open spec fn loss_timeout_step(ecom: EcomView, id: u32, zone_id: i32) -> Option<
    EcomOrderView,
> {
    if ecom.pending_orders.contains_key(id) && ecom.pending_orders[id].shops_requested.len() > 0
        && ecom.pending_orders[id].shops_requested.last() == zone_id {
        Some(ecom.pending_orders[id])
    } else {
        None
    }
}

impl Ecom {
    /// Decides what to do when the wait for an answer to `msg` runs out. The
    /// router itself never changes.
    pub fn loss_timeout(&self, msg: &FowardOrder) -> (retry: Option<ProcessOrder>)
        ensures
            match loss_timeout_step(self@, msg.order.id, msg.shop.zone_id) {
                Some(order) => retry matches Some(next) && next.0@ == order,
                None => retry is None,
            },
            !self@.pending_orders.contains_key(msg.order.id) ==> retry is None,
            self@.pending_orders.contains_key(msg.order.id) && (
            self@.pending_orders[msg.order.id].shops_requested.len() == 0
                || self@.pending_orders[msg.order.id].shops_requested.last() != msg.shop.zone_id)
                ==> retry is None,
    {
        let order = match self.pending_orders.get(&msg.order.id) {
            Some(order) => order,
            None => {
                return None;
            },
        };
        let sent = order.shops_requested.len();
        if sent == 0 {
            return None;
        }
        if order.shops_requested[sent - 1] == msg.shop.zone_id {
            Some(ProcessOrder(order.clone()))
        } else {
            None
        }
    }
}

} // verus!
