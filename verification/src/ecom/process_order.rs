//! Routing of one order.

use vstd::prelude::*;
use crate::ecom::ecom_actor::{delivery_choice, Ecom, EcomOrder, EcomOrderView, EcomView};
use crate::ecom::foward_order::{FowardOrder, FowardOrderView};

verus! {

/// Asks the router to find the next shop for an order.
#[derive(Debug)]
pub struct ProcessOrder(pub EcomOrder);

/// The order that a request to route stands for: the pending order of that
/// id, or the order of the request where none is pending.
pub open spec fn order_to_route(ecom: EcomView, msg: EcomOrderView) -> EcomOrderView {
    if ecom.pending_orders.contains_key(msg.id) {
        ecom.pending_orders[msg.id]
    } else {
        msg
    }
}

/// `order` after it was sent to a shop in `zone_id`.
pub open spec fn sent_to(order: EcomOrderView, zone_id: i32) -> EcomOrderView {
    EcomOrderView {
        id: order.id,
        product_id: order.product_id,
        quantity: order.quantity,
        zone_id: order.zone_id,
        shops_requested: order.shops_requested.push(zone_id),
    }
}

/// The router after a request to route, and the order to forward. Where a
/// shop is left for the order, the order is pending with that shop's zone
/// added, and goes to that shop. Where none is left, the order is given up:
/// it is pending no more and nothing is forwarded.
pub open spec fn process_order_step(ecom: EcomView, msg: EcomOrderView) -> (
    EcomView,
    Option<FowardOrderView>,
) {
    let order = order_to_route(ecom, msg);
    match delivery_choice(ecom.shops, order) {
        None => (
            EcomView {
                name: ecom.name,
                pending_orders: ecom.pending_orders.remove(msg.id),
                shops: ecom.shops,
            },
            None,
        ),
        Some(i) => {
            let sent = sent_to(order, ecom.shops[i].zone_id);
            (
                EcomView {
                    name: ecom.name,
                    pending_orders: ecom.pending_orders.insert(msg.id, sent),
                    shops: ecom.shops,
                },
                Some(FowardOrderView { order: sent, shop: ecom.shops[i] }),
            )
        },
    }
}

/// The order of a forward, if there is one.
pub open spec fn forward_view(forward: Option<FowardOrder>) -> Option<FowardOrderView> {
    match forward {
        Some(f) => Some(f@),
        None => None,
    }
}

impl Ecom {
    /// Routes an order: sends it to the nearest shop that has not had it, or
    /// gives it up where every connected shop has had it.
    pub fn process_order(&mut self, msg: ProcessOrder) -> (forward: Option<FowardOrder>)
        ensures
            final(self)@ == process_order_step(old(self)@, msg.0@).0,
            forward_view(forward) == process_order_step(old(self)@, msg.0@).1,
            old(self).wf() ==> final(self).wf(),
            old(self).wf() ==> (forward matches Some(sent) ==> sent.order.id == msg.0.id),
    {
        let ProcessOrder(asked) = msg;
        let id = asked.id;
        let ghost before = old(self)@;
        let ghost route = order_to_route(before, asked@);
        let mut order = match self.pending_orders.remove(&id) {
            Some(pending) => pending,
            None => asked,
        };
        assert(order@ == route);
        assert(self@.shops == before.shops);
        let shop = match self.find_delivery_shop(&order) {
            Some(shop) => shop,
            None => {
                proof {
                    assert(self@.pending_orders =~= before.pending_orders.remove(id));
                }
                return None;
            },
        };
        order.shops_requested.push(shop.zone_id);
        let sent = order.clone();
        self.pending_orders.insert(id, order);
        proof {
            if old(self).wf() {
                assert(route.id == id);
            }
            let i = delivery_choice(before.shops, route)->0;
            assert(shop@ == before.shops[i]);
            assert(sent@ == sent_to(route, before.shops[i].zone_id));
            assert(self@.pending_orders =~= before.pending_orders.insert(id, sent@));
        }
        Some(FowardOrder { order: sent, shop })
    }
}

} // verus!
