//! Feeding the orders of a descriptor to the router, one at a time.

use vstd::prelude::*;
use crate::ecom::ecom_actor::{EcomOrder, EcomOrderView};
use crate::ecom::process_order::ProcessOrder;

verus! {

/// The orders that still have to enter the router, next one first.
#[derive(Debug)]
pub struct ProcessEcomOrders(pub Vec<EcomOrder>);

/// The orders of a list as the contracts see them.
pub open spec fn order_list_view(orders: Seq<EcomOrder>) -> Seq<EcomOrderView> {
    Seq::new(orders.len(), |i: int| orders[i]@)
}

/// The first order of a list and the orders after it, or nothing where the
/// list is empty.
pub open spec fn next_order_step(orders: Seq<EcomOrderView>) -> Option<
    (EcomOrderView, Seq<EcomOrderView>),
> {
    if orders.len() == 0 {
        None
    } else {
        Some((orders[0], orders.skip(1)))
    }
}

impl ProcessEcomOrders {
    /// Takes the next order off the list. The caller waits
    /// `ecom_procesing_millis` before it hands the order to the router, and
    /// then goes on with what is left, if anything is.
    pub fn next_order(self) -> (step: Option<(ProcessOrder, Option<ProcessEcomOrders>)>)
        ensures
            match next_order_step(order_list_view(self.0@)) {
                None => step is None,
                Some((first, left)) => step matches Some(taken) && taken.0.0@ == first
                    && match taken.1 {
                    Some(rest) => left.len() > 0 && order_list_view(rest.0@) == left,
                    None => left.len() == 0,
                },
            },
    {
        let ProcessEcomOrders(mut orders) = self;
        if orders.len() == 0 {
            return None;
        }
        let next = orders.remove(0);
        if orders.len() == 0 {
            Some((ProcessOrder(next), None))
        } else {
            proof {
                assert(order_list_view(orders@) =~= order_list_view(self.0@).skip(1));
            }
            Some((ProcessOrder(next), Some(ProcessEcomOrders(orders))))
        }
    }
}

} // verus!
