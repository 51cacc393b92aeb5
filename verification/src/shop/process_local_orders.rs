//! Feeding the in-store orders of a descriptor to the shop, one at a time.

use vstd::prelude::*;
use crate::shop::local_purchase::{LocalPurchase, LocalPurchaseView};

verus! {

/// The in-store orders that still have to reach the counter, next one first.
#[derive(Debug)]
pub struct ProcessLocalOrders(pub Vec<LocalPurchase>);

/// The purchases of a list as the contracts see them.
pub open spec fn purchase_list_view(orders: Seq<LocalPurchase>) -> Seq<LocalPurchaseView> {
    Seq::new(orders.len(), |i: int| orders[i]@)
}

/// The first purchase of a list and the purchases after it, or nothing
/// where the list is empty.
pub open spec fn next_purchase_step(orders: Seq<LocalPurchaseView>) -> Option<
    (LocalPurchaseView, Seq<LocalPurchaseView>),
> {
    if orders.len() == 0 {
        None
    } else {
        Some((orders[0], orders.skip(1)))
    }
}

impl ProcessLocalOrders {
    /// Takes the next purchase off the list. The caller waits
    /// `local_procesing_millis` before it hands the purchase to the shop,
    /// and then goes on with what is left, if anything is.
    pub fn next_order(self) -> (step: Option<(LocalPurchase, Option<ProcessLocalOrders>)>)
        ensures
            match next_purchase_step(purchase_list_view(self.0@)) {
                None => step is None,
                Some((first, left)) => step matches Some(taken) && taken.0@ == first
                    && match taken.1 {
                    Some(rest) => left.len() > 0 && purchase_list_view(rest.0@) == left,
                    None => left.len() == 0,
                },
            },
    {
        let ProcessLocalOrders(mut orders) = self;
        if orders.len() == 0 {
            return None;
        }
        let next = orders.remove(0);
        if orders.len() == 0 {
            Some((next, None))
        } else {
            proof {
                assert(purchase_list_view(orders@) =~= purchase_list_view(self.0@).skip(1));
            }
            Some((next, Some(ProcessLocalOrders(orders))))
        }
    }
}

} // verus!
