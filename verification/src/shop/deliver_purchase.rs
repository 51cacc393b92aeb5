//! The delivery of a reserved purchase.

use vstd::prelude::*;
use crate::shop::online_purchase::{in_state, OnlinePurchase};
use crate::seek::lemma_first_position;
use crate::shop::shop_actor::{
    find_product, lemma_update_keeps_ids, product_ids, with_counts, ProductView, Shop, ShopView,
};
use crate::states::OnlinePurchaseState;

verus! {

/// Asks the shop to attempt the delivery of a reserved purchase.
#[derive(Debug)]
pub struct DeliverPurchase {
    pub purchase: OnlinePurchase,
}

/// Whether the stock holds a reservation of `quantity` units of `product`. A
/// product that the shop does not have holds whatever is asked: nothing of
/// it is ever counted.
pub open spec fn holds_reservation(stock: Seq<ProductView>, product: Seq<char>, quantity: int) -> bool {
    find_product(stock, product) matches Some(i) ==> stock[i].reserved >= quantity
}

/// The stock after a delivery attempt. The units leave the reserved ones
/// either way; a lost purchase gives them back to the available ones, a
/// delivered one takes them out of the shop.
pub open spec fn deliver_step(
    stock: Seq<ProductView>,
    product: Seq<char>,
    quantity: int,
    delivered: bool,
) -> Seq<ProductView> {
    match find_product(stock, product) {
        Some(i) => stock.update(
            i,
            with_counts(
                stock[i],
                if delivered {
                    stock[i].stock
                } else {
                    stock[i].stock + quantity
                },
                stock[i].reserved - quantity,
            ),
        ),
        None => stock,
    }
}

impl Shop {
    /// Tells whether the shop holds the reservation of a purchase.
    pub fn has_reservation(&self, purchase: &OnlinePurchase) -> (held: bool)
        ensures
            held == holds_reservation(self@.stock, purchase.product@, purchase.quantity as int),
    {
        match self.find_product_index(&purchase.product) {
            Some(i) => {
                proof {
                    assert(self@.stock[i as int] == self.stock[i as int]@);
                }
                self.stock[i].reserved >= purchase.quantity
            },
            None => true,
        }
    }

    /// Books the outcome of a delivery: `purchase` is in a state that a
    /// reserved purchase can reach, delivered or lost.
    pub fn settle(&mut self, purchase: &OnlinePurchase)
        requires
            old(self).wf(),
            holds_reservation(old(self)@.stock, purchase.product@, purchase.quantity as int),
            OnlinePurchaseState::RESERVED.can_become(purchase.state),
        ensures
            final(self)@ == (ShopView {
                name: old(self)@.name,
                address: old(self)@.address,
                location: old(self)@.location,
                stock: deliver_step(
                    old(self)@.stock,
                    purchase.product@,
                    purchase.quantity as int,
                    purchase.state == OnlinePurchaseState::DELIVERED,
                ),
            }),
            product_ids(final(self)@.stock) == product_ids(old(self)@.stock),
            final(self).wf(),
    {
        let ghost before = old(self)@;
        match self.find_product_index(&purchase.product) {
            Some(i) => {
                proof {
                    assert(before.stock[i as int] == self.stock[i as int]@);
                }
                self.stock[i].reserved = self.stock[i].reserved - purchase.quantity;
                match purchase.state {
                    OnlinePurchaseState::DELIVERED => {},
                    _ => {
                        self.stock[i].stock = self.stock[i].stock + purchase.quantity;
                    },
                }
                proof {
                    lemma_first_position(product_ids(before.stock), purchase.product@);
                    lemma_update_keeps_ids(
                        before.stock,
                        i as int,
                        if purchase.state == OnlinePurchaseState::DELIVERED {
                            before.stock[i as int].stock
                        } else {
                            before.stock[i as int].stock + purchase.quantity
                        },
                        before.stock[i as int].reserved - purchase.quantity,
                    );
                    assert(self@.stock =~= deliver_step(
                        before.stock,
                        purchase.product@,
                        purchase.quantity as int,
                        purchase.state == OnlinePurchaseState::DELIVERED,
                    ));
                }
            },
            None => {},
        }
    }

    /// Attempts the delivery of a reserved purchase, once `deliver_millis`
    /// have passed: draws whether it arrives, books the outcome, and hands
    /// back the purchase in its final state for the answer to the router.
    pub fn deliver_purchase(&mut self, msg: DeliverPurchase) -> (purchase: OnlinePurchase)
        requires
            old(self).wf(),
            holds_reservation(
                old(self)@.stock,
                msg.purchase.product@,
                msg.purchase.quantity as int,
            ),
        ensures
            OnlinePurchaseState::RESERVED.can_become(purchase.state),
            purchase.state.is_terminal(),
            purchase@ == in_state(msg.purchase@, purchase.state),
            final(self)@ == (ShopView {
                name: old(self)@.name,
                address: old(self)@.address,
                location: old(self)@.location,
                stock: deliver_step(
                    old(self)@.stock,
                    msg.purchase.product@,
                    msg.purchase.quantity as int,
                    purchase.state == OnlinePurchaseState::DELIVERED,
                ),
            }),
            product_ids(final(self)@.stock) == product_ids(old(self)@.stock),
            final(self).wf(),
    {
        let mut purchase = msg.purchase;
        purchase.state.deliver_attempt();
        self.settle(&purchase);
        purchase
    }
}

} // verus!
