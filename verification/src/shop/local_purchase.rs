//! In-store purchases.

use vstd::prelude::*;
use crate::error::PurchaseError;
use crate::seek::lemma_first_position;
use crate::shop::shop_actor::{
    find_product, lemma_update_keeps_ids, product_ids, with_counts, ProductView, Shop, ShopView,
};
use crate::states::LocalPurchaseState;

verus! {

/// A purchase at the counter of a shop.
#[derive(Debug)]
pub struct LocalPurchase {
    pub product: String,
    pub quantity: u32,
    pub status: LocalPurchaseState,
}

/// An in-store purchase as the contracts see it.
pub struct LocalPurchaseView {
    pub product: Seq<char>,
    pub quantity: int,
    pub status: LocalPurchaseState,
}

impl View for LocalPurchase {
    type V = LocalPurchaseView;

    open spec fn view(&self) -> LocalPurchaseView {
        LocalPurchaseView {
            product: self.product@,
            quantity: self.quantity as int,
            status: self.status,
        }
    }
}

impl Clone for LocalPurchase {
    fn clone(&self) -> (copy: Self)
        ensures
            copy@ == self@,
    {
        LocalPurchase {
            product: self.product.clone(),
            quantity: self.quantity,
            status: self.status,
        }
    }
}

/// Whether the stock can sell `quantity` units of `product`: the shop has
/// the product, and that many units of it are available.
pub open spec fn can_take(stock: Seq<ProductView>, product: Seq<char>, quantity: int) -> bool {
    find_product(stock, product) matches Some(i) && stock[i].stock >= quantity
}

/// The stock after an in-store purchase, and how the purchase ended. A
/// purchase that the stock can take is sold, and its units leave the
/// available ones. Any other is rejected and leaves the stock as it was.
pub open spec fn local_purchase_step(stock: Seq<ProductView>, product: Seq<char>, quantity: int) -> (
    Seq<ProductView>,
    LocalPurchaseState,
) {
    if can_take(stock, product, quantity) {
        let i = find_product(stock, product)->0;
        (
            stock.update(i, with_counts(stock[i], stock[i].stock - quantity, stock[i].reserved)),
            LocalPurchaseState::SOLD,
        )
    } else {
        (stock, LocalPurchaseState::REJECTED)
    }
}

impl Shop {
    /// Handles a purchase at the counter. The caller blocks for
    /// `PURCHASE_MILLIS` first, so that one sale is served at a time.
    pub fn local_purchase(&mut self, msg: LocalPurchase) -> (sold: Result<
        LocalPurchaseState,
        PurchaseError,
    >)
        ensures
            sold == Ok::<LocalPurchaseState, PurchaseError>(
                local_purchase_step(old(self)@.stock, msg.product@, msg.quantity as int).1,
            ),
            final(self)@ == (ShopView {
                name: old(self)@.name,
                address: old(self)@.address,
                location: old(self)@.location,
                stock: local_purchase_step(old(self)@.stock, msg.product@, msg.quantity as int).0,
            }),
            sold matches Ok(status) && status.is_terminal(),
            product_ids(final(self)@.stock) == product_ids(old(self)@.stock),
            old(self).wf() ==> final(self).wf(),
    {
        let ghost before = old(self)@;
        match self.find_product_index(&msg.product) {
            Some(i) => {
                proof {
                    assert(before.stock[i as int] == self.stock[i as int]@);
                }
                if self.stock[i].stock < msg.quantity {
                    Ok(LocalPurchaseState::REJECTED)
                } else {
                    self.stock[i].stock = self.stock[i].stock - msg.quantity;
                    proof {
                        lemma_first_position(product_ids(before.stock), msg.product@);
                        lemma_update_keeps_ids(
                            before.stock,
                            i as int,
                            before.stock[i as int].stock - msg.quantity,
                            before.stock[i as int].reserved,
                        );
                        assert(self@.stock =~= local_purchase_step(
                            before.stock,
                            msg.product@,
                            msg.quantity as int,
                        ).0);
                    }
                    Ok(LocalPurchaseState::SOLD)
                }
            },
            None => Ok(LocalPurchaseState::REJECTED),
        }
    }
}

} // verus!
