//! Taking in the shops that were called when the router started.

use vstd::prelude::*;
use crate::ecom::connected_shops::{ConnectedShop, ConnectedShopView};
use crate::ecom::ecom_actor::{Ecom, EcomView};

verus! {

/// Asks the router to take in the shops of its directory.
#[derive(Debug)]
pub struct ConnectShops;

/// The shops that picked up, in the order they were called.
pub open spec fn picked_up(calls: Seq<(String, i32, Option<u64>)>) -> Seq<ConnectedShopView>
    decreases calls.len(),
{
    if calls.len() == 0 {
        Seq::empty()
    } else {
        let before = picked_up(calls.drop_last());
        match calls.last().2 {
            Some(stream) => before.push(
                ConnectedShopView { name: calls.last().0@, zone_id: calls.last().1, stream },
            ),
            None => before,
        }
    }
}

impl Ecom {
    /// Takes in the outcome of calling every shop of the directory. The
    /// shops that picked up join the router's shops in the order they were
    /// called; one that did not is passed over.
    pub fn connect_shops(&mut self, _msg: ConnectShops, calls: Vec<(String, i32, Option<u64>)>)
        ensures
            final(self)@ == (EcomView {
                name: old(self)@.name,
                pending_orders: old(self)@.pending_orders,
                shops: old(self)@.shops + picked_up(calls@),
            }),
    {
        let ghost before = old(self)@;
        let mut i: usize = 0;
        proof {
            assert(calls@.take(0) =~= Seq::empty());
            assert(before.shops + picked_up(calls@.take(0)) =~= before.shops);
        }
        while i < calls.len()
            invariant
                i <= calls.len(),
                self@.name == before.name,
                self@.pending_orders == before.pending_orders,
                self@.shops == before.shops + picked_up(calls@.take(i as int)),
            decreases calls.len() - i,
        {
            proof {
                assert(calls@.take(i + 1).drop_last() =~= calls@.take(i as int));
                assert(calls@.take(i + 1).last() == calls@[i as int]);
            }
            let ghost shops = self@.shops;
            match calls[i].2 {
                Some(stream) => {
                    let name = calls[i].0.clone();
                    let shop = ConnectedShop { name, zone_id: calls[i].1, stream };
                    self.shops.push(shop);
                    proof {
                        assert(self@.shops =~= shops.push(shop@));
                        assert(shops.push(shop@) =~= before.shops + picked_up(
                            calls@.take(i + 1),
                        ));
                    }
                },
                None => {},
            }
            i = i + 1;
        }
        proof {
            assert(calls@.take(calls.len() as int) =~= calls@);
        }
    }
}

} // verus!
