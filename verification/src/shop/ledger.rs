//! The books of a shop over a whole history of purchases and deliveries.
//!
//! The shop itself keeps only its stock. The ledger adds what the history
//! holds besides: the reservations that are on their way, the units that
//! left the shop, and how many purchases were reserved, delivered and lost.
//! It moves by the same transitions as the shop, so what is proved of the
//! ledger's stock holds of the shop's stock after the same events.

use vstd::prelude::*;
use crate::seek::{first_position, lemma_first_position};
use crate::shop::deliver_purchase::{deliver_step, holds_reservation};
use crate::shop::local_purchase::{can_take, local_purchase_step};
use crate::shop::online_purchase::online_purchase_step;
use crate::shop::shop_actor::{
    find_product, lemma_update_keeps_ids, product_ids, stock_fits, ProductView,
};
use crate::states::{LocalPurchaseState, OnlinePurchaseState};

verus! {

/// Something that happens to a shop.
pub enum ShopEvent {
    /// A purchase comes to the counter.
    Local { product: Seq<char>, quantity: nat },
    /// A purchase comes in from a router.
    Online { product: Seq<char>, quantity: nat },
    /// The delivery of the reservation at position `slot` of those on their
    /// way is attempted, and arrives or not.
    Deliver { slot: int, delivered: bool },
}

/// Units of a product that are reserved for a purchase on its way.
pub struct Reservation {
    pub product: Seq<char>,
    pub quantity: nat,
}

/// The books of a shop.
pub struct Ledger {
    /// The stock, as the shop holds it.
    pub stock: Seq<ProductView>,
    /// The reservations whose delivery was not attempted yet, oldest first.
    pub in_flight: Seq<Reservation>,
    /// For each product, the units that were sold at the counter.
    pub sold: Seq<int>,
    /// For each product, the units that were delivered.
    pub delivered: Seq<int>,
    /// How many purchases were reserved.
    pub reserved_count: int,
    /// How many purchases were delivered.
    pub delivered_count: int,
    /// How many purchases were lost.
    pub lost_count: int,
}

/// The books of a shop before anything happened.
pub open spec fn opening(stock: Seq<ProductView>) -> Ledger {
    Ledger {
        stock,
        in_flight: Seq::empty(),
        sold: Seq::new(stock.len(), |i: int| 0int),
        delivered: Seq::new(stock.len(), |i: int| 0int),
        reserved_count: 0,
        delivered_count: 0,
        lost_count: 0,
    }
}

/// `units` with `quantity` more at the position of `product`, if the stock
/// has that product.
pub open spec fn credited(
    units: Seq<int>,
    stock: Seq<ProductView>,
    product: Seq<char>,
    quantity: int,
) -> Seq<int> {
    match find_product(stock, product) {
        Some(i) => units.update(i, units[i] + quantity),
        None => units,
    }
}

/// The books after one event. A delivery for a slot that holds no
/// reservation is no event of the shop and changes nothing.
pub open spec fn booked(ledger: Ledger, event: ShopEvent) -> Ledger {
    match event {
        ShopEvent::Local { product, quantity } => {
            let step = local_purchase_step(ledger.stock, product, quantity as int);
            Ledger {
                stock: step.0,
                in_flight: ledger.in_flight,
                sold: if step.1 == LocalPurchaseState::SOLD {
                    credited(ledger.sold, ledger.stock, product, quantity as int)
                } else {
                    ledger.sold
                },
                delivered: ledger.delivered,
                reserved_count: ledger.reserved_count,
                delivered_count: ledger.delivered_count,
                lost_count: ledger.lost_count,
            }
        },
        ShopEvent::Online { product, quantity } => {
            let step = online_purchase_step(ledger.stock, product, quantity as int);
            let reserved = step.1 == OnlinePurchaseState::RESERVED;
            Ledger {
                stock: step.0,
                in_flight: if reserved {
                    ledger.in_flight.push(Reservation { product, quantity })
                } else {
                    ledger.in_flight
                },
                sold: ledger.sold,
                delivered: ledger.delivered,
                reserved_count: if reserved {
                    ledger.reserved_count + 1
                } else {
                    ledger.reserved_count
                },
                delivered_count: ledger.delivered_count,
                lost_count: ledger.lost_count,
            }
        },
        ShopEvent::Deliver { slot, delivered } => {
            if 0 <= slot < ledger.in_flight.len() {
                let due = ledger.in_flight[slot];
                Ledger {
                    stock: deliver_step(ledger.stock, due.product, due.quantity as int, delivered),
                    in_flight: ledger.in_flight.remove(slot),
                    sold: ledger.sold,
                    delivered: if delivered {
                        credited(ledger.delivered, ledger.stock, due.product, due.quantity as int)
                    } else {
                        ledger.delivered
                    },
                    reserved_count: ledger.reserved_count,
                    delivered_count: if delivered {
                        ledger.delivered_count + 1
                    } else {
                        ledger.delivered_count
                    },
                    lost_count: if delivered {
                        ledger.lost_count
                    } else {
                        ledger.lost_count + 1
                    },
                }
            } else {
                ledger
            }
        },
    }
}

/// The books after a history of events.
pub open spec fn booked_all(ledger: Ledger, events: Seq<ShopEvent>) -> Ledger
    decreases events.len(),
{
    if events.len() == 0 {
        ledger
    } else {
        booked(booked_all(ledger, events.drop_last()), events.last())
    }
}

/// The units of product `i` that the reservations on their way hold.
pub open spec fn units_in_flight(in_flight: Seq<Reservation>, ids: Seq<Seq<char>>, i: int) -> int
    decreases in_flight.len(),
{
    if in_flight.len() == 0 {
        0
    } else {
        units_in_flight(in_flight.drop_last(), ids, i) + units_for(in_flight.last(), ids, i)
    }
}

/// The units of product `i` that one reservation holds.
pub open spec fn units_for(due: Reservation, ids: Seq<Seq<char>>, i: int) -> int {
    if first_position(ids, due.product) == Some(i) {
        due.quantity as int
    } else {
        0
    }
}

/// What holds of the books of a shop that opened with the stock `initial`,
/// whatever happened since.
pub open spec fn balanced(ledger: Ledger, initial: Seq<ProductView>) -> bool {
    &&& ledger.stock.len() == initial.len()
    &&& ledger.sold.len() == initial.len()
    &&& ledger.delivered.len() == initial.len()
    &&& product_ids(ledger.stock) == product_ids(initial)
    &&& forall|i: int|
        0 <= i < initial.len() ==> {
            &&& 0 <= (#[trigger] ledger.stock[i]).stock
            &&& 0 <= ledger.sold[i]
            &&& 0 <= ledger.delivered[i]
            &&& ledger.stock[i].stock + ledger.stock[i].reserved + ledger.sold[i]
                + ledger.delivered[i] == initial[i].stock + initial[i].reserved
            &&& ledger.stock[i].reserved == initial[i].reserved + units_in_flight(
                ledger.in_flight,
                product_ids(initial),
                i,
            )
        }
    &&& ledger.reserved_count == ledger.delivered_count + ledger.lost_count
        + ledger.in_flight.len()
    &&& 0 <= ledger.delivered_count
    &&& 0 <= ledger.lost_count
}

/// Reservations hold no negative number of units.
proof fn lemma_units_in_flight_floor(in_flight: Seq<Reservation>, ids: Seq<Seq<char>>, i: int)
    ensures
        units_in_flight(in_flight, ids, i) >= 0,
    decreases in_flight.len(),
{
    if in_flight.len() > 0 {
        lemma_units_in_flight_floor(in_flight.drop_last(), ids, i);
    }
}

/// Taking a reservation out takes its units out.
proof fn lemma_units_in_flight_remove(
    in_flight: Seq<Reservation>,
    ids: Seq<Seq<char>>,
    i: int,
    slot: int,
)
    requires
        0 <= slot < in_flight.len(),
    ensures
        units_in_flight(in_flight.remove(slot), ids, i) == units_in_flight(in_flight, ids, i)
            - units_for(in_flight[slot], ids, i),
    decreases in_flight.len(),
{
    if slot == in_flight.len() - 1 {
        assert(in_flight.remove(slot) =~= in_flight.drop_last());
    } else {
        lemma_units_in_flight_remove(in_flight.drop_last(), ids, i, slot);
        assert(in_flight.remove(slot).drop_last() =~= in_flight.drop_last().remove(slot));
        assert(in_flight.remove(slot).last() == in_flight.last());
    }
}

/// One event keeps the books balanced.
pub proof fn lemma_booked_keeps_balance(
    ledger: Ledger,
    initial: Seq<ProductView>,
    event: ShopEvent,
)
    requires
        balanced(ledger, initial),
    ensures
        balanced(booked(ledger, event), initial),
{
    let ids = product_ids(initial);
    let after = booked(ledger, event);
    match event {
        ShopEvent::Local { product, quantity } => {
            lemma_first_position(ids, product);
            if can_take(ledger.stock, product, quantity as int) {
                let p = find_product(ledger.stock, product)->0;
                lemma_update_keeps_ids(
                    ledger.stock,
                    p,
                    ledger.stock[p].stock - quantity,
                    ledger.stock[p].reserved,
                );
                assert forall|i: int| 0 <= i < initial.len() implies {
                    &&& 0 <= (#[trigger] after.stock[i]).stock
                    &&& 0 <= after.sold[i]
                    &&& 0 <= after.delivered[i]
                    &&& after.stock[i].stock + after.stock[i].reserved + after.sold[i]
                        + after.delivered[i] == initial[i].stock + initial[i].reserved
                    &&& after.stock[i].reserved == initial[i].reserved + units_in_flight(
                        after.in_flight,
                        ids,
                        i,
                    )
                } by {
                    assert(0 <= ledger.stock[i].stock);
                }
            }
        },
        ShopEvent::Online { product, quantity } => {
            lemma_first_position(ids, product);
            if can_take(ledger.stock, product, quantity as int) {
                let p = find_product(ledger.stock, product)->0;
                lemma_update_keeps_ids(
                    ledger.stock,
                    p,
                    ledger.stock[p].stock - quantity,
                    ledger.stock[p].reserved + quantity,
                );
                let due = Reservation { product, quantity };
                assert(after.in_flight.drop_last() =~= ledger.in_flight);
                assert(after.in_flight.last() == due);
                assert forall|i: int| 0 <= i < initial.len() implies {
                    &&& 0 <= (#[trigger] after.stock[i]).stock
                    &&& 0 <= after.sold[i]
                    &&& 0 <= after.delivered[i]
                    &&& after.stock[i].stock + after.stock[i].reserved + after.sold[i]
                        + after.delivered[i] == initial[i].stock + initial[i].reserved
                    &&& after.stock[i].reserved == initial[i].reserved + units_in_flight(
                        after.in_flight,
                        ids,
                        i,
                    )
                } by {
                    assert(0 <= ledger.stock[i].stock);
                    assert(units_in_flight(after.in_flight, ids, i) == units_in_flight(
                        ledger.in_flight,
                        ids,
                        i,
                    ) + units_for(due, ids, i));
                }
            }
        },
        ShopEvent::Deliver { slot, delivered } => {
            if 0 <= slot < ledger.in_flight.len() {
                let due = ledger.in_flight[slot];
                lemma_first_position(ids, due.product);
                match find_product(ledger.stock, due.product) {
                    Some(p) => {
                        lemma_update_keeps_ids(
                            ledger.stock,
                            p,
                            if delivered {
                                ledger.stock[p].stock
                            } else {
                                ledger.stock[p].stock + due.quantity
                            },
                            ledger.stock[p].reserved - due.quantity,
                        );
                    },
                    None => {},
                }
                assert forall|i: int| 0 <= i < initial.len() implies {
                    &&& 0 <= (#[trigger] after.stock[i]).stock
                    &&& 0 <= after.sold[i]
                    &&& 0 <= after.delivered[i]
                    &&& after.stock[i].stock + after.stock[i].reserved + after.sold[i]
                        + after.delivered[i] == initial[i].stock + initial[i].reserved
                    &&& after.stock[i].reserved == initial[i].reserved + units_in_flight(
                        after.in_flight,
                        ids,
                        i,
                    )
                } by {
                    assert(0 <= ledger.stock[i].stock);
                    lemma_units_in_flight_remove(ledger.in_flight, ids, i, slot);
                }
            }
        },
    }
}

/// The books of a shop stay balanced through every history.
pub proof fn lemma_books_stay_balanced(initial: Seq<ProductView>, events: Seq<ShopEvent>)
    requires
        stock_fits(initial),
    ensures
        balanced(booked_all(opening(initial), events), initial),
    decreases events.len(),
{
    if events.len() == 0 {
        assert(balanced(opening(initial), initial));
    } else {
        lemma_books_stay_balanced(initial, events.drop_last());
        lemma_booked_keeps_balance(
            booked_all(opening(initial), events.drop_last()),
            initial,
            events.last(),
        );
    }
}

/// Stock conservation. After any history, what a product has available and
/// reserved is what it opened with, less the units that were sold at the
/// counter and the units that were delivered.
pub proof fn lemma_stock_is_conserved(initial: Seq<ProductView>, events: Seq<ShopEvent>, i: int)
    requires
        stock_fits(initial),
        0 <= i < initial.len(),
    ensures
        ({
            let books = booked_all(opening(initial), events);
            books.stock[i].stock + books.stock[i].reserved == initial[i].stock + initial[i].reserved
                - (books.sold[i] + books.delivered[i])
        }),
{
    lemma_books_stay_balanced(initial, events);
}

/// No over-commit. After any history, no product has fewer than zero units
/// available or reserved, and its counters still fit the machine.
pub proof fn lemma_never_overcommitted(initial: Seq<ProductView>, events: Seq<ShopEvent>)
    requires
        stock_fits(initial),
    ensures
        stock_fits(booked_all(opening(initial), events).stock),
{
    lemma_books_stay_balanced(initial, events);
    let books = booked_all(opening(initial), events);
    assert forall|i: int| 0 <= i < books.stock.len() implies 0 <= (#[trigger] books.stock[i]).stock
        && 0 <= books.stock[i].reserved && books.stock[i].stock + books.stock[i].reserved
        <= u32::MAX by {
        lemma_units_in_flight_floor(books.in_flight, product_ids(initial), i);
        assert(0 <= initial[i].reserved);
    }
}

/// Reservation balance. After any history, as many purchases were reserved
/// as were delivered, were lost, or are still on their way.
pub proof fn lemma_reservations_balance(initial: Seq<ProductView>, events: Seq<ShopEvent>)
    requires
        stock_fits(initial),
    ensures
        ({
            let books = booked_all(opening(initial), events);
            books.reserved_count == books.delivered_count + books.lost_count
                + books.in_flight.len()
        }),
{
    lemma_books_stay_balanced(initial, events);
}

/// After any history, the shop holds the reservation of every purchase that
/// is on its way: the delivery of each can be booked.
pub proof fn lemma_reservations_are_held(
    initial: Seq<ProductView>,
    events: Seq<ShopEvent>,
    slot: int,
)
    requires
        stock_fits(initial),
        0 <= slot < booked_all(opening(initial), events).in_flight.len(),
    ensures
        ({
            let books = booked_all(opening(initial), events);
            holds_reservation(
                books.stock,
                books.in_flight[slot].product,
                books.in_flight[slot].quantity as int,
            )
        }),
{
    lemma_books_stay_balanced(initial, events);
    let books = booked_all(opening(initial), events);
    let due = books.in_flight[slot];
    let ids = product_ids(initial);
    lemma_first_position(ids, due.product);
    match find_product(books.stock, due.product) {
        Some(p) => {
            lemma_units_in_flight_remove(books.in_flight, ids, p, slot);
            lemma_units_in_flight_floor(books.in_flight.remove(slot), ids, p);
            assert(0 <= initial[p].reserved);
            assert(0 <= books.stock[p].stock);
        },
        None => {},
    }
}

} // verus!
