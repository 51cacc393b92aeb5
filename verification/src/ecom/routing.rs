//! What holds of a router over a whole history of requests and answers.

use vstd::prelude::*;
use crate::ecom::connected_shops::ConnectedShopView;
use crate::ecom::connection_handling::stop_step;
use crate::ecom::ecom_actor::{
    delivery_choice, is_candidate, keyed_by_id, lemma_delivery_choice_exists, response_step,
    EcomOrderView, EcomView,
};
use crate::ecom::foward_order::loss_timeout_step;
use crate::ecom::process_order::{order_to_route, process_order_step, sent_to};

verus! {

/// Something that changes a router.
pub enum EcomEvent {
    /// A request to route an order.
    Process(EcomOrderView),
    /// A line that a shop sent back.
    Response(Seq<char>),
    /// The operator stops the shops of a zone.
    Stop(i32),
    /// A shop picked up and joins the router's shops.
    Connect(ConnectedShopView),
}

/// The router after one event.
pub open spec fn routed(ecom: EcomView, event: EcomEvent) -> EcomView {
    match event {
        EcomEvent::Process(msg) => process_order_step(ecom, msg).0,
        EcomEvent::Response(line) => response_step(ecom, line).0,
        EcomEvent::Stop(zone) => stop_step(ecom, zone).0,
        EcomEvent::Connect(shop) => EcomView {
            name: ecom.name,
            pending_orders: ecom.pending_orders,
            shops: ecom.shops.push(shop),
        },
    }
}

/// The router after a history of events.
pub open spec fn routed_all(ecom: EcomView, events: Seq<EcomEvent>) -> EcomView
    decreases events.len(),
{
    if events.len() == 0 {
        ecom
    } else {
        routed(routed_all(ecom, events.drop_last()), events.last())
    }
}

/// No pending order was sent to a zone twice.
pub open spec fn never_repeats(ecom: EcomView) -> bool {
    forall|id: u32| #[trigger]
        ecom.pending_orders.contains_key(id)
            ==> ecom.pending_orders[id].shops_requested.no_duplicates()
}

/// The event brings no order that was sent to a zone twice.
pub open spec fn brings_no_repeat(event: EcomEvent) -> bool {
    event matches EcomEvent::Process(msg) ==> msg.shops_requested.no_duplicates()
}

/// How many of the shops are still candidates for the order.
pub open spec fn candidates_left(shops: Seq<ConnectedShopView>, order: EcomOrderView) -> nat
    decreases shops.len(),
{
    if shops.len() == 0 {
        0
    } else if order.shops_requested.contains(shops.last().zone_id) {
        candidates_left(shops.drop_last(), order)
    } else {
        candidates_left(shops.drop_last(), order) + 1
    }
}

/// A list with one more zone holds that zone and what it held before.
proof fn lemma_push_contains(zones: Seq<i32>, added: i32, zone: i32)
    ensures
        zones.push(added).contains(zone) <==> zones.contains(zone) || zone == added,
{
    let more = zones.push(added);
    if zones.contains(zone) {
        let k = choose|k: int| 0 <= k < zones.len() && zones[k] == zone;
        assert(more[k] == zone);
    }
    if zone == added {
        assert(more[zones.len() as int] == zone);
    }
    if more.contains(zone) {
        let k = choose|k: int| 0 <= k < more.len() && more[k] == zone;
        if k < zones.len() {
            assert(zones[k] == zone);
        }
    }
}

/// Sending an order on leaves it no more candidates than it had.
proof fn lemma_candidates_do_not_grow(
    shops: Seq<ConnectedShopView>,
    order: EcomOrderView,
    zone: i32,
)
    ensures
        candidates_left(shops, sent_to(order, zone)) <= candidates_left(shops, order),
    decreases shops.len(),
{
    if shops.len() > 0 {
        lemma_candidates_do_not_grow(shops.drop_last(), order, zone);
        lemma_push_contains(order.shops_requested, zone, shops.last().zone_id);
    }
}

/// Sending an order to a shop that was a candidate leaves it fewer
/// candidates than it had.
proof fn lemma_candidates_shrink(
    shops: Seq<ConnectedShopView>,
    order: EcomOrderView,
    i: int,
)
    requires
        is_candidate(shops, order, i),
    ensures
        candidates_left(shops, sent_to(order, shops[i].zone_id)) < candidates_left(shops, order),
    decreases shops.len(),
{
    let zone = shops[i].zone_id;
    let init = shops.drop_last();
    lemma_push_contains(order.shops_requested, zone, shops.last().zone_id);
    if i == shops.len() - 1 {
        lemma_candidates_do_not_grow(init, order, zone);
    } else {
        assert(init[i] == shops[i]);
        lemma_candidates_shrink(init, order, i);
    }
}

/// An order has candidates left exactly when some shop is a candidate.
proof fn lemma_candidates_left_counts(shops: Seq<ConnectedShopView>, order: EcomOrderView)
    ensures
        candidates_left(shops, order) > 0 <==> exists|i: int| is_candidate(shops, order, i),
        candidates_left(shops, order) <= shops.len(),
    decreases shops.len(),
{
    if shops.len() > 0 {
        let init = shops.drop_last();
        lemma_candidates_left_counts(init, order);
        let last = shops.len() - 1;
        if exists|i: int| is_candidate(init, order, i) {
            let i = choose|i: int| is_candidate(init, order, i);
            assert(init[i] == shops[i]);
            assert(is_candidate(shops, order, i));
        }
        if !order.shops_requested.contains(shops.last().zone_id) {
            assert(is_candidate(shops, order, last));
        }
        if exists|i: int| is_candidate(shops, order, i) {
            let i = choose|i: int| is_candidate(shops, order, i);
            if i < last {
                assert(init[i] == shops[i]);
                assert(is_candidate(init, order, i));
            }
        }
    }
}

/// Retry monotonicity, one request at a time. Where a request to route ends
/// in a forward, the order's list of zones is the list it had with one zone
/// more at its end; that zone is the zone of the shop it goes to, a shop of
/// the router; and the zone was not in the list. So a list without repeats
/// stays without repeats.
pub proof fn lemma_forward_adds_a_new_zone(ecom: EcomView, msg: EcomOrderView)
    requires
        process_order_step(ecom, msg).1 is Some,
    ensures
        ({
            let before = order_to_route(ecom, msg);
            let after = process_order_step(ecom, msg).0;
            let forward = process_order_step(ecom, msg).1->0;
            &&& after.pending_orders.contains_key(msg.id)
            &&& after.pending_orders[msg.id] == forward.order
            &&& forward.order.shops_requested == before.shops_requested.push(forward.shop.zone_id)
            &&& !before.shops_requested.contains(forward.shop.zone_id)
            &&& ecom.shops.contains(forward.shop)
            &&& before.shops_requested.no_duplicates()
                ==> forward.order.shops_requested.no_duplicates()
        }),
{
    let before = order_to_route(ecom, msg);
    lemma_delivery_choice_exists(ecom.shops, before);
    let i = delivery_choice(ecom.shops, before)->0;
    assert(is_candidate(ecom.shops, before, i));
    let zone = ecom.shops[i].zone_id;
    let more = before.shops_requested.push(zone);
    if before.shops_requested.no_duplicates() {
        assert forall|a: int, b: int| 0 <= a < more.len() && 0 <= b < more.len() && a != b implies more[a]
            != more[b] by {
            if a < before.shops_requested.len() && b < before.shops_requested.len() {
                assert(before.shops_requested[a] != before.shops_requested[b]);
            } else if a < before.shops_requested.len() {
                assert(before.shops_requested.contains(before.shops_requested[a]));
            } else if b < before.shops_requested.len() {
                assert(before.shops_requested.contains(before.shops_requested[b]));
            }
        }
    }
}

/// Termination, one request at a time. A request to route either gives the
/// order up, and the order is pending no more, or forwards it and leaves it
/// fewer candidates among the router's shops than it had. It gives the order
/// up exactly when no candidate is left. So while no shop joins, an order is
/// forwarded at most as often as it has candidates, and the request after
/// that gives it up.
pub proof fn lemma_request_uses_up_a_candidate(ecom: EcomView, msg: EcomOrderView)
    ensures
        ({
            let before = order_to_route(ecom, msg);
            let after = process_order_step(ecom, msg).0;
            match process_order_step(ecom, msg).1 {
                Some(forward) => candidates_left(ecom.shops, forward.order) < candidates_left(
                    ecom.shops,
                    before,
                ),
                None => candidates_left(ecom.shops, before) == 0
                    && !after.pending_orders.contains_key(msg.id),
            }
        }),
        candidates_left(ecom.shops, order_to_route(ecom, msg)) <= ecom.shops.len(),
{
    let before = order_to_route(ecom, msg);
    lemma_delivery_choice_exists(ecom.shops, before);
    lemma_candidates_left_counts(ecom.shops, before);
    match delivery_choice(ecom.shops, before) {
        Some(i) => {
            lemma_candidates_shrink(ecom.shops, before, i);
        },
        None => {},
    }
}

/// The router after `times` requests in a row to route the same order.
pub open spec fn routed_again(ecom: EcomView, msg: EcomOrderView, times: nat) -> EcomView
    decreases times,
{
    if times == 0 {
        ecom
    } else {
        routed_again(process_order_step(ecom, msg).0, msg, (times - 1) as nat)
    }
}

/// The order is forwarded on each of the first `forwards` requests in a row,
/// and given up on the next.
pub open spec fn is_given_up_after(ecom: EcomView, msg: EcomOrderView, forwards: nat) -> bool {
    &&& forall|k: nat|
        k < forwards ==> (#[trigger] process_order_step(routed_again(ecom, msg, k), msg)).1 is Some
    &&& process_order_step(routed_again(ecom, msg, forwards), msg).1 is None
    &&& !routed_again(ecom, msg, forwards + 1).pending_orders.contains_key(msg.id)
}

/// One more request at the front of a row of requests.
proof fn lemma_routed_again_shifts(ecom: EcomView, msg: EcomOrderView, times: nat)
    ensures
        routed_again(ecom, msg, times + 1) == routed_again(
            process_order_step(ecom, msg).0,
            msg,
            times,
        ),
{
}

/// A row of requests ends with the last of them.
proof fn lemma_routed_again_ends(ecom: EcomView, msg: EcomOrderView, times: nat)
    ensures
        routed_again(ecom, msg, times + 1) == process_order_step(
            routed_again(ecom, msg, times),
            msg,
        ).0,
    decreases times,
{
    let next = process_order_step(ecom, msg).0;
    assert(routed_again(ecom, msg, times + 1) == routed_again(next, msg, times));
    if times > 0 {
        lemma_routed_again_ends(next, msg, (times - 1) as nat);
        assert(routed_again(ecom, msg, times) == routed_again(next, msg, (times - 1) as nat));
    } else {
        assert(routed_again(next, msg, 0) == next);
        assert(routed_again(ecom, msg, 0) == ecom);
    }
}

/// Termination. An order that is routed again and again, as it is when
/// every shop loses or rejects it or never answers, is given up after at
/// most as many forwards as it has candidates among the router's shops.
pub proof fn lemma_order_ends(ecom: EcomView, msg: EcomOrderView, budget: nat)
    requires
        candidates_left(ecom.shops, order_to_route(ecom, msg)) <= budget,
    ensures
        exists|forwards: nat| forwards <= budget && is_given_up_after(ecom, msg, forwards),
    decreases budget,
{
    lemma_request_uses_up_a_candidate(ecom, msg);
    match process_order_step(ecom, msg).1 {
        None => {
            lemma_routed_again_ends(ecom, msg, 0);
            assert(is_given_up_after(ecom, msg, 0));
        },
        Some(forward) => {
            lemma_forward_adds_a_new_zone(ecom, msg);
            let next = process_order_step(ecom, msg).0;
            assert(order_to_route(next, msg) == forward.order);
            assert(next.shops == ecom.shops);
            lemma_order_ends(next, msg, (budget - 1) as nat);
            let later = choose|later: nat|
                later <= budget - 1 && is_given_up_after(next, msg, later);
            let forwards = later + 1;
            assert forall|k: nat| k < forwards implies (#[trigger] process_order_step(
                routed_again(ecom, msg, k),
                msg,
            )).1 is Some by {
                if k > 0 {
                    lemma_routed_again_shifts(ecom, msg, (k - 1) as nat);
                    assert(process_order_step(routed_again(next, msg, (k - 1) as nat), msg).1 is Some);
                }
            }
            lemma_routed_again_shifts(ecom, msg, later);
            lemma_routed_again_shifts(ecom, msg, later + 1);
            assert(is_given_up_after(ecom, msg, forwards));
        },
    }
}

/// One event keeps every pending order under its own id.
pub proof fn lemma_routed_keeps_keys(ecom: EcomView, event: EcomEvent)
    requires
        keyed_by_id(ecom),
    ensures
        keyed_by_id(routed(ecom, event)),
{
    let after = routed(ecom, event);
    assert forall|id: u32| #[trigger] after.pending_orders.contains_key(id) implies after.pending_orders[id].id
        == id by {
        match event {
            EcomEvent::Process(msg) => {
                if id != msg.id {
                    assert(ecom.pending_orders.contains_key(id));
                }
            },
            EcomEvent::Response(line) => {
                assert(ecom.pending_orders.contains_key(id));
            },
            EcomEvent::Stop(zone) => {},
            EcomEvent::Connect(shop) => {},
        }
    }
}

/// Retry on silence. When an order was forwarded and nothing changed the
/// router since, the timeout of that forward asks for the order to be routed
/// again.
pub proof fn lemma_silence_is_retried(ecom: EcomView, msg: EcomOrderView)
    requires
        keyed_by_id(ecom),
        process_order_step(ecom, msg).1 is Some,
    ensures
        ({
            let after = process_order_step(ecom, msg).0;
            let forward = process_order_step(ecom, msg).1->0;
            loss_timeout_step(after, forward.order.id, forward.shop.zone_id) == Some(forward.order)
        }),
{
    lemma_forward_adds_a_new_zone(ecom, msg);
}

/// One event changes the zones of an order that stays pending only by
/// adding one zone at their end.
pub proof fn lemma_requested_only_grows(ecom: EcomView, event: EcomEvent, id: u32)
    requires
        ecom.pending_orders.contains_key(id),
        routed(ecom, event).pending_orders.contains_key(id),
    ensures
        ({
            let before = ecom.pending_orders[id].shops_requested;
            let after = routed(ecom, event).pending_orders[id].shops_requested;
            after == before || (after.len() == before.len() + 1 && after.drop_last() == before)
        }),
{
    match event {
        EcomEvent::Process(msg) => {
            if msg.id == id {
                let before = ecom.pending_orders[id].shops_requested;
                let after = routed(ecom, event).pending_orders[id].shops_requested;
                assert(after.drop_last() =~= before);
            }
        },
        EcomEvent::Response(line) => {},
        EcomEvent::Stop(zone) => {},
        EcomEvent::Connect(shop) => {},
    }
}

/// One event keeps a router whose orders were never sent to a zone twice
/// that way.
pub proof fn lemma_routed_never_repeats(ecom: EcomView, event: EcomEvent)
    requires
        never_repeats(ecom),
        brings_no_repeat(event),
    ensures
        never_repeats(routed(ecom, event)),
{
    let after = routed(ecom, event);
    match event {
        EcomEvent::Process(msg) => {
            if process_order_step(ecom, msg).1 is Some {
                lemma_forward_adds_a_new_zone(ecom, msg);
            }
            assert forall|id: u32| #[trigger]
                after.pending_orders.contains_key(id) implies after.pending_orders[id].shops_requested.no_duplicates() by {
                if id != msg.id {
                    assert(ecom.pending_orders.contains_key(id));
                }
            }
        },
        EcomEvent::Response(line) => {
            assert forall|id: u32| #[trigger]
                after.pending_orders.contains_key(id) implies after.pending_orders[id].shops_requested.no_duplicates() by {
                assert(ecom.pending_orders.contains_key(id));
            }
        },
        EcomEvent::Stop(zone) => {},
        EcomEvent::Connect(shop) => {},
    }
}

/// Retry monotonicity. A router that starts without an order that was sent
/// to a zone twice never holds one, whatever happens, as long as no request
/// brings one in.
pub proof fn lemma_never_repeats(ecom: EcomView, events: Seq<EcomEvent>)
    requires
        never_repeats(ecom),
        forall|i: int| 0 <= i < events.len() ==> brings_no_repeat(#[trigger] events[i]),
    ensures
        never_repeats(routed_all(ecom, events)),
    decreases events.len(),
{
    if events.len() > 0 {
        let init = events.drop_last();
        assert forall|i: int| 0 <= i < init.len() implies brings_no_repeat(#[trigger] init[i]) by {
            assert(init[i] == events[i]);
        }
        lemma_never_repeats(ecom, init);
        lemma_routed_never_repeats(routed_all(ecom, init), events.last());
    }
}

} // verus!
