//! The router's state: its pending orders and its shops.

use vstd::prelude::*;
use std::collections::HashMap;
use crate::ecom::connected_shops::{shop_views, ConnectedShop, ConnectedShopView};
use crate::ecom::process_order::ProcessOrder;
use crate::error::{FileError, StreamError};
use crate::numeral::{
    decimal, lemma_decimal_has_no, lemma_decimal_parses, parse_i32, parse_u32, parse_u8,
    push_decimal, push_signed_decimal, signed_decimal, spec_parse_i32, spec_parse_u32,
    spec_parse_u8,
};
use crate::shop::online_purchase::response_line;
use crate::shop::shop_actor::lines_from;
use crate::states::OnlinePurchaseState;
use crate::text::{join, lemma_split_of_join, lines, lines_of, split, split_on};

verus! {

/// An online order. `shops_requested` holds the zone of every shop that the
/// order was sent to, oldest first.
#[derive(Debug)]
pub struct EcomOrder {
    pub id: u32,
    pub product_id: String,
    pub quantity: u32,
    pub zone_id: i32,
    pub shops_requested: Vec<i32>,
}

/// An order as the contracts see it.
pub struct EcomOrderView {
    pub id: u32,
    pub product_id: Seq<char>,
    pub quantity: u32,
    pub zone_id: i32,
    pub shops_requested: Seq<i32>,
}

impl View for EcomOrder {
    type V = EcomOrderView;

    open spec fn view(&self) -> EcomOrderView {
        EcomOrderView {
            id: self.id,
            product_id: self.product_id@,
            quantity: self.quantity,
            zone_id: self.zone_id,
            shops_requested: self.shops_requested@,
        }
    }
}

impl Clone for EcomOrder {
    fn clone(&self) -> (copy: Self)
        ensures
            copy@ == self@,
    {
        let shops_requested = self.shops_requested.clone();
        assert(shops_requested@ =~= self.shops_requested@);
        EcomOrder {
            id: self.id,
            product_id: self.product_id.clone(),
            quantity: self.quantity,
            zone_id: self.zone_id,
            shops_requested,
        }
    }
}

/// The line that carries an order to a shop: id, product, quantity and zone
/// with commas between them, closed by a line feed.
pub open spec fn wire_line(id: u32, product_id: Seq<char>, quantity: u32, zone_id: i32) -> Seq<
    char,
> {
    decimal(id as nat) + seq![','] + product_id + seq![','] + decimal(quantity as nat) + seq![',']
        + signed_decimal(zone_id as int) + seq!['\n']
}

impl EcomOrder {
    /// The order as it goes over the wire.
    pub fn as_string(&self) -> (line: String)
        ensures
            line@ == wire_line(self.id, self.product_id@, self.quantity, self.zone_id),
    {
        proof {
            reveal_strlit(",");
            reveal_strlit("\n");
        }
        let mut line = String::new();
        push_decimal(&mut line, self.id as u64);
        line.append(",");
        line.append(self.product_id.as_str());
        line.append(",");
        push_decimal(&mut line, self.quantity as u64);
        line.append(",");
        push_signed_decimal(&mut line, self.zone_id);
        line.append("\n");
        proof {
            assert(Seq::<char>::empty() + decimal(self.id as nat) == decimal(self.id as nat));
        }
        line
    }
}

/// The router: its name, the orders that are neither delivered nor given up,
/// by id, and the shops it holds a link to, in the order they were added.
#[derive(Debug)]
pub struct Ecom {
    pub name: String,
    pub pending_orders: HashMap<u32, EcomOrder>,
    pub shops: Vec<ConnectedShop>,
}

/// The router as the contracts see it.
pub struct EcomView {
    pub name: Seq<char>,
    pub pending_orders: Map<u32, EcomOrderView>,
    pub shops: Seq<ConnectedShopView>,
}

/// The orders of a table as the contracts see them.
pub open spec fn order_views(orders: Map<u32, EcomOrder>) -> Map<u32, EcomOrderView> {
    Map::new(|id: u32| orders.contains_key(id), |id: u32| orders[id]@)
}

impl View for Ecom {
    type V = EcomView;

    open spec fn view(&self) -> EcomView {
        EcomView {
            name: self.name@,
            pending_orders: order_views(self.pending_orders@),
            shops: shop_views(self.shops@),
        }
    }
}

/// Every pending order is kept under its own id.
pub open spec fn keyed_by_id(ecom: EcomView) -> bool {
    forall|id: u32| #[trigger]
        ecom.pending_orders.contains_key(id) ==> ecom.pending_orders[id].id == id
}

/// How far two zones are apart.
pub open spec fn zone_distance(a: i32, b: i32) -> int {
    if a >= b {
        a - b
    } else {
        b - a
    }
}

/// Shop `i` can still get the order: it is connected and the order was never
/// sent to its zone.
pub open spec fn is_candidate(shops: Seq<ConnectedShopView>, order: EcomOrderView, i: int) -> bool {
    0 <= i < shops.len() && !order.shops_requested.contains(shops[i].zone_id)
}

/// Shop `i` comes before shop `j` for the order: it is nearer to the order's
/// zone, or as near and added later. A shop comes before itself.
pub open spec fn comes_before(
    shops: Seq<ConnectedShopView>,
    order: EcomOrderView,
    i: int,
    j: int,
) -> bool {
    let di = zone_distance(shops[i].zone_id, order.zone_id);
    let dj = zone_distance(shops[j].zone_id, order.zone_id);
    di < dj || (di == dj && i >= j)
}

/// Shop `i` is the one to send the order to: a candidate that comes before
/// every candidate.
pub open spec fn is_delivery_choice(
    shops: Seq<ConnectedShopView>,
    order: EcomOrderView,
    i: int,
) -> bool {
    &&& is_candidate(shops, order, i)
    &&& forall|j: int| #[trigger] is_candidate(shops, order, j) ==> comes_before(shops, order, i, j)
}

/// The shop to send the order to, if any is left: the nearest candidate, and
/// of several that are equally near, the one added last.
pub open spec fn delivery_choice(shops: Seq<ConnectedShopView>, order: EcomOrderView) -> Option<
    int,
> {
    if exists|i: int| is_delivery_choice(shops, order, i) {
        Some(choose|i: int| is_delivery_choice(shops, order, i))
    } else {
        None
    }
}

/// At most one shop is the one to send the order to.
pub proof fn lemma_delivery_choice_unique(
    shops: Seq<ConnectedShopView>,
    order: EcomOrderView,
    i: int,
    j: int,
)
    requires
        is_delivery_choice(shops, order, i),
        is_delivery_choice(shops, order, j),
    ensures
        i == j,
{
    assert(comes_before(shops, order, i, j));
    assert(comes_before(shops, order, j, i));
}

/// A choice is made exactly when some shop is a candidate.
pub proof fn lemma_delivery_choice_exists(shops: Seq<ConnectedShopView>, order: EcomOrderView)
    ensures
        delivery_choice(shops, order) is Some <==> exists|i: int| is_candidate(shops, order, i),
        delivery_choice(shops, order) matches Some(i) ==> is_delivery_choice(shops, order, i),
    decreases shops.len(),
{
    if exists|i: int| is_candidate(shops, order, i) {
        lemma_some_choice(shops, order, shops.len() as int);
    }
}

/// Shop `i` is the choice among the first `n` shops.
pub open spec fn is_choice_among(
    shops: Seq<ConnectedShopView>,
    order: EcomOrderView,
    n: int,
    i: int,
) -> bool {
    &&& i < n
    &&& is_candidate(shops, order, i)
    &&& forall|j: int|
        j < n && #[trigger] is_candidate(shops, order, j) ==> comes_before(shops, order, i, j)
}

/// If a candidate stands among the first `n` shops, one of them is the
/// choice among these.
proof fn lemma_some_choice(shops: Seq<ConnectedShopView>, order: EcomOrderView, n: int)
    requires
        0 <= n <= shops.len(),
    ensures
        (exists|i: int| i < n && is_candidate(shops, order, i)) ==> exists|i: int|
            is_choice_among(shops, order, n, i),
        n == shops.len() && (exists|i: int| is_candidate(shops, order, i)) ==> exists|i: int|
            is_delivery_choice(shops, order, i),
    decreases n,
{
    if n > 0 {
        let last = n - 1;
        lemma_some_choice(shops, order, last);
        if exists|i: int| i < last && is_candidate(shops, order, i) {
            let b = choose|i: int| is_choice_among(shops, order, last, i);
            if is_candidate(shops, order, last) && comes_before(shops, order, last, b) {
                assert(is_choice_among(shops, order, n, last)) by {
                    assert forall|j: int|
                        j < n && #[trigger] is_candidate(shops, order, j) implies comes_before(
                        shops,
                        order,
                        last,
                        j,
                    ) by {
                        if j < last {
                            assert(comes_before(shops, order, b, j));
                        }
                    }
                }
            } else {
                assert(is_choice_among(shops, order, n, b));
            }
        } else if is_candidate(shops, order, last) {
            assert(is_choice_among(shops, order, n, last));
        }
    }
    if n == shops.len() && (exists|i: int| is_candidate(shops, order, i)) {
        let c = choose|i: int| is_candidate(shops, order, i);
        assert(c < n);
        let b = choose|i: int| is_choice_among(shops, order, n, i);
        assert(is_delivery_choice(shops, order, b));
    }
}

/// How far two zones are apart.
fn distance(a: i32, b: i32) -> (d: i64)
    ensures
        d == zone_distance(a, b),
{
    let wide_a: i64 = a as i64;
    let wide_b: i64 = b as i64;
    if wide_a >= wide_b {
        wide_a - wide_b
    } else {
        wide_b - wide_a
    }
}

/// Whether `zone` is among `requested`.
fn was_requested(requested: &Vec<i32>, zone: i32) -> (found: bool)
    ensures
        found == requested@.contains(zone),
{
    let mut i: usize = 0;
    while i < requested.len()
        invariant
            i <= requested.len(),
            forall|k: int| 0 <= k < i ==> requested[k] != zone,
        decreases requested.len() - i,
    {
        if requested[i] == zone {
            return true;
        }
        i = i + 1;
    }
    false
}

impl Ecom {
    /// The table of pending orders is in order: every order is kept under
    /// its own id.
    pub open spec fn wf(&self) -> bool {
        keyed_by_id(self@)
    }

    /// Returns the shop to send the order to next, or nothing if no shop is
    /// left for it.
    pub fn find_delivery_shop(&self, order: &EcomOrder) -> (found: Option<ConnectedShop>)
        ensures
            match delivery_choice(self@.shops, order@) {
                Some(i) => found matches Some(shop) && shop@ == self@.shops[i],
                None => found is None,
            },
    {
        let ghost shops = self@.shops;
        let mut best: Option<usize> = None;
        let mut i: usize = 0;
        while i < self.shops.len()
            invariant
                i <= self.shops.len(),
                shops == self@.shops,
                match best {
                    Some(b) => is_choice_among(shops, order@, i as int, b as int),
                    None => forall|j: int| j < i ==> !is_candidate(shops, order@, j),
                },
            decreases self.shops.len() - i,
        {
            let zone = self.shops[i].zone_id;
            proof {
                assert(shops[i as int] == self.shops[i as int]@);
            }
            if !was_requested(&order.shops_requested, zone) {
                match best {
                    None => {
                        best = Some(i);
                    },
                    Some(b) => {
                        proof {
                            assert(shops[b as int] == self.shops[b as int]@);
                        }
                        if distance(zone, order.zone_id) <= distance(
                            self.shops[b].zone_id,
                            order.zone_id,
                        ) {
                            proof {
                                assert forall|j: int|
                                    j < i + 1 && #[trigger] is_candidate(
                                        shops,
                                        order@,
                                        j,
                                    ) implies comes_before(shops, order@, i as int, j) by {
                                    if j < i {
                                        assert(comes_before(shops, order@, b as int, j));
                                    }
                                }
                            }
                            best = Some(i);
                        }
                    },
                }
            }
            i = i + 1;
        }
        match best {
            Some(b) => {
                proof {
                    assert(is_delivery_choice(shops, order@, b as int));
                    let c = choose|c: int| is_delivery_choice(shops, order@, c);
                    lemma_delivery_choice_unique(shops, order@, b as int, c);
                    assert(shops[b as int] == self.shops[b as int]@);
                }
                Some(self.shops[b].clone())
            },
            None => {
                proof {
                    assert forall|c: int| !is_delivery_choice(shops, order@, c) by {
                        if is_candidate(shops, order@, c) {
                            assert(c < i);
                        }
                    }
                }
                None
            },
        }
    }
}

/// The name that a router's descriptor gives it: its first line, which
/// holds no comma.
pub open spec fn ecom_name_of_text(text: Seq<char>) -> Option<Seq<char>> {
    if lines(text).len() > 0 && split(lines(text)[0], ',').len() == 1 {
        Some(split(lines(text)[0], ',')[0])
    } else {
        None
    }
}

/// The order that line `number` of a descriptor's body says: product,
/// quantity and zone with commas between them. The order's id is the number
/// of its line, counted from zero and cut to 32 bits.
pub open spec fn order_of_line(line: Seq<char>, number: int) -> Option<EcomOrderView> {
    let fields = split(line, ',');
    if fields.len() != 3 {
        None
    } else {
        match (spec_parse_u32(fields[1]), spec_parse_i32(fields[2])) {
            (Some(quantity), Some(zone_id)) => Some(
                EcomOrderView {
                    id: (number % 0x1_0000_0000) as u32,
                    product_id: fields[0],
                    quantity,
                    zone_id,
                    shops_requested: Seq::empty(),
                },
            ),
            _ => None,
        }
    }
}

/// The orders of a router's descriptor: one for each line after the first
/// two. The descriptor gives no orders if any of these lines is malformed.
pub open spec fn orders_of_text(text: Seq<char>) -> Option<Seq<EcomOrderView>> {
    let body = lines_from(text, 2);
    if forall|i: int| 0 <= i < body.len() ==> order_of_line(#[trigger] body[i], i) is Some {
        Some(Seq::new(body.len(), |i: int| order_of_line(body[i], i)->0))
    } else {
        None
    }
}

/// What an answer of a shop says: the id of an order and the state that the
/// purchase reached. The first two fields count; an answer with fewer fields,
/// with a field that is no numeral, or with a code above 4 says nothing.
pub open spec fn parse_response(line: Seq<char>) -> Option<(u32, OnlinePurchaseState)> {
    let fields = split(line, ',');
    if fields.len() < 2 {
        None
    } else {
        match (spec_parse_u32(fields[0]), spec_parse_u8(fields[1])) {
            (Some(id), Some(code)) => match OnlinePurchaseState::of_code(code) {
                Some(state) => Some((id, state)),
                None => None,
            },
            _ => None,
        }
    }
}

/// What a shop answers, its router reads: the answer for a purchase reads as
/// that purchase's id and state.
pub proof fn lemma_response_reads_back(id: u8, state: OnlinePurchaseState)
    ensures
        parse_response(response_line(id, state).drop_last()) == Some((id as u32, state)),
{
    let a = decimal(id as nat);
    let b = decimal(state.code() as nat);
    let fields = seq![a, b];
    assert(fields.drop_last() =~= seq![a]);
    assert(join(seq![a], ',') == a);
    assert(join(fields, ',') == join(seq![a], ',').push(',') + b);
    assert(response_line(id, state).drop_last() =~= join(fields, ','));
    lemma_decimal_has_no(id as nat, ',');
    lemma_decimal_has_no(state.code() as nat, ',');
    lemma_split_of_join(fields, ',');
    lemma_decimal_parses(id as nat, 0xffff_ffff);
    lemma_decimal_parses(state.code() as nat, 0xff);
    state.lemma_code_reads_back();
}

/// What the router does with an answer of a shop.
#[derive(Debug)]
pub enum ResponseOutcome {
    /// The answer is malformed, or its order is settled already.
    Ignored,
    /// The order was delivered and is no longer pending.
    Delivered(EcomOrder),
    /// The shop did not deliver: the order has to be routed again.
    Reroute(OnlinePurchaseState, ProcessOrder),
}

/// What the router does with an answer, as the contracts see it.
pub enum ResponseOutcomeView {
    Ignored,
    Delivered(EcomOrderView),
    Reroute(OnlinePurchaseState, EcomOrderView),
}

impl View for ResponseOutcome {
    type V = ResponseOutcomeView;

    open spec fn view(&self) -> ResponseOutcomeView {
        match self {
            ResponseOutcome::Ignored => ResponseOutcomeView::Ignored,
            ResponseOutcome::Delivered(order) => ResponseOutcomeView::Delivered(order@),
            ResponseOutcome::Reroute(state, next) => ResponseOutcomeView::Reroute(*state, next.0@),
        }
    }
}

/// The router after an answer of a shop, and what it does with the answer.
/// Only a delivery changes the router: it settles the order.
pub open spec fn response_step(ecom: EcomView, line: Seq<char>) -> (EcomView, ResponseOutcomeView) {
    match parse_response(line) {
        None => (ecom, ResponseOutcomeView::Ignored),
        Some((id, state)) => {
            if !ecom.pending_orders.contains_key(id) {
                (ecom, ResponseOutcomeView::Ignored)
            } else if state == OnlinePurchaseState::DELIVERED {
                (
                    EcomView {
                        name: ecom.name,
                        pending_orders: ecom.pending_orders.remove(id),
                        shops: ecom.shops,
                    },
                    ResponseOutcomeView::Delivered(ecom.pending_orders[id]),
                )
            } else {
                (ecom, ResponseOutcomeView::Reroute(state, ecom.pending_orders[id]))
            }
        },
    }
}

/// Reads an answer of a shop.
pub fn read_response(line: &str) -> (answer: Option<(u32, OnlinePurchaseState)>)
    ensures
        answer == parse_response(line@),
{
    let fields = split_on(line, ',');
    if fields.len() < 2 {
        return None;
    }
    proof {
        assert(fields.deep_view()[0] == fields[0]@);
        assert(fields.deep_view()[1] == fields[1]@);
    }
    let id = match parse_u32(fields[0]) {
        Some(id) => id,
        None => {
            return None;
        },
    };
    let code = match parse_u8(fields[1]) {
        Some(code) => code,
        None => {
            return None;
        },
    };
    match OnlinePurchaseState::from_int(code) {
        Some(state) => Some((id, state)),
        None => None,
    }
}

/// Reads one order line of a router's descriptor.
fn read_order(line: &str, id: u32, Ghost(number): Ghost<int>) -> (order: Option<EcomOrder>)
    requires
        id == number % 0x1_0000_0000,
    ensures
        match order_of_line(line@, number) {
            Some(said) => order matches Some(read) && read@ == said,
            None => order is None,
        },
{
    let fields = split_on(line, ',');
    if fields.len() != 3 {
        return None;
    }
    proof {
        assert(fields.deep_view()[0] == fields[0]@);
        assert(fields.deep_view()[1] == fields[1]@);
        assert(fields.deep_view()[2] == fields[2]@);
    }
    let quantity = match parse_u32(fields[1]) {
        Some(quantity) => quantity,
        None => {
            return None;
        },
    };
    let zone_id = match parse_i32(fields[2]) {
        Some(zone_id) => zone_id,
        None => {
            return None;
        },
    };
    Some(
        EcomOrder {
            id,
            product_id: fields[0].to_owned(),
            quantity,
            zone_id,
            shops_requested: Vec::new(),
        },
    )
}

impl Ecom {
    /// Reads a router from the text of its descriptor. A router that was
    /// just read has no pending order and no shop.
    pub fn from_reader(content: &str) -> (loaded: Result<Ecom, FileError>)
        ensures
            match ecom_name_of_text(content@) {
                Some(name) => loaded matches Ok(ecom) && ecom.wf() && ecom@ == (EcomView {
                    name,
                    pending_orders: Map::empty(),
                    shops: Seq::empty(),
                }),
                None => loaded == Err::<Ecom, FileError>(FileError::WrongFormat),
            },
    {
        let all = lines_of(content);
        if all.len() == 0 {
            return Err(FileError::WrongFormat);
        }
        proof {
            assert(all.deep_view()[0] == all[0]@);
        }
        let ecom_info = split_on(all[0], ',');
        if ecom_info.len() != 1 {
            return Err(FileError::WrongFormat);
        }
        proof {
            assert(ecom_info.deep_view()[0] == ecom_info[0]@);
        }
        let ecom = Ecom {
            name: ecom_info[0].to_owned(),
            pending_orders: HashMap::new(),
            shops: Vec::new(),
        };
        proof {
            assert(ecom@.pending_orders =~= Map::<u32, EcomOrderView>::empty());
            assert(ecom@.shops =~= Seq::<ConnectedShopView>::empty());
        }
        Ok(ecom)
    }

    /// Reads the orders from the text of a router's descriptor.
    pub fn orders_from_reader(content: &str) -> (loaded: Result<Vec<EcomOrder>, FileError>)
        ensures
            match orders_of_text(content@) {
                Some(said) => loaded matches Ok(orders) && orders.len() == said.len() && forall|
                    i: int,
                |
                    0 <= i < said.len() ==> (#[trigger] orders[i])@ == said[i],
                None => loaded == Err::<Vec<EcomOrder>, FileError>(FileError::WrongFormat),
            },
    {
        let all = lines_of(content);
        let ghost body = lines_from(content@, 2);
        let count = all.len();
        let first: usize = if count < 2 {
            count
        } else {
            2
        };
        let mut orders: Vec<EcomOrder> = Vec::new();
        let mut id: u32 = 0;
        let mut i: usize = first;
        while i < count
            invariant
                first <= i <= count,
                count == all.len(),
                id == (i - first) % 0x1_0000_0000,
                all.deep_view() == lines(content@),
                body == lines(content@).skip(first as int),
                body == lines_from(content@, 2),
                orders.len() == i - first,
                forall|k: int|
                    0 <= k < orders.len() ==> order_of_line(#[trigger] body[k], k) == Some(
                        orders[k]@,
                    ),
            decreases count - i,
        {
            proof {
                assert(all.deep_view()[i as int] == all[i as int]@);
                assert(body[i - first] == all[i as int]@);
            }
            match read_order(all[i], id, Ghost(i - first)) {
                Some(order) => {
                    orders.push(order);
                },
                None => {
                    assert(order_of_line(body[i - first], i - first) is None);
                    return Err(FileError::WrongFormat);
                },
            }
            id = if id == u32::MAX {
                0
            } else {
                id + 1
            };
            i = i + 1;
        }
        proof {
            assert(body.len() == orders.len());
            assert forall|k: int| 0 <= k < body.len() implies order_of_line(
                #[trigger] body[k],
                k,
            ) is Some by {
                assert(order_of_line(body[k], k) == Some(orders[k]@));
            }
            let said = orders_of_text(content@)->0;
            assert forall|k: int| 0 <= k < said.len() implies (#[trigger] orders[k])@
                == said[k] by {
                assert(order_of_line(body[k], k) == Some(orders[k]@));
            }
        }
        Ok(orders)
    }

    /// Takes in the outcome of calling a shop. With a link the shop joins
    /// the router's shops as the last of them; without one nothing changes.
    pub fn connect_shop(&mut self, name: String, zone_id: i32, link: Option<u64>) -> (done: Result<
        (),
        StreamError,
    >)
        ensures
            match link {
                Some(stream) => done is Ok && final(self)@ == (EcomView {
                    name: old(self)@.name,
                    pending_orders: old(self)@.pending_orders,
                    shops: old(self)@.shops.push(ConnectedShopView { name: name@, zone_id, stream }),
                }),
                None => done == Err::<(), StreamError>(
                    StreamError::CannotCall,
                ) && final(self)@ == old(self)@,
            },
    {
        match link {
            Some(stream) => {
                self.shops.push(ConnectedShop { name, zone_id, stream });
                proof {
                    assert(final(self)@.shops =~= old(self)@.shops.push(
                        ConnectedShopView { name: name@, zone_id, stream },
                    ));
                }
                Ok(())
            },
            None => Err(StreamError::CannotCall),
        }
    }

    /// Handles a line that a shop sent back. A delivery settles the order;
    /// any other state asks for the order to be routed again; an answer that
    /// is malformed or comes for an order that is settled changes nothing.
    pub fn handle_response(&mut self, line: &str) -> (outcome: ResponseOutcome)
        ensures
            final(self)@ == response_step(old(self)@, line@).0,
            outcome@ == response_step(old(self)@, line@).1,
            parse_response(line@) matches Some(answer) && !old(self)@.pending_orders.contains_key(
                answer.0,
            ) ==> final(self)@ == old(self)@ && outcome is Ignored,
            old(self).wf() ==> final(self).wf(),
    {
        let (id, state) = match read_response(line) {
            Some(answer) => answer,
            None => {
                return ResponseOutcome::Ignored;
            },
        };
        match state {
            OnlinePurchaseState::DELIVERED => {
                match self.pending_orders.remove(&id) {
                    Some(order) => {
                        proof {
                            assert(final(self)@.pending_orders =~= old(
                                self,
                            )@.pending_orders.remove(id));
                        }
                        ResponseOutcome::Delivered(order)
                    },
                    None => {
                        proof {
                            assert(final(self)@.pending_orders =~= old(self)@.pending_orders);
                        }
                        ResponseOutcome::Ignored
                    },
                }
            },
            _ => {
                match self.pending_orders.get(&id) {
                    Some(order) => ResponseOutcome::Reroute(state, ProcessOrder(order.clone())),
                    None => ResponseOutcome::Ignored,
                }
            },
        }
    }
}

} // verus!
