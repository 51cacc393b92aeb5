//! Online purchases: reading them off the wire, reserving, answering.

use vstd::prelude::*;
use crate::error::StreamError;
use crate::ecom::ecom_actor::wire_line;
use crate::numeral::{
    decimal, is_canonical, is_canonical_signed, lemma_decimal_has_no, lemma_decimal_parses,
    lemma_parsed_canonical_is_decimal, lemma_parsed_canonical_signed_is_decimal,
    lemma_signed_decimal_has_no, lemma_signed_decimal_parses, parse_i32, parse_u32, parse_u8,
    push_decimal, signed_decimal, spec_parse_i32, spec_parse_u32, spec_parse_u8,
};
use crate::text::{join, lemma_join_of_split, lemma_split_of_join, split};
use crate::seek::lemma_first_position;
use crate::shop::deliver_purchase::{holds_reservation, DeliverPurchase};
use crate::shop::local_purchase::can_take;
use crate::shop::shop_actor::{
    find_product, lemma_update_keeps_ids, product_ids, with_counts, ProductView, Shop, ShopView,
};
use crate::states::OnlinePurchaseState;

verus! {

/// A purchase that a router sent. `ecom` tags the router it came from.
#[derive(Debug)]
pub struct OnlinePurchase {
    pub id: u8,
    pub ecom: String,
    pub product: String,
    pub quantity: u32,
    pub zone_id: i32,
    pub state: OnlinePurchaseState,
}

/// An online purchase as the contracts see it.
pub struct OnlinePurchaseView {
    pub id: u8,
    pub ecom: Seq<char>,
    pub product: Seq<char>,
    pub quantity: int,
    pub zone_id: i32,
    pub state: OnlinePurchaseState,
}

impl View for OnlinePurchase {
    type V = OnlinePurchaseView;

    open spec fn view(&self) -> OnlinePurchaseView {
        OnlinePurchaseView {
            id: self.id,
            ecom: self.ecom@,
            product: self.product@,
            quantity: self.quantity as int,
            zone_id: self.zone_id,
            state: self.state,
        }
    }
}

impl Clone for OnlinePurchase {
    fn clone(&self) -> (copy: Self)
        ensures
            copy@ == self@,
    {
        OnlinePurchase {
            id: self.id,
            ecom: self.ecom.clone(),
            product: self.product.clone(),
            quantity: self.quantity,
            zone_id: self.zone_id,
            state: self.state,
        }
    }
}

/// `purchase` in another state.
pub open spec fn in_state(purchase: OnlinePurchaseView, state: OnlinePurchaseState) -> OnlinePurchaseView {
    OnlinePurchaseView {
        id: purchase.id,
        ecom: purchase.ecom,
        product: purchase.product,
        quantity: purchase.quantity,
        zone_id: purchase.zone_id,
        state,
    }
}

/// What the fields of a wire line say: id, product, quantity and zone are
/// its first four fields. The id is a byte, the quantity an unsigned and the
/// zone a signed number of 32 bits. The line says nothing if it has fewer
/// fields, or if id, quantity or zone is no numeral of its range.
pub open spec fn purchase_of_fields(fields: Seq<Seq<char>>) -> Option<(u8, Seq<char>, u32, i32)> {
    if fields.len() < 4 {
        None
    } else {
        match (spec_parse_u8(fields[0]), spec_parse_u32(fields[2]), spec_parse_i32(fields[3])) {
            (Some(id), Some(quantity), Some(zone_id)) => Some((id, fields[1], quantity, zone_id)),
            _ => None,
        }
    }
}

/// The line that carries the state of a purchase back to its router: id and
/// state code with a comma between them, closed by a line feed.
pub open spec fn response_line(id: u8, state: OnlinePurchaseState) -> Seq<char> {
    decimal(id as nat) + seq![','] + decimal(state.code() as nat) + seq!['\n']
}

/// The stock after a purchase came in from a router, and the state that the
/// purchase reached. A purchase that the stock can take is reserved: its
/// units move from the available ones to the reserved ones. Any other is
/// rejected and leaves the stock as it was.
pub open spec fn online_purchase_step(
    stock: Seq<ProductView>,
    product: Seq<char>,
    quantity: int,
) -> (Seq<ProductView>, OnlinePurchaseState) {
    if can_take(stock, product, quantity) {
        let i = find_product(stock, product)->0;
        (
            stock.update(
                i,
                with_counts(stock[i], stock[i].stock - quantity, stock[i].reserved + quantity),
            ),
            OnlinePurchaseState::RESERVED,
        )
    } else {
        (stock, OnlinePurchaseState::REJECTED)
    }
}

/// The four fields of a wire line with commas between them.
proof fn lemma_join_four(a: Seq<char>, b: Seq<char>, c: Seq<char>, d: Seq<char>)
    ensures
        join(seq![a, b, c, d], ',') == a + seq![','] + b + seq![','] + c + seq![','] + d,
{
    let four = seq![a, b, c, d];
    let three = seq![a, b, c];
    let two = seq![a, b];
    let one = seq![a];
    assert(four.drop_last() =~= three);
    assert(three.drop_last() =~= two);
    assert(two.drop_last() =~= one);
    assert(join(one, ',') == a);
    assert(join(two, ',') == join(one, ',').push(',') + b);
    assert(join(three, ',') == join(two, ',').push(',') + c);
    assert(join(four, ',') == join(three, ',').push(',') + d);
    assert(join(four, ',') =~= a + seq![','] + b + seq![','] + c + seq![','] + d);
}

/// What a router writes, a shop reads. An order whose id a shop can hold,
/// and whose product holds no comma, arrives as the purchase of the same id,
/// product, quantity and zone, whatever its zone.
pub proof fn lemma_wire_line_reads_back(id: u8, product: Seq<char>, quantity: u32, zone_id: i32)
    requires
        !product.contains(','),
    ensures
        purchase_of_fields(split(wire_line(id as u32, product, quantity, zone_id).drop_last(), ','))
            == Some((id, product, quantity, zone_id)),
{
    let a = decimal(id as nat);
    let c = decimal(quantity as nat);
    let d = signed_decimal(zone_id as int);
    let fields = seq![a, product, c, d];
    lemma_join_four(a, product, c, d);
    assert(wire_line(id as u32, product, quantity, zone_id).drop_last() =~= join(fields, ','));
    lemma_decimal_has_no(id as nat, ',');
    lemma_decimal_has_no(quantity as nat, ',');
    lemma_signed_decimal_has_no(zone_id as int, ',');
    lemma_split_of_join(fields, ',');
    lemma_decimal_parses(id as nat, 0xff);
    lemma_decimal_parses(quantity as nat, 0xffff_ffff);
    lemma_signed_decimal_parses(zone_id as int, 0x7fff_ffff);
}

/// What a shop reads, a router writes. A line of exactly four fields, with
/// id, quantity and zone as canonical numerals, that reads as a purchase is
/// the wire line of an order with that purchase's id, product, quantity and
/// zone, but for the line feed that closes it.
pub proof fn lemma_parsed_line_writes_back(line: Seq<char>)
    requires
        split(line, ',').len() == 4,
        is_canonical(split(line, ',')[0]),
        is_canonical(split(line, ',')[2]),
        is_canonical_signed(split(line, ',')[3]),
        purchase_of_fields(split(line, ',')) is Some,
    ensures
        ({
            let read = purchase_of_fields(split(line, ','))->0;
            wire_line(read.0 as u32, read.1, read.2, read.3) == line.push('\n')
        }),
{
    let fields = split(line, ',');
    let read = purchase_of_fields(fields)->0;
    lemma_join_of_split(line, ',');
    assert(fields =~= seq![fields[0], fields[1], fields[2], fields[3]]);
    lemma_join_four(fields[0], fields[1], fields[2], fields[3]);
    lemma_parsed_canonical_is_decimal(fields[0], 0xff);
    lemma_parsed_canonical_is_decimal(fields[2], 0xffff_ffff);
    lemma_parsed_canonical_signed_is_decimal(fields[3], 0x7fff_ffff);
    assert(wire_line(read.0 as u32, read.1, read.2, read.3) =~= line.push('\n'));
}

/// What a shop has to do after it handled an online purchase.
#[derive(Debug)]
pub enum ShopAction {
    /// Answer the router now: the purchase is in a terminal state.
    Reply(OnlinePurchase),
    /// Wait `deliver_millis`, then attempt the delivery.
    Deliver(DeliverPurchase),
}

impl ShopAction {
    /// The purchase that the action is about.
    pub open spec fn purchase(self) -> OnlinePurchase {
        match self {
            ShopAction::Reply(purchase) => purchase,
            ShopAction::Deliver(deliver) => deliver.purchase,
        }
    }
}

impl OnlinePurchase {
    /// Reads a purchase from the fields of a wire line. The purchase starts
    /// out as received.
    pub fn parse(line: Vec<&str>, ecom: String) -> (parsed: Result<OnlinePurchase, StreamError>)
        ensures
            match purchase_of_fields(line.deep_view()) {
                Some(said) => parsed matches Ok(purchase) && purchase@ == (OnlinePurchaseView {
                    id: said.0,
                    ecom: ecom@,
                    product: said.1,
                    quantity: said.2 as int,
                    zone_id: said.3,
                    state: OnlinePurchaseState::RECEIVED,
                }),
                None => parsed == Err::<OnlinePurchase, StreamError>(StreamError::WrongFormat),
            },
    {
        if line.len() < 4 {
            return Err(StreamError::WrongFormat);
        }
        proof {
            assert(line.deep_view()[0] == line[0]@);
            assert(line.deep_view()[1] == line[1]@);
            assert(line.deep_view()[2] == line[2]@);
            assert(line.deep_view()[3] == line[3]@);
        }
        let id = match parse_u8(line[0]) {
            Some(id) => id,
            None => {
                return Err(StreamError::WrongFormat);
            },
        };
        let product = line[1].to_owned();
        let quantity = match parse_u32(line[2]) {
            Some(quantity) => quantity,
            None => {
                return Err(StreamError::WrongFormat);
            },
        };
        let zone_id = match parse_i32(line[3]) {
            Some(zone_id) => zone_id,
            None => {
                return Err(StreamError::WrongFormat);
            },
        };
        Ok(
            OnlinePurchase {
                id,
                ecom,
                product,
                quantity,
                zone_id,
                state: OnlinePurchaseState::RECEIVED,
            },
        )
    }

    /// The line that tells the router which state the purchase reached.
    pub fn response(&self) -> (line: String)
        ensures
            line@ == response_line(self.id, self.state),
    {
        proof {
            reveal_strlit(",");
            reveal_strlit("\n");
        }
        let mut line = String::new();
        push_decimal(&mut line, self.id as u64);
        line.append(",");
        push_decimal(&mut line, self.state.to_int() as u64);
        line.append("\n");
        proof {
            assert(Seq::<char>::empty() + decimal(self.id as nat) == decimal(self.id as nat));
        }
        line
    }
}

impl Shop {
    /// Handles a purchase that a router sent. The caller waits
    /// `PURCHASE_MILLIS` first. A rejected purchase is answered at once; a
    /// reserved one goes on to its delivery.
    pub fn online_purchase(&mut self, msg: OnlinePurchase) -> (action: ShopAction)
        requires
            old(self).wf(),
        ensures
            final(self)@ == (ShopView {
                name: old(self)@.name,
                address: old(self)@.address,
                location: old(self)@.location,
                stock: online_purchase_step(old(self)@.stock, msg.product@, msg.quantity as int).0,
            }),
            action.purchase()@ == in_state(
                msg@,
                online_purchase_step(old(self)@.stock, msg.product@, msg.quantity as int).1,
            ),
            action is Deliver <==> can_take(old(self)@.stock, msg.product@, msg.quantity as int),
            OnlinePurchaseState::RECEIVED.can_become(action.purchase().state),
            action matches ShopAction::Reply(answered) ==> answered.state.is_terminal(),
            action is Deliver ==> holds_reservation(
                final(self)@.stock,
                msg.product@,
                msg.quantity as int,
            ),
            product_ids(final(self)@.stock) == product_ids(old(self)@.stock),
            final(self).wf(),
    {
        let ghost before = old(self)@;
        let mut purchase = msg;
        match self.find_product_index(&purchase.product) {
            Some(i) => {
                proof {
                    assert(before.stock[i as int] == self.stock[i as int]@);
                }
                if self.stock[i].stock < purchase.quantity {
                    purchase.state = OnlinePurchaseState::REJECTED;
                    ShopAction::Reply(purchase)
                } else {
                    self.stock[i].stock = self.stock[i].stock - purchase.quantity;
                    self.stock[i].reserved = self.stock[i].reserved + purchase.quantity;
                    purchase.state = OnlinePurchaseState::RESERVED;
                    proof {
                        lemma_first_position(product_ids(before.stock), purchase.product@);
                        lemma_update_keeps_ids(
                            before.stock,
                            i as int,
                            before.stock[i as int].stock - purchase.quantity,
                            before.stock[i as int].reserved + purchase.quantity,
                        );
                        assert(self@.stock =~= online_purchase_step(
                            before.stock,
                            msg.product@,
                            msg.quantity as int,
                        ).0);
                    }
                    ShopAction::Deliver(DeliverPurchase { purchase })
                }
            },
            None => {
                purchase.state = OnlinePurchaseState::REJECTED;
                ShopAction::Reply(purchase)
            },
        }
    }
}

} // verus!
