//! The operator's commands: stop a shop's link, or call a shop again.

use vstd::prelude::*;
use crate::ecom::connected_shops::{shop_views, ConnectedShop, ConnectedShopView};
use crate::ecom::ecom_actor::{Ecom, EcomView};
use crate::error::StreamError;
use crate::numeral::{chars_of, parse_i32, spec_parse_i32};
use crate::seek::{first_position, lemma_first_position, lemma_first_position_stays};

verus! {

/// Asks the router to drop the shops of a zone.
#[derive(Debug)]
pub struct Stop(pub i32);

/// Asks the router to call the shop of a zone again.
#[derive(Debug)]
pub struct Reconnect(pub i32);

/// A command of the operator.
#[derive(Debug)]
pub enum Command {
    Stop(Stop),
    Reconnect(Reconnect),
}

/// What a command line says: a one-byte command letter, then the numeral of
/// a zone.
pub open spec fn command_of_line(line: Seq<char>) -> Option<(char, i32)> {
    if line.len() > 0 && line[0] <= '\x7f' {
        match spec_parse_i32(line.skip(1)) {
            Some(zone_id) => Some((line[0], zone_id)),
            None => None,
        }
    } else {
        None
    }
}

/// The command that a letter and a zone stand for: `s` stops, `r` calls
/// again, any other letter stands for nothing.
pub open spec fn command_of_letter(letter: char, zone_id: i32) -> Option<Command> {
    if letter == 's' {
        Some(Command::Stop(Stop(zone_id)))
    } else if letter == 'r' {
        Some(Command::Reconnect(Reconnect(zone_id)))
    } else {
        None
    }
}

/// The zones of a list of shops.
pub open spec fn shop_zones(shops: Seq<ConnectedShopView>) -> Seq<i32> {
    Seq::new(shops.len(), |i: int| shops[i].zone_id)
}

/// The zones of a list of descriptors.
pub open spec fn descriptor_zones(descriptors: Seq<(String, i32, String)>) -> Seq<i32> {
    Seq::new(descriptors.len(), |i: int| descriptors[i].1)
}

/// The shops that stand outside of `zone`, in their order.
pub open spec fn outside_zone(shops: Seq<ConnectedShopView>, zone: i32) -> Seq<ConnectedShopView>
    decreases shops.len(),
{
    if shops.len() == 0 {
        Seq::empty()
    } else if shops.last().zone_id == zone {
        outside_zone(shops.drop_last(), zone)
    } else {
        outside_zone(shops.drop_last(), zone).push(shops.last())
    }
}

/// The router after a stop for `zone`, and the shop whose link has to be
/// shut: every shop of the zone leaves the router, and the first of them is
/// handed out.
pub open spec fn stop_step(ecom: EcomView, zone: i32) -> (EcomView, Option<ConnectedShopView>) {
    (
        EcomView {
            name: ecom.name,
            pending_orders: ecom.pending_orders,
            shops: outside_zone(ecom.shops, zone),
        },
        match first_position(shop_zones(ecom.shops), zone) {
            Some(i) => Some(ecom.shops[i]),
            None => None,
        },
    )
}

/// After a stop no shop of the zone is left, and every other shop is.
pub proof fn lemma_outside_zone(shops: Seq<ConnectedShopView>, zone: i32)
    ensures
        forall|shop: ConnectedShopView|
            #[trigger] outside_zone(shops, zone).contains(shop) <==> shops.contains(shop)
                && shop.zone_id != zone,
        outside_zone(shops, zone).len() <= shops.len(),
    decreases shops.len(),
{
    if shops.len() > 0 {
        let init = shops.drop_last();
        let last = shops.last();
        lemma_outside_zone(init, zone);
        let kept_init = outside_zone(init, zone);
        let kept = outside_zone(shops, zone);
        assert forall|shop: ConnectedShopView| #[trigger]
            kept.contains(shop) <==> shops.contains(shop) && shop.zone_id != zone by {
            assert(kept_init.contains(shop) <==> init.contains(shop) && shop.zone_id != zone);
            if kept.contains(shop) {
                let k = choose|k: int| 0 <= k < kept.len() && kept[k] == shop;
                if last.zone_id != zone && k == kept.len() - 1 {
                    assert(shops[shops.len() - 1] == shop);
                } else {
                    assert(kept_init[k] == shop);
                    assert(kept_init.contains(shop));
                    assert(init.contains(shop));
                    let j = choose|j: int| 0 <= j < init.len() && init[j] == shop;
                    assert(shops[j] == shop);
                }
            }
            if shops.contains(shop) && shop.zone_id != zone {
                let j = choose|j: int| 0 <= j < shops.len() && shops[j] == shop;
                if j < init.len() {
                    assert(init[j] == shop);
                    assert(init.contains(shop));
                    assert(kept_init.contains(shop));
                    let k = choose|k: int| 0 <= k < kept_init.len() && kept_init[k] == shop;
                    assert(kept[k] == shop);
                } else {
                    assert(kept[kept.len() - 1] == shop);
                }
            }
        }
    }
}

/// Reads a command line into its letter and its zone.
fn read_command(line: &str) -> (read: Option<(char, i32)>)
    ensures
        read == command_of_line(line@),
{
    let chars = chars_of(line);
    let n = chars.len();
    if n == 0 {
        return None;
    }
    let letter = chars[0];
    if letter > '\x7f' {
        return None;
    }
    let rest = line.substring_char(1, n);
    proof {
        assert(line@.subrange(1, n as int) == line@.skip(1));
    }
    match parse_i32(rest) {
        Some(zone_id) => Some((letter, zone_id)),
        None => None,
    }
}

/// Parses a line of the operator into a command letter and a zone.
pub fn parse_command(line: String) -> (parsed: Result<(String, i32), StreamError>)
    ensures
        match command_of_line(line@) {
            Some((letter, zone_id)) => parsed matches Ok(command) && command.0@ == seq![letter]
                && command.1 == zone_id,
            None => parsed == Err::<(String, i32), StreamError>(StreamError::WrongFormat),
        },
{
    match read_command(line.as_str()) {
        Some((_, zone_id)) => {
            let letter = line.as_str().substring_char(0, 1);
            proof {
                assert(line@.subrange(0, 1) == seq![line@[0]]);
            }
            Ok((letter.to_owned(), zone_id))
        },
        None => Err(StreamError::WrongFormat),
    }
}

/// Reads the command that a line of the operator gives. A well-formed line
/// with a letter other than `s` and `r` gives no command.
pub fn command_for(line: String) -> (command: Result<Option<Command>, StreamError>)
    ensures
        match command_of_line(line@) {
            Some((letter, zone_id)) => command == Ok::<Option<Command>, StreamError>(
                command_of_letter(letter, zone_id),
            ),
            None => command == Err::<Option<Command>, StreamError>(StreamError::WrongFormat),
        },
{
    match read_command(line.as_str()) {
        Some((letter, zone_id)) => {
            if letter == 's' {
                Ok(Some(Command::Stop(Stop(zone_id))))
            } else if letter == 'r' {
                Ok(Some(Command::Reconnect(Reconnect(zone_id))))
            } else {
                Ok(None)
            }
        },
        None => Err(StreamError::WrongFormat),
    }
}

impl Ecom {
    /// Drops every shop of the zone from the router, and hands out the first
    /// of them, whose link the caller shuts. A zone without a shop changes
    /// nothing.
    pub fn stop(&mut self, msg: Stop) -> (closed: Option<ConnectedShop>)
        ensures
            final(self)@ == stop_step(old(self)@, msg.0).0,
            match stop_step(old(self)@, msg.0).1 {
                Some(shop) => closed matches Some(found) && found@ == shop,
                None => closed is None,
            },
            old(self).wf() ==> final(self).wf(),
    {
        let zone = msg.0;
        let ghost before = old(self)@;
        let mut closed: Option<ConnectedShop> = None;
        let mut kept: Vec<ConnectedShop> = Vec::new();
        let mut i: usize = 0;
        proof {
            assert(before.shops.take(0) =~= Seq::empty());
            assert(shop_zones(before.shops).take(0) =~= Seq::empty());
            assert(shop_views(kept@) =~= Seq::empty());
        }
        while i < self.shops.len()
            invariant
                i <= self.shops.len(),
                self@ == before,
                shop_views(kept@) == outside_zone(
                    before.shops.take(i as int),
                    zone,
                ),
                match first_position(shop_zones(before.shops).take(i as int), zone) {
                    Some(k) => closed matches Some(found) && 0 <= k < before.shops.len() && found@
                        == before.shops[k],
                    None => closed is None,
                },
            decreases self.shops.len() - i,
        {
            proof {
                assert(before.shops.take(i + 1).drop_last() =~= before.shops.take(i as int));
                assert(before.shops.take(i + 1).last() == before.shops[i as int]);
                assert(shop_zones(before.shops).take(i + 1).drop_last() =~= shop_zones(
                    before.shops,
                ).take(i as int));
                assert(shop_zones(before.shops).take(i + 1).last()
                    == before.shops[i as int].zone_id);
                assert(before.shops[i as int] == self.shops[i as int]@);
                lemma_first_position(shop_zones(before.shops).take(i as int), zone);
            }
            let ghost views = shop_views(kept@);
            if self.shops[i].zone_id == zone {
                if closed.is_none() {
                    closed = Some(self.shops[i].clone());
                }
            } else {
                let shop = self.shops[i].clone();
                kept.push(shop);
                proof {
                    assert(shop_views(kept@) =~= views.push(
                        before.shops[i as int],
                    ));
                }
            }
            i = i + 1;
        }
        proof {
            assert(before.shops.take(i as int) =~= before.shops);
            assert(shop_zones(before.shops).take(i as int) =~= shop_zones(before.shops));
        }
        self.shops = kept;
        closed
    }

    /// Picks the shop to call again: the first descriptor of the zone.
    /// The router itself does not change until the call's outcome
    /// is taken in by `connect_shop`.
    pub fn reconnect(&self, msg: &Reconnect, descriptors: &Vec<(String, i32, String)>) -> (found:
        Option<(String, i32, String)>)
        ensures
            match first_position(descriptor_zones(descriptors@), msg.0) {
                Some(i) => found matches Some(shop) && shop.0@ == descriptors[i].0@ && shop.1
                    == msg.0 && shop.2@ == descriptors[i].2@,
                None => found is None,
            },
    {
        let zone = msg.0;
        let ghost zones = descriptor_zones(descriptors@);
        let mut i: usize = 0;
        proof {
            assert(zones.take(0) =~= Seq::empty());
        }
        while i < descriptors.len()
            invariant
                i <= descriptors.len(),
                zone == msg.0,
                zones == descriptor_zones(descriptors@),
                first_position(zones.take(i as int), zone) is None,
            decreases descriptors.len() - i,
        {
            proof {
                assert(zones.take(i + 1).drop_last() =~= zones.take(i as int));
                assert(zones.take(i + 1).last() == descriptors[i as int].1);
            }
            if descriptors[i].1 == zone {
                proof {
                    assert(first_position(zones.take(i + 1), zone) == Some(i as int));
                    lemma_first_position_stays(zones, i + 1, zone);
                }
                return Some((descriptors[i].0.clone(), zone, descriptors[i].2.clone()));
            }
            i = i + 1;
        }
        proof {
            assert(zones.take(i as int) =~= zones);
        }
        None
    }
}

} // verus!
