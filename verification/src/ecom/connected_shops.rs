//! The shops that a router holds a link to.

use vstd::prelude::*;
use crate::error::FileError;
use crate::shop::shop_actor::{read_shop_header, shop_header};
use crate::text::{lines, lines_of};

verus! {

/// A shop that the router can write to. `stream` names the write half of the
/// link; whoever opened the link chose the number.
#[derive(Debug)]
pub struct ConnectedShop {
    pub name: String,
    pub zone_id: i32,
    pub stream: u64,
}

/// A connected shop as the contracts see it.
pub struct ConnectedShopView {
    pub name: Seq<char>,
    pub zone_id: i32,
    pub stream: u64,
}

impl View for ConnectedShop {
    type V = ConnectedShopView;

    open spec fn view(&self) -> ConnectedShopView {
        ConnectedShopView { name: self.name@, zone_id: self.zone_id, stream: self.stream }
    }
}

impl Clone for ConnectedShop {
    fn clone(&self) -> (copy: Self)
        ensures
            copy@ == self@,
    {
        ConnectedShop { name: self.name.clone(), zone_id: self.zone_id, stream: self.stream }
    }
}

/// The shops of a list as the contracts see them.
pub open spec fn shop_views(shops: Seq<ConnectedShop>) -> Seq<ConnectedShopView> {
    Seq::new(shops.len(), |i: int| shops[i]@)
}

/// What a router needs of a shop's descriptor to call it: name, zone and
/// address, read off the first line.
pub open spec fn shop_to_call(text: Seq<char>) -> Option<(Seq<char>, i32, Seq<char>)> {
    if lines(text).len() == 0 {
        None
    } else {
        match shop_header(lines(text)[0]) {
            Some(header) => Some((header.0, header.2, header.1)),
            None => None,
        }
    }
}

impl ConnectedShop {
    /// Reads name, zone and address of a shop from the text of its
    /// descriptor. Only the first line counts.
    pub fn from_reader(content: &str) -> (read: Result<(String, i32, String), FileError>)
        ensures
            match shop_to_call(content@) {
                Some(said) => read matches Ok(shop) && shop.0@ == said.0 && shop.1 == said.1
                    && shop.2@ == said.2,
                None => read == Err::<(String, i32, String), FileError>(FileError::WrongFormat),
            },
    {
        let all = lines_of(content);
        if all.len() == 0 {
            return Err(FileError::WrongFormat);
        }
        proof {
            assert(all.deep_view()[0] == all[0]@);
        }
        match read_shop_header(all[0]) {
            Some(header) => Ok((header.0, header.2, header.1)),
            None => Err(FileError::WrongFormat),
        }
    }
}

} // verus!
