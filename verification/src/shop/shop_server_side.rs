//! The shop's end of a link to a router.

use vstd::prelude::*;
use crate::error::StreamError;
use crate::shop::online_purchase::{purchase_of_fields, OnlinePurchase, OnlinePurchaseView};
use crate::states::OnlinePurchaseState;
use crate::text::{split, split_on};

verus! {

/// Reads the purchase that a line of a router carries. `ecom` tags the
/// router. A malformed line gives an error and no purchase; the link
/// goes on with the next line.
pub fn purchase_of_line(line: &str, ecom: String) -> (read: Result<OnlinePurchase, StreamError>)
    ensures
        match purchase_of_fields(split(line@, ',')) {
            Some(said) => read matches Ok(purchase) && purchase@ == (OnlinePurchaseView {
                id: said.0,
                ecom: ecom@,
                product: said.1,
                quantity: said.2 as int,
                zone_id: said.3,
                state: OnlinePurchaseState::RECEIVED,
            }),
            None => read == Err::<OnlinePurchase, StreamError>(StreamError::WrongFormat),
        },
{
    let order = split_on(line, ',');
    OnlinePurchase::parse(order, ecom)
}

} // verus!
