//! Random draws: how long a step takes, and whether a delivery arrives.

use vstd::prelude::*;
use crate::constants::{
    DELIVER_MILLIS_MAX, DELIVER_MILLIS_MIN, ECOM_PROCESING_MILLIS_MAX, ECOM_PROCESING_MILLIS_MIN,
    LOCAL_PROCESING_MILLIS_MAX, LOCAL_PROCESING_MILLIS_MIN,
};

verus! {

/// `rand::Rng::gen_range` on the thread's generator, with the inclusive
/// range from `low` to `high`. The draw lies in the range; nothing else is
/// known of it. An empty range is left out, since the call panics on one.
#[verifier::external_body]
fn draw_between(low: u64, high: u64) -> (drawn: u64)
    requires
        low <= high,
    ensures
        low <= drawn <= high,
{
    rand::Rng::gen_range(&mut rand::thread_rng(), low..=high)
}

/// `rand::Rng::gen_ratio` on the thread's generator: true with probability
/// `hits / out_of`. Only the two certain cases are stated: always true when
/// both numbers are equal, never when `hits` is zero. The call panics on a
/// zero `out_of` and on `hits > out_of`, so those are left out.
#[verifier::external_body]
pub(crate) fn draw_ratio(hits: u32, out_of: u32) -> (hit: bool)
    requires
        out_of != 0,
        hits <= out_of,
    ensures
        hits == out_of ==> hit,
        hits == 0 ==> !hit,
{
    rand::Rng::gen_ratio(&mut rand::thread_rng(), hits, out_of)
}

/// Draws the pause before the next in-store order.
pub fn local_procesing_millis() -> (millis: u64)
    ensures
        LOCAL_PROCESING_MILLIS_MIN <= millis <= LOCAL_PROCESING_MILLIS_MAX,
{
    draw_between(LOCAL_PROCESING_MILLIS_MIN, LOCAL_PROCESING_MILLIS_MAX)
}

/// Draws the time that a delivery takes.
pub fn deliver_millis() -> (millis: u64)
    ensures
        DELIVER_MILLIS_MIN <= millis <= DELIVER_MILLIS_MAX,
{
    draw_between(DELIVER_MILLIS_MIN, DELIVER_MILLIS_MAX)
}

/// Draws the pause before the next online order.
pub fn ecom_procesing_millis() -> (millis: u64)
    ensures
        ECOM_PROCESING_MILLIS_MIN <= millis <= ECOM_PROCESING_MILLIS_MAX,
{
    draw_between(ECOM_PROCESING_MILLIS_MIN, ECOM_PROCESING_MILLIS_MAX)
}

} // verus!
