//! The state of a purchase as a router names it.

use vstd::prelude::*;
use crate::chance::draw_ratio;
use crate::constants::{DELIVER_RATE_HITS, DELIVER_RATE_OUT_OF};
use crate::states::{outcome_of_draw, OnlinePurchaseState};

verus! {

/// State of an online purchase in the words of the router: a purchase that
/// a shop has received is being processed. The codes on the wire are those
/// of `OnlinePurchaseState`.
#[derive(Debug, Clone, Copy, PartialEq, Eq, Structural)]
pub enum EcomPurchaseState {
    PROCESSING,
    RESERVED,
    DELIVERED,
    REJECTED,
    LOST,
}

impl EcomPurchaseState {
    /// The label of the state.
    pub open spec fn label(self) -> Seq<char> {
        match self {
            EcomPurchaseState::PROCESSING => "PROCESANDO"@,
            EcomPurchaseState::RESERVED => "RESERVADO"@,
            EcomPurchaseState::REJECTED => "RECHAZADO"@,
            EcomPurchaseState::DELIVERED => "ENTREGADO"@,
            EcomPurchaseState::LOST => "PERDIDO"@,
        }
    }

    /// The router's name for the state that a shop reports.
    pub open spec fn of_shop_state(state: OnlinePurchaseState) -> EcomPurchaseState {
        match state {
            OnlinePurchaseState::RECEIVED => EcomPurchaseState::PROCESSING,
            OnlinePurchaseState::RESERVED => EcomPurchaseState::RESERVED,
            OnlinePurchaseState::REJECTED => EcomPurchaseState::REJECTED,
            OnlinePurchaseState::DELIVERED => EcomPurchaseState::DELIVERED,
            OnlinePurchaseState::LOST => EcomPurchaseState::LOST,
        }
    }

    /// The state that a shop reports under the router's name for it.
    pub open spec fn shop_state(self) -> OnlinePurchaseState {
        match self {
            EcomPurchaseState::PROCESSING => OnlinePurchaseState::RECEIVED,
            EcomPurchaseState::RESERVED => OnlinePurchaseState::RESERVED,
            EcomPurchaseState::REJECTED => OnlinePurchaseState::REJECTED,
            EcomPurchaseState::DELIVERED => OnlinePurchaseState::DELIVERED,
            EcomPurchaseState::LOST => OnlinePurchaseState::LOST,
        }
    }

    /// The code of the state on the wire.
    pub open spec fn code(self) -> u8 {
        self.shop_state().code()
    }

    /// The state that a wire code stands for.
    pub open spec fn of_code(code: u8) -> Option<EcomPurchaseState> {
        match OnlinePurchaseState::of_code(code) {
            Some(state) => Some(EcomPurchaseState::of_shop_state(state)),
            None => None,
        }
    }

    /// The label of the state.
    pub fn to_string(&self) -> (label: String)
        ensures
            label@ == self.label(),
    {
        match self {
            EcomPurchaseState::PROCESSING => "PROCESANDO".to_owned(),
            EcomPurchaseState::RESERVED => "RESERVADO".to_owned(),
            EcomPurchaseState::REJECTED => "RECHAZADO".to_owned(),
            EcomPurchaseState::DELIVERED => "ENTREGADO".to_owned(),
            EcomPurchaseState::LOST => "PERDIDO".to_owned(),
        }
    }

    /// The router's name for the state that a shop reports.
    pub fn from_shop_state(state: OnlinePurchaseState) -> (named: EcomPurchaseState)
        ensures
            named == EcomPurchaseState::of_shop_state(state),
    {
        match state {
            OnlinePurchaseState::RECEIVED => EcomPurchaseState::PROCESSING,
            OnlinePurchaseState::RESERVED => EcomPurchaseState::RESERVED,
            OnlinePurchaseState::REJECTED => EcomPurchaseState::REJECTED,
            OnlinePurchaseState::DELIVERED => EcomPurchaseState::DELIVERED,
            OnlinePurchaseState::LOST => EcomPurchaseState::LOST,
        }
    }

    /// Draws the outcome of a delivery: the purchase arrives or is lost.
    pub fn set_delivery_status(&mut self)
        ensures
            *final(self) == EcomPurchaseState::DELIVERED || *final(self)
                == EcomPurchaseState::LOST,
    {
        let is_delivered = draw_ratio(DELIVER_RATE_HITS, DELIVER_RATE_OUT_OF);
        *self = EcomPurchaseState::from_shop_state(outcome_of_draw(is_delivered));
    }

    /// The state that a wire code stands for, if it stands for one.
    pub fn from_int(code: u8) -> (state: Option<EcomPurchaseState>)
        ensures
            state == EcomPurchaseState::of_code(code),
    {
        match code {
            0 => Some(EcomPurchaseState::PROCESSING),
            1 => Some(EcomPurchaseState::RESERVED),
            2 => Some(EcomPurchaseState::REJECTED),
            3 => Some(EcomPurchaseState::DELIVERED),
            4 => Some(EcomPurchaseState::LOST),
            _ => None,
        }
    }

    /// The code of the state on the wire.
    pub fn to_int(&self) -> (code: u8)
        ensures
            code == self.code(),
    {
        match self {
            EcomPurchaseState::PROCESSING => 0,
            EcomPurchaseState::RESERVED => 1,
            EcomPurchaseState::REJECTED => 2,
            EcomPurchaseState::DELIVERED => 3,
            EcomPurchaseState::LOST => 4,
        }
    }

    /// Every state has a code from 0 to 4 that stands for it alone, and the
    /// router and the shop name the same state by the same code.
    pub proof fn lemma_code_reads_back(self)
        ensures
            self.code() <= 4,
            EcomPurchaseState::of_code(self.code()) == Some(self),
            EcomPurchaseState::of_shop_state(self.shop_state()) == self,
    {
    }

    /// A code stands for a state exactly when it is at most 4, and the
    /// state's code is then that code.
    pub proof fn lemma_state_of_code(code: u8)
        ensures
            EcomPurchaseState::of_code(code) is Some <==> code <= 4,
            EcomPurchaseState::of_code(code) matches Some(state) ==> state.code() == code,
    {
    }
}

} // verus!
