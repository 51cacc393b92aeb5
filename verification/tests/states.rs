use concurrentes::messages::ecom_purchase::EcomPurchaseState;
use concurrentes::states::{outcome_of_draw, LocalPurchaseState, OnlinePurchaseState};

#[test]
fn wire_codes_read_back() {
    for code in 0u8..=4 {
        let state = OnlinePurchaseState::from_int(code).unwrap();
        assert_eq!(state.to_int(), code);
    }
    assert!(OnlinePurchaseState::from_int(5).is_none());
    assert!(OnlinePurchaseState::from_int(255).is_none());
}

#[test]
fn wire_codes_are_the_documented_ones() {
    assert_eq!(OnlinePurchaseState::RECEIVED.to_int(), 0);
    assert_eq!(OnlinePurchaseState::RESERVED.to_int(), 1);
    assert_eq!(OnlinePurchaseState::REJECTED.to_int(), 2);
    assert_eq!(OnlinePurchaseState::DELIVERED.to_int(), 3);
    assert_eq!(OnlinePurchaseState::LOST.to_int(), 4);
    assert_eq!(OnlinePurchaseState::from_int(0), Some(OnlinePurchaseState::RECEIVED));
    assert_eq!(OnlinePurchaseState::from_int(1), Some(OnlinePurchaseState::RESERVED));
    assert_eq!(OnlinePurchaseState::from_int(2), Some(OnlinePurchaseState::REJECTED));
    assert_eq!(OnlinePurchaseState::from_int(3), Some(OnlinePurchaseState::DELIVERED));
    assert_eq!(OnlinePurchaseState::from_int(4), Some(OnlinePurchaseState::LOST));
}

#[test]
fn labels_with_and_without_colour() {
    // Both settings are checked in one test: the switch is global.
    colored::control::set_override(false);
    assert_eq!(LocalPurchaseState::CREATED.string_to_print(), "CREADO");
    assert_eq!(LocalPurchaseState::SOLD.string_to_print(), "VENDIDO");
    assert_eq!(LocalPurchaseState::REJECTED.string_to_print(), "RECHAZADO");
    assert_eq!(OnlinePurchaseState::RECEIVED.string_to_print(), "RECIBIDO");
    assert_eq!(OnlinePurchaseState::RESERVED.string_to_print(), "RESERVADO");
    assert_eq!(OnlinePurchaseState::REJECTED.string_to_print(), "NO STOCK");
    assert_eq!(OnlinePurchaseState::DELIVERED.string_to_print(), "ENTREGADO");
    assert_eq!(OnlinePurchaseState::LOST.string_to_print(), "PERDIDO");

    colored::control::set_override(true);
    assert_eq!(LocalPurchaseState::CREATED.string_to_print(), "CREADO");
    assert_eq!(LocalPurchaseState::SOLD.string_to_print(), "\x1b[32mVENDIDO\x1b[0m");
    assert_eq!(LocalPurchaseState::REJECTED.string_to_print(), "\x1b[31mRECHAZADO\x1b[0m");
    assert_eq!(OnlinePurchaseState::RECEIVED.string_to_print(), "RECIBIDO");
    assert_eq!(OnlinePurchaseState::RESERVED.string_to_print(), "\x1b[33mRESERVADO\x1b[0m");
    assert_eq!(OnlinePurchaseState::REJECTED.string_to_print(), "\x1b[31mNO STOCK\x1b[0m");
    assert_eq!(OnlinePurchaseState::DELIVERED.string_to_print(), "\x1b[32mENTREGADO\x1b[0m");
    assert_eq!(OnlinePurchaseState::LOST.string_to_print(), "\x1b[31mPERDIDO\x1b[0m");
    colored::control::unset_override();
}

#[test]
fn a_delivery_attempt_ends_delivered_or_lost() {
    let mut delivered = 0;
    let mut lost = 0;
    for _ in 0..400 {
        let mut state = OnlinePurchaseState::RESERVED;
        state.deliver_attempt();
        match state {
            OnlinePurchaseState::DELIVERED => delivered += 1,
            OnlinePurchaseState::LOST => lost += 1,
            other => panic!("unexpected state {:?}", other),
        }
    }
    // Each outcome has an even chance, so both show up in 400 attempts.
    assert!(delivered > 0);
    assert!(lost > 0);
}

#[test]
fn a_draw_that_hits_delivers() {
    assert_eq!(outcome_of_draw(true), OnlinePurchaseState::DELIVERED);
    assert_eq!(outcome_of_draw(false), OnlinePurchaseState::LOST);
}

#[test]
fn bare_labels_of_in_store_purchases() {
    assert_eq!(LocalPurchaseState::CREATED.to_string(), "CREADO");
    assert_eq!(LocalPurchaseState::SOLD.to_string(), "VENDIDO");
    assert_eq!(LocalPurchaseState::REJECTED.to_string(), "RECHAZADO");
}

#[test]
fn the_router_names_states_by_the_same_codes() {
    let pairs = [
        (0u8, EcomPurchaseState::PROCESSING, OnlinePurchaseState::RECEIVED, "PROCESANDO"),
        (1, EcomPurchaseState::RESERVED, OnlinePurchaseState::RESERVED, "RESERVADO"),
        (2, EcomPurchaseState::REJECTED, OnlinePurchaseState::REJECTED, "RECHAZADO"),
        (3, EcomPurchaseState::DELIVERED, OnlinePurchaseState::DELIVERED, "ENTREGADO"),
        (4, EcomPurchaseState::LOST, OnlinePurchaseState::LOST, "PERDIDO"),
    ];
    for (code, named, reported, label) in pairs {
        assert_eq!(EcomPurchaseState::from_int(code), Some(named));
        assert_eq!(named.to_int(), code);
        assert_eq!(reported.to_int(), code);
        assert_eq!(EcomPurchaseState::from_shop_state(reported), named);
        assert_eq!(named.to_string(), label);
    }
    assert_eq!(EcomPurchaseState::from_int(5), None);
    assert_eq!(EcomPurchaseState::from_int(255), None);
}

#[test]
fn the_router_draws_a_delivery_too() {
    let mut delivered = 0;
    let mut lost = 0;
    for _ in 0..400 {
        let mut state = EcomPurchaseState::RESERVED;
        state.set_delivery_status();
        match state {
            EcomPurchaseState::DELIVERED => delivered += 1,
            EcomPurchaseState::LOST => lost += 1,
            other => panic!("unexpected state {:?}", other),
        }
    }
    assert!(delivered > 0);
    assert!(lost > 0);
}
