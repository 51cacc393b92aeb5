use concurrentes::ecom::connect_shops::ConnectShops;
use concurrentes::ecom::connected_shops::ConnectedShop;
use concurrentes::ecom::connection_handling::{command_for, parse_command, Command, Reconnect, Stop};
use concurrentes::ecom::ecom_actor::{read_response, Ecom, EcomOrder, ResponseOutcome};
use concurrentes::ecom::foward_order::FowardOrder;
use concurrentes::ecom::process_ecom_orders::ProcessEcomOrders;
use concurrentes::ecom::process_order::ProcessOrder;
use concurrentes::error::{FileError, StreamError};
use concurrentes::states::OnlinePurchaseState;
use std::collections::HashMap;

fn shop(name: &str, zone_id: i32, stream: u64) -> ConnectedShop {
    ConnectedShop {
        name: name.to_string(),
        zone_id,
        stream,
    }
}

fn ecom_with(zones: &[i32]) -> Ecom {
    let mut shops = Vec::new();
    for (i, &zone_id) in zones.iter().enumerate() {
        shops.push(shop(&format!("tienda {}", zone_id), zone_id, i as u64));
    }
    Ecom {
        name: String::from("ecom"),
        pending_orders: HashMap::new(),
        shops,
    }
}

fn order(id: u32, zone_id: i32) -> EcomOrder {
    EcomOrder {
        id,
        product_id: String::from("1"),
        quantity: 1,
        zone_id,
        shops_requested: vec![],
    }
}

fn zones_of(ecom: &Ecom) -> Vec<i32> {
    ecom.shops.iter().map(|s| s.zone_id).collect()
}

#[test]
fn test_from_file() {
    let streams = vec![ConnectedShop::from_reader("retiro,localhost:1700,1\n---\nmanzana,10\n").unwrap()];
    let first_stream = &streams[0];

    assert_eq!(streams.len(), 1);

    assert_eq!(first_stream.0, "retiro");
    assert_eq!(first_stream.1, 1);
    assert_eq!(first_stream.2, "localhost:1700");
}

#[test]
fn test_find_delivery_zone() {
    let conneted_shops = vec![
        shop("retiro", 1, 0),
        shop("palermo", 5, 1),
        shop("recoleta", 11, 2),
        shop("belgrano", 20, 3),
    ];
    let ecom = Ecom {
        name: String::from("ecom"),
        pending_orders: HashMap::new(),
        shops: conneted_shops,
    };

    let order1 = order(1, 1);
    let order4 = order(1, 4);
    let order7 = order(1, 7);
    let order15 = order(1, 15);
    let shop1 = ecom.find_delivery_shop(&order1).unwrap();
    let shop4 = ecom.find_delivery_shop(&order4).unwrap();
    let shop7 = ecom.find_delivery_shop(&order7).unwrap();
    let shop15 = ecom.find_delivery_shop(&order15).unwrap();

    assert_eq!(shop1.zone_id, 1);
    assert_eq!(shop4.zone_id, 5);
    assert_eq!(shop7.zone_id, 5);
    assert_eq!(shop15.zone_id, 11);
    assert_eq!(shop1.name, "retiro");
    assert_eq!(shop4.name, "palermo");
    assert_eq!(shop4.stream, 1);
    assert_eq!(shop15.name, "recoleta");
    assert_eq!(shop15.stream, 2);
}

#[test]
fn the_nearest_shop_skips_the_zones_that_had_the_order() {
    let ecom = ecom_with(&[1, 5, 11, 20]);
    let mut o = order(1, 4);
    o.shops_requested = vec![5];
    assert_eq!(ecom.find_delivery_shop(&o).unwrap().zone_id, 1);
    o.shops_requested = vec![5, 1];
    assert_eq!(ecom.find_delivery_shop(&o).unwrap().zone_id, 11);
    o.shops_requested = vec![5, 1, 11];
    assert_eq!(ecom.find_delivery_shop(&o).unwrap().zone_id, 20);
    o.shops_requested = vec![5, 1, 11, 20];
    assert!(ecom.find_delivery_shop(&o).is_none());
    assert!(ecom_with(&[]).find_delivery_shop(&order(1, 4)).is_none());
}

#[test]
fn of_two_shops_as_near_the_later_one_is_taken() {
    let ecom = ecom_with(&[1, 5]);
    assert_eq!(ecom.find_delivery_shop(&order(1, 3)).unwrap().zone_id, 5);
    let ecom = ecom_with(&[5, 1]);
    assert_eq!(ecom.find_delivery_shop(&order(1, 3)).unwrap().zone_id, 1);
    // Two links to one zone: the one added last wins.
    let ecom = ecom_with(&[5, 9, 5]);
    let found = ecom.find_delivery_shop(&order(1, 5)).unwrap();
    assert_eq!((found.zone_id, found.stream), (5, 2));
}

#[test]
fn distances_between_far_zones_do_not_wrap() {
    let ecom = ecom_with(&[i32::MAX, 0, i32::MIN]);
    assert_eq!(ecom.find_delivery_shop(&order(1, i32::MIN)).unwrap().zone_id, i32::MIN);
    assert_eq!(ecom.find_delivery_shop(&order(1, i32::MAX)).unwrap().zone_id, i32::MAX);
    assert_eq!(ecom.find_delivery_shop(&order(1, -1)).unwrap().zone_id, 0);
    let ecom = ecom_with(&[i32::MAX, i32::MIN]);
    assert_eq!(ecom.find_delivery_shop(&order(1, -1)).unwrap().zone_id, i32::MIN);
    assert_eq!(ecom.find_delivery_shop(&order(1, 0)).unwrap().zone_id, i32::MAX);
}

#[test]
fn an_order_goes_over_the_wire_as_a_line() {
    let o = EcomOrder {
        id: 12,
        product_id: String::from("pera verde"),
        quantity: 30,
        zone_id: -4,
        shops_requested: vec![1, 2, 3],
    };
    assert_eq!(o.as_string(), "12,pera verde,30,-4\n");
    assert_eq!(order(0, 0).as_string(), "0,1,1,0\n");
    let o = EcomOrder {
        id: u32::MAX,
        product_id: String::new(),
        quantity: u32::MAX,
        zone_id: i32::MIN,
        shops_requested: vec![],
    };
    assert_eq!(o.as_string(), "4294967295,,4294967295,-2147483648\n");
}

#[test]
fn an_order_is_copied_whole() {
    let mut o = order(3, 9);
    o.shops_requested = vec![4, 5];
    let copy = o.clone();
    assert_eq!(copy.id, 3);
    assert_eq!(copy.product_id, "1");
    assert_eq!(copy.quantity, 1);
    assert_eq!(copy.zone_id, 9);
    assert_eq!(copy.shops_requested, vec![4, 5]);
    let s = shop("retiro", 1, 77).clone();
    assert_eq!((s.name.as_str(), s.zone_id, s.stream), ("retiro", 1, 77));
}

#[test]
fn retry_on_loss() {
    let mut ecom = ecom_with(&[1, 5]);

    let forward = ecom.process_order(ProcessOrder(order(0, 3))).unwrap();
    assert_eq!(forward.shop.zone_id, 5);
    assert_eq!(forward.order.shops_requested, vec![5]);
    assert_eq!(forward.order.as_string(), "0,1,1,3\n");
    assert_eq!(ecom.pending_orders[&0].shops_requested, vec![5]);

    let next = match ecom.handle_response("0,4") {
        ResponseOutcome::Reroute(state, next) => {
            assert_eq!(state, OnlinePurchaseState::LOST);
            next
        }
        other => panic!("a lost purchase is routed again, not {:?}", other),
    };
    assert_eq!(next.0.shops_requested, vec![5]);
    let forward = ecom.process_order(next).unwrap();
    assert_eq!(forward.shop.zone_id, 1);
    assert_eq!(forward.order.shops_requested, vec![5, 1]);
    assert_eq!(ecom.pending_orders[&0].shops_requested, vec![5, 1]);

    let next = match ecom.handle_response("0,4") {
        ResponseOutcome::Reroute(_, next) => next,
        other => panic!("a lost purchase is routed again, not {:?}", other),
    };
    assert!(ecom.process_order(next).is_none());
    assert!(ecom.pending_orders.is_empty());
    assert_eq!(zones_of(&ecom), vec![1, 5]);
}

#[test]
fn a_delivery_settles_the_order() {
    let mut ecom = ecom_with(&[1, 5]);
    let _ = ecom.process_order(ProcessOrder(order(7, 1))).unwrap();
    let _ = ecom.process_order(ProcessOrder(order(8, 1))).unwrap();
    match ecom.handle_response("7,3") {
        ResponseOutcome::Delivered(done) => {
            assert_eq!(done.id, 7);
            assert_eq!(done.shops_requested, vec![1]);
        }
        other => panic!("expected a delivery, not {:?}", other),
    }
    assert!(!ecom.pending_orders.contains_key(&7));
    assert!(ecom.pending_orders.contains_key(&8));
}

#[test]
fn answers_that_are_no_delivery_ask_for_a_new_route() {
    for (code, state) in [
        (0, OnlinePurchaseState::RECEIVED),
        (1, OnlinePurchaseState::RESERVED),
        (2, OnlinePurchaseState::REJECTED),
        (4, OnlinePurchaseState::LOST),
    ] {
        let mut ecom = ecom_with(&[1, 5]);
        let _ = ecom.process_order(ProcessOrder(order(7, 1))).unwrap();
        match ecom.handle_response(&format!("7,{}", code)) {
            ResponseOutcome::Reroute(said, next) => {
                assert_eq!(said, state);
                assert_eq!(next.0.id, 7);
                assert_eq!(next.0.shops_requested, vec![1]);
            }
            other => panic!("expected a new route, not {:?}", other),
        }
        assert_eq!(ecom.pending_orders[&7].shops_requested, vec![1]);
        assert_eq!(ecom.pending_orders.len(), 1);
    }
}

#[test]
fn a_late_answer_for_a_settled_order_changes_nothing() {
    let mut ecom = ecom_with(&[1, 5]);
    let _ = ecom.process_order(ProcessOrder(order(7, 1))).unwrap();
    assert!(matches!(ecom.handle_response("7,3"), ResponseOutcome::Delivered(_)));
    for line in ["7,3", "7,4", "7,2", "7,1", "7,0", "99,4"] {
        assert!(matches!(ecom.handle_response(line), ResponseOutcome::Ignored), "{:?}", line);
        assert!(ecom.pending_orders.is_empty());
        assert_eq!(zones_of(&ecom), vec![1, 5]);
        assert_eq!(ecom.name, "ecom");
    }
}

#[test]
fn malformed_answers_are_dropped() {
    let mut ecom = ecom_with(&[1, 5]);
    let _ = ecom.process_order(ProcessOrder(order(7, 1))).unwrap();
    for line in ["", "7", "7,", ",3", "7,5", "7,256", "7,x", "x,3", "7;3", "-7,3", "7,-3", " 7,3", "4294967296,3"] {
        assert_eq!(read_response(line), None, "{:?}", line);
        assert!(matches!(ecom.handle_response(line), ResponseOutcome::Ignored), "{:?}", line);
        assert_eq!(ecom.pending_orders.len(), 1);
    }
    assert_eq!(read_response("7,3"), Some((7, OnlinePurchaseState::DELIVERED)));
    assert_eq!(read_response("+7,03,more"), Some((7, OnlinePurchaseState::DELIVERED)));
    assert_eq!(read_response("4294967295,0"), Some((u32::MAX, OnlinePurchaseState::RECEIVED)));
}

#[test]
fn timeout_only_retry() {
    let mut ecom = ecom_with(&[1, 5]);
    let first = ecom.process_order(ProcessOrder(order(0, 3))).unwrap();
    assert_eq!(first.shop.zone_id, 5);

    // The shop never answers: the wait runs out with the order still pending
    // and zone 5 still the last one tried.
    let next = ecom.loss_timeout(&first).unwrap();
    assert_eq!(next.0.id, 0);
    assert_eq!(next.0.shops_requested, vec![5]);
    let second = ecom.process_order(next).unwrap();
    assert_eq!(second.shop.zone_id, 1);
    assert_eq!(second.order.shops_requested, vec![5, 1]);
}

#[test]
fn a_timeout_for_a_zone_that_is_not_the_last_one_changes_nothing() {
    let mut ecom = ecom_with(&[1, 5]);
    let first = ecom.process_order(ProcessOrder(order(0, 3))).unwrap();
    let next = ecom.loss_timeout(&first).unwrap();
    let second = ecom.process_order(next).unwrap();

    // The first wait's timeout comes again, after the order went on.
    assert!(ecom.loss_timeout(&first).is_none());
    assert_eq!(ecom.pending_orders[&0].shops_requested, vec![5, 1]);
    // The second wait's timeout still counts.
    assert!(ecom.loss_timeout(&second).is_some());
}

#[test]
fn a_timeout_for_a_settled_order_changes_nothing() {
    let mut ecom = ecom_with(&[1, 5]);
    let first = ecom.process_order(ProcessOrder(order(0, 3))).unwrap();
    assert!(matches!(ecom.handle_response("0,3"), ResponseOutcome::Delivered(_)));
    assert!(ecom.loss_timeout(&first).is_none());
    assert!(ecom.pending_orders.is_empty());
}

#[test]
fn a_timeout_for_an_order_that_was_never_sent_changes_nothing() {
    let mut ecom = ecom_with(&[1, 5]);
    ecom.pending_orders.insert(4, order(4, 3));
    let stale = FowardOrder {
        order: order(4, 3),
        shop: shop("tienda 5", 5, 1),
    };
    assert!(ecom.loss_timeout(&stale).is_none());
}

#[test]
fn operator_stop_and_reconnect() {
    let mut ecom = ecom_with(&[1, 5]);
    let first = ecom.process_order(ProcessOrder(order(0, 3))).unwrap();
    assert_eq!(first.shop.zone_id, 5);

    let command = command_for("s5".to_string()).unwrap().unwrap();
    let closed = match command {
        Command::Stop(stop) => ecom.stop(stop),
        Command::Reconnect(_) => panic!("s stops"),
    };
    let closed = closed.unwrap();
    assert_eq!((closed.zone_id, closed.stream), (5, 1));
    assert_eq!(zones_of(&ecom), vec![1]);

    let next = ecom.loss_timeout(&first).unwrap();
    let second = ecom.process_order(next).unwrap();
    assert_eq!(second.shop.zone_id, 1);

    let descriptors = vec![
        ("retiro".to_string(), 1, "localhost:1700".to_string()),
        ("palermo".to_string(), 5, "localhost:1701".to_string()),
    ];
    let command = command_for("r5".to_string()).unwrap().unwrap();
    let found = match command {
        Command::Reconnect(reconnect) => ecom.reconnect(&reconnect, &descriptors),
        Command::Stop(_) => panic!("r calls again"),
    };
    let (name, zone_id, address) = found.unwrap();
    assert_eq!((name.as_str(), zone_id, address.as_str()), ("palermo", 5, "localhost:1701"));
    assert!(ecom.connect_shop(name, zone_id, Some(9)).is_ok());
    assert_eq!(zones_of(&ecom), vec![1, 5]);
    assert_eq!(ecom.shops[1].stream, 9);

    // The shop is back for new orders, not for the one that had it.
    let fresh = ecom.process_order(ProcessOrder(order(1, 5))).unwrap();
    assert_eq!(fresh.shop.zone_id, 5);
    let next = ecom.loss_timeout(&second).unwrap();
    assert!(ecom.process_order(next).is_none());
    assert!(!ecom.pending_orders.contains_key(&0));
    assert!(ecom.pending_orders.contains_key(&1));
}

#[test]
fn a_stop_drops_every_shop_of_the_zone() {
    let mut ecom = ecom_with(&[5, 1, 5, 7, 5]);
    let closed = ecom.stop(Stop(5)).unwrap();
    assert_eq!((closed.zone_id, closed.stream), (5, 0));
    assert_eq!(zones_of(&ecom), vec![1, 7]);
    assert_eq!(ecom.shops[0].stream, 1);
    assert_eq!(ecom.shops[1].stream, 3);
    assert!(ecom.stop(Stop(5)).is_none());
    assert!(ecom.stop(Stop(99)).is_none());
    assert_eq!(zones_of(&ecom), vec![1, 7]);
}

#[test]
fn a_reconnect_takes_the_first_descriptor_of_the_zone() {
    let ecom = ecom_with(&[]);
    let descriptors = vec![
        ("a".to_string(), 1, "h:1".to_string()),
        ("b".to_string(), 2, "h:2".to_string()),
        ("c".to_string(), 2, "h:3".to_string()),
    ];
    assert_eq!(
        ecom.reconnect(&Reconnect(2), &descriptors),
        Some(("b".to_string(), 2, "h:2".to_string()))
    );
    assert_eq!(
        ecom.reconnect(&Reconnect(1), &descriptors),
        Some(("a".to_string(), 1, "h:1".to_string()))
    );
    assert_eq!(ecom.reconnect(&Reconnect(3), &descriptors), None);
    assert_eq!(ecom.reconnect(&Reconnect(1), &Vec::new()), None);
}

#[test]
fn a_shop_that_does_not_pick_up_is_not_added() {
    let mut ecom = ecom_with(&[1]);
    let done = ecom.connect_shop("palermo".to_string(), 5, None);
    assert!(matches!(done, Err(StreamError::CannotCall)));
    assert_eq!(zones_of(&ecom), vec![1]);
    let done = ecom.connect_shop("palermo".to_string(), 5, Some(3));
    assert!(done.is_ok());
    assert_eq!(zones_of(&ecom), vec![1, 5]);
    assert_eq!(ecom.shops[1].name, "palermo");
    // Calling a connected zone again adds a second entry, which wins.
    assert!(ecom.connect_shop("palermo".to_string(), 5, Some(4)).is_ok());
    assert_eq!(zones_of(&ecom), vec![1, 5, 5]);
    assert_eq!(ecom.find_delivery_shop(&order(0, 5)).unwrap().stream, 4);
}

#[test]
fn the_shops_that_picked_up_join_in_order() {
    let mut ecom = ecom_with(&[9]);
    ecom.connect_shops(
        ConnectShops,
        vec![
            ("a".to_string(), 1, Some(10)),
            ("b".to_string(), 2, None),
            ("c".to_string(), 3, Some(11)),
        ],
    );
    assert_eq!(zones_of(&ecom), vec![9, 1, 3]);
    assert_eq!(ecom.shops[1].name, "a");
    assert_eq!(ecom.shops[1].stream, 10);
    assert_eq!(ecom.shops[2].name, "c");
    assert_eq!(ecom.shops[2].stream, 11);
    ecom.connect_shops(ConnectShops, Vec::new());
    assert_eq!(zones_of(&ecom), vec![9, 1, 3]);
}

#[test]
fn commands_of_the_operator() {
    assert_eq!(parse_command("s5".to_string()).unwrap(), ("s".to_string(), 5));
    assert_eq!(parse_command("r-12".to_string()).unwrap(), ("r".to_string(), -12));
    assert_eq!(parse_command("x+3".to_string()).unwrap(), ("x".to_string(), 3));
    assert_eq!(parse_command("55".to_string()).unwrap(), ("5".to_string(), 5));
    for line in ["", "s", "r", "s 5", "s5 ", "stop5", "ñ5", "s2147483648", "5"] {
        assert!(
            matches!(parse_command(line.to_string()), Err(StreamError::WrongFormat)),
            "{:?}",
            line
        );
        assert!(
            matches!(command_for(line.to_string()), Err(StreamError::WrongFormat)),
            "{:?}",
            line
        );
    }
    assert!(matches!(command_for("s5".to_string()), Ok(Some(Command::Stop(Stop(5))))));
    assert!(matches!(
        command_for("r-1".to_string()),
        Ok(Some(Command::Reconnect(Reconnect(-1))))
    ));
    assert!(matches!(command_for("x5".to_string()), Ok(None)));
    assert!(matches!(command_for("S5".to_string()), Ok(None)));
}

#[test]
fn a_request_for_a_pending_order_goes_by_the_pending_one() {
    let mut ecom = ecom_with(&[1, 5, 11]);
    let _ = ecom.process_order(ProcessOrder(order(0, 4))).unwrap();
    // The request carries a stale copy without any zone.
    let forward = ecom.process_order(ProcessOrder(order(0, 4))).unwrap();
    assert_eq!(forward.shop.zone_id, 1);
    assert_eq!(forward.order.shops_requested, vec![5, 1]);
}

#[test]
fn no_zone_is_tried_twice_and_every_order_ends() {
    let mut ecom = ecom_with(&[3, 1, 5, 5, 11, 1, 20]);
    let mut next = Some(ProcessOrder(order(0, 4)));
    let mut tried: Vec<i32> = Vec::new();
    let mut requests = 0;
    while let Some(request) = next.take() {
        requests += 1;
        assert!(requests <= 8);
        match ecom.process_order(request) {
            Some(forward) => {
                assert!(!tried.contains(&forward.shop.zone_id));
                tried.push(forward.shop.zone_id);
                assert_eq!(forward.order.shops_requested, tried);
                assert_eq!(ecom.pending_orders[&0].shops_requested, tried);
                next = ecom.loss_timeout(&forward);
                assert!(next.is_some());
            }
            None => assert!(!ecom.pending_orders.contains_key(&0)),
        }
    }
    assert_eq!(tried, vec![5, 3, 1, 11, 20]);
    assert_eq!(requests, 6);
}

#[test]
fn an_order_without_any_shop_is_given_up_at_once() {
    let mut ecom = ecom_with(&[]);
    assert!(ecom.process_order(ProcessOrder(order(0, 4))).is_none());
    assert!(ecom.pending_orders.is_empty());
}

#[test]
fn a_router_is_read_from_its_descriptor() {
    let ecom = Ecom::from_reader("mercado\n---\nmanzana,1,3\n").unwrap();
    assert_eq!(ecom.name, "mercado");
    assert!(ecom.pending_orders.is_empty());
    assert!(ecom.shops.is_empty());
    assert_eq!(Ecom::from_reader("solo").unwrap().name, "solo");
    assert_eq!(Ecom::from_reader("\n").unwrap().name, "");
    assert_eq!(Ecom::from_reader("mercado\r\nnot,read,at,all").unwrap().name, "mercado");
    for text in ["", "mercado,localhost:1", ",", "a,b,c\n---\n"] {
        assert!(matches!(Ecom::from_reader(text), Err(FileError::WrongFormat)), "{:?}", text);
    }
}

#[test]
fn orders_are_read_from_a_descriptor() {
    let orders = Ecom::orders_from_reader("mercado\n---\nmanzana,1,3\npera verde,20,-4\n,0,+0\n").unwrap();
    assert_eq!(orders.len(), 3);
    assert_eq!(orders[0].id, 0);
    assert_eq!(orders[0].product_id, "manzana");
    assert_eq!(orders[0].quantity, 1);
    assert_eq!(orders[0].zone_id, 3);
    assert!(orders[0].shops_requested.is_empty());
    assert_eq!(orders[1].id, 1);
    assert_eq!(orders[1].product_id, "pera verde");
    assert_eq!(orders[1].quantity, 20);
    assert_eq!(orders[1].zone_id, -4);
    assert_eq!(orders[2].id, 2);
    assert_eq!(orders[2].product_id, "");
    assert_eq!(orders[2].quantity, 0);
    assert_eq!(orders[2].zone_id, 0);

    assert!(Ecom::orders_from_reader("").unwrap().is_empty());
    assert!(Ecom::orders_from_reader("mercado").unwrap().is_empty());
    assert!(Ecom::orders_from_reader("any,thing\nat all").unwrap().is_empty());
    for text in [
        "m\n---\nmanzana,1",
        "m\n---\nmanzana,1,3,4",
        "m\n---\nmanzana,x,3",
        "m\n---\nmanzana,1,x",
        "m\n---\nmanzana,-1,3",
        "m\n---\nmanzana,1,2147483648",
        "m\n---\nmanzana,1,3\n\n",
        "m\n---\n\n",
    ] {
        assert!(
            matches!(Ecom::orders_from_reader(text), Err(FileError::WrongFormat)),
            "{:?}",
            text
        );
    }
}

#[test]
fn a_shop_to_call_is_read_from_its_descriptor() {
    assert_eq!(
        ConnectedShop::from_reader("palermo,localhost:1701,5").unwrap(),
        ("palermo".to_string(), 5, "localhost:1701".to_string())
    );
    assert_eq!(
        ConnectedShop::from_reader("a,b,-3\nthis,is,not,read").unwrap(),
        ("a".to_string(), -3, "b".to_string())
    );
    for text in ["", "\n", "a,b", "a,b,c", "a,b,1,2"] {
        assert!(
            matches!(ConnectedShop::from_reader(text), Err(FileError::WrongFormat)),
            "{:?}",
            text
        );
    }
}

#[test]
fn online_orders_enter_the_router_one_by_one() {
    assert!(ProcessEcomOrders(Vec::new()).next_order().is_none());

    let (first, rest) = ProcessEcomOrders(vec![order(0, 1)]).next_order().unwrap();
    assert_eq!(first.0.id, 0);
    assert!(rest.is_none());

    let list = ProcessEcomOrders(vec![order(0, 1), order(1, 2), order(2, 3)]);
    let (first, rest) = list.next_order().unwrap();
    assert_eq!((first.0.id, first.0.zone_id), (0, 1));
    let rest = rest.unwrap();
    assert_eq!(rest.0.len(), 2);
    let (second, rest) = rest.next_order().unwrap();
    assert_eq!((second.0.id, second.0.zone_id), (1, 2));
    let (third, rest) = rest.unwrap().next_order().unwrap();
    assert_eq!((third.0.id, third.0.zone_id), (2, 3));
    assert!(rest.is_none());
}
