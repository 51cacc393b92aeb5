use concurrentes::chance::{deliver_millis, ecom_procesing_millis, local_procesing_millis};
use concurrentes::constants::{
    DELIVER_MILLIS_MAX, DELIVER_MILLIS_MIN, DELIVER_RATE_HITS, DELIVER_RATE_OUT_OF,
    ECOM_MAX_WAITING_MILLIS, ECOM_PROCESING_MILLIS_MAX, ECOM_PROCESING_MILLIS_MIN,
    LOCAL_PROCESING_MILLIS_MAX, LOCAL_PROCESING_MILLIS_MIN, PURCHASE_MILLIS,
};

#[test]
fn timing_constants() {
    assert_eq!(PURCHASE_MILLIS, 200);
    assert_eq!((LOCAL_PROCESING_MILLIS_MIN, LOCAL_PROCESING_MILLIS_MAX), (100, 300));
    assert_eq!((DELIVER_MILLIS_MIN, DELIVER_MILLIS_MAX), (500, 700));
    assert_eq!((ECOM_PROCESING_MILLIS_MIN, ECOM_PROCESING_MILLIS_MAX), (250, 400));
    assert_eq!(ECOM_MAX_WAITING_MILLIS, 5000);
    assert_eq!((DELIVER_RATE_HITS, DELIVER_RATE_OUT_OF), (1, 2));
}

#[test]
fn delays_stay_in_their_ranges_and_vary() {
    let mut local = Vec::new();
    let mut deliver = Vec::new();
    let mut ecom = Vec::new();
    for _ in 0..300 {
        let l = local_procesing_millis();
        assert!((100..=300).contains(&l));
        local.push(l);
        let d = deliver_millis();
        assert!((500..=700).contains(&d));
        deliver.push(d);
        let e = ecom_procesing_millis();
        assert!((250..=400).contains(&e));
        ecom.push(e);
    }
    // A draw that always gave back a bound of its range would fail here.
    assert!(local.iter().any(|&l| l != local[0]));
    assert!(deliver.iter().any(|&d| d != deliver[0]));
    assert!(ecom.iter().any(|&e| e != ecom[0]));
}
