use quic_recovery::Prr;

#[test]
fn new_starts_at_zero() {
    let prr = Prr::new();
    assert_eq!(prr.bytes_sent_during_recovery, 0);
    assert_eq!(prr.bytes_delivered_during_recovery, 0);
    assert_eq!(prr.bytes_in_flight_at_recovery, 0);
    assert_eq!(prr.bytes_allowed_on_ack, 0);
}

#[test]
fn congestion_event_resets_budget() {
    let mut prr = Prr::new();
    prr.on_packet_sent(300);
    prr.on_ack(400, 500, 1000, 1200);
    assert!(prr.bytes_allowed_on_ack > 0);

    prr.on_congestion_event(800);

    assert_eq!(prr.bytes_in_flight_at_recovery, 800);
    assert_eq!(prr.bytes_sent_during_recovery, 0);
    assert_eq!(prr.bytes_delivered_during_recovery, 0);
    assert_eq!(prr.bytes_allowed_on_ack, 0);
    assert!(!prr.can_transmit(1));
}

#[test]
fn congestion_avoidance_regime() {
    let mut prr = Prr::new();
    prr.on_congestion_event(1000);
    assert_eq!(prr.bytes_in_flight_at_recovery, 1000);

    // bytes_in_flight 1200 > ssthresh 800: ceil(500 * 800 / 1000) - 0 = 400
    prr.on_ack(500, 1200, 800, 1200);
    assert_eq!(prr.bytes_allowed_on_ack, 400);
    assert!(prr.can_transmit(400));
    assert!(!prr.can_transmit(401));
}

#[test]
fn slow_start_reduction_bound_regime() {
    let mut prr = Prr::new();
    prr.on_congestion_event(1000);
    prr.on_packet_sent(100);

    // delivered becomes 300, sent is 100, bytes_in_flight 400 <= ssthresh 900:
    // limit = max(300 - 100, 400) + 200 = 600; budget = min(600, 900 - 400) = 500
    prr.on_ack(300, 400, 900, 200);
    assert_eq!(prr.bytes_delivered_during_recovery, 300);
    assert_eq!(prr.bytes_sent_during_recovery, 100);
    assert_eq!(prr.bytes_allowed_on_ack, 500);
    assert!(prr.can_transmit(500));
    assert!(!prr.can_transmit(501));
}

#[test]
fn zero_recovery_snapshot_guards_division() {
    let mut prr = Prr::new();
    prr.on_congestion_event(0);

    // congestion-avoidance regime with a zero snapshot: budget stays zero
    prr.on_ack(500, 1200, 800, 1200);
    assert_eq!(prr.bytes_allowed_on_ack, 0);
    assert!(!prr.can_transmit(1));
}

#[test]
fn sending_consumes_budget_and_saturates() {
    let mut prr = Prr::new();
    prr.on_congestion_event(1000);
    prr.on_ack(500, 1200, 800, 1200);
    assert_eq!(prr.bytes_allowed_on_ack, 400);

    prr.on_packet_sent(150);
    assert_eq!(prr.bytes_allowed_on_ack, 250);
    assert_eq!(prr.bytes_sent_during_recovery, 150);

    // spending more than the budget clamps it at zero, never underflows
    prr.on_packet_sent(1000);
    assert_eq!(prr.bytes_allowed_on_ack, 0);
    assert_eq!(prr.bytes_sent_during_recovery, 1150);
    assert!(!prr.can_transmit(1));
}

#[test]
fn budget_gates_transmission() {
    let mut prr = Prr::new();
    prr.on_congestion_event(1000);
    prr.on_ack(250, 1200, 800, 1200);
    // ceil(250 * 800 / 1000) = 200
    assert_eq!(prr.bytes_allowed_on_ack, 200);
    for size in [1u16, 100, 199, 200, 201, 1200] {
        assert_eq!(prr.can_transmit(size), usize::from(size) <= 200);
    }
}

#[test]
fn disabled_without_enablement_signal() {
    let prr = Prr::new();
    assert!(!prr.is_enabled());
}
