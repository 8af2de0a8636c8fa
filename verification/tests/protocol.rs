use libp2p_grpc_rs::protocol::{
    DEFAULT_PROTOCOL_NAME, DirectGrpcUpgradeProtocol, FIRST_INBOUND_ID, FIRST_OUTBOUND_ID,
    InboundId, InboundIdGen, OutboundId,
};

#[test]
fn outbound_ids_print_in_decimal() {
    assert_eq!(OutboundId::new(0).to_string(), "0");
    assert_eq!(OutboundId::new(9).to_string(), "9");
    assert_eq!(OutboundId::new(10).to_string(), "10");
    assert_eq!(OutboundId::new(1234567890).to_string(), "1234567890");
    assert_eq!(OutboundId::new(u64::MAX).to_string(), "18446744073709551615");
}

#[test]
fn inbound_ids_print_in_decimal() {
    assert_eq!(InboundId::new(0).to_string(), "0");
    assert_eq!(InboundId::new(7).to_string(), "7");
    assert_eq!(InboundId::new(100).to_string(), "100");
    assert_eq!(InboundId::new(u64::MAX).to_string(), format!("{}", u64::MAX));
}

#[test]
fn ids_print_as_their_numbers_do() {
    let mut n: u64 = 1;
    while n < u64::MAX / 7 {
        assert_eq!(OutboundId::new(n).to_string(), format!("{}", n));
        assert_eq!(InboundId::new(n).to_string(), format!("{}", n));
        n = n * 3 + 1;
    }
}

#[test]
fn ids_default_to_zero() {
    assert_eq!(OutboundId::default(), OutboundId::new(0));
    assert_eq!(InboundId::default(), InboundId::new(0));
}

#[test]
fn ids_move_on_by_addition() {
    let mut outbound = OutboundId::new(41);
    outbound.add_assign(1);
    assert_eq!(outbound, OutboundId::new(42));
    outbound.add_assign(0);
    assert_eq!(outbound, OutboundId::new(42));

    let mut inbound = InboundId::new(u64::MAX - 5);
    inbound.add_assign(5);
    assert_eq!(inbound, InboundId::new(u64::MAX));
}

#[test]
fn ids_compare_by_their_numbers() {
    assert_eq!(OutboundId::new(3), OutboundId::new(3));
    assert_ne!(OutboundId::new(3), OutboundId::new(4));
    assert_eq!(InboundId::new(3), InboundId::new(3));
    assert_ne!(InboundId::new(3), InboundId::new(4));
}

#[test]
fn first_ids_are_one() {
    assert_eq!(FIRST_INBOUND_ID, 1);
    assert_eq!(FIRST_OUTBOUND_ID, 1);
}

#[test]
fn generator_draws_in_ascending_order() {
    let mut ids = InboundIdGen::new(1);
    assert_eq!(ids.next(), InboundId::new(1));
    assert_eq!(ids.next(), InboundId::new(2));
    assert_eq!(ids.next(), InboundId::new(3));
}

#[test]
fn generator_of_a_node_draws_one_first() {
    let mut ids = InboundIdGen::for_node();
    assert_eq!(ids.next(), InboundId::new(FIRST_INBOUND_ID));
    assert_eq!(ids.next(), InboundId::new(2));
}

#[test]
fn drawn_ids_are_consecutive() {
    let start = u64::MAX - 3;
    let mut ids = InboundIdGen::new(start);
    for i in 0..9u64 {
        assert_eq!(ids.next(), InboundId::new(start.wrapping_add(i)));
    }
}

#[test]
fn generator_defaults_to_zero() {
    let mut ids = InboundIdGen::default();
    assert_eq!(ids.next(), InboundId::new(0));
    assert_eq!(ids.next(), InboundId::new(1));
}

#[test]
fn generator_starts_over_at_its_end() {
    let mut ids = InboundIdGen::new(u64::MAX);
    assert_eq!(ids.next(), InboundId::new(u64::MAX));
    assert_eq!(ids.next(), InboundId::new(0));
    assert_eq!(ids.next(), InboundId::new(1));
}

#[test]
fn drawn_ids_differ() {
    let mut ids = InboundIdGen::new(u64::MAX - 10);
    let drawn: Vec<InboundId> = (0..40).map(|_| ids.next()).collect();
    for i in 0..drawn.len() {
        for j in 0..i {
            assert_ne!(drawn[i], drawn[j]);
        }
    }
}

#[test]
fn default_protocol_has_its_name() {
    assert_eq!(DEFAULT_PROTOCOL_NAME, "/libp2p/grpc/1.0.0");
}

#[test]
fn upgrade_negotiates_its_name_and_keeps_the_stream() {
    let upgrade = DirectGrpcUpgradeProtocol { protocol_name: "/a/b".to_string() };
    assert_eq!(upgrade.protocol_info(), "/a/b");
    assert_eq!(upgrade.upgrade_outbound(17u32), 17);
    let upgrade = DirectGrpcUpgradeProtocol { protocol_name: "/a/b".to_string() };
    assert_eq!(upgrade.upgrade_inbound("stream"), "stream");
}
