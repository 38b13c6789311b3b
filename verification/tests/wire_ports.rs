use detguest::wire::ports::{
    FaultDecision, InitStatus, FAULT_ARG_MAX, IDENT_VALUE, PORT_DOORBELL, PORT_IDENT,
    PORT_INIT_GO, PORT_INIT_HI, PORT_INIT_LO, PORT_INJECT, PORT_QUIESCE_ACK, PORT_RANGE_END,
    PORT_RANGE_START,
};

#[test]
fn pack_golden_values() {
    assert_eq!(FaultDecision::Proceed.pack(), 0);
    assert_eq!(FaultDecision::Platform { kind: 2, arg: 512 }.pack(), 0x0002_0002);
    assert_eq!(FaultDecision::Workload { kind: 200, arg: 0xFF_FFFF }.pack(), 0xFFFF_FFC8);
}

#[test]
fn unpack_inverts_pack() {
    let cases = [
        FaultDecision::Proceed,
        FaultDecision::Platform { kind: 1, arg: 0 },
        FaultDecision::Platform { kind: 2, arg: 512 },
        FaultDecision::Platform { kind: 3, arg: 1000 },
        FaultDecision::Platform { kind: 63, arg: FAULT_ARG_MAX },
        FaultDecision::Workload { kind: 64, arg: 1 },
        FaultDecision::Workload { kind: 200, arg: 0xFF_FFFF },
        FaultDecision::Workload { kind: 255, arg: 0 },
    ];
    for c in cases {
        assert_eq!(FaultDecision::unpack(c.pack()), c);
    }
}

#[test]
fn kind_zero_is_always_proceed() {
    assert_eq!(FaultDecision::unpack(0xFFFF_FF00), FaultDecision::Proceed);
}

#[test]
fn ident_value_encodes_magic_and_proto() {
    assert_eq!(IDENT_VALUE >> 16, 0xD37E);
    assert_eq!(IDENT_VALUE & 0xFFFF, 1);
}

#[test]
fn ports_sit_inside_the_claimed_range() {
    for p in [
        PORT_IDENT,
        PORT_INIT_LO,
        PORT_INIT_HI,
        PORT_INIT_GO,
        PORT_DOORBELL,
        PORT_INJECT,
        PORT_QUIESCE_ACK,
    ] {
        assert!((PORT_RANGE_START..=PORT_RANGE_END).contains(&p));
    }
}

#[test]
fn init_status_words_round_trip() {
    for v in 0u32..4 {
        assert_eq!(InitStatus::from_u32(v).unwrap().to_u32(), v);
    }
    assert_eq!(InitStatus::from_u32(4), None);
    assert_eq!(InitStatus::from_u32(0), Some(InitStatus::Attached));
}
