use detguest::wire::events::{encode_event, pack_agent_version, EventPayload};
use detguest::wire::record::MAX_RECORD_LEN;
use detguest::wire::FaultDecision;

fn encoded_event(seq: u32, vnanos: u64, flags: u8, ev: &EventPayload<'_>) -> Vec<u8> {
    let mut buf = [0u8; MAX_RECORD_LEN];
    let n = encode_event(&mut buf, seq, vnanos, flags, ev).unwrap();
    buf[..n].to_vec()
}

#[test]
fn fault_decision_packed_golden_values() {
    assert_eq!(FaultDecision::Proceed.pack(), 0);
    assert_eq!(FaultDecision::Platform { kind: 2, arg: 512 }.pack(), 0x0002_0002);
    assert_eq!(FaultDecision::Workload { kind: 200, arg: 0xFF_FFFF }.pack(), 0xFFFF_FFC8);
    assert_eq!(FaultDecision::unpack(0x0002_0002), FaultDecision::Platform { kind: 2, arg: 512 });
    assert_eq!(
        FaultDecision::unpack(0xFFFF_FFC8),
        FaultDecision::Workload { kind: 200, arg: 0xFF_FFFF }
    );
}

#[test]
fn hand_derived_spec_literals() {
    let bytes = encoded_event(5, 7, 0, &EventPayload::FrameMark { frame_index: 60 });
    assert_eq!(
        bytes,
        [
            0x18, 0x00, 0x0D, 0x00, 0x05, 0x00, 0x00, 0x00, 0x07, 0x00, 0x00, 0x00, 0x00, 0x00,
            0x00, 0x00, 0x3C, 0x00, 0x00, 0x00, 0x00, 0x00, 0x00, 0x00,
        ]
    );
    let bytes = encoded_event(
        5,
        7,
        0,
        &EventPayload::Ready { unit: 0xFFFF_FFFF, region_count: 0, manifest_generation: 2 },
    );
    assert_eq!(
        bytes,
        [
            0x20, 0x00, 0x0E, 0x00, 0x05, 0x00, 0x00, 0x00, 0x07, 0x00, 0x00, 0x00, 0x00, 0x00,
            0x00, 0x00, 0xFF, 0xFF, 0xFF, 0xFF, 0x00, 0x00, 0x00, 0x00, 0x02, 0x00, 0x00, 0x00,
            0x00, 0x00, 0x00, 0x00,
        ]
    );
    let bytes = encoded_event(
        0,
        0,
        0,
        &EventPayload::Hello {
            proto_version: 1,
            agent_version: pack_agent_version(0, 1, 0),
            capabilities: 3,
        },
    );
    assert_eq!(
        bytes,
        [
            0x20, 0x00, 0x01, 0x00, 0x00, 0x00, 0x00, 0x00, 0x00, 0x00, 0x00, 0x00, 0x00, 0x00,
            0x00, 0x00, 0x01, 0x00, 0x00, 0x00, 0x00, 0x01, 0x00, 0x00, 0x03, 0x00, 0x00, 0x00,
            0x00, 0x00, 0x00, 0x00,
        ]
    );
    let bytes = encoded_event(
        5,
        7,
        0,
        &EventPayload::WorkloadExited { guest_pid: 2, exit_code: -1, term_signal: 9 },
    );
    assert_eq!(
        bytes,
        [
            0x20, 0x00, 0x0A, 0x00, 0x05, 0x00, 0x00, 0x00, 0x07, 0x00, 0x00, 0x00, 0x00, 0x00,
            0x00, 0x00, 0x02, 0x00, 0x00, 0x00, 0xFF, 0xFF, 0xFF, 0xFF, 0x09, 0x00, 0x00, 0x00,
            0x00, 0x00, 0x00, 0x00,
        ]
    );
}
