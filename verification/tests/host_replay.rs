use detguest::host::channel::Channel;
use detguest::host::guestmem::{read_u32, write_u32, GuestMem, MockGuestMem};
use detguest::host::inject::{FaultRule, InjectResponder, TableFaultPlan};
use detguest::host::replay::{apply_sink_op, apply_trace};
use detguest::host::sink::{RecordingSink, SinkOp};
use detguest::wire::events::{encode_event, encoded_event_len, Command, EventPayload, WorkloadCtrl};
use detguest::wire::header::{ChannelHeader, RingId, CHANNEL_SIZE, OFF_RESERVED};
use detguest::wire::ports::PORT_INJECT;
use detguest::wire::FaultDecision;

const BASE: u64 = 0x1000_0000;

fn fresh_mem() -> MockGuestMem {
    let mut gm = MockGuestMem::with_zeroed(BASE, CHANNEL_SIZE);
    let mut hdr = [0u8; OFF_RESERVED];
    ChannelHeader::canonical().write_to(&mut hdr).unwrap();
    gm.write(BASE, &hdr).unwrap();
    gm
}

fn write_guest_events(gm: &mut MockGuestMem, ring: RingId, events: &[EventPayload]) {
    let desc = ring.canonical_desc();
    let mut off = 0u32;
    for (seq, ev) in events.iter().enumerate() {
        let mut buf = [0u8; 4096];
        let n = encode_event(&mut buf, seq as u32, 1, 0, ev).unwrap();
        assert_eq!(n, encoded_event_len(ev));
        gm.write(BASE + desc.offset as u64 + off as u64, &buf[..n]).unwrap();
        off += n as u32;
    }
    gm.write(BASE + ring.prod_offset() as u64, &off.to_le_bytes()).unwrap();
}

fn guest_fixture(gm: &mut MockGuestMem) {
    write_guest_events(
        gm,
        RingId::A,
        &[EventPayload::Hello { proto_version: 1, agent_version: 0x100, capabilities: 0 }],
    );
    write_guest_events(
        gm,
        RingId::W,
        &[
            EventPayload::NameIntern { name_id: 1, name: b"io_read" },
            EventPayload::InjectQuery { iseq: 1, name_id: 1 },
        ],
    );
}

fn fixture_channel() -> Channel<MockGuestMem> {
    let mut gm = fresh_mem();
    guest_fixture(&mut gm);
    Channel::attach(gm, BASE).unwrap()
}

fn read_page(ch: &Channel<MockGuestMem>) -> Vec<u8> {
    let mut page = vec![0u8; CHANNEL_SIZE];
    ch.guest_mem().read(BASE, &mut page).unwrap();
    page
}

fn mixed_workload(ch: &mut Channel<MockGuestMem>, sink: &mut RecordingSink) {
    ch.push_command(&Command::SetLogMask { mask: 0x1F }, sink).unwrap();
    ch.push_workload_ctrl(&WorkloadCtrl::QuiesceReq { token: 7 }, sink).unwrap();
    ch.push_command(&Command::StartWorkload { unit: 0, log_mask: 3 }, sink).unwrap();
    let events = ch.drain_events(sink).unwrap();
    assert_eq!(events.len(), 3, "hello + intern + inject query");
    let mut responder = InjectResponder::new(TableFaultPlan::new(vec![FaultRule {
        name_glob: "io_*".into(),
        occurrence: None,
        decision: FaultDecision::Platform { kind: 2, arg: 64 },
    }]));
    responder.answer(ch, 1, sink);
    responder.answer(ch, 99, sink);
}

#[test]
fn every_host_mutation_is_reported_exactly_once() {
    let mut ch = fixture_channel();
    let mut sink = RecordingSink::default();
    mixed_workload(&mut ch, &mut sink);
    let pushes_c = sink.ops.iter().filter(|op| matches!(op, SinkOp::RingPush { ring: RingId::C, .. })).count();
    let pushes_i = sink.ops.iter().filter(|op| matches!(op, SinkOp::RingPush { ring: RingId::I, .. })).count();
    let bumps: Vec<(RingId, u32)> = sink
        .ops
        .iter()
        .filter_map(|op| match op {
            SinkOp::ConsBump { ring, new_cons } => Some((*ring, *new_cons)),
            _ => None,
        })
        .collect();
    let answers: Vec<u32> = sink
        .ops
        .iter()
        .filter_map(|op| match op {
            SinkOp::PioAnswer { port, value } => {
                assert_eq!(*port, PORT_INJECT);
                Some(*value)
            }
            _ => None,
        })
        .collect();
    assert_eq!(pushes_c, 2, "two push_command calls, one RingPush{{C}} each");
    assert_eq!(pushes_i, 1, "one push_workload_ctrl, one RingPush{{I}}");
    let cons_a = read_u32(ch.guest_mem(), BASE + RingId::A.prod_offset() as u64);
    let cons_w = read_u32(ch.guest_mem(), BASE + RingId::W.prod_offset() as u64);
    assert_eq!(bumps, vec![(RingId::A, cons_a.unwrap()), (RingId::W, cons_w.unwrap())]);
    assert_eq!(
        answers,
        vec![FaultDecision::Platform { kind: 2, arg: 64 }.pack(), 0],
        "exactly one pio_answer per IN — matched then unmatched"
    );
    assert_eq!(sink.ops.len(), 3 + 2 + 2, "no unaccounted mutations");
}

#[test]
fn single_ordered_trace_replays_all_host_mutations() {
    let mut ch1 = fixture_channel();
    let mut sink1 = RecordingSink::default();
    mixed_workload(&mut ch1, &mut sink1);
    let mut ch2 = fixture_channel();
    let mut sink2 = RecordingSink::default();
    apply_trace(&mut ch2, &sink1.ops, &mut sink2).unwrap();
    assert_eq!(sink2.ops, sink1.ops, "replay re-reports the same trace");
    assert_eq!(read_page(&ch2), read_page(&ch1), "byte-identical channel page after replaying host mutations");
}

#[test]
fn replay_reconstructs_wrap_pad_spans() {
    let cmd = Command::StartWorkload { unit: 0, log_mask: 0 };
    let mut ch1 = Channel::attach(fresh_mem(), BASE).unwrap();
    let mut sink1 = RecordingSink::default();
    while ch1.push_command(&cmd, &mut sink1).is_ok() {}
    let prod = read_u32(ch1.guest_mem(), ch1.prod_gpa(RingId::C)).unwrap();
    let seqs = ch1.producer_seqs();
    let mut gm = ch1.into_guest_mem();
    write_u32(&mut gm, BASE + RingId::C.cons_offset() as u64, prod).unwrap();
    let mut ch1 = Channel::attach(gm, BASE).unwrap();
    ch1.restore_producer_seqs(seqs);
    ch1.push_command(&cmd, &mut sink1).unwrap();

    let mut gm2 = fresh_mem();
    write_u32(&mut gm2, BASE + RingId::C.cons_offset() as u64, prod).unwrap();
    let mut ch2 = Channel::attach(gm2, BASE).unwrap();
    let mut sink2 = RecordingSink::default();
    apply_trace(&mut ch2, &sink1.ops, &mut sink2).unwrap();
    assert_eq!(read_page(&ch2), read_page(&ch1));
}

#[test]
fn pio_answers_replay_without_touching_memory() {
    let mut ch = Channel::attach(fresh_mem(), BASE).unwrap();
    let before = read_page(&ch);
    let mut sink = RecordingSink::default();
    apply_sink_op(&mut ch, &SinkOp::PioAnswer { port: PORT_INJECT, value: 5 }, &mut sink).unwrap();
    assert_eq!(read_page(&ch), before);
    assert_eq!(sink.ops, vec![SinkOp::PioAnswer { port: PORT_INJECT, value: 5 }]);
    apply_sink_op(&mut ch, &SinkOp::ConsBump { ring: RingId::W, new_cons: 64 }, &mut sink).unwrap();
    assert_eq!(read_u32(ch.guest_mem(), BASE + RingId::W.cons_offset() as u64).unwrap(), 64);
}
