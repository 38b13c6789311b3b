use detguest::host::channel::Channel;
use detguest::host::guestmem::{read_u32, write_u32, GuestMem, MockGuestMem};
use detguest::host::sink::{PushError, RecordingSink, SinkOp};
use detguest::wire::events::{decode_command, decode_workload_ctrl, Command, QuiesceMode, WorkloadCtrl};
use detguest::wire::header::{ChannelHeader, RingId, CHANNEL_SIZE, OFF_RESERVED};

const BASE: u64 = 0x1000_0000;

fn channel() -> Channel<MockGuestMem> {
    let mut gm = MockGuestMem::with_zeroed(BASE, CHANNEL_SIZE);
    let mut hdr = [0u8; OFF_RESERVED];
    ChannelHeader::canonical().write_to(&mut hdr).unwrap();
    gm.write(BASE, &hdr).unwrap();
    Channel::attach(gm, BASE).unwrap()
}

/// Simulate a guest-side store to an index cell: detach the memory, write,
/// re-attach, and carry the host's producer seqs across.
fn guest_store_u32(ch: Channel<MockGuestMem>, gpa: u64, v: u32) -> Channel<MockGuestMem> {
    let seqs = ch.producer_seqs();
    let mut gm = ch.into_guest_mem();
    write_u32(&mut gm, gpa, v).unwrap();
    let mut ch = Channel::attach(gm, BASE).unwrap();
    ch.restore_producer_seqs(seqs);
    ch
}

#[test]
fn push_command_writes_record_and_logs_mutation() {
    let mut ch = channel();
    let mut sink = RecordingSink::default();
    let cmd = Command::StartWorkload { unit: 0, log_mask: 0x1F };
    ch.push_command(&cmd, &mut sink).unwrap();
    let mut rec = [0u8; 24];
    ch.guest_mem().read(ch.data_gpa(RingId::C), &mut rec).unwrap();
    let (hdr, back) = decode_command(&rec).unwrap();
    assert_eq!(back, cmd);
    assert_eq!(hdr.seq, 0);
    assert_eq!(hdr.vnanos, 0);
    assert_eq!(read_u32(ch.guest_mem(), ch.prod_gpa(RingId::C)).unwrap(), 24);
    assert_eq!(sink.ops, vec![SinkOp::RingPush { ring: RingId::C, bytes: rec.to_vec(), new_prod: 24 }]);
}

#[test]
fn producer_seqs_checkpoint_and_restore() {
    let mut ch = channel();
    let mut sink = RecordingSink::default();
    let cmd = Command::SetLogMask { mask: 1 };
    ch.push_command(&cmd, &mut sink).unwrap();
    ch.push_command(&cmd, &mut sink).unwrap();
    let saved = ch.producer_seqs();
    assert_eq!(saved.ring_c, 2);
    let gm = ch.into_guest_mem();
    let mut ch2 = Channel::attach(gm, BASE).unwrap();
    assert_eq!(ch2.producer_seqs().ring_c, 0, "fresh attach starts at 0");
    ch2.restore_producer_seqs(saved);
    ch2.push_command(&cmd, &mut sink).unwrap();
    let mut rec = [0u8; 24];
    ch2.guest_mem().read(ch2.data_gpa(RingId::C) + 48, &mut rec).unwrap();
    let (hdr, _) = decode_command(&rec).unwrap();
    assert_eq!(hdr.seq, 2);
}

#[test]
fn push_workload_ctrl_uses_ring_i() {
    let mut ch = channel();
    let mut sink = RecordingSink::default();
    ch.push_workload_ctrl(&WorkloadCtrl::QuiesceReq { token: 9 }, &mut sink).unwrap();
    let mut rec = [0u8; 24];
    ch.guest_mem().read(ch.data_gpa(RingId::I), &mut rec).unwrap();
    let (_, back) = decode_workload_ctrl(&rec).unwrap();
    assert_eq!(back, WorkloadCtrl::QuiesceReq { token: 9 });
}

#[test]
fn full_ring_reports_ring_full_without_mutating() {
    let mut ch = channel();
    let mut sink = RecordingSink::default();
    let cmd = Command::Quiesce { token: 1, mode: QuiesceMode::Coop };
    let mut pushed = 0;
    loop {
        match ch.push_command(&cmd, &mut sink) {
            Ok(()) => pushed += 1,
            Err(PushError::RingFull) => break,
            Err(e) => panic!("{e:?}"),
        }
        assert!(pushed < 1000, "ring never filled");
    }
    let ops_at_full = sink.ops.len();
    assert!(matches!(ch.push_command(&cmd, &mut sink), Err(PushError::RingFull)));
    assert_eq!(sink.ops.len(), ops_at_full, "failed push must not log a mutation");
}

#[test]
fn wrap_emits_pad_in_same_logged_span() {
    let mut ch = channel();
    let mut sink = RecordingSink::default();
    let cmd = Command::StartWorkload { unit: 0, log_mask: 0 };
    while ch.push_command(&cmd, &mut sink).is_ok() {}
    let prod = read_u32(ch.guest_mem(), ch.prod_gpa(RingId::C)).unwrap();
    let cons_gpa = ch.cons_gpa(RingId::C);
    let mut ch = guest_store_u32(ch, cons_gpa, prod);
    sink.ops.clear();
    ch.push_command(&cmd, &mut sink).unwrap();
    match &sink.ops[..] {
        [SinkOp::RingPush { ring: RingId::C, bytes, new_prod }] => {
            assert_eq!(bytes.len(), 16 + 24);
            assert_eq!(*new_prod, prod.wrapping_add(40));
            assert_eq!(&bytes[0..3], &[16, 0, 0]);
            let (_, back) = decode_command(&bytes[16..]).unwrap();
            assert_eq!(back, cmd);
        }
        other => panic!("unexpected trace {other:?}"),
    }
}

#[test]
fn push_into_unmapped_ring_is_a_memory_error_and_logs_nothing() {
    // Map only the header page: ring C's cells are mapped but its data is not.
    let mut gm = MockGuestMem::with_zeroed(BASE, 0x8000);
    let mut hdr = [0u8; OFF_RESERVED];
    ChannelHeader::canonical().write_to(&mut hdr).unwrap();
    gm.write(BASE, &hdr).unwrap();
    let mut ch = Channel::attach(gm, BASE).unwrap();
    let mut sink = RecordingSink::default();
    assert!(matches!(ch.push_command(&Command::ReverifyRegions, &mut sink), Err(PushError::Mem(_))));
    assert!(sink.ops.is_empty());
    assert_eq!(ch.producer_seqs().ring_c, 0);
}
