use detguest::agent::pio::{channel_init_writes, ident_ok};
use detguest::wire::ports::{IDENT_VALUE, PORT_INIT_GO, PORT_INIT_HI, PORT_INIT_LO};
use detguest::agent::control::{decode_reply, encode_hello, encode_load_game, ControlReply};
use detguest::agent::supervise::{
    command_action, reap_step, ReapStep, SupervisorAction, graceful_shutdown_state, log_level_enabled, shutdown_step, LineBuf, ShutdownState, ShutdownStep,
    VnanosClock, GRACEFUL_KILL_DELAY_NS, STDERR_LEVEL, STDOUT_LEVEL,
};
use detguest::agent::translate::{decode_entry, TranslateError, PM_PRESENT, PM_SWAPPED};
use detguest::agent::{agent_version, ready_record};
use detguest::wire::events::{decode_event, Command, EventPayload, QuiesceMode, ShutdownMode};
use detguest::wire::record::EventKind;
use detguest::wire::regionipc::STATUS_NAME_TOO_LONG;

#[test]
fn ready_record_is_spec_correct() {
    let mut buf = [0u8; 64];
    let n = ready_record(&mut buf, 3, 1_000_000, 0xFFFF_FFFF, 0, 2).unwrap();
    assert_eq!(n, 32);
    assert_eq!(buf[2], EventKind::Ready as u8);
    let (hdr, ev) = decode_event(&buf[..n]).unwrap();
    assert_eq!(hdr.seq, 3);
    assert_eq!(
        ev,
        EventPayload::Ready { unit: 0xFFFF_FFFF, region_count: 0, manifest_generation: 2 }
    );
}

#[test]
fn agent_version_packs() {
    assert_eq!(agent_version() >> 16, 0); // major 0 for now
    assert_eq!(agent_version(), 0x0000_0100);
}

#[test]
fn translate_decode_entry_cases() {
    // present, pfn 0x1234
    assert_eq!(decode_entry(0x1000, PM_PRESENT | 0x1234).unwrap(), 0x1234 << 12);
    // not present
    assert_eq!(decode_entry(0x1000, 0), Err(TranslateError::NotPresent { vaddr: 0x1000 }));
    // swapped wins over present bit checks
    assert_eq!(decode_entry(0x1000, PM_SWAPPED | 1), Err(TranslateError::Swapped { vaddr: 0x1000 }));
    // PFN hidden (present, pfn 0)
    assert_eq!(decode_entry(0x1000, PM_PRESENT), Err(TranslateError::PfnHidden { vaddr: 0x1000 }));
}

#[test]
fn decode_entry_keeps_only_the_pfn_bits() {
    // bits 55..61 are flags, not PFN
    assert_eq!(decode_entry(0, PM_PRESENT | (1 << 56) | 0x7), Ok(0x7000));
    assert_eq!(decode_entry(0, PM_SWAPPED | PM_PRESENT | 0x7), Err(TranslateError::Swapped { vaddr: 0 }));
}

#[test]
fn linebuf_frames_lines() {
    let mut lb = LineBuf::default();
    let mut got: Vec<Vec<u8>> = Vec::new();
    got.extend(lb.push(b"hello\nwor"));
    assert_eq!(got, vec![b"hello".to_vec()]);
    got.extend(lb.push(b"ld\n\n"));
    assert_eq!(got, vec![b"hello".to_vec(), b"world".to_vec(), b"".to_vec()]);
}

#[test]
fn linebuf_caps_runaway_lines() {
    let mut lb = LineBuf::default();
    let mut got = 0usize;
    for l in lb.push(&vec![b'x'; LineBuf::MAX_LINE * 2 + 10]) {
        assert!(l.len() <= LineBuf::MAX_LINE);
        got += 1;
    }
    assert_eq!(got, 2, "two full chunks emitted, remainder buffered");
    if let Some(l) = lb.finish() {
        assert_eq!(l.len(), 10);
        got += 1;
    }
    assert_eq!(got, 3);
}

#[test]
fn linebuf_finish_flushes_partial() {
    let mut lb = LineBuf::default();
    let mut got: Vec<Vec<u8>> = Vec::new();
    got.extend(lb.push(b"no newline"));
    assert!(got.is_empty());
    got.extend(lb.finish());
    assert_eq!(got, vec![b"no newline".to_vec()]);
    assert!(lb.finish().is_none());
}

#[test]
fn linebuf_newline_after_a_full_chunk() {
    let mut lb = LineBuf::default();
    let mut input = vec![b'y'; LineBuf::MAX_LINE];
    input.extend_from_slice(b"\nz");
    // A newline anywhere in the buffer ends the line first.
    let lines = lb.push(&input);
    assert_eq!(lines.len(), 1);
    assert_eq!(lines[0].len(), LineBuf::MAX_LINE);
    assert_eq!(lb.finish(), Some(b"z".to_vec()));
}

#[test]
fn vnanos_counts_from_one() {
    let mut c = VnanosClock::new();
    assert_eq!(c.vnanos(), 1);
    assert_eq!(c.vnanos(), 2);
    assert_eq!(c.vnanos(), 3);
}

#[test]
fn oversized_name_never_reaches_manifest() {
    // The codec caps names at 56, so NAME_TOO_LONG is structurally
    // unreachable over the wire; keep the constant honest.
    assert_eq!(STATUS_NAME_TOO_LONG, 4);
}

#[test]
fn agent_request_golden_bytes_match_refwork_protocol() {
    assert_eq!(encode_hello(1), [0x00, 0x01]);
    assert_eq!(
        encode_load_game("/dev/vdb"),
        [0x01, 0x08, b'/', b'd', b'e', b'v', b'/', b'v', b'd', b'b']
    );
}

#[test]
fn decodes_required_harness_replies() {
    assert_eq!(
        decode_reply(&[0x05, 0x01, 0x03, b'e', b'm', b'u', 0x01, b'1']).unwrap(),
        ControlReply::HelloAck { proto_version: 1 }
    );

    let mut game_loaded = vec![0x06];
    game_loaded.extend_from_slice(&[0u8; 32]);
    game_loaded.extend_from_slice(&[0x04, b'm', b'm', b'c', b'3', 0x00]);
    assert_eq!(decode_reply(&game_loaded).unwrap(), ControlReply::GameLoaded);

    assert_eq!(decode_reply(&[0x08, 0x00]).unwrap(), ControlReply::Ready { frame: 0 });
}

#[test]
fn control_codec_edges() {
    assert_eq!(encode_hello(300), [0x00, 0xAC, 0x02]);
    assert_eq!(
        decode_reply(&[0x0A, 0x07, 0x02, 0x02, b'n', b'o']).unwrap(),
        ControlReply::Fault { detail: "no".to_string() }
    );
    assert_eq!(decode_reply(&[0x08, 0x80]).unwrap_err(), "truncated refwork control datagram");
    assert_eq!(decode_reply(&[0x08, 0x00, 0x00]).unwrap_err(), "trailing bytes in refwork control reply");
    assert_eq!(decode_reply(&[0x07]).unwrap_err(), "unknown refwork control reply tag 7");
    assert_eq!(decode_reply(&[0x05, 0x80, 0x80, 0x04]).unwrap_err(), "HelloAck proto_version overflow");
    assert_eq!(
        decode_reply(&[0x08, 0xFF, 0xFF, 0xFF, 0xFF, 0xFF, 0xFF, 0xFF, 0xFF, 0xFF, 0x80]).unwrap_err(),
        "control varint overflow"
    );
    assert!(decode_reply(&[0x0A, 0x00, 0x00, 0x01, 0xFF])
        .unwrap_err()
        .starts_with("control string is not UTF-8: "));
}

use detguest::agent::boot::UnitControl;
use detguest::agent::control::{ControlLeg, LegAction};

fn refwork(game_dev: Option<&str>) -> UnitControl {
    UnitControl {
        protocol: "refwork-ctl".to_string(),
        proto_version: 1,
        game_dev: game_dev.map(str::to_string),
        game_source: None,
    }
}

#[test]
fn control_leg_happy_path() {
    let mut leg = ControlLeg::start(&refwork(Some("/dev/vdb"))).unwrap();
    assert_eq!(leg.next_action(), LegAction::Send { bytes: vec![0x00, 0x01], what: "Hello" });
    leg.sent();
    assert_eq!(leg.next_action(), LegAction::Recv { what: "HelloAck" });
    leg.on_reply(&ControlReply::HelloAck { proto_version: 1 }).unwrap();
    assert_eq!(
        leg.next_action(),
        LegAction::Send { bytes: encode_load_game("/dev/vdb"), what: "LoadGame" }
    );
    leg.sent();
    assert_eq!(leg.next_action(), LegAction::Recv { what: "GameLoaded" });
    leg.on_reply(&ControlReply::GameLoaded).unwrap();
    assert_eq!(leg.next_action(), LegAction::Recv { what: "Ready" });
    leg.on_reply(&ControlReply::Ready { frame: 0 }).unwrap();
    assert_eq!(leg.next_action(), LegAction::Send { bytes: vec![0x02], what: "Start" });
    leg.sent();
    assert_eq!(leg.next_action(), LegAction::Done);
}

#[test]
fn control_leg_faults() {
    let mut other = refwork(Some("/dev/vdb"));
    other.protocol = "x".to_string();
    assert_eq!(ControlLeg::start(&other).unwrap_err(), "unsupported unit.control protocol \"x\"");
    let mut big = refwork(Some("/dev/vdb"));
    big.proto_version = 70000;
    assert_eq!(ControlLeg::start(&big).unwrap_err(), "refwork proto_version 70000 exceeds u16");
    assert_eq!(ControlLeg::start(&refwork(None)).unwrap_err(), "refwork-ctl requires game_dev");

    let mut leg = ControlLeg::start(&refwork(Some("/dev/vdb"))).unwrap();
    leg.sent();
    assert_eq!(
        leg.on_reply(&ControlReply::HelloAck { proto_version: 2 }).unwrap_err(),
        "refwork HelloAck proto_version 2 != 1"
    );
    assert_eq!(
        leg.on_reply(&ControlReply::Ready { frame: 3 }).unwrap_err(),
        "expected refwork HelloAck, got Ready { frame: 3 }"
    );
    assert_eq!(
        leg.on_reply(&ControlReply::Fault { detail: "boom".to_string() }).unwrap_err(),
        "refwork fault after Hello: boom"
    );
    leg.on_reply(&ControlReply::HelloAck { proto_version: 1 }).unwrap();
    leg.sent();
    assert_eq!(
        leg.on_reply(&ControlReply::Fault { detail: "no".to_string() }).unwrap_err(),
        "refwork fault after LoadGame: no"
    );
    assert_eq!(
        leg.on_reply(&ControlReply::HelloAck { proto_version: 1 }).unwrap_err(),
        "expected refwork GameLoaded, got HelloAck { proto_version: 1 }"
    );
    leg.on_reply(&ControlReply::GameLoaded).unwrap();
    assert_eq!(
        leg.on_reply(&ControlReply::Ready { frame: 9 }).unwrap_err(),
        "refwork Ready frame must be 0, got 9"
    );
    assert_eq!(
        leg.on_reply(&ControlReply::Fault { detail: "q\"".to_string() }).unwrap_err(),
        "refwork fault before Start: q\""
    );
    assert_eq!(
        ControlReply::Fault { detail: "q\"".to_string() }.debug_text(),
        format!("{:?}", ControlReply::Fault { detail: "q\"".to_string() })
    );
}

#[test]
fn ident_answer_must_be_the_hypervisor_magic() {
    assert!(ident_ok(IDENT_VALUE));
    assert!(!ident_ok(0xFFFF_FFFF));
    assert!(!ident_ok(0));
}

#[test]
fn channel_init_latches_gpa_halves_then_commits() {
    assert_eq!(
        channel_init_writes(0x0000_0012_3456_7000, 0x200),
        [(PORT_INIT_LO, 0x3456_7000), (PORT_INIT_HI, 0x12), (PORT_INIT_GO, 0x200)]
    );
}

#[test]
fn log_mask_gates_levels_by_bit() {
    // The default mask 0x1F lets levels 0..=4 through.
    assert!(log_level_enabled(0x1F, STDOUT_LEVEL));
    assert!(log_level_enabled(0x1F, STDERR_LEVEL));
    assert!(!log_level_enabled(0x1F, 5));
    // Errors only: stdout (info) is dropped, stderr (error) kept.
    assert!(!log_level_enabled(0x01, STDOUT_LEVEL));
    assert!(log_level_enabled(0x01, STDERR_LEVEL));
    assert!(log_level_enabled(0x8000_0000, 31));
    assert!(!log_level_enabled(0, 0));
}

#[test]
fn graceful_shutdown_deadline_is_two_seconds_out() {
    assert_eq!(GRACEFUL_KILL_DELAY_NS, 2_000_000_000);
    assert_eq!(graceful_shutdown_state(true, 5_000).kill_deadline, 2_000_005_000);
    assert_eq!(graceful_shutdown_state(false, 5_000).kill_deadline, 0);
}

#[test]
fn shutdown_step_kills_after_deadline_and_powers_off_when_reaped() {
    let pending = Some(ShutdownState { kill_deadline: 100 });
    assert_eq!(shutdown_step(&None, true, 1_000), ShutdownStep::Continue);
    assert_eq!(shutdown_step(&None, false, 1_000), ShutdownStep::Continue);
    assert_eq!(shutdown_step(&pending, true, 99), ShutdownStep::Continue);
    assert_eq!(shutdown_step(&pending, true, 100), ShutdownStep::Kill);
    assert_eq!(shutdown_step(&pending, false, 0), ShutdownStep::PowerOff);
    // A graceful shutdown with nothing running powers off on the next pass.
    let idle = Some(graceful_shutdown_state(false, 7));
    assert_eq!(shutdown_step(&idle, false, 7), ShutdownStep::PowerOff);
}

#[test]
fn long_line_ending_in_newline_is_split_at_the_cap() {
    let mut lb = LineBuf::default();
    let mut bytes = vec![b'x'; 2000];
    bytes.push(b'\n');
    let lines = lb.push(&bytes);
    assert_eq!(lines, vec![vec![b'x'; 1024], vec![b'x'; 976]]);
    assert!(lines.iter().all(|l| l.len() <= LineBuf::MAX_LINE));
    assert_eq!(lb.finish(), None);
    // A line of exactly the cap is not split.
    let mut lb = LineBuf::default();
    let mut exact = vec![b'y'; LineBuf::MAX_LINE];
    exact.push(b'\n');
    assert_eq!(lb.push(&exact), vec![vec![b'y'; LineBuf::MAX_LINE]]);
}

#[test]
fn exit_fields_report_code_or_signal() {
    assert_eq!(detguest::agent::supervise::exit_fields(true, 3, 0), (3, 0));
    assert_eq!(detguest::agent::supervise::exit_fields(false, 0, 9), (-1, 9));
}

#[test]
fn commands_map_to_supervisor_actions() {
    assert_eq!(
        command_action(Command::StartWorkload { unit: 2, log_mask: 0x3 }),
        (SupervisorAction::StartUnit { unit: 2, log_mask: 0x3 }, false)
    );
    assert_eq!(
        command_action(Command::Quiesce { token: 9, mode: QuiesceMode::Coop }),
        (SupervisorAction::RelayQuiesce { token: 9 }, false)
    );
    assert_eq!(
        command_action(Command::Quiesce { token: 9, mode: QuiesceMode::Forced }),
        (SupervisorAction::ForcedQuiesce { token: 9 }, false)
    );
    assert_eq!(command_action(Command::Resume { token: 4 }), (SupervisorAction::Resume { token: 4 }, false));
    assert_eq!(
        command_action(Command::Shutdown { mode: ShutdownMode::Graceful }),
        (SupervisorAction::GracefulShutdown, false)
    );
    assert_eq!(
        command_action(Command::Shutdown { mode: ShutdownMode::Immediate }),
        (SupervisorAction::ImmediateShutdown, true)
    );
    assert_eq!(command_action(Command::SetLogMask { mask: 1 }), (SupervisorAction::SetLogMask { mask: 1 }, false));
    assert_eq!(command_action(Command::ReverifyRegions), (SupervisorAction::ReverifyRegions, false));
}

#[test]
fn reap_step_separates_stops_exits_and_strangers() {
    assert_eq!(reap_step(false, true), ReapStep::Ignore);
    assert_eq!(reap_step(false, false), ReapStep::Ignore);
    assert_eq!(reap_step(true, true), ReapStep::Stopped);
    assert_eq!(reap_step(true, false), ReapStep::Exited);
}
