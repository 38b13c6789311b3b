use detguest::host::channel::Channel;
use detguest::host::guestmem::{write_u32, GuestMem, MockGuestMem};
use detguest::host::inject::{
    glob_match, FaultPlan, FaultRule, InjectResponder, LogDivergence, LogFaultPlan,
    LoggedDecision, TableFaultPlan,
};
use detguest::host::sink::{RecordingSink, SinkOp};
use detguest::wire::events::{encode_event, encoded_event_len, EventPayload};
use detguest::wire::header::{ChannelHeader, RingId, CHANNEL_SIZE, OFF_RESERVED};
use detguest::wire::ports::PORT_INJECT;
use detguest::wire::FaultDecision;

const BASE: u64 = 0x1000_0000;

fn channel_with_w_records(events: &[EventPayload<'_>]) -> Channel<MockGuestMem> {
    let mut gm = MockGuestMem::with_zeroed(BASE, CHANNEL_SIZE);
    let mut hdr = [0u8; OFF_RESERVED];
    ChannelHeader::canonical().write_to(&mut hdr).unwrap();
    gm.write(BASE, &hdr).unwrap();
    let desc = RingId::W.canonical_desc();
    let mut off = 0u32;
    for (seq, ev) in events.iter().enumerate() {
        let mut buf = [0u8; 4096];
        let n = encode_event(&mut buf, seq as u32, 1, 0, ev).unwrap();
        assert_eq!(n, encoded_event_len(ev));
        gm.write(BASE + desc.offset as u64 + off as u64, &buf[..n]).unwrap();
        off += n as u32;
    }
    write_u32(&mut gm, BASE + RingId::W.prod_offset() as u64, off).unwrap();
    Channel::attach(gm, BASE).unwrap()
}

#[test]
fn glob_matching() {
    assert!(glob_match("*", ""));
    assert!(glob_match("*", "anything"));
    assert!(glob_match("io_*", "io_read"));
    assert!(!glob_match("io_*", "net_read"));
    assert!(glob_match("*_fault_*", "disk_fault_7"));
    assert!(glob_match("exact", "exact"));
    assert!(!glob_match("exact", "exactly"));
}

#[test]
fn responder_answers_matched_query_via_plan_and_logs_pio() {
    let mut ch = channel_with_w_records(&[
        EventPayload::NameIntern { name_id: 1, name: b"io_read" },
        EventPayload::InjectQuery { iseq: 0, name_id: 1 },
    ]);
    let mut sink = RecordingSink::default();
    ch.drain_events(&mut sink).unwrap();
    let plan = TableFaultPlan::new(vec![FaultRule {
        name_glob: "io_*".into(),
        occurrence: None,
        decision: FaultDecision::Platform { kind: 1, arg: 5 },
    }]);
    let mut responder = InjectResponder::new(plan);
    let v = responder.answer(&mut ch, 0, &mut sink);
    assert_eq!(v, FaultDecision::Platform { kind: 1, arg: 5 }.pack());
    assert_eq!(ch.unmatched_injects, 0);
    assert_eq!(sink.ops.last(), Some(&SinkOp::PioAnswer { port: PORT_INJECT, value: v }));
    let v2 = responder.answer(&mut ch, 0, &mut sink);
    assert_eq!(v2, 0);
    assert_eq!(ch.unmatched_injects, 1);
}

#[test]
fn occurrence_indexing_selects_nth_match() {
    let mut plan = TableFaultPlan::new(vec![FaultRule {
        name_glob: "io_*".into(),
        occurrence: Some(1),
        decision: FaultDecision::Platform { kind: 2, arg: 64 },
    }]);
    assert_eq!(plan.decide(0, 1, Some("io_read")), FaultDecision::Proceed);
    assert_eq!(plan.decide(1, 1, Some("io_read")), FaultDecision::Platform { kind: 2, arg: 64 });
    assert_eq!(plan.decide(2, 1, Some("io_read")), FaultDecision::Proceed);
    assert_eq!(plan.decisions.len(), 3);
}

#[test]
fn first_matching_rule_wins() {
    let mut plan = TableFaultPlan::new(vec![
        FaultRule {
            name_glob: "io_read".into(),
            occurrence: None,
            decision: FaultDecision::Workload { kind: 64, arg: 1 },
        },
        FaultRule {
            name_glob: "io_*".into(),
            occurrence: None,
            decision: FaultDecision::Platform { kind: 1, arg: 0 },
        },
    ]);
    assert_eq!(plan.decide(0, 1, Some("io_read")), FaultDecision::Workload { kind: 64, arg: 1 });
    assert_eq!(plan.decide(1, 2, Some("io_write")), FaultDecision::Platform { kind: 1, arg: 0 });
}

#[test]
fn log_fault_plan_classifies_each_divergence_and_proceeds() {
    let log = vec![
        LoggedDecision { iseq: 1, name_id: 1, decision: FaultDecision::Platform { kind: 1, arg: 5 } },
        LoggedDecision { iseq: 2, name_id: 2, decision: FaultDecision::Workload { kind: 200, arg: 9 } },
    ];
    let mut p = LogFaultPlan::new(log);
    assert_eq!(p.decide(9, 1, None), FaultDecision::Proceed);
    assert_eq!(p.decide(2, 5, Some("io_write")), FaultDecision::Proceed);
    assert_eq!(p.decide(3, 3, None), FaultDecision::Proceed);
    assert_eq!(
        p.divergences(),
        &[
            LogDivergence::IseqMismatch { expected: 1, got: 9 },
            LogDivergence::NameIdMismatch { iseq: 2, expected: 2, got: 5 },
            LogDivergence::PastEnd { got: 3 },
        ]
    );
    assert_eq!(p.remaining(), 0);
}

#[test]
fn default_log_fault_plan_is_an_empty_log() {
    let mut p = LogFaultPlan::default();
    assert_eq!(p.decide(1, 1, None), FaultDecision::Proceed);
    assert_eq!(p.divergences(), &[LogDivergence::PastEnd { got: 1 }]);
}

#[test]
fn log_fault_plan_replays_matching_queries_verbatim() {
    let d = FaultDecision::Platform { kind: 2, arg: 512 };
    let mut p = LogFaultPlan::new(vec![LoggedDecision { iseq: 1, name_id: 1, decision: d }]);
    assert_eq!(p.remaining(), 1);
    assert_eq!(p.decide(1, 1, Some("io_read")), d);
    assert!(p.divergences().is_empty());
    assert_eq!(p.remaining(), 0);
    // An unresolved name matches only the bare `*` glob.
    let mut t = TableFaultPlan::new(vec![
        FaultRule { name_glob: "io_*".into(), occurrence: None, decision: d },
        FaultRule { name_glob: "*".into(), occurrence: None, decision: FaultDecision::Workload { kind: 70, arg: 0 } },
    ]);
    assert_eq!(t.decide(5, 9, None), FaultDecision::Workload { kind: 70, arg: 0 });
}
