use detguest::agent::region_ipc::{
    mark_region_dead, push_extent, rewrite_extents, write_region, AgentEvent, BuildExtentsError,
    Emit, RegionLedger, Translator,
};
use detguest::agent::translate::TranslateError;
use detguest::wire::events::RegionEvent;
use detguest::wire::manifest::{init_manifest, Extent, ManifestHeader, RegionEntry, MANIFEST_TOTAL_SIZE};
use detguest::wire::regionipc::{
    encode_request, Request, REGIONIPC_MAX_DATAGRAM, STATUS_BAD_REQUEST, STATUS_INTERNAL, STATUS_NOT_PINNED, STATUS_OK,
    STATUS_TOO_MANY_EXTENTS, STATUS_UNKNOWN_PID, STATUS_UNKNOWN_REGION,
};

struct Identity;
impl Translator for Identity {
    fn translate(&mut self, _pid: i32, gva: u64, len: u64) -> Result<Vec<Extent>, BuildExtentsError> {
        Ok(vec![Extent { gpa: gva, len }])
    }
}

/// Region 0 stays put, region at 0x2000 drifts, region at 0x3000 stops
/// translating (in mode 1).
struct Drifting {
    mode: u8,
}
impl Translator for Drifting {
    fn translate(&mut self, _pid: i32, gva: u64, len: u64) -> Result<Vec<Extent>, BuildExtentsError> {
        match (self.mode, gva) {
            (0, _) => Ok(vec![Extent { gpa: gva, len }]),
            (1, 0x2000) => Ok(vec![Extent { gpa: 0xAAAA_0000, len }]),
            (1, 0x3000) => Err(BuildExtentsError::Translate(TranslateError::NotPresent { vaddr: gva })),
            (_, _) => Ok(vec![Extent { gpa: gva, len }]),
        }
    }
}

fn manifest() -> Vec<u8> {
    let mut m = vec![0u8; MANIFEST_TOTAL_SIZE];
    init_manifest(&mut m).unwrap();
    m
}

fn kinds(emits: &[Emit]) -> Vec<&'static str> {
    emits
        .iter()
        .map(|e| match e.event {
            AgentEvent::NameIntern { .. } => "intern",
            AgentEvent::RegionRegister(_) => "register",
            AgentEvent::RegionUpdate(_) => "update",
            AgentEvent::Alarm(_) => "alarm",
        })
        .collect()
}

#[test]
fn register_writes_manifest_ledger_and_events() {
    let mut m = manifest();
    let mut ledger = RegionLedger::new();
    let req = Request::Register { flags: 0, layout_version: 1, name_id: 3, gva: 0x5000, len: 4096, name: b"wram" };
    let (reply, emits) = ledger.handle(&mut m, &req, 42, Some(42), &mut Identity);
    assert_eq!(reply.status, STATUS_OK);
    assert_eq!(reply.region_id, 0);
    assert_eq!(reply.name_id, 3);
    assert_eq!(reply.manifest_generation, 2);

    let hdr = ManifestHeader::read_from(&m).unwrap();
    assert_eq!(hdr.region_count, 1);
    assert_eq!(hdr.extent_count, 1);
    assert_eq!(hdr.generation, 2);
    let entry = RegionEntry::read_from(&m, 0).unwrap();
    assert!(entry.is_live());
    assert_eq!(entry.name_bytes(), b"wram");
    assert_eq!(entry.name_id, 3);
    assert_eq!(entry.gva, 0x5000);
    assert_eq!(entry.len, 4096);
    assert_eq!(Extent::read_from(&m, 0).unwrap(), Extent { gpa: 0x5000, len: 4096 });

    assert_eq!(ledger.records().len(), 1);
    assert_eq!(ledger.records()[0].pid, 42);
    assert!(!ledger.records()[0].dead);

    assert_eq!(kinds(&emits), vec!["intern", "register"]);
    assert!(!emits[0].doorbell);
    assert!(emits[1].doorbell);
    assert_eq!(
        emits[1].event,
        AgentEvent::RegionRegister(RegionEvent { region_id: 0, name_id: 3, layout_version: 1, manifest_generation: 2 })
    );
}

#[test]
fn only_the_workload_may_register_or_unregister() {
    let mut m = manifest();
    let mut ledger = RegionLedger::new();
    let req = Request::Register { flags: 0, layout_version: 1, name_id: 3, gva: 0x5000, len: 4096, name: b"wram" };
    let (reply, emits) = ledger.handle(&mut m, &req, 7, Some(42), &mut Identity);
    assert_eq!(reply.status, STATUS_UNKNOWN_PID);
    assert!(emits.is_empty());
    let (reply, _) = ledger.handle(&mut m, &Request::Unregister { region_id: 0 }, 7, None, &mut Identity);
    assert_eq!(reply.status, STATUS_UNKNOWN_PID);
    assert_eq!(ManifestHeader::read_from(&m).unwrap().generation, 0);
}

#[test]
fn unregister_marks_dead_and_unknown_region_errors() {
    let mut m = manifest();
    let mut ledger = RegionLedger::new();
    let req = Request::Register { flags: 0, layout_version: 1, name_id: 3, gva: 0x5000, len: 4096, name: b"wram" };
    ledger.handle(&mut m, &req, 42, Some(42), &mut Identity);
    let (reply, emits) = ledger.handle(&mut m, &Request::Unregister { region_id: 0 }, 42, Some(42), &mut Identity);
    assert_eq!(reply.status, STATUS_OK);
    assert_eq!(reply.name_id, 3);
    assert_eq!(reply.manifest_generation, 4);
    assert!(emits.is_empty());
    assert!(!RegionEntry::read_from(&m, 0).unwrap().is_live());
    assert!(ledger.records()[0].dead);
    let (reply, _) = ledger.handle(&mut m, &Request::Unregister { region_id: 0 }, 42, Some(42), &mut Identity);
    assert_eq!(reply.status, STATUS_UNKNOWN_REGION);
    let (reply, _) = ledger.handle(&mut m, &Request::Unregister { region_id: 9 }, 42, Some(42), &mut Identity);
    assert_eq!(reply.status, STATUS_UNKNOWN_REGION);
}

#[test]
fn translation_failures_map_to_statuses() {
    let mut m = manifest();
    let mut ledger = RegionLedger::new();
    let (reply, _) = ledger.register_with(&mut m, 1, Some(1), 0, 1, 2, 0x1000, 16, b"r",
        Err(BuildExtentsError::Translate(TranslateError::NotPresent { vaddr: 0x1000 })));
    assert_eq!(reply.status, STATUS_NOT_PINNED);
    let (reply, _) = ledger.register_with(&mut m, 1, Some(1), 0, 1, 2, 0x1000, 16, b"r",
        Err(BuildExtentsError::Translate(TranslateError::Io(std::io::ErrorKind::NotFound))));
    assert_eq!(reply.status, STATUS_INTERNAL);
    let (reply, _) = ledger.register_with(&mut m, 1, Some(1), 0, 1, 2, 0x1000, 16, b"r",
        Err(BuildExtentsError::TooManyExtents));
    assert_eq!(reply.status, STATUS_TOO_MANY_EXTENTS);
    assert!(ledger.records().is_empty());
}

#[test]
fn manifest_writer_statuses() {
    let mut m = manifest();
    assert_eq!(write_region(&mut m, &[b'x'; 57], 1, 1, 0, 0, 1, &[]), Err(STATUS_BAD_REQUEST));
    let too_many = vec![Extent { gpa: 0, len: 1 }; 1025];
    assert_eq!(write_region(&mut m, b"a", 1, 1, 0, 0, 1, &too_many), Err(STATUS_TOO_MANY_EXTENTS));
    assert_eq!(write_region(&mut m, b"a", 1, 1, 0, 0x10, 1, &[Extent { gpa: 7, len: 1 }]), Ok((0, 2)));
    assert_eq!(write_region(&mut m, b"b", 2, 1, 0, 0x20, 1, &[Extent { gpa: 8, len: 1 }]), Ok((1, 4)));
    assert_eq!(mark_region_dead(&mut m, 1), Ok(6));
    assert_eq!(mark_region_dead(&mut m, 64), Err(STATUS_INTERNAL));
    // Grown run goes to the pool's end; the header counts it.
    assert_eq!(rewrite_extents(&mut m, 0, &[Extent { gpa: 9, len: 1 }, Extent { gpa: 10, len: 1 }]), Ok(8));
    let e = RegionEntry::read_from(&m, 0).unwrap();
    assert_eq!((e.extent_off, e.extent_n), (2, 2));
    assert_eq!(ManifestHeader::read_from(&m).unwrap().extent_count, 4);
    // Shrunk run stays in place.
    assert_eq!(rewrite_extents(&mut m, 0, &[Extent { gpa: 11, len: 1 }]), Ok(10));
    let e = RegionEntry::read_from(&m, 0).unwrap();
    assert_eq!((e.extent_off, e.extent_n), (2, 1));
    assert_eq!(Extent::read_from(&m, 2).unwrap(), Extent { gpa: 11, len: 1 });
}

#[test]
fn reverify_echoes_rewrites_and_kills() {
    let mut m = manifest();
    let mut ledger = RegionLedger::new();
    let mut t = Drifting { mode: 0 };
    for (name_id, gva, name) in [(1u32, 0x1000u64, &b"stable"[..]), (2, 0x2000, b"drift"), (3, 0x3000, b"gone")] {
        let req = Request::Register { flags: 0, layout_version: 1, name_id, gva, len: 4096, name };
        let (reply, _) = ledger.handle(&mut m, &req, 5, Some(5), &mut t);
        assert_eq!(reply.status, STATUS_OK);
    }
    t.mode = 1;
    let emits = ledger.reverify(&mut m, &mut t);
    assert_eq!(kinds(&emits), vec!["update", "alarm", "update", "alarm", "update"]);
    assert!(emits[4].doorbell);
    assert!(!emits[0].doorbell && !emits[2].doorbell);
    assert_eq!(
        emits[1].event,
        AgentEvent::Alarm("P0: region 1 (drift) extents drifted under pinning".to_string())
    );
    assert_eq!(
        emits[3].event,
        AgentEvent::Alarm("P0: region 2 (gone) no longer translates; marking dead".to_string())
    );
    let drift = RegionEntry::read_from(&m, 1).unwrap();
    assert!(drift.is_live());
    assert_eq!(Extent::read_from(&m, drift.extent_off as usize).unwrap().gpa, 0xAAAA_0000);
    assert!(!RegionEntry::read_from(&m, 2).unwrap().is_live());
    assert!(ledger.records()[2].dead);
    assert_eq!(ledger.records()[1].extents[0].gpa, 0xAAAA_0000);
    assert_eq!(ledger.live_count(), 2);

    // Translations matching the ledger again: only the live regions echo.
    t.mode = 1;
    let emits = ledger.reverify(&mut m, &mut t);
    assert_eq!(kinds(&emits), vec!["update", "update"]);
}

#[test]
fn reverify_with_empty_ledger_emits_nothing() {
    let mut m = manifest();
    let mut ledger = RegionLedger::new();
    assert!(ledger.reverify(&mut m, &mut Identity).is_empty());
    assert!(ledger.reverify_with(&mut m, Vec::new()).is_empty());
}

fn datagram(req: &Request<'_>) -> Vec<u8> {
    let mut buf = [0u8; REGIONIPC_MAX_DATAGRAM];
    let n = encode_request(req, &mut buf).unwrap();
    buf[..n].to_vec()
}

#[test]
fn register_writes_manifest_ledger_and_ring_a() {
    let mut m = manifest();
    let mut ledger = RegionLedger::new();
    let pid = 77;
    let req = Request::Register { flags: 0, layout_version: 1, name_id: 3, gva: 0x5000, len: 4096, name: b"wram" };
    let (reply, emits) = ledger.answer(&mut m, &datagram(&req), pid, Some(pid), &mut Identity);
    assert_eq!(reply.status, STATUS_OK);
    assert_eq!(reply.region_id, 0);
    assert_eq!(reply.name_id, 3);
    assert_eq!(reply.manifest_generation, 2);
    let hdr = ManifestHeader::read_from(&m).unwrap();
    assert_eq!(hdr.region_count, 1);
    assert_eq!(hdr.extent_count, 1);
    assert_eq!(hdr.generation, 2);
    let entry = RegionEntry::read_from(&m, 0).unwrap();
    assert!(entry.is_live());
    assert_eq!(entry.name_bytes(), b"wram");
    assert_eq!(entry.name_id, 3);
    assert_eq!(entry.gva, 0x5000);
    assert_eq!(entry.len, 4096);
    assert_eq!(Extent::read_from(&m, 0).unwrap(), Extent { gpa: 0x5000, len: 4096 });
    assert_eq!(ledger.records().len(), 1);
    assert_eq!(ledger.records()[0].pid, pid);
    assert!(!ledger.records()[0].dead);
    // Ring A: NameIntern (kind 2) then RegionRegister (kind 7).
    assert_eq!(kinds(&emits), vec!["intern", "register"]);
}

#[test]
fn unknown_pid_is_rejected() {
    let mut m = manifest();
    let mut ledger = RegionLedger::new();
    let pid = 77;
    let req = Request::Register { flags: 0, layout_version: 1, name_id: 1, gva: 0x1000, len: 16, name: b"x" };
    let d = datagram(&req);
    let (reply, emits) = ledger.answer(&mut m, &d, pid, None, &mut Identity);
    assert_eq!(reply.status, STATUS_UNKNOWN_PID);
    assert!(emits.is_empty());
    let (reply, emits) = ledger.answer(&mut m, &d, pid, Some(pid + 1), &mut Identity);
    assert_eq!(reply.status, STATUS_UNKNOWN_PID);
    assert!(emits.is_empty());
    assert!(ledger.records().is_empty());
}

#[test]
fn malformed_datagram_gets_bad_request_and_survives() {
    let mut m = manifest();
    let mut ledger = RegionLedger::new();
    let pid = 77;
    let before = m.clone();
    let (reply, emits) = ledger.answer(&mut m, &[0xFFu8; 20], pid, Some(pid), &mut Identity);
    assert_eq!(reply.status, STATUS_BAD_REQUEST);
    assert!(emits.is_empty());
    assert_eq!(m, before);
    let (reply, _) = ledger.answer(&mut m, &[0u8; REGIONIPC_MAX_DATAGRAM + 1], pid, Some(pid), &mut Identity);
    assert_eq!(reply.status, STATUS_BAD_REQUEST);
    // The ledger keeps working afterwards.
    let req = Request::Register { flags: 0, layout_version: 1, name_id: 9, gva: 0x9000, len: 64, name: b"ok" };
    let (reply, _) = ledger.answer(&mut m, &datagram(&req), pid, Some(pid), &mut Identity);
    assert_eq!(reply.status, STATUS_OK);
}

struct NotPinned;
impl Translator for NotPinned {
    fn translate(&mut self, _pid: i32, gva: u64, _len: u64) -> Result<Vec<Extent>, BuildExtentsError> {
        Err(BuildExtentsError::Translate(TranslateError::NotPresent { vaddr: gva }))
    }
}

#[test]
fn not_pinned_translation_maps_to_status() {
    let mut m = manifest();
    let mut ledger = RegionLedger::new();
    let pid = 77;
    let req = Request::Register { flags: 0, layout_version: 1, name_id: 1, gva: 0x1000, len: 16, name: b"x" };
    let (reply, _) = ledger.answer(&mut m, &datagram(&req), pid, Some(pid), &mut NotPinned);
    assert_eq!(reply.status, STATUS_NOT_PINNED);
    assert!(ledger.records().is_empty());
}

#[test]
fn extents_coalesce_physically_contiguous_pages() {
    let mut v: Vec<Extent> = Vec::new();
    push_extent(&mut v, 0x1000, 0x800).unwrap();
    push_extent(&mut v, 0x1800, 0x800).unwrap();
    push_extent(&mut v, 0x9000, 0x1000).unwrap();
    assert_eq!(v, vec![Extent { gpa: 0x1000, len: 0x1000 }, Extent { gpa: 0x9000, len: 0x1000 }]);
    let mut full: Vec<Extent> = (0..1024u64).map(|i| Extent { gpa: i * 0x10000, len: 0x1000 }).collect();
    assert_eq!(push_extent(&mut full, 0x1, 1), Err(BuildExtentsError::TooManyExtents));
    assert_eq!(full.len(), 1024);
    push_extent(&mut full, 1023 * 0x10000 + 0x1000, 0x1000).unwrap();
    assert_eq!(full[1023], Extent { gpa: 1023 * 0x10000, len: 0x2000 });
}
