//! pv-blk game-image materialization: the device read's decisions (size
//! discovery, the stream checksum, the re-read check), with the
//! MMIO and file work left to the caller.
//!
//! Size discovery: full 8-sector pages from sector 0 until the first
//! `STATUS_BAD_REQUEST` (the only past-the-end signal), then tail reads
//! of 4, 2 and 1 sectors. The command sequence is a pure function of the
//! image; every failure is an error for the loud boot fault, never a
//! retry.
use crate::text::{chars_of, push_dec, push_str, spec_dec, string_from_chars};
use vstd::prelude::*;

verus! {

/// pv-blk MMIO window GPA (one 4 KiB window).
pub const PV_BLK_BASE: u64 = 0xD000_4000;
/// Bytes in the MMIO window.
pub const PV_BLK_WINDOW: usize = 0x1000;
/// Device id register (4-byte read).
pub const REG_MAGIC: usize = 0x00;
/// Sector register (u64).
pub const REG_SECTOR: usize = 0x08;
/// DMA target GPA register (u64).
pub const REG_BUF_GPA: usize = 0x10;
/// Sector count register (u32).
pub const REG_COUNT: usize = 0x18;
/// Command register (u32, write triggers).
pub const REG_CMD: usize = 0x1C;
/// Status register (u32).
pub const REG_STATUS: usize = 0x20;
/// The pv-blk device id.
pub const DEVICE_ID_PV_BLK: u32 = 0x0005;
/// The read command.
pub const CMD_READ: u32 = 1;
/// Command status: done.
pub const STATUS_OK: u32 = 0;
/// Command status: out of range, zero count, or unknown command; the only
/// status that means "past the end".
pub const STATUS_BAD_REQUEST: u32 = 1;
/// Device sector granularity.
pub const SECTOR_SIZE: usize = 512;
/// One DMA page per command.
pub const DMA_PAGE_SIZE: usize = 4096;
/// Sectors in a DMA page.
pub const SECTORS_PER_PAGE: u32 = 8;
/// Images above this are a loud fault.
pub const MAX_GAME_BYTES: u64 = 0x200_0000;
/// Streaming-checksum seed.
pub const CHECKSUM_SEED: u64 = 0x7062_6c6b_5f69_6f31;

/// `x.rotate_left(5)`.
pub open spec fn spec_rotl5(x: u64) -> u64 {
    (x << 5u64) | (x >> 59u64)
}

/// `bytes` folded into `sum`, the first at stream offset `off`: per byte
/// `sum = sum.rotate_left(5) ^ (byte as u64).wrapping_add(offset)`.
pub open spec fn spec_checksum(sum: u64, bytes: Seq<u8>, off: nat) -> u64
    decreases bytes.len(),
{
    if bytes.len() == 0 {
        sum
    } else {
        let n = bytes.len() - 1;
        spec_rotl5(spec_checksum(sum, bytes.subrange(0, n), off)) ^ (bytes[n] as u64).wrapping_add(
            (off + n) as u64,
        )
    }
}

/// Folding in chunks, each at its stream offset, is folding at once.
pub proof fn lemma_checksum_chunks(sum: u64, a: Seq<u8>, b: Seq<u8>, off: nat)
    ensures
        spec_checksum(sum, a + b, off) == spec_checksum(spec_checksum(sum, a, off), b, off + a.len()),
    decreases b.len(),
{
    if b.len() == 0 {
        assert(a + b =~= a);
    } else {
        let n = b.len() - 1;
        lemma_checksum_chunks(sum, a, b.subrange(0, n), off);
        assert((a + b).subrange(0, a.len() + n) =~= a + b.subrange(0, n));
        assert((a + b)[a.len() + n] == b[n]);
    }
}

/// Fold `bytes` (the first at stream offset `stream_off`) into `sum`.
pub fn checksum_fold(sum: u64, bytes: &[u8], stream_off: u64) -> (r: u64)
    requires
        stream_off + bytes@.len() <= u64::MAX,
    ensures
        r == spec_checksum(sum, bytes@, stream_off as nat),
{
    let mut acc = sum;
    let mut i: usize = 0;
    while i < bytes.len()
        invariant
            i <= bytes@.len(),
            stream_off + bytes@.len() <= u64::MAX,
            acc == spec_checksum(sum, bytes@.subrange(0, i as int), stream_off as nat),
        decreases bytes@.len() - i,
    {
        proof {
            assert(bytes@.subrange(0, i + 1).subrange(0, i as int) =~= bytes@.subrange(0, i as int));
        }
        let rot = (acc << 5u64) | (acc >> 59u64);
        acc = rot ^ (bytes[i] as u64).wrapping_add(stream_off + i as u64);
        i = i + 1;
    }
    proof {
        assert(bytes@.subrange(0, bytes@.len() as int) =~= bytes@);
    }
    acc
}


/// Register access to one pv-blk window: the real MMIO mapping, or a fake
/// device in tests.
pub trait PvBlkRegs {
    /// 4-byte register read (the presence check reads `REG_MAGIC`).
    fn read_u32(&mut self, off: usize) -> u32;

    /// Issue a read of `count` sectors from `sector` into the DMA page and
    /// return the device status. On `STATUS_OK` the first
    /// `count * SECTOR_SIZE` bytes of the DMA page hold the sectors.
    fn read_sectors(&mut self, sector: u64, count: u32) -> u32;

    /// The DMA page after the last successful read.
    fn dma(&self) -> &[u8];
}

/// Sectors that fit under `MAX_GAME_BYTES`.
pub const MAX_GAME_SECTORS: u64 = 0x1_0000;

/// Where the device read stands: full pages, then the 4, 2 and 1 sector
/// tail probes.
#[derive(Clone, Copy, Debug, PartialEq, Eq, Structural)]
pub enum ReadStep {
    Pages,
    Tail4,
    Tail2,
    Tail1,
    Done,
}

/// The sector count of the read issued at `step`.
pub open spec fn spec_step_count(step: ReadStep) -> u32 {
    match step {
        ReadStep::Pages => SECTORS_PER_PAGE,
        ReadStep::Tail4 => 4,
        ReadStep::Tail2 => 2,
        ReadStep::Tail1 => 1,
        ReadStep::Done => 0,
    }
}

/// The step after a tail probe, or after the page read that was refused.
pub open spec fn spec_next_step(step: ReadStep) -> ReadStep {
    match step {
        ReadStep::Pages => ReadStep::Tail4,
        ReadStep::Tail4 => ReadStep::Tail2,
        ReadStep::Tail2 => ReadStep::Tail1,
        _ => ReadStep::Done,
    }
}

/// A device read in progress: the next sector, the checksum of the stream
/// so far, the step, and (ghost) the stream itself.
pub struct ReadModel {
    pub sector: nat,
    pub checksum: u64,
    pub step: ReadStep,
    pub streamed: Seq<u8>,
}

/// The stream is whole sectors, its checksum is folded from the seed, and
/// the page loop never passed the cap.
pub open spec fn spec_read_wf(m: ReadModel) -> bool {
    &&& m.streamed.len() == m.sector * (SECTOR_SIZE as nat)
    &&& m.checksum == spec_checksum(CHECKSUM_SEED, m.streamed, 0)
    &&& m.sector <= MAX_GAME_SECTORS + spec_tail_done(m.step)
}

/// Sectors the tail probes before `step` can have added.
pub open spec fn spec_tail_done(step: ReadStep) -> nat {
    match step {
        ReadStep::Pages => 0,
        ReadStep::Tail4 => 0,
        ReadStep::Tail2 => 4,
        ReadStep::Tail1 => 6,
        ReadStep::Done => 7,
    }
}

/// `format!("pv-blk: read status {status} at sector {sector} (count {count})")`.
pub open spec fn spec_status_error(status: u32, sector: nat, count: u32) -> Seq<char> {
    "pv-blk: read status "@ + spec_dec(status as nat) + " at sector "@ + spec_dec(sector)
        + " (count "@ + spec_dec(count as nat) + ")"@
}

/// The error for a DMA page shorter than the sectors a read returned.
pub open spec fn spec_short_dma_error(len: nat, need: nat, sector: nat) -> Seq<char> {
    "pv-blk: DMA page holds "@ + spec_dec(len) + " bytes, "@ + spec_dec(need)
        + " needed at sector "@ + spec_dec(sector)
}

/// `format!("pv-blk: game image exceeds {MAX_GAME_BYTES}-byte cap")`.
pub open spec fn spec_cap_error() -> Seq<char> {
    "pv-blk: game image exceeds "@ + spec_dec(MAX_GAME_BYTES as nat) + "-byte cap"@
}

/// One read's outcome: the next state and the bytes to append, or the
/// loud fault. `STATUS_BAD_REQUEST` is the only past-the-end signal; any
/// other non-OK status is a fault naming the status, sector and count.
pub open spec fn spec_on_status(m: ReadModel, status: u32, dma: Seq<u8>) -> Result<
    (ReadModel, Seq<u8>),
    Seq<char>,
> {
    let count = spec_step_count(m.step);
    let need = (count * SECTOR_SIZE) as nat;
    if status == STATUS_OK {
        if dma.len() < need {
            Err(spec_short_dma_error(dma.len(), need, m.sector))
        } else {
            let chunk = dma.subrange(0, need as int);
            let sector = (m.sector + count) as nat;
            if m.step == ReadStep::Pages && sector * (SECTOR_SIZE as nat) > MAX_GAME_BYTES {
                Err(spec_cap_error())
            } else {
                Ok(
                    (
                        ReadModel {
                            sector,
                            checksum: spec_checksum(
                                m.checksum,
                                chunk,
                                m.sector * (SECTOR_SIZE as nat),
                            ),
                            step: if m.step == ReadStep::Pages {
                                ReadStep::Pages
                            } else {
                                spec_next_step(m.step)
                            },
                            streamed: m.streamed + chunk,
                        },
                        chunk,
                    ),
                )
            }
        }
    } else if status == STATUS_BAD_REQUEST {
        Ok((ReadModel { step: spec_next_step(m.step), ..m }, Seq::empty()))
    } else {
        Err(spec_status_error(status, m.sector, count))
    }
}

/// The read's result once every step is done: the byte count and the
/// stream checksum, or the empty-device fault.
pub open spec fn spec_finish(m: ReadModel) -> Result<(u64, u64), Seq<char>> {
    if m.sector == 0 {
        Err("pv-blk: game device is empty (0 sectors)"@)
    } else {
        Ok(((m.sector * (SECTOR_SIZE as nat)) as u64, m.checksum))
    }
}

/// The device read's decisions, driven one status at a time.
pub struct DeviceRead {
    sector: u64,
    checksum: u64,
    step: ReadStep,
    streamed: Ghost<Seq<u8>>,
}

impl View for DeviceRead {
    type V = ReadModel;

    closed spec fn view(&self) -> ReadModel {
        ReadModel {
            sector: self.sector as nat,
            checksum: self.checksum,
            step: self.step,
            streamed: self.streamed@,
        }
    }
}

impl DeviceRead {
    /// The state's invariant.
    pub open spec fn wf(&self) -> bool {
        spec_read_wf(self@)
    }

    /// A read that starts at sector 0 with the seed checksum.
    pub fn new() -> (r: DeviceRead)
        ensures
            r.wf(),
            r@.sector == 0,
            r@.step == ReadStep::Pages,
            r@.streamed.len() == 0,
            r@.checksum == CHECKSUM_SEED,
    {
        DeviceRead {
            sector: 0,
            checksum: CHECKSUM_SEED,
            step: ReadStep::Pages,
            streamed: Ghost(Seq::empty()),
        }
    }

    /// The next read to issue, `(sector, count)`, or `None` when done.
    pub fn next_read(&self) -> (r: Option<(u64, u32)>)
        ensures
            self@.step == ReadStep::Done ==> r is None,
            self@.step != ReadStep::Done ==> r == Some(
                (self@.sector as u64, spec_step_count(self@.step)),
            ),
    {
        let count: u32 = match self.step {
            ReadStep::Pages => SECTORS_PER_PAGE,
            ReadStep::Tail4 => 4,
            ReadStep::Tail2 => 2,
            ReadStep::Tail1 => 1,
            ReadStep::Done => {
                return None;
            },
        };
        Some((self.sector, count))
    }

    /// Take the status of the read `next_read` named, with the DMA page.
    pub fn on_status(&mut self, status: u32, dma: &[u8]) -> (r: Result<Vec<u8>, String>)
        requires
            old(self).wf(),
            old(self)@.step != ReadStep::Done,
        ensures
            match spec_on_status(old(self)@, status, dma@) {
                Ok((m, chunk)) => r matches Ok(c) && c@ == chunk && final(self)@ == m
                    && final(self).wf(),
                Err(e) => r matches Err(s) && s@ == e && final(self)@ == old(self)@,
            },
    {
        let count: u32 = match self.step {
            ReadStep::Pages => SECTORS_PER_PAGE,
            ReadStep::Tail4 => 4,
            ReadStep::Tail2 => 2,
            ReadStep::Tail1 => 1,
            ReadStep::Done => 0,
        };
        let next = match self.step {
            ReadStep::Pages => ReadStep::Tail4,
            ReadStep::Tail4 => ReadStep::Tail2,
            ReadStep::Tail2 => ReadStep::Tail1,
            _ => ReadStep::Done,
        };
        let need: usize = count as usize * SECTOR_SIZE;
        if status == STATUS_OK {
            if dma.len() < need {
                let mut m = chars_of("pv-blk: DMA page holds ");
                push_dec(&mut m, dma.len() as u128);
                push_str(&mut m, " bytes, ");
                push_dec(&mut m, need as u128);
                push_str(&mut m, " needed at sector ");
                push_dec(&mut m, self.sector as u128);
                return Err(string_from_chars(m.as_slice()));
            }
            let sector = self.sector + count as u64;
            if self.step == ReadStep::Pages && sector * (SECTOR_SIZE as u64) > MAX_GAME_BYTES {
                let mut m = chars_of("pv-blk: game image exceeds ");
                push_dec(&mut m, MAX_GAME_BYTES as u128);
                push_str(&mut m, "-byte cap");
                return Err(string_from_chars(m.as_slice()));
            }
            let mut chunk: Vec<u8> = Vec::with_capacity(need);
            let mut i: usize = 0;
            while i < need
                invariant
                    i <= need,
                    need <= dma@.len(),
                    chunk@ == dma@.subrange(0, i as int),
                decreases need - i,
            {
                chunk.push(dma[i]);
                i = i + 1;
                proof {
                    assert(chunk@ =~= dma@.subrange(0, i as int));
                }
            }
            let ghost before = self.streamed@;
            let ghost old_sector: nat = self.sector as nat;
            proof {
                lemma_checksum_chunks(CHECKSUM_SEED, before, chunk@, 0);
            }
            let sum = checksum_fold(self.checksum, chunk.as_slice(), self.sector * (SECTOR_SIZE as u64));
            self.checksum = sum;
            self.sector = sector;
            if self.step != ReadStep::Pages {
                self.step = next;
            }
            self.streamed = Ghost(before + chunk@);
            proof {
                assert(self@.streamed.len() == self@.sector * (SECTOR_SIZE as nat)) by (nonlinear_arith)
                    requires
                        self@.streamed.len() == before.len() + need,
                        before.len() == old_sector * (SECTOR_SIZE as nat),
                        need == count * SECTOR_SIZE,
                        self@.sector == old_sector + count,
                ;
                if old(self)@.step == ReadStep::Pages {
                    assert(self@.sector <= MAX_GAME_SECTORS) by (nonlinear_arith)
                        requires
                            self@.sector * 512 <= 0x200_0000,
                    ;
                }
            }
            Ok(chunk)
        } else if status == STATUS_BAD_REQUEST {
            self.step = next;
            Ok(Vec::new())
        } else {
            let mut m = chars_of("pv-blk: read status ");
            push_dec(&mut m, status as u128);
            push_str(&mut m, " at sector ");
            push_dec(&mut m, self.sector as u128);
            push_str(&mut m, " (count ");
            push_dec(&mut m, count as u128);
            push_str(&mut m, ")");
            Err(string_from_chars(m.as_slice()))
        }
    }

    /// The result once the read is done.
    pub fn finish(&self) -> (r: Result<(u64, u64), String>)
        requires
            self.wf(),
        ensures
            match spec_finish(self@) {
                Ok(v) => r == Ok::<(u64, u64), String>(v),
                Err(e) => r matches Err(s) && s@ == e,
            },
    {
        if self.sector == 0 {
            return Err(string_from_chars(chars_of("pv-blk: game device is empty (0 sectors)").as_slice()));
        }
        Ok((self.sector * (SECTOR_SIZE as u64), self.checksum))
    }
}


/// A measure that every read step lowers: the sectors left below the cap,
/// then the tail probes left.
pub open spec fn spec_read_measure(m: ReadModel) -> int {
    (MAX_GAME_SECTORS + 8 - m.sector) * 5 + match m.step {
        ReadStep::Pages => 4int,
        ReadStep::Tail4 => 3int,
        ReadStep::Tail2 => 2int,
        ReadStep::Tail1 => 1int,
        ReadStep::Done => 0int,
    }
}

/// Every step that the device accepts lowers the measure, which stays
/// non-negative.
pub proof fn lemma_step_lowers_measure(m: ReadModel, status: u32, dma: Seq<u8>)
    requires
        spec_read_wf(m),
        m.step != ReadStep::Done,
        spec_on_status(m, status, dma) is Ok,
    ensures
        0 <= spec_read_measure(spec_on_status(m, status, dma)->Ok_0.0) < spec_read_measure(m),
{
}

/// `after` is `before` with whole sectors of the device stream appended.
/// On success they are `bytes` in all, not past the cap by more than the
/// tail, and fold to `sum`; on failure they are the sectors streamed
/// before the fault.
pub open spec fn spec_streamed_ok(before: Seq<u8>, after: Seq<u8>, r: Result<(u64, u64), String>) -> bool {
    &&& after.len() >= before.len()
    &&& after.subrange(0, before.len() as int) == before
    &&& (after.len() - before.len()) % (SECTOR_SIZE as int) == 0
    &&& match r {
        Ok((bytes, sum)) => {
            &&& after.len() == before.len() + bytes
            &&& after.subrange(0, before.len() as int) == before
            &&& 0 < bytes <= MAX_GAME_BYTES + 7 * SECTOR_SIZE
            &&& bytes % (SECTOR_SIZE as u64) == 0
            &&& sum == spec_checksum(CHECKSUM_SEED, after.subrange(before.len() as int, after.len() as int), 0)
        },
        Err(_) => true,
    }
}

/// Read the whole device forward from sector 0, appending the stream to
/// `out`. Returns the byte count and the stream checksum.
///
/// What the device answers is the implementation's business; whatever it
/// answers, the bytes appended are whole sectors, their count is the byte
/// count returned, and the checksum is their fold from the seed.
pub fn read_device<R: PvBlkRegs>(regs: &mut R, out: &mut Vec<u8>) -> (r: Result<(u64, u64), String>)
    ensures
        spec_streamed_ok(old(out)@, final(out)@, r),
{
    let mut st = DeviceRead::new();
    let ghost start = out@;
    loop
        invariant
            st.wf(),
            start == old(out)@,
            out@ == start + st@.streamed,
        ensures
            st.wf(),
            out@ == start + st@.streamed,
            st@.step == ReadStep::Done,
        decreases spec_read_measure(st@),
    {
        match st.next_read() {
            None => {
                break;
            },
            Some((sector, count)) => {
                let status = regs.read_sectors(sector, count);
                let ghost before = st@;
                let page = regs.dma();
                let got = st.on_status(status, page);
                match got {
                    Ok(chunk) => {
                        proof {
                            lemma_step_lowers_measure(before, status, page@);
                        }
                        let mut chunk = chunk;
                        out.append(&mut chunk);
                        proof {
                            assert(out@ =~= start + st@.streamed);
                        }
                    },
                    Err(e) => {
                        proof {
                            assert(st@ == before);
                            assert(out@.subrange(0, start.len() as int) =~= start);
                            assert(out@.len() - start.len() == st@.streamed.len());
                            assert(st@.streamed.len() == st@.sector * 512);
                            assert(st@.sector * 512 % 512 == 0) by (nonlinear_arith);
                        }
                        return Err(e);
                    },
                }
            },
        }
    }
    let res = st.finish();
    proof {
        assert(out@.subrange(0, start.len() as int) =~= start);
        assert(st@.sector * 512 % 512 == 0) by (nonlinear_arith);
        if res is Ok {
            assert(out@.subrange(start.len() as int, out@.len() as int) =~= st@.streamed);
        }
    }
    res
}

/// The device read behind the presence check: the id register must name
/// a pv-blk device before any sector is read.
pub fn read_game_image<R: PvBlkRegs>(regs: &mut R, out: &mut Vec<u8>) -> (r: Result<(u64, u64), String>)
    ensures
        spec_streamed_ok(old(out)@, final(out)@, r),
{
    let magic = regs.read_u32(REG_MAGIC);
    match check_magic(magic) {
        Ok(()) => {},
        Err(e) => {
            proof {
                assert(out@.subrange(0, out@.len() as int) =~= out@);
            }
            return Err(e);
        },
    }
    read_device(regs, out)
}

/// The status a device of `capacity` sectors gives a read of `count`
/// sectors from `sector`: done when the range lies on the device, else
/// the past-the-end refusal.
pub open spec fn spec_honest_status(capacity: nat, sector: nat, count: u32) -> u32 {
    if sector + count <= capacity {
        STATUS_OK
    } else {
        STATUS_BAD_REQUEST
    }
}

/// The read state once every read has been answered by a device of
/// `capacity` sectors whose DMA page holds `page` (the walk stops early
/// at a fault).
pub open spec fn spec_drive(m: ReadModel, capacity: nat, page: Seq<u8>) -> ReadModel
    decreases spec_read_measure(m),
{
    if m.step == ReadStep::Done {
        m
    } else {
        match spec_on_status(m, spec_honest_status(capacity, m.sector, spec_step_count(m.step)), page) {
            Ok((m2, _)) => if 0 <= spec_read_measure(m2) < spec_read_measure(m) {
                spec_drive(m2, capacity, page)
            } else {
                m
            },
            Err(_) => m,
        }
    }
}

/// Size discovery is exact: against a device of `capacity` sectors (no
/// more than the cap) that answers honestly, the read walks full pages and
/// the 4, 2 and 1 sector probes to exactly `capacity` sectors, with no
/// fault on the way.
pub proof fn lemma_size_discovery_exact(capacity: nat, page: Seq<u8>)
    requires
        capacity <= MAX_GAME_SECTORS,
        page.len() >= DMA_PAGE_SIZE,
    ensures
        ({
            let start = ReadModel {
                sector: 0,
                checksum: CHECKSUM_SEED,
                step: ReadStep::Pages,
                streamed: Seq::empty(),
            };
            let end = spec_drive(start, capacity, page);
            end.step == ReadStep::Done && end.sector == capacity
        }),
{
    let start = ReadModel {
        sector: 0,
        checksum: CHECKSUM_SEED,
        step: ReadStep::Pages,
        streamed: Seq::empty(),
    };
    lemma_drive_reaches_capacity(start, capacity, page);
}

/// The walk from any point on the honest path ends at `capacity`.
proof fn lemma_drive_reaches_capacity(m: ReadModel, capacity: nat, page: Seq<u8>)
    requires
        capacity <= MAX_GAME_SECTORS,
        page.len() >= DMA_PAGE_SIZE,
        m.sector <= capacity,
        m.step == ReadStep::Tail4 ==> capacity - m.sector < 8,
        m.step == ReadStep::Tail2 ==> capacity - m.sector < 4,
        m.step == ReadStep::Tail1 ==> capacity - m.sector < 2,
        m.step == ReadStep::Done ==> m.sector == capacity,
    ensures
        spec_drive(m, capacity, page).step == ReadStep::Done,
        spec_drive(m, capacity, page).sector == capacity,
    decreases spec_read_measure(m),
{
    if m.step != ReadStep::Done {
        let count = spec_step_count(m.step);
        let status = spec_honest_status(capacity, m.sector, count);
        let r = spec_on_status(m, status, page);
        if status == STATUS_OK {
            assert(m.sector + count <= MAX_GAME_SECTORS);
            assert((m.sector + count) * 512 <= MAX_GAME_BYTES) by (nonlinear_arith)
                requires
                    m.sector + count <= 0x1_0000,
            ;
        }
        assert(r is Ok);
        let m2 = r->Ok_0.0;
        assert(0 <= spec_read_measure(m2) < spec_read_measure(m));
        lemma_drive_reaches_capacity(m2, capacity, page);
    }
}
/// The lowercase hex digits of `n`.
pub open spec fn spec_hex_digits(n: nat) -> Seq<char>
    decreases n,
{
    let d = n % 16;
    let c = if d < 10 {
        (48 + d) as char
    } else {
        (87 + d) as char
    };
    if n < 16 {
        seq![c]
    } else {
        spec_hex_digits(n / 16).push(c)
    }
}

/// `format!("{:#x}", n)`.
pub open spec fn spec_hex(n: nat) -> Seq<char> {
    "0x"@ + spec_hex_digits(n)
}

/// Append the hex digits of `n`.
fn push_hex_digits(out: &mut Vec<char>, n: u64)
    ensures
        final(out)@ == old(out)@ + spec_hex_digits(n as nat),
    decreases n,
{
    if n >= 16 {
        push_hex_digits(out, n / 16);
    }
    let d = (n % 16) as u8;
    let c = if d < 10 {
        (48u8 + d) as char
    } else {
        (87u8 + d) as char
    };
    out.push(c);
    proof {
        assert(final(out)@ =~= old(out)@ + spec_hex_digits(n as nat));
    }
}

/// Append `format!("{:#x}", n)`.
pub fn push_hex(out: &mut Vec<char>, n: u64)
    ensures
        final(out)@ == old(out)@ + spec_hex(n as nat),
{
    push_str(out, "0x");
    push_hex_digits(out, n);
    proof {
        assert(final(out)@ =~= old(out)@ + spec_hex(n as nat));
    }
}

/// What the device id register says.
pub open spec fn spec_check_magic(magic: u32) -> Result<(), Seq<char>> {
    if magic == DEVICE_ID_PV_BLK {
        Ok(())
    } else {
        Err(
            "pv-blk: no device at GPA "@ + spec_hex(PV_BLK_BASE as nat) + " (magic "@ + spec_hex(
                magic as nat,
            ) + ", want "@ + spec_hex(DEVICE_ID_PV_BLK as nat) + ")"@,
        )
    }
}

/// Check the device id register's value.
pub fn check_magic(magic: u32) -> (r: Result<(), String>)
    ensures
        match spec_check_magic(magic) {
            Ok(()) => r is Ok,
            Err(e) => r matches Err(m) && m@ == e,
        },
{
    if magic == DEVICE_ID_PV_BLK {
        return Ok(());
    }
    let mut m = chars_of("pv-blk: no device at GPA ");
    push_hex(&mut m, PV_BLK_BASE);
    push_str(&mut m, " (magic ");
    push_hex(&mut m, magic as u64);
    push_str(&mut m, ", want ");
    push_hex(&mut m, DEVICE_ID_PV_BLK as u64);
    push_str(&mut m, ")");
    Err(string_from_chars(m.as_slice()))
}

/// The image check: the file on disk, re-read as `len` bytes folding to
/// `sum`, against the device stream (`bytes`, `checksum`). A length mismatch is named before a checksum drift.
pub open spec fn spec_verify_stream(len: u64, sum: u64, bytes: u64, checksum: u64) -> Result<
    (),
    Seq<char>,
> {
    if len != bytes {
        Err(
            "pv-blk: materialized file is "@ + spec_dec(len as nat) + " bytes, device stream was "@
                + spec_dec(bytes as nat),
        )
    } else if sum != checksum {
        Err(
            "pv-blk: materialized file checksum drift ("@ + spec_hex(sum as nat) + " != "@ + spec_hex(
                checksum as nat,
            ) + ")"@,
        )
    } else {
        Ok(())
    }
}

/// Compare the re-read image with the device stream.
pub fn verify_stream(len: u64, sum: u64, bytes: u64, checksum: u64) -> (r: Result<(), String>)
    ensures
        match spec_verify_stream(len, sum, bytes, checksum) {
            Ok(()) => r is Ok,
            Err(e) => r matches Err(m) && m@ == e,
        },
{
    if len != bytes {
        let mut m = chars_of("pv-blk: materialized file is ");
        push_dec(&mut m, len as u128);
        push_str(&mut m, " bytes, device stream was ");
        push_dec(&mut m, bytes as u128);
        return Err(string_from_chars(m.as_slice()));
    }
    if sum != checksum {
        let mut m = chars_of("pv-blk: materialized file checksum drift (");
        push_hex(&mut m, sum);
        push_str(&mut m, " != ");
        push_hex(&mut m, checksum);
        push_str(&mut m, ")");
        return Err(string_from_chars(m.as_slice()));
    }
    Ok(())
}

} // verus!
