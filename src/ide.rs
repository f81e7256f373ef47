use vstd::prelude::*;
use std::sync::atomic::Ordering;
use crate::extent::Extent;
use crate::identify::{IdentifyData, parse_identify, parsed_from};
use crate::pci::{PciConfig, flag_ops, spec_config_address, PCI_CONFIG_ADDRESS, PCI_CONFIG_DATA};
use crate::pio::{PioChunk, pio_chunks, chunk_count, expected_chunk};
use crate::ports::{PortIo, PortOp};
use crate::prdt::{PrdEntry, build_descriptors, entry_count, expected_entry, sector_count, sectors_for,
    PRDT_MAX_ENTRIES};
use crate::queue::{Request, RequestQueue, advanced};
use crate::regs::{IoError, has_bit, reg_port, spec_reg_port, spec_lba48_writes, spec_busy, spec_classify, classify_status, is_busy, lba48_writes,
    BM_COMMAND, BM_STATUS, BM_PRDT, CMD_ACT, CMD_DIR, STS_INT, ATA_REG_STATUS, ATA_REG_ALTSTATUS,
    ATA_REG_HDDEVSEL, ATA_REG_SECCOUNT0, ATA_REG_LBA0, ATA_REG_LBA1, ATA_REG_LBA2, ATA_REG_COMMAND,
    ATA_REG_DATA, ATA_CMD_IDENTIFY, ATA_CMD_READ_DMA_EXT, ATA_CMD_WRITE_DMA_EXT, ATA_CMD_READ_PIO_EXT,
    ATA_CMD_WRITE_PIO_EXT, ATA_CMD_CACHE_FLUSH_EXT};

verus! {

/// Spins on a busy status before a wait counts as a timeout.
pub const DEFAULT_SPIN_LIMIT: u32 = 1_000_000;

/// Why a transfer did not happen.
#[derive(Copy, Clone, Debug, PartialEq, Eq, Structural)]
pub enum DiskError {
    /// No buffer, or nothing to move.
    InvalidRequest,
    /// The device reported a fault during a programmed transfer.
    Io(IoError),
    /// The transfer needs more descriptors than a table holds.
    DescriptorOverflow,
    /// The channel has no descriptor table.
    NoDescriptorTable,
    /// The device stayed busy for the whole spin limit.
    HardwareTimeout,
}

/// The descriptor table of a channel: where it lies in memory and the
/// bus-master register that points the controller at it.
pub struct Prdt {
    /// Bus-master port that takes the table's address.
    pub reg: u16,
    /// Physical address of the table.
    pub table: u32,
}

impl Prdt {
    /// Allocates a table whose address will be written to port `port`.
    pub fn new<P: PortIo>(io: &mut P, port: u16) -> (r: Option<Self>)
        ensures
            r matches Some(t) ==> t.reg == port
                && final(io).trace() == old(io).trace().push(PortOp::AllocTable(Some(t.table))),
            r is None ==> final(io).trace() == old(io).trace().push(PortOp::AllocTable(None)),
    {
        match io.alloc_prd_table() {
            Some(table) => Some(Prdt { reg: port, table }),
            None => None,
        }
    }
}

/// Whether a DMA request can be described to the controller: it needs a
/// memory address and a length, and its table must fit.
pub open spec fn spec_dma_check(extent: Extent, mem: usize) -> Result<(), DiskError> {
    if mem == 0 || extent.length == 0 {
        Err(DiskError::InvalidRequest)
    } else if entry_count(extent.length as nat) > PRDT_MAX_ENTRIES {
        Err(DiskError::DescriptorOverflow)
    } else {
        Ok(())
    }
}

/// The descriptor table for a DMA request, or why it cannot be started.
pub fn dma_descriptors(extent: Extent, mem: usize) -> (r: Result<Vec<PrdEntry>, DiskError>)
    ensures
        r is Ok <==> spec_dma_check(extent, mem) is Ok,
        r matches Err(e) ==> spec_dma_check(extent, mem) == Err::<(), DiskError>(e),
        r matches Ok(v) ==> v@.len() == entry_count(extent.length as nat) && v@.len() >= 1
            && forall|i: int| 0 <= i < v@.len()
                ==> #[trigger] v@[i] == expected_entry(extent.length as nat, mem as u32, i as nat),
{
    if mem == 0 || extent.length == 0 {
        return Err(DiskError::InvalidRequest);
    }
    match build_descriptors(extent.length, mem as u32) {
        Ok(v) => {
            assert(entry_count(extent.length as nat) >= 1) by (nonlinear_arith)
                requires extent.length >= 1,
                    entry_count(extent.length as nat) == (sectors_for(extent.length as nat) * 512 + 65535) / 65536,
                    sectors_for(extent.length as nat) == (extent.length + 511) / 512;
            Ok(v)
        },
        Err(_) => Err(DiskError::DescriptorOverflow),
    }
}

/// What starting the request `cur` reports: nothing to start is no error; a
/// request that cannot be described is refused with its reason; a valid one
/// starts unless the channel has no table or the device stays busy.
pub open spec fn spec_start_result(cur: Option<Request>, has_table: bool, r: Result<(), DiskError>) -> bool {
    match cur {
        None => r is Ok,
        Some(req) => match spec_dma_check(req.extent, req.mem) {
            Err(e) => r == Err::<(), DiskError>(e),
            Ok(_) => if has_table {
                r is Ok || r == Err::<(), DiskError>(DiskError::HardwareTimeout)
            } else {
                r == Err::<(), DiskError>(DiskError::NoDescriptorTable)
            },
        },
    }
}

/// Drive-select value for 48-bit addressing: 0x40 for the master, 0x50 for
/// the slave.
pub open spec fn spec_lba_devsel(master: bool) -> u8 {
    if master { 0x40 } else { 0x50 }
}

pub fn lba_devsel(master: bool) -> (r: u8)
    ensures
        r == spec_lba_devsel(master),
{
    if master { 0x40 } else { 0x50 }
}

/// Port accesses that writing each `(register, value)` of `ws` makes, in
/// order; a register with no port is skipped.
pub open spec fn reg_write_ops(base: u16, ctrl: u16, ws: Seq<(u16, u8)>) -> Seq<PortOp>
    decreases ws.len(),
{
    if ws.len() == 0 {
        Seq::empty()
    } else {
        reg_write_ops(base, ctrl, ws.drop_last()) + match spec_reg_port(base, ctrl, ws.last().0) {
            Some(p) => seq![PortOp::Out8(p, ws.last().1)],
            None => Seq::empty(),
        }
    }
}

/// `t1` is `t0` with more accesses after it.
pub open spec fn grew(t0: Seq<PortOp>, t1: Seq<PortOp>) -> bool {
    t0.len() <= t1.len() && t1.subrange(0, t0.len() as int) == t0
}

/// The accesses of `t1` made after `t0`.
pub open spec fn added(t0: Seq<PortOp>, t1: Seq<PortOp>) -> Seq<PortOp> {
    t1.subrange(t0.len() as int, t1.len() as int)
}

proof fn lemma_grew_refl(t: Seq<PortOp>)
    ensures
        grew(t, t),
        added(t, t) == Seq::<PortOp>::empty(),
{
    assert(t.subrange(0, t.len() as int) =~= t);
    assert(added(t, t) =~= Seq::<PortOp>::empty());
}

proof fn lemma_grew_trans(a: Seq<PortOp>, b: Seq<PortOp>, c: Seq<PortOp>)
    requires
        grew(a, b),
        grew(b, c),
    ensures
        grew(a, c),
        added(a, c) == added(a, b) + added(b, c),
        c == a + added(a, c),
{
    assert(c.subrange(0, a.len() as int) =~= b.subrange(0, a.len() as int));
    assert(added(a, c) =~= added(a, b) + added(b, c));
    assert(c =~= a + added(a, c));
}

proof fn lemma_grew_append(a: Seq<PortOp>, seg: Seq<PortOp>)
    ensures
        grew(a, a + seg),
        added(a, a + seg) == seg,
{
    assert((a + seg).subrange(0, a.len() as int) =~= a);
    assert(added(a, a + seg) =~= seg);
}

/// ATA command of a 48-bit programmed transfer.
pub open spec fn spec_pio_command(write: bool) -> u8 {
    if write { ATA_CMD_WRITE_PIO_EXT } else { ATA_CMD_READ_PIO_EXT }
}

pub fn pio_command(write: bool) -> (r: u8)
    ensures
        r == spec_pio_command(write),
{
    if write { ATA_CMD_WRITE_PIO_EXT } else { ATA_CMD_READ_PIO_EXT }
}

/// Every access of `seg` is a byte read of `port` or of `other`.
pub open spec fn reads_only(seg: Seq<PortOp>, port: u16, other: u16) -> bool {
    forall|i: int| 0 <= i < seg.len() ==> (#[trigger] seg[i] matches PortOp::In8(p, _) && (p == port || p == other))
}

/// Every access of `seg` read `port` and found it busy.
pub open spec fn busy_reads(seg: Seq<PortOp>, port: u16) -> bool {
    forall|i: int| 0 <= i < seg.len() ==> (#[trigger] seg[i] matches PortOp::In8(p, v) && p == port && spec_busy(v))
}

/// `seg` is a busy wait on `port` that ended: at most `limit` reads, all
/// busy but the last.
pub open spec fn wait_done(seg: Seq<PortOp>, port: u16, limit: u32) -> bool {
    &&& 1 <= seg.len() <= limit
    &&& busy_reads(seg.drop_last(), port)
    &&& seg.last() matches PortOp::In8(p, v) && p == port && !spec_busy(v)
}

/// `seg` is a busy wait on `port` that timed out: `limit` reads, all busy.
pub open spec fn wait_timed_out(seg: Seq<PortOp>, port: u16, limit: u32) -> bool {
    seg.len() == limit && busy_reads(seg, port)
}

/// Four reads of `port` (the settle delay before a poll).
pub open spec fn settle_reads(seg: Seq<PortOp>, port: u16) -> bool {
    seg.len() == 4 && forall|i: int| 0 <= i < 4 ==> (#[trigger] seg[i] matches PortOp::In8(p, _) && p == port)
}

/// What a checked poll reports for the status `v` read after BSY cleared.
pub open spec fn poll_result(v: u8) -> Result<(), DiskError> {
    match spec_classify(v) {
        Some(e) => Err(DiskError::Io(e)),
        None => Ok(()),
    }
}

/// `seg` is a poll on the drive with ports `base`/`ctrl` and spin limit
/// `limit`, with or without the error check, that gave `r`: the settle
/// reads of ALTSTATUS, the busy wait, then with the check one status read
/// that decides the result.
#[verifier::opaque]
pub open spec fn poll_trace(base: u16, ctrl: u16, limit: u32, seg: Seq<PortOp>, check: bool, r: Result<(), DiskError>) -> bool {
    let st = spec_reg_port(base, ctrl, ATA_REG_STATUS).unwrap();
    let alt = spec_reg_port(base, ctrl, ATA_REG_ALTSTATUS).unwrap();
    exists|a: Seq<PortOp>, w: Seq<PortOp>| #![trigger settle_reads(a, alt), wait_timed_out(w, st, limit)] {
        &&& settle_reads(a, alt)
        &&& (wait_timed_out(w, st, limit) && seg == a + w && r == Err::<(), DiskError>(DiskError::HardwareTimeout))
            || (wait_done(w, st, limit) && !check && seg == a + w && r is Ok)
            || (wait_done(w, st, limit) && check && exists|v: u8| seg == a + w + seq![PortOp::In8(st, v)]
                && r == #[trigger] poll_result(v))
    }
}

proof fn lemma_poll_intro(base: u16, ctrl: u16, limit: u32, a: Seq<PortOp>, w: Seq<PortOp>, seg: Seq<PortOp>,
    check: bool, r: Result<(), DiskError>, v: u8)
    requires
        settle_reads(a, spec_reg_port(base, ctrl, ATA_REG_ALTSTATUS).unwrap()),
        ({
            let st = spec_reg_port(base, ctrl, ATA_REG_STATUS).unwrap();
            (wait_timed_out(w, st, limit) && seg == a + w && r == Err::<(), DiskError>(DiskError::HardwareTimeout))
            || (wait_done(w, st, limit) && !check && seg == a + w && r is Ok)
            || (wait_done(w, st, limit) && check && seg == a + w + seq![PortOp::In8(st, v)] && r == poll_result(v))
        }),
    ensures
        poll_trace(base, ctrl, limit, seg, check, r),
{
    reveal(poll_trace);
    let st = spec_reg_port(base, ctrl, ATA_REG_STATUS).unwrap();
    assert(wait_timed_out(w, st, limit) || !wait_timed_out(w, st, limit));
    assert(poll_result(v) == poll_result(v));
}

/// `p` opens `s`.
pub open spec fn opens(s: Seq<PortOp>, p: Seq<PortOp>) -> bool {
    p.len() <= s.len() && s.subrange(0, p.len() as int) == p
}

/// What follows a successful busy wait in IDENTIFY: the six writes, a
/// status read `s1`; a zero status ends it with no drive; otherwise a
/// checked poll, which on a fault ends it with no drive, and on success the
/// 256 data words, parsed into `info`.
#[verifier::opaque]
pub open spec fn identify_after_wait(base: u16, ctrl: u16, limit: u32, master: bool, seg: Seq<PortOp>, r: bool,
    info: Option<IdentifyData>) -> bool {
    let st = spec_reg_port(base, ctrl, ATA_REG_STATUS).unwrap();
    let cmd = reg_write_ops(base, ctrl, spec_identify_writes(master));
    &&& seg.len() > cmd.len()
    &&& seg.subrange(0, cmd.len() as int) == cmd
    &&& seg[cmd.len() as int] matches PortOp::In8(p, s1) && p == st && {
        let rest = seg.subrange(cmd.len() as int + 1, seg.len() as int);
        if s1 == 0 {
            rest.len() == 0 && !r
        } else {
            exists|q: Seq<PortOp>, rq: Result<(), DiskError>| #![trigger opens(rest, q), poll_trace(base, ctrl, limit, q, true, rq)] {
                &&& opens(rest, q)
                &&& poll_trace(base, ctrl, limit, q, true, rq)
                &&& rq is Err ==> rest == q && !r
                &&& rq is Ok ==> r && exists|words: Seq<u16>| #[trigger] data_reads(base, words) == rest.subrange(q.len() as int, rest.len() as int)
                    && words.len() == 256 && info is Some && parsed_from(info.unwrap(), words)
            }
        }
    }
}

/// `seg` is IDENTIFY run on the drive at `base`/`ctrl` with result `r`:
/// a first status read, 0xFF ending it with no drive; then a busy wait,
/// whose timeout ends it with no drive; then the rest of the protocol.
#[verifier::opaque]
pub open spec fn identify_trace(base: u16, ctrl: u16, limit: u32, master: bool, seg: Seq<PortOp>, r: bool,
    info: Option<IdentifyData>) -> bool {
    let st = spec_reg_port(base, ctrl, ATA_REG_STATUS).unwrap();
    &&& seg.len() >= 1
    &&& seg[0] matches PortOp::In8(p, s0) && p == st && {
        let tail = seg.drop_first();
        if s0 == 0xFF {
            tail.len() == 0 && !r
        } else {
            exists|w: Seq<PortOp>| #[trigger] opens(tail, w) && {
                ||| wait_timed_out(w, st, limit) && tail == w && !r
                ||| wait_done(w, st, limit)
                    && identify_after_wait(base, ctrl, limit, master, tail.subrange(w.len() as int, tail.len() as int), r, info)
            }
        }
    }
}

proof fn lemma_opens(p: Seq<PortOp>, rest: Seq<PortOp>)
    ensures
        opens(p + rest, p),
        (p + rest).subrange(p.len() as int, (p + rest).len() as int) == rest,
{
    assert((p + rest).subrange(0, p.len() as int) =~= p);
    assert((p + rest).subrange(p.len() as int, (p + rest).len() as int) =~= rest);
}

/// What follows a clean checked poll for the sector at byte `at`: for a
/// write, its 256 words out, CACHE FLUSH EXT and an unchecked poll, the
/// buffer unchanged; for a read, 256 words in, stored in the buffer.
#[verifier::opaque]
pub open spec fn sector_data(base: u16, ctrl: u16, limit: u32, buf0: Seq<u8>, at: int, write: bool,
    seg: Seq<PortOp>, buf1: Seq<u8>) -> bool {
    if write {
        &&& buf1 == buf0
        &&& exists|q: Seq<PortOp>, rq: Result<(), DiskError>| #[trigger] poll_trace(base, ctrl, limit, q, false, rq)
            && seg == sector_out_ops(base, buf0, at, 256)
                + reg_write_ops(base, ctrl, seq![(ATA_REG_COMMAND, ATA_CMD_CACHE_FLUSH_EXT)]) + q
    } else {
        exists|w: Seq<u16>| #[trigger] data_reads(base, w) == seg && w.len() == 256 && buf1 == fill_words(buf0, at, w)
    }
}

/// `seg` moves the sector at byte `at` of `buf0` (leaving `buf1`) with
/// result `r`: a checked poll; a timeout or fault ends it with that error,
/// otherwise the data follows.
#[verifier::opaque]
pub open spec fn sector_trace(base: u16, ctrl: u16, limit: u32, buf0: Seq<u8>, at: int, write: bool,
    seg: Seq<PortOp>, buf1: Seq<u8>, r: Result<(), DiskError>) -> bool {
    exists|p: Seq<PortOp>, rp: Result<(), DiskError>| #![trigger opens(seg, p), poll_trace(base, ctrl, limit, p, true, rp)] {
        &&& opens(seg, p)
        &&& poll_trace(base, ctrl, limit, p, true, rp)
        &&& rp is Err ==> seg == p && buf1 == buf0 && r == rp
        &&& rp is Ok ==> r is Ok && sector_data(base, ctrl, limit, buf0, at, write,
            seg.subrange(p.len() as int, seg.len() as int), buf1)
    }
}

proof fn lemma_concat_push(segs: Seq<Seq<PortOp>>, x: Seq<PortOp>)
    ensures
        concat(segs.push(x)) == concat(segs) + x,
{
    assert(segs.push(x).drop_last() =~= segs);
}

/// Result of a transfer as success or the error that ended it.
pub open spec fn as_unit(r: Result<usize, DiskError>) -> Result<(), DiskError> {
    match r {
        Ok(_) => Ok(()),
        Err(e) => Err(e),
    }
}

/// Sector `i` of a run from byte `first` went from `bufs[i]` to
/// `bufs[i + 1]` through `segs[i]` with result `rs[i]`, and every sector
/// but the last succeeded.
pub open spec fn sector_steps(base: u16, ctrl: u16, limit: u32, first: int, write: bool, segs: Seq<Seq<PortOp>>,
    bufs: Seq<Seq<u8>>, rs: Seq<Result<(), DiskError>>) -> bool {
    &&& rs.len() == segs.len() && bufs.len() == segs.len() + 1
    &&& forall|i: int| 0 <= i < segs.len() ==> #[trigger] sector_trace(base, ctrl, limit, bufs[i], first + 512 * i, write,
        segs[i], bufs[i + 1], rs[i])
    &&& forall|i: int| 0 <= i < segs.len() - 1 ==> (#[trigger] rs[i]) is Ok
}

/// `seg` moves `n` sectors from byte `first`, one after the other, taking
/// `buf0` to `buf1`: all of them with result `Ok`, or up to the first that
/// fails, whose error is `r`.
#[verifier::opaque]
pub open spec fn sector_run(base: u16, ctrl: u16, limit: u32, buf0: Seq<u8>, first: int, write: bool, n: nat,
    seg: Seq<PortOp>, buf1: Seq<u8>, r: Result<(), DiskError>) -> bool {
    exists|segs: Seq<Seq<PortOp>>, bufs: Seq<Seq<u8>>, rs: Seq<Result<(), DiskError>>|
        #[trigger] sector_steps(base, ctrl, limit, first, write, segs, bufs, rs) && {
        let m = segs.len();
        &&& bufs[0] == buf0 && bufs[m as int] == buf1
        &&& seg == concat(segs)
        &&& (r is Ok && m == n && (m == 0 || rs[m - 1] is Ok))
            || (r is Err && 1 <= m <= n && rs[m - 1] == r)
    }
}

/// `seg` is one programmed command of `sectors` sectors from `block`, data
/// at byte `first`: a busy wait, whose timeout ends it; the LBA48 writes and
/// the read or write command; then the sectors.
#[verifier::opaque]
pub open spec fn command_trace(base: u16, ctrl: u16, limit: u32, master: bool, block: u64, sectors: nat, first: int,
    write: bool, buf0: Seq<u8>, seg: Seq<PortOp>, buf1: Seq<u8>, r: Result<(), DiskError>) -> bool {
    let st = spec_reg_port(base, ctrl, ATA_REG_STATUS).unwrap();
    let cmd = reg_write_ops(base, ctrl, spec_lba48_writes(spec_lba_devsel(master), block, sectors as u64,
        spec_pio_command(write)));
    exists|w: Seq<PortOp>| #[trigger] opens(seg, w) && {
        ||| wait_timed_out(w, st, limit) && seg == w && buf1 == buf0 && r == Err::<(), DiskError>(DiskError::HardwareTimeout)
        ||| wait_done(w, st, limit) && opens(seg.subrange(w.len() as int, seg.len() as int), cmd)
            && sector_run(base, ctrl, limit, buf0, first, write, sectors,
                seg.subrange(w.len() as int + cmd.len(), seg.len() as int), buf1, r)
    }
}

/// Chunk `i` of the transfer of `sectors` sectors from `block` went from
/// `bufs[i]` to `bufs[i + 1]` through `segs[i]` with result `rs[i]`, and
/// every chunk but the last succeeded.
pub open spec fn chunk_steps(base: u16, ctrl: u16, limit: u32, master: bool, block: u64, sectors: nat, write: bool,
    segs: Seq<Seq<PortOp>>, bufs: Seq<Seq<u8>>, rs: Seq<Result<(), DiskError>>) -> bool {
    &&& rs.len() == segs.len() && bufs.len() == segs.len() + 1
    &&& forall|i: int| 0 <= i < segs.len() ==> #[trigger] command_trace(base, ctrl, limit, master,
        expected_chunk(block, sectors, i as nat).block, expected_chunk(block, sectors, i as nat).sectors as nat,
        expected_chunk(block, sectors, i as nat).first * 512, write, bufs[i], segs[i], bufs[i + 1], rs[i])
    &&& forall|i: int| 0 <= i < segs.len() - 1 ==> (#[trigger] rs[i]) is Ok
}

/// `seg` is the programmed transfer of `sectors` sectors from `block`: the
/// commands of `pio_chunks` in order, taking `buf0` to `buf1`; all of them
/// with result `Ok`, or up to the first that fails, whose error is `r`.
#[verifier::opaque]
pub open spec fn transfer_trace(base: u16, ctrl: u16, limit: u32, master: bool, block: u64, sectors: nat, write: bool,
    buf0: Seq<u8>, seg: Seq<PortOp>, buf1: Seq<u8>, r: Result<(), DiskError>) -> bool {
    exists|segs: Seq<Seq<PortOp>>, bufs: Seq<Seq<u8>>, rs: Seq<Result<(), DiskError>>|
        #[trigger] chunk_steps(base, ctrl, limit, master, block, sectors, write, segs, bufs, rs) && {
        let m = segs.len();
        &&& bufs[0] == buf0 && bufs[m as int] == buf1
        &&& seg == concat(segs)
        &&& (r is Ok && m == chunk_count(sectors) && (m == 0 || rs[m - 1] is Ok))
            || (r is Err && 1 <= m <= chunk_count(sectors) && rs[m - 1] == r)
    }
}

proof fn lemma_sector_run_intro(base: u16, ctrl: u16, limit: u32, buf0: Seq<u8>, first: int, write: bool, n: nat,
    segs: Seq<Seq<PortOp>>, bufs: Seq<Seq<u8>>, rs: Seq<Result<(), DiskError>>, buf1: Seq<u8>, r: Result<(), DiskError>)
    requires
        sector_steps(base, ctrl, limit, first, write, segs, bufs, rs),
        bufs[0] == buf0,
        bufs[segs.len() as int] == buf1,
        (r is Ok && segs.len() == n && (segs.len() == 0 || rs[segs.len() - 1] is Ok))
            || (r is Err && 1 <= segs.len() <= n && rs[segs.len() - 1] == r),
    ensures
        sector_run(base, ctrl, limit, buf0, first, write, n, concat(segs), buf1, r),
{
    reveal(sector_run);
}

proof fn lemma_command_intro(base: u16, ctrl: u16, limit: u32, master: bool, block: u64, sectors: nat, first: int,
    write: bool, buf0: Seq<u8>, w: Seq<PortOp>, rest: Seq<PortOp>, buf1: Seq<u8>, r: Result<(), DiskError>)
    requires
        wait_done(w, spec_reg_port(base, ctrl, ATA_REG_STATUS).unwrap(), limit),
        sector_run(base, ctrl, limit, buf0, first, write, sectors, rest, buf1, r),
    ensures
        command_trace(base, ctrl, limit, master, block, sectors, first, write, buf0,
            w + reg_write_ops(base, ctrl, spec_lba48_writes(spec_lba_devsel(master), block, sectors as u64,
                spec_pio_command(write))) + rest, buf1, r),
{
    reveal(command_trace);
    let cmd = reg_write_ops(base, ctrl, spec_lba48_writes(spec_lba_devsel(master), block, sectors as u64,
        spec_pio_command(write)));
    let seg = w + cmd + rest;
    assert(seg =~= w + (cmd + rest));
    lemma_opens(w, cmd + rest);
    lemma_opens(cmd, rest);
    assert(seg.subrange(w.len() as int + cmd.len(), seg.len() as int) =~= rest);
}

proof fn lemma_transfer_intro(base: u16, ctrl: u16, limit: u32, master: bool, block: u64, sectors: nat, write: bool,
    buf0: Seq<u8>, segs: Seq<Seq<PortOp>>, bufs: Seq<Seq<u8>>, rs: Seq<Result<(), DiskError>>, buf1: Seq<u8>,
    r: Result<(), DiskError>)
    requires
        chunk_steps(base, ctrl, limit, master, block, sectors, write, segs, bufs, rs),
        bufs[0] == buf0,
        bufs[segs.len() as int] == buf1,
        (r is Ok && segs.len() == chunk_count(sectors) && (segs.len() == 0 || rs[segs.len() - 1] is Ok))
            || (r is Err && 1 <= segs.len() <= chunk_count(sectors) && rs[segs.len() - 1] == r),
    ensures
        transfer_trace(base, ctrl, limit, master, block, sectors, write, buf0, concat(segs), buf1, r),
{
    reveal(transfer_trace);
}

/// The last access of `seg` read `v` from `port`.
pub open spec fn last_read(seg: Seq<PortOp>, port: u16, v: u8) -> bool {
    seg.len() > 0 && seg.last() == PortOp::In8(port, v)
}

/// The descriptor table for `len` bytes at `base`.
pub open spec fn spec_table(len: nat, base: u32) -> Seq<PrdEntry> {
    Seq::new(entry_count(len), |i: int| expected_entry(len, base, i as nat))
}

/// Stores of `es` as entries 0, 1, ... of the table at `table`.
pub open spec fn prd_store_ops(table: u32, es: Seq<PrdEntry>) -> Seq<PortOp> {
    Seq::new(es.len(), |i: int| PortOp::StorePrd(table, i as u16, es[i]))
}

/// Bus-master command that sets the direction with the engine stopped.
pub open spec fn spec_dma_direction(read: bool) -> u8 {
    if read { CMD_DIR } else { 0 }
}

/// Bus-master command that starts the engine.
pub open spec fn spec_dma_start(read: bool) -> u8 {
    if read { CMD_ACT | CMD_DIR } else { CMD_ACT }
}

/// ATA command of a 48-bit DMA transfer.
pub open spec fn spec_dma_command(read: bool) -> u8 {
    if read { ATA_CMD_READ_DMA_EXT } else { ATA_CMD_WRITE_DMA_EXT }
}

/// A bus-master command value with ACT cleared.
pub open spec fn spec_clear_act(cmd: u8) -> u8 {
    (cmd / 2 * 2) as u8
}

pub fn dma_direction(read: bool) -> (r: u8)
    ensures
        r == spec_dma_direction(read),
{
    if read { CMD_DIR } else { 0 }
}

pub fn dma_start(read: bool) -> (r: u8)
    ensures
        r == spec_dma_start(read),
{
    if read { CMD_ACT | CMD_DIR } else { CMD_ACT }
}

pub fn dma_command(read: bool) -> (r: u8)
    ensures
        r == spec_dma_command(read),
{
    if read { ATA_CMD_READ_DMA_EXT } else { ATA_CMD_WRITE_DMA_EXT }
}

pub fn clear_act(cmd: u8) -> (r: u8)
    ensures
        r == spec_clear_act(cmd),
{
    assert(cmd & !1u8 == (cmd / 2 * 2) as u8) by (bit_vector);
    cmd & !CMD_ACT
}

/// `t1` is `t0`, then, if a request was in flight, a read of the bus-master
/// command and the write of that value with ACT cleared.
pub open spec fn completion_ops(bm: u16, t0: Seq<PortOp>, t1: Seq<PortOp>, had_current: bool) -> bool {
    if had_current {
        exists|c: u8| t1 == t0 + seq![PortOp::In8(bm, c), PortOp::Out8(bm, #[trigger] spec_clear_act(c))]
    } else {
        t1 == t0
    }
}

/// Reads of `words` from `port`, in order.
pub open spec fn data_reads(port: u16, words: Seq<u16>) -> Seq<PortOp> {
    Seq::new(words.len(), |i: int| PortOp::In16(port, words[i]))
}

/// Register writes that issue IDENTIFY DEVICE to the master (DEVSEL 0xA0)
/// or the slave (0xB0): count and low LBA zeroed, then the command.
pub open spec fn spec_identify_writes(master: bool) -> Seq<(u16, u8)> {
    seq![
        (ATA_REG_HDDEVSEL, if master { 0xA0u8 } else { 0xB0u8 }),
        (ATA_REG_SECCOUNT0, 0u8),
        (ATA_REG_LBA0, 0u8),
        (ATA_REG_LBA1, 0u8),
        (ATA_REG_LBA2, 0u8),
        (ATA_REG_COMMAND, ATA_CMD_IDENTIFY),
    ]
}

pub fn identify_writes(master: bool) -> (r: Vec<(u16, u8)>)
    ensures
        r@ == spec_identify_writes(master),
{
    let devsel: u8 = if master { 0xA0 } else { 0xB0 };
    let v = vec![
        (ATA_REG_HDDEVSEL, devsel),
        (ATA_REG_SECCOUNT0, 0),
        (ATA_REG_LBA0, 0),
        (ATA_REG_LBA1, 0),
        (ATA_REG_LBA2, 0),
        (ATA_REG_COMMAND, ATA_CMD_IDENTIFY),
    ];
    assert(v@ =~= spec_identify_writes(master));
    v
}

/// The data word of bytes `k` and `k + 1` of `buf`, low byte first.
pub open spec fn spec_sector_word(buf: Seq<u8>, k: int) -> u16 {
    (buf[k] + 256 * buf[k + 1]) as u16
}

/// Writes of the first `n` words of the sector at `at` of `buf` to `port`.
pub open spec fn sector_out_ops(port: u16, buf: Seq<u8>, at: int, n: int) -> Seq<PortOp> {
    Seq::new(n as nat, |j: int| PortOp::Out16(port, spec_sector_word(buf, at + 2 * j)))
}

/// `buf` with `words` stored from byte `at`, each low byte first.
pub open spec fn fill_words(buf: Seq<u8>, at: int, words: Seq<u16>) -> Seq<u8> {
    Seq::new(buf.len(), |k: int|
        if at <= k < at + 2 * words.len() {
            if (k - at) % 2 == 0 { (words[(k - at) / 2] % 256) as u8 } else { (words[(k - at) / 2] / 256) as u8 }
        } else {
            buf[k]
        })
}

/// The data word of bytes `k` and `k + 1`, low byte first.
pub fn sector_word(buf: &Vec<u8>, k: usize) -> (r: u16)
    requires
        k + 1 < buf@.len(),
    ensures
        r == spec_sector_word(buf@, k as int),
{
    let n = buf.len();
    assert(k + 1 < n);
    let lo = buf[k] as u16;
    let hi = buf[k + 1] as u16;
    assert(lo | (hi << 8) == lo + 256 * hi) by (bit_vector)
        requires lo < 256, hi < 256;
    lo | (hi << 8)
}

/// Stores `w` at bytes `k` and `k + 1`, low byte first.
pub fn store_word(buf: &mut Vec<u8>, k: usize, w: u16)
    requires
        k + 1 < old(buf)@.len(),
    ensures
        final(buf)@ == old(buf)@.update(k as int, (w % 256) as u8).update(k + 1, (w / 256) as u8),
{
    let n = buf.len();
    assert(k + 1 < n);
    assert((w & 0xFF) as u8 == (w % 256) as u8) by (bit_vector);
    assert((w >> 8) as u8 == (w / 256) as u8) by (bit_vector);
    buf.set(k, (w & 0xFF) as u8);
    buf.set(k + 1, (w >> 8) as u8);
}

/// One drive position on an IDE channel.
pub struct IdeDisk {
    base: u16,
    ctrl: u16,
    master: bool,
    busmaster: u16,
    queue: RequestQueue,
    prdt: Option<Prdt>,
    spin_limit: u32,
    info: Option<IdentifyData>,
    /// Interrupt line of the channel.
    pub irq: u8,
}

impl IdeDisk {
    /// The requests of the channel.
    pub closed spec fn queue(&self) -> RequestQueue {
        self.queue
    }

    pub closed spec fn spec_master(&self) -> bool {
        self.master
    }

    pub closed spec fn spec_irq(&self) -> u8 {
        self.irq
    }

    /// Status reads a wait may take before it times out.
    pub closed spec fn spec_spin_limit(&self) -> u32 {
        self.spin_limit
    }

    pub closed spec fn spec_base(&self) -> u16 {
        self.base
    }

    pub closed spec fn spec_ctrl(&self) -> u16 {
        self.ctrl
    }

    pub closed spec fn spec_busmaster(&self) -> u16 {
        self.busmaster
    }

    /// The descriptor table, if the channel has one.
    pub closed spec fn spec_prdt(&self) -> Option<Prdt> {
        self.prdt
    }

    /// The STATUS register's port.
    pub open spec fn status_port(&self) -> u16 {
        spec_reg_port(self.spec_base(), self.spec_ctrl(), ATA_REG_STATUS).unwrap()
    }

    /// The ALTSTATUS register's port.
    pub open spec fn altstatus_port(&self) -> u16 {
        spec_reg_port(self.spec_base(), self.spec_ctrl(), ATA_REG_ALTSTATUS).unwrap()
    }

    /// Data of the last successful identification.
    pub closed spec fn spec_info(&self) -> Option<IdentifyData> {
        self.info
    }

    /// Whether the channel holds a descriptor table.
    pub closed spec fn spec_has_table(&self) -> bool {
        self.prdt is Some
    }

    /// The queue is consistent, nothing waits while the channel is idle, and
    /// the table's address register is the bus-master's descriptor port.
    pub open spec fn wf(&self) -> bool {
        &&& self.queue().wf()
        &&& self.queue().current() is None ==> self.queue().pending().len() == 0
        &&& self.table_wf()
    }

    /// The table's address register is the bus-master's descriptor port.
    pub open spec fn table_wf(&self) -> bool {
        self.spec_prdt() matches Some(t) ==> t.reg == ((self.spec_busmaster() + BM_PRDT) % 0x10000) as u16
    }

    /// `a` and `b` sit at the same position, with the same ports and table.
    pub open spec fn same_setup(a: IdeDisk, b: IdeDisk) -> bool {
        &&& a.spec_base() == b.spec_base()
        &&& a.spec_ctrl() == b.spec_ctrl()
        &&& a.spec_busmaster() == b.spec_busmaster()
        &&& a.spec_master() == b.spec_master()
        &&& a.spec_irq() == b.spec_irq()
        &&& a.spec_prdt() == b.spec_prdt()
        &&& a.spec_spin_limit() == b.spec_spin_limit()
    }

    /// Accesses that program and start `req` with the table `t`, `wait`
    /// being the status reads of the busy wait: direction, wait, table,
    /// table address, drive and LBA48 registers with the DMA command, start.
    pub open spec fn dma_start_ops(&self, req: Request, t: Prdt, wait: Seq<PortOp>) -> Seq<PortOp> {
        let bm = self.spec_busmaster();
        let len = req.extent.length as nat;
        seq![PortOp::Out8(bm, spec_dma_direction(req.read))] + wait
            + prd_store_ops(t.table, spec_table(len, req.mem as u32))
            + seq![PortOp::Out32(t.reg, t.table)]
            + reg_write_ops(self.spec_base(), self.spec_ctrl(), spec_lba48_writes(spec_lba_devsel(self.spec_master()),
                req.extent.block, sectors_for(len) as u64, spec_dma_command(req.read)))
            + seq![PortOp::Out8(bm, spec_dma_start(req.read))]
    }

    /// How starting the request in flight extends `t0` to `t1` with result
    /// `r`: nothing is touched unless the request is valid and a table
    /// exists; a wait that ends on a non-busy status leads to the whole
    /// start, one that times out (`spin_limit` busy reads) stops there.
    pub open spec fn start_trace(&self, t0: Seq<PortOp>, t1: Seq<PortOp>, r: Result<(), DiskError>) -> bool {
        match self.queue().current() {
            None => t1 == t0,
            Some(req) => if spec_dma_check(req.extent, req.mem) is Err || self.spec_prdt() is None {
                t1 == t0
            } else {
                exists|w: Seq<PortOp>| #[trigger] reads_only(w, self.status_port(), self.status_port()) && {
                    &&& r is Ok ==> t1 == t0 + self.dma_start_ops(req, self.spec_prdt().unwrap(), w)
                        && wait_done(w, self.status_port(), self.spec_spin_limit())
                    &&& r is Err ==> t1 == t0 + seq![PortOp::Out8(self.spec_busmaster(), spec_dma_direction(req.read))] + w
                        && wait_timed_out(w, self.status_port(), self.spec_spin_limit())
                }
            },
        }
    }

    /// How `next_request` on `self` (leaving `after`) extends `t0` to `t1`:
    /// the completion writes, then the start of the next request.
    pub open spec fn next_trace(&self, after: IdeDisk, t0: Seq<PortOp>, t1: Seq<PortOp>, r: Result<(), DiskError>) -> bool {
        exists|mid: Seq<PortOp>| #[trigger] completion_ops(self.spec_busmaster(), t0, mid, self.queue().current() is Some)
            && after.start_trace(mid, t1, r)
    }

    /// The bus-master status port.
    pub open spec fn bm_status_port(&self) -> u16 {
        ((self.spec_busmaster() + BM_STATUS) % 0x10000) as u16
    }

    /// A drive position with the given ports, not yet identified; its
    /// descriptor table is allocated, its address register being
    /// `busmaster + 4`.
    pub fn with_ports<P: PortIo>(io: &mut P, busmaster: u16, base: u16, ctrl: u16, irq: u8, master: bool) -> (r: Self)
        ensures
            r.wf(),
            r.queue().current() is None,
            r.queue().submitted().len() == 0,
            r.spec_master() == master,
            r.spec_irq() == irq,
            r.spec_base() == base,
            r.spec_ctrl() == ctrl,
            r.spec_busmaster() == busmaster,
            r.spec_info() is None,
            r.spec_spin_limit() == DEFAULT_SPIN_LIMIT,
            grew(old(io).trace(), final(io).trace()),
            added(old(io).trace(), final(io).trace()).len() == 1,
            added(old(io).trace(), final(io).trace())[0] is AllocTable,
    {
        let ghost t0 = io.trace();
        let prdt = Prdt::new(io, busmaster.wrapping_add(BM_PRDT));
        proof {
            let op = io.trace().last();
            assert(io.trace() =~= t0 + seq![op]);
            lemma_grew_append(t0, seq![op]);
        }
        IdeDisk {
            base,
            ctrl,
            master,
            busmaster,
            queue: RequestQueue::new(),
            prdt,
            spin_limit: DEFAULT_SPIN_LIMIT,
            info: None,
            irq,
        }
    }

    /// Probes a drive position; `None` when no drive answers there, in
    /// particular when the first status read shows a floating bus (0xFF).
    pub fn new<P: PortIo>(io: &mut P, busmaster: u16, base: u16, ctrl: u16, irq: u8, master: bool) -> (r: Option<Self>)
        ensures
            r matches Some(d) ==> d.wf() && d.queue().current() is None
                && d.queue().submitted().len() == 0 && d.spec_master() == master && d.spec_irq() == irq
                && d.spec_base() == base && d.spec_ctrl() == ctrl && d.spec_busmaster() == busmaster
                && d.spec_info() is Some,
            grew(old(io).trace(), final(io).trace()),
            added(old(io).trace(), final(io).trace()).len() >= 2,
            added(old(io).trace(), final(io).trace())[0] is AllocTable,
            identify_trace(base, ctrl, DEFAULT_SPIN_LIMIT, master, added(old(io).trace(), final(io).trace()).drop_first(),
                r is Some, match r { Some(d) => d.spec_info(), None => None }),
    {
        let ghost t0 = io.trace();
        let mut disk = IdeDisk::with_ports(io, busmaster, base, ctrl, irq, master);
        let ghost t1 = io.trace();
        let found = disk.identify(io);
        proof {
            reveal(identify_trace);
            lemma_grew_append(t0, seq![t1.last()]);
            assert(t1 =~= t0 + seq![t1.last()]);
            lemma_grew_trans(t0, t1, io.trace());
            assert(added(t0, io.trace()).drop_first() =~= added(t1, io.trace()));
        }
        if found {
            Some(disk)
        } else {
            None
        }
    }

    /// Sets how many status reads a wait may take before it times out; with
    /// 0 every wait times out at once, reading nothing.
    pub fn set_spin_limit(&mut self, limit: u32)
        ensures
            final(self).queue() == old(self).queue(),
            final(self).spec_spin_limit() == limit,
            final(self).spec_base() == old(self).spec_base(),
            final(self).spec_ctrl() == old(self).spec_ctrl(),
            final(self).spec_busmaster() == old(self).spec_busmaster(),
            final(self).spec_master() == old(self).spec_master(),
            final(self).spec_irq() == old(self).spec_irq(),
            final(self).spec_prdt() == old(self).spec_prdt(),
            final(self).spec_info() == old(self).spec_info(),
            final(self).wf() == old(self).wf(),
    {
        self.spin_limit = limit;
    }

    /// Whether this is the master drive of its channel.
    pub fn is_master(&self) -> (r: bool)
        ensures
            r == self.spec_master(),
    {
        self.master
    }

    /// What the last successful identification reported.
    pub fn info(&self) -> (r: &Option<IdentifyData>)
        ensures
            *r == self.spec_info(),
    {
        &self.info
    }

    /// True when no DMA request is in flight.
    pub fn is_idle(&self) -> (r: bool)
        ensures
            r == self.queue().current() is None,
    {
        self.queue.is_idle()
    }

    /// Number of DMA requests waiting behind the one in flight.
    pub fn pending_len(&self) -> (r: usize)
        ensures
            r == self.queue().pending().len(),
    {
        self.queue.pending_len()
    }

    fn ide_read<P: PortIo>(&self, io: &mut P, reg: u16) -> (r: u8)
        ensures
            spec_reg_port(self.spec_base(), self.spec_ctrl(), reg) matches Some(p)
                ==> final(io).trace() == old(io).trace().push(PortOp::In8(p, r)),
            spec_reg_port(self.spec_base(), self.spec_ctrl(), reg) is None ==> r == 0 && *final(io) == *old(io),
    {
        match reg_port(self.base, self.ctrl, reg) {
            Some(port) => io.inb(port),
            None => 0,
        }
    }

    fn ide_write<P: PortIo>(&self, io: &mut P, reg: u16, data: u8)
        ensures
            final(io).trace() == old(io).trace() + reg_write_ops(self.spec_base(), self.spec_ctrl(), seq![(reg, data)]),
            spec_reg_port(self.spec_base(), self.spec_ctrl(), reg) is None ==> *final(io) == *old(io),
    {
        proof {
            let ws = seq![(reg, data)];
            assert(ws.drop_last() =~= Seq::<(u16, u8)>::empty());
            assert(reg_write_ops(self.spec_base(), self.spec_ctrl(), ws.drop_last()) =~= Seq::<PortOp>::empty());
        }
        match reg_port(self.base, self.ctrl, reg) {
            Some(port) => io.outb(port, data),
            None => {},
        }
    }

    /// Reads STATUS until BSY clears; false when the spin limit ran out.
    fn wait_not_busy<P: PortIo>(&self, io: &mut P) -> (r: bool)
        ensures
            grew(old(io).trace(), final(io).trace()),
            reads_only(added(old(io).trace(), final(io).trace()), self.status_port(), self.status_port()),
            r ==> exists|v: u8| last_read(added(old(io).trace(), final(io).trace()), self.status_port(), v)
                && !spec_busy(v),
            r ==> wait_done(added(old(io).trace(), final(io).trace()), self.status_port(), self.spec_spin_limit()),
            !r ==> wait_timed_out(added(old(io).trace(), final(io).trace()), self.status_port(), self.spec_spin_limit()),
    {
        let ghost t0 = io.trace();
        proof { lemma_grew_refl(t0); }
        let mut spins: u32 = 0;
        while spins < self.spin_limit
            invariant
                t0 == old(io).trace(),
                grew(t0, io.trace()),
                reads_only(added(t0, io.trace()), self.status_port(), self.status_port()),
                added(t0, io.trace()).len() == spins,
                spins <= self.spin_limit,
                busy_reads(added(t0, io.trace()), self.status_port()),
            decreases self.spin_limit - spins,
        {
            let ghost t1 = io.trace();
            let status = self.ide_read(io, ATA_REG_STATUS);
            proof {
                lemma_grew_append(t1, seq![PortOp::In8(self.status_port(), status)]);
                assert(io.trace() =~= t1 + seq![PortOp::In8(self.status_port(), status)]);
                lemma_grew_trans(t0, t1, io.trace());
            }
            assert(added(t0, io.trace()) =~= added(t0, t1).push(PortOp::In8(self.status_port(), status)));
            if !is_busy(status) {
                assert(last_read(added(t0, io.trace()), self.status_port(), status));
                assert(added(t0, io.trace()).drop_last() =~= added(t0, t1));
                return true;
            }
            spins = spins + 1;
        }
        false
    }

    /// Waits out BSY after a command; with `check_error`, classifies the
    /// status that follows.
    #[verifier::rlimit(50)]
    fn ide_poll<P: PortIo>(&self, io: &mut P, check_error: bool) -> (r: Result<(), DiskError>)
        ensures
            grew(old(io).trace(), final(io).trace()),
            reads_only(added(old(io).trace(), final(io).trace()), self.status_port(), self.altstatus_port()),
            r matches Err(e) ==> e == DiskError::HardwareTimeout || (check_error && e is Io),
            r matches Err(DiskError::Io(e)) ==> exists|v: u8|
                last_read(added(old(io).trace(), final(io).trace()), self.status_port(), v)
                && spec_classify(v) == Some(e),
            check_error && r is Ok ==> exists|v: u8|
                last_read(added(old(io).trace(), final(io).trace()), self.status_port(), v)
                && spec_classify(v) is None,
            poll_trace(self.spec_base(), self.spec_ctrl(), self.spec_spin_limit(),
                added(old(io).trace(), final(io).trace()), check_error, r),
    {
        let ghost t0 = io.trace();
        proof { lemma_grew_refl(t0); }
        let mut k: usize = 0;
        while k < 4
            invariant
                t0 == old(io).trace(),
                grew(t0, io.trace()),
                reads_only(added(t0, io.trace()), self.status_port(), self.altstatus_port()),
                k <= 4,
                added(t0, io.trace()).len() == k,
                forall|i: int| 0 <= i < k ==> (#[trigger] added(t0, io.trace())[i] matches PortOp::In8(p, _)
                    && p == self.altstatus_port()),
            decreases 4 - k,
        {
            let ghost t1 = io.trace();
            let a = self.ide_read(io, ATA_REG_ALTSTATUS);
            proof {
                lemma_grew_append(t1, seq![PortOp::In8(self.altstatus_port(), a)]);
                assert(io.trace() =~= t1 + seq![PortOp::In8(self.altstatus_port(), a)]);
                lemma_grew_trans(t0, t1, io.trace());
            }
            assert(added(t0, io.trace()) =~= added(t0, t1).push(PortOp::In8(self.altstatus_port(), a)));
            k = k + 1;
        }
        let ghost t2 = io.trace();
        let ghost a = added(t0, t2);
        assert(settle_reads(a, self.altstatus_port()));
        let ok = self.wait_not_busy(io);
        proof { lemma_grew_trans(t0, t2, io.trace()); }
        let ghost w = added(t2, io.trace());
        let ghost lim = self.spec_spin_limit();
        if !ok {
            assert(wait_timed_out(w, self.status_port(), lim));
            assert(added(t0, io.trace()) == a + w);
            proof { lemma_poll_intro(self.spec_base(), self.spec_ctrl(), lim, a, w, added(t0, io.trace()), check_error,
                Err(DiskError::HardwareTimeout), 0); }
            return Err(DiskError::HardwareTimeout);
        }
        assert(wait_done(w, self.status_port(), lim));
        assert(wait_timed_out(w, self.status_port(), lim) || !wait_timed_out(w, self.status_port(), lim));
        if !check_error {
            assert(added(t0, io.trace()) == a + w);
            proof { lemma_poll_intro(self.spec_base(), self.spec_ctrl(), lim, a, w, added(t0, io.trace()), check_error,
                Ok(()), 0); }
        }
        if check_error {
            let ghost t3 = io.trace();
            let state = self.ide_read(io, ATA_REG_STATUS);
            proof {
                lemma_grew_append(t3, seq![PortOp::In8(self.status_port(), state)]);
                assert(io.trace() =~= t3 + seq![PortOp::In8(self.status_port(), state)]);
                lemma_grew_trans(t0, t3, io.trace());
            }
            assert(added(t0, io.trace()) =~= added(t0, t3).push(PortOp::In8(self.status_port(), state)));
            assert(last_read(added(t0, io.trace()), self.status_port(), state));
            assert(added(t0, io.trace()) =~= a + w + seq![PortOp::In8(self.status_port(), state)]);
            proof { lemma_poll_intro(self.spec_base(), self.spec_ctrl(), lim, a, w, added(t0, io.trace()), check_error,
                poll_result(state), state); }
            if let Some(e) = classify_status(state) {
                return Err(DiskError::Io(e));
            }
        }
        Ok(())
    }

    /// Runs IDENTIFY DEVICE; true when a drive answered, whose data is then
    /// kept. A floating bus, a zero status or a fault mean no drive.
    pub fn identify<P: PortIo>(&mut self, io: &mut P) -> (r: bool)
        ensures
            final(self).queue() == old(self).queue(),
            IdeDisk::same_setup(*old(self), *final(self)),
            !r ==> final(self).spec_info() == old(self).spec_info(),
            r ==> final(self).spec_info() is Some,
            grew(old(io).trace(), final(io).trace()),
            identify_trace(old(self).spec_base(), old(self).spec_ctrl(), old(self).spec_spin_limit(), old(self).spec_master(),
                added(old(io).trace(), final(io).trace()), r, final(self).spec_info()),
    {
        reveal(identify_trace);
        let ghost t0 = io.trace();
        let ghost st = self.status_port();
        let first = self.ide_read(io, ATA_REG_STATUS);
        assert(io.trace() =~= t0 + seq![PortOp::In8(st, first)]);
        proof { lemma_grew_append(t0, seq![PortOp::In8(st, first)]); }
        let ghost t1 = io.trace();
        if first == 0xFF {
            assert(added(t0, t1).drop_first() =~= Seq::<PortOp>::empty());
            return false;
        }
        let waited = self.wait_not_busy(io);
        proof { lemma_grew_trans(t0, t1, io.trace()); }
        let ghost w = added(t1, io.trace());
        if !waited {
            proof {
                assert(added(t0, io.trace()).drop_first() =~= w);
                lemma_opens(w, Seq::empty());
                assert(w + Seq::<PortOp>::empty() =~= w);
            }
            return false;
        }
        let ghost t2 = io.trace();
        let r = self.identify_rest(io);
        proof {
            lemma_grew_trans(t0, t2, io.trace());
            let rest = added(t2, io.trace());
            let tail = added(t0, io.trace()).drop_first();
            assert(tail =~= w + rest);
            lemma_opens(w, rest);
        }
        r
    }

    /// IDENTIFY after the busy wait: the command, then the answer.
    #[verifier::rlimit(60)]
    fn identify_rest<P: PortIo>(&mut self, io: &mut P) -> (r: bool)
        ensures
            final(self).queue() == old(self).queue(),
            IdeDisk::same_setup(*old(self), *final(self)),
            !r ==> final(self).spec_info() == old(self).spec_info(),
            r ==> final(self).spec_info() is Some,
            grew(old(io).trace(), final(io).trace()),
            identify_after_wait(old(self).spec_base(), old(self).spec_ctrl(), old(self).spec_spin_limit(),
                old(self).spec_master(), added(old(io).trace(), final(io).trace()), r, final(self).spec_info()),
    {
        reveal(identify_after_wait);
        let ghost t2 = io.trace();
        let ghost base = self.spec_base();
        let ghost ctrl = self.spec_ctrl();
        let ghost st = self.status_port();
        let writes = identify_writes(self.master);
        self.issue(io, &writes);
        let ghost t3 = io.trace();
        let ghost cmd = reg_write_ops(base, ctrl, spec_identify_writes(self.spec_master()));
        let after = self.ide_read(io, ATA_REG_STATUS);
        let ghost t4 = io.trace();
        proof {
            assert(t4 =~= t2 + (cmd + seq![PortOp::In8(st, after)]));
            lemma_grew_append(t2, cmd + seq![PortOp::In8(st, after)]);
            let seg = added(t2, t4);
            assert(seg.subrange(0, cmd.len() as int) =~= cmd);
            assert(seg.subrange(cmd.len() as int + 1, seg.len() as int) =~= Seq::<PortOp>::empty());
        }
        if after == 0 {
            return false;
        }
        let poll = self.ide_poll(io, true);
        let ghost t5 = io.trace();
        let ghost q = added(t4, t5);
        proof {
            lemma_grew_trans(t2, t4, t5);
            let seg = added(t2, t5);
            assert(seg =~= cmd + seq![PortOp::In8(st, after)] + q);
            assert(seg.subrange(0, cmd.len() as int) =~= cmd);
            let rest = seg.subrange(cmd.len() as int + 1, seg.len() as int);
            assert(rest =~= q);
            lemma_opens(q, Seq::empty());
            assert(q + Seq::<PortOp>::empty() =~= q);
        }
        if poll.is_err() {
            return false;
        }

        let data_port = self.base.wrapping_add(ATA_REG_DATA);
        let mut words: Vec<u16> = Vec::new();
        let mut i: usize = 0;
        assert(t5 + data_reads(data_port, words@) =~= t5);
        while i < 256
            invariant
                words@.len() == i,
                i <= 256,
                io.trace() == t5 + data_reads(data_port, words@),
            decreases 256 - i,
        {
            let ghost w0 = words@;
            let x = io.inw(data_port);
            words.push(x);
            assert(data_reads(data_port, words@) =~= data_reads(data_port, w0).push(PortOp::In16(data_port, x)));
            assert(io.trace() =~= t5 + data_reads(data_port, words@));
            i = i + 1;
        }
        let data = parse_identify(&words);
        self.info = Some(data);
        proof {
            lemma_grew_append(t5, data_reads(data_port, words@));
            lemma_grew_trans(t2, t5, io.trace());
            assert(data_port == base);
            let seg = added(t2, io.trace());
            assert(seg =~= cmd + seq![PortOp::In8(st, after)] + q + data_reads(base, words@));
            assert(seg.subrange(0, cmd.len() as int) =~= cmd);
            let rest = seg.subrange(cmd.len() as int + 1, seg.len() as int);
            assert(rest =~= q + data_reads(base, words@));
            lemma_opens(q, data_reads(base, words@));
            assert(parsed_from(self.spec_info().unwrap(), words@));
        }
        true
    }

    /// Writes `(register, value)` pairs in order.
    fn issue<P: PortIo>(&self, io: &mut P, writes: &Vec<(u16, u8)>)
        ensures
            final(io).trace() == old(io).trace() + reg_write_ops(self.spec_base(), self.spec_ctrl(), writes@),
    {
        let ghost t0 = io.trace();
        let mut i: usize = 0;
        assert(writes@.take(0) =~= Seq::<(u16, u8)>::empty());
        assert(t0 + reg_write_ops(self.spec_base(), self.spec_ctrl(), writes@.take(0)) =~= t0);
        while i < writes.len()
            invariant
                t0 == old(io).trace(),
                i <= writes@.len(),
                io.trace() == t0 + reg_write_ops(self.spec_base(), self.spec_ctrl(), writes@.take(i as int)),
            decreases writes.len() - i,
        {
            let (reg, value) = writes[i];
            self.ide_write(io, reg, value);
            proof {
                let ws = writes@.take(i + 1);
                assert(ws.drop_last() =~= writes@.take(i as int));
                assert(ws.last() == (reg, value));
                let one = seq![(reg, value)];
                assert(one.drop_last() =~= Seq::<(u16, u8)>::empty());
                assert(reg_write_ops(self.spec_base(), self.spec_ctrl(), Seq::<(u16, u8)>::empty()) =~= Seq::<PortOp>::empty());
                assert(reg_write_ops(self.spec_base(), self.spec_ctrl(), ws)
                    =~= reg_write_ops(self.spec_base(), self.spec_ctrl(), writes@.take(i as int))
                        + reg_write_ops(self.spec_base(), self.spec_ctrl(), one));
                assert(io.trace() =~= t0 + reg_write_ops(self.spec_base(), self.spec_ctrl(), ws));
            }
            i = i + 1;
        }
        assert(writes@.take(writes@.len() as int) =~= writes@);
    }

    /// Programs the controller for the request in flight and starts it.
    #[verifier::rlimit(60)]
    fn start_current<P: PortIo>(&self, io: &mut P) -> (r: Result<(), DiskError>)
        ensures
            spec_start_result(self.queue().current(), self.spec_has_table(), r),
            self.start_trace(old(io).trace(), final(io).trace(), r),
    {
        let ghost t0 = io.trace();
        let (extent, mem, read) = match self.queue.current_request() {
            Some(req) => (req.extent, req.mem, req.read),
            None => return Ok(()),
        };
        let ghost req = self.queue().current().unwrap();
        let entries = match dma_descriptors(extent, mem) {
            Ok(v) => v,
            Err(e) => return Err(e),
        };
        let (reg, table) = match &self.prdt {
            Some(t) => (t.reg, t.table),
            None => return Err(DiskError::NoDescriptorTable),
        };
        let ghost t = self.spec_prdt().unwrap();
        let ghost len = extent.length as nat;
        assert(entries@ =~= spec_table(len, mem as u32));
        let bm_cmd = self.busmaster.wrapping_add(BM_COMMAND);
        assert(bm_cmd == self.spec_busmaster());
        io.outb(bm_cmd, dma_direction(read));
        let ghost t1 = io.trace();
        let ok = self.wait_not_busy(io);
        let ghost w = added(t1, io.trace());
        proof {
            lemma_grew_refl(io.trace());
            lemma_grew_trans(t1, io.trace(), io.trace());
        }
        assert(io.trace() =~= t1 + w);
        if !ok {
            assert(reads_only(w, self.status_port(), self.status_port()));
            assert(io.trace() =~= t0 + seq![PortOp::Out8(self.spec_busmaster(), spec_dma_direction(req.read))] + w);
            return Err(DiskError::HardwareTimeout);
        }
        let ghost t2 = io.trace();

        let mut i: usize = 0;
        assert(prd_store_ops(table, entries@.take(0)) =~= Seq::<PortOp>::empty());
        assert(t2 + prd_store_ops(table, entries@.take(0)) =~= t2);
        while i < entries.len()
            invariant
                entries@.len() <= PRDT_MAX_ENTRIES,
                i <= entries@.len(),
                io.trace() == t2 + prd_store_ops(table, entries@.take(i as int)),
            decreases entries.len() - i,
        {
            io.store_prd(table, i as u16, entries[i]);
            assert(prd_store_ops(table, entries@.take(i + 1))
                =~= prd_store_ops(table, entries@.take(i as int)).push(PortOp::StorePrd(table, i as u16, entries@[i as int])));
            assert(io.trace() =~= t2 + prd_store_ops(table, entries@.take(i + 1)));
            i = i + 1;
        }
        assert(entries@.take(entries@.len() as int) =~= entries@);
        io.outl(reg, table);

        let sectors = sector_count(extent.length);
        let devsel: u8 = lba_devsel(self.master);
        let command = dma_command(read);
        let writes = lba48_writes(devsel, extent.block, sectors, command);
        self.issue(io, &writes);

        io.outb(bm_cmd, dma_start(read));
        assert(io.trace() =~= t0 + self.dma_start_ops(req, t, w));
        assert(reads_only(w, self.status_port(), self.status_port()));
        Ok(())
    }

    /// Completes the request in flight, if any (its flag is set), then
    /// starts the first waiting one. A request that cannot start stays in
    /// flight, its flag unset, and the reason is returned to the caller
    /// rather than dropped.
    pub fn next_request<P: PortIo>(&mut self, io: &mut P) -> (r: Result<(), DiskError>)
        requires
            old(self).queue().wf(),
            old(self).table_wf(),
        ensures
            final(self).wf(),
            advanced(old(self).queue(), final(self).queue()),
            IdeDisk::same_setup(*old(self), *final(self)),
            spec_start_result(final(self).queue().current(), old(self).spec_has_table(), r),
            old(self).next_trace(*final(self), old(io).trace(), final(io).trace(), r),
    {
        let ghost t0 = io.trace();
        let ghost had = self.queue().current() is Some;
        if !self.queue.is_idle() {
            let bm_cmd = self.busmaster.wrapping_add(BM_COMMAND);
            let cmd = io.inb(bm_cmd);
            io.outb(bm_cmd, clear_act(cmd));
            assert(io.trace() =~= t0 + seq![PortOp::In8(bm_cmd, cmd), PortOp::Out8(bm_cmd, spec_clear_act(cmd))]);
        }
        let ghost mid = io.trace();
        let done = self.queue.advance();
        if let Some(req) = done {
            req.complete.store(true, Ordering::SeqCst);
        }
        let r = self.start_current(io);
        assert(completion_ops(old(self).spec_busmaster(), t0, mid, old(self).queue().current() is Some));
        r
    }

    /// Queues a DMA request; on an idle channel it starts at once.
    pub fn request<P: PortIo>(&mut self, io: &mut P, new_request: Request) -> (r: Result<(), DiskError>)
        requires
            old(self).wf(),
        ensures
            final(self).wf(),
            final(self).queue().submitted() == old(self).queue().submitted().push(new_request),
            final(self).queue().completed() == old(self).queue().completed(),
            IdeDisk::same_setup(*old(self), *final(self)),
            old(self).queue().current() is None ==> final(self).queue().current() == Some(new_request)
                && final(self).queue().pending().len() == 0
                && spec_start_result(Some(new_request), old(self).spec_has_table(), r)
                && final(self).start_trace(old(io).trace(), final(io).trace(), r),
            old(self).queue().current() is Some ==> final(self).queue().current() == old(self).queue().current()
                && final(self).queue().pending() == old(self).queue().pending().push(new_request)
                && r is Ok && *final(io) == *old(io),
    {
        let idle = self.queue.is_idle();
        self.queue.push(new_request);
        if idle {
            let ghost before = *self;
            let r = self.next_request(io);
            proof {
                let mid = choose|mid: Seq<PortOp>| #[trigger] completion_ops(before.spec_busmaster(), old(io).trace(), mid,
                    before.queue().current() is Some) && self.start_trace(mid, io.trace(), r);
                assert(mid == old(io).trace());
            }
            r
        } else {
            Ok(())
        }
    }

    /// Acts on a bus-master status value: with the interrupt bit set, it is
    /// acknowledged and the channel advances; otherwise nothing happens.
    /// Completion is taken from the interrupt bit alone: the device's error
    /// bits are not read, so a failed DMA transfer completes like any other.
    pub fn handle_status<P: PortIo>(&mut self, io: &mut P, sts: u8) -> (r: Result<(), DiskError>)
        requires
            old(self).wf(),
        ensures
            final(self).wf(),
            !has_bit(sts, STS_INT) ==> *final(self) == *old(self) && *final(io) == *old(io) && r is Ok,
            has_bit(sts, STS_INT) ==> advanced(old(self).queue(), final(self).queue())
                && spec_start_result(final(self).queue().current(), old(self).spec_has_table(), r)
                && old(self).next_trace(*final(self), old(io).trace().push(PortOp::Out8(old(self).bm_status_port(), sts)),
                    final(io).trace(), r),
            IdeDisk::same_setup(*old(self), *final(self)),
    {
        assert((sts & 0x04 != 0) == ((sts / 0x04) % 2 == 1)) by (bit_vector);
        if sts & STS_INT != 0 {
            let port = self.busmaster.wrapping_add(BM_STATUS);
            assert(port == self.bm_status_port());
            io.outb(port, sts);
            self.next_request(io)
        } else {
            Ok(())
        }
    }

    /// Reads the bus-master status and acts on it: the entry point for the
    /// interrupt handler or a poll tick.
    pub fn on_poll<P: PortIo>(&mut self, io: &mut P) -> (r: Result<(), DiskError>)
        requires
            old(self).wf(),
        ensures
            final(self).wf(),
            final(self).queue() == old(self).queue() || advanced(old(self).queue(), final(self).queue()),
            IdeDisk::same_setup(*old(self), *final(self)),
            exists|sts: u8| {
                let t = old(io).trace().push(PortOp::In8(old(self).bm_status_port(), sts));
                &&& #[trigger] has_bit(sts, STS_INT) ==> advanced(old(self).queue(), final(self).queue())
                    && old(self).next_trace(*final(self),
                    t.push(PortOp::Out8(old(self).bm_status_port(), sts)), final(io).trace(), r)
                &&& !has_bit(sts, STS_INT) ==> final(io).trace() == t && *final(self) == *old(self)
            },
    {
        let port = self.busmaster.wrapping_add(BM_STATUS);
        assert(port == self.bm_status_port());
        let sts = io.inb(port);
        let r = self.handle_status(io, sts);
        r
    }

    /// Gives back the descriptor table: its address register is cleared.
    pub fn release<P: PortIo>(&mut self, io: &mut P)
        requires
            old(self).wf(),
        ensures
            final(self).wf(),
            final(self).queue() == old(self).queue(),
            !final(self).spec_has_table(),
            old(self).spec_prdt() matches Some(t) ==> final(io).trace() == old(io).trace().push(PortOp::Out32(t.reg, 0)),
            old(self).spec_prdt() is None ==> *final(io) == *old(io),
    {
        if let Some(t) = self.prdt.take() {
            io.outl(t.reg, 0);
        }
    }

    /// Moves one sector between the data port and `buf[at..at + 512]`,
    /// each word low byte first.
    fn transfer_sector<P: PortIo>(&self, io: &mut P, buf: &mut Vec<u8>, at: usize, write: bool)
        requires
            at + 512 <= old(buf)@.len(),
        ensures
            final(buf)@.len() == old(buf)@.len(),
            write ==> final(buf)@ == old(buf)@
                && final(io).trace() == old(io).trace() + sector_out_ops(self.spec_base(), old(buf)@, at as int, 256),
            !write ==> exists|w: Seq<u16>| w.len() == 256
                && final(io).trace() == old(io).trace() + #[trigger] data_reads(self.spec_base(), w)
                && final(buf)@ == fill_words(old(buf)@, at as int, w),
            forall|k: int| 0 <= k < old(buf)@.len() && !(at <= k < at + 512)
                ==> final(buf)@[k] == old(buf)@[k],
    {
        let port = self.base.wrapping_add(ATA_REG_DATA);
        assert(port == self.spec_base());
        let len = buf.len();
        let ghost start = buf@;
        let ghost t0 = io.trace();
        let ghost mut words: Seq<u16> = Seq::empty();
        let mut word: usize = 0;
        assert(fill_words(start, at as int, words) =~= start);
        assert(t0 + data_reads(port, words) =~= t0);
        assert(t0 + sector_out_ops(port, start, at as int, 0) =~= t0);
        while word < 256
            invariant
                at + 512 <= buf@.len(),
                buf@.len() == start.len(),
                len == start.len(),
                start == old(buf)@,
                t0 == old(io).trace(),
                port == self.spec_base(),
                word <= 256,
                !write ==> words.len() == word,
                write ==> buf@ == start && io.trace() == t0 + sector_out_ops(port, start, at as int, word as int),
                !write ==> io.trace() == t0 + data_reads(port, words) && buf@ == fill_words(start, at as int, words),
                forall|k: int| 0 <= k < start.len() && !(at <= k < at + 512) ==> buf@[k] == start[k],
            decreases 256 - word,
        {
            let k = at + 2 * word;
            if write {
                let w: u16 = sector_word(buf, k);
                io.outw(port, w);
                assert(sector_out_ops(port, start, at as int, word + 1)
                    =~= sector_out_ops(port, start, at as int, word as int).push(PortOp::Out16(port, w)));
            } else {
                let w = io.inw(port);
                store_word(buf, k, w);
                proof {
                    let w0 = words;
                    words = words.push(w);
                    assert(data_reads(port, words) =~= data_reads(port, w0).push(PortOp::In16(port, w)));
                    assert(buf@ =~= fill_words(start, at as int, words));
                }
            }
            word = word + 1;
        }
    }

    /// One sector of a programmed transfer: wait for the device and check
    /// its status, move the data, and after a write flush the cache.
    fn pio_sector<P: PortIo>(&self, io: &mut P, buf: &mut Vec<u8>, at: usize, write: bool) -> (r: Result<(), DiskError>)
        requires
            at + 512 <= old(buf)@.len(),
        ensures
            final(buf)@.len() == old(buf)@.len(),
            write ==> final(buf)@ == old(buf)@,
            forall|k: int| 0 <= k < old(buf)@.len() && !(at <= k < at + 512)
                ==> final(buf)@[k] == old(buf)@[k],
            grew(old(io).trace(), final(io).trace()),
            r matches Err(e) ==> e is Io || e == DiskError::HardwareTimeout,
            sector_trace(self.spec_base(), self.spec_ctrl(), self.spec_spin_limit(), old(buf)@, at as int, write,
                added(old(io).trace(), final(io).trace()), final(buf)@, r),
    {
        reveal(sector_trace);
        reveal(sector_data);
        let ghost t0 = io.trace();
        let polled = self.ide_poll(io, true);
        let ghost p = added(t0, io.trace());
        let ghost tp = io.trace();
        proof { lemma_grew_refl(tp); }
        if let Err(e) = polled {
            proof {
                lemma_opens(p, Seq::empty());
                assert(p + Seq::<PortOp>::empty() =~= p);
            }
            return Err(e);
        }
        let ghost ts = io.trace();
        self.transfer_sector(io, buf, at, write);
        proof {
            lemma_grew_append(ts, added(ts, io.trace()));
            assert(io.trace() =~= ts + added(ts, io.trace()));
            lemma_grew_trans(t0, ts, io.trace());
        }
        if write {
            let ghost tf = io.trace();
            assert(added(ts, tf) == sector_out_ops(self.spec_base(), old(buf)@, at as int, 256));
            self.ide_write(io, ATA_REG_COMMAND, ATA_CMD_CACHE_FLUSH_EXT);
            proof {
                lemma_grew_append(tf, reg_write_ops(self.spec_base(), self.spec_ctrl(), seq![(ATA_REG_COMMAND, ATA_CMD_CACHE_FLUSH_EXT)]));
                lemma_grew_trans(t0, tf, io.trace());
            }
            let ghost tq = io.trace();
            let rq = self.ide_poll(io, false);
            proof {
                lemma_grew_trans(t0, tq, io.trace());
                lemma_grew_trans(tp, ts, tf);
                lemma_grew_trans(tp, tf, tq);
                lemma_grew_trans(tp, tq, io.trace());
                let q = added(tq, io.trace());
                let dseg = added(tp, io.trace());
                assert(dseg =~= sector_out_ops(self.spec_base(), old(buf)@, at as int, 256)
                    + reg_write_ops(self.spec_base(), self.spec_ctrl(), seq![(ATA_REG_COMMAND, ATA_CMD_CACHE_FLUSH_EXT)]) + q);
                assert(poll_trace(self.spec_base(), self.spec_ctrl(), self.spec_spin_limit(), q, false, rq));
                lemma_opens(p, dseg);
                assert(added(t0, io.trace()) =~= p + dseg);
            }
        } else {
            proof {
                lemma_grew_trans(tp, ts, io.trace());
                let dseg = added(tp, io.trace());
                let w = choose|w: Seq<u16>| w.len() == 256 && io.trace() == ts + #[trigger] data_reads(self.spec_base(), w)
                    && buf@ == fill_words(old(buf)@, at as int, w);
                assert(dseg =~= data_reads(self.spec_base(), w));
                lemma_opens(p, dseg);
                assert(added(t0, io.trace()) =~= p + dseg);
            }
        }
        Ok(())
    }

    /// One programmed command: `sectors` sectors (1 to 65536) from `block`,
    /// into or out of `buf` from byte `first`. Each sector waits for the
    /// device and stops the transfer on the first fault.
    fn ata_pio_small<P: PortIo>(&mut self, io: &mut P, block: u64, sectors: u32, buf: &mut Vec<u8>,
        first: usize, write: bool) -> (r: Result<usize, DiskError>)
        requires
            1 <= sectors <= 65536,
            first + sectors * 512 <= old(buf)@.len(),
        ensures
            *final(self) == *old(self),
            final(buf)@.len() == old(buf)@.len(),
            write ==> final(buf)@ == old(buf)@,
            forall|k: int| 0 <= k < old(buf)@.len() && !(first <= k < first + sectors * 512)
                ==> final(buf)@[k] == old(buf)@[k],
            r matches Ok(n) ==> n == sectors * 512,
            r matches Err(e) ==> e is Io || e == DiskError::HardwareTimeout,
            grew(old(io).trace(), final(io).trace()),
            command_trace(old(self).spec_base(), old(self).spec_ctrl(), old(self).spec_spin_limit(), old(self).spec_master(),
                block, sectors as nat, first as int, write, old(buf)@, added(old(io).trace(), final(io).trace()),
                final(buf)@, as_unit(r)),
    {
        let ghost t0 = io.trace();
        let ghost base = self.spec_base();
        let ghost ctrl = self.spec_ctrl();
        let ghost lim = self.spec_spin_limit();
        if !self.wait_not_busy(io) {
            proof {
                reveal(command_trace);
                let w = added(t0, io.trace());
                lemma_opens(w, Seq::empty());
                assert(w + Seq::<PortOp>::empty() =~= w);
            }
            return Err(DiskError::HardwareTimeout);
        }
        let ghost tw = io.trace();
        let ghost w = added(t0, tw);
        let devsel: u8 = lba_devsel(self.master);
        let command = pio_command(write);
        let writes = lba48_writes(devsel, block, sectors as u64, command);
        self.issue(io, &writes);
        let ghost tc = io.trace();
        let ghost cmd = reg_write_ops(base, ctrl, writes@);
        proof {
            lemma_grew_append(tw, cmd);
            lemma_grew_refl(tc);
        }

        let len = buf.len();
        let ghost start = buf@;
        let ghost mut segs: Seq<Seq<PortOp>> = Seq::empty();
        let ghost mut bufs: Seq<Seq<u8>> = seq![start];
        let ghost mut rs: Seq<Result<(), DiskError>> = Seq::empty();
        assert(added(tc, tc) =~= concat(segs));
        let mut sector: u32 = 0;
        while sector < sectors
            invariant
                1 <= sectors <= 65536,
                first + sectors * 512 <= start.len(),
                buf@.len() == start.len(),
                len == start.len(),
                start == old(buf)@,
                write ==> buf@ == start,
                forall|k: int| 0 <= k < start.len() && !(first <= k < first + sectors * 512)
                    ==> buf@[k] == start[k],
                sector <= sectors,
                t0 == old(io).trace(),
                grew(t0, tw) && added(t0, tw) == w && wait_done(w, self.status_port(), lim),
                grew(tw, tc) && added(tw, tc) == cmd,
                cmd == reg_write_ops(base, ctrl, spec_lba48_writes(spec_lba_devsel(self.spec_master()), block,
                    sectors as u64, spec_pio_command(write))),
                grew(tc, io.trace()),
                added(tc, io.trace()) == concat(segs),
                sector_steps(base, ctrl, lim, first as int, write, segs, bufs, rs),
                segs.len() == sector,
                bufs[0] == start,
                bufs[sector as int] == buf@,
                forall|i: int| 0 <= i < sector ==> (#[trigger] rs[i]) is Ok,
                base == self.spec_base() && ctrl == self.spec_ctrl() && lim == self.spec_spin_limit(),
            decreases sectors - sector,
        {
            assert(first + sector * 512 + 512 <= first + sectors * 512) by (nonlinear_arith)
                requires sector < sectors;
            let at: usize = first + (sector as usize) * 512;
            let ghost tp = io.trace();
            let ghost b0 = buf@;
            let res = self.pio_sector(io, buf, at, write);
            proof {
                lemma_grew_trans(tc, tp, io.trace());
                let seg = added(tp, io.trace());
                let s0 = segs;
                let bf0 = bufs;
                let r0 = rs;
                lemma_concat_push(segs, seg);
                segs = segs.push(seg);
                bufs = bufs.push(buf@);
                rs = rs.push(res);
                assert(added(tc, io.trace()) =~= added(tc, tp) + seg);
                assert forall|i: int| 0 <= i < segs.len() implies #[trigger] sector_trace(base, ctrl, lim, bufs[i],
                    first + 512 * i, write, segs[i], bufs[i + 1], rs[i]) by {
                    if i < s0.len() {
                        assert(segs[i] == s0[i] && bufs[i] == bf0[i] && bufs[i + 1] == bf0[i + 1] && rs[i] == r0[i]);
                    }
                }
                assert(sector_steps(base, ctrl, lim, first as int, write, segs, bufs, rs));
            }
            if let Err(e) = res {
                proof {
                    lemma_grew_trans(t0, tw, tc);
                    lemma_grew_trans(t0, tc, io.trace());
                    let all = added(t0, io.trace());
                    assert(all =~= w + cmd + concat(segs));
                    let m = segs.len();
                    assert(bufs[m as int] == buf@ && rs[m - 1] == as_unit(Err::<usize, DiskError>(e)));
                    lemma_sector_run_intro(base, ctrl, lim, start, first as int, write, sectors as nat, segs, bufs, rs,
                        buf@, as_unit(Err::<usize, DiskError>(e)));
                    lemma_command_intro(base, ctrl, lim, self.spec_master(), block, sectors as nat, first as int, write,
                        start, w, concat(segs), buf@, as_unit(Err::<usize, DiskError>(e)));
                }
                return Err(e);
            }
            sector = sector + 1;
        }
        proof {
            lemma_grew_trans(t0, tw, tc);
            lemma_grew_trans(t0, tc, io.trace());
            let all = added(t0, io.trace());
            assert(all =~= w + cmd + concat(segs));
            lemma_sector_run_intro(base, ctrl, lim, start, first as int, write, sectors as nat, segs, bufs, rs,
                buf@, Ok(()));
            lemma_command_intro(base, ctrl, lim, self.spec_master(), block, sectors as nat, first as int, write,
                start, w, concat(segs), buf@, Ok(()));
        }
        Ok(sectors as usize * 512)
    }

    /// Programmed transfer of `sectors` sectors from `block`, in commands of
    /// at most 65536 sectors. With `write` the first `sectors * 512` bytes of
    /// `buf` go to the disk; otherwise they are filled from it. The first
    /// fault ends the whole transfer.
    pub fn ata_pio<P: PortIo>(&mut self, io: &mut P, block: u64, sectors: usize, buf: &mut Vec<u8>,
        write: bool) -> (r: Result<usize, DiskError>)
        ensures
            *final(self) == *old(self),
            final(buf)@.len() == old(buf)@.len(),
            write ==> final(buf)@ == old(buf)@,
            (r == Err::<usize, DiskError>(DiskError::InvalidRequest))
                <==> (sectors == 0 || sectors * 512 > old(buf)@.len()),
            r == Err::<usize, DiskError>(DiskError::InvalidRequest) ==> *final(io) == *old(io)
                && final(buf)@ == old(buf)@,
            r matches Ok(n) ==> n == sectors * 512,
            r matches Err(e) ==> e == DiskError::InvalidRequest || e is Io || e == DiskError::HardwareTimeout,
            forall|k: int| sectors * 512 <= k < old(buf)@.len() ==> final(buf)@[k] == old(buf)@[k],
            grew(old(io).trace(), final(io).trace()),
            !(sectors == 0 || sectors * 512 > old(buf)@.len()) ==> transfer_trace(old(self).spec_base(),
                old(self).spec_ctrl(), old(self).spec_spin_limit(), old(self).spec_master(), block, sectors as nat, write,
                old(buf)@, added(old(io).trace(), final(io).trace()), final(buf)@, as_unit(r)),
    {
        let ghost t0 = io.trace();
        proof { lemma_grew_refl(t0); }
        if sectors == 0 || sectors > buf.len() / 512 {
            return Err(DiskError::InvalidRequest);
        }
        let chunks = pio_chunks(block, sectors);
        let len = buf.len();
        let ghost start = buf@;
        let ghost base = self.spec_base();
        let ghost ctrl = self.spec_ctrl();
        let ghost lim = self.spec_spin_limit();
        let ghost master = self.spec_master();
        let ghost mut segs: Seq<Seq<PortOp>> = Seq::empty();
        let ghost mut bufs: Seq<Seq<u8>> = seq![start];
        let ghost mut rs: Seq<Result<(), DiskError>> = Seq::empty();
        assert(added(t0, t0) =~= concat(segs));
        let mut i: usize = 0;
        while i < chunks.len()
            invariant
                *self == *old(self),
                1 <= sectors,
                sectors * 512 <= start.len(),
                start == old(buf)@,
                len == start.len(),
                chunks@.len() == chunk_count(sectors as nat),
                forall|j: int| 0 <= j < chunks@.len() ==> #[trigger] chunks@[j] == expected_chunk(block, sectors as nat, j as nat),
                buf@.len() == start.len(),
                write ==> buf@ == start,
                forall|k: int| sectors * 512 <= k < start.len() ==> buf@[k] == start[k],
                i <= chunks@.len(),
                t0 == old(io).trace(),
                grew(t0, io.trace()),
                added(t0, io.trace()) == concat(segs),
                chunk_steps(base, ctrl, lim, master, block, sectors as nat, write, segs, bufs, rs),
                segs.len() == i,
                bufs[0] == start,
                bufs[i as int] == buf@,
                forall|j: int| 0 <= j < i ==> (#[trigger] rs[j]) is Ok,
                base == self.spec_base() && ctrl == self.spec_ctrl() && lim == self.spec_spin_limit()
                    && master == self.spec_master(),
            decreases chunks.len() - i,
        {
            let c: PioChunk = chunks[i];
            assert(chunks@[i as int] == expected_chunk(block, sectors as nat, i as nat));
            assert(c.first * 512 + c.sectors * 512 <= sectors * 512 && 1 <= c.sectors <= 65536) by (nonlinear_arith)
                requires
                    c.first == i * 65536,
                    i < chunk_count(sectors as nat),
                    chunk_count(sectors as nat) == (sectors + 65535) / 65536,
                    c.sectors == (if sectors - c.first >= 65536 { 65536 } else { sectors - c.first }),
            ;
            let ghost tb = io.trace();
            let res = self.ata_pio_small(io, c.block, c.sectors, buf, c.first * 512, write);
            proof {
                lemma_grew_trans(t0, tb, io.trace());
                let seg = added(tb, io.trace());
                let s0 = segs;
                let bf0 = bufs;
                let r0 = rs;
                lemma_concat_push(segs, seg);
                segs = segs.push(seg);
                bufs = bufs.push(buf@);
                rs = rs.push(as_unit(res));
                assert(added(t0, io.trace()) =~= added(t0, tb) + seg);
                assert forall|j: int| 0 <= j < segs.len() implies #[trigger] command_trace(base, ctrl, lim, master,
                    expected_chunk(block, sectors as nat, j as nat).block,
                    expected_chunk(block, sectors as nat, j as nat).sectors as nat,
                    expected_chunk(block, sectors as nat, j as nat).first * 512, write, bufs[j], segs[j], bufs[j + 1], rs[j]) by {
                    if j < s0.len() {
                        assert(segs[j] == s0[j] && bufs[j] == bf0[j] && bufs[j + 1] == bf0[j + 1] && rs[j] == r0[j]);
                    }
                }
                assert(chunk_steps(base, ctrl, lim, master, block, sectors as nat, write, segs, bufs, rs));
            }
            match res {
                Ok(_) => {},
                Err(e) => {
                    proof {
                        let m = segs.len();
                        assert(bufs[m as int] == buf@ && rs[m - 1] == as_unit(Err::<usize, DiskError>(e)));
                        assert(m <= chunk_count(sectors as nat));
                        lemma_transfer_intro(base, ctrl, lim, master, block, sectors as nat, write, start, segs, bufs, rs,
                            buf@, as_unit(Err::<usize, DiskError>(e)));
                    }
                    return Err(e);
                },
            }
            i = i + 1;
        }
        proof {
            lemma_transfer_intro(base, ctrl, lim, master, block, sectors as nat, write, start, segs, bufs, rs, buf@, Ok(()));
        }
        Ok(sectors * 512)
    }

    /// Reads `buffer.len() / 512` sectors from `block` into `buffer`.
    pub fn read<P: PortIo>(&mut self, io: &mut P, block: u64, buffer: &mut Vec<u8>) -> (r: Result<usize, DiskError>)
        ensures
            *final(self) == *old(self),
            final(buffer)@.len() == old(buffer)@.len(),
            (r == Err::<usize, DiskError>(DiskError::InvalidRequest)) <==> old(buffer)@.len() < 512,
            r matches Ok(n) ==> n == old(buffer)@.len() / 512 * 512,
            r matches Err(e) ==> e == DiskError::InvalidRequest || e is Io || e == DiskError::HardwareTimeout,
            r == Err::<usize, DiskError>(DiskError::InvalidRequest) ==> *final(io) == *old(io),
            old(buffer)@.len() >= 512 ==> transfer_trace(old(self).spec_base(), old(self).spec_ctrl(),
                old(self).spec_spin_limit(), old(self).spec_master(), block, old(buffer)@.len() / 512, false,
                old(buffer)@, added(old(io).trace(), final(io).trace()), final(buffer)@, as_unit(r)),
    {
        let sectors = buffer.len() / 512;
        self.ata_pio(io, block, sectors, buffer, false)
    }

    /// Writes `buffer.len() / 512` sectors of `buffer` to the disk from `block`.
    pub fn write<P: PortIo>(&mut self, io: &mut P, block: u64, buffer: &Vec<u8>) -> (r: Result<usize, DiskError>)
        ensures
            *final(self) == *old(self),
            (r == Err::<usize, DiskError>(DiskError::InvalidRequest)) <==> buffer@.len() < 512,
            r matches Ok(n) ==> n == buffer@.len() / 512 * 512,
            r matches Err(e) ==> e == DiskError::InvalidRequest || e is Io || e == DiskError::HardwareTimeout,
            r == Err::<usize, DiskError>(DiskError::InvalidRequest) ==> *final(io) == *old(io),
            buffer@.len() >= 512 ==> transfer_trace(old(self).spec_base(), old(self).spec_ctrl(),
                old(self).spec_spin_limit(), old(self).spec_master(), block, buffer@.len() / 512, true,
                buffer@, added(old(io).trace(), final(io).trace()), buffer@, as_unit(r)),
    {
        let mut data: Vec<u8> = Vec::new();
        let mut i: usize = 0;
        while i < buffer.len()
            invariant
                i <= buffer@.len(),
                data@ == buffer@.subrange(0, i as int),
            decreases buffer.len() - i,
        {
            data.push(buffer[i]);
            i = i + 1;
        }
        assert(data@ =~= buffer@);
        let sectors = buffer.len() / 512;
        self.ata_pio(io, block, sectors, &mut data, true)
    }
}

/// Where a drive may sit: its ports, interrupt line and master/slave position.
#[derive(Copy, Clone, Debug, PartialEq, Eq, Structural)]
pub struct DrivePosition {
    pub busmaster: u16,
    pub base: u16,
    pub ctrl: u16,
    pub irq: u8,
    pub master: bool,
}

/// The four legacy positions: primary master and slave, then secondary
/// master and slave; the secondary channel's bus-master registers follow
/// the primary's by 8.
pub open spec fn spec_positions(busmaster: u16) -> Seq<DrivePosition> {
    let second = ((busmaster + 8) % 0x10000) as u16;
    seq![
        DrivePosition { busmaster, base: 0x1F0, ctrl: 0x3F4, irq: 0xE, master: true },
        DrivePosition { busmaster, base: 0x1F0, ctrl: 0x3F4, irq: 0xE, master: false },
        DrivePosition { busmaster: second, base: 0x170, ctrl: 0x374, irq: 0xF, master: true },
        DrivePosition { busmaster: second, base: 0x170, ctrl: 0x374, irq: 0xF, master: false },
    ]
}

pub fn drive_positions(busmaster: u16) -> (r: Vec<DrivePosition>)
    ensures
        r@ == spec_positions(busmaster),
{
    let second = busmaster.wrapping_add(8);
    let v = vec![
        DrivePosition { busmaster, base: 0x1F0, ctrl: 0x3F4, irq: 0xE, master: true },
        DrivePosition { busmaster, base: 0x1F0, ctrl: 0x3F4, irq: 0xE, master: false },
        DrivePosition { busmaster: second, base: 0x170, ctrl: 0x374, irq: 0xF, master: true },
        DrivePosition { busmaster: second, base: 0x170, ctrl: 0x374, irq: 0xF, master: false },
    ];
    assert(v@ =~= spec_positions(busmaster));
    v
}

/// Bus-master base from BAR 4: its low 16 bits with the low 4 cleared.
pub open spec fn spec_bus_master_base(bar: u32) -> u16 {
    ((bar % 0x10000) / 16 * 16) as u16
}

pub fn bus_master_base(bar: u32) -> (r: u16)
    ensures
        r == spec_bus_master_base(bar),
{
    let m: u32 = bar & 0xFFF0;
    assert(bar & 0xFFF0 == (bar % 0x10000) / 16 * 16) by (bit_vector);
    m as u16
}

/// `d` is the drive found at position `p`.
pub open spec fn at_position(d: IdeDisk, p: DrivePosition) -> bool {
    &&& d.spec_busmaster() == p.busmaster
    &&& d.spec_base() == p.base
    &&& d.spec_ctrl() == p.ctrl
    &&& d.spec_irq() == p.irq
    &&& d.spec_master() == p.master
}

/// `r` are drives found at positions `idx` (increasing) of `ps`, each
/// identified, well formed and idle.
pub open spec fn found_at(r: Seq<IdeDisk>, ps: Seq<DrivePosition>, idx: Seq<int>) -> bool {
    &&& idx.len() == r.len()
    &&& forall|i: int| 0 <= i < idx.len() ==> 0 <= #[trigger] idx[i] < ps.len()
    &&& forall|i: int, j: int| 0 <= i < j < idx.len() ==> idx[i] < idx[j]
    &&& forall|i: int| 0 <= i < r.len() ==> at_position(#[trigger] r[i], ps[idx[i]])
        && r[i].wf() && r[i].queue().current() is None && r[i].queue().submitted().len() == 0
        && r[i].spec_info() is Some
}

/// What a scan of controller `pci` did, having read `v` from its command
/// dword and `bar` from BAR 4: bus mastering was enabled, BAR 4 read, and
/// `r` are drives at the legacy positions of the bus-master base.
/// The accesses of `segs`, one after the other.
pub open spec fn concat(segs: Seq<Seq<PortOp>>) -> Seq<PortOp>
    decreases segs.len(),
{
    if segs.len() == 0 { Seq::empty() } else { concat(segs.drop_last()) + segs.last() }
}

/// Positions `k` with `founds[k]`, in order.
pub open spec fn found_indices(founds: Seq<bool>) -> Seq<int>
    decreases founds.len(),
{
    if founds.len() == 0 {
        Seq::empty()
    } else {
        found_indices(founds.drop_last()) + if founds.last() { seq![founds.len() - 1] } else { Seq::empty() }
    }
}

/// `seg` is the probe of position `p`: a table allocation, then IDENTIFY
/// with result `found`.
#[verifier::opaque]
pub open spec fn probe_trace(p: DrivePosition, seg: Seq<PortOp>, found: bool) -> bool {
    &&& seg.len() >= 1
    &&& seg[0] is AllocTable
    &&& exists|info: Option<IdentifyData>|
        #[trigger] identify_trace(p.base, p.ctrl, DEFAULT_SPIN_LIMIT, p.master, seg.drop_first(), found, info)
}

/// The probes of the four positions `ps`, in order: `segs` their accesses,
/// `founds` whether a drive answered.
pub open spec fn probes(ps: Seq<DrivePosition>, segs: Seq<Seq<PortOp>>, founds: Seq<bool>) -> bool {
    &&& segs.len() == ps.len() && founds.len() == ps.len()
    &&& forall|k: int| 0 <= k < ps.len() ==> #[trigger] probe_trace(ps[k], segs[k], founds[k])
}

/// What a scan of controller `pci` did, having read `v` from its command
/// dword and `bar` from BAR 4: bus mastering was enabled, BAR 4 read, the
/// four legacy positions of the bus-master base probed in order (`segs`,
/// `founds`), and `r` holds the drives that answered, at `idx`.
pub open spec fn scanned(pci: PciConfig, t0: Seq<PortOp>, t1: Seq<PortOp>, r: Seq<IdeDisk>, v: u32, bar: u32,
    idx: Seq<int>, segs: Seq<Seq<PortOp>>, founds: Seq<bool>) -> bool {
    let ps = spec_positions(spec_bus_master_base(bar));
    let head = flag_ops(pci, 4, v, 4, true) + seq![
        PortOp::Out32(PCI_CONFIG_ADDRESS, spec_config_address(pci.bus, pci.slot, pci.func, 0x20)),
        PortOp::In32(PCI_CONFIG_DATA, bar)];
    &&& grew(t0, t1)
    &&& head.len() <= added(t0, t1).len()
    &&& added(t0, t1).subrange(0, head.len() as int) == head
    &&& spec_bus_master_base(bar) % 16 == 0
    &&& found_at(r, ps, idx)
    &&& probes(ps, segs, founds)
    &&& added(t0, t1) == head + concat(segs)
    &&& idx == found_indices(founds)
}

/// The IDE controller of one PCI function.
pub struct Ide;

impl Ide {
    /// Enables bus mastering on the controller, reads its bus-master base
    /// (BAR 4) and probes the four positions; those where a drive answers
    /// are returned, idle, in position order.
    pub fn disks<P: PortIo>(pci: &mut PciConfig, io: &mut P) -> (r: Vec<IdeDisk>)
        ensures
            r@.len() <= 4,
            *final(pci) == *old(pci),
            exists|v: u32, bar: u32, idx: Seq<int>, segs: Seq<Seq<PortOp>>, founds: Seq<bool>|
                #[trigger] scanned(*old(pci), old(io).trace(), final(io).trace(), r@, v, bar, idx, segs, founds),
    {
        let ghost t0 = io.trace();
        pci.flag(io, 4, 4, true);
        let ghost v = choose|v: u32| io.trace() == t0 + #[trigger] flag_ops(*pci, 4, v, 4, true);
        let bar = pci.read(io, 0x20);
        let busmaster: u16 = bus_master_base(bar);
        let ghost head = flag_ops(*pci, 4, v, 4, true) + seq![
            PortOp::Out32(PCI_CONFIG_ADDRESS, spec_config_address(pci.bus, pci.slot, pci.func, 0x20)),
            PortOp::In32(PCI_CONFIG_DATA, bar)];
        let ghost th = io.trace();
        proof {
            assert(th =~= t0 + head);
            lemma_grew_append(t0, head);
            lemma_grew_refl(th);
        }
        let positions = drive_positions(busmaster);
        let mut ret: Vec<IdeDisk> = Vec::new();
        let ghost mut idx: Seq<int> = Seq::empty();
        let ghost mut segs: Seq<Seq<PortOp>> = Seq::empty();
        let ghost mut founds: Seq<bool> = Seq::empty();
        let mut i: usize = 0;
        assert(added(th, th) =~= concat(segs));
        while i < positions.len()
            invariant
                positions@ == spec_positions(busmaster),
                i <= 4,
                ret@.len() <= i,
                found_at(ret@, positions@, idx),
                forall|j: int| 0 <= j < idx.len() ==> idx[j] < i,
                grew(t0, th),
                grew(th, io.trace()),
                added(t0, th) == head,
                segs.len() == i && founds.len() == i,
                forall|k: int| 0 <= k < i ==> #[trigger] probe_trace(positions@[k], segs[k], founds[k]),
                added(th, io.trace()) == concat(segs),
                idx == found_indices(founds),
            decreases positions.len() - i,
        {
            let p = positions[i];
            let ghost tb = io.trace();
            let found = IdeDisk::new(io, p.busmaster, p.base, p.ctrl, p.irq, p.master);
            proof {
                reveal(probe_trace);
                lemma_grew_trans(th, tb, io.trace());
                let seg = added(tb, io.trace());
                let info = match &found { Some(d) => d.spec_info(), None => None };
                assert(identify_trace(p.base, p.ctrl, DEFAULT_SPIN_LIMIT, p.master, seg.drop_first(), found is Some, info));
                assert(probe_trace(p, seg, found is Some));
                let s0 = segs;
                let f0 = founds;
                segs = segs.push(seg);
                founds = founds.push(found is Some);
                assert(segs.drop_last() =~= s0);
                assert(founds.drop_last() =~= f0);
                assert(added(th, io.trace()) =~= added(th, tb) + seg);
                assert forall|k: int| 0 <= k < i + 1 implies #[trigger] probe_trace(positions@[k], segs[k], founds[k]) by {
                    if k < i {
                        assert(segs[k] == s0[k] && founds[k] == f0[k]);
                    }
                }
            }
            if let Some(disk) = found {
                ret.push(disk);
                proof { idx = idx.push(i as int); }
            }
            proof {
                assert(idx =~= found_indices(founds));
            }
            i = i + 1;
        }
        proof {
            lemma_grew_trans(t0, th, io.trace());
            assert(added(t0, io.trace()).subrange(0, head.len() as int) =~= head);
            assert(added(t0, io.trace()) =~= head + concat(segs));
            assert(busmaster % 16 == 0);
            assert(probes(positions@, segs, founds));
            assert(scanned(*old(pci), t0, io.trace(), ret@, v, bar, idx, segs, founds));
        }
        ret
    }
}

} // verus!
