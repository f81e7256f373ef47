use vstd::prelude::*;

verus! {

/// Largest number of entries a descriptor table holds.
pub const PRDT_MAX_ENTRIES: u64 = 8192;

/// Bytes covered by one full entry (its size field then reads 0).
pub const PRD_FULL_BYTES: u64 = 65536;

/// Bytes in one sector.
pub const SECTOR_BYTES: u64 = 512;

/// End-of-table flag as the controller reads it in an entry's last word.
pub const PRD_EOT: u16 = 0x8000;

/// One physical region descriptor.
#[derive(Copy, Clone, Debug, PartialEq, Eq, Structural)]
pub struct PrdEntry {
    /// Physical address of the region.
    pub addr: u32,
    /// Byte count of the region; 0 stands for 65536.
    pub size: u16,
    /// Set on the last entry of a table.
    pub end_of_table: bool,
}

/// The table would need more than `PRDT_MAX_ENTRIES` entries.
#[derive(Copy, Clone, Debug, PartialEq, Eq, Structural)]
pub struct DescriptorOverflow;

/// Bytes an entry covers.
pub open spec fn entry_bytes(e: PrdEntry) -> nat {
    if e.size == 0 { 65536 } else { e.size as nat }
}

/// Sectors needed to hold `len` bytes.
pub open spec fn sectors_for(len: nat) -> nat {
    (len + 511) / 512
}

/// Bytes the DMA engine moves for a transfer of `len` bytes: whole sectors.
pub open spec fn dma_bytes(len: nat) -> nat {
    sectors_for(len) * 512
}

/// Entries needed for a transfer of `len` bytes.
pub open spec fn entry_count(len: nat) -> nat {
    (dma_bytes(len) + 65535) / 65536
}

/// The entry at position `i` of the table for `len` bytes at `base`.
pub open spec fn expected_entry(len: nat, base: u32, i: nat) -> PrdEntry {
    let n = entry_count(len);
    let rest = dma_bytes(len) % 65536;
    PrdEntry {
        addr: ((base as nat + i * 65536) % 0x1_0000_0000) as u32,
        size: if i + 1 == n && rest != 0 { rest as u16 } else { 0 },
        end_of_table: i + 1 == n,
    }
}

impl PrdEntry {
    /// The flags word the controller reads after the byte count.
    pub fn flags(&self) -> (r: u16)
        ensures
            r == (if self.end_of_table { PRD_EOT } else { 0u16 }),
    {
        if self.end_of_table { PRD_EOT } else { 0 }
    }
}

/// Sectors needed to hold `len` bytes, rounded up.
pub fn sector_count(len: u64) -> (r: u64)
    ensures
        r == sectors_for(len as nat),
{
    let q = len / 512;
    if len % 512 == 0 { q } else { q + 1 }
}

/// Builds the descriptor table for a transfer of `len` bytes starting at the
/// physical address `base`: full 64 KiB entries, then one entry for what is
/// left, the last one marked end-of-table.
pub fn build_descriptors(len: u64, base: u32) -> (r: Result<Vec<PrdEntry>, DescriptorOverflow>)
    ensures
        r is Err <==> entry_count(len as nat) > PRDT_MAX_ENTRIES,
        r matches Ok(v) ==> v@.len() == entry_count(len as nat)
            && forall|i: int| 0 <= i < v@.len() ==> #[trigger] v@[i] == expected_entry(len as nat, base, i as nat),
{
    let sectors = sector_count(len);
    if sectors > PRDT_MAX_ENTRIES * 128 {
        assert(entry_count(len as nat) > PRDT_MAX_ENTRIES) by (nonlinear_arith)
            requires sectors > 8192 * 128, sectors == sectors_for(len as nat),
                dma_bytes(len as nat) == sectors * 512,
                entry_count(len as nat) == (dma_bytes(len as nat) + 65535) / 65536;
        return Err(DescriptorOverflow);
    }
    let total: u64 = sectors * 512;
    let n: u64 = (total + 65535) / 65536;
    assert(n <= PRDT_MAX_ENTRIES) by (nonlinear_arith)
        requires sectors <= 8192 * 128, total == sectors * 512, n == (total + 65535) / 65536;
    let rest: u64 = total % 65536;
    let mut entries: Vec<PrdEntry> = Vec::new();
    let mut i: u64 = 0;
    while i < n
        invariant
            n == entry_count(len as nat),
            n <= 8192,
            total == dma_bytes(len as nat),
            rest == total % 65536,
            i <= n,
            entries@.len() == i,
            forall|j: int| 0 <= j < i ==> #[trigger] entries@[j] == expected_entry(len as nat, base, j as nat),
        decreases n - i,
    {
        let offset: u32 = (i * 65536) as u32;
        let addr: u32 = base.wrapping_add(offset);
        let last = i + 1 == n;
        let size: u16 = if last && rest != 0 { rest as u16 } else { 0 };
        let e = PrdEntry { addr, size, end_of_table: last };
        assert(e == expected_entry(len as nat, base, i as nat));
        entries.push(e);
        i = i + 1;
    }
    Ok(entries)
}

proof fn lemma_round_up(len: nat)
    ensures
        entry_count(len) == (len + 65535) / 65536,
        len % 512 == 0 ==> dma_bytes(len) == len,
{
    let q = len / 65536;
    let r = len % 65536;
    let s = (r + 511) / 512;
    assert(len == q * 65536 + r);
    assert(sectors_for(len) == q * 128 + s) by (nonlinear_arith)
        requires len == q * 65536 + r, s == (r + 511) / 512, sectors_for(len) == (len + 511) / 512;
    assert(s <= 128);
    assert(r == 0 ==> s == 0);
    assert(r > 0 ==> s >= 1);
    assert(entry_count(len) == (len + 65535) / 65536) by (nonlinear_arith)
        requires
            len == q * 65536 + r, r < 65536, s <= 128, r == 0 ==> s == 0, r > 0 ==> s >= 1,
            dma_bytes(len) == sectors_for(len) * 512, sectors_for(len) == q * 128 + s,
            entry_count(len) == (dma_bytes(len) + 65535) / 65536;
    if len % 512 == 0 {
        assert(dma_bytes(len) == len) by (nonlinear_arith)
            requires len % 512 == 0, dma_bytes(len) == sectors_for(len) * 512,
                sectors_for(len) == (len + 511) / 512;
    }
}

/// Shape of a descriptor table: a transfer of 1 to 8192 * 65536 bytes fits in
/// ceil(len / 65536) entries, all but the last cover 64 KiB, only the last ends
/// the table, and for a length of whole sectors the last covers the rest of the
/// length (64 KiB when nothing is left over). Longer transfers overflow.
pub proof fn lemma_descriptor_shape(len: nat, base: u32)
    ensures
        len > 8192 * 65536 ==> entry_count(len) > PRDT_MAX_ENTRIES,
        1 <= len <= 8192 * 65536 ==> {
            let n = entry_count(len);
            &&& n == (len + 65535) / 65536
            &&& 1 <= n <= PRDT_MAX_ENTRIES
            &&& forall|i: nat| i + 1 < n ==> entry_bytes(#[trigger] expected_entry(len, base, i)) == 65536
                && !expected_entry(len, base, i).end_of_table
            &&& expected_entry(len, base, (n - 1) as nat).end_of_table
            &&& len % 512 == 0 ==> entry_bytes(expected_entry(len, base, (n - 1) as nat))
                == (if len % 65536 == 0 { 65536 } else { len % 65536 })
        },
{
    lemma_round_up(len);
    let n = entry_count(len);
    if len > 8192 * 65536 {
        assert(n > 8192);
    }
    if 1 <= len <= 8192 * 65536 {
        assert(1 <= n <= 8192);
        if len % 512 == 0 {
            let e = expected_entry(len, base, (n - 1) as nat);
            assert(dma_bytes(len) == len);
            if len % 65536 != 0 {
                assert(e.size == len % 65536);
            }
        }
    }
}

} // verus!
