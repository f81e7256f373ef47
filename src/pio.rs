use vstd::prelude::*;

verus! {

/// Most sectors one programmed command moves (its count field has 16 bits,
/// 0 standing for 65536).
pub const PIO_MAX_SECTORS: u32 = 65536;

/// One programmed command of a longer transfer.
#[derive(Copy, Clone, Debug, PartialEq, Eq, Structural)]
pub struct PioChunk {
    /// First block of the chunk.
    pub block: u64,
    /// Sectors the chunk moves, 1 to 65536.
    pub sectors: u32,
    /// Index of the chunk's first sector within the whole transfer.
    pub first: usize,
}

/// Number of chunks for `sectors` sectors.
pub open spec fn chunk_count(sectors: nat) -> nat {
    (sectors + 65535) / 65536
}

/// Chunk `i` of a transfer of `sectors` sectors from `block`.
pub open spec fn expected_chunk(block: u64, sectors: nat, i: nat) -> PioChunk {
    let first = i * 65536;
    PioChunk {
        block: ((block + first) % 0x1_0000_0000_0000_0000) as u64,
        sectors: (if sectors - first >= 65536 { 65536 } else { sectors - first }) as u32,
        first: first as usize,
    }
}

/// Splits a transfer of `sectors` sectors from `block` into commands of at
/// most 65536 sectors each.
pub fn pio_chunks(block: u64, sectors: usize) -> (r: Vec<PioChunk>)
    ensures
        r@.len() == chunk_count(sectors as nat),
        forall|i: int| 0 <= i < r@.len() ==> #[trigger] r@[i] == expected_chunk(block, sectors as nat, i as nat),
{
    let count: usize = sectors / 65536 + if sectors % 65536 == 0 { 0 } else { 1 };
    assert(count == chunk_count(sectors as nat)) by (nonlinear_arith)
        requires count == sectors / 65536 + if sectors % 65536 == 0 { 0int } else { 1int },
            chunk_count(sectors as nat) == (sectors + 65535) / 65536;
    let mut out: Vec<PioChunk> = Vec::new();
    let mut i: usize = 0;
    while i < count
        invariant
            count == chunk_count(sectors as nat),
            i <= count,
            out@.len() == i,
            forall|j: int| 0 <= j < i ==> #[trigger] out@[j] == expected_chunk(block, sectors as nat, j as nat),
        decreases count - i,
    {
        assert(i * 65536 < sectors) by (nonlinear_arith)
            requires i < count, count == (sectors + 65535) / 65536;
        let done: usize = i * 65536;
        let left = sectors - done;
        let n: u32 = if left >= 65536 { 65536 } else { left as u32 };
        let c = PioChunk { block: block.wrapping_add(done as u64), sectors: n, first: done };
        assert(c == expected_chunk(block, sectors as nat, i as nat));
        out.push(c);
        i = i + 1;
    }
    out
}

} // verus!
