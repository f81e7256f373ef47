use vstd::prelude::*;

verus! {

/// What an IDENTIFY DEVICE answer says of the drive.
#[derive(Clone, Debug)]
pub struct IdentifyData {
    /// Serial number, leading and trailing spaces trimmed.
    pub serial: Vec<u8>,
    /// Firmware revision, leading and trailing spaces trimmed.
    pub firmware: Vec<u8>,
    /// Model name, leading and trailing spaces trimmed.
    pub model: Vec<u8>,
    /// Addressable sectors.
    pub sectors: u64,
}

/// Bytes held in words `lo..hi`: each word gives its high byte, then its
/// low byte.
pub open spec fn raw_text(words: Seq<u16>, lo: int, hi: int) -> Seq<u8>
    decreases hi - lo,
{
    if hi <= lo {
        Seq::empty()
    } else {
        raw_text(words, lo, hi - 1).push((words[hi - 1] / 256) as u8).push((words[hi - 1] % 256) as u8)
    }
}

/// `s` without its leading spaces.
pub open spec fn trim_front(s: Seq<u8>) -> Seq<u8>
    decreases s.len(),
{
    if s.len() > 0 && s[0] == 0x20 { trim_front(s.drop_first()) } else { s }
}

/// `s` without its trailing spaces.
pub open spec fn trim_back(s: Seq<u8>) -> Seq<u8>
    decreases s.len(),
{
    if s.len() > 0 && s.last() == 0x20 { trim_back(s.drop_last()) } else { s }
}

/// Text held in words `lo..hi`, leading and trailing spaces trimmed.
pub open spec fn ident_text(words: Seq<u16>, lo: int, hi: int) -> Seq<u8> {
    trim_back(trim_front(raw_text(words, lo, hi)))
}

/// The sector count: the 48-bit count of words 100 to 103, or where that is
/// zero the 28-bit count of words 60 and 61.
pub open spec fn ident_sectors(words: Seq<u16>) -> nat {
    let lba48 = words[100] + words[101] * 0x1_0000 + words[102] * 0x1_0000_0000
        + words[103] * 0x1_0000_0000_0000;
    if lba48 == 0 {
        (words[60] + words[61] * 0x1_0000) as nat
    } else {
        lba48 as nat
    }
}

/// `d` is what `words` says of the drive.
pub open spec fn parsed_from(d: IdentifyData, words: Seq<u16>) -> bool {
    &&& words.len() == 256
    &&& d.serial@ == ident_text(words, 10, 20)
    &&& d.firmware@ == ident_text(words, 23, 27)
    &&& d.model@ == ident_text(words, 27, 47)
    &&& d.sectors == ident_sectors(words)
}

/// Text of words `lo..hi` of an IDENTIFY answer.
pub fn text_field(words: &Vec<u16>, lo: usize, hi: usize) -> (r: Vec<u8>)
    requires
        lo <= hi <= words@.len(),
    ensures
        r@ == ident_text(words@, lo as int, hi as int),
{
    let mut raw: Vec<u8> = Vec::new();
    let mut w: usize = lo;
    while w < hi
        invariant
            lo <= w <= hi <= words@.len(),
            raw@ == raw_text(words@, lo as int, w as int),
        decreases hi - w,
    {
        let d = words[w];
        assert((d >> 8) as u8 == (d / 256) as u8) by (bit_vector);
        assert((d & 0xFF) as u8 == (d % 256) as u8) by (bit_vector);
        raw.push((d >> 8) as u8);
        raw.push((d & 0xFF) as u8);
        w = w + 1;
    }
    let n = raw.len();
    let ghost all = raw@;
    assert(all.subrange(0, n as int) =~= all);

    let mut i: usize = 0;
    while i < n && raw[i] == 0x20
        invariant
            raw@ == all,
            n == all.len(),
            i <= n,
            trim_front(all) == trim_front(all.subrange(i as int, n as int)),
        decreases n - i,
    {
        assert(all.subrange(i as int, n as int).drop_first() =~= all.subrange(i + 1, n as int));
        i = i + 1;
    }
    proof {
        if i == n {
            assert(all.subrange(i as int, n as int) =~= Seq::<u8>::empty());
        }
    }
    let ghost front = all.subrange(i as int, n as int);
    assert(trim_front(all) == front);

    let mut j: usize = n;
    assert(all.subrange(i as int, j as int) == front);
    while j > i && raw[j - 1] == 0x20
        invariant
            raw@ == all,
            n == all.len(),
            i <= j <= n,
            trim_back(front) == trim_back(all.subrange(i as int, j as int)),
        decreases j - i,
    {
        assert(all.subrange(i as int, j as int).drop_last() =~= all.subrange(i as int, j - 1));
        j = j - 1;
    }
    let ghost kept = all.subrange(i as int, j as int);
    assert(trim_back(front) == kept);

    let mut out: Vec<u8> = Vec::new();
    let mut k: usize = i;
    while k < j
        invariant
            raw@ == all,
            n == all.len(),
            i <= k <= j <= n,
            out@ == all.subrange(i as int, k as int),
        decreases j - k,
    {
        out.push(raw[k]);
        assert(out@ =~= all.subrange(i as int, k + 1));
        k = k + 1;
    }
    out
}

/// Sector count of an IDENTIFY answer.
pub fn sector_total(words: &Vec<u16>) -> (r: u64)
    requires
        words@.len() == 256,
    ensures
        r == ident_sectors(words@),
{
    let w100 = words[100] as u64;
    let w101 = words[101] as u64;
    let w102 = words[102] as u64;
    let w103 = words[103] as u64;
    let lba48 = w100 | (w101 << 16) | (w102 << 32) | (w103 << 48);
    assert(lba48 == w100 + w101 * 0x1_0000 + w102 * 0x1_0000_0000 + w103 * 0x1_0000_0000_0000)
        by (bit_vector)
        requires
            w100 < 0x1_0000, w101 < 0x1_0000, w102 < 0x1_0000, w103 < 0x1_0000,
            lba48 == w100 | (w101 << 16) | (w102 << 32) | (w103 << 48);
    if lba48 == 0 {
        let w60 = words[60] as u64;
        let w61 = words[61] as u64;
        let lba28 = w60 | (w61 << 16);
        assert(lba28 == w60 + w61 * 0x1_0000) by (bit_vector)
            requires w60 < 0x1_0000, w61 < 0x1_0000, lba28 == w60 | (w61 << 16);
        lba28
    } else {
        lba48
    }
}

/// Parses the 256 words of an IDENTIFY answer: serial in words 10 to 19,
/// firmware in 23 to 26, model in 27 to 46, and the sector count.
pub fn parse_identify(words: &Vec<u16>) -> (r: IdentifyData)
    requires
        words@.len() == 256,
    ensures
        parsed_from(r, words@),
{
    IdentifyData {
        serial: text_field(words, 10, 20),
        firmware: text_field(words, 23, 27),
        model: text_field(words, 27, 47),
        sectors: sector_total(words),
    }
}

} // verus!
