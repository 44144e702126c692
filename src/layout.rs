//! The fixed part of a package file: magic number, header and section index.
use vstd::prelude::*;
use crate::codec::{u32_at, read_u32};
use crate::section::DecodeError;

verus! {

/// Length of the magic number that opens every package file.
pub const MAGIC_LEN: usize = 4;

/// Offset of the first byte after the header.
pub const HEADER_END: usize = 32;

/// Encoded length of one section index entry.
pub const ENTRY_SIZE: usize = 12;

/// Length of the trailing fingerprint.
pub const FINGERPRINT_LEN: usize = 32;

/// Tag of the package metadata section.
pub const SECTION_PACKAGE: u32 = 0;

/// Tag of the dependency table section.
pub const SECTION_DEP_TABLE: u32 = 1;

/// Tag of the crate archive section.
pub const SECTION_CRATE_BINARY: u32 = 3;

/// Tag of a signature section.
pub const SECTION_SIG_STRUCTURE: u32 = 4;

/// The magic number, "SCRT".
pub open spec fn magic() -> Seq<u8> {
    seq![0x53u8, 0x43u8, 0x52u8, 0x54u8]
}

/// Whether the four bytes are the magic number.
pub fn is_magic_number(mn: &[u8; 4]) -> (r: bool)
    ensures
        r == (mn@ == magic()),
{
    let expected: [u8; 4] = [0x53u8, 0x43u8, 0x52u8, 0x54u8];
    let mut i: usize = 0;
    while i < 4
        invariant
            i <= 4,
            expected@ == magic(),
            forall|j: int| 0 <= j < i ==> mn@[j] == magic()[j],
        decreases 4 - i,
    {
        if mn[i] != expected[i] {
            return false;
        }
        i += 1;
    }
    assert(mn@ =~= magic());
    true
}

/// Offsets and sizes of the three regions of a package file, all absolute.
#[derive(Clone, Copy, Debug, PartialEq, Eq)]
pub struct CrateHeader {
    pub strtable_offset: u32,
    pub strtable_size: u32,
    pub sh_offset: u32,
    pub sh_size: u32,
    pub sh_num: u32,
    pub ds_offset: u32,
    pub ds_size: u32,
}

/// The header stored in the bytes `4 .. 32`.
pub open spec fn header_of(s: Seq<u8>) -> CrateHeader {
    CrateHeader {
        strtable_offset: u32_at(s, 4) as u32,
        strtable_size: u32_at(s, 8) as u32,
        sh_offset: u32_at(s, 12) as u32,
        sh_size: u32_at(s, 16) as u32,
        sh_num: u32_at(s, 20) as u32,
        ds_offset: u32_at(s, 24) as u32,
        ds_size: u32_at(s, 28) as u32,
    }
}

/// End of the data sections, where the fingerprint starts.
pub open spec fn ds_end(h: CrateHeader) -> int {
    h.ds_offset + h.ds_size
}

/// The regions follow one another inside a file of `file_len` bytes, the index
/// holds exactly `sh_num` entries, and the fingerprint closes the file.
pub open spec fn header_layout_ok(h: CrateHeader, file_len: int) -> bool {
    &&& h.strtable_offset >= HEADER_END
    &&& h.strtable_offset + h.strtable_size <= h.sh_offset
    &&& h.sh_size == h.sh_num * ENTRY_SIZE
    &&& h.sh_offset + h.sh_size <= h.ds_offset
    &&& ds_end(h) + FINGERPRINT_LEN == file_len
}

/// Checks the header against the length of the file it came from.
pub fn check_header(h: &CrateHeader, file_len: usize) -> (r: bool)
    ensures
        r == header_layout_ok(*h, file_len as int),
{
    let so = h.strtable_offset as u64;
    let ss = h.strtable_size as u64;
    let ho = h.sh_offset as u64;
    let hs = h.sh_size as u64;
    let hn = h.sh_num as u64;
    let d = h.ds_offset as u64;
    let ds = h.ds_size as u64;
    assert(hn * 12 <= 0xffff_ffff * 12) by (nonlinear_arith)
        requires
            hn <= 0xffff_ffff,
    ;
    so >= HEADER_END as u64 && so + ss <= ho && hs == hn * (ENTRY_SIZE as u64) && ho + hs <= d
        && d + ds + FINGERPRINT_LEN as u64 == file_len as u64
}

/// Reads the header; the file must be at least `HEADER_END` bytes long.
pub fn read_header(bin: &[u8]) -> (r: CrateHeader)
    requires
        bin@.len() >= HEADER_END,
    ensures
        r == header_of(bin@),
{
    CrateHeader {
        strtable_offset: read_u32(bin, 4).unwrap(),
        strtable_size: read_u32(bin, 8).unwrap(),
        sh_offset: read_u32(bin, 12).unwrap(),
        sh_size: read_u32(bin, 16).unwrap(),
        sh_num: read_u32(bin, 20).unwrap(),
        ds_offset: read_u32(bin, 24).unwrap(),
        ds_size: read_u32(bin, 28).unwrap(),
    }
}

/// One entry of the section index.
#[derive(Clone, Copy, Debug, PartialEq, Eq)]
pub struct SectionIndexEntry {
    pub sh_type: u32,
    pub sh_offset: u32,
    pub sh_size: u32,
}

/// The entry encoded at `pos`.
pub open spec fn entry_at(s: Seq<u8>, pos: int) -> SectionIndexEntry {
    SectionIndexEntry {
        sh_type: u32_at(s, pos) as u32,
        sh_offset: u32_at(s, pos + 4) as u32,
        sh_size: u32_at(s, pos + 8) as u32,
    }
}

/// The `sh_num` entries that the header points at.
pub open spec fn entries_of(s: Seq<u8>, h: CrateHeader) -> Seq<SectionIndexEntry> {
    Seq::new(h.sh_num as nat, |i: int| entry_at(s, h.sh_offset + ENTRY_SIZE * i))
}

/// Entry `i` lies inside the data sections and starts where entry `i - 1` has ended or later.
pub open spec fn entry_placed(es: Seq<SectionIndexEntry>, h: CrateHeader, i: int) -> bool {
    &&& h.ds_offset <= es[i].sh_offset
    &&& es[i].sh_offset + es[i].sh_size <= ds_end(h)
    &&& i > 0 ==> es[i - 1].sh_offset + es[i - 1].sh_size <= es[i].sh_offset
}

/// Every entry is placed.
pub open spec fn index_layout_ok(es: Seq<SectionIndexEntry>, h: CrateHeader) -> bool {
    forall|i: int| 0 <= i < es.len() ==> #[trigger] entry_placed(es, h, i)
}

/// In a well-placed index every entry lies in `[ds_offset, ds_offset + ds_size)`,
/// and any two entries are disjoint and in ascending order of offset.
pub proof fn lemma_index_layout(es: Seq<SectionIndexEntry>, h: CrateHeader, i: int, j: int)
    requires
        index_layout_ok(es, h),
        0 <= i < j < es.len(),
    ensures
        h.ds_offset <= es[i].sh_offset,
        es[j].sh_offset + es[j].sh_size <= ds_end(h),
        es[i].sh_offset + es[i].sh_size <= es[j].sh_offset,
        es[i].sh_offset <= es[j].sh_offset,
    decreases j - i,
{
    assert(entry_placed(es, h, i));
    assert(entry_placed(es, h, j));
    if j == i + 1 {
    } else {
        lemma_index_layout(es, h, i, j - 1);
        assert(entry_placed(es, h, j - 1));
    }
}

/// The section index of a package file.
pub struct SectionIndex {
    pub entries: Vec<SectionIndexEntry>,
}

impl SectionIndex {
    /// Reads `elem_num` entries from `pos` on; truncated where the bytes end first.
    pub fn decode(bin: &[u8], pos: usize, elem_num: usize) -> (r: Result<SectionIndex, DecodeError>)
        ensures
            r is Ok <==> pos as int + ENTRY_SIZE * elem_num <= bin@.len(),
            r matches Ok(x) ==> x.entries@ == Seq::new(
                elem_num as nat,
                |i: int| entry_at(bin@, pos + ENTRY_SIZE * i),
            ),
            r matches Err(e) ==> e == DecodeError::IoTruncated,
    {
        if elem_num as u128 * ENTRY_SIZE as u128 + pos as u128 > bin.len() as u128 {
            return Err(DecodeError::IoTruncated);
        }
        let mut entries: Vec<SectionIndexEntry> = Vec::new();
        let n = bin.len();
        let mut i: usize = 0;
        while i < elem_num
            invariant
                i <= elem_num,
                n == bin@.len(),
                pos as int + ENTRY_SIZE * elem_num <= bin@.len(),
                entries@ == Seq::new(i as nat, |k: int| entry_at(bin@, pos + ENTRY_SIZE * k)),
            decreases elem_num - i,
        {
            assert(ENTRY_SIZE * i + ENTRY_SIZE <= ENTRY_SIZE * elem_num) by (nonlinear_arith)
                requires
                    i < elem_num,
            ;
            let p = pos + ENTRY_SIZE * i;
            let e = SectionIndexEntry {
                sh_type: read_u32(bin, p).unwrap(),
                sh_offset: read_u32(bin, p + 4).unwrap(),
                sh_size: read_u32(bin, p + 8).unwrap(),
            };
            entries.push(e);
            i += 1;
            assert(entries@ =~= Seq::new(i as nat, |k: int| entry_at(bin@, pos + ENTRY_SIZE * k)));
        }
        Ok(SectionIndex { entries })
    }

    /// Whether every entry is placed inside the data sections of `h`, in order and disjoint.
    pub fn check_layout(&self, h: &CrateHeader) -> (r: bool)
        ensures
            r == index_layout_ok(self.entries@, *h),
    {
        let n = self.entries.len();
        let mut i: usize = 0;
        while i < n
            invariant
                i <= n,
                n == self.entries@.len(),
                forall|k: int| 0 <= k < i ==> #[trigger] entry_placed(self.entries@, *h, k),
            decreases n - i,
        {
            let e = self.entries[i];
            let start = e.sh_offset as u64;
            let end = start + e.sh_size as u64;
            if start < h.ds_offset as u64 || end > h.ds_offset as u64 + h.ds_size as u64 {
                assert(!entry_placed(self.entries@, *h, i as int));
                return false;
            }
            if i > 0 {
                let prev = self.entries[i - 1];
                if prev.sh_offset as u64 + prev.sh_size as u64 > start {
                    assert(!entry_placed(self.entries@, *h, i as int));
                    return false;
                }
            }
            assert(entry_placed(self.entries@, *h, i as int));
            i += 1;
        }
        true
    }
}

} // verus!
