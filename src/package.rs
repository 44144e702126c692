//! A whole package file: its parts and how they are read back.
use vstd::prelude::*;
use crate::codec::{copy_range, bytes_eq, u32_at};
use crate::section::DEP_REF_SIZE;
use crate::layout::{entry_at, ENTRY_SIZE};
use crate::crypto::{sha256_of, sha256};
use crate::layout::{
    SectionIndexEntry,
    magic, is_magic_number, CrateHeader, header_of, header_layout_ok, check_header, read_header,
    entries_of, index_layout_ok, ds_end, SectionIndex, HEADER_END, MAGIC_LEN, FINGERPRINT_LEN,
    };
use crate::section::{
    DataSectionCollectionType, DataSection, DecodeError, SectionFault, entry_fault, entry_error, first_entry_fault, section_ok, section_matches, ref_in, dep_in,
};

verus! {

/// The bytes that the fingerprint covers: everything before the last 32.
pub open spec fn fingerprinted(s: Seq<u8>) -> Seq<u8> {
    s.subrange(0, s.len() - FINGERPRINT_LEN)
}

/// The last 32 bytes.
pub open spec fn stored_fingerprint(s: Seq<u8>) -> Seq<u8> {
    s.subrange(s.len() - FINGERPRINT_LEN, s.len() as int)
}

/// The file ends with the SHA-256 digest of what precedes it.
pub open spec fn fingerprint_ok(s: Seq<u8>) -> bool {
    s.len() >= FINGERPRINT_LEN && sha256_of(fingerprinted(s)) == stored_fingerprint(s)
}

/// Every part of the file up to the fingerprint is well formed: magic number,
/// header layout, section index placement, and each data section.
pub open spec fn structure_ok(s: Seq<u8>) -> bool {
    let h = header_of(s);
    &&& s.len() >= HEADER_END
    &&& s.subrange(0, MAGIC_LEN as int) == magic()
    &&& header_layout_ok(h, s.len() as int)
    &&& index_layout_ok(entries_of(s, h), h)
    &&& forall|i: int|
        0 <= i < h.sh_num ==> #[trigger] section_ok(s, entries_of(s, h)[i], h.strtable_size as int)
}

/// Magic number and header are right for a file of this length.
pub open spec fn header_ok(s: Seq<u8>) -> bool {
    &&& s.len() >= HEADER_END
    &&& s.subrange(0, MAGIC_LEN as int) == magic()
    &&& header_layout_ok(header_of(s), s.len() as int)
}

/// Every data section decodes.
pub open spec fn sections_ok(s: Seq<u8>) -> bool {
    let h = header_of(s);
    forall|i: int|
        0 <= i < h.sh_num ==> #[trigger] section_ok(s, entries_of(s, h)[i], h.strtable_size as int)
}

/// A package file that decodes.
pub open spec fn file_ok(s: Seq<u8>) -> bool {
    structure_ok(s) && fingerprint_ok(s)
}

/// Whether `digest` is the fingerprint stored at the end of `bin`.
pub fn fingerprint_matches(bin: &[u8], digest: &[u8]) -> (r: bool)
    requires
        bin@.len() >= FINGERPRINT_LEN,
    ensures
        r == (digest@ == stored_fingerprint(bin@)),
{
    let n = bin.len();
    let stored = copy_range(bin, n - FINGERPRINT_LEN, FINGERPRINT_LEN);
    bytes_eq(digest, stored.as_slice())
}

/// A decoded package file.
pub struct CratePackage {
    pub magic_number: [u8; 4],
    pub crate_header: CrateHeader,
    pub string_table: Vec<u8>,
    pub section_index: SectionIndex,
    pub data_sections: DataSectionCollectionType,
    pub finger_print: Vec<u8>,
}

/// `p` holds what the file `s` holds, part by part.
pub open spec fn package_matches(s: Seq<u8>, p: CratePackage) -> bool {
    let h = header_of(s);
    &&& p.magic_number@ == magic()
    &&& p.crate_header == h
    &&& p.string_table@ == s.subrange(
        h.strtable_offset as int,
        h.strtable_offset + h.strtable_size,
    )
    &&& p.section_index.entries@ == entries_of(s, h)
    &&& p.data_sections.col@.len() == h.sh_num
    &&& forall|i: int|
        0 <= i < h.sh_num ==> #[trigger] section_matches(
            s,
            entries_of(s, h)[i],
            p.data_sections.col@[i],
        )
    &&& p.finger_print@ == stored_fingerprint(s)
}

/// Decodes the sections of entries that lie inside the file, in ascending order and disjoint.
fn decode_placed(bin: &[u8], entries: &Vec<SectionIndexEntry>, st_size: u32) -> (r: Result<
    DataSectionCollectionType,
    DecodeError,
>)
    requires
        forall|i: int|
            0 <= i < entries@.len() ==> #[trigger] entries@[i].sh_offset + entries@[i].sh_size
                <= bin@.len(),
        forall|i: int|
            0 < i < entries@.len() ==> entries@[i - 1].sh_offset + entries@[i - 1].sh_size
                <= #[trigger] entries@[i].sh_offset,
    ensures
        r is Ok <==> forall|i: int|
            0 <= i < entries@.len() ==> #[trigger] section_ok(bin@, entries@[i], st_size as int),
        r matches Ok(c) ==> c.col@.len() == entries@.len() && forall|i: int|
            0 <= i < entries@.len() ==> #[trigger] section_matches(bin@, entries@[i], c.col@[i]),
        r is Err ==> exists|i: int, f: SectionFault|
            first_entry_fault(bin@, entries@, st_size as int, i, f) && r == Err::<
                DataSectionCollectionType,
                DecodeError,
            >(DecodeError::Section { section: i as usize, fault: f }),
{
    assert forall|i: int| 0 <= i < entries@.len() implies (#[trigger] entry_error(bin@, entries@, st_size as int, i)) == match entry_fault(bin@, entries@[i], st_size as int) {
        Some(f) => Some(DecodeError::Section { section: i as usize, fault: f }),
        None => None,
    } && (entry_fault(bin@, entries@[i], st_size as int) is None <==> section_ok(bin@, entries@[i], st_size as int)) by {
        assert(entries@[i].sh_offset + entries@[i].sh_size <= bin@.len());
    }
    let r = DataSectionCollectionType::decode(bin, entries, st_size);
    match r {
        Ok(c) => Ok(c),
        Err(e) => {
            let ghost i = choose|i: int|
                0 <= i < entries@.len() && #[trigger] entry_error(bin@, entries@, st_size as int, i)
                    == Some(e) && forall|j: int|
                    0 <= j < i ==> (#[trigger] entry_error(bin@, entries@, st_size as int, j)) is None;
            let ghost f = entry_fault(bin@, entries@[i], st_size as int)->Some_0;
            assert forall|j: int| 0 <= j < i implies (#[trigger] entry_fault(bin@, entries@[j], st_size as int)) is None by {
                assert(entry_error(bin@, entries@, st_size as int, j) is None);
            }
            assert(first_entry_fault(bin@, entries@, st_size as int, i, f));
            Err(e)
        },
    }
}

impl CratePackage {
    /// Reads a package file without checking its fingerprint: magic number, header,
    /// string table, section index and data sections; the fingerprint bytes are kept.
    pub fn decode_structure(bin: &[u8]) -> (r: Result<CratePackage, DecodeError>)
        ensures
            r is Ok <==> structure_ok(bin@),
            r matches Ok(p) ==> package_matches(bin@, p),
            r matches Err(e) ==> e == DecodeError::IoTruncated || e == DecodeError::BadMagic || e
                == DecodeError::LayoutInvariant || e is Section,
            (header_ok(bin@) && !index_layout_ok(entries_of(bin@, header_of(bin@)), header_of(bin@)))
                ==> r == Err::<CratePackage, DecodeError>(DecodeError::LayoutInvariant),
            r matches Err(DecodeError::Section { section, fault }) ==> header_ok(bin@)
                && index_layout_ok(entries_of(bin@, header_of(bin@)), header_of(bin@))
                && first_entry_fault(
                bin@,
                entries_of(bin@, header_of(bin@)),
                header_of(bin@).strtable_size as int,
                section as int,
                fault,
            ),
            (header_ok(bin@) && index_layout_ok(entries_of(bin@, header_of(bin@)), header_of(bin@))
                && !sections_ok(bin@)) ==> r matches Err(DecodeError::Section { .. }),
            r == Err::<CratePackage, DecodeError>(DecodeError::IoTruncated) <==> (bin@.len()
                < MAGIC_LEN || (bin@.subrange(0, MAGIC_LEN as int) == magic() && bin@.len()
                < HEADER_END)),
            r == Err::<CratePackage, DecodeError>(DecodeError::BadMagic) <==> (bin@.len()
                >= MAGIC_LEN && bin@.subrange(0, MAGIC_LEN as int) != magic()),
            (bin@.len() >= HEADER_END && bin@.subrange(0, MAGIC_LEN as int) == magic()
                && !header_layout_ok(header_of(bin@), bin@.len() as int)) ==> r
                == Err::<CratePackage, DecodeError>(DecodeError::LayoutInvariant),
    {
        let len = bin.len();
        if len < MAGIC_LEN {
            return Err(DecodeError::IoTruncated);
        }
        let magic_number: [u8; 4] = [bin[0], bin[1], bin[2], bin[3]];
        assert(magic_number@ =~= bin@.subrange(0, MAGIC_LEN as int));
        if !is_magic_number(&magic_number) {
            return Err(DecodeError::BadMagic);
        }
        if len < HEADER_END {
            return Err(DecodeError::IoTruncated);
        }
        let crate_header = read_header(bin);
        if !check_header(&crate_header, len) {
            return Err(DecodeError::LayoutInvariant);
        }
        let ghost h = crate_header;
        let string_table = copy_range(
            bin,
            crate_header.strtable_offset as usize,
            crate_header.strtable_size as usize,
        );
        let section_index = match SectionIndex::decode(
            bin,
            crate_header.sh_offset as usize,
            crate_header.sh_num as usize,
        ) {
            Ok(x) => x,
            Err(e) => {
                return Err(e);
            },
        };
        assert(section_index.entries@ =~= entries_of(bin@, h));
        if !section_index.check_layout(&crate_header) {
            return Err(DecodeError::LayoutInvariant);
        }
        assert forall|i: int| 0 <= i < section_index.entries@.len() implies #[trigger] section_index.entries@[i].sh_offset
            + section_index.entries@[i].sh_size <= bin@.len() by {
            assert(crate::layout::entry_placed(section_index.entries@, h, i));
        }
        assert forall|i: int| 0 < i < section_index.entries@.len() implies section_index.entries@[i - 1].sh_offset
            + section_index.entries@[i - 1].sh_size <= #[trigger] section_index.entries@[i].sh_offset by {
            assert(crate::layout::entry_placed(section_index.entries@, h, i));
        }
        let data_sections = match decode_placed(
            bin,
            &section_index.entries,
            crate_header.strtable_size,
        ) {
            Ok(c) => c,
            Err(e) => {
                return Err(e);
            },
        };
        let finger_print = copy_range(bin, len - FINGERPRINT_LEN, FINGERPRINT_LEN);
        Ok(
            CratePackage {
                magic_number,
                crate_header,
                string_table,
                section_index,
                data_sections,
                finger_print,
            },
        )
    }

    /// Reads a package file: magic number, header, string table, section index,
    /// data sections, and the fingerprint, which must be the digest of the rest.
    pub fn decode(bin: &[u8]) -> (r: Result<CratePackage, DecodeError>)
        ensures
            r is Ok <==> file_ok(bin@),
            r matches Ok(p) ==> package_matches(bin@, p),
            r matches Err(e) ==> e == DecodeError::IoTruncated || e == DecodeError::BadMagic || e
                == DecodeError::LayoutInvariant || e is Section || e
                == DecodeError::FingerprintMismatch,
            (header_ok(bin@) && !index_layout_ok(entries_of(bin@, header_of(bin@)), header_of(bin@)))
                ==> r == Err::<CratePackage, DecodeError>(DecodeError::LayoutInvariant),
            r matches Err(DecodeError::Section { section, fault }) ==> header_ok(bin@)
                && index_layout_ok(entries_of(bin@, header_of(bin@)), header_of(bin@))
                && first_entry_fault(
                bin@,
                entries_of(bin@, header_of(bin@)),
                header_of(bin@).strtable_size as int,
                section as int,
                fault,
            ),
            (header_ok(bin@) && index_layout_ok(entries_of(bin@, header_of(bin@)), header_of(bin@))
                && !sections_ok(bin@)) ==> r matches Err(DecodeError::Section { .. }),
            r == Err::<CratePackage, DecodeError>(DecodeError::IoTruncated) <==> (bin@.len()
                < MAGIC_LEN || (bin@.subrange(0, MAGIC_LEN as int) == magic() && bin@.len()
                < HEADER_END)),
            r == Err::<CratePackage, DecodeError>(DecodeError::BadMagic) <==> (bin@.len()
                >= MAGIC_LEN && bin@.subrange(0, MAGIC_LEN as int) != magic()),
            (bin@.len() >= HEADER_END && bin@.subrange(0, MAGIC_LEN as int) == magic()
                && !header_layout_ok(header_of(bin@), bin@.len() as int)) ==> r
                == Err::<CratePackage, DecodeError>(DecodeError::LayoutInvariant),
            r == Err::<CratePackage, DecodeError>(DecodeError::FingerprintMismatch) <==> (
            structure_ok(bin@) && !fingerprint_ok(bin@)),
    {
        let p = match CratePackage::decode_structure(bin) {
            Ok(p) => p,
            Err(e) => {
                return Err(e);
            },
        };
        if !check_fingerprint(bin) {
            return Err(DecodeError::FingerprintMismatch);
        }
        Ok(p)
    }
}

/// Whether the file ends with the SHA-256 digest of what precedes it.
pub fn check_fingerprint(bin: &[u8]) -> (r: bool)
    requires
        bin@.len() >= FINGERPRINT_LEN,
    ensures
        r == fingerprint_ok(bin@),
{
    let len = bin.len();
    let body = copy_range(bin, 0, len - FINGERPRINT_LEN);
    let digest = sha256(body.as_slice());
    fingerprint_matches(bin, digest.as_slice())
}

/// Every string reference of a decoded section lies inside the decoded string table.
pub proof fn lemma_string_table_closure(s: Seq<u8>, p: CratePackage, i: int)
    requires
        file_ok(s),
        package_matches(s, p),
        0 <= i < p.data_sections.col@.len(),
    ensures
        match p.data_sections.col@[i] {
            DataSection::PackageSection(ps) => {
                &&& ref_in(ps.name, p.string_table@.len() as int)
                &&& ref_in(ps.version, p.string_table@.len() as int)
                &&& ref_in(ps.license, p.string_table@.len() as int)
            },
            DataSection::DepTableSection(dt) => forall|k: int|
                0 <= k < dt.deps@.len() ==> #[trigger] dep_in(dt.deps@[k], p.string_table@.len() as int),
            _ => true,
        },
{
    let h = header_of(s);
    let es = entries_of(s, h);
    assert(section_ok(s, es[i], h.strtable_size as int));
    assert(section_matches(s, es[i], p.data_sections.col@[i]));
    match p.data_sections.col@[i] {
        DataSection::DepTableSection(dt) => {
            assert forall|k: int| 0 <= k < dt.deps@.len() implies #[trigger] dep_in(dt.deps@[k], p.string_table@.len() as int) by {
                assert(dep_in(crate::section::dep_at(s, es[i].sh_offset as int, k), h.strtable_size as int));
            }
        },
        _ => {},
    }
}

/// In a file that decodes, every section index entry lies inside the data
/// sections, and any two entries are disjoint and in ascending order of offset.
pub proof fn lemma_layout_law(s: Seq<u8>, i: int, j: int)
    requires
        file_ok(s),
        0 <= i < j < header_of(s).sh_num,
    ensures
        header_of(s).ds_offset <= entries_of(s, header_of(s))[i].sh_offset,
        entries_of(s, header_of(s))[j].sh_offset + entries_of(s, header_of(s))[j].sh_size
            <= ds_end(header_of(s)),
        entries_of(s, header_of(s))[i].sh_offset + entries_of(s, header_of(s))[i].sh_size
            <= entries_of(s, header_of(s))[j].sh_offset,
{
    crate::layout::lemma_index_layout(entries_of(s, header_of(s)), header_of(s), i, j);
}

/// Two byte strings that agree below `n` read the same integer below `n`.
proof fn lemma_u32_frame(s: Seq<u8>, t: Seq<u8>, p: int, n: int)
    requires
        n <= s.len(),
        n <= t.len(),
        forall|i: int| 0 <= i < n ==> #[trigger] s[i] == t[i],
        0 <= p,
        p + 4 <= n,
    ensures
        u32_at(s, p) == u32_at(t, p),
{
    assert(s[p] == t[p]);
    assert(s[p + 1] == t[p + 1]);
    assert(s[p + 2] == t[p + 2]);
    assert(s[p + 3] == t[p + 3]);
}

/// The structure of a file depends only on the bytes before its fingerprint.
#[verifier::spinoff_prover]
#[verifier::rlimit(100)]
proof fn lemma_structure_frame(s: Seq<u8>, t: Seq<u8>)
    requires
        structure_ok(s),
        t.len() == s.len(),
        forall|i: int| 0 <= i < s.len() - FINGERPRINT_LEN ==> #[trigger] s[i] == t[i],
    ensures
        structure_ok(t),
{
    let n = s.len() - FINGERPRINT_LEN;
    let h = header_of(s);
    assert(s.subrange(0, 4) =~= t.subrange(0, 4)) by {
        assert forall|i: int| 0 <= i < 4 implies s.subrange(0, 4)[i] == t.subrange(0, 4)[i] by {
            assert(s[i] == t[i]);
        }
    }
    lemma_u32_frame(s, t, 4, n);
    lemma_u32_frame(s, t, 8, n);
    lemma_u32_frame(s, t, 12, n);
    lemma_u32_frame(s, t, 16, n);
    lemma_u32_frame(s, t, 20, n);
    lemma_u32_frame(s, t, 24, n);
    lemma_u32_frame(s, t, 28, n);
    assert(header_of(t) == h);
    let es = entries_of(s, h);
    assert forall|i: int| 0 <= i < h.sh_num implies #[trigger] entry_at(t, h.sh_offset + ENTRY_SIZE * i)
        == entry_at(s, h.sh_offset + ENTRY_SIZE * i) by {
        let q = h.sh_offset + ENTRY_SIZE * i;
        assert(ENTRY_SIZE * i + ENTRY_SIZE <= ENTRY_SIZE * h.sh_num) by (nonlinear_arith)
            requires
                i < h.sh_num,
        ;
        lemma_u32_frame(s, t, q, n);
        lemma_u32_frame(s, t, q + 4, n);
        lemma_u32_frame(s, t, q + 8, n);
    }
    assert(entries_of(t, h) =~= es);
    assert forall|i: int| 0 <= i < h.sh_num implies #[trigger] section_ok(t, es[i], h.strtable_size as int) by {
        let e = es[i];
        let p = e.sh_offset as int;
        assert(crate::layout::entry_placed(es, h, i));
        assert(section_ok(s, e, h.strtable_size as int));
        if e.sh_type == crate::layout::SECTION_PACKAGE {
            lemma_u32_frame(s, t, p, n);
            lemma_u32_frame(s, t, p + 4, n);
            lemma_u32_frame(s, t, p + 8, n);
            lemma_u32_frame(s, t, p + 12, n);
            lemma_u32_frame(s, t, p + 16, n);
            lemma_u32_frame(s, t, p + 20, n);
        } else if e.sh_type == crate::layout::SECTION_DEP_TABLE {
            lemma_u32_frame(s, t, p, n);
            let c = crate::section::dep_count_at(s, p);
            assert forall|k: int| 0 <= k < c implies #[trigger] dep_in(crate::section::dep_at(t, p, k), h.strtable_size as int) by {
                assert(dep_in(crate::section::dep_at(s, p, k), h.strtable_size as int));
                assert(DEP_REF_SIZE * k + DEP_REF_SIZE <= DEP_REF_SIZE * c) by (nonlinear_arith)
                    requires
                        k < c,
                ;
                let q = p + 4 + DEP_REF_SIZE * k;
                lemma_u32_frame(s, t, q, n);
                lemma_u32_frame(s, t, q + 4, n);
                lemma_u32_frame(s, t, q + 8, n);
                lemma_u32_frame(s, t, q + 12, n);
            }
        } else if e.sh_type == crate::layout::SECTION_SIG_STRUCTURE {
            lemma_u32_frame(s, t, p, n);
        }
    }
}

/// Flipping a bit of the fingerprint of a file that decodes leaves its structure
/// sound and breaks its fingerprint, so decoding it fails with `FingerprintMismatch`.
pub proof fn lemma_flipped_fingerprint(s: Seq<u8>, b: u8)
    requires
        file_ok(s),
        b != 0,
    ensures
        structure_ok(s.update(s.len() - FINGERPRINT_LEN, s[s.len() - FINGERPRINT_LEN] ^ b)),
        !fingerprint_ok(s.update(s.len() - FINGERPRINT_LEN, s[s.len() - FINGERPRINT_LEN] ^ b)),
{
    let n = s.len() - FINGERPRINT_LEN;
    let x = s[n];
    let t = s.update(n, x ^ b);
    assert(x ^ b != x) by (bit_vector)
        requires
            b != 0u8,
    ;
    lemma_structure_frame(s, t);
    assert(fingerprinted(t) =~= fingerprinted(s));
    assert(stored_fingerprint(t)[0] != stored_fingerprint(s)[0]);
}

} // verus!
