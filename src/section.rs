//! The data sections of a package file and their decoding.
use vstd::prelude::*;
use crate::codec::{u32_at, read_u32, copy_range};
use crate::layout::{
    SectionIndexEntry, SECTION_PACKAGE, SECTION_DEP_TABLE, SECTION_CRATE_BINARY,
    SECTION_SIG_STRUCTURE,
};

verus! {

/// Encoded length of a string reference.
pub const STR_REF_SIZE: usize = 8;

/// Encoded length of the package section.
pub const PACKAGE_SECTION_SIZE: usize = 24;

/// Encoded length of one record of the dependency table.
pub const DEP_REF_SIZE: usize = 16;

/// Encoded length of the two fields that precede the signature bytes.
pub const SIG_HEADER_SIZE: usize = 8;

/// Why a signature section was refused.
#[derive(Clone, Copy, Debug, PartialEq, Eq)]
pub enum SignatureKind {
    Malformed,
    UnknownIssuer,
    Expired,
    DigestMismatch,
    BadSignature,
}

/// Why a data section was refused.
#[derive(Clone, Copy, Debug, PartialEq, Eq)]
pub enum SectionFault {
    /// The section ends before a field it declares.
    IoTruncated,
    /// The section is longer than what it declares.
    LayoutInvariant,
    /// Its `sh_type` is not one of the four tags.
    UnknownSectionType,
    /// A string reference escapes the string table.
    StringOutOfRange,
}

/// Why a package file was refused; section faults carry the index of the section.
#[derive(Clone, Copy, Debug, PartialEq, Eq)]
pub enum DecodeError {
    IoTruncated,
    BadMagic,
    LayoutInvariant,
    Section { section: usize, fault: SectionFault },
    FingerprintMismatch,
    /// A signature failed: `signature` is the index of its section, `section` that of
    /// the section whose bytes it covers (the archive section for a CRATEBIN
    /// signature, the signature's own section otherwise).
    Signature { section: usize, signature: usize, kind: SignatureKind },
    NoTrustAnchors,
}

/// A string of the string table, by offset and length.
#[derive(Clone, Copy, Debug, PartialEq, Eq)]
pub struct StrRef {
    pub offset: u32,
    pub len: u32,
}

/// The reference encoded at `pos`.
pub open spec fn ref_at(s: Seq<u8>, pos: int) -> StrRef {
    StrRef { offset: u32_at(s, pos) as u32, len: u32_at(s, pos + 4) as u32 }
}

/// The reference lies inside a string table of `st_size` bytes.
pub open spec fn ref_in(r: StrRef, st_size: int) -> bool {
    r.offset + r.len <= st_size
}

/// Package metadata, each field a reference into the string table.
#[derive(Clone, Copy, Debug, PartialEq, Eq)]
pub struct PackageSection {
    pub name: StrRef,
    pub version: StrRef,
    pub license: StrRef,
}

/// One dependency, each field a reference into the string table.
#[derive(Clone, Copy, Debug, PartialEq, Eq)]
pub struct DepRef {
    pub name: StrRef,
    pub version_req: StrRef,
}

/// The dependency records, count-prefixed on disk.
#[derive(Clone, Debug)]
pub struct DepTableSection {
    pub deps: Vec<DepRef>,
}

/// The bytes of the crate archive.
#[derive(Clone, Debug)]
pub struct CrateBinarySection {
    pub bin: Vec<u8>,
}

/// A DER-encoded CMS SignedData and the kind of range it covers.
#[derive(Clone, Debug)]
pub struct SigStructureSection {
    pub sigstruct_size: u32,
    pub sigstruct_type: u32,
    pub sigstruct_sig: Vec<u8>,
}

/// A data section, tagged by its `sh_type`.
#[derive(Clone, Debug)]
pub enum DataSection {
    PackageSection(PackageSection),
    DepTableSection(DepTableSection),
    CrateBinarySection(CrateBinarySection),
    SigStructureSection(SigStructureSection),
}

/// The index tag of each kind of section.
pub open spec fn tag_of(d: DataSection) -> u32 {
    match d {
        DataSection::PackageSection(_) => SECTION_PACKAGE,
        DataSection::DepTableSection(_) => SECTION_DEP_TABLE,
        DataSection::CrateBinarySection(_) => SECTION_CRATE_BINARY,
        DataSection::SigStructureSection(_) => SECTION_SIG_STRUCTURE,
    }
}

/// Number of records that a dependency table at `p` declares.
pub open spec fn dep_count_at(s: Seq<u8>, p: int) -> int {
    u32_at(s, p)
}

/// Dependency record `i` of the table at `p`.
pub open spec fn dep_at(s: Seq<u8>, p: int, i: int) -> DepRef {
    DepRef {
        name: ref_at(s, p + 4 + DEP_REF_SIZE * i),
        version_req: ref_at(s, p + 4 + DEP_REF_SIZE * i + STR_REF_SIZE),
    }
}

/// Both references of a dependency record lie inside the string table.
pub open spec fn dep_in(d: DepRef, st_size: int) -> bool {
    ref_in(d.name, st_size) && ref_in(d.version_req, st_size)
}

/// The sizes of the section that `e` points at agree with its tag.
pub open spec fn section_sized(s: Seq<u8>, e: SectionIndexEntry) -> bool {
    let p = e.sh_offset as int;
    let n = e.sh_size as int;
    if e.sh_type == SECTION_PACKAGE {
        n == PACKAGE_SECTION_SIZE
    } else if e.sh_type == SECTION_DEP_TABLE {
        n >= 4 && n == 4 + DEP_REF_SIZE * dep_count_at(s, p)
    } else if e.sh_type == SECTION_CRATE_BINARY {
        true
    } else if e.sh_type == SECTION_SIG_STRUCTURE {
        n >= SIG_HEADER_SIZE && n == SIG_HEADER_SIZE + u32_at(s, p)
    } else {
        false
    }
}

/// Every string reference of the section that `e` points at lies in the string table.
pub open spec fn section_strings_in(s: Seq<u8>, e: SectionIndexEntry, st_size: int) -> bool {
    let p = e.sh_offset as int;
    if e.sh_type == SECTION_PACKAGE {
        ref_in(ref_at(s, p), st_size) && ref_in(ref_at(s, p + 8), st_size) && ref_in(
            ref_at(s, p + 16),
            st_size,
        )
    } else if e.sh_type == SECTION_DEP_TABLE {
        forall|i: int| 0 <= i < dep_count_at(s, p) ==> #[trigger] dep_in(dep_at(s, p, i), st_size)
    } else {
        true
    }
}

/// The section that `e` points at can be decoded.
pub open spec fn section_ok(s: Seq<u8>, e: SectionIndexEntry, st_size: int) -> bool {
    section_sized(s, e) && section_strings_in(s, e, st_size)
}

/// `d` is what the bytes that `e` points at hold.
pub open spec fn section_matches(s: Seq<u8>, e: SectionIndexEntry, d: DataSection) -> bool {
    let p = e.sh_offset as int;
    let n = e.sh_size as int;
    &&& e.sh_type == tag_of(d)
    &&& match d {
        DataSection::PackageSection(ps) => ps == PackageSection {
            name: ref_at(s, p),
            version: ref_at(s, p + 8),
            license: ref_at(s, p + 16),
        },
        DataSection::DepTableSection(dt) => dt.deps@ == Seq::new(
            dep_count_at(s, p) as nat,
            |i: int| dep_at(s, p, i),
        ),
        DataSection::CrateBinarySection(cb) => cb.bin@ == s.subrange(p, p + n),
        DataSection::SigStructureSection(ss) => {
            &&& ss.sigstruct_size as int == u32_at(s, p)
            &&& ss.sigstruct_type as int == u32_at(s, p + 4)
            &&& ss.sigstruct_sig@ == s.subrange(p + SIG_HEADER_SIZE, p + n)
        },
    }
}

/// Reads the string reference at `pos`.
pub fn read_ref(bin: &[u8], pos: usize) -> (r: StrRef)
    requires
        pos as int + STR_REF_SIZE <= bin@.len(),
    ensures
        r == ref_at(bin@, pos as int),
{
    let _len = bin.len();
    StrRef { offset: read_u32(bin, pos).unwrap(), len: read_u32(bin, pos + 4).unwrap() }
}

/// Whether the reference lies inside a string table of `st_size` bytes.
pub fn check_ref(r: StrRef, st_size: u32) -> (b: bool)
    ensures
        b == ref_in(r, st_size as int),
{
    r.offset as u64 + r.len as u64 <= st_size as u64
}

/// What is wrong with the section that `e` points at, if anything. A section
/// shorter than what it declares is truncated; one longer breaks the layout.
pub open spec fn section_fault(s: Seq<u8>, e: SectionIndexEntry, st_size: int) -> Option<SectionFault> {
    let p = e.sh_offset as int;
    let n = e.sh_size as int;
    if e.sh_type == SECTION_PACKAGE {
        if n < PACKAGE_SECTION_SIZE {
            Some(SectionFault::IoTruncated)
        } else if n > PACKAGE_SECTION_SIZE {
            Some(SectionFault::LayoutInvariant)
        } else if !section_strings_in(s, e, st_size) {
            Some(SectionFault::StringOutOfRange)
        } else {
            None
        }
    } else if e.sh_type == SECTION_DEP_TABLE {
        if n < 4 || 4 + DEP_REF_SIZE * dep_count_at(s, p) > n {
            Some(SectionFault::IoTruncated)
        } else if 4 + DEP_REF_SIZE * dep_count_at(s, p) < n {
            Some(SectionFault::LayoutInvariant)
        } else if !section_strings_in(s, e, st_size) {
            Some(SectionFault::StringOutOfRange)
        } else {
            None
        }
    } else if e.sh_type == SECTION_CRATE_BINARY {
        None
    } else if e.sh_type == SECTION_SIG_STRUCTURE {
        if n < SIG_HEADER_SIZE || SIG_HEADER_SIZE + u32_at(s, p) > n {
            Some(SectionFault::IoTruncated)
        } else if SIG_HEADER_SIZE + u32_at(s, p) < n {
            Some(SectionFault::LayoutInvariant)
        } else {
            None
        }
    } else {
        Some(SectionFault::UnknownSectionType)
    }
}

/// Decodes the section that `e` points at.
pub fn decode_section(bin: &[u8], e: SectionIndexEntry, st_size: u32) -> (r: Result<
    DataSection,
    SectionFault,
>)
    requires
        e.sh_offset as int + e.sh_size as int <= bin@.len(),
    ensures
        r is Ok <==> section_ok(bin@, e, st_size as int),
        r is Ok <==> section_fault(bin@, e, st_size as int) is None,
        r matches Ok(d) ==> section_matches(bin@, e, d),
        r matches Err(f) ==> section_fault(bin@, e, st_size as int) == Some(f),
{
    let _len = bin.len();
    let p = e.sh_offset as usize;
    let n = e.sh_size as usize;
    if e.sh_type == SECTION_PACKAGE {
        if n < PACKAGE_SECTION_SIZE {
            return Err(SectionFault::IoTruncated);
        }
        if n > PACKAGE_SECTION_SIZE {
            return Err(SectionFault::LayoutInvariant);
        }
        let ps = PackageSection {
            name: read_ref(bin, p),
            version: read_ref(bin, p + 8),
            license: read_ref(bin, p + 16),
        };
        if !check_ref(ps.name, st_size) || !check_ref(ps.version, st_size) || !check_ref(
            ps.license,
            st_size,
        ) {
            return Err(SectionFault::StringOutOfRange);
        }
        Ok(DataSection::PackageSection(ps))
    } else if e.sh_type == SECTION_DEP_TABLE {
        if n < 4 {
            return Err(SectionFault::IoTruncated);
        }
        let count = read_u32(bin, p).unwrap() as usize;
        if (n - 4) as u64 != DEP_REF_SIZE as u64 * count as u64 {
            if ((n - 4) as u64) < DEP_REF_SIZE as u64 * count as u64 {
                return Err(SectionFault::IoTruncated);
            }
            return Err(SectionFault::LayoutInvariant);
        }
        let mut deps: Vec<DepRef> = Vec::new();
        let len = bin.len();
        let mut i: usize = 0;
        while i < count
            invariant
                i <= count,
                len == bin@.len(),
                p as int + n as int <= bin@.len(),
                n as int == 4 + DEP_REF_SIZE * count,
                count as int == dep_count_at(bin@, p as int),
                p == e.sh_offset,
                n == e.sh_size,
                e.sh_type == SECTION_DEP_TABLE,
                deps@ == Seq::new(i as nat, |k: int| dep_at(bin@, p as int, k)),
                forall|k: int| 0 <= k < i ==> #[trigger] dep_in(dep_at(bin@, p as int, k), st_size as int),
            decreases count - i,
        {
            assert(DEP_REF_SIZE * i + DEP_REF_SIZE <= DEP_REF_SIZE * count) by (nonlinear_arith)
                requires
                    i < count,
            ;
            let q = p + 4 + DEP_REF_SIZE * i;
            let d = DepRef { name: read_ref(bin, q), version_req: read_ref(bin, q + STR_REF_SIZE) };
            if !check_ref(d.name, st_size) || !check_ref(d.version_req, st_size) {
                assert(!dep_in(dep_at(bin@, p as int, i as int), st_size as int));
                return Err(SectionFault::StringOutOfRange);
            }
            deps.push(d);
            i += 1;
            assert(deps@ =~= Seq::new(i as nat, |k: int| dep_at(bin@, p as int, k)));
        }
        Ok(DataSection::DepTableSection(DepTableSection { deps }))
    } else if e.sh_type == SECTION_CRATE_BINARY {
        Ok(DataSection::CrateBinarySection(CrateBinarySection::decode(bin, p, n)))
    } else if e.sh_type == SECTION_SIG_STRUCTURE {
        if n < SIG_HEADER_SIZE {
            return Err(SectionFault::IoTruncated);
        }
        let size = read_u32(bin, p).unwrap();
        let sig_type = read_u32(bin, p + 4).unwrap();
        if (n - SIG_HEADER_SIZE) as u64 != size as u64 {
            if ((n - SIG_HEADER_SIZE) as u64) < size as u64 {
                return Err(SectionFault::IoTruncated);
            }
            return Err(SectionFault::LayoutInvariant);
        }
        let sig = copy_range(bin, p + SIG_HEADER_SIZE, n - SIG_HEADER_SIZE);
        Ok(
            DataSection::SigStructureSection(
                SigStructureSection { sigstruct_size: size, sigstruct_type: sig_type, sigstruct_sig: sig },
            ),
        )
    } else {
        Err(SectionFault::UnknownSectionType)
    }
}

impl CrateBinarySection {
    /// The `size_in_bytes` bytes of the archive from `pos` on.
    pub fn decode(bin: &[u8], pos: usize, size_in_bytes: usize) -> (r: CrateBinarySection)
        requires
            pos as int + size_in_bytes as int <= bin@.len(),
        ensures
            r.bin@ == bin@.subrange(pos as int, pos as int + size_in_bytes as int),
    {
        CrateBinarySection { bin: copy_range(bin, pos, size_in_bytes) }
    }
}

/// The decoded data sections, in the order of the section index.
pub struct DataSectionCollectionType {
    pub col: Vec<DataSection>,
}

/// What is wrong with the section of entry `e` in a file `s`: it runs past the end
/// of the file, or it has a section fault.
pub open spec fn entry_fault(s: Seq<u8>, e: SectionIndexEntry, st_size: int) -> Option<SectionFault> {
    if e.sh_offset + e.sh_size > s.len() {
        Some(SectionFault::IoTruncated)
    } else {
        section_fault(s, e, st_size)
    }
}

/// Entry `i` is the first of `es` whose section is at fault, with fault `f`.
pub open spec fn first_entry_fault(
    s: Seq<u8>,
    es: Seq<SectionIndexEntry>,
    st_size: int,
    i: int,
    f: SectionFault,
) -> bool {
    &&& 0 <= i < es.len()
    &&& entry_fault(s, es[i], st_size) == Some(f)
    &&& forall|j: int| 0 <= j < i ==> (#[trigger] entry_fault(s, es[j], st_size)) is None
}

/// What is wrong at entry `i` of `es`: it starts before entry `i - 1` ends, or
/// its section is at fault.
pub open spec fn entry_error(
    s: Seq<u8>,
    es: Seq<SectionIndexEntry>,
    st_size: int,
    i: int,
) -> Option<DecodeError> {
    if i > 0 && es[i - 1].sh_offset + es[i - 1].sh_size > es[i].sh_offset {
        Some(DecodeError::LayoutInvariant)
    } else {
        match entry_fault(s, es[i], st_size) {
            Some(f) => Some(DecodeError::Section { section: i as usize, fault: f }),
            None => None,
        }
    }
}

impl DataSectionCollectionType {
    /// Decodes the section that each entry points at, in the order of the entries.
    /// Fails at the first entry that starts before the previous one ends
    /// (`LayoutInvariant`) or whose section is at fault.
    pub fn decode(bin: &[u8], entries: &Vec<SectionIndexEntry>, st_size: u32) -> (r: Result<
        DataSectionCollectionType,
        DecodeError,
    >)
        ensures
            r is Ok <==> forall|i: int|
                0 <= i < entries@.len() ==> (#[trigger] entry_error(bin@, entries@, st_size as int, i)) is None,
            r is Ok ==> forall|i: int|
                0 <= i < entries@.len() ==> #[trigger] section_ok(bin@, entries@[i], st_size as int),
            r matches Ok(c) ==> c.col@.len() == entries@.len() && forall|i: int|
                0 <= i < entries@.len() ==> #[trigger] section_matches(bin@, entries@[i], c.col@[i]),
            r matches Err(e) ==> exists|i: int|
                0 <= i < entries@.len() && #[trigger] entry_error(bin@, entries@, st_size as int, i)
                    == Some(e) && forall|j: int|
                    0 <= j < i ==> (#[trigger] entry_error(bin@, entries@, st_size as int, j)) is None,
    {
        let mut col: Vec<DataSection> = Vec::new();
        let len = bin.len();
        let mut i: usize = 0;
        while i < entries.len()
            invariant
                i <= entries@.len(),
                len == bin@.len(),
                col@.len() == i,
                forall|k: int| 0 <= k < i ==> (#[trigger] entry_error(bin@, entries@, st_size as int, k)) is None,
                forall|k: int| 0 <= k < i ==> #[trigger] section_ok(bin@, entries@[k], st_size as int),
                forall|k: int| 0 <= k < i ==> #[trigger] section_matches(bin@, entries@[k], col@[k]),
            decreases entries@.len() - i,
        {
            let e = entries[i];
            if i > 0 && entries[i - 1].sh_offset as u64 + entries[i - 1].sh_size as u64 > e.sh_offset as u64 {
                assert(entry_error(bin@, entries@, st_size as int, i as int) == Some(DecodeError::LayoutInvariant));
                return Err(DecodeError::LayoutInvariant);
            }
            if e.sh_offset as u64 + e.sh_size as u64 > len as u64 {
                assert(entry_error(bin@, entries@, st_size as int, i as int) == Some(DecodeError::Section { section: i, fault: SectionFault::IoTruncated }));
                return Err(DecodeError::Section { section: i, fault: SectionFault::IoTruncated });
            }
            match decode_section(bin, e, st_size) {
                Ok(d) => {
                    col.push(d);
                },
                Err(f) => {
                    assert(entry_error(bin@, entries@, st_size as int, i as int) == Some(DecodeError::Section { section: i, fault: f }));
                    return Err(DecodeError::Section { section: i, fault: f });
                },
            }
            assert(entry_error(bin@, entries@, st_size as int, i as int) is None);
            i += 1;
        }
        Ok(DataSectionCollectionType { col })
    }
}

} // verus!
