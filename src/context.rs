//! The package context: metadata, dependency records, archive bytes and
//! signatures, turned into a package file and read back from one.
use vstd::prelude::*;
use crate::codec::{u32_bytes, push_u32, push_bytes, copy_range};
use crate::crypto::{sha256_of, sha256, signed_data_parses};
use crate::layout::{
    magic, CrateHeader, SectionIndexEntry, HEADER_END, ENTRY_SIZE, FINGERPRINT_LEN,
    SECTION_PACKAGE, SECTION_DEP_TABLE, SECTION_CRATE_BINARY, SECTION_SIG_STRUCTURE,
};
use crate::section::{
    StrRef, DepRef, PackageSection, DataSection, DecodeError, SignatureKind, PACKAGE_SECTION_SIZE,
    DEP_REF_SIZE, SIG_HEADER_SIZE,
};
use crate::package::{CratePackage, structure_ok, check_fingerprint, file_ok, package_matches, fingerprint_ok, fingerprinted, stored_fingerprint};
use crate::layout::{header_of, entries_of};
use crate::section::{section_ok, section_matches, dep_in};
use crate::signature::{sig_fault, check_signature, named_section, covered_section, ChainVerdict, verdict_fault, verdict_kind, verdict_at};

verus! {

/// A signature that covers the crate archive section only.
pub const SIGTYPE_CRATEBIN: u32 = 0;

/// A signature that covers the file from its start up to the signature section itself.
pub const SIGTYPE_WHOLE: u32 = 1;

/// The package metadata.
#[derive(Clone, Debug, PartialEq, Eq)]
pub struct PackageInfo {
    pub name: Vec<u8>,
    pub version: Vec<u8>,
    pub license: Vec<u8>,
}

/// One dependency of the package.
#[derive(Clone, Debug, PartialEq, Eq)]
pub struct DepInfo {
    pub name: Vec<u8>,
    pub version_req: Vec<u8>,
}

/// The bytes of the `.crate` archive.
#[derive(Clone, Debug, PartialEq, Eq)]
pub struct CrateBinary {
    pub bytes: Vec<u8>,
}

/// A DER-encoded CMS SignedData and the SIGTYPE of the range it covers.
#[derive(Clone, Debug, PartialEq, Eq)]
pub struct SigRecord {
    pub sig_type: u32,
    pub der: Vec<u8>,
}

/// Why a context could not be encoded.
#[derive(Clone, Copy, Debug, PartialEq, Eq)]
pub enum EncodeError {
    /// The file would be longer than its 32-bit offsets can address.
    TooLarge,
}

/// Everything a package file carries, and the trust anchors to check it against.
pub struct PackageContext {
    pub pack_info: PackageInfo,
    pub dep_infos: Vec<DepInfo>,
    pub crate_binary: CrateBinary,
    pub sigs: Vec<SigRecord>,
    pub root_cas: Vec<Vec<u8>>,
}

/// The strings of the dependency records, name then version requirement, in order.
pub open spec fn deps_strings(ds: Seq<DepInfo>) -> Seq<u8>
    decreases ds.len(),
{
    if ds.len() == 0 {
        Seq::empty()
    } else {
        deps_strings(ds.drop_last()) + ds.last().name@ + ds.last().version_req@
    }
}

/// The string table: name, version and license of the package, then the dependencies' strings.
pub open spec fn strings_of(info: PackageInfo, ds: Seq<DepInfo>) -> Seq<u8> {
    info.name@ + info.version@ + info.license@ + deps_strings(ds)
}

/// The references of the dependency records, for strings that start at `base`.
pub open spec fn dep_refs_of(ds: Seq<DepInfo>, base: int) -> Seq<DepRef>
    decreases ds.len(),
{
    if ds.len() == 0 {
        Seq::empty()
    } else {
        let at = base + deps_strings(ds.drop_last()).len();
        dep_refs_of(ds.drop_last(), base).push(
            DepRef {
                name: StrRef { offset: at as u32, len: ds.last().name@.len() as u32 },
                version_req: StrRef {
                    offset: (at + ds.last().name@.len()) as u32,
                    len: ds.last().version_req@.len() as u32,
                },
            },
        )
    }
}

/// The references of the package section.
pub open spec fn package_refs_of(info: PackageInfo) -> PackageSection {
    PackageSection {
        name: StrRef { offset: 0, len: info.name@.len() as u32 },
        version: StrRef { offset: info.name@.len() as u32, len: info.version@.len() as u32 },
        license: StrRef {
            offset: (info.name@.len() + info.version@.len()) as u32,
            len: info.license@.len() as u32,
        },
    }
}

/// The eight bytes of a reference.
pub open spec fn ref_bytes(r: StrRef) -> Seq<u8> {
    u32_bytes(r.offset) + u32_bytes(r.len)
}

/// The bytes of the package section.
pub open spec fn package_bytes(p: PackageSection) -> Seq<u8> {
    ref_bytes(p.name) + ref_bytes(p.version) + ref_bytes(p.license)
}

/// The records of a dependency table, without its count.
pub open spec fn dep_refs_bytes(rs: Seq<DepRef>) -> Seq<u8>
    decreases rs.len(),
{
    if rs.len() == 0 {
        Seq::empty()
    } else {
        dep_refs_bytes(rs.drop_last()) + ref_bytes(rs.last().name) + ref_bytes(
            rs.last().version_req,
        )
    }
}

/// The bytes of the signature sections, in order.
pub open spec fn sigs_bytes(ss: Seq<SigRecord>) -> Seq<u8>
    decreases ss.len(),
{
    if ss.len() == 0 {
        Seq::empty()
    } else {
        sigs_bytes(ss.drop_last()) + u32_bytes(ss.last().der@.len() as u32) + u32_bytes(
            ss.last().sig_type,
        ) + ss.last().der@
    }
}

/// The index entries of the signature sections, the first at `start`.
pub open spec fn sig_entries(ss: Seq<SigRecord>, start: int) -> Seq<SectionIndexEntry>
    decreases ss.len(),
{
    if ss.len() == 0 {
        Seq::empty()
    } else {
        sig_entries(ss.drop_last(), start).push(
            SectionIndexEntry {
                sh_type: SECTION_SIG_STRUCTURE,
                sh_offset: (start + sigs_bytes(ss.drop_last()).len()) as u32,
                sh_size: (SIG_HEADER_SIZE + ss.last().der@.len()) as u32,
            },
        )
    }
}

/// The twelve bytes of an index entry.
pub open spec fn entry_bytes(e: SectionIndexEntry) -> Seq<u8> {
    u32_bytes(e.sh_type) + u32_bytes(e.sh_offset) + u32_bytes(e.sh_size)
}

/// The bytes of a section index.
pub open spec fn index_bytes(es: Seq<SectionIndexEntry>) -> Seq<u8>
    decreases es.len(),
{
    if es.len() == 0 {
        Seq::empty()
    } else {
        index_bytes(es.drop_last()) + entry_bytes(es.last())
    }
}

/// The bytes of a header.
pub open spec fn header_bytes(h: CrateHeader) -> Seq<u8> {
    u32_bytes(h.strtable_offset) + u32_bytes(h.strtable_size) + u32_bytes(h.sh_offset)
        + u32_bytes(h.sh_size) + u32_bytes(h.sh_num) + u32_bytes(h.ds_offset) + u32_bytes(
        h.ds_size,
    )
}

impl PackageContext {
    /// The bytes of the data sections: package, dependency table, archive, signatures.
    pub open spec fn data_bytes(self) -> Seq<u8> {
        package_bytes(package_refs_of(self.pack_info)) + u32_bytes(self.dep_infos@.len() as u32)
            + dep_refs_bytes(dep_refs_of(self.dep_infos@, strings_of(self.pack_info, seq![]).len() as int))
            + self.crate_binary.bytes@ + sigs_bytes(self.sigs@)
    }

    /// The length of the string table.
    pub open spec fn strtable_len(self) -> int {
        strings_of(self.pack_info, self.dep_infos@).len() as int
    }

    /// Where the section index starts.
    pub open spec fn sh_offset(self) -> int {
        HEADER_END + self.strtable_len()
    }

    /// Where the data sections start.
    pub open spec fn ds_offset(self) -> int {
        self.sh_offset() + ENTRY_SIZE * (3 + self.sigs@.len())
    }

    /// Where the dependency table starts.
    pub open spec fn dep_table_offset(self) -> int {
        self.ds_offset() + PACKAGE_SECTION_SIZE
    }

    /// Where the archive starts.
    pub open spec fn crate_binary_offset(self) -> int {
        self.dep_table_offset() + 4 + DEP_REF_SIZE * self.dep_infos@.len()
    }

    /// Where the first signature section starts.
    pub open spec fn sigs_offset(self) -> int {
        self.crate_binary_offset() + self.crate_binary.bytes@.len()
    }

    /// The section index: package, dependency table, archive, then one entry per signature.
    pub open spec fn entries(self) -> Seq<SectionIndexEntry> {
        seq![
            SectionIndexEntry {
                sh_type: SECTION_PACKAGE,
                sh_offset: self.ds_offset() as u32,
                sh_size: PACKAGE_SECTION_SIZE as u32,
            },
            SectionIndexEntry {
                sh_type: SECTION_DEP_TABLE,
                sh_offset: self.dep_table_offset() as u32,
                sh_size: (4 + DEP_REF_SIZE * self.dep_infos@.len()) as u32,
            },
            SectionIndexEntry {
                sh_type: SECTION_CRATE_BINARY,
                sh_offset: self.crate_binary_offset() as u32,
                sh_size: self.crate_binary.bytes@.len() as u32,
            },
        ] + sig_entries(self.sigs@, self.sigs_offset())
    }

    /// The header of the encoded file.
    pub open spec fn header(self) -> CrateHeader {
        CrateHeader {
            strtable_offset: HEADER_END as u32,
            strtable_size: self.strtable_len() as u32,
            sh_offset: self.sh_offset() as u32,
            sh_size: (ENTRY_SIZE * (3 + self.sigs@.len())) as u32,
            sh_num: (3 + self.sigs@.len()) as u32,
            ds_offset: self.ds_offset() as u32,
            ds_size: self.data_bytes().len() as u32,
        }
    }

    /// The file up to its fingerprint.
    #[verifier::opaque]
    pub open spec fn body(self) -> Seq<u8> {
        magic() + header_bytes(self.header()) + strings_of(self.pack_info, self.dep_infos@)
            + index_bytes(self.entries()) + self.data_bytes()
    }

    /// The encoded file: the body, then its SHA-256 digest.
    pub open spec fn encoding(self) -> Seq<u8> {
        self.body() + sha256_of(self.body())
    }

    /// The encoded file is short enough for its 32-bit offsets.
    pub open spec fn fits(self) -> bool {
        self.body().len() <= u32::MAX
    }
}

/// One reference per dependency record.
pub proof fn lemma_dep_refs_len(ds: Seq<DepInfo>, base: int)
    ensures
        dep_refs_of(ds, base).len() == ds.len(),
    decreases ds.len(),
{
    if ds.len() > 0 {
        lemma_dep_refs_len(ds.drop_last(), base);
    }
}

/// Sixteen bytes per dependency record.
pub proof fn lemma_dep_refs_bytes_len(rs: Seq<DepRef>)
    ensures
        dep_refs_bytes(rs).len() == DEP_REF_SIZE * rs.len(),
    decreases rs.len(),
{
    if rs.len() > 0 {
        lemma_dep_refs_bytes_len(rs.drop_last());
    }
}

/// Appends the SHA-256 digest of everything before it.
fn append_fingerprint(out: &mut Vec<u8>)
    ensures
        final(out)@ == old(out)@ + sha256_of(old(out)@),
        final(out)@.len() == old(out)@.len() + FINGERPRINT_LEN,
        fingerprint_ok(final(out)@),
{
    let fp = sha256(out.as_slice());
    let ghost body = out@;
    push_bytes(out, fp.as_slice());
    assert(fingerprinted(out@) =~= body);
    assert(stored_fingerprint(out@) =~= fp@);
}

/// Appends the bytes of a reference.
fn push_ref(out: &mut Vec<u8>, r: StrRef)
    ensures
        final(out)@ == old(out)@ + ref_bytes(r),
{
    push_u32(out, r.offset);
    push_u32(out, r.len);
    assert(final(out)@ =~= old(out)@ + ref_bytes(r));
}

/// Appends the bytes of a header.
fn push_header(out: &mut Vec<u8>, h: &CrateHeader)
    ensures
        final(out)@ == old(out)@ + header_bytes(*h),
{
    let ghost start = out@;
    push_u32(out, h.strtable_offset);
    push_u32(out, h.strtable_size);
    push_u32(out, h.sh_offset);
    push_u32(out, h.sh_size);
    push_u32(out, h.sh_num);
    push_u32(out, h.ds_offset);
    push_u32(out, h.ds_size);
    assert(out@ =~= start + header_bytes(*h));
}

/// Appends the bytes of a section index.
fn push_entries(out: &mut Vec<u8>, es: &Vec<SectionIndexEntry>)
    ensures
        final(out)@ == old(out)@ + index_bytes(es@),
{
    let ghost start = out@;
    let mut i: usize = 0;
    while i < es.len()
        invariant
            i <= es@.len(),
            out@ == start + index_bytes(es@.take(i as int)),
        decreases es@.len() - i,
    {
        let e = es[i];
        let ghost before = out@;
        push_u32(out, e.sh_type);
        push_u32(out, e.sh_offset);
        push_u32(out, e.sh_size);
        assert(es@.take(i + 1).drop_last() =~= es@.take(i as int));
        i += 1;
        assert(out@ =~= start + index_bytes(es@.take(i as int)));
    }
    assert(es@.take(es@.len() as int) =~= es@);
}

/// Appends the records of a dependency table.
fn push_dep_refs(out: &mut Vec<u8>, rs: &Vec<DepRef>)
    ensures
        final(out)@ == old(out)@ + dep_refs_bytes(rs@),
{
    let ghost start = out@;
    let mut i: usize = 0;
    while i < rs.len()
        invariant
            i <= rs@.len(),
            out@ == start + dep_refs_bytes(rs@.take(i as int)),
        decreases rs@.len() - i,
    {
        let r = rs[i];
        push_ref(out, r.name);
        push_ref(out, r.version_req);
        assert(rs@.take(i + 1).drop_last() =~= rs@.take(i as int));
        i += 1;
        assert(out@ =~= start + dep_refs_bytes(rs@.take(i as int)));
    }
    assert(rs@.take(rs@.len() as int) =~= rs@);
}

impl PackageContext {
    /// The string table, and the references of the dependency records into it.
    pub(crate) fn build_strings(&self) -> (r: (Vec<u8>, Vec<DepRef>))
        ensures
            r.0@ == strings_of(self.pack_info, self.dep_infos@),
            r.1@ == dep_refs_of(
                self.dep_infos@,
                strings_of(self.pack_info, seq![]).len() as int,
            ),
    {
        let mut st: Vec<u8> = Vec::new();
        push_bytes(&mut st, self.pack_info.name.as_slice());
        push_bytes(&mut st, self.pack_info.version.as_slice());
        push_bytes(&mut st, self.pack_info.license.as_slice());
        let ghost base = st@.len() as int;
        let ghost prefix = st@;
        assert(deps_strings(seq![]) =~= Seq::<u8>::empty());
        assert(strings_of(self.pack_info, seq![]) =~= prefix);
        let mut refs: Vec<DepRef> = Vec::new();
        let mut i: usize = 0;
        while i < self.dep_infos.len()
            invariant
                i <= self.dep_infos@.len(),
                base == strings_of(self.pack_info, seq![]).len(),
                prefix == self.pack_info.name@ + self.pack_info.version@ + self.pack_info.license@,
                prefix.len() == base,
                st@ == prefix + deps_strings(self.dep_infos@.take(i as int)),
                refs@ == dep_refs_of(self.dep_infos@.take(i as int), base),
            decreases self.dep_infos@.len() - i,
        {
            let d = &self.dep_infos[i];
            let ghost ds = self.dep_infos@.take(i + 1);
            assert(ds.drop_last() =~= self.dep_infos@.take(i as int));
            assert(ds.last() == *d);
            let name_ref = StrRef { offset: st.len() as u32, len: d.name.len() as u32 };
            push_bytes(&mut st, d.name.as_slice());
            let ver_ref = StrRef { offset: st.len() as u32, len: d.version_req.len() as u32 };
            push_bytes(&mut st, d.version_req.as_slice());
            refs.push(DepRef { name: name_ref, version_req: ver_ref });
            i += 1;
            assert(st@ =~= prefix + deps_strings(self.dep_infos@.take(i as int)));
            assert(refs@ =~= dep_refs_of(self.dep_infos@.take(i as int), base));
        }
        assert(self.dep_infos@.take(self.dep_infos@.len() as int) =~= self.dep_infos@);
        (st, refs)
    }

    /// The bytes of the signature sections, and their index entries when the first starts at `start`.
    fn build_sigs(&self, start: u128) -> (r: (Vec<u8>, Vec<SectionIndexEntry>))
        requires
            start < 0x1_0000_0000_0000_0000_0000,
        ensures
            r.0@ == sigs_bytes(self.sigs@),
            r.1@ == sig_entries(self.sigs@, start as int),
    {
        let mut sb: Vec<u8> = Vec::new();
        let mut es: Vec<SectionIndexEntry> = Vec::new();
        let mut i: usize = 0;
        while i < self.sigs.len()
            invariant
                i <= self.sigs@.len(),
                start < 0x1_0000_0000_0000_0000_0000,
                sb@ == sigs_bytes(self.sigs@.take(i as int)),
                es@ == sig_entries(self.sigs@.take(i as int), start as int),
            decreases self.sigs@.len() - i,
        {
            let sig = &self.sigs[i];
            let ghost ss = self.sigs@.take(i + 1);
            assert(ss.drop_last() =~= self.sigs@.take(i as int));
            assert(ss.last() == *sig);
            let e = SectionIndexEntry {
                sh_type: SECTION_SIG_STRUCTURE,
                sh_offset: (start + sb.len() as u128) as u32,
                sh_size: (SIG_HEADER_SIZE as u128 + sig.der.len() as u128) as u32,
            };
            es.push(e);
            push_u32(&mut sb, sig.der.len() as u32);
            push_u32(&mut sb, sig.sig_type);
            push_bytes(&mut sb, sig.der.as_slice());
            i += 1;
            assert(sb@ =~= sigs_bytes(self.sigs@.take(i as int)));
            assert(es@ =~= sig_entries(self.sigs@.take(i as int), start as int));
        }
        assert(self.sigs@.take(self.sigs@.len() as int) =~= self.sigs@);
        (sb, es)
    }
}

impl PackageContext {
    /// Appends the data sections, given the dependency references and the signature sections.
    fn push_data(&self, out: &mut Vec<u8>, refs: &Vec<DepRef>, sb: &Vec<u8>)
        requires
            refs@ == dep_refs_of(self.dep_infos@, strings_of(self.pack_info, seq![]).len() as int),
            sb@ == sigs_bytes(self.sigs@),
        ensures
            final(out)@ == old(out)@ + self.data_bytes(),
    {
        let ghost start = out@;
        let pkg = PackageSection {
            name: StrRef { offset: 0, len: self.pack_info.name.len() as u32 },
            version: StrRef {
                offset: self.pack_info.name.len() as u32,
                len: self.pack_info.version.len() as u32,
            },
            license: StrRef {
                offset: (self.pack_info.name.len() as u128 + self.pack_info.version.len() as u128) as u32,
                len: self.pack_info.license.len() as u32,
            },
        };
        assert(pkg == package_refs_of(self.pack_info));
        push_ref(out, pkg.name);
        push_ref(out, pkg.version);
        push_ref(out, pkg.license);
        push_u32(out, self.dep_infos.len() as u32);
        push_dep_refs(out, refs);
        push_bytes(out, self.crate_binary.bytes.as_slice());
        push_bytes(out, sb.as_slice());
        assert(out@ =~= start + self.data_bytes());
    }

    /// The file up to its fingerprint.
    #[verifier::rlimit(40)]
    fn encode_body(&self) -> (r: Vec<u8>)
        ensures
            r@ == self.body(),
    {
        let (st, refs) = self.build_strings();
        let m = self.sigs.len() as u128;
        let n = self.dep_infos.len() as u128;
        let bin_len = self.crate_binary.bytes.len() as u128;
        let sh_offset = HEADER_END as u128 + st.len() as u128;
        let ds_offset = sh_offset + 12 * (3 + m);
        let dep_offset = ds_offset + PACKAGE_SECTION_SIZE as u128;
        let cb_offset = dep_offset + 4 + 16 * n;
        let sigs_offset = cb_offset + bin_len;
        let (sb, sig_es) = self.build_sigs(sigs_offset);
        let ds_size = sigs_offset - ds_offset + sb.len() as u128;
        let h = CrateHeader {
            strtable_offset: HEADER_END as u32,
            strtable_size: st.len() as u32,
            sh_offset: sh_offset as u32,
            sh_size: (12 * (3 + m)) as u32,
            sh_num: (3 + m) as u32,
            ds_offset: ds_offset as u32,
            ds_size: ds_size as u32,
        };
        let mut es: Vec<SectionIndexEntry> = Vec::new();
        es.push(
            SectionIndexEntry {
                sh_type: SECTION_PACKAGE,
                sh_offset: ds_offset as u32,
                sh_size: PACKAGE_SECTION_SIZE as u32,
            },
        );
        es.push(
            SectionIndexEntry {
                sh_type: SECTION_DEP_TABLE,
                sh_offset: dep_offset as u32,
                sh_size: (4 + 16 * n) as u32,
            },
        );
        es.push(
            SectionIndexEntry {
                sh_type: SECTION_CRATE_BINARY,
                sh_offset: cb_offset as u32,
                sh_size: bin_len as u32,
            },
        );
        let ghost first = es@;
        let mut j: usize = 0;
        while j < sig_es.len()
            invariant
                j <= sig_es@.len(),
                es@ == first + sig_es@.take(j as int),
            decreases sig_es@.len() - j,
        {
            es.push(sig_es[j]);
            j += 1;
            assert(es@ =~= first + sig_es@.take(j as int));
        }
        assert(sig_es@.take(sig_es@.len() as int) =~= sig_es@);
        proof {
            lemma_dep_refs_len(self.dep_infos@, strings_of(self.pack_info, seq![]).len() as int);
            lemma_dep_refs_bytes_len(refs@);
            assert(self.data_bytes().len() == PACKAGE_SECTION_SIZE + 4 + DEP_REF_SIZE
                * self.dep_infos@.len() + self.crate_binary.bytes@.len() + sb@.len());
        }
        assert(es@ =~= self.entries());
        assert(h == self.header());
        let mut out: Vec<u8> = Vec::new();
        out.push(0x53u8);
        out.push(0x43u8);
        out.push(0x52u8);
        out.push(0x54u8);
        assert(out@ =~= magic());
        push_header(&mut out, &h);
        push_bytes(&mut out, st.as_slice());
        push_entries(&mut out, &es);
        self.push_data(&mut out, &refs, &sb);
        reveal(PackageContext::body);
        assert(out@ =~= self.body());
        out
    }

    /// Serializes the context: header, string table, section index, the data
    /// sections in the order package, dependency table, archive, signatures, and
    /// the fingerprint. Fails only where the file would not fit 32-bit offsets.
    pub fn encode_to_crate_package(&self) -> (r: Result<Vec<u8>, EncodeError>)
        ensures
            r is Ok <==> self.fits(),
            r matches Ok(v) ==> v@ == self.encoding(),
            r matches Ok(v) ==> fingerprint_ok(v@),
            r matches Ok(v) ==> v@.len() == self.body().len() + FINGERPRINT_LEN,
    {
        let mut out = self.encode_body();
        if out.len() > 0xffff_ffff {
            return Err(EncodeError::TooLarge);
        }
        let ghost body = out@;
        append_fingerprint(&mut out);
        assert(out@.len() == body.len() + FINGERPRINT_LEN);
        assert(body == self.body());
        Ok(out)
    }
}

/// The string that a reference names in the string table `st`.
pub open spec fn resolve(st: Seq<u8>, r: StrRef) -> Seq<u8> {
    st.subrange(r.offset as int, r.offset + r.len)
}

/// The index lists the package, the dependency table and the archive, then signatures only.
pub open spec fn entries_shaped(es: Seq<SectionIndexEntry>) -> bool {
    &&& es.len() >= 3
    &&& es[0].sh_type == SECTION_PACKAGE
    &&& es[1].sh_type == SECTION_DEP_TABLE
    &&& es[2].sh_type == SECTION_CRATE_BINARY
    &&& forall|i: int| 3 <= i < es.len() ==> #[trigger] es[i].sh_type == SECTION_SIG_STRUCTURE
}

/// The SignedData bytes of the signature section that `e` points at.
pub open spec fn sig_der(s: Seq<u8>, e: SectionIndexEntry) -> Seq<u8> {
    s.subrange(e.sh_offset + SIG_HEADER_SIZE, e.sh_offset + e.sh_size)
}

/// Every signature section of the file holds a SignedData that decodes.
pub open spec fn sigs_parse(s: Seq<u8>) -> bool {
    let es = entries_of(s, header_of(s));
    forall|i: int| 3 <= i < es.len() ==> #[trigger] signed_data_parses(sig_der(s, es[i]))
}

/// The fields of `c` are what the sections of `p` hold, strings resolved in its string table.
pub open spec fn context_matches(c: PackageContext, p: CratePackage) -> bool {
    let st = p.string_table@;
    let col = p.data_sections.col@;
    &&& col.len() >= 3
    &&& match col[0] {
        DataSection::PackageSection(ps) => {
            &&& c.pack_info.name@ == resolve(st, ps.name)
            &&& c.pack_info.version@ == resolve(st, ps.version)
            &&& c.pack_info.license@ == resolve(st, ps.license)
        },
        _ => false,
    }
    &&& match col[1] {
        DataSection::DepTableSection(dt) => {
            &&& c.dep_infos@.len() == dt.deps@.len()
            &&& forall|k: int|
                0 <= k < dt.deps@.len() ==> {
                    &&& (#[trigger] c.dep_infos@[k]).name@ == resolve(st, dt.deps@[k].name)
                    &&& c.dep_infos@[k].version_req@ == resolve(st, dt.deps@[k].version_req)
                }
        },
        _ => false,
    }
    &&& match col[2] {
        DataSection::CrateBinarySection(cb) => c.crate_binary.bytes@ == cb.bin@,
        _ => false,
    }
    &&& c.sigs@.len() == col.len() - 3
    &&& forall|k: int|
        0 <= k < c.sigs@.len() ==> match #[trigger] col[k + 3] {
            DataSection::SigStructureSection(ss) => {
                &&& c.sigs@[k].sig_type == ss.sigstruct_type
                &&& c.sigs@[k].der@ == ss.sigstruct_sig@
            },
            _ => false,
        }
}

/// The decoded sections are the package, the dependency table and the archive, then signatures only.
pub open spec fn sections_shaped(col: Seq<DataSection>) -> bool {
    &&& col.len() >= 3
    &&& col[0] is PackageSection
    &&& col[1] is DepTableSection
    &&& col[2] is CrateBinarySection
    &&& forall|i: int| 3 <= i < col.len() ==> #[trigger] col[i] is SigStructureSection
}

/// The SignedData bytes of a decoded section, empty for any other kind.
pub open spec fn section_der(d: DataSection) -> Seq<u8> {
    match d {
        DataSection::SigStructureSection(ss) => ss.sigstruct_sig@,
        _ => Seq::empty(),
    }
}

/// Where every section matches its entry, the sections are shaped exactly when the entries are,
/// and each signature section holds the SignedData bytes its entry points at.
proof fn lemma_shape(s: Seq<u8>, es: Seq<SectionIndexEntry>, col: Seq<DataSection>)
    requires
        es.len() == col.len(),
        forall|i: int| 0 <= i < es.len() ==> #[trigger] section_matches(s, es[i], col[i]),
    ensures
        sections_shaped(col) == entries_shaped(es),
        sections_shaped(col) ==> forall|i: int|
            3 <= i < es.len() ==> #[trigger] section_der(col[i]) == sig_der(s, es[i]),
{
    if es.len() >= 3 {
        assert(section_matches(s, es[0], col[0]));
        assert(section_matches(s, es[1], col[1]));
        assert(section_matches(s, es[2], col[2]));
    }
    if sections_shaped(col) {
        assert forall|i: int| 3 <= i < es.len() implies #[trigger] es[i].sh_type == SECTION_SIG_STRUCTURE by {
            assert(section_matches(s, es[i], col[i]));
            assert(col[i] is SigStructureSection);
        }
        assert forall|i: int| 3 <= i < es.len() implies #[trigger] section_der(col[i]) == sig_der(s, es[i]) by {
            assert(section_matches(s, es[i], col[i]));
            assert(col[i] is SigStructureSection);
        }
    }
    if entries_shaped(es) {
        assert forall|i: int| 3 <= i < col.len() implies #[trigger] col[i] is SigStructureSection by {
            assert(section_matches(s, es[i], col[i]));
            assert(es[i].sh_type == SECTION_SIG_STRUCTURE);
        }
    }
}

/// Whether the decoded sections are shaped.
fn check_shape(col: &Vec<DataSection>) -> (r: bool)
    ensures
        r == sections_shaped(col@),
{
    let n = col.len();
    if n < 3 {
        return false;
    }
    let head = match (&col[0], &col[1], &col[2]) {
        (
            DataSection::PackageSection(_),
            DataSection::DepTableSection(_),
            DataSection::CrateBinarySection(_),
        ) => true,
        _ => false,
    };
    if !head {
        return false;
    }
    let mut k: usize = 3;
    while k < n
        invariant
            3 <= k <= n,
            n == col@.len(),
            forall|i: int| 3 <= i < k ==> #[trigger] col@[i] is SigStructureSection,
        decreases n - k,
    {
        match &col[k] {
            DataSection::SigStructureSection(_) => {},
            _ => {
                return false;
            },
        }
        k += 1;
    }
    true
}

/// The signature records of shaped sections.
fn collect_sigs(col: &Vec<DataSection>) -> (v: Vec<SigRecord>)
    requires
        sections_shaped(col@),
    ensures
        v@.len() == col@.len() - 3 && forall|j: int|
            0 <= j < v@.len() ==> match #[trigger] col@[j + 3] {
                DataSection::SigStructureSection(ss) => {
                    &&& v@[j].sig_type == ss.sigstruct_type
                    &&& v@[j].der@ == ss.sigstruct_sig@
                },
                _ => false,
            },
{
    let n = col.len();
    let mut sigs: Vec<SigRecord> = Vec::new();
    let mut k: usize = 3;
    while k < n
        invariant
            3 <= k <= n,
            n == col@.len(),
            sections_shaped(col@),
            sigs@.len() == k - 3,
            forall|j: int|
                0 <= j < sigs@.len() ==> match #[trigger] col@[j + 3] {
                    DataSection::SigStructureSection(ss) => {
                        &&& sigs@[j].sig_type == ss.sigstruct_type
                        &&& sigs@[j].der@ == ss.sigstruct_sig@
                    },
                    _ => false,
                },
        decreases n - k,
    {
        assert(col@[k as int] is SigStructureSection);
        match &col[k] {
            DataSection::SigStructureSection(ss) => {
                let der = copy_range(ss.sigstruct_sig.as_slice(), 0, ss.sigstruct_sig.len());
                assert(ss.sigstruct_sig@.subrange(0, ss.sigstruct_sig@.len() as int) =~= ss.sigstruct_sig@);
                sigs.push(SigRecord { sig_type: ss.sigstruct_type, der });
                assert(col@[(sigs@.len() - 1) + 3] == col@[k as int]);
            },
            _ => {},
        }
        k += 1;
    }
    sigs
}

/// What is wrong with signature section `i` of the file, given the verdicts on
/// its signatures: first its own bytes and digest, then the verdict.
pub open spec fn full_sig_fault(s: Seq<u8>, vs: Seq<ChainVerdict>, i: int) -> Option<SignatureKind> {
    let es = entries_of(s, header_of(s));
    match sig_fault(s, es[2], es[i]) {
        Some(k) => Some(k),
        None => verdict_fault(verdict_at(vs, i - 3)),
    }
}

/// Every signature section of the file holds a SignedData that decodes, has a
/// known SIGTYPE, attests the SHA-256 digest of the range it covers, and has a
/// `Trusted` verdict.
pub open spec fn sigs_verified(s: Seq<u8>, vs: Seq<ChainVerdict>) -> bool {
    let es = entries_of(s, header_of(s));
    forall|i: int| 3 <= i < es.len() ==> (#[trigger] full_sig_fault(s, vs, i)) is None
}

/// The first signature section of the file that fails, with why.
pub open spec fn first_sig_fault(s: Seq<u8>, vs: Seq<ChainVerdict>, i: int, k: SignatureKind) -> bool {
    let es = entries_of(s, header_of(s));
    &&& 3 <= i < es.len()
    &&& full_sig_fault(s, vs, i) == Some(k)
    &&& forall|j: int| 3 <= j < i ==> (#[trigger] full_sig_fault(s, vs, j)) is None
}

/// Checks every signature section in order; `verdicts[k]` is the verdict on signature `k`.
fn verify_signatures(bin: &[u8], es: &Vec<SectionIndexEntry>, verdicts: &Vec<ChainVerdict>) -> (r: Result<(), (usize, SignatureKind)>)
    requires
        structure_ok(bin@),
        entries_shaped(es@),
        es@ == entries_of(bin@, header_of(bin@)),
    ensures
        r is Ok <==> sigs_verified(bin@, verdicts@),
        r matches Err(f) ==> first_sig_fault(bin@, verdicts@, f.0 as int, f.1),
{
    let ghost s = bin@;
    let ghost h = header_of(s);
    let n = es.len();
    assert(crate::layout::entry_placed(es@, h, 2));
    let mut i: usize = 3;
    while i < n
        invariant
            3 <= i <= n,
            n == es@.len(),
            structure_ok(s),
            s == bin@,
            h == header_of(s),
            entries_shaped(es@),
            es@ == entries_of(s, h),
            es@[2].sh_offset + es@[2].sh_size <= s.len(),
            forall|j: int| 3 <= j < i ==> (#[trigger] full_sig_fault(s, verdicts@, j)) is None,
        decreases n - i,
    {
        assert(crate::layout::entry_placed(es@, h, i as int));
        assert(section_ok(s, es@[i as int], h.strtable_size as int));
        assert(es@[i as int].sh_type == SECTION_SIG_STRUCTURE);
        match check_signature(bin, es[2], es[i]) {
            Ok(()) => {},
            Err(k) => {
                assert(full_sig_fault(s, verdicts@, i as int) == Some(k));
                return Err((i, k));
            },
        }
        let v = if i - 3 < verdicts.len() {
            verdicts[i - 3]
        } else {
            ChainVerdict::UnknownIssuer
        };
        match verdict_kind(v) {
            None => {},
            Some(k) => {
                assert(full_sig_fault(s, verdicts@, i as int) == Some(k));
                return Err((i, k));
            },
        }
        assert(full_sig_fault(s, verdicts@, i as int) is None);
        i += 1;
    }
    Ok(())
}

/// The dependency records that the references name in the string table `st`.
fn resolve_deps(st: &[u8], deps: &Vec<DepRef>) -> (r: Vec<DepInfo>)
    requires
        forall|i: int| 0 <= i < deps@.len() ==> #[trigger] dep_in(deps@[i], st@.len() as int),
    ensures
        r@.len() == deps@.len(),
        forall|i: int|
            0 <= i < deps@.len() ==> {
                &&& (#[trigger] r@[i]).name@ == resolve(st@, deps@[i].name)
                &&& r@[i].version_req@ == resolve(st@, deps@[i].version_req)
            },
{
    let mut out: Vec<DepInfo> = Vec::new();
    let mut j: usize = 0;
    while j < deps.len()
        invariant
            j <= deps@.len(),
            forall|i: int| 0 <= i < deps@.len() ==> #[trigger] dep_in(deps@[i], st@.len() as int),
            out@.len() == j,
            forall|i: int|
                0 <= i < j ==> {
                    &&& (#[trigger] out@[i]).name@ == resolve(st@, deps@[i].name)
                    &&& out@[i].version_req@ == resolve(st@, deps@[i].version_req)
                },
        decreases deps@.len() - j,
    {
        let d = deps[j];
        assert(dep_in(deps@[j as int], st@.len() as int));
        out.push(
            DepInfo {
                name: copy_range(st, d.name.offset as usize, d.name.len as usize),
                version_req: copy_range(st, d.version_req.offset as usize, d.version_req.len as usize),
            },
        );
        j += 1;
    }
    out
}

impl PackageContext {
    /// Reads and checks a package file. Its index must list the package, dependency
    /// table and archive sections, then signature sections only, the order in which
    /// the layout policy places them; any other order is `LayoutInvariant`. The
    /// structure is checked first, then the signatures, then the fingerprint, so a
    /// changed signed byte is reported against the section it belongs to. Each
    /// signature section must hold a SignedData
    /// that attests the digest of the range it covers, and `verdicts[k]`, what a
    /// path and signature verifier reported for signature `k` against the trust
    /// anchors, must be `Trusted`. On success the metadata, dependency records,
    /// archive bytes and signatures of the context are replaced by the file's, and
    /// the decoded package is returned; on failure the context is left as it was.
    #[verifier::rlimit(50)]
    pub fn decode_from_crate_package(&mut self, bin: &[u8], verdicts: &Vec<ChainVerdict>) -> (r: Result<CratePackage, DecodeError>)
        ensures
            r is Ok <==> {
                &&& structure_ok(bin@)
                &&& entries_shaped(entries_of(bin@, header_of(bin@)))
                &&& (header_of(bin@).sh_num > 3 ==> old(self).root_cas@.len() > 0)
                &&& sigs_verified(bin@, verdicts@)
                &&& fingerprint_ok(bin@)
            },
            r matches Ok(p) ==> {
                &&& package_matches(bin@, p)
                &&& context_matches(*final(self), p)
                &&& final(self).root_cas == old(self).root_cas
            },
            r is Err ==> *final(self) == *old(self),
            r matches Err(e) ==> (e == DecodeError::IoTruncated || e == DecodeError::BadMagic
                || e == DecodeError::FingerprintMismatch) ==> !file_ok(bin@),
            r == Err::<CratePackage, DecodeError>(DecodeError::FingerprintMismatch) <==> (structure_ok(bin@) && entries_shaped(entries_of(bin@, header_of(bin@))) && (header_of(bin@).sh_num > 3 ==> old(self).root_cas@.len() > 0) && sigs_verified(bin@, verdicts@) && !fingerprint_ok(bin@)),
            r == Err::<CratePackage, DecodeError>(DecodeError::NoTrustAnchors) <==> (structure_ok(bin@)
                && entries_shaped(entries_of(bin@, header_of(bin@))) && header_of(bin@).sh_num > 3
                && old(self).root_cas@.len() == 0),
            r matches Err(DecodeError::Signature { section, signature, kind }) ==> section as int == named_section(bin@, entries_of(bin@, header_of(bin@))[signature as int], signature as int) && first_sig_fault(
                bin@,
                verdicts@,
                signature as int,
                kind,
            ),
            (structure_ok(bin@) && entries_shaped(entries_of(bin@, header_of(bin@))) && (header_of(
                bin@,
            ).sh_num > 3 ==> old(self).root_cas@.len() > 0) && !sigs_verified(bin@, verdicts@)) ==> r matches Err(
                DecodeError::Signature { .. },
            ),
    {
        let pkg = match CratePackage::decode_structure(bin) {
            Ok(p) => p,
            Err(e) => {
                return Err(e);
            },
        };
        let ghost s = bin@;
        let ghost h = header_of(s);
        let ghost es = entries_of(s, h);
        proof {
            lemma_shape(s, es, pkg.data_sections.col@);
        }
        if !check_shape(&pkg.data_sections.col) {
            return Err(DecodeError::LayoutInvariant);
        }
        if pkg.data_sections.col.len() > 3 && self.root_cas.len() == 0 {
            return Err(DecodeError::NoTrustAnchors);
        }
        match verify_signatures(bin, &pkg.section_index.entries, verdicts) {
            Ok(()) => {},
            Err(f) => {
                let e = pkg.section_index.entries[f.0];
                assert(crate::layout::entry_placed(es, h, f.0 as int));
                assert(section_ok(s, es[f.0 as int], h.strtable_size as int));
                assert(es[f.0 as int].sh_type == SECTION_SIG_STRUCTURE);
                let section = covered_section(bin, e, f.0);
                return Err(DecodeError::Signature { section, signature: f.0, kind: f.1 });
            },
        }
        if !check_fingerprint(bin) {
            return Err(DecodeError::FingerprintMismatch);
        }
        let sigs = collect_sigs(&pkg.data_sections.col);
        let st = pkg.string_table.as_slice();
        assert(section_ok(s, es[0], h.strtable_size as int));
        assert(section_ok(s, es[1], h.strtable_size as int));
        assert(section_matches(s, es[0], pkg.data_sections.col@[0]));
        assert(section_matches(s, es[1], pkg.data_sections.col@[1]));
        let (pack_info, dep_infos, crate_binary) = match (
            &pkg.data_sections.col[0],
            &pkg.data_sections.col[1],
            &pkg.data_sections.col[2],
        ) {
            (
                DataSection::PackageSection(ps),
                DataSection::DepTableSection(dt),
                DataSection::CrateBinarySection(cb),
            ) => {
                assert forall|i: int| 0 <= i < dt.deps@.len() implies #[trigger] dep_in(dt.deps@[i], st@.len() as int) by {
                    assert(dep_in(crate::section::dep_at(s, es[1].sh_offset as int, i), h.strtable_size as int));
                }
                let pack_info = PackageInfo {
                    name: copy_range(st, ps.name.offset as usize, ps.name.len as usize),
                    version: copy_range(st, ps.version.offset as usize, ps.version.len as usize),
                    license: copy_range(st, ps.license.offset as usize, ps.license.len as usize),
                };
                let dep_infos = resolve_deps(st, &dt.deps);
                let bytes = copy_range(cb.bin.as_slice(), 0, cb.bin.len());
                assert(cb.bin@.subrange(0, cb.bin@.len() as int) =~= cb.bin@);
                (pack_info, dep_infos, CrateBinary { bytes })
            },
            _ => {
                return Err(DecodeError::LayoutInvariant);
            },
        };
        self.pack_info = pack_info;
        self.dep_infos = dep_infos;
        self.crate_binary = crate_binary;
        self.sigs = sigs;
        Ok(pkg)
    }
}

impl PackageContext {
    /// An empty context: empty metadata, no dependencies, no archive bytes,
    /// no signatures and no trust anchors.
    pub fn new() -> (r: PackageContext)
        ensures
            r.pack_info.name@.len() == 0,
            r.pack_info.version@.len() == 0,
            r.pack_info.license@.len() == 0,
            r.dep_infos@.len() == 0,
            r.crate_binary.bytes@.len() == 0,
            r.sigs@.len() == 0,
            r.root_cas@.len() == 0,
    {
        PackageContext {
            pack_info: PackageInfo { name: Vec::new(), version: Vec::new(), license: Vec::new() },
            dep_infos: Vec::new(),
            crate_binary: CrateBinary { bytes: Vec::new() },
            sigs: Vec::new(),
            root_cas: Vec::new(),
        }
    }

    /// Replaces the trust anchors.
    pub fn set_root_cas_bin(&mut self, root_cas: Vec<Vec<u8>>)
        ensures
            final(self).root_cas@ == root_cas@,
            final(self).pack_info == old(self).pack_info,
            final(self).dep_infos == old(self).dep_infos,
            final(self).crate_binary == old(self).crate_binary,
            final(self).sigs == old(self).sigs,
    {
        self.root_cas = root_cas;
    }

    /// Replaces the metadata and the dependency records.
    pub fn ingest_metadata(&mut self, pack_info: PackageInfo, dep_infos: Vec<DepInfo>)
        ensures
            final(self).pack_info == pack_info,
            final(self).dep_infos == dep_infos,
            final(self).crate_binary == old(self).crate_binary,
            final(self).sigs == old(self).sigs,
            final(self).root_cas == old(self).root_cas,
    {
        self.pack_info = pack_info;
        self.dep_infos = dep_infos;
    }

    /// Replaces the archive bytes.
    pub fn ingest_crate_binary(&mut self, bytes: Vec<u8>)
        ensures
            final(self).crate_binary.bytes == bytes,
            final(self).pack_info == old(self).pack_info,
            final(self).dep_infos == old(self).dep_infos,
            final(self).sigs == old(self).sigs,
            final(self).root_cas == old(self).root_cas,
    {
        self.crate_binary = CrateBinary { bytes };
    }

    /// Appends a signature; its section follows those added before it.
    pub fn add_sig(&mut self, sig: SigRecord)
        ensures
            final(self).sigs@ == old(self).sigs@.push(sig),
            final(self).pack_info == old(self).pack_info,
            final(self).dep_infos == old(self).dep_infos,
            final(self).crate_binary == old(self).crate_binary,
            final(self).root_cas == old(self).root_cas,
    {
        self.sigs.push(sig);
    }
}

/// The byte range `[start, end)` that signature section `i` of `p` covers: for
/// `SIGTYPE_CRATEBIN` the archive section, for `SIGTYPE_WHOLE` everything before
/// the signature section itself.
pub open spec fn coverage(p: CratePackage, i: int) -> Option<(int, int)> {
    let es = p.section_index.entries@;
    let col = p.data_sections.col@;
    if 3 <= i < es.len() && i < col.len() && es[2].sh_type == SECTION_CRATE_BINARY {
        match col[i] {
            DataSection::SigStructureSection(ss) => if ss.sigstruct_type == SIGTYPE_CRATEBIN {
                Some((es[2].sh_offset as int, es[2].sh_offset + es[2].sh_size))
            } else if ss.sigstruct_type == SIGTYPE_WHOLE {
                Some((0, es[i].sh_offset as int))
            } else {
                None
            },
            _ => None,
        }
    } else {
        None
    }
}

/// The range that signature section `i` covers, or `None` where section `i` is
/// not a signature of a known SIGTYPE in a package laid out as the encoder lays it out.
pub fn signed_range(p: &CratePackage, i: usize) -> (r: Option<(u64, u64)>)
    ensures
        r is Some <==> coverage(*p, i as int) is Some,
        r matches Some(range) ==> coverage(*p, i as int) == Some((range.0 as int, range.1 as int)),
{
    let es = &p.section_index.entries;
    let col = &p.data_sections.col;
    if i < 3 || i >= es.len() || i >= col.len() || es[2].sh_type != SECTION_CRATE_BINARY {
        return None;
    }
    match &col[i] {
        DataSection::SigStructureSection(ss) => {
            if ss.sigstruct_type == SIGTYPE_CRATEBIN {
                let start = es[2].sh_offset as u64;
                let end = start + es[2].sh_size as u64;
                Some((start, end))
            } else if ss.sigstruct_type == SIGTYPE_WHOLE {
                Some((0, es[i].sh_offset as u64))
            } else {
                None
            }
        },
        _ => None,
    }
}

} // verus!
