//! Decoding what the encoder wrote gives back what it was given.
use vstd::prelude::*;
use crate::codec::{u32_at, u32_bytes, lemma_u32_round_trip};
use crate::context::{
    PackageContext, DepInfo, SigRecord, deps_strings, dep_refs_of, dep_refs_bytes, sigs_bytes,
    sig_entries, index_bytes, entry_bytes, ref_bytes,
};
use crate::layout::{
    SectionIndexEntry, CrateHeader, entry_at, header_of, magic, ENTRY_SIZE, HEADER_END,
    SECTION_SIG_STRUCTURE,
};
use crate::context::{header_bytes, strings_of, package_bytes, package_refs_of};
use crate::layout::{header_layout_ok, entries_of, index_layout_ok, entry_placed, FINGERPRINT_LEN, SECTION_PACKAGE, SECTION_DEP_TABLE, SECTION_CRATE_BINARY};
use crate::section::{PACKAGE_SECTION_SIZE, dep_at, dep_count_at, section_ok, section_matches, dep_in, DataSection};
use crate::package::{CratePackage, file_ok, fingerprinted, stored_fingerprint, package_matches};
use crate::context::{entries_shaped, sigs_parse, sig_der, context_matches, coverage, SIGTYPE_CRATEBIN, SIGTYPE_WHOLE};
use crate::crypto::{sha256_of, signed_data_parses};
use crate::section::{StrRef, DepRef, ref_at, DEP_REF_SIZE, SIG_HEADER_SIZE};

verus! {

/// Four bytes that spell `v` are read back as `v`.
proof fn lemma_u32_at_sub(s: Seq<u8>, i: int, v: u32)
    requires
        0 <= i,
        i + 4 <= s.len(),
        s.subrange(i, i + 4) == u32_bytes(v),
    ensures
        u32_at(s, i) == v as int,
{
    lemma_u32_round_trip(v);
    let b = u32_bytes(v);
    assert(s[i] == s.subrange(i, i + 4)[0]);
    assert(s[i + 1] == s.subrange(i, i + 4)[1]);
    assert(s[i + 2] == s.subrange(i, i + 4)[2]);
    assert(s[i + 3] == s.subrange(i, i + 4)[3]);
}

/// Eight bytes that spell a reference are read back as that reference.
proof fn lemma_ref_at_sub(s: Seq<u8>, i: int, r: StrRef)
    requires
        0 <= i,
        i + 8 <= s.len(),
        s.subrange(i, i + 8) == ref_bytes(r),
    ensures
        ref_at(s, i) == r,
{
    assert(s.subrange(i, i + 4) =~= s.subrange(i, i + 8).subrange(0, 4));
    assert(s.subrange(i + 4, i + 8) =~= s.subrange(i, i + 8).subrange(4, 8));
    assert(ref_bytes(r).subrange(0, 4) =~= u32_bytes(r.offset));
    assert(ref_bytes(r).subrange(4, 8) =~= u32_bytes(r.len));
    lemma_u32_at_sub(s, i, r.offset);
    lemma_u32_at_sub(s, i + 4, r.len);
}

/// Twelve bytes that spell an entry are read back as that entry.
proof fn lemma_entry_at_sub(s: Seq<u8>, i: int, e: SectionIndexEntry)
    requires
        0 <= i,
        i + 12 <= s.len(),
        s.subrange(i, i + 12) == entry_bytes(e),
    ensures
        entry_at(s, i) == e,
{
    let w = s.subrange(i, i + 12);
    assert(s.subrange(i, i + 4) =~= w.subrange(0, 4));
    assert(s.subrange(i + 4, i + 8) =~= w.subrange(4, 8));
    assert(s.subrange(i + 8, i + 12) =~= w.subrange(8, 12));
    assert(entry_bytes(e).subrange(0, 4) =~= u32_bytes(e.sh_type));
    assert(entry_bytes(e).subrange(4, 8) =~= u32_bytes(e.sh_offset));
    assert(entry_bytes(e).subrange(8, 12) =~= u32_bytes(e.sh_size));
    lemma_u32_at_sub(s, i, e.sh_type);
    lemma_u32_at_sub(s, i + 4, e.sh_offset);
    lemma_u32_at_sub(s, i + 8, e.sh_size);
}

/// Entry `i` of a section index is encoded at `12 * i`.
proof fn lemma_index_bytes(es: Seq<SectionIndexEntry>, i: int)
    requires
        0 <= i < es.len(),
    ensures
        index_bytes(es).len() == ENTRY_SIZE * es.len(),
        index_bytes(es).subrange(ENTRY_SIZE * i, ENTRY_SIZE * i + ENTRY_SIZE) == entry_bytes(es[i]),
    decreases es.len(),
{
    let prev = es.drop_last();
    if i < es.len() - 1 {
        lemma_index_bytes(prev, i);
        assert(index_bytes(es).subrange(ENTRY_SIZE * i, ENTRY_SIZE * i + ENTRY_SIZE) =~= index_bytes(
            prev,
        ).subrange(ENTRY_SIZE * i, ENTRY_SIZE * i + ENTRY_SIZE));
    } else {
        lemma_index_bytes_len(prev);
        assert(index_bytes(es).subrange(ENTRY_SIZE * i, ENTRY_SIZE * i + ENTRY_SIZE) =~= entry_bytes(
            es[i],
        ));
    }
}

/// Twelve bytes per entry.
proof fn lemma_index_bytes_len(es: Seq<SectionIndexEntry>)
    ensures
        index_bytes(es).len() == ENTRY_SIZE * es.len(),
    decreases es.len(),
{
    if es.len() > 0 {
        lemma_index_bytes_len(es.drop_last());
    }
}

/// Record `i` of a dependency table is encoded at `16 * i`.
proof fn lemma_dep_refs_bytes(rs: Seq<DepRef>, i: int)
    requires
        0 <= i < rs.len(),
    ensures
        dep_refs_bytes(rs).subrange(DEP_REF_SIZE * i, DEP_REF_SIZE * i + 8) == ref_bytes(rs[i].name),
        dep_refs_bytes(rs).subrange(DEP_REF_SIZE * i + 8, DEP_REF_SIZE * i + 16) == ref_bytes(
            rs[i].version_req,
        ),
    decreases rs.len(),
{
    let prev = rs.drop_last();
    crate::context::lemma_dep_refs_bytes_len(prev);
    if i < rs.len() - 1 {
        lemma_dep_refs_bytes(prev, i);
        assert(dep_refs_bytes(rs).subrange(DEP_REF_SIZE * i, DEP_REF_SIZE * i + 8) =~= dep_refs_bytes(
            prev,
        ).subrange(DEP_REF_SIZE * i, DEP_REF_SIZE * i + 8));
        assert(dep_refs_bytes(rs).subrange(DEP_REF_SIZE * i + 8, DEP_REF_SIZE * i + 16)
            =~= dep_refs_bytes(prev).subrange(DEP_REF_SIZE * i + 8, DEP_REF_SIZE * i + 16));
    } else {
        assert(dep_refs_bytes(rs).subrange(DEP_REF_SIZE * i, DEP_REF_SIZE * i + 8) =~= ref_bytes(
            rs[i].name,
        ));
        assert(dep_refs_bytes(rs).subrange(DEP_REF_SIZE * i + 8, DEP_REF_SIZE * i + 16) =~= ref_bytes(
            rs[i].version_req,
        ));
    }
}

/// Where the strings of dependency `i` start in the dependency strings.
pub open spec fn dep_start(ds: Seq<DepInfo>, i: int) -> int {
    deps_strings(ds.take(i)).len() as int
}

/// The strings of dependency `i` stand at `dep_start(ds, i)`, and its references say so.
proof fn lemma_deps_strings(ds: Seq<DepInfo>, base: int, i: int)
    requires
        0 <= i < ds.len(),
    ensures
        dep_start(ds, i) + ds[i].name@.len() + ds[i].version_req@.len() <= deps_strings(ds).len(),
        deps_strings(ds).subrange(dep_start(ds, i), dep_start(ds, i) + ds[i].name@.len())
            == ds[i].name@,
        deps_strings(ds).subrange(
            dep_start(ds, i) + ds[i].name@.len(),
            dep_start(ds, i) + ds[i].name@.len() + ds[i].version_req@.len(),
        ) == ds[i].version_req@,
        dep_refs_of(ds, base).len() == ds.len(),
        dep_refs_of(ds, base)[i] == (DepRef {
            name: StrRef { offset: (base + dep_start(ds, i)) as u32, len: ds[i].name@.len() as u32 },
            version_req: StrRef {
                offset: (base + dep_start(ds, i) + ds[i].name@.len()) as u32,
                len: ds[i].version_req@.len() as u32,
            },
        }),
    decreases ds.len(),
{
    let prev = ds.drop_last();
    crate::context::lemma_dep_refs_len(prev, base);
    if i < ds.len() - 1 {
        lemma_deps_strings(prev, base, i);
        assert(prev.take(i) =~= ds.take(i));
        assert(prev[i] == ds[i]);
        let a = dep_start(ds, i);
        assert(deps_strings(ds).subrange(a, a + ds[i].name@.len()) =~= deps_strings(prev).subrange(
            a,
            a + ds[i].name@.len(),
        ));
        assert(deps_strings(ds).subrange(
            a + ds[i].name@.len(),
            a + ds[i].name@.len() + ds[i].version_req@.len(),
        ) =~= deps_strings(prev).subrange(
            a + ds[i].name@.len(),
            a + ds[i].name@.len() + ds[i].version_req@.len(),
        ));
    } else {
        assert(ds.take(i) =~= prev);
        let a = dep_start(ds, i);
        assert(deps_strings(ds).subrange(a, a + ds[i].name@.len()) =~= ds[i].name@);
        assert(deps_strings(ds).subrange(
            a + ds[i].name@.len(),
            a + ds[i].name@.len() + ds[i].version_req@.len(),
        ) =~= ds[i].version_req@);
    }
}

/// Where signature section `k` starts among the signature sections.
pub open spec fn sig_start(ss: Seq<SigRecord>, k: int) -> int {
    sigs_bytes(ss.take(k)).len() as int
}

/// Signature section `k` stands at `sig_start(ss, k)`, the next one right after it,
/// and its index entry says so.
pub(crate) proof fn lemma_sigs_bytes(ss: Seq<SigRecord>, start: int, k: int)
    requires
        0 <= k < ss.len(),
    ensures
        sig_start(ss, k) + SIG_HEADER_SIZE + ss[k].der@.len() <= sigs_bytes(ss).len(),
        sig_start(ss, k + 1) == sig_start(ss, k) + SIG_HEADER_SIZE + ss[k].der@.len(),
        sigs_bytes(ss).subrange(sig_start(ss, k), sig_start(ss, k) + 4) == u32_bytes(
            ss[k].der@.len() as u32,
        ),
        sigs_bytes(ss).subrange(sig_start(ss, k) + 4, sig_start(ss, k) + 8) == u32_bytes(
            ss[k].sig_type,
        ),
        sigs_bytes(ss).subrange(
            sig_start(ss, k) + SIG_HEADER_SIZE,
            sig_start(ss, k) + SIG_HEADER_SIZE + ss[k].der@.len(),
        ) == ss[k].der@,
        sig_entries(ss, start).len() == ss.len(),
        sig_entries(ss, start)[k] == (SectionIndexEntry {
            sh_type: SECTION_SIG_STRUCTURE,
            sh_offset: (start + sig_start(ss, k)) as u32,
            sh_size: (SIG_HEADER_SIZE + ss[k].der@.len()) as u32,
        }),
    decreases ss.len(),
{
    let prev = ss.drop_last();
    lemma_sig_entries_len(prev, start);
    assert(ss.take(k + 1).drop_last() =~= ss.take(k));
    assert(ss.take(k + 1).last() == ss[k]);
    if k < ss.len() - 1 {
        lemma_sigs_bytes(prev, start, k);
        assert(prev.take(k) =~= ss.take(k));
        assert(prev.take(k + 1) =~= ss.take(k + 1));
        assert(prev[k] == ss[k]);
        let b = sig_start(ss, k);
        let n = ss[k].der@.len();
        assert(sigs_bytes(ss).subrange(b, b + 4) =~= sigs_bytes(prev).subrange(b, b + 4));
        assert(sigs_bytes(ss).subrange(b + 4, b + 8) =~= sigs_bytes(prev).subrange(b + 4, b + 8));
        assert(sigs_bytes(ss).subrange(b + 8, b + 8 + n) =~= sigs_bytes(prev).subrange(b + 8, b + 8 + n));
    } else {
        assert(ss.take(k) =~= prev);
        let b = sig_start(ss, k);
        let n = ss[k].der@.len();
        assert(sigs_bytes(ss).subrange(b, b + 4) =~= u32_bytes(n as u32));
        assert(sigs_bytes(ss).subrange(b + 4, b + 8) =~= u32_bytes(ss[k].sig_type));
        assert(sigs_bytes(ss).subrange(b + 8, b + 8 + n) =~= ss[k].der@);
    }
}

/// One index entry per signature.
proof fn lemma_sig_entries_len(ss: Seq<SigRecord>, start: int)
    ensures
        sig_entries(ss, start).len() == ss.len(),
    decreases ss.len(),
{
    if ss.len() > 0 {
        lemma_sig_entries_len(ss.drop_last(), start);
    }
}

/// A part of a part is the part of the whole at the shifted place.
proof fn lemma_sub_of_sub(f: Seq<u8>, x: int, piece: Seq<u8>, a: int, b: int)
    requires
        0 <= x,
        x + piece.len() <= f.len(),
        f.subrange(x, x + piece.len()) == piece,
        0 <= a <= b <= piece.len(),
    ensures
        f.subrange(x + a, x + b) == piece.subrange(a, b),
{
    assert(f.subrange(x + a, x + b) =~= f.subrange(x, x + piece.len()).subrange(a, b));
}

/// The header stored in bytes `4 .. 32` is read back.
proof fn lemma_header_read(s: Seq<u8>, h: CrateHeader)
    requires
        s.len() >= HEADER_END,
        s.subrange(4, 32) == header_bytes(h),
    ensures
        header_of(s) == h,
{
    let hb = header_bytes(h);
    assert(hb.subrange(0, 4) =~= u32_bytes(h.strtable_offset));
    assert(hb.subrange(4, 8) =~= u32_bytes(h.strtable_size));
    assert(hb.subrange(8, 12) =~= u32_bytes(h.sh_offset));
    assert(hb.subrange(12, 16) =~= u32_bytes(h.sh_size));
    assert(hb.subrange(16, 20) =~= u32_bytes(h.sh_num));
    assert(hb.subrange(20, 24) =~= u32_bytes(h.ds_offset));
    assert(hb.subrange(24, 28) =~= u32_bytes(h.ds_size));
    lemma_sub_of_sub(s, 4, hb, 0, 4);
    lemma_sub_of_sub(s, 4, hb, 4, 8);
    lemma_sub_of_sub(s, 4, hb, 8, 12);
    lemma_sub_of_sub(s, 4, hb, 12, 16);
    lemma_sub_of_sub(s, 4, hb, 16, 20);
    lemma_sub_of_sub(s, 4, hb, 20, 24);
    lemma_sub_of_sub(s, 4, hb, 24, 28);
    lemma_u32_at_sub(s, 4, h.strtable_offset);
    lemma_u32_at_sub(s, 8, h.strtable_size);
    lemma_u32_at_sub(s, 12, h.sh_offset);
    lemma_u32_at_sub(s, 16, h.sh_size);
    lemma_u32_at_sub(s, 20, h.sh_num);
    lemma_u32_at_sub(s, 24, h.ds_offset);
    lemma_u32_at_sub(s, 28, h.ds_size);
}

/// Where each part of an encoded body stands, and how long it is.
#[verifier::spinoff_prover]
#[verifier::rlimit(100)]
pub(crate) proof fn lemma_body_layout(c: PackageContext)
    ensures
        c.entries().len() == 3 + c.sigs@.len(),
        c.data_bytes().len() == PACKAGE_SECTION_SIZE + 4 + DEP_REF_SIZE * c.dep_infos@.len()
            + c.crate_binary.bytes@.len() + sigs_bytes(c.sigs@).len(),
        c.body().len() == c.ds_offset() + c.data_bytes().len(),
        c.body().subrange(0, 4) == magic(),
        c.body().subrange(4, 32) == header_bytes(c.header()),
        c.body().subrange(32, c.sh_offset()) == strings_of(c.pack_info, c.dep_infos@),
        c.body().subrange(c.sh_offset(), c.ds_offset()) == index_bytes(c.entries()),
        c.body().subrange(c.ds_offset(), c.ds_offset() + c.data_bytes().len()) == c.data_bytes(),
{
    lemma_sig_entries_len(c.sigs@, c.sigs_offset());
    lemma_index_bytes_len(c.entries());
    let base = strings_of(c.pack_info, seq![]).len() as int;
    crate::context::lemma_dep_refs_len(c.dep_infos@, base);
    crate::context::lemma_dep_refs_bytes_len(dep_refs_of(c.dep_infos@, base));
    reveal(PackageContext::body);
    let b = c.body();
    let st = strings_of(c.pack_info, c.dep_infos@);
    assert(header_bytes(c.header()).len() == 28);
    assert(b.subrange(0, 4) =~= magic());
    assert(b.subrange(4, 32) =~= header_bytes(c.header()));
    assert(b.subrange(32, c.sh_offset()) =~= st);
    assert(b.subrange(c.sh_offset(), c.ds_offset()) =~= index_bytes(c.entries()));
    assert(b.subrange(c.ds_offset(), c.ds_offset() + c.data_bytes().len()) =~= c.data_bytes());
}

/// `f` is an encoding of `c`: its body, then 32 bytes.
pub open spec fn encoded(c: PackageContext, f: Seq<u8>) -> bool {
    &&& c.fits()
    &&& f.len() == c.body().len() + FINGERPRINT_LEN
    &&& f.subrange(0, c.body().len() as int) == c.body()
}

/// The header of an encoding is the context's, its offsets exact, and well laid out.
#[verifier::spinoff_prover]
#[verifier::rlimit(100)]
proof fn lemma_encoded_header(c: PackageContext, f: Seq<u8>)
    requires
        encoded(c, f),
    ensures
        header_of(f) == c.header(),
        c.header().strtable_size as int == c.strtable_len(),
        c.header().sh_offset as int == c.sh_offset(),
        c.header().sh_num as int == 3 + c.sigs@.len(),
        c.header().ds_offset as int == c.ds_offset(),
        c.header().ds_size as int == c.data_bytes().len(),
        header_layout_ok(c.header(), f.len() as int),
        f.subrange(32, c.sh_offset()) == strings_of(c.pack_info, c.dep_infos@),
        f.subrange(c.sh_offset(), c.ds_offset()) == index_bytes(c.entries()),
        f.subrange(c.ds_offset(), c.ds_offset() + c.data_bytes().len()) == c.data_bytes(),
        c.ds_offset() + c.data_bytes().len() <= u32::MAX,
{
    lemma_body_layout(c);
    let b = c.body();
    lemma_sub_of_sub(f, 0, b, 4, 32);
    lemma_sub_of_sub(f, 0, b, 32, c.sh_offset());
    lemma_sub_of_sub(f, 0, b, c.sh_offset(), c.ds_offset());
    lemma_sub_of_sub(f, 0, b, c.ds_offset(), c.ds_offset() + c.data_bytes().len());
    lemma_header_read(f, c.header());
}

/// The index of an encoding is the context's entries, at exact offsets.
#[verifier::spinoff_prover]
#[verifier::rlimit(100)]
proof fn lemma_encoded_entries(c: PackageContext, f: Seq<u8>)
    requires
        encoded(c, f),
    ensures
        entries_of(f, header_of(f)) == c.entries(),
{
    lemma_encoded_header(c, f);
    lemma_body_layout(c);
    let h = header_of(f);
    let es = c.entries();
    assert forall|i: int| 0 <= i < es.len() implies entry_at(f, h.sh_offset + ENTRY_SIZE * i) == #[trigger] es[i] by {
        lemma_index_bytes(es, i);
        lemma_sub_of_sub(f, c.sh_offset(), index_bytes(es), ENTRY_SIZE * i, ENTRY_SIZE * i + ENTRY_SIZE);
        lemma_entry_at_sub(f, c.sh_offset() + ENTRY_SIZE * i, es[i]);
    }
    assert(entries_of(f, h) =~= es);
}

/// The entries of an encoding, at exact offsets and sizes.
#[verifier::spinoff_prover]
#[verifier::rlimit(100)]
proof fn lemma_encoded_entry_values(c: PackageContext, f: Seq<u8>)
    requires
        encoded(c, f),
    ensures
        c.entries()[0].sh_type == SECTION_PACKAGE,
        c.entries()[0].sh_offset as int == c.ds_offset(),
        c.entries()[0].sh_size as int == PACKAGE_SECTION_SIZE,
        c.entries()[1].sh_type == SECTION_DEP_TABLE,
        c.entries()[1].sh_offset as int == c.dep_table_offset(),
        c.entries()[1].sh_size as int == 4 + DEP_REF_SIZE * c.dep_infos@.len(),
        c.entries()[2].sh_type == SECTION_CRATE_BINARY,
        c.entries()[2].sh_offset as int == c.crate_binary_offset(),
        c.entries()[2].sh_size as int == c.crate_binary.bytes@.len(),
        forall|k: int|
            0 <= k < c.sigs@.len() ==> {
                &&& (#[trigger] c.entries()[3 + k]).sh_type == SECTION_SIG_STRUCTURE
                &&& c.entries()[3 + k].sh_offset as int == c.sigs_offset() + sig_start(c.sigs@, k)
                &&& c.entries()[3 + k].sh_size as int == SIG_HEADER_SIZE + c.sigs@[k].der@.len()
                &&& c.sigs_offset() + sig_start(c.sigs@, k) + SIG_HEADER_SIZE + c.sigs@[k].der@.len()
                    <= c.ds_offset() + c.data_bytes().len()
            },
{
    lemma_encoded_header(c, f);
    lemma_body_layout(c);
    assert forall|k: int| 0 <= k < c.sigs@.len() implies {
        &&& (#[trigger] c.entries()[3 + k]).sh_type == SECTION_SIG_STRUCTURE
        &&& c.entries()[3 + k].sh_offset as int == c.sigs_offset() + sig_start(c.sigs@, k)
        &&& c.entries()[3 + k].sh_size as int == SIG_HEADER_SIZE + c.sigs@[k].der@.len()
        &&& c.sigs_offset() + sig_start(c.sigs@, k) + SIG_HEADER_SIZE + c.sigs@[k].der@.len()
            <= c.ds_offset() + c.data_bytes().len()
    } by {
        lemma_sigs_bytes(c.sigs@, c.sigs_offset(), k);
        assert(c.entries()[3 + k] == sig_entries(c.sigs@, c.sigs_offset())[k]);
    }
}

/// The index of an encoding is well placed.
#[verifier::spinoff_prover]
#[verifier::rlimit(100)]
proof fn lemma_encoded_placement(c: PackageContext, f: Seq<u8>)
    requires
        encoded(c, f),
    ensures
        index_layout_ok(c.entries(), c.header()),
{
    lemma_encoded_header(c, f);
    lemma_encoded_entry_values(c, f);
    lemma_body_layout(c);
    let es = c.entries();
    let h = c.header();
    assert forall|i: int| 0 <= i < es.len() implies #[trigger] entry_placed(es, h, i) by {
        if i >= 3 {
            let k = i - 3;
            lemma_sigs_bytes(c.sigs@, c.sigs_offset(), k);
            assert(es[3 + k] == es[i]);
            if k == 0 {
                assert(c.sigs@.take(0) =~= Seq::<SigRecord>::empty());
                assert(sig_start(c.sigs@, 0) == 0);
            } else {
                lemma_sigs_bytes(c.sigs@, c.sigs_offset(), k - 1);
                assert(es[3 + (k - 1)] == es[i - 1]);
            }
        }
    }
}

/// The references of the dependency records of `c`.
pub open spec fn dep_refs(c: PackageContext) -> Seq<DepRef> {
    dep_refs_of(c.dep_infos@, strings_of(c.pack_info, seq![]).len() as int)
}

/// Where each part of the data sections of `c` stands.
#[verifier::spinoff_prover]
#[verifier::rlimit(100)]
proof fn lemma_data_layout(c: PackageContext)
    ensures
        c.data_bytes().subrange(0, 24) == package_bytes(package_refs_of(c.pack_info)),
        c.data_bytes().subrange(24, 28) == u32_bytes(c.dep_infos@.len() as u32),
        c.data_bytes().subrange(28, 28 + DEP_REF_SIZE * c.dep_infos@.len()) == dep_refs_bytes(
            dep_refs(c),
        ),
        c.data_bytes().subrange(
            28 + DEP_REF_SIZE * c.dep_infos@.len(),
            28 + DEP_REF_SIZE * c.dep_infos@.len() + c.crate_binary.bytes@.len(),
        ) == c.crate_binary.bytes@,
        c.data_bytes().subrange(
            28 + DEP_REF_SIZE * c.dep_infos@.len() + c.crate_binary.bytes@.len(),
            c.data_bytes().len() as int,
        ) == sigs_bytes(c.sigs@),
{
    let rs = dep_refs(c);
    crate::context::lemma_dep_refs_len(c.dep_infos@, strings_of(c.pack_info, seq![]).len() as int);
    crate::context::lemma_dep_refs_bytes_len(rs);
    let d = c.data_bytes();
    let n = DEP_REF_SIZE * c.dep_infos@.len();
    let m = c.crate_binary.bytes@.len();
    assert(package_bytes(package_refs_of(c.pack_info)).len() == 24);
    assert(d.subrange(0, 24) =~= package_bytes(package_refs_of(c.pack_info)));
    assert(d.subrange(24, 28) =~= u32_bytes(c.dep_infos@.len() as u32));
    assert(d.subrange(28, 28 + n) =~= dep_refs_bytes(rs));
    assert(d.subrange(28 + n, 28 + n + m) =~= c.crate_binary.bytes@);
    assert(d.subrange(28 + n + m, d.len() as int) =~= sigs_bytes(c.sigs@));
}

/// What the sections of an encoding hold, read back.
#[verifier::spinoff_prover]
#[verifier::rlimit(100)]
proof fn lemma_encoded_contents(c: PackageContext, f: Seq<u8>)
    requires
        encoded(c, f),
    ensures
        ref_at(f, c.ds_offset()) == package_refs_of(c.pack_info).name,
        ref_at(f, c.ds_offset() + 8) == package_refs_of(c.pack_info).version,
        ref_at(f, c.ds_offset() + 16) == package_refs_of(c.pack_info).license,
        dep_count_at(f, c.dep_table_offset()) == c.dep_infos@.len(),
        forall|i: int|
            0 <= i < c.dep_infos@.len() ==> #[trigger] dep_at(f, c.dep_table_offset(), i)
                == dep_refs(c)[i],
        f.subrange(c.crate_binary_offset(), c.crate_binary_offset() + c.crate_binary.bytes@.len())
            == c.crate_binary.bytes@,
        forall|k: int|
            0 <= k < c.sigs@.len() ==> {
                let p = c.sigs_offset() + #[trigger] sig_start(c.sigs@, k);
                &&& u32_at(f, p) == c.sigs@[k].der@.len()
                &&& u32_at(f, p + 4) == c.sigs@[k].sig_type
                &&& f.subrange(p + SIG_HEADER_SIZE, p + SIG_HEADER_SIZE + c.sigs@[k].der@.len())
                    == c.sigs@[k].der@
            },
{
    lemma_encoded_header(c, f);
    lemma_data_layout(c);
    lemma_body_layout(c);
    let d = c.data_bytes();
    let x = c.ds_offset();
    let n = DEP_REF_SIZE * c.dep_infos@.len();
    let m = c.crate_binary.bytes@.len();
    let pr = package_refs_of(c.pack_info);
    let pb = package_bytes(pr);
    lemma_sub_of_sub(f, x, d, 0, 24);
    lemma_sub_of_sub(f, x, pb, 0, 8);
    lemma_sub_of_sub(f, x, pb, 8, 16);
    lemma_sub_of_sub(f, x, pb, 16, 24);
    assert(pb.subrange(0, 8) =~= ref_bytes(pr.name));
    assert(pb.subrange(8, 16) =~= ref_bytes(pr.version));
    assert(pb.subrange(16, 24) =~= ref_bytes(pr.license));
    lemma_ref_at_sub(f, x, pr.name);
    lemma_ref_at_sub(f, x + 8, pr.version);
    lemma_ref_at_sub(f, x + 16, pr.license);
    lemma_sub_of_sub(f, x, d, 24, 28);
    lemma_u32_at_sub(f, x + 24, c.dep_infos@.len() as u32);
    lemma_sub_of_sub(f, x, d, 28, 28 + n);
    let rs = dep_refs(c);
    crate::context::lemma_dep_refs_len(c.dep_infos@, strings_of(c.pack_info, seq![]).len() as int);
    assert forall|i: int| 0 <= i < c.dep_infos@.len() implies #[trigger] dep_at(f, c.dep_table_offset(), i)
        == dep_refs(c)[i] by {
        lemma_dep_refs_bytes(rs, i);
        lemma_sub_of_sub(f, x + 28, dep_refs_bytes(rs), DEP_REF_SIZE * i, DEP_REF_SIZE * i + 8);
        lemma_sub_of_sub(f, x + 28, dep_refs_bytes(rs), DEP_REF_SIZE * i + 8, DEP_REF_SIZE * i + 16);
        lemma_ref_at_sub(f, x + 28 + DEP_REF_SIZE * i, rs[i].name);
        lemma_ref_at_sub(f, x + 28 + DEP_REF_SIZE * i + 8, rs[i].version_req);
    }
    lemma_sub_of_sub(f, x, d, 28 + n, 28 + n + m);
    lemma_sub_of_sub(f, x, d, 28 + n + m, d.len() as int);
    let sb = sigs_bytes(c.sigs@);
    let y = x + 28 + n + m;
    assert forall|k: int| 0 <= k < c.sigs@.len() implies {
        let p = c.sigs_offset() + #[trigger] sig_start(c.sigs@, k);
        &&& u32_at(f, p) == c.sigs@[k].der@.len()
        &&& u32_at(f, p + 4) == c.sigs@[k].sig_type
        &&& f.subrange(p + SIG_HEADER_SIZE, p + SIG_HEADER_SIZE + c.sigs@[k].der@.len())
            == c.sigs@[k].der@
    } by {
        lemma_sigs_bytes(c.sigs@, c.sigs_offset(), k);
        let b = sig_start(c.sigs@, k);
        let l = c.sigs@[k].der@.len();
        lemma_sub_of_sub(f, y, sb, b, b + 4);
        lemma_sub_of_sub(f, y, sb, b + 4, b + 8);
        lemma_sub_of_sub(f, y, sb, b + 8, b + 8 + l);
        lemma_u32_at_sub(f, y + b, l as u32);
        lemma_u32_at_sub(f, y + b + 4, c.sigs@[k].sig_type);
    }
}

/// Every section of an encoding decodes.
#[verifier::spinoff_prover]
#[verifier::rlimit(100)]
proof fn lemma_encoded_sections_ok(c: PackageContext, f: Seq<u8>)
    requires
        encoded(c, f),
    ensures
        forall|i: int|
            0 <= i < c.entries().len() ==> #[trigger] section_ok(f, c.entries()[i], c.strtable_len()),
{
    lemma_encoded_header(c, f);
    lemma_encoded_entry_values(c, f);
    lemma_encoded_contents(c, f);
    lemma_body_layout(c);
    let base = strings_of(c.pack_info, seq![]).len() as int;
    assert(deps_strings(seq![]) =~= Seq::<u8>::empty());
    assert forall|i: int| 0 <= i < c.entries().len() implies #[trigger] section_ok(f, c.entries()[i], c.strtable_len()) by {
        if i == 1 {
            assert forall|j: int| 0 <= j < dep_count_at(f, c.dep_table_offset()) implies #[trigger] dep_in(
                dep_at(f, c.dep_table_offset(), j),
                c.strtable_len(),
            ) by {
                lemma_deps_strings(c.dep_infos@, base, j);
            }
        } else if i >= 3 {
            assert(c.entries()[3 + (i - 3)] == c.entries()[i]);
        }
    }
}

/// An encoding is a package file that decodes.
#[verifier::spinoff_prover]
#[verifier::rlimit(100)]
proof fn lemma_encoded_file_ok(c: PackageContext, f: Seq<u8>)
    requires
        encoded(c, f),
        f == c.encoding(),
    ensures
        file_ok(f),
{
    let b = c.body();
    lemma_encoded_header(c, f);
    lemma_encoded_entries(c, f);
    lemma_encoded_placement(c, f);
    lemma_encoded_sections_ok(c, f);
    lemma_body_layout(c);
    lemma_sub_of_sub(f, 0, b, 0, 4);
    assert(fingerprinted(f) =~= b);
    assert(stored_fingerprint(f) =~= sha256_of(b));
    let h = header_of(f);
    assert forall|i: int| 0 <= i < h.sh_num implies #[trigger] section_ok(f, entries_of(f, h)[i], h.strtable_size as int) by {
        assert(section_ok(f, c.entries()[i], c.strtable_len()));
    }
}

/// The index of an encoding is shaped, and signature section `3 + k` holds the SignedData of signature `k`.
#[verifier::spinoff_prover]
#[verifier::rlimit(100)]
proof fn lemma_encoded_sig_ders(c: PackageContext, f: Seq<u8>)
    requires
        encoded(c, f),
    ensures
        entries_shaped(entries_of(f, header_of(f))),
        entries_of(f, header_of(f)).len() == 3 + c.sigs@.len(),
        forall|k: int|
            0 <= k < c.sigs@.len() ==> sig_der(f, #[trigger] entries_of(f, header_of(f))[3 + k])
                == c.sigs@[k].der@,
{
    lemma_encoded_header(c, f);
    lemma_encoded_entries(c, f);
    lemma_encoded_entry_values(c, f);
    lemma_encoded_contents(c, f);
    let es = entries_of(f, header_of(f));
    assert forall|i: int| 3 <= i < es.len() implies #[trigger] es[i].sh_type == SECTION_SIG_STRUCTURE by {
        assert(c.entries()[3 + (i - 3)] == es[i]);
    }
    assert forall|k: int| 0 <= k < c.sigs@.len() implies sig_der(f, #[trigger] es[3 + k]) == c.sigs@[k].der@ by {
        assert(sig_start(c.sigs@, k) == sig_start(c.sigs@, k));
    }
}

/// The metadata, dependency records, archive bytes and signatures of `d` equal those of `c`.
pub open spec fn same_content(d: PackageContext, c: PackageContext) -> bool {
    &&& d.pack_info.name@ == c.pack_info.name@
    &&& d.pack_info.version@ == c.pack_info.version@
    &&& d.pack_info.license@ == c.pack_info.license@
    &&& d.dep_infos@.len() == c.dep_infos@.len()
    &&& forall|i: int|
        0 <= i < c.dep_infos@.len() ==> {
            &&& (#[trigger] d.dep_infos@[i]).name@ == c.dep_infos@[i].name@
            &&& d.dep_infos@[i].version_req@ == c.dep_infos@[i].version_req@
        }
    &&& d.crate_binary.bytes@ == c.crate_binary.bytes@
    &&& d.sigs@.len() == c.sigs@.len()
    &&& forall|k: int|
        0 <= k < c.sigs@.len() ==> {
            &&& (#[trigger] d.sigs@[k]).sig_type == c.sigs@[k].sig_type
            &&& d.sigs@[k].der@ == c.sigs@[k].der@
        }
}

/// Round trip. The file that the encoder writes for `c` is a well-formed package
/// whose fingerprint holds, whose index lists the package, dependency table and
/// archive sections and then one section per signature; the SignedData of its
/// signature sections decode exactly when those of `c` do; and any decoding of it gives
/// back the metadata, dependency records, archive bytes and signatures of `c`.
pub proof fn lemma_round_trip(c: PackageContext, f: Seq<u8>, p: CratePackage, d: PackageContext)
    requires
        c.fits(),
        f == c.encoding(),
        f.len() == c.body().len() + FINGERPRINT_LEN,
    ensures
        file_ok(f),
        entries_shaped(entries_of(f, header_of(f))),
        header_of(f).sh_num == 3 + c.sigs@.len(),
        sigs_parse(f) <==> forall|k: int|
            0 <= k < c.sigs@.len() ==> #[trigger] signed_data_parses(c.sigs@[k].der@),
        package_matches(f, p) && context_matches(d, p) ==> same_content(d, c),
{
    let b = c.body();
    assert(f.subrange(0, b.len() as int) =~= b);
    assert(encoded(c, f));
    lemma_encoded_file_ok(c, f);
    lemma_encoded_sig_ders(c, f);
    let es = entries_of(f, header_of(f));
    if sigs_parse(f) {
        assert forall|k: int| 0 <= k < c.sigs@.len() implies #[trigger] signed_data_parses(c.sigs@[k].der@) by {
            assert(sig_der(f, es[3 + k]) == c.sigs@[k].der@);
        }
    }
    if forall|k: int| 0 <= k < c.sigs@.len() ==> #[trigger] signed_data_parses(c.sigs@[k].der@) {
        assert forall|i: int| 3 <= i < es.len() implies #[trigger] signed_data_parses(sig_der(f, es[i])) by {
            assert(sig_der(f, es[3 + (i - 3)]) == c.sigs@[i - 3].der@);
        }
    }
    if package_matches(f, p) && context_matches(d, p) {
        lemma_content_info(c, f, p, d);
        lemma_content_deps(c, f, p, d);
        lemma_content_sigs(c, f, p, d);
    }
}

/// Metadata and archive bytes come back.
#[verifier::spinoff_prover]
#[verifier::rlimit(100)]
proof fn lemma_content_info(c: PackageContext, f: Seq<u8>, p: CratePackage, d: PackageContext)
    requires
        encoded(c, f),
        package_matches(f, p),
        context_matches(d, p),
    ensures
        d.pack_info.name@ == c.pack_info.name@,
        d.pack_info.version@ == c.pack_info.version@,
        d.pack_info.license@ == c.pack_info.license@,
        d.crate_binary.bytes@ == c.crate_binary.bytes@,
{
    lemma_encoded_header(c, f);
    lemma_encoded_entries(c, f);
    lemma_encoded_entry_values(c, f);
    lemma_encoded_contents(c, f);
    let es = entries_of(f, header_of(f));
    let st = p.string_table@;
    let col = p.data_sections.col@;
    assert(st == strings_of(c.pack_info, c.dep_infos@));
    assert(section_matches(f, es[0], col[0]));
    assert(section_matches(f, es[2], col[2]));
    let ni = c.pack_info.name@.len() as int;
    let vi = c.pack_info.version@.len() as int;
    let li = c.pack_info.license@.len() as int;
    assert(st.subrange(0, ni) =~= c.pack_info.name@);
    assert(st.subrange(ni, ni + vi) =~= c.pack_info.version@);
    assert(st.subrange(ni + vi, ni + vi + li) =~= c.pack_info.license@);
}

/// Dependency records come back.
#[verifier::spinoff_prover]
#[verifier::rlimit(100)]
proof fn lemma_content_deps(c: PackageContext, f: Seq<u8>, p: CratePackage, d: PackageContext)
    requires
        encoded(c, f),
        package_matches(f, p),
        context_matches(d, p),
    ensures
        d.dep_infos@.len() == c.dep_infos@.len(),
        forall|i: int|
            0 <= i < c.dep_infos@.len() ==> {
                &&& (#[trigger] d.dep_infos@[i]).name@ == c.dep_infos@[i].name@
                &&& d.dep_infos@[i].version_req@ == c.dep_infos@[i].version_req@
            },
{
    lemma_encoded_header(c, f);
    lemma_encoded_entries(c, f);
    lemma_encoded_entry_values(c, f);
    lemma_encoded_contents(c, f);
    let es = entries_of(f, header_of(f));
    let st = p.string_table@;
    let col = p.data_sections.col@;
    let base = strings_of(c.pack_info, seq![]).len() as int;
    assert(deps_strings(seq![]) =~= Seq::<u8>::empty());
    assert(st == strings_of(c.pack_info, c.dep_infos@));
    assert(section_matches(f, es[1], col[1]));
    match col[1] {
        DataSection::DepTableSection(dt) => {
            assert forall|i: int| 0 <= i < c.dep_infos@.len() implies {
                &&& (#[trigger] d.dep_infos@[i]).name@ == c.dep_infos@[i].name@
                &&& d.dep_infos@[i].version_req@ == c.dep_infos@[i].version_req@
            } by {
                lemma_deps_strings(c.dep_infos@, base, i);
                assert(dt.deps@[i] == dep_at(f, c.dep_table_offset(), i));
                let a = base + dep_start(c.dep_infos@, i);
                let nl = c.dep_infos@[i].name@.len() as int;
                let vl = c.dep_infos@[i].version_req@.len() as int;
                assert(st.subrange(a, a + nl) =~= deps_strings(c.dep_infos@).subrange(a - base, a - base + nl));
                assert(st.subrange(a + nl, a + nl + vl) =~= deps_strings(c.dep_infos@).subrange(a - base + nl, a - base + nl + vl));
            }
        },
        _ => {},
    }
}

/// Signatures come back.
#[verifier::spinoff_prover]
#[verifier::rlimit(100)]
proof fn lemma_content_sigs(c: PackageContext, f: Seq<u8>, p: CratePackage, d: PackageContext)
    requires
        encoded(c, f),
        package_matches(f, p),
        context_matches(d, p),
    ensures
        d.sigs@.len() == c.sigs@.len(),
        forall|k: int|
            0 <= k < c.sigs@.len() ==> {
                &&& (#[trigger] d.sigs@[k]).sig_type == c.sigs@[k].sig_type
                &&& d.sigs@[k].der@ == c.sigs@[k].der@
            },
{
    lemma_encoded_sig_ders(c, f);
    lemma_encoded_entries(c, f);
    lemma_encoded_entry_values(c, f);
    lemma_encoded_contents(c, f);
    let es = entries_of(f, header_of(f));
    let col = p.data_sections.col@;
    assert forall|k: int| 0 <= k < c.sigs@.len() implies {
        &&& (#[trigger] d.sigs@[k]).sig_type == c.sigs@[k].sig_type
        &&& d.sigs@[k].der@ == c.sigs@[k].der@
    } by {
        let e = es[3 + k];
        assert(section_matches(f, e, col[k + 3]));
        assert(e == c.entries()[3 + k]);
        assert(sig_der(f, es[3 + k]) == c.sigs@[k].der@);
        let q = c.sigs_offset() + sig_start(c.sigs@, k);
        assert(e.sh_offset as int == q);
        assert(u32_at(f, q + 4) == c.sigs@[k].sig_type);
        match col[k + 3] {
            DataSection::SigStructureSection(ss) => {
                assert(ss.sigstruct_sig@ == sig_der(f, e));
                assert(ss.sigstruct_type as int == u32_at(f, q + 4));
            },
            _ => {},
        }
    }
}

/// Coverage of an encoding. In the file that the encoder writes for `c`, the
/// section of signature `k` covers, for `SIGTYPE_CRATEBIN`, exactly the bytes of
/// the archive and nothing else, and for `SIGTYPE_WHOLE`, everything before that
/// section; no type covers the fingerprint.
#[verifier::spinoff_prover]
#[verifier::rlimit(100)]
pub proof fn lemma_encoded_coverage(c: PackageContext, f: Seq<u8>, p: CratePackage, k: int)
    requires
        c.fits(),
        f == c.encoding(),
        f.len() == c.body().len() + FINGERPRINT_LEN,
        package_matches(f, p),
        0 <= k < c.sigs@.len(),
    ensures
        c.sigs@[k].sig_type == SIGTYPE_CRATEBIN ==> coverage(p, 3 + k) == Some(
            (c.crate_binary_offset(), c.crate_binary_offset() + c.crate_binary.bytes@.len()),
        ),
        c.sigs@[k].sig_type == SIGTYPE_CRATEBIN ==> f.subrange(
            c.crate_binary_offset(),
            c.crate_binary_offset() + c.crate_binary.bytes@.len(),
        ) == c.crate_binary.bytes@,
        c.sigs@[k].sig_type == SIGTYPE_WHOLE ==> coverage(p, 3 + k) == Some(
            (0int, c.sigs_offset() + sig_start(c.sigs@, k)),
        ),
        coverage(p, 3 + k) matches Some(r) ==> r.1 <= f.len() - FINGERPRINT_LEN,
{
    let b = c.body();
    assert(f.subrange(0, b.len() as int) =~= b);
    assert(encoded(c, f));
    lemma_encoded_header(c, f);
    lemma_encoded_entries(c, f);
    lemma_encoded_entry_values(c, f);
    lemma_encoded_contents(c, f);
    lemma_body_layout(c);
    let es = entries_of(f, header_of(f));
    let col = p.data_sections.col@;
    let e = es[3 + k];
    assert(section_matches(f, e, col[3 + k]));
    assert(e == c.entries()[3 + k]);
    let q = c.sigs_offset() + sig_start(c.sigs@, k);
    assert(e.sh_offset as int == q);
    assert(u32_at(f, q + 4) == c.sigs@[k].sig_type);
    assert(es[2] == c.entries()[2]);
}

/// Signature sections start no earlier than those before them.
pub(crate) proof fn lemma_sig_start_mono(ss: Seq<SigRecord>, j: int, k: int)
    requires
        0 <= j <= k <= ss.len(),
    ensures
        sig_start(ss, j) <= sig_start(ss, k),
    decreases k - j,
{
    if j < k {
        lemma_sigs_bytes(ss, 0, k - 1);
        lemma_sig_start_mono(ss, j, k - 1);
    }
}

} // verus!
