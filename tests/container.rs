use cms::cert::x509::der::asn1::SetOfVec;
use cms::cert::x509::der::oid::ObjectIdentifier;
use cms::cert::x509::der::Encode;
use cms::content_info::CmsVersion;
use cms::cert::x509::attr::Attribute;
use cms::cert::x509::der::asn1::OctetString;
use cms::cert::x509::der::{Any, Tag};
use cms::cert::x509::name::Name;
use cms::cert::x509::serial_number::SerialNumber;
use cms::cert::x509::spki::AlgorithmIdentifierOwned;
use cms::cert::IssuerAndSerialNumber;
use cms::signed_data::{EncapsulatedContentInfo, SignedData, SignerIdentifier, SignerInfo, SignerInfos};
use crate_spec::context::{
    signed_range, DepInfo, EncodeError, PackageContext, PackageInfo, SigRecord, SIGTYPE_CRATEBIN,
    SIGTYPE_WHOLE,
};
use crate_spec::layout::{is_magic_number, CrateHeader, SectionIndexEntry};
use crate_spec::package::{fingerprint_matches, CratePackage};
use crate_spec::codec::{push_bytes, read_bytes};
use crate_spec::section::{
    DataSection, DataSectionCollectionType, DecodeError, SectionFault, SignatureKind,
};
use crate_spec::signature::ChainVerdict;
use crate_spec::unpack::{unpack_context, Unpacking};
use sha2::Digest;

/// Verdicts that trust every signature.
fn trusted() -> Vec<ChainVerdict> {
    vec![ChainVerdict::Trusted; 4]
}

fn demo_info() -> PackageInfo {
    PackageInfo { name: b"demo".to_vec(), version: b"0.1.0".to_vec(), license: Vec::new() }
}

fn demo_binary() -> Vec<u8> {
    vec![7, 200, 13, 0, 255, 42, 9, 9, 1, 2, 3, 4, 5, 6, 77, 128]
}

fn demo_context() -> PackageContext {
    let mut ctx = PackageContext::new();
    ctx.ingest_metadata(demo_info(), Vec::new());
    ctx.ingest_crate_binary(demo_binary());
    ctx
}

fn le(v: u32) -> [u8; 4] {
    v.to_le_bytes()
}

/// A file with the given header fields, body bytes after the header, and a correct fingerprint.
fn craft(fields: [u32; 7], rest: &[u8]) -> Vec<u8> {
    let mut out = b"SCRT".to_vec();
    for f in fields.iter() {
        out.extend_from_slice(&le(*f));
    }
    out.extend_from_slice(rest);
    let fp = sha2::Sha256::digest(&out);
    out.extend_from_slice(&fp);
    out
}

#[test]
fn test_unpack() {
    let mut ctx = demo_context();
    let digest = sha2::Sha256::digest(demo_binary());
    ctx.add_sig(SigRecord { sig_type: SIGTYPE_CRATEBIN, der: signed_data_with_digest(&digest) });
    let bin = ctx.encode_to_crate_package().unwrap();
    let decoded = unpack_context(&bin, vec![b"root".to_vec()], &trusted());
    assert_eq!(decoded.as_ref().unwrap().pack_info, ctx.pack_info);
    assert_eq!(decoded.as_ref().unwrap().dep_infos, ctx.dep_infos);
    assert_eq!(decoded.unwrap().crate_binary, ctx.crate_binary);
}

#[test]
fn round_trip_keeps_metadata_and_archive() {
    let ctx = demo_context();
    let bin = ctx.encode_to_crate_package().unwrap();
    let mut back = PackageContext::new();
    back.set_root_cas_bin(vec![b"root".to_vec()]);
    let pkg = back.decode_from_crate_package(&bin, &trusted()).unwrap();
    assert_eq!(back.pack_info, demo_info());
    assert!(back.dep_infos.is_empty());
    assert_eq!(back.crate_binary.bytes, demo_binary());
    assert_eq!(pkg.data_sections.col.len(), 3);
}

#[test]
fn round_trip_keeps_dependencies() {
    let mut ctx = demo_context();
    let deps = vec![
        DepInfo { name: b"serde".to_vec(), version_req: b"^1.0".to_vec() },
        DepInfo { name: b"log".to_vec(), version_req: b"0.4".to_vec() },
    ];
    let info = PackageInfo { name: b"demo".to_vec(), version: b"0.1.0".to_vec(), license: b"MIT".to_vec() };
    ctx.ingest_metadata(info.clone(), deps.clone());
    let bin = ctx.encode_to_crate_package().unwrap();
    let back = unpack_context(&bin, Vec::new(), &trusted()).unwrap();
    assert_eq!(back.pack_info, info);
    assert_eq!(back.dep_infos, deps);
    assert_eq!(back.crate_binary.bytes, demo_binary());
}

#[test]
fn layout_of_minimal_package() {
    let bin = demo_context().encode_to_crate_package().unwrap();
    assert_eq!(bin.len(), 153);
    let pkg = CratePackage::decode(&bin).unwrap();
    assert_eq!(
        pkg.crate_header,
        CrateHeader {
            strtable_offset: 32,
            strtable_size: 9,
            sh_offset: 41,
            sh_size: 36,
            sh_num: 3,
            ds_offset: 77,
            ds_size: 44,
        }
    );
    assert_eq!(pkg.string_table, b"demo0.1.0".to_vec());
    let offsets: Vec<(u32, u32, u32)> = pkg
        .section_index
        .entries
        .iter()
        .map(|e| (e.sh_type, e.sh_offset, e.sh_size))
        .collect();
    assert_eq!(offsets, vec![(0, 77, 24), (1, 101, 4), (3, 105, 16)]);
    assert_eq!(&bin[0..4], b"SCRT");
}

#[test]
fn index_entries_are_ordered_and_inside_data_sections() {
    let mut ctx = demo_context();
    ctx.ingest_metadata(demo_info(), vec![DepInfo { name: b"a".to_vec(), version_req: b"1".to_vec() }]);
    let pkg = CratePackage::decode(&ctx.encode_to_crate_package().unwrap()).unwrap();
    let h = pkg.crate_header;
    let es = &pkg.section_index.entries;
    for (i, e) in es.iter().enumerate() {
        assert!(h.ds_offset <= e.sh_offset);
        assert!(e.sh_offset + e.sh_size <= h.ds_offset + h.ds_size);
        if i > 0 {
            assert!(es[i - 1].sh_offset + es[i - 1].sh_size <= e.sh_offset);
        }
    }
}

#[test]
fn string_references_stay_inside_string_table() {
    let mut ctx = demo_context();
    ctx.ingest_metadata(demo_info(), vec![DepInfo { name: b"dep".to_vec(), version_req: b"2".to_vec() }]);
    let pkg = CratePackage::decode(&ctx.encode_to_crate_package().unwrap()).unwrap();
    let size = pkg.string_table.len() as u32;
    for d in pkg.data_sections.col.iter() {
        match d {
            DataSection::PackageSection(ps) => {
                for r in [ps.name, ps.version, ps.license] {
                    assert!(r.offset + r.len <= size);
                }
            }
            DataSection::DepTableSection(dt) => {
                for dep in dt.deps.iter() {
                    assert!(dep.name.offset + dep.name.len <= size);
                    assert!(dep.version_req.offset + dep.version_req.len <= size);
                }
            }
            _ => {}
        }
    }
}

#[test]
fn fingerprint_is_sha256_of_the_rest() {
    let bin = demo_context().encode_to_crate_package().unwrap();
    let n = bin.len();
    let digest = sha2::Sha256::digest(&bin[..n - 32]);
    assert_eq!(&bin[n - 32..], digest.as_slice());
    assert!(fingerprint_matches(&bin, digest.as_slice()));
    assert!(!fingerprint_matches(&bin, &bin[..32]));
}

#[test]
fn flipped_fingerprint_is_refused() {
    let mut bin = demo_context().encode_to_crate_package().unwrap();
    let n = bin.len();
    bin[n - 32] ^= 1;
    assert_eq!(unpack_context(&bin, Vec::new(), &trusted()).err(), Some(DecodeError::FingerprintMismatch));
}

#[test]
fn flipped_archive_byte_is_refused() {
    let mut ctx = demo_context();
    let digest = sha2::Sha256::digest(demo_binary());
    ctx.add_sig(SigRecord { sig_type: SIGTYPE_CRATEBIN, der: signed_data_with_digest(&digest) });
    let mut bin = ctx.encode_to_crate_package().unwrap();
    let at = CratePackage::decode(&bin).unwrap().section_index.entries[2].sh_offset as usize;
    bin[at] ^= 1;
    let err = unpack_context(&bin, vec![b"root".to_vec()], &trusted()).err();
    assert_eq!(
        err,
        Some(DecodeError::Signature { section: 2, signature: 3, kind: SignatureKind::DigestMismatch })
    );
    assert_eq!(CratePackage::decode(&bin).err(), Some(DecodeError::FingerprintMismatch));
}

#[test]
fn index_size_disagreeing_with_count_is_refused() {
    // sh_num = 1 but sh_size = 0
    let bin = craft([32, 0, 32, 0, 1, 32, 0], &[]);
    assert_eq!(CratePackage::decode(&bin).err(), Some(DecodeError::LayoutInvariant));
}

#[test]
fn bad_magic_and_truncation() {
    let mut bin = demo_context().encode_to_crate_package().unwrap();
    assert_eq!(CratePackage::decode(&bin[..3]).err(), Some(DecodeError::IoTruncated));
    assert_eq!(CratePackage::decode(&bin[..20]).err(), Some(DecodeError::IoTruncated));
    bin[0] = b'X';
    assert_eq!(CratePackage::decode(&bin).err(), Some(DecodeError::BadMagic));
    assert!(is_magic_number(b"SCRT"));
    assert!(!is_magic_number(b"SCRA"));
}

#[test]
fn unknown_section_type_is_refused() {
    let mut rest = Vec::new();
    rest.extend_from_slice(&le(2));
    rest.extend_from_slice(&le(44));
    rest.extend_from_slice(&le(0));
    let bin = craft([32, 0, 32, 12, 1, 44, 0], &rest);
    assert_eq!(
        CratePackage::decode(&bin).err(),
        Some(DecodeError::Section { section: 0, fault: SectionFault::UnknownSectionType })
    );
}

#[test]
fn string_reference_outside_table_is_refused() {
    let mut rest = b"ab".to_vec();
    rest.extend_from_slice(&le(0));
    rest.extend_from_slice(&le(46));
    rest.extend_from_slice(&le(24));
    for v in [0u32, 2, 2, 1, 0, 0] {
        rest.extend_from_slice(&le(v));
    }
    let bin = craft([32, 2, 34, 12, 1, 46, 24], &rest);
    assert_eq!(
        CratePackage::decode(&bin).err(),
        Some(DecodeError::Section { section: 0, fault: SectionFault::StringOutOfRange })
    );
}

#[test]
fn malformed_signature_is_refused_with_its_section() {
    let mut ctx = demo_context();
    ctx.add_sig(SigRecord { sig_type: SIGTYPE_CRATEBIN, der: vec![1, 2, 3] });
    let bin = ctx.encode_to_crate_package().unwrap();
    let err = unpack_context(&bin, vec![b"root".to_vec()], &trusted()).err();
    assert_eq!(err, Some(DecodeError::Signature { section: 2, signature: 3, kind: SignatureKind::Malformed }));
}

#[test]
fn signature_without_trust_anchors_is_refused() {
    let mut ctx = demo_context();
    ctx.add_sig(SigRecord { sig_type: SIGTYPE_WHOLE, der: vec![0x30, 0x00] });
    let bin = ctx.encode_to_crate_package().unwrap();
    assert_eq!(unpack_context(&bin, Vec::new(), &trusted()).err(), Some(DecodeError::NoTrustAnchors));
}

#[test]
fn signature_sections_follow_the_archive() {
    let mut ctx = demo_context();
    ctx.add_sig(SigRecord { sig_type: SIGTYPE_CRATEBIN, der: vec![9; 5] });
    ctx.add_sig(SigRecord { sig_type: SIGTYPE_WHOLE, der: vec![8; 3] });
    let bin = ctx.encode_to_crate_package().unwrap();
    let pkg = CratePackage::decode(&bin).unwrap();
    let es = &pkg.section_index.entries;
    assert_eq!(es.len(), 5);
    assert_eq!((es[3].sh_type, es[3].sh_size), (4, 13));
    assert_eq!((es[4].sh_type, es[4].sh_size), (4, 11));
    assert_eq!(es[4].sh_offset, es[3].sh_offset + 13);
    match &pkg.data_sections.col[4] {
        DataSection::SigStructureSection(ss) => {
            assert_eq!(ss.sigstruct_type, SIGTYPE_WHOLE);
            assert_eq!(ss.sigstruct_size, 3);
            assert_eq!(ss.sigstruct_sig, vec![8; 3]);
        }
        _ => panic!("expected a signature section"),
    }
}

#[test]
fn empty_context_encodes() {
    let ctx = PackageContext::new();
    let bin = ctx.encode_to_crate_package();
    assert_ne!(bin, Err(EncodeError::TooLarge));
    assert_eq!(bin.unwrap().len(), 32 + 36 + 28 + 32);
}

#[test]
fn unpacking_keeps_paths() {
    let mut u = Unpacking::new("pkg/demo.scrate");
    assert_eq!(u.file_path, "pkg/demo.scrate");
    assert!(u.cas_path.is_empty());
    u.add_ca_path("root.pem".to_string());
    assert_eq!(u.cas_path, vec!["root.pem".to_string()]);
    let bin = demo_context().encode_to_crate_package().unwrap();
    let ctx = u.unpack_context(&bin, vec![b"root".to_vec()], &trusted()).unwrap();
    assert_eq!(ctx.pack_info, demo_info());
    assert_eq!(ctx.root_cas, vec![b"root".to_vec()]);
}

/// A SignedData with no signer, DER-encoded.
fn empty_signed_data() -> Vec<u8> {
    let sd = SignedData {
        version: CmsVersion::V1,
        digest_algorithms: SetOfVec::new(),
        encap_content_info: EncapsulatedContentInfo {
            econtent_type: ObjectIdentifier::new_unwrap("1.2.840.113549.1.7.1"),
            econtent: None,
        },
        certificates: None,
        crls: None,
        signer_infos: SignerInfos(SetOfVec::new()),
    };
    sd.to_der().unwrap()
}

/// A SignedData with one signer whose message-digest attribute is `digest`.
fn signed_data_with_digest(digest: &[u8]) -> Vec<u8> {
    let attr = Attribute {
        oid: ObjectIdentifier::new_unwrap("1.2.840.113549.1.9.4"),
        values: SetOfVec::try_from(vec![Any::new(Tag::OctetString, digest).unwrap()]).unwrap(),
    };
    let si = SignerInfo {
        version: CmsVersion::V1,
        sid: SignerIdentifier::IssuerAndSerialNumber(IssuerAndSerialNumber {
            issuer: Name::default(),
            serial_number: SerialNumber::new(&[1]).unwrap(),
        }),
        digest_alg: AlgorithmIdentifierOwned {
            oid: ObjectIdentifier::new_unwrap("2.16.840.1.101.3.4.2.1"),
            parameters: None,
        },
        signed_attrs: Some(SetOfVec::try_from(vec![attr]).unwrap()),
        signature_algorithm: AlgorithmIdentifierOwned {
            oid: ObjectIdentifier::new_unwrap("1.2.840.113549.1.1.11"),
            parameters: None,
        },
        signature: OctetString::new(vec![0u8; 4]).unwrap(),
        unsigned_attrs: None,
    };
    let sd = SignedData {
        version: CmsVersion::V1,
        digest_algorithms: SetOfVec::new(),
        encap_content_info: EncapsulatedContentInfo {
            econtent_type: ObjectIdentifier::new_unwrap("1.2.840.113549.1.7.1"),
            econtent: None,
        },
        certificates: None,
        crls: None,
        signer_infos: SignerInfos(SetOfVec::try_from(vec![si]).unwrap()),
    };
    sd.to_der().unwrap()
}

/// The demo context with a CRATEBIN and a WHOLE signature over their ranges.
fn doubly_signed() -> (PackageContext, Vec<u8>) {
    let mut ctx = demo_context();
    ctx.add_sig(SigRecord {
        sig_type: SIGTYPE_CRATEBIN,
        der: signed_data_with_digest(&sha2::Sha256::digest(demo_binary())),
    });
    ctx.add_sig(SigRecord { sig_type: SIGTYPE_WHOLE, der: signed_data_with_digest(&[0u8; 32]) });
    let covered = ctx.bytes_to_sign(1).unwrap();
    let whole = signed_data_with_digest(&sha2::Sha256::digest(&covered));
    ctx.sigs[1].der = whole;
    let bin = ctx.encode_to_crate_package().unwrap();
    (ctx, bin)
}

#[test]
fn round_trip_keeps_two_signatures() {
    let (ctx, bin) = doubly_signed();
    let back = unpack_context(&bin, vec![b"root".to_vec()], &trusted()).unwrap();
    assert_eq!(back.sigs, ctx.sigs);
    assert_eq!(back.pack_info, demo_info());
    assert_eq!(back.crate_binary.bytes, demo_binary());
}

#[test]
fn changed_archive_with_fresh_fingerprint_fails_its_signature() {
    let (_, mut bin) = doubly_signed();
    let at = CratePackage::decode(&bin).unwrap().section_index.entries[2].sh_offset as usize;
    bin[at] ^= 1;
    let n = bin.len();
    let fp = sha2::Sha256::digest(&bin[..n - 32]);
    bin[n - 32..].copy_from_slice(&fp);
    let err = unpack_context(&bin, vec![b"root".to_vec()], &trusted()).err();
    assert_eq!(err, Some(DecodeError::Signature { section: 2, signature: 3, kind: SignatureKind::DigestMismatch }));
}

#[test]
fn changed_metadata_fails_the_whole_signature_only() {
    let (_, mut bin) = doubly_signed();
    bin[33] ^= 1;
    let n = bin.len();
    let fp = sha2::Sha256::digest(&bin[..n - 32]);
    bin[n - 32..].copy_from_slice(&fp);
    let err = unpack_context(&bin, vec![b"root".to_vec()], &trusted()).err();
    assert_eq!(err, Some(DecodeError::Signature { section: 4, signature: 4, kind: SignatureKind::DigestMismatch }));
}

#[test]
fn signature_without_message_digest_is_refused() {
    let mut ctx = demo_context();
    ctx.add_sig(SigRecord { sig_type: SIGTYPE_CRATEBIN, der: empty_signed_data() });
    let bin = ctx.encode_to_crate_package().unwrap();
    let err = unpack_context(&bin, vec![b"root".to_vec()], &trusted()).err();
    assert_eq!(err, Some(DecodeError::Signature { section: 2, signature: 3, kind: SignatureKind::DigestMismatch }));
}

#[test]
fn unknown_signature_type_is_malformed() {
    let mut ctx = demo_context();
    ctx.add_sig(SigRecord { sig_type: 7, der: signed_data_with_digest(&[0u8; 32]) });
    let bin = ctx.encode_to_crate_package().unwrap();
    let err = unpack_context(&bin, vec![b"root".to_vec()], &trusted()).err();
    assert_eq!(err, Some(DecodeError::Signature { section: 3, signature: 3, kind: SignatureKind::Malformed }));
}

#[test]
fn coverage_of_each_signature_type() {
    let mut ctx = demo_context();
    let der = empty_signed_data();
    ctx.add_sig(SigRecord { sig_type: SIGTYPE_CRATEBIN, der: der.clone() });
    ctx.add_sig(SigRecord { sig_type: SIGTYPE_WHOLE, der: der.clone() });
    ctx.add_sig(SigRecord { sig_type: 9, der });
    let bin = ctx.encode_to_crate_package().unwrap();
    let pkg = CratePackage::decode(&bin).unwrap();
    let archive = pkg.section_index.entries[2];
    assert_eq!(archive.sh_size, 16);
    assert_eq!(
        signed_range(&pkg, 3),
        Some((archive.sh_offset as u64, archive.sh_offset as u64 + 16))
    );
    assert_eq!(signed_range(&pkg, 4), Some((0, pkg.section_index.entries[4].sh_offset as u64)));
    assert_eq!(signed_range(&pkg, 5), None);
    assert_eq!(signed_range(&pkg, 2), None);
    assert_eq!(signed_range(&pkg, 6), None);
}

#[test]
fn bytes_outside_archive_leave_its_coverage_alone() {
    let mut ctx = demo_context();
    ctx.add_sig(SigRecord { sig_type: SIGTYPE_CRATEBIN, der: empty_signed_data() });
    let bin = ctx.encode_to_crate_package().unwrap();
    let pkg = CratePackage::decode(&bin).unwrap();
    let (start, end) = signed_range(&pkg, 3).unwrap();
    let covered = bin[start as usize..end as usize].to_vec();
    let mut changed = bin.clone();
    changed[40] ^= 1;
    assert_eq!(changed[start as usize..end as usize].to_vec(), covered);
    assert_eq!(covered, demo_binary());
}

#[test]
fn test_raw_array_type() {
    let mut encoded = Vec::new();
    push_bytes(&mut encoded, &[1, 2, 3]);
    assert_eq!(encoded, vec![1, 2, 3]);
    assert_eq!(read_bytes(&encoded, 0, 3), Some(vec![1, 2, 3]));
    assert_eq!(read_bytes(&encoded, 1, 2), Some(vec![2, 3]));
    assert_eq!(read_bytes(&encoded, 1, 3), None);
}

#[test]
fn signature_section_shorter_than_its_header_is_truncated() {
    let mut rest = Vec::new();
    rest.extend_from_slice(&le(4));
    rest.extend_from_slice(&le(44));
    rest.extend_from_slice(&le(4));
    rest.extend_from_slice(&[0, 0, 0, 0]);
    let bin = craft([32, 0, 32, 12, 1, 44, 4], &rest);
    assert_eq!(
        CratePackage::decode(&bin).err(),
        Some(DecodeError::Section { section: 0, fault: SectionFault::IoTruncated })
    );
}

#[test]
fn dependency_count_past_its_section_is_truncated() {
    let mut rest = Vec::new();
    rest.extend_from_slice(&le(1));
    rest.extend_from_slice(&le(44));
    rest.extend_from_slice(&le(4));
    rest.extend_from_slice(&le(2));
    let bin = craft([32, 0, 32, 12, 1, 44, 4], &rest);
    assert_eq!(
        CratePackage::decode(&bin).err(),
        Some(DecodeError::Section { section: 0, fault: SectionFault::IoTruncated })
    );
}

#[test]
fn overlapping_index_entries_are_refused() {
    let mut rest = Vec::new();
    for v in [3u32, 56, 4, 3, 58, 2] {
        rest.extend_from_slice(&le(v));
    }
    rest.extend_from_slice(&[1, 2, 3, 4]);
    let bin = craft([32, 0, 32, 24, 2, 56, 4], &rest);
    assert_eq!(CratePackage::decode(&bin).err(), Some(DecodeError::LayoutInvariant));
}

#[test]
fn untrusted_chain_is_refused_with_its_kind() {
    let (_, bin) = doubly_signed();
    let roots = vec![b"root".to_vec()];
    let v = vec![ChainVerdict::Trusted, ChainVerdict::UnknownIssuer];
    assert_eq!(
        unpack_context(&bin, roots.clone(), &v).err(),
        Some(DecodeError::Signature { section: 4, signature: 4, kind: SignatureKind::UnknownIssuer })
    );
    let v = vec![ChainVerdict::Expired, ChainVerdict::Trusted];
    assert_eq!(
        unpack_context(&bin, roots.clone(), &v).err(),
        Some(DecodeError::Signature { section: 2, signature: 3, kind: SignatureKind::Expired })
    );
    let v = vec![ChainVerdict::Trusted, ChainVerdict::BadSignature];
    assert_eq!(
        unpack_context(&bin, roots.clone(), &v).err(),
        Some(DecodeError::Signature { section: 4, signature: 4, kind: SignatureKind::BadSignature })
    );
    let v = vec![ChainVerdict::Trusted];
    assert_eq!(
        unpack_context(&bin, roots.clone(), &v).err(),
        Some(DecodeError::Signature { section: 4, signature: 4, kind: SignatureKind::UnknownIssuer })
    );
    assert!(unpack_context(&bin, roots, &vec![ChainVerdict::Trusted; 2]).is_ok());
}

#[test]
fn collection_with_overlapping_entries_is_refused() {
    let bin = vec![0u8; 16];
    let entries = vec![
        SectionIndexEntry { sh_type: 3, sh_offset: 4, sh_size: 6 },
        SectionIndexEntry { sh_type: 3, sh_offset: 8, sh_size: 2 },
    ];
    assert_eq!(
        DataSectionCollectionType::decode(&bin, &entries, 0).err(),
        Some(DecodeError::LayoutInvariant)
    );
    let entries = vec![SectionIndexEntry { sh_type: 3, sh_offset: 12, sh_size: 6 }];
    assert_eq!(
        DataSectionCollectionType::decode(&bin, &entries, 0).err(),
        Some(DecodeError::Section { section: 0, fault: SectionFault::IoTruncated })
    );
}

#[test]
fn bytes_to_sign_are_the_covered_range() {
    let mut ctx = demo_context();
    ctx.add_sig(SigRecord { sig_type: SIGTYPE_CRATEBIN, der: vec![0; 10] });
    ctx.add_sig(SigRecord { sig_type: SIGTYPE_WHOLE, der: vec![0; 7] });
    ctx.add_sig(SigRecord { sig_type: 9, der: vec![0; 7] });
    assert_eq!(ctx.bytes_to_sign(0), Some(demo_binary()));
    let bin = ctx.encode_to_crate_package().unwrap();
    let at = CratePackage::decode(&bin).unwrap().section_index.entries[4].sh_offset as usize;
    assert_eq!(ctx.bytes_to_sign(1), Some(bin[..at].to_vec()));
    assert_eq!(ctx.bytes_to_sign(2), None);
    assert_eq!(ctx.bytes_to_sign(3), None);
}
