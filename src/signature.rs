//! Checking a signature section against the bytes it covers.
use vstd::prelude::*;
use crate::codec::{u32_at, read_u32, copy_range, bytes_eq};
use crate::crypto::{
    sha256, sha256_of, signed_data_parses, parses_as_signed_data, signed_attrs_of, signed_attributes,
};
use crate::layout::SectionIndexEntry;
use crate::section::{SignatureKind, SIG_HEADER_SIZE};
use crate::context::{SIGTYPE_CRATEBIN, SIGTYPE_WHOLE};

verus! {

/// The DER content of the OID of the CMS message-digest attribute, 1.2.840.113549.1.9.4.
pub open spec fn message_digest_oid() -> Seq<u8> {
    seq![0x2au8, 0x86u8, 0x48u8, 0x86u8, 0xf7u8, 0x0du8, 0x01u8, 0x09u8, 0x04u8]
}

/// The attributes carry a message digest, and every message digest they carry is `digest`.
pub open spec fn digest_attested(attrs: Seq<(Seq<u8>, Seq<u8>)>, digest: Seq<u8>) -> bool {
    &&& exists|i: int| 0 <= i < attrs.len() && #[trigger] attrs[i].0 == message_digest_oid()
    &&& forall|i: int|
        0 <= i < attrs.len() && #[trigger] attrs[i].0 == message_digest_oid() ==> attrs[i].1
            == digest
}

/// Whether the attributes attest `digest`.
pub fn attests_digest(attrs: &Vec<(Vec<u8>, Vec<u8>)>, digest: &[u8]) -> (r: bool)
    ensures
        r == digest_attested(
            Seq::new(attrs@.len(), |i: int| (attrs@[i].0@, attrs@[i].1@)),
            digest@,
        ),
{
    let ghost v = Seq::new(attrs@.len(), |i: int| (attrs@[i].0@, attrs@[i].1@));
    let oid: [u8; 9] = [0x2au8, 0x86u8, 0x48u8, 0x86u8, 0xf7u8, 0x0du8, 0x01u8, 0x09u8, 0x04u8];
    assert(oid@ =~= message_digest_oid());
    let mut found = false;
    let mut i: usize = 0;
    while i < attrs.len()
        invariant
            i <= attrs@.len(),
            v == Seq::new(attrs@.len(), |i: int| (attrs@[i].0@, attrs@[i].1@)),
            oid@ == message_digest_oid(),
            found == exists|j: int| 0 <= j < i && #[trigger] v[j].0 == message_digest_oid(),
            forall|j: int| 0 <= j < i && #[trigger] v[j].0 == message_digest_oid() ==> v[j].1 == digest@,
        decreases attrs@.len() - i,
    {
        if bytes_eq(attrs[i].0.as_slice(), oid.as_slice()) {
            assert(v[i as int].0 == message_digest_oid());
            if !bytes_eq(attrs[i].1.as_slice(), digest) {
                return false;
            }
            found = true;
        }
        i += 1;
    }
    found
}

/// The byte range that the signature section `e` covers in the file `s`, whose
/// archive section is `archive`; `None` for an unknown SIGTYPE.
pub open spec fn sig_range(s: Seq<u8>, archive: SectionIndexEntry, e: SectionIndexEntry) -> Option<
    (int, int),
> {
    let t = u32_at(s, e.sh_offset + 4);
    if t == SIGTYPE_CRATEBIN {
        Some((archive.sh_offset as int, archive.sh_offset + archive.sh_size))
    } else if t == SIGTYPE_WHOLE {
        Some((0, e.sh_offset as int))
    } else {
        None
    }
}

/// What is wrong with the signature section `e`, if anything: its SignedData does
/// not decode or has an unknown SIGTYPE (`Malformed`), or it does not attest the
/// SHA-256 digest of the range it covers (`DigestMismatch`).
pub open spec fn sig_fault(s: Seq<u8>, archive: SectionIndexEntry, e: SectionIndexEntry) -> Option<
    SignatureKind,
> {
    let der = s.subrange(e.sh_offset + SIG_HEADER_SIZE, e.sh_offset + e.sh_size);
    if !signed_data_parses(der) {
        Some(SignatureKind::Malformed)
    } else {
        match sig_range(s, archive, e) {
            None => Some(SignatureKind::Malformed),
            Some(r) => if digest_attested(signed_attrs_of(der), sha256_of(s.subrange(r.0, r.1))) {
                None
            } else {
                Some(SignatureKind::DigestMismatch)
            },
        }
    }
}

/// Checks the signature section `e` of the file `bin` against the bytes it covers.
pub fn check_signature(bin: &[u8], archive: SectionIndexEntry, e: SectionIndexEntry) -> (r: Result<
    (),
    SignatureKind,
>)
    requires
        archive.sh_offset + archive.sh_size <= bin@.len(),
        SIG_HEADER_SIZE <= e.sh_size,
        e.sh_offset + e.sh_size <= bin@.len(),
    ensures
        r is Ok <==> sig_fault(bin@, archive, e) is None,
        r matches Err(k) ==> sig_fault(bin@, archive, e) == Some(k),
{
    let _len = bin.len();
    let p = e.sh_offset as usize;
    let der = copy_range(bin, p + SIG_HEADER_SIZE, e.sh_size as usize - SIG_HEADER_SIZE);
    if !parses_as_signed_data(der.as_slice()) {
        return Err(SignatureKind::Malformed);
    }
    let t = read_u32(bin, p + 4).unwrap();
    let (start, len) = if t == SIGTYPE_CRATEBIN {
        (archive.sh_offset as usize, archive.sh_size as usize)
    } else if t == SIGTYPE_WHOLE {
        (0usize, p)
    } else {
        return Err(SignatureKind::Malformed);
    };
    let covered = copy_range(bin, start, len);
    let digest = sha256(covered.as_slice());
    let attrs = signed_attributes(der.as_slice());
    proof {
        assert(Seq::new(attrs@.len(), |i: int| (attrs@[i].0@, attrs@[i].1@)) =~= signed_attrs_of(der@));
    }
    if attests_digest(&attrs, digest.as_slice()) {
        Ok(())
    } else {
        Err(SignatureKind::DigestMismatch)
    }
}

/// What a certificate-path and signature-value verifier reports for one SignedData
/// against the trust anchors.
#[derive(Clone, Copy, Debug, PartialEq, Eq)]
pub enum ChainVerdict {
    /// The signer's chain ends at a trust anchor, every certificate is valid now,
    /// and the signature value checks.
    Trusted,
    /// No chain ends at a trust anchor.
    UnknownIssuer,
    /// A certificate of the chain is outside its validity window.
    Expired,
    /// The signature value does not check.
    BadSignature,
}

/// The refusal that a verdict stands for, if any.
pub open spec fn verdict_fault(v: ChainVerdict) -> Option<SignatureKind> {
    match v {
        ChainVerdict::Trusted => None,
        ChainVerdict::UnknownIssuer => Some(SignatureKind::UnknownIssuer),
        ChainVerdict::Expired => Some(SignatureKind::Expired),
        ChainVerdict::BadSignature => Some(SignatureKind::BadSignature),
    }
}

/// The refusal that a verdict stands for, if any.
pub fn verdict_kind(v: ChainVerdict) -> (r: Option<SignatureKind>)
    ensures
        r == verdict_fault(v),
{
    match v {
        ChainVerdict::Trusted => None,
        ChainVerdict::UnknownIssuer => Some(SignatureKind::UnknownIssuer),
        ChainVerdict::Expired => Some(SignatureKind::Expired),
        ChainVerdict::BadSignature => Some(SignatureKind::BadSignature),
    }
}

/// The verdict given for signature `k`; a signature with no verdict has no known issuer.
pub open spec fn verdict_at(vs: Seq<ChainVerdict>, k: int) -> ChainVerdict {
    if 0 <= k < vs.len() {
        vs[k]
    } else {
        ChainVerdict::UnknownIssuer
    }
}

/// The section that a failure of the signature section `e`, at index `i`, is
/// reported against: the archive section for a CRATEBIN signature, else itself.
pub open spec fn named_section(s: Seq<u8>, e: SectionIndexEntry, i: int) -> int {
    if u32_at(s, e.sh_offset + 4) == SIGTYPE_CRATEBIN {
        2
    } else {
        i
    }
}

/// The section that a failure of the signature section `e`, at index `i`, is reported against.
pub fn covered_section(bin: &[u8], e: SectionIndexEntry, i: usize) -> (r: usize)
    requires
        e.sh_offset + 8 <= bin@.len(),
    ensures
        r as int == named_section(bin@, e, i as int),
{
    let _len = bin.len();
    if read_u32(bin, e.sh_offset as usize + 4).unwrap() == SIGTYPE_CRATEBIN {
        2
    } else {
        i
    }
}

/// Coverage boundary. The verdict on a CRATEBIN signature section `e` depends only
/// on its own bytes and on the bytes of the archive section `archive`: a file `t`
/// that agrees with `s` there, whatever else differs, gets the same verdict.
pub proof fn lemma_cratebin_boundary(
    s: Seq<u8>,
    t: Seq<u8>,
    archive: SectionIndexEntry,
    e: SectionIndexEntry,
)
    requires
        archive.sh_offset + archive.sh_size <= s.len(),
        e.sh_offset + e.sh_size <= s.len(),
        SIG_HEADER_SIZE <= e.sh_size,
        s.len() == t.len(),
        forall|i: int|
            archive.sh_offset <= i < archive.sh_offset + archive.sh_size ==> #[trigger] s[i] == t[i],
        forall|i: int| e.sh_offset <= i < e.sh_offset + e.sh_size ==> #[trigger] s[i] == t[i],
        u32_at(s, e.sh_offset + 4) == SIGTYPE_CRATEBIN,
    ensures
        sig_fault(s, archive, e) == sig_fault(t, archive, e),
{
    let p = e.sh_offset as int;
    assert(s[p + 4] == t[p + 4]);
    assert(s[p + 5] == t[p + 5]);
    assert(s[p + 6] == t[p + 6]);
    assert(s[p + 7] == t[p + 7]);
    assert(s.subrange(p + SIG_HEADER_SIZE, p + e.sh_size) =~= t.subrange(p + SIG_HEADER_SIZE, p + e.sh_size));
    assert(s.subrange(archive.sh_offset as int, archive.sh_offset + archive.sh_size) =~= t.subrange(
        archive.sh_offset as int,
        archive.sh_offset + archive.sh_size,
    ));
}

} // verus!
