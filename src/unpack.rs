//! Reading a package file back into a context.
use vstd::prelude::*;
use vstd::string::to_string_from_display_ensures_for_str;
use crate::signature::ChainVerdict;
use crate::context::{PackageContext, context_matches, entries_shaped, sigs_verified, first_sig_fault};
use crate::layout::{entries_of, header_of};
use crate::package::{CratePackage, file_ok, package_matches, structure_ok, fingerprint_ok};
use crate::signature::named_section;
use crate::section::DecodeError;

verus! {

/// Where a package file is and which trust anchors it is checked against.
pub struct Unpacking {
    pub file_path: String,
    pub cas_path: Vec<String>,
}

impl Unpacking {
    /// An unpacking of the file at `path`, with no trust anchors yet.
    pub fn new(path: &str) -> (r: Unpacking)
        ensures
            r.file_path@ == path@,
            r.cas_path@.len() == 0,
    {
        let file_path = path.to_string();
        proof {
            to_string_from_display_ensures_for_str(path, file_path);
        }
        Unpacking { file_path, cas_path: Vec::new() }
    }

    /// Adds the path of a trust anchor.
    pub fn add_ca_path(&mut self, path: String)
        ensures
            final(self).cas_path@ == old(self).cas_path@.push(path),
            final(self).file_path == old(self).file_path,
    {
        self.cas_path.push(path);
    }

    /// Decodes `bin`, the bytes of the file at `file_path`, against `root_cas`, the
    /// bytes of the trust anchors at `cas_path`, and `verdicts`, what a path and
    /// signature verifier reported for each signature against them.
    pub fn unpack_context(self, bin: &[u8], root_cas: Vec<Vec<u8>>, verdicts: &Vec<ChainVerdict>) -> (r: Result<
        PackageContext,
        DecodeError,
    >)
        ensures
            r is Ok <==> {
                &&& structure_ok(bin@)
                &&& entries_shaped(entries_of(bin@, header_of(bin@)))
                &&& (header_of(bin@).sh_num > 3 ==> root_cas@.len() > 0)
                &&& sigs_verified(bin@, verdicts@)
                &&& fingerprint_ok(bin@)
            },
            r matches Ok(c) ==> c.root_cas@ == root_cas@ && exists|p: CratePackage|
                package_matches(bin@, p) && #[trigger] context_matches(c, p),
            r == Err::<PackageContext, DecodeError>(DecodeError::NoTrustAnchors) <==> (structure_ok(bin@)
                && entries_shaped(entries_of(bin@, header_of(bin@))) && header_of(bin@).sh_num > 3
                && root_cas@.len() == 0),
            r matches Err(DecodeError::Signature { section, signature, kind }) ==> section as int == named_section(bin@, entries_of(bin@, header_of(bin@))[signature as int], signature as int) && first_sig_fault(
                bin@,
                verdicts@,
                signature as int,
                kind,
            ),
            (structure_ok(bin@) && entries_shaped(entries_of(bin@, header_of(bin@))) && (header_of(
                bin@,
            ).sh_num > 3 ==> root_cas@.len() > 0) && !sigs_verified(bin@, verdicts@)) ==> r matches Err(
                DecodeError::Signature { .. },
            ),
            r matches Err(e) ==> (e == DecodeError::IoTruncated || e == DecodeError::BadMagic
                || e == DecodeError::FingerprintMismatch) ==> !file_ok(bin@),
            r == Err::<PackageContext, DecodeError>(DecodeError::FingerprintMismatch) <==> (structure_ok(bin@) && entries_shaped(entries_of(bin@, header_of(bin@))) && (header_of(bin@).sh_num > 3 ==> root_cas@.len() > 0) && sigs_verified(bin@, verdicts@) && !fingerprint_ok(bin@)),
    {
        unpack_context(bin, root_cas, verdicts)
    }
}

/// Decodes the package file `bin` and checks each of its signatures against the
/// SHA-256 digest of the range it covers and against `verdicts`, what a path and
/// signature verifier reported for each against `root_cas`; trust anchors must be
/// given when the file carries a signature.
pub fn unpack_context(bin: &[u8], root_cas: Vec<Vec<u8>>, verdicts: &Vec<ChainVerdict>) -> (r: Result<PackageContext, DecodeError>)
    ensures
        r is Ok <==> {
            &&& structure_ok(bin@)
            &&& entries_shaped(entries_of(bin@, header_of(bin@)))
            &&& (header_of(bin@).sh_num > 3 ==> root_cas@.len() > 0)
            &&& sigs_verified(bin@, verdicts@)
            &&& fingerprint_ok(bin@)
        },
        r matches Ok(c) ==> c.root_cas@ == root_cas@ && exists|p: CratePackage|
            package_matches(bin@, p) && #[trigger] context_matches(c, p),
        r == Err::<PackageContext, DecodeError>(DecodeError::NoTrustAnchors) <==> (structure_ok(bin@)
            && entries_shaped(entries_of(bin@, header_of(bin@))) && header_of(bin@).sh_num > 3
            && root_cas@.len() == 0),
        r matches Err(DecodeError::Signature { section, signature, kind }) ==> section as int == named_section(bin@, entries_of(bin@, header_of(bin@))[signature as int], signature as int) && first_sig_fault(
            bin@,
            verdicts@,
            signature as int,
            kind,
        ),
        (structure_ok(bin@) && entries_shaped(entries_of(bin@, header_of(bin@))) && (header_of(
            bin@,
        ).sh_num > 3 ==> root_cas@.len() > 0) && !sigs_verified(bin@, verdicts@)) ==> r matches Err(
            DecodeError::Signature { .. },
        ),
        r matches Err(e) ==> (e == DecodeError::IoTruncated || e == DecodeError::BadMagic
            || e == DecodeError::FingerprintMismatch) ==> !file_ok(bin@),
        r == Err::<PackageContext, DecodeError>(DecodeError::FingerprintMismatch) <==> (structure_ok(bin@) && entries_shaped(entries_of(bin@, header_of(bin@))) && (header_of(bin@).sh_num > 3 ==> root_cas@.len() > 0) && sigs_verified(bin@, verdicts@) && !fingerprint_ok(bin@)),
{
    let mut context = PackageContext::new();
    context.set_root_cas_bin(root_cas);
    match context.decode_from_crate_package(bin, verdicts) {
        Ok(p) => {
            assert(context_matches(context, p));
            Ok(context)
        },
        Err(e) => Err(e),
    }
}

} // verus!
