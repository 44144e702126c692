//! The calls into the hashing and DER crates that the container relies on.
use vstd::prelude::*;
use sha2::Digest;
use cms::cert::x509::der::Decode;

verus! {

/// The SHA-256 digest of `data`.
pub uninterp spec fn sha256_of(data: Seq<u8>) -> Seq<u8>;

/// Whether `der` is one DER-encoded CMS SignedData and nothing more.
pub uninterp spec fn signed_data_parses(der: Seq<u8>) -> bool;

/// Relies on sha2's `Sha256::digest`: the SHA-256 digest of the input, 32 bytes long.
#[verifier::external_body]
pub(crate) fn sha256(data: &[u8]) -> (r: Vec<u8>)
    ensures
        r@ == sha256_of(data@),
        r@.len() == 32,
{
    sha2::Sha256::digest(data).to_vec()
}

/// Relies on der's `Decode::from_der` for cms's `SignedData`: whether the bytes
/// decode as one SignedData with no trailing bytes.
#[verifier::external_body]
pub(crate) fn parses_as_signed_data(der: &[u8]) -> (r: bool)
    ensures
        r == signed_data_parses(der@),
{
    cms::signed_data::SignedData::from_der(der).is_ok()
}

/// The signed attributes of every signer of a SignedData, one pair per attribute
/// value: the bytes of the attribute's OID and the content octets of the value;
/// empty where the bytes do not decode as a SignedData.
pub uninterp spec fn signed_attrs_of(der: Seq<u8>) -> Seq<(Seq<u8>, Seq<u8>)>;

/// Relies on der's `Decode::from_der` for cms's `SignedData`, then reads each
/// `SignerInfo::signed_attrs`, each `Attribute::oid` (`ObjectIdentifier::as_bytes`)
/// and the content of each value (`Any::value`).
#[verifier::external_body]
pub(crate) fn signed_attributes(der: &[u8]) -> (r: Vec<(Vec<u8>, Vec<u8>)>)
    ensures
        r@.len() == signed_attrs_of(der@).len(),
        forall|i: int|
            0 <= i < r@.len() ==> (#[trigger] r@[i]).0@ == signed_attrs_of(der@)[i].0 && r@[i].1@
                == signed_attrs_of(der@)[i].1,
{
    let sd = match cms::signed_data::SignedData::from_der(der) {
        Ok(sd) => sd,
        Err(_) => return Vec::new(),
    };
    sd.signer_infos.0.iter().flat_map(|si| si.signed_attrs.iter().flat_map(|attrs| attrs.iter())).flat_map(
        |a| a.values.iter().map(move |v| (a.oid.as_bytes().to_vec(), v.value().to_vec())),
    ).collect()
}

} // verus!
